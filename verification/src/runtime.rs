use vstd::prelude::*;

use std::sync::Arc;

use crate::error::ErrorCode;
use crate::row_group::arc_clone;

verus! {

/// A handle describing one worker runtime: how many worker threads it
/// runs and the name its threads carry. The threads themselves are the
/// embedding application's concern; the sizing rule is what this module
/// decides.
pub struct Runtime {
    pub thread_num: usize,
    pub name: Option<String>,
}

impl Runtime {
    /// A runtime handle with the given worker count and thread name.
    pub fn with_worker_threads(workers: usize, name: Option<String>) -> (r: Result<
        Runtime,
        ErrorCode,
    >)
        ensures
            r matches Ok(rt) && rt.thread_num == workers && rt.name == name,
    {
        Result::Ok(Runtime { thread_num: workers, name })
    }
}

/// Relies on `num_cpus::get`: the number of logical CPUs available to
/// the process, always at least 1.
#[verifier::external_body]
fn detected_cpus() -> (r: usize)
    ensures
        r >= 1,
{
    num_cpus::get()
}

/// The registry of process-wide singletons this module populates. The
/// embedding application owns one instance for the process's lifetime
/// and passes it down.
pub struct GlobalInstance {
    pub io_runtime: Option<Arc<Runtime>>,
    pub http_query_runtime: Option<Arc<GlobalHttpQueryRuntime>>,
}

impl GlobalInstance {
    /// A registry with nothing registered yet.
    pub fn new() -> (r: GlobalInstance)
        ensures
            r.io_runtime is None,
            r.http_query_runtime is None,
    {
        GlobalInstance { io_runtime: Option::None, http_query_runtime: Option::None }
    }
}

/// Accessor for the process-wide I/O runtime.
pub struct GlobalIORuntime;

/// The process-wide runtime serving HTTP query contexts.
pub struct GlobalHttpQueryRuntime(pub Runtime);

/// The worker count rule both runtimes use: the given hint or half the
/// detected CPUs, whichever is larger, and never fewer than 2 workers.
fn sized_worker_count(num_cpus: usize) -> (r: usize)
    ensures
        r >= 2,
        r >= num_cpus,
{
    let detected = detected_cpus();
    let half = detected / 2;
    let larger = if num_cpus >= half {
        num_cpus
    } else {
        half
    };
    if larger >= 2 {
        larger
    } else {
        2
    }
}

impl GlobalHttpQueryRuntime {
    /// The runtime this handle wraps.
    pub fn runtime(&self) -> (r: &Runtime)
        ensures
            *r == self.0,
    {
        &self.0
    }
}

impl GlobalIORuntime {
    /// Registers the process-wide I/O runtime, sized from the CPU hint
    /// and the detected CPU count, with its workers named for I/O duty.
    pub fn init(num_cpus: usize, registry: &mut GlobalInstance) -> (r: Result<(), ErrorCode>)
        ensures
            r is Ok,
            final(registry).http_query_runtime == old(registry).http_query_runtime,
            final(registry).io_runtime matches Some(rt) && (*rt).thread_num >= 2
                && (*rt).thread_num >= num_cpus && ((*rt).name matches Some(n) && n@
                == "IO-worker"@),
    {
        let thread_num = sized_worker_count(num_cpus);
        let rt = match Runtime::with_worker_threads(
            thread_num,
            Option::Some("IO-worker".to_owned()),
        ) {
            Result::Ok(rt) => rt,
            Result::Err(e) => {
                return Result::Err(e);
            },
        };
        registry.io_runtime = Option::Some(Arc::new(rt));
        Result::Ok(())
    }

    /// The registered I/O runtime; callers must initialise it first.
    pub fn instance(registry: &GlobalInstance) -> (r: Arc<Runtime>)
        requires
            registry.io_runtime is Some,
        ensures
            registry.io_runtime matches Some(rt) && r == rt,
    {
        match &registry.io_runtime {
            Option::Some(rt) => arc_clone(rt),
            Option::None => {
                proof {
                    assert(false);
                }
                Arc::new(Runtime { thread_num: 2, name: Option::None })
            },
        }
    }
}

impl GlobalHttpQueryRuntime {
    /// Registers the process-wide HTTP query runtime, sized from the CPU
    /// hint and the detected CPU count, with its workers named for HTTP
    /// query duty.
    pub fn init(num_cpus: usize, registry: &mut GlobalInstance) -> (r: Result<(), ErrorCode>)
        ensures
            r is Ok,
            final(registry).io_runtime == old(registry).io_runtime,
            final(registry).http_query_runtime matches Some(h) && (*h).0.thread_num >= 2
                && (*h).0.thread_num >= num_cpus && ((*h).0.name matches Some(n) && n@
                == "http-query-ctx-worker"@),
    {
        let thread_num = sized_worker_count(num_cpus);
        let rt = match Runtime::with_worker_threads(
            thread_num,
            Option::Some("http-query-ctx-worker".to_owned()),
        ) {
            Result::Ok(rt) => rt,
            Result::Err(e) => {
                return Result::Err(e);
            },
        };
        registry.http_query_runtime = Option::Some(Arc::new(GlobalHttpQueryRuntime(rt)));
        Result::Ok(())
    }

    /// The registered HTTP query runtime; callers must initialise it
    /// first.
    pub fn instance(registry: &GlobalInstance) -> (r: Arc<GlobalHttpQueryRuntime>)
        requires
            registry.http_query_runtime is Some,
        ensures
            registry.http_query_runtime matches Some(h) && r == h,
    {
        match &registry.http_query_runtime {
            Option::Some(h) => arc_clone(h),
            Option::None => {
                proof {
                    assert(false);
                }
                Arc::new(
                    GlobalHttpQueryRuntime(Runtime { thread_num: 2, name: Option::None }),
                )
            },
        }
    }
}

} // verus!
