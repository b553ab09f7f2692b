use vstd::prelude::*;

use crate::error::ErrorCode;

verus! {

/// A single column value as serializers see it.
pub enum DataValue {
    Null,
    Boolean(bool),
}

impl DataValue {
    pub fn is_null(&self) -> (r: bool)
        ensures
            r == (*self is Null),
    {
        match self {
            DataValue::Null => true,
            _ => false,
        }
    }
}

/// A column of values: plain booleans, or any column wrapped with a
/// validity mask.
pub enum ColumnRef {
    Boolean(Vec<bool>),
    Nullable(NullableColumn),
}

/// A column plus its validity mask; a row whose validity bit is unset
/// holds null.
pub struct NullableColumn {
    pub validity: Vec<bool>,
    pub inner: Box<ColumnRef>,
}

impl NullableColumn {
    /// Whether `row` holds null.
    pub fn null_at(&self, row: usize) -> (r: bool)
        requires
            row < self.validity@.len(),
        ensures
            r == !self.validity@[row as int],
    {
        !self.validity[row]
    }
}

/// Renders values and columns as display strings. A value the
/// serializer is not built for is a type mismatch, never a panic.
pub trait TypeSerializer {
    /// The rendering of one value.
    spec fn spec_serialize_value(&self, value: DataValue) -> Result<Seq<char>, ErrorCode>;

    /// The rendering of one column, one string per row.
    spec fn spec_serialize_column(&self, column: ColumnRef) -> Result<Seq<Seq<char>>, ErrorCode>;

    fn serialize_value(&self, value: &DataValue) -> (r: Result<String, ErrorCode>)
        ensures
            r is Ok <==> self.spec_serialize_value(*value) is Ok,
            r matches Ok(s) ==> (self.spec_serialize_value(*value) matches Ok(t) && s@ == t),
            r matches Err(e) ==> self.spec_serialize_value(*value) == Result::<
                Seq<char>,
                ErrorCode,
            >::Err(e),
    ;

    fn serialize_column(&self, column: &ColumnRef) -> (r: Result<Vec<String>, ErrorCode>)
        ensures
            r is Ok <==> self.spec_serialize_column(*column) is Ok,
            r matches Ok(v) ==> (self.spec_serialize_column(*column) matches Ok(sv) && v@.len()
                == sv.len() && (forall|i: int|
                0 <= i < v@.len() ==> (#[trigger] v@[i])@ == sv[i])),
            r matches Err(e) ==> self.spec_serialize_column(*column) == Result::<
                Seq<Seq<char>>,
                ErrorCode,
            >::Err(e),
    ;
}

/// Renders boolean values and columns.
pub struct BooleanSerializer;

impl TypeSerializer for BooleanSerializer {
    open spec fn spec_serialize_value(&self, value: DataValue) -> Result<Seq<char>, ErrorCode> {
        match value {
            DataValue::Boolean(b) => Result::Ok(
                if b {
                    "true"@
                } else {
                    "false"@
                },
            ),
            _ => Result::Err(ErrorCode::TypeMismatch),
        }
    }

    open spec fn spec_serialize_column(&self, column: ColumnRef) -> Result<
        Seq<Seq<char>>,
        ErrorCode,
    > {
        match column {
            ColumnRef::Boolean(bs) => Result::Ok(
                Seq::new(
                    bs@.len(),
                    |i: int|
                        if bs@[i] {
                            "true"@
                        } else {
                            "false"@
                        },
                ),
            ),
            _ => Result::Err(ErrorCode::TypeMismatch),
        }
    }

    fn serialize_value(&self, value: &DataValue) -> (r: Result<String, ErrorCode>) {
        match value {
            DataValue::Boolean(b) => {
                if *b {
                    Result::Ok("true".to_owned())
                } else {
                    Result::Ok("false".to_owned())
                }
            },
            _ => Result::Err(ErrorCode::TypeMismatch),
        }
    }

    fn serialize_column(&self, column: &ColumnRef) -> (r: Result<Vec<String>, ErrorCode>) {
        match column {
            ColumnRef::Boolean(bs) => {
                let mut out: Vec<String> = Vec::new();
                let mut i: usize = 0;
                while i < bs.len()
                    invariant
                        i <= bs@.len(),
                        out@.len() == i,
                        forall|j: int|
                            0 <= j < i ==> (#[trigger] out@[j])@ == (if bs@[j] {
                                "true"@
                            } else {
                                "false"@
                            }),
                    decreases bs@.len() - i,
                {
                    if bs[i] {
                        out.push("true".to_owned());
                    } else {
                        out.push("false".to_owned());
                    }
                    i += 1;
                }
                Result::Ok(out)
            },
            _ => Result::Err(ErrorCode::TypeMismatch),
        }
    }
}

/// Wraps another serializer: null rows render as `NULL`, the rest as the
/// inner serializer renders them.
pub struct NullableSerializer<S: TypeSerializer> {
    pub inner: S,
}

impl<S: TypeSerializer> TypeSerializer for NullableSerializer<S> {
    open spec fn spec_serialize_value(&self, value: DataValue) -> Result<Seq<char>, ErrorCode> {
        if value is Null {
            Result::Ok("NULL"@)
        } else {
            self.inner.spec_serialize_value(value)
        }
    }

    /// Null rows override the inner rendering; rows past the validity
    /// mask keep it.
    open spec fn spec_serialize_column(&self, column: ColumnRef) -> Result<
        Seq<Seq<char>>,
        ErrorCode,
    > {
        match column {
            ColumnRef::Nullable(nc) => match self.inner.spec_serialize_column(*nc.inner) {
                Result::Ok(rows) => Result::Ok(
                    Seq::new(
                        rows.len(),
                        |i: int|
                            if i < nc.validity@.len() && !nc.validity@[i] {
                                "NULL"@
                            } else {
                                rows[i]
                            },
                    ),
                ),
                Result::Err(e) => Result::Err(e),
            },
            _ => Result::Err(ErrorCode::TypeMismatch),
        }
    }

    fn serialize_value(&self, value: &DataValue) -> (r: Result<String, ErrorCode>) {
        if value.is_null() {
            Result::Ok("NULL".to_owned())
        } else {
            self.inner.serialize_value(value)
        }
    }

    fn serialize_column(&self, column: &ColumnRef) -> (r: Result<Vec<String>, ErrorCode>) {
        let nc = match column {
            ColumnRef::Nullable(nc) => nc,
            _ => {
                return Result::Err(ErrorCode::TypeMismatch);
            },
        };
        let mut res = match self.inner.serialize_column(&nc.inner) {
            Result::Ok(res) => res,
            Result::Err(e) => {
                return Result::Err(e);
            },
        };
        let rows = if nc.validity.len() <= res.len() {
            nc.validity.len()
        } else {
            res.len()
        };
        let ghost inner_rows = match self.inner.spec_serialize_column(*nc.inner) {
            Result::Ok(rows) => rows,
            Result::Err(_) => Seq::empty(),
        };
        let mut row: usize = 0;
        while row < rows
            invariant
                *column == ColumnRef::Nullable(*nc),
                self.inner.spec_serialize_column(*nc.inner) == Result::<
                    Seq<Seq<char>>,
                    ErrorCode,
                >::Ok(inner_rows),
                rows <= res@.len(),
                rows <= nc.validity@.len(),
                row <= rows,
                res@.len() == inner_rows.len(),
                forall|j: int|
                    row <= j < res@.len() ==> (#[trigger] res@[j])@ == inner_rows[j],
                forall|j: int|
                    0 <= j < row ==> (#[trigger] res@[j])@ == (if !nc.validity@[j] {
                        "NULL"@
                    } else {
                        inner_rows[j]
                    }),
            decreases rows - row,
        {
            if nc.null_at(row) {
                res.set(row, "NULL".to_owned());
            }
            row += 1;
        }
        proof {
            let sv = match self.spec_serialize_column(*column) {
                Result::Ok(sv) => sv,
                Result::Err(_) => Seq::empty(),
            };
            assert(sv.len() == inner_rows.len());
            assert forall|i: int| 0 <= i < res@.len() implies (#[trigger] res@[i])@ == sv[i] by {
                if i < rows {
                    assert(i < nc.validity@.len());
                } else {
                    if i < nc.validity@.len() && !nc.validity@[i] {
                        assert(rows == res@.len());
                    }
                }
            }
        }
        Result::Ok(res)
    }
}

} // verus!
