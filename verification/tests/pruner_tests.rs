use selective_scan::error::ErrorCode;
use selective_scan::pruner::{
    BuiltPruner, ClusterKey, ClusterStatistics, CmpOp, Expr, FunctionContext, PageIndex,
    PagePruner, PagePrunerCreator, RemoteExpr, TableSchema,
};

fn schema_abc() -> TableSchema {
    TableSchema { fields: vec![1, 2, 3] }
}

fn stats(key_id: u32, min: Vec<i64>, max: Vec<i64>) -> ClusterStatistics {
    ClusterStatistics {
        cluster_key_id: key_id,
        min,
        max,
        pages: None,
    }
}

#[test]
fn no_cluster_key_keeps_everything() {
    let p = PagePrunerCreator::try_create(
        FunctionContext {},
        None,
        vec![RemoteExpr::ColumnRef { id: 1 }],
        Some(&vec![Expr::Compare {
            col: 1,
            op: CmpOp::Eq,
            value: 7,
        }]),
        &schema_abc(),
    )
    .unwrap();
    assert_eq!(p.should_keep(&None), (true, None));
    assert_eq!(
        p.should_keep(&Some(stats(9, vec![100], vec![200]))),
        (true, None)
    );
}

#[test]
fn empty_key_list_keeps_everything() {
    let p = PagePrunerCreator::try_create(
        FunctionContext {},
        Some(ClusterKey(9, String::from("(a)"))),
        vec![],
        Some(&vec![Expr::Compare {
            col: 1,
            op: CmpOp::Eq,
            value: 7,
        }]),
        &schema_abc(),
    )
    .unwrap();
    assert_eq!(p.should_keep(&None), (true, None));
    assert_eq!(
        p.should_keep(&Some(stats(9, vec![8], vec![9]))),
        (true, None)
    );
}

#[test]
fn derived_key_expression_keeps_everything() {
    let p = PagePrunerCreator::try_create(
        FunctionContext {},
        Some(ClusterKey(9, String::from("(a + 1)"))),
        vec![RemoteExpr::FunctionCall],
        Some(&vec![Expr::Compare {
            col: 1,
            op: CmpOp::Lt,
            value: 0,
        }]),
        &schema_abc(),
    )
    .unwrap();
    assert_eq!(p.should_keep(&None), (true, None));
}

#[test]
fn absent_or_empty_predicate_keeps_everything() {
    let keys = || vec![RemoteExpr::ColumnRef { id: 1 }];
    let p = PagePrunerCreator::try_create(
        FunctionContext {},
        Some(ClusterKey(9, String::from("(a)"))),
        keys(),
        None,
        &schema_abc(),
    )
    .unwrap();
    assert_eq!(p.should_keep(&None), (true, None));
    let empty: Vec<Expr> = vec![];
    let p = PagePrunerCreator::try_create(
        FunctionContext {},
        Some(ClusterKey(9, String::from("(a)"))),
        keys(),
        Some(&empty),
        &schema_abc(),
    )
    .unwrap();
    assert_eq!(
        p.should_keep(&Some(stats(9, vec![0], vec![0]))),
        (true, None)
    );
}

#[test]
fn contradictory_predicate_drops_every_group() {
    // col1 < 5 and col1 > 10 can hold for no value at all.
    let exprs = vec![
        Expr::Compare {
            col: 1,
            op: CmpOp::Lt,
            value: 5,
        },
        Expr::Compare {
            col: 1,
            op: CmpOp::Gt,
            value: 10,
        },
    ];
    let p = PagePrunerCreator::try_create(
        FunctionContext {},
        Some(ClusterKey(9, String::from("(a)"))),
        vec![RemoteExpr::ColumnRef { id: 1 }],
        Some(&exprs),
        &schema_abc(),
    )
    .unwrap();
    assert!(matches!(p, BuiltPruner::AlwaysDrop(_)));
    assert_eq!(p.should_keep(&None), (false, None));
    assert_eq!(
        p.should_keep(&Some(stats(9, vec![i64::MIN], vec![i64::MAX]))),
        (false, None)
    );
    assert_eq!(
        p.should_keep(&Some(stats(9, vec![7], vec![7]))),
        (false, None)
    );
}

#[test]
fn unknown_key_column_is_an_error() {
    let r = PagePrunerCreator::try_create(
        FunctionContext {},
        Some(ClusterKey(9, String::from("(z)"))),
        vec![RemoteExpr::ColumnRef { id: 42 }],
        Some(&vec![Expr::Compare {
            col: 42,
            op: CmpOp::Eq,
            value: 1,
        }]),
        &schema_abc(),
    );
    assert_eq!(r.err(), Some(ErrorCode::UnknownColumn));
}

#[test]
fn dynamic_index_prunes_by_min_max() {
    // col1 == 7: groups whose [min, max] misses 7 are dropped.
    let exprs = vec![Expr::Compare {
        col: 1,
        op: CmpOp::Eq,
        value: 7,
    }];
    let p = PagePrunerCreator::try_create(
        FunctionContext {},
        Some(ClusterKey(9, String::from("(a)"))),
        vec![RemoteExpr::ColumnRef { id: 1 }],
        Some(&exprs),
        &schema_abc(),
    )
    .unwrap();
    assert!(matches!(p, BuiltPruner::Index(_)));
    assert_eq!(
        p.should_keep(&Some(stats(9, vec![0], vec![5]))),
        (false, None)
    );
    assert_eq!(
        p.should_keep(&Some(stats(9, vec![5], vec![9]))),
        (true, None)
    );
    // Absent statistics cannot prune.
    assert_eq!(p.should_keep(&None), (true, None));
    // Stale statistics (another cluster key) cannot prune.
    assert_eq!(
        p.should_keep(&Some(stats(8, vec![0], vec![5]))),
        (true, None)
    );
}

#[test]
fn malformed_statistics_fail_open() {
    let exprs = vec![Expr::Compare {
        col: 1,
        op: CmpOp::Eq,
        value: 7,
    }];
    let p = PagePrunerCreator::try_create(
        FunctionContext {},
        Some(ClusterKey(9, String::from("(a)"))),
        vec![RemoteExpr::ColumnRef { id: 1 }],
        Some(&exprs),
        &schema_abc(),
    )
    .unwrap();
    // Wrong arity: one key column, two minima.
    assert_eq!(
        p.should_keep(&Some(stats(9, vec![0, 0], vec![5, 5]))),
        (true, None)
    );
    // Minimum above maximum.
    assert_eq!(
        p.should_keep(&Some(stats(9, vec![9], vec![5]))),
        (true, None)
    );
    // The error itself is visible through the index's evaluation.
    if let BuiltPruner::Index(ix) = &p {
        let r = ix.apply(&Some(stats(9, vec![9], vec![5])));
        assert_eq!(r.err(), Some(ErrorCode::BadStatistics));
    } else {
        panic!("expected the dynamic index");
    }
}

#[test]
fn page_minimums_narrow_the_scan_window() {
    // col1 == 7 over four pages with minimums [0, 5, 9, 20]: only page 2
    // (values 5..=9) can hold 7, given the next page starts at 9.
    let exprs = vec![Expr::Compare {
        col: 1,
        op: CmpOp::Eq,
        value: 7,
    }];
    let p = PagePrunerCreator::try_create(
        FunctionContext {},
        Some(ClusterKey(9, String::from("(a)"))),
        vec![RemoteExpr::ColumnRef { id: 1 }],
        Some(&exprs),
        &schema_abc(),
    )
    .unwrap();
    let s = ClusterStatistics {
        cluster_key_id: 9,
        min: vec![0],
        max: vec![30],
        pages: Some(vec![0, 5, 9, 20]),
    };
    let (keep, window) = p.should_keep(&Some(s));
    assert!(keep);
    assert_eq!(window, Some(1..2));
}

#[test]
fn no_matching_page_drops_the_group() {
    // col1 == 7, but every page minimum is above it and so is the group
    // minimum window: pages [10, 20], group max 30.
    let exprs = vec![Expr::Compare {
        col: 1,
        op: CmpOp::Eq,
        value: 7,
    }];
    let p = PagePrunerCreator::try_create(
        FunctionContext {},
        Some(ClusterKey(9, String::from("(a)"))),
        vec![RemoteExpr::ColumnRef { id: 1 }],
        Some(&exprs),
        &schema_abc(),
    )
    .unwrap();
    let s = ClusterStatistics {
        cluster_key_id: 9,
        min: vec![7],
        max: vec![30],
        pages: Some(vec![10, 20]),
    };
    assert_eq!(p.should_keep(&Some(s)), (false, None));
}

#[test]
fn index_constant_folding_reports_satisfiability() {
    let schema = schema_abc();
    let sat = PageIndex::try_create(
        FunctionContext {},
        9,
        vec![1],
        &vec![Expr::Compare {
            col: 1,
            op: CmpOp::Ge,
            value: 3,
        }],
        &schema,
    )
    .unwrap();
    assert_eq!(sat.try_apply_const(), Ok(true));
    let unsat = PageIndex::try_create(
        FunctionContext {},
        9,
        vec![1],
        &vec![
            Expr::Compare {
                col: 1,
                op: CmpOp::Le,
                value: 2,
            },
            Expr::Compare {
                col: 1,
                op: CmpOp::Ge,
                value: 3,
            },
        ],
        &schema,
    )
    .unwrap();
    assert_eq!(unsat.try_apply_const(), Ok(false));
}

#[test]
fn unevaluable_conjuncts_are_ignored() {
    // An opaque conjunct cannot prune on its own.
    let exprs = vec![Expr::Other];
    let p = PagePrunerCreator::try_create(
        FunctionContext {},
        Some(ClusterKey(9, String::from("(a)"))),
        vec![RemoteExpr::ColumnRef { id: 1 }],
        Some(&exprs),
        &schema_abc(),
    )
    .unwrap();
    assert!(matches!(p, BuiltPruner::Index(_)));
    assert_eq!(
        p.should_keep(&Some(stats(9, vec![0], vec![0]))),
        (true, None)
    );
}
