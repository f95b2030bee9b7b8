use elp::hir::ExprId;
use elp::source_map::AstPtr;
use elp::source_map::BodySourceMap;

fn ptr(start: u32, end: u32) -> AstPtr {
    AstPtr { kind: 7, start, end }
}

#[test]
fn ids_and_nodes_map_both_ways() {
    let mut m = BodySourceMap::new();
    assert!(m.insert(ExprId(0), ptr(0, 3)));
    assert!(m.insert(ExprId(2), ptr(4, 9)));
    for id in [ExprId(0), ExprId(2)] {
        let node = m.node(id).unwrap();
        assert_eq!(m.expr_id(node), Some(id));
    }
    // a synthetic id has no node
    assert_eq!(m.node(ExprId(1)), None);
    assert_eq!(m.expr_id(ptr(3, 4)), None);
}

#[test]
fn duplicate_entries_are_refused() {
    let mut m = BodySourceMap::new();
    assert!(m.insert(ExprId(0), ptr(0, 3)));
    assert!(!m.insert(ExprId(0), ptr(5, 6)));
    assert!(!m.insert(ExprId(1), ptr(0, 3)));
    assert_eq!(m.node(ExprId(0)), Some(ptr(0, 3)));
    assert_eq!(m.node(ExprId(1)), None);
}
