use call_graph::graph::{Edge, Graph, NodeKind};
use call_graph::ids::{DefId, HirId};

fn def(index: u32) -> DefId {
    DefId { krate: 0, index }
}

fn hir(local_id: u32) -> HirId {
    HirId { owner: 0, local_id }
}

#[test]
fn add_node_returns_sequential_ids() {
    let mut g = Graph::new(String::from("unit"));
    for k in 0..5usize {
        let id = g.add_node("f", NodeKind::local_fn(def(k as u32), hir(k as u32)));
        assert_eq!(id, k);
    }
    let id = g.add_node("ext", NodeKind::non_local_fn(def(99)));
    assert_eq!(id, 5);
}

#[test]
fn get_node_in_bounds_iff() {
    let mut g = Graph::new(String::from("unit"));
    assert!(g.get_node(0).is_none());
    g.add_node("a", NodeKind::non_local_fn(def(1)));
    g.add_node("b", NodeKind::non_local_fn(def(2)));
    let a = g.get_node(0).unwrap();
    assert_eq!(a.id(), 0);
    assert_eq!(a.label(), "a");
    assert!(!a.panics);
    let b = g.get_node(1).unwrap();
    assert_eq!(b.id(), 1);
    assert_eq!(b.label(), "b");
    assert!(g.get_node(2).is_none());
    assert!(g.get_node(usize::MAX).is_none());
}

#[test]
fn find_local_fn_node_returns_first_match() {
    let mut g = Graph::new(String::from("unit"));
    g.add_node("ext", NodeKind::non_local_fn(def(9)));
    g.add_node("first", NodeKind::local_fn(def(1), hir(7)));
    g.add_node("second", NodeKind::local_fn(def(2), hir(7)));
    let found = g.find_local_fn_node(hir(7)).unwrap();
    assert_eq!(found.id(), 1);
    assert_eq!(found.label(), "first");
}

#[test]
fn find_local_fn_node_unchanged_by_duplicate_insert() {
    let mut g = Graph::new(String::from("unit"));
    g.add_node("first", NodeKind::local_fn(def(1), hir(7)));
    let before = g.find_local_fn_node(hir(7)).unwrap();
    g.add_node("dup", NodeKind::local_fn(def(1), hir(7)));
    let after = g.find_local_fn_node(hir(7)).unwrap();
    assert_eq!(before.id(), after.id());
    assert_eq!(after.label(), "first");
}

#[test]
fn find_local_fn_node_none_when_no_match() {
    let mut g = Graph::new(String::from("unit"));
    assert!(g.find_local_fn_node(hir(7)).is_none());
    g.add_node("ext", NodeKind::non_local_fn(def(1)));
    g.add_node("local", NodeKind::local_fn(def(2), hir(8)));
    assert!(g.find_local_fn_node(hir(7)).is_none());
}

#[test]
fn find_non_local_fn_node_matches_externals_only() {
    let mut g = Graph::new(String::from("unit"));
    g.add_node("local", NodeKind::local_fn(def(5), hir(1)));
    assert!(g.find_non_local_fn_node(def(5)).is_none());
    g.add_node("ext", NodeKind::non_local_fn(def(5)));
    let found = g.find_non_local_fn_node(def(5)).unwrap();
    assert_eq!(found.id(), 1);
    assert_eq!(found.label(), "ext");
    assert!(g.find_non_local_fn_node(def(6)).is_none());
}

#[test]
fn node_equality_ignores_label_and_panics() {
    let kind = NodeKind::local_fn(def(3), hir(4));
    let mut g1 = Graph::new(String::from("one"));
    let mut g2 = Graph::new(String::from("two"));
    g1.add_node("label a", kind);
    g2.add_node("label b", kind);
    g1.set_panics(0, true);
    let n1 = g1.get_node(0).unwrap();
    let n2 = g2.get_node(0).unwrap();
    assert!(n1.panics);
    assert!(!n2.panics);
    assert_eq!(n1, n2);
}

#[test]
fn node_equality_depends_on_id_and_kind() {
    let kind = NodeKind::local_fn(def(3), hir(4));
    let mut g1 = Graph::new(String::from("one"));
    let mut g2 = Graph::new(String::from("two"));
    g1.add_node("x", kind);
    g2.add_node("x", NodeKind::local_fn(def(3), hir(5)));
    assert_ne!(g1.get_node(0).unwrap(), g2.get_node(0).unwrap());
    let mut g3 = Graph::new(String::from("three"));
    g3.add_node("pad", kind);
    g3.add_node("x", kind);
    // same kind, different id
    assert_ne!(g1.get_node(0).unwrap(), g3.get_node(1).unwrap());
}

#[test]
fn edge_equality_ignores_call_site_and_ty() {
    let e1 = Edge::new(0, 1, hir(10));
    let mut e2 = Edge::new(0, 1, hir(20));
    e2.ty = Some(String::from("i32"));
    assert_eq!(e1, e2);
    let e3 = Edge::new(1, 0, hir(10));
    assert_ne!(e1, e3);
    let e4 = Edge::new(0, 2, hir(10));
    assert_ne!(e1, e4);
}

#[test]
fn new_edge_has_unset_ty() {
    let e = Edge::new(2, 3, hir(10));
    assert_eq!(e.from, 2);
    assert_eq!(e.to, 3);
    assert_eq!(e.call_id, hir(10));
    assert!(e.ty.is_none());
}

#[test]
fn def_id_extracted_from_both_kinds() {
    assert_eq!(NodeKind::local_fn(def(3), hir(4)).def_id(), def(3));
    assert_eq!(NodeKind::non_local_fn(def(8)).def_id(), def(8));
}

#[test]
fn incoming_edges_returns_matching_edges_in_order() {
    let mut g = Graph::new(String::from("unit"));
    let a = g.add_node("a", NodeKind::local_fn(def(0), hir(0)));
    let b = g.add_node("b", NodeKind::local_fn(def(1), hir(1)));
    let c = g.add_node("c", NodeKind::local_fn(def(2), hir(2)));
    let d = g.add_node("d", NodeKind::local_fn(def(3), hir(3)));
    g.add_edge(Edge::new(a, b, hir(100)));
    g.add_edge(Edge::new(c, b, hir(101)));
    g.add_edge(Edge::new(b, d, hir(102)));
    let node_b = g.get_node(b).unwrap();
    let incoming = g.incoming_edges(&node_b);
    assert_eq!(incoming, vec![0, 1]);
    let first = g.get_edge(incoming[0]).unwrap();
    assert_eq!((first.from, first.to, first.call_id), (a, b, hir(100)));
    let second = g.get_edge(incoming[1]).unwrap();
    assert_eq!((second.from, second.to, second.call_id), (c, b, hir(101)));
    let node_a = g.get_node(a).unwrap();
    assert!(g.incoming_edges(&node_a).is_empty());
}

#[test]
fn backward_walk_over_two_hops() {
    // f calls g; g calls the external panic_fn; marking panic_fn and
    // walking incoming edges reaches g, then f.
    let mut g = Graph::new(String::from("unit"));
    let f_id = g.add_node("f", NodeKind::local_fn(def(1), hir(1)));
    let g_id = g.add_node("g", NodeKind::local_fn(def(2), hir(2)));
    let panic_id = g.add_node("panic_fn", NodeKind::non_local_fn(def(3)));
    g.add_edge(Edge::new(f_id, g_id, hir(10)));
    g.add_edge(Edge::new(g_id, panic_id, hir(11)));

    let panic_node = g.find_non_local_fn_node(def(3)).unwrap();
    g.set_panics(panic_node.id(), true);
    assert!(g.get_node(panic_id).unwrap().panics);

    let hop1 = g.incoming_edges(&g.get_node(panic_id).unwrap());
    assert_eq!(hop1.len(), 1);
    let e1 = g.get_edge(hop1[0]).unwrap();
    assert_eq!((e1.from, e1.to), (g_id, panic_id));

    let hop2 = g.incoming_edges(&g.get_node(e1.from).unwrap());
    assert_eq!(hop2.len(), 1);
    let e2 = g.get_edge(hop2[0]).unwrap();
    assert_eq!((e2.from, e2.to), (f_id, g_id));
}

#[test]
fn set_edge_ty_fills_in_type() {
    let mut g = Graph::new(String::from("unit"));
    let a = g.add_node("a", NodeKind::local_fn(def(0), hir(0)));
    let b = g.add_node("b", NodeKind::local_fn(def(1), hir(1)));
    g.add_edge(Edge::new(a, b, hir(10)));
    assert!(g.get_edge(0).unwrap().ty.is_none());
    g.set_edge_ty(0, String::from("String"));
    assert_eq!(g.get_edge(0).unwrap().ty.as_deref(), Some("String"));
    assert!(g.get_edge(1).is_none());
}

#[test]
fn nodes_and_edges_cloned_copies_compare_equal() {
    let mut g = Graph::new(String::from("unit"));
    g.add_node("a", NodeKind::local_fn(def(0), hir(0)));
    let n = g.get_node(0).unwrap();
    assert_eq!(n.clone(), n);
    let e = Edge::new(0, 0, hir(1));
    assert_eq!(e.clone(), e);
}

#[test]
fn crate_name_is_kept() {
    let g = Graph::new(String::from("my-unit"));
    assert_eq!(g.crate_name(), "my-unit");
}

#[test]
fn api_built_graph_is_well_formed() {
    let mut g = Graph::new(String::from("unit"));
    assert!(g.is_well_formed());
    let a = g.add_node("a", NodeKind::local_fn(def(0), hir(0)));
    let b = g.add_node("b", NodeKind::non_local_fn(def(1)));
    g.add_edge(Edge::new(a, b, hir(10)));
    assert!(g.is_well_formed());
}

#[test]
fn dangling_edge_is_not_well_formed() {
    let mut g = Graph::new(String::from("unit"));
    g.add_node("a", NodeKind::local_fn(def(0), hir(0)));
    g.edges.push(Edge::new(0, 5, hir(10)));
    assert!(!g.is_well_formed());
}
