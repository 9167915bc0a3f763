//! The call graph itself: an append-only node registry, an append-only
//! edge list, linear-scan lookup, and the backward (incoming-edge)
//! traversal query.

use vstd::prelude::*;
use vstd::string::StrSliceExecFns;

use crate::ids::{DefId, HirId};

verus! {

/// The identity of the function a node stands for: either defined inside
/// the analyzed unit (carrying both its stable handle and its in-unit
/// handle) or external to it (stable handle only).
#[derive(Clone, Copy, PartialEq, Eq, Structural, Debug)]
pub enum NodeKind {
    LocalFn(DefId, HirId),
    NonLocalFn(DefId),
}

/// One function in the graph. `id` is the node's position in the registry;
/// `label` and `panics` are payload and take no part in node identity.
#[derive(Debug)]
pub struct Node {
    id: usize,
    label: String,
    pub kind: NodeKind,
    pub panics: bool,
}

/// One call site: a directed edge from the caller's node to the callee's.
/// `call_id` and `ty` are payload and take no part in edge identity.
#[derive(Debug)]
pub struct Edge {
    pub from: usize,
    pub to: usize,
    pub call_id: HirId,
    pub ty: Option<String>,
}

/// The graph: nodes and edges in insertion order, plus the display name
/// the renderer derives its graph identifier from.
#[derive(Debug)]
pub struct Graph {
    pub nodes: Vec<Node>,
    pub edges: Vec<Edge>,
    crate_name: String,
}

/// Mathematical model of a `Node`.
pub ghost struct NodeView {
    pub id: nat,
    pub label: Seq<char>,
    pub kind: NodeKind,
    pub panics: bool,
}

/// Mathematical model of an `Edge`.
pub ghost struct EdgeView {
    pub from: nat,
    pub to: nat,
    pub call_id: HirId,
    pub ty: Option<Seq<char>>,
}

/// Mathematical model of a `Graph`.
pub ghost struct GraphView {
    pub nodes: Seq<NodeView>,
    pub edges: Seq<EdgeView>,
    pub crate_name: Seq<char>,
}

impl View for Node {
    type V = NodeView;

    closed spec fn view(&self) -> NodeView {
        NodeView {
            id: self.id as nat,
            label: self.label@,
            kind: self.kind,
            panics: self.panics,
        }
    }
}

impl View for Edge {
    type V = EdgeView;

    closed spec fn view(&self) -> EdgeView {
        EdgeView {
            from: self.from as nat,
            to: self.to as nat,
            call_id: self.call_id,
            ty: self.ty.deep_view(),
        }
    }
}

impl View for Graph {
    type V = GraphView;

    closed spec fn view(&self) -> GraphView {
        GraphView {
            nodes: self.nodes@.map_values(|n: Node| n@),
            edges: self.edges@.map_values(|e: Edge| e@),
            crate_name: self.crate_name@,
        }
    }
}

/// Node identity: `(id, kind)` only; `label` and `panics` are payload.
pub open spec fn node_eq(a: NodeView, b: NodeView) -> bool {
    a.id == b.id && a.kind == b.kind
}

/// Edge identity: `(from, to)` only; `call_id` and `ty` are payload.
pub open spec fn edge_eq(a: EdgeView, b: EdgeView) -> bool {
    a.from == b.from && a.to == b.to
}

impl GraphView {
    /// Well-formedness: every node's id is its position in the registry,
    /// and every edge's endpoints index registered nodes.
    pub open spec fn wf(self) -> bool {
        &&& forall|i: int|
            0 <= i < self.nodes.len() ==> (#[trigger] self.nodes[i]).id == i
        &&& forall|i: int|
            0 <= i < self.edges.len() ==> (#[trigger] self.edges[i]).from < self.nodes.len()
                && self.edges[i].to < self.nodes.len()
    }
}

impl PartialEq for Node {
    fn eq(&self, other: &Self) -> (r: bool) {
        self.id == other.id && self.kind == other.kind
    }
}

impl vstd::std_specs::cmp::PartialEqSpecImpl for Node {
    open spec fn obeys_eq_spec() -> bool {
        true
    }

    open spec fn eq_spec(&self, other: &Self) -> bool {
        node_eq(self@, other@)
    }
}

impl PartialEq for Edge {
    fn eq(&self, other: &Self) -> (r: bool) {
        self.to == other.to && self.from == other.from
    }
}

impl vstd::std_specs::cmp::PartialEqSpecImpl for Edge {
    open spec fn obeys_eq_spec() -> bool {
        true
    }

    open spec fn eq_spec(&self, other: &Self) -> bool {
        edge_eq(self@, other@)
    }
}

impl Clone for Node {
    fn clone(&self) -> (r: Self)
        ensures
            r@ == self@,
    {
        Node { id: self.id, label: self.label.clone(), kind: self.kind, panics: self.panics }
    }
}

impl Clone for Edge {
    fn clone(&self) -> (r: Self)
        ensures
            r@ == self@,
    {
        Edge {
            from: self.from,
            to: self.to,
            call_id: self.call_id,
            ty: match &self.ty {
                Some(t) => Some(t.clone()),
                None => None,
            },
        }
    }
}

impl Node {
    /// Create a new node; `panics` always starts out false.
    fn new(node_id: usize, label: &str, node_type: NodeKind) -> (n: Node)
        ensures
            n@ == (NodeView { id: node_id as nat, label: label@, kind: node_type, panics: false }),
    {
        Node { id: node_id, label: label.to_owned(), kind: node_type, panics: false }
    }

    /// Get the id of this node.
    pub fn id(&self) -> (r: usize)
        ensures
            r == self@.id,
    {
        self.id
    }

    /// Get this node's display label.
    pub fn label(&self) -> (r: &str)
        ensures
            r@ == self@.label,
    {
        self.label.as_str()
    }
}

impl NodeKind {
    /// Get a new `LocalFn`.
    pub fn local_fn(def_id: DefId, hir_id: HirId) -> (r: Self)
        ensures
            r == NodeKind::LocalFn(def_id, hir_id),
    {
        NodeKind::LocalFn(def_id, hir_id)
    }

    /// Get a new `NonLocalFn`.
    pub fn non_local_fn(id: DefId) -> (r: Self)
        ensures
            r == NodeKind::NonLocalFn(id),
    {
        NodeKind::NonLocalFn(id)
    }

    /// Extract the stable handle from this node kind.
    pub fn def_id(&self) -> (r: DefId)
        ensures
            r == self.spec_def_id(),
    {
        match self {
            NodeKind::LocalFn(def_id, _hir_id) => *def_id,
            NodeKind::NonLocalFn(def_id) => *def_id,
        }
    }

    /// The stable handle carried by either variant.
    pub open spec fn spec_def_id(self) -> DefId {
        match self {
            NodeKind::LocalFn(def_id, _) => def_id,
            NodeKind::NonLocalFn(def_id) => def_id,
        }
    }
}

impl Edge {
    /// Create a new edge; the propagated type starts out unset.
    pub fn new(from: usize, to: usize, call_id: HirId) -> (e: Self)
        ensures
            e@ == (EdgeView { from: from as nat, to: to as nat, call_id, ty: None }),
    {
        Edge { from, to, call_id, ty: None }
    }
}

/// Does `n` stand for the local function with in-unit handle `id`?
pub open spec fn is_local_match(n: NodeView, id: HirId) -> bool {
    match n.kind {
        NodeKind::LocalFn(_def_id, hir_id) => hir_id == id,
        NodeKind::NonLocalFn(_) => false,
    }
}

/// Does `n` stand for the external function with stable handle `id`?
pub open spec fn is_non_local_match(n: NodeView, id: DefId) -> bool {
    match n.kind {
        NodeKind::LocalFn(..) => false,
        NodeKind::NonLocalFn(def_id) => def_id == id,
    }
}

/// The first node (in insertion order) standing for the local function
/// with in-unit handle `id`, if any.
pub open spec fn spec_find_local(nodes: Seq<NodeView>, id: HirId) -> Option<NodeView>
    decreases nodes.len(),
{
    if nodes.len() == 0 {
        None
    } else if is_local_match(nodes[0], id) {
        Some(nodes[0])
    } else {
        spec_find_local(nodes.drop_first(), id)
    }
}

/// The first node (in insertion order) standing for the external function
/// with stable handle `id`, if any.
pub open spec fn spec_find_non_local(nodes: Seq<NodeView>, id: DefId) -> Option<NodeView>
    decreases nodes.len(),
{
    if nodes.len() == 0 {
        None
    } else if is_non_local_match(nodes[0], id) {
        Some(nodes[0])
    } else {
        spec_find_non_local(nodes.drop_first(), id)
    }
}

/// The indices (in increasing order) of the first `n` edges whose target
/// is the node with id `to`.
pub open spec fn spec_incoming(edges: Seq<EdgeView>, to: nat, n: int) -> Seq<int>
    decreases n,
{
    if n <= 0 {
        Seq::empty()
    } else if edges[n - 1].to == to {
        spec_incoming(edges, to, n - 1).push(n - 1)
    } else {
        spec_incoming(edges, to, n - 1)
    }
}

impl Graph {
    /// Create a new, empty graph.
    pub fn new(crate_name: String) -> (g: Self)
        ensures
            g@.nodes == Seq::<NodeView>::empty(),
            g@.edges == Seq::<EdgeView>::empty(),
            g@.crate_name == crate_name@,
            g@.wf(),
    {
        let g = Graph { nodes: Vec::new(), edges: Vec::new(), crate_name };
        proof {
            assert(g@.nodes =~= Seq::<NodeView>::empty());
            assert(g@.edges =~= Seq::<EdgeView>::empty());
        }
        g
    }

    /// Get the display name this graph was created with.
    pub fn crate_name(&self) -> (r: &str)
        ensures
            r@ == self@.crate_name,
    {
        self.crate_name.as_str()
    }

    /// Add a node to this graph, returning its id: the registry length at
    /// the moment of insertion, so ids are sequential and never reused.
    pub fn add_node(&mut self, label: &str, node_kind: NodeKind) -> (id: usize)
        requires
            old(self)@.wf(),
        ensures
            id == old(self)@.nodes.len(),
            final(self)@.nodes == old(self)@.nodes.push(
                NodeView { id: old(self)@.nodes.len(), label: label@, kind: node_kind, panics: false },
            ),
            final(self)@.edges == old(self)@.edges,
            final(self)@.crate_name == old(self)@.crate_name,
            final(self)@.wf(),
    {
        let node = Node::new(self.nodes.len(), label, node_kind);
        let id = node.id();
        self.nodes.push(node);
        proof {
            assert(self@.nodes =~= old(self)@.nodes.push(
                NodeView { id: old(self)@.nodes.len(), label: label@, kind: node_kind, panics: false },
            ));
            assert(self@.edges =~= old(self)@.edges);
        }
        id
    }

    /// Add an edge between two registered nodes to this graph. Duplicate
    /// `(from, to)` pairs are kept: each call site is its own edge.
    pub fn add_edge(&mut self, edge: Edge)
        requires
            old(self)@.wf(),
            edge@.from < old(self)@.nodes.len(),
            edge@.to < old(self)@.nodes.len(),
        ensures
            final(self)@.edges == old(self)@.edges.push(edge@),
            final(self)@.nodes == old(self)@.nodes,
            final(self)@.crate_name == old(self)@.crate_name,
            final(self)@.wf(),
    {
        let ghost e = edge@;
        self.edges.push(edge);
        proof {
            assert(self@.edges =~= old(self)@.edges.push(e));
            assert(self@.nodes =~= old(self)@.nodes);
        }
    }

    /// Look a node up by id: a copy of the node at `id`, or `None` when
    /// `id` is not (yet) a registered node.
    pub fn get_node(&self, id: usize) -> (r: Option<Node>)
        ensures
            match r {
                Some(n) => id < self@.nodes.len() && n@ == self@.nodes[id as int],
                None => id >= self@.nodes.len(),
            },
    {
        if id < self.nodes.len() {
            Some(self.nodes[id].clone())
        } else {
            None
        }
    }

    /// Find the first-inserted node of `LocalFn` kind whose in-unit handle
    /// matches `id`.
    pub fn find_local_fn_node(&self, id: HirId) -> (r: Option<Node>)
        ensures
            match r {
                Some(n) => spec_find_local(self@.nodes, id) == Some(n@),
                None => spec_find_local(self@.nodes, id) is None,
            },
    {
        let ghost nodes = self@.nodes;
        proof {
            assert(nodes.skip(0) =~= nodes);
        }
        let n = self.nodes.len();
        for i in 0..n
            invariant
                n == nodes.len(),
                nodes == self@.nodes,
                spec_find_local(nodes, id) == spec_find_local(nodes.skip(i as int), id),
        {
            proof {
                assert(nodes.skip(i as int)[0] == nodes[i as int]);
                assert(nodes.skip(i as int).drop_first() =~= nodes.skip(i + 1));
            }
            if let NodeKind::LocalFn(_def_id, hir_id) = self.nodes[i].kind {
                if hir_id == id {
                    return Some(self.nodes[i].clone());
                }
            }
        }
        proof {
            assert(nodes.skip(n as int) =~= Seq::<NodeView>::empty());
        }
        None
    }

    /// Find the first-inserted node of `NonLocalFn` kind whose stable
    /// handle matches `id`.
    pub fn find_non_local_fn_node(&self, id: DefId) -> (r: Option<Node>)
        ensures
            match r {
                Some(n) => spec_find_non_local(self@.nodes, id) == Some(n@),
                None => spec_find_non_local(self@.nodes, id) is None,
            },
    {
        let ghost nodes = self@.nodes;
        proof {
            assert(nodes.skip(0) =~= nodes);
        }
        let n = self.nodes.len();
        for i in 0..n
            invariant
                n == nodes.len(),
                nodes == self@.nodes,
                spec_find_non_local(nodes, id) == spec_find_non_local(nodes.skip(i as int), id),
        {
            proof {
                assert(nodes.skip(i as int)[0] == nodes[i as int]);
                assert(nodes.skip(i as int).drop_first() =~= nodes.skip(i + 1));
            }
            if let NodeKind::NonLocalFn(def_id) = self.nodes[i].kind {
                if def_id == id {
                    return Some(self.nodes[i].clone());
                }
            }
        }
        proof {
            assert(nodes.skip(n as int) =~= Seq::<NodeView>::empty());
        }
        None
    }

    /// Decide well-formedness: callers that build a graph by direct field
    /// access can re-establish the invariant the other operations rely on.
    pub fn is_well_formed(&self) -> (r: bool)
        ensures
            r == self@.wf(),
    {
        let nn = self.nodes.len();
        for i in 0..nn
            invariant
                nn == self@.nodes.len(),
                forall|k: int| 0 <= k < i ==> (#[trigger] self@.nodes[k]).id == k,
        {
            if self.nodes[i].id() != i {
                proof {
                    assert(self@.nodes[i as int] == self.nodes@[i as int]@);
                    assert(self@.nodes[i as int].id != i);
                }
                return false;
            }
        }
        let ne = self.edges.len();
        for i in 0..ne
            invariant
                nn == self@.nodes.len(),
                ne == self@.edges.len(),
                forall|k: int| 0 <= k < nn ==> (#[trigger] self@.nodes[k]).id == k,
                forall|k: int|
                    0 <= k < i ==> (#[trigger] self@.edges[k]).from < nn && self@.edges[k].to
                        < nn,
        {
            if self.edges[i].from >= nn || self.edges[i].to >= nn {
                proof {
                    assert(self@.edges[i as int] == self.edges@[i as int]@);
                    assert(!(self@.edges[i as int].from < nn && self@.edges[i as int].to < nn));
                }
                return false;
            }
        }
        true
    }

    /// The indices, in insertion order, of every edge whose target is
    /// `node`: the single-hop backward query a propagation pass walks.
    /// Each index stays valid forever, since edges are never removed.
    pub fn incoming_edges(&self, node: &Node) -> (r: Vec<usize>)
        ensures
            r@.map_values(|i: usize| i as int) == spec_incoming(
                self@.edges,
                node@.id,
                self@.edges.len() as int,
            ),
            forall|k: int| 0 <= k < r@.len() ==> (#[trigger] r@[k]) < self@.edges.len(),
    {
        let ghost edges = self@.edges;
        let node_id = node.id();
        let mut r: Vec<usize> = Vec::new();
        let n = self.edges.len();
        for i in 0..n
            invariant
                n == edges.len(),
                edges == self@.edges,
                node_id == node@.id,
                r@.map_values(|x: usize| x as int) == spec_incoming(edges, node@.id, i as int),
                forall|k: int| 0 <= k < r@.len() ==> (#[trigger] r@[k]) < i,
        {
            if self.edges[i].to == node_id {
                r.push(i);
                proof {
                    assert(r@.map_values(|x: usize| x as int) =~= spec_incoming(
                        edges,
                        node@.id,
                        i + 1,
                    ));
                }
            }
        }
        r
    }

    /// Read the edge at index `i`; indices come from `incoming_edges`.
    pub fn get_edge(&self, i: usize) -> (r: Option<Edge>)
        ensures
            match r {
                Some(e) => i < self@.edges.len() && e@ == self@.edges[i as int],
                None => i >= self@.edges.len(),
            },
    {
        if i < self.edges.len() {
            Some(self.edges[i].clone())
        } else {
            None
        }
    }

    /// Fill in the propagated type of the edge at index `i`. Everything
    /// but that edge's `ty` field is left as it was.
    pub fn set_edge_ty(&mut self, i: usize, ty: String)
        requires
            i < old(self)@.edges.len(),
        ensures
            final(self)@.edges == old(self)@.edges.update(
                i as int,
                EdgeView { ty: Some(ty@), ..old(self)@.edges[i as int] },
            ),
            final(self)@.nodes == old(self)@.nodes,
            final(self)@.crate_name == old(self)@.crate_name,
    {
        let ghost t = ty@;
        self.edges[i].ty = Some(ty);
        proof {
            assert(self@.edges =~= old(self)@.edges.update(
                i as int,
                EdgeView { ty: Some(t), ..old(self)@.edges[i as int] },
            ));
            assert(self@.nodes =~= old(self)@.nodes);
        }
    }

    /// Set the panics flag of the node with id `id`. Everything but that
    /// node's `panics` field is left as it was.
    pub fn set_panics(&mut self, id: usize, panics: bool)
        requires
            id < old(self)@.nodes.len(),
        ensures
            final(self)@.nodes == old(self)@.nodes.update(
                id as int,
                NodeView { panics, ..old(self)@.nodes[id as int] },
            ),
            final(self)@.edges == old(self)@.edges,
            final(self)@.crate_name == old(self)@.crate_name,
    {
        self.nodes[id].panics = panics;
        proof {
            assert(self@.nodes =~= old(self)@.nodes.update(
                id as int,
                NodeView { panics, ..old(self)@.nodes[id as int] },
            ));
            assert(self@.edges =~= old(self)@.edges);
        }
    }
}

/// The linear scan returns `None` exactly when no registered node stands
/// for the local function with in-unit handle `id`.
pub proof fn lemma_find_local_none(nodes: Seq<NodeView>, id: HirId)
    ensures
        spec_find_local(nodes, id) is None <==> (forall|i: int|
            0 <= i < nodes.len() ==> !is_local_match(#[trigger] nodes[i], id)),
    decreases nodes.len(),
{
    if nodes.len() > 0 {
        lemma_find_local_none(nodes.drop_first(), id);
        assert(forall|i: int|
            1 <= i < nodes.len() ==> nodes.drop_first()[i - 1] == #[trigger] nodes[i]);
    }
}

/// The linear scan is a first-match scan: if the node at `i` matches and
/// none before it does, the node at `i` is returned.
pub proof fn lemma_find_local_first(nodes: Seq<NodeView>, id: HirId, i: int)
    requires
        0 <= i < nodes.len(),
        is_local_match(nodes[i], id),
        forall|j: int| 0 <= j < i ==> !is_local_match(#[trigger] nodes[j], id),
    ensures
        spec_find_local(nodes, id) == Some(nodes[i]),
    decreases i,
{
    if i > 0 {
        lemma_find_local_first(nodes.drop_first(), id, i - 1);
        assert(forall|j: int|
            0 <= j < i - 1 ==> nodes.drop_first()[j] == #[trigger] nodes[j + 1]);
        assert(forall|j: int|
            0 <= j < i - 1 ==> !is_local_match(#[trigger] nodes.drop_first()[j], id));
    }
}

/// Registering further nodes never changes which node the scan finds:
/// in particular, inserting a second node with the same identity leaves
/// the first-match result as it was.
pub proof fn lemma_find_local_stable_under_push(nodes: Seq<NodeView>, extra: NodeView, id: HirId)
    requires
        spec_find_local(nodes, id) is Some,
    ensures
        spec_find_local(nodes.push(extra), id) == spec_find_local(nodes, id),
    decreases nodes.len(),
{
    assert(nodes.len() > 0);
    assert(nodes.push(extra)[0] == nodes[0]);
    if !is_local_match(nodes[0], id) {
        lemma_find_local_stable_under_push(nodes.drop_first(), extra, id);
        assert(nodes.push(extra).drop_first() =~= nodes.drop_first().push(extra));
    }
}

/// Counterpart of `lemma_find_local_first` for external functions.
pub proof fn lemma_find_non_local_first(nodes: Seq<NodeView>, id: DefId, i: int)
    requires
        0 <= i < nodes.len(),
        is_non_local_match(nodes[i], id),
        forall|j: int| 0 <= j < i ==> !is_non_local_match(#[trigger] nodes[j], id),
    ensures
        spec_find_non_local(nodes, id) == Some(nodes[i]),
    decreases i,
{
    if i > 0 {
        lemma_find_non_local_first(nodes.drop_first(), id, i - 1);
        assert(forall|j: int|
            0 <= j < i - 1 ==> nodes.drop_first()[j] == #[trigger] nodes[j + 1]);
        assert(forall|j: int|
            0 <= j < i - 1 ==> !is_non_local_match(#[trigger] nodes.drop_first()[j], id));
    }
}

/// Node equality ignores payload: equal id and kind means equal nodes,
/// whatever the labels and panics flags are.
pub proof fn lemma_node_eq_ignores_payload(a: NodeView, b: NodeView)
    requires
        a.id == b.id,
        a.kind == b.kind,
    ensures
        node_eq(a, b),
{
}

/// Edge equality ignores payload: equal endpoints means equal edges,
/// whatever the call sites and propagated types are.
pub proof fn lemma_edge_eq_ignores_payload(a: EdgeView, b: EdgeView)
    requires
        a.from == b.from,
        a.to == b.to,
    ensures
        edge_eq(a, b),
{
}

/// Every index `incoming_edges` returns names an edge whose target is
/// `to`, and every such edge's index is returned, in increasing order.
pub proof fn lemma_incoming_characterization(edges: Seq<EdgeView>, to: nat, n: int)
    requires
        0 <= n <= edges.len(),
    ensures
        forall|k: int|
            0 <= k < spec_incoming(edges, to, n).len() ==> {
                let i = #[trigger] spec_incoming(edges, to, n)[k];
                0 <= i < n && edges[i].to == to
            },
        forall|i: int|
            0 <= i < n && (#[trigger] edges[i]).to == to ==> spec_incoming(
                edges,
                to,
                n,
            ).contains(i),
        forall|k1: int, k2: int|
            0 <= k1 < k2 < spec_incoming(edges, to, n).len() ==> #[trigger] spec_incoming(
                edges,
                to,
                n,
            )[k1] < #[trigger] spec_incoming(edges, to, n)[k2],
    decreases n,
{
    if n > 0 {
        lemma_incoming_characterization(edges, to, n - 1);
        if edges[n - 1].to == to {
            let prev = spec_incoming(edges, to, n - 1);
            assert forall|i: int| 0 <= i < n && (#[trigger] edges[i]).to == to implies spec_incoming(
                edges,
                to,
                n,
            ).contains(i) by {
                if i < n - 1 {
                    let k = choose|k: int| 0 <= k < prev.len() && prev[k] == i;
                    assert(spec_incoming(edges, to, n)[k] == i);
                } else {
                    assert(spec_incoming(edges, to, n)[prev.len() as int] == i);
                }
            }
        }
    }
}

/// Sequential ids, no gaps, no reuse: in a well-formed graph the node
/// returned for id `k` was the `k+1`-th one registered, for every `k`
/// up to the number of nodes added.
pub proof fn lemma_ids_are_positions(g: GraphView)
    requires
        g.wf(),
    ensures
        forall|k: int| 0 <= k < g.nodes.len() ==> (#[trigger] g.nodes[k]).id == k,
{
}

/// Is `c` in the safe set the graph identifier keeps: ASCII alphanumeric?
pub open spec fn is_alnum(c: char) -> bool {
    (48 <= c as u32 && c as u32 <= 57) || (65 <= c as u32 && c as u32 <= 90) || (97 <= c as u32
        && c as u32 <= 122)
}

/// `s` with every character outside the safe set dropped.
pub open spec fn spec_sanitized(s: Seq<char>) -> Seq<char>
    decreases s.len(),
{
    if s.len() == 0 {
        Seq::empty()
    } else if is_alnum(s.last()) {
        spec_sanitized(s.drop_last()).push(s.last())
    } else {
        spec_sanitized(s.drop_last())
    }
}

/// The decimal digit character for `d` (`d < 10`).
pub open spec fn spec_digit(d: nat) -> char {
    if d == 0 {
        '0'
    } else if d == 1 {
        '1'
    } else if d == 2 {
        '2'
    } else if d == 3 {
        '3'
    } else if d == 4 {
        '4'
    } else if d == 5 {
        '5'
    } else if d == 6 {
        '6'
    } else if d == 7 {
        '7'
    } else if d == 8 {
        '8'
    } else {
        '9'
    }
}

/// `n` written in decimal, most significant digit first, no leading zeros
/// (a single zero digit for `n == 0`).
pub open spec fn spec_dec(n: nat) -> Seq<char>
    decreases n,
{
    if n < 10 {
        seq![spec_digit(n)]
    } else {
        spec_dec(n / 10).push(spec_digit(n % 10))
    }
}

/// One label character, escaped for a double-quoted dot string: quote,
/// backslash and newline get a backslash escape, all else is kept as-is.
pub open spec fn spec_escape_char(c: char) -> Seq<char> {
    if c == '"' {
        seq!['\\', '"']
    } else if c == '\\' {
        seq!['\\', '\\']
    } else if c == '\n' {
        seq!['\\', 'n']
    } else {
        seq![c]
    }
}

/// A label, escaped character by character.
pub open spec fn spec_escaped(s: Seq<char>) -> Seq<char>
    decreases s.len(),
{
    if s.len() == 0 {
        Seq::empty()
    } else {
        spec_escaped(s.drop_last()) + spec_escape_char(s.last())
    }
}

/// The graph identifier: the sanitized display name after a fixed prefix.
pub open spec fn spec_graph_id(name: Seq<char>) -> Seq<char> {
    "error_propagation_"@ + spec_sanitized(name)
}

/// The stable per-node text token, derived from the node's numeric id.
pub open spec fn spec_node_token(id: nat) -> Seq<char> {
    "n"@ + spec_dec(id)
}

/// The text an edge is labelled with: its propagated type if set, else
/// the literal `unknown`.
pub open spec fn spec_edge_label(ty: Option<Seq<char>>) -> Seq<char> {
    match ty {
        Some(t) => t,
        None => "unknown"@,
    }
}

/// One node statement of the rendered document.
pub open spec fn spec_node_line(n: NodeView) -> Seq<char> {
    "    "@ + spec_node_token(n.id) + "[label=\""@ + spec_escaped(n.label) + "\"];\n"@
}

/// One edge statement of the rendered document.
pub open spec fn spec_edge_line(e: EdgeView) -> Seq<char> {
    "    "@ + spec_node_token(e.from) + " -> "@ + spec_node_token(e.to) + "[label=\""@
        + spec_escaped(spec_edge_label(e.ty)) + "\"];\n"@
}

/// Does `s` already hold a node with `n`'s identity (`(id, kind)`)?
pub open spec fn contains_node(s: Seq<NodeView>, n: NodeView) -> bool {
    exists|j: int| 0 <= j < s.len() && node_eq(s[j], n)
}

/// Append `n` unless a node with its identity is already present.
pub open spec fn insert_node(acc: Seq<NodeView>, n: NodeView) -> Seq<NodeView> {
    if contains_node(acc, n) {
        acc
    } else {
        acc.push(n)
    }
}

/// The node set rendered after walking the first `n` edges: for each edge
/// in order, its `from` endpoint, then its `to` endpoint, each appended
/// on first appearance.
pub open spec fn spec_render_nodes_prefix(g: GraphView, n: int) -> Seq<NodeView>
    decreases n,
{
    if n <= 0 {
        Seq::empty()
    } else {
        let prev = spec_render_nodes_prefix(g, n - 1);
        let e = g.edges[n - 1];
        insert_node(insert_node(prev, g.nodes[e.from as int]), g.nodes[e.to as int])
    }
}

/// The node set the renderer emits: endpoints of edges, in order of first
/// appearance. A node that participates in no edge does not appear.
pub open spec fn spec_render_nodes(g: GraphView) -> Seq<NodeView> {
    spec_render_nodes_prefix(g, g.edges.len() as int)
}

/// The node statements, one per rendered node, in order.
pub open spec fn spec_node_lines(ns: Seq<NodeView>) -> Seq<char>
    decreases ns.len(),
{
    if ns.len() == 0 {
        Seq::empty()
    } else {
        spec_node_lines(ns.drop_last()) + spec_node_line(ns.last())
    }
}

/// The edge statements, one per edge, in insertion order.
pub open spec fn spec_edge_lines(es: Seq<EdgeView>) -> Seq<char>
    decreases es.len(),
{
    if es.len() == 0 {
        Seq::empty()
    } else {
        spec_edge_lines(es.drop_last()) + spec_edge_line(es.last())
    }
}

/// The whole rendered document: header with the graph identifier, the
/// rendered nodes' statements, every edge's statement, closing brace.
pub open spec fn spec_dot(g: GraphView) -> Seq<char> {
    "digraph "@ + spec_graph_id(g.crate_name) + " {\n"@ + spec_node_lines(spec_render_nodes(g))
        + spec_edge_lines(g.edges) + "}\n"@
}

/// Relies on `FromIterator<char> for String` (std): collecting characters
/// builds the string of exactly those characters, in order.
#[verifier::external_body]
fn chars_string(v: &Vec<char>) -> (r: String)
    ensures
        r@ == v@,
{
    v.iter().collect()
}

/// Append every character of `s` to `out`.
fn push_str(out: &mut Vec<char>, s: &str)
    ensures
        final(out)@ == old(out)@ + s@,
{
    let ghost orig = out@;
    let n = s.unicode_len();
    for i in 0..n
        invariant
            n == s@.len(),
            out@ == orig + s@.take(i as int),
    {
        out.push(s.get_char(i));
        proof {
            assert(out@ =~= orig + s@.take(i + 1));
        }
    }
    proof {
        assert(orig + s@.take(n as int) =~= orig + s@);
    }
}

/// Append the characters of `s` that are in the safe set.
fn push_sanitized(out: &mut Vec<char>, s: &str)
    ensures
        final(out)@ == old(out)@ + spec_sanitized(s@),
{
    let ghost orig = out@;
    let n = s.unicode_len();
    for i in 0..n
        invariant
            n == s@.len(),
            out@ == orig + spec_sanitized(s@.take(i as int)),
    {
        let c = s.get_char(i);
        proof {
            assert(s@.take(i + 1).drop_last() =~= s@.take(i as int));
        }
        let u = c as u32;
        if (48 <= u && u <= 57) || (65 <= u && u <= 90) || (97 <= u && u <= 122) {
            out.push(c);
            proof {
                assert(out@ =~= orig + spec_sanitized(s@.take(i + 1)));
            }
        }
    }
    proof {
        assert(s@.take(n as int) =~= s@);
    }
}

/// Append the escaped form of every character of `s`.
fn push_escaped(out: &mut Vec<char>, s: &str)
    ensures
        final(out)@ == old(out)@ + spec_escaped(s@),
{
    let ghost orig = out@;
    let n = s.unicode_len();
    for i in 0..n
        invariant
            n == s@.len(),
            out@ == orig + spec_escaped(s@.take(i as int)),
    {
        let c = s.get_char(i);
        proof {
            assert(s@.take(i + 1).drop_last() =~= s@.take(i as int));
        }
        if c == '"' {
            out.push('\\');
            out.push('"');
        } else if c == '\\' {
            out.push('\\');
            out.push('\\');
        } else if c == '\n' {
            out.push('\\');
            out.push('n');
        } else {
            out.push(c);
        }
        proof {
            assert(out@ =~= orig + spec_escaped(s@.take(i + 1)));
        }
    }
    proof {
        assert(s@.take(n as int) =~= s@);
    }
}

/// The decimal digit character for `d`.
fn digit_char(d: usize) -> (c: char)
    requires
        d < 10,
    ensures
        c == spec_digit(d as nat),
{
    match d {
        0 => '0',
        1 => '1',
        2 => '2',
        3 => '3',
        4 => '4',
        5 => '5',
        6 => '6',
        7 => '7',
        8 => '8',
        _ => '9',
    }
}

/// Append `n` in decimal.
fn push_dec(out: &mut Vec<char>, n: usize)
    ensures
        final(out)@ == old(out)@ + spec_dec(n as nat),
    decreases n,
{
    let ghost orig = out@;
    if n >= 10 {
        push_dec(out, n / 10);
    }
    out.push(digit_char(n % 10));
    proof {
        if n >= 10 {
            assert(n as nat / 10 == (n / 10) as nat);
            assert(n as nat % 10 == (n % 10) as nat);
            assert(out@ =~= orig + spec_dec(n as nat));
        } else {
            assert(out@ =~= orig + spec_dec(n as nat));
        }
    }
}

/// Append a node's text token.
fn push_node_token(out: &mut Vec<char>, id: usize)
    ensures
        final(out)@ == old(out)@ + spec_node_token(id as nat),
{
    let ghost orig = out@;
    push_str(out, "n");
    push_dec(out, id);
    proof {
        assert(out@ =~= orig + spec_node_token(id as nat));
    }
}

/// Append one node statement.
fn push_node_line(out: &mut Vec<char>, n: &Node)
    ensures
        final(out)@ == old(out)@ + spec_node_line(n@),
{
    let ghost orig = out@;
    push_str(out, "    ");
    push_node_token(out, n.id());
    push_str(out, "[label=\"");
    push_escaped(out, n.label());
    push_str(out, "\"];\n");
    proof {
        assert(out@ =~= orig + spec_node_line(n@));
    }
}

/// Append one edge statement.
fn push_edge_line(out: &mut Vec<char>, e: &Edge)
    ensures
        final(out)@ == old(out)@ + spec_edge_line(e@),
{
    let ghost orig = out@;
    push_str(out, "    ");
    push_node_token(out, e.from);
    push_str(out, " -> ");
    push_node_token(out, e.to);
    push_str(out, "[label=\"");
    match &e.ty {
        Some(t) => push_escaped(out, t.as_str()),
        None => push_escaped(out, "unknown"),
    }
    push_str(out, "\"];\n");
    proof {
        assert(out@ =~= orig + spec_edge_line(e@));
    }
}

/// Is a node with `node`'s identity already in `acc`? If so, leave `acc`
/// alone; else append a copy of `node`.
fn push_if_absent(acc: &mut Vec<Node>, node: &Node)
    ensures
        final(acc)@.map_values(|n: Node| n@) == insert_node(
            old(acc)@.map_values(|n: Node| n@),
            node@,
        ),
{
    let ghost views = acc@.map_values(|n: Node| n@);
    let len = acc.len();
    for j in 0..len
        invariant
            len == acc@.len(),
            views == acc@.map_values(|n: Node| n@),
            forall|k: int| 0 <= k < j ==> !node_eq(views[k], node@),
    {
        if acc[j].eq(node) {
            proof {
                assert(node_eq(views[j as int], node@));
                assert(contains_node(views, node@));
            }
            return ;
        }
    }
    proof {
        assert(!contains_node(views, node@));
    }
    acc.push(node.clone());
    proof {
        assert(acc@.map_values(|n: Node| n@) =~= views.push(node@));
    }
}

impl Graph {
    /// The identifier the rendered document names the graph by.
    pub fn graph_id(&self) -> (r: String)
        ensures
            r@ == spec_graph_id(self@.crate_name),
    {
        let mut out: Vec<char> = Vec::new();
        push_str(&mut out, "error_propagation_");
        push_sanitized(&mut out, self.crate_name());
        proof {
            assert(out@ =~= spec_graph_id(self@.crate_name));
        }
        chars_string(&out)
    }

    /// The stable text token of a node of this graph.
    pub fn node_id(&self, n: &Node) -> (r: String)
        ensures
            r@ == spec_node_token(n@.id),
    {
        let mut out: Vec<char> = Vec::new();
        push_node_token(&mut out, n.id());
        proof {
            assert(out@ =~= spec_node_token(n@.id));
        }
        chars_string(&out)
    }

    /// The text a node is labelled with: its label field, as-is.
    pub fn node_label(&self, n: &Node) -> (r: String)
        ensures
            r@ == n@.label,
    {
        let mut out: Vec<char> = Vec::new();
        push_str(&mut out, n.label());
        proof {
            assert(out@ =~= n@.label);
        }
        chars_string(&out)
    }

    /// The text an edge is labelled with: `ty` if set, else `unknown`.
    pub fn edge_label(&self, e: &Edge) -> (r: String)
        ensures
            r@ == spec_edge_label(e@.ty),
    {
        let mut out: Vec<char> = Vec::new();
        match &e.ty {
            Some(t) => push_str(&mut out, t.as_str()),
            None => push_str(&mut out, "unknown"),
        }
        proof {
            assert(out@ =~= spec_edge_label(e@.ty));
        }
        chars_string(&out)
    }

    /// A copy of the node an edge starts at.
    pub fn source(&self, edge: &Edge) -> (r: Node)
        requires
            edge@.from < self@.nodes.len(),
        ensures
            r@ == self@.nodes[edge@.from as int],
    {
        self.nodes[edge.from].clone()
    }

    /// A copy of the node an edge ends at.
    pub fn target(&self, edge: &Edge) -> (r: Node)
        requires
            edge@.to < self@.nodes.len(),
        ensures
            r@ == self@.nodes[edge@.to as int],
    {
        self.nodes[edge.to].clone()
    }

    /// The nodes the renderer emits, reconstructed from the edge list:
    /// each edge's endpoints in order of first appearance, so a node that
    /// participates in no edge is left out.
    pub fn render_nodes(&self) -> (r: Vec<Node>)
        requires
            self@.wf(),
        ensures
            r@.map_values(|n: Node| n@) == spec_render_nodes(self@),
    {
        let mut acc: Vec<Node> = Vec::new();
        proof {
            assert(acc@.map_values(|n: Node| n@) =~= spec_render_nodes_prefix(self@, 0));
        }
        let n = self.edges.len();
        for i in 0..n
            invariant
                self@.wf(),
                n == self@.edges.len(),
                acc@.map_values(|nd: Node| nd@) == spec_render_nodes_prefix(self@, i as int),
        {
            let from = self.edges[i].from;
            let to = self.edges[i].to;
            proof {
                assert(self@.edges[i as int] == self.edges@[i as int]@);
                assert(self@.nodes[from as int] == self.nodes@[from as int]@);
                assert(self@.nodes[to as int] == self.nodes@[to as int]@);
            }
            push_if_absent(&mut acc, &self.nodes[from]);
            push_if_absent(&mut acc, &self.nodes[to]);
            proof {
                assert(acc@.map_values(|nd: Node| nd@) == spec_render_nodes_prefix(
                    self@,
                    i + 1,
                ));
            }
        }
        acc
    }

    /// Render this graph as a dot-language document.
    pub fn to_dot(&self) -> (r: String)
        requires
            self@.wf(),
        ensures
            r@ == spec_dot(self@),
    {
        let mut out: Vec<char> = Vec::new();
        push_str(&mut out, "digraph ");
        push_str(&mut out, "error_propagation_");
        push_sanitized(&mut out, self.crate_name());
        push_str(&mut out, " {\n");
        let ghost header = "digraph "@ + spec_graph_id(self@.crate_name) + " {\n"@;
        proof {
            assert(out@ =~= header);
        }
        let rendered = self.render_nodes();
        let ghost rviews = rendered@.map_values(|n: Node| n@);
        let rn = rendered.len();
        proof {
            assert(out@ =~= header + spec_node_lines(rviews.take(0)));
        }
        for i in 0..rn
            invariant
                rn == rviews.len(),
                rviews == rendered@.map_values(|n: Node| n@),
                out@ == header + spec_node_lines(rviews.take(i as int)),
        {
            proof {
                assert(rviews.take(i + 1).drop_last() =~= rviews.take(i as int));
                assert(rendered@[i as int]@ == rviews[i as int]);
            }
            push_node_line(&mut out, &rendered[i]);
            proof {
                assert(out@ =~= header + spec_node_lines(rviews.take(i + 1)));
            }
        }
        proof {
            assert(rviews.take(rn as int) =~= rviews);
        }
        let ghost mid = header + spec_node_lines(spec_render_nodes(self@));
        let ne = self.edges.len();
        proof {
            assert(out@ =~= mid + spec_edge_lines(self@.edges.take(0)));
        }
        for i in 0..ne
            invariant
                ne == self@.edges.len(),
                mid == header + spec_node_lines(spec_render_nodes(self@)),
                out@ == mid + spec_edge_lines(self@.edges.take(i as int)),
        {
            proof {
                assert(self@.edges.take(i + 1).drop_last() =~= self@.edges.take(i as int));
                assert(self.edges@[i as int]@ == self@.edges[i as int]);
            }
            push_edge_line(&mut out, &self.edges[i]);
            proof {
                assert(out@ =~= mid + spec_edge_lines(self@.edges.take(i + 1)));
            }
        }
        proof {
            assert(self@.edges.take(ne as int) =~= self@.edges);
        }
        push_str(&mut out, "}\n");
        proof {
            assert(out@ =~= spec_dot(self@));
        }
        chars_string(&out)
    }
}

/// Inserting into the rendered node set adds exactly the new identity:
/// afterwards the set holds `v` iff it already did or `v` matches `x`.
pub proof fn lemma_insert_contains(acc: Seq<NodeView>, x: NodeView, v: NodeView)
    ensures
        contains_node(insert_node(acc, x), v) <==> (contains_node(acc, v) || node_eq(x, v)),
{
    if contains_node(acc, x) {
        if node_eq(x, v) {
            let j = choose|j: int| 0 <= j < acc.len() && node_eq(acc[j], x);
            assert(node_eq(acc[j], v));
        }
    } else {
        let s = acc.push(x);
        if contains_node(s, v) {
            let j = choose|j: int| 0 <= j < s.len() && node_eq(s[j], v);
            if j < acc.len() {
                assert(node_eq(acc[j], v));
            }
        }
        if contains_node(acc, v) {
            let j = choose|j: int| 0 <= j < acc.len() && node_eq(acc[j], v);
            assert(node_eq(s[j], v));
        }
        if node_eq(x, v) {
            assert(node_eq(s[acc.len() as int], v));
        }
    }
}

/// A node's identity is in the rendered node set exactly when some edge
/// has a node of that identity as an endpoint.
pub proof fn lemma_render_nodes_prefix_membership(g: GraphView, v: NodeView, n: int)
    requires
        0 <= n <= g.edges.len(),
    ensures
        contains_node(spec_render_nodes_prefix(g, n), v) <==> exists|i: int|
            0 <= i < n && (node_eq(g.nodes[(#[trigger] g.edges[i]).from as int], v) || node_eq(
                g.nodes[g.edges[i].to as int],
                v,
            )),
    decreases n,
{
    if n > 0 {
        lemma_render_nodes_prefix_membership(g, v, n - 1);
        let prev = spec_render_nodes_prefix(g, n - 1);
        let e = g.edges[n - 1];
        lemma_insert_contains(prev, g.nodes[e.from as int], v);
        lemma_insert_contains(insert_node(prev, g.nodes[e.from as int]), g.nodes[e.to as int], v);
    }
}

/// Rendering excludes isolated nodes: a registered node that no edge
/// starts or ends at is absent from the rendered node set.
pub proof fn lemma_isolated_node_not_rendered(g: GraphView, i: int)
    requires
        g.wf(),
        0 <= i < g.nodes.len(),
        forall|j: int|
            0 <= j < g.edges.len() ==> (#[trigger] g.edges[j]).from != i && g.edges[j].to != i,
    ensures
        !contains_node(spec_render_nodes(g), g.nodes[i]),
{
    lemma_render_nodes_prefix_membership(g, g.nodes[i], g.edges.len() as int);
    assert forall|j: int| 0 <= j < g.edges.len() implies !(node_eq(
        g.nodes[(#[trigger] g.edges[j]).from as int],
        g.nodes[i],
    ) || node_eq(g.nodes[g.edges[j].to as int], g.nodes[i])) by {
        assert(g.nodes[g.edges[j].from as int].id == g.edges[j].from);
        assert(g.nodes[g.edges[j].to as int].id == g.edges[j].to);
        assert(g.nodes[i].id == i);
    }
}

/// The rendered node set never holds two nodes of the same identity.
pub proof fn lemma_render_nodes_distinct(g: GraphView, n: int)
    requires
        0 <= n <= g.edges.len(),
    ensures
        forall|k1: int, k2: int|
            0 <= k1 < k2 < spec_render_nodes_prefix(g, n).len() ==> !node_eq(
                #[trigger] spec_render_nodes_prefix(g, n)[k1],
                #[trigger] spec_render_nodes_prefix(g, n)[k2],
            ),
    decreases n,
{
    if n > 0 {
        lemma_render_nodes_distinct(g, n - 1);
        let prev = spec_render_nodes_prefix(g, n - 1);
        let e = g.edges[n - 1];
        lemma_insert_distinct(prev, g.nodes[e.from as int]);
        lemma_insert_distinct(insert_node(prev, g.nodes[e.from as int]), g.nodes[e.to as int]);
    }
}

/// Inserting preserves pairwise-distinct identities.
proof fn lemma_insert_distinct(acc: Seq<NodeView>, x: NodeView)
    requires
        forall|k1: int, k2: int|
            0 <= k1 < k2 < acc.len() ==> !node_eq(#[trigger] acc[k1], #[trigger] acc[k2]),
    ensures
        forall|k1: int, k2: int|
            0 <= k1 < k2 < insert_node(acc, x).len() ==> !node_eq(
                #[trigger] insert_node(acc, x)[k1],
                #[trigger] insert_node(acc, x)[k2],
            ),
{
    if !contains_node(acc, x) {
        let s = acc.push(x);
        assert forall|k1: int, k2: int| 0 <= k1 < k2 < s.len() implies !node_eq(
            #[trigger] s[k1],
            #[trigger] s[k2],
        ) by {
            if k2 == acc.len() {
                assert(s[k1] == acc[k1]);
                assert(!node_eq(acc[k1], x));
            } else {
                assert(s[k1] == acc[k1]);
                assert(s[k2] == acc[k2]);
            }
        }
    }
}

} // verus!
