//! The endpoint directories of a project: which exist, and the endpoint and
//! body each one holds.

use vstd::prelude::*;

use crate::endpoint::{Endpoint, EndpointV};
use crate::text::views;

verus! {

/// A path of components, as character sequences.
pub type PathV = Seq<Seq<char>>;

/// A directory and its files, as values.
pub struct NodeV {
    pub path: PathV,
    pub endpoint: Option<EndpointV>,
    pub body: Option<Seq<char>>,
}

/// The directories, as values.
pub type StoreV = Seq<NodeV>;

/// `a` is `b` or an ancestor of `b`.
pub open spec fn is_path_prefix(a: PathV, b: PathV) -> bool {
    a.len() <= b.len() && b.take(a.len() as int) == a
}

/// Some directory has the path `p`.
pub open spec fn has_dir(st: StoreV, p: PathV) -> bool {
    exists|i: int| 0 <= i < st.len() && #[trigger] st[i].path == p
}

/// Where the directory `p` stands.
pub open spec fn node_index(st: StoreV, p: PathV) -> int {
    choose|i: int| 0 <= i < st.len() && #[trigger] st[i].path == p
}

/// The directory `p`.
pub open spec fn node_at(st: StoreV, p: PathV) -> Option<NodeV> {
    if has_dir(st, p) {
        Some(st[node_index(st, p)])
    } else {
        None
    }
}

/// The endpoint that the directory `p` holds.
pub open spec fn endpoint_at(st: StoreV, p: PathV) -> Option<EndpointV> {
    match node_at(st, p) {
        Some(n) => n.endpoint,
        None => None,
    }
}

/// The body that the directory `p` holds.
pub open spec fn body_at(st: StoreV, p: PathV) -> Option<Seq<char>> {
    match node_at(st, p) {
        Some(n) => n.body,
        None => None,
    }
}

/// A component of a directory path: not empty, without `/`.
pub open spec fn valid_component(c: Seq<char>) -> bool {
    c.len() > 0 && !c.contains('/')
}

pub open spec fn valid_path(p: PathV) -> bool {
    forall|i: int| 0 <= i < p.len() ==> valid_component(#[trigger] p[i])
}

/// No path twice; valid components; every ancestor of a directory exists.
pub open spec fn store_wf(st: StoreV) -> bool {
    &&& forall|i: int, j: int|
        0 <= i < st.len() && 0 <= j < st.len() && i != j ==> #[trigger] st[i].path != #[trigger] st[j].path
    &&& forall|i: int| 0 <= i < st.len() ==> valid_path(#[trigger] st[i].path)
    &&& forall|i: int, k: int|
        0 <= i < st.len() && 0 <= k < st[i].path.len() ==> has_dir(st, #[trigger] st[i].path.take(k))
}

/// An empty directory.
pub open spec fn empty_node(p: PathV) -> NodeV {
    NodeV { path: p, endpoint: None, body: None }
}

/// The directories `p.take(0)`, ..., `p.take(k)` created in that order,
/// each one unless it exists.
pub open spec fn ensure_upto(st: StoreV, p: PathV, k: nat) -> StoreV
    decreases k,
{
    let s = if k == 0 {
        st
    } else {
        ensure_upto(st, p, (k - 1) as nat)
    };
    if has_dir(s, p.take(k as int)) {
        s
    } else {
        s.push(empty_node(p.take(k as int)))
    }
}

/// `create_dir_all`: `p` and its missing ancestors created, outermost first.
pub open spec fn ensure_dir(st: StoreV, p: PathV) -> StoreV {
    ensure_upto(st, p, p.len())
}

/// The paths of the directories directly inside `p`, in store order.
pub open spec fn children_of(st: StoreV, p: PathV) -> Seq<PathV> {
    st.filter(|n: NodeV| n.path.len() == p.len() + 1 && is_path_prefix(p, n.path)).map_values(
        |n: NodeV| n.path,
    )
}

/// `remove_dir_all`: `p` and everything inside it gone.
pub open spec fn remove_subtree(st: StoreV, p: PathV) -> StoreV {
    st.filter(|n: NodeV| !is_path_prefix(p, n.path))
}

/// The directory `p`, when it exists, holding the endpoint `e`.
pub open spec fn with_endpoint(st: StoreV, p: PathV, e: Option<EndpointV>) -> StoreV {
    if has_dir(st, p) {
        let i = node_index(st, p);
        st.update(i, NodeV { path: st[i].path, endpoint: e, body: st[i].body })
    } else {
        st
    }
}

/// The directory `p`, when it exists, holding the body `b`.
pub open spec fn with_body(st: StoreV, p: PathV, b: Option<Seq<char>>) -> StoreV {
    if has_dir(st, p) {
        let i = node_index(st, p);
        st.update(i, NodeV { path: st[i].path, endpoint: st[i].endpoint, body: b })
    } else {
        st
    }
}

/// The views of a list of paths.
pub open spec fn paths_view(v: Seq<Vec<String>>) -> Seq<PathV> {
    v.map_values(|p: Vec<String>| views(p@))
}

/// A directory and its files.
pub struct EndpointNode {
    pub path: Vec<String>,
    pub endpoint: Option<Endpoint>,
    pub body: Option<String>,
}

pub open spec fn opt_endpoint_view(e: Option<Endpoint>) -> Option<EndpointV> {
    match e {
        Some(x) => Some(x@),
        None => None,
    }
}

pub open spec fn opt_string_view(s: Option<String>) -> Option<Seq<char>> {
    match s {
        Some(x) => Some(x@),
        None => None,
    }
}

impl View for EndpointNode {
    type V = NodeV;

    open spec fn view(&self) -> NodeV {
        NodeV {
            path: views(self.path@),
            endpoint: opt_endpoint_view(self.endpoint),
            body: opt_string_view(self.body),
        }
    }
}

/// Whether two paths have the same components.
pub fn path_eq(a: &Vec<String>, b: &Vec<String>) -> (r: bool)
    ensures
        r == (views(a@) == views(b@)),
{
    if a.len() != b.len() {
        assert(views(a@).len() != views(b@).len());
        return false;
    }
    let mut i: usize = 0;
    while i < a.len()
        invariant
            i <= a.len(),
            a.len() == b.len(),
            forall|k: int| 0 <= k < i ==> views(a@)[k] == views(b@)[k],
        decreases a.len() - i,
    {
        if a[i] != b[i] {
            assert(views(a@)[i as int] != views(b@)[i as int]);
            return false;
        }
        i = i + 1;
    }
    assert(views(a@) =~= views(b@));
    true
}

/// Whether `a` is `b` or an ancestor of `b`.
pub fn path_is_prefix(a: &Vec<String>, b: &Vec<String>) -> (r: bool)
    ensures
        r == is_path_prefix(views(a@), views(b@)),
{
    if a.len() > b.len() {
        return false;
    }
    let mut i: usize = 0;
    while i < a.len()
        invariant
            i <= a.len() <= b.len(),
            forall|k: int| 0 <= k < i ==> views(a@)[k] == views(b@)[k],
        decreases a.len() - i,
    {
        if a[i] != b[i] {
            assert(views(b@).take(a.len() as int)[i as int] != views(a@)[i as int]);
            return false;
        }
        i = i + 1;
    }
    assert(views(b@).take(a.len() as int) =~= views(a@));
    true
}

/// A copy of a path.
pub fn clone_path(a: &Vec<String>) -> (r: Vec<String>)
    ensures
        views(r@) == views(a@),
{
    let mut r: Vec<String> = Vec::new();
    let mut i: usize = 0;
    while i < a.len()
        invariant
            i <= a.len(),
            views(r@) == views(a@).take(i as int),
        decreases a.len() - i,
    {
        let s = a[i].clone();
        let ghost prev = views(r@);
        r.push(s);
        assert(views(r@) =~= prev.push(s@));
        assert(views(a@).take(i + 1) =~= views(a@).take(i as int).push(a@[i as int]@));
        i = i + 1;
    }
    assert(views(a@).take(a.len() as int) =~= views(a@));
    r
}

/// The first `k` components of a path.
pub fn path_take(a: &Vec<String>, k: usize) -> (r: Vec<String>)
    requires
        k <= a.len(),
    ensures
        views(r@) == views(a@).take(k as int),
{
    let mut r: Vec<String> = Vec::new();
    let mut i: usize = 0;
    while i < k
        invariant
            i <= k <= a.len(),
            views(r@) == views(a@).take(i as int),
        decreases k - i,
    {
        let s = a[i].clone();
        let ghost prev = views(r@);
        r.push(s);
        assert(views(r@) =~= prev.push(s@));
        assert(views(a@).take(i + 1) =~= views(a@).take(i as int).push(a@[i as int]@));
        i = i + 1;
    }
    r
}


/// Whether a path is in the store is unchanged by a push of another path.
pub proof fn lemma_has_push(st: StoreV, n: NodeV, q: PathV)
    ensures
        has_dir(st.push(n), q) == (has_dir(st, q) || n.path == q),
{
    if has_dir(st, q) {
        let i = choose|i: int| 0 <= i < st.len() && #[trigger] st[i].path == q;
        assert(st.push(n)[i].path == q);
    }
    if n.path == q {
        assert(st.push(n)[st.len() as int].path == q);
    }
    if has_dir(st.push(n), q) {
        let i = choose|i: int| 0 <= i < st.len() + 1 && #[trigger] st.push(n)[i].path == q;
        if i < st.len() {
            assert(st[i].path == q);
        }
    }
}

/// Pushing a new directory whose ancestors all exist keeps the store well formed.
pub proof fn lemma_wf_push(st: StoreV, p: PathV)
    requires
        store_wf(st),
        !has_dir(st, p),
        valid_path(p),
        forall|k: int| 0 <= k < p.len() ==> has_dir(st, #[trigger] p.take(k)),
    ensures
        store_wf(st.push(empty_node(p))),
{
    let s2 = st.push(empty_node(p));
    assert forall|i: int, j: int|
        0 <= i < s2.len() && 0 <= j < s2.len() && i != j implies #[trigger] s2[i].path
        != #[trigger] s2[j].path by {
        if i < st.len() && j < st.len() {
            assert(st[i].path != st[j].path);
        } else if i < st.len() {
            assert(st[i].path != p);
        } else {
            assert(st[j].path != p);
        }
    }
    assert forall|i: int| 0 <= i < s2.len() implies valid_path(#[trigger] s2[i].path) by {
        if i < st.len() {
            assert(valid_path(st[i].path));
        }
    }
    assert forall|i: int, k: int| 0 <= i < s2.len() && 0 <= k < s2[i].path.len() implies has_dir(
        s2,
        #[trigger] s2[i].path.take(k),
    ) by {
        lemma_has_push(st, empty_node(p), s2[i].path.take(k));
        if i < st.len() {
            assert(has_dir(st, st[i].path.take(k)));
        } else {
            assert(has_dir(st, p.take(k)));
        }
    }
}

/// After `ensure_upto(st, p, k)`, every `p.take(j)` with `j <= k` exists, and
/// what existed still exists.
pub proof fn lemma_ensure_upto(st: StoreV, p: PathV, k: nat)
    requires
        k <= p.len(),
    ensures
        forall|j: int| 0 <= j <= k ==> has_dir(ensure_upto(st, p, k), #[trigger] p.take(j)),
        forall|q: PathV| has_dir(st, q) ==> has_dir(ensure_upto(st, p, k), q),
        forall|q: PathV|
            has_dir(ensure_upto(st, p, k), q) ==> has_dir(st, q) || exists|j: int|
                0 <= j <= k && q == #[trigger] p.take(j),
    decreases k,
{
    let s = if k == 0 {
        st
    } else {
        ensure_upto(st, p, (k - 1) as nat)
    };
    if k > 0 {
        lemma_ensure_upto(st, p, (k - 1) as nat);
    }
    let r = ensure_upto(st, p, k);
    if !has_dir(s, p.take(k as int)) {
        assert forall|q: PathV| has_dir(r, q) == (has_dir(s, q) || q == p.take(k as int)) by {
            lemma_has_push(s, empty_node(p.take(k as int)), q);
        }
    }
    assert forall|q: PathV| has_dir(r, q) implies has_dir(st, q) || exists|j: int|
        0 <= j <= k && q == #[trigger] p.take(j) by {
        if has_dir(s, q) && k > 0 && !has_dir(st, q) {
            let j = choose|j: int| 0 <= j <= k - 1 && q == #[trigger] p.take(j);
            assert(q == p.take(j));
        } else if !has_dir(s, q) {
            assert(q == p.take(k as int));
        }
    }
}

/// Stores with the same paths, in the same order, have the same directories.
pub proof fn lemma_same_paths(st: StoreV, st2: StoreV)
    requires
        st.len() == st2.len(),
        forall|i: int| 0 <= i < st.len() ==> #[trigger] st2[i].path == st[i].path,
    ensures
        forall|q: PathV| has_dir(st, q) == has_dir(st2, q),
        store_wf(st) ==> store_wf(st2),
{
    assert forall|q: PathV| has_dir(st, q) == has_dir(st2, q) by {
        if has_dir(st, q) {
            let i = choose|i: int| 0 <= i < st.len() && #[trigger] st[i].path == q;
            assert(st2[i].path == q);
        }
        if has_dir(st2, q) {
            let i = choose|i: int| 0 <= i < st2.len() && #[trigger] st2[i].path == q;
            assert(st[i].path == q);
        }
    }
    if store_wf(st) {
        assert forall|i: int, j: int|
            0 <= i < st2.len() && 0 <= j < st2.len() && i != j implies #[trigger] st2[i].path
            != #[trigger] st2[j].path by {
            assert(st[i].path != st[j].path);
        }
        assert forall|i: int| 0 <= i < st2.len() implies valid_path(#[trigger] st2[i].path) by {
            assert(valid_path(st[i].path));
        }
        assert forall|i: int, k: int| 0 <= i < st2.len() && 0 <= k < st2[i].path.len() implies has_dir(
            st2,
            #[trigger] st2[i].path.take(k),
        ) by {
            assert(has_dir(st, st[i].path.take(k)));
        }
    }
}

/// The directories of a project, with their endpoint and body files.
pub struct EndpointStore {
    nodes: Vec<EndpointNode>,
}

pub open spec fn nodes_view(v: Seq<EndpointNode>) -> StoreV {
    v.map_values(|n: EndpointNode| n@)
}

impl View for EndpointStore {
    type V = StoreV;

    closed spec fn view(&self) -> StoreV {
        nodes_view(self.nodes@)
    }
}

impl EndpointStore {
    #[verifier::type_invariant]
    spec fn inv(self) -> bool {
        store_wf(self@)
    }

    /// The store is well formed.
    pub fn check_wf(&self)
        ensures
            store_wf(self@),
    {
        proof {
            use_type_invariant(self);
        }
    }

    /// A store without any directory.
    pub fn new() -> (r: Self)
        ensures
            r@ == Seq::<NodeV>::empty(),
    {
        let r = EndpointStore { nodes: Vec::new() };
        assert(r@ =~= Seq::<NodeV>::empty());
        r
    }

    /// The directories, in order.
    pub fn nodes(&self) -> (r: &Vec<EndpointNode>)
        ensures
            nodes_view(r@) == self@,
    {
        &self.nodes
    }

    /// Where the directory `p` stands.
    pub fn find(&self, p: &Vec<String>) -> (r: Option<usize>)
        ensures
            r matches Some(i) ==> i < self@.len() && self@[i as int].path == views(p@)
                && node_index(self@, views(p@)) == i,
            r is None ==> !has_dir(self@, views(p@)),
            r is Some == has_dir(self@, views(p@)),
    {
        proof {
            use_type_invariant(self);
        }
        let mut i: usize = 0;
        while i < self.nodes.len()
            invariant
                i <= self.nodes.len(),
                self@ == nodes_view(self.nodes@),
                store_wf(self@),
                forall|j: int| 0 <= j < i ==> self@[j].path != views(p@),
            decreases self.nodes.len() - i,
        {
            assert(self@[i as int].path == views(self.nodes@[i as int].path@));
            if path_eq(&self.nodes[i].path, p) {
                proof {
                    let j = node_index(self@, views(p@));
                    assert(self@[j].path == views(p@));
                    if j != i {
                        assert(self@[j].path != self@[i as int].path);
                    }
                }
                return Some(i);
            }
            i = i + 1;
        }
        None
    }

    /// Whether the directory `p` exists.
    pub fn contains_dir(&self, p: &Vec<String>) -> (b: bool)
        ensures
            b == has_dir(self@, views(p@)),
    {
        self.find(p).is_some()
    }

    /// A copy of the endpoint that the directory `p` holds.
    pub fn endpoint(&self, p: &Vec<String>) -> (r: Option<Endpoint>)
        ensures
            opt_endpoint_view(r) == endpoint_at(self@, views(p@)),
    {
        match self.find(p) {
            Some(i) => {
                assert(self@[i as int] == self.nodes@[i as int]@);
                match &self.nodes[i].endpoint {
                    Some(e) => Some(e.clone_endpoint()),
                    None => None,
                }
            },
            None => None,
        }
    }

    /// A copy of the body that the directory `p` holds.
    pub fn body(&self, p: &Vec<String>) -> (r: Option<String>)
        ensures
            opt_string_view(r) == body_at(self@, views(p@)),
    {
        match self.find(p) {
            Some(i) => {
                assert(self@[i as int] == self.nodes@[i as int]@);
                match &self.nodes[i].body {
                    Some(b) => Some(b.clone()),
                    None => None,
                }
            },
            None => None,
        }
    }

    /// Replaces the directory at `i` by `node`, which has the same path.
    fn replace_node(&mut self, i: usize, node: EndpointNode)
        requires
            i < old(self)@.len(),
            node@.path == old(self)@[i as int].path,
        ensures
            final(self)@ == old(self)@.update(i as int, node@),
    {
        proof {
            use_type_invariant(&*self);
            lemma_same_paths(self@, self@.update(i as int, node@));
        }
        let mut nodes: Vec<EndpointNode> = Vec::new();
        std::mem::swap(&mut nodes, &mut self.nodes);
        let ghost before = nodes_view(nodes@);
        let _ = nodes.remove(i);
        nodes.insert(i, node);
        assert(nodes_view(nodes@) =~= before.update(i as int, node@));
        self.nodes = nodes;
    }

    /// Puts the endpoint `e` in the directory `p`, when it exists.
    pub fn set_endpoint(&mut self, p: &Vec<String>, e: Option<Endpoint>)
        ensures
            final(self)@ == with_endpoint(old(self)@, views(p@), opt_endpoint_view(e)),
    {
        match self.find(p) {
            Some(i) => {
                assert(self@[i as int] == self.nodes@[i as int]@);
                let path = clone_path(&self.nodes[i].path);
                let body = match &self.nodes[i].body {
                    Some(b) => Some(b.clone()),
                    None => None,
                };
                let node = EndpointNode { path, endpoint: e, body };
                self.replace_node(i, node);
            },
            None => {},
        }
    }

    /// Puts the body `b` in the directory `p`, when it exists.
    pub fn set_body(&mut self, p: &Vec<String>, b: Option<String>)
        ensures
            final(self)@ == with_body(old(self)@, views(p@), opt_string_view(b)),
    {
        match self.find(p) {
            Some(i) => {
                assert(self@[i as int] == self.nodes@[i as int]@);
                let path = clone_path(&self.nodes[i].path);
                let endpoint = match &self.nodes[i].endpoint {
                    Some(e) => Some(e.clone_endpoint()),
                    None => None,
                };
                let node = EndpointNode { path, endpoint, body: b };
                self.replace_node(i, node);
            },
            None => {},
        }
    }

    /// The paths of the directories directly inside `p`, in store order.
    pub fn children(&self, p: &Vec<String>) -> (r: Vec<Vec<String>>)
        ensures
            paths_view(r@) == children_of(self@, views(p@)),
    {
        let ghost pv = views(p@);
        let ghost pred = |n: NodeV| n.path.len() == pv.len() + 1 && is_path_prefix(pv, n.path);
        let mut r: Vec<Vec<String>> = Vec::new();
        let mut i: usize = 0;
        while i < self.nodes.len()
            invariant
                i <= self.nodes.len(),
                pv == views(p@),
                pred == (|n: NodeV| n.path.len() == pv.len() + 1 && is_path_prefix(pv, n.path)),
                self@ == nodes_view(self.nodes@),
                paths_view(r@) == self@.take(i as int).filter(pred).map_values(|n: NodeV| n.path),
            decreases self.nodes.len() - i,
        {
            let ghost before = self@.take(i as int);
            assert(self@.take(i + 1) =~= before.push(self@[i as int]));
            proof {
                before.lemma_filter_push(self@[i as int], pred);
            }
            assert(self@[i as int] == self.nodes@[i as int]@);
            let n = &self.nodes[i];
            if n.path.len() > p.len() && n.path.len() - 1 == p.len() && path_is_prefix(p, &n.path) {
                let c = clone_path(&n.path);
                let ghost prev = paths_view(r@);
                r.push(c);
                assert(paths_view(r@) =~= prev.push(views(c@)));
                assert(self@.take(i + 1).filter(pred) == before.filter(pred).push(self@[i as int]));
                assert(paths_view(r@) =~= self@.take(i + 1).filter(pred).map_values(
                    |n: NodeV| n.path,
                ));
            } else {
                assert(self@.take(i + 1).filter(pred) == before.filter(pred));
            }
            i = i + 1;
        }
        assert(self@.take(self@.len() as int) =~= self@);
        r
    }

    /// `remove_dir_all`: removes `p` and everything inside it.
    pub fn remove_subtree(&mut self, p: &Vec<String>)
        ensures
            final(self)@ == remove_subtree(old(self)@, views(p@)),
    {
        proof {
            use_type_invariant(&*self);
        }
        let ghost st = self@;
        let ghost pv = views(p@);
        let ghost pred = |n: NodeV| !is_path_prefix(pv, n.path);
        let mut old_nodes: Vec<EndpointNode> = Vec::new();
        std::mem::swap(&mut old_nodes, &mut self.nodes);
        let mut kept: Vec<EndpointNode> = Vec::new();
        let mut i: usize = 0;
        while i < old_nodes.len()
            invariant
                i <= old_nodes.len(),
                pv == views(p@),
                pred == (|n: NodeV| !is_path_prefix(pv, n.path)),
                st == nodes_view(old_nodes@),
                store_wf(st),
                nodes_view(kept@) == st.take(i as int).filter(pred),
                forall|a: int, b: int|
                    0 <= a < kept@.len() && 0 <= b < kept@.len() && a != b ==> #[trigger] nodes_view(
                        kept@,
                    )[a].path != #[trigger] nodes_view(kept@)[b].path,
                forall|a: int|
                    0 <= a < kept@.len() ==> exists|j: int|
                        0 <= j < i && #[trigger] st[j] == #[trigger] nodes_view(kept@)[a],
            decreases old_nodes.len() - i,
        {
            let ghost before = st.take(i as int);
            assert(st.take(i + 1) =~= before.push(st[i as int]));
            proof {
                before.lemma_filter_push(st[i as int], pred);
            }
            assert(st[i as int] == old_nodes@[i as int]@);
            let ghost kv = nodes_view(kept@);
            if !path_is_prefix(p, &old_nodes[i].path) {
                let n = EndpointNode {
                    path: clone_path(&old_nodes[i].path),
                    endpoint: match &old_nodes[i].endpoint {
                        Some(e) => Some(e.clone_endpoint()),
                        None => None,
                    },
                    body: match &old_nodes[i].body {
                        Some(b) => Some(b.clone()),
                        None => None,
                    },
                };
                kept.push(n);
                assert(nodes_view(kept@) =~= kv.push(st[i as int]));
                assert forall|a: int, b: int|
                    0 <= a < kept@.len() && 0 <= b < kept@.len() && a != b implies #[trigger] nodes_view(
                        kept@,
                    )[a].path != #[trigger] nodes_view(kept@)[b].path by {
                    if a < kv.len() && b < kv.len() {
                        assert(kv[a].path != kv[b].path);
                    } else if a < kv.len() {
                        let j = choose|j: int| 0 <= j < i && #[trigger] st[j] == kv[a];
                        assert(st[j].path != st[i as int].path);
                    } else {
                        let j = choose|j: int| 0 <= j < i && #[trigger] st[j] == kv[b];
                        assert(st[j].path != st[i as int].path);
                    }
                }
                assert forall|a: int| 0 <= a < kept@.len() implies exists|j: int|
                    0 <= j < i + 1 && #[trigger] st[j] == #[trigger] nodes_view(kept@)[a] by {
                    if a < kv.len() {
                        let j = choose|j: int| 0 <= j < i && #[trigger] st[j] == kv[a];
                        assert(st[j] == nodes_view(kept@)[a]);
                    } else {
                        assert(st[i as int] == nodes_view(kept@)[a]);
                    }
                }
            }
            i = i + 1;
        }
        assert(st.take(st.len() as int) =~= st);
        proof {
            broadcast use vstd::seq_lib::group_filter_ensures;

            let r = st.filter(pred);
            assert forall|a: int| 0 <= a < r.len() implies valid_path(#[trigger] r[a].path) by {
                assert(r.contains(r[a]));
                st.lemma_filter_contains_rev(pred, r[a]);
                let j = choose|j: int| 0 <= j < st.len() && #[trigger] st[j] == r[a];
                assert(valid_path(st[j].path));
            }
            assert forall|a: int, k: int| 0 <= a < r.len() && 0 <= k < r[a].path.len() implies has_dir(
                r,
                #[trigger] r[a].path.take(k),
            ) by {
                let j = choose|j: int| 0 <= j < st.len() && #[trigger] st[j] == r[a];
                let q = r[a].path.take(k);
                assert(has_dir(st, st[j].path.take(k)));
                let jq = choose|jq: int| 0 <= jq < st.len() && #[trigger] st[jq].path == q;
                if is_path_prefix(pv, q) {
                    assert(r[a].path.take(pv.len() as int) =~= q.take(pv.len() as int));
                    assert(is_path_prefix(pv, r[a].path));
                }
                assert(pred(st[jq]));
                assert(r.contains(st[jq]));
                let ia = choose|ia: int| 0 <= ia < r.len() && r[ia] == st[jq];
                assert(r[ia].path == q);
            }
        }
        self.nodes = kept;
    }

    /// Creates `p.take(k)` unless it exists.
    fn ensure_prefix(&mut self, p: &Vec<String>, k: usize, Ghost(st0): Ghost<StoreV>)
        requires
            k <= p.len(),
            valid_path(views(p@)),
            old(self)@ == (if k == 0 {
                st0
            } else {
                ensure_upto(st0, views(p@), (k - 1) as nat)
            }),
        ensures
            final(self)@ == ensure_upto(st0, views(p@), k as nat),
    {
        proof {
            use_type_invariant(&*self);
        }
        let ghost pv = views(p@);
        let pre = path_take(p, k);
        proof {
            if k > 0 {
                lemma_ensure_upto(st0, pv, (k - 1) as nat);
            }
        }
        if self.find(&pre).is_none() {
            proof {
                assert forall|j: int| 0 <= j < views(pre@).len() implies has_dir(
                    self@,
                    #[trigger] views(pre@).take(j),
                ) by {
                    assert(views(pre@).take(j) =~= pv.take(j));
                }
                assert forall|i: int| 0 <= i < views(pre@).len() implies valid_component(
                    #[trigger] views(pre@)[i],
                ) by {
                    assert(views(pre@)[i] == pv[i]);
                }
                lemma_wf_push(self@, views(pre@));
            }
            let node = EndpointNode { path: pre, endpoint: None, body: None };
            let mut nodes: Vec<EndpointNode> = Vec::new();
            std::mem::swap(&mut nodes, &mut self.nodes);
            let ghost before = nodes_view(nodes@);
            nodes.push(node);
            assert(nodes_view(nodes@) =~= before.push(empty_node(pv.take(k as int))));
            self.nodes = nodes;
        }
    }

    /// `create_dir_all`: creates `p` and its missing ancestors.
    pub fn ensure_dir(&mut self, p: &Vec<String>)
        requires
            valid_path(views(p@)),
        ensures
            final(self)@ == ensure_dir(old(self)@, views(p@)),
    {
        let ghost st0 = self@;
        let mut k: usize = 0;
        while k < p.len()
            invariant
                k <= p.len(),
                valid_path(views(p@)),
                self@ == (if k == 0 {
                    st0
                } else {
                    ensure_upto(st0, views(p@), (k - 1) as nat)
                }),
            decreases p.len() - k,
        {
            self.ensure_prefix(p, k, Ghost(st0));
            k = k + 1;
        }
        self.ensure_prefix(p, k, Ghost(st0));
    }
}

} // verus!
