//! The endpoint tree of a project: handles read and written through the
//! project, and copying, moving and switching endpoints.

use vstd::prelude::*;

use crate::endpoint::{get_method, patched_pairs, Endpoint, EndpointPatch, EndpointV};
use crate::error::{EndpointError, Error, Result};
use crate::handle::{
    dir_of, handle_dir, handle_path_of, spec_handle, spec_head, EndpointHandle,
    EndpointHandlePath,
};
use crate::project::{join_path, path_join, state_value, Quartz, StateField, StateFiles};
use crate::store::{
    body_at, children_of, clone_path, empty_node, endpoint_at, ensure_dir, ensure_upto, has_dir,
    is_path_prefix, lemma_ensure_upto, lemma_has_push, lemma_same_paths, lemma_wf_push, node_at,
    node_index, opt_endpoint_view,
    opt_string_view, paths_view, remove_subtree, store_wf, valid_component, valid_path,
    with_body, with_endpoint, NodeV, PathV, StoreV,
};
use crate::text::{join, nonempty_comp, lemma_split_char_join, lemma_split_char_pieces, split_char, str_eq, views};

verus! {

broadcast use vstd::seq_lib::group_filter_ensures;

/// `endpoints`.
pub open spec fn endpoints_dir_name() -> Seq<char> {
    seq!['e', 'n', 'd', 'p', 'o', 'i', 'n', 't', 's']
}

/// The directory of the handle `h` in the project directory `q`:
/// `<q>/endpoints/<handle>`.
pub open spec fn handle_dir_path(q: Seq<char>, h: PathV) -> Seq<char> {
    join_path(join_path(q, endpoints_dir_name()), spec_handle(h))
}

/// Every directory has at most `b` components.
pub open spec fn depth_within(st: StoreV, b: nat) -> bool {
    forall|q: PathV| has_dir(st, q) ==> q.len() <= b
}

/// The largest number of components of a directory.
pub open spec fn max_depth(st: StoreV) -> nat
    decreases st.len(),
{
    if st.len() == 0 {
        0
    } else {
        let m = max_depth(st.drop_last());
        if st.last().path.len() > m {
            st.last().path.len()
        } else {
            m
        }
    }
}

/// No component holds `/`.
pub open spec fn no_slash(p: PathV) -> bool {
    forall|i: int| 0 <= i < p.len() ==> !(#[trigger] p[i]).contains('/')
}

/// No directory is deeper than `max_depth`.
pub proof fn lemma_max_depth(st: StoreV)
    ensures
        depth_within(st, max_depth(st)),
        forall|i: int| 0 <= i < st.len() ==> #[trigger] st[i].path.len() <= max_depth(st),
    decreases st.len(),
{
    if st.len() > 0 {
        lemma_max_depth(st.drop_last());
        assert forall|i: int| 0 <= i < st.len() implies #[trigger] st[i].path.len() <= max_depth(
            st,
        ) by {
            if i < st.len() - 1 {
                assert(st[i] == st.drop_last()[i]);
            }
        }
    }
    assert forall|q: PathV| has_dir(st, q) implies q.len() <= max_depth(st) by {
        let i = choose|i: int| 0 <= i < st.len() && #[trigger] st[i].path == q;
        assert(st[i].path.len() <= max_depth(st));
    }
}

/// A path whose components are all non-empty is its own directory path.
pub proof fn lemma_dir_of_nonempty(p: PathV)
    requires
        forall|i: int| 0 <= i < p.len() ==> (#[trigger] p[i]).len() > 0,
    ensures
        dir_of(p) == p,
    decreases p.len(),
{
    if p.len() > 0 {
        let init = p.drop_last();
        assert forall|i: int| 0 <= i < init.len() implies (#[trigger] init[i]).len() > 0 by {
            assert(init[i] == p[i]);
        }
        lemma_dir_of_nonempty(init);
        init.lemma_filter_push(p.last(), nonempty_comp());
        assert(p.last() == p[p.len() - 1]);
        assert(init.push(p.last()) =~= p);
    } else {
        assert(p.filter(nonempty_comp()) =~= p);
    }
}

/// The directory of a handle whose components hold no `/` keeps its
/// non-empty components.
pub proof fn lemma_handle_dir_clean(p: PathV)
    requires
        p.len() >= 1,
        no_slash(p),
    ensures
        handle_dir(p) == dir_of(p),
        handle_dir(p).len() <= p.len(),
{
    lemma_split_char_join(p, '/');
}

/// A valid directory path is its own directory.
pub proof fn lemma_handle_dir_valid(p: PathV)
    requires
        p.len() >= 1,
        valid_path(p),
    ensures
        handle_dir(p) == p,
{
    assert forall|i: int| 0 <= i < p.len() implies !(#[trigger] p[i]).contains('/') by {
        assert(valid_component(p[i]));
    }
    lemma_handle_dir_clean(p);
    assert forall|i: int| 0 <= i < p.len() implies (#[trigger] p[i]).len() > 0 by {
        assert(valid_component(p[i]));
    }
    lemma_dir_of_nonempty(p);
}

/// Each child of `s` is a directory one level below `s`.
pub proof fn lemma_children_of(st: StoreV, s: PathV)
    ensures
        forall|i: int|
            0 <= i < children_of(st, s).len() ==> has_dir(st, #[trigger] children_of(st, s)[i])
                && children_of(st, s)[i].len() == s.len() + 1 && is_path_prefix(
                s,
                children_of(st, s)[i],
            ),
{
    let pred = |n: NodeV| n.path.len() == s.len() + 1 && is_path_prefix(s, n.path);
    let f = st.filter(pred);
    assert(children_of(st, s) == f.map_values(|n: NodeV| n.path));
    assert forall|i: int| 0 <= i < children_of(st, s).len() implies has_dir(
        st,
        #[trigger] children_of(st, s)[i],
    ) && children_of(st, s)[i].len() == s.len() + 1 && is_path_prefix(
        s,
        children_of(st, s)[i],
    ) by {
        assert(children_of(st, s)[i] == f[i].path);
        assert(pred(f[i]));
        assert(f.contains(f[i]));
        st.lemma_filter_contains_rev(pred, f[i]);
        let j = choose|j: int| 0 <= j < st.len() && st[j] == f[i];
        assert(st[j].path == children_of(st, s)[i]);
    }
}

/// `remove_dir_all` removes `p` and keeps every directory outside it.
pub proof fn lemma_remove_subtree(st: StoreV, p: PathV)
    ensures
        !has_dir(remove_subtree(st, p), p),
        forall|q: PathV|
            has_dir(remove_subtree(st, p), q) == (has_dir(st, q) && !is_path_prefix(p, q)),
{
    let pred = |n: NodeV| !is_path_prefix(p, n.path);
    let r = st.filter(pred);
    assert(p.take(p.len() as int) =~= p);
    assert forall|q: PathV| has_dir(r, q) == (has_dir(st, q) && !is_path_prefix(p, q)) by {
        if has_dir(r, q) {
            let i = choose|i: int| 0 <= i < r.len() && #[trigger] r[i].path == q;
            assert(pred(r[i]));
            assert(r.contains(r[i]));
            st.lemma_filter_contains_rev(pred, r[i]);
            let j = choose|j: int| 0 <= j < st.len() && st[j] == r[i];
            assert(st[j].path == q);
        }
        if has_dir(st, q) && !is_path_prefix(p, q) {
            let j = choose|j: int| 0 <= j < st.len() && #[trigger] st[j].path == q;
            assert(pred(st[j]));
            assert(r.contains(st[j]));
            let i = choose|i: int| 0 <= i < r.len() && r[i] == st[j];
            assert(r[i].path == q);
        }
    }
}

/// What the directories become when `ensure_dir(p)` runs on a store whose
/// directories are at most `b` deep: none removed, `p` and its ancestors
/// present, none deeper than `b` when `p` is not.
pub proof fn lemma_ensure_dir(st: StoreV, p: PathV, b: nat)
    requires
        depth_within(st, b),
        p.len() <= b,
    ensures
        forall|q: PathV| has_dir(st, q) ==> has_dir(ensure_dir(st, p), q),
        has_dir(ensure_dir(st, p), p),
        depth_within(ensure_dir(st, p), b),
{
    lemma_ensure_upto(st, p, p.len());
    assert(p.take(p.len() as int) =~= p);
    assert forall|q: PathV| has_dir(ensure_dir(st, p), q) implies q.len() <= b by {
        if !has_dir(st, q) {
            let j = choose|j: int| 0 <= j <= p.len() && q == #[trigger] p.take(j);
            assert(q.len() == j);
        }
    }
}

/// Writing an endpoint or a body into a directory keeps the directories.
pub proof fn lemma_with_keeps_dirs(st: StoreV, p: PathV, e: Option<EndpointV>, b: Option<Seq<char>>)
    ensures
        forall|q: PathV| has_dir(with_endpoint(st, p, e), q) == has_dir(st, q),
        forall|q: PathV| has_dir(with_body(st, p, b), q) == has_dir(st, q),
        store_wf(st) ==> store_wf(with_endpoint(st, p, e)) && store_wf(with_body(st, p, b)),
{
    if has_dir(st, p) {
        let i = node_index(st, p);
        lemma_same_paths(st, with_endpoint(st, p, e));
        lemma_same_paths(st, with_body(st, p, b));
    } else {
        lemma_same_paths(st, st);
    }
}

/// The endpoint that `Endpoint::default` makes: method `GET`, nothing else.
pub open spec fn default_endpoint() -> EndpointV {
    EndpointV { url: Seq::empty(), method: get_method(), query: Seq::empty(), headers: Seq::empty() }
}

/// `e` with the patch `p` applied, as `Endpoint::update` does when every
/// pair can be read.
pub open spec fn patched(e: EndpointV, p: &EndpointPatch) -> EndpointV {
    EndpointV {
        url: match p.url {
            Some(u) => u@,
            None => e.url,
        },
        method: match p.method {
            Some(m) => m@,
            None => e.method,
        },
        query: patched_pairs(e, p).0,
        headers: patched_pairs(e, p).1,
    }
}

/// The handle under which the child `c` of a copied directory is copied:
/// `c` with its first component replaced by `d0`, read back as a handle name
/// (an empty `d0` leaves the rest of `c`, or the root).
pub open spec fn copy_dest(c: PathV, d0: Seq<char>) -> PathV {
    if d0.len() > 0 {
        c.update(0, d0)
    } else if c.len() > 1 {
        c.skip(1)
    } else {
        seq![Seq::<char>::empty()]
    }
}

/// One directory copied: the directory of the handle `dn` and its ancestors
/// created, and the endpoint of `s`, where there is one, written into it.
pub open spec fn copy_node(st: StoreV, s: PathV, dn: PathV) -> StoreV {
    let dd = handle_dir(dn);
    let st1 = ensure_dir(st, dd);
    match endpoint_at(st1, s) {
        Some(e) => with_endpoint(st1, dd, Some(e)),
        None => st1,
    }
}

/// The directory `s` copied to the handle `dn`; with `fuel` left, then each
/// child of `s`, in order, copied under `dn`.
pub open spec fn copy_rec(st: StoreV, s: PathV, dn: PathV, fuel: nat) -> StoreV
    decreases fuel, 0nat,
{
    let st2 = copy_node(st, s, dn);
    if fuel == 0 {
        st2
    } else {
        copy_children(st2, children_of(st2, s), dn[0], (fuel - 1) as nat)
    }
}

/// The directories `cs` copied in order, each to `copy_dest(c, d0)`.
pub open spec fn copy_children(st: StoreV, cs: Seq<PathV>, d0: Seq<char>, fuel: nat) -> StoreV
    decreases fuel, cs.len() + 1,
{
    if cs.len() == 0 {
        st
    } else {
        let st1 = copy_rec(st, cs[0], copy_dest(cs[0], d0), fuel);
        copy_children(st1, cs.skip(1), d0, fuel)
    }
}

/// Enough fuel to reach every directory below `s`: no directory gets deeper
/// than the deepest one or the destination.
pub open spec fn copy_fuel(st: StoreV, s: PathV, dn: PathV) -> nat {
    let b = if max_depth(st) >= handle_dir(dn).len() {
        max_depth(st)
    } else {
        handle_dir(dn).len()
    };
    (b - s.len()) as nat
}

/// What `copy_endpoint` makes of the directories: the directory of the
/// handle `src` copied to the handle `dest`, with everything below it when
/// `recursive`.
pub open spec fn copy_result(st: StoreV, recursive: bool, src: PathV, dest: PathV) -> StoreV {
    let s = handle_dir(src);
    copy_rec(
        st,
        s,
        dest,
        if recursive {
            copy_fuel(st, s, dest)
        } else {
            0
        },
    )
}

/// The name that `switch_endpoint` switches to: `handle`, or for `-` the
/// previous handle, where there is one.
pub open spec fn switch_name(st: StateFiles, handle: Seq<char>) -> Option<Seq<char>> {
    if handle == seq!['-'] {
        state_value(st, StateField::PreviousEndpoint)
    } else {
        Some(handle)
    }
}

/// The endpoint, previous endpoint and environment state files.
pub open spec fn state_values(st: StateFiles) -> (Option<Seq<char>>, Option<Seq<char>>, Option<Seq<char>>) {
    (
        state_value(st, StateField::Endpoint),
        state_value(st, StateField::PreviousEndpoint),
        state_value(st, StateField::Env),
    )
}

/// The state files after switching to the handle `name`: it is in use (as
/// its components joined by `/`), the one in use before, if any, is the
/// previous one, and the environment is kept.
pub open spec fn switched(st: StateFiles, name: Seq<char>) -> (
    Option<Seq<char>>,
    Option<Seq<char>>,
    Option<Seq<char>>,
) {
    (
        Some(spec_handle(handle_path_of(name))),
        if state_value(st, StateField::Endpoint) is Some {
            state_value(st, StateField::Endpoint)
        } else {
            state_value(st, StateField::PreviousEndpoint)
        },
        state_value(st, StateField::Env),
    )
}

/// The endpoint in use after a switch: the handle that `current_endpoint`
/// reads from the state after a switch to `name` has the components of
/// `name`.
pub proof fn law_current_after_switch(s1: StateFiles, s2: StateFiles, name: Seq<char>)
    requires
        state_values(s2) == switched(s1, name),
    ensures
        state_value(s2, StateField::Endpoint) matches Some(v) && handle_path_of(v) == handle_path_of(
            name,
        ),
{
    crate::handle::law_handle_name_read_back(name);
}

/// Switching back with `-`: after a switch from the handle `v` in use to
/// `name`, `-` names `v`; switching to it puts `v` back in use, with `name`
/// as the previous handle, and the environment unchanged throughout.
pub proof fn law_switch_back(s1: StateFiles, s2: StateFiles, s3: StateFiles, name: Seq<char>)
    requires
        state_value(s1, StateField::Endpoint) is Some,
        state_values(s2) == switched(s1, name),
        switch_name(s2, seq!['-']) is Some ==> state_values(s3) == switched(
            s2,
            switch_name(s2, seq!['-']).unwrap(),
        ),
    ensures
        switch_name(s2, seq!['-']) == state_value(s1, StateField::Endpoint),
        state_value(s3, StateField::Endpoint) == Some(
            spec_handle(handle_path_of(state_value(s1, StateField::Endpoint).unwrap())),
        ),
        state_value(s3, StateField::PreviousEndpoint) == Some(spec_handle(handle_path_of(name))),
        state_value(s3, StateField::Env) == state_value(s1, StateField::Env),
{
}

/// Creating missing directories keeps the store well formed and leaves the
/// existing directories as they were.
pub proof fn lemma_ensure_upto_keeps(st: StoreV, p: PathV, k: nat)
    requires
        store_wf(st),
        valid_path(p),
        k <= p.len(),
    ensures
        store_wf(ensure_upto(st, p, k)),
        forall|q: PathV| has_dir(st, q) ==> #[trigger] node_at(ensure_upto(st, p, k), q) == node_at(st, q),
    decreases k,
{
    let s = if k == 0 {
        st
    } else {
        ensure_upto(st, p, (k - 1) as nat)
    };
    if k > 0 {
        lemma_ensure_upto_keeps(st, p, (k - 1) as nat);
        lemma_ensure_upto(st, p, (k - 1) as nat);
    }
    let pk = p.take(k as int);
    if !has_dir(s, pk) {
        assert forall|j: int| 0 <= j < pk.len() implies has_dir(s, #[trigger] pk.take(j)) by {
            assert(pk.take(j) =~= p.take(j));
        }
        assert forall|i: int| 0 <= i < pk.len() implies valid_component(#[trigger] pk[i]) by {
            assert(pk[i] == p[i]);
        }
        lemma_wf_push(s, pk);
        let r = s.push(empty_node(pk));
        assert forall|q: PathV| has_dir(s, q) implies #[trigger] node_at(r, q) == node_at(s, q) by {
            lemma_has_push(s, empty_node(pk), q);
            let i = node_index(s, q);
            let j = node_index(r, q);
            assert(r[i].path == q);
            if j != i {
                assert(r[j].path != r[i].path);
            }
        }
    }
}

/// The endpoint written into an existing directory is the one found there.
pub proof fn lemma_endpoint_written(st: StoreV, p: PathV, e: Option<EndpointV>)
    requires
        store_wf(st),
        has_dir(st, p),
    ensures
        endpoint_at(with_endpoint(st, p, e), p) == e,
{
    let i = node_index(st, p);
    let r = with_endpoint(st, p, e);
    lemma_with_keeps_dirs(st, p, e, None);
    assert(r[i].path == p);
    let j = node_index(r, p);
    if j != i {
        assert(r[j].path != r[i].path);
    }
}

/// The body written into an existing directory is the one found there, and
/// its endpoint stays.
pub proof fn lemma_body_written(st: StoreV, p: PathV, b: Option<Seq<char>>)
    requires
        store_wf(st),
        has_dir(st, p),
    ensures
        body_at(with_body(st, p, b), p) == b,
        endpoint_at(with_body(st, p, b), p) == endpoint_at(st, p),
{
    let i = node_index(st, p);
    let r = with_body(st, p, b);
    lemma_with_keeps_dirs(st, p, None, b);
    assert(r[i].path == p);
    let j = node_index(r, p);
    if j != i {
        assert(r[j].path != r[i].path);
    }
}

/// The directory of a handle exists once it is ensured, in a well-formed
/// store that stays well formed.
proof fn lemma_handle_dir_ensured(st: StoreV, h: PathV)
    requires
        store_wf(st),
    ensures
        store_wf(ensure_dir(st, handle_dir(h))),
        has_dir(ensure_dir(st, handle_dir(h)), handle_dir(h)),
{
    let dd = handle_dir(h);
    crate::handle::lemma_dir_of_split_valid(join(h, seq!['/']));
    lemma_ensure_upto_keeps(st, dd, dd.len());
    lemma_ensure_upto(st, dd, dd.len());
    assert(dd.take(dd.len() as int) =~= dd);
}

/// Reading back a write: the endpoint written for a handle (as
/// `write_endpoint` does) is the one read for it.
pub proof fn law_endpoint_write_then_read(st: StoreV, h: PathV, e: EndpointV)
    requires
        store_wf(st),
    ensures
        endpoint_at(
            with_endpoint(ensure_dir(st, handle_dir(h)), handle_dir(h), Some(e)),
            handle_dir(h),
        ) == Some(e),
{
    lemma_handle_dir_ensured(st, h);
    lemma_endpoint_written(ensure_dir(st, handle_dir(h)), handle_dir(h), Some(e));
}

/// Reading back a write: the body written for a handle (as `set_body` does)
/// is the one read for it, and the handle keeps its endpoint.
pub proof fn law_body_write_then_read(st: StoreV, h: PathV, b: Seq<char>)
    requires
        store_wf(st),
    ensures
        body_at(with_body(ensure_dir(st, handle_dir(h)), handle_dir(h), Some(b)), handle_dir(h))
            == Some(b),
        endpoint_at(
            with_body(ensure_dir(st, handle_dir(h)), handle_dir(h), Some(b)),
            handle_dir(h),
        ) == endpoint_at(st, handle_dir(h)),
{
    lemma_handle_dir_ensured(st, h);
    lemma_body_written(ensure_dir(st, handle_dir(h)), handle_dir(h), Some(b));
    lemma_ensure_dir_keeps_endpoint(st, handle_dir(h));
}

/// The directory pushed onto a store without it is the one found there.
proof fn lemma_node_at_pushed(st: StoreV, n: NodeV)
    requires
        !has_dir(st, n.path),
    ensures
        node_at(st.push(n), n.path) == Some(n),
{
    let t = st.push(n);
    assert(t[st.len() as int].path == n.path);
    let i = node_index(t, n.path);
    if i != st.len() {
        assert(t[i] == st[i]);
    }
}

/// Ensuring a directory keeps the endpoint it had, and gives a new one none.
proof fn lemma_ensure_dir_keeps_endpoint(st: StoreV, d: PathV)
    requires
        store_wf(st),
        valid_path(d),
    ensures
        endpoint_at(ensure_dir(st, d), d) == endpoint_at(st, d),
{
    let k = d.len();
    lemma_ensure_upto_keeps(st, d, k);
    if !has_dir(st, d) {
        let s = if k == 0 {
            st
        } else {
            ensure_upto(st, d, (k - 1) as nat)
        };
        assert(d.take(k as int) =~= d);
        if k > 0 {
            lemma_ensure_upto(st, d, (k - 1) as nat);
            if has_dir(s, d) {
                let j = choose|j: int| 0 <= j <= k - 1 && d == #[trigger] d.take(j);
                assert(d.take(j).len() == j);
            }
        }
        lemma_node_at_pushed(s, empty_node(d));
    }
}

/// Copying never removes a directory.
pub proof fn lemma_copy_rec_keeps(st: StoreV, s: PathV, dn: PathV, fuel: nat)
    ensures
        forall|q: PathV| has_dir(st, q) ==> has_dir(copy_rec(st, s, dn, fuel), q),
        has_dir(copy_rec(st, s, dn, fuel), handle_dir(dn)),
    decreases fuel, 0nat,
{
    let dd = handle_dir(dn);
    let st1 = ensure_dir(st, dd);
    lemma_ensure_upto(st, dd, dd.len());
    assert(dd.take(dd.len() as int) =~= dd);
    lemma_with_keeps_dirs(st1, dd, endpoint_at(st1, s), None);
    let st2 = copy_node(st, s, dn);
    assert(forall|q: PathV| has_dir(st1, q) ==> has_dir(st2, q));
    if fuel > 0 {
        lemma_copy_children_keeps(st2, children_of(st2, s), dn[0], (fuel - 1) as nat);
    }
}

/// Copying a list of directories never removes a directory.
pub proof fn lemma_copy_children_keeps(st: StoreV, cs: Seq<PathV>, d0: Seq<char>, fuel: nat)
    ensures
        forall|q: PathV| has_dir(st, q) ==> has_dir(copy_children(st, cs, d0, fuel), q),
    decreases fuel, cs.len() + 1,
{
    if cs.len() > 0 {
        let st1 = copy_rec(st, cs[0], copy_dest(cs[0], d0), fuel);
        lemma_copy_rec_keeps(st, cs[0], copy_dest(cs[0], d0), fuel);
        lemma_copy_children_keeps(st1, cs.skip(1), d0, fuel);
    }
}

/// A directory one level below `s` is among the children of `s`.
proof fn lemma_child_listed(st: StoreV, s: PathV, c: PathV)
    requires
        has_dir(st, c),
        c.len() == s.len() + 1,
        is_path_prefix(s, c),
    ensures
        children_of(st, s).contains(c),
{
    let pred = |n: NodeV| n.path.len() == s.len() + 1 && is_path_prefix(s, n.path);
    let i = choose|i: int| 0 <= i < st.len() && #[trigger] st[i].path == c;
    assert(pred(st[i]));
    assert(st.contains(st[i]));
    st.lemma_filter_contains(pred, i);
    let f = st.filter(pred);
    let j = choose|j: int| 0 <= j < f.len() && f[j] == st[i];
    assert(children_of(st, s) == f.map_values(|n: NodeV| n.path));
    assert(children_of(st, s)[j] == c);
}

/// Every ancestor of `q`, and `q`, is a directory of `st`.
pub open spec fn with_ancestors(st: StoreV, q: PathV) -> bool {
    forall|k: int| 0 <= k <= q.len() ==> has_dir(st, #[trigger] q.take(k))
}

/// A recursive copy of `s`, with enough fuel, to the path `s` with its first
/// component replaced by `d0` copies every directory `q` below `s` to `q`
/// with its first component replaced.
proof fn lemma_copy_rec_reaches(st: StoreV, s: PathV, d0: Seq<char>, fuel: nat, q: PathV)
    requires
        s.len() >= 1,
        valid_component(d0),
        valid_path(q),
        is_path_prefix(s, q),
        q.len() <= s.len() + fuel,
        with_ancestors(st, q),
    ensures
        has_dir(copy_rec(st, s, s.update(0, d0), fuel), q.update(0, d0)),
    decreases fuel, 0nat,
{
    let dn = s.update(0, d0);
    lemma_copy_rec_keeps(st, s, dn, fuel);
    assert(valid_path(dn)) by {
        assert forall|i: int| 0 <= i < dn.len() implies valid_component(#[trigger] dn[i]) by {
            if i > 0 {
                assert(dn[i] == s[i]);
                assert(s[i] == q[i]);
            }
        }
    }
    lemma_handle_dir_valid(dn);
    if q.len() == s.len() {
        assert(q =~= s);
        assert(q.update(0, d0) =~= dn);
    } else {
        let dd = handle_dir(dn);
        let st1 = ensure_dir(st, dd);
        let st2 = copy_node(st, s, dn);
        lemma_ensure_upto(st, dd, dd.len());
        lemma_with_keeps_dirs(st1, dd, endpoint_at(st1, s), None);
        assert(with_ancestors(st2, q)) by {
            assert forall|k: int| 0 <= k <= q.len() implies has_dir(st2, #[trigger] q.take(k)) by {
                assert(has_dir(st, q.take(k)));
            }
        }
        let c = q.take(s.len() + 1 as int);
        assert(has_dir(st2, c));
        assert(c.take(s.len() as int) =~= s);
        lemma_child_listed(st2, s, c);
        assert(valid_component(d0));
        lemma_copy_children_reaches(st2, children_of(st2, s), d0, (fuel - 1) as nat, q, c);
        assert(dn[0] == d0);
    }
}

/// Copying children in turn reaches, below the child `c`, every directory
/// `q` below it.
proof fn lemma_copy_children_reaches(
    st: StoreV,
    cs: Seq<PathV>,
    d0: Seq<char>,
    fuel: nat,
    q: PathV,
    c: PathV,
)
    requires
        cs.contains(c),
        c.len() >= 1,
        valid_component(d0),
        valid_path(q),
        is_path_prefix(c, q),
        q.len() <= c.len() + fuel,
        with_ancestors(st, q),
    ensures
        has_dir(copy_children(st, cs, d0, fuel), q.update(0, d0)),
    decreases fuel, cs.len() + 1,
{
    let st1 = copy_rec(st, cs[0], copy_dest(cs[0], d0), fuel);
    lemma_copy_rec_keeps(st, cs[0], copy_dest(cs[0], d0), fuel);
    if cs[0] == c {
        assert(copy_dest(c, d0) == c.update(0, d0));
        lemma_copy_rec_reaches(st, c, d0, fuel, q);
        lemma_copy_children_keeps(st1, cs.skip(1), d0, fuel);
    } else {
        assert(with_ancestors(st1, q)) by {
            assert forall|k: int| 0 <= k <= q.len() implies has_dir(st1, #[trigger] q.take(k)) by {
                assert(has_dir(st, q.take(k)));
            }
        }
        let j = choose|j: int| 0 <= j < cs.len() && cs[j] == c;
        assert(cs.skip(1)[j - 1] == c);
        lemma_copy_children_reaches(st1, cs.skip(1), d0, fuel, q, c);
    }
}

/// Copying a handle's subtree: a recursive copy of a handle of one
/// component to a handle of one component gives every directory below the
/// source a copy at the same place below the destination.
pub proof fn law_copy_subtree(st: StoreV, src: PathV, dest: PathV, q: PathV)
    requires
        store_wf(st),
        handle_dir(src).len() == 1,
        dest.len() == 1,
        valid_path(dest),
        has_dir(st, q),
        is_path_prefix(handle_dir(src), q),
    ensures
        has_dir(copy_result(st, true, src, dest), dest + q.skip(1)),
{
    let s = handle_dir(src);
    let i = choose|i: int| 0 <= i < st.len() && #[trigger] st[i].path == q;
    assert(valid_path(st[i].path));
    assert(with_ancestors(st, q)) by {
        assert forall|k: int| 0 <= k <= q.len() implies has_dir(st, #[trigger] q.take(k)) by {
            if k == q.len() {
                assert(q.take(k) =~= q);
            } else {
                assert(has_dir(st, st[i].path.take(k)));
            }
        }
    }
    lemma_max_depth(st);
    assert(q.len() <= max_depth(st));
    assert(dest =~= s.update(0, dest[0]));
    assert(valid_component(dest[0]));
    lemma_copy_rec_reaches(st, s, dest[0], copy_fuel(st, s, dest), q);
    assert(q.update(0, dest[0]) =~= dest + q.skip(1));
}

/// A copy without `recursive` adds no directory but the destination and its
/// ancestors.
pub proof fn law_copy_non_recursive_adds_only_dest(st: StoreV, src: PathV, dest: PathV, q: PathV)
    requires
        has_dir(copy_result(st, false, src, dest), q),
    ensures
        has_dir(st, q) || is_path_prefix(q, handle_dir(dest)),
{
    let dd = handle_dir(dest);
    let s = handle_dir(src);
    let st1 = ensure_dir(st, dd);
    lemma_ensure_upto(st, dd, dd.len());
    lemma_with_keeps_dirs(st1, dd, endpoint_at(st1, s), None);
    if !has_dir(st, q) {
        assert(has_dir(st1, q));
        let j = choose|j: int| 0 <= j <= dd.len() && q == #[trigger] dd.take(j);
        assert(dd.take(q.len() as int) == q);
    }
}

/// A copy without `recursive` gives the destination the endpoint of the
/// source, when the source has one.
pub proof fn law_copy_gives_endpoint(st: StoreV, src: PathV, dest: PathV)
    requires
        store_wf(st),
        has_dir(st, handle_dir(src)),
        endpoint_at(st, handle_dir(src)) is Some,
    ensures
        endpoint_at(copy_result(st, false, src, dest), handle_dir(dest)) == endpoint_at(
            st,
            handle_dir(src),
        ),
{
    let s = handle_dir(src);
    let dd = handle_dir(dest);
    crate::handle::lemma_dir_of_split_valid(join(dest, seq!['/']));
    lemma_ensure_upto_keeps(st, dd, dd.len());
    lemma_ensure_upto(st, dd, dd.len());
    assert(dd.take(dd.len() as int) =~= dd);
    let st1 = ensure_dir(st, dd);
    assert(node_at(st1, s) == node_at(st, s));
    lemma_endpoint_written(st1, dd, endpoint_at(st1, s));
}

/// Copying never removes a directory, and the destination exists after it.
pub proof fn law_copy_keeps_directories(st: StoreV, recursive: bool, src: PathV, dest: PathV)
    ensures
        forall|q: PathV| has_dir(st, q) ==> has_dir(copy_result(st, recursive, src, dest), q),
        has_dir(copy_result(st, recursive, src, dest), handle_dir(dest)),
{
    let s = handle_dir(src);
    lemma_copy_rec_keeps(
        st,
        s,
        dest,
        if recursive {
            copy_fuel(st, s, dest)
        } else {
            0
        },
    );
}

/// After a move, the source handle is gone; the destination exists unless
/// it lies inside the source.
pub proof fn law_move_result(st: StoreV, src: PathV, dest: PathV)
    ensures
        !has_dir(remove_subtree(copy_result(st, true, src, dest), handle_dir(src)), handle_dir(src)),
        !is_path_prefix(handle_dir(src), handle_dir(dest)) ==> has_dir(
            remove_subtree(copy_result(st, true, src, dest), handle_dir(src)),
            handle_dir(dest),
        ),
{
    let c = copy_result(st, true, src, dest);
    lemma_remove_subtree(c, handle_dir(src));
    law_copy_keeps_directories(st, true, src, dest);
}

/// `copy_dest` on paths.
fn copy_dest_exec(c: &Vec<String>, d0: &String) -> (r: Vec<String>)
    requires
        c@.len() >= 1,
    ensures
        views(r@) == copy_dest(views(c@), d0@),
{
    let mut r: Vec<String> = Vec::new();
    if d0.as_str().is_empty() && c.len() <= 1 {
        r.push(String::new());
        assert(views(r@) =~= seq![Seq::<char>::empty()]);
        return r;
    }
    let ghost target = copy_dest(views(c@), d0@);
    let start: usize = if d0.as_str().is_empty() {
        1
    } else {
        0
    };
    let mut i: usize = start;
    while i < c.len()
        invariant
            start <= i <= c.len(),
            c@.len() >= 1,
            start == (if d0@.len() == 0 {
                1usize
            } else {
                0usize
            }),
            d0@.len() == 0 ==> c@.len() > 1,
            target == copy_dest(views(c@), d0@),
            target.len() == c@.len() - start,
            views(r@) == target.take(i - start),
        decreases c.len() - i,
    {
        let s = if i == 0 {
            d0.clone()
        } else {
            c[i].clone()
        };
        assert(s@ == target[i - start]);
        let ghost prev = views(r@);
        r.push(s);
        assert(views(r@) =~= prev.push(s@));
        assert(target.take(i - start + 1) =~= target.take(i - start).push(target[i - start]));
        i = i + 1;
    }
    assert(target.take(c@.len() - start) =~= target);
    r
}

impl EndpointHandle {
    /// The directory of the handle: `<project>/endpoints/<handle>`.
    pub fn dir(&self, quartz: &Quartz) -> (r: String)
        ensures
            r@ == handle_dir_path(quartz.path_view(), self@),
    {
        proof {
            reveal_strlit("endpoints");
        }
        let e = path_join(quartz.path().as_str(), "endpoints");
        assert("endpoints"@ =~= endpoints_dir_name());
        let h = self.handle();
        path_join(e.as_str(), h.as_str())
    }

    /// The endpoint file of the handle: `endpoint.toml` in its directory.
    pub fn endpoint_file_path(&self, quartz: &Quartz) -> (r: String)
        ensures
            r@ == join_path(
                handle_dir_path(quartz.path_view(), self@),
                seq!['e', 'n', 'd', 'p', 'o', 'i', 'n', 't', '.', 't', 'o', 'm', 'l'],
            ),
    {
        proof {
            reveal_strlit("endpoint.toml");
        }
        let d = self.dir(quartz);
        let r = path_join(d.as_str(), "endpoint.toml");
        assert("endpoint.toml"@ =~= seq!['e', 'n', 'd', 'p', 'o', 'i', 'n', 't', '.', 't', 'o', 'm', 'l']);
        r
    }

    /// The body file of the handle: `body` in its directory.
    pub fn body_file_path(&self, quartz: &Quartz) -> (r: String)
        ensures
            r@ == join_path(handle_dir_path(quartz.path_view(), self@), seq!['b', 'o', 'd', 'y']),
    {
        proof {
            reveal_strlit("body");
        }
        let d = self.dir(quartz);
        let r = path_join(d.as_str(), "body");
        assert("body"@ =~= seq!['b', 'o', 'd', 'y']);
        r
    }

    /// Whether the directory of the handle exists.
    pub fn is_present(&self, quartz: &Quartz) -> (b: bool)
        ensures
            b == has_dir(quartz.endpoints@, handle_dir(self@)),
    {
        let d = self.dir_key();
        quartz.endpoints.contains_dir(&d)
    }

    /// Creates the directory of the handle and its missing ancestors.
    pub fn ensure_dir(&self, quartz: &mut Quartz) -> (r: Result)
        ensures
            r is Ok,
            final(quartz).endpoints@ == ensure_dir(old(quartz).endpoints@, handle_dir(self@)),
            final(quartz).envs@ == old(quartz).envs@,
            final(quartz).state == old(quartz).state,
            final(quartz).path == old(quartz).path,
            final(quartz).config == old(quartz).config,
            final(quartz).history == old(quartz).history,
    {
        let d = self.dir_key();
        quartz.endpoints.ensure_dir(&d);
        Ok(())
    }

    /// Writes `endpoint` as the endpoint of the handle, creating its directory.
    pub fn write_endpoint(&self, quartz: &mut Quartz, endpoint: &Endpoint) -> (r: Result)
        ensures
            r is Ok,
            final(quartz).endpoints@ == with_endpoint(
                ensure_dir(old(quartz).endpoints@, handle_dir(self@)),
                handle_dir(self@),
                Some(endpoint@),
            ),
            final(quartz).envs@ == old(quartz).envs@,
            final(quartz).state == old(quartz).state,
            final(quartz).path == old(quartz).path,
            final(quartz).config == old(quartz).config,
            final(quartz).history == old(quartz).history,
    {
        let d = self.dir_key();
        quartz.endpoints.ensure_dir(&d);
        quartz.endpoints.set_endpoint(&d, Some(endpoint.clone_endpoint()));
        Ok(())
    }

    /// Removes the endpoint and body files, when the handle has an endpoint.
    pub fn make_empty(&self, quartz: &mut Quartz)
        ensures
            final(quartz).endpoints@ == (if endpoint_at(old(quartz).endpoints@, handle_dir(self@)) is Some {
                with_body(
                    with_endpoint(old(quartz).endpoints@, handle_dir(self@), None),
                    handle_dir(self@),
                    None,
                )
            } else {
                old(quartz).endpoints@
            }),
            final(quartz).envs@ == old(quartz).envs@,
            final(quartz).state == old(quartz).state,
            final(quartz).path == old(quartz).path,
            final(quartz).config == old(quartz).config,
            final(quartz).history == old(quartz).history,
    {
        let d = self.dir_key();
        if quartz.endpoints.endpoint(&d).is_some() {
            quartz.endpoints.set_endpoint(&d, None);
            quartz.endpoints.set_body(&d, None);
        }
    }

    /// The handles of the directories directly inside the handle's directory.
    pub fn children(&self, quartz: &Quartz) -> (r: Result<Vec<EndpointHandle>>)
        ensures
            r is Ok,
            r matches Ok(v) ==> v@.len() == children_of(quartz.endpoints@, handle_dir(self@)).len(),
            r matches Ok(v) ==> forall|i: int|
                0 <= i < v@.len() ==> #[trigger] v@[i]@ == children_of(
                    quartz.endpoints@,
                    handle_dir(self@),
                )[i],
    {
        let d = self.dir_key();
        let cs = quartz.endpoints.children(&d);
        let mut r: Vec<EndpointHandle> = Vec::new();
        let mut i: usize = 0;
        while i < cs.len()
            invariant
                i <= cs.len(),
                paths_view(cs@) == children_of(quartz.endpoints@, views(d@)),
                r@.len() == i,
                forall|j: int| 0 <= j < i ==> #[trigger] r@[j]@ == paths_view(cs@)[j],
            decreases cs.len() - i,
        {
            let p = clone_path(&cs[i]);
            r.push(EndpointHandle::new(EndpointHandlePath(p)));
            i = i + 1;
        }
        Ok(r)
    }

    /// The endpoint of the handle; fails when it has none.
    pub fn endpoint(&self, quartz: &Quartz) -> (r: Result<Endpoint>)
        ensures
            match endpoint_at(quartz.endpoints@, handle_dir(self@)) {
                Some(e) => r matches Ok(x) && x@ == e,
                None => r matches Err(Error::EndpointError(EndpointError::ReadHandleSpec)),
            },
    {
        let d = self.dir_key();
        match quartz.endpoints.endpoint(&d) {
            Some(e) => Ok(e),
            None => Err(Error::EndpointError(EndpointError::ReadHandleSpec)),
        }
    }

    /// Removes the handle's directory and everything inside it; fails when it
    /// does not exist, or when it has children and `recursive` is not set.
    pub fn delete(&self, quartz: &mut Quartz, recursive: bool) -> (r: Result)
        ensures
            !has_dir(old(quartz).endpoints@, handle_dir(self@)) ==> (r matches Err(
                Error::EndpointError(EndpointError::HandleNotFound(n)),
            ) && n@ == spec_handle(self@)) && final(quartz).endpoints@ == old(quartz).endpoints@,
            has_dir(old(quartz).endpoints@, handle_dir(self@)) && !recursive && children_of(
                old(quartz).endpoints@,
                handle_dir(self@),
            ).len() > 0 ==> (r matches Err(
                Error::EndpointError(EndpointError::RemoveChildrenOnNonRecursiveMode),
            )) && final(quartz).endpoints@ == old(quartz).endpoints@,
            has_dir(old(quartz).endpoints@, handle_dir(self@)) && (recursive || children_of(
                old(quartz).endpoints@,
                handle_dir(self@),
            ).len() == 0) ==> r is Ok && final(quartz).endpoints@ == remove_subtree(
                old(quartz).endpoints@,
                handle_dir(self@),
            ),
            final(quartz).envs@ == old(quartz).envs@,
            final(quartz).state == old(quartz).state,
            final(quartz).path == old(quartz).path,
            final(quartz).config == old(quartz).config,
            final(quartz).history == old(quartz).history,
    {
        let d = self.dir_key();
        if !quartz.endpoints.contains_dir(&d) {
            return Err(Error::EndpointError(EndpointError::HandleNotFound(self.handle())));
        }
        let cs = quartz.endpoints.children(&d);
        if cs.len() > 0 && !recursive {
            return Err(Error::EndpointError(EndpointError::RemoveChildrenOnNonRecursiveMode));
        }
        quartz.endpoints.remove_subtree(&d);
        Ok(())
    }

    /// The body of the handle, when it has one.
    pub fn body(&self, quartz: &Quartz) -> (r: Option<String>)
        ensures
            opt_string_view(r) == body_at(quartz.endpoints@, handle_dir(self@)),
    {
        let d = self.dir_key();
        quartz.endpoints.body(&d)
    }

    /// Writes `body` as the body of the handle, creating its directory.
    pub fn set_body(&self, quartz: &mut Quartz, body: &str) -> (r: Result)
        ensures
            r is Ok,
            final(quartz).endpoints@ == with_body(
                ensure_dir(old(quartz).endpoints@, handle_dir(self@)),
                handle_dir(self@),
                Some(body@),
            ),
            final(quartz).envs@ == old(quartz).envs@,
            final(quartz).state == old(quartz).state,
            final(quartz).path == old(quartz).path,
            final(quartz).config == old(quartz).config,
            final(quartz).history == old(quartz).history,
    {
        let d = self.dir_key();
        quartz.endpoints.ensure_dir(&d);
        quartz.endpoints.set_body(&d, Some(body.to_owned()));
        Ok(())
    }
}

impl Endpoint {
    /// The endpoint that `patch` makes of a new endpoint: fails when a pair of
    /// the patch cannot be read. The method and URL given are moved out of the
    /// patch, which holds those of the new endpoint in their place.
    pub fn from_patch(patch: &mut EndpointPatch) -> (r: Result<Endpoint>)
        ensures
            patched_pairs(default_endpoint(), old(patch)).2 ==> (r matches Ok(e) && e@ == patched(
                default_endpoint(),
                old(patch),
            )),
            !patched_pairs(default_endpoint(), old(patch)).2 ==> r matches Err(Error::KeymapSet),
    {
        let mut endpoint = Endpoint::default();
        endpoint.update(patch)?;
        Ok(endpoint)
    }
}

impl EndpointHandle {
    /// Applies `patch` to the endpoint of the handle (a new endpoint when it
    /// has none) and writes the result; fails, writing nothing, when a pair
    /// of the patch cannot be read.
    pub fn apply_endpoint_patch(&self, quartz: &mut Quartz, patch: EndpointPatch) -> (r: Result)
        ensures
            ({
                let base = match endpoint_at(old(quartz).endpoints@, handle_dir(self@)) {
                    Some(e) => e,
                    None => default_endpoint(),
                };
                if patched_pairs(base, &patch).2 {
                    r is Ok && final(quartz).endpoints@ == with_endpoint(
                        ensure_dir(old(quartz).endpoints@, handle_dir(self@)),
                        handle_dir(self@),
                        Some(patched(base, &patch)),
                    )
                } else {
                    (r matches Err(Error::KeymapSet)) && final(quartz).endpoints@ == old(
                        quartz,
                    ).endpoints@
                }
            }),
            final(quartz).envs@ == old(quartz).envs@,
            final(quartz).state == old(quartz).state,
            final(quartz).path == old(quartz).path,
            final(quartz).config == old(quartz).config,
            final(quartz).history == old(quartz).history,
    {
        let mut endpoint = match self.endpoint(quartz) {
            Ok(e) => e,
            Err(_) => Endpoint::default(),
        };
        let mut p = patch;
        endpoint.update(&mut p)?;
        self.write_endpoint(quartz, &endpoint)
    }
}

impl Quartz {
    /// The handle named `name`.
    pub fn new_handle(&self, name: &str) -> (r: EndpointHandle)
        ensures
            r@ == handle_path_of(name@),
    {
        EndpointHandle::named(name)
    }

    /// The handle in use, as the state file names it.
    pub fn current_endpoint(&self) -> (r: Option<EndpointHandle>)
        ensures
            match state_value(self.state, StateField::Endpoint) {
                Some(v) => r matches Some(h) && h@ == handle_path_of(v),
                None => r is None,
            },
    {
        match self.state_get(StateField::Endpoint) {
            Ok(name) => Some(EndpointHandle::named(name.as_str())),
            Err(_) => None,
        }
    }

    /// Switches to the handle `handle` (`-` names the previous one): fails
    /// when there is no previous one or the handle does not exist; otherwise
    /// the handle becomes the one in use, and the one in use before, if any,
    /// the previous one.
    pub fn switch_endpoint(&mut self, handle: String) -> (r: Result<EndpointHandle>)
        ensures
            match switch_name(old(self).state, handle@) {
                None => (r matches Err(Error::StateError(crate::error::StateError::GetState)))
                    && final(self).state == old(self).state,
                Some(name) => if !has_dir(old(self).endpoints@, handle_dir(handle_path_of(name))) {
                    (r matches Err(Error::EndpointError(EndpointError::HandleNotFound(n))) && n@
                        == spec_head(handle_path_of(name))) && final(self).state == old(self).state
                } else {
                    &&& r matches Ok(h) && h@ == handle_path_of(name)
                    &&& state_values(final(self).state) == switched(old(self).state, name)
                },
            },
            final(self).endpoints@ == old(self).endpoints@,
            final(self).envs@ == old(self).envs@,
            final(self).path == old(self).path,
            final(self).config == old(self).config,
            final(self).history == old(self).history,
    {
        proof {
            reveal_strlit("-");
        }
        assert("-"@ =~= seq!['-']);
        let mut name = handle;
        if str_eq(name.as_str(), "-") {
            let previous_handle = self.state_get(StateField::PreviousEndpoint)?;
            name = previous_handle;
        }
        let h = EndpointHandle::named(name.as_str());
        if !h.is_present(self) {
            return Err(Error::EndpointError(EndpointError::HandleNotFound(h.head())));
        }
        let previous = self.state_get(StateField::Endpoint);
        let joined = h.handle();
        let _ = self.state_set(StateField::Endpoint, joined.as_str());
        match previous {
            Ok(prev) => {
                let _ = self.state_set(StateField::PreviousEndpoint, prev.as_str());
            },
            Err(_) => {},
        }
        Ok(h)
    }

    /// Copies the directory `s` to the handle `dn`; when `recursive`, each
    /// child of `s` after it, under `dn`.
    fn copy_dir(
        &mut self,
        s: &Vec<String>,
        dn: &Vec<String>,
        recursive: bool,
        Ghost(fuel): Ghost<nat>,
        Ghost(bound): Ghost<nat>,
    )
        requires
            has_dir(old(self).endpoints@, views(s@)),
            views(dn@).len() >= 1,
            no_slash(views(dn@)),
            depth_within(old(self).endpoints@, bound),
            handle_dir(views(dn@)).len() <= bound,
            recursive ==> bound <= views(s@).len() + fuel,
            !recursive ==> fuel == 0,
        ensures
            final(self).endpoints@ == copy_rec(old(self).endpoints@, views(s@), views(dn@), fuel),
            depth_within(final(self).endpoints@, bound),
            forall|p: PathV| has_dir(old(self).endpoints@, p) ==> has_dir(final(self).endpoints@, p),
            has_dir(final(self).endpoints@, handle_dir(views(dn@))),
            final(self).envs@ == old(self).envs@,
            final(self).state == old(self).state,
            final(self).path == old(self).path,
            final(self).config == old(self).config,
            final(self).history == old(self).history,
        decreases fuel,
    {
        let ghost st0 = self.endpoints@;
        let ghost dnv = views(dn@);
        let h = EndpointHandle::new(EndpointHandlePath(clone_path(dn)));
        let dd = h.dir_key();
        assert(views(dd@) == handle_dir(dnv));
        self.endpoints.ensure_dir(&dd);
        let ghost st1 = self.endpoints@;
        proof {
            lemma_ensure_dir(st0, handle_dir(dnv), bound);
        }
        match self.endpoints.endpoint(s) {
            Some(e) => {
                self.endpoints.set_endpoint(&dd, Some(e));
            },
            None => {},
        }
        let ghost st2 = self.endpoints@;
        proof {
            lemma_with_keeps_dirs(st1, handle_dir(dnv), endpoint_at(st1, views(s@)), None);
            if endpoint_at(st1, views(s@)) is Some {
                assert(st2 == with_endpoint(st1, handle_dir(dnv), endpoint_at(st1, views(s@))));
            } else {
                assert(st2 == st1);
            }
            assert(st2 == copy_node(st0, views(s@), dnv));
            assert forall|q: PathV| has_dir(st2, q) implies q.len() <= bound by {
                assert(has_dir(st1, q));
            }
            assert forall|q: PathV| has_dir(st0, q) implies has_dir(st2, q) by {
                assert(has_dir(st1, q));
            }
            assert(has_dir(st2, handle_dir(dnv)));
        }
        if !recursive {
            return ;
        }
        let cs = self.endpoints.children(s);
        let ghost csv = paths_view(cs@);
        self.endpoints.check_wf();
        proof {
            lemma_children_of(st2, views(s@));
            if fuel == 0 && csv.len() > 0 {
                assert(has_dir(st2, csv[0]));
                assert(csv[0].len() == views(s@).len() + 1);
            }
        }
        let d0 = dn[0].clone();
        assert(d0@ == dnv[0]);
        assert(csv.skip(0) =~= csv);
        let mut j: usize = 0;
        while j < cs.len()
            invariant
                j <= cs.len(),
                csv == paths_view(cs@),
                csv == children_of(st2, views(s@)),
                fuel == 0 ==> csv.len() == 0,
                fuel == 0 ==> self.endpoints@ == st2,
                fuel > 0 ==> copy_children(st2, csv, d0@, (fuel - 1) as nat) == copy_children(
                    self.endpoints@,
                    csv.skip(j as int),
                    d0@,
                    (fuel - 1) as nat,
                ),
                forall|i: int|
                    0 <= i < csv.len() ==> has_dir(st2, #[trigger] csv[i]) && csv[i].len()
                        == views(s@).len() + 1,
                store_wf(st2),
                depth_within(self.endpoints@, bound),
                bound <= views(s@).len() + fuel,
                !d0@.contains('/'),
                forall|p: PathV| has_dir(st2, p) ==> has_dir(self.endpoints@, p),
                forall|p: PathV| has_dir(st0, p) ==> has_dir(st2, p),
                has_dir(st2, handle_dir(dnv)),
                self.envs@ == old(self).envs@,
                self.state == old(self).state,
                self.path == old(self).path,
                self.config == old(self).config,
                self.history == old(self).history,
            decreases cs.len() - j,
        {
            let c = &cs[j];
            assert(views(c@) == csv[j as int]);
            proof {
                let k = node_index(st2, csv[j as int]);
                assert(st2[k].path == csv[j as int]);
                assert(valid_path(csv[j as int]));
            }
            let nd = copy_dest_exec(c, &d0);
            let ghost cv = csv[j as int];
            let ghost ndv = views(nd@);
            proof {
                assert forall|i: int| 0 <= i < ndv.len() implies !(#[trigger] ndv[i]).contains('/') by {
                    if d0@.len() > 0 {
                        if i != 0 {
                            assert(ndv[i] == cv[i]);
                            assert(valid_component(cv[i]));
                        }
                    } else if cv.len() > 1 {
                        assert(ndv[i] == cv[i + 1]);
                        assert(valid_component(cv[i + 1]));
                    } else {
                        assert(ndv[i] == Seq::<char>::empty());
                    }
                }
                lemma_handle_dir_clean(ndv);
                crate::handle::lemma_dir_of_len(ndv);
                assert(cv.len() <= bound);
                assert(csv.skip(j as int)[0] == cv);
                assert(csv.skip(j as int).skip(1) =~= csv.skip(j + 1));
            }
            self.copy_dir(c, &nd, true, Ghost((fuel - 1) as nat), Ghost(bound));
            j = j + 1;
        }
        proof {
            if fuel > 0 {
                assert(csv.skip(csv.len() as int) =~= Seq::<PathV>::empty());
                assert(copy_children(self.endpoints@, Seq::<PathV>::empty(), d0@, (fuel - 1) as nat)
                    == self.endpoints@);
                assert(copy_rec(st0, views(s@), dnv, fuel) == copy_children(
                    st2,
                    csv,
                    dnv[0],
                    (fuel - 1) as nat,
                ));
            }
        }
    }

    /// Copies the endpoint of the handle `src` to the handle `dest`, creating
    /// its directory; when `recursive`, every handle below `src` too, each
    /// under `dest` with the first component of its name replaced by the
    /// first component of `dest`. Fails when `src` does not exist. No
    /// directory is removed.
    pub fn copy_endpoint(&mut self, recursive: bool, src: &str, dest: &str) -> (r: Result)
        ensures
            !has_dir(old(self).endpoints@, handle_dir(handle_path_of(src@))) ==> (r matches Err(
                Error::EndpointError(EndpointError::HandleNotFound(n)),
            ) && n@ == src@) && final(self).endpoints@ == old(self).endpoints@,
            has_dir(old(self).endpoints@, handle_dir(handle_path_of(src@))) ==> r is Ok
                && final(self).endpoints@ == copy_result(
                old(self).endpoints@,
                recursive,
                handle_path_of(src@),
                handle_path_of(dest@),
            ) && has_dir(final(self).endpoints@, handle_dir(handle_path_of(dest@))),
            forall|p: PathV| has_dir(old(self).endpoints@, p) ==> has_dir(final(self).endpoints@, p),
            final(self).envs@ == old(self).envs@,
            final(self).state == old(self).state,
            final(self).path == old(self).path,
            final(self).config == old(self).config,
            final(self).history == old(self).history,
    {
        let src_handle = EndpointHandle::named(src);
        let sd = src_handle.dir_key();
        if !self.endpoints.contains_dir(&sd) {
            return Err(Error::EndpointError(EndpointError::HandleNotFound(src.to_owned())));
        }
        let dest_handle = EndpointHandle::named(dest);
        let ghost st = self.endpoints@;
        let ghost s = views(sd@);
        let ghost dn = dest_handle@;
        proof {
            lemma_split_char_pieces(crate::text::trim_char(dest@, '/'), '/');
            lemma_handle_dir_clean(dn);
            lemma_max_depth(st);
        }
        let ghost bound: nat = if max_depth(st) >= handle_dir(dn).len() {
            max_depth(st)
        } else {
            handle_dir(dn).len()
        };
        let ghost fuel: nat = if recursive {
            copy_fuel(st, s, dn)
        } else {
            0
        };
        self.copy_dir(&sd, &dest_handle.path.0, recursive, Ghost(fuel), Ghost(bound));
        Ok(())
    }

    /// Moves the handle `src` to `dest`: a recursive copy, then `src` removed
    /// with everything below it. Fails when `src` does not exist.
    pub fn move_endpoint(&mut self, src: &str, dest: &str) -> (r: Result)
        ensures
            !has_dir(old(self).endpoints@, handle_dir(handle_path_of(src@))) ==> (r matches Err(
                Error::EndpointError(EndpointError::HandleNotFound(n)),
            ) && n@ == src@) && final(self).endpoints@ == old(self).endpoints@,
            has_dir(old(self).endpoints@, handle_dir(handle_path_of(src@))) ==> r is Ok
                && final(self).endpoints@ == remove_subtree(
                copy_result(old(self).endpoints@, true, handle_path_of(src@), handle_path_of(dest@)),
                handle_dir(handle_path_of(src@)),
            ),
            final(self).envs@ == old(self).envs@,
            final(self).state == old(self).state,
            final(self).path == old(self).path,
            final(self).config == old(self).config,
            final(self).history == old(self).history,
    {
        let src_handle = EndpointHandle::named(src);
        if !src_handle.is_present(self) {
            return Err(Error::EndpointError(EndpointError::HandleNotFound(src.to_owned())));
        }
        self.copy_endpoint(true, src, dest)?;
        src_handle.delete(self, true)?;
        Ok(())
    }
}

} // verus!
