//! Actions on handles: `create`, `use`, `cp`, `mv` and `rm`.

use vstd::prelude::*;

use crate::action::{current_handle, handle_in_use};
use crate::endpoint::{patched_pairs, Endpoint, EndpointPatch};
use crate::error::{EndpointError, Error, Result, StateError};
use crate::handle::{handle_dir, handle_path_of, spec_handle, spec_head, EndpointHandle};
use crate::project::{Quartz, State};
use crate::store::{
    children_of, endpoint_at, ensure_dir, has_dir, is_path_prefix, remove_subtree, with_body, with_endpoint, PathV,
    StoreV,
};
use crate::text::{concat, views};
use crate::tree::{copy_result, default_endpoint, patched, state_values, switch_name, switched};

verus! {

/// The arguments of `create`.
pub struct CreateArgs {
    pub handle: String,
    pub patch: EndpointPatch,
    /// Immediatly switches to this handle after creating it
    pub switch: bool,
}

/// The arguments of `use`.
pub struct SwitchArgs {
    pub handle: Option<String>,
    pub patch: EndpointPatch,
    /// Removes the endpoint and body files of the handle.
    pub empty: bool,
}

/// The arguments of `cp`.
pub struct CpArgs {
    pub recursive: bool,
    pub src: String,
    pub dest: String,
}

/// The arguments of `mv`: the handles to move, then where to.
pub struct MvArgs {
    pub handles: Vec<String>,
}

/// The arguments of `rm`.
pub struct RmArgs {
    /// Delete child handles recursively
    pub recursive: bool,
    /// Handles to be removed
    pub handles: Vec<String>,
}

/// The directories after `patch` is applied to the endpoint of the handle
/// `p` (a new endpoint when it has none), or `None` when a pair of the patch
/// cannot be read.
pub open spec fn patch_store(st: StoreV, p: PathV, patch: &EndpointPatch) -> Option<StoreV> {
    let base = match endpoint_at(st, handle_dir(p)) {
        Some(e) => e,
        None => default_endpoint(),
    };
    if patched_pairs(base, patch).2 {
        Some(with_endpoint(ensure_dir(st, handle_dir(p)), handle_dir(p), Some(patched(base, patch))))
    } else {
        None
    }
}

/// The directories after the endpoint and body files of `p` are removed,
/// when it has an endpoint.
pub open spec fn emptied(st: StoreV, p: PathV) -> StoreV {
    if endpoint_at(st, handle_dir(p)) is Some {
        with_body(with_endpoint(st, handle_dir(p), None), handle_dir(p), None)
    } else {
        st
    }
}

/// The directories after `use` applies `patch` to `p`, and with `empty`
/// empties it; `None` when a pair of the patch cannot be read.
pub open spec fn use_store(st: StoreV, p: PathV, patch: &EndpointPatch, empty: bool) -> Option<StoreV> {
    match patch_store(st, p, patch) {
        None => None,
        Some(s2) => Some(
            if empty {
                emptied(s2, p)
            } else {
                s2
            },
        ),
    }
}

/// `use`: switches to the handle given, if any (failing as
/// `switch_endpoint` does), then applies the patch to the handle in use and,
/// with `empty`, removes its endpoint and body files.
pub fn use_handle(q: &mut Quartz, state: &State, args: SwitchArgs) -> (r: Result)
    ensures
        match args.handle {
            None => final(q).state == old(q).state && match current_handle(old(q), state) {
                None => r is Ok && final(q).endpoints@ == old(q).endpoints@,
                Some(p) => match use_store(old(q).endpoints@, p, &args.patch, args.empty) {
                    None => (r matches Err(Error::KeymapSet)) && final(q).endpoints@ == old(
                        q,
                    ).endpoints@,
                    Some(s2) => r is Ok && final(q).endpoints@ == s2,
                },
            },
            Some(name) => match switch_name(old(q).state, name@) {
                None => (r matches Err(Error::StateError(StateError::GetState)))
                    && final(q).endpoints@ == old(q).endpoints@ && final(q).state == old(q).state,
                Some(n) => if !has_dir(old(q).endpoints@, handle_dir(handle_path_of(n))) {
                    (r matches Err(Error::EndpointError(EndpointError::HandleNotFound(x))) && x@
                        == spec_head(handle_path_of(n))) && final(q).endpoints@ == old(q).endpoints@
                        && final(q).state == old(q).state
                } else {
                    &&& state_values(final(q).state) == switched(old(q).state, n)
                    &&& match use_store(old(q).endpoints@, handle_path_of(n), &args.patch, args.empty) {
                        None => (r matches Err(Error::KeymapSet)) && final(q).endpoints@ == old(
                            q,
                        ).endpoints@,
                        Some(s2) => r is Ok && final(q).endpoints@ == s2,
                    }
                },
            },
        },
        final(q).envs@ == old(q).envs@,
{
    let curr = match args.handle {
        Some(h) => match q.switch_endpoint(h) {
            Ok(x) => Some(x),
            Err(e) => {
                return Err(e);
            },
        },
        None => handle_in_use(q, state),
    };
    match curr {
        Some(h) => {
            match h.apply_endpoint_patch(q, args.patch) {
                Ok(()) => {},
                Err(e) => {
                    return Err(e);
                },
            }
            if args.empty {
                h.make_empty(q);
            }
        },
        None => {},
    }
    Ok(())
}

/// `create`: a new handle holding a new endpoint; with `switch`, the handle
/// is then put in use (failing as `switch_endpoint` does); then the patch is
/// applied to it.
pub fn create(q: &mut Quartz, args: CreateArgs) -> (r: Result)
    ensures
        ({
            let p = handle_path_of(args.handle@);
            let d = handle_dir(p);
            let st1 = with_endpoint(ensure_dir(old(q).endpoints@, d), d, Some(default_endpoint()));
            let switch_ok = !args.switch || (switch_name(old(q).state, args.handle@) matches Some(n)
                && has_dir(st1, handle_dir(handle_path_of(n))));
            &&& r is Ok ==> final(q).endpoints@ == with_endpoint(
                ensure_dir(st1, d),
                d,
                Some(patched(default_endpoint(), &args.patch)),
            )
            &&& r is Ok <==> switch_ok && patched_pairs(default_endpoint(), &args.patch).2
            &&& r is Err ==> final(q).endpoints@ == st1
            &&& args.switch ==> match switch_name(old(q).state, args.handle@) {
                None => (r matches Err(Error::StateError(StateError::GetState))) && final(q).state
                    == old(q).state,
                Some(n) => if !has_dir(st1, handle_dir(handle_path_of(n))) {
                    (r matches Err(Error::EndpointError(EndpointError::HandleNotFound(x))) && x@
                        == spec_head(handle_path_of(n))) && final(q).state == old(q).state
                } else {
                    state_values(final(q).state) == switched(old(q).state, n)
                },
            }
        }),
        !args.switch ==> final(q).state == old(q).state,
        final(q).envs@ == old(q).envs@,
{
    let new_handle = EndpointHandle::named(args.handle.as_str());
    q.endpoints.check_wf();
    let ghost st0 = q.endpoints@;
    let ghost d = handle_dir(new_handle@);
    proof {
        crate::handle::lemma_dir_of_split_valid(crate::text::join(new_handle@, seq!['/']));
        crate::tree::lemma_ensure_upto_keeps(st0, d, d.len());
        crate::store::lemma_ensure_upto(st0, d, d.len());
        assert(d.take(d.len() as int) =~= d);
        crate::tree::lemma_endpoint_written(ensure_dir(st0, d), d, Some(default_endpoint()));
    }
    new_handle.write_endpoint(q, &Endpoint::new())?;
    if args.switch {
        match q.switch_endpoint(args.handle) {
            Ok(_) => {},
            Err(e) => {
                return Err(e);
            },
        }
    }
    new_handle.apply_endpoint_patch(q, args.patch)
}

/// `cp`: copies a handle as `copy_endpoint` does.
pub fn cp(q: &mut Quartz, args: &CpArgs) -> (r: Result)
    ensures
        !has_dir(old(q).endpoints@, handle_dir(handle_path_of(args.src@))) ==> (r matches Err(
            Error::EndpointError(EndpointError::HandleNotFound(n)),
        ) && n@ == args.src@) && final(q).endpoints@ == old(q).endpoints@,
        has_dir(old(q).endpoints@, handle_dir(handle_path_of(args.src@))) ==> r is Ok
            && final(q).endpoints@ == copy_result(
            old(q).endpoints@,
            args.recursive,
            handle_path_of(args.src@),
            handle_path_of(args.dest@),
        ),
        final(q).state == old(q).state,
        final(q).envs@ == old(q).envs@,
{
    q.copy_endpoint(args.recursive, args.src.as_str(), args.dest.as_str())
}

/// What deleting the handle `name` makes of the directories, or `None` when
/// it fails: it does not exist, or has children and `recursive` is not set.
pub open spec fn delete_store(st: StoreV, name: Seq<char>, recursive: bool) -> Option<StoreV> {
    let d = handle_dir(handle_path_of(name));
    if !has_dir(st, d) || (!recursive && children_of(st, d).len() > 0) {
        None
    } else {
        Some(remove_subtree(st, d))
    }
}

/// The handles `names` deleted in turn: the directories, and the first name
/// whose deletion failed, if any (the deletions before it stay made).
pub open spec fn delete_all(st: StoreV, names: Seq<Seq<char>>, recursive: bool) -> (StoreV, Option<
    Seq<char>,
>)
    decreases names.len(),
{
    if names.len() == 0 {
        (st, None)
    } else {
        match delete_store(st, names[0], recursive) {
            None => (st, Some(names[0])),
            Some(s2) => delete_all(s2, names.skip(1), recursive),
        }
    }
}

/// `rm` removes what it is asked to and nothing else: when every deletion
/// succeeds, no handle named is left; whether or not they all succeed, no
/// directory is added, and every directory below none of the handles named
/// is kept.
pub proof fn law_rm_deletes_every_handle_named(st: StoreV, names: Seq<Seq<char>>, recursive: bool)
    ensures
        delete_all(st, names, recursive).1 is None ==> forall|i: int|
            0 <= i < names.len() ==> !has_dir(
                delete_all(st, names, recursive).0,
                handle_dir(handle_path_of(#[trigger] names[i])),
            ),
        forall|q: PathV| has_dir(delete_all(st, names, recursive).0, q) ==> has_dir(st, q),
        forall|q: PathV|
            has_dir(st, q) && (forall|i: int|
                0 <= i < names.len() ==> !is_path_prefix(
                    handle_dir(handle_path_of(#[trigger] names[i])),
                    q,
                )) ==> has_dir(delete_all(st, names, recursive).0, q),
    decreases names.len(),
{
    if names.len() > 0 {
        match delete_store(st, names[0], recursive) {
            None => {},
            Some(s2) => {
                let d0 = handle_dir(handle_path_of(names[0]));
                let rest = names.skip(1);
                crate::tree::lemma_remove_subtree(st, d0);
                law_rm_deletes_every_handle_named(s2, rest, recursive);
                let r = delete_all(s2, rest, recursive);
                assert(r == delete_all(st, names, recursive));
                if r.1 is None {
                    assert forall|i: int| 0 <= i < names.len() implies !has_dir(
                        r.0,
                        handle_dir(handle_path_of(#[trigger] names[i])),
                    ) by {
                        if i > 0 {
                            assert(rest[i - 1] == names[i]);
                        }
                    }
                }
                assert forall|q: PathV|
                    has_dir(st, q) && (forall|i: int|
                        0 <= i < names.len() ==> !is_path_prefix(
                            handle_dir(handle_path_of(#[trigger] names[i])),
                            q,
                        )) implies has_dir(r.0, q) by {
                    assert(!is_path_prefix(handle_dir(handle_path_of(names[0])), q));
                    assert forall|i: int| 0 <= i < rest.len() implies !is_path_prefix(
                        handle_dir(handle_path_of(#[trigger] rest[i])),
                        q,
                    ) by {
                        assert(rest[i] == names[i + 1]);
                    }
                }
            },
        }
    }
}

/// `rm`: deletes each handle in turn; stops at the first that cannot be
/// deleted, with the error of `delete` for it.
pub fn rm(q: &mut Quartz, args: &RmArgs) -> (r: Result)
    ensures
        ({
            let (st, failed) = delete_all(old(q).endpoints@, views(args.handles@), args.recursive);
            &&& final(q).endpoints@ == st
            &&& match failed {
                None => r is Ok,
                Some(name) => if !has_dir(st, handle_dir(handle_path_of(name))) {
                    r matches Err(Error::EndpointError(EndpointError::HandleNotFound(n))) && n@
                        == spec_handle(handle_path_of(name))
                } else {
                    r matches Err(
                        Error::EndpointError(EndpointError::RemoveChildrenOnNonRecursiveMode),
                    )
                },
            }
        }),
        final(q).state == old(q).state,
        final(q).envs@ == old(q).envs@,
{
    let ghost names = views(args.handles@);
    let ghost target = delete_all(q.endpoints@, names, args.recursive);
    let mut i: usize = 0;
    assert(names.skip(0) =~= names);
    while i < args.handles.len()
        invariant
            i <= args.handles.len(),
            names == views(args.handles@),
            target == delete_all(q.endpoints@, names.skip(i as int), args.recursive),
            target == delete_all(old(q).endpoints@, names, args.recursive),
            q.state == old(q).state,
            q.envs@ == old(q).envs@,
        decreases args.handles.len() - i,
    {
        assert(names.skip(i as int)[0] == args.handles@[i as int]@);
        assert(names.skip(i as int).skip(1) =~= names.skip(i + 1));
        let handle = EndpointHandle::named(args.handles[i].as_str());
        match handle.delete(q, args.recursive) {
            Ok(()) => {},
            Err(e) => {
                return Err(e);
            },
        }
        i = i + 1;
    }
    assert(names.skip(args.handles.len() as int) =~= Seq::<Seq<char>>::empty());
    Ok(())
}

/// What moving `src` to `dest` makes of the directories, or `None` when
/// `src` does not exist.
pub open spec fn move_store(st: StoreV, src: Seq<char>, dest: Seq<char>) -> Option<StoreV> {
    let s = handle_dir(handle_path_of(src));
    if has_dir(st, s) {
        Some(remove_subtree(copy_result(st, true, handle_path_of(src), handle_path_of(dest)), s))
    } else {
        None
    }
}

/// Where `mv` puts `src` when several handles are moved into `dest`:
/// `dest/<last component of src>`.
pub open spec fn nested_dest(dest: Seq<char>, src: Seq<char>) -> Seq<char> {
    dest + seq!['/'] + spec_head(handle_path_of(src))
}

/// Each of `srcs` moved in turn into `dest`: the directories, and the first
/// source that did not exist, if any (the moves before it stay made).
pub open spec fn move_all(st: StoreV, srcs: Seq<Seq<char>>, dest: Seq<char>) -> (StoreV, Option<Seq<char>>)
    decreases srcs.len(),
{
    if srcs.len() == 0 {
        (st, None)
    } else {
        match move_store(st, srcs[0], nested_dest(dest, srcs[0])) {
            None => (st, Some(srcs[0])),
            Some(st2) => move_all(st2, srcs.skip(1), dest),
        }
    }
}

/// `mv` of one handle: it succeeds exactly when the source exists; then the
/// source is gone, the destination exists unless it lies inside the source,
/// and every directory outside the source is kept.
pub proof fn law_mv_moves_the_source(st: StoreV, src: Seq<char>, dest: Seq<char>)
    ensures
        move_store(st, src, dest) is Some <==> has_dir(st, handle_dir(handle_path_of(src))),
        move_store(st, src, dest) matches Some(r) ==> !has_dir(r, handle_dir(handle_path_of(src)))
            && (!is_path_prefix(
            handle_dir(handle_path_of(src)),
            handle_dir(handle_path_of(dest)),
        ) ==> has_dir(r, handle_dir(handle_path_of(dest)))) && forall|q: PathV|
            has_dir(st, q) && !is_path_prefix(handle_dir(handle_path_of(src)), q) ==> has_dir(r, q),
{
    let sp = handle_path_of(src);
    let dp = handle_path_of(dest);
    crate::tree::law_move_result(st, sp, dp);
    let c = copy_result(st, true, sp, dp);
    crate::tree::law_copy_keeps_directories(st, true, sp, dp);
    crate::tree::lemma_remove_subtree(c, handle_dir(sp));
}

/// `mv`: with two handles, the first moved to the second; with more, each
/// but the last moved into the last, under its own last component. Stops at
/// the first handle that does not exist.
pub fn mv(q: &mut Quartz, args: &MvArgs) -> (r: Result)
    requires
        args.handles@.len() >= 2,
    ensures
        args.handles@.len() == 2 ==> match move_store(old(q).endpoints@, args.handles@[0]@, args.handles@[1]@) {
            Some(st) => r is Ok && final(q).endpoints@ == st,
            None => (r matches Err(Error::EndpointError(EndpointError::HandleNotFound(n))) && n@
                == args.handles@[0]@) && final(q).endpoints@ == old(q).endpoints@,
        },
        args.handles@.len() > 2 ==> ({
            let (st, failed) = move_all(
                old(q).endpoints@,
                views(args.handles@).take(args.handles@.len() - 1),
                args.handles@.last()@,
            );
            final(q).endpoints@ == st && match failed {
                None => r is Ok,
                Some(name) => r matches Err(Error::EndpointError(EndpointError::HandleNotFound(n)))
                    && n@ == name,
            }
        }),
        final(q).state == old(q).state,
        final(q).envs@ == old(q).envs@,
{
    let n = args.handles.len();
    if n == 2 {
        return q.move_endpoint(args.handles[0].as_str(), args.handles[1].as_str());
    }
    let dest = args.handles[n - 1].as_str();
    let ghost srcs = views(args.handles@).take(n - 1);
    let ghost target = move_all(q.endpoints@, srcs, dest@);
    let mut i: usize = 0;
    assert(srcs.skip(0) =~= srcs);
    while i < n - 1
        invariant
            n == args.handles@.len(),
            n > 2,
            i <= n - 1,
            dest@ == args.handles@[n - 1]@,
            srcs == views(args.handles@).take(n - 1),
            target == move_all(q.endpoints@, srcs.skip(i as int), dest@),
            target == move_all(old(q).endpoints@, srcs, args.handles@.last()@),
            q.state == old(q).state,
            q.envs@ == old(q).envs@,
        decreases n - 1 - i,
    {
        let src = args.handles[i].as_str();
        assert(srcs.skip(i as int)[0] == src@);
        assert(srcs.skip(i as int).skip(1) =~= srcs.skip(i + 1));
        let h = EndpointHandle::named(src);
        let head = h.head();
        proof {
            reveal_strlit("/");
        }
        let a = concat(dest, "/");
        let nested = concat(a.as_str(), head.as_str());
        assert(nested@ =~= nested_dest(dest@, src@));
        let ghost before = q.endpoints@;
        match q.move_endpoint(src, nested.as_str()) {
            Ok(()) => {
                assert(move_store(before, src@, nested@) == Some(q.endpoints@));
            },
            Err(e) => {
                assert(move_store(before, src@, nested@) is None);
                assert(move_all(before, srcs.skip(i as int), dest@) == (before, Some(src@)));
                return Err(e);
            },
        }
        i = i + 1;
    }
    assert(srcs.skip((n - 1) as int) =~= Seq::<Seq<char>>::empty());
    Ok(())
}

} // verus!
