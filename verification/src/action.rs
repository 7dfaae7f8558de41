//! The actions of the command line: what each one does to a project and
//! what it prints.

pub mod body;
pub mod config;
pub mod cookie;
pub mod env;
pub mod handle;
pub mod header;
pub mod history;
pub mod init;
pub mod last;
pub mod ls;
pub mod query;
pub mod send;
pub mod var;
pub mod show;
pub mod snippet;

use vstd::prelude::*;

use crate::error::Error;
use crate::handle::{handle_dir, handle_path_of, EndpointHandle};
use crate::project::{state_value, Quartz, State, StateField};
use crate::pairmap::{pm_get, pm_remove, Entries, PairMap};
use crate::store::{endpoint_at, PathV};
use crate::text::views;

verus! {

/// Errors of the command-line actions.
#[derive(Debug)]
pub enum CliError {
    /// An error of the project.
    Quartz(Error),
    /// No handle is in use.
    NoHandleInUse,
    /// The history holds no entry.
    NoHistoryEntry,
    /// The snippet cannot be written: the URL is no URI, or it lacks a host
    /// or a path.
    Snippet,
    /// No cookie of that name.
    NoSuchCookie(String),
}

pub type CliResult<T = ()> = std::result::Result<T, CliError>;

/// What an action prints: on standard output and on standard error.
pub struct Printed {
    pub out: String,
    pub err: String,
}

/// The name of the handle in use: the one chosen on the command line, else
/// the one the state file holds.
pub open spec fn endpoint_name(q: &Quartz, state: &State) -> Option<Seq<char>> {
    match state.handle {
        Some(h) => Some(h@),
        None => state_value(q.state, StateField::Endpoint),
    }
}

/// The handle in use.
pub open spec fn current_handle(q: &Quartz, state: &State) -> Option<PathV> {
    match endpoint_name(q, state) {
        Some(n) => Some(handle_path_of(n)),
        None => None,
    }
}

/// The endpoint of the handle in use, when there is one.
pub open spec fn current_endpoint_value(q: &Quartz, state: &State) -> Option<crate::endpoint::EndpointV> {
    match current_handle(q, state) {
        Some(h) => endpoint_at(q.endpoints@, handle_dir(h)),
        None => None,
    }
}

/// The handle in use.
pub fn handle_in_use(q: &Quartz, state: &State) -> (r: Option<EndpointHandle>)
    ensures
        match current_handle(q, state) {
            Some(h) => r matches Some(x) && x@ == h,
            None => r is None,
        },
{
    match state.get(q, StateField::Endpoint) {
        Ok(name) => Some(EndpointHandle::named(name.as_str())),
        Err(_) => None,
    }
}

/// The answer to a yes-or-no question, from the key pressed: yes for
/// return, `y` or `Y`.
pub fn confirm_answer(ch: char) -> (r: bool)
    ensures
        r == (ch == '\n' || ch == 'y' || ch == 'Y'),
{
    ch == '\n' || ch == 'y' || ch == 'Y'
}

/// The entries with each of `keys` removed in turn.
pub open spec fn remove_keys(e: Entries, keys: Seq<Seq<char>>) -> Entries
    decreases keys.len(),
{
    if keys.len() == 0 {
        e
    } else {
        pm_remove(remove_keys(e, keys.drop_last()), keys.last())
    }
}

/// Removing keys in turn: none of them is left, every other key gives what
/// it gave before, and keys stay unique.
pub proof fn law_remove_keys(e: Entries, keys: Seq<Seq<char>>, other: Seq<char>)
    requires
        crate::pairmap::keys_unique(e),
    ensures
        crate::pairmap::keys_unique(remove_keys(e, keys)),
        forall|i: int| 0 <= i < keys.len() ==> pm_get(remove_keys(e, keys), #[trigger] keys[i]) is None,
        !keys.contains(other) ==> pm_get(remove_keys(e, keys), other) == pm_get(e, other),
    decreases keys.len(),
{
    if keys.len() > 0 {
        let init = keys.drop_last();
        law_remove_keys(e, init, other);
        let r0 = remove_keys(e, init);
        let k = keys.last();
        assert forall|i: int| 0 <= i < keys.len() implies pm_get(
            remove_keys(e, keys),
            #[trigger] keys[i],
        ) is None by {
            crate::pairmap::law_remove_then_get(r0, k, keys[i]);
            if i < init.len() {
                assert(init[i] == keys[i]);
            }
        }
        crate::pairmap::law_remove_then_get(r0, k, other);
        if !keys.contains(other) {
            assert(other != keys[keys.len() - 1]);
            if init.contains(other) {
                let j = choose|j: int| 0 <= j < init.len() && init[j] == other;
                assert(keys[j] == other);
            }
        }
    }
}

/// What removing `keys` in turn prints: on standard output (`out`) a line
/// `Removed <noun>: <key>` for each key that was there, on standard error a
/// line `<key>: No such <noun>` for each that was not.
pub open spec fn removed_lines(e: Entries, keys: Seq<Seq<char>>, out: bool, noun: Seq<char>) -> Seq<
    char,
>
    decreases keys.len(),
{
    if keys.len() == 0 {
        Seq::empty()
    } else {
        let before = removed_lines(e, keys.drop_last(), out, noun);
        let present = pm_get(remove_keys(e, keys.drop_last()), keys.last()) is Some;
        if out && present {
            before + seq!['R', 'e', 'm', 'o', 'v', 'e', 'd', ' '] + noun + seq![':', ' '] + keys.last()
                + seq!['\n']
        } else if !out && !present {
            before + keys.last() + seq![':', ' ', 'N', 'o', ' ', 's', 'u', 'c', 'h', ' '] + noun
                + seq!['\n']
        } else {
            before
        }
    }
}

/// Removes each of `keys` in turn from `map`, and tells which were there.
pub fn remove_keys_printed(map: &mut PairMap, keys: &Vec<String>, noun: &str) -> (r: Printed)
    ensures
        final(map)@ == remove_keys(old(map)@, views(keys@)),
        r.out@ == removed_lines(old(map)@, views(keys@), true, noun@),
        r.err@ == removed_lines(old(map)@, views(keys@), false, noun@),
{
    let ghost h0 = map@;
    let mut out = String::new();
    let mut err = String::new();
    let mut i: usize = 0;
    assert(views(keys@).take(0) =~= Seq::<Seq<char>>::empty());
    while i < keys.len()
        invariant
            i <= keys.len(),
            map@ == remove_keys(h0, views(keys@).take(i as int)),
            out@ == removed_lines(h0, views(keys@).take(i as int), true, noun@),
            err@ == removed_lines(h0, views(keys@).take(i as int), false, noun@),
        decreases keys.len() - i,
    {
        proof {
            reveal_strlit("Removed ");
            reveal_strlit(": ");
            reveal_strlit(": No such ");
            reveal_strlit("\n");
        }
        let ghost ks = views(keys@).take(i + 1);
        assert(ks.drop_last() =~= views(keys@).take(i as int));
        assert(ks.last() == keys@[i as int]@);
        let k = keys[i].as_str();
        if map.contains_key(k) {
            map.remove(k);
            out.append("Removed ");
            out.append(noun);
            out.append(": ");
            out.append(k);
            out.append("\n");
        } else {
            err.append(k);
            err.append(": No such ");
            err.append(noun);
            err.append("\n");
        }
        proof {
            crate::pairmap::lemma_key_index_from(
                remove_keys(h0, views(keys@).take(i as int)),
                keys@[i as int]@,
                0,
            );
        }
        assert(out@ =~= removed_lines(h0, ks, true, noun@));
        assert(err@ =~= removed_lines(h0, ks, false, noun@));
        i = i + 1;
    }
    assert(views(keys@).take(keys.len() as int) =~= views(keys@));
    Printed { out, err }
}

} // verus!
