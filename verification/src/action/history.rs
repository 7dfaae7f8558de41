//! `history`: the latest entries of the history.

use vstd::prelude::*;

use crate::action::last::entry_text;
use crate::text::join;
use crate::action::{CliError, CliResult};
use crate::error::Error;
use crate::history::{history_entries, Entry, EntryV};
use crate::project::Quartz;

verus! {

/// The arguments of `history`.
pub struct Args {
    /// Maximum number of requests to be listed
    pub max_count: Option<usize>,
}

/// The entries listed by `history`, at most `max` of them, a blank line
/// between two.
pub open spec fn history_text(es: Seq<EntryV>, max: nat) -> Seq<char>
    decreases es.len(),
{
    if es.len() == 0 || max == 0 {
        Seq::empty()
    } else {
        let rest = history_text(es.drop_last(), max);
        if es.len() > max {
            rest
        } else if es.len() == 1 {
            entry_text(es[0]) + seq!['\n']
        } else {
            rest + seq!['\n'] + entry_text(es.last()) + seq!['\n']
        }
    }
}

/// What `history` shows: the latest entries, at most `max_count` of them
/// (all when none is given), a blank line between two. Fails when the
/// history cannot be read.
pub fn cmd(q: &Quartz, args: &Args) -> (r: CliResult<String>)
    ensures
        match history_entries(q.history@) {
            None => r matches Err(CliError::Quartz(Error::HistoryError(_))),
            Some(es) => r matches Ok(s) && s@ == history_text(
                es,
                match args.max_count {
                    Some(m) => m as nat,
                    None => usize::MAX as nat,
                },
            ),
        },
{
    let entries = match q.history.entries() {
        Ok(v) => v,
        Err(e) => {
            return Err(CliError::Quartz(e));
        },
    };
    let ghost es = entries@.map_values(|e: Entry| e@);
    let max = match args.max_count {
        Some(m) => m,
        None => usize::MAX,
    };
    let mut count: usize = 0;
    let mut output = String::new();
    while count < entries.len() && count < max
        invariant
            count <= entries.len(),
            count <= max,
            es == entries@.map_values(|e: Entry| e@),
            output@ == history_text(es.take(count as int), max as nat),
        decreases entries.len() - count,
    {
        proof {
            reveal_strlit("\n");
        }
        count = count + 1;
        let ghost t = es.take(count as int);
        assert(t.drop_last() =~= es.take(count - 1));
        assert(t.last() == entries@[count - 1]@);
        if count != 1 {
            output.append("\n");
        }
        let s = entries[count - 1].to_string();
        output.append(s.as_str());
        output.append("\n");
        assert(t.len() == count);
        if count == 1 {
            assert(t[0] == t.last());
        }
        assert(output@ =~= history_text(t, max as nat));
    }
    proof {
        lemma_history_text_cut(es, count as nat, max as nat);
    }
    Ok(output)
}

/// Entries beyond the first `max` add nothing to the listing.
proof fn lemma_history_text_cut(es: Seq<EntryV>, n: nat, max: nat)
    requires
        n <= es.len(),
        n == es.len() || n == max,
    ensures
        history_text(es, max) == history_text(es.take(n as int), max),
    decreases es.len(),
{
    if n == es.len() {
        assert(es.take(n as int) =~= es);
    } else if es.len() > 0 {
        if es.len() - 1 >= n {
            lemma_history_text_cut(es.drop_last(), n, max);
            assert(es.drop_last().take(n as int) =~= es.take(n as int));
        }
    }
}


/// The number of entries that `history` lists: `max`, or all of them when
/// there are fewer.
pub open spec fn listed_count(n: nat, max: nat) -> nat {
    if n < max {
        n
    } else {
        max
    }
}

/// `history` lists the latest entries: exactly as many as asked for (all of
/// them when there are fewer), latest first, each text followed by a line
/// break, with a blank line between two.
pub proof fn law_history_lists_asked_entries(es: Seq<EntryV>, max: nat)
    ensures
        history_text(es, max) == join(
            es.take(listed_count(es.len(), max) as int).map_values(
                |e: EntryV| entry_text(e) + seq!['\n'],
            ),
            seq!['\n'],
        ),
    decreases es.len(),
{
    let f = |e: EntryV| entry_text(e) + seq!['\n'];
    let n = listed_count(es.len(), max);
    if es.len() == 0 || max == 0 {
        assert(es.take(n as int).map_values(f) =~= Seq::<Seq<char>>::empty());
    } else {
        let init = es.drop_last();
        law_history_lists_asked_entries(init, max);
        if es.len() > max {
            assert(listed_count(init.len(), max) == max);
            assert(init.take(max as int) =~= es.take(max as int));
        } else {
            assert(n == es.len());
            assert(es.take(n as int) =~= es);
            assert(init.take(init.len() as int) =~= init);
            let parts = es.map_values(f);
            if es.len() == 1 {
                assert(parts =~= seq![f(es[0])]);
            } else {
                assert(parts.drop_last() =~= init.map_values(f));
                assert(parts.last() == f(es.last()));
                assert(join(parts, seq!['\n']) == join(parts.drop_last(), seq!['\n']) + seq!['\n']
                    + parts.last());
                assert(history_text(es, max) =~= join(parts, seq!['\n']));
            }
        }
    }
}

} // verus!
