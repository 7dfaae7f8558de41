//! `last`: the latest exchange of the history.

use vstd::prelude::*;

use crate::action::{CliError, CliResult};
use crate::error::Error;
use crate::history::{history_entries, Entry, EntryV};
use crate::project::Quartz;
use crate::text::{
    join, join_strings, split, split_char, starts_with, starts_with_exec, trim, trim_start_char,
    trim_start_matches, trim_ws, views,
};

verus! {

/// A line of a message without the leading marks and the surrounding
/// whitespace.
pub open spec fn clean_line(l: Seq<char>, mark: char) -> Seq<char> {
    trim_ws(trim_start_char(l, mark))
}

/// A message with each of its lines cleaned.
pub open spec fn clean_message(m: Seq<char>, mark: char) -> Seq<char> {
    join(split_char(m, '\n').map_values(|l: Seq<char>| clean_line(l, mark)), seq!['\n'])
}

/// The messages that start with `mark`, cleaned, one after the other, each
/// followed by a line break.
pub open spec fn marked_messages(messages: Seq<Seq<char>>, mark: char) -> Seq<char>
    decreases messages.len(),
{
    if messages.len() == 0 {
        Seq::empty()
    } else {
        let before = marked_messages(messages.drop_last(), mark);
        let m = messages.last();
        if starts_with(m, seq![mark]) {
            before + clean_message(m, mark) + seq!['\n']
        } else {
            before
        }
    }
}

fn clean_message_exec(m: &str, mark: char) -> (r: String)
    ensures
        r@ == clean_message(m@, mark),
{
    let ls = split(m, '\n');
    let ghost target = split_char(m@, '\n').map_values(|l: Seq<char>| clean_line(l, mark));
    let mut cleaned: Vec<String> = Vec::new();
    let mut i: usize = 0;
    while i < ls.len()
        invariant
            i <= ls.len(),
            views(ls@) == split_char(m@, '\n'),
            target == split_char(m@, '\n').map_values(|l: Seq<char>| clean_line(l, mark)),
            views(cleaned@) == target.take(i as int),
        decreases ls.len() - i,
    {
        let a = trim_start_matches(ls[i].as_str(), mark);
        let b = trim(a.as_str());
        assert(b@ == target[i as int]);
        let ghost prev = views(cleaned@);
        cleaned.push(b);
        assert(views(cleaned@) =~= prev.push(target[i as int]));
        assert(target.take(i + 1) =~= target.take(i as int).push(target[i as int]));
        i = i + 1;
    }
    assert(target.take(ls.len() as int) =~= target);
    proof {
        reveal_strlit("\n");
    }
    let r = join_strings(&cleaned, "\n");
    assert("\n"@ =~= seq!['\n']);
    r
}

/// The messages of `messages` that start with `mark`, cleaned, each on its
/// own printed line.
fn marked(messages: &Vec<String>, mark: char) -> (r: String)
    ensures
        r@ == marked_messages(views(messages@), mark),
{
    let mut out = String::new();
    let mut i: usize = 0;
    let mut mark_str = String::new();
    crate::text::push_char(&mut mark_str, mark);
    assert(mark_str@ =~= seq![mark]);
    while i < messages.len()
        invariant
            i <= messages.len(),
            mark_str@ == seq![mark],
            out@ == marked_messages(views(messages@).take(i as int), mark),
        decreases messages.len() - i,
    {
        proof {
            reveal_strlit("\n");
        }
        let ghost vs = views(messages@).take(i + 1);
        assert(vs.drop_last() =~= views(messages@).take(i as int));
        assert(vs.last() == messages@[i as int]@);
        if starts_with_exec(messages[i].as_str(), mark_str.as_str()) {
            let c = clean_message_exec(messages[i].as_str(), mark);
            out.append(c.as_str());
            out.append("\n");
        }
        assert(out@ =~= marked_messages(vs, mark));
        i = i + 1;
    }
    assert(views(messages@).take(messages.len() as int) =~= views(messages@));
    out
}

/// What `last req` prints: the request messages of the entry.
pub fn req_head(entry: &Entry) -> (r: String)
    ensures
        r@ == marked_messages(entry@.messages, '>'),
{
    marked(entry.messages(), '>')
}

/// What `last req` prints.
pub fn req(entry: &Entry) -> (r: String)
    ensures
        r@ == marked_messages(entry@.messages, '>'),
{
    req_head(entry)
}

/// What `last res head` prints: the response messages of the entry.
pub fn res_head(entry: &Entry) -> (r: String)
    ensures
        r@ == marked_messages(entry@.messages, '<'),
{
    marked(entry.messages(), '<')
}

/// What `last res body` prints: the last message of the entry, if any.
pub fn res_body(entry: &Entry) -> (r: String)
    ensures
        r@ == (if entry@.messages.len() == 0 {
            Seq::<char>::empty()
        } else {
            entry@.messages.last() + seq!['\n']
        }),
{
    let ms = entry.messages();
    if ms.len() == 0 {
        String::new()
    } else {
        proof {
            reveal_strlit("\n");
        }
        crate::text::concat(ms[ms.len() - 1].as_str(), "\n")
    }
}

/// Which part of the last response `last res` prints.
pub enum LastResCmd {
    Head,
    Body,
}

/// What `last res` prints: the given part, or the head and then the body.
pub fn res(command: Option<LastResCmd>, entry: &Entry) -> (r: String)
    ensures
        r@ == match command {
            Some(LastResCmd::Head) => marked_messages(entry@.messages, '<'),
            Some(LastResCmd::Body) => (if entry@.messages.len() == 0 {
                Seq::<char>::empty()
            } else {
                entry@.messages.last() + seq!['\n']
            }),
            None => marked_messages(entry@.messages, '<') + (if entry@.messages.len() == 0 {
                Seq::<char>::empty()
            } else {
                entry@.messages.last() + seq!['\n']
            }),
        },
{
    match command {
        Some(LastResCmd::Head) => res_head(entry),
        Some(LastResCmd::Body) => res_body(entry),
        None => {
            let mut h = res_head(entry);
            let b = res_body(entry);
            h.append(b.as_str());
            h
        },
    }
}

/// The parts of the last exchange that `last` prints.
pub enum LastCmd {
    Handle,
    Req,
    Res(Option<LastResCmd>),
}

/// The text of an entry as `last` prints it.
pub open spec fn entry_text(e: EntryV) -> Seq<char> {
    e.handle + seq!['\n'] + join(e.messages, seq!['\n'])
}

/// What `last` prints for the latest entry of the history: the whole entry,
/// its handle, its request or its response. Fails when the history cannot be
/// read or holds no entry.
pub fn cmd(q: &Quartz, command: Option<LastCmd>) -> (r: CliResult<String>)
    ensures
        match history_entries(q.history@) {
            None => r matches Err(CliError::Quartz(Error::HistoryError(_))),
            Some(es) => if es.len() == 0 {
                r matches Err(CliError::NoHistoryEntry)
            } else {
                r matches Ok(s) && s@ == match command {
                    None => entry_text(es[0]) + seq!['\n'],
                    Some(LastCmd::Handle) => es[0].handle + seq!['\n'],
                    Some(LastCmd::Req) => marked_messages(es[0].messages, '>'),
                    Some(LastCmd::Res(c)) => match c {
                        Some(LastResCmd::Head) => marked_messages(es[0].messages, '<'),
                        Some(LastResCmd::Body) => (if es[0].messages.len() == 0 {
                            Seq::<char>::empty()
                        } else {
                            es[0].messages.last() + seq!['\n']
                        }),
                        None => marked_messages(es[0].messages, '<') + (if es[0].messages.len()
                            == 0 {
                            Seq::<char>::empty()
                        } else {
                            es[0].messages.last() + seq!['\n']
                        }),
                    },
                }
            },
        },
{
    let entry = match q.history.last_entry() {
        Ok(Some(e)) => e,
        Ok(None) => {
            return Err(CliError::NoHistoryEntry);
        },
        Err(e) => {
            return Err(CliError::Quartz(e));
        },
    };
    proof {
        reveal_strlit("\n");
    }
    match command {
        None => {
            let t = entry.to_string();
            Ok(crate::text::concat(t.as_str(), "\n"))
        },
        Some(LastCmd::Handle) => Ok(crate::text::concat(entry.handle(), "\n")),
        Some(LastCmd::Req) => Ok(req(&entry)),
        Some(LastCmd::Res(c)) => Ok(res(c, &entry)),
    }
}

} // verus!
