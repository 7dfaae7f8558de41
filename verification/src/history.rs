//! The history of sent requests: one entry per request, kept in a file named
//! by its timestamp.

use vstd::prelude::*;

use crate::error::{Error, HistoryError, Result};
use crate::project::{join_path, path_join};
use crate::text::{join, join_strings, views, str_eq};

verus! {

/// The value of a digit character.
pub open spec fn digit_value(c: char) -> int {
    (c as int) - ('0' as int)
}

/// `c` is one of `0` to `9`.
pub open spec fn is_digit(c: char) -> bool {
    '0' <= c && c <= '9'
}

/// The number written by decimal digits.
pub open spec fn digits_value(s: Seq<char>) -> int
    decreases s.len(),
{
    if s.len() == 0 {
        0
    } else {
        digits_value(s.drop_last()) * 10 + digit_value(s.last())
    }
}

/// Every character of `d` is a decimal digit.
pub open spec fn all_digits(d: Seq<char>) -> bool {
    forall|i: int| 0 <= i < d.len() ==> is_digit(#[trigger] d[i])
}

/// The number written by an optional `+` or `-` followed by at least one
/// decimal digit.
pub open spec fn decimal_value(s: Seq<char>) -> Option<int> {
    let neg = s.len() > 0 && s[0] == '-';
    let signed = s.len() > 0 && (s[0] == '-' || s[0] == '+');
    let d = if signed {
        s.skip(1)
    } else {
        s
    };
    if d.len() > 0 && all_digits(d) {
        Some(
            if neg {
                -digits_value(d)
            } else {
                digits_value(d)
            },
        )
    } else {
        None
    }
}

/// What `str::parse::<i64>` gives: the number written, when it fits.
pub open spec fn parsed_i64(s: Seq<char>) -> Option<i64> {
    match decimal_value(s) {
        Some(v) => if i64::MIN <= v <= i64::MAX {
            Some(v as i64)
        } else {
            None
        },
        None => None,
    }
}

/// The digit character of `d`.
pub open spec fn digit_char(d: int) -> char {
    (('0' as int) + d) as char
}

/// The decimal digits of a natural number, without leading zero.
pub open spec fn nat_text(n: nat) -> Seq<char>
    decreases n,
{
    if n < 10 {
        seq![digit_char(n as int)]
    } else {
        nat_text(n / 10).push(digit_char((n % 10) as int))
    }
}

/// How `i64::to_string` writes a number.
pub open spec fn int_text(n: int) -> Seq<char> {
    if n < 0 {
        seq!['-'] + nat_text((-n) as nat)
    } else {
        nat_text(n as nat)
    }
}

/// The value of all-digit text is at least that of each of its prefixes, and
/// not negative.
proof fn lemma_digits_mono(d: Seq<char>, k: int)
    requires
        0 <= k <= d.len(),
        forall|i: int| 0 <= i < d.len() ==> is_digit(#[trigger] d[i]),
    ensures
        digits_value(d) >= digits_value(d.take(k)),
        digits_value(d.take(k)) >= 0,
    decreases d.len(),
{
    if k == d.len() {
        assert(d.take(k) =~= d);
        if d.len() > 0 {
            lemma_digits_mono(d.drop_last(), 0);
            assert(d.drop_last().take(0) =~= Seq::<char>::empty());
            assert(is_digit(d[d.len() - 1]));
        }
    } else {
        let init = d.drop_last();
        assert forall|i: int| 0 <= i < init.len() implies is_digit(#[trigger] init[i]) by {
            assert(init[i] == d[i]);
        }
        lemma_digits_mono(init, k);
        assert(init.take(k) =~= d.take(k));
        assert(is_digit(d[d.len() - 1]));
        assert(digits_value(init) * 10 >= digits_value(init)) by (nonlinear_arith)
            requires
                digits_value(init) >= 0,
        ;
    }
}

/// `decimal_value` with its digits named.
proof fn lemma_decimal_value(s: Seq<char>, d: Seq<char>, neg: bool)
    requires
        neg == (s.len() > 0 && s[0] == '-'),
        d == (if s.len() > 0 && (s[0] == '-' || s[0] == '+') {
            s.skip(1)
        } else {
            s
        }),
    ensures
        decimal_value(s) == (if d.len() > 0 && all_digits(d) {
            Some(
                if neg {
                    -digits_value(d)
                } else {
                    digits_value(d)
                },
            )
        } else {
            None
        }),
{
}

/// The number that `s` writes, as `str::parse::<i64>` reads it: an optional
/// sign and decimal digits, read as a number that fits in `i64`; anything
/// else is refused.
fn parse_i64(s: &str) -> (r: Option<i64>)
    ensures
        r == parsed_i64(s@),
{
    let v = crate::text::chars_of(s);
    let neg = v.len() > 0 && v[0] == '-';
    let signed = v.len() > 0 && (v[0] == '-' || v[0] == '+');
    let start: usize = if signed {
        1
    } else {
        0
    };
    let ghost d = if signed {
        s@.skip(1)
    } else {
        s@
    };
    assert(d =~= v@.skip(start as int));
    assert(neg == (s@.len() > 0 && s@[0] == '-'));
    assert(signed == (s@.len() > 0 && (s@[0] == '-' || s@[0] == '+')));
    proof {
        lemma_decimal_value(s@, d, neg);
    }
    if start >= v.len() {
        return None;
    }
    let limit: u128 = if neg {
        9223372036854775808
    } else {
        9223372036854775807
    };
    let mut acc: u128 = 0;
    let mut i: usize = start;
    assert(d.take(0) =~= Seq::<char>::empty());
    while i < v.len()
        invariant
            start <= i <= v.len(),
            d == v@.skip(start as int),
            v@ == s@,
            acc as int == digits_value(d.take(i - start)),
            acc <= limit,
            limit == (if neg {
                9223372036854775808u128
            } else {
                9223372036854775807u128
            }),
            forall|j: int| 0 <= j < i - start ==> is_digit(#[trigger] d[j]),
            decimal_value(s@) == (if d.len() > 0 && all_digits(d) {
                Some(
                    if neg {
                        -digits_value(d)
                    } else {
                        digits_value(d)
                    },
                )
            } else {
                None
            }),
        decreases v.len() - i,
    {
        let c = v[i];
        assert(d[i - start] == c);
        if !('0' <= c && c <= '9') {
            proof {
                let j = i - start;
                assert(!is_digit(d[j]));
                assert(!all_digits(d));
                assert(decimal_value(s@) is None);
            }
            return None;
        }
        let dv: u128 = (c as u32 - '0' as u32) as u128;
        assert(dv as int == digit_value(c));
        assert(d.take(i + 1 - start).drop_last() =~= d.take(i - start));
        acc = acc * 10 + dv;
        assert(acc as int == digits_value(d.take(i + 1 - start)));
        if acc > limit {
            proof {
                if all_digits(d) {
                    lemma_digits_mono(d, i + 1 - start);
                    assert(digits_value(d) > limit);
                    assert(decimal_value(s@) == Some(
                        if neg {
                            -digits_value(d)
                        } else {
                            digits_value(d)
                        },
                    ));
                } else {
                    assert(decimal_value(s@) is None);
                }
            }
            return None;
        }
        i = i + 1;
    }
    assert(d.take(v.len() - start) =~= d);
    if neg {
        Some((0i128 - acc as i128) as i64)
    } else {
        Some(acc as i64)
    }
}

/// The digit character of `d`, one of `0` to `9`.
fn digit_char_exec(d: u64) -> (c: char)
    requires
        d < 10,
    ensures
        c == digit_char(d as int),
{
    let c = if d == 0 {
        '0'
    } else if d == 1 {
        '1'
    } else if d == 2 {
        '2'
    } else if d == 3 {
        '3'
    } else if d == 4 {
        '4'
    } else if d == 5 {
        '5'
    } else if d == 6 {
        '6'
    } else if d == 7 {
        '7'
    } else if d == 8 {
        '8'
    } else {
        '9'
    };
    assert(c as int == '0' as int + d);
    c
}

/// The decimal digits of `n`.
fn nat_text_exec(n: u64) -> (v: Vec<char>)
    ensures
        v@ == nat_text(n as nat),
    decreases n,
{
    if n < 10 {
        let mut v: Vec<char> = Vec::new();
        v.push(digit_char_exec(n));
        assert(v@ =~= nat_text(n as nat));
        v
    } else {
        let mut v = nat_text_exec(n / 10);
        v.push(digit_char_exec(n % 10));
        v
    }
}

/// The decimal text of `n`, after `-` when it is negative, as
/// `i64::to_string` writes it.
fn i64_text(n: i64) -> (r: String)
    ensures
        r@ == int_text(n as int),
{
    let m: u64 = if n < 0 {
        (0i128 - n as i128) as u64
    } else {
        n as u64
    };
    let digits = nat_text_exec(m);
    let mut v: Vec<char> = Vec::new();
    if n < 0 {
        v.push('-');
    }
    let mut i: usize = 0;
    let ghost start = v@;
    while i < digits.len()
        invariant
            i <= digits.len(),
            v@ == start + digits@.take(i as int),
        decreases digits.len() - i,
    {
        v.push(digits[i]);
        assert(digits@.take(i + 1) =~= digits@.take(i as int).push(digits@[i as int]));
        i = i + 1;
    }
    assert(digits@.take(digits.len() as int) =~= digits@);
    let r = crate::text::string_of(&v);
    assert(r@ =~= int_text(n as int));
    r
}

/// An entry as values.
pub struct EntryV {
    pub timestamp: int,
    pub handle: Seq<char>,
    pub messages: Seq<Seq<char>>,
}

/// A request that was sent: when, with which handle, and the HTTP messages
/// exchanged.
pub struct Entry {
    timestamp: i64,
    handle: String,
    /// List of exchanged HTTP messages
    messages: Vec<String>,
}

impl View for Entry {
    type V = EntryV;

    closed spec fn view(&self) -> EntryV {
        EntryV { timestamp: self.timestamp as int, handle: self.handle@, messages: views(self.messages@) }
    }
}

fn clone_strings(v: &Vec<String>) -> (r: Vec<String>)
    ensures
        views(r@) == views(v@),
{
    let mut r: Vec<String> = Vec::new();
    let mut i: usize = 0;
    while i < v.len()
        invariant
            i <= v.len(),
            views(r@) == views(v@).take(i as int),
        decreases v.len() - i,
    {
        let s = v[i].clone();
        let ghost prev = views(r@);
        r.push(s);
        assert(views(r@) =~= prev.push(s@));
        assert(views(v@).take(i + 1) =~= views(v@).take(i as int).push(v@[i as int]@));
        i = i + 1;
    }
    assert(views(v@).take(v.len() as int) =~= views(v@));
    r
}

impl Entry {
    /// A builder with no handle, no timestamp and no message.
    pub fn builder() -> (r: EntryBuilder)
        ensures
            r.handle is None,
            r.timestamp == 0,
            r.messages@.len() == 0,
    {
        EntryBuilder::default()
    }

    /// An entry made of its parts.
    pub fn from_parts(timestamp: i64, handle: String, messages: Vec<String>) -> (r: Entry)
        ensures
            r@ == (EntryV { timestamp: timestamp as int, handle: handle@, messages: views(messages@) }),
    {
        Entry { timestamp, handle, messages }
    }

    /// The timestamp of the entry.
    pub fn timestamp(&self) -> (r: i64)
        ensures
            r as int == self@.timestamp,
    {
        self.timestamp
    }

    /// The handle of the entry.
    pub fn handle(&self) -> (r: &str)
        ensures
            r@ == self@.handle,
    {
        self.handle.as_str()
    }

    /// The messages of the entry.
    pub fn messages(&self) -> (r: &Vec<String>)
        ensures
            views(r@) == self@.messages,
    {
        &self.messages
    }

    /// A copy of the entry.
    pub fn clone_entry(&self) -> (r: Entry)
        ensures
            r@ == self@,
    {
        Entry {
            timestamp: self.timestamp,
            handle: self.handle.clone(),
            messages: clone_strings(&self.messages),
        }
    }

    /// The handle, then the messages, one per line.
    pub fn to_string(&self) -> (r: String)
        ensures
            r@ == self@.handle + seq!['\n'] + join(self@.messages, seq!['\n']),
    {
        proof {
            reveal_strlit("\n");
        }
        let mut r = self.handle.clone();
        r.append("\n");
        let m = join_strings(&self.messages, "\n");
        r.append(m.as_str());
        assert("\n"@ =~= seq!['\n']);
        r
    }
}

/// An entry being put together.
pub struct EntryBuilder {
    pub timestamp: i64,
    pub handle: Option<String>,
    pub messages: Vec<String>,
}

impl Default for EntryBuilder {
    fn default() -> (r: Self)
        ensures
            r.handle is None,
            r.timestamp == 0,
            r.messages@.len() == 0,
    {
        EntryBuilder { timestamp: 0, handle: None, messages: Vec::new() }
    }
}

/// The text of an HTTP message, as the history keeps it.
pub struct Http(pub String);

/// `text` in front of every header line, then `mark` alone.
pub open spec fn header_lines(mark: char, headers: Seq<(Seq<char>, Seq<char>)>) -> Seq<char>
    decreases headers.len(),
{
    if headers.len() == 0 {
        Seq::empty()
    } else {
        header_lines(mark, headers.drop_last()) + seq![mark, ' '] + headers.last().0 + seq![
            ':',
            ' ',
        ] + headers.last().1 + seq!['\n']
    }
}

fn push_header_lines(out: &mut String, mark: &str, headers: &Vec<(String, String)>)
    requires
        mark@.len() == 1,
    ensures
        final(out)@ == old(out)@ + header_lines(
            mark@[0],
            headers@.map_values(|h: (String, String)| (h.0@, h.1@)),
        ),
{
    proof {
        reveal_strlit(" ");
        reveal_strlit(": ");
        reveal_strlit("\n");
    }
    let ghost hv = headers@.map_values(|h: (String, String)| (h.0@, h.1@));
    let ghost start = out@;
    let mut i: usize = 0;
    while i < headers.len()
        invariant
            i <= headers.len(),
            mark@.len() == 1,
            hv == headers@.map_values(|h: (String, String)| (h.0@, h.1@)),
            out@ == start + header_lines(mark@[0], hv.take(i as int)),
        decreases headers.len() - i,
    {
        assert(hv[i as int] == (headers@[i as int].0@, headers@[i as int].1@));
        assert(hv.take(i + 1).drop_last() =~= hv.take(i as int));
        assert(hv.take(i + 1).last() == hv[i as int]);
        assert(mark@ =~= seq![mark@[0]]);
        proof {
            reveal_strlit(" ");
            reveal_strlit(": ");
            reveal_strlit("\n");
        }
        assert(" "@ =~= seq![' ']);
        assert(": "@ =~= seq![':', ' ']);
        assert("\n"@ =~= seq!['\n']);
        out.append(mark);
        out.append(" ");
        out.append(headers[i].0.as_str());
        out.append(": ");
        out.append(headers[i].1.as_str());
        out.append("\n");
        assert(out@ =~= start + header_lines(mark@[0], hv.take(i + 1)));
        i = i + 1;
    }
    assert(hv.take(headers.len() as int) =~= hv);
}

impl Http {
    /// A response as text: `< <version> <status>`, a line `< name: value`
    /// per header, and a last `<`.
    pub fn of_response(version: &str, status: &str, headers: &Vec<(String, String)>) -> (r: Http)
        ensures
            r.0@ == seq!['<', ' '] + version@ + seq![' '] + status@ + seq!['\n'] + header_lines(
                '<',
                headers@.map_values(|h: (String, String)| (h.0@, h.1@)),
            ) + seq!['<'],
    {
        proof {
            reveal_strlit("< ");
            reveal_strlit(" ");
            reveal_strlit("\n");
            reveal_strlit("<");
        }
        let mut out = String::from_str("< ");
        out.append(version);
        out.append(" ");
        out.append(status);
        out.append("\n");
        push_header_lines(&mut out, "<", headers);
        out.append("<");
        Http(out)
    }

    /// A request as text: `> <method> <path> <version>`, `> Host: <host>`, a
    /// line `> name: value` per header, and a last `>`.
    pub fn of_request(
        method: &str,
        path: &str,
        version: &str,
        host: &str,
        headers: &Vec<(String, String)>,
    ) -> (r: Http)
        ensures
            r.0@ == seq!['>', ' '] + method@ + seq![' '] + path@ + seq![' '] + version@ + seq!['\n']
                + seq!['>', ' ', 'H', 'o', 's', 't', ':', ' '] + host@ + seq!['\n'] + header_lines(
                '>',
                headers@.map_values(|h: (String, String)| (h.0@, h.1@)),
            ) + seq!['>'],
    {
        proof {
            reveal_strlit("> ");
            reveal_strlit(" ");
            reveal_strlit("\n");
            reveal_strlit("> Host: ");
            reveal_strlit(">");
        }
        let mut out = String::from_str("> ");
        out.append(method);
        out.append(" ");
        out.append(path);
        out.append(" ");
        out.append(version);
        out.append("\n");
        out.append("> Host: ");
        out.append(host);
        out.append("\n");
        push_header_lines(&mut out, ">", headers);
        out.append(">");
        Http(out)
    }
}

impl EntryBuilder {
    /// Sets the handle.
    pub fn handle(&mut self, value: String) -> (r: &mut Self)
        ensures
            r.handle == Some(value),
            r.timestamp == old(self).timestamp,
            r.messages == old(self).messages,
            *final(self) == *final(r),
    {
        self.handle = Some(value);
        self
    }

    /// Adds the text of an HTTP message.
    pub fn message(&mut self, value: Http) -> (r: &mut Self)
        ensures
            r.messages@ == old(self).messages@.push(value.0),
            r.handle == old(self).handle,
            r.timestamp == old(self).timestamp,
            *final(self) == *final(r),
    {
        self.messages.push(value.0);
        self
    }

    /// Adds a message as it is.
    pub fn message_raw(&mut self, value: String) -> (r: &mut Self)
        ensures
            r.messages@ == old(self).messages@.push(value),
            r.handle == old(self).handle,
            r.timestamp == old(self).timestamp,
            *final(self) == *final(r),
    {
        self.messages.push(value);
        self
    }

    /// Sets the timestamp.
    pub fn timestemp(&mut self, value: i64) -> (r: &mut Self)
        ensures
            r.timestamp == value,
            r.handle == old(self).handle,
            r.messages == old(self).messages,
            *final(self) == *final(r),
    {
        self.timestamp = value;
        self
    }

    /// The entry; fails without a handle, and then without a timestamp or
    /// without a message.
    pub fn build(self) -> (r: Result<Entry>)
        ensures
            self.handle is None ==> r matches Err(
                Error::HistoryError(HistoryError::GetEntryBuilderHandle),
            ),
            self.handle is Some && (self.timestamp == 0 || self.messages@.len() == 0) ==> r matches Err(
                Error::HistoryError(HistoryError::Empty),
            ),
            self.handle is Some && self.timestamp != 0 && self.messages@.len() > 0 ==> (r matches Ok(
                e,
            ) && e@ == (EntryV {
                timestamp: self.timestamp as int,
                handle: self.handle.unwrap()@,
                messages: views(self.messages@),
            })),
    {
        let handle = match self.handle {
            Some(h) => h,
            None => {
                return Err(Error::HistoryError(HistoryError::GetEntryBuilderHandle));
            },
        };
        if self.timestamp == 0 || self.messages.len() == 0 {
            return Err(Error::HistoryError(HistoryError::Empty));
        }
        Ok(Entry { handle, timestamp: self.timestamp, messages: self.messages })
    }
}

/// A file of the history directory: its name, and the entry it holds when
/// it can be read.
pub struct HistoryFile {
    pub name: String,
    pub entry: Option<Entry>,
}

/// A history file as values.
pub struct HistoryFileV {
    pub name: Seq<char>,
    pub entry: Option<EntryV>,
}

impl View for HistoryFile {
    type V = HistoryFileV;

    open spec fn view(&self) -> HistoryFileV {
        HistoryFileV {
            name: self.name@,
            entry: match self.entry {
                Some(e) => Some(e@),
                None => None,
            },
        }
    }
}

/// The timestamps that the file names give, or `None` when a name is not a
/// number.
pub open spec fn file_timestamps(files: Seq<HistoryFileV>) -> Option<Seq<i64>>
    decreases files.len(),
{
    if files.len() == 0 {
        Some(Seq::empty())
    } else {
        match (file_timestamps(files.drop_last()), parsed_i64(files.last().name)) {
            (Some(ts), Some(t)) => Some(ts.push(t)),
            _ => None,
        }
    }
}

/// Larger timestamps first.
pub open spec fn later_first() -> spec_fn(i64, i64) -> bool {
    |a: i64, b: i64| a >= b
}

/// The entry of the first file named `name`, when it can be read.
pub open spec fn entry_named(files: Seq<HistoryFileV>, name: Seq<char>) -> Option<EntryV>
    decreases files.len(),
{
    if files.len() == 0 {
        None
    } else if files[0].name == name {
        files[0].entry
    } else {
        entry_named(files.skip(1), name)
    }
}

/// The entries of the files named by `ts`, in order, skipping those that
/// cannot be read.
pub open spec fn entries_of(files: Seq<HistoryFileV>, ts: Seq<i64>) -> Seq<EntryV>
    decreases ts.len(),
{
    if ts.len() == 0 {
        Seq::empty()
    } else {
        let rest = entries_of(files, ts.drop_last());
        match entry_named(files, int_text(ts.last() as int)) {
            Some(e) => rest.push(e),
            None => rest,
        }
    }
}

/// What `History::entries` gives: the entries, latest first, or `None` when
/// a file name is not a number.
pub open spec fn history_entries(files: Seq<HistoryFileV>) -> Option<Seq<EntryV>> {
    match file_timestamps(files) {
        Some(ts) => Some(entries_of(files, ts.sort_by(later_first()))),
        None => None,
    }
}

/// The history of a project.
pub struct History {
    mount_path: String,
    files: Vec<HistoryFile>,
}

pub open spec fn files_view(v: Seq<HistoryFile>) -> Seq<HistoryFileV> {
    v.map_values(|f: HistoryFile| f@)
}

/// Sorts timestamps, larger first.
fn sort_later_first(items: Vec<i64>) -> (r: Vec<i64>)
    ensures
        r@ == items@.sort_by(later_first()),
{
    let ghost leq = later_first();
    proof {
        assert(vstd::relations::total_ordering(leq));
    }
    let mut out: Vec<i64> = Vec::new();
    let mut i: usize = 0;
    proof {
        broadcast use vstd::seq_lib::group_to_multiset_ensures;

        assert(items@.take(0) =~= Seq::<i64>::empty());
    }
    while i < items.len()
        invariant
            i <= items.len(),
            leq == later_first(),
            vstd::relations::total_ordering(leq),
            vstd::relations::sorted_by(out@, leq),
            out@.to_multiset() == items@.take(i as int).to_multiset(),
        decreases items.len() - i,
    {
        let x = items[i];
        let ghost ov = out@;
        let mut j: usize = 0;
        while j < out.len()
            invariant
                j <= out.len(),
                ov == out@,
                forall|k: int| 0 <= k < j ==> #[trigger] ov[k] >= x,
            ensures
                j <= out.len(),
                ov == out@,
                forall|k: int| 0 <= k < j ==> #[trigger] ov[k] >= x,
                j < out.len() ==> ov[j as int] < x,
            decreases out.len() - j,
        {
            if out[j] < x {
                break;
            }
            j = j + 1;
        }
        proof {
            let nv = ov.insert(j as int, x);
            assert forall|a: int, b: int| 0 <= a < b < nv.len() implies #[trigger] leq(
                nv[a],
                nv[b],
            ) by {
                if b < j {
                    assert(leq(ov[a], ov[b]));
                } else if b == j {
                    assert(ov[a] >= x);
                } else if a == j {
                    assert(leq(ov[j as int], ov[b - 1]) || j == b - 1);
                } else if a < j {
                    assert(leq(ov[a], ov[b - 1]));
                } else {
                    assert(leq(ov[a - 1], ov[b - 1]));
                }
            }
        }
        out.insert(j, x);
        proof {
            broadcast use vstd::seq_lib::group_to_multiset_ensures;

            let nv = out@;
            let before = items@.take(i as int);
            assert(items@.take(i + 1) =~= before.push(x));
            assert(nv =~= (ov.take(j as int) + seq![x]) + ov.skip(j as int));
            vstd::seq_lib::lemma_multiset_commutative(ov.take(j as int) + seq![x], ov.skip(j as int));
            vstd::seq_lib::lemma_multiset_commutative(ov.take(j as int), seq![x]);
            vstd::seq_lib::lemma_multiset_commutative(ov.take(j as int), ov.skip(j as int));
            assert(ov =~= ov.take(j as int) + ov.skip(j as int));
            assert(seq![x].to_multiset() =~= vstd::multiset::Multiset::<i64>::empty().insert(x)) by {
                assert(seq![x] =~= Seq::<i64>::empty().push(x));
            }
            assert(nv.to_multiset() =~= ov.to_multiset().insert(x));
        }
        i = i + 1;
    }
    proof {
        assert(items@.take(items.len() as int) =~= items@);
        items@.lemma_sort_by_ensures(leq);
        vstd::seq_lib::lemma_sorted_unique(out@, items@.sort_by(leq), leq);
    }
    out
}

/// `user/history`.
pub open spec fn history_dir_name() -> Seq<char> {
    seq!['u', 's', 'e', 'r', '/', 'h', 'i', 's', 't', 'o', 'r', 'y']
}

impl History {
    /// The history of the project directory `mount_path`, holding `files`.
    pub fn new(mount_path: String, files: Vec<HistoryFile>) -> (r: Result<Self>)
        ensures
            r matches Ok(h) && h.mount_view() == mount_path@ && h@ == files_view(files@),
    {
        Ok(Self::with_files(mount_path, files))
    }

    /// The history of the project directory `mount_path`, holding `files`.
    pub fn with_files(mount_path: String, files: Vec<HistoryFile>) -> (r: Self)
        ensures
            r.mount_view() == mount_path@,
            r@ == files_view(files@),
    {
        History { mount_path, files }
    }

    pub closed spec fn mount_view(&self) -> Seq<char> {
        self.mount_path@
    }

    /// The files of the history, in order.
    pub fn files(&self) -> (r: &Vec<HistoryFile>)
        ensures
            files_view(r@) == self@,
    {
        &self.files
    }

    /// The directory of the history: `<project>/user/history`.
    pub fn dir(&self) -> (r: String)
        ensures
            r@ == join_path(self.mount_view(), history_dir_name()),
    {
        proof {
            reveal_strlit("user/history");
        }
        let r = path_join(self.mount_path.as_str(), "user/history");
        assert("user/history"@ =~= history_dir_name());
        r
    }

    /// The entries, latest first: the file names read as timestamps (fails
    /// when one is not a number), sorted from the largest, and the entry of
    /// the file named by each, where it can be read.
    pub fn entries(&self) -> (r: Result<Vec<Entry>>)
        ensures
            match history_entries(self@) {
                Some(es) => r matches Ok(v) && v@.map_values(|e: Entry| e@) == es,
                None => r matches Err(Error::HistoryError(HistoryError::ReadEntries)),
            },
    {
        let ghost fv = self@;
        let mut ts: Vec<i64> = Vec::new();
        let mut i: usize = 0;
        while i < self.files.len()
            invariant
                i <= self.files.len(),
                fv == files_view(self.files@),
                file_timestamps(fv.take(i as int)) == Some(ts@),
            decreases self.files.len() - i,
        {
            assert(fv.take(i + 1).drop_last() =~= fv.take(i as int));
            assert(fv[i as int] == self.files@[i as int]@);
            match parse_i64(self.files[i].name.as_str()) {
                Some(t) => {
                    ts.push(t);
                },
                None => {
                    proof {
                        lemma_file_timestamps_prefix(fv, i as int);
                    }
                    return Err(Error::HistoryError(HistoryError::ReadEntries));
                },
            }
            i = i + 1;
        }
        assert(fv.take(self.files.len() as int) =~= fv);
        let sorted = sort_later_first(ts);
        let mut out: Vec<Entry> = Vec::new();
        let mut j: usize = 0;
        while j < sorted.len()
            invariant
                j <= sorted.len(),
                fv == files_view(self.files@),
                out@.map_values(|e: Entry| e@) == entries_of(fv, sorted@.take(j as int)),
            decreases sorted.len() - j,
        {
            assert(sorted@.take(j + 1).drop_last() =~= sorted@.take(j as int));
            let name = i64_text(sorted[j]);
            let found = self.find_entry(name.as_str());
            let ghost prev = out@.map_values(|e: Entry| e@);
            match found {
                Some(e) => {
                    out.push(e);
                    assert(out@.map_values(|e: Entry| e@) =~= prev.push(e@));
                },
                None => {},
            }
            j = j + 1;
        }
        assert(sorted@.take(sorted.len() as int) =~= sorted@);
        Ok(out)
    }

    /// A copy of the entry of the first file named `name`, when it can be read.
    fn find_entry(&self, name: &str) -> (r: Option<Entry>)
        ensures
            match entry_named(self@, name@) {
                Some(e) => r matches Some(x) && x@ == e,
                None => r is None,
            },
    {
        let ghost fv = self@;
        let mut i: usize = 0;
        assert(fv.skip(0) =~= fv);
        while i < self.files.len()
            invariant
                i <= self.files.len(),
                fv == files_view(self.files@),
                entry_named(fv, name@) == entry_named(fv.skip(i as int), name@),
            decreases self.files.len() - i,
        {
            assert(fv.skip(i as int)[0] == self.files@[i as int]@);
            assert(fv.skip(i as int).skip(1) =~= fv.skip(i + 1));
            if str_eq(self.files[i].name.as_str(), name) {
                return match &self.files[i].entry {
                    Some(e) => Some(e.clone_entry()),
                    None => None,
                };
            }
            i = i + 1;
        }
        None
    }

    /// The latest entry, when there is one.
    pub fn last_entry(&self) -> (r: Result<Option<Entry>>)
        ensures
            match history_entries(self@) {
                Some(es) => r matches Ok(o) && (if es.len() == 0 {
                    o is None
                } else {
                    o matches Some(e) && e@ == es[0]
                }),
                None => r matches Err(Error::HistoryError(HistoryError::ReadEntries)),
            },
    {
        let mut es = self.entries()?;
        if es.len() == 0 {
            Ok(None)
        } else {
            Ok(Some(es.remove(0)))
        }
    }

    /// Writes `entry` to the file named by its timestamp.
    pub fn write(&mut self, entry: Entry) -> (r: Result)
        ensures
            r is Ok,
            final(self)@ == put_file(old(self)@, int_text(entry@.timestamp), entry@),
            final(self).mount_view() == old(self).mount_view(),
    {
        let name = i64_text(entry.timestamp);
        let ghost fv = self@;
        let ghost ev = entry@;
        let ghost nm = name@;
        let ghost f = HistoryFileV { name: nm, entry: Some(ev) };
        let mut i: usize = 0;
        while i < self.files.len()
            invariant
                i <= self.files.len(),
                fv == files_view(self.files@),
                self.mount_path == old(self).mount_path,
                fv == old(self)@,
                nm == name@,
                ev == entry@,
                nm == int_text(entry@.timestamp),
                f == (HistoryFileV { name: nm, entry: Some(ev) }),
                forall|k: int| 0 <= k < i ==> fv[k].name != name@,
            decreases self.files.len() - i,
        {
            assert(fv[i as int] == self.files@[i as int]@);
            if str_eq(self.files[i].name.as_str(), name.as_str()) {
                proof {
                    lemma_first_named(fv, nm, i as int);
                }
                let nf = HistoryFile { name, entry: Some(entry) };
                assert(nf@ == f);
                let mut files: Vec<HistoryFile> = Vec::new();
                std::mem::swap(&mut files, &mut self.files);
                files.set(i, nf);
                self.files = files;
                assert(self@ =~= fv.update(i as int, f));
                return Ok(());
            }
            i = i + 1;
        }
        proof {
            lemma_first_named(fv, nm, fv.len() as int);
        }
        let nf = HistoryFile { name, entry: Some(entry) };
        assert(nf@ == f);
        self.files.push(nf);
        assert(self@ =~= fv.push(f));
        Ok(())
    }
}

impl View for History {
    type V = Seq<HistoryFileV>;

    closed spec fn view(&self) -> Seq<HistoryFileV> {
        files_view(self.files@)
    }
}

/// The position of the first file named `name`, or the number of files.
pub open spec fn first_named(files: Seq<HistoryFileV>, name: Seq<char>) -> int
    decreases files.len(),
{
    if files.len() == 0 {
        0
    } else if files[0].name == name {
        0
    } else {
        1 + first_named(files.skip(1), name)
    }
}

/// The file named `name` holding `e`: the first such file replaced, or a
/// new file at the end.
pub open spec fn put_file(files: Seq<HistoryFileV>, name: Seq<char>, e: EntryV) -> Seq<HistoryFileV> {
    let i = first_named(files, name);
    let f = HistoryFileV { name, entry: Some(e) };
    if i < files.len() {
        files.update(i, f)
    } else {
        files.push(f)
    }
}

/// `first_named` is the first position with that name.
pub proof fn lemma_first_named(files: Seq<HistoryFileV>, name: Seq<char>, i: int)
    requires
        0 <= i <= files.len(),
        forall|k: int| 0 <= k < i ==> files[k].name != name,
        i < files.len() ==> files[i].name == name,
    ensures
        first_named(files, name) == i,
    decreases files.len(),
{
    if files.len() > 0 && i > 0 {
        assert forall|k: int| 0 <= k < i - 1 implies files.skip(1)[k].name != name by {
            assert(files.skip(1)[k] == files[k + 1]);
        }
        lemma_first_named(files.skip(1), name, i - 1);
    }
}

/// When a file name among the first `i + 1` is not a number, neither are
/// the names taken together.
proof fn lemma_file_timestamps_prefix(files: Seq<HistoryFileV>, i: int)
    requires
        0 <= i < files.len(),
        parsed_i64(files[i].name) is None,
    ensures
        file_timestamps(files) is None,
    decreases files.len(),
{
    if i < files.len() - 1 {
        assert(files.drop_last()[i] == files[i]);
        lemma_file_timestamps_prefix(files.drop_last(), i);
    }
}

/// A digit character reads back as its value.
proof fn lemma_digit_char(d: int)
    requires
        0 <= d < 10,
    ensures
        is_digit(digit_char(d)),
        digit_value(digit_char(d)) == d,
{
}

/// The digits of `n` are digits, at least one, and read back as `n`.
proof fn lemma_nat_text(n: nat)
    ensures
        nat_text(n).len() > 0,
        forall|i: int| 0 <= i < nat_text(n).len() ==> is_digit(#[trigger] nat_text(n)[i]),
        digits_value(nat_text(n)) == n,
    decreases n,
{
    if n < 10 {
        lemma_digit_char(n as int);
        assert(seq![digit_char(n as int)].drop_last() =~= Seq::<char>::empty());
        assert(digits_value(Seq::<char>::empty()) == 0);
    } else {
        lemma_nat_text(n / 10);
        lemma_digit_char((n % 10) as int);
        let t = nat_text(n / 10);
        assert(t.push(digit_char((n % 10) as int)).drop_last() =~= t);
        assert(digits_value(nat_text(n)) == digits_value(t) * 10 + (n % 10));
        assert((n / 10) * 10 + n % 10 == n) by (nonlinear_arith);
        assert forall|i: int| 0 <= i < nat_text(n).len() implies is_digit(#[trigger] nat_text(n)[i]) by {
            if i < t.len() {
                assert(nat_text(n)[i] == t[i]);
            }
        }
    }
}

/// A number written by `i64::to_string` is read back by `str::parse::<i64>`.
pub proof fn lemma_int_text_parses(n: i64)
    ensures
        parsed_i64(int_text(n as int)) == Some(n),
{
    if n < 0 {
        let m = (-(n as int)) as nat;
        lemma_nat_text(m);
        let s = int_text(n as int);
        assert(s.skip(1) =~= nat_text(m));
    } else {
        lemma_nat_text(n as nat);
        lemma_digit_char(0);
        let s = nat_text(n as nat);
        assert(is_digit(s[0]));
    }
}

/// The timestamps of the files are those their names give, one per file,
/// when every name is a number.
proof fn lemma_file_timestamps(files: Seq<HistoryFileV>)
    ensures
        file_timestamps(files) is Some <==> forall|k: int|
            0 <= k < files.len() ==> (#[trigger] parsed_i64(files[k].name)) is Some,
        file_timestamps(files) matches Some(ts) ==> ts.len() == files.len() && forall|k: int|
            0 <= k < files.len() ==> Some(#[trigger] ts[k]) == parsed_i64(files[k].name),
    decreases files.len(),
{
    if files.len() > 0 {
        let init = files.drop_last();
        lemma_file_timestamps(init);
        assert forall|k: int| 0 <= k < init.len() implies init[k] == files[k] by {}
        if file_timestamps(files) is Some {
            assert forall|k: int| 0 <= k < files.len() implies (#[trigger] parsed_i64(
                files[k].name,
            )) is Some by {
                if k < init.len() {
                    assert(init[k] == files[k]);
                }
            }
        }
        if forall|k: int| 0 <= k < files.len() ==> (#[trigger] parsed_i64(files[k].name)) is Some {
            assert(parsed_i64(files[files.len() - 1].name) is Some);
            assert forall|k: int| 0 <= k < init.len() implies (#[trigger] parsed_i64(
                init[k].name,
            )) is Some by {
                assert(init[k] == files[k]);
                assert(parsed_i64(files[k].name) is Some);
            }
        }
        if file_timestamps(files) is Some {
            let ts = file_timestamps(files).unwrap();
            let ti = file_timestamps(init).unwrap();
            assert forall|k: int| 0 <= k < files.len() implies Some(#[trigger] ts[k]) == parsed_i64(
                files[k].name,
            ) by {
                if k < init.len() {
                    assert(ts[k] == ti[k]);
                    assert(init[k] == files[k]);
                }
            }
        }
    }
}

/// The entry of the first file named `name`, where there is one.
proof fn lemma_entry_named_first(files: Seq<HistoryFileV>, name: Seq<char>)
    ensures
        0 <= first_named(files, name) <= files.len(),
        forall|k: int| 0 <= k < first_named(files, name) ==> #[trigger] files[k].name != name,
        first_named(files, name) < files.len() ==> files[first_named(files, name)].name == name,
        entry_named(files, name) == if first_named(files, name) < files.len() {
            files[first_named(files, name)].entry
        } else {
            None
        },
    decreases files.len(),
{
    if files.len() > 0 && files[0].name != name {
        let rest = files.skip(1);
        lemma_entry_named_first(rest, name);
        assert forall|k: int| 0 <= k < first_named(files, name) implies #[trigger] files[k].name
            != name by {
            if k > 0 {
                assert(files[k] == rest[k - 1]);
            }
        }
        if first_named(rest, name) < rest.len() {
            assert(rest[first_named(rest, name)] == files[first_named(files, name)]);
        }
    }
}

/// The first entry of `entries_of` is that of the file named by the first
/// timestamp, when it can be read.
proof fn lemma_entries_of_first(files: Seq<HistoryFileV>, ts: Seq<i64>, e: EntryV)
    requires
        ts.len() > 0,
        entry_named(files, int_text(ts[0] as int)) == Some(e),
    ensures
        entries_of(files, ts).len() > 0,
        entries_of(files, ts)[0] == e,
    decreases ts.len(),
{
    if ts.len() == 1 {
        assert(ts.drop_last() =~= Seq::<i64>::empty());
        assert(ts.last() == ts[0]);
        assert(entries_of(files, ts.drop_last()) =~= Seq::<EntryV>::empty());
    } else {
        assert(ts.drop_last()[0] == ts[0]);
        lemma_entries_of_first(files, ts.drop_last(), e);
    }
}

/// The largest timestamp comes first once sorted.
proof fn lemma_sorted_first_is_max(ts: Seq<i64>, t: i64)
    requires
        ts.contains(t),
        forall|k: int| 0 <= k < ts.len() ==> #[trigger] ts[k] <= t,
    ensures
        ts.sort_by(later_first()).len() > 0,
        ts.sort_by(later_first())[0] == t,
{
    broadcast use vstd::seq_lib::group_to_multiset_ensures;

    let leq = later_first();
    assert(vstd::relations::total_ordering(leq));
    ts.lemma_sort_by_ensures(leq);
    let st = ts.sort_by(leq);
    assert(ts.to_multiset().count(t) > 0);
    assert(st.to_multiset().count(t) > 0);
    assert(st.contains(t));
    let j = choose|j: int| 0 <= j < st.len() && st[j] == t;
    assert(st.contains(st[0]));
    assert(st.to_multiset().count(st[0]) > 0);
    assert(ts.to_multiset().count(st[0]) > 0);
    assert(ts.contains(st[0]));
    let i = choose|i: int| 0 <= i < ts.len() && ts[i] == st[0];
    assert(ts[i] <= t);
    if j > 0 {
        assert(leq(st[0], st[j]));
    }
}

/// Reading back a write: once `e` is written, the latest entry of the history
/// is `e`, when every file name was a timestamp no later than that of `e`.
pub proof fn law_write_then_last_entry(files: Seq<HistoryFileV>, e: EntryV)
    requires
        i64::MIN <= e.timestamp <= i64::MAX,
        file_timestamps(files) matches Some(ts) && forall|k: int|
            0 <= k < ts.len() ==> #[trigger] ts[k] <= e.timestamp,
    ensures
        history_entries(put_file(files, int_text(e.timestamp), e)) matches Some(es) && es.len() > 0
            && es[0] == e,
{
    let t = e.timestamp as i64;
    let n = int_text(e.timestamp);
    let g = put_file(files, n, e);
    let i = first_named(files, n);
    let ts = file_timestamps(files).unwrap();
    lemma_int_text_parses(t);
    lemma_entry_named_first(files, n);
    lemma_file_timestamps(files);
    assert forall|k: int| 0 <= k < i implies #[trigger] g[k].name != n by {
        assert(g[k] == files[k]);
    }
    lemma_first_named(g, n, i);
    lemma_entry_named_first(g, n);
    assert(entry_named(g, n) == Some(e));
    assert forall|k: int| 0 <= k < g.len() implies (#[trigger] parsed_i64(g[k].name)) is Some
        && parsed_i64(g[k].name).unwrap() <= t by {
        if k != i {
            assert(g[k] == files[k]);
            assert(Some(ts[k]) == parsed_i64(files[k].name));
        }
    }
    lemma_file_timestamps(g);
    let tg = file_timestamps(g).unwrap();
    assert(Some(tg[i]) == parsed_i64(g[i].name));
    assert(tg.contains(t));
    assert forall|k: int| 0 <= k < tg.len() implies #[trigger] tg[k] <= t by {
        assert(Some(tg[k]) == parsed_i64(g[k].name));
    }
    lemma_sorted_first_is_max(tg, t);
    let st = tg.sort_by(later_first());
    lemma_entries_of_first(g, st, e);
}

} // verus!
