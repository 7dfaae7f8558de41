//! Character-level string operations, stated over `Seq<char>` and
//! implemented over `Vec<char>`.

use vstd::prelude::*;

verus! {

broadcast use vstd::string::group_string_axioms;

// ---------------------------------------------------------------------------
// Specifications
// ---------------------------------------------------------------------------

/// `pat` occurs in `s` starting at position `i`.
pub open spec fn occurs_at(s: Seq<char>, pat: Seq<char>, i: int) -> bool {
    0 <= i && i + pat.len() <= s.len() && s.subrange(i, i + pat.len()) == pat
}

pub open spec fn starts_with(s: Seq<char>, pat: Seq<char>) -> bool {
    occurs_at(s, pat, 0)
}

pub open spec fn ends_with(s: Seq<char>, pat: Seq<char>) -> bool {
    pat.len() <= s.len() && occurs_at(s, pat, s.len() - pat.len())
}

pub open spec fn contains(s: Seq<char>, pat: Seq<char>) -> bool {
    find_from(s, pat, 0) is Some
}

/// What `str::replace` gives for an empty pattern: `to` before every
/// character and at the end.
pub open spec fn interleave(s: Seq<char>, to: Seq<char>) -> Seq<char>
    decreases s.len(),
{
    if s.len() == 0 {
        to
    } else {
        to + seq![s[0]] + interleave(s.skip(1), to)
    }
}

/// What `str::replace(s, from, to)` gives: every non-overlapping occurrence
/// of `from`, found from left to right, is replaced by `to`.
pub open spec fn replace_all(s: Seq<char>, from: Seq<char>, to: Seq<char>) -> Seq<char>
    decreases s.len(),
{
    if from.len() == 0 {
        interleave(s, to)
    } else if s.len() == 0 {
        s
    } else if starts_with(s, from) {
        to + replace_all(s.skip(from.len() as int), from, to)
    } else {
        seq![s[0]] + replace_all(s.skip(1), from, to)
    }
}

/// The pieces of `s` between the occurrences of the character `c`
/// (`str::split` with a character pattern).
pub open spec fn split_char(s: Seq<char>, c: char) -> Seq<Seq<char>>
    decreases s.len(),
{
    if s.len() == 0 {
        seq![Seq::<char>::empty()]
    } else {
        let rest = split_char(s.drop_last(), c);
        if s.last() == c {
            rest.push(Seq::<char>::empty())
        } else {
            rest.update(rest.len() - 1, rest.last().push(s.last()))
        }
    }
}

/// `parts` joined with `sep` between consecutive parts.
pub open spec fn join(parts: Seq<Seq<char>>, sep: Seq<char>) -> Seq<char>
    decreases parts.len(),
{
    if parts.len() == 0 {
        Seq::<char>::empty()
    } else if parts.len() == 1 {
        parts[0]
    } else {
        join(parts.drop_last(), sep) + sep + parts.last()
    }
}

/// `s` without the leading characters equal to `c`.
pub open spec fn trim_start_char(s: Seq<char>, c: char) -> Seq<char>
    decreases s.len(),
{
    if s.len() > 0 && s[0] == c {
        trim_start_char(s.skip(1), c)
    } else {
        s
    }
}

/// `s` without the trailing characters equal to `c`.
pub open spec fn trim_end_char(s: Seq<char>, c: char) -> Seq<char>
    decreases s.len(),
{
    if s.len() > 0 && s.last() == c {
        trim_end_char(s.drop_last(), c)
    } else {
        s
    }
}

/// `str::trim_matches` with a character pattern.
pub open spec fn trim_char(s: Seq<char>, c: char) -> Seq<char> {
    trim_end_char(trim_start_char(s, c), c)
}

/// `char::is_whitespace`: the Unicode `White_Space` property.
pub open spec fn is_whitespace(c: char) -> bool {
    let n = c as u32;
    ||| n == 0x20
    ||| (0x09 <= n && n <= 0x0d)
    ||| n == 0x85
    ||| n == 0xa0
    ||| n == 0x1680
    ||| (0x2000 <= n && n <= 0x200a)
    ||| n == 0x2028
    ||| n == 0x2029
    ||| n == 0x202f
    ||| n == 0x205f
    ||| n == 0x3000
}

pub open spec fn trim_start_ws(s: Seq<char>) -> Seq<char>
    decreases s.len(),
{
    if s.len() > 0 && is_whitespace(s[0]) {
        trim_start_ws(s.skip(1))
    } else {
        s
    }
}

pub open spec fn trim_end_ws(s: Seq<char>) -> Seq<char>
    decreases s.len(),
{
    if s.len() > 0 && is_whitespace(s.last()) {
        trim_end_ws(s.drop_last())
    } else {
        s
    }
}

/// `str::trim`: without leading and trailing whitespace.
pub open spec fn trim_ws(s: Seq<char>) -> Seq<char> {
    trim_end_ws(trim_start_ws(s))
}

/// The first position at or after `i` where `pat` occurs in `s`.
pub open spec fn find_from(s: Seq<char>, pat: Seq<char>, i: int) -> Option<int>
    decreases s.len() + 1 - i,
{
    if i < 0 || i + pat.len() > s.len() {
        None
    } else if occurs_at(s, pat, i) {
        Some(i)
    } else {
        find_from(s, pat, i + 1)
    }
}

/// `str::split_once`: the parts before and after the first occurrence of `pat`.
pub open spec fn split_once(s: Seq<char>, pat: Seq<char>) -> Option<(Seq<char>, Seq<char>)> {
    match find_from(s, pat, 0) {
        Some(i) => Some((s.take(i), s.skip(i + pat.len()))),
        None => None,
    }
}

// ---------------------------------------------------------------------------
// Conversions
// ---------------------------------------------------------------------------

/// `String::push` from std: appends one character at the end of the string.
#[verifier::external_body]
pub(crate) fn push_char(s: &mut String, c: char)
    ensures
        final(s)@ == old(s)@.push(c),
{
    s.push(c);
}

/// The characters of `s`, in order.
pub fn chars_of(s: &str) -> (v: Vec<char>)
    ensures
        v@ == s@,
{
    let mut v: Vec<char> = Vec::new();
    for c in it: s.chars()
        invariant
            v@ == it.history(),
    {
        v.push(c);
    }
    v
}

/// The string made of the characters of `v`, in order.
pub fn string_of(v: &Vec<char>) -> (s: String)
    ensures
        s@ == v@,
{
    let mut s = String::new();
    let mut i: usize = 0;
    while i < v.len()
        invariant
            i <= v.len(),
            s@ == v@.take(i as int),
        decreases v.len() - i,
    {
        push_char(&mut s, v[i]);
        assert(v@.take(i + 1) == v@.take(i as int).push(v@[i as int]));
        i = i + 1;
    }
    assert(v@.take(v.len() as int) == v@);
    s
}

/// `a` followed by `b`.
pub fn concat(a: &str, b: &str) -> (r: String)
    ensures
        r@ == a@ + b@,
{
    let mut r = a.to_owned();
    r.append(b);
    r
}

/// Appends the characters `v[from..]` to `out`.
fn extend_from(out: &mut Vec<char>, v: &Vec<char>, from: usize)
    requires
        from <= v.len(),
    ensures
        final(out)@ == old(out)@ + v@.skip(from as int),
{
    let mut i = from;
    while i < v.len()
        invariant
            from <= i <= v.len(),
            out@ == old(out)@ + v@.subrange(from as int, i as int),
        decreases v.len() - i,
    {
        out.push(v[i]);
        assert(v@.subrange(from as int, i + 1) == v@.subrange(from as int, i as int).push(
            v@[i as int],
        ));
        i = i + 1;
    }
    assert(v@.subrange(from as int, v.len() as int) == v@.skip(from as int));
}

// ---------------------------------------------------------------------------
// Searching
// ---------------------------------------------------------------------------

/// Whether `pat` occurs in `v` at position `i`.
pub fn occurs_at_exec(v: &Vec<char>, pat: &Vec<char>, i: usize) -> (b: bool)
    ensures
        b == occurs_at(v@, pat@, i as int),
{
    if pat.len() > v.len() || i > v.len() - pat.len() {
        return false;
    }
    let mut j: usize = 0;
    while j < pat.len()
        invariant
            i + pat.len() <= v.len(),
            j <= pat.len(),
            forall|k: int| 0 <= k < j ==> v@[i + k] == pat@[k],
        decreases pat.len() - j,
    {
        if v[i + j] != pat[j] {
            assert(v@.subrange(i as int, i + pat.len())[j as int] != pat@[j as int]);
            return false;
        }
        j = j + 1;
    }
    assert(v@.subrange(i as int, i + pat.len()) =~= pat@);
    true
}


/// `pat` occurs at `i` in `s` exactly when `s` from `i` on starts with `pat`.
proof fn lemma_occurs_at_skip(s: Seq<char>, pat: Seq<char>, i: int)
    requires
        0 <= i <= s.len(),
    ensures
        occurs_at(s, pat, i) == starts_with(s.skip(i), pat),
{
    if i + pat.len() <= s.len() {
        assert(s.subrange(i, i + pat.len()) =~= s.skip(i).subrange(0, pat.len() as int));
    }
}

// ---------------------------------------------------------------------------
// Replacing
// ---------------------------------------------------------------------------

/// `str::replace`: every non-overlapping occurrence of `from` in `s`, found
/// from left to right, replaced by `to`.
pub fn replace(s: &str, from: &str, to: &str) -> (r: String)
    ensures
        r@ == replace_all(s@, from@, to@),
{
    let sv = chars_of(s);
    let fv = chars_of(from);
    let tv = chars_of(to);
    let mut out: Vec<char> = Vec::new();
    let mut i: usize = 0;
    assert(sv@.skip(0) == sv@);
    if fv.len() == 0 {
        assert(out@ + interleave(sv@, tv@) =~= interleave(sv@, tv@));
        while i < sv.len()
            invariant
                fv@.len() == 0,
                i <= sv.len(),
                out@ + interleave(sv@.skip(i as int), tv@) == interleave(sv@, tv@),
            decreases sv.len() - i,
        {
            let ghost before = out@;
            extend_from(&mut out, &tv, 0);
            out.push(sv[i]);
            assert(tv@.skip(0) == tv@);
            assert(sv@.skip(i as int).skip(1) == sv@.skip(i + 1));
            assert(before + interleave(sv@.skip(i as int), tv@) == out@ + interleave(
                sv@.skip(i + 1),
                tv@,
            ));
            i = i + 1;
        }
        assert(tv@.skip(0) == tv@);
        extend_from(&mut out, &tv, 0);
    } else {
        assert(out@ + replace_all(sv@, fv@, tv@) =~= replace_all(sv@, fv@, tv@));
        while i < sv.len()
            invariant
                fv@.len() > 0,
                i <= sv.len(),
                out@ + replace_all(sv@.skip(i as int), fv@, tv@) == replace_all(sv@, fv@, tv@),
            decreases sv.len() - i,
        {
            let ghost before = out@;
            proof {
                lemma_occurs_at_skip(sv@, fv@, i as int);
            }
            if occurs_at_exec(&sv, &fv, i) {
                extend_from(&mut out, &tv, 0);
                assert(tv@.skip(0) == tv@);
                assert(sv@.skip(i as int).skip(fv@.len() as int) == sv@.skip(i + fv@.len()));
                i = i + fv.len();
            } else {
                out.push(sv[i]);
                assert(sv@.skip(i as int).skip(1) == sv@.skip(i + 1));
                i = i + 1;
            }
        }
    }
    assert(sv@.skip(sv@.len() as int) =~= Seq::<char>::empty());
    assert(sv@.skip(0) == sv@);
    string_of(&out)
}


// ---------------------------------------------------------------------------
// Splitting, joining and trimming
// ---------------------------------------------------------------------------

/// The character views of a sequence of strings.
pub open spec fn views(v: Seq<String>) -> Seq<Seq<char>> {
    v.map_values(|x: String| x@)
}

/// The characters `v[a..b]` as a string.
pub fn substring(v: &Vec<char>, a: usize, b: usize) -> (r: String)
    requires
        a <= b <= v.len(),
    ensures
        r@ == v@.subrange(a as int, b as int),
{
    let mut out: Vec<char> = Vec::new();
    let mut i = a;
    while i < b
        invariant
            a <= i <= b <= v.len(),
            out@ == v@.subrange(a as int, i as int),
        decreases b - i,
    {
        out.push(v[i]);
        assert(v@.subrange(a as int, i + 1) == v@.subrange(a as int, i as int).push(v@[i as int]));
        i = i + 1;
    }
    string_of(&out)
}

/// `str::split` with a character pattern.
pub fn split(s: &str, c: char) -> (r: Vec<String>)
    ensures
        views(r@) == split_char(s@, c),
{
    let sv = chars_of(s);
    let mut pieces: Vec<String> = Vec::new();
    let mut cur: Vec<char> = Vec::new();
    let mut i: usize = 0;
    assert(sv@.take(0) =~= Seq::<char>::empty());
    assert(views(pieces@).push(cur@) =~= split_char(sv@.take(0), c));
    while i < sv.len()
        invariant
            i <= sv.len(),
            views(pieces@).push(cur@) == split_char(sv@.take(i as int), c),
        decreases sv.len() - i,
    {
        let ghost before = views(pieces@).push(cur@);
        assert(sv@.take(i + 1).drop_last() == sv@.take(i as int));
        if sv[i] == c {
            let piece = string_of(&cur);
            pieces.push(piece);
            cur = Vec::new();
            assert(views(pieces@).push(cur@) =~= before.push(Seq::<char>::empty()));
        } else {
            cur.push(sv[i]);
            assert(views(pieces@).push(cur@) =~= before.update(
                before.len() - 1,
                before.last().push(sv@[i as int]),
            ));
        }
        i = i + 1;
    }
    let last = string_of(&cur);
    pieces.push(last);
    assert(sv@.take(sv@.len() as int) == sv@);
    assert(views(pieces@) =~= split_char(sv@, c));
    pieces
}

/// `parts` joined with `sep` between consecutive parts.
pub fn join_strings(parts: &Vec<String>, sep: &str) -> (r: String)
    ensures
        r@ == join(views(parts@), sep@),
{
    let mut r = String::new();
    let mut i: usize = 0;
    while i < parts.len()
        invariant
            i <= parts.len(),
            r@ == join(views(parts@).take(i as int), sep@),
        decreases parts.len() - i,
    {
        assert(views(parts@).take(i + 1).drop_last() =~= views(parts@).take(i as int));
        if i == 0 {
            r.append(parts[i].as_str());
            assert(r@ =~= join(views(parts@).take(1), sep@));
        } else {
            r.append(sep);
            r.append(parts[i].as_str());
        }
        i = i + 1;
    }
    assert(views(parts@).take(parts.len() as int) == views(parts@));
    r
}

proof fn lemma_trim_start_char_skip(s: Seq<char>, c: char, i: int)
    requires
        0 <= i < s.len(),
        s[i] == c,
    ensures
        trim_start_char(s.skip(i), c) == trim_start_char(s.skip(i + 1), c),
{
    assert(s.skip(i).skip(1) =~= s.skip(i + 1));
}

/// `str::trim_matches` with a character pattern.
pub fn trim_matches(s: &str, c: char) -> (r: String)
    ensures
        r@ == trim_char(s@, c),
{
    let v = chars_of(s);
    let mut i: usize = 0;
    assert(v@.skip(0) == v@);
    while i < v.len() && v[i] == c
        invariant
            i <= v.len(),
            trim_start_char(v@, c) == trim_start_char(v@.skip(i as int), c),
        decreases v.len() - i,
    {
        proof {
            lemma_trim_start_char_skip(v@, c, i as int);
        }
        i = i + 1;
    }
    let ghost start = v@.skip(i as int);
    assert(trim_start_char(v@, c) == start);
    let mut j: usize = v.len();
    assert(start.take(start.len() as int) == start);
    while j > i && v[j - 1] == c
        invariant
            i <= j <= v.len(),
            start == v@.skip(i as int),
            trim_end_char(start, c) == trim_end_char(v@.subrange(i as int, j as int), c),
        decreases j,
    {
        proof {
            let t = v@.subrange(i as int, j as int);
            assert(t.drop_last() =~= v@.subrange(i as int, j - 1));
        }
        j = j - 1;
    }
    substring(&v, i, j)
}

/// `str::trim_start_matches` with a character pattern.
pub fn trim_start_matches(s: &str, c: char) -> (r: String)
    ensures
        r@ == trim_start_char(s@, c),
{
    let v = chars_of(s);
    let mut i: usize = 0;
    assert(v@.skip(0) == v@);
    while i < v.len() && v[i] == c
        invariant
            i <= v.len(),
            trim_start_char(v@, c) == trim_start_char(v@.skip(i as int), c),
        decreases v.len() - i,
    {
        proof {
            lemma_trim_start_char_skip(v@, c, i as int);
        }
        i = i + 1;
    }
    assert(v@.subrange(i as int, v@.len() as int) =~= v@.skip(i as int));
    substring(&v, i, v.len())
}

/// `char::is_whitespace`.
pub fn is_whitespace_exec(c: char) -> (b: bool)
    ensures
        b == is_whitespace(c),
{
    let n = c as u32;
    n == 0x20 || (0x09 <= n && n <= 0x0d) || n == 0x85 || n == 0xa0 || n == 0x1680 || (0x2000
        <= n && n <= 0x200a) || n == 0x2028 || n == 0x2029 || n == 0x202f || n == 0x205f || n
        == 0x3000
}

/// `str::trim`.
pub fn trim(s: &str) -> (r: String)
    ensures
        r@ == trim_ws(s@),
{
    let v = chars_of(s);
    let mut i: usize = 0;
    assert(v@.skip(0) == v@);
    while i < v.len() && is_whitespace_exec(v[i])
        invariant
            i <= v.len(),
            trim_start_ws(v@) == trim_start_ws(v@.skip(i as int)),
        decreases v.len() - i,
    {
        assert(v@.skip(i as int).skip(1) =~= v@.skip(i + 1));
        i = i + 1;
    }
    let ghost start = v@.skip(i as int);
    let mut j: usize = v.len();
    assert(start.take(start.len() as int) == start);
    while j > i && is_whitespace_exec(v[j - 1])
        invariant
            i <= j <= v.len(),
            start == v@.skip(i as int),
            trim_end_ws(start) == trim_end_ws(v@.subrange(i as int, j as int)),
        decreases j,
    {
        proof {
            let t = v@.subrange(i as int, j as int);
            assert(t.drop_last() =~= v@.subrange(i as int, j - 1));
        }
        j = j - 1;
    }
    substring(&v, i, j)
}

/// The first position at or after `from` where `pat` occurs in `v`.
pub fn find_exec(v: &Vec<char>, pat: &Vec<char>, from: usize) -> (r: Option<usize>)
    ensures
        r matches Some(i) ==> find_from(v@, pat@, from as int) == Some(i as int) && occurs_at(
            v@,
            pat@,
            i as int,
        ),
        r is None ==> find_from(v@, pat@, from as int) is None,
{
    if pat.len() > v.len() {
        return None;
    }
    let mut i = from;
    while i <= v.len() - pat.len()
        invariant
            pat.len() <= v.len(),
            from <= i,
            find_from(v@, pat@, from as int) == find_from(v@, pat@, i as int),
        decreases v.len() + 1 - i,
    {
        if occurs_at_exec(v, pat, i) {
            return Some(i);
        }
        if i == v.len() - pat.len() {
            proof {
                reveal_with_fuel(find_from, 2);
            }
            return None;
        }
        i = i + 1;
    }
    None
}

/// `str::split_once`.
pub fn split_once_exec(s: &str, pat: &str) -> (r: Option<(String, String)>)
    ensures
        r matches Some((a, b)) ==> split_once(s@, pat@) == Some((a@, b@)),
        r is None ==> split_once(s@, pat@) is None,
{
    let v = chars_of(s);
    let p = chars_of(pat);
    match find_exec(&v, &p, 0) {
        Some(i) => {
            assert(occurs_at(v@, p@, i as int));
            let plen = p.len();
            assert(i + plen <= v.len());
            let a = substring(&v, 0, i);
            let b = substring(&v, i + plen, v.len());
            assert(v@.subrange(0, i as int) == v@.take(i as int));
            assert(v@.subrange(i + p@.len(), v@.len() as int) == v@.skip(i + p@.len()));
            Some((a, b))
        },
        None => None,
    }
}

/// `str::starts_with`.
pub fn starts_with_exec(s: &str, pat: &str) -> (b: bool)
    ensures
        b == starts_with(s@, pat@),
{
    let v = chars_of(s);
    let p = chars_of(pat);
    occurs_at_exec(&v, &p, 0)
}

/// `str::ends_with`.
pub fn ends_with_exec(s: &str, pat: &str) -> (b: bool)
    ensures
        b == ends_with(s@, pat@),
{
    let v = chars_of(s);
    let p = chars_of(pat);
    if p.len() > v.len() {
        false
    } else {
        occurs_at_exec(&v, &p, v.len() - p.len())
    }
}

/// `str::contains`.
pub fn contains_exec(s: &str, pat: &str) -> (b: bool)
    ensures
        b == contains(s@, pat@),
{
    let v = chars_of(s);
    let p = chars_of(pat);
    find_exec(&v, &p, 0).is_some()
}


/// A line without the carriage return that ended it.
pub open spec fn strip_cr(l: Seq<char>) -> Seq<char> {
    if l.len() > 0 && l.last() == '\r' {
        l.drop_last()
    } else {
        l
    }
}

/// `str::lines`: the pieces between `\n`, each without a `\r` just before
/// its `\n`; a last piece after the final `\n` is left out when it is empty.
pub open spec fn lines(s: Seq<char>) -> Seq<Seq<char>> {
    let parts = split_char(s, '\n');
    let init = parts.drop_last().map_values(|l: Seq<char>| strip_cr(l));
    if parts.last().len() == 0 {
        init
    } else {
        init.push(parts.last())
    }
}

/// No piece of `split_char(s, c)` holds `c`.
pub proof fn lemma_split_char_pieces(s: Seq<char>, c: char)
    ensures
        forall|i: int| 0 <= i < split_char(s, c).len() ==> !(#[trigger] split_char(s, c)[i]).contains(c),
        split_char(s, c).len() >= 1,
    decreases s.len(),
{
    if s.len() > 0 {
        lemma_split_char_pieces(s.drop_last(), c);
        let rest = split_char(s.drop_last(), c);
        if s.last() != c {
            let l = rest.last().push(s.last());
            assert forall|k: int| 0 <= k < l.len() implies l[k] != c by {
                if k < rest.last().len() {
                    assert(!rest.last().contains(c));
                    assert(rest.last()[k] != c);
                }
            }
            assert forall|i: int| 0 <= i < split_char(s, c).len() implies !(#[trigger] split_char(
                s,
                c,
            )[i]).contains(c) by {
                if i < rest.len() - 1 {
                    assert(split_char(s, c)[i] == rest[i]);
                }
            }
        } else {
            assert forall|i: int| 0 <= i < split_char(s, c).len() implies !(#[trigger] split_char(
                s,
                c,
            )[i]).contains(c) by {
                if i < rest.len() {
                    assert(split_char(s, c)[i] == rest[i]);
                }
            }
        }
    }
}

pub proof fn lemma_split_char_nonempty(s: Seq<char>, c: char)
    ensures
        split_char(s, c).len() >= 1,
    decreases s.len(),
{
    if s.len() > 0 {
        lemma_split_char_nonempty(s.drop_last(), c);
    }
}

/// A string without `c` is one piece.
pub proof fn lemma_split_char_without(s: Seq<char>, c: char)
    requires
        !s.contains(c),
    ensures
        split_char(s, c) == seq![s],
    decreases s.len(),
{
    if s.len() > 0 {
        assert(!s.drop_last().contains(c)) by {
            if s.drop_last().contains(c) {
                let k = choose|k: int| 0 <= k < s.drop_last().len() && s.drop_last()[k] == c;
                assert(s[k] == c);
            }
        }
        lemma_split_char_without(s.drop_last(), c);
        assert(s.last() != c) by {
            assert(s[s.len() - 1] == s.last());
        }
        assert(s.drop_last().push(s.last()) =~= s);
        let rest = split_char(s.drop_last(), c);
        assert(rest.update(rest.len() - 1, rest.last().push(s.last())) =~= seq![s]);
    } else {
        assert(s =~= Seq::<char>::empty());
    }
}

/// Splitting at a separator that joins two strings splits each of them.
pub proof fn lemma_split_char_concat(a: Seq<char>, b: Seq<char>, c: char)
    ensures
        split_char(a + seq![c] + b, c) == split_char(a, c) + split_char(b, c),
    decreases b.len(),
{
    let s = a + seq![c] + b;
    if b.len() == 0 {
        assert(s.drop_last() =~= a);
        assert(s.last() == c);
        assert(split_char(b, c) == seq![Seq::<char>::empty()]);
        assert(split_char(a, c).push(Seq::<char>::empty()) =~= split_char(a, c) + seq![
            Seq::<char>::empty(),
        ]);
    } else {
        lemma_split_char_concat(a, b.drop_last(), c);
        lemma_split_char_nonempty(b.drop_last(), c);
        lemma_split_char_nonempty(a, c);
        assert(s.drop_last() =~= a + seq![c] + b.drop_last());
        assert(s.last() == b.last());
        let ra = split_char(a, c);
        let rb = split_char(b.drop_last(), c);
        let rest = split_char(s.drop_last(), c);
        assert(rest == ra + rb);
        if b.last() == c {
            assert(rest.push(Seq::<char>::empty()) =~= ra + rb.push(Seq::<char>::empty()));
        } else {
            assert(rest.last() == rb.last());
            assert(rest.update(rest.len() - 1, rest.last().push(s.last())) =~= ra + rb.update(
                rb.len() - 1,
                rb.last().push(b.last()),
            ));
        }
    }
}

/// Joining pieces without the separator and splitting again gives them back.
pub proof fn lemma_split_char_join(p: Seq<Seq<char>>, c: char)
    requires
        p.len() >= 1,
        forall|i: int| 0 <= i < p.len() ==> !(#[trigger] p[i]).contains(c),
    ensures
        split_char(join(p, seq![c]), c) == p,
    decreases p.len(),
{
    if p.len() == 1 {
        lemma_split_char_without(p[0], c);
        assert(seq![p[0]] =~= p);
    } else {
        let init = p.drop_last();
        assert forall|i: int| 0 <= i < init.len() implies !(#[trigger] init[i]).contains(c) by {
            assert(init[i] == p[i]);
        }
        lemma_split_char_join(init, c);
        assert(!p.last().contains(c)) by {
            assert(p[p.len() - 1] == p.last());
        }
        lemma_split_char_without(p.last(), c);
        lemma_split_char_concat(join(init, seq![c]), p.last(), c);
        assert(init + seq![p.last()] =~= p);
    }
}

/// `find_from` from `i` finds the first occurrence at or after `i`.
pub proof fn lemma_find_from_first(s: Seq<char>, pat: Seq<char>, i: int, j: int)
    requires
        0 <= i <= j,
        occurs_at(s, pat, j),
        forall|k: int| i <= k < j ==> !occurs_at(s, pat, k),
    ensures
        find_from(s, pat, i) == Some(j),
    decreases j - i,
{
    if i < j {
        lemma_find_from_first(s, pat, i + 1, j);
    }
}

/// Where `find_from` finds nothing, `pat` occurs nowhere from `i` on.
pub proof fn lemma_find_from_none(s: Seq<char>, pat: Seq<char>, i: int, k: int)
    requires
        0 <= i <= k,
        find_from(s, pat, i) is None,
    ensures
        !occurs_at(s, pat, k),
    decreases k - i,
{
    if i < k && i + pat.len() <= s.len() {
        lemma_find_from_none(s, pat, i + 1, k);
    }
}

/// `split_once` of `k + sep + v` gives `(k, v)` back when `sep` starts
/// nowhere inside `k`.
pub proof fn lemma_split_once_pair(k: Seq<char>, sep: Seq<char>, v: Seq<char>)
    requires
        forall|i: int| 0 <= i < k.len() ==> !occurs_at(k + sep + v, sep, i),
    ensures
        split_once(k + sep + v, sep) == Some((k, v)),
{
    let s = k + sep + v;
    assert(s.subrange(k.len() as int, (k.len() + sep.len()) as int) =~= sep);
    lemma_find_from_first(s, sep, 0, k.len() as int);
    assert(s.take(k.len() as int) =~= k);
    assert(s.skip((k.len() + sep.len()) as int) =~= v);
}

/// A text is not empty.
pub open spec fn nonempty_comp() -> spec_fn(Seq<char>) -> bool {
    |c: Seq<char>| c.len() > 0
}

/// `str::lines`.
pub fn lines_exec(s: &str) -> (r: Vec<String>)
    ensures
        views(r@) == lines(s@),
{
    let parts = split(s, '\n');
    proof {
        lemma_split_char_nonempty(s@, '\n');
    }
    let mut out: Vec<String> = Vec::new();
    let n = parts.len() - 1;
    let mut i: usize = 0;
    let ghost ps = views(parts@);
    while i < n
        invariant
            n + 1 == parts.len(),
            ps == views(parts@),
            i <= n,
            views(out@) == ps.take(i as int).map_values(|l: Seq<char>| strip_cr(l)),
        decreases n - i,
    {
        let p = &parts[i];
        let v = chars_of(p.as_str());
        let line = if v.len() > 0 && v[v.len() - 1] == '\r' {
            substring(&v, 0, v.len() - 1)
        } else {
            substring(&v, 0, v.len())
        };
        assert(v@.subrange(0, v.len() - 1) == v@.drop_last());
        assert(v@.subrange(0, v.len() as int) == v@);
        assert(line@ == strip_cr(ps[i as int]));
        let ghost prev = views(out@);
        out.push(line);
        assert(views(out@) =~= prev.push(line@));
        assert(ps.take(i + 1) == ps.take(i as int).push(ps[i as int]));
        assert(ps.take(i + 1).map_values(|l: Seq<char>| strip_cr(l)) =~= ps.take(
            i as int,
        ).map_values(|l: Seq<char>| strip_cr(l)).push(strip_cr(ps[i as int])));
        i = i + 1;
    }
    assert(ps.take(n as int) =~= ps.drop_last());
    let last = &parts[n];
    if !last.as_str().is_empty() {
        let l = last.clone();
        out.push(l);
        assert(views(out@) =~= lines(s@));
    } else {
        assert(ps.last() =~= Seq::<char>::empty());
    }
    out
}

/// Whether `a` and `b` hold the same characters.
pub fn str_eq(a: &str, b: &str) -> (r: bool)
    ensures
        r == (a@ == b@),
{
    let x = a.to_owned();
    let y = b.to_owned();
    x == y
}

} // verus!
