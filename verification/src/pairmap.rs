//! Maps from names to values (query parameters, headers, variables), kept in
//! the order in which their keys were first inserted.

use vstd::prelude::*;

use crate::error::Error;
use crate::text::{
    chars_of, nonempty_comp, lemma_split_char_concat, lemma_split_char_without, occurs_at, lines, lines_exec, split, split_char, split_once, split_once_exec, views,
};

verus! {

/// The entries of a map, as character sequences.
pub type Entries = Seq<(Seq<char>, Seq<char>)>;

/// No key occurs twice.
pub open spec fn keys_unique(e: Entries) -> bool {
    forall|i: int, j: int| 0 <= i < e.len() && 0 <= j < e.len() && i != j ==> #[trigger] e[i].0 != #[trigger] e[j].0
}

/// The first position at or after `i` whose key is `k`.
pub open spec fn key_index_from(e: Entries, k: Seq<char>, i: int) -> Option<int>
    decreases e.len() - i,
{
    if i < 0 || i >= e.len() {
        None
    } else if e[i].0 == k {
        Some(i)
    } else {
        key_index_from(e, k, i + 1)
    }
}

/// The position of the key `k`.
pub open spec fn key_index(e: Entries, k: Seq<char>) -> Option<int> {
    key_index_from(e, k, 0)
}

/// The value stored under `k`.
pub open spec fn pm_get(e: Entries, k: Seq<char>) -> Option<Seq<char>> {
    match key_index(e, k) {
        Some(i) => Some(e[i].1),
        None => None,
    }
}

/// `k` set to `v`: in place when `k` is present, at the end otherwise.
pub open spec fn pm_insert(e: Entries, k: Seq<char>, v: Seq<char>) -> Entries {
    match key_index(e, k) {
        Some(i) => e.update(i, (k, v)),
        None => e.push((k, v)),
    }
}

/// `k` and its value taken out.
pub open spec fn pm_remove(e: Entries, k: Seq<char>) -> Entries {
    match key_index(e, k) {
        Some(i) => e.remove(i),
        None => e,
    }
}

/// `key_index_from` finds `k` at `i` exactly when `e[i]` is the first entry from
/// `from` on with key `k`.
pub proof fn lemma_key_index_from(e: Entries, k: Seq<char>, from: int)
    requires
        0 <= from,
    ensures
        key_index_from(e, k, from) matches Some(i) ==> from <= i < e.len() && e[i].0 == k && forall|
            j: int,
        | from <= j < i ==> e[j].0 != k,
        key_index_from(e, k, from) is None ==> forall|j: int| from <= j < e.len() ==> e[j].0 != k,
    decreases e.len() - from,
{
    if from < e.len() && e[from].0 != k {
        lemma_key_index_from(e, k, from + 1);
    }
}

/// With unique keys, the key of any entry is found at that entry.
pub proof fn lemma_key_index_unique(e: Entries, i: int)
    requires
        keys_unique(e),
        0 <= i < e.len(),
    ensures
        key_index(e, e[i].0) == Some(i),
{
    lemma_key_index_from(e, e[i].0, 0);
    if let Some(j) = key_index(e, e[i].0) {
        if j != i {
            assert(e[j].0 == e[i].0);
        }
    }
}

/// The value found under a key is the one of the entry with that key.
pub proof fn lemma_pm_get_entry(e: Entries, i: int)
    requires
        keys_unique(e),
        0 <= i < e.len(),
    ensures
        pm_get(e, e[i].0) == Some(e[i].1),
{
    lemma_key_index_unique(e, i);
}

/// No value is found under a key that no entry has.
pub proof fn lemma_pm_get_absent(e: Entries, k: Seq<char>)
    requires
        forall|i: int| 0 <= i < e.len() ==> (#[trigger] e[i]).0 != k,
    ensures
        pm_get(e, k) is None,
{
    lemma_key_index_from(e, k, 0);
}

/// After `k` is set to `v`, `k` gives `v` and every other key what it gave
/// before; keys stay unique.
pub proof fn law_insert_then_get(e: Entries, k: Seq<char>, v: Seq<char>, k2: Seq<char>)
    requires
        keys_unique(e),
    ensures
        keys_unique(pm_insert(e, k, v)),
        pm_get(pm_insert(e, k, v), k) == Some(v),
        k2 != k ==> pm_get(pm_insert(e, k, v), k2) == pm_get(e, k2),
{
    lemma_key_index_from(e, k, 0);
    lemma_key_index_from(e, k2, 0);
    let r = pm_insert(e, k, v);
    match key_index(e, k) {
        Some(i) => {
            assert forall|a: int, b: int|
                0 <= a < r.len() && 0 <= b < r.len() && a != b implies #[trigger] r[a].0
                != #[trigger] r[b].0 by {
                if a != i && b != i {
                    assert(e[a].0 != e[b].0);
                } else if a == i {
                    assert(e[b].0 != e[i].0);
                } else {
                    assert(e[a].0 != e[i].0);
                }
            }
            lemma_pm_get_entry(r, i);
            if k2 != k {
                match key_index(e, k2) {
                    Some(j) => {
                        assert(r[j] == e[j]);
                        lemma_pm_get_entry(r, j);
                    },
                    None => {
                        assert forall|j: int| 0 <= j < r.len() implies (#[trigger] r[j]).0 != k2 by {
                            if j != i {
                                assert(r[j] == e[j]);
                            }
                        }
                        lemma_pm_get_absent(r, k2);
                    },
                }
            }
        },
        None => {
            assert forall|a: int, b: int|
                0 <= a < r.len() && 0 <= b < r.len() && a != b implies #[trigger] r[a].0
                != #[trigger] r[b].0 by {
                if a < e.len() && b < e.len() {
                    assert(e[a].0 != e[b].0);
                }
            }
            lemma_pm_get_entry(r, e.len() as int);
            if k2 != k {
                match key_index(e, k2) {
                    Some(j) => {
                        assert(r[j] == e[j]);
                        lemma_pm_get_entry(r, j);
                    },
                    None => {
                        assert forall|j: int| 0 <= j < r.len() implies (#[trigger] r[j]).0 != k2 by {
                            if j < e.len() {
                                assert(r[j] == e[j]);
                            }
                        }
                        lemma_pm_get_absent(r, k2);
                    },
                }
            }
        },
    }
}

/// After `k` is removed, `k` gives nothing and every other key what it gave
/// before; keys stay unique.
pub proof fn law_remove_then_get(e: Entries, k: Seq<char>, k2: Seq<char>)
    requires
        keys_unique(e),
    ensures
        keys_unique(pm_remove(e, k)),
        pm_get(pm_remove(e, k), k) is None,
        k2 != k ==> pm_get(pm_remove(e, k), k2) == pm_get(e, k2),
{
    lemma_key_index_from(e, k, 0);
    lemma_key_index_from(e, k2, 0);
    let r = pm_remove(e, k);
    match key_index(e, k) {
        Some(i) => {
            assert forall|a: int, b: int|
                0 <= a < r.len() && 0 <= b < r.len() && a != b implies #[trigger] r[a].0
                != #[trigger] r[b].0 by {
                let a2 = if a < i { a } else { a + 1 };
                let b2 = if b < i { b } else { b + 1 };
                assert(r[a] == e[a2] && r[b] == e[b2]);
                assert(e[a2].0 != e[b2].0);
            }
            assert forall|j: int| 0 <= j < r.len() implies (#[trigger] r[j]).0 != k by {
                let j2 = if j < i { j } else { j + 1 };
                assert(r[j] == e[j2]);
                assert(e[j2].0 != e[i].0);
            }
            lemma_pm_get_absent(r, k);
            if k2 != k {
                match key_index(e, k2) {
                    Some(j) => {
                        let j3 = if j < i { j } else { j - 1 };
                        assert(r[j3] == e[j]);
                        lemma_pm_get_entry(r, j3);
                    },
                    None => {
                        assert forall|j: int| 0 <= j < r.len() implies (#[trigger] r[j]).0 != k2 by {
                            let j2 = if j < i { j } else { j + 1 };
                            assert(r[j] == e[j2]);
                        }
                        lemma_pm_get_absent(r, k2);
                    },
                }
            }
        },
        None => {},
    }
}

/// A map from names to values whose keys are unique.
pub struct PairMap {
    entries: Vec<(String, String)>,
}

impl View for PairMap {
    type V = Entries;

    closed spec fn view(&self) -> Entries {
        self.entries@.map_values(|e: (String, String)| (e.0@, e.1@))
    }
}

impl PairMap {
    #[verifier::type_invariant]
    spec fn inv(self) -> bool {
        keys_unique(self@)
    }

    /// The keys are unique.
    pub fn check_unique(&self)
        ensures
            keys_unique(self@),
    {
        proof {
            use_type_invariant(self);
        }
    }

    /// An empty map.
    pub fn new() -> (m: Self)
        ensures
            m@ == Seq::<(Seq<char>, Seq<char>)>::empty(),
    {
        let m = PairMap { entries: Vec::new() };
        assert(m@ =~= Seq::<(Seq<char>, Seq<char>)>::empty());
        m
    }

    /// Where the key `k` stands.
    fn find(&self, k: &str) -> (r: Option<usize>)
        ensures
            r matches Some(i) ==> key_index(self@, k@) == Some(i as int) && i < self.entries@.len()
                && self@[i as int] == (self.entries@[i as int].0@, self.entries@[i as int].1@),
            r is None ==> key_index(self@, k@) is None,
            self@.len() == self.entries@.len(),
    {
        let key = k.to_owned();
        let mut i: usize = 0;
        while i < self.entries.len()
            invariant
                i <= self.entries.len(),
                key@ == k@,
                self@.len() == self.entries@.len(),
                key_index(self@, k@) == key_index_from(self@, k@, i as int),
            decreases self.entries.len() - i,
        {
            assert(self@[i as int].0 == self.entries@[i as int].0@);
            if self.entries[i].0 == key {
                return Some(i);
            }
            i = i + 1;
        }
        None
    }

    /// The value stored under `k`.
    pub fn get(&self, k: &str) -> (r: Option<&String>)
        ensures
            r matches Some(v) ==> pm_get(self@, k@) == Some(v@),
            r is None ==> pm_get(self@, k@) is None,
    {
        match self.find(k) {
            Some(i) => {
                assert(self@[i as int].1 == self.entries@[i as int].1@);
                Some(&self.entries[i].1)
            },
            None => None,
        }
    }

    /// Whether a value is stored under `k`.
    pub fn contains_key(&self, k: &str) -> (b: bool)
        ensures
            b == (key_index(self@, k@) is Some),
    {
        self.find(k).is_some()
    }

    /// Stores `v` under `k`, and gives back the value it replaces.
    pub fn insert(&mut self, k: String, v: String) -> (r: Option<String>)
        ensures
            final(self)@ == pm_insert(old(self)@, k@, v@),
            r matches Some(o) ==> pm_get(old(self)@, k@) == Some(o@),
            r is None ==> pm_get(old(self)@, k@) is None,
    {
        proof {
            use_type_invariant(&*self);
        }
        let ghost e = self@;
        match self.find(k.as_str()) {
            Some(i) => {
                assert(e[i as int].1 == self.entries@[i as int].1@);
                let old_v = self.entries[i].1.clone();
                proof {
                    lemma_key_index_from(e, k@, 0);
                }
                let ghost ne = e.update(i as int, (k@, v@));
                assert forall|a: int, b: int|
                    0 <= a < ne.len() && 0 <= b < ne.len() && a != b implies #[trigger] ne[a].0
                    != #[trigger] ne[b].0 by {
                    if a != i && b != i {
                        assert(e[a].0 != e[b].0);
                    } else if a == i {
                        assert(e[b].0 != e[i as int].0);
                    } else {
                        assert(e[a].0 != e[i as int].0);
                    }
                }
                let mut es: Vec<(String, String)> = Vec::new();
                std::mem::swap(&mut es, &mut self.entries);
                es.set(i, (k, v));
                assert(es@.map_values(|e: (String, String)| (e.0@, e.1@)) =~= ne);
                self.entries = es;
                assert(self@ =~= ne);
                Some(old_v)
            },
            None => {
                proof {
                    lemma_key_index_from(e, k@, 0);
                }
                let ghost ne = e.push((k@, v@));
                assert forall|a: int, b: int|
                    0 <= a < ne.len() && 0 <= b < ne.len() && a != b implies #[trigger] ne[a].0
                    != #[trigger] ne[b].0 by {
                    if a < e.len() && b < e.len() {
                        assert(e[a].0 != e[b].0);
                    }
                }
                let mut es: Vec<(String, String)> = Vec::new();
                std::mem::swap(&mut es, &mut self.entries);
                es.push((k, v));
                assert(es@.map_values(|e: (String, String)| (e.0@, e.1@)) =~= ne);
                self.entries = es;
                assert(self@ =~= ne);
                None
            },
        }
    }

    /// Takes the value stored under `k` out of the map.
    pub fn remove(&mut self, k: &str) -> (r: Option<String>)
        ensures
            final(self)@ == pm_remove(old(self)@, k@),
            r matches Some(o) ==> pm_get(old(self)@, k@) == Some(o@),
            r is None ==> pm_get(old(self)@, k@) is None,
    {
        proof {
            use_type_invariant(&*self);
        }
        let ghost e = self@;
        match self.find(k) {
            Some(i) => {
                let ghost ne = e.remove(i as int);
                assert forall|a: int, b: int|
                    0 <= a < ne.len() && 0 <= b < ne.len() && a != b implies #[trigger] ne[a].0
                    != #[trigger] ne[b].0 by {
                    let a2 = if a < i { a } else { a + 1 };
                    let b2 = if b < i { b } else { b + 1 };
                    assert(ne[a] == e[a2] && ne[b] == e[b2]);
                    assert(e[a2].0 != e[b2].0);
                }
                let mut es: Vec<(String, String)> = Vec::new();
                std::mem::swap(&mut es, &mut self.entries);
                let (_, val) = es.remove(i);
                assert(es@.map_values(|e: (String, String)| (e.0@, e.1@)) =~= ne);
                self.entries = es;
                assert(self@ =~= ne);
                Some(val)
            },
            None => None,
        }
    }

    /// A copy of the map.
    pub fn clone_map(&self) -> (r: PairMap)
        ensures
            r@ == self@,
    {
        proof {
            use_type_invariant(self);
        }
        let mut es: Vec<(String, String)> = Vec::new();
        let mut i: usize = 0;
        while i < self.entries.len()
            invariant
                i <= self.entries.len(),
                self@.len() == self.entries@.len(),
                es@.map_values(|e: (String, String)| (e.0@, e.1@)) == self@.take(i as int),
            decreases self.entries.len() - i,
        {
            assert(self@[i as int] == (self.entries@[i as int].0@, self.entries@[i as int].1@));
            let k = self.entries[i].0.clone();
            let v = self.entries[i].1.clone();
            let ghost prev = es@.map_values(|e: (String, String)| (e.0@, e.1@));
            es.push((k, v));
            assert(es@.map_values(|e: (String, String)| (e.0@, e.1@)) =~= prev.push((k@, v@)));
            assert(es@.map_values(|e: (String, String)| (e.0@, e.1@)) =~= self@.take(i + 1));
            i = i + 1;
        }
        assert(self@.take(self@.len() as int) =~= self@);
        PairMap { entries: es }
    }

    /// The number of entries.
    pub fn len(&self) -> (n: usize)
        ensures
            n == self@.len(),
    {
        self.entries.len()
    }

    /// Whether the map has no entry.
    pub fn is_empty(&self) -> (b: bool)
        ensures
            b == (self@.len() == 0),
    {
        self.entries.len() == 0
    }

    /// The entries, in order.
    pub fn entries(&self) -> (r: &Vec<(String, String)>)
        ensures
            r@.map_values(|e: (String, String)| (e.0@, e.1@)) == self@,
    {
        &self.entries
    }
}

/// Reads a pair `key<sep>value`: the key is what stands before the first
/// `sep`, the value what stands after it.
pub open spec fn spec_pair(input: Seq<char>, sep: Seq<char>) -> Option<(Seq<char>, Seq<char>)> {
    split_once(input, sep)
}

/// Sets every pair of `inputs` in turn, stopping at the first that cannot be
/// read: the entries at that point, and whether every pair was read.
pub open spec fn set_all(e: Entries, inputs: Seq<Seq<char>>, sep: Seq<char>) -> (Entries, bool)
    decreases inputs.len(),
{
    if inputs.len() == 0 {
        (e, true)
    } else {
        match spec_pair(inputs[0], sep) {
            Some((k, v)) => set_all(pm_insert(e, k, v), inputs.skip(1), sep),
            None => (e, false),
        }
    }
}


/// One line `key<sep>value` per entry, in order, each ended by `\n`.
pub open spec fn render(e: Entries, sep: Seq<char>) -> Seq<char>
    decreases e.len(),
{
    if e.len() == 0 {
        Seq::<char>::empty()
    } else {
        render(e.drop_last(), sep) + e.last().0 + sep + e.last().1 + seq!['\n']
    }
}

/// The non-empty lines of a text.
pub open spec fn non_empty(ls: Seq<Seq<char>>) -> Seq<Seq<char>> {
    ls.filter(nonempty_comp())
}

/// The line `key<sep>value` of each entry.
pub open spec fn pair_lines(e: Entries, sep: Seq<char>) -> Seq<Seq<char>> {
    e.map_values(|p: (Seq<char>, Seq<char>)| p.0 + sep + p.1)
}

/// No line break in a key, a value or the separator.
pub open spec fn no_line_break(e: Entries, sep: Seq<char>) -> bool {
    &&& !sep.contains('\n')
    &&& forall|i: int| 0 <= i < e.len() ==> !(#[trigger] e[i]).0.contains('\n') && !e[i].1.contains('\n')
}

/// Each line reads back as its entry.
pub open spec fn lines_read_back(e: Entries, sep: Seq<char>) -> bool {
    forall|i: int| 0 <= i < e.len() ==> spec_pair(#[trigger] pair_lines(e, sep)[i], sep) == Some(e[i])
}

/// Keeping the items that satisfy a predicate every item satisfies keeps all.
pub proof fn lemma_filter_all<A>(s: Seq<A>, pred: spec_fn(A) -> bool)
    requires
        forall|i: int| 0 <= i < s.len() ==> pred(#[trigger] s[i]),
    ensures
        s.filter(pred) == s,
    decreases s.len(),
{
    if s.len() == 0 {
        assert(s.filter(pred) =~= s);
    } else {
        let init = s.drop_last();
        assert forall|i: int| 0 <= i < init.len() implies pred(#[trigger] init[i]) by {
            assert(init[i] == s[i]);
        }
        lemma_filter_all(init, pred);
        init.lemma_filter_push(s.last(), pred);
        assert(pred(s[s.len() - 1]));
        assert(init.push(s.last()) =~= s);
    }
}

/// The rendered entries, followed by a text `t` without line break, split
/// at line breaks: the line of each entry, then `t`.
pub proof fn lemma_split_render(e: Entries, sep: Seq<char>, t: Seq<char>)
    requires
        no_line_break(e, sep),
        !t.contains('\n'),
    ensures
        split_char(render(e, sep) + t, '\n') == pair_lines(e, sep).push(t),
    decreases e.len(),
{
    if e.len() == 0 {
        assert(render(e, sep) + t =~= t);
        lemma_split_char_without(t, '\n');
        assert(pair_lines(e, sep).push(t) =~= seq![t]);
    } else {
        let init = e.drop_last();
        let l = e.last().0 + sep + e.last().1;
        assert(no_line_break(init, sep)) by {
            assert forall|i: int| 0 <= i < init.len() implies !(#[trigger] init[i]).0.contains('\n')
                && !init[i].1.contains('\n') by {
                assert(init[i] == e[i]);
            }
        }
        assert(!l.contains('\n')) by {
            assert(e.last() == e[e.len() - 1]);
            if l.contains('\n') {
                let k = choose|k: int| 0 <= k < l.len() && l[k] == '\n';
                if k < e.last().0.len() {
                    assert(e.last().0[k] == '\n');
                } else if k < e.last().0.len() + sep.len() {
                    assert(sep[k - e.last().0.len()] == '\n');
                } else {
                    assert(e.last().1[k - e.last().0.len() - sep.len()] == '\n');
                }
            }
        }
        lemma_split_render(init, sep, l);
        assert(render(e, sep) + t =~= (render(init, sep) + l) + seq!['\n'] + t);
        lemma_split_char_concat(render(init, sep) + l, t, '\n');
        lemma_split_char_without(t, '\n');
        assert(pair_lines(e, sep) =~= pair_lines(init, sep).push(l));
    }
}

/// Setting the lines of the entries from the `i`-th on, in order, into the
/// first `i` entries gives all the entries.
pub proof fn lemma_set_all_lines(e: Entries, sep: Seq<char>, i: int)
    requires
        0 <= i <= e.len(),
        keys_unique(e),
        lines_read_back(e, sep),
    ensures
        set_all(e.take(i), pair_lines(e, sep).skip(i), sep) == (e, true),
    decreases e.len() - i,
{
    let ls = pair_lines(e, sep).skip(i);
    if i == e.len() {
        assert(e.take(i) =~= e);
        assert(ls.len() == 0);
    } else {
        assert(ls[0] == pair_lines(e, sep)[i]);
        assert(spec_pair(ls[0], sep) == Some(e[i]));
        lemma_key_index_from(e.take(i), e[i].0, 0);
        assert forall|j: int| 0 <= j < e.take(i).len() implies e.take(i)[j].0 != e[i].0 by {
            assert(e.take(i)[j] == e[j]);
        }
        assert(pm_insert(e.take(i), e[i].0, e[i].1) =~= e.take(i + 1));
        assert(ls.skip(1) =~= pair_lines(e, sep).skip(i + 1));
        lemma_set_all_lines(e, sep, i + 1);
    }
}

/// Rendered entries read back, line by line, as the same entries, when no
/// key, value or separator holds a line break and each line reads back as
/// its entry.
pub proof fn lemma_render_read_back(e: Entries, sep: Seq<char>)
    requires
        keys_unique(e),
        sep.len() > 0,
        no_line_break(e, sep),
        lines_read_back(e, sep),
    ensures
        set_all(Seq::empty(), non_empty(split_char(render(e, sep), '\n')), sep) == (e, true),
        split_char(render(e, sep), '\n') == pair_lines(e, sep).push(Seq::<char>::empty()),
{
    lemma_split_render(e, sep, Seq::<char>::empty());
    assert(render(e, sep) + Seq::<char>::empty() =~= render(e, sep));
    let ls = pair_lines(e, sep);
    assert forall|i: int| 0 <= i < ls.len() implies nonempty_comp()(#[trigger] ls[i]) by {
        assert(ls[i].len() >= sep.len());
    }
    lemma_filter_all(ls, nonempty_comp());
    ls.lemma_filter_push(Seq::<char>::empty(), nonempty_comp());
    lemma_set_all_lines(e, sep, 0);
    assert(e.take(0) =~= Seq::<(Seq<char>, Seq<char>)>::empty());
    assert(ls.skip(0) =~= ls);
}

impl PairMap {
    /// Reads `input` as `key<sep>value` and stores the pair; fails, leaving the
    /// map as it is, when `sep` does not occur in `input`.
    pub fn set_pair(&mut self, input: &str, sep: &str) -> (r: Result<(), Error>)
        ensures
            match spec_pair(input@, sep@) {
                Some((k, v)) => r is Ok && final(self)@ == pm_insert(old(self)@, k, v),
                None => r matches Err(Error::KeymapSet) && final(self)@ == old(self)@,
            },
    {
        match split_once_exec(input, sep) {
            Some((k, v)) => {
                self.insert(k, v);
                Ok(())
            },
            None => Err(Error::KeymapSet),
        }
    }

    /// Sets every pair of `inputs` in turn; stops at the first that cannot
    /// be read.
    pub fn set_pairs(&mut self, inputs: &Vec<String>, sep: &str) -> (r: Result<(), Error>)
        ensures
            (final(self)@, r is Ok) == set_all(old(self)@, views(inputs@), sep@),
            r is Err ==> r matches Err(Error::KeymapSet),
    {
        let mut i: usize = 0;
        assert(views(inputs@).skip(0) == views(inputs@));
        while i < inputs.len()
            invariant
                i <= inputs.len(),
                set_all(old(self)@, views(inputs@), sep@) == set_all(
                    self@,
                    views(inputs@).skip(i as int),
                    sep@,
                ),
            decreases inputs.len() - i,
        {
            let ghost before = self@;
            assert(views(inputs@).skip(i as int)[0] == inputs@[i as int]@);
            assert(views(inputs@).skip(i as int).skip(1) =~= views(inputs@).skip(i + 1));
            match self.set_pair(inputs[i].as_str(), sep) {
                Ok(()) => {},
                Err(e) => {
                    return Err(e);
                },
            }
            i = i + 1;
        }
        Ok(())
    }

    /// Sets the pair of every non-empty line of `lines` in turn; stops at the
    /// first that cannot be read.
    pub fn set_lines(&mut self, lines: &Vec<String>, sep: &str) -> (r: Result<(), Error>)
        ensures
            (final(self)@, r is Ok) == set_all(old(self)@, non_empty(views(lines@)), sep@),
            r is Err ==> r matches Err(Error::KeymapSet),
    {
        let mut kept: Vec<String> = Vec::new();
        let mut i: usize = 0;
        while i < lines.len()
            invariant
                i <= lines.len(),
                views(kept@) == non_empty(views(lines@).take(i as int)),
            decreases lines.len() - i,
        {
            let ghost before = views(lines@).take(i as int);
            assert(views(lines@).take(i + 1) =~= before.push(lines@[i as int]@));
            proof {
                before.lemma_filter_push(lines@[i as int]@, nonempty_comp());
            }
            if !lines[i].as_str().is_empty() {
                kept.push(lines[i].clone());
                assert(views(kept@) =~= non_empty(views(lines@).take(i + 1)));
            } else {
                assert(views(kept@) =~= non_empty(views(lines@).take(i + 1)));
            }
            i = i + 1;
        }
        assert(views(lines@).take(lines.len() as int) =~= views(lines@));
        self.set_pairs(&kept, sep)
    }

    /// One line `key<sep>value` per entry, in order.
    pub fn render(&self, sep: &str) -> (r: String)
        ensures
            r@ == render(self@, sep@),
    {
        let mut out = String::new();
        let mut i: usize = 0;
        while i < self.entries.len()
            invariant
                i <= self.entries.len(),
                self@.len() == self.entries@.len(),
                out@ == render(self@.take(i as int), sep@),
            decreases self.entries.len() - i,
        {
            assert(self@[i as int] == (self.entries@[i as int].0@, self.entries@[i as int].1@));
            assert(self@.take(i + 1).drop_last() =~= self@.take(i as int));
            out.append(self.entries[i].0.as_str());
            out.append(sep);
            out.append(self.entries[i].1.as_str());
            out.append("\n");
            proof {
                reveal_strlit("\n");
            }
            assert(out@ =~= render(self@.take(i + 1), sep@));
            i = i + 1;
        }
        assert(self@.take(self@.len() as int) =~= self@);
        out
    }
}

} // verus!
