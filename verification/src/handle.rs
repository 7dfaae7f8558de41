//! Endpoint handles: the slash-separated names that address endpoints.

use vstd::prelude::*;

use crate::error::{EndpointError, Error, Result};
use crate::store::{valid_component, valid_path, PathV};
use crate::text::{
    nonempty_comp,
    join, join_strings, lemma_split_char_join, lemma_split_char_pieces, replace, replace_all, split, split_char,
    trim_char, trim_end_char, trim_matches, trim_start_char, views,
};

verus! {

/// The components of a handle name: trimmed of `/` at both ends, split at `/`.
pub open spec fn handle_path_of(s: Seq<char>) -> PathV {
    split_char(trim_char(s, '/'), '/')
}


/// The non-empty components of a path.
pub open spec fn dir_of(raw: PathV) -> PathV {
    raw.filter(nonempty_comp())
}

/// The directory a handle path addresses: the components joined with `/`
/// and read back as a path, where empty components name no directory.
pub open spec fn handle_dir(p: PathV) -> PathV {
    dir_of(split_char(join(p, seq!['/']), '/'))
}

/// The components of a handle.
pub struct EndpointHandlePath(pub Vec<String>);

impl EndpointHandlePath {
    /// The components of the handle name `value`.
    pub fn parse(value: &str) -> (r: Self)
        ensures
            views(r.0@) == handle_path_of(value@),
    {
        let t = trim_matches(value, '/');
        EndpointHandlePath(split(t.as_str(), '/'))
    }
}

/// An endpoint handle: the list of its ordered parent names.
pub struct EndpointHandle {
    /// List of ordered parent names
    pub path: EndpointHandlePath,
}

impl View for EndpointHandle {
    type V = PathV;

    open spec fn view(&self) -> PathV {
        views(self.path.0@)
    }
}

/// The last component, or nothing for the root.
pub open spec fn spec_head(p: PathV) -> Seq<char> {
    if p.len() == 0 {
        Seq::<char>::empty()
    } else {
        p.last()
    }
}

/// The handle name: the components joined with `/`.
pub open spec fn spec_handle(p: PathV) -> Seq<char> {
    join(p, seq!['/'])
}

/// Joining the pieces of a split gives the text back.
pub proof fn lemma_join_split(s: Seq<char>, c: char)
    ensures
        join(split_char(s, c), seq![c]) == s,
    decreases s.len(),
{
    if s.len() > 0 {
        let rest = split_char(s.drop_last(), c);
        lemma_join_split(s.drop_last(), c);
        crate::text::lemma_split_char_nonempty(s.drop_last(), c);
        if s.last() == c {
            let r = rest.push(Seq::<char>::empty());
            assert(r.drop_last() =~= rest);
            assert(join(r, seq![c]) =~= s);
        } else {
            let l = rest.last().push(s.last());
            let r = rest.update(rest.len() - 1, l);
            if rest.len() == 1 {
                assert(s =~= s.drop_last().push(s.last()));
                assert(join(r, seq![c]) =~= s);
            } else {
                assert(r.drop_last() =~= rest.drop_last());
                assert(r.last() == l);
                assert(join(rest, seq![c]) == join(rest.drop_last(), seq![c]) + seq![c] + rest.last());
                assert(join(r, seq![c]) == join(rest.drop_last(), seq![c]) + seq![c] + l);
                assert(s =~= s.drop_last().push(s.last()));
                assert(join(r, seq![c]) =~= s);
            }
        }
    }
}

/// Trimming the start leaves no `c` first.
proof fn lemma_trim_start_first(s: Seq<char>, c: char)
    ensures
        trim_start_char(s, c).len() == 0 || trim_start_char(s, c)[0] != c,
    decreases s.len(),
{
    if s.len() > 0 && s[0] == c {
        lemma_trim_start_first(s.skip(1), c);
    }
}

/// Trimming the end leaves a prefix with no `c` last.
proof fn lemma_trim_end_prefix(s: Seq<char>, c: char)
    ensures
        trim_end_char(s, c).len() <= s.len(),
        trim_end_char(s, c) == s.take(trim_end_char(s, c).len() as int),
        trim_end_char(s, c).len() == 0 || trim_end_char(s, c).last() != c,
    decreases s.len(),
{
    if s.len() > 0 && s.last() == c {
        lemma_trim_end_prefix(s.drop_last(), c);
        let r = trim_end_char(s.drop_last(), c);
        assert(s.drop_last().take(r.len() as int) =~= s.take(r.len() as int));
    } else {
        assert(s.take(s.len() as int) =~= s);
    }
}

/// A trimmed text trims to itself.
proof fn lemma_trim_char_idempotent(s: Seq<char>, c: char)
    ensures
        trim_char(trim_char(s, c), c) == trim_char(s, c),
{
    let u = trim_start_char(s, c);
    let t = trim_char(s, c);
    lemma_trim_start_first(s, c);
    lemma_trim_end_prefix(u, c);
    if t.len() > 0 {
        assert(t[0] == u[0]);
        assert(trim_start_char(t, c) == t);
        assert(trim_end_char(t, c) == t);
    }
}

/// Reading back a handle's name: the name of the handle of any name is read
/// back as the same components.
pub proof fn law_handle_name_read_back(name: Seq<char>)
    ensures
        handle_path_of(spec_handle(handle_path_of(name))) == handle_path_of(name),
{
    let t = trim_char(name, '/');
    lemma_join_split(t, '/');
    lemma_trim_char_idempotent(name, '/');
}

/// A join starts with the first character of its first part and ends with
/// the last character of its last part.
proof fn lemma_join_ends(p: PathV, c: char)
    requires
        p.len() >= 1,
        p[0].len() > 0,
        p.last().len() > 0,
    ensures
        join(p, seq![c]).len() > 0,
        join(p, seq![c])[0] == p[0][0],
        join(p, seq![c]).last() == p.last().last(),
    decreases p.len(),
{
    if p.len() > 1 {
        let init = p.drop_last();
        if init.len() > 1 {
            assert(init.last() == p[p.len() - 2]);
        }
        assert(init[0] == p[0]);
        if init.last().len() > 0 {
            lemma_join_ends(init, c);
        } else {
            lemma_join_first(init, c);
        }
    }
}

/// A join starts with the first character of its first part.
proof fn lemma_join_first(p: PathV, c: char)
    requires
        p.len() >= 1,
        p[0].len() > 0,
    ensures
        join(p, seq![c]).len() > 0,
        join(p, seq![c])[0] == p[0][0],
    decreases p.len(),
{
    if p.len() > 1 {
        let init = p.drop_last();
        assert(init[0] == p[0]);
        lemma_join_first(init, c);
    }
}

/// Reading back a handle's name: the name of a handle whose components are
/// non-empty and hold no `/` is read back as the same components.
pub proof fn law_handle_path_read_back(p: PathV)
    requires
        p.len() >= 1,
        valid_path(p),
    ensures
        handle_path_of(spec_handle(p)) == p,
{
    let s = join(p, seq!['/']);
    assert(valid_component(p[0]));
    assert(valid_component(p[p.len() - 1]));
    assert(p.last() == p[p.len() - 1]);
    lemma_join_ends(p, '/');
    assert(!p[0].contains('/')) by {
        assert(p[0].len() > 0);
    }
    if p[0][0] == '/' {
        assert(p[0].contains('/'));
    }
    if p.last().last() == '/' {
        assert(p.last()[p.last().len() - 1] == '/');
        assert(p.last().contains('/'));
    }
    assert(trim_start_char(s, '/') == s);
    assert(trim_end_char(s, '/') == s);
    assert forall|i: int| 0 <= i < p.len() implies !(#[trigger] p[i]).contains('/') by {
        assert(valid_component(p[i]));
    }
    lemma_split_char_join(p, '/');
}

/// Keeps the non-empty strings of `v`.
fn non_empty_strings(v: Vec<String>) -> (r: Vec<String>)
    ensures
        views(r@) == dir_of(views(v@)),
{
    let ghost pred = nonempty_comp();
    let mut r: Vec<String> = Vec::new();
    let mut i: usize = 0;
    while i < v.len()
        invariant
            i <= v.len(),
            pred == nonempty_comp(),
            views(r@) == views(v@).take(i as int).filter(pred),
        decreases v.len() - i,
    {
        let ghost before = views(v@).take(i as int);
        assert(views(v@).take(i + 1) =~= before.push(v@[i as int]@));
        proof {
            before.lemma_filter_push(v@[i as int]@, pred);
        }
        if !v[i].as_str().is_empty() {
            let s = v[i].clone();
            let ghost prev = views(r@);
            r.push(s);
            assert(views(r@) =~= prev.push(s@));
        }
        i = i + 1;
    }
    assert(views(v@).take(v.len() as int) =~= views(v@));
    r
}

/// Keeping the non-empty components does not add any.
pub proof fn lemma_dir_of_len(p: PathV)
    ensures
        dir_of(p).len() <= p.len(),
{
    p.lemma_filter_len(nonempty_comp());
}

/// `dir_of` of the pieces of a split at `/` is a valid directory path.
pub proof fn lemma_dir_of_split_valid(s: Seq<char>)
    ensures
        valid_path(dir_of(split_char(s, '/'))),
{
    let raw = split_char(s, '/');
    lemma_split_char_pieces(s, '/');
    let d = dir_of(raw);
    assert forall|i: int| 0 <= i < d.len() implies valid_component(#[trigger] d[i]) by {
        broadcast use vstd::seq_lib::group_filter_ensures;

        assert(d.contains(d[i]));
        raw.lemma_filter_contains_rev(nonempty_comp(), d[i]);
        assert(raw.contains(d[i]));
        let j = choose|j: int| 0 <= j < raw.len() && raw[j] == d[i];
        assert(!raw[j].contains('/'));
    }
}

impl EndpointHandle {
    pub fn new(path: EndpointHandlePath) -> (r: Self)
        ensures
            r.path == path,
    {
        Self { path }
    }

    /// The handle of the endpoints directory itself.
    pub fn root() -> (r: Self)
        ensures
            r@ == Seq::<Seq<char>>::empty(),
    {
        let r = Self::new(EndpointHandlePath(Vec::new()));
        assert(r@ =~= Seq::<Seq<char>>::empty());
        r
    }

    /// The handle named `name`.
    pub fn named(name: &str) -> (r: Self)
        ensures
            r@ == handle_path_of(name@),
    {
        Self::new(EndpointHandlePath::parse(name))
    }

    /// The last component of the handle.
    pub fn head(&self) -> (r: String)
        ensures
            r@ == spec_head(self@),
    {
        let n = self.path.0.len();
        if n == 0 {
            String::new()
        } else {
            self.path.0[n - 1].clone()
        }
    }

    /// The handle one level up; fails for the root.
    pub fn parent(&self) -> (r: Result<Self>)
        ensures
            self@.len() == 0 ==> r matches Err(Error::EndpointError(EndpointError::NoHandleParentDir)),
            self@.len() > 0 ==> (r matches Ok(p) && p@ == self@.drop_last()),
    {
        let n = self.path.0.len();
        if n == 0 {
            return Err(Error::EndpointError(EndpointError::NoHandleParentDir));
        }
        let mut parent_path: Vec<String> = Vec::new();
        let mut i: usize = 0;
        while i < n - 1
            invariant
                n == self.path.0@.len(),
                i <= n - 1,
                views(parent_path@) == self@.take(i as int),
            decreases n - 1 - i,
        {
            let s = self.path.0[i].clone();
            let ghost prev = views(parent_path@);
            parent_path.push(s);
            assert(views(parent_path@) =~= prev.push(s@));
            assert(self@.take(i + 1) =~= self@.take(i as int).push(self@[i as int]));
            i = i + 1;
        }
        assert(self@.take(n - 1) =~= self@.drop_last());
        Ok(Self::new(EndpointHandlePath(parent_path)))
    }

    /// The handle name: the components joined with `/`.
    pub fn handle(&self) -> (r: String)
        ensures
            r@ == spec_handle(self@),
    {
        proof {
            reveal_strlit("/");
            assert("/"@ =~= seq!['/']);
        }
        join_strings(&self.path.0, "/")
    }

    /// The number of components.
    pub fn depth(&self) -> (r: usize)
        ensures
            r == self@.len(),
    {
        self.path.0.len()
    }

    /// Replaces `from` by `to` in the handle name, and reads the result as
    /// the new handle name.
    pub fn replace(&mut self, from: &str, to: &str)
        ensures
            final(self)@ == handle_path_of(replace_all(spec_handle(old(self)@), from@, to@)),
    {
        let h = self.handle();
        let r = replace(h.as_str(), from, to);
        self.path = EndpointHandlePath::parse(r.as_str());
    }

    /// The directory the handle addresses, as a path of non-empty components.
    pub fn dir_key(&self) -> (r: Vec<String>)
        ensures
            views(r@) == handle_dir(self@),
            valid_path(views(r@)),
    {
        let h = self.handle();
        let raw = split(h.as_str(), '/');
        proof {
            lemma_dir_of_split_valid(h@);
        }
        non_empty_strings(raw)
    }
}

} // verus!
