//! Environments of a project: reading and saving their files, and choosing
//! the one in use.

use vstd::prelude::*;

use crate::env::{var_sep, Env, Variables};
use crate::error::{EnvError, Error, Result};
use crate::headers::{header_sep, Headers};
use crate::pairmap::{
    key_index, keys_unique, law_insert_then_get, lemma_filter_all, lemma_render_read_back,
    lemma_set_all_lines, non_empty, no_line_break, pair_lines, pm_insert, render, set_all,
    spec_pair, Entries,
};
use crate::project::{
    default_env_name, env_at, env_has, env_index, env_names_unique, env_put, env_remove, join_path, path_join, state_value,
    EnvDir, EnvDirV, EnvsV, Quartz, StateField, StateFiles,
};
use crate::text::{
    contains, find_from, lemma_find_from_none, lemma_split_once_pair, lines, nonempty_comp,
    occurs_at, split_char, str_eq, strip_cr,
};

verus! {

/// `env`.
pub open spec fn env_dir_name() -> Seq<char> {
    seq!['e', 'n', 'v']
}

/// The variables read from the content of a `variables` file, and whether
/// every line could be read.
pub open spec fn parse_variables(c: Seq<char>) -> (Entries, bool) {
    set_all(Seq::empty(), non_empty(split_char(c, '\n')), var_sep())
}

/// The headers read from the content of a `headers` file, and whether every
/// line could be read.
pub open spec fn parse_headers(c: Seq<char>) -> (Entries, bool) {
    set_all(Seq::empty(), non_empty(lines(c)), header_sep())
}

/// What reading an optional file gives: nothing read from a missing file.
pub open spec fn parse_opt(c: Option<Seq<char>>, headers: bool) -> (Entries, bool) {
    match c {
        Some(x) => if headers {
            parse_headers(x)
        } else {
            parse_variables(x)
        },
        None => (Seq::empty(), true),
    }
}

/// What reading the environment `name` gives: its variables and headers,
/// or `None` when a line of one of its files cannot be read.
pub open spec fn read_env(envs: EnvsV, name: Seq<char>) -> Option<(Entries, Entries)> {
    let (vf, hf) = match env_at(envs, name) {
        Some(d) => (d.variables, d.headers),
        None => (None, None),
    };
    let vars = parse_opt(vf, false);
    let hds = parse_opt(hf, true);
    if !vars.1 || !hds.1 {
        None
    } else {
        Some((vars.0, hds.0))
    }
}

/// The directory of an environment after `save`: both files written.
pub open spec fn saved_dir(name: Seq<char>, vars: Entries, headers: Entries) -> EnvDirV {
    EnvDirV {
        name,
        variables: Some(render(vars, var_sep())),
        headers: Some(render(headers, header_sep())),
    }
}

/// The name of the environment in use: the state file, else `default`.
pub open spec fn current_env_name(st: StateFiles) -> Seq<char> {
    match state_value(st, StateField::Env) {
        Some(n) => n,
        None => default_env_name(),
    }
}

/// Variables that a `variables` file keeps: names without `=` and without
/// line breaks, values without line breaks.
pub open spec fn storable_variables(e: Entries) -> bool {
    forall|i: int|
        0 <= i < e.len() ==> !(#[trigger] e[i]).0.contains('=') && !e[i].0.contains('\n')
            && !e[i].1.contains('\n')
}

/// Headers that a `headers` file keeps: names without `": "` and without
/// line breaks, values without line breaks that do not end with `\r`.
pub open spec fn storable_headers(e: Entries) -> bool {
    forall|i: int|
        0 <= i < e.len() ==> !contains((#[trigger] e[i]).0, header_sep()) && !e[i].0.contains('\n')
            && !e[i].1.contains('\n') && !(e[i].1.len() > 0 && e[i].1.last() == '\r')
}

/// Reading back written variables: a `variables` file written from
/// variables (keys unique, as `PairMap::check_unique` gives them) reads
/// back as the same variables, in the same order.
pub proof fn law_variables_read_back(e: Entries)
    requires
        keys_unique(e),
        storable_variables(e),
    ensures
        parse_variables(render(e, var_sep())) == (e, true),
{
    let sep = var_sep();
    assert forall|i: int| 0 <= i < e.len() implies spec_pair(
        #[trigger] pair_lines(e, sep)[i],
        sep,
    ) == Some(e[i]) by {
        let k = e[i].0;
        let v = e[i].1;
        assert forall|j: int| 0 <= j < k.len() implies !occurs_at(k + sep + v, sep, j) by {
            if occurs_at(k + sep + v, sep, j) {
                assert((k + sep + v).subrange(j, j + 1)[0] == sep[0]);
                assert(k[j] == '=');
            }
        }
        lemma_split_once_pair(k, sep, v);
    }
    assert(!sep.contains('\n')) by {
        if sep.contains('\n') {
            assert(sep[0] == '=');
        }
    }
    lemma_render_read_back(e, sep);
}

/// Reading back written headers: a `headers` file written from headers
/// (keys unique, as `PairMap::check_unique` gives them) reads back as the
/// same headers, in the same order.
pub proof fn law_headers_read_back(e: Entries)
    requires
        keys_unique(e),
        storable_headers(e),
    ensures
        parse_headers(render(e, header_sep())) == (e, true),
{
    let sep = header_sep();
    assert forall|i: int| 0 <= i < e.len() implies spec_pair(
        #[trigger] pair_lines(e, sep)[i],
        sep,
    ) == Some(e[i]) by {
        let k = e[i].0;
        let v = e[i].1;
        let s = k + sep + v;
        assert forall|j: int| 0 <= j < k.len() implies !occurs_at(s, sep, j) by {
            if occurs_at(s, sep, j) {
                if j + 2 <= k.len() {
                    assert(k.subrange(j, j + 2) =~= s.subrange(j, j + 2));
                    assert(occurs_at(k, sep, j));
                    if crate::text::find_from(k, sep, 0) is None {
                        lemma_find_from_none(k, sep, 0, j);
                    }
                } else {
                    assert(s.subrange(j, j + 2)[1] == s[j + 1]);
                    assert(s[j + 1] == ':');
                }
            }
        }
        lemma_split_once_pair(k, sep, v);
    }
    assert(!sep.contains('\n')) by {
        if sep.contains('\n') {
            let k = choose|k: int| 0 <= k < sep.len() && sep[k] == '\n';
            assert(sep[0] == ':' && sep[1] == ' ');
        }
    }
    lemma_render_read_back(e, sep);
    let ls = pair_lines(e, sep);
    let parts = split_char(render(e, sep), '\n');
    assert(parts.drop_last() =~= ls);
    assert(parts.last() == Seq::<char>::empty());
    assert forall|i: int| 0 <= i < ls.len() implies strip_cr(#[trigger] ls[i]) == ls[i] by {
        let v = e[i].1;
        if v.len() > 0 {
            assert(ls[i].last() == v.last());
        } else {
            assert(ls[i].last() == ' ');
        }
    }
    assert(lines(render(e, sep)) =~= ls);
    assert forall|i: int| 0 <= i < ls.len() implies nonempty_comp()(#[trigger] ls[i]) by {
        assert(ls[i].len() >= 2);
    }
    lemma_filter_all(ls, nonempty_comp());
    lemma_set_all_lines(e, sep, 0);
    assert(e.take(0) =~= Seq::<(Seq<char>, Seq<char>)>::empty());
    assert(ls.skip(0) =~= ls);
}

/// The environment put under a name is the one found under it.
pub proof fn lemma_env_put_at(envs: EnvsV, d: EnvDirV)
    requires
        env_names_unique(envs),
    ensures
        env_at(env_put(envs, d), d.name) == Some(d),
{
    let r = env_put(envs, d);
    if env_has(envs, d.name) {
        let i = env_index(envs, d.name);
        assert(r[i].name == d.name);
        let j = env_index(r, d.name);
        if j != i {
            assert(envs[j].name == r[j].name);
            assert(envs[j].name != envs[i].name);
        }
    } else {
        assert(r[envs.len() as int].name == d.name);
        let j = env_index(r, d.name);
        if j != envs.len() {
            assert(envs[j].name == r[j].name);
        }
    }
}

/// Saving an environment and reading it back gives its variables and
/// headers, when the files can hold them (names without the separator or a
/// line break, values without a line break, header values not ending with a
/// carriage return).
pub proof fn law_env_save_then_read(envs: EnvsV, name: Seq<char>, vars: Entries, headers: Entries)
    requires
        env_names_unique(envs),
        keys_unique(vars),
        keys_unique(headers),
        storable_variables(vars),
        storable_headers(headers),
    ensures
        read_env(env_put(envs, saved_dir(name, vars, headers)), name) == Some((vars, headers)),
{
    lemma_env_put_at(envs, saved_dir(name, vars, headers));
    law_variables_read_back(vars);
    law_headers_read_back(headers);
}

/// Where `find_from` finds `pat`: it occurs there, and nowhere before from
/// `i` on.
proof fn lemma_find_from_some(s: Seq<char>, pat: Seq<char>, i: int)
    requires
        find_from(s, pat, i) is Some,
    ensures
        i <= find_from(s, pat, i).unwrap(),
        occurs_at(s, pat, find_from(s, pat, i).unwrap()),
        forall|k: int| i <= k < find_from(s, pat, i).unwrap() ==> !occurs_at(s, pat, k),
    decreases s.len() + 1 - i,
{
    if i >= 0 && i + pat.len() <= s.len() && !occurs_at(s, pat, i) {
        lemma_find_from_some(s, pat, i + 1);
    }
}

/// The key of a pair read from a line holds no separator, and neither part
/// holds a character that the line does not.
proof fn lemma_pair_parts(line: Seq<char>, sep: Seq<char>, c: char)
    requires
        spec_pair(line, sep) is Some,
        sep.len() > 0,
    ensures
        !contains(spec_pair(line, sep).unwrap().0, sep),
        !line.contains(c) ==> !spec_pair(line, sep).unwrap().0.contains(c)
            && !spec_pair(line, sep).unwrap().1.contains(c),
{
    lemma_find_from_some(line, sep, 0);
    let j = find_from(line, sep, 0).unwrap();
    let k = line.take(j);
    let v = line.skip(j + sep.len());
    if contains(k, sep) {
        lemma_find_from_some(k, sep, 0);
        let m = find_from(k, sep, 0).unwrap();
        assert(line.subrange(m, m + sep.len()) =~= k.subrange(m, m + sep.len()));
        assert(occurs_at(line, sep, m));
    }
    if !line.contains(c) {
        if k.contains(c) {
            let x = choose|x: int| 0 <= x < k.len() && k[x] == c;
            assert(line[x] == c);
        }
        if v.contains(c) {
            let x = choose|x: int| 0 <= x < v.len() && v[x] == c;
            assert(line[x + j + sep.len()] == c);
        }
    }
}

/// A key without a one-character separator in it does not hold that
/// character.
proof fn lemma_no_sep_char(k: Seq<char>, c: char)
    requires
        !contains(k, seq![c]),
    ensures
        !k.contains(c),
{
    if k.contains(c) {
        let x = choose|x: int| 0 <= x < k.len() && k[x] == c;
        assert(k.subrange(x, x + 1) =~= seq![c]);
        lemma_find_from_none(k, seq![c], 0, x);
    }
}

/// The pair read from `line`, if any, satisfies `p`.
pub open spec fn pair_ok(line: Seq<char>, sep: Seq<char>, p: spec_fn((Seq<char>, Seq<char>)) -> bool) -> bool {
    match spec_pair(line, sep) {
        Some(kv) => p(kv),
        None => true,
    }
}

/// Setting the pairs read from lines keeps the keys unique, and keeps every
/// entry satisfying `p` when every pair read does.
proof fn lemma_set_all_keeps(
    e: Entries,
    ls: Seq<Seq<char>>,
    sep: Seq<char>,
    p: spec_fn((Seq<char>, Seq<char>)) -> bool,
)
    requires
        keys_unique(e),
        forall|i: int| 0 <= i < e.len() ==> p(#[trigger] e[i]),
        forall|i: int| 0 <= i < ls.len() ==> #[trigger] pair_ok(ls[i], sep, p),
    ensures
        keys_unique(set_all(e, ls, sep).0),
        forall|i: int|
            0 <= i < set_all(e, ls, sep).0.len() ==> p(#[trigger] set_all(e, ls, sep).0[i]),
    decreases ls.len(),
{
    if ls.len() > 0 {
        match spec_pair(ls[0], sep) {
            Some((k, v)) => {
                let e2 = pm_insert(e, k, v);
                law_insert_then_get(e, k, v, k);
                crate::pairmap::lemma_key_index_from(e, k, 0);
                assert(pair_ok(ls[0], sep, p));
                assert(p((k, v)));
                assert forall|i: int| 0 <= i < e2.len() implies p(#[trigger] e2[i]) by {
                    match key_index(e, k) {
                        Some(x) => {
                            if i != x {
                                assert(e2[i] == e[i]);
                            }
                        },
                        None => {
                            if i < e.len() {
                                assert(e2[i] == e[i]);
                            }
                        },
                    }
                }
                let rest = ls.skip(1);
                assert forall|i: int| 0 <= i < rest.len() implies #[trigger] pair_ok(rest[i], sep, p) by {
                    assert(rest[i] == ls[i + 1]);
                }
                lemma_set_all_keeps(e2, rest, sep, p);
            },
            None => {},
        }
    }
}

/// Variables that a `variables` file can hold.
pub open spec fn variable_ok() -> spec_fn((Seq<char>, Seq<char>)) -> bool {
    |kv: (Seq<char>, Seq<char>)| !kv.0.contains('=') && !kv.0.contains('\n') && !kv.1.contains('\n')
}

/// Headers that a `headers` file can hold, but for a value ending with `\r`.
pub open spec fn header_ok() -> spec_fn((Seq<char>, Seq<char>)) -> bool {
    |kv: (Seq<char>, Seq<char>)|
        !contains(kv.0, header_sep()) && !kv.0.contains('\n') && !kv.1.contains('\n')
}

/// No line of a text holds a line break.
proof fn lemma_lines_no_break(c: Seq<char>)
    ensures
        forall|i: int| 0 <= i < lines(c).len() ==> !(#[trigger] lines(c)[i]).contains('\n'),
{
    crate::text::lemma_split_char_pieces(c, '\n');
    let parts = split_char(c, '\n');
    assert forall|i: int| 0 <= i < lines(c).len() implies !(#[trigger] lines(c)[i]).contains(
        '\n',
    ) by {
        let l = lines(c)[i];
        if i < parts.len() - 1 {
            assert(l == strip_cr(parts[i]));
            assert(!parts[i].contains('\n'));
            if l.contains('\n') {
                let x = choose|x: int| 0 <= x < l.len() && l[x] == '\n';
                assert(parts[i][x] == '\n');
            }
        } else {
            assert(l == parts.last());
            assert(!parts[parts.len() - 1].contains('\n'));
        }
    }
}

/// The lines kept by `non_empty` are among the lines.
proof fn lemma_non_empty_no_break(ls: Seq<Seq<char>>)
    requires
        forall|i: int| 0 <= i < ls.len() ==> !(#[trigger] ls[i]).contains('\n'),
    ensures
        forall|i: int|
            0 <= i < non_empty(ls).len() ==> !(#[trigger] non_empty(ls)[i]).contains('\n'),
{
    assert forall|i: int| 0 <= i < non_empty(ls).len() implies !(#[trigger] non_empty(
        ls,
    )[i]).contains('\n') by {
        let l = non_empty(ls)[i];
        assert(non_empty(ls).contains(l));
        ls.lemma_filter_contains_rev(nonempty_comp(), l);
    }
}

/// What a `variables` file reads as has unique keys, each without `=` or a
/// line break, and values without a line break.
proof fn lemma_parsed_variables(c: Option<Seq<char>>)
    ensures
        keys_unique(parse_opt(c, false).0),
        forall|i: int|
            0 <= i < parse_opt(c, false).0.len() ==> variable_ok()(
                #[trigger] parse_opt(c, false).0[i],
            ),
{
    if let Some(x) = c {
        let ls = non_empty(split_char(x, '\n'));
        crate::text::lemma_split_char_pieces(x, '\n');
        lemma_non_empty_no_break(split_char(x, '\n'));
        assert forall|i: int| 0 <= i < ls.len() implies #[trigger] pair_ok(
            ls[i],
            var_sep(),
            variable_ok(),
        ) by {
            if spec_pair(ls[i], var_sep()) is Some {
                lemma_pair_parts(ls[i], var_sep(), '\n');
                lemma_no_sep_char(spec_pair(ls[i], var_sep()).unwrap().0, '=');
            }
        }
        lemma_set_all_keeps(Seq::empty(), ls, var_sep(), variable_ok());
    }
}

/// What a `headers` file reads as has unique keys, each without `": "` or a
/// line break, and values without a line break.
proof fn lemma_parsed_headers(c: Option<Seq<char>>)
    ensures
        keys_unique(parse_opt(c, true).0),
        forall|i: int|
            0 <= i < parse_opt(c, true).0.len() ==> header_ok()(#[trigger] parse_opt(c, true).0[i]),
{
    if let Some(x) = c {
        let ls = non_empty(lines(x));
        lemma_lines_no_break(x);
        lemma_non_empty_no_break(lines(x));
        assert forall|i: int| 0 <= i < ls.len() implies #[trigger] pair_ok(
            ls[i],
            header_sep(),
            header_ok(),
        ) by {
            if spec_pair(ls[i], header_sep()) is Some {
                lemma_pair_parts(ls[i], header_sep(), '\n');
            }
        }
        lemma_set_all_keeps(Seq::empty(), ls, header_sep(), header_ok());
    }
}

/// Reading back a copied environment: after the variables and headers read
/// from an environment are saved under another name (as `copy_env` does),
/// that name reads back as the same variables and headers, when no header
/// value ends with a carriage return.
pub proof fn law_copy_env_read_back(envs: EnvsV, src: Seq<char>, dest: Seq<char>)
    requires
        env_names_unique(envs),
        read_env(envs, src) matches Some((v, h)) && forall|i: int|
            0 <= i < h.len() ==> !((#[trigger] h[i]).1.len() > 0 && h[i].1.last() == '\r'),
    ensures
        read_env(envs, src) matches Some((v, h)) && read_env(
            env_put(envs, saved_dir(dest, v, h)),
            dest,
        ) == Some((v, h)),
{
    let (vf, hf) = match env_at(envs, src) {
        Some(d) => (d.variables, d.headers),
        None => (None, None),
    };
    lemma_parsed_variables(vf);
    lemma_parsed_headers(hf);
    let (v, h) = read_env(envs, src).unwrap();
    assert(storable_variables(v)) by {
        assert forall|i: int| 0 <= i < v.len() implies !(#[trigger] v[i]).0.contains('=')
            && !v[i].0.contains('\n') && !v[i].1.contains('\n') by {
            assert(variable_ok()(v[i]));
        }
    }
    assert(storable_headers(h)) by {
        assert forall|i: int| 0 <= i < h.len() implies !contains((#[trigger] h[i]).0, header_sep())
            && !h[i].0.contains('\n') && !h[i].1.contains('\n') && !(h[i].1.len() > 0
            && h[i].1.last() == '\r') by {
            assert(header_ok()(h[i]));
        }
    }
    law_env_save_then_read(envs, dest, v, h);
}

/// Removing an environment: it is gone, every other environment reads as
/// before, and names stay unique.
pub proof fn law_env_remove(envs: EnvsV, name: Seq<char>, other: Seq<char>)
    requires
        env_names_unique(envs),
    ensures
        !env_has(env_remove(envs, name), name),
        env_names_unique(env_remove(envs, name)),
        other != name ==> env_at(env_remove(envs, name), other) == env_at(envs, other),
{
    let r = env_remove(envs, name);
    if env_has(envs, name) {
        let i = env_index(envs, name);
        assert forall|j: int| 0 <= j < r.len() implies #[trigger] r[j].name != name by {
            if j < i {
                assert(r[j] == envs[j]);
            } else {
                assert(r[j] == envs[j + 1]);
            }
        }
        assert forall|a: int, b: int| 0 <= a < r.len() && 0 <= b < r.len() && a != b implies #[trigger] r[a].name
            != #[trigger] r[b].name by {
            let a2 = if a < i { a } else { a + 1 };
            let b2 = if b < i { b } else { b + 1 };
            assert(r[a] == envs[a2]);
            assert(r[b] == envs[b2]);
        }
        if other != name {
            if env_has(envs, other) {
                let k = env_index(envs, other);
                let k2 = if k < i { k } else { k - 1 };
                assert(r[k2] == envs[k]);
                let j = env_index(r, other);
                let j2 = if j < i { j } else { j + 1 };
                assert(r[j] == envs[j2]);
            } else if env_has(r, other) {
                let j = env_index(r, other);
                let j2 = if j < i { j } else { j + 1 };
                assert(r[j] == envs[j2]);
            }
        }
    }
}

/// Putting an environment: it reads as put, every other environment reads
/// as before, and names stay unique.
pub proof fn law_env_put(envs: EnvsV, d: EnvDirV, other: Seq<char>)
    requires
        env_names_unique(envs),
    ensures
        env_at(env_put(envs, d), d.name) == Some(d),
        env_names_unique(env_put(envs, d)),
        other != d.name ==> env_at(env_put(envs, d), other) == env_at(envs, other),
{
    lemma_env_put_at(envs, d);
    let r = env_put(envs, d);
    if env_has(envs, d.name) {
        let i = env_index(envs, d.name);
        assert forall|a: int, b: int| 0 <= a < r.len() && 0 <= b < r.len() && a != b implies #[trigger] r[a].name
            != #[trigger] r[b].name by {
            if a != i {
                assert(r[a] == envs[a]);
            }
            if b != i {
                assert(r[b] == envs[b]);
            }
        }
        if other != d.name {
            if env_has(envs, other) {
                let k = env_index(envs, other);
                assert(r[k] == envs[k]);
                let j = env_index(r, other);
                if j != i {
                    assert(r[j] == envs[j]);
                }
            } else if env_has(r, other) {
                let j = env_index(r, other);
                if j != i {
                    assert(r[j] == envs[j]);
                }
            }
        }
    } else {
        assert forall|a: int, b: int| 0 <= a < r.len() && 0 <= b < r.len() && a != b implies #[trigger] r[a].name
            != #[trigger] r[b].name by {
            if a < envs.len() {
                assert(r[a] == envs[a]);
            }
            if b < envs.len() {
                assert(r[b] == envs[b]);
            }
        }
        if other != d.name {
            if env_has(envs, other) {
                let k = env_index(envs, other);
                assert(r[k] == envs[k]);
                let j = env_index(r, other);
                if j < envs.len() {
                    assert(r[j] == envs[j]);
                }
            } else if env_has(r, other) {
                let j = env_index(r, other);
                if j < envs.len() {
                    assert(r[j] == envs[j]);
                }
            }
        }
    }
}

/// An environment of a project, by name.
pub struct EnvRef {
    pub name: String,
}

impl EnvRef {
    pub fn new(name: String) -> (r: Self)
        ensures
            r.name == name,
    {
        EnvRef { name }
    }

    /// Reads the variables and headers files of the environment; a missing
    /// file reads as empty. Fails on a line that cannot be read.
    pub fn read(&self, quartz: &Quartz) -> (r: Result<Env>)
        ensures
            match read_env(quartz.envs@, self.name@) {
                Some((v, h)) => r matches Ok(e) && e.variables@ == v && e.headers@ == h,
                None => r matches Err(Error::KeymapSet),
            },
    {
        let mut env = Env::default();
        let d = quartz.envs.get(self.name.as_str());
        let (vf, hf) = match d {
            Some(dir) => (dir.variables, dir.headers),
            None => (None, None),
        };
        match vf {
            Some(c) => {
                env.variables = Variables::parse(c.as_str())?;
            },
            None => {},
        }
        match hf {
            Some(c) => {
                env.headers = Headers::parse(c.as_str())?;
            },
            None => {},
        }
        Ok(env)
    }

    /// Whether the environment's directory exists.
    pub fn is_present(&self, quartz: &Quartz) -> (b: bool)
        ensures
            b == env_has(quartz.envs@, self.name@),
    {
        quartz.envs.contains(self.name.as_str())
    }

    /// The environment's directory: `<project>/env/<name>`.
    pub fn dir(&self, quartz: &Quartz) -> (r: String)
        ensures
            r@ == join_path(join_path(quartz.path_view(), env_dir_name()), self.name@),
    {
        proof {
            reveal_strlit("env");
        }
        let e = path_join(quartz.path().as_str(), "env");
        assert("env"@ =~= env_dir_name());
        path_join(e.as_str(), self.name.as_str())
    }

    /// Writes the variables and headers files of the environment, creating
    /// its directory.
    pub fn save(&self, quartz: &mut Quartz, env: &Env) -> (r: Result)
        ensures
            r is Ok,
            final(quartz).envs@ == env_put(
                old(quartz).envs@,
                saved_dir(self.name@, env.variables@, env.headers@),
            ),
            final(quartz).endpoints@ == old(quartz).endpoints@,
            final(quartz).state == old(quartz).state,
            final(quartz).path == old(quartz).path,
            final(quartz).config == old(quartz).config,
            final(quartz).history == old(quartz).history,
    {
        let d = EnvDir {
            name: self.name.clone(),
            variables: Some(env.variables.to_string()),
            headers: Some(env.headers.to_string()),
        };
        quartz.envs.put(d);
        Ok(())
    }

    /// Removes the environment's directory; fails when it does not exist.
    pub fn clean(&self, quartz: &mut Quartz) -> (r: Result)
        ensures
            env_has(old(quartz).envs@, self.name@) ==> r is Ok,
            !env_has(old(quartz).envs@, self.name@) ==> r matches Err(
                Error::EnvError(EnvError::DeleteEnv),
            ),
            final(quartz).envs@ == env_remove(old(quartz).envs@, self.name@),
            final(quartz).endpoints@ == old(quartz).endpoints@,
            final(quartz).state == old(quartz).state,
            final(quartz).path == old(quartz).path,
            final(quartz).config == old(quartz).config,
            final(quartz).history == old(quartz).history,
    {
        if quartz.envs.remove(self.name.as_str()) {
            Ok(())
        } else {
            Err(Error::EnvError(EnvError::DeleteEnv))
        }
    }
}

impl Quartz {
    /// The environment in use: the one the state file names, else `default`.
    pub fn current_env(&self) -> (r: Result<EnvRef>)
        ensures
            r matches Ok(e) && e.name@ == current_env_name(self.state),
    {
        let name = match self.state_get(StateField::Env) {
            Ok(n) => n,
            Err(_) => {
                proof {
                    reveal_strlit("default");
                }
                let d = String::from_str("default");
                assert(d@ =~= default_env_name());
                d
            },
        };
        Ok(EnvRef::new(name))
    }

    /// The environment `name`, when it exists.
    pub fn get_env(&self, name: String) -> (r: Option<EnvRef>)
        ensures
            env_has(self.envs@, name@) ==> (r matches Some(e) && e.name == name),
            !env_has(self.envs@, name@) ==> r is None,
    {
        let env = EnvRef::new(name);
        if env.is_present(self) {
            Some(env)
        } else {
            None
        }
    }

    /// Creates the environment `name` with no variable and no header (an
    /// existing one is emptied).
    pub fn create_env(&mut self, name: String) -> (r: Result<EnvRef>)
        ensures
            r matches Ok(e) && e.name == name,
            final(self).envs@ == env_put(
                old(self).envs@,
                saved_dir(name@, Seq::empty(), Seq::empty()),
            ),
            final(self).endpoints@ == old(self).endpoints@,
            final(self).state == old(self).state,
            final(self).path == old(self).path,
            final(self).config == old(self).config,
            final(self).history == old(self).history,
    {
        let new_env = EnvRef::new(name);
        new_env.save(self, &Env::default())?;
        Ok(new_env)
    }

    /// The names of the environments.
    pub fn envs(&self) -> (r: Result<Vec<String>>)
        ensures
            r is Ok,
            r matches Ok(v) ==> v@.len() == self.envs@.len(),
            r matches Ok(v) ==> forall|i: int|
                0 <= i < v@.len() ==> #[trigger] v@[i]@ == self.envs@[i].name,
    {
        Ok(self.envs.names())
    }

    /// Switches to the environment `name`; fails when it does not exist.
    pub fn switch_env(&mut self, name: String) -> (r: Result<EnvRef>)
        ensures
            !env_has(old(self).envs@, name@) ==> (r matches Err(Error::EnvError(EnvError::NotFound)))
                && final(self).state == old(self).state,
            env_has(old(self).envs@, name@) ==> (r matches Ok(e) && e.name == name) && state_value(
                final(self).state,
                StateField::Env,
            ) == Some(name@) && state_value(final(self).state, StateField::Endpoint) == state_value(
                old(self).state,
                StateField::Endpoint,
            ) && state_value(final(self).state, StateField::PreviousEndpoint) == state_value(
                old(self).state,
                StateField::PreviousEndpoint,
            ),
            final(self).envs@ == old(self).envs@,
            final(self).endpoints@ == old(self).endpoints@,
            final(self).path == old(self).path,
            final(self).config == old(self).config,
            final(self).history == old(self).history,
    {
        let requested_env = EnvRef::new(name);
        if !requested_env.is_present(self) {
            return Err(Error::EnvError(EnvError::NotFound));
        }
        self.state_set(StateField::Env, requested_env.name.as_str())?;
        Ok(requested_env)
    }

    /// Removes the environment `name`; fails when it does not exist or is
    /// the one in use.
    pub fn remove_env(&mut self, name: String) -> (r: Result)
        ensures
            !env_has(old(self).envs@, name@) ==> (r matches Err(Error::EnvError(EnvError::NotFound)))
                && final(self).envs@ == old(self).envs@,
            env_has(old(self).envs@, name@) && name@ == current_env_name(old(self).state) ==> (r matches Err(
                Error::EnvError(EnvError::EnvInUse(n)),
            ) && n == name) && final(self).envs@ == old(self).envs@,
            env_has(old(self).envs@, name@) && name@ != current_env_name(old(self).state) ==> (r is Ok)
                && final(self).envs@ == env_remove(old(self).envs@, name@),
            final(self).state == old(self).state,
            final(self).endpoints@ == old(self).endpoints@,
            final(self).path == old(self).path,
            final(self).config == old(self).config,
            final(self).history == old(self).history,
    {
        let env = EnvRef::new(name);
        if !env.is_present(self) {
            return Err(Error::EnvError(EnvError::NotFound));
        }
        let curr_env = self.current_env()?;
        if str_eq(env.name.as_str(), curr_env.name.as_str()) {
            return Err(Error::EnvError(EnvError::EnvInUse(env.name)));
        }
        env.clean(self)?;
        Ok(())
    }

    /// Copies the environment `src` to `dest`: the variables and headers
    /// read from `src` are saved as `dest`. Fails when `src` cannot be read.
    pub fn copy_env(&mut self, src: String, dest: String) -> (r: Result<EnvRef>)
        ensures
            match read_env(old(self).envs@, src@) {
                Some((v, h)) => (r matches Ok(e) && e.name == dest) && final(self).envs@ == env_put(
                    old(self).envs@,
                    saved_dir(dest@, v, h),
                ),
                None => (r matches Err(Error::KeymapSet)) && final(self).envs@ == old(self).envs@,
            },
            final(self).state == old(self).state,
            final(self).endpoints@ == old(self).endpoints@,
            final(self).path == old(self).path,
            final(self).config == old(self).config,
            final(self).history == old(self).history,
    {
        let src_ref = EnvRef::new(src);
        let src_env = src_ref.read(self)?;
        let dest_ref = EnvRef::new(dest);
        dest_ref.save(self, &src_env)?;
        Ok(dest_ref)
    }
}

} // verus!
