//! Environments: variables and headers shared by the endpoints.

use vstd::prelude::*;

use crate::error::{Error, Result};
use crate::headers::Headers;
use crate::pairmap::{
    non_empty, pm_get, pm_insert, pm_remove, render, set_all, spec_pair, Entries, PairMap,
};
use crate::text::{split, split_char, views};

verus! {

/// What separates the name of a variable from its value: `=`.
pub open spec fn var_sep() -> Seq<char> {
    seq!['=']
}

/// Variables, by name.
pub struct Variables(pub PairMap);

impl View for Variables {
    type V = Entries;

    open spec fn view(&self) -> Entries {
        self.0@
    }
}

impl Default for Variables {
    fn default() -> (r: Self)
        ensures
            r@ == Seq::<(Seq<char>, Seq<char>)>::empty(),
    {
        Variables(PairMap::new())
    }
}

impl Variables {
    /// The file content read as variables: one `name=value` per line; empty
    /// lines are skipped. Fails on the first line without `=`.
    pub fn parse(file_content: &str) -> (r: Result<Self>)
        ensures
            r is Ok == set_all(Seq::empty(), non_empty(split_char(file_content@, '\n')), var_sep()).1,
            r matches Ok(v) ==> v@ == set_all(
                Seq::empty(),
                non_empty(split_char(file_content@, '\n')),
                var_sep(),
            ).0,
            r is Err ==> r matches Err(Error::KeymapSet),
    {
        let mut variables = Variables::default();
        let ls = split(file_content, '\n');
        proof {
            reveal_strlit("=");
            assert("="@ =~= var_sep());
        }
        match variables.0.set_lines(&ls, "=") {
            Ok(()) => Ok(variables),
            Err(e) => Err(e),
        }
    }

    /// Reads `input` as `name=value` and sets that variable.
    pub fn set(&mut self, input: &str) -> (r: Result)
        ensures
            match spec_pair(input@, var_sep()) {
                Some((k, v)) => r is Ok && final(self)@ == pm_insert(old(self)@, k, v),
                None => r matches Err(Error::KeymapSet) && final(self)@ == old(self)@,
            },
    {
        proof {
            reveal_strlit("=");
            assert("="@ =~= var_sep());
        }
        self.0.set_pair(input, "=")
    }

    /// One `name=value` line per variable.
    pub fn to_string(&self) -> (r: String)
        ensures
            r@ == render(self@, var_sep()),
    {
        proof {
            reveal_strlit("=");
            assert("="@ =~= var_sep());
        }
        self.0.render("=")
    }
}

/// Removes every key of `keys` in turn, stopping at the first that is not
/// there: the entries at that point, and whether every key was there.
pub open spec fn remove_all(e: Entries, keys: Seq<Seq<char>>) -> (Entries, bool)
    decreases keys.len(),
{
    if keys.len() == 0 {
        (e, true)
    } else if pm_get(e, keys[0]) is Some {
        remove_all(pm_remove(e, keys[0]), keys.skip(1))
    } else {
        (e, false)
    }
}

/// The variables and headers of an environment.
pub struct Env {
    pub variables: Variables,
    pub headers: Headers,
}

impl Default for Env {
    fn default() -> (r: Self)
        ensures
            r.variables@ == Seq::<(Seq<char>, Seq<char>)>::empty(),
            r.headers@ == Seq::<(Seq<char>, Seq<char>)>::empty(),
    {
        Env { variables: Variables::default(), headers: Headers::default() }
    }
}

impl Env {
    /// A copy of the environment.
    pub fn clone_env(&self) -> (r: Env)
        ensures
            r.variables@ == self.variables@,
            r.headers@ == self.headers@,
    {
        Env {
            variables: Variables(self.variables.0.clone_map()),
            headers: Headers(self.headers.0.clone_map()),
        }
    }

    /// Sets the header `name` to `value`.
    pub fn header_set(&mut self, name: String, value: String) -> (r: Result)
        ensures
            r is Ok,
            final(self).headers@ == pm_insert(old(self).headers@, name@, value@),
            final(self).variables@ == old(self).variables@,
    {
        self.headers.0.insert(name, value);
        Ok(())
    }

    /// Removes the header `header`, when there is one.
    pub fn header_rm(&mut self, header: &str) -> (r: Result)
        ensures
            r is Ok,
            final(self).headers@ == pm_remove(old(self).headers@, header@),
            final(self).variables@ == old(self).variables@,
    {
        self.headers.0.remove(header);
        Ok(())
    }

    /// The value of the header `key`.
    pub fn header_get(&self, key: &str) -> (r: Result<String>)
        ensures
            match pm_get(self.headers@, key@) {
                Some(v) => r matches Ok(s) && s@ == v,
                None => r matches Err(Error::HeaderNotFound),
            },
    {
        match self.headers.0.get(key) {
            Some(v) => Ok(v.clone()),
            None => Err(Error::HeaderNotFound),
        }
    }

    /// Sets the variable `key` to `value`.
    pub fn var_set(&mut self, key: String, value: String) -> (r: Result)
        ensures
            r is Ok,
            final(self).variables@ == pm_insert(old(self).variables@, key@, value@),
            final(self).headers@ == old(self).headers@,
    {
        self.variables.0.insert(key, value);
        Ok(())
    }

    /// The value of the variable `name`.
    pub fn var_get(&self, name: &str) -> (r: Option<String>)
        ensures
            match pm_get(self.variables@, name@) {
                Some(v) => r matches Some(s) && s@ == v,
                None => r is None,
            },
    {
        match self.variables.0.get(name) {
            Some(v) => Some(v.clone()),
            None => None,
        }
    }

    /// A copy of the variables.
    pub fn vars(&self) -> (r: Variables)
        ensures
            r@ == self.variables@,
    {
        Variables(self.variables.0.clone_map())
    }

    /// Removes the variables `keys` in turn; fails at the first that does not
    /// exist, keeping the removals made before it.
    pub fn var_rm(&mut self, keys: Vec<String>) -> (r: Result)
        ensures
            (final(self).variables@, r is Ok) == remove_all(old(self).variables@, views(keys@)),
            r is Err ==> r matches Err(Error::RemoveHeader),
            final(self).headers@ == old(self).headers@,
    {
        let mut i: usize = 0;
        assert(views(keys@).skip(0) == views(keys@));
        while i < keys.len()
            invariant
                i <= keys.len(),
                self.headers@ == old(self).headers@,
                remove_all(old(self).variables@, views(keys@)) == remove_all(
                    self.variables@,
                    views(keys@).skip(i as int),
                ),
            decreases keys.len() - i,
        {
            assert(views(keys@).skip(i as int)[0] == keys@[i as int]@);
            assert(views(keys@).skip(i as int).skip(1) =~= views(keys@).skip(i + 1));
            match self.variables.0.remove(keys[i].as_str()) {
                Some(_) => {},
                None => {
                    return Err(Error::RemoveHeader);
                },
            }
            i = i + 1;
        }
        Ok(())
    }
}

} // verus!
