//! A project: the `.quartz` directory, with its endpoint directories, its
//! environments and its state files.

use vstd::prelude::*;

use crate::config::ConfigManager;
use crate::error::{Error, Result, StateError};
use crate::history::History;
use crate::store::{has_dir, EndpointStore, StoreV};
use crate::text::{chars_of, concat, str_eq};

verus! {

broadcast use vstd::string::group_string_axioms;

/// `PathBuf::join` on a relative path: `b` after `a`, with one `/` between
/// them unless `a` is empty or already ends with `/`.
pub open spec fn join_path(a: Seq<char>, b: Seq<char>) -> Seq<char> {
    if a.len() == 0 {
        b
    } else if a.last() == '/' {
        a + b
    } else {
        a + seq!['/'] + b
    }
}

/// `PathBuf::join` on a relative path.
pub fn path_join(a: &str, b: &str) -> (r: String)
    ensures
        r@ == join_path(a@, b@),
{
    proof {
        reveal_strlit("/");
    }
    let v = chars_of(a);
    if v.len() == 0 {
        b.to_owned()
    } else if v[v.len() - 1] == '/' {
        concat(a, b)
    } else {
        let s = concat(a, "/");
        let r = concat(s.as_str(), b);
        assert(r@ =~= a@ + seq!['/'] + b@);
        r
    }
}

/// The files kept under `user/state`.
#[derive(Clone, Copy, Debug)]
pub enum StateField {
    Endpoint,
    PreviousEndpoint,
    Env,
}

/// The name of the file of a state field.
pub open spec fn state_file_name(f: StateField) -> Seq<char> {
    match f {
        StateField::Endpoint => seq!['e', 'n', 'd', 'p', 'o', 'i', 'n', 't'],
        StateField::PreviousEndpoint => seq![
            'p',
            'r',
            'e',
            'v',
            '-',
            'e',
            'n',
            'd',
            'p',
            'o',
            'i',
            'n',
            't',
        ],
        StateField::Env => seq!['e', 'n', 'v'],
    }
}

/// `user/state`.
pub open spec fn state_dir() -> Seq<char> {
    seq!['u', 's', 'e', 'r', '/', 's', 't', 'a', 't', 'e']
}

impl StateField {
    /// The name of the file of the field.
    pub fn file_name(&self) -> (r: String)
        ensures
            r@ == state_file_name(*self),
    {
        match self {
            StateField::Endpoint => {
                proof {
                    reveal_strlit("endpoint");
                }
                let r = String::from_str("endpoint");
                assert(r@ =~= state_file_name(*self));
                r
            },
            StateField::PreviousEndpoint => {
                proof {
                    reveal_strlit("prev-endpoint");
                }
                let r = String::from_str("prev-endpoint");
                assert(r@ =~= state_file_name(*self));
                r
            },
            StateField::Env => {
                proof {
                    reveal_strlit("env");
                }
                let r = String::from_str("env");
                assert(r@ =~= state_file_name(*self));
                r
            },
        }
    }

    /// The file of the field in the project `quartz`.
    pub fn file_path(&self, quartz: &Quartz) -> (r: String)
        ensures
            r@ == join_path(join_path(quartz.path_view(), state_dir()), state_file_name(*self)),
    {
        quartz.state_file_path(*self)
    }

    /// The content of the field's file in the project `quartz`.
    pub fn get(&self, quartz: &Quartz) -> (r: Result<String>)
        ensures
            match state_value(quartz.state, *self) {
                Some(v) => r matches Ok(s) && s@ == v,
                None => r matches Err(Error::StateError(StateError::GetState)),
            },
    {
        quartz.state_get(*self)
    }

    /// Writes `value` to the field's file in the project `quartz`.
    pub fn set(&self, quartz: &mut Quartz, value: &str) -> (r: Result)
        ensures
            r is Ok,
            state_value(final(quartz).state, *self) == Some(value@),
            forall|g: StateField|
                g != *self ==> #[trigger] state_value(final(quartz).state, g) == state_value(
                    old(quartz).state,
                    g,
                ),
            final(quartz).endpoints@ == old(quartz).endpoints@,
            final(quartz).envs@ == old(quartz).envs@,
    {
        quartz.state_set(*self, value)
    }
}

/// The contents of the state files, where they exist.
pub struct StateFiles {
    pub endpoint: Option<String>,
    pub previous_endpoint: Option<String>,
    pub env: Option<String>,
}

/// The content of the file of `f`, where it exists.
pub open spec fn state_value(s: StateFiles, f: StateField) -> Option<Seq<char>> {
    let o = match f {
        StateField::Endpoint => s.endpoint,
        StateField::PreviousEndpoint => s.previous_endpoint,
        StateField::Env => s.env,
    };
    match o {
        Some(v) => Some(v@),
        None => None,
    }
}

impl StateFiles {
    /// No state file.
    pub fn new() -> (r: Self)
        ensures
            forall|f: StateField| state_value(r, f) is None,
    {
        StateFiles { endpoint: None, previous_endpoint: None, env: None }
    }
}

/// An environment directory: its name and the contents of its `variables`
/// and `headers` files, where they exist.
pub struct EnvDir {
    pub name: String,
    pub variables: Option<String>,
    pub headers: Option<String>,
}

/// An environment directory, as values.
pub struct EnvDirV {
    pub name: Seq<char>,
    pub variables: Option<Seq<char>>,
    pub headers: Option<Seq<char>>,
}

pub open spec fn opt_chars(o: Option<String>) -> Option<Seq<char>> {
    match o {
        Some(s) => Some(s@),
        None => None,
    }
}

impl View for EnvDir {
    type V = EnvDirV;

    open spec fn view(&self) -> EnvDirV {
        EnvDirV { name: self.name@, variables: opt_chars(self.variables), headers: opt_chars(self.headers) }
    }
}

/// The environment directories, as values.
pub type EnvsV = Seq<EnvDirV>;

/// No name twice.
pub open spec fn env_names_unique(s: EnvsV) -> bool {
    forall|i: int, j: int|
        0 <= i < s.len() && 0 <= j < s.len() && i != j ==> #[trigger] s[i].name != #[trigger] s[j].name
}

/// Some environment is named `name`.
pub open spec fn env_has(s: EnvsV, name: Seq<char>) -> bool {
    exists|i: int| 0 <= i < s.len() && #[trigger] s[i].name == name
}

/// Where the environment `name` stands.
pub open spec fn env_index(s: EnvsV, name: Seq<char>) -> int {
    choose|i: int| 0 <= i < s.len() && #[trigger] s[i].name == name
}

/// The environment named `name`.
pub open spec fn env_at(s: EnvsV, name: Seq<char>) -> Option<EnvDirV> {
    if env_has(s, name) {
        Some(s[env_index(s, name)])
    } else {
        None
    }
}

/// `d` in place of the environment of the same name, or added at the end.
pub open spec fn env_put(s: EnvsV, d: EnvDirV) -> EnvsV {
    if env_has(s, d.name) {
        s.update(env_index(s, d.name), d)
    } else {
        s.push(d)
    }
}

/// The environment `name` removed.
pub open spec fn env_remove(s: EnvsV, name: Seq<char>) -> EnvsV {
    if env_has(s, name) {
        s.remove(env_index(s, name))
    } else {
        s
    }
}

fn clone_opt_string(o: &Option<String>) -> (r: Option<String>)
    ensures
        opt_chars(r) == opt_chars(*o),
{
    match o {
        Some(s) => Some(s.clone()),
        None => None,
    }
}

/// Putting a directory and then another of the same name is putting the
/// second.
pub proof fn lemma_env_put_twice(s: EnvsV, d1: EnvDirV, d2: EnvDirV)
    requires
        env_names_unique(s),
        d1.name == d2.name,
    ensures
        env_put(env_put(s, d1), d2) == env_put(s, d2),
{
    let s1 = env_put(s, d1);
    if env_has(s, d1.name) {
        let i = env_index(s, d1.name);
        assert(s1[i].name == d1.name);
        assert(env_has(s1, d2.name));
        let j = env_index(s1, d2.name);
        assert(s1[j].name == d2.name);
        if j != i {
            assert(s[j].name == d1.name);
            assert(s[j].name != s[i].name);
        }
        assert(env_put(s1, d2) =~= s.update(i, d2));
    } else {
        assert(s1[s.len() as int].name == d1.name);
        assert(env_has(s1, d2.name));
        let j = env_index(s1, d2.name);
        if j != s.len() {
            assert(s[j].name == d1.name);
        }
        assert(env_put(s1, d2) =~= s.push(d2));
    }
}

impl EnvDir {
    /// A copy of the directory.
    pub fn clone_dir(&self) -> (r: EnvDir)
        ensures
            r@ == self@,
    {
        EnvDir {
            name: self.name.clone(),
            variables: clone_opt_string(&self.variables),
            headers: clone_opt_string(&self.headers),
        }
    }
}

/// The environment directories of a project, by name.
pub struct EnvStore {
    dirs: Vec<EnvDir>,
}

pub open spec fn env_dirs_view(v: Seq<EnvDir>) -> EnvsV {
    v.map_values(|d: EnvDir| d@)
}

impl View for EnvStore {
    type V = EnvsV;

    closed spec fn view(&self) -> EnvsV {
        env_dirs_view(self.dirs@)
    }
}

impl EnvStore {
    #[verifier::type_invariant]
    spec fn inv(self) -> bool {
        env_names_unique(self@)
    }

    /// The environment directories, in order.
    pub fn dirs(&self) -> (r: &Vec<EnvDir>)
        ensures
            env_dirs_view(r@) == self@,
    {
        &self.dirs
    }

    /// The names are unique.
    pub fn check_unique(&self)
        ensures
            env_names_unique(self@),
    {
        proof {
            use_type_invariant(self);
        }
    }

    /// No environment.
    pub fn new() -> (r: Self)
        ensures
            r@ == Seq::<EnvDirV>::empty(),
    {
        let r = EnvStore { dirs: Vec::new() };
        assert(r@ =~= Seq::<EnvDirV>::empty());
        r
    }

    /// Where the environment `name` stands.
    pub fn find(&self, name: &str) -> (r: Option<usize>)
        ensures
            r is Some == env_has(self@, name@),
            r matches Some(i) ==> i < self@.len() && self@[i as int].name == name@ && env_index(
                self@,
                name@,
            ) == i,
    {
        proof {
            use_type_invariant(self);
        }
        let mut i: usize = 0;
        while i < self.dirs.len()
            invariant
                i <= self.dirs.len(),
                self@ == env_dirs_view(self.dirs@),
                env_names_unique(self@),
                forall|j: int| 0 <= j < i ==> self@[j].name != name@,
            decreases self.dirs.len() - i,
        {
            assert(self@[i as int] == self.dirs@[i as int]@);
            if str_eq(self.dirs[i].name.as_str(), name) {
                proof {
                    assert(self@[i as int].name == name@);
                    let j = env_index(self@, name@);
                    assert(self@[j].name == name@);
                    if j != i {
                        assert(self@[j].name != self@[i as int].name);
                    }
                }
                return Some(i);
            }
            i = i + 1;
        }
        None
    }

    /// Whether the environment `name` exists.
    pub fn contains(&self, name: &str) -> (b: bool)
        ensures
            b == env_has(self@, name@),
    {
        self.find(name).is_some()
    }

    /// A copy of the environment `name`.
    pub fn get(&self, name: &str) -> (r: Option<EnvDir>)
        ensures
            match r {
                Some(d) => env_at(self@, name@) == Some(d@),
                None => env_at(self@, name@) is None,
            },
    {
        match self.find(name) {
            Some(i) => {
                assert(self@[i as int] == self.dirs@[i as int]@);
                Some(self.dirs[i].clone_dir())
            },
            None => None,
        }
    }

    /// Puts `d` in place of the environment of the same name, or adds it.
    pub fn put(&mut self, d: EnvDir)
        ensures
            final(self)@ == env_put(old(self)@, d@),
    {
        proof {
            use_type_invariant(&*self);
        }
        let ghost s0 = self@;
        let ghost dv = d@;
        let found = self.find(d.name.as_str());
        let mut dirs: Vec<EnvDir> = Vec::new();
        std::mem::swap(&mut dirs, &mut self.dirs);
        assert(env_dirs_view(dirs@) == s0);
        match found {
            Some(i) => {
                let _ = dirs.remove(i);
                dirs.insert(i, d);
                assert(env_dirs_view(dirs@) =~= s0.update(i as int, dv));
                proof {
                    let s1 = s0.update(i as int, dv);
                    assert forall|a: int, b: int|
                        0 <= a < s1.len() && 0 <= b < s1.len() && a != b implies #[trigger] s1[a].name
                        != #[trigger] s1[b].name by {
                        if a != i && b != i {
                            assert(s0[a].name != s0[b].name);
                        } else if a == i {
                            assert(s0[b].name != s0[i as int].name);
                        } else {
                            assert(s0[a].name != s0[i as int].name);
                        }
                    }
                }
            },
            None => {
                dirs.push(d);
                assert(env_dirs_view(dirs@) =~= s0.push(dv));
                proof {
                    let s1 = s0.push(dv);
                    assert forall|a: int, b: int|
                        0 <= a < s1.len() && 0 <= b < s1.len() && a != b implies #[trigger] s1[a].name
                        != #[trigger] s1[b].name by {
                        if a < s0.len() && b < s0.len() {
                            assert(s0[a].name != s0[b].name);
                        } else if a < s0.len() {
                            assert(s0[a].name == s1[a].name);
                        } else {
                            assert(s0[b].name == s1[b].name);
                        }
                    }
                }
            },
        }
        self.dirs = dirs;
    }

    /// Removes the environment `name`; whether it existed.
    pub fn remove(&mut self, name: &str) -> (b: bool)
        ensures
            b == env_has(old(self)@, name@),
            final(self)@ == env_remove(old(self)@, name@),
    {
        proof {
            use_type_invariant(&*self);
        }
        let ghost s0 = self@;
        match self.find(name) {
            Some(i) => {
                let mut dirs: Vec<EnvDir> = Vec::new();
                std::mem::swap(&mut dirs, &mut self.dirs);
                assert(env_dirs_view(dirs@) == s0);
                let _ = dirs.remove(i);
                assert(env_dirs_view(dirs@) =~= s0.remove(i as int));
                proof {
                    let s1 = s0.remove(i as int);
                    assert forall|a: int, b: int|
                        0 <= a < s1.len() && 0 <= b < s1.len() && a != b implies #[trigger] s1[a].name
                        != #[trigger] s1[b].name by {
                        let a0 = if a < i {
                            a
                        } else {
                            a + 1
                        };
                        let b0 = if b < i {
                            b
                        } else {
                            b + 1
                        };
                        assert(s0[a0].name != s0[b0].name);
                    }
                }
                self.dirs = dirs;
                true
            },
            None => false,
        }
    }

    /// The names of the environments, in order.
    pub fn names(&self) -> (r: Vec<String>)
        ensures
            r@.len() == self@.len(),
            forall|i: int| 0 <= i < r@.len() ==> #[trigger] r@[i]@ == self@[i].name,
    {
        let mut r: Vec<String> = Vec::new();
        let mut i: usize = 0;
        while i < self.dirs.len()
            invariant
                i <= self.dirs.len(),
                self@ == env_dirs_view(self.dirs@),
                r@.len() == i,
                forall|j: int| 0 <= j < i ==> #[trigger] r@[j]@ == self@[j].name,
            decreases self.dirs.len() - i,
        {
            assert(self@[i as int] == self.dirs@[i as int]@);
            r.push(self.dirs[i].name.clone());
            i = i + 1;
        }
        r
    }
}

/// A project: the `.quartz` directory and what it holds.
pub struct Quartz {
    /// The `.quartz` directory.
    pub path: String,
    /// Where the configuration is kept.
    pub config: ConfigManager,
    /// The directories under `endpoints`, with their endpoint and body files.
    pub endpoints: EndpointStore,
    /// The directories under `env`.
    pub envs: EnvStore,
    /// The files under `user/state`.
    pub state: StateFiles,
    /// The files under `user/history`.
    pub history: History,
}

/// `.quartz`.
pub open spec fn quartz_dir_name() -> Seq<char> {
    seq!['.', 'q', 'u', 'a', 'r', 't', 'z']
}

/// `default`.
pub open spec fn default_env_name() -> Seq<char> {
    seq!['d', 'e', 'f', 'a', 'u', 'l', 't']
}

impl Quartz {
    /// The `.quartz` directory.
    pub open spec fn path_view(&self) -> Seq<char> {
        self.path@
    }

    /// The configuration manager.
    pub open spec fn config_view(&self) -> ConfigManager {
        self.config
    }

    /// The project in `path`, whose `.quartz` directory holds nothing yet;
    /// the configuration is kept in `config_path`.
    pub fn new(path: &str, config_path: String) -> (r: Self)
        ensures
            r.path_view() == join_path(path@, quartz_dir_name()),
            r.config_view().mount_view()@ == config_path@,
            r.endpoints@ == Seq::<crate::store::NodeV>::empty(),
            r.envs@ == Seq::<EnvDirV>::empty(),
            forall|f: StateField| state_value(r.state, f) is None,
            r.history@ == Seq::<crate::history::HistoryFileV>::empty(),
            r.history.mount_view() == r.path_view(),
    {
        proof {
            reveal_strlit(".quartz");
        }
        let p = path_join(path, ".quartz");
        assert(".quartz"@ =~= quartz_dir_name());
        let history = History::with_files(p.clone(), Vec::new());
        assert(history@ =~= Seq::<crate::history::HistoryFileV>::empty());
        Quartz {
            path: p,
            config: ConfigManager::new(config_path),
            endpoints: EndpointStore::new(),
            envs: EnvStore::new(),
            state: StateFiles::new(),
            history,
        }
    }

    /// A new project in `path`: refused when its `.quartz` directory already
    /// exists; otherwise the endpoints directory exists and is empty, and the
    /// `default` environment exists without files.
    pub fn init(path: &str, config_path: String, already_exists: bool) -> (r: Result<Self>)
        ensures
            already_exists ==> r matches Err(Error::AlreadyInitialized),
            !already_exists ==> (r matches Ok(q) && q.path_view() == join_path(
                path@,
                quartz_dir_name(),
            ) && q.config_view().mount_view()@ == config_path@ && q.endpoints@ == seq![
                crate::store::empty_node(Seq::empty()),
            ] && q.envs@ == seq![
                EnvDirV { name: default_env_name(), variables: None, headers: None },
            ] && (forall|f: StateField| state_value(q.state, f) is None)
                && q.history@ == Seq::<crate::history::HistoryFileV>::empty()
                && q.history.mount_view() == q.path_view()),
    {
        if already_exists {
            return Err(Error::AlreadyInitialized);
        }
        let mut q = Self::new(path, config_path);
        let root: Vec<String> = Vec::new();
        assert(crate::text::views(root@) =~= Seq::<Seq<char>>::empty());
        q.endpoints.ensure_dir(&root);
        proof {
            let st0 = Seq::<crate::store::NodeV>::empty();
            let p = Seq::<Seq<char>>::empty();
            assert(p.take(0) =~= p);
            assert(!has_dir(st0, p));
            assert(crate::store::ensure_dir(st0, p) == crate::store::ensure_upto(st0, p, 0));
        }
        proof {
            reveal_strlit("default");
        }
        let d = EnvDir { name: String::from_str("default"), variables: None, headers: None };
        assert(d@.name =~= default_env_name());
        q.envs.put(d);
        assert(q.envs@ =~= seq![EnvDirV { name: default_env_name(), variables: None, headers: None }]);
        Ok(q)
    }

    /// The `.quartz` directory.
    pub fn path(&self) -> (r: &String)
        ensures
            r@ == self.path_view(),
    {
        &self.path
    }

    /// The configuration manager.
    pub fn config(&self) -> (r: &ConfigManager)
        ensures
            *r == self.config_view(),
    {
        &self.config
    }

    /// The history of the project.
    pub fn history(&self) -> (r: &History)
        ensures
            *r == self.history,
    {
        &self.history
    }

    /// The configuration manager, to change it.
    pub fn config_mut(&mut self) -> (r: &mut ConfigManager)
        ensures
            *r == old(self).config_view(),
            final(self).config_view() == *final(r),
            final(self).path_view() == old(self).path_view(),
            final(self).endpoints@ == old(self).endpoints@,
            final(self).envs@ == old(self).envs@,
            final(self).state == old(self).state,
    {
        &mut self.config
    }

    /// The directory of the state files: `<path>/user/state`.
    fn state_dir_path(&self) -> (r: String)
        ensures
            r@ == join_path(self.path_view(), state_dir()),
    {
        proof {
            reveal_strlit("user/state");
        }
        let d = path_join(self.path.as_str(), "user/state");
        assert("user/state"@ =~= state_dir());
        d
    }

    /// The file of a state field: `<path>/user/state/<name>`.
    pub fn state_file_path(&self, field: StateField) -> (r: String)
        ensures
            r@ == join_path(join_path(self.path_view(), state_dir()), state_file_name(field)),
    {
        let d = self.state_dir_path();
        let n = field.file_name();
        path_join(d.as_str(), n.as_str())
    }

    /// The content of the file of `field`; fails when the file does not exist.
    pub fn state_get(&self, field: StateField) -> (r: Result<String>)
        ensures
            match state_value(self.state, field) {
                Some(v) => r matches Ok(s) && s@ == v,
                None => r matches Err(Error::StateError(StateError::GetState)),
            },
    {
        let o = match field {
            StateField::Endpoint => &self.state.endpoint,
            StateField::PreviousEndpoint => &self.state.previous_endpoint,
            StateField::Env => &self.state.env,
        };
        match o {
            Some(v) => Ok(v.clone()),
            None => Err(Error::StateError(StateError::GetState)),
        }
    }

    /// Writes `value` to the file of `field`.
    pub fn state_set(&mut self, field: StateField, value: &str) -> (r: Result)
        ensures
            r is Ok,
            state_value(final(self).state, field) == Some(value@),
            forall|g: StateField|
                g != field ==> #[trigger] state_value(final(self).state, g) == state_value(
                    old(self).state,
                    g,
                ),
            final(self).endpoints@ == old(self).endpoints@,
            final(self).envs@ == old(self).envs@,
            final(self).path == old(self).path,
            final(self).config == old(self).config,
            final(self).history == old(self).history,
    {
        let v = value.to_owned();
        match field {
            StateField::Endpoint => {
                self.state.endpoint = Some(v);
            },
            StateField::PreviousEndpoint => {
                self.state.previous_endpoint = Some(v);
            },
            StateField::Env => {
                self.state.env = Some(v);
            },
        }
        Ok(())
    }
}

/// How a run of the program is asked to find its handle and environment.
pub struct CtxArgs {
    /// The handle to use in place of the one in use.
    pub from_handle: Option<String>,
    /// Whether the environment is applied before the action runs.
    pub early_apply_environment: bool,
}

/// What a run of the program uses in place of the state files: a handle
/// chosen on the command line replaces the endpoint in use.
pub struct State {
    pub handle: Option<String>,
    pub previous_handle: Option<String>,
}

impl State {
    /// The value of `field`: the handle chosen on the command line for the
    /// endpoint in use, else the content of the state file.
    pub fn get(&self, quartz: &Quartz, field: StateField) -> (r: Result<String>)
        ensures
            (field is Endpoint && self.handle is Some) ==> (r matches Ok(s) && s@
                == self.handle.unwrap()@),
            !(field is Endpoint && self.handle is Some) ==> match state_value(quartz.state, field) {
                Some(v) => r matches Ok(s) && s@ == v,
                None => r matches Err(Error::StateError(StateError::GetState)),
            },
    {
        let overwrite = match field {
            StateField::Endpoint => match &self.handle {
                Some(h) => Some(h.clone()),
                None => None,
            },
            _ => None,
        };
        match overwrite {
            Some(o) => Ok(o),
            None => quartz.state_get(field),
        }
    }
}

} // verus!
