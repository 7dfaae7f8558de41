//! `init`: a new project.

use vstd::prelude::*;

use crate::error::{Error, Result};
use crate::project::{
    default_env_name, join_path, quartz_dir_name, state_value, EnvDirV, Quartz, StateField,
};

verus! {

/// The arguments of `init`.
pub struct Args {
    pub directory: Option<String>,
}

/// The directory `init` works in: the one given, else `.`.
pub open spec fn init_directory(d: Option<String>) -> Seq<char> {
    match d {
        Some(x) => x@,
        None => seq!['.'],
    }
}

/// `init`: a new project in the directory given (else `.`), its
/// configuration kept in `config_path`; refused when the project's `.quartz`
/// directory already exists.
pub fn cmd(args: Args, config_path: String, already_exists: bool) -> (r: Result<Quartz>)
    ensures
        already_exists ==> r matches Err(Error::AlreadyInitialized),
        !already_exists ==> (r matches Ok(q) && q.path_view() == join_path(
            init_directory(args.directory),
            quartz_dir_name(),
        ) && q.config_view().mount_view()@ == config_path@ && q.endpoints@ == seq![
            crate::store::empty_node(Seq::empty()),
        ] && q.envs@ == seq![
            EnvDirV { name: default_env_name(), variables: None, headers: None },
        ] && (forall|f: StateField| state_value(q.state, f) is None)
            && q.history@ == Seq::<crate::history::HistoryFileV>::empty()),
{
    let directory = match args.directory {
        Some(d) => d,
        None => {
            proof {
                reveal_strlit(".");
            }
            let d = String::from_str(".");
            assert(d@ =~= seq!['.']);
            d
        },
    };
    Quartz::init(directory.as_str(), config_path, already_exists)
}

/// The directories that `init` creates inside `.quartz`, in order.
pub open spec fn init_dirs_spec() -> Seq<Seq<char>> {
    seq![
        seq!['e', 'n', 'd', 'p', 'o', 'i', 'n', 't', 's'],
        seq!['u', 's', 'e', 'r'],
        seq!['u', 's', 'e', 'r', '/', 'h', 'i', 's', 't', 'o', 'r', 'y'],
        seq!['u', 's', 'e', 'r', '/', 's', 't', 'a', 't', 'e'],
        seq!['e', 'n', 'v'],
        seq!['e', 'n', 'v', '/', 'd', 'e', 'f', 'a', 'u', 'l', 't'],
    ]
}

/// The directories that `init` creates inside `.quartz`, each after its
/// parent: `endpoints`, `user`, `user/history`, `user/state`, `env` and
/// `env/default`.
pub fn init_dirs() -> (r: Vec<String>)
    ensures
        crate::text::views(r@) == init_dirs_spec(),
{
    proof {
        reveal_strlit("endpoints");
        reveal_strlit("user");
        reveal_strlit("user/history");
        reveal_strlit("user/state");
        reveal_strlit("env");
        reveal_strlit("env/default");
    }
    let mut r: Vec<String> = Vec::new();
    r.push(String::from_str("endpoints"));
    r.push(String::from_str("user"));
    r.push(String::from_str("user/history"));
    r.push(String::from_str("user/state"));
    r.push(String::from_str("env"));
    r.push(String::from_str("env/default"));
    assert(r@[0]@ =~= init_dirs_spec()[0]);
    assert(r@[1]@ =~= init_dirs_spec()[1]);
    assert(r@[2]@ =~= init_dirs_spec()[2]);
    assert(r@[3]@ =~= init_dirs_spec()[3]);
    assert(r@[4]@ =~= init_dirs_spec()[4]);
    assert(r@[5]@ =~= init_dirs_spec()[5]);
    assert(crate::text::views(r@) =~= init_dirs_spec());
    r
}

/// What `init` appends to the `.gitignore` of a git repository.
pub open spec fn gitignore_spec() -> Seq<char> {
    seq!['\n', '#', ' ', 'Q', 'u', 'a', 'r', 't', 'z', '\n'] + seq![
        '.', 'q', 'u', 'a', 'r', 't', 'z', '/', 'u', 's', 'e', 'r', '\n',
    ] + seq![
        '.', 'q', 'u', 'a', 'r', 't', 'z', '/', 'e', 'n', 'v', '/', '*', '*', '/', 'c', 'o', 'o',
        'k', 'i', 'e', 's',
    ]
}

/// What `init` appends to the `.gitignore` of a git repository: a `# Quartz`
/// section ignoring `.quartz/user` and the cookies of the environments.
pub fn gitignore_text() -> (r: String)
    ensures
        r@ == gitignore_spec(),
{
    proof {
        reveal_strlit("\n# Quartz\n.quartz/user\n.quartz/env/**/cookies");
    }
    let r = String::from_str("\n# Quartz\n.quartz/user\n.quartz/env/**/cookies");
    assert(r@ =~= gitignore_spec());
    r
}

} // verus!
