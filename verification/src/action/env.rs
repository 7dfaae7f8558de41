//! `env`: the environments of a project, and the headers of the one in use.

use vstd::prelude::*;

use crate::action::{remove_keys, CliError, CliResult};
use crate::envs::{current_env_name, read_env, saved_dir};
use crate::error::Error;
use crate::headers::header_sep;
use crate::pairmap::{pm_get, pm_insert, render};
use crate::project::{env_put, Quartz};
use crate::text::{concat, views};

verus! {

/// The arguments of `env create`.
pub struct CreateArgs {
    pub name: String,
}

/// The arguments of `env cp`.
pub struct CpArgs {
    pub src: String,
    pub dest: String,
}

/// The arguments of `env use`.
pub struct SwitchArgs {
    pub env: String,
}

/// The arguments of `env rm`.
pub struct RmArgs {
    pub env: String,
}

/// `env ls`: the names of the environments, one per line.
pub open spec fn names_text(names: Seq<Seq<char>>) -> Seq<char>
    decreases names.len(),
{
    if names.len() == 0 {
        Seq::empty()
    } else {
        names_text(names.drop_last()) + names.last() + seq!['\n']
    }
}

/// `env ls`: the names of the environments, one per line.
pub fn ls(q: &Quartz) -> (r: CliResult<String>)
    ensures
        r matches Ok(s) && s@ == names_text(q.envs@.map_values(|d: crate::project::EnvDirV| d.name)),
{
    let names = q.envs().unwrap();
    let ghost target = q.envs@.map_values(|d: crate::project::EnvDirV| d.name);
    let mut out = String::new();
    let mut i: usize = 0;
    while i < names.len()
        invariant
            i <= names.len(),
            names@.len() == q.envs@.len(),
            target == q.envs@.map_values(|d: crate::project::EnvDirV| d.name),
            forall|k: int| 0 <= k < names@.len() ==> #[trigger] names@[k]@ == q.envs@[k].name,
            out@ == names_text(target.take(i as int)),
        decreases names.len() - i,
    {
        proof {
            reveal_strlit("\n");
        }
        assert(target.take(i + 1).drop_last() =~= target.take(i as int));
        assert(target.take(i + 1).last() == names@[i as int]@);
        out.append(names[i].as_str());
        out.append("\n");
        assert(out@ =~= names_text(target.take(i + 1)));
        i = i + 1;
    }
    assert(target.take(names.len() as int) =~= target);
    Ok(out)
}

/// `env ls` lists every environment: its output is the names joined by line
/// breaks, with a line break after the last; where no name holds a line
/// break, its lines are exactly the names, in order, then the empty rest.
pub proof fn law_env_ls_lists_every_name(names: Seq<Seq<char>>)
    ensures
        names_text(names) == crate::text::join(names.push(Seq::empty()), seq!['\n']),
        (forall|i: int| 0 <= i < names.len() ==> !(#[trigger] names[i]).contains('\n'))
            ==> crate::text::split_char(names_text(names), '\n') == names.push(Seq::empty()),
    decreases names.len(),
{
    let e = Seq::<char>::empty();
    if names.len() == 0 {
        assert(names.push(e) =~= seq![e]);
    } else {
        let init = names.drop_last();
        law_env_ls_lists_every_name(init);
        let p = names.push(e);
        assert(p.drop_last() =~= names);
        assert(init.push(e).drop_last() =~= init);
        if init.len() == 0 {
            assert(names =~= seq![names.last()]);
            assert(crate::text::join(names, seq!['\n']) == names.last());
        } else {
            assert(names.drop_last() =~= init);
            assert(crate::text::join(init.push(e), seq!['\n']) == crate::text::join(init, seq!['\n'])
                + seq!['\n'] + e);
        }
        assert(p.last() == e);
        assert(crate::text::join(p, seq!['\n']) == crate::text::join(names, seq!['\n']) + seq!['\n']
            + e);
        if init.len() > 0 {
            assert(crate::text::join(names, seq!['\n']) == crate::text::join(init, seq!['\n'])
                + seq!['\n'] + names.last());
        }
        assert(names_text(names) =~= crate::text::join(p, seq!['\n']));
    }
    if forall|i: int| 0 <= i < names.len() ==> !(#[trigger] names[i]).contains('\n') {
        let p = names.push(e);
        assert forall|i: int| 0 <= i < p.len() implies !(#[trigger] p[i]).contains('\n') by {
            if i < names.len() {
                assert(p[i] == names[i]);
            }
        }
        crate::text::lemma_split_char_join(p, '\n');
    }
}

/// `env header set`: the header set in the environment in use, which is
/// saved; prints what is set. Fails when the environment cannot be read.
pub fn header_set(q: &mut Quartz, name: String, value: String) -> (r: CliResult<String>)
    ensures
        match read_env(old(q).envs@, current_env_name(old(q).state)) {
            None => (r matches Err(CliError::Quartz(Error::KeymapSet))) && final(q).envs@ == old(
                q,
            ).envs@,
            Some((vars, headers)) => (r matches Ok(s) && s@ == seq!['S', 'e', 't', 't', 'i', 'n', 'g', ' ']
                + name@ + seq![' ', 't', 'o', ' '] + value@ + seq!['\n']) && final(q).envs@
                == env_put(
                old(q).envs@,
                saved_dir(current_env_name(old(q).state), vars, pm_insert(headers, name@, value@)),
            ),
        },
        final(q).state == old(q).state,
        final(q).endpoints@ == old(q).endpoints@,
{
    let curr_env = q.current_env().unwrap();
    let mut env = match curr_env.read(q) {
        Ok(e) => e,
        Err(e) => {
            return Err(CliError::Quartz(e));
        },
    };
    proof {
        reveal_strlit("Setting ");
        reveal_strlit(" to ");
        reveal_strlit("\n");
    }
    let mut msg = String::from_str("Setting ");
    msg.append(name.as_str());
    msg.append(" to ");
    msg.append(value.as_str());
    msg.append("\n");
    let _ = env.header_set(name, value);
    let _ = curr_env.save(q, &env);
    Ok(msg)
}

/// `env header ls`: the headers of the environment in use, one `name: value`
/// line each, then a line break. Fails when the environment cannot be read.
pub fn header_ls(q: &Quartz) -> (r: CliResult<String>)
    ensures
        match read_env(q.envs@, current_env_name(q.state)) {
            None => r matches Err(CliError::Quartz(Error::KeymapSet)),
            Some((_, headers)) => r matches Ok(s) && s@ == render(headers, header_sep()) + seq!['\n'],
        },
{
    let curr_env = q.current_env().unwrap();
    let env = match curr_env.read(q) {
        Ok(e) => e,
        Err(e) => {
            return Err(CliError::Quartz(e));
        },
    };
    proof {
        reveal_strlit("\n");
    }
    let s = env.headers.to_string();
    Ok(concat(s.as_str(), "\n"))
}

/// `env header rm`: the headers removed from the environment in use, which
/// is saved after each (not at all when no header is given). Fails when the
/// environment cannot be read.
pub fn header_rm(q: &mut Quartz, keys: Vec<String>) -> (r: CliResult)
    ensures
        match read_env(old(q).envs@, current_env_name(old(q).state)) {
            None => (r matches Err(CliError::Quartz(Error::KeymapSet))) && final(q).envs@ == old(
                q,
            ).envs@,
            Some((vars, headers)) => r is Ok && final(q).envs@ == if keys@.len() == 0 {
                old(q).envs@
            } else {
                env_put(
                    old(q).envs@,
                    saved_dir(
                        current_env_name(old(q).state),
                        vars,
                        remove_keys(headers, views(keys@)),
                    ),
                )
            },
        },
        final(q).state == old(q).state,
        final(q).endpoints@ == old(q).endpoints@,
{
    let curr_env = q.current_env().unwrap();
    let mut env = match curr_env.read(q) {
        Ok(e) => e,
        Err(e) => {
            return Err(CliError::Quartz(e));
        },
    };
    q.envs.check_unique();
    let ghost vars = env.variables@;
    let ghost h0 = env.headers@;
    let ghost envs0 = q.envs@;
    let ghost name = curr_env.name@;
    let mut i: usize = 0;
    assert(views(keys@).take(0) =~= Seq::<Seq<char>>::empty());
    while i < keys.len()
        invariant
            i <= keys.len(),
            env.variables@ == vars,
            env.headers@ == remove_keys(h0, views(keys@).take(i as int)),
            curr_env.name@ == name,
            q.state == old(q).state,
            q.endpoints@ == old(q).endpoints@,
            i == 0 ==> q.envs@ == envs0,
            crate::project::env_names_unique(envs0),
            i > 0 ==> q.envs@ == env_put(envs0, saved_dir(name, vars, env.headers@)),
        decreases keys.len() - i,
    {
        assert(views(keys@).take(i + 1).drop_last() =~= views(keys@).take(i as int));
        assert(views(keys@).take(i + 1).last() == keys@[i as int]@);
        let _ = env.header_rm(keys[i].as_str());
        proof {
            if i > 0 {
                crate::project::lemma_env_put_twice(
                    envs0,
                    saved_dir(name, vars, remove_keys(h0, views(keys@).take(i as int))),
                    saved_dir(name, vars, env.headers@),
                );
            }
        }
        let _ = curr_env.save(q, &env);
        i = i + 1;
    }
    assert(views(keys@).take(keys.len() as int) =~= views(keys@));
    Ok(())
}

/// `env header get`: the value of the header of the environment in use,
/// followed by a line break, or nothing. Fails when the environment cannot be
/// read.
pub fn header_get(q: &Quartz, key: &str) -> (r: CliResult<String>)
    ensures
        match read_env(q.envs@, current_env_name(q.state)) {
            None => r matches Err(CliError::Quartz(Error::KeymapSet)),
            Some((_, headers)) => r matches Ok(s) && s@ == match pm_get(headers, key@) {
                Some(v) => v + seq!['\n'],
                None => Seq::<char>::empty(),
            },
        },
{
    let curr_env = q.current_env().unwrap();
    let env = match curr_env.read(q) {
        Ok(e) => e,
        Err(e) => {
            return Err(CliError::Quartz(e));
        },
    };
    proof {
        reveal_strlit("\n");
    }
    match env.header_get(key) {
        Ok(v) => Ok(concat(v.as_str(), "\n")),
        Err(_) => Ok(String::new()),
    }
}

} // verus!
