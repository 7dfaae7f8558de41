//! `var`: the variables of the environment in use.

use vstd::prelude::*;

use crate::action::{CliError, CliResult};
use crate::env::{remove_all, var_sep};
use crate::envs::{current_env_name, read_env, saved_dir};
use crate::error::Error;
use crate::pairmap::{pm_get, pm_insert, render};
use crate::project::{env_put, Quartz};
use crate::text::views;

verus! {

/// The arguments of `var get`.
pub struct GetArgs {
    pub key: String,
}

/// The arguments of `var set`.
pub struct SetArgs {
    pub key: String,
    pub value: String,
}

/// The arguments of `var rm`.
pub struct RmArgs {
    pub keys: Vec<String>,
}

/// `var get`: the value of the variable `key`, or nothing. Fails when the
/// environment cannot be read.
pub fn get(q: &Quartz, args: &GetArgs) -> (r: CliResult<String>)
    ensures
        match read_env(q.envs@, current_env_name(q.state)) {
            None => r matches Err(CliError::Quartz(Error::KeymapSet)),
            Some((vars, _)) => r matches Ok(s) && s@ == match pm_get(vars, args.key@) {
                Some(v) => v,
                None => Seq::<char>::empty(),
            },
        },
{
    let curr_env = q.current_env().unwrap();
    let env = match curr_env.read(q) {
        Ok(e) => e,
        Err(e) => {
            return Err(CliError::Quartz(e));
        },
    };
    match env.var_get(args.key.as_str()) {
        Some(v) => Ok(v),
        None => Ok(String::new()),
    }
}

/// `var set`: the variable set and the environment saved. Fails when the
/// environment cannot be read.
pub fn set(q: &mut Quartz, args: SetArgs) -> (r: CliResult)
    ensures
        match read_env(old(q).envs@, current_env_name(old(q).state)) {
            None => (r matches Err(CliError::Quartz(Error::KeymapSet))) && final(q).envs@ == old(
                q,
            ).envs@,
            Some((vars, headers)) => r is Ok && final(q).envs@ == env_put(
                old(q).envs@,
                saved_dir(
                    current_env_name(old(q).state),
                    pm_insert(vars, args.key@, args.value@),
                    headers,
                ),
            ),
        },
        final(q).state == old(q).state,
        final(q).endpoints@ == old(q).endpoints@,
{
    let curr_env = q.current_env().unwrap();
    let mut env = match curr_env.read(q) {
        Ok(e) => e,
        Err(e) => {
            return Err(CliError::Quartz(e));
        },
    };
    let _ = env.var_set(args.key, args.value);
    let _ = curr_env.save(q, &env);
    Ok(())
}

/// `var rm`: the variables removed in turn and the environment saved. Fails
/// when the environment cannot be read or a variable does not exist, saving
/// nothing.
pub fn rm(q: &mut Quartz, args: RmArgs) -> (r: CliResult)
    ensures
        match read_env(old(q).envs@, current_env_name(old(q).state)) {
            None => (r matches Err(CliError::Quartz(Error::KeymapSet))) && final(q).envs@ == old(
                q,
            ).envs@,
            Some((vars, headers)) => {
                let (left, ok) = remove_all(vars, views(args.keys@));
                if ok {
                    r is Ok && final(q).envs@ == env_put(
                        old(q).envs@,
                        saved_dir(current_env_name(old(q).state), left, headers),
                    )
                } else {
                    (r matches Err(CliError::Quartz(Error::RemoveHeader))) && final(q).envs@ == old(
                        q,
                    ).envs@
                }
            },
        },
        final(q).state == old(q).state,
        final(q).endpoints@ == old(q).endpoints@,
{
    let curr_env = q.current_env().unwrap();
    let mut env = match curr_env.read(q) {
        Ok(e) => e,
        Err(e) => {
            return Err(CliError::Quartz(e));
        },
    };
    match env.var_rm(args.keys) {
        Ok(()) => {},
        Err(e) => {
            return Err(CliError::Quartz(e));
        },
    }
    let _ = curr_env.save(q, &env);
    Ok(())
}

/// `var ls`: the variables, one `name=value` line each. Fails when the
/// environment cannot be read.
pub fn ls(q: &Quartz) -> (r: CliResult<String>)
    ensures
        match read_env(q.envs@, current_env_name(q.state)) {
            None => r matches Err(CliError::Quartz(Error::KeymapSet)),
            Some((vars, _)) => r matches Ok(s) && s@ == render(vars, var_sep()),
        },
{
    let curr_env = q.current_env().unwrap();
    let env = match curr_env.read(q) {
        Ok(e) => e,
        Err(e) => {
            return Err(CliError::Quartz(e));
        },
    };
    Ok(env.vars().to_string())
}

} // verus!
