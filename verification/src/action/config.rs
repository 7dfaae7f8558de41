//! `config`: reading and setting the configuration.

use vstd::prelude::*;

use crate::action::{CliError, CliResult};
use crate::config::{colors_key, editor_key, first_set, less, pager_key, spec_colors, vim, ProcessEnv, true_text, false_text};
use crate::error::{ConfigError, Error};
use crate::project::Quartz;
use crate::store::opt_string_view;
use crate::text::concat;

verus! {

/// The arguments of `config get`.
pub struct GetArgs {
    pub key: String,
}

/// The arguments of `config set`.
pub struct SetArgs {
    pub key: String,
    pub value: String,
}

/// `config get`: the value of the key, followed by a line break; any key
/// but `preferences.editor`, `preferences.pager` and `ui.colors` is refused.
pub fn get(q: &Quartz, args: &GetArgs, env: &ProcessEnv) -> (r: CliResult<String>)
    ensures
        args.key@ == editor_key() ==> (r matches Ok(v) && v@ == first_set(
            q.config.config_view().preferences.editor,
            env.editor,
            vim(),
        ) + seq!['\n']),
        args.key@ == pager_key() ==> (r matches Ok(v) && v@ == first_set(
            q.config.config_view().preferences.pager,
            env.pager,
            less(),
        ) + seq!['\n']),
        args.key@ == colors_key() ==> (r matches Ok(v) && v@ == (if spec_colors(
            &q.config.config_view().ui,
            env,
        ) {
            true_text()
        } else {
            false_text()
        }) + seq!['\n']),
        args.key@ != editor_key() && args.key@ != pager_key() && args.key@ != colors_key() ==> (r matches Err(
            CliError::Quartz(Error::ConfigErr(ConfigError::InvalidConfigKey(k))),
        ) && k@ == args.key@),
{
    let value = match q.config().get(args.key.as_str(), env) {
        Ok(v) => v,
        Err(e) => {
            return Err(CliError::Quartz(e));
        },
    };
    proof {
        reveal_strlit("\n");
    }
    Ok(concat(value.as_str(), "\n"))
}

/// `config set`: sets the key as `ConfigManager::set` does.
pub fn set(q: &mut Quartz, args: &SetArgs) -> (r: CliResult)
    ensures
        final(q).config.mount_view() == old(q).config.mount_view(),
        args.key@ == editor_key() ==> r is Ok && final(q).config.config_view().preferences.editor is Some
            && final(q).config.config_view().preferences.editor.unwrap()@ == args.value@
            && opt_string_view(final(q).config.config_view().preferences.pager) == opt_string_view(
            old(q).config.config_view().preferences.pager,
        ) && final(q).config.config_view().ui.colors == old(q).config.config_view().ui.colors,
        args.key@ == pager_key() ==> r is Ok && final(q).config.config_view().preferences.pager is Some
            && final(q).config.config_view().preferences.pager.unwrap()@ == args.value@
            && opt_string_view(final(q).config.config_view().preferences.editor) == opt_string_view(
            old(q).config.config_view().preferences.editor,
        ) && final(q).config.config_view().ui.colors == old(q).config.config_view().ui.colors,
        args.key@ == colors_key() ==> r is Ok && final(q).config.config_view().ui.colors == Some(
            args.value@ == true_text(),
        ) && opt_string_view(final(q).config.config_view().preferences.editor) == opt_string_view(
            old(q).config.config_view().preferences.editor,
        ) && opt_string_view(final(q).config.config_view().preferences.pager) == opt_string_view(
            old(q).config.config_view().preferences.pager,
        ),
        args.key@ != editor_key() && args.key@ != pager_key() && args.key@ != colors_key() ==> (r matches Err(
            CliError::Quartz(Error::ConfigErr(ConfigError::InvalidConfigKey(k))),
        ) && k@ == args.key@) && final(q).config.config_view() == old(q).config.config_view(),
        final(q).endpoints@ == old(q).endpoints@,
        final(q).envs@ == old(q).envs@,
        final(q).state == old(q).state,
{
    match q.config_mut().set(args.key.as_str(), args.value.as_str()) {
        Ok(()) => Ok(()),
        Err(e) => Err(CliError::Quartz(e)),
    }
}

} // verus!
