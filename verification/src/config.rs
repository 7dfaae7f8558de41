//! User configuration: preferred editor and pager, and whether to use colors.

use vstd::prelude::*;

use crate::error::{ConfigError, Error, Result};
use crate::store::opt_string_view;
use crate::text::{concat, str_eq};

verus! {

/// What the configuration reads from the process environment:
/// `EDITOR`, `PAGER`, whether `NO_COLOR` is set, `CLICOLOR_FORCE` and `CLICOLOR`.
pub struct ProcessEnv {
    pub editor: Option<String>,
    pub pager: Option<String>,
    pub no_color: bool,
    pub clicolor_force: Option<String>,
    pub clicolor: Option<String>,
}

/// Preferred programs.
pub struct Preferences {
    pub editor: Option<String>,
    pub pager: Option<String>,
}

/// Display settings.
pub struct UiConfig {
    pub colors: Option<bool>,
}

/// The whole configuration.
pub struct Config {
    pub preferences: Preferences,
    pub ui: UiConfig,
}

/// `vim`.
pub open spec fn vim() -> Seq<char> {
    seq!['v', 'i', 'm']
}

/// `less`.
pub open spec fn less() -> Seq<char> {
    seq!['l', 'e', 's', 's']
}

/// The first of the values that is set, else `default`.
pub open spec fn first_set(a: Option<String>, b: Option<String>, default: Seq<char>) -> Seq<char> {
    match a {
        Some(x) => x@,
        None => match b {
            Some(y) => y@,
            None => default,
        },
    }
}

/// Whether the value of a `CLICOLOR` variable is `0`.
pub open spec fn is_zero(v: Seq<char>) -> bool {
    v == seq!['0']
}

/// Whether colors are used.
pub open spec fn spec_colors(ui: &UiConfig, env: &ProcessEnv) -> bool {
    if env.no_color {
        false
    } else if env.clicolor_force is Some {
        is_zero(env.clicolor_force.unwrap()@)
    } else if env.clicolor is Some {
        is_zero(env.clicolor.unwrap()@)
    } else if ui.colors is Some {
        ui.colors.unwrap()
    } else {
        true
    }
}

fn clone_opt(o: &Option<String>) -> (r: Option<String>)
    ensures
        opt_string_view(r) == opt_string_view(*o),
{
    match o {
        Some(s) => Some(s.clone()),
        None => None,
    }
}

impl Default for Preferences {
    fn default() -> (r: Self)
        ensures
            r.editor is None,
            r.pager is None,
    {
        Preferences { editor: None, pager: None }
    }
}

impl Preferences {
    /// The configured editor, else `EDITOR`, else `vim`.
    pub fn editor(&self, env: &ProcessEnv) -> (r: String)
        ensures
            r@ == first_set(self.editor, env.editor, vim()),
    {
        match &self.editor {
            Some(e) => e.clone(),
            None => match &env.editor {
                Some(e) => e.clone(),
                None => {
                    proof {
                        reveal_strlit("vim");
                    }
                    let r = String::from_str("vim");
                    assert(r@ =~= vim());
                    r
                },
            },
        }
    }

    pub fn set_editor(&mut self, editor: String)
        ensures
            final(self).editor == Some(editor),
            final(self).pager == old(self).pager,
    {
        self.editor = Some(editor);
    }

    /// The configured pager, else `PAGER`, else `less`.
    pub fn pager(&self, env: &ProcessEnv) -> (r: String)
        ensures
            r@ == first_set(self.pager, env.pager, less()),
    {
        match &self.pager {
            Some(p) => p.clone(),
            None => match &env.pager {
                Some(p) => p.clone(),
                None => {
                    proof {
                        reveal_strlit("less");
                    }
                    let r = String::from_str("less");
                    assert(r@ =~= less());
                    r
                },
            },
        }
    }

    pub fn set_pager(&mut self, pager: String)
        ensures
            final(self).pager == Some(pager),
            final(self).editor == old(self).editor,
    {
        self.pager = Some(pager);
    }
}

impl Default for UiConfig {
    fn default() -> (r: Self)
        ensures
            r.colors is None,
    {
        UiConfig { colors: None }
    }
}

impl UiConfig {
    /// Whether to use colors: never with `NO_COLOR`; else as `CLICOLOR_FORCE`
    /// or `CLICOLOR` say (`0` turns them on); else as configured; else yes.
    pub fn colors(&self, env: &ProcessEnv) -> (r: bool)
        ensures
            r == spec_colors(self, env),
    {
        proof {
            reveal_strlit("0");
            assert("0"@ =~= seq!['0']);
        }
        if env.no_color {
            false
        } else if let Some(v) = &env.clicolor_force {
            str_eq(v.as_str(), "0")
        } else if let Some(v) = &env.clicolor {
            str_eq(v.as_str(), "0")
        } else if let Some(c) = self.colors {
            c
        } else {
            true
        }
    }

    pub fn set_colors(&mut self, colors: bool)
        ensures
            final(self).colors == Some(colors),
    {
        self.colors = Some(colors);
    }
}

impl Default for Config {
    fn default() -> (r: Self)
        ensures
            r.preferences.editor is None,
            r.preferences.pager is None,
            r.ui.colors is None,
    {
        Config { preferences: Preferences::default(), ui: UiConfig::default() }
    }
}

/// `.quartz.toml`.
pub open spec fn config_filename() -> Seq<char> {
    seq!['.', 'q', 'u', 'a', 'r', 't', 'z', '.', 't', 'o', 'm', 'l']
}

/// The configuration keys.
pub open spec fn editor_key() -> Seq<char> {
    seq!['p', 'r', 'e', 'f', 'e', 'r', 'e', 'n', 'c', 'e', 's', '.', 'e', 'd', 'i', 't', 'o', 'r']
}

pub open spec fn pager_key() -> Seq<char> {
    seq!['p', 'r', 'e', 'f', 'e', 'r', 'e', 'n', 'c', 'e', 's', '.', 'p', 'a', 'g', 'e', 'r']
}

pub open spec fn colors_key() -> Seq<char> {
    seq!['u', 'i', '.', 'c', 'o', 'l', 'o', 'r', 's']
}

pub open spec fn true_text() -> Seq<char> {
    seq!['t', 'r', 'u', 'e']
}

pub open spec fn false_text() -> Seq<char> {
    seq!['f', 'a', 'l', 's', 'e']
}

impl Config {
    /// `.quartz.toml`.
    pub fn filename() -> (r: String)
        ensures
            r@ == config_filename(),
    {
        proof {
            reveal_strlit(".quartz.toml");
        }
        let r = String::from_str(".quartz.toml");
        assert(r@ =~= config_filename());
        r
    }

    /// The configuration file in the directory `mount_path`.
    pub fn filepath(mount_path: &str) -> (r: String)
        ensures
            r@ == mount_path@ + seq!['/'] + config_filename(),
    {
        proof {
            reveal_strlit("/");
        }
        let a = concat(mount_path, "/");
        let f = Self::filename();
        concat(a.as_str(), f.as_str())
    }

    /// A copy of the configuration.
    pub fn clone_config(&self) -> (r: Config)
        ensures
            opt_string_view(r.preferences.editor) == opt_string_view(self.preferences.editor),
            opt_string_view(r.preferences.pager) == opt_string_view(self.preferences.pager),
            r.ui.colors == self.ui.colors,
    {
        Config {
            preferences: Preferences {
                editor: clone_opt(&self.preferences.editor),
                pager: clone_opt(&self.preferences.pager),
            },
            ui: UiConfig { colors: self.ui.colors },
        }
    }
}

/// The configuration of a user, kept in a directory.
pub struct ConfigManager {
    mount_path: String,
    config: Config,
}

impl ConfigManager {
    /// A manager for the directory `mount_path`, with the default configuration.
    pub fn new(mount_path: String) -> (r: Self)
        ensures
            r.mount_view()@ == mount_path@,
            r.config_view().preferences.editor is None,
            r.config_view().preferences.pager is None,
            r.config_view().ui.colors is None,
    {
        ConfigManager { mount_path, config: Config::default() }
    }

    /// A manager for the directory `mount_path`, holding `config`.
    pub fn with_config(mount_path: String, config: Config) -> (r: Self)
        ensures
            r.mount_view()@ == mount_path@,
            r.config_view() == config,
    {
        ConfigManager { mount_path, config }
    }

    pub closed spec fn mount_view(&self) -> String {
        self.mount_path
    }

    pub closed spec fn config_view(&self) -> Config {
        self.config
    }

    /// A copy of the configuration.
    pub fn parse(&self) -> (r: Config)
        ensures
            opt_string_view(r.preferences.editor) == opt_string_view(
                self.config_view().preferences.editor,
            ),
            opt_string_view(r.preferences.pager) == opt_string_view(self.config_view().preferences.pager),
            r.ui.colors == self.config_view().ui.colors,
    {
        self.config.clone_config()
    }

    /// Replaces the configuration.
    pub fn save(&mut self, conf: Config) -> (r: Result)
        ensures
            r is Ok,
            final(self).config_view() == conf,
            final(self).mount_view() == old(self).mount_view(),
    {
        self.config = conf;
        Ok(())
    }

    /// Sets `preferences.editor`, `preferences.pager` or `ui.colors` (on only
    /// for `true`); any other key is refused.
    pub fn set(&mut self, key: &str, value: &str) -> (r: Result)
        ensures
            final(self).mount_view() == old(self).mount_view(),
            key@ == editor_key() ==> r is Ok && final(self).config_view().preferences.editor is Some && final(self).config_view().preferences.editor.unwrap()@ == value@
                && opt_string_view(final(self).config_view().preferences.pager) == opt_string_view(
                old(self).config_view().preferences.pager,
            ) && final(self).config_view().ui.colors == old(self).config_view().ui.colors,
            key@ == pager_key() ==> r is Ok && final(self).config_view().preferences.pager is Some
                && final(self).config_view().preferences.pager.unwrap()@ == value@ && opt_string_view(
                final(self).config_view().preferences.editor,
            ) == opt_string_view(old(self).config_view().preferences.editor)
                && final(self).config_view().ui.colors == old(self).config_view().ui.colors,
            key@ == colors_key() ==> r is Ok && final(self).config_view().ui.colors == Some(value@
                == true_text()) && opt_string_view(final(self).config_view().preferences.editor)
                == opt_string_view(old(self).config_view().preferences.editor) && opt_string_view(
                final(self).config_view().preferences.pager,
            ) == opt_string_view(old(self).config_view().preferences.pager),
            key@ != editor_key() && key@ != pager_key() && key@ != colors_key() ==> (r matches Err(
                Error::ConfigErr(ConfigError::InvalidConfigKey(k)),
            ) && k@ == key@) && final(self).config_view() == old(self).config_view(),
    {
        proof {
            reveal_strlit("preferences.editor");
            reveal_strlit("preferences.pager");
            reveal_strlit("ui.colors");
            reveal_strlit("true");
            assert("preferences.editor"@ =~= editor_key());
            assert("preferences.pager"@ =~= pager_key());
            assert("ui.colors"@ =~= colors_key());
            assert("true"@ =~= true_text());
        }
        let mut curr_config = self.parse();
        if str_eq(key, "preferences.editor") {
            curr_config.preferences.set_editor(value.to_owned());
        } else if str_eq(key, "preferences.pager") {
            curr_config.preferences.set_pager(value.to_owned());
        } else if str_eq(key, "ui.colors") {
            curr_config.ui.set_colors(str_eq(value, "true"));
        } else {
            return Err(Error::ConfigErr(ConfigError::InvalidConfigKey(key.to_owned())));
        }
        self.save(curr_config)
    }

    /// The value of `preferences.editor`, `preferences.pager` or `ui.colors`;
    /// any other key is refused.
    pub fn get(&self, key: &str, env: &ProcessEnv) -> (r: Result<String>)
        ensures
            key@ == editor_key() ==> (r matches Ok(v) && v@ == first_set(
                self.config_view().preferences.editor,
                env.editor,
                vim(),
            )),
            key@ == pager_key() ==> (r matches Ok(v) && v@ == first_set(
                self.config_view().preferences.pager,
                env.pager,
                less(),
            )),
            key@ == colors_key() ==> (r matches Ok(v) && v@ == (if spec_colors(&self.config_view().ui, env) {
                true_text()
            } else {
                false_text()
            })),
            key@ != editor_key() && key@ != pager_key() && key@ != colors_key() ==> (r matches Err(
                Error::ConfigErr(ConfigError::InvalidConfigKey(k)),
            ) && k@ == key@),
    {
        proof {
            reveal_strlit("preferences.editor");
            reveal_strlit("preferences.pager");
            reveal_strlit("ui.colors");
            reveal_strlit("true");
            reveal_strlit("false");
            assert("preferences.editor"@ =~= editor_key());
            assert("preferences.pager"@ =~= pager_key());
            assert("ui.colors"@ =~= colors_key());
            assert("true"@ =~= true_text());
            assert("false"@ =~= false_text());
        }
        if str_eq(key, "preferences.editor") {
            Ok(self.config.preferences.editor(env))
        } else if str_eq(key, "preferences.pager") {
            Ok(self.config.preferences.pager(env))
        } else if str_eq(key, "ui.colors") {
            if self.config.ui.colors(env) {
                Ok(String::from_str("true"))
            } else {
                Ok(String::from_str("false"))
            }
        } else {
            Err(Error::ConfigErr(ConfigError::InvalidConfigKey(key.to_owned())))
        }
    }

    /// The directory of the configuration.
    pub fn path(&self) -> (r: &String)
        ensures
            *r == self.mount_view(),
    {
        &self.mount_path
    }

    /// The configuration file.
    pub fn file_path(&self) -> (r: String)
        ensures
            r@ == self.mount_view()@ + seq!['/'] + config_filename(),
    {
        Config::filepath(self.mount_path.as_str())
    }
}

} // verus!
