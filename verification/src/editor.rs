//! Editors and pagers that a user of the library plugs in.

use vstd::prelude::*;

use crate::config::ProcessEnv;
use crate::error::Result;
use crate::project::Quartz;

verus! {

/// An editor of files.
pub trait Editor {
    /// Opens the file at `file_path` in the editor.
    fn edit(&self, quartz: &Quartz, file_path: &String) -> Result;

    /// The editor to use: the `preferences.editor` configuration.
    fn editor(&self, quartz: &Quartz, env: &ProcessEnv) -> (r: Result<String>)
        ensures
            r matches Ok(v) && v@ == crate::config::first_set(
                quartz.config.config_view().preferences.editor,
                env.editor,
                crate::config::vim(),
            ),
    {
        proof {
            reveal_strlit("preferences.editor");
            assert("preferences.editor"@ =~= crate::config::editor_key());
        }
        quartz.config().get("preferences.editor", env)
    }
}

/// An editor that edits nothing.
pub struct NoEditor {}

impl Editor for NoEditor {
    fn edit(&self, _quartz: &Quartz, _file_path: &String) -> (r: Result)
        ensures
            r is Ok,
    {
        Ok(())
    }
}

/// A pager of text.
pub trait Pager {
    /// Shows `content` in the pager.
    fn paginate(&self, quartz: &Quartz, content: &Vec<u8>) -> Result;
}

/// A pager that shows nothing.
pub struct NoPager {}

impl Pager for NoPager {
    fn paginate(&self, _quartz: &Quartz, _content: &Vec<u8>) -> (r: Result)
        ensures
            r is Ok,
    {
        Ok(())
    }
}

} // verus!
