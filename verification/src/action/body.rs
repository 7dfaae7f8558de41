//! `body`: the body of the endpoint in use.

use vstd::prelude::*;

use crate::action::{current_handle, handle_in_use, CliError, CliResult};
use crate::handle::handle_dir;
use crate::project::{Quartz, State};
use crate::store::{body_at, ensure_dir, with_body};

verus! {

/// What `body` does.
pub enum BodyCmd {
    /// Prints the body.
    Show,
    /// Sets the body from standard input.
    Stdin,
    /// Opens the body in the editor.
    Edit,
}

/// The arguments of `body`.
pub struct Args {
    /// Which extension to read body as. E.g.: quartz body --format json edit
    pub format: Option<String>,
    pub command: BodyCmd,
}

/// `body show`: the body of the handle in use, or nothing. Fails when no
/// handle is in use.
pub fn print(q: &Quartz, state: &State) -> (r: CliResult<String>)
    ensures
        match current_handle(q, state) {
            None => r matches Err(CliError::NoHandleInUse),
            Some(h) => r matches Ok(s) && s@ == match body_at(q.endpoints@, handle_dir(h)) {
                Some(b) => b,
                None => Seq::<char>::empty(),
            },
        },
{
    let handle = match handle_in_use(q, state) {
        Some(h) => h,
        None => {
            return Err(CliError::NoHandleInUse);
        },
    };
    match handle.body(q) {
        Some(b) => Ok(b),
        None => Ok(String::new()),
    }
}

/// `body stdin`: `input` (what standard input held) becomes the body of the
/// handle in use, if any.
pub fn stdin(q: &mut Quartz, state: &State, input: &str)
    ensures
        match current_handle(old(q), state) {
            None => final(q).endpoints@ == old(q).endpoints@,
            Some(h) => final(q).endpoints@ == with_body(
                ensure_dir(old(q).endpoints@, handle_dir(h)),
                handle_dir(h),
                Some(input@),
            ),
        },
        final(q).state == old(q).state,
        final(q).envs@ == old(q).envs@,
{
    match handle_in_use(q, state) {
        Some(h) => {
            let _ = h.set_body(q, input);
        },
        None => {},
    }
}

} // verus!
