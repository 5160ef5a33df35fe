//! Call-scoped configuration: where the per-project transcript
//! directories live.  The caller fills it in; nothing here is ambient
//! process state.

use vstd::prelude::*;
use vstd::string::StringExecFns;

use crate::text::push_char;

verus! {

/// The root under which each project has a directory of session files.
#[derive(Clone, Debug)]
pub struct Config {
    pub projects_dir: String,
}

impl Config {
    /// The directory of one project: the root joined with the project
    /// identifier.
    pub fn project_dir(&self, project_id: &str) -> (r: String)
        ensures
            r@ == self.projects_dir@ + seq!['/'] + project_id@,
    {
        let mut out = self.projects_dir.clone();
        push_char(&mut out, '/');
        out.append(project_id);
        proof {
            assert(out@ =~= self.projects_dir@ + seq!['/'] + project_id@);
        }
        out
    }
}

} // verus!
