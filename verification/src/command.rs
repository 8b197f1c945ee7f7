//! The everyday-commands section: which file an edit session applies to.
//! Running the commands and launching the editor are the surrounding
//! program's work.

use vstd::prelude::*;
use crate::configuration::Configuration;

verus! {

/// The file that editing the everyday commands applies to.
pub fn edit_command<'a>(conf: &'a Configuration) -> (r: &'a String)
    ensures
        r == conf.config.command_file,
{
    conf.command_file()
}

} // verus!
