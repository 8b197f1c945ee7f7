//! The reminders section: which file an edit session applies to.
//! Printing the reminders and launching the editor are the surrounding
//! program's work.

use vstd::prelude::*;
use crate::configuration::Configuration;

verus! {

/// The file that editing the reminders applies to.
pub fn edit_reminder<'a>(conf: &'a Configuration) -> (r: &'a String)
    ensures
        r == conf.config.reminder_file,
{
    conf.reminder_file()
}

} // verus!
