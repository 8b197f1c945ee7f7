//! Configuration and path resolution: portable mode beside the executable
//! versus installed mode under the home directory, and the file paths the
//! other components read and write.
//!
//! Paths are plain strings here. The surrounding program gathers the
//! executable, current and home directories and the stored configuration
//! document, and hands them in; everything that decides is in this module.

use vstd::prelude::*;
use vstd::string::{StrSliceExecFns, StringExecFns};

verus! {

/// Joining a relative path onto a base directory; an absolute path
/// replaces the base.
pub open spec fn spec_path_join(base: Seq<char>, rel: Seq<char>) -> Seq<char> {
    if rel.len() > 0 && rel[0] == '/' {
        rel
    } else {
        base + seq!['/'] + rel
    }
}

pub fn path_join(base: &str, rel: &str) -> (r: String)
    ensures
        r@ == spec_path_join(base@, rel@),
{
    let n = rel.unicode_len();
    if n > 0 && rel.get_char(0) == '/' {
        rel.to_owned()
    } else {
        let mut out = String::from_str(base);
        out.append("/");
        out.append(rel);
        proof {
            reveal_strlit("/");
            assert("/"@ =~= seq!['/']);
        }
        out
    }
}

/// The stored configuration: the three file paths and the retention
/// window in days.
pub struct ConfigurationContent {
    pub command_file: String,
    pub reminder_file: String,
    pub history_file: String,
    pub history_length: u32,
}

/// What a freshly generated configuration holds: in portable mode the
/// three files sit beside the executable; installed mode keeps them under
/// the home directory. The retention window starts at 15 days.
pub open spec fn spec_default_content(
    portable: bool,
    executing_dir: Seq<char>,
    home_dir: Seq<char>,
    c: ConfigurationContent,
) -> bool {
    &&& c.command_file@ == (if portable {
        spec_path_join(executing_dir, "command"@)
    } else {
        spec_path_join(home_dir, "~/.morning/command"@)
    })
    &&& c.reminder_file@ == (if portable {
        spec_path_join(executing_dir, "reminder.txt"@)
    } else {
        spec_path_join(home_dir, "~/.morning/reminder.txt"@)
    })
    &&& c.history_file@ == (if portable {
        spec_path_join(executing_dir, "history.json"@)
    } else {
        spec_path_join(home_dir, "~/.morning/history.json"@)
    })
    &&& c.history_length == 15
}

/// The configuration file's own path: beside the executable in portable
/// mode, under the user configuration directory otherwise.
pub open spec fn spec_config_file(portable: bool, executing_dir: Seq<char>) -> Seq<char> {
    if portable {
        spec_path_join(executing_dir, "morning.conf"@)
    } else {
        "~/.config/morning.conf"@
    }
}

/// The resolved configuration for one run.
pub struct Configuration {
    pub executing_dir: String,
    pub current_dir: String,
    pub home_dir: String,
    pub portable: bool,
    pub config_change: bool,
    pub config_file: String,
    pub config: ConfigurationContent,
}

/// The run is portable unless the executable sits in the installed
/// location; an unknown executable directory also counts as portable.
pub fn is_script_portable(executing_dir: Option<&String>) -> (r: bool)
    ensures
        r == match executing_dir {
            None => true,
            Some(d) => d@ != "/usr/bin"@,
        },
{
    match executing_dir {
        None => true,
        Some(d) => {
            let installed = String::from_str("/usr/bin");
            !(*d == installed)
        },
    }
}

impl Configuration {
    /// A fresh configuration content for the given mode and directories.
    pub fn generate_config(portable: bool, executing_dir: &String, home_dir: &String) -> (c:
        ConfigurationContent)
        ensures
            spec_default_content(portable, executing_dir@, home_dir@, c),
    {
        if portable {
            ConfigurationContent {
                command_file: path_join(executing_dir.as_str(), "command"),
                reminder_file: path_join(executing_dir.as_str(), "reminder.txt"),
                history_file: path_join(executing_dir.as_str(), "history.json"),
                history_length: 15,
            }
        } else {
            ConfigurationContent {
                command_file: path_join(home_dir.as_str(), "~/.morning/command"),
                reminder_file: path_join(home_dir.as_str(), "~/.morning/reminder.txt"),
                history_file: path_join(home_dir.as_str(), "~/.morning/history.json"),
                history_length: 15,
            }
        }
    }

    /// Where the configuration file lives for the given mode.
    pub fn config_file_path(portable: bool, executing_dir: &String) -> (r: String)
        ensures
            r@ == spec_config_file(portable, executing_dir@),
    {
        if portable {
            path_join(executing_dir.as_str(), "morning.conf")
        } else {
            String::from_str("~/.config/morning.conf")
        }
    }

    /// The resolved configuration, from the gathered directories and the
    /// stored content if one was read: a missing stored configuration is
    /// replaced by a fresh one, and marked to be written back.
    pub fn new(
        executing_dir: String,
        current_dir: String,
        home_dir: String,
        loaded: Option<ConfigurationContent>,
    ) -> (c: Configuration)
        ensures
            c.portable == (executing_dir@ != "/usr/bin"@),
            c.config_file@ == spec_config_file(c.portable, executing_dir@),
            c.executing_dir == executing_dir,
            c.current_dir == current_dir,
            c.home_dir == home_dir,
            match loaded {
                Some(stored) => c.config == stored && !c.config_change,
                None => c.config_change && spec_default_content(
                    c.portable,
                    executing_dir@,
                    home_dir@,
                    c.config,
                ),
            },
    {
        let portable = is_script_portable(Some(&executing_dir));
        let config_file = Configuration::config_file_path(portable, &executing_dir);
        let (config, config_change) = match loaded {
            Some(stored) => (stored, false),
            None => (Configuration::generate_config(portable, &executing_dir, &home_dir), true),
        };
        Configuration {
            executing_dir,
            current_dir,
            home_dir,
            portable,
            config_change,
            config_file,
            config,
        }
    }

    pub fn is_portable(&self) -> (r: bool)
        ensures
            r == self.portable,
    {
        self.portable
    }

    /// The path of the store's document file.
    pub fn history_path(&self) -> (r: &String)
        ensures
            r == self.config.history_file,
    {
        &self.config.history_file
    }

    /// The path of the everyday-commands file.
    pub fn command_file(&self) -> (r: &String)
        ensures
            r == self.config.command_file,
    {
        &self.config.command_file
    }

    /// The path of the reminders file.
    pub fn reminder_file(&self) -> (r: &String)
        ensures
            r == self.config.reminder_file,
    {
        &self.config.reminder_file
    }

    /// The retention window in days.
    pub fn history_length(&self) -> (r: u32)
        ensures
            r == self.config.history_length,
    {
        self.config.history_length
    }
}

} // verus!
