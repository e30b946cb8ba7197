//! What the command line settles: which configuration file to load and
//! where the journal is kept.

use vstd::prelude::*;
use vstd::string::*;
use crate::text::chars_of;

verus! {

/// The settings taken from the command line.
#[derive(Debug, PartialEq, Eq)]
pub struct Args {
    /// The configuration file.
    pub config_file: String,
    /// The directory the journal is kept in.
    pub journal_dir: String,
}

/// The directory `journal` below `current_dir`: the two are set apart by
/// one `/`, unless `current_dir` is empty or brings its own.
pub open spec fn default_journal_dir(current_dir: Seq<char>) -> Seq<char> {
    if current_dir.len() == 0 || current_dir.last() == '/' {
        current_dir + "journal"@
    } else {
        current_dir + "/journal"@
    }
}

impl Args {
    /// The settings for what was given on the command line.
    ///
    /// Without a configuration file, `/etc/cipo.toml` is taken; without a
    /// journal directory, the directory `journal` below `current_dir`.
    pub fn from_options(
        config_file: Option<String>,
        journal_dir: Option<String>,
        current_dir: &str,
    ) -> (args: Self)
        ensures
            args.config_file@ == match config_file {
                Some(file) => file@,
                None => "/etc/cipo.toml"@,
            },
            args.journal_dir@ == match journal_dir {
                Some(dir) => dir@,
                None => default_journal_dir(current_dir@),
            },
    {
        let config_file = match config_file {
            Some(file) => file,
            None => String::from_str("/etc/cipo.toml"),
        };
        let journal_dir = match journal_dir {
            Some(dir) => dir,
            None => {
                let base = chars_of(current_dir);
                let mut dir = String::from_str(current_dir);
                if base.len() == 0 || base[base.len() - 1] == '/' {
                    dir.append("journal");
                } else {
                    dir.append("/journal");
                }
                dir
            },
        };
        Args { config_file, journal_dir }
    }
}

} // verus!
