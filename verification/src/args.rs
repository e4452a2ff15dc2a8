//! The three arguments of the plain command line.

use vstd::prelude::*;

verus! {

/// A profile, an archive and a configuration file.
#[derive(Debug)]
pub struct Args {
    pub profile: String,
    pub archive: String,
    pub config: String,
}

impl Args {
    /// The arguments that follow the program's name: profile, archive and
    /// configuration file. Fewer than four strings are an error.
    pub fn new(args: &[String]) -> (result: Result<Args, &'static str>)
        ensures
            match result {
                Ok(parsed) => args.len() >= 4 && parsed.profile == args[1] && parsed.archive
                    == args[2] && parsed.config == args[3],
                Err(message) => args.len() < 4 && message@
                    == "Need to provide at least profile, archive and config arguments."@,
            },
    {
        if args.len() < 4 {
            return Err("Need to provide at least profile, archive and config arguments.");
        }
        Ok(Args { profile: args[1].clone(), archive: args[2].clone(), config: args[3].clone() })
    }
}

} // verus!
