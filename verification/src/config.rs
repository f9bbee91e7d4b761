//! Command-line configuration.

use vstd::prelude::*;

verus! {

/// What the machine is started with: the path of the object file to run.
pub struct Config {
    pub path: String,
}

impl Config {
    /// Builds the configuration from the command-line arguments, the first of
    /// which names the program and is skipped; the second is the path.
    pub fn new(args: Vec<String>) -> (r: Result<Self, &'static str>)
        ensures
            args.len() >= 2 ==> (r matches Ok(c) && c.path == args@[1]),
            args.len() < 2 ==> (r matches Err(e) && e@ == "path to lc3 obj not specified"@),
    {
        let mut args = args;
        if args.len() < 2 {
            return Err("path to lc3 obj not specified");
        }
        let path = args.remove(1);
        Ok(Config { path })
    }
}

} // verus!
