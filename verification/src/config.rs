//! The command line of the game: one optional flag.

use vstd::prelude::*;
use vstd::string::*;

verus! {

/// What the command line asks for.
#[derive(Clone, Copy, Debug, PartialEq, Eq, Structural)]
pub struct ProgramConfig {
    /// Whether the debug overlay is on.
    pub debug: bool,
}

impl Default for ProgramConfig {
    fn default() -> (cfg: ProgramConfig)
        ensures
            !cfg.debug,
    {
        ProgramConfig { debug: false }
    }
}

/// The argument switches the debug overlay on.
pub open spec fn is_debug_flag(arg: Seq<char>) -> bool {
    arg == "-d"@ || arg == "--debug"@
}

/// Every argument is a flag that the game knows.
pub open spec fn all_known(args: Seq<String>) -> bool {
    forall|i: int| 0 <= i < args.len() ==> is_debug_flag(#[trigger] args[i]@)
}

impl ProgramConfig {
    /// Reads the arguments of the program, without its name. Each of `-d`
    /// and `--debug` switches the debug overlay on; any other argument is an
    /// error.
    pub fn build(args: &Vec<String>) -> (r: Result<ProgramConfig, &'static str>)
        ensures
            all_known(args@) ==> r == Ok::<ProgramConfig, &'static str>(
                ProgramConfig { debug: args.len() > 0 },
            ),
            !all_known(args@) ==> (r matches Err(message) && message@ == "unknown argument"@),
    {
        let short = String::from_str("-d");
        let long = String::from_str("--debug");
        let mut cfg = ProgramConfig { debug: false };
        let mut i: usize = 0;
        while i < args.len()
            invariant
                0 <= i <= args.len(),
                short@ == "-d"@,
                long@ == "--debug"@,
                cfg.debug == (i > 0),
                forall|k: int| 0 <= k < i ==> is_debug_flag(#[trigger] args[k]@),
            decreases args.len() - i,
        {
            if args[i] == short || args[i] == long {
                cfg.debug = true;
            } else {
                return Err("unknown argument");
            }
            i = i + 1;
        }
        Ok(cfg)
    }
}

} // verus!
