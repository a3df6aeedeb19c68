use vstd::prelude::*;

verus! {

/// The explicit parameter set an invocation runs under: the store path, the
/// username to validate against, a verbose flag, and the positional
/// arguments left over. The caller builds it (from the command line or from
/// its host environment) and passes it in; the engine keeps no global
/// state.
#[derive(Debug)]
pub struct Config {
    pub verbose: bool,
    pub filename: String,
    pub username: String,
    pub args: Vec<String>,
}

} // verus!
