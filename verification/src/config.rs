use vstd::prelude::*;

verus! {

/// Startup choices: the directory to open, an initial query, and whether
/// to run one headless ranking pass instead of a session.
#[derive(Debug)]
pub struct Config {
    pub directory: String,
    pub query: String,
    pub json_mode: bool,
}

} // verus!
