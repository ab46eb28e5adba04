use crate::{embedding, llm};
use vstd::prelude::*;

verus! {

/// How the backends are set up.
#[derive(Debug, Clone)]
pub struct Config {
    pub embedding: embedding::Config,
    pub llm: llm::Config,
}

impl Default for Config {
    /// Both backends in the setup taken where none is given.
    fn default() -> (config: Config)
        ensures
            config.embedding.is_standard(),
            config.llm.is_standard(),
    {
        Config { embedding: embedding::Config::default(), llm: llm::Config::default() }
    }
}

} // verus!
