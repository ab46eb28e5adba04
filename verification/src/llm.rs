use vstd::prelude::*;

pub mod ollama;

verus! {

/// Which language model backend to use, and how it is set up.
#[derive(Debug, Clone)]
pub enum Config {
    Ollama(ollama::Config),
}

impl Config {
    /// Whether this is the setup taken where none is given: the Ollama backend in its own
    /// standard setup.
    pub open spec fn is_standard(self) -> bool {
        self matches Config::Ollama(inner) && inner.is_standard()
    }
}

impl Default for Config {
    /// The setup taken where none is given.
    fn default() -> (config: Config)
        ensures
            config.is_standard(),
    {
        Config::Ollama(ollama::Config::default())
    }
}

/// A language model backend.
#[derive(Debug)]
pub enum Client {
    Ollama(ollama::Client),
}

impl Client {
    /// The client that `config` asks for.
    pub open spec fn made(config: Config) -> Client {
        match config {
            Config::Ollama(inner) => Client::Ollama(ollama::Client { config: inner }),
        }
    }

    /// The backend that `config` selects, set up as it says.
    pub fn new(config: Config) -> (client: Client)
        ensures
            client == Client::made(config),
    {
        match config {
            Config::Ollama(inner) => Client::Ollama(ollama::Client::new(inner)),
        }
    }

    /// The prompt that this backend sends for `instruction` over the context `prompt`.
    pub fn prompt(&self, instruction: &str, prompt: &str) -> (full: String)
        ensures
            self matches Client::Ollama(inner) && full@ == ollama::framed(
                ollama::guard_of(inner.config),
                instruction@,
                prompt@,
            ),
    {
        match self {
            Client::Ollama(inner) => inner.prompt(instruction, prompt),
        }
    }
}

} // verus!
