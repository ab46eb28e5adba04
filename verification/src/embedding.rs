use vstd::prelude::*;

pub mod ollama;

verus! {

/// Which embedding backend to use, and how it is set up.
#[derive(Debug, Clone)]
pub enum Config {
    Ollama(ollama::Config),
}

impl Config {
    /// Whether this is the setup taken where none is given: the Ollama backend in its own
    /// standard setup.
    pub open spec fn is_standard(self) -> bool {
        self matches Config::Ollama(inner) && inner.is_standard()
    }
}

impl Default for Config {
    /// The setup taken where none is given.
    fn default() -> (config: Config)
        ensures
            config.is_standard(),
    {
        Config::Ollama(ollama::Config::default())
    }
}

/// An embedding backend.
#[derive(Debug)]
pub enum Client {
    Ollama(ollama::Client),
}

/// Why no vector could be handed out.
#[derive(Debug, Clone, Copy, PartialEq, Eq, Structural)]
pub enum EmbeddingError {
    /// The backend answered with no vector at all.
    NoEmbeddings,
}

impl EmbeddingError {
    /// What went wrong, in words.
    pub fn message(&self) -> (text: String)
        ensures
            text@ == "No embeddings returned"@,
    {
        "No embeddings returned".to_owned()
    }
}

impl Client {
    /// The client that `config` asks for.
    pub open spec fn made(config: Config) -> Client {
        match config {
            Config::Ollama(inner) => Client::Ollama(ollama::Client { config: inner }),
        }
    }

    /// The backend that `config` selects, set up as it says.
    pub fn new(config: Config) -> (client: Client)
        ensures
            client == Client::made(config),
    {
        match config {
            Config::Ollama(inner) => Client::Ollama(ollama::Client::new(inner)),
        }
    }

    /// How many numbers a vector of this backend holds.
    pub fn size(&self) -> (size: usize)
        ensures
            self matches Client::Ollama(inner) && size == inner.config.vector_size,
    {
        match self {
            Client::Ollama(inner) => inner.size(),
        }
    }
}

/// The vector of a single text, out of what a backend answered to a batch that held this
/// text alone: the first vector, each number as the bits of a 32-bit float.
pub fn embed(answer: Vec<Vec<u32>>) -> (r: Result<Vec<u32>, EmbeddingError>)
    ensures
        match r {
            Ok(vector) => answer@.len() > 0 && vector == answer@[0],
            Err(e) => answer@.len() == 0 && e == EmbeddingError::NoEmbeddings,
        },
{
    let mut answer = answer;
    if answer.len() == 0 {
        Err(EmbeddingError::NoEmbeddings)
    } else {
        Ok(answer.remove(0))
    }
}

} // verus!
