use vstd::prelude::*;

verus! {

/// Where the Ollama service that embeds texts is reached, which model it is to use, and how
/// many numbers a vector of that model holds.
#[derive(Debug, Clone)]
pub struct Config {
    pub host: String,
    pub port: u16,
    pub model: String,
    pub vector_size: usize,
}

impl Config {
    /// Whether this is the setup taken where none is given: the service on this machine at
    /// its usual port, with the model `nomic-embed-text` and its vectors of 768 numbers.
    pub open spec fn is_standard(self) -> bool {
        &&& self.host@ == "http://localhost"@
        &&& self.port == 11434
        &&& self.model@ == "nomic-embed-text:latest"@
        &&& self.vector_size == 768
    }
}

impl Default for Config {
    /// The setup taken where none is given.
    fn default() -> (config: Config)
        ensures
            config.is_standard(),
    {
        Config {
            host: "http://localhost".to_owned(),
            port: 11434,
            model: "nomic-embed-text:latest".to_owned(),
            vector_size: 768,
        }
    }
}

/// An embedding backend that asks an Ollama service.
#[derive(Debug)]
pub struct Client {
    pub config: Config,
}

impl Client {
    /// A client for the service that `config` names.
    pub fn new(config: Config) -> (client: Client)
        ensures
            client.config == config,
    {
        Client { config }
    }

    /// How many numbers a vector of this backend holds.
    pub fn size(&self) -> (size: usize)
        ensures
            size == self.config.vector_size,
    {
        self.config.vector_size
    }
}

} // verus!
