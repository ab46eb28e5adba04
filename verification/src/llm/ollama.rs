use vstd::prelude::*;

verus! {

/// The bits of the 32-bit float 0.2, the temperature that the model runs at by default.
pub const DEFAULT_TEMPERATURE: u32 = 0x3E4C_CCCD;

/// Where the Ollama service that answers prompts is reached, which model it is to use, what
/// stands before every prompt, and the temperature as the bits of a 32-bit float.
#[derive(Debug, Clone)]
pub struct Config {
    pub host: String,
    pub port: u16,
    pub model: String,
    pub guard_prompt: Option<String>,
    pub temperature: Option<u32>,
}

impl Config {
    /// Whether this is the setup taken where none is given: the service on this machine at
    /// its usual port, with the model `llama3.2`, a guard that asks for short answers, and a
    /// temperature of 0.2.
    pub open spec fn is_standard(self) -> bool {
        &&& self.host@ == "http://localhost"@
        &&& self.port == 11434
        &&& self.model@ == "llama3.2:latest"@
        &&& self.guard_prompt matches Some(guard)
        &&& guard@
            == "You are a helpful assistant. Respond with concise and clear responses; keep it short."@
        &&& self.temperature == Some(DEFAULT_TEMPERATURE)
    }
}

impl Default for Config {
    /// The setup taken where none is given.
    fn default() -> (config: Config)
        ensures
            config.is_standard(),
    {
        Config {
            host: "http://localhost".to_owned(),
            port: 11434,
            model: "llama3.2:latest".to_owned(),
            guard_prompt: Some(
                "You are a helpful assistant. Respond with concise and clear responses; keep it short.".to_owned(),
            ),
            temperature: Some(DEFAULT_TEMPERATURE),
        }
    }
}

/// The prompt that goes to the model: the guard if there is one, then the instruction and
/// the context, each under its heading.
pub open spec fn framed(guard: Option<Seq<char>>, instruction: Seq<char>, context: Seq<char>) -> Seq<
    char,
> {
    match guard {
        Some(guard) => guard + "\n\n### Instruction:\n"@ + instruction + "\n\n### Context:\n\n"@
            + context,
        None => "### Instruction:\n"@ + instruction + "\n\n## Context:\n\n"@ + context,
    }
}

/// The guard of `config` as plain values.
pub open spec fn guard_of(config: Config) -> Option<Seq<char>> {
    match config.guard_prompt {
        Some(guard) => Some(guard@),
        None => None,
    }
}

/// A language model backend that asks an Ollama service.
#[derive(Debug)]
pub struct Client {
    pub config: Config,
}

impl Client {
    /// A client for the service that `config` names.
    pub fn new(config: Config) -> (client: Client)
        ensures
            client.config == config,
    {
        Client { config }
    }

    /// The prompt to send for `instruction` over the context `prompt`.
    pub fn prompt(&self, instruction: &str, prompt: &str) -> (full: String)
        ensures
            full@ == framed(guard_of(self.config), instruction@, prompt@),
    {
        match &self.config.guard_prompt {
            Some(guard) => {
                let mut full = guard.clone();
                full.append("\n\n### Instruction:\n");
                full.append(instruction);
                full.append("\n\n### Context:\n\n");
                full.append(prompt);
                full
            },
            None => {
                let mut full = "### Instruction:\n".to_owned();
                full.append(instruction);
                full.append("\n\n## Context:\n\n");
                full.append(prompt);
                full
            },
        }
    }
}

} // verus!
