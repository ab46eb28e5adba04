use vstd::prelude::*;

pub mod config;
pub mod digest;
pub mod embedding;
pub mod handler;
pub mod hover;
pub mod llm;
pub mod store;
pub mod syntax;
pub mod text;

verus! {

/// Why a backend could not be handed out.
#[derive(Debug, Clone, Copy, PartialEq, Eq, Structural)]
pub enum ArtifactsError {
    /// The language model backend was asked for before the backends were set up.
    LlmNotInitialized,
    /// The embedding backend was asked for before the backends were set up.
    EmbeddingNotInitialized,
}

impl ArtifactsError {
    /// What went wrong, in words.
    pub fn message(&self) -> (text: String)
        ensures
            text@ == match self {
                ArtifactsError::LlmNotInitialized => "LLM client not initialized"@,
                ArtifactsError::EmbeddingNotInitialized => "Embedding client not initialized"@,
            },
    {
        match self {
            ArtifactsError::LlmNotInitialized => "LLM client not initialized".to_owned(),
            ArtifactsError::EmbeddingNotInitialized => "Embedding client not initialized".to_owned(),
        }
    }
}

/// The backends: not set up at first, and set up once, by the first configuration that
/// comes.
#[derive(Debug)]
pub enum Artifacts {
    Lazy,
    Loaded { embedding: embedding::Client, llm: llm::Client },
}

impl Artifacts {
    /// Sets the backends up as `config` says, unless they are set up already: then nothing
    /// changes. This never fails.
    pub fn activate(&mut self, config: config::Config) -> (r: Result<(), ArtifactsError>)
        ensures
            r is Ok,
            *final(self) == if *old(self) is Lazy {
                (Artifacts::Loaded {
                    embedding: embedding::Client::made(config.embedding),
                    llm: llm::Client::made(config.llm),
                })
            } else {
                *old(self)
            },
    {
        if let Artifacts::Lazy = self {
            let embedding = embedding::Client::new(config.embedding);
            let llm = llm::Client::new(config.llm);
            *self = Artifacts::Loaded { embedding, llm };
        }
        Ok(())
    }

    /// The language model backend, once the backends are set up.
    pub fn llm(&self) -> (r: Result<&llm::Client, ArtifactsError>)
        ensures
            match r {
                Ok(client) => *self is Loaded && *client == self->llm,
                Err(e) => *self is Lazy && e == ArtifactsError::LlmNotInitialized,
            },
    {
        match self {
            Artifacts::Lazy => Err(ArtifactsError::LlmNotInitialized),
            Artifacts::Loaded { llm, .. } => Ok(llm),
        }
    }

    /// The embedding backend, once the backends are set up.
    pub fn embedding(&self) -> (r: Result<&embedding::Client, ArtifactsError>)
        ensures
            match r {
                Ok(client) => *self is Loaded && *client == self->embedding,
                Err(e) => *self is Lazy && e == ArtifactsError::EmbeddingNotInitialized,
            },
    {
        match self {
            Artifacts::Lazy => Err(ArtifactsError::EmbeddingNotInitialized),
            Artifacts::Loaded { embedding, .. } => Ok(embedding),
        }
    }
}

} // verus!
