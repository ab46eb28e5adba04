use marky::config::Config;
use marky::embedding;
use marky::llm;
use marky::{Artifacts, ArtifactsError};

#[test]
fn default_embedding_config() {
    let embedding::Config::Ollama(config) = embedding::Config::default();
    assert_eq!(config.host, "http://localhost");
    assert_eq!(config.port, 11434);
    assert_eq!(config.model, "nomic-embed-text:latest");
    assert_eq!(config.vector_size, 768);
}

#[test]
fn default_llm_config() {
    let llm::Config::Ollama(config) = llm::Config::default();
    assert_eq!(config.host, "http://localhost");
    assert_eq!(config.port, 11434);
    assert_eq!(config.model, "llama3.2:latest");
    assert_eq!(
        config.guard_prompt.as_deref(),
        Some("You are a helpful assistant. Respond with concise and clear responses; keep it short.")
    );
    assert_eq!(config.temperature, Some(0.2f32.to_bits()));
    assert_eq!(llm::ollama::DEFAULT_TEMPERATURE, 0.2f32.to_bits());
}

#[test]
fn embedding_client_knows_its_vector_size() {
    let config = embedding::ollama::Config {
        host: "http://example.org".to_string(),
        port: 8080,
        model: "tiny".to_string(),
        vector_size: 12,
    };
    let client = embedding::Client::new(embedding::Config::Ollama(config));
    assert_eq!(client.size(), 12);
    let embedding::Client::Ollama(inner) = client;
    assert_eq!(inner.config.host, "http://example.org");
    assert_eq!(inner.config.port, 8080);
    assert_eq!(inner.config.model, "tiny");
    assert_eq!(embedding::Client::new(embedding::Config::default()).size(), 768);
}

#[test]
fn embed_hands_out_the_first_vector() {
    let answer = vec![vec![1.0f32.to_bits(), 2.0f32.to_bits()], vec![3.0f32.to_bits()]];
    assert_eq!(embedding::embed(answer), Ok(vec![1.0f32.to_bits(), 2.0f32.to_bits()]));
    assert_eq!(embedding::embed(vec![Vec::new()]), Ok(Vec::new()));
}

#[test]
fn embed_fails_without_vectors() {
    assert_eq!(embedding::embed(Vec::new()), Err(embedding::EmbeddingError::NoEmbeddings));
}

#[test]
fn prompt_with_guard() {
    let client = llm::Client::new(llm::Config::default());
    assert_eq!(
        client.prompt("Summarize.", "Some context"),
        "You are a helpful assistant. Respond with concise and clear responses; keep it short.\n\n### Instruction:\nSummarize.\n\n### Context:\n\nSome context"
    );
}

#[test]
fn prompt_without_guard() {
    let config = llm::ollama::Config {
        host: "http://localhost".to_string(),
        port: 11434,
        model: "llama3.2:latest".to_string(),
        guard_prompt: None,
        temperature: None,
    };
    let client = llm::ollama::Client::new(config);
    assert_eq!(
        client.prompt("Summarize.", "Some context"),
        "### Instruction:\nSummarize.\n\n## Context:\n\nSome context"
    );
    assert_eq!(client.prompt("", ""), "### Instruction:\n\n\n## Context:\n\n");
}

#[test]
fn artifacts_are_lazy_until_activated() {
    let artifacts = Artifacts::Lazy;
    assert_eq!(artifacts.llm().err(), Some(ArtifactsError::LlmNotInitialized));
    assert_eq!(artifacts.embedding().err(), Some(ArtifactsError::EmbeddingNotInitialized));
}

#[test]
fn artifacts_hand_out_the_backends_once_activated() {
    let mut artifacts = Artifacts::Lazy;
    assert_eq!(artifacts.activate(Config::default()), Ok(()));
    assert!(matches!(artifacts, Artifacts::Loaded { .. }));
    assert_eq!(artifacts.embedding().unwrap().size(), 768);
    let llm::Client::Ollama(inner) = artifacts.llm().unwrap();
    assert_eq!(inner.config.model, "llama3.2:latest");
}

#[test]
fn second_activation_changes_nothing() {
    let mut artifacts = Artifacts::Lazy;
    artifacts.activate(Config::default()).unwrap();
    let other = Config {
        embedding: embedding::Config::Ollama(embedding::ollama::Config {
            host: "http://elsewhere".to_string(),
            port: 1,
            model: "other".to_string(),
            vector_size: 3,
        }),
        llm: llm::Config::default(),
    };
    assert_eq!(artifacts.activate(other), Ok(()));
    assert_eq!(artifacts.embedding().unwrap().size(), 768);
}

#[test]
fn artifacts_errors_in_words() {
    assert_eq!(ArtifactsError::LlmNotInitialized.message(), "LLM client not initialized");
    assert_eq!(
        ArtifactsError::EmbeddingNotInitialized.message(),
        "Embedding client not initialized"
    );
}

#[test]
fn embedding_error_in_words() {
    assert_eq!(embedding::EmbeddingError::NoEmbeddings.message(), "No embeddings returned");
}
