//! Prompts for a local language model.
pub mod prompts;
pub mod ollama;
