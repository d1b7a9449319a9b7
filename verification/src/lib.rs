pub mod text;
pub mod converter;
pub mod llm;
pub mod extractor;
pub mod syntax;
pub mod cargo_project;
pub mod web;
pub mod pipeline;
