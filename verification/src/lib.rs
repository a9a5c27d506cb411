pub mod text;
pub mod search;
pub mod highlight;
pub mod ranking;
pub mod scanner;
pub mod paths;
pub mod indexing;
pub mod models;
pub mod cancel;
pub mod sidecar;
pub mod clock;
pub mod digest;
pub mod documents;
pub mod stream;
pub mod parser;
pub mod qa_context;
pub mod qa;
pub mod model_api;
pub mod dirs;
pub mod refresh;
pub mod locale;
pub mod collections;
pub mod media;
pub mod cli;
pub mod semantic;
pub mod history;
pub mod reset;
pub mod converter;
