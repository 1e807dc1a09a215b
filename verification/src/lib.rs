//! A language server proxy for GitLab CI files.
//!
//! Every script of a CI file is opened as a virtual shell document in
//! bash-language-server, and all positions are mapped back to the YAML file.
//! Everything else goes to yaml-language-server with GitLab's CI schema.

pub mod backend;
pub mod completion;
pub mod conversation;
pub mod documents;
pub mod extension;
pub mod extract;
pub mod json;
pub mod laws;
pub mod mapping;
pub mod node;
pub mod protocol;
pub mod proxy;
pub mod proxy_install;
pub mod rpc;
pub mod scalar;
pub mod script;
pub mod seqs;
pub mod settings;
pub mod source;
pub mod text;
pub mod uri;
pub mod value;
pub mod yaml;
