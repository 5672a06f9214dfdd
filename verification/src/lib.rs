//! Plaintext templates: finding a template by name, filling in its
//! `{{placeholder}}` tokens and naming the file that the result is written to.

pub mod environment;
pub mod error;
pub mod lister;
pub mod moustache;
pub mod ordered;
pub mod template;
pub mod text;
