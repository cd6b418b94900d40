//! Parsing of chat-bot command lines: a command name, positional and
//! keyword arguments, and a free-form trailing payload.
pub mod text;
pub mod grammar;
pub mod scan;
pub mod nom_args;
pub mod laws;
pub mod nom;
pub mod echo;
pub mod help;
