//! Shell integration for the Nushell dialect.
//!
//! The library renders Nushell source text that a directory/tool-version
//! manager uses to hook itself into an interactive session: an activation
//! script bound to the shell's prompt and directory-change events, and
//! individual statements that set, unset, or prepend to environment
//! variables, each escaped for Nushell's lexer.  A small model of the
//! environment-diff protocol the hook consumes is verified alongside.

pub mod env_diff;
pub mod escape;
pub mod nushell;
