//! Markdown templates with conditional blocks.
//!
//! A template is text with tags in it: `<!-- if GUARD -->` and
//! `<!-- endif -->` enclose a block that is rendered where the guard holds.
//! A guard combines matchers with `&&`, `||`, `!` and parentheses:
//! `exists(GLOB)` asks for a file of the project, `lang(NAME)` for a file
//! with an extension of a language, `env(NAME)` and `env(NAME=VALUE)` for a
//! variable of the environment.
//!
//! [`template::Template::parse`] reads a template and
//! [`template::Template::render`] renders it against a
//! [`project::Project`], which holds what the guards may ask for. The
//! library reads neither files nor the environment: its caller hands both
//! over.
//!
//! Every function carries a contract over sequences of characters, and the
//! modules [`guard`] and [`markup`] define the language that the parsers in
//! [`parse`] are proved to read.

pub mod combine;
pub mod diff;
pub mod error;
pub mod expr;
pub mod glob;
pub mod guard;
pub mod lang;
pub mod markup;
pub mod nesting;
pub mod parse;
pub mod paths;
pub mod plan;
pub mod project;
pub mod template;
pub mod text;
pub mod tokens;
