//! A small text template engine, verified with Verus.
//!
//! A template is written as plain text in which `$name$` marks a placeholder
//! and `$$` stands for a literal `$`. A parsed [`Template`] can be rendered
//! against a [`Lookup`], partially resolved into another template, or written
//! back out as template text.
//!
//! ```
//! use stt::{SingleLookup, Template};
//!
//! let template = Template::new("Hello $who$!").unwrap();
//! let lookup = SingleLookup::new("who", "world");
//! assert_eq!(template.render(&lookup), "Hello world!");
//! ```
//!
//! Every executable function carries a contract over the mathematical model
//! in [`model`] and [`grammar`]. What holds across several functions, such as
//! that rendering a partially resolved template gives what rendering the
//! template itself gives, is proved in [`laws`]. The contracts that Verus
//! takes on trust are in [`text`].

pub mod grammar;
pub mod laws;
pub mod lookup;
pub mod model;
pub mod template;
pub mod text;

pub use lookup::{ChainedLookup, ConstantLookup, EmptyLookup, Lookup, SingleLookup};
pub use model::{Bindings, Piece, SIGIL};
pub use template::{ParseError, Template};
