//! A parser for a small declarative language that describes named containers.
//!
//! A document is an optional `@shell:` block followed by container blocks.
//! A container block names the container, says what it is made from, and
//! lists its arguments, one directive to a line:
//!
//! ```text
//! @shell:
//!     path: /bin/zsh
//!
//! @web:
//!     from: nginx:latest
//!     port: 80:8080
//!     expose: 443
//!     volume: /srv/www:/usr/share/nginx/html
//!     volume-from: cache
//! ```
//!
//! A line is indented by one tab or by four spaces. A header or a value ends
//! with a line ending or with a NUL byte. Blank lines separate the blocks.
//!
//! [`Parser::parse`] reads a whole document. Every parser below it takes the
//! bytes still to be read and gives back the bytes it left together with what
//! it recognised, or a [`ParseError`] that says what was expected and where.
//! Nothing is copied: the texts of the result are pieces of the input.
//!
//! What each parser accepts is written down once, as a function on byte
//! sequences (`spec_shell`, `spec_container`, `spec_document`, ...), and the
//! executable parser is proved to compute exactly that function. The module
//! [`laws`] states what follows for every input, [`syntax`] that the lines of
//! the language are accepted as they are written, and [`pieces`] that the
//! texts of a result are pieces of the input.
pub mod error;
pub mod outside;
pub mod text;
pub mod primitives;
pub mod path;
pub mod shell;
pub mod manifest;
pub mod name;
pub mod arguments;
pub mod container;
pub mod containers;
pub mod document;
pub mod laws;
pub mod pieces;
pub mod syntax;

pub use arguments::{Argument, PortError};
pub use container::Container;
pub use containers::Containers;
pub use document::Parser;
pub use error::{Expected, ParseError};
pub use manifest::Manifest;
pub use path::PathLike;
pub use shell::Shell;
