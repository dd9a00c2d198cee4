//! A streaming preprocessor that expands a compact sugar notation for nested
//! array and object literals into explicit bracketed form.
//!
//! The trigger `@` opens an array scope and `#` an object scope. A trigger
//! followed by inline content on the same line becomes an inline scope that
//! closes at end of line; a trigger followed directly by a newline becomes an
//! indentation block that closes when a later line dedents below the block's
//! captured indentation. An explicit `( ... )` group force-closes any sugar
//! scopes opened inside it before emitting `)`.

pub mod chars;
pub mod laws;
pub mod model;
pub mod scope;
pub mod transducer;
