//! Plans the filesystem operations that create, or destroy, the file tree
//! that a document describes.
//!
//! A document is a [`tree::Tree`]: a mapping is a directory, a string is a
//! file with that text. [`create::create_entry`] and
//! [`destroy::destroy_entry`] turn a tree into a [`plan::Plan`], the
//! operations to perform in order and the error of the document, if it has
//! one. A [`run::Run`] then leads its caller through the plan: the caller
//! performs each operation on the disk and reports how it went, and the run
//! says what comes next and how it all ends.
//!
//! The library itself touches no disk. What the plans mean for one is
//! stated, and proved, over the model in [`disk`] and [`effects`].

pub mod cli;
pub mod create;
pub mod destroy;
pub mod disk;
pub mod effects;
pub mod errors;
pub mod loader;
pub mod path;
pub mod plan;
pub mod run;
pub mod tree;
