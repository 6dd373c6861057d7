//! A markdown reader: renders markdown files to HTML pages, with the text handling, routing and
//! page assembly stated and proved.
pub mod assets;
pub mod common;
pub mod events;
pub mod highlight;
pub mod ids;
pub mod markdown;
pub mod page;
pub mod path;
pub mod server;
pub mod tasks;
pub mod text;
pub mod tree;
