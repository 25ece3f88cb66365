//! Content repository for a small markdown-driven website.
//!
//! A directory tree of markdown files with frontmatter metadata is turned
//! into a queryable, concurrently readable in-memory index of pages, posts,
//! groups and tags.  Name validation, frontmatter parsing (including
//! multi-segment "thread" posts), entry classification, the index and its
//! invariants, and the event debouncing that keeps the index synchronized
//! are verified; markdown rendering is delegated to an outside renderer.

pub mod components;
pub mod content;
pub mod dates;
pub mod errors;
pub mod exts;
pub mod frontmatter;
pub mod index;
pub mod loader;
pub mod maps;
pub mod meta;
pub mod names;
pub mod render;
pub mod store;
pub mod text;
pub mod watch;

pub use components::DynamicColours;
pub use content::{Group, Node, Page, Post, Tag, ThreadEntry};
pub use dates::Date;
pub use errors::HandlerError;
pub use exts::{OptionExt, ResultExt, SwapResult};
pub use loader::{EntryKind, LoadContentError, LoadOutcome};
pub use meta::{DecodeMetaError, PageMetadata, PostFrontmatter};
pub use names::{
    GroupName, PageName, ParseGroupNameError, ParsePageNameError, ParseTagNameError, TagName,
};
pub use render::{RenderPost, RenderStatic};
pub use store::Content;
pub use watch::Debouncer;
