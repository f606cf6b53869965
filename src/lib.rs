//! A small blog server's core: mapping post slugs to file names, building the
//! index of posts from a directory listing, converting markdown posts to HTML
//! and assembling the pages that the server sends.
mod text;
pub mod slug;
pub mod markdown;
pub mod index;
pub mod page;
