//! Core of a small media-library browser: navigation state, directory listing
//! rules, a watch-history set, and a renderer that turns state into draw
//! operations.
//!
//! Everything in this crate is pure logic over plain values; the terminal,
//! the filesystem and the external player live outside it.
#![verifier::loop_isolation(false)]

pub mod codec;
pub mod config;
pub mod history;
pub mod listing;
pub mod nav;
pub mod paths;
pub mod render;
pub mod text;

use vstd::prelude::*;

verus! {

/// The views of a sequence's elements, element by element.
pub open spec fn seq_views<T: View>(s: Seq<T>) -> Seq<T::V> {
    s.map_values(|t: T| t@)
}

} // verus!
