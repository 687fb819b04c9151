//! Rune metadata and recommended builds.

use vstd::prelude::*;

verus! {

/// What the page mapping reads of a rune: the row it sits in within its style
/// (row 0 holds the keystones) and the style it belongs to.
#[derive(Clone, Copy, Debug, PartialEq, Eq, Structural)]
pub struct RuneExtended {
    pub slot: i64,
    pub parent_id: i64,
}

/// The recommended build of a champion, as far as a rune page needs it.
#[derive(Clone, Debug, PartialEq, Eq)]
pub struct Overview {
    pub rune_ids: Vec<i64>,
    pub shard_ids: Vec<i64>,
}

} // verus!
