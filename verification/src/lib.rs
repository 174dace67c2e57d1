//! A retained-mode UI core: a virtual tree of elements, text, fragments,
//! placeholders and component invocations; a differ that compares the
//! committed tree with a freshly rendered one and emits an ordered list of
//! backend mutations; a scope arena that gives each live component a stable
//! identity, positional hook storage and cleanup bookkeeping; and a scheduler
//! that batches dirty scopes into one mutation batch per tick.
//!
//! The core performs no I/O and calls no backend itself: it only computes
//! what must change. A renderer backend applies the mutation batches; a
//! model backend that does exactly that is included for tests and for
//! round-trip checks.
//!
//! The central guarantees are stated as contracts and machine-checked:
//! diffing a tree against an identical one emits no mutations and no scope
//! work ([`diff::diff_node`], and [`vdom::VirtualDom::complete_render`] for
//! a whole re-rendered scope); a component node reached with unchanged
//! props and key emits no scope work, and with changed props emits exactly
//! one props update ([`diff::diff_node`]); new identities enter the render
//! queue only through an explicit dirty mark or through the mount and
//! props-update work a diff emitted ([`vdom::VirtualDom::mark_dirty`], the
//! queue clauses of the work resolution in vdom); attribute and listener
//! diffs emit exactly the writes and removals the two lists call for
//! ([`diff::attr_set_muts`] and friends); a changed text — bare, or the
//! lone child of an otherwise unchanged element — emits exactly one
//! set-text; swapping two keyed single-handle children emits exactly one
//! placement; an incompatible node is replaced, with the removal named
//! last; growing or emptying a children list always emits
//! ([`diff::diff_node`], [`diff::diff_children`]); a first render adds
//! creations and placements, never a removal
//! ([`vdom::VirtualDom::complete_render`]); reordering keyed children with
//! equal templates emits placements only, never a creation or a removal
//! ([`diff::diff_children`]); and unmounting a scope hands out every
//! registered cleanup exactly once, in reverse registration order,
//! children before parents ([`arena::ScopeArena::unmount`]).

use vstd::prelude::*;

pub mod arena;
pub mod backend;
pub mod diff;
pub mod mutation;
pub mod node;
pub mod serve;
pub mod vdom;

verus! {

} // verus!
