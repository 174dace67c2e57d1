//! Mutations: the ordered instructions the differ emits for the renderer
//! backend, and the work items it hands to the scheduler layer for scope
//! bookkeeping it cannot do itself.

use vstd::prelude::*;

verus! {

/// One structural change, relative to backend node handles. Later mutations
/// may reference handles created by earlier mutations of the same batch.
///
/// `InsertBefore` and `InsertAfter` on a handle that is already attached
/// detach it first: they are also the move instructions.
#[derive(Clone, Copy, PartialEq, Eq, Structural, Debug)]
pub enum Mutation {
    /// Create a detached element node.
    CreateElement { id: u64, tag: u64 },
    /// Create a detached text node.
    CreateText { id: u64, text: u64 },
    /// Create a detached placeholder node (an invisible position marker).
    CreatePlaceholder { id: u64 },
    /// Attach `child` as the last child of `parent`.
    AppendChild { parent: u64, child: u64 },
    /// Place `node` directly before `anchor`, detaching it first if needed.
    InsertBefore { anchor: u64, node: u64 },
    /// Place `node` directly after `anchor`, detaching it first if needed.
    InsertAfter { anchor: u64, node: u64 },
    /// Set one attribute of a node.
    SetAttribute { id: u64, name: u64, value: u64 },
    /// Remove one attribute of a node. Presence is significant, so this is
    /// distinct from setting an empty value.
    RemoveAttribute { id: u64, name: u64 },
    /// Replace the text of a text node.
    SetText { id: u64, text: u64 },
    /// Register a listener: events named `event` on this node go to
    /// `handler`, owned by scope `scope`.
    NewListener { id: u64, event: u64, handler: u64, scope: u64 },
    /// Remove the listener for `event` on this node.
    RemoveListener { id: u64, event: u64 },
    /// Detach a node and drop its whole backend subtree.
    Remove { id: u64 },
}

impl Mutation {
    /// Is this mutation a pure placement (attach or move) of an existing
    /// handle — neither a creation, a removal, nor an attribute, text or
    /// listener change?
    pub open spec fn is_placement(self) -> bool {
        self matches Mutation::AppendChild { .. } || self matches Mutation::InsertBefore { .. }
            || self matches Mutation::InsertAfter { .. }
    }
}

/// Scope bookkeeping the differ delegates to the layer that owns the arena.
/// Work items are resolved in order, within the same tick that produced them.
#[derive(Clone, Copy, PartialEq, Eq, Structural, Debug)]
pub enum WorkItem {
    /// A component node was first mounted: create scope `scope` for
    /// component `comp` with `props`, anchored at backend node `anchor`,
    /// and queue its first render.
    MountScope { scope: u64, comp: u64, props: u64, anchor: u64 },
    /// A matching component node was reached with changed props: store the
    /// new props and queue a re-render.
    UpdateScope { scope: u64, props: u64 },
    /// The component node is gone from the new tree: run the scope's
    /// cleanups, remove its rendered content and free its subtree of scopes.
    RemoveScope { scope: u64 },
    /// The component's anchor was just re-placed among its siblings: place
    /// the scope's rendered content directly after the anchor again.
    MoveScopeAfterAnchor { scope: u64 },
}

} // verus!
