//! The driver: owns the scope arena and the render queue, routes events to
//! the scope whose listener registered them, drains the queue once per tick,
//! and delivers all of a tick's mutations to the backend as one batch.
//!
//! Rendering itself is external: the embedder asks for the next scope to
//! render with [`VirtualDom::next_work`], invokes that component's render
//! function, and hands the produced tree back with
//! [`VirtualDom::complete_render`]. The engine does everything else.

use vstd::prelude::*;

use crate::arena::ScopeArena;
use crate::diff::DiffCtx;
use crate::diff::collect_tops;
use crate::diff::create_node;
use crate::diff::diff_node;
use crate::diff::remove_node;
use crate::mutation::Mutation;
use crate::mutation::WorkItem;
use crate::node::Node;
use crate::node::same_tpl;
use crate::node::view_node;

verus! {

/// One live listener registration: events named `event` on backend node
/// `element` go to `handler`, owned by `scope`.
#[derive(Clone, Copy, PartialEq, Eq, Structural, Debug)]
pub struct ListenerEntry {
    pub element: u64,
    pub event: u64,
    pub handler: u64,
    pub scope: u64,
}

/// `q` with `s` queued once: unchanged when `s` is already waiting.
pub open spec fn push_dedup(q: Seq<u64>, s: u64) -> Seq<u64> {
    if q.contains(s) {
        q
    } else {
        q.push(s)
    }
}

/// Every identity of `d` queued into `q` in order, oldest first, each at
/// most once.
pub open spec fn enqueue_all(q: Seq<u64>, d: Seq<u64>) -> Seq<u64>
    decreases d.len(),
{
    if d.len() == 0 {
        q
    } else {
        enqueue_all(push_dedup(q, d.first()), d.drop_first())
    }
}

/// Is this identity alive in the arena sequence?
pub open spec fn live(scopes: Seq<crate::arena::Scope>, id: u64) -> bool {
    exists|k: int| 0 <= k < scopes.len() && (#[trigger] scopes[k]).id == id
}

/// The engine: arena, render queue, listener registry and the mutation
/// batch of the running tick.
pub struct VirtualDom {
    pub arena: ScopeArena,
    /// Scopes awaiting re-render this tick, oldest first, each at most once.
    pub queue: Vec<u64>,
    /// Scopes that became dirty during the running tick; they move to the
    /// queue when the tick ends, so one tick's work stays bounded.
    pub deferred: Vec<u64>,
    /// Whether a tick is being drained right now.
    pub in_tick: bool,
    /// The scope handed out by `next_work` and not yet completed.
    pub rendering: Option<u64>,
    pub next_el: u64,
    pub next_scope: u64,
    /// The backend node the root component's anchor is appended to.
    pub container: u64,
    pub listeners: Vec<ListenerEntry>,
    /// The mutations of the running tick, in emission order.
    pub batch: Vec<Mutation>,
    /// Cleanup tokens of scopes unmounted this tick, in the order they must
    /// run.
    pub cleanups: Vec<u64>,
}

impl VirtualDom {
    /// A fresh engine serving one root component inside `container`. The
    /// root scope's anchor is created and appended, and the root scope is
    /// queued for its first render.
    pub fn new(container: u64, root_comp: u64, root_props: u64) -> (r: VirtualDom)
        ensures
            r.arena.scopes@.len() == 1,
            r.arena.scopes@[0].comp == root_comp,
            r.arena.scopes@[0].props == root_props,
            r.arena.scopes@[0].parent is None,
            r.arena.scopes@[0].dirty == false,
            r.arena.scopes@[0].content is None,
            r.arena.scopes@[0].hooks@.len() == 0,
            r.arena.scopes@[0].cleanups@.len() == 0,
            r.arena.scopes@[0].render_count == 0,
            r.queue@ == seq![r.arena.scopes@[0].id],
            r.deferred@.len() == 0,
            r.listeners@.len() == 0,
            r.cleanups@.len() == 0,
            r.in_tick == false,
            r.rendering is None,
            r.container == container,
            r.batch@ == seq![
                Mutation::CreatePlaceholder { id: r.arena.scopes@[0].anchor },
                Mutation::AppendChild { parent: container, child: r.arena.scopes@[0].anchor },
            ],
    {
        let mut arena = ScopeArena::new();
        let root_scope: u64 = 1;
        let anchor: u64 = 2;
        arena.mount(root_scope, None, root_comp, root_props, anchor);
        let mut batch: Vec<Mutation> = Vec::new();
        batch.push(Mutation::CreatePlaceholder { id: anchor });
        batch.push(Mutation::AppendChild { parent: container, child: anchor });
        let mut queue: Vec<u64> = Vec::new();
        queue.push(root_scope);
        VirtualDom {
            arena,
            queue,
            deferred: Vec::new(),
            in_tick: false,
            rendering: None,
            next_el: 3,
            next_scope: 2,
            container,
            listeners: Vec::new(),
            batch,
            cleanups: Vec::new(),
        }
    }

    /// Is this scope already awaiting a render?
    fn queued(q: &Vec<u64>, scope: u64) -> (b: bool)
        ensures
            b == q@.contains(scope),
    {
        let mut i: usize = 0;
        while i < q.len()
            invariant
                0 <= i <= q@.len(),
                forall|k: int| 0 <= k < i ==> q@[k] != scope,
            decreases q@.len() - i,
        {
            if q[i] == scope {
                assert(q@.contains(scope));
                return true;
            }
            i = i + 1;
        }
        assert(!q@.contains(scope));
        false
    }

    /// Queue a scope for re-render this tick. A scope already queued is not
    /// queued again: one render per scope per tick.
    fn enqueue(&mut self, scope: u64)
        ensures
            *final(self) == (VirtualDom { queue: final(self).queue, ..*old(self) }),
            final(self).queue@ == push_dedup(old(self).queue@, scope),
            final(self).queue@.contains(scope),
            forall|x: u64|
                old(self).queue@.contains(x) ==> final(self).queue@.contains(x),
    {
        let ghost pre_q = self.queue@;
        if !Self::queued(&self.queue, scope) {
            self.queue.push(scope);
            proof {
                assert(self.queue@.last() == scope);
                assert(self.queue@.contains(scope));
                assert forall|x: u64| pre_q.contains(x) implies self.queue@.contains(x) by {
                    let w = choose|w: int| 0 <= w < pre_q.len() && pre_q[w] == x;
                    assert(self.queue@[w] == x);
                }
            }
        }
    }

    /// An event handler mutated state owned by `id`: mark the scope dirty
    /// and queue it — for the running tick's drain if none is running, for
    /// the next tick if one is (re-entrant dirtiness is deferred, so one
    /// tick's work stays bounded). A stale identity changes nothing: late
    /// work aimed at a dead scope is a no-op, not an error.
    pub fn mark_dirty(&mut self, id: u64)
        ensures
            !live(old(self).arena.scopes@, id) ==> *final(self) == *old(self),
            live(old(self).arena.scopes@, id) ==> ({
                &&& *final(self) == (VirtualDom {
                    arena: final(self).arena,
                    queue: final(self).queue,
                    deferred: final(self).deferred,
                    ..*old(self)
                })
                &&& exists|k: int|
                    0 <= k < old(self).arena.scopes@.len() && (#[trigger] old(self).arena.scopes@[k]).id == id && (forall|t: int|
                        0 <= t < k ==> (#[trigger] old(self).arena.scopes@[t]).id != id) && final(self).arena.scopes@ == old(self).arena.scopes@.update(
                        k,
                        crate::arena::Scope { dirty: true, ..old(self).arena.scopes@[k] },
                    )
                &&& old(self).in_tick ==> (final(self).queue@ == old(self).queue@ && final(self).deferred@ == push_dedup(old(self).deferred@, id))
                &&& !old(self).in_tick ==> (final(self).deferred@ == old(self).deferred@ && final(self).queue@ == push_dedup(old(self).queue@, id))
            }),
    {
        match self.arena.find(id) {
            Some(k) => {
                self.arena.mark_dirty(k);
                if self.in_tick {
                    if !Self::queued(&self.deferred, id) {
                        self.deferred.push(id);
                    }
                } else {
                    self.enqueue(id);
                }
            },
            None => {},
        }
    }

    /// Read one hook slot of the scope being rendered; see
    /// [`ScopeArena::use_hook`] for the slot discipline. A stale identity
    /// reads nothing and changes nothing; so does a scope whose storage is
    /// out of shape (cursor past the end, or storage at the size limit).
    pub fn use_hook(&mut self, id: u64, kind: u64, init: u64) -> (r: Option<
        Result<u64, crate::arena::HookError>,
    >)
        ensures
            !live(old(self).arena.scopes@, id) ==> r is None && *final(self) == *old(self),
            live(old(self).arena.scopes@, id) ==> ({
                &&& *final(self) == (VirtualDom { arena: final(self).arena, ..*old(self) })
                &&& exists|k: int|
                    {
                        let s = old(self).arena.scopes@[k];
                        let f = final(self).arena.scopes@[k];
                        &&& 0 <= k < old(self).arena.scopes@.len()
                        &&& (#[trigger] old(self).arena.scopes@[k]).id == id
                        &&& forall|t: int|
                            0 <= t < k ==> (#[trigger] old(self).arena.scopes@[t]).id != id
                        &&& if !(s.cursor <= s.hooks@.len() && s.hooks@.len() < usize::MAX - 1) {
                            r is None && final(self).arena.scopes@ == old(self).arena.scopes@
                        } else if s.cursor < s.hooks@.len() {
                            if s.hooks@[s.cursor as int].kind == kind {
                                &&& r == Some(
                                    Ok::<u64, crate::arena::HookError>(
                                        s.hooks@[s.cursor as int].value,
                                    ),
                                )
                                &&& final(self).arena.scopes@ == old(self).arena.scopes@.update(
                                    k,
                                    crate::arena::Scope { cursor: (s.cursor + 1) as usize, ..s },
                                )
                            } else {
                                &&& r == Some(
                                    Err::<u64, crate::arena::HookError>(
                                        crate::arena::HookError { slot: s.cursor },
                                    ),
                                )
                                &&& final(self).arena.scopes@ == old(self).arena.scopes@
                            }
                        } else {
                            &&& r == Some(Ok::<u64, crate::arena::HookError>(init))
                            &&& final(self).arena.scopes@ == old(self).arena.scopes@.update(k, f)
                            &&& f.hooks@ == s.hooks@.push(
                                crate::arena::HookSlot { kind, value: init },
                            )
                            &&& f == (crate::arena::Scope {
                                cursor: (s.cursor + 1) as usize,
                                hooks: f.hooks,
                                ..s
                            })
                        }
                    }
            }),
    {
        match self.arena.find(id) {
            Some(k) => {
                if self.arena.scope_at(k).cursor <= self.arena.scope_at(k).hooks.len()
                    && self.arena.scope_at(k).hooks.len() < usize::MAX - 1 {
                    Some(self.arena.use_hook(k, kind, init))
                } else {
                    None
                }
            },
            None => None,
        }
    }

    /// Overwrite a state cell of a live scope, mark the scope dirty and
    /// queue it (for this drain, or deferred while a tick runs): the write
    /// path of an event handler. A stale identity, or a slot the scope does
    /// not have, changes nothing.
    #[verifier::rlimit(100)]
    #[verifier::spinoff_prover]
    pub fn set_state(&mut self, id: u64, slot: usize, value: u64)
        ensures
            !live(old(self).arena.scopes@, id) ==> *final(self) == *old(self),
            live(old(self).arena.scopes@, id) ==> exists|k: int|
                {
                    let s = old(self).arena.scopes@[k];
                    let f = final(self).arena.scopes@[k];
                    &&& 0 <= k < old(self).arena.scopes@.len()
                    &&& (#[trigger] old(self).arena.scopes@[k]).id == id
                    &&& forall|t: int|
                        0 <= t < k ==> (#[trigger] old(self).arena.scopes@[t]).id != id
                    &&& if slot >= s.hooks@.len() {
                        *final(self) == *old(self)
                    } else {
                        &&& *final(self) == (VirtualDom {
                            arena: final(self).arena,
                            queue: final(self).queue,
                            deferred: final(self).deferred,
                            ..*old(self)
                        })
                        &&& final(self).arena.scopes@ == old(self).arena.scopes@.update(k, f)
                        &&& f.hooks@ == s.hooks@.update(
                            slot as int,
                            crate::arena::HookSlot { kind: s.hooks@[slot as int].kind, value },
                        )
                        &&& f == (crate::arena::Scope { dirty: true, hooks: f.hooks, ..s })
                        &&& old(self).in_tick ==> (final(self).queue@ == old(self).queue@ && final(self).deferred@ == push_dedup(old(self).deferred@, id))
                        &&& !old(self).in_tick ==> (final(self).deferred@ == old(self).deferred@
                            && final(self).queue@ == push_dedup(old(self).queue@, id))
                    }
                },
    {
        match self.arena.find(id) {
            Some(k) => {
                if slot < self.arena.scope_at(k).hooks.len() {
                    self.arena.write_hook(k, slot, value);
                    self.mark_dirty(id);
                }
            },
            None => {},
        }
    }

    /// Register a cleanup token for a live scope, after any it already
    /// holds: unmounting hands the tokens out in reverse registration
    /// order. A stale identity changes nothing.
    pub fn push_cleanup(&mut self, id: u64, token: u64)
        ensures
            !live(old(self).arena.scopes@, id) ==> *final(self) == *old(self),
            live(old(self).arena.scopes@, id) ==> ({
                &&& *final(self) == (VirtualDom { arena: final(self).arena, ..*old(self) })
                &&& exists|k: int|
                    {
                        let s = old(self).arena.scopes@[k];
                        let f = final(self).arena.scopes@[k];
                        &&& 0 <= k < old(self).arena.scopes@.len()
                        &&& (#[trigger] old(self).arena.scopes@[k]).id == id
                        &&& forall|t: int|
                            0 <= t < k ==> (#[trigger] old(self).arena.scopes@[t]).id != id
                        &&& final(self).arena.scopes@ == old(self).arena.scopes@.update(k, f)
                        &&& f.cleanups@ == s.cleanups@.push(token)
                        &&& f == (crate::arena::Scope { cleanups: f.cleanups, ..s })
                    }
            }),
    {
        match self.arena.find(id) {
            Some(k) => self.arena.push_cleanup(k, token),
            None => {},
        }
    }

    /// The next scope to render, oldest first, or nothing when the tick's
    /// queue is drained. Marks the tick as running, counts the render call
    /// and rewinds the scope's hook cursor. The caller renders and hands
    /// the tree to `complete_render` before asking again.
    pub fn next_work(&mut self) -> (r: Option<u64>)
        requires
            old(self).rendering is None,
        ensures
            r is None <==> old(self).queue@.len() == 0,
            r is None ==> *final(self) == *old(self),
            r matches Some(s) ==> ({
                &&& old(self).queue@.len() > 0
                &&& s == old(self).queue@[0]
                &&& *final(self) == (VirtualDom {
                    arena: final(self).arena,
                    queue: final(self).queue,
                    in_tick: true,
                    rendering: Some(s),
                    ..*old(self)
                })
                &&& final(self).queue@ == old(self).queue@.drop_first()
                &&& !live(old(self).arena.scopes@, s) ==> final(self).arena.scopes@ == old(self).arena.scopes@
                &&& live(old(self).arena.scopes@, s) ==> exists|k: int|
                    {
                        let sc = old(self).arena.scopes@[k];
                        &&& 0 <= k < old(self).arena.scopes@.len()
                        &&& (#[trigger] old(self).arena.scopes@[k]).id == s
                        &&& forall|t: int|
                            0 <= t < k ==> (#[trigger] old(self).arena.scopes@[t]).id != s
                        &&& final(self).arena.scopes@ == old(self).arena.scopes@.update(
                            k,
                            crate::arena::Scope {
                                dirty: false,
                                cursor: 0,
                                render_count: if sc.render_count < u64::MAX {
                                    (sc.render_count + 1) as u64
                                } else {
                                    sc.render_count
                                },
                                ..sc
                            },
                        )
                    }
            }),
    {
        if self.queue.len() == 0 {
            return None;
        }
        let scope = self.queue.remove(0);
        self.in_tick = true;
        self.rendering = Some(scope);
        match self.arena.find(scope) {
            Some(k) => {
                self.arena.begin_render(k);
            },
            None => {},
        }
        proof {
            assert(self.queue@ =~= old(self).queue@.drop_first());
        }
        Some(scope)
    }

    /// Route a mutation batch segment into the listener registry. A
    /// removal prunes the removed handle's own entries; entries for handles
    /// that fell inside the removed subtree can linger. That is harmless:
    /// the backend raises no events for nodes it no longer shows, and even
    /// a stale resolution only reaches `set_state`/`mark_dirty`, where a
    /// dead scope identity is a no-op.
    fn absorb_listeners(&mut self, muts: &Vec<Mutation>)
        ensures
            *final(self) == (VirtualDom { listeners: final(self).listeners, ..*old(self) }),
            muts@.len() == 0 ==> *final(self) == *old(self),
    {
        let mut i: usize = 0;
        while i < muts.len()
            invariant
                *self == (VirtualDom { listeners: self.listeners, ..*old(self) }),
                muts@.len() == 0 ==> *self == *old(self),
            decreases muts@.len() - i,
        {
            match muts[i] {
                Mutation::NewListener { id, event, handler, scope } => {
                    let mut j: usize = 0;
                    let mut kept: Vec<ListenerEntry> = Vec::new();
                    while j < self.listeners.len()
                        decreases self.listeners@.len() - j,
                    {
                        let e = self.listeners[j];
                        if !(e.element == id && e.event == event) {
                            kept.push(e);
                        }
                        j = j + 1;
                    }
                    kept.push(ListenerEntry { element: id, event, handler, scope });
                    self.listeners = kept;
                },
                Mutation::RemoveListener { id, event } => {
                    let mut j: usize = 0;
                    let mut kept: Vec<ListenerEntry> = Vec::new();
                    while j < self.listeners.len()
                        decreases self.listeners@.len() - j,
                    {
                        let e = self.listeners[j];
                        if !(e.element == id && e.event == event) {
                            kept.push(e);
                        }
                        j = j + 1;
                    }
                    self.listeners = kept;
                },
                Mutation::Remove { id } => {
                    let mut j: usize = 0;
                    let mut kept: Vec<ListenerEntry> = Vec::new();
                    while j < self.listeners.len()
                        decreases self.listeners@.len() - j,
                    {
                        let e = self.listeners[j];
                        if !(e.element == id) {
                            kept.push(e);
                        }
                        j = j + 1;
                    }
                    self.listeners = kept;
                },
                _ => {},
            }
            i = i + 1;
        }
    }

    /// Emit removals for the committed content of every scope in the doomed
    /// subtree of `root`, oldest first; their anchors are removed by the
    /// differ or fall with enclosing nodes.
    fn remove_subtree_content(&mut self, root: u64)
        ensures
            *final(self) == (VirtualDom {
                arena: final(self).arena,
                batch: final(self).batch,
                ..*old(self)
            }),
            old(self).batch@.is_prefix_of(final(self).batch@),
            final(self).arena.scopes@.len() == old(self).arena.scopes@.len(),
    {
        proof {
            assert(self.batch@.is_prefix_of(self.batch@)) by {
                assert(self.batch@ =~= self.batch@.subrange(0, self.batch@.len() as int));
            }
        }
        let mut doomed: Vec<u64> = Vec::new();
        doomed.push(root);
        let mut k: usize = 0;
        while k < self.arena.scopes.len()
            invariant
                self.arena.scopes@.len() == old(self).arena.scopes@.len(),
                *self == (VirtualDom { arena: self.arena, batch: self.batch, ..*old(self) }),
                old(self).batch@.is_prefix_of(self.batch@),
            decreases self.arena.scopes@.len() - k,
        {
            let ghost pre_b = self.batch@;
            let sid = self.arena.scope_at(k).id;
            let parent = self.arena.scope_at(k).parent;
            let in_doom = match parent {
                Some(p) => Self::queued(&doomed, p) || Self::queued(&doomed, sid),
                None => Self::queued(&doomed, sid),
            };
            if in_doom {
                if !Self::queued(&doomed, sid) {
                    doomed.push(sid);
                }
                let content = self.arena.take_content(k);
                match content {
                    Some(c) => {
                        let mut tops: Vec<u64> = Vec::new();
                        collect_tops(&c, &mut tops);
                        let mut t: usize = 0;
                        while t < tops.len()
                            invariant
                                self.arena.scopes@.len() == old(self).arena.scopes@.len(),
                                *self == (VirtualDom {
                                    arena: self.arena,
                                    batch: self.batch,
                                    ..*old(self)
                                }),
                                old(self).batch@.is_prefix_of(self.batch@),
                            decreases tops@.len() - t,
                        {
                            let ghost b0 = self.batch@;
                            self.batch.push(Mutation::Remove { id: tops[t] });
                            proof {
                                assert(b0.is_prefix_of(self.batch@)) by {
                                    assert(b0 =~= self.batch@.subrange(0, b0.len() as int));
                                }
                                crate::diff::lemma_prefix_trans(
                                    old(self).batch@,
                                    b0,
                                    self.batch@,
                                );
                            }
                            t = t + 1;
                        }
                    },
                    None => {},
                }
            }
            k = k + 1;
        }
    }

    /// Place the committed content of a live scope directly after its
    /// anchor again, top node by top node: the content follows its anchor
    /// wherever keyed reconciliation moved it.
    fn replace_content_after_anchor(&mut self, id: u64)
        ensures
            *final(self) == (VirtualDom {
                arena: final(self).arena,
                batch: final(self).batch,
                ..*old(self)
            }),
            old(self).batch@.is_prefix_of(final(self).batch@),
            crate::diff::placements_only_from(old(self).batch@, final(self).batch@),
    {
        proof {
            assert(self.batch@.is_prefix_of(self.batch@)) by {
                assert(self.batch@ =~= self.batch@.subrange(0, self.batch@.len() as int));
            }
        }
        match self.arena.find(id) {
            Some(k) => {
                let anchor = self.arena.scope_at(k).anchor;
                let content = self.arena.take_content(k);
                match content {
                    Some(c) => {
                        let mut tops: Vec<u64> = Vec::new();
                        collect_tops(&c, &mut tops);
                        let mut prev = anchor;
                        let mut t: usize = 0;
                        while t < tops.len()
                            invariant
                                *self == (VirtualDom {
                                    arena: self.arena,
                                    batch: self.batch,
                                    ..*old(self)
                                }),
                                old(self).batch@.is_prefix_of(self.batch@),
                                crate::diff::placements_only_from(old(self).batch@, self.batch@),
                            decreases tops@.len() - t,
                        {
                            let ghost b0 = self.batch@;
                            self.batch.push(Mutation::InsertAfter { anchor: prev, node: tops[t] });
                            proof {
                                assert(b0.is_prefix_of(self.batch@)) by {
                                    assert(b0 =~= self.batch@.subrange(0, b0.len() as int));
                                }
                                crate::diff::lemma_prefix_trans(
                                    old(self).batch@,
                                    b0,
                                    self.batch@,
                                );
                                assert(crate::diff::placements_only_from(b0, self.batch@)) by {
                                    assert(forall|w: int|
                                        b0.len() <= w < self.batch@.len()
                                            ==> (#[trigger] self.batch@[w]).is_placement());
                                }
                                crate::diff::lemma_placements_trans(
                                    old(self).batch@,
                                    b0,
                                    self.batch@,
                                );
                            }
                            prev = tops[t];
                            t = t + 1;
                        }
                        match self.arena.find(id) {
                            Some(k2) => self.arena.commit_content(k2, Some(c)),
                            None => {},
                        }
                    },
                    None => {},
                }
            },
            None => {},
        }
    }

    /// Resolve the scope work a diffing pass emitted, in order: mount fresh
    /// scopes and queue their first render, store changed props and queue a
    /// re-render (unchanged props emit no work: that is the short-circuit),
    /// unmount removed scopes — their cleanups run in the order
    /// [`crate::arena::cleanup_trace`] gives — and re-place moved component
    /// content.
    fn process_work(&mut self, owner: u64, work: Vec<WorkItem>)
        ensures
            *final(self) == (VirtualDom {
                arena: final(self).arena,
                queue: final(self).queue,
                batch: final(self).batch,
                cleanups: final(self).cleanups,
                ..*old(self)
            }),
            old(self).batch@.is_prefix_of(final(self).batch@),
            old(self).cleanups@.is_prefix_of(final(self).cleanups@),
            old(self).queue@.is_prefix_of(final(self).queue@),
            work@.len() == 0 ==> *final(self) == *old(self),
            forall|t: int|
                (0 <= t < work@.len() && (#[trigger] work@[t]) matches WorkItem::MountScope { .. })
                    ==> final(self).queue@.contains(work@[t]->MountScope_scope),
            forall|x: u64|
                final(self).queue@.contains(x) && !old(self).queue@.contains(x) ==> exists|t: int|
                    0 <= t < work@.len() && (((#[trigger] work@[t]) matches WorkItem::MountScope {
                        ..
                    } && work@[t]->MountScope_scope == x) || (work@[t]
                        matches WorkItem::UpdateScope { .. } && work@[t]->UpdateScope_scope == x)),
            (forall|t: int|
                0 <= t < work@.len() ==> ((#[trigger] work@[t]) matches WorkItem::MountScope { .. }
                    || work@[t] matches WorkItem::MoveScopeAfterAnchor { .. })) ==> crate::diff::no_removals_from(
                old(self).batch@,
                final(self).batch@,
            ),
    {
        proof {
            assert(self.batch@.is_prefix_of(self.batch@)) by {
                assert(self.batch@ =~= self.batch@.subrange(0, self.batch@.len() as int));
            }
            assert(self.cleanups@.is_prefix_of(self.cleanups@)) by {
                assert(self.cleanups@ =~= self.cleanups@.subrange(
                    0,
                    self.cleanups@.len() as int,
                ));
            }
            assert(self.queue@.is_prefix_of(self.queue@)) by {
                assert(self.queue@ =~= self.queue@.subrange(0, self.queue@.len() as int));
            }
            assert(crate::diff::no_removals_from(self.batch@, self.batch@));
        }
        let mut i: usize = 0;
        while i < work.len()
            invariant
                0 <= i <= work@.len(),
                *self == (VirtualDom {
                    arena: self.arena,
                    queue: self.queue,
                    batch: self.batch,
                    cleanups: self.cleanups,
                    ..*old(self)
                }),
                old(self).batch@.is_prefix_of(self.batch@),
                old(self).cleanups@.is_prefix_of(self.cleanups@),
                old(self).queue@.is_prefix_of(self.queue@),
                work@.len() == 0 ==> *self == *old(self),
                forall|t: int|
                    (0 <= t < i && (#[trigger] work@[t]) matches WorkItem::MountScope { .. })
                        ==> self.queue@.contains(work@[t]->MountScope_scope),
                forall|x: u64|
                    self.queue@.contains(x) && !old(self).queue@.contains(x) ==> exists|t: int|
                        0 <= t < i && (((#[trigger] work@[t]) matches WorkItem::MountScope { .. }
                            && work@[t]->MountScope_scope == x) || (work@[t]
                            matches WorkItem::UpdateScope { .. } && work@[t]->UpdateScope_scope
                            == x)),
                (forall|t: int|
                    0 <= t < work@.len() ==> ((#[trigger] work@[t]) matches WorkItem::MountScope {
                        ..
                    } || work@[t] matches WorkItem::MoveScopeAfterAnchor { .. }))
                    ==> crate::diff::no_removals_from(old(self).batch@, self.batch@),
            decreases work@.len() - i,
        {
            let ghost pre_self = *self;
            match work[i] {
                WorkItem::MountScope { scope, comp, props, anchor } => {
                    match self.arena.find(scope) {
                        None => self.arena.mount(scope, Some(owner), comp, props, anchor),
                        Some(_) => {},
                    }
                    self.enqueue(scope);
                },
                WorkItem::UpdateScope { scope, props } => {
                    match self.arena.find(scope) {
                        Some(k) => {
                            self.arena.set_props(k, props);
                            self.enqueue(scope);
                        },
                        None => {},
                    }
                },
                WorkItem::RemoveScope { scope } => {
                    self.remove_subtree_content(scope);
                    let ghost b_rm = self.batch@;
                    let tokens = self.arena.unmount(scope);
                    proof {
                        assert(pre_self.cleanups@.is_prefix_of(self.cleanups@)) by {
                            assert(pre_self.cleanups@ =~= self.cleanups@.subrange(
                                0,
                                pre_self.cleanups@.len() as int,
                            ));
                        }
                    }
                    let mut t: usize = 0;
                    while t < tokens.len()
                        invariant
                            *self == (VirtualDom {
                                arena: self.arena,
                                queue: self.queue,
                                batch: self.batch,
                                cleanups: self.cleanups,
                                ..*old(self)
                            }),
                            self.batch@ == b_rm,
                            self.queue@ == pre_self.queue@,
                            pre_self.cleanups@.is_prefix_of(self.cleanups@),
                        decreases tokens@.len() - t,
                    {
                        let ghost c0 = self.cleanups@;
                        self.cleanups.push(tokens[t]);
                        proof {
                            assert(c0.is_prefix_of(self.cleanups@)) by {
                                assert(c0 =~= self.cleanups@.subrange(0, c0.len() as int));
                            }
                            crate::diff::lemma_prefix_trans(
                                pre_self.cleanups@,
                                c0,
                                self.cleanups@,
                            );
                        }
                        t = t + 1;
                    }
                },
                WorkItem::MoveScopeAfterAnchor { scope } => {
                    self.replace_content_after_anchor(scope);
                },
            }
            proof {
                if self.batch@ == pre_self.batch@ {
                    assert(pre_self.batch@.is_prefix_of(self.batch@)) by {
                        assert(pre_self.batch@ =~= self.batch@.subrange(
                            0,
                            pre_self.batch@.len() as int,
                        ));
                    }
                }
                crate::diff::lemma_prefix_trans(old(self).batch@, pre_self.batch@, self.batch@);
                if self.cleanups@ == pre_self.cleanups@ {
                    assert(pre_self.cleanups@.is_prefix_of(self.cleanups@)) by {
                        assert(pre_self.cleanups@ =~= self.cleanups@.subrange(
                            0,
                            pre_self.cleanups@.len() as int,
                        ));
                    }
                }
                crate::diff::lemma_prefix_trans(
                    old(self).cleanups@,
                    pre_self.cleanups@,
                    self.cleanups@,
                );
                if forall|t: int|
                    0 <= t < work@.len() ==> ((#[trigger] work@[t]) matches WorkItem::MountScope {
                        ..
                    } || work@[t] matches WorkItem::MoveScopeAfterAnchor { .. }) {
                    if self.batch@ == pre_self.batch@ {
                        assert(crate::diff::no_removals_from(pre_self.batch@, self.batch@)) by {
                            assert(pre_self.batch@ =~= self.batch@.subrange(
                                0,
                                pre_self.batch@.len() as int,
                            ));
                        }
                    } else {
                        crate::diff::lemma_placements_are_no_removals(
                            pre_self.batch@,
                            self.batch@,
                        );
                    }
                    crate::diff::lemma_no_removals_trans(
                        old(self).batch@,
                        pre_self.batch@,
                        self.batch@,
                    );
                }
                assert forall|t: int|
                    (0 <= t < i + 1 && (#[trigger] work@[t]) matches WorkItem::MountScope {
                        ..
                    }) implies self.queue@.contains(work@[t]->MountScope_scope) by {
                    if t < i {
                        assert(pre_self.queue@.contains(work@[t]->MountScope_scope));
                    }
                }
                if self.queue@ == pre_self.queue@ {
                    assert(pre_self.queue@.is_prefix_of(self.queue@)) by {
                        assert(pre_self.queue@ =~= self.queue@.subrange(
                            0,
                            pre_self.queue@.len() as int,
                        ));
                    }
                } else {
                    assert(pre_self.queue@.is_prefix_of(self.queue@)) by {
                        assert(pre_self.queue@ =~= self.queue@.subrange(
                            0,
                            pre_self.queue@.len() as int,
                        ));
                    }
                }
                crate::diff::lemma_prefix_trans(old(self).queue@, pre_self.queue@, self.queue@);
                assert forall|x: u64|
                    self.queue@.contains(x) && !old(self).queue@.contains(x) implies exists|t: int|
                        0 <= t < i + 1 && (((#[trigger] work@[t]) matches WorkItem::MountScope {
                            ..
                        } && work@[t]->MountScope_scope == x) || (work@[t]
                            matches WorkItem::UpdateScope { .. } && work@[t]->UpdateScope_scope
                            == x)) by {
                    if pre_self.queue@.contains(x) {
                        let t0 = choose|t0: int|
                            0 <= t0 < i && (((#[trigger] work@[t0])
                                matches WorkItem::MountScope { .. } && work@[t0]->MountScope_scope
                                == x) || (work@[t0] matches WorkItem::UpdateScope { .. }
                                && work@[t0]->UpdateScope_scope == x));
                        assert(0 <= t0 < i + 1);
                    }
                }
            }
            i = i + 1;
        }
        proof {
            assert forall|x: u64|
                self.queue@.contains(x) && !old(self).queue@.contains(x) implies exists|t: int|
                    0 <= t < work@.len() && (((#[trigger] work@[t]) matches WorkItem::MountScope {
                        ..
                    } && work@[t]->MountScope_scope == x) || (work@[t]
                        matches WorkItem::UpdateScope { .. } && work@[t]->UpdateScope_scope
                        == x)) by {
                let t0 = choose|t0: int|
                    0 <= t0 < i && (((#[trigger] work@[t0]) matches WorkItem::MountScope { .. }
                        && work@[t0]->MountScope_scope == x) || (work@[t0]
                        matches WorkItem::UpdateScope { .. } && work@[t0]->UpdateScope_scope
                        == x));
                assert(0 <= t0 < work@.len());
            }
        }
    }

    /// Commit the tree a render pass produced for `scope`: diff it against
    /// the scope's last committed content, append the mutations to the
    /// tick's batch, and resolve the scope work. A root that is a bare
    /// placeholder commits as empty content: the scope renders nothing and
    /// its anchor alone holds its place, so a later re-render creates
    /// without removing.
    ///
    /// A tree that matches the committed content template leaves the batch,
    /// the queue and every scope untouched: re-rendering without change
    /// costs nothing downstream.
    ///
    /// This is also the containment path for a failed render: the embedder
    /// hands the engine a bare placeholder for the failing scope — the
    /// deterministic error stand-in — so that scope's old content is
    /// removed, its anchor keeps its place, and the tick's other scopes
    /// proceed unaffected.
    pub fn complete_render(&mut self, scope: u64, tree: Node)
        requires
            old(self).rendering == Some(scope),
        ensures
            final(self).rendering is None,
            old(self).batch@.is_prefix_of(final(self).batch@),
            old(self).cleanups@.is_prefix_of(final(self).cleanups@),
            old(self).queue@.is_prefix_of(final(self).queue@),
            (!(tree matches Node::Placeholder { .. }) && (forall|k: int|
                0 <= k < old(self).arena.scopes@.len() && (#[trigger] old(self).arena.scopes@[k]).id == scope ==> (old(self).arena.scopes@[k].content matches Some(
                    c,
                ) && same_tpl(view_node(c), view_node(tree))))) ==> (final(self).batch@ == old(self).batch@ && final(self).queue@ == old(self).queue@),
            ((tree matches Node::Placeholder { .. }) && (forall|k: int|
                0 <= k < old(self).arena.scopes@.len() && (#[trigger] old(self).arena.scopes@[k]).id == scope ==> old(self).arena.scopes@[k].content is None)) ==> (final(self).batch@
                == old(self).batch@ && final(self).queue@ == old(self).queue@),
            live(final(self).arena.scopes@, scope) ==> exists|k: int|
                {
                    &&& 0 <= k < final(self).arena.scopes@.len()
                    &&& (#[trigger] final(self).arena.scopes@[k]).id == scope
                    &&& if tree matches Node::Placeholder { .. } {
                        final(self).arena.scopes@[k].content is None
                    } else {
                        final(self).arena.scopes@[k].content matches Some(c) && same_tpl(
                            view_node(c),
                            view_node(tree),
                        )
                    }
                },
            (live(old(self).arena.scopes@, scope) && !(tree matches Node::Placeholder { .. }) && (
            forall|k: int|
                0 <= k < old(self).arena.scopes@.len() && (#[trigger] old(self).arena.scopes@[k]).id
                    == scope ==> old(self).arena.scopes@[k].content is None)) ==> (final(self).batch@.len() > old(self).batch@.len() && crate::diff::no_removals_from(
                old(self).batch@,
                final(self).batch@,
            )),
            (live(old(self).arena.scopes@, scope) && (tree matches Node::Placeholder { .. }) && (
            forall|k: int|
                0 <= k < old(self).arena.scopes@.len() && (#[trigger] old(self).arena.scopes@[k]).id
                    == scope ==> old(self).arena.scopes@[k].content is Some)) ==> final(self).batch@.len() > old(self).batch@.len(),
    {
        self.rendering = None;
        proof {
            assert(self.queue@.is_prefix_of(self.queue@)) by {
                assert(self.queue@ =~= self.queue@.subrange(0, self.queue@.len() as int));
            }
        }
        let k = match self.arena.find(scope) {
            Some(k) => k,
            None => {
                return ;
            },
        };
        let ghost fresh_case = live(old(self).arena.scopes@, scope) && !(tree
            matches Node::Placeholder { .. }) && (forall|t: int|
            0 <= t < old(self).arena.scopes@.len() && (#[trigger] old(self).arena.scopes@[t]).id
                == scope ==> old(self).arena.scopes@[t].content is None);
        let anchor = self.arena.scope_at(k).anchor;
        let content = self.arena.take_content(k);
        let mut ctx = DiffCtx::new(scope, self.next_el, self.next_scope);
        let renders_nothing = match &tree {
            Node::Placeholder { .. } => true,
            _ => false,
        };
        let new_content: Option<Node> = if renders_nothing {
            match &content {
                Some(old_c) => {
                    remove_node(old_c, &mut ctx);
                },
                None => {},
            }
            None
        } else {
            match &content {
                Some(old_c) => Some(diff_node(old_c, &tree, &mut ctx)),
                None => {
                    let ghost c0 = ctx;
                    let m = create_node(&tree, &mut ctx);
                    proof {
                        assert(forall|w: int|
                            0 <= w < ctx.muts@.len() ==> !((#[trigger] ctx.muts@[w])
                                matches Mutation::Remove { .. }));
                        assert(forall|w: int|
                            0 <= w < ctx.work@.len() ==> ((#[trigger] ctx.work@[w])
                                matches WorkItem::MountScope { .. } || ctx.work@[w]
                                matches WorkItem::MoveScopeAfterAnchor { .. }));
                    }
                    let mut tops: Vec<u64> = Vec::new();
                    collect_tops(&m, &mut tops);
                    let mut prev = anchor;
                    let mut t: usize = 0;
                    while t < tops.len()
                        invariant
                            ctx.muts@.len() > 0,
                            ctx.scope == scope,
                            forall|w: int|
                                0 <= w < ctx.muts@.len() ==> !((#[trigger] ctx.muts@[w])
                                    matches Mutation::Remove { .. }),
                            forall|w: int|
                                0 <= w < ctx.work@.len() ==> ((#[trigger] ctx.work@[w])
                                    matches WorkItem::MountScope { .. } || ctx.work@[w]
                                    matches WorkItem::MoveScopeAfterAnchor { .. }),
                        decreases tops@.len() - t,
                    {
                        ctx.muts.push(Mutation::InsertAfter { anchor: prev, node: tops[t] });
                        prev = tops[t];
                        t = t + 1;
                    }
                    Some(m)
                },
            }
        };
        proof {
            assert(renders_nothing == (tree matches Node::Placeholder { .. }));
            if !renders_nothing {
                assert(new_content matches Some(m) && same_tpl(view_node(m), view_node(tree)));
            }
        }
        self.next_el = ctx.next_el;
        self.next_scope = ctx.next_scope;
        self.absorb_listeners(&ctx.muts);
        proof {
            assert(old(self).batch@.is_prefix_of(self.batch@)) by {
                assert(old(self).batch@ =~= self.batch@.subrange(
                    0,
                    old(self).batch@.len() as int,
                ));
            }
        }
        let mut mi: usize = 0;
        let ghost pre_muts = *self;
        proof {
            if fresh_case {
                assert(crate::diff::no_removals_from(old(self).batch@, self.batch@)) by {
                    assert(old(self).batch@ =~= self.batch@.subrange(
                        0,
                        old(self).batch@.len() as int,
                    ));
                }
            }
        }
        while mi < ctx.muts.len()
            invariant
                old(self).batch@.is_prefix_of(self.batch@),
                self.rendering is None,
                ctx.muts@.len() == 0 ==> *self == pre_muts,
                self.queue@ == pre_muts.queue@,
                self.cleanups@ == pre_muts.cleanups@,
                self.arena == pre_muts.arena,
                self.batch@.len() == pre_muts.batch@.len() + mi,
                0 <= mi <= ctx.muts@.len(),
                fresh_case ==> (crate::diff::no_removals_from(old(self).batch@, self.batch@)
                    && (forall|w: int|
                    0 <= w < ctx.muts@.len() ==> !((#[trigger] ctx.muts@[w])
                        matches Mutation::Remove { .. }))),
            decreases ctx.muts@.len() - mi,
        {
            let ghost b0 = self.batch@;
            self.batch.push(ctx.muts[mi]);
            proof {
                assert(b0.is_prefix_of(self.batch@)) by {
                    assert(b0 =~= self.batch@.subrange(0, b0.len() as int));
                }
                crate::diff::lemma_prefix_trans(old(self).batch@, b0, self.batch@);
                if fresh_case {
                    crate::diff::lemma_no_removals_push(
                        old(self).batch@,
                        b0,
                        ctx.muts@[mi as int],
                    );
                }
            }
            mi = mi + 1;
        }
        let ghost mid = *self;
        self.process_work(scope, ctx.work);
        proof {
            crate::diff::lemma_prefix_trans(old(self).batch@, mid.batch@, self.batch@);
            assert(old(self).cleanups@.is_prefix_of(mid.cleanups@)) by {
                assert(old(self).cleanups@ =~= mid.cleanups@.subrange(
                    0,
                    old(self).cleanups@.len() as int,
                ));
            }
            crate::diff::lemma_prefix_trans(old(self).cleanups@, mid.cleanups@, self.cleanups@);
            assert(old(self).queue@.is_prefix_of(mid.queue@)) by {
                assert(old(self).queue@ =~= mid.queue@.subrange(
                    0,
                    old(self).queue@.len() as int,
                ));
            }
            crate::diff::lemma_prefix_trans(old(self).queue@, mid.queue@, self.queue@);
            if fresh_case {
                crate::diff::lemma_no_removals_trans(old(self).batch@, mid.batch@, self.batch@);
            }
        }
        match self.arena.find(scope) {
            Some(k2) => {
                self.arena.commit_content(k2, new_content);
                proof {
                    assert(self.arena.scopes@[k2 as int].id == scope);
                    assert(self.arena.scopes@[k2 as int].content == new_content);
                }
            },
            None => {},
        }
    }

    /// End the tick: hand over the batch, move the deferred dirtiness into
    /// the next tick's queue (oldest first, each identity at most once),
    /// and reset the tick marker. The backend must apply the returned
    /// mutations as one atomic step from the user's point of view.
    pub fn end_tick(&mut self) -> (batch: Vec<Mutation>)
        requires
            old(self).rendering is None,
        ensures
            batch@ == old(self).batch@,
            *final(self) == (VirtualDom {
                queue: final(self).queue,
                deferred: final(self).deferred,
                in_tick: false,
                batch: final(self).batch,
                ..*old(self)
            }),
            final(self).batch@.len() == 0,
            final(self).deferred@.len() == 0,
            final(self).queue@ == enqueue_all(old(self).queue@, old(self).deferred@),
    {
        let mut out: Vec<Mutation> = Vec::new();
        std::mem::swap(&mut out, &mut self.batch);
        let mut d: Vec<u64> = Vec::new();
        std::mem::swap(&mut d, &mut self.deferred);
        let mut t: usize = 0;
        proof {
            assert(d@.skip(0) =~= d@);
        }
        while t < d.len()
            invariant
                0 <= t <= d@.len(),
                self.batch@.len() == 0,
                self.deferred@.len() == 0,
                *self == (VirtualDom {
                    queue: self.queue,
                    deferred: self.deferred,
                    batch: self.batch,
                    ..*old(self)
                }),
                enqueue_all(self.queue@, d@.skip(t as int)) == enqueue_all(
                    old(self).queue@,
                    old(self).deferred@,
                ),
                d@ == old(self).deferred@,
            decreases d@.len() - t,
        {
            proof {
                assert(d@.skip(t as int).first() == d@[t as int]);
                assert(d@.skip(t as int).drop_first() =~= d@.skip(t as int + 1));
            }
            self.enqueue(d[t]);
            t = t + 1;
        }
        proof {
            assert(d@.skip(d@.len() as int) =~= Seq::<u64>::empty());
        }
        self.in_tick = false;
        out
    }

    /// Take the cleanup tokens of the scopes unmounted so far, in the order
    /// they must run; each token is handed out exactly once.
    pub fn take_cleanups(&mut self) -> (r: Vec<u64>)
        ensures
            r@ == old(self).cleanups@,
            final(self).cleanups@.len() == 0,
    {
        let mut out: Vec<u64> = Vec::new();
        std::mem::swap(&mut out, &mut self.cleanups);
        out
    }

    /// Resolve an event on a backend node to the listener that owns it: the
    /// most recent registration for that node and event name, if one is
    /// live. The caller invokes the handler and feeds mutations back
    /// through `set_state` or `mark_dirty`.
    pub fn dispatch_event(&self, element: u64, event: u64) -> (r: Option<(u64, u64)>)
        ensures
            r matches Some((s, h)) ==> exists|k: int|
                {
                    &&& 0 <= k < self.listeners@.len()
                    &&& (#[trigger] self.listeners@[k]) == (ListenerEntry {
                        element,
                        event,
                        handler: h,
                        scope: s,
                    })
                    &&& forall|t: int|
                        k < t < self.listeners@.len() ==> !((#[trigger] self.listeners@[t]).element
                            == element && self.listeners@[t].event == event)
                },
            r is None ==> forall|k: int|
                0 <= k < self.listeners@.len() ==> !((#[trigger] self.listeners@[k]).element
                    == element && self.listeners@[k].event == event),
    {
        let mut i: usize = self.listeners.len();
        while i > 0
            invariant
                0 <= i <= self.listeners@.len(),
                forall|k: int|
                    i <= k < self.listeners@.len() ==> !((#[trigger] self.listeners@[k]).element
                        == element && self.listeners@[k].event == event),
            decreases i,
        {
            i = i - 1;
            let e = self.listeners[i];
            if e.element == element && e.event == event {
                return Some((e.scope, e.handler));
            }
        }
        None
    }
}

} // verus!
