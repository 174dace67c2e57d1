//! The scope arena: owns every live component instance, its props, its
//! positional hook storage, its registered cleanups and its last committed
//! content tree. Scope identities are handed out once and never reused;
//! whoever holds a stale identity learns of the death by lookup, never by a
//! dangling reference.

use vstd::prelude::*;

use crate::node::Node;

verus! {

/// One positional hook slot: a kind tag the hook author supplies, and the
/// stored value. The kind is checked on every re-render; a mismatch means
/// the render read its hooks in a different order, which is fatal for the
/// scope.
#[derive(Clone, Copy, PartialEq, Eq, Structural, Debug)]
pub struct HookSlot {
    pub kind: u64,
    pub value: u64,
}

/// Hook misuse: the slot at `slot` was created with another kind than the
/// one this render asked for.
#[derive(Clone, Copy, PartialEq, Eq, Structural, Debug)]
pub struct HookError {
    pub slot: usize,
}

/// One live component instance.
pub struct Scope {
    /// Stable identity, assigned at mount, never reused.
    pub id: u64,
    /// The scope that mounted this one; navigation only, not ownership.
    pub parent: Option<u64>,
    /// The component reference this scope instantiates.
    pub comp: u64,
    /// The props the parent last supplied.
    pub props: u64,
    /// The backend placeholder that marks this scope's position; its
    /// rendered content sits directly after it.
    pub anchor: u64,
    /// Marked when the scope's own state changed and it awaits a re-render.
    pub dirty: bool,
    /// The last committed content tree; `None` while nothing visible is
    /// rendered (a placeholder-only render).
    pub content: Option<Node>,
    /// Positional hook storage, append-only across this scope's lifetime.
    pub hooks: Vec<HookSlot>,
    /// The next hook slot the running render will read.
    pub cursor: usize,
    /// Cleanup tokens in registration order.
    pub cleanups: Vec<u64>,
    /// How many times this scope's render function has been invoked.
    pub render_count: u64,
}

/// A sequence reversed.
pub open spec fn rev_seq(s: Seq<u64>) -> Seq<u64>
    decreases s.len(),
{
    if s.len() == 0 {
        Seq::empty()
    } else {
        rev_seq(s.drop_first()).push(s.first())
    }
}

/// Which scopes are unmounted when `root` is unmounted: the root itself,
/// and every descendant of it through parent links. Parents always stand at
/// lower indices than their children, because identities are handed out in
/// mount order, so one pass from the oldest scope to the newest settles
/// every flag.
pub open spec fn doom_flags(scopes: Seq<Scope>, root: u64, upto: int) -> Seq<bool>
    decreases upto,
{
    if upto <= 0 {
        Seq::empty()
    } else {
        let prev = doom_flags(scopes, root, upto - 1);
        prev.push(
            scopes[upto - 1].id == root || (exists|j: int|
                0 <= j < upto - 1 && prev[j] && scopes[upto - 1].parent == Some(
                    #[trigger] scopes[j].id,
                )),
        )
    }
}

/// Is the scope at index `i` unmounted when `root` is unmounted?
pub open spec fn is_doomed(scopes: Seq<Scope>, root: u64, i: int) -> bool {
    doom_flags(scopes, root, scopes.len() as int)[i]
}

/// The exact cleanup trace of unmounting `root`: walking the arena from the
/// most recently mounted scope back to the oldest, every doomed scope
/// contributes its cleanups exactly once, in reverse registration order.
/// Children were mounted after their parents, so a child's cleanups run
/// before its parent's.
pub open spec fn cleanup_trace_from(scopes: Seq<Scope>, flags: Seq<bool>, from: int) -> Seq<u64>
    decreases scopes.len() - from,
{
    if from < 0 || from >= scopes.len() {
        Seq::empty()
    } else {
        cleanup_trace_from(scopes, flags, from + 1) + (if flags[from] {
            rev_seq(scopes[from].cleanups@)
        } else {
            Seq::empty()
        })
    }
}

pub open spec fn cleanup_trace(scopes: Seq<Scope>, root: u64) -> Seq<u64> {
    cleanup_trace_from(scopes, doom_flags(scopes, root, scopes.len() as int), 0)
}

/// The scopes that survive unmounting `root`, in their arena order.
pub open spec fn kept_upto(scopes: Seq<Scope>, flags: Seq<bool>, upto: int) -> Seq<Scope>
    decreases upto,
{
    if upto <= 0 {
        Seq::empty()
    } else {
        kept_upto(scopes, flags, upto - 1) + (if flags[upto - 1] {
            Seq::empty()
        } else {
            seq![scopes[upto - 1]]
        })
    }
}

/// The survivors of unmounting `root`.
pub open spec fn kept_scopes(scopes: Seq<Scope>, root: u64) -> Seq<Scope> {
    kept_upto(scopes, doom_flags(scopes, root, scopes.len() as int), scopes.len() as int)
}

/// The arena itself: the live scopes, in mount order (identities ascend).
pub struct ScopeArena {
    pub scopes: Vec<Scope>,
}

impl ScopeArena {
    pub fn new() -> (r: ScopeArena)
        ensures
            r.scopes@ == Seq::<Scope>::empty(),
    {
        ScopeArena { scopes: Vec::new() }
    }

    /// Mount a fresh scope: a new instance of `comp` with `props`, anchored
    /// at `anchor`, owned by `parent`. The caller supplies the identity the
    /// differ allocated; it must be fresh — identities are never reused.
    pub fn mount(&mut self, id: u64, parent: Option<u64>, comp: u64, props: u64, anchor: u64)
        requires
            forall|k: int|
                0 <= k < old(self).scopes@.len() ==> (#[trigger] old(self).scopes@[k]).id != id,
        ensures
            ({
                let f = final(self).scopes@.last();
                &&& final(self).scopes@ == old(self).scopes@.push(f)
                &&& f.id == id
                &&& f.parent == parent
                &&& f.comp == comp
                &&& f.props == props
                &&& f.anchor == anchor
                &&& f.dirty == false
                &&& f.content is None
                &&& f.hooks@ == Seq::<HookSlot>::empty()
                &&& f.cursor == 0
                &&& f.cleanups@ == Seq::<u64>::empty()
                &&& f.render_count == 0
            }),
    {
        self.scopes.push(
            Scope {
                id,
                parent,
                comp,
                props,
                anchor,
                dirty: false,
                content: None,
                hooks: Vec::new(),
                cursor: 0,
                cleanups: Vec::new(),
                render_count: 0,
            },
        );
    }

    /// The arena index of the live scope with this identity, if it is
    /// alive. A stale identity simply finds nothing.
    pub fn find(&self, id: u64) -> (r: Option<usize>)
        ensures
            r matches Some(k) ==> 0 <= k < self.scopes@.len() && self.scopes@[k as int].id == id
                && (forall|t: int| 0 <= t < k ==> (#[trigger] self.scopes@[t]).id != id),
            r is None ==> forall|k: int|
                0 <= k < self.scopes@.len() ==> (#[trigger] self.scopes@[k]).id != id,
    {
        let mut k: usize = 0;
        while k < self.scopes.len()
            invariant
                0 <= k <= self.scopes@.len(),
                forall|t: int| 0 <= t < k ==> (#[trigger] self.scopes@[t]).id != id,
            decreases self.scopes@.len() - k,
        {
            if self.scopes[k].id == id {
                return Some(k);
            }
            k = k + 1;
        }
        None
    }

    /// The scope at arena index `k`.
    pub fn scope_at(&self, k: usize) -> (s: &Scope)
        requires
            k < self.scopes@.len(),
        ensures
            *s == self.scopes@[k as int],
    {
        &self.scopes[k]
    }

    /// Mark the scope at arena index `k` dirty: its state changed and it
    /// awaits a re-render.
    pub fn mark_dirty(&mut self, k: usize)
        requires
            k < old(self).scopes@.len(),
        ensures
            final(self).scopes@ == old(self).scopes@.update(
                k as int,
                Scope { dirty: true, ..old(self).scopes@[k as int] },
            ),
    {
        let mut s = self.scopes.remove(k);
        s.dirty = true;
        self.scopes.insert(k, s);
        proof {
            assert(self.scopes@ =~= old(self).scopes@.update(
                k as int,
                Scope { dirty: true, ..old(self).scopes@[k as int] },
            ));
        }
    }

    /// Store the props the parent supplied for the scope at index `k`.
    pub fn set_props(&mut self, k: usize, props: u64)
        requires
            k < old(self).scopes@.len(),
        ensures
            final(self).scopes@ == old(self).scopes@.update(
                k as int,
                Scope { props, ..old(self).scopes@[k as int] },
            ),
    {
        let mut s = self.scopes.remove(k);
        s.props = props;
        self.scopes.insert(k, s);
        proof {
            assert(self.scopes@ =~= old(self).scopes@.update(
                k as int,
                Scope { props, ..old(self).scopes@[k as int] },
            ));
        }
    }

    /// Begin a render of the scope at index `k`: clear the dirty mark,
    /// rewind the hook cursor so the slots are read in registration order
    /// again, and count the render call.
    pub fn begin_render(&mut self, k: usize)
        requires
            k < old(self).scopes@.len(),
        ensures
            final(self).scopes@ == old(self).scopes@.update(
                k as int,
                Scope {
                    dirty: false,
                    cursor: 0,
                    render_count: if old(self).scopes@[k as int].render_count < u64::MAX {
                        (old(self).scopes@[k as int].render_count + 1) as u64
                    } else {
                        old(self).scopes@[k as int].render_count
                    },
                    ..old(self).scopes@[k as int]
                },
            ),
    {
        let mut s = self.scopes.remove(k);
        s.dirty = false;
        s.cursor = 0;
        if s.render_count < u64::MAX {
            s.render_count = s.render_count + 1;
        }
        self.scopes.insert(k, s);
        proof {
            assert(self.scopes@ =~= old(self).scopes@.update(
                k as int,
                Scope {
                    dirty: false,
                    cursor: 0,
                    render_count: if old(self).scopes@[k as int].render_count < u64::MAX {
                        (old(self).scopes@[k as int].render_count + 1) as u64
                    } else {
                        old(self).scopes@[k as int].render_count
                    },
                    ..old(self).scopes@[k as int]
                },
            ));
        }
    }

    /// Commit the content tree a render pass produced for the scope at
    /// index `k`.
    pub fn commit_content(&mut self, k: usize, content: Option<Node>)
        requires
            k < old(self).scopes@.len(),
        ensures
            final(self).scopes@ == old(self).scopes@.update(
                k as int,
                Scope { content, ..old(self).scopes@[k as int] },
            ),
    {
        let mut s = self.scopes.remove(k);
        s.content = content;
        self.scopes.insert(k, s);
        proof {
            assert(self.scopes@ =~= old(self).scopes@.update(
                k as int,
                Scope { content, ..old(self).scopes@[k as int] },
            ));
        }
    }

    /// Take the committed content tree of the scope at index `k`, leaving
    /// nothing committed.
    pub fn take_content(&mut self, k: usize) -> (c: Option<Node>)
        requires
            k < old(self).scopes@.len(),
        ensures
            c == old(self).scopes@[k as int].content,
            final(self).scopes@ == old(self).scopes@.update(
                k as int,
                Scope { content: None, ..old(self).scopes@[k as int] },
            ),
    {
        let mut s = self.scopes.remove(k);
        let c = s.content;
        s.content = None;
        self.scopes.insert(k, s);
        proof {
            assert(self.scopes@ =~= old(self).scopes@.update(
                k as int,
                Scope { content: None, ..old(self).scopes@[k as int] },
            ));
        }
        c
    }

    /// Read one hook slot of the running render of the scope at index `k`:
    /// the first call of a render reads slot 0, the next slot 1, and so on.
    /// The first render creates each slot with `init`; later renders return
    /// the stored value, after checking that the slot still has the kind it
    /// was created with. A kind mismatch is hook misuse: the scope's
    /// storage is left untouched and the caller must tear the scope down.
    pub fn use_hook(&mut self, k: usize, kind: u64, init: u64) -> (r: Result<u64, HookError>)
        requires
            k < old(self).scopes@.len(),
            old(self).scopes@[k as int].cursor <= old(self).scopes@[k as int].hooks@.len(),
            old(self).scopes@[k as int].hooks@.len() < usize::MAX,
        ensures
            ({
                let s = old(self).scopes@[k as int];
                let f = final(self).scopes@[k as int];
                if s.cursor < s.hooks@.len() {
                    if s.hooks@[s.cursor as int].kind == kind {
                        r == Ok::<u64, HookError>(s.hooks@[s.cursor as int].value) && final(self).scopes@ == old(self).scopes@.update(k as int, f) && f == (Scope {
                            cursor: (s.cursor + 1) as usize,
                            ..s
                        })
                    } else {
                        r == Err::<u64, HookError>(HookError { slot: s.cursor }) && final(self).scopes@ == old(self).scopes@
                    }
                } else {
                    r == Ok::<u64, HookError>(init) && final(self).scopes@ == old(
                        self,
                    ).scopes@.update(k as int, f) && f.hooks@ == s.hooks@.push(
                        HookSlot { kind, value: init },
                    ) && f == (Scope { cursor: (s.cursor + 1) as usize, hooks: f.hooks, ..s })
                }
            }),
    {
        let mut s = self.scopes.remove(k);
        let r;
        if s.cursor < s.hooks.len() {
            let slot = s.hooks[s.cursor];
            if slot.kind == kind {
                s.cursor = s.cursor + 1;
                r = Ok(slot.value);
            } else {
                r = Err(HookError { slot: s.cursor });
            }
        } else {
            s.hooks.push(HookSlot { kind, value: init });
            s.cursor = s.cursor + 1;
            r = Ok(init);
        }
        self.scopes.insert(k, s);
        proof {
            let s0 = old(self).scopes@[k as int];
            if s0.cursor < s0.hooks@.len() {
                if s0.hooks@[s0.cursor as int].kind == kind {
                    assert(self.scopes@ =~= old(self).scopes@.update(
                        k as int,
                        self.scopes@[k as int],
                    ));
                } else {
                    assert(self.scopes@ =~= old(self).scopes@);
                }
            } else {
                assert(self.scopes@[k as int].hooks@ =~= s0.hooks@.push(
                    HookSlot { kind, value: init },
                ));
                assert(self.scopes@ =~= old(self).scopes@.update(
                    k as int,
                    self.scopes@[k as int],
                ));
            }
        }
        r
    }

    /// Overwrite the value of an existing hook slot of the scope at index
    /// `k`: how an event handler mutates state between renders.
    pub fn write_hook(&mut self, k: usize, slot: usize, value: u64)
        requires
            k < old(self).scopes@.len(),
            slot < old(self).scopes@[k as int].hooks@.len(),
        ensures
            ({
                let s = old(self).scopes@[k as int];
                let f = final(self).scopes@[k as int];
                final(self).scopes@ == old(self).scopes@.update(k as int, f) && f.hooks@
                    == s.hooks@.update(
                    slot as int,
                    HookSlot { kind: s.hooks@[slot as int].kind, value },
                ) && f == (Scope { hooks: f.hooks, ..s })
            }),
    {
        let mut s = self.scopes.remove(k);
        let kind = s.hooks[slot].kind;
        s.hooks.set(slot, HookSlot { kind, value });
        self.scopes.insert(k, s);
        proof {
            let s0 = old(self).scopes@[k as int];
            assert(self.scopes@[k as int].hooks@ =~= s0.hooks@.update(
                slot as int,
                HookSlot { kind: s0.hooks@[slot as int].kind, value },
            ));
            assert(self.scopes@ =~= old(self).scopes@.update(k as int, self.scopes@[k as int]));
        }
    }

    /// Register a cleanup token for the scope at index `k`. Unmounting
    /// emits the tokens in reverse registration order.
    pub fn push_cleanup(&mut self, k: usize, token: u64)
        requires
            k < old(self).scopes@.len(),
        ensures
            ({
                let s = old(self).scopes@[k as int];
                let f = final(self).scopes@[k as int];
                final(self).scopes@ == old(self).scopes@.update(k as int, f) && f.cleanups@
                    == s.cleanups@.push(token) && f == (Scope { cleanups: f.cleanups, ..s })
            }),
    {
        let mut s = self.scopes.remove(k);
        s.cleanups.push(token);
        self.scopes.insert(k, s);
        proof {
            let s0 = old(self).scopes@[k as int];
            assert(self.scopes@[k as int].cleanups@ =~= s0.cleanups@.push(token));
            assert(self.scopes@ =~= old(self).scopes@.update(k as int, self.scopes@[k as int]));
        }
    }

    /// Unmount the scope with identity `root` and, with it, every scope it
    /// transitively owns. The returned tokens are the cleanups to run:
    /// every doomed scope contributes its cleanups exactly once, in reverse
    /// registration order, later-mounted scopes first, so a child's
    /// cleanups run before its parent's. The survivors keep their arena
    /// order. An identity that is not alive dooms nothing and returns no
    /// tokens.
    pub fn unmount(&mut self, root: u64) -> (r: Vec<u64>)
        ensures
            r@ == cleanup_trace(old(self).scopes@, root),
            final(self).scopes@ == kept_scopes(old(self).scopes@, root),
    {
        let ghost orig = self.scopes@;
        let n = self.scopes.len();
        let mut doom: Vec<bool> = Vec::new();
        let mut i: usize = 0;
        while i < n
            invariant
                0 <= i <= n,
                n == self.scopes@.len(),
                self.scopes@ == orig,
                doom@ == doom_flags(orig, root, i as int),
                doom@.len() == i,
            decreases n - i,
        {
            let mut d = self.scopes[i].id == root;
            if !d {
                match self.scopes[i].parent {
                    Some(p) => {
                        let mut found = false;
                        let mut j: usize = 0;
                        while j < i
                            invariant
                                0 <= j <= i,
                                i < n,
                                n == self.scopes@.len(),
                                self.scopes@ == orig,
                                doom@.len() == i,
                                orig[i as int].parent == Some(p),
                                found == exists|t: int|
                                    0 <= t < j && doom@[t] && orig[i as int].parent == Some(
                                        #[trigger] orig[t].id,
                                    ),
                            decreases i - j,
                        {
                            if doom[j] && self.scopes[j].id == p {
                                found = true;
                            }
                            j = j + 1;
                        }
                        d = found;
                    },
                    None => {},
                }
            }
            doom.push(d);
            proof {
                assert(doom@ =~= doom_flags(orig, root, i as int + 1));
            }
            i = i + 1;
        }
        let mut r: Vec<u64> = Vec::new();
        let mut i2: usize = n;
        while i2 > 0
            invariant
                0 <= i2 <= n,
                n == self.scopes@.len(),
                self.scopes@ == orig,
                doom@ == doom_flags(orig, root, n as int),
                doom@.len() == n,
                r@ == cleanup_trace_from(orig, doom@, i2 as int),
            decreases i2,
        {
            i2 = i2 - 1;
            if doom[i2] {
                let ghost prev = r@;
                let cl_len = self.scopes[i2].cleanups.len();
                let mut t: usize = cl_len;
                while t > 0
                    invariant
                        0 <= t <= cl_len,
                        i2 < n,
                        n == self.scopes@.len(),
                        self.scopes@ == orig,
                        cl_len == orig[i2 as int].cleanups@.len(),
                        r@ == prev + rev_seq(
                            orig[i2 as int].cleanups@.subrange(t as int, cl_len as int),
                        ),
                    decreases t,
                {
                    t = t - 1;
                    let ghost before = r@;
                    r.push(self.scopes[i2].cleanups[t]);
                    proof {
                        let cl = orig[i2 as int].cleanups@;
                        assert(cl.subrange(t as int, cl_len as int).drop_first() =~= cl.subrange(
                            t as int + 1,
                            cl_len as int,
                        ));
                        assert(r@ =~= prev + rev_seq(cl.subrange(t as int, cl_len as int)));
                    }
                }
                proof {
                    assert(orig[i2 as int].cleanups@.subrange(
                        0,
                        orig[i2 as int].cleanups@.len() as int,
                    ) =~= orig[i2 as int].cleanups@);
                    assert(r@ =~= cleanup_trace_from(orig, doom@, i2 as int));
                }
            }
        }
        let mut stack: Vec<Scope> = Vec::new();
        proof {
            assert(orig.subrange(0, orig.len() as int) =~= orig);
        }
        while self.scopes.len() > 0
            invariant
                stack@.len() + self.scopes@.len() == n,
                n == orig.len(),
                self.scopes@ == orig.subrange(0, self.scopes@.len() as int),
                forall|k: int| 0 <= k < stack@.len() ==> stack@[k] == orig[n - 1 - k],
            decreases self.scopes@.len(),
        {
            let ghost l = self.scopes@.len() as int;
            let s = self.scopes.pop().unwrap();
            proof {
                assert(orig.subrange(0, l).drop_last() =~= orig.subrange(0, l - 1));
                assert(s == orig.subrange(0, l)[l - 1]);
                assert(s == orig[l - 1]);
            }
            stack.push(s);
        }
        let mut idx: usize = 0;
        while stack.len() > 0
            invariant
                idx == n - stack@.len(),
                0 <= idx <= n,
                n == orig.len(),
                doom@ == doom_flags(orig, root, n as int),
                doom@.len() == n,
                forall|k: int| 0 <= k < stack@.len() ==> stack@[k] == orig[n - 1 - k],
                self.scopes@ == kept_upto(orig, doom@, idx as int),
            decreases stack@.len(),
        {
            let s = stack.pop().unwrap();
            if !doom[idx] {
                self.scopes.push(s);
            }
            idx = idx + 1;
            proof {
                assert(self.scopes@ =~= kept_upto(orig, doom@, idx as int));
            }
        }
        r
    }
}

} // verus!
