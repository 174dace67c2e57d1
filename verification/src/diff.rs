//! The differ: walks a committed tree and a freshly rendered tree in
//! lockstep, emits the ordered mutation list that turns the one into the
//! other, and reconciles keyed children by key rather than by position.
//!
//! The differ never touches the scope arena: component mounts, prop updates
//! and unmounts are emitted as [`WorkItem`]s for the scheduler layer, which
//! owns the arena and resolves them within the same tick.

use vstd::prelude::*;

use crate::mutation::Mutation;
use crate::mutation::WorkItem;
use crate::node::Attribute;
use crate::node::Listener;
use crate::node::Node;
use crate::node::VNode;
use crate::node::same_tpl;
use crate::node::same_tpl_seq;
use crate::node::view_node;
use crate::node::view_nodes;
use crate::node::lemma_view_nodes_index;
use crate::node::lemma_same_tpl_seq_index;
use crate::node::lemma_same_tpl_seq_intro;
use crate::node::vkey;
use vstd::pervasive::VecAdditionalExecFns;

verus! {

/// Everything one diffing pass accumulates: the mutation list, the scope
/// work list, and the two identity counters. `scope` is the scope whose
/// render produced the new tree; listeners registered during the pass are
/// routed to it.
pub struct DiffCtx {
    pub muts: Vec<Mutation>,
    pub work: Vec<WorkItem>,
    pub next_el: u64,
    pub next_scope: u64,
    pub scope: u64,
}

/// `b` is `a` with nothing emitted and nothing allocated.
pub open spec fn unchanged(a: DiffCtx, b: DiffCtx) -> bool {
    &&& b.muts@ == a.muts@
    &&& b.work@ == a.work@
    &&& b.next_el == a.next_el
    &&& b.next_scope == a.next_scope
    &&& b.scope == a.scope
}

/// `b` extends `a`: both logs grow only at the end, counters never go back,
/// and the owning scope stays what it was.
pub open spec fn extends(a: DiffCtx, b: DiffCtx) -> bool {
    &&& a.muts@.is_prefix_of(b.muts@)
    &&& a.work@.is_prefix_of(b.work@)
    &&& b.next_el >= a.next_el
    &&& b.next_scope >= a.next_scope
    &&& b.scope == a.scope
}

pub proof fn lemma_prefix_trans<T>(a: Seq<T>, b: Seq<T>, c: Seq<T>)
    requires
        a.is_prefix_of(b),
        b.is_prefix_of(c),
    ensures
        a.is_prefix_of(c),
{
    assert(a =~= c.subrange(0, a.len() as int));
}

pub proof fn lemma_extends_trans(a: DiffCtx, b: DiffCtx, c: DiffCtx)
    requires
        extends(a, b),
        extends(b, c),
    ensures
        extends(a, c),
{
    lemma_prefix_trans(a.muts@, b.muts@, c.muts@);
    lemma_prefix_trans(a.work@, b.work@, c.work@);
}

impl DiffCtx {
    /// A fresh context for one scope's diffing pass, continuing the two
    /// identity counters where the caller left them.
    pub fn new(scope: u64, next_el: u64, next_scope: u64) -> (r: DiffCtx)
        ensures
            r.muts@ == Seq::<Mutation>::empty(),
            r.work@ == Seq::<WorkItem>::empty(),
            r.next_el == next_el,
            r.next_scope == next_scope,
            r.scope == scope,
    {
        DiffCtx { muts: Vec::new(), work: Vec::new(), next_el, next_scope, scope }
    }

    fn emit(&mut self, m: Mutation)
        ensures
            final(self).muts@ == old(self).muts@.push(m),
            final(self).work@ == old(self).work@,
            final(self).next_el == old(self).next_el,
            final(self).next_scope == old(self).next_scope,
            final(self).scope == old(self).scope,
            extends(*old(self), *final(self)),
    {
        self.muts.push(m);
    }

    fn push_work(&mut self, w: WorkItem)
        ensures
            final(self).muts@ == old(self).muts@,
            final(self).work@ == old(self).work@.push(w),
            final(self).next_el == old(self).next_el,
            final(self).next_scope == old(self).next_scope,
            final(self).scope == old(self).scope,
            extends(*old(self), *final(self)),
    {
        self.work.push(w);
    }

    /// Allocate a backend handle. Handles are handed out in increasing
    /// order; the 64-bit space is treated as inexhaustible, and the counter
    /// stops short of wrapping rather than reusing low handles.
    fn fresh_el(&mut self) -> (id: u64)
        ensures
            id == old(self).next_el,
            final(self).next_el >= old(self).next_el,
            final(self).muts@ == old(self).muts@,
            final(self).work@ == old(self).work@,
            final(self).next_scope == old(self).next_scope,
            final(self).scope == old(self).scope,
            extends(*old(self), *final(self)),
    {
        let id = self.next_el;
        if self.next_el < u64::MAX {
            self.next_el = self.next_el + 1;
        }
        id
    }

    /// Allocate a scope identity. Identities are never reused while the
    /// engine runs; liveness is checked by lookup, not by reuse.
    fn fresh_scope(&mut self) -> (id: u64)
        ensures
            id == old(self).next_scope,
            final(self).next_scope >= old(self).next_scope,
            final(self).muts@ == old(self).muts@,
            final(self).work@ == old(self).work@,
            final(self).next_el == old(self).next_el,
            final(self).scope == old(self).scope,
            extends(*old(self), *final(self)),
    {
        let id = self.next_scope;
        if self.next_scope < u64::MAX {
            self.next_scope = self.next_scope + 1;
        }
        id
    }
}

/// The value of the first attribute named `name`, if any attribute has that
/// name.
fn find_attr(attrs: &Vec<Attribute>, name: u64) -> (r: Option<u64>)
    ensures
        r == find_attr_spec(attrs@, name),
        r is Some <==> exists|i: int| 0 <= i < attrs@.len() && attrs@[i].name == name,
        r matches Some(v) ==> exists|i: int|
            0 <= i < attrs@.len() && attrs@[i].name == name && attrs@[i].value == v,
{
    proof {
        assert(attrs@.skip(0) =~= attrs@);
    }
    let mut i: usize = 0;
    while i < attrs.len()
        invariant
            0 <= i <= attrs@.len(),
            forall|k: int| 0 <= k < i ==> attrs@[k].name != name,
            find_attr_spec(attrs@, name) == find_attr_spec(attrs@.skip(i as int), name),
        decreases attrs@.len() - i,
    {
        if attrs[i].name == name {
            proof {
                assert(attrs@.skip(i as int).first() == attrs@[i as int]);
            }
            return Some(attrs[i].value);
        }
        proof {
            assert(attrs@.skip(i as int).first() == attrs@[i as int]);
            assert(attrs@.skip(i as int).drop_first() =~= attrs@.skip(i as int + 1));
        }
        i = i + 1;
    }
    proof {
        assert(attrs@.skip(attrs@.len() as int) =~= Seq::<Attribute>::empty());
    }
    None
}

/// The handler of the first listener for `event`, if any listener is for
/// that event.
fn find_listener(listeners: &Vec<Listener>, event: u64) -> (r: Option<u64>)
    ensures
        r == find_listener_spec(listeners@, event),
        r is Some <==> exists|i: int| 0 <= i < listeners@.len() && listeners@[i].event == event,
        r matches Some(h) ==> exists|i: int|
            0 <= i < listeners@.len() && listeners@[i].event == event && listeners@[i].handler
                == h,
{
    proof {
        assert(listeners@.skip(0) =~= listeners@);
    }
    let mut i: usize = 0;
    while i < listeners.len()
        invariant
            0 <= i <= listeners@.len(),
            forall|k: int| 0 <= k < i ==> listeners@[k].event != event,
            find_listener_spec(listeners@, event) == find_listener_spec(
                listeners@.skip(i as int),
                event,
            ),
        decreases listeners@.len() - i,
    {
        if listeners[i].event == event {
            proof {
                assert(listeners@.skip(i as int).first() == listeners@[i as int]);
            }
            return Some(listeners[i].handler);
        }
        proof {
            assert(listeners@.skip(i as int).first() == listeners@[i as int]);
            assert(listeners@.skip(i as int).drop_first() =~= listeners@.skip(i as int + 1));
        }
        i = i + 1;
    }
    proof {
        assert(listeners@.skip(listeners@.len() as int) =~= Seq::<Listener>::empty());
    }
    None
}

/// No two attributes share a name.
pub open spec fn distinct_attr_names(attrs: Seq<Attribute>) -> bool {
    forall|i: int, j: int|
        0 <= i < j < attrs.len() ==> (#[trigger] attrs[i]).name != (#[trigger] attrs[j]).name
}

/// No two listeners share an event.
pub open spec fn distinct_events(listeners: Seq<Listener>) -> bool {
    forall|i: int, j: int|
        0 <= i < j < listeners.len() ==> (#[trigger] listeners[i]).event != (#[trigger] listeners[j]).event
}

/// The value of the first attribute named `name`, if any: the spec twin of
/// the scan the differ runs.
pub open spec fn find_attr_spec(attrs: Seq<Attribute>, name: u64) -> Option<u64>
    decreases attrs.len(),
{
    if attrs.len() == 0 {
        None
    } else if attrs.first().name == name {
        Some(attrs.first().value)
    } else {
        find_attr_spec(attrs.drop_first(), name)
    }
}

pub open spec fn find_listener_spec(listeners: Seq<Listener>, event: u64) -> Option<u64>
    decreases listeners.len(),
{
    if listeners.len() == 0 {
        None
    } else if listeners.first().event == event {
        Some(listeners.first().handler)
    } else {
        find_listener_spec(listeners.drop_first(), event)
    }
}

/// Exactly the attribute writes an attribute diff emits: one set per new
/// attribute that is absent from the old list or bound to another value, in
/// list order.
pub open spec fn attr_set_muts(id: u64, old_attrs: Seq<Attribute>, new_attrs: Seq<Attribute>) -> Seq<
    Mutation,
>
    decreases new_attrs.len(),
{
    if new_attrs.len() == 0 {
        Seq::empty()
    } else {
        let rest = attr_set_muts(id, old_attrs, new_attrs.drop_last());
        let a = new_attrs.last();
        match find_attr_spec(old_attrs, a.name) {
            Some(v) => if v == a.value {
                rest
            } else {
                rest.push(Mutation::SetAttribute { id, name: a.name, value: a.value })
            },
            None => rest.push(Mutation::SetAttribute { id, name: a.name, value: a.value }),
        }
    }
}

/// Exactly the removals an attribute diff emits: one per old attribute
/// whose name is absent from the new list, in list order. Presence is
/// significant: absence becomes a removal, never a value write.
pub open spec fn attr_remove_muts(
    id: u64,
    old_attrs: Seq<Attribute>,
    new_attrs: Seq<Attribute>,
) -> Seq<Mutation>
    decreases old_attrs.len(),
{
    if old_attrs.len() == 0 {
        Seq::empty()
    } else {
        let rest = attr_remove_muts(id, old_attrs.drop_last(), new_attrs);
        let a = old_attrs.last();
        match find_attr_spec(new_attrs, a.name) {
            Some(_) => rest,
            None => rest.push(Mutation::RemoveAttribute { id, name: a.name }),
        }
    }
}

/// Exactly the registrations a listener diff emits: one per new listener
/// whose event is unrouted or routed to another handler.
pub open spec fn listener_set_muts(
    id: u64,
    scope: u64,
    old_ls: Seq<Listener>,
    new_ls: Seq<Listener>,
) -> Seq<Mutation>
    decreases new_ls.len(),
{
    if new_ls.len() == 0 {
        Seq::empty()
    } else {
        let rest = listener_set_muts(id, scope, old_ls, new_ls.drop_last());
        let l = new_ls.last();
        match find_listener_spec(old_ls, l.event) {
            Some(h) => if h == l.handler {
                rest
            } else {
                rest.push(Mutation::NewListener { id, event: l.event, handler: l.handler, scope })
            },
            None => rest.push(
                Mutation::NewListener { id, event: l.event, handler: l.handler, scope },
            ),
        }
    }
}

/// Exactly the removals a listener diff emits: one per old event no new
/// listener serves.
pub open spec fn listener_remove_muts(id: u64, old_ls: Seq<Listener>, new_ls: Seq<Listener>) -> Seq<
    Mutation,
>
    decreases old_ls.len(),
{
    if old_ls.len() == 0 {
        Seq::empty()
    } else {
        let rest = listener_remove_muts(id, old_ls.drop_last(), new_ls);
        let l = old_ls.last();
        match find_listener_spec(new_ls, l.event) {
            Some(_) => rest,
            None => rest.push(Mutation::RemoveListener { id, event: l.event }),
        }
    }
}

/// Diff two attribute lists by name, not by position: set what is new or
/// changed, remove what is absent from the new list. Presence is
/// significant, so an absent attribute becomes a removal, never a value
/// mutation.
fn diff_attrs(id: u64, old_attrs: &Vec<Attribute>, new_attrs: &Vec<Attribute>, ctx: &mut DiffCtx)
    ensures
        extends(*old(ctx), *final(ctx)),
        final(ctx).work@ == old(ctx).work@,
        final(ctx).next_el == old(ctx).next_el,
        final(ctx).next_scope == old(ctx).next_scope,
        final(ctx).muts@ == old(ctx).muts@ + attr_set_muts(id, old_attrs@, new_attrs@)
            + attr_remove_muts(id, old_attrs@, new_attrs@),
        old_attrs@ == new_attrs@ && distinct_attr_names(new_attrs@) ==> unchanged(
            *old(ctx),
            *final(ctx),
        ),
{
    let ghost pre = *ctx;
    let ghost eq_case = old_attrs@ == new_attrs@ && distinct_attr_names(new_attrs@);
    proof {
        assert(new_attrs@.subrange(0, 0) =~= Seq::<Attribute>::empty());
        assert(pre.muts@ + attr_set_muts(id, old_attrs@, new_attrs@.subrange(0, 0)) =~= pre.muts@);
    }
    let mut i: usize = 0;
    while i < new_attrs.len()
        invariant
            extends(pre, *ctx),
            ctx.work@ == pre.work@,
            ctx.next_el == pre.next_el,
            ctx.next_scope == pre.next_scope,
            0 <= i <= new_attrs@.len(),
            ctx.muts@ == pre.muts@ + attr_set_muts(
                id,
                old_attrs@,
                new_attrs@.subrange(0, i as int),
            ),
            eq_case == (old_attrs@ == new_attrs@ && distinct_attr_names(new_attrs@)),
            eq_case ==> unchanged(pre, *ctx),
        decreases new_attrs@.len() - i,
    {
        proof {
            assert(new_attrs@.subrange(0, i as int + 1).drop_last() =~= new_attrs@.subrange(
                0,
                i as int,
            ));
            assert(new_attrs@.subrange(0, i as int + 1).last() == new_attrs@[i as int]);
        }
        let ghost b0 = ctx.muts@;
        let a = new_attrs[i];
        match find_attr(old_attrs, a.name) {
            Some(v) => {
                if v != a.value {
                    proof {
                        if eq_case {
                            let j = choose|j: int|
                                0 <= j < old_attrs@.len() && old_attrs@[j].name == a.name
                                    && old_attrs@[j].value == v;
                            assert(old_attrs@[j] == new_attrs@[j]);
                            assert(new_attrs@[i as int].name == a.name);
                            assert(j == i);
                        }
                    }
                    ctx.emit(Mutation::SetAttribute { id, name: a.name, value: a.value });
                }
            },
            None => {
                proof {
                    if eq_case {
                        assert(old_attrs@[i as int].name == a.name);
                    }
                }
                ctx.emit(Mutation::SetAttribute { id, name: a.name, value: a.value });
            },
        }
        proof {
            assert(ctx.muts@ =~= pre.muts@ + attr_set_muts(
                id,
                old_attrs@,
                new_attrs@.subrange(0, i as int + 1),
            ));
        }
        i = i + 1;
    }
    proof {
        assert(new_attrs@.subrange(0, new_attrs@.len() as int) =~= new_attrs@);
        assert(old_attrs@.subrange(0, 0) =~= Seq::<Attribute>::empty());
        assert(ctx.muts@ =~= pre.muts@ + attr_set_muts(id, old_attrs@, new_attrs@)
            + attr_remove_muts(id, old_attrs@.subrange(0, 0), new_attrs@));
    }
    let mut j: usize = 0;
    while j < old_attrs.len()
        invariant
            extends(pre, *ctx),
            ctx.work@ == pre.work@,
            ctx.next_el == pre.next_el,
            ctx.next_scope == pre.next_scope,
            0 <= j <= old_attrs@.len(),
            ctx.muts@ == pre.muts@ + attr_set_muts(id, old_attrs@, new_attrs@)
                + attr_remove_muts(id, old_attrs@.subrange(0, j as int), new_attrs@),
            eq_case == (old_attrs@ == new_attrs@ && distinct_attr_names(new_attrs@)),
            eq_case ==> unchanged(pre, *ctx),
        decreases old_attrs@.len() - j,
    {
        proof {
            assert(old_attrs@.subrange(0, j as int + 1).drop_last() =~= old_attrs@.subrange(
                0,
                j as int,
            ));
            assert(old_attrs@.subrange(0, j as int + 1).last() == old_attrs@[j as int]);
        }
        let a = old_attrs[j];
        match find_attr(new_attrs, a.name) {
            Some(_) => {},
            None => {
                proof {
                    if eq_case {
                        assert(new_attrs@[j as int].name == a.name);
                    }
                }
                ctx.emit(Mutation::RemoveAttribute { id, name: a.name });
            },
        }
        proof {
            assert(ctx.muts@ =~= pre.muts@ + attr_set_muts(id, old_attrs@, new_attrs@)
                + attr_remove_muts(id, old_attrs@.subrange(0, j as int + 1), new_attrs@));
        }
        j = j + 1;
    }
    proof {
        assert(old_attrs@.subrange(0, old_attrs@.len() as int) =~= old_attrs@);
    }
}

/// Diff two listener lists by event: register what is new or whose handler
/// changed, remove what is gone. A registration for an event the backend
/// already routes replaces the old handler.
fn diff_listeners(
    id: u64,
    old_ls: &Vec<Listener>,
    new_ls: &Vec<Listener>,
    ctx: &mut DiffCtx,
)
    ensures
        extends(*old(ctx), *final(ctx)),
        final(ctx).work@ == old(ctx).work@,
        final(ctx).next_el == old(ctx).next_el,
        final(ctx).next_scope == old(ctx).next_scope,
        final(ctx).muts@ == old(ctx).muts@ + listener_set_muts(
            id,
            old(ctx).scope,
            old_ls@,
            new_ls@,
        ) + listener_remove_muts(id, old_ls@, new_ls@),
        old_ls@ == new_ls@ && distinct_events(new_ls@) ==> unchanged(*old(ctx), *final(ctx)),
{
    let ghost pre = *ctx;
    let ghost eq_case = old_ls@ == new_ls@ && distinct_events(new_ls@);
    let scope = ctx.scope;
    proof {
        assert(new_ls@.subrange(0, 0) =~= Seq::<Listener>::empty());
        assert(pre.muts@ + listener_set_muts(id, scope, old_ls@, new_ls@.subrange(0, 0))
            =~= pre.muts@);
    }
    let mut i: usize = 0;
    while i < new_ls.len()
        invariant
            extends(pre, *ctx),
            ctx.work@ == pre.work@,
            ctx.next_el == pre.next_el,
            ctx.next_scope == pre.next_scope,
            ctx.scope == pre.scope,
            scope == pre.scope,
            0 <= i <= new_ls@.len(),
            ctx.muts@ == pre.muts@ + listener_set_muts(
                id,
                scope,
                old_ls@,
                new_ls@.subrange(0, i as int),
            ),
            eq_case == (old_ls@ == new_ls@ && distinct_events(new_ls@)),
            eq_case ==> unchanged(pre, *ctx),
        decreases new_ls@.len() - i,
    {
        proof {
            assert(new_ls@.subrange(0, i as int + 1).drop_last() =~= new_ls@.subrange(
                0,
                i as int,
            ));
            assert(new_ls@.subrange(0, i as int + 1).last() == new_ls@[i as int]);
        }
        let l = new_ls[i];
        match find_listener(old_ls, l.event) {
            Some(h) => {
                if h != l.handler {
                    proof {
                        if eq_case {
                            let j = choose|j: int|
                                0 <= j < old_ls@.len() && old_ls@[j].event == l.event
                                    && old_ls@[j].handler == h;
                            assert(old_ls@[j] == new_ls@[j]);
                            assert(new_ls@[i as int].event == l.event);
                            assert(j == i);
                        }
                    }
                    ctx.emit(
                        Mutation::NewListener { id, event: l.event, handler: l.handler, scope },
                    );
                }
            },
            None => {
                proof {
                    if eq_case {
                        assert(old_ls@[i as int].event == l.event);
                    }
                }
                ctx.emit(Mutation::NewListener { id, event: l.event, handler: l.handler, scope });
            },
        }
        proof {
            assert(ctx.muts@ =~= pre.muts@ + listener_set_muts(
                id,
                scope,
                old_ls@,
                new_ls@.subrange(0, i as int + 1),
            ));
        }
        i = i + 1;
    }
    proof {
        assert(new_ls@.subrange(0, new_ls@.len() as int) =~= new_ls@);
        assert(old_ls@.subrange(0, 0) =~= Seq::<Listener>::empty());
        assert(ctx.muts@ =~= pre.muts@ + listener_set_muts(id, scope, old_ls@, new_ls@)
            + listener_remove_muts(id, old_ls@.subrange(0, 0), new_ls@));
    }
    let mut j: usize = 0;
    while j < old_ls.len()
        invariant
            extends(pre, *ctx),
            ctx.work@ == pre.work@,
            ctx.next_el == pre.next_el,
            ctx.next_scope == pre.next_scope,
            scope == pre.scope,
            0 <= j <= old_ls@.len(),
            ctx.muts@ == pre.muts@ + listener_set_muts(id, scope, old_ls@, new_ls@)
                + listener_remove_muts(id, old_ls@.subrange(0, j as int), new_ls@),
            eq_case == (old_ls@ == new_ls@ && distinct_events(new_ls@)),
            eq_case ==> unchanged(pre, *ctx),
        decreases old_ls@.len() - j,
    {
        proof {
            assert(old_ls@.subrange(0, j as int + 1).drop_last() =~= old_ls@.subrange(
                0,
                j as int,
            ));
            assert(old_ls@.subrange(0, j as int + 1).last() == old_ls@[j as int]);
        }
        let l = old_ls[j];
        match find_listener(new_ls, l.event) {
            Some(_) => {},
            None => {
                proof {
                    if eq_case {
                        assert(new_ls@[j as int].event == l.event);
                    }
                }
                ctx.emit(Mutation::RemoveListener { id, event: l.event });
            },
        }
        proof {
            assert(ctx.muts@ =~= pre.muts@ + listener_set_muts(id, scope, old_ls@, new_ls@)
                + listener_remove_muts(id, old_ls@.subrange(0, j as int + 1), new_ls@));
        }
        j = j + 1;
    }
    proof {
        assert(old_ls@.subrange(0, old_ls@.len() as int) =~= old_ls@);
    }
}

fn copy_attrs(v: &Vec<Attribute>) -> (r: Vec<Attribute>)
    ensures
        r@ == v@,
{
    let mut r: Vec<Attribute> = Vec::new();
    let mut i: usize = 0;
    while i < v.len()
        invariant
            0 <= i <= v@.len(),
            r@ == v@.subrange(0, i as int),
        decreases v@.len() - i,
    {
        r.push(v[i]);
        i = i + 1;
        proof {
            assert(r@ =~= v@.subrange(0, i as int));
        }
    }
    proof {
        assert(r@ =~= v@);
    }
    r
}

fn copy_listeners(v: &Vec<Listener>) -> (r: Vec<Listener>)
    ensures
        r@ == v@,
{
    let mut r: Vec<Listener> = Vec::new();
    let mut i: usize = 0;
    while i < v.len()
        invariant
            0 <= i <= v@.len(),
            r@ == v@.subrange(0, i as int),
        decreases v@.len() - i,
    {
        r.push(v[i]);
        i = i + 1;
        proof {
            assert(r@ =~= v@.subrange(0, i as int));
        }
    }
    proof {
        assert(r@ =~= v@);
    }
    r
}

/// Where the children list being reconciled ends: appended to a parent
/// element, or kept in front of a fragment's trailing anchor.
#[derive(Clone, Copy)]
pub enum ChildTail {
    Append { parent: u64 },
    Before { anchor: u64 },
}

/// The backend handle that marks where this mounted node begins among its
/// siblings: its own handle, a fragment's first piece, or a component's
/// anchor placeholder.
fn rep_id(n: &Node) -> u64
    decreases *n,
{
    match n {
        Node::Element { id, .. } => *id,
        Node::Text { id, .. } => *id,
        Node::Placeholder { id } => *id,
        Node::Fragment { anchor, children } => {
            if children.len() > 0 {
                rep_id(&children[0])
            } else {
                *anchor
            }
        },
        Node::Component { anchor, .. } => *anchor,
    }
}

/// Collect the top-level backend handles of a mounted node, in sibling
/// order: the handles a parent attaches, moves or anchors on. A component
/// contributes its anchor; its rendered content is placed relative to that
/// anchor by the scheduler layer.
#[verifier::loop_isolation(false)]
pub(crate) fn collect_tops(n: &Node, out: &mut Vec<u64>)
    ensures
        old(out)@.is_prefix_of(final(out)@),
        final(out)@.len() > old(out)@.len(),
        single_top(view_node(*n)) ==> final(out)@.len() == old(out)@.len() + 1,
    decreases *n,
{
    match n {
        Node::Element { id, .. } => out.push(*id),
        Node::Text { id, .. } => out.push(*id),
        Node::Placeholder { id } => out.push(*id),
        Node::Fragment { anchor, children } => {
            let ghost pre = out@;
            let mut i: usize = 0;
            while i < children.len()
                invariant
                    pre.is_prefix_of(out@),
                decreases children@.len() - i,
            {
                collect_tops(&children[i], out);
                i = i + 1;
            }
            out.push(*anchor);
        },
        Node::Component { anchor, .. } => out.push(*anchor),
    }
}

/// Collect the scopes whose anchors sit on this node's sibling spine: the
/// components here or inside fragments, but not those inside elements
/// (their content moves with the element's own backend node).
#[verifier::loop_isolation(false)]
fn collect_spine_scopes(n: &Node, out: &mut Vec<u64>)
    ensures
        old(out)@.is_prefix_of(final(out)@),
        single_top(view_node(*n)) ==> final(out)@ == old(out)@,
    decreases *n,
{
    match n {
        Node::Fragment { children, .. } => {
            let ghost pre = out@;
            let mut i: usize = 0;
            while i < children.len()
                invariant
                    pre.is_prefix_of(out@),
                decreases children@.len() - i,
            {
                collect_spine_scopes(&children[i], out);
                i = i + 1;
            }
        },
        Node::Component { scope, .. } => out.push(*scope),
        _ => {},
    }
}

/// Emit `RemoveScope` for every component bound anywhere inside this
/// subtree, so their cleanups run and their scopes are freed even when
/// their backend nodes disappear with an enclosing element.
#[verifier::loop_isolation(false)]
fn scope_removals(n: &Node, ctx: &mut DiffCtx)
    ensures
        extends(*old(ctx), *final(ctx)),
        final(ctx).muts@ == old(ctx).muts@,
        final(ctx).next_el == old(ctx).next_el,
        final(ctx).next_scope == old(ctx).next_scope,
    decreases *n,
{
    match n {
        Node::Element { children, .. } => {
            let ghost pre = *ctx;
            let mut i: usize = 0;
            while i < children.len()
                invariant
                    extends(pre, *ctx),
                    ctx.muts@ == pre.muts@,
                    ctx.next_el == pre.next_el,
                    ctx.next_scope == pre.next_scope,
                decreases children@.len() - i,
            {
                scope_removals(&children[i], ctx);
                i = i + 1;
            }
        },
        Node::Fragment { children, .. } => {
            let ghost pre = *ctx;
            let mut i: usize = 0;
            while i < children.len()
                invariant
                    extends(pre, *ctx),
                    ctx.muts@ == pre.muts@,
                    ctx.next_el == pre.next_el,
                    ctx.next_scope == pre.next_scope,
                decreases children@.len() - i,
            {
                scope_removals(&children[i], ctx);
                i = i + 1;
            }
        },
        Node::Component { scope, .. } => {
            ctx.push_work(WorkItem::RemoveScope { scope: *scope });
        },
        _ => {},
    }
}

/// Remove a mounted subtree: one `Remove` per top-level backend handle,
/// plus `RemoveScope` work for every component inside, so the scheduler
/// layer runs cleanups and drops any component content that lives outside
/// the removed handles.
#[verifier::loop_isolation(false)]
pub(crate) fn remove_node(n: &Node, ctx: &mut DiffCtx)
    ensures
        extends(*old(ctx), *final(ctx)),
        final(ctx).next_el == old(ctx).next_el,
        final(ctx).next_scope == old(ctx).next_scope,
        final(ctx).muts@.len() > old(ctx).muts@.len(),
        final(ctx).muts@.last() matches Mutation::Remove { .. },
    decreases *n,
{
    match n {
        Node::Element { id, children, .. } => {
            let ghost pre = *ctx;
            let mut i: usize = 0;
            while i < children.len()
                invariant
                    extends(pre, *ctx),
                    ctx.next_el == pre.next_el,
                    ctx.next_scope == pre.next_scope,
                decreases children@.len() - i,
            {
                scope_removals(&children[i], ctx);
                i = i + 1;
            }
            ctx.emit(Mutation::Remove { id: *id });
        },
        Node::Text { id, .. } => ctx.emit(Mutation::Remove { id: *id }),
        Node::Placeholder { id } => ctx.emit(Mutation::Remove { id: *id }),
        Node::Fragment { anchor, children } => {
            let ghost pre = *ctx;
            let mut i: usize = 0;
            while i < children.len()
                invariant
                    extends(pre, *ctx),
                    ctx.next_el == pre.next_el,
                    ctx.next_scope == pre.next_scope,
                decreases children@.len() - i,
            {
                remove_node(&children[i], ctx);
                i = i + 1;
            }
            ctx.emit(Mutation::Remove { id: *anchor });
        },
        Node::Component { scope, anchor, .. } => {
            ctx.push_work(WorkItem::RemoveScope { scope: *scope });
            ctx.emit(Mutation::Remove { id: *anchor });
        },
    }
}

/// Everything `b` holds beyond `a` is a placement.
pub open spec fn placements_only_from(a: Seq<Mutation>, b: Seq<Mutation>) -> bool {
    &&& a.is_prefix_of(b)
    &&& forall|i: int| a.len() <= i < b.len() ==> (#[trigger] b[i]).is_placement()
}

/// Everything `b` holds beyond `a` re-places component content after its
/// anchor; no scope is mounted, updated or removed.
pub open spec fn move_work_only_from(a: Seq<WorkItem>, b: Seq<WorkItem>) -> bool {
    &&& a.is_prefix_of(b)
    &&& forall|i: int|
        a.len() <= i < b.len() ==> (#[trigger] b[i]) matches WorkItem::MoveScopeAfterAnchor { .. }
}

pub proof fn lemma_placements_trans(a: Seq<Mutation>, b: Seq<Mutation>, c: Seq<Mutation>)
    requires
        placements_only_from(a, b),
        placements_only_from(b, c),
    ensures
        placements_only_from(a, c),
{
    lemma_prefix_trans(a, b, c);
    assert forall|i: int| a.len() <= i < c.len() implies (#[trigger] c[i]).is_placement() by {
        if i < b.len() {
            assert(b[i] == c.subrange(0, b.len() as int)[i]);
        }
    }
}

pub proof fn lemma_move_work_trans(a: Seq<WorkItem>, b: Seq<WorkItem>, c: Seq<WorkItem>)
    requires
        move_work_only_from(a, b),
        move_work_only_from(b, c),
    ensures
        move_work_only_from(a, c),
{
    lemma_prefix_trans(a, b, c);
    assert forall|i: int| a.len() <= i < c.len() implies (#[trigger] c[i]) matches WorkItem::MoveScopeAfterAnchor { .. } by {
        if i < b.len() {
            assert(b[i] == c.subrange(0, b.len() as int)[i]);
        }
    }
}

/// Everything `b` holds beyond `a` creates, configures or places nodes:
/// nothing is a removal.
pub open spec fn no_removals_from(a: Seq<Mutation>, b: Seq<Mutation>) -> bool {
    &&& a.is_prefix_of(b)
    &&& forall|i: int|
        a.len() <= i < b.len() ==> !((#[trigger] b[i]) matches Mutation::Remove { .. })
}

/// Everything `b` holds beyond `a` mounts a fresh scope or re-places
/// component content; no scope is updated or removed.
pub open spec fn fresh_work_only_from(a: Seq<WorkItem>, b: Seq<WorkItem>) -> bool {
    &&& a.is_prefix_of(b)
    &&& forall|i: int|
        a.len() <= i < b.len() ==> ((#[trigger] b[i]) matches WorkItem::MountScope { .. } || b[i]
            matches WorkItem::MoveScopeAfterAnchor { .. })
}

pub proof fn lemma_no_removals_push(a: Seq<Mutation>, b: Seq<Mutation>, m: Mutation)
    requires
        no_removals_from(a, b),
        !(m matches Mutation::Remove { .. }),
    ensures
        no_removals_from(a, b.push(m)),
{
    lemma_prefix_trans(a, b, b.push(m));
    assert(b.is_prefix_of(b.push(m))) by {
        assert(b =~= b.push(m).subrange(0, b.len() as int));
    }
    lemma_prefix_trans(a, b, b.push(m));
    assert forall|i: int|
        a.len() <= i < b.push(m).len() implies !((#[trigger] b.push(m)[i])
        matches Mutation::Remove { .. }) by {
        if i < b.len() {
            assert(b.push(m)[i] == b[i]);
        }
    }
}

pub proof fn lemma_fresh_work_push(a: Seq<WorkItem>, b: Seq<WorkItem>, w: WorkItem)
    requires
        fresh_work_only_from(a, b),
        w matches WorkItem::MountScope { .. } || w matches WorkItem::MoveScopeAfterAnchor { .. },
    ensures
        fresh_work_only_from(a, b.push(w)),
{
    assert(b.is_prefix_of(b.push(w))) by {
        assert(b =~= b.push(w).subrange(0, b.len() as int));
    }
    lemma_prefix_trans(a, b, b.push(w));
    assert forall|i: int|
        a.len() <= i < b.push(w).len() implies ((#[trigger] b.push(w)[i])
        matches WorkItem::MountScope { .. } || b.push(w)[i] matches WorkItem::MoveScopeAfterAnchor {
            ..
        }) by {
        if i < b.len() {
            assert(b.push(w)[i] == b[i]);
        }
    }
}

pub proof fn lemma_no_removals_trans(a: Seq<Mutation>, b: Seq<Mutation>, c: Seq<Mutation>)
    requires
        no_removals_from(a, b),
        no_removals_from(b, c),
    ensures
        no_removals_from(a, c),
{
    lemma_prefix_trans(a, b, c);
    assert forall|i: int|
        a.len() <= i < c.len() implies !((#[trigger] c[i]) matches Mutation::Remove { .. }) by {
        if i < b.len() {
            assert(b[i] == c.subrange(0, b.len() as int)[i]);
        }
    }
}

pub proof fn lemma_fresh_work_trans(a: Seq<WorkItem>, b: Seq<WorkItem>, c: Seq<WorkItem>)
    requires
        fresh_work_only_from(a, b),
        fresh_work_only_from(b, c),
    ensures
        fresh_work_only_from(a, c),
{
    lemma_prefix_trans(a, b, c);
    assert forall|i: int|
        a.len() <= i < c.len() implies ((#[trigger] c[i]) matches WorkItem::MountScope { .. }
        || c[i] matches WorkItem::MoveScopeAfterAnchor { .. }) by {
        if i < b.len() {
            assert(b[i] == c.subrange(0, b.len() as int)[i]);
        }
    }
}

pub proof fn lemma_placements_are_no_removals(a: Seq<Mutation>, b: Seq<Mutation>)
    requires
        placements_only_from(a, b),
    ensures
        no_removals_from(a, b),
{
}

pub proof fn lemma_move_work_is_fresh(a: Seq<WorkItem>, b: Seq<WorkItem>)
    requires
        move_work_only_from(a, b),
    ensures
        fresh_work_only_from(a, b),
{
}

/// Place a mounted node's top-level handles at `tail`, in sibling order,
/// and ask the scheduler layer to re-place the content of any component on
/// its spine right after its anchor.
fn place_node(n: &Node, tail: ChildTail, ctx: &mut DiffCtx)
    ensures
        extends(*old(ctx), *final(ctx)),
        placements_only_from(old(ctx).muts@, final(ctx).muts@),
        move_work_only_from(old(ctx).work@, final(ctx).work@),
        final(ctx).next_el == old(ctx).next_el,
        final(ctx).next_scope == old(ctx).next_scope,
        final(ctx).muts@.len() > old(ctx).muts@.len(),
        single_top(view_node(*n)) ==> (final(ctx).muts@.len() == old(ctx).muts@.len() + 1 && final(ctx).work@ == old(ctx).work@),
{
    let ghost pre = *ctx;
    let mut tops: Vec<u64> = Vec::new();
    collect_tops(n, &mut tops);
    let mut i: usize = 0;
    while i < tops.len()
        invariant
            0 <= i <= tops@.len(),
            extends(pre, *ctx),
            placements_only_from(pre.muts@, ctx.muts@),
            ctx.work@ == pre.work@,
            ctx.next_el == pre.next_el,
            ctx.next_scope == pre.next_scope,
            ctx.muts@.len() == pre.muts@.len() + i,
        decreases tops@.len() - i,
    {
        match tail {
            ChildTail::Append { parent } => {
                ctx.emit(Mutation::AppendChild { parent, child: tops[i] });
            },
            ChildTail::Before { anchor } => {
                ctx.emit(Mutation::InsertBefore { anchor, node: tops[i] });
            },
        }
        i = i + 1;
    }
    let mut scopes: Vec<u64> = Vec::new();
    collect_spine_scopes(n, &mut scopes);
    let ghost after_tops = ctx.muts@.len();
    let mut j: usize = 0;
    while j < scopes.len()
        invariant
            0 <= j <= scopes@.len(),
            extends(pre, *ctx),
            placements_only_from(pre.muts@, ctx.muts@),
            move_work_only_from(pre.work@, ctx.work@),
            ctx.next_el == pre.next_el,
            ctx.next_scope == pre.next_scope,
            ctx.muts@.len() == after_tops,
            ctx.work@.len() == pre.work@.len() + j,
        decreases scopes@.len() - j,
    {
        ctx.push_work(WorkItem::MoveScopeAfterAnchor { scope: scopes[j] });
        j = j + 1;
    }
    proof {
        if single_top(view_node(*n)) {
            assert(ctx.work@ =~= pre.work@);
        }
    }
}

/// Mount a fresh template: create every backend node it describes, attach
/// children to their elements, register listeners, and emit `MountScope`
/// work for each component invocation. The returned tree is the mounted
/// copy, with handles and scope identities filled in; its top-level handles
/// are not yet attached anywhere — the caller places them.
#[verifier::loop_isolation(false)]
pub(crate) fn create_node(new: &Node, ctx: &mut DiffCtx) -> (m: Node)
    ensures
        extends(*old(ctx), *final(ctx)),
        same_tpl(view_node(m), view_node(*new)),
        final(ctx).muts@.len() > old(ctx).muts@.len(),
        no_removals_from(old(ctx).muts@, final(ctx).muts@),
        fresh_work_only_from(old(ctx).work@, final(ctx).work@),
    decreases *new,
{
    proof {
        assert(no_removals_from(ctx.muts@, ctx.muts@)) by {
            assert(ctx.muts@ =~= ctx.muts@.subrange(0, ctx.muts@.len() as int));
        }
        assert(fresh_work_only_from(ctx.work@, ctx.work@)) by {
            assert(ctx.work@ =~= ctx.work@.subrange(0, ctx.work@.len() as int));
        }
    }
    match new {
        Node::Element { tag, key, attrs, listeners, children, .. } => {
            let id = ctx.fresh_el();
            let ghost b0 = ctx.muts@;
            ctx.emit(Mutation::CreateElement { id, tag: *tag });
            proof {
                lemma_no_removals_push(old(ctx).muts@, b0, Mutation::CreateElement { id, tag: *tag });
            }
            let mut ai: usize = 0;
            let ghost pre_a = *ctx;
            while ai < attrs.len()
                invariant
                    extends(pre_a, *ctx),
                    no_removals_from(old(ctx).muts@, ctx.muts@),
                    fresh_work_only_from(old(ctx).work@, ctx.work@),
                decreases attrs@.len() - ai,
            {
                let ghost b1 = ctx.muts@;
                ctx.emit(
                    Mutation::SetAttribute { id, name: attrs[ai].name, value: attrs[ai].value },
                );
                proof {
                    lemma_no_removals_push(
                        old(ctx).muts@,
                        b1,
                        Mutation::SetAttribute { id, name: attrs@[ai as int].name, value: attrs@[ai as int].value },
                    );
                }
                ai = ai + 1;
            }
            let scope = ctx.scope;
            let mut li: usize = 0;
            let ghost pre_l = *ctx;
            while li < listeners.len()
                invariant
                    extends(pre_l, *ctx),
                    ctx.scope == pre_l.scope,
                    no_removals_from(old(ctx).muts@, ctx.muts@),
                    fresh_work_only_from(old(ctx).work@, ctx.work@),
                decreases listeners@.len() - li,
            {
                let ghost b1 = ctx.muts@;
                ctx.emit(
                    Mutation::NewListener {
                        id,
                        event: listeners[li].event,
                        handler: listeners[li].handler,
                        scope,
                    },
                );
                proof {
                    lemma_no_removals_push(
                        old(ctx).muts@,
                        b1,
                        Mutation::NewListener {
                            id,
                            event: listeners@[li as int].event,
                            handler: listeners@[li as int].handler,
                            scope,
                        },
                    );
                }
                li = li + 1;
            }
            let mut mc: Vec<Node> = Vec::new();
            let mut ci: usize = 0;
            let ghost pre_c = *ctx;
            while ci < children.len()
                invariant
                    extends(pre_c, *ctx),
                    mc@.len() == ci,
                    0 <= ci <= children@.len(),
                    no_removals_from(old(ctx).muts@, ctx.muts@),
                    fresh_work_only_from(old(ctx).work@, ctx.work@),
                    forall|k: int|
                        0 <= k < ci ==> same_tpl(
                            view_node(#[trigger] mc@[k]),
                            view_node(children@[k]),
                        ),
                decreases children@.len() - ci,
            {
                let ghost g0 = *ctx;
                let c = create_node(&children[ci], ctx);
                let ghost g1 = *ctx;
                place_node(&c, ChildTail::Append { parent: id }, ctx);
                proof {
                    lemma_no_removals_trans(old(ctx).muts@, g0.muts@, g1.muts@);
                    lemma_fresh_work_trans(old(ctx).work@, g0.work@, g1.work@);
                    lemma_placements_are_no_removals(g1.muts@, ctx.muts@);
                    lemma_no_removals_trans(old(ctx).muts@, g1.muts@, ctx.muts@);
                    lemma_move_work_is_fresh(g1.work@, ctx.work@);
                    lemma_fresh_work_trans(old(ctx).work@, g1.work@, ctx.work@);
                }
                mc.push(c);
                ci = ci + 1;
            }
            let m = Node::Element {
                id,
                tag: *tag,
                key: *key,
                attrs: copy_attrs(attrs),
                listeners: copy_listeners(listeners),
                children: mc,
            };
            proof {
                lemma_view_nodes_index(m->Element_children@);
                lemma_view_nodes_index(children@);
                lemma_same_tpl_seq_intro(
                    view_nodes(m->Element_children@),
                    view_nodes(children@),
                );
            }
            m
        },
        Node::Text { text, .. } => {
            let id = ctx.fresh_el();
            let ghost b0 = ctx.muts@;
            ctx.emit(Mutation::CreateText { id, text: *text });
            proof {
                lemma_no_removals_push(old(ctx).muts@, b0, Mutation::CreateText { id, text: *text });
            }
            Node::Text { id, text: *text }
        },
        Node::Placeholder { .. } => {
            let id = ctx.fresh_el();
            let ghost b0 = ctx.muts@;
            ctx.emit(Mutation::CreatePlaceholder { id });
            proof {
                lemma_no_removals_push(old(ctx).muts@, b0, Mutation::CreatePlaceholder { id });
            }
            Node::Placeholder { id }
        },
        Node::Fragment { children, .. } => {
            let mut mc: Vec<Node> = Vec::new();
            let mut ci: usize = 0;
            let ghost pre_c = *ctx;
            while ci < children.len()
                invariant
                    extends(pre_c, *ctx),
                    mc@.len() == ci,
                    0 <= ci <= children@.len(),
                    no_removals_from(old(ctx).muts@, ctx.muts@),
                    fresh_work_only_from(old(ctx).work@, ctx.work@),
                    forall|k: int|
                        0 <= k < ci ==> same_tpl(
                            view_node(#[trigger] mc@[k]),
                            view_node(children@[k]),
                        ),
                decreases children@.len() - ci,
            {
                let ghost g0 = *ctx;
                let c = create_node(&children[ci], ctx);
                proof {
                    lemma_no_removals_trans(old(ctx).muts@, g0.muts@, ctx.muts@);
                    lemma_fresh_work_trans(old(ctx).work@, g0.work@, ctx.work@);
                }
                mc.push(c);
                ci = ci + 1;
            }
            let anchor = ctx.fresh_el();
            let ghost b0 = ctx.muts@;
            ctx.emit(Mutation::CreatePlaceholder { id: anchor });
            proof {
                lemma_no_removals_push(
                    old(ctx).muts@,
                    b0,
                    Mutation::CreatePlaceholder { id: anchor },
                );
            }
            let m = Node::Fragment { anchor, children: mc };
            proof {
                lemma_view_nodes_index(m->Fragment_children@);
                lemma_view_nodes_index(children@);
                lemma_same_tpl_seq_intro(
                    view_nodes(m->Fragment_children@),
                    view_nodes(children@),
                );
            }
            m
        },
        Node::Component { comp, props, key, .. } => {
            let anchor = ctx.fresh_el();
            let ghost b0 = ctx.muts@;
            ctx.emit(Mutation::CreatePlaceholder { id: anchor });
            let scope = ctx.fresh_scope();
            let ghost w0 = ctx.work@;
            ctx.push_work(WorkItem::MountScope { scope, comp: *comp, props: *props, anchor });
            proof {
                lemma_no_removals_push(
                    old(ctx).muts@,
                    b0,
                    Mutation::CreatePlaceholder { id: anchor },
                );
                lemma_fresh_work_push(
                    old(ctx).work@,
                    w0,
                    WorkItem::MountScope { scope, comp: *comp, props: *props, anchor },
                );
            }
            Node::Component { scope, anchor, comp: *comp, props: *props, key: *key }
        },
    }
}

/// Every child of the list carries a reconciliation key.
pub open spec fn all_keyed(s: Seq<VNode>) -> bool {
    forall|i: int| 0 <= i < s.len() ==> vkey(#[trigger] s[i]) is Some
}

/// No two keyed children of the list share a key.
pub open spec fn distinct_keys(s: Seq<VNode>) -> bool {
    forall|i: int, j: int|
        0 <= i < j < s.len() && vkey(#[trigger] s[i]) is Some && vkey(#[trigger] s[j]) is Some
            ==> vkey(s[i]) != vkey(s[j])
}

/// `b` is `a` reordered: same length, every child keyed, keys distinct on
/// both sides, and the children correspond key-for-key with equal templates.
pub open spec fn keyed_perm(a: Seq<VNode>, b: Seq<VNode>) -> bool {
    &&& a.len() == b.len()
    &&& all_keyed(a)
    &&& all_keyed(b)
    &&& distinct_keys(a)
    &&& distinct_keys(b)
    &&& forall|i: int|
        0 <= i < b.len() ==> exists|j: int|
            0 <= j < a.len() && vkey(#[trigger] b[i]) == vkey(a[j]) && same_tpl(a[j], b[i])
    &&& forall|j: int|
        0 <= j < a.len() ==> exists|i: int| 0 <= i < b.len() && vkey(#[trigger] a[j]) == vkey(b[i])
}

/// A view whose mounted form occupies exactly one top-level backend handle:
/// an element, a text node or a placeholder (fragments and components can
/// span several).
pub open spec fn single_top(v: VNode) -> bool {
    ||| v matches VNode::Element { .. }
    ||| v matches VNode::Text { .. }
    ||| v matches VNode::Placeholder { .. }
}

/// Two keyed children, equal by key but in the other order, each a
/// single-handle node: the case one move must come out of.
pub open spec fn keyed_swap2(ov: Seq<VNode>, nv: Seq<VNode>) -> bool {
    &&& keyed_perm(ov, nv)
    &&& !same_tpl_seq(ov, nv)
    &&& ov.len() == 2
    &&& single_top(ov[0])
    &&& single_top(ov[1])
}

/// Can two views be reconciled in place: same kind, and for elements and
/// components the same tag or component reference and the same key?
pub open spec fn compat(a: VNode, b: VNode) -> bool {
    match (a, b) {
        (
            VNode::Element { tag: ta, key: ka, .. },
            VNode::Element { tag: tb, key: kb, .. },
        ) => ta == tb && ka == kb,
        (VNode::Text { .. }, VNode::Text { .. }) => true,
        (VNode::Placeholder { .. }, VNode::Placeholder { .. }) => true,
        (VNode::Fragment { .. }, VNode::Fragment { .. }) => true,
        (
            VNode::Component { comp: ca, key: ka, .. },
            VNode::Component { comp: cb, key: kb, .. },
        ) => ca == cb && ka == kb,
        _ => false,
    }
}

/// Can these two nodes be reconciled in place?
fn compatible(a: &Node, b: &Node) -> (r: bool)
    ensures
        r == compat(view_node(*a), view_node(*b)),
        same_tpl(view_node(*a), view_node(*b)) ==> r,
{
    match (a, b) {
        (Node::Element { tag: ta, key: ka, .. }, Node::Element { tag: tb, key: kb, .. }) => *ta
            == *tb && *ka == *kb,
        (Node::Text { .. }, Node::Text { .. }) => true,
        (Node::Placeholder { .. }, Node::Placeholder { .. }) => true,
        (Node::Fragment { .. }, Node::Fragment { .. }) => true,
        (
            Node::Component { comp: ca, key: ka, .. },
            Node::Component { comp: cb, key: kb, .. },
        ) => *ca == *cb && *ka == *kb,
        _ => false,
    }
}

/// Replace one mounted subtree with a fresh template: create the new
/// nodes, place them where the old subtree began, then remove it. No
/// diffing across incompatible shapes.
fn replace(old_n: &Node, new_n: &Node, ctx: &mut DiffCtx) -> (m: Node)
    ensures
        extends(*old(ctx), *final(ctx)),
        same_tpl(view_node(m), view_node(*new_n)),
        final(ctx).scope == old(ctx).scope,
        final(ctx).muts@.len() > old(ctx).muts@.len() + 1,
        final(ctx).muts@.last() matches Mutation::Remove { .. },
{
    let ghost pre = *ctx;
    let anchor = rep_id(old_n);
    let m = create_node(new_n, ctx);
    place_node(&m, ChildTail::Before { anchor }, ctx);
    remove_node(old_n, ctx);
    m
}

/// Find the first not-yet-matched old child whose key is `tkey`.
fn find_keyed_match(old_c: &Vec<Node>, matched: &Vec<bool>, tkey: Option<u64>) -> (r: Option<
    usize,
>)
    requires
        matched@.len() == old_c@.len(),
    ensures
        r matches Some(j) ==> 0 <= j < old_c@.len() && !matched@[j as int] && vkey(
            view_node(old_c@[j as int]),
        ) == tkey && (forall|k: int|
            0 <= k < j ==> matched@[k] || vkey(view_node(#[trigger] old_c@[k])) != tkey),
        r is None ==> forall|k: int|
            0 <= k < old_c@.len() ==> matched@[k] || vkey(view_node(#[trigger] old_c@[k]))
                != tkey,
{
    let mut k: usize = 0;
    while k < old_c.len()
        invariant
            0 <= k <= old_c@.len(),
            matched@.len() == old_c@.len(),
            forall|t: int|
                0 <= t < k ==> matched@[t] || vkey(view_node(#[trigger] old_c@[t])) != tkey,
        decreases old_c@.len() - k,
    {
        if !matched[k] {
            let ck = old_c[k].key();
            if ck == tkey {
                return Some(k);
            }
        }
        k = k + 1;
    }
    None
}

/// Are two attribute lists equal, name for name and value for value?
fn attrs_eq(a: &Vec<Attribute>, b: &Vec<Attribute>) -> (r: bool)
    ensures
        r == (a@ == b@),
{
    if a.len() != b.len() {
        return false;
    }
    let mut i: usize = 0;
    while i < a.len()
        invariant
            0 <= i <= a@.len(),
            a@.len() == b@.len(),
            forall|k: int| 0 <= k < i ==> a@[k] == b@[k],
        decreases a@.len() - i,
    {
        if a[i] != b[i] {
            return false;
        }
        i = i + 1;
    }
    proof {
        assert(a@ =~= b@);
    }
    true
}

/// Are two listener lists equal, event for event and handler for handler?
fn listeners_eq(a: &Vec<Listener>, b: &Vec<Listener>) -> (r: bool)
    ensures
        r == (a@ == b@),
{
    if a.len() != b.len() {
        return false;
    }
    let mut i: usize = 0;
    while i < a.len()
        invariant
            0 <= i <= a@.len(),
            a@.len() == b@.len(),
            forall|k: int| 0 <= k < i ==> a@[k] == b@[k],
        decreases a@.len() - i,
    {
        if a[i] != b[i] {
            return false;
        }
        i = i + 1;
    }
    proof {
        assert(a@ =~= b@);
    }
    true
}

/// Do a committed node and a fresh template describe the same tree, apart
/// from the bookkeeping the differ fills in (handles, scope bindings)?
#[verifier::loop_isolation(false)]
fn same_tpl_check(a: &Node, b: &Node) -> (r: bool)
    ensures
        r == same_tpl(view_node(*a), view_node(*b)),
    decreases *a, 1int,
{
    match (a, b) {
        (
            Node::Element { tag: ta, key: ka, attrs: aa, listeners: la, children: ca, .. },
            Node::Element { tag: tb, key: kb, attrs: ab, listeners: lb, children: cb, .. },
        ) => *ta == *tb && *ka == *kb && attrs_eq(aa, ab) && listeners_eq(la, lb)
            && same_tpl_check_seq(ca, cb),
        (Node::Text { text: xa, .. }, Node::Text { text: xb, .. }) => *xa == *xb,
        (Node::Placeholder { .. }, Node::Placeholder { .. }) => true,
        (Node::Fragment { children: ca, .. }, Node::Fragment { children: cb, .. }) => {
            same_tpl_check_seq(ca, cb)
        },
        (
            Node::Component { comp: fa, props: pa, key: ka, .. },
            Node::Component { comp: fb, props: pb, key: kb, .. },
        ) => *fa == *fb && *pa == *pb && *ka == *kb,
        _ => false,
    }
}

/// Do two children lists describe the same trees, child for child?
#[verifier::loop_isolation(false)]
fn same_tpl_check_seq(a: &Vec<Node>, b: &Vec<Node>) -> (r: bool)
    ensures
        r == same_tpl_seq(view_nodes(a@), view_nodes(b@)),
    decreases a@, 0int,
{
    proof {
        lemma_view_nodes_index(a@);
        lemma_view_nodes_index(b@);
    }
    if a.len() != b.len() {
        proof {
            if same_tpl_seq(view_nodes(a@), view_nodes(b@)) {
                lemma_same_tpl_seq_index(view_nodes(a@), view_nodes(b@));
                assert(false);
            }
        }
        return false;
    }
    let mut i: usize = 0;
    while i < a.len()
        invariant
            0 <= i <= a@.len(),
            forall|k: int|
                0 <= k < i ==> same_tpl(
                    view_node(#[trigger] a@[k]),
                    view_node(b@[k]),
                ),
        decreases a@.len() - i,
    {
        if !same_tpl_check(&a[i], &b[i]) {
            proof {
                if same_tpl_seq(view_nodes(a@), view_nodes(b@)) {
                    lemma_same_tpl_seq_index(view_nodes(a@), view_nodes(b@));
                    assert(view_nodes(a@)[i as int] == view_node(a@[i as int]));
                    assert(view_nodes(b@)[i as int] == view_node(b@[i as int]));
                    assert(same_tpl(view_node(a@[i as int]), view_node(b@[i as int])));
                    assert(false);
                }
            }
            return false;
        }
        i = i + 1;
    }
    proof {
        lemma_same_tpl_seq_intro(view_nodes(a@), view_nodes(b@));
    }
    true
}

/// An exact copy of a committed node, handles and bindings included.
#[verifier::loop_isolation(false)]
fn copy_node(n: &Node) -> (m: Node)
    ensures
        view_node(m) == view_node(*n),
    decreases *n,
{
    match n {
        Node::Element { id, tag, key, attrs, listeners, children } => {
            let mut mc: Vec<Node> = Vec::new();
            let mut i: usize = 0;
            while i < children.len()
                invariant
                    mc@.len() == i,
                    0 <= i <= children@.len(),
                    forall|k: int|
                        0 <= k < i ==> view_node(#[trigger] mc@[k]) == view_node(children@[k]),
                decreases children@.len() - i,
            {
                let c = copy_node(&children[i]);
                mc.push(c);
                i = i + 1;
            }
            proof {
                lemma_view_nodes_index(mc@);
                lemma_view_nodes_index(children@);
                assert(view_nodes(mc@) =~= view_nodes(children@));
            }
            Node::Element {
                id: *id,
                tag: *tag,
                key: *key,
                attrs: copy_attrs(attrs),
                listeners: copy_listeners(listeners),
                children: mc,
            }
        },
        Node::Text { id, text } => Node::Text { id: *id, text: *text },
        Node::Placeholder { id } => Node::Placeholder { id: *id },
        Node::Fragment { anchor, children } => {
            let mut mc: Vec<Node> = Vec::new();
            let mut i: usize = 0;
            while i < children.len()
                invariant
                    mc@.len() == i,
                    0 <= i <= children@.len(),
                    forall|k: int|
                        0 <= k < i ==> view_node(#[trigger] mc@[k]) == view_node(children@[k]),
                decreases children@.len() - i,
            {
                let c = copy_node(&children[i]);
                mc.push(c);
                i = i + 1;
            }
            proof {
                lemma_view_nodes_index(mc@);
                lemma_view_nodes_index(children@);
                assert(view_nodes(mc@) =~= view_nodes(children@));
            }
            Node::Fragment { anchor: *anchor, children: mc }
        },
        Node::Component { scope, anchor, comp, props, key } => Node::Component {
            scope: *scope,
            anchor: *anchor,
            comp: *comp,
            props: *props,
            key: *key,
        },
    }
}

/// Diff one committed node against one freshly rendered node, emitting the
/// mutations that turn the one into the other, and return the mounted copy
/// that the new tree commits to.
///
/// Identical templates produce nothing: no mutations, no scope work, no
/// fresh identities, and the mounted copy is the committed node itself.
#[verifier::loop_isolation(false)]
pub fn diff_node(old_n: &Node, new_n: &Node, ctx: &mut DiffCtx) -> (m: Node)
    ensures
        extends(*old(ctx), *final(ctx)),
        same_tpl(view_node(m), view_node(*new_n)),
        final(ctx).scope == old(ctx).scope,
        same_tpl(view_node(*old_n), view_node(*new_n)) ==> (unchanged(*old(ctx), *final(ctx))
            && view_node(m) == view_node(*old_n)),
        !compat(view_node(*old_n), view_node(*new_n)) ==> (final(ctx).muts@.len() > old(ctx).muts@.len() + 1 && final(ctx).muts@.last() matches Mutation::Remove { .. }),
        ({
            let ov = view_node(*old_n);
            let nv = view_node(*new_n);
            (ov matches VNode::Text { .. } && nv matches VNode::Text { .. } && !same_tpl(ov, nv))
                ==> (final(ctx).muts@ == old(ctx).muts@.push(
                Mutation::SetText { id: ov->Text_id, text: nv->Text_text },
            ) && final(ctx).work@ == old(ctx).work@ && final(ctx).next_el == old(ctx).next_el
                && final(ctx).next_scope == old(ctx).next_scope)
        }),
        ({
            let ov = view_node(*old_n);
            let nv = view_node(*new_n);
            (ov matches VNode::Element { .. } && nv matches VNode::Element { .. }
                && ov->Element_tag == nv->Element_tag && ov->Element_key == nv->Element_key
                && ov->Element_attrs == nv->Element_attrs && distinct_attr_names(
                nv->Element_attrs,
            ) && ov->Element_listeners == nv->Element_listeners && distinct_events(
                nv->Element_listeners,
            ) && single_text_change(ov->Element_children, nv->Element_children)) ==> (final(ctx).muts@ == old(ctx).muts@.push(
                Mutation::SetText {
                    id: ov->Element_children[0]->Text_id,
                    text: nv->Element_children[0]->Text_text,
                },
            ) && final(ctx).work@ == old(ctx).work@ && final(ctx).next_el == old(ctx).next_el
                && final(ctx).next_scope == old(ctx).next_scope)
        }),
        ({
            let ov = view_node(*old_n);
            let nv = view_node(*new_n);
            (ov matches VNode::Element { .. } && nv matches VNode::Element { .. }
                && ov->Element_tag == nv->Element_tag && ov->Element_key == nv->Element_key
                && ov->Element_attrs == nv->Element_attrs && distinct_attr_names(
                nv->Element_attrs,
            ) && ov->Element_listeners == nv->Element_listeners && distinct_events(
                nv->Element_listeners,
            ) && keyed_swap2(ov->Element_children, nv->Element_children)) ==> (final(ctx).muts@.len()
                == old(ctx).muts@.len() + 1 && placements_only_from(old(ctx).muts@, final(ctx).muts@)
                && final(ctx).work@ == old(ctx).work@)
        }),
        ({
            let ov = view_node(*old_n);
            let nv = view_node(*new_n);
            (ov matches VNode::Component { .. } && nv matches VNode::Component { .. }
                && ov->Component_comp == nv->Component_comp && ov->Component_key
                == nv->Component_key && ov->Component_props != nv->Component_props) ==> (final(ctx).muts@ == old(ctx).muts@ && final(ctx).work@ == old(ctx).work@.push(
                WorkItem::UpdateScope { scope: ov->Component_scope, props: nv->Component_props },
            ) && final(ctx).next_el == old(ctx).next_el && final(ctx).next_scope == old(ctx).next_scope && view_node(m) == (VNode::Component {
                scope: ov->Component_scope,
                anchor: ov->Component_anchor,
                comp: nv->Component_comp,
                props: nv->Component_props,
                key: nv->Component_key,
            }))
        }),
    decreases *new_n, 2int,
{
    if same_tpl_check(old_n, new_n) {
        return copy_node(old_n);
    }
    match (old_n, new_n) {
        (
            Node::Element {
                id: oid,
                tag: otag,
                key: okey,
                attrs: oattrs,
                listeners: ols,
                children: ochildren,
            },
            Node::Element {
                tag: ntag,
                key: nkey,
                attrs: nattrs,
                listeners: nls,
                children: nchildren,
                ..
            },
        ) => {
            if *otag == *ntag && *okey == *nkey {
                diff_attrs(*oid, oattrs, nattrs, ctx);
                diff_listeners(*oid, ols, nls, ctx);
                let mc = diff_children(
                    ochildren,
                    nchildren,
                    ChildTail::Append { parent: *oid },
                    ctx,
                );
                let m = Node::Element {
                    id: *oid,
                    tag: *ntag,
                    key: *nkey,
                    attrs: copy_attrs(nattrs),
                    listeners: copy_listeners(nls),
                    children: mc,
                };
                m
            } else {
                replace(old_n, new_n, ctx)
            }
        },
        (Node::Text { id, text: ot }, Node::Text { text: nt, .. }) => {
            if *ot != *nt {
                ctx.emit(Mutation::SetText { id: *id, text: *nt });
            }
            Node::Text { id: *id, text: *nt }
        },
        (Node::Placeholder { id }, Node::Placeholder { .. }) => Node::Placeholder { id: *id },
        (
            Node::Fragment { anchor, children: ochildren },
            Node::Fragment { children: nchildren, .. },
        ) => {
            let mc = diff_children(
                ochildren,
                nchildren,
                ChildTail::Before { anchor: *anchor },
                ctx,
            );
            Node::Fragment { anchor: *anchor, children: mc }
        },
        (
            Node::Component { scope, anchor, comp: ocomp, props: oprops, key: okey },
            Node::Component { comp: ncomp, props: nprops, key: nkey, .. },
        ) => {
            if *ocomp == *ncomp && *okey == *nkey {
                if *oprops != *nprops {
                    ctx.push_work(WorkItem::UpdateScope { scope: *scope, props: *nprops });
                }
                Node::Component {
                    scope: *scope,
                    anchor: *anchor,
                    comp: *ncomp,
                    props: *nprops,
                    key: *nkey,
                }
            } else {
                replace(old_n, new_n, ctx)
            }
        },
        _ => replace(old_n, new_n, ctx),
    }
}

/// Reconcile two children lists. When both sides are fully keyed, children
/// are matched by key and reordered with moves; otherwise they are matched
/// strictly by position, with excess old children removed and excess new
/// children created at the tail. Keyed children are never matched against
/// unkeyed ones.
///
/// Reordering keyed children (same keys, equal templates, permuted) emits
/// placements only: matched children are never created or destroyed, and the
/// only scope work is re-placing component content after its anchor.
#[verifier::loop_isolation(false)]
pub fn diff_children(old_c: &Vec<Node>, new_c: &Vec<Node>, tail: ChildTail, ctx: &mut DiffCtx) -> (mc: Vec<
    Node,
>)
    ensures
        extends(*old(ctx), *final(ctx)),
        same_tpl_seq(view_nodes(mc@), view_nodes(new_c@)),
        final(ctx).scope == old(ctx).scope,
        keyed_perm(view_nodes(old_c@), view_nodes(new_c@)) ==> (placements_only_from(
            old(ctx).muts@,
            final(ctx).muts@,
        ) && move_work_only_from(old(ctx).work@, final(ctx).work@)),
        old_c@.len() == 0 && new_c@.len() > 0 ==> final(ctx).muts@.len() > old(ctx).muts@.len(),
        old_c@.len() > 0 && new_c@.len() == 0 ==> final(ctx).muts@.len() > old(ctx).muts@.len(),
        keyed_perm(view_nodes(old_c@), view_nodes(new_c@)) && !same_tpl_seq(
            view_nodes(old_c@),
            view_nodes(new_c@),
        ) ==> final(ctx).muts@.len() > old(ctx).muts@.len(),
        single_text_change(view_nodes(old_c@), view_nodes(new_c@)) ==> (final(ctx).muts@ == old(ctx).muts@.push(
            Mutation::SetText {
                id: view_nodes(old_c@)[0]->Text_id,
                text: view_nodes(new_c@)[0]->Text_text,
            },
        ) && final(ctx).work@ == old(ctx).work@ && final(ctx).next_el == old(ctx).next_el && final(ctx).next_scope == old(ctx).next_scope),
        keyed_swap2(view_nodes(old_c@), view_nodes(new_c@)) ==> (final(ctx).muts@.len() == old(ctx).muts@.len() + 1 && final(ctx).work@ == old(ctx).work@),
    decreases new_c@, 1int,
{
    let keyed = old_c.len() > 0 && new_c.len() > 0 && all_keyed_exec(old_c) && all_keyed_exec(
        new_c,
    );
    if keyed {
        diff_keyed(old_c, new_c, tail, ctx)
    } else {
        let ghost pre = *ctx;
        let mc = diff_positional(old_c, new_c, tail, ctx);
        proof {
            if keyed_perm(view_nodes(old_c@), view_nodes(new_c@)) {
                lemma_view_nodes_index(old_c@);
                lemma_view_nodes_index(new_c@);
                assert(view_nodes(new_c@).len() == 0 && view_nodes(old_c@).len() == 0);
                assert(!keyed_swap2(view_nodes(old_c@), view_nodes(new_c@)));
                assert(same_tpl_seq(view_nodes(old_c@), view_nodes(new_c@)));
                assert(unchanged(pre, *ctx));
                assert(pre.muts@.is_prefix_of(ctx.muts@)) by {
                    assert(pre.muts@ =~= ctx.muts@.subrange(0, pre.muts@.len() as int));
                }
                assert(pre.work@.is_prefix_of(ctx.work@)) by {
                    assert(pre.work@ =~= ctx.work@.subrange(0, pre.work@.len() as int));
                }
            }
        }
        mc
    }
}

/// A strictly decreasing sequence of `n` values inside `[0, n)` can only
/// be `n-1, n-2, ..., 0`: its `k`-th value is `n - 1 - k`.
proof fn lemma_decreasing_low(js: Seq<int>, n: int, k: int)
    requires
        js.len() == n,
        0 <= k < n,
        forall|t: int| 0 <= t < n ==> 0 <= #[trigger] js[t] < n,
        forall|t: int| 0 <= t < n - 1 ==> #[trigger] js[t] > js[t + 1],
    ensures
        js[k] >= n - 1 - k,
    decreases n - k,
{
    if k < n - 1 {
        lemma_decreasing_low(js, n, k + 1);
    }
}

proof fn lemma_decreasing_high(js: Seq<int>, n: int, k: int)
    requires
        js.len() == n,
        0 <= k < n,
        forall|t: int| 0 <= t < n ==> 0 <= #[trigger] js[t] < n,
        forall|t: int| 0 <= t < n - 1 ==> #[trigger] js[t] > js[t + 1],
    ensures
        js[k] <= n - 1 - k,
    decreases k,
{
    if k > 0 {
        lemma_decreasing_high(js, n, k - 1);
    }
}

/// One step of keyed matching bookkeeping: after pairing new child `i`
/// with old child `j` of the same key, the matched set still records
/// exactly the old children whose key occurs among the new children not
/// yet processed.
proof fn lemma_matched_update(
    ov: Seq<VNode>,
    nv: Seq<VNode>,
    pre_m: Seq<bool>,
    post_m: Seq<bool>,
    i: int,
    j: int,
)
    requires
        keyed_perm(ov, nv),
        pre_m.len() == ov.len(),
        post_m == pre_m.update(j, true),
        0 <= i < nv.len(),
        0 <= j < ov.len(),
        vkey(ov[j]) == vkey(nv[i]),
        forall|k: int|
            0 <= k < ov.len() ==> ((#[trigger] pre_m[k]) <==> exists|i2: int|
                i + 1 <= i2 < nv.len() && vkey(ov[k]) == vkey(#[trigger] nv[i2])),
    ensures
        forall|k: int|
            0 <= k < ov.len() ==> ((#[trigger] post_m[k]) <==> exists|i2: int|
                i <= i2 < nv.len() && vkey(ov[k]) == vkey(#[trigger] nv[i2])),
{
    assert forall|k: int| 0 <= k < ov.len() implies ((#[trigger] post_m[k]) <==> exists|i2: int|
        i <= i2 < nv.len() && vkey(ov[k]) == vkey(#[trigger] nv[i2])) by {
        if k == j {
            assert(post_m[k]);
            assert(vkey(ov[k]) == vkey(nv[i]));
        } else {
            assert(post_m[k] == pre_m[k]);
            if exists|i2: int| i <= i2 < nv.len() && vkey(ov[k]) == vkey(#[trigger] nv[i2]) {
                let i2 = choose|i2: int|
                    i <= i2 < nv.len() && vkey(ov[k]) == vkey(#[trigger] nv[i2]);
                if i2 == i {
                    assert(vkey(ov[k]) == vkey(ov[j]));
                    assert(vkey(ov[k]) is Some);
                    assert(false);
                } else {
                    assert(i + 1 <= i2 < nv.len() && vkey(ov[k]) == vkey(nv[i2]));
                }
            }
            if pre_m[k] {
                let i2 = choose|i2: int|
                    i + 1 <= i2 < nv.len() && vkey(ov[k]) == vkey(#[trigger] nv[i2]);
                assert(i <= i2 < nv.len() && vkey(ov[k]) == vkey(nv[i2]));
            }
        }
    }
}

/// Reconcile two fully keyed children lists: match children by key, diff
/// matched pairs in place, and re-place only the children that are out of
/// order, scanning from the right so each placement's anchor is the next
/// sibling already in position. Children that stay form an increasing run
/// of old positions; a simple correct placement, not a minimal one.
#[verifier::rlimit(100)]
#[verifier::spinoff_prover]
fn diff_keyed(old_c: &Vec<Node>, new_c: &Vec<Node>, tail: ChildTail, ctx: &mut DiffCtx) -> (mc: Vec<
    Node,
>)
    requires
        old_c@.len() > 0,
        new_c@.len() > 0,
        all_keyed(view_nodes(old_c@)),
        all_keyed(view_nodes(new_c@)),
    ensures
        extends(*old(ctx), *final(ctx)),
        same_tpl_seq(view_nodes(mc@), view_nodes(new_c@)),
        final(ctx).scope == old(ctx).scope,
        keyed_perm(view_nodes(old_c@), view_nodes(new_c@)) ==> (placements_only_from(
            old(ctx).muts@,
            final(ctx).muts@,
        ) && move_work_only_from(old(ctx).work@, final(ctx).work@)),
        keyed_perm(view_nodes(old_c@), view_nodes(new_c@)) && !same_tpl_seq(
            view_nodes(old_c@),
            view_nodes(new_c@),
        ) ==> final(ctx).muts@.len() > old(ctx).muts@.len(),
        keyed_swap2(view_nodes(old_c@), view_nodes(new_c@)) ==> (final(ctx).muts@.len() == old(ctx).muts@.len() + 1 && final(ctx).work@ == old(ctx).work@),
    decreases new_c@, 0int,
{
    let m = old_c.len();
    let n = new_c.len();
    let ghost pre = *ctx;
    let ghost ov = view_nodes(old_c@);
    let ghost nv = view_nodes(new_c@);
    let ghost perm_case = keyed_perm(ov, nv);
    let ghost swap2 = keyed_swap2(ov, nv);
    proof {
        lemma_view_nodes_index(old_c@);
        lemma_view_nodes_index(new_c@);
    }
    let mut matched: Vec<bool> = Vec::new();
    while matched.len() < m
        invariant
            matched@.len() <= m,
            forall|k: int| 0 <= k < matched@.len() ==> !(#[trigger] matched@[k]),
        decreases m - matched@.len(),
    {
        matched.push(false);
    }
    let mut rev: Vec<Node> = Vec::new();
    let mut anchor_tail = tail;
    let mut last_stayed: usize = m;
    let ghost mut js: Seq<int> = Seq::empty();
    let mut i: usize = n;
    while i > 0
        invariant
            0 <= i <= n,
            m == old_c@.len(),
            n == new_c@.len(),
            matched@.len() == m,
            rev@.len() == n - i,
            ov == view_nodes(old_c@),
            nv == view_nodes(new_c@),
            ov.len() == m,
            nv.len() == n,
            all_keyed(ov),
            all_keyed(nv),
            perm_case <==> keyed_perm(ov, nv),
            extends(pre, *ctx),
            ctx.scope == pre.scope,
            forall|k: int|
                0 <= k < rev@.len() ==> same_tpl(view_node(#[trigger] rev@[k]), nv[n - 1 - k]),
            perm_case ==> forall|k: int|
                0 <= k < m ==> ((#[trigger] matched@[k]) <==> exists|i2: int|
                    i <= i2 < n && vkey(ov[k]) == vkey(#[trigger] nv[i2])),
            perm_case ==> placements_only_from(pre.muts@, ctx.muts@) && move_work_only_from(
                pre.work@,
                ctx.work@,
            ),
            swap2 <==> keyed_swap2(ov, nv),
            swap2 ==> (ctx.work@ == pre.work@ && ctx.muts@.len() <= pre.muts@.len() + 1 && (i >= 1
                ==> ctx.muts@.len() == pre.muts@.len())),
            perm_case && ctx.muts@.len() == pre.muts@.len() ==> ({
                &&& js.len() == n - i
                &&& forall|k: int|
                    0 <= k < js.len() ==> 0 <= #[trigger] js[k] < m && same_tpl(
                        ov[js[k]],
                        nv[n - 1 - k],
                    )
                &&& forall|k: int| 0 <= k < js.len() - 1 ==> #[trigger] js[k] > js[k + 1]
                &&& js.len() > 0 ==> last_stayed == js[js.len() - 1]
                &&& js.len() == 0 ==> last_stayed == m
            }),
        decreases i,
    {
        i = i - 1;
        proof {
            lemma_view_nodes_index(old_c@);
            lemma_view_nodes_index(new_c@);
        }
        let nk = new_c[i].key();
        let r = find_keyed_match(old_c, &matched, nk);
        proof {
            if perm_case {
                let j0 = choose|j0: int|
                    0 <= j0 < m && vkey(nv[i as int]) == vkey(ov[j0]) && same_tpl(
                        ov[j0],
                        nv[i as int],
                    );
                assert(!matched@[j0]) by {
                    if matched@[j0] {
                        let i2 = choose|i2: int|
                            i + 1 <= i2 < n && vkey(ov[j0]) == vkey(#[trigger] nv[i2]);
                        assert(vkey(nv[i as int]) == vkey(nv[i2]));
                        assert(vkey(nv[i as int]) is Some);
                        assert(false);
                    }
                }
                assert(vkey(view_node(old_c@[j0])) == nk);
                assert(r is Some);
            }
        }
        let mnt;
        match r {
            Some(j) => {
                let ghost matched_pre = matched@;
                matched.set(j, true);
                proof {
                    if perm_case {
                        let j0 = choose|j0: int|
                            0 <= j0 < m && vkey(nv[i as int]) == vkey(ov[j0]) && same_tpl(
                                ov[j0],
                                nv[i as int],
                            );
                        assert(vkey(ov[j as int]) == vkey(ov[j0]));
                        assert(vkey(ov[j0]) is Some);
                        assert(j == j0);
                        assert(same_tpl(view_node(old_c@[j as int]), view_node(new_c@[i as int])));
                        assert(vkey(ov[j as int]) == vkey(nv[i as int]));
                        lemma_matched_update(ov, nv, matched_pre, matched@, i as int, j as int);
                    }
                }
                mnt = diff_node(&old_c[j], &new_c[i], ctx);
                let ghost mid = *ctx;
                if j < last_stayed {
                    proof {
                        js = js.push(j as int);
                    }
                    last_stayed = j;
                } else {
                    place_node(&mnt, anchor_tail, ctx);
                    proof {
                        lemma_extends_trans(pre, mid, *ctx);
                        if perm_case {
                            lemma_placements_trans(pre.muts@, mid.muts@, ctx.muts@);
                            lemma_move_work_trans(pre.work@, mid.work@, ctx.work@);
                        }
                    }
                }
                proof {
                    lemma_extends_trans(pre, mid, *ctx);
                }
            },
            None => {
                proof {
                    if perm_case {
                        assert(false);
                    }
                }
                let ghost mid0 = *ctx;
                mnt = create_node(&new_c[i], ctx);
                let ghost mid = *ctx;
                place_node(&mnt, anchor_tail, ctx);
                proof {
                    lemma_extends_trans(mid0, mid, *ctx);
                    lemma_extends_trans(pre, mid0, *ctx);
                }
            },
        }
        anchor_tail = ChildTail::Before { anchor: rep_id(&mnt) };
        rev.push(mnt);
    }
    let ghost after_main = ctx.muts@;
    let ghost after_main_work = ctx.work@;
    let mut j2: usize = 0;
    while j2 < m
        invariant
            0 <= j2 <= m,
            m == old_c@.len(),
            n == new_c@.len(),
            matched@.len() == m,
            ov == view_nodes(old_c@),
            nv == view_nodes(new_c@),
            ov.len() == m,
            nv.len() == n,
            perm_case <==> keyed_perm(ov, nv),
            extends(pre, *ctx),
            ctx.scope == pre.scope,
            perm_case ==> placements_only_from(pre.muts@, ctx.muts@) && move_work_only_from(
                pre.work@,
                ctx.work@,
            ),
            perm_case ==> forall|k: int|
                0 <= k < m ==> ((#[trigger] matched@[k]) <==> exists|i2: int|
                    0 <= i2 < n && vkey(ov[k]) == vkey(#[trigger] nv[i2])),
            perm_case ==> ctx.muts@ == after_main,
            perm_case ==> ctx.work@ == after_main_work,
        decreases m - j2,
    {
        if !matched[j2] {
            proof {
                if perm_case {
                    assert(exists|i2: int|
                        0 <= i2 < n && vkey(ov[j2 as int]) == vkey(#[trigger] nv[i2]));
                    assert(matched@[j2 as int]);
                    assert(false);
                }
            }
            let ghost mid = *ctx;
            remove_node(&old_c[j2], ctx);
            proof {
                lemma_extends_trans(pre, mid, *ctx);
            }
        }
        j2 = j2 + 1;
    }
    let mut mc: Vec<Node> = Vec::new();
    while rev.len() > 0
        invariant
            mc@.len() + rev@.len() == n,
            n == new_c@.len(),
            nv == view_nodes(new_c@),
            nv.len() == n,
            forall|k: int|
                0 <= k < rev@.len() ==> same_tpl(view_node(#[trigger] rev@[k]), nv[n - 1 - k]),
            forall|t: int| 0 <= t < mc@.len() ==> same_tpl(view_node(#[trigger] mc@[t]), nv[t]),
        decreases rev@.len(),
    {
        let x = rev.pop().unwrap();
        mc.push(x);
    }
    proof {
        lemma_view_nodes_index(mc@);
        lemma_view_nodes_index(new_c@);
        lemma_same_tpl_seq_intro(view_nodes(mc@), nv);
        if perm_case && !same_tpl_seq(ov, nv) && ctx.muts@.len() == pre.muts@.len() {
            assert(js.len() == n);
            assert(m == n);
            assert forall|k: int| 0 <= k < n implies same_tpl(ov[k], nv[k]) by {
                let t = n - 1 - k;
                lemma_decreasing_low(js, n as int, t);
                lemma_decreasing_high(js, n as int, t);
                assert(js[t] == k);
                assert(same_tpl(ov[js[t]], nv[n - 1 - t]));
            }
            lemma_same_tpl_seq_intro(ov, nv);
            assert(false);
        }
    }
    mc
}

/// Does every child of the list carry a key?
fn all_keyed_exec(v: &Vec<Node>) -> (b: bool)
    ensures
        b == all_keyed(view_nodes(v@)),
{
    proof {
        lemma_view_nodes_index(v@);
    }
    let mut i: usize = 0;
    while i < v.len()
        invariant
            0 <= i <= v@.len(),
            forall|k: int| 0 <= k < i ==> vkey(view_nodes(v@)[k]) is Some,
        decreases v@.len() - i,
    {
        proof {
            lemma_view_nodes_index(v@);
        }
        let k = v[i].key();
        if k.is_none() {
            assert(vkey(view_nodes(v@)[i as int]) is None);
            return false;
        }
        i = i + 1;
    }
    true
}

/// Both children lists hold exactly one child, both are text nodes, and
/// the text changed: the case one set-text must come out of.
pub open spec fn single_text_change(ov: Seq<VNode>, nv: Seq<VNode>) -> bool {
    &&& ov.len() == 1
    &&& nv.len() == 1
    &&& ov[0] matches VNode::Text { .. }
    &&& nv[0] matches VNode::Text { .. }
    &&& !same_tpl(ov[0], nv[0])
}

/// Match children strictly by position: reconcile compatible pairs in
/// place, replace incompatible ones, remove excess old children, create
/// excess new children at the tail.
fn diff_positional(old_c: &Vec<Node>, new_c: &Vec<Node>, tail: ChildTail, ctx: &mut DiffCtx) -> (mc: Vec<
    Node,
>)
    ensures
        extends(*old(ctx), *final(ctx)),
        same_tpl_seq(view_nodes(mc@), view_nodes(new_c@)),
        final(ctx).scope == old(ctx).scope,
        old_c@.len() == 0 && new_c@.len() == 0 ==> unchanged(*old(ctx), *final(ctx)),
        old_c@.len() == 0 && new_c@.len() > 0 ==> final(ctx).muts@.len() > old(ctx).muts@.len(),
        old_c@.len() > 0 && new_c@.len() == 0 ==> final(ctx).muts@.len() > old(ctx).muts@.len(),
        single_text_change(view_nodes(old_c@), view_nodes(new_c@)) ==> (final(ctx).muts@ == old(ctx).muts@.push(
            Mutation::SetText {
                id: view_nodes(old_c@)[0]->Text_id,
                text: view_nodes(new_c@)[0]->Text_text,
            },
        ) && final(ctx).work@ == old(ctx).work@ && final(ctx).next_el == old(ctx).next_el && final(ctx).next_scope == old(ctx).next_scope),
    decreases new_c@, 0int,
{
    let ghost pre = *ctx;
    let ghost ov = view_nodes(old_c@);
    let ghost nv = view_nodes(new_c@);
    proof {
        lemma_view_nodes_index(old_c@);
        lemma_view_nodes_index(new_c@);
    }
    let shared: usize = if old_c.len() < new_c.len() {
        old_c.len()
    } else {
        new_c.len()
    };
    let mut mc: Vec<Node> = Vec::new();
    let mut i: usize = 0;
    while i < shared
        invariant
            0 <= i <= shared,
            shared <= old_c@.len(),
            shared <= new_c@.len(),
            mc@.len() == i,
            ov == view_nodes(old_c@),
            ov.len() == old_c@.len(),
            nv == view_nodes(new_c@),
            nv.len() == new_c@.len(),
            extends(pre, *ctx),
            ctx.scope == pre.scope,
            forall|k: int| 0 <= k < i ==> same_tpl(view_node(#[trigger] mc@[k]), nv[k]),
            old_c@.len() == 0 && new_c@.len() == 0 ==> unchanged(pre, *ctx),
            single_text_change(ov, nv) ==> (ctx.work@ == pre.work@ && ctx.next_el == pre.next_el
                && ctx.next_scope == pre.next_scope && ctx.muts@ == if i == 0 {
                pre.muts@
            } else {
                pre.muts@.push(Mutation::SetText { id: ov[0]->Text_id, text: nv[0]->Text_text })
            }),
        decreases shared - i,
    {
        proof {
            lemma_view_nodes_index(new_c@);
        }
        let ghost mid = *ctx;
        let m = if compatible(&old_c[i], &new_c[i]) {
            diff_node(&old_c[i], &new_c[i], ctx)
        } else {
            replace(&old_c[i], &new_c[i], ctx)
        };
        proof {
            lemma_extends_trans(pre, mid, *ctx);
        }
        mc.push(m);
        i = i + 1;
    }
    let mut j: usize = old_c.len();
    while j > shared
        invariant
            shared <= j <= old_c@.len(),
            ov == view_nodes(old_c@),
            ov.len() == old_c@.len(),
            nv == view_nodes(new_c@),
            nv.len() == new_c@.len(),
            shared == if old_c@.len() < new_c@.len() {
                old_c@.len() as int
            } else {
                new_c@.len() as int
            },
            extends(pre, *ctx),
            ctx.scope == pre.scope,
            old_c@.len() == 0 && new_c@.len() == 0 ==> unchanged(pre, *ctx),
            j < old_c@.len() ==> ctx.muts@.len() > pre.muts@.len(),
            single_text_change(ov, nv) ==> (ctx.work@ == pre.work@ && ctx.next_el == pre.next_el
                && ctx.next_scope == pre.next_scope && ctx.muts@ == pre.muts@.push(
                Mutation::SetText { id: ov[0]->Text_id, text: nv[0]->Text_text },
            )),
        decreases j,
    {
        j = j - 1;
        let ghost mid = *ctx;
        remove_node(&old_c[j], ctx);
        proof {
            lemma_extends_trans(pre, mid, *ctx);
        }
    }
    let mut k: usize = shared;
    let ghost grew_before = ctx.muts@.len() > pre.muts@.len();
    while k < new_c.len()
        invariant
            shared <= k <= new_c@.len(),
            mc@.len() == k,
            ov == view_nodes(old_c@),
            ov.len() == old_c@.len(),
            nv == view_nodes(new_c@),
            nv.len() == new_c@.len(),
            shared == if old_c@.len() < new_c@.len() {
                old_c@.len() as int
            } else {
                new_c@.len() as int
            },
            extends(pre, *ctx),
            ctx.scope == pre.scope,
            forall|t: int| 0 <= t < k ==> same_tpl(view_node(#[trigger] mc@[t]), nv[t]),
            old_c@.len() == 0 && new_c@.len() == 0 ==> unchanged(pre, *ctx),
            grew_before ==> ctx.muts@.len() > pre.muts@.len(),
            k > shared ==> ctx.muts@.len() > pre.muts@.len(),
            single_text_change(ov, nv) ==> (ctx.work@ == pre.work@ && ctx.next_el == pre.next_el
                && ctx.next_scope == pre.next_scope && ctx.muts@ == pre.muts@.push(
                Mutation::SetText { id: ov[0]->Text_id, text: nv[0]->Text_text },
            )),
        decreases new_c@.len() - k,
    {
        proof {
            lemma_view_nodes_index(new_c@);
        }
        let ghost mid0 = *ctx;
        let m = create_node(&new_c[k], ctx);
        let ghost mid = *ctx;
        place_node(&m, tail, ctx);
        proof {
            lemma_extends_trans(mid0, mid, *ctx);
            lemma_extends_trans(pre, mid0, *ctx);
        }
        mc.push(m);
        k = k + 1;
    }
    proof {
        lemma_view_nodes_index(mc@);
        lemma_view_nodes_index(new_c@);
        lemma_same_tpl_seq_intro(view_nodes(mc@), nv);
    }
    mc
}

} // verus!
