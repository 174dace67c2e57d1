use vtree::backend::{BKind, Backend};
use vtree::mutation::Mutation;
use vtree::node::{Attribute, Listener, Node, UNASSIGNED};
use vtree::vdom::VirtualDom;

const CONTAINER: u64 = 0;
const ROOT_COMP: u64 = 100;

fn el(tag: u64, children: Vec<Node>) -> Node {
    Node::Element {
        id: UNASSIGNED,
        tag,
        key: None,
        attrs: vec![],
        listeners: vec![],
        children,
    }
}

fn el_keyed(tag: u64, key: u64, children: Vec<Node>) -> Node {
    Node::Element {
        id: UNASSIGNED,
        tag,
        key: Some(key),
        attrs: vec![],
        listeners: vec![],
        children,
    }
}

fn txt(text: u64) -> Node {
    Node::Text { id: UNASSIGNED, text }
}

fn creates(batch: &[Mutation]) -> usize {
    batch
        .iter()
        .filter(|m| {
            matches!(
                m,
                Mutation::CreateElement { .. }
                    | Mutation::CreateText { .. }
                    | Mutation::CreatePlaceholder { .. }
            )
        })
        .count()
}

fn removes(batch: &[Mutation]) -> usize {
    batch.iter().filter(|m| matches!(m, Mutation::Remove { .. })).count()
}

/// Drive one tick where the root renders `tree`.
fn tick_root(vdom: &mut VirtualDom, tree: Node) -> Vec<Mutation> {
    let scope = vdom.next_work().expect("root queued");
    vdom.complete_render(scope, tree);
    assert!(vdom.next_work().is_none());
    vdom.end_tick()
}

#[test]
fn set_text_scenario() {
    // div[ "a" ] diffed to div[ "b" ] yields one set-text mutation.
    let mut vdom = VirtualDom::new(CONTAINER, ROOT_COMP, 0);
    let first = tick_root(&mut vdom, el(7, vec![txt(1)]));
    assert!(creates(&first) > 0);
    vdom.mark_dirty(1);
    let second = tick_root(&mut vdom, el(7, vec![txt(2)]));
    assert_eq!(second.len(), 1);
    assert!(matches!(second[0], Mutation::SetText { text: 2, .. }));
}

#[test]
fn identical_render_emits_nothing() {
    // Re-rendering the same tree produces an empty batch.
    let tree = el(7, vec![txt(1), el(8, vec![txt(2)])]);
    let same = el(7, vec![txt(1), el(8, vec![txt(2)])]);
    let mut vdom = VirtualDom::new(CONTAINER, ROOT_COMP, 0);
    tick_root(&mut vdom, tree);
    vdom.mark_dirty(1);
    let second = tick_root(&mut vdom, same);
    assert_eq!(second.len(), 0);
}

#[test]
fn keyed_swap_is_one_move() {
    // ul[ li(key=1), li(key=2) ] to ul[ li(key=2), li(key=1) ]:
    // one move, zero creates, zero removes.
    let ul = 20;
    let li = 21;
    let mut vdom = VirtualDom::new(CONTAINER, ROOT_COMP, 0);
    tick_root(
        &mut vdom,
        el(ul, vec![el_keyed(li, 1, vec![txt(1)]), el_keyed(li, 2, vec![txt(2)])]),
    );
    vdom.mark_dirty(1);
    let second = tick_root(
        &mut vdom,
        el(ul, vec![el_keyed(li, 2, vec![txt(2)]), el_keyed(li, 1, vec![txt(1)])]),
    );
    assert_eq!(second.len(), 1);
    assert!(matches!(second[0], Mutation::InsertBefore { .. }));
    assert_eq!(creates(&second), 0);
    assert_eq!(removes(&second), 0);
}

#[test]
fn keyed_reorder_three_children() {
    // A rotation of three keyed children moves, never creates or destroys.
    let mut vdom = VirtualDom::new(CONTAINER, ROOT_COMP, 0);
    tick_root(
        &mut vdom,
        el(
            20,
            vec![
                el_keyed(21, 1, vec![txt(1)]),
                el_keyed(21, 2, vec![txt(2)]),
                el_keyed(21, 3, vec![txt(3)]),
            ],
        ),
    );
    vdom.mark_dirty(1);
    let second = tick_root(
        &mut vdom,
        el(
            20,
            vec![
                el_keyed(21, 3, vec![txt(3)]),
                el_keyed(21, 1, vec![txt(1)]),
                el_keyed(21, 2, vec![txt(2)]),
            ],
        ),
    );
    assert_eq!(creates(&second), 0);
    assert_eq!(removes(&second), 0);
    assert!(!second.is_empty());
    for m in &second {
        assert!(matches!(
            m,
            Mutation::InsertBefore { .. }
                | Mutation::InsertAfter { .. }
                | Mutation::AppendChild { .. }
        ));
    }
}

#[test]
fn placeholder_to_element_creates_without_removing() {
    // A component rendering a placeholder renders nothing; re-rendering an
    // element yields one create and zero removes.
    let mut vdom = VirtualDom::new(CONTAINER, ROOT_COMP, 0);
    let first = tick_root(&mut vdom, Node::Placeholder { id: UNASSIGNED });
    assert_eq!(first.len(), 2); // the root anchor: create + append
    vdom.mark_dirty(1);
    let second = tick_root(&mut vdom, el(7, vec![]));
    assert_eq!(creates(&second), 1);
    assert_eq!(removes(&second), 0);
}

#[test]
fn round_trip_matches_new_tree() {
    // Applying the batches to a model backend yields the second tree.
    let mut vdom = VirtualDom::new(CONTAINER, ROOT_COMP, 0);
    let mut backend = Backend::new(CONTAINER);
    let first = tick_root(
        &mut vdom,
        Node::Element {
            id: UNASSIGNED,
            tag: 7,
            key: None,
            attrs: vec![Attribute { name: 40, value: 41 }],
            listeners: vec![],
            children: vec![txt(1), el(8, vec![])],
        },
    );
    backend.apply_all(&first);
    vdom.mark_dirty(1);
    let second = tick_root(
        &mut vdom,
        Node::Element {
            id: UNASSIGNED,
            tag: 7,
            key: None,
            attrs: vec![Attribute { name: 40, value: 42 }],
            listeners: vec![],
            children: vec![txt(3)],
        },
    );
    backend.apply_all(&second);
    // The container holds the root anchor and the root element.
    let roots = backend.root_ids();
    assert_eq!(roots.len(), 2);
    let root_el = roots[1];
    assert_eq!(backend.kind_of(root_el), Some(BKind::Element));
    assert_eq!(backend.tag_of(root_el), Some(7));
    assert_eq!(backend.attr_of(root_el, 40), Some(42));
    let children = backend.children_of(root_el);
    assert_eq!(children.len(), 1);
    assert_eq!(backend.kind_of(children[0]), Some(BKind::Text));
    assert_eq!(backend.text_of(children[0]), Some(3));
}

#[test]
fn attribute_absence_is_removal() {
    // An attribute absent from the new tree is removed, not set empty.
    let mut vdom = VirtualDom::new(CONTAINER, ROOT_COMP, 0);
    let mut backend = Backend::new(CONTAINER);
    let first = tick_root(
        &mut vdom,
        Node::Element {
            id: UNASSIGNED,
            tag: 7,
            key: None,
            attrs: vec![Attribute { name: 40, value: 41 }],
            listeners: vec![],
            children: vec![],
        },
    );
    backend.apply_all(&first);
    vdom.mark_dirty(1);
    let second = tick_root(&mut vdom, el(7, vec![]));
    assert_eq!(second.len(), 1);
    assert!(matches!(second[0], Mutation::RemoveAttribute { name: 40, .. }));
    backend.apply_all(&second);
    let roots = backend.root_ids();
    assert_eq!(backend.attr_of(roots[1], 40), None);
}

#[test]
fn child_component_short_circuits_on_equal_props() {
    // A scope whose props are unchanged and which is not dirty is not
    // re-rendered: its render count stays where it was.
    let child_comp = 200;
    let child = |props: u64| Node::Component {
        scope: UNASSIGNED,
        anchor: UNASSIGNED,
        comp: child_comp,
        props,
        key: None,
    };
    let mut vdom = VirtualDom::new(CONTAINER, ROOT_COMP, 0);
    // Tick 1: root mounts the child; the child renders once.
    let root_scope = vdom.next_work().unwrap();
    vdom.complete_render(root_scope, el(7, vec![child(5)]));
    let child_scope = vdom.next_work().expect("child queued after mount");
    assert_ne!(child_scope, root_scope);
    vdom.complete_render(child_scope, txt(9));
    assert!(vdom.next_work().is_none());
    vdom.end_tick();
    let renders_of = |vdom: &VirtualDom, id: u64| {
        vdom.arena
            .scopes
            .iter()
            .find(|s| s.id == id)
            .map(|s| s.render_count)
            .unwrap()
    };
    assert_eq!(renders_of(&vdom, child_scope), 1);
    // Tick 2: only the root is dirty; it renders the same props.
    vdom.mark_dirty(root_scope);
    let s = vdom.next_work().unwrap();
    assert_eq!(s, root_scope);
    vdom.complete_render(s, el(7, vec![child(5)]));
    assert!(vdom.next_work().is_none(), "child must not re-render");
    vdom.end_tick();
    assert_eq!(renders_of(&vdom, child_scope), 1);
    // Tick 3: changed props do re-render the child.
    vdom.mark_dirty(root_scope);
    let s = vdom.next_work().unwrap();
    vdom.complete_render(s, el(7, vec![child(6)]));
    let s2 = vdom.next_work().expect("child queued on new props");
    assert_eq!(s2, child_scope);
    vdom.complete_render(s2, txt(10));
    vdom.end_tick();
    assert_eq!(renders_of(&vdom, child_scope), 2);
}

#[test]
fn unmount_runs_cleanups_in_reverse_order() {
    let child_comp = 200;
    let child = Node::Component {
        scope: UNASSIGNED,
        anchor: UNASSIGNED,
        comp: child_comp,
        props: 0,
        key: None,
    };
    let mut vdom = VirtualDom::new(CONTAINER, ROOT_COMP, 0);
    let root_scope = vdom.next_work().unwrap();
    vdom.complete_render(root_scope, el(7, vec![child]));
    let child_scope = vdom.next_work().unwrap();
    vdom.complete_render(child_scope, txt(9));
    vdom.end_tick();
    vdom.push_cleanup(child_scope, 31);
    vdom.push_cleanup(child_scope, 32);
    vdom.push_cleanup(child_scope, 33);
    // The next render drops the component: its cleanups run exactly once,
    // in reverse registration order.
    vdom.mark_dirty(root_scope);
    let s = vdom.next_work().unwrap();
    vdom.complete_render(s, el(7, vec![]));
    vdom.end_tick();
    assert_eq!(vdom.take_cleanups(), vec![33, 32, 31]);
    assert_eq!(vdom.take_cleanups(), Vec::<u64>::new());
    // The scope is gone: a stale identity is a no-op.
    let before = vdom.arena.scopes.len();
    vdom.mark_dirty(child_scope);
    assert_eq!(vdom.arena.scopes.len(), before);
}

#[test]
fn nested_unmount_runs_child_cleanups_before_parents() {
    let inner = Node::Component {
        scope: UNASSIGNED,
        anchor: UNASSIGNED,
        comp: 201,
        props: 0,
        key: None,
    };
    let outer = Node::Component {
        scope: UNASSIGNED,
        anchor: UNASSIGNED,
        comp: 200,
        props: 0,
        key: None,
    };
    let mut vdom = VirtualDom::new(CONTAINER, ROOT_COMP, 0);
    let root_scope = vdom.next_work().unwrap();
    vdom.complete_render(root_scope, el(7, vec![outer]));
    let outer_scope = vdom.next_work().unwrap();
    vdom.complete_render(outer_scope, el(8, vec![inner]));
    let inner_scope = vdom.next_work().unwrap();
    vdom.complete_render(inner_scope, txt(9));
    vdom.end_tick();
    vdom.push_cleanup(outer_scope, 41);
    vdom.push_cleanup(inner_scope, 42);
    vdom.mark_dirty(root_scope);
    let s = vdom.next_work().unwrap();
    vdom.complete_render(s, el(7, vec![]));
    vdom.end_tick();
    // The inner scope was mounted later: its cleanup runs first.
    assert_eq!(vdom.take_cleanups(), vec![42, 41]);
}

#[test]
fn one_batch_for_two_sibling_scopes() {
    // An event mutating state used by two sibling scopes yields exactly one
    // combined batch after both re-render.
    let comp_a = 200;
    let comp_b = 201;
    let child = |comp: u64| Node::Component {
        scope: UNASSIGNED,
        anchor: UNASSIGNED,
        comp,
        props: 0,
        key: None,
    };
    let mut vdom = VirtualDom::new(CONTAINER, ROOT_COMP, 0);
    let root_scope = vdom.next_work().unwrap();
    vdom.complete_render(root_scope, el(7, vec![child(comp_a), child(comp_b)]));
    let a = vdom.next_work().unwrap();
    vdom.complete_render(a, txt(1));
    let b = vdom.next_work().unwrap();
    vdom.complete_render(b, txt(2));
    vdom.end_tick();
    // The event handler marks both scopes dirty.
    vdom.mark_dirty(a);
    vdom.mark_dirty(b);
    // One tick drains both; the batch holds both scopes' mutations.
    let sa = vdom.next_work().unwrap();
    vdom.complete_render(sa, txt(11));
    let sb = vdom.next_work().unwrap();
    vdom.complete_render(sb, txt(12));
    assert!(vdom.next_work().is_none());
    let batch = vdom.end_tick();
    let set_texts: Vec<&Mutation> = batch
        .iter()
        .filter(|m| matches!(m, Mutation::SetText { .. }))
        .collect();
    assert_eq!(set_texts.len(), 2);
}

#[test]
fn listener_routes_event_to_owning_scope() {
    let mut vdom = VirtualDom::new(CONTAINER, ROOT_COMP, 0);
    let first = tick_root(
        &mut vdom,
        Node::Element {
            id: UNASSIGNED,
            tag: 7,
            key: None,
            attrs: vec![],
            listeners: vec![Listener { event: 50, handler: 51 }],
            children: vec![],
        },
    );
    let element = first
        .iter()
        .find_map(|m| match m {
            Mutation::CreateElement { id, tag: 7 } => Some(*id),
            _ => None,
        })
        .expect("element created");
    assert_eq!(vdom.dispatch_event(element, 50), Some((1, 51)));
    assert_eq!(vdom.dispatch_event(element, 99), None);
}

#[test]
fn hooks_are_positionally_stable() {
    let mut vdom = VirtualDom::new(CONTAINER, ROOT_COMP, 0);
    let scope = vdom.next_work().unwrap();
    // First render: two slots created with their initial values.
    assert_eq!(vdom.use_hook(scope, 1, 10), Some(Ok(10)));
    assert_eq!(vdom.use_hook(scope, 2, 20), Some(Ok(20)));
    vdom.complete_render(scope, txt(1));
    vdom.end_tick();
    // A handler overwrites slot 0.
    vdom.set_state(scope, 0, 99);
    // Second render: the same positions return the stored values.
    let s = vdom.next_work().unwrap();
    assert_eq!(vdom.use_hook(s, 1, 10), Some(Ok(99)));
    assert_eq!(vdom.use_hook(s, 2, 20), Some(Ok(20)));
    // A kind mismatch at a slot is reported with the slot index.
    vdom.complete_render(s, txt(1));
    vdom.end_tick();
    vdom.mark_dirty(scope);
    let s = vdom.next_work().unwrap();
    let err = vdom.use_hook(s, 3, 0);
    assert_eq!(err, Some(Err(vtree::arena::HookError { slot: 0 })));
    vdom.complete_render(s, txt(1));
    vdom.end_tick();
}

#[test]
fn replace_on_kind_mismatch() {
    // A text node replaced by an element: the old subtree is removed and
    // the new one created, never diffed across shapes.
    let mut vdom = VirtualDom::new(CONTAINER, ROOT_COMP, 0);
    let mut backend = Backend::new(CONTAINER);
    let first = tick_root(&mut vdom, el(7, vec![txt(1)]));
    backend.apply_all(&first);
    vdom.mark_dirty(1);
    let second = tick_root(&mut vdom, el(7, vec![el(8, vec![])]));
    backend.apply_all(&second);
    assert_eq!(creates(&second), 1);
    assert_eq!(removes(&second), 1);
    let roots = backend.root_ids();
    let children = backend.children_of(roots[1]);
    assert_eq!(children.len(), 1);
    assert_eq!(backend.tag_of(children[0]), Some(8));
}

#[test]
fn excess_children_removed_and_created() {
    let mut vdom = VirtualDom::new(CONTAINER, ROOT_COMP, 0);
    let mut backend = Backend::new(CONTAINER);
    let first = tick_root(&mut vdom, el(7, vec![txt(1), txt(2), txt(3)]));
    backend.apply_all(&first);
    vdom.mark_dirty(1);
    let second = tick_root(&mut vdom, el(7, vec![txt(1)]));
    backend.apply_all(&second);
    assert_eq!(removes(&second), 2);
    let roots = backend.root_ids();
    assert_eq!(backend.children_of(roots[1]).len(), 1);
    vdom.mark_dirty(1);
    let third = tick_root(&mut vdom, el(7, vec![txt(1), txt(4)]));
    backend.apply_all(&third);
    assert_eq!(creates(&third), 1);
    let children = backend.children_of(roots[1]);
    assert_eq!(children.len(), 2);
    assert_eq!(backend.text_of(children[1]), Some(4));
}

#[test]
fn deferred_dirtiness_waits_for_next_tick() {
    let mut vdom = VirtualDom::new(CONTAINER, ROOT_COMP, 0);
    let scope = vdom.next_work().unwrap();
    vdom.complete_render(scope, txt(1));
    // The tick is running: new dirtiness must not re-enter this tick.
    vdom.mark_dirty(scope);
    assert!(vdom.next_work().is_none());
    vdom.end_tick();
    // It is queued for the next tick instead.
    let again = vdom.next_work();
    assert_eq!(again, Some(scope));
    vdom.complete_render(scope, txt(1));
    vdom.end_tick();
}

#[test]
fn failed_render_is_contained() {
    // A render function that fails is contained: the embedder substitutes a
    // bare placeholder for that scope's output, its old content is removed,
    // and sibling scopes render on in the same tick, in one batch.
    let comp_a = 200;
    let comp_b = 201;
    let child = |comp: u64| Node::Component {
        scope: UNASSIGNED,
        anchor: UNASSIGNED,
        comp,
        props: 0,
        key: None,
    };
    let mut vdom = VirtualDom::new(CONTAINER, ROOT_COMP, 0);
    let root_scope = vdom.next_work().unwrap();
    vdom.complete_render(root_scope, el(7, vec![child(comp_a), child(comp_b)]));
    let a = vdom.next_work().unwrap();
    vdom.complete_render(a, txt(1));
    let b = vdom.next_work().unwrap();
    vdom.complete_render(b, txt(2));
    vdom.end_tick();
    // Both scopes re-render; the first one's render fails.
    vdom.mark_dirty(a);
    vdom.mark_dirty(b);
    let sa = vdom.next_work().unwrap();
    vdom.complete_render(sa, Node::Placeholder { id: UNASSIGNED });
    let sb = vdom.next_work().unwrap();
    vdom.complete_render(sb, txt(22));
    let batch = vdom.end_tick();
    // The failed scope's text was removed; the sibling's update went out in
    // the same batch; no scope was unmounted.
    assert_eq!(
        batch.iter().filter(|m| matches!(m, Mutation::Remove { .. })).count(),
        1
    );
    assert!(batch.iter().any(|m| matches!(m, Mutation::SetText { text: 22, .. })));
    assert_eq!(vdom.take_cleanups(), Vec::<u64>::new());
    // The failed scope recovers on its next render: create, no removes.
    vdom.mark_dirty(a);
    let sa = vdom.next_work().unwrap();
    vdom.complete_render(sa, txt(11));
    let batch = vdom.end_tick();
    assert_eq!(creates(&batch), 1);
    assert_eq!(removes(&batch), 0);
}
