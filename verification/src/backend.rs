//! A model of the renderer backend, the external collaborator that applies
//! mutation batches: nodes keyed by the handles the differ assigned, a
//! children order per node, and the attribute, text and listener state the
//! mutations describe. Tests drive the engine, apply each batch here, and
//! observe that the backend tree matches the rendered templates.
//!
//! Removal of an unknown or already detached handle is a no-op: a scope's
//! content removal may name handles that already fell with an enclosing
//! node.

use vstd::prelude::*;

use crate::mutation::Mutation;
use crate::node::Attribute;
use crate::node::Listener;

verus! {

/// What kind of backend node a handle names.
#[derive(Clone, Copy, PartialEq, Eq, Structural, Debug)]
pub enum BKind {
    Element,
    Text,
    Placeholder,
}

/// One backend node.
pub struct BNode {
    pub id: u64,
    pub kind: BKind,
    pub tag: u64,
    pub text: u64,
    pub attrs: Vec<Attribute>,
    pub listeners: Vec<Listener>,
    pub children: Vec<u64>,
}

/// The backend state: every created node, and the children of the container
/// node the engine was mounted into.
pub struct Backend {
    pub container: u64,
    pub nodes: Vec<BNode>,
    pub roots: Vec<u64>,
}

impl Backend {
    /// An empty backend around one container handle.
    pub fn new(container: u64) -> (r: Backend)
        ensures
            r.container == container,
            r.nodes@.len() == 0,
            r.roots@.len() == 0,
    {
        Backend { container, nodes: Vec::new(), roots: Vec::new() }
    }

    fn find(&self, id: u64) -> (r: Option<usize>)
        ensures
            r matches Some(k) ==> 0 <= k < self.nodes@.len() && self.nodes@[k as int].id == id,
    {
        let mut k: usize = 0;
        while k < self.nodes.len()
            invariant
                0 <= k <= self.nodes@.len(),
            decreases self.nodes@.len() - k,
        {
            if self.nodes[k].id == id {
                return Some(k);
            }
            k = k + 1;
        }
        None
    }

    /// Remove `id` from the container's children and from every node's
    /// children list, leaving the node itself known but detached.
    fn detach(&mut self, id: u64)
    {
        let mut kept: Vec<u64> = Vec::new();
        let mut i: usize = 0;
        while i < self.roots.len()
            decreases self.roots@.len() - i,
        {
            if self.roots[i] != id {
                kept.push(self.roots[i]);
            }
            i = i + 1;
        }
        self.roots = kept;
        let mut k: usize = 0;
        while k < self.nodes.len()
            decreases self.nodes@.len() - k,
        {
            let mut n = self.nodes.remove(k);
            let mut kc: Vec<u64> = Vec::new();
            let mut j: usize = 0;
            while j < n.children.len()
                decreases n.children@.len() - j,
            {
                if n.children[j] != id {
                    kc.push(n.children[j]);
                }
                j = j + 1;
            }
            n.children = kc;
            self.nodes.insert(k, n);
            k = k + 1;
        }
    }

    /// Insert `node` in the sibling list that holds `anchor`, directly
    /// before (`after` false) or after (`after` true) it.
    fn insert_at(&mut self, anchor: u64, node: u64, after: bool)
    {
        let mut i: usize = 0;
        let mut hit_roots: Option<usize> = None;
        while i < self.roots.len()
            invariant
                0 <= i <= self.roots@.len(),
                hit_roots matches Some(h) ==> h < self.roots@.len(),
            decreases self.roots@.len() - i,
        {
            if self.roots[i] == anchor && hit_roots.is_none() {
                hit_roots = Some(i);
            }
            i = i + 1;
        }
        match hit_roots {
            Some(h) => {
                let at = if after {
                    h + 1
                } else {
                    h
                };
                if at <= self.roots.len() {
                    self.roots.insert(at, node);
                }
                return ;
            },
            None => {},
        }
        let mut k: usize = 0;
        while k < self.nodes.len()
            decreases self.nodes@.len() - k,
        {
            let mut n = self.nodes.remove(k);
            let mut j: usize = 0;
            let mut hit: Option<usize> = None;
            while j < n.children.len()
                invariant
                    hit matches Some(h) ==> h < n.children@.len(),
                decreases n.children@.len() - j,
            {
                if n.children[j] == anchor && hit.is_none() {
                    hit = Some(j);
                }
                j = j + 1;
            }
            match hit {
                Some(h) => {
                    let at = if after {
                        h + 1
                    } else {
                        h
                    };
                    if at <= n.children.len() {
                        n.children.insert(at, node);
                    }
                    self.nodes.insert(k, n);
                    return ;
                },
                None => {
                    self.nodes.insert(k, n);
                },
            }
            k = k + 1;
        }
    }

    /// Apply one mutation.
    pub fn apply(&mut self, m: &Mutation)
    {
        match *m {
            Mutation::CreateElement { id, tag } => {
                self.nodes.push(
                    BNode {
                        id,
                        kind: BKind::Element,
                        tag,
                        text: 0,
                        attrs: Vec::new(),
                        listeners: Vec::new(),
                        children: Vec::new(),
                    },
                );
            },
            Mutation::CreateText { id, text } => {
                self.nodes.push(
                    BNode {
                        id,
                        kind: BKind::Text,
                        tag: 0,
                        text,
                        attrs: Vec::new(),
                        listeners: Vec::new(),
                        children: Vec::new(),
                    },
                );
            },
            Mutation::CreatePlaceholder { id } => {
                self.nodes.push(
                    BNode {
                        id,
                        kind: BKind::Placeholder,
                        tag: 0,
                        text: 0,
                        attrs: Vec::new(),
                        listeners: Vec::new(),
                        children: Vec::new(),
                    },
                );
            },
            Mutation::AppendChild { parent, child } => {
                self.detach(child);
                if parent == self.container {
                    self.roots.push(child);
                } else {
                    match self.find(parent) {
                        Some(k) => {
                            let mut n = self.nodes.remove(k);
                            n.children.push(child);
                            self.nodes.insert(k, n);
                        },
                        None => {},
                    }
                }
            },
            Mutation::InsertBefore { anchor, node } => {
                self.detach(node);
                self.insert_at(anchor, node, false);
            },
            Mutation::InsertAfter { anchor, node } => {
                self.detach(node);
                self.insert_at(anchor, node, true);
            },
            Mutation::SetAttribute { id, name, value } => {
                match self.find(id) {
                    Some(k) => {
                        let mut n = self.nodes.remove(k);
                        let mut done = false;
                        let mut j: usize = 0;
                        while j < n.attrs.len()
                            decreases n.attrs@.len() - j,
                        {
                            if n.attrs[j].name == name && !done {
                                n.attrs.set(j, Attribute { name, value });
                                done = true;
                            }
                            j = j + 1;
                        }
                        if !done {
                            n.attrs.push(Attribute { name, value });
                        }
                        self.nodes.insert(k, n);
                    },
                    None => {},
                }
            },
            Mutation::RemoveAttribute { id, name } => {
                match self.find(id) {
                    Some(k) => {
                        let mut n = self.nodes.remove(k);
                        let mut kept: Vec<Attribute> = Vec::new();
                        let mut j: usize = 0;
                        while j < n.attrs.len()
                            decreases n.attrs@.len() - j,
                        {
                            if n.attrs[j].name != name {
                                kept.push(n.attrs[j]);
                            }
                            j = j + 1;
                        }
                        n.attrs = kept;
                        self.nodes.insert(k, n);
                    },
                    None => {},
                }
            },
            Mutation::SetText { id, text } => {
                match self.find(id) {
                    Some(k) => {
                        let mut n = self.nodes.remove(k);
                        n.text = text;
                        self.nodes.insert(k, n);
                    },
                    None => {},
                }
            },
            Mutation::NewListener { id, event, handler, .. } => {
                match self.find(id) {
                    Some(k) => {
                        let mut n = self.nodes.remove(k);
                        let mut kept: Vec<Listener> = Vec::new();
                        let mut j: usize = 0;
                        while j < n.listeners.len()
                            decreases n.listeners@.len() - j,
                        {
                            if n.listeners[j].event != event {
                                kept.push(n.listeners[j]);
                            }
                            j = j + 1;
                        }
                        kept.push(Listener { event, handler });
                        n.listeners = kept;
                        self.nodes.insert(k, n);
                    },
                    None => {},
                }
            },
            Mutation::RemoveListener { id, event } => {
                match self.find(id) {
                    Some(k) => {
                        let mut n = self.nodes.remove(k);
                        let mut kept: Vec<Listener> = Vec::new();
                        let mut j: usize = 0;
                        while j < n.listeners.len()
                            decreases n.listeners@.len() - j,
                        {
                            if n.listeners[j].event != event {
                                kept.push(n.listeners[j]);
                            }
                            j = j + 1;
                        }
                        n.listeners = kept;
                        self.nodes.insert(k, n);
                    },
                    None => {},
                }
            },
            Mutation::Remove { id } => {
                self.detach(id);
            },
        }
    }

    /// Apply a whole batch, in order.
    pub fn apply_all(&mut self, muts: &Vec<Mutation>)
    {
        let mut i: usize = 0;
        while i < muts.len()
            decreases muts@.len() - i,
        {
            self.apply(&muts[i]);
            i = i + 1;
        }
    }

    /// The container's children, in order.
    pub fn root_ids(&self) -> (r: Vec<u64>)
        ensures
            r@ == self.roots@,
    {
        let mut r: Vec<u64> = Vec::new();
        let mut i: usize = 0;
        while i < self.roots.len()
            invariant
                0 <= i <= self.roots@.len(),
                r@ == self.roots@.subrange(0, i as int),
            decreases self.roots@.len() - i,
        {
            r.push(self.roots[i]);
            i = i + 1;
            proof {
                assert(r@ =~= self.roots@.subrange(0, i as int));
            }
        }
        proof {
            assert(r@ =~= self.roots@);
        }
        r
    }

    /// The kind of a live handle.
    pub fn kind_of(&self, id: u64) -> (r: Option<BKind>)
    {
        match self.find(id) {
            Some(k) => Some(self.nodes[k].kind),
            None => None,
        }
    }

    /// The tag of a live element handle.
    pub fn tag_of(&self, id: u64) -> (r: Option<u64>)
    {
        match self.find(id) {
            Some(k) => Some(self.nodes[k].tag),
            None => None,
        }
    }

    /// The text of a live text handle.
    pub fn text_of(&self, id: u64) -> (r: Option<u64>)
    {
        match self.find(id) {
            Some(k) => Some(self.nodes[k].text),
            None => None,
        }
    }

    /// The value of one attribute of a live handle, if set.
    pub fn attr_of(&self, id: u64, name: u64) -> (r: Option<u64>)
    {
        match self.find(id) {
            Some(k) => {
                let n = &self.nodes[k];
                let mut t: usize = 0;
                while t < n.attrs.len()
                    decreases n.attrs@.len() - t,
                {
                    if n.attrs[t].name == name {
                        return Some(n.attrs[t].value);
                    }
                    t = t + 1;
                }
                None
            },
            None => None,
        }
    }

    /// The children of a live handle, in order.
    pub fn children_of(&self, id: u64) -> (r: Vec<u64>)
    {
        match self.find(id) {
            Some(k) => {
                let n = &self.nodes[k];
                let mut r: Vec<u64> = Vec::new();
                let mut j: usize = 0;
                while j < n.children.len()
                    decreases n.children@.len() - j,
                {
                    r.push(n.children[j]);
                    j = j + 1;
                }
                r
            },
            None => Vec::new(),
        }
    }
}

} // verus!
