//! Dotted paths: the chain of names that an attribute key or a selection
//! spells out, recovered from an element inside it.

use crate::text::{blank, is_blank, strip_newlines, without_newlines};
use crate::tree::{child_nodes, is_token, name_of, nth_child, up, Kind, NodeView, Tree};
use vstd::prelude::*;

verus! {

/// The nearest attribute key at or above `id`.
pub open spec fn enclosing_key(nodes: Seq<NodeView>, id: usize) -> Option<usize>
    decreases id,
{
    if nodes[id as int].kind == Kind::Key {
        Some(id)
    } else {
        match up(nodes, id) {
            Some(p) => enclosing_key(nodes, p),
            None => None,
        }
    }
}

/// The outermost selection of the first unbroken run of selections at or
/// above `id`; `found` is the selection that the run has reached so far.
pub open spec fn outermost_select(nodes: Seq<NodeView>, id: usize, found: Option<usize>) -> Option<
    usize,
>
    decreases id,
{
    if nodes[id as int].kind == Kind::Select {
        match up(nodes, id) {
            Some(p) => outermost_select(nodes, p, Some(id)),
            None => Some(id),
        }
    } else if found is Some {
        found
    } else {
        match up(nodes, id) {
            Some(p) => outermost_select(nodes, p, None),
            None => None,
        }
    }
}

/// The names that the elements `ids[k..]` of a key spell before anything
/// but an identifier or a dot stands among them. A name of white space
/// alone is left out, and line feeds inside a name are dropped.
pub open spec fn key_names(nodes: Seq<NodeView>, ids: Seq<usize>, k: int) -> Seq<Seq<char>>
    decreases ids.len() - k,
{
    if k < 0 || k >= ids.len() {
        Seq::empty()
    } else {
        let c = ids[k];
        if nodes[c as int].kind == Kind::Ident {
            let name = name_of(nodes, c);
            if is_blank(name) {
                key_names(nodes, ids, k + 1)
            } else {
                seq![without_newlines(name)] + key_names(nodes, ids, k + 1)
            }
        } else if nodes[c as int].kind == Kind::DotToken {
            key_names(nodes, ids, k + 1)
        } else {
            Seq::empty()
        }
    }
}

/// What a walk in text order has gathered: the names of the identifier
/// tokens met, the last element passed, and whether the walk has ended at
/// a token that is neither an identifier nor a dot.
pub ghost struct Scan {
    pub names: Seq<Seq<char>>,
    pub last: Option<usize>,
    pub done: bool,
}

/// The walk over `id` and all that is inside it, going on from `acc`.
pub open spec fn scan(nodes: Seq<NodeView>, id: usize, acc: Scan) -> Scan
    decreases nodes.len() - id, nodes[id as int].children.len() + 1,
{
    if acc.done || id >= nodes.len() {
        Scan { done: true, ..acc }
    } else {
        let kind = nodes[id as int].kind;
        if is_token(kind) {
            if kind == Kind::DotToken {
                Scan { last: Some(id), ..acc }
            } else if kind == Kind::IdentToken {
                Scan { names: acc.names.push(nodes[id as int].text), last: Some(id), done: false }
            } else {
                Scan { done: true, ..acc }
            }
        } else {
            scan_children(nodes, id, 0, Scan { last: Some(id), ..acc })
        }
    }
}

/// The walk over the elements directly inside `id` from the `k`-th on.
pub open spec fn scan_children(nodes: Seq<NodeView>, id: usize, k: int, acc: Scan) -> Scan
    decreases nodes.len() - id, nodes[id as int].children.len() - k,
{
    if acc.done || k < 0 || k >= nodes[id as int].children.len() {
        acc
    } else {
        let c = nodes[id as int].children[k];
        if id < c < nodes.len() {
            scan_children(nodes, id, k + 1, scan(nodes, c, acc))
        } else {
            Scan { done: true, ..acc }
        }
    }
}

/// A walk that has met nothing yet.
pub open spec fn scan_start() -> Scan {
    Scan { names: Seq::empty(), last: None, done: false }
}

/// The dotted path at `id`: the element that spells it, and its names.
/// An attribute key at or above `id` comes first; failing that, the
/// outermost selection of the nearest run of selections.
pub open spec fn dotted_path(nodes: Seq<NodeView>, id: usize) -> Option<(usize, Seq<Seq<char>>)> {
    if id >= nodes.len() {
        None
    } else {
        match enclosing_key(nodes, id) {
            Some(key) => Some((key, key_names(nodes, nodes[key as int].children, 0))),
            None => match outermost_select(nodes, id, None) {
                Some(select) => Some((select, scan(nodes, select, scan_start()).names)),
                None => None,
            },
        }
    }
}

/// The first token inside `id`, going down by first elements only.
pub open spec fn first_token(nodes: Seq<NodeView>, id: usize) -> Option<usize>
    decreases nodes.len() - id,
{
    if id >= nodes.len() {
        None
    } else if is_token(nodes[id as int].kind) {
        Some(id)
    } else if nodes[id as int].children.len() == 0 {
        None
    } else {
        let c = nodes[id as int].children[0];
        if id < c < nodes.len() {
            first_token(nodes, c)
        } else {
            None
        }
    }
}

/// The stretch of text that the path spelled by `id` covers: from the
/// start of its first token to the end of the last element that the walk
/// over `id` passes.
pub open spec fn path_range(nodes: Seq<NodeView>, id: usize) -> Option<(usize, usize)> {
    match (first_token(nodes, id), scan(nodes, id, scan_start()).last) {
        (Some(first), Some(last)) => Some((nodes[first as int].start, nodes[last as int].end)),
        _ => None,
    }
}

/// The text that `id` covers: its own, and that of all inside it, in
/// text order.
pub open spec fn node_text(nodes: Seq<NodeView>, id: usize) -> Seq<char>
    decreases nodes.len() - id, nodes[id as int].children.len() + 1,
{
    if id >= nodes.len() {
        Seq::empty()
    } else {
        nodes[id as int].text + texts_in(nodes, id, 0)
    }
}

/// The text of the elements directly inside `id` from the `k`-th on.
pub open spec fn texts_in(nodes: Seq<NodeView>, id: usize, k: int) -> Seq<char>
    decreases nodes.len() - id, nodes[id as int].children.len() - k,
{
    if k < 0 || k >= nodes[id as int].children.len() {
        Seq::empty()
    } else {
        let c = nodes[id as int].children[k];
        let here = if id < c < nodes.len() {
            node_text(nodes, c)
        } else {
            Seq::empty()
        };
        here + texts_in(nodes, id, k + 1)
    }
}

/// The text of each of `ids`.
pub open spec fn texts_of(nodes: Seq<NodeView>, ids: Seq<usize>) -> Seq<Seq<char>> {
    Seq::new(ids.len(), |i: int| node_text(nodes, ids[i]))
}

/// The names that the key of the key-value pair `id` spells, each as it
/// is written; none where `id` is no key-value pair.
pub open spec fn own_names(nodes: Seq<NodeView>, id: usize) -> Seq<Seq<char>> {
    if nodes[id as int].kind != Kind::KeyValue {
        Seq::empty()
    } else {
        match nth_child(nodes, id, 0) {
            Some(key) => if nodes[key as int].kind == Kind::Key {
                texts_of(nodes, child_nodes(nodes, key))
            } else {
                Seq::empty()
            },
            None => Seq::empty(),
        }
    }
}

/// The namespace of `id`: the names that the keys of the key-value pairs
/// at and around it spell, the outermost pair first.
pub open spec fn namespace(nodes: Seq<NodeView>, id: usize) -> Seq<Seq<char>>
    decreases id,
{
    let outer = match up(nodes, id) {
        Some(p) => namespace(nodes, p),
        None => Seq::empty(),
    };
    outer + own_names(nodes, id)
}

/// What a walk in text order has gathered.
pub struct ScanState {
    pub names: Vec<String>,
    pub last: Option<usize>,
    pub done: bool,
}

impl View for ScanState {
    type V = Scan;

    open spec fn view(&self) -> Scan {
        Scan { names: self.names.deep_view(), last: self.last, done: self.done }
    }
}

impl Tree {
    /// The nearest attribute key at or above `id`.
    pub fn enclosing_key(&self, id: usize) -> (key: Option<usize>)
        requires
            id < self@.len(),
        ensures
            key == enclosing_key(self@, id),
            key matches Some(k) ==> k < self@.len(),
    {
        let mut at = id;
        loop
            invariant
                at < self@.len(),
                enclosing_key(self@, at) == enclosing_key(self@, id),
            decreases at,
        {
            if self.kind(at) == Kind::Key {
                return Some(at);
            }
            match self.parent(at) {
                Some(p) => {
                    at = p;
                },
                None => {
                    return None;
                },
            }
        }
    }

    /// The outermost selection of the nearest run of selections at or
    /// above `id`.
    pub fn outermost_select(&self, id: usize) -> (select: Option<usize>)
        requires
            id < self@.len(),
        ensures
            select == outermost_select(self@, id, None),
            select matches Some(s) ==> s < self@.len(),
    {
        let mut at = id;
        let mut found: Option<usize> = None;
        loop
            invariant
                at < self@.len(),
                found matches Some(s) ==> s < self@.len(),
                outermost_select(self@, at, found) == outermost_select(self@, id, None),
            decreases at,
        {
            if self.kind(at) == Kind::Select {
                found = Some(at);
            } else if found.is_some() {
                return found;
            }
            match self.parent(at) {
                Some(p) => {
                    at = p;
                },
                None => {
                    return found;
                },
            }
        }
    }

    /// The names that an attribute key spells.
    pub fn key_names(&self, key: usize) -> (names: Vec<String>)
        requires
            key < self@.len(),
        ensures
            names.deep_view() == key_names(self@, self@[key as int].children, 0),
    {
        let children = self.children(key);
        let mut names: Vec<String> = Vec::new();
        let mut at: usize = 0;
        proof {
            assert(names.deep_view() =~= Seq::<Seq<char>>::empty());
        }
        while at < children.len()
            invariant
                at <= children@.len(),
                children@ == self@[key as int].children,
                forall|k: int| 0 <= k < children@.len() ==> #[trigger] children@[k] < self@.len(),
                names.deep_view() + key_names(self@, children@, at as int) == key_names(
                    self@,
                    children@,
                    0,
                ),
            decreases children.len() - at,
        {
            let child = children[at];
            let kind = self.kind(child);
            if kind == Kind::Ident {
                let name = self.name(child);
                if !blank(name) {
                    let ghost before = names.deep_view();
                    let stripped = strip_newlines(name);
                    names.push(stripped);
                    proof {
                        assert(names.deep_view() =~= before.push(without_newlines(name@)));
                        assert(before.push(without_newlines(name@)) + key_names(
                            self@,
                            children@,
                            at as int + 1,
                        ) =~= before + key_names(self@, children@, at as int));
                    }
                }
            } else if kind != Kind::DotToken {
                proof {
                    assert(names.deep_view() + Seq::<Seq<char>>::empty() =~= names.deep_view());
                }
                return names;
            }
            at = at + 1;
        }
        proof {
            assert(names.deep_view() + Seq::<Seq<char>>::empty() =~= names.deep_view());
        }
        names
    }

    /// The walk in text order over `id` and all that is inside it.
    pub fn scan(&self, id: usize, acc: ScanState) -> (after: ScanState)
        ensures
            after@ == scan(self@, id, acc@),
        decreases self@.len() - id, self@[id as int].children.len() + 1,
    {
        if acc.done || id >= self.len() {
            return ScanState { names: acc.names, last: acc.last, done: true };
        }
        let kind = self.kind(id);
        if kind.token() {
            if kind == Kind::DotToken {
                ScanState { names: acc.names, last: Some(id), done: false }
            } else if kind == Kind::IdentToken {
                let mut names = acc.names;
                let ghost before = names.deep_view();
                names.push(self.text(id).clone());
                proof {
                    assert(names.deep_view() =~= before.push(self@[id as int].text));
                }
                ScanState { names, last: Some(id), done: false }
            } else {
                ScanState { names: acc.names, last: acc.last, done: true }
            }
        } else {
            self.scan_children(id, 0, ScanState { names: acc.names, last: Some(id), done: false })
        }
    }

    /// The walk over the elements directly inside `id` from the `k`-th on.
    pub fn scan_children(&self, id: usize, k: usize, acc: ScanState) -> (after: ScanState)
        requires
            id < self@.len(),
        ensures
            after@ == scan_children(self@, id, k as int, acc@),
        decreases self@.len() - id, self@[id as int].children.len() - k,
    {
        let children = self.children(id);
        if acc.done || k >= children.len() {
            return acc;
        }
        let child = children[k];
        let next = self.scan(child, acc);
        self.scan_children(id, k + 1, next)
    }

    /// The first token inside `id`, going down by first elements only.
    pub fn first_token(&self, id: usize) -> (token: Option<usize>)
        ensures
            token == first_token(self@, id),
            token matches Some(t) ==> t < self@.len(),
    {
        if id >= self.len() {
            return None;
        }
        let mut at = id;
        loop
            invariant
                at < self@.len(),
                first_token(self@, at) == first_token(self@, id),
            decreases self@.len() - at,
        {
            if self.kind(at).token() {
                return Some(at);
            }
            let children = self.children(at);
            if children.len() == 0 {
                return None;
            }
            at = children[0];
        }
    }

    /// Adds to `text` the text that `id` covers.
    pub fn node_text(&self, id: usize, text: String) -> (all: String)
        ensures
            all@ == text@ + node_text(self@, id),
        decreases self@.len() - id, self@[id as int].children.len() + 1,
    {
        if id >= self.len() {
            proof {
                assert(text@ + Seq::<char>::empty() =~= text@);
            }
            return text;
        }
        let mut all = text;
        all.append(self.text(id).as_str());
        let all = self.texts_in(id, 0, all);
        proof {
            assert(all@ =~= text@ + (self@[id as int].text + texts_in(self@, id, 0)));
        }
        all
    }

    /// Adds to `text` the text of the elements directly inside `id` from
    /// the `k`-th on.
    pub fn texts_in(&self, id: usize, k: usize, text: String) -> (all: String)
        requires
            id < self@.len(),
        ensures
            all@ == text@ + texts_in(self@, id, k as int),
        decreases self@.len() - id, self@[id as int].children.len() - k,
    {
        let children = self.children(id);
        if k >= children.len() {
            proof {
                assert(text@ + Seq::<char>::empty() =~= text@);
            }
            return text;
        }
        let here = self.node_text(children[k], text);
        let all = self.texts_in(id, k + 1, here);
        proof {
            assert(all@ =~= text@ + (node_text(self@, children@[k as int]) + texts_in(
                self@,
                id,
                k as int + 1,
            )));
        }
        all
    }

    /// The namespace of `id`.
    pub fn namespace(&self, id: usize) -> (names: Vec<String>)
        requires
            id < self@.len(),
        ensures
            names.deep_view() == namespace(self@, id),
        decreases id,
    {
        let mut names = match self.parent(id) {
            Some(p) => self.namespace(p),
            None => {
                let empty: Vec<String> = Vec::new();
                proof {
                    assert(empty.deep_view() =~= Seq::<Seq<char>>::empty());
                }
                empty
            },
        };
        let ghost outer = names.deep_view();
        if self.kind(id) == Kind::KeyValue {
            match self.nth_child(id, 0) {
                Some(key) => {
                    if self.kind(key) == Kind::Key {
                        let parts = self.child_nodes(key);
                        let mut at: usize = 0;
                        while at < parts.len()
                            invariant
                                at <= parts.len(),
                                parts@ == child_nodes(self@, key),
                                names.deep_view() == outer + texts_of(self@, parts@).take(
                                    at as int,
                                ),
                            decreases parts.len() - at,
                        {
                            let ghost before = names.deep_view();
                            let text = self.node_text(parts[at], String::new());
                            names.push(text);
                            proof {
                                assert(text@ =~= node_text(self@, parts@[at as int]));
                                assert(names.deep_view() =~= before.push(text@));
                                assert(names.deep_view() =~= outer + texts_of(self@, parts@).take(
                                    at as int + 1,
                                ));
                            }
                            at = at + 1;
                        }
                        proof {
                            assert(texts_of(self@, parts@).take(at as int) =~= texts_of(
                                self@,
                                parts@,
                            ));
                        }
                        return names;
                    }
                },
                None => {},
            }
        }
        proof {
            assert(outer + Seq::<Seq<char>>::empty() =~= outer);
        }
        names
    }

    /// The dotted path at `id`: the element that spells it, and its names.
    pub fn dotted_path(&self, id: usize) -> (path: Option<(usize, Vec<String>)>)
        ensures
            match path {
                Some((at, names)) => dotted_path(self@, id) == Some((at, names.deep_view())),
                None => dotted_path(self@, id) is None,
            },
            path matches Some((at, _)) ==> at < self@.len(),
    {
        if id >= self.len() {
            return None;
        }
        match self.enclosing_key(id) {
            Some(key) => Some((key, self.key_names(key))),
            None => match self.outermost_select(id) {
                Some(select) => {
                    let start = ScanState { names: Vec::new(), last: None, done: false };
                    proof {
                        assert(start@.names =~= scan_start().names);
                    }
                    let after = self.scan(select, start);
                    Some((select, after.names))
                },
                None => None,
            },
        }
    }

    /// The stretch of text that the path spelled by `id` covers.
    pub fn path_range(&self, id: usize) -> (range: Option<(usize, usize)>)
        ensures
            range == path_range(self@, id),
    {
        let start = ScanState { names: Vec::new(), last: None, done: false };
        proof {
            assert(start@.names =~= scan_start().names);
        }
        let after = self.scan(id, start);
        match (self.first_token(id), after.last) {
            (Some(first), Some(last)) => {
                proof {
                    lemma_scan_last(self@, id, scan_start());
                }
                Some((self.start(first), self.end(last)))
            },
            _ => None,
        }
    }
}

/// The last element that a walk has passed is an element of the tree,
/// where that held before the walk.
proof fn lemma_scan_last(nodes: Seq<NodeView>, id: usize, acc: Scan)
    requires
        acc.last matches Some(l) ==> l < nodes.len(),
    ensures
        scan(nodes, id, acc).last matches Some(l) ==> l < nodes.len(),
    decreases nodes.len() - id, nodes[id as int].children.len() + 1,
{
    if acc.done || id >= nodes.len() {
    } else if is_token(nodes[id as int].kind) {
    } else {
        lemma_scan_children_last(nodes, id, 0, Scan { last: Some(id), ..acc });
    }
}

/// The same for the walk over the elements directly inside a node.
proof fn lemma_scan_children_last(nodes: Seq<NodeView>, id: usize, k: int, acc: Scan)
    requires
        acc.last matches Some(l) ==> l < nodes.len(),
    ensures
        scan_children(nodes, id, k, acc).last matches Some(l) ==> l < nodes.len(),
    decreases nodes.len() - id, nodes[id as int].children.len() - k,
{
    if acc.done || k < 0 || k >= nodes[id as int].children.len() {
    } else {
        let c = nodes[id as int].children[k];
        if id < c < nodes.len() {
            lemma_scan_last(nodes, c, acc);
            lemma_scan_children_last(nodes, id, k + 1, scan(nodes, c, acc));
        }
    }
}

} // verus!
