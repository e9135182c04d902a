//! From a place in the text to the identifier that stands there, and to
//! the selection path that leads to it.

use crate::tree::{is_token, name_of, nth_child, up, Kind, NodeView, Tree};
use vstd::prelude::*;

verus! {

/// Whether `id` is a token with text that begins at or before `offset`
/// and ends at or after it.
pub open spec fn touches(nodes: Seq<NodeView>, id: int, offset: usize) -> bool {
    &&& is_token(nodes[id].kind)
    &&& nodes[id].start < nodes[id].end
    &&& nodes[id].start <= offset <= nodes[id].end
}

/// The first token at or after `k` that touches `offset`.
pub open spec fn touching_from(nodes: Seq<NodeView>, offset: usize, k: int) -> Option<usize>
    decreases nodes.len() - k,
{
    if k < 0 || k >= nodes.len() {
        None
    } else if touches(nodes, k, offset) {
        Some(k as usize)
    } else {
        touching_from(nodes, offset, k + 1)
    }
}

/// The tokens at `offset`: one where the place is inside a token or at
/// an end of the text, two where it is between two tokens.
pub open spec fn tokens_at(nodes: Seq<NodeView>, offset: usize) -> (Option<usize>, Option<usize>) {
    match touching_from(nodes, offset, 0) {
        None => (None, None),
        Some(left) => (Some(left), touching_from(nodes, offset, left + 1)),
    }
}

/// The node that holds the token at `offset`; of two tokens the left one.
pub open spec fn closest_node_to(nodes: Seq<NodeView>, offset: usize) -> Option<usize> {
    match tokens_at(nodes, offset).0 {
        Some(token) => up(nodes, token),
        None => None,
    }
}

/// The stretches of text that the element `id` and everything that holds
/// it cover, `id` first.
pub open spec fn spans_around(nodes: Seq<NodeView>, id: usize) -> Seq<(usize, usize)>
    decreases id,
{
    let own = seq![(nodes[id as int].start, nodes[id as int].end)];
    match up(nodes, id) {
        Some(p) => own + spans_around(nodes, p),
        None => own,
    }
}

/// The selections that grow from `offset`: the stretch of the node that
/// holds the token there, then that of each node around it.
pub open spec fn selection_chain(nodes: Seq<NodeView>, offset: usize) -> Seq<(usize, usize)> {
    match closest_node_to(nodes, offset) {
        Some(node) => spans_around(nodes, node),
        None => Seq::empty(),
    }
}

/// The identifier node that holds `token`.
pub open spec fn ident_around(nodes: Seq<NodeView>, token: usize) -> Option<usize> {
    match up(nodes, token) {
        Some(p) => if nodes[p as int].kind == Kind::Ident {
            Some(p)
        } else {
            None
        },
        None => None,
    }
}

/// What a place in the text points at: an identifier, or the gap after
/// the dot of a selection whose last name is still to be written.
pub enum Target {
    Ident(usize),
    AfterDot(usize),
}

/// What `offset` points at: the identifier that holds the token there,
/// of two tokens the left one's first; failing both, the gap behind the
/// dot of a selection.
pub open spec fn target_at(nodes: Seq<NodeView>, offset: usize) -> Option<Target> {
    match tokens_at(nodes, offset) {
        (None, _) => None,
        (Some(left), None) => match ident_around(nodes, left) {
            Some(ident) => Some(Target::Ident(ident)),
            None => None,
        },
        (Some(left), Some(right)) => match ident_around(nodes, left) {
            Some(ident) => Some(Target::Ident(ident)),
            None => match ident_around(nodes, right) {
                Some(ident) => Some(Target::Ident(ident)),
                None => match up(nodes, left) {
                    Some(select) => if nodes[select as int].kind == Kind::Select {
                        Some(Target::AfterDot(select))
                    } else {
                        None
                    },
                    None => None,
                },
            },
        },
    }
}

/// Whether `id` is what a selection selects: its second inner node.
pub open spec fn is_selected(nodes: Seq<NodeView>, id: usize) -> bool {
    match up(nodes, id) {
        Some(select) => nodes[select as int].kind == Kind::Select && nth_child(nodes, select, 1)
            == Some(id),
        None => false,
    }
}

/// The names that `id` spells where it is an identifier or a chain of
/// selections of identifiers from an identifier.
pub open spec fn flatten(nodes: Seq<NodeView>, id: usize) -> Option<Seq<Seq<char>>>
    decreases nodes.len() - id,
{
    if id >= nodes.len() {
        None
    } else if nodes[id as int].kind == Kind::Ident {
        Some(seq![name_of(nodes, id)])
    } else if nodes[id as int].kind == Kind::Select {
        match (nth_child(nodes, id, 0), nth_child(nodes, id, 1)) {
            (Some(set), Some(index)) => if nodes[index as int].kind == Kind::Ident && id < set
                < nodes.len() {
                match flatten(nodes, set) {
                    Some(names) => Some(names.push(name_of(nodes, index))),
                    None => None,
                }
            } else {
                None
            },
            _ => None,
        }
    } else {
        None
    }
}

/// A chain spells at least one name.
pub proof fn lemma_flatten_nonempty(nodes: Seq<NodeView>, id: usize)
    ensures
        flatten(nodes, id) matches Some(names) ==> names.len() > 0,
    decreases nodes.len() - id,
{
    if id < nodes.len() && nodes[id as int].kind == Kind::Select {
        match (nth_child(nodes, id, 0), nth_child(nodes, id, 1)) {
            (Some(set), Some(index)) => {
                if nodes[index as int].kind == Kind::Ident && id < set < nodes.len() {
                    lemma_flatten_nonempty(nodes, set);
                }
            },
            _ => {},
        }
    }
}

/// The identifier that ends the chain `id`.
pub open spec fn last_ident(nodes: Seq<NodeView>, id: usize) -> Option<usize> {
    if nodes[id as int].kind == Kind::Ident {
        Some(id)
    } else {
        nth_child(nodes, id, 1)
    }
}

/// What stands at a place: the names selected from before it, the
/// identifier node, and the part of the name written so far.
pub struct CursorInfo {
    pub path: Vec<String>,
    pub ident: usize,
    pub name: String,
}

/// The mathematical content of what stands at a place.
pub ghost struct CursorView {
    pub path: Seq<Seq<char>>,
    pub ident: usize,
    pub name: Seq<char>,
}

impl View for CursorInfo {
    type V = CursorView;

    open spec fn view(&self) -> CursorView {
        CursorView { path: self.path.deep_view(), ident: self.ident, name: self.name@ }
    }
}

/// What stands at `offset`.
///
/// On an identifier that a selection selects, the path is the chain that
/// it is selected from. On any other identifier the path is empty. After
/// the dot of a selection that selects nothing yet, the path is the chain
/// before the dot, the name is empty, and the identifier is the last of
/// the chain. Nothing stands where the chain is not made of identifiers.
pub open spec fn ident_at(nodes: Seq<NodeView>, offset: usize) -> Option<CursorView> {
    match target_at(nodes, offset) {
        None => None,
        Some(Target::Ident(ident)) => if is_selected(nodes, ident) {
            match nth_child(nodes, up(nodes, ident).unwrap(), 0) {
                Some(set) => match flatten(nodes, set) {
                    Some(path) => Some(CursorView { path, ident, name: name_of(nodes, ident) }),
                    None => None,
                },
                None => None,
            }
        } else {
            Some(CursorView { path: Seq::empty(), ident, name: name_of(nodes, ident) })
        },
        Some(Target::AfterDot(select)) => match nth_child(nodes, select, 0) {
            Some(set) => match (flatten(nodes, set), last_ident(nodes, set)) {
                (Some(path), Some(ident)) => Some(CursorView { path, ident, name: Seq::empty() }),
                _ => None,
            },
            None => None,
        },
    }
}

impl Tree {
    /// The first token at or after `from` that touches `offset`.
    pub fn touching_from(&self, offset: usize, from: usize) -> (token: Option<usize>)
        ensures
            token == touching_from(self@, offset, from as int),
            token matches Some(t) ==> from <= t < self@.len(),
    {
        let mut at = from;
        while at < self.len()
            invariant
                from <= at,
                touching_from(self@, offset, at as int) == touching_from(
                    self@,
                    offset,
                    from as int,
                ),
            decreases self@.len() - at,
        {
            if self.kind(at).token() && self.start(at) < self.end(at) && self.start(at) <= offset
                && offset <= self.end(at) {
                return Some(at);
            }
            at = at + 1;
        }
        None
    }

    /// The tokens at `offset`.
    pub fn tokens_at(&self, offset: usize) -> (tokens: (Option<usize>, Option<usize>))
        ensures
            tokens == tokens_at(self@, offset),
            tokens.0 matches Some(t) ==> t < self@.len(),
            tokens.1 matches Some(t) ==> t < self@.len(),
    {
        let total = self.len();
        match self.touching_from(offset, 0) {
            None => (None, None),
            Some(left) => {
                assert(left < total);
                (Some(left), self.touching_from(offset, left + 1))
            },
        }
    }

    /// The node that holds the token at `offset`.
    pub fn closest_node_to(&self, offset: usize) -> (node: Option<usize>)
        ensures
            node == closest_node_to(self@, offset),
            node matches Some(n) ==> n < self@.len(),
    {
        match self.tokens_at(offset).0 {
            Some(token) => self.parent(token),
            None => None,
        }
    }

    /// The selections that grow from `offset`.
    pub fn selection_chain(&self, offset: usize) -> (chain: Vec<(usize, usize)>)
        ensures
            chain@ == selection_chain(self@, offset),
    {
        let mut chain: Vec<(usize, usize)> = Vec::new();
        let mut at = match self.closest_node_to(offset) {
            Some(node) => node,
            None => {
                return chain;
            },
        };
        loop
            invariant
                at < self@.len(),
                chain@ + spans_around(self@, at) == selection_chain(self@, offset),
            decreases at,
        {
            let ghost before = chain@;
            chain.push((self.start(at), self.end(at)));
            match self.parent(at) {
                Some(p) => {
                    proof {
                        assert(chain@ + spans_around(self@, p) =~= before + spans_around(
                            self@,
                            at,
                        ));
                    }
                    at = p;
                },
                None => {
                    proof {
                        assert(chain@ =~= before + spans_around(self@, at));
                    }
                    return chain;
                },
            }
        }
    }

    /// The identifier node that holds `token`.
    pub fn ident_around(&self, token: usize) -> (ident: Option<usize>)
        requires
            token < self@.len(),
        ensures
            ident == ident_around(self@, token),
            ident matches Some(i) ==> i < self@.len(),
    {
        match self.parent(token) {
            Some(p) => if self.kind(p) == Kind::Ident {
                Some(p)
            } else {
                None
            },
            None => None,
        }
    }

    /// What `offset` points at.
    pub fn target_at(&self, offset: usize) -> (target: Option<Target>)
        ensures
            target == target_at(self@, offset),
            match target {
                Some(Target::Ident(i)) => i < self@.len(),
                Some(Target::AfterDot(s)) => s < self@.len(),
                None => true,
            },
    {
        match self.tokens_at(offset) {
            (None, _) => None,
            (Some(left), None) => match self.ident_around(left) {
                Some(ident) => Some(Target::Ident(ident)),
                None => None,
            },
            (Some(left), Some(right)) => match self.ident_around(left) {
                Some(ident) => Some(Target::Ident(ident)),
                None => match self.ident_around(right) {
                    Some(ident) => Some(Target::Ident(ident)),
                    None => match self.parent(left) {
                        Some(select) => if self.kind(select) == Kind::Select {
                            Some(Target::AfterDot(select))
                        } else {
                            None
                        },
                        None => None,
                    },
                },
            },
        }
    }

    /// Whether `id` is what a selection selects.
    pub fn is_selected(&self, id: usize) -> (selected: bool)
        requires
            id < self@.len(),
        ensures
            selected == is_selected(self@, id),
    {
        match self.parent(id) {
            Some(select) => {
                if self.kind(select) == Kind::Select {
                    match self.nth_child(select, 1) {
                        Some(index) => index == id,
                        None => false,
                    }
                } else {
                    false
                }
            },
            None => false,
        }
    }

    /// The names that the chain `id` spells.
    pub fn flatten(&self, id: usize) -> (names: Option<Vec<String>>)
        ensures
            match names {
                Some(n) => flatten(self@, id) == Some(n.deep_view()),
                None => flatten(self@, id) is None,
            },
        decreases self@.len() - id,
    {
        if id >= self.len() {
            return None;
        }
        let kind = self.kind(id);
        if kind == Kind::Ident {
            let mut names: Vec<String> = Vec::new();
            names.push(String::from_str(self.name(id)));
            proof {
                assert(names.deep_view() =~= seq![name_of(self@, id)]);
            }
            Some(names)
        } else if kind == Kind::Select {
            match (self.nth_child(id, 0), self.nth_child(id, 1)) {
                (Some(set), Some(index)) => {
                    if self.kind(index) == Kind::Ident {
                        match self.flatten(set) {
                            Some(mut names) => {
                                let ghost before = names.deep_view();
                                names.push(String::from_str(self.name(index)));
                                proof {
                                    assert(names.deep_view() =~= before.push(
                                        name_of(self@, index),
                                    ));
                                }
                                Some(names)
                            },
                            None => None,
                        }
                    } else {
                        None
                    }
                },
                _ => None,
            }
        } else {
            None
        }
    }

    /// What stands at `offset`.
    pub fn ident_at(&self, offset: usize) -> (info: Option<CursorInfo>)
        ensures
            match info {
                Some(i) => ident_at(self@, offset) == Some(i@),
                None => ident_at(self@, offset) is None,
            },
            info matches Some(i) ==> i.ident < self@.len(),
    {
        match self.target_at(offset) {
            None => None,
            Some(Target::Ident(ident)) => {
                if self.is_selected(ident) {
                    let select = self.parent(ident).unwrap();
                    match self.nth_child(select, 0) {
                        Some(set) => match self.flatten(set) {
                            Some(path) => Some(
                                CursorInfo { path, ident, name: String::from_str(self.name(ident)) },
                            ),
                            None => None,
                        },
                        None => None,
                    }
                } else {
                    let path: Vec<String> = Vec::new();
                    proof {
                        assert(path.deep_view() =~= Seq::<Seq<char>>::empty());
                    }
                    Some(CursorInfo { path, ident, name: String::from_str(self.name(ident)) })
                }
            },
            Some(Target::AfterDot(select)) => match self.nth_child(select, 0) {
                Some(set) => {
                    let last = if self.kind(set) == Kind::Ident {
                        Some(set)
                    } else {
                        self.nth_child(set, 1)
                    };
                    match (self.flatten(set), last) {
                        (Some(path), Some(ident)) => Some(
                            CursorInfo { path, ident, name: String::new() },
                        ),
                        _ => None,
                    }
                },
                None => None,
            },
        }
    }
}

} // verus!
