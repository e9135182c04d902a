//! Syntax trees held as arenas: every node and token of a file is an entry
//! of one vector, numbered in the order in which its text begins.

use vstd::prelude::*;

verus! {

/// What a tree element is. The first group are inner nodes, the second
/// group tokens; `Node` and `Token` stand for every element that no
/// analysis here tells apart.
#[derive(Clone, Copy, Debug, PartialEq, Eq, Structural)]
pub enum Kind {
    Apply,
    AttrSet,
    Ident,
    Key,
    KeyValue,
    Lambda,
    LetIn,
    LegacyLet,
    Literal,
    PatBind,
    PatEntry,
    Pattern,
    Select,
    With,
    Node,
    DotToken,
    IdentToken,
    RecToken,
    PathToken,
    Token,
}

impl Kind {
    /// Whether this is the kind of a token.
    pub fn token(self) -> (token: bool)
        ensures
            token == is_token(self),
    {
        match self {
            Kind::DotToken | Kind::IdentToken | Kind::RecToken | Kind::PathToken | Kind::Token => {
                true
            },
            _ => false,
        }
    }
}

/// One step of a walk over a tree in text order: an inner node begins, a
/// token stands, or the innermost node that is still open ends.
pub enum SyntaxEvent {
    Open { kind: Kind, start: usize, end: usize },
    Leaf { kind: Kind, start: usize, end: usize, text: String },
    Close,
}

/// The mathematical content of one event.
pub ghost enum EventView {
    Open { kind: Kind, start: usize, end: usize },
    Leaf { kind: Kind, start: usize, end: usize, text: Seq<char> },
    Close,
}

impl View for SyntaxEvent {
    type V = EventView;

    open spec fn view(&self) -> EventView {
        match *self {
            SyntaxEvent::Open { kind, start, end } => EventView::Open { kind, start, end },
            SyntaxEvent::Leaf { kind, start, end, text } => EventView::Leaf {
                kind,
                start,
                end,
                text: text@,
            },
            SyntaxEvent::Close => EventView::Close,
        }
    }
}

/// The mathematical content of each event of a list.
pub open spec fn event_views(events: Seq<SyntaxEvent>) -> Seq<EventView> {
    Seq::new(events.len(), |i: int| events[i]@)
}

/// The mathematical content of one element.
pub ghost struct NodeView {
    pub kind: Kind,
    pub start: usize,
    pub end: usize,
    pub parent: Option<usize>,
    pub children: Seq<usize>,
    pub text: Seq<char>,
}

/// One element as it is held.
struct Node {
    kind: Kind,
    start: usize,
    end: usize,
    parent: Option<usize>,
    children: Vec<usize>,
    text: String,
}

impl View for Node {
    type V = NodeView;

    closed spec fn view(&self) -> NodeView {
        NodeView {
            kind: self.kind,
            start: self.start,
            end: self.end,
            parent: self.parent,
            children: self.children@,
            text: self.text@,
        }
    }
}

/// A parent stands before its children, the children of one parent
/// stand in rising order, and the two directions agree.
pub open spec fn well_formed(nodes: Seq<NodeView>) -> bool {
    forall|i: int| 0 <= i < nodes.len() ==> #[trigger] element_ok(nodes, i)
}

/// Whether the element `i` stands after what holds it and before what it
/// holds, is what holds each of those, and holds them in rising order.
pub open spec fn element_ok(nodes: Seq<NodeView>, i: int) -> bool {
    &&& nodes[i].parent matches Some(p) ==> p < i
    &&& rising(nodes[i].children)
    &&& forall|k: int|
        0 <= k < nodes[i].children.len() ==> {
            let c = #[trigger] nodes[i].children[k];
            &&& i < c < nodes.len()
            &&& nodes[c as int].parent == Some(i as usize)
        }
}

/// Whether the entries of a list rise from each one to the next.
pub open spec fn rising(ids: Seq<usize>) -> bool {
    forall|j: int, k: int| 0 <= j < k < ids.len() ==> #[trigger] ids[j] < #[trigger] ids[k]
}

/// Whether a kind is that of a token.
pub open spec fn is_token(kind: Kind) -> bool {
    kind is DotToken || kind is IdentToken || kind is RecToken || kind is PathToken
        || kind is Token
}

/// Those of `ids` that are inner nodes, in their order.
pub open spec fn inner_nodes(nodes: Seq<NodeView>, ids: Seq<usize>) -> Seq<usize>
    decreases ids.len(),
{
    if ids.len() == 0 {
        Seq::empty()
    } else {
        let init = inner_nodes(nodes, ids.drop_last());
        if is_token(nodes[ids.last() as int].kind) {
            init
        } else {
            init.push(ids.last())
        }
    }
}

/// The inner nodes directly inside `id`, in text order.
pub open spec fn child_nodes(nodes: Seq<NodeView>, id: usize) -> Seq<usize> {
    inner_nodes(nodes, nodes[id as int].children)
}

/// The `n`-th inner node directly inside `id`, counted from zero.
pub open spec fn nth_child(nodes: Seq<NodeView>, id: usize, n: int) -> Option<usize> {
    if 0 <= n < child_nodes(nodes, id).len() {
        Some(child_nodes(nodes, id)[n])
    } else {
        None
    }
}

/// The text of the first element directly inside `id`: the name that an
/// identifier node stands for. Empty where `id` holds nothing.
pub open spec fn name_of(nodes: Seq<NodeView>, id: usize) -> Seq<char> {
    if nodes[id as int].children.len() == 0 {
        Seq::empty()
    } else {
        nodes[nodes[id as int].children[0] as int].text
    }
}

/// The element that holds `id`, where it stands before `id`.
pub open spec fn up(nodes: Seq<NodeView>, id: usize) -> Option<usize> {
    match nodes[id as int].parent {
        Some(p) if p < id => Some(p),
        _ => None,
    }
}

/// Every inner node among `ids` is one of `ids`.
pub proof fn lemma_inner_nodes(nodes: Seq<NodeView>, ids: Seq<usize>)
    ensures
        inner_nodes(nodes, ids).len() <= ids.len(),
        forall|k: int|
            0 <= k < inner_nodes(nodes, ids).len() ==> {
                let c = #[trigger] inner_nodes(nodes, ids)[k];
                &&& ids.contains(c)
                &&& !is_token(nodes[c as int].kind)
            },
    decreases ids.len(),
{
    if ids.len() > 0 {
        lemma_inner_nodes(nodes, ids.drop_last());
        let init = inner_nodes(nodes, ids.drop_last());
        assert forall|k: int| 0 <= k < inner_nodes(nodes, ids).len() implies {
            let c = #[trigger] inner_nodes(nodes, ids)[k];
            &&& ids.contains(c)
            &&& !is_token(nodes[c as int].kind)
        } by {
            let c = inner_nodes(nodes, ids)[k];
            if k < init.len() {
                assert(init[k] == c);
                let j = choose|j: int| 0 <= j < ids.drop_last().len() && ids.drop_last()[j] == c;
                assert(ids[j] == c);
            } else {
                assert(ids[ids.len() - 1] == c);
            }
        }
    }
}

/// The inner nodes of a rising list rise, and none is beyond the list's
/// last entry.
pub proof fn lemma_inner_nodes_rise(nodes: Seq<NodeView>, ids: Seq<usize>)
    requires
        rising(ids),
    ensures
        rising(inner_nodes(nodes, ids)),
        forall|k: int|
            0 <= k < inner_nodes(nodes, ids).len() ==> #[trigger] inner_nodes(nodes, ids)[k]
                <= ids.last(),
    decreases ids.len(),
{
    if ids.len() > 0 {
        let init = ids.drop_last();
        assert forall|j: int, k: int| 0 <= j < k < init.len() implies #[trigger] init[j]
            < #[trigger] init[k] by {
            assert(init[j] == ids[j] && init[k] == ids[k]);
        }
        lemma_inner_nodes_rise(nodes, init);
        let before = inner_nodes(nodes, init);
        let all = inner_nodes(nodes, ids);
        if init.len() > 0 {
            assert(init.last() == ids[ids.len() - 2]);
            assert(ids[ids.len() - 2] < ids[ids.len() - 1]);
        }
        assert forall|k: int| 0 <= k < all.len() implies #[trigger] all[k] <= ids.last() by {
            if k < before.len() {
                assert(all[k] == before[k]);
            }
        }
        assert forall|j: int, k: int| 0 <= j < k < all.len() implies #[trigger] all[j]
            < #[trigger] all[k] by {
            assert(all[j] == before[j]);
            if k < before.len() {
                assert(all[k] == before[k]);
            }
        }
    }
}

/// In a well-formed tree the inner nodes directly inside `id` stand after
/// `id` in rising order, and `id` is what holds them.
pub proof fn lemma_child_nodes(nodes: Seq<NodeView>, id: usize)
    requires
        well_formed(nodes),
        id < nodes.len(),
    ensures
        rising(child_nodes(nodes, id)),
        forall|k: int|
            0 <= k < child_nodes(nodes, id).len() ==> {
                let c = #[trigger] child_nodes(nodes, id)[k];
                &&& id < c < nodes.len()
                &&& nodes[c as int].parent == Some(id)
                &&& !is_token(nodes[c as int].kind)
            },
{
    let children = nodes[id as int].children;
    lemma_inner_nodes(nodes, children);
    assert(element_ok(nodes, id as int));
    lemma_inner_nodes_rise(nodes, children);
    assert forall|k: int| 0 <= k < child_nodes(nodes, id).len() implies {
        let c = #[trigger] child_nodes(nodes, id)[k];
        &&& id < c < nodes.len()
        &&& nodes[c as int].parent == Some(id)
        &&& !is_token(nodes[c as int].kind)
    } by {
        let c = child_nodes(nodes, id)[k];
        assert(children.contains(c));
        let j = choose|j: int| 0 <= j < children.len() && children[j] == c;
        assert(children[j] == c);
    }
}

/// A tree under construction: the elements so far, and the inner nodes
/// that are still open, outermost first.
pub ghost struct Building {
    pub nodes: Seq<NodeView>,
    pub open: Seq<usize>,
}

/// The innermost node that is still open.
pub open spec fn enclosing(b: Building) -> Option<usize> {
    if b.open.len() == 0 {
        None
    } else {
        Some(b.open.last())
    }
}

/// The elements after a new one was attached to the innermost open node.
pub open spec fn attach(b: Building, node: NodeView) -> Seq<NodeView> {
    let id = b.nodes.len() as usize;
    match enclosing(b) {
        None => b.nodes.push(node),
        Some(p) => {
            let parent = b.nodes[p as int];
            b.nodes.update(
                p as int,
                NodeView { children: parent.children.push(id), ..parent },
            ).push(node)
        },
    }
}

/// The tree under construction after one more event.
pub open spec fn step(b: Building, event: EventView) -> Building {
    match event {
        EventView::Open { kind, start, end } => {
            let node = NodeView {
                kind,
                start,
                end,
                parent: enclosing(b),
                children: Seq::empty(),
                text: Seq::empty(),
            };
            Building { nodes: attach(b, node), open: b.open.push(b.nodes.len() as usize) }
        },
        EventView::Leaf { kind, start, end, text } => {
            let node = NodeView {
                kind,
                start,
                end,
                parent: enclosing(b),
                children: Seq::empty(),
                text,
            };
            Building { nodes: attach(b, node), open: b.open }
        },
        EventView::Close => {
            if b.open.len() == 0 {
                b
            } else {
                Building { nodes: b.nodes, open: b.open.drop_last() }
            }
        },
    }
}

/// The tree that a sequence of events describes. A `Close` with nothing
/// open is passed over, and what is still open at the end ends there.
pub open spec fn build(events: Seq<EventView>) -> Building
    decreases events.len(),
{
    if events.len() == 0 {
        Building { nodes: Seq::empty(), open: Seq::empty() }
    } else {
        step(build(events.drop_last()), events.last())
    }
}

/// Whether a tree under construction is well formed so far, and every
/// open node one of its elements.
pub open spec fn building_ok(b: Building) -> bool {
    &&& well_formed(b.nodes)
    &&& forall|k: int| 0 <= k < b.open.len() ==> #[trigger] b.open[k] < b.nodes.len()
}

/// An event keeps a tree under construction well formed.
proof fn lemma_step_ok(b: Building, event: EventView)
    requires
        building_ok(b),
        b.nodes.len() < usize::MAX,
    ensures
        building_ok(step(b, event)),
        step(b, event).nodes.len() <= b.nodes.len() + 1,
{
    let after = step(b, event);
    match event {
        EventView::Close => {},
        _ => {
            let id = b.nodes.len() as int;
            assert forall|i: int| 0 <= i < after.nodes.len() implies #[trigger] element_ok(
                after.nodes,
                i,
            ) by {
                if i < id {
                    assert(element_ok(b.nodes, i));
                }
            }
        },
    }
}

/// Every tree that events describe is well formed, and has no more
/// elements than there were events.
pub proof fn lemma_build_ok(events: Seq<EventView>)
    requires
        events.len() <= usize::MAX,
    ensures
        building_ok(build(events)),
        build(events).nodes.len() <= events.len(),
    decreases events.len(),
{
    if events.len() > 0 {
        lemma_build_ok(events.drop_last());
        lemma_step_ok(build(events.drop_last()), events.last());
    }
}

/// The syntax tree of one file. It is well formed: an element stands
/// after the element that holds it.
pub struct Tree {
    nodes: Vec<Node>,
}

impl View for Tree {
    type V = Seq<NodeView>;

    closed spec fn view(&self) -> Seq<NodeView> {
        Seq::new(self.nodes@.len(), |i: int| self.nodes@[i]@)
    }
}

impl Tree {
    /// What holds of every tree.
    #[verifier::type_invariant]
    pub open spec fn inv(self) -> bool {
        well_formed(self@)
    }

    /// Builds the tree that `events` describe.
    pub fn from_events(events: &Vec<SyntaxEvent>) -> (tree: Tree)
        ensures
            tree@ == build(event_views(events@)).nodes,
    {
        let ghost views = event_views(events@);
        let mut nodes: Vec<Node> = Vec::new();
        let mut open: Vec<usize> = Vec::new();
        let mut at: usize = 0;
        while at < events.len()
            invariant
                at <= events.len(),
                nodes@.len() <= at,
                views == event_views(events@),
                building_ok(build(views.take(at as int))),
                build(views.take(at as int)).open == open@,
                build(views.take(at as int)).nodes == Seq::new(
                    nodes@.len(),
                    |i: int| nodes@[i]@,
                ),
            decreases events.len() - at,
        {
            let ghost before = build(views.take(at as int));
            proof {
                assert(views.take(at as int + 1).drop_last() == views.take(at as int));
                lemma_step_ok(before, views[at as int]);
            }
            let id = nodes.len();
            let parent = if open.len() == 0 {
                None
            } else {
                Some(open[open.len() - 1])
            };
            match &events[at] {
                SyntaxEvent::Open { kind, start, end } => {
                    if let Some(p) = parent {
                        nodes[p].children.push(id);
                    }
                    nodes.push(
                        Node {
                            kind: *kind,
                            start: *start,
                            end: *end,
                            parent,
                            children: Vec::new(),
                            text: String::new(),
                        },
                    );
                    open.push(id);
                },
                SyntaxEvent::Leaf { kind, start, end, text } => {
                    if let Some(p) = parent {
                        nodes[p].children.push(id);
                    }
                    nodes.push(
                        Node {
                            kind: *kind,
                            start: *start,
                            end: *end,
                            parent,
                            children: Vec::new(),
                            text: text.clone(),
                        },
                    );
                },
                SyntaxEvent::Close => {
                    if open.len() > 0 {
                        open.pop();
                    }
                },
            }
            at = at + 1;
            proof {
                let after = build(views.take(at as int));
                assert(after.nodes =~= Seq::new(nodes@.len(), |i: int| nodes@[i]@));
                assert(after.open =~= open@);
            }
        }
        proof {
            assert(views.take(at as int) == views);
        }
        Tree { nodes }
    }

    /// The number of elements, inner nodes and tokens together.
    pub fn len(&self) -> (n: usize)
        ensures
            n == self@.len(),
    {
        self.nodes.len()
    }

    /// What the element `id` is.
    pub fn kind(&self, id: usize) -> (kind: Kind)
        requires
            id < self@.len(),
        ensures
            kind == self@[id as int].kind,
    {
        self.nodes[id].kind
    }

    /// The offset of the first byte of the text that `id` covers.
    pub fn start(&self, id: usize) -> (start: usize)
        requires
            id < self@.len(),
        ensures
            start == self@[id as int].start,
    {
        self.nodes[id].start
    }

    /// The offset behind the last byte of the text that `id` covers.
    pub fn end(&self, id: usize) -> (end: usize)
        requires
            id < self@.len(),
        ensures
            end == self@[id as int].end,
    {
        self.nodes[id].end
    }

    /// The element that holds `id`; `None` for an element at the top.
    pub fn parent(&self, id: usize) -> (parent: Option<usize>)
        requires
            id < self@.len(),
        ensures
            parent == self@[id as int].parent,
            parent matches Some(p) ==> p < id,
    {
        proof {
            use_type_invariant(self);
            assert(element_ok(self@, id as int));
        }
        self.nodes[id].parent
    }

    /// The elements directly inside `id`, tokens included, in text order.
    pub fn children(&self, id: usize) -> (children: &Vec<usize>)
        requires
            id < self@.len(),
        ensures
            children@ == self@[id as int].children,
            forall|k: int|
                0 <= k < children@.len() ==> id < #[trigger] children@[k] < self@.len(),
    {
        proof {
            use_type_invariant(self);
            assert(element_ok(self@, id as int));
        }
        &self.nodes[id].children
    }

    /// The inner nodes directly inside `id`, in text order.
    pub fn child_nodes(&self, id: usize) -> (nodes: Vec<usize>)
        requires
            id < self@.len(),
        ensures
            nodes@ == child_nodes(self@, id),
            forall|k: int| 0 <= k < nodes@.len() ==> id < #[trigger] nodes@[k] < self@.len(),
    {
        let children = self.children(id);
        let mut nodes: Vec<usize> = Vec::new();
        let mut at: usize = 0;
        while at < children.len()
            invariant
                at <= children@.len(),
                children@ == self@[id as int].children,
                forall|k: int|
                    0 <= k < children@.len() ==> id < #[trigger] children@[k] < self@.len(),
                nodes@ == inner_nodes(self@, children@.take(at as int)),
                forall|k: int| 0 <= k < nodes@.len() ==> id < #[trigger] nodes@[k] < self@.len(),
            decreases children.len() - at,
        {
            proof {
                assert(children@.take(at as int + 1).drop_last() == children@.take(at as int));
            }
            let child = children[at];
            if !self.kind(child).token() {
                nodes.push(child);
            }
            at = at + 1;
        }
        proof {
            assert(children@.take(at as int) == children@);
        }
        nodes
    }

    /// The name that the identifier node `id` stands for.
    pub fn name(&self, id: usize) -> (name: &str)
        requires
            id < self@.len(),
        ensures
            name@ == name_of(self@, id),
    {
        let children = self.children(id);
        if children.len() == 0 {
            proof {
                reveal_strlit("");
            }
            ""
        } else {
            self.text(children[0]).as_str()
        }
    }

    /// A token's text; empty for an inner node.
    pub fn text(&self, id: usize) -> (text: &String)
        requires
            id < self@.len(),
        ensures
            text@ == self@[id as int].text,
    {
        &self.nodes[id].text
    }
}

} // verus!
