//! Renaming: every place in a file where a bound name is written, as a
//! list of edits.

use crate::cursor::{ident_at, is_selected, lemma_flatten_nonempty, target_at, Target};
use crate::lexical::{brought_by, lemma_inner_shadows_outer, scope_at};
use crate::path::dotted_path;
use crate::scope::{lemma_find, lookup, scope_details, DetailsView, Var};
use crate::text::same_text;
use crate::tree::{
    child_nodes, lemma_child_nodes, name_of, nth_child, up, well_formed, Kind, NodeView, Tree,
};
use vstd::prelude::*;

verus! {

/// A stretch of text, by the offsets of its bytes, and what replaces it.
#[derive(Debug)]
pub struct TextEdit {
    pub start: usize,
    pub end: usize,
    pub new_text: String,
}

/// The mathematical content of an edit.
pub ghost struct EditView {
    pub start: usize,
    pub end: usize,
    pub new_text: Seq<char>,
}

impl View for TextEdit {
    type V = EditView;

    open spec fn view(&self) -> EditView {
        EditView { start: self.start, end: self.end, new_text: self.new_text@ }
    }
}

/// The mathematical content of each edit of a list.
pub open spec fn edit_views(edits: Seq<TextEdit>) -> Seq<EditView> {
    Seq::new(edits.len(), |i: int| edits[i]@)
}

/// The construct whose member the identifier `key` names: three steps up,
/// through the key and the key-value pair. `None` for a parameter.
pub open spec fn holder_of(nodes: Seq<NodeView>, key: usize) -> Option<usize> {
    match up(nodes, key) {
        Some(k) => if nodes[k as int].kind == Kind::Key {
            match up(nodes, k) {
                Some(pair) => if nodes[pair as int].kind == Kind::KeyValue {
                    up(nodes, pair)
                } else {
                    None
                },
                None => None,
            }
        } else {
            None
        },
        None => None,
    }
}

/// Whether the key `key` is that of a member of `holder`.
pub open spec fn is_member_key(nodes: Seq<NodeView>, key: usize, holder: Option<usize>) -> bool {
    holder is Some && match up(nodes, key) {
        Some(pair) => nodes[pair as int].kind == Kind::KeyValue && up(nodes, pair) == holder,
        None => false,
    }
}

/// Whether the identifier `x` names a member of `holder`: it is the
/// first name of the key of one of its members.
pub open spec fn names_member(nodes: Seq<NodeView>, x: usize, holder: Option<usize>) -> bool {
    match up(nodes, x) {
        Some(key) => nodes[key as int].kind == Kind::Key && nth_child(nodes, key, 0) == Some(x)
            && is_member_key(nodes, key, holder),
        None => false,
    }
}

/// Whether the identifier `x` stands where an attribute is named and not
/// a variable: directly in a key, or directly in a selection as anything
/// but what is selected from.
pub open spec fn names_attribute(nodes: Seq<NodeView>, x: usize) -> bool {
    match up(nodes, x) {
        Some(p) => nodes[p as int].kind == Kind::Key || (nodes[p as int].kind == Kind::Select
            && nth_child(nodes, p, 0) != Some(x)),
        None => false,
    }
}

/// What a scope knows of a name that is bound to `target`.
pub open spec fn bound_to(target: Var) -> DetailsView {
    scope_details(target.datatype, target)
}

/// Whether at `x` the name `old` stands for the binding `target`: the
/// innermost construct around `x` that binds `old` is the one that
/// `target` comes from.
pub open spec fn stands_for(nodes: Seq<NodeView>, x: usize, old: Seq<char>, target: Var) -> bool {
    lookup(scope_at(nodes, target.file, x), old) == Some(bound_to(target))
}

/// Whether `x` is an occurrence of the binding `target` of the name
/// `old`: an identifier written `old` that either names the member of
/// `holder` that the binding comes from, or is a variable for which
/// `old` stands for the binding. An identifier that names an attribute
/// of anything else is none, and neither is one for which a construct
/// nearer to it binds `old` anew.
pub open spec fn is_occurrence(
    nodes: Seq<NodeView>,
    x: usize,
    old: Seq<char>,
    target: Var,
    holder: Option<usize>,
) -> bool {
    &&& x < nodes.len()
    &&& nodes[x as int].kind == Kind::Ident
    &&& name_of(nodes, x) == old
    &&& (names_member(nodes, x, holder) || (!names_attribute(nodes, x) && stands_for(
        nodes,
        x,
        old,
        target,
    )))
}

/// The occurrences at and inside `id`, in text order: every inner node
/// inside `id` is looked at.
pub open spec fn occurrences(
    nodes: Seq<NodeView>,
    id: usize,
    old: Seq<char>,
    target: Var,
    holder: Option<usize>,
) -> Seq<usize>
    decreases nodes.len() - id, child_nodes(nodes, id).len() + 1,
{
    if id >= nodes.len() {
        Seq::empty()
    } else {
        let own = if is_occurrence(nodes, id, old, target, holder) {
            seq![id]
        } else {
            Seq::empty()
        };
        own + occurrences_in(nodes, id, 0, old, target, holder)
    }
}

/// The occurrences in the inner nodes directly inside `id`, from the
/// `k`-th on.
pub open spec fn occurrences_in(
    nodes: Seq<NodeView>,
    id: usize,
    k: int,
    old: Seq<char>,
    target: Var,
    holder: Option<usize>,
) -> Seq<usize>
    decreases nodes.len() - id, child_nodes(nodes, id).len() - k,
{
    let kids = child_nodes(nodes, id);
    if k < 0 || k >= kids.len() {
        Seq::empty()
    } else {
        let c = kids[k];
        let here = if id < c < nodes.len() {
            occurrences(nodes, c, old, target, holder)
        } else {
            Seq::empty()
        };
        here + occurrences_in(nodes, id, k + 1, old, target, holder)
    }
}

/// One edit for each of `ids`, each putting `new_name` in its place.
pub open spec fn edits_for(nodes: Seq<NodeView>, ids: Seq<usize>, new_name: Seq<char>) -> Seq<
    EditView,
> {
    Seq::new(
        ids.len(),
        |i: int|
            EditView {
                start: nodes[ids[i] as int].start,
                end: nodes[ids[i] as int].end,
                new_text: new_name,
            },
    )
}

/// Whether the identifier `ident` may be renamed from: it is no part of a
/// dotted path of more than one name.
pub open spec fn is_bare(nodes: Seq<NodeView>, ident: usize) -> bool {
    match dotted_path(nodes, ident) {
        Some((_, names)) => names.len() <= 1,
        None => true,
    }
}

/// The identifiers that renaming what stands at `offset` replaces.
///
/// There are none where no identifier stands at `offset`, where it is
/// selected from something or part of a longer dotted path, and where no
/// construct around it binds its name. Otherwise they are the
/// occurrences of the binding inside the construct that it comes from.
pub open spec fn rename_targets(nodes: Seq<NodeView>, offset: usize) -> Option<Seq<usize>> {
    match ident_at(nodes, offset) {
        None => None,
        Some(info) => if info.path.len() > 0 || !is_bare(nodes, info.ident) {
            None
        } else {
            match lookup(scope_at(nodes, 0, info.ident), info.name) {
                None => None,
                Some(details) => match details.var {
                    None => None,
                    Some(var) => Some(
                        occurrences(nodes, var.set, info.name, var, holder_of(nodes, var.key)),
                    ),
                },
            }
        },
    }
}

/// The edits that rename what the identifier at `offset` stands for: one
/// for each identifier that is to be replaced.
pub open spec fn rename_edits(nodes: Seq<NodeView>, offset: usize, new_name: Seq<char>) -> Option<
    Seq<EditView>,
> {
    match rename_targets(nodes, offset) {
        Some(ids) => Some(edits_for(nodes, ids, new_name)),
        None => None,
    }
}

/// Whether `x` is `root` or inside it: from `x` upwards, each element is
/// an inner node of the one that holds it, until `root` is reached.
pub open spec fn under(nodes: Seq<NodeView>, root: usize, x: usize) -> bool
    decreases x,
{
    x == root || match up(nodes, x) {
        Some(p) => root <= p && child_nodes(nodes, p).contains(x) && under(nodes, root, p),
        None => false,
    }
}

/// What is inside an inner node of `root` is inside `root`.
proof fn lemma_under_extend(nodes: Seq<NodeView>, root: usize, c: usize, x: usize)
    requires
        up(nodes, c) == Some(root),
        child_nodes(nodes, root).contains(c),
        under(nodes, c, x),
    ensures
        under(nodes, root, x),
    decreases x,
{
    assert(under(nodes, root, root));
    if x != c {
        let p = up(nodes, x).unwrap();
        lemma_under_extend(nodes, root, c, p);
    }
}

/// What is inside an element does not stand before it.
proof fn lemma_under_order(nodes: Seq<NodeView>, root: usize, x: usize)
    requires
        under(nodes, root, x),
    ensures
        root <= x,
    decreases x,
{
    if x != root {
        lemma_under_order(nodes, root, up(nodes, x).unwrap());
    }
}

/// Nothing is inside two different elements that the same element holds.
proof fn lemma_apart(nodes: Seq<NodeView>, p: usize, a: usize, b: usize, x: usize)
    requires
        up(nodes, a) == Some(p),
        up(nodes, b) == Some(p),
        under(nodes, a, x),
        under(nodes, b, x),
    ensures
        a == b,
    decreases x,
{
    if x == a {
        if a != b {
            lemma_under_order(nodes, b, p);
        }
    } else if x == b {
        lemma_under_order(nodes, a, p);
    } else {
        lemma_apart(nodes, p, a, b, up(nodes, x).unwrap());
    }
}

/// Whether each of `ids` is an occurrence inside `root`.
pub open spec fn all_occurrences(
    nodes: Seq<NodeView>,
    root: usize,
    ids: Seq<usize>,
    old: Seq<char>,
    target: Var,
    holder: Option<usize>,
) -> bool {
    forall|i: int|
        0 <= i < ids.len() ==> under(nodes, root, #[trigger] ids[i]) && is_occurrence(
            nodes,
            ids[i],
            old,
            target,
            holder,
        )
}

/// Whether each of `ids` is inside an inner node of `id`, from the
/// `from`-th inner node on.
pub open spec fn all_inside(nodes: Seq<NodeView>, id: usize, from: int, ids: Seq<usize>) -> bool {
    forall|i: int|
        0 <= i < ids.len() ==> exists|j: int|
            from <= j < child_nodes(nodes, id).len() && under(
                nodes,
                #[trigger] child_nodes(nodes, id)[j],
                #[trigger] ids[i],
            )
}

/// Everything found is an occurrence inside the element searched, and
/// nothing is found twice.
proof fn lemma_occurrences_sound(
    nodes: Seq<NodeView>,
    id: usize,
    old: Seq<char>,
    target: Var,
    holder: Option<usize>,
)
    requires
        well_formed(nodes),
    ensures
        all_occurrences(nodes, id, occurrences(nodes, id, old, target, holder), old, target, holder),
        occurrences(nodes, id, old, target, holder).no_duplicates(),
    decreases nodes.len() - id, child_nodes(nodes, id).len() + 1,
{
    if id < nodes.len() {
        let own = if is_occurrence(nodes, id, old, target, holder) {
            seq![id]
        } else {
            Seq::empty()
        };
        let rest = occurrences_in(nodes, id, 0, old, target, holder);
        lemma_occurrences_in_sound(nodes, id, 0, old, target, holder);
        lemma_child_nodes(nodes, id);
        assert forall|i: int| 0 <= i < rest.len() implies id < #[trigger] rest[i] by {
            let j = choose|j: int|
                0 <= j < child_nodes(nodes, id).len() && under(
                    nodes,
                    #[trigger] child_nodes(nodes, id)[j],
                    rest[i],
                );
            lemma_under_order(nodes, child_nodes(nodes, id)[j], rest[i]);
        }
        let all = own + rest;
        assert forall|i: int| 0 <= i < all.len() implies under(nodes, id, #[trigger] all[i])
            && is_occurrence(nodes, all[i], old, target, holder) by {
            if i < own.len() {
                assert(all[i] == id);
            } else {
                assert(all[i] == rest[i - own.len()]);
            }
        }
        assert forall|i: int, j: int| 0 <= i < all.len() && 0 <= j < all.len() && i != j implies all[i]
            != all[j] by {
            if i >= own.len() {
                assert(all[i] == rest[i - own.len()]);
            }
            if j >= own.len() {
                assert(all[j] == rest[j - own.len()]);
            }
        }
    }
}

/// Everything found in the inner nodes of an element is an occurrence
/// inside one of them, and nothing is found twice.
proof fn lemma_occurrences_in_sound(
    nodes: Seq<NodeView>,
    id: usize,
    k: int,
    old: Seq<char>,
    target: Var,
    holder: Option<usize>,
)
    requires
        well_formed(nodes),
        id < nodes.len(),
        0 <= k,
    ensures
        all_occurrences(
            nodes,
            id,
            occurrences_in(nodes, id, k, old, target, holder),
            old,
            target,
            holder,
        ),
        all_inside(nodes, id, k, occurrences_in(nodes, id, k, old, target, holder)),
        occurrences_in(nodes, id, k, old, target, holder).no_duplicates(),
    decreases nodes.len() - id, child_nodes(nodes, id).len() - k,
{
    let kids = child_nodes(nodes, id);
    if k < kids.len() {
        lemma_child_nodes(nodes, id);
        let c = kids[k];
        let here = occurrences(nodes, c, old, target, holder);
        let rest = occurrences_in(nodes, id, k + 1, old, target, holder);
        lemma_occurrences_sound(nodes, c, old, target, holder);
        lemma_occurrences_in_sound(nodes, id, k + 1, old, target, holder);
        assert(kids.contains(c));
        let all = here + rest;
        assert forall|i: int| 0 <= i < all.len() implies under(nodes, id, #[trigger] all[i])
            && is_occurrence(nodes, all[i], old, target, holder) by {
            if i < here.len() {
                assert(all[i] == here[i]);
                lemma_under_extend(nodes, id, c, here[i]);
            } else {
                assert(all[i] == rest[i - here.len()]);
            }
        }
        assert forall|i: int| 0 <= i < all.len() implies exists|j: int|
            k <= j < kids.len() && under(nodes, #[trigger] kids[j], #[trigger] all[i]) by {
            if i < here.len() {
                assert(all[i] == here[i]);
                assert(under(nodes, kids[k], all[i]));
            } else {
                assert(all[i] == rest[i - here.len()]);
                let j = choose|j: int|
                    k + 1 <= j < kids.len() && under(nodes, #[trigger] kids[j], rest[i - here.len()]);
                assert(under(nodes, kids[j], all[i]));
            }
        }
        assert forall|i: int, j: int| 0 <= i < all.len() && 0 <= j < all.len() && i != j implies all[i]
            != all[j] by {
            if i < here.len() && j < here.len() {
                assert(all[i] == here[i] && all[j] == here[j]);
            } else if i >= here.len() && j >= here.len() {
                assert(all[i] == rest[i - here.len()] && all[j] == rest[j - here.len()]);
            } else {
                let (a, b) = if i < here.len() {
                    (i, j)
                } else {
                    (j, i)
                };
                assert(all[a] == here[a]);
                assert(all[b] == rest[b - here.len()]);
                let other = choose|other: int|
                    k + 1 <= other < kids.len() && under(
                        nodes,
                        #[trigger] kids[other],
                        rest[b - here.len()],
                    );
                if all[a] == all[b] {
                    lemma_apart(nodes, id, c, kids[other], all[a]);
                }
            }
        }
    }
}

/// What is found under the `k`-th inner node of an element is among what
/// is found in its inner nodes from any earlier one on.
proof fn lemma_in_contains(
    nodes: Seq<NodeView>,
    id: usize,
    from: int,
    k: int,
    x: usize,
    old: Seq<char>,
    target: Var,
    holder: Option<usize>,
)
    requires
        0 <= from <= k < child_nodes(nodes, id).len(),
        id < child_nodes(nodes, id)[k] < nodes.len(),
        occurrences(nodes, child_nodes(nodes, id)[k], old, target, holder).contains(x),
    ensures
        occurrences_in(nodes, id, from, old, target, holder).contains(x),
    decreases k - from,
{
    let kids = child_nodes(nodes, id);
    let c = kids[from];
    let here = if id < c < nodes.len() {
        occurrences(nodes, c, old, target, holder)
    } else {
        Seq::empty()
    };
    let rest = occurrences_in(nodes, id, from + 1, old, target, holder);
    if from == k {
        let i = choose|i: int| 0 <= i < here.len() && here[i] == x;
        assert((here + rest)[i] == x);
    } else {
        lemma_in_contains(nodes, id, from + 1, k, x, old, target, holder);
        let i = choose|i: int| 0 <= i < rest.len() && rest[i] == x;
        assert((here + rest)[here.len() + i] == x);
    }
}

/// What is found under an element inside `root` is found under `root`.
proof fn lemma_contained(
    nodes: Seq<NodeView>,
    root: usize,
    p: usize,
    x: usize,
    old: Seq<char>,
    target: Var,
    holder: Option<usize>,
)
    requires
        well_formed(nodes),
        p < nodes.len(),
        under(nodes, root, p),
        occurrences(nodes, p, old, target, holder).contains(x),
    ensures
        occurrences(nodes, root, old, target, holder).contains(x),
    decreases p,
{
    if p != root {
        let q = up(nodes, p).unwrap();
        let kids = child_nodes(nodes, q);
        let k = choose|k: int| 0 <= k < kids.len() && kids[k] == p;
        lemma_in_contains(nodes, q, 0, k, x, old, target, holder);
        let own = if is_occurrence(nodes, q, old, target, holder) {
            seq![q]
        } else {
            Seq::empty()
        };
        let inner = occurrences_in(nodes, q, 0, old, target, holder);
        let i = choose|i: int| 0 <= i < inner.len() && inner[i] == x;
        assert((own + inner)[own.len() + i] == x);
        lemma_contained(nodes, root, q, x, old, target, holder);
    }
}

/// What renaming replaces, and what it leaves: under the construct that
/// the binding comes from, exactly the occurrences of the binding, each
/// once. So every identifier there for which the name stands for the
/// binding is replaced, wherever it is written, also inside a computed
/// name; and none is replaced for which a nearer construct binds the
/// name anew, nor one that names an attribute of another set.
pub proof fn lemma_occurrences_are_exact(
    nodes: Seq<NodeView>,
    root: usize,
    old: Seq<char>,
    target: Var,
    holder: Option<usize>,
)
    requires
        well_formed(nodes),
        root < nodes.len(),
    ensures
        forall|x: usize|
            #[trigger] occurrences(nodes, root, old, target, holder).contains(x) <==> under(
                nodes,
                root,
                x,
            ) && is_occurrence(nodes, x, old, target, holder),
        occurrences(nodes, root, old, target, holder).no_duplicates(),
{
    let found = occurrences(nodes, root, old, target, holder);
    lemma_occurrences_sound(nodes, root, old, target, holder);
    assert forall|x: usize| #[trigger] found.contains(x) <==> under(nodes, root, x)
        && is_occurrence(nodes, x, old, target, holder) by {
        if found.contains(x) {
            let i = choose|i: int| 0 <= i < found.len() && found[i] == x;
            assert(is_occurrence(nodes, found[i], old, target, holder));
        }
        if under(nodes, root, x) && is_occurrence(nodes, x, old, target, holder) {
            let own = seq![x];
            let inner = occurrences_in(nodes, x, 0, old, target, holder);
            assert((own + inner)[0] == x);
            lemma_contained(nodes, root, x, x, old, target, holder);
        }
    }
}

/// Renaming keeps to the binding: each identifier that is replaced either
/// names the member that the binding comes from, or is a variable at
/// whose place the name stands for the binding being renamed, and for no
/// nearer one.
pub proof fn lemma_renamed_stand_for_the_binding(
    nodes: Seq<NodeView>,
    root: usize,
    old: Seq<char>,
    target: Var,
    holder: Option<usize>,
    i: int,
)
    requires
        well_formed(nodes),
        root < nodes.len(),
        0 <= i < occurrences(nodes, root, old, target, holder).len(),
    ensures
        names_member(nodes, occurrences(nodes, root, old, target, holder)[i], holder) || lookup(
            scope_at(nodes, target.file, occurrences(nodes, root, old, target, holder)[i]),
            old,
        ) == Some(bound_to(target)),
{
    lemma_occurrences_sound(nodes, root, old, target, holder);
}

/// Every free occurrence is replaced: an identifier inside the construct
/// that the binding comes from, written with the name and not naming an
/// attribute, is replaced wherever no construct nearer to it binds the
/// name anew.
pub proof fn lemma_free_occurrences_are_renamed(
    nodes: Seq<NodeView>,
    root: usize,
    old: Seq<char>,
    target: Var,
    holder: Option<usize>,
    x: usize,
    steps: nat,
)
    requires
        well_formed(nodes),
        root < nodes.len(),
        x < nodes.len(),
        under(nodes, root, x),
        nodes[x as int].kind == Kind::Ident,
        name_of(nodes, x) == old,
        !names_attribute(nodes, x),
        brought_by(nodes, target.file, x, steps, old) == Some(bound_to(target)),
        forall|nearer: nat|
            nearer < steps ==> #[trigger] brought_by(nodes, target.file, x, nearer, old) is None,
    ensures
        occurrences(nodes, root, old, target, holder).contains(x),
{
    lemma_inner_shadows_outer(nodes, target.file, x, steps, old);
    lemma_occurrences_are_exact(nodes, root, old, target, holder);
}

/// A name in a key is left alone unless it is the first name of the key
/// of a member of the construct that the binding comes from, and a name
/// that is selected is always left alone: written the same, it names an
/// attribute. For a name that a function's parameter binds, no name in
/// any key is ever replaced.
pub proof fn lemma_attribute_names_stay(
    nodes: Seq<NodeView>,
    root: usize,
    old: Seq<char>,
    target: Var,
    holder: Option<usize>,
    x: usize,
)
    requires
        well_formed(nodes),
        root < nodes.len(),
        names_attribute(nodes, x),
        !names_member(nodes, x, holder),
    ensures
        !occurrences(nodes, root, old, target, holder).contains(x),
{
    lemma_occurrences_are_exact(nodes, root, old, target, holder);
}

/// An identifier that a selection selects is never renamed from: it
/// names a member of what it is selected from, not something bound
/// around it.
pub proof fn lemma_selected_is_rejected(nodes: Seq<NodeView>, offset: usize, new_name: Seq<char>)
    requires
        target_at(nodes, offset) matches Some(Target::Ident(ident)) && is_selected(nodes, ident),
    ensures
        rename_edits(nodes, offset, new_name) is None,
{
    let ident = target_at(nodes, offset)->Some_0->Ident_0;
    match nth_child(nodes, up(nodes, ident).unwrap(), 0) {
        Some(set) => {
            lemma_flatten_nonempty(nodes, set);
        },
        None => {},
    }
}

/// Whether each of `ids` is an element of a tree of `count` elements.
pub open spec fn all_below(ids: Seq<usize>, count: nat) -> bool {
    forall|i: int| 0 <= i < ids.len() ==> #[trigger] ids[i] < count
}

impl Tree {
    /// The construct whose member the identifier `key` names.
    pub fn holder_of(&self, key: usize) -> (holder: Option<usize>)
        requires
            key < self@.len(),
        ensures
            holder == holder_of(self@, key),
    {
        match self.parent(key) {
            Some(k) => {
                if self.kind(k) == Kind::Key {
                    match self.parent(k) {
                        Some(pair) => {
                            if self.kind(pair) == Kind::KeyValue {
                                self.parent(pair)
                            } else {
                                None
                            }
                        },
                        None => None,
                    }
                } else {
                    None
                }
            },
            None => None,
        }
    }

    /// Whether the key `key` is that of a member of `holder`.
    pub fn is_member_key(&self, key: usize, holder: Option<usize>) -> (member: bool)
        requires
            key < self@.len(),
        ensures
            member == is_member_key(self@, key, holder),
    {
        match (holder, self.parent(key)) {
            (Some(h), Some(pair)) => {
                if self.kind(pair) == Kind::KeyValue {
                    match self.parent(pair) {
                        Some(above) => above == h,
                        None => false,
                    }
                } else {
                    false
                }
            },
            _ => false,
        }
    }

    /// Whether two bindings are the same.
    pub fn same_var(a: Var, b: Var) -> (same: bool)
        ensures
            same == (a == b),
    {
        let values = match (a.value, b.value) {
            (Some(x), Some(y)) => x == y,
            (None, None) => true,
            _ => false,
        };
        a.file == b.file && a.set == b.set && a.key == b.key && values && a.datatype == b.datatype
    }

    /// Whether `x` is an occurrence of the binding `target` of the name
    /// `old`.
    pub fn is_occurrence(&self, x: usize, old: &str, target: Var, holder: Option<usize>) -> (found:
        bool)
        requires
            x < self@.len(),
        ensures
            found == is_occurrence(self@, x, old@, target, holder),
    {
        if self.kind(x) != Kind::Ident || !same_text(self.name(x), old) {
            return false;
        }
        let (in_key, selected, first) = match self.parent(x) {
            Some(p) => {
                let first = match self.nth_child(p, 0) {
                    Some(c) => c == x,
                    None => false,
                };
                let kind = self.kind(p);
                (kind == Kind::Key, kind == Kind::Select && !first, first)
            },
            None => (false, false, false),
        };
        if in_key {
            let key = self.parent(x).unwrap();
            return first && self.is_member_key(key, holder);
        }
        if selected {
            return false;
        }
        let scope = self.scope_at(target.file, x);
        proof {
            lemma_find(scope@, old@, 0);
        }
        match scope.get(old) {
            Some(details) => match details.var {
                Some(var) => Tree::same_var(var, target),
                None => false,
            },
            None => false,
        }
    }

    /// Adds to `found` the occurrences at and inside `id`.
    pub fn occurrences(
        &self,
        id: usize,
        old: &str,
        target: Var,
        holder: Option<usize>,
        found: Vec<usize>,
    ) -> (all: Vec<usize>)
        ensures
            all@ == found@ + occurrences(self@, id, old@, target, holder),
        decreases self@.len() - id, child_nodes(self@, id).len() + 1,
    {
        if id >= self.len() {
            proof {
                assert(found@ + Seq::<usize>::empty() =~= found@);
            }
            return found;
        }
        let mut found = found;
        let ghost before = found@;
        if self.is_occurrence(id, old, target, holder) {
            found.push(id);
        }
        let all = self.occurrences_in(id, 0, old, target, holder, found);
        proof {
            let own = if is_occurrence(self@, id, old@, target, holder) {
                seq![id]
            } else {
                Seq::empty()
            };
            assert(all@ =~= before + (own + occurrences_in(self@, id, 0, old@, target, holder)));
        }
        all
    }

    /// Adds to `found` the occurrences in the inner nodes directly inside
    /// `id`, from the `k`-th on.
    pub fn occurrences_in(
        &self,
        id: usize,
        k: usize,
        old: &str,
        target: Var,
        holder: Option<usize>,
        found: Vec<usize>,
    ) -> (all: Vec<usize>)
        requires
            id < self@.len(),
        ensures
            all@ == found@ + occurrences_in(self@, id, k as int, old@, target, holder),
        decreases self@.len() - id, child_nodes(self@, id).len() - k,
    {
        let kids = self.child_nodes(id);
        if k >= kids.len() {
            proof {
                assert(found@ + Seq::<usize>::empty() =~= found@);
            }
            return found;
        }
        let ghost before = found@;
        let here = self.occurrences(kids[k], old, target, holder, found);
        let all = self.occurrences_in(id, k + 1, old, target, holder, here);
        proof {
            assert(all@ =~= before + (occurrences(self@, kids@[k as int], old@, target, holder)
                + occurrences_in(self@, id, k as int + 1, old@, target, holder)));
        }
        all
    }

    /// Whether the identifier `ident` may be renamed from.
    pub fn is_bare(&self, ident: usize) -> (bare: bool)
        ensures
            bare == is_bare(self@, ident),
    {
        match self.dotted_path(ident) {
            Some((_, names)) => names.len() <= 1,
            None => true,
        }
    }

    /// The edits that rename what the identifier at `offset` stands for.
    /// No two of them are for the same identifier.
    pub fn rename(&self, offset: usize, new_name: &str) -> (edits: Option<Vec<TextEdit>>)
        ensures
            match edits {
                Some(e) => rename_edits(self@, offset, new_name@) == Some(edit_views(e@)),
                None => rename_edits(self@, offset, new_name@) is None,
            },
            (target_at(self@, offset) matches Some(Target::Ident(ident)) && is_selected(
                self@,
                ident,
            )) ==> edits is None,
            rename_targets(self@, offset) matches Some(ids) ==> ids.no_duplicates(),
    {
        proof {
            use_type_invariant(self);
            if target_at(self@, offset) matches Some(Target::Ident(ident)) && is_selected(
                self@,
                ident,
            ) {
                lemma_selected_is_rejected(self@, offset, new_name@);
            }
        }
        let info = match self.ident_at(offset) {
            Some(info) => info,
            None => {
                return None;
            },
        };
        if info.path.len() > 0 || !self.is_bare(info.ident) {
            return None;
        }
        let scope = self.scope_at(0, info.ident);
        proof {
            lemma_find(scope@, info.name@, 0);
        }
        let var = match scope.get(info.name.as_str()) {
            Some(details) => match details.var {
                Some(var) => var,
                None => {
                    return None;
                },
            },
            None => {
                return None;
            },
        };
        let holder = self.holder_of(var.key);
        let found = self.occurrences(var.set, info.name.as_str(), var, holder, Vec::new());
        proof {
            lemma_occurrences_sound(self@, var.set, info.name@, var, holder);
            assert(found@ =~= occurrences(self@, var.set, info.name@, var, holder));
        }
        let mut edits: Vec<TextEdit> = Vec::new();
        let mut at: usize = 0;
        while at < found.len()
            invariant
                at <= found.len(),
                all_below(found@, self@.len()),
                edits@.len() == at,
                forall|i: int|
                    0 <= i < at ==> (#[trigger] edits@[i])@ == edits_for(
                        self@,
                        found@,
                        new_name@,
                    )[i],
            decreases found.len() - at,
        {
            let id = found[at];
            edits.push(
                TextEdit {
                    start: self.start(id),
                    end: self.end(id),
                    new_text: String::from_str(new_name),
                },
            );
            at = at + 1;
        }
        proof {
            assert(edit_views(edits@) =~= edits_for(self@, found@, new_name@));
        }
        Some(edits)
    }
}

} // verus!
