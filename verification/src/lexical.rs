//! Lexical scopes: the names that the constructs around a place bring
//! into view, the innermost construct first.

use crate::scope::{
    declare, distinct, lemma_declare, lemma_declare_lookup, lookup, scope_details, visible,
    Datatype, DetailsView, EntryView, LSPDetails, Scope, Var,
};
use crate::tree::{
    child_nodes, lemma_child_nodes, name_of, nth_child, up, well_formed, Kind, NodeView, Tree,
};
use vstd::prelude::*;

verus! {

/// The entry that the member `entry` of a construct declares: a key-value
/// pair whose key begins with an identifier and which has a value. The
/// name is that identifier, the value node the pair's value.
pub open spec fn member(
    nodes: Seq<NodeView>,
    file: usize,
    set: usize,
    datatype: Datatype,
    entry: usize,
) -> Option<EntryView> {
    if nodes[entry as int].kind != Kind::KeyValue {
        None
    } else {
        match (nth_child(nodes, entry, 0), nth_child(nodes, entry, 1)) {
            (Some(key), Some(value)) => if nodes[key as int].kind != Kind::Key {
                None
            } else {
                match nth_child(nodes, key, 0) {
                    Some(ident) => if nodes[ident as int].kind == Kind::Ident {
                        Some(
                            EntryView {
                                name: name_of(nodes, ident),
                                details: scope_details(
                                    datatype,
                                    Var { file, set, key: ident, value: Some(value), datatype },
                                ),
                            },
                        )
                    } else {
                        None
                    },
                    None => None,
                }
            },
            _ => None,
        }
    }
}

/// `acc` after the members `kids[k..]` were declared in it, in text order.
pub open spec fn with_members(
    nodes: Seq<NodeView>,
    file: usize,
    set: usize,
    datatype: Datatype,
    kids: Seq<usize>,
    k: int,
    acc: Seq<EntryView>,
) -> Seq<EntryView>
    decreases kids.len() - k,
{
    if k < 0 || k >= kids.len() {
        acc
    } else {
        let next = match member(nodes, file, set, datatype, kids[k]) {
            Some(entry) => declare(acc, entry),
            None => acc,
        };
        with_members(nodes, file, set, datatype, kids, k + 1, next)
    }
}

/// The entry that one parameter of a function declares; `ident` is the
/// identifier that names it.
pub open spec fn parameter(nodes: Seq<NodeView>, file: usize, lambda: usize, ident: usize) -> EntryView {
    EntryView {
        name: name_of(nodes, ident),
        details: scope_details(
            Datatype::Lambda,
            Var { file, set: lambda, key: ident, value: None, datatype: Datatype::Lambda },
        ),
    }
}

/// The entry that the element `entry` of a parameter pattern declares:
/// one of the pattern's entries, or the name that the pattern binds the
/// whole argument to. The name is the identifier that the element begins
/// with.
pub open spec fn pattern_entry(nodes: Seq<NodeView>, file: usize, lambda: usize, entry: usize) -> Option<
    EntryView,
> {
    if nodes[entry as int].kind != Kind::PatEntry && nodes[entry as int].kind != Kind::PatBind {
        None
    } else {
        match nth_child(nodes, entry, 0) {
            Some(ident) => if nodes[ident as int].kind == Kind::Ident {
                Some(parameter(nodes, file, lambda, ident))
            } else {
                None
            },
            None => None,
        }
    }
}

/// `acc` after the pattern entries `kids[k..]` were declared in it.
pub open spec fn with_pattern(
    nodes: Seq<NodeView>,
    file: usize,
    lambda: usize,
    kids: Seq<usize>,
    k: int,
    acc: Seq<EntryView>,
) -> Seq<EntryView>
    decreases kids.len() - k,
{
    if k < 0 || k >= kids.len() {
        acc
    } else {
        let next = match pattern_entry(nodes, file, lambda, kids[k]) {
            Some(entry) => declare(acc, entry),
            None => acc,
        };
        with_pattern(nodes, file, lambda, kids, k + 1, next)
    }
}

/// Whether the attribute set `id` is a recursive one.
pub open spec fn is_recursive(nodes: Seq<NodeView>, id: usize) -> bool {
    exists|k: int|
        0 <= k < nodes[id as int].children.len() && nodes[(
        #[trigger] nodes[id as int].children[k]) as int].kind == Kind::RecToken
}

/// `acc` after the names that the construct `id` brings into view were
/// declared in it. `from` is the element directly inside `id` through
/// which the place is reached, if `id` is not the place itself.
///
/// A `let` and a recursive attribute set bring their members, a function
/// its parameter or the entries of its parameter pattern. A `with` brings
/// the members of its subject where that is written out as an attribute
/// set, and only into its body.
pub open spec fn introduce(
    nodes: Seq<NodeView>,
    file: usize,
    id: usize,
    from: Option<usize>,
    acc: Seq<EntryView>,
) -> Seq<EntryView> {
    match nodes[id as int].kind {
        Kind::LetIn | Kind::LegacyLet => with_members(
            nodes,
            file,
            id,
            Datatype::Variable,
            child_nodes(nodes, id),
            0,
            acc,
        ),
        Kind::AttrSet => if is_recursive(nodes, id) {
            with_members(nodes, file, id, Datatype::Attribute, child_nodes(nodes, id), 0, acc)
        } else {
            acc
        },
        Kind::Lambda => match nth_child(nodes, id, 0) {
            Some(arg) => if nodes[arg as int].kind == Kind::Ident {
                declare(acc, parameter(nodes, file, id, arg))
            } else if nodes[arg as int].kind == Kind::Pattern {
                with_pattern(nodes, file, id, child_nodes(nodes, arg), 0, acc)
            } else {
                acc
            },
            None => acc,
        },
        Kind::With => match nth_child(nodes, id, 0) {
            Some(subject) => if nodes[subject as int].kind == Kind::AttrSet && from != Some(
                subject,
            ) {
                with_members(
                    nodes,
                    file,
                    id,
                    Datatype::Attribute,
                    child_nodes(nodes, subject),
                    0,
                    acc,
                )
            } else {
                acc
            },
            None => acc,
        },
        _ => acc,
    }
}

/// `acc` after the constructs from `id` upwards have each declared their
/// names in it, `id` first.
pub open spec fn scope_from(
    nodes: Seq<NodeView>,
    file: usize,
    id: usize,
    from: Option<usize>,
    acc: Seq<EntryView>,
) -> Seq<EntryView>
    decreases id,
{
    let next = introduce(nodes, file, id, from, acc);
    match up(nodes, id) {
        Some(p) => scope_from(nodes, file, p, Some(id), next),
        None => next,
    }
}

/// The names visible at `id`. A name that two constructs bring stands for
/// what the inner one binds it to.
pub open spec fn scope_at(nodes: Seq<NodeView>, file: usize, id: usize) -> Seq<EntryView> {
    if id < nodes.len() {
        scope_from(nodes, file, id, None, Seq::empty())
    } else {
        Seq::empty()
    }
}

/// What the construct `id` alone binds `name` to.
pub open spec fn brings(
    nodes: Seq<NodeView>,
    file: usize,
    id: usize,
    from: Option<usize>,
    name: Seq<char>,
) -> Option<DetailsView> {
    lookup(introduce(nodes, file, id, from, Seq::empty()), name)
}

/// What the innermost construct at or above `id` that binds `name` binds
/// it to.
pub open spec fn innermost(
    nodes: Seq<NodeView>,
    file: usize,
    id: usize,
    from: Option<usize>,
    name: Seq<char>,
) -> Option<DetailsView>
    decreases id,
{
    match brings(nodes, file, id, from, name) {
        Some(details) => Some(details),
        None => match up(nodes, id) {
            Some(p) => innermost(nodes, file, p, Some(id), name),
            None => None,
        },
    }
}

/// How one declaration changes what a name stands for, from a scope and
/// from the empty scope alike.
proof fn lemma_declare_both(acc: Seq<EntryView>, entry: EntryView, name: Seq<char>)
    ensures
        !visible(Seq::<EntryView>::empty(), name),
        visible(acc, name) ==> visible(declare(acc, entry), name) && lookup(
            declare(acc, entry),
            name,
        ) == lookup(acc, name),
        !visible(acc, name) && entry.name == name ==> lookup(declare(acc, entry), name) == Some(
            entry.details,
        ) && lookup(declare(Seq::<EntryView>::empty(), entry), name) == Some(entry.details),
        !visible(acc, name) && entry.name != name ==> !visible(declare(acc, entry), name)
            && !visible(declare(Seq::<EntryView>::empty(), entry), name),
{
    let none = Seq::<EntryView>::empty();
    lemma_declare_lookup(acc, entry);
    lemma_declare_lookup(none, entry);
    if visible(acc, name) {
        assert(lookup(declare(acc, entry), name) == lookup(acc, name));
    } else if entry.name == name {
    } else {
        assert(lookup(declare(acc, entry), name) == lookup(acc, name));
        assert(lookup(declare(none, entry), name) == lookup(none, name));
    }
}

/// Members are declared behind what is there: a name that is visible
/// keeps what it stands for, any other stands for what the members alone
/// bind it to.
proof fn lemma_with_members_lookup(
    nodes: Seq<NodeView>,
    file: usize,
    set: usize,
    datatype: Datatype,
    kids: Seq<usize>,
    k: int,
    acc: Seq<EntryView>,
    name: Seq<char>,
)
    requires
        0 <= k,
    ensures
        lookup(with_members(nodes, file, set, datatype, kids, k, acc), name) == if visible(
            acc,
            name,
        ) {
            lookup(acc, name)
        } else {
            lookup(with_members(nodes, file, set, datatype, kids, k, Seq::empty()), name)
        },
    decreases kids.len() - k,
{
    if k < kids.len() {
        let none = Seq::<EntryView>::empty();
        match member(nodes, file, set, datatype, kids[k]) {
            Some(entry) => {
                lemma_declare_both(acc, entry, name);
                lemma_with_members_lookup(
                    nodes,
                    file,
                    set,
                    datatype,
                    kids,
                    k + 1,
                    declare(acc, entry),
                    name,
                );
                lemma_with_members_lookup(
                    nodes,
                    file,
                    set,
                    datatype,
                    kids,
                    k + 1,
                    declare(none, entry),
                    name,
                );
            },
            None => {
                lemma_with_members_lookup(nodes, file, set, datatype, kids, k + 1, acc, name);
                lemma_with_members_lookup(nodes, file, set, datatype, kids, k + 1, none, name);
            },
        }
    }
}

/// The same for the entries of a parameter pattern.
proof fn lemma_with_pattern_lookup(
    nodes: Seq<NodeView>,
    file: usize,
    lambda: usize,
    kids: Seq<usize>,
    k: int,
    acc: Seq<EntryView>,
    name: Seq<char>,
)
    requires
        0 <= k,
    ensures
        lookup(with_pattern(nodes, file, lambda, kids, k, acc), name) == if visible(acc, name) {
            lookup(acc, name)
        } else {
            lookup(with_pattern(nodes, file, lambda, kids, k, Seq::empty()), name)
        },
    decreases kids.len() - k,
{
    if k < kids.len() {
        let none = Seq::<EntryView>::empty();
        match pattern_entry(nodes, file, lambda, kids[k]) {
            Some(entry) => {
                lemma_declare_both(acc, entry, name);
                lemma_with_pattern_lookup(nodes, file, lambda, kids, k + 1, declare(acc, entry), name);
                lemma_with_pattern_lookup(
                    nodes,
                    file,
                    lambda,
                    kids,
                    k + 1,
                    declare(none, entry),
                    name,
                );
            },
            None => {
                lemma_with_pattern_lookup(nodes, file, lambda, kids, k + 1, acc, name);
                lemma_with_pattern_lookup(nodes, file, lambda, kids, k + 1, none, name);
            },
        }
    }
}

/// A construct adds its bindings behind those that are there: a name
/// that is visible keeps what it stands for.
proof fn lemma_introduce_lookup(
    nodes: Seq<NodeView>,
    file: usize,
    id: usize,
    from: Option<usize>,
    acc: Seq<EntryView>,
    name: Seq<char>,
)
    ensures
        lookup(introduce(nodes, file, id, from, acc), name) == if visible(acc, name) {
            lookup(acc, name)
        } else {
            brings(nodes, file, id, from, name)
        },
{
    let none = Seq::<EntryView>::empty();
    match nodes[id as int].kind {
        Kind::LetIn | Kind::LegacyLet => {
            lemma_with_members_lookup(
                nodes,
                file,
                id,
                Datatype::Variable,
                child_nodes(nodes, id),
                0,
                acc,
                name,
            );
        },
        Kind::AttrSet => {
            lemma_with_members_lookup(
                nodes,
                file,
                id,
                Datatype::Attribute,
                child_nodes(nodes, id),
                0,
                acc,
                name,
            );
        },
        Kind::Lambda => match nth_child(nodes, id, 0) {
            Some(arg) => {
                if nodes[arg as int].kind == Kind::Ident {
                    lemma_declare_both(acc, parameter(nodes, file, id, arg), name);
                } else if nodes[arg as int].kind == Kind::Pattern {
                    lemma_with_pattern_lookup(
                        nodes,
                        file,
                        id,
                        child_nodes(nodes, arg),
                        0,
                        acc,
                        name,
                    );
                }
            },
            None => {},
        },
        Kind::With => match nth_child(nodes, id, 0) {
            Some(subject) => {
                lemma_with_members_lookup(
                    nodes,
                    file,
                    id,
                    Datatype::Attribute,
                    child_nodes(nodes, subject),
                    0,
                    acc,
                    name,
                );
            },
            None => {},
        },
        _ => {},
    }
}

/// From a construct upwards, a name that is visible keeps what it stands
/// for, and any other stands for what the innermost construct that binds
/// it binds it to.
proof fn lemma_scope_from_lookup(
    nodes: Seq<NodeView>,
    file: usize,
    id: usize,
    from: Option<usize>,
    acc: Seq<EntryView>,
    name: Seq<char>,
)
    ensures
        lookup(scope_from(nodes, file, id, from, acc), name) == if visible(acc, name) {
            lookup(acc, name)
        } else {
            innermost(nodes, file, id, from, name)
        },
    decreases id,
{
    lemma_introduce_lookup(nodes, file, id, from, acc, name);
    match up(nodes, id) {
        Some(p) => {
            lemma_scope_from_lookup(
                nodes,
                file,
                p,
                Some(id),
                introduce(nodes, file, id, from, acc),
                name,
            );
        },
        None => {},
    }
}

/// Shadowing: what a name stands for at a place is what the innermost
/// construct around the place that binds the name binds it to, whatever
/// the constructs further out bind it to. Where none binds it, it is not
/// visible.
pub proof fn lemma_innermost_binding_wins(
    nodes: Seq<NodeView>,
    file: usize,
    id: usize,
    name: Seq<char>,
)
    requires
        id < nodes.len(),
    ensures
        lookup(scope_at(nodes, file, id), name) == innermost(nodes, file, id, None, name),
{
    lemma_scope_from_lookup(nodes, file, id, None, Seq::empty(), name);
}

/// The construct that is `steps` steps above `id`, with the element
/// through which `id` is reached from it.
pub open spec fn around(nodes: Seq<NodeView>, id: usize, from: Option<usize>, steps: nat) -> Option<
    (usize, Option<usize>),
>
    decreases steps,
{
    if steps == 0 {
        Some((id, from))
    } else {
        match up(nodes, id) {
            Some(p) => around(nodes, p, Some(id), (steps - 1) as nat),
            None => None,
        }
    }
}

/// What the construct `steps` steps above `id` binds `name` to.
pub open spec fn brought_by(
    nodes: Seq<NodeView>,
    file: usize,
    id: usize,
    steps: nat,
    name: Seq<char>,
) -> Option<DetailsView> {
    match around(nodes, id, None, steps) {
        Some((construct, from)) => brings(nodes, file, construct, from, name),
        None => None,
    }
}

/// Where no construct nearer than the one `steps` steps up binds a name,
/// the innermost that binds it is found from there.
proof fn lemma_innermost_at(
    nodes: Seq<NodeView>,
    file: usize,
    id: usize,
    from: Option<usize>,
    steps: nat,
    name: Seq<char>,
)
    requires
        around(nodes, id, from, steps) is Some,
        forall|nearer: nat|
            nearer < steps ==> (#[trigger] around(nodes, id, from, nearer) matches Some(
                (construct, through),
            ) ==> brings(nodes, file, construct, through, name) is None),
    ensures
        innermost(nodes, file, id, from, name) == innermost(
            nodes,
            file,
            around(nodes, id, from, steps).unwrap().0,
            around(nodes, id, from, steps).unwrap().1,
            name,
        ),
    decreases steps,
{
    if steps > 0 {
        let p = up(nodes, id).unwrap();
        assert(around(nodes, id, from, 0) == Some((id, from)));
        assert forall|nearer: nat| nearer < steps - 1 implies (#[trigger] around(
            nodes,
            p,
            Some(id),
            nearer,
        ) matches Some((construct, through)) ==> brings(nodes, file, construct, through, name)
            is None) by {
            assert(around(nodes, id, from, nearer + 1) == around(nodes, p, Some(id), nearer));
        }
        lemma_innermost_at(nodes, file, p, Some(id), (steps - 1) as nat, name);
    }
}

/// Where several constructs around a place bind one name, the place sees
/// what the innermost of them binds it to, and nothing of the others: if
/// the construct `steps` steps above the place binds the name and none
/// nearer does, the name stands for that construct's binding, whatever
/// is bound further out.
pub proof fn lemma_inner_shadows_outer(
    nodes: Seq<NodeView>,
    file: usize,
    id: usize,
    steps: nat,
    name: Seq<char>,
)
    requires
        id < nodes.len(),
        brought_by(nodes, file, id, steps, name) is Some,
        forall|nearer: nat|
            nearer < steps ==> #[trigger] brought_by(nodes, file, id, nearer, name) is None,
    ensures
        lookup(scope_at(nodes, file, id), name) == brought_by(nodes, file, id, steps, name),
{
    lemma_innermost_binding_wins(nodes, file, id, name);
    assert forall|nearer: nat| nearer < steps implies (#[trigger] around(
        nodes,
        id,
        None,
        nearer,
    ) matches Some((construct, through)) ==> brings(nodes, file, construct, through, name)
        is None) by {
        assert(brought_by(nodes, file, id, nearer, name) is None);
    }
    lemma_innermost_at(nodes, file, id, None, steps, name);
}

/// Declaring members keeps names distinct.
pub proof fn lemma_with_members_distinct(
    nodes: Seq<NodeView>,
    file: usize,
    set: usize,
    datatype: Datatype,
    kids: Seq<usize>,
    k: int,
    acc: Seq<EntryView>,
)
    requires
        distinct(acc),
        0 <= k,
    ensures
        distinct(with_members(nodes, file, set, datatype, kids, k, acc)),
    decreases kids.len() - k,
{
    if k < kids.len() {
        match member(nodes, file, set, datatype, kids[k]) {
            Some(entry) => {
                lemma_declare(acc, entry);
                lemma_with_members_distinct(
                    nodes,
                    file,
                    set,
                    datatype,
                    kids,
                    k + 1,
                    declare(acc, entry),
                );
            },
            None => {
                lemma_with_members_distinct(nodes, file, set, datatype, kids, k + 1, acc);
            },
        }
    }
}

/// Whether an entry is a binding in the tree of the file `file`: its name
/// is that of the identifier `key`, and every node it names is an
/// element of the tree.
pub open spec fn is_binding(nodes: Seq<NodeView>, file: usize, entry: EntryView) -> bool {
    &&& entry.details.var matches Some(var)
    &&& var.file == file
    &&& var.set < nodes.len()
    &&& var.key < nodes.len()
    &&& nodes[var.key as int].kind == Kind::Ident
    &&& name_of(nodes, var.key) == entry.name
    &&& var.value matches Some(value) ==> value < nodes.len()
    &&& entry.details == scope_details(var.datatype, var)
}

/// Whether a scope holds bindings in the tree of the file `file` only,
/// and no name twice.
pub open spec fn is_lexical(nodes: Seq<NodeView>, file: usize, scope: Seq<EntryView>) -> bool {
    &&& distinct(scope)
    &&& forall|i: int| 0 <= i < scope.len() ==> is_binding(nodes, file, #[trigger] scope[i])
}

/// Declaring a binding in a lexical scope gives a lexical scope.
proof fn lemma_declare_lexical(
    nodes: Seq<NodeView>,
    file: usize,
    scope: Seq<EntryView>,
    entry: EntryView,
)
    requires
        is_lexical(nodes, file, scope),
        is_binding(nodes, file, entry),
    ensures
        is_lexical(nodes, file, declare(scope, entry)),
{
    lemma_declare(scope, entry);
}

/// Declaring the members of a construct gives a lexical scope.
pub proof fn lemma_with_members_lexical(
    nodes: Seq<NodeView>,
    file: usize,
    holder: usize,
    set: usize,
    datatype: Datatype,
    k: int,
    acc: Seq<EntryView>,
)
    requires
        well_formed(nodes),
        holder < nodes.len(),
        set < nodes.len(),
        is_lexical(nodes, file, acc),
        0 <= k,
    ensures
        is_lexical(
            nodes,
            file,
            with_members(nodes, file, set, datatype, child_nodes(nodes, holder), k, acc),
        ),
    decreases child_nodes(nodes, holder).len() - k,
{
    let kids = child_nodes(nodes, holder);
    if k < kids.len() {
        lemma_child_nodes(nodes, holder);
        let entry = kids[k];
        let next = match member(nodes, file, set, datatype, entry) {
            Some(e) => declare(acc, e),
            None => acc,
        };
        if let Some(e) = member(nodes, file, set, datatype, entry) {
            lemma_child_nodes(nodes, entry);
            let key = nth_child(nodes, entry, 0).unwrap();
            lemma_child_nodes(nodes, key);
            lemma_declare_lexical(nodes, file, acc, e);
        }
        lemma_with_members_lexical(nodes, file, holder, set, datatype, k + 1, next);
    }
}

/// Declaring the entries of a parameter pattern gives a lexical scope.
proof fn lemma_with_pattern_lexical(
    nodes: Seq<NodeView>,
    file: usize,
    lambda: usize,
    pattern: usize,
    k: int,
    acc: Seq<EntryView>,
)
    requires
        well_formed(nodes),
        lambda < nodes.len(),
        pattern < nodes.len(),
        is_lexical(nodes, file, acc),
        0 <= k,
    ensures
        is_lexical(
            nodes,
            file,
            with_pattern(nodes, file, lambda, child_nodes(nodes, pattern), k, acc),
        ),
    decreases child_nodes(nodes, pattern).len() - k,
{
    let kids = child_nodes(nodes, pattern);
    if k < kids.len() {
        lemma_child_nodes(nodes, pattern);
        let entry = kids[k];
        let next = match pattern_entry(nodes, file, lambda, entry) {
            Some(e) => declare(acc, e),
            None => acc,
        };
        if let Some(e) = pattern_entry(nodes, file, lambda, entry) {
            lemma_child_nodes(nodes, entry);
            lemma_declare_lexical(nodes, file, acc, e);
        }
        lemma_with_pattern_lexical(nodes, file, lambda, pattern, k + 1, next);
    }
}

/// What a construct brings into view are bindings in its tree.
proof fn lemma_introduce_lexical(
    nodes: Seq<NodeView>,
    file: usize,
    id: usize,
    from: Option<usize>,
    acc: Seq<EntryView>,
)
    requires
        well_formed(nodes),
        id < nodes.len(),
        is_lexical(nodes, file, acc),
    ensures
        is_lexical(nodes, file, introduce(nodes, file, id, from, acc)),
{
    lemma_child_nodes(nodes, id);
    match nodes[id as int].kind {
        Kind::LetIn | Kind::LegacyLet => {
            lemma_with_members_lexical(nodes, file, id, id, Datatype::Variable, 0, acc);
        },
        Kind::AttrSet => {
            lemma_with_members_lexical(nodes, file, id, id, Datatype::Attribute, 0, acc);
        },
        Kind::Lambda => match nth_child(nodes, id, 0) {
            Some(arg) => {
                if nodes[arg as int].kind == Kind::Ident {
                    lemma_declare_lexical(nodes, file, acc, parameter(nodes, file, id, arg));
                } else if nodes[arg as int].kind == Kind::Pattern {
                    lemma_with_pattern_lexical(nodes, file, id, arg, 0, acc);
                }
            },
            None => {},
        },
        Kind::With => match nth_child(nodes, id, 0) {
            Some(subject) => {
                lemma_with_members_lexical(nodes, file, subject, id, Datatype::Attribute, 0, acc);
            },
            None => {},
        },
        _ => {},
    }
}

/// The constructs from a place upwards bring bindings in their tree.
proof fn lemma_scope_from_lexical(
    nodes: Seq<NodeView>,
    file: usize,
    id: usize,
    from: Option<usize>,
    acc: Seq<EntryView>,
)
    requires
        well_formed(nodes),
        id < nodes.len(),
        is_lexical(nodes, file, acc),
    ensures
        is_lexical(nodes, file, scope_from(nodes, file, id, from, acc)),
    decreases id,
{
    lemma_introduce_lexical(nodes, file, id, from, acc);
    match up(nodes, id) {
        Some(p) => {
            lemma_scope_from_lexical(nodes, file, p, Some(id), introduce(nodes, file, id, from, acc));
        },
        None => {},
    }
}

/// A scope built from a file's tree holds bindings in that tree only.
pub proof fn lemma_scope_at_lexical(nodes: Seq<NodeView>, file: usize, id: usize)
    requires
        well_formed(nodes),
    ensures
        is_lexical(nodes, file, scope_at(nodes, file, id)),
{
    if id < nodes.len() {
        lemma_scope_from_lexical(nodes, file, id, None, Seq::empty());
    }
}

impl Tree {
    /// The `n`-th inner node directly inside `id`.
    pub fn nth_child(&self, id: usize, n: usize) -> (child: Option<usize>)
        requires
            id < self@.len(),
        ensures
            child == nth_child(self@, id, n as int),
            child matches Some(c) ==> id < c < self@.len(),
    {
        let kids = self.child_nodes(id);
        if n < kids.len() {
            Some(kids[n])
        } else {
            None
        }
    }

    /// Whether the attribute set `id` is a recursive one.
    pub fn is_recursive(&self, id: usize) -> (recursive: bool)
        requires
            id < self@.len(),
        ensures
            recursive == is_recursive(self@, id),
    {
        let children = self.children(id);
        let mut at: usize = 0;
        while at < children.len()
            invariant
                at <= children@.len(),
                children@ == self@[id as int].children,
                forall|k: int| 0 <= k < children@.len() ==> #[trigger] children@[k] < self@.len(),
                forall|k: int|
                    0 <= k < at ==> self@[(#[trigger] children@[k]) as int].kind != Kind::RecToken,
            decreases children.len() - at,
        {
            if self.kind(children[at]) == Kind::RecToken {
                return true;
            }
            at = at + 1;
        }
        false
    }

    /// Declares in `scope` the members of `holder`, as bound by `set`.
    pub fn declare_members(
        &self,
        file: usize,
        holder: usize,
        set: usize,
        datatype: Datatype,
        scope: &mut Scope,
    )
        requires
            holder < self@.len(),
        ensures
            final(scope)@ == with_members(
                self@,
                file,
                set,
                datatype,
                child_nodes(self@, holder),
                0,
                old(scope)@,
            ),
    {
        let kids = self.child_nodes(holder);
        let mut at: usize = 0;
        while at < kids.len()
            invariant
                at <= kids@.len(),
                forall|k: int| 0 <= k < kids@.len() ==> #[trigger] kids@[k] < self@.len(),
                with_members(self@, file, set, datatype, kids@, at as int, scope@) == with_members(
                    self@,
                    file,
                    set,
                    datatype,
                    kids@,
                    0,
                    old(scope)@,
                ),
            decreases kids.len() - at,
        {
            let entry = kids[at];
            if self.kind(entry) == Kind::KeyValue {
                match (self.nth_child(entry, 0), self.nth_child(entry, 1)) {
                    (Some(key), Some(value)) => {
                        if self.kind(key) == Kind::Key {
                            match self.nth_child(key, 0) {
                                Some(ident) => {
                                    if self.kind(ident) == Kind::Ident {
                                        let var = Var {
                                            file,
                                            set,
                                            key: ident,
                                            value: Some(value),
                                            datatype,
                                        };
                                        scope.declare(
                                            String::from_str(self.name(ident)),
                                            LSPDetails::from_scope(datatype, var),
                                        );
                                    }
                                },
                                None => {},
                            }
                        }
                    },
                    _ => {},
                }
            }
            at = at + 1;
        }
    }

    /// Declares in `scope` the entries of the parameter pattern `pattern`
    /// of the function `lambda`.
    pub fn declare_pattern(&self, file: usize, lambda: usize, pattern: usize, scope: &mut Scope)
        requires
            pattern < self@.len(),
        ensures
            final(scope)@ == with_pattern(
                self@,
                file,
                lambda,
                child_nodes(self@, pattern),
                0,
                old(scope)@,
            ),
    {
        let kids = self.child_nodes(pattern);
        let mut at: usize = 0;
        while at < kids.len()
            invariant
                at <= kids@.len(),
                forall|k: int| 0 <= k < kids@.len() ==> #[trigger] kids@[k] < self@.len(),
                with_pattern(self@, file, lambda, kids@, at as int, scope@) == with_pattern(
                    self@,
                    file,
                    lambda,
                    kids@,
                    0,
                    old(scope)@,
                ),
            decreases kids.len() - at,
        {
            let entry = kids[at];
            let kind = self.kind(entry);
            if kind == Kind::PatEntry || kind == Kind::PatBind {
                match self.nth_child(entry, 0) {
                    Some(ident) => {
                        if self.kind(ident) == Kind::Ident {
                            let var = Var {
                                file,
                                set: lambda,
                                key: ident,
                                value: None,
                                datatype: Datatype::Lambda,
                            };
                            scope.declare(
                                String::from_str(self.name(ident)),
                                LSPDetails::from_scope(Datatype::Lambda, var),
                            );
                        }
                    },
                    None => {},
                }
            }
            at = at + 1;
        }
    }

    /// Declares in `scope` the names that the construct `id` brings into
    /// view.
    pub fn introduce(&self, file: usize, id: usize, from: Option<usize>, scope: &mut Scope)
        requires
            id < self@.len(),
        ensures
            final(scope)@ == introduce(self@, file, id, from, old(scope)@),
    {
        match self.kind(id) {
            Kind::LetIn | Kind::LegacyLet => {
                self.declare_members(file, id, id, Datatype::Variable, scope);
            },
            Kind::AttrSet => {
                if self.is_recursive(id) {
                    self.declare_members(file, id, id, Datatype::Attribute, scope);
                }
            },
            Kind::Lambda => {
                match self.nth_child(id, 0) {
                    Some(arg) => {
                        let kind = self.kind(arg);
                        if kind == Kind::Ident {
                            let var = Var {
                                file,
                                set: id,
                                key: arg,
                                value: None,
                                datatype: Datatype::Lambda,
                            };
                            scope.declare(
                                String::from_str(self.name(arg)),
                                LSPDetails::from_scope(Datatype::Lambda, var),
                            );
                        } else if kind == Kind::Pattern {
                            self.declare_pattern(file, id, arg, scope);
                        }
                    },
                    None => {},
                }
            },
            Kind::With => {
                match self.nth_child(id, 0) {
                    Some(subject) => {
                        let reached_through_subject = match from {
                            Some(f) => f == subject,
                            None => false,
                        };
                        if self.kind(subject) == Kind::AttrSet && !reached_through_subject {
                            self.declare_members(file, subject, id, Datatype::Attribute, scope);
                        }
                    },
                    None => {},
                }
            },
            _ => {},
        }
    }

    /// The names visible at `id`, a place in the file `file`.
    pub fn scope_at(&self, file: usize, id: usize) -> (scope: Scope)
        ensures
            scope@ == scope_at(self@, file, id),
            is_lexical(self@, file, scope@),
    {
        proof {
            use_type_invariant(self);
            lemma_scope_at_lexical(self@, file, id);
        }
        let mut scope = Scope::new();
        if id >= self.len() {
            return scope;
        }
        let mut at = id;
        let mut from: Option<usize> = None;
        loop
            invariant
                at < self@.len(),
                is_lexical(self@, file, scope_at(self@, file, id)),
                scope_from(self@, file, at, from, scope@) == scope_at(self@, file, id),
            decreases at,
        {
            self.introduce(file, at, from, &mut scope);
            match self.parent(at) {
                Some(p) => {
                    from = Some(at);
                    at = p;
                },
                None => {
                    return scope;
                },
            }
        }
    }
}

} // verus!
