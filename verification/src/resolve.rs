//! Resolution of dotted paths: from a scope, name by name, into the
//! attribute sets that the names are bound to, across imported files.

use crate::files::{find_file, lemma_find_file, FileView, Files};
use crate::lexical::{
    is_binding, lemma_with_members_distinct, lemma_with_members_lexical, with_members,
};
use crate::scope::{distinct, lookup, text_view, visible, Datatype, EntryView, Scope};
use crate::text::same_text;
use crate::tree::{child_nodes, name_of, nth_child, well_formed, Kind, NodeView, Tree};
use vstd::prelude::*;

verus! {

/// Where a path literal starts from.
#[derive(Clone, Copy, Debug, PartialEq, Eq, Structural)]
pub enum Anchor {
    Absolute,
    Relative,
    Home,
    Store,
}

/// What a path literal written as `text` names: the path between the
/// angle brackets of a search path, the path behind the `~/` of one from
/// the home directory, else the text itself, absolute where it begins
/// with a slash. A text that opens an angle bracket and does not close
/// it names nothing.
pub open spec fn literal_value(text: Seq<char>) -> Option<(Anchor, Seq<char>)> {
    if text.len() > 0 && text[0] == '<' {
        if text.len() >= 2 && text.last() == '>' {
            Some((Anchor::Store, text.subrange(1, text.len() - 1)))
        } else {
            None
        }
    } else if text.len() >= 2 && text[0] == '~' && text[1] == '/' {
        Some((Anchor::Home, text.skip(2)))
    } else if text.len() > 0 && text[0] == '/' {
        Some((Anchor::Absolute, text))
    } else {
        Some((Anchor::Relative, text))
    }
}

/// The path that a path literal names, without where it starts from.
pub open spec fn literal_path(text: Seq<char>) -> Option<Seq<char>> {
    match literal_value(text) {
        Some((_, path)) => Some(path),
        None => None,
    }
}

/// The mathematical content of a path literal's value.
pub open spec fn value_view(value: Option<(Anchor, String)>) -> Option<(Anchor, Seq<char>)> {
    match value {
        Some((anchor, path)) => Some((anchor, path@)),
        None => None,
    }
}

/// Calls `rnix::NixValue::from_token` on the text of a path token. The
/// contract restates the branch of that function for path tokens.
#[verifier::external_body]
fn path_value(text: &str) -> (value: Option<(Anchor, String)>)
    ensures
        value_view(value) == literal_value(text@),
{
    match rnix::NixValue::from_token(rnix::SyntaxKind::TOKEN_PATH, text) {
        Ok(rnix::NixValue::Path(rnix::value::Anchor::Absolute, path)) => Some((Anchor::Absolute, path)),
        Ok(rnix::NixValue::Path(rnix::value::Anchor::Relative, path)) => Some((Anchor::Relative, path)),
        Ok(rnix::NixValue::Path(rnix::value::Anchor::Home, path)) => Some((Anchor::Home, path)),
        Ok(rnix::NixValue::Path(rnix::value::Anchor::Store, path)) => Some((Anchor::Store, path)),
        _ => None,
    }
}

/// What `reference` identifies when it is written in the file that `base`
/// identifies; `None` where the two do not make an identifier.
pub uninterp spec fn joined_uri(base: Seq<char>, reference: Seq<char>) -> Option<Seq<char>>;

/// Calls `Url::parse` on `base` and `Url::join` on the result, and hands
/// back the joined URL as text. The rules of joining are those of the URL
/// standard as the `url` crate implements them; the contract only names
/// the result.
#[verifier::external_body]
fn join_uri(base: &str, reference: &str) -> (joined: Option<String>)
    ensures
        text_view(joined) == joined_uri(base@, reference@),
{
    lsp_types::Url::parse(base).ok()?.join(reference).ok().map(String::from)
}

/// The path literal that the literal node `node` holds.
pub open spec fn path_literal(nodes: Seq<NodeView>, node: usize) -> Option<(Anchor, Seq<char>)> {
    if nodes[node as int].kind == Kind::Literal && nodes[node as int].children.len() > 0
        && nodes[nodes[node as int].children[0] as int].kind == Kind::PathToken {
        literal_value(name_of(nodes, node))
    } else {
        None
    }
}

/// A path written in a file: the stretch of text that it covers, where
/// it starts from, and the path.
#[derive(Debug)]
pub struct PathLink {
    pub start: usize,
    pub end: usize,
    pub anchor: Anchor,
    pub path: String,
}

/// The mathematical content of a path written in a file.
pub ghost struct LinkView {
    pub start: usize,
    pub end: usize,
    pub anchor: Anchor,
    pub path: Seq<char>,
}

impl View for PathLink {
    type V = LinkView;

    open spec fn view(&self) -> LinkView {
        LinkView { start: self.start, end: self.end, anchor: self.anchor, path: self.path@ }
    }
}

/// The mathematical content of each path of a list.
pub open spec fn link_views(links: Seq<PathLink>) -> Seq<LinkView> {
    Seq::new(links.len(), |i: int| links[i]@)
}

/// The path literals among the first `count` elements, in text order.
pub open spec fn path_links(nodes: Seq<NodeView>, count: int) -> Seq<LinkView>
    decreases count,
{
    if count <= 0 {
        Seq::empty()
    } else {
        let before = path_links(nodes, count - 1);
        match path_literal(nodes, (count - 1) as usize) {
            Some((anchor, path)) => before.push(
                LinkView {
                    start: nodes[count - 1].start,
                    end: nodes[count - 1].end,
                    anchor,
                    path,
                },
            ),
            None => before,
        }
    }
}

/// The path that `node` imports: `node` applies the identifier `import`
/// to a path literal.
pub open spec fn import_target(nodes: Seq<NodeView>, node: usize) -> Option<Seq<char>> {
    if nodes[node as int].kind != Kind::Apply {
        None
    } else {
        match (nth_child(nodes, node, 0), nth_child(nodes, node, 1)) {
            (Some(function), Some(argument)) => {
                if nodes[function as int].kind == Kind::Ident && name_of(nodes, function)
                    == "import"@ && nodes[argument as int].kind == Kind::Literal
                    && nodes[argument as int].children.len() > 0 && nodes[nodes[argument as int].children[0] as int].kind
                    == Kind::PathToken {
                    literal_path(name_of(nodes, argument))
                } else {
                    None
                }
            },
            _ => None,
        }
    }
}

/// The expression that a file consists of: the first inner node of the
/// tree's first element.
pub open spec fn root_expr(nodes: Seq<NodeView>) -> Option<usize> {
    if nodes.len() == 0 {
        None
    } else {
        nth_child(nodes, 0, 0)
    }
}

/// Where following imports from a node ends.
pub ghost enum ChaseView {
    At { file: usize, node: usize },
    Unknown,
    Missing { uri: Seq<char> },
}

/// Follows imports from `node` of the file `file`: while the node imports
/// a path, go on at the expression of the file that the path identifies.
/// The chase ends as `Missing` at a file that is not known, and as
/// `Unknown` where a path makes no identifier, a file has no expression,
/// or more imports were followed than there are files, which only
/// happens when files import each other in a circle.
pub open spec fn chase(files: Seq<FileView>, file: usize, node: usize, fuel: nat) -> ChaseView
    decreases fuel,
{
    if file >= files.len() || node >= files[file as int].tree.len() {
        ChaseView::Unknown
    } else {
        match import_target(files[file as int].tree, node) {
            None => ChaseView::At { file, node },
            Some(path) => match joined_uri(files[file as int].uri, path) {
                None => ChaseView::Unknown,
                Some(uri) => match find_file(files, uri, 0) {
                    None => ChaseView::Missing { uri },
                    Some(next) => match root_expr(files[next].tree) {
                        None => ChaseView::Unknown,
                        Some(root) => if fuel == 0 {
                            ChaseView::Unknown
                        } else {
                            chase(files, next as usize, root, (fuel - 1) as nat)
                        },
                    },
                },
            },
        }
    }
}

/// What is known of the members of a value.
pub ghost enum MembersView {
    Known { file: usize, scope: Seq<EntryView> },
    Unknown,
    Missing { uri: Seq<char> },
}

/// The members of the value at `node` of the file `file`. A key-value
/// pair stands for its value. Imports are followed. Where that ends at
/// an attribute set, its members are known, each bound in the file that
/// holds the set. The members of anything else are unknown.
pub open spec fn members_of(files: Seq<FileView>, file: usize, node: usize) -> MembersView {
    if file >= files.len() || node >= files[file as int].tree.len() {
        MembersView::Unknown
    } else {
        let nodes = files[file as int].tree;
        let value = if nodes[node as int].kind == Kind::KeyValue {
            nth_child(nodes, node, 1)
        } else {
            Some(node)
        };
        match value {
            None => MembersView::Unknown,
            Some(start) => match chase(files, file, start, files.len()) {
                ChaseView::At { file: home, node: set } => {
                    let tree = files[home as int].tree;
                    if tree[set as int].kind == Kind::AttrSet {
                        MembersView::Known {
                            file: home,
                            scope: with_members(
                                tree,
                                home,
                                set,
                                Datatype::Attribute,
                                child_nodes(tree, set),
                                0,
                                Seq::empty(),
                            ),
                        }
                    } else {
                        MembersView::Unknown
                    }
                },
                ChaseView::Unknown => MembersView::Unknown,
                ChaseView::Missing { uri } => MembersView::Missing { uri },
            },
        }
    }
}

/// How resolving a path ended.
pub ghost enum Outcome {
    /// Every name was resolved; this is the scope that the last one opens.
    Resolved { scope: Seq<EntryView> },
    /// A name is not visible, or what it is bound to has no known members.
    Unresolved,
    /// The file that `uri` identifies is imported and not known yet.
    Missing { uri: Seq<char> },
    /// `builtins` is reached and the table of builtins is not set yet.
    NeedBuiltins,
}

/// Resolves the names `path[i..]` from `scope`. The name `builtins`,
/// where the scope does not bind it, opens the table of builtins. Any
/// other name must be visible and bound to a value with known members,
/// which then are the scope for the next name.
pub open spec fn resolve(
    files: Seq<FileView>,
    builtins: Option<Seq<EntryView>>,
    scope: Seq<EntryView>,
    path: Seq<Seq<char>>,
    i: int,
) -> Outcome
    decreases path.len() - i,
{
    if i < 0 || i >= path.len() {
        Outcome::Resolved { scope }
    } else if path[i] == "builtins"@ && !visible(scope, path[i]) {
        match builtins {
            Some(table) => resolve(files, builtins, table, path, i + 1),
            None => Outcome::NeedBuiltins,
        }
    } else {
        match lookup(scope, path[i]) {
            None => Outcome::Unresolved,
            Some(details) => match details.var {
                None => Outcome::Unresolved,
                Some(var) => match var.value {
                    None => Outcome::Unresolved,
                    Some(value) => match members_of(files, var.file, value) {
                        MembersView::Known { file, scope: next } => resolve(
                            files,
                            builtins,
                            next,
                            path,
                            i + 1,
                        ),
                        MembersView::Unknown => Outcome::Unresolved,
                        MembersView::Missing { uri } => Outcome::Missing { uri },
                    },
                },
            },
        }
    }
}

/// A path whose first name is not visible where it starts leads nowhere:
/// nothing is made of the names after it. The one name that needs no
/// binding is `builtins`.
pub proof fn lemma_unbound_head(
    files: Seq<FileView>,
    builtins: Option<Seq<EntryView>>,
    scope: Seq<EntryView>,
    path: Seq<Seq<char>>,
)
    requires
        path.len() > 0,
        !visible(scope, path[0]),
        path[0] != "builtins"@,
    ensures
        resolve(files, builtins, scope, path, 0) == Outcome::Unresolved,
{
}

/// The path `builtins` alone, from a scope that does not bind that name,
/// leads to the table of builtins, once that is set.
pub proof fn lemma_builtins_path(
    files: Seq<FileView>,
    table: Seq<EntryView>,
    scope: Seq<EntryView>,
    path: Seq<Seq<char>>,
)
    requires
        path == seq!["builtins"@],
        !visible(scope, "builtins"@),
    ensures
        resolve(files, Some(table), scope, path, 0) == (Outcome::Resolved { scope: table }),
{
    reveal_with_fuel(resolve, 2);
}

/// No name stands twice in a scope that a path leads to, where none
/// stands twice in the scope it starts from and in the table of builtins.
pub proof fn lemma_resolved_distinct(
    files: Seq<FileView>,
    builtins: Option<Seq<EntryView>>,
    scope: Seq<EntryView>,
    path: Seq<Seq<char>>,
    i: int,
)
    requires
        distinct(scope),
        builtins matches Some(table) ==> distinct(table),
    ensures
        resolve(files, builtins, scope, path, i) matches Outcome::Resolved { scope: end }
            ==> distinct(end),
    decreases path.len() - i,
{
    if 0 <= i < path.len() {
        if path[i] == "builtins"@ && !visible(scope, path[i]) {
            if let Some(table) = builtins {
                lemma_resolved_distinct(files, builtins, table, path, i + 1);
            }
        } else if let Some(details) = lookup(scope, path[i]) {
            if let Some(var) = details.var {
                if let Some(value) = var.value {
                    if let MembersView::Known { file, scope: next } = members_of(
                        files,
                        var.file,
                        value,
                    ) {
                        let start = if files[var.file as int].tree[value as int].kind
                            == Kind::KeyValue {
                            nth_child(files[var.file as int].tree, value, 1).unwrap()
                        } else {
                            value
                        };
                        let end = chase(files, var.file, start, files.len());
                        let tree = files[end->file as int].tree;
                        lemma_with_members_distinct(
                            tree,
                            end->file,
                            end->node,
                            Datatype::Attribute,
                            child_nodes(tree, end->node),
                            0,
                            Seq::empty(),
                        );
                        lemma_resolved_distinct(files, builtins, next, path, i + 1);
                    }
                }
            }
        }
    }
}

/// Every known file's tree is well formed.
pub open spec fn trees_ok(files: Seq<FileView>) -> bool {
    forall|i: int| 0 <= i < files.len() ==> well_formed(#[trigger] files[i].tree)
}

/// Whether an entry that is a binding is one in the tree of a known
/// file: the file that it names is known, and its key is an identifier
/// of that file's tree.
pub open spec fn known_binding(files: Seq<FileView>, entry: EntryView) -> bool {
    entry.details.var matches Some(var) ==> var.file < files.len() && is_binding(
        files[var.file as int].tree,
        var.file,
        entry,
    )
}

/// Whether every binding of a scope is one in the tree of a known file.
pub open spec fn known_scope(files: Seq<FileView>, scope: Seq<EntryView>) -> bool {
    forall|i: int| 0 <= i < scope.len() ==> known_binding(files, #[trigger] scope[i])
}

/// What a path leads to is bound where it says: every binding of the
/// scope that a path is resolved to names a known file and an identifier
/// of that file's tree, also where the path went through imports, if that
/// holds of the scope that the path starts from and of the table of
/// builtins.
pub proof fn lemma_resolved_known(
    files: Seq<FileView>,
    builtins: Option<Seq<EntryView>>,
    scope: Seq<EntryView>,
    path: Seq<Seq<char>>,
    i: int,
)
    requires
        trees_ok(files),
        known_scope(files, scope),
        builtins matches Some(table) ==> known_scope(files, table),
    ensures
        resolve(files, builtins, scope, path, i) matches Outcome::Resolved { scope: end }
            ==> known_scope(files, end),
    decreases path.len() - i,
{
    if 0 <= i < path.len() {
        if path[i] == "builtins"@ && !visible(scope, path[i]) {
            if let Some(table) = builtins {
                lemma_resolved_known(files, builtins, table, path, i + 1);
            }
        } else if let Some(details) = lookup(scope, path[i]) {
            if let Some(var) = details.var {
                if let Some(value) = var.value {
                    if let MembersView::Known { file, scope: next } = members_of(
                        files,
                        var.file,
                        value,
                    ) {
                        let start = if files[var.file as int].tree[value as int].kind
                            == Kind::KeyValue {
                            nth_child(files[var.file as int].tree, value, 1).unwrap()
                        } else {
                            value
                        };
                        lemma_chase_valid(files, var.file, start, files.len());
                        let end = chase(files, var.file, start, files.len());
                        let tree = files[end->file as int].tree;
                        lemma_with_members_lexical(
                            tree,
                            end->file,
                            end->node,
                            end->node,
                            Datatype::Attribute,
                            0,
                            Seq::empty(),
                        );
                        assert(known_scope(files, next)) by {
                            assert forall|k: int| 0 <= k < next.len() implies known_binding(
                                files,
                                #[trigger] next[k],
                            ) by {
                                assert(is_binding(tree, end->file, next[k]));
                            }
                        }
                        lemma_resolved_known(files, builtins, next, path, i + 1);
                    }
                }
            }
        }
    }
}

/// Where following imports from a node ended.
pub enum Chase {
    At { file: usize, node: usize },
    Unknown,
    Missing { uri: String },
}

impl View for Chase {
    type V = ChaseView;

    open spec fn view(&self) -> ChaseView {
        match *self {
            Chase::At { file, node } => ChaseView::At { file, node },
            Chase::Unknown => ChaseView::Unknown,
            Chase::Missing { uri } => ChaseView::Missing { uri: uri@ },
        }
    }
}

/// What is known of the members of a value.
pub enum Members {
    Known { file: usize, scope: Scope },
    Unknown,
    Missing { uri: String },
}

impl View for Members {
    type V = MembersView;

    open spec fn view(&self) -> MembersView {
        match *self {
            Members::Known { file, scope } => MembersView::Known { file, scope: scope@ },
            Members::Unknown => MembersView::Unknown,
            Members::Missing { uri } => MembersView::Missing { uri: uri@ },
        }
    }
}

impl Tree {
    /// The path that `node` imports.
    pub fn import_target(&self, node: usize) -> (path: Option<String>)
        requires
            node < self@.len(),
        ensures
            text_view(path) == import_target(self@, node),
    {
        if self.kind(node) != Kind::Apply {
            return None;
        }
        match (self.nth_child(node, 0), self.nth_child(node, 1)) {
            (Some(function), Some(argument)) => {
                if self.kind(function) == Kind::Ident && same_text(self.name(function), "import")
                    && self.kind(argument) == Kind::Literal {
                    let children = self.children(argument);
                    if children.len() > 0 && self.kind(children[0]) == Kind::PathToken {
                        match path_value(self.name(argument)) {
                            Some((_, path)) => Some(path),
                            None => None,
                        }
                    } else {
                        None
                    }
                } else {
                    None
                }
            },
            _ => None,
        }
    }

    /// The path literal that the literal node `node` holds.
    pub fn path_literal(&self, node: usize) -> (value: Option<(Anchor, String)>)
        requires
            node < self@.len(),
        ensures
            value_view(value) == path_literal(self@, node),
    {
        if self.kind(node) != Kind::Literal {
            return None;
        }
        let children = self.children(node);
        if children.len() > 0 && self.kind(children[0]) == Kind::PathToken {
            path_value(self.name(node))
        } else {
            None
        }
    }

    /// The path literals of the file, in text order.
    pub fn path_literals(&self) -> (links: Vec<PathLink>)
        ensures
            link_views(links@) == path_links(self@, self@.len() as int),
    {
        let mut links: Vec<PathLink> = Vec::new();
        let mut at: usize = 0;
        proof {
            assert(link_views(links@) =~= Seq::<LinkView>::empty());
        }
        while at < self.len()
            invariant
                at <= self@.len(),
                link_views(links@) == path_links(self@, at as int),
            decreases self@.len() - at,
        {
            match self.path_literal(at) {
                Some((anchor, path)) => {
                    let ghost before = link_views(links@);
                    links.push(PathLink { start: self.start(at), end: self.end(at), anchor, path });
                    proof {
                        assert(link_views(links@) =~= before.push(links@[links@.len() - 1]@));
                    }
                },
                None => {},
            }
            at = at + 1;
        }
        links
    }

    /// The expression that the file consists of.
    pub fn root_expr(&self) -> (root: Option<usize>)
        ensures
            root == root_expr(self@),
            root matches Some(r) ==> r < self@.len(),
    {
        if self.len() == 0 {
            None
        } else {
            self.nth_child(0, 0)
        }
    }
}

impl Files {
    /// Follows imports from `node` of the file `file`.
    pub fn chase(&self, file: usize, node: usize) -> (end: Chase)
        ensures
            end@ == chase(self@, file, node, self@.len()),
    {
        let mut home = file;
        let mut at = node;
        let mut fuel = self.len();
        loop
            invariant
                chase(self@, home, at, fuel as nat) == chase(self@, file, node, self@.len()),
            decreases fuel,
        {
            if home >= self.len() {
                return Chase::Unknown;
            }
            let tree = self.tree(home);
            if at >= tree.len() {
                return Chase::Unknown;
            }
            let path = match tree.import_target(at) {
                None => {
                    return Chase::At { file: home, node: at };
                },
                Some(path) => path,
            };
            let uri = match join_uri(self.uri(home).as_str(), path.as_str()) {
                None => {
                    return Chase::Unknown;
                },
                Some(uri) => uri,
            };
            let next = match self.position(uri.as_str()) {
                None => {
                    return Chase::Missing { uri };
                },
                Some(next) => next,
            };
            let root = match self.tree(next).root_expr() {
                None => {
                    return Chase::Unknown;
                },
                Some(root) => root,
            };
            if fuel == 0 {
                return Chase::Unknown;
            }
            home = next;
            at = root;
            fuel = fuel - 1;
        }
    }

    /// The members of the value at `node` of the file `file`.
    pub fn members_of(&self, file: usize, node: usize) -> (members: Members)
        ensures
            members@ == members_of(self@, file, node),
    {
        if file >= self.len() {
            return Members::Unknown;
        }
        let tree = self.tree(file);
        if node >= tree.len() {
            return Members::Unknown;
        }
        let value = if tree.kind(node) == Kind::KeyValue {
            tree.nth_child(node, 1)
        } else {
            Some(node)
        };
        let start = match value {
            None => {
                return Members::Unknown;
            },
            Some(start) => start,
        };
        match self.chase(file, start) {
            Chase::At { file: home, node: set } => {
                proof {
                    lemma_chase_valid(self@, file, start, self@.len());
                }
                let tree = self.tree(home);
                if tree.kind(set) == Kind::AttrSet {
                    let mut scope = Scope::new();
                    tree.declare_members(home, set, set, Datatype::Attribute, &mut scope);
                    Members::Known { file: home, scope }
                } else {
                    Members::Unknown
                }
            },
            Chase::Unknown => Members::Unknown,
            Chase::Missing { uri } => Members::Missing { uri },
        }
    }
}

/// How resolving a path ended.
pub enum PathScope {
    Resolved { scope: Scope },
    Unresolved,
    Missing { uri: String },
    NeedBuiltins,
}

impl View for PathScope {
    type V = Outcome;

    open spec fn view(&self) -> Outcome {
        match *self {
            PathScope::Resolved { scope } => Outcome::Resolved { scope: scope@ },
            PathScope::Unresolved => Outcome::Unresolved,
            PathScope::Missing { uri } => Outcome::Missing { uri: uri@ },
            PathScope::NeedBuiltins => Outcome::NeedBuiltins,
        }
    }
}

/// The entries of a table that may not be set.
pub open spec fn table_view(table: Option<Scope>) -> Option<Seq<EntryView>> {
    match table {
        Some(t) => Some(t@),
        None => None,
    }
}

/// Resolves the names of `path` from `scope`.
pub fn resolve_path(files: &Files, builtins: &Option<Scope>, scope: Scope, path: &Vec<String>) -> (end:
    PathScope)
    ensures
        end@ == resolve(files@, table_view(*builtins), scope@, path.deep_view(), 0),
{
    let ghost names = path.deep_view();
    let ghost start = scope@;
    let mut current = scope;
    let mut at: usize = 0;
    while at < path.len()
        invariant
            at <= path.len(),
            names == path.deep_view(),
            start == scope@,
            resolve(files@, table_view(*builtins), current@, names, at as int) == resolve(
                files@,
                table_view(*builtins),
                start,
                names,
                0,
            ),
        decreases path.len() - at,
    {
        assert(names[at as int] == path@[at as int]@);
        let name = path[at].as_str();
        if same_text(name, "builtins") && !current.contains(name) {
            match builtins {
                Some(table) => {
                    current = table.duplicate();
                },
                None => {
                    return PathScope::NeedBuiltins;
                },
            }
        } else {
            let value = match current.get(name) {
                None => None,
                Some(details) => match details.var {
                    None => None,
                    Some(var) => match var.value {
                        None => None,
                        Some(value) => Some((var.file, value)),
                    },
                },
            };
            match value {
                None => {
                    return PathScope::Unresolved;
                },
                Some((file, node)) => match files.members_of(file, node) {
                    Members::Known { file: _, scope: next } => {
                        current = next;
                    },
                    Members::Unknown => {
                        return PathScope::Unresolved;
                    },
                    Members::Missing { uri } => {
                        return PathScope::Missing { uri };
                    },
                },
            }
        }
        at = at + 1;
    }
    PathScope::Resolved { scope: current }
}

/// A chase ends at a node of a known file.
proof fn lemma_chase_valid(files: Seq<FileView>, file: usize, node: usize, fuel: nat)
    ensures
        chase(files, file, node, fuel) matches ChaseView::At { file: home, node: end } ==> home
            < files.len() && end < files[home as int].tree.len(),
    decreases fuel,
{
    if file >= files.len() || node >= files[file as int].tree.len() {
    } else {
        match import_target(files[file as int].tree, node) {
            None => {},
            Some(path) => match joined_uri(files[file as int].uri, path) {
                None => {},
                Some(uri) => match find_file(files, uri, 0) {
                    None => {},
                    Some(next) => match root_expr(files[next].tree) {
                        None => {},
                        Some(root) => if fuel > 0 {
                            lemma_find_file(files, uri, 0);
                            lemma_chase_valid(files, next as usize, root, (fuel - 1) as nat);
                        },
                    },
                },
            },
        }
    }
}

} // verus!
