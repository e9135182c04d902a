//! The state that requests are answered from: the known files and the
//! table of builtins.

use crate::builtins::{builtin_table, lemma_fallback_has_head};
use crate::completion::{
    display_name, entry_views, next_namespace_step_completions, next_step, result_views, DocEntry,
    DocEntryView, ResultView,
};
use crate::cursor::{closest_node_to, ident_at};
use crate::files::{
    distinct_uris, find_file, lemma_find_file, loaded, opened, FileView, Files,
};
use crate::lexical::{is_binding, lemma_scope_at_lexical, scope_at};
use crate::path::{dotted_path, namespace, path_range};
use crate::rename::{edit_views, rename_edits, TextEdit};
use crate::resolve::{
    known_binding, known_scope, lemma_builtins_path, lemma_resolved_known, lemma_unbound_head,
    members_of, resolve, resolve_path, table_view, trees_ok, Members, Outcome, PathScope,
};
use crate::scope::{find, lemma_find, lookup, text_view, visible, EntryView, Scope};
use crate::text::{is_prefix, join_dots, join_names, join_parts, join_with, starts_with};
use crate::tree::{name_of, NodeView};
use vstd::prelude::*;

verus! {

/// What requests are answered from: the known files, and the table of
/// builtins once it is set.
pub struct App {
    files: Files,
    builtins: Option<Scope>,
}

/// The mathematical content of the state.
pub ghost struct AppView {
    pub files: Seq<FileView>,
    pub builtins: Option<Seq<EntryView>>,
}

impl View for App {
    type V = AppView;

    closed spec fn view(&self) -> AppView {
        AppView { files: self.files@, builtins: table_view(self.builtins) }
    }
}

/// What stands at a place, and the scope that the path before it opens.
pub struct Resolved {
    pub ident: usize,
    pub scope: Scope,
    pub name: String,
}

/// What a request for the scope at a place comes to: the scope; nothing;
/// or what has to be provided before the request is made again.
pub enum Resolution {
    Resolved(Resolved),
    Unresolved,
    Missing { uri: String },
    NeedBuiltins,
}

/// The mathematical content of what a request for a scope comes to.
pub ghost enum ResolutionView {
    Resolved { ident: usize, scope: Seq<EntryView>, name: Seq<char> },
    Unresolved,
    Missing { uri: Seq<char> },
    NeedBuiltins,
}

impl View for Resolution {
    type V = ResolutionView;

    open spec fn view(&self) -> ResolutionView {
        match *self {
            Resolution::Resolved(found) => ResolutionView::Resolved {
                ident: found.ident,
                scope: found.scope@,
                name: found.name@,
            },
            Resolution::Unresolved => ResolutionView::Unresolved,
            Resolution::Missing { uri } => ResolutionView::Missing { uri: uri@ },
            Resolution::NeedBuiltins => ResolutionView::NeedBuiltins,
        }
    }
}

/// The scope for the identifier at `offset` of the file `file`: the names
/// visible there, or, where the identifier is selected from a path, the
/// members that the path leads to.
pub open spec fn scope_for_ident(app: AppView, file: usize, offset: usize) -> ResolutionView {
    if file >= app.files.len() {
        ResolutionView::Unresolved
    } else {
        let nodes = app.files[file as int].tree;
        match ident_at(nodes, offset) {
            None => ResolutionView::Unresolved,
            Some(info) => match resolve(
                app.files,
                app.builtins,
                scope_at(nodes, file, info.ident),
                info.path,
                0,
            ) {
                Outcome::Resolved { scope } => ResolutionView::Resolved {
                    ident: info.ident,
                    scope,
                    name: info.name,
                },
                Outcome::Unresolved => ResolutionView::Unresolved,
                Outcome::Missing { uri } => ResolutionView::Missing { uri },
                Outcome::NeedBuiltins => ResolutionView::NeedBuiltins,
            },
        }
    }
}

/// Where the identifier at a place is selected from a path whose first
/// name nothing around the place binds, the request comes to nothing,
/// whatever the rest of the path is. The one name that needs no binding
/// is `builtins`.
pub proof fn lemma_unbound_head_is_unresolved(app: AppView, file: usize, offset: usize)
    requires
        file < app.files.len(),
        ident_at(app.files[file as int].tree, offset) is Some,
        ident_at(app.files[file as int].tree, offset).unwrap().path.len() > 0,
        !visible(
            scope_at(
                app.files[file as int].tree,
                file,
                ident_at(app.files[file as int].tree, offset).unwrap().ident,
            ),
            ident_at(app.files[file as int].tree, offset).unwrap().path[0],
        ),
        ident_at(app.files[file as int].tree, offset).unwrap().path[0] != "builtins"@,
    ensures
        scope_for_ident(app, file, offset) == ResolutionView::Unresolved,
{
    let nodes = app.files[file as int].tree;
    let info = ident_at(nodes, offset).unwrap();
    lemma_unbound_head(
        app.files,
        app.builtins,
        scope_at(nodes, file, info.ident),
        info.path,
    );
}

/// `builtins.head` resolves wherever nothing around the place binds
/// `builtins`, also where no interpreter answered: the request for the
/// identifier selected from `builtins` comes to the table of builtins,
/// and `head` is in the table that is made without an interpreter's
/// answers.
pub proof fn lemma_builtins_head_resolves(
    app: AppView,
    file: usize,
    offset: usize,
    answer: Option<Seq<char>>,
    dump: Option<Seq<char>>,
)
    requires
        file < app.files.len(),
        ident_at(app.files[file as int].tree, offset) is Some,
        ident_at(app.files[file as int].tree, offset).unwrap().path == seq!["builtins"@],
        !visible(
            scope_at(
                app.files[file as int].tree,
                file,
                ident_at(app.files[file as int].tree, offset).unwrap().ident,
            ),
            "builtins"@,
        ),
        answer is None || dump is None,
        app.builtins == Some(builtin_table(answer, dump)),
    ensures
        scope_for_ident(app, file, offset) == (ResolutionView::Resolved {
            ident: ident_at(app.files[file as int].tree, offset).unwrap().ident,
            scope: builtin_table(answer, dump),
            name: ident_at(app.files[file as int].tree, offset).unwrap().name,
        }),
        visible(builtin_table(answer, dump), "head"@),
{
    let nodes = app.files[file as int].tree;
    let info = ident_at(nodes, offset).unwrap();
    lemma_builtins_path(
        app.files,
        builtin_table(answer, dump),
        scope_at(nodes, file, info.ident),
        info.path,
    );
    lemma_fallback_has_head();
}

/// The definition of a name is where the name is bound, in the file that
/// binds it: where the request for the identifier at a place comes to a
/// scope that binds the identifier's name, the definition is the
/// identifier that spells the binding, in the file that the binding
/// names. For a name reached through an import that is the imported
/// file, not the one that the request was made in.
pub proof fn lemma_definition_is_where_bound(app: AppView, file: usize, offset: usize)
    requires
        file < app.files.len(),
        trees_ok(app.files),
        app.builtins matches Some(table) ==> known_scope(app.files, table),
        scope_for_ident(app, file, offset) is Resolved,
        lookup(
            scope_for_ident(app, file, offset)->Resolved_scope,
            scope_for_ident(app, file, offset)->Resolved_name,
        ) is Some,
        lookup(
            scope_for_ident(app, file, offset)->Resolved_scope,
            scope_for_ident(app, file, offset)->Resolved_name,
        )->0.var is Some,
    ensures
        ({
            let found = scope_for_ident(app, file, offset);
            let var = lookup(found->Resolved_scope, found->Resolved_name)->0.var->0;
            &&& var.file < app.files.len()
            &&& var.key < app.files[var.file as int].tree.len()
            &&& definition(app, found) == Some(
                Location {
                    file: var.file,
                    start: app.files[var.file as int].tree[var.key as int].start,
                    end: app.files[var.file as int].tree[var.key as int].end,
                },
            )
        }),
{
    let nodes = app.files[file as int].tree;
    let info = ident_at(nodes, offset).unwrap();
    let start = scope_at(nodes, file, info.ident);
    lemma_scope_at_lexical(nodes, file, info.ident);
    assert(known_scope(app.files, start)) by {
        assert forall|k: int| 0 <= k < start.len() implies known_binding(
            app.files,
            #[trigger] start[k],
        ) by {
            assert(is_binding(nodes, file, start[k]));
        }
    }
    lemma_resolved_known(app.files, app.builtins, start, info.path, 0);
    let found = scope_for_ident(app, file, offset);
    let scope = found->Resolved_scope;
    lemma_find(scope, found->Resolved_name, 0);
    let at = find(scope, found->Resolved_name, 0).unwrap();
    assert(known_binding(app.files, scope[at]));
}

/// The dotted path that is being written at `offset` of a tree, with the
/// stretch of text that it covers.
pub open spec fn typed_path(nodes: Seq<NodeView>, offset: usize) -> Option<
    ((usize, usize), Seq<Seq<char>>),
> {
    match closest_node_to(nodes, offset) {
        None => None,
        Some(node) => match dotted_path(nodes, node) {
            None => None,
            Some((at, names)) => match path_range(nodes, at) {
                None => None,
                Some(range) => Some((range, names)),
            },
        },
    }
}

/// One completion: what is shown, the stretch of text that accepting it
/// replaces, what is put there, and the documentation where there is any.
#[derive(Debug)]
pub struct CompletionItem {
    pub label: String,
    pub start: usize,
    pub end: usize,
    pub new_text: String,
    pub documentation: Option<String>,
}

/// The mathematical content of a completion.
pub ghost struct ItemView {
    pub label: Seq<char>,
    pub start: usize,
    pub end: usize,
    pub new_text: Seq<char>,
    pub documentation: Option<Seq<char>>,
}

impl View for CompletionItem {
    type V = ItemView;

    open spec fn view(&self) -> ItemView {
        ItemView {
            label: self.label@,
            start: self.start,
            end: self.end,
            new_text: self.new_text@,
            documentation: text_view(self.documentation),
        }
    }
}

/// The mathematical content of each completion of a list.
pub open spec fn item_views(items: Seq<CompletionItem>) -> Seq<ItemView> {
    Seq::new(items.len(), |i: int| items[i]@)
}

/// The completion that offers `result` in place of the text `range`.
pub open spec fn item_for(result: ResultView, range: (usize, usize)) -> ItemView {
    ItemView {
        label: display_name(result),
        start: range.0,
        end: range.1,
        new_text: display_name(result),
        documentation: match result {
            ResultView::Leaf(entry) => Some(entry.documentation),
            ResultView::Group(_) => None,
        },
    }
}

/// The completions that offer each of `results` in place of the text
/// `range`.
pub open spec fn items_for(results: Seq<ResultView>, range: (usize, usize)) -> Seq<ItemView> {
    Seq::new(results.len(), |i: int| item_for(results[i], range))
}

/// The completions from the documentation index for the path written at
/// `offset`, given what the index returned for that path.
pub open spec fn value_completions(
    app: AppView,
    file: usize,
    offset: usize,
    found: Seq<DocEntryView>,
) -> Option<Seq<ItemView>> {
    if file >= app.files.len() {
        None
    } else {
        match typed_path(app.files[file as int].tree, offset) {
            None => None,
            Some((range, names)) => Some(items_for(next_step(found, names), range)),
        }
    }
}

/// The completions for the entries of `scope` whose names begin with
/// `prefix`, in the order of the scope; each replaces the text `range`.
pub open spec fn prefixed(scope: Seq<EntryView>, prefix: Seq<char>, range: (usize, usize)) -> Seq<
    ItemView,
>
    decreases scope.len(),
{
    if scope.len() == 0 {
        Seq::empty()
    } else {
        let before = prefixed(scope.drop_last(), prefix, range);
        let name = scope.last().name;
        if is_prefix(prefix, name) {
            before.push(
                ItemView {
                    label: name,
                    start: range.0,
                    end: range.1,
                    new_text: name,
                    documentation: None,
                },
            )
        } else {
            before
        }
    }
}

/// The completions from the scope that `found` holds: the names that
/// begin with what is written of the identifier, each to replace the
/// identifier.
pub open spec fn scope_items(app: AppView, file: usize, found: ResolutionView) -> Option<
    Seq<ItemView>,
> {
    match found {
        ResolutionView::Resolved { ident, scope, name } => if file < app.files.len() && ident
            < app.files[file as int].tree.len() {
            let nodes = app.files[file as int].tree;
            Some(prefixed(scope, name, (nodes[ident as int].start, nodes[ident as int].end)))
        } else {
            None
        },
        _ => None,
    }
}

/// The identifier to ask the documentation index for at `offset`.
pub open spec fn hover_name(nodes: Seq<NodeView>, offset: usize) -> Option<Seq<char>> {
    match ident_at(nodes, offset) {
        Some(info) => Some(name_of(nodes, info.ident)),
        None => None,
    }
}

/// The documentation of each entry.
pub open spec fn documentations(entries: Seq<DocEntryView>) -> Seq<Seq<char>> {
    Seq::new(entries.len(), |i: int| entries[i].documentation)
}

/// A place in a file, by the offsets of its bytes.
#[derive(Clone, Copy, Debug, PartialEq, Eq)]
pub struct Location {
    pub file: usize,
    pub start: usize,
    pub end: usize,
}

/// Where the name that `found` stands on is defined: the identifier that
/// binds it, in the file that holds the binding.
pub open spec fn definition(app: AppView, found: ResolutionView) -> Option<Location> {
    match found {
        ResolutionView::Resolved { ident, scope, name } => match lookup(scope, name) {
            None => None,
            Some(details) => match details.var {
                None => None,
                Some(var) => if var.file < app.files.len() && var.key < app.files[var.file as int].tree.len() {
                    let nodes = app.files[var.file as int].tree;
                    Some(
                        Location {
                            file: var.file,
                            start: nodes[var.key as int].start,
                            end: nodes[var.key as int].end,
                        },
                    )
                } else {
                    None
                },
            },
        },
        _ => None,
    }
}

impl App {
    /// A state with no file known and the table of builtins not set.
    pub fn new() -> (app: App)
        ensures
            app@ == (AppView { files: Seq::empty(), builtins: None }),
    {
        App { files: Files::new(), builtins: None }
    }

    /// The known files.
    pub fn files(&self) -> (files: &Files)
        ensures
            files@ == self@.files,
            distinct_uris(files@),
    {
        proof {
            use_type_invariant(&self.files);
        }
        &self.files
    }

    /// The table of builtins, once it is set.
    pub fn builtins(&self) -> (table: &Option<Scope>)
        ensures
            table_view(*table) == self@.builtins,
    {
        &self.builtins
    }

    /// Opens a file with its text, as an editor does that shows or
    /// changes it.
    pub fn open_file(&mut self, uri: String, text: String) -> (file: usize)
        ensures
            final(self)@ == (AppView { files: opened(old(self)@.files, uri@, text@), ..old(self)@ }),
            find_file(final(self)@.files, uri@, 0) == Some(file as int),
            file < final(self)@.files.len(),
            final(self)@.files[file as int].uri == uri@,
            distinct_uris(final(self)@.files),
    {
        let file = self.files.open(uri, text);
        proof {
            lemma_find_file(self.files@, uri@, 0);
        }
        file
    }

    /// Loads a file that another one imports. A file that is known
    /// already stays as it is.
    pub fn load_file(&mut self, uri: String, text: String) -> (file: usize)
        ensures
            final(self)@ == (AppView { files: loaded(old(self)@.files, uri@, text@), ..old(self)@ }),
            find_file(final(self)@.files, uri@, 0) == Some(file as int),
            file < final(self)@.files.len(),
            final(self)@.files[file as int].uri == uri@,
            distinct_uris(final(self)@.files),
    {
        let file = self.files.load(uri, text);
        proof {
            lemma_find_file(self.files@, uri@, 0);
        }
        file
    }

    /// Sets the table of builtins. It is set once: a table that is set
    /// already stays.
    pub fn install_builtins(&mut self, table: Scope)
        ensures
            final(self)@ == (AppView {
                builtins: match old(self)@.builtins {
                    Some(b) => Some(b),
                    None => Some(table@),
                },
                ..old(self)@
            }),
    {
        if self.builtins.is_none() {
            self.builtins = Some(table);
        }
    }

    /// The scope for the identifier at `offset` of the file `file`.
    pub fn scope_for_ident(&self, file: usize, offset: usize) -> (found: Resolution)
        ensures
            found@ == scope_for_ident(self@, file, offset),
    {
        if file >= self.files.len() {
            return Resolution::Unresolved;
        }
        let tree = self.files.tree(file);
        let info = match tree.ident_at(offset) {
            None => {
                return Resolution::Unresolved;
            },
            Some(info) => info,
        };
        let scope = tree.scope_at(file, info.ident);
        match resolve_path(&self.files, &self.builtins, scope, &info.path) {
            PathScope::Resolved { scope } => Resolution::Resolved(
                Resolved { ident: info.ident, scope, name: info.name },
            ),
            PathScope::Unresolved => Resolution::Unresolved,
            PathScope::Missing { uri } => Resolution::Missing { uri },
            PathScope::NeedBuiltins => Resolution::NeedBuiltins,
        }
    }

    /// The members of the value at `node` of the file `file`.
    pub fn scope_from_node(&self, file: usize, node: usize) -> (members: Members)
        ensures
            members@ == members_of(self@.files, file, node),
    {
        self.files.members_of(file, node)
    }

    /// The dotted path at `node` of the file `file`: the element that
    /// spells it, and its names.
    pub fn full_ident_name(&self, file: usize, node: usize) -> (path: Option<(usize, Vec<String>)>)
        ensures
            match path {
                Some((at, names)) => file < self@.files.len() && dotted_path(
                    self@.files[file as int].tree,
                    node,
                ) == Some((at, names.deep_view())),
                None => file >= self@.files.len() || dotted_path(
                    self@.files[file as int].tree,
                    node,
                ) is None,
            },
    {
        if file >= self.files.len() {
            return None;
        }
        self.files.tree(file).dotted_path(node)
    }

    /// The namespace of `node` of the file `file`; empty for a node that
    /// the file does not have.
    pub fn namespace_for_node(&self, file: usize, node: usize) -> (names: Vec<String>)
        ensures
            names.deep_view() == if file < self@.files.len() && node
                < self@.files[file as int].tree.len() {
                namespace(self@.files[file as int].tree, node)
            } else {
                Seq::empty()
            },
    {
        if file < self.files.len() && node < self.files.tree(file).len() {
            self.files.tree(file).namespace(node)
        } else {
            let names: Vec<String> = Vec::new();
            proof {
                assert(names.deep_view() =~= Seq::<Seq<char>>::empty());
            }
            names
        }
    }

    /// The dotted path that is being written at `offset`, with the
    /// stretch of text that it covers.
    pub fn typed_path(&self, file: usize, offset: usize) -> (path: Option<
        ((usize, usize), Vec<String>),
    >)
        ensures
            match path {
                Some((range, names)) => file < self@.files.len() && typed_path(
                    self@.files[file as int].tree,
                    offset,
                ) == Some((range, names.deep_view())),
                None => file >= self@.files.len() || typed_path(
                    self@.files[file as int].tree,
                    offset,
                ) is None,
            },
    {
        if file >= self.files.len() {
            return None;
        }
        let tree = self.files.tree(file);
        let node = match tree.closest_node_to(offset) {
            None => {
                return None;
            },
            Some(node) => node,
        };
        let (at, names) = match tree.dotted_path(node) {
            None => {
                return None;
            },
            Some(path) => path,
        };
        match tree.path_range(at) {
            None => None,
            Some(range) => Some((range, names)),
        }
    }

    /// What to ask the documentation index for at `offset`: the path that
    /// is being written there, its names joined with dots. The path is
    /// taken as it is written: a name that a `with` around the place
    /// brings into view is not put in front of it.
    pub fn completion_query(&self, file: usize, offset: usize) -> (query: Option<String>)
        ensures
            match query {
                Some(q) => file < self@.files.len() && (typed_path(
                    self@.files[file as int].tree,
                    offset,
                ) matches Some((_, names)) && q@ == join_dots(names)),
                None => file >= self@.files.len() || typed_path(
                    self@.files[file as int].tree,
                    offset,
                ) is None,
            },
    {
        match self.typed_path(file, offset) {
            Some((_, names)) => Some(join_names(&names)),
            None => None,
        }
    }

    /// The completions from the documentation index for the path written
    /// at `offset`; `search_results` is what the index returned for
    /// `completion_query`. `None` where no path is being written there.
    pub fn manix_value_completions(
        &self,
        file: usize,
        offset: usize,
        search_results: Vec<DocEntry>,
    ) -> (items: Option<Vec<CompletionItem>>)
        ensures
            match items {
                Some(list) => value_completions(self@, file, offset, entry_views(search_results@))
                    == Some(item_views(list@)),
                None => value_completions(self@, file, offset, entry_views(search_results@))
                    is None,
            },
    {
        let (range, names) = match self.typed_path(file, offset) {
            None => {
                return None;
            },
            Some(path) => path,
        };
        let ghost query = names.deep_view();
        let (_, results) = next_namespace_step_completions(names, search_results);
        let ghost wanted = items_for(next_step(entry_views(search_results@), query), range);
        let mut items: Vec<CompletionItem> = Vec::new();
        let mut at: usize = 0;
        while at < results.len()
            invariant
                at <= results.len(),
                wanted == items_for(result_views(results@), range),
                items@.len() == at,
                forall|i: int| 0 <= i < at ==> (#[trigger] items@[i])@ == wanted[i],
            decreases results.len() - at,
        {
            let result = &results[at];
            assert(result_views(results@)[at as int] == result@);
            let documentation = match result.try_as_doc_entry() {
                Some(entry) => Some(entry.documentation.clone()),
                None => None,
            };
            items.push(
                CompletionItem {
                    label: result.name(),
                    start: range.0,
                    end: range.1,
                    new_text: result.name(),
                    documentation,
                },
            );
            at = at + 1;
        }
        proof {
            assert(item_views(items@) =~= wanted);
        }
        Some(items)
    }

    /// The completions at `offset`: those from the documentation index,
    /// and none where no path is being written there.
    pub fn completions(&self, file: usize, offset: usize, search_results: Vec<DocEntry>) -> (items:
        Option<Vec<CompletionItem>>)
        ensures
            items matches Some(list) && item_views(list@) == (match value_completions(
                self@,
                file,
                offset,
                entry_views(search_results@),
            ) {
                Some(found) => found,
                None => Seq::empty(),
            }),
    {
        match self.manix_value_completions(file, offset, search_results) {
            Some(items) => Some(items),
            None => {
                let items: Vec<CompletionItem> = Vec::new();
                proof {
                    assert(item_views(items@) =~= Seq::<ItemView>::empty());
                }
                Some(items)
            },
        }
    }

    /// Where the name that `found` stands on is defined.
    pub fn lookup_definition(&self, found: &Resolution) -> (place: Option<Location>)
        ensures
            place == definition(self@, found@),
    {
        match found {
            Resolution::Resolved(found) => match found.scope.get(found.name.as_str()) {
                None => None,
                Some(details) => match details.var {
                    None => None,
                    Some(var) => {
                        if var.file < self.files.len() && var.key < self.files.tree(var.file).len() {
                            let tree = self.files.tree(var.file);
                            Some(
                                Location {
                                    file: var.file,
                                    start: tree.start(var.key),
                                    end: tree.end(var.key),
                                },
                            )
                        } else {
                            None
                        }
                    },
                },
            },
            _ => None,
        }
    }

    /// The edits that rename what the identifier at `offset` of the file
    /// `file` stands for, all of them in that file.
    pub fn rename(&self, file: usize, offset: usize, new_name: &str) -> (edits: Option<
        Vec<TextEdit>,
    >)
        ensures
            match edits {
                Some(e) => file < self@.files.len() && rename_edits(
                    self@.files[file as int].tree,
                    offset,
                    new_name@,
                ) == Some(edit_views(e@)),
                None => file >= self@.files.len() || rename_edits(
                    self@.files[file as int].tree,
                    offset,
                    new_name@,
                ) is None,
            },
    {
        if file >= self.files.len() {
            return None;
        }
        self.files.tree(file).rename(offset, new_name)
    }

    /// The completions from the scope that `found` holds, for the
    /// identifier in the file `file` that `found` was resolved for.
    pub fn scope_completions(&self, file: usize, found: &Resolution) -> (items: Option<
        Vec<CompletionItem>,
    >)
        ensures
            match items {
                Some(list) => scope_items(self@, file, found@) == Some(item_views(list@)),
                None => scope_items(self@, file, found@) is None,
            },
    {
        let found = match found {
            Resolution::Resolved(found) => found,
            _ => {
                return None;
            },
        };
        if file >= self.files.len() || found.ident >= self.files.tree(file).len() {
            return None;
        }
        let tree = self.files.tree(file);
        let range = (tree.start(found.ident), tree.end(found.ident));
        let ghost scope = found.scope@;
        let mut items: Vec<CompletionItem> = Vec::new();
        let mut at: usize = 0;
        proof {
            assert(scope.take(0) =~= Seq::<EntryView>::empty());
            assert(item_views(items@) =~= Seq::<ItemView>::empty());
        }
        while at < found.scope.len()
            invariant
                at <= scope.len(),
                scope == found.scope@,
                item_views(items@) == prefixed(scope.take(at as int), found.name@, range),
            decreases scope.len() - at,
        {
            proof {
                assert(scope.take(at as int + 1).drop_last() =~= scope.take(at as int));
            }
            let entry = found.scope.entry(at);
            if starts_with(entry.name.as_str(), found.name.as_str()) {
                let ghost before = item_views(items@);
                items.push(
                    CompletionItem {
                        label: entry.name.clone(),
                        start: range.0,
                        end: range.1,
                        new_text: entry.name.clone(),
                        documentation: None,
                    },
                );
                proof {
                    assert(item_views(items@) =~= before.push(items@[items@.len() - 1]@));
                }
            }
            at = at + 1;
        }
        proof {
            assert(scope.take(at as int) =~= scope);
        }
        Some(items)
    }

    /// The identifier to ask the documentation index for at `offset`.
    pub fn documentation_query(&self, file: usize, offset: usize) -> (name: Option<String>)
        ensures
            match name {
                Some(n) => file < self@.files.len() && hover_name(
                    self@.files[file as int].tree,
                    offset,
                ) == Some(n@),
                None => file >= self@.files.len() || hover_name(
                    self@.files[file as int].tree,
                    offset,
                ) is None,
            },
    {
        if file >= self.files.len() {
            return None;
        }
        let tree = self.files.tree(file);
        match tree.ident_at(offset) {
            Some(info) => Some(String::from_str(tree.name(info.ident))),
            None => None,
        }
    }

    /// The documentation to show: that of each of `definitions`, one
    /// below the other.
    pub fn documentation(&self, definitions: &Vec<DocEntry>) -> (text: String)
        ensures
            text@ == join_with(documentations(entry_views(definitions@)), "\n"@),
    {
        let mut parts: Vec<String> = Vec::new();
        let mut at: usize = 0;
        while at < definitions.len()
            invariant
                at <= definitions.len(),
                parts.deep_view() == documentations(entry_views(definitions@)).take(at as int),
            decreases definitions.len() - at,
        {
            let ghost before = parts.deep_view();
            parts.push(definitions[at].documentation.clone());
            proof {
                assert(parts.deep_view() =~= before.push(definitions@[at as int].documentation@));
                assert(parts.deep_view() =~= documentations(entry_views(definitions@)).take(
                    at as int + 1,
                ));
            }
            at = at + 1;
        }
        proof {
            assert(documentations(entry_views(definitions@)).take(at as int) =~= documentations(
                entry_views(definitions@),
            ));
        }
        join_parts(&parts, "\n")
    }
}

} // verus!
