//! Scopes: the names visible at a place, each with what is known of it.

use crate::text::same_text;
use vstd::prelude::*;

verus! {

/// How a name came to be bound.
#[derive(Clone, Copy, Debug, PartialEq, Eq, Structural)]
pub enum Datatype {
    Lambda,
    Variable,
    Attribute,
}

/// The word for a way of binding.
pub open spec fn datatype_name(datatype: Datatype) -> Seq<char> {
    match datatype {
        Datatype::Lambda => "Lambda"@,
        Datatype::Variable => "Variable"@,
        Datatype::Attribute => "Attribute"@,
    }
}

impl Datatype {
    /// The word for this way of binding.
    pub fn name(&self) -> (name: String)
        ensures
            name@ == datatype_name(*self),
    {
        match self {
            Datatype::Lambda => String::from_str("Lambda"),
            Datatype::Variable => String::from_str("Variable"),
            Datatype::Attribute => String::from_str("Attribute"),
        }
    }
}

/// A binding in a file's tree: the file, the construct that introduces
/// the name (`set`), the identifier that spells it (`key`), and the node
/// of its value where it has one.
#[derive(Clone, Copy, Debug, PartialEq, Eq)]
pub struct Var {
    pub file: usize,
    pub set: usize,
    pub key: usize,
    pub value: Option<usize>,
    pub datatype: Datatype,
}

/// What is known of a visible name.
#[derive(Debug)]
pub struct LSPDetails {
    pub datatype: Datatype,
    pub var: Option<Var>,
    pub documentation: Option<String>,
    pub deprecated: bool,
    pub params: Option<String>,
}

/// The mathematical content of what is known of a name.
pub ghost struct DetailsView {
    pub datatype: Datatype,
    pub var: Option<Var>,
    pub documentation: Option<Seq<char>>,
    pub deprecated: bool,
    pub params: Option<Seq<char>>,
}

/// The characters of a text that may be missing.
pub open spec fn text_view(text: Option<String>) -> Option<Seq<char>> {
    match text {
        Some(t) => Some(t@),
        None => None,
    }
}

impl View for LSPDetails {
    type V = DetailsView;

    open spec fn view(&self) -> DetailsView {
        DetailsView {
            datatype: self.datatype,
            var: self.var,
            documentation: text_view(self.documentation),
            deprecated: self.deprecated,
            params: text_view(self.params),
        }
    }
}

/// What is known of a builtin when the interpreter told nothing.
pub open spec fn fallback_details() -> DetailsView {
    DetailsView {
        datatype: Datatype::Lambda,
        var: None,
        documentation: None,
        deprecated: false,
        params: None,
    }
}

/// What is known of a name bound in a file.
pub open spec fn scope_details(datatype: Datatype, var: Var) -> DetailsView {
    DetailsView { datatype, var: Some(var), documentation: None, deprecated: false, params: None }
}

/// The line that describes a name: its way of binding, and for a function
/// with known parameters its signature.
pub open spec fn rendered(details: DetailsView) -> Seq<char> {
    match details.params {
        None => datatype_name(details.datatype),
        Some(params) => datatype_name(details.datatype) + ": "@ + params + " -> Result"@,
    }
}

/// A copy of a text that may be missing.
pub fn copy_text(text: &Option<String>) -> (copy: Option<String>)
    ensures
        text_view(copy) == text_view(*text),
{
    match text {
        Some(t) => Some(t.clone()),
        None => None,
    }
}

impl LSPDetails {
    /// What is known of a builtin when the interpreter told nothing.
    pub fn builtin_fallback() -> (details: LSPDetails)
        ensures
            details@ == fallback_details(),
    {
        LSPDetails {
            datatype: Datatype::Lambda,
            var: None,
            documentation: None,
            deprecated: false,
            params: None,
        }
    }

    /// What is known of a builtin that the interpreter has told of.
    pub fn builtin_with_doc(deprecated: bool, params: Option<String>, documentation: String) -> (details:
        LSPDetails)
        ensures
            details@ == (DetailsView {
                datatype: Datatype::Lambda,
                var: None,
                documentation: Some(documentation@),
                deprecated,
                params: text_view(params),
            }),
    {
        LSPDetails {
            datatype: Datatype::Lambda,
            var: None,
            documentation: Some(documentation),
            deprecated,
            params,
        }
    }

    /// What is known of a name bound in a file.
    pub fn from_scope(datatype: Datatype, var: Var) -> (details: LSPDetails)
        ensures
            details@ == scope_details(datatype, var),
    {
        LSPDetails { datatype, var: Some(var), documentation: None, deprecated: false, params: None }
    }

    /// The line that describes the name.
    pub fn render_detail(&self) -> (line: String)
        ensures
            line@ == rendered(self@),
    {
        match &self.params {
            None => self.datatype.name(),
            Some(params) => {
                let mut line = self.datatype.name();
                line.append(": ");
                line.append(params.as_str());
                line.append(" -> Result");
                line
            },
        }
    }

    /// A copy with the same content.
    pub fn duplicate(&self) -> (copy: LSPDetails)
        ensures
            copy@ == self@,
    {
        LSPDetails {
            datatype: self.datatype,
            var: self.var,
            documentation: copy_text(&self.documentation),
            deprecated: self.deprecated,
            params: copy_text(&self.params),
        }
    }
}

/// A name with what is known of it.
#[derive(Debug)]
pub struct Entry {
    pub name: String,
    pub details: LSPDetails,
}

/// The mathematical content of an entry.
pub ghost struct EntryView {
    pub name: Seq<char>,
    pub details: DetailsView,
}

impl View for Entry {
    type V = EntryView;

    open spec fn view(&self) -> EntryView {
        EntryView { name: self.name@, details: self.details@ }
    }
}

/// The place of the first entry named `name` at or after `k`.
pub open spec fn find(scope: Seq<EntryView>, name: Seq<char>, k: int) -> Option<int>
    decreases scope.len() - k,
{
    if k < 0 || k >= scope.len() {
        None
    } else if scope[k].name == name {
        Some(k)
    } else {
        find(scope, name, k + 1)
    }
}

/// Whether `name` is visible in `scope`.
pub open spec fn visible(scope: Seq<EntryView>, name: Seq<char>) -> bool {
    find(scope, name, 0) is Some
}

/// What `scope` knows of `name`.
pub open spec fn lookup(scope: Seq<EntryView>, name: Seq<char>) -> Option<DetailsView> {
    match find(scope, name, 0) {
        Some(k) => Some(scope[k].details),
        None => None,
    }
}

/// `scope` after `entry` was declared in it: a name that is already
/// visible keeps what it stands for.
pub open spec fn declare(scope: Seq<EntryView>, entry: EntryView) -> Seq<EntryView> {
    if visible(scope, entry.name) {
        scope
    } else {
        scope.push(entry)
    }
}

/// No name stands twice.
pub open spec fn distinct(scope: Seq<EntryView>) -> bool {
    forall|i: int, j: int|
        0 <= i < j < scope.len() ==> (#[trigger] scope[i]).name != (#[trigger] scope[j]).name
}

/// What `find` returns is the first entry of that name, and there is none
/// where it returns nothing.
pub proof fn lemma_find(scope: Seq<EntryView>, name: Seq<char>, k: int)
    requires
        0 <= k,
    ensures
        match find(scope, name, k) {
            Some(at) => k <= at < scope.len() && scope[at].name == name && forall|j: int|
                k <= j < at ==> (#[trigger] scope[j]).name != name,
            None => forall|j: int| k <= j < scope.len() ==> (#[trigger] scope[j]).name != name,
        },
    decreases scope.len() - k,
{
    if k < scope.len() && scope[k].name != name {
        lemma_find(scope, name, k + 1);
    }
}

/// Declaring keeps what every visible name stands for, makes the
/// declared name visible, and changes nothing for any other name.
pub proof fn lemma_declare_lookup(scope: Seq<EntryView>, entry: EntryView)
    ensures
        visible(declare(scope, entry), entry.name),
        forall|name: Seq<char>|
            visible(scope, name) ==> lookup(declare(scope, entry), name) == lookup(scope, name),
        !visible(scope, entry.name) ==> lookup(declare(scope, entry), entry.name) == Some(
            entry.details,
        ),
        forall|name: Seq<char>|
            name != entry.name ==> lookup(declare(scope, entry), name) == lookup(scope, name),
{
    let after = declare(scope, entry);
    lemma_find(scope, entry.name, 0);
    lemma_find(after, entry.name, 0);
    if !visible(scope, entry.name) {
        assert(after[scope.len() as int] == entry);
    }
    assert forall|name: Seq<char>| visible(scope, name) implies lookup(after, name) == lookup(
        scope,
        name,
    ) by {
        lemma_find(scope, name, 0);
        lemma_find(after, name, 0);
        let at = find(scope, name, 0).unwrap();
        assert(after[at] == scope[at]);
    }
    assert forall|name: Seq<char>| name != entry.name implies lookup(after, name) == lookup(
        scope,
        name,
    ) by {
        lemma_find(scope, name, 0);
        lemma_find(after, name, 0);
        if visible(after, name) {
            let at = find(after, name, 0).unwrap();
            assert(after[at] == scope[at]);
        }
        if visible(scope, name) {
            let at = find(scope, name, 0).unwrap();
            assert(after[at] == scope[at]);
        }
    }
}

/// Declaring keeps names distinct, keeps every entry that stood, and
/// makes the declared name visible.
pub proof fn lemma_declare(scope: Seq<EntryView>, entry: EntryView)
    requires
        distinct(scope),
    ensures
        distinct(declare(scope, entry)),
        visible(declare(scope, entry), entry.name),
        forall|name: Seq<char>|
            visible(scope, name) ==> lookup(declare(scope, entry), name) == lookup(scope, name),
        !visible(scope, entry.name) ==> lookup(declare(scope, entry), entry.name) == Some(
            entry.details,
        ),
        forall|name: Seq<char>|
            name != entry.name ==> visible(declare(scope, entry), name) == visible(scope, name),
{
    lemma_declare_lookup(scope, entry);
    lemma_find(scope, entry.name, 0);
    assert forall|name: Seq<char>| name != entry.name implies visible(
        declare(scope, entry),
        name,
    ) == visible(scope, name) by {
        assert(lookup(declare(scope, entry), name) == lookup(scope, name));
    }
}

/// In a list of distinct names, no entry's name is visible among the
/// entries before it.
pub proof fn lemma_new_name(scope: Seq<EntryView>, i: int)
    requires
        distinct(scope),
        0 <= i < scope.len(),
    ensures
        !visible(scope.take(i), scope[i].name),
        declare(scope.take(i), scope[i]) == scope.take(i + 1),
{
    let before = scope.take(i);
    lemma_find(before, scope[i].name, 0);
    if visible(before, scope[i].name) {
        let at = find(before, scope[i].name, 0).unwrap();
        assert(before[at] == scope[at]);
    }
    assert(before.push(scope[i]) =~= scope.take(i + 1));
}

/// The names visible at a place, each with what is known of it. No name
/// stands twice.
pub struct Scope {
    entries: Vec<Entry>,
}

impl View for Scope {
    type V = Seq<EntryView>;

    closed spec fn view(&self) -> Seq<EntryView> {
        Seq::new(self.entries@.len(), |i: int| self.entries@[i]@)
    }
}

impl Scope {
    /// What holds of every scope.
    #[verifier::type_invariant]
    pub open spec fn inv(self) -> bool {
        distinct(self@)
    }

    /// A scope in which nothing is visible.
    pub fn new() -> (scope: Scope)
        ensures
            scope@ == Seq::<EntryView>::empty(),
    {
        let scope = Scope { entries: Vec::new() };
        proof {
            assert(scope@ =~= Seq::<EntryView>::empty());
        }
        scope
    }

    /// The number of visible names.
    pub fn len(&self) -> (n: usize)
        ensures
            n == self@.len(),
    {
        self.entries.len()
    }

    /// The `i`-th entry, in the order of declaration.
    pub fn entry(&self, i: usize) -> (entry: &Entry)
        requires
            i < self@.len(),
        ensures
            entry@ == self@[i as int],
    {
        &self.entries[i]
    }

    /// The place of `name`, where it is visible.
    pub fn position(&self, name: &str) -> (at: Option<usize>)
        ensures
            match at {
                Some(k) => find(self@, name@, 0) == Some(k as int) && k < self@.len(),
                None => find(self@, name@, 0) is None,
            },
    {
        let mut at: usize = 0;
        while at < self.entries.len()
            invariant
                at <= self@.len(),
                self@.len() == self.entries@.len(),
                find(self@, name@, at as int) == find(self@, name@, 0),
            decreases self.entries.len() - at,
        {
            assert(self@[at as int] == self.entries@[at as int]@);
            if same_text(self.entries[at].name.as_str(), name) {
                return Some(at);
            }
            at = at + 1;
        }
        None
    }

    /// Whether `name` is visible.
    pub fn contains(&self, name: &str) -> (found: bool)
        ensures
            found == visible(self@, name@),
    {
        self.position(name).is_some()
    }

    /// What the scope knows of `name`.
    pub fn get(&self, name: &str) -> (details: Option<&LSPDetails>)
        ensures
            match details {
                Some(d) => lookup(self@, name@) == Some(d@),
                None => lookup(self@, name@) is None,
            },
    {
        match self.position(name) {
            Some(at) => {
                assert(self@[at as int] == self.entries@[at as int]@);
                Some(&self.entries[at].details)
            },
            None => None,
        }
    }

    /// A copy with the same entries.
    pub fn duplicate(&self) -> (copy: Scope)
        ensures
            copy@ == self@,
    {
        let mut copy = Scope::new();
        let mut at: usize = 0;
        proof {
            use_type_invariant(self);
            assert(self@.take(0) =~= Seq::<EntryView>::empty());
        }
        while at < self.entries.len()
            invariant
                at <= self@.len(),
                self@.len() == self.entries@.len(),
                distinct(self@),
                copy@ == self@.take(at as int),
            decreases self.entries.len() - at,
        {
            proof {
                assert(self@[at as int] == self.entries@[at as int]@);
                lemma_new_name(self@, at as int);
            }
            let entry = &self.entries[at];
            copy.declare(entry.name.clone(), entry.details.duplicate());
            at = at + 1;
        }
        proof {
            assert(self@.take(at as int) =~= self@);
        }
        copy
    }

    /// Declares `name`, unless it is visible already.
    pub fn declare(&mut self, name: String, details: LSPDetails)
        ensures
            final(self)@ == declare(old(self)@, EntryView { name: name@, details: details@ }),
    {
        proof {
            use_type_invariant(&*self);
            lemma_declare(self@, EntryView { name: name@, details: details@ });
        }
        if !self.contains(name.as_str()) {
            let ghost before = self@;
            let mut entries: Vec<Entry> = Vec::new();
            std::mem::swap(&mut entries, &mut self.entries);
            entries.push(Entry { name, details });
            proof {
                let after = Seq::new(entries@.len(), |i: int| entries@[i]@);
                assert(after =~= before.push(EntryView { name: name@, details: details@ }));
            }
            self.entries = entries;
            proof {
                assert(self@ =~= before.push(EntryView { name: name@, details: details@ }));
            }
        }
    }
}

} // verus!
