//! The builtins of the language: what is known of them without asking an
//! interpreter, and what an interpreter's answers add.

use crate::json::{json_value, read_json, Json, JsonView};
use crate::scope::{
    declare, distinct, fallback_details, lemma_declare, visible, Datatype, DetailsView, EntryView,
    LSPDetails, Scope,
};
use crate::text::{chars_of, is_prefix, join_parts, join_with, same_text, starts_with};
use vstd::prelude::*;

verus! {

/// The names of the builtins that every interpreter has.
pub open spec fn fallback_list() -> Seq<Seq<char>> {
    seq![
        "abort"@,
        "add"@,
        "all"@,
        "any"@,
        "attrNames"@,
        "attrValues"@,
        "baseNameOf"@,
        "bitAnd"@,
        "bitOr"@,
        "bitXor"@,
        "catAttrs"@,
        "compareVersions"@,
        "concatLists"@,
        "concatMap"@,
        "concatStringsSep"@,
        "deepSeq"@,
        "dirOf"@,
        "div"@,
        "elem"@,
        "elemAt"@,
        "fetchGit"@,
        "fetchTarball"@,
        "fetchurl"@,
        "filter"@,
        "filterSource"@,
        "foldl'"@,
        "fromJSON"@,
        "functionArgs"@,
        "genList"@,
        "getAttr"@,
        "getEnv"@,
        "hasAttr"@,
        "hashFile"@,
        "hashString"@,
        "head"@,
        "import"@,
        "intersectAttrs"@,
        "isAttrs"@,
        "isBool"@,
        "isFloat"@,
        "isFunction"@,
        "isInt"@,
        "isList"@,
        "isNull"@,
        "isPath"@,
        "isString"@,
        "length"@,
        "lessThan"@,
        "listToAttrs"@,
        "map"@,
        "mapAttrs"@,
        "match"@,
        "mul"@,
        "parseDrvName"@,
        "partition"@,
        "path"@,
        "pathExists"@,
        "placeholder"@,
        "readDir"@,
        "readFile"@,
        "removeAttrs"@,
        "replaceStrings"@,
        "seq"@,
        "sort"@,
        "split"@,
        "splitVersion"@,
        "storePath"@,
        "stringLength"@,
        "sub"@,
        "substring"@,
        "tail"@,
        "throw"@,
        "toFile"@,
        "toJSON"@,
        "toPath"@,
        "toString"@,
        "toXML"@,
        "trace"@,
        "tryEval"@,
        "typeOf"@,
    ]
}

/// The names of the builtins that every interpreter has.
pub fn fallback_names() -> (names: Vec<String>)
    ensures
        names.deep_view() == fallback_list(),
{
    let mut names: Vec<String> = Vec::new();
    names.push(String::from_str("abort"));
    names.push(String::from_str("add"));
    names.push(String::from_str("all"));
    names.push(String::from_str("any"));
    names.push(String::from_str("attrNames"));
    names.push(String::from_str("attrValues"));
    names.push(String::from_str("baseNameOf"));
    names.push(String::from_str("bitAnd"));
    names.push(String::from_str("bitOr"));
    names.push(String::from_str("bitXor"));
    names.push(String::from_str("catAttrs"));
    names.push(String::from_str("compareVersions"));
    names.push(String::from_str("concatLists"));
    names.push(String::from_str("concatMap"));
    names.push(String::from_str("concatStringsSep"));
    names.push(String::from_str("deepSeq"));
    names.push(String::from_str("dirOf"));
    names.push(String::from_str("div"));
    names.push(String::from_str("elem"));
    names.push(String::from_str("elemAt"));
    names.push(String::from_str("fetchGit"));
    names.push(String::from_str("fetchTarball"));
    names.push(String::from_str("fetchurl"));
    names.push(String::from_str("filter"));
    names.push(String::from_str("filterSource"));
    names.push(String::from_str("foldl'"));
    names.push(String::from_str("fromJSON"));
    names.push(String::from_str("functionArgs"));
    names.push(String::from_str("genList"));
    names.push(String::from_str("getAttr"));
    names.push(String::from_str("getEnv"));
    names.push(String::from_str("hasAttr"));
    names.push(String::from_str("hashFile"));
    names.push(String::from_str("hashString"));
    names.push(String::from_str("head"));
    names.push(String::from_str("import"));
    names.push(String::from_str("intersectAttrs"));
    names.push(String::from_str("isAttrs"));
    names.push(String::from_str("isBool"));
    names.push(String::from_str("isFloat"));
    names.push(String::from_str("isFunction"));
    names.push(String::from_str("isInt"));
    names.push(String::from_str("isList"));
    names.push(String::from_str("isNull"));
    names.push(String::from_str("isPath"));
    names.push(String::from_str("isString"));
    names.push(String::from_str("length"));
    names.push(String::from_str("lessThan"));
    names.push(String::from_str("listToAttrs"));
    names.push(String::from_str("map"));
    names.push(String::from_str("mapAttrs"));
    names.push(String::from_str("match"));
    names.push(String::from_str("mul"));
    names.push(String::from_str("parseDrvName"));
    names.push(String::from_str("partition"));
    names.push(String::from_str("path"));
    names.push(String::from_str("pathExists"));
    names.push(String::from_str("placeholder"));
    names.push(String::from_str("readDir"));
    names.push(String::from_str("readFile"));
    names.push(String::from_str("removeAttrs"));
    names.push(String::from_str("replaceStrings"));
    names.push(String::from_str("seq"));
    names.push(String::from_str("sort"));
    names.push(String::from_str("split"));
    names.push(String::from_str("splitVersion"));
    names.push(String::from_str("storePath"));
    names.push(String::from_str("stringLength"));
    names.push(String::from_str("sub"));
    names.push(String::from_str("substring"));
    names.push(String::from_str("tail"));
    names.push(String::from_str("throw"));
    names.push(String::from_str("toFile"));
    names.push(String::from_str("toJSON"));
    names.push(String::from_str("toPath"));
    names.push(String::from_str("toString"));
    names.push(String::from_str("toXML"));
    names.push(String::from_str("trace"));
    names.push(String::from_str("tryEval"));
    names.push(String::from_str("typeOf"));
    proof {
        assert(names.deep_view() =~= fallback_list());
    }
    names
}

/// `acc` after the names `names[k..]` were declared in it as builtins of
/// which nothing more is known.
pub open spec fn with_fallbacks(names: Seq<Seq<char>>, k: int, acc: Seq<EntryView>) -> Seq<
    EntryView,
>
    decreases names.len() - k,
{
    if k < 0 || k >= names.len() {
        acc
    } else {
        with_fallbacks(
            names,
            k + 1,
            declare(acc, EntryView { name: names[k], details: fallback_details() }),
        )
    }
}

/// The table of builtins of which only the names are known.
pub open spec fn fallback_table(names: Seq<Seq<char>>) -> Seq<EntryView> {
    with_fallbacks(names, 0, Seq::empty())
}

/// The table of builtins for a list of names, with nothing known of any
/// but that it is a function.
pub fn fallback_builtins(list: Vec<String>) -> (table: Scope)
    ensures
        table@ == fallback_table(list.deep_view()),
{
    let ghost names = list.deep_view();
    let mut table = Scope::new();
    let mut at: usize = 0;
    while at < list.len()
        invariant
            at <= list.len(),
            names == list.deep_view(),
            with_fallbacks(names, at as int, table@) == fallback_table(names),
        decreases list.len() - at,
    {
        assert(names[at as int] == list@[at as int]@);
        table.declare(list[at].clone(), LSPDetails::builtin_fallback());
        at = at + 1;
    }
    table
}

/// Once a name is declared, it stays visible whatever is declared after.
proof fn lemma_with_fallbacks_keeps(
    names: Seq<Seq<char>>,
    k: int,
    acc: Seq<EntryView>,
    name: Seq<char>,
)
    requires
        0 <= k,
        distinct(acc),
        visible(acc, name),
    ensures
        visible(with_fallbacks(names, k, acc), name),
        distinct(with_fallbacks(names, k, acc)),
    decreases names.len() - k,
{
    if k < names.len() {
        let entry = EntryView { name: names[k], details: fallback_details() };
        lemma_declare(acc, entry);
        lemma_with_fallbacks_keeps(names, k + 1, declare(acc, entry), name);
    } else {
    }
}

/// Every name of the list is visible in the table made from it.
proof fn lemma_with_fallbacks_has(names: Seq<Seq<char>>, k: int, acc: Seq<EntryView>, j: int)
    requires
        0 <= k <= j < names.len(),
        distinct(acc),
    ensures
        visible(with_fallbacks(names, k, acc), names[j]),
    decreases names.len() - k,
{
    let entry = EntryView { name: names[k], details: fallback_details() };
    lemma_declare(acc, entry);
    if k == j {
        lemma_with_fallbacks_keeps(names, k + 1, declare(acc, entry), names[j]);
    } else {
        lemma_with_fallbacks_has(names, k + 1, declare(acc, entry), j);
    }
}

/// `head` is a builtin even where no interpreter was asked.
pub proof fn lemma_fallback_has_head()
    ensures
        visible(fallback_table(fallback_list()), "head"@),
{
    assert(fallback_list()[34] == "head"@);
    lemma_with_fallbacks_has(fallback_list(), 0, Seq::empty(), 34);
}

/// The value of a decimal digit.
pub open spec fn digit_value(c: char) -> Option<u8> {
    if '0' <= c <= '9' {
        Some((c as u32 - '0' as u32) as u8)
    } else {
        None
    }
}

/// The value of a decimal digit.
pub fn digit(c: char) -> (value: Option<u8>)
    ensures
        value == digit_value(c),
{
    if '0' <= c && c <= '9' {
        Some((c as u32 - '0' as u32) as u8)
    } else {
        None
    }
}

/// Where the run of decimal digits that begins at the `k`-th character
/// ends.
pub open spec fn digits_end(s: Seq<char>, k: int) -> int
    decreases s.len() - k,
{
    if 0 <= k < s.len() && digit_value(s[k]) is Some {
        digits_end(s, k + 1)
    } else {
        k
    }
}

/// The number that the decimal digits from the `from`-th character up to
/// the `to`-th write.
pub open spec fn number(s: Seq<char>, from: int, to: int) -> nat
    decreases to - from,
{
    if from < 0 || to <= from || to > s.len() {
        0
    } else {
        let digit: nat = match digit_value(s[to - 1]) {
            Some(d) => d as nat,
            None => 0,
        };
        number(s, from, to - 1) * 10 + digit
    }
}

/// The version that an interpreter reports: the answer begins with
/// `nix (Nix) `, a decimal number, a dot and a decimal number. The two
/// numbers are the major and the minor version, each read to its last
/// digit; what follows them is not read.
pub open spec fn reported_version(answer: Seq<char>) -> Option<(nat, nat)> {
    let lead = "nix (Nix) "@;
    if !is_prefix(lead, answer) {
        None
    } else {
        let major_from = lead.len() as int;
        let major_to = digits_end(answer, major_from);
        if major_to == major_from || major_to >= answer.len() || answer[major_to] != '.' {
            None
        } else {
            let minor_to = digits_end(answer, major_to + 1);
            if minor_to == major_to + 1 {
                None
            } else {
                Some(
                    (
                        number(answer, major_from, major_to),
                        number(answer, major_to + 1, minor_to),
                    ),
                )
            }
        }
    }
}

/// A number as it is held: itself where it fits, else the largest
/// number that does.
pub open spec fn held(n: nat) -> u64 {
    if n > u64::MAX {
        u64::MAX
    } else {
        n as u64
    }
}

/// Reads the decimal number that begins at the `from`-th character:
/// where its digits end, and its value as it is held.
pub fn read_number(chars: &Vec<char>, from: usize) -> (read: (usize, u64))
    requires
        from <= chars.len(),
    ensures
        read.0 == digits_end(chars@, from as int),
        from <= read.0 <= chars.len(),
        read.1 == held(number(chars@, from as int, read.0 as int)),
{
    let mut at = from;
    let mut value: u64 = 0;
    while at < chars.len()
        invariant
            from <= at <= chars.len(),
            digits_end(chars@, at as int) == digits_end(chars@, from as int),
            value == held(number(chars@, from as int, at as int)),
        decreases chars.len() - at,
    {
        let d = match digit(chars[at]) {
            Some(d) => d,
            None => {
                return (at, value);
            },
        };
        let ghost before = number(chars@, from as int, at as int);
        assert(number(chars@, from as int, at as int + 1) == before * 10 + d);
        value = if value > (u64::MAX - d as u64) / 10 {
            u64::MAX
        } else {
            value * 10 + d as u64
        };
        at = at + 1;
    }
    (at, value)
}

/// The version that an interpreter reports, each number as it is held.
pub fn nix_version(answer: &str) -> (version: Option<(u64, u64)>)
    ensures
        match reported_version(answer@) {
            Some((major, minor)) => version == Some((held(major), held(minor))),
            None => version is None,
        },
{
    let lead = "nix (Nix) ";
    if !starts_with(answer, lead) {
        return None;
    }
    let chars = chars_of(answer);
    let major_from = lead.unicode_len();
    let (major_to, major) = read_number(&chars, major_from);
    if major_to == major_from || major_to >= chars.len() || chars[major_to] != '.' {
        return None;
    }
    let (minor_to, minor) = read_number(&chars, major_to + 1);
    if minor_to == major_to + 1 {
        return None;
    }
    Some((major, minor))
}

/// Whether an interpreter of that version can list its builtins: from
/// version 2.4 on.
pub open spec fn lists_builtins(version: (nat, nat)) -> bool {
    version.0 == 2 && version.1 >= 4 || version.0 > 2
}

/// Whether the interpreter that gave `answer` when asked for its version
/// can be asked for its builtins.
pub open spec fn is_dump_supported(answer: Seq<char>) -> bool {
    match reported_version(answer) {
        Some(version) => lists_builtins(version),
        None => false,
    }
}

/// Whether the interpreter that gave `answer` when asked for its version
/// can be asked for its builtins.
pub fn dump_supported(answer: &str) -> (supported: bool)
    ensures
        supported == is_dump_supported(answer@),
{
    match nix_version(answer) {
        Some((major, minor)) => major == 2 && minor >= 4 || major > 2,
        None => false,
    }
}

/// What an interpreter tells of one builtin: its name, its documentation
/// and the names of its parameters.
#[derive(Debug)]
pub struct BuiltinDoc {
    pub name: String,
    pub doc: String,
    pub args: Option<Vec<String>>,
}

/// The mathematical content of what an interpreter tells of a builtin.
pub ghost struct BuiltinDocView {
    pub name: Seq<char>,
    pub doc: Seq<char>,
    pub args: Option<Seq<Seq<char>>>,
}

impl View for BuiltinDoc {
    type V = BuiltinDocView;

    open spec fn view(&self) -> BuiltinDocView {
        BuiltinDocView {
            name: self.name@,
            doc: self.doc@,
            args: match self.args {
                Some(args) => Some(args.deep_view()),
                None => None,
            },
        }
    }
}

/// The mathematical content of each of a list of builtins.
pub open spec fn doc_views(docs: Seq<BuiltinDoc>) -> Seq<BuiltinDocView> {
    Seq::new(docs.len(), |i: int| docs[i]@)
}

/// What is known of a builtin that an interpreter has told of. It is
/// deprecated where its documentation begins by saying so, and its
/// parameters are shown with arrows between them.
pub open spec fn documented(doc: BuiltinDocView) -> DetailsView {
    DetailsView {
        datatype: Datatype::Lambda,
        var: None,
        documentation: Some(doc.doc),
        deprecated: is_prefix("**DEPRECATED.**"@, doc.doc),
        params: match doc.args {
            Some(args) => Some(join_with(args, " -> "@)),
            None => None,
        },
    }
}

/// `acc` after the builtins `docs[k..]` were declared in it.
pub open spec fn with_docs(docs: Seq<BuiltinDocView>, k: int, acc: Seq<EntryView>) -> Seq<
    EntryView,
>
    decreases docs.len() - k,
{
    if k < 0 || k >= docs.len() {
        acc
    } else {
        with_docs(
            docs,
            k + 1,
            declare(acc, EntryView { name: docs[k].name, details: documented(docs[k]) }),
        )
    }
}

/// The table of the builtins that an interpreter has told of.
pub open spec fn documented_table(docs: Seq<BuiltinDocView>) -> Seq<EntryView> {
    with_docs(docs, 0, Seq::empty())
}

/// The table of the builtins that an interpreter has told of.
pub fn documented_builtins(docs: &Vec<BuiltinDoc>) -> (table: Scope)
    ensures
        table@ == documented_table(doc_views(docs@)),
{
    let ghost views = doc_views(docs@);
    let mut table = Scope::new();
    let mut at: usize = 0;
    while at < docs.len()
        invariant
            at <= docs.len(),
            views == doc_views(docs@),
            with_docs(views, at as int, table@) == documented_table(views),
        decreases docs.len() - at,
    {
        assert(views[at as int] == docs@[at as int]@);
        let doc = &docs[at];
        let params = match &doc.args {
            Some(args) => Some(join_parts(args, " -> ")),
            None => None,
        };
        let details = LSPDetails::builtin_with_doc(
            starts_with(doc.doc.as_str(), "**DEPRECATED.**"),
            params,
            doc.doc.clone(),
        );
        table.declare(doc.name.clone(), details);
        at = at + 1;
    }
    table
}

/// The value of the first member named `name` among the members from
/// the `k`-th on.
pub open spec fn member(names: Seq<Seq<char>>, values: Seq<JsonView>, name: Seq<char>, k: int) -> Option<
    JsonView,
>
    decreases names.len() - k,
{
    if k < 0 || k >= names.len() || k >= values.len() {
        None
    } else if names[k] == name {
        Some(values[k])
    } else {
        member(names, values, name, k + 1)
    }
}

/// The texts that a list holds; `None` where it holds anything else.
pub open spec fn texts(items: Seq<JsonView>) -> Option<Seq<Seq<char>>>
    decreases items.len(),
{
    if items.len() == 0 {
        Some(Seq::empty())
    } else {
        match (texts(items.drop_last()), items.last()) {
            (Some(before), JsonView::Text(text)) => Some(before.push(text)),
            _ => None,
        }
    }
}

/// What a listing tells of the builtin `name`: `entry` is an object whose
/// member `doc` is a text; its member `args`, where it has one that is a
/// list, lists the parameters as texts. Anything else is no listing of a
/// builtin.
pub open spec fn listed(name: Seq<char>, entry: JsonView) -> Option<BuiltinDocView> {
    match entry {
        JsonView::Object { names, values } => match member(names, values, "doc"@, 0) {
            Some(JsonView::Text(doc)) => match member(names, values, "args"@, 0) {
                Some(JsonView::List(items)) => match texts(items) {
                    Some(args) => Some(BuiltinDocView { name, doc, args: Some(args) }),
                    None => None,
                },
                _ => Some(BuiltinDocView { name, doc, args: None }),
            },
            _ => None,
        },
        _ => None,
    }
}

/// The builtins that the first `count` members of a listing tell of;
/// `None` where one of them is no listing of a builtin.
pub open spec fn all_listed(names: Seq<Seq<char>>, values: Seq<JsonView>, count: int) -> Option<
    Seq<BuiltinDocView>,
>
    decreases count,
{
    if count <= 0 {
        Some(Seq::empty())
    } else {
        match (all_listed(names, values, count - 1), listed(names[count - 1], values[count - 1])) {
            (Some(before), Some(doc)) => Some(before.push(doc)),
            _ => None,
        }
    }
}

/// The builtins that a listing tells of: the listing is an object with
/// one member for each builtin. `None` for anything of another shape.
pub open spec fn dump_docs(json: JsonView) -> Option<Seq<BuiltinDocView>> {
    match json {
        JsonView::Object { names, values } => if names.len() == values.len() {
            all_listed(names, values, names.len() as int)
        } else {
            None
        },
        _ => None,
    }
}

/// The builtins that the text of a listing tells of.
pub open spec fn dumped(dump: Seq<char>) -> Option<Seq<BuiltinDocView>> {
    match json_value(dump) {
        Some(json) => dump_docs(json),
        None => None,
    }
}

/// The mathematical content of the items of a list.
pub open spec fn item_views(items: Seq<Json>) -> Seq<JsonView> {
    Seq::new(items.len(), |i: int| items[i]@)
}

/// The content of a list is that of its items, the content of an object
/// that of its members.
pub proof fn lemma_json_view(json: Json)
    ensures
        json matches Json::List(items) ==> json@ == JsonView::List(item_views(items@)),
        json matches Json::Object { names, values } ==> json@ == (JsonView::Object {
            names: names.deep_view(),
            values: item_views(values@),
        }),
{
    match json {
        Json::List(items) => {
            assert(json@->List_0 =~= item_views(items@));
        },
        Json::Object { names, values } => {
            assert(json@->Object_values =~= item_views(values@));
        },
        _ => {},
    }
}

/// The value of the first member named `name`.
pub fn find_member<'a>(names: &Vec<String>, values: &'a Vec<Json>, name: &str) -> (found: Option<
    &'a Json,
>)
    ensures
        match found {
            Some(value) => member(names.deep_view(), item_views(values@), name@, 0) == Some(
                value@,
            ),
            None => member(names.deep_view(), item_views(values@), name@, 0) is None,
        },
{
    let ghost all = names.deep_view();
    let ghost views = item_views(values@);
    let mut at: usize = 0;
    while at < names.len() && at < values.len()
        invariant
            all == names.deep_view(),
            views == item_views(values@),
            member(all, views, name@, at as int) == member(all, views, name@, 0),
        decreases names.len() - at,
    {
        assert(all[at as int] == names@[at as int]@);
        if same_text(names[at].as_str(), name) {
            return Some(&values[at]);
        }
        at = at + 1;
    }
    None
}

/// The texts that a list holds.
pub fn read_texts(items: &Vec<Json>) -> (found: Option<Vec<String>>)
    ensures
        match found {
            Some(list) => texts(item_views(items@)) == Some(list.deep_view()),
            None => texts(item_views(items@)) is None,
        },
{
    let ghost views = item_views(items@);
    let mut list: Vec<String> = Vec::new();
    let mut at: usize = 0;
    proof {
        assert(views.take(0) =~= Seq::<JsonView>::empty());
        assert(list.deep_view() =~= Seq::<Seq<char>>::empty());
    }
    while at < items.len()
        invariant
            at <= items.len(),
            views == item_views(items@),
            texts(views.take(at as int)) == Some(list.deep_view()),
        decreases items.len() - at,
    {
        proof {
            assert(views.take(at as int + 1).drop_last() =~= views.take(at as int));
            assert(views.take(at as int + 1).last() == items@[at as int]@);
        }
        match &items[at] {
            Json::Text(text) => {
                let ghost before = list.deep_view();
                list.push(text.clone());
                proof {
                    assert(list.deep_view() =~= before.push(text@));
                }
            },
            _ => {
                proof {
                    lemma_texts_fail(views, at as int + 1);
                }
                return None;
            },
        }
        at = at + 1;
    }
    proof {
        assert(views.take(at as int) =~= views);
    }
    Some(list)
}

/// A list whose beginning holds something other than texts does so as a
/// whole.
proof fn lemma_texts_fail(items: Seq<JsonView>, k: int)
    requires
        0 <= k <= items.len(),
        texts(items.take(k)) is None,
    ensures
        texts(items) is None,
    decreases items.len() - k,
{
    if k < items.len() {
        assert(items.take(k + 1).drop_last() =~= items.take(k));
        lemma_texts_fail(items, k + 1);
    } else {
        assert(items.take(k) =~= items);
    }
}

/// What a listing tells of the builtin `name`.
pub fn read_listed(name: &str, entry: &Json) -> (doc: Option<BuiltinDoc>)
    ensures
        match doc {
            Some(d) => listed(name@, entry@) == Some(d@),
            None => listed(name@, entry@) is None,
        },
{
    proof {
        lemma_json_view(*entry);
    }
    let (names, values) = match entry {
        Json::Object { names, values } => (names, values),
        _ => {
            return None;
        },
    };
    let doc = match find_member(names, values, "doc") {
        Some(Json::Text(doc)) => doc,
        _ => {
            return None;
        },
    };
    let args = match find_member(names, values, "args") {
        Some(Json::List(items)) => {
            proof {
                lemma_json_view(Json::List(*items));
            }
            match read_texts(items) {
                Some(args) => Some(args),
                None => {
                    return None;
                },
            }
        },
        _ => None,
    };
    Some(BuiltinDoc { name: String::from_str(name), doc: doc.clone(), args })
}

/// The builtins that a listing tells of.
pub fn read_dump(json: &Json) -> (docs: Option<Vec<BuiltinDoc>>)
    ensures
        match docs {
            Some(list) => dump_docs(json@) == Some(doc_views(list@)),
            None => dump_docs(json@) is None,
        },
{
    proof {
        lemma_json_view(*json);
    }
    let (names, values) = match json {
        Json::Object { names, values } => (names, values),
        _ => {
            return None;
        },
    };
    if names.len() != values.len() {
        return None;
    }
    let ghost all = names.deep_view();
    let ghost views = item_views(values@);
    let mut docs: Vec<BuiltinDoc> = Vec::new();
    let mut at: usize = 0;
    proof {
        assert(doc_views(docs@) =~= Seq::<BuiltinDocView>::empty());
    }
    while at < names.len()
        invariant
            at <= names.len(),
            names.len() == values.len(),
            all == names.deep_view(),
            views == item_views(values@),
            dump_docs(json@) == all_listed(all, views, all.len() as int),
            all_listed(all, views, at as int) == Some(doc_views(docs@)),
        decreases names.len() - at,
    {
        proof {
            assert(all[at as int] == names@[at as int]@);
        }
        match read_listed(names[at].as_str(), &values[at]) {
            Some(doc) => {
                let ghost before = doc_views(docs@);
                docs.push(doc);
                proof {
                    assert(doc_views(docs@) =~= before.push(doc@));
                }
            },
            None => {
                proof {
                    lemma_listed_fail(all, views, at as int + 1, all.len() as int);
                }
                return None;
            },
        }
        at = at + 1;
    }
    Some(docs)
}

/// A listing whose beginning is malformed is malformed as a whole.
proof fn lemma_listed_fail(names: Seq<Seq<char>>, values: Seq<JsonView>, k: int, count: int)
    requires
        0 <= k <= count,
        all_listed(names, values, k) is None,
    ensures
        all_listed(names, values, count) is None,
    decreases count - k,
{
    if k < count {
        lemma_listed_fail(names, values, k, count - 1);
    }
}

/// The table of builtins, given what an interpreter answered: `answer`
/// when asked for its version, `dump` when asked to list its builtins;
/// each is `None` where no answer could be had. The listing counts where
/// the version is one that lists builtins and the listing is well
/// formed; in every other case the table holds the names that every
/// interpreter has, with nothing more known of them.
pub open spec fn builtin_table(answer: Option<Seq<char>>, dump: Option<Seq<char>>) -> Seq<
    EntryView,
> {
    match (answer, dump) {
        (Some(version), Some(listing)) => match dumped(listing) {
            Some(docs) => if is_dump_supported(version) {
                documented_table(docs)
            } else {
                fallback_table(fallback_list())
            },
            None => fallback_table(fallback_list()),
        },
        _ => fallback_table(fallback_list()),
    }
}

/// The characters of a text that may be missing.
pub open spec fn answer_view(answer: Option<&str>) -> Option<Seq<char>> {
    match answer {
        Some(a) => Some(a@),
        None => None,
    }
}

/// The table of builtins, given what an interpreter answered.
pub fn load_builtins(answer: Option<&str>, dump: Option<&str>) -> (table: Scope)
    ensures
        table@ == builtin_table(answer_view(answer), answer_view(dump)),
{
    match (answer, dump) {
        (Some(version), Some(listing)) => {
            if dump_supported(version) {
                let docs = match read_json(listing) {
                    Some(json) => read_dump(&json),
                    None => None,
                };
                match docs {
                    Some(docs) => documented_builtins(&docs),
                    None => fallback_builtins(fallback_names()),
                }
            } else {
                fallback_builtins(fallback_names())
            }
        },
        _ => fallback_builtins(fallback_names()),
    }
}

} // verus!
