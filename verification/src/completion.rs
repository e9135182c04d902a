//! Namespace completion: what to offer for a dotted path, given the
//! documentation entries that a search for it returned.

use crate::text::{join_dots, join_first, same_text, split_dots, split_name};
use vstd::prelude::*;

verus! {

/// One entry of the documentation index: its full dotted name, its
/// documentation as shown to a reader, and the index it came from.
#[derive(Debug)]
pub struct DocEntry {
    pub name: String,
    pub documentation: String,
    pub source: String,
}

/// The mathematical content of a documentation entry.
pub ghost struct DocEntryView {
    pub name: Seq<char>,
    pub documentation: Seq<char>,
    pub source: Seq<char>,
}

impl View for DocEntry {
    type V = DocEntryView;

    open spec fn view(&self) -> DocEntryView {
        DocEntryView { name: self.name@, documentation: self.documentation@, source: self.source@ }
    }
}

impl DocEntry {
    /// A copy with the same content.
    pub fn duplicate(&self) -> (copy: DocEntry)
        ensures
            copy@ == self@,
    {
        DocEntry {
            name: self.name.clone(),
            documentation: self.documentation.clone(),
            source: self.source.clone(),
        }
    }
}

/// What is offered at one step into a namespace: a namespace that holds
/// more, by its dotted prefix, or a documented entry.
#[derive(Debug)]
pub enum NamespaceCompletionResult {
    Group(String),
    Leaf(DocEntry),
}

/// The mathematical content of a result.
pub ghost enum ResultView {
    Group(Seq<char>),
    Leaf(DocEntryView),
}

impl View for NamespaceCompletionResult {
    type V = ResultView;

    open spec fn view(&self) -> ResultView {
        match *self {
            NamespaceCompletionResult::Group(prefix) => ResultView::Group(prefix@),
            NamespaceCompletionResult::Leaf(entry) => ResultView::Leaf(entry@),
        }
    }
}

/// The name under which a result is shown.
pub open spec fn display_name(result: ResultView) -> Seq<char> {
    match result {
        ResultView::Group(prefix) => prefix,
        ResultView::Leaf(entry) => entry.name,
    }
}

impl NamespaceCompletionResult {
    /// The name under which the result is shown.
    pub fn name(&self) -> (name: String)
        ensures
            name@ == display_name(self@),
    {
        match self {
            NamespaceCompletionResult::Group(prefix) => prefix.clone(),
            NamespaceCompletionResult::Leaf(entry) => entry.name.clone(),
        }
    }

    /// The documented entry, where the result is one.
    pub fn try_as_doc_entry(&self) -> (entry: Option<&DocEntry>)
        ensures
            match entry {
                Some(e) => self@ == ResultView::Leaf(e@),
                None => self@ is Group,
            },
    {
        match self {
            NamespaceCompletionResult::Group(_) => None,
            NamespaceCompletionResult::Leaf(entry) => Some(entry),
        }
    }
}

/// How many segments from the `k`-th on `a` and `b` share, place by
/// place, before they first differ or one of them ends.
pub open spec fn shared_from(a: Seq<Seq<char>>, b: Seq<Seq<char>>, k: int) -> nat
    decreases a.len() - k,
{
    if 0 <= k < a.len() && k < b.len() && a[k] == b[k] {
        1 + shared_from(a, b, k + 1)
    } else {
        0
    }
}

/// How many leading segments of the query a candidate's name shares.
pub open spec fn matched(name: Seq<char>, query: Seq<Seq<char>>) -> nat {
    shared_from(split_dots(name), query, 0)
}

/// The longest match among the candidates; zero where there is none.
pub open spec fn longest_match(candidates: Seq<DocEntryView>, query: Seq<Seq<char>>) -> nat
    decreases candidates.len(),
{
    if candidates.len() == 0 {
        0
    } else {
        let rest = longest_match(candidates.drop_last(), query);
        let this = matched(candidates.last().name, query);
        if this > rest {
            this
        } else {
            rest
        }
    }
}

/// What a candidate is offered as when the longest match is `depth`: the
/// entry itself where its name has exactly one segment more than that,
/// else the namespace that the first `depth` segments of its name spell.
pub open spec fn classify(entry: DocEntryView, depth: nat) -> ResultView {
    let segments = split_dots(entry.name);
    if segments.len() - 1 == depth {
        ResultView::Leaf(entry)
    } else if depth < segments.len() {
        ResultView::Group(join_dots(segments.take(depth as int)))
    } else {
        ResultView::Group(join_dots(segments))
    }
}

/// Whether a result of that display name is among `results`.
pub open spec fn offered(results: Seq<ResultView>, name: Seq<char>) -> bool {
    exists|i: int| 0 <= i < results.len() && display_name(#[trigger] results[i]) == name
}

/// The results for the candidates, in their order: a candidate that
/// shares nothing with the query is passed over, and of several results
/// with one display name the first stays.
pub open spec fn offers(candidates: Seq<DocEntryView>, query: Seq<Seq<char>>, depth: nat) -> Seq<
    ResultView,
>
    decreases candidates.len(),
{
    if candidates.len() == 0 {
        Seq::empty()
    } else {
        let before = offers(candidates.drop_last(), query, depth);
        let result = classify(candidates.last(), depth);
        if matched(candidates.last().name, query) == 0 || offered(before, display_name(result)) {
            before
        } else {
            before.push(result)
        }
    }
}

/// The completions one step into the namespace that `query` names.
pub open spec fn next_step(candidates: Seq<DocEntryView>, query: Seq<Seq<char>>) -> Seq<
    ResultView,
> {
    offers(candidates, query, longest_match(candidates, query))
}

/// The mathematical content of each entry of a list.
pub open spec fn entry_views(entries: Seq<DocEntry>) -> Seq<DocEntryView> {
    Seq::new(entries.len(), |i: int| entries[i]@)
}

/// The mathematical content of each result of a list.
pub open spec fn result_views(results: Seq<NamespaceCompletionResult>) -> Seq<ResultView> {
    Seq::new(results.len(), |i: int| results[i]@)
}

/// No two results are shown under one name.
pub open spec fn distinct_names(results: Seq<ResultView>) -> bool {
    forall|i: int, j: int|
        0 <= i < j < results.len() ==> display_name(#[trigger] results[i]) != display_name(
            #[trigger] results[j],
        )
}

/// The first of the candidates before the `k`-th that shares something
/// with the query and is shown under `name`.
pub open spec fn first_shown(
    candidates: Seq<DocEntryView>,
    query: Seq<Seq<char>>,
    depth: nat,
    name: Seq<char>,
    k: int,
) -> Option<int>
    decreases k,
{
    if k <= 0 || k > candidates.len() {
        None
    } else {
        match first_shown(candidates, query, depth, name, k - 1) {
            Some(j) => Some(j),
            None => if matched(candidates[k - 1].name, query) > 0 && display_name(
                classify(candidates[k - 1], depth),
            ) == name {
                Some(k - 1)
            } else {
                None
            },
        }
    }
}

/// What the first candidate that is shown under `name` is classified as.
pub open spec fn shown_as(
    candidates: Seq<DocEntryView>,
    query: Seq<Seq<char>>,
    depth: nat,
    name: Seq<char>,
) -> Option<ResultView> {
    match first_shown(candidates, query, depth, name, candidates.len() as int) {
        Some(j) => Some(classify(candidates[j], depth)),
        None => None,
    }
}

/// Of the candidates that would be shown under one name, the first is
/// offered and no other: a name is offered exactly where some candidate
/// that shares something with the query is shown under it, and what is
/// offered under it is what the first such candidate is classified as.
/// No name is offered twice.
pub proof fn lemma_first_seen_wins(
    candidates: Seq<DocEntryView>,
    query: Seq<Seq<char>>,
    depth: nat,
    name: Seq<char>,
)
    ensures
        distinct_names(offers(candidates, query, depth)),
        offered(offers(candidates, query, depth), name) <==> shown_as(
            candidates,
            query,
            depth,
            name,
        ) is Some,
        forall|i: int|
            0 <= i < offers(candidates, query, depth).len() && display_name(
                #[trigger] offers(candidates, query, depth)[i],
            ) == name ==> shown_as(candidates, query, depth, name) == Some(
                offers(candidates, query, depth)[i],
            ),
    decreases candidates.len(),
{
    if candidates.len() > 0 {
        let rest = candidates.drop_last();
        let before = offers(rest, query, depth);
        let last = candidates.last();
        let result = classify(last, depth);
        let after = offers(candidates, query, depth);
        let count = candidates.len() as int;
        lemma_first_seen_wins(rest, query, depth, name);
        lemma_first_seen_wins(rest, query, depth, display_name(result));
        lemma_first_shown_prefix(candidates, rest, query, depth, name, count - 1);
        lemma_first_shown_prefix(candidates, rest, query, depth, display_name(result), count - 1);
        lemma_first_shown_bound(rest, query, depth, name, count - 1);
        let earlier = first_shown(rest, query, depth, name, count - 1);
        assert(first_shown(candidates, query, depth, name, count - 1) == earlier);
        assert(shown_as(rest, query, depth, name) == match earlier {
            Some(j) => Some(classify(rest[j], depth)),
            None => None,
        });
        if let Some(j) = earlier {
            assert(rest[j] == candidates[j]);
            assert(shown_as(candidates, query, depth, name) == shown_as(rest, query, depth, name));
        }
        let pushed = !(matched(last.name, query) == 0 || offered(before, display_name(result)));
        if pushed {
            assert(after == before.push(result));
            assert(after[before.len() as int] == result);
            assert forall|i: int, j: int| 0 <= i < j < after.len() implies display_name(
                #[trigger] after[i],
            ) != display_name(#[trigger] after[j]) by {
                assert(before[i] == after[i]);
                if j < before.len() {
                    assert(before[j] == after[j]);
                }
            }
        } else {
            assert(after == before);
        }
        assert forall|i: int|
            0 <= i < after.len() && display_name(#[trigger] after[i]) == name implies shown_as(
            candidates,
            query,
            depth,
            name,
        ) == Some(after[i]) by {
            if i < before.len() {
                assert(before[i] == after[i]);
                assert(shown_as(rest, query, depth, name) == Some(before[i]));
            } else {
                assert(after[i] == result);
                assert(!offered(before, name));
                assert(earlier is None);
            }
        }
        if offered(after, name) {
            let i = choose|i: int| 0 <= i < after.len() && display_name(#[trigger] after[i])
                == name;
            assert(shown_as(candidates, query, depth, name) == Some(after[i]));
        }
        if shown_as(candidates, query, depth, name) is Some {
            if earlier is Some {
                assert(offered(before, name));
                let i = choose|i: int| 0 <= i < before.len() && display_name(#[trigger] before[i])
                    == name;
                assert(before[i] == after[i]);
            } else {
                assert(matched(last.name, query) > 0 && display_name(result) == name);
                assert(!offered(before, name));
                assert(pushed);
                assert(display_name(after[before.len() as int]) == name);
            }
        }
    }
}

/// The first candidate shown under a name is one of those looked at.
proof fn lemma_first_shown_bound(
    candidates: Seq<DocEntryView>,
    query: Seq<Seq<char>>,
    depth: nat,
    name: Seq<char>,
    k: int,
)
    ensures
        first_shown(candidates, query, depth, name, k) matches Some(j) ==> 0 <= j < k && j
            < candidates.len(),
    decreases k,
{
    if 0 < k <= candidates.len() {
        lemma_first_shown_bound(candidates, query, depth, name, k - 1);
    }
}

/// What stands after the candidates looked at does not change which of
/// them is the first shown under a name.
proof fn lemma_first_shown_prefix(
    candidates: Seq<DocEntryView>,
    rest: Seq<DocEntryView>,
    query: Seq<Seq<char>>,
    depth: nat,
    name: Seq<char>,
    k: int,
)
    requires
        rest == candidates.drop_last(),
        candidates.len() > 0,
        0 <= k <= rest.len(),
    ensures
        first_shown(candidates, query, depth, name, k) == first_shown(rest, query, depth, name, k),
    decreases k,
{
    if k > 0 {
        lemma_first_shown_prefix(candidates, rest, query, depth, name, k - 1);
        assert(rest[k - 1] == candidates[k - 1]);
    }
}

/// How many leading segments `segments` shares with `query`.
pub fn shared_prefix(segments: &Vec<String>, query: &Vec<String>) -> (count: usize)
    ensures
        count == shared_from(segments.deep_view(), query.deep_view(), 0),
        count <= segments.len(),
        count <= query.len(),
{
    let ghost a = segments.deep_view();
    let ghost b = query.deep_view();
    let mut at: usize = 0;
    while at < segments.len() && at < query.len()
        invariant
            at <= segments.len(),
            at <= query.len(),
            a == segments.deep_view(),
            b == query.deep_view(),
            at + shared_from(a, b, at as int) == shared_from(a, b, 0),
        decreases segments.len() - at,
    {
        assert(a[at as int] == segments@[at as int]@);
        assert(b[at as int] == query@[at as int]@);
        if !same_text(segments[at].as_str(), query[at].as_str()) {
            return at;
        }
        at = at + 1;
    }
    at
}

/// Whether a result of the display name `name` is among `results`.
pub fn is_offered(results: &Vec<NamespaceCompletionResult>, name: &str) -> (found: bool)
    ensures
        found == offered(result_views(results@), name@),
{
    let mut at: usize = 0;
    while at < results.len()
        invariant
            at <= results.len(),
            forall|i: int|
                0 <= i < at ==> display_name(#[trigger] result_views(results@)[i]) != name@,
        decreases results.len() - at,
    {
        assert(result_views(results@)[at as int] == results@[at as int]@);
        let shown = results[at].name();
        if same_text(shown.as_str(), name) {
            return true;
        }
        at = at + 1;
    }
    false
}

/// The completions one step into a namespace: `current_ns` is the dotted
/// path typed so far, `search_results` what the documentation index
/// returned for it. The path is handed back with the completions.
///
/// The path is compared as it is typed: what a `with` around it would
/// put in front of it is not known here.
pub fn next_namespace_step_completions(
    current_ns: Vec<String>,
    search_results: Vec<DocEntry>,
) -> (step: (Vec<String>, Vec<NamespaceCompletionResult>))
    ensures
        step.0 == current_ns,
        result_views(step.1@) == next_step(entry_views(search_results@), current_ns.deep_view()),
        distinct_names(result_views(step.1@)),
{
    let ghost candidates = entry_views(search_results@);
    let ghost query = current_ns.deep_view();
    let mut depth: usize = 0;
    let mut at: usize = 0;
    while at < search_results.len()
        invariant
            at <= search_results.len(),
            candidates == entry_views(search_results@),
            query == current_ns.deep_view(),
            depth == longest_match(candidates.take(at as int), query),
        decreases search_results.len() - at,
    {
        proof {
            assert(candidates.take(at as int + 1).drop_last() =~= candidates.take(at as int));
            assert(candidates.take(at as int + 1).last() == search_results@[at as int]@);
        }
        let segments = split_name(search_results[at].name.as_str());
        let this = shared_prefix(&segments, &current_ns);
        if this > depth {
            depth = this;
        }
        at = at + 1;
    }
    proof {
        assert(candidates.take(at as int) =~= candidates);
    }
    let mut results: Vec<NamespaceCompletionResult> = Vec::new();
    at = 0;
    proof {
        assert(result_views(results@) =~= Seq::<ResultView>::empty());
        assert(candidates.take(0) =~= Seq::<DocEntryView>::empty());
    }
    while at < search_results.len()
        invariant
            at <= search_results.len(),
            candidates == entry_views(search_results@),
            query == current_ns.deep_view(),
            result_views(results@) == offers(candidates.take(at as int), query, depth as nat),
            distinct_names(result_views(results@)),
        decreases search_results.len() - at,
    {
        proof {
            assert(candidates.take(at as int + 1).drop_last() =~= candidates.take(at as int));
            assert(candidates.take(at as int + 1).last() == search_results@[at as int]@);
        }
        let entry = &search_results[at];
        let segments = split_name(entry.name.as_str());
        if shared_prefix(&segments, &current_ns) > 0 {
            let result = if segments.len() - 1 == depth {
                NamespaceCompletionResult::Leaf(entry.duplicate())
            } else {
                NamespaceCompletionResult::Group(join_first(&segments, depth))
            };
            proof {
                let names = segments.deep_view();
                assert(names.len() == segments.len());
                assert(names.take(names.len() as int) =~= names);
                assert(names == split_dots(entry@.name));
            }
            assert(result@ == classify(entry@, depth as nat));
            let shown = result.name();
            if !is_offered(&results, shown.as_str()) {
                let ghost before = result_views(results@);
                results.push(result);
                proof {
                    assert(result_views(results@) =~= before.push(classify(entry@, depth as nat)));
                }
            }
        }
        at = at + 1;
    }
    proof {
        assert(candidates.take(at as int) =~= candidates);
    }
    (current_ns, results)
}

} // verus!
