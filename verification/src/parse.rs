//! From source text to a tree: the parser walks its result in text order,
//! and the tree is built from the steps of that walk.

use crate::text::same_text;
use crate::tree::{build, event_views, EventView, Kind, NodeView, SyntaxEvent, Tree};
use vstd::prelude::*;
use vstd::utf8::encode_utf8;

verus! {

/// The longest text that the parser reads, in bytes: the parser counts
/// the bytes of a text in 32 bits.
pub const MAX_TEXT: usize = 0xffff_ffff;

/// Whether the parser reads `text`: its UTF-8 form is no longer than
/// `MAX_TEXT` bytes.
pub open spec fn readable(text: Seq<char>) -> bool {
    encode_utf8(text).len() <= MAX_TEXT
}

/// Whether the parser reads `text`.
pub fn can_read(text: &str) -> (can: bool)
    ensures
        can == readable(text@),
{
    text.as_bytes().len() <= MAX_TEXT
}

/// One step of the parser's walk over its tree: an element is entered or
/// left. The kind travels under the name that the parser prints it by.
pub struct WalkStep {
    pub entering: bool,
    pub token: bool,
    pub kind: String,
    pub start: usize,
    pub end: usize,
    pub text: String,
}

/// The mathematical content of one step.
pub ghost struct WalkStepView {
    pub entering: bool,
    pub token: bool,
    pub kind: Seq<char>,
    pub start: usize,
    pub end: usize,
    pub text: Seq<char>,
}

impl View for WalkStep {
    type V = WalkStepView;

    open spec fn view(&self) -> WalkStepView {
        WalkStepView {
            entering: self.entering,
            token: self.token,
            kind: self.kind@,
            start: self.start,
            end: self.end,
            text: self.text@,
        }
    }
}

/// The mathematical content of each step of a walk.
pub open spec fn step_views(steps: Seq<WalkStep>) -> Seq<WalkStepView> {
    Seq::new(steps.len(), |i: int| steps[i]@)
}

/// The walk of the parser over what it makes of `text`.
pub uninterp spec fn syntax_walk(text: Seq<char>) -> Seq<WalkStepView>;

/// Calls `rnix::parse` and walks the tree it returns with rowan's
/// `preorder_with_tokens`. Nothing is claimed of the walk but that it is a
/// function of the text: `syntax_walk` is its name. A token's step carries
/// the token's text, an inner node's step an empty one. The parser holds
/// the length of every token and every offset in 32 bits and stops the
/// program where one does not fit, so the text must be readable. It goes
/// into nested expressions by calls of itself, so it reads as deep a
/// nesting as the stack has room for.
#[verifier::external_body]
fn walk_syntax(text: &str) -> (steps: Vec<WalkStep>)
    requires
        readable(text@),
    ensures
        step_views(steps@) == syntax_walk(text@),
{
    rnix::parse(text).node().preorder_with_tokens().map(|step| {
        let (entering, element) = match step {
            rnix::WalkEvent::Enter(element) => (true, element),
            rnix::WalkEvent::Leave(element) => (false, element),
        };
        WalkStep {
            entering,
            token: element.as_token().is_some(),
            kind: format!("{:?}", element.kind()),
            start: element.text_range().start().into(),
            end: element.text_range().end().into(),
            text: element.as_token().map(|token| token.text().to_string()).unwrap_or_default(),
        }
    }).collect()
}

/// Where in a text a fault lies: in a stretch of it, by the offsets of
/// its bytes; at its end; or nowhere that is told.
#[derive(Clone, Copy, Debug, PartialEq, Eq)]
pub enum FaultPlace {
    Stretch { start: usize, end: usize },
    EndOfText,
    Untold,
}

/// Something that the parser could not read: where, and what it says
/// of it.
#[derive(Debug)]
pub struct SyntaxFault {
    pub place: FaultPlace,
    pub message: String,
}

/// The mathematical content of a fault.
pub ghost struct FaultView {
    pub place: FaultPlace,
    pub message: Seq<char>,
}

impl View for SyntaxFault {
    type V = FaultView;

    open spec fn view(&self) -> FaultView {
        FaultView { place: self.place, message: self.message@ }
    }
}

/// The mathematical content of each fault of a list.
pub open spec fn fault_views(faults: Seq<SyntaxFault>) -> Seq<FaultView> {
    Seq::new(faults.len(), |i: int| faults[i]@)
}

/// What the parser cannot read of `text`, in the order in which it tells.
pub uninterp spec fn syntax_faults(text: Seq<char>) -> Seq<FaultView>;

/// Calls `rnix::parse` and `AST::errors` on its result. Each error is
/// handed on with the stretch that it carries and with its own words; an
/// error at the end of the text carries none, and is marked so. Nothing is
/// claimed of the errors but that they are a function of the text. As for
/// the walk, the text must be readable.
#[verifier::external_body]
pub(crate) fn find_faults(text: &str) -> (faults: Vec<SyntaxFault>)
    requires
        readable(text@),
    ensures
        fault_views(faults@) == syntax_faults(text@),
{
    rnix::parse(text).errors().into_iter().map(|error| SyntaxFault {
        place: match &error {
            rnix::parser::ParseError::Unexpected(range)
            | rnix::parser::ParseError::UnexpectedExtra(range)
            | rnix::parser::ParseError::UnexpectedWanted(_, range, _)
            | rnix::parser::ParseError::UnexpectedDoubleBind(range) => {
                FaultPlace::Stretch { start: range.start().into(), end: range.end().into() }
            },
            rnix::parser::ParseError::UnexpectedEOF
            | rnix::parser::ParseError::UnexpectedEOFWanted(_) => FaultPlace::EndOfText,
            _ => FaultPlace::Untold,
        },
        message: error.to_string(),
    }).collect()
}

/// The kind of the inner node that the parser prints as `name`.
pub open spec fn node_kind_named(name: Seq<char>) -> Kind {
    if name == "NODE_APPLY"@ {
        Kind::Apply
    } else if name == "NODE_ATTR_SET"@ {
        Kind::AttrSet
    } else if name == "NODE_IDENT"@ {
        Kind::Ident
    } else if name == "NODE_KEY"@ {
        Kind::Key
    } else if name == "NODE_KEY_VALUE"@ {
        Kind::KeyValue
    } else if name == "NODE_LAMBDA"@ {
        Kind::Lambda
    } else if name == "NODE_LET_IN"@ {
        Kind::LetIn
    } else if name == "NODE_LEGACY_LET"@ {
        Kind::LegacyLet
    } else if name == "NODE_LITERAL"@ {
        Kind::Literal
    } else if name == "NODE_PAT_BIND"@ {
        Kind::PatBind
    } else if name == "NODE_PAT_ENTRY"@ {
        Kind::PatEntry
    } else if name == "NODE_PATTERN"@ {
        Kind::Pattern
    } else if name == "NODE_SELECT"@ {
        Kind::Select
    } else if name == "NODE_WITH"@ {
        Kind::With
    } else {
        Kind::Node
    }
}

/// The kind of the token that the parser prints as `name`.
pub open spec fn token_kind_named(name: Seq<char>) -> Kind {
    if name == "TOKEN_DOT"@ {
        Kind::DotToken
    } else if name == "TOKEN_IDENT"@ {
        Kind::IdentToken
    } else if name == "TOKEN_REC"@ {
        Kind::RecToken
    } else if name == "TOKEN_PATH"@ {
        Kind::PathToken
    } else {
        Kind::Token
    }
}

/// The kind of the inner node that the parser prints as `name`.
pub fn node_kind(name: &str) -> (kind: Kind)
    ensures
        kind == node_kind_named(name@),
{
    if same_text(name, "NODE_APPLY") {
        Kind::Apply
    } else if same_text(name, "NODE_ATTR_SET") {
        Kind::AttrSet
    } else if same_text(name, "NODE_IDENT") {
        Kind::Ident
    } else if same_text(name, "NODE_KEY") {
        Kind::Key
    } else if same_text(name, "NODE_KEY_VALUE") {
        Kind::KeyValue
    } else if same_text(name, "NODE_LAMBDA") {
        Kind::Lambda
    } else if same_text(name, "NODE_LET_IN") {
        Kind::LetIn
    } else if same_text(name, "NODE_LEGACY_LET") {
        Kind::LegacyLet
    } else if same_text(name, "NODE_LITERAL") {
        Kind::Literal
    } else if same_text(name, "NODE_PAT_BIND") {
        Kind::PatBind
    } else if same_text(name, "NODE_PAT_ENTRY") {
        Kind::PatEntry
    } else if same_text(name, "NODE_PATTERN") {
        Kind::Pattern
    } else if same_text(name, "NODE_SELECT") {
        Kind::Select
    } else if same_text(name, "NODE_WITH") {
        Kind::With
    } else {
        Kind::Node
    }
}

/// The kind of the token that the parser prints as `name`.
pub fn token_kind(name: &str) -> (kind: Kind)
    ensures
        kind == token_kind_named(name@),
{
    if same_text(name, "TOKEN_DOT") {
        Kind::DotToken
    } else if same_text(name, "TOKEN_IDENT") {
        Kind::IdentToken
    } else if same_text(name, "TOKEN_REC") {
        Kind::RecToken
    } else if same_text(name, "TOKEN_PATH") {
        Kind::PathToken
    } else {
        Kind::Token
    }
}

/// What a step of the walk means for the tree: entering an inner node
/// opens it, entering a token places it, leaving an inner node closes it,
/// and leaving a token means nothing.
pub open spec fn event_of(step: WalkStepView) -> Option<EventView> {
    if step.entering {
        if step.token {
            Some(
                EventView::Leaf {
                    kind: token_kind_named(step.kind),
                    start: step.start,
                    end: step.end,
                    text: step.text,
                },
            )
        } else {
            Some(
                EventView::Open {
                    kind: node_kind_named(step.kind),
                    start: step.start,
                    end: step.end,
                },
            )
        }
    } else if step.token {
        None
    } else {
        Some(EventView::Close)
    }
}

/// The events that a walk stands for, in its order.
pub open spec fn events_of(steps: Seq<WalkStepView>) -> Seq<EventView>
    decreases steps.len(),
{
    if steps.len() == 0 {
        Seq::empty()
    } else {
        let init = events_of(steps.drop_last());
        match event_of(steps.last()) {
            Some(event) => init.push(event),
            None => init,
        }
    }
}

/// The events that a walk stands for.
pub fn events_from_walk(steps: &Vec<WalkStep>) -> (events: Vec<SyntaxEvent>)
    ensures
        event_views(events@) == events_of(step_views(steps@)),
{
    let mut events: Vec<SyntaxEvent> = Vec::new();
    let ghost views = step_views(steps@);
    let mut at: usize = 0;
    while at < steps.len()
        invariant
            at <= steps.len(),
            views == step_views(steps@),
            event_views(events@) == events_of(views.take(at as int)),
        decreases steps.len() - at,
    {
        let step = &steps[at];
        let ghost before = event_views(events@);
        proof {
            assert(views.take(at as int + 1).drop_last() == views.take(at as int));
            assert(views.take(at as int + 1).last() == step@);
        }
        if step.entering {
            if step.token {
                events.push(
                    SyntaxEvent::Leaf {
                        kind: token_kind(step.kind.as_str()),
                        start: step.start,
                        end: step.end,
                        text: step.text.clone(),
                    },
                );
            } else {
                events.push(
                    SyntaxEvent::Open {
                        kind: node_kind(step.kind.as_str()),
                        start: step.start,
                        end: step.end,
                    },
                );
            }
            proof {
                assert(event_views(events@) =~= before.push(event_of(step@).unwrap()));
            }
        } else if !step.token {
            events.push(SyntaxEvent::Close);
            proof {
                assert(event_views(events@) =~= before.push(EventView::Close));
            }
        }
        at = at + 1;
    }
    proof {
        assert(views.take(at as int) == views);
    }
    events
}

/// The tree that stands for a text: the one built from the parser's
/// walk, and for a text too long for the parser the tree without
/// elements.
pub open spec fn tree_of(text: Seq<char>) -> Seq<NodeView> {
    if readable(text) {
        build(events_of(syntax_walk(text))).nodes
    } else {
        Seq::empty()
    }
}

/// Parses `text`. Every text has a tree: what the parser cannot make
/// sense of stands in the tree as elements of their own, and a text that
/// is too long for the parser has the tree without elements.
pub fn parse(text: &str) -> (tree: Tree)
    ensures
        tree@ == tree_of(text@),
{
    if can_read(text) {
        let steps = walk_syntax(text);
        let events = events_from_walk(&steps);
        Tree::from_events(&events)
    } else {
        let none: Vec<SyntaxEvent> = Vec::new();
        proof {
            assert(event_views(none@) =~= Seq::<EventView>::empty());
        }
        Tree::from_events(&none)
    }
}

} // verus!
