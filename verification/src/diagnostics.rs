//! Diagnostics: what the parser could not read, with the lines and
//! columns of where.

use crate::parse::{
    can_read, fault_views, find_faults, readable, syntax_faults, FaultPlace, FaultView,
    SyntaxFault,
};
use crate::position::{offset_to_pos, position_of, Position};
use vstd::prelude::*;

verus! {

/// A stretch of a text, by lines and columns, and what is wrong there.
#[derive(Debug)]
pub struct Diagnostic {
    pub start: Position,
    pub end: Position,
    pub message: String,
}

/// The mathematical content of a diagnostic.
pub ghost struct DiagnosticView {
    pub start: Position,
    pub end: Position,
    pub message: Seq<char>,
}

impl View for Diagnostic {
    type V = DiagnosticView;

    open spec fn view(&self) -> DiagnosticView {
        DiagnosticView { start: self.start, end: self.end, message: self.message@ }
    }
}

/// The mathematical content of each diagnostic of a list.
pub open spec fn diagnostic_views(diagnostics: Seq<Diagnostic>) -> Seq<DiagnosticView> {
    Seq::new(diagnostics.len(), |i: int| diagnostics[i]@)
}

/// The diagnostic for a fault: its stretch by lines and columns, and for
/// a fault at the end of the text the place behind the text twice. A
/// fault that lies nowhere gives none.
pub open spec fn diagnostic_for(text: Seq<char>, fault: FaultView) -> Option<DiagnosticView> {
    match fault.place {
        FaultPlace::Stretch { start, end } => Some(
            DiagnosticView {
                start: position_of(text, start),
                end: position_of(text, end),
                message: fault.message,
            },
        ),
        FaultPlace::EndOfText => Some(
            DiagnosticView {
                start: position_of(text, usize::MAX),
                end: position_of(text, usize::MAX),
                message: fault.message,
            },
        ),
        FaultPlace::Untold => None,
    }
}

/// The diagnostics for the faults, in their order.
pub open spec fn diagnostics_for(text: Seq<char>, faults: Seq<FaultView>) -> Seq<DiagnosticView>
    decreases faults.len(),
{
    if faults.len() == 0 {
        Seq::empty()
    } else {
        let before = diagnostics_for(text, faults.drop_last());
        match diagnostic_for(text, faults.last()) {
            Some(diagnostic) => before.push(diagnostic),
            None => before,
        }
    }
}

/// The diagnostics for given faults of a text.
pub fn locate(code: &str, found: &Vec<SyntaxFault>) -> (diagnostics: Vec<Diagnostic>)
    ensures
        diagnostic_views(diagnostics@) == diagnostics_for(code@, fault_views(found@)),
{
    let ghost views = fault_views(found@);
    let mut diagnostics: Vec<Diagnostic> = Vec::new();
    let mut at: usize = 0;
    proof {
        assert(views.take(0) =~= Seq::<FaultView>::empty());
        assert(diagnostic_views(diagnostics@) =~= Seq::<DiagnosticView>::empty());
    }
    while at < found.len()
        invariant
            at <= found.len(),
            views == fault_views(found@),
            diagnostic_views(diagnostics@) == diagnostics_for(code@, views.take(at as int)),
        decreases found.len() - at,
    {
        proof {
            assert(views.take(at as int + 1).drop_last() =~= views.take(at as int));
            assert(views.take(at as int + 1).last() == found@[at as int]@);
        }
        let fault = &found[at];
        let stretch = match fault.place {
            FaultPlace::Stretch { start, end } => Some((start, end)),
            FaultPlace::EndOfText => Some((usize::MAX, usize::MAX)),
            FaultPlace::Untold => None,
        };
        match stretch {
            Some((start, end)) => {
                let ghost before = diagnostic_views(diagnostics@);
                diagnostics.push(
                    Diagnostic {
                        start: offset_to_pos(code, start),
                        end: offset_to_pos(code, end),
                        message: fault.message.clone(),
                    },
                );
                proof {
                    assert(diagnostic_views(diagnostics@) =~= before.push(
                        diagnostics@[diagnostics@.len() - 1]@,
                    ));
                }
            },
            None => {},
        }
        at = at + 1;
    }
    proof {
        assert(views.take(at as int) =~= views);
    }
    diagnostics
}

/// What is said of a text that is too long for the parser: one
/// diagnostic, at the start of the text.
pub open spec fn too_long() -> DiagnosticView {
    DiagnosticView {
        start: Position { line: 0, character: 0 },
        end: Position { line: 0, character: 0 },
        message: "the text is too long to be read"@,
    }
}

/// The diagnostics of a text: one for each fault that the parser tells
/// of and places, and for a text too long for the parser the one that
/// says so.
pub open spec fn diagnostics_of(text: Seq<char>) -> Seq<DiagnosticView> {
    if readable(text) {
        diagnostics_for(text, syntax_faults(text))
    } else {
        seq![too_long()]
    }
}

/// The diagnostics for a text.
pub fn diagnostics(code: &str) -> (diagnostics: Vec<Diagnostic>)
    ensures
        diagnostic_views(diagnostics@) == diagnostics_of(code@),
{
    if can_read(code) {
        let found = find_faults(code);
        locate(code, &found)
    } else {
        let mut diagnostics: Vec<Diagnostic> = Vec::new();
        diagnostics.push(
            Diagnostic {
                start: Position { line: 0, character: 0 },
                end: Position { line: 0, character: 0 },
                message: String::from_str("the text is too long to be read"),
            },
        );
        proof {
            assert(diagnostic_views(diagnostics@) =~= seq![too_long()]);
        }
        diagnostics
    }
}

} // verus!
