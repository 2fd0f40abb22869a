//! Outcomes of validations: lists of coded errors and warnings.
use vstd::prelude::*;
use crate::text;

verus! {

#[derive(Debug, Clone, Copy, PartialEq, Eq, Structural)]
pub enum Severity {
    Error,
    Warning,
}

/// One finding of a validation.
#[derive(Debug, Clone)]
pub struct Diagnostic {
    pub severity: Severity,
    pub code: String,
    pub message: String,
}

/// What a finding is.
pub ghost struct DiagnosticView {
    pub severity: Severity,
    pub code: Seq<char>,
    pub message: Seq<char>,
}

impl View for Diagnostic {
    type V = DiagnosticView;

    open spec fn view(&self) -> DiagnosticView {
        DiagnosticView { severity: self.severity, code: self.code@, message: self.message@ }
    }
}

pub open spec fn error_of(code: Seq<char>, message: Seq<char>) -> DiagnosticView {
    DiagnosticView { severity: Severity::Error, code, message }
}

pub open spec fn warning_of(code: Seq<char>, message: Seq<char>) -> DiagnosticView {
    DiagnosticView { severity: Severity::Warning, code, message }
}

/// The findings of a validation, in the order they were made.
#[derive(Debug, Clone)]
pub struct Outcome {
    diagnostics: Vec<Diagnostic>,
}

impl View for Outcome {
    type V = Seq<DiagnosticView>;

    closed spec fn view(&self) -> Seq<DiagnosticView> {
        self.diagnostics@.map_values(|d: Diagnostic| d@)
    }
}

/// Whether some finding is an error.
pub open spec fn has_error(s: Seq<DiagnosticView>) -> bool {
    exists|i: int| 0 <= i < s.len() && (#[trigger] s[i]).severity == Severity::Error
}

impl Outcome {
    pub fn new() -> (r: Outcome)
        ensures
            r@ == Seq::<DiagnosticView>::empty(),
    {
        let r = Outcome { diagnostics: Vec::new() };
        proof {
            assert(r@ =~= Seq::<DiagnosticView>::empty());
        }
        r
    }

    fn add(&mut self, severity: Severity, code: &str, message: String)
        ensures
            final(self)@ == old(self)@.push(
                DiagnosticView { severity, code: code@, message: message@ },
            ),
    {
        let d = Diagnostic { severity, code: text::owned(code), message };
        proof {
            assert(self.diagnostics@.push(d).map_values(|d: Diagnostic| d@) =~= self@.push(d@));
        }
        self.diagnostics.push(d);
    }

    /// Records an error.
    pub fn error(&mut self, code: &str, message: String)
        ensures
            final(self)@ == old(self)@.push(error_of(code@, message@)),
    {
        self.add(Severity::Error, code, message);
    }

    /// Records a warning.
    pub fn warning(&mut self, code: &str, message: String)
        ensures
            final(self)@ == old(self)@.push(warning_of(code@, message@)),
    {
        self.add(Severity::Warning, code, message);
    }

    /// Whether no error was recorded.
    pub fn is_ok(&self) -> (r: bool)
        ensures
            r == !has_error(self@),
    {
        let mut i: usize = 0;
        while i < self.diagnostics.len()
            invariant
                i <= self@.len(),
                self@.len() == self.diagnostics@.len(),
                forall|j: int| 0 <= j < i ==> (#[trigger] self@[j]).severity != Severity::Error,
            decreases self.diagnostics@.len() - i,
        {
            if self.diagnostics[i].severity == Severity::Error {
                proof {
                    assert(self@[i as int] == self.diagnostics@[i as int]@);
                }
                return false;
            }
            proof {
                assert(self@[i as int] == self.diagnostics@[i as int]@);
            }
            i += 1;
        }
        true
    }

    /// The findings, in order.
    pub fn diagnostics(&self) -> (r: &[Diagnostic])
        ensures
            r@.map_values(|d: Diagnostic| d@) == self@,
    {
        self.diagnostics.as_slice()
    }
}

} // verus!
