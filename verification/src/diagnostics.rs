//! Domain values produced by a compilation pass: warnings, errors, and the
//! client-facing diagnostics they convert to.

use vstd::prelude::*;

verus! {

/// A half-open byte range in a source file.
#[derive(Clone, Copy, Debug, PartialEq, Eq, Structural)]
pub struct SrcSpan {
    pub start: u32,
    pub end: u32,
}

impl SrcSpan {
    pub fn new(start: u32, end: u32) -> (s: SrcSpan)
        ensures
            s == (SrcSpan { start, end }),
    {
        SrcSpan { start, end }
    }
}

/// Where a diagnostic is anchored: a file path and a span within that file.
#[derive(Clone, Debug, PartialEq, Eq)]
pub struct Location {
    pub path: String,
    pub span: SrcSpan,
}

/// Mathematical value of a [`Location`].
#[verifier::ext_equal]
pub ghost struct LocationView {
    pub path: Seq<char>,
    pub span: SrcSpan,
}

impl View for Location {
    type V = LocationView;

    open spec fn view(&self) -> LocationView {
        LocationView { path: self.path@, span: self.span }
    }
}

/// One user-facing issue, optionally anchored to a file location.
///
/// Rendering content is opaque to the bookkeeping logic: only equality and
/// the presence or absence of a location matter here.
#[derive(Clone, Debug, PartialEq, Eq)]
pub struct Diagnostic {
    pub text: String,
    pub location: Option<Location>,
}

/// Mathematical value of a [`Diagnostic`].
#[verifier::ext_equal]
pub ghost struct DiagnosticView {
    pub text: Seq<char>,
    pub location: Option<LocationView>,
}

impl View for Diagnostic {
    type V = DiagnosticView;

    open spec fn view(&self) -> DiagnosticView {
        DiagnosticView {
            text: self.text@,
            location: match self.location {
                Option::Some(l) => Option::Some(l@),
                Option::None => Option::None,
            },
        }
    }
}

/// The values of a sequence of diagnostics.
pub open spec fn diags_view(s: Seq<Diagnostic>) -> Seq<DiagnosticView> {
    s.map_values(|d: Diagnostic| d@)
}

/// A non-fatal outcome of a compilation pass, convertible to one diagnostic.
#[derive(Clone, Debug, PartialEq, Eq)]
pub struct Warning {
    pub text: String,
    pub location: Option<Location>,
}

impl Warning {
    /// The diagnostic this warning converts to.
    pub open spec fn to_diagnostic_spec(&self) -> DiagnosticView {
        DiagnosticView {
            text: self.text@,
            location: match self.location {
                Option::Some(l) => Option::Some(l@),
                Option::None => Option::None,
            },
        }
    }

    pub fn to_diagnostic(&self) -> (d: Diagnostic)
        ensures
            d@ == self.to_diagnostic_spec(),
    {
        Diagnostic { text: self.text.clone(), location: clone_location(&self.location) }
    }
}

/// The fatal outcome of a failed compilation pass, convertible to one
/// diagnostic. An error without a location describes an environment-level
/// failure with no file to blame.
#[derive(Clone, Debug, PartialEq, Eq)]
pub struct Error {
    pub text: String,
    pub location: Option<Location>,
}

impl Error {
    /// The diagnostic this error converts to.
    pub open spec fn to_diagnostic_spec(&self) -> DiagnosticView {
        DiagnosticView {
            text: self.text@,
            location: match self.location {
                Option::Some(l) => Option::Some(l@),
                Option::None => Option::None,
            },
        }
    }

    pub fn to_diagnostic(&self) -> (d: Diagnostic)
        ensures
            d@ == self.to_diagnostic_spec(),
    {
        Diagnostic { text: self.text.clone(), location: clone_location(&self.location) }
    }
}

fn clone_location(location: &Option<Location>) -> (r: Option<Location>)
    ensures
        (match *location {
            Option::Some(l) => r matches Option::Some(c) && c@ == l@,
            Option::None => r is None,
        }),
{
    match location {
        Option::Some(l) => Option::Some(Location { path: l.path.clone(), span: l.span }),
        Option::None => Option::None,
    }
}

} // verus!
