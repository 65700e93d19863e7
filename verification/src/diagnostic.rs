//! Diagnostics: what the resolver reports when a type description breaks a rule.
//!
//! A diagnostic names the rule that was violated and the place of the
//! offending item: the variant (for an enum), the field and the attribute, as
//! far as each applies. Turning that place into a source span is left to the
//! caller, which still holds the syntax tree.

use vstd::prelude::*;
use vstd::string::StringExecFns;

verus! {

/// The rule that a description violated.
#[derive(Debug, Clone, Copy, PartialEq, Eq, Structural)]
pub enum ErrorKind {
    /// The input is a union.
    UnionUnsupported,
    /// The record has no field that could carry a role.
    UnitShapeUnsupported,
    /// One field carries `#[source]` twice.
    RepeatedSourceAttribute,
    /// One field carries `#[location]` twice.
    RepeatedLocationAttribute,
    /// One field carries `#[stack_error(...)]` twice.
    RepeatedStackErrorAttribute,
    /// `#[source]` or `#[location]` was written with arguments.
    UnexpectedAttributeToken,
    /// The argument of `#[stack_error(...)]` is not `std` or `stacked`.
    InvalidAnnotationArgument,
    /// Two fields of one record carry `#[location]`.
    DuplicateLocationMarker,
    /// Two fields of one record carry `#[source]` or `#[stack_error(...)]`.
    DuplicateCauseMarker,
    /// Two fields of one record have the wrapper type, and a rule had to pick one.
    DuplicateWrapperField,
    /// No field of the record can report a call site.
    MissingLocation,
    /// A field that was asked for is not a field of the variant with braces.
    StructFieldNotFound,
    /// A field that was asked for is not a field of the tuple variant.
    TupleFieldNotFound,
}

/// The mathematical value of a [`Diagnostic`].
pub struct DiagnosticView {
    pub kind: ErrorKind,
    pub variant: Option<usize>,
    pub field: Option<usize>,
    pub attribute: Option<usize>,
    pub argument: Option<Seq<char>>,
}

/// One violated rule, with the place of the offending item.
#[derive(Debug)]
pub struct Diagnostic {
    /// The rule.
    pub kind: ErrorKind,
    /// The index of the variant, when the record is an enum variant.
    pub variant: Option<usize>,
    /// The index of the offending field within its record.
    pub field: Option<usize>,
    /// The index of the offending attribute within its field.
    pub attribute: Option<usize>,
    /// The identifier that was written where `std` or `stacked` was expected.
    pub argument: Option<String>,
}

impl View for Diagnostic {
    type V = DiagnosticView;

    open spec fn view(&self) -> DiagnosticView {
        DiagnosticView {
            kind: self.kind,
            variant: self.variant,
            field: self.field,
            attribute: self.attribute,
            argument: match self.argument {
                Some(s) => Some(s@),
                None => None,
            },
        }
    }
}

impl DiagnosticView {
    /// A diagnostic about the record as a whole.
    pub open spec fn of(kind: ErrorKind) -> DiagnosticView {
        DiagnosticView { kind, variant: None, field: None, attribute: None, argument: None }
    }

    /// A diagnostic about one field.
    pub open spec fn at_field(kind: ErrorKind, field: usize) -> DiagnosticView {
        DiagnosticView { kind, variant: None, field: Some(field), attribute: None, argument: None }
    }

    /// A diagnostic about one attribute of a field that is not placed yet.
    pub open spec fn at_attribute(kind: ErrorKind, attribute: usize) -> DiagnosticView {
        DiagnosticView {
            kind,
            variant: None,
            field: None,
            attribute: Some(attribute),
            argument: None,
        }
    }

    /// The same diagnostic, placed in field `field`.
    pub open spec fn in_field(self, field: usize) -> DiagnosticView {
        DiagnosticView { field: Some(field), ..self }
    }

    /// The same diagnostic, placed in variant `variant`.
    pub open spec fn in_variant(self, variant: usize) -> DiagnosticView {
        DiagnosticView { variant: Some(variant), ..self }
    }

    /// The same diagnostic, quoting the identifier `argument`.
    pub open spec fn quoting(self, argument: Seq<char>) -> DiagnosticView {
        DiagnosticView { argument: Some(argument), ..self }
    }

    /// The text shown to the author of the type.
    pub open spec fn message(self) -> Seq<char> {
        match self.kind {
            ErrorKind::UnionUnsupported => "union is not supported"@,
            ErrorKind::UnitShapeUnsupported => "unit struct and unit variant are not supported"@,
            ErrorKind::RepeatedSourceAttribute => "duplicate `#[source]` attribute"@,
            ErrorKind::RepeatedLocationAttribute => "duplicate `#[location]` attribute"@,
            ErrorKind::RepeatedStackErrorAttribute => "duplicate `#[stack_error(...)]` attribute"@,
            ErrorKind::UnexpectedAttributeToken => "unexpected token in attribute"@,
            ErrorKind::InvalidAnnotationArgument => match self.argument {
                Some(written) => "invalid `#[stack_error("@ + written
                    + ")]` attribute. expected `std` or `stacked`"@,
                None => "invalid `#[stack_error(...)]` attribute. expected `std` or `stacked`"@,
            },
            ErrorKind::DuplicateLocationMarker => "duplicate `#[location]` attribute."@,
            ErrorKind::DuplicateCauseMarker => "duplicate `#[source]` or `#[stack_error]` attribute"@,
            ErrorKind::DuplicateWrapperField => "duplicate `LocatedError` field"@,
            ErrorKind::MissingLocation => "need `#[location]` attribute or field named `location`"@,
            ErrorKind::StructFieldNotFound => "same struct field is not found by unknown reason"@,
            ErrorKind::TupleFieldNotFound => "same tuple field is not found by unknown reason"@,
        }
    }
}

/// The values of a list of diagnostics, in order.
pub open spec fn views(list: Seq<Diagnostic>) -> Seq<DiagnosticView> {
    list.map_values(|d: Diagnostic| d@)
}

/// The diagnostics that `found` gives for the indices below `n`, in order of
/// index, each placed in the variant of its index.
pub open spec fn gather(found: spec_fn(int) -> Option<DiagnosticView>, n: int) -> Seq<
    DiagnosticView,
>
    decreases n,
{
    if n <= 0 {
        Seq::empty()
    } else {
        match found(n - 1) {
            Some(d) => gather(found, n - 1).push(d.in_variant((n - 1) as usize)),
            None => gather(found, n - 1),
        }
    }
}

/// Puts the diagnostic `d`, placed in variant `variant`, at the end of `list`.
pub fn refuse(list: &mut Vec<Diagnostic>, d: Diagnostic, variant: usize)
    ensures
        views(final(list)@) == views(old(list)@).push(d@.in_variant(variant)),
        final(list)@.len() == old(list)@.len() + 1,
{
    let placed = d.in_variant(variant);
    let ghost before = list@;
    list.push(placed);
    assert(views(list@) =~= views(before).push(placed@));
}

impl Diagnostic {
    /// A diagnostic about the record as a whole.
    pub fn new(kind: ErrorKind) -> (d: Diagnostic)
        ensures
            d@ == DiagnosticView::of(kind),
    {
        Diagnostic { kind, variant: None, field: None, attribute: None, argument: None }
    }

    /// A diagnostic about field `field` of the record.
    pub fn at_field(kind: ErrorKind, field: usize) -> (d: Diagnostic)
        ensures
            d@ == DiagnosticView::at_field(kind, field),
    {
        Diagnostic { kind, variant: None, field: Some(field), attribute: None, argument: None }
    }

    /// A diagnostic about attribute `attribute` of a field that is not placed yet.
    pub fn at_attribute(kind: ErrorKind, attribute: usize) -> (d: Diagnostic)
        ensures
            d@ == DiagnosticView::at_attribute(kind, attribute),
    {
        Diagnostic { kind, variant: None, field: None, attribute: Some(attribute), argument: None }
    }

    /// Places the diagnostic in field `field`.
    pub fn in_field(self, field: usize) -> (d: Diagnostic)
        ensures
            d@ == self@.in_field(field),
    {
        Diagnostic { field: Some(field), ..self }
    }

    /// Places the diagnostic in variant `variant`.
    pub fn in_variant(self, variant: usize) -> (d: Diagnostic)
        ensures
            d@ == self@.in_variant(variant),
    {
        Diagnostic { variant: Some(variant), ..self }
    }

    /// Quotes the identifier `argument` in the diagnostic.
    pub fn quoting(self, argument: String) -> (d: Diagnostic)
        ensures
            d@ == self@.quoting(argument@),
    {
        Diagnostic { argument: Some(argument), ..self }
    }

    /// A copy of the diagnostic.
    pub fn duplicate(&self) -> (d: Diagnostic)
        ensures
            d@ == self@,
    {
        Diagnostic {
            kind: self.kind,
            variant: self.variant,
            field: self.field,
            attribute: self.attribute,
            argument: match &self.argument {
                Some(s) => Some(s.clone()),
                None => None,
            },
        }
    }

    /// The text shown to the author of the type.
    pub fn message(&self) -> (text: String)
        ensures
            text@ == self@.message(),
    {
        match self.kind {
            ErrorKind::UnionUnsupported => String::from_str("union is not supported"),
            ErrorKind::UnitShapeUnsupported => String::from_str(
                "unit struct and unit variant are not supported",
            ),
            ErrorKind::RepeatedSourceAttribute => String::from_str(
                "duplicate `#[source]` attribute",
            ),
            ErrorKind::RepeatedLocationAttribute => String::from_str(
                "duplicate `#[location]` attribute",
            ),
            ErrorKind::RepeatedStackErrorAttribute => String::from_str(
                "duplicate `#[stack_error(...)]` attribute",
            ),
            ErrorKind::UnexpectedAttributeToken => String::from_str(
                "unexpected token in attribute",
            ),
            ErrorKind::InvalidAnnotationArgument => match &self.argument {
                Some(written) => {
                    let mut text = String::from_str("invalid `#[stack_error(");
                    text.append(written.as_str());
                    text.append(")]` attribute. expected `std` or `stacked`");
                    text
                },
                None => String::from_str(
                    "invalid `#[stack_error(...)]` attribute. expected `std` or `stacked`",
                ),
            },
            ErrorKind::DuplicateLocationMarker => String::from_str(
                "duplicate `#[location]` attribute.",
            ),
            ErrorKind::DuplicateCauseMarker => String::from_str(
                "duplicate `#[source]` or `#[stack_error]` attribute",
            ),
            ErrorKind::DuplicateWrapperField => String::from_str("duplicate `LocatedError` field"),
            ErrorKind::MissingLocation => String::from_str(
                "need `#[location]` attribute or field named `location`",
            ),
            ErrorKind::StructFieldNotFound => String::from_str(
                "same struct field is not found by unknown reason",
            ),
            ErrorKind::TupleFieldNotFound => String::from_str(
                "same tuple field is not found by unknown reason",
            ),
        }
    }
}

} // verus!
