//! The field role resolver: which field of a record reports the call site,
//! and which field, if any, is the next cause.
//!
//! Both questions are answered by rules in a fixed order of precedence, the
//! first rule that applies deciding: an explicit marker, then a conventional
//! field name, then a field of the wrapper type `LocatedError`.

use crate::ast::Field;
use crate::attr::StackErrorKind;
use crate::diagnostic::{Diagnostic, DiagnosticView, ErrorKind};
use crate::least::{
    is_least, least, lemma_least_exists, lemma_least_is, lemma_least_none, lemma_least_some,
    lemma_least_step,
};
use crate::syntax::{GenericArgument, PathArguments, Type};
use crate::text::is_text;
use vstd::prelude::*;

verus! {

/// Whether `ty` is the wrapper type: a path whose last segment is
/// `LocatedError`, or a reference to such a path.
pub open spec fn spec_is_located_error(ty: Type) -> bool {
    let target = match ty {
        Type::Reference(elem) => *elem,
        _ => ty,
    };
    match target {
        Type::Path { qself, segments } => segments@.len() > 0 && segments@.last().ident@
            == "LocatedError"@,
        _ => false,
    }
}

/// The `T` of a path whose last segment is `Option<T>`.
pub open spec fn spec_option_inner_type(ty: Type) -> Option<Type> {
    match ty {
        Type::Path { qself, segments } => if segments@.len() > 0 && segments@.last().ident@
            == "Option"@ {
            match segments@.last().arguments {
                PathArguments::AngleBracketed(args) => if args@.len() > 0 {
                    match args@[0] {
                        GenericArgument::Type(inner) => Some(inner),
                        GenericArgument::Other => None,
                    }
                } else {
                    None
                },
                _ => None,
            }
        } else {
            None
        },
        _ => None,
    }
}

/// Whether `ty` is the wrapper type `LocatedError`, behind at most one reference.
pub fn is_located_error(ty: &Type) -> (yes: bool)
    ensures
        yes == spec_is_located_error(*ty),
{
    let target: &Type = match ty {
        Type::Reference(elem) => &**elem,
        _ => ty,
    };
    match target {
        Type::Path { qself: _, segments } => {
            if segments.len() == 0 {
                return false;
            }
            let last = &segments[segments.len() - 1];
            is_text(&last.ident, "LocatedError")
        },
        _ => false,
    }
}

/// The `T` of `Option<T>`: the first argument of a path whose last segment
/// is `Option`, where that argument is a type.
pub fn option_inner_type(ty: &Type) -> (inner: Option<&Type>)
    ensures
        match inner {
            Some(t) => spec_option_inner_type(*ty) == Some(*t),
            None => spec_option_inner_type(*ty) is None,
        },
{
    let segments = match ty {
        Type::Path { qself: _, segments } => segments,
        _ => {
            return None;
        },
    };
    if segments.len() == 0 {
        return None;
    }
    let last = &segments[segments.len() - 1];
    if !is_text(&last.ident, "Option") {
        return None;
    }
    let args = match &last.arguments {
        PathArguments::AngleBracketed(args) => args,
        _ => {
            return None;
        },
    };
    if args.len() == 0 {
        return None;
    }
    match &args[0] {
        GenericArgument::Type(t) => Some(t),
        GenericArgument::Other => None,
    }
}

/// A property of a field that a rule looks for.
#[derive(Debug, Clone, Copy, PartialEq, Eq, Structural)]
pub enum Mark {
    /// The field carries `#[location]`.
    LocationAttr,
    /// The field carries `#[source]` or `#[stack_error(...)]`.
    CauseAttr,
    /// The field is named `location`.
    NamedLocation,
    /// The field is named `source`.
    NamedSource,
    /// The field's type is the wrapper type `LocatedError`.
    Wrapper,
}

impl<'a> Field<'a> {
    /// Whether the field has the property `mark`.
    pub open spec fn spec_has(self, mark: Mark) -> bool {
        match mark {
            Mark::LocationAttr => self.attrs.location is Some,
            Mark::CauseAttr => self.attrs.marks_cause(),
            Mark::NamedLocation => self.member.spec_is_named("location"@),
            Mark::NamedSource => self.member.spec_is_named("source"@),
            Mark::Wrapper => spec_is_located_error(*self.ty),
        }
    }

    /// Whether the field's type is the wrapper type `LocatedError`.
    pub open spec fn spec_is_located_error(self) -> bool {
        spec_is_located_error(*self.ty)
    }

    /// How the field, taken as the cause, takes part in the chain.
    pub open spec fn spec_stack_error_kind(self) -> StackErrorKind {
        match self.attrs.stack_error {
            Some(marker) => marker.kind,
            None => StackErrorKind::Stacked,
        }
    }

    /// Whether the field has the property `mark`.
    pub fn has(&self, mark: Mark) -> (yes: bool)
        ensures
            yes == self.spec_has(mark),
    {
        match mark {
            Mark::LocationAttr => self.attrs.location.is_some(),
            Mark::CauseAttr => self.attrs.source.is_some() || self.attrs.stack_error.is_some(),
            Mark::NamedLocation => self.member.is_named("location"),
            Mark::NamedSource => self.member.is_named("source"),
            Mark::Wrapper => is_located_error(self.ty),
        }
    }

    /// Whether the field's type is the wrapper type `LocatedError`.
    pub fn is_located_error(&self) -> (yes: bool)
        ensures
            yes == self.spec_is_located_error(),
    {
        is_located_error(self.ty)
    }

    /// How the field, taken as the cause, takes part in the chain: as
    /// `#[stack_error(...)]` says, and stacked where the field has no such marker.
    pub fn stack_error_kind(&self) -> (kind: StackErrorKind)
        ensures
            kind == self.spec_stack_error_kind(),
    {
        match &self.attrs.stack_error {
            Some(marker) => marker.kind,
            None => StackErrorKind::Stacked,
        }
    }
}

/// The positions of the fields with the property `mark`.
pub open spec fn mark_at(fields: Seq<Field>, mark: Mark) -> spec_fn(int) -> bool {
    |i: int| fields[i].spec_has(mark)
}

/// The first field at or after `from` with the property `mark`.
pub fn scan(fields: &[Field], mark: Mark, from: usize) -> (found: Option<usize>)
    ensures
        match found {
            Some(i) => least(from as int, fields@.len() as int, mark_at(fields@, mark)) == Some(
                i as int,
            ),
            None => least(from as int, fields@.len() as int, mark_at(fields@, mark)) is None,
        },
{
    let mut i: usize = from;
    while i < fields.len()
        invariant
            from <= i,
            forall|j: int| from <= j < i ==> !#[trigger] mark_at(fields@, mark)(j),
        decreases fields.len() - i,
    {
        if fields[i].has(mark) {
            proof {
                assert(mark_at(fields@, mark)(i as int));
                lemma_least_is(from as int, fields@.len() as int, mark_at(fields@, mark), i as int);
            }
            return Some(i);
        }
        i += 1;
    }
    proof {
        lemma_least_none(from as int, fields@.len() as int, mark_at(fields@, mark));
    }
    None
}

/// The one field with the property `mark`: nothing where no field has it, and
/// the diagnostic `twice`, on the second such field, where two have it.
pub open spec fn only(fields: Seq<Field>, mark: Mark, twice: ErrorKind) -> Result<
    Option<usize>,
    DiagnosticView,
> {
    let n = fields.len() as int;
    match least(0, n, mark_at(fields, mark)) {
        None => Ok(None),
        Some(first) => match least(first + 1, n, mark_at(fields, mark)) {
            Some(second) => Err(DiagnosticView::at_field(twice, second as usize)),
            None => Ok(Some(first as usize)),
        },
    }
}

/// The field of the wrapper type `LocatedError`, where a record has one.
/// A second such field is a duplicate.
pub open spec fn spec_find_located_error(fields: Seq<Field>) -> Result<
    Option<usize>,
    DiagnosticView,
> {
    only(fields, Mark::Wrapper, ErrorKind::DuplicateWrapperField)
}

/// The field that reports the call site.
///
/// In order of precedence: the one field that carries `#[location]` (a second
/// one is a duplicate); the first field named `location`; the one field of
/// the wrapper type (a second one is a duplicate). A record with none of
/// these has no location.
pub open spec fn spec_find_location(fields: Seq<Field>) -> Result<usize, DiagnosticView> {
    match only(fields, Mark::LocationAttr, ErrorKind::DuplicateLocationMarker) {
        Err(d) => Err(d),
        Ok(Some(marked)) => Ok(marked),
        Ok(None) => match least(0, fields.len() as int, mark_at(fields, Mark::NamedLocation)) {
            Some(named) => Ok(named as usize),
            None => match spec_find_located_error(fields) {
                Err(d) => Err(d),
                Ok(Some(wrapper)) => Ok(wrapper),
                Ok(None) => Err(DiagnosticView::of(ErrorKind::MissingLocation)),
            },
        },
    }
}

/// The field that is the next cause, if the record has one.
///
/// In order of precedence: the one field that carries `#[source]` or
/// `#[stack_error(...)]` (a second one is a duplicate); the first field named
/// `source`; the one field of the wrapper type (a second one is a
/// duplicate). A record with none of these ends the chain.
pub open spec fn spec_find_source(fields: Seq<Field>) -> Result<Option<usize>, DiagnosticView> {
    match only(fields, Mark::CauseAttr, ErrorKind::DuplicateCauseMarker) {
        Err(d) => Err(d),
        Ok(Some(marked)) => Ok(Some(marked)),
        Ok(None) => match least(0, fields.len() as int, mark_at(fields, Mark::NamedSource)) {
            Some(named) => Ok(Some(named as usize)),
            None => spec_find_located_error(fields),
        },
    }
}

/// Finds the one field with the property `mark`; `twice` is the diagnostic
/// for a second one.
fn find_only(fields: &[Field], mark: Mark, twice: ErrorKind) -> (found: Result<
    Option<usize>,
    Diagnostic,
>)
    ensures
        match found {
            Ok(i) => only(fields@, mark, twice) == Ok::<_, DiagnosticView>(i),
            Err(d) => only(fields@, mark, twice) == Err::<Option<usize>, _>(d@),
        },
{
    let n = fields.len();
    match scan(fields, mark, 0) {
        None => Ok(None),
        Some(first) => {
            proof {
                lemma_least_some(0, fields@.len() as int, mark_at(fields@, mark));
                assert(is_least(0, fields@.len() as int, mark_at(fields@, mark), first as int));
                assert(first < n);
            }
            match scan(fields, mark, first + 1) {
                Some(second) => Err(Diagnostic::at_field(twice, second)),
                None => Ok(Some(first)),
            }
        },
    }
}

/// Finds the field of the wrapper type `LocatedError`, if the record has one.
/// Two such fields are refused, the diagnostic naming the second.
pub fn find_located_error(fields: &[Field]) -> (found: Result<Option<usize>, Diagnostic>)
    ensures
        match found {
            Ok(i) => spec_find_located_error(fields@) == Ok::<_, DiagnosticView>(i),
            Err(d) => spec_find_located_error(fields@) == Err::<Option<usize>, _>(d@),
        },
{
    find_only(fields, Mark::Wrapper, ErrorKind::DuplicateWrapperField)
}

/// Finds the field that reports the call site, by the rules of [`spec_find_location`].
///
/// The result is the index of the field. The record is refused where two
/// fields carry `#[location]`; where the wrapper type has to decide and two
/// fields have it; and where no rule applies.
pub fn find_location(fields: &[Field]) -> (found: Result<usize, Diagnostic>)
    ensures
        match found {
            Ok(i) => spec_find_location(fields@) == Ok::<_, DiagnosticView>(i),
            Err(d) => spec_find_location(fields@) == Err::<usize, _>(d@),
        },
{
    if let Some(marked) = find_only(fields, Mark::LocationAttr, ErrorKind::DuplicateLocationMarker)? {
        return Ok(marked);
    }
    if let Some(named) = scan(fields, Mark::NamedLocation, 0) {
        return Ok(named);
    }
    if let Some(wrapper) = find_located_error(fields)? {
        return Ok(wrapper);
    }
    Err(Diagnostic::new(ErrorKind::MissingLocation))
}

/// Finds the field that is the next cause, by the rules of [`spec_find_source`].
///
/// The result is the index of the field, or nothing where the record ends
/// the chain. The record is refused where two fields carry a cause marker,
/// and where the wrapper type has to decide and two fields have it.
pub fn find_source(fields: &[Field]) -> (found: Result<Option<usize>, Diagnostic>)
    ensures
        match found {
            Ok(i) => spec_find_source(fields@) == Ok::<_, DiagnosticView>(i),
            Err(d) => spec_find_source(fields@) == Err::<Option<usize>, _>(d@),
        },
{
    if let Some(marked) = find_only(fields, Mark::CauseAttr, ErrorKind::DuplicateCauseMarker)? {
        return Ok(Some(marked));
    }
    if let Some(named) = scan(fields, Mark::NamedSource, 0) {
        return Ok(Some(named));
    }
    find_located_error(fields)
}

/// The cause of a record: which field it is, how it takes part in the
/// chain, and whether its type is an `Option`.
#[derive(Debug, Clone, Copy, PartialEq, Eq, Structural)]
pub struct Cause {
    /// The index of the cause field.
    pub field: usize,
    /// Whether the cause continues the structured chain or ends it.
    pub kind: StackErrorKind,
    /// Whether the field may hold no cause at run time.
    pub optional: bool,
}

/// The roles of one record: its location field, and its cause if it has one.
#[derive(Debug, Clone, Copy, PartialEq, Eq, Structural)]
pub struct RoleAssignment {
    /// The index of the field that reports the call site.
    pub location: usize,
    /// Whether the location is read by asking the field, which is of the
    /// wrapper type, rather than by reading the field itself.
    pub delegated: bool,
    /// The next cause; a record without one ends the chain.
    pub cause: Option<Cause>,
}

/// What is known of the field `field` when it is taken as the cause.
pub open spec fn cause_of(fields: Seq<Field>, field: usize) -> Cause {
    Cause {
        field,
        kind: fields[field as int].spec_stack_error_kind(),
        optional: spec_option_inner_type(*fields[field as int].ty) is Some,
    }
}

/// The roles of a record with the fields `fields`: the location is resolved
/// first, then the cause, and the first violated rule is the diagnostic.
/// The two roles are resolved independently and may fall on one field.
pub open spec fn spec_resolve(fields: Seq<Field>) -> Result<RoleAssignment, DiagnosticView> {
    match spec_find_location(fields) {
        Err(d) => Err(d),
        Ok(location) => match spec_find_source(fields) {
            Err(d) => Err(d),
            Ok(cause) => Ok(
                RoleAssignment {
                    location,
                    delegated: fields[location as int].spec_is_located_error(),
                    cause: match cause {
                        Some(field) => Some(cause_of(fields, field)),
                        None => None,
                    },
                },
            ),
        },
    }
}

/// What [`only`] returns lies within the record.
pub proof fn lemma_only_in_range(fields: Seq<Field>, mark: Mark, twice: ErrorKind)
    requires
        fields.len() <= usize::MAX,
    ensures
        only(fields, mark, twice) matches Ok(Some(i)) ==> i < fields.len() && fields[i as int].spec_has(
            mark,
        ),
{
    let n = fields.len() as int;
    lemma_least_some(0, n, mark_at(fields, mark));
    if let Some(first) = least(0, n, mark_at(fields, mark)) {
        assert(mark_at(fields, mark)(first));
    }
}

/// A location that was found is a field of the record.
pub proof fn lemma_location_in_range(fields: Seq<Field>)
    requires
        fields.len() <= usize::MAX,
    ensures
        spec_find_location(fields) matches Ok(i) ==> i < fields.len(),
{
    let n = fields.len() as int;
    lemma_only_in_range(fields, Mark::LocationAttr, ErrorKind::DuplicateLocationMarker);
    lemma_only_in_range(fields, Mark::Wrapper, ErrorKind::DuplicateWrapperField);
    lemma_least_some(0, n, mark_at(fields, Mark::NamedLocation));
}

/// A cause that was found is a field of the record.
pub proof fn lemma_source_in_range(fields: Seq<Field>)
    requires
        fields.len() <= usize::MAX,
    ensures
        spec_find_source(fields) matches Ok(Some(i)) ==> i < fields.len(),
{
    let n = fields.len() as int;
    lemma_only_in_range(fields, Mark::CauseAttr, ErrorKind::DuplicateCauseMarker);
    lemma_only_in_range(fields, Mark::Wrapper, ErrorKind::DuplicateWrapperField);
    lemma_least_some(0, n, mark_at(fields, Mark::NamedSource));
}

/// Resolves the roles of one record: the location first, then the cause.
///
/// The record is refused with the diagnostic of the first rule that it
/// violates. That one field serves as location and as cause is no violation.
pub fn resolve(fields: &[Field]) -> (roles: Result<RoleAssignment, Diagnostic>)
    ensures
        match roles {
            Ok(r) => spec_resolve(fields@) == Ok::<_, DiagnosticView>(r),
            Err(d) => spec_resolve(fields@) == Err::<RoleAssignment, _>(d@),
        },
{
    let n = fields.len();
    let location = find_location(fields)?;
    let cause = find_source(fields)?;
    proof {
        lemma_location_in_range(fields@);
        lemma_source_in_range(fields@);
    }
    let delegated = fields[location].is_located_error();
    let cause = match cause {
        Some(field) => Some(
            Cause {
                field,
                kind: fields[field].stack_error_kind(),
                optional: option_inner_type(fields[field].ty).is_some(),
            },
        ),
        None => None,
    };
    Ok(RoleAssignment { location, delegated, cause })
}

/// Two marked fields make the one-field rule fail, on the second of them.
proof fn lemma_only_twice(fields: Seq<Field>, mark: Mark, twice: ErrorKind, i: int, j: int)
    requires
        0 <= i < j < fields.len(),
        fields[i].spec_has(mark),
        fields[j].spec_has(mark),
    ensures
        only(fields, mark, twice) matches Err(d) && d.kind == twice && d.field is Some,
{
    let n = fields.len() as int;
    let p = mark_at(fields, mark);
    assert(p(i));
    assert(p(j));
    lemma_least_exists(0, n, p, i);
    let first = least(0, n, p)->Some_0;
    lemma_least_exists(first + 1, n, p, j);
}

/// A single marked field is what the one-field rule picks.
proof fn lemma_only_once(fields: Seq<Field>, mark: Mark, twice: ErrorKind, i: int)
    requires
        0 <= i < fields.len(),
        fields[i].spec_has(mark),
        forall|j: int| 0 <= j < fields.len() && j != i ==> !fields[j].spec_has(mark),
    ensures
        only(fields, mark, twice) == Ok::<_, DiagnosticView>(Some(i as usize)),
{
    let n = fields.len() as int;
    let p = mark_at(fields, mark);
    assert(p(i));
    assert(is_least(0, n, p, i)) by {
        assert forall|j: int| 0 <= j < i implies !#[trigger] p(j) by {}
    }
    lemma_least_is(0, n, p, i);
    assert forall|j: int| i + 1 <= j < n implies !#[trigger] p(j) by {}
    lemma_least_none(i + 1, n, p);
}

/// No marked field: the one-field rule picks nothing.
proof fn lemma_only_never(fields: Seq<Field>, mark: Mark, twice: ErrorKind)
    requires
        forall|j: int| 0 <= j < fields.len() ==> !fields[j].spec_has(mark),
    ensures
        only(fields, mark, twice) == Ok::<Option<usize>, DiagnosticView>(None),
{
    let n = fields.len() as int;
    let p = mark_at(fields, mark);
    assert forall|j: int| 0 <= j < n implies !#[trigger] p(j) by {}
    lemma_least_none(0, n, p);
}

/// The explicit cause marker has precedence over the field name `source`.
///
/// In a record with a field that carries `#[source]` or `#[stack_error(...)]`
/// and a field named `source`, the cause is never chosen by name: either a
/// marked field is the cause, or the markers are refused as duplicates. Where
/// just one field is marked, that field is the cause.
pub proof fn law_marker_beats_name(fields: Seq<Field>, marked: int, named: int)
    requires
        fields.len() <= usize::MAX,
        0 <= marked < fields.len(),
        0 <= named < fields.len(),
        fields[marked].spec_has(Mark::CauseAttr),
        fields[named].spec_has(Mark::NamedSource),
    ensures
        match spec_find_source(fields) {
            Ok(Some(i)) => i < fields.len() && fields[i as int].spec_has(Mark::CauseAttr),
            Ok(None) => false,
            Err(d) => d.kind == ErrorKind::DuplicateCauseMarker,
        },
        (forall|j: int| 0 <= j < fields.len() && j != marked ==> !fields[j].spec_has(Mark::CauseAttr))
            ==> spec_find_source(fields) == Ok::<_, DiagnosticView>(Some(marked as usize)),
{
    let n = fields.len() as int;
    let p = mark_at(fields, Mark::CauseAttr);
    assert(p(marked));
    lemma_least_exists(0, n, p, marked);
    lemma_only_in_range(fields, Mark::CauseAttr, ErrorKind::DuplicateCauseMarker);
    if forall|j: int| 0 <= j < fields.len() && j != marked ==> !fields[j].spec_has(Mark::CauseAttr) {
        lemma_only_once(fields, Mark::CauseAttr, ErrorKind::DuplicateCauseMarker, marked);
    }
}

/// One field of the wrapper type can be location and cause at once.
///
/// The two roles are resolved independently: a record is refused only where
/// one of the two searches refuses it, never because both fall on one field.
/// In a record whose only clue is a single field of the wrapper type, that
/// field is the location, read by delegation, and the cause, continuing the
/// structured chain.
pub proof fn law_wrapper_serves_both(fields: Seq<Field>, wrapper: int)
    requires
        0 <= wrapper < fields.len() <= usize::MAX,
    ensures
        spec_resolve(fields) is Ok <==> spec_find_location(fields) is Ok && spec_find_source(
            fields,
        ) is Ok,
        ({
            &&& fields[wrapper].spec_has(Mark::Wrapper)
            &&& forall|j: int|
                0 <= j < fields.len() && j != wrapper ==> !fields[j].spec_has(Mark::Wrapper)
            &&& forall|j: int|
                0 <= j < fields.len() ==> !fields[j].spec_has(Mark::LocationAttr)
                    && !fields[j].spec_has(Mark::CauseAttr) && !fields[j].spec_has(
                    Mark::NamedLocation,
                ) && !fields[j].spec_has(Mark::NamedSource)
        }) ==> spec_resolve(fields) == Ok::<_, DiagnosticView>(
            RoleAssignment {
                location: wrapper as usize,
                delegated: true,
                cause: Some(
                    Cause {
                        field: wrapper as usize,
                        kind: StackErrorKind::Stacked,
                        optional: spec_option_inner_type(*fields[wrapper].ty) is Some,
                    },
                ),
            },
        ),
{
    if ({
        &&& fields[wrapper].spec_has(Mark::Wrapper)
        &&& forall|j: int|
            0 <= j < fields.len() && j != wrapper ==> !fields[j].spec_has(Mark::Wrapper)
        &&& forall|j: int|
            0 <= j < fields.len() ==> !fields[j].spec_has(Mark::LocationAttr) && !fields[j].spec_has(
                Mark::CauseAttr,
            ) && !fields[j].spec_has(Mark::NamedLocation) && !fields[j].spec_has(Mark::NamedSource)
    }) {
        let n = fields.len() as int;
        lemma_only_never(fields, Mark::LocationAttr, ErrorKind::DuplicateLocationMarker);
        lemma_only_never(fields, Mark::CauseAttr, ErrorKind::DuplicateCauseMarker);
        assert forall|j: int| 0 <= j < n implies !#[trigger] mark_at(fields, Mark::NamedLocation)(
            j,
        ) by {}
        lemma_least_none(0, n, mark_at(fields, Mark::NamedLocation));
        assert forall|j: int| 0 <= j < n implies !#[trigger] mark_at(fields, Mark::NamedSource)(
            j,
        ) by {}
        lemma_least_none(0, n, mark_at(fields, Mark::NamedSource));
        lemma_only_once(fields, Mark::Wrapper, ErrorKind::DuplicateWrapperField, wrapper);
        assert(!fields[wrapper].spec_has(Mark::CauseAttr));
    }
}

/// Two location markers, or two cause markers, in one record are refused.
///
/// A record in which two different fields carry `#[location]` has no
/// location, and one in which two different fields carry `#[source]` or
/// `#[stack_error(...)]` has no cause: each is a duplicate, and the record
/// as a whole is refused.
pub proof fn law_duplicate_markers_fail(fields: Seq<Field>, mark: Mark, i: int, j: int)
    requires
        fields.len() <= usize::MAX,
        0 <= i < fields.len(),
        0 <= j < fields.len(),
        i != j,
        mark == Mark::LocationAttr || mark == Mark::CauseAttr,
        fields[i].spec_has(mark),
        fields[j].spec_has(mark),
    ensures
        mark == Mark::LocationAttr ==> (spec_find_location(fields) matches Err(d) && d.kind
            == ErrorKind::DuplicateLocationMarker),
        mark == Mark::CauseAttr ==> (spec_find_source(fields) matches Err(d) && d.kind
            == ErrorKind::DuplicateCauseMarker),
        spec_resolve(fields) is Err,
{
    let lo = if i < j {
        i
    } else {
        j
    };
    let hi = if i < j {
        j
    } else {
        i
    };
    if mark == Mark::LocationAttr {
        lemma_only_twice(fields, mark, ErrorKind::DuplicateLocationMarker, lo, hi);
    } else {
        lemma_only_twice(fields, mark, ErrorKind::DuplicateCauseMarker, lo, hi);
    }
}

} // verus!
