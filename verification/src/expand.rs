//! From resolved roles to the two methods of an implementation.
//!
//! Nothing here writes code. Each function decides what the generated
//! `location` and `next` have to do and describes it as a plain value: which
//! field is read, in which form, and for an enum which pattern binds it.

use crate::ast::{ContainerKind, Enum, Field, Input, Member, Struct, Variant};
use crate::attr::{read_arguments, StackErrorKind};
use crate::bounds::{records_of, texts, BoundsTracker, TrackerView};
use crate::diagnostic::{gather, refuse, views, Diagnostic, DiagnosticView, ErrorKind};
use crate::least::{is_least, least, lemma_least_exists, lemma_least_is, lemma_least_none};
use crate::resolve::{
    find_location, find_source, lemma_location_in_range, lemma_source_in_range, option_inner_type,
    spec_find_location, spec_find_source, spec_option_inner_type, spec_resolve,
};
use crate::syntax::{Data, DeriveInput, Fields, Generics, WhereClause, WherePredicateView};
use vstd::prelude::*;

verus! {

/// How the generated `location` gets its value from the location field.
#[derive(Debug, Clone, Copy, PartialEq, Eq, Structural)]
pub enum LocationForm {
    /// The field holds the location.
    Direct,
    /// The field is of the wrapper type and is asked for its location.
    Delegated,
}

/// How the generated `next` makes a link of the cause field.
#[derive(Debug, Clone, Copy, PartialEq, Eq, Structural)]
pub enum NextForm {
    /// There is no cause: the chain ends here.
    End,
    /// The field is an `Option` of a chain-reporting error.
    MapStacked,
    /// The field is an `Option` of a plain error.
    MapStd,
    /// The field is a chain-reporting error.
    SomeStacked,
    /// The field is a plain error.
    SomeStd,
}

/// The body of `location` for a struct.
#[derive(Debug, Clone, Copy, PartialEq, Eq, Structural)]
pub struct LocationFn {
    /// The index of the location field.
    pub field: usize,
    pub form: LocationForm,
}

/// The body of `next` for a struct.
#[derive(Debug, Clone, Copy, PartialEq, Eq, Structural)]
pub struct NextFn {
    /// The index of the cause field; none where the form is `End`.
    pub field: Option<usize>,
    pub form: NextForm,
}

/// One place of a tuple pattern.
#[derive(Debug, Clone, Copy, PartialEq, Eq, Structural)]
pub enum Slot {
    /// The place binds the field.
    Binding,
    /// The place is `_`.
    Wildcard,
}

/// The pattern of one match arm.
#[derive(Debug)]
pub enum Pattern {
    /// `{ field: binding, .. }`, with the index of the field.
    Struct { field: usize },
    /// `(_, binding, _)`: one slot for each field.
    Tuple { slots: Vec<Slot> },
    /// `{ .. }`: nothing is bound.
    Rest,
}

/// The mathematical value of a [`Pattern`].
pub enum PatternView {
    Struct { field: usize },
    Tuple { slots: Seq<Slot> },
    Rest,
}

/// One arm of the `match` in `location` for an enum.
#[derive(Debug)]
pub struct LocationArm {
    pub pattern: Pattern,
    pub form: LocationForm,
}

/// One arm of the `match` in `next` for an enum.
#[derive(Debug)]
pub struct NextArm {
    pub pattern: Pattern,
    pub form: NextForm,
}

/// The mathematical value of a [`LocationArm`].
pub struct LocationArmView {
    pub pattern: PatternView,
    pub form: LocationForm,
}

/// The mathematical value of a [`NextArm`].
pub struct NextArmView {
    pub pattern: PatternView,
    pub form: NextForm,
}

/// The two methods of an implementation.
#[derive(Debug)]
pub enum Methods {
    Struct { location: LocationFn, next: NextFn },
    Enum { location_arms: Vec<LocationArm>, next_arms: Vec<NextArm> },
}

/// Everything that is needed to write the implementation for one type.
pub struct Expansion {
    /// The name of the type.
    pub ident: String,
    pub methods: Methods,
    /// The `where` clause of the implementation.
    pub where_clause: WhereClause,
}

impl View for Pattern {
    type V = PatternView;

    open spec fn view(&self) -> PatternView {
        match self {
            Pattern::Struct { field } => PatternView::Struct { field: *field },
            Pattern::Tuple { slots } => PatternView::Tuple { slots: slots@ },
            Pattern::Rest => PatternView::Rest,
        }
    }
}

impl View for LocationArm {
    type V = LocationArmView;

    open spec fn view(&self) -> LocationArmView {
        LocationArmView { pattern: self.pattern@, form: self.form }
    }
}

impl View for NextArm {
    type V = NextArmView;

    open spec fn view(&self) -> NextArmView {
        NextArmView { pattern: self.pattern@, form: self.form }
    }
}

/// The form of `location` for a location field that is, or is not, of the wrapper type.
pub open spec fn location_form(wrapper: bool) -> LocationForm {
    if wrapper {
        LocationForm::Delegated
    } else {
        LocationForm::Direct
    }
}

/// The form of `next` for a cause of the kind `kind` that is, or is not, an `Option`.
pub open spec fn next_form(optional: bool, kind: StackErrorKind) -> NextForm {
    match (optional, kind) {
        (true, StackErrorKind::Stacked) => NextForm::MapStacked,
        (true, StackErrorKind::Std) => NextForm::MapStd,
        (false, StackErrorKind::Stacked) => NextForm::SomeStacked,
        (false, StackErrorKind::Std) => NextForm::SomeStd,
    }
}

/// The form of `location` for a location field that is, or is not, of the wrapper type.
pub fn location_form_of(wrapper: bool) -> (form: LocationForm)
    ensures
        form == location_form(wrapper),
{
    if wrapper {
        LocationForm::Delegated
    } else {
        LocationForm::Direct
    }
}

/// The form of `next` for a cause of the kind `kind` that is, or is not, an `Option`.
pub fn next_form_of(optional: bool, kind: StackErrorKind) -> (form: NextForm)
    ensures
        form == next_form(optional, kind),
{
    match (optional, kind) {
        (true, StackErrorKind::Stacked) => NextForm::MapStacked,
        (true, StackErrorKind::Std) => NextForm::MapStd,
        (false, StackErrorKind::Stacked) => NextForm::SomeStacked,
        (false, StackErrorKind::Std) => NextForm::SomeStd,
    }
}

/// The body of `location` for a record with the fields `fields`.
pub open spec fn spec_location_fn(fields: Seq<Field>) -> Result<LocationFn, DiagnosticView> {
    match spec_find_location(fields) {
        Err(d) => Err(d),
        Ok(i) => Ok(
            LocationFn { field: i, form: location_form(fields[i as int].spec_is_located_error()) },
        ),
    }
}

/// The body of `next` for a record with the fields `fields`.
pub open spec fn spec_next_fn(fields: Seq<Field>) -> Result<NextFn, DiagnosticView> {
    match spec_find_source(fields) {
        Err(d) => Err(d),
        Ok(None) => Ok(NextFn { field: None, form: NextForm::End }),
        Ok(Some(i)) => Ok(
            NextFn {
                field: Some(i),
                form: next_form(
                    spec_option_inner_type(*fields[i as int].ty) is Some,
                    fields[i as int].spec_stack_error_kind(),
                ),
            },
        ),
    }
}

/// The positions of the fields that are reached as `target` is.
pub open spec fn member_at(fields: Seq<Field>, target: Member) -> spec_fn(int) -> bool {
    |i: int| fields[i].member.spec_same_as(target)
}

/// The pattern that binds the first field reached as `target` is, in a
/// variant of the kind `kind` with the fields `fields`.
pub open spec fn spec_pattern(fields: Seq<Field>, kind: ContainerKind, target: Member) -> Result<
    PatternView,
    DiagnosticView,
> {
    match least(0, fields.len() as int, member_at(fields, target)) {
        None => Err(
            DiagnosticView::of(
                match kind {
                    ContainerKind::Struct => ErrorKind::StructFieldNotFound,
                    ContainerKind::Tuple => ErrorKind::TupleFieldNotFound,
                },
            ),
        ),
        Some(i) => Ok(
            match kind {
                ContainerKind::Struct => PatternView::Struct { field: i as usize },
                ContainerKind::Tuple => PatternView::Tuple {
                    slots: Seq::new(
                        fields.len(),
                        |k: int|
                            if k == i {
                                Slot::Binding
                            } else {
                                Slot::Wildcard
                            },
                    ),
                },
            },
        ),
    }
}

/// The pattern that binds nothing, in a variant of the kind `kind` with `arity` fields.
pub open spec fn spec_blank(kind: ContainerKind, arity: nat) -> PatternView {
    match kind {
        ContainerKind::Struct => PatternView::Rest,
        ContainerKind::Tuple => PatternView::Tuple {
            slots: Seq::new(arity, |k: int| Slot::Wildcard),
        },
    }
}

/// The `location` arm of a variant of the kind `kind` with the fields `fields`.
pub open spec fn spec_location_arm(fields: Seq<Field>, kind: ContainerKind) -> Result<
    LocationArmView,
    DiagnosticView,
> {
    match spec_find_location(fields) {
        Err(d) => Err(d),
        Ok(i) => match spec_pattern(fields, kind, fields[i as int].member) {
            Err(d) => Err(d),
            Ok(pattern) => Ok(
                LocationArmView {
                    pattern,
                    form: location_form(fields[i as int].spec_is_located_error()),
                },
            ),
        },
    }
}

/// The `next` arm of a variant of the kind `kind` with the fields `fields`.
pub open spec fn spec_next_arm(fields: Seq<Field>, kind: ContainerKind) -> Result<
    NextArmView,
    DiagnosticView,
> {
    match spec_find_source(fields) {
        Err(d) => Err(d),
        Ok(None) => Ok(NextArmView { pattern: spec_blank(kind, fields.len()), form: NextForm::End }),
        Ok(Some(i)) => match spec_pattern(fields, kind, fields[i as int].member) {
            Err(d) => Err(d),
            Ok(pattern) => Ok(
                NextArmView {
                    pattern,
                    form: next_form(
                        spec_option_inner_type(*fields[i as int].ty) is Some,
                        fields[i as int].spec_stack_error_kind(),
                    ),
                },
            ),
        },
    }
}

/// The two arms of a variant, the `location` arm first: the first of the two
/// that cannot be made is the variant's diagnostic.
pub open spec fn spec_arms(fields: Seq<Field>, kind: ContainerKind) -> Result<
    (LocationArmView, NextArmView),
    DiagnosticView,
> {
    match spec_location_arm(fields, kind) {
        Err(d) => Err(d),
        Ok(location) => match spec_next_arm(fields, kind) {
            Err(d) => Err(d),
            Ok(next) => Ok((location, next)),
        },
    }
}

/// A field of the record can always be bound: the pattern for its member exists.
pub proof fn lemma_pattern_exists(fields: Seq<Field>, kind: ContainerKind, i: int)
    requires
        0 <= i < fields.len(),
    ensures
        spec_pattern(fields, kind, fields[i].member) is Ok,
{
    let p = member_at(fields, fields[i].member);
    assert(p(i));
    lemma_least_exists(0, fields.len() as int, p, i);
}

/// A variant has its two arms exactly where its roles resolve, and where it
/// has not, the diagnostic is that of the roles.
pub proof fn law_arms_follow_roles(fields: Seq<Field>, kind: ContainerKind)
    requires
        fields.len() <= usize::MAX,
    ensures
        match spec_arms(fields, kind) {
            Ok(_) => spec_resolve(fields) is Ok,
            Err(d) => spec_resolve(fields) == Err::<crate::resolve::RoleAssignment, _>(d),
        },
{
    lemma_location_in_range(fields);
    lemma_source_in_range(fields);
    if let Ok(i) = spec_find_location(fields) {
        lemma_pattern_exists(fields, kind, i as int);
    }
    if let Ok(Some(i)) = spec_find_source(fields) {
        lemma_pattern_exists(fields, kind, i as int);
    }
}

impl<'a> Struct<'a> {
    /// Decides the body of `location`: which field is read, and whether it
    /// is read directly or, being of the wrapper type, asked for its location.
    pub fn location_fn(&self) -> (body: Result<LocationFn, Diagnostic>)
        ensures
            match body {
                Ok(b) => spec_location_fn(self.fields@) == Ok::<_, DiagnosticView>(b),
                Err(d) => spec_location_fn(self.fields@) == Err::<LocationFn, _>(d@),
            },
    {
        let n = self.fields.len();
        let location = find_location(self.fields.as_slice())?;
        proof {
            lemma_location_in_range(self.fields@);
        }
        let form = location_form_of(self.fields[location].is_located_error());
        Ok(LocationFn { field: location, form })
    }

    /// Decides the body of `next`: which field is the cause, and in which of
    /// the four forms it becomes a link; or that the chain ends here.
    pub fn next_fn(&self) -> (body: Result<NextFn, Diagnostic>)
        ensures
            match body {
                Ok(b) => spec_next_fn(self.fields@) == Ok::<_, DiagnosticView>(b),
                Err(d) => spec_next_fn(self.fields@) == Err::<NextFn, _>(d@),
            },
    {
        let n = self.fields.len();
        let source = find_source(self.fields.as_slice())?;
        proof {
            lemma_source_in_range(self.fields@);
        }
        let body = if let Some(source) = source {
            let kind = self.fields[source].stack_error_kind();
            let is_option = option_inner_type(self.fields[source].ty).is_some();
            let form = next_form_of(is_option, kind);
            NextFn { field: Some(source), form }
        } else {
            NextFn { field: None, form: NextForm::End }
        };
        Ok(body)
    }
}

impl<'a> Variant<'a> {
    /// The first field of the variant that is reached as `target` is.
    fn position(&self, target: &Member) -> (found: Option<usize>)
        ensures
            match found {
                Some(i) => least(0, self.fields@.len() as int, member_at(self.fields@, *target))
                    == Some(i as int) && i < self.fields@.len(),
                None => least(0, self.fields@.len() as int, member_at(self.fields@, *target))
                    is None,
            },
    {
        let ghost p = member_at(self.fields@, *target);
        let mut i: usize = 0;
        while i < self.fields.len()
            invariant
                i <= self.fields.len(),
                p == member_at(self.fields@, *target),
                forall|j: int| 0 <= j < i ==> !#[trigger] p(j),
            decreases self.fields.len() - i,
        {
            if self.fields[i].member.same_as(target) {
                proof {
                    assert(p(i as int));
                    lemma_least_is(0, self.fields@.len() as int, p, i as int);
                }
                return Some(i);
            }
            i += 1;
        }
        proof {
            lemma_least_none(0, self.fields@.len() as int, p);
        }
        None
    }

    /// The pattern with one slot for each field, binding the field `bound` if there is one.
    fn tuple_pattern(&self, bound: Option<usize>) -> (pattern: Pattern)
        ensures
            pattern@ == (PatternView::Tuple {
                slots: Seq::new(
                    self.fields@.len(),
                    |k: int|
                        if bound == Some(k as usize) {
                            Slot::Binding
                        } else {
                            Slot::Wildcard
                        },
                ),
            }),
    {
        let mut slots: Vec<Slot> = Vec::new();
        let mut i: usize = 0;
        while i < self.fields.len()
            invariant
                i <= self.fields.len(),
                slots@.len() == i,
                forall|k: int|
                    0 <= k < i ==> slots@[k] == if bound == Some(k as usize) {
                        Slot::Binding
                    } else {
                        Slot::Wildcard
                    },
            decreases self.fields.len() - i,
        {
            let slot = match bound {
                Some(at) => if at == i {
                    Slot::Binding
                } else {
                    Slot::Wildcard
                },
                None => Slot::Wildcard,
            };
            slots.push(slot);
            i += 1;
        }
        assert(slots@ =~= Seq::new(
            self.fields@.len(),
            |k: int|
                if bound == Some(k as usize) {
                    Slot::Binding
                } else {
                    Slot::Wildcard
                },
        ));
        Pattern::Tuple { slots }
    }

    /// Builds the pattern that binds the field `field` of this variant and
    /// nothing else: by name in a variant with braces, by position in a tuple
    /// variant. The field is found by its member; a field that the variant
    /// does not have is refused.
    pub fn make_pattern(&self, field: &Field<'_>) -> (pattern: Result<Pattern, Diagnostic>)
        ensures
            match pattern {
                Ok(p) => spec_pattern(self.fields@, self.spec_kind(), field.member) == Ok::<
                    _,
                    DiagnosticView,
                >(p@),
                Err(d) => spec_pattern(self.fields@, self.spec_kind(), field.member) == Err::<
                    PatternView,
                    _,
                >(d@),
            },
    {
        let n = self.fields.len();
        let Some(index) = self.position(&field.member) else {
            return Err(
                Diagnostic::new(
                    match self.kind() {
                        ContainerKind::Struct => ErrorKind::StructFieldNotFound,
                        ContainerKind::Tuple => ErrorKind::TupleFieldNotFound,
                    },
                ),
            );
        };
        match self.kind() {
            ContainerKind::Struct => Ok(Pattern::Struct { field: index }),
            ContainerKind::Tuple => {
                let pattern = self.tuple_pattern(Some(index));
                assert(pattern@->slots =~= Seq::new(
                    self.fields@.len(),
                    |k: int|
                        if k == index as int {
                            Slot::Binding
                        } else {
                            Slot::Wildcard
                        },
                ));
                Ok(pattern)
            },
        }
    }

    /// Decides the `location` arm of this variant: the pattern that binds
    /// the location field, and the form in which the location is read.
    pub fn location_body(&self) -> (arm: Result<LocationArm, Diagnostic>)
        ensures
            match arm {
                Ok(a) => spec_location_arm(self.fields@, self.spec_kind()) == Ok::<
                    _,
                    DiagnosticView,
                >(a@),
                Err(d) => spec_location_arm(self.fields@, self.spec_kind()) == Err::<
                    LocationArmView,
                    _,
                >(d@),
            },
    {
        let n = self.fields.len();
        let location = find_location(self.fields.as_slice())?;
        proof {
            lemma_location_in_range(self.fields@);
        }
        let pattern = self.make_pattern(&self.fields[location])?;
        let form = location_form_of(self.fields[location].is_located_error());
        Ok(LocationArm { pattern, form })
    }

    /// Decides the `next` arm of this variant: the pattern that binds the
    /// cause, and the form in which it becomes a link; for a variant without
    /// a cause, the pattern that binds nothing and the end of the chain.
    pub fn next_body(&self) -> (arm: Result<NextArm, Diagnostic>)
        ensures
            match arm {
                Ok(a) => spec_next_arm(self.fields@, self.spec_kind()) == Ok::<_, DiagnosticView>(
                    a@,
                ),
                Err(d) => spec_next_arm(self.fields@, self.spec_kind()) == Err::<NextArmView, _>(
                    d@,
                ),
            },
    {
        let n = self.fields.len();
        let Some(source) = find_source(self.fields.as_slice())? else {
            let pattern = match self.kind() {
                ContainerKind::Struct => Pattern::Rest,
                ContainerKind::Tuple => {
                    let pattern = self.tuple_pattern(None);
                    assert(pattern@->slots =~= Seq::new(
                        self.fields@.len(),
                        |k: int| Slot::Wildcard,
                    ));
                    pattern
                },
            };
            return Ok(NextArm { pattern, form: NextForm::End });
        };
        proof {
            lemma_source_in_range(self.fields@);
        }
        let pattern = self.make_pattern(&self.fields[source])?;
        let kind = self.fields[source].stack_error_kind();
        let is_option = option_inner_type(self.fields[source].ty).is_some();
        let form = next_form_of(is_option, kind);
        Ok(NextArm { pattern, form })
    }

    /// Decides both arms of this variant, the `location` arm first.
    pub fn arms(&self) -> (arms: Result<(LocationArm, NextArm), Diagnostic>)
        ensures
            match arms {
                Ok((location, next)) => spec_arms(self.fields@, self.spec_kind()) == Ok::<
                    _,
                    DiagnosticView,
                >((location@, next@)),
                Err(d) => spec_arms(self.fields@, self.spec_kind()) == Err::<
                    (LocationArmView, NextArmView),
                    _,
                >(d@),
            },
    {
        let location = self.location_body()?;
        let next = self.next_body()?;
        Ok((location, next))
    }
}

/// The predicates that the author of the type wrote.
pub open spec fn written(generics: Generics) -> Seq<WherePredicateView> {
    match generics.where_clause {
        Some(clause) => clause.spec_predicates(),
        None => Seq::empty(),
    }
}

/// Why a struct with the fields `fields` has no implementation, if it has
/// none: its location is looked for first, then its cause.
pub open spec fn struct_failure(fields: Seq<Field>) -> Option<DiagnosticView> {
    match spec_location_fn(fields) {
        Err(d) => Some(d),
        Ok(_) => match spec_next_fn(fields) {
            Err(d) => Some(d),
            Ok(_) => None,
        },
    }
}

/// Why each variant has no arms, if it has none.
pub open spec fn unresolved(variants: Seq<Variant>) -> spec_fn(int) -> Option<DiagnosticView> {
    |i: int|
        match spec_arms(variants[i].fields@, variants[i].spec_kind()) {
            Err(d) => Some(d),
            Ok(_) => None,
        }
}

/// The kind of a variant with the declared fields `fields`.
pub open spec fn kind_of(fields: Fields) -> ContainerKind {
    match fields {
        Fields::Named(_) => ContainerKind::Struct,
        _ => ContainerKind::Tuple,
    }
}

/// Why a declared variant has no arms, if it has none: it cannot be read, or
/// its roles do not resolve.
#[verifier::opaque]
pub open spec fn unusable_variant(declared: crate::syntax::Variant) -> Option<DiagnosticView> {
    match Field::spec_from_fields(declared.fields) {
        Err(d) => Some(d),
        Ok(fields) => match spec_arms(fields, kind_of(declared.fields)) {
            Err(d) => Some(d),
            Ok(_) => None,
        },
    }
}

/// Why each declared variant has no arms, if it has none.
pub open spec fn unusable(variants: Seq<crate::syntax::Variant>) -> spec_fn(int) -> Option<
    DiagnosticView,
> {
    |i: int| unusable_variant(variants[i])
}

/// Whether `variant` with its two arms is what reading `declared` gives.
#[verifier::opaque]
pub open spec fn is_usable(
    variant: Variant,
    declared: crate::syntax::Variant,
    location: LocationArmView,
    next: NextArmView,
) -> bool {
    &&& variant.describes(declared)
    &&& spec_arms(variant.fields@, variant.spec_kind()) == Ok::<_, DiagnosticView>((location, next))
}

/// All that is wrong with the type definition `input`: nothing where it has
/// an implementation; one diagnostic for a struct or a union; for an enum one
/// diagnostic for each variant that cannot be used, in the order of the variants.
pub open spec fn spec_diagnostics(input: DeriveInput) -> Seq<DiagnosticView> {
    match input.data {
        Data::Struct(fields) => match Field::spec_from_fields(fields) {
            Err(d) => seq![d],
            Ok(list) => match struct_failure(list) {
                Some(d) => seq![d],
                None => Seq::empty(),
            },
        },
        Data::Enum(variants) => gather(unusable(variants@), variants@.len() as int),
        Data::Union => seq![DiagnosticView::of(ErrorKind::UnionUnsupported)],
    }
}

impl Expansion {
    /// Whether `self` is the implementation for the struct `input`.
    pub open spec fn is_for_struct(self, input: Struct) -> bool {
        &&& self.ident == input.ident
        &&& self.methods matches Methods::Struct { location, next }
        &&& spec_location_fn(input.fields@) == Ok::<_, DiagnosticView>(location)
        &&& spec_next_fn(input.fields@) == Ok::<_, DiagnosticView>(next)
        &&& self.where_clause.spec_predicates() == TrackerView::new(
            texts(input.generics.type_params@),
        ).collect(input.fields@).where_clause(written(*input.generics))
    }

    /// Whether `self` is the implementation for the enum `input`: one pair
    /// of arms for each variant, in the order of the variants.
    pub open spec fn is_for_enum(self, input: Enum) -> bool {
        &&& self.ident == input.ident
        &&& self.methods matches Methods::Enum { location_arms, next_arms }
        &&& location_arms@.len() == input.variants@.len()
        &&& next_arms@.len() == input.variants@.len()
        &&& forall|i: int|
            #![trigger input.variants@[i]]
            0 <= i < input.variants@.len() ==> spec_arms(
                input.variants@[i].fields@,
                input.variants@[i].spec_kind(),
            ) == Ok::<_, DiagnosticView>((location_arms@[i]@, next_arms@[i]@))
        &&& self.where_clause.spec_predicates() == TrackerView::new(
            texts(input.generics.type_params@),
        ).collect_all(records_of(input.variants@), input.variants@.len() as int).where_clause(
            written(*input.generics),
        )
    }

    /// Whether `self` is the implementation for `input`.
    pub open spec fn is_for(self, input: Input) -> bool {
        match input {
            Input::Struct(s) => self.is_for_struct(s),
            Input::Enum(e) => self.is_for_enum(e),
        }
    }
}

/// Decides the implementation for a struct: the bodies of its two methods
/// and its `where` clause. A struct whose roles do not resolve is refused
/// with the diagnostic of the first rule it violates, the location first.
pub fn expand_struct(input: Struct<'_>) -> (expansion: Result<Expansion, Diagnostic>)
    ensures
        match expansion {
            Ok(e) => e.is_for_struct(input),
            Err(d) => struct_failure(input.fields@) == Some(d@),
        },
{
    let location = input.location_fn()?;
    let next = input.next_fn()?;
    let mut tracker = BoundsTracker::new(input.generics);
    tracker.collect(input.fields.as_slice());
    let where_clause = tracker.make_where_clause(input.generics.where_clause.as_ref());
    Ok(
        Expansion {
            ident: input.ident.clone(),
            methods: Methods::Struct { location, next },
            where_clause,
        },
    )
}

/// Puts the implementation for an enum together: its arms as they were
/// decided, and its `where` clause.
fn assemble_enum(
    input: &Enum<'_>,
    location_arms: Vec<LocationArm>,
    next_arms: Vec<NextArm>,
) -> (expansion: Expansion)
    requires
        location_arms@.len() == input.variants@.len(),
        next_arms@.len() == input.variants@.len(),
        forall|i: int|
            #![trigger input.variants@[i]]
            0 <= i < input.variants@.len() ==> spec_arms(
                input.variants@[i].fields@,
                input.variants@[i].spec_kind(),
            ) == Ok::<_, DiagnosticView>((location_arms@[i]@, next_arms@[i]@)),
    ensures
        expansion.is_for_enum(*input),
{
    let mut tracker = BoundsTracker::new(input.generics);
    tracker.collect_enum(input);
    let where_clause = tracker.make_where_clause(input.generics.where_clause.as_ref());
    Expansion {
        ident: input.ident.clone(),
        methods: Methods::Enum { location_arms, next_arms },
        where_clause,
    }
}

/// Decides the implementation for an enum: one arm of each method for each
/// variant, and the `where` clause.
///
/// Every variant is resolved, also after one has failed. An enum with a
/// variant whose roles do not resolve is refused with the diagnostics of
/// all such variants, in the order of the variants, each naming its variant.
pub fn expand_enum(input: Enum<'_>) -> (expansion: Result<Expansion, Vec<Diagnostic>>)
    ensures
        match expansion {
            Ok(e) => e.is_for_enum(input) && gather(
                unresolved(input.variants@),
                input.variants@.len() as int,
            ).len() == 0,
            Err(list) => list@.len() > 0 && views(list@) == gather(
                unresolved(input.variants@),
                input.variants@.len() as int,
            ),
        },
{
    let mut location_arms: Vec<LocationArm> = Vec::new();
    let mut next_arms: Vec<NextArm> = Vec::new();
    let mut refused: Vec<Diagnostic> = Vec::new();
    let mut i: usize = 0;
    while i < input.variants.len()
        invariant
            i <= input.variants.len(),
            views(refused@) == gather(unresolved(input.variants@), i as int),
            refused@.len() == 0 ==> location_arms@.len() == i && next_arms@.len() == i,
            refused@.len() == 0 ==> forall|j: int|
                #![trigger input.variants@[j]]
                0 <= j < i ==> spec_arms(
                    input.variants@[j].fields@,
                    input.variants@[j].spec_kind(),
                ) == Ok::<_, DiagnosticView>((location_arms@[j]@, next_arms@[j]@)),
        decreases input.variants.len() - i,
    {
        match input.variants[i].arms() {
            Ok((location, next)) => {
                location_arms.push(location);
                next_arms.push(next);
            },
            Err(d) => {
                refuse(&mut refused, d, i);
            },
        }
        i += 1;
    }
    if refused.len() > 0 {
        return Err(refused);
    }
    Ok(assemble_enum(&input, location_arms, next_arms))
}

/// Decides the implementation for a type definition that was read.
///
/// A struct is refused with its one diagnostic, an enum with the
/// diagnostics of all its variants that do not resolve.
pub fn expand(input: Input<'_>) -> (expansion: Result<Expansion, Vec<Diagnostic>>)
    ensures
        match expansion {
            Ok(e) => e.is_for(input),
            Err(list) => list@.len() > 0 && match input {
                Input::Struct(s) => struct_failure(s.fields@) is Some && views(list@)
                    == seq![struct_failure(s.fields@)->Some_0],
                Input::Enum(e) => views(list@) == gather(
                    unresolved(e.variants@),
                    e.variants@.len() as int,
                ),
            },
        },
{
    match input {
        Input::Struct(input) => match expand_struct(input) {
            Ok(e) => Ok(e),
            Err(d) => {
                let list = vec![d];
                assert(views(list@) =~= seq![d@]);
                Err(list)
            },
        },
        Input::Enum(input) => expand_enum(input),
    }
}

/// Reads one declared variant and decides its two arms.
fn read_variant<'a>(declared: &'a crate::syntax::Variant) -> (read: Result<
    (Variant<'a>, LocationArm, NextArm),
    Diagnostic,
>)
    ensures
        match read {
            Ok((variant, location, next)) => unusable_variant(*declared) is None && is_usable(
                variant,
                *declared,
                location@,
                next@,
            ),
            Err(d) => unusable_variant(*declared) == Some(d@),
        },
{
    reveal(unusable_variant);
    reveal(is_usable);
    let variant = Variant::from_syn(declared)?;
    let (location, next) = variant.arms()?;
    Ok((variant, location, next))
}

/// Reads every declared variant and decides its arms, also after one has failed.
#[verifier::rlimit(30)]
fn read_variants<'a>(declared: &'a Vec<crate::syntax::Variant>) -> (read: Result<
    (Vec<Variant<'a>>, Vec<LocationArm>, Vec<NextArm>),
    Vec<Diagnostic>,
>)
    ensures
        match read {
            Ok((variants, location_arms, next_arms)) => {
                &&& gather(unusable(declared@), declared@.len() as int).len() == 0
                &&& variants@.len() == declared@.len()
                &&& location_arms@.len() == declared@.len()
                &&& next_arms@.len() == declared@.len()
                &&& forall|j: int|
                    #![trigger variants@[j]]
                    0 <= j < declared@.len() ==> is_usable(
                        variants@[j],
                        declared@[j],
                        location_arms@[j]@,
                        next_arms@[j]@,
                    )
            },
            Err(list) => list@.len() > 0 && views(list@) == gather(
                unusable(declared@),
                declared@.len() as int,
            ),
        },
{
    let mut variants: Vec<Variant<'a>> = Vec::new();
    let mut location_arms: Vec<LocationArm> = Vec::new();
    let mut next_arms: Vec<NextArm> = Vec::new();
    let mut refused: Vec<Diagnostic> = Vec::new();
    let mut i: usize = 0;
    while i < declared.len()
        invariant
            i <= declared.len(),
            views(refused@) == gather(unusable(declared@), i as int),
            refused@.len() == 0 ==> variants@.len() == i && location_arms@.len() == i
                && next_arms@.len() == i,
            refused@.len() == 0 ==> forall|j: int|
                #![trigger variants@[j]]
                0 <= j < i ==> is_usable(
                    variants@[j],
                    declared@[j],
                    location_arms@[j]@,
                    next_arms@[j]@,
                ),
        decreases declared.len() - i,
    {
        let ghost found = unusable(declared@)(i as int);
        match read_variant(&declared[i]) {
            Ok((variant, location, next)) => {
                assert(found is None);
                variants.push(variant);
                location_arms.push(location);
                next_arms.push(next);
            },
            Err(d) => {
                assert(found == Some(d@));
                refuse(&mut refused, d, i);
            },
        }
        i += 1;
    }
    if refused.len() > 0 {
        Err(refused)
    } else {
        Ok((variants, location_arms, next_arms))
    }
}

/// Decides the implementation of a type definition whose arguments were
/// read, or reports everything that is wrong with it at once.
///
/// A union, and a struct that cannot be read or resolved, give one
/// diagnostic. Of an enum every variant is read and resolved on its own:
/// each variant that fails gives the first diagnostic that it runs into, and
/// the diagnostics of all such variants come back together, in the order of
/// the variants.
#[verifier::rlimit(30)]
pub fn derive_from<'a>(input: &'a DeriveInput) -> (expansion: Result<Expansion, Vec<Diagnostic>>)
    ensures
        match expansion {
            Ok(e) => spec_diagnostics(*input).len() == 0 && exists|parsed: Input<'a>|
                parsed.describes(*input) && e.is_for(parsed),
            Err(list) => list@.len() > 0 && views(list@) == spec_diagnostics(*input),
        },
{
    match &input.data {
        Data::Struct(fields) => {
            let parsed = match Struct::from_syn(input, fields) {
                Ok(parsed) => parsed,
                Err(d) => {
                    let list = vec![d];
                    assert(views(list@) =~= seq![d@]);
                    return Err(list);
                },
            };
            let ghost witness = Input::Struct(parsed);
            match expand_struct(parsed) {
                Ok(e) => {
                    assert(witness.describes(*input) && e.is_for(witness));
                    Ok(e)
                },
                Err(d) => {
                    let list = vec![d];
                    assert(views(list@) =~= seq![d@]);
                    Err(list)
                },
            }
        },
        Data::Enum(declared) => {
            let (variants, location_arms, next_arms) = read_variants(declared)?;
            let parsed = Enum { ident: input.ident.clone(), generics: &input.generics, variants };
            proof {
                reveal(is_usable);
                assert forall|j: int| 0 <= j < declared@.len() implies spec_arms(
                    (#[trigger] parsed.variants@[j]).fields@,
                    parsed.variants@[j].spec_kind(),
                ) == Ok::<_, DiagnosticView>((location_arms@[j]@, next_arms@[j]@))
                    && parsed.variants@[j].describes(declared@[j]) by {
                    assert(is_usable(
                        parsed.variants@[j],
                        declared@[j],
                        location_arms@[j]@,
                        next_arms@[j]@,
                    ));
                }
            }
            let expansion = assemble_enum(&parsed, location_arms, next_arms);
            let ghost witness = Input::Enum(parsed);
            assert(witness.describes(*input) && expansion.is_for(witness));
            Ok(expansion)
        },
        Data::Union => {
            let d = Diagnostic::new(ErrorKind::UnionUnsupported);
            let list = vec![d];
            assert(views(list@) =~= seq![d@]);
            Err(list)
        },
    }
}

/// Reads a type definition and decides its implementation, or reports
/// everything that is wrong with it at once.
///
/// First the arguments of the `#[stack_error(...)]` attributes are read,
/// which is the parser's work: `input` is afterwards what that reading made
/// of it (see [`read_arguments`]). Then the implementation is decided from
/// `input` as it then stands, exactly as [`derive_from`] says.
pub fn derive_stack_error(input: &mut DeriveInput) -> (expansion: Result<
    Expansion,
    Vec<Diagnostic>,
>)
    ensures
        final(input).reads(*old(input)),
        match expansion {
            Ok(e) => spec_diagnostics(*final(input)).len() == 0 && exists|parsed: Input|
                parsed.describes(*final(input)) && e.is_for(parsed),
            Err(list) => list@.len() > 0 && views(list@) == spec_diagnostics(*final(input)),
        },
{
    read_arguments(input);
    derive_from(input)
}

} // verus!
