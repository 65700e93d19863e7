//! The resolver's own picture of a type definition: each field with its
//! markers read, each record with its fields in order.
//!
//! A description is taken as it stands. The arguments of its
//! `#[stack_error(...)]` attributes are expected to have been read before
//! (see [`crate::attr::read_arguments`]).

use crate::attr::Attrs;
use crate::diagnostic::{gather, refuse, views, Diagnostic, DiagnosticView, ErrorKind};
use crate::least::{is_least, least, lemma_least_is, lemma_least_none};
use crate::syntax::{Data, DeriveInput, Fields, Generics, Type};
use vstd::prelude::*;

verus! {

/// How a field is reached: by name, or by position in a tuple.
#[derive(Debug)]
pub enum Member {
    Named(String),
    Unnamed(u32),
}

/// Whether a variant's fields stand in braces or in parentheses.
#[derive(Debug, Clone, Copy, PartialEq, Eq, Structural)]
pub enum ContainerKind {
    Struct,
    Tuple,
}

/// A struct with its fields.
pub struct Struct<'a> {
    pub ident: String,
    pub generics: &'a Generics,
    pub fields: Vec<Field<'a>>,
}

/// An enum with its variants.
pub struct Enum<'a> {
    pub ident: String,
    pub generics: &'a Generics,
    pub variants: Vec<Variant<'a>>,
}

/// One variant of an enum with its fields.
pub struct Variant<'a> {
    pub original: &'a crate::syntax::Variant,
    pub ident: String,
    pub fields: Vec<Field<'a>>,
}

/// One field with its markers.
pub struct Field<'a> {
    pub original: &'a crate::syntax::Field,
    pub attrs: Attrs<'a>,
    pub member: Member,
    pub ty: &'a Type,
}

/// A type definition: a struct or an enum.
pub enum Input<'a> {
    Struct(Struct<'a>),
    Enum(Enum<'a>),
}

impl Member {
    /// Whether two members name the same field.
    pub open spec fn spec_same_as(self, other: Member) -> bool {
        match (self, other) {
            (Member::Named(a), Member::Named(b)) => a@ == b@,
            (Member::Unnamed(a), Member::Unnamed(b)) => a == b,
            _ => false,
        }
    }

    /// Whether the member is the name `name`.
    pub open spec fn spec_is_named(self, name: Seq<char>) -> bool {
        match self {
            Member::Named(written) => written@ == name,
            Member::Unnamed(_) => false,
        }
    }

    /// Whether two members name the same field.
    pub fn same_as(&self, other: &Member) -> (same: bool)
        ensures
            same == self.spec_same_as(*other),
    {
        match (self, other) {
            (Member::Named(a), Member::Named(b)) => *a == *b,
            (Member::Unnamed(a), Member::Unnamed(b)) => *a == *b,
            _ => false,
        }
    }

    /// Whether the member is the name `name`.
    pub fn is_named(&self, name: &str) -> (yes: bool)
        ensures
            yes == self.spec_is_named(name@),
    {
        match self {
            Member::Named(written) => crate::text::is_text(written, name),
            Member::Unnamed(_) => false,
        }
    }
}

impl<'a> Input<'a> {
    /// The diagnostics that reading `input` gives: none where it can be read.
    pub open spec fn spec_diagnostics(input: DeriveInput) -> Seq<DiagnosticView> {
        match input.data {
            Data::Struct(fields) => match Field::<'a>::spec_from_fields(fields) {
                Ok(_) => Seq::empty(),
                Err(d) => seq![d],
            },
            Data::Enum(variants) => gather(
                Variant::<'a>::unreadable(variants@),
                variants@.len() as int,
            ),
            Data::Union => seq![DiagnosticView::of(ErrorKind::UnionUnsupported)],
        }
    }

    /// Whether `self` is what reading `input` gives.
    pub open spec fn describes(self, input: DeriveInput) -> bool {
        match (self, input.data) {
            (Input::Struct(s), Data::Struct(fields)) => s.describes(input, fields),
            (Input::Enum(e), Data::Enum(variants)) => e.describes(input, variants@),
            _ => false,
        }
    }

    /// Reads a type definition.
    ///
    /// A union is refused. A struct gives at most one diagnostic, an enum one
    /// for each variant that cannot be read, in the order of the variants.
    pub fn from_input(input: &'a DeriveInput) -> (read: Result<Input<'a>, Vec<Diagnostic>>)
        ensures
            match read {
                Ok(parsed) => Input::<'a>::spec_diagnostics(*input).len() == 0 && parsed.describes(
                    *input,
                ),
                Err(list) => list@.len() > 0 && views(list@) == Input::<'a>::spec_diagnostics(
                    *input,
                ),
            },
    {
        match &input.data {
            Data::Struct(fields) => match Struct::from_syn(input, fields) {
                Ok(s) => Ok(Input::Struct(s)),
                Err(d) => {
                    let list = vec![d];
                    assert(views(list@) =~= seq![d@]);
                    Err(list)
                },
            },
            Data::Enum(variants) => match Enum::from_syn(input, variants) {
                Ok(e) => Ok(Input::Enum(e)),
                Err(list) => Err(list),
            },
            Data::Union => {
                let d = Diagnostic::new(ErrorKind::UnionUnsupported);
                let list = vec![d];
                assert(views(list@) =~= seq![d@]);
                Err(list)
            },
        }
    }
}

impl<'a> Struct<'a> {
    /// Whether `self` is what reading the struct `input` with the fields `data` gives.
    pub open spec fn describes(self, input: DeriveInput, data: Fields) -> bool {
        &&& self.ident == input.ident
        &&& *self.generics == input.generics
        &&& Field::spec_from_fields(data) == Ok::<_, DiagnosticView>(self.fields@)
    }

    /// Reads a struct with the declared fields `data`.
    pub fn from_syn(input: &'a DeriveInput, data: &'a Fields) -> (read: Result<
        Struct<'a>,
        Diagnostic,
    >)
        ensures
            match read {
                Ok(s) => s.describes(*input, *data),
                Err(d) => Field::<'a>::spec_from_fields(*data) == Err::<Seq<Field<'a>>, _>(d@),
            },
    {
        let fields = Field::from_fields(data)?;
        Ok(Struct { ident: input.ident.clone(), generics: &input.generics, fields })
    }
}

impl<'a> Enum<'a> {
    /// Whether `self` is what reading the enum `input` with the variants `data` gives.
    pub open spec fn describes(self, input: DeriveInput, data: Seq<crate::syntax::Variant>) -> bool {
        &&& self.ident == input.ident
        &&& *self.generics == input.generics
        &&& self.variants@.len() == data.len()
        &&& forall|i: int| 0 <= i < data.len() ==> (#[trigger] self.variants@[i]).describes(data[i])
    }

    /// Reads an enum with the declared variants `data`.
    ///
    /// Every variant is read, also after one has failed: the diagnostics of
    /// all variants that cannot be read come back together, in the order of
    /// the variants, each naming its variant.
    pub fn from_syn(input: &'a DeriveInput, data: &'a Vec<crate::syntax::Variant>) -> (read: Result<
        Enum<'a>,
        Vec<Diagnostic>,
    >)
        ensures
            match read {
                Ok(e) => gather(Variant::<'a>::unreadable(data@), data@.len() as int).len() == 0
                    && e.describes(*input, data@),
                Err(list) => list@.len() > 0 && views(list@) == gather(
                    Variant::<'a>::unreadable(data@),
                    data@.len() as int,
                ),
            },
    {
        let mut variants: Vec<Variant<'a>> = Vec::new();
        let mut refused: Vec<Diagnostic> = Vec::new();
        let mut i: usize = 0;
        while i < data.len()
            invariant
                i <= data.len(),
                views(refused@) == gather(Variant::<'a>::unreadable(data@), i as int),
                refused@.len() == 0 ==> variants@.len() == i,
                refused@.len() == 0 ==> forall|j: int|
                    0 <= j < i ==> (#[trigger] variants@[j]).describes(data@[j]),
            decreases data.len() - i,
        {
            match Variant::from_syn(&data[i]) {
                Ok(variant) => {
                    variants.push(variant);
                },
                Err(d) => {
                    refuse(&mut refused, d, i);
                },
            }
            i += 1;
        }
        if refused.len() > 0 {
            Err(refused)
        } else {
            Ok(Enum { ident: input.ident.clone(), generics: &input.generics, variants })
        }
    }
}

impl<'a> Variant<'a> {
    /// Why variant `i` of `data` cannot be read, if it cannot.
    pub open spec fn unreadable(data: Seq<crate::syntax::Variant>) -> spec_fn(int) -> Option<
        DiagnosticView,
    > {
        |i: int|
            match Field::<'a>::spec_from_fields(data[i].fields) {
                Ok(_) => None,
                Err(d) => Some(d),
            }
    }

    /// Whether `self` is what reading the declaration `input` gives.
    pub open spec fn describes(self, input: crate::syntax::Variant) -> bool {
        &&& *self.original == input
        &&& self.ident == input.ident
        &&& Field::spec_from_fields(input.fields) == Ok::<_, DiagnosticView>(self.fields@)
    }

    /// Whether the variant's fields stand in braces or in parentheses.
    pub open spec fn spec_kind(self) -> ContainerKind {
        match self.original.fields {
            Fields::Named(_) => ContainerKind::Struct,
            _ => ContainerKind::Tuple,
        }
    }

    /// Reads one variant of an enum.
    pub fn from_syn(input: &'a crate::syntax::Variant) -> (read: Result<Variant<'a>, Diagnostic>)
        ensures
            match read {
                Ok(v) => v.describes(*input),
                Err(d) => Field::<'a>::spec_from_fields(input.fields) == Err::<Seq<Field<'a>>, _>(
                    d@,
                ),
            },
    {
        Ok(
            Variant {
                original: input,
                ident: input.ident.clone(),
                fields: Field::from_fields(&input.fields)?,
            },
        )
    }

    /// Whether the variant's fields stand in braces or in parentheses.
    pub fn kind(&self) -> (kind: ContainerKind)
        ensures
            kind == self.spec_kind(),
    {
        match &self.original.fields {
            Fields::Named(_) => ContainerKind::Struct,
            _ => ContainerKind::Tuple,
        }
    }
}

impl<'a> Field<'a> {
    /// Field number `i` of a record, read from its declaration `field`.
    pub open spec fn spec_from_syn(i: usize, field: crate::syntax::Field) -> Result<
        Field<'a>,
        DiagnosticView,
    > {
        match Attrs::<'a>::spec_from_syn(field.attrs@) {
            Err(d) => Err(d.in_field(i)),
            Ok(attrs) => Ok(
                Field {
                    original: &field,
                    attrs,
                    member: match field.ident {
                        Some(ident) => Member::Named(ident),
                        None => Member::Unnamed(i as u32),
                    },
                    ty: &field.ty,
                },
            ),
        }
    }

    /// The positions of the declarations that cannot be read.
    pub open spec fn unreadable_at(list: Seq<crate::syntax::Field>) -> spec_fn(int) -> bool {
        |i: int| Field::<'a>::spec_from_syn(i as usize, list[i]) is Err
    }

    /// The fields of a record, read from the declared `fields`.
    ///
    /// A record without any field is refused; else the first declaration
    /// that cannot be read decides.
    pub open spec fn spec_from_fields(fields: Fields) -> Result<Seq<Field<'a>>, DiagnosticView> {
        let list = fields.list();
        if list.len() == 0 {
            Err(DiagnosticView::of(ErrorKind::UnitShapeUnsupported))
        } else {
            match least(0, list.len() as int, Field::<'a>::unreadable_at(list)) {
                Some(i) => Err(Field::<'a>::spec_from_syn(i as usize, list[i])->Err_0),
                None => Ok(
                    Seq::new(
                        list.len(),
                        |i: int| Field::<'a>::spec_from_syn(i as usize, list[i])->Ok_0,
                    ),
                ),
            }
        }
    }

    /// Reads the fields of a record off their declarations.
    ///
    /// A record without any field cannot carry a role and is refused as a
    /// unit shape. A diagnostic about an attribute names its field.
    pub fn from_fields(fields: &'a Fields) -> (read: Result<Vec<Field<'a>>, Diagnostic>)
        ensures
            match read {
                Ok(list) => Field::spec_from_fields(*fields) == Ok::<_, DiagnosticView>(list@),
                Err(d) => Field::<'a>::spec_from_fields(*fields) == Err::<Seq<Field<'a>>, _>(d@),
            },
    {
        let declared: &'a Vec<crate::syntax::Field> = match fields {
            Fields::Named(list) => list,
            Fields::Unnamed(list) => list,
            Fields::Unit => {
                return Err(Diagnostic::new(ErrorKind::UnitShapeUnsupported));
            },
        };
        if declared.len() == 0 {
            return Err(Diagnostic::new(ErrorKind::UnitShapeUnsupported));
        }
        let ghost list = fields.list();
        let mut result: Vec<Field<'a>> = Vec::new();
        let mut i: usize = 0;
        while i < declared.len()
            invariant
                i <= declared.len(),
                declared@ == list,
                list == fields.list(),
                result@.len() == i,
                forall|j: int|
                    0 <= j < i ==> Field::spec_from_syn(j as usize, list[j]) == Ok::<
                        _,
                        DiagnosticView,
                    >(#[trigger] result@[j]),
            decreases declared.len() - i,
        {
            match Field::from_syn(i, &declared[i]) {
                Ok(field) => {
                    result.push(field);
                },
                Err(d) => {
                    proof {
                        assert(Field::<'a>::unreadable_at(list)(i as int));
                        assert forall|j: int| 0 <= j < i implies !#[trigger] Field::<
                            'a,
                        >::unreadable_at(list)(j) by {
                            assert(Field::spec_from_syn(j as usize, list[j]) == Ok::<
                                _,
                                DiagnosticView,
                            >(result@[j]));
                        }
                        lemma_least_is(
                            0,
                            list.len() as int,
                            Field::<'a>::unreadable_at(list),
                            i as int,
                        );
                    }
                    return Err(d);
                },
            }
            i += 1;
        }
        proof {
            assert forall|j: int| 0 <= j < list.len() implies !#[trigger] Field::<
                'a,
            >::unreadable_at(list)(j) by {
                assert(Field::spec_from_syn(j as usize, list[j]) == Ok::<_, DiagnosticView>(
                    result@[j],
                ));
            }
            lemma_least_none(0, list.len() as int, Field::<'a>::unreadable_at(list));
            assert(result@ =~= Seq::new(
                list.len(),
                |i: int| Field::<'a>::spec_from_syn(i as usize, list[i])->Ok_0,
            ));
        }
        Ok(result)
    }

    /// Reads field number `i` of a record off its declaration.
    ///
    /// The field is reached by its name, or by `i` where it has none. The
    /// diagnostic of a refused attribute is placed in field `i`.
    pub fn from_syn(i: usize, field: &'a crate::syntax::Field) -> (read: Result<
        Field<'a>,
        Diagnostic,
    >)
        ensures
            match read {
                Ok(f) => Field::spec_from_syn(i, *field) == Ok::<_, DiagnosticView>(f),
                Err(d) => Field::<'a>::spec_from_syn(i, *field) == Err::<Field<'a>, _>(d@),
            },
    {
        let attrs = match Attrs::from_syn(field.attrs.as_slice()) {
            Ok(attrs) => attrs,
            Err(d) => {
                return Err(d.in_field(i));
            },
        };
        let member = match &field.ident {
            Some(ident) => Member::Named(ident.clone()),
            None => Member::Unnamed(
                #[verifier::truncate]
                (i as u32),
            ),
        };
        Ok(Field { original: field, attrs, member, ty: &field.ty })
    }
}

} // verus!
