//! The attributes that mark a field: `#[source]`, `#[location]` and
//! `#[stack_error(std)]` / `#[stack_error(stacked)]`.
//!
//! The markers are read in two steps. First [`read_arguments`] has the
//! parser say which arguments of `#[stack_error(...)]` start with an
//! identifier. Everything after that works on the description as it then
//! stands and is exact: an argument that was not read as an identifier is an
//! invalid argument.

use crate::diagnostic::{Diagnostic, DiagnosticView, ErrorKind};
use crate::least::{least, lemma_least_is, lemma_least_none, lemma_least_step};
use crate::syntax::{Attribute, Data, DeriveInput, Field, Fields, Meta, Variant};
use crate::text::is_text;
use vstd::prelude::*;

verus! {

/// The error of the `syn` parser. Nothing is read from it.
#[verifier::external_type_specification]
#[verifier::external_body]
pub struct ExSynError(syn::Error);

/// Calls `syn::parse_str::<syn::Ident>` on one token and hands back the
/// identifier as text.
///
/// Nothing is proved of this function, and nothing is claimed of it: which
/// texts the parser takes for one identifier, and how it writes that
/// identifier, is the parser's business and may depend on where it runs.
#[verifier::external_body]
fn parse_ident(token: &str) -> (parsed: Result<String, syn::Error>) {
    match syn::parse_str::<syn::Ident>(token) {
        Ok(ident) => Ok(ident.to_string()),
        Err(error) => Err(error),
    }
}

/// A field carries `#[source]`.
pub struct Source<'a> {
    pub original: &'a Attribute,
}

/// A field carries `#[location]`.
pub struct Location<'a> {
    pub original: &'a Attribute,
}

/// How a cause takes part in the chain.
#[derive(Debug, Clone, Copy, PartialEq, Eq, Structural)]
pub enum StackErrorKind {
    /// The cause reports a location and a next cause of its own.
    Stacked,
    /// The cause is a plain error: the structured chain ends with it.
    Std,
}

/// A field carries `#[stack_error(...)]`.
pub struct StackError<'a> {
    pub original: &'a Attribute,
    pub kind: StackErrorKind,
}

/// The markers found on one field.
pub struct Attrs<'a> {
    pub source: Option<Source<'a>>,
    pub location: Option<Location<'a>>,
    pub stack_error: Option<StackError<'a>>,
}

impl StackErrorKind {
    /// The kind that the identifier `ident` asks for.
    pub open spec fn spec_from_ident(ident: Seq<char>) -> Result<StackErrorKind, DiagnosticView> {
        if ident == "std"@ {
            Ok(StackErrorKind::Std)
        } else if ident == "stacked"@ {
            Ok(StackErrorKind::Stacked)
        } else {
            Err(DiagnosticView::of(ErrorKind::InvalidAnnotationArgument).quoting(ident))
        }
    }

    /// The kind that an argument asks for of which the first token is the
    /// identifier `ident`: that of the identifier, if it is `alone`. An
    /// identifier that asks for no kind is refused for itself, whatever
    /// follows it; a kind that is followed by more tokens is refused.
    pub open spec fn spec_from_argument(ident: Seq<char>, alone: bool) -> Result<
        StackErrorKind,
        DiagnosticView,
    > {
        match StackErrorKind::spec_from_ident(ident) {
            Err(d) => Err(d),
            Ok(kind) => if alone {
                Ok(kind)
            } else {
                Err(DiagnosticView::of(ErrorKind::InvalidAnnotationArgument))
            },
        }
    }

    /// What reading an argument of `count` tokens can come to: the refusal
    /// of an argument that does not start with an identifier, or what some
    /// identifier asks for as the first of that many tokens.
    pub open spec fn can_come_of_parse(
        count: nat,
        outcome: Result<StackErrorKind, DiagnosticView>,
    ) -> bool {
        ||| outcome == Err::<StackErrorKind, _>(
            DiagnosticView::of(ErrorKind::InvalidAnnotationArgument),
        )
        ||| {
            let alone = count == 1;
            count > 0 && exists|ident: Seq<char>| #[trigger]
                StackErrorKind::spec_from_argument(ident, alone) == outcome
        }
    }

    /// The kind that the identifier `ident` asks for: `std` or `stacked`.
    /// Any other identifier is refused, and the diagnostic quotes it.
    pub fn from_ident(ident: String) -> (kind: Result<StackErrorKind, Diagnostic>)
        ensures
            match kind {
                Ok(k) => StackErrorKind::spec_from_ident(ident@) == Ok::<_, DiagnosticView>(k),
                Err(d) => StackErrorKind::spec_from_ident(ident@) == Err::<StackErrorKind, _>(d@),
            },
    {
        if is_text(&ident, "std") {
            Ok(StackErrorKind::Std)
        } else if is_text(&ident, "stacked") {
            Ok(StackErrorKind::Stacked)
        } else {
            Err(Diagnostic::new(ErrorKind::InvalidAnnotationArgument).quoting(ident))
        }
    }

    /// The kind that an argument asks for of which the first token is the
    /// identifier `ident`, which is `alone` or followed by more tokens.
    pub fn from_argument(ident: String, alone: bool) -> (kind: Result<StackErrorKind, Diagnostic>)
        ensures
            match kind {
                Ok(k) => StackErrorKind::spec_from_argument(ident@, alone) == Ok::<
                    _,
                    DiagnosticView,
                >(k),
                Err(d) => StackErrorKind::spec_from_argument(ident@, alone) == Err::<
                    StackErrorKind,
                    _,
                >(d@),
            },
    {
        let kind = StackErrorKind::from_ident(ident)?;
        if alone {
            Ok(kind)
        } else {
            Err(Diagnostic::new(ErrorKind::InvalidAnnotationArgument))
        }
    }

    /// Reads the argument of `#[stack_error(...)]`, given as its tokens: one
    /// identifier, `std` or `stacked`.
    ///
    /// Whether the first token is an identifier, and which, the parser says.
    /// What is owed whatever it says: an argument without tokens is refused,
    /// and any other outcome is either the refusal of an argument that does
    /// not start with an identifier, or what some identifier asks for as the
    /// first of these tokens. A refusal is always an invalid argument.
    pub fn parse(tokens: &[String]) -> (kind: Result<StackErrorKind, Diagnostic>)
        ensures
            StackErrorKind::can_come_of_parse(
                tokens@.len(),
                match kind {
                    Ok(k) => Ok(k),
                    Err(d) => Err(d@),
                },
            ),
            kind matches Err(d) ==> d@.kind == ErrorKind::InvalidAnnotationArgument,
    {
        if tokens.len() == 0 {
            return Err(Diagnostic::new(ErrorKind::InvalidAnnotationArgument));
        }
        match parse_ident(tokens[0].as_str()) {
            Ok(ident) => {
                let ghost written = ident@;
                let kind = StackErrorKind::from_argument(ident, tokens.len() == 1);
                proof {
                    if kind is Ok {
                        assert(StackErrorKind::spec_from_argument(written, tokens@.len() == 1)
                            == Ok::<_, DiagnosticView>(kind->Ok_0));
                    } else {
                        assert(StackErrorKind::spec_from_argument(written, tokens@.len() == 1)
                            == Err::<StackErrorKind, _>(kind->Err_0@));
                    }
                }
                kind
            },
            Err(_) => Err(Diagnostic::new(ErrorKind::InvalidAnnotationArgument)),
        }
    }
}

/// The attribute is `#[source]`, with or without arguments.
pub open spec fn is_source(attr: Attribute) -> bool {
    attr.spec_is_ident("source"@)
}

/// The attribute is `#[location]`, with or without arguments.
pub open spec fn is_location(attr: Attribute) -> bool {
    attr.spec_is_ident("location"@)
}

/// The attribute is `#[stack_error]`, with or without arguments.
pub open spec fn is_stack_error(attr: Attribute) -> bool {
    attr.spec_is_ident("stack_error"@)
}

/// The kind that a `#[stack_error(...)]` attribute asks for: that of the
/// identifier that the first token of its argument was read as. An argument
/// whose first token was not read as an identifier, or no argument, asks for none.
pub open spec fn kind_of(attr: Attribute) -> Result<StackErrorKind, DiagnosticView> {
    match attr.meta {
        Meta::Ident { ident, alone } => StackErrorKind::spec_from_argument(ident@, alone),
        _ => Err(DiagnosticView::of(ErrorKind::InvalidAnnotationArgument)),
    }
}

/// The positions of the `#[source]` attributes.
pub open spec fn source_at(inputs: Seq<Attribute>) -> spec_fn(int) -> bool {
    |i: int| is_source(inputs[i])
}

/// The positions of the `#[location]` attributes.
pub open spec fn location_at(inputs: Seq<Attribute>) -> spec_fn(int) -> bool {
    |i: int| is_location(inputs[i])
}

/// The positions of the `#[stack_error]` attributes.
pub open spec fn stack_error_at(inputs: Seq<Attribute>) -> spec_fn(int) -> bool {
    |i: int| is_stack_error(inputs[i])
}

/// Why attribute `i` is refused, if it is: a marker that is malformed, or one
/// that an earlier attribute of the same field has given already.
pub open spec fn refusal(inputs: Seq<Attribute>, i: int) -> Option<DiagnosticView> {
    let attr = inputs[i];
    let place = i as usize;
    if is_source(attr) {
        if !(attr.meta is Path) {
            Some(DiagnosticView::at_attribute(ErrorKind::UnexpectedAttributeToken, place))
        } else if least(0, i, source_at(inputs)) is Some {
            Some(DiagnosticView::at_attribute(ErrorKind::RepeatedSourceAttribute, place))
        } else {
            None
        }
    } else if is_location(attr) {
        if !(attr.meta is Path) {
            Some(DiagnosticView::at_attribute(ErrorKind::UnexpectedAttributeToken, place))
        } else if least(0, i, location_at(inputs)) is Some {
            Some(DiagnosticView::at_attribute(ErrorKind::RepeatedLocationAttribute, place))
        } else {
            None
        }
    } else if is_stack_error(attr) {
        match kind_of(attr) {
            Err(d) => Some(DiagnosticView { attribute: Some(place), ..d }),
            Ok(_) => if least(0, i, stack_error_at(inputs)) is Some {
                Some(DiagnosticView::at_attribute(ErrorKind::RepeatedStackErrorAttribute, place))
            } else {
                None
            },
        }
    } else {
        None
    }
}

/// The three marker names are three different words.
pub proof fn lemma_marker_names_differ()
    ensures
        "source"@ != "location"@,
        "source"@ != "stack_error"@,
        "location"@ != "stack_error"@,
{
    reveal_strlit("source");
    reveal_strlit("location");
    reveal_strlit("stack_error");
    assert("source"@.len() == 6);
    assert("location"@.len() == 8);
    assert("stack_error"@.len() == 11);
}

/// The positions of the attributes that are refused.
pub open spec fn refused_at(inputs: Seq<Attribute>) -> spec_fn(int) -> bool {
    |i: int| refusal(inputs, i) is Some
}

impl<'a> Attrs<'a> {
    /// No marker at all.
    pub open spec fn spec_empty() -> Attrs<'a> {
        Attrs { source: None, location: None, stack_error: None }
    }

    /// The markers among the first `n` attributes, each taken where it first occurs.
    pub open spec fn among(inputs: Seq<Attribute>, n: int) -> Attrs<'a> {
        Attrs {
            source: match least(0, n, source_at(inputs)) {
                Some(i) => Some(Source { original: &inputs[i] }),
                None => None,
            },
            location: match least(0, n, location_at(inputs)) {
                Some(i) => Some(Location { original: &inputs[i] }),
                None => None,
            },
            stack_error: match least(0, n, stack_error_at(inputs)) {
                Some(i) => match kind_of(inputs[i]) {
                    Ok(kind) => Some(StackError { original: &inputs[i], kind }),
                    Err(_) => None,
                },
                None => None,
            },
        }
    }

    /// The markers of a field with the attributes `inputs`, or the refusal of
    /// the first attribute that is refused.
    pub open spec fn spec_from_syn(inputs: Seq<Attribute>) -> Result<Attrs<'a>, DiagnosticView> {
        match least(0, inputs.len() as int, refused_at(inputs)) {
            Some(i) => Err(refusal(inputs, i).unwrap()),
            None => Ok(Attrs::among(inputs, inputs.len() as int)),
        }
    }

    /// Whether the field is marked as the cause, by `#[source]` or `#[stack_error(...)]`.
    pub open spec fn marks_cause(self) -> bool {
        self.source is Some || self.stack_error is Some
    }

    /// No marker at all.
    pub fn empty() -> (attrs: Attrs<'a>)
        ensures
            attrs == Attrs::<'a>::spec_empty(),
    {
        Attrs { source: None, location: None, stack_error: None }
    }

    /// Reads the markers off the attributes of one field, the arguments of
    /// which were read before (see [`read_arguments`]).
    ///
    /// Attributes other than the three markers are passed over. The first
    /// attribute that is refused ends the reading with its diagnostic:
    /// `#[source]` or `#[location]` with arguments, `#[stack_error(...)]` with
    /// an argument other than `std` or `stacked`, or a marker given twice.
    pub fn from_syn(inputs: &'a [Attribute]) -> (attrs: Result<Attrs<'a>, Diagnostic>)
        ensures
            match attrs {
                Ok(a) => Attrs::spec_from_syn(inputs@) == Ok::<_, DiagnosticView>(a),
                Err(d) => Attrs::<'a>::spec_from_syn(inputs@) == Err::<Attrs<'a>, _>(d@),
            },
    {
        let mut result = Attrs::empty();
        let mut i: usize = 0;
        proof {
            lemma_least_none(0, 0, source_at(inputs@));
            lemma_least_none(0, 0, location_at(inputs@));
            lemma_least_none(0, 0, stack_error_at(inputs@));
        }
        while i < inputs.len()
            invariant
                i <= inputs.len(),
                result == Attrs::<'a>::among(inputs@, i as int),
                forall|j: int| 0 <= j < i ==> !#[trigger] refused_at(inputs@)(j),
                forall|j: int|
                    0 <= j < i && is_stack_error(inputs@[j]) ==> kind_of(inputs@[j]) is Ok,
            decreases inputs.len() - i,
        {
            let attr = &inputs[i];
            proof {
                lemma_marker_names_differ();
                lemma_least_step(0, i as int, source_at(inputs@));
                lemma_least_step(0, i as int, location_at(inputs@));
                lemma_least_step(0, i as int, stack_error_at(inputs@));
                crate::least::lemma_least_some(0, i as int, stack_error_at(inputs@));
                crate::least::lemma_least_some(0, i as int + 1, stack_error_at(inputs@));
            }
            let mut refused: Option<Diagnostic> = None;
            if attr.is_ident("source") {
                if !matches!(attr.meta, Meta::Path) {
                    refused = Some(Diagnostic::at_attribute(ErrorKind::UnexpectedAttributeToken, i));
                } else if result.source.is_some() {
                    refused = Some(Diagnostic::at_attribute(ErrorKind::RepeatedSourceAttribute, i));
                } else {
                    result.source = Some(Source { original: attr });
                }
            } else if attr.is_ident("location") {
                if !matches!(attr.meta, Meta::Path) {
                    refused = Some(Diagnostic::at_attribute(ErrorKind::UnexpectedAttributeToken, i));
                } else if result.location.is_some() {
                    refused = Some(
                        Diagnostic::at_attribute(ErrorKind::RepeatedLocationAttribute, i),
                    );
                } else {
                    result.location = Some(Location { original: attr });
                }
            } else if attr.is_ident("stack_error") {
                let kind = match &attr.meta {
                    Meta::Ident { ident, alone } => StackErrorKind::from_argument(
                        ident.clone(),
                        *alone,
                    ),
                    _ => Err(Diagnostic::new(ErrorKind::InvalidAnnotationArgument)),
                };
                match kind {
                    Err(d) => {
                        refused = Some(Diagnostic { attribute: Some(i), ..d });
                    },
                    Ok(kind) => {
                        if result.stack_error.is_some() {
                            refused = Some(
                                Diagnostic::at_attribute(ErrorKind::RepeatedStackErrorAttribute, i),
                            );
                        } else {
                            result.stack_error = Some(StackError { original: attr, kind });
                        }
                    },
                }
            }
            match refused {
                Some(d) => {
                    proof {
                        assert(refusal(inputs@, i as int) == Some(d@));
                        assert(refused_at(inputs@)(i as int));
                        assert(crate::least::is_least(
                            0,
                            inputs@.len() as int,
                            refused_at(inputs@),
                            i as int,
                        ));
                        lemma_least_is(0, inputs@.len() as int, refused_at(inputs@), i as int);
                    }
                    return Err(d);
                },
                None => {},
            }
            assert(refusal(inputs@, i as int) is None);
            i += 1;
        }
        proof {
            lemma_least_none(0, inputs@.len() as int, refused_at(inputs@));
        }
        Ok(result)
    }
}

impl Attribute {
    /// Whether `self` can come of reading the argument of `before`: nothing
    /// changes but the argument of a `#[stack_error(...)]`, of which the
    /// first token may have been read as an identifier; it is then alone
    /// just where the argument has no other token.
    pub open spec fn reads(self, before: Attribute) -> bool {
        &&& self.name == before.name
        &&& self.meta == before.meta || (is_stack_error(before) && match (before.meta, self.meta) {
            (Meta::List(tokens), Meta::Ident { ident, alone }) => tokens@.len() > 0 && alone == (
            tokens@.len() == 1),
            _ => false,
        })
    }
}

/// Whether the attributes `after` can come of reading the arguments of `before`.
pub open spec fn attributes_read(after: Seq<Attribute>, before: Seq<Attribute>) -> bool {
    &&& after.len() == before.len()
    &&& forall|i: int| 0 <= i < before.len() ==> (#[trigger] after[i]).reads(before[i])
}

impl Field {
    /// Whether `self` can come of reading the arguments in `before`.
    pub open spec fn reads(self, before: Field) -> bool {
        &&& self.ident == before.ident
        &&& self.ty == before.ty
        &&& attributes_read(self.attrs@, before.attrs@)
    }
}

/// Whether the fields `after` can come of reading the arguments in `before`.
pub open spec fn fields_read(after: Seq<Field>, before: Seq<Field>) -> bool {
    &&& after.len() == before.len()
    &&& forall|i: int| 0 <= i < before.len() ==> (#[trigger] after[i]).reads(before[i])
}

impl Fields {
    /// Whether `self` can come of reading the arguments in `before`.
    pub open spec fn reads(self, before: Fields) -> bool {
        match (self, before) {
            (Fields::Named(after), Fields::Named(list)) => fields_read(after@, list@),
            (Fields::Unnamed(after), Fields::Unnamed(list)) => fields_read(after@, list@),
            (Fields::Unit, Fields::Unit) => true,
            _ => false,
        }
    }
}

impl Variant {
    /// Whether `self` can come of reading the arguments in `before`.
    pub open spec fn reads(self, before: Variant) -> bool {
        &&& self.ident == before.ident
        &&& self.fields.reads(before.fields)
    }
}

/// Whether the variants `after` can come of reading the arguments in `before`.
pub open spec fn variants_read(after: Seq<Variant>, before: Seq<Variant>) -> bool {
    &&& after.len() == before.len()
    &&& forall|i: int| 0 <= i < before.len() ==> (#[trigger] after[i]).reads(before[i])
}

impl DeriveInput {
    /// Whether `self` can come of reading the arguments in `before`: the
    /// same type definition, in which the argument of a `#[stack_error(...)]`
    /// may have been read as an identifier.
    pub open spec fn reads(self, before: DeriveInput) -> bool {
        &&& self.ident == before.ident
        &&& self.generics == before.generics
        &&& match (self.data, before.data) {
            (Data::Struct(after), Data::Struct(fields)) => after.reads(fields),
            (Data::Enum(after), Data::Enum(variants)) => variants_read(after@, variants@),
            (Data::Union, Data::Union) => true,
            _ => false,
        }
    }
}

/// Reads the arguments of the attributes of one field.
fn read_attributes(attrs: &mut Vec<Attribute>)
    ensures
        attributes_read(final(attrs)@, old(attrs)@),
{
    let mut i: usize = 0;
    while i < attrs.len()
        invariant
            i <= attrs.len(),
            attrs@.len() == old(attrs)@.len(),
            forall|j: int| 0 <= j < i ==> (#[trigger] attrs@[j]).reads(old(attrs)@[j]),
            forall|j: int| i <= j < attrs@.len() ==> attrs@[j] == old(attrs)@[j],
        decreases attrs.len() - i,
    {
        if attrs[i].is_ident("stack_error") {
            let read = match &attrs[i].meta {
                Meta::List(tokens) => if tokens.len() > 0 {
                    match parse_ident(tokens[0].as_str()) {
                        Ok(ident) => Some((ident, tokens.len() == 1)),
                        Err(_) => None,
                    }
                } else {
                    None
                },
                _ => None,
            };
            if let Some((ident, alone)) = read {
                let name = match &attrs[i].name {
                    Some(name) => Some(name.clone()),
                    None => None,
                };
                attrs.set(i, Attribute { name, meta: Meta::Ident { ident, alone } });
            }
        }
        i += 1;
    }
}

/// Reads the arguments of the attributes of the fields `fields`.
fn read_field_list(fields: &mut Vec<Field>)
    ensures
        fields_read(final(fields)@, old(fields)@),
{
    let mut i: usize = 0;
    while i < fields.len()
        invariant
            i <= fields.len(),
            fields@.len() == old(fields)@.len(),
            forall|j: int| 0 <= j < i ==> (#[trigger] fields@[j]).reads(old(fields)@[j]),
            forall|j: int| i <= j < fields@.len() ==> fields@[j] == old(fields)@[j],
        decreases fields.len() - i,
    {
        read_attributes(&mut fields[i].attrs);
        i += 1;
    }
}

/// Reads the arguments of the attributes of the fields of one record.
fn read_fields(fields: &mut Fields)
    ensures
        final(fields).reads(*old(fields)),
{
    match fields {
        Fields::Named(list) => read_field_list(list),
        Fields::Unnamed(list) => read_field_list(list),
        Fields::Unit => {},
    }
}

/// Reads the argument of every `#[stack_error(...)]` in a type definition.
///
/// The first token of each such argument is handed to the parser as it was
/// written. Where the parser takes it for an identifier, the identifier
/// stands in the place of the argument afterwards, as the parser writes it,
/// with the note whether more tokens followed; where not, the argument stays
/// as it was. Nothing else changes. Which tokens the parser takes, it alone
/// says: of the result only what holds whatever the parser said is owed.
pub fn read_arguments(input: &mut DeriveInput)
    ensures
        final(input).reads(*old(input)),
{
    match &mut input.data {
        Data::Struct(fields) => read_fields(fields),
        Data::Enum(variants) => {
            let ghost before = variants@;
            let mut i: usize = 0;
            while i < variants.len()
                invariant
                    i <= variants.len(),
                    variants@.len() == before.len(),
                    forall|j: int| 0 <= j < i ==> (#[trigger] variants@[j]).reads(before[j]),
                    forall|j: int| i <= j < variants@.len() ==> variants@[j] == before[j],
                decreases variants.len() - i,
            {
                read_fields(&mut variants[i].fields);
                i += 1;
            }
        },
        Data::Union => {},
    }
}

} // verus!
