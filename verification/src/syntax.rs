//! The description of a type definition that the resolver works on.
//!
//! These are plain values: names are strings, and of a field's declared type
//! only the shape that the rules look at is kept. Whoever holds the real
//! syntax tree fills them in.

use crate::attr::StackErrorKind;
use crate::text::is_text;
use vstd::prelude::*;

verus! {

/// One argument between the angle brackets of a path segment.
pub enum GenericArgument {
    /// A type, as in `Option<T>`.
    Type(Type),
    /// A lifetime, a constant, or a binding of an associated item.
    Other,
}

/// What follows the name in one segment of a path.
pub enum PathArguments {
    /// Nothing, as in `T`.
    Plain,
    /// Arguments in angle brackets, as in `Option<T>`.
    AngleBracketed(Vec<GenericArgument>),
    /// Arguments in parentheses, as in `Fn(A) -> B`.
    Parenthesized,
}

/// One segment of a path: a name and its arguments.
pub struct PathSegment {
    pub ident: String,
    pub arguments: PathArguments,
}

/// The declared type of a field.
pub enum Type {
    /// A path such as `std::io::Error`, `Option<T>` or `<T as Trait>::Error`.
    Path {
        /// The type in `<T as Trait>::Error`, where the path is qualified.
        qself: Option<Box<Type>>,
        /// The segments of the path, first to last.
        segments: Vec<PathSegment>,
    },
    /// A reference `&T` or `&mut T`.
    Reference(Box<Type>),
    /// Any other type: a tuple, an array, a function pointer and so on.
    Other,
}

/// The part of an attribute after its path.
pub enum Meta {
    /// Nothing, as in `#[source]`.
    Path,
    /// Delimited tokens, as in `#[stack_error(std)]`: each token tree as text.
    List(Vec<String>),
    /// Delimited tokens of which the first was read as the identifier
    /// `ident`; `alone` says that no token follows it.
    Ident { ident: String, alone: bool },
    /// A value, as in `#[doc = "..."]`.
    NameValue,
}

/// One attribute of a field.
pub struct Attribute {
    /// The attribute's path when it is a single identifier, as in `#[source]`.
    pub name: Option<String>,
    /// What follows the path.
    pub meta: Meta,
}

/// One field as it was declared.
pub struct Field {
    /// The field's name; a field of a tuple struct or tuple variant has none.
    pub ident: Option<String>,
    /// The attributes on the field, in source order.
    pub attrs: Vec<Attribute>,
    /// The shape of the declared type.
    pub ty: Type,
}

/// The fields of a struct or of an enum variant.
pub enum Fields {
    /// Fields in braces.
    Named(Vec<Field>),
    /// Fields in parentheses.
    Unnamed(Vec<Field>),
    /// No field list at all.
    Unit,
}

/// One variant of an enum as it was declared.
pub struct Variant {
    pub ident: String,
    pub fields: Fields,
}

/// The body of a type definition.
pub enum Data {
    Struct(Fields),
    Enum(Vec<Variant>),
    Union,
}

/// One predicate of a `where` clause.
pub enum WherePredicate {
    /// A predicate that the author wrote; the string holds it as text.
    Written(String),
    /// The type parameter `param` is bound by the capability that `kind`
    /// stands for: chain reporting for `Stacked`, the base error for `Std`.
    Bound { param: String, kind: StackErrorKind },
}

/// The mathematical value of a [`WherePredicate`].
pub enum WherePredicateView {
    Written(Seq<char>),
    Bound { param: Seq<char>, kind: StackErrorKind },
}

/// A `where` clause: its predicates in order.
pub struct WhereClause {
    pub predicates: Vec<WherePredicate>,
}

/// The generic parameters of a type definition.
pub struct Generics {
    /// The names of the type parameters, in order of declaration.
    pub type_params: Vec<String>,
    /// The `where` clause, if the author wrote one.
    pub where_clause: Option<WhereClause>,
}

/// A type definition that the derive was applied to.
pub struct DeriveInput {
    pub ident: String,
    pub generics: Generics,
    pub data: Data,
}

impl View for WherePredicate {
    type V = WherePredicateView;

    open spec fn view(&self) -> WherePredicateView {
        match self {
            WherePredicate::Written(text) => WherePredicateView::Written(text@),
            WherePredicate::Bound { param, kind } => WherePredicateView::Bound {
                param: param@,
                kind: *kind,
            },
        }
    }
}

impl WherePredicate {
    /// A copy of the predicate.
    pub fn duplicate(&self) -> (copy: WherePredicate)
        ensures
            copy@ == self@,
    {
        match self {
            WherePredicate::Written(text) => WherePredicate::Written(text.clone()),
            WherePredicate::Bound { param, kind } => WherePredicate::Bound {
                param: param.clone(),
                kind: *kind,
            },
        }
    }
}

/// The values of a list of predicates, in order.
pub open spec fn predicate_views(list: Seq<WherePredicate>) -> Seq<WherePredicateView> {
    list.map_values(|p: WherePredicate| p@)
}

impl WhereClause {
    /// The values of the predicates, in order.
    pub open spec fn spec_predicates(self) -> Seq<WherePredicateView> {
        predicate_views(self.predicates@)
    }
}

impl Fields {
    /// The declared fields in order; a unit shape has none.
    pub open spec fn list(self) -> Seq<Field> {
        match self {
            Fields::Named(fields) => fields@,
            Fields::Unnamed(fields) => fields@,
            Fields::Unit => Seq::empty(),
        }
    }
}

impl Attribute {
    /// Whether the attribute's path is the single identifier `name`.
    pub open spec fn spec_is_ident(self, name: Seq<char>) -> bool {
        match self.name {
            Some(written) => written@ == name,
            None => false,
        }
    }

    /// Whether the attribute's path is the single identifier `name`.
    pub fn is_ident(&self, name: &str) -> (yes: bool)
        ensures
            yes == self.spec_is_ident(name@),
    {
        match &self.name {
            Some(written) => is_text(written, name),
            None => false,
        }
    }
}

} // verus!
