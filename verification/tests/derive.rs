use pseudo_backtrace::ast::{ContainerKind, Enum, Field, Input, Member, Struct, Variant};
use pseudo_backtrace::attr::{read_arguments, Attrs, StackErrorKind};
use pseudo_backtrace::bounds::{contains, crawl, BoundsTracker, Capability};
use pseudo_backtrace::diagnostic::{Diagnostic, ErrorKind};
use pseudo_backtrace::expand::{
    derive_from, derive_stack_error, expand, expand_enum, expand_struct, LocationForm, Methods, NextForm, Pattern, Slot,
};
use pseudo_backtrace::resolve::{
    find_located_error, find_location, find_source, is_located_error, option_inner_type, resolve,
    scan, Mark,
};
use pseudo_backtrace::syntax;
use pseudo_backtrace::syntax::{
    Attribute, Data, DeriveInput, Fields, GenericArgument, Generics, Meta, PathArguments,
    PathSegment, Type, WhereClause, WherePredicate,
};

fn plain(name: &str) -> PathSegment {
    PathSegment { ident: name.to_string(), arguments: PathArguments::Plain }
}

fn path(names: &[&str]) -> Type {
    Type::Path { qself: None, segments: names.iter().map(|n| plain(n)).collect() }
}

fn generic(name: &str, args: Vec<Type>) -> Type {
    Type::Path {
        qself: None,
        segments: vec![PathSegment {
            ident: name.to_string(),
            arguments: PathArguments::AngleBracketed(
                args.into_iter().map(GenericArgument::Type).collect(),
            ),
        }],
    }
}

fn marker(name: &str) -> Attribute {
    Attribute { name: Some(name.to_string()), meta: Meta::Path }
}

fn stack_error(argument: &str) -> Attribute {
    Attribute {
        name: Some("stack_error".to_string()),
        meta: Meta::Ident { ident: argument.to_string(), alone: true },
    }
}

fn tokens(texts: &[&str]) -> Vec<String> {
    texts.iter().map(|text| text.to_string()).collect()
}

fn stack_error_tokens(texts: &[&str]) -> Attribute {
    Attribute { name: Some("stack_error".to_string()), meta: Meta::List(tokens(texts)) }
}

fn named(name: &str, attrs: Vec<Attribute>, ty: Type) -> syntax::Field {
    syntax::Field { ident: Some(name.to_string()), attrs, ty }
}

fn unnamed(attrs: Vec<Attribute>, ty: Type) -> syntax::Field {
    syntax::Field { ident: None, attrs, ty }
}

fn io_error() -> Type {
    path(&["std", "io", "Error"])
}

fn location_ty() -> Type {
    Type::Reference(Box::new(path(&["core", "panic", "Location"])))
}

fn located() -> Type {
    generic("LocatedError", vec![io_error()])
}

fn no_generics() -> Generics {
    Generics { type_params: vec![], where_clause: None }
}

fn params(names: &[&str]) -> Generics {
    Generics { type_params: names.iter().map(|n| n.to_string()).collect(), where_clause: None }
}

fn struct_input(name: &str, generics: Generics, fields: Fields) -> DeriveInput {
    DeriveInput { ident: name.to_string(), generics, data: Data::Struct(fields) }
}

fn read(fields: &Fields) -> Vec<Field<'_>> {
    Field::from_fields(fields).expect("fields can be read")
}

fn kind_of(d: &Diagnostic) -> ErrorKind {
    d.kind
}

fn shown(clause: &WhereClause) -> Vec<String> {
    clause
        .predicates
        .iter()
        .map(|predicate| match predicate {
            WherePredicate::Written(text) => text.clone(),
            WherePredicate::Bound { param, kind: StackErrorKind::Std } => format!("{param}: Error"),
            WherePredicate::Bound { param, kind: StackErrorKind::Stacked } => {
                format!("{param}: StackError")
            }
        })
        .collect()
}

fn collected(generics: &Generics, records: &[Fields]) -> BoundsTracker {
    let mut tracker = BoundsTracker::new(generics);
    for fields in records {
        tracker.collect(&read(fields));
    }
    tracker
}

#[test]
fn attrs_reads_the_three_markers() {
    let attrs = vec![
        Attribute { name: Some("doc".to_string()), meta: Meta::NameValue },
        marker("source"),
        Attribute { name: None, meta: Meta::List(tokens(&["x"])) },
        marker("location"),
        stack_error("std"),
    ];
    let read = Attrs::from_syn(&attrs).expect("markers are fine");
    assert!(read.source.is_some());
    assert!(read.location.is_some());
    assert_eq!(read.stack_error.map(|s| s.kind), Some(StackErrorKind::Std));
}

#[test]
fn attrs_without_markers_is_empty() {
    let attrs = vec![Attribute { name: Some("allow".to_string()), meta: Meta::List(tokens(&["x"])) }];
    let read = Attrs::from_syn(&attrs).expect("nothing to refuse");
    assert!(read.source.is_none());
    assert!(read.location.is_none());
    assert!(read.stack_error.is_none());
    let empty = Attrs::empty();
    assert!(empty.source.is_none() && empty.location.is_none() && empty.stack_error.is_none());
}

#[test]
fn attrs_refuses_a_marker_given_twice() {
    let twice = vec![marker("source"), marker("location"), marker("source")];
    let d = Attrs::from_syn(&twice).err().expect("duplicate");
    assert_eq!(d.kind, ErrorKind::RepeatedSourceAttribute);
    assert_eq!(d.attribute, Some(2));
    assert_eq!(d.message(), "duplicate `#[source]` attribute");

    let twice = vec![marker("location"), marker("location")];
    let d = Attrs::from_syn(&twice).err().expect("duplicate");
    assert_eq!(d.kind, ErrorKind::RepeatedLocationAttribute);
    assert_eq!(d.attribute, Some(1));
    assert_eq!(d.message(), "duplicate `#[location]` attribute");

    let twice = vec![stack_error("std"), stack_error("std")];
    let d = Attrs::from_syn(&twice).err().expect("duplicate");
    assert_eq!(d.kind, ErrorKind::RepeatedStackErrorAttribute);
    assert_eq!(d.attribute, Some(1));
    assert_eq!(d.message(), "duplicate `#[stack_error(...)]` attribute");
}

#[test]
fn attrs_refuses_arguments_on_plain_markers() {
    let attrs = vec![Attribute { name: Some("source".to_string()), meta: Meta::List(tokens(&["x"])) }];
    let d = Attrs::from_syn(&attrs).err().expect("unexpected token");
    assert_eq!(d.kind, ErrorKind::UnexpectedAttributeToken);
    assert_eq!(d.attribute, Some(0));
    assert_eq!(d.message(), "unexpected token in attribute");
    let attrs = vec![Attribute { name: Some("location".to_string()), meta: Meta::NameValue }];
    let d = Attrs::from_syn(&attrs).err().expect("unexpected token");
    assert_eq!(d.kind, ErrorKind::UnexpectedAttributeToken);
}

#[test]
fn attrs_stops_at_the_first_refused_attribute() {
    let attrs = vec![marker("source"), stack_error("foo"), marker("source")];
    let d = Attrs::from_syn(&attrs).err().expect("invalid argument comes first");
    assert_eq!(d.kind, ErrorKind::InvalidAnnotationArgument);
    assert_eq!(d.attribute, Some(1));
    assert_eq!(d.argument.as_deref(), Some("foo"));
}

#[test]
fn stack_error_kind_parse_accepts_std_and_stacked() {
    assert_eq!(StackErrorKind::parse(&tokens(&["std"])).ok(), Some(StackErrorKind::Std));
    assert_eq!(StackErrorKind::parse(&tokens(&["stacked"])).ok(), Some(StackErrorKind::Stacked));
}

#[test]
fn stack_error_kind_parse_goes_through_the_tokenizer() {
    assert_eq!(StackErrorKind::parse(&tokens(&["  std "])).ok(), Some(StackErrorKind::Std));
    assert_eq!(
        StackErrorKind::parse(&tokens(&["stacked /* kind */"])).ok(),
        Some(StackErrorKind::Stacked)
    );
    let d = StackErrorKind::parse(&tokens(&[" foo "])).err().expect("not a kind");
    assert_eq!(d.argument.as_deref(), Some("foo"));
}

#[test]
fn stack_error_kind_parse_refuses_everything_else() {
    let d = StackErrorKind::parse(&tokens(&["foo"])).err().expect("not a kind");
    assert_eq!(d.kind, ErrorKind::InvalidAnnotationArgument);
    assert_eq!(d.argument.as_deref(), Some("foo"));
    assert_eq!(
        d.message(),
        "invalid `#[stack_error(foo)]` attribute. expected `std` or `stacked`"
    );
    let d = StackErrorKind::parse(&tokens(&["end"])).err().expect("not a kind");
    assert_eq!(d.argument.as_deref(), Some("end"));
    let d = StackErrorKind::parse(&tokens(&["foo", "bar"])).err().expect("not a kind");
    assert_eq!(d.argument.as_deref(), Some("foo"));
    let unreadable: [&[&str]; 9] = [
        &[],
        &["std", "stacked"],
        &["stacked", ","],
        &["\"std\""],
        &["1"],
        &["fn"],
        &["(std)"],
        &["'", "a"],
        &["std stacked"],
    ];
    for texts in unreadable {
        let d = StackErrorKind::parse(&tokens(texts)).err().expect("not one identifier");
        assert_eq!(d.kind, ErrorKind::InvalidAnnotationArgument, "{texts:?}");
        assert_eq!(d.argument, None, "{texts:?}");
        assert_eq!(
            d.message(),
            "invalid `#[stack_error(...)]` attribute. expected `std` or `stacked`"
        );
    }
}

#[test]
fn stack_error_kind_from_argument_wants_the_kind_alone() {
    assert_eq!(
        StackErrorKind::from_argument("std".to_string(), true).ok(),
        Some(StackErrorKind::Std)
    );
    let d = StackErrorKind::from_argument("std".to_string(), false).err().expect("not alone");
    assert_eq!(d.kind, ErrorKind::InvalidAnnotationArgument);
    assert_eq!(d.argument, None);
    for alone in [true, false] {
        let d = StackErrorKind::from_argument("foo".to_string(), alone).err().expect("no kind");
        assert_eq!(d.argument.as_deref(), Some("foo"));
    }
    let attrs = vec![Attribute {
        name: Some("stack_error".to_string()),
        meta: Meta::Ident { ident: "stacked".to_string(), alone: false },
    }];
    let d = Attrs::from_syn(&attrs).err().expect("more tokens follow");
    assert_eq!((d.kind, d.attribute), (ErrorKind::InvalidAnnotationArgument, Some(0)));
}

#[test]
fn stack_error_kind_from_ident_is_exact() {
    assert_eq!(StackErrorKind::from_ident("std".to_string()).ok(), Some(StackErrorKind::Std));
    assert_eq!(
        StackErrorKind::from_ident("stacked".to_string()).ok(),
        Some(StackErrorKind::Stacked)
    );
    for text in ["Std", "STACKED", "std ", "", "r#std"] {
        let d = StackErrorKind::from_ident(text.to_string()).err().expect("refused");
        assert_eq!(d.kind, ErrorKind::InvalidAnnotationArgument);
        assert_eq!(d.argument.as_deref(), Some(text));
    }
}

#[test]
fn stack_error_without_list_is_invalid() {
    let attrs = vec![marker("stack_error")];
    let d = Attrs::from_syn(&attrs).err().expect("no argument");
    assert_eq!(d.kind, ErrorKind::InvalidAnnotationArgument);
    assert_eq!(d.attribute, Some(0));
    let attrs = vec![Attribute { name: Some("stack_error".to_string()), meta: Meta::NameValue }];
    assert_eq!(
        Attrs::from_syn(&attrs).err().map(|d| d.kind),
        Some(ErrorKind::InvalidAnnotationArgument)
    );
    let attrs = vec![stack_error_tokens(&["std"])];
    let d = Attrs::from_syn(&attrs).err().expect("an argument that was not read");
    assert_eq!(d.kind, ErrorKind::InvalidAnnotationArgument);
    assert_eq!(d.argument, None);
}

#[test]
fn attribute_is_ident_needs_a_single_identifier() {
    assert!(marker("source").is_ident("source"));
    assert!(!marker("source").is_ident("location"));
    assert!(!Attribute { name: None, meta: Meta::Path }.is_ident("source"));
}

#[test]
fn fields_get_their_members() {
    let fields = Fields::Named(vec![
        named("source", vec![], io_error()),
        named("location", vec![marker("location")], location_ty()),
    ]);
    let read = read(&fields);
    assert_eq!(read.len(), 2);
    assert!(read[0].member.is_named("source"));
    assert!(read[1].member.is_named("location"));
    assert!(read[1].attrs.location.is_some());
    assert!(read[0].member.same_as(&Member::Named("source".to_string())));
    assert!(!read[0].member.same_as(&read[1].member));

    let fields = Fields::Unnamed(vec![
        unnamed(vec![], io_error()),
        unnamed(vec![], location_ty()),
    ]);
    let read = Field::from_fields(&fields).expect("fields can be read");
    assert!(matches!(read[0].member, Member::Unnamed(0)));
    assert!(matches!(read[1].member, Member::Unnamed(1)));
    assert!(read[1].member.same_as(&Member::Unnamed(1)));
    assert!(!read[1].member.same_as(&Member::Named("1".to_string())));
    assert!(!read[1].member.is_named("location"));
}

#[test]
fn records_without_fields_are_unit_shapes() {
    for fields in [Fields::Unit, Fields::Named(vec![]), Fields::Unnamed(vec![])] {
        let d = Field::from_fields(&fields).err().expect("no field can carry a role");
        assert_eq!(d.kind, ErrorKind::UnitShapeUnsupported);
        assert_eq!(d.field, None);
        assert_eq!(d.message(), "unit struct and unit variant are not supported");
    }
}

#[test]
fn a_refused_attribute_names_its_field() {
    let fields = Fields::Named(vec![
        named("a", vec![], io_error()),
        named("b", vec![marker("doc"), stack_error("end")], io_error()),
        named("c", vec![marker("source"), marker("source")], io_error()),
    ]);
    let d = Field::from_fields(&fields).err().expect("second field is refused");
    assert_eq!(d.kind, ErrorKind::InvalidAnnotationArgument);
    assert_eq!(d.field, Some(1));
    assert_eq!(d.attribute, Some(1));
    assert_eq!(d.argument.as_deref(), Some("end"));
    let d = Field::from_syn(7, &named("c", vec![marker("location"), marker("location")], io_error()))
        .err()
        .expect("refused");
    assert_eq!(d.field, Some(7));
    assert_eq!(d.attribute, Some(1));
}

#[test]
fn located_error_is_recognised_by_its_last_segment() {
    assert!(is_located_error(&located()));
    assert!(is_located_error(&path(&["pseudo_backtrace", "LocatedError"])));
    assert!(is_located_error(&Type::Reference(Box::new(located()))));
    assert!(!is_located_error(&Type::Reference(Box::new(Type::Reference(Box::new(located()))))));
    assert!(!is_located_error(&generic("Option", vec![located()])));
    assert!(!is_located_error(&path(&["LocatedError", "Inner"])));
    assert!(!is_located_error(&Type::Other));
    assert!(!is_located_error(&Type::Path { qself: None, segments: vec![] }));
}

#[test]
fn option_inner_type_is_the_first_type_argument() {
    let ty = generic("Option", vec![io_error()]);
    assert!(matches!(option_inner_type(&ty), Some(Type::Path { .. })));
    let qualified = Type::Path {
        qself: None,
        segments: vec![
            plain("core"),
            plain("option"),
            PathSegment {
                ident: "Option".to_string(),
                arguments: PathArguments::AngleBracketed(vec![GenericArgument::Type(Type::Other)]),
            },
        ],
    };
    assert!(matches!(option_inner_type(&qualified), Some(Type::Other)));
    assert!(option_inner_type(&path(&["Option"])).is_none());
    assert!(option_inner_type(&generic("Box", vec![io_error()])).is_none());
    assert!(option_inner_type(&Type::Reference(Box::new(ty))).is_none());
    assert!(option_inner_type(&Type::Other).is_none());
    let lifetime_first = Type::Path {
        qself: None,
        segments: vec![PathSegment {
            ident: "Option".to_string(),
            arguments: PathArguments::AngleBracketed(vec![GenericArgument::Other]),
        }],
    };
    assert!(option_inner_type(&lifetime_first).is_none());
    let no_args = Type::Path {
        qself: None,
        segments: vec![PathSegment {
            ident: "Option".to_string(),
            arguments: PathArguments::AngleBracketed(vec![]),
        }],
    };
    assert!(option_inner_type(&no_args).is_none());
    let parenthesized = Type::Path {
        qself: None,
        segments: vec![PathSegment {
            ident: "Option".to_string(),
            arguments: PathArguments::Parenthesized,
        }],
    };
    assert!(option_inner_type(&parenthesized).is_none());
}

#[test]
fn location_marker_beats_name_and_wrapper() {
    let fields = Fields::Named(vec![
        named("location", vec![], location_ty()),
        named("inner", vec![], located()),
        named("site", vec![marker("location")], location_ty()),
    ]);
    assert_eq!(find_location(&read(&fields)).ok(), Some(2));
}

#[test]
fn location_name_beats_wrapper() {
    let fields = Fields::Named(vec![
        named("inner", vec![], located()),
        named("location", vec![], location_ty()),
    ]);
    assert_eq!(find_location(&read(&fields)).ok(), Some(1));
}

#[test]
fn location_falls_back_to_the_wrapper() {
    let fields = Fields::Unnamed(vec![
        unnamed(vec![], io_error()),
        unnamed(vec![], located()),
    ]);
    assert_eq!(find_location(&read(&fields)).ok(), Some(1));
}

#[test]
fn two_location_markers_are_refused() {
    let fields = Fields::Named(vec![
        named("first", vec![marker("location")], location_ty()),
        named("x", vec![], io_error()),
        named("second", vec![marker("location")], location_ty()),
        named("third", vec![marker("location")], location_ty()),
    ]);
    let d = find_location(&read(&fields)).err().expect("duplicate");
    assert_eq!(d.kind, ErrorKind::DuplicateLocationMarker);
    assert_eq!(d.field, Some(2));
    assert_eq!(d.message(), "duplicate `#[location]` attribute.");
    assert!(resolve(&read(&fields)).is_err());
}

#[test]
fn missing_location_is_refused() {
    let fields = Fields::Named(vec![named("source", vec![stack_error("std")], io_error())]);
    let d = find_location(&read(&fields)).err().expect("no location");
    assert_eq!(d.kind, ErrorKind::MissingLocation);
    assert_eq!(d.field, None);
    assert_eq!(d.message(), "need `#[location]` attribute or field named `location`");

    let tuple = Fields::Unnamed(vec![
        unnamed(vec![], io_error()),
        unnamed(vec![], location_ty()),
    ]);
    assert_eq!(
        find_location(&read(&tuple)).err().map(|d| d.kind),
        Some(ErrorKind::MissingLocation)
    );
}

#[test]
fn two_wrappers_are_refused_where_the_wrapper_decides() {
    let fields = Fields::Unnamed(vec![
        unnamed(vec![], located()),
        unnamed(vec![], io_error()),
        unnamed(vec![], located()),
    ]);
    let read = read(&fields);
    let d = find_location(&read).err().expect("duplicate wrapper");
    assert_eq!(d.kind, ErrorKind::DuplicateWrapperField);
    assert_eq!(d.field, Some(2));
    assert_eq!(d.message(), "duplicate `LocatedError` field");
    assert_eq!(find_source(&read).err().map(|d| d.kind), Some(ErrorKind::DuplicateWrapperField));
    assert_eq!(find_located_error(&read).err().map(|d| d.field), Some(Some(2)));
}

#[test]
fn two_wrappers_do_not_matter_where_a_marker_decides() {
    let fields = Fields::Named(vec![
        named("a", vec![marker("source")], located()),
        named("b", vec![marker("location")], located()),
    ]);
    let read = read(&fields);
    assert_eq!(find_location(&read).ok(), Some(1));
    assert_eq!(find_source(&read).ok(), Some(Some(0)));
    assert!(find_located_error(&read).is_err());
}

#[test]
fn cause_marker_beats_the_name_source() {
    let fields = Fields::Named(vec![
        named("source", vec![], io_error()),
        named("cause", vec![marker("source")], io_error()),
        named("location", vec![], location_ty()),
    ]);
    assert_eq!(find_source(&read(&fields)).ok(), Some(Some(1)));

    let fields = Fields::Named(vec![
        named("source", vec![], io_error()),
        named("cause", vec![stack_error("std")], io_error()),
        named("location", vec![], location_ty()),
    ]);
    let read = read(&fields);
    assert_eq!(find_source(&read).ok(), Some(Some(1)));
    assert_eq!(read[1].stack_error_kind(), StackErrorKind::Std);
    assert_eq!(read[0].stack_error_kind(), StackErrorKind::Stacked);
}

#[test]
fn cause_name_beats_wrapper() {
    let fields = Fields::Named(vec![
        named("inner", vec![], located()),
        named("source", vec![], io_error()),
    ]);
    assert_eq!(find_source(&read(&fields)).ok(), Some(Some(1)));
}

#[test]
fn cause_is_absent_without_any_clue() {
    let fields = Fields::Named(vec![
        named("message", vec![], path(&["String"])),
        named("location", vec![], location_ty()),
    ]);
    let read = read(&fields);
    assert_eq!(find_source(&read).ok(), Some(None));
    let roles = resolve(&read).expect("resolves");
    assert_eq!(roles.location, 1);
    assert!(!roles.delegated);
    assert!(roles.cause.is_none());
}

#[test]
fn two_cause_markers_are_refused() {
    let fields = Fields::Named(vec![
        named("first", vec![marker("source")], io_error()),
        named("second", vec![marker("source")], io_error()),
        named("location", vec![marker("location")], location_ty()),
    ]);
    let read = read(&fields);
    let d = find_source(&read).err().expect("duplicate");
    assert_eq!(d.kind, ErrorKind::DuplicateCauseMarker);
    assert_eq!(d.field, Some(1));
    assert_eq!(d.message(), "duplicate `#[source]` or `#[stack_error]` attribute");
    assert_eq!(resolve(&read).err().map(|d| kind_of(&d)), Some(ErrorKind::DuplicateCauseMarker));

    let mixed = Fields::Named(vec![
        named("first", vec![stack_error("std")], io_error()),
        named("second", vec![marker("source")], io_error()),
        named("location", vec![marker("location")], location_ty()),
    ]);
    assert_eq!(
        find_source(&read_fields(&mixed)).err().map(|d| d.kind),
        Some(ErrorKind::DuplicateCauseMarker)
    );
}

fn read_fields(fields: &Fields) -> Vec<Field<'_>> {
    read(fields)
}

#[test]
fn one_field_may_carry_both_cause_markers() {
    let fields = Fields::Named(vec![
        named("cause", vec![marker("source"), stack_error("std")], io_error()),
        named("location", vec![], location_ty()),
    ]);
    let read = read(&fields);
    let roles = resolve(&read).expect("resolves");
    let cause = roles.cause.expect("has a cause");
    assert_eq!(cause.field, 0);
    assert_eq!(cause.kind, StackErrorKind::Std);
    assert!(!cause.optional);
}

#[test]
fn wrapper_field_serves_as_location_and_cause() {
    let implicit = Fields::Unnamed(vec![unnamed(vec![], located())]);
    let roles = resolve(&read(&implicit)).expect("resolves");
    assert_eq!(roles.location, 0);
    assert!(roles.delegated);
    let cause = roles.cause.expect("the wrapper is the cause");
    assert_eq!(cause.field, 0);
    assert_eq!(cause.kind, StackErrorKind::Stacked);
    assert!(!cause.optional);

    let explicit = Fields::Named(vec![named(
        "inner",
        vec![marker("location"), marker("source")],
        located(),
    )]);
    let roles = resolve(&read(&explicit)).expect("resolves");
    assert_eq!(roles.location, 0);
    assert!(roles.delegated);
    assert_eq!(roles.cause.map(|c| c.field), Some(0));

    let by_source = Fields::Named(vec![named("inner", vec![marker("source")], located())]);
    let roles = resolve(&read(&by_source)).expect("resolves");
    assert_eq!(roles.location, 0);
    assert!(roles.delegated);
    assert_eq!(roles.cause.map(|c| c.field), Some(0));
}

#[test]
fn optional_cause_is_noticed() {
    let fields = Fields::Named(vec![
        named("source", vec![], generic("Option", vec![io_error()])),
        named("location", vec![], location_ty()),
    ]);
    let roles = resolve(&read(&fields)).expect("resolves");
    let cause = roles.cause.expect("has a cause");
    assert!(cause.optional);
    assert_eq!(cause.kind, StackErrorKind::Stacked);
}

#[test]
fn location_is_resolved_before_the_cause() {
    let fields = Fields::Named(vec![
        named("a", vec![marker("source")], io_error()),
        named("b", vec![marker("source")], io_error()),
    ]);
    assert_eq!(
        resolve(&read(&fields)).err().map(|d| d.kind),
        Some(ErrorKind::MissingLocation)
    );
}

#[test]
fn scan_finds_the_first_match_from_a_position() {
    let fields = Fields::Named(vec![
        named("a", vec![marker("location")], location_ty()),
        named("location", vec![], location_ty()),
        named("source", vec![marker("location"), marker("source")], located()),
    ]);
    let read = read(&fields);
    assert_eq!(scan(&read, Mark::LocationAttr, 0), Some(0));
    assert_eq!(scan(&read, Mark::LocationAttr, 1), Some(2));
    assert_eq!(scan(&read, Mark::LocationAttr, 3), None);
    assert_eq!(scan(&read, Mark::NamedLocation, 0), Some(1));
    assert_eq!(scan(&read, Mark::NamedSource, 0), Some(2));
    assert_eq!(scan(&read, Mark::CauseAttr, 0), Some(2));
    assert_eq!(scan(&read, Mark::Wrapper, 0), Some(2));
    assert!(read[2].has(Mark::Wrapper) && read[2].is_located_error());
    assert!(!read[0].has(Mark::CauseAttr));
}

#[test]
fn crawl_finds_bare_parameters() {
    let list = vec!["T".to_string(), "U".to_string()];
    let check = |ty: &Type| {
        let mut found = false;
        crawl(ty, &list, &mut found);
        found
    };
    assert!(check(&path(&["T"])));
    assert!(check(&path(&["U"])));
    assert!(check(&path(&["T", "Error"])));
    assert!(check(&generic("Box", vec![path(&["T"])])));
    assert!(check(&generic("Option", vec![generic("Box", vec![path(&["U"])])])));
    assert!(check(&generic("Result", vec![io_error(), path(&["T"])])));
    assert!(!check(&path(&["V"])));
    assert!(!check(&path(&["std", "T"])));
    assert!(!check(&generic("T", vec![io_error()])));
    assert!(!check(&io_error()));
    assert!(!check(&Type::Reference(Box::new(path(&["T"])))));
    assert!(!check(&Type::Other));
    let qualified = Type::Path {
        qself: Some(Box::new(path(&["T"]))),
        segments: vec![plain("Trait"), plain("Error")],
    };
    assert!(check(&qualified));
    let later_segment = Type::Path {
        qself: None,
        segments: vec![
            plain("outer"),
            PathSegment {
                ident: "Wrap".to_string(),
                arguments: PathArguments::AngleBracketed(vec![
                    GenericArgument::Other,
                    GenericArgument::Type(path(&["U"])),
                ]),
            },
        ],
    };
    assert!(check(&later_segment));
}

#[test]
fn crawl_keeps_what_was_found() {
    let list = vec!["T".to_string()];
    let mut found = true;
    crawl(&io_error(), &list, &mut found);
    assert!(found);
    assert!(contains(&list, &"T".to_string()));
    assert!(!contains(&list, &"t".to_string()));
}

#[test]
fn expand_struct_decides_both_methods() {
    let input = struct_input(
        "GenericWrapper",
        params(&["T"]),
        Fields::Named(vec![
            named("source", vec![], path(&["T"])),
            named("location", vec![], location_ty()),
        ]),
    );
    let Data::Struct(fields) = &input.data else { unreachable!() };
    let parsed = Struct::from_syn(&input, fields).expect("can be read");
    assert_eq!(parsed.ident, "GenericWrapper");
    assert_eq!(parsed.location_fn().ok().map(|l| (l.field, l.form)), Some((1, LocationForm::Direct)));
    assert_eq!(
        parsed.next_fn().ok().map(|n| (n.field, n.form)),
        Some((Some(0), NextForm::SomeStacked))
    );
    let expansion = expand_struct(parsed).expect("resolves");
    assert_eq!(expansion.ident, "GenericWrapper");
    let Methods::Struct { location, next } = expansion.methods else {
        panic!("a struct has struct methods")
    };
    assert_eq!(location.field, 1);
    assert_eq!(location.form, LocationForm::Direct);
    assert_eq!(next.field, Some(0));
    assert_eq!(next.form, NextForm::SomeStacked);
    assert_eq!(shown(&expansion.where_clause), vec!["T: Error", "T: StackError"]);
}

#[test]
fn next_fn_has_five_forms() {
    let form_of = |attrs: Vec<Attribute>, ty: Type| {
        let input = struct_input(
            "S",
            no_generics(),
            Fields::Named(vec![
                named("cause", attrs, ty),
                named("location", vec![], location_ty()),
            ]),
        );
        let Data::Struct(fields) = &input.data else { unreachable!() };
        let parsed = Struct::from_syn(&input, fields).expect("can be read");
        parsed.next_fn().expect("resolves").form
    };
    let option = || generic("Option", vec![io_error()]);
    assert_eq!(form_of(vec![], io_error()), NextForm::End);
    assert_eq!(form_of(vec![marker("source")], io_error()), NextForm::SomeStacked);
    assert_eq!(form_of(vec![stack_error("stacked")], io_error()), NextForm::SomeStacked);
    assert_eq!(form_of(vec![stack_error("std")], io_error()), NextForm::SomeStd);
    assert_eq!(form_of(vec![marker("source")], option()), NextForm::MapStacked);
    assert_eq!(form_of(vec![stack_error("std")], option()), NextForm::MapStd);
}

#[test]
fn delegated_location_for_a_wrapper_field() {
    let input = struct_input(
        "B",
        no_generics(),
        Fields::Unnamed(vec![
            unnamed(vec![marker("location"), marker("source")], located()),
            unnamed(vec![], Type::Reference(Box::new(path(&["str"])))),
        ]),
    );
    let expansion = derive_from(&input).expect("resolves");
    let Methods::Struct { location, next } = expansion.methods else { panic!("struct") };
    assert_eq!((location.field, location.form), (0, LocationForm::Delegated));
    assert_eq!((next.field, next.form), (Some(0), NextForm::SomeStacked));
}

#[test]
fn expand_struct_reports_the_first_violation() {
    let input = struct_input(
        "S",
        no_generics(),
        Fields::Named(vec![
            named("a", vec![marker("source")], io_error()),
            named("b", vec![marker("source")], io_error()),
            named("location", vec![], location_ty()),
        ]),
    );
    let Data::Struct(fields) = &input.data else { unreachable!() };
    let parsed = Struct::from_syn(&input, fields).expect("can be read");
    let d = expand_struct(parsed).err().expect("duplicate cause");
    assert_eq!(d.kind, ErrorKind::DuplicateCauseMarker);
    assert_eq!(d.field, Some(1));
    assert_eq!(d.variant, None);
}

fn enum_input(variants: Vec<syntax::Variant>) -> DeriveInput {
    DeriveInput { ident: "EnumError".to_string(), generics: no_generics(), data: Data::Enum(variants) }
}

#[test]
fn enum_with_named_and_positional_variants_resolves() {
    let input = enum_input(vec![
        syntax::Variant {
            ident: "StructVariant".to_string(),
            fields: Fields::Named(vec![
                named("inner", vec![marker("source")], path(&["TerminalError"])),
                named("error_location", vec![marker("location")], location_ty()),
            ]),
        },
        syntax::Variant {
            ident: "TupleVariant".to_string(),
            fields: Fields::Unnamed(vec![
                unnamed(vec![marker("source")], path(&["TerminalError"])),
                unnamed(vec![marker("location")], location_ty()),
            ]),
        },
        syntax::Variant {
            ident: "NoSource".to_string(),
            fields: Fields::Named(vec![named("location", vec![], location_ty())]),
        },
        syntax::Variant {
            ident: "Bare".to_string(),
            fields: Fields::Unnamed(vec![
                unnamed(vec![], path(&["u8"])),
                unnamed(vec![marker("location")], location_ty()),
                unnamed(vec![], path(&["u8"])),
            ]),
        },
    ]);
    let expansion = derive_from(&input).expect("every variant resolves");
    assert_eq!(expansion.ident, "EnumError");
    assert!(expansion.where_clause.predicates.is_empty());
    let Methods::Enum { location_arms, next_arms } = expansion.methods else {
        panic!("an enum has arms")
    };
    assert_eq!(location_arms.len(), 4);
    assert_eq!(next_arms.len(), 4);

    assert!(matches!(location_arms[0].pattern, Pattern::Struct { field: 1 }));
    assert_eq!(location_arms[0].form, LocationForm::Direct);
    assert!(matches!(next_arms[0].pattern, Pattern::Struct { field: 0 }));
    assert_eq!(next_arms[0].form, NextForm::SomeStacked);

    let Pattern::Tuple { slots } = &location_arms[1].pattern else { panic!("tuple pattern") };
    assert_eq!(slots, &vec![Slot::Wildcard, Slot::Binding]);
    let Pattern::Tuple { slots } = &next_arms[1].pattern else { panic!("tuple pattern") };
    assert_eq!(slots, &vec![Slot::Binding, Slot::Wildcard]);
    assert_eq!(next_arms[1].form, NextForm::SomeStacked);

    assert!(matches!(location_arms[2].pattern, Pattern::Struct { field: 0 }));
    assert!(matches!(next_arms[2].pattern, Pattern::Rest));
    assert_eq!(next_arms[2].form, NextForm::End);

    let Pattern::Tuple { slots } = &location_arms[3].pattern else { panic!("tuple pattern") };
    assert_eq!(slots, &vec![Slot::Wildcard, Slot::Binding, Slot::Wildcard]);
    let Pattern::Tuple { slots } = &next_arms[3].pattern else { panic!("tuple pattern") };
    assert_eq!(slots, &vec![Slot::Wildcard, Slot::Wildcard, Slot::Wildcard]);
    assert_eq!(next_arms[3].form, NextForm::End);
}

#[test]
fn enum_of_wrappers_resolves_every_variant() {
    let input = enum_input(vec![
        syntax::Variant {
            ident: "TupleTransparent".to_string(),
            fields: Fields::Unnamed(vec![unnamed(vec![], located())]),
        },
        syntax::Variant {
            ident: "StructTransparent".to_string(),
            fields: Fields::Named(vec![named("source", vec![], located())]),
        },
    ]);
    let Methods::Enum { location_arms, next_arms } = derive_from(&input).expect("resolves").methods
    else {
        panic!("an enum has arms")
    };
    assert_eq!(location_arms[0].form, LocationForm::Delegated);
    assert_eq!(next_arms[0].form, NextForm::SomeStacked);
    assert_eq!(location_arms[1].form, LocationForm::Delegated);
    assert!(matches!(next_arms[1].pattern, Pattern::Struct { field: 0 }));
}

#[test]
fn enum_failures_are_reported_together() {
    let input = enum_input(vec![
        syntax::Variant { ident: "First".to_string(), fields: Fields::Unit },
        syntax::Variant {
            ident: "Fine".to_string(),
            fields: Fields::Named(vec![named("location", vec![], location_ty())]),
        },
        syntax::Variant {
            ident: "NoLocation".to_string(),
            fields: Fields::Unnamed(vec![unnamed(vec![], io_error())]),
        },
        syntax::Variant {
            ident: "BadArgument".to_string(),
            fields: Fields::Named(vec![
                named("location", vec![], location_ty()),
                named("source", vec![stack_error("end")], io_error()),
            ]),
        },
        syntax::Variant {
            ident: "TwoCauses".to_string(),
            fields: Fields::Named(vec![
                named("location", vec![], location_ty()),
                named("a", vec![marker("source")], io_error()),
                named("b", vec![marker("source")], io_error()),
            ]),
        },
    ]);
    let list = derive_from(&input).err().expect("four variants fail");
    let shown: Vec<(ErrorKind, Option<usize>, Option<usize>)> =
        list.iter().map(|d| (d.kind, d.variant, d.field)).collect();
    assert_eq!(
        shown,
        vec![
            (ErrorKind::UnitShapeUnsupported, Some(0), None),
            (ErrorKind::MissingLocation, Some(2), None),
            (ErrorKind::InvalidAnnotationArgument, Some(3), Some(1)),
            (ErrorKind::DuplicateCauseMarker, Some(4), Some(2)),
        ]
    );

    let Data::Enum(variants) = &input.data else { unreachable!() };
    let list = Enum::from_syn(&input, variants).err().expect("two variants cannot be read");
    let shown: Vec<(ErrorKind, Option<usize>)> = list.iter().map(|d| (d.kind, d.variant)).collect();
    assert_eq!(
        shown,
        vec![
            (ErrorKind::UnitShapeUnsupported, Some(0)),
            (ErrorKind::InvalidAnnotationArgument, Some(3)),
        ]
    );
    assert_eq!(Input::from_input(&input).err().map(|l| l.len()), Some(2));
}

#[test]
fn expand_enum_reports_every_unresolved_variant() {
    let input = enum_input(vec![
        syntax::Variant {
            ident: "NoLocation".to_string(),
            fields: Fields::Unnamed(vec![unnamed(vec![], io_error())]),
        },
        syntax::Variant {
            ident: "Fine".to_string(),
            fields: Fields::Named(vec![named("location", vec![], location_ty())]),
        },
        syntax::Variant {
            ident: "TwoLocations".to_string(),
            fields: Fields::Named(vec![
                named("a", vec![marker("location")], location_ty()),
                named("b", vec![marker("location")], location_ty()),
            ]),
        },
    ]);
    let Data::Enum(variants) = &input.data else { unreachable!() };
    let parsed = Enum::from_syn(&input, variants).expect("can be read");
    assert_eq!(parsed.variants.len(), 3);
    assert_eq!(parsed.variants[0].kind(), ContainerKind::Tuple);
    assert_eq!(parsed.variants[1].kind(), ContainerKind::Struct);
    let list = expand_enum(parsed).err().expect("two variants fail");
    let shown: Vec<(ErrorKind, Option<usize>, Option<usize>)> =
        list.iter().map(|d| (d.kind, d.variant, d.field)).collect();
    assert_eq!(
        shown,
        vec![
            (ErrorKind::MissingLocation, Some(0), None),
            (ErrorKind::DuplicateLocationMarker, Some(2), Some(1)),
        ]
    );
}

#[test]
fn expand_dispatches_on_the_input() {
    let input = struct_input(
        "S",
        no_generics(),
        Fields::Named(vec![named("location", vec![], location_ty())]),
    );
    let parsed = Input::from_input(&input).ok().expect("can be read");
    assert!(matches!(parsed, Input::Struct(_)));
    let expansion = expand(parsed).ok().expect("resolves");
    assert!(matches!(expansion.methods, Methods::Struct { .. }));

    let bad = struct_input(
        "S",
        no_generics(),
        Fields::Named(vec![named("message", vec![], path(&["String"]))]),
    );
    let parsed = Input::from_input(&bad).ok().expect("can be read");
    let list = expand(parsed).err().expect("no location");
    assert_eq!(list.len(), 1);
    assert_eq!(list[0].kind, ErrorKind::MissingLocation);

    let empty = enum_input(vec![]);
    let parsed = Input::from_input(&empty).ok().expect("can be read");
    let expansion = expand(parsed).ok().expect("nothing to resolve");
    let Methods::Enum { location_arms, next_arms } = expansion.methods else { panic!("enum") };
    assert!(location_arms.is_empty() && next_arms.is_empty());
}

#[test]
fn union_is_refused() {
    let input = DeriveInput { ident: "U".to_string(), generics: no_generics(), data: Data::Union };
    let list = derive_from(&input).err().expect("union");
    assert_eq!(list.len(), 1);
    assert_eq!(list[0].kind, ErrorKind::UnionUnsupported);
    assert_eq!(list[0].message(), "union is not supported");
    assert_eq!(
        Input::from_input(&input).err().map(|l| l[0].kind),
        Some(ErrorKind::UnionUnsupported)
    );
}

#[test]
fn derive_reports_a_unit_struct() {
    let input = struct_input("S", no_generics(), Fields::Unit);
    let list = derive_from(&input).err().expect("unit struct");
    assert_eq!(list.len(), 1);
    assert_eq!(list[0].kind, ErrorKind::UnitShapeUnsupported);
    assert_eq!(list[0].variant, None);
}

#[test]
fn make_pattern_finds_the_field_by_its_member() {
    let declared = syntax::Variant {
        ident: "V".to_string(),
        fields: Fields::Named(vec![
            named("a", vec![], io_error()),
            named("location", vec![], location_ty()),
        ]),
    };
    let other = Fields::Named(vec![named("missing", vec![], io_error())]);
    let stranger = read(&other);
    let variant = Variant::from_syn(&declared).expect("can be read");
    assert!(matches!(variant.make_pattern(&variant.fields[1]), Ok(Pattern::Struct { field: 1 })));
    let d = variant.make_pattern(&stranger[0]).err().expect("not a field of the variant");
    assert_eq!(d.kind, ErrorKind::StructFieldNotFound);
    assert_eq!(d.message(), "same struct field is not found by unknown reason");
    let tuple = syntax::Variant {
        ident: "T".to_string(),
        fields: Fields::Unnamed(vec![unnamed(vec![marker("location")], location_ty())]),
    };
    let tuple = Variant::from_syn(&tuple).expect("can be read");
    let d = tuple.make_pattern(&stranger[0]).err().expect("not a field of the variant");
    assert_eq!(d.kind, ErrorKind::TupleFieldNotFound);
    assert_eq!(d.message(), "same tuple field is not found by unknown reason");
    let (location, next) = variant.arms().expect("resolves");
    assert!(matches!(location.pattern, Pattern::Struct { field: 1 }));
    assert!(matches!(next.pattern, Pattern::Rest));
    assert!(variant.location_body().is_ok());
    assert!(variant.next_body().is_ok());
}

#[test]
fn diagnostics_can_be_placed_and_copied() {
    let d = Diagnostic::new(ErrorKind::MissingLocation);
    assert_eq!((d.variant, d.field, d.attribute), (None, None, None));
    let d = Diagnostic::at_attribute(ErrorKind::RepeatedSourceAttribute, 3).in_field(2).in_variant(1);
    assert_eq!((d.variant, d.field, d.attribute), (Some(1), Some(2), Some(3)));
    let d = Diagnostic::at_field(ErrorKind::InvalidAnnotationArgument, 4).quoting("x".to_string());
    let copy = d.duplicate();
    assert_eq!(copy.kind, ErrorKind::InvalidAnnotationArgument);
    assert_eq!(copy.field, Some(4));
    assert_eq!(copy.argument.as_deref(), Some("x"));
    assert_eq!(copy.message(), "invalid `#[stack_error(x)]` attribute. expected `std` or `stacked`");
    assert_eq!(
        Diagnostic::new(ErrorKind::TupleFieldNotFound).message(),
        "same tuple field is not found by unknown reason"
    );
}


#[test]
fn where_clause_bounds_the_parameter_of_a_stacked_cause() {
    let generics = params(&["T"]);
    let bare = Fields::Named(vec![
        named("source", vec![], path(&["T"])),
        named("location", vec![], location_ty()),
    ]);
    let tracker = collected(&generics, &[bare]);
    assert_eq!(shown(&tracker.make_where_clause(None)), vec!["T: Error", "T: StackError"]);
    assert_eq!(tracker.requirement(&"T".to_string()), Capability { base: true, chain: true });
    assert_eq!(tracker.requirement(&"U".to_string()), Capability { base: false, chain: false });
}

#[test]
fn where_clause_bounds_the_parameter_inside_a_concrete_type() {
    let generics = params(&["T"]);
    let boxed = Fields::Named(vec![
        named("source", vec![], generic("Box", vec![path(&["T"])])),
        named("location", vec![], location_ty()),
    ]);
    let tracker = collected(&generics, &[boxed]);
    assert_eq!(shown(&tracker.make_where_clause(None)), vec!["T: Error", "T: StackError"]);
}

#[test]
fn where_clause_asks_only_for_the_base_error_of_a_terminal_cause() {
    let generics = params(&["T", "U"]);
    let fields = Fields::Named(vec![
        named("cause", vec![stack_error("std")], generic("Box", vec![path(&["T"])])),
        named("other", vec![], path(&["U"])),
        named("location", vec![], location_ty()),
    ]);
    let tracker = collected(&generics, &[fields]);
    assert_eq!(shown(&tracker.make_where_clause(None)), vec!["T: Error"]);
    assert_eq!(tracker.requirement(&"T".to_string()), Capability { base: true, chain: false });
    assert_eq!(tracker.requirement(&"U".to_string()), Capability { base: false, chain: false });
}

#[test]
fn where_clause_ignores_causes_without_parameters() {
    let generics = params(&["T"]);
    let concrete = Fields::Named(vec![
        named("source", vec![], io_error()),
        named("payload", vec![], path(&["T"])),
        named("location", vec![], location_ty()),
    ]);
    let unresolved = Fields::Named(vec![
        named("a", vec![marker("source")], path(&["T"])),
        named("b", vec![marker("source")], path(&["T"])),
    ]);
    let tracker = collected(&generics, &[concrete, unresolved]);
    assert!(tracker.make_where_clause(None).predicates.is_empty());
    assert_eq!(tracker.requirement(&"T".to_string()), Capability { base: false, chain: false });
}

#[test]
fn where_clause_keeps_written_predicates_first_and_follows_the_parameters() {
    let generics = Generics {
        type_params: vec!["T".to_string(), "U".to_string(), "V".to_string(), "T".to_string()],
        where_clause: Some(WhereClause {
            predicates: vec![WherePredicate::Written("T : Clone".to_string())],
        }),
    };
    let first = Fields::Named(vec![
        named("source", vec![], path(&["U"])),
        named("location", vec![], location_ty()),
    ]);
    let second = Fields::Named(vec![
        named("source", vec![stack_error("std")], path(&["T"])),
        named("location", vec![], location_ty()),
    ]);
    let third = Fields::Named(vec![
        named("source", vec![stack_error("std")], generic("Pair", vec![path(&["U"]), path(&["T"])])),
        named("location", vec![], location_ty()),
    ]);
    let tracker = collected(&generics, &[first, second, third]);
    let clause = tracker.make_where_clause(generics.where_clause.as_ref());
    assert_eq!(shown(&clause), vec!["T : Clone", "T: Error", "U: Error", "U: StackError"]);
    assert_eq!(tracker.requirement(&"V".to_string()), Capability { base: false, chain: false });
}

#[test]
fn expansion_carries_the_bounds_on_the_parameters() {
    let input = struct_input(
        "Wrapper",
        params(&["T", "U"]),
        Fields::Named(vec![
            named("source", vec![], generic("Option", vec![path(&["T"])])),
            named("extra", vec![], path(&["U"])),
            named("location", vec![], location_ty()),
        ]),
    );
    let expansion = derive_from(&input).expect("resolves");
    assert_eq!(shown(&expansion.where_clause), vec!["T: Error", "T: StackError"]);

    let variants = DeriveInput {
        ident: "E".to_string(),
        generics: params(&["T", "U"]),
        data: Data::Enum(vec![
            syntax::Variant {
                ident: "A".to_string(),
                fields: Fields::Named(vec![
                    named("source", vec![stack_error("std")], path(&["U"])),
                    named("location", vec![], location_ty()),
                ]),
            },
            syntax::Variant {
                ident: "B".to_string(),
                fields: Fields::Unnamed(vec![
                    unnamed(vec![marker("source")], generic("Box", vec![path(&["T"])])),
                    unnamed(vec![marker("location")], location_ty()),
                ]),
            },
        ]),
    };
    let expansion = derive_from(&variants).expect("resolves");
    assert_eq!(shown(&expansion.where_clause), vec!["T: Error", "T: StackError", "U: Error"]);
}

#[test]
fn read_arguments_reads_only_stack_error_arguments() {
    let mut input = struct_input(
        "S",
        no_generics(),
        Fields::Named(vec![
            named(
                "cause",
                vec![
                    Attribute { name: Some("doc".to_string()), meta: Meta::List(tokens(&["hidden"])) },
                    stack_error_tokens(&["  std "]),
                ],
                io_error(),
            ),
            named("other", vec![stack_error_tokens(&["1", "x"])], io_error()),
            named("more", vec![stack_error_tokens(&["foo", ",", "bar"])], io_error()),
            named("none", vec![stack_error_tokens(&[])], io_error()),
            named("location", vec![marker("location")], location_ty()),
        ]),
    );
    read_arguments(&mut input);
    let Data::Struct(Fields::Named(fields)) = &input.data else { panic!("still a struct") };
    assert_eq!(fields.len(), 5);
    assert!(matches!(&fields[0].attrs[0].meta, Meta::List(list) if list == &tokens(&["hidden"])));
    assert!(matches!(
        &fields[0].attrs[1].meta,
        Meta::Ident { ident, alone: true } if ident == "std"
    ));
    assert!(matches!(&fields[1].attrs[0].meta, Meta::List(list) if list == &tokens(&["1", "x"])));
    assert!(matches!(
        &fields[2].attrs[0].meta,
        Meta::Ident { ident, alone: false } if ident == "foo"
    ));
    assert!(matches!(&fields[3].attrs[0].meta, Meta::List(list) if list.is_empty()));
    assert!(matches!(&fields[4].attrs[0].meta, Meta::Path));
    assert_eq!(fields[0].ident.as_deref(), Some("cause"));
    assert_eq!(input.ident, "S");
}

#[test]
fn derive_stack_error_reads_the_arguments_first() {
    let mut input = struct_input(
        "Leaf",
        no_generics(),
        Fields::Named(vec![
            named("source", vec![stack_error_tokens(&["std"])], io_error()),
            named("location", vec![], location_ty()),
        ]),
    );
    let expansion = derive_stack_error(&mut input).expect("resolves");
    let Methods::Struct { next, .. } = expansion.methods else { panic!("struct") };
    assert_eq!(next.form, NextForm::SomeStd);
    assert!(derive_from(&input).is_ok());

    let mut unread = struct_input(
        "Leaf",
        no_generics(),
        Fields::Named(vec![
            named("source", vec![stack_error_tokens(&["std"])], io_error()),
            named("location", vec![], location_ty()),
        ]),
    );
    let list = derive_from(&unread).err().expect("the argument was not read");
    assert_eq!(list[0].kind, ErrorKind::InvalidAnnotationArgument);
    assert_eq!(list[0].argument, None);
    assert!(derive_stack_error(&mut unread).is_ok());
}

#[test]
fn derive_stack_error_reports_unknown_and_unreadable_arguments() {
    let mut input = enum_input(vec![
        syntax::Variant {
            ident: "Unknown".to_string(),
            fields: Fields::Named(vec![
                named("source", vec![stack_error_tokens(&["end", "now"])], io_error()),
                named("location", vec![], location_ty()),
            ]),
        },
        syntax::Variant {
            ident: "Unreadable".to_string(),
            fields: Fields::Unnamed(vec![
                unnamed(vec![marker("location")], location_ty()),
                unnamed(vec![stack_error_tokens(&["std", "stacked"])], io_error()),
            ]),
        },
        syntax::Variant {
            ident: "Fine".to_string(),
            fields: Fields::Unnamed(vec![
                unnamed(vec![marker("location")], location_ty()),
                unnamed(vec![stack_error_tokens(&["stacked"])], io_error()),
            ]),
        },
    ]);
    let list = derive_stack_error(&mut input).err().expect("two variants fail");
    let shown: Vec<(ErrorKind, Option<usize>, Option<usize>, Option<String>)> =
        list.iter().map(|d| (d.kind, d.variant, d.field, d.argument.clone())).collect();
    assert_eq!(
        shown,
        vec![
            (ErrorKind::InvalidAnnotationArgument, Some(0), Some(0), Some("end".to_string())),
            (ErrorKind::InvalidAnnotationArgument, Some(1), Some(1), None),
        ]
    );
}
