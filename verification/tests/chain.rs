use pseudo_backtrace::private::{AsDynStackError, AsDynStdError};
use pseudo_backtrace::{
    Chain, DynStackError, Iter, LocatedError, Location, StackError, StackErrorExt, StackedError,
    StdError,
};

fn here(line: u32) -> Location {
    Location::new("src/main.rs", line, 5)
}

fn nested_std() -> StdError {
    let a = StdError::new("Error A");
    let b = StdError::with_source("Error A", a);
    StdError::with_source("Error A", b)
}

#[test]
fn stack_writer_limit() {
    let a = StdError::new("Error A");
    let b = StdError::with_source("Error A", a);
    let c = StdError::with_source("Error A", b);
    let d = StackedError::new("Std", here(1)).std_on(c);
    let e = StackedError::new("Stacked", here(2)).stacked_on(d);
    let f = StackedError::new("Stacked", here(3)).stacked_on(e);
    let g = StackedError::new("Stacked", here(4)).stacked_on(f);

    assert_eq!(g.iter().count(), 7);

    let stack = g.to_chain().to_string();
    assert_eq!(stack.lines().count(), 5);

    let stack = g.to_chain_with_limit(usize::MAX).to_string();
    println!("to_chain_with_limit: {stack}");
    assert_eq!(stack.lines().count(), 7);
}

#[test]
fn three_stacked_layers_render_outermost_first() {
    let a = StackedError::new("StackError A", here(18));
    let b = StackedError::new("StackError B", here(19)).stacked_on(a);
    let c = StackedError::new("StackError C", here(20)).stacked_on(b);
    assert_eq!(
        c.to_chain().to_string(),
        "0: StackError C, at src/main.rs:20:5\n\
         1: StackError B, at src/main.rs:19:5\n\
         2: StackError A, at src/main.rs:18:5\n"
    );
}

#[test]
fn one_stacked_three_plain_default_limit_shows_two_lines() {
    let top = StackedError::new("top", here(7)).std_on(StdError::with_source(
        "first",
        StdError::with_source("second", StdError::new("third")),
    ));
    assert_eq!(top.to_chain().to_string(), "0: top, at src/main.rs:7:5\n1: first\n");
    assert_eq!(
        top.to_chain_with_limit(usize::MAX).to_string(),
        "0: top, at src/main.rs:7:5\n1: first\n2: second\n3: third\n"
    );
    assert_eq!(top.to_chain().to_string().lines().count(), 2);
    assert_eq!(top.to_chain_with_limit(usize::MAX).to_string().lines().count(), 4);
}

#[test]
fn limit_zero_hides_every_plain_link() {
    let top = StackedError::new("top", here(7))
        .stacked_on(StackedError::new("middle", here(8)).std_on(nested_std()));
    assert_eq!(
        top.to_chain_with_limit(0).to_string(),
        "0: top, at src/main.rs:7:5\n1: middle, at src/main.rs:8:5\n"
    );
}

#[test]
fn limit_two_shows_two_plain_links() {
    let top = StackedError::new("top", here(7)).std_on(nested_std());
    assert_eq!(
        top.to_chain_with_limit(2).to_string(),
        "0: top, at src/main.rs:7:5\n1: Error A\n2: Error A\n"
    );
}

#[test]
fn located_error_renders_one_line() {
    let located = LocatedError::new(StdError::new("leaf"), Location::new("src/lib.rs", 12, 34));
    assert_eq!(located.to_chain().to_string(), "0: leaf, at src/lib.rs:12:34\n");
    assert_eq!(located.iter().count(), 1);
    assert!(located.next().is_none());
    assert!(located.last_std().is_none());
}

#[test]
fn located_error_hands_over_to_plain_causes() {
    let inner = StdError::with_source("outer text", StdError::new("root cause"));
    let located = LocatedError::new(inner, Location::new("a.rs", 1, 2));
    assert_eq!(
        located.to_chain_with_limit(usize::MAX).to_string(),
        "0: outer text, at a.rs:1:2\n1: root cause\n"
    );
    let next = located.next();
    assert!(matches!(next, Some(Chain::Std(_))));
    assert_eq!(next.map(|link| link.text().to_string()), Some("root cause".to_string()));
    assert_eq!(located.location().to_string(), "a.rs:1:2");
}

#[test]
fn located_error_into_inner_returns_the_wrapped_value() {
    let located = LocatedError::new(StdError::new("leaf"), here(1));
    let inner = located.into_inner();
    assert_eq!(inner.text(), "leaf");
    assert!(inner.source().is_none());
    let number = LocatedError::new(17u32, here(1));
    assert_eq!(number.into_inner(), 17);
}

#[test]
fn located_error_is_a_plain_error_too() {
    let located = LocatedError::new(
        StdError::with_source("shown", StdError::new("cause")),
        here(3),
    );
    let plain = located.as_dyn_std_error();
    assert_eq!(plain.text(), "shown");
    assert_eq!(plain.source().map(|s| s.text().to_string()), Some("cause".to_string()));
    let twice = LocatedError::new(located, here(4));
    assert_eq!(twice.to_chain().to_string(), "0: shown, at src/main.rs:4:5\n1: cause\n");
}

#[test]
fn chain_next_follows_stacked_then_plain() {
    let top = StackedError::new("top", here(1))
        .stacked_on(StackedError::new("low", here(2)).std_on(StdError::new("plain")));
    let first = Chain::from(&top);
    assert!(first.is_stacked());
    assert_eq!(first.text(), "top");
    let second = first.next().expect("second link");
    assert!(matches!(second, Chain::Stacked(_)));
    assert_eq!(second.text(), "low");
    assert_eq!(second.location().map(|l| l.line()), Some(2));
    let third = second.next().expect("third link");
    assert!(matches!(third, Chain::Std(_)));
    assert_eq!(third.text(), "plain");
    assert!(third.location().is_none());
    assert!(third.next().is_none());
}

#[test]
fn chain_to_string_shows_location_only_for_stacked() {
    let top = StackedError::new("top", here(9)).std_on(StdError::new("plain"));
    let first = Chain::from(&top);
    assert_eq!(first.to_string(), "top, at src/main.rs:9:5");
    assert_eq!(first.next().expect("plain link").to_string(), "plain");
}

#[test]
fn iterating_twice_yields_the_same_links() {
    let top = StackedError::new("top", here(1))
        .stacked_on(StackedError::new("low", here(2)).std_on(nested_std()));
    let first: Vec<String> = top.iter().collect().iter().map(|l| l.to_string()).collect();
    let second: Vec<String> = top.iter().collect().iter().map(|l| l.to_string()).collect();
    assert_eq!(first, second);
    assert_eq!(
        first,
        vec![
            "top, at src/main.rs:1:5".to_string(),
            "low, at src/main.rs:2:5".to_string(),
            "Error A".to_string(),
            "Error A".to_string(),
            "Error A".to_string(),
        ]
    );
    assert_eq!(top.iter().count(), 5);
}

#[test]
fn iter_next_steps_and_ends() {
    let top = StackedError::new("top", here(1)).std_on(StdError::new("plain"));
    let mut iter = top.iter();
    assert_eq!(iter.next().map(|l| l.text().to_string()), Some("top".to_string()));
    assert_eq!(iter.next().map(|l| l.text().to_string()), Some("plain".to_string()));
    assert!(iter.next().is_none());
    assert!(iter.next().is_none());
    let empty = Iter { stack: None };
    assert_eq!(empty.count(), 0);
    assert!(empty.collect().is_empty());
}

#[test]
fn chain_into_iter_starts_at_the_link() {
    let top = StackedError::new("top", here(1)).std_on(nested_std());
    let second = Chain::from(&top).next().expect("plain link");
    assert_eq!(second.into_iter().count(), 3);
    assert_eq!(Iter::new(&top).count(), 4);
    assert!(matches!(top.as_dyn_stack_error(), DynStackError::Record(_)));
}

#[test]
fn last_is_the_deepest_link() {
    let top = StackedError::new("top", here(1)).stacked_on(
        StackedError::new("low", here(2))
            .std_on(StdError::with_source("plain a", StdError::new("plain b"))),
    );
    assert_eq!(top.last().text(), "plain b");
    let alone = StackedError::new("alone", here(3));
    assert_eq!(alone.last().text(), "alone");
    assert!(alone.last().is_stacked());
}

#[test]
fn last_stacked_is_the_deepest_stacked_link() {
    let top = StackedError::new("top", here(1)).stacked_on(
        StackedError::new("low", here(2))
            .std_on(StdError::with_source("plain a", StdError::new("plain b"))),
    );
    assert_eq!(top.last_stacked().text(), "low");
    assert_eq!(top.last_stacked().location().line(), 2);
    let alone = StackedError::new("alone", here(3)).std_on(StdError::new("plain"));
    assert_eq!(alone.last_stacked().text(), "alone");
    assert!(matches!(alone.last_stacked(), DynStackError::Record(_)));
}

#[test]
fn last_std_is_the_first_plain_link() {
    let top = StackedError::new("top", here(1)).stacked_on(
        StackedError::new("low", here(2))
            .std_on(StdError::with_source("plain a", StdError::new("plain b"))),
    );
    assert_eq!(top.last_std().map(|e| e.text().to_string()), Some("plain a".to_string()));
    let alone = StackedError::new("alone", here(3));
    assert!(alone.last_std().is_none());
}

#[test]
fn location_text_is_file_line_column() {
    assert_eq!(Location::new("src/main.rs", 20, 5).to_string(), "src/main.rs:20:5");
    assert_eq!(Location::new("x", 0, 0).to_string(), "x:0:0");
    assert_eq!(
        Location::new("", 4294967295, 1234567890).to_string(),
        ":4294967295:1234567890"
    );
    let location = Location::new("f.rs", 7, 9);
    assert_eq!(location.file(), "f.rs");
    assert_eq!(location.line(), 7);
    assert_eq!(location.column(), 9);
    assert_eq!(location.duplicate().to_string(), "f.rs:7:9");
}

#[test]
fn depth_numbers_are_decimal() {
    let mut error = StackedError::new("e", here(1));
    for _ in 0..11 {
        error = StackedError::new("e", here(1)).stacked_on(error);
    }
    let text = error.to_chain().to_string();
    let lines: Vec<&str> = text.lines().collect();
    assert_eq!(lines.len(), 12);
    assert_eq!(lines[9], "9: e, at src/main.rs:1:5");
    assert_eq!(lines[10], "10: e, at src/main.rs:1:5");
    assert_eq!(lines[11], "11: e, at src/main.rs:1:5");
}

#[test]
fn to_chain_is_limit_one() {
    let top = StackedError::new("top", here(1)).std_on(nested_std());
    let writer = top.to_chain();
    assert_eq!(writer.std_limit, 1);
    assert_eq!(writer.to_string(), top.to_chain_with_limit(1).to_string());
    assert_eq!(top.to_chain_with_limit(5).std_limit, 5);
}

#[test]
fn inner_is_the_plain_face_of_a_link() {
    let shown = StdError::with_source("shown", StdError::new("hidden cause"));
    let top = StackedError::with_error(shown, here(1)).std_on(StdError::new("next link"));
    let first = Chain::from(&top);
    assert_eq!(first.inner().text(), "shown");
    assert_eq!(first.source().map(|s| s.text().to_string()), Some("hidden cause".to_string()));
    assert_eq!(first.next().map(|l| l.text().to_string()), Some("next link".to_string()));
    assert_eq!(top.to_chain().to_string(), "0: shown, at src/main.rs:1:5\n1: next link\n");
    assert_eq!(top.as_dyn_std_error().text(), "shown");

    let second = first.next().expect("plain link");
    assert_eq!(second.inner().text(), "next link");
    assert!(second.source().is_none());

    let located = LocatedError::new(
        StdError::with_source("wrapped", StdError::new("cause")),
        here(2),
    );
    let link = Chain::from(&located);
    assert_eq!(link.inner().text(), "wrapped");
    assert_eq!(link.source().map(|s| s.text().to_string()), Some("cause".to_string()));
    assert_eq!(located.as_dyn_stack_error().inner().text(), "wrapped");
}
