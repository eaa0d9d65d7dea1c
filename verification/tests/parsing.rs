use stt::{EmptyLookup, ParseError, Template};

fn shape(spec: &str) -> String {
    format!("{:?}", Template::new(spec))
}

#[test]
fn empty_text_parses_to_no_fragment() {
    assert_eq!(shape(""), "Ok(Template { fragments: [] })");
}

#[test]
fn plain_text_parses_to_one_constant() {
    assert_eq!(
        shape("no placeholders here"),
        "Ok(Template { fragments: [Constant(\"no placeholders here\")] })"
    );
}

#[test]
fn plain_text_renders_unchanged() {
    let template = Template::new("plain, with spaces & signs!").unwrap();
    assert_eq!(
        template.render(&EmptyLookup::new()),
        "plain, with spaces & signs!"
    );
}

#[test]
fn placeholder_between_constants() {
    assert_eq!(
        shape("Hello $who$!"),
        "Ok(Template { fragments: [Constant(\"Hello \"), Variable(\"who\"), Constant(\"!\")] })"
    );
}

#[test]
fn adjacent_placeholders() {
    assert_eq!(
        shape("$a$$b$"),
        "Ok(Template { fragments: [Variable(\"a\"), Variable(\"b\")] })"
    );
}

#[test]
fn unterminated_placeholder_is_an_error() {
    assert_eq!(
        Template::new("$foo").unwrap_err(),
        ParseError::UNTERMINATED_VARIABLE
    );
}

#[test]
fn trailing_sigil_is_an_error() {
    assert_eq!(
        Template::new("foo$").unwrap_err(),
        ParseError::UNTERMINATED_VARIABLE
    );
}

#[test]
fn lone_sigil_is_an_error() {
    assert_eq!(
        Template::new("$").unwrap_err(),
        ParseError::UNTERMINATED_VARIABLE
    );
}

#[test]
fn odd_number_of_sigils_is_an_error() {
    assert!(Template::new("$$$").is_err());
    assert!(Template::new("a$b$c$d").is_err());
    assert!(Template::new("$a$ $b$ $").is_err());
}

#[test]
fn even_number_of_sigils_parses() {
    assert!(Template::new("$$").is_ok());
    assert!(Template::new("$$$$").is_ok());
    assert!(Template::new("a$b$c$d$").is_ok());
    assert!(Template::new("$$$a$").is_ok());
}

#[test]
fn doubled_sigil_is_one_literal_sigil() {
    assert_eq!(shape("$$"), "Ok(Template { fragments: [Constant(\"$\")] })");
}

#[test]
fn doubled_sigil_after_text_starts_a_new_constant() {
    assert_eq!(
        shape("a$$"),
        "Ok(Template { fragments: [Constant(\"a\"), Constant(\"$\")] })"
    );
}

#[test]
fn doubled_sigil_runs_on_into_following_text() {
    assert_eq!(shape("$$a"), "Ok(Template { fragments: [Constant(\"$a\")] })");
}

#[test]
fn four_sigils_are_two_literal_sigils() {
    assert_eq!(
        shape("$$$$"),
        "Ok(Template { fragments: [Constant(\"$\"), Constant(\"$\")] })"
    );
}

#[test]
fn escaped_sigil_then_placeholder() {
    assert_eq!(
        shape("$$$a$"),
        "Ok(Template { fragments: [Constant(\"$\"), Variable(\"a\")] })"
    );
}

#[test]
fn escaped_sigil_with_text_then_placeholder() {
    assert_eq!(
        shape("$$abc$x$"),
        "Ok(Template { fragments: [Constant(\"$abc\"), Variable(\"x\")] })"
    );
}

#[test]
fn placeholder_then_escaped_sigil() {
    assert_eq!(
        shape("$a$$$"),
        "Ok(Template { fragments: [Variable(\"a\"), Constant(\"$\")] })"
    );
}

#[test]
fn names_may_hold_spaces_and_other_characters() {
    assert_eq!(
        shape("$first name$: $\u{e9}t\u{e9}$"),
        "Ok(Template { fragments: [Variable(\"first name\"), Constant(\": \"), Variable(\"\u{e9}t\u{e9}\")] })"
    );
}

#[test]
fn parse_error_formats_as_its_name() {
    assert_eq!(
        format!("{:?}", ParseError::UNTERMINATED_VARIABLE),
        "UNTERMINATED_VARIABLE"
    );
}
