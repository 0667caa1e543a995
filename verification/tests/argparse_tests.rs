//! The placeholder parser and filler, exercised on concrete templates.

use centoria::argparse::ArgParser;
use centoria::errors::Error;

fn parsed(template: &str) -> ArgParser {
    let mut parser = ArgParser::new(template, None);
    parser.parse().unwrap();
    parser
}

fn filled(template: &str, variables: Vec<&str>) -> Result<String, Error> {
    let mut parser = ArgParser::new(template, None);
    parser.parse().unwrap();
    parser.fill(variables.iter().map(|s| s.to_string()).collect())
}

#[test]
fn parse() {
    // required index argument
    let parser = parsed("{0}");
    let arguments = parser.arguments().unwrap();

    assert_eq!(arguments.len(), 1);
    assert_eq!(arguments[0].capture_str, "{0}");
    assert_eq!(arguments[0].is_required, true);
    assert_eq!(arguments[0].range_start, 0);
    assert_eq!(arguments[0].range_end, 1);

    // optional index argument
    let parser = parsed("{0?}");
    let arguments = parser.arguments().unwrap();

    assert_eq!(arguments.len(), 1);
    assert_eq!(arguments[0].capture_str, "{0?}");
    assert_eq!(arguments[0].is_required, false);
    assert_eq!(arguments[0].range_start, 0);
    assert_eq!(arguments[0].range_end, 1);

    // required range argument (omitted last index)
    let parser = parsed("{0..}");
    let arguments = parser.arguments().unwrap();

    assert_eq!(arguments.len(), 1);
    assert_eq!(arguments[0].capture_str, "{0..}");
    assert_eq!(arguments[0].is_required, true);
    assert_eq!(arguments[0].range_start, 0);
    assert_eq!(arguments[0].range_end, usize::MAX);

    // required range argument
    let parser = parsed("{0..2}");
    let arguments = parser.arguments().unwrap();

    assert_eq!(arguments.len(), 1);
    assert_eq!(arguments[0].capture_str, "{0..2}");
    assert_eq!(arguments[0].is_required, true);
    assert_eq!(arguments[0].range_start, 0);
    assert_eq!(arguments[0].range_end, 2);

    // optional range argument
    let parser = parsed("{0..?}");
    let arguments = parser.arguments().unwrap();

    assert_eq!(arguments.len(), 1);
    assert_eq!(arguments[0].capture_str, "{0..?}");
    assert_eq!(arguments[0].is_required, false);
    assert_eq!(arguments[0].range_start, 0);
    assert_eq!(arguments[0].range_end, usize::MAX);

    // multiple ordered arguments (index)
    let parser = parsed("{0} {1?}");
    let arguments = parser.arguments().unwrap();

    assert_eq!(arguments.len(), 2);
    assert_eq!(arguments[0].capture_str, "{0}");
    assert_eq!(arguments[0].is_required, true);
    assert_eq!(arguments[0].range_start, 0);
    assert_eq!(arguments[0].range_end, 1);
    assert_eq!(arguments[1].capture_str, "{1?}");
    assert_eq!(arguments[1].is_required, false);
    assert_eq!(arguments[1].range_start, 1);
    assert_eq!(arguments[1].range_end, 2);

    // multiple inverted arguments (index)
    let parser = parsed("{1?} {0}");
    let arguments = parser.arguments().unwrap();

    assert_eq!(arguments.len(), 2);
    assert_eq!(arguments[0].capture_str, "{0}");
    assert_eq!(arguments[0].is_required, true);
    assert_eq!(arguments[0].range_start, 0);
    assert_eq!(arguments[0].range_end, 1);
    assert_eq!(arguments[1].capture_str, "{1?}");
    assert_eq!(arguments[1].is_required, false);
    assert_eq!(arguments[1].range_start, 1);
    assert_eq!(arguments[1].range_end, 2);

    // multiple same arguments (index)
    let parser = parsed("{0} {0}");
    let arguments = parser.arguments().unwrap();

    assert_eq!(arguments.len(), 1);
    assert_eq!(arguments[0].capture_str, "{0}");
    assert_eq!(arguments[0].is_required, true);
    assert_eq!(arguments[0].range_start, 0);
    assert_eq!(arguments[0].range_end, 1);

    // no matches
    let parser = parsed("");
    let arguments = parser.arguments().unwrap();

    assert_eq!(arguments.len(), 0);

    // no matches
    let parser = parsed("{-1}");
    let arguments = parser.arguments().unwrap();

    assert_eq!(arguments.len(), 0);
}

#[test]
fn parse_without_placeholders_keeps_template() {
    let parser = parsed("git status --short");
    assert_eq!(parser.arguments().unwrap().len(), 0);
    assert_eq!(
        filled("git status --short", vec!["ignored"]).unwrap(),
        "git status --short"
    );
}

#[test]
fn parse_rejects_oversized_index() {
    let mut parser = ArgParser::new("{99999999999999999999999999}", None);
    let err = parser.parse().unwrap_err();
    assert!(matches!(err, Error::MalformedPlaceholder));
    assert!(parser.arguments().is_none());
}

#[test]
fn fill_required_single() {
    assert_eq!(filled("{0}", vec!["x"]).unwrap(), "x");
    let err = filled("{0}", vec![]).unwrap_err();
    assert!(matches!(err, Error::OutOfBounds));
    assert_eq!(err.message(), "index out of bounds or invalid access");
}

#[test]
fn fill_required_unbounded_needs_an_argument() {
    assert_eq!(filled("{0..}", vec!["a", "b"]).unwrap(), "a b");
    let err = filled("{0..}", vec![]).unwrap_err();
    assert!(matches!(err, Error::MissingArgument));
    assert_eq!(err.message(), "argument is empty");
}

#[test]
fn fill_optional_unbounded_accepts_nothing() {
    assert_eq!(filled("{0..?}", vec![]).unwrap(), "");
    assert_eq!(filled("pull {0..?}", vec![]).unwrap(), "pull ");
    assert_eq!(filled("pull {0..?}", vec!["--rebase"]).unwrap(), "pull --rebase");
}

#[test]
fn fill_optional_single_out_of_range_is_empty() {
    assert_eq!(filled("a{1?}b", vec!["first", "x"]).unwrap(), "axb");
    assert_eq!(filled("a{1?}b", vec!["first"]).unwrap(), "ab");
    assert_eq!(filled("a{1?}b", vec![]).unwrap(), "ab");
}

#[test]
fn fill_bounded_range() {
    assert_eq!(filled("{0..2}!", vec!["a", "b", "c"]).unwrap(), "a b!");
    let err = filled("{1..0}", vec!["a"]).unwrap_err();
    assert!(matches!(err, Error::OutOfBounds));
}

#[test]
fn fill_round_trip_leaves_no_placeholder() {
    let out = filled("{1?} go {0} {0..}", vec!["a", "b"]).unwrap();
    assert!(!out.contains('{') && !out.contains('}'));
    assert_eq!(out, "b go a a b");
}

#[test]
fn fill_before_parse_is_an_error() {
    let mut parser = ArgParser::new("{0}", None);
    let err = parser.fill(vec!["x".to_string()]).unwrap_err();
    assert!(matches!(err, Error::NotParsed));
    assert_eq!(err.message(), "could not found parsed caches");
    assert!(matches!(parser.has_arguments().unwrap_err(), Error::NotParsed));
}

#[test]
fn has_arguments_answers_after_parse() {
    let parser = parsed("{0}");
    assert_eq!(parser.has_arguments().unwrap(), true);
    let parser = parsed("plain");
    assert_eq!(parser.has_arguments().unwrap(), false);
}

#[test]
fn descriptions_resolve_by_index() {
    let mut parser = ArgParser::new("{1} {0} {2..}", Some(vec!["first", "second"]));
    parser.parse().unwrap();
    let arguments = parser.arguments().unwrap();
    assert_eq!(arguments.len(), 3);
    assert_eq!(arguments[0].description(), "first");
    assert_eq!(arguments[1].description(), "second");
    // range placeholders never carry one; the default text is used
    assert_eq!(arguments[2].description(), "No description provided");
}

#[test]
fn argument_defaults_and_attributes() {
    let parser = parsed("{0} {1?} {2..?}");
    let arguments = parser.arguments().unwrap();
    assert_eq!(arguments[0].attribute(), "required");
    assert_eq!(arguments[0].description(), "No description provided");
    assert_eq!(arguments[1].attribute(), "optional");
    assert_eq!(arguments[1].is_optional_range(), false);
    assert_eq!(arguments[2].is_unlimited_range(), true);
    assert_eq!(arguments[2].is_optional_range(), true);
    assert_eq!(
        arguments[2].description(),
        "Extra arguments that passing to original command"
    );
}

#[test]
fn capture_text_is_replaced_wherever_it_appears() {
    // the capture is a plain search key: a second textual occurrence is
    // replaced too
    assert_eq!(filled("echo {0} x{0}y", vec!["v"]).unwrap(), "echo v xvy");
}
