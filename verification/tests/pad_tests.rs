//! Padding helpers on concrete strings.

#[test]
fn left_pad() {
    assert_eq!(centoria::pad::left_pad("Hello", 5), "Hello");
    assert_eq!(centoria::pad::left_pad("Hello", 10), "     Hello");
    assert_eq!(centoria::pad::left_pad("Hello", 2), "Hello"); // not effect
}

#[test]
fn left_pad_without_1st() {
    assert_eq!(
        centoria::pad::left_pad_without_1st(
            "\
     Hello
Hello",
            5
        ),
        "\
     Hello
     Hello"
    );
}

#[test]
fn right_pad() {
    assert_eq!(centoria::pad::right_pad("Hello", 5), "Hello");
    assert_eq!(centoria::pad::right_pad("Hello", 10), "Hello     ");
    assert_eq!(centoria::pad::right_pad("Hello", 2), "Hello"); // not effect
}

#[test]
fn fmt_left_pad_without_1st_matches_pad() {
    assert_eq!(
        centoria::fmt::left_pad_without_1st("a\nb\nc", 3),
        "a\n   b\n   c"
    );
}

#[test]
fn to_single_line_joins_lines() {
    assert_eq!(centoria::fmt::to_single_line("a\nb\nc"), "a b c");
    assert_eq!(centoria::fmt::to_single_line("plain"), "plain");
}
