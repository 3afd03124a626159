use ansi_width::ansi_width;

#[test]
fn ascii() {
    assert_eq!(ansi_width(""), 0);
    assert_eq!(ansi_width("hello"), 5);
    assert_eq!(ansi_width("hello world"), 11);
    assert_eq!(ansi_width("WOW!"), 4);
}

#[test]
fn c0_characters() {
    // Bell
    assert_eq!(ansi_width("\x07"), 0);

    // Backspace
    assert_eq!(ansi_width("\x08"), 0);

    // Tab
    assert_eq!(ansi_width("\t"), 0);
}

#[test]
fn some_escape_codes() {
    // Simple
    assert_eq!(ansi_width("\u{1b}[34mHello\u{1b}[0m"), 5);
    // Red
    assert_eq!(ansi_width("\u{1b}[31mRed\u{1b}[0m"), 3);
}

#[test]
fn hyperlink() {
    assert_eq!(
        ansi_width("\x1b]8;;http://example.com\x1b\\This is a link\x1b]8;;\x1b\\"),
        14
    )
}

#[test]
fn nonstandard_hyperlink() {
    // This hyperlink has a BEL character in the middle instead of `\x1b\\`
    assert_eq!(
        ansi_width("\x1b]8;;file://coreutils.md\x07coreutils.md\x1b]8;;\x07"),
        12
    )
}

#[test]
fn every_printable_ascii_character_takes_one_column() {
    let s: String = (0x20u8..=0x7e).map(|b| b as char).collect();
    assert_eq!(s.chars().count(), 95);
    assert_eq!(ansi_width(&s), 95);
}

#[test]
fn every_c0_character_alone_takes_no_columns() {
    for b in 0u8..0x20 {
        let s = (b as char).to_string();
        assert_eq!(ansi_width(&s), 0, "character {:#04x}", b);
    }
    assert_eq!(ansi_width("\x01\x02\x1b\x1f"), 0);
}

#[test]
fn other_control_codes_take_no_columns() {
    assert_eq!(ansi_width("\x7f"), 0);
    assert_eq!(ansi_width("\u{85}"), 0);
    assert_eq!(ansi_width("a\u{9f}b"), 2);
}

#[test]
fn width_adds_up_over_a_clean_boundary() {
    let a = "\x1b[1mbold\x1b[0m ";
    let b = "\x1b]8;;x\x07link\x1b]8;;\x07!";
    let ab = format!("{}{}", a, b);
    assert_eq!(ansi_width(a), 5);
    assert_eq!(ansi_width(b), 5);
    assert_eq!(ansi_width(&ab), ansi_width(a) + ansi_width(b));
}

#[test]
fn a_sequence_across_the_boundary_changes_the_sum() {
    let a = "ab\x1b[";
    let b = "3mcd";
    let ab = format!("{}{}", a, b);
    assert_eq!(ansi_width(a), 2);
    assert_eq!(ansi_width(b), 4);
    assert_eq!(ansi_width(&ab), 4);
}

#[test]
fn trailing_bare_escape() {
    assert_eq!(ansi_width("\x1b"), 0);
    assert_eq!(ansi_width("ab\x1b"), 2);
}

#[test]
fn unterminated_control_sequence() {
    assert_eq!(ansi_width("\x1b["), 0);
    assert_eq!(ansi_width("ab\x1b[12;3"), 2);
    assert_eq!(ansi_width("ab\x1b[12;3 ~~~ 012"), 2);
}

#[test]
fn control_sequence_final_range_is_inclusive() {
    assert_eq!(ansi_width("\x1b[1@x"), 1);
    assert_eq!(ansi_width("\x1b[1|x"), 1);
    // `}` does not end the sequence; `a` does.
    assert_eq!(ansi_width("\x1b[}ab"), 1);
    // `?` is below the range.
    assert_eq!(ansi_width("\x1b[?25lok"), 2);
}

#[test]
fn escape_backslash_alone() {
    assert_eq!(ansi_width("\x1b\\ab"), 2);
}

#[test]
fn unknown_escape_measures_the_next_character() {
    assert_eq!(ansi_width("\x1bXab"), 3);
    assert_eq!(ansi_width("\x1b(B"), 2);
    assert_eq!(ansi_width("\x1b\x1b"), 0);
    // The second escape is measured as a character; `[1mz` is then plain text.
    assert_eq!(ansi_width("\x1b\x1b[1mz"), 4);
    assert_eq!(ansi_width("\x1b日"), 2);
}

#[test]
fn operating_system_command_needs_escape_before_backslash() {
    // A lone backslash does not end the command.
    assert_eq!(ansi_width("\x1b]a\\bc\x07xy"), 2);
    // An escape followed by another character, then a backslash, does not end it.
    assert_eq!(ansi_width("\x1b]a\x1bb\\cd"), 0);
    // An unterminated command takes the rest of the text.
    assert_eq!(ansi_width("ok\x1b]8;;http://example.com"), 2);
}

#[test]
fn wide_and_zero_width_characters() {
    assert_eq!(ansi_width("日本"), 4);
    assert_eq!(ansi_width("\x1b[1m日本\x1b[0m"), 4);
    assert_eq!(ansi_width("ｈｉ"), 4);
    assert_eq!(ansi_width("e\u{301}"), 1);
    assert_eq!(ansi_width("\u{200b}"), 0);
}
