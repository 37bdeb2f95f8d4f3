use things::common::{
    colored, counted, one_line, printable, printable_json, printable_plain, shown_title, task6_note, DIM,
    GREEN,
};

#[test]
fn printable_keeps_colors_and_escapes_other_controls() {
    assert_eq!(
        printable("\u{1b}[1;32m✓ Done\u{1b}[0m\tnote\n"),
        "\u{1b}[1;32m✓ Done\u{1b}[0m\tnote\n"
    );
    assert_eq!(
        printable("Pay rent\u{1b}]52;c;aGk=\u{7}\u{1b}[2J\rX\u{7f}\u{9b}"),
        "Pay rent^[]52;c;aGk=^G^[[2J^MX^?\u{fffd}"
    );
    assert_eq!(
        printable("Invoice \u{202e}fdp.exe\u{202c} \u{2067}x\u{2069}"),
        "Invoice \u{fffd}fdp.exe\u{fffd} \u{fffd}x\u{fffd}"
    );
}

#[test]
fn output_without_colors_passes_no_escape_sequence() {
    assert_eq!(
        printable_plain("A\u{1b}[8mB\u{1b}[0m\tnote\r\nnext"),
        "A^[[8mB^[[0m\tnote^M\nnext"
    );
}

#[test]
fn a_field_stays_on_its_line_without_escape_sequences() {
    assert_eq!(
        one_line("Renew\nKind: to-do, done\r\u{1b}[8m\t\u{85}\u{2028}\u{202e}"),
        "Renew^JKind: to-do, done^M^[[8m^I\u{fffd}\u{fffd}\u{fffd}"
    );
}

#[test]
fn printable_json_keeps_every_string_as_it_decodes() {
    let title = "Rent\u{7f} due\u{85}\u{9b}2J \u{1b}]52;c;aGk=\u{7} \u{202e}fdp.exe";
    let json = serde_json::to_string(&serde_json::Value::from(
        serde_json::Map::from_iter([("title".to_string(), serde_json::Value::from(title))]),
    ))
    .unwrap();
    let shown = printable_json(&json);
    assert!(
        !shown.chars().any(|c| c.is_control() || c == '\u{202e}'),
        "{shown}"
    );
    let read: serde_json::Value = serde_json::from_str(&shown).unwrap();
    assert_eq!(read["title"], title);
}

#[test]
fn a_count_names_its_noun_in_the_plural_but_for_one() {
    assert_eq!(counted(0, "task"), "0 tasks");
    assert_eq!(counted(1, "task"), "1 task");
    assert_eq!(counted(12, "area"), "12 areas");
}

#[test]
fn colors_wrap_the_text_unless_they_are_off() {
    assert_eq!(colored("x", &[GREEN, DIM], false), "\u{1b}[32m\u{1b}[2mx\u{1b}[0m");
    assert_eq!(colored("x", &[GREEN], true), "x");
}

#[test]
fn a_blank_title_shows_as_untitled() {
    assert_eq!(shown_title(" \t "), "(untitled)");
    assert_eq!(shown_title(""), "(untitled)");
    assert_eq!(shown_title("Plan\n"), "Plan^J");
}

#[test]
fn an_escape_without_a_sequence_shows_in_caret_notation_even_with_colors() {
    assert_eq!(printable("\u{1b}[12"), "^[[12");
    assert_eq!(printable("\u{1b}"), "^[");
    assert_eq!(printable("\u{1b}[m"), "\u{1b}[m");
    assert_eq!(printable_json("\u{85}"), "\\u0085");
}

#[test]
fn a_task6_note_carries_the_checksum_of_its_text() {
    let note = task6_note("café! todo");
    assert_eq!(note.object_type, "tx");
    assert_eq!(note.format_type, 1);
    assert_eq!(note.value, "café! todo");
    assert_eq!(note.checksum, crc32fast::hash("café! todo".as_bytes()));
    assert_eq!(note.checksum, 3817640183);
    assert_eq!(task6_note("done").checksum, 271442091);
    assert_eq!(task6_note("").checksum, 0);
}
