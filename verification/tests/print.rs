use memory_palace::print::typst::typst;
use memory_palace::print::Print;
use memory_palace::text::{is_whitespace, push_decimal, spells, trim_bounds};
use memory_palace::Item;

fn card(question: &str, answer: &str) -> Item {
    Item {
        question: question.to_string(),
        answer: answer.to_string(),
        first_remember_time: None,
        last_check_time: None,
        due_time: None,
        tag: None,
    }
}

const HEAD: &str =
    "#table(\n    columns: (1cm, auto, auto),\n    table.header([], [*Q*], [*A*]),\n\n";

#[test]
fn an_empty_store_prints_an_empty_table() {
    assert_eq!(typst(&Vec::new()), format!("{HEAD})\n"));
}

#[test]
fn every_item_prints_one_numbered_row() {
    let items = vec![card("2+2", "4"), card("capital of France", "Paris")];
    let expected =
        format!("{HEAD}    [1], [2+2], [4],\n    [2], [capital of France], [Paris],\n)\n");
    assert_eq!(typst(&items), expected);
    assert_eq!(Print::Typst { input: items }.gogogo(), expected);
}

#[test]
fn cells_are_trimmed_and_line_breaks_escaped() {
    let items = vec![card("  first\nsecond \n", "\t a\n\nb\u{3000}")];
    let expected = format!("{HEAD}    [1], [first\\\nsecond], [a\\\n\\\nb],\n)\n");
    assert_eq!(typst(&items), expected);
    let items = vec![card(" \n ", "")];
    assert_eq!(typst(&items), format!("{HEAD}    [1], [], [],\n)\n"));
}

#[test]
fn rows_are_numbered_in_decimal() {
    let items: Vec<Item> = (0..12).map(|_| card("q", "a")).collect();
    let text = typst(&items);
    let mut expected = HEAD.to_string();
    for i in 1..=12 {
        expected.push_str(&format!("    [{i}], [q], [a],\n"));
    }
    expected.push_str(")\n");
    assert_eq!(text, expected);
    assert!(text.contains("    [10], [q], [a],\n"));
}

#[test]
fn push_decimal_writes_the_number() {
    for n in [0usize, 1, 9, 10, 11, 99, 100, 101, 12_345, 1_000_000, usize::MAX] {
        let mut out = "n=".to_string();
        push_decimal(&mut out, n);
        assert_eq!(out, format!("n={n}"));
    }
}

#[test]
fn trim_bounds_agree_with_trim() {
    for text in [
        "",
        " ",
        "a",
        " a",
        "a ",
        "  a b  ",
        "\n\ta\u{a0}",
        "\u{2003}x y\u{2003}\u{85}",
        "\u{200b}a ",
    ] {
        let chars: Vec<char> = text.chars().collect();
        let (start, end) = trim_bounds(&chars);
        let inner: String = chars[start..end].iter().collect();
        assert_eq!(inner, text.trim(), "trimming {text:?}");
    }
}

#[test]
fn white_space_is_what_unicode_says() {
    let mut c = '\0';
    loop {
        assert_eq!(is_whitespace(c), c.is_whitespace(), "at {:?}", c);
        if c == char::MAX {
            break;
        }
        c = char::from_u32(c as u32 + 1).unwrap_or('\u{e000}');
    }
}

#[test]
fn spells_compares_a_run_of_characters() {
    let text: Vec<char> = "hello world".chars().collect();
    let word: Vec<char> = "world".chars().collect();
    assert!(spells(&text, 6, 11, &word));
    assert!(!spells(&text, 5, 11, &word));
    assert!(!spells(&text, 6, 10, &word));
    assert!(!spells(&text, 0, 5, &word));
    assert!(spells(&text, 3, 3, &Vec::new()));
    assert!(!spells(&text, 3, 4, &Vec::new()));
}
