//! Text functions, compared with what the standard library gives.

use noir_regex::noir::{state_condition_text, step_condition_text, table_assignments};
use noir_regex::ordered::elements_in_order;
use noir_regex::table::{accepting_state_ids, highest_state_id};
use noir_regex::structs::DFAStateNode;
use noir_regex::text::{
    escape_line_breaks, indent, is_white_space, join, push_decimal, replace, split_lines, trim,
};
use std::collections::{BTreeMap, BTreeSet};

const SAMPLES: [&str; 12] = [
    "",
    " ",
    "\n",
    "a",
    "  a b  ",
    "\t\u{a0}a\u{2028}\u{3000}",
    "a\nb",
    "\na\n\n b \n",
    "a\r\nb\r",
    "\u{e9}\u{1f600}\n \u{200b}\n",
    "\u{85}\u{1680}\n\u{205f}x",
    "\\n\\r",
];

#[test]
fn white_space_is_the_unicode_property() {
    for code in 0..=0x10ffffu32 {
        if let Some(c) = char::from_u32(code) {
            assert_eq!(is_white_space(c), c.is_whitespace(), "{code:x}");
        }
    }
}

#[test]
fn trimming_strips_white_space() {
    for s in SAMPLES {
        assert_eq!(trim(s), s.trim());
    }
}

#[test]
fn replacing_is_done_everywhere() {
    for s in SAMPLES {
        assert_eq!(replace(s, '\n', "--"), s.replace('\n', "--"));
        assert_eq!(replace(s, 'a', ""), s.replace('a', ""));
        assert_eq!(replace(s, 'a', "aa"), s.replace('a', "aa"));
    }
}

#[test]
fn line_breaks_are_escaped() {
    for s in SAMPLES {
        let escaped = escape_line_breaks(s);
        assert_eq!(escaped, s.replace('\n', "\\n").replace('\r', "\\r"));
        assert!(!escaped.contains('\n') && !escaped.contains('\r'));
    }
}

#[test]
fn text_on_one_line_is_not_changed_by_escaping() {
    assert_eq!(escape_line_breaks("[a-z]+\\d"), "[a-z]+\\d");
}

#[test]
fn lines_join_again() {
    for s in SAMPLES {
        let lines = split_lines(s);
        assert_eq!(lines, s.split("\n").collect::<Vec<_>>());
        assert_eq!(join(&lines, "\n"), s);
    }
}

#[test]
fn parts_are_joined_by_the_separator() {
    assert_eq!(join(&vec![], ", "), "");
    assert_eq!(join(&vec!["a".to_owned()], ", "), "a");
    assert_eq!(join(&vec!["a".to_owned(), "".to_owned(), "b".to_owned()], ", "), "a, , b");
}

#[test]
fn numbers_are_written_in_decimal() {
    for n in [0, 7, 9, 10, 99, 100, 255, 256, 1024, 10203, usize::MAX - 1, usize::MAX] {
        let mut out = "n = ".to_owned();
        push_decimal(&mut out, n);
        assert_eq!(out, format!("n = {n}"));
        assert_eq!(out["n = ".len()..].parse::<usize>(), Ok(n));
    }
}

#[test]
fn lines_that_are_not_blank_are_indented() {
    assert_eq!(indent("a\n\n  \n b\n", 1), "    a\n\n  \n     b\n");
    assert_eq!(indent("a", 3), "            a");
    assert_eq!(indent("\u{a0}\nx", 2), "\u{a0}\n        x");
    assert_eq!(indent("", 5), "");
}

#[test]
fn indenting_by_nothing_changes_nothing() {
    for s in SAMPLES {
        assert_eq!(indent(s, 0), s);
    }
}

#[test]
fn indenting_twice_adds_up() {
    for s in SAMPLES {
        assert_eq!(indent(&indent(s, 1), 2), indent(s, 3));
        assert_eq!(split_lines(&indent(s, 2)).len(), split_lines(s).len());
    }
}

#[test]
fn sets_are_listed_in_order() {
    let steps: BTreeSet<(usize, usize)> = [(2, 1), (1, 9), (1, 2), (10, 0)].into_iter().collect();
    assert_eq!(elements_in_order(&steps), vec![(1, 2), (1, 9), (2, 1), (10, 0)]);
    let none: BTreeSet<u8> = BTreeSet::new();
    assert!(elements_in_order(&none).is_empty());
}

#[test]
fn conditions_name_the_states() {
    assert_eq!(step_condition_text(12, 3), "(s == 12) & (s_next == 3)");
    assert_eq!(state_condition_text(&vec![]), "");
    assert_eq!(state_condition_text(&vec![4]), "(s == 4)");
    assert_eq!(state_condition_text(&vec![4, 10, 5]), "(s == 4) | (s == 10) | (s == 5)");
}

#[test]
fn rows_are_written_as_statements() {
    assert_eq!(table_assignments(&vec![]), "");
    assert_eq!(
        table_assignments(&vec![(0, 255, 1), (12, 7, 30)]),
        "table[0 * 256 + 255] = 1;\ntable[12 * 256 + 7] = 30;\n"
    );
}

fn bare_state(state_type: &str, state_id: usize) -> DFAStateNode {
    DFAStateNode { state_type: state_type.to_owned(), state_id, transitions: BTreeMap::new() }
}

#[test]
fn accepting_states_are_told_by_their_type() {
    let states = vec![
        bare_state("accept", 5),
        bare_state("", 9),
        bare_state("Accept", 1),
        bare_state("accept", 2),
    ];
    assert_eq!(accepting_state_ids(&states), vec![5, 2]);
    assert_eq!(highest_state_id(&states), 9);
}
