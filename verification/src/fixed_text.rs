//! The fixed text of the generated programs holds no access to the table.

use vstd::prelude::*;

use crate::template::{
    CONSTRAIN_HEAD, CONSTRAIN_BODY, CONSTRAIN_COMMENT, CONSTRAIN_LOOP, CONSTRAIN_EACH,
    MATCH_HEAD, MATCH_CALL, MATCH_CONSTRAIN, MATCH_CONSTRAIN_ARGUMENTS, MATCH_START, MATCH_LOOP,
    MATCH_RESTART, MATCH_RANGE, MATCH_CASES, MATCH_FOUND, MATCH_END, EXTRACT_HEAD,
    EXTRACT_COMMENT, EXTRACT_SUBSTRINGS, EXTRACT_VARIABLES, EXTRACT_START, EXTRACT_STATE,
    EXTRACT_LOOP, EXTRACT_RESTART, EXTRACT_ACCEPT, EXTRACT_RESULT, EXTRACT_END,
    BRANCH_START_INDEX, BRANCH_OPEN, BRANCH_BODY, STEP_RESET, STEP_COMPLETE, STEP_END,
    SAVE_INDICES, PLAIN_HEAD, PLAIN_START, PLAIN_LOOP, PLAIN_ACCEPT, PLAIN_END,
    TABLE_ASSIGNMENTS, TABLE_CONSTRUCTOR, TABLE_END, TABLE_TYPE, TABLE_ZEROS,
};

verus! {

/// A letter of the word `table`.
pub open spec fn word_letter(c: char) -> bool {
    c == 't' || c == 'a' || c == 'b' || c == 'l' || c == 'e'
}

/// No opening bracket stands directly behind an `e`, as it does in an access to the table.
pub open spec fn plain(s: Seq<char>) -> bool {
    forall|i: int| 1 <= i < s.len() && #[trigger] s[i] == '[' ==> s[i - 1] != 'e'
}

/// A text without an access to the table, which cannot start one at its end either.
#[verifier::opaque]
pub open spec fn calm(s: Seq<char>) -> bool {
    plain(s) && (s.len() == 0 || !word_letter(s.last()))
}

/// The part of `s` from `lo` to `hi` holds no opening bracket directly behind an `e`.
spec fn plain_between(s: Seq<char>, lo: int, hi: int) -> bool
    decreases hi - lo,
{
    if hi <= lo {
        true
    } else if hi == lo + 1 {
        !(lo >= 1 && s[lo] == '[' && s[lo - 1] == 'e')
    } else {
        plain_between(s, lo, (lo + hi) / 2) && plain_between(s, (lo + hi) / 2, hi)
    }
}

proof fn lemma_plain_at(s: Seq<char>, lo: int, hi: int, i: int)
    requires
        plain_between(s, lo, hi),
        lo <= i < hi,
    ensures
        !(i >= 1 && s[i] == '[' && s[i - 1] == 'e'),
    decreases hi - lo,
{
    if hi > lo + 1 {
        if i < (lo + hi) / 2 {
            lemma_plain_at(s, lo, (lo + hi) / 2, i);
        } else {
            lemma_plain_at(s, (lo + hi) / 2, hi, i);
        }
    }
}

/// A text that holds no opening bracket behind an `e` from start to end, and ends in no letter
/// of the word `table`, is calm.
proof fn lemma_calm(s: Seq<char>)
    requires
        plain_between(s, 0, s.len() as int),
        s.len() == 0 || !word_letter(s[s.len() - 1]),
    ensures
        calm(s),
{
    reveal(calm);
    assert forall|i: int| 1 <= i < s.len() && #[trigger] s[i] == '[' implies s[i - 1] != 'e' by {
        lemma_plain_at(s, 0, s.len() as int, i);
    }
}

proof fn lemma_constrain_head()
    ensures
        calm(CONSTRAIN_HEAD@),
{
    reveal_strlit("pub fn constrain_substrings<let INPUT_LEN: u32, let NUM_SUBSTRINGS: u32>(\n    input: [u8; INPUT_LEN], \n    substrings: BoundedVec<BoundedVec<Field, INPUT_LEN>, NUM_SUBSTRINGS>, \n    ");
    assert(CONSTRAIN_HEAD@.len() == 182);
    reveal_with_fuel(plain_between, 10);
    lemma_calm(CONSTRAIN_HEAD@);
}

proof fn lemma_constrain_body()
    ensures
        calm(CONSTRAIN_BODY@),
{
    reveal_strlit("\n) {\n    ");
    assert(CONSTRAIN_BODY@.len() == 9);
    reveal_with_fuel(plain_between, 6);
    lemma_calm(CONSTRAIN_BODY@);
}

proof fn lemma_constrain_comment()
    ensures
        calm(CONSTRAIN_COMMENT@),
{
    reveal_strlit("// constrain substring");
    assert(CONSTRAIN_COMMENT@.len() == 22);
    reveal_with_fuel(plain_between, 7);
    lemma_calm(CONSTRAIN_COMMENT@);
}

proof fn lemma_constrain_loop()
    ensures
        calm(CONSTRAIN_LOOP@),
{
    reveal_strlit(r#"
      let mut substr_index = 0;
      for j in 0..INPUT_LEN {
          let substr_char = substring.get_unchecked(substr_index);
          let input_char = input[j];
          if (j >= start) & (j < end - 1) {
              assert(substr_char as u8 == input_char);
              substr_index += 1;
          }
      }"#);
    assert(CONSTRAIN_LOOP@.len() == 318);
    reveal_with_fuel(plain_between, 11);
    lemma_calm(CONSTRAIN_LOOP@);
}

proof fn lemma_constrain_each()
    ensures
        calm(CONSTRAIN_EACH@),
{
    reveal_strlit(r#"
  for j in 0..NUM_SUBSTRINGS {
      let substring = substrings.get_unchecked((j));
      let start = start_indices[j];
      let end = end_indices[j];"#);
    assert(CONSTRAIN_EACH@.len() == 152);
    reveal_with_fuel(plain_between, 10);
    lemma_calm(CONSTRAIN_EACH@);
}

proof fn lemma_match_head()
    ensures
        calm(MATCH_HEAD@),
{
    reveal_strlit("pub fn regex_match<let N: u32>(input: [u8; N]) -> BoundedVec<BoundedVec<Field, N>, ");
    assert(MATCH_HEAD@.len() == 83);
    reveal_with_fuel(plain_between, 9);
    lemma_calm(MATCH_HEAD@);
}

proof fn lemma_match_call()
    ensures
        calm(MATCH_CALL@),
{
    reveal_strlit("> {\n    let (substrings, ");
    assert(MATCH_CALL@.len() == 25);
    reveal_with_fuel(plain_between, 7);
    lemma_calm(MATCH_CALL@);
}

proof fn lemma_match_constrain()
    ensures
        calm(MATCH_CONSTRAIN@),
{
    reveal_strlit(r#") = unsafe { __regex_match(input) };

    // constrain extracted substrings
    constrain_substrings::<N, "#);
    assert(MATCH_CONSTRAIN@.len() == 106);
    reveal_with_fuel(plain_between, 9);
    lemma_calm(MATCH_CONSTRAIN@);
}

proof fn lemma_match_constrain_arguments()
    ensures
        calm(MATCH_CONSTRAIN_ARGUMENTS@),
{
    reveal_strlit(">(input, substrings, ");
    assert(MATCH_CONSTRAIN_ARGUMENTS@.len() == 21);
    reveal_with_fuel(plain_between, 7);
    lemma_calm(MATCH_CONSTRAIN_ARGUMENTS@);
}

proof fn lemma_match_start()
    ensures
        calm(MATCH_START@),
{
    reveal_strlit(");\n    \n    // \"Previous\" state\n    let mut s: Field = 0;\n    s = ");
    assert(MATCH_START@.len() == 66);
    reveal_with_fuel(plain_between, 9);
    lemma_calm(MATCH_START@);
}

proof fn lemma_match_loop()
    ensures
        calm(MATCH_LOOP@),
{
    reveal_strlit(r#";
    // "Next"/upcoming state
    let mut s_next: Field = 0;

    // check the match
    for i in 0..N {
        let temp = input[i] as Field;
        s_next = "#);
    assert(MATCH_LOOP@.len() == 161);
    reveal_with_fuel(plain_between, 10);
    lemma_calm(MATCH_LOOP@);
}

proof fn lemma_match_restart()
    ensures
        calm(MATCH_RESTART@),
{
    reveal_strlit(";\n        let potential_s_next = ");
    assert(MATCH_RESTART@.len() == 33);
    reveal_with_fuel(plain_between, 8);
    lemma_calm(MATCH_RESTART@);
}

proof fn lemma_match_range()
    ensures
        calm(MATCH_RANGE@),
{
    reveal_strlit(r#";
        if s_next == 0 {
            s = 0;
            s_next = potential_s_next;
        }
        std::as_witness(s_next);

        let range = "#);
    assert(MATCH_RANGE@.len() == 149);
    reveal_with_fuel(plain_between, 10);
    lemma_calm(MATCH_RANGE@);
}

proof fn lemma_match_cases()
    ensures
        calm(MATCH_CASES@),
{
    reveal_strlit(";\n        let cases = ");
    assert(MATCH_CASES@.len() == 22);
    reveal_with_fuel(plain_between, 7);
    lemma_calm(MATCH_CASES@);
}

proof fn lemma_match_found()
    ensures
        calm(MATCH_FOUND@),
{
    reveal_strlit(r#"
        // idk why have to say == true
        let found = cases.any(|case|  case == true | range == false );
        s = s_next;
        assert(found, "no match");
    }
    // check final state
    assert("#);
    assert(MATCH_FOUND@.len() == 208);
    reveal_with_fuel(plain_between, 10);
    lemma_calm(MATCH_FOUND@);
}

proof fn lemma_match_end()
    ensures
        calm(MATCH_END@),
{
    reveal_strlit(r#", f"no match: {s}");

    substrings
}"#);
    assert(MATCH_END@.len() == 38);
    reveal_with_fuel(plain_between, 8);
    lemma_calm(MATCH_END@);
}

proof fn lemma_extract_head()
    ensures
        calm(EXTRACT_HEAD@),
{
    reveal_strlit("pub unconstrained fn __regex_match<let N: u32>(input: [u8; N]) -> ");
    assert(EXTRACT_HEAD@.len() == 66);
    reveal_with_fuel(plain_between, 9);
    lemma_calm(EXTRACT_HEAD@);
}

proof fn lemma_extract_comment()
    ensures
        calm(EXTRACT_COMMENT@),
{
    reveal_strlit(" {\n    // regex: ");
    assert(EXTRACT_COMMENT@.len() == 17);
    reveal_with_fuel(plain_between, 7);
    lemma_calm(EXTRACT_COMMENT@);
}

proof fn lemma_extract_substrings()
    ensures
        calm(EXTRACT_SUBSTRINGS@),
{
    reveal_strlit("\n    let mut substrings: BoundedVec<BoundedVec<Field, N>, ");
    assert(EXTRACT_SUBSTRINGS@.len() == 58);
    reveal_with_fuel(plain_between, 8);
    lemma_calm(EXTRACT_SUBSTRINGS@);
}

proof fn lemma_extract_variables()
    ensures
        calm(EXTRACT_VARIABLES@),
{
    reveal_strlit("> = BoundedVec::new();\n    ");
    assert(EXTRACT_VARIABLES@.len() == 27);
    reveal_with_fuel(plain_between, 7);
    lemma_calm(EXTRACT_VARIABLES@);
}

proof fn lemma_extract_start()
    ensures
        calm(EXTRACT_START@),
{
    reveal_strlit(r#"

    // "Previous" state
    let mut s: Field = 0;
    s = "#);
    assert(EXTRACT_START@.len() == 60);
    reveal_with_fuel(plain_between, 8);
    lemma_calm(EXTRACT_START@);
}

proof fn lemma_extract_state()
    ensures
        calm(EXTRACT_STATE@),
{
    reveal_strlit(r#";
    // "Next"/upcoming state
    let mut s_next: Field = 0;

    let mut consecutive_substr = 0;
    let mut current_substring = BoundedVec::new();
    let mut start_index = 0;
    let mut end_index = 0;
    let mut complete = false;
    "#);
    assert(EXTRACT_STATE@.len() == 240);
    reveal_with_fuel(plain_between, 10);
    lemma_calm(EXTRACT_STATE@);
}

proof fn lemma_extract_loop()
    ensures
        calm(EXTRACT_LOOP@),
{
    reveal_strlit(r#"

    for i in 0..input.len() {
        let temp = input[i] as Field;
        let mut reset = false;
        s_next = "#);
    assert(EXTRACT_LOOP@.len() == 118);
    reveal_with_fuel(plain_between, 9);
    lemma_calm(EXTRACT_LOOP@);
}

proof fn lemma_extract_restart()
    ensures
        calm(EXTRACT_RESTART@),
{
    reveal_strlit(r#";
        if s_next == 0 {
            reset = true;
            s = 0;
            s_next = potential_s_next;
        }
        // If a substring was in the making, but the state was reset
        // we disregard previous progress because apparently it is invalid
        if (reset & (consecutive_substr == 1)) {
            current_substring = BoundedVec::new();
            consecutive_substr = 0;
        }
        // Fill up substrings
"#);
    assert(EXTRACT_RESTART@.len() == 441);
    reveal_with_fuel(plain_between, 11);
    lemma_calm(EXTRACT_RESTART@);
}

proof fn lemma_extract_accept()
    ensures
        calm(EXTRACT_ACCEPT@),
{
    reveal_strlit(r#"
        s = s_next;
    }
    assert("#);
    assert(EXTRACT_ACCEPT@.len() == 38);
    reveal_with_fuel(plain_between, 8);
    lemma_calm(EXTRACT_ACCEPT@);
}

proof fn lemma_extract_result()
    ensures
        calm(EXTRACT_RESULT@),
{
    reveal_strlit(r#", f"no match: {s}");
    // Add pending substring that hasn't been added
    if consecutive_substr == 1 {
        substrings.push(current_substring);
    }
    (substrings, "#);
    assert(EXTRACT_RESULT@.len() == 173);
    reveal_with_fuel(plain_between, 10);
    lemma_calm(EXTRACT_RESULT@);
}

proof fn lemma_extract_end()
    ensures
        calm(EXTRACT_END@),
{
    reveal_strlit(")\n}");
    assert(EXTRACT_END@.len() == 3);
    reveal_with_fuel(plain_between, 4);
    lemma_calm(EXTRACT_END@);
}

proof fn lemma_branch_start_index()
    ensures
        calm(BRANCH_START_INDEX@),
{
    reveal_strlit("\tif (consecutive_substr == 0) {\n        start_index = i;\n    };\n");
    assert(BRANCH_START_INDEX@.len() == 64);
    reveal_with_fuel(plain_between, 8);
    lemma_calm(BRANCH_START_INDEX@);
}

proof fn lemma_branch_open()
    ensures
        calm(BRANCH_OPEN@),
{
    reveal_strlit(") {\n    ");
    assert(BRANCH_OPEN@.len() == 8);
    reveal_with_fuel(plain_between, 5);
    lemma_calm(BRANCH_OPEN@);
}

proof fn lemma_branch_body()
    ensures
        calm(BRANCH_BODY@),
{
    reveal_strlit("\n    current_substring.push(temp);\n    consecutive_substr = 1;   \n}");
    assert(BRANCH_BODY@.len() == 67);
    reveal_with_fuel(plain_between, 9);
    lemma_calm(BRANCH_BODY@);
}

proof fn lemma_step_reset()
    ensures
        calm(STEP_RESET@),
{
    reveal_strlit(r#" else if ((consecutive_substr == 1) & (s_next == 0)) {
    current_substring = BoundedVec::new();
    substrings = BoundedVec::new();
    consecutive_substr = 0;
    start_index = 0;
    end_index = 0;
} else if "#);
    assert(STEP_RESET@.len() == 212);
    reveal_with_fuel(plain_between, 10);
    lemma_calm(STEP_RESET@);
}

proof fn lemma_step_complete()
    ensures
        calm(STEP_COMPLETE@),
{
    reveal_strlit(r#" {
    end_index = i;
    complete = true;
    break;
} else if (consecutive_substr == 1) {
    // The substring is done so "save" it
    substrings.push(current_substring);
    // reset the substring holder for next use
    current_substring = BoundedVec::new();
    consecutive_substr = 0;
    "#);
    assert(STEP_COMPLETE@.len() == 296);
    reveal_with_fuel(plain_between, 11);
    lemma_calm(STEP_COMPLETE@);
}

proof fn lemma_step_end()
    ensures
        calm(STEP_END@),
{
    reveal_strlit("\n}");
    assert(STEP_END@.len() == 2);
    reveal_with_fuel(plain_between, 3);
    lemma_calm(STEP_END@);
}

proof fn lemma_save_indices()
    ensures
        calm(SAVE_INDICES@),
{
    reveal_strlit("start_indices[substr_index] = start_index;\n\tend_indices[substr_index] = end_index;\n\tsubstr_index += 1;");
    assert(SAVE_INDICES@.len() == 102);
    reveal_with_fuel(plain_between, 9);
    lemma_calm(SAVE_INDICES@);
}

proof fn lemma_plain_head()
    ensures
        calm(PLAIN_HEAD@),
{
    reveal_strlit("pub fn regex_match<let N: u32>(input: [u8; N]) {\n    // regex: ");
    assert(PLAIN_HEAD@.len() == 63);
    reveal_with_fuel(plain_between, 8);
    lemma_calm(PLAIN_HEAD@);
}

proof fn lemma_plain_start()
    ensures
        calm(PLAIN_START@),
{
    reveal_strlit("\n    let mut s = 0;\n    s = ");
    assert(PLAIN_START@.len() == 28);
    reveal_with_fuel(plain_between, 7);
    lemma_calm(PLAIN_START@);
}

proof fn lemma_plain_loop()
    ensures
        calm(PLAIN_LOOP@),
{
    reveal_strlit(r#";
    for i in 0..input.len() {
        let s_idx = s * 256 + input[i] as Field;
        std::as_witness(s_idx);
        s = "#);
    assert(PLAIN_LOOP@.len() == 125);
    reveal_with_fuel(plain_between, 9);
    lemma_calm(PLAIN_LOOP@);
}

proof fn lemma_plain_accept()
    ensures
        calm(PLAIN_ACCEPT@),
{
    reveal_strlit(";\n    }\n    assert(");
    assert(PLAIN_ACCEPT@.len() == 19);
    reveal_with_fuel(plain_between, 7);
    lemma_calm(PLAIN_ACCEPT@);
}

proof fn lemma_plain_end()
    ensures
        calm(PLAIN_END@),
{
    reveal_strlit(", f\"no match: {s}\");\n}");
    assert(PLAIN_END@.len() == 22);
    reveal_with_fuel(plain_between, 7);
    lemma_calm(PLAIN_END@);
}

/// The separators and brackets between the parts of a program are calm.
pub proof fn separators_are_calm()
    ensures
        calm(""@),
        calm(" "@),
        calm("\n"@),
        calm("\n\n"@),
        calm("\n}"@),
        calm("if"@),
        calm("else if"@),
        calm(" ("@),
        calm(","@),
        calm(",\n"@),
        calm("[\n"@),
        calm("\n\t\t];"@),
        calm("s"@),
{
    assert(calm(""@)) by {
        reveal_strlit("");
        assert(""@.len() == 0);
        reveal_with_fuel(plain_between, 2);
        lemma_calm(""@);
    }
    assert(calm(" "@)) by {
        reveal_strlit(" ");
        assert(" "@.len() == 1);
        reveal_with_fuel(plain_between, 2);
        lemma_calm(" "@);
    }
    assert(calm("\n"@)) by {
        reveal_strlit("\n");
        assert("\n"@.len() == 1);
        reveal_with_fuel(plain_between, 2);
        lemma_calm("\n"@);
    }
    assert(calm("\n\n"@)) by {
        reveal_strlit("\n\n");
        assert("\n\n"@.len() == 2);
        reveal_with_fuel(plain_between, 3);
        lemma_calm("\n\n"@);
    }
    assert(calm("\n}"@)) by {
        reveal_strlit("\n}");
        assert("\n}"@.len() == 2);
        reveal_with_fuel(plain_between, 3);
        lemma_calm("\n}"@);
    }
    assert(calm("if"@)) by {
        reveal_strlit("if");
        assert("if"@.len() == 2);
        reveal_with_fuel(plain_between, 3);
        lemma_calm("if"@);
    }
    assert(calm("else if"@)) by {
        reveal_strlit("else if");
        assert("else if"@.len() == 7);
        reveal_with_fuel(plain_between, 5);
        lemma_calm("else if"@);
    }
    assert(calm(" ("@)) by {
        reveal_strlit(" (");
        assert(" ("@.len() == 2);
        reveal_with_fuel(plain_between, 3);
        lemma_calm(" ("@);
    }
    assert(calm(","@)) by {
        reveal_strlit(",");
        assert(","@.len() == 1);
        reveal_with_fuel(plain_between, 2);
        lemma_calm(","@);
    }
    assert(calm(",\n"@)) by {
        reveal_strlit(",\n");
        assert(",\n"@.len() == 2);
        reveal_with_fuel(plain_between, 3);
        lemma_calm(",\n"@);
    }
    assert(calm("[\n"@)) by {
        reveal_strlit("[\n");
        assert("[\n"@.len() == 2);
        reveal_with_fuel(plain_between, 3);
        lemma_calm("[\n"@);
    }
    assert(calm("\n\t\t];"@)) by {
        reveal_strlit("\n\t\t];");
        assert("\n\t\t];"@.len() == 5);
        reveal_with_fuel(plain_between, 5);
        lemma_calm("\n\t\t];"@);
    }
    assert(calm("s"@)) by {
        reveal_strlit("s");
        assert("s"@.len() == 1);
        reveal_with_fuel(plain_between, 2);
        lemma_calm("s"@);
    }
}

/// The texts of the conditions are calm.
pub proof fn conditions_are_calm()
    ensures
        calm("(s == "@),
        calm(") & (s_next == "@),
        calm(")"@),
        calm(" | "@),
        calm("i >= start_indices[0] & i <= end_indices["@),
        calm("]"@),
        calm("i >= start & i <= end"@),
{
    assert(calm("(s == "@)) by {
        reveal_strlit("(s == ");
        assert("(s == "@.len() == 6);
        reveal_with_fuel(plain_between, 5);
        lemma_calm("(s == "@);
    }
    assert(calm(") & (s_next == "@)) by {
        reveal_strlit(") & (s_next == ");
        assert(") & (s_next == "@.len() == 15);
        reveal_with_fuel(plain_between, 6);
        lemma_calm(") & (s_next == "@);
    }
    assert(calm(")"@)) by {
        reveal_strlit(")");
        assert(")"@.len() == 1);
        reveal_with_fuel(plain_between, 2);
        lemma_calm(")"@);
    }
    assert(calm(" | "@)) by {
        reveal_strlit(" | ");
        assert(" | "@.len() == 3);
        reveal_with_fuel(plain_between, 4);
        lemma_calm(" | "@);
    }
    assert(calm("i >= start_indices[0] & i <= end_indices["@)) by {
        reveal_strlit("i >= start_indices[0] & i <= end_indices[");
        assert("i >= start_indices[0] & i <= end_indices["@.len() == 41);
        reveal_with_fuel(plain_between, 8);
        lemma_calm("i >= start_indices[0] & i <= end_indices["@);
    }
    assert(calm("]"@)) by {
        reveal_strlit("]");
        assert("]"@.len() == 1);
        reveal_with_fuel(plain_between, 2);
        lemma_calm("]"@);
    }
    assert(calm("i >= start & i <= end"@)) by {
        reveal_strlit("i >= start & i <= end");
        assert("i >= start & i <= end"@.len() == 21);
        reveal_with_fuel(plain_between, 7);
        lemma_calm("i >= start & i <= end"@);
    }
}

/// The text of the declaration of a table is calm.
pub proof fn declarations_are_calm()
    ensures
        calm(TABLE_TYPE@),
        calm(TABLE_CONSTRUCTOR@),
        calm(TABLE_ZEROS@),
        calm(TABLE_ASSIGNMENTS@),
        calm(TABLE_END@),
{
    assert(calm(TABLE_TYPE@)) by {
        reveal_strlit("\nglobal table: [Field; ");
        assert(TABLE_TYPE@.len() == 23);
        reveal_with_fuel(plain_between, 7);
        lemma_calm(TABLE_TYPE@);
    }
    assert(calm(TABLE_CONSTRUCTOR@)) by {
        reveal_strlit("] = comptime { make_lookup_table() };\n\ncomptime fn make_lookup_table() -> [Field; ");
        assert(TABLE_CONSTRUCTOR@.len() == 82);
        reveal_with_fuel(plain_between, 9);
        lemma_calm(TABLE_CONSTRUCTOR@);
    }
    assert(calm(TABLE_ZEROS@)) by {
        reveal_strlit("] {\n    let mut table = [0; ");
        assert(TABLE_ZEROS@.len() == 28);
        reveal_with_fuel(plain_between, 7);
        lemma_calm(TABLE_ZEROS@);
    }
    assert(calm(TABLE_ASSIGNMENTS@)) by {
        reveal_strlit("];\n    ");
        assert(TABLE_ASSIGNMENTS@.len() == 7);
        reveal_with_fuel(plain_between, 5);
        lemma_calm(TABLE_ASSIGNMENTS@);
    }
    assert(calm(TABLE_END@)) by {
        reveal_strlit(r#"
    table
}

        "#);
        assert(TABLE_END@.len() == 22);
        reveal_with_fuel(plain_between, 7);
        lemma_calm(TABLE_END@);
    }
}

/// The texts of the places of the substrings are calm.
pub proof fn places_are_calm()
    ensures
        calm("start_indices: [u32; NUM_SUBSTRINGS],\n\tend_indices: [u32; NUM_SUBSTRINGS]"@),
        calm("start: u32,\n\tend: u32"@),
        calm("let substring = substrings.get_unchecked(0);\n"@),
        calm("start_indices, end_indices"@),
        calm("start, end"@),
        calm("start_index, end_index"@),
{
    assert(calm("start_indices: [u32; NUM_SUBSTRINGS],\n\tend_indices: [u32; NUM_SUBSTRINGS]"@)) by {
        reveal_strlit("start_indices: [u32; NUM_SUBSTRINGS],\n\tend_indices: [u32; NUM_SUBSTRINGS]");
        assert("start_indices: [u32; NUM_SUBSTRINGS],\n\tend_indices: [u32; NUM_SUBSTRINGS]"@.len() == 73);
        reveal_with_fuel(plain_between, 9);
        lemma_calm("start_indices: [u32; NUM_SUBSTRINGS],\n\tend_indices: [u32; NUM_SUBSTRINGS]"@);
    }
    assert(calm("start: u32,\n\tend: u32"@)) by {
        reveal_strlit("start: u32,\n\tend: u32");
        assert("start: u32,\n\tend: u32"@.len() == 21);
        reveal_with_fuel(plain_between, 7);
        lemma_calm("start: u32,\n\tend: u32"@);
    }
    assert(calm("let substring = substrings.get_unchecked(0);\n"@)) by {
        reveal_strlit("let substring = substrings.get_unchecked(0);\n");
        assert("let substring = substrings.get_unchecked(0);\n"@.len() == 45);
        reveal_with_fuel(plain_between, 8);
        lemma_calm("let substring = substrings.get_unchecked(0);\n"@);
    }
    assert(calm("start_indices, end_indices"@)) by {
        reveal_strlit("start_indices, end_indices");
        assert("start_indices, end_indices"@.len() == 26);
        reveal_with_fuel(plain_between, 7);
        lemma_calm("start_indices, end_indices"@);
    }
    assert(calm("start, end"@)) by {
        reveal_strlit("start, end");
        assert("start, end"@.len() == 10);
        reveal_with_fuel(plain_between, 6);
        lemma_calm("start, end"@);
    }
    assert(calm("start_index, end_index"@)) by {
        reveal_strlit("start_index, end_index");
        assert("start_index, end_index"@.len() == 22);
        reveal_with_fuel(plain_between, 7);
        lemma_calm("start_index, end_index"@);
    }
}

/// The texts of the result of the search are calm.
pub proof fn results_are_calm()
    ensures
        calm("(BoundedVec<BoundedVec<Field, N>, "@),
        calm(">, [u32; "@),
        calm("], [u32; "@),
        calm("])"@),
        calm(">, u32, u32)"@),
        calm("let mut start_indices: [u32; "@),
        calm("] = [0; "@),
        calm("];\n\tlet mut end_indices: [u32; "@),
        calm("];"@),
        calm("let mut substr_index = 0;"@),
{
    assert(calm("(BoundedVec<BoundedVec<Field, N>, "@)) by {
        reveal_strlit("(BoundedVec<BoundedVec<Field, N>, ");
        assert("(BoundedVec<BoundedVec<Field, N>, "@.len() == 34);
        reveal_with_fuel(plain_between, 8);
        lemma_calm("(BoundedVec<BoundedVec<Field, N>, "@);
    }
    assert(calm(">, [u32; "@)) by {
        reveal_strlit(">, [u32; ");
        assert(">, [u32; "@.len() == 9);
        reveal_with_fuel(plain_between, 6);
        lemma_calm(">, [u32; "@);
    }
    assert(calm("], [u32; "@)) by {
        reveal_strlit("], [u32; ");
        assert("], [u32; "@.len() == 9);
        reveal_with_fuel(plain_between, 6);
        lemma_calm("], [u32; "@);
    }
    assert(calm("])"@)) by {
        reveal_strlit("])");
        assert("])"@.len() == 2);
        reveal_with_fuel(plain_between, 3);
        lemma_calm("])"@);
    }
    assert(calm(">, u32, u32)"@)) by {
        reveal_strlit(">, u32, u32)");
        assert(">, u32, u32)"@.len() == 12);
        reveal_with_fuel(plain_between, 6);
        lemma_calm(">, u32, u32)"@);
    }
    assert(calm("let mut start_indices: [u32; "@)) by {
        reveal_strlit("let mut start_indices: [u32; ");
        assert("let mut start_indices: [u32; "@.len() == 29);
        reveal_with_fuel(plain_between, 7);
        lemma_calm("let mut start_indices: [u32; "@);
    }
    assert(calm("] = [0; "@)) by {
        reveal_strlit("] = [0; ");
        assert("] = [0; "@.len() == 8);
        reveal_with_fuel(plain_between, 5);
        lemma_calm("] = [0; "@);
    }
    assert(calm("];\n\tlet mut end_indices: [u32; "@)) by {
        reveal_strlit("];\n\tlet mut end_indices: [u32; ");
        assert("];\n\tlet mut end_indices: [u32; "@.len() == 31);
        reveal_with_fuel(plain_between, 7);
        lemma_calm("];\n\tlet mut end_indices: [u32; "@);
    }
    assert(calm("];"@)) by {
        reveal_strlit("];");
        assert("];"@.len() == 2);
        reveal_with_fuel(plain_between, 3);
        lemma_calm("];"@);
    }
    assert(calm("let mut substr_index = 0;"@)) by {
        reveal_strlit("let mut substr_index = 0;");
        assert("let mut substr_index = 0;"@.len() == 25);
        reveal_with_fuel(plain_between, 7);
        lemma_calm("let mut substr_index = 0;"@);
    }
}

/// All of the fixed text is calm.
pub proof fn fixed_text_is_calm()
    ensures
        calm(CONSTRAIN_HEAD@),
        calm(CONSTRAIN_BODY@),
        calm(CONSTRAIN_COMMENT@),
        calm(CONSTRAIN_LOOP@),
        calm(CONSTRAIN_EACH@),
        calm(MATCH_HEAD@),
        calm(MATCH_CALL@),
        calm(MATCH_CONSTRAIN@),
        calm(MATCH_CONSTRAIN_ARGUMENTS@),
        calm(MATCH_START@),
        calm(MATCH_LOOP@),
        calm(MATCH_RESTART@),
        calm(MATCH_RANGE@),
        calm(MATCH_CASES@),
        calm(MATCH_FOUND@),
        calm(MATCH_END@),
        calm(EXTRACT_HEAD@),
        calm(EXTRACT_COMMENT@),
        calm(EXTRACT_SUBSTRINGS@),
        calm(EXTRACT_VARIABLES@),
        calm(EXTRACT_START@),
        calm(EXTRACT_STATE@),
        calm(EXTRACT_LOOP@),
        calm(EXTRACT_RESTART@),
        calm(EXTRACT_ACCEPT@),
        calm(EXTRACT_RESULT@),
        calm(EXTRACT_END@),
        calm(BRANCH_START_INDEX@),
        calm(BRANCH_OPEN@),
        calm(BRANCH_BODY@),
        calm(STEP_RESET@),
        calm(STEP_COMPLETE@),
        calm(STEP_END@),
        calm(SAVE_INDICES@),
        calm(PLAIN_HEAD@),
        calm(PLAIN_START@),
        calm(PLAIN_LOOP@),
        calm(PLAIN_ACCEPT@),
        calm(PLAIN_END@),
{
    lemma_constrain_head();
    lemma_constrain_body();
    lemma_constrain_comment();
    lemma_constrain_loop();
    lemma_constrain_each();
    lemma_match_head();
    lemma_match_call();
    lemma_match_constrain();
    lemma_match_constrain_arguments();
    lemma_match_start();
    lemma_match_loop();
    lemma_match_restart();
    lemma_match_range();
    lemma_match_cases();
    lemma_match_found();
    lemma_match_end();
    lemma_extract_head();
    lemma_extract_comment();
    lemma_extract_substrings();
    lemma_extract_variables();
    lemma_extract_start();
    lemma_extract_state();
    lemma_extract_loop();
    lemma_extract_restart();
    lemma_extract_accept();
    lemma_extract_result();
    lemma_extract_end();
    lemma_branch_start_index();
    lemma_branch_open();
    lemma_branch_body();
    lemma_step_reset();
    lemma_step_complete();
    lemma_step_end();
    lemma_save_indices();
    lemma_plain_head();
    lemma_plain_start();
    lemma_plain_loop();
    lemma_plain_accept();
    lemma_plain_end();
}

} // verus!
