//! The fixed text of the generated programs: what stands between the parts that depend on the
//! regular expression.

use vstd::prelude::*;

verus! {

/// The declaration of the table, up to its length.
pub const TABLE_TYPE: &'static str = "\nglobal table: [Field; ";

/// The function that fills the table, up to the length of the table.
pub const TABLE_CONSTRUCTOR: &'static str = "] = comptime { make_lookup_table() };\n\ncomptime fn make_lookup_table() -> [Field; ";

/// The table before it is filled, up to its length.
pub const TABLE_ZEROS: &'static str = "] {\n    let mut table = [0; ";

/// What stands before the assignments to the table.
pub const TABLE_ASSIGNMENTS: &'static str = "];\n    ";

/// What stands behind the assignments to the table.
pub const TABLE_END: &'static str = r#"
    table
}

        "#;

/// The declaration of a sparse table, up to its value.
pub const SPARSE_TABLE: &'static str = "\nglobal table: ";

/// What stands behind the value of a sparse table.
pub const SPARSE_TABLE_END: &'static str = "\n\n            ";

/// The function that constrains the substrings, up to the parameters that locate them.
pub const CONSTRAIN_HEAD: &'static str = "pub fn constrain_substrings<let INPUT_LEN: u32, let NUM_SUBSTRINGS: u32>(\n    input: [u8; INPUT_LEN], \n    substrings: BoundedVec<BoundedVec<Field, INPUT_LEN>, NUM_SUBSTRINGS>, \n    ";

/// What stands behind the parameters that locate the substrings.
pub const CONSTRAIN_BODY: &'static str = "\n) {\n    ";

/// The comment on what is constrained.
pub const CONSTRAIN_COMMENT: &'static str = "// constrain substring";

/// The loop that compares a substring with the input.
pub const CONSTRAIN_LOOP: &'static str = r#"
      let mut substr_index = 0;
      for j in 0..INPUT_LEN {
          let substr_char = substring.get_unchecked(substr_index);
          let input_char = input[j];
          if (j >= start) & (j < end - 1) {
              assert(substr_char as u8 == input_char);
              substr_index += 1;
          }
      }"#;

/// The start of the loop over several substrings.
pub const CONSTRAIN_EACH: &'static str = r#"
  for j in 0..NUM_SUBSTRINGS {
      let substring = substrings.get_unchecked((j));
      let start = start_indices[j];
      let end = end_indices[j];"#;

/// The function that matches and extracts, up to the number of substrings.
pub const MATCH_HEAD: &'static str = "pub fn regex_match<let N: u32>(input: [u8; N]) -> BoundedVec<BoundedVec<Field, N>, ";

/// What stands before the places of the substrings.
pub const MATCH_CALL: &'static str = "> {\n    let (substrings, ";

/// The call of the function that constrains the substrings, up to their number.
pub const MATCH_CONSTRAIN: &'static str = r#") = unsafe { __regex_match(input) };

    // constrain extracted substrings
    constrain_substrings::<N, "#;

/// The arguments of that call, up to the places of the substrings.
pub const MATCH_CONSTRAIN_ARGUMENTS: &'static str = ">(input, substrings, ";

/// What stands before the first state.
pub const MATCH_START: &'static str = ");\n    \n    // \"Previous\" state\n    let mut s: Field = 0;\n    s = ";

/// The loop over the input, up to the next state.
pub const MATCH_LOOP: &'static str = r#";
    // "Next"/upcoming state
    let mut s_next: Field = 0;

    // check the match
    for i in 0..N {
        let temp = input[i] as Field;
        s_next = "#;

/// What stands before the next state after a restart.
pub const MATCH_RESTART: &'static str = ";\n        let potential_s_next = ";

/// The restart, up to the test whether the byte is in range.
pub const MATCH_RANGE: &'static str = r#";
        if s_next == 0 {
            s = 0;
            s_next = potential_s_next;
        }
        std::as_witness(s_next);

        let range = "#;

/// What stands before the list of cases.
pub const MATCH_CASES: &'static str = ";\n        let cases = ";

/// The test of the cases, up to the condition on the last state.
pub const MATCH_FOUND: &'static str = r#"
        // idk why have to say == true
        let found = cases.any(|case|  case == true | range == false );
        s = s_next;
        assert(found, "no match");
    }
    // check final state
    assert("#;

/// The end of the function that matches and extracts.
pub const MATCH_END: &'static str = r#", f"no match: {s}");

    substrings
}"#;

/// The function that finds the substrings, up to its return type.
pub const EXTRACT_HEAD: &'static str = "pub unconstrained fn __regex_match<let N: u32>(input: [u8; N]) -> ";

/// What stands before the regular expression.
pub const EXTRACT_COMMENT: &'static str = " {\n    // regex: ";

/// What stands before the number of substrings.
pub const EXTRACT_SUBSTRINGS: &'static str = "\n    let mut substrings: BoundedVec<BoundedVec<Field, N>, ";

/// What stands behind the number of substrings.
pub const EXTRACT_VARIABLES: &'static str = "> = BoundedVec::new();\n    ";

/// What stands before the first state.
pub const EXTRACT_START: &'static str = r#"

    // "Previous" state
    let mut s: Field = 0;
    s = "#;

/// The variables of the search.
pub const EXTRACT_STATE: &'static str = r#";
    // "Next"/upcoming state
    let mut s_next: Field = 0;

    let mut consecutive_substr = 0;
    let mut current_substring = BoundedVec::new();
    let mut start_index = 0;
    let mut end_index = 0;
    let mut complete = false;
    "#;

/// The loop over the input, up to the next state.
pub const EXTRACT_LOOP: &'static str = r#"

    for i in 0..input.len() {
        let temp = input[i] as Field;
        let mut reset = false;
        s_next = "#;

/// The restart, up to the steps that collect the substrings.
pub const EXTRACT_RESTART: &'static str = r#";
        if s_next == 0 {
            reset = true;
            s = 0;
            s_next = potential_s_next;
        }
        // If a substring was in the making, but the state was reset
        // we disregard previous progress because apparently it is invalid
        if (reset & (consecutive_substr == 1)) {
            current_substring = BoundedVec::new();
            consecutive_substr = 0;
        }
        // Fill up substrings
"#;

/// What stands behind these steps, up to the condition on the last state.
pub const EXTRACT_ACCEPT: &'static str = r#"
        s = s_next;
    }
    assert("#;

/// The last substring, up to the places of the substrings.
pub const EXTRACT_RESULT: &'static str = r#", f"no match: {s}");
    // Add pending substring that hasn't been added
    if consecutive_substr == 1 {
        substrings.push(current_substring);
    }
    (substrings, "#;

/// The end of the function that finds the substrings.
pub const EXTRACT_END: &'static str = ")\n}";

/// Notes where the first substring starts.
pub const BRANCH_START_INDEX: &'static str = "\tif (consecutive_substr == 0) {\n        start_index = i;\n    };\n";

/// What stands behind the condition of a substring.
pub const BRANCH_OPEN: &'static str = ") {\n    ";

/// Adds a byte to a substring.
pub const BRANCH_BODY: &'static str = "\n    current_substring.push(temp);\n    consecutive_substr = 1;   \n}";

/// Drops the substrings when the match starts over, up to the condition that ends it.
pub const STEP_RESET: &'static str = r#" else if ((consecutive_substr == 1) & (s_next == 0)) {
    current_substring = BoundedVec::new();
    substrings = BoundedVec::new();
    consecutive_substr = 0;
    start_index = 0;
    end_index = 0;
} else if "#;

/// Ends the match, and keeps a substring that is complete.
pub const STEP_COMPLETE: &'static str = r#" {
    end_index = i;
    complete = true;
    break;
} else if (consecutive_substr == 1) {
    // The substring is done so "save" it
    substrings.push(current_substring);
    // reset the substring holder for next use
    current_substring = BoundedVec::new();
    consecutive_substr = 0;
    "#;

/// The end of the steps.
pub const STEP_END: &'static str = "\n}";

/// Notes where a substring starts and ends.
pub const SAVE_INDICES: &'static str = "start_indices[substr_index] = start_index;\n\tend_indices[substr_index] = end_index;\n\tsubstr_index += 1;";

/// The function that only matches, up to the regular expression.
pub const PLAIN_HEAD: &'static str = "pub fn regex_match<let N: u32>(input: [u8; N]) {\n    // regex: ";

/// What stands before the first state.
pub const PLAIN_START: &'static str = "\n    let mut s = 0;\n    s = ";

/// The loop over the input, up to the next state.
pub const PLAIN_LOOP: &'static str = r#";
    for i in 0..input.len() {
        let s_idx = s * 256 + input[i] as Field;
        std::as_witness(s_idx);
        s = "#;

/// What stands before the condition on the last state.
pub const PLAIN_ACCEPT: &'static str = ";\n    }\n    assert(";

/// The end of the function that only matches.
pub const PLAIN_END: &'static str = ", f\"no match: {s}\");\n}";

} // verus!
