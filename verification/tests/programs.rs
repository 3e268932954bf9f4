//! Whole programs, compared text by text.

use noir_regex::noir::{access_table, check_supported, to_noir_fn, Unsupported};
use noir_regex::structs::{DFAGraph, DFAStateNode, RegexAndDFA, SubstringDefinitions};
use noir_regex::table::{check_keys_fit, sparse_entries, sparse_input, table_size, transition_rows};
use std::collections::{BTreeMap, BTreeSet};

fn state(state_type: &str, state_id: usize, edges: &[(usize, &[u8])]) -> DFAStateNode {
    let mut transitions: BTreeMap<usize, BTreeSet<u8>> = BTreeMap::new();
    for (to, bytes) in edges {
        transitions.insert(*to, bytes.iter().copied().collect());
    }
    DFAStateNode { state_type: state_type.to_owned(), state_id, transitions }
}

/// An automaton of four states. Edges and bytes are given out of order.
fn regex(pattern: &str, substrings: &[&[(usize, usize)]], has_end_anchor: bool) -> RegexAndDFA {
    RegexAndDFA {
        regex_pattern: pattern.to_owned(),
        dfa: DFAGraph {
            states: vec![
                state("", 0, &[(2, &[98, 97]), (1, &[255])]),
                state("", 1, &[(2, &[97])]),
                state("", 2, &[(3, &[122])]),
                state("accept", 3, &[]),
            ],
        },
        has_end_anchor,
        substrings: SubstringDefinitions {
            substring_ranges: substrings.iter().map(|s| s.iter().copied().collect()).collect(),
        },
    }
}

/// The rows of that automaton, without those of the states behind a match.
const AUTOMATON_ROWS: [(usize, u8, usize); 5] =
    [(0, 255, 1), (0, 97, 2), (0, 98, 2), (1, 97, 2), (2, 122, 3)];

/// The declaration of the table of that automaton.
fn dense_table(has_end_anchor: bool) -> String {
    let mut rows: Vec<(usize, u8, usize)> = Vec::new();
    if !has_end_anchor {
        for byte in 0..=254u8 {
            rows.push((3, byte, 4));
            rows.push((4, byte, 4));
        }
    }
    rows.extend(AUTOMATON_ROWS);
    let mut body = String::new();
    for (from, byte, to) in rows {
        body.push_str(&format!("    table[{from} * 256 + {byte}] = {to};\n"));
    }
    let size = if has_end_anchor { 1024 } else { 1280 };
    format!(
        "global table: [Field; {size}] = comptime {{ make_lookup_table() }};\n\n\
         comptime fn make_lookup_table() -> [Field; {size}] {{\n    \
         let mut table = [0; {size}];\n    {body}\n    table\n}}\n\n        "
    )
}

#[test]
fn matches_with_a_sparse_table() {
    let expected = r#"global table: SPARSE

            
pub fn regex_match<let N: u32>(input: [u8; N]) {
    // regex: a\nb\r$x
    let mut s = 0;
    s = table.get(255);
    for i in 0..input.len() {
        let s_idx = s * 256 + input[i] as Field;
        std::as_witness(s_idx);
        s = table.get(s_idx);
    }
    assert((s == 3) | (s == 4), f"no match: {s}");
}"#;
    assert_eq!(to_noir_fn(&regex("a\nb\r$x", &[], false), false, Some("SPARSE")), expected);
}

#[test]
fn matches_with_a_dense_table() {
    let expected = dense_table(false) + r#"
pub fn regex_match<let N: u32>(input: [u8; N]) {
    // regex: [ab]z
    let mut s = 0;
    s = table[255];
    for i in 0..input.len() {
        let s_idx = s * 256 + input[i] as Field;
        std::as_witness(s_idx);
        s = table[s_idx];
    }
    assert((s == 3) | (s == 4), f"no match: {s}");
}"#;
    assert_eq!(to_noir_fn(&regex("[ab]z", &[], false), false, None), expected);
}

#[test]
fn matches_with_an_end_anchor_and_a_dense_table() {
    let expected = dense_table(true) + r#"
pub fn regex_match<let N: u32>(input: [u8; N]) {
    // regex: [ab]z$
    let mut s = 0;
    s = table[255];
    for i in 0..input.len() {
        let s_idx = s * 256 + input[i] as Field;
        std::as_witness(s_idx);
        s = table[s_idx];
    }
    assert((s == 3), f"no match: {s}");
}"#;
    assert_eq!(to_noir_fn(&regex("[ab]z$", &[], true), false, None), expected);
}

#[test]
fn matches_with_an_end_anchor_and_a_sparse_table() {
    let expected = r#"global table: SPARSE

            
pub fn regex_match<let N: u32>(input: [u8; N]) {
    // regex: [ab]z$
    let mut s = 0;
    s = table.get(255);
    for i in 0..input.len() {
        let s_idx = s * 256 + input[i] as Field;
        std::as_witness(s_idx);
        s = table.get(s_idx);
    }
    assert((s == 3), f"no match: {s}");
}"#;
    assert_eq!(to_noir_fn(&regex("[ab]z$", &[&[(0, 2)][..]], true), false, Some("SPARSE")), expected);
}

#[test]
fn extracts_two_substrings_with_a_sparse_table() {
    let expected = r#"global table: SPARSE

            

pub fn constrain_substrings<let INPUT_LEN: u32, let NUM_SUBSTRINGS: u32>(
    input: [u8; INPUT_LEN], 
    substrings: BoundedVec<BoundedVec<Field, INPUT_LEN>, NUM_SUBSTRINGS>, 
    start_indices: [u32; NUM_SUBSTRINGS],
	end_indices: [u32; NUM_SUBSTRINGS]
) {
    // constrain substrings 
  for j in 0..NUM_SUBSTRINGS {
      let substring = substrings.get_unchecked((j));
      let start = start_indices[j];
      let end = end_indices[j];
      let mut substr_index = 0;
      for j in 0..INPUT_LEN {
          let substr_char = substring.get_unchecked(substr_index);
          let input_char = input[j];
          if (j >= start) & (j < end - 1) {
              assert(substr_char as u8 == input_char);
              substr_index += 1;
          }
      }
}
}

pub fn regex_match<let N: u32>(input: [u8; N]) -> BoundedVec<BoundedVec<Field, N>, 2> {
    let (substrings, start_indices, end_indices) = unsafe { __regex_match(input) };

    // constrain extracted substrings
    constrain_substrings::<N, 2>(input, substrings, start_indices, end_indices);
    
    // "Previous" state
    let mut s: Field = 0;
    s = table.get(255);
    // "Next"/upcoming state
    let mut s_next: Field = 0;

    // check the match
    for i in 0..N {
        let temp = input[i] as Field;
        s_next = table.get(s * 256 + temp);
        let potential_s_next = table.get(temp);
        if s_next == 0 {
            s = 0;
            s_next = potential_s_next;
        }
        std::as_witness(s_next);

        let range = i >= start_indices[0] & i <= end_indices[2];
        let cases = [
            (s == 0) & (s_next == 2),
            (s == 1) & (s_next == 2),
            (s == 2) & (s_next == 3),
            (s == 3) & (s_next == 4),
            (s == 4) & (s_next == 4)
		];
        // idk why have to say == true
        let found = cases.any(|case|  case == true | range == false );
        s = s_next;
        assert(found, "no match");
    }
    // check final state
    assert((s == 3) | (s == 4), f"no match: {s}");

    substrings
}

pub unconstrained fn __regex_match<let N: u32>(input: [u8; N]) -> (BoundedVec<BoundedVec<Field, N>, 2>, [u32; 2], [u32; 2]) {
    // regex: a\nb\r$x
    let mut substrings: BoundedVec<BoundedVec<Field, N>, 2> = BoundedVec::new();
    let mut start_indices: [u32; 2] = [0; 2];
	let mut end_indices: [u32; 2] = [0; 2];

    // "Previous" state
    let mut s: Field = 0;
    s = table.get(255);
    // "Next"/upcoming state
    let mut s_next: Field = 0;

    let mut consecutive_substr = 0;
    let mut current_substring = BoundedVec::new();
    let mut start_index = 0;
    let mut end_index = 0;
    let mut complete = false;
    let mut substr_index = 0;

    for i in 0..input.len() {
        let temp = input[i] as Field;
        let mut reset = false;
        s_next = table.get(s * 256 + temp);
        let potential_s_next = table.get(temp);
        if s_next == 0 {
            reset = true;
            s = 0;
            s_next = potential_s_next;
        }
        // If a substring was in the making, but the state was reset
        // we disregard previous progress because apparently it is invalid
        if (reset & (consecutive_substr == 1)) {
            current_substring = BoundedVec::new();
            consecutive_substr = 0;
        }
        // Fill up substrings
        if ((s == 0) & (s_next == 2) | (s == 1) & (s_next == 2)) {
            	if (consecutive_substr == 0) {
                start_index = i;
            };

            current_substring.push(temp);
            consecutive_substr = 1;   
        }
        else if ((s == 2) & (s_next == 3)) {
    
            current_substring.push(temp);
            consecutive_substr = 1;   
        } else if ((consecutive_substr == 1) & (s_next == 0)) {
            current_substring = BoundedVec::new();
            substrings = BoundedVec::new();
            consecutive_substr = 0;
            start_index = 0;
            end_index = 0;
        } else if (s == 3) & (s_next == 4) {
            end_index = i;
            complete = true;
            break;
        } else if (consecutive_substr == 1) {
            // The substring is done so "save" it
            substrings.push(current_substring);
            // reset the substring holder for next use
            current_substring = BoundedVec::new();
            consecutive_substr = 0;
            start_indices[substr_index] = start_index;
        	end_indices[substr_index] = end_index;
        	substr_index += 1;
        }
        s = s_next;
    }
    assert((s == 3) | (s == 4), f"no match: {s}");
    // Add pending substring that hasn't been added
    if consecutive_substr == 1 {
        substrings.push(current_substring);
    }
    (substrings, start_indices, end_indices)
}"#;
    assert_eq!(to_noir_fn(&regex("a\nb\r$x", &[&[(1, 2), (0, 2)][..], &[(2, 3)][..]], false), true, Some("SPARSE")), expected);
}

#[test]
fn extracts_one_substring_with_a_dense_table() {
    let expected = dense_table(false) + r#"

pub fn constrain_substrings<let INPUT_LEN: u32, let NUM_SUBSTRINGS: u32>(
    input: [u8; INPUT_LEN], 
    substrings: BoundedVec<BoundedVec<Field, INPUT_LEN>, NUM_SUBSTRINGS>, 
    start: u32,
	end: u32
) {
    let substring = substrings.get_unchecked(0);
// constrain substring 
      let mut substr_index = 0;
      for j in 0..INPUT_LEN {
          let substr_char = substring.get_unchecked(substr_index);
          let input_char = input[j];
          if (j >= start) & (j < end - 1) {
              assert(substr_char as u8 == input_char);
              substr_index += 1;
          }
      }
}

pub fn regex_match<let N: u32>(input: [u8; N]) -> BoundedVec<BoundedVec<Field, N>, 1> {
    let (substrings, start, end) = unsafe { __regex_match(input) };

    // constrain extracted substrings
    constrain_substrings::<N, 1>(input, substrings, start, end);
    
    // "Previous" state
    let mut s: Field = 0;
    s = table[255];
    // "Next"/upcoming state
    let mut s_next: Field = 0;

    // check the match
    for i in 0..N {
        let temp = input[i] as Field;
        s_next = table[s * 256 + temp];
        let potential_s_next = table[temp];
        if s_next == 0 {
            s = 0;
            s_next = potential_s_next;
        }
        std::as_witness(s_next);

        let range = i >= start & i <= end;
        let cases = [
            (s == 0) & (s_next == 2),
            (s == 1) & (s_next == 2),
            (s == 3) & (s_next == 4),
            (s == 4) & (s_next == 4)
		];
        // idk why have to say == true
        let found = cases.any(|case|  case == true | range == false );
        s = s_next;
        assert(found, "no match");
    }
    // check final state
    assert((s == 3) | (s == 4), f"no match: {s}");

    substrings
}

pub unconstrained fn __regex_match<let N: u32>(input: [u8; N]) -> (BoundedVec<BoundedVec<Field, N>, 1>, u32, u32) {
    // regex: [ab]z
    let mut substrings: BoundedVec<BoundedVec<Field, N>, 1> = BoundedVec::new();
    

    // "Previous" state
    let mut s: Field = 0;
    s = table[255];
    // "Next"/upcoming state
    let mut s_next: Field = 0;

    let mut consecutive_substr = 0;
    let mut current_substring = BoundedVec::new();
    let mut start_index = 0;
    let mut end_index = 0;
    let mut complete = false;
    

    for i in 0..input.len() {
        let temp = input[i] as Field;
        let mut reset = false;
        s_next = table[s * 256 + temp];
        let potential_s_next = table[temp];
        if s_next == 0 {
            reset = true;
            s = 0;
            s_next = potential_s_next;
        }
        // If a substring was in the making, but the state was reset
        // we disregard previous progress because apparently it is invalid
        if (reset & (consecutive_substr == 1)) {
            current_substring = BoundedVec::new();
            consecutive_substr = 0;
        }
        // Fill up substrings
        if ((s == 0) & (s_next == 2) | (s == 1) & (s_next == 2)) {
            	if (consecutive_substr == 0) {
                start_index = i;
            };

            current_substring.push(temp);
            consecutive_substr = 1;   
        } else if ((consecutive_substr == 1) & (s_next == 0)) {
            current_substring = BoundedVec::new();
            substrings = BoundedVec::new();
            consecutive_substr = 0;
            start_index = 0;
            end_index = 0;
        } else if (s == 3) & (s_next == 4) {
            end_index = i;
            complete = true;
            break;
        } else if (consecutive_substr == 1) {
            // The substring is done so "save" it
            substrings.push(current_substring);
            // reset the substring holder for next use
            current_substring = BoundedVec::new();
            consecutive_substr = 0;
    
        }
        s = s_next;
    }
    assert((s == 3) | (s == 4), f"no match: {s}");
    // Add pending substring that hasn't been added
    if consecutive_substr == 1 {
        substrings.push(current_substring);
    }
    (substrings, start_index, end_index)
}"#;
    assert_eq!(to_noir_fn(&regex("[ab]z", &[&[(1, 2), (0, 2)][..]], false), true, None), expected);
}

#[test]
fn extracts_no_substring_with_a_sparse_table() {
    let expected = r#"global table: SparseArray { }

            

pub fn constrain_substrings<let INPUT_LEN: u32, let NUM_SUBSTRINGS: u32>(
    input: [u8; INPUT_LEN], 
    substrings: BoundedVec<BoundedVec<Field, INPUT_LEN>, NUM_SUBSTRINGS>, 
    start: u32,
	end: u32
) {
    let substring = substrings.get_unchecked(0);
// constrain substring 
      let mut substr_index = 0;
      for j in 0..INPUT_LEN {
          let substr_char = substring.get_unchecked(substr_index);
          let input_char = input[j];
          if (j >= start) & (j < end - 1) {
              assert(substr_char as u8 == input_char);
              substr_index += 1;
          }
      }
}

pub fn regex_match<let N: u32>(input: [u8; N]) -> BoundedVec<BoundedVec<Field, N>, 0> {
    let (substrings, start, end) = unsafe { __regex_match(input) };

    // constrain extracted substrings
    constrain_substrings::<N, 0>(input, substrings, start, end);
    
    // "Previous" state
    let mut s: Field = 0;
    s = table.get(255);
    // "Next"/upcoming state
    let mut s_next: Field = 0;

    // check the match
    for i in 0..N {
        let temp = input[i] as Field;
        s_next = table.get(s * 256 + temp);
        let potential_s_next = table.get(temp);
        if s_next == 0 {
            s = 0;
            s_next = potential_s_next;
        }
        std::as_witness(s_next);

        let range = i >= start & i <= end;
        let cases = [

            (s == 3) & (s_next == 4),
            (s == 4) & (s_next == 4)
		];
        // idk why have to say == true
        let found = cases.any(|case|  case == true | range == false );
        s = s_next;
        assert(found, "no match");
    }
    // check final state
    assert((s == 3) | (s == 4), f"no match: {s}");

    substrings
}

pub unconstrained fn __regex_match<let N: u32>(input: [u8; N]) -> (BoundedVec<BoundedVec<Field, N>, 0>, u32, u32) {
    // regex: [ab]z
    let mut substrings: BoundedVec<BoundedVec<Field, N>, 0> = BoundedVec::new();
    

    // "Previous" state
    let mut s: Field = 0;
    s = table.get(255);
    // "Next"/upcoming state
    let mut s_next: Field = 0;

    let mut consecutive_substr = 0;
    let mut current_substring = BoundedVec::new();
    let mut start_index = 0;
    let mut end_index = 0;
    let mut complete = false;
    

    for i in 0..input.len() {
        let temp = input[i] as Field;
        let mut reset = false;
        s_next = table.get(s * 256 + temp);
        let potential_s_next = table.get(temp);
        if s_next == 0 {
            reset = true;
            s = 0;
            s_next = potential_s_next;
        }
        // If a substring was in the making, but the state was reset
        // we disregard previous progress because apparently it is invalid
        if (reset & (consecutive_substr == 1)) {
            current_substring = BoundedVec::new();
            consecutive_substr = 0;
        }
        // Fill up substrings
         else if ((consecutive_substr == 1) & (s_next == 0)) {
            current_substring = BoundedVec::new();
            substrings = BoundedVec::new();
            consecutive_substr = 0;
            start_index = 0;
            end_index = 0;
        } else if (s == 3) & (s_next == 4) {
            end_index = i;
            complete = true;
            break;
        } else if (consecutive_substr == 1) {
            // The substring is done so "save" it
            substrings.push(current_substring);
            // reset the substring holder for next use
            current_substring = BoundedVec::new();
            consecutive_substr = 0;
    
        }
        s = s_next;
    }
    assert((s == 3) | (s == 4), f"no match: {s}");
    // Add pending substring that hasn't been added
    if consecutive_substr == 1 {
        substrings.push(current_substring);
    }
    (substrings, start_index, end_index)
}"#;
    assert_eq!(to_noir_fn(&regex("[ab]z", &[], false), true, Some("SparseArray { }")), expected);
}

#[test]
fn extracts_three_substrings_with_an_empty_one() {
    let expected = r#"global table: S

            

pub fn constrain_substrings<let INPUT_LEN: u32, let NUM_SUBSTRINGS: u32>(
    input: [u8; INPUT_LEN], 
    substrings: BoundedVec<BoundedVec<Field, INPUT_LEN>, NUM_SUBSTRINGS>, 
    start_indices: [u32; NUM_SUBSTRINGS],
	end_indices: [u32; NUM_SUBSTRINGS]
) {
    // constrain substrings 
  for j in 0..NUM_SUBSTRINGS {
      let substring = substrings.get_unchecked((j));
      let start = start_indices[j];
      let end = end_indices[j];
      let mut substr_index = 0;
      for j in 0..INPUT_LEN {
          let substr_char = substring.get_unchecked(substr_index);
          let input_char = input[j];
          if (j >= start) & (j < end - 1) {
              assert(substr_char as u8 == input_char);
              substr_index += 1;
          }
      }
}
}

pub fn regex_match<let N: u32>(input: [u8; N]) -> BoundedVec<BoundedVec<Field, N>, 3> {
    let (substrings, start_indices, end_indices) = unsafe { __regex_match(input) };

    // constrain extracted substrings
    constrain_substrings::<N, 3>(input, substrings, start_indices, end_indices);
    
    // "Previous" state
    let mut s: Field = 0;
    s = table.get(255);
    // "Next"/upcoming state
    let mut s_next: Field = 0;

    // check the match
    for i in 0..N {
        let temp = input[i] as Field;
        s_next = table.get(s * 256 + temp);
        let potential_s_next = table.get(temp);
        if s_next == 0 {
            s = 0;
            s_next = potential_s_next;
        }
        std::as_witness(s_next);

        let range = i >= start_indices[0] & i <= end_indices[3];
        let cases = [
            (s == 1) & (s_next == 2),

            (s == 2) & (s_next == 3),
            (s == 10) & (s_next == 2),
            (s == 3) & (s_next == 4),
            (s == 4) & (s_next == 4)
		];
        // idk why have to say == true
        let found = cases.any(|case|  case == true | range == false );
        s = s_next;
        assert(found, "no match");
    }
    // check final state
    assert((s == 3) | (s == 4), f"no match: {s}");

    substrings
}

pub unconstrained fn __regex_match<let N: u32>(input: [u8; N]) -> (BoundedVec<BoundedVec<Field, N>, 3>, [u32; 3], [u32; 3]) {
    // regex: x
    let mut substrings: BoundedVec<BoundedVec<Field, N>, 3> = BoundedVec::new();
    let mut start_indices: [u32; 3] = [0; 3];
	let mut end_indices: [u32; 3] = [0; 3];

    // "Previous" state
    let mut s: Field = 0;
    s = table.get(255);
    // "Next"/upcoming state
    let mut s_next: Field = 0;

    let mut consecutive_substr = 0;
    let mut current_substring = BoundedVec::new();
    let mut start_index = 0;
    let mut end_index = 0;
    let mut complete = false;
    let mut substr_index = 0;

    for i in 0..input.len() {
        let temp = input[i] as Field;
        let mut reset = false;
        s_next = table.get(s * 256 + temp);
        let potential_s_next = table.get(temp);
        if s_next == 0 {
            reset = true;
            s = 0;
            s_next = potential_s_next;
        }
        // If a substring was in the making, but the state was reset
        // we disregard previous progress because apparently it is invalid
        if (reset & (consecutive_substr == 1)) {
            current_substring = BoundedVec::new();
            consecutive_substr = 0;
        }
        // Fill up substrings
        if ((s == 1) & (s_next == 2)) {
            	if (consecutive_substr == 0) {
                start_index = i;
            };

            current_substring.push(temp);
            consecutive_substr = 1;   
        }
        else if () {
    
            current_substring.push(temp);
            consecutive_substr = 1;   
        }
        else if ((s == 2) & (s_next == 3) | (s == 10) & (s_next == 2)) {
    
            current_substring.push(temp);
            consecutive_substr = 1;   
        } else if ((consecutive_substr == 1) & (s_next == 0)) {
            current_substring = BoundedVec::new();
            substrings = BoundedVec::new();
            consecutive_substr = 0;
            start_index = 0;
            end_index = 0;
        } else if (s == 3) & (s_next == 4) {
            end_index = i;
            complete = true;
            break;
        } else if (consecutive_substr == 1) {
            // The substring is done so "save" it
            substrings.push(current_substring);
            // reset the substring holder for next use
            current_substring = BoundedVec::new();
            consecutive_substr = 0;
            start_indices[substr_index] = start_index;
        	end_indices[substr_index] = end_index;
        	substr_index += 1;
        }
        s = s_next;
    }
    assert((s == 3) | (s == 4), f"no match: {s}");
    // Add pending substring that hasn't been added
    if consecutive_substr == 1 {
        substrings.push(current_substring);
    }
    (substrings, start_indices, end_indices)
}"#;
    assert_eq!(to_noir_fn(&regex("x", &[&[(1, 2)][..], &[][..], &[(10, 2), (2, 3)][..]], false), true, Some("S")), expected);
}

#[test]
fn table_is_accessed_by_index_or_by_key() {
    assert_eq!(access_table("s_idx", false), "table[s_idx]");
    assert_eq!(access_table("s_idx", true), "table.get(s_idx)");
    assert_eq!(access_table("", true), "table.get()");
}

#[test]
fn rows_come_in_order() {
    let rows = transition_rows(&regex("", &[], false));
    assert_eq!(rows.len(), 515);
    assert_eq!(&rows[..4], &[(3, 0, 4), (4, 0, 4), (3, 1, 4), (4, 1, 4)]);
    assert_eq!(&rows[508..510], &[(3, 254, 4), (4, 254, 4)]);
    assert_eq!(&rows[510..], &AUTOMATON_ROWS);
}

#[test]
fn nothing_follows_an_end_anchor() {
    let anchored = regex("", &[], true);
    assert_eq!(transition_rows(&anchored), AUTOMATON_ROWS.to_vec());
    assert_eq!(table_size(&anchored), 1024);
    assert_eq!(table_size(&regex("", &[], false)), 1280);
}

#[test]
fn sparse_entries_follow_the_rows() {
    let rows = transition_rows(&regex("", &[], true));
    assert!(check_keys_fit(&rows));
    let entries = sparse_entries(&rows);
    assert_eq!(entries.keys, vec![255, 97, 98, 353, 634]);
    assert_eq!(entries.values, vec![1, 2, 2, 2, 3]);
}

#[test]
fn sparse_keys_must_be_countable() {
    let last = usize::MAX / 256;
    assert!(check_keys_fit(&vec![(last, 255, 0)]));
    assert_eq!(sparse_entries(&vec![(last, 255, 0)]).keys, vec![usize::MAX]);
    assert!(!check_keys_fit(&vec![(0, 0, 0), (last + 1, 0, 0)]));
}

#[test]
fn sparse_input_is_the_whole_table() {
    let (entries, size) = sparse_input(&regex("", &[], true)).unwrap();
    assert_eq!(entries.keys, vec![255, 97, 98, 353, 634]);
    assert_eq!(entries.values, vec![1, 2, 2, 2, 3]);
    assert_eq!(size, 1024);
    let (entries, size) = sparse_input(&regex("", &[], false)).unwrap();
    assert_eq!(entries.keys.len(), 515);
    assert_eq!(&entries.keys[..3], &[768, 1024, 769]);
    assert_eq!(&entries.values[..3], &[4, 4, 4]);
    assert_eq!(&entries.keys[510..], &[255, 97, 98, 353, 634]);
    assert_eq!(size, 1280);
    let mut large = regex("", &[], true);
    large.dfa.states[1].state_id = usize::MAX;
    assert!(sparse_input(&large).is_none());
}

#[test]
fn exactly_one_accepting_state_is_supported() {
    for gen_substrs in [false, true] {
        let mut none = regex("", &[], false);
        none.dfa.states.pop();
        assert_eq!(check_supported(&none, gen_substrs), Err(Unsupported::AcceptStates));
        let mut two = regex("", &[], true);
        two.dfa.states.push(state("accept", 4, &[]));
        assert_eq!(check_supported(&two, gen_substrs), Err(Unsupported::AcceptStates));
        assert_eq!(check_supported(&regex("", &[], false), gen_substrs), Ok(()));
    }
}

#[test]
fn end_anchor_is_supported_without_substrings() {
    assert_eq!(check_supported(&regex("", &[], true), false), Ok(()));
    assert_eq!(check_supported(&regex("", &[], true), true), Err(Unsupported::EndAnchor));
}

#[test]
fn extra_state_needs_a_number() {
    let mut full = regex("", &[], false);
    full.dfa.states.push(state("", usize::MAX, &[]));
    assert_eq!(check_supported(&full, false), Err(Unsupported::TooLarge));
    assert_eq!(check_supported(&full, true), Err(Unsupported::TooLarge));
    full.has_end_anchor = true;
    assert_eq!(check_supported(&full, false), Ok(()));
    full.has_end_anchor = false;
    full.dfa.states[4].state_id = usize::MAX - 1;
    assert_eq!(check_supported(&full, true), Ok(()));
}

#[test]
fn table_holds_every_transition_of_the_automaton() {
    let sample = regex("", &[], false);
    let mut table = vec![0; table_size(&sample)];
    for (from, byte, to) in transition_rows(&sample) {
        table[from * 256 + byte as usize] = to;
    }
    for from in 0..=4usize {
        for byte in 0..=255u8 {
            let edge = AUTOMATON_ROWS.iter().find(|row| row.0 == from && row.1 == byte);
            let expected = match edge {
                Some(row) => row.2,
                None if from >= 3 && byte != 255 => 4,
                None => 0,
            };
            assert_eq!(table[from * 256 + byte as usize], expected);
        }
    }
}

#[test]
fn transitions_of_the_accepting_state_win_over_the_extra_state() {
    let mut sample = regex("", &[], false);
    sample.dfa.states[3] = state("accept", 3, &[(2, &[97])]);
    let rows = transition_rows(&sample);
    let last = rows.iter().rev().find(|row| row.0 == 3 && row.1 == 97);
    assert_eq!(last, Some(&(3, 97, 2)));
}

#[test]
fn lookups_reach_the_states_of_the_automaton() {
    let sample = regex("", &[], false);
    let mut table = vec![0; table_size(&sample)];
    for (from, byte, to) in transition_rows(&sample) {
        table[from * 256 + byte as usize] = to;
    }
    let look_up = |input: &[u8]| input.iter().fold(0, |s, byte| table[s * 256 + *byte as usize]);
    assert_eq!(look_up(b""), 0);
    assert_eq!(look_up(&[255, 97]), 2);
    assert_eq!(look_up(&[255, 97, 122]), 3);
    assert_eq!(look_up(&[98, 122]), 3);
    assert_eq!(look_up(&[98, 122, 0]), 4);
    assert_eq!(look_up(&[98, 122, 97, 122, 254]), 4);
    assert_eq!(look_up(&[98, 122, 255]), 0);
}

#[test]
fn end_anchor_leaves_nothing_to_follow() {
    let sample = regex("", &[], true);
    let mut table = vec![0; table_size(&sample)];
    for (from, byte, to) in transition_rows(&sample) {
        table[from * 256 + byte as usize] = to;
    }
    for byte in 0..=255u8 {
        assert_eq!(table[3 * 256 + byte as usize], 0);
    }
}

/// The functions of a program, with every access `table[X]` written `table.get(X)`.
fn keyed_functions(program: &str) -> String {
    let mut rest = &program[program.find("pub fn").unwrap()..];
    let mut out = String::new();
    while let Some(start) = rest.find("table[") {
        let index = start + "table[".len();
        let end = index + rest[index..].find(']').unwrap();
        out.push_str(&rest[..start]);
        out.push_str(&format!("table.get({})", &rest[index..end]));
        rest = &rest[end + 1..];
    }
    out + rest
}

#[test]
fn sparse_program_is_the_dense_one_with_keyed_accesses() {
    let substrings: [&[&[(usize, usize)]]; 3] = [&[], &[&[(0, 2)]], &[&[(0, 2)], &[(1, 2), (2, 3)]]];
    for ranges in substrings {
        for gen_substrs in [false, true] {
            let sample = regex("e[a]\ntabl[e]", ranges, false);
            let dense = to_noir_fn(&sample, gen_substrs, None);
            let sparse = to_noir_fn(&sample, gen_substrs, Some("VALUE"));
            assert_eq!(
                sparse,
                format!(
                    "global table: VALUE\n\n            {}{}",
                    if gen_substrs { "\n\n" } else { "\n" },
                    keyed_functions(&dense)
                )
            );
        }
    }
}

#[test]
fn statements_and_sparse_entries_tell_the_same_rows() {
    let sample = regex("", &[], false);
    let dense = to_noir_fn(&sample, false, None);
    let (entries, _) = sparse_input(&sample).unwrap();
    let statements: Vec<&str> =
        dense.lines().map(|line| line.trim()).filter(|line| line.starts_with("table[")).collect();
    assert_eq!(statements.len(), entries.keys.len());
    for i in 0..statements.len() {
        let (key, value) = (entries.keys[i], entries.values[i]);
        assert_eq!(statements[i], format!("table[{} * 256 + {}] = {};", key / 256, key % 256, value));
    }
}

#[test]
fn regex_comment_stays_on_one_line() {
    let program = to_noir_fn(&regex("a\r\nb", &[], false), false, Some("T"));
    assert!(program.lines().any(|line| line == "    // regex: a\\r\\nb"));
}

#[test]
fn program_starts_with_the_table_and_ends_with_a_brace() {
    for gen_substrs in [false, true] {
        for table in [None, Some("  T  ")] {
            let program = to_noir_fn(&regex(" x ", &[&[(0, 1)][..]], false), gen_substrs, table);
            assert!(program.starts_with("global table: "));
            assert!(program.ends_with("}"));
        }
    }
}
