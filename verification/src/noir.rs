//! Noir source text for a compiled regular expression.

use std::collections::BTreeSet;
use vstd::prelude::*;

use crate::ordered::{elements_in_order, in_order, lemma_numbers_are_ordered};
use crate::structs::RegexAndDFA;
use crate::table::{
    accept_ids, accept_state_ids, accepting_state_ids, has_room_for_extra, has_single_accept,
    highest_state_id, lemma_accepting_states_are_states, table_len, table_rows, table_size,
    transition_rows, Row, BYTE_SIZE,
};
use crate::template::{
    BRANCH_BODY, BRANCH_OPEN, BRANCH_START_INDEX, CONSTRAIN_BODY, CONSTRAIN_COMMENT, CONSTRAIN_EACH,
    CONSTRAIN_HEAD, CONSTRAIN_LOOP, EXTRACT_ACCEPT, EXTRACT_COMMENT, EXTRACT_END, EXTRACT_HEAD,
    EXTRACT_LOOP, EXTRACT_RESTART, EXTRACT_RESULT, EXTRACT_START, EXTRACT_STATE, EXTRACT_SUBSTRINGS,
    EXTRACT_VARIABLES, MATCH_CALL, MATCH_CASES, MATCH_CONSTRAIN, MATCH_CONSTRAIN_ARGUMENTS, MATCH_END,
    MATCH_FOUND, MATCH_HEAD, MATCH_LOOP, MATCH_RANGE, MATCH_RESTART, MATCH_START, PLAIN_ACCEPT,
    PLAIN_END, PLAIN_HEAD, PLAIN_LOOP, PLAIN_START, SAVE_INDICES, SPARSE_TABLE, SPARSE_TABLE_END,
    STEP_COMPLETE, STEP_END, STEP_RESET, TABLE_ASSIGNMENTS, TABLE_CONSTRUCTOR, TABLE_END, TABLE_TYPE,
    TABLE_ZEROS,
};
use crate::text::{
    decimal, escape_line_breaks, indent, indented, join, joined, on_one_line, push_decimal, texts,
    trim, trimmed,
};

verus! {

// ---------------------------------------------------------------------------------------
// The table
// ---------------------------------------------------------------------------------------
/// An access to the table at `index`, by the interface of a sparse table or by index.
pub open spec fn table_access(index: Seq<char>, sparse: bool) -> Seq<char> {
    if sparse {
        "table.get("@ + index + ")"@
    } else {
        "table["@ + index + "]"@
    }
}

/// An access to the table at the index `s`, by the interface of a sparse table or by index.
pub fn access_table(s: &str, sparse: bool) -> (r: String)
    ensures
        r@ == table_access(s@, sparse),
{
    let mut out = (if sparse {
        "table.get("
    } else {
        "table["
    }).to_owned();
    out.append(s);
    out.append(
        if sparse {
            ")"
        } else {
            "]"
        },
    );
    out
}

/// The statement that writes a row to the table.
pub open spec fn assignment(row: Row) -> Seq<char> {
    "table["@ + decimal(row.0 as nat) + " * 256 + "@ + decimal(row.1 as nat) + "] = "@ + decimal(
        row.2 as nat,
    ) + ";\n"@
}

/// Writes a row as a statement.
pub open spec fn as_assignment() -> spec_fn(Row) -> Seq<char> {
    |row: Row| assignment(row)
}

/// The statements that write `rows` to the table, one per line.
pub open spec fn assignments(rows: Seq<Row>) -> Seq<char> {
    rows.flat_map(as_assignment())
}

/// The statements that write `rows` to the table, one per line.
pub fn table_assignments(rows: &Vec<Row>) -> (r: String)
    ensures
        r@ == assignments(rows@),
{
    let mut out = String::new();
    let mut i: usize = 0;
    assert(rows@.take(0).flat_map(as_assignment()) =~= Seq::empty());
    while i < rows.len()
        invariant
            i <= rows.len(),
            out@ == assignments(rows@.take(i as int)),
        decreases rows.len() - i,
    {
        let ghost before = out@;
        let row = rows[i];
        out.append("table[");
        push_decimal(&mut out, row.0);
        out.append(" * 256 + ");
        push_decimal(&mut out, row.1 as usize);
        out.append("] = ");
        push_decimal(&mut out, row.2);
        out.append(";\n");
        proof {
            rows@.lemma_flat_map_take_append(as_assignment(), i as int);
            assert(out@ =~= before + assignment(rows@[i as int]));
        }
        i = i + 1;
    }
    assert(rows@.take(i as int) =~= rows@);
    out
}

/// The declaration of a table of `len` entries that `rows` are written to.
pub open spec fn dense_table(rows: Seq<Row>, len: nat) -> Seq<char> {
    TABLE_TYPE@ + decimal(len) + TABLE_CONSTRUCTOR@ + decimal(len) + TABLE_ZEROS@ + decimal(len)
        + TABLE_ASSIGNMENTS@ + indented(assignments(rows), 1) + TABLE_END@
}

/// The declaration of a table whose value is `value`.
pub open spec fn sparse_table(value: Seq<char>) -> Seq<char> {
    SPARSE_TABLE@ + value + SPARSE_TABLE_END@
}

/// The declaration of a table of `len` entries that `rows` are written to.
pub fn dense_table_text(rows: &Vec<Row>, len: usize) -> (r: String)
    ensures
        r@ == dense_table(rows@, len as nat),
{
    let body = indent(table_assignments(rows).as_str(), 1);
    let mut out = TABLE_TYPE.to_owned();
    push_decimal(&mut out, len);
    out.append(TABLE_CONSTRUCTOR);
    push_decimal(&mut out, len);
    out.append(TABLE_ZEROS);
    push_decimal(&mut out, len);
    out.append(TABLE_ASSIGNMENTS);
    out.append(body.as_str());
    out.append(TABLE_END);
    out
}

/// The declaration of a table whose value is `value`.
pub fn sparse_table_text(value: &str) -> (r: String)
    ensures
        r@ == sparse_table(value@),
{
    let mut out = SPARSE_TABLE.to_owned();
    out.append(value);
    out.append(SPARSE_TABLE_END);
    out
}

// ---------------------------------------------------------------------------------------
// Conditions on the states
// ---------------------------------------------------------------------------------------
/// The condition that the step from `s` to `s_next` is the one from `from` to `to`.
pub open spec fn step_condition(from: usize, to: usize) -> Seq<char> {
    "(s == "@ + decimal(from as nat) + ") & (s_next == "@ + decimal(to as nat) + ")"@
}

/// The condition that the step from `s` to `s_next` is the one from `from` to `to`.
pub fn step_condition_text(from: usize, to: usize) -> (r: String)
    ensures
        r@ == step_condition(from, to),
{
    let mut out = "(s == ".to_owned();
    push_decimal(&mut out, from);
    out.append(") & (s_next == ");
    push_decimal(&mut out, to);
    out.append(")");
    out
}

/// Writes that `s` is a given state.
pub open spec fn as_state_condition() -> spec_fn(usize) -> Seq<char> {
    |id: usize| "(s == "@ + decimal(id as nat) + ")"@
}

/// The condition that `s` is one of the states `ids`.
pub open spec fn state_condition(ids: Seq<usize>) -> Seq<char> {
    joined(ids.map_values(as_state_condition()), " | "@)
}

/// The condition that `s` is one of the states `ids`.
pub fn state_condition_text(ids: &Vec<usize>) -> (r: String)
    ensures
        r@ == state_condition(ids@),
{
    let mut parts: Vec<String> = Vec::new();
    let mut i: usize = 0;
    while i < ids.len()
        invariant
            i <= ids.len(),
            texts(parts@) == ids@.take(i as int).map_values(as_state_condition()),
        decreases ids.len() - i,
    {
        let ghost before = parts@;
        let mut part = "(s == ".to_owned();
        push_decimal(&mut part, ids[i]);
        part.append(")");
        parts.push(part);
        proof {
            assert(texts(parts@) =~= texts(before).push(part@));
            ids@.lemma_map_take_succ(as_state_condition(), i as int);
        }
        i = i + 1;
    }
    assert(ids@.take(i as int) =~= ids@);
    join(&parts, " | ")
}

/// Writes a step of a substring as a condition.
pub open spec fn as_step_condition() -> spec_fn((usize, usize)) -> Seq<char> {
    |step: (usize, usize)| step_condition(step.0, step.1)
}

/// The condition that the step from `s` to `s_next` is one of `steps`.
pub open spec fn substring_condition(steps: Set<(usize, usize)>) -> Seq<char> {
    joined(in_order(steps).map_values(as_step_condition()), " | "@)
}

/// The condition that the step from `s` to `s_next` is one of `steps`.
pub fn substring_condition_text(steps: &BTreeSet<(usize, usize)>) -> (r: String)
    ensures
        r@ == substring_condition(steps@),
{
    proof {
        lemma_numbers_are_ordered();
    }
    let list = elements_in_order(steps);
    let mut parts: Vec<String> = Vec::new();
    let mut i: usize = 0;
    while i < list.len()
        invariant
            i <= list.len(),
            texts(parts@) == list@.take(i as int).map_values(as_step_condition()),
        decreases list.len() - i,
    {
        let ghost before = parts@;
        let part = step_condition_text(list[i].0, list[i].1);
        parts.push(part);
        proof {
            assert(texts(parts@) =~= texts(before).push(part@));
            list@.lemma_map_take_succ(as_step_condition(), i as int);
        }
        i = i + 1;
    }
    assert(list@.take(i as int) =~= list@);
    join(&parts, " | ")
}

// ---------------------------------------------------------------------------------------
// The list of cases
// ---------------------------------------------------------------------------------------
/// Writes a step of a substring as a case.
pub open spec fn as_case() -> spec_fn((usize, usize)) -> Seq<char> {
    |step: (usize, usize)| indented(step_condition(step.0, step.1) + ","@, 3)
}

/// The cases of one substring, one per line.
pub open spec fn substring_cases(steps: Set<(usize, usize)>) -> Seq<char> {
    joined(in_order(steps).map_values(as_case()), "\n"@)
}

/// Writes the cases of a substring.
pub open spec fn as_cases() -> spec_fn(BTreeSet<(usize, usize)>) -> Seq<char> {
    |steps: BTreeSet<(usize, usize)>| substring_cases(steps@)
}

/// The steps that may be taken inside the range of a match: those of the substrings, the one
/// from the accepting state to the extra state, and the one from there to itself.
pub open spec fn case_list(
    substrings: Seq<BTreeSet<(usize, usize)>>,
    accept: usize,
    extra: usize,
) -> Seq<char> {
    "[\n"@ + joined(substrings.map_values(as_cases()), "\n"@) + "\n"@ + indented(
        step_condition(accept, extra),
        3,
    ) + ",\n"@ + indented(step_condition(extra, extra), 3) + "\n\t\t];"@
}

/// The cases of one substring, one per line.
pub fn substring_cases_text(steps: &BTreeSet<(usize, usize)>) -> (r: String)
    ensures
        r@ == substring_cases(steps@),
{
    proof {
        lemma_numbers_are_ordered();
    }
    let list = elements_in_order(steps);
    let mut parts: Vec<String> = Vec::new();
    let mut i: usize = 0;
    while i < list.len()
        invariant
            i <= list.len(),
            texts(parts@) == list@.take(i as int).map_values(as_case()),
        decreases list.len() - i,
    {
        let ghost before = parts@;
        let mut case = step_condition_text(list[i].0, list[i].1);
        case.append(",");
        let part = indent(case.as_str(), 3);
        parts.push(part);
        proof {
            assert(texts(parts@) =~= texts(before).push(part@));
            list@.lemma_map_take_succ(as_case(), i as int);
        }
        i = i + 1;
    }
    assert(list@.take(i as int) =~= list@);
    join(&parts, "\n")
}

/// The steps that may be taken inside the range of a match.
pub fn case_list_text(
    substrings: &Vec<BTreeSet<(usize, usize)>>,
    accept: usize,
    extra: usize,
) -> (r: String)
    ensures
        r@ == case_list(substrings@, accept, extra),
{
    let mut parts: Vec<String> = Vec::new();
    let mut i: usize = 0;
    while i < substrings.len()
        invariant
            i <= substrings.len(),
            texts(parts@) == substrings@.take(i as int).map_values(as_cases()),
        decreases substrings.len() - i,
    {
        let ghost before = parts@;
        let part = substring_cases_text(&substrings[i]);
        parts.push(part);
        proof {
            assert(texts(parts@) =~= texts(before).push(part@));
            substrings@.lemma_map_take_succ(as_cases(), i as int);
        }
        i = i + 1;
    }
    assert(substrings@.take(i as int) =~= substrings@);
    let mut out = "[\n".to_owned();
    out.append(join(&parts, "\n").as_str());
    out.append("\n");
    out.append(indent(step_condition_text(accept, extra).as_str(), 3).as_str());
    out.append(",\n");
    out.append(indent(step_condition_text(extra, extra).as_str(), 3).as_str());
    out.append("\n\t\t];");
    out
}

// ---------------------------------------------------------------------------------------
// The steps that collect the substrings
// ---------------------------------------------------------------------------------------
/// The branch that collects a byte of a substring. The first branch opens the chain, and
/// notes where the substring starts.
pub open spec fn branch(first: bool, steps: Set<(usize, usize)>) -> Seq<char> {
    (if first {
        "if"
    } else {
        "else if"
    })@ + " ("@ + substring_condition(steps) + BRANCH_OPEN@ + (if first {
        BRANCH_START_INDEX
    } else {
        ""
    })@ + BRANCH_BODY@
}

/// The branches of the substrings.
pub open spec fn branches(substrings: Seq<BTreeSet<(usize, usize)>>) -> Seq<Seq<char>> {
    Seq::new(substrings.len(), |i: int| branch(i == 0, substrings[i]@))
}

/// The steps that collect the substrings: a branch for each of them, one that starts over,
/// one that ends the match, and one that keeps a complete substring.
pub open spec fn collecting_steps(
    substrings: Seq<BTreeSet<(usize, usize)>>,
    accept: usize,
    extra: usize,
) -> Seq<char> {
    indented(
        joined(branches(substrings), "\n"@) + STEP_RESET@ + step_condition(accept, extra)
            + STEP_COMPLETE@ + (if substrings.len() > 1 {
            SAVE_INDICES
        } else {
            ""
        })@ + STEP_END@,
        2,
    )
}

/// The branch that collects a byte of a substring.
pub fn branch_text(first: bool, steps: &BTreeSet<(usize, usize)>) -> (r: String)
    ensures
        r@ == branch(first, steps@),
{
    let mut out = (if first {
        "if"
    } else {
        "else if"
    }).to_owned();
    out.append(" (");
    out.append(substring_condition_text(steps).as_str());
    out.append(BRANCH_OPEN);
    out.append(
        if first {
            BRANCH_START_INDEX
        } else {
            ""
        },
    );
    out.append(BRANCH_BODY);
    out
}

/// The steps that collect the substrings.
pub fn collecting_steps_text(
    substrings: &Vec<BTreeSet<(usize, usize)>>,
    accept: usize,
    extra: usize,
) -> (r: String)
    ensures
        r@ == collecting_steps(substrings@, accept, extra),
{
    let mut parts: Vec<String> = Vec::new();
    let ghost all = branches(substrings@);
    let mut i: usize = 0;
    while i < substrings.len()
        invariant
            i <= substrings.len(),
            all == branches(substrings@),
            texts(parts@) == all.take(i as int),
        decreases substrings.len() - i,
    {
        let ghost before = parts@;
        let part = branch_text(i == 0, &substrings[i]);
        parts.push(part);
        proof {
            assert(texts(parts@) =~= texts(before).push(part@));
            assert(texts(parts@) =~= all.take(i + 1));
        }
        i = i + 1;
    }
    assert(all.take(i as int) =~= all);
    let mut out = join(&parts, "\n");
    out.append(STEP_RESET);
    out.append(step_condition_text(accept, extra).as_str());
    out.append(STEP_COMPLETE);
    out.append(
        if substrings.len() > 1 {
            SAVE_INDICES
        } else {
            ""
        },
    );
    out.append(STEP_END);
    indent(out.as_str(), 2)
}

// ---------------------------------------------------------------------------------------
// The functions of the program
// ---------------------------------------------------------------------------------------
/// The function that constrains the extracted substrings to be parts of the input. Where there
/// is more than one substring it goes over all of them.
pub open spec fn constrain_function(several: bool) -> Seq<char> {
    CONSTRAIN_HEAD@ + (if several {
        "start_indices: [u32; NUM_SUBSTRINGS],\n\tend_indices: [u32; NUM_SUBSTRINGS]"
    } else {
        "start: u32,\n\tend: u32"
    })@ + CONSTRAIN_BODY@ + (if several {
        ""
    } else {
        "let substring = substrings.get_unchecked(0);\n"
    })@ + CONSTRAIN_COMMENT@ + (if several {
        "s"
    } else {
        ""
    })@ + " "@ + (if several {
        CONSTRAIN_EACH
    } else {
        ""
    })@ + CONSTRAIN_LOOP@ + (if several {
        "\n}"
    } else {
        ""
    })@ + "\n}"@
}

/// The function that constrains the extracted substrings.
pub fn constrain_function_text(several: bool) -> (r: String)
    ensures
        r@ == constrain_function(several),
{
    let mut out = CONSTRAIN_HEAD.to_owned();
    out.append(
        if several {
            "start_indices: [u32; NUM_SUBSTRINGS],\n\tend_indices: [u32; NUM_SUBSTRINGS]"
        } else {
            "start: u32,\n\tend: u32"
        },
    );
    out.append(CONSTRAIN_BODY);
    out.append(
        if several {
            ""
        } else {
            "let substring = substrings.get_unchecked(0);\n"
        },
    );
    out.append(CONSTRAIN_COMMENT);
    out.append(
        if several {
            "s"
        } else {
            ""
        },
    );
    out.append(" ");
    out.append(
        if several {
            CONSTRAIN_EACH
        } else {
            ""
        },
    );
    out.append(CONSTRAIN_LOOP);
    out.append(
        if several {
            "\n}"
        } else {
            ""
        },
    );
    out.append("\n}");
    out
}

/// The test whether a byte lies between the start of the first and the end of the last
/// substring.
pub open spec fn range_check(count: nat) -> Seq<char> {
    if count > 1 {
        "i >= start_indices[0] & i <= end_indices["@ + decimal(count) + "]"@
    } else {
        "i >= start & i <= end"@
    }
}

/// The test whether a byte lies in the range of the substrings.
pub fn range_check_text(count: usize) -> (r: String)
    ensures
        r@ == range_check(count as nat),
{
    if count > 1 {
        let mut out = "i >= start_indices[0] & i <= end_indices[".to_owned();
        push_decimal(&mut out, count);
        out.append("]");
        out
    } else {
        "i >= start & i <= end".to_owned()
    }
}

/// The function that checks the match and returns the substrings.
pub open spec fn match_function(
    substrings: Seq<BTreeSet<(usize, usize)>>,
    ids: Seq<usize>,
    sparse: bool,
) -> Seq<char> {
    let count = substrings.len();
    let places = (if count > 1 {
        "start_indices, end_indices"
    } else {
        "start, end"
    })@;
    MATCH_HEAD@ + decimal(count) + MATCH_CALL@ + places + MATCH_CONSTRAIN@ + decimal(count)
        + MATCH_CONSTRAIN_ARGUMENTS@ + places + MATCH_START@ + table_access("255"@, sparse)
        + MATCH_LOOP@ + table_access("s * 256 + temp"@, sparse) + MATCH_RESTART@ + table_access(
        "temp"@,
        sparse,
    ) + MATCH_RANGE@ + range_check(count) + MATCH_CASES@ + case_list(substrings, ids[0], ids[1])
        + MATCH_FOUND@ + state_condition(ids) + MATCH_END@
}

/// The function that checks the match and returns the substrings.
pub fn match_function_text(
    substrings: &Vec<BTreeSet<(usize, usize)>>,
    ids: &Vec<usize>,
    sparse: bool,
) -> (r: String)
    requires
        ids.len() == 2,
    ensures
        r@ == match_function(substrings@, ids@, sparse),
{
    let count: usize = substrings.len();
    let places = if count > 1 {
        "start_indices, end_indices"
    } else {
        "start, end"
    };
    let mut out = MATCH_HEAD.to_owned();
    push_decimal(&mut out, count);
    out.append(MATCH_CALL);
    out.append(places);
    out.append(MATCH_CONSTRAIN);
    push_decimal(&mut out, count);
    out.append(MATCH_CONSTRAIN_ARGUMENTS);
    out.append(places);
    out.append(MATCH_START);
    out.append(access_table("255", sparse).as_str());
    out.append(MATCH_LOOP);
    out.append(access_table("s * 256 + temp", sparse).as_str());
    out.append(MATCH_RESTART);
    out.append(access_table("temp", sparse).as_str());
    out.append(MATCH_RANGE);
    out.append(range_check_text(count).as_str());
    out.append(MATCH_CASES);
    out.append(case_list_text(substrings, ids[0], ids[1]).as_str());
    out.append(MATCH_FOUND);
    out.append(state_condition_text(ids).as_str());
    out.append(MATCH_END);
    out
}

/// The type of what the search returns: the substrings, and where each of them, or the only
/// one, starts and ends.
pub open spec fn extract_type(count: nat) -> Seq<char> {
    if count > 1 {
        "(BoundedVec<BoundedVec<Field, N>, "@ + decimal(count) + ">, [u32; "@ + decimal(count)
            + "], [u32; "@ + decimal(count) + "])"@
    } else {
        "(BoundedVec<BoundedVec<Field, N>, "@ + decimal(count) + ">, u32, u32)"@
    }
}

/// The type of what the search returns.
pub fn extract_type_text(count: usize) -> (r: String)
    ensures
        r@ == extract_type(count as nat),
{
    let mut out = "(BoundedVec<BoundedVec<Field, N>, ".to_owned();
    push_decimal(&mut out, count);
    if count > 1 {
        out.append(">, [u32; ");
        push_decimal(&mut out, count);
        out.append("], [u32; ");
        push_decimal(&mut out, count);
        out.append("])");
    } else {
        out.append(">, u32, u32)");
    }
    out
}

/// The variables for the places of several substrings.
pub open spec fn index_definitions(count: nat) -> Seq<char> {
    if count > 1 {
        "let mut start_indices: [u32; "@ + decimal(count) + "] = [0; "@ + decimal(count)
            + "];\n\tlet mut end_indices: [u32; "@ + decimal(count) + "] = [0; "@ + decimal(count)
            + "];"@
    } else {
        ""@
    }
}

/// The variables for the places of several substrings.
pub fn index_definitions_text(count: usize) -> (r: String)
    ensures
        r@ == index_definitions(count as nat),
{
    if count > 1 {
        let mut out = "let mut start_indices: [u32; ".to_owned();
        push_decimal(&mut out, count);
        out.append("] = [0; ");
        push_decimal(&mut out, count);
        out.append("];\n\tlet mut end_indices: [u32; ");
        push_decimal(&mut out, count);
        out.append("] = [0; ");
        push_decimal(&mut out, count);
        out.append("];");
        out
    } else {
        "".to_owned()
    }
}

/// The function that finds the substrings.
pub open spec fn extract_function(
    pattern: Seq<char>,
    substrings: Seq<BTreeSet<(usize, usize)>>,
    ids: Seq<usize>,
    sparse: bool,
) -> Seq<char> {
    let count = substrings.len();
    EXTRACT_HEAD@ + extract_type(count) + EXTRACT_COMMENT@ + on_one_line(pattern)
        + EXTRACT_SUBSTRINGS@ + decimal(count) + EXTRACT_VARIABLES@ + index_definitions(count)
        + EXTRACT_START@ + table_access("255"@, sparse) + EXTRACT_STATE@ + (if count > 1 {
        "let mut substr_index = 0;"
    } else {
        ""
    })@ + EXTRACT_LOOP@ + table_access("s * 256 + temp"@, sparse) + MATCH_RESTART@ + table_access(
        "temp"@,
        sparse,
    ) + EXTRACT_RESTART@ + collecting_steps(substrings, ids[0], ids[1]) + EXTRACT_ACCEPT@
        + state_condition(ids) + EXTRACT_RESULT@ + (if count > 1 {
        "start_indices, end_indices"
    } else {
        "start_index, end_index"
    })@ + EXTRACT_END@
}

/// The function that finds the substrings.
pub fn extract_function_text(
    pattern: &str,
    substrings: &Vec<BTreeSet<(usize, usize)>>,
    ids: &Vec<usize>,
    sparse: bool,
) -> (r: String)
    requires
        ids.len() == 2,
    ensures
        r@ == extract_function(pattern@, substrings@, ids@, sparse),
{
    let count: usize = substrings.len();
    let mut out = EXTRACT_HEAD.to_owned();
    out.append(extract_type_text(count).as_str());
    out.append(EXTRACT_COMMENT);
    out.append(escape_line_breaks(pattern).as_str());
    out.append(EXTRACT_SUBSTRINGS);
    push_decimal(&mut out, count);
    out.append(EXTRACT_VARIABLES);
    out.append(index_definitions_text(count).as_str());
    out.append(EXTRACT_START);
    out.append(access_table("255", sparse).as_str());
    out.append(EXTRACT_STATE);
    out.append(
        if count > 1 {
            "let mut substr_index = 0;"
        } else {
            ""
        },
    );
    out.append(EXTRACT_LOOP);
    out.append(access_table("s * 256 + temp", sparse).as_str());
    out.append(MATCH_RESTART);
    out.append(access_table("temp", sparse).as_str());
    out.append(EXTRACT_RESTART);
    out.append(collecting_steps_text(substrings, ids[0], ids[1]).as_str());
    out.append(EXTRACT_ACCEPT);
    out.append(state_condition_text(ids).as_str());
    out.append(EXTRACT_RESULT);
    out.append(
        if count > 1 {
            "start_indices, end_indices"
        } else {
            "start_index, end_index"
        },
    );
    out.append(EXTRACT_END);
    out
}

/// The function that only checks the match.
pub open spec fn plain_function(pattern: Seq<char>, ids: Seq<usize>, sparse: bool) -> Seq<char> {
    PLAIN_HEAD@ + on_one_line(pattern) + PLAIN_START@ + table_access("255"@, sparse) + PLAIN_LOOP@
        + table_access("s_idx"@, sparse) + PLAIN_ACCEPT@ + state_condition(ids) + PLAIN_END@
}

/// The function that only checks the match.
pub fn plain_function_text(pattern: &str, ids: &Vec<usize>, sparse: bool) -> (r: String)
    ensures
        r@ == plain_function(pattern@, ids@, sparse),
{
    let mut out = PLAIN_HEAD.to_owned();
    out.append(escape_line_breaks(pattern).as_str());
    out.append(PLAIN_START);
    out.append(access_table("255", sparse).as_str());
    out.append(PLAIN_LOOP);
    out.append(access_table("s_idx", sparse).as_str());
    out.append(PLAIN_ACCEPT);
    out.append(state_condition_text(ids).as_str());
    out.append(PLAIN_END);
    out
}

// ---------------------------------------------------------------------------------------
// The program
// ---------------------------------------------------------------------------------------
/// The declaration of the table: `sparse` where it is given, and else an array that the
/// transitions are written to.
pub open spec fn table_declaration(regex: RegexAndDFA, sparse: Option<Seq<char>>) -> Seq<char> {
    match sparse {
        Some(value) => sparse_table(value),
        None => dense_table(table_rows(regex), table_len(regex)),
    }
}

/// The functions of the program: with the substrings, the functions that constrain them, check
/// the match and find them; without, the one that checks the match.
pub open spec fn functions(regex: RegexAndDFA, gen_substrs: bool, sparse: bool) -> Seq<char> {
    let ids = accept_ids(regex);
    let substrings = regex.substrings.substring_ranges@;
    if gen_substrs {
        "\n\n"@ + constrain_function(substrings.len() > 1) + "\n\n"@ + match_function(
            substrings,
            ids,
            sparse,
        ) + "\n\n"@ + extract_function(regex.regex_pattern@, substrings, ids, sparse)
    } else {
        "\n"@ + plain_function(regex.regex_pattern@, ids, sparse)
    }
}

/// The Noir program for a regular expression.
pub open spec fn program(
    regex: RegexAndDFA,
    gen_substrs: bool,
    sparse: Option<Seq<char>>,
) -> Seq<char> {
    trimmed(
        "\n        "@ + "\n"@ + table_declaration(regex, sparse) + functions(
            regex,
            gen_substrs,
            sparse is Some,
        ) + "\n    "@,
    )
}

/// The number of the extra state and the length of the table can be counted.
pub open spec fn fits(regex: RegexAndDFA) -> bool {
    has_room_for_extra(regex) && table_len(regex) <= usize::MAX
}

/// A program can be generated: there is one accepting state, the table can be counted and, where
/// substrings are to be extracted, the expression does not end in an anchor.
pub open spec fn supported(regex: RegexAndDFA, gen_substrs: bool) -> bool {
    has_single_accept(regex) && fits(regex) && (gen_substrs ==> !regex.has_end_anchor)
}

/// Why no program can be generated.
#[derive(Clone, Copy, Debug, PartialEq, Eq, Structural)]
pub enum Unsupported {
    /// There is not exactly one accepting state.
    AcceptStates,
    /// The extra state cannot be numbered, or the entries of the table cannot be counted.
    TooLarge,
    /// Substrings are to be extracted, and the expression ends in an anchor, so there is no extra
    /// state to tell the end of the match by.
    EndAnchor,
}

/// Whether a program can be generated, with or without the extraction of substrings, and if not,
/// why.
pub fn check_supported(regex: &RegexAndDFA, gen_substrs: bool) -> (r: Result<(), Unsupported>)
    ensures
        r is Ok <==> supported(*regex, gen_substrs),
        r == Err::<(), Unsupported>(Unsupported::AcceptStates) <==> !has_single_accept(*regex),
        r == Err::<(), Unsupported>(Unsupported::TooLarge) <==> has_single_accept(*regex) && !fits(
            *regex,
        ),
        r == Err::<(), Unsupported>(Unsupported::EndAnchor) <==> has_single_accept(*regex) && fits(
            *regex,
        ) && gen_substrs && regex.has_end_anchor,
{
    if accepting_state_ids(&regex.dfa.states).len() != 1 {
        return Err(Unsupported::AcceptStates);
    }
    proof {
        lemma_accepting_states_are_states(regex.dfa.states@);
    }
    let blocks: usize = usize::MAX / (BYTE_SIZE as usize);
    if regex.has_end_anchor {
        if regex.dfa.states.len() > blocks {
            return Err(Unsupported::TooLarge);
        }
        if gen_substrs {
            return Err(Unsupported::EndAnchor);
        }
    } else if highest_state_id(&regex.dfa.states) == usize::MAX || regex.dfa.states.len() >= blocks {
        return Err(Unsupported::TooLarge);
    }
    Ok(())
}

/// Generates Noir code for a regular expression.
///
/// With `gen_substrs` the code extracts the substrings as well. `sparse_array` is the Noir value
/// of a sparse table with the transitions; without it the code fills an array with them. Where
/// the expression ends in an anchor there is no extra state, and nothing may follow the match.
pub fn to_noir_fn(regex: &RegexAndDFA, gen_substrs: bool, sparse_array: Option<&str>) -> (r: String)
    requires
        supported(*regex, gen_substrs),
    ensures
        r@ == program(
            *regex,
            gen_substrs,
            match sparse_array {
                Some(value) => Some(value@),
                None => None,
            },
        ),
{
    let ids = accept_state_ids(regex);
    let substrings = &regex.substrings.substring_ranges;
    let sparse = sparse_array.is_some();
    let table = match sparse_array {
        Some(value) => sparse_table_text(value),
        None => dense_table_text(&transition_rows(regex), table_size(regex)),
    };
    let mut out = "\n        ".to_owned();
    out.append("\n");
    out.append(table.as_str());
    let mut body = (if gen_substrs {
        "\n\n"
    } else {
        "\n"
    }).to_owned();
    if gen_substrs {
        body.append(constrain_function_text(substrings.len() > 1).as_str());
        body.append("\n\n");
        body.append(match_function_text(substrings, &ids, sparse).as_str());
        body.append("\n\n");
        body.append(
            extract_function_text(regex.regex_pattern.as_str(), substrings, &ids, sparse).as_str(),
        );
    } else {
        body.append(plain_function_text(regex.regex_pattern.as_str(), &ids, sparse).as_str());
    }
    out.append(body.as_str());
    out.append("\n    ");
    trim(out.as_str())
}

} // verus!
