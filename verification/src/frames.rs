//! What the text of a program depends on.
//!
//! A frame is the fixed text around the parts of a text that vary. That all texts of a kind have
//! one frame says that nothing but these parts varies, and where each of them stands.

use std::collections::BTreeSet;
use vstd::prelude::*;

use crate::conditions::step_text;
use crate::noir::{
    assignment, assignments, branches, case_list, collecting_steps, dense_table, extract_function,
    extract_type, index_definitions, match_function, plain_function, range_check, sparse_table,
    state_condition, step_condition, table_access,
};
use crate::table::Row;
use crate::template::{
    EXTRACT_ACCEPT, EXTRACT_COMMENT, EXTRACT_END, EXTRACT_HEAD, EXTRACT_LOOP, EXTRACT_RESTART,
    EXTRACT_RESULT, EXTRACT_START, EXTRACT_STATE, EXTRACT_SUBSTRINGS, EXTRACT_VARIABLES, MATCH_CALL,
    MATCH_CASES, MATCH_CONSTRAIN, MATCH_CONSTRAIN_ARGUMENTS, MATCH_END, MATCH_FOUND, MATCH_HEAD,
    MATCH_LOOP, MATCH_RANGE, MATCH_RESTART, MATCH_START, PLAIN_ACCEPT, PLAIN_END, PLAIN_HEAD,
    PLAIN_LOOP, PLAIN_START, SAVE_INDICES, SPARSE_TABLE, SPARSE_TABLE_END, STEP_COMPLETE, STEP_END,
    STEP_RESET, TABLE_ASSIGNMENTS, TABLE_CONSTRUCTOR, TABLE_END, TABLE_TYPE, TABLE_ZEROS,
};
use crate::text::{decimal, indented, joined, on_one_line};

verus! {

/// The first `n` slots between the pieces of the frame, up to the piece behind them.
pub open spec fn filled_up_to(frame: Seq<Seq<char>>, slots: Seq<Seq<char>>, n: int) -> Seq<char>
    decreases n,
{
    if n <= 0 {
        frame[0]
    } else {
        filled_up_to(frame, slots, n - 1) + slots[n - 1] + frame[n]
    }
}

/// The frame with `slots` between its pieces: the first piece, the first slot, the second piece,
/// and so on up to the last piece.
pub open spec fn filled(frame: Seq<Seq<char>>, slots: Seq<Seq<char>>) -> Seq<char> {
    filled_up_to(frame, slots, slots.len() as int)
}

// ---------------------------------------------------------------------------------------
// Short texts
// ---------------------------------------------------------------------------------------
/// The frame of all conditions on a step, around the two numbers.
pub open spec fn frames_step_conditions(frame: Seq<Seq<char>>) -> bool {
    forall|from: usize, to: usize| #[trigger]
        step_condition(from, to) == filled(frame, seq![decimal(from as nat), decimal(to as nat)])
}

/// The frame of all statements, around the state, the byte and the next state.
pub open spec fn frames_assignments(frame: Seq<Seq<char>>) -> bool {
    forall|row: Row| #[trigger]
        assignment(row) == filled(
            frame,
            seq![decimal(row.0 as nat), decimal(row.1 as nat), decimal(row.2 as nat)],
        )
}

/// The frame of all accesses to a table of one kind, around the index.
pub open spec fn frames_accesses(frame: Seq<Seq<char>>, sparse: bool) -> bool {
    forall|index: Seq<char>| #[trigger] table_access(index, sparse) == filled(frame, seq![index])
}

/// The conditions on steps, the statements and the accesses to the table differ only in the
/// numbers or the index that they are about.
pub proof fn short_texts_have_one_frame(sparse: bool)
    ensures
        exists|frame: Seq<Seq<char>>| frames_step_conditions(frame),
        exists|frame: Seq<Seq<char>>| frames_assignments(frame),
        exists|frame: Seq<Seq<char>>| frames_accesses(frame, sparse),
{
    reveal_with_fuel(filled_up_to, 6);
    let frame = seq!["(s == "@, ") & (s_next == "@, ")"@];
    assert(frames_step_conditions(frame));
    let frame = seq!["table["@, " * 256 + "@, "] = "@, ";\n"@];
    assert(frames_assignments(frame));
    let frame = if sparse {
        seq!["table.get("@, ")"@]
    } else {
        seq!["table["@, "]"@]
    };
    assert(frames_accesses(frame, sparse));
}

// ---------------------------------------------------------------------------------------
// Texts about the number of substrings
// ---------------------------------------------------------------------------------------
/// The frame of the range checks for several substrings, around their number.
pub open spec fn frames_range_checks(frame: Seq<Seq<char>>) -> bool {
    forall|count: nat|
        count > 1 ==> #[trigger] range_check(count) == filled(frame, seq![decimal(count)])
}

/// The frame of the types of what the search returns, around the number of substrings, which
/// occurs three times for several substrings and else once.
pub open spec fn frames_types(frame: Seq<Seq<char>>, several: bool) -> bool {
    forall|count: nat|
        (count > 1) == several ==> #[trigger] extract_type(count) == filled(
            frame,
            if several {
                seq![decimal(count), decimal(count), decimal(count)]
            } else {
                seq![decimal(count)]
            },
        )
}

/// The frame of the variables for the places of several substrings, around their number.
pub open spec fn frames_definitions(frame: Seq<Seq<char>>) -> bool {
    forall|count: nat|
        count > 1 ==> #[trigger] index_definitions(count) == filled(
            frame,
            seq![decimal(count), decimal(count), decimal(count), decimal(count)],
        )
}

/// For several substrings the range check, the type of what the search returns and the variables
/// for the places differ only in the number of substrings. For at most one substring the range
/// check is the same, and there are no such variables.
pub proof fn counted_texts_have_one_frame(several: bool, count: nat, other: nat)
    requires
        count <= 1,
        other <= 1,
    ensures
        exists|frame: Seq<Seq<char>>| frames_range_checks(frame),
        exists|frame: Seq<Seq<char>>| frames_types(frame, several),
        exists|frame: Seq<Seq<char>>| frames_definitions(frame),
        range_check(count) == range_check(other),
        index_definitions(count).len() == 0,
{
    reveal_strlit("");
    reveal_with_fuel(filled_up_to, 6);
    let frame = seq!["i >= start_indices[0] & i <= end_indices["@, "]"@];
    assert(frames_range_checks(frame));
    let frame = if several {
        seq!["(BoundedVec<BoundedVec<Field, N>, "@, ">, [u32; "@, "], [u32; "@, "])"@]
    } else {
        seq!["(BoundedVec<BoundedVec<Field, N>, "@, ">, u32, u32)"@]
    };
    assert(frames_types(frame, several));
    let frame = seq![
        "let mut start_indices: [u32; "@,
        "] = [0; "@,
        "];\n\tlet mut end_indices: [u32; "@,
        "] = [0; "@,
        "];"@,
    ];
    assert(frames_definitions(frame));
}

// ---------------------------------------------------------------------------------------
// Declarations
// ---------------------------------------------------------------------------------------
/// The frame of the declarations of tables that are filled by statements, around their length,
/// which occurs three times, and the statements.
pub open spec fn frames_dense_tables(frame: Seq<Seq<char>>) -> bool {
    forall|rows: Seq<Row>, len: nat| #[trigger]
        dense_table(rows, len) == filled(
            frame,
            seq![decimal(len), decimal(len), decimal(len), indented(assignments(rows), 1)],
        )
}

/// The frame of the declarations of sparse tables, around the value.
pub open spec fn frames_sparse_tables(frame: Seq<Seq<char>>) -> bool {
    forall|value: Seq<char>| #[trigger] sparse_table(value) == filled(frame, seq![value])
}

/// The declarations of tables that are filled by statements differ only in their length and their
/// statements, and those of sparse tables only in their value.
pub proof fn declarations_have_one_frame()
    ensures
        exists|frame: Seq<Seq<char>>| frames_dense_tables(frame),
        exists|frame: Seq<Seq<char>>| frames_sparse_tables(frame),
{
    reveal_with_fuel(filled_up_to, 6);
    let frame = seq![TABLE_TYPE@, TABLE_CONSTRUCTOR@, TABLE_ZEROS@, TABLE_ASSIGNMENTS@, TABLE_END@];
    assert(frames_dense_tables(frame));
    let frame = seq![SPARSE_TABLE@, SPARSE_TABLE_END@];
    assert(frames_sparse_tables(frame));
}

// ---------------------------------------------------------------------------------------
// Functions
// ---------------------------------------------------------------------------------------
/// The frame of the functions that only check the match, around the expression, the two accesses
/// to the table and the condition on the last state.
pub open spec fn frames_plain_functions(frame: Seq<Seq<char>>) -> bool {
    forall|pattern: Seq<char>, ids: Seq<usize>, sparse: bool| #[trigger]
        plain_function(pattern, ids, sparse) == filled(
            frame,
            seq![
                on_one_line(pattern),
                table_access("255"@, sparse),
                table_access("s_idx"@, sparse),
                state_condition(ids),
            ],
        )
}

/// The frame of the functions that check the match and return several substrings, or at most
/// one, around what varies: the number of substrings, the accesses to the table, the range check,
/// the list of cases and the condition on the last state.
pub open spec fn frames_match_functions(frame: Seq<Seq<char>>, several: bool) -> bool {
    forall|substrings: Seq<BTreeSet<(usize, usize)>>, ids: Seq<usize>, sparse: bool|
        (substrings.len() > 1) == several && ids.len() == 2 ==> #[trigger] match_function(
            substrings,
            ids,
            sparse,
        ) == filled(
            frame,
            seq![
                decimal(substrings.len()),
                decimal(substrings.len()),
                table_access("255"@, sparse),
                table_access("s * 256 + temp"@, sparse),
                table_access("temp"@, sparse),
                range_check(substrings.len()),
                case_list(substrings, ids[0], ids[1]),
                state_condition(ids),
            ],
        )
}

/// The frame of the functions that find several substrings, or at most one, around what varies:
/// the type of the result, the expression, the number of substrings, the variables for the
/// places, the accesses to the table, the steps that collect the substrings and the condition on
/// the last state.
pub open spec fn frames_extract_functions(frame: Seq<Seq<char>>, several: bool) -> bool {
    forall|
        pattern: Seq<char>,
        substrings: Seq<BTreeSet<(usize, usize)>>,
        ids: Seq<usize>,
        sparse: bool,
    |
        (substrings.len() > 1) == several && ids.len() == 2 ==> #[trigger] extract_function(
            pattern,
            substrings,
            ids,
            sparse,
        ) == filled(
            frame,
            seq![
                extract_type(substrings.len()),
                on_one_line(pattern),
                decimal(substrings.len()),
                index_definitions(substrings.len()),
                table_access("255"@, sparse),
                table_access("s * 256 + temp"@, sparse),
                table_access("temp"@, sparse),
                collecting_steps(substrings, ids[0], ids[1]),
                state_condition(ids),
            ],
        )
}

/// The frame of the steps that collect several substrings, or at most one, before they are
/// indented, around the branches of the substrings and the step that ends the match.
pub open spec fn frames_collecting_steps(frame: Seq<Seq<char>>, several: bool) -> bool {
    forall|substrings: Seq<BTreeSet<(usize, usize)>>, accept: usize, extra: usize|
        (substrings.len() > 1) == several ==> #[trigger] collecting_steps(substrings, accept, extra)
            == indented(
            filled(frame, seq![joined(branches(substrings), "\n"@), step_text(accept, extra)]),
            2,
        )
}

/// The functions that only check the match differ only in the expression, in the kind of the
/// table and in the states in which a match is complete.
pub proof fn plain_functions_have_one_frame()
    ensures
        exists|frame: Seq<Seq<char>>| frames_plain_functions(frame),
{
    reveal_with_fuel(filled_up_to, 6);
    let frame = seq![PLAIN_HEAD@, PLAIN_START@, PLAIN_LOOP@, PLAIN_ACCEPT@, PLAIN_END@];
    assert(frames_plain_functions(frame));
}

/// The functions that check the match and return several substrings, or at most one, differ only
/// in the kind of the table, in the number and the steps of the substrings, and in the states in
/// which a match is complete.
pub proof fn match_functions_have_one_frame(several: bool)
    ensures
        exists|frame: Seq<Seq<char>>| frames_match_functions(frame, several),
{
    let frame = match_frame(several);
    assert forall|
        substrings: Seq<BTreeSet<(usize, usize)>>,
        ids: Seq<usize>,
        sparse: bool,
    |
        (substrings.len() > 1) == several && ids.len() == 2 implies #[trigger] match_function(
        substrings,
        ids,
        sparse,
    ) == filled(
        frame,
        seq![
            decimal(substrings.len()),
            decimal(substrings.len()),
            table_access("255"@, sparse),
            table_access("s * 256 + temp"@, sparse),
            table_access("temp"@, sparse),
            range_check(substrings.len()),
            case_list(substrings, ids[0], ids[1]),
            state_condition(ids),
        ],
    ) by {
        lemma_match_frame(substrings, ids, sparse);
    }
    assert(frames_match_functions(frame, several));
}

/// The frame of the functions that check the match.
pub open spec fn match_frame(several: bool) -> Seq<Seq<char>> {
    let places = (if several {
        "start_indices, end_indices"
    } else {
        "start, end"
    })@;
    seq![
        MATCH_HEAD@,
        MATCH_CALL@ + places + MATCH_CONSTRAIN@,
        MATCH_CONSTRAIN_ARGUMENTS@ + places + MATCH_START@,
        MATCH_LOOP@,
        MATCH_RESTART@,
        MATCH_RANGE@,
        MATCH_CASES@,
        MATCH_FOUND@,
        MATCH_END@,
    ]
}

/// The function that checks the match fills its frame.
pub proof fn lemma_match_frame(
    substrings: Seq<BTreeSet<(usize, usize)>>,
    ids: Seq<usize>,
    sparse: bool,
)
    requires
        ids.len() == 2,
    ensures
        match_function(substrings, ids, sparse) == filled(
            match_frame(substrings.len() > 1),
            seq![
                decimal(substrings.len()),
                decimal(substrings.len()),
                table_access("255"@, sparse),
                table_access("s * 256 + temp"@, sparse),
                table_access("temp"@, sparse),
                range_check(substrings.len()),
                case_list(substrings, ids[0], ids[1]),
                state_condition(ids),
            ],
        ),
{
    reveal_with_fuel(filled_up_to, 10);
    let places = (if substrings.len() > 1 {
        "start_indices, end_indices"
    } else {
        "start, end"
    })@;
    let n = decimal(substrings.len());
    let head = MATCH_HEAD@ + n + MATCH_CALL@ + places + MATCH_CONSTRAIN@;
    let call = MATCH_CALL@ + places + MATCH_CONSTRAIN@;
    let arguments = MATCH_CONSTRAIN_ARGUMENTS@ + places + MATCH_START@;
    assert(head =~= MATCH_HEAD@ + n + call);
    assert(head + n + MATCH_CONSTRAIN_ARGUMENTS@ + places + MATCH_START@ =~= head + n + arguments);
}

/// The functions that find several substrings, or at most one, differ only in the expression, in
/// the kind of the table, in the number and the steps of the substrings, and in the states in
/// which a match is complete.
pub proof fn extract_functions_have_one_frame(several: bool)
    ensures
        exists|frame: Seq<Seq<char>>| frames_extract_functions(frame, several),
{
    let frame = extract_frame(several);
    assert forall|
        pattern: Seq<char>,
        substrings: Seq<BTreeSet<(usize, usize)>>,
        ids: Seq<usize>,
        sparse: bool,
    |
        (substrings.len() > 1) == several && ids.len() == 2 implies #[trigger] extract_function(
        pattern,
        substrings,
        ids,
        sparse,
    ) == filled(
        frame,
        seq![
            extract_type(substrings.len()),
            on_one_line(pattern),
            decimal(substrings.len()),
            index_definitions(substrings.len()),
            table_access("255"@, sparse),
            table_access("s * 256 + temp"@, sparse),
            table_access("temp"@, sparse),
            collecting_steps(substrings, ids[0], ids[1]),
            state_condition(ids),
        ],
    ) by {
        lemma_extract_frame(pattern, substrings, ids, sparse);
    }
    assert(frames_extract_functions(frame, several));
}

spec fn extract_frame(several: bool) -> Seq<Seq<char>> {
    seq![
        EXTRACT_HEAD@,
        EXTRACT_COMMENT@,
        EXTRACT_SUBSTRINGS@,
        EXTRACT_VARIABLES@,
        EXTRACT_START@,
        EXTRACT_STATE@ + (if several {
            "let mut substr_index = 0;"
        } else {
            ""
        })@ + EXTRACT_LOOP@,
        MATCH_RESTART@,
        EXTRACT_RESTART@,
        EXTRACT_ACCEPT@,
        EXTRACT_RESULT@ + (if several {
            "start_indices, end_indices"
        } else {
            "start_index, end_index"
        })@ + EXTRACT_END@,
    ]
}

proof fn lemma_extract_frame(
    pattern: Seq<char>,
    substrings: Seq<BTreeSet<(usize, usize)>>,
    ids: Seq<usize>,
    sparse: bool,
)
    requires
        ids.len() == 2,
    ensures
        extract_function(pattern, substrings, ids, sparse) == filled(
            extract_frame(substrings.len() > 1),
            seq![
                extract_type(substrings.len()),
                on_one_line(pattern),
                decimal(substrings.len()),
                index_definitions(substrings.len()),
                table_access("255"@, sparse),
                table_access("s * 256 + temp"@, sparse),
                table_access("temp"@, sparse),
                collecting_steps(substrings, ids[0], ids[1]),
                state_condition(ids),
            ],
        ),
{
    reveal_with_fuel(filled_up_to, 11);
    let several = substrings.len() > 1;
    let frame = extract_frame(several);
    let start = EXTRACT_HEAD@ + extract_type(substrings.len()) + EXTRACT_COMMENT@ + on_one_line(pattern)
        + EXTRACT_SUBSTRINGS@ + decimal(substrings.len()) + EXTRACT_VARIABLES@ + index_definitions(
        substrings.len(),
    ) + EXTRACT_START@ + table_access("255"@, sparse);
    let index = (if several {
        "let mut substr_index = 0;"
    } else {
        ""
    })@;
    assert(start + EXTRACT_STATE@ + index + EXTRACT_LOOP@ =~= start + frame[5]);
    let body = start + frame[5] + table_access("s * 256 + temp"@, sparse) + MATCH_RESTART@
        + table_access("temp"@, sparse) + EXTRACT_RESTART@ + collecting_steps(
        substrings,
        ids[0],
        ids[1],
    ) + EXTRACT_ACCEPT@ + state_condition(ids);
    let places = (if several {
        "start_indices, end_indices"
    } else {
        "start_index, end_index"
    })@;
    assert(body + EXTRACT_RESULT@ + places + EXTRACT_END@ =~= body + frame[9]);
}

/// The steps that collect several substrings, or at most one, differ only in the branches of the
/// substrings and in the step that ends the match.
pub proof fn collecting_steps_have_one_frame(several: bool)
    ensures
        exists|frame: Seq<Seq<char>>| frames_collecting_steps(frame, several),
{
    reveal_with_fuel(filled_up_to, 4);
    let save = (if several {
        SAVE_INDICES
    } else {
        ""
    })@;
    let frame = seq![Seq::empty(), STEP_RESET@, STEP_COMPLETE@ + save + STEP_END@];
    assert forall|substrings: Seq<BTreeSet<(usize, usize)>>, accept: usize, extra: usize|
        (substrings.len() > 1) == several implies #[trigger] collecting_steps(
        substrings,
        accept,
        extra,
    ) == indented(
        filled(frame, seq![joined(branches(substrings), "\n"@), step_text(accept, extra)]),
        2,
    ) by {
        let all = joined(branches(substrings), "\n"@);
        let text = all + STEP_RESET@ + step_text(accept, extra) + STEP_COMPLETE@ + save + STEP_END@;
        assert(Seq::empty() + all =~= all);
        assert(text =~= all + STEP_RESET@ + step_text(accept, extra) + frame[2]);
    }
    assert(frames_collecting_steps(frame, several));
}

} // verus!
