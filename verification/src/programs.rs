//! Which parts a whole program has, and what they depend on.

use std::collections::BTreeSet;
use vstd::prelude::*;

use crate::conditions::{case_lines, cases_are_the_steps_and_the_end_of_the_match, step_text};
use crate::frames::{filled_up_to, lemma_match_frame, match_frame};
use crate::noir::{
    case_list, constrain_function, dense_table, extract_function, functions, match_function,
    plain_function, program, range_check, state_condition, table_access, table_declaration,
};
use crate::reading::program_is_the_table_and_the_functions;
use crate::states::{highest_at, match_is_complete_in_the_state_of_type_accept, only_accepting};
use crate::structs::RegexAndDFA;
use crate::table::{has_room_for_extra, table_rows};
use crate::template::{CONSTRAIN_HEAD, EXTRACT_HEAD, MATCH_HEAD, PLAIN_HEAD, SPARSE_TABLE_END};
use crate::text::{blank, decimal, lines, spaces};

verus! {

/// The number of the state that takes what follows a match: one more than that of the state at
/// `h`.
pub open spec fn behind(regex: RegexAndDFA, h: int) -> usize {
    (regex.dfa.states@[h].state_id + 1) as usize
}

/// The text holds `part` somewhere.
pub open spec fn occurs_in(part: Seq<char>, text: Seq<char>) -> bool {
    exists|i: int|
        0 <= i && i + part.len() <= text.len() && #[trigger] text.subrange(i, i + part.len()) == part
}

proof fn lemma_program_parts(regex: RegexAndDFA, gen_substrs: bool, sparse: Option<Seq<char>>)
    ensures
        program(regex, gen_substrs, sparse) == table_declaration(regex, sparse).skip(1) + functions(
            regex,
            gen_substrs,
            sparse is Some,
        ),
{
    program_is_the_table_and_the_functions(regex, gen_substrs, sparse);
    let table = table_declaration(regex, sparse);
    let rest = functions(regex, gen_substrs, sparse is Some);
    assert(table.len() > 0) by {
        reveal_strlit("\nglobal table: ");
        reveal_strlit("\nglobal table: [Field; ");
    }
    assert((table + rest).skip(1) =~= table.skip(1) + rest);
}

/// Without substrings the program is the declaration of the table and one function, which only
/// checks the match. It is about the expression, and about the states in which a match is
/// complete: the one of the type `accept` and, unless the expression ends in an anchor, the one
/// behind the highest.
#[verifier::rlimit(40)]
pub proof fn program_without_substrings_is_the_table_and_one_function(
    regex: RegexAndDFA,
    a: int,
    h: int,
    sparse: Option<Seq<char>>,
)
    requires
        only_accepting(regex.dfa.states@, a),
        highest_at(regex.dfa.states@, h),
        has_room_for_extra(regex),
    ensures
        program(regex, false, sparse) == table_declaration(regex, sparse).skip(1) + "\n"@
            + plain_function(
            regex.regex_pattern@,
            if regex.has_end_anchor {
                seq![regex.dfa.states@[a].state_id]
            } else {
                seq![regex.dfa.states@[a].state_id, behind(regex, h)]
            },
            sparse is Some,
        ),
        "pub fn regex_match<let N: u32>(input: [u8; N]) {\n    // regex: "@.is_prefix_of(
            plain_function(
                regex.regex_pattern@,
                if regex.has_end_anchor {
                    seq![regex.dfa.states@[a].state_id]
                } else {
                    seq![regex.dfa.states@[a].state_id, behind(regex, h)]
                },
                sparse is Some,
            ),
        ),
{
    match_is_complete_in_the_state_of_type_accept(regex, a, h);
    lemma_program_parts(regex, false, sparse);
    let ids = if regex.has_end_anchor {
        seq![regex.dfa.states@[a].state_id]
    } else {
        seq![regex.dfa.states@[a].state_id, behind(regex, h)]
    };
    let function = plain_function(regex.regex_pattern@, ids, sparse is Some);
    let table = table_declaration(regex, sparse).skip(1);
    assert(table + ("\n"@ + function) =~= table + "\n"@ + function);
    assert(PLAIN_HEAD@ =~= function.take(PLAIN_HEAD@.len() as int));
}

/// With substrings the program is the declaration of the table and three functions: one that
/// constrains the substrings, one that checks the match, and one that finds the substrings. They
/// are about the substrings, the expression and the states in which a match is complete: the
/// one of the type `accept` and the one behind the highest.
#[verifier::rlimit(40)]
pub proof fn program_with_substrings_is_the_table_and_three_functions(
    regex: RegexAndDFA,
    a: int,
    h: int,
    sparse: Option<Seq<char>>,
)
    requires
        only_accepting(regex.dfa.states@, a),
        highest_at(regex.dfa.states@, h),
        has_room_for_extra(regex),
        !regex.has_end_anchor,
    ensures
        ({
            let substrings = regex.substrings.substring_ranges@;
            let ids = seq![regex.dfa.states@[a].state_id, behind(regex, h)];
            let constrains = constrain_function(substrings.len() > 1);
            let matches_input = match_function(substrings, ids, sparse is Some);
            let extracts = extract_function(regex.regex_pattern@, substrings, ids, sparse is Some);
            &&& program(regex, true, sparse) == table_declaration(regex, sparse).skip(1) + "\n\n"@
                + constrains + "\n\n"@ + matches_input + "\n\n"@ + extracts
            &&& "pub fn constrain_substrings<"@.is_prefix_of(constrains)
            &&& ("pub fn regex_match<let N: u32>(input: [u8; N]) -> BoundedVec<BoundedVec<Field, N>, "@
                + decimal(substrings.len())).is_prefix_of(matches_input)
            &&& "pub unconstrained fn __regex_match<let N: u32>(input: [u8; N]) -> "@.is_prefix_of(
                extracts,
            )
        }),
{
    match_is_complete_in_the_state_of_type_accept(regex, a, h);
    lemma_program_parts(regex, true, sparse);
    let substrings = regex.substrings.substring_ranges@;
    let ids = seq![regex.dfa.states@[a].state_id, behind(regex, h)];
    lemma_regrouped(
        table_declaration(regex, sparse).skip(1),
        "\n\n"@,
        constrain_function(substrings.len() > 1),
        match_function(substrings, ids, sparse is Some),
        extract_function(regex.regex_pattern@, substrings, ids, sparse is Some),
    );
    lemma_constrain_head(substrings.len() > 1);
    lemma_match_head(substrings, ids, sparse is Some);
    lemma_extract_head(regex.regex_pattern@, substrings, ids, sparse is Some);
}

proof fn lemma_regrouped(
    table: Seq<char>,
    between: Seq<char>,
    a: Seq<char>,
    b: Seq<char>,
    c: Seq<char>,
)
    ensures
        table + (between + a + between + b + between + c) == table + between + a + between + b
            + between + c,
{
    assert(table + (between + a + between + b + between + c) =~= table + between + a + between + b
        + between + c);
}

proof fn lemma_match_head(substrings: Seq<BTreeSet<(usize, usize)>>, ids: Seq<usize>, sparse: bool)
    requires
        ids.len() == 2,
    ensures
        (MATCH_HEAD@ + decimal(substrings.len())).is_prefix_of(
            match_function(substrings, ids, sparse),
        ),
{
    let head = MATCH_HEAD@ + decimal(substrings.len());
    assert(head =~= match_function(substrings, ids, sparse).take(head.len() as int));
}

proof fn lemma_extract_head(
    pattern: Seq<char>,
    substrings: Seq<BTreeSet<(usize, usize)>>,
    ids: Seq<usize>,
    sparse: bool,
)
    requires
        ids.len() == 2,
    ensures
        EXTRACT_HEAD@.is_prefix_of(extract_function(pattern, substrings, ids, sparse)),
{
    let extracts = extract_function(pattern, substrings, ids, sparse);
    assert(EXTRACT_HEAD@ =~= extracts.take(EXTRACT_HEAD@.len() as int));
}

proof fn lemma_constrain_head(several: bool)
    ensures
        "pub fn constrain_substrings<"@.is_prefix_of(constrain_function(several)),
{
    let constrains = constrain_function(several);
    let head = CONSTRAIN_HEAD@;
    let start = "pub fn constrain_substrings<"@;
    assert(head =~= constrains.take(head.len() as int));
    assert(start.len() <= head.len() && start =~= head.take(start.len() as int)) by {
        reveal_strlit("pub fn constrain_substrings<");
        reveal_strlit("pub fn constrain_substrings<let INPUT_LEN: u32, let NUM_SUBSTRINGS: u32>(\n    input: [u8; INPUT_LEN], \n    substrings: BoundedVec<BoundedVec<Field, INPUT_LEN>, NUM_SUBSTRINGS>, \n    ");
    }
    assert(start =~= constrains.take(start.len() as int));
}

/// Without substrings the program does not depend on them: two expressions that differ only in
/// their substrings have the same program.
pub proof fn program_without_substrings_does_not_depend_on_them(
    one: RegexAndDFA,
    other: RegexAndDFA,
    sparse: Option<Seq<char>>,
)
    requires
        one.regex_pattern@ == other.regex_pattern@,
        one.dfa.states@ == other.dfa.states@,
        one.has_end_anchor == other.has_end_anchor,
    ensures
        program(one, false, sparse) == program(other, false, sparse),
{
}

/// The functions do not depend on the transitions: two expressions whose accepting states have
/// the same number, and whose highest states have the same number, have the same functions where
/// the expressions and their substrings are the same. The table alone tells their transitions.
pub proof fn functions_do_not_depend_on_the_transitions(
    one: RegexAndDFA,
    other: RegexAndDFA,
    gen_substrs: bool,
    sparse: bool,
    a: int,
    b: int,
    h: int,
    k: int,
)
    requires
        only_accepting(one.dfa.states@, a),
        only_accepting(other.dfa.states@, b),
        highest_at(one.dfa.states@, h),
        highest_at(other.dfa.states@, k),
        one.dfa.states@[a].state_id == other.dfa.states@[b].state_id,
        one.dfa.states@[h].state_id == other.dfa.states@[k].state_id,
        has_room_for_extra(one),
        has_room_for_extra(other),
        one.regex_pattern@ == other.regex_pattern@,
        one.has_end_anchor == other.has_end_anchor,
        one.substrings.substring_ranges@ == other.substrings.substring_ranges@,
    ensures
        functions(one, gen_substrs, sparse) == functions(other, gen_substrs, sparse),
{
    match_is_complete_in_the_state_of_type_accept(one, a, h);
    match_is_complete_in_the_state_of_type_accept(other, b, k);
}

/// The kind of the table decides on its declaration. A sparse table is declared with the given
/// value, whatever the expression is, and only white space stands behind it. Another table is
/// declared with a block of 256 entries for each state and for the extra state where there is
/// one, and with the rows of the table.
pub proof fn declaration_is_the_value_or_the_rows(regex: RegexAndDFA, value: Seq<char>)
    ensures
        exists|rest: Seq<char>| #[trigger]
            blank(rest) && table_declaration(regex, Some(value)) == "\nglobal table: "@ + value + rest,
        table_declaration(regex, None) == dense_table(
            table_rows(regex),
            (256 * (regex.dfa.states@.len() + if regex.has_end_anchor { 0int } else { 1 })) as nat,
        ),
{
    assert(blank(SPARSE_TABLE_END@)) by {
        reveal_strlit("\n\n            ");
    }
    assert(table_declaration(regex, Some(value)) == "\nglobal table: "@ + value + SPARSE_TABLE_END@);
}

/// The list of cases in the program, line by line: behind the opening bracket one line for each
/// step of the substrings, then the step from the state of the type `accept`, whatever its place
/// among the numbers, to the one behind the highest, then the step from there to itself.
#[verifier::rlimit(40)]
pub proof fn program_lists_the_steps_and_the_end_of_the_match(
    regex: RegexAndDFA,
    a: int,
    h: int,
    sparse: Option<Seq<char>>,
)
    requires
        only_accepting(regex.dfa.states@, a),
        highest_at(regex.dfa.states@, h),
        has_room_for_extra(regex),
        !regex.has_end_anchor,
    ensures
        ({
            let substrings = regex.substrings.substring_ranges@;
            let accept = regex.dfa.states@[a].state_id;
            let extra = behind(regex, h);
            let list = case_list(substrings, accept, extra);
            &&& occurs_in(list, program(regex, true, sparse))
            &&& lines(list) == seq!["["@] + (if substrings.len() == 0 {
                seq![Seq::empty()]
            } else {
                substrings.flat_map(case_lines())
            }) + seq![
                spaces(12) + step_text(accept, extra) + ","@,
                spaces(12) + step_text(extra, extra),
                "\t\t];"@,
            ]
        }),
{
    let substrings = regex.substrings.substring_ranges@;
    let accept = regex.dfa.states@[a].state_id;
    let extra = behind(regex, h);
    let (before, rest) = lemma_program_around_the_cases(regex, a, h, sparse);
    lemma_occurs(before, case_list(substrings, accept, extra), rest);
    cases_are_the_steps_and_the_end_of_the_match(substrings, accept, extra);
}

proof fn lemma_occurs(before: Seq<char>, part: Seq<char>, rest: Seq<char>)
    ensures
        occurs_in(part, before + part + rest),
{
    let text = before + part + rest;
    let i = before.len() as int;
    assert(text.subrange(i, i + part.len()) =~= part);
}

#[verifier::rlimit(40)]
proof fn lemma_program_around_the_cases(
    regex: RegexAndDFA,
    a: int,
    h: int,
    sparse: Option<Seq<char>>,
) -> (r: (Seq<char>, Seq<char>))
    requires
        only_accepting(regex.dfa.states@, a),
        highest_at(regex.dfa.states@, h),
        has_room_for_extra(regex),
        !regex.has_end_anchor,
    ensures
        program(regex, true, sparse) == r.0 + case_list(
            regex.substrings.substring_ranges@,
            regex.dfa.states@[a].state_id,
            behind(regex, h),
        ) + r.1,
{
    let substrings = regex.substrings.substring_ranges@;
    let several = substrings.len() > 1;
    let ids = seq![regex.dfa.states@[a].state_id, behind(regex, h)];
    let frame = match_frame(several);
    let condition = state_condition(ids);
    let upto = before_the_cases(substrings, ids, sparse is Some);
    let start = table_declaration(regex, sparse).skip(1) + "\n\n"@ + constrain_function(several)
        + "\n\n"@;
    let extracts = extract_function(regex.regex_pattern@, substrings, ids, sparse is Some);
    program_with_substrings_is_the_table_and_three_functions(regex, a, h, sparse);
    lemma_cases_in_the_function(substrings, ids, sparse is Some);
    lemma_surrounded(
        start,
        upto,
        case_list(substrings, ids[0], ids[1]),
        frame[7],
        condition,
        frame[8],
        "\n\n"@,
        extracts,
    );
    (start + upto, frame[7] + condition + frame[8] + "\n\n"@ + extracts)
}

/// What stands before the list of cases in the function that checks the match.
spec fn before_the_cases(
    substrings: Seq<BTreeSet<(usize, usize)>>,
    ids: Seq<usize>,
    sparse: bool,
) -> Seq<char> {
    filled_up_to(
        match_frame(substrings.len() > 1),
        seq![
            decimal(substrings.len()),
            decimal(substrings.len()),
            table_access("255"@, sparse),
            table_access("s * 256 + temp"@, sparse),
            table_access("temp"@, sparse),
            range_check(substrings.len()),
            case_list(substrings, ids[0], ids[1]),
            state_condition(ids),
        ],
        6,
    )
}

proof fn lemma_cases_in_the_function(
    substrings: Seq<BTreeSet<(usize, usize)>>,
    ids: Seq<usize>,
    sparse: bool,
)
    requires
        ids.len() == 2,
    ensures
        match_function(substrings, ids, sparse) == before_the_cases(substrings, ids, sparse)
            + case_list(substrings, ids[0], ids[1]) + match_frame(substrings.len() > 1)[7]
            + state_condition(ids) + match_frame(substrings.len() > 1)[8],
{
    lemma_match_frame(substrings, ids, sparse);
    reveal_with_fuel(filled_up_to, 3);
}

proof fn lemma_surrounded(
    start: Seq<char>,
    a: Seq<char>,
    list: Seq<char>,
    b: Seq<char>,
    c: Seq<char>,
    d: Seq<char>,
    between: Seq<char>,
    e: Seq<char>,
)
    ensures
        start + (a + list + b + c + d) + between + e == (start + a) + list + (b + c + d + between + e),
{
    assert(start + (a + list + b + c + d) + between + e =~= (start + a) + list + (b + c + d + between
        + e));
}

} // verus!
