//! The two kinds of tables: a program with a sparse table is the program with an array, with
//! the accesses to the table written by key.

use std::collections::BTreeSet;
use vstd::prelude::*;

use crate::fixed_text::{
    calm, conditions_are_calm, fixed_text_is_calm, places_are_calm, plain, results_are_calm,
    separators_are_calm, word_letter,
};
use crate::noir::{
    as_case, as_cases, as_state_condition, as_step_condition, branch, branches, case_list,
    collecting_steps, constrain_function, dense_table, extract_function, extract_type, functions,
    index_definitions, match_function, plain_function, program, range_check, sparse_table,
    state_condition, step_condition, substring_cases, substring_condition, table_access,
};
use crate::ordered::in_order;
use crate::reading::{is_digit, lemma_decimal_is_digits, program_is_the_table_and_the_functions};
use crate::structs::RegexAndDFA;
use crate::table::{accept_ids, table_len, table_rows, Row};
use crate::template::{
    BRANCH_BODY, BRANCH_OPEN, BRANCH_START_INDEX, CONSTRAIN_BODY, CONSTRAIN_COMMENT, CONSTRAIN_EACH,
    CONSTRAIN_HEAD, CONSTRAIN_LOOP, EXTRACT_ACCEPT, EXTRACT_COMMENT, EXTRACT_END, EXTRACT_HEAD,
    EXTRACT_LOOP, EXTRACT_RESTART, EXTRACT_RESULT, EXTRACT_START, EXTRACT_STATE, EXTRACT_SUBSTRINGS,
    EXTRACT_VARIABLES, MATCH_CALL, MATCH_CASES, MATCH_CONSTRAIN, MATCH_CONSTRAIN_ARGUMENTS, MATCH_END,
    MATCH_FOUND, MATCH_HEAD, MATCH_LOOP, MATCH_RANGE, MATCH_RESTART, MATCH_START, PLAIN_ACCEPT,
    PLAIN_END, PLAIN_HEAD, PLAIN_LOOP, PLAIN_START, SAVE_INDICES, SPARSE_TABLE, SPARSE_TABLE_END,
    STEP_COMPLETE, STEP_END, STEP_RESET, TABLE_TYPE,
};
use crate::text::{
    blank, decimal, indentation, indented, indented_line, joined, lemma_joined_push, lines,
    on_one_line, replaced, spaces, substitution,
};

verus! {

// ---------------------------------------------------------------------------------------
// Rewriting accesses
// ---------------------------------------------------------------------------------------
/// `s` starts with an access to an array.
pub open spec fn starts_access(s: Seq<char>) -> bool {
    s.len() >= 6 && s.take(6) == "table["@
}

/// Nowhere in `s` does an access to an array start.
pub open spec fn mentions_no_access(s: Seq<char>) -> bool {
    forall|i: int| 0 <= i <= s.len() ==> !starts_access(#[trigger] s.skip(i))
}

/// What stands in `s` before the first closing bracket.
pub open spec fn before_bracket(s: Seq<char>) -> Seq<char>
    decreases s.len(),
{
    if s.len() == 0 || s[0] == ']' {
        Seq::empty()
    } else {
        seq![s[0]] + before_bracket(s.skip(1))
    }
}

/// `s` with every access `table[X]` to an array written as the access `table.get(X)` by key.
pub open spec fn keyed(s: Seq<char>) -> Seq<char>
    decreases s.len(),
{
    let index = before_bracket(s.skip(6));
    if s.len() == 0 {
        s
    } else if starts_access(s) && 7 + index.len() <= s.len() {
        "table.get("@ + index + ")"@ + keyed(s.skip(7 + index.len() as int))
    } else {
        seq![s[0]] + keyed(s.skip(1))
    }
}

/// Writing the accesses in `dense` by key gives `sparse`, whatever follows.
#[verifier::opaque]
spec fn rewrites_to(dense: Seq<char>, sparse: Seq<char>) -> bool {
    forall|rest: Seq<char>| #[trigger] keyed(dense + rest) == sparse + keyed(rest)
}

proof fn lemma_one_after_the_other(
    d1: Seq<char>,
    p1: Seq<char>,
    d2: Seq<char>,
    p2: Seq<char>,
)
    requires
        rewrites_to(d1, p1),
        rewrites_to(d2, p2),
    ensures
        rewrites_to(d1 + d2, p1 + p2),
{
    reveal(rewrites_to);
    assert forall|rest: Seq<char>| #[trigger] keyed((d1 + d2) + rest) == (p1 + p2) + keyed(rest) by {
        assert((d1 + d2) + rest =~= d1 + (d2 + rest));
        assert((p1 + p2) + keyed(rest) =~= p1 + (p2 + keyed(rest)));
    }
}

/// A text that mentions no access, and cannot start one at its end, stays as it is.
proof fn lemma_text_stays(t: Seq<char>)
    requires
        mentions_no_access(t),
        t.len() == 0 || !word_letter(t.last()),
    ensures
        rewrites_to(t, t),
{
    reveal(rewrites_to);
    assert forall|rest: Seq<char>| #[trigger] keyed(t + rest) == t + keyed(rest) by {
        lemma_text_stays_before(t, rest);
    }
}

proof fn lemma_text_stays_before(t: Seq<char>, rest: Seq<char>)
    requires
        mentions_no_access(t),
        t.len() == 0 || !word_letter(t.last()),
    ensures
        keyed(t + rest) == t + keyed(rest),
    decreases t.len(),
{
    let all = t + rest;
    if t.len() == 0 {
        assert(all =~= rest);
        assert(t + keyed(rest) =~= keyed(rest));
    } else {
        let tail = t.skip(1);
        if starts_access(all) {
            assert(!starts_access(t.skip(0)));
            assert(t.skip(0) =~= t);
            if t.len() >= 6 {
                assert(t.take(6) =~= all.take(6));
            } else {
                reveal_strlit("table[");
                assert(all.take(6)[t.len() - 1] == t.last());
            }
        }
        assert(all.skip(1) =~= tail + rest);
        assert(mentions_no_access(tail)) by {
            assert forall|i: int| 0 <= i <= tail.len() implies !starts_access(
                #[trigger] tail.skip(i),
            ) by {
                assert(tail.skip(i) =~= t.skip(i + 1));
            }
        }
        lemma_text_stays_before(tail, rest);
        assert(seq![t[0]] + (tail + keyed(rest)) =~= t + keyed(rest));
    }
}

proof fn lemma_before_bracket(x: Seq<char>, rest: Seq<char>)
    requires
        !x.contains(']'),
    ensures
        before_bracket(x + (seq![']'] + rest)) == x,
    decreases x.len(),
{
    let s = x + (seq![']'] + rest);
    if x.len() > 0 {
        let tail = x.skip(1);
        assert(x.contains(x[0]));
        assert(s.skip(1) =~= tail + (seq![']'] + rest));
        assert(!tail.contains(']')) by {
            if tail.contains(']') {
                let k = choose|k: int| 0 <= k < tail.len() && tail[k] == ']';
                assert(x[k + 1] == ']');
            }
        }
        lemma_before_bracket(tail, rest);
        assert(seq![x[0]] + tail =~= x);
    }
}

/// An access to an array becomes an access by key.
proof fn lemma_access_is_rewritten(x: Seq<char>)
    requires
        !x.contains(']'),
    ensures
        rewrites_to(table_access(x, false), table_access(x, true)),
{
    reveal(rewrites_to);
    reveal_strlit("table[");
    reveal_strlit("]");
    assert("]"@ =~= seq![']']);
    assert forall|rest: Seq<char>| #[trigger]
        keyed(table_access(x, false) + rest) == table_access(x, true) + keyed(rest) by {
        let s = table_access(x, false) + rest;
        assert(s.take(6) =~= "table["@);
        assert(s.skip(6) =~= x + (seq![']'] + rest));
        lemma_before_bracket(x, rest);
        assert(s.skip(7 + x.len() as int) =~= rest);
    }
}

/// A plain text mentions no access.
proof fn lemma_plain_mentions_no_access(t: Seq<char>)
    requires
        plain(t),
    ensures
        mentions_no_access(t),
{
    reveal_strlit("table[");
    assert forall|i: int| 0 <= i <= t.len() implies !starts_access(#[trigger] t.skip(i)) by {
        let s = t.skip(i);
        if starts_access(s) {
            assert(s.take(6)[5] == '[' && s.take(6)[4] == 'e');
            assert(t[i + 5] == '[' && t[i + 4] == 'e');
        }
    }
}

/// A calm text behind a rewritten one.
proof fn lemma_then_text(d: Seq<char>, p: Seq<char>, t: Seq<char>)
    requires
        rewrites_to(d, p),
        calm(t),
    ensures
        rewrites_to(d + t, p + t),
{
    reveal(calm);
    lemma_plain_mentions_no_access(t);
    lemma_text_stays(t);
    lemma_one_after_the_other(d, p, t, t);
}

/// An access behind a rewritten text.
proof fn lemma_then_access(d: Seq<char>, p: Seq<char>, x: Seq<char>)
    requires
        rewrites_to(d, p),
        !x.contains(']'),
    ensures
        rewrites_to(d + table_access(x, false), p + table_access(x, true)),
{
    lemma_access_is_rewritten(x);
    lemma_one_after_the_other(d, p, table_access(x, false), table_access(x, true));
}

// ---------------------------------------------------------------------------------------
// Texts that hold no access
// ---------------------------------------------------------------------------------------
/// Calm texts in a row are calm.
pub proof fn lemma_calm_add(a: Seq<char>, b: Seq<char>)
    requires
        calm(a),
        calm(b),
    ensures
        calm(a + b),
{
    reveal(calm);
    let s = a + b;
    assert forall|i: int| 1 <= i < s.len() && #[trigger] s[i] == '[' implies s[i - 1] != 'e' by {
        if i < a.len() {
            assert(a[i] == '[');
        } else if i > a.len() {
            assert(b[i - a.len()] == '[');
        }
    }
}

/// A number is calm.
pub proof fn lemma_decimal_is_calm(n: nat)
    ensures
        calm(decimal(n)),
{
    reveal(calm);
    lemma_decimal_is_digits(n);
    let s = decimal(n);
    assert(s.len() > 0);
    assert(is_digit(s[s.len() - 1]));
}

/// All parts are calm.
spec fn all_calm(parts: Seq<Seq<char>>) -> bool {
    forall|i: int| 0 <= i < parts.len() ==> calm(#[trigger] parts[i])
}

proof fn lemma_joined_is_calm(parts: Seq<Seq<char>>, separator: Seq<char>)
    requires
        all_calm(parts),
        calm(separator),
    ensures
        calm(joined(parts, separator)),
    decreases parts.len(),
{
    if parts.len() == 0 {
        reveal(calm);
    }
    if parts.len() > 0 {
        let front = parts.drop_last();
        assert(parts =~= front.push(parts.last()));
        assert(calm(parts[parts.len() - 1]));
        assert(all_calm(front)) by {
            assert forall|i: int| 0 <= i < front.len() implies calm(#[trigger] front[i]) by {
                assert(front[i] == parts[i]);
            }
        }
        lemma_joined_push(front, separator, parts.last());
        lemma_joined_is_calm(front, separator);
        lemma_calm_add(joined(front, separator), separator);
        lemma_calm_add(joined(front, separator) + separator, parts.last());
    }
}

/// The lines of a plain text are plain.
pub proof fn lemma_lines_are_plain(s: Seq<char>)
    requires
        plain(s),
    ensures
        lines(s).len() > 0,
        forall|i: int| 0 <= i < lines(s).len() ==> plain(#[trigger] lines(s)[i]),
        lines(s).last().len() > 0 ==> s.len() > 0 && lines(s).last().last() == s.last(),
    decreases s.len(),
{
    if s.len() > 0 {
        let rest = s.drop_last();
        let before = lines(rest);
        assert(plain(rest)) by {
            assert forall|i: int| 1 <= i < rest.len() && #[trigger] rest[i] == '[' implies rest[i
                - 1] != 'e' by {
                assert(s[i] == '[');
            }
        }
        lemma_lines_are_plain(rest);
        if s.last() != '\n' {
            let line = before.last();
            let longer = line.push(s.last());
            assert(plain(before[before.len() - 1]));
            assert(plain(longer)) by {
                assert forall|i: int| 1 <= i < longer.len() && #[trigger] longer[i] == '[' implies
                    longer[i - 1] != 'e' by {
                    if i < line.len() {
                        assert(line[i] == '[');
                    } else {
                        assert(s[s.len() - 1] == '[');
                    }
                }
            }
            assert forall|i: int| 0 <= i < lines(s).len() implies plain(#[trigger] lines(s)[i]) by {
                if i < before.len() - 1 {
                    assert(lines(s)[i] == before[i]);
                }
            }
        } else {
            assert forall|i: int| 0 <= i < lines(s).len() implies plain(#[trigger] lines(s)[i]) by {
                if i < before.len() {
                    assert(lines(s)[i] == before[i]);
                }
            }
        }
    }
}

proof fn lemma_joined_lines_are_plain(parts: Seq<Seq<char>>)
    requires
        forall|i: int| 0 <= i < parts.len() ==> plain(#[trigger] parts[i]),
    ensures
        plain(joined(parts, seq!['\n'])),
    decreases parts.len(),
{
    let feed = seq!['\n'];
    if parts.len() > 0 {
        let front = parts.drop_last();
        let last = parts.last();
        assert(parts =~= front.push(last));
        assert(plain(parts[parts.len() - 1]));
        assert forall|i: int| 0 <= i < front.len() implies plain(#[trigger] front[i]) by {
            assert(front[i] == parts[i]);
        }
        lemma_joined_lines_are_plain(front);
        lemma_joined_push(front, feed, last);
        let a = joined(front, feed);
        let s = joined(parts, feed);
        if front.len() > 0 {
            assert forall|i: int| 1 <= i < s.len() && #[trigger] s[i] == '[' implies s[i - 1]
                != 'e' by {
                if i < a.len() {
                    assert(a[i] == '[');
                } else if i > a.len() + 1 {
                    assert(last[i - a.len() - 1] == '[');
                }
            }
        }
    }
}

/// Indentation keeps a text calm.
proof fn lemma_indented_is_calm(s: Seq<char>, level: nat)
    requires
        calm(s),
    ensures
        calm(indented(s, level)),
{
    reveal(calm);
    lemma_lines_are_plain(s);
    let all = lines(s);
    let shifted = all.map_values(indentation(level));
    assert forall|i: int| 0 <= i < shifted.len() implies plain(#[trigger] shifted[i]) by {
        let line = all[i];
        assert(plain(line));
        if !blank(line) {
            let t = spaces(4 * level) + line;
            assert forall|k: int| 1 <= k < t.len() && #[trigger] t[k] == '[' implies t[k - 1]
                != 'e' by {
                if k > 4 * level {
                    assert(line[k - 4 * level] == '[');
                }
            }
        }
    }
    lemma_joined_lines_are_plain(shifted);
    let front = shifted.drop_last();
    assert(shifted =~= front.push(shifted.last()));
    lemma_joined_push(front, seq!['\n'], shifted.last());
    if all.last().len() > 0 {
        assert(shifted.last() == indented_line(all.last(), level));
        assert(shifted.last().last() == s.last());
        assert(indented(s, level).last() == s.last());
    } else {
        assert(shifted.last() == all.last());
        assert(front.len() > 0 ==> indented(s, level).last() == '\n');
    }
}

/// A calm text stays as it is.
proof fn lemma_calm_stays(t: Seq<char>)
    requires
        calm(t),
    ensures
        rewrites_to(t, t),
{
    reveal(calm);
    lemma_plain_mentions_no_access(t);
    lemma_text_stays(t);
}

proof fn lemma_step_condition_is_calm(from: usize, to: usize)
    ensures
        calm(step_condition(from, to)),
{
    conditions_are_calm();
    lemma_decimal_is_calm(from as nat);
    lemma_decimal_is_calm(to as nat);
    let t = "(s == "@;
    lemma_calm_add(t, decimal(from as nat));
    let t = t + decimal(from as nat);
    lemma_calm_add(t, ") & (s_next == "@);
    let t = t + ") & (s_next == "@;
    lemma_calm_add(t, decimal(to as nat));
    let t = t + decimal(to as nat);
    lemma_calm_add(t, ")"@);
    let t = t + ")"@;
}

proof fn lemma_state_condition_is_calm(ids: Seq<usize>)
    ensures
        calm(state_condition(ids)),
{
    conditions_are_calm();
    let parts = ids.map_values(as_state_condition());
    assert forall|i: int| 0 <= i < parts.len() implies calm(#[trigger] parts[i]) by {
        let number = decimal(ids[i] as nat);
        lemma_decimal_is_calm(ids[i] as nat);
        lemma_calm_add("(s == "@, number);
        lemma_calm_add("(s == "@ + number, ")"@);
    }
    lemma_joined_is_calm(parts, " | "@);
}

proof fn lemma_substring_condition_is_calm(steps: Set<(usize, usize)>)
    ensures
        calm(substring_condition(steps)),
{
    conditions_are_calm();
    let list = in_order(steps);
    let parts = list.map_values(as_step_condition());
    assert forall|i: int| 0 <= i < parts.len() implies calm(#[trigger] parts[i]) by {
        lemma_step_condition_is_calm(list[i].0, list[i].1);
    }
    lemma_joined_is_calm(parts, " | "@);
}

proof fn lemma_substring_cases_are_calm(steps: Set<(usize, usize)>)
    ensures
        calm(substring_cases(steps)),
{
    separators_are_calm();
    let list = in_order(steps);
    let parts = list.map_values(as_case());
    assert forall|i: int| 0 <= i < parts.len() implies calm(#[trigger] parts[i]) by {
        let condition = step_condition(list[i].0, list[i].1);
        lemma_step_condition_is_calm(list[i].0, list[i].1);
        lemma_calm_add(condition, ","@);
        lemma_indented_is_calm(condition + ","@, 3);
    }
    lemma_joined_is_calm(parts, "\n"@);
}

proof fn lemma_case_list_is_calm(
    substrings: Seq<BTreeSet<(usize, usize)>>,
    accept: usize,
    extra: usize,
)
    ensures
        calm(case_list(substrings, accept, extra)),
{
    separators_are_calm();
    let parts = substrings.map_values(as_cases());
    assert forall|i: int| 0 <= i < parts.len() implies calm(#[trigger] parts[i]) by {
        lemma_substring_cases_are_calm(substrings[i]@);
    }
    lemma_joined_is_calm(parts, "\n"@);
    lemma_step_condition_is_calm(accept, extra);
    lemma_step_condition_is_calm(extra, extra);
    lemma_indented_is_calm(step_condition(accept, extra), 3);
    lemma_indented_is_calm(step_condition(extra, extra), 3);
    let t = "[\n"@;
    lemma_calm_add(t, joined(parts, "\n"@));
    let t = t + joined(parts, "\n"@);
    lemma_calm_add(t, "\n"@);
    let t = t + "\n"@;
    lemma_calm_add(t, indented(step_condition(accept, extra), 3));
    let t = t + indented(step_condition(accept, extra), 3);
    lemma_calm_add(t, ",\n"@);
    let t = t + ",\n"@;
    lemma_calm_add(t, indented(step_condition(extra, extra), 3));
    let t = t + indented(step_condition(extra, extra), 3);
    lemma_calm_add(t, "\n\t\t];"@);
    let t = t + "\n\t\t];"@;
}

proof fn lemma_branch_is_calm(first: bool, steps: Set<(usize, usize)>)
    ensures
        calm(branch(first, steps)),
{
    separators_are_calm();
    fixed_text_is_calm();
    lemma_substring_condition_is_calm(steps);
    let word = (if first {
        "if"
    } else {
        "else if"
    })@;
    let start = (if first {
        BRANCH_START_INDEX
    } else {
        ""
    })@;
    let t = word;
    lemma_calm_add(t, " ("@);
    let t = t + " ("@;
    lemma_calm_add(t, substring_condition(steps));
    let t = t + substring_condition(steps);
    lemma_calm_add(t, BRANCH_OPEN@);
    let t = t + BRANCH_OPEN@;
    lemma_calm_add(t, start);
    let t = t + start;
    lemma_calm_add(t, BRANCH_BODY@);
    let t = t + BRANCH_BODY@;
}

proof fn lemma_collecting_steps_are_calm(
    substrings: Seq<BTreeSet<(usize, usize)>>,
    accept: usize,
    extra: usize,
)
    ensures
        calm(collecting_steps(substrings, accept, extra)),
{
    separators_are_calm();
    fixed_text_is_calm();
    let parts = branches(substrings);
    assert forall|i: int| 0 <= i < parts.len() implies calm(#[trigger] parts[i]) by {
        lemma_branch_is_calm(i == 0, substrings[i]@);
    }
    lemma_joined_is_calm(parts, "\n"@);
    lemma_step_condition_is_calm(accept, extra);
    let indices = (if substrings.len() > 1 {
        SAVE_INDICES
    } else {
        ""
    })@;
    let t = joined(parts, "\n"@);
    lemma_calm_add(t, STEP_RESET@);
    let t = t + STEP_RESET@;
    lemma_calm_add(t, step_condition(accept, extra));
    let t = t + step_condition(accept, extra);
    lemma_calm_add(t, STEP_COMPLETE@);
    let t = t + STEP_COMPLETE@;
    lemma_calm_add(t, indices);
    let t = t + indices;
    lemma_calm_add(t, STEP_END@);
    let t = t + STEP_END@;
    lemma_indented_is_calm(t, 2);
}

proof fn lemma_numbered_texts_are_calm(count: nat)
    ensures
        calm(range_check(count)),
        calm(extract_type(count)),
        calm(index_definitions(count)),
{
    separators_are_calm();
    conditions_are_calm();
    results_are_calm();
    lemma_decimal_is_calm(count);
    let number = decimal(count);
    lemma_calm_add("i >= start_indices[0] & i <= end_indices["@, number);
    lemma_calm_add("i >= start_indices[0] & i <= end_indices["@ + number, "]"@);
    let head = "(BoundedVec<BoundedVec<Field, N>, "@ + number;
    lemma_calm_add("(BoundedVec<BoundedVec<Field, N>, "@, number);
    lemma_calm_add(head, ">, u32, u32)"@);
    let t = head;
    lemma_calm_add(t, ">, [u32; "@);
    let t = t + ">, [u32; "@;
    lemma_calm_add(t, number);
    let t = t + number;
    lemma_calm_add(t, "], [u32; "@);
    let t = t + "], [u32; "@;
    lemma_calm_add(t, number);
    let t = t + number;
    lemma_calm_add(t, "])"@);
    let t = t + "])"@;
    let t = "let mut start_indices: [u32; "@;
    lemma_calm_add(t, number);
    let t = t + number;
    lemma_calm_add(t, "] = [0; "@);
    let t = t + "] = [0; "@;
    lemma_calm_add(t, number);
    let t = t + number;
    lemma_calm_add(t, "];\n\tlet mut end_indices: [u32; "@);
    let t = t + "];\n\tlet mut end_indices: [u32; "@;
    lemma_calm_add(t, number);
    let t = t + number;
    lemma_calm_add(t, "] = [0; "@);
    let t = t + "] = [0; "@;
    lemma_calm_add(t, number);
    let t = t + number;
    lemma_calm_add(t, "];"@);
    let t = t + "];"@;
}

proof fn lemma_constrain_function_is_calm(several: bool)
    ensures
        calm(constrain_function(several)),
{
    separators_are_calm();
    places_are_calm();
    fixed_text_is_calm();
    let parameters = (if several {
        "start_indices: [u32; NUM_SUBSTRINGS],\n\tend_indices: [u32; NUM_SUBSTRINGS]"
    } else {
        "start: u32,\n\tend: u32"
    })@;
    let only = (if several {
        ""
    } else {
        "let substring = substrings.get_unchecked(0);\n"
    })@;
    let plural = (if several {
        "s"
    } else {
        ""
    })@;
    let each = (if several {
        CONSTRAIN_EACH
    } else {
        ""
    })@;
    let close = (if several {
        "\n}"
    } else {
        ""
    })@;
    let t = CONSTRAIN_HEAD@;
    lemma_calm_add(t, parameters);
    let t = t + parameters;
    lemma_calm_add(t, CONSTRAIN_BODY@);
    let t = t + CONSTRAIN_BODY@;
    lemma_calm_add(t, only);
    let t = t + only;
    lemma_calm_add(t, CONSTRAIN_COMMENT@);
    let t = t + CONSTRAIN_COMMENT@;
    lemma_calm_add(t, plural);
    let t = t + plural;
    lemma_calm_add(t, " "@);
    let t = t + " "@;
    lemma_calm_add(t, each);
    let t = t + each;
    lemma_calm_add(t, CONSTRAIN_LOOP@);
    let t = t + CONSTRAIN_LOOP@;
    lemma_calm_add(t, close);
    let t = t + close;
    lemma_calm_add(t, "\n}"@);
    let t = t + "\n}"@;
}

// ---------------------------------------------------------------------------------------
// The regular expression in the comment
// ---------------------------------------------------------------------------------------
/// What the escaped text ends with, the text ends with, if it holds nothing of the escapes.
proof fn lemma_end_is_not_replaced(s: Seq<char>, from: char, to: Seq<char>, end: Seq<char>)
    requires
        to.len() > 0,
        forall|i: int| 0 <= i < end.len() ==> !to.contains(#[trigger] end[i]),
        end.len() <= replaced(s, from, to).len(),
        end == replaced(s, from, to).skip(replaced(s, from, to).len() - end.len()),
    ensures
        end.len() <= s.len(),
        end == s.skip(s.len() - end.len()),
    decreases end.len(),
{
    let all = replaced(s, from, to);
    if end.len() == 0 {
        assert(end =~= s.skip(s.len() as int));
    } else {
        assert(all.last() == end.last());
        assert(s.len() > 0) by {
            if s.len() == 0 {
                assert(s.map_values(substitution(from, to)) =~= Seq::empty());
                assert(all =~= Seq::empty());
            }
        }
        let rest = s.drop_last();
        assert(s =~= rest.push(s.last()));
        rest.lemma_flat_map_push(substitution(from, to), s.last());
        assert(!to.contains(end[end.len() - 1]));
        if s.last() == from {
            assert(all.last() == to[to.len() - 1]);
            assert(to.contains(to[to.len() - 1]));
        }
        let before = replaced(rest, from, to);
        assert(all == before.push(s.last()));
        let shorter = end.drop_last();
        assert(shorter =~= before.skip(before.len() - shorter.len()));
        lemma_end_is_not_replaced(rest, from, to, shorter);
        assert(end.last() == s.last());
        assert(end =~= shorter.push(end.last()));
        assert(s.skip(s.len() - end.len()) =~= rest.skip(rest.len() - shorter.len()).push(s.last()));
    }
}

/// Replacing a character does not make an access appear, if no character of an access is put in.
proof fn lemma_replacing_adds_no_access(s: Seq<char>, from: char, to: Seq<char>)
    requires
        mentions_no_access(s),
        to.len() > 0,
        forall|i: int| 0 <= i < 6 ==> !to.contains(#[trigger] "table["@[i]),
    ensures
        mentions_no_access(replaced(s, from, to)),
    decreases s.len(),
{
    let word = "table["@;
    reveal_strlit("table[");
    let all = replaced(s, from, to);
    assert forall|i: int| 0 <= i <= all.len() implies !starts_access(#[trigger] all.skip(i)) by {
        if starts_access(all.skip(i)) {
            assert(all.skip(i).take(6) == word);
            assert(s.len() > 0) by {
                if s.len() == 0 {
                    assert(s.map_values(substitution(from, to)) =~= Seq::empty());
                    assert(all =~= Seq::empty());
                }
            }
            let rest = s.drop_last();
            let before = replaced(rest, from, to);
            assert(s =~= rest.push(s.last()));
            rest.lemma_flat_map_push(substitution(from, to), s.last());
            assert(mentions_no_access(rest)) by {
                assert forall|k: int| 0 <= k <= rest.len() implies !starts_access(
                    #[trigger] rest.skip(k),
                ) by {
                    if starts_access(rest.skip(k)) {
                        assert(s.skip(k).take(6) =~= rest.skip(k).take(6));
                    }
                }
            }
            lemma_replacing_adds_no_access(rest, from, to);
            if i + 6 <= before.len() {
                assert(before.skip(i).take(6) =~= all.skip(i).take(6));
                assert(starts_access(before.skip(i)));
            } else {
                let c = all.skip(i).take(6)[5];
                assert(c == all[i + 5]);
                assert(!to.contains(word[5]));
                if s.last() == from {
                    assert(to[i + 5 - before.len()] == c);
                } else {
                    assert(all.len() == before.len() + 1);
                    assert(word =~= all.skip(all.len() - 6));
                    lemma_end_is_not_replaced(s, from, to, word);
                    assert(s.skip(s.len() - 6).take(6) =~= word);
                    assert(starts_access(s.skip(s.len() - 6)));
                }
            }
        }
    }
}

proof fn lemma_escaping_adds_no_access(s: Seq<char>)
    requires
        mentions_no_access(s),
    ensures
        mentions_no_access(on_one_line(s)),
{
    reveal_strlit("table[");
    reveal_strlit("\\n");
    reveal_strlit("\\r");
    lemma_replacing_adds_no_access(s, '\n', "\\n"@);
    lemma_replacing_adds_no_access(replaced(s, '\n', "\\n"@), '\r', "\\r"@);
}

/// A text without accesses, and a calm text on the next lines, behind a rewritten one.
proof fn lemma_then_pattern(d: Seq<char>, p: Seq<char>, text: Seq<char>, next: Seq<char>)
    requires
        rewrites_to(d, p),
        mentions_no_access(text),
        calm(next),
        next.len() > 0,
        next[0] == '\n',
    ensures
        rewrites_to(d + text + next, p + text + next),
{
    reveal(calm);
    reveal_strlit("table[");
    let both = text + next;
    lemma_plain_mentions_no_access(next);
    assert forall|i: int| 0 <= i <= both.len() implies !starts_access(#[trigger] both.skip(i)) by {
        if starts_access(both.skip(i)) {
            let word = both.skip(i).take(6);
            if i >= text.len() {
                assert(next.skip(i - text.len()).take(6) =~= word);
                assert(starts_access(next.skip(i - text.len())));
            } else if i + 6 <= text.len() {
                assert(text.skip(i).take(6) =~= word);
                assert(starts_access(text.skip(i)));
            } else {
                assert(word[text.len() - i] == next[0]);
            }
        }
    }
    lemma_text_stays(both);
    lemma_one_after_the_other(d, p, both, both);
    assert(d + text + next =~= d + both);
    assert(p + text + next =~= p + both);
}

// ---------------------------------------------------------------------------------------
// The functions of the program
// ---------------------------------------------------------------------------------------
/// The indices of the accesses hold no closing bracket.
proof fn lemma_indices_hold_no_bracket()
    ensures
        !"255"@.contains(']'),
        !"s * 256 + temp"@.contains(']'),
        !"temp"@.contains(']'),
        !"s_idx"@.contains(']'),
{
    reveal_strlit("255");
    reveal_strlit("s * 256 + temp");
    reveal_strlit("temp");
    reveal_strlit("s_idx");
}

/// The text behind the regular expression starts on the next line.
proof fn lemma_regex_ends_its_line()
    ensures
        EXTRACT_SUBSTRINGS@.len() > 0 && EXTRACT_SUBSTRINGS@[0] == '\n',
        PLAIN_START@.len() > 0 && PLAIN_START@[0] == '\n',
{
    reveal_strlit("\n    let mut substrings: BoundedVec<BoundedVec<Field, N>, ");
    reveal_strlit("\n    let mut s = 0;\n    s = ");
}

proof fn lemma_match_function_is_rewritten(
    substrings: Seq<BTreeSet<(usize, usize)>>,
    ids: Seq<usize>,
)
    ensures
        rewrites_to(match_function(substrings, ids, false), match_function(substrings, ids, true)),
{
    let count = substrings.len();
    let places = (if count > 1 {
        "start_indices, end_indices"
    } else {
        "start, end"
    })@;
    places_are_calm();
    fixed_text_is_calm();
    lemma_indices_hold_no_bracket();
    lemma_decimal_is_calm(count);
    lemma_numbered_texts_are_calm(count);
    lemma_case_list_is_calm(substrings, ids[0], ids[1]);
    lemma_state_condition_is_calm(ids);
    lemma_calm_stays(MATCH_HEAD@);
    let d = MATCH_HEAD@;
    let p = MATCH_HEAD@;
    lemma_then_text(d, p, decimal(count));
    let d = d + decimal(count);
    let p = p + decimal(count);
    lemma_then_text(d, p, MATCH_CALL@);
    let d = d + MATCH_CALL@;
    let p = p + MATCH_CALL@;
    lemma_then_text(d, p, places);
    let d = d + places;
    let p = p + places;
    lemma_then_text(d, p, MATCH_CONSTRAIN@);
    let d = d + MATCH_CONSTRAIN@;
    let p = p + MATCH_CONSTRAIN@;
    lemma_then_text(d, p, decimal(count));
    let d = d + decimal(count);
    let p = p + decimal(count);
    lemma_then_text(d, p, MATCH_CONSTRAIN_ARGUMENTS@);
    let d = d + MATCH_CONSTRAIN_ARGUMENTS@;
    let p = p + MATCH_CONSTRAIN_ARGUMENTS@;
    lemma_then_text(d, p, places);
    let d = d + places;
    let p = p + places;
    lemma_then_text(d, p, MATCH_START@);
    let d = d + MATCH_START@;
    let p = p + MATCH_START@;
    lemma_then_access(d, p, "255"@);
    let d = d + table_access("255"@, false);
    let p = p + table_access("255"@, true);
    lemma_then_text(d, p, MATCH_LOOP@);
    let d = d + MATCH_LOOP@;
    let p = p + MATCH_LOOP@;
    lemma_then_access(d, p, "s * 256 + temp"@);
    let d = d + table_access("s * 256 + temp"@, false);
    let p = p + table_access("s * 256 + temp"@, true);
    lemma_then_text(d, p, MATCH_RESTART@);
    let d = d + MATCH_RESTART@;
    let p = p + MATCH_RESTART@;
    lemma_then_access(d, p, "temp"@);
    let d = d + table_access("temp"@, false);
    let p = p + table_access("temp"@, true);
    lemma_then_text(d, p, MATCH_RANGE@);
    let d = d + MATCH_RANGE@;
    let p = p + MATCH_RANGE@;
    lemma_then_text(d, p, range_check(count));
    let d = d + range_check(count);
    let p = p + range_check(count);
    lemma_then_text(d, p, MATCH_CASES@);
    let d = d + MATCH_CASES@;
    let p = p + MATCH_CASES@;
    lemma_then_text(d, p, case_list(substrings, ids[0], ids[1]));
    let d = d + case_list(substrings, ids[0], ids[1]);
    let p = p + case_list(substrings, ids[0], ids[1]);
    lemma_then_text(d, p, MATCH_FOUND@);
    let d = d + MATCH_FOUND@;
    let p = p + MATCH_FOUND@;
    lemma_then_text(d, p, state_condition(ids));
    let d = d + state_condition(ids);
    let p = p + state_condition(ids);
    lemma_then_text(d, p, MATCH_END@);
    let d = d + MATCH_END@;
    let p = p + MATCH_END@;
}

proof fn lemma_extract_function_is_rewritten(
    pattern: Seq<char>,
    substrings: Seq<BTreeSet<(usize, usize)>>,
    ids: Seq<usize>,
)
    requires
        mentions_no_access(pattern),
    ensures
        rewrites_to(
            extract_function(pattern, substrings, ids, false),
            extract_function(pattern, substrings, ids, true),
        ),
{
    let count = substrings.len();
    let index = (if count > 1 {
        "let mut substr_index = 0;"
    } else {
        ""
    })@;
    let places = (if count > 1 {
        "start_indices, end_indices"
    } else {
        "start_index, end_index"
    })@;
    separators_are_calm();
    places_are_calm();
    results_are_calm();
    fixed_text_is_calm();
    lemma_indices_hold_no_bracket();
    lemma_regex_ends_its_line();
    lemma_escaping_adds_no_access(pattern);
    lemma_decimal_is_calm(count);
    lemma_numbered_texts_are_calm(count);
    lemma_collecting_steps_are_calm(substrings, ids[0], ids[1]);
    lemma_state_condition_is_calm(ids);
    lemma_calm_stays(EXTRACT_HEAD@);
    let d = EXTRACT_HEAD@;
    let p = EXTRACT_HEAD@;
    lemma_then_text(d, p, extract_type(count));
    let d = d + extract_type(count);
    let p = p + extract_type(count);
    lemma_then_text(d, p, EXTRACT_COMMENT@);
    let d = d + EXTRACT_COMMENT@;
    let p = p + EXTRACT_COMMENT@;
    lemma_then_pattern(d, p, on_one_line(pattern), EXTRACT_SUBSTRINGS@);
    let d = d + on_one_line(pattern) + EXTRACT_SUBSTRINGS@;
    let p = p + on_one_line(pattern) + EXTRACT_SUBSTRINGS@;
    lemma_then_text(d, p, decimal(count));
    let d = d + decimal(count);
    let p = p + decimal(count);
    lemma_then_text(d, p, EXTRACT_VARIABLES@);
    let d = d + EXTRACT_VARIABLES@;
    let p = p + EXTRACT_VARIABLES@;
    lemma_then_text(d, p, index_definitions(count));
    let d = d + index_definitions(count);
    let p = p + index_definitions(count);
    lemma_then_text(d, p, EXTRACT_START@);
    let d = d + EXTRACT_START@;
    let p = p + EXTRACT_START@;
    lemma_then_access(d, p, "255"@);
    let d = d + table_access("255"@, false);
    let p = p + table_access("255"@, true);
    lemma_then_text(d, p, EXTRACT_STATE@);
    let d = d + EXTRACT_STATE@;
    let p = p + EXTRACT_STATE@;
    lemma_then_text(d, p, index);
    let d = d + index;
    let p = p + index;
    lemma_then_text(d, p, EXTRACT_LOOP@);
    let d = d + EXTRACT_LOOP@;
    let p = p + EXTRACT_LOOP@;
    lemma_then_access(d, p, "s * 256 + temp"@);
    let d = d + table_access("s * 256 + temp"@, false);
    let p = p + table_access("s * 256 + temp"@, true);
    lemma_then_text(d, p, MATCH_RESTART@);
    let d = d + MATCH_RESTART@;
    let p = p + MATCH_RESTART@;
    lemma_then_access(d, p, "temp"@);
    let d = d + table_access("temp"@, false);
    let p = p + table_access("temp"@, true);
    lemma_then_text(d, p, EXTRACT_RESTART@);
    let d = d + EXTRACT_RESTART@;
    let p = p + EXTRACT_RESTART@;
    lemma_then_text(d, p, collecting_steps(substrings, ids[0], ids[1]));
    let d = d + collecting_steps(substrings, ids[0], ids[1]);
    let p = p + collecting_steps(substrings, ids[0], ids[1]);
    lemma_then_text(d, p, EXTRACT_ACCEPT@);
    let d = d + EXTRACT_ACCEPT@;
    let p = p + EXTRACT_ACCEPT@;
    lemma_then_text(d, p, state_condition(ids));
    let d = d + state_condition(ids);
    let p = p + state_condition(ids);
    lemma_then_text(d, p, EXTRACT_RESULT@);
    let d = d + EXTRACT_RESULT@;
    let p = p + EXTRACT_RESULT@;
    lemma_then_text(d, p, places);
    let d = d + places;
    let p = p + places;
    lemma_then_text(d, p, EXTRACT_END@);
    let d = d + EXTRACT_END@;
    let p = p + EXTRACT_END@;
}

proof fn lemma_plain_function_is_rewritten(pattern: Seq<char>, ids: Seq<usize>)
    requires
        mentions_no_access(pattern),
    ensures
        rewrites_to(plain_function(pattern, ids, false), plain_function(pattern, ids, true)),
{
    fixed_text_is_calm();
    lemma_indices_hold_no_bracket();
    lemma_regex_ends_its_line();
    lemma_escaping_adds_no_access(pattern);
    lemma_state_condition_is_calm(ids);
    lemma_calm_stays(PLAIN_HEAD@);
    let d = PLAIN_HEAD@;
    let p = PLAIN_HEAD@;
    lemma_then_pattern(d, p, on_one_line(pattern), PLAIN_START@);
    let d = d + on_one_line(pattern) + PLAIN_START@;
    let p = p + on_one_line(pattern) + PLAIN_START@;
    lemma_then_access(d, p, "255"@);
    let d = d + table_access("255"@, false);
    let p = p + table_access("255"@, true);
    lemma_then_text(d, p, PLAIN_LOOP@);
    let d = d + PLAIN_LOOP@;
    let p = p + PLAIN_LOOP@;
    lemma_then_access(d, p, "s_idx"@);
    let d = d + table_access("s_idx"@, false);
    let p = p + table_access("s_idx"@, true);
    lemma_then_text(d, p, PLAIN_ACCEPT@);
    let d = d + PLAIN_ACCEPT@;
    let p = p + PLAIN_ACCEPT@;
    lemma_then_text(d, p, state_condition(ids));
    let d = d + state_condition(ids);
    let p = p + state_condition(ids);
    lemma_then_text(d, p, PLAIN_END@);
    let d = d + PLAIN_END@;
    let p = p + PLAIN_END@;
}

proof fn lemma_functions_are_rewritten(regex: RegexAndDFA, gen_substrs: bool)
    requires
        mentions_no_access(regex.regex_pattern@),
    ensures
        rewrites_to(functions(regex, gen_substrs, false), functions(regex, gen_substrs, true)),
{
    let ids = accept_ids(regex);
    let substrings = regex.substrings.substring_ranges@;
    let pattern = regex.regex_pattern@;
    separators_are_calm();
    if gen_substrs {
        lemma_constrain_function_is_calm(substrings.len() > 1);
        lemma_match_function_is_rewritten(substrings, ids);
        lemma_extract_function_is_rewritten(pattern, substrings, ids);
        let start = "\n\n"@ + constrain_function(substrings.len() > 1);
        lemma_calm_add("\n\n"@, constrain_function(substrings.len() > 1));
        lemma_calm_add(start, "\n\n"@);
        let start = start + "\n\n"@;
        lemma_calm_stays(start);
        let dense = match_function(substrings, ids, false);
        let sparse = match_function(substrings, ids, true);
        lemma_one_after_the_other(start, start, dense, sparse);
        lemma_then_text(start + dense, start + sparse, "\n\n"@);
        lemma_one_after_the_other(
            start + dense + "\n\n"@,
            start + sparse + "\n\n"@,
            extract_function(pattern, substrings, ids, false),
            extract_function(pattern, substrings, ids, true),
        );
    } else {
        lemma_plain_function_is_rewritten(pattern, ids);
        lemma_calm_stays("\n"@);
        lemma_one_after_the_other(
            "\n"@,
            "\n"@,
            plain_function(pattern, ids, false),
            plain_function(pattern, ids, true),
        );
    }
}

proof fn lemma_rewritten_is_keyed(dense: Seq<char>, sparse: Seq<char>)
    requires
        rewrites_to(dense, sparse),
    ensures
        keyed(dense) == sparse,
{
    reveal(rewrites_to);
    let none = Seq::<char>::empty();
    assert(keyed(dense + none) == sparse + keyed(none));
    assert(dense + none =~= dense);
    assert(sparse + keyed(none) =~= sparse);
}

proof fn lemma_skip_in_front(a: Seq<char>, b: Seq<char>)
    requires
        a.len() > 0,
    ensures
        (a + b).skip(1) == a.skip(1) + b,
{
    assert((a + b).skip(1) =~= a.skip(1) + b);
}

proof fn lemma_declarations_start_with_a_feed(rows: Seq<Row>, len: nat, value: Seq<char>)
    ensures
        dense_table(rows, len).len() > 0,
        sparse_table(value).len() > 0,
        sparse_table(value).skip(1) == "global table: "@ + value + SPARSE_TABLE_END@,
{
    reveal_strlit("\nglobal table: [Field; ");
    reveal_strlit("\nglobal table: ");
    reveal_strlit("global table: ");
    assert(TABLE_TYPE@.len() > 0);
    assert(SPARSE_TABLE@.skip(1) =~= "global table: "@);
    lemma_skip_in_front(SPARSE_TABLE@, value);
    lemma_skip_in_front(SPARSE_TABLE@ + value, SPARSE_TABLE_END@);
}

/// A program with a sparse table is the program with an array but for the table: it declares
/// the given value in the place of the array, and behind the declaration every access `table[X]`
/// is written `table.get(X)`. The regular expression, which stands in a comment, must not look
/// like an access itself.
pub proof fn sparse_program_accesses_the_table_by_key(
    regex: RegexAndDFA,
    gen_substrs: bool,
    value: Seq<char>,
)
    requires
        mentions_no_access(regex.regex_pattern@),
    ensures
        program(regex, gen_substrs, None) == dense_table(table_rows(regex), table_len(regex)).skip(1)
            + functions(regex, gen_substrs, false),
        program(regex, gen_substrs, Some(value)) == "global table: "@ + value + SPARSE_TABLE_END@
            + keyed(functions(regex, gen_substrs, false)),
        functions(regex, gen_substrs, true) == keyed(functions(regex, gen_substrs, false)),
{
    let dense = functions(regex, gen_substrs, false);
    let sparse = functions(regex, gen_substrs, true);
    lemma_functions_are_rewritten(regex, gen_substrs);
    lemma_rewritten_is_keyed(dense, sparse);
    program_is_the_table_and_the_functions(regex, gen_substrs, None);
    program_is_the_table_and_the_functions(regex, gen_substrs, Some(value));
    let array = dense_table(table_rows(regex), table_len(regex));
    lemma_declarations_start_with_a_feed(table_rows(regex), table_len(regex), value);
    lemma_skip_in_front(array, dense);
    lemma_skip_in_front(sparse_table(value), sparse);
}

} // verus!
