//! Reading the conditions back: which steps and states they name.

use std::collections::BTreeSet;
use vstd::prelude::*;

use crate::noir::{
    as_case, as_cases, as_state_condition, as_step_condition, branch, branches, case_list,
    collecting_steps, state_condition, step_condition, substring_cases, substring_condition,
};
use crate::ordered::{
    ascending_sequence_is_in_order, in_order, lemma_numbers_are_ordered, numbers_ascend_by_value,
    set_is_enumerated_in_order,
};
use crate::reading::{
    condition_tells_the_step, lemma_decimal_is_digits, lemma_trim_end, lemma_trim_start,
};
use crate::template::{
    BRANCH_BODY, BRANCH_OPEN, BRANCH_START_INDEX, SAVE_INDICES, STEP_COMPLETE, STEP_END, STEP_RESET,
};
use crate::text::{
    blank, decimal, indentation, indented, indented_line, indenting_keeps_the_lines, joined,
    joined_lines_split_again, lemma_joined_push, lines, single_lines, spaces, trimmed, white_space,
};

verus! {

// ---------------------------------------------------------------------------------------
// Cutting a text
// ---------------------------------------------------------------------------------------
/// What stands between the characters `at` of `s`.
pub open spec fn cut(s: Seq<char>, at: char) -> Seq<Seq<char>>
    decreases s.len(),
{
    if s.len() == 0 {
        seq![Seq::empty()]
    } else {
        let before = cut(s.drop_last(), at);
        if s.last() == at {
            before.push(Seq::empty())
        } else {
            before.drop_last().push(before.last().push(s.last()))
        }
    }
}

/// The lines of a text are cut at its line feeds.
pub proof fn lemma_lines_are_cut(s: Seq<char>)
    ensures
        lines(s) == cut(s, '\n'),
    decreases s.len(),
{
    if s.len() > 0 {
        lemma_lines_are_cut(s.drop_last());
    }
}

/// Of two texts in a row, the last piece of the first and the first piece of the second become
/// one.
pub proof fn lemma_cut_append(s: Seq<char>, t: Seq<char>, at: char)
    ensures
        cut(s, at).len() > 0,
        cut(t, at).len() > 0,
        cut(s + t, at) == cut(s, at).drop_last() + seq![cut(s, at).last() + cut(t, at)[0]] + cut(
            t,
            at,
        ).skip(1),
    decreases t.len(),
{
    lemma_cut_is_not_empty(s, at);
    lemma_cut_is_not_empty(t, at);
    let a = cut(s, at);
    if t.len() == 0 {
        assert(s + t =~= s);
        assert(a.last() + Seq::<char>::empty() =~= a.last());
        assert(a.drop_last() + seq![a.last()] + cut(t, at).skip(1) =~= a);
    } else {
        let rest = t.drop_last();
        lemma_cut_append(s, rest, at);
        assert((s + t).drop_last() =~= s + rest);
        assert((s + t).last() == t.last());
        let b = cut(rest, at);
        let before = a.drop_last() + seq![a.last() + b[0]] + b.skip(1);
        let all = a.drop_last() + seq![a.last() + cut(t, at)[0]] + cut(t, at).skip(1);
        if t.last() == at {
            assert(before.push(Seq::empty()) =~= all);
        } else {
            let longer = before.drop_last().push(before.last().push(t.last()));
            if b.len() == 1 {
                assert((a.last() + b[0]).push(t.last()) =~= a.last() + b[0].push(t.last()));
            }
            assert(longer =~= all);
        }
    }
}

proof fn lemma_cut_is_not_empty(s: Seq<char>, at: char)
    ensures
        cut(s, at).len() > 0,
    decreases s.len(),
{
    if s.len() > 0 {
        lemma_cut_is_not_empty(s.drop_last(), at);
    }
}

/// A text without the character is one piece.
pub proof fn lemma_cut_nowhere(s: Seq<char>, at: char)
    requires
        !s.contains(at),
    ensures
        cut(s, at) == seq![s],
    decreases s.len(),
{
    if s.len() == 0 {
        assert(s =~= Seq::empty());
    } else {
        let rest = s.drop_last();
        assert(s[s.len() - 1] != at);
        assert(!rest.contains(at)) by {
            if rest.contains(at) {
                let i = choose|i: int| 0 <= i < rest.len() && rest[i] == at;
                assert(s[i] == at);
            }
        }
        lemma_cut_nowhere(rest, at);
        assert(cut(s, at) =~= seq![s]) by {
            assert(rest.push(s.last()) =~= s);
        }
    }
}

/// The parts of a condition, which stand between bars, without the spaces around them.
pub open spec fn parts_between_bars(s: Seq<char>) -> Seq<Seq<char>> {
    cut(s, '|').map_values(|part: Seq<char>| trimmed(part))
}

/// The parts with the spaces that stand between them and the bars.
spec fn padded(parts: Seq<Seq<char>>) -> Seq<Seq<char>> {
    Seq::new(
        parts.len(),
        |i: int|
            (if i > 0 {
                seq![' ']
            } else {
                Seq::empty()
            }) + parts[i] + (if i < parts.len() - 1 {
                seq![' ']
            } else {
                Seq::empty()
            }),
    )
}

proof fn lemma_joined_parts_are_cut(parts: Seq<Seq<char>>)
    requires
        parts.len() > 0,
        forall|i: int| 0 <= i < parts.len() ==> !(#[trigger] parts[i]).contains('|'),
    ensures
        cut(joined(parts, " | "@), '|') == padded(parts),
    decreases parts.len(),
{
    let front = parts.drop_last();
    let x = parts.last();
    assert(parts =~= front.push(x));
    assert(x == parts[parts.len() - 1]);
    lemma_joined_push(front, " | "@, x);
    lemma_cut_nowhere(x, '|');
    if front.len() == 0 {
        assert(padded(parts)[0] =~= x);
        assert(padded(parts) =~= seq![x]);
    } else {
        assert(forall|i: int| 0 <= i < front.len() ==> #[trigger] front[i] == parts[i]);
        lemma_joined_parts_are_cut(front);
        let j = joined(front, " | "@);
        let bar = " | "@;
        reveal_strlit(" | ");
        assert(bar =~= seq![' '] + seq!['|'] + seq![' ']);
        assert(cut(bar, '|') =~= seq![seq![' '], seq![' ']]) by {
            lemma_cut_nowhere(seq![' '], '|');
            assert((seq![' '] + seq!['|']).drop_last() =~= seq![' ']);
            lemma_cut_append(seq![' '] + seq!['|'], seq![' '], '|');
            assert(Seq::<char>::empty() + seq![' '] =~= seq![' ']);
            assert(cut(seq![' '] + seq!['|'], '|') =~= seq![seq![' '], Seq::empty()]);
        }
        lemma_cut_append(j, bar, '|');
        lemma_cut_append(j + bar, x, '|');
        let all = cut(j + bar + x, '|');
        assert(all.len() == padded(parts).len());
        assert forall|i: int| 0 <= i < all.len() implies all[i] == #[trigger] padded(parts)[i] by {
            if i < front.len() - 1 {
                assert(all[i] == padded(front)[i]);
            } else if i == front.len() - 1 {
                assert(all[i] == padded(front)[i] + seq![' ']);
                assert(all[i] =~= padded(parts)[i]);
            } else {
                assert(all[i] =~= seq![' '] + x);
                assert(all[i] =~= padded(parts)[i]);
            }
        }
        assert(all =~= padded(parts));
    }
}

proof fn lemma_parts_are_read_back(parts: Seq<Seq<char>>)
    requires
        parts.len() > 0,
        forall|i: int|
            0 <= i < parts.len() ==> {
                &&& !(#[trigger] parts[i]).contains('|')
                &&& parts[i].len() > 0
                &&& !white_space(parts[i][0])
                &&& !white_space(parts[i].last())
            },
    ensures
        parts_between_bars(joined(parts, " | "@)) == parts,
{
    lemma_joined_parts_are_cut(parts);
    let all = parts_between_bars(joined(parts, " | "@));
    assert forall|i: int| 0 <= i < parts.len() implies all[i] == #[trigger] parts[i] by {
        let before = if i > 0 {
            seq![' ']
        } else {
            Seq::empty()
        };
        let behind = if i < parts.len() - 1 {
            seq![' ']
        } else {
            Seq::empty()
        };
        assert(padded(parts)[i] =~= before + (parts[i] + behind));
        assert(blank(before) && blank(behind));
        lemma_trim_start(before, parts[i] + behind);
        lemma_trim_end(parts[i], behind);
    }
    assert(all =~= parts);
}

// ---------------------------------------------------------------------------------------
// Conditions
// ---------------------------------------------------------------------------------------
/// The condition on one step, as it is written.
pub open spec fn step_text(from: usize, to: usize) -> Seq<char> {
    "(s == "@ + decimal(from as nat) + ") & (s_next == "@ + decimal(to as nat) + ")"@
}

/// The condition on one state, as it is written.
pub open spec fn state_text(id: usize) -> Seq<char> {
    "(s == "@ + decimal(id as nat) + ")"@
}

/// A text on one line that has no bar, and no white space at its ends.
spec fn compact(s: Seq<char>) -> bool {
    &&& !s.contains('|')
    &&& !s.contains('\n')
    &&& s.len() > 0
    &&& !white_space(s[0])
    &&& !white_space(s.last())
}

proof fn lemma_conditions_are_compact(from: usize, to: usize)
    ensures
        compact(step_text(from, to)),
        compact(step_text(from, to) + ","@),
        compact(state_text(from)),
{
    reveal_strlit("(s == ");
    reveal_strlit(") & (s_next == ");
    reveal_strlit(")");
    reveal_strlit(",");
    let a = decimal(from as nat);
    let b = decimal(to as nat);
    lemma_decimal_is_digits(from as nat);
    lemma_decimal_is_digits(to as nat);
    let t = step_text(from, to);
    assert forall|i: int| 0 <= i < t.len() implies t[i] != '|' && t[i] != '\n' by {
        let j = i - 6;
        let k = j - a.len() - 15;
        if 0 <= j < a.len() {
            assert(t[i] == a[j]);
        } else if 0 <= k < b.len() {
            assert(t[i] == b[k]);
        }
    }
    let u = state_text(from);
    assert forall|i: int| 0 <= i < u.len() implies u[i] != '|' && u[i] != '\n' by {
        let j = i - 6;
        if 0 <= j < a.len() {
            assert(u[i] == a[j]);
        }
    }
    assert(t[0] == '(' && t.last() == ')');
    assert(u[0] == '(' && u.last() == ')');
}

/// The condition on the steps of a substring, read back: between its bars stand the conditions on
/// the steps, one part for each step of the set, self loops included, and no other part. They
/// are in order of the steps. Where the set is empty there is nothing.
pub proof fn condition_has_one_part_per_step(steps: &BTreeSet<(usize, usize)>)
    ensures
        steps@.len() == 0 ==> substring_condition(steps@) == Seq::<char>::empty(),
        steps@.len() > 0 ==> {
            let parts = parts_between_bars(substring_condition(steps@));
            &&& parts.len() == steps@.len()
            &&& parts.no_duplicates()
            &&& forall|step: (usize, usize)| #[trigger]
                steps@.contains(step) ==> parts.contains(step_text(step.0, step.1))
            &&& forall|i: int|
                0 <= i < parts.len() ==> exists|step: (usize, usize)| #[trigger]
                    steps@.contains(step) && #[trigger] parts[i] == step_text(step.0, step.1)
            &&& forall|i: int, j: int, p: (usize, usize), q: (usize, usize)|
                0 <= i < j < parts.len() && #[trigger] parts[i] == #[trigger] step_text(p.0, p.1)
                    && #[trigger] parts[j] == #[trigger] step_text(q.0, q.1) ==> p.0 < q.0 || p.0
                    == q.0 && p.1 < q.1
        },
{
    lemma_numbers_are_ordered();
    let list = in_order(steps@);
    set_is_enumerated_in_order(steps);
    numbers_ascend_by_value(Seq::empty(), Seq::empty(), list);
    assert(list.no_duplicates());
    list.unique_seq_to_set();
    let texts = list.map_values(as_step_condition());
    assert(forall|i: int| 0 <= i < list.len() ==> #[trigger] texts[i] == step_text(list[i].0, list[i].1));
    if steps@.len() == 0 {
        assert(texts =~= Seq::empty());
    } else {
        assert forall|i: int| 0 <= i < texts.len() implies compact(#[trigger] texts[i]) by {
            lemma_conditions_are_compact(list[i].0, list[i].1);
        }
        lemma_parts_are_read_back(texts);
        assert forall|i: int, p: (usize, usize)| 0 <= i < texts.len() && #[trigger] texts[i]
            == #[trigger] step_text(p.0, p.1) implies p == list[i] by {
            condition_tells_the_step(p, list[i]);
        }
        assert forall|i: int, j: int| 0 <= i < texts.len() && 0 <= j < texts.len() && i
            != j implies texts[i] != texts[j] by {
            if texts[i] == texts[j] {
                condition_tells_the_step(list[i], list[j]);
            }
        }
        assert forall|step: (usize, usize)| #[trigger] steps@.contains(step) implies texts.contains(
            step_text(step.0, step.1),
        ) by {
            assert(list.to_set().contains(step));
            let i = choose|i: int| 0 <= i < list.len() && list[i] == step;
            assert(texts[i] == step_text(step.0, step.1));
        }
        assert forall|i: int| 0 <= i < texts.len() implies exists|step: (usize, usize)| #[trigger]
            steps@.contains(step) && #[trigger] texts[i] == step_text(step.0, step.1) by {
            assert(list.to_set().contains(list[i]));
            assert(steps@.contains(list[i]));
        }
    }
}

/// The condition on states, read back: between its bars stand the conditions on the states, one
/// part for each of them, in their order.
pub proof fn condition_has_one_part_per_state(ids: Seq<usize>)
    ensures
        ids.len() == 0 ==> state_condition(ids) == Seq::<char>::empty(),
        ids.len() > 0 ==> {
            let parts = parts_between_bars(state_condition(ids));
            &&& parts.len() == ids.len()
            &&& forall|i: int| 0 <= i < ids.len() ==> #[trigger] parts[i] == state_text(ids[i])
        },
{
    let texts = ids.map_values(as_state_condition());
    if ids.len() == 0 {
        assert(texts =~= Seq::empty());
    } else {
        assert forall|i: int| 0 <= i < texts.len() implies compact(#[trigger] texts[i]) by {
            lemma_conditions_are_compact(ids[i], 0);
        }
        lemma_parts_are_read_back(texts);
    }
}

/// One state more adds its condition behind a bar, and changes nothing else.
pub proof fn condition_grows_by_one_state(ids: Seq<usize>, id: usize)
    ensures
        state_condition(seq![id]) == state_text(id),
        ids.len() > 0 ==> state_condition(ids.push(id)) == state_condition(ids) + " | "@ + state_text(id),
{
    let texts = ids.map_values(as_state_condition());
    assert(ids.push(id).map_values(as_state_condition()) =~= texts.push(state_text(id)));
    assert(seq![id].map_values(as_state_condition()) =~= Seq::empty().push(state_text(id)));
    lemma_joined_push(texts, " | "@, state_text(id));
    lemma_joined_push(Seq::empty(), " | "@, state_text(id));
}

/// One step more, which comes behind the others, adds its condition behind a bar, and changes
/// nothing else.
pub proof fn condition_grows_by_one_step(
    steps: &BTreeSet<(usize, usize)>,
    more: &BTreeSet<(usize, usize)>,
    last: (usize, usize),
)
    requires
        more@ == steps@.insert(last),
        forall|step: (usize, usize)| #[trigger]
            steps@.contains(step) ==> step.0 < last.0 || step.0 == last.0 && step.1 < last.1,
    ensures
        substring_condition(more@) == if steps@.len() == 0 {
            step_text(last.0, last.1)
        } else {
            substring_condition(steps@) + " | "@ + step_text(last.0, last.1)
        },
{
    lemma_numbers_are_ordered();
    let list = in_order(steps@);
    let longer = list.push(last);
    set_is_enumerated_in_order(steps);
    numbers_ascend_by_value(Seq::empty(), Seq::empty(), list);
    numbers_ascend_by_value(Seq::empty(), Seq::empty(), longer);
    assert(list.no_duplicates());
    list.unique_seq_to_set();
    assert forall|i: int, j: int| 0 <= i < j < longer.len() implies (#[trigger] longer[i]).0 < (
    #[trigger] longer[j]).0 || longer[i].0 == longer[j].0 && longer[i].1 < longer[j].1 by {
        assert(longer[i] == list[i]);
        if j < list.len() {
            assert(longer[j] == list[j]);
        } else {
            assert(list.to_set().contains(list[i]));
            assert(steps@.contains(list[i]));
        }
    }
    assert(longer.to_set() =~= more@) by {
        assert forall|x: (usize, usize)| longer.to_set().contains(x) <==> more@.contains(x) by {
            if more@.contains(x) {
                if x == last {
                    assert(longer[list.len() as int] == x);
                } else {
                    assert(list.to_set().contains(x));
                    let i = choose|i: int| 0 <= i < list.len() && list[i] == x;
                    assert(longer[i] == x);
                }
            }
            if longer.to_set().contains(x) {
                let i = choose|i: int| 0 <= i < longer.len() && longer[i] == x;
                if i < list.len() {
                    assert(list[i] == x);
                    assert(list.to_set().contains(x));
                }
            }
        }
    }
    ascending_sequence_is_in_order(longer);
    let texts = list.map_values(as_step_condition());
    assert(longer.map_values(as_step_condition()) =~= texts.push(step_text(last.0, last.1)));
    lemma_joined_push(texts, " | "@, step_text(last.0, last.1));
}

// ---------------------------------------------------------------------------------------
// The list of cases
// ---------------------------------------------------------------------------------------
/// The line of the case of a step of a substring.
pub open spec fn case_line() -> spec_fn((usize, usize)) -> Seq<char> {
    |step: (usize, usize)| spaces(12) + step_text(step.0, step.1) + ","@
}

/// The lines of the cases of a substring: one for each step, or an empty one where it has none.
pub open spec fn case_lines() -> spec_fn(BTreeSet<(usize, usize)>) -> Seq<Seq<char>> {
    |steps: BTreeSet<(usize, usize)>|
        if steps@.len() == 0 {
            seq![Seq::empty()]
        } else {
            in_order(steps@).map_values(case_line())
        }
}

/// Of two texts in a row, the last line of the first and the first line of the second become one.
pub proof fn lemma_lines_append(s: Seq<char>, t: Seq<char>)
    ensures
        lines(s).len() > 0,
        lines(t).len() > 0,
        lines(s + t) == lines(s).drop_last() + seq![lines(s).last() + lines(t)[0]] + lines(t).skip(1),
{
    lemma_cut_append(s, t, '\n');
    lemma_lines_are_cut(s);
    lemma_lines_are_cut(t);
    lemma_lines_are_cut(s + t);
}

/// A text without a line feed is one line.
pub proof fn lemma_single_line(s: Seq<char>)
    requires
        !s.contains('\n'),
    ensures
        lines(s) == seq![s],
{
    lemma_lines_are_cut(s);
    lemma_cut_nowhere(s, '\n');
}

/// A line feed between two texts keeps their lines apart.
pub proof fn lemma_lines_with_a_feed_between(s: Seq<char>, t: Seq<char>)
    ensures
        lines(s + seq!['\n'] + t) == lines(s) + lines(t),
{
    let feed = seq!['\n'];
    assert((s + feed).drop_last() =~= s);
    assert(lines(s + feed) == lines(s).push(Seq::empty()));
    lemma_lines_append(s + feed, t);
    assert(Seq::<char>::empty() + lines(t)[0] =~= lines(t)[0]);
    assert(lines(s + feed + t) =~= lines(s) + lines(t));
}

proof fn lemma_indented_condition(s: Seq<char>, level: nat)
    requires
        compact(s),
    ensures
        indented(s, level) == spaces(4 * level) + s,
        !indented(s, level).contains('\n'),
{
    lemma_single_line(s);
    assert(!blank(s));
    let shifted = spaces(4 * level) + s;
    assert(lines(s).map_values(indentation(level)) =~= seq![shifted]);
    lemma_joined_push(Seq::empty(), seq!['\n'], shifted);
    assert(Seq::<Seq<char>>::empty().push(shifted) =~= seq![shifted]);
    if shifted.contains('\n') {
        let i = choose|i: int| 0 <= i < shifted.len() && shifted[i] == '\n';
        assert(s[i - 4 * level] == '\n');
    }
}

/// The cases of a substring are written on lines of their own: one for each step, in order.
pub proof fn cases_are_one_line_per_step(steps: &BTreeSet<(usize, usize)>)
    ensures
        lines(substring_cases(steps@)) == case_lines()(*steps),
        steps@.len() > 0 ==> case_lines()(*steps).len() == steps@.len(),
{
    lemma_numbers_are_ordered();
    let list = in_order(steps@);
    set_is_enumerated_in_order(steps);
    numbers_ascend_by_value(Seq::empty(), Seq::empty(), list);
    assert(list.no_duplicates());
    list.unique_seq_to_set();
    let written = list.map_values(as_case());
    let expected = list.map_values(case_line());
    reveal_strlit("\n");
    assert("\n"@ =~= seq!['\n']);
    assert forall|i: int| 0 <= i < list.len() implies #[trigger] written[i] == expected[i] && !written[i].contains('\n') by {
        let step = list[i];
        let text = step_text(step.0, step.1) + ","@;
        lemma_conditions_are_compact(step.0, step.1);
        lemma_indented_condition(text, 3);
        assert(spaces(12) + text =~= spaces(12) + step_text(step.0, step.1) + ","@);
    }
    assert(written =~= expected);
    if list.len() == 0 {
        assert(written =~= Seq::empty());
        assert(substring_cases(steps@) =~= Seq::empty());
    } else {
        assert(single_lines(written));
        joined_lines_split_again(written);
    }
}

proof fn lemma_lines_of_cases(substrings: Seq<BTreeSet<(usize, usize)>>)
    requires
        substrings.len() > 0,
    ensures
        lines(joined(substrings.map_values(as_cases()), "\n"@)) == substrings.flat_map(case_lines()),
    decreases substrings.len(),
{
    let rest = substrings.drop_last();
    let last = substrings.last();
    let texts = rest.map_values(as_cases());
    assert(substrings =~= rest.push(last));
    assert(substrings.map_values(as_cases()) =~= texts.push(substring_cases(last@)));
    lemma_joined_push(texts, "\n"@, substring_cases(last@));
    rest.lemma_flat_map_push(case_lines(), last);
    cases_are_one_line_per_step(&last);
    reveal_strlit("\n");
    assert("\n"@ =~= seq!['\n']);
    if rest.len() == 0 {
        assert(rest =~= Seq::empty());
        assert(rest.flat_map(case_lines()) =~= Seq::empty());
        assert(substrings.flat_map(case_lines()) =~= case_lines()(last));
    } else {
        lemma_lines_of_cases(rest);
        lemma_lines_with_a_feed_between(joined(texts, "\n"@), substring_cases(last@));
    }
}

/// The list of cases, line by line: behind the opening bracket one line for each step of the
/// substrings, in their order, then the step from the accepting state to the extra state, then
/// the one from the extra state to itself, then the closing bracket. Where there is no substring,
/// and for each substring without steps, there is an empty line instead.
pub proof fn cases_are_the_steps_and_the_end_of_the_match(
    substrings: Seq<BTreeSet<(usize, usize)>>,
    accept: usize,
    extra: usize,
)
    ensures
        lines(case_list(substrings, accept, extra)) == seq!["["@] + (if substrings.len() == 0 {
            seq![Seq::empty()]
        } else {
            substrings.flat_map(case_lines())
        }) + seq![
            spaces(12) + step_text(accept, extra) + ","@,
            spaces(12) + step_text(extra, extra),
            "\t\t];"@,
        ],
{
    let feed = seq!['\n'];
    let cases = joined(substrings.map_values(as_cases()), "\n"@);
    let middle = if substrings.len() == 0 {
        seq![Seq::empty()]
    } else {
        substrings.flat_map(case_lines())
    };
    if substrings.len() == 0 {
        assert(substrings.map_values(as_cases()) =~= Seq::empty());
        assert(cases =~= Seq::empty());
        assert(lines(cases) =~= middle);
    } else {
        lemma_lines_of_cases(substrings);
    }
    lemma_conditions_are_compact(accept, extra);
    lemma_conditions_are_compact(extra, extra);
    lemma_indented_condition(step_text(accept, extra), 3);
    lemma_indented_condition(step_text(extra, extra), 3);
    let first = spaces(12) + step_text(accept, extra);
    let second = spaces(12) + step_text(extra, extra);
    let open = "["@;
    let close = "\t\t];"@;
    reveal_strlit("[\n");
    reveal_strlit("[");
    reveal_strlit("\n");
    reveal_strlit(",\n");
    reveal_strlit(",");
    reveal_strlit("\n\t\t];");
    reveal_strlit("\t\t];");
    assert(case_list(substrings, accept, extra) =~= open + feed + cases + feed + (first + ","@) + feed
        + second + feed + close);
    assert(!(first + ","@).contains('\n')) by {
        if (first + ","@).contains('\n') {
            let i = choose|i: int| 0 <= i < first.len() + 1 && (first + ","@)[i] == '\n';
            assert(first[i] == '\n');
        }
    }
    lemma_single_line(open);
    lemma_single_line(close);
    lemma_single_line(first + ","@);
    lemma_single_line(second);
    lemma_lines_with_a_feed_between(open, cases);
    lemma_lines_with_a_feed_between(open + feed + cases, first + ","@);
    lemma_lines_with_a_feed_between(open + feed + cases + feed + (first + ","@), second);
    lemma_lines_with_a_feed_between(open + feed + cases + feed + (first + ","@) + feed + second, close);
    assert(seq![open] + middle + seq![first + ","@] + seq![second] + seq![close] =~= seq![open] + middle
        + seq![first + ","@, second, close]);
}

// ---------------------------------------------------------------------------------------
// The branches
// ---------------------------------------------------------------------------------------
/// The branch of a substring opens on a line with the condition on its steps: that of the first
/// substring with `if`, and those of the others with `else if`. The lines behind that one do not
/// depend on the steps.
pub proof fn branch_opens_with_the_condition(
    first: bool,
    steps: &BTreeSet<(usize, usize)>,
    other: &BTreeSet<(usize, usize)>,
)
    ensures
        lines(branch(first, steps@))[0] == (if first {
            "if ("@
        } else {
            "else if ("@
        }) + substring_condition(steps@) + ") {"@,
        lines(branch(first, steps@)).skip(1) == lines(branch(first, other@)).skip(1),
{
    lemma_branch_lines(first, steps);
    lemma_branch_lines(first, other);
    let rest = branch_rest(first);
    assert((seq![branch_line(first, steps@)] + rest).skip(1) =~= rest);
    assert((seq![branch_line(first, other@)] + rest).skip(1) =~= rest);
}

spec fn branch_line(first: bool, steps: Set<(usize, usize)>) -> Seq<char> {
    (if first {
        "if ("@
    } else {
        "else if ("@
    }) + substring_condition(steps) + ") {"@
}

spec fn branch_rest(first: bool) -> Seq<Seq<char>> {
    lines(
        spaces(4) + (if first {
            BRANCH_START_INDEX
        } else {
            ""
        })@ + BRANCH_BODY@,
    )
}

proof fn lemma_branch_lines(first: bool, steps: &BTreeSet<(usize, usize)>)
    ensures
        lines(branch(first, steps@)) == seq![branch_line(first, steps@)] + branch_rest(first),
{
    let line = branch_line(first, steps@);
    let start = (if first {
        BRANCH_START_INDEX
    } else {
        ""
    })@;
    let rest = spaces(4) + start + BRANCH_BODY@;
    let condition = substring_condition(steps@);
    lemma_condition_is_one_line(steps);
    reveal_strlit("if");
    reveal_strlit("else if");
    reveal_strlit(" (");
    reveal_strlit("if (");
    reveal_strlit("else if (");
    reveal_strlit(") {");
    assert(BRANCH_OPEN@ =~= ") {"@ + seq!['\n'] + spaces(4)) by {
        reveal_strlit(") {\n    ");
    }
    assert((if first { "if" } else { "else if" })@ + " ("@ =~= if first { "if ("@ } else { "else if ("@ });
    let open = if first { "if ("@ } else { "else if ("@ };
    assert(branch(first, steps@) =~= line + seq!['\n'] + rest);
    assert(!line.contains('\n')) by {
        if line.contains('\n') {
            let i = choose|i: int| 0 <= i < line.len() && line[i] == '\n';
            let k = i - open.len();
            if 0 <= k < condition.len() {
                assert(line[i] == condition[k]);
            }
        }
    }
    lemma_single_line(line);
    lemma_lines_with_a_feed_between(line, rest);
}

proof fn lemma_condition_is_one_line(steps: &BTreeSet<(usize, usize)>)
    ensures
        !substring_condition(steps@).contains('\n'),
{
    let list = in_order(steps@);
    let texts = list.map_values(as_step_condition());
    assert forall|i: int| 0 <= i < texts.len() implies !(#[trigger] texts[i]).contains('\n') by {
        lemma_conditions_are_compact(list[i].0, list[i].1);
    }
    lemma_joined_on_one_line(texts);
}

proof fn lemma_joined_on_one_line(parts: Seq<Seq<char>>)
    requires
        single_lines(parts),
    ensures
        !joined(parts, " | "@).contains('\n'),
    decreases parts.len(),
{
    if parts.len() > 0 {
        let rest = parts.drop_last();
        let last = parts.last();
        assert(parts =~= rest.push(last));
        assert(last == parts[parts.len() - 1]);
        assert(forall|i: int| 0 <= i < rest.len() ==> #[trigger] rest[i] == parts[i]);
        lemma_joined_push(rest, " | "@, last);
        lemma_joined_on_one_line(rest);
        reveal_strlit(" | ");
        let before = joined(rest, " | "@);
        let all = joined(parts, " | "@);
        if all.contains('\n') {
            let i = choose|i: int| 0 <= i < all.len() && all[i] == '\n';
            if rest.len() == 0 {
                assert(last[i] == '\n');
            } else if i < before.len() {
                assert(before[i] == '\n');
            } else if i >= before.len() + 3 {
                assert(last[i - before.len() - 3] == '\n');
            }
        }
    }
}

/// There is a branch for each substring, in their order, and only the first opens the chain.
pub proof fn branches_are_one_per_substring(substrings: Seq<BTreeSet<(usize, usize)>>)
    ensures
        branches(substrings).len() == substrings.len(),
        forall|i: int|
            0 <= i < substrings.len() ==> #[trigger] branches(substrings)[i] == branch(
                i == 0,
                substrings[i]@,
            ),
{
}

/// The first lines of the branches of the first `n` substrings stand among the lines of these
/// branches, and none of them is the last line.
proof fn lemma_branches_open(substrings: Seq<BTreeSet<(usize, usize)>>, n: int, k: int) -> (j: int)
    requires
        0 <= k < n <= substrings.len(),
    ensures
        0 <= j < lines(joined(branches(substrings).take(n), "\n"@)).len() - 1,
        lines(joined(branches(substrings).take(n), "\n"@))[j] == branch_line(k == 0, substrings[k]@),
    decreases n,
{
    let all = branches(substrings);
    let last = all[n - 1];
    let before = joined(all.take(n - 1), "\n"@);
    assert(all.take(n) =~= all.take(n - 1).push(last));
    lemma_joined_push(all.take(n - 1), "\n"@, last);
    lemma_branch_lines(n - 1 == 0, &substrings[n - 1]);
    assert(branch_rest(n - 1 == 0).len() > 0) by {
        lemma_lines_append(
            spaces(4) + (if n - 1 == 0 {
                BRANCH_START_INDEX
            } else {
                ""
            })@ + BRANCH_BODY@,
            Seq::empty(),
        );
    }
    assert("\n"@ =~= seq!['\n']) by {
        reveal_strlit("\n");
    }
    if n == 1 {
        0
    } else {
        lemma_lines_with_a_feed_between(before, last);
        if k == n - 1 {
            lines(before).len() as int
        } else {
            lemma_branches_open(substrings, n - 1, k)
        }
    }
}

/// In the steps that collect the substrings there is a line for each substring that opens its
/// branch with the condition on its steps: with `if` for the first substring, and with `else if`
/// for the others.
pub proof fn each_substring_has_its_branch(
    substrings: Seq<BTreeSet<(usize, usize)>>,
    accept: usize,
    extra: usize,
    k: int,
)
    requires
        0 <= k < substrings.len(),
    ensures
        lines(collecting_steps(substrings, accept, extra)).contains(
            spaces(8) + ((if k == 0 {
                "if ("@
            } else {
                "else if ("@
            }) + substring_condition(substrings[k]@) + ") {"@),
        ),
{
    let all = joined(branches(substrings), "\n"@);
    let rest = STEP_RESET@ + step_condition(accept, extra) + STEP_COMPLETE@ + (if substrings.len() > 1 {
        SAVE_INDICES
    } else {
        ""
    })@ + STEP_END@;
    let text = all + rest;
    assert(all + STEP_RESET@ + step_condition(accept, extra) + STEP_COMPLETE@ + (if substrings.len() > 1 {
        SAVE_INDICES
    } else {
        ""
    })@ + STEP_END@ =~= text);
    assert(branches(substrings).take(substrings.len() as int) =~= branches(substrings));
    let j = lemma_branches_open(substrings, substrings.len() as int, k);
    lemma_lines_append(all, rest);
    let line = branch_line(k == 0, substrings[k]@);
    assert(lines(text)[j] == line);
    indenting_keeps_the_lines(text, 2);
    assert(!blank(line)) by {
        reveal_strlit("if (");
        reveal_strlit("else if (");
        assert(!white_space(line[0]));
    }
    assert(lines(indented(text, 2))[j] == indented_line(line, 2));
}

} // verus!
