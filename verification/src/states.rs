//! The states of a match and the rows of the table, told by the states of the automaton alone.

use vstd::prelude::*;

use crate::lookup::{
    anything_may_follow_a_match, deterministic, has_edge, looked_up, lookup_table,
    nothing_follows_an_end_anchor, numbered, rows_are_the_transitions, table_holds_the_automaton,
};
use crate::noir::{fits, supported};
use crate::ordered::{
    in_order, keys_are_enumerated_in_order, lemma_numbers_are_ordered, numbers_ascend_by_value,
    set_is_enumerated_in_order,
};
use crate::structs::{DFAStateNode, RegexAndDFA};
use crate::table::{
    accept_ids, accepting, accepting_ids, automaton_rows, edge_rows, entry_keys, entry_values,
    extra_accept_id, has_room_for_extra, has_single_accept, highest_id, highest_id_is_the_highest,
    keys_fit, rows_of_state, rows_towards, state_rows, table_key, table_len, table_rows, Row,
};

verus! {

/// The state at `a` is of the type `accept`, and no other one is.
pub open spec fn only_accepting(states: Seq<DFAStateNode>, a: int) -> bool {
    &&& 0 <= a < states.len()
    &&& forall|i: int| 0 <= i < states.len() ==> ((#[trigger] states[i]).state_type@ == "accept"@ <==> i == a)
}

/// No state has a higher number than the one at `h`.
pub open spec fn highest_at(states: Seq<DFAStateNode>, h: int) -> bool {
    &&& 0 <= h < states.len()
    &&& forall|i: int| 0 <= i < states.len() ==> (#[trigger] states[i]).state_id <= states[h].state_id
}

/// A state more adds its number to those of the accepting states where its type is `accept`, and
/// changes nothing else.
pub proof fn accepting_states_are_taken_by_type(states: Seq<DFAStateNode>, state: DFAStateNode)
    ensures
        accepting_ids(Seq::empty()) == Seq::<usize>::empty(),
        accepting_ids(states.push(state)) == if state.state_type@ == "accept"@ {
            accepting_ids(states).push(state.state_id)
        } else {
            accepting_ids(states)
        },
{
    states.lemma_filter_push(state, |s: DFAStateNode| accepting(s));
    Seq::<DFAStateNode>::empty().lemma_filter_len(|s: DFAStateNode| accepting(s));
    assert(accepting_ids(Seq::empty()) =~= Seq::empty());
    assert(accepting_ids(states.push(state)) =~= if state.state_type@ == "accept"@ {
        accepting_ids(states).push(state.state_id)
    } else {
        accepting_ids(states)
    });
}

proof fn lemma_no_accepting_state(states: Seq<DFAStateNode>)
    ensures
        accepting_ids(states).len() == 0 <==> forall|i: int|
            0 <= i < states.len() ==> (#[trigger] states[i]).state_type@ != "accept"@,
    decreases states.len(),
{
    if states.len() == 0 {
        accepting_states_are_taken_by_type(states, arbitrary());
        assert(states =~= Seq::empty());
    } else {
        let rest = states.drop_last();
        assert(states =~= rest.push(states.last()));
        accepting_states_are_taken_by_type(rest, states.last());
        lemma_no_accepting_state(rest);
        assert(states[states.len() - 1] == states.last());
        assert(forall|i: int| 0 <= i < rest.len() ==> rest[i] == #[trigger] states[i]);
        assert(forall|i: int| 0 <= i < rest.len() ==> #[trigger] rest[i] == states[i]);
    }
}

proof fn lemma_only_accepting_state(states: Seq<DFAStateNode>, a: int)
    requires
        only_accepting(states, a),
    ensures
        accepting_ids(states) == seq![states[a].state_id],
    decreases states.len(),
{
    let rest = states.drop_last();
    let last = states.last();
    assert(states =~= rest.push(last));
    accepting_states_are_taken_by_type(rest, last);
    assert(states[states.len() - 1] == last);
    assert(forall|i: int| 0 <= i < rest.len() ==> #[trigger] rest[i] == states[i]);
    if a == rest.len() {
        lemma_no_accepting_state(rest);
        assert(accepting_ids(states) =~= seq![states[a].state_id]);
    } else {
        lemma_only_accepting_state(rest, a);
    }
}

proof fn lemma_single_accepting_state(states: Seq<DFAStateNode>) -> (a: int)
    requires
        accepting_ids(states).len() == 1,
    ensures
        only_accepting(states, a),
    decreases states.len(),
{
    if states.len() == 0 {
        lemma_no_accepting_state(states);
        0
    } else {
        let rest = states.drop_last();
        let last = states.last();
        assert(states =~= rest.push(last));
        accepting_states_are_taken_by_type(rest, last);
        assert(forall|i: int| 0 <= i < rest.len() ==> rest[i] == #[trigger] states[i]);
        if last.state_type@ == "accept"@ {
            lemma_no_accepting_state(rest);
            assert(forall|i: int| 0 <= i < rest.len() ==> #[trigger] states[i] == rest[i]);
            rest.len() as int
        } else {
            lemma_single_accepting_state(rest)
        }
    }
}

/// There is a single accepting state exactly where one state, and no other, is of the type
/// `accept`.
pub proof fn single_accept_is_one_state_of_that_type(regex: RegexAndDFA)
    ensures
        has_single_accept(regex) <==> exists|a: int| only_accepting(regex.dfa.states@, a),
{
    let states = regex.dfa.states@;
    if has_single_accept(regex) {
        let a = lemma_single_accepting_state(states);
        assert(only_accepting(states, a));
    }
    if exists|a: int| only_accepting(states, a) {
        let a = choose|a: int| only_accepting(states, a);
        lemma_only_accepting_state(states, a);
    }
}

/// A program can be generated exactly where one state, and no other, is of the type `accept`,
/// the number of entries of the table is no larger than a number can be and, unless the
/// expression ends in an anchor, no state has the largest number there is. With substrings it
/// must not end in an anchor.
pub proof fn support_is_told_by_the_states(regex: RegexAndDFA, gen_substrs: bool)
    ensures
        supported(regex, gen_substrs) <==> has_single_accept(regex) && fits(regex) && !(gen_substrs
            && regex.has_end_anchor),
        regex.dfa.states@.len() > 0 ==> (fits(regex) <==> {
            &&& 256 * (regex.dfa.states@.len() + if regex.has_end_anchor { 0int } else { 1 })
                <= usize::MAX
            &&& regex.has_end_anchor || forall|i: int|
                0 <= i < regex.dfa.states@.len() ==> (#[trigger] regex.dfa.states@[i]).state_id
                    < usize::MAX
        }),
{
    let states = regex.dfa.states@;
    if states.len() > 0 {
        highest_id_is_the_highest(states);
    }
}

/// The match is complete in the state of the type `accept`, whatever its number and its place
/// among the states, and, unless the expression ends in an anchor, in a state whose number is
/// one more than the highest. The first of them is the state of that type in both cases.
pub proof fn match_is_complete_in_the_state_of_type_accept(regex: RegexAndDFA, a: int, h: int)
    requires
        only_accepting(regex.dfa.states@, a),
        highest_at(regex.dfa.states@, h),
        has_room_for_extra(regex),
    ensures
        accept_ids(regex)[0] == regex.dfa.states@[a].state_id,
        extra_accept_id(regex) == regex.dfa.states@[h].state_id + 1,
        regex.has_end_anchor ==> accept_ids(regex) == seq![regex.dfa.states@[a].state_id],
        !regex.has_end_anchor ==> regex.dfa.states@[h].state_id < usize::MAX && accept_ids(regex)
            == seq![regex.dfa.states@[a].state_id, (regex.dfa.states@[h].state_id + 1) as usize],
{
    let states = regex.dfa.states@;
    lemma_only_accepting_state(states, a);
    lemma_highest(states, h);
    if !regex.has_end_anchor {
        assert(accept_ids(regex) =~= seq![
            states[a].state_id,
            (states[h].state_id + 1) as usize,
        ]);
    }
}

proof fn lemma_highest(states: Seq<DFAStateNode>, h: int)
    requires
        highest_at(states, h),
    ensures
        highest_id(states) == states[h].state_id,
{
    highest_id_is_the_highest(states);
    let k = choose|k: int| 0 <= k < states.len() && (#[trigger] states[k]).state_id == highest_id(states);
    assert(states[k].state_id <= states[h].state_id);
}

// ---------------------------------------------------------------------------------------
// The rows
// ---------------------------------------------------------------------------------------
/// The row `p` comes before the row `q` among the rows of a state: its next state has a lower
/// number, or the same number and its byte is lower.
pub open spec fn comes_before(p: Row, q: Row) -> bool {
    p.2 < q.2 || p.2 == q.2 && p.1 < q.1
}

/// The rows of states in a row are the rows of the first of them, followed by those of the
/// others.
pub proof fn rows_go_state_by_state(first: Seq<DFAStateNode>, second: Seq<DFAStateNode>)
    ensures
        automaton_rows(first + second) == automaton_rows(first) + automaton_rows(second),
        automaton_rows(Seq::empty()) == Seq::<Row>::empty(),
    decreases second.len(),
{
    let f = rows_of_state();
    assert(automaton_rows(Seq::empty()) =~= Seq::empty());
    if second.len() == 0 {
        assert(first + second =~= first);
        assert(second =~= Seq::empty());
        assert(automaton_rows(first) + Seq::<Row>::empty() =~= automaton_rows(first));
    } else {
        let rest = second.drop_last();
        rows_go_state_by_state(first, rest);
        assert(first + second =~= (first + rest).push(second.last()));
        assert(second =~= rest.push(second.last()));
        (first + rest).lemma_flat_map_push(f, second.last());
        rest.lemma_flat_map_push(f, second.last());
        assert(automaton_rows(first + second) =~= automaton_rows(first) + automaton_rows(second));
    }
}

/// The rows of one state are its transitions, each of them once, by the numbers of the next
/// states and, towards the same state, by the bytes.
pub proof fn rows_of_a_state_are_its_transitions_in_order(state: DFAStateNode)
    ensures
        forall|row: Row| #[trigger]
            automaton_rows(seq![state]).contains(row) <==> {
                &&& row.0 == state.state_id
                &&& state.transitions@.contains_key(row.2)
                &&& state.transitions@[row.2]@.contains(row.1)
            },
        forall|i: int, j: int|
            0 <= i < j < automaton_rows(seq![state]).len() ==> comes_before(
                #[trigger] automaton_rows(seq![state])[i],
                #[trigger] automaton_rows(seq![state])[j],
            ),
{
    lemma_numbers_are_ordered();
    let states = seq![state];
    let rows = automaton_rows(states);
    states.lemma_flat_map_singleton(rows_of_state());
    assert(rows == state_rows(state));
    assert forall|row: Row| #[trigger] rows.contains(row) <==> {
        &&& row.0 == state.state_id
        &&& state.transitions@.contains_key(row.2)
        &&& state.transitions@[row.2]@.contains(row.1)
    } by {
        rows_are_the_transitions(states, row);
        assert(states[0] == state);
    }
    let keys = in_order(state.transitions@.dom());
    keys_are_enumerated_in_order(&state.transitions);
    numbers_ascend_by_value(Seq::empty(), keys, Seq::empty());
    assert(keys.take(keys.len() as int) =~= keys);
    lemma_rows_towards_in_order(state, keys.len() as int);
}

/// The rows towards the first `n` next states of a state are in order.
proof fn lemma_rows_towards_in_order(state: DFAStateNode, n: int)
    requires
        0 <= n <= in_order(state.transitions@.dom()).len(),
    ensures
        ({
            let rows = in_order(state.transitions@.dom()).take(n).flat_map(rows_towards(state));
            &&& forall|i: int, j: int|
                0 <= i < j < rows.len() ==> comes_before(#[trigger] rows[i], #[trigger] rows[j])
            &&& forall|i: int|
                0 <= i < rows.len() ==> exists|k: int|
                    0 <= k < n && (#[trigger] rows[i]).2 == #[trigger] in_order(
                        state.transitions@.dom(),
                    )[k]
        }),
    decreases n,
{
    lemma_numbers_are_ordered();
    let f = rows_towards(state);
    let keys = in_order(state.transitions@.dom());
    keys_are_enumerated_in_order(&state.transitions);
    numbers_ascend_by_value(Seq::empty(), keys, Seq::empty());
    let rows = keys.take(n).flat_map(f);
    if n == 0 {
        assert(rows =~= Seq::empty());
    } else {
        lemma_rows_towards_in_order(state, n - 1);
        let before = keys.take(n - 1).flat_map(f);
        let to = keys[n - 1];
        keys.lemma_flat_map_take_append(f, n - 1);
        let bytes = in_order(state.transitions@[to]@);
        set_is_enumerated_in_order(&state.transitions@[to]);
        numbers_ascend_by_value(bytes, Seq::empty(), Seq::empty());
        let new = edge_rows(state.state_id, state.transitions@[to]@, to);
        assert(rows == before + new);
        assert forall|i: int| 0 <= i < rows.len() implies exists|k: int|
            0 <= k < n && (#[trigger] rows[i]).2 == #[trigger] keys[k] by {
            if i < before.len() {
                assert(rows[i] == before[i]);
            } else {
                assert(rows[i].2 == keys[n - 1]);
            }
        }
        assert forall|i: int, j: int| 0 <= i < j < rows.len() implies comes_before(
            #[trigger] rows[i],
            #[trigger] rows[j],
        ) by {
            if j < before.len() {
                assert(comes_before(before[i], before[j]));
            } else if i < before.len() {
                assert(rows[i] == before[i]);
                let k = choose|k: int| 0 <= k < n - 1 && (#[trigger] before[i]).2 == keys[k];
                assert(keys[k] < keys[n - 1]);
            } else {
                assert(bytes[i - before.len()] < bytes[j - before.len()]);
            }
        }
    }
}

/// Without an end anchor the table has two rows for each byte but 255 in front of the rows of
/// the automaton: one leads from the accepting state to the extra state, and one from there to
/// itself. With an end anchor there are no others than those of the automaton.
pub proof fn rows_without_an_anchor_start_with_the_extra_ones(
    regex: RegexAndDFA,
    a: int,
    h: int,
    byte: u8,
)
    requires
        only_accepting(regex.dfa.states@, a),
        highest_at(regex.dfa.states@, h),
        has_room_for_extra(regex),
        byte < 255,
    ensures
        regex.has_end_anchor ==> table_rows(regex) == automaton_rows(regex.dfa.states@),
        !regex.has_end_anchor ==> {
            &&& table_rows(regex).len() == 510 + automaton_rows(regex.dfa.states@).len()
            &&& table_rows(regex).skip(510) == automaton_rows(regex.dfa.states@)
            &&& table_rows(regex)[2 * byte] == (
                regex.dfa.states@[a].state_id,
                byte,
                (regex.dfa.states@[h].state_id + 1) as usize,
            )
            &&& table_rows(regex)[2 * byte + 1] == (
                (regex.dfa.states@[h].state_id + 1) as usize,
                byte,
                (regex.dfa.states@[h].state_id + 1) as usize,
            )
        },
{
    match_is_complete_in_the_state_of_type_accept(regex, a, h);
    if !regex.has_end_anchor {
        assert(table_rows(regex).skip(510) =~= automaton_rows(regex.dfa.states@));
    }
}

/// The table has 256 entries for each state, and for the extra state where there is one. A row
/// is written to the block of its state, at the place of its byte.
pub proof fn table_has_a_block_for_each_state(regex: RegexAndDFA, row: Row)
    ensures
        table_len(regex) == 256 * (regex.dfa.states@.len() + if regex.has_end_anchor { 0int } else { 1 }),
        table_key(row) / 256 == row.0,
        table_key(row) % 256 == row.1,
{
}

/// The sparse entries are one for each row, in the order of the rows: the key is the place that
/// the row is written to, and the value the state that it leads to.
pub proof fn sparse_entries_are_one_per_row(rows: Seq<Row>)
    ensures
        entry_keys(rows).len() == rows.len(),
        entry_values(rows).len() == rows.len(),
        forall|i: int| 0 <= i < rows.len() ==> #[trigger] entry_values(rows)[i] == rows[i].2,
        keys_fit(rows) <==> forall|i: int|
            0 <= i < rows.len() ==> 256 * (#[trigger] rows[i]).0 + rows[i].1 <= usize::MAX,
        keys_fit(rows) ==> forall|i: int|
            0 <= i < rows.len() ==> #[trigger] entry_keys(rows)[i] == 256 * rows[i].0 + rows[i].1,
{
    if forall|i: int| 0 <= i < rows.len() ==> 256 * (#[trigger] rows[i]).0 + rows[i].1 <= usize::MAX {
        assert(keys_fit(rows));
    }
    if keys_fit(rows) {
        assert forall|i: int| 0 <= i < rows.len() implies 256 * (#[trigger] rows[i]).0 + rows[i].1
            <= usize::MAX by {
            assert(table_key(rows[i]) <= usize::MAX);
        }
    }
}

// ---------------------------------------------------------------------------------------
// The table
// ---------------------------------------------------------------------------------------
/// What the table holds, told by the states. Its entry for a state and a byte is the state that
/// the automaton goes to. Where the automaton goes nowhere it is zero, but for two states where
/// the expression does not end in an anchor: from the state of the type `accept` and from the
/// extra state every byte but 255 leads to the extra state.
pub proof fn table_is_told_by_the_states(regex: RegexAndDFA, a: int, h: int, from: usize, byte: u8)
    requires
        only_accepting(regex.dfa.states@, a),
        highest_at(regex.dfa.states@, h),
        has_room_for_extra(regex),
        deterministic(regex.dfa.states@),
        from < regex.dfa.states@.len() + if regex.has_end_anchor { 0int } else { 1 },
    ensures
        forall|i: int, to: usize|
            0 <= i < regex.dfa.states@.len() && regex.dfa.states@[i].state_id == from
                && #[trigger] regex.dfa.states@[i].transitions@.contains_key(to)
                && regex.dfa.states@[i].transitions@[to]@.contains(byte) ==> lookup_table(
                regex,
            )[256 * from + byte] == to,
        (forall|i: int, to: usize|
            0 <= i < regex.dfa.states@.len() && regex.dfa.states@[i].state_id == from
                && #[trigger] regex.dfa.states@[i].transitions@.contains_key(to)
                ==> !regex.dfa.states@[i].transitions@[to]@.contains(byte)) ==> lookup_table(
            regex,
        )[256 * from + byte] == if !regex.has_end_anchor && byte != 255 && (from
            == regex.dfa.states@[a].state_id || from == regex.dfa.states@[h].state_id + 1) {
            regex.dfa.states@[h].state_id + 1
        } else {
            0
        },
{
    let states = regex.dfa.states@;
    single_accept_is_one_state_of_that_type(regex);
    match_is_complete_in_the_state_of_type_accept(regex, a, h);
    table_holds_the_automaton(regex, from, byte);
    let ids = accept_ids(regex);
    assert forall|i: int, to: usize|
        0 <= i < states.len() && states[i].state_id == from
            && #[trigger] states[i].transitions@.contains_key(to)
            && states[i].transitions@[to]@.contains(byte) implies lookup_table(regex)[256 * from + byte]
        == to by {
        assert(has_edge(states, from, byte, to));
        assert(lookup_table(regex)[table_key((from, byte, to)) as int] == to);
    }
    if forall|i: int, to: usize|
        0 <= i < states.len() && states[i].state_id == from
            && #[trigger] states[i].transitions@.contains_key(to)
            ==> !states[i].transitions@[to]@.contains(byte) {
        assert(forall|to: usize| !has_edge(states, from, byte, to));
        if !regex.has_end_anchor {
            assert(ids[0] == states[a].state_id);
            assert(ids[1] == states[h].state_id + 1);
            assert(ids.contains(from) <==> from == ids[0] || from == ids[1]) by {
                assert(ids.contains(ids[0]));
                assert(ids.contains(ids[1]));
            }
        }
    }
}

/// Anything may follow a match, where the expression does not end in an anchor: from the state
/// of the type `accept`, a byte that it does not read leads to the state whose number is one
/// more than the highest, and all bytes behind it stay there. The byte 255 is kept for the start
/// of the input.
pub proof fn anything_may_follow_the_state_of_type_accept(
    regex: RegexAndDFA,
    a: int,
    h: int,
    rest: Seq<u8>,
)
    requires
        only_accepting(regex.dfa.states@, a),
        highest_at(regex.dfa.states@, h),
        has_room_for_extra(regex),
        deterministic(regex.dfa.states@),
        numbered(regex.dfa.states@),
        !regex.has_end_anchor,
        rest.len() > 0,
        !rest.contains(255),
        forall|to: usize| !has_edge(regex.dfa.states@, regex.dfa.states@[a].state_id, rest[0], to),
    ensures
        looked_up(lookup_table(regex), regex.dfa.states@[a].state_id as nat, rest)
            == regex.dfa.states@[h].state_id + 1,
{
    single_accept_is_one_state_of_that_type(regex);
    match_is_complete_in_the_state_of_type_accept(regex, a, h);
    anything_may_follow_a_match(regex, rest);
}

/// Nothing may follow a match, where the expression ends in an anchor: from the state of the
/// type `accept`, a byte that it does not read leads to state zero.
pub proof fn nothing_follows_the_state_of_type_accept(regex: RegexAndDFA, a: int, byte: u8)
    requires
        only_accepting(regex.dfa.states@, a),
        deterministic(regex.dfa.states@),
        numbered(regex.dfa.states@),
        regex.has_end_anchor,
        forall|to: usize| !has_edge(regex.dfa.states@, regex.dfa.states@[a].state_id, byte, to),
    ensures
        looked_up(lookup_table(regex), regex.dfa.states@[a].state_id as nat, seq![byte]) == 0,
{
    single_accept_is_one_state_of_that_type(regex);
    lemma_only_accepting_state(regex.dfa.states@, a);
    nothing_follows_an_end_anchor(regex, byte);
}

} // verus!
