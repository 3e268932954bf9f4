//! What the table holds once all rows are written: the transitions of the automaton.

use vstd::prelude::*;

use crate::ordered::{
    in_order, keys_are_enumerated_in_order, lemma_numbers_are_ordered, set_is_enumerated_in_order,
};
use crate::structs::{DFAStateNode, RegexAndDFA};
use crate::table::{
    accept_ids, accepting, accepting_ids, automaton_rows, edge_rows, entry_keys, entry_values,
    extra_accept_id, has_room_for_extra, has_single_accept, highest_id, highest_id_is_the_highest, keys_fit, rows_of_state,
    rows_towards, state_rows, table_key, table_len, table_rows, trailing_rows, Row,
    BYTE_SIZE,
};

verus! {

/// A table of `len` entries after `rows` were written to it, one after the other. It starts
/// with zeros.
pub open spec fn written(rows: Seq<Row>, len: nat) -> Seq<nat>
    decreases rows.len(),
{
    if rows.len() == 0 {
        Seq::new(len, |i: int| 0nat)
    } else {
        let before = written(rows.drop_last(), len);
        if table_key(rows.last()) < len {
            before.update(table_key(rows.last()) as int, rows.last().2 as nat)
        } else {
            before
        }
    }
}

/// The transition table of a regular expression.
pub open spec fn lookup_table(regex: RegexAndDFA) -> Seq<nat> {
    written(table_rows(regex), table_len(regex))
}

/// Some state with the number `from` goes to `to` when it reads `byte`.
pub open spec fn has_edge(states: Seq<DFAStateNode>, from: usize, byte: u8, to: usize) -> bool {
    exists|i: int|
        0 <= i < states.len() && (#[trigger] states[i]).state_id == from
            && states[i].transitions@.contains_key(to) && states[i].transitions@[to]@.contains(byte)
}

/// A state goes to at most one state when it reads a byte.
pub open spec fn deterministic(states: Seq<DFAStateNode>) -> bool {
    forall|from: usize, byte: u8, to: usize, other: usize| #[trigger]
        has_edge(states, from, byte, to) && #[trigger] has_edge(states, from, byte, other) ==> to
            == other
}

/// The states are numbered below their count.
pub open spec fn numbered(states: Seq<DFAStateNode>) -> bool {
    forall|i: int| 0 <= i < states.len() ==> (#[trigger] states[i]).state_id < states.len()
}

/// Two rows share an entry of the table only where they start from the same state with the
/// same byte.
pub proof fn entries_are_shared_by_equal_transitions_only(a: Row, b: Row)
    requires
        table_key(a) == table_key(b),
    ensures
        a.0 == b.0,
        a.1 == b.1,
{
}

proof fn lemma_flattened_contains<A>(parts: Seq<Seq<A>>, x: A)
    ensures
        parts.flatten().contains(x) <==> exists|i: int|
            0 <= i < parts.len() && (#[trigger] parts[i]).contains(x),
    decreases parts.len(),
{
    if parts.len() > 0 {
        let rest = parts.drop_last();
        let last = parts.last();
        assert(parts =~= rest.push(last));
        rest.lemma_flatten_push(last);
        lemma_flattened_contains(rest, x);
        if parts.flatten().contains(x) {
            let k = choose|k: int| 0 <= k < parts.flatten().len() && parts.flatten()[k] == x;
            if k < rest.flatten().len() {
                assert(rest.flatten()[k] == x);
                let i = choose|i: int| 0 <= i < rest.len() && (#[trigger] rest[i]).contains(x);
                assert(parts[i].contains(x));
            } else {
                assert(last[k - rest.flatten().len()] == x);
                assert(parts[parts.len() - 1].contains(x));
            }
        }
        if exists|i: int| 0 <= i < parts.len() && (#[trigger] parts[i]).contains(x) {
            let i = choose|i: int| 0 <= i < parts.len() && (#[trigger] parts[i]).contains(x);
            if i < rest.len() {
                assert(rest[i].contains(x));
                let k = choose|k: int| 0 <= k < rest.flatten().len() && rest.flatten()[k] == x;
                assert(parts.flatten()[k] == x);
            } else {
                let k = choose|k: int| 0 <= k < last.len() && last[k] == x;
                assert(parts.flatten()[rest.flatten().len() + k] == x);
            }
        }
    }
}

proof fn lemma_state_rows_contain(state: DFAStateNode, row: Row)
    ensures
        state_rows(state).contains(row) <==> {
            &&& state.state_id == row.0
            &&& state.transitions@.contains_key(row.2)
            &&& state.transitions@[row.2]@.contains(row.1)
        },
{
    lemma_numbers_are_ordered();
    let keys = in_order(state.transitions@.dom());
    keys_are_enumerated_in_order(&state.transitions);
    let parts = keys.map_values(rows_towards(state));
    lemma_flattened_contains(parts, row);
    if state_rows(state).contains(row) {
        let i = choose|i: int| 0 <= i < parts.len() && (#[trigger] parts[i]).contains(row);
        let to = keys[i];
        assert(keys.to_set().contains(to));
        let bytes = in_order(state.transitions@[to]@);
        set_is_enumerated_in_order(&state.transitions@[to]);
        assert(parts[i] == edge_rows(state.state_id, state.transitions@[to]@, to));
        let k = choose|k: int| 0 <= k < parts[i].len() && parts[i][k] == row;
        assert(bytes.to_set().contains(bytes[k]));
    }
    if state.state_id == row.0 && state.transitions@.contains_key(row.2)
        && state.transitions@[row.2]@.contains(row.1) {
        assert(keys.to_set().contains(row.2));
        let i = choose|i: int| 0 <= i < keys.len() && keys[i] == row.2;
        let bytes = in_order(state.transitions@[row.2]@);
        set_is_enumerated_in_order(&state.transitions@[row.2]);
        assert(bytes.to_set().contains(row.1));
        let k = choose|k: int| 0 <= k < bytes.len() && bytes[k] == row.1;
        assert(parts[i] == edge_rows(state.state_id, state.transitions@[row.2]@, row.2));
        assert(parts[i][k] == row);
        assert(parts[i].contains(row));
    }
}

/// The rows of the automaton are its transitions: no transition is missing, and there is no
/// other row.
pub proof fn rows_are_the_transitions(states: Seq<DFAStateNode>, row: Row)
    ensures
        automaton_rows(states).contains(row) <==> has_edge(states, row.0, row.1, row.2),
{
    let parts = states.map_values(rows_of_state());
    lemma_flattened_contains(parts, row);
    if automaton_rows(states).contains(row) {
        let i = choose|i: int| 0 <= i < parts.len() && (#[trigger] parts[i]).contains(row);
        assert(parts[i] == state_rows(states[i]));
        lemma_state_rows_contain(states[i], row);
    }
    if has_edge(states, row.0, row.1, row.2) {
        let i = choose|i: int|
            0 <= i < states.len() && (#[trigger] states[i]).state_id == row.0
                && states[i].transitions@.contains_key(row.2)
                && states[i].transitions@[row.2]@.contains(row.1);
        lemma_state_rows_contain(states[i], row);
        assert(parts[i] == state_rows(states[i]));
        assert(parts[i].contains(row));
    }
}

/// Writing rows does not change the number of entries.
proof fn lemma_written_len(rows: Seq<Row>, len: nat)
    ensures
        written(rows, len).len() == len,
    decreases rows.len(),
{
    if rows.len() > 0 {
        lemma_written_len(rows.drop_last(), len);
    }
}

/// Some row is written to the entry `key`.
spec fn some_row_at(rows: Seq<Row>, key: int) -> bool {
    exists|i: int| 0 <= i < rows.len() && table_key(#[trigger] rows[i]) == key
}

/// All rows that are written to the entry `key` hold `to`.
spec fn all_rows_hold(rows: Seq<Row>, key: int, to: nat) -> bool {
    forall|i: int|
        0 <= i < rows.len() && table_key(#[trigger] rows[i]) == key ==> rows[i].2 == to
}

/// An entry holds what the last rows that are written to it agree on, and what it held before
/// where no row is written to it.
proof fn lemma_entry_after_writing(before: Seq<Row>, rows: Seq<Row>, len: nat, key: int, to: nat)
    requires
        0 <= key < len,
        all_rows_hold(rows, key, to),
    ensures
        written(before + rows, len)[key] == if some_row_at(rows, key) {
            to
        } else {
            written(before, len)[key]
        },
    decreases rows.len(),
{
    let all = before + rows;
    if rows.len() == 0 {
        assert(all =~= before);
    } else {
        let rest = rows.drop_last();
        assert(all.drop_last() =~= before + rest);
        assert(all.last() == rows[rows.len() - 1]);
        lemma_written_len(before + rest, len);
        assert(all_rows_hold(rest, key, to)) by {
            assert forall|i: int|
                0 <= i < rest.len() && table_key(#[trigger] rest[i]) == key implies rest[i].2
                == to by {
                assert(rest[i] == rows[i]);
            }
        }
        lemma_entry_after_writing(before, rest, len, key, to);
        if table_key(rows.last()) == key {
            assert(some_row_at(rows, key));
        } else {
            if some_row_at(rest, key) {
                let i = choose|i: int| 0 <= i < rest.len() && table_key(#[trigger] rest[i]) == key;
                assert(table_key(rows[i]) == key);
            }
            if some_row_at(rows, key) {
                let i = choose|i: int| 0 <= i < rows.len() && table_key(#[trigger] rows[i]) == key;
                assert(table_key(rest[i]) == key);
            }
        }
    }
}

/// The table holds the automaton. Looking up the entry of a state and a byte gives the state
/// that the automaton goes to. Where it goes nowhere the entry holds zero, but for the states
/// in which a match is complete when the expression does not end in an anchor: from there
/// every byte but 255 leads to the extra state.
pub proof fn table_holds_the_automaton(regex: RegexAndDFA, from: usize, byte: u8)
    requires
        has_single_accept(regex),
        has_room_for_extra(regex),
        deterministic(regex.dfa.states@),
        table_key((from, byte, 0)) < table_len(regex),
    ensures
        forall|to: usize|
            has_edge(regex.dfa.states@, from, byte, to) ==> #[trigger] lookup_table(
                regex,
            )[table_key((from, byte, to)) as int] == to,
        (forall|to: usize| !has_edge(regex.dfa.states@, from, byte, to)) ==> lookup_table(
            regex,
        )[table_key((from, byte, 0)) as int] == if !regex.has_end_anchor && byte != 255
            && accept_ids(regex).contains(from) {
            extra_accept_id(regex)
        } else {
            0
        },
{
    let states = regex.dfa.states@;
    let len = table_len(regex);
    let key = table_key((from, byte, 0)) as int;
    let rows = automaton_rows(states);
    let ids = accept_ids(regex);
    let trailing = if regex.has_end_anchor {
        Seq::empty()
    } else {
        trailing_rows(ids[0], ids[1])
    };
    assert(table_rows(regex) =~= trailing + rows);
    if exists|to: usize| has_edge(states, from, byte, to) {
        let to = choose|to: usize| has_edge(states, from, byte, to);
        rows_are_the_transitions(states, (from, byte, to));
        let k = choose|k: int| 0 <= k < rows.len() && rows[k] == (from, byte, to);
        assert(table_key(rows[k]) == key);
        assert(all_rows_hold(rows, key, to as nat)) by {
            assert forall|i: int| 0 <= i < rows.len() && table_key(#[trigger] rows[i]) == key implies
                rows[i].2 == to as nat by {
                entries_are_shared_by_equal_transitions_only(rows[i], (from, byte, to));
                rows_are_the_transitions(states, rows[i]);
            }
        }
        lemma_entry_after_writing(trailing, rows, len, key, to as nat);
    } else {
        if some_row_at(rows, key) {
            let i = choose|i: int| 0 <= i < rows.len() && table_key(#[trigger] rows[i]) == key;
            entries_are_shared_by_equal_transitions_only(rows[i], (from, byte, 0));
            rows_are_the_transitions(states, rows[i]);
            assert(has_edge(states, from, byte, rows[i].2));
        }
        lemma_entry_after_writing(trailing, rows, len, key, 0);
        let extra = if regex.has_end_anchor {
            0
        } else {
            extra_accept_id(regex)
        };
        lemma_entry_after_writing(Seq::empty(), trailing, len, key, extra);
        assert(Seq::empty() + trailing =~= trailing);
        if some_row_at(trailing, key) {
            let i = choose|i: int|
                0 <= i < trailing.len() && table_key(#[trigger] trailing[i]) == key;
            entries_are_shared_by_equal_transitions_only(trailing[i], (from, byte, 0));
            assert(byte != 255);
            assert(ids[i % 2] == from);
        }
        if !regex.has_end_anchor && byte != 255 && ids.contains(from) {
            let k = choose|k: int| 0 <= k < ids.len() && ids[k] == from;
            let i = 2 * byte + k;
            assert(trailing[i] == (from, byte, ids[1]));
            assert(table_key(trailing[i]) == key);
        }
    }
}

/// The accepting state is one of the states, so its number is below their count.
proof fn lemma_accepting_state_is_numbered(regex: RegexAndDFA)
    requires
        has_single_accept(regex),
        numbered(regex.dfa.states@),
    ensures
        regex.dfa.states@.len() > 0,
        accept_ids(regex)[0] < regex.dfa.states@.len(),
{
    let states = regex.dfa.states@;
    let accepted = states.filter(|s: DFAStateNode| accepting(s));
    states.lemma_filter_contains_rev(|s: DFAStateNode| accepting(s), accepted[0]);
    let a = choose|a: int| 0 <= a < states.len() && states[a] == accepted[0];
    assert(states[a].state_id == accepting_ids(states)[0]);
}

/// Every row is written inside the table, where the states are numbered below their count.
pub proof fn rows_stay_inside_the_table(regex: RegexAndDFA, i: int)
    requires
        has_single_accept(regex),
        has_room_for_extra(regex),
        numbered(regex.dfa.states@),
        0 <= i < table_rows(regex).len(),
    ensures
        table_key(table_rows(regex)[i]) < table_len(regex),
{
    let states = regex.dfa.states@;
    let row = table_rows(regex)[i];
    let rows = automaton_rows(states);
    lemma_accepting_state_is_numbered(regex);
    highest_id_is_the_highest(states);
    let h = choose|h: int| 0 <= h < states.len() && (#[trigger] states[h]).state_id == highest_id(
        states,
    );
    assert(states[h].state_id < states.len());
    let offset = table_rows(regex).len() - rows.len();
    if i >= offset {
        assert(rows[i - offset] == row);
        rows_are_the_transitions(states, row);
        assert(row.0 < states.len());
    } else {
        assert(!regex.has_end_anchor);
        assert(row.0 <= states.len());
    }
}

/// The extra state is a new one: no state of the automaton has its number.
pub proof fn extra_state_is_new(regex: RegexAndDFA, i: int)
    requires
        0 <= i < regex.dfa.states@.len(),
    ensures
        regex.dfa.states@[i].state_id < extra_accept_id(regex),
{
    highest_id_is_the_highest(regex.dfa.states@);
}

/// A table of `len` entries after each of `values` was stored in the entry of the same place
/// in `keys`, one after the other. It starts with zeros.
pub open spec fn stored(keys: Seq<usize>, values: Seq<usize>, len: nat) -> Seq<nat>
    recommends
        keys.len() == values.len(),
    decreases keys.len(),
{
    if keys.len() == 0 {
        Seq::new(len, |i: int| 0nat)
    } else {
        let before = stored(keys.drop_last(), values.drop_last(), len);
        if keys.last() < len {
            before.update(keys.last() as int, values.last() as nat)
        } else {
            before
        }
    }
}

/// The sparse entries and the rows describe the same table.
pub proof fn sparse_entries_hold_the_same_table(rows: Seq<Row>, len: nat)
    requires
        keys_fit(rows),
    ensures
        stored(entry_keys(rows), entry_values(rows), len) == written(rows, len),
    decreases rows.len(),
{
    if rows.len() > 0 {
        let rest = rows.drop_last();
        assert(entry_keys(rows).drop_last() =~= entry_keys(rest));
        assert(entry_values(rows).drop_last() =~= entry_values(rest));
        assert(table_key(rows[rows.len() - 1]) <= usize::MAX);
        assert(keys_fit(rest)) by {
            assert forall|i: int| 0 <= i < rest.len() implies table_key(#[trigger] rest[i])
                <= usize::MAX by {
                assert(rest[i] == rows[i]);
            }
        }
        sparse_entries_hold_the_same_table(rest, len);
    }
}

/// The state that is reached by looking up one byte of `input` after the other, starting in the
/// state `from`.
pub open spec fn looked_up(table: Seq<nat>, from: nat, input: Seq<u8>) -> nat
    decreases input.len(),
{
    if input.len() == 0 {
        from
    } else {
        table[(looked_up(table, from, input.drop_last()) * BYTE_SIZE + input.last()) as int]
    }
}

/// The automaton goes from `from` to `to` when it reads `input`.
pub open spec fn leads(states: Seq<DFAStateNode>, from: usize, input: Seq<u8>, to: usize) -> bool
    decreases input.len(),
{
    if input.len() == 0 {
        from == to
    } else {
        exists|mid: usize|
            leads(states, from, input.drop_last(), mid) && #[trigger] has_edge(
                states,
                mid,
                input.last(),
                to,
            )
    }
}

/// Looking up an input follows the automaton: where the automaton reads the input, the same
/// state is reached.
pub proof fn lookups_follow_the_automaton(
    regex: RegexAndDFA,
    from: usize,
    input: Seq<u8>,
    to: usize,
)
    requires
        has_single_accept(regex),
        has_room_for_extra(regex),
        deterministic(regex.dfa.states@),
        numbered(regex.dfa.states@),
        leads(regex.dfa.states@, from, input, to),
    ensures
        looked_up(lookup_table(regex), from as nat, input) == to,
    decreases input.len(),
{
    let states = regex.dfa.states@;
    if input.len() > 0 {
        let before = input.drop_last();
        let byte = input.last();
        let mid = choose|mid: usize|
            leads(states, from, before, mid) && #[trigger] has_edge(states, mid, byte, to);
        lookups_follow_the_automaton(regex, from, before, mid);
        let i = choose|i: int|
            0 <= i < states.len() && (#[trigger] states[i]).state_id == mid
                && states[i].transitions@.contains_key(to) && states[i].transitions@[to]@.contains(
                byte,
            );
        assert(states[i].state_id < states.len());
        table_holds_the_automaton(regex, mid, byte);
        assert(lookup_table(regex)[table_key((mid, byte, to)) as int] == to);
    }
}

/// Anything may follow a match, where the expression does not end in an anchor: a byte that the
/// automaton does not read in its accepting state leads to the extra state, in which the match
/// is complete, and so do all bytes behind it. The byte 255 is kept for the start of the input.
pub proof fn anything_may_follow_a_match(regex: RegexAndDFA, rest: Seq<u8>)
    requires
        has_single_accept(regex),
        has_room_for_extra(regex),
        deterministic(regex.dfa.states@),
        numbered(regex.dfa.states@),
        !regex.has_end_anchor,
        rest.len() > 0,
        !rest.contains(255),
        forall|to: usize| !has_edge(regex.dfa.states@, accept_ids(regex)[0], rest[0], to),
    ensures
        looked_up(lookup_table(regex), accept_ids(regex)[0] as nat, rest) == accept_ids(regex)[1],
        accept_ids(regex)[1] == extra_accept_id(regex),
    decreases rest.len(),
{
    let states = regex.dfa.states@;
    let ids = accept_ids(regex);
    let before = rest.drop_last();
    let byte = rest.last();
    assert(rest[rest.len() - 1] != 255);
    lemma_accepting_state_is_numbered(regex);
    highest_id_is_the_highest(states);
    let h = choose|h: int| 0 <= h < states.len() && (#[trigger] states[h]).state_id == highest_id(
        states,
    );
    assert(states[h].state_id < states.len());
    if before.len() == 0 {
        table_holds_the_automaton(regex, ids[0], byte);
        assert(ids.contains(ids[0]));
        assert(looked_up(lookup_table(regex), ids[0] as nat, before) == ids[0]);
    } else {
        assert(before[0] == rest[0]);
        assert(!before.contains(255)) by {
            if before.contains(255) {
                let k = choose|k: int| 0 <= k < before.len() && before[k] == 255;
                assert(rest[k] == 255);
            }
        }
        anything_may_follow_a_match(regex, before);
        assert forall|to: usize| !has_edge(states, ids[1], byte, to) by {
            if has_edge(states, ids[1], byte, to) {
                let i = choose|i: int|
                    0 <= i < states.len() && (#[trigger] states[i]).state_id == ids[1]
                        && states[i].transitions@.contains_key(to)
                        && states[i].transitions@[to]@.contains(byte);
                assert(states[i].state_id <= highest_id(states));
            }
        }
        table_holds_the_automaton(regex, ids[1], byte);
        assert(ids.contains(ids[1]));
    }
}

/// Nothing may follow a match, where the expression ends in an anchor: the match is complete in
/// the accepting state alone, only the transitions of the automaton are written to the table,
/// and a byte that the automaton does not read in the accepting state leads to state zero.
pub proof fn nothing_follows_an_end_anchor(regex: RegexAndDFA, byte: u8)
    requires
        has_single_accept(regex),
        deterministic(regex.dfa.states@),
        numbered(regex.dfa.states@),
        regex.has_end_anchor,
        forall|to: usize| !has_edge(regex.dfa.states@, accept_ids(regex)[0], byte, to),
    ensures
        accept_ids(regex) == accepting_ids(regex.dfa.states@),
        table_rows(regex) == automaton_rows(regex.dfa.states@),
        table_len(regex) == 256 * regex.dfa.states@.len(),
        looked_up(lookup_table(regex), accept_ids(regex)[0] as nat, seq![byte]) == 0,
{
    let accept = accept_ids(regex)[0];
    lemma_accepting_state_is_numbered(regex);
    table_holds_the_automaton(regex, accept, byte);
    reveal_with_fuel(looked_up, 2);
    assert(seq![byte].drop_last() =~= Seq::empty());
}

} // verus!
