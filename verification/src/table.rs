//! The transition table: which entry of the table holds which state.
//!
//! The table has a block of 256 entries for each state, one entry per byte. The entry of a
//! state and a byte holds the next state, and zero where there is none.

use std::collections::BTreeSet;
use vstd::prelude::*;
use vstd::std_specs::btree::increasing_seq;
use vstd::std_specs::iter::IteratorSpec;

use crate::ordered::{elements_in_order, in_order, lemma_map_is_walked_in_order, lemma_numbers_are_ordered};
use crate::structs::{DFAStateNode, RegexAndDFA};

verus! {

/// The type of an accepting state.
pub const ACCEPT_STATE_ID: &'static str = "accept";

/// The number of entries that the table has for a state: one for each byte.
pub const BYTE_SIZE: u32 = 256;

/// Whether `state` is an accepting state.
pub open spec fn accepting(state: DFAStateNode) -> bool {
    state.state_type@ == ACCEPT_STATE_ID@
}

/// The numbers of the accepting states.
pub open spec fn accepting_ids(states: Seq<DFAStateNode>) -> Seq<usize> {
    states.filter(|s: DFAStateNode| accepting(s)).map_values(|s: DFAStateNode| s.state_id)
}

/// The highest number of a state.
pub open spec fn highest_id(states: Seq<DFAStateNode>) -> nat
    decreases states.len(),
{
    if states.len() == 0 {
        0
    } else {
        let before = highest_id(states.drop_last());
        if before < states.last().state_id {
            states.last().state_id as nat
        } else {
            before
        }
    }
}

/// No state has a higher number than the highest, and some state has it.
pub proof fn highest_id_is_the_highest(states: Seq<DFAStateNode>)
    requires
        states.len() > 0,
    ensures
        forall|i: int| 0 <= i < states.len() ==> (#[trigger] states[i]).state_id <= highest_id(states),
        exists|i: int| 0 <= i < states.len() && (#[trigger] states[i]).state_id == highest_id(states),
    decreases states.len(),
{
    let before = states.drop_last();
    if before.len() > 0 {
        highest_id_is_the_highest(before);
        assert forall|i: int| 0 <= i < states.len() implies (#[trigger] states[i]).state_id
            <= highest_id(states) by {
            if i < before.len() {
                assert(before[i] == states[i]);
            }
        }
        if highest_id(before) < states.last().state_id {
            assert(states[states.len() - 1].state_id == highest_id(states));
        } else {
            let i = choose|i: int|
                0 <= i < before.len() && (#[trigger] before[i]).state_id == highest_id(before);
            assert(states[i].state_id == highest_id(states));
        }
    } else {
        assert(highest_id(before) == 0);
        assert(states[0].state_id == highest_id(states));
    }
}

/// The numbers of the accepting states, in the order of the states.
pub fn accepting_state_ids(states: &Vec<DFAStateNode>) -> (r: Vec<usize>)
    ensures
        r@ == accepting_ids(states@),
{
    let accept = ACCEPT_STATE_ID.to_owned();
    let mut r: Vec<usize> = Vec::new();
    let mut i: usize = 0;
    while i < states.len()
        invariant
            i <= states.len(),
            accept@ == ACCEPT_STATE_ID@,
            r@ == accepting_ids(states@.take(i as int)),
        decreases states.len() - i,
    {
        proof {
            let before = states@.take(i as int);
            assert(states@.take(i + 1) =~= before.push(states@[i as int]));
            before.lemma_filter_push(states@[i as int], |s: DFAStateNode| accepting(s));
        }
        if states[i].state_type == accept {
            r.push(states[i].state_id);
        }
        i = i + 1;
    }
    assert(states@.take(i as int) =~= states@);
    r
}

/// The highest number of a state.
pub fn highest_state_id(states: &Vec<DFAStateNode>) -> (r: usize)
    requires
        states.len() > 0,
    ensures
        r == highest_id(states@),
{
    let mut r: usize = 0;
    let mut i: usize = 0;
    while i < states.len()
        invariant
            i <= states.len(),
            r == highest_id(states@.take(i as int)),
        decreases states.len() - i,
    {
        proof {
            assert(states@.take(i + 1).drop_last() =~= states@.take(i as int));
        }
        if r < states[i].state_id {
            r = states[i].state_id;
        }
        i = i + 1;
    }
    assert(states@.take(i as int) =~= states@);
    r
}

/// One transition: the state, the byte that is read there, and the next state.
pub type Row = (usize, u8, usize);

/// The rows of the transitions from `from` to `to`, in the order of their bytes.
pub open spec fn edge_rows(from: usize, bytes: Set<u8>, to: usize) -> Seq<Row> {
    in_order(bytes).map_values(|byte: u8| (from, byte, to))
}

/// The rows of the transitions from `state` to a given state.
pub open spec fn rows_towards(state: DFAStateNode) -> spec_fn(usize) -> Seq<Row> {
    |to: usize| edge_rows(state.state_id, state.transitions@[to]@, to)
}

/// The rows of the transitions from `state`, in the order of the next states.
pub open spec fn state_rows(state: DFAStateNode) -> Seq<Row> {
    in_order(state.transitions@.dom()).flat_map(rows_towards(state))
}

/// The rows of a state.
pub open spec fn rows_of_state() -> spec_fn(DFAStateNode) -> Seq<Row> {
    |state: DFAStateNode| state_rows(state)
}

/// The rows of the transitions of the automaton, state by state.
pub open spec fn automaton_rows(states: Seq<DFAStateNode>) -> Seq<Row> {
    states.flat_map(rows_of_state())
}

/// The rows that let any byte but the last one follow a match: from `accept` to `extra`, and
/// from there to itself.
pub open spec fn trailing_rows(accept: usize, extra: usize) -> Seq<Row> {
    Seq::new(
        510,
        |i: int|
            (
                if i % 2 == 0 {
                    accept
                } else {
                    extra
                },
                (i / 2) as u8,
                extra,
            ),
    )
}

/// Appends the rows of the transitions from `from` to `to`.
fn push_edge_rows(rows: &mut Vec<Row>, from: usize, bytes: &BTreeSet<u8>, to: usize)
    ensures
        final(rows)@ == old(rows)@ + edge_rows(from, bytes@, to),
{
    proof {
        lemma_numbers_are_ordered();
    }
    let list = elements_in_order(bytes);
    let ghost before = rows@;
    let ghost new = edge_rows(from, bytes@, to);
    let mut i: usize = 0;
    while i < list.len()
        invariant
            i <= list.len(),
            list@ == in_order(bytes@),
            new == edge_rows(from, bytes@, to),
            rows@ == before + new.take(i as int),
        decreases list.len() - i,
    {
        rows.push((from, list[i], to));
        i = i + 1;
        assert(rows@ =~= before + new.take(i as int));
    }
    assert(new.take(i as int) =~= new);
}

/// Appends the rows of the transitions from `state`.
fn push_state_rows(rows: &mut Vec<Row>, state: &DFAStateNode)
    ensures
        final(rows)@ == old(rows)@ + state_rows(*state),
{
    proof {
        lemma_numbers_are_ordered();
    }
    let ghost before = rows@;
    let edges = state.transitions.iter();
    let ghost all = edges.remaining();
    let ghost keys = all.map_values(|kv: (&usize, &BTreeSet<u8>)| *kv.0);
    proof {
        assert(increasing_seq(keys));
        lemma_map_is_walked_in_order(&state.transitions, keys);
        assert(keys.take(0).flat_map(rows_towards(*state)) =~= Seq::empty());
    }
    for edge in it: edges
        invariant
            it.seq() == all,
            keys == all.map_values(|kv: (&usize, &BTreeSet<u8>)| *kv.0),
            forall|i: int|
                0 <= i < keys.len() ==> state.transitions@[keys[i]] == *(#[trigger] all[i]).1,
            rows@ == before + keys.take(it.index()).flat_map(rows_towards(*state)),
    {
        proof {
            keys.lemma_flat_map_take_append(rows_towards(*state), it.index());
            assert(edge == all[it.index()]);
        }
        push_edge_rows(rows, state.state_id, edge.1, *edge.0);
        assert(rows@ =~= before + keys.take(it.index() + 1).flat_map(rows_towards(*state)));
    }
    assert(keys.take(keys.len() as int) =~= keys);
}

/// There are no more accepting states than states.
pub proof fn lemma_accepting_states_are_states(states: Seq<DFAStateNode>)
    ensures
        accepting_ids(states).len() <= states.len(),
{
    states.lemma_filter_len(|s: DFAStateNode| accepting(s));
}

/// There is exactly one accepting state.
pub open spec fn has_single_accept(regex: RegexAndDFA) -> bool {
    accepting_ids(regex.dfa.states@).len() == 1
}

/// The number of the state that takes what follows a match, where something may follow: the
/// next number after the highest of the automaton.
pub open spec fn extra_accept_id(regex: RegexAndDFA) -> nat {
    highest_id(regex.dfa.states@) + 1
}

/// The extra state, where there is one, can be numbered.
pub open spec fn has_room_for_extra(regex: RegexAndDFA) -> bool {
    regex.has_end_anchor || extra_accept_id(regex) <= usize::MAX
}

/// The states in which a match is complete: the accepting state and, unless the expression
/// ends in an anchor, the extra state.
pub open spec fn accept_ids(regex: RegexAndDFA) -> Seq<usize> {
    let accepting = accepting_ids(regex.dfa.states@);
    if regex.has_end_anchor {
        accepting
    } else {
        accepting.push(extra_accept_id(regex) as usize)
    }
}

/// The states in which a match is complete.
pub fn accept_state_ids(regex: &RegexAndDFA) -> (r: Vec<usize>)
    requires
        has_single_accept(*regex),
        has_room_for_extra(*regex),
    ensures
        r@ == accept_ids(*regex),
{
    let mut r = accepting_state_ids(&regex.dfa.states);
    proof {
        lemma_accepting_states_are_states(regex.dfa.states@);
    }
    if !regex.has_end_anchor {
        r.push(highest_state_id(&regex.dfa.states) + 1);
    }
    r
}

/// All rows of the table, in the order in which they are written to it. Later rows overwrite
/// earlier ones.
pub open spec fn table_rows(regex: RegexAndDFA) -> Seq<Row> {
    let rows = automaton_rows(regex.dfa.states@);
    if regex.has_end_anchor {
        rows
    } else {
        trailing_rows(accept_ids(regex)[0], accept_ids(regex)[1]) + rows
    }
}

/// All rows of the table, in the order in which they are written to it.
pub fn transition_rows(regex: &RegexAndDFA) -> (r: Vec<Row>)
    requires
        has_single_accept(*regex),
        has_room_for_extra(*regex),
    ensures
        r@ == table_rows(*regex),
{
    let mut rows: Vec<Row> = Vec::new();
    if !regex.has_end_anchor {
        let ids = accept_state_ids(regex);
        let ghost all = trailing_rows(ids@[0], ids@[1]);
        let mut byte: u8 = 0;
        while byte < 255
            invariant
                byte <= 255,
                ids@.len() == 2,
                all == trailing_rows(ids@[0], ids@[1]),
                rows@ == all.take(2 * byte),
            decreases 255 - byte,
        {
            rows.push((ids[0], byte, ids[1]));
            rows.push((ids[1], byte, ids[1]));
            assert(rows@ =~= all.take(2 * byte + 2));
            byte = byte + 1;
        }
        assert(rows@ =~= all);
    }
    let ghost before = rows@;
    let states = &regex.dfa.states;
    let mut i: usize = 0;
    assert(states@.take(0).flat_map(rows_of_state()) =~= Seq::empty());
    while i < states.len()
        invariant
            i <= states.len(),
            rows@ == before + states@.take(i as int).flat_map(rows_of_state()),
        decreases states.len() - i,
    {
        proof {
            states@.lemma_flat_map_take_append(rows_of_state(), i as int);
        }
        push_state_rows(&mut rows, &states[i]);
        assert(rows@ =~= before + states@.take(i + 1).flat_map(rows_of_state()));
        i = i + 1;
    }
    assert(states@.take(i as int) =~= states@);
    assert(rows@ =~= table_rows(*regex));
    rows
}

/// The number of entries of the table: a block for each state, and one for the extra state.
pub open spec fn table_len(regex: RegexAndDFA) -> nat {
    BYTE_SIZE as nat * regex.dfa.states@.len() + if regex.has_end_anchor {
        0
    } else {
        BYTE_SIZE as nat
    }
}

/// The number of entries of the table.
pub fn table_size(regex: &RegexAndDFA) -> (r: usize)
    requires
        table_len(*regex) <= usize::MAX,
    ensures
        r == table_len(*regex),
{
    let mut size: usize = BYTE_SIZE as usize * regex.dfa.states.len();
    if !regex.has_end_anchor {
        size = size + BYTE_SIZE as usize;
    }
    size
}

/// The entry of the table that a row is written to.
pub open spec fn table_key(row: Row) -> nat {
    row.0 as nat * BYTE_SIZE as nat + row.1 as nat
}

/// Every row is written to an entry that can be numbered.
pub open spec fn keys_fit(rows: Seq<Row>) -> bool {
    forall|i: int| 0 <= i < rows.len() ==> table_key(#[trigger] rows[i]) <= usize::MAX
}

/// The table as a list of the entries that are written: their numbers, and what is written
/// to them.
#[derive(Debug)]
pub struct SparseEntries {
    pub keys: Vec<usize>,
    pub values: Vec<usize>,
}

/// The entries that `rows` are written to, row by row.
pub open spec fn entry_keys(rows: Seq<Row>) -> Seq<usize> {
    rows.map_values(|row: Row| table_key(row) as usize)
}

/// What `rows` write to their entries, row by row.
pub open spec fn entry_values(rows: Seq<Row>) -> Seq<usize> {
    rows.map_values(|row: Row| row.2)
}

/// Whether every row is written to an entry that can be numbered.
pub fn check_keys_fit(rows: &Vec<Row>) -> (r: bool)
    ensures
        r == keys_fit(rows@),
{
    let mut i: usize = 0;
    while i < rows.len()
        invariant
            i <= rows.len(),
            keys_fit(rows@.take(i as int)),
        decreases rows.len() - i,
    {
        let row = rows[i];
        if row.0 > (usize::MAX - row.1 as usize) / (BYTE_SIZE as usize) {
            assert(table_key(rows@[i as int]) > usize::MAX);
            return false;
        }
        assert forall|j: int| 0 <= j < i + 1 implies table_key(#[trigger] rows@.take(i + 1)[j])
            <= usize::MAX by {
            if j < i {
                assert(rows@.take(i + 1)[j] == rows@.take(i as int)[j]);
            }
        }
        i = i + 1;
    }
    assert(rows@.take(i as int) =~= rows@);
    true
}

/// The entries that `rows` write, in order. An entry that is written more than once is listed
/// more than once.
pub fn sparse_entries(rows: &Vec<Row>) -> (r: SparseEntries)
    requires
        keys_fit(rows@),
    ensures
        r.keys@ == entry_keys(rows@),
        r.values@ == entry_values(rows@),
{
    let mut keys: Vec<usize> = Vec::new();
    let mut values: Vec<usize> = Vec::new();
    let mut i: usize = 0;
    while i < rows.len()
        invariant
            i <= rows.len(),
            keys_fit(rows@),
            keys@ == entry_keys(rows@.take(i as int)),
            values@ == entry_values(rows@.take(i as int)),
        decreases rows.len() - i,
    {
        let row = rows[i];
        assert(table_key(rows@[i as int]) <= usize::MAX);
        keys.push(row.0 * BYTE_SIZE as usize + row.1 as usize);
        values.push(row.2);
        i = i + 1;
    }
    SparseEntries { keys, values }
}

/// What a sparse table is made from: the entries that all rows of the table write, and the
/// number of entries of the table. There is nothing where an entry cannot be numbered.
pub fn sparse_input(regex: &RegexAndDFA) -> (r: Option<(SparseEntries, usize)>)
    requires
        has_single_accept(*regex),
        has_room_for_extra(*regex),
        table_len(*regex) <= usize::MAX,
    ensures
        r is Some <==> keys_fit(table_rows(*regex)),
        r matches Some((entries, size)) ==> {
            &&& entries.keys@ == entry_keys(table_rows(*regex))
            &&& entries.values@ == entry_values(table_rows(*regex))
            &&& size == table_len(*regex)
        },
{
    let rows = transition_rows(regex);
    if check_keys_fit(&rows) {
        Some((sparse_entries(&rows), table_size(regex)))
    } else {
        None
    }
}

} // verus!
