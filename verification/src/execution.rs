//! Carrying out the declaration of the table: the statements in its text give the table.

use vstd::prelude::*;

use crate::accesses::{lemma_calm_add, lemma_decimal_is_calm, lemma_lines_are_plain};
use crate::conditions::{lemma_lines_append, lemma_lines_with_a_feed_between, lemma_single_line};
use crate::fixed_text::{calm, declarations_are_calm, plain};
use crate::lookup::{deterministic, lookup_table, written};
use crate::noir::{assignment, assignments, dense_table, table_declaration};
use crate::reading::{
    assignment_line, is_digit, lemma_number_ends_with_its_digits, lemma_same_start, lemma_trim_end,
    lemma_trim_start, statements_are_one_line_per_row,
};
use crate::states::{highest_at, only_accepting, table_is_told_by_the_states};
use crate::structs::RegexAndDFA;
use crate::table::{has_room_for_extra, table_len, table_rows, Row};
use crate::template::{TABLE_ASSIGNMENTS, TABLE_CONSTRUCTOR, TABLE_END, TABLE_TYPE, TABLE_ZEROS};
use crate::text::{
    blank, decimal, indented, indented_line, indenting_keeps_the_lines, lines, spaces, trimmed,
    trimming_strips_both_ends,
};

verus! {

/// The line is the statement that stores `value` in the entry of the byte `byte` in the block
/// `block` of the table.
pub open spec fn stores(line: Seq<char>, block: nat, byte: nat, value: nat) -> bool {
    trimmed(line) == "table["@ + decimal(block) + " * 256 + "@ + decimal(byte) + "] = "@ + decimal(value)
        + ";"@
}

/// The line is a statement that stores something in the table.
pub open spec fn is_statement(line: Seq<char>) -> bool {
    exists|block: nat, byte: nat, value: nat| stores(line, block, byte, value)
}

/// What a statement stores: the block, the byte and the value.
pub open spec fn statement_of(line: Seq<char>) -> (nat, nat, nat) {
    choose|s: (nat, nat, nat)| stores(line, s.0, s.1, s.2)
}

/// What the statements among some lines store, in their order.
pub open spec fn statements_among(all: Seq<Seq<char>>) -> Seq<(nat, nat, nat)>
    decreases all.len(),
{
    if all.len() == 0 {
        Seq::empty()
    } else {
        let before = statements_among(all.drop_last());
        if is_statement(all.last()) {
            before.push(statement_of(all.last()))
        } else {
            before
        }
    }
}

/// A table after statements were carried out on it, one after the other. One that stores behind
/// its end changes nothing.
pub open spec fn carried_out(statements: Seq<(nat, nat, nat)>, table: Seq<nat>) -> Seq<nat>
    decreases statements.len(),
{
    if statements.len() == 0 {
        table
    } else {
        let before = carried_out(statements.drop_last(), table);
        let (block, byte, value) = statements.last();
        if block * 256 + byte < table.len() {
            before.update((block * 256 + byte) as int, value)
        } else {
            before
        }
    }
}

/// The table that the text of a declaration makes: its statements, carried out on `len` zeros.
pub open spec fn declared(text: Seq<char>, len: nat) -> Seq<nat> {
    carried_out(statements_among(lines(text)), Seq::new(len, |i: int| 0nat))
}

/// A row as a statement.
pub open spec fn as_statement() -> spec_fn(Row) -> (nat, nat, nat) {
    |row: Row| (row.0 as nat, row.1 as nat, row.2 as nat)
}

/// The parts of a statement, from the end.
proof fn lemma_statement_parts(line: Seq<char>, a: (nat, nat, nat))
    requires
        stores(line, a.0, a.1, a.2),
    ensures
        trimmed(line) == "table["@ + (decimal(a.0) + (" * 256 + "@ + (decimal(a.1) + ("] = "@ + (decimal(
            a.2,
        ) + ";"@))))),
{
    assert(trimmed(line) =~= "table["@ + (decimal(a.0) + (" * 256 + "@ + (decimal(a.1) + ("] = "@ + (
    decimal(a.2) + ";"@))))));
}

/// A statement tells what it stores.
proof fn lemma_statement_tells(
    line: Seq<char>,
    a: (nat, nat, nat),
    b: (nat, nat, nat),
)
    requires
        stores(line, a.0, a.1, a.2),
        stores(line, b.0, b.1, b.2),
    ensures
        a == b,
{
    let a2 = decimal(a.2) + ";"@;
    let a1 = decimal(a.1) + ("] = "@ + a2);
    let a0 = decimal(a.0) + (" * 256 + "@ + a1);
    let b2 = decimal(b.2) + ";"@;
    let b1 = decimal(b.1) + ("] = "@ + b2);
    let b0 = decimal(b.0) + (" * 256 + "@ + b1);
    lemma_statement_parts(line, a);
    lemma_statement_parts(line, b);
    lemma_same_start("table["@, a0, b0);
    lemma_literals(a1);
    lemma_literals(a2);
    lemma_literals(b1);
    lemma_literals(b2);
    lemma_number_ends_with_its_digits(a.0, " * 256 + "@ + a1, b.0, " * 256 + "@ + b1);
    lemma_same_start(" * 256 + "@, a1, b1);
    lemma_number_ends_with_its_digits(a.1, "] = "@ + a2, b.1, "] = "@ + b2);
    lemma_same_start("] = "@, a2, b2);
    lemma_number_ends_with_its_digits(a.2, ";"@, b.2, ";"@);
}

proof fn lemma_literals(rest: Seq<char>)
    ensures
        (" * 256 + "@ + rest).len() > 0 && !is_digit((" * 256 + "@ + rest)[0]),
        ("] = "@ + rest).len() > 0 && !is_digit(("] = "@ + rest)[0]),
        ";"@.len() > 0 && !is_digit(";"@[0]),
{
    reveal_strlit(" * 256 + ");
    reveal_strlit("] = ");
    reveal_strlit(";");
}

/// A line in which no bracket stands behind an `e` is no statement.
proof fn lemma_plain_line_is_no_statement(line: Seq<char>)
    requires
        plain(line),
    ensures
        !is_statement(line),
{
    if is_statement(line) {
        let (block, byte, value) = choose|block: nat, byte: nat, value: nat|
            stores(line, block, byte, value);
        trimming_strips_both_ends(line);
        let text = trimmed(line);
        reveal_strlit("table[");
        assert(text[4] == 'e' && text[5] == '[');
        let (before, behind) = choose|before: Seq<char>, behind: Seq<char>|
            line == before + text + behind && blank(before) && blank(behind);
        assert(line[before.len() as int + 5] == text[5]);
        assert(line[before.len() as int + 4] == text[4]);
    }
}

proof fn lemma_no_statements(all: Seq<Seq<char>>)
    requires
        forall|i: int| 0 <= i < all.len() ==> plain(#[trigger] all[i]),
    ensures
        statements_among(all) == Seq::<(nat, nat, nat)>::empty(),
    decreases all.len(),
{
    if all.len() > 0 {
        let rest = all.drop_last();
        assert(plain(all[all.len() - 1]));
        assert(forall|i: int| 0 <= i < rest.len() ==> #[trigger] rest[i] == all[i]);
        lemma_plain_line_is_no_statement(all.last());
        lemma_no_statements(rest);
    }
}

proof fn lemma_statements_append(a: Seq<Seq<char>>, b: Seq<Seq<char>>)
    ensures
        statements_among(a + b) == statements_among(a) + statements_among(b),
    decreases b.len(),
{
    if b.len() == 0 {
        assert(a + b =~= a);
        assert(statements_among(a) + Seq::<(nat, nat, nat)>::empty() =~= statements_among(a));
    } else {
        assert((a + b).drop_last() =~= a + b.drop_last());
        lemma_statements_append(a, b.drop_last());
        assert(statements_among(a + b) =~= statements_among(a) + statements_among(b));
    }
}

proof fn lemma_one_statement_each(all: Seq<Seq<char>>, rows: Seq<Row>)
    requires
        all.len() == rows.len(),
        forall|i: int|
            0 <= i < all.len() ==> stores(
                #[trigger] all[i],
                rows[i].0 as nat,
                rows[i].1 as nat,
                rows[i].2 as nat,
            ),
    ensures
        statements_among(all) == rows.map_values(as_statement()),
    decreases all.len(),
{
    if all.len() == 0 {
        assert(rows.map_values(as_statement()) =~= Seq::empty());
    } else {
        let n = all.len() - 1;
        let rest = all.drop_last();
        assert(forall|i: int| 0 <= i < rest.len() ==> #[trigger] rest[i] == all[i]);
        lemma_one_statement_each(rest, rows.drop_last());
        let line = all[n];
        let row = (rows[n].0 as nat, rows[n].1 as nat, rows[n].2 as nat);
        assert(stores(line, row.0, row.1, row.2));
        lemma_statement_tells(line, statement_of(line), row);
        assert(statements_among(all) =~= rows.map_values(as_statement()));
    }
}

proof fn lemma_statement_line(row: Row, margin: nat)
    ensures
        stores(
            spaces(margin) + assignment(row).drop_last(),
            row.0 as nat,
            row.1 as nat,
            row.2 as nat,
        ),
        !blank(assignment(row).drop_last()),
{
    let line = assignment(row).drop_last();
    let text = "table["@ + decimal(row.0 as nat) + " * 256 + "@ + decimal(row.1 as nat) + "] = "@ + decimal(
        row.2 as nat,
    ) + ";"@;
    reveal_strlit(";");
    reveal_strlit(";\n");
    reveal_strlit("table[");
    assert(line =~= text);
    assert(line[0] == 't');
    assert(line.last() == ';');
    assert(blank(spaces(margin)));
    lemma_trim_start(spaces(margin), line);
    lemma_trim_end(line, Seq::empty());
    assert(line + Seq::<char>::empty() =~= line);
}

/// The lines of the statements in a declaration: behind the four spaces in front of them, and
/// indented.
proof fn lemma_lines_of_the_statements(rows: Seq<Row>)
    ensures
        statements_among(lines(spaces(4) + indented(assignments(rows), 1))) == rows.map_values(
            as_statement(),
        ),
{
    let body = indented(assignments(rows), 1);
    let all = lines(spaces(4) + body);
    statements_are_one_line_per_row(rows);
    indenting_keeps_the_lines(assignments(rows), 1);
    lemma_single_line(spaces(4));
    lemma_lines_append(spaces(4), body);
    let plain_lines = rows.map_values(assignment_line()).push(Seq::empty());
    let n = rows.len() as int;
    assert(all.len() == n + 1);
    let front = all.take(n);
    let end = seq![all[n]];
    assert(all =~= front + end);
    assert forall|i: int| 0 <= i < n implies stores(
        #[trigger] front[i],
        rows[i].0 as nat,
        rows[i].1 as nat,
        rows[i].2 as nat,
    ) by {
        let line = assignment(rows[i]).drop_last();
        assert(plain_lines[i] == line);
        lemma_statement_line(rows[i], 4);
        lemma_statement_line(rows[i], 8);
        assert(lines(body)[i] == indented_line(line, 1));
        if i == 0 {
            assert(front[i] == spaces(4) + (spaces(4) + line));
            assert(front[i] =~= spaces(8) + line);
        } else {
            assert(front[i] == spaces(4) + line);
        }
    }
    lemma_one_statement_each(front, rows);
    assert(plain_lines[n] == Seq::<char>::empty());
    assert(lines(body)[n] == indented_line(Seq::empty(), 1));
    assert(blank(Seq::empty()));
    assert(plain(end[0]));
    lemma_no_statements(end);
    lemma_statements_append(front, end);
    assert(rows.map_values(as_statement()) + Seq::<(nat, nat, nat)>::empty() =~= rows.map_values(
        as_statement(),
    ));
}

/// The declaration of a table, read back: the statements among its lines are one for each row,
/// all rows in their order, and no other line stores anything.
pub proof fn declaration_holds_one_statement_per_row(rows: Seq<Row>, len: nat)
    ensures
        statements_among(lines(dense_table(rows, len))).len() == rows.len(),
        forall|i: int|
            0 <= i < rows.len() ==> #[trigger] statements_among(lines(dense_table(rows, len)))[i] == (
                rows[i].0 as nat,
                rows[i].1 as nat,
                rows[i].2 as nat,
            ),
{
    lemma_declaration_statements(rows, len);
}

proof fn lemma_declaration_statements(rows: Seq<Row>, len: nat)
    ensures
        statements_among(lines(dense_table(rows, len))) == rows.map_values(as_statement()),
{
    let feed = seq!['\n'];
    let n = decimal(len);
    let bracket = seq![']', ';'];
    let start = TABLE_TYPE@ + n + TABLE_CONSTRUCTOR@ + n + TABLE_ZEROS@ + n;
    let head = start + bracket;
    let middle = spaces(4) + indented(assignments(rows), 1);
    let end = TABLE_END@.skip(1);
    assert(TABLE_ASSIGNMENTS@ =~= bracket + feed + spaces(4)) by {
        reveal_strlit("];\n    ");
    }
    assert(TABLE_END@ =~= feed + end) by {
        reveal_strlit(r#"
    table
}

        "#);
    }
    assert(dense_table(rows, len) =~= head + feed + middle + feed + end);
    lemma_lines_with_a_feed_between(head, middle);
    lemma_lines_with_a_feed_between(head + feed + middle, end);
    declarations_are_calm();
    lemma_decimal_is_calm(len);
    assert(calm(bracket)) by {
        reveal(calm);
    }
    lemma_calm_add(TABLE_TYPE@, n);
    lemma_calm_add(TABLE_TYPE@ + n, TABLE_CONSTRUCTOR@);
    lemma_calm_add(TABLE_TYPE@ + n + TABLE_CONSTRUCTOR@, n);
    lemma_calm_add(TABLE_TYPE@ + n + TABLE_CONSTRUCTOR@ + n, TABLE_ZEROS@);
    lemma_calm_add(TABLE_TYPE@ + n + TABLE_CONSTRUCTOR@ + n + TABLE_ZEROS@, n);
    lemma_calm_add(start, bracket);
    assert(plain(head) && plain(end)) by {
        reveal(calm);
        assert forall|i: int| 1 <= i < end.len() && #[trigger] end[i] == '[' implies end[i - 1]
            != 'e' by {
            assert(TABLE_END@[i + 1] == end[i]);
        }
    }
    lemma_lines_are_plain(head);
    lemma_lines_are_plain(end);
    lemma_no_statements(lines(head));
    lemma_no_statements(lines(end));
    lemma_lines_of_the_statements(rows);
    lemma_statements_append(lines(head), lines(middle));
    lemma_statements_append(lines(head) + lines(middle), lines(end));
    assert(statements_among(lines(dense_table(rows, len))) =~= rows.map_values(as_statement()));
}

/// Carrying out the statements of rows on zeros gives the table that the rows are written to.
proof fn lemma_carried_out(rows: Seq<Row>, len: nat)
    ensures
        carried_out(rows.map_values(as_statement()), Seq::new(len, |i: int| 0nat)) == written(rows, len),
    decreases rows.len(),
{
    if rows.len() > 0 {
        let rest = rows.drop_last();
        lemma_carried_out(rest, len);
        assert(rows.map_values(as_statement()).drop_last() =~= rest.map_values(as_statement()));
    }
}

/// Carrying out the statements in the declaration of the table, on zeros, gives the transition
/// table.
pub proof fn declaration_makes_the_lookup_table(regex: RegexAndDFA)
    ensures
        declared(table_declaration(regex, None), table_len(regex)) == lookup_table(regex),
{
    lemma_declaration_statements(table_rows(regex), table_len(regex));
    lemma_carried_out(table_rows(regex), table_len(regex));
}

/// The text of the declaration makes a table of the automaton: carrying out its statements, on
/// zeros, stores the state that the automaton goes to in the entry of a state and a byte. Where
/// the automaton goes nowhere the entry stays zero, but for two states where the expression does
/// not end in an anchor: from the state of the type `accept` and from the extra state, which
/// comes behind the highest, every byte but 255 leads to the extra state.
pub proof fn declaration_makes_a_table_of_the_automaton(
    regex: RegexAndDFA,
    a: int,
    h: int,
    from: usize,
    byte: u8,
)
    requires
        only_accepting(regex.dfa.states@, a),
        highest_at(regex.dfa.states@, h),
        has_room_for_extra(regex),
        deterministic(regex.dfa.states@),
        from < regex.dfa.states@.len() + if regex.has_end_anchor { 0int } else { 1 },
    ensures
        ({
            let states = regex.dfa.states@;
            let len = (256 * (states.len() + if regex.has_end_anchor { 0int } else { 1 })) as nat;
            let entry = declared(table_declaration(regex, None), len)[256 * from + byte];
            &&& forall|i: int, to: usize|
                0 <= i < states.len() && states[i].state_id == from
                    && #[trigger] states[i].transitions@.contains_key(to)
                    && states[i].transitions@[to]@.contains(byte) ==> entry == to
            &&& (forall|i: int, to: usize|
                0 <= i < states.len() && states[i].state_id == from
                    && #[trigger] states[i].transitions@.contains_key(to)
                    ==> !states[i].transitions@[to]@.contains(byte)) ==> entry == if !regex.has_end_anchor
                && byte != 255 && (from == states[a].state_id || from == states[h].state_id + 1) {
                states[h].state_id + 1
            } else {
                0
            }
        }),
{
    declaration_makes_the_lookup_table(regex);
    table_is_told_by_the_states(regex, a, h, from, byte);
}

} // verus!
