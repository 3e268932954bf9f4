//! Reading the generated text: what can be told from it.

use vstd::prelude::*;

use crate::noir::{
    as_assignment, assignment, assignments, functions, program, step_condition, table_declaration,
};
use crate::structs::RegexAndDFA;
use crate::table::{entry_keys, entry_values, keys_fit, table_key, Row};
use crate::template::{EXTRACT_END, PLAIN_END, SPARSE_TABLE, TABLE_TYPE};
use crate::text::{
    blank, decimal, decimal_can_be_read_back, indented, indented_line, indenting_keeps_the_lines,
    joined, joined_lines_split_again, lemma_joined_push, lines, single_lines, spaces, trimmed, trimmed_end,
    trimmed_start, white_space,
};

verus! {

/// A decimal digit.
pub open spec fn is_digit(c: char) -> bool {
    '0' <= c <= '9'
}

/// Nothing but decimal digits.
pub open spec fn all_digits(s: Seq<char>) -> bool {
    forall|i: int| 0 <= i < s.len() ==> is_digit(#[trigger] s[i])
}

pub proof fn lemma_decimal_is_digits(n: nat)
    ensures
        all_digits(decimal(n)),
    decreases n,
{
    if n >= 10 {
        lemma_decimal_is_digits(n / 10);
        let before = decimal(n / 10);
        assert forall|i: int| 0 <= i < decimal(n).len() implies is_digit(#[trigger] decimal(n)[i]) by {
            if i < before.len() {
                assert(decimal(n)[i] == before[i]);
            }
        }
    }
}

/// A number ends where the digits end.
pub proof fn lemma_number_ends_with_its_digits(a: nat, p: Seq<char>, b: nat, q: Seq<char>)
    requires
        p.len() > 0,
        q.len() > 0,
        !is_digit(p[0]),
        !is_digit(q[0]),
        decimal(a) + p == decimal(b) + q,
    ensures
        a == b,
        p == q,
{
    let x = decimal(a);
    let y = decimal(b);
    let s = x + p;
    lemma_decimal_is_digits(a);
    lemma_decimal_is_digits(b);
    assert(s[x.len() as int] == p[0]);
    assert((y + q)[y.len() as int] == q[0]);
    if x.len() < y.len() {
        assert((y + q)[x.len() as int] == y[x.len() as int]);
    } else if y.len() < x.len() {
        assert(s[y.len() as int] == x[y.len() as int]);
    }
    assert(x =~= s.take(x.len() as int));
    assert(y =~= (y + q).take(y.len() as int));
    assert(p =~= s.skip(x.len() as int));
    assert(q =~= (y + q).skip(y.len() as int));
    decimal_can_be_read_back(a);
    decimal_can_be_read_back(b);
}

/// Texts that continue the same text differently are different.
pub proof fn lemma_same_start(start: Seq<char>, p: Seq<char>, q: Seq<char>)
    requires
        start + p == start + q,
    ensures
        p == q,
{
    assert(p =~= (start + p).skip(start.len() as int));
    assert(q =~= (start + q).skip(start.len() as int));
}

/// The parts of a statement, from the end.
proof fn lemma_assignment_parts(row: Row)
    ensures
        assignment(row) == "table["@ + (decimal(row.0 as nat) + (" * 256 + "@ + (decimal(
            row.1 as nat,
        ) + ("] = "@ + (decimal(row.2 as nat) + ";\n"@))))),
{
    assert(assignment(row) =~= "table["@ + (decimal(row.0 as nat) + (" * 256 + "@ + (decimal(
        row.1 as nat,
    ) + ("] = "@ + (decimal(row.2 as nat) + ";\n"@))))));
}

/// The literals of a statement do not start with digits.
proof fn lemma_literals_end_numbers(rest: Seq<char>)
    ensures
        (" * 256 + "@ + rest).len() > 0 && !is_digit((" * 256 + "@ + rest)[0]),
        ("] = "@ + rest).len() > 0 && !is_digit(("] = "@ + rest)[0]),
        ";\n"@.len() > 0 && !is_digit(";\n"@[0]),
{
    reveal_strlit(" * 256 + ");
    reveal_strlit("] = ");
    reveal_strlit(";\n");
}

/// The statement of a row tells the row: different rows are written by different statements.
pub proof fn statement_tells_the_row(a: Row, b: Row)
    requires
        assignment(a) == assignment(b),
    ensures
        a == b,
{
    lemma_assignment_parts(a);
    lemma_assignment_parts(b);
    let a2 = decimal(a.2 as nat) + ";\n"@;
    let a1 = decimal(a.1 as nat) + ("] = "@ + a2);
    let a0 = decimal(a.0 as nat) + (" * 256 + "@ + a1);
    let b2 = decimal(b.2 as nat) + ";\n"@;
    let b1 = decimal(b.1 as nat) + ("] = "@ + b2);
    let b0 = decimal(b.0 as nat) + (" * 256 + "@ + b1);
    lemma_literals_end_numbers(a1);
    lemma_literals_end_numbers(b1);
    lemma_literals_end_numbers(a2);
    lemma_literals_end_numbers(b2);
    lemma_same_start("table["@, a0, b0);
    lemma_number_ends_with_its_digits(
        a.0 as nat,
        " * 256 + "@ + a1,
        b.0 as nat,
        " * 256 + "@ + b1,
    );
    lemma_same_start(" * 256 + "@, a1, b1);
    lemma_number_ends_with_its_digits(a.1 as nat, "] = "@ + a2, b.1 as nat, "] = "@ + b2);
    lemma_same_start("] = "@, a2, b2);
    lemma_number_ends_with_its_digits(a.2 as nat, ";\n"@, b.2 as nat, ";\n"@);
}

/// The condition on a step tells the step: different steps have different conditions.
pub proof fn condition_tells_the_step(a: (usize, usize), b: (usize, usize))
    requires
        step_condition(a.0, a.1) == step_condition(b.0, b.1),
    ensures
        a == b,
{
    let mid = ") & (s_next == "@;
    let end = ")"@;
    let a1 = decimal(a.1 as nat) + end;
    let b1 = decimal(b.1 as nat) + end;
    let a0 = decimal(a.0 as nat) + (mid + a1);
    let b0 = decimal(b.0 as nat) + (mid + b1);
    assert(step_condition(a.0, a.1) =~= "(s == "@ + a0);
    assert(step_condition(b.0, b.1) =~= "(s == "@ + b0);
    lemma_same_start("(s == "@, a0, b0);
    assert(!is_digit(mid[0]) && !is_digit(end[0]) && mid.len() > 0 && end.len() > 0) by {
        reveal_strlit(") & (s_next == ");
        reveal_strlit(")");
    }
    lemma_number_ends_with_its_digits(a.0 as nat, mid + a1, b.0 as nat, mid + b1);
    lemma_same_start(mid, a1, b1);
    lemma_number_ends_with_its_digits(a.1 as nat, end, b.1 as nat, end);
}

/// The line of the statement that writes a row: the statement without its line feed.
pub open spec fn assignment_line() -> spec_fn(Row) -> Seq<char> {
    |row: Row| assignment(row).drop_last()
}

proof fn lemma_assignment_is_one_line(row: Row)
    ensures
        assignment(row).len() > 0,
        assignment(row).last() == '\n',
        !assignment(row).drop_last().contains('\n'),
{
    reveal_strlit("table[");
    reveal_strlit(" * 256 + ");
    reveal_strlit("] = ");
    reveal_strlit(";\n");
    lemma_decimal_is_digits(row.0 as nat);
    lemma_decimal_is_digits(row.1 as nat);
    lemma_decimal_is_digits(row.2 as nat);
    let line = assignment(row).drop_last();
    let n0 = decimal(row.0 as nat);
    let n1 = decimal(row.1 as nat);
    let n2 = decimal(row.2 as nat);
    assert forall|i: int| 0 <= i < line.len() implies line[i] != '\n' by {
        let j0 = i - 6;
        let j1 = j0 - n0.len() - 9;
        let j2 = j1 - n1.len() - 4;
        if 0 <= j0 < n0.len() {
            assert(line[i] == n0[j0]);
        } else if 0 <= j1 < n1.len() {
            assert(line[i] == n1[j1]);
        } else if 0 <= j2 < n2.len() {
            assert(line[i] == n2[j2]);
        }
    }
}

/// The table is filled by one statement per row, each on a line of its own, in the order of the
/// rows. The text ends with the line feed of the last of them.
pub proof fn statements_are_one_line_per_row(rows: Seq<Row>)
    ensures
        lines(assignments(rows)) == rows.map_values(assignment_line()).push(Seq::empty()),
{
    let all = rows.map_values(assignment_line()).push(Seq::empty());
    lemma_assignments_joined(rows);
    assert(single_lines(all)) by {
        assert forall|i: int| 0 <= i < all.len() implies !(#[trigger] all[i]).contains('\n') by {
            if i < rows.len() {
                lemma_assignment_is_one_line(rows[i]);
            }
        }
    }
    joined_lines_split_again(all);
}

/// The rows of the table are told alike by both kinds of tables: the statement on the line of a
/// row names the state, the byte and the next state, and the sparse entry at the same place
/// joins the state and the byte to the key of that next state.
pub proof fn statement_and_sparse_entry_agree(rows: Seq<Row>, i: int)
    requires
        keys_fit(rows),
        0 <= i < rows.len(),
    ensures
        lines(indented(assignments(rows), 1)).len() == rows.len() + 1,
        lines(indented(assignments(rows), 1))[i] + "\n"@ == "    table["@ + decimal(rows[i].0 as nat)
            + " * 256 + "@ + decimal(rows[i].1 as nat) + "] = "@ + decimal(rows[i].2 as nat)
            + ";\n"@,
        entry_keys(rows)[i] == rows[i].0 * 256 + rows[i].1,
        entry_values(rows)[i] == rows[i].2,
{
    let row = rows[i];
    let line = assignment(row).drop_last();
    statements_are_one_line_per_row(rows);
    indenting_keeps_the_lines(assignments(rows), 1);
    lemma_assignment_is_one_line(row);
    assert(table_key(rows[i]) <= usize::MAX);
    let found = lines(indented(assignments(rows), 1))[i];
    assert(found == indented_line(line, 1));
    lemma_assignment_parts(row);
    reveal_strlit("table[");
    reveal_strlit("    table[");
    reveal_strlit("\n");
    assert(line[0] == 't');
    assert(!blank(line));
    let parts = decimal(row.0 as nat) + (" * 256 + "@ + (decimal(row.1 as nat) + ("] = "@ + (decimal(
        row.2 as nat,
    ) + ";\n"@))));
    assert("    table["@ =~= spaces(4) + "table["@);
    assert(line + "\n"@ =~= assignment(row));
    assert(found + "\n"@ =~= spaces(4) + assignment(row));
    assert(spaces(4) + ("table["@ + parts) =~= "    table["@ + parts);
    assert("    table["@ + parts =~= "    table["@ + decimal(row.0 as nat) + " * 256 + "@ + decimal(
        row.1 as nat,
    ) + "] = "@ + decimal(row.2 as nat) + ";\n"@);
}

proof fn lemma_assignments_joined(rows: Seq<Row>)
    ensures
        assignments(rows) == joined(
            rows.map_values(assignment_line()).push(Seq::empty()),
            seq!['\n'],
        ),
    decreases rows.len(),
{
    let feed = seq!['\n'];
    let parts = rows.map_values(assignment_line());
    lemma_joined_push(parts, feed, Seq::empty());
    if rows.len() == 0 {
        assert(assignments(rows) =~= Seq::empty());
    } else {
        let rest = rows.drop_last();
        let row = rows.last();
        let before = rest.map_values(assignment_line());
        let line = assignment(row).drop_last();
        assert(rows =~= rest.push(row));
        assert(parts =~= before.push(line));
        rest.lemma_flat_map_push(as_assignment(), row);
        lemma_assignments_joined(rest);
        lemma_joined_push(before, feed, line);
        lemma_joined_push(before, feed, Seq::empty());
        lemma_assignment_is_one_line(row);
        assert(assignment(row) =~= line + feed);
        assert(assignments(rows) == assignments(rest) + assignment(row));
        if rest.len() == 0 {
            assert(before =~= Seq::empty());
            assert(joined(before.push(Seq::empty()), feed) =~= Seq::empty());
        }
        assert(joined(parts.push(Seq::empty()), feed) =~= assignments(rows));
    }
}

/// White space in front of a text that starts with none is trimmed off.
pub proof fn lemma_trim_start(before: Seq<char>, s: Seq<char>)
    requires
        blank(before),
        s.len() > 0,
        !white_space(s[0]),
    ensures
        trimmed_start(before + s) == s,
    decreases before.len(),
{
    if before.len() == 0 {
        assert(before + s =~= s);
    } else {
        assert(white_space(before[0]));
        let rest = before.drop_first();
        assert((before + s).drop_first() =~= rest + s);
        assert(blank(rest)) by {
            assert forall|i: int| 0 <= i < rest.len() implies white_space(#[trigger] rest[i]) by {
                assert(rest[i] == before[i + 1]);
            }
        }
        lemma_trim_start(rest, s);
    }
}

/// White space behind a text that ends with none is trimmed off.
pub proof fn lemma_trim_end(s: Seq<char>, behind: Seq<char>)
    requires
        blank(behind),
        s.len() > 0,
        !white_space(s.last()),
    ensures
        trimmed_end(s + behind) == s,
    decreases behind.len(),
{
    if behind.len() == 0 {
        assert(s + behind =~= s);
    } else {
        assert(white_space(behind[behind.len() - 1]));
        let rest = behind.drop_last();
        assert((s + behind).drop_last() =~= s + rest);
        assert(blank(rest)) by {
            assert forall|i: int| 0 <= i < rest.len() implies white_space(#[trigger] rest[i]) by {
                assert(rest[i] == behind[i]);
            }
        }
        lemma_trim_end(s, rest);
    }
}

/// Trimming finds the text between white space: what starts and ends with other characters is
/// found whatever white space stands around it, and nothing is found where there is only white
/// space.
pub proof fn trimming_finds_the_text_between_white_space(
    before: Seq<char>,
    s: Seq<char>,
    behind: Seq<char>,
)
    requires
        forall|i: int| 0 <= i < before.len() ==> white_space(#[trigger] before[i]),
        forall|i: int| 0 <= i < behind.len() ==> white_space(#[trigger] behind[i]),
        s.len() > 0,
        !white_space(s[0]),
        !white_space(s.last()),
    ensures
        trimmed(before + s + behind) == s,
        trimmed(before) == Seq::<char>::empty(),
    decreases before.len(),
{
    assert(before + s + behind =~= before + (s + behind));
    lemma_trim_start(before, s + behind);
    lemma_trim_end(s, behind);
    if before.len() > 0 {
        let rest = before.drop_first();
        assert(white_space(before[0]));
        assert(forall|i: int| 0 <= i < rest.len() ==> #[trigger] rest[i] == before[i + 1]);
        trimming_finds_the_text_between_white_space(rest, s, behind);
    }
}

proof fn lemma_table_declaration_starts(regex: RegexAndDFA, sparse: Option<Seq<char>>)
    ensures
        table_declaration(regex, sparse).len() >= 15,
        table_declaration(regex, sparse).take(15) == seq!['\n'] + "global table: "@,
        "global table: "@.len() == 14,
        "global table: "@[0] == 'g',
{
    reveal_strlit("global table: ");
    reveal_strlit("\nglobal table: ");
    reveal_strlit("\nglobal table: [Field; ");
    let start = seq!['\n'] + "global table: "@;
    assert(SPARSE_TABLE@ =~= start);
    assert(TABLE_TYPE@.take(15) =~= start);
    let table = table_declaration(regex, sparse);
    match sparse {
        Some(value) => {
            assert(table.take(15) =~= SPARSE_TABLE@);
        },
        None => {
            assert(table.take(15) =~= TABLE_TYPE@.take(15));
        },
    }
}

proof fn lemma_functions_end(regex: RegexAndDFA, gen_substrs: bool, sparse: bool)
    ensures
        functions(regex, gen_substrs, sparse).len() > 0,
        functions(regex, gen_substrs, sparse).last() == '}',
{
    reveal_strlit(")\n}");
    reveal_strlit(", f\"no match: {s}\");\n}");
    assert(EXTRACT_END@.len() == 3 && EXTRACT_END@[2] == '}');
    assert(PLAIN_END@.len() == 22 && PLAIN_END@[21] == '}');
}

/// The program is the declaration of the table and the functions behind it, without the line
/// feed at the start: nothing else is trimmed off. It starts with the declaration of a global
/// table and ends with a closing brace.
pub proof fn program_is_the_table_and_the_functions(
    regex: RegexAndDFA,
    gen_substrs: bool,
    sparse: Option<Seq<char>>,
)
    ensures
        program(regex, gen_substrs, sparse) == (table_declaration(regex, sparse) + functions(
            regex,
            gen_substrs,
            sparse is Some,
        )).skip(1),
        program(regex, gen_substrs, sparse).take(14) == "global table: "@,
        program(regex, gen_substrs, sparse).last() == '}',
{
    let table = table_declaration(regex, sparse);
    let rest = functions(regex, gen_substrs, sparse is Some);
    let text = (table + rest).skip(1);
    lemma_table_declaration_starts(regex, sparse);
    lemma_functions_end(regex, gen_substrs, sparse is Some);
    let before = "\n        "@ + "\n"@ + seq!['\n'];
    let behind = "\n    "@;
    assert(blank(before) && blank(behind)) by {
        reveal_strlit("\n        ");
        reveal_strlit("\n");
        reveal_strlit("\n    ");
    }
    assert(table[0] == table.take(15)[0]);
    assert(table[1] == table.take(15)[1]);
    assert(table + rest =~= seq!['\n'] + text);
    assert("\n        "@ + "\n"@ + table + rest + behind =~= before + (text + behind));
    assert((text + behind)[0] == table[1]);
    assert(text.last() == rest.last());
    lemma_trim_start(before, text + behind);
    lemma_trim_end(text, behind);
    assert(text.take(14) =~= table.take(15).skip(1));
    assert(table.take(15).skip(1) =~= "global table: "@);
}

} // verus!
