//! Text as sequences of characters: decimal numbers, lines, joining, indentation,
//! replacement and trimming.

use vstd::prelude::*;

verus! {

/// `String::push` appends one character at the end of the string and leaves what was there.
pub assume_specification[ String::push ](s: &mut String, c: char)
    ensures
        final(s)@ == old(s)@.push(c),
;

/// The texts that a sequence of strings holds.
pub open spec fn texts(strings: Seq<String>) -> Seq<Seq<char>> {
    strings.map_values(|t: String| t@)
}

// ---------------------------------------------------------------------------------------
// Decimal numbers
// ---------------------------------------------------------------------------------------
/// The character of the digit `d`.
pub open spec fn digit(d: nat) -> char {
    (48 + d) as char
}

/// `n` in decimal, without leading zeros.
pub open spec fn decimal(n: nat) -> Seq<char>
    decreases n,
{
    if n < 10 {
        seq![digit(n)]
    } else {
        decimal(n / 10).push(digit(n % 10))
    }
}

/// The number that a sequence of decimal digits stands for.
pub open spec fn decimal_value(s: Seq<char>) -> int
    decreases s.len(),
{
    if s.len() == 0 {
        0
    } else {
        10 * decimal_value(s.drop_last()) + (s.last() as int - 48)
    }
}

/// Reading a written number gives the number back, so different numbers are written
/// differently.
pub proof fn decimal_can_be_read_back(n: nat)
    ensures
        decimal_value(decimal(n)) == n,
    decreases n,
{
    reveal_with_fuel(decimal_value, 2);
    if n >= 10 {
        decimal_can_be_read_back(n / 10);
        assert(decimal(n).drop_last() =~= decimal(n / 10));
    }
}

/// A written number is made of the digits 0 to 9, and starts with 0 only where it is nothing
/// but 0. A digit behind a number makes it ten times as large and adds itself.
pub proof fn decimal_is_written_with_digits(n: nat, number: Seq<char>, d: nat)
    requires
        d < 10,
    ensures
        decimal(n).len() > 0,
        forall|i: int| 0 <= i < decimal(n).len() ==> '0' <= #[trigger] decimal(n)[i] <= '9',
        decimal(n)[0] == '0' ==> n == 0 && decimal(n).len() == 1,
        decimal_value(Seq::empty()) == 0,
        decimal_value(number.push((48 + d) as char)) == 10 * decimal_value(number) + d,
    decreases n,
{
    assert(number.push((48 + d) as char).drop_last() =~= number);
    if n >= 10 {
        decimal_is_written_with_digits(n / 10, number, d);
        let before = decimal(n / 10);
        assert forall|i: int| 0 <= i < decimal(n).len() implies '0' <= #[trigger] decimal(n)[i]
            <= '9' by {
            if i < before.len() {
                assert(decimal(n)[i] == before[i]);
            }
        }
        assert(decimal(n)[0] == before[0]);
    }
}

/// Appends `n` in decimal to `out`.
pub fn push_decimal(out: &mut String, n: usize)
    ensures
        final(out)@ == old(out)@ + decimal(n as nat),
    decreases n,
{
    if n >= 10 {
        push_decimal(out, n / 10);
    }
    let d: u8 = (n % 10) as u8;
    out.push((48 + d) as char);
}

// ---------------------------------------------------------------------------------------
// White space
// ---------------------------------------------------------------------------------------
/// The characters with the Unicode property `White_Space`.
pub open spec fn white_space(c: char) -> bool {
    ||| '\u{9}' <= c <= '\u{d}'
    ||| c == ' '
    ||| c == '\u{85}'
    ||| c == '\u{a0}'
    ||| c == '\u{1680}'
    ||| '\u{2000}' <= c <= '\u{200a}'
    ||| c == '\u{2028}'
    ||| c == '\u{2029}'
    ||| c == '\u{202f}'
    ||| c == '\u{205f}'
    ||| c == '\u{3000}'
}

/// Whether `c` is a white space character.
pub fn is_white_space(c: char) -> (r: bool)
    ensures
        r == white_space(c),
{
    ('\u{9}' <= c && c <= '\u{d}') || c == ' ' || c == '\u{85}' || c == '\u{a0}' || c == '\u{1680}'
        || ('\u{2000}' <= c && c <= '\u{200a}') || c == '\u{2028}' || c == '\u{2029}' || c
        == '\u{202f}' || c == '\u{205f}' || c == '\u{3000}'
}

/// Nothing but white space.
pub open spec fn blank(s: Seq<char>) -> bool {
    forall|i: int| 0 <= i < s.len() ==> white_space(#[trigger] s[i])
}

/// `s` without the white space that it starts with.
pub open spec fn trimmed_start(s: Seq<char>) -> Seq<char>
    decreases s.len(),
{
    if s.len() > 0 && white_space(s.first()) {
        trimmed_start(s.drop_first())
    } else {
        s
    }
}

/// `s` without the white space that it ends with.
pub open spec fn trimmed_end(s: Seq<char>) -> Seq<char>
    decreases s.len(),
{
    if s.len() > 0 && white_space(s.last()) {
        trimmed_end(s.drop_last())
    } else {
        s
    }
}

/// `s` without the white space around it.
pub open spec fn trimmed(s: Seq<char>) -> Seq<char> {
    trimmed_end(trimmed_start(s))
}

/// What trimming leaves is a part of the text with only white space before and behind it,
/// and neither starts nor ends with white space.
pub proof fn trimming_strips_both_ends(s: Seq<char>)
    ensures
        trimmed(s).len() > 0 ==> !white_space(trimmed(s).first()) && !white_space(
            trimmed(s).last(),
        ),
        exists|before: Seq<char>, behind: Seq<char>|
            s == before + trimmed(s) + behind && #[trigger] blank(before) && #[trigger] blank(behind),
{
    let t = trimmed_start(s);
    lemma_trimmed_start(s);
    lemma_trimmed_end(t);
    let before = s.take(s.len() - t.len());
    let behind = t.skip(trimmed(s).len() as int);
    assert(s =~= before + trimmed(s) + behind);
    assert(blank(before) && blank(behind));
}

proof fn lemma_trimmed_start(s: Seq<char>)
    ensures
        trimmed_start(s).len() <= s.len(),
        trimmed_start(s) == s.skip(s.len() - trimmed_start(s).len()),
        blank(s.take(s.len() - trimmed_start(s).len())),
        trimmed_start(s).len() > 0 ==> !white_space(trimmed_start(s).first()),
    decreases s.len(),
{
    if s.len() > 0 && white_space(s.first()) {
        let rest = s.drop_first();
        lemma_trimmed_start(rest);
        let k = s.len() - trimmed_start(s).len();
        assert(s.skip(k) =~= rest.skip(k - 1));
        assert forall|i: int| 0 <= i < k implies white_space(#[trigger] s.take(k)[i]) by {
            if i > 0 {
                assert(s.take(k)[i] == rest.take(k - 1)[i - 1]);
            }
        }
    } else {
        assert(s.skip(0) =~= s);
    }
}

proof fn lemma_trimmed_end(s: Seq<char>)
    ensures
        trimmed_end(s).len() <= s.len(),
        trimmed_end(s) == s.take(trimmed_end(s).len() as int),
        blank(s.skip(trimmed_end(s).len() as int)),
        trimmed_end(s).len() > 0 ==> !white_space(trimmed_end(s).last()),
    decreases s.len(),
{
    if s.len() > 0 && white_space(s.last()) {
        let rest = s.drop_last();
        lemma_trimmed_end(rest);
        let k = trimmed_end(s).len() as int;
        assert(s.take(k) =~= rest.take(k));
        assert forall|i: int| 0 <= i < s.len() - k implies white_space(#[trigger] s.skip(k)[i]) by {
            if i < rest.len() - k {
                assert(s.skip(k)[i] == rest.skip(k)[i]);
            }
        }
    } else {
        assert(s.take(s.len() as int) =~= s);
    }
}

/// The characters of `s`.
fn characters(s: &str) -> (r: Vec<char>)
    ensures
        r@ == s@,
{
    let mut r: Vec<char> = Vec::new();
    for c in it: s.chars()
        invariant
            it.seq() == s@,
            r@ == s@.take(it.index()),
    {
        r.push(c);
    }
    r
}

/// `s` without the white space around it.
pub fn trim(s: &str) -> (r: String)
    ensures
        r@ == trimmed(s@),
{
    let chars = characters(s);
    let mut start: usize = 0;
    assert(s@.skip(0) =~= s@);
    while start < chars.len() && is_white_space(chars[start])
        invariant
            chars@ == s@,
            start <= chars.len(),
            trimmed_start(s@.skip(start as int)) == trimmed_start(s@),
        decreases chars.len() - start,
    {
        assert(s@.skip(start as int).drop_first() =~= s@.skip(start + 1));
        start = start + 1;
    }
    let ghost t = s@.skip(start as int);
    assert(t == trimmed_start(s@));
    let mut end: usize = chars.len();
    assert(s@.subrange(start as int, end as int) =~= t);
    while end > start && is_white_space(chars[end - 1])
        invariant
            chars@ == s@,
            start <= end <= chars.len(),
            trimmed_end(s@.subrange(start as int, end as int)) == trimmed_end(t),
        decreases end,
    {
        assert(s@.subrange(start as int, end as int).drop_last() =~= s@.subrange(
            start as int,
            end - 1,
        ));
        end = end - 1;
    }
    assert(s@.subrange(start as int, end as int) == trimmed(s@));
    let mut out = String::new();
    let mut i: usize = start;
    while i < end
        invariant
            chars@ == s@,
            start <= i <= end <= chars.len(),
            out@ == s@.subrange(start as int, i as int),
        decreases end - i,
    {
        out.push(chars[i]);
        i = i + 1;
    }
    out
}

// ---------------------------------------------------------------------------------------
// Replacement
// ---------------------------------------------------------------------------------------
/// Keeps every character but `from`, which gives way to `to`.
pub open spec fn substitution(from: char, to: Seq<char>) -> spec_fn(char) -> Seq<char> {
    |c: char|
        if c == from {
            to
        } else {
            seq![c]
        }
}

/// `s` with `to` in the place of every `from`.
pub open spec fn replaced(s: Seq<char>, from: char, to: Seq<char>) -> Seq<char> {
    s.flat_map(substitution(from, to))
}

/// `s` with `to` in the place of every `from`.
pub fn replace(s: &str, from: char, to: &str) -> (r: String)
    ensures
        r@ == replaced(s@, from, to@),
{
    let mut out = String::new();
    for c in it: s.chars()
        invariant
            it.seq() == s@,
            out@ == replaced(s@.take(it.index()), from, to@),
    {
        proof {
            s@.lemma_flat_map_take_append(substitution(from, to@), it.index());
        }
        if c == from {
            out.append(to);
        } else {
            out.push(c);
        }
    }
    assert(s@.take(s@.len() as int) =~= s@);
    out
}

/// `s` on one line: line feeds and carriage returns are written as escapes.
pub open spec fn on_one_line(s: Seq<char>) -> Seq<char> {
    replaced(replaced(s, '\n', "\\n"@), '\r', "\\r"@)
}

/// `s` on one line: line feeds and carriage returns are written as escapes.
pub fn escape_line_breaks(s: &str) -> (r: String)
    ensures
        r@ == on_one_line(s@),
{
    let without_feeds = replace(s, '\n', "\\n");
    replace(without_feeds.as_str(), '\r', "\\r")
}

/// Each character of a text after a replacement comes from the new text, or stood in the old
/// one and was not replaced.
pub proof fn replacement_leaves_no_replaced_character(s: Seq<char>, from: char, to: Seq<char>, i: int)
    requires
        0 <= i < replaced(s, from, to).len(),
    ensures
        to.contains(replaced(s, from, to)[i]) || (replaced(s, from, to)[i] != from && s.contains(
            replaced(s, from, to)[i],
        )),
    decreases s.len(),
{
    if s.len() > 0 {
        let rest = s.drop_last();
        let end = substitution(from, to)(s.last());
        assert(s =~= rest.push(s.last()));
        rest.lemma_flat_map_push(substitution(from, to), s.last());
        let before = replaced(rest, from, to);
        if i < before.len() {
            replacement_leaves_no_replaced_character(rest, from, to, i);
            if rest.contains(before[i]) {
                let k = choose|k: int| 0 <= k < rest.len() && rest[k] == before[i];
                assert(s[k] == before[i]);
            }
        } else if s.last() == from {
            assert(to[i - before.len()] == replaced(s, from, to)[i]);
        } else {
            assert(replaced(s, from, to)[i] == s[s.len() - 1]);
        }
    }
}

/// A text without `from` is not changed by replacing it.
pub proof fn replacement_keeps_other_text(s: Seq<char>, from: char, to: Seq<char>)
    requires
        !s.contains(from),
    ensures
        replaced(s, from, to) == s,
    decreases s.len(),
{
    if s.len() > 0 {
        let rest = s.drop_last();
        assert(s =~= rest.push(s.last()));
        rest.lemma_flat_map_push(substitution(from, to), s.last());
        if rest.contains(from) {
            let k = choose|k: int| 0 <= k < rest.len() && rest[k] == from;
            assert(s[k] == from);
        }
        assert(s[s.len() - 1] != from);
        replacement_keeps_other_text(rest, from, to);
    }
}

/// Escaped text stays on one line, whatever it was made from.
pub proof fn escaped_text_has_no_line_break(s: Seq<char>)
    ensures
        !on_one_line(s).contains('\n'),
        !on_one_line(s).contains('\r'),
{
    reveal_strlit("\\n");
    reveal_strlit("\\r");
    let first = replaced(s, '\n', "\\n"@);
    if first.contains('\n') {
        let i = choose|i: int| 0 <= i < first.len() && first[i] == '\n';
        replacement_leaves_no_replaced_character(s, '\n', "\\n"@, i);
    }
    let all = on_one_line(s);
    if all.contains('\n') {
        let i = choose|i: int| 0 <= i < all.len() && all[i] == '\n';
        replacement_leaves_no_replaced_character(first, '\r', "\\r"@, i);
    }
    if all.contains('\r') {
        let i = choose|i: int| 0 <= i < all.len() && all[i] == '\r';
        replacement_leaves_no_replaced_character(first, '\r', "\\r"@, i);
    }
}

/// A text that is on one line already stays as it is.
pub proof fn escaping_keeps_text_on_one_line(s: Seq<char>)
    requires
        !s.contains('\n'),
        !s.contains('\r'),
    ensures
        on_one_line(s) == s,
{
    replacement_keeps_other_text(s, '\n', "\\n"@);
    replacement_keeps_other_text(s, '\r', "\\r"@);
}

/// Replacing goes on piece by piece: of two texts in a row each is replaced on its own, and of a
/// single character it is known what becomes of it.
pub proof fn replacement_goes_piece_by_piece(
    s: Seq<char>,
    t: Seq<char>,
    c: char,
    from: char,
    to: Seq<char>,
)
    ensures
        replaced(s + t, from, to) == replaced(s, from, to) + replaced(t, from, to),
        replaced(Seq::empty(), from, to) == Seq::<char>::empty(),
        replaced(seq![from], from, to) == to,
        c != from ==> replaced(seq![c], from, to) == seq![c],
    decreases t.len(),
{
    let f = substitution(from, to);
    assert(Seq::<char>::empty().map_values(f) =~= Seq::empty());
    assert(replaced(Seq::empty(), from, to) =~= Seq::empty());
    seq![from].lemma_flat_map_singleton(f);
    seq![c].lemma_flat_map_singleton(f);
    if t.len() == 0 {
        assert(s + t =~= s);
        assert(t =~= Seq::empty());
        assert(replaced(s, from, to) + Seq::<char>::empty() =~= replaced(s, from, to));
    } else {
        let rest = t.drop_last();
        replacement_goes_piece_by_piece(s, rest, c, from, to);
        assert(s + t =~= (s + rest).push(t.last()));
        assert(t =~= rest.push(t.last()));
        (s + rest).lemma_flat_map_push(f, t.last());
        rest.lemma_flat_map_push(f, t.last());
        assert(replaced(s + t, from, to) =~= replaced(s, from, to) + replaced(t, from, to));
    }
}

/// Escaping goes on character by character: a line feed and a carriage return are written as a
/// backslash and a letter, and every other character as itself.
pub proof fn escaping_goes_character_by_character(s: Seq<char>, t: Seq<char>, c: char)
    ensures
        on_one_line(s + t) == on_one_line(s) + on_one_line(t),
        on_one_line(seq!['\n']) == seq!['\\', 'n'],
        on_one_line(seq!['\r']) == seq!['\\', 'r'],
        c != '\n' && c != '\r' ==> on_one_line(seq![c]) == seq![c],
{
    let n = "\\n"@;
    let r = "\\r"@;
    reveal_strlit("\\n");
    reveal_strlit("\\r");
    replacement_goes_piece_by_piece(s, t, c, '\n', n);
    replacement_goes_piece_by_piece(replaced(s, '\n', n), replaced(t, '\n', n), c, '\r', r);
    assert(n =~= seq!['\\', 'n']);
    assert(r =~= seq!['\\', 'r']);
    replacement_keeps_other_text(n, '\r', r);
    replacement_keeps_other_text(seq!['\r'], '\n', n);
}

// ---------------------------------------------------------------------------------------
// Joining
// ---------------------------------------------------------------------------------------
/// Puts `separator` in front of a part.
pub open spec fn separated(separator: Seq<char>) -> spec_fn(Seq<char>) -> Seq<char> {
    |part: Seq<char>| separator + part
}

/// The parts one after the other, with `separator` between any two of them.
pub open spec fn joined(parts: Seq<Seq<char>>, separator: Seq<char>) -> Seq<char> {
    if parts.len() == 0 {
        Seq::empty()
    } else {
        parts.first() + parts.drop_first().flat_map(separated(separator))
    }
}

/// A part at the end adds itself, and a separator where it is not the only part.
pub proof fn lemma_joined_push(parts: Seq<Seq<char>>, separator: Seq<char>, part: Seq<char>)
    ensures
        joined(parts.push(part), separator) == if parts.len() == 0 {
            part
        } else {
            joined(parts, separator) + separator + part
        },
{
    if parts.len() == 0 {
        assert(parts.push(part).drop_first() =~= Seq::empty());
        assert(joined(parts.push(part), separator) =~= part);
    } else {
        assert(parts.push(part).drop_first() =~= parts.drop_first().push(part));
        parts.drop_first().lemma_flat_map_push(separated(separator), part);
        assert(joined(parts.push(part), separator) =~= joined(parts, separator) + separator + part);
    }
}

/// Joining nothing gives nothing, and joining one part gives that part.
pub proof fn joining_at_most_one_part(part: Seq<char>, separator: Seq<char>)
    ensures
        joined(Seq::empty(), separator) == Seq::<char>::empty(),
        joined(seq![part], separator) == part,
{
    lemma_joined_push(Seq::empty(), separator, part);
}

/// The texts of strings are what they hold, one by one.
pub proof fn texts_are_what_the_strings_hold(strings: Seq<String>)
    ensures
        texts(strings).len() == strings.len(),
        forall|i: int| 0 <= i < strings.len() ==> #[trigger] texts(strings)[i] == strings[i]@,
{
}

/// The parts one after the other, with `separator` between any two of them.
pub fn join(parts: &Vec<String>, separator: &str) -> (r: String)
    ensures
        r@ == joined(texts(parts@), separator@),
{
    let mut out = String::new();
    let ghost all = texts(parts@);
    let mut i: usize = 0;
    while i < parts.len()
        invariant
            i <= parts.len(),
            all == texts(parts@),
            out@ == joined(all.take(i as int), separator@),
        decreases parts.len() - i,
    {
        proof {
            assert(all.take(i + 1) =~= all.take(i as int).push(all[i as int]));
            lemma_joined_push(all.take(i as int), separator@, all[i as int]);
        }
        if i > 0 {
            out.append(separator);
        }
        out.append(parts[i].as_str());
        i = i + 1;
    }
    assert(all.take(i as int) =~= all);
    out
}

// ---------------------------------------------------------------------------------------
// Lines
// ---------------------------------------------------------------------------------------
/// The lines of `s`: what stands between its line feeds. There is one line more than there
/// are line feeds.
pub open spec fn lines(s: Seq<char>) -> Seq<Seq<char>>
    decreases s.len(),
{
    if s.len() == 0 {
        seq![Seq::empty()]
    } else {
        let before = lines(s.drop_last());
        if s.last() == '\n' {
            before.push(Seq::empty())
        } else {
            before.drop_last().push(before.last().push(s.last()))
        }
    }
}

/// No line feed in any of the parts.
pub open spec fn single_lines(parts: Seq<Seq<char>>) -> bool {
    forall|i: int| 0 <= i < parts.len() ==> !(#[trigger] parts[i]).contains('\n')
}

/// Splitting a text at its line feeds loses nothing: the lines, joined by line feeds, are the
/// text again, and no line holds a line feed.
pub proof fn lines_join_to_the_text(s: Seq<char>)
    ensures
        lines(s).len() > 0,
        single_lines(lines(s)),
        joined(lines(s), seq!['\n']) == s,
    decreases s.len(),
{
    let feed = seq!['\n'];
    if s.len() == 0 {
        lemma_joined_push(Seq::empty(), feed, Seq::empty());
        assert(lines(s) =~= Seq::empty().push(Seq::empty()));
    } else {
        let rest = s.drop_last();
        let before = lines(rest);
        lines_join_to_the_text(rest);
        assert(s =~= rest.push(s.last()));
        if s.last() == '\n' {
            assert(lines(s) == before.push(Seq::empty()));
            lemma_joined_push(before, feed, Seq::empty());
            assert(joined(lines(s), feed) =~= s);
        } else {
            let front = before.drop_last();
            let longer = before.last().push(s.last());
            assert(before =~= front.push(before.last()));
            lemma_joined_push(front, feed, before.last());
            lemma_joined_push(front, feed, longer);
            assert(joined(lines(s), feed) =~= s);
            assert(!longer.contains('\n')) by {
                if longer.contains('\n') {
                    let k = choose|k: int| 0 <= k < longer.len() && longer[k] == '\n';
                    assert(before[before.len() - 1][k] == '\n');
                }
            }
        }
    }
}

/// Joining by line feeds and splitting again gives the parts back.
pub proof fn joined_lines_split_again(parts: Seq<Seq<char>>)
    requires
        parts.len() > 0,
        single_lines(parts),
    ensures
        lines(joined(parts, seq!['\n'])) == parts,
    decreases parts.len(), parts.last().len(),
{
    let feed = seq!['\n'];
    let front = parts.drop_last();
    let last = parts.last();
    let s = joined(parts, feed);
    assert(parts =~= front.push(last));
    lemma_joined_push(front, feed, last);
    if last.len() > 0 {
        let shorter = front.push(last.drop_last());
        lemma_joined_push(front, feed, last.drop_last());
        assert(s.drop_last() =~= joined(shorter, feed));
        assert(last == parts[parts.len() - 1]);
        assert(last[last.len() - 1] != '\n');
        assert(single_lines(shorter)) by {
            assert forall|i: int| 0 <= i < shorter.len() implies !(#[trigger] shorter[i]).contains(
                '\n',
            ) by {
                if i < front.len() {
                    assert(shorter[i] == parts[i]);
                } else if shorter[i].contains('\n') {
                    let k = choose|k: int| 0 <= k < shorter[i].len() && shorter[i][k] == '\n';
                    assert(last[k] == '\n');
                }
            }
        }
        joined_lines_split_again(shorter);
        assert(shorter.drop_last() =~= front);
        assert(last.drop_last().push(last.last()) =~= last);
        assert(lines(s) =~= parts);
    } else if front.len() > 0 {
        assert(last =~= Seq::empty());
        assert(single_lines(front)) by {
            assert forall|i: int| 0 <= i < front.len() implies !(#[trigger] front[i]).contains(
                '\n',
            ) by {
                assert(front[i] == parts[i]);
            }
        }
        joined_lines_split_again(front);
        assert(s.drop_last() =~= joined(front, feed));
        assert(lines(s) =~= parts);
    } else {
        assert(s =~= Seq::empty());
        assert(lines(s) =~= parts);
    }
}

/// The lines of `s`.
pub fn split_lines(s: &str) -> (r: Vec<String>)
    ensures
        texts(r@) == lines(s@),
{
    let mut done: Vec<String> = Vec::new();
    let mut line = String::new();
    assert(texts(done@).push(line@) =~= lines(s@.take(0)));
    for c in it: s.chars()
        invariant
            it.seq() == s@,
            texts(done@).push(line@) == lines(s@.take(it.index())),
    {
        let ghost before = texts(done@).push(line@);
        proof {
            assert(s@.take(it.index() + 1).drop_last() =~= s@.take(it.index()));
            assert(before.drop_last() =~= texts(done@));
        }
        if c == '\n' {
            let ghost old_done = done@;
            let ghost old_line = line@;
            done.push(line);
            line = String::new();
            assert(texts(done@) =~= texts(old_done).push(old_line));
        } else {
            line.push(c);
        }
    }
    assert(s@.take(s@.len() as int) =~= s@);
    let ghost before = done@;
    done.push(line);
    assert(texts(done@) =~= texts(before).push(line@));
    done
}

// ---------------------------------------------------------------------------------------
// Indentation
// ---------------------------------------------------------------------------------------
/// `n` spaces.
pub open spec fn spaces(n: nat) -> Seq<char> {
    Seq::new(n, |i: int| ' ')
}

/// A line with four spaces per level in front of it, unless the line is blank.
pub open spec fn indented_line(line: Seq<char>, level: nat) -> Seq<char> {
    if blank(line) {
        line
    } else {
        spaces(4 * level) + line
    }
}

/// Indents a line by `level` levels.
pub open spec fn indentation(level: nat) -> spec_fn(Seq<char>) -> Seq<char> {
    |line: Seq<char>| indented_line(line, level)
}

/// Every line of `s` indented by `level` levels.
pub open spec fn indented(s: Seq<char>, level: nat) -> Seq<char> {
    joined(lines(s).map_values(indentation(level)), seq!['\n'])
}

proof fn lemma_indented_lines_are_single(s: Seq<char>, level: nat)
    ensures
        single_lines(lines(s).map_values(indentation(level))),
{
    lines_join_to_the_text(s);
    let plain = lines(s);
    let shifted = plain.map_values(indentation(level));
    assert forall|i: int| 0 <= i < shifted.len() implies !(#[trigger] shifted[i]).contains('\n') by {
        assert(!plain[i].contains('\n'));
        if shifted[i].contains('\n') {
            let k = choose|k: int| 0 <= k < shifted[i].len() && shifted[i][k] == '\n';
            if blank(plain[i]) {
                assert(plain[i][k] == '\n');
            } else {
                assert(plain[i][k - 4 * level] == '\n');
            }
        }
    }
}

/// Indenting moves the lines and nothing else: the lines of the indented text are the lines
/// of the text, each of them indented, in the same order.
pub proof fn indenting_keeps_the_lines(s: Seq<char>, level: nat)
    ensures
        lines(indented(s, level)) == lines(s).map_values(indentation(level)),
{
    lines_join_to_the_text(s);
    lemma_indented_lines_are_single(s, level);
    joined_lines_split_again(lines(s).map_values(indentation(level)));
}

/// Indenting by no level changes nothing.
pub proof fn indenting_by_no_level_changes_nothing(s: Seq<char>)
    ensures
        indented(s, 0) == s,
{
    lines_join_to_the_text(s);
    let plain = lines(s);
    assert forall|i: int| 0 <= i < plain.len() implies #[trigger] plain.map_values(indentation(0))[i]
        == plain[i] by {
        assert(spaces(0) + plain[i] =~= plain[i]);
    }
    assert(plain.map_values(indentation(0)) =~= plain);
}

/// Indenting twice is indenting once by both numbers of levels.
pub proof fn indenting_twice_adds_the_levels(s: Seq<char>, first: nat, second: nat)
    ensures
        indented(indented(s, first), second) == indented(s, first + second),
{
    indenting_keeps_the_lines(s, first);
    let plain = lines(s);
    let once = plain.map_values(indentation(first));
    let twice = once.map_values(indentation(second));
    let both = plain.map_values(indentation(first + second));
    assert forall|i: int| 0 <= i < plain.len() implies #[trigger] twice[i] == both[i] by {
        if !blank(plain[i]) {
            let k = choose|k: int| 0 <= k < plain[i].len() && !white_space(#[trigger] plain[i][k]);
            assert(once[i][4 * first + k] == plain[i][k]);
            assert(twice[i] =~= both[i]);
        }
    }
    assert(twice =~= both);
}

/// Four spaces per level come in front of a line that holds a character which is not white
/// space, and nothing else is added or lost. A line of white space is not touched.
pub proof fn indenting_adds_four_spaces_per_level(s: Seq<char>, level: nat, i: int)
    requires
        0 <= i < lines(s).len(),
    ensures
        lines(indented(s, level)).len() == lines(s).len(),
        (forall|k: int| 0 <= k < lines(s)[i].len() ==> white_space(#[trigger] lines(s)[i][k])) ==> (
        lines(indented(s, level))[i] == lines(s)[i]),
        (exists|k: int| 0 <= k < lines(s)[i].len() && !white_space(#[trigger] lines(s)[i][k])) ==> {
            &&& lines(indented(s, level))[i].len() == 4 * level + lines(s)[i].len()
            &&& forall|k: int| 0 <= k < 4 * level ==> #[trigger] lines(indented(s, level))[i][k] == ' '
            &&& lines(indented(s, level))[i].skip((4 * level) as int) == lines(s)[i]
        },
{
    indenting_keeps_the_lines(s, level);
    let line = lines(s)[i];
    if exists|k: int| 0 <= k < line.len() && !white_space(#[trigger] line[k]) {
        assert(!blank(line));
        assert((spaces(4 * level) + line).skip((4 * level) as int) =~= line);
    }
}

/// Whether there is nothing but white space in `s`.
fn is_blank(s: &str) -> (r: bool)
    ensures
        r == blank(s@),
{
    let mut all = true;
    for c in it: s.chars()
        invariant
            it.seq() == s@,
            all == blank(s@.take(it.index())),
    {
        let ghost before = s@.take(it.index());
        let white = is_white_space(c);
        proof {
            let longer = s@.take(it.index() + 1);
            assert(longer[it.index()] == c);
            assert(blank(longer) ==> blank(before)) by {
                assert forall|i: int| blank(longer) && 0 <= i < before.len() implies white_space(
                    #[trigger] before[i],
                ) by {
                    assert(longer[i] == before[i]);
                }
            }
            assert forall|i: int|
                blank(before) && white && 0 <= i < longer.len() implies white_space(
                #[trigger] longer[i],
            ) by {
                if i < before.len() {
                    assert(longer[i] == before[i]);
                }
            }
        }
        all = all && white;
    }
    assert(s@.take(s@.len() as int) =~= s@);
    all
}

/// Indents each line of the text by a number of levels. A level adds four spaces in front of
/// the lines that are not blank. A string must be able to hold the spaces.
pub fn indent(s: &str, level: usize) -> (r: String)
    requires
        4 * level <= isize::MAX,
    ensures
        r@ == indented(s@, level as nat),
{
    let mut margin = String::new();
    let mut i: usize = 0;
    while i < level
        invariant
            i <= level,
            margin@ == spaces(4 * i as nat),
        decreases level - i,
    {
        proof {
            reveal_strlit("    ");
        }
        margin.append("    ");
        i = i + 1;
    }
    let parts = split_lines(s);
    let ghost all = lines(s@);
    let mut out: Vec<String> = Vec::new();
    let mut k: usize = 0;
    while k < parts.len()
        invariant
            k <= parts.len(),
            margin@ == spaces(4 * level as nat),
            texts(parts@) == all,
            texts(out@) == all.take(k as int).map_values(indentation(level as nat)),
        decreases parts.len() - k,
    {
        let ghost before = out@;
        let line = parts[k].as_str();
        assert(line@ == all[k as int]);
        let mut text = String::new();
        if !is_blank(line) {
            text.append(margin.as_str());
        }
        text.append(line);
        assert(text@ =~= indented_line(line@, level as nat));
        out.push(text);
        proof {
            assert(texts(out@) =~= texts(before).push(text@));
            all.lemma_map_take_succ(indentation(level as nat), k as int);
        }
        k = k + 1;
    }
    assert(all.take(k as int) =~= all);
    let r = join(&out, "\n");
    proof {
        reveal_strlit("\n");
        assert("\n"@ =~= seq!['\n']);
    }
    r
}

} // verus!
