//! What holds of numbers, white space, words and lines.

use vstd::prelude::*;

use crate::text;

verus! {

// ---------------------------------------------------------------------------
// Numbers
// ---------------------------------------------------------------------------

proof fn lemma_decimal(n: nat)
    ensures
        text::decimal(n).len() > 0,
        text::all_digits(text::decimal(n)),
        text::digits_value(text::decimal(n)) == n,
        n > 0 ==> text::decimal(n)[0] != '0',
    decreases n,
{
    let ds = text::decimal(n);
    if n < 10 {
        assert(ds.drop_last() =~= Seq::<char>::empty());
        assert(text::digits_value(ds.drop_last()) == 0);
        assert(ds[0] as nat == 48 + n);
    } else {
        lemma_decimal(n / 10);
        let head = text::decimal(n / 10);
        assert(ds.drop_last() =~= head);
        assert(ds.last() as nat == 48 + n % 10);
        assert(ds[0] == head[0]);
        assert forall|i: int| 0 <= i < ds.len() implies text::is_digit(#[trigger] ds[i]) by {
            if i < head.len() {
                assert(ds[i] == head[i]);
            }
        }
    }
}

/// A number reads back from its decimal form, with or without a plus sign before
/// it, wherever it is within the limit; and it has no leading zeros.
pub proof fn law_decimals_read_back(n: nat, max: nat)
    ensures
        text::stated_number(text::decimal(n), max) == if n <= max {
            Some(n)
        } else {
            None
        },
        text::stated_number(seq!['+'] + text::decimal(n), max) == text::stated_number(
            text::decimal(n),
            max,
        ),
        n > 0 ==> text::decimal(n)[0] != '0',
        n < 10 ==> text::decimal(n).len() == 1,
{
    lemma_decimal(n);
    let ds = text::decimal(n);
    assert(text::is_digit(ds[0]));
    assert((seq!['+'] + ds).skip(1) =~= ds);
}

/// A signed number is its decimal form, after a minus sign where it is negative.
pub proof fn law_signed_decimals(n: int)
    requires
        n > 0,
    ensures
        text::signed_decimal(n) == text::decimal(n as nat),
        text::signed_decimal(-n) == seq!['-'] + text::signed_decimal(n),
        text::signed_decimal(0) == seq!['0'],
{
}

proof fn lemma_zeros_before(ds: Seq<char>)
    ensures
        text::digits_value(seq!['0'] + ds) == text::digits_value(ds),
    decreases ds.len(),
{
    let longer = seq!['0'] + ds;
    if ds.len() == 0 {
        assert(longer.drop_last() =~= Seq::<char>::empty());
        assert(text::digits_value(longer.drop_last()) == 0);
    } else {
        assert(longer.drop_last() =~= seq!['0'] + ds.drop_last());
        assert(longer.last() == ds.last());
        lemma_zeros_before(ds.drop_last());
    }
}

/// Only decimal digits state a number, after at most one plus sign; at least one
/// digit is needed, leading zeros change nothing, and what is stated keeps to the
/// limit.
pub proof fn law_only_digits_state_numbers(t: Seq<char>, max: nat)
    ensures
        text::stated_number(t, max) matches Some(n) ==> {
            &&& n <= max
            &&& t.len() > 0
            &&& t[0] != '+' || t.len() > 1
            &&& forall|i: int|
                0 <= i < t.len() ==> '0' <= #[trigger] t[i] <= '9' || (i == 0 && t[i] == '+')
        },
        t.len() > 0 && '0' <= t[0] <= '9' ==> text::stated_number(seq!['0'] + t, max)
            == text::stated_number(t, max),
{
    if text::stated_number(t, max) is Some {
        let ds = text::without_plus(t);
        assert forall|i: int| 0 <= i < t.len() implies '0' <= #[trigger] t[i] <= '9' || (i == 0
            && t[i] == '+') by {
            if t[0] == '+' {
                if i > 0 {
                    assert(text::is_digit(ds[i - 1]));
                }
            } else {
                assert(text::is_digit(ds[i]));
            }
        }
    }
    if t.len() > 0 && '0' <= t[0] <= '9' {
        lemma_zeros_before(t);
        let longer = seq!['0'] + t;
        if text::all_digits(t) {
            assert forall|i: int| 0 <= i < longer.len() implies text::is_digit(
                #[trigger] longer[i],
            ) by {
                if i > 0 {
                    assert(longer[i] == t[i - 1]);
                }
            }
        }
        if text::all_digits(longer) {
            assert forall|i: int| 0 <= i < t.len() implies text::is_digit(#[trigger] t[i]) by {
                assert(longer[i + 1] == t[i]);
            }
        }
    }
}

/// A longer number is ten times the number before its last digit, and that digit.
pub proof fn law_digits_count_by_tens(t: Seq<char>, d: int, max: nat)
    requires
        0 <= d < 10,
    ensures
        text::stated_number(t, max) matches Some(n) ==> 10 * n + d <= max ==> text::stated_number(
            t.push(text::decimal_digit(d)),
            max,
        ) == Some((10 * n + d) as nat),
        text::decimal(d as nat) == seq![text::decimal_digit(d)],
        text::decimal_digit(d) as int == '0' as int + d,
{
    let c = text::decimal_digit(d);
    let ds = text::without_plus(t);
    if text::stated_number(t, max) is Some {
        let longer = text::without_plus(t.push(c));
        assert(longer =~= ds.push(c));
        assert(longer.drop_last() =~= ds);
        assert forall|i: int| 0 <= i < longer.len() implies text::is_digit(
            #[trigger] longer[i],
        ) by {
            if i < ds.len() {
                assert(longer[i] == ds[i]);
            }
        }
    }
}

/// A byte is shown as two of the sixteen digits, the first of which counts
/// sixteen times; different bytes are shown differently.
pub proof fn law_hex_bytes(b: u8, c: u8)
    ensures
        text::hex_byte(b).len() == 2,
        text::hex_byte(b)[0] == "0123456789abcdef"@[b as int / 16],
        text::hex_byte(b)[1] == "0123456789abcdef"@[b as int % 16],
        text::hex_byte(b) == text::hex_byte(c) ==> b == c,
{
    reveal_strlit("0123456789abcdef");
    let x = text::hex_byte(b);
    let y = text::hex_byte(c);
    if x == y {
        assert(x[0] == y[0] && x[1] == y[1]);
    }
}

// ---------------------------------------------------------------------------
// White space
// ---------------------------------------------------------------------------

/// White space is what Unicode calls so: five control characters in a row, the
/// space, and nineteen more.
pub proof fn law_white_space(c: char)
    ensures
        text::is_white(c) == ({
            let n = c as int;
            n == 9 || n == 10 || n == 11 || n == 12 || n == 13 || n == 32 || n == 133 || n == 160
                || n == 5760 || 8192 <= n <= 8202 || n == 8232 || n == 8233 || n == 8239 || n
                == 8287 || n == 12288
        }),
{
}

/// Whether a text is white space only.
pub open spec fn blank(s: Seq<char>) -> bool {
    forall|i: int| 0 <= i < s.len() ==> text::is_white(#[trigger] s[i])
}

/// Whether a text has no white space at its ends.
pub open spec fn tight(s: Seq<char>) -> bool {
    s.len() == 0 || (!text::is_white(s[0]) && !text::is_white(s.last()))
}

proof fn lemma_trim_start(lead: Seq<char>, s: Seq<char>)
    requires
        blank(lead),
        s.len() == 0 || !text::is_white(s[0]),
    ensures
        text::trim_start(lead + s) == s,
    decreases lead.len(),
{
    if lead.len() == 0 {
        assert(lead + s =~= s);
    } else {
        assert((lead + s).skip(1) =~= lead.skip(1) + s);
        assert(text::is_white(lead[0]));
        assert forall|i: int| 0 <= i < lead.skip(1).len() implies text::is_white(
            #[trigger] lead.skip(1)[i],
        ) by {
            assert(lead.skip(1)[i] == lead[i + 1]);
        }
        lemma_trim_start(lead.skip(1), s);
    }
}

proof fn lemma_trim_end(s: Seq<char>, trail: Seq<char>)
    requires
        blank(trail),
        s.len() == 0 || !text::is_white(s.last()),
    ensures
        text::trim_end(s + trail) == s,
    decreases trail.len(),
{
    if trail.len() == 0 {
        assert(s + trail =~= s);
    } else {
        assert((s + trail).drop_last() =~= s + trail.drop_last());
        assert(text::is_white(trail[trail.len() - 1]));
        assert forall|i: int| 0 <= i < trail.drop_last().len() implies text::is_white(
            #[trigger] trail.drop_last()[i],
        ) by {
            assert(trail.drop_last()[i] == trail[i]);
        }
        lemma_trim_end(s, trail.drop_last());
    }
}

/// Trimming takes off the white space at the ends and nothing else.
pub proof fn law_trimming_takes_white_ends(lead: Seq<char>, s: Seq<char>, trail: Seq<char>)
    requires
        blank(lead),
        tight(s),
        blank(trail),
    ensures
        text::trim(lead + s + trail) == s,
        text::trim_end(lead + s + trail) == if s.len() == 0 {
            seq![]
        } else {
            lead + s
        },
{
    let all = lead + s + trail;
    if s.len() == 0 {
        let whole = lead + trail;
        assert forall|i: int| 0 <= i < whole.len() implies text::is_white(#[trigger] whole[i]) by {
            if i < lead.len() {
                assert(whole[i] == lead[i]);
            } else {
                assert(whole[i] == trail[i - lead.len()]);
            }
        }
        assert(all =~= whole + s);
        assert(all =~= s + whole);
        lemma_trim_start(whole, s);
        lemma_trim_end(s, whole);
        assert(text::trim_end(s) =~= s);
        assert(s =~= Seq::<char>::empty());
    } else {
        assert(all =~= lead + (s + trail));
        assert((s + trail)[0] == s[0]);
        lemma_trim_start(lead, s + trail);
        lemma_trim_end(s, trail);
        assert((lead + s).last() == s.last());
        lemma_trim_end(lead + s, trail);
    }
}

// ---------------------------------------------------------------------------
// Words and lines
// ---------------------------------------------------------------------------

/// Whether a text is one word: not empty, and without white space.
pub open spec fn is_word(w: Seq<char>) -> bool {
    w.len() > 0 && forall|i: int| 0 <= i < w.len() ==> !text::is_white(#[trigger] w[i])
}

proof fn lemma_word(cur: Seq<char>, w: Seq<char>, s: Seq<char>)
    requires
        forall|i: int| 0 <= i < w.len() ==> !text::is_white(#[trigger] w[i]),
    ensures
        text::words_after(cur, w + s) == text::words_after(cur + w, s),
    decreases w.len(),
{
    if w.len() == 0 {
        assert(w + s =~= s);
        assert(cur + w =~= cur);
    } else {
        let rest = w.skip(1);
        assert forall|i: int| 0 <= i < rest.len() implies !text::is_white(#[trigger] rest[i]) by {
            assert(rest[i] == w[i + 1]);
        }
        assert((w + s).skip(1) =~= rest + s);
        assert(!text::is_white(w[0]));
        lemma_word(cur.push(w[0]), rest, s);
        assert(cur.push(w[0]) + rest =~= cur + w);
    }
}

/// White space parts words: a word followed by white space comes first, and then
/// the words of the rest; white space at the front changes nothing; a word alone
/// is the only one, and an empty text has none.
pub proof fn law_white_space_parts_words(w: Seq<char>, c: char, s: Seq<char>)
    requires
        is_word(w),
        text::is_white(c),
    ensures
        text::words(w + seq![c] + s) == seq![w] + text::words(s),
        text::words(seq![c] + s) == text::words(s),
        text::words(w) == seq![w],
        text::words(seq![]) == Seq::<Seq<char>>::empty(),
{
    let tail = seq![c] + s;
    assert(w + seq![c] + s =~= w + tail);
    lemma_word(seq![], w, tail);
    lemma_word(seq![], w, seq![]);
    assert(w + Seq::<char>::empty() =~= w);
    assert(Seq::<char>::empty() + w =~= w);
    assert(tail.skip(1) =~= s);
    assert(text::unless_empty(seq![]) + text::words(s) =~= text::words(s));
}

/// Words with one space after each.
pub open spec fn spaced(ws: Seq<Seq<char>>) -> Seq<char>
    decreases ws.len(),
{
    if ws.len() == 0 {
        seq![]
    } else {
        ws[0] + seq![' '] + spaced(ws.skip(1))
    }
}

/// Words read back from a text in which spaces part them.
pub proof fn law_words_read_back(ws: Seq<Seq<char>>)
    requires
        forall|i: int| 0 <= i < ws.len() ==> is_word(#[trigger] ws[i]),
    ensures
        text::words(spaced(ws)) == ws,
    decreases ws.len(),
{
    if ws.len() == 0 {
        assert(text::words(spaced(ws)) =~= ws);
    } else {
        let later = ws.skip(1);
        assert forall|i: int| 0 <= i < later.len() implies is_word(#[trigger] later[i]) by {
            assert(later[i] == ws[i + 1]);
        }
        assert(is_word(ws[0]));
        law_words_read_back(later);
        law_white_space_parts_words(ws[0], ' ', spaced(later));
        assert(seq![ws[0]] + later =~= ws);
    }
}

proof fn lemma_line(cur: Seq<char>, l: Seq<char>, s: Seq<char>)
    requires
        forall|i: int| 0 <= i < l.len() ==> #[trigger] l[i] != '\n',
    ensures
        text::lines_after(cur, l + s) == text::lines_after(cur + l, s),
    decreases l.len(),
{
    if l.len() == 0 {
        assert(l + s =~= s);
        assert(cur + l =~= cur);
    } else {
        let rest = l.skip(1);
        assert forall|i: int| 0 <= i < rest.len() implies #[trigger] rest[i] != '\n' by {
            assert(rest[i] == l[i + 1]);
        }
        assert((l + s).skip(1) =~= rest + s);
        assert(l[0] != '\n');
        lemma_line(cur.push(l[0]), rest, s);
        assert(cur.push(l[0]) + rest =~= cur + l);
    }
}

/// Line feeds part lines: a text up to a line feed is the first line, empty or
/// not, and the lines of the rest follow; one carriage return before the line
/// feed goes with it. What no line feed ends is the last line as it is, unless
/// there is nothing left.
pub proof fn law_line_feeds_part_lines(l: Seq<char>, s: Seq<char>)
    requires
        forall|i: int| 0 <= i < l.len() ==> #[trigger] l[i] != '\n',
    ensures
        l.len() == 0 || l.last() != '\r' ==> text::lines(l + seq!['\n'] + s) == seq![l]
            + text::lines(s),
        text::lines(l + seq!['\r', '\n'] + s) == seq![l] + text::lines(s),
        l.len() > 0 ==> text::lines(l) == seq![l],
        text::lines(seq![]) == Seq::<Seq<char>>::empty(),
{
    let tail = seq!['\n'] + s;
    assert(l + seq!['\n'] + s =~= l + tail);
    assert(tail.skip(1) =~= s);
    lemma_line(seq![], l, tail);
    assert(Seq::<char>::empty() + l =~= l);
    let longer = l.push('\r');
    assert(l + seq!['\r', '\n'] + s =~= longer + tail);
    assert forall|i: int| 0 <= i < longer.len() implies #[trigger] longer[i] != '\n' by {
        if i < l.len() {
            assert(longer[i] == l[i]);
        }
    }
    lemma_line(seq![], longer, tail);
    assert(Seq::<char>::empty() + longer =~= longer);
    assert(longer.drop_last() =~= l);
    lemma_line(seq![], l, seq![]);
    assert(l + Seq::<char>::empty() =~= l);
}

/// A text occurs in another exactly where the other is made of something, the
/// text and something more.
pub proof fn law_occurrence(before: Seq<char>, needle: Seq<char>, after: Seq<char>, hay: Seq<char>)
    ensures
        text::contains(before + needle + after, needle),
        text::contains(hay, needle) ==> exists|a: Seq<char>, b: Seq<char>|
            #![trigger a + needle + b]
            hay == a + needle + b,
{
    let whole = before + needle + after;
    assert(whole.subrange(before.len() as int, (before.len() + needle.len()) as int) =~= needle);
    assert(text::stands_at(whole, needle, before.len() as int));
    if text::contains(hay, needle) {
        let i = choose|i: int| text::stands_at(hay, needle, i);
        let a = hay.take(i);
        let b = hay.skip(i + needle.len());
        assert(hay =~= a + needle + b);
    }
}

/// What follows the last occurrence of a character: everything after it; and the
/// whole text where it does not occur.
pub proof fn law_after_the_last(before: Seq<char>, c: char, rest: Seq<char>)
    requires
        !rest.contains(c),
    ensures
        text::after_last(before + seq![c] + rest, c) == rest,
        text::after_last(rest, c) == rest,
    decreases rest.len(),
{
    let whole = before + seq![c] + rest;
    if rest.len() == 0 {
        assert(whole.last() == c);
        assert(rest =~= Seq::<char>::empty());
    } else {
        let shorter = rest.drop_last();
        assert(!shorter.contains(c)) by {
            if shorter.contains(c) {
                let i = choose|i: int| 0 <= i < shorter.len() && shorter[i] == c;
                assert(rest[i] == c);
            }
        }
        assert(rest[rest.len() - 1] != c);
        law_after_the_last(before, c, shorter);
        assert(whole.drop_last() =~= before + seq![c] + shorter);
        assert(whole.last() == rest.last());
        assert(shorter.push(rest.last()) =~= rest);
    }
}

} // verus!
