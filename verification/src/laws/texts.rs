//! Numbers as text, and texts with parts replaced.

use vstd::prelude::*;

use crate::text;

verus! {

/// What a digit counts, where it is one.
pub open spec fn digit_value(c: char) -> int {
    if '0' <= c <= '9' {
        c as int - '0' as int
    } else if 'a' <= c <= 'f' {
        c as int - 'a' as int + 10
    } else {
        -1
    }
}

/// The number that digits stand for, the last one being the lowest.
pub open spec fn number(digits: Seq<char>, base: int) -> int
    decreases digits.len(),
{
    if digits.len() == 0 {
        0
    } else {
        number(digits.drop_last(), base) * base + digit_value(digits.last())
    }
}

proof fn lemma_radix(value: int, base: int)
    requires
        0 <= value,
        1 < base <= 16,
    ensures
        number(text::radix(value, base), base) == value,
        text::radix(value, base).len() > 0,
        value > 0 ==> text::radix(value, base)[0] != '0',
        forall|i: int|
            0 <= i < text::radix(value, base).len() ==> 0 <= digit_value(
                #[trigger] text::radix(value, base)[i],
            ) < base,
    decreases value,
{
    let digits = text::radix(value, base);
    if value < base {
        assert(digits.drop_last() =~= seq![]);
        assert(number(seq![], base) == 0);
        assert(0 * base == 0);
    } else {
        text::lemma_quotient_is_smaller(value, base);
        lemma_radix(value / base, base);
        vstd::arithmetic::div_mod::lemma_fundamental_div_mod(value, base);
        vstd::arithmetic::div_mod::lemma_mod_bound(value, base);
        assert(digits.drop_last() =~= text::radix(value / base, base));
        assert((value / base) * base == base * (value / base)) by (nonlinear_arith);
        assert(value / base > 0) by {
            if value / base == 0 {
                assert(base * 0 == 0);
            }
        }
        assert forall|i: int| 0 <= i < digits.len() implies 0 <= digit_value(#[trigger] digits[i])
            < base by {
            if i < digits.len() - 1 {
                assert(digits[i] == text::radix(value / base, base)[i]);
            }
        }
    }
}

/// A number reads back from its decimal digits, which have no leading zero.
pub proof fn decimal_reads_back(value: int)
    requires
        0 <= value,
    ensures
        number(text::decimal(value), 10) == value,
        text::decimal(value).len() > 0,
        value > 0 ==> text::decimal(value)[0] != '0',
        forall|i: int|
            0 <= i < text::decimal(value).len() ==> '0' <= #[trigger] text::decimal(value)[i] <= '9',
{
    lemma_radix(value, 10);
    assert forall|i: int| 0 <= i < text::decimal(value).len() implies '0' <= #[trigger] text::decimal(
        value,
    )[i] <= '9' by {
        assert(0 <= digit_value(text::radix(value, 10)[i]) < 10);
    }
}

/// A number reads back from its hexadecimal digits, which have no leading zero.
pub proof fn hex_reads_back(value: int)
    requires
        0 <= value,
    ensures
        number(text::hex(value), 16) == value,
        text::hex(value).len() > 0,
        value > 0 ==> text::hex(value)[0] != '0',
{
    lemma_radix(value, 16);
}

/// A negative number is written as a minus and its magnitude.
pub proof fn signed_reads_back(value: int)
    ensures
        value >= 0 ==> number(text::signed(value), 10) == value,
        value < 0 ==> text::signed(value).len() > 1 && text::signed(value)[0] == '-' && number(
            text::signed(value).skip(1),
            10,
        ) == -value,
{
    reveal_strlit("-");
    if value < 0 {
        decimal_reads_back(-value);
        assert(text::signed(value).skip(1) =~= text::decimal(-value));
    } else {
        decimal_reads_back(value);
    }
}

/// Whether a pattern stands nowhere in a text from `at` on.
pub open spec fn stands_nowhere(text: Seq<char>, pattern: Seq<char>, at: int) -> bool {
    forall|i: int| at <= i <= text.len() - pattern.len() ==> #[trigger] text.subrange(
        i,
        i + pattern.len(),
    ) != pattern
}

proof fn lemma_nothing_replaced(text: Seq<char>, pattern: Seq<char>, with: Seq<char>, at: int)
    requires
        pattern.len() > 0,
        0 <= at <= text.len(),
        stands_nowhere(text, pattern, at),
    ensures
        text::replaced_from(text, pattern, with, at) == text.skip(at),
    decreases text.len() - at,
{
    if at < text.len() {
        if at <= text.len() - pattern.len() {
            assert(text.subrange(at, at + pattern.len()) != pattern);
        }
        lemma_nothing_replaced(text, pattern, with, at + 1);
        assert(seq![text[at]] + text.skip(at + 1) =~= text.skip(at));
    } else {
        assert(text.skip(at) =~= seq![]);
    }
}

/// A text in which the pattern does not stand stays as it is.
pub proof fn a_text_without_the_pattern_stays(
    text: Seq<char>,
    pattern: Seq<char>,
    with: Seq<char>,
)
    requires
        pattern.len() > 0,
        stands_nowhere(text, pattern, 0),
    ensures
        text::replaced(text, pattern, with) == text,
{
    lemma_nothing_replaced(text, pattern, with, 0);
    assert(text.skip(0) =~= text);
}

proof fn lemma_replaced_before(
    text: Seq<char>,
    pattern: Seq<char>,
    with: Seq<char>,
    at: int,
    place: int,
)
    requires
        pattern.len() > 0,
        0 <= at <= place,
        place + pattern.len() <= text.len(),
        text.subrange(place, place + pattern.len()) == pattern,
        forall|i: int| at <= i < place ==> #[trigger] text.subrange(i, i + pattern.len()) != pattern,
    ensures
        text::replaced_from(text, pattern, with, at) == text.subrange(at, place) + with
            + text::replaced_from(text, pattern, with, place + pattern.len()),
    decreases place - at,
{
    let rest = text::replaced_from(text, pattern, with, place + pattern.len());
    if at < place {
        assert(text.subrange(at, at + pattern.len()) != pattern);
        lemma_replaced_before(text, pattern, with, at + 1, place);
        assert(seq![text[at]] + (text.subrange(at + 1, place) + with + rest) =~= text.subrange(
            at,
            place,
        ) + with + rest);
    } else {
        assert(text.subrange(at, place) + with + rest =~= with + rest);
    }
}

/// The first place where the pattern stands is replaced, what is before it stays, and what is behind
/// it is treated as a text of its own.
pub proof fn the_pattern_is_replaced_from_left_to_right(
    before: Seq<char>,
    pattern: Seq<char>,
    behind: Seq<char>,
    with: Seq<char>,
)
    requires
        pattern.len() > 0,
        forall|i: int|
            0 <= i < before.len() ==> #[trigger] (before + pattern + behind).subrange(
                i,
                i + pattern.len(),
            ) != pattern,
    ensures
        text::replaced(before + pattern + behind, pattern, with) == before + with + text::replaced(
            behind,
            pattern,
            with,
        ),
{
    let text = before + pattern + behind;
    let place = before.len() as int;
    assert(text.subrange(place, place + pattern.len()) =~= pattern);
    lemma_replaced_before(text, pattern, with, 0, place);
    assert(text.subrange(0, place) =~= before);
    lemma_replaced_behind(before + pattern, behind, pattern, with, 0);
}

proof fn lemma_replaced_behind(
    before: Seq<char>,
    text: Seq<char>,
    pattern: Seq<char>,
    with: Seq<char>,
    at: int,
)
    requires
        pattern.len() > 0,
        0 <= at,
    ensures
        text::replaced_from(before + text, pattern, with, before.len() + at)
            == text::replaced_from(text, pattern, with, at),
    decreases text.len() - at,
{
    let whole = before + text;
    if at < text.len() {
        if at + pattern.len() <= text.len() {
            assert(whole.subrange(before.len() + at, before.len() + at + pattern.len())
                =~= text.subrange(at, at + pattern.len()));
        }
        if text::stands_at(text, pattern, at) {
            lemma_replaced_behind(before, text, pattern, with, at + pattern.len());
        } else {
            lemma_replaced_behind(before, text, pattern, with, at + 1);
        }
    }
}

/// Whether `part` stands somewhere in `text`.
pub open spec fn holds(text: Seq<char>, part: Seq<char>) -> bool {
    exists|before: Seq<char>, behind: Seq<char>| text == #[trigger] (before + part + behind)
}

/// What stands in a part of a text stands in the text.
pub proof fn parts_of_parts_are_parts(
    before: Seq<char>,
    text: Seq<char>,
    behind: Seq<char>,
    part: Seq<char>,
)
    requires
        holds(text, part),
    ensures
        holds(before + text + behind, part),
{
    let (head, tail) = choose|head: Seq<char>, tail: Seq<char>|
        text == #[trigger] (head + part + tail);
    assert(before + text + behind =~= (before + head) + part + (tail + behind));
}

} // verus!
