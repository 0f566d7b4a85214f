//! Numbers as text.

use vstd::prelude::*;

verus! {

/// The digits of bases up to sixteen.
pub open spec fn digit(value: int) -> char {
    seq!['0', '1', '2', '3', '4', '5', '6', '7', '8', '9', 'a', 'b', 'c', 'd', 'e', 'f'][value]
}

/// A number written in `base`, without leading zeros.
pub open spec fn radix(value: int, base: int) -> Seq<char>
    decreases value,
    when base > 1
{
    if value < base {
        seq![digit(value)]
    } else {
        proof {
            lemma_quotient_is_smaller(value, base);
        }
        radix(value / base, base).push(digit(value % base))
    }
}

pub proof fn lemma_quotient_is_smaller(value: int, base: int)
    requires
        1 < base <= value,
    ensures
        0 <= value / base < value,
{
    assert(0 <= value / base < value) by (nonlinear_arith)
        requires
            1 < base <= value,
    ;
}

pub open spec fn decimal(value: int) -> Seq<char> {
    radix(value, 10)
}

pub open spec fn hex(value: int) -> Seq<char> {
    radix(value, 16)
}

/// A number written in decimal, with a sign where it is negative.
pub open spec fn signed(value: int) -> Seq<char> {
    if value < 0 {
        "-"@ + decimal(-value)
    } else {
        decimal(value)
    }
}

fn push_digit(out: &mut String, value: u64)
    requires
        value < 16,
    ensures
        final(out)@ == old(out)@.push(digit(value as int)),
{
    let text = match value {
        0 => "0",
        1 => "1",
        2 => "2",
        3 => "3",
        4 => "4",
        5 => "5",
        6 => "6",
        7 => "7",
        8 => "8",
        9 => "9",
        10 => "a",
        11 => "b",
        12 => "c",
        13 => "d",
        14 => "e",
        _ => "f",
    };
    proof {
        reveal_strlit("0");
        reveal_strlit("1");
        reveal_strlit("2");
        reveal_strlit("3");
        reveal_strlit("4");
        reveal_strlit("5");
        reveal_strlit("6");
        reveal_strlit("7");
        reveal_strlit("8");
        reveal_strlit("9");
        reveal_strlit("a");
        reveal_strlit("b");
        reveal_strlit("c");
        reveal_strlit("d");
        reveal_strlit("e");
        reveal_strlit("f");
    }
    out.append(text);
    assert(out@ =~= old(out)@.push(digit(value as int)));
}

fn push_radix(out: &mut String, value: u64, base: u64)
    requires
        1 < base <= 16,
    ensures
        final(out)@ == old(out)@ + radix(value as int, base as int),
    decreases value,
{
    if value < base {
        push_digit(out, value);
    } else {
        proof {
            lemma_quotient_is_smaller(value as int, base as int);
        }
        push_radix(out, value / base, base);
        push_digit(out, value % base);
    }
    assert(out@ =~= old(out)@ + radix(value as int, base as int));
}

/// Appends a number in decimal.
pub fn push_decimal(out: &mut String, value: u64)
    ensures
        final(out)@ == old(out)@ + decimal(value as int),
{
    push_radix(out, value, 10)
}

/// Appends a number in hexadecimal, in lower case and without a prefix.
pub fn push_hex(out: &mut String, value: u64)
    ensures
        final(out)@ == old(out)@ + hex(value as int),
{
    push_radix(out, value, 16)
}

/// Appends a number in decimal, with a sign where it is negative.
pub fn push_signed(out: &mut String, value: i64)
    ensures
        final(out)@ == old(out)@ + signed(value as int),
{
    if value < 0 {
        out.append("-");
        push_decimal(out, magnitude(value));
    } else {
        push_decimal(out, value as u64);
    }
    assert(out@ =~= old(out)@ + signed(value as int));
}

fn magnitude(value: i64) -> (positive: u64)
    requires
        value < 0,
    ensures
        positive == -value,
{
    (-(value as i128)) as u64
}

/// Whether `pattern` stands in `text` at `at`.
pub open spec fn stands_at(text: Seq<char>, pattern: Seq<char>, at: int) -> bool {
    &&& at + pattern.len() <= text.len()
    &&& text.subrange(at, at + pattern.len()) == pattern
}

/// `text` from `at` on, with every occurrence of `pattern` replaced, from left to right.
pub open spec fn replaced_from(
    text: Seq<char>,
    pattern: Seq<char>,
    with: Seq<char>,
    at: int,
) -> Seq<char>
    decreases text.len() - at,
    when pattern.len() > 0
{
    if at >= text.len() {
        seq![]
    } else if stands_at(text, pattern, at) {
        with + replaced_from(text, pattern, with, at + pattern.len())
    } else {
        seq![text[at]] + replaced_from(text, pattern, with, at + 1)
    }
}

/// `text` with every occurrence of `pattern` replaced.
pub open spec fn replaced(text: Seq<char>, pattern: Seq<char>, with: Seq<char>) -> Seq<char> {
    replaced_from(text, pattern, with, 0)
}

fn stands(text: &str, pattern: &str, at: usize) -> (stands: bool)
    requires
        at < text@.len(),
    ensures
        stands == stands_at(text@, pattern@, at as int),
{
    let count: usize = pattern.unicode_len();
    let total: usize = text.unicode_len();
    if count > total - at {
        return false;
    }
    let mut i: usize = 0;
    while i < count
        invariant
            count == pattern@.len(),
            i <= count,
            total == text@.len(),
            at + count <= total,
            forall|j: int| 0 <= j < i ==> text@[at + j] == #[trigger] pattern@[j],
        decreases count - i,
    {
        if text.get_char(at + i) != pattern.get_char(i) {
            assert(text@.subrange(at as int, at + pattern@.len())[i as int] != pattern@[i as int]);
            return false;
        }
        i = i + 1;
    }
    assert(text@.subrange(at as int, at + pattern@.len()) =~= pattern@);
    true
}

/// Replaces every occurrence of `pattern` in `text`.
pub fn replace(text: &str, pattern: &str, with: &str) -> (result: String)
    requires
        pattern@.len() > 0,
    ensures
        result@ == replaced(text@, pattern@, with@),
{
    let mut result = "".to_string();
    let total: usize = text.unicode_len();
    let step: usize = pattern.unicode_len();
    let mut at: usize = 0;
    proof {
        reveal_strlit("");
        assert(replaced(text@, pattern@, with@) =~= result@ + replaced_from(
            text@,
            pattern@,
            with@,
            0,
        ));
    }
    while at < total
        invariant
            total == text@.len(),
            step == pattern@.len(),
            step > 0,
            at <= total,
            replaced(text@, pattern@, with@) == result@ + replaced_from(
                text@,
                pattern@,
                with@,
                at as int,
            ),
        decreases total - at,
    {
        let ghost before = result@;
        if stands(text, pattern, at) {
            result.append(with);
            assert(result@ + replaced_from(text@, pattern@, with@, at + step) =~= before
                + replaced_from(text@, pattern@, with@, at as int));
            at = at + step;
        } else {
            result.append(text.substring_char(at, at + 1));
            assert(text@.subrange(at as int, at + 1) =~= seq![text@[at as int]]);
            assert(result@ + replaced_from(text@, pattern@, with@, at + 1) =~= before
                + replaced_from(text@, pattern@, with@, at as int));
            at = at + 1;
        }
    }
    assert(result@ + replaced_from(text@, pattern@, with@, at as int) =~= result@);
    result
}

/// Different numbers have different texts.
pub proof fn decimal_is_injective(a: int, b: int)
    requires
        0 <= a,
        0 <= b,
        decimal(a) == decimal(b),
    ensures
        a == b,
    decreases a,
{
    lemma_last_digit(a);
    lemma_last_digit(b);
    if a >= 10 && b >= 10 {
        assert(decimal(a / 10) =~= decimal(a).drop_last());
        assert(decimal(b / 10) =~= decimal(b).drop_last());
        decimal_is_injective(a / 10, b / 10);
    } else if a >= 10 {
        lemma_last_digit(a / 10);
        assert(decimal(a).len() >= 2);
    } else if b >= 10 {
        lemma_last_digit(b / 10);
        assert(decimal(b).len() >= 2);
    }
}

proof fn lemma_last_digit(value: int)
    requires
        0 <= value,
    ensures
        decimal(value).len() >= 1,
        decimal(value).last() == digit(value % 10),
{
}

} // verus!
