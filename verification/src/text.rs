//! Decimal text of natural numbers and small string builders.

use crate::decimal::{all_digits, digits_value, lemma_pow10_positive, pow10};
use vstd::prelude::*;
use vstd::string::*;

verus! {

/// `String::push` appends the character `c` to the text.
pub assume_specification[ String::push ](s: &mut String, c: char)
    ensures
        final(s)@ == old(s)@.push(c),
;

/// The decimal digit `d`, for `d < 10`.
pub open spec fn digit_char(d: nat) -> char {
    ('0' as nat + d) as char
}

/// `n` in decimal notation, without leading zeros.
pub open spec fn nat_text(n: nat) -> Seq<char>
    decreases n,
{
    if n < 10 {
        seq![digit_char(n)]
    } else {
        nat_text(n / 10).push(digit_char(n % 10))
    }
}

/// The last `width` decimal digits of `n`, padded with zeros on the left.
pub open spec fn padded_text(n: nat, width: nat) -> Seq<char>
    decreases width,
{
    if width == 0 {
        seq![]
    } else {
        padded_text(n / 10, (width - 1) as nat).push(digit_char(n % 10))
    }
}

/// The decimal digit `d`.
fn digit(d: u8) -> (c: char)
    requires
        d < 10,
    ensures
        c == digit_char(d as nat),
{
    (48u8 + d) as char
}

/// `n` in decimal notation.
pub fn u64_text(n: u64) -> (text: String)
    ensures
        text@ == nat_text(n as nat),
    decreases n,
{
    if n < 10 {
        let mut text: String = String::new();
        text.push(digit(n as u8));
        text
    } else {
        let mut text: String = u64_text(n / 10);
        text.push(digit((n % 10) as u8));
        text
    }
}

/// Whether `n` has at most `limit` digits in decimal notation.
pub fn has_at_most(n: u128, limit: u32) -> (r: bool)
    ensures
        r == (nat_text(n as nat).len() <= limit),
    decreases limit,
{
    if n < 10 {
        limit >= 1
    } else if limit == 0 {
        false
    } else {
        has_at_most(n / 10, limit - 1)
    }
}

/// The texts of a list of strings.
pub open spec fn texts(strings: Seq<String>) -> Seq<Seq<char>> {
    Seq::new(strings.len(), |i: int| strings[i]@)
}

/// The characters of `text`.
pub fn chars_of(text: &str) -> (chars: Vec<char>)
    ensures
        chars@ == text@,
{
    let mut chars: Vec<char> = Vec::new();
    for c in it: text.chars()
        invariant
            it.seq() == text@,
            chars@ == text@.take(it.index()),
    {
        chars.push(c);
    }
    chars
}

/// Whether the two texts are the same.
pub fn same_text(a: &str, b: &str) -> (same: bool)
    ensures
        same == (a@ == b@),
{
    let x: Vec<char> = chars_of(a);
    let y: Vec<char> = chars_of(b);
    if x.len() != y.len() {
        return false;
    }
    let mut i: usize = 0;
    while i < x.len()
        invariant
            i <= x@.len(),
            x@.len() == y@.len(),
            x@ == a@,
            y@ == b@,
            forall|k: int| 0 <= k < i ==> x@[k] == y@[k],
        decreases x@.len() - i,
    {
        if x[i] != y[i] {
            return false;
        }
        i = i + 1;
    }
    assert(a@ =~= b@);
    true
}

/// `n` spaces.
pub open spec fn spaces(n: nat) -> Seq<char> {
    Seq::new(n, |i: int| ' ')
}

/// The spaces that fill `text` up to `width`.
pub open spec fn filling(text: Seq<char>, width: nat) -> Seq<char> {
    spaces(
        if text.len() < width {
            (width - text.len()) as nat
        } else {
            0
        },
    )
}

/// Appends spaces.
fn append_spaces(text: &mut String, n: usize)
    ensures
        final(text)@ == old(text)@ + spaces(n as nat),
{
    let ghost before = text@;
    let mut i: usize = 0;
    assert(before + spaces(0) =~= before);
    while i < n
        invariant
            i <= n,
            text@ == before + spaces(i as nat),
        decreases n - i,
    {
        text.push(' ');
        i = i + 1;
        assert(text@ =~= before + spaces(i as nat));
    }
}

/// A text of `n` spaces.
pub fn blank(n: usize) -> (text: String)
    ensures
        text@ == spaces(n as nat),
{
    let mut text: String = String::new();
    append_spaces(&mut text, n);
    assert(text@ =~= spaces(n as nat));
    text
}

/// `text`, filled up with spaces on the left to `width` characters.
pub fn align_right(text: &str, width: usize) -> (aligned: String)
    ensures
        aligned@ == filling(text@, width as nat) + text@,
{
    let len: usize = text.unicode_len();
    let mut aligned: String = blank(
        if len < width {
            width - len
        } else {
            0
        },
    );
    aligned.append(text);
    aligned
}

/// `text`, filled up with spaces on the right to `width` characters.
pub fn align_left(text: &str, width: usize) -> (aligned: String)
    ensures
        aligned@ == text@ + filling(text@, width as nat),
{
    let len: usize = text.unicode_len();
    let mut aligned: String = text.to_owned();
    append_spaces(
        &mut aligned,
        if len < width {
            width - len
        } else {
            0
        },
    );
    aligned
}

/// `text` is the numeral of `n`: digits that read as `n`, the first of which is no
/// zero unless it is the only one.
pub open spec fn is_numeral(text: Seq<char>, n: nat) -> bool {
    &&& text.len() >= 1
    &&& all_digits(text)
    &&& digits_value(text) == n
    &&& text.len() > 1 ==> text[0] != '0'
}

/// The decimal notation of a number is its numeral.
pub proof fn law_notation_is_the_numeral(n: nat)
    ensures
        is_numeral(nat_text(n), n),
    decreases n,
{
    let text = nat_text(n);
    if n < 10 {
        assert(text.drop_last() =~= seq![]);
        reveal_with_fuel(digits_value, 2);
        assert(text.last() == digit_char(n));
    } else {
        let front = nat_text(n / 10);
        law_notation_is_the_numeral(n / 10);
        assert(text.drop_last() =~= front);
        assert(text.last() == digit_char(n % 10));
        assert forall|i: int| 0 <= i < text.len() implies '0' <= #[trigger] text[i] <= '9' by {
            if i < front.len() {
                assert(text[i] == front[i]);
            }
        }
        if front.len() == 1 {
            reveal_with_fuel(digits_value, 2);
            assert(front.drop_last() =~= seq![]);
            assert(front.last() == front[0]);
            assert(front[0] != '0');
        }
        assert(text[0] == front[0]);
    }
}

/// A number has one numeral.
pub proof fn law_number_has_one_numeral(a: Seq<char>, b: Seq<char>, n: nat)
    requires
        is_numeral(a, n),
        is_numeral(b, n),
    ensures
        a == b,
    decreases a.len(),
{
    let x = a.drop_last();
    let y = b.drop_last();
    assert(a =~= x.push(a.last()));
    assert(b =~= y.push(b.last()));
    assert('0' <= a[a.len() - 1] <= '9');
    assert('0' <= b[b.len() - 1] <= '9');
    assert(digits_value(x) == n / 10 && digits_value(y) == n / 10);
    assert(a.last() == b.last());
    lemma_leading_digit(a, n);
    lemma_leading_digit(b, n);
    if x.len() == 0 || y.len() == 0 {
        assert(x =~= y);
    } else {
        lemma_front_is_numeral(a, n);
        lemma_front_is_numeral(b, n);
        law_number_has_one_numeral(x, y, n / 10);
    }
}

/// A numeral of two digits or more is ten at least, and one of a single digit is
/// less.
proof fn lemma_leading_digit(a: Seq<char>, n: nat)
    requires
        is_numeral(a, n),
    ensures
        a.len() > 1 <==> n >= 10,
    decreases a.len(),
{
    let x = a.drop_last();
    assert('0' <= a[a.len() - 1] <= '9');
    if a.len() == 1 {
        assert(x =~= seq![]);
        assert(digits_value(x) == 0);
    } else {
        lemma_front_is_numeral(a, n);
        lemma_leading_digit(x, n / 10);
        if x.len() == 1 {
            assert(x.drop_last() =~= seq![]);
            assert(digits_value(x.drop_last()) == 0);
            assert(x[0] == a[0]);
        }
    }
}

proof fn lemma_front_is_numeral(a: Seq<char>, n: nat)
    requires
        is_numeral(a, n),
        a.len() > 1,
    ensures
        is_numeral(a.drop_last(), n / 10),
{
    let x = a.drop_last();
    assert('0' <= a[a.len() - 1] <= '9');
    assert forall|i: int| 0 <= i < x.len() implies '0' <= #[trigger] x[i] <= '9' by {
        assert(x[i] == a[i]);
    }
    assert(x[0] == a[0]);
    assert(digits_value(a) == digits_value(x) * 10 + (a.last() as nat - '0' as nat) as nat);
}

/// Digits followed by the last `width` digits of `n` read as one number.
pub(crate) proof fn lemma_padded_value(front: Seq<char>, n: nat, width: nat)
    requires
        all_digits(front),
    ensures
        all_digits(front + padded_text(n, width)),
        digits_value(front + padded_text(n, width)) == digits_value(front) * pow10(width) + n
            % pow10(width),
    decreases width,
{
    let text = front + padded_text(n, width);
    if width == 0 {
        vstd::arithmetic::power::lemma_pow0(10);
        assert(text =~= front);
        let v = digits_value(front);
        let p = pow10(width);
        assert(v * p + n % p == v) by (nonlinear_arith)
            requires
                p == 1,
        ;
    } else {
        let w = (width - 1) as nat;
        let rest = front + padded_text(n / 10, w);
        lemma_padded_value(front, n / 10, w);
        assert(text.drop_last() =~= rest);
        assert(text.last() == digit_char(n % 10));
        assert forall|i: int| 0 <= i < text.len() implies '0' <= #[trigger] text[i] <= '9' by {
            if i < rest.len() {
                assert(text[i] == rest[i]);
            }
        }
        vstd::arithmetic::power::lemma_pow_adds(10, 1, w);
        vstd::arithmetic::power::lemma_pow1(10);
        lemma_pow10_positive(w);
        vstd::arithmetic::div_mod::lemma_mod_breakdown(n as int, 10, pow10(w) as int);
        let v = digits_value(front) as int;
        let p = pow10(w) as int;
        let r = (n / 10) as int % p;
        let d = n as int % 10;
        assert(pow10(width) == 10 * p);
        assert(n as int % (10 * p) == 10 * r + d);
        assert(digits_value(rest) == v * p + r);
        assert(digits_value(text) == digits_value(rest) * 10 + d);
        assert((v * p + r) * 10 + d == v * (10 * p) + (10 * r + d)) by (nonlinear_arith);
    }
}

/// A text flush right, or left, is the text with spaces at one end: it fills its
/// columns, and where it is wider it stands alone.
pub proof fn law_filling_is_blank(text: Seq<char>, width: nat)
    ensures
        forall|i: int| 0 <= i < filling(text, width).len() ==> filling(text, width)[i] == ' ',
        text.len() <= width ==> text.len() + filling(text, width).len() == width,
        text.len() > width ==> filling(text, width).len() == 0,
{
}

/// `piece` stands somewhere in `text`.
pub open spec fn shows(text: Seq<char>, piece: Seq<char>) -> bool {
    exists|before: Seq<char>, after: Seq<char>| text == #[trigger] ((before + piece) + after)
}

pub(crate) proof fn lemma_shows(before: Seq<char>, piece: Seq<char>)
    ensures
        shows(before + piece, piece),
{
    assert(before + piece =~= (before + piece) + Seq::empty());
}

pub(crate) proof fn lemma_still_shows(text: Seq<char>, more: Seq<char>, piece: Seq<char>)
    requires
        shows(text, piece),
    ensures
        shows(text + more, piece),
{
    let (before, after): (Seq<char>, Seq<char>) = choose|before: Seq<char>, after: Seq<char>|
        text == #[trigger] ((before + piece) + after);
    assert(text + more =~= (before + piece) + (after + more));
}

/// A number is written as its numeral, so two numbers are never written alike.
pub proof fn law_numbers_are_written_as_numerals(m: u64, n: u64, a: String, b: String)
    requires
        call_ensures(u64_text, (m,), a),
        call_ensures(u64_text, (n,), b),
    ensures
        is_numeral(a@, m as nat),
        a@ == b@ ==> m == n,
{
    law_notation_is_the_numeral(m as nat);
    law_notation_is_the_numeral(n as nat);
}

} // verus!
