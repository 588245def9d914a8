//! Text helpers: the order of text, blank text and decimal numbers.

use vstd::prelude::*;
use vstd::utf8::{encode_utf8, encode_utf8_decode_utf8};

verus! {

/// `a` comes strictly before `b`: at the first place where they differ `a` holds the smaller
/// byte, or `a` is a proper prefix of `b`.
pub open spec fn bytes_before(a: Seq<u8>, b: Seq<u8>) -> bool {
    exists|n: int| #[trigger] first_smaller_at(a, b, n)
}

/// `a` and `b` agree on their first `n` bytes, and there `a` ends while `b` goes on, or holds a
/// smaller byte than `b`.
pub open spec fn first_smaller_at(a: Seq<u8>, b: Seq<u8>, n: int) -> bool {
    &&& 0 <= n < b.len()
    &&& n <= a.len()
    &&& forall|i: int| 0 <= i < n ==> a[i] == b[i]
    &&& n == a.len() || a[n] < b[n]
}

/// The order of text: by the bytes of its UTF-8 form.
pub open spec fn text_before(a: Seq<char>, b: Seq<char>) -> bool {
    bytes_before(encode_utf8(a), encode_utf8(b))
}

/// Any two texts are equal, or exactly one of them comes before the other.
pub proof fn law_text_order_is_total(a: Seq<char>, b: Seq<char>)
    ensures
        a == b ==> !text_before(a, b) && !text_before(b, a),
        a != b ==> (text_before(a, b) <==> !text_before(b, a)),
{
    let x = encode_utf8(a);
    let y = encode_utf8(b);
    if text_before(a, b) && text_before(b, a) {
        let n = choose|n: int| #[trigger] first_smaller_at(x, y, n);
        let m = choose|m: int| #[trigger] first_smaller_at(y, x, m);
        if n < m {
            assert(y[n] == x[n]);
        } else if m < n {
            assert(x[m] == y[m]);
        }
        assert(false);
    }
    if a != b {
        encode_utf8_decode_utf8(a);
        encode_utf8_decode_utf8(b);
        assert(x != y);
        lemma_some_first_difference(x, y, 0);
    }
}

/// Nothing that comes before a second text, which comes before a third, fails to come before the
/// third.
pub proof fn law_text_order_is_transitive(a: Seq<char>, b: Seq<char>, c: Seq<char>)
    requires
        text_before(a, b),
        text_before(b, c),
    ensures
        text_before(a, c),
{
    let x = encode_utf8(a);
    let y = encode_utf8(b);
    let z = encode_utf8(c);
    let n = choose|n: int| #[trigger] first_smaller_at(x, y, n);
    let m = choose|m: int| #[trigger] first_smaller_at(y, z, m);
    let k = if n < m {
        n
    } else {
        m
    };
    assert(first_smaller_at(x, z, k));
}

proof fn lemma_some_first_difference(x: Seq<u8>, y: Seq<u8>, n: int)
    requires
        x != y,
        0 <= n <= x.len(),
        n <= y.len(),
        forall|i: int| 0 <= i < n ==> x[i] == y[i],
    ensures
        bytes_before(x, y) || bytes_before(y, x),
    decreases x.len() - n,
{
    if n < x.len() && n < y.len() && x[n] == y[n] {
        lemma_some_first_difference(x, y, n + 1);
    } else if n == x.len() && n == y.len() {
        assert(x =~= y);
    } else {
        assert(first_smaller_at(x, y, n) || first_smaller_at(y, x, n));
    }
}

/// Whether `a` comes strictly before `b`.
pub fn is_before(a: &str, b: &str) -> (r: bool)
    ensures
        r == text_before(a@, b@),
{
    let x = a.as_bytes();
    let y = b.as_bytes();
    let mut n: usize = 0;
    while n < x.len() && n < y.len() && x[n] == y[n]
        invariant
            n <= x.len(),
            n <= y.len(),
            forall|i: int| 0 <= i < n ==> x@[i] == y@[i],
        decreases x.len() - n,
    {
        n = n + 1;
    }
    let r = n < y.len() && (n == x.len() || x[n] < y[n]);
    proof {
        if r {
            assert(first_smaller_at(x@, y@, n as int));
        } else if bytes_before(x@, y@) {
            let m = choose|m: int| #[trigger] first_smaller_at(x@, y@, m);
            if n < m {
                assert(x@[n as int] == y@[n as int]);
            }
            assert(false);
        }
    }
    r
}

/// The characters with the Unicode property `White_Space`.
pub open spec fn is_white_space(c: char) -> bool {
    ||| '\u{9}' <= c <= '\u{d}'
    ||| c == '\u{20}'
    ||| c == '\u{85}'
    ||| c == '\u{a0}'
    ||| c == '\u{1680}'
    ||| '\u{2000}' <= c <= '\u{200a}'
    ||| c == '\u{2028}'
    ||| c == '\u{2029}'
    ||| c == '\u{202f}'
    ||| c == '\u{205f}'
    ||| c == '\u{3000}'
}

/// Text with nothing but white space in it, or with nothing at all.
pub open spec fn blank(text: Seq<char>) -> bool {
    forall|i: int| 0 <= i < text.len() ==> is_white_space(#[trigger] text[i])
}

/// Whether `text` holds nothing but white space.
pub fn is_blank(text: &str) -> (r: bool)
    ensures
        r == blank(text@),
{
    for c in it: text.chars()
        invariant
            it.seq() == text@,
            forall|i: int| 0 <= i < it.index() ==> is_white_space(#[trigger] text@[i]),
    {
        let white = ('\u{9}' <= c && c <= '\u{d}') || c == '\u{20}' || c == '\u{85}'
            || c == '\u{a0}' || c == '\u{1680}' || ('\u{2000}' <= c && c <= '\u{200a}')
            || c == '\u{2028}' || c == '\u{2029}' || c == '\u{202f}' || c == '\u{205f}'
            || c == '\u{3000}';
        if !white {
            assert(!is_white_space(text@[it.index()]));
            return false;
        }
    }
    true
}

/// The character for a digit.
pub open spec fn digit(n: int) -> char {
    (48 + n) as char
}

/// `n` in decimal, without leading zeros.
pub open spec fn decimal(n: nat) -> Seq<char>
    decreases n,
{
    if n < 10 {
        seq![digit(n as int)]
    } else {
        decimal(n / 10).push(digit((n % 10) as int))
    }
}

/// `n` in decimal, filled with leading zeros to at least `width` digits.
pub open spec fn padded(n: nat, width: nat) -> Seq<char> {
    let digits = decimal(n);
    if digits.len() < width {
        Seq::new((width - digits.len()) as nat, |i: int| '0') + digits
    } else {
        digits
    }
}

fn digit_text(n: u64) -> (r: &'static str)
    requires
        n < 10,
    ensures
        r@ == seq![digit(n as int)],
{
    proof {
        reveal_strlit("0");
        reveal_strlit("1");
        reveal_strlit("2");
        reveal_strlit("3");
        reveal_strlit("4");
        reveal_strlit("5");
        reveal_strlit("6");
        reveal_strlit("7");
        reveal_strlit("8");
        reveal_strlit("9");
    }
    match n {
        0 => "0",
        1 => "1",
        2 => "2",
        3 => "3",
        4 => "4",
        5 => "5",
        6 => "6",
        7 => "7",
        8 => "8",
        _ => "9",
    }
}

/// Append `n` in decimal.
pub fn append_decimal(out: &mut String, n: u64)
    ensures
        final(out)@ == old(out)@ + decimal(n as nat),
    decreases n,
{
    if n >= 10 {
        append_decimal(out, n / 10);
    }
    out.append(digit_text(n % 10));
    assert(out@ =~= old(out)@ + decimal(n as nat));
}

/// Append `n` in decimal, filled with leading zeros to at least `width` digits.
pub fn append_padded(out: &mut String, n: u64, width: usize)
    ensures
        final(out)@ == old(out)@ + padded(n as nat, width as nat),
    decreases width,
{
    proof {
        lemma_decimal_is_not_empty(n as nat);
        lemma_decimal_is_not_empty(n as nat / 10);
    }
    if width <= 1 {
        append_decimal(out, n);
    } else {
        append_padded(out, n / 10, width - 1);
        out.append(digit_text(n % 10));
        assert(out@ =~= old(out)@ + padded(n as nat, width as nat));
    }
}

proof fn lemma_decimal_is_not_empty(n: nat)
    ensures
        decimal(n).len() >= 1,
{
}

/// Different numbers have different decimal forms.
pub proof fn law_decimal_is_injective(a: nat, b: nat)
    requires
        decimal(a) == decimal(b),
    ensures
        a == b,
    decreases a,
{
    lemma_decimal_is_not_empty(a / 10);
    lemma_decimal_is_not_empty(b / 10);
    assert(decimal(a).last() == digit((a % 10) as int));
    assert(decimal(b).last() == digit((b % 10) as int));
    if a >= 10 && b >= 10 {
        assert(decimal(a).drop_last() =~= decimal(a / 10));
        assert(decimal(b).drop_last() =~= decimal(b / 10));
        law_decimal_is_injective(a / 10, b / 10);
    }
}

/// The number that a series of digits writes.
pub open spec fn number(digits: Seq<char>) -> int
    decreases digits.len(),
{
    if digits.len() == 0 {
        0
    } else {
        number(digits.drop_last()) * 10 + (digits.last() as int - '0' as int)
    }
}

/// A decimal form is digits alone, has no needless zero in front, and writes its number.
pub proof fn law_a_decimal_form_writes_its_number(n: nat)
    ensures
        decimal(n).len() > 0,
        forall|i: int| 0 <= i < decimal(n).len() ==> '0' <= #[trigger] decimal(n)[i] <= '9',
        n > 0 ==> decimal(n)[0] != '0',
        n == 0 ==> decimal(n) == seq!['0'],
        number(decimal(n)) == n,
    decreases n,
{
    if n < 10 {
        assert(decimal(n).drop_last() =~= Seq::empty());
        assert(number(Seq::<char>::empty()) == 0);
        assert(decimal(n).last() == digit(n as int));
    } else {
        law_a_decimal_form_writes_its_number(n / 10);
        assert(decimal(n).drop_last() =~= decimal(n / 10));
        assert forall|i: int| 0 <= i < decimal(n).len() implies '0' <= #[trigger] decimal(n)[i]
            <= '9' by {
            if i < decimal(n / 10).len() {
                assert(decimal(n)[i] == decimal(n / 10)[i]);
            }
        }
        assert(decimal(n)[0] == decimal(n / 10)[0]);
    }
}

proof fn lemma_zeros_in_front(zeros: nat, digits: Seq<char>)
    ensures
        number(Seq::new(zeros, |i: int| '0') + digits) == number(digits),
    decreases digits.len(), zeros,
{
    let front = Seq::new(zeros, |i: int| '0');
    let all = front + digits;
    if digits.len() > 0 {
        lemma_zeros_in_front(zeros, digits.drop_last());
        assert(all.drop_last() =~= front + digits.drop_last());
    } else if zeros > 0 {
        lemma_zeros_in_front((zeros - 1) as nat, digits);
        assert(all.drop_last() =~= Seq::new((zeros - 1) as nat, |i: int| '0') + digits);
    } else {
        assert(all =~= digits);
    }
}

/// A padded form is as wide as it has to be, and no wider than that or its number, and writes its
/// number.
pub proof fn law_a_padded_form_writes_its_number(n: nat, width: nat)
    ensures
        padded(n, width).len() >= width,
        padded(n, width).len() == width || padded(n, width) == decimal(n),
        forall|i: int|
            0 <= i < padded(n, width).len() ==> '0' <= #[trigger] padded(n, width)[i] <= '9',
        number(padded(n, width)) == n,
{
    law_a_decimal_form_writes_its_number(n);
    if decimal(n).len() < width {
        lemma_zeros_in_front((width - decimal(n).len()) as nat, decimal(n));
    }
}

/// What decides between two texts is the first byte in which they differ; one that goes on where the
/// other ends comes after it.
pub proof fn law_the_first_difference_decides(
    start: Seq<u8>,
    a: u8,
    b: u8,
    rest: Seq<u8>,
    other: Seq<u8>,
    x: Seq<char>,
    y: Seq<char>,
)
    ensures
        a < b ==> bytes_before(start.push(a) + rest, start.push(b) + other),
        a > b ==> !bytes_before(start.push(a) + rest, start.push(b) + other),
        bytes_before(start, start.push(a) + rest),
        !bytes_before(start.push(a) + rest, start),
        !bytes_before(start, start),
        text_before(x, y) <==> bytes_before(encode_utf8(x), encode_utf8(y)),
{
    let left = start.push(a) + rest;
    let right = start.push(b) + other;
    let n = start.len() as int;
    assert(left[n] == a && right[n] == b);
    if a < b {
        assert(first_smaller_at(left, right, n));
    }
    if a > b && bytes_before(left, right) {
        let m = choose|m: int| #[trigger] first_smaller_at(left, right, m);
        if m < n {
            assert(left[m] == start[m] && right[m] == start[m]);
        } else if n < m {
            assert(left[n] == right[n]);
        }
    }
    assert(first_smaller_at(start, left, n));
    if bytes_before(left, start) {
        let m = choose|m: int| #[trigger] first_smaller_at(left, start, m);
        assert(left[m] == start[m]);
    }
}

/// Text is blank where every part of it is, and a character is where it is one of Unicode's white
/// space: the tab and what follows it up to the carriage return, the spaces of all widths, and the
/// separators of lines and paragraphs.
pub proof fn law_blank_is_white_space_alone(a: Seq<char>, b: Seq<char>, c: char)
    ensures
        blank(Seq::<char>::empty()),
        blank(a + b) <==> blank(a) && blank(b),
        blank(seq![' ']) && blank(seq!['\t']) && blank(seq!['\n']) && blank(seq!['\r']),
        blank(seq![c]) <==> {
            let code = c as int;
            9 <= code <= 13 || code == 0x20 || code == 0x85 || code == 0xa0 || code == 0x1680
                || 0x2000 <= code <= 0x200a || code == 0x2028 || code == 0x2029 || code == 0x202f
                || code == 0x205f || code == 0x3000
        },
{
    if blank(a + b) {
        assert forall|i: int| 0 <= i < a.len() implies is_white_space(#[trigger] a[i]) by {
            assert((a + b)[i] == a[i]);
        }
        assert forall|i: int| 0 <= i < b.len() implies is_white_space(#[trigger] b[i]) by {
            assert((a + b)[a.len() + i] == b[i]);
        }
    }
    assert(seq![c][0] == c);
    assert(blank(seq![c]) <==> is_white_space(c));
}

} // verus!
