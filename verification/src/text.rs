//! Building message text: decimal numbers, zero padding and column padding.
use vstd::prelude::*;
use vstd::string::StrSliceExecFns;

verus! {

/// The decimal digit character of a value below 10.
pub open spec fn digit_char(d: nat) -> char {
    (48 + d) as char
}

/// The decimal text of `n`, without leading zeros ("0" for zero).
pub open spec fn decimal_text(n: nat) -> Seq<char>
    decreases n,
{
    if n < 10 {
        seq![digit_char(n)]
    } else {
        decimal_text(n / 10).push(digit_char(n % 10))
    }
}

/// `c` repeated `n` times.
pub open spec fn repeat_char(c: char, n: nat) -> Seq<char>
    decreases n,
{
    if n == 0 {
        Seq::empty()
    } else {
        repeat_char(c, (n - 1) as nat).push(c)
    }
}

/// The decimal text of `n`, zero-padded on the left to at least `width`.
pub open spec fn zero_padded(n: nat, width: nat) -> Seq<char> {
    let d = decimal_text(n);
    if d.len() < width {
        repeat_char('0', (width - d.len()) as nat) + d
    } else {
        d
    }
}

/// `s` padded with spaces on the right to at least `width` characters.
pub open spec fn pad_right(s: Seq<char>, width: nat) -> Seq<char> {
    if s.len() < width {
        s + repeat_char(' ', (width - s.len()) as nat)
    } else {
        s
    }
}

/// `s` padded with spaces on the left to at least `width` characters.
pub open spec fn pad_left(s: Seq<char>, width: nat) -> Seq<char> {
    if s.len() < width {
        repeat_char(' ', (width - s.len()) as nat) + s
    } else {
        s
    }
}

/// Calls `String::push`.
///
/// Trusted: the character is appended at the end, as std documents.
#[verifier::external_body]
pub(crate) fn push_char(s: &mut String, c: char)
    ensures
        final(s)@ == old(s)@.push(c),
{
    s.push(c)
}

/// Calls `String::push_str`.
///
/// Trusted: the text is appended at the end, as std documents.
#[verifier::external_body]
pub(crate) fn push_text(s: &mut String, t: &str)
    ensures
        final(s)@ == old(s)@ + t@,
{
    s.push_str(t)
}

/// Appends `c` to `s` `n` times.
pub fn push_repeated(s: &mut String, c: char, n: usize)
    ensures
        final(s)@ == old(s)@ + repeat_char(c, n as nat),
{
    let mut i: usize = 0;
    while i < n
        invariant
            i <= n,
            s@ == old(s)@ + repeat_char(c, i as nat),
        decreases n - i,
    {
        push_char(s, c);
        i += 1;
        assert(s@ =~= old(s)@ + repeat_char(c, i as nat));
    }
}

/// The digits of `n`, least significant first.
fn digits_reversed(n: u64) -> (ds: Vec<char>)
    ensures
        ds@.len() == decimal_text(n as nat).len(),
        forall|i: int|
            0 <= i < ds@.len() ==> #[trigger] ds@[i] == decimal_text(n as nat)[ds@.len() - 1
                - i],
    decreases n,
{
    if n < 10 {
        let mut ds: Vec<char> = Vec::new();
        ds.push(char_of_digit(n));
        ds
    } else {
        let mut ds = digits_reversed(n / 10);
        let ghost prev = ds@;
        let ghost d = decimal_text((n / 10) as nat);
        assert(decimal_text(n as nat) == d.push(digit_char((n % 10) as nat)));
        let mut out: Vec<char> = Vec::new();
        out.push(char_of_digit(n % 10));
        let mut i: usize = 0;
        while i < ds.len()
            invariant
                i <= ds@.len(),
                ds@ == prev,
                prev.len() == d.len(),
                forall|j: int| 0 <= j < prev.len() ==> #[trigger] prev[j] == d[prev.len() - 1 - j],
                out@.len() == i + 1,
                out@[0] == digit_char((n % 10) as nat),
                forall|j: int| 1 <= j <= i ==> #[trigger] out@[j] == prev[j - 1],
            decreases ds@.len() - i,
        {
            out.push(ds[i]);
            i += 1;
        }
        let ghost full = decimal_text(n as nat);
        assert forall|j: int| 0 <= j < out@.len() implies #[trigger] out@[j] == full[out@.len()
            - 1 - j] by {
            if j > 0 {
                assert(out@[j] == prev[j - 1]);
            }
        }
        out
    }
}

/// The character of a decimal digit.
fn char_of_digit(d: u64) -> (c: char)
    requires
        d < 10,
    ensures
        c == digit_char(d as nat),
{
    if d == 0 {
        '0'
    } else if d == 1 {
        '1'
    } else if d == 2 {
        '2'
    } else if d == 3 {
        '3'
    } else if d == 4 {
        '4'
    } else if d == 5 {
        '5'
    } else if d == 6 {
        '6'
    } else if d == 7 {
        '7'
    } else if d == 8 {
        '8'
    } else {
        '9'
    }
}

/// Appends the decimal text of `n`.
pub fn push_decimal(s: &mut String, n: u64)
    ensures
        final(s)@ == old(s)@ + decimal_text(n as nat),
{
    let ds = digits_reversed(n);
    let ghost d = decimal_text(n as nat);
    let mut i: usize = ds.len();
    while i > 0
        invariant
            i <= ds@.len(),
            ds@.len() == d.len(),
            forall|j: int| 0 <= j < ds@.len() ==> #[trigger] ds@[j] == d[ds@.len() - 1 - j],
            s@ == old(s)@ + d.subrange(0, ds@.len() - i),
        decreases i,
    {
        i -= 1;
        push_char(s, ds[i]);
        assert(d.subrange(0, ds@.len() - i) =~= d.subrange(0, ds@.len() - i - 1).push(
            d[ds@.len() - 1 - i],
        ));
        assert(s@ =~= old(s)@ + d.subrange(0, ds@.len() - i));
    }
    assert(d.subrange(0, d.len() as int) =~= d);
}

/// The decimal text of `n`.
pub fn decimal(n: u64) -> (s: String)
    ensures
        s@ == decimal_text(n as nat),
{
    let mut s = String::new();
    push_decimal(&mut s, n);
    assert(s@ =~= decimal_text(n as nat));
    s
}

/// The number of decimal digits of `n`.
pub fn decimal_len(n: u64) -> (len: usize)
    ensures
        len == decimal_text(n as nat).len(),
    decreases n,
{
    proof {
        lemma_decimal_len_bound(n as nat);
    }
    if n < 10 {
        1
    } else {
        decimal_len(n / 10) + 1
    }
}

proof fn lemma_decimal_len_bound(n: nat)
    requires
        n <= u64::MAX,
    ensures
        decimal_text(n).len() <= 20,
{
    reveal_with_fuel(pow10, 21);
    assert(pow10(20) == 100000000000000000000nat);
    lemma_decimal_len_pow(n, 20);
}

/// A number below 10^k has at most k digits.
proof fn lemma_decimal_len_pow(n: nat, k: nat)
    requires
        k >= 1,
        n < pow10(k),
    ensures
        decimal_text(n).len() <= k,
    decreases k,
{
    if n >= 10 {
        let p = pow10((k - 1) as nat);
        assert(pow10(k) == 10 * p);
        if k == 1 {
            assert(pow10(0) == 1);
        } else {
            assert(n / 10 < p) by (nonlinear_arith)
                requires
                    n < 10 * p,
            ;
            lemma_decimal_len_pow(n / 10, (k - 1) as nat);
        }
    }
}

/// Ten to the power `k`.
pub open spec fn pow10(k: nat) -> nat
    decreases k,
{
    if k == 0 {
        1
    } else {
        10 * pow10((k - 1) as nat)
    }
}

/// Appends the decimal text of `n`, zero-padded on the left to `width`.
pub fn push_zero_padded(s: &mut String, n: u64, width: usize)
    ensures
        final(s)@ == old(s)@ + zero_padded(n as nat, width as nat),
{
    let len = decimal_len(n);
    let ghost start = s@;
    if len < width {
        push_repeated(s, '0', width - len);
    }
    push_decimal(s, n);
    assert(s@ =~= start + zero_padded(n as nat, width as nat));
}

/// Appends `t`, padded with spaces on the right to `width` characters.
pub fn push_padded_right(s: &mut String, t: &str, width: usize)
    ensures
        final(s)@ == old(s)@ + pad_right(t@, width as nat),
{
    let len = t.unicode_len();
    let ghost start = s@;
    push_text(s, t);
    if len < width {
        push_repeated(s, ' ', width - len);
    }
    assert(s@ =~= start + pad_right(t@, width as nat));
}

/// Appends `t`, padded with spaces on the left to `width` characters.
pub fn push_padded_left(s: &mut String, t: &str, width: usize)
    ensures
        final(s)@ == old(s)@ + pad_left(t@, width as nat),
{
    let len = t.unicode_len();
    let ghost start = s@;
    if len < width {
        push_repeated(s, ' ', width - len);
    }
    push_text(s, t);
    assert(s@ =~= start + pad_left(t@, width as nat));
}

} // verus!
