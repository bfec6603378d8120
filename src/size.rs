use vstd::prelude::*;
use vstd::arithmetic::div_mod::{lemma_div_denominator, lemma_div_multiples_vanish};
use vstd::string::is_ascii_spec_bytes;

verus! {

/// Most digits accepted on either side of the decimal point.
pub const MAX_SIZE_DIGITS: usize = 9;

pub open spec fn is_digit(c: char) -> bool {
    '0' <= c && c <= '9'
}

pub open spec fn all_digits(s: Seq<char>) -> bool {
    forall|i: int| 0 <= i < s.len() ==> is_digit(#[trigger] s[i])
}

/// The number that a string of decimal digits spells.
pub open spec fn digits_value(s: Seq<char>) -> nat
    decreases s.len(),
{
    if s.len() == 0 {
        0
    } else {
        digits_value(s.drop_last()) * 10 + (s.last() as nat - '0' as nat) as nat
    }
}

pub open spec fn pow10(n: nat) -> nat
    decreases n,
{
    if n == 0 {
        1
    } else {
        10 * pow10((n - 1) as nat)
    }
}

/// `s` is a decimal size: the whole digits `w`, then, optionally, a point and the
/// fraction digits `f`.
pub open spec fn size_text(s: Seq<char>, w: Seq<char>, f: Seq<char>) -> bool {
    &&& w.len() > 0
    &&& all_digits(w)
    &&& all_digits(f)
    &&& (s == w && f.len() == 0) || s == w + seq!['.'] + f
}

/// The size `w.f` times 64, rounded to the nearest integer, halves up.
pub open spec fn quantized(w: Seq<char>, f: Seq<char>) -> int {
    let den: int = pow10(f.len()) as int;
    let num: int = digits_value(w) * den + digits_value(f);
    (128 * num + den) / (2 * den)
}

/// The size can be represented: at most nine digits on each side of the point, and a
/// result that fits in 32 bits.
pub open spec fn size_in_range(w: Seq<char>, f: Seq<char>) -> bool {
    &&& w.len() <= MAX_SIZE_DIGITS
    &&& f.len() <= MAX_SIZE_DIGITS
    &&& quantized(w, f) <= u32::MAX
}

proof fn lemma_pow10_pos(n: nat)
    ensures
        pow10(n) >= 1,
    decreases n,
{
    if n > 0 {
        lemma_pow10_pos((n - 1) as nat);
    }
}

proof fn lemma_digits_bound(s: Seq<char>)
    requires
        all_digits(s),
    ensures
        digits_value(s) < pow10(s.len()),
    decreases s.len(),
{
    if s.len() > 0 {
        assert(all_digits(s.drop_last()));
        lemma_digits_bound(s.drop_last());
        assert(is_digit(s[s.len() - 1]));
    }
}

/// Where a split of `s` into whole and fraction digits exists, the whole digits are
/// the leading run of digits, and the point, if any, follows them.
proof fn lemma_split_at(s: Seq<char>, w: Seq<char>, f: Seq<char>, i: int)
    requires
        size_text(s, w, f),
        0 <= i <= s.len(),
        forall|k: int| 0 <= k < i ==> is_digit(#[trigger] s[k]),
        i == s.len() || !is_digit(s[i]),
    ensures
        w == s.take(i),
        i == s.len() ==> f.len() == 0,
        i < s.len() ==> s[i] == '.' && f == s.skip(i + 1),
{
    if w.len() > i {
        if s == w {
        } else {
            assert(s[i] == (w + seq!['.'] + f)[i]);
        }
        assert(s[i] == w[i]);
        assert(is_digit(w[i]));
    }
    if w.len() < i {
        if s == w {
        } else {
            assert(s[w.len() as int] == '.');
            assert(is_digit(s[w.len() as int]));
        }
    }
    assert(w.len() == i);
    if s == w {
        assert(w == s.take(i));
    } else {
        assert(w == s.take(i));
        assert(s[i] == '.');
        assert(f == s.skip(i + 1));
    }
}

/// Index of the first character at or after `start` that is not a digit.
fn scan_digits(b: &[u8], s: Ghost<Seq<char>>, start: usize) -> (end: usize)
    requires
        start <= b@.len(),
        b@.len() == s@.len(),
        forall|k: int| 0 <= k < s@.len() ==> #[trigger] b@[k] as int == s@[k] as int,
    ensures
        start <= end <= b@.len(),
        forall|k: int| start <= k < end ==> is_digit(#[trigger] s@[k]),
        end == b@.len() || !is_digit(s@[end as int]),
{
    let mut i = start;
    while i < b.len() && b[i] >= 48 && b[i] <= 57
        invariant
            start <= i <= b@.len(),
            b@.len() == s@.len(),
            forall|k: int| 0 <= k < s@.len() ==> #[trigger] b@[k] as int == s@[k] as int,
            forall|k: int| start <= k < i ==> is_digit(#[trigger] s@[k]),
        decreases b@.len() - i,
    {
        assert(b@[i as int] as int == s@[i as int] as int);
        i = i + 1;
    }
    if i < b.len() {
        assert(b@[i as int] as int == s@[i as int] as int);
    }
    i
}

/// The value of the digits `s[start..end]`.
fn digits_to_u64(b: &[u8], s: Ghost<Seq<char>>, start: usize, end: usize) -> (v: u64)
    requires
        start <= end <= b@.len(),
        end - start <= MAX_SIZE_DIGITS,
        b@.len() == s@.len(),
        forall|k: int| 0 <= k < s@.len() ==> #[trigger] b@[k] as int == s@[k] as int,
        forall|k: int| start <= k < end ==> is_digit(#[trigger] s@[k]),
    ensures
        v == digits_value(s@.subrange(start as int, end as int)),
{
    let mut v: u64 = 0;
    let mut i = start;
    while i < end
        invariant
            start <= i <= end,
            end <= b@.len(),
            end - start <= MAX_SIZE_DIGITS,
            b@.len() == s@.len(),
            forall|k: int| 0 <= k < s@.len() ==> #[trigger] b@[k] as int == s@[k] as int,
            forall|k: int| start <= k < end ==> is_digit(#[trigger] s@[k]),
            v == digits_value(s@.subrange(start as int, i as int)),
            v < pow10((i - start) as nat),
            pow10((i - start) as nat) <= 1_000_000_000,
        decreases end - i,
    {
        let ghost pre = s@.subrange(start as int, i as int);
        let ghost next = s@.subrange(start as int, i as int + 1);
        assert(next.drop_last() == pre);
        assert(b@[i as int] as int == s@[i as int] as int);
        assert(is_digit(s@[i as int]));
        let d = (b[i] - 48) as u64;
        assert(d == s@[i as int] as int - '0' as int);
        v = v * 10 + d;
        proof {
            assert(pow10((i + 1 - start) as nat) == 10 * pow10((i - start) as nat));
            if i + 1 - start <= 9 {
                lemma_pow10_le_9((i + 1 - start) as nat);
            }
        }
        i = i + 1;
    }
    v
}

proof fn lemma_pow10_le_9(n: nat)
    requires
        n <= 9,
    ensures
        pow10(n) <= 1_000_000_000,
    decreases 9 - n,
{
    if n < 9 {
        lemma_pow10_le_9(n + 1);
    } else {
        reveal_with_fuel(pow10, 10);
    }
}

fn pow10_u64(n: usize) -> (r: u64)
    requires
        n <= MAX_SIZE_DIGITS,
    ensures
        r == pow10(n as nat),
{
    let mut r: u64 = 1;
    let mut i: usize = 0;
    while i < n
        invariant
            i <= n <= MAX_SIZE_DIGITS,
            r == pow10(i as nat),
        decreases n - i,
    {
        proof {
            lemma_pow10_le_9((i + 1) as nat);
        }
        r = r * 10;
        i = i + 1;
    }
    r
}

/// Every character of a decimal size is a digit or the point.
proof fn lemma_size_text_chars(s: Seq<char>, w: Seq<char>, f: Seq<char>)
    requires
        size_text(s, w, f),
    ensures
        forall|k: int| 0 <= k < s.len() ==> is_digit(#[trigger] s[k]) || s[k] == '.',
{
    assert forall|k: int| 0 <= k < s.len() implies is_digit(#[trigger] s[k]) || s[k] == '.' by {
        if s == w {
            assert(is_digit(w[k]));
        } else if k < w.len() {
            assert(s[k] == w[k]);
            assert(is_digit(w[k]));
        } else if k > w.len() {
            assert(s[k] == f[k - w.len() - 1]);
            assert(is_digit(f[k - w.len() - 1]));
        }
    }
}

/// Reads a decimal font size (`12`, `12.`, `12.5`) as a whole number of sixty-fourths
/// of a point, rounded to the nearest, halves up. `None` for text of another shape,
/// or out of range.
pub fn parse_size(text: &str) -> (r: Option<u32>)
    ensures
        r is Some ==> exists|w: Seq<char>, f: Seq<char>|
            size_text(text@, w, f) && size_in_range(w, f) && r->Some_0 == quantized(w, f),
        (exists|w: Seq<char>, f: Seq<char>| size_text(text@, w, f) && size_in_range(w, f)) ==> r is Some,
{
    let ghost s = text@;
    if !text.is_ascii() {
        proof {
            if exists|w: Seq<char>, f: Seq<char>| size_text(s, w, f) {
                let (w, f) = choose|w: Seq<char>, f: Seq<char>| size_text(s, w, f);
                lemma_size_text_chars(s, w, f);
                assert(vstd::utf8::is_ascii_chars(s));
            }
        }
        return None;
    }
    let b = text.as_bytes();
    proof {
        is_ascii_spec_bytes(text);
        vstd::utf8::is_ascii_chars_nat_bound(s);
        assert forall|k: int| 0 <= k < s.len() implies #[trigger] b@[k] as int == s[k] as int by {
            assert(b@[k] == s[k] as u8);
            assert((s[k] as nat) < 128);
        }
    }
    let n = b.len();
    let i = scan_digits(b, Ghost(s), 0);
    if i == 0 || i > MAX_SIZE_DIGITS {
        proof {
            if exists|w: Seq<char>, f: Seq<char>| size_text(s, w, f) && size_in_range(w, f) {
                let (w, f) = choose|w: Seq<char>, f: Seq<char>| size_text(s, w, f) && size_in_range(w, f);
                lemma_split_at(s, w, f, i as int);
            }
        }
        return None;
    }
    let j: usize;
    if i == n {
        j = n;
    } else if b[i] == 46 {
        j = scan_digits(b, Ghost(s), i + 1);
    } else {
        proof {
            assert(b@[i as int] as int == s[i as int] as int);
            if exists|w: Seq<char>, f: Seq<char>| size_text(s, w, f) {
                let (w, f) = choose|w: Seq<char>, f: Seq<char>| size_text(s, w, f);
                lemma_split_at(s, w, f, i as int);
            }
        }
        return None;
    }
    let frac_len: usize = if i == n { 0 } else { j - i - 1 };
    if j < n || frac_len > MAX_SIZE_DIGITS {
        proof {
            if exists|w: Seq<char>, f: Seq<char>| size_text(s, w, f) && size_in_range(w, f) {
                let (w, f) = choose|w: Seq<char>, f: Seq<char>| size_text(s, w, f) && size_in_range(w, f);
                lemma_split_at(s, w, f, i as int);
                if i < n {
                    assert(b@[i as int] as int == s[i as int] as int);
                    if j < n {
                        assert(s[j as int] == f[j - i - 1]);
                    }
                }
            }
        }
        return None;
    }
    let ghost w = s.take(i as int);
    let ghost f = if i == n { Seq::<char>::empty() } else { s.skip(i + 1) };
    proof {
        if i < n {
            assert(b@[i as int] as int == s[i as int] as int);
            assert(s == w + seq!['.'] + f);
        } else {
            assert(s == w);
        }
        assert(all_digits(f));
        assert(all_digits(w));
        assert(size_text(s, w, f));
    }
    let whole = digits_to_u64(b, Ghost(s), 0, i);
    assert(s.subrange(0, i as int) == w);
    let frac: u64 = if i == n { 0 } else { digits_to_u64(b, Ghost(s), i + 1, n) };
    proof {
        if i < n {
            assert(s.subrange(i + 1, n as int) == f);
        }
    }
    let den = pow10_u64(frac_len);
    proof {
        lemma_pow10_pos(frac_len as nat);
        lemma_pow10_le_9(frac_len as nat);
        lemma_digits_bound(w);
        lemma_pow10_le_9(i as nat);
        assert(whole * den <= 1_000_000_000 * 1_000_000_000) by (nonlinear_arith)
            requires whole < 1_000_000_000, den <= 1_000_000_000;
    }
    let num: u128 = whole as u128 * den as u128 + frac as u128;
    let q: u128 = (128 * num + den as u128) / (2 * den as u128);
    if q > u32::MAX as u128 {
        proof {
            if exists|w2: Seq<char>, f2: Seq<char>| size_text(s, w2, f2) && size_in_range(w2, f2) {
                let (w2, f2) = choose|w2: Seq<char>, f2: Seq<char>| size_text(s, w2, f2) && size_in_range(w2, f2);
                lemma_split_at(s, w2, f2, i as int);
            }
        }
        return None;
    }
    assert(size_in_range(w, f));
    Some(q as u32)
}

/// Trailing zeros of the fraction do not change a size: `12.5` and `12.50` are the same.
pub proof fn lemma_trailing_zero_same_size(w: Seq<char>, f: Seq<char>)
    requires
        all_digits(w),
        all_digits(f),
    ensures
        quantized(w, f.push('0')) == quantized(w, f),
{
    let g = f.push('0');
    assert(g.drop_last() == f);
    let den: int = pow10(f.len()) as int;
    lemma_pow10_pos(f.len());
    let a: int = 128 * (digits_value(w) * den + digits_value(f)) + den;
    let num2: int = digits_value(w) * (10 * den) + digits_value(f) * 10;
    assert(digits_value(g) == digits_value(f) * 10);
    assert(pow10(g.len()) == 10 * den);
    assert(128 * num2 + 10 * den == 10 * a) by (nonlinear_arith)
        requires num2 == digits_value(w) * (10 * den) + digits_value(f) * 10, a == 128 * (digits_value(w) * den + digits_value(f)) + den;
    assert(2 * (10 * den) == 10 * (2 * den)) by (nonlinear_arith);
    lemma_div_denominator(10 * a, 10, 2 * den);
    lemma_div_multiples_vanish(a, 10);
}

/// A size without a fractional part reads the same with a point and zeros after it.
pub proof fn lemma_empty_fraction_same_size(w: Seq<char>)
    requires
        all_digits(w),
    ensures
        quantized(w, seq!['0']) == quantized(w, Seq::<char>::empty()),
{
    assert(Seq::<char>::empty().push('0') == seq!['0']);
    lemma_trailing_zero_same_size(w, Seq::<char>::empty());
}

} // verus!
