//! Byte-level text helpers: ASCII literals, decimal numbers, searching.
//!
//! Every textual format in this crate (time strings, bracket interval lists,
//! the cut-list text format, container header parameters) is handled as a
//! sequence of bytes; the helpers here give those parsers and serializers a
//! common, exactly specified vocabulary.

use vstd::prelude::*;

verus! {

/// The bytes of an ASCII character sequence.
pub open spec fn bytes_of(s: Seq<char>) -> Seq<u8> {
    Seq::new(s.len(), |i: int| s[i] as u8)
}

/// Bytes of an ASCII string slice, as a fresh vector.
pub fn lit_bytes(s: &str) -> (r: Vec<u8>)
    requires
        vstd::string::is_ascii(s),
    ensures
        r@ == bytes_of(s@),
{
    proof {
        vstd::string::is_ascii_spec_bytes(s);
    }
    let b: &[u8] = s.as_bytes();
    let v = vstd::slice::slice_to_vec(b);
    proof {
        assert(v@ =~= bytes_of(s@));
    }
    v
}

/// Whether `b` is an ASCII decimal digit.
pub open spec fn is_digit(b: u8) -> bool {
    48 <= b <= 57
}

/// Numeric value of a digit byte.
pub open spec fn digit_val(b: u8) -> int {
    b - 48
}

/// Digit byte for a value in `0..10`.
pub open spec fn digit_byte(v: int) -> u8 {
    (48 + v) as u8
}

/// Whether every byte of `s` is a decimal digit.
pub open spec fn all_digits(s: Seq<u8>) -> bool {
    forall|i: int| 0 <= i < s.len() ==> is_digit(#[trigger] s[i])
}

/// Value of a digit sequence read as a decimal number (most significant
/// digit first).
pub open spec fn dec_value(s: Seq<u8>) -> int
    decreases s.len(),
{
    if s.len() == 0 {
        0
    } else {
        10 * dec_value(s.drop_last()) + digit_val(s.last())
    }
}

/// A decimal value is never negative.
pub proof fn lemma_dec_value_nonneg(s: Seq<u8>)
    requires
        all_digits(s),
    ensures
        dec_value(s) >= 0,
    decreases s.len(),
{
    if s.len() > 0 {
        assert(all_digits(s.drop_last()));
        lemma_dec_value_nonneg(s.drop_last());
    }
}

/// Reading one more digit multiplies the prefix value by ten and adds the
/// digit.
pub proof fn lemma_dec_value_take_succ(s: Seq<u8>, i: int)
    requires
        0 <= i < s.len(),
    ensures
        dec_value(s.take(i + 1)) == 10 * dec_value(s.take(i)) + digit_val(s[i]),
{
    assert(s.take(i + 1).drop_last() =~= s.take(i));
    assert(s.take(i + 1).last() == s[i]);
}

/// A digit sequence is worth at least any of its prefixes.
pub proof fn lemma_dec_value_prefix_le(s: Seq<u8>, i: int)
    requires
        all_digits(s),
        0 <= i <= s.len(),
    ensures
        dec_value(s.take(i)) <= dec_value(s),
    decreases s.len() - i,
{
    if i == s.len() {
        assert(s.take(i) =~= s);
    } else {
        lemma_dec_value_take_succ(s, i);
        assert(all_digits(s.take(i))) by {
            assert(forall|j: int|
                0 <= j < s.take(i).len() ==> is_digit(#[trigger] s.take(i)[j]));
        }
        lemma_dec_value_nonneg(s.take(i));
        lemma_dec_value_prefix_le(s, i + 1);
    }
}

/// Leading zeroes do not change a decimal value.
pub proof fn lemma_dec_value_leading_zeros(z: Seq<u8>, s: Seq<u8>)
    requires
        forall|i: int| 0 <= i < z.len() ==> #[trigger] z[i] == 48u8,
    ensures
        dec_value(z + s) == dec_value(s),
    decreases s.len(),
{
    if s.len() == 0 {
        assert(z + s =~= z);
        lemma_dec_value_all_zeros(z);
    } else {
        assert((z + s).drop_last() =~= z + s.drop_last());
        assert((z + s).last() == s.last());
        lemma_dec_value_leading_zeros(z, s.drop_last());
    }
}

/// A run of zero digits is worth zero.
pub proof fn lemma_dec_value_all_zeros(z: Seq<u8>)
    requires
        forall|i: int| 0 <= i < z.len() ==> #[trigger] z[i] == 48u8,
    ensures
        dec_value(z) == 0,
    decreases z.len(),
{
    if z.len() > 0 {
        lemma_dec_value_all_zeros(z.drop_last());
    }
}

/// Parse a decimal number. Returns the value exactly when the input is a
/// non-empty run of digits whose value fits in a `u64`.
pub fn parse_u64(s: &[u8]) -> (r: Option<u64>)
    ensures
        r matches Some(v) <==> s@.len() > 0 && all_digits(s@) && dec_value(s@) <= u64::MAX,
        r matches Some(v) ==> v == dec_value(s@),
{
    if s.len() == 0 {
        return None;
    }
    let mut acc: u128 = 0;
    let mut i: usize = 0;
    proof {
        assert(s@.take(0) =~= Seq::<u8>::empty());
    }
    while i < s.len()
        invariant
            0 <= i <= s@.len(),
            all_digits(s@.take(i as int)),
            acc == dec_value(s@.take(i as int)),
            acc <= u64::MAX,
        decreases s@.len() - i,
    {
        let b = s[i];
        if b < 48 || b > 57 {
            proof {
                assert(s@[i as int] == b);
                assert(!is_digit(s@[i as int]));
            }
            return None;
        }
        let d: u128 = (b - 48) as u128;
        let next: u128 = acc * 10 + d;
        proof {
            lemma_dec_value_take_succ(s@, i as int);
        }
        if next > u64::MAX as u128 {
            proof {
                assert(all_digits(s@.take(i + 1))) by {
                    assert(forall|j: int|
                        0 <= j < i + 1 ==> is_digit(#[trigger] s@.take(i + 1)[j]));
                }
                if all_digits(s@) {
                    lemma_dec_value_prefix_le(s@, i + 1);
                }
            }
            return None;
        }
        acc = next;
        i = i + 1;
        proof {
            assert(all_digits(s@.take(i as int))) by {
                assert(forall|j: int|
                    0 <= j < i ==> is_digit(#[trigger] s@.take(i as int)[j]));
            }
        }
    }
    proof {
        assert(s@.take(i as int) =~= s@);
    }
    Some(acc as u64)
}

/// Decimal rendering of a non-negative number, most significant digit first,
/// without leading zeroes (a single zero digit for zero).
pub open spec fn spec_render_u64(n: int) -> Seq<u8>
    decreases n,
{
    if n <= 0 {
        seq![48u8]
    } else if n < 10 {
        seq![digit_byte(n)]
    } else {
        spec_render_u64(n / 10) + seq![digit_byte(n % 10)]
    }
}

/// The rendering of a number consists of digits.
pub proof fn lemma_render_u64_digits(n: int)
    requires
        n >= 0,
    ensures
        all_digits(spec_render_u64(n)),
        spec_render_u64(n).len() >= 1,
    decreases n,
{
    if n >= 10 {
        lemma_render_u64_digits(n / 10);
        assert(forall|i: int|
            0 <= i < spec_render_u64(n).len() ==> is_digit(#[trigger] spec_render_u64(n)[i]));
    }
}

/// Rendering and reading back a decimal number round-trips.
pub proof fn lemma_render_u64_value(n: int)
    requires
        n >= 0,
    ensures
        dec_value(spec_render_u64(n)) == n,
    decreases n,
{
    if n < 10 {
        let s = spec_render_u64(n);
        assert(s == seq![digit_byte(n)]);
        assert(s.len() == 1);
        assert(s.drop_last() =~= Seq::<u8>::empty());
        assert(dec_value(s.drop_last()) == 0);
        assert(s.last() == digit_byte(n));
        assert(dec_value(s) == digit_val(digit_byte(n)));
        assert(digit_val(digit_byte(n)) == n);
    } else {
        lemma_render_u64_value(n / 10);
        assert(spec_render_u64(n).drop_last() =~= spec_render_u64(n / 10));
        assert(spec_render_u64(n).last() == digit_byte(n % 10));
    }
}

/// Render a number as decimal digits.
pub fn render_u64(n: u64) -> (r: Vec<u8>)
    ensures
        r@ == spec_render_u64(n as int),
    decreases n,
{
    if n < 10 {
        let mut v: Vec<u8> = Vec::new();
        v.push(48 + n as u8);
        proof {
            assert(v@ =~= spec_render_u64(n as int));
        }
        v
    } else {
        let mut v = render_u64(n / 10);
        v.push(48 + (n % 10) as u8);
        proof {
            assert(v@ =~= spec_render_u64(n as int));
        }
        v
    }
}

/// Decimal rendering padded on the left with zero digits to at least `width`
/// bytes.
pub open spec fn spec_render_u64_pad(n: int, width: int) -> Seq<u8> {
    if spec_render_u64(n).len() >= width {
        spec_render_u64(n)
    } else {
        Seq::new((width - spec_render_u64(n).len()) as nat, |i: int| 48u8) + spec_render_u64(n)
    }
}

/// Padded renderings are digit runs with the plain rendering's value.
pub proof fn lemma_render_u64_pad_value(n: int, width: int)
    requires
        n >= 0,
    ensures
        all_digits(spec_render_u64_pad(n, width)),
        dec_value(spec_render_u64_pad(n, width)) == n,
        spec_render_u64_pad(n, width).len() >= width,
        spec_render_u64_pad(n, width).len() >= 1,
{
    lemma_render_u64_digits(n);
    lemma_render_u64_value(n);
    if spec_render_u64(n).len() < width {
        let z = Seq::new((width - spec_render_u64(n).len()) as nat, |i: int| 48u8);
        lemma_dec_value_leading_zeros(z, spec_render_u64(n));
        assert(forall|i: int|
            0 <= i < spec_render_u64_pad(n, width).len()
                ==> is_digit(#[trigger] spec_render_u64_pad(n, width)[i]));
    }
}

/// Render a number as decimal digits, left-padded with zeroes to `width`.
pub fn render_u64_pad(n: u64, width: usize) -> (r: Vec<u8>)
    ensures
        r@ == spec_render_u64_pad(n as int, width as int),
{
    let digits = render_u64(n);
    if digits.len() >= width {
        proof {
            assert(digits@ =~= spec_render_u64_pad(n as int, width as int));
        }
        digits
    } else {
        let mut v: Vec<u8> = Vec::new();
        let pad: usize = width - digits.len();
        let mut i: usize = 0;
        while i < pad
            invariant
                0 <= i <= pad,
                v@ =~= Seq::new(i as nat, |j: int| 48u8),
            decreases pad - i,
        {
            v.push(48u8);
            i = i + 1;
        }
        let mut digits = digits;
        v.append(&mut digits);
        proof {
            assert(v@ =~= spec_render_u64_pad(n as int, width as int));
        }
        v
    }
}

/// First position at or after `from` holding byte `b`.
pub open spec fn spec_find(s: Seq<u8>, b: u8, from: int) -> Option<int>
    decreases s.len() - from,
{
    if from < 0 || from >= s.len() {
        None
    } else if s[from] == b {
        Some(from)
    } else {
        spec_find(s, b, from + 1)
    }
}

/// What a successful find means: `b` stands at the found position and
/// nowhere between `from` and it.
pub proof fn lemma_find_characterization(s: Seq<u8>, b: u8, from: int)
    requires
        0 <= from <= s.len(),
    ensures
        spec_find(s, b, from) matches Some(j)
            ==> from <= j < s.len() && s[j] == b && forall|k: int| from <= k < j ==> s[k] != b,
        spec_find(s, b, from) is None ==> forall|k: int| from <= k < s.len() ==> s[k] != b,
    decreases s.len() - from,
{
    if from < s.len() && s[from] != b {
        lemma_find_characterization(s, b, from + 1);
    }
}

/// Find the first occurrence of `b` at or after `from`.
pub fn find_byte(s: &[u8], b: u8, from: usize) -> (r: Option<usize>)
    ensures
        match r {
            Some(j) => from <= j < s@.len() && spec_find(s@, b, from as int) == Some(j as int),
            None => spec_find(s@, b, from as int) is None,
        },
{
    let mut i: usize = from;
    if i > s.len() {
        return None;
    }
    while i < s.len()
        invariant
            from <= i <= s@.len(),
            spec_find(s@, b, from as int) == spec_find(s@, b, i as int),
        decreases s@.len() - i,
    {
        if s[i] == b {
            return Some(i);
        }
        i = i + 1;
    }
    None
}

/// Whether two byte slices hold the same bytes.
pub fn bytes_eq(a: &[u8], b: &[u8]) -> (r: bool)
    ensures
        r == (a@ == b@),
{
    if a.len() != b.len() {
        proof {
            assert(a@ != b@);
        }
        return false;
    }
    let mut i: usize = 0;
    while i < a.len()
        invariant
            0 <= i <= a@.len(),
            a@.len() == b@.len(),
            forall|j: int| 0 <= j < i ==> a@[j] == b@[j],
        decreases a@.len() - i,
    {
        if a[i] != b[i] {
            proof {
                assert(a@[i as int] != b@[i as int]);
                assert(a@ != b@);
            }
            return false;
        }
        i = i + 1;
    }
    proof {
        assert(a@ =~= b@);
    }
    true
}

/// Whether `s` starts with `prefix`.
pub open spec fn spec_starts_with(s: Seq<u8>, prefix: Seq<u8>) -> bool {
    prefix.len() <= s.len() && s.take(prefix.len() as int) == prefix
}

/// Test whether `s` starts with `prefix`.
pub fn starts_with(s: &[u8], prefix: &[u8]) -> (r: bool)
    ensures
        r == spec_starts_with(s@, prefix@),
{
    if prefix.len() > s.len() {
        return false;
    }
    let mut i: usize = 0;
    while i < prefix.len()
        invariant
            0 <= i <= prefix@.len(),
            prefix@.len() <= s@.len(),
            forall|j: int| 0 <= j < i ==> s@[j] == prefix@[j],
        decreases prefix@.len() - i,
    {
        if s[i] != prefix[i] {
            proof {
                assert(s@.take(prefix@.len() as int)[i as int] != prefix@[i as int]);
            }
            return false;
        }
        i = i + 1;
    }
    proof {
        assert(s@.take(prefix@.len() as int) =~= prefix@);
    }
    true
}

/// Copy a range of a slice into a fresh vector.
pub fn sub_vec(s: &[u8], start: usize, end: usize) -> (r: Vec<u8>)
    requires
        start <= end <= s@.len(),
    ensures
        r@ == s@.subrange(start as int, end as int),
{
    let mut v: Vec<u8> = Vec::new();
    let mut i: usize = start;
    while i < end
        invariant
            start <= i <= end <= s@.len(),
            v@ =~= s@.subrange(start as int, i as int),
        decreases end - i,
    {
        v.push(s[i]);
        proof {
            assert(v@ =~= s@.subrange(start as int, i + 1));
        }
        i = i + 1;
    }
    v
}

/// Append all bytes of `src` onto `dst`.
pub fn push_bytes(dst: &mut Vec<u8>, src: &[u8])
    ensures
        final(dst)@ == old(dst)@ + src@,
{
    let mut i: usize = 0;
    while i < src.len()
        invariant
            0 <= i <= src@.len(),
            dst@ =~= old(dst)@ + src@.take(i as int),
        decreases src@.len() - i,
    {
        dst.push(src[i]);
        proof {
            assert(dst@ =~= old(dst)@ + src@.take(i + 1));
        }
        i = i + 1;
    }
    proof {
        assert(dst@ =~= old(dst)@ + src@);
    }
}

/// Append the bytes of an ASCII literal onto `dst`.
pub fn push_lit(dst: &mut Vec<u8>, s: &str)
    requires
        vstd::string::is_ascii(s),
    ensures
        final(dst)@ == old(dst)@ + bytes_of(s@),
{
    let b = lit_bytes(s);
    push_bytes(dst, b.as_slice());
}

} // verus!
