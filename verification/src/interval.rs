//! Interval algebra: typed boundary values (frame numbers and microsecond
//! timestamps), their textual forms, and intervals over them.
//!
//! A time string follows the grammar `H+:MM:SS[.ssssss]` with minutes and
//! seconds below sixty, hours at most twenty-three, and at most six
//! sub-second digits; its value is a count of microseconds. A frame string
//! is a decimal number, optionally signed and optionally carrying a
//! fractional part, whose integer digits give the frame number.

use vstd::prelude::*;

use crate::metadata::{Metadata, MetadataError};
use crate::text::{
    all_digits, dec_value, digit_val, find_byte, is_digit, lemma_dec_value_nonneg, parse_u64,
    spec_find, spec_render_u64, spec_render_u64_pad, render_u64, render_u64_pad,
};

verus! {

/// Which kind of boundary a value is.
#[derive(Clone, Copy, PartialEq, Eq, Structural, Debug)]
pub enum BoundaryType {
    Frame,
    Time,
}

/// A frame number.
#[derive(Clone, Copy, PartialEq, Eq, Structural, Debug)]
pub struct Frame {
    pub n: u64,
}

/// A timestamp or duration, in microseconds.
#[derive(Clone, Copy, PartialEq, Eq, Structural, Debug)]
pub struct Time {
    pub us: u64,
}

/// Ten to the `k`-th power.
pub open spec fn pow10(k: nat) -> int
    decreases k,
{
    if k == 0 {
        1
    } else {
        10 * pow10((k - 1) as nat)
    }
}

/// `pow10` for the sub-second scales, executable.
pub fn pow10_u64(k: usize) -> (r: u64)
    requires
        k <= 6,
    ensures
        r == pow10(k as nat),
{
    proof {
        lemma_pow10_six();
    }
    if k == 0 {
        1
    } else if k == 1 {
        10
    } else if k == 2 {
        100
    } else if k == 3 {
        1000
    } else if k == 4 {
        10000
    } else if k == 5 {
        100000
    } else {
        proof {
            lemma_pow10_six();
        }
        1000000
    }
}

/// The microsecond scale, spelled out.
pub proof fn lemma_pow10_six()
    ensures
        pow10(0) == 1,
        pow10(1) == 10,
        pow10(2) == 100,
        pow10(3) == 1000,
        pow10(4) == 10000,
        pow10(5) == 100000,
        pow10(6) == 1000000,
{
    assert(pow10(0) == 1);
    assert(pow10(1) == 10);
    assert(pow10(2) == 100);
    assert(pow10(3) == 1000);
    assert(pow10(4) == 10000);
    assert(pow10(5) == 100000);
    assert(pow10(6) == 1000000);
}

/// Value of a time string in microseconds, if it follows the grammar.
pub open spec fn spec_parse_time(s: Seq<u8>) -> Option<u64> {
    match spec_find(s, 58u8, 0) {
        None => None,
        Some(c) => {
            let hours = s.take(c);
            if hours.len() == 0 || !all_digits(hours) || dec_value(hours) > 23 {
                None
            } else if c + 6 > s.len() {
                None
            } else if !(is_digit(s[c + 1]) && is_digit(s[c + 2]) && s[c + 3] == 58u8 && is_digit(
                s[c + 4],
            ) && is_digit(s[c + 5])) {
                None
            } else {
                let mins = 10 * digit_val(s[c + 1]) + digit_val(s[c + 2]);
                let secs = 10 * digit_val(s[c + 4]) + digit_val(s[c + 5]);
                if mins > 59 || secs > 59 {
                    None
                } else {
                    let whole = (dec_value(hours) * 3600 + mins * 60 + secs) * 1000000;
                    let rest = s.skip(c + 6);
                    if rest.len() == 0 {
                        Some(whole as u64)
                    } else if rest[0] == 46u8 && rest.len() <= 7 && all_digits(rest.skip(1)) {
                        Some(
                            (whole + dec_value(rest.skip(1)) * pow10(
                                (6 - (rest.len() - 1)) as nat,
                            )) as u64,
                        )
                    } else {
                        None
                    }
                }
            }
        },
    }
}

/// The value of a sub-second digit run scaled to microseconds stays below
/// one second.
pub proof fn lemma_frac_bound(f: Seq<u8>)
    requires
        all_digits(f),
        f.len() <= 6,
    ensures
        0 <= dec_value(f) * pow10((6 - f.len()) as nat) < 1000000,
    decreases f.len(),
{
    lemma_dec_value_nonneg(f);
    lemma_dec_value_upper(f);
    let k = (6 - f.len()) as nat;
    assert(pow10(k) > 0) by {
        lemma_pow10_pos(k);
    }
    assert(dec_value(f) < pow10(f.len())) by {
        lemma_dec_value_upper(f);
    }
    assert(pow10(f.len()) * pow10(k) == pow10(6)) by {
        lemma_pow10_add(f.len(), k);
    }
    lemma_pow10_six();
    assert(dec_value(f) * pow10(k) < pow10(f.len()) * pow10(k)) by (nonlinear_arith)
        requires
            dec_value(f) < pow10(f.len()),
            pow10(k) > 0,
            dec_value(f) >= 0,
    ;
}

/// Ten to any power is positive.
pub proof fn lemma_pow10_pos(k: nat)
    ensures
        pow10(k) > 0,
    decreases k,
{
    if k > 0 {
        lemma_pow10_pos((k - 1) as nat);
    }
}

/// Powers of ten multiply by adding exponents.
pub proof fn lemma_pow10_add(a: nat, b: nat)
    ensures
        pow10(a) * pow10(b) == pow10(a + b),
    decreases a,
{
    if a == 0 {
    } else {
        lemma_pow10_add((a - 1) as nat, b);
        assert(pow10(a) * pow10(b) == 10 * (pow10((a - 1) as nat) * pow10(b)))
            by (nonlinear_arith)
            requires
                pow10(a) == 10 * pow10((a - 1) as nat),
        ;
    }
}

/// A run of digits is worth less than ten to its length.
pub proof fn lemma_dec_value_upper(s: Seq<u8>)
    requires
        all_digits(s),
    ensures
        dec_value(s) < pow10(s.len()),
    decreases s.len(),
{
    if s.len() == 0 {
    } else {
        assert(all_digits(s.drop_last()));
        lemma_dec_value_upper(s.drop_last());
        assert(pow10(s.len()) == 10 * pow10(s.drop_last().len()));
        assert(10 * dec_value(s.drop_last()) + digit_val(s.last()) < 10 * pow10(
            s.drop_last().len(),
        )) by (nonlinear_arith)
            requires
                dec_value(s.drop_last()) < pow10(s.drop_last().len()),
                digit_val(s.last()) <= 9,
        ;
    }
}

/// A parsed time value is below one day of microseconds.
pub proof fn lemma_parse_time_bound(s: Seq<u8>)
    ensures
        spec_parse_time(s) matches Some(v) ==> v < 86400000000,
{
    if spec_parse_time(s) is Some {
        let c = spec_find(s, 58u8, 0).unwrap();
        let hours = s.take(c);
        let rest = s.skip(c + 6);
        lemma_dec_value_nonneg(hours);
        if rest.len() > 0 {
            assert(all_digits(rest.skip(1)));
            assert(rest.skip(1).len() <= 6);
            lemma_frac_bound(rest.skip(1));
        }
    }
}

/// Parse a time string; the result is its value in microseconds.
pub fn parse_time(s: &[u8]) -> (r: Option<u64>)
    ensures
        r == spec_parse_time(s@),
{
    proof {
        crate::text::lemma_find_characterization(s@, 58u8, 0);
    }
    let c = match find_byte(s, 58, 0) {
        None => {
            return None;
        },
        Some(c) => c,
    };
    let hours_v = match parse_u64(&s[0..c]) {
        None => {
            proof {
                assert(s@.subrange(0, c as int) =~= s@.take(c as int));
                if all_digits(s@.take(c as int)) && s@.take(c as int).len() > 0 {
                    assert(dec_value(s@.take(c as int)) > u64::MAX);
                }
            }
            return None;
        },
        Some(v) => v,
    };
    proof {
        assert(s@.subrange(0, c as int) =~= s@.take(c as int));
    }
    if hours_v > 23 {
        return None;
    }
    if s.len() < 6 || c > s.len() - 6 {
        return None;
    }
    let m1 = s[c + 1];
    let m2 = s[c + 2];
    let colon = s[c + 3];
    let s1 = s[c + 4];
    let s2 = s[c + 5];
    if !(48 <= m1 && m1 <= 57 && 48 <= m2 && m2 <= 57 && colon == 58 && 48 <= s1 && s1 <= 57 && 48
        <= s2 && s2 <= 57) {
        return None;
    }
    let mins: u64 = 10 * ((m1 - 48) as u64) + ((m2 - 48) as u64);
    let secs: u64 = 10 * ((s1 - 48) as u64) + ((s2 - 48) as u64);
    if mins > 59 || secs > 59 {
        return None;
    }
    let whole: u64 = (hours_v * 3600 + mins * 60 + secs) * 1000000;
    if c + 6 == s.len() {
        proof {
            assert(s@.skip(c + 6).len() == 0);
        }
        return Some(whole);
    }
    let dot = s[c + 6];
    if dot != 46 {
        proof {
            assert(s@.skip(c + 6)[0] == s@[c + 6]);
        }
        return None;
    }
    let frac_len = s.len() - (c + 7);
    if frac_len > 6 {
        proof {
            assert(s@.skip(c + 6).len() == frac_len + 1);
        }
        return None;
    }
    let frac: u64 = if frac_len == 0 {
        proof {
            assert(s@.skip(c + 6).skip(1) =~= s@.skip(c + 7));
            assert(s@.skip(c + 7).len() == 0);
        }
        0
    } else {
        match parse_u64(&s[c + 7..s.len()]) {
            None => {
                proof {
                    assert(s@.subrange(c + 7, s@.len() as int) =~= s@.skip(c + 7));
                    assert(s@.skip(c + 6).skip(1) =~= s@.skip(c + 7));
                    if all_digits(s@.skip(c + 7)) {
                        crate::text::lemma_render_u64_digits(0);
                        lemma_dec_value_upper(s@.skip(c + 7));
                        lemma_pow10_le(s@.skip(c + 7).len(), 6);
                        lemma_pow10_six();
                    }
                }
                return None;
            },
            Some(f) => {
                proof {
                    assert(s@.subrange(c + 7, s@.len() as int) =~= s@.skip(c + 7));
                    assert(s@.skip(c + 6).skip(1) =~= s@.skip(c + 7));
                    lemma_frac_bound(s@.skip(c + 7));
                }
                f * pow10_u64(6 - frac_len)
            },
        }
    };
    proof {
        let rest = s@.skip(c + 6);
        assert(rest[0] == s@[c + 6]);
        assert(rest.skip(1) =~= s@.skip(c + 7));
        assert(all_digits(rest.skip(1)));
        lemma_frac_bound(rest.skip(1));
    }
    Some(whole + frac)
}

/// Powers of ten are monotone in the exponent.
pub proof fn lemma_pow10_le(a: nat, b: nat)
    requires
        a <= b,
    ensures
        pow10(a) <= pow10(b),
    decreases b,
{
    if a < b {
        lemma_pow10_le(a, (b - 1) as nat);
        lemma_pow10_pos((b - 1) as nat);
    }
}

/// Rendering of a timestamp: whole seconds, a dot, and exactly six
/// sub-second digits.
pub open spec fn spec_render_time(us: u64) -> Seq<u8> {
    spec_render_u64(us as int / 1000000) + seq![46u8] + spec_render_u64_pad(
        us as int % 1000000,
        6,
    )
}

/// Render a timestamp as seconds with six sub-second digits.
pub fn render_time(us: u64) -> (r: Vec<u8>)
    ensures
        r@ == spec_render_time(us),
{
    let mut v = render_u64(us / 1000000);
    v.push(46u8);
    let mut frac = render_u64_pad(us % 1000000, 6);
    v.append(&mut frac);
    proof {
        assert(v@ =~= spec_render_time(us));
    }
    v
}

/// Value of a frame string: its integer digits, read as a decimal number.
/// A leading sign is ignored (a frame index is never negative; the absolute
/// value is taken) and a fractional part is dropped.
pub open spec fn spec_parse_frame(s: Seq<u8>) -> Option<u64> {
    let t = if s.len() > 0 && (s[0] == 45u8 || s[0] == 43u8) {
        s.skip(1)
    } else {
        s
    };
    let digits = match spec_find(t, 46u8, 0) {
        None => t,
        Some(d) => t.take(d),
    };
    let frac_ok = match spec_find(t, 46u8, 0) {
        None => true,
        Some(d) => all_digits(t.skip(d + 1)),
    };
    if digits.len() > 0 && all_digits(digits) && dec_value(digits) <= u64::MAX && frac_ok {
        Some(dec_value(digits) as u64)
    } else {
        None
    }
}

/// Parse a frame string.
pub fn parse_frame(s: &[u8]) -> (r: Option<u64>)
    ensures
        r == spec_parse_frame(s@),
{
    let start: usize = if s.len() > 0 && (s[0] == 45 || s[0] == 43) {
        1
    } else {
        0
    };
    let t = &s[start..s.len()];
    proof {
        if start == 1 {
            assert(t@ =~= s@.skip(1));
        } else {
            assert(t@ =~= s@);
        }
        crate::text::lemma_find_characterization(t@, 46u8, 0);
    }
    let digits_end = match find_byte(t, 46, 0) {
        None => t.len(),
        Some(d) => d,
    };
    let frac_ok = match find_byte(t, 46, 0) {
        None => true,
        Some(d) => {
            let frac = &t[d + 1..t.len()];
            proof {
                assert(frac@ =~= t@.skip(d + 1));
            }
            all_digits_exec(frac)
        },
    };
    if !frac_ok {
        return None;
    }
    let digits = &t[0..digits_end];
    proof {
        match spec_find(t@, 46u8, 0) {
            None => {
                assert(digits@ =~= t@);
            },
            Some(d) => {
                assert(digits@ =~= t@.take(d));
            },
        }
    }
    match parse_u64(digits) {
        None => {
            proof {
                if all_digits(digits@) && digits@.len() > 0 {
                    assert(dec_value(digits@) > u64::MAX);
                }
            }
            None
        },
        Some(v) => Some(v),
    }
}

/// Test that every byte of a slice is a decimal digit.
pub fn all_digits_exec(s: &[u8]) -> (r: bool)
    ensures
        r == all_digits(s@),
{
    let mut i: usize = 0;
    while i < s.len()
        invariant
            0 <= i <= s@.len(),
            forall|j: int| 0 <= j < i ==> is_digit(#[trigger] s@[j]),
        decreases s@.len() - i,
    {
        if s[i] < 48 || s[i] > 57 {
            proof {
                assert(!is_digit(s@[i as int]));
            }
            return false;
        }
        i = i + 1;
    }
    true
}

/// A boundary of a cut interval: a frame number or a timestamp. Both carry
/// a non-negative value that fits a machine word, can be compared, parsed
/// and rendered, and convert to frames and times against media metadata.
pub trait Boundary: Sized + Copy {
    /// The numeric value of the boundary.
    spec fn val(self) -> u64;

    /// The boundary holding value `v`.
    spec fn spec_of(v: u64) -> Self;

    /// The textual form this boundary kind accepts.
    spec fn spec_parse(s: Seq<u8>) -> Option<Self>;

    /// The textual form this boundary kind produces.
    spec fn spec_render(self) -> Seq<u8>;

    /// Building from a value and reading the value back are inverse.
    proof fn lemma_of_val(v: u64)
        ensures
            Self::spec_of(v).val() == v,
    ;

    /// Wrap a value.
    fn of(v: u64) -> (r: Self)
        ensures
            r == Self::spec_of(v),
    ;

    /// The numeric value.
    fn value(self) -> (r: u64)
        ensures
            r == self.val(),
    ;

    /// Order two boundaries by value.
    fn le(self, other: Self) -> (r: bool)
        ensures
            r == (self.val() <= other.val()),
    ;

    /// Add two boundary values; nothing on overflow.
    fn checked_add(self, other: Self) -> (r: Option<Self>)
        ensures
            r is Some <==> self.val() + other.val() <= u64::MAX,
            r matches Some(v) ==> v.val() == self.val() + other.val(),
    ;

    /// Parse the textual form.
    fn parse(s: &[u8]) -> (r: Option<Self>)
        ensures
            r == Self::spec_parse(s@),
    ;

    /// Render the textual form.
    fn render(self) -> (r: Vec<u8>)
        ensures
            r@ == self.spec_render(),
    ;
}

impl Boundary for Frame {
    open spec fn val(self) -> u64 {
        self.n
    }

    open spec fn spec_of(v: u64) -> Self {
        Frame { n: v }
    }

    open spec fn spec_parse(s: Seq<u8>) -> Option<Self> {
        match spec_parse_frame(s) {
            None => None,
            Some(v) => Some(Frame { n: v }),
        }
    }

    open spec fn spec_render(self) -> Seq<u8> {
        spec_render_u64(self.n as int)
    }

    proof fn lemma_of_val(v: u64) {
    }

    fn of(v: u64) -> (r: Self) {
        Frame { n: v }
    }

    fn value(self) -> (r: u64) {
        self.n
    }

    fn le(self, other: Self) -> (r: bool) {
        self.n <= other.n
    }

    fn checked_add(self, other: Self) -> (r: Option<Self>) {
        if self.n <= u64::MAX - other.n {
            Some(Frame { n: self.n + other.n })
        } else {
            None
        }
    }

    fn parse(s: &[u8]) -> (r: Option<Self>) {
        match parse_frame(s) {
            None => None,
            Some(v) => Some(Frame { n: v }),
        }
    }

    fn render(self) -> (r: Vec<u8>) {
        render_u64(self.n)
    }
}

impl Boundary for Time {
    open spec fn val(self) -> u64 {
        self.us
    }

    open spec fn spec_of(v: u64) -> Self {
        Time { us: v }
    }

    open spec fn spec_parse(s: Seq<u8>) -> Option<Self> {
        match spec_parse_time(s) {
            None => None,
            Some(v) => Some(Time { us: v }),
        }
    }

    open spec fn spec_render(self) -> Seq<u8> {
        spec_render_time(self.us)
    }

    proof fn lemma_of_val(v: u64) {
    }

    fn of(v: u64) -> (r: Self) {
        Time { us: v }
    }

    fn value(self) -> (r: u64) {
        self.us
    }

    fn le(self, other: Self) -> (r: bool) {
        self.us <= other.us
    }

    fn checked_add(self, other: Self) -> (r: Option<Self>) {
        if self.us <= u64::MAX - other.us {
            Some(Time { us: self.us + other.us })
        } else {
            None
        }
    }

    fn parse(s: &[u8]) -> (r: Option<Self>) {
        match parse_time(s) {
            None => None,
            Some(v) => Some(Time { us: v }),
        }
    }

    fn render(self) -> (r: Vec<u8>) {
        render_time(self.us)
    }
}

impl Frame {
    /// A frame converts to itself.
    pub fn to_frame(self, _metadata: &Metadata) -> (r: Result<Frame, MetadataError>)
        ensures
            r == Ok::<Frame, MetadataError>(self),
    {
        Ok(self)
    }

    /// Timestamp of the frame, from the metadata table.
    pub fn to_time(self, metadata: &Metadata) -> (r: Result<Time, MetadataError>)
        ensures
            r matches Ok(t) ==> self.n < metadata.spec_times().len() && t.us
                == metadata.spec_times()[self.n as int],
            r is Err <==> self.n >= metadata.spec_times().len(),
    {
        match metadata.frame_to_time(self.n) {
            Ok(t) => Ok(Time { us: t }),
            Err(e) => Err(e),
        }
    }
}

impl Time {
    /// Frame whose timestamp is nearest at or above this time (clamped to
    /// the last frame); fails exactly when the file has no frames.
    pub fn to_frame(self, metadata: &Metadata) -> (r: Result<Frame, MetadataError>)
        requires
            metadata.wf(),
        ensures
            r is Err <==> metadata.spec_times().len() == 0,
            r matches Ok(f) ==> {
                &&& (f.n as int) < metadata.spec_times().len()
                &&& (metadata.spec_times()[f.n as int] >= self.us || f.n
                    == metadata.spec_times().len() - 1)
                &&& forall|j: int| 0 <= j < f.n ==> metadata.spec_times()[j] < self.us
            },
    {
        match metadata.time_to_frame(self.us) {
            Ok(f) => Ok(Frame { n: f }),
            Err(e) => Err(e),
        }
    }

    /// A time converts to itself.
    pub fn to_time(self, _metadata: &Metadata) -> (r: Result<Time, MetadataError>)
        ensures
            r == Ok::<Time, MetadataError>(self),
    {
        Ok(self)
    }
}

/// A cut interval: a pair of same-typed boundaries with the lower one
/// first. Construction normalizes the order, so the invariant `wf` holds
/// for every interval that leaves this module.
pub struct Interval<B> {
    /// The lower boundary.
    pub from: B,
    /// The upper boundary.
    pub to: B,
}

impl<B: Copy> Clone for Interval<B> {
    fn clone(&self) -> (r: Self)
        ensures
            r == *self,
    {
        Interval { from: self.from, to: self.to }
    }
}

impl<B: Copy> Copy for Interval<B> {

}

impl<B: Boundary> Interval<B> {
    /// The lower boundary.
    pub open spec fn spec_from(self) -> B {
        self.from
    }

    /// The upper boundary.
    pub open spec fn spec_to(self) -> B {
        self.to
    }

    /// The invariant: the lower boundary does not exceed the upper one.
    pub open spec fn wf(self) -> bool {
        self.spec_from().val() <= self.spec_to().val()
    }

    /// The length of the interval.
    pub open spec fn spec_len(self) -> int {
        self.spec_to().val() - self.spec_from().val()
    }

    /// The interval `[a, b]`, with the boundaries swapped when given in
    /// descending order.
    pub open spec fn spec_new(a: B, b: B) -> Interval<B> {
        if a.val() <= b.val() {
            Interval { from: a, to: b }
        } else {
            Interval { from: b, to: a }
        }
    }

    /// Build an interval from two boundaries, normalizing their order.
    pub fn from_from_to(a: B, b: B) -> (r: Interval<B>)
        ensures
            r == Self::spec_new(a, b),
            r.wf(),
    {
        if a.le(b) {
            Interval { from: a, to: b }
        } else {
            Interval { from: b, to: a }
        }
    }

    /// Build an interval from a start and a duration; nothing when the sum
    /// leaves the value range.
    pub fn from_start_duration(start: B, duration: B) -> (r: Option<Interval<B>>)
        ensures
            r is Some <==> start.val() + duration.val() <= u64::MAX,
            r matches Some(iv) ==> iv.spec_from() == start && iv.spec_to().val() == start.val()
                + duration.val() && iv.wf(),
    {
        match start.checked_add(duration) {
            Some(to) => Some(Interval { from: start, to }),
            None => None,
        }
    }

    /// The lower boundary.
    pub fn from(&self) -> (r: B)
        ensures
            r == self.spec_from(),
    {
        self.from
    }

    /// The upper boundary.
    pub fn to(&self) -> (r: B)
        ensures
            r == self.spec_to(),
    {
        self.to
    }

    /// Length of the interval.
    pub fn len(&self) -> (r: u64)
        requires
            self.wf(),
        ensures
            r == self.spec_len(),
    {
        self.to.value() - self.from.value()
    }

    /// Whether the interval is empty.
    pub fn is_empty(&self) -> (r: bool)
        requires
            self.wf(),
        ensures
            r == (self.spec_len() == 0),
    {
        self.len() == 0
    }
}

impl Interval<Frame> {
    /// Convert a frame interval to a time interval through the metadata
    /// table; fails exactly when the upper frame lies beyond the table.
    pub fn to_times(&self, metadata: &Metadata) -> (r: Result<Interval<Time>, MetadataError>)
        requires
            metadata.wf(),
            self.wf(),
        ensures
            r is Err <==> self.spec_to().val() >= metadata.spec_times().len(),
            r matches Ok(t) ==> {
                &&& t.wf()
                &&& t.spec_from().val() == metadata.spec_times()[self.spec_from().val() as int]
                &&& t.spec_to().val() == metadata.spec_times()[self.spec_to().val() as int]
            },
    {
        let from_t = match self.from.to_time(metadata) {
            Ok(t) => t,
            Err(e) => {
                return Err(e);
            },
        };
        let to_t = match self.to.to_time(metadata) {
            Ok(t) => t,
            Err(e) => {
                return Err(e);
            },
        };
        proof {
            if self.spec_from().val() < self.spec_to().val() {
                assert(metadata.spec_times()[self.spec_from().val() as int]
                    < metadata.spec_times()[self.spec_to().val() as int]);
            }
        }
        Ok(Interval { from: from_t, to: to_t })
    }

    /// The largest key-frame-aligned sub-interval, or nothing when no key
    /// frame lies inside the interval.
    pub fn to_key_frames(&self, metadata: &Metadata) -> (r: Option<Interval<Frame>>)
        requires
            metadata.wf(),
            self.wf(),
        ensures
            r is Some <==> exists|k: u64|
                metadata.spec_is_key_frame(k) && self.spec_from().val() <= k
                    <= self.spec_to().val(),
            r matches Some(j) ==> {
                &&& j.wf()
                &&& self.spec_from().val() <= j.spec_from().val()
                &&& j.spec_to().val() <= self.spec_to().val()
                &&& metadata.spec_is_key_frame(j.spec_from().n)
                &&& metadata.spec_is_key_frame(j.spec_to().n)
                &&& forall|k: u64|
                    metadata.spec_is_key_frame(k) && self.spec_from().val() <= k
                        <= self.spec_to().val() ==> j.spec_from().val() <= k <= j.spec_to().val()
            },
    {
        let lo = match metadata.key_frame_greater_or_equal_until_limit(self.from.n, self.to.n) {
            Some(k) => k,
            None => {
                return None;
            },
        };
        match metadata.key_frame_less_or_equal_until_limit(self.to.n, self.from.n) {
            Some(hi) => {
                proof {
                    assert(lo <= hi);
                }
                Some(Interval { from: Frame { n: lo }, to: Frame { n: hi } })
            },
            None => {
                proof {
                    assert(false);
                }
                None
            },
        }
    }
}

impl Interval<Time> {
    /// Convert a time interval to a frame interval through the metadata
    /// table: each boundary becomes its nearest frame. Fails exactly when
    /// the file has no frames.
    pub fn to_frames(&self, metadata: &Metadata) -> (r: Result<Interval<Frame>, MetadataError>)
        requires
            metadata.wf(),
            self.wf(),
        ensures
            r is Err <==> metadata.spec_times().len() == 0,
            r matches Ok(f) ==> f.wf() && crate::metadata::spec_nearest_frame(
                metadata,
                self.spec_from().us,
                f.spec_from().n,
            ) && crate::metadata::spec_nearest_frame(metadata, self.spec_to().us, f.spec_to().n),
    {
        let from_f = match self.from.to_frame(metadata) {
            Ok(f) => f,
            Err(e) => {
                return Err(e);
            },
        };
        let to_f = match self.to.to_frame(metadata) {
            Ok(f) => f,
            Err(e) => {
                return Err(e);
            },
        };
        proof {
            if from_f.n > to_f.n {
                assert(metadata.spec_times()[to_f.n as int] < self.spec_from().val());
                assert(false);
            }
        }
        Ok(Interval { from: from_f, to: to_f })
    }
}

/// One interval in bracket syntax, `[x,y]`: the boundaries parsed by their
/// own grammar, normalized into an interval. Neither side may be empty or
/// hold a bracket or a further comma.
pub open spec fn spec_parse_interval<B: Boundary>(s: Seq<u8>) -> Option<Interval<B>> {
    if s.len() < 2 || s[0] != 91u8 || s[s.len() - 1] != 93u8 {
        None
    } else {
        let inner = s.subrange(1, s.len() - 1);
        match spec_find(inner, 44u8, 0) {
            None => None,
            Some(d) => {
                if spec_find(inner, 44u8, d + 1) is Some || spec_find(inner, 91u8, 0) is Some
                    || spec_find(inner, 93u8, 0) is Some {
                    None
                } else {
                    let x = inner.take(d);
                    let y = inner.skip(d + 1);
                    if x.len() == 0 || y.len() == 0 {
                        None
                    } else {
                        match (B::spec_parse(x), B::spec_parse(y)) {
                            (Some(a), Some(b)) => Some(Interval::<B>::spec_new(a, b)),
                            _ => None,
                        }
                    }
                }
            },
        }
    }
}

/// Parse one interval in bracket syntax.
pub fn parse_interval<B: Boundary>(s: &[u8]) -> (r: Option<Interval<B>>)
    ensures
        r == spec_parse_interval::<B>(s@),
        r matches Some(iv) ==> iv.wf(),
{
    if s.len() < 2 {
        return None;
    }
    if s[0] != 91 || s[s.len() - 1] != 93 {
        return None;
    }
    let inner = &s[1..s.len() - 1];
    proof {
        assert(inner@ =~= s@.subrange(1, s@.len() - 1));
    }
    let d = match find_byte(inner, 44, 0) {
        None => {
            return None;
        },
        Some(d) => d,
    };
    if find_byte(inner, 44, d + 1).is_some() || find_byte(inner, 91, 0).is_some() || find_byte(
        inner,
        93,
        0,
    ).is_some() {
        return None;
    }
    if d == 0 || d + 1 == inner.len() {
        return None;
    }
    let x = &inner[0..d];
    let y = &inner[d + 1..inner.len()];
    proof {
        assert(x@ =~= inner@.take(d as int));
        assert(y@ =~= inner@.skip(d + 1));
    }
    let a = match B::parse(x) {
        None => {
            return None;
        },
        Some(a) => a,
    };
    let b = match B::parse(y) {
        None => {
            return None;
        },
        Some(b) => b,
    };
    Some(Interval::<B>::from_from_to(a, b))
}

/// A whole bracket list: a run of intervals, each read by
/// `spec_parse_interval`, the zero-length ones dropped.
pub open spec fn spec_parse_intervals<B: Boundary>(s: Seq<u8>) -> Option<Seq<Interval<B>>>
    decreases s.len(),
{
    if s.len() == 0 {
        Some(Seq::empty())
    } else {
        match spec_find(s, 93u8, 0) {
            None => None,
            Some(e) => if !(0 <= e < s.len()) {
                None
            } else {
                match spec_parse_interval::<B>(s.take(e + 1)) {
                    None => None,
                    Some(iv) => {
                        match spec_parse_intervals::<B>(s.skip(e + 1)) {
                            None => None,
                            Some(tail) => Some(
                                if iv.spec_len() == 0 {
                                    tail
                                } else {
                                    seq![iv] + tail
                                },
                            ),
                        }
                    },
                }
            },
        }
    }
}

/// Every interval of a parsed bracket list is well-formed and has positive
/// length: zero-length intervals are dropped during parsing.
pub proof fn lemma_parsed_intervals_positive<B: Boundary>(s: Seq<u8>)
    ensures
        spec_parse_intervals::<B>(s) matches Some(ivs) ==> forall|i: int|
            0 <= i < ivs.len() ==> (#[trigger] ivs[i]).wf() && ivs[i].spec_len() > 0,
    decreases s.len(),
{
    if s.len() > 0 {
        match spec_find(s, 93u8, 0) {
            None => {},
            Some(e) => {
                crate::text::lemma_find_characterization(s, 93u8, 0);
                lemma_parsed_intervals_positive::<B>(s.skip(e + 1));
            },
        }
    }
}

/// Errors of interval-string handling.
#[derive(Clone, Copy, PartialEq, Eq, Structural, Debug)]
pub enum IntervalError {
    /// The string is not a well-formed list of intervals.
    InvalidIntervals,
}

/// Parse a non-empty bracket list of intervals, dropping the zero-length
/// ones.
pub fn intervals_from_str<B: Boundary>(s: &[u8]) -> (r: Result<Vec<Interval<B>>, IntervalError>)
    ensures
        r is Ok <==> s@.len() > 0 && spec_parse_intervals::<B>(s@) is Some,
        r matches Ok(v) ==> Some(v@) == spec_parse_intervals::<B>(s@),
{
    if s.len() == 0 {
        return Err(IntervalError::InvalidIntervals);
    }
    match parse_intervals_rec(s) {
        Some(v) => Ok(v),
        None => Err(IntervalError::InvalidIntervals),
    }
}

/// Recursive worker for `intervals_from_str`.
fn parse_intervals_rec<B: Boundary>(s: &[u8]) -> (r: Option<Vec<Interval<B>>>)
    ensures
        match r {
            Some(v) => Some(v@) == spec_parse_intervals::<B>(s@),
            None => spec_parse_intervals::<B>(s@) is None,
        },
    decreases s@.len(),
{
    if s.len() == 0 {
        let v: Vec<Interval<B>> = Vec::new();
        proof {
            assert(v@ =~= Seq::<Interval<B>>::empty());
        }
        return Some(v);
    }
    let e = match find_byte(s, 93, 0) {
        None => {
            return None;
        },
        Some(e) => e,
    };
    let piece = &s[0..e + 1];
    proof {
        assert(piece@ =~= s@.take(e + 1));
    }
    let iv = match parse_interval::<B>(piece) {
        None => {
            return None;
        },
        Some(iv) => iv,
    };
    let rest = &s[e + 1..s.len()];
    proof {
        assert(rest@ =~= s@.skip(e + 1));
    }
    let tail = match parse_intervals_rec::<B>(rest) {
        None => {
            return None;
        },
        Some(t) => t,
    };
    if iv.is_empty() {
        Some(tail)
    } else {
        let mut v: Vec<Interval<B>> = Vec::new();
        v.push(iv);
        let mut tail = tail;
        v.append(&mut tail);
        proof {
            assert(v@ =~= seq![iv] + spec_parse_intervals::<B>(s@.skip(e + 1)).unwrap());
        }
        Some(v)
    }
}

/// Validity of an ordered interval list: every interval keeps its lower
/// boundary first, and each one ends no later than its successor begins.
pub open spec fn spec_intervals_valid<B: Boundary>(ivs: Seq<Interval<B>>) -> bool {
    &&& forall|i: int| 0 <= i < ivs.len() ==> (#[trigger] ivs[i]).wf()
    &&& forall|i: int|
        0 <= i && i + 1 < ivs.len() ==> (#[trigger] ivs[i]).spec_to().val() <= ivs[
            i + 1
        ].spec_from().val()
}

/// Check an interval list for validity: order within each interval and no
/// overlap between neighbours.
pub fn intervals_valid<B: Boundary>(ivs: &Vec<Interval<B>>) -> (r: bool)
    ensures
        r == spec_intervals_valid(ivs@),
{
    let mut i: usize = 0;
    while i < ivs.len()
        invariant
            0 <= i <= ivs@.len(),
            forall|j: int| 0 <= j < i ==> (#[trigger] ivs@[j]).wf(),
            forall|j: int|
                0 <= j && j + 1 < ivs@.len() && j + 1 <= i ==> (#[trigger] ivs@[j]).spec_to().val()
                    <= ivs@[j + 1].spec_from().val(),
        decreases ivs@.len() - i,
    {
        let iv = ivs[i];
        if !iv.from().le(iv.to()) {
            proof {
                assert(!ivs@[i as int].wf());
            }
            return false;
        }
        if i + 1 < ivs.len() {
            let next = ivs[i + 1];
            if !iv.to().le(next.from()) {
                proof {
                    assert(ivs@[i as int].spec_to().val() > ivs@[i + 1].spec_from().val());
                }
                return false;
            }
        }
        i = i + 1;
    }
    true
}

/// A number below ten to the `k` renders in at most `k` digits.
pub proof fn lemma_render_len_le(n: int, k: int)
    requires
        n >= 0,
        k >= 1,
        n < pow10(k as nat),
    ensures
        crate::text::spec_render_u64(n).len() <= k,
    decreases k,
{
    if n >= 10 {
        if k == 1 {
            assert(pow10(1) == 10) by {
                lemma_pow10_six();
            }
            assert(false);
        }
        assert(n / 10 < pow10((k - 1) as nat)) by (nonlinear_arith)
            requires
                n < pow10(k as nat),
                pow10(k as nat) == 10 * pow10((k - 1) as nat),
                n >= 10,
        ;
        lemma_render_len_le(n / 10, k - 1);
    }
}

} // verus!
