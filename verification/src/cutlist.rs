//! The cut-list model: an ordered set of keep-intervals for one recording,
//! carried in a frame-indexed view, a time-indexed view, or both; its
//! validator, its parsers (bracket strings, the structured text format of
//! the cut-list provider) and its serializer; and the selection of provider
//! headers by rating.

use vstd::prelude::*;
use vstd::multiset::Multiset;

use crate::interval::{
    Boundary, Frame, Interval, Time, intervals_from_str, intervals_valid, spec_intervals_valid,
    spec_parse_intervals,
};
use crate::text::{bytes_of, spec_starts_with, starts_with};

verus! {

/// A cut-list rating.
pub type Rating = u8;

/// A provider-side cut-list identifier.
pub type ID = u64;

/// Which intervals a cut list speaks in.
#[derive(Clone, Copy, PartialEq, Eq, Structural, Debug)]
pub enum Kind {
    Frames,
    Time,
}

impl Kind {
    /// Read a kind name: `frames` or `time`.
    pub fn from_bytes(s: &[u8]) -> (r: Option<Kind>)
        ensures
            r == Some(Kind::Frames) <==> s@ == bytes_of("frames"@),
            r == Some(Kind::Time) <==> s@ == bytes_of("time"@),
            r is None <==> s@ != bytes_of("frames"@) && s@ != bytes_of("time"@),
    {
        proof {
            reveal_strlit("frames");
            reveal_strlit("time");
            assert(bytes_of("frames"@).len() != bytes_of("time"@).len());
        }
        let frames = crate::text::lit_bytes("frames");
        let time = crate::text::lit_bytes("time");
        if crate::text::bytes_eq(s, frames.as_slice()) {
            Some(Kind::Frames)
        } else if crate::text::bytes_eq(s, time.as_slice()) {
            Some(Kind::Time)
        } else {
            None
        }
    }
}

/// How a cut list is to be obtained.
pub enum AccessType {
    /// Fetch candidates from the provider and pick automatically.
    Auto,
    /// A bracket-syntax intervals string given directly.
    Direct(Vec<u8>),
    /// A structured-text file at the given path.
    File(Vec<u8>),
    /// Fetch from the provider by identifier.
    ID(ID),
}

/// What controls cut-list handling during a cut.
pub struct Ctrl {
    /// Whether a self-made list is submitted to the provider afterwards.
    pub submit: bool,
    /// Rating given to a submitted list.
    pub rating: Rating,
    /// Least provider rating accepted during automatic selection.
    pub min_rating: Option<Rating>,
    /// Access token for submission.
    pub access_token: Option<Vec<u8>>,
    /// How to obtain the list.
    pub access_type: AccessType,
}

/// Errors of cut-list handling.
#[derive(Clone, Copy, PartialEq, Eq, Structural, Debug)]
pub enum CutlistError {
    /// The `General` section or its cut count is missing or unreadable.
    NoNumberOfCuts,
    /// A cut-list identifier is present but not a number.
    InvalidId,
    /// A cut is missing, names no complete view pair, deviates from the
    /// views the first cut established, or holds unreadable values.
    InvalidCut,
    /// The list holds no intervals.
    NoIntervals,
    /// Both views are present but disagree on the number of intervals.
    CountMismatch,
    /// A view is out of order or overlaps.
    IntervalsInvalid,
    /// An intervals string does not follow the bracket grammar.
    InvalidIntervalString,
    /// The provider answered that the requested list does not exist.
    IdNotFound,
    /// A submission response carried no list identifier.
    NoSubmissionId,
}

/// A cut list: an optional provider identifier and at least one of a
/// frame-indexed and a time-indexed view of the same cuts.
pub struct Cutlist {
    /// Identifier assigned by the provider, when known.
    pub id: Option<ID>,
    /// The frame-indexed view.
    pub frame_intervals: Option<Vec<Interval<Frame>>>,
    /// The time-indexed view.
    pub time_intervals: Option<Vec<Interval<Time>>>,
}

impl Cutlist {
    /// The provider identifier.
    pub open spec fn spec_id(&self) -> Option<ID> {
        self.id
    }

    /// The frame-indexed view.
    pub open spec fn spec_frames(&self) -> Option<Seq<Interval<Frame>>> {
        match self.frame_intervals {
            Some(v) => Some(v@),
            None => None,
        }
    }

    /// The time-indexed view.
    pub open spec fn spec_times(&self) -> Option<Seq<Interval<Time>>> {
        match self.time_intervals {
            Some(v) => Some(v@),
            None => None,
        }
    }

    /// Number of intervals of the frame view, zero when absent.
    pub open spec fn spec_frame_count(&self) -> int {
        match self.spec_frames() {
            Some(v) => v.len() as int,
            None => 0,
        }
    }

    /// Number of intervals of the time view, zero when absent.
    pub open spec fn spec_time_count(&self) -> int {
        match self.spec_times() {
            Some(v) => v.len() as int,
            None => 0,
        }
    }

    /// Validity of a cut list: it holds at least one interval, both views
    /// agree on the count when both are present, and each view is ordered
    /// without overlap.
    pub open spec fn spec_valid(&self) -> bool {
        &&& (self.spec_frames() is Some || self.spec_times() is Some)
        &&& self.spec_frame_count() + self.spec_time_count() > 0
        &&& (self.spec_frames() is Some && self.spec_times() is Some ==> self.spec_frame_count()
            == self.spec_time_count())
        &&& (self.spec_frames() matches Some(v) ==> spec_intervals_valid(v))
        &&& (self.spec_times() matches Some(v) ==> spec_intervals_valid(v))
    }

    /// An empty cut list without any view.
    pub fn new_empty() -> (r: Cutlist)
        ensures
            r.spec_id() is None,
            r.spec_frames() is None,
            r.spec_times() is None,
    {
        Cutlist { id: None, frame_intervals: None, time_intervals: None }
    }

    /// The provider identifier, when known.
    pub fn id(&self) -> (r: Option<ID>)
        ensures
            r == self.spec_id(),
    {
        self.id
    }

    /// Whether the list carries a frame-indexed view.
    pub fn has_frame_intervals(&self) -> (r: bool)
        ensures
            r == (self.spec_frames() is Some),
    {
        self.frame_intervals.is_some()
    }

    /// Whether the list carries a time-indexed view.
    pub fn has_time_intervals(&self) -> (r: bool)
        ensures
            r == (self.spec_times() is Some),
    {
        self.time_intervals.is_some()
    }

    /// The frame-indexed view; an error when the list has none.
    pub fn frame_intervals(&self) -> (r: Result<&Vec<Interval<Frame>>, CutlistError>)
        ensures
            r is Ok <==> self.spec_frames() is Some,
            r matches Ok(v) ==> Some(v@) == self.spec_frames(),
            r matches Err(e) ==> e == CutlistError::NoIntervals,
    {
        match &self.frame_intervals {
            Some(v) => Ok(v),
            None => Err(CutlistError::NoIntervals),
        }
    }

    /// The time-indexed view; an error when the list has none.
    pub fn time_intervals(&self) -> (r: Result<&Vec<Interval<Time>>, CutlistError>)
        ensures
            r is Ok <==> self.spec_times() is Some,
            r matches Ok(v) ==> Some(v@) == self.spec_times(),
            r matches Err(e) ==> e == CutlistError::NoIntervals,
    {
        match &self.time_intervals {
            Some(v) => Ok(v),
            None => Err(CutlistError::NoIntervals),
        }
    }

    /// The kinds of views the list carries, frames first.
    pub fn kinds(&self) -> (r: Vec<Kind>)
        ensures
            r@.contains(Kind::Frames) <==> self.spec_frames() is Some,
            r@.contains(Kind::Time) <==> self.spec_times() is Some,
    {
        let mut r: Vec<Kind> = Vec::new();
        if self.frame_intervals.is_some() {
            r.push(Kind::Frames);
        }
        if self.time_intervals.is_some() {
            r.push(Kind::Time);
        }
        proof {
            if self.spec_frames() is Some {
                assert(r@[0] == Kind::Frames);
            }
            if self.spec_times() is Some {
                assert(r@[r@.len() - 1] == Kind::Time);
            }
            if !(self.spec_frames() is Some) {
                assert(forall|i: int| 0 <= i < r@.len() ==> r@[i] != Kind::Frames);
            }
            if !(self.spec_times() is Some) {
                assert(forall|i: int| 0 <= i < r@.len() ==> r@[i] != Kind::Time);
            }
        }
        r
    }

    /// Number of cuts: the count of whichever view is present (they agree
    /// on a valid list).
    pub fn len(&self) -> (r: usize)
        ensures
            self.spec_frames() is Some ==> r == self.spec_frame_count(),
            self.spec_frames() is None ==> r == self.spec_time_count(),
    {
        match &self.frame_intervals {
            Some(v) => v.len(),
            None => match &self.time_intervals {
                Some(v) => v.len(),
                None => 0,
            },
        }
    }

    /// Check the list: it must hold at least one interval, its views must
    /// agree on the count, and each view must be ordered without overlap.
    pub fn validate(&self) -> (r: Result<(), CutlistError>)
        ensures
            r is Ok <==> self.spec_valid(),
            r == Err::<(), CutlistError>(CutlistError::NoIntervals) <==> !(self.spec_frames()
                is Some || self.spec_times() is Some) || self.spec_frame_count()
                + self.spec_time_count() == 0,
            r == Err::<(), CutlistError>(CutlistError::CountMismatch) <==> ((self.spec_frames()
                is Some || self.spec_times() is Some) && self.spec_frame_count()
                + self.spec_time_count() > 0 && (self.spec_frames() is Some && self.spec_times()
                is Some && self.spec_frame_count() != self.spec_time_count())),
            r matches Err(e) ==> e == CutlistError::NoIntervals || e == CutlistError::CountMismatch
                || e == CutlistError::IntervalsInvalid,
    {
        let nf: usize = match &self.frame_intervals {
            Some(v) => v.len(),
            None => 0,
        };
        let nt: usize = match &self.time_intervals {
            Some(v) => v.len(),
            None => 0,
        };
        if self.frame_intervals.is_none() && self.time_intervals.is_none() {
            return Err(CutlistError::NoIntervals);
        }
        if nf == 0 && nt == 0 {
            return Err(CutlistError::NoIntervals);
        }
        if self.frame_intervals.is_some() && self.time_intervals.is_some() && nf != nt {
            return Err(CutlistError::CountMismatch);
        }
        if let Some(v) = &self.frame_intervals {
            if !intervals_valid(v) {
                return Err(CutlistError::IntervalsInvalid);
            }
        }
        if let Some(v) = &self.time_intervals {
            if !intervals_valid(v) {
                return Err(CutlistError::IntervalsInvalid);
            }
        }
        Ok(())
    }

    /// Whether an intervals string follows the grammar: a kind name,
    /// a colon, and a non-empty well-formed bracket list.
    pub open spec fn spec_intervals_str_ok(s: Seq<u8>) -> bool {
        ||| (spec_starts_with(s, bytes_of("frames:"@)) && s.skip(7).len() > 0
            && spec_parse_intervals::<Frame>(s.skip(7)) is Some)
        ||| (!spec_starts_with(s, bytes_of("frames:"@)) && spec_starts_with(
            s,
            bytes_of("time:"@),
        ) && s.skip(5).len() > 0 && spec_parse_intervals::<Time>(s.skip(5)) is Some)
    }

    /// Build a cut list from an intervals string, `frames:[..][..]` or
    /// `time:[..][..]`, and validate it. The list carries exactly the view
    /// the kind names; zero-length intervals are dropped; an invalid result
    /// (no intervals left, or overlap) is rejected.
    pub fn try_from_intervals(s: &[u8]) -> (r: Result<Cutlist, CutlistError>)
        ensures
            r matches Ok(c) ==> {
                &&& c.spec_valid()
                &&& c.spec_id() is None
                &&& (spec_starts_with(s@, bytes_of("frames:"@)) ==> c.spec_frames()
                    == spec_parse_intervals::<Frame>(s@.skip(7)) && c.spec_times() is None)
                &&& (!spec_starts_with(s@, bytes_of("frames:"@)) ==> c.spec_times()
                    == spec_parse_intervals::<Time>(s@.skip(5)) && c.spec_frames() is None
                    && spec_starts_with(s@, bytes_of("time:"@)))
            },
            r is Err <==> !Self::spec_intervals_str_ok(s@) || (spec_starts_with(
                s@,
                bytes_of("frames:"@),
            ) && !Self::spec_frame_view_valid(spec_parse_intervals::<Frame>(s@.skip(7)))) || (
            !spec_starts_with(s@, bytes_of("frames:"@)) && spec_starts_with(
                s@,
                bytes_of("time:"@),
            ) && !Self::spec_time_view_valid(spec_parse_intervals::<Time>(s@.skip(5)))),
            r matches Err(e) ==> (e == CutlistError::InvalidIntervalString <==> !Self::spec_intervals_str_ok(
                s@,
            )),
    {
        proof {
            reveal_strlit("frames:");
            reveal_strlit("time:");
        }
        let frames_prefix = crate::text::lit_bytes("frames:");
        let time_prefix = crate::text::lit_bytes("time:");
        let mut cutlist = Cutlist { id: None, frame_intervals: None, time_intervals: None };
        if starts_with(s, frames_prefix.as_slice()) {
            let rest = &s[7..s.len()];
            proof {
                assert(rest@ =~= s@.skip(7));
            }
            match intervals_from_str::<Frame>(rest) {
                Ok(ivs) => {
                    cutlist.frame_intervals = Some(ivs);
                },
                Err(_) => {
                    return Err(CutlistError::InvalidIntervalString);
                },
            }
        } else if starts_with(s, time_prefix.as_slice()) {
            let rest = &s[5..s.len()];
            proof {
                assert(rest@ =~= s@.skip(5));
            }
            match intervals_from_str::<Time>(rest) {
                Ok(ivs) => {
                    cutlist.time_intervals = Some(ivs);
                },
                Err(_) => {
                    return Err(CutlistError::InvalidIntervalString);
                },
            }
        } else {
            return Err(CutlistError::InvalidIntervalString);
        }
        match cutlist.validate() {
            Ok(_) => Ok(cutlist),
            Err(e) => {
                proof {
                    assert(e != CutlistError::InvalidIntervalString);
                }
                Err(e)
            },
        }
    }

    /// Validity of a list carrying only the given frame view.
    pub open spec fn spec_frame_view_valid(v: Option<Seq<Interval<Frame>>>) -> bool {
        match v {
            Some(ivs) => ivs.len() > 0 && spec_intervals_valid(ivs),
            None => false,
        }
    }

    /// Validity of a list carrying only the given time view.
    pub open spec fn spec_time_view_valid(v: Option<Seq<Interval<Time>>>) -> bool {
        match v {
            Some(ivs) => ivs.len() > 0 && spec_intervals_valid(ivs),
            None => false,
        }
    }
}

/// A provider header as the wire carries it: the list identifier and the
/// textual rating, author rating and error-count fields.
pub struct RawProviderHeader {
    /// Identifier of the cut list at the provider.
    pub id: ID,
    /// The community rating, as text.
    pub rating: Vec<u8>,
    /// The rating the author gave, as text.
    pub rating_by_author: Vec<u8>,
    /// Number of reported errors, as text.
    pub errors: Vec<u8>,
}

/// A selected provider header: the list identifier and its rating in
/// millionths.
#[derive(Clone, Copy, PartialEq, Eq, Structural, Debug)]
pub struct ProviderHeader {
    /// Identifier of the cut list at the provider.
    pub id: ID,
    /// The rating, in millionths; negative when the provider's text was.
    pub rating_millionths: i64,
}

impl ProviderHeader {
    /// The identifier of the cut list.
    pub open spec fn spec_id(&self) -> ID {
        self.id
    }

    /// The rating, in millionths.
    pub open spec fn spec_rating(&self) -> i64 {
        self.rating_millionths
    }

    /// The identifier of the cut list.
    pub fn id(&self) -> (r: ID)
        ensures
            r == self.spec_id(),
    {
        self.id
    }

    /// The rating, in millionths.
    pub fn rating_millionths(&self) -> (r: i64)
        ensures
            r == self.spec_rating(),
    {
        self.rating_millionths
    }
}

/// Value of a decimal string in millionths: optional sign (the absolute
/// value is taken), integer digits, and an optional fractional part of
/// which the first six digits count.
pub open spec fn spec_parse_decimal_millionths(s: Seq<u8>) -> Option<u64> {
    let t = if s.len() > 0 && (s[0] == 45u8 || s[0] == 43u8) {
        s.skip(1)
    } else {
        s
    };
    match crate::text::spec_find(t, 46u8, 0) {
        None => if t.len() > 0 && crate::text::all_digits(t) && crate::text::dec_value(t) * 1000000
            <= u64::MAX {
            Some((crate::text::dec_value(t) * 1000000) as u64)
        } else {
            None
        },
        Some(d) => {
            let digits = t.take(d);
            let frac = t.skip(d + 1);
            let frac6 = if frac.len() <= 6 {
                frac
            } else {
                frac.take(6)
            };
            let value = crate::text::dec_value(digits) * 1000000 + crate::text::dec_value(frac6)
                * crate::interval::pow10((6 - frac6.len()) as nat);
            if digits.len() > 0 && crate::text::all_digits(digits) && crate::text::all_digits(frac)
                && value <= u64::MAX {
                Some(value as u64)
            } else {
                None
            }
        },
    }
}

/// Parse a decimal string into millionths.
pub fn parse_decimal_millionths(s: &[u8]) -> (r: Option<u64>)
    ensures
        r == spec_parse_decimal_millionths(s@),
{
    let start: usize = if s.len() > 0 && (s[0] == 45 || s[0] == 43) {
        1
    } else {
        0
    };
    let t = &s[start..s.len()];
    proof {
        if start == 1 {
            assert(t@ =~= s@.skip(1));
        } else {
            assert(t@ =~= s@);
        }
        crate::text::lemma_find_characterization(t@, 46u8, 0);
    }
    let d = match crate::text::find_byte(t, 46, 0) {
        None => {
            let v = match crate::text::parse_u64(t) {
                None => {
                    proof {
                        if crate::text::all_digits(t@) && t@.len() > 0 {
                            assert(crate::text::dec_value(t@) * 1000000 >= crate::text::dec_value(
                                t@,
                            )) by (nonlinear_arith)
                                requires
                                    crate::text::dec_value(t@) >= 0,
                            ;
                        }
                    }
                    return None;
                },
                Some(v) => v,
            };
            if v > u64::MAX / 1000000 {
                return None;
            }
            return Some(v * 1000000);
        },
        Some(d) => d,
    };
    let digits = &t[0..d];
    let frac = &t[d + 1..t.len()];
    proof {
        assert(digits@ =~= t@.take(d as int));
        assert(frac@ =~= t@.skip(d + 1));
    }
    if !crate::interval::all_digits_exec(frac) {
        return None;
    }
    let frac6_len: usize = if frac.len() <= 6 {
        frac.len()
    } else {
        6
    };
    let frac6 = &frac[0..frac6_len];
    proof {
        if frac@.len() <= 6 {
            assert(frac6@ =~= frac@);
        } else {
            assert(frac6@ =~= frac@.take(6));
        }
    }
    let intpart = match crate::text::parse_u64(digits) {
        None => {
            proof {
                if crate::text::all_digits(digits@) && digits@.len() > 0 {
                    crate::text::lemma_dec_value_nonneg(digits@);
                    assert(crate::text::dec_value(digits@) * 1000000 >= crate::text::dec_value(
                        digits@,
                    )) by (nonlinear_arith)
                        requires
                            crate::text::dec_value(digits@) >= 0,
                    ;
                    crate::text::lemma_dec_value_nonneg(frac6@);
                    crate::interval::lemma_pow10_pos((6 - frac6@.len()) as nat);
                    assert(crate::text::dec_value(frac6@) * crate::interval::pow10(
                        (6 - frac6@.len()) as nat,
                    ) >= 0) by (nonlinear_arith)
                        requires
                            crate::text::dec_value(frac6@) >= 0,
                            crate::interval::pow10((6 - frac6@.len()) as nat) > 0,
                    ;
                }
            }
            return None;
        },
        Some(v) => v,
    };
    let fracval = if frac6.len() == 0 {
        0u64
    } else {
        match crate::text::parse_u64(frac6) {
            None => {
                proof {
                    crate::interval::lemma_dec_value_upper(frac6@);
                    crate::interval::lemma_pow10_le(frac6@.len(), 6);
                    crate::interval::lemma_pow10_six();
                    assert(false);
                }
                0u64
            },
            Some(v) => v,
        }
    };
    proof {
        crate::interval::lemma_frac_bound(frac6@);
    }
    let scaled: u64 = fracval * crate::interval::pow10_u64(6 - frac6_len);
    let total: u128 = (intpart as u128) * 1000000 + (scaled as u128);
    if total > u64::MAX as u128 {
        return None;
    }
    Some(total as u64)
}

/// Whether an error-count field reads as a non-positive integer: an
/// optional sign before a run of digits, worth zero unless the sign is
/// minus.
pub open spec fn spec_errors_non_positive(e: Seq<u8>) -> bool {
    if e.len() > 0 && e[0] == 45u8 {
        e.skip(1).len() > 0 && crate::text::all_digits(e.skip(1))
    } else {
        let d = if e.len() > 0 && e[0] == 43u8 {
            e.skip(1)
        } else {
            e
        };
        d.len() > 0 && crate::text::all_digits(d) && crate::text::dec_value(d) == 0
    }
}

/// Test whether an error-count field reads as a non-positive integer.
fn errors_non_positive(e: &[u8]) -> (r: bool)
    ensures
        r == spec_errors_non_positive(e@),
{
    if e.len() > 0 && e[0] == 45 {
        let rest = &e[1..e.len()];
        proof {
            assert(rest@ =~= e@.skip(1));
        }
        rest.len() > 0 && crate::interval::all_digits_exec(rest)
    } else {
        let d = if e.len() > 0 && e[0] == 43 {
            let rest = &e[1..e.len()];
            proof {
                assert(rest@ =~= e@.skip(1));
            }
            rest
        } else {
            e
        };
        match crate::text::parse_u64(d) {
            Some(0) => true,
            Some(_) => false,
            None => {
                proof {
                    if d@.len() > 0 && crate::text::all_digits(d@) {
                        assert(crate::text::dec_value(d@) > u64::MAX);
                    }
                }
                false
            },
        }
    }
}

/// A decimal string read as a signed count of millionths; nothing when it
/// does not parse or leaves the signed machine range.
pub open spec fn spec_parse_signed_millionths(s: Seq<u8>) -> Option<int> {
    match spec_parse_decimal_millionths(s) {
        None => None,
        Some(v) => if v > i64::MAX {
            None
        } else if s.len() > 0 && s[0] == 45u8 {
            Some(-(v as int))
        } else {
            Some(v as int)
        },
    }
}

/// Parse a decimal string as a signed count of millionths.
fn parse_signed_millionths(s: &[u8]) -> (r: Option<i64>)
    ensures
        match r {
            Some(v) => spec_parse_signed_millionths(s@) == Some(v as int),
            None => spec_parse_signed_millionths(s@) is None,
        },
{
    match parse_decimal_millionths(s) {
        None => None,
        Some(v) => {
            if v > i64::MAX as u64 {
                None
            } else if s.len() > 0 && s[0] == 45 {
                Some(-(v as i64))
            } else {
                Some(v as i64)
            }
        },
    }
}

/// Whether a raw provider header survives selection: its error count
/// reads as a non-positive integer, and its rating reaches the minimum
/// when one is set.
pub open spec fn spec_keep_header(h: &RawProviderHeader, min_rating: Option<Rating>) -> bool {
    &&& spec_errors_non_positive(h.errors@)
    &&& match min_rating {
        None => true,
        Some(m) => spec_rating_of(h) >= m as int * 1000000,
    }
}

/// The rating of a raw header: the community rating when it reads as a
/// number, else the author rating, else zero.
pub open spec fn spec_rating_of(h: &RawProviderHeader) -> int {
    match spec_parse_signed_millionths(h.rating@) {
        Some(v) => v,
        None => match spec_parse_signed_millionths(h.rating_by_author@) {
            Some(v) => v,
            None => 0,
        },
    }
}

/// The headers that survive selection, in arrival order.
pub open spec fn spec_selected_headers(raws: Seq<RawProviderHeader>, min_rating: Option<Rating>) -> Seq<
    ProviderHeader,
>
    decreases raws.len(),
{
    if raws.len() == 0 {
        Seq::empty()
    } else {
        let rest = spec_selected_headers(raws.drop_first(), min_rating);
        if spec_keep_header(&raws.first(), min_rating) {
            seq![
                ProviderHeader {
                    id: raws.first().id,
                    rating_millionths: spec_rating_of(&raws.first()) as i64,
                },
            ] + rest
        } else {
            rest
        }
    }
}

/// The provider order on headers: by rating ascending, the identifier
/// breaking ties.
pub open spec fn spec_header_le(a: ProviderHeader, b: ProviderHeader) -> bool {
    ||| a.rating_millionths < b.rating_millionths
    ||| (a.rating_millionths == b.rating_millionths && a.id <= b.id)
}

/// Whether a header sequence is in the provider order.
pub open spec fn spec_headers_sorted(hs: Seq<ProviderHeader>) -> bool {
    forall|i: int, j: int| 0 <= i < j < hs.len() ==> spec_header_le(hs[i], hs[j])
}

/// Select and order provider headers: headers whose error field does not
/// read as a non-positive integer are dropped, the rating falls back to
/// the author rating and then to zero, headers below the minimum rating
/// are dropped, and the survivors are returned sorted by rating
/// ascending, the identifier breaking ties.
pub fn headers_from_provider(raws: Vec<RawProviderHeader>, min_rating: Option<Rating>) -> (r: Vec<
    ProviderHeader,
>)
    ensures
        spec_headers_sorted(r@),
        r@.to_multiset() == spec_selected_headers(raws@, min_rating).to_multiset(),
{
    let mut out: Vec<ProviderHeader> = Vec::new();
    let mut i: usize = 0;
    proof {
        broadcast use vstd::seq_lib::group_to_multiset_ensures;
        assert(raws@.skip(0) =~= raws@);
        assert(out@.to_multiset().len() == 0);
        assert(out@.to_multiset().add(
            spec_selected_headers(raws@, min_rating).to_multiset(),
        ) =~= spec_selected_headers(raws@, min_rating).to_multiset());
    }
    while i < raws.len()
        invariant
            0 <= i <= raws@.len(),
            spec_headers_sorted(out@),
            out@.to_multiset().add(spec_selected_headers(raws@.skip(i as int), min_rating).to_multiset())
                == spec_selected_headers(raws@, min_rating).to_multiset(),
        decreases raws@.len() - i,
    {
        let raw = &raws[i];
        let ghost pending = spec_selected_headers(raws@.skip(i as int), min_rating);
        let ghost pending_next = spec_selected_headers(raws@.skip(i + 1), min_rating);
        proof {
            assert(raws@.skip(i as int).first() == raws@[i as int]);
            assert(raws@.skip(i as int).drop_first() =~= raws@.skip(i + 1));
            assert(raws@.skip(i as int).len() > 0);
        }
        let keep = errors_non_positive(raw.errors.as_slice());
        if keep {
            let rating = rating_of(raw);
            let keep_rating = match min_rating {
                None => true,
                Some(m) => rating >= (m as i64) * 1000000,
            };
            if keep_rating {
                let h = ProviderHeader { id: raw.id, rating_millionths: rating };
                let ghost before = out@;
                insert_sorted(&mut out, h);
                proof {
                    broadcast use vstd::seq_lib::group_to_multiset_ensures;
                    assert(spec_keep_header(&raws@[i as int], min_rating));
                    assert(pending =~= seq![h] + pending_next);
                    vstd::seq_lib::lemma_multiset_commutative(seq![h], pending_next);
                    assert(seq![h].to_multiset() =~= Seq::<ProviderHeader>::empty().push(
                        h,
                    ).to_multiset()) by {
                        assert(seq![h] =~= Seq::<ProviderHeader>::empty().push(h));
                    }
                    assert(seq![h].to_multiset() =~= Seq::<
                        ProviderHeader,
                    >::empty().to_multiset().insert(h));
                    assert(out@.to_multiset().add(pending_next.to_multiset()) =~= before.to_multiset().add(
                        pending.to_multiset(),
                    ));
                }
            } else {
                proof {
                    assert(!spec_keep_header(&raws@[i as int], min_rating));
                    assert(pending =~= pending_next);
                }
            }
        } else {
            proof {
                assert(!spec_keep_header(&raws@[i as int], min_rating));
                assert(pending =~= pending_next);
            }
        }
        i = i + 1;
    }
    proof {
        assert(raws@.skip(i as int).len() == 0);
        assert(spec_selected_headers(raws@.skip(i as int), min_rating) =~= Seq::<
            ProviderHeader,
        >::empty());
        broadcast use vstd::seq_lib::group_to_multiset_ensures;
        assert(Seq::<ProviderHeader>::empty().to_multiset() =~= Multiset::<
            ProviderHeader,
        >::empty()) by {
            assert(Seq::<ProviderHeader>::empty().to_multiset().len() == 0);
        }
        assert(out@.to_multiset() =~= spec_selected_headers(raws@, min_rating).to_multiset());
    }
    out
}

/// The rating of one raw header.
fn rating_of(raw: &RawProviderHeader) -> (r: i64)
    ensures
        r as int == spec_rating_of(raw),
{
    match parse_signed_millionths(raw.rating.as_slice()) {
        Some(v) => v,
        None => match parse_signed_millionths(raw.rating_by_author.as_slice()) {
            Some(v) => v,
            None => 0,
        },
    }
}

/// Insert a header into a vector sorted in the provider order.
fn insert_sorted(out: &mut Vec<ProviderHeader>, h: ProviderHeader)
    requires
        spec_headers_sorted(old(out)@),
    ensures
        spec_headers_sorted(final(out)@),
        final(out)@.to_multiset() == old(out)@.to_multiset().insert(h),
{
    let mut p: usize = 0;
    while p < out.len() && (out[p].rating_millionths < h.rating_millionths
        || (out[p].rating_millionths == h.rating_millionths && out[p].id <= h.id))
        invariant
            0 <= p <= out@.len(),
            forall|j: int| 0 <= j < p ==> spec_header_le(#[trigger] out@[j], h),
            spec_headers_sorted(out@),
            out@ == old(out)@,
        decreases out@.len() - p,
    {
        p = p + 1;
    }
    let ghost before = out@;
    proof {
        if p < out@.len() {
            assert(spec_header_le(h, before[p as int]));
        }
    }
    out.insert(p, h);
    proof {
        let t = out@;
        assert(t =~= before.insert(p as int, h));
        vstd::seq_lib::to_multiset_insert(before, p as int, h);
        assert(forall|j: int| p < j < t.len() ==> t[j] == before[j - 1]);
        assert(forall|j: int| 0 <= j < p ==> t[j] == before[j]);
        assert forall|j: int| p < j < t.len() implies spec_header_le(h, #[trigger] t[j]) by {
            if j == p + 1 {
                assert(t[j] == before[p as int]);
            } else {
                assert(spec_header_le(h, before[p as int]));
                assert(spec_header_le(before[p as int], before[j - 1]));
            }
        }
        assert forall|i: int, j: int|
            0 <= i < j < t.len() implies spec_header_le(#[trigger] t[i], #[trigger] t[j]) by {
            if i < p && j == p {
                assert(t[i] == before[i] && t[j] == h);
            } else if i == p {
                assert(spec_header_le(h, t[j]));
            } else if i < p && j > p {
                if i == j - 1 {
                    assert(t[i] == before[i] && t[j] == before[i]);
                } else {
                    assert(spec_header_le(before[i], before[j - 1]));
                }
            }
        }
        assert(spec_headers_sorted(t));
    }
}

/// What a successful submission response denotes: the digits after the
/// leading `ID=`, read as the new list identifier.
pub open spec fn spec_submission_id(s: Seq<u8>) -> Option<u64> {
    if spec_starts_with(s, bytes_of("ID="@)) {
        let digits = spec_digit_run(s, 3);
        if digits.len() > 0 && crate::text::dec_value(digits) <= u64::MAX {
            Some(crate::text::dec_value(digits) as u64)
        } else {
            None
        }
    } else {
        None
    }
}

/// The run of digits of `s` starting at `from`.
pub open spec fn spec_digit_run(s: Seq<u8>, from: int) -> Seq<u8>
    decreases s.len() - from,
{
    if from < 0 || from >= s.len() || !crate::text::is_digit(s[from]) {
        Seq::empty()
    } else {
        seq![s[from]] + spec_digit_run(s, from + 1)
    }
}

/// Read the list identifier out of a submission response body, which on
/// success starts `ID=` followed by the number.
pub fn parse_submission_response(s: &[u8]) -> (r: Result<u64, CutlistError>)
    ensures
        match r {
            Ok(v) => spec_submission_id(s@) == Some(v),
            Err(e) => spec_submission_id(s@) is None && e == CutlistError::NoSubmissionId,
        },
{
    proof {
        reveal_strlit("ID=");
    }
    let prefix = crate::text::lit_bytes("ID=");
    if !starts_with(s, prefix.as_slice()) {
        return Err(CutlistError::NoSubmissionId);
    }
    let mut end: usize = 3;
    if s.len() < 3 {
        proof {
            assert(false);
        }
        return Err(CutlistError::NoSubmissionId);
    }
    while end < s.len() && 48 <= s[end] && s[end] <= 57
        invariant
            3 <= end <= s@.len(),
            forall|j: int| 3 <= j < end ==> crate::text::is_digit(#[trigger] s@[j]),
        decreases s@.len() - end,
    {
        end = end + 1;
    }
    proof {
        assert(end == s@.len() || !crate::text::is_digit(s@[end as int]));
        lemma_digit_run_range(s@, 3, end as int);
        assert(spec_digit_run(s@, 3) =~= s@.subrange(3, end as int));
    }
    let digits = &s[3..end];
    proof {
        assert(digits@ =~= s@.subrange(3, end as int));
    }
    match crate::text::parse_u64(digits) {
        Some(v) => Ok(v),
        None => {
            proof {
                if digits@.len() > 0 {
                    assert(crate::text::all_digits(digits@));
                }
            }
            Err(CutlistError::NoSubmissionId)
        },
    }
}

/// The digit run from `from` is exactly the range up to the first
/// non-digit.
proof fn lemma_digit_run_range(s: Seq<u8>, from: int, end: int)
    requires
        0 <= from <= end <= s.len(),
        forall|j: int| from <= j < end ==> crate::text::is_digit(#[trigger] s[j]),
        end == s.len() || !crate::text::is_digit(s[end]),
    ensures
        spec_digit_run(s, from) == s.subrange(from, end),
    decreases end - from,
{
    if from == end {
        assert(spec_digit_run(s, from) =~= s.subrange(from, end));
    } else {
        lemma_digit_run_range(s, from + 1, end);
        assert(spec_digit_run(s, from) =~= s.subrange(from, end));
    }
}

/// Whether a provider body is the marker for a missing list.
pub fn is_id_not_found(s: &[u8]) -> (r: bool)
    ensures
        r == (s@ == bytes_of("Not found."@)),
{
    proof {
        reveal_strlit("Not found.");
    }
    let marker = crate::text::lit_bytes("Not found.");
    crate::text::bytes_eq(s, marker.as_slice())
}

/// The name of the section of cut number `i`.
pub open spec fn cut_section_name(i: int) -> Seq<u8> {
    bytes_of("Cut"@) + crate::text::spec_render_u64(i)
}

/// The identifier named in the `Meta` section: absent sections and keys
/// give none, an unreadable value is an error.
pub open spec fn spec_cutlist_id(lines: Seq<Seq<u8>>) -> Result<Option<ID>, CutlistError> {
    match crate::ini::spec_ini_get(lines, bytes_of("Meta"@), bytes_of("CutlistId"@)) {
        None => Ok(None),
        Some(v) => if v.len() > 0 && crate::text::all_digits(v) && crate::text::dec_value(v)
            <= u64::MAX {
            Ok(Some(crate::text::dec_value(v) as u64))
        } else {
            Err(CutlistError::InvalidId)
        },
    }
}

/// The number of cuts named in the `General` section; missing or
/// unreadable values are an error.
pub open spec fn spec_num_cuts(lines: Seq<Seq<u8>>) -> Result<u64, CutlistError> {
    match crate::ini::spec_ini_get(lines, bytes_of("General"@), bytes_of("NoOfCuts"@)) {
        None => Err(CutlistError::NoNumberOfCuts),
        Some(v) => if v.len() > 0 && crate::text::all_digits(v) && crate::text::dec_value(v)
            <= u64::MAX {
            Ok(crate::text::dec_value(v) as u64)
        } else {
            Err(CutlistError::NoNumberOfCuts)
        },
    }
}

/// The frame pair of cut `i`: start and duration when both attributes are
/// present and readable, none when both are absent, an error otherwise.
pub open spec fn spec_frame_pair(lines: Seq<Seq<u8>>, i: int) -> Result<
    Option<(u64, u64)>,
    CutlistError,
> {
    let fs = crate::ini::spec_ini_get(lines, cut_section_name(i), bytes_of("StartFrame"@));
    let fd = crate::ini::spec_ini_get(lines, cut_section_name(i), bytes_of("DurationFrames"@));
    match (fs, fd) {
        (None, None) => Ok(None),
        (Some(a), Some(b)) => match (
            crate::interval::spec_parse_frame(a),
            crate::interval::spec_parse_frame(b),
        ) {
            (Some(x), Some(y)) => if x + y <= u64::MAX {
                Ok(Some((x, y)))
            } else {
                Err(CutlistError::InvalidCut)
            },
            _ => Err(CutlistError::InvalidCut),
        },
        _ => Err(CutlistError::InvalidCut),
    }
}

/// The time pair of cut `i`, in microseconds: start and duration when both
/// attributes are present and readable, none when both are absent, an
/// error otherwise.
pub open spec fn spec_time_pair(lines: Seq<Seq<u8>>, i: int) -> Result<
    Option<(u64, u64)>,
    CutlistError,
> {
    let ts = crate::ini::spec_ini_get(lines, cut_section_name(i), bytes_of("Start"@));
    let td = crate::ini::spec_ini_get(lines, cut_section_name(i), bytes_of("Duration"@));
    match (ts, td) {
        (None, None) => Ok(None),
        (Some(a), Some(b)) => match (
            spec_parse_decimal_millionths(a),
            spec_parse_decimal_millionths(b),
        ) {
            (Some(x), Some(y)) => if x + y <= u64::MAX {
                Ok(Some((x, y)))
            } else {
                Err(CutlistError::InvalidCut)
            },
            _ => Err(CutlistError::InvalidCut),
        },
        _ => Err(CutlistError::InvalidCut),
    }
}

/// The interval of a start and duration pair.
pub open spec fn pair_frame_interval(p: (u64, u64)) -> Interval<Frame> {
    Interval { from: Frame { n: p.0 }, to: Frame { n: (p.0 + p.1) as u64 } }
}

/// The interval of a start and duration pair, in microseconds.
pub open spec fn pair_time_interval(p: (u64, u64)) -> Interval<Time> {
    Interval { from: Time { us: p.0 }, to: Time { us: (p.0 + p.1) as u64 } }
}

/// The intervals of cuts `i` to `n`: each cut must populate exactly the
/// established views; zero-length intervals are dropped.
pub open spec fn spec_collect_cuts(
    lines: Seq<Seq<u8>>,
    n: int,
    i: int,
    want_f: bool,
    want_t: bool,
) -> Result<(Seq<Interval<Frame>>, Seq<Interval<Time>>), CutlistError>
    decreases n - i,
{
    if i >= n {
        Ok((Seq::empty(), Seq::empty()))
    } else {
        match (spec_frame_pair(lines, i), spec_time_pair(lines, i)) {
            (Ok(fp), Ok(tp)) => {
                if (fp is Some) != want_f || (tp is Some) != want_t {
                    Err(CutlistError::InvalidCut)
                } else {
                    match spec_collect_cuts(lines, n, i + 1, want_f, want_t) {
                        Err(e) => Err(e),
                        Ok(rest) => Ok(
                            (
                                match fp {
                                    Some(p) => if p.1 > 0 {
                                        seq![pair_frame_interval(p)] + rest.0
                                    } else {
                                        rest.0
                                    },
                                    None => rest.0,
                                },
                                match tp {
                                    Some(p) => if p.1 > 0 {
                                        seq![pair_time_interval(p)] + rest.1
                                    } else {
                                        rest.1
                                    },
                                    None => rest.1,
                                },
                            ),
                        ),
                    }
                }
            },
            (Err(e), _) => Err(e),
            (_, Err(e)) => Err(e),
        }
    }
}

/// What a structured cut-list text denotes before validation: the optional
/// identifier and the views the first cut establishes.
pub open spec fn spec_parse_cutlist_views(lines: Seq<Seq<u8>>) -> Result<
    (Option<ID>, Option<Seq<Interval<Frame>>>, Option<Seq<Interval<Time>>>),
    CutlistError,
> {
    match spec_cutlist_id(lines) {
        Err(e) => Err(e),
        Ok(id) => match spec_num_cuts(lines) {
            Err(e) => Err(e),
            Ok(n) => if n == 0 {
                Ok((id, None, None))
            } else {
                match (spec_frame_pair(lines, 0), spec_time_pair(lines, 0)) {
                    (Ok(fp0), Ok(tp0)) => {
                        if fp0 is None && tp0 is None {
                            Err(CutlistError::InvalidCut)
                        } else {
                            match spec_collect_cuts(lines, n as int, 0, fp0 is Some, tp0 is Some) {
                                Err(e) => Err(e),
                                Ok(r) => Ok(
                                    (
                                        id,
                                        if fp0 is Some {
                                            Some(r.0)
                                        } else {
                                            None
                                        },
                                        if tp0 is Some {
                                            Some(r.1)
                                        } else {
                                            None
                                        },
                                    ),
                                ),
                            }
                        }
                    },
                    (Err(e), _) => Err(e),
                    (_, Err(e)) => Err(e),
                }
            },
        },
    }
}

/// Validity of a pair of views, with the error naming what fails first.
pub open spec fn spec_validate_views(
    f: Option<Seq<Interval<Frame>>>,
    t: Option<Seq<Interval<Time>>>,
) -> Result<(), CutlistError> {
    let nf: int = match f {
        Some(v) => v.len() as int,
        None => 0,
    };
    let nt: int = match t {
        Some(v) => v.len() as int,
        None => 0,
    };
    if f is None && t is None {
        Err(CutlistError::NoIntervals)
    } else if nf == 0 && nt == 0 {
        Err(CutlistError::NoIntervals)
    } else if f is Some && t is Some && nf != nt {
        Err(CutlistError::CountMismatch)
    } else if (f matches Some(v) && !spec_intervals_valid(v)) || (t matches Some(v)
        && !spec_intervals_valid(v)) {
        Err(CutlistError::IntervalsInvalid)
    } else {
        Ok(())
    }
}

/// What a structured cut-list text denotes: the parsed views, validated.
pub open spec fn spec_from_ini_text(s: Seq<u8>) -> Result<
    (Option<ID>, Option<Seq<Interval<Frame>>>, Option<Seq<Interval<Time>>>),
    CutlistError,
> {
    let lines = crate::ini::spec_split_lines(s);
    match spec_parse_cutlist_views(lines) {
        Err(e) => Err(e),
        Ok(r) => match spec_validate_views(r.1, r.2) {
            Ok(_) => Ok(r),
            Err(e) => Err(e),
        },
    }
}

/// The section name of cut `i`, as bytes.
fn cut_section_name_exec(i: u64) -> (r: Vec<u8>)
    ensures
        r@ == cut_section_name(i as int),
{
    proof {
        reveal_strlit("Cut");
    }
    let mut r = crate::text::lit_bytes("Cut");
    let mut num = crate::text::render_u64(i);
    r.append(&mut num);
    proof {
        assert(r@ =~= cut_section_name(i as int));
    }
    r
}

/// Read an optional numeric attribute pair of cut `i`.
fn frame_pair(lines: &Vec<Vec<u8>>, i: u64) -> (r: Result<Option<(u64, u64)>, CutlistError>)
    ensures
        r == spec_frame_pair(lines.deep_view(), i as int),
{
    proof {
        reveal_strlit("StartFrame");
        reveal_strlit("DurationFrames");
    }
    let section = cut_section_name_exec(i);
    let start_key = crate::text::lit_bytes("StartFrame");
    let dur_key = crate::text::lit_bytes("DurationFrames");
    let fs = crate::ini::ini_get(lines, section.as_slice(), start_key.as_slice());
    let fd = crate::ini::ini_get(lines, section.as_slice(), dur_key.as_slice());
    match (fs, fd) {
        (None, None) => Ok(None),
        (Some(a), Some(b)) => {
            match (
                crate::interval::parse_frame(a.as_slice()),
                crate::interval::parse_frame(b.as_slice()),
            ) {
                (Some(x), Some(y)) => {
                    if x <= u64::MAX - y {
                        Ok(Some((x, y)))
                    } else {
                        Err(CutlistError::InvalidCut)
                    }
                },
                _ => Err(CutlistError::InvalidCut),
            }
        },
        _ => Err(CutlistError::InvalidCut),
    }
}

/// Read an optional time attribute pair of cut `i`.
fn time_pair(lines: &Vec<Vec<u8>>, i: u64) -> (r: Result<Option<(u64, u64)>, CutlistError>)
    ensures
        r == spec_time_pair(lines.deep_view(), i as int),
{
    proof {
        reveal_strlit("Start");
        reveal_strlit("Duration");
    }
    let section = cut_section_name_exec(i);
    let start_key = crate::text::lit_bytes("Start");
    let dur_key = crate::text::lit_bytes("Duration");
    let ts = crate::ini::ini_get(lines, section.as_slice(), start_key.as_slice());
    let td = crate::ini::ini_get(lines, section.as_slice(), dur_key.as_slice());
    match (ts, td) {
        (None, None) => Ok(None),
        (Some(a), Some(b)) => {
            match (
                parse_decimal_millionths(a.as_slice()),
                parse_decimal_millionths(b.as_slice()),
            ) {
                (Some(x), Some(y)) => {
                    if x <= u64::MAX - y {
                        Ok(Some((x, y)))
                    } else {
                        Err(CutlistError::InvalidCut)
                    }
                },
                _ => Err(CutlistError::InvalidCut),
            }
        },
        _ => Err(CutlistError::InvalidCut),
    }
}

/// Collect the intervals of cuts `i` to `n`.
fn collect_cuts(lines: &Vec<Vec<u8>>, n: u64, i: u64, want_f: bool, want_t: bool) -> (r: Result<
    (Vec<Interval<Frame>>, Vec<Interval<Time>>),
    CutlistError,
>)
    requires
        i <= n,
    ensures
        match r {
            Ok(v) => spec_collect_cuts(lines.deep_view(), n as int, i as int, want_f, want_t)
                == Ok::<_, CutlistError>((v.0@, v.1@)),
            Err(e) => spec_collect_cuts(lines.deep_view(), n as int, i as int, want_f, want_t)
                == Err::<(Seq<Interval<Frame>>, Seq<Interval<Time>>), _>(e),
        },
    decreases n - i,
{
    if i >= n {
        let r = (Vec::<Interval<Frame>>::new(), Vec::<Interval<Time>>::new());
        proof {
            assert(r.0@ =~= Seq::<Interval<Frame>>::empty());
            assert(r.1@ =~= Seq::<Interval<Time>>::empty());
        }
        return Ok(r);
    }
    let fp = match frame_pair(lines, i) {
        Ok(p) => p,
        Err(e) => {
            return Err(e);
        },
    };
    let tp = match time_pair(lines, i) {
        Ok(p) => p,
        Err(e) => {
            return Err(e);
        },
    };
    if fp.is_some() != want_f || tp.is_some() != want_t {
        return Err(CutlistError::InvalidCut);
    }
    let rest = match collect_cuts(lines, n, i + 1, want_f, want_t) {
        Ok(r) => r,
        Err(e) => {
            return Err(e);
        },
    };
    let (mut rf, mut rt) = rest;
    let mut out_f: Vec<Interval<Frame>> = Vec::new();
    let mut out_t: Vec<Interval<Time>> = Vec::new();
    match fp {
        Some((s, d)) => {
            if d > 0 {
                out_f.push(Interval { from: Frame { n: s }, to: Frame { n: s + d } });
            }
        },
        None => {},
    }
    match tp {
        Some((s, d)) => {
            if d > 0 {
                out_t.push(Interval { from: Time { us: s }, to: Time { us: s + d } });
            }
        },
        None => {},
    }
    out_f.append(&mut rf);
    out_t.append(&mut rt);
    proof {
        let sp = spec_collect_cuts(lines.deep_view(), n as int, i as int, want_f, want_t);
        match spec_frame_pair(lines.deep_view(), i as int) {
            Ok(Some(p)) => {
                if p.1 > 0 {
                    assert(out_f@ =~= seq![pair_frame_interval(p)] + spec_collect_cuts(
                        lines.deep_view(),
                        n as int,
                        i + 1,
                        want_f,
                        want_t,
                    ).unwrap().0);
                } else {
                    assert(out_f@ =~= spec_collect_cuts(
                        lines.deep_view(),
                        n as int,
                        i + 1,
                        want_f,
                        want_t,
                    ).unwrap().0);
                }
            },
            _ => {
                assert(out_f@ =~= spec_collect_cuts(
                    lines.deep_view(),
                    n as int,
                    i + 1,
                    want_f,
                    want_t,
                ).unwrap().0);
            },
        }
        match spec_time_pair(lines.deep_view(), i as int) {
            Ok(Some(p)) => {
                if p.1 > 0 {
                    assert(out_t@ =~= seq![pair_time_interval(p)] + spec_collect_cuts(
                        lines.deep_view(),
                        n as int,
                        i + 1,
                        want_f,
                        want_t,
                    ).unwrap().1);
                } else {
                    assert(out_t@ =~= spec_collect_cuts(
                        lines.deep_view(),
                        n as int,
                        i + 1,
                        want_f,
                        want_t,
                    ).unwrap().1);
                }
            },
            _ => {
                assert(out_t@ =~= spec_collect_cuts(
                    lines.deep_view(),
                    n as int,
                    i + 1,
                    want_f,
                    want_t,
                ).unwrap().1);
            },
        }
    }
    Ok((out_f, out_t))
}

impl Cutlist {
    /// Build a cut list from its structured text form and validate it: a
    /// `General` section names the number of cuts, an optional `Meta`
    /// section names the identifier, and each `Cut<i>` section carries a
    /// frame pair (`StartFrame`, `DurationFrames`), a time pair (`Start`,
    /// `Duration` in seconds), or both — the same views in every cut.
    pub fn from_ini_text(text: &[u8]) -> (r: Result<Cutlist, CutlistError>)
        ensures
            match r {
                Ok(c) => spec_from_ini_text(text@) == Ok::<_, CutlistError>(
                    (c.spec_id(), c.spec_frames(), c.spec_times()),
                ) && c.spec_valid(),
                Err(e) => spec_from_ini_text(text@) == Err::<
                    (Option<ID>, Option<Seq<Interval<Frame>>>, Option<Seq<Interval<Time>>>),
                    CutlistError,
                >(e),
            },
    {
        proof {
            reveal_strlit("Meta");
            reveal_strlit("CutlistId");
            reveal_strlit("General");
            reveal_strlit("NoOfCuts");
        }
        let lines = crate::ini::split_lines(text);
        let meta = crate::text::lit_bytes("Meta");
        let id_key = crate::text::lit_bytes("CutlistId");
        let id: Option<ID> = match crate::ini::ini_get(&lines, meta.as_slice(), id_key.as_slice())
        {
            None => None,
            Some(v) => match crate::text::parse_u64(v.as_slice()) {
                Some(n) => Some(n),
                None => {
                    return Err(CutlistError::InvalidId);
                },
            },
        };
        let general = crate::text::lit_bytes("General");
        let cuts_key = crate::text::lit_bytes("NoOfCuts");
        let n: u64 = match crate::ini::ini_get(&lines, general.as_slice(), cuts_key.as_slice()) {
            None => {
                return Err(CutlistError::NoNumberOfCuts);
            },
            Some(v) => match crate::text::parse_u64(v.as_slice()) {
                Some(n) => n,
                None => {
                    return Err(CutlistError::NoNumberOfCuts);
                },
            },
        };
        if n == 0 {
            proof {
                assert(spec_validate_views(None, None) == Err::<(), CutlistError>(
                    CutlistError::NoIntervals,
                ));
            }
            return Err(CutlistError::NoIntervals);
        }
        let fp0 = match frame_pair(&lines, 0) {
            Ok(p) => p,
            Err(e) => {
                return Err(e);
            },
        };
        let tp0 = match time_pair(&lines, 0) {
            Ok(p) => p,
            Err(e) => {
                return Err(e);
            },
        };
        if fp0.is_none() && tp0.is_none() {
            return Err(CutlistError::InvalidCut);
        }
        let want_f = fp0.is_some();
        let want_t = tp0.is_some();
        let (vf, vt) = match collect_cuts(&lines, n, 0, want_f, want_t) {
            Ok(r) => r,
            Err(e) => {
                return Err(e);
            },
        };
        let cutlist = Cutlist {
            id,
            frame_intervals: if want_f {
                Some(vf)
            } else {
                None
            },
            time_intervals: if want_t {
                Some(vt)
            } else {
                None
            },
        };
        match cutlist.validate() {
            Ok(_) => Ok(cutlist),
            Err(e) => Err(e),
        }
    }

    /// Build a cut list from the provider's response to a fetch by
    /// identifier: the marker body for a missing list is a distinct error,
    /// anything else is read as structured text.
    pub fn from_provider_response(body: &[u8]) -> (r: Result<Cutlist, CutlistError>)
        ensures
            body@ == bytes_of("Not found."@) ==> r == Err::<Cutlist, _>(CutlistError::IdNotFound),
            body@ != bytes_of("Not found."@) ==> match r {
                Ok(c) => spec_from_ini_text(body@) == Ok::<_, CutlistError>(
                    (c.spec_id(), c.spec_frames(), c.spec_times()),
                ) && c.spec_valid(),
                Err(e) => spec_from_ini_text(body@) == Err::<
                    (Option<ID>, Option<Seq<Interval<Frame>>>, Option<Seq<Interval<Time>>>),
                    CutlistError,
                >(e),
            },
    {
        if is_id_not_found(body) {
            Err(CutlistError::IdNotFound)
        } else {
            Self::from_ini_text(body)
        }
    }
}

/// The `General` section of an emitted cut list.
pub open spec fn spec_general_lines(n: int, file: Seq<u8>, size: int) -> Seq<Seq<u8>> {
    seq![
        crate::ini::section_header(bytes_of("General"@)),
        bytes_of("Application=otr"@),
        bytes_of("Version=0.1.0"@),
        bytes_of("IntendedCutApplicationName=ffmpeg"@),
        bytes_of("NoOfCuts="@) + crate::text::spec_render_u64(n),
        bytes_of("ApplyToFile="@) + file,
        bytes_of("OriginalFileSizeBytes="@) + crate::text::spec_render_u64(size),
    ]
}

/// The lines of the cut sections `i` to `n`: a header per cut, the frame
/// pair when the frame view is present, the time pair when the time view
/// is, durations written as differences.
pub open spec fn spec_cut_lines(
    f: Option<Seq<Interval<Frame>>>,
    t: Option<Seq<Interval<Time>>>,
    n: int,
    i: int,
) -> Seq<Seq<u8>>
    decreases n - i,
{
    if i >= n {
        Seq::empty()
    } else {
        seq![crate::ini::section_header(cut_section_name(i))] + (match f {
            Some(v) => seq![
                bytes_of("StartFrame="@) + crate::text::spec_render_u64(v[i].from.n as int),
                bytes_of("DurationFrames="@) + crate::text::spec_render_u64(
                    v[i].to.n - v[i].from.n,
                ),
            ],
            None => Seq::empty(),
        }) + (match t {
            Some(v) => seq![
                bytes_of("Start="@) + crate::interval::spec_render_time(v[i].from.us),
                bytes_of("Duration="@) + crate::interval::spec_render_time(
                    (v[i].to.us - v[i].from.us) as u64,
                ),
            ],
            None => Seq::empty(),
        }) + spec_cut_lines(f, t, n, i + 1)
    }
}

/// The `Info` section of an emitted cut list.
pub open spec fn spec_info_lines(rating: int) -> Seq<Seq<u8>> {
    seq![
        crate::ini::section_header(bytes_of("Info"@)),
        bytes_of("RatingByAuthor="@) + crate::text::spec_render_u64(rating),
    ]
}

/// All lines of an emitted cut list.
pub open spec fn spec_emit_lines(
    f: Option<Seq<Interval<Frame>>>,
    t: Option<Seq<Interval<Time>>>,
    file: Seq<u8>,
    size: int,
    rating: int,
) -> Seq<Seq<u8>> {
    let n: int = match f {
        Some(v) => v.len() as int,
        None => match t {
            Some(v) => v.len() as int,
            None => 0,
        },
    };
    spec_general_lines(n, file, size) + spec_cut_lines(f, t, n, 0) + spec_info_lines(rating)
}

/// Emit the lines of the cut sections `i` to `n`.
fn emit_cut_lines(
    f: &Option<Vec<Interval<Frame>>>,
    t: &Option<Vec<Interval<Time>>>,
    n: usize,
    i: usize,
) -> (r: Vec<Vec<u8>>)
    requires
        i <= n,
        (match f {
            Some(v) => v@.len() == n && forall|k: int| 0 <= k < v@.len() ==> (#[trigger] v@[k]).wf(),
            None => true,
        }),
        (match t {
            Some(v) => v@.len() == n && forall|k: int| 0 <= k < v@.len() ==> (#[trigger] v@[k]).wf(),
            None => true,
        }),
    ensures
        r.deep_view() == spec_cut_lines(
            match f {
                Some(v) => Some(v@),
                None => None,
            },
            match t {
                Some(v) => Some(v@),
                None => None,
            },
            n as int,
            i as int,
        ),
    decreases n - i,
{
    let ghost fs: Option<Seq<Interval<Frame>>> = match f {
        Some(v) => Some(v@),
        None => None,
    };
    let ghost ts: Option<Seq<Interval<Time>>> = match t {
        Some(v) => Some(v@),
        None => None,
    };
    let mut lines: Vec<Vec<u8>> = Vec::new();
    if i >= n {
        proof {
            assert(lines.deep_view() =~= spec_cut_lines(fs, ts, n as int, i as int));
        }
        return lines;
    }
    let section = cut_section_name_exec(i as u64);
    let mut header: Vec<u8> = Vec::new();
    header.push(91u8);
    crate::text::push_bytes(&mut header, section.as_slice());
    header.push(93u8);
    proof {
        assert(header@ =~= crate::ini::section_header(cut_section_name(i as int)));
    }
    lines.push(header);
    match f {
        Some(v) => {
            proof {
                reveal_strlit("StartFrame=");
                reveal_strlit("DurationFrames=");
                assert(i < v@.len());
            }
            let iv = v[i];
            let mut l1 = crate::text::lit_bytes("StartFrame=");
            let mut num = crate::text::render_u64(iv.from().value());
            l1.append(&mut num);
            lines.push(l1);
            let mut l2 = crate::text::lit_bytes("DurationFrames=");
            let mut num = crate::text::render_u64(iv.to().value() - iv.from().value());
            l2.append(&mut num);
            lines.push(l2);
        },
        None => {},
    }
    match t {
        Some(v) => {
            proof {
                reveal_strlit("Start=");
                reveal_strlit("Duration=");
                assert(i < v@.len());
            }
            let iv = v[i];
            let mut l1 = crate::text::lit_bytes("Start=");
            let mut num = crate::interval::render_time(iv.from().value());
            l1.append(&mut num);
            lines.push(l1);
            let mut l2 = crate::text::lit_bytes("Duration=");
            let mut num = crate::interval::render_time(iv.to().value() - iv.from().value());
            l2.append(&mut num);
            lines.push(l2);
        },
        None => {},
    }
    let ghost own = lines.deep_view();
    let mut rest = emit_cut_lines(f, t, n, i + 1);
    let ghost rest_lines = rest.deep_view();
    lines.append(&mut rest);
    proof {
        assert(lines.deep_view() =~~= own + rest_lines);
        let head = seq![crate::ini::section_header(cut_section_name(i as int))] + (match fs {
            Some(v) => seq![
                bytes_of("StartFrame="@) + crate::text::spec_render_u64(v[i as int].from.n as int),
                bytes_of("DurationFrames="@) + crate::text::spec_render_u64(
                    v[i as int].to.n - v[i as int].from.n,
                ),
            ],
            None => Seq::empty(),
        }) + (match ts {
            Some(v) => seq![
                bytes_of("Start="@) + crate::interval::spec_render_time(v[i as int].from.us),
                bytes_of("Duration="@) + crate::interval::spec_render_time(
                    (v[i as int].to.us - v[i as int].from.us) as u64,
                ),
            ],
            None => Seq::empty(),
        });
        assert(own =~~= head);
        assert(lines.deep_view() =~= spec_cut_lines(fs, ts, n as int, i as int));
    }
    lines
}

impl Cutlist {
    /// Serialize the cut list for submission: the `General` section with
    /// the producer, the downstream tool, the cut count, the target file
    /// name and its size; one section per cut carrying whichever views the
    /// list has, durations as differences; and the `Info` section with the
    /// author rating.
    pub fn to_ini_text(&self, file_name: &[u8], file_size: u64, rating: Rating) -> (r: Vec<u8>)
        requires
            self.spec_valid(),
        ensures
            r@ == crate::ini::spec_join_lines(
                spec_emit_lines(
                    self.spec_frames(),
                    self.spec_times(),
                    file_name@,
                    file_size as int,
                    rating as int,
                ),
            ),
    {
        proof {
            reveal_strlit("General");
            reveal_strlit("Application=otr");
            reveal_strlit("Version=0.1.0");
            reveal_strlit("IntendedCutApplicationName=ffmpeg");
            reveal_strlit("NoOfCuts=");
            reveal_strlit("ApplyToFile=");
            reveal_strlit("OriginalFileSizeBytes=");
            reveal_strlit("Info");
            reveal_strlit("RatingByAuthor=");
        }
        let n: usize = self.len();
        let mut lines: Vec<Vec<u8>> = Vec::new();
        let mut header: Vec<u8> = Vec::new();
        header.push(91u8);
        crate::text::push_lit(&mut header, "General");
        header.push(93u8);
        proof {
            assert(header@ =~= crate::ini::section_header(bytes_of("General"@)));
        }
        lines.push(header);
        lines.push(crate::text::lit_bytes("Application=otr"));
        lines.push(crate::text::lit_bytes("Version=0.1.0"));
        lines.push(crate::text::lit_bytes("IntendedCutApplicationName=ffmpeg"));
        let mut l = crate::text::lit_bytes("NoOfCuts=");
        let mut num = crate::text::render_u64(n as u64);
        l.append(&mut num);
        lines.push(l);
        let mut l = crate::text::lit_bytes("ApplyToFile=");
        crate::text::push_bytes(&mut l, file_name);
        lines.push(l);
        let mut l = crate::text::lit_bytes("OriginalFileSizeBytes=");
        let mut num = crate::text::render_u64(file_size);
        l.append(&mut num);
        lines.push(l);
        let ghost general = spec_general_lines(n as int, file_name@, file_size as int);
        proof {
            assert(lines.deep_view() =~~= general);
        }
        let mut cuts = emit_cut_lines(&self.frame_intervals, &self.time_intervals, n, 0);
        let ghost cut_lines = cuts.deep_view();
        lines.append(&mut cuts);
        let ghost before_info = lines.deep_view();
        proof {
            assert(before_info =~~= general + cut_lines);
        }
        let mut header: Vec<u8> = Vec::new();
        header.push(91u8);
        crate::text::push_lit(&mut header, "Info");
        header.push(93u8);
        proof {
            assert(header@ =~= crate::ini::section_header(bytes_of("Info"@)));
        }
        lines.push(header);
        let mut l = crate::text::lit_bytes("RatingByAuthor=");
        let mut num = crate::text::render_u64(rating as u64);
        l.append(&mut num);
        lines.push(l);
        proof {
            assert(lines.deep_view() =~~= general + cut_lines + spec_info_lines(rating as int));
            assert(general + cut_lines + spec_info_lines(rating as int) =~= spec_emit_lines(
                self.spec_frames(),
                self.spec_times(),
                file_name@,
                file_size as int,
                rating as int,
            ));
        }
        crate::ini::join_lines(&lines)
    }
}

/// A rendered number reads back as the same frame value.
pub proof fn lemma_parse_frame_of_render(v: u64)
    ensures
        crate::interval::spec_parse_frame(crate::text::spec_render_u64(v as int)) == Some(v),
{
    let s = crate::text::spec_render_u64(v as int);
    crate::text::lemma_render_u64_digits(v as int);
    crate::text::lemma_render_u64_value(v as int);
    assert(crate::text::is_digit(s[0]));
    assert(s[0] != 45u8 && s[0] != 43u8);
    crate::ini::lemma_find_none(s, 46u8);
}

/// A rendered timestamp reads back as the same microsecond value.
pub proof fn lemma_parse_decimal_of_render_time(us: u64)
    ensures
        spec_parse_decimal_millionths(crate::interval::spec_render_time(us)) == Some(us),
{
    let secs = us as int / 1000000;
    let frac = us as int % 1000000;
    let digits = crate::text::spec_render_u64(secs);
    let pad = crate::text::spec_render_u64_pad(frac, 6);
    let s = crate::interval::spec_render_time(us);
    crate::text::lemma_render_u64_digits(secs);
    crate::text::lemma_render_u64_value(secs);
    crate::text::lemma_render_u64_pad_value(frac, 6);
    crate::interval::lemma_pow10_six();
    crate::interval::lemma_render_len_le(frac, 6);
    assert(pad.len() == 6);
    assert(s =~= digits + seq![46u8] + pad);
    assert(s[0] == digits[0]);
    assert(crate::text::is_digit(s[0]));
    assert(s[0] != 45u8 && s[0] != 43u8);
    assert(s[digits.len() as int] == 46u8);
    assert(forall|j: int| 0 <= j < digits.len() ==> #[trigger] s[j] == digits[j]);
    assert(forall|j: int| 0 <= j < digits.len() ==> s[j] != 46u8) by {
        assert(forall|j: int| 0 <= j < digits.len() ==> crate::text::is_digit(#[trigger] digits[j]));
    }
    crate::ini::lemma_find_at(s, 46u8, digits.len() as int);
    let d = digits.len() as int;
    assert(s.take(d) =~= digits);
    assert(s.skip(d + 1) =~= pad);
    assert(crate::text::dec_value(digits) * 1000000 + crate::text::dec_value(pad)
        * crate::interval::pow10(0) == us) by (nonlinear_arith)
        requires
            crate::text::dec_value(digits) == us as int / 1000000,
            crate::text::dec_value(pad) == us as int % 1000000,
            crate::interval::pow10(0) == 1,
    ;
}

/// A digit run is a clean line.
proof fn lemma_digits_clean(s: Seq<u8>)
    requires
        crate::text::all_digits(s),
    ensures
        crate::ini::clean_line(s),
{
}

/// A rendered timestamp is a clean line.
proof fn lemma_render_time_clean(us: u64)
    ensures
        crate::ini::clean_line(crate::interval::spec_render_time(us)),
{
    crate::text::lemma_render_u64_digits(us as int / 1000000);
    crate::text::lemma_render_u64_pad_value(us as int % 1000000, 6);
}

/// Every line of the emitted cut sections is clean, not empty, and starts
/// either as the header of one of the remaining cuts or with the first
/// letter of its attribute.
proof fn lemma_cut_lines_shape(
    fs: Option<Seq<Interval<Frame>>>,
    ts: Option<Seq<Interval<Time>>>,
    n: int,
    i: int,
)
    requires
        0 <= i,
        (fs matches Some(v) ==> v.len() == n && forall|k: int|
            0 <= k < v.len() ==> (#[trigger] v[k]).wf()),
        (ts matches Some(v) ==> v.len() == n && forall|k: int|
            0 <= k < v.len() ==> (#[trigger] v[k]).wf()),
    ensures
        forall|k: int|
            0 <= k < spec_cut_lines(fs, ts, n, i).len() ==> {
                let l = #[trigger] spec_cut_lines(fs, ts, n, i)[k];
                &&& crate::ini::clean_line(l)
                &&& l.len() > 0
                &&& (l[0] == 91u8 ==> exists|j: int|
                    i <= j < n && l == crate::ini::section_header(#[trigger] cut_section_name(j)))
                &&& (l[0] != 91u8 ==> l[0] == 83u8 || l[0] == 68u8)
            },
    decreases n - i,
{
    if i < n {
        proof_strlit_cut_entries();
        lemma_cut_lines_shape(fs, ts, n, i + 1);
        let hdr = crate::ini::section_header(cut_section_name(i));
        assert(crate::ini::clean_line(hdr)) by {
            crate::text::lemma_render_u64_digits(i);
            reveal_strlit("Cut");
        }
        assert(hdr[0] == 91u8);
        assert(exists|j: int|
            i <= j < n && hdr == crate::ini::section_header(#[trigger] cut_section_name(j))) by {
            assert(hdr == crate::ini::section_header(cut_section_name(i)));
        }
        let own = seq![hdr] + (match fs {
            Some(v) => seq![
                crate::text::bytes_of("StartFrame="@) + crate::text::spec_render_u64(
                    v[i].from.n as int,
                ),
                crate::text::bytes_of("DurationFrames="@) + crate::text::spec_render_u64(
                    v[i].to.n - v[i].from.n,
                ),
            ],
            None => Seq::empty(),
        }) + (match ts {
            Some(v) => seq![
                crate::text::bytes_of("Start="@) + crate::interval::spec_render_time(
                    v[i].from.us,
                ),
                crate::text::bytes_of("Duration="@) + crate::interval::spec_render_time(
                    (v[i].to.us - v[i].from.us) as u64,
                ),
            ],
            None => Seq::empty(),
        });
        assert(spec_cut_lines(fs, ts, n, i) =~= own + spec_cut_lines(fs, ts, n, i + 1));
        match fs {
            Some(v) => {
                crate::text::lemma_render_u64_digits(v[i].from.n as int);
                crate::text::lemma_render_u64_digits(v[i].to.n - v[i].from.n);
            },
            None => {},
        }
        match ts {
            Some(v) => {
                lemma_render_time_clean(v[i].from.us);
                lemma_render_time_clean((v[i].to.us - v[i].from.us) as u64);
            },
            None => {},
        }
        assert forall|k: int| 0 <= k < own.len() implies {
            let l = #[trigger] own[k];
            &&& crate::ini::clean_line(l)
            &&& l.len() > 0
            &&& (l[0] == 91u8 ==> exists|j: int|
                i <= j < n && l == crate::ini::section_header(#[trigger] cut_section_name(j)))
            &&& (l[0] != 91u8 ==> l[0] == 83u8 || l[0] == 68u8)
        } by {
            assert(own[0] == hdr);
            match fs {
                Some(v) => {
                    let l1 = crate::text::bytes_of("StartFrame="@) + crate::text::spec_render_u64(
                        v[i].from.n as int,
                    );
                    let l2 = crate::text::bytes_of("DurationFrames="@)
                        + crate::text::spec_render_u64(v[i].to.n - v[i].from.n);
                    assert(own[1] == l1);
                    assert(own[2] == l2);
                    assert(crate::ini::clean_line(l1));
                    assert(crate::ini::clean_line(l2));
                    assert(l1[0] == 83u8);
                    assert(l2[0] == 68u8);
                },
                None => {},
            }
            match ts {
                Some(v) => {
                    let base: int = match fs {
                        Some(_) => 3,
                        None => 1,
                    };
                    let l3 = crate::text::bytes_of("Start="@) + crate::interval::spec_render_time(
                        v[i].from.us,
                    );
                    let l4 = crate::text::bytes_of("Duration="@)
                        + crate::interval::spec_render_time((v[i].to.us - v[i].from.us) as u64);
                    assert(own[base] == l3);
                    assert(own[base + 1] == l4);
                    assert(crate::ini::clean_line(l3));
                    assert(crate::ini::clean_line(l4));
                    assert(l3[0] == 83u8);
                    assert(l4[0] == 68u8);
                },
                None => {},
            }
        }
        assert(forall|k: int|
            0 <= k < spec_cut_lines(fs, ts, n, i).len() ==> spec_cut_lines(fs, ts, n, i)[k]
                == (if k < own.len() {
                own[k]
            } else {
                spec_cut_lines(fs, ts, n, i + 1)[k - own.len()]
            }));
    }
}

/// Reveal the attribute literals of the cut sections.
proof fn proof_strlit_cut_entries()
    ensures
        crate::text::bytes_of("StartFrame="@).len() == 11,
        crate::text::bytes_of("DurationFrames="@).len() == 15,
        crate::text::bytes_of("Start="@).len() == 6,
        crate::text::bytes_of("Duration="@).len() == 9,
        crate::text::bytes_of("StartFrame="@)[0] == 83u8,
        crate::text::bytes_of("DurationFrames="@)[0] == 68u8,
        crate::text::bytes_of("Start="@)[0] == 83u8,
        crate::text::bytes_of("Duration="@)[0] == 68u8,
        crate::ini::clean_line(crate::text::bytes_of("StartFrame="@)),
        crate::ini::clean_line(crate::text::bytes_of("DurationFrames="@)),
        crate::ini::clean_line(crate::text::bytes_of("Start="@)),
        crate::ini::clean_line(crate::text::bytes_of("Duration="@)),
{
    reveal_strlit("StartFrame=");
    reveal_strlit("DurationFrames=");
    reveal_strlit("Start=");
    reveal_strlit("Duration=");
}

/// The lines of one cut section.
pub open spec fn cut_block(
    fs: Option<Seq<Interval<Frame>>>,
    ts: Option<Seq<Interval<Time>>>,
    i: int,
) -> Seq<Seq<u8>> {
    seq![crate::ini::section_header(cut_section_name(i))] + (match fs {
        Some(v) => seq![
            crate::text::bytes_of("StartFrame="@) + crate::text::spec_render_u64(
                v[i].from.n as int,
            ),
            crate::text::bytes_of("DurationFrames="@) + crate::text::spec_render_u64(
                v[i].to.n - v[i].from.n,
            ),
        ],
        None => Seq::empty(),
    }) + (match ts {
        Some(v) => seq![
            crate::text::bytes_of("Start="@) + crate::interval::spec_render_time(v[i].from.us),
            crate::text::bytes_of("Duration="@) + crate::interval::spec_render_time(
                (v[i].to.us - v[i].from.us) as u64,
            ),
        ],
        None => Seq::empty(),
    })
}

/// Different cuts have different section headers.
proof fn lemma_cut_header_injective(i: int, j: int)
    requires
        0 <= i,
        0 <= j,
        i != j,
    ensures
        crate::ini::section_header(cut_section_name(i)) != crate::ini::section_header(
            cut_section_name(j),
        ),
{
    let hi = crate::ini::section_header(cut_section_name(i));
    let hj = crate::ini::section_header(cut_section_name(j));
    if hi == hj {
        reveal_strlit("Cut");
        crate::text::lemma_render_u64_value(i);
        crate::text::lemma_render_u64_value(j);
        crate::text::lemma_render_u64_digits(i);
        crate::text::lemma_render_u64_digits(j);
        let ri = crate::text::spec_render_u64(i);
        let rj = crate::text::spec_render_u64(j);
        assert(hi.len() == 5 + ri.len());
        assert(hj.len() == 5 + rj.len());
        assert(ri.len() == rj.len());
        assert(ri =~= hi.subrange(4, hi.len() - 1));
        assert(rj =~= hj.subrange(4, hj.len() - 1));
        assert(ri == rj);
        assert(false);
    }
}

/// The expected attribute pair of the frame view at one cut.
pub open spec fn expected_frame_pair(fs: Option<Seq<Interval<Frame>>>, j: int) -> Option<
    (u64, u64),
> {
    match fs {
        Some(v) => Some((v[j].from.n, (v[j].to.n - v[j].from.n) as u64)),
        None => None,
    }
}

/// The expected attribute pair of the time view at one cut.
pub open spec fn expected_time_pair(ts: Option<Seq<Interval<Time>>>, j: int) -> Option<
    (u64, u64),
> {
    match ts {
        Some(v) => Some((v[j].from.us, (v[j].to.us - v[j].from.us) as u64)),
        None => None,
    }
}

/// Reading cut `j` out of the emitted text gives back exactly the pairs
/// the serializer wrote for it.
#[verifier::rlimit(100)]
proof fn lemma_cut_get(
    fs: Option<Seq<Interval<Frame>>>,
    ts: Option<Seq<Interval<Time>>>,
    n: int,
    rating: int,
    i: int,
    j: int,
    pre: Seq<Seq<u8>>,
)
    requires
        (fs matches Some(v) ==> v.len() == n && forall|k: int|
            0 <= k < v.len() ==> (#[trigger] v[k]).wf()),
        (ts matches Some(v) ==> v.len() == n && forall|k: int|
            0 <= k < v.len() ==> (#[trigger] v[k]).wf()),
        0 <= i <= j < n,
        forall|k: int|
            0 <= k < pre.len() ==> #[trigger] pre[k] != crate::ini::section_header(
                cut_section_name(j),
            ),
    ensures
        spec_frame_pair(
            pre + spec_cut_lines(fs, ts, n, i) + spec_info_lines(rating),
            j,
        ) == Ok::<_, CutlistError>(expected_frame_pair(fs, j)),
        spec_time_pair(
            pre + spec_cut_lines(fs, ts, n, i) + spec_info_lines(rating),
            j,
        ) == Ok::<_, CutlistError>(expected_time_pair(ts, j)),
    decreases j - i,
{
    proof_strlit_cut_entries();
    reveal_strlit("StartFrame");
    reveal_strlit("DurationFrames");
    reveal_strlit("Start");
    reveal_strlit("Duration");
    reveal_strlit("StartFrame=");
    reveal_strlit("DurationFrames=");
    reveal_strlit("Start=");
    reveal_strlit("Duration=");
    reveal_strlit("Info");
    reveal_strlit("RatingByAuthor=");
    let info = spec_info_lines(rating);
    let ll = pre + spec_cut_lines(fs, ts, n, i) + info;
    let block = cut_block(fs, ts, i);
    let hdr_j = crate::ini::section_header(cut_section_name(j));
    assert(spec_cut_lines(fs, ts, n, i) =~= block + spec_cut_lines(fs, ts, n, i + 1));
    if i < j {
        lemma_cut_header_injective(i, j);
        assert(forall|k: int|
            0 <= k < (pre + block).len() ==> #[trigger] (pre + block)[k] != hdr_j) by {
            assert(block[0] == crate::ini::section_header(cut_section_name(i)));
            assert(block[0] != hdr_j);
            assert(hdr_j[0] == 91u8);
            assert(forall|k: int| 1 <= k < block.len() ==> #[trigger] block[k][0] != 91u8);
            assert(forall|k: int|
                1 <= k < block.len() ==> #[trigger] block[k] != hdr_j);
        }
        assert(ll =~= (pre + block) + spec_cut_lines(fs, ts, n, i + 1) + info);
        lemma_cut_get(fs, ts, n, rating, i + 1, j, pre + block);
    } else {
        let key_sf = crate::text::bytes_of("StartFrame"@);
        let key_df = crate::text::bytes_of("DurationFrames"@);
        let key_ts = crate::text::bytes_of("Start"@);
        let key_td = crate::text::bytes_of("Duration"@);
        assert(key_sf + seq![61u8] =~= crate::text::bytes_of("StartFrame="@));
        assert(key_df + seq![61u8] =~= crate::text::bytes_of("DurationFrames="@));
        assert(key_ts + seq![61u8] =~= crate::text::bytes_of("Start="@));
        assert(key_td + seq![61u8] =~= crate::text::bytes_of("Duration="@));
        let rest = spec_cut_lines(fs, ts, n, j + 1) + info;
        assert(rest[0].len() > 0 && rest[0][0] == 91u8) by {
            if j + 1 < n {
                assert(spec_cut_lines(fs, ts, n, j + 1) =~= cut_block(fs, ts, j + 1)
                    + spec_cut_lines(fs, ts, n, j + 2));
                assert(rest[0] == crate::ini::section_header(cut_section_name(j + 1)));
            } else {
                assert(spec_cut_lines(fs, ts, n, j + 1) =~= Seq::<Seq<u8>>::empty());
                assert(rest[0] == crate::ini::section_header(crate::text::bytes_of("Info"@)));
            }
        }
        let b = spec_cut_lines(fs, ts, n, j) + info;
        assert(ll =~= pre + b);
        assert(b[0] == hdr_j);
        crate::ini::lemma_section_start_concat(pre, b, cut_section_name(j), 0);
        assert(crate::ini::spec_section_start(b, cut_section_name(j), 0) == Some(0int));
        assert(crate::ini::spec_section_start(ll, cut_section_name(j), 0) == Some(
            pre.len() as int,
        ));
        let a2 = pre + seq![hdr_j];
        let entries = block.drop_first();
        let b2 = entries + rest;
        assert(ll =~= a2 + b2) by {
            assert(block =~= seq![hdr_j] + entries);
        }
        crate::ini::lemma_lookup_shift(a2, b2, key_sf, 0);
        crate::ini::lemma_lookup_shift(a2, b2, key_df, 0);
        crate::ini::lemma_lookup_shift(a2, b2, key_ts, 0);
        crate::ini::lemma_lookup_shift(a2, b2, key_td, 0);
        assert(a2.len() == pre.len() + 1);
        match fs {
            Some(v) => {
                let l1 = crate::text::bytes_of("StartFrame="@) + crate::text::spec_render_u64(
                    v[j].from.n as int,
                );
                let l2 = crate::text::bytes_of("DurationFrames="@)
                    + crate::text::spec_render_u64(v[j].to.n - v[j].from.n);
                crate::text::lemma_render_u64_digits(v[j].from.n as int);
                crate::text::lemma_render_u64_digits(v[j].to.n - v[j].from.n);
                assert(b2[0] == l1);
                assert(b2[1] == l2);
                assert(l1.take(11) =~= crate::text::bytes_of("StartFrame="@));
                assert(crate::ini::is_entry_for(l1, key_sf));
                assert(crate::ini::entry_value(l1, key_sf) =~= crate::text::spec_render_u64(
                    v[j].from.n as int,
                ));
                assert(!crate::ini::is_section_line(l1));
                assert(crate::ini::spec_lookup_from(b2, 0, key_sf) == Some(
                    crate::text::spec_render_u64(v[j].from.n as int),
                ));
                assert(!crate::ini::is_entry_for(l1, key_df)) by {
                    if crate::text::spec_starts_with(l1, key_df + seq![61u8]) {
                        assert(l1.take(15)[0] == l1[0]);
                        assert(false);
                    }
                }
                assert(l2.take(15) =~= crate::text::bytes_of("DurationFrames="@));
                assert(crate::ini::is_entry_for(l2, key_df));
                assert(crate::ini::entry_value(l2, key_df) =~= crate::text::spec_render_u64(
                    v[j].to.n - v[j].from.n,
                ));
                assert(!crate::ini::is_section_line(l2));
                assert(crate::ini::spec_lookup_from(b2, 1, key_df) == Some(
                    crate::text::spec_render_u64(v[j].to.n - v[j].from.n),
                ));
                assert(crate::ini::spec_lookup_from(b2, 0, key_df) == Some(
                    crate::text::spec_render_u64(v[j].to.n - v[j].from.n),
                ));
                lemma_parse_frame_of_render(v[j].from.n);
                lemma_parse_frame_of_render((v[j].to.n - v[j].from.n) as u64);
            },
            None => {
                match ts {
                    Some(w) => {
                        let l3 = crate::text::bytes_of("Start="@)
                            + crate::interval::spec_render_time(w[j].from.us);
                        let l4 = crate::text::bytes_of("Duration="@)
                            + crate::interval::spec_render_time(
                            (w[j].to.us - w[j].from.us) as u64,
                        );
                        assert(b2[0] == l3);
                        assert(b2[1] == l4);
                        assert(!crate::ini::is_entry_for(l3, key_sf)) by {
                            if crate::text::spec_starts_with(l3, key_sf + seq![61u8]) {
                                assert(l3.take(11)[5] == l3[5]);
                                assert(false);
                            }
                        }
                        assert(!crate::ini::is_entry_for(l4, key_sf)) by {
                            if crate::text::spec_starts_with(l4, key_sf + seq![61u8]) {
                                assert(l4.take(11)[0] == l4[0]);
                                assert(false);
                            }
                        }
                        assert(!crate::ini::is_entry_for(l3, key_df)) by {
                            if crate::text::spec_starts_with(l3, key_df + seq![61u8]) {
                                assert(l3.take(15)[0] == l3[0]);
                                assert(false);
                            }
                        }
                        assert(!crate::ini::is_entry_for(l4, key_df)) by {
                            if crate::text::spec_starts_with(l4, key_df + seq![61u8]) {
                                assert(l4.take(15)[8] == l4[8]);
                                assert(false);
                            }
                        }
                        assert(!crate::ini::is_section_line(l3));
                        assert(!crate::ini::is_section_line(l4));
                        assert(crate::ini::spec_lookup_from(b2, 0, key_sf) is None) by {
                            assert(b2[2] == rest[0]);
                            assert(crate::ini::is_section_line(b2[2]));
                            assert(crate::ini::spec_lookup_from(b2, 2, key_sf) is None);
                            assert(crate::ini::spec_lookup_from(b2, 1, key_sf)
                                == crate::ini::spec_lookup_from(b2, 2, key_sf));
                        }
                        assert(crate::ini::spec_lookup_from(b2, 0, key_df) is None) by {
                            assert(b2[2] == rest[0]);
                            assert(crate::ini::is_section_line(b2[2]));
                            assert(crate::ini::spec_lookup_from(b2, 2, key_df) is None);
                            assert(crate::ini::spec_lookup_from(b2, 1, key_df)
                                == crate::ini::spec_lookup_from(b2, 2, key_df));
                        }
                    },
                    None => {
                        assert(b2[0] == rest[0]);
                        assert(crate::ini::is_section_line(b2[0]));
                    },
                }
            },
        }
        match ts {
            Some(w) => {
                let base: int = match fs {
                    Some(_) => 2,
                    None => 0,
                };
                let l3 = crate::text::bytes_of("Start="@) + crate::interval::spec_render_time(
                    w[j].from.us,
                );
                let l4 = crate::text::bytes_of("Duration="@)
                    + crate::interval::spec_render_time((w[j].to.us - w[j].from.us) as u64);
                assert(b2[base] == l3);
                assert(b2[base + 1] == l4);
                match fs {
                    Some(v) => {
                        let l1 = crate::text::bytes_of("StartFrame="@)
                            + crate::text::spec_render_u64(v[j].from.n as int);
                        let l2 = crate::text::bytes_of("DurationFrames="@)
                            + crate::text::spec_render_u64(v[j].to.n - v[j].from.n);
                        assert(!crate::ini::is_entry_for(l1, key_ts)) by {
                            if crate::text::spec_starts_with(l1, key_ts + seq![61u8]) {
                                assert(l1.take(6)[5] == l1[5]);
                                assert(false);
                            }
                        }
                        assert(!crate::ini::is_entry_for(l2, key_ts)) by {
                            if crate::text::spec_starts_with(l2, key_ts + seq![61u8]) {
                                assert(l2.take(6)[0] == l2[0]);
                                assert(false);
                            }
                        }
                        assert(!crate::ini::is_entry_for(l1, key_td)) by {
                            if crate::text::spec_starts_with(l1, key_td + seq![61u8]) {
                                assert(l1.take(9)[0] == l1[0]);
                                assert(false);
                            }
                        }
                        assert(!crate::ini::is_entry_for(l2, key_td)) by {
                            if crate::text::spec_starts_with(l2, key_td + seq![61u8]) {
                                assert(l2.take(9)[8] == l2[8]);
                                assert(false);
                            }
                        }
                        assert(!crate::ini::is_section_line(l1));
                        assert(!crate::ini::is_section_line(l2));
                    },
                    None => {},
                }
                assert(l3.take(6) =~= crate::text::bytes_of("Start="@));
                assert(crate::ini::is_entry_for(l3, key_ts));
                assert(crate::ini::entry_value(l3, key_ts)
                    =~= crate::interval::spec_render_time(w[j].from.us));
                assert(!crate::ini::is_section_line(l3));
                assert(crate::ini::spec_lookup_from(b2, base, key_ts) == Some(
                    crate::interval::spec_render_time(w[j].from.us),
                ));
                assert(crate::ini::spec_lookup_from(b2, 0, key_ts) == Some(
                    crate::interval::spec_render_time(w[j].from.us),
                ));
                assert(!crate::ini::is_entry_for(l3, key_td)) by {
                    if crate::text::spec_starts_with(l3, key_td + seq![61u8]) {
                        assert(l3.take(9)[0] == l3[0]);
                        assert(false);
                    }
                }
                assert(l4.take(9) =~= crate::text::bytes_of("Duration="@));
                assert(crate::ini::is_entry_for(l4, key_td));
                assert(crate::ini::entry_value(l4, key_td)
                    =~= crate::interval::spec_render_time((w[j].to.us - w[j].from.us) as u64));
                assert(!crate::ini::is_section_line(l4));
                assert(crate::ini::spec_lookup_from(b2, base + 1, key_td) == Some(
                    crate::interval::spec_render_time((w[j].to.us - w[j].from.us) as u64),
                ));
                assert(crate::ini::spec_lookup_from(b2, base, key_td)
                    == crate::ini::spec_lookup_from(b2, base + 1, key_td));
                assert(crate::ini::spec_lookup_from(b2, 0, key_td) == Some(
                    crate::interval::spec_render_time((w[j].to.us - w[j].from.us) as u64),
                ));
                lemma_parse_decimal_of_render_time(w[j].from.us);
                lemma_parse_decimal_of_render_time((w[j].to.us - w[j].from.us) as u64);
            },
            None => {
                match fs {
                    Some(v) => {
                        let l1 = crate::text::bytes_of("StartFrame="@)
                            + crate::text::spec_render_u64(v[j].from.n as int);
                        let l2 = crate::text::bytes_of("DurationFrames="@)
                            + crate::text::spec_render_u64(v[j].to.n - v[j].from.n);
                        assert(!crate::ini::is_entry_for(l1, key_ts)) by {
                            if crate::text::spec_starts_with(l1, key_ts + seq![61u8]) {
                                assert(l1.take(6)[5] == l1[5]);
                                assert(false);
                            }
                        }
                        assert(!crate::ini::is_entry_for(l2, key_ts)) by {
                            if crate::text::spec_starts_with(l2, key_ts + seq![61u8]) {
                                assert(l2.take(6)[0] == l2[0]);
                                assert(false);
                            }
                        }
                        assert(!crate::ini::is_entry_for(l1, key_td)) by {
                            if crate::text::spec_starts_with(l1, key_td + seq![61u8]) {
                                assert(l1.take(9)[0] == l1[0]);
                                assert(false);
                            }
                        }
                        assert(!crate::ini::is_entry_for(l2, key_td)) by {
                            if crate::text::spec_starts_with(l2, key_td + seq![61u8]) {
                                assert(l2.take(9)[8] == l2[8]);
                                assert(false);
                            }
                        }
                        assert(b2[2] == rest[0]);
                        assert(crate::ini::is_section_line(b2[2]));
                        assert(crate::ini::spec_lookup_from(b2, 2, key_ts) is None);
                        assert(crate::ini::spec_lookup_from(b2, 1, key_ts)
                            == crate::ini::spec_lookup_from(b2, 2, key_ts));
                        assert(crate::ini::spec_lookup_from(b2, 0, key_ts) is None);
                        assert(crate::ini::spec_lookup_from(b2, 2, key_td) is None);
                        assert(crate::ini::spec_lookup_from(b2, 1, key_td)
                            == crate::ini::spec_lookup_from(b2, 2, key_td));
                        assert(crate::ini::spec_lookup_from(b2, 0, key_td) is None);
                    },
                    None => {
                        assert(b2[0] == rest[0]);
                    },
                }
            },
        }
    }
}

/// Shared facts about the emitted `General` and `Info` lines: all are
/// clean, none is a cut-section header or the `Meta` header, and the cut
/// count is found under its key.
#[verifier::rlimit(100)]
proof fn lemma_frame_lines(n: int, file: Seq<u8>, size: int, rating: int)
    requires
        0 <= n,
        0 <= size,
        0 <= rating,
        crate::ini::clean_line(file),
    ensures
        forall|k: int|
            0 <= k < spec_general_lines(n, file, size).len() ==> crate::ini::clean_line(
                #[trigger] spec_general_lines(n, file, size)[k],
            ),
        forall|k: int|
            0 <= k < spec_info_lines(rating).len() ==> crate::ini::clean_line(
                #[trigger] spec_info_lines(rating)[k],
            ),
        forall|j: int, k: int|
            0 <= j && 0 <= k < spec_general_lines(n, file, size).len()
                ==> #[trigger] spec_general_lines(n, file, size)[k]
                != crate::ini::section_header(#[trigger] cut_section_name(j)),
        forall|j: int, k: int|
            0 <= j && 0 <= k < spec_info_lines(rating).len() ==> #[trigger] spec_info_lines(
                rating,
            )[k] != crate::ini::section_header(#[trigger] cut_section_name(j)),
        forall|k: int|
            0 <= k < spec_general_lines(n, file, size).len()
                ==> #[trigger] spec_general_lines(n, file, size)[k]
                != crate::ini::section_header(crate::text::bytes_of("Meta"@)),
        forall|k: int|
            0 <= k < spec_info_lines(rating).len() ==> #[trigger] spec_info_lines(rating)[k]
                != crate::ini::section_header(crate::text::bytes_of("Meta"@)),
{
    reveal_strlit("General");
    reveal_strlit("Application=otr");
    reveal_strlit("Version=0.1.0");
    reveal_strlit("IntendedCutApplicationName=ffmpeg");
    reveal_strlit("NoOfCuts=");
    reveal_strlit("ApplyToFile=");
    reveal_strlit("OriginalFileSizeBytes=");
    reveal_strlit("Info");
    reveal_strlit("RatingByAuthor=");
    reveal_strlit("Cut");
    reveal_strlit("Meta");
    crate::text::lemma_render_u64_digits(n);
    crate::text::lemma_render_u64_digits(size);
    crate::text::lemma_render_u64_digits(rating);
    let g = spec_general_lines(n, file, size);
    let info = spec_info_lines(rating);
    assert(g.len() == 7);
    assert(info.len() == 2);
    assert forall|j: int, k: int|
        0 <= j && 0 <= k < g.len() implies #[trigger] g[k] != crate::ini::section_header(
        #[trigger] cut_section_name(j),
    ) by {
        let hdr = crate::ini::section_header(cut_section_name(j));
        crate::text::lemma_render_u64_digits(j);
        assert(hdr[0] == 91u8);
        assert(hdr[1] == 67u8);
        if k == 0 {
            assert(g[0][1] == 71u8);
        } else {
            assert(g[k][0] != 91u8);
        }
    }
    assert forall|j: int, k: int|
        0 <= j && 0 <= k < info.len() implies #[trigger] info[k] != crate::ini::section_header(
        #[trigger] cut_section_name(j),
    ) by {
        let hdr = crate::ini::section_header(cut_section_name(j));
        crate::text::lemma_render_u64_digits(j);
        assert(hdr[0] == 91u8);
        assert(hdr[1] == 67u8);
        if k == 0 {
            assert(info[0][1] == 73u8);
        } else {
            assert(info[1][0] == 82u8);
        }
    }
    let meta = crate::ini::section_header(crate::text::bytes_of("Meta"@));
    assert(meta[1] == 77u8);
    assert forall|k: int| 0 <= k < g.len() implies #[trigger] g[k] != meta by {
        if k == 0 {
            assert(g[0][1] == 71u8);
        } else {
            assert(g[k][0] != 91u8);
        }
    }
    assert(info[0][1] == 73u8);
    assert(info[1][0] == 82u8);
}

/// Collecting the cuts of the emitted text gives back the serialized
/// views from the given cut on.
proof fn lemma_collect_round_trip(
    fs: Option<Seq<Interval<Frame>>>,
    ts: Option<Seq<Interval<Time>>>,
    n: int,
    file: Seq<u8>,
    size: int,
    rating: int,
    i: int,
)
    requires
        0 <= i <= n,
        0 <= size,
        0 <= rating,
        crate::ini::clean_line(file),
        (fs matches Some(v) ==> v.len() == n && forall|k: int|
            0 <= k < v.len() ==> (#[trigger] v[k]).wf() && v[k].spec_len() > 0),
        (ts matches Some(v) ==> v.len() == n && forall|k: int|
            0 <= k < v.len() ==> (#[trigger] v[k]).wf() && v[k].spec_len() > 0),
    ensures
        spec_collect_cuts(
            spec_general_lines(n, file, size) + spec_cut_lines(fs, ts, n, 0) + spec_info_lines(
                rating,
            ),
            n,
            i,
            fs is Some,
            ts is Some,
        ) == Ok::<_, CutlistError>(
            (
                match fs {
                    Some(v) => v.skip(i),
                    None => Seq::empty(),
                },
                match ts {
                    Some(v) => v.skip(i),
                    None => Seq::empty(),
                },
            ),
        ),
    decreases n - i,
{
    let ll = spec_general_lines(n, file, size) + spec_cut_lines(fs, ts, n, 0) + spec_info_lines(
        rating,
    );
    if i >= n {
        match fs {
            Some(v) => {
                assert(v.skip(i) =~= Seq::<Interval<Frame>>::empty());
            },
            None => {},
        }
        match ts {
            Some(v) => {
                assert(v.skip(i) =~= Seq::<Interval<Time>>::empty());
            },
            None => {},
        }
    } else {
        lemma_frame_lines(n, file, size, rating);
        lemma_cut_get(fs, ts, n, rating, 0, i, spec_general_lines(n, file, size));
        lemma_collect_round_trip(fs, ts, n, file, size, rating, i + 1);
        match fs {
            Some(v) => {
                assert(pair_frame_interval((v[i].from.n, (v[i].to.n - v[i].from.n) as u64))
                    == v[i]);
                assert(seq![v[i]] + v.skip(i + 1) =~= v.skip(i));
            },
            None => {},
        }
        match ts {
            Some(v) => {
                assert(pair_time_interval((v[i].from.us, (v[i].to.us - v[i].from.us) as u64))
                    == v[i]);
                assert(seq![v[i]] + v.skip(i + 1) =~= v.skip(i));
            },
            None => {},
        }
    }
}

/// Serialization round trip: parsing a serialized cut list gives back
/// exactly the views that were written. This holds for every valid list
/// whose intervals all have positive length (the parser drops empty
/// ones), for every target file name free of line breaks, and every size
/// and rating; the provider identifier is not serialized, so the parsed
/// list carries none.
#[verifier::rlimit(100)]
pub proof fn lemma_serializer_round_trip(
    fs: Option<Seq<Interval<Frame>>>,
    ts: Option<Seq<Interval<Time>>>,
    file: Seq<u8>,
    size: u64,
    rating: u8,
)
    requires
        spec_validate_views(fs, ts) is Ok,
        (fs matches Some(v) ==> v.len() <= u64::MAX && forall|k: int|
            0 <= k < v.len() ==> (#[trigger] v[k]).spec_len() > 0),
        (ts matches Some(v) ==> v.len() <= u64::MAX && forall|k: int|
            0 <= k < v.len() ==> (#[trigger] v[k]).spec_len() > 0),
        crate::ini::clean_line(file),
    ensures
        spec_from_ini_text(
            crate::ini::spec_join_lines(
                spec_emit_lines(fs, ts, file, size as int, rating as int),
            ),
        ) == Ok::<_, CutlistError>((None::<ID>, fs, ts)),
{
    reveal_strlit("General");
    reveal_strlit("NoOfCuts");
    reveal_strlit("NoOfCuts=");
    reveal_strlit("Meta");
    reveal_strlit("CutlistId");
    reveal_strlit("Cut");
    reveal_strlit("Application=otr");
    reveal_strlit("Version=0.1.0");
    reveal_strlit("IntendedCutApplicationName=ffmpeg");
    reveal_strlit("ApplyToFile=");
    reveal_strlit("OriginalFileSizeBytes=");
    let n: int = match fs {
        Some(v) => v.len() as int,
        None => match ts {
            Some(v) => v.len() as int,
            None => 0,
        },
    };
    let g = spec_general_lines(n, file, size as int);
    let info = spec_info_lines(rating as int);
    let cuts = spec_cut_lines(fs, ts, n, 0);
    let ll = g + cuts + info;
    assert(ll =~= spec_emit_lines(fs, ts, file, size as int, rating as int));
    lemma_frame_lines(n, file, size as int, rating as int);
    lemma_cut_lines_shape(fs, ts, n, 0);
    assert(n > 0);
    // the text splits back into exactly the emitted lines
    assert forall|k: int| 0 <= k < ll.len() implies crate::ini::clean_line(#[trigger] ll[k]) by {
        if k < g.len() {
            assert(ll[k] == g[k]);
        } else if k < g.len() + cuts.len() {
            assert(ll[k] == cuts[k - g.len()]);
        } else {
            assert(ll[k] == info[k - g.len() - cuts.len()]);
        }
    }
    crate::ini::lemma_split_join(ll);
    // the Meta section is absent, so the identifier is none
    let meta = crate::ini::section_header(crate::text::bytes_of("Meta"@));
    assert forall|k: int| 0 <= k < ll.len() implies #[trigger] ll[k] != meta by {
        if k < g.len() {
            assert(ll[k] == g[k]);
        } else if k < g.len() + cuts.len() {
            let l = cuts[k - g.len()];
            assert(ll[k] == l);
            if l[0] == 91u8 {
                let j = choose|j: int|
                    0 <= j < n && l == crate::ini::section_header(#[trigger] cut_section_name(j));
                assert(l[1] == 67u8);
                assert(meta[1] == 77u8);
            } else {
                assert(meta[0] == 91u8);
            }
        } else {
            assert(ll[k] == info[k - g.len() - cuts.len()]);
        }
    }
    crate::ini::lemma_section_start_none(ll, crate::text::bytes_of("Meta"@), 0);
    assert(spec_cutlist_id(ll) == Ok::<Option<ID>, CutlistError>(None));
    // the cut count is read back out of the General section
    assert(ll[0] == crate::ini::section_header(crate::text::bytes_of("General"@)));
    assert(crate::ini::spec_section_start(ll, crate::text::bytes_of("General"@), 0) == Some(
        0int,
    ));
    let cuts_key = crate::text::bytes_of("NoOfCuts"@);
    assert(cuts_key + seq![61u8] =~= crate::text::bytes_of("NoOfCuts="@));
    crate::text::lemma_render_u64_digits(n);
    crate::text::lemma_render_u64_value(n);
    assert(ll[1] == g[1] && ll[2] == g[2] && ll[3] == g[3] && ll[4] == g[4]);
    assert(!crate::ini::is_entry_for(g[1], cuts_key)) by {
        if crate::text::spec_starts_with(g[1], cuts_key + seq![61u8]) {
            assert(g[1].take(9)[0] == g[1][0]);
            assert(false);
        }
    }
    assert(!crate::ini::is_entry_for(g[2], cuts_key)) by {
        if crate::text::spec_starts_with(g[2], cuts_key + seq![61u8]) {
            assert(g[2].take(9)[0] == g[2][0]);
            assert(false);
        }
    }
    assert(!crate::ini::is_entry_for(g[3], cuts_key)) by {
        if crate::text::spec_starts_with(g[3], cuts_key + seq![61u8]) {
            assert(g[3].take(9)[0] == g[3][0]);
            assert(false);
        }
    }
    assert(!crate::ini::is_section_line(g[1]) && !crate::ini::is_section_line(g[2])
        && !crate::ini::is_section_line(g[3]));
    assert(g[4].take(9) =~= crate::text::bytes_of("NoOfCuts="@));
    assert(crate::ini::is_entry_for(g[4], cuts_key));
    assert(crate::ini::entry_value(g[4], cuts_key) =~= crate::text::spec_render_u64(n));
    assert(crate::ini::spec_lookup_from(ll, 4, cuts_key) == Some(
        crate::text::spec_render_u64(n),
    ));
    assert(crate::ini::spec_lookup_from(ll, 3, cuts_key) == crate::ini::spec_lookup_from(
        ll,
        4,
        cuts_key,
    ));
    assert(crate::ini::spec_lookup_from(ll, 2, cuts_key) == crate::ini::spec_lookup_from(
        ll,
        3,
        cuts_key,
    ));
    assert(crate::ini::spec_lookup_from(ll, 1, cuts_key) == crate::ini::spec_lookup_from(
        ll,
        2,
        cuts_key,
    ));
    assert(spec_num_cuts(ll) == Ok::<u64, CutlistError>(n as u64));
    // the first cut names exactly the present views
    lemma_cut_get(fs, ts, n, rating as int, 0, 0, g);
    assert(spec_frame_pair(ll, 0) == Ok::<_, CutlistError>(expected_frame_pair(fs, 0)));
    assert(spec_time_pair(ll, 0) == Ok::<_, CutlistError>(expected_time_pair(ts, 0)));
    // collecting all cuts gives the full views back
    lemma_collect_round_trip(fs, ts, n, file, size as int, rating as int, 0);
    match fs {
        Some(v) => {
            assert(v.skip(0) =~= v);
        },
        None => {},
    }
    match ts {
        Some(v) => {
            assert(v.skip(0) =~= v);
        },
        None => {},
    }
    assert(spec_parse_cutlist_views(ll) == Ok::<_, CutlistError>((None::<ID>, fs, ts)));
}

/// The attribute naming a cut's start, by boundary kind.
pub fn item_attr_start(btype: crate::interval::BoundaryType) -> (r: Vec<u8>)
    ensures
        btype == crate::interval::BoundaryType::Frame ==> r@ == bytes_of("StartFrame"@),
        btype == crate::interval::BoundaryType::Time ==> r@ == bytes_of("Start"@),
{
    proof {
        reveal_strlit("StartFrame");
        reveal_strlit("Start");
    }
    match btype {
        crate::interval::BoundaryType::Frame => crate::text::lit_bytes("StartFrame"),
        crate::interval::BoundaryType::Time => crate::text::lit_bytes("Start"),
    }
}

/// The attribute naming a cut's duration, by boundary kind.
pub fn item_attr_duration(btype: crate::interval::BoundaryType) -> (r: Vec<u8>)
    ensures
        btype == crate::interval::BoundaryType::Frame ==> r@ == bytes_of("DurationFrames"@),
        btype == crate::interval::BoundaryType::Time ==> r@ == bytes_of("Duration"@),
{
    proof {
        reveal_strlit("DurationFrames");
        reveal_strlit("Duration");
    }
    match btype {
        crate::interval::BoundaryType::Frame => crate::text::lit_bytes("DurationFrames"),
        crate::interval::BoundaryType::Time => crate::text::lit_bytes("Duration"),
    }
}

/// Every interval a structured cut-list text yields has positive length:
/// zero-length cuts are dropped during parsing, not persisted.
pub proof fn lemma_collected_cuts_positive(
    lines: Seq<Seq<u8>>,
    n: int,
    i: int,
    want_f: bool,
    want_t: bool,
)
    ensures
        spec_collect_cuts(lines, n, i, want_f, want_t) matches Ok(r) ==> {
            &&& forall|k: int|
                0 <= k < r.0.len() ==> (#[trigger] r.0[k]).wf() && r.0[k].spec_len() > 0
            &&& forall|k: int|
                0 <= k < r.1.len() ==> (#[trigger] r.1[k]).wf() && r.1[k].spec_len() > 0
        },
    decreases n - i,
{
    if i < n {
        lemma_collected_cuts_positive(lines, n, i + 1, want_f, want_t);
    }
}

} // verus!
