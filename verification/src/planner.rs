//! The frame-accurate cutting planner: each requested interval splits into
//! a stream-copied middle aligned on key frames and re-encoded edges, all
//! expressed as time ranges for the external media tool; the intermediate
//! part files carry ordered names, and the final concatenation works off
//! an index of those names in lexicographic order.

use vstd::prelude::*;

use crate::interval::{Boundary, Frame, Interval, Time};
use crate::metadata::{Metadata, MetadataError};

verus! {

/// Which of the up-to-three pieces of one cut interval a part is.
#[derive(Clone, Copy, PartialEq, Eq, Structural, Debug)]
pub enum SubIntervalID {
    /// Before the first key frame: re-encoded.
    Pre,
    /// The key-frame-aligned middle: stream-copied (re-encoded only when
    /// the interval holds no key frame).
    Main,
    /// After the last key frame: re-encoded.
    Post,
}

impl SubIntervalID {
    /// The digit naming the piece in part file names.
    pub fn code(&self) -> (r: u64)
        ensures
            *self == SubIntervalID::Pre ==> r == 1,
            *self == SubIntervalID::Main ==> r == 2,
            *self == SubIntervalID::Post ==> r == 3,
    {
        match self {
            SubIntervalID::Pre => 1,
            SubIntervalID::Main => 2,
            SubIntervalID::Post => 3,
        }
    }
}

/// One planned invocation of the media tool: which piece, whether it is
/// re-encoded or stream-copied, and the time range it covers.
pub struct SubInterval {
    /// Which piece of the interval this is.
    pub id: SubIntervalID,
    /// Whether the piece is re-encoded; a stream copy otherwise.
    pub encode: bool,
    /// The piece's time range.
    pub range: Interval<Time>,
}

/// The time interval of frames `a` to `b` under the metadata table.
pub open spec fn frame_range_times(m: &Metadata, a: u64, b: u64) -> Interval<Time> {
    Interval {
        from: Time { us: m.spec_times()[a as int] },
        to: Time { us: m.spec_times()[b as int] },
    }
}

/// The plan for one frame-indexed interval. With no key frame inside, the
/// whole interval is one re-encoded piece. Otherwise the key-frame-aligned
/// middle is stream-copied, preceded by a re-encoded lead-in when frames
/// lie before the first key frame and followed by a re-encoded tail when
/// frames lie after the last one. Fails exactly when the interval reaches
/// past the frame table.
pub open spec fn spec_plan_frame_interval(m: &Metadata, iv: Interval<Frame>) -> Result<
    Seq<SubInterval>,
    MetadataError,
> {
    if iv.to.n >= m.spec_times().len() {
        Err(MetadataError::FrameOutOfRange)
    } else if !(exists|k: u64|
        m.spec_is_key_frame(k) && iv.from.n <= k <= iv.to.n) {
        Ok(
            seq![
                SubInterval {
                    id: SubIntervalID::Main,
                    encode: true,
                    range: frame_range_times(m, iv.from.n, iv.to.n),
                },
            ],
        )
    } else {
        let lo = spec_first_key_frame(m, iv);
        let hi = spec_last_key_frame(m, iv);
        Ok(
            (if iv.from.n < lo {
            seq![
                SubInterval {
                    id: SubIntervalID::Pre,
                    encode: true,
                    range: frame_range_times(m, iv.from.n, (lo - 1) as u64),
                },
            ]
        } else {
            Seq::empty()
            }) + seq![
                SubInterval {
                    id: SubIntervalID::Main,
                    encode: false,
                    range: frame_range_times(m, lo, hi),
                },
            ] + (if iv.to.n > hi {
            seq![
                SubInterval {
                    id: SubIntervalID::Post,
                    encode: true,
                    range: frame_range_times(m, (hi + 1) as u64, iv.to.n),
                },
            ]
            } else {
                Seq::empty()
            }),
        )
    }
}

/// The least key frame inside the interval.
pub open spec fn spec_first_key_frame(m: &Metadata, iv: Interval<Frame>) -> u64 {
    choose|k: u64|
        m.spec_is_key_frame(k) && iv.from.n <= k <= iv.to.n && forall|k2: u64|
            m.spec_is_key_frame(k2) && iv.from.n <= k2 <= iv.to.n ==> k <= k2
}

/// The greatest key frame inside the interval.
pub open spec fn spec_last_key_frame(m: &Metadata, iv: Interval<Frame>) -> u64 {
    choose|k: u64|
        m.spec_is_key_frame(k) && iv.from.n <= k <= iv.to.n && forall|k2: u64|
            m.spec_is_key_frame(k2) && iv.from.n <= k2 <= iv.to.n ==> k >= k2
}

/// Plan the pieces of one frame-indexed interval.
#[verifier::rlimit(50)]
pub fn plan_frame_interval(m: &Metadata, iv: Interval<Frame>) -> (r: Result<
    Vec<SubInterval>,
    MetadataError,
>)
    requires
        m.wf(),
        iv.wf(),
    ensures
        match r {
            Ok(v) => spec_plan_frame_interval(m, iv) == Ok::<_, MetadataError>(v@),
            Err(e) => spec_plan_frame_interval(m, iv) == Err::<Seq<SubInterval>, _>(e),
        },
{
    if iv.to().value() >= m.num_frames() as u64 {
        return Err(MetadataError::FrameOutOfRange);
    }
    let mut plan: Vec<SubInterval> = Vec::new();
    match iv.to_key_frames(m) {
        None => {
            let range = match iv.to_times(m) {
                Ok(t) => t,
                Err(e) => {
                    proof {
                        assert(false);
                    }
                    return Err(e);
                },
            };
            plan.push(SubInterval { id: SubIntervalID::Main, encode: true, range });
            proof {
                assert(plan@ =~= spec_plan_frame_interval(m, iv).unwrap());
            }
            Ok(plan)
        },
        Some(kf) => {
            proof {
                let lo = spec_first_key_frame(m, iv);
                let hi = spec_last_key_frame(m, iv);
                assert(m.spec_is_key_frame(kf.spec_from().n) && iv.from.n <= kf.spec_from().n
                    <= iv.to.n && forall|k2: u64|
                    m.spec_is_key_frame(k2) && iv.from.n <= k2 <= iv.to.n ==> kf.spec_from().n
                        <= k2);
                assert(m.spec_is_key_frame(kf.spec_to().n) && iv.from.n <= kf.spec_to().n
                    <= iv.to.n && forall|k2: u64|
                    m.spec_is_key_frame(k2) && iv.from.n <= k2 <= iv.to.n ==> kf.spec_to().n
                        >= k2);
                assert(lo == kf.spec_from().n);
                assert(hi == kf.spec_to().n);
            }
            if iv.from().value() < kf.from().value() {
                let pre = Interval::<Frame>::from_from_to(
                    iv.from(),
                    Frame { n: kf.from().value() - 1 },
                );
                let range = match pre.to_times(m) {
                    Ok(t) => t,
                    Err(e) => {
                        proof {
                            assert(false);
                        }
                        return Err(e);
                    },
                };
                plan.push(SubInterval { id: SubIntervalID::Pre, encode: true, range });
            }
            let range = match kf.to_times(m) {
                Ok(t) => t,
                Err(e) => {
                    proof {
                        assert(false);
                    }
                    return Err(e);
                },
            };
            plan.push(SubInterval { id: SubIntervalID::Main, encode: false, range });
            if iv.to().value() > kf.to().value() {
                let post = Interval::<Frame>::from_from_to(
                    Frame { n: kf.to().value() + 1 },
                    iv.to(),
                );
                let range = match post.to_times(m) {
                    Ok(t) => t,
                    Err(e) => {
                        proof {
                            assert(false);
                        }
                        return Err(e);
                    },
                };
                plan.push(SubInterval { id: SubIntervalID::Post, encode: true, range });
            }
            proof {
                assert(plan@ =~= spec_plan_frame_interval(m, iv).unwrap());
            }
            Ok(plan)
        },
    }
}

/// Plan the pieces of one time-indexed interval: with frames available the
/// interval converts to its nearest frames and follows the frame plan; a
/// file without frames copies the interval verbatim as its middle.
pub fn plan_time_interval(m: &Metadata, iv: Interval<Time>) -> (r: Result<
    Vec<SubInterval>,
    MetadataError,
>)
    requires
        m.wf(),
        iv.wf(),
    ensures
        m.spec_times().len() == 0 ==> (r matches Ok(v) && v@ == seq![
            SubInterval { id: SubIntervalID::Main, encode: false, range: iv },
        ]),
        m.spec_times().len() > 0 ==> match r {
            Ok(v) => exists|f: Interval<Frame>|
                {
                    &&& f.wf()
                    &&& crate::metadata::spec_nearest_frame(m, iv.spec_from().us, f.spec_from().n)
                    &&& crate::metadata::spec_nearest_frame(m, iv.spec_to().us, f.spec_to().n)
                    &&& #[trigger] spec_plan_frame_interval(m, f) == Ok::<_, MetadataError>(v@)
                },
            Err(e) => exists|f: Interval<Frame>|
                {
                    &&& f.wf()
                    &&& crate::metadata::spec_nearest_frame(m, iv.spec_from().us, f.spec_from().n)
                    &&& crate::metadata::spec_nearest_frame(m, iv.spec_to().us, f.spec_to().n)
                    &&& #[trigger] spec_plan_frame_interval(m, f) == Err::<Seq<SubInterval>, _>(e)
                },
        },
{
    if !m.has_frames() {
        let mut plan: Vec<SubInterval> = Vec::new();
        plan.push(SubInterval { id: SubIntervalID::Main, encode: false, range: iv });
        proof {
            assert(plan@ =~= seq![SubInterval { id: SubIntervalID::Main, encode: false, range: iv }]);
        }
        return Ok(plan);
    }
    let f = match iv.to_frames(m) {
        Ok(f) => f,
        Err(e) => {
            proof {
                assert(false);
            }
            return Err(e);
        },
    };
    plan_frame_interval(m, f)
}

/// Whether `a` is lexicographically at most `b`, byte by byte.
pub open spec fn spec_lex_le(a: Seq<u8>, b: Seq<u8>) -> bool
    decreases a.len(),
{
    if a.len() == 0 {
        true
    } else if b.len() == 0 {
        false
    } else if a.first() < b.first() {
        true
    } else if a.first() > b.first() {
        false
    } else {
        spec_lex_le(a.drop_first(), b.drop_first())
    }
}

/// Compare two names lexicographically.
pub fn lex_le(a: &[u8], b: &[u8]) -> (r: bool)
    ensures
        r == spec_lex_le(a@, b@),
    decreases a@.len(),
{
    if a.len() == 0 {
        return true;
    }
    if b.len() == 0 {
        return false;
    }
    if a[0] < b[0] {
        return true;
    }
    if a[0] > b[0] {
        return false;
    }
    let ar = &a[1..a.len()];
    let br = &b[1..b.len()];
    proof {
        assert(ar@ =~= a@.drop_first());
        assert(br@ =~= b@.drop_first());
    }
    lex_le(ar, br)
}

/// The lexicographic order is total.
pub proof fn lemma_lex_total(a: Seq<u8>, b: Seq<u8>)
    ensures
        spec_lex_le(a, b) || spec_lex_le(b, a),
    decreases a.len(),
{
    if a.len() > 0 && b.len() > 0 && a.first() == b.first() {
        lemma_lex_total(a.drop_first(), b.drop_first());
    }
}

/// The lexicographic order is transitive.
pub proof fn lemma_lex_trans(a: Seq<u8>, b: Seq<u8>, c: Seq<u8>)
    requires
        spec_lex_le(a, b),
        spec_lex_le(b, c),
    ensures
        spec_lex_le(a, c),
    decreases a.len(),
{
    if a.len() > 0 && b.len() > 0 && c.len() > 0 && a.first() == b.first() && b.first()
        == c.first() {
        lemma_lex_trans(a.drop_first(), b.drop_first(), c.drop_first());
    }
}

/// Whether a name sequence is sorted lexicographically.
pub open spec fn spec_names_sorted(ns: Seq<Seq<u8>>) -> bool {
    forall|i: int, j: int| 0 <= i < j < ns.len() ==> spec_lex_le(#[trigger] ns[i], #[trigger] ns[j])
}

/// Sort part names lexicographically.
pub fn sort_names(names: Vec<Vec<u8>>) -> (r: Vec<Vec<u8>>)
    ensures
        spec_names_sorted(r.deep_view()),
        r.deep_view().to_multiset() == names.deep_view().to_multiset(),
{
    let ghost orig = names.deep_view();
    let mut out: Vec<Vec<u8>> = Vec::new();
    let mut names = names;
    let mut i: usize = 0;
    proof {
        broadcast use vstd::seq_lib::group_to_multiset_ensures;
        assert(orig.skip(0) =~= orig);
        assert(out.deep_view().to_multiset().len() == 0);
        assert(out.deep_view().to_multiset().add(orig.skip(0).to_multiset()) =~= orig.to_multiset());
    }
    while i < names.len()
        invariant
            0 <= i <= names@.len(),
            orig == names.deep_view(),
            spec_names_sorted(out.deep_view()),
            out.deep_view().to_multiset().add(orig.skip(i as int).to_multiset())
                == orig.to_multiset(),
        decreases names@.len() - i,
    {
        let name = crate::text::sub_vec(names[i].as_slice(), 0, names[i].len());
        proof {
            broadcast use vstd::seq_lib::group_to_multiset_ensures;
            assert(name@ == orig[i as int]);
            assert(orig.skip(i as int).drop_first() =~= orig.skip(i + 1));
            assert(orig.skip(i as int).first() == orig[i as int]);
            assert(orig.skip(i as int) =~= seq![orig[i as int]] + orig.skip(i + 1));
            vstd::seq_lib::lemma_multiset_commutative(seq![orig[i as int]], orig.skip(i + 1));
            assert(seq![orig[i as int]].to_multiset() =~= Seq::<Seq<u8>>::empty().push(
                orig[i as int],
            ).to_multiset()) by {
                assert(seq![orig[i as int]] =~= Seq::<Seq<u8>>::empty().push(orig[i as int]));
            }
        }
        insert_name_sorted(&mut out, name);
        i = i + 1;
    }
    proof {
        broadcast use vstd::seq_lib::group_to_multiset_ensures;
        assert(orig.skip(i as int).len() == 0);
        assert(orig.skip(i as int).to_multiset().len() == 0);
        assert(out.deep_view().to_multiset() =~= orig.to_multiset());
    }
    out
}

/// Insert a name into a lexicographically sorted vector.
fn insert_name_sorted(out: &mut Vec<Vec<u8>>, name: Vec<u8>)
    requires
        spec_names_sorted(old(out).deep_view()),
    ensures
        spec_names_sorted(final(out).deep_view()),
        final(out).deep_view().to_multiset() == old(out).deep_view().to_multiset().insert(name@),
{
    let mut p: usize = 0;
    while p < out.len() && lex_le(out[p].as_slice(), name.as_slice())
        invariant
            0 <= p <= out@.len(),
            forall|j: int| 0 <= j < p ==> spec_lex_le(#[trigger] out.deep_view()[j], name@),
            spec_names_sorted(out.deep_view()),
            out@ == old(out)@,
        decreases out@.len() - p,
    {
        proof {
            assert(out.deep_view()[p as int] == out@[p as int]@);
        }
        p = p + 1;
    }
    let ghost before = out.deep_view();
    proof {
        if p < out@.len() {
            assert(before[p as int] == out@[p as int]@);
            lemma_lex_total(before[p as int], name@);
            assert(spec_lex_le(name@, before[p as int]));
        }
    }
    out.insert(p, name);
    proof {
        assert(out.deep_view() =~~= before.insert(p as int, name@));
        vstd::seq_lib::to_multiset_insert(before, p as int, name@);
        let t = out.deep_view();
        assert(forall|j: int| p < j < t.len() ==> t[j] == before[j - 1]);
        assert(forall|j: int| 0 <= j < p ==> t[j] == before[j]);
        assert forall|j: int| p < j < t.len() implies spec_lex_le(name@, #[trigger] t[j]) by {
            if j == p + 1 {
                assert(t[j] == before[p as int]);
            } else {
                lemma_lex_trans(name@, before[p as int], before[j - 1]);
            }
        }
        assert forall|i: int, j: int|
            0 <= i < j < t.len() implies spec_lex_le(#[trigger] t[i], #[trigger] t[j]) by {
            if i < p && j == p {
                assert(t[i] == before[i] && t[j] == name@);
            } else if i == p {
                assert(spec_lex_le(name@, t[j]));
            } else if i < p && j > p {
                if i == j - 1 {
                    assert(t[i] == before[i] && t[j] == before[i]);
                } else {
                    assert(spec_lex_le(before[i], before[j - 1]));
                }
            }
        }
        assert(spec_names_sorted(t));
    }
}

/// The name of one part file: `part-`, the one-based interval number
/// zero-padded to three digits, `-`, the piece digit, a dot and the
/// extension.
pub open spec fn spec_part_file_name(interval_no: int, code: int, ext: Seq<u8>) -> Seq<u8> {
    crate::text::bytes_of("part-"@) + crate::text::spec_render_u64_pad(interval_no, 3) + seq![45u8]
        + crate::text::spec_render_u64(code) + seq![46u8] + ext
}

/// Build the name of one part file.
pub fn part_file_name(interval_no: u64, sub: SubIntervalID, ext: &[u8]) -> (r: Vec<u8>)
    ensures
        sub == SubIntervalID::Pre ==> r@ == spec_part_file_name(interval_no as int, 1, ext@),
        sub == SubIntervalID::Main ==> r@ == spec_part_file_name(interval_no as int, 2, ext@),
        sub == SubIntervalID::Post ==> r@ == spec_part_file_name(interval_no as int, 3, ext@),
{
    proof {
        reveal_strlit("part-");
    }
    let mut r = crate::text::lit_bytes("part-");
    let mut num = crate::text::render_u64_pad(interval_no, 3);
    r.append(&mut num);
    r.push(45u8);
    let mut code = crate::text::render_u64(sub.code());
    r.append(&mut code);
    r.push(46u8);
    crate::text::push_bytes(&mut r, ext);
    proof {
        if sub == SubIntervalID::Pre {
            assert(r@ =~= spec_part_file_name(interval_no as int, 1, ext@));
        }
        if sub == SubIntervalID::Main {
            assert(r@ =~= spec_part_file_name(interval_no as int, 2, ext@));
        }
        if sub == SubIntervalID::Post {
            assert(r@ =~= spec_part_file_name(interval_no as int, 3, ext@));
        }
    }
    r
}

/// The line of the concatenation index naming one part.
pub open spec fn spec_index_line(name: Seq<u8>) -> Seq<u8> {
    crate::text::bytes_of("file '"@) + name + seq![39u8]
}

/// What to do with the collected part files: nothing to concatenate is an
/// error, one part is renamed into place, several are concatenated off an
/// index file.
pub enum ConcatPlan {
    /// Rename the single part, whose name is carried, to the output.
    RenameSingle(Vec<u8>),
    /// Concatenate off an index file with the carried content.
    Concat(Vec<u8>),
}

/// Decide the concatenation step from the part names, which are sorted
/// lexicographically first: none is an error; one is renamed into place;
/// several are listed, in order, in an index file whose lines name each
/// part.
pub fn concatenation_plan(names: Vec<Vec<u8>>) -> (r: Result<ConcatPlan, MetadataError>)
    ensures
        r is Err <==> names@.len() == 0,
        r matches Ok(p) ==> match p {
            ConcatPlan::RenameSingle(n) => names@.len() == 1 && n@ == names.deep_view()[0],
            ConcatPlan::Concat(content) => names@.len() > 1 && exists|sorted: Seq<Seq<u8>>|
                {
                    &&& spec_names_sorted(sorted)
                    &&& #[trigger] sorted.to_multiset() == names.deep_view().to_multiset()
                    &&& content@ == crate::ini::spec_join_lines(
                        sorted.map_values(|n: Seq<u8>| spec_index_line(n)),
                    )
                },
        },
{
    proof {
        reveal_strlit("file '");
    }
    if names.len() == 0 {
        return Err(MetadataError::NoFrames);
    }
    let ghost nv = names.deep_view();
    let sorted = sort_names(names);
    proof {
        broadcast use vstd::seq_lib::group_to_multiset_ensures;
        assert(sorted.deep_view().to_multiset().len() == nv.to_multiset().len());
        assert(sorted.deep_view().len() == nv.len());
    }
    if sorted.len() == 1 {
        let n = crate::text::sub_vec(sorted[0].as_slice(), 0, sorted[0].len());
        proof {
            let sv = sorted.deep_view();
            assert(n@ == sv[0]);
            assert(sv.contains(sv[0]));
            assert(sv.to_multiset().count(sv[0]) > 0);
            assert(nv.to_multiset().count(sv[0]) > 0);
            assert(nv.contains(sv[0]));
            let k = choose|k: int| 0 <= k < nv.len() && nv[k] == sv[0];
            assert(k == 0);
            assert(nv[0] == sv[0]);
        }
        return Ok(ConcatPlan::RenameSingle(n));
    }
    let mut lines: Vec<Vec<u8>> = Vec::new();
    let mut i: usize = 0;
    while i < sorted.len()
        invariant
            0 <= i <= sorted@.len(),
            lines.deep_view() =~= sorted.deep_view().take(i as int).map_values(
                |n: Seq<u8>| spec_index_line(n),
            ),
            vstd::string::is_ascii("file '"),
            "file '"@ =~= seq!['f', 'i', 'l', 'e', ' ', '\''],
        decreases sorted@.len() - i,
    {
        let mut l = crate::text::lit_bytes("file '");
        crate::text::push_bytes(&mut l, sorted[i].as_slice());
        l.push(39u8);
        proof {
            assert(sorted.deep_view()[i as int] == sorted@[i as int]@);
            assert(l@ =~= spec_index_line(sorted.deep_view()[i as int]));
        }
        let ghost prev = lines.deep_view();
        lines.push(l);
        proof {
            assert(lines.deep_view() =~~= prev.push(l@));
            assert(sorted.deep_view().take(i + 1) =~~= sorted.deep_view().take(i as int).push(
                sorted.deep_view()[i as int],
            ));
            assert(prev.push(l@) =~~= sorted.deep_view().take(i + 1).map_values(
                |n: Seq<u8>| spec_index_line(n),
            ));
        }
        i = i + 1;
    }
    let content = crate::ini::join_lines(&lines);
    proof {
        broadcast use vstd::seq_lib::group_to_multiset_ensures;
        let sv = sorted.deep_view();
        assert(sv.take(i as int) =~= sv);
        assert(spec_names_sorted(sv));
        assert(sv.to_multiset() == nv.to_multiset());
        assert(content@ == crate::ini::spec_join_lines(
            sv.map_values(|n: Seq<u8>| spec_index_line(n)),
        ));
    }
    Ok(ConcatPlan::Concat(content))
}

/// The errors of the cut stage, as a closed sum, so that the driver can
/// react to a missing cut list and a failed submission distinctly.
pub enum CutError {
    /// Any other failure, with its message.
    Any(Vec<u8>),
    /// A failure without further detail.
    Default,
    /// No cut list exists for the recording.
    NoCutlist,
    /// The recording was cut, but uploading the list failed; the message
    /// is carried.
    CutlistSubmissionFailed(Vec<u8>),
}

impl CutError {
    /// The error's message text.
    pub fn message(&self) -> (r: Vec<u8>)
        ensures
            self matches CutError::Any(m) ==> r@ == crate::text::bytes_of("Error: "@) + m@,
            self matches CutError::Default ==> r@ == crate::text::bytes_of("Default cut error"@),
            self matches CutError::NoCutlist ==> r@ == crate::text::bytes_of(
                "No cut list exists"@,
            ),
            self matches CutError::CutlistSubmissionFailed(m) ==> r@ == crate::text::bytes_of(
                "Submission of cut list failed: "@,
            ) + m@,
    {
        proof {
            reveal_strlit("Error: ");
            reveal_strlit("Default cut error");
            reveal_strlit("No cut list exists");
            reveal_strlit("Submission of cut list failed: ");
        }
        match self {
            CutError::Any(m) => {
                let mut r = crate::text::lit_bytes("Error: ");
                crate::text::push_bytes(&mut r, m.as_slice());
                r
            },
            CutError::Default => crate::text::lit_bytes("Default cut error"),
            CutError::NoCutlist => crate::text::lit_bytes("No cut list exists"),
            CutError::CutlistSubmissionFailed(m) => {
                let mut r = crate::text::lit_bytes("Submission of cut list failed: ");
                crate::text::push_bytes(&mut r, m.as_slice());
                r
            },
        }
    }
}

} // verus!
