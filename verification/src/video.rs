//! The recording model of the pipeline driver: a recording's stable key,
//! its lifecycle status, the working sub-directories, the path it takes
//! through them, and the ordering and de-duplication the driver applies
//! before it runs the stages.

use vstd::prelude::*;

use crate::planner::{lemma_lex_total, lemma_lex_trans, lex_le, spec_lex_le};

verus! {

/// The stable identifier of a recording, extracted from its file name and
/// unchanged across the stages.
pub struct Key {
    /// The key's text.
    pub bytes: Vec<u8>,
}

impl Key {
    /// Build a key.
    pub fn new(bytes: Vec<u8>) -> (r: Key)
        ensures
            r.bytes@ == bytes@,
    {
        Key { bytes }
    }

    /// A copy of the key.
    pub fn duplicate(&self) -> (r: Key)
        ensures
            r.bytes@ == self.bytes@,
    {
        Key { bytes: crate::text::sub_vec(self.bytes.as_slice(), 0, self.bytes.len()) }
    }
}

/// The lifecycle status of a recording; it only ever moves forward.
#[derive(Clone, Copy, PartialEq, Eq, Structural, Debug)]
pub enum Status {
    Encoded,
    Decoded,
    Cut,
}

/// The rank of a status in the lifecycle order.
pub open spec fn spec_status_rank(s: Status) -> int {
    match s {
        Status::Encoded => 0,
        Status::Decoded => 1,
        Status::Cut => 2,
    }
}

impl Status {
    /// The rank of the status in the lifecycle order.
    pub fn rank(self) -> (r: u64)
        ensures
            r == spec_status_rank(self),
    {
        match self {
            Status::Encoded => 0,
            Status::Decoded => 1,
            Status::Cut => 2,
        }
    }

    /// The following status, if any: encoded recordings decode, decoded
    /// ones are cut, cut ones are done.
    pub fn next(self) -> (r: Option<Status>)
        ensures
            self == Status::Encoded ==> r == Some(Status::Decoded),
            self == Status::Decoded ==> r == Some(Status::Cut),
            self == Status::Cut ==> r is None,
    {
        match self {
            Status::Encoded => Some(Status::Decoded),
            Status::Decoded => Some(Status::Cut),
            Status::Cut => None,
        }
    }

    /// The working sub-directory holding recordings of this status.
    pub fn as_dir_kind(self) -> (r: DirKind)
        ensures
            self == Status::Encoded ==> r == DirKind::Encoded,
            self == Status::Decoded ==> r == DirKind::Decoded,
            self == Status::Cut ==> r == DirKind::Cut,
    {
        match self {
            Status::Encoded => DirKind::Encoded,
            Status::Decoded => DirKind::Decoded,
            Status::Cut => DirKind::Cut,
        }
    }
}

/// The kinds of working sub-directories.
#[derive(Clone, Copy, PartialEq, Eq, Structural, Debug)]
pub enum DirKind {
    Root,
    Encoded,
    Decoded,
    Cut,
    Archive,
}

impl DirKind {
    /// The path of the directory relative to the working root.
    pub fn relative_path(&self) -> (r: Vec<u8>)
        ensures
            *self == DirKind::Root ==> r@ == crate::text::bytes_of(""@),
            *self == DirKind::Encoded ==> r@ == crate::text::bytes_of("Encoded"@),
            *self == DirKind::Decoded ==> r@ == crate::text::bytes_of("Decoded"@),
            *self == DirKind::Cut ==> r@ == crate::text::bytes_of("Cut"@),
            *self == DirKind::Archive ==> r@ == crate::text::bytes_of("Decoded/Archive"@),
    {
        proof {
            reveal_strlit("");
            reveal_strlit("Encoded");
            reveal_strlit("Decoded");
            reveal_strlit("Cut");
            reveal_strlit("Decoded/Archive");
        }
        match self {
            DirKind::Root => crate::text::lit_bytes(""),
            DirKind::Encoded => crate::text::lit_bytes("Encoded"),
            DirKind::Decoded => crate::text::lit_bytes("Decoded"),
            DirKind::Cut => crate::text::lit_bytes("Cut"),
            DirKind::Archive => crate::text::lit_bytes("Decoded/Archive"),
        }
    }
}

/// A recording in the working tree: its current path, its stable key, its
/// status, and the error recorded when a stage failed.
pub struct Video {
    /// The current path of the recording's file.
    pub path: Vec<u8>,
    /// The stable key.
    pub key: Key,
    /// The lifecycle status.
    pub status: Status,
    /// The message of a failed stage, when one failed.
    pub error: Option<Vec<u8>>,
}

/// The file-name part of a path: everything after the last slash.
pub open spec fn spec_file_name(path: Seq<u8>) -> Seq<u8>
    decreases path.len(),
{
    if path.len() == 0 {
        path
    } else if path.last() == 47u8 {
        Seq::empty()
    } else {
        match crate::text::spec_find(path, 47u8, 0) {
            None => path,
            Some(_) => spec_file_name(path.drop_first()),
        }
    }
}

/// The name a recording's file takes after the next stage: decoding
/// strips the container extension, cutting inserts `cut` before the last
/// extension; a cut recording keeps its name.
pub open spec fn spec_next_file_name(name: Seq<u8>, status: Status) -> Seq<u8> {
    match status {
        Status::Encoded => match spec_last_dot(name) {
            None => name,
            Some(d) => name.take(d),
        },
        Status::Decoded => match spec_last_dot(name) {
            None => name + crate::text::bytes_of(".cut"@),
            Some(d) => name.take(d) + crate::text::bytes_of(".cut"@) + name.skip(d),
        },
        Status::Cut => name,
    }
}

/// Position of the last dot of a name.
pub open spec fn spec_last_dot(name: Seq<u8>) -> Option<int>
    decreases name.len(),
{
    if name.len() == 0 {
        None
    } else if name.last() == 46u8 {
        Some(name.len() - 1)
    } else {
        spec_last_dot(name.drop_last())
    }
}

/// Find the last dot of a name.
pub fn last_dot(name: &[u8]) -> (r: Option<usize>)
    ensures
        match r {
            Some(d) => spec_last_dot(name@) == Some(d as int) && d < name@.len(),
            None => spec_last_dot(name@) is None,
        },
    decreases name@.len(),
{
    if name.len() == 0 {
        return None;
    }
    if name[name.len() - 1] == 46 {
        return Some(name.len() - 1);
    }
    let head = &name[0..name.len() - 1];
    proof {
        assert(head@ =~= name@.drop_last());
    }
    match last_dot(head) {
        Some(d) => Some(d),
        None => None,
    }
}

impl Video {
    /// Build a recording from its classified parts.
    pub fn new(path: Vec<u8>, key: Key, status: Status) -> (r: Video)
        ensures
            r.path@ == path@,
            r.key.bytes@ == key.bytes@,
            r.status == status,
            r.error is None,
    {
        Video { path, key, status, error: None }
    }

    /// The recording's stable key.
    pub fn key(&self) -> (r: &Key)
        ensures
            r.bytes@ == self.key.bytes@,
    {
        &self.key
    }

    /// The recording's status.
    pub fn status(&self) -> (r: Status)
        ensures
            r == self.status,
    {
        self.status
    }

    /// The error recorded for the recording, if a stage failed.
    pub fn error(&self) -> (r: &Option<Vec<u8>>)
        ensures
            r == &self.error,
    {
        &self.error
    }

    /// Record a stage failure.
    pub fn set_error(&mut self, message: Vec<u8>)
        ensures
            final(self).error matches Some(m) && m@ == message@,
            final(self).path@ == old(self).path@,
            final(self).key.bytes@ == old(self).key.bytes@,
            final(self).status == old(self).status,
    {
        self.error = Some(message);
    }

    /// The file name of the recording's path.
    pub fn file_name(&self) -> (r: Vec<u8>)
        ensures
            r@ == spec_file_name(self.path@),
    {
        file_name_of(self.path.as_slice())
    }

    /// Whether the recording has reached its terminal status.
    pub fn is_processed(&self) -> (r: bool)
        ensures
            r == (self.status == Status::Cut),
    {
        self.status == Status::Cut
    }

    /// The path the recording's file takes after the next stage, in the
    /// given target directory.
    pub fn next_path(&self, target_dir: &[u8]) -> (r: Vec<u8>)
        ensures
            r@ == target_dir@ + seq![47u8] + spec_next_file_name(
                spec_file_name(self.path@),
                self.status,
            ),
    {
        let name = self.file_name();
        let next = next_file_name(name.as_slice(), self.status);
        let mut r = crate::text::sub_vec(target_dir, 0, target_dir.len());
        r.push(47u8);
        crate::text::push_bytes(&mut r, next.as_slice());
        proof {
            assert(r@ =~= target_dir@ + seq![47u8] + spec_next_file_name(
                spec_file_name(self.path@),
                self.status,
            ));
        }
        r
    }

    /// Advance the recording to its next status, moving its path into the
    /// given target directory; a cut recording stays as it is.
    pub fn change_to_next_status(&mut self, target_dir: &[u8])
        ensures
            final(self).key.bytes@ == old(self).key.bytes@,
            final(self).error == old(self).error,
            old(self).status == Status::Cut ==> final(self).status == Status::Cut
                && final(self).path@ == old(self).path@,
            old(self).status != Status::Cut ==> {
                &&& spec_status_rank(final(self).status) == spec_status_rank(old(self).status) + 1
                &&& final(self).path@ == target_dir@ + seq![47u8] + spec_next_file_name(
                    spec_file_name(old(self).path@),
                    old(self).status,
                )
            },
    {
        match self.status.next() {
            Some(next) => {
                let p = self.next_path(target_dir);
                self.path = p;
                self.status = next;
            },
            None => {},
        }
    }
}

/// The file-name part of a path.
pub fn file_name_of(path: &[u8]) -> (r: Vec<u8>)
    ensures
        r@ == spec_file_name(path@),
    decreases path@.len(),
{
    if path.len() == 0 {
        return crate::text::sub_vec(path, 0, 0);
    }
    if path[path.len() - 1] == 47 {
        let r: Vec<u8> = Vec::new();
        proof {
            assert(r@ =~= spec_file_name(path@));
        }
        return r;
    }
    proof {
        crate::text::lemma_find_characterization(path@, 47u8, 0);
    }
    match crate::text::find_byte(path, 47, 0) {
        None => crate::text::sub_vec(path, 0, path.len()),
        Some(_) => {
            let tail = &path[1..path.len()];
            proof {
                assert(tail@ =~= path@.drop_first());
            }
            file_name_of(tail)
        },
    }
}

/// The name a recording's file takes after the next stage.
pub fn next_file_name(name: &[u8], status: Status) -> (r: Vec<u8>)
    ensures
        r@ == spec_next_file_name(name@, status),
{
    proof {
        reveal_strlit(".cut");
    }
    match status {
        Status::Encoded => {
            match last_dot(name) {
                None => crate::text::sub_vec(name, 0, name.len()),
                Some(d) => {
                    let r = crate::text::sub_vec(name, 0, d);
                    proof {
                        assert(r@ =~= name@.take(d as int));
                    }
                    r
                },
            }
        },
        Status::Decoded => {
            match last_dot(name) {
                None => {
                    let mut r = crate::text::sub_vec(name, 0, name.len());
                    crate::text::push_lit(&mut r, ".cut");
                    proof {
                        assert(r@ =~= name@ + crate::text::bytes_of(".cut"@));
                    }
                    r
                },
                Some(d) => {
                    let mut r = crate::text::sub_vec(name, 0, d);
                    crate::text::push_lit(&mut r, ".cut");
                    let ext = crate::text::sub_vec(name, d, name.len());
                    crate::text::push_bytes(&mut r, ext.as_slice());
                    proof {
                        assert(ext@ =~= name@.skip(d as int));
                        assert(r@ =~= name@.take(d as int) + crate::text::bytes_of(".cut"@)
                            + name@.skip(d as int));
                    }
                    r
                },
            }
        },
        Status::Cut => crate::text::sub_vec(name, 0, name.len()),
    }
}

/// The driver's order on recordings: by key ascending, and for one key by
/// status descending, so that the most advanced form comes first.
pub open spec fn spec_video_le(a: &Video, b: &Video) -> bool {
    if a.key.bytes@ != b.key.bytes@ {
        spec_lex_le(a.key.bytes@, b.key.bytes@)
    } else {
        spec_status_rank(a.status) >= spec_status_rank(b.status)
    }
}

/// Whether a recording sequence is in the driver's order.
pub open spec fn spec_videos_sorted(vs: Seq<Video>) -> bool {
    forall|i: int, j: int| 0 <= i < j < vs.len() ==> spec_video_le(&vs[i], &vs[j])
}

/// Compare two recordings in the driver's order.
pub fn video_le(a: &Video, b: &Video) -> (r: bool)
    ensures
        r == spec_video_le(a, b),
{
    if !crate::text::bytes_eq(a.key.bytes.as_slice(), b.key.bytes.as_slice()) {
        lex_le(a.key.bytes.as_slice(), b.key.bytes.as_slice())
    } else {
        a.status.rank() >= b.status.rank()
    }
}

/// The driver's order is total.
pub proof fn lemma_video_le_total(a: &Video, b: &Video)
    ensures
        spec_video_le(a, b) || spec_video_le(b, a),
{
    lemma_lex_total(a.key.bytes@, b.key.bytes@);
}

/// Sort recordings by key ascending and status descending.
pub fn sort_videos(videos: Vec<Video>) -> (r: Vec<Video>)
    ensures
        spec_videos_sorted(r@),
        r@.to_multiset() == videos@.to_multiset(),
{
    let ghost orig = videos@;
    let mut rest = videos;
    let mut out: Vec<Video> = Vec::new();
    proof {
        broadcast use vstd::seq_lib::group_to_multiset_ensures;
        assert(out@.to_multiset().len() == 0);
        assert(out@.to_multiset().add(rest@.to_multiset()) =~= orig.to_multiset());
    }
    while rest.len() > 0
        invariant
            spec_videos_sorted(out@),
            out@.to_multiset().add(rest@.to_multiset()) == orig.to_multiset(),
        decreases rest@.len(),
    {
        let ghost rest_before = rest@;
        let v = rest.remove(0);
        proof {
            broadcast use vstd::seq_lib::group_to_multiset_ensures;
            assert(rest_before.remove(0).to_multiset() =~= rest_before.to_multiset().remove(
                rest_before[0],
            ));
            assert(rest_before.to_multiset().count(rest_before[0]) > 0) by {
                assert(rest_before.contains(rest_before[0]));
            }
            assert(rest@.to_multiset().insert(v) =~= rest_before.to_multiset());
        }
        insert_video_sorted(&mut out, v);
    }
    proof {
        broadcast use vstd::seq_lib::group_to_multiset_ensures;
        assert(rest@.to_multiset().len() == 0);
        assert(out@.to_multiset() =~= orig.to_multiset());
    }
    out
}

/// Insert a recording into a vector sorted in the driver's order.
fn insert_video_sorted(out: &mut Vec<Video>, v: Video)
    requires
        spec_videos_sorted(old(out)@),
    ensures
        spec_videos_sorted(final(out)@),
        final(out)@.to_multiset() == old(out)@.to_multiset().insert(v),
{
    let mut p: usize = 0;
    while p < out.len() && video_le(&out[p], &v)
        invariant
            0 <= p <= out@.len(),
            forall|j: int| 0 <= j < p ==> spec_video_le(&out@[j], &v),
            spec_videos_sorted(out@),
            out@ == old(out)@,
        decreases out@.len() - p,
    {
        p = p + 1;
    }
    let ghost before = out@;
    proof {
        if p < out@.len() {
            lemma_video_le_total(&before[p as int], &v);
            assert(spec_video_le(&v, &before[p as int]));
        }
    }
    out.insert(p, v);
    proof {
        assert(out@ =~= before.insert(p as int, v));
        vstd::seq_lib::to_multiset_insert(before, p as int, v);
        let t = out@;
        assert(forall|j: int| p < j < t.len() ==> t[j] == before[j - 1]);
        assert(forall|j: int| 0 <= j < p ==> t[j] == before[j]);
        assert forall|j: int| p < j < t.len() implies spec_video_le(&v, &t[j]) by {
            if j == p + 1 {
                assert(t[j] == before[p as int]);
            } else {
                lemma_video_le_trans(&v, &before[p as int], &before[j - 1]);
            }
        }
        assert forall|i: int, j: int|
            0 <= i < j < t.len() implies spec_video_le(&t[i], &t[j]) by {
            if i < p && j == p {
                assert(t[i] == before[i] && t[j] == v);
            } else if i == p {
                assert(spec_video_le(&v, &t[j]));
            } else if i < p && j > p {
                if i == j - 1 {
                    assert(t[i] == before[i] && t[j] == before[i]);
                } else {
                    assert(spec_video_le(&before[i], &before[j - 1]));
                }
            }
        }
        assert(spec_videos_sorted(t));
    }
}

/// The driver's order is transitive.
pub proof fn lemma_video_le_trans(a: &Video, b: &Video, c: &Video)
    requires
        spec_video_le(a, b),
        spec_video_le(b, c),
    ensures
        spec_video_le(a, c),
{
    if a.key.bytes@ != b.key.bytes@ && b.key.bytes@ != c.key.bytes@ {
        if a.key.bytes@ == c.key.bytes@ {
            lemma_lex_antisym(a.key.bytes@, b.key.bytes@);
        } else {
            lemma_lex_trans(a.key.bytes@, b.key.bytes@, c.key.bytes@);
        }
    }
}

/// Two names below each other are equal.
pub proof fn lemma_lex_antisym(a: Seq<u8>, b: Seq<u8>)
    requires
        spec_lex_le(a, b),
        spec_lex_le(b, a),
    ensures
        a == b,
    decreases a.len(),
{
    if a.len() > 0 && b.len() > 0 && a.first() == b.first() {
        lemma_lex_antisym(a.drop_first(), b.drop_first());
        assert(a =~= seq![a.first()] + a.drop_first());
        assert(b =~= seq![b.first()] + b.drop_first());
    }
}

/// What de-duplication keeps: the first recording, and every recording
/// whose key differs from its predecessor's. On a sorted sequence that is
/// the highest-status form of each key.
pub open spec fn spec_dedup_keep(vs: Seq<Video>, i: int) -> bool {
    i == 0 || vs[i].key.bytes@ != vs[i - 1].key.bytes@
}

/// The kept recordings from position `i` on, in order.
pub open spec fn spec_dedup_from(vs: Seq<Video>, i: int) -> Seq<Video>
    decreases vs.len() - i,
{
    if i < 0 || i >= vs.len() {
        Seq::empty()
    } else if spec_dedup_keep(vs, i) {
        seq![vs[i]] + spec_dedup_from(vs, i + 1)
    } else {
        spec_dedup_from(vs, i + 1)
    }
}

/// Drop consecutive recordings with a repeated key, keeping the first of
/// each run: the result is exactly the subsequence of recordings whose
/// key differs from their predecessor's.
pub fn dedup_videos(videos: Vec<Video>) -> (r: Vec<Video>)
    ensures
        r@ == spec_dedup_from(videos@, 0),
{
    let ghost orig = videos@;
    let mut rest = videos;
    let mut out: Vec<Video> = Vec::new();
    let mut last_key: Option<Key> = None;
    let ghost mut i: int = 0;
    while rest.len() > 0
        invariant
            0 <= i,
            i + rest@.len() == orig.len(),
            rest@ =~= orig.skip(i),
            out@ + spec_dedup_from(orig, i) =~= spec_dedup_from(orig, 0),
            match last_key {
                Some(lk) => i > 0 && lk.bytes@ == orig[i - 1].key.bytes@,
                None => i == 0,
            },
        decreases rest@.len(),
    {
        let v = rest.remove(0);
        proof {
            assert(orig.skip(i)[0] == orig[i]);
            assert(orig.skip(i).remove(0) =~= orig.skip(i + 1));
            assert(v == orig[i]);
        }
        let keep = match &last_key {
            None => true,
            Some(lk) => !crate::text::bytes_eq(lk.bytes.as_slice(), v.key.bytes.as_slice()),
        };
        last_key = Some(v.key.duplicate());
        let ghost out_before = out@;
        if keep {
            proof {
                assert(spec_dedup_keep(orig, i));
            }
            out.push(v);
            proof {
                assert(spec_dedup_from(orig, i) =~= seq![orig[i]] + spec_dedup_from(orig, i + 1));
                assert(out@ + spec_dedup_from(orig, i + 1) =~= out_before + spec_dedup_from(
                    orig,
                    i,
                ));
            }
        } else {
            proof {
                assert(!spec_dedup_keep(orig, i));
                assert(spec_dedup_from(orig, i) =~= spec_dedup_from(orig, i + 1));
            }
        }
        proof {
            i = i + 1;
        }
    }
    proof {
        assert(spec_dedup_from(orig, i) =~= Seq::<Video>::empty());
        assert(out@ =~= spec_dedup_from(orig, 0));
    }
    out
}

} // verus!
