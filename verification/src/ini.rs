//! The line-oriented text shape of cut-list files: lines separated by
//! newlines (a trailing carriage return is tolerated), section headers
//! written `[Name]`, and entries written `Key=Value`. A value is everything
//! after the first equals sign; a lookup finds the first matching section
//! and, within it, the first entry for the key before the next section
//! header.

use vstd::prelude::*;

use crate::text::{spec_find, spec_starts_with, find_byte, starts_with, sub_vec};

verus! {

/// A line with a trailing carriage return removed.
pub open spec fn strip_cr(l: Seq<u8>) -> Seq<u8> {
    if l.len() > 0 && l.last() == 13u8 {
        l.drop_last()
    } else {
        l
    }
}

/// The lines of a text: split at every newline, each line stripped of a
/// trailing carriage return. A trailing newline adds no empty final line.
pub open spec fn spec_split_lines(s: Seq<u8>) -> Seq<Seq<u8>>
    decreases s.len(),
{
    match spec_find(s, 10u8, 0) {
        None => if s.len() == 0 {
            Seq::empty()
        } else {
            seq![strip_cr(s)]
        },
        Some(e) => if !(0 <= e < s.len()) {
            Seq::empty()
        } else {
            seq![strip_cr(s.take(e))] + spec_split_lines(s.skip(e + 1))
        },
    }
}

/// Split a text into its lines.
pub fn split_lines(s: &[u8]) -> (r: Vec<Vec<u8>>)
    ensures
        r.deep_view() == spec_split_lines(s@),
    decreases s@.len(),
{
    proof {
        crate::text::lemma_find_characterization(s@, 10u8, 0);
    }
    let e = match find_byte(s, 10, 0) {
        None => {
            if s.len() == 0 {
                let r: Vec<Vec<u8>> = Vec::new();
                proof {
                    assert(r.deep_view() =~= spec_split_lines(s@));
                }
                return r;
            }
            let line = strip_cr_exec(s, s.len());
            let mut r: Vec<Vec<u8>> = Vec::new();
            r.push(line);
            proof {
                assert(s@.take(s@.len() as int) =~= s@);
                assert(r.deep_view().len() == 1);
                assert(r.deep_view()[0] == strip_cr(s@));
                assert(r.deep_view() =~= spec_split_lines(s@));
            }
            return r;
        },
        Some(e) => e,
    };
    let line = strip_cr_exec(s, e);
    let rest0 = &s[e..s.len()];
    let rest = &rest0[1..rest0.len()];
    proof {
        assert(rest@ =~= s@.skip(e + 1));
    }
    let mut tail = split_lines(rest);
    let ghost tailv = tail.deep_view();
    let mut r: Vec<Vec<u8>> = Vec::new();
    r.push(line);
    r.append(&mut tail);
    proof {
        assert(r@.len() == 1 + tailv.len());
        assert(r.deep_view()[0] == strip_cr(s@.take(e as int)));
        assert(forall|k: int|
            0 <= k < tailv.len() ==> r.deep_view()[k + 1] == #[trigger] tailv[k]);
        assert(r.deep_view() =~= seq![strip_cr(s@.take(e as int))] + spec_split_lines(
            s@.skip(e + 1),
        ));
    }
    r
}

/// Copy the first `end` bytes of `s`, dropping one trailing carriage
/// return.
fn strip_cr_exec(s: &[u8], end: usize) -> (r: Vec<u8>)
    requires
        end <= s@.len(),
    ensures
        r@ == strip_cr(s@.take(end as int)),
{
    if end > 0 && s[end - 1] == 13 {
        let r = sub_vec(s, 0, end - 1);
        proof {
            assert(s@.subrange(0, end - 1) =~= strip_cr(s@.take(end as int)));
        }
        r
    } else {
        let r = sub_vec(s, 0, end);
        proof {
            assert(s@.subrange(0, end as int) =~= strip_cr(s@.take(end as int)));
        }
        r
    }
}

/// The header line of a section.
pub open spec fn section_header(name: Seq<u8>) -> Seq<u8> {
    seq![91u8] + name + seq![93u8]
}

/// Whether a line opens some section.
pub open spec fn is_section_line(l: Seq<u8>) -> bool {
    l.len() > 0 && l[0] == 91u8
}

/// Whether a line is the entry of `key`.
pub open spec fn is_entry_for(l: Seq<u8>, key: Seq<u8>) -> bool {
    spec_starts_with(l, key + seq![61u8])
}

/// The value of an entry line: what follows the first equals sign after
/// the key.
pub open spec fn entry_value(l: Seq<u8>, key: Seq<u8>) -> Seq<u8> {
    l.skip(key.len() as int + 1)
}

/// Index of the first line that is the header of `name`, searching from
/// `from`.
pub open spec fn spec_section_start(lines: Seq<Seq<u8>>, name: Seq<u8>, from: int) -> Option<int>
    decreases lines.len() - from,
{
    if from < 0 || from >= lines.len() {
        None
    } else if lines[from] == section_header(name) {
        Some(from)
    } else {
        spec_section_start(lines, name, from + 1)
    }
}

/// First value of `key` between line `from` and the next section header.
pub open spec fn spec_lookup_from(lines: Seq<Seq<u8>>, from: int, key: Seq<u8>) -> Option<Seq<u8>>
    decreases lines.len() - from,
{
    if from < 0 || from >= lines.len() {
        None
    } else if is_section_line(lines[from]) {
        None
    } else if is_entry_for(lines[from], key) {
        Some(entry_value(lines[from], key))
    } else {
        spec_lookup_from(lines, from + 1, key)
    }
}

/// The value of `key` in section `name`: found in the first occurrence of
/// the section, before the next section header.
pub open spec fn spec_ini_get(lines: Seq<Seq<u8>>, name: Seq<u8>, key: Seq<u8>) -> Option<Seq<u8>> {
    match spec_section_start(lines, name, 0) {
        None => None,
        Some(j) => spec_lookup_from(lines, j + 1, key),
    }
}

/// Look up `key` in section `name` of the given lines.
pub fn ini_get(lines: &Vec<Vec<u8>>, name: &[u8], key: &[u8]) -> (r: Option<Vec<u8>>)
    ensures
        match r {
            Some(v) => spec_ini_get(lines.deep_view(), name@, key@) == Some(v@),
            None => spec_ini_get(lines.deep_view(), name@, key@) is None,
        },
{
    let ghost lv = lines.deep_view();
    let mut header: Vec<u8> = Vec::new();
    header.push(91u8);
    crate::text::push_bytes(&mut header, name);
    header.push(93u8);
    proof {
        assert(header@ =~= section_header(name@));
    }
    let mut key_eq: Vec<u8> = Vec::new();
    crate::text::push_bytes(&mut key_eq, key);
    key_eq.push(61u8);
    proof {
        assert(key_eq@ =~= key@ + seq![61u8]);
    }
    let mut i: usize = 0;
    while i < lines.len()
        invariant
            0 <= i <= lines@.len(),
            lv == lines.deep_view(),
            header@ == section_header(name@),
            key_eq@ == key@ + seq![61u8],
            spec_section_start(lv, name@, 0) == spec_section_start(lv, name@, i as int),
        decreases lines@.len() - i,
    {
        proof {
            assert(lv[i as int] == lines@[i as int]@);
        }
        if crate::text::bytes_eq(lines[i].as_slice(), header.as_slice()) {
            // inside the section: scan entries up to the next section header
            let mut j: usize = i + 1;
            while j < lines.len()
                invariant
                    i < j <= lines@.len(),
                    lv == lines.deep_view(),
                    key_eq@ == key@ + seq![61u8],
                    spec_section_start(lv, name@, 0) == Some(i as int),
                    spec_lookup_from(lv, i + 1, key@) == spec_lookup_from(lv, j as int, key@),
                decreases lines@.len() - j,
            {
                proof {
                    assert(lv[j as int] == lines@[j as int]@);
                }
                let line = &lines[j];
                if line.len() > 0 && line[0] == 91 {
                    return None;
                }
                if starts_with(line.as_slice(), key_eq.as_slice()) {
                    let v = sub_vec(line.as_slice(), key.len() + 1, line.len());
                    proof {
                        assert(v@ =~= entry_value(lv[j as int], key@));
                    }
                    return Some(v);
                }
                j = j + 1;
            }
            return None;
        }
        i = i + 1;
    }
    None
}

/// Append one line and a newline to a buffer.
pub fn push_line(out: &mut Vec<u8>, line: &[u8])
    ensures
        final(out)@ == old(out)@ + line@ + seq![10u8],
{
    crate::text::push_bytes(out, line);
    out.push(10u8);
}

/// The text of a line sequence: every line followed by a newline.
pub open spec fn spec_join_lines(lines: Seq<Seq<u8>>) -> Seq<u8>
    decreases lines.len(),
{
    if lines.len() == 0 {
        Seq::empty()
    } else {
        lines.first() + seq![10u8] + spec_join_lines(lines.drop_first())
    }
}

/// A line fit for joining: free of newlines and carriage returns.
pub open spec fn clean_line(l: Seq<u8>) -> bool {
    forall|i: int| 0 <= i < l.len() ==> l[i] != 10u8 && l[i] != 13u8
}

/// Splitting joined clean lines gives the lines back.
pub proof fn lemma_split_join(lines: Seq<Seq<u8>>)
    requires
        forall|i: int| 0 <= i < lines.len() ==> clean_line(#[trigger] lines[i]),
    ensures
        spec_split_lines(spec_join_lines(lines)) == lines,
    decreases lines.len(),
{
    if lines.len() == 0 {
        assert(spec_split_lines(Seq::empty()) =~= Seq::<Seq<u8>>::empty());
    } else {
        let l0 = lines.first();
        let s = spec_join_lines(lines);
        let rest = spec_join_lines(lines.drop_first());
        assert(s =~= l0 + seq![10u8] + rest);
        assert(s[l0.len() as int] == 10u8);
        assert(forall|j: int| 0 <= j < l0.len() ==> s[j] == l0[j] && #[trigger] s[j] != 10u8);
        lemma_find_at(s, 10u8, l0.len() as int);
        assert(spec_find(s, 10u8, 0) == Some(l0.len() as int));
        assert(s.take(l0.len() as int) =~= l0);
        assert(strip_cr(l0) =~= l0);
        assert(s.skip(l0.len() as int + 1) =~= rest);
        lemma_split_join(lines.drop_first());
        assert(spec_split_lines(s) =~= seq![l0] + spec_split_lines(rest));
        assert(seq![l0] + lines.drop_first() =~= lines);
    }
}

/// When `b` first occurs at position `k`, the search finds `k`.
pub proof fn lemma_find_at(s: Seq<u8>, b: u8, k: int)
    requires
        0 <= k < s.len(),
        s[k] == b,
        forall|j: int| 0 <= j < k ==> s[j] != b,
    ensures
        spec_find(s, b, 0) == Some(k),
{
    lemma_find_at_from(s, b, 0, k);
}

/// Generalization of `lemma_find_at` to searches from any start.
pub proof fn lemma_find_at_from(s: Seq<u8>, b: u8, from: int, k: int)
    requires
        0 <= from <= k < s.len(),
        s[k] == b,
        forall|j: int| from <= j < k ==> s[j] != b,
    ensures
        spec_find(s, b, from) == Some(k),
    decreases k - from,
{
    if from < k {
        lemma_find_at_from(s, b, from + 1, k);
    }
}

/// Joining distributes over concatenation of line sequences.
pub proof fn lemma_join_concat(a: Seq<Seq<u8>>, b: Seq<Seq<u8>>)
    ensures
        spec_join_lines(a + b) == spec_join_lines(a) + spec_join_lines(b),
    decreases a.len(),
{
    if a.len() == 0 {
        assert(a + b =~= b);
        assert(spec_join_lines(a) =~= Seq::<u8>::empty());
        assert(spec_join_lines(a) + spec_join_lines(b) =~= spec_join_lines(b));
    } else {
        assert((a + b).first() == a.first());
        assert((a + b).drop_first() =~= a.drop_first() + b);
        lemma_join_concat(a.drop_first(), b);
        assert(spec_join_lines(a + b) =~= spec_join_lines(a) + spec_join_lines(b));
    }
}

/// Join lines into a text, a newline after each line.
pub fn join_lines(lines: &Vec<Vec<u8>>) -> (r: Vec<u8>)
    ensures
        r@ == spec_join_lines(lines.deep_view()),
{
    let ghost lv = lines.deep_view();
    let mut out: Vec<u8> = Vec::new();
    let mut i: usize = 0;
    proof {
        assert(lv.take(0) =~= Seq::<Seq<u8>>::empty());
        assert(out@ =~= spec_join_lines(lv.take(0)));
    }
    while i < lines.len()
        invariant
            0 <= i <= lines@.len(),
            lv == lines.deep_view(),
            out@ == spec_join_lines(lv.take(i as int)),
        decreases lines@.len() - i,
    {
        push_line(&mut out, lines[i].as_slice());
        proof {
            let l = lv[i as int];
            assert(lv.take(i + 1) =~= lv.take(i as int) + seq![l]);
            lemma_join_concat(lv.take(i as int), seq![l]);
            assert(spec_join_lines(seq![l]) =~= l + seq![10u8]) by {
                assert(seq![l].drop_first() =~= Seq::<Seq<u8>>::empty());
                assert(seq![l].first() == l);
                assert(spec_join_lines(Seq::<Seq<u8>>::empty()) =~= Seq::<u8>::empty());
                assert(l + seq![10u8] + Seq::<u8>::empty() =~= l + seq![10u8]);
            }
            assert(out@ =~= spec_join_lines(lv.take(i + 1)));
        }
        i = i + 1;
    }
    proof {
        assert(lv.take(i as int) =~= lv);
    }
    out
}

/// Without an occurrence there is nothing to find.
pub proof fn lemma_find_none(s: Seq<u8>, b: u8)
    requires
        forall|i: int| 0 <= i < s.len() ==> s[i] != b,
    ensures
        spec_find(s, b, 0) is None,
{
    crate::text::lemma_find_characterization(s, b, 0);
    match spec_find(s, b, 0) {
        Some(j) => {
            assert(s[j] == b);
            assert(false);
        },
        None => {},
    }
}

/// A lookup that starts behind a prefix reads only the suffix.
pub proof fn lemma_lookup_shift(a: Seq<Seq<u8>>, b: Seq<Seq<u8>>, key: Seq<u8>, q: int)
    requires
        0 <= q,
    ensures
        spec_lookup_from(a + b, a.len() + q, key) == spec_lookup_from(b, q, key),
    decreases b.len() - q,
{
    if q < b.len() {
        assert((a + b)[a.len() + q] == b[q]);
        lemma_lookup_shift(a, b, key, q + 1);
    }
}

/// A section search that starts behind a prefix reads only the suffix.
pub proof fn lemma_section_start_shift(a: Seq<Seq<u8>>, b: Seq<Seq<u8>>, name: Seq<u8>, q: int)
    requires
        0 <= q,
    ensures
        spec_section_start(a + b, name, a.len() + q) == match spec_section_start(b, name, q) {
            Some(k) => Some(a.len() + k),
            None => None,
        },
    decreases b.len() - q,
{
    if q < b.len() {
        assert((a + b)[a.len() + q] == b[q]);
        lemma_section_start_shift(a, b, name, q + 1);
    }
}

/// A section search walks over a prefix free of the section's header.
pub proof fn lemma_section_start_concat(a: Seq<Seq<u8>>, b: Seq<Seq<u8>>, name: Seq<u8>, from: int)
    requires
        0 <= from <= a.len(),
        forall|j: int| from <= j < a.len() ==> a[j] != section_header(name),
    ensures
        spec_section_start(a + b, name, from) == match spec_section_start(b, name, 0) {
            Some(k) => Some(a.len() + k),
            None => None,
        },
    decreases a.len() - from,
{
    if from == a.len() {
        lemma_section_start_shift(a, b, name, 0);
    } else {
        assert((a + b)[from] == a[from]);
        lemma_section_start_concat(a, b, name, from + 1);
    }
}

/// Without its header anywhere, a section is not found.
pub proof fn lemma_section_start_none(lines: Seq<Seq<u8>>, name: Seq<u8>, from: int)
    requires
        0 <= from,
        forall|k: int| from <= k < lines.len() ==> #[trigger] lines[k] != section_header(name),
    ensures
        spec_section_start(lines, name, from) is None,
    decreases lines.len() - from,
{
    if from < lines.len() {
        lemma_section_start_none(lines, name, from + 1);
    }
}

} // verus!
