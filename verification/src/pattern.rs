//! Path patterns and the matching algorithm.
//!
//! A pattern is a path whose segments are either literals or placeholders;
//! a segment wrapped in braces, as in `{id}`, is a placeholder and matches
//! any single non-empty request segment. All other segments are literal and
//! must agree byte for byte, case-sensitively. Matching never crosses a
//! `/`: a pattern matches only paths with exactly as many segments. A
//! placeholder's value is only matched, never captured: dispatch decides
//! match or no match, and a handler that wants the value reads it from
//! the request path itself.
//!
//! Paths are handled as bytes: Rust string equality is byte equality, and
//! `/`, `{` and `}` are single bytes that never occur inside the encoding
//! of any other character, so splitting and comparing bytes reads a path
//! exactly as splitting and comparing its text would.

use vstd::prelude::*;
use vstd::string::StringSliceAdditionalSpecFns;

verus! {

/// The byte value of `/`.
pub const SLASH_BYTE: u8 = 47;

/// The byte value of `{`.
pub const OPEN_BRACE_BYTE: u8 = 123;

/// The byte value of `}`.
pub const CLOSE_BRACE_BYTE: u8 = 125;

/// The index of the first `/` in `p`, or `p.len()` when `p` holds none.
pub open spec fn first_slash(p: Seq<u8>) -> int
    decreases p.len(),
{
    if p.len() == 0 {
        0
    } else if p[0] == SLASH_BYTE {
        0
    } else {
        1 + first_slash(p.skip(1))
    }
}

/// `first_slash` lies between 0 and the length, points at a `/` whenever
/// one exists, and nothing before it is a `/`.
pub proof fn lemma_first_slash(p: Seq<u8>)
    ensures
        0 <= first_slash(p) <= p.len(),
        first_slash(p) < p.len() ==> p[first_slash(p)] == SLASH_BYTE,
        forall|j: int| 0 <= j < first_slash(p) ==> p[j] != SLASH_BYTE,
    decreases p.len(),
{
    if p.len() == 0 {
    } else if p[0] == SLASH_BYTE {
    } else {
        lemma_first_slash(p.skip(1));
        assert forall|j: int| 0 <= j < first_slash(p) implies p[j] != SLASH_BYTE by {
            if j > 0 {
                assert(p.skip(1)[j - 1] == p[j]);
            }
        }
    }
}

/// The segments of `p`, split on `/`. Empty segments are kept, and a path
/// without any `/` is a single segment, so `p` always has at least one
/// segment and a leading `/` contributes an empty first segment.
pub open spec fn segments_of(p: Seq<u8>) -> Seq<Seq<u8>>
    decreases p.len(),
    via segments_of_decreases
{
    if first_slash(p) >= p.len() {
        seq![p]
    } else {
        seq![p.subrange(0, first_slash(p))] + segments_of(
            p.subrange(first_slash(p) + 1, p.len() as int),
        )
    }
}

#[via_fn]
proof fn segments_of_decreases(p: Seq<u8>) {
    lemma_first_slash(p);
}

/// Every path has at least one segment.
pub proof fn lemma_segments_nonempty(p: Seq<u8>)
    ensures
        segments_of(p).len() >= 1,
{
}

/// Unfolds `segments_of` at the first `/`: when the first `/` of `p`
/// stands at `k`, the segments of `p` are the bytes before `k` followed by
/// the segments of the bytes after `k`.
pub proof fn lemma_segments_step(p: Seq<u8>, k: int)
    requires
        0 <= k < p.len(),
        p[k] == SLASH_BYTE,
        forall|j: int| 0 <= j < k ==> p[j] != SLASH_BYTE,
    ensures
        segments_of(p) == seq![p.subrange(0, k)] + segments_of(p.subrange(k + 1, p.len() as int)),
{
    lemma_first_slash(p);
    assert(first_slash(p) == k);
}

/// A path without any `/` is its own single segment.
pub proof fn lemma_segments_whole(p: Seq<u8>)
    requires
        forall|j: int| 0 <= j < p.len() ==> p[j] != SLASH_BYTE,
    ensures
        segments_of(p) == seq![p],
{
    lemma_first_slash(p);
}

/// A placeholder segment: wrapped in braces, as in `{id}`. Anything else,
/// a stray brace included, is a literal segment.
pub open spec fn seg_is_param(seg: Seq<u8>) -> bool {
    &&& seg.len() >= 2
    &&& seg[0] == OPEN_BRACE_BYTE
    &&& seg[seg.len() - 1] == CLOSE_BRACE_BYTE
}

/// One pattern segment against one request segment: a placeholder matches
/// any non-empty request segment; a literal matches only itself.
pub open spec fn seg_matches(pat_seg: Seq<u8>, req_seg: Seq<u8>) -> bool {
    if seg_is_param(pat_seg) {
        req_seg.len() > 0
    } else {
        pat_seg == req_seg
    }
}

/// Whether the pattern `pattern` matches the request path `path`: both
/// split into the same number of segments, and every pattern segment
/// matches the request segment at its position.
pub open spec fn pattern_matches(pattern: Seq<u8>, path: Seq<u8>) -> bool {
    let ps = segments_of(pattern);
    let rs = segments_of(path);
    &&& ps.len() == rs.len()
    &&& forall|i: int| 0 <= i < ps.len() ==> seg_matches(#[trigger] ps[i], rs[i])
}

/// Whether `pattern` holds at least one placeholder segment. Patterns
/// with one go to the parameterized table; all others are exact.
pub open spec fn has_param_segment(pattern: Seq<u8>) -> bool {
    exists|i: int| 0 <= i < segments_of(pattern).len() && seg_is_param(#[trigger] segments_of(pattern)[i])
}

/// A pattern never matches a path with a different segment count: a
/// placeholder matches within one segment and never across a `/`.
pub proof fn lemma_match_needs_equal_segment_count(pattern: Seq<u8>, path: Seq<u8>)
    ensures
        pattern_matches(pattern, path) ==> segments_of(pattern).len() == segments_of(path).len(),
{
}

/// A placeholder segment of a matching pattern always stands against a
/// non-empty request segment.
pub proof fn lemma_match_param_segment_nonempty(pattern: Seq<u8>, path: Seq<u8>, i: int)
    requires
        pattern_matches(pattern, path),
        0 <= i < segments_of(pattern).len(),
        seg_is_param(segments_of(pattern)[i]),
    ensures
        segments_of(path)[i].len() > 0,
{
}

/// A literal segment of a matching pattern equals the request segment at
/// its position, byte for byte.
pub proof fn lemma_match_literal_segment_exact(pattern: Seq<u8>, path: Seq<u8>, i: int)
    requires
        pattern_matches(pattern, path),
        0 <= i < segments_of(pattern).len(),
        !seg_is_param(segments_of(pattern)[i]),
    ensures
        segments_of(path)[i] == segments_of(pattern)[i],
{
}

/// One segment that fails to match refutes the whole pattern.
pub proof fn lemma_no_match_at(pattern: Seq<u8>, path: Seq<u8>, i: int)
    requires
        0 <= i < segments_of(pattern).len(),
        !seg_matches(segments_of(pattern)[i], segments_of(path)[i]),
    ensures
        !pattern_matches(pattern, path),
{
    if pattern_matches(pattern, path) {
        assert(seg_matches(segments_of(pattern)[i], segments_of(path)[i]));
    }
}

/// The converse: equal segment counts, every placeholder against a
/// non-empty segment and every literal against its own bytes make a match.
pub proof fn lemma_match_from_segments(pattern: Seq<u8>, path: Seq<u8>)
    requires
        segments_of(pattern).len() == segments_of(path).len(),
        forall|i: int| 0 <= i < segments_of(pattern).len() && seg_is_param(#[trigger] segments_of(pattern)[i])
            ==> segments_of(path)[i].len() > 0,
        forall|i: int| 0 <= i < segments_of(pattern).len() && !seg_is_param(#[trigger] segments_of(pattern)[i])
            ==> segments_of(path)[i] == segments_of(pattern)[i],
    ensures
        pattern_matches(pattern, path),
{
}

/// A pattern without placeholders matches only its own bytes.
pub proof fn lemma_exact_pattern_matches_only_itself(pattern: Seq<u8>, path: Seq<u8>)
    requires
        !has_param_segment(pattern),
        pattern_matches(pattern, path),
    ensures
        pattern == path,
{
    assert(segments_of(pattern) =~= segments_of(path)) by {
        assert forall|i: int| 0 <= i < segments_of(pattern).len() implies segments_of(pattern)[i]
            == segments_of(path)[i] by {
            assert(!seg_is_param(segments_of(pattern)[i]));
            assert(seg_matches(segments_of(pattern)[i], segments_of(path)[i]));
        }
    }
    lemma_segments_injective(pattern, path);
}

/// Two paths with the same segments are the same path: splitting on `/`
/// loses nothing.
pub proof fn lemma_segments_injective(a: Seq<u8>, b: Seq<u8>)
    requires
        segments_of(a) == segments_of(b),
    ensures
        a == b,
    decreases a.len(),
{
    lemma_first_slash(a);
    lemma_first_slash(b);
    let ka = first_slash(a);
    let kb = first_slash(b);
    if ka >= a.len() || kb >= b.len() {
        // One side is a single segment, so the other must be one too,
        // since a split at a slash yields at least two segments.
        if ka < a.len() {
            lemma_segments_nonempty(a.subrange(ka + 1, a.len() as int));
            assert(segments_of(a).len() >= 2);
        }
        if kb < b.len() {
            lemma_segments_nonempty(b.subrange(kb + 1, b.len() as int));
            assert(segments_of(b).len() >= 2);
        }
        assert(segments_of(a)[0] == a);
        assert(segments_of(b)[0] == b);
    } else {
        let ta = a.subrange(ka + 1, a.len() as int);
        let tb = b.subrange(kb + 1, b.len() as int);
        assert(segments_of(a) == seq![a.subrange(0, ka)] + segments_of(ta));
        assert(segments_of(b) == seq![b.subrange(0, kb)] + segments_of(tb));
        assert(segments_of(a)[0] == a.subrange(0, ka));
        assert(segments_of(b)[0] == b.subrange(0, kb));
        assert(ka == kb);
        assert(segments_of(ta).len() == segments_of(tb).len());
        assert(segments_of(ta) =~= segments_of(tb)) by {
            assert forall|i: int| 0 <= i < segments_of(ta).len() implies segments_of(ta)[i]
                == segments_of(tb)[i] by {
                assert(segments_of(a)[i + 1] == segments_of(ta)[i]);
                assert(segments_of(b)[i + 1] == segments_of(tb)[i]);
            }
        }
        lemma_segments_injective(ta, tb);
        assert forall|j: int| 0 <= j < a.len() implies a[j] == b[j] by {
            if j < ka {
                assert(a.subrange(0, ka)[j] == a[j]);
                assert(b.subrange(0, kb)[j] == b[j]);
            } else if j > ka {
                assert(ta[j - ka - 1] == a[j]);
                assert(tb[j - kb - 1] == b[j]);
            }
        }
        assert(a =~= b);
    }
}

/// Byte-for-byte equality of two byte strings.
pub fn bytes_eq(a: &[u8], b: &[u8]) -> (r: bool)
    ensures
        r == (a@ == b@),
{
    if a.len() != b.len() {
        return false;
    }
    let mut i: usize = 0;
    while i < a.len()
        invariant
            a@.len() == b@.len(),
            0 <= i <= a@.len(),
            forall|j: int| 0 <= j < i ==> a@[j] == b@[j],
        decreases a@.len() - i,
    {
        if a[i] != b[i] {
            return false;
        }
        i += 1;
    }
    proof {
        assert(a@ =~= b@);
    }
    true
}

/// Whether one segment is a placeholder, as `seg_is_param` states.
pub fn is_param_segment(seg: &[u8]) -> (b: bool)
    ensures
        b == seg_is_param(seg@),
{
    seg.len() >= 2 && seg[0] == OPEN_BRACE_BYTE && seg[seg.len() - 1] == CLOSE_BRACE_BYTE
}

/// Splits a path into its `/`-separated segments, exactly as
/// `segments_of` states them.
pub fn split_segments(p: &[u8]) -> (segs: Vec<Vec<u8>>)
    ensures
        segs.deep_view() == segments_of(p@),
{
    let mut segs: Vec<Vec<u8>> = Vec::new();
    let mut start: usize = 0;
    let mut i: usize = 0;
    proof {
        assert(p@.subrange(0, p@.len() as int) =~= p@);
        assert(segs.deep_view() + segments_of(p@) =~= segments_of(p@));
    }
    while i < p.len()
        invariant
            0 <= start <= i <= p@.len(),
            forall|j: int| start <= j < i ==> p@[j] != SLASH_BYTE,
            segments_of(p@) == segs.deep_view() + segments_of(
                p@.subrange(start as int, p@.len() as int),
            ),
        decreases p@.len() - i,
    {
        if p[i] == SLASH_BYTE {
            let seg = vstd::slice::slice_to_vec(vstd::slice::slice_subrange(p, start, i));
            let ghost old_dv = segs.deep_view();
            segs.push(seg);
            proof {
                let sub = p@.subrange(start as int, p@.len() as int);
                lemma_segments_step(sub, i - start);
                assert(sub.subrange(0, i - start) =~= p@.subrange(start as int, i as int));
                assert(sub.subrange(i - start + 1, sub.len() as int) =~= p@.subrange(
                    i + 1,
                    p@.len() as int,
                ));
                assert(segs.deep_view() =~~= old_dv.push(seg@));
                assert(old_dv.push(seg@) + segments_of(p@.subrange(i + 1, p@.len() as int))
                    =~~= old_dv + segments_of(sub));
            }
            start = i + 1;
        }
        i += 1;
    }
    let seg = vstd::slice::slice_to_vec(vstd::slice::slice_subrange(p, start, p.len()));
    let ghost old_dv = segs.deep_view();
    segs.push(seg);
    proof {
        let sub = p@.subrange(start as int, p@.len() as int);
        lemma_segments_whole(sub);
        assert(segs.deep_view() =~~= old_dv.push(seg@));
        assert(old_dv.push(seg@) =~~= old_dv + segments_of(sub));
    }
    segs
}

/// Whether the route pattern `route_path` matches the request path
/// `request_path`: the two split into the same number of segments, each
/// placeholder segment stands against a non-empty request segment, and
/// each literal segment agrees byte for byte.
pub fn path_matches_bytes(route_path: &[u8], request_path: &[u8]) -> (m: bool)
    ensures
        m == pattern_matches(route_path@, request_path@),
{
    let pat_segs = split_segments(route_path);
    let req_segs = split_segments(request_path);
    if pat_segs.len() != req_segs.len() {
        return false;
    }
    let ghost ps = segments_of(route_path@);
    let ghost rs = segments_of(request_path@);
    proof {
        assert(ps.len() == pat_segs@.len());
        assert(rs.len() == req_segs@.len());
    }
    let mut i: usize = 0;
    while i < pat_segs.len()
        invariant
            ps == segments_of(route_path@),
            rs == segments_of(request_path@),
            pat_segs.deep_view() == ps,
            req_segs.deep_view() == rs,
            ps.len() == rs.len(),
            ps.len() == pat_segs@.len(),
            rs.len() == req_segs@.len(),
            0 <= i <= ps.len(),
            forall|j: int| 0 <= j < i ==> seg_matches(#[trigger] ps[j], rs[j]),
        decreases ps.len() - i,
    {
        let pat_seg = &pat_segs[i];
        let req_seg = &req_segs[i];
        proof {
            assert(ps[i as int] == pat_segs@[i as int].deep_view());
            assert(pat_segs@[i as int].deep_view() =~= pat_segs@[i as int]@);
            assert(rs[i as int] == req_segs@[i as int].deep_view());
            assert(req_segs@[i as int].deep_view() =~= req_segs@[i as int]@);
        }
        if is_param_segment(pat_seg.as_slice()) {
            if req_seg.len() == 0 {
                proof {
                    assert(!seg_matches(ps[i as int], rs[i as int]));
                    lemma_no_match_at(route_path@, request_path@, i as int);
                }
                return false;
            }
        } else {
            if !bytes_eq(pat_seg.as_slice(), req_seg.as_slice()) {
                proof {
                    assert(!seg_matches(ps[i as int], rs[i as int]));
                    lemma_no_match_at(route_path@, request_path@, i as int);
                }
                return false;
            }
        }
        i += 1;
    }
    true
}

/// Whether the pattern holds at least one placeholder segment, as
/// `has_param_segment` states.
pub fn pattern_has_param(pattern: &[u8]) -> (b: bool)
    ensures
        b == has_param_segment(pattern@),
{
    let segs = split_segments(pattern);
    let mut i: usize = 0;
    while i < segs.len()
        invariant
            segs.deep_view() == segments_of(pattern@),
            0 <= i <= segs@.len(),
            forall|j: int| 0 <= j < i ==> !seg_is_param(#[trigger] segments_of(pattern@)[j]),
        decreases segs@.len() - i,
    {
        proof {
            assert(segments_of(pattern@)[i as int] == segs@[i as int].deep_view());
            assert(segs@[i as int].deep_view() =~= segs@[i as int]@);
        }
        if is_param_segment(segs[i].as_slice()) {
            return true;
        }
        i += 1;
    }
    false
}

/// Whether the route pattern `route_path` matches the request path
/// `request_path`, both given as text.
pub fn route_path_matches(request_path: &str, route_path: &str) -> (m: bool)
    ensures
        m == pattern_matches(route_path.spec_bytes(), request_path.spec_bytes()),
{
    path_matches_bytes(route_path.as_bytes(), request_path.as_bytes())
}

} // verus!
