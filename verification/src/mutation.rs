//! The structural mutation engine: locating a syntactic construct through a
//! query expression, rewriting the byte span of its `root` capture from an
//! ordered substitution list, and splicing all rewrites of a collection into
//! one output text.

use vstd::prelude::*;
use vstd::utf8::decode_utf8;
use vstd::utf8::valid_utf8;

use crate::state::Lang;
use crate::text::bytes_to_str;
use crate::text::str_eq;
use crate::ts;
use crate::ts::ParsedSource;
use crate::ts::ts_first_match;

verus! {

/// Errors of the query executor and the mutation engine: the query
/// expression failed to compile under the grammar, or a byte span that had
/// to become text was not valid UTF-8.
#[derive(Clone, Copy, PartialEq, Eq, Structural, Debug)]
pub enum ApplyError {
    InvalidExpression,
    Utf8Error,
}

/// One element of a rewrite recipe: fixed text, or the text bound to a named
/// capture of the mutation's query match.
#[derive(Debug)]
pub enum Substitute {
    Literal(String),
    Capture(String),
}

/// One structural find-and-rewrite rule: a query expression that must bind a
/// `root` capture, and the ordered substitution list that replaces the span
/// of that capture.
pub struct Mutation {
    pub expression: String,
    pub substitute: Vec<Substitute>,
}

/// A named, ordered set of mutations representing one refactor intent.
/// Document order of the mutations is significant: when two mutations
/// rewrite the same start offset, the later one wins.
pub struct MutationCollection {
    pub description: String,
    pub mutations: Vec<Mutation>,
}

/// The outcome of running one query over one parsed source: the byte span
/// of the `root` capture (0,0 when the match has none) and the decoded text
/// of every other named capture.
#[derive(Debug)]
pub struct QueryCooked {
    pub start: usize,
    pub end: usize,
    pub captures: Vec<(String, String)>,
}

/// The byte span of the `root` capture among the raw captures of a match:
/// the last capture so named wins, and a match without one spans (0,0).
pub open spec fn root_span(caps: Seq<(Seq<char>, usize, usize)>) -> (usize, usize)
    decreases caps.len(),
{
    if caps.len() == 0 {
        (0usize, 0usize)
    } else if caps.last().0 == "root"@ {
        (caps.last().1, caps.last().2)
    } else {
        root_span(caps.drop_last())
    }
}

/// Every capture other than `root` spans valid UTF-8 in the source.
pub open spec fn caps_utf8_ok(src: Seq<u8>, caps: Seq<(Seq<char>, usize, usize)>) -> bool {
    forall|k: int|
        0 <= k < caps.len() && (#[trigger] caps[k]).0 != "root"@ ==> valid_utf8(
            src.subrange(caps[k].1 as int, caps[k].2 as int),
        )
}

/// The capture texts of a match, keyed by capture name: each capture other
/// than `root` binds its name to the decoded text of its span, and a name
/// captured twice keeps the later binding.
pub open spec fn caps_map(src: Seq<u8>, caps: Seq<(Seq<char>, usize, usize)>) -> Map<
    Seq<char>,
    Seq<char>,
>
    decreases caps.len(),
{
    if caps.len() == 0 {
        Map::empty()
    } else if caps.last().0 == "root"@ {
        caps_map(src, caps.drop_last())
    } else {
        caps_map(src, caps.drop_last()).insert(
            caps.last().0,
            decode_utf8(src.subrange(caps.last().1 as int, caps.last().2 as int)),
        )
    }
}

/// An association list read as a map in which the later entry for a key
/// overrides the earlier one.
pub open spec fn assoc_map(l: Seq<(Seq<char>, Seq<char>)>) -> Map<Seq<char>, Seq<char>>
    decreases l.len(),
{
    if l.len() == 0 {
        Map::empty()
    } else {
        assoc_map(l.drop_last()).insert(l.last().0, l.last().1)
    }
}

impl QueryCooked {
    /// The capture texts as a map from capture name to text.
    pub open spec fn captures_map(self) -> Map<Seq<char>, Seq<char>> {
        assoc_map(self.captures.deep_view())
    }
}

/// What executing the query `expr` over the parse of `src` under `lang`
/// yields: the root span and the capture-text map of the first match, an
/// `InvalidExpression` error when the expression does not compile, and a
/// `Utf8Error` when a captured span is not valid text.
pub open spec fn query_spec(lang: Lang, src: Seq<u8>, expr: Seq<char>) -> Result<
    (usize, usize, Map<Seq<char>, Seq<char>>),
    ApplyError,
> {
    match ts_first_match(lang, src, expr) {
        None => Err(ApplyError::InvalidExpression),
        Some(caps) => if !caps_utf8_ok(src, caps) {
            Err(ApplyError::Utf8Error)
        } else {
            Ok((root_span(caps).0, root_span(caps).1, caps_map(src, caps)))
        },
    }
}

/// Runs one query expression over a parsed source and cooks the first match
/// into the span of its `root` capture and the decoded texts of its other
/// captures, as [`query_spec`] states.
pub fn query(p: &ParsedSource, expr: &str) -> (r: Result<QueryCooked, ApplyError>)
    ensures
        match r {
            Ok(q) => {
                &&& query_spec(p.lang(), p.src(), expr@) matches Ok(m) && m.0 == q.start && m.1
                    == q.end && m.2 == q.captures_map()
                &&& q.start <= q.end <= p.src().len()
            },
            Err(e) => query_spec(p.lang(), p.src(), expr@) == Err::<
                (usize, usize, Map<Seq<char>, Seq<char>>),
                ApplyError,
            >(e),
        },
{
    let raw = match ts::first_match_captures(p, expr) {
        None => {
            return Err(ApplyError::InvalidExpression);
        },
        Some(v) => v,
    };
    let ghost rawv = raw.deep_view();
    let src_vec = p.source_bytes();
    let sl = src_vec.as_slice();
    let n = raw.len();
    let mut start: usize = 0;
    let mut end: usize = 0;
    let mut captures: Vec<(String, String)> = Vec::new();
    let mut i: usize = 0;
    while i < n
        invariant
            n == raw@.len(),
            rawv == raw.deep_view(),
            Some(rawv) == ts_first_match(p.lang(), p.src(), expr@),
            forall|k: int| 0 <= k < rawv.len() ==> (#[trigger] rawv[k]).1 <= rawv[k].2
                <= p.src().len(),
            sl@ == p.src(),
            i <= n,
            (start, end) == root_span(rawv.take(i as int)),
            start <= end <= p.src().len(),
            caps_utf8_ok(p.src(), rawv.take(i as int)),
            assoc_map(captures.deep_view()) == caps_map(p.src(), rawv.take(i as int)),
        decreases n - i,
    {
        proof {
            assert(rawv.take(i + 1).drop_last() =~= rawv.take(i as int));
            assert(rawv.take(i + 1).last() == rawv[i as int]);
            assert(rawv[i as int] == (raw@[i as int].0@, raw@[i as int].1, raw@[i as int].2));
        }
        let cap = &raw[i];
        let cap_start = cap.1;
        let cap_end = cap.2;
        if str_eq(cap.0.as_str(), "root") {
            start = cap_start;
            end = cap_end;
        } else {
            let seg = &sl[cap_start..cap_end];
            match bytes_to_str(seg) {
                None => {
                    proof {
                        assert(!caps_utf8_ok(p.src(), rawv));
                    }
                    return Err(ApplyError::Utf8Error);
                },
                Some(t) => {
                    let ghost old_dv = captures.deep_view();
                    captures.push((cap.0.clone(), t.to_owned()));
                    proof {
                        assert(captures.deep_view() =~= old_dv.push(
                            (rawv[i as int].0, decode_utf8(
                                p.src().subrange(cap_start as int, cap_end as int),
                            )),
                        ));
                        assert(captures.deep_view().drop_last() =~= old_dv);
                        assert(assoc_map(captures.deep_view()) =~= caps_map(
                            p.src(),
                            rawv.take(i + 1),
                        ));
                    }
                },
            }
        }
        i += 1;
    }
    proof {
        assert(rawv.take(n as int) =~= rawv);
    }
    Ok(QueryCooked { start, end, captures })
}

/// Looks a capture name up in the cooked capture list; when the list binds
/// the name more than once the later binding is returned, as in
/// [`assoc_map`].
fn lookup_capture<'a>(caps: &'a Vec<(String, String)>, name: &str) -> (r: Option<&'a String>)
    ensures
        match r {
            Some(t) => assoc_map(caps.deep_view()).contains_key(name@) && t@ == assoc_map(
                caps.deep_view(),
            )[name@],
            None => !assoc_map(caps.deep_view()).contains_key(name@),
        },
{
    let ghost dv = caps.deep_view();
    let mut i: usize = caps.len();
    proof {
        assert(dv.len() == caps@.len());
        assert(dv.take(i as int) =~= dv);
    }
    while i > 0
        invariant
            dv == caps.deep_view(),
            i <= caps@.len(),
            assoc_map(dv).contains_key(name@) == assoc_map(dv.take(i as int)).contains_key(name@),
            assoc_map(dv).contains_key(name@) ==> assoc_map(dv)[name@] == assoc_map(
                dv.take(i as int),
            )[name@],
        decreases i,
    {
        proof {
            assert(dv.take(i as int).drop_last() =~= dv.take(i - 1));
            assert(dv.take(i as int).last() == dv[i - 1]);
            assert(dv[i - 1] == (caps@[i - 1].0@, caps@[i - 1].1@));
        }
        let entry = &caps[i - 1];
        if str_eq(entry.0.as_str(), name) {
            return Some(&entry.1);
        }
        i -= 1;
    }
    proof {
        assert(dv.take(0) =~= Seq::<(Seq<char>, Seq<char>)>::empty());
    }
    None
}

/// The rewrite text of one mutation: its substitutions concatenated in
/// order, a literal contributing its own text and a capture contributing
/// the text bound to its name, or nothing when the match bound no such
/// capture.
pub open spec fn rewrite_of(cm: Map<Seq<char>, Seq<char>>, subs: Seq<Substitute>) -> Seq<char>
    decreases subs.len(),
{
    if subs.len() == 0 {
        Seq::empty()
    } else {
        rewrite_of(cm, subs.drop_last()) + match subs.last() {
            Substitute::Literal(s) => s@,
            Substitute::Capture(n) => if cm.contains_key(n@) {
                cm[n@]
            } else {
                Seq::empty()
            },
        }
    }
}

/// Builds the rewrite text of one mutation from its query result.
fn build_rewrite(q: &QueryCooked, subs: &Vec<Substitute>) -> (r: String)
    ensures
        r@ == rewrite_of(q.captures_map(), subs@),
{
    let mut out = String::new();
    let n = subs.len();
    let mut i: usize = 0;
    while i < n
        invariant
            n == subs@.len(),
            i <= n,
            out@ == rewrite_of(q.captures_map(), subs@.take(i as int)),
        decreases n - i,
    {
        proof {
            assert(subs@.take(i + 1).drop_last() =~= subs@.take(i as int));
            assert(subs@.take(i + 1).last() == subs@[i as int]);
        }
        match &subs[i] {
            Substitute::Literal(s) => {
                out.append(s.as_str());
            },
            Substitute::Capture(nm) => {
                match lookup_capture(&q.captures, nm.as_str()) {
                    Some(t) => {
                        let piece = t.clone();
                        out.append(piece.as_str());
                    },
                    None => {
                        proof {
                            assert(out@ + Seq::<char>::empty() =~= out@);
                        }
                    },
                }
            },
        }
        i += 1;
    }
    proof {
        assert(subs@.take(n as int) =~= subs@);
    }
    out
}

/// The original buffer partitioned at boundary offsets: `values[k]` is the
/// segment that starts at byte offset `indices[k]`.
pub struct SplitMap<'a> {
    pub values: Vec<&'a [u8]>,
    pub indices: Vec<usize>,
}

/// Start offset of the `k`-th segment induced by the boundary list `idx`.
pub open spec fn seg_lo(idx: Seq<usize>, k: int) -> int {
    if k == 0 {
        0
    } else {
        idx[k - 1] as int
    }
}

/// End offset of the `k`-th segment induced by the boundary list `idx`,
/// over a buffer of length `n`.
pub open spec fn seg_hi(idx: Seq<usize>, n: int, k: int) -> int {
    if k < idx.len() {
        idx[k] as int
    } else {
        n
    }
}

/// The contiguous segments of `c` delimited by the boundary offsets `idx`:
/// the first segment starts at offset 0 and the last ends at `c.len()`.
pub open spec fn segments(c: Seq<u8>, idx: Seq<usize>) -> Seq<Seq<u8>> {
    Seq::new(idx.len() + 1, |k: int| c.subrange(seg_lo(idx, k), seg_hi(idx, c.len() as int, k)))
}

/// The boundary list is ascending and stays within a buffer of length `n`.
pub open spec fn boundaries_wf(idx: Seq<usize>, n: nat) -> bool {
    &&& forall|k: int| 0 <= k < idx.len() ==> idx[k] <= n
    &&& forall|k1: int, k2: int| 0 <= k1 <= k2 < idx.len() ==> #[trigger] idx[k1] <= #[trigger] idx[k2]
}

/// Partitions `c` at the ascending boundary offsets `idx`. The segment
/// starting at offset `indices[k]` is `values[k]`; together the segments
/// cover `c` exactly once (see [`lemma_segment_coverage`]).
pub fn split_at_indices<'a>(c: &'a [u8], idx: &[usize]) -> (r: SplitMap<'a>)
    requires
        boundaries_wf(idx@, c@.len()),
    ensures
        r.values@.len() == idx@.len() + 1,
        r.indices@ == seq![0usize] + idx@,
        forall|k: int| 0 <= k < r.values@.len() ==> r.values@[k]@ == segments(c@, idx@)[k],
{
    let mut values: Vec<&'a [u8]> = Vec::new();
    let mut indices: Vec<usize> = Vec::new();
    let mut a: usize = 0;
    indices.push(a);
    let mut i: usize = 0;
    while i < idx.len()
        invariant
            boundaries_wf(idx@, c@.len()),
            i <= idx@.len(),
            a == seg_lo(idx@, i as int),
            a <= c@.len(),
            values@.len() == i,
            indices@ == seq![0usize] + idx@.subrange(0, i as int),
            forall|k: int| 0 <= k < i ==> values@[k]@ == segments(c@, idx@)[k],
        decreases idx@.len() - i,
    {
        let b = idx[i];
        values.push(&c[a..b]);
        a = b;
        indices.push(a);
        i += 1;
        proof {
            assert(indices@ =~= seq![0usize] + idx@.subrange(0, i as int));
            assert(values@[i - 1]@ =~= segments(c@, idx@)[i - 1]);
        }
    }
    values.push(&c[a..c.len()]);
    proof {
        assert(idx@.subrange(0, idx@.len() as int) =~= idx@);
        assert(values@[idx@.len() as int]@ =~= segments(c@, idx@)[idx@.len() as int]);
    }
    SplitMap { values, indices }
}

/// The boundary list is strictly ascending, hence free of duplicates.
pub open spec fn strictly_sorted(s: Seq<usize>) -> bool {
    forall|k1: int, k2: int| 0 <= k1 < k2 < s.len() ==> #[trigger] s[k1] < #[trigger] s[k2]
}

/// Inserts a boundary offset into an ascending deduplicated list, keeping
/// it ascending and deduplicated.
pub open spec fn insert_unique_sorted(s: Seq<usize>, x: usize) -> Seq<usize>
    decreases s.len(),
{
    if s.len() == 0 {
        seq![x]
    } else if s[0] < x {
        seq![s[0]] + insert_unique_sorted(s.drop_first(), x)
    } else if s[0] == x {
        s
    } else {
        seq![x] + s
    }
}

proof fn lemma_insert_position(s: Seq<usize>, x: usize, pos: int)
    requires
        strictly_sorted(s),
        0 <= pos <= s.len(),
        forall|k: int| 0 <= k < pos ==> s[k] < x,
        forall|k: int| pos <= k < s.len() ==> s[k] > x,
    ensures
        insert_unique_sorted(s, x) == s.take(pos).push(x) + s.skip(pos),
    decreases s.len(),
{
    if s.len() == 0 {
        assert(insert_unique_sorted(s, x) =~= s.take(pos).push(x) + s.skip(pos));
    } else if pos == 0 {
        assert(s[0] > x);
        assert(insert_unique_sorted(s, x) == seq![x] + s);
        assert(seq![x] + s =~= s.take(0).push(x) + s.skip(0));
    } else {
        assert(s[0] < x);
        let t = s.drop_first();
        assert(strictly_sorted(t)) by {
            assert(forall|k1: int, k2: int| 0 <= k1 < k2 < t.len() ==> #[trigger] t[k1] < #[trigger] t[k2]) by {
                assert(forall|k: int| 0 <= k < t.len() ==> t[k] == s[k + 1]);
            }
        }
        assert(forall|k: int| 0 <= k < pos - 1 ==> t[k] < x);
        assert(forall|k: int| pos - 1 <= k < t.len() ==> t[k] > x);
        lemma_insert_position(t, x, pos - 1);
        assert(insert_unique_sorted(s, x) == seq![s[0]] + (t.take(pos - 1).push(x) + t.skip(pos - 1)));
        assert(seq![s[0]] + (t.take(pos - 1).push(x) + t.skip(pos - 1)) =~= s.take(pos).push(x)
            + s.skip(pos));
    }
}

proof fn lemma_insert_present(s: Seq<usize>, x: usize, pos: int)
    requires
        strictly_sorted(s),
        0 <= pos < s.len(),
        s[pos] == x,
        forall|k: int| 0 <= k < pos ==> s[k] < x,
    ensures
        insert_unique_sorted(s, x) == s,
    decreases s.len(),
{
    if pos == 0 {
        assert(s[0] == x);
    } else {
        assert(s[0] < x);
        let t = s.drop_first();
        assert(strictly_sorted(t)) by {
            assert(forall|k: int| 0 <= k < t.len() ==> t[k] == s[k + 1]);
        }
        assert(forall|k: int| 0 <= k < pos - 1 ==> t[k] < x);
        lemma_insert_present(t, x, pos - 1);
        assert(seq![s[0]] + t =~= s);
    }
}

/// Inserts one boundary offset into the ascending deduplicated boundary
/// list, mirroring [`insert_unique_sorted`].
fn insert_boundary(v: &mut Vec<usize>, x: usize)
    requires
        strictly_sorted(old(v)@),
    ensures
        final(v)@ == insert_unique_sorted(old(v)@, x),
        strictly_sorted(final(v)@),
        forall|k: int|
            0 <= k < final(v)@.len() ==> final(v)@[k] == x || old(v)@.contains(final(v)@[k]),
{
    let n = v.len();
    let mut i: usize = 0;
    while i < n && v[i] < x
        invariant
            n == v@.len(),
            strictly_sorted(v@),
            i <= n,
            forall|k: int| 0 <= k < i ==> v@[k] < x,
        decreases n - i,
    {
        i += 1;
    }
    if i < n && v[i] == x {
        proof {
            lemma_insert_present(v@, x, i as int);
        }
        return ;
    }
    proof {
        assert(forall|k: int| i <= k < v@.len() ==> v@[k] > x) by {
            if i < v@.len() {
                assert(v@[i as int] > x);
                assert(forall|k: int| i < k < v@.len() ==> v@[k] > v@[i as int]);
            }
        }
        lemma_insert_position(v@, x, i as int);
    }
    let ghost oldv = v@;
    v.insert(i, x);
    proof {
        assert(v@ =~= oldv.take(i as int).push(x) + oldv.skip(i as int));
        assert(strictly_sorted(v@)) by {
            assert(forall|k: int| 0 <= k < i ==> v@[k] == oldv[k]);
            assert(v@[i as int] == x);
            assert(forall|k: int| i < k < v@.len() ==> v@[k] == oldv[k - 1]);
        }
    }
}

/// An association list of rewrite texts keyed by start offset, read as a
/// map in which the later entry for a key overrides the earlier one.
pub open spec fn uassoc_map(l: Seq<(usize, Seq<char>)>) -> Map<usize, Seq<char>>
    decreases l.len(),
{
    if l.len() == 0 {
        Map::empty()
    } else {
        uassoc_map(l.drop_last()).insert(l.last().0, l.last().1)
    }
}

/// Looks a start offset up in the rewrite list; the later entry for an
/// offset wins, as in [`uassoc_map`].
fn lookup_rewrite<'a>(rw: &'a Vec<(usize, String)>, key: usize) -> (r: Option<&'a String>)
    ensures
        match r {
            Some(t) => uassoc_map(rw.deep_view()).contains_key(key) && t@ == uassoc_map(
                rw.deep_view(),
            )[key],
            None => !uassoc_map(rw.deep_view()).contains_key(key),
        },
{
    let ghost dv = rw.deep_view();
    let mut i: usize = rw.len();
    proof {
        assert(dv.len() == rw@.len());
        assert(dv.take(i as int) =~= dv);
    }
    while i > 0
        invariant
            dv == rw.deep_view(),
            i <= rw@.len(),
            uassoc_map(dv).contains_key(key) == uassoc_map(dv.take(i as int)).contains_key(key),
            uassoc_map(dv).contains_key(key) ==> uassoc_map(dv)[key] == uassoc_map(
                dv.take(i as int),
            )[key],
        decreases i,
    {
        proof {
            assert(dv.take(i as int).drop_last() =~= dv.take(i - 1));
            assert(dv.take(i as int).last() == dv[i - 1]);
            assert(dv[i - 1] == (rw@[i - 1].0, rw@[i - 1].1@));
        }
        let entry = &rw[i - 1];
        if entry.0 == key {
            return Some(&entry.1);
        }
        i -= 1;
    }
    proof {
        assert(dv.take(0) =~= Seq::<(usize, Seq<char>)>::empty());
    }
    None
}

/// What running the mutations of a collection over one parsed source
/// gathers, in document order: the ascending deduplicated list of boundary
/// offsets (each mutation's root start and end), and the rewrite map keyed
/// by start offset, in which a later mutation with the same start
/// overwrites an earlier one. The first failing mutation's error stops the
/// application.
pub open spec fn gather(lang: Lang, src: Seq<u8>, ms: Seq<Mutation>) -> Result<
    (Seq<usize>, Map<usize, Seq<char>>),
    ApplyError,
>
    decreases ms.len(),
{
    if ms.len() == 0 {
        Ok((Seq::empty(), Map::empty()))
    } else {
        match gather(lang, src, ms.drop_last()) {
            Err(e) => Err(e),
            Ok(acc) => match query_spec(lang, src, ms.last().expression@) {
                Err(e) => Err(e),
                Ok(m) => Ok(
                    (
                        insert_unique_sorted(insert_unique_sorted(acc.0, m.0), m.1),
                        acc.1.insert(m.0, rewrite_of(m.2, ms.last().substitute@)),
                    ),
                ),
            },
        }
    }
}

/// A boundary at offset 0 adds no cut: the first segment starts there
/// already.
pub open spec fn strip_zero(bs: Seq<usize>) -> Seq<usize> {
    if bs.len() > 0 && bs[0] == 0 {
        bs.drop_first()
    } else {
        bs
    }
}

/// The first `k` emitted pieces of the spliced output: for each segment in
/// order, the rewrite text when the segment's start offset is rewritten,
/// and the segment's own decoded text otherwise. A segment that is not
/// valid UTF-8 is a `Utf8Error`.
pub open spec fn emit_upto(
    src: Seq<u8>,
    rw: Map<usize, Seq<char>>,
    cut: Seq<usize>,
    k: int,
) -> Result<Seq<char>, ApplyError>
    decreases k,
{
    if k <= 0 {
        Ok(Seq::empty())
    } else {
        match emit_upto(src, rw, cut, k - 1) {
            Err(e) => Err(e),
            Ok(acc) => {
                let lo = seg_lo(cut, k - 1);
                let hi = seg_hi(cut, src.len() as int, k - 1);
                let seg = src.subrange(lo, hi);
                if !valid_utf8(seg) {
                    Err(ApplyError::Utf8Error)
                } else if rw.contains_key(lo as usize) {
                    Ok(acc + rw[lo as usize])
                } else {
                    Ok(acc + decode_utf8(seg))
                }
            },
        }
    }
}

/// What applying a whole collection to one parsed source produces: the
/// mutations' rewrites and boundaries are gathered in document order, the
/// source is partitioned at the deduplicated boundaries, and each segment
/// is emitted either rewritten or verbatim. A collection with no mutations
/// reproduces the source text (see [`lemma_apply_identity`]).
pub open spec fn apply_spec(lang: Lang, src: Seq<u8>, ms: Seq<Mutation>) -> Result<
    Seq<char>,
    ApplyError,
> {
    match gather(lang, src, ms) {
        Err(e) => Err(e),
        Ok(acc) => {
            let cut = strip_zero(acc.0);
            emit_upto(src, acc.1, cut, cut.len() as int + 1)
        },
    }
}

proof fn lemma_gather_err(lang: Lang, src: Seq<u8>, ms: Seq<Mutation>, i: int)
    requires
        0 <= i <= ms.len(),
        gather(lang, src, ms.take(i)) is Err,
    ensures
        gather(lang, src, ms) == gather(lang, src, ms.take(i)),
    decreases ms.len() - i,
{
    if i == ms.len() {
        assert(ms.take(i) =~= ms);
    } else {
        assert(ms.take(i + 1).drop_last() =~= ms.take(i));
        lemma_gather_err(lang, src, ms, i + 1);
    }
}

proof fn lemma_emit_err(src: Seq<u8>, rw: Map<usize, Seq<char>>, cut: Seq<usize>, k: int, n: int)
    requires
        0 <= k <= n,
        emit_upto(src, rw, cut, k) is Err,
    ensures
        emit_upto(src, rw, cut, n) == emit_upto(src, rw, cut, k),
    decreases n - k,
{
    if k < n {
        lemma_emit_err(src, rw, cut, k + 1, n);
    }
}

/// Applies every mutation of a collection to one parsed source buffer: each
/// mutation's query picks a root span and captures, its substitution list
/// builds a rewrite, and the buffer is spliced at the union of all span
/// boundaries, emitting rewrites where a span starts and original text
/// elsewhere — exactly as [`apply_spec`] states.
pub fn apply(p: &ParsedSource, collection: &MutationCollection) -> (r: Result<String, ApplyError>)
    ensures
        match r {
            Ok(s) => apply_spec(p.lang(), p.src(), collection.mutations@) matches Ok(t) && s@ == t,
            Err(e) => apply_spec(p.lang(), p.src(), collection.mutations@) == Err::<
                Seq<char>,
                ApplyError,
            >(e),
        },
{
    let ghost lang = p.lang();
    let ghost src = p.src();
    let ghost ms = collection.mutations@;
    let mut bounds: Vec<usize> = Vec::new();
    let mut rewrites: Vec<(usize, String)> = Vec::new();
    let n = collection.mutations.len();
    let mut i: usize = 0;
    while i < n
        invariant
            n == ms.len(),
            ms == collection.mutations@,
            lang == p.lang(),
            src == p.src(),
            i <= n,
            strictly_sorted(bounds@),
            forall|k: int| 0 <= k < bounds@.len() ==> bounds@[k] <= src.len(),
            gather(lang, src, ms.take(i as int)) == Ok::<_, ApplyError>(
                (bounds@, uassoc_map(rewrites.deep_view())),
            ),
        decreases n - i,
    {
        proof {
            assert(ms.take(i + 1).drop_last() =~= ms.take(i as int));
            assert(ms.take(i + 1).last() == ms[i as int]);
        }
        let m = &collection.mutations[i];
        let q = match query(p, m.expression.as_str()) {
            Err(e) => {
                proof {
                    lemma_gather_err(lang, src, ms, i + 1);
                }
                return Err(e);
            },
            Ok(q) => q,
        };
        let text = build_rewrite(&q, &m.substitute);
        insert_boundary(&mut bounds, q.start);
        insert_boundary(&mut bounds, q.end);
        let ghost old_rw = rewrites.deep_view();
        rewrites.push((q.start, text));
        proof {
            assert(rewrites.deep_view() =~= old_rw.push((q.start, text@)));
            assert(rewrites.deep_view().drop_last() =~= old_rw);
        }
        i += 1;
    }
    proof {
        assert(ms.take(n as int) =~= ms);
    }
    let ghost rw_map = uassoc_map(rewrites.deep_view());
    let ghost gbs = bounds@;
    if bounds.len() > 0 {
        let first = bounds[0];
        if first == 0 {
            bounds.remove(0);
            proof {
                assert(bounds@ =~= gbs.drop_first());
            }
        }
    }
    let ghost cut = bounds@;
    proof {
        assert(cut == strip_zero(gbs));
        assert(boundaries_wf(cut, src.len()));
    }
    let src_vec = p.source_bytes();
    let sl = src_vec.as_slice();
    let splits = split_at_indices(sl, bounds.as_slice());
    let nseg = splits.values.len();
    let mut out = String::new();
    let mut k: usize = 0;
    while k < nseg
        invariant
            nseg == cut.len() + 1,
            cut == bounds@,
            lang == p.lang(),
            src == p.src(),
            ms == collection.mutations@,
            boundaries_wf(cut, src.len()),
            rw_map == uassoc_map(rewrites.deep_view()),
            apply_spec(lang, src, ms) == emit_upto(src, rw_map, cut, cut.len() as int + 1),
            splits.values@.len() == nseg,
            splits.indices@ == seq![0usize] + cut,
            forall|t: int| 0 <= t < nseg ==> splits.values@[t]@ == segments(src, cut)[t],
            k <= nseg,
            emit_upto(src, rw_map, cut, k as int) == Ok::<_, ApplyError>(out@),
        decreases nseg - k,
    {
        let seg: &[u8] = splits.values[k];
        proof {
            assert(seg@ == segments(src, cut)[k as int]);
            assert(segments(src, cut)[k as int] == src.subrange(
                seg_lo(cut, k as int),
                seg_hi(cut, src.len() as int, k as int),
            ));
        }
        let piece = match bytes_to_str(seg) {
            None => {
                proof {
                    assert(emit_upto(src, rw_map, cut, k + 1) == Err::<Seq<char>, ApplyError>(
                        ApplyError::Utf8Error,
                    ));
                    lemma_emit_err(src, rw_map, cut, k + 1, cut.len() as int + 1);
                }
                return Err(ApplyError::Utf8Error);
            },
            Some(s) => s,
        };
        let key = splits.indices[k];
        proof {
            assert(key as int == seg_lo(cut, k as int));
        }
        match lookup_rewrite(&rewrites, key) {
            Some(t) => {
                let tt = t.clone();
                out.append(tt.as_str());
            },
            None => {
                out.append(piece);
            },
        }
        k += 1;
    }
    Ok(out)
}

/// Identity law: applying a collection with no mutations to any source that
/// is valid text reproduces the source unchanged.
pub proof fn lemma_apply_identity(lang: Lang, src: Seq<u8>, ms: Seq<Mutation>)
    requires
        ms.len() == 0,
        valid_utf8(src),
    ensures
        apply_spec(lang, src, ms) == Ok::<Seq<char>, ApplyError>(decode_utf8(src)),
{
    let cut = Seq::<usize>::empty();
    let rw = Map::<usize, Seq<char>>::empty();
    assert(strip_zero(cut) =~= cut);
    assert(src.subrange(seg_lo(cut, 0), seg_hi(cut, src.len() as int, 0)) =~= src);
    assert(!rw.contains_key(seg_lo(cut, 0) as usize));
    assert(emit_upto(src, rw, cut, 0) == Ok::<Seq<char>, ApplyError>(Seq::<char>::empty()));
    assert(emit_upto(src, rw, cut, 1) == Ok::<Seq<char>, ApplyError>(
        Seq::<char>::empty() + decode_utf8(src),
    ));
    assert(Seq::<char>::empty() + decode_utf8(src) =~= decode_utf8(src));
}

/// The root start offset that a mutation's query picks on this source;
/// meaningful where the query succeeds.
pub open spec fn mutation_start(lang: Lang, src: Seq<u8>, m: Mutation) -> usize {
    match query_spec(lang, src, m.expression@) {
        Ok(q) => q.0,
        Err(_) => 0,
    }
}

/// The rewrite text that a mutation produces on this source; meaningful
/// where the query succeeds.
pub open spec fn mutation_rewrite(lang: Lang, src: Seq<u8>, m: Mutation) -> Seq<char> {
    match query_spec(lang, src, m.expression@) {
        Ok(q) => rewrite_of(q.2, m.substitute@),
        Err(_) => Seq::empty(),
    }
}

/// Tie-break determinism: among the mutations of one collection whose root
/// captures share a start offset, the last one in document order decides
/// the rewrite emitted at that offset — later mutations overwrite earlier
/// ones in the rewrite map.
pub proof fn lemma_tie_break(lang: Lang, src: Seq<u8>, ms: Seq<Mutation>, j: int)
    requires
        0 <= j < ms.len(),
        gather(lang, src, ms) is Ok,
        forall|k: int|
            j < k < ms.len() ==> mutation_start(lang, src, ms[k]) != mutation_start(
                lang,
                src,
                ms[j],
            ),
    ensures
        gather(lang, src, ms) matches Ok(acc) && acc.1.contains_key(
            mutation_start(lang, src, ms[j]),
        ) && acc.1[mutation_start(lang, src, ms[j])] == mutation_rewrite(lang, src, ms[j]),
    decreases ms.len(),
{
    let prev = ms.drop_last();
    assert(gather(lang, src, prev) is Ok);
    if j == ms.len() - 1 {
        assert(ms.last() == ms[j]);
    } else {
        assert(forall|k: int| 0 <= k < prev.len() ==> prev[k] == ms[k]);
        lemma_tie_break(lang, src, prev, j);
        assert(mutation_start(lang, src, ms.last()) != mutation_start(lang, src, ms[j]));
    }
}

/// Segment coverage: concatenating the segments in order reproduces the
/// buffer exactly, so every byte of `c` is consumed exactly once and the
/// segment lengths sum to `c.len()`.
#[verifier::rlimit(50)]
pub proof fn lemma_segment_coverage(c: Seq<u8>, idx: Seq<usize>)
    requires
        boundaries_wf(idx, c.len()),
    ensures
        segments(c, idx).flatten_alt() == c,
        segments(c, idx).flatten_alt().len() == c.len(),
    decreases idx.len(),
{
    if idx.len() == 0 {
        let segs = segments(c, idx);
        assert(segs =~= seq![c.subrange(0, c.len() as int)]);
        segs.lemma_flatten_one_element();
        segs.lemma_flatten_and_flatten_alt_are_equivalent();
        assert(segs.flatten_alt() =~= c);
    } else {
        let j = idx.last() as int;
        let pre = c.subrange(0, j);
        let rest = idx.drop_last();
        assert(boundaries_wf(rest, pre.len()));
        lemma_segment_coverage(pre, rest);
        let segs = segments(c, idx);
        assert(segs.drop_last() =~= segments(pre, rest)) by {
            assert forall|k: int| 0 <= k < segs.len() - 1 implies segs.drop_last()[k] == segments(
                pre,
                rest,
            )[k] by {
                assert(segs.drop_last()[k] == c.subrange(seg_lo(idx, k), seg_hi(idx, c.len() as int, k)));
                assert(seg_hi(idx, c.len() as int, k) <= j);
                assert(pre.subrange(seg_lo(rest, k), seg_hi(rest, pre.len() as int, k)) =~= c.subrange(
                    seg_lo(idx, k),
                    seg_hi(idx, c.len() as int, k),
                ));
            }
        }
        assert(segs.last() == c.subrange(j, c.len() as int));
        assert(segs.flatten_alt() == segs.drop_last().flatten_alt().add(segs.last()));
        assert(segs.flatten_alt() =~= pre.add(c.subrange(j, c.len() as int)));
        assert(segs.flatten_alt() =~= c);
    }
}

} // verus!
