use vstd::prelude::*;

use crate::error::Error;
use crate::model::Model;
use crate::model::Triangle;
use crate::model::Vertex;
use crate::sniff::is_ascii_ws;
use crate::sniff::is_ws_byte;
use crate::utf8::check_utf8_range;
use crate::utf8::is_utf8;

verus! {

/// The bytes of the keyword that opens a facet.
pub open spec fn kw_facet() -> Seq<u8> {
    seq![0x66u8, 0x61u8, 0x63u8, 0x65u8, 0x74u8]
}

/// The bytes of the keyword that carries one corner.
pub open spec fn kw_vertex() -> Seq<u8> {
    seq![0x76u8, 0x65u8, 0x72u8, 0x74u8, 0x65u8, 0x78u8]
}

/// The bytes of the keyword that closes a facet.
pub open spec fn kw_endfacet() -> Seq<u8> {
    seq![0x65u8, 0x6Eu8, 0x64u8, 0x66u8, 0x61u8, 0x63u8, 0x65u8, 0x74u8]
}

/// The length of the leading stretch of non-whitespace bytes of `s`.
pub open spec fn token_len(s: Seq<u8>) -> int
    decreases s.len(),
{
    if s.len() == 0 || is_ascii_ws(s[0]) {
        0
    } else {
        1 + token_len(s.skip(1))
    }
}

/// The whitespace-separated tokens of one line, in order.
pub open spec fn tokens_of(s: Seq<u8>) -> Seq<Seq<u8>>
    decreases s.len(),
    via tokens_of_decreases
{
    if s.len() == 0 {
        Seq::empty()
    } else if is_ascii_ws(s[0]) {
        tokens_of(s.skip(1))
    } else {
        seq![s.take(token_len(s))] + tokens_of(s.skip(token_len(s)))
    }
}

#[via_fn]
proof fn tokens_of_decreases(s: Seq<u8>) {
    if s.len() > 0 && !is_ascii_ws(s[0]) {
        lemma_token_len_bounds(s);
        lemma_token_len_bounds(s.skip(1));
        assert(token_len(s) == 1 + token_len(s.skip(1)));
        assert(token_len(s) >= 1);
    }
}

/// `token_len` is the index of the first whitespace byte, or the whole
/// length when there is none.
proof fn lemma_token_len(s: Seq<u8>, m: int)
    requires
        0 <= m <= s.len(),
        forall|t: int| 0 <= t < m ==> !is_ascii_ws(#[trigger] s[t]),
        m == s.len() || is_ascii_ws(s[m]),
    ensures
        token_len(s) == m,
    decreases m,
{
    if m == 0 {
    } else {
        assert(!is_ascii_ws(s[0]));
        lemma_token_len(s.skip(1), m - 1);
    }
}

/// `token_len` never runs past the end of the line.
proof fn lemma_token_len_bounds(s: Seq<u8>)
    ensures
        0 <= token_len(s) <= s.len(),
    decreases s.len(),
{
    if s.len() == 0 || is_ascii_ws(s[0]) {
    } else {
        lemma_token_len_bounds(s.skip(1));
    }
}

/// The index of the first line-feed byte of `s`, or the length of `s`
/// when there is none: the length of the first line.
pub open spec fn first_nl(s: Seq<u8>) -> int
    decreases s.len(),
{
    if s.len() == 0 {
        0
    } else if s[0] == 0x0A {
        0
    } else {
        1 + first_nl(s.skip(1))
    }
}

/// `first_nl` lands on the first line feed: nothing before it is one,
/// and the byte there is one unless the line runs to the end.
proof fn lemma_first_nl(s: Seq<u8>)
    ensures
        0 <= first_nl(s) <= s.len(),
        forall|t: int| 0 <= t < first_nl(s) ==> #[trigger] s[t] != 0x0A,
        first_nl(s) < s.len() ==> s[first_nl(s)] == 0x0A,
    decreases s.len(),
{
    if s.len() == 0 || s[0] == 0x0A {
    } else {
        lemma_first_nl(s.skip(1));
        assert forall|t: int| 0 <= t < first_nl(s) implies #[trigger] s[t] != 0x0A by {
            if t > 0 {
                assert(s.skip(1)[t - 1] == s[t]);
            }
        }
    }
}

/// The scanner's running state: the normal and corners gathered for the
/// facet in progress, how many corners are filled, how many coordinate
/// values have been consumed, and the finished triangles.
pub struct TextState {
    pub normal: Vertex,
    pub a: Vertex,
    pub b: Vertex,
    pub c: Vertex,
    pub idx: int,
    pub k: int,
    pub tris: Seq<Triangle>,
}

/// The state a text decode starts from: everything zeroed, nothing
/// consumed, no triangle finished.
pub open spec fn init_state() -> TextState {
    TextState {
        normal: Vertex { x: 0, y: 0, z: 0 },
        a: Vertex { x: 0, y: 0, z: 0 },
        b: Vertex { x: 0, y: 0, z: 0 },
        c: Vertex { x: 0, y: 0, z: 0 },
        idx: 0,
        k: 0,
        tris: Seq::empty(),
    }
}

/// Whether three coordinate values are available at position `k`: all
/// present and each carrying a numeric value.  A missing or failed
/// value is a numeric fault of the file.
pub open spec fn coord3_ok(coords: Seq<Option<u32>>, k: int) -> bool {
    k + 3 <= coords.len() && coords[k] is Some && coords[k + 1] is Some && coords[k + 2] is Some
}

/// The vertex built from the three coordinate values at position `k`.
pub open spec fn coord3(coords: Seq<Option<u32>>, k: int) -> Vertex {
    Vertex { x: coords[k]->Some_0, y: coords[k + 1]->Some_0, z: coords[k + 2]->Some_0 }
}

/// What one line does to the scanner.  A line that is not UTF-8 cannot
/// be read as a line at all; a `facet` line must carry exactly five
/// tokens and restarts the corner count after storing its normal; a
/// `vertex` line must carry exactly four tokens and fills the next of
/// at most three corners; an `endfacet` line closes a facet of exactly
/// three corners; every other line only delimits and is passed over.
/// Coordinate values are consumed left to right, three per significant
/// line, from the supplied sequence.
pub open spec fn text_step(st: TextState, line: Seq<u8>, coords: Seq<Option<u32>>) -> Result<
    TextState,
    Error,
> {
    if !is_utf8(line) {
        Err(Error::ReadError)
    } else {
        let ts = tokens_of(line);
        if ts.len() == 0 {
            Ok(st)
        } else if ts[0] == kw_facet() {
            if ts.len() != 5 {
                Err(Error::StructuralError)
            } else if coord3_ok(coords, st.k) {
                Ok(TextState { normal: coord3(coords, st.k), idx: 0, k: st.k + 3, ..st })
            } else {
                Err(Error::FormatError)
            }
        } else if ts[0] == kw_vertex() {
            if ts.len() != 4 {
                Err(Error::StructuralError)
            } else if st.idx >= 3 {
                Err(Error::StructuralError)
            } else if coord3_ok(coords, st.k) {
                let v = coord3(coords, st.k);
                if st.idx == 0 {
                    Ok(TextState { a: v, idx: 1, k: st.k + 3, ..st })
                } else if st.idx == 1 {
                    Ok(TextState { b: v, idx: 2, k: st.k + 3, ..st })
                } else {
                    Ok(TextState { c: v, idx: 3, k: st.k + 3, ..st })
                }
            } else {
                Err(Error::FormatError)
            }
        } else if ts[0] == kw_endfacet() {
            if st.idx != 3 {
                Err(Error::StructuralError)
            } else {
                Ok(
                    TextState {
                        tris: st.tris.push(
                            Triangle { normal: st.normal, vertex: [st.a, st.b, st.c] },
                        ),
                        idx: 0,
                        ..st
                    },
                )
            }
        } else {
            Ok(st)
        }
    }
}

/// What the scanner makes of `data` from state `st`: the lines are
/// handled in order, and the first fault aborts the whole decode.
pub open spec fn text_run(data: Seq<u8>, st: TextState, coords: Seq<Option<u32>>) -> Result<
    TextState,
    Error,
>
    decreases data.len(),
    via text_run_decreases
{
    if data.len() == 0 {
        Ok(st)
    } else {
        let n = first_nl(data);
        let rest = if n < data.len() {
            data.skip(n + 1)
        } else {
            data.skip(n)
        };
        match text_step(st, data.take(n), coords) {
            Ok(st2) => text_run(rest, st2, coords),
            Err(e) => Err(e),
        }
    }
}

#[via_fn]
proof fn text_run_decreases(data: Seq<u8>, st: TextState, coords: Seq<Option<u32>>) {
    if data.len() > 0 {
        lemma_first_nl(data);
    }
}

/// What decoding a text file yields, given the coordinate values
/// supplied for its numeric tokens in scan order: the triangles closed
/// by `endfacet`, in file order, or the first fault.
pub open spec fn text_decode(data: Seq<u8>, coords: Seq<Option<u32>>) -> Result<
    Seq<Triangle>,
    Error,
> {
    match text_run(data, init_state(), coords) {
        Ok(st) => Ok(st.tris),
        Err(e) => Err(e),
    }
}

/// The views of a sequence of owned byte vectors.
pub open spec fn views_of(v: Seq<Vec<u8>>) -> Seq<Seq<u8>> {
    v.map_values(|t: Vec<u8>| t@)
}

/// Collect the whitespace-separated tokens of the bytes of `data` from
/// `start` up to `end`, each as an owned copy, in order.
pub fn tokenize(data: &[u8], start: usize, end: usize) -> (r: Vec<Vec<u8>>)
    requires
        start <= end <= data@.len(),
    ensures
        views_of(r@) == tokens_of(data@.subrange(start as int, end as int)),
{
    let mut toks: Vec<Vec<u8>> = Vec::new();
    let mut i: usize = start;
    while i < end
        invariant
            start <= i <= end <= data@.len(),
            tokens_of(data@.subrange(start as int, end as int)) == views_of(toks@) + tokens_of(
                data@.subrange(i as int, end as int),
            ),
        decreases end - i,
    {
        let ghost pre = data@.subrange(i as int, end as int);
        if is_ws_byte(data[i]) {
            proof {
                assert(pre.skip(1) =~= data@.subrange(i as int + 1, end as int));
            }
            i = i + 1;
        } else {
            let mut j: usize = i + 1;
            while j < end && !is_ws_byte(data[j])
                invariant
                    i < j <= end <= data@.len(),
                    forall|t: int| i <= t < j ==> !is_ascii_ws(#[trigger] data@[t]),
                decreases end - j,
            {
                j = j + 1;
            }
            let mut tok: Vec<u8> = Vec::new();
            let mut p: usize = i;
            while p < j
                invariant
                    i <= p <= j <= data@.len(),
                    tok@ == data@.subrange(i as int, p as int),
                decreases j - p,
            {
                tok.push(data[p]);
                proof {
                    assert(tok@ =~= data@.subrange(i as int, p as int + 1));
                }
                p = p + 1;
            }
            proof {
                assert(forall|t: int|
                    0 <= t < j - i ==> !is_ascii_ws(#[trigger] pre[t]) && pre[t] == data@[i + t]);
                if j < end {
                    assert(is_ascii_ws(pre[j - i]));
                }
                lemma_token_len(pre, j - i);
                assert(pre.take(j - i) =~= data@.subrange(i as int, j as int));
                assert(pre.skip(j - i) =~= data@.subrange(j as int, end as int));
            }
            let ghost old_toks = toks@;
            toks.push(tok);
            proof {
                assert(views_of(toks@) =~= views_of(old_toks).push(tok@));
                assert(views_of(old_toks).push(tok@) + tokens_of(
                    data@.subrange(j as int, end as int),
                ) =~= views_of(old_toks) + tokens_of(pre));
            }
            i = j;
        }
    }
    proof {
        assert(tokens_of(data@.subrange(end as int, end as int)) =~= Seq::<Seq<u8>>::empty());
        assert(views_of(toks@) + Seq::<Seq<u8>>::empty() =~= views_of(toks@));
    }
    toks
}

/// Decide whether a token is the keyword `facet`.
fn is_facet_token(t: &Vec<u8>) -> (r: bool)
    ensures
        r == (t@ == kw_facet()),
{
    proof {
        assert(kw_facet().len() == 5);
        assert(kw_facet()[0] == 0x66 && kw_facet()[1] == 0x61 && kw_facet()[2] == 0x63 && kw_facet()[3]
            == 0x65 && kw_facet()[4] == 0x74);
    }
    if t.len() != 5 {
        return false;
    }
    let r = t[0] == 0x66 && t[1] == 0x61 && t[2] == 0x63 && t[3] == 0x65 && t[4] == 0x74;
    proof {
        if r {
            assert(t@ =~= kw_facet());
        }
    }
    r
}

/// Decide whether a token is the keyword `vertex`.
fn is_vertex_token(t: &Vec<u8>) -> (r: bool)
    ensures
        r == (t@ == kw_vertex()),
{
    proof {
        assert(kw_vertex().len() == 6);
        assert(kw_vertex()[0] == 0x76 && kw_vertex()[1] == 0x65 && kw_vertex()[2] == 0x72
            && kw_vertex()[3] == 0x74 && kw_vertex()[4] == 0x65 && kw_vertex()[5] == 0x78);
    }
    if t.len() != 6 {
        return false;
    }
    let r = t[0] == 0x76 && t[1] == 0x65 && t[2] == 0x72 && t[3] == 0x74 && t[4] == 0x65 && t[5]
        == 0x78;
    proof {
        if r {
            assert(t@ =~= kw_vertex());
        }
    }
    r
}

/// Decide whether a token is the keyword `endfacet`.
fn is_endfacet_token(t: &Vec<u8>) -> (r: bool)
    ensures
        r == (t@ == kw_endfacet()),
{
    proof {
        assert(kw_endfacet().len() == 8);
        assert(kw_endfacet()[0] == 0x65 && kw_endfacet()[1] == 0x6E && kw_endfacet()[2] == 0x64
            && kw_endfacet()[3] == 0x66 && kw_endfacet()[4] == 0x61 && kw_endfacet()[5] == 0x63
            && kw_endfacet()[6] == 0x65 && kw_endfacet()[7] == 0x74);
    }
    if t.len() != 8 {
        return false;
    }
    let r = t[0] == 0x65 && t[1] == 0x6E && t[2] == 0x64 && t[3] == 0x66 && t[4] == 0x61 && t[5]
        == 0x63 && t[6] == 0x65 && t[7] == 0x74;
    proof {
        if r {
            assert(t@ =~= kw_endfacet());
        }
    }
    r
}

/// The scanner state assembled from its parts.
pub(crate) open spec fn mk_state(
    normal: Vertex,
    a: Vertex,
    b: Vertex,
    c: Vertex,
    idx: int,
    k: int,
    tris: Seq<Triangle>,
) -> TextState {
    TextState { normal, a, b, c, idx, k, tris }
}

/// Decode a text file, given one coordinate value per numeric token in
/// scan order: `Some` for a token with a numeric value, `None` for one
/// without.  The grammar is scanned line by line; the first fault aborts
/// the decode.  Parsed normals are handed back verbatim.
pub fn load_text(data: &[u8], coords: &Vec<Option<u32>>) -> (r: Result<Model, Error>)
    ensures
        match r {
            Ok(m) => text_decode(data@, coords@) == Ok::<Seq<Triangle>, Error>(m@),
            Err(e) => text_decode(data@, coords@) == Err::<Seq<Triangle>, Error>(e),
        },
{
    let mut normal = Vertex::new(0, 0, 0);
    let mut va = Vertex::new(0, 0, 0);
    let mut vb = Vertex::new(0, 0, 0);
    let mut vc = Vertex::new(0, 0, 0);
    let mut idx: usize = 0;
    let mut k: usize = 0;
    let mut m = Model::new();
    let mut pos: usize = 0;
    let len = data.len();
    proof {
        assert(data@.skip(0) =~= data@);
    }
    while pos < len
        invariant
            pos <= len == data@.len(),
            idx <= 3,
            k <= coords@.len(),
            text_run(data@, init_state(), coords@) == text_run(
                data@.skip(pos as int),
                mk_state(normal, va, vb, vc, idx as int, k as int, m@),
                coords@,
            ),
        decreases len - pos,
    {
        let ghost cur = mk_state(normal, va, vb, vc, idx as int, k as int, m@);
        let ghost rem = data@.skip(pos as int);
        let mut j: usize = pos;
        while j < len && data[j] != 0x0A
            invariant
                pos <= j <= len == data@.len(),
                forall|t: int| pos <= t < j ==> #[trigger] data@[t] != 0x0A,
            decreases len - j,
        {
            j = j + 1;
        }
        proof {
            lemma_first_nl(rem);
            assert(forall|t: int| 0 <= t < rem.len() ==> #[trigger] rem[t] == data@[pos + t]);
            if first_nl(rem) < j - pos {
                assert(rem[first_nl(rem)] == 0x0A);
                assert(data@[pos + first_nl(rem)] != 0x0A);
                assert(false);
            }
            if first_nl(rem) > j - pos {
                assert(j < len);
                assert(rem[j - pos] != 0x0A);
                assert(false);
            }
            assert(first_nl(rem) == j - pos);
            assert(rem.take(j - pos) =~= data@.subrange(pos as int, j as int));
        }
        let ghost line = data@.subrange(pos as int, j as int);
        if !check_utf8_range(data, pos, j) {
            proof {
                assert(text_step(cur, line, coords@) == Err::<TextState, Error>(Error::ReadError));
            }
            return Err(Error::ReadError);
        }
        let toks = tokenize(data, pos, j);
        proof {
            assert(views_of(toks@) == tokens_of(line));
        }
        if toks.len() == 0 {
            proof {
                assert(text_step(cur, line, coords@) == Ok::<TextState, Error>(cur));
            }
        } else {
            proof {
                assert(toks@[0]@ == tokens_of(line)[0]);
            }
            if is_facet_token(&toks[0]) {
                if toks.len() != 5 {
                    proof {
                        assert(text_step(cur, line, coords@) == Err::<TextState, Error>(
                            Error::StructuralError,
                        ));
                    }
                    return Err(Error::StructuralError);
                }
                if coords.len() - k < 3 {
                    proof {
                        assert(!coord3_ok(coords@, k as int));
                        assert(text_step(cur, line, coords@) == Err::<TextState, Error>(
                            Error::FormatError,
                        ));
                    }
                    return Err(Error::FormatError);
                }
                let c0 = coords[k];
                let c1 = coords[k + 1];
                let c2 = coords[k + 2];
                match (c0, c1, c2) {
                    (Some(x), Some(y), Some(z)) => {
                        normal = Vertex::new(x, y, z);
                        idx = 0;
                        k = k + 3;
                    },
                    _ => {
                        proof {
                            assert(!coord3_ok(coords@, k as int));
                            assert(text_step(cur, line, coords@) == Err::<TextState, Error>(
                                Error::FormatError,
                            ));
                        }
                        return Err(Error::FormatError);
                    },
                }
            } else if is_vertex_token(&toks[0]) {
                if toks.len() != 4 {
                    proof {
                        assert(text_step(cur, line, coords@) == Err::<TextState, Error>(
                            Error::StructuralError,
                        ));
                    }
                    return Err(Error::StructuralError);
                }
                if idx >= 3 {
                    proof {
                        assert(text_step(cur, line, coords@) == Err::<TextState, Error>(
                            Error::StructuralError,
                        ));
                    }
                    return Err(Error::StructuralError);
                }
                if coords.len() - k < 3 {
                    proof {
                        assert(!coord3_ok(coords@, k as int));
                        assert(text_step(cur, line, coords@) == Err::<TextState, Error>(
                            Error::FormatError,
                        ));
                    }
                    return Err(Error::FormatError);
                }
                let c0 = coords[k];
                let c1 = coords[k + 1];
                let c2 = coords[k + 2];
                match (c0, c1, c2) {
                    (Some(x), Some(y), Some(z)) => {
                        let v = Vertex::new(x, y, z);
                        if idx == 0 {
                            va = v;
                        } else if idx == 1 {
                            vb = v;
                        } else {
                            vc = v;
                        }
                        idx = idx + 1;
                        k = k + 3;
                    },
                    _ => {
                        proof {
                            assert(!coord3_ok(coords@, k as int));
                            assert(text_step(cur, line, coords@) == Err::<TextState, Error>(
                                Error::FormatError,
                            ));
                        }
                        return Err(Error::FormatError);
                    },
                }
            } else if is_endfacet_token(&toks[0]) {
                if idx != 3 {
                    proof {
                        assert(text_step(cur, line, coords@) == Err::<TextState, Error>(
                            Error::StructuralError,
                        ));
                    }
                    return Err(Error::StructuralError);
                }
                m.push(Triangle::new(normal, [va, vb, vc]));
                idx = 0;
            } else {
                proof {
                    assert(text_step(cur, line, coords@) == Ok::<TextState, Error>(cur));
                }
            }
        }
        let next = if j < len {
            j + 1
        } else {
            j
        };
        proof {
            let newst = mk_state(normal, va, vb, vc, idx as int, k as int, m@);
            assert(text_step(cur, line, coords@) == Ok::<TextState, Error>(newst));
            if j < len {
                assert(rem.skip(j - pos + 1) =~= data@.skip(next as int));
            } else {
                assert(rem.skip(j - pos) =~= data@.skip(next as int));
            }
            assert(text_run(rem, cur, coords@) == text_run(data@.skip(next as int), newst, coords@));
        }
        pos = next;
    }
    proof {
        assert(data@.skip(len as int) =~= Seq::<u8>::empty());
        assert(text_run(data@, init_state(), coords@) == Ok::<TextState, Error>(
            mk_state(normal, va, vb, vc, idx as int, k as int, m@),
        ));
    }
    Ok(m)
}

/// The token scanner's state: the corner fill count and the numeric
/// tokens gathered so far.
pub struct ScanState {
    pub idx: int,
    pub toks: Seq<Seq<u8>>,
}

/// What one line does to the token scanner: the same shape checks as
/// the decoder, but gathering the numeric tokens instead of consuming
/// values for them.
pub open spec fn scan_step(st: ScanState, line: Seq<u8>) -> Result<ScanState, Error> {
    if !is_utf8(line) {
        Err(Error::ReadError)
    } else {
        let ts = tokens_of(line);
        if ts.len() == 0 {
            Ok(st)
        } else if ts[0] == kw_facet() {
            if ts.len() != 5 {
                Err(Error::StructuralError)
            } else {
                Ok(ScanState { idx: 0, toks: st.toks + seq![ts[2], ts[3], ts[4]] })
            }
        } else if ts[0] == kw_vertex() {
            if ts.len() != 4 {
                Err(Error::StructuralError)
            } else if st.idx >= 3 {
                Err(Error::StructuralError)
            } else {
                Ok(ScanState { idx: st.idx + 1, toks: st.toks + seq![ts[1], ts[2], ts[3]] })
            }
        } else if ts[0] == kw_endfacet() {
            if st.idx != 3 {
                Err(Error::StructuralError)
            } else {
                Ok(ScanState { idx: 0, ..st })
            }
        } else {
            Ok(st)
        }
    }
}

/// The token scanner text_run over `data`: lines are scanned in order, and
/// the scan stops quietly at the first faulty line, since the decoder
/// proper never looks past it.
pub open spec fn scan_run(data: Seq<u8>, st: ScanState) -> ScanState
    decreases data.len(),
    via scan_run_decreases
{
    if data.len() == 0 {
        st
    } else {
        let n = first_nl(data);
        let rest = if n < data.len() {
            data.skip(n + 1)
        } else {
            data.skip(n)
        };
        match scan_step(st, data.take(n)) {
            Ok(st2) => scan_run(rest, st2),
            Err(e) => st,
        }
    }
}

#[via_fn]
proof fn scan_run_decreases(data: Seq<u8>, st: ScanState) {
    if data.len() > 0 {
        lemma_first_nl(data);
    }
}

/// The numeric tokens of a text file, in scan order: three per `facet`
/// line and three per `vertex` line, up to the first faulty line.
pub open spec fn scan_tokens(data: Seq<u8>) -> Seq<Seq<u8>> {
    scan_run(data, ScanState { idx: 0, toks: Seq::empty() }).toks
}

/// Gather the numeric tokens of a text file, in scan order.  Feeding
/// their values, token by token, to [`load_text`] completes the decode.
pub fn coord_tokens(data: &[u8]) -> (r: Vec<Vec<u8>>)
    ensures
        views_of(r@) == scan_tokens(data@),
{
    let mut idx: usize = 0;
    let mut toks: Vec<Vec<u8>> = Vec::new();
    let mut pos: usize = 0;
    let len = data.len();
    proof {
        assert(data@.skip(0) =~= data@);
        assert(views_of(toks@) =~= Seq::<Seq<u8>>::empty());
    }
    while pos < len
        invariant
            pos <= len == data@.len(),
            idx <= 3,
            scan_run(data@, ScanState { idx: 0, toks: Seq::empty() }) == scan_run(
                data@.skip(pos as int),
                ScanState { idx: idx as int, toks: views_of(toks@) },
            ),
        decreases len - pos,
    {
        let ghost cur = ScanState { idx: idx as int, toks: views_of(toks@) };
        let ghost rem = data@.skip(pos as int);
        let mut j: usize = pos;
        while j < len && data[j] != 0x0A
            invariant
                pos <= j <= len == data@.len(),
                forall|t: int| pos <= t < j ==> #[trigger] data@[t] != 0x0A,
            decreases len - j,
        {
            j = j + 1;
        }
        proof {
            lemma_first_nl(rem);
            assert(forall|t: int| 0 <= t < rem.len() ==> #[trigger] rem[t] == data@[pos + t]);
            if first_nl(rem) < j - pos {
                assert(rem[first_nl(rem)] == 0x0A);
                assert(data@[pos + first_nl(rem)] != 0x0A);
                assert(false);
            }
            if first_nl(rem) > j - pos {
                assert(j < len);
                assert(rem[j - pos] != 0x0A);
                assert(false);
            }
            assert(first_nl(rem) == j - pos);
            assert(rem.take(j - pos) =~= data@.subrange(pos as int, j as int));
        }
        let ghost line = data@.subrange(pos as int, j as int);
        if !check_utf8_range(data, pos, j) {
            proof {
                assert(scan_step(cur, line) == Err::<ScanState, Error>(Error::ReadError));
                assert(scan_run(rem, cur) == cur);
            }
            return toks;
        }
        let lts = tokenize(data, pos, j);
        proof {
            assert(views_of(lts@) == tokens_of(line));
        }
        if lts.len() == 0 {
            proof {
                assert(scan_step(cur, line) == Ok::<ScanState, Error>(cur));
            }
        } else {
            proof {
                assert(lts@[0]@ == tokens_of(line)[0]);
            }
            if is_facet_token(&lts[0]) {
                if lts.len() != 5 {
                    proof {
                        assert(scan_run(rem, cur) == cur);
                    }
                    return toks;
                }
                let ghost old_toks = toks@;
                let t2 = lts[2].clone();
                let t3 = lts[3].clone();
                let t4 = lts[4].clone();
                toks.push(t2);
                toks.push(t3);
                toks.push(t4);
                idx = 0;
                proof {
                    assert(views_of(toks@) =~= views_of(old_toks) + seq![
                        tokens_of(line)[2],
                        tokens_of(line)[3],
                        tokens_of(line)[4],
                    ]);
                }
            } else if is_vertex_token(&lts[0]) {
                if lts.len() != 4 {
                    proof {
                        assert(scan_run(rem, cur) == cur);
                    }
                    return toks;
                }
                if idx >= 3 {
                    proof {
                        assert(scan_run(rem, cur) == cur);
                    }
                    return toks;
                }
                let ghost old_toks = toks@;
                let t1 = lts[1].clone();
                let t2 = lts[2].clone();
                let t3 = lts[3].clone();
                toks.push(t1);
                toks.push(t2);
                toks.push(t3);
                idx = idx + 1;
                proof {
                    assert(views_of(toks@) =~= views_of(old_toks) + seq![
                        tokens_of(line)[1],
                        tokens_of(line)[2],
                        tokens_of(line)[3],
                    ]);
                }
            } else if is_endfacet_token(&lts[0]) {
                if idx != 3 {
                    proof {
                        assert(scan_run(rem, cur) == cur);
                    }
                    return toks;
                }
                idx = 0;
            } else {
                proof {
                    assert(scan_step(cur, line) == Ok::<ScanState, Error>(cur));
                }
            }
        }
        let next = if j < len {
            j + 1
        } else {
            j
        };
        proof {
            let newst = ScanState { idx: idx as int, toks: views_of(toks@) };
            assert(scan_step(cur, line) == Ok::<ScanState, Error>(newst));
            if j < len {
                assert(rem.skip(j - pos + 1) =~= data@.skip(next as int));
            } else {
                assert(rem.skip(j - pos) =~= data@.skip(next as int));
            }
            assert(scan_run(rem, cur) == scan_run(data@.skip(next as int), newst));
        }
        pos = next;
    }
    proof {
        assert(data@.skip(len as int) =~= Seq::<u8>::empty());
    }
    toks
}

/// Whether the token scanner gets through `data` without a fault: every
/// line is UTF-8, every `facet` and `vertex` line is well shaped, no
/// facet gathers a fourth corner, and every `endfacet` closes exactly
/// three.
pub open spec fn scan_ok(data: Seq<u8>, st: ScanState) -> bool
    decreases data.len(),
    via scan_ok_decreases
{
    if data.len() == 0 {
        true
    } else {
        let n = first_nl(data);
        let rest = if n < data.len() {
            data.skip(n + 1)
        } else {
            data.skip(n)
        };
        match scan_step(st, data.take(n)) {
            Ok(st2) => scan_ok(rest, st2),
            Err(e) => false,
        }
    }
}

#[via_fn]
proof fn scan_ok_decreases(data: Seq<u8>, st: ScanState) {
    if data.len() > 0 {
        lemma_first_nl(data);
    }
}

proof fn lemma_scan_monotone(data: Seq<u8>, st: ScanState)
    ensures
        scan_run(data, st).toks.len() >= st.toks.len(),
    decreases data.len(),
{
    if data.len() == 0 {
    } else {
        lemma_first_nl(data);
        let n = first_nl(data);
        let rest = if n < data.len() {
            data.skip(n + 1)
        } else {
            data.skip(n)
        };
        match scan_step(st, data.take(n)) {
            Ok(st2) => {
                lemma_scan_monotone(rest, st2);
            },
            Err(e) => {},
        }
    }
}

proof fn lemma_run_complete(
    data: Seq<u8>,
    stf: TextState,
    sts: ScanState,
    coords: Seq<Option<u32>>,
)
    requires
        scan_ok(data, sts),
        0 <= sts.idx,
        stf.idx == sts.idx,
        stf.k == sts.toks.len(),
        coords.len() == scan_run(data, sts).toks.len(),
        forall|j: int| 0 <= j < coords.len() ==> coords[j] is Some,
    ensures
        text_run(data, stf, coords) is Ok,
        text_run(data, stf, coords)->Ok_0.k == scan_run(data, sts).toks.len(),
    decreases data.len(),
{
    if data.len() == 0 {
    } else {
        lemma_first_nl(data);
        let n = first_nl(data);
        let line = data.take(n);
        let rest = if n < data.len() {
            data.skip(n + 1)
        } else {
            data.skip(n)
        };
        let sts2 = scan_step(sts, line)->Ok_0;
        lemma_scan_monotone(rest, sts2);
        assert(scan_run(data, sts) == scan_run(rest, sts2));
        assert(sts2.toks.len() <= coords.len());
        let ts = tokens_of(line);
        if ts.len() > 0 && (ts[0] == kw_facet() || ts[0] == kw_vertex()) {
            assert(sts2.toks.len() == sts.toks.len() + 3);
            assert(coord3_ok(coords, stf.k));
        }
        let stf2 = text_step(stf, line, coords)->Ok_0;
        assert(text_step(stf, line, coords) is Ok);
        assert(0 <= sts2.idx);
        assert(stf2.idx == sts2.idx);
        assert(stf2.k == sts2.toks.len());
        lemma_run_complete(rest, stf2, sts2, coords);
    }
}

/// When success is owed for the text variant: a file whose grammar the
/// token scanner gets through cleanly, with a numeric value supplied
/// for every one of its numeric tokens, decodes to a mesh, never to an
/// error — and consumes every supplied value, one per token, in scan
/// order.
pub proof fn lemma_text_complete(data: Seq<u8>, coords: Seq<Option<u32>>)
    requires
        scan_ok(data, ScanState { idx: 0, toks: Seq::empty() }),
        coords.len() == scan_tokens(data).len(),
        forall|j: int| 0 <= j < coords.len() ==> coords[j] is Some,
    ensures
        text_decode(data, coords) is Ok,
        text_run(data, init_state(), coords)->Ok_0.k == coords.len(),
{
    lemma_run_complete(data, init_state(), ScanState { idx: 0, toks: Seq::empty() }, coords);
}

/// Whether a line is a well-shaped line whose first token is the
/// keyword `endfacet`.
pub open spec fn is_endfacet_line(line: Seq<u8>) -> bool {
    is_utf8(line) && tokens_of(line).len() > 0 && tokens_of(line)[0] == kw_endfacet()
}

/// How many lines of `data` lead with the keyword `endfacet`.
pub open spec fn endfacet_count(data: Seq<u8>) -> int
    decreases data.len(),
    via endfacet_count_decreases
{
    if data.len() == 0 {
        0
    } else {
        let n = first_nl(data);
        let rest = if n < data.len() {
            data.skip(n + 1)
        } else {
            data.skip(n)
        };
        (if is_endfacet_line(data.take(n)) {
            1int
        } else {
            0int
        }) + endfacet_count(rest)
    }
}

#[via_fn]
proof fn endfacet_count_decreases(data: Seq<u8>) {
    if data.len() > 0 {
        lemma_first_nl(data);
    }
}

proof fn lemma_run_count(data: Seq<u8>, st: TextState, coords: Seq<Option<u32>>)
    requires
        text_run(data, st, coords) is Ok,
    ensures
        text_run(data, st, coords)->Ok_0.tris.len() == st.tris.len() + endfacet_count(data),
    decreases data.len(),
{
    if data.len() == 0 {
    } else {
        lemma_first_nl(data);
        let n = first_nl(data);
        let line = data.take(n);
        let rest = if n < data.len() {
            data.skip(n + 1)
        } else {
            data.skip(n)
        };
        let st2 = text_step(st, line, coords)->Ok_0;
        lemma_run_count(rest, st2, coords);
        if is_endfacet_line(line) {
            assert(st2.tris.len() == st.tris.len() + 1);
        } else {
            assert(st2.tris == st.tris);
        }
    }
}

/// In a text file that decodes successfully, the number of triangles
/// handed back equals the number of lines led by `endfacet`: each such
/// line closes exactly one facet, and nothing else closes one.
pub proof fn lemma_text_count(data: Seq<u8>, coords: Seq<Option<u32>>)
    requires
        text_decode(data, coords) is Ok,
    ensures
        text_decode(data, coords)->Ok_0.len() == endfacet_count(data),
{
    lemma_run_count(data, init_state(), coords);
}

} // verus!
