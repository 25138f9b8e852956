use vstd::prelude::*;
use vstd::string::StringSliceAdditionalSpecFns;
use vstd::utf8::*;

verus! {

/// Where a scan of a JSON text stands after some of its bytes.
pub struct ScanState {
    /// Nesting of objects; a stray `}` can take it below 0.
    pub depth: int,
    /// Where the current top-level object began.
    pub start: int,
    pub in_string: bool,
    /// The previous byte was a backslash that was not itself escaped.
    pub escape: bool,
    /// The top-level objects found so far, as byte ranges `[from, to)`.
    pub pieces: Seq<(int, int)>,
}

/// The scan after byte `b` at position `i`: an escaped byte is skipped; a
/// backslash escapes the next byte; a quote opens or closes a string;
/// outside strings, braces nest, and a `}` that brings the nesting back to
/// 0 closes a top-level object.
pub open spec fn scan_step(st: ScanState, b: u8, i: int) -> ScanState {
    if st.escape {
        ScanState { escape: false, ..st }
    } else if b == 92 {
        ScanState { escape: true, ..st }
    } else if b == 34 {
        ScanState { in_string: !st.in_string, ..st }
    } else if b == 123 && !st.in_string {
        ScanState { depth: st.depth + 1, start: if st.depth == 0 { i } else { st.start }, ..st }
    } else if b == 125 && !st.in_string {
        ScanState {
            depth: st.depth - 1,
            pieces: if st.depth - 1 == 0 { st.pieces.push((st.start, i + 1)) } else { st.pieces },
            ..st
        }
    } else {
        st
    }
}

/// The scan of `bytes` from the start.
pub open spec fn scan(bytes: Seq<u8>) -> ScanState
    decreases bytes.len(),
{
    if bytes.len() == 0 {
        ScanState { depth: 0, start: 0, in_string: false, escape: false, pieces: seq![] }
    } else {
        scan_step(scan(bytes.drop_last()), bytes.last(), bytes.len() - 1)
    }
}

/// The byte ranges of the top-level objects of a JSON text.
pub open spec fn object_ranges(bytes: Seq<u8>) -> Seq<(int, int)> {
    scan(bytes).pieces
}

/// The scan before any byte.
spec fn fresh_scan() -> ScanState {
    ScanState { depth: 0, start: 0, in_string: false, escape: false, pieces: seq![] }
}

/// The scan of `bytes` from the state `st`, with `bytes` standing at
/// position `off` of the text.
spec fn scan_from(st: ScanState, bytes: Seq<u8>, off: int) -> ScanState
    decreases bytes.len(),
{
    if bytes.len() == 0 {
        st
    } else {
        scan_step(scan_from(st, bytes.drop_last(), off), bytes.last(), off + bytes.len() - 1)
    }
}

/// Ranges moved `off` bytes to the right.
spec fn shifted(p: Seq<(int, int)>, off: int) -> Seq<(int, int)> {
    Seq::new(p.len(), |j: int| (p[j].0 + off, p[j].1 + off))
}

proof fn lemma_scan_from_fresh(bytes: Seq<u8>)
    ensures
        scan(bytes) == scan_from(fresh_scan(), bytes, 0),
    decreases bytes.len(),
{
    if bytes.len() > 0 {
        lemma_scan_from_fresh(bytes.drop_last());
    }
}

/// Scanning `a + b` is scanning `a`, then `b` from where `a` left off.
proof fn lemma_scan_append(st: ScanState, a: Seq<u8>, b: Seq<u8>, off: int)
    ensures
        scan_from(st, a + b, off) == scan_from(scan_from(st, a, off), b, off + a.len()),
    decreases b.len(),
{
    if b.len() == 0 {
        assert(a + b =~= a);
    } else {
        lemma_scan_append(st, a, b.drop_last(), off);
        assert((a + b).drop_last() =~= a + b.drop_last());
        assert((a + b).last() == b.last());
    }
}

/// From a state at nesting 0, outside strings and escapes, a text scans as
/// it does alone, with the objects it holds moved to where it stands.
proof fn lemma_scan_shift(st: ScanState, o: Seq<u8>, off: int)
    requires
        st.depth == 0,
        !st.in_string,
        !st.escape,
    ensures
        scan_from(st, o, off).depth == scan(o).depth,
        scan_from(st, o, off).in_string == scan(o).in_string,
        scan_from(st, o, off).escape == scan(o).escape,
        scan_from(st, o, off).pieces == st.pieces + shifted(scan(o).pieces, off),
        scan(o).depth > 0 ==> scan_from(st, o, off).start == scan(o).start + off,
    decreases o.len(),
{
    if o.len() == 0 {
        assert(st.pieces + shifted(seq![], off) =~= st.pieces);
    } else {
        let o1 = o.drop_last();
        lemma_scan_shift(st, o1, off);
        let q0 = scan(o1);
        let a0 = scan_from(st, o1, off);
        let b = o.last();
        let i = o.len() - 1;
        if !q0.escape && b == 125 && !q0.in_string && q0.depth - 1 == 0 {
            let x = (q0.start, i + 1);
            let y = (a0.start, off + i + 1);
            assert(y == (x.0 + off, x.1 + off));
            assert(shifted(q0.pieces.push(x), off) =~= shifted(q0.pieces, off).push(y));
            assert(st.pieces + shifted(q0.pieces, off).push(y) =~= (st.pieces + shifted(
                q0.pieces,
                off,
            )).push(y));
        }
    }
}

/// Facts about the scan: the current object starts at an opening brace, and
/// every range found opens with `{`, closes with `}`, and lies after the
/// one before it.
proof fn lemma_scan(bytes: Seq<u8>)
    ensures
        scan(bytes).depth > 0 ==> 0 <= scan(bytes).start < bytes.len() && bytes[scan(bytes).start]
            == 123,
        -bytes.len() <= scan(bytes).depth <= bytes.len(),
        forall|k: int|
            0 <= k < scan(bytes).pieces.len() ==> 0 <= #[trigger] scan(bytes).pieces[k].0
                < scan(bytes).pieces[k].1 <= bytes.len() && bytes[scan(bytes).pieces[k].0] == 123
                && bytes[scan(bytes).pieces[k].1 - 1] == 125,
        forall|k: int|
            0 < k < scan(bytes).pieces.len() ==> #[trigger] scan(bytes).pieces[k - 1].1
                <= scan(bytes).pieces[k].0,
        scan(bytes).pieces.len() > 0 ==> scan(bytes).pieces.last().1 <= scan(bytes).start
            || scan(bytes).depth <= 0,
    decreases bytes.len(),
{
    if bytes.len() > 0 {
        let prev = bytes.drop_last();
        lemma_scan(prev);
        assert(forall|j: int| 0 <= j < prev.len() ==> prev[j] == bytes[j]);
        let st0 = scan(prev);
        let st = scan(bytes);
        let i = bytes.len() - 1;
        assert(st == scan_step(st0, bytes[i], i));
        if st0.pieces.len() > 0 {
            let lk = st0.pieces.len() - 1;
            assert(st0.pieces[lk].0 < st0.pieces[lk].1 <= i);
            assert(st0.pieces.last() == st0.pieces[lk]);
        }
        if !st0.escape && bytes[i] == 125 && !st0.in_string && st0.depth - 1 == 0 {
            assert(st.pieces == st0.pieces.push((st0.start, i + 1)));
            assert(st.pieces.last() == (st0.start, i + 1));
            assert(forall|k: int| 0 <= k < st0.pieces.len() ==> st.pieces[k] == st0.pieces[k]);
        } else {
            assert(st.pieces == st0.pieces);
        }
    }
}

/// The nesting stays within what an `i32` holds after every byte.
pub open spec fn depth_fits(bytes: Seq<u8>) -> bool {
    forall|i: int|
        0 <= i <= bytes.len() ==> i32::MIN <= #[trigger] scan(bytes.take(i)).depth <= i32::MAX
}

/// Whether the nesting of `raw` stays within what an `i32` holds, as
/// `split_json_array` asks.
pub fn nesting_fits(raw: &str) -> (r: bool)
    ensures
        r == depth_fits(raw.spec_bytes()),
{
    let bytes = raw.as_bytes();
    let ghost bs = raw.spec_bytes();
    let n = bytes.len();
    let mut depth: i64 = 0;
    let mut in_string = false;
    let mut escape = false;
    let mut i: usize = 0;
    while i < n
        invariant
            n == bs.len(),
            bytes@ == bs,
            bs == raw.spec_bytes(),
            i <= n,
            depth == scan(bs.take(i as int)).depth,
            in_string == scan(bs.take(i as int)).in_string,
            escape == scan(bs.take(i as int)).escape,
            forall|j: int|
                0 <= j <= i ==> i32::MIN <= #[trigger] scan(bs.take(j)).depth <= i32::MAX,
        decreases n - i,
    {
        proof {
            assert(bs.take(i + 1).drop_last() =~= bs.take(i as int));
        }
        let b = bytes[i];
        if escape {
            escape = false;
        } else if b == 92 {
            escape = true;
        } else if b == 34 {
            in_string = !in_string;
        } else if b == 123 && !in_string {
            depth = depth + 1;
        } else if b == 125 && !in_string {
            depth = depth - 1;
        }
        if depth > 2147483647 || depth < -2147483648 {
            assert(scan(bs.take(i + 1)).depth == depth);
            return false;
        }
        i = i + 1;
    }
    assert(bs.take(n as int) =~= bs);
    true
}

/// A byte after an ASCII byte that starts a character starts a character too.
proof fn lemma_boundary_after_ascii(b: Seq<u8>, i: int)
    requires
        valid_utf8(b),
        0 <= i < b.len(),
        is_char_boundary(b, i),
        b[i] <= 0x7f,
    ensures
        is_char_boundary(b, i + 1),
    decreases b.len(),
{
    reveal_with_fuel(is_char_boundary, 2);
    let l = length_of_first_scalar(b);
    let p = pop_first_scalar(b);
    if i == 0 {
        assert(l == 1);
    } else {
        assert(p.len() == b.len() - l);
        assert(is_char_boundary(p, i - l));
        if i - l < 0 {
            assert(false);
        }
        assert(p[i - l] == b[i]);
        lemma_boundary_after_ascii(p, i - l);
    }
}

/// The top-level objects of a JSON text, each as the text that spells it.
/// The nesting is counted in an `i32`, so it must stay within one.
pub fn split_json_array(raw: &str) -> (out: Vec<&str>)
    requires
        depth_fits(raw.spec_bytes()),
    ensures
        out@.len() == object_ranges(raw.spec_bytes()).len(),
        forall|k: int|
            0 <= k < out@.len() ==> #[trigger] out@[k].spec_bytes() == raw.spec_bytes().subrange(
                object_ranges(raw.spec_bytes())[k].0,
                object_ranges(raw.spec_bytes())[k].1,
            ),
{
    let bytes = raw.as_bytes();
    let ghost bs = raw.spec_bytes();
    proof {
        encode_utf8_valid_utf8(raw@);
    }
    let mut depth: i32 = 0;
    let mut start: usize = 0;
    let mut out: Vec<&str> = Vec::new();
    let mut in_string = false;
    let mut escape = false;
    let n = bytes.len();
    let mut i: usize = 0;
    while i < n
        invariant
            n == bs.len(),
            bytes@ == bs,
            bs == raw.spec_bytes(),
            depth_fits(bs),
            valid_utf8(bs),
            i <= n,
            ({
                let st = scan(bs.take(i as int));
                &&& st.depth == depth
                &&& st.start == start
                &&& st.in_string == in_string
                &&& st.escape == escape
                &&& st.pieces.len() == out@.len()
                &&& forall|k: int|
                    0 <= k < out@.len() ==> #[trigger] out@[k].spec_bytes() == bs.subrange(
                        st.pieces[k].0,
                        st.pieces[k].1,
                    )
            }),
        decreases n - i,
    {
        proof {
            lemma_scan(bs.take(i as int));
            assert(bs.take(i + 1).drop_last() =~= bs.take(i as int));
            assert(i32::MIN <= scan(bs.take(i + 1)).depth <= i32::MAX);
        }
        let b = bytes[i];
        if escape {
            escape = false;
        } else if b == 92 {
            escape = true;
        } else if b == 34 {
            in_string = !in_string;
        } else if b == 123 && !in_string {
            if depth == 0 {
                start = i;
            }
            depth += 1;
        } else if b == 125 && !in_string {
            depth -= 1;
            if depth == 0 {
                proof {
                    let pre = bs.take(i as int);
                    assert(forall|j: int| 0 <= j < pre.len() ==> pre[j] == bs[j]);
                    is_char_boundary_iff_not_is_continuation_byte(bs, start as int);
                    is_char_boundary_iff_not_is_continuation_byte(bs, i as int);
                    assert(bs[i as int] == 125);
                    assert(is_char_boundary(bs, i as int));
                    lemma_boundary_after_ascii(bs, i as int);
                    assert(is_char_boundary(bs, i + 1));
                    assert(is_char_boundary(raw.spec_bytes(), (i + 1) as int));
                }
                let (left, _) = raw.split_at(i + 1);
                proof {
                    valid_utf8_split(bs, i + 1);
                    is_char_boundary_iff_not_is_continuation_byte(left.spec_bytes(), start as int);
                }
                let (_, piece) = left.split_at(start);
                assert(piece.spec_bytes() =~= bs.subrange(start as int, i + 1));
                out.push(piece);
            }
        }
        i = i + 1;
    }
    assert(bs.take(n as int) =~= bs);
    out
}

/// Every range found opens with `{`, closes with `}`, and lies after the
/// range before it.
pub proof fn lemma_object_ranges_well_formed(bytes: Seq<u8>)
    ensures
        forall|k: int|
            0 <= k < object_ranges(bytes).len() ==> 0 <= #[trigger] object_ranges(bytes)[k].0
                < object_ranges(bytes)[k].1 <= bytes.len() && bytes[object_ranges(bytes)[k].0]
                == 123 && bytes[object_ranges(bytes)[k].1 - 1] == 125,
        forall|k: int|
            0 < k < object_ranges(bytes).len() ==> #[trigger] object_ranges(bytes)[k - 1].1
                <= object_ranges(bytes)[k].0,
{
    lemma_scan(bytes);
}

/// JSON texts joined by commas.
pub open spec fn comma_joined(objs: Seq<Seq<u8>>) -> Seq<u8>
    decreases objs.len(),
{
    if objs.len() == 0 {
        seq![]
    } else if objs.len() == 1 {
        objs[0]
    } else {
        comma_joined(objs.drop_last()) + seq![44u8] + objs.last()
    }
}

/// The JSON array of the given texts: `[`, the texts joined by commas, `]`.
pub open spec fn json_array_of(objs: Seq<Seq<u8>>) -> Seq<u8> {
    seq![91u8] + comma_joined(objs) + seq![93u8]
}

/// What the scan asks of a JSON object: scanned alone, it ends outside any
/// string or escape and back at nesting 0, with one object found, which
/// spans the whole text.
pub open spec fn is_top_object(o: Seq<u8>) -> bool {
    let st = scan(o);
    &&& st.depth == 0
    &&& !st.in_string
    &&& !st.escape
    &&& st.pieces == seq![(0int, o.len() as int)]
}

/// A byte other than a brace, quote or backslash leaves a scan at nesting 0,
/// outside strings and escapes, as it was.
proof fn lemma_scan_plain_byte(t: Seq<u8>, b: u8)
    requires
        scan(t).depth == 0,
        !scan(t).in_string,
        !scan(t).escape,
        b != 123 && b != 125 && b != 34 && b != 92,
    ensures
        scan(t.push(b)) == scan(t),
{
    assert(t.push(b).drop_last() =~= t);
}

/// The scan of `[` and the texts joined by commas: it ends outside strings
/// and escapes at nesting 0, and has found each text, in order.
proof fn lemma_joined_scan(objs: Seq<Seq<u8>>)
    requires
        forall|k: int| 0 <= k < objs.len() ==> is_top_object(#[trigger] objs[k]),
    ensures
        scan(seq![91u8] + comma_joined(objs)).depth == 0,
        !scan(seq![91u8] + comma_joined(objs)).in_string,
        !scan(seq![91u8] + comma_joined(objs)).escape,
        scan(seq![91u8] + comma_joined(objs)).pieces.len() == objs.len(),
        forall|k: int|
            0 <= k < objs.len() ==> (seq![91u8] + comma_joined(objs)).subrange(
                #[trigger] scan(seq![91u8] + comma_joined(objs)).pieces[k].0,
                scan(seq![91u8] + comma_joined(objs)).pieces[k].1,
            ) == objs[k],
    decreases objs.len(),
{
    let t = seq![91u8] + comma_joined(objs);
    if objs.len() == 0 {
        assert(t =~= seq![].push(91u8));
        assert(scan(seq![]) == fresh_scan());
        lemma_scan_plain_byte(seq![], 91u8);
    } else {
        let init = objs.drop_last();
        let o = objs.last();
        assert(is_top_object(objs[objs.len() - 1]));
        let x = if objs.len() == 1 {
            seq![91u8]
        } else {
            (seq![91u8] + comma_joined(init)).push(44u8)
        };
        let t0 = seq![91u8] + comma_joined(init);
        assert(forall|k: int| 0 <= k < init.len() ==> init[k] == objs[k]);
        lemma_joined_scan(init);
        lemma_scan(t0);
        if objs.len() == 1 {
            assert(t0 =~= seq![91u8]);
            assert(t =~= x + o);
        } else {
            lemma_scan_plain_byte(t0, 44u8);
            assert(t =~= x + o);
        }
        assert(scan(x) == scan(t0));
        lemma_scan_from_fresh(x);
        lemma_scan_from_fresh(t);
        lemma_scan_append(fresh_scan(), x, o, 0);
        lemma_scan_shift(scan(x), o, x.len() as int);
        let p0 = scan(t0).pieces;
        let p = scan(t).pieces;
        assert(shifted(seq![(0int, o.len() as int)], x.len() as int) =~= seq![
            (x.len() as int, (x.len() + o.len()) as int),
        ]);
        assert(p =~= p0.push((x.len() as int, (x.len() + o.len()) as int)));
        assert forall|k: int| 0 <= k < objs.len() implies t.subrange(
            #[trigger] p[k].0,
            p[k].1,
        ) == objs[k] by {
            if k < init.len() {
                assert(p[k] == p0[k]);
                assert(0 <= p0[k].0 < p0[k].1 <= t0.len());
                assert(t.subrange(p[k].0, p[k].1) =~= t0.subrange(p0[k].0, p0[k].1));
            } else {
                assert(t.subrange(p[k].0, p[k].1) =~= o);
            }
        }
    }
}

/// After a text that leaves the scan at nesting 0, outside strings and
/// escapes, the nesting in a following text is what it is in that text
/// alone.
proof fn lemma_prefix_depth(x: Seq<u8>, o: Seq<u8>, j: int)
    requires
        scan(x).depth == 0,
        !scan(x).in_string,
        !scan(x).escape,
        0 <= j <= o.len(),
    ensures
        scan((x + o).take(x.len() + j)).depth == scan(o.take(j)).depth,
{
    let oj = o.take(j);
    assert((x + o).take(x.len() + j) =~= x + oj);
    lemma_scan_from_fresh(x + oj);
    lemma_scan_from_fresh(x);
    lemma_scan_append(fresh_scan(), x, oj, 0);
    lemma_scan_shift(scan(x), oj, x.len() as int);
}

/// The nesting in `[` and the texts joined by commas stays within an `i32`
/// when it does in each text.
proof fn lemma_joined_depth(objs: Seq<Seq<u8>>)
    requires
        forall|k: int|
            0 <= k < objs.len() ==> is_top_object(#[trigger] objs[k]) && depth_fits(objs[k]),
    ensures
        depth_fits(seq![91u8] + comma_joined(objs)),
    decreases objs.len(),
{
    let t = seq![91u8] + comma_joined(objs);
    if objs.len() == 0 {
        assert(t =~= seq![].push(91u8));
        assert(scan(seq![]) == fresh_scan());
        lemma_scan_plain_byte(seq![], 91u8);
        assert forall|i: int| 0 <= i <= t.len() implies i32::MIN <= #[trigger] scan(
            t.take(i),
        ).depth <= i32::MAX by {
            if i == 0 {
                assert(t.take(0) =~= seq![]);
            } else {
                assert(t.take(1) =~= t);
            }
        }
    } else {
        let init = objs.drop_last();
        let o = objs.last();
        assert(is_top_object(objs[objs.len() - 1]) && depth_fits(objs[objs.len() - 1]));
        let t0 = seq![91u8] + comma_joined(init);
        assert(forall|k: int| 0 <= k < init.len() ==> init[k] == objs[k]);
        lemma_joined_depth(init);
        lemma_joined_scan(init);
        let x = if objs.len() == 1 {
            seq![91u8]
        } else {
            t0.push(44u8)
        };
        if objs.len() == 1 {
            assert(t0 =~= seq![91u8]);
        } else {
            lemma_scan_plain_byte(t0, 44u8);
        }
        assert(t =~= x + o);
        assert(scan(x) == scan(t0));
        assert forall|i: int| 0 <= i <= t.len() implies i32::MIN <= #[trigger] scan(
            t.take(i),
        ).depth <= i32::MAX by {
            if i < x.len() {
                assert(t.take(i) =~= t0.take(i));
                assert(i32::MIN <= scan(t0.take(i)).depth <= i32::MAX);
            } else {
                let j = i - x.len();
                lemma_prefix_depth(x, o, j);
                assert(i32::MIN <= scan(o.take(j)).depth <= i32::MAX);
            }
        }
    }
}

/// Splitting a JSON array of objects gives back the objects: in the array
/// of the texts `objs` the scan finds as many objects as there are texts,
/// and the `k`-th range it finds spells the `k`-th text. When the nesting
/// of each text fits an `i32`, so does that of the array, and
/// `split_json_array` takes it.
pub proof fn lemma_split_round_trip(objs: Seq<Seq<u8>>)
    requires
        forall|k: int| 0 <= k < objs.len() ==> is_top_object(#[trigger] objs[k]),
    ensures
        object_ranges(json_array_of(objs)).len() == objs.len(),
        forall|k: int|
            0 <= k < objs.len() ==> json_array_of(objs).subrange(
                #[trigger] object_ranges(json_array_of(objs))[k].0,
                object_ranges(json_array_of(objs))[k].1,
            ) == objs[k],
        (forall|k: int| 0 <= k < objs.len() ==> depth_fits(#[trigger] objs[k])) ==> depth_fits(
            json_array_of(objs),
        ),
{
    let t = seq![91u8] + comma_joined(objs);
    let full = json_array_of(objs);
    if forall|k: int| 0 <= k < objs.len() ==> depth_fits(#[trigger] objs[k]) {
        lemma_joined_depth(objs);
        lemma_joined_scan(objs);
        assert(full =~= t.push(93u8));
        lemma_scan_plain_byte(t, 93u8);
        assert forall|i: int| 0 <= i <= full.len() implies i32::MIN <= #[trigger] scan(
            full.take(i),
        ).depth <= i32::MAX by {
            if i <= t.len() {
                assert(full.take(i) =~= t.take(i));
            } else {
                assert(full.take(i) =~= t.push(93u8));
            }
        }
    }
    lemma_joined_scan(objs);
    lemma_scan(t);
    assert(full =~= t.push(93u8));
    lemma_scan_plain_byte(t, 93u8);
    assert forall|k: int| 0 <= k < objs.len() implies full.subrange(
        #[trigger] object_ranges(full)[k].0,
        object_ranges(full)[k].1,
    ) == objs[k] by {
        let r = scan(t).pieces[k];
        assert(0 <= r.0 < r.1 <= t.len());
        assert(full.subrange(r.0, r.1) =~= t.subrange(r.0, r.1));
    }
}

/// What the websocket reader meets: a frame of some kind, or what came of
/// parsing and routing the last frame.
pub enum ReaderEvent {
    TextFrame,
    BinaryFrame,
    CloseFrame,
    ReadFailed,
    OtherFrame,
    ParseFailed,
    RouteFailed,
    Routed,
}

/// Why the reader stops.
pub enum ReaderStop {
    ClosedByServer,
    ReadError,
    RouteError,
}

/// What the reader does next: parse the frame's bytes and route the
/// message, go on to the next frame, log a parse failure and go on, or stop
/// with an error.
pub enum ReaderAction {
    Parse,
    Next,
    LogParseError,
    Stop(ReaderStop),
}

/// The reader's rule: text and binary frames are parsed; a close frame, a
/// failed read or a failed route stop it; a message that does not parse is
/// logged and skipped; other frames are skipped.
pub open spec fn reader_action_of(event: ReaderEvent) -> ReaderAction {
    match event {
        ReaderEvent::TextFrame | ReaderEvent::BinaryFrame => ReaderAction::Parse,
        ReaderEvent::CloseFrame => ReaderAction::Stop(ReaderStop::ClosedByServer),
        ReaderEvent::ReadFailed => ReaderAction::Stop(ReaderStop::ReadError),
        ReaderEvent::RouteFailed => ReaderAction::Stop(ReaderStop::RouteError),
        ReaderEvent::ParseFailed => ReaderAction::LogParseError,
        ReaderEvent::OtherFrame | ReaderEvent::Routed => ReaderAction::Next,
    }
}

/// Decides what the reader does on one event.
pub fn reader_step(event: ReaderEvent) -> (r: ReaderAction)
    ensures
        r == reader_action_of(event),
{
    match event {
        ReaderEvent::TextFrame | ReaderEvent::BinaryFrame => ReaderAction::Parse,
        ReaderEvent::CloseFrame => ReaderAction::Stop(ReaderStop::ClosedByServer),
        ReaderEvent::ReadFailed => ReaderAction::Stop(ReaderStop::ReadError),
        ReaderEvent::RouteFailed => ReaderAction::Stop(ReaderStop::RouteError),
        ReaderEvent::ParseFailed => ReaderAction::LogParseError,
        ReaderEvent::OtherFrame | ReaderEvent::Routed => ReaderAction::Next,
    }
}

} // verus!
