//! How converted subtitle text is split back into SubRip text lines: at
//! each `\N` or `\n` break, one line per piece.
use crate::lines::{seg_end, SourceModel};
use crate::srt::it::{srt_lines_next, srt_trans_step, SrtLinesModel, TransIterState};
use crate::srt::line::{SrtLineModel, SrtLineType};
use crate::time::Time;
use crate::srt::write::srt_run;
use crate::srt::it::{append_vtt_text, join_words};
use crate::ass::from_srt::{joined_text, text_fold};
use crate::ass::lines::{add_text_line, text_break};
use crate::byte_helpers::{is_ws, starts_with_spec, trim_end_spec, trim_spec, trim_start_spec, words_from, words_spec};
use crate::srt::canonical::{join_lines, lemma_read_line, newline_free};
use crate::srt::it::vtt_collect;
use crate::srt::line::parse_time_range;
use crate::srt::write::newline;
use crate::vtt::it::{note_spec, vtt_next, vtt_step, BodyState, CurrentState};
use crate::vtt::line::VttLineType;
use vstd::prelude::*;

verus! {

/// The line break of SubStation Alpha text: `\n` where `small`, else `\N`.
pub open spec fn break_bytes(small: bool) -> Seq<u8> {
    if small {
        seq![0x5Cu8, 0x6Eu8]
    } else {
        seq![0x5Cu8, 0x4Eu8]
    }
}

/// Bytes without a backslash.
pub open spec fn no_backslash(s: Seq<u8>) -> bool {
    forall|i: int| 0 <= i < s.len() ==> s[i] != 0x5Cu8
}

/// The pieces `ls` with a line break between each two, the `i`-th break
/// being `\n` where `small[i]`, else `\N`.
pub open spec fn break_join(ls: Seq<Seq<u8>>, small: Seq<bool>) -> Seq<u8>
    decreases ls.len(),
{
    if ls.len() == 0 {
        seq![]
    } else if ls.len() == 1 {
        ls[0]
    } else {
        ls[0] + break_bytes(small[0]) + break_join(ls.drop_first(), small.drop_first())
    }
}

/// The SubRip lines that pieces of text give: one text line for each, then
/// the blank line that ends the block.
pub open spec fn split_models(ls: Seq<Seq<u8>>) -> Seq<SrtLineModel> {
    ls.map_values(|l: Seq<u8>| (l, SrtLineType::Text)).push((Seq::<u8>::empty(), SrtLineType::Blank))
}

/// A text line ends at the first break after it.
proof fn lemma_seg_end_at(buf: Seq<u8>, i: int, j: int)
    requires
        0 <= i <= j,
        j + 1 < buf.len(),
        forall|k: int| i <= k < j ==> buf[k] != 0x5Cu8,
        buf[j] == 0x5Cu8,
        buf[j + 1] == 0x4Eu8 || buf[j + 1] == 0x6Eu8,
    ensures
        seg_end(buf, i) == j,
    decreases j - i,
{
    if i < j {
        lemma_seg_end_at(buf, i + 1, j);
    }
}

/// A text line with no break after it runs to the end.
proof fn lemma_seg_end_none(buf: Seq<u8>, i: int)
    requires
        0 <= i <= buf.len(),
        forall|k: int| i <= k < buf.len() ==> buf[k] != 0x5Cu8,
    ensures
        seg_end(buf, i) == buf.len(),
    decreases buf.len() - i,
{
    if i + 1 < buf.len() {
        lemma_seg_end_none(buf, i + 1);
    }
}

/// The first `n + 1` lines: the next line, then `n` lines from there.
pub(crate) proof fn lemma_srt_run_cons(m: SrtLinesModel, n: nat)
    requires
        srt_lines_next(m).0 is Some,
    ensures
        srt_run(m, n + 1) == match srt_run(srt_lines_next(m).1, n) {
            Some((ls, m2)) => Some((seq![srt_lines_next(m).0.unwrap()] + ls, m2)),
            None => None,
        },
    decreases n,
{
    let (lo, m1) = srt_lines_next(m);
    let l = lo.unwrap();
    if n == 0 {
        assert(srt_run(m, 0) == Some((Seq::<SrtLineModel>::empty(), m)));
        assert(seq![l] + Seq::<SrtLineModel>::empty() =~= Seq::<SrtLineModel>::empty().push(l));
    } else {
        lemma_srt_run_cons(m, (n - 1) as nat);
        let prev = srt_run(m1, (n - 1) as nat);
        if let Some((ls, m2)) = prev {
            let nx = srt_lines_next(m2);
            if let (Some(x), m3) = nx {
                assert((seq![l] + ls).push(x) =~= seq![l] + ls.push(x));
            }
        }
    }
}

/// Split lines from `pre.len()` on: each piece, then the blank line.
#[verifier::spinoff_prover]
#[verifier::rlimit(40)]
proof fn lemma_split_from(src: SourceModel, pre: Seq<u8>, ls: Seq<Seq<u8>>, small: Seq<bool>)
    requires
        !(src is Srt),
        ls.len() > 0,
        small.len() + 1 >= ls.len(),
        forall|i: int| 0 <= i < ls.len() ==> (#[trigger] ls[i]).len() > 0 && no_backslash(ls[i]),
        (pre + break_join(ls, small)).len() < usize::MAX,
    ensures
        srt_run(
            SrtLinesModel {
                source: src,
                buf: pre + break_join(ls, small),
                trans: TransIterState::Text(pre.len() as usize),
            },
            ls.len() + 1,
        ) == Some(
            (
                split_models(ls),
                SrtLinesModel { source: src, buf: pre + break_join(ls, small), trans: TransIterState::Outside },
            ),
        ),
    decreases ls.len(),
{
    let buf = pre + break_join(ls, small);
    let p = pre.len() as int;
    let m = SrtLinesModel { source: src, buf: buf, trans: TransIterState::Text(p as usize) };
    let l = ls[0];
    assert(l.len() > 0 && no_backslash(l));
    let mb = SrtLinesModel { source: src, buf: buf, trans: TransIterState::Blank };
    let mo = SrtLinesModel { source: src, buf: buf, trans: TransIterState::Outside };
    assert(srt_lines_next(mb) == (Some((Seq::<u8>::empty(), SrtLineType::Blank)), mo));
    lemma_srt_run_cons(mb, 0);
    assert(srt_run(mo, 0) == Some((Seq::<SrtLineModel>::empty(), mo)));
    if ls.len() == 1 {
        assert(break_join(ls, small) == l);
        assert(buf =~= pre + l);
        lemma_seg_end_none(buf, p);
        assert(buf.subrange(p, buf.len() as int) =~= l);
        assert(srt_lines_next(m) == (Some((l, SrtLineType::Text)), mb));
        lemma_srt_run_cons(m, 1);
        assert(split_models(ls) =~= seq![(l, SrtLineType::Text)] + (seq![(Seq::<u8>::empty(), SrtLineType::Blank)] + Seq::<SrtLineModel>::empty()));
    } else {
        let rest = ls.drop_first();
        let sm = small.drop_first();
        let brk = break_bytes(small[0]);
        let pre2 = pre + l + brk;
        assert(buf =~= pre2 + break_join(rest, sm));
        assert(rest[0] == ls[1]);
        assert(break_join(rest, sm).len() > 0) by {
            if rest.len() == 1 {
                assert(break_join(rest, sm) == rest[0]);
            } else {
                assert(break_join(rest, sm) =~= rest[0] + break_bytes(sm[0]) + break_join(rest.drop_first(), sm.drop_first()));
            }
        }
        let e = p + l.len();
        assert(buf[e] == 0x5Cu8);
        assert(buf[e + 1] == 0x4Eu8 || buf[e + 1] == 0x6Eu8);
        assert forall|k: int| p <= k < e implies buf[k] != 0x5Cu8 by {
            assert(buf[k] == l[k - p]);
        }
        lemma_seg_end_at(buf, p, e);
        assert(buf.subrange(p, e) =~= l);
        assert(e + 2 < buf.len());
        assert(pre2.len() == e + 2);
        let m2 = SrtLinesModel { source: src, buf: buf, trans: TransIterState::Text(pre2.len() as usize) };
        assert(srt_lines_next(m) == (Some((l, SrtLineType::Text)), m2));
        assert forall|i: int| 0 <= i < rest.len() implies (#[trigger] rest[i]).len() > 0 && no_backslash(rest[i]) by {
            assert(rest[i] == ls[i + 1]);
        }
        lemma_split_from(src, pre2, rest, sm);
        lemma_srt_run_cons(m, rest.len() + 1);
        assert(split_models(ls) =~= seq![(l, SrtLineType::Text)] + split_models(rest));
    }
}

/// Text split at its breaks gives back its pieces: text made of pieces
/// that are not empty and hold no backslash, with a `\N` or `\n` break
/// between each two, gives, from its first text line on, one SubRip text
/// line per piece, in order, and then the blank line that ends the block.
pub proof fn lemma_split_breaks(src: SourceModel, ls: Seq<Seq<u8>>, small: Seq<bool>)
    requires
        !(src is Srt),
        ls.len() > 0,
        small.len() + 1 >= ls.len(),
        forall|i: int| 0 <= i < ls.len() ==> (#[trigger] ls[i]).len() > 0 && no_backslash(ls[i]),
        break_join(ls, small).len() < usize::MAX,
    ensures
        srt_run(SrtLinesModel { source: src, buf: break_join(ls, small), trans: TransIterState::Text(0) }, ls.len() + 1)
            == Some(
            (
                split_models(ls),
                SrtLinesModel { source: src, buf: break_join(ls, small), trans: TransIterState::Outside },
            ),
        ),
{
    let e = Seq::<u8>::empty();
    assert(e + break_join(ls, small) =~= break_join(ls, small));
    lemma_split_from(src, e, ls, small);
}

/// Breaks that are all `\n`.
pub open spec fn small_breaks(n: nat) -> Seq<bool> {
    Seq::new(n, |i: int| true)
}

/// Text lines gathered into an event after `buf` are the lines with a `\n`
/// break between each two.
proof fn lemma_text_fold(buf: Seq<u8>, has_text: bool, ts: Seq<Seq<u8>>)
    requires
        ts.len() > 0,
    ensures
        text_fold(buf, has_text, ts) == (if has_text {
            buf + text_break()
        } else {
            buf
        }) + break_join(ts, small_breaks((ts.len() - 1) as nat)),
    decreases ts.len(),
{
    let rest = ts.drop_first();
    let b1 = add_text_line(buf, has_text, ts[0]);
    let head = if has_text { buf + text_break() } else { buf };
    assert(b1 =~= head + ts[0]);
    if rest.len() == 0 {
        assert(text_fold(b1, true, rest) == b1);
        assert(break_join(ts, small_breaks(0)) == ts[0]);
    } else {
        lemma_text_fold(b1, true, rest);
        let sb = small_breaks((ts.len() - 1) as nat);
        assert(sb.drop_first() =~= small_breaks((rest.len() - 1) as nat));
        assert(break_bytes(sb[0]) == text_break());
        assert(break_join(ts, sb) == ts[0] + break_bytes(sb[0]) + break_join(rest, sb.drop_first()));
        assert(b1 + text_break() + break_join(rest, small_breaks((rest.len() - 1) as nat)) =~= head + break_join(ts, sb));
    }
}

/// SubRip text lines survive a round trip through SubStation Alpha: the
/// lines of a block, joined with `\n` into the text of an event, are split
/// back into the same lines, in order, followed by the blank line that ends
/// the block (for lines that are not empty and hold no backslash).
pub proof fn lemma_ass_text_round_trip(src: SourceModel, ts: Seq<Seq<u8>>)
    requires
        !(src is Srt),
        ts.len() > 0,
        forall|i: int| 0 <= i < ts.len() ==> (#[trigger] ts[i]).len() > 0 && no_backslash(ts[i]),
        joined_text(ts).len() < usize::MAX,
    ensures
        srt_run(SrtLinesModel { source: src, buf: joined_text(ts), trans: TransIterState::Text(0) }, ts.len() + 1)
            == Some(
            (split_models(ts), SrtLinesModel { source: src, buf: joined_text(ts), trans: TransIterState::Outside }),
        ),
{
    lemma_text_fold(seq![], false, ts);
    let sb = small_breaks((ts.len() - 1) as nat);
    assert(joined_text(ts) =~= break_join(ts, sb));
    lemma_split_breaks(src, ts, sb);
}

/// Breaks that are all `\N`.
pub open spec fn big_breaks(n: nat) -> Seq<bool> {
    Seq::new(n, |i: int| false)
}

/// The text gathered from the text lines `ts` of a WebVTT cue (see
/// [`append_vtt_text`]), one line after another.
pub open spec fn vtt_cue_text(ts: Seq<Seq<u8>>) -> Seq<u8>
    decreases ts.len(),
{
    if ts.len() == 0 {
        seq![]
    } else {
        append_vtt_text(vtt_cue_text(ts.drop_last()), ts.last())
    }
}

/// The words of a cue text line, each followed by a space.
pub open spec fn spaced_words(t: Seq<u8>) -> Seq<u8> {
    join_words(words_spec(t))
}

/// A line that holds a byte other than whitespace.
pub open spec fn has_word(t: Seq<u8>) -> bool {
    exists|k: int| 0 <= k < t.len() && !is_ws(#[trigger] t[k])
}

/// The words of `s[i..]` after `cur` hold no backslash where `s` and `cur`
/// hold none, and there is one where `cur` or `s[i..]` holds a byte other
/// than whitespace.
proof fn lemma_words_from(s: Seq<u8>, i: int, cur: Seq<u8>)
    requires
        0 <= i <= s.len(),
        no_backslash(cur),
        forall|k: int| i <= k < s.len() ==> s[k] != 0x5Cu8,
    ensures
        forall|j: int| 0 <= j < words_from(s, i, cur).len() ==> no_backslash(#[trigger] words_from(s, i, cur)[j]),
        (cur.len() > 0 || exists|k: int| i <= k < s.len() && !is_ws(#[trigger] s[k])) ==> words_from(s, i, cur).len() > 0,
    decreases s.len() - i,
{
    let w = words_from(s, i, cur);
    if i >= s.len() {
        if cur.len() > 0 {
            assert(w == seq![cur]);
        }
    } else if is_ws(s[i]) {
        let e: Seq<u8> = seq![];
        lemma_words_from(s, i + 1, e);
        let first: Seq<Seq<u8>> = if cur.len() > 0 { seq![cur] } else { seq![] };
        let rest = words_from(s, i + 1, e);
        assert(w == first + rest);
        assert forall|j: int| 0 <= j < w.len() implies no_backslash(#[trigger] w[j]) by {
            if j < first.len() {
                assert(w[j] == cur);
            } else {
                assert(w[j] == rest[j - first.len()]);
            }
        }
        if cur.len() == 0 && exists|k: int| i <= k < s.len() && !is_ws(#[trigger] s[k]) {
            let k = choose|k: int| i <= k < s.len() && !is_ws(#[trigger] s[k]);
            assert(k > i);
        }
    } else {
        let c2 = cur.push(s[i]);
        assert(no_backslash(c2)) by {
            assert forall|k: int| 0 <= k < c2.len() implies c2[k] != 0x5Cu8 by {
                if k < cur.len() {
                    assert(c2[k] == cur[k]);
                }
            }
        }
        lemma_words_from(s, i + 1, c2);
    }
}

/// Words joined with spaces hold no backslash where the words hold none,
/// and are not empty where there is a word.
proof fn lemma_join_words(ws: Seq<Seq<u8>>)
    requires
        forall|j: int| 0 <= j < ws.len() ==> no_backslash(#[trigger] ws[j]),
    ensures
        no_backslash(join_words(ws)),
        ws.len() > 0 ==> join_words(ws).len() > 0,
    decreases ws.len(),
{
    if ws.len() > 0 {
        let init = ws.drop_last();
        assert forall|j: int| 0 <= j < init.len() implies no_backslash(#[trigger] init[j]) by {
            assert(init[j] == ws[j]);
        }
        lemma_join_words(init);
        let a = join_words(init);
        let x = ws.last();
        assert(no_backslash(x));
        let r = join_words(ws);
        assert(r == a + x + seq![0x20u8]);
        assert forall|k: int| 0 <= k < r.len() implies r[k] != 0x5Cu8 by {
            if k < a.len() {
                assert(r[k] == a[k]);
            } else if k < a.len() + x.len() {
                assert(r[k] == x[k - a.len()]);
            }
        }
    }
}

/// A cue text line with a word and no backslash gives a piece of text that
/// is not empty and holds no backslash.
proof fn lemma_spaced_words(t: Seq<u8>)
    requires
        no_backslash(t),
        has_word(t),
    ensures
        spaced_words(t).len() > 0,
        no_backslash(spaced_words(t)),
{
    let e: Seq<u8> = seq![];
    lemma_words_from(t, 0, e);
    lemma_join_words(words_spec(t));
}

/// One more piece after a break at the end.
proof fn lemma_break_join_push(ls: Seq<Seq<u8>>, small: Seq<bool>, x: Seq<u8>, b: bool)
    requires
        ls.len() > 0,
        small.len() + 1 == ls.len(),
    ensures
        break_join(ls.push(x), small.push(b)) == break_join(ls, small) + break_bytes(b) + x,
    decreases ls.len(),
{
    let l2 = ls.push(x);
    let s2 = small.push(b);
    if ls.len() == 1 {
        assert(l2.drop_first() =~= seq![x]);
        assert(s2[0] == b);
        assert(break_join(seq![x], s2.drop_first()) == x);
        assert(break_join(ls, small) == ls[0]);
    } else {
        assert(l2.drop_first() =~= ls.drop_first().push(x));
        assert(s2.drop_first() =~= small.drop_first().push(b));
        lemma_break_join_push(ls.drop_first(), small.drop_first(), x, b);
        assert(s2[0] == small[0]);
        assert(l2[0] == ls[0]);
    }
}

/// The pieces of a cue: the spaced words of each of its text lines.
pub open spec fn cue_pieces(ts: Seq<Seq<u8>>) -> Seq<Seq<u8>> {
    ts.map_values(|t: Seq<u8>| spaced_words(t))
}

/// The text gathered from cue lines is their pieces with a `\N` break
/// between each two.
proof fn lemma_vtt_cue_text(ts: Seq<Seq<u8>>)
    requires
        ts.len() > 0,
        forall|i: int| 0 <= i < ts.len() ==> no_backslash(#[trigger] ts[i]) && has_word(ts[i]),
    ensures
        vtt_cue_text(ts) == break_join(cue_pieces(ts), big_breaks((ts.len() - 1) as nat)),
    decreases ts.len(),
{
    let init = ts.drop_last();
    let x = ts.last();
    assert(no_backslash(ts[ts.len() - 1]) && has_word(ts[ts.len() - 1]));
    if init.len() == 0 {
        assert(vtt_cue_text(init) == Seq::<u8>::empty());
        assert(cue_pieces(ts) =~= seq![spaced_words(x)]);
        assert(Seq::<u8>::empty() + spaced_words(x) =~= spaced_words(x));
    } else {
        assert forall|i: int| 0 <= i < init.len() implies no_backslash(#[trigger] init[i]) && has_word(init[i]) by {
            assert(init[i] == ts[i]);
        }
        lemma_vtt_cue_text(init);
        assert(no_backslash(ts[0]) && has_word(ts[0]));
        lemma_spaced_words(ts[0]);
        assert(cue_pieces(init)[0] == spaced_words(ts[0]));
        let bj = break_join(cue_pieces(init), big_breaks((init.len() - 1) as nat));
        assert(bj.len() > 0) by {
            if init.len() == 1 {
                assert(bj == cue_pieces(init)[0]);
            } else {
                assert(bj == cue_pieces(init)[0] + break_bytes(big_breaks((init.len() - 1) as nat)[0]) + break_join(
                    cue_pieces(init).drop_first(),
                    big_breaks((init.len() - 1) as nat).drop_first(),
                ));
            }
        }
        lemma_break_join_push(cue_pieces(init), big_breaks((init.len() - 1) as nat), spaced_words(x), false);
        assert(cue_pieces(init).push(spaced_words(x)) =~= cue_pieces(ts));
        assert(big_breaks((init.len() - 1) as nat).push(false) =~= big_breaks((ts.len() - 1) as nat));
    }
}

/// A WebVTT cue converted to SubRip keeps its lines: the text gathered
/// from `k` cue text lines (each with a word and no backslash) gives, from
/// its first text line on, `k` SubRip text lines, the `i`-th holding the
/// words of the `i`-th cue line (each followed by a space), and then the
/// blank line that ends the block.
pub proof fn lemma_vtt_cue_lines(src: SourceModel, ts: Seq<Seq<u8>>)
    requires
        !(src is Srt),
        ts.len() > 0,
        forall|i: int| 0 <= i < ts.len() ==> no_backslash(#[trigger] ts[i]) && has_word(ts[i]),
        vtt_cue_text(ts).len() < usize::MAX,
    ensures
        srt_run(SrtLinesModel { source: src, buf: vtt_cue_text(ts), trans: TransIterState::Text(0) }, ts.len() + 1)
            == Some(
            (
                split_models(cue_pieces(ts)),
                SrtLinesModel { source: src, buf: vtt_cue_text(ts), trans: TransIterState::Outside },
            ),
        ),
{
    lemma_vtt_cue_text(ts);
    let ps = cue_pieces(ts);
    assert forall|i: int| 0 <= i < ps.len() implies (#[trigger] ps[i]).len() > 0 && no_backslash(ps[i]) by {
        assert(no_backslash(ts[i]) && has_word(ts[i]));
        lemma_spaced_words(ts[i]);
    }
    lemma_split_breaks(src, ps, big_breaks((ts.len() - 1) as nat));
}

/// A text line of a cue as written: not empty, no line end, no whitespace
/// at either end, no backslash, and not a `NOTE`.
pub open spec fn cue_text_line(t: Seq<u8>) -> bool {
    &&& t.len() > 0
    &&& newline_free(t)
    &&& !is_ws(t[0])
    &&& !is_ws(t.last())
    &&& no_backslash(t)
    &&& !starts_with_spec(t, note_spec())
}

/// A cue text line is its own trimmed form and has a word.
proof fn lemma_cue_text_line(t: Seq<u8>)
    requires
        cue_text_line(t),
    ensures
        trim_spec(t) == t,
        has_word(t),
{
    assert(trim_start_spec(t) == t);
    assert(trim_end_spec(t) == t);
    assert(!is_ws(t[0]));
}

/// Gathering reads the text lines of a cue up to the blank line after
/// them, adding each to the text.
#[verifier::spinoff_prover]
#[verifier::rlimit(40)]
proof fn lemma_collect_texts(
    pre: Seq<u8>,
    done: Seq<Seq<u8>>,
    todo: Seq<Seq<u8>>,
    z: Seq<u8>,
    c: CurrentState,
    r: (Time, Time),
)
    requires
        done.len() + todo.len() > 0,
        forall|i: int| 0 <= i < done.len() ==> cue_text_line(#[trigger] done[i]),
        forall|i: int| 0 <= i < todo.len() ==> cue_text_line(#[trigger] todo[i]),
        c is InText || (c is InCue && todo.len() > 0 && todo[0][0] != 0x7Bu8),
        done.len() > 0 ==> c is InText,
    ensures
        vtt_collect(
            pre + join_lines(todo.push(seq![])) + z,
            pre.len() as int,
            BodyState::Cues,
            c,
            Some(r),
            vtt_cue_text(done),
        ) == (
            Some(r),
            vtt_cue_text(done + todo),
            (pre.len() + join_lines(todo.push(seq![])).len()) as int,
            BodyState::Cues,
            CurrentState::Outside,
        ),
    decreases todo.len(),
{
    let data = pre + join_lines(todo.push(seq![])) + z;
    let p = pre.len() as int;
    let e: Seq<u8> = seq![];
    if todo.len() == 0 {
        assert(todo.push(e) =~= seq![e]);
        assert(seq![e].drop_first() =~= Seq::<Seq<u8>>::empty());
        assert(join_lines(seq![e]) =~= e + newline() + join_lines(Seq::<Seq<u8>>::empty()));
        assert(data =~= pre + (e + newline() + z));
        lemma_read_line(pre, e, z);
        assert(trim_spec(e) =~= e);
        assert(vtt_step(BodyState::Cues, c, e) == ((e, VttLineType::Blank), BodyState::Cues, CurrentState::Outside));
        assert(done + todo =~= done);
        let last = done.last();
        assert(cue_text_line(done[done.len() - 1]));
        lemma_cue_text_line(last);
        lemma_spaced_words(last);
        assert(vtt_cue_text(done).len() > 0);
    } else {
        let t = todo[0];
        let rest = todo.drop_first();
        assert(cue_text_line(t));
        lemma_cue_text_line(t);
        assert(todo.push(e) =~= seq![t] + rest.push(e));
        assert((seq![t] + rest.push(e)).drop_first() =~= rest.push(e));
        assert(join_lines(todo.push(e)) =~= t + newline() + join_lines(rest.push(e)));
        assert(data =~= pre + (t + newline() + (join_lines(rest.push(e)) + z)));
        lemma_read_line(pre, t, join_lines(rest.push(e)) + z);
        assert(vtt_step(BodyState::Cues, c, t) == ((t, VttLineType::Text), BodyState::Cues, CurrentState::InText));
        let done2 = done.push(t);
        assert(done2.drop_last() =~= done);
        assert(vtt_cue_text(done2) == append_vtt_text(vtt_cue_text(done), t));
        assert forall|i: int| 0 <= i < done2.len() implies cue_text_line(#[trigger] done2[i]) by {
            if i < done.len() {
                assert(done2[i] == done[i]);
            }
        }
        assert forall|i: int| 0 <= i < rest.len() implies cue_text_line(#[trigger] rest[i]) by {
            assert(rest[i] == todo[i + 1]);
        }
        let pre2 = pre + t + newline();
        assert(pre2 + join_lines(rest.push(e)) + z =~= data);
        lemma_collect_texts(pre2, done2, rest, z, CurrentState::InText, r);
        assert(done2 + rest =~= done + todo);
    }
}

/// A WebVTT cue in written form converts to one SubRip block: reading from
/// between cues, its timings line `tl`, its text lines `ts` (each a
/// [`cue_text_line`], the first not opening with `{`) and the blank line
/// after them give a number line, the time range of the timings, one text
/// line for each cue text line (holding its words, each followed by a
/// space), and the blank line that ends the block.
pub proof fn lemma_vtt_cue_to_srt(a: Seq<u8>, tl: Seq<u8>, ts: Seq<Seq<u8>>, z: Seq<u8>, b0: Seq<u8>)
    requires
        newline_free(tl),
        trim_spec(tl).len() > 0,
        !starts_with_spec(trim_spec(tl), note_spec()),
        parse_time_range(trim_spec(tl)) is Some,
        ts.len() > 0,
        forall|i: int| 0 <= i < ts.len() ==> cue_text_line(#[trigger] ts[i]),
        ts[0][0] != 0x7Bu8,
        vtt_cue_text(ts).len() < usize::MAX,
    ensures
        srt_run(
            SrtLinesModel {
                source: SourceModel::Vtt(
                    a + join_lines(seq![tl] + ts.push(seq![])) + z,
                    a.len() as int,
                    BodyState::Cues,
                    CurrentState::Outside,
                ),
                buf: b0,
                trans: TransIterState::Outside,
            },
            ts.len() + 3,
        ) == Some(
            (
                seq![
                    (Seq::<u8>::empty(), SrtLineType::Number),
                    (Seq::<u8>::empty(), SrtLineType::TimeRange(parse_time_range(trim_spec(tl)).unwrap())),
                ] + split_models(cue_pieces(ts)),
                SrtLinesModel {
                    source: SourceModel::Vtt(
                        a + join_lines(seq![tl] + ts.push(seq![])) + z,
                        (a + join_lines(seq![tl] + ts.push(seq![]))).len() as int,
                        BodyState::Cues,
                        CurrentState::Outside,
                    ),
                    buf: vtt_cue_text(ts),
                    trans: TransIterState::Outside,
                },
            ),
        ),
{
    let e: Seq<u8> = seq![];
    let lines = seq![tl] + ts.push(e);
    let data = a + join_lines(lines) + z;
    let r = parse_time_range(trim_spec(tl)).unwrap();
    assert(lines.drop_first() =~= ts.push(e));
    assert(join_lines(lines) =~= tl + newline() + join_lines(ts.push(e)));
    assert(data =~= a + (tl + newline() + (join_lines(ts.push(e)) + z)));
    lemma_read_line(a, tl, join_lines(ts.push(e)) + z);
    assert(vtt_step(BodyState::Cues, CurrentState::Outside, tl) == (
        (trim_spec(tl), VttLineType::TimeRangeAndStyle(r)),
        BodyState::Cues,
        CurrentState::InCue,
    ));
    let p1 = a.len() + tl.len() + 1;
    let pre = a + tl + newline();
    assert(pre + join_lines(ts.push(e)) + z =~= data);
    let none: Seq<Seq<u8>> = seq![];
    assert(vtt_cue_text(none) == e);
    lemma_collect_texts(pre, none, ts, z, CurrentState::InCue, r);
    assert(none + ts =~= ts);
    let pend = (a + join_lines(lines)).len() as int;
    assert(vtt_collect(data, a.len() as int, BodyState::Cues, CurrentState::Outside, None, e) == (
        Some(r),
        vtt_cue_text(ts),
        pend,
        BodyState::Cues,
        CurrentState::Outside,
    ));
    let t0 = ts[0];
    assert(cue_text_line(ts[0]));
    lemma_cue_text_line(t0);
    assert forall|i: int| 0 <= i < ts.len() implies no_backslash(#[trigger] ts[i]) && has_word(ts[i]) by {
        assert(cue_text_line(ts[i]));
        lemma_cue_text_line(ts[i]);
    }
    lemma_vtt_cue_text(ts);
    let buf = vtt_cue_text(ts);
    assert(buf.len() > 0) by {
        assert(cue_text_line(ts[ts.len() - 1]));
        lemma_cue_text_line(ts.last());
        lemma_spaced_words(ts.last());
    }
    let src2 = SourceModel::Vtt(data, pend, BodyState::Cues, CurrentState::Outside);
    let m0 = SrtLinesModel {
        source: SourceModel::Vtt(data, a.len() as int, BodyState::Cues, CurrentState::Outside),
        buf: b0,
        trans: TransIterState::Outside,
    };
    let m1 = SrtLinesModel { source: src2, buf: buf, trans: TransIterState::TimeRange(r.0, r.1) };
    let m2 = SrtLinesModel { source: src2, buf: buf, trans: TransIterState::Text(0) };
    assert(srt_lines_next(m0) == (Some((e, SrtLineType::Number)), m1));
    assert(srt_lines_next(m1) == (Some((e, SrtLineType::TimeRange((r.0, r.1)))), m2));
    lemma_vtt_cue_lines(src2, ts);
    lemma_srt_run_cons(m1, ts.len() + 1);
    lemma_srt_run_cons(m0, ts.len() + 2);
    let tail = split_models(cue_pieces(ts));
    assert(seq![(e, SrtLineType::Number)] + (seq![(e, SrtLineType::TimeRange(r))] + tail) =~= seq![
        (e, SrtLineType::Number),
        (e, SrtLineType::TimeRange(r)),
    ] + tail);
}

} // verus!
