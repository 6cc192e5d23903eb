//! What converting SubRip subtitles in written form into SubStation Alpha
//! lines gives: the script header, then one event per block, with the
//! block's times and its text lines joined by `\n`.
use crate::ass::it::{TransIterState, TransIterStateEvents, TransIterStateHeader};
use crate::ass::lines::{
    add_text_line, ass_header_step, ass_lines_next, gather_start, gathered_event, srt_gather, zero_time, AssLines,
    AssLinesModel,
};
use crate::ass::line::AssLineModel;
use crate::ass::line::SectionMark;
use crate::ass::line::info::ScriptInfoKind;
use crate::ass::line::event::format::default_positions;
use crate::lits::{format_line, script_type_line, wrap_style_line};
use crate::ass::write::ass_run;
use crate::byte_helpers::trim_spec;
use crate::lines::SourceModel;
use crate::srt::canonical::{
    block_lines, blocks_lines, canonical_block, canonical_srt, canonical_text, join_lines,
    lemma_join_lines_concat, lemma_number_line, lemma_read_line, lemma_time_line, newline_free,
    time_line, CanonicalBlock,
};
use crate::byte_helpers::dec_digits;
use crate::srt::it::{srt_next, srt_step, IterState};
use crate::srt::line::SrtLineType;
use crate::srt::write::newline;
use crate::time::Time;
use vstd::prelude::*;

verus! {

/// SubStation Alpha lines made from SubRip lines at position `p` of `data`
/// in state `st`, in conversion state `t`.
pub open spec fn ass_from_srt_at(data: Seq<u8>, p: int, st: IterState, t: TransIterState) -> AssLinesModel {
    AssLinesModel { source: SourceModel::Srt(data, p, st), trans: t }
}

/// The first `n + 1` lines: the next line, then `n` lines from there.
proof fn lemma_ass_run_cons(m: AssLinesModel, n: nat)
    requires
        ass_lines_next(m).0 is Some,
    ensures
        ass_run(m, n + 1) == match ass_run(ass_lines_next(m).1, n) {
            Some((ls, m2)) => Some((seq![ass_lines_next(m).0.unwrap()] + ls, m2)),
            None => None,
        },
    decreases n,
{
    let (lo, m1) = ass_lines_next(m);
    let l = lo.unwrap();
    if n == 0 {
        assert(ass_run(m, 0) == Some((Seq::<AssLineModel>::empty(), m)));
        assert(seq![l] + Seq::<AssLineModel>::empty() =~= Seq::<AssLineModel>::empty().push(l));
    } else {
        lemma_ass_run_cons(m, (n - 1) as nat);
        let prev = ass_run(m1, (n - 1) as nat);
        if let Some((ls, m2)) = prev {
            let nx = ass_lines_next(m2);
            if let (Some(x), m3) = nx {
                assert((seq![l] + ls).push(x) =~= seq![l] + ls.push(x));
            }
        }
    }
}

/// The text gathered from text lines `ts` after `buf` (where `has_text`
/// tells whether some text was gathered already).
pub open spec fn text_fold(buf: Seq<u8>, has_text: bool, ts: Seq<Seq<u8>>) -> Seq<u8>
    decreases ts.len(),
{
    if ts.len() == 0 {
        buf
    } else {
        text_fold(add_text_line(buf, has_text, ts[0]), true, ts.drop_first())
    }
}

/// The text of an event made from the text lines `ts`: the lines joined by
/// `\n`.
pub open spec fn joined_text(ts: Seq<Seq<u8>>) -> Seq<u8> {
    text_fold(seq![], false, ts)
}

/// Gathering reads the text lines of a block one after another.
#[verifier::spinoff_prover]
proof fn lemma_gather_texts(
    a: Seq<u8>,
    ts: Seq<Seq<u8>>,
    z: Seq<u8>,
    r: (Time, Time),
    has_text: bool,
    buf: Seq<u8>,
)
    requires
        forall|i: int| 0 <= i < ts.len() ==> canonical_text(#[trigger] ts[i]),
    ensures
        srt_gather(a + join_lines(ts) + z, a.len() as int, IterState::InBlock, r, true, has_text, buf)
            == srt_gather(
            a + join_lines(ts) + z,
            (a.len() + join_lines(ts).len()) as int,
            IterState::InBlock,
            r,
            true,
            has_text || ts.len() > 0,
            text_fold(buf, has_text, ts),
        ),
    decreases ts.len(),
{
    let data = a + join_lines(ts) + z;
    if ts.len() > 0 {
        let t = ts[0];
        let rest = ts.drop_first();
        assert forall|i: int| 0 <= i < rest.len() implies canonical_text(#[trigger] rest[i]) by {
            assert(rest[i] == ts[i + 1]);
        }
        assert(canonical_text(t));
        assert(data =~= a + (t + newline() + (join_lines(rest) + z)));
        lemma_read_line(a, t, join_lines(rest) + z);
        assert(trim_spec(t).len() > 0);
        assert(srt_step(IterState::InBlock, t) == ((t, SrtLineType::Text), IterState::InBlock));
        assert(srt_next(data, a.len() as int, IterState::InBlock) == Some(
            ((t, SrtLineType::Text), (a.len() + t.len() + 1) as int, IterState::InBlock),
        ));
        let a2 = a + t + newline();
        assert(a2 + join_lines(rest) + z =~= data);
        lemma_gather_texts(a2, rest, z, r, true, add_text_line(buf, has_text, t));
    } else {
        assert(join_lines(ts).len() == 0);
    }
}

/// The number, time range and text lines of block `k`, without the blank
/// line before it.
pub open spec fn block_core(k: nat, b: CanonicalBlock) -> Seq<Seq<u8>> {
    seq![dec_digits(k), time_line(b.start, b.end)] + b.texts
}

/// Reading the number line of a block leaves the gathering as it was.
proof fn lemma_gather_number(a: Seq<u8>, k: nat, rest: Seq<u8>, st: IterState)
    requires
        st is Init || st is Outside,
    ensures
        srt_gather(
            a + (dec_digits(k) + newline() + rest),
            a.len() as int,
            st,
            (zero_time(), zero_time()),
            false,
            false,
            seq![],
        ) == srt_gather(
            a + (dec_digits(k) + newline() + rest),
            (a.len() + dec_digits(k).len() + 1) as int,
            IterState::Outside,
            (zero_time(), zero_time()),
            false,
            false,
            seq![],
        ),
{
    let dk = dec_digits(k);
    let data = a + (dk + newline() + rest);
    lemma_number_line(k);
    lemma_read_line(a, dk, rest);
    assert(srt_step(st, dk) == ((dk, SrtLineType::Number), IterState::Outside));
    assert(srt_next(data, a.len() as int, st) == Some(
        ((dk, SrtLineType::Number), (a.len() + dk.len() + 1) as int, IterState::Outside),
    ));
}

/// Reading the time range line of a block sets the times of the event.
proof fn lemma_gather_time_line(a: Seq<u8>, b: CanonicalBlock, rest: Seq<u8>)
    requires
        canonical_block(b),
    ensures
        srt_gather(
            a + (time_line(b.start, b.end) + newline() + rest),
            a.len() as int,
            IterState::Outside,
            (zero_time(), zero_time()),
            false,
            false,
            seq![],
        ) == srt_gather(
            a + (time_line(b.start, b.end) + newline() + rest),
            (a.len() + time_line(b.start, b.end).len() + 1) as int,
            IterState::InBlock,
            (b.start, b.end),
            true,
            false,
            seq![],
        ),
{
    let tl = time_line(b.start, b.end);
    let data = a + (tl + newline() + rest);
    lemma_time_line(b.start, b.end);
    lemma_read_line(a, tl, rest);
    assert(srt_step(IterState::Outside, tl) == (
        (tl, SrtLineType::TimeRange((b.start, b.end))),
        IterState::InBlock,
    ));
    assert(srt_next(data, a.len() as int, IterState::Outside) == Some(
        (
            (tl, SrtLineType::TimeRange((b.start, b.end))),
            (a.len() + tl.len() + 1) as int,
            IterState::InBlock,
        ),
    ));
}

/// Gathering reads a whole block: its number, its time range and its text
/// lines.
proof fn lemma_gather_block(a: Seq<u8>, k: nat, b: CanonicalBlock, z: Seq<u8>, st: IterState)
    requires
        canonical_block(b),
        st is Init || st is Outside,
    ensures
        srt_gather(
            a + join_lines(block_core(k, b)) + z,
            a.len() as int,
            st,
            (zero_time(), zero_time()),
            false,
            false,
            seq![],
        ) == srt_gather(
            a + join_lines(block_core(k, b)) + z,
            (a.len() + join_lines(block_core(k, b)).len()) as int,
            IterState::InBlock,
            (b.start, b.end),
            true,
            true,
            joined_text(b.texts),
        ),
{
    let dk = dec_digits(k);
    let tl = time_line(b.start, b.end);
    let core = block_core(k, b);
    let data = a + join_lines(core) + z;
    let two: Seq<Seq<u8>> = seq![dk, tl];
    assert(core =~= two + b.texts);
    lemma_join_lines_concat(two, b.texts);
    assert(join_lines(two) =~= dk + newline() + (tl + newline())) by {
        assert(two.drop_first() =~= seq![tl]);
        assert(seq![tl].drop_first() =~= Seq::<Seq<u8>>::empty());
        assert(join_lines(seq![tl]) =~= tl + newline() + join_lines(Seq::<Seq<u8>>::empty()));
    }
    let texts_z = join_lines(b.texts) + z;
    assert(data =~= a + (dk + newline() + (tl + newline() + texts_z)));
    lemma_gather_number(a, k, tl + newline() + texts_z, st);
    let a1 = a + dk + newline();
    assert(data =~= a1 + (tl + newline() + texts_z));
    lemma_gather_time_line(a1, b, texts_z);
    let a2 = a1 + tl + newline();
    assert(a2 + join_lines(b.texts) + z =~= data);
    lemma_gather_texts(a2, b.texts, z, (b.start, b.end), false, seq![]);
}

/// The conversion state while events are made: after the format line.
pub open spec fn events_state() -> TransIterState {
    TransIterState::Events(TransIterStateEvents::AfterFormat)
}

/// The event made from block `b`.
pub open spec fn block_event(b: CanonicalBlock) -> AssLineModel {
    AssLineModel::Event(gathered_event(b.start, b.end, joined_text(b.texts)))
}

/// A block in written form gives one event; the lines after it go on at
/// the blank line that follows it, or end with it.
proof fn lemma_block_event(a: Seq<u8>, k: nat, b: CanonicalBlock, z: Seq<u8>, st: IterState)
    requires
        canonical_block(b),
        st is Init || st is Outside,
        z.len() == 0 || z[0] == 0x0Au8,
    ensures
        ass_lines_next(ass_from_srt_at(a + join_lines(block_core(k, b)) + z, a.len() as int, st, events_state()))
            == (
            Some(block_event(b)),
            if z.len() == 0 {
                ass_from_srt_at(
                    a + join_lines(block_core(k, b)) + z,
                    (a.len() + join_lines(block_core(k, b)).len()) as int,
                    IterState::InBlock,
                    events_state(),
                )
            } else {
                ass_from_srt_at(
                    a + join_lines(block_core(k, b)) + z,
                    (a.len() + join_lines(block_core(k, b)).len() + 1) as int,
                    IterState::Outside,
                    events_state(),
                )
            },
        ),
{
    let core = join_lines(block_core(k, b));
    let data = a + core + z;
    let p = (a.len() + core.len()) as int;
    lemma_gather_block(a, k, b, z, st);
    assert(ass_header_step(events_state()) is None);
    assert(gather_start(events_state()) == ((zero_time(), zero_time()), false));
    let r = (b.start, b.end);
    if z.len() == 0 {
        assert(srt_next(data, p, IterState::InBlock) is None);
        assert(srt_gather(data, p, IterState::InBlock, r, true, true, joined_text(b.texts)) == (
            (Some((b.start, b.end, joined_text(b.texts))), None::<(Time, Time)>),
            p,
            IterState::InBlock,
        ));
    } else {
        let a1 = a + core;
        let e: Seq<u8> = seq![];
        assert(z =~= e + newline() + z.drop_first());
        assert(data =~= a1 + (e + newline() + z.drop_first()));
        lemma_read_line(a1, e, z.drop_first());
        assert(trim_spec(e) =~= e);
        assert(srt_step(IterState::InBlock, e) == ((e, SrtLineType::Blank), IterState::Outside));
        assert(srt_next(data, p, IterState::InBlock) == Some(((e, SrtLineType::Blank), p + 1, IterState::Outside)));
        assert(srt_gather(data, p, IterState::InBlock, r, true, true, joined_text(b.texts)) == (
            (Some((b.start, b.end, joined_text(b.texts))), None::<(Time, Time)>),
            p + 1,
            IterState::Outside,
        ));
    }
}

/// The events made from blocks `bs`, one for each.
pub open spec fn block_events(bs: Seq<CanonicalBlock>) -> Seq<AssLineModel> {
    bs.map_values(|b: CanonicalBlock| block_event(b))
}

/// The lines of the blocks `bs` numbered from `k`, without a blank line
/// before the first.
pub open spec fn blocks_from(bs: Seq<CanonicalBlock>, k: nat) -> Seq<Seq<u8>> {
    block_core(k, bs[0]) + blocks_lines(bs.drop_first(), k + 1)
}

/// Blocks in written form give one event each, and leave the lines at the
/// end of the data.
#[verifier::spinoff_prover]
#[verifier::rlimit(60)]
proof fn lemma_blocks_events(a: Seq<u8>, bs: Seq<CanonicalBlock>, k: nat, st: IterState)
    requires
        bs.len() > 0,
        k >= 1,
        forall|i: int| 0 <= i < bs.len() ==> canonical_block(#[trigger] bs[i]),
        st is Init || st is Outside,
    ensures
        ass_run(ass_from_srt_at(a + join_lines(blocks_from(bs, k)), a.len() as int, st, events_state()), bs.len())
            == Some(
            (
                block_events(bs),
                ass_from_srt_at(
                    a + join_lines(blocks_from(bs, k)),
                    (a + join_lines(blocks_from(bs, k))).len() as int,
                    IterState::InBlock,
                    events_state(),
                ),
            ),
        ),
    decreases bs.len(),
{
    let b = bs[0];
    let rest = bs.drop_first();
    assert(canonical_block(b));
    let core = join_lines(block_core(k, b));
    lemma_blocks_split(bs, k);
    let z = if rest.len() == 0 {
        Seq::<u8>::empty()
    } else {
        newline() + join_lines(blocks_from(rest, k + 1))
    };
    let data = a + join_lines(blocks_from(bs, k));
    assert(data =~= a + core + z);
    let m0 = ass_from_srt_at(data, a.len() as int, st, events_state());
    lemma_block_event(a, k, b, z, st);
    if rest.len() == 0 {
        lemma_ass_run_cons(m0, 0);
        assert(block_events(bs) =~= seq![block_event(b)]);
        assert(seq![block_event(b)] + Seq::<AssLineModel>::empty() =~= seq![block_event(b)]);
    } else {
        assert forall|i: int| 0 <= i < rest.len() implies canonical_block(#[trigger] rest[i]) by {
            assert(rest[i] == bs[i + 1]);
        }
        let a1 = a + core + newline();
        assert(data =~= a1 + join_lines(blocks_from(rest, k + 1)));
        lemma_blocks_events(a1, rest, k + 1, IterState::Outside);
        lemma_ass_run_cons(m0, rest.len());
        assert(block_events(bs) =~= seq![block_event(b)] + block_events(rest));
    }
}

/// The written form of blocks from `k` on: the first block, then the blank
/// line and the others, if there are others.
proof fn lemma_blocks_split(bs: Seq<CanonicalBlock>, k: nat)
    requires
        bs.len() > 0,
        k >= 1,
    ensures
        join_lines(blocks_from(bs, k)) == join_lines(block_core(k, bs[0])) + if bs.len() == 1 {
            Seq::<u8>::empty()
        } else {
            newline() + join_lines(blocks_from(bs.drop_first(), k + 1))
        },
{
    let rest = bs.drop_first();
    let zl = blocks_lines(rest, k + 1);
    lemma_join_lines_concat(block_core(k, bs[0]), zl);
    if rest.len() == 0 {
        assert(zl =~= Seq::<Seq<u8>>::empty());
        assert(join_lines(zl) =~= Seq::<u8>::empty());
    } else {
        let e: Seq<u8> = seq![];
        let next = blocks_from(rest, k + 1);
        assert(block_lines(k + 1, rest[0]) =~= seq![e] + block_core(k + 1, rest[0]));
        assert(zl =~= seq![e] + next);
        assert((seq![e] + next).drop_first() =~= next);
        assert(join_lines(zl) =~= e + newline() + join_lines(next));
        assert(e + newline() + join_lines(next) =~= newline() + join_lines(next));
    }
}

/// The first `n1 + n2` lines: `n1` lines, then `n2` lines from there.
proof fn lemma_ass_run_append(m: AssLinesModel, n1: nat, n2: nat)
    ensures
        ass_run(m, n1 + n2) == match ass_run(m, n1) {
            Some((ls, m1)) => match ass_run(m1, n2) {
                Some((ls2, m2)) => Some((ls + ls2, m2)),
                None => None,
            },
            None => None,
        },
    decreases n2,
{
    if n2 == 0 {
        if let Some((ls, m1)) = ass_run(m, n1) {
            assert(ls + Seq::<AssLineModel>::empty() =~= ls);
        }
    } else {
        lemma_ass_run_append(m, n1, (n2 - 1) as nat);
        assert((n1 + n2 - 1) as nat == n1 + (n2 - 1) as nat);
        if let Some((ls, m1)) = ass_run(m, n1) {
            if let Some((ls2, m2)) = ass_run(m1, (n2 - 1) as nat) {
                if let (Some(x), m3) = ass_lines_next(m2) {
                    assert((ls + ls2).push(x) =~= ls + ls2.push(x));
                }
            }
        }
    }
}

/// The header lines of a converted script: `[Script Info]`, the script
/// type, the wrap style, a blank line, `[Events]` and the format line.
pub open spec fn ass_header_models() -> Seq<AssLineModel> {
    seq![
        AssLineModel::SectionMark(SectionMark::ScriptInfo),
        AssLineModel::ScriptInfo((ScriptInfoKind::ScriptType, script_type_line())),
        AssLineModel::ScriptInfo((ScriptInfoKind::WrapStyle, wrap_style_line())),
        AssLineModel::Blank,
        AssLineModel::SectionMark(SectionMark::Events),
        AssLineModel::EventFormat((format_line(), default_positions())),
    ]
}

/// From any source that converts, the header lines come first.
proof fn lemma_header_run(d: Seq<u8>, p: int, st: IterState)
    ensures
        ass_run(AssLines::fresh(SourceModel::Srt(d, p, st)), 6) == Some(
            (ass_header_models(), ass_from_srt_at(d, p, st, events_state())),
        ),
{
    let h = ass_header_models();
    let m0 = AssLines::fresh(SourceModel::Srt(d, p, st));
    let m1 = ass_from_srt_at(d, p, st, TransIterState::Header(TransIterStateHeader::ScriptType));
    let m2 = ass_from_srt_at(d, p, st, TransIterState::Header(TransIterStateHeader::WrapStyle));
    let m3 = ass_from_srt_at(d, p, st, TransIterState::Blank);
    let m4 = ass_from_srt_at(d, p, st, TransIterState::Events(TransIterStateEvents::Mark));
    let m5 = ass_from_srt_at(d, p, st, TransIterState::Events(TransIterStateEvents::Format));
    assert(ass_run(m0, 0) == Some((Seq::<AssLineModel>::empty(), m0)));
    assert(ass_run(m0, 1) == Some((h.take(1), m1))) by {
        assert(Seq::<AssLineModel>::empty().push(h[0]) =~= h.take(1));
    }
    assert(ass_run(m0, 2) == Some((h.take(2), m2))) by {
        assert(h.take(1).push(h[1]) =~= h.take(2));
    }
    assert(ass_run(m0, 3) == Some((h.take(3), m3))) by {
        assert(h.take(2).push(h[2]) =~= h.take(3));
    }
    assert(ass_run(m0, 4) == Some((h.take(4), m4))) by {
        assert(h.take(3).push(h[3]) =~= h.take(4));
    }
    assert(ass_run(m0, 5) == Some((h.take(5), m5))) by {
        assert(h.take(4).push(h[4]) =~= h.take(5));
    }
    assert(h.take(5).push(h[5]) =~= h);
}

/// SubRip subtitles in written form convert to the SubStation Alpha header
/// lines followed by one event for each block, in order: with the block's
/// start and end and its text lines joined by `\n`, and the other fields
/// of the default event; then the lines end.
#[verifier::spinoff_prover]
#[verifier::rlimit(60)]
pub proof fn lemma_ass_from_srt(bs: Seq<CanonicalBlock>)
    requires
        forall|i: int| 0 <= i < bs.len() ==> canonical_block(#[trigger] bs[i]),
    ensures
        ({
            let r = ass_run(AssLines::fresh(SourceModel::Srt(canonical_srt(bs), 0, IterState::Init)), 6 + bs.len());
            &&& r is Some
            &&& r.unwrap().0 == ass_header_models() + block_events(bs)
            &&& ass_lines_next(r.unwrap().1).0 is None
        }),
{
    let data = canonical_srt(bs);
    let m = AssLines::fresh(SourceModel::Srt(data, 0, IterState::Init));
    lemma_header_run(data, 0, IterState::Init);
    lemma_ass_run_append(m, 6, bs.len());
    let m6 = ass_from_srt_at(data, 0, IterState::Init, events_state());
    assert(ass_header_step(events_state()) is None);
    assert(gather_start(events_state()) == ((zero_time(), zero_time()), false));
    if bs.len() == 0 {
        assert(blocks_lines(bs, 1) =~= Seq::<Seq<u8>>::empty());
        assert(data.len() == 0);
        assert(ass_run(m6, 0) == Some((Seq::<AssLineModel>::empty(), m6)));
        assert(block_events(bs) =~= Seq::<AssLineModel>::empty());
        assert(ass_header_models() + Seq::<AssLineModel>::empty() =~= ass_header_models());
        assert(srt_next(data, 0, IterState::Init) is None);
    } else {
        let e: Seq<u8> = seq![];
        assert(blocks_lines(bs, 1) =~= blocks_from(bs, 1));
        assert(data =~= e + join_lines(blocks_from(bs, 1)));
        lemma_blocks_events(e, bs, 1, IterState::Init);
        let mf = ass_from_srt_at(data, data.len() as int, IterState::InBlock, events_state());
        assert(srt_next(data, data.len() as int, IterState::InBlock) is None);
        assert(ass_lines_next(mf).0 is None);
    }
}

} // verus!
