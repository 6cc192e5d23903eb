//! WebVTT files in the form the writer gives them, and the proof that
//! reading such a file and writing it back gives the same bytes.
use crate::byte_helpers::{bom_spec, is_ws, starts_with_spec, trim_bom_spec, trim_end_spec, trim_spec, trim_start_spec};
use crate::lines::SourceModel;
use crate::lits::{webvtt, webvtt_header};
use crate::options::{WriteFault, WriteOptions};
use crate::srt::canonical::{join_lines, lemma_join_lines_concat, lemma_read_line, newline_free};
use crate::srt::write::newline;
use crate::vtt::it::{note_spec, vtt_classify, vtt_lines_next, vtt_next, vtt_step, webvtt_spec, BodyState, CurrentState, VttLines, VttLinesModel, TransIterState};
use crate::vtt::line::{VttLineModel, VttLineType};
use crate::vtt::write::{vtt_run, vtt_write_lines, vtt_write_step, VttWriteModel};
use vstd::prelude::*;

verus! {

/// WebVTT lines reading from position `p` of `data` in the given states.
pub open spec fn vtt_reader_at(data: Seq<u8>, p: int, b: BodyState, c: CurrentState) -> VttLinesModel {
    VttLinesModel { source: SourceModel::Vtt(data, p, b, c), buf: seq![], trans: TransIterState::Init }
}

/// The first `n + 1` lines of a reader: its next line, then `n` lines from
/// there.
proof fn lemma_vtt_run_cons(data: Seq<u8>, p: int, b: BodyState, c: CurrentState, n: nat)
    requires
        vtt_next(data, p, b, c) is Some,
    ensures
        ({
            let (l, p1, b1, c1) = vtt_next(data, p, b, c).unwrap();
            vtt_run(vtt_reader_at(data, p, b, c), n + 1) == match vtt_run(vtt_reader_at(data, p1, b1, c1), n) {
                Some((ls, m2)) => Some((seq![l] + ls, m2)),
                None => None,
            }
        }),
    decreases n,
{
    let m = vtt_reader_at(data, p, b, c);
    let (l, p1, b1, c1) = vtt_next(data, p, b, c).unwrap();
    let m1 = vtt_reader_at(data, p1, b1, c1);
    assert(vtt_lines_next(m) == (Some(l), m1));
    if n == 0 {
        assert(vtt_run(m, 0) == Some((Seq::<VttLineModel>::empty(), m)));
        assert(seq![l] + Seq::<VttLineModel>::empty() =~= Seq::<VttLineModel>::empty().push(l));
    } else {
        lemma_vtt_run_cons(data, p, b, c, (n - 1) as nat);
        let prev = vtt_run(m1, (n - 1) as nat);
        if let Some((ls, m2)) = prev {
            let nx = vtt_lines_next(m2);
            if let (Some(x), m3) = nx {
                assert((seq![l] + ls).push(x) =~= seq![l] + ls.push(x));
            }
        }
    }
}

/// The lines that reading `ls` in the given states gives, and the states
/// after them.
pub open spec fn vtt_read_models(ls: Seq<Seq<u8>>, b: BodyState, c: CurrentState) -> (
    Seq<VttLineModel>,
    BodyState,
    CurrentState,
)
    decreases ls.len(),
{
    if ls.len() == 0 {
        (seq![], b, c)
    } else {
        let (m, b2, c2) = vtt_step(b, c, ls[0]);
        let (rest, b3, c3) = vtt_read_models(ls.drop_first(), b2, c2);
        (seq![m] + rest, b3, c3)
    }
}

/// Reading joined lines without line ends gives them, each as [`vtt_step`]
/// reads it.
#[verifier::spinoff_prover]
#[verifier::rlimit(40)]
proof fn lemma_vtt_read_lines(a: Seq<u8>, ls: Seq<Seq<u8>>, r: Seq<u8>, b: BodyState, c: CurrentState)
    requires
        forall|i: int| 0 <= i < ls.len() ==> newline_free(#[trigger] ls[i]),
    ensures
        ({
            let (ms, b2, c2) = vtt_read_models(ls, b, c);
            vtt_run(vtt_reader_at(a + join_lines(ls) + r, a.len() as int, b, c), ls.len()) == Some(
                (ms, vtt_reader_at(a + join_lines(ls) + r, (a.len() + join_lines(ls).len()) as int, b2, c2)),
            )
        }),
    decreases ls.len(),
{
    let data = a + join_lines(ls) + r;
    if ls.len() == 0 {
        assert(join_lines(ls).len() == 0);
    } else {
        let l = ls[0];
        let rest = ls.drop_first();
        assert(forall|i: int| 0 <= i < rest.len() ==> newline_free(#[trigger] rest[i])) by {
            assert forall|i: int| 0 <= i < rest.len() implies newline_free(#[trigger] rest[i]) by {
                assert(rest[i] == ls[i + 1]);
            }
        }
        assert(data =~= a + (l + newline() + (join_lines(rest) + r)));
        assert(newline_free(ls[0]));
        lemma_read_line(a, l, join_lines(rest) + r);
        let (lm, b2, c2) = vtt_step(b, c, l);
        assert(vtt_next(data, a.len() as int, b, c) == Some((lm, (a.len() + l.len() + 1) as int, b2, c2)));
        lemma_vtt_run_cons(data, a.len() as int, b, c, rest.len());
        let a2 = a + l + newline();
        assert(a2 + join_lines(rest) + r =~= data);
        lemma_vtt_read_lines(a2, rest, r, b2, c2);
    }
}

/// After the file mark, a line is read as itself (without surrounding
/// whitespace), and is blank exactly when nothing is left of it.
proof fn lemma_vtt_classify_shape(body: BodyState, cur: CurrentState, b: Seq<u8>)
    requires
        !(body is Init),
    ensures
        ({
            let (m, b2, c2) = vtt_classify(body, cur, b);
            &&& m.0 == b
            &&& (m.1 is Blank <==> b.len() == 0)
            &&& !(m.1 is VttFileMark)
            &&& !(b2 is Init)
        }),
{
}

/// Lines of a file body in written form: each without line ends or
/// surrounding whitespace; the first one not blank; never two blank lines in
/// a row.
pub open spec fn canonical_vtt_body(body: Seq<Seq<u8>>) -> bool {
    &&& forall|i: int| 0 <= i < body.len() ==> newline_free(#[trigger] body[i])
    &&& forall|i: int| 0 <= i < body.len() ==> trim_spec(#[trigger] body[i]) == body[i]
    &&& body.len() > 0 ==> body[0].len() > 0
    &&& forall|i: int| 0 <= i < body.len() - 1 ==> (#[trigger] body[i]).len() > 0 || body[i + 1].len() > 0
}

/// The WebVTT file of a body: the file mark, a blank line, then the body.
pub open spec fn canonical_vtt(body: Seq<Seq<u8>>) -> Seq<u8> {
    join_lines(seq![webvtt(), Seq::<u8>::empty()] + body)
}

/// The lines of a body are read each as itself, blank exactly when empty,
/// and never as a file mark.
proof fn lemma_vtt_read_body(body: Seq<Seq<u8>>, b: BodyState, c: CurrentState)
    requires
        !(b is Init),
        forall|i: int| 0 <= i < body.len() ==> trim_spec(#[trigger] body[i]) == body[i],
    ensures
        ({
            let ms = vtt_read_models(body, b, c).0;
            &&& ms.len() == body.len()
            &&& forall|i: int| 0 <= i < ms.len() ==> (#[trigger] ms[i]).0 == body[i]
            &&& forall|i: int| 0 <= i < ms.len() ==> ((#[trigger] ms[i]).1 is Blank <==> body[i].len() == 0)
            &&& forall|i: int| 0 <= i < ms.len() ==> !((#[trigger] ms[i]).1 is VttFileMark)
        }),
    decreases body.len(),
{
    if body.len() > 0 {
        let rest = body.drop_first();
        assert forall|i: int| 0 <= i < rest.len() implies trim_spec(#[trigger] rest[i]) == rest[i] by {
            assert(rest[i] == body[i + 1]);
        }
        assert(trim_spec(body[0]) == body[0]);
        lemma_vtt_classify_shape(b, c, body[0]);
        let (m, b2, c2) = vtt_step(b, c, body[0]);
        lemma_vtt_read_body(rest, b2, c2);
        let ms = vtt_read_models(body, b, c).0;
        let mr = vtt_read_models(rest, b2, c2).0;
        assert(ms == seq![m] + mr);
        assert forall|i: int| 0 <= i < ms.len() implies (#[trigger] ms[i]).0 == body[i] && (ms[i].1 is Blank
            <==> body[i].len() == 0) && !(ms[i].1 is VttFileMark) by {
            if i > 0 {
                assert(ms[i] == mr[i - 1]);
                assert(body[i] == rest[i - 1]);
            }
        }
    }
}

/// The output of writing the lines `ls` from state `ws`, and the state
/// after them; the first fault stops it.
pub open spec fn vtt_write_from(ws: VttWriteModel, ls: Seq<VttLineModel>, opts: WriteOptions, regular: bool) -> Result<
    (Seq<u8>, VttWriteModel),
    WriteFault,
>
    decreases ls.len(),
{
    if ls.len() == 0 {
        Ok((seq![], ws))
    } else {
        match vtt_write_step(ws, ls[0], opts, regular) {
            Err(f) => Err(f),
            Ok((o, w2)) => match vtt_write_from(w2, ls.drop_first(), opts, regular) {
                Err(f) => Err(f),
                Ok((o2, w3)) => Ok((o + o2, w3)),
            },
        }
    }
}

/// Writing one more line after `ls`.
proof fn lemma_vtt_write_from_push(ws: VttWriteModel, ls: Seq<VttLineModel>, x: VttLineModel, opts: WriteOptions, regular: bool)
    ensures
        vtt_write_from(ws, ls.push(x), opts, regular) == match vtt_write_from(ws, ls, opts, regular) {
            Err(f) => Err(f),
            Ok((o, w)) => match vtt_write_step(w, x, opts, regular) {
                Err(f) => Err(f),
                Ok((o2, w2)) => Ok((o + o2, w2)),
            },
        },
    decreases ls.len(),
{
    if ls.len() == 0 {
        assert(ls.push(x).drop_first() =~= Seq::<VttLineModel>::empty());
        assert(ls.push(x)[0] == x);
        if let Ok((o2, w2)) = vtt_write_step(ws, x, opts, regular) {
            assert(vtt_write_from(w2, Seq::<VttLineModel>::empty(), opts, regular) == Ok::<(Seq<u8>, VttWriteModel), WriteFault>((Seq::<u8>::empty(), w2)));
            assert(o2 + Seq::<u8>::empty() =~= o2);
            assert(Seq::<u8>::empty() + o2 =~= o2);
        }
    } else {
        assert(ls.push(x).drop_first() =~= ls.drop_first().push(x));
        assert(ls.push(x)[0] == ls[0]);
        if let Ok((o, w2)) = vtt_write_step(ws, ls[0], opts, regular) {
            lemma_vtt_write_from_push(w2, ls.drop_first(), x, opts, regular);
            if let Ok((o3, w3)) = vtt_write_from(w2, ls.drop_first(), opts, regular) {
                if let Ok((o4, w4)) = vtt_write_step(w3, x, opts, regular) {
                    assert(o + (o3 + o4) =~= (o + o3) + o4);
                }
            }
        }
    }
}

/// Writing lines from the start is writing them from the state after the
/// header.
proof fn lemma_vtt_write_lines_as_from(ls: Seq<VttLineModel>, opts: WriteOptions, regular: bool)
    ensures
        vtt_write_lines(ls, opts, regular) == match vtt_write_from(VttWriteModel::initial(), ls, opts, regular) {
            Err(f) => Err(f),
            Ok((o, w)) => Ok((opts.prefix() + webvtt_header() + o, w)),
        },
    decreases ls.len(),
{
    if ls.len() == 0 {
        assert(opts.prefix() + webvtt_header() + Seq::<u8>::empty() =~= opts.prefix() + webvtt_header());
    } else {
        let init = ls.drop_last();
        lemma_vtt_write_lines_as_from(init, opts, regular);
        assert(init.push(ls.last()) =~= ls);
        lemma_vtt_write_from_push(VttWriteModel::initial(), init, ls.last(), opts, regular);
        if let Ok((o, w)) = vtt_write_from(VttWriteModel::initial(), init, opts, regular) {
            if let Ok((o2, w2)) = vtt_write_step(w, ls.last(), opts, regular) {
                assert(opts.prefix() + webvtt_header() + o + o2 =~= opts.prefix() + webvtt_header() + (o + o2));
            }
        }
    }
}

/// The body of a file in written form is written as it was: each line with a
/// line feed, no blank line being dropped.
proof fn lemma_vtt_write_body(ws: VttWriteModel, body: Seq<Seq<u8>>, ms: Seq<VttLineModel>)
    requires
        ms.len() == body.len(),
        forall|i: int| 0 <= i < ms.len() ==> (#[trigger] ms[i]).0 == body[i],
        forall|i: int| 0 <= i < ms.len() ==> ((#[trigger] ms[i]).1 is Blank <==> body[i].len() == 0),
        forall|i: int| 0 <= i < ms.len() ==> !((#[trigger] ms[i]).1 is VttFileMark),
        forall|i: int| 0 <= i < body.len() - 1 ==> (#[trigger] body[i]).len() > 0 || body[i + 1].len() > 0,
        ws.written_blank ==> (body.len() > 0 ==> body[0].len() > 0),
    ensures
        vtt_write_from(ws, ms, WriteOptions::plain(), true) matches Ok((o, _)) && o == join_lines(body),
    decreases body.len(),
{
    let opts = WriteOptions::plain();
    if body.len() > 0 {
        let rest = body.drop_first();
        let mr = ms.drop_first();
        let m = ms[0];
        assert forall|i: int| 0 <= i < mr.len() implies (#[trigger] mr[i]).0 == rest[i] && (mr[i].1 is Blank
            <==> rest[i].len() == 0) && !(mr[i].1 is VttFileMark) by {
            assert(mr[i] == ms[i + 1]);
            assert(rest[i] == body[i + 1]);
        }
        assert forall|i: int| 0 <= i < rest.len() - 1 implies (#[trigger] rest[i]).len() > 0 || rest[i + 1].len() > 0 by {
            assert(rest[i] == body[i + 1]);
            assert(rest[i + 1] == body[i + 2]);
        }
        let w2 = if m.1 is Blank {
            VttWriteModel { written_blank: true, written_cue_time: false, cue_id: seq![] }
        } else {
            VttWriteModel { written_blank: false, ..ws }
        };
        assert(!opts.has_time_settings());
        assert(vtt_write_step(ws, m, opts, true) == Ok::<(Seq<u8>, VttWriteModel), WriteFault>((body[0] + newline(), w2))) by {
            if m.1 is Blank {
                assert(body[0] + newline() =~= newline());
            }
        }
        if rest.len() > 0 && w2.written_blank {
            assert(body[0].len() == 0);
            assert(body[1] == rest[0]);
        }
        lemma_vtt_write_body(w2, rest, mr);
    } else {
        assert(ms =~= Seq::<VttLineModel>::empty());
    }
}

/// The file mark and the blank line of a file in written form are read as
/// such, and the body after them from the header states.
proof fn lemma_vtt_read_head(body: Seq<Seq<u8>>)
    ensures
        vtt_read_models(seq![webvtt(), Seq::<u8>::empty()] + body, BodyState::Init, CurrentState::Outside).0
            == seq![(webvtt(), VttLineType::VttFileMark)] + (seq![(Seq::<u8>::empty(), VttLineType::Blank)]
            + vtt_read_models(body, BodyState::RegionsAndStyles, CurrentState::Outside).0),
{
    let e = Seq::<u8>::empty();
    let w = webvtt();
    let lines = seq![w, e] + body;
    assert(trim_bom_spec(w) == w) by {
        assert(w.take(3) != bom_spec()) by {
            assert(w.take(3)[0] == w[0]);
        }
    }
    assert(trim_start_spec(w) == w);
    assert(trim_end_spec(w) == w);
    assert(starts_with_spec(w, webvtt_spec())) by {
        assert(w.take(6) =~= webvtt_spec());
    }
    assert(vtt_step(BodyState::Init, CurrentState::Outside, w) == (
        (w, VttLineType::VttFileMark),
        BodyState::RegionsAndStyles,
        CurrentState::Outside,
    ));
    assert(trim_start_spec(e) =~= e);
    assert(trim_end_spec(e) =~= e);
    assert(vtt_step(BodyState::RegionsAndStyles, CurrentState::Outside, e) == (
        (e, VttLineType::Blank),
        BodyState::RegionsAndStyles,
        CurrentState::Outside,
    ));
    let tail = seq![e] + body;
    assert(lines.drop_first() =~= tail);
    assert(lines[0] == w);
    assert(tail.drop_first() =~= body);
    assert(tail[0] == e);
    let rb = vtt_read_models(body, BodyState::RegionsAndStyles, CurrentState::Outside);
    assert(vtt_read_models(tail, BodyState::RegionsAndStyles, CurrentState::Outside) == (
        seq![(e, VttLineType::Blank)] + rb.0,
        rb.1,
        rb.2,
    ));
}

/// Writing the lines read from a file in written form gives the file's
/// bytes after the header.
proof fn lemma_vtt_write_canonical(body: Seq<Seq<u8>>, mb: Seq<VttLineModel>)
    requires
        canonical_vtt_body(body),
        mb.len() == body.len(),
        forall|i: int| 0 <= i < mb.len() ==> (#[trigger] mb[i]).0 == body[i],
        forall|i: int| 0 <= i < mb.len() ==> ((#[trigger] mb[i]).1 is Blank <==> body[i].len() == 0),
        forall|i: int| 0 <= i < mb.len() ==> !((#[trigger] mb[i]).1 is VttFileMark),
    ensures
        vtt_write_from(
            VttWriteModel::initial(),
            seq![(webvtt(), VttLineType::VttFileMark)] + (seq![(Seq::<u8>::empty(), VttLineType::Blank)] + mb),
            WriteOptions::plain(),
            true,
        ) matches Ok((o, _)) && o == join_lines(body),
{
    let opts = WriteOptions::plain();
    let w0 = VttWriteModel::initial();
    let m0 = (webvtt(), VttLineType::VttFileMark);
    let m1 = (Seq::<u8>::empty(), VttLineType::Blank);
    let t1 = seq![m1] + mb;
    let ls = seq![m0] + t1;
    assert(vtt_write_step(w0, m0, opts, true) == Ok::<(Seq<u8>, VttWriteModel), WriteFault>((Seq::<u8>::empty(), w0)));
    assert(vtt_write_step(w0, m1, opts, true) == Ok::<(Seq<u8>, VttWriteModel), WriteFault>((Seq::<u8>::empty(), w0)));
    lemma_vtt_write_body(w0, body, mb);
    let ob = vtt_write_from(w0, mb, opts, true).unwrap().0;
    assert(t1.drop_first() =~= mb);
    assert(t1[0] == m1);
    assert(Seq::<u8>::empty() + ob =~= ob);
    assert(vtt_write_from(w0, t1, opts, true) matches Ok((o, _)) && o == ob);
    assert(ls.drop_first() =~= t1);
    assert(ls[0] == m0);
}

/// Reading a WebVTT file in written form and writing it back with the
/// default options gives the same bytes. Written form: the file mark
/// `WEBVTT`, a blank line, then lines without surrounding whitespace, the
/// first not blank and never two blank lines in a row, every line ended by
/// a line feed.
pub proof fn lemma_vtt_read_write_round_trip(body: Seq<Seq<u8>>)
    requires
        canonical_vtt_body(body),
    ensures
        exists|n: nat|
            #![trigger vtt_run(VttLines::fresh(SourceModel::Vtt(canonical_vtt(body), 0, BodyState::Init, CurrentState::Outside)), n)]
            {
                &&& vtt_run(
                    VttLines::fresh(SourceModel::Vtt(canonical_vtt(body), 0, BodyState::Init, CurrentState::Outside)),
                    n,
                ) matches Some((ls, m))
                &&& vtt_lines_next(m).0 is None
                &&& vtt_write_lines(ls, WriteOptions::plain(), true) matches Ok((out, _))
                &&& out == canonical_vtt(body)
            },
{
    let opts = WriteOptions::plain();
    let e = Seq::<u8>::empty();
    let head: Seq<Seq<u8>> = seq![webvtt(), e];
    let lines = head + body;
    let data = canonical_vtt(body);
    assert(newline_free(webvtt()));
    assert(newline_free(e));
    assert forall|i: int| 0 <= i < lines.len() implies newline_free(#[trigger] lines[i]) by {
        if i >= 2 {
            assert(lines[i] == body[i - 2]);
        }
    }
    lemma_vtt_read_lines(e, lines, e, BodyState::Init, CurrentState::Outside);
    assert(e + join_lines(lines) + e =~= data);
    let start = VttLines::fresh(SourceModel::Vtt(data, 0, BodyState::Init, CurrentState::Outside));
    assert(start == vtt_reader_at(data, 0, BodyState::Init, CurrentState::Outside));
    let (ls, bend, cend) = vtt_read_models(lines, BodyState::Init, CurrentState::Outside);
    let m = vtt_reader_at(data, data.len() as int, bend, cend);
    assert(vtt_run(start, lines.len()) == Some((ls, m)));
    assert(vtt_lines_next(m).0 is None);
    lemma_vtt_read_head(body);
    lemma_vtt_read_body(body, BodyState::RegionsAndStyles, CurrentState::Outside);
    let mb = vtt_read_models(body, BodyState::RegionsAndStyles, CurrentState::Outside).0;
    lemma_vtt_write_canonical(body, mb);
    lemma_vtt_write_lines_as_from(ls, opts, true);
    lemma_join_lines_concat(head, body);
    assert(join_lines(head) =~= webvtt_header()) by {
        assert(head.drop_first() =~= seq![e]);
        assert(seq![e].drop_first() =~= Seq::<Seq<u8>>::empty());
        assert(join_lines(seq![e]) =~= e + newline() + join_lines(Seq::<Seq<u8>>::empty()));
    }
    assert(opts.prefix() + webvtt_header() + join_lines(body) =~= data);
}

/// A payload line of a cue: not blank once trimmed, and no `NOTE`.
pub open spec fn payload_line(l: Seq<u8>) -> bool {
    trim_spec(l).len() > 0 && !starts_with_spec(trim_spec(l), note_spec())
}

/// The lines `ls`, trimmed, each read as text.
pub open spec fn text_lines(ls: Seq<Seq<u8>>) -> Seq<VttLineModel> {
    ls.map_values(|l: Seq<u8>| (trim_spec(l), VttLineType::Text))
}

/// Once a cue's text has begun, every payload line up to the next blank
/// line is text.
proof fn lemma_vtt_text_run(ls: Seq<Seq<u8>>)
    requires
        forall|i: int| 0 <= i < ls.len() ==> payload_line(#[trigger] ls[i]),
    ensures
        vtt_read_models(ls, BodyState::Cues, CurrentState::InText) == (
            text_lines(ls),
            BodyState::Cues,
            CurrentState::InText,
        ),
    decreases ls.len(),
{
    if ls.len() == 0 {
        assert(text_lines(ls) =~= Seq::<VttLineModel>::empty());
    } else {
        let rest = ls.drop_first();
        assert forall|i: int| 0 <= i < rest.len() implies payload_line(#[trigger] rest[i]) by {
            assert(rest[i] == ls[i + 1]);
        }
        assert(payload_line(ls[0]));
        lemma_vtt_text_run(rest);
        assert(text_lines(ls) =~= seq![(trim_spec(ls[0]), VttLineType::Text)] + text_lines(rest));
    }
}

/// The payload of a cue is its text when its first line does not open
/// with `{`: after the timings, each line up to the next blank line is read
/// as a text line (trimmed), the lines after the first as well as the first.
pub proof fn lemma_vtt_cue_text(ls: Seq<Seq<u8>>)
    requires
        ls.len() > 0,
        forall|i: int| 0 <= i < ls.len() ==> payload_line(#[trigger] ls[i]),
        trim_spec(ls[0])[0] != 0x7Bu8,
    ensures
        vtt_read_models(ls, BodyState::Cues, CurrentState::InCue) == (
            text_lines(ls),
            BodyState::Cues,
            CurrentState::InText,
        ),
{
    let rest = ls.drop_first();
    assert forall|i: int| 0 <= i < rest.len() implies payload_line(#[trigger] rest[i]) by {
        assert(rest[i] == ls[i + 1]);
    }
    assert(payload_line(ls[0]));
    lemma_vtt_text_run(rest);
    assert(text_lines(ls) =~= seq![(trim_spec(ls[0]), VttLineType::Text)] + text_lines(rest));
}


/// Reading a cue's payload from the bytes: after the timings, the payload
/// lines of `ls` (with no line end in them, the first not opening with `{`)
/// are read one by one, each as a text line, and the reader is left after
/// them inside the text of the cue.
pub proof fn lemma_vtt_read_cue_text(a: Seq<u8>, ls: Seq<Seq<u8>>, r: Seq<u8>)
    requires
        ls.len() > 0,
        forall|i: int| 0 <= i < ls.len() ==> payload_line(#[trigger] ls[i]),
        forall|i: int| 0 <= i < ls.len() ==> newline_free(#[trigger] ls[i]),
        trim_spec(ls[0])[0] != 0x7Bu8,
    ensures
        vtt_run(vtt_reader_at(a + join_lines(ls) + r, a.len() as int, BodyState::Cues, CurrentState::InCue), ls.len())
            == Some(
            (
                text_lines(ls),
                vtt_reader_at(
                    a + join_lines(ls) + r,
                    (a.len() + join_lines(ls).len()) as int,
                    BodyState::Cues,
                    CurrentState::InText,
                ),
            ),
        ),
{
    lemma_vtt_read_lines(a, ls, r, BodyState::Cues, CurrentState::InCue);
    lemma_vtt_cue_text(ls);
}

} // verus!
