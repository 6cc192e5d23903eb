//! SubRip files in the form the writer gives them, and the proof that
//! reading such a file and writing it back gives the same bytes.
use crate::byte_helpers::{
    all_digits, bom_spec, dec_digits, digits_value, find_byte, is_digit, is_ws, parse_u16_spec,
    parse_u8_spec, trim_bom_spec, trim_end_spec, trim_spec, trim_start_spec,
};
use crate::byte_lines::{is_newline, line_at, line_end, next_line_start};
use crate::lits::arrow;
use crate::srt::line::{find_arrow, find_millis_sep, is_arrow_at, parse_srt_time, parse_time_range, srt_line_type, SrtLineType};
use crate::time::bufs::{three_digits, two_digits, srt_time_spec};
use crate::time::Time;
use crate::lines::SourceModel;
use crate::srt::it::{srt_lines_next, srt_next, srt_step, IterState, SrtLines, SrtLinesModel, TransIterState};
use crate::srt::line::SrtLineModel;
use crate::options::{WriteFault, WriteOptions};
use crate::srt::write::{newline, srt_header, srt_run, srt_write_lines, srt_write_step, SrtWriteState};
use vstd::prelude::*;

verus! {

/// The lines `ls`, each followed by a line feed.
pub open spec fn join_lines(ls: Seq<Seq<u8>>) -> Seq<u8>
    decreases ls.len(),
{
    if ls.len() == 0 {
        seq![]
    } else {
        ls[0] + newline() + join_lines(ls.drop_first())
    }
}

/// `l` holds no line end.
pub open spec fn newline_free(l: Seq<u8>) -> bool {
    forall|i: int| 0 <= i < l.len() ==> !is_newline(#[trigger] l[i])
}

/// Lines one after another, joined, are the joined lines one after another.
pub(crate) proof fn lemma_join_lines_concat(a: Seq<Seq<u8>>, b: Seq<Seq<u8>>)
    ensures
        join_lines(a + b) == join_lines(a) + join_lines(b),
    decreases a.len(),
{
    if a.len() == 0 {
        assert(a + b =~= b);
        assert(join_lines(a) + join_lines(b) =~= join_lines(b));
    } else {
        assert((a + b).drop_first() =~= a.drop_first() + b);
        assert((a + b)[0] == a[0]);
        lemma_join_lines_concat(a.drop_first(), b);
        assert(join_lines(a + b) =~= a[0] + newline() + (join_lines(a.drop_first()) + join_lines(b)));
    }
}

/// Past a prefix, line ends are found as in what follows it.
proof fn lemma_line_end_shift(a: Seq<u8>, b: Seq<u8>, i: int)
    requires
        0 <= i <= b.len(),
    ensures
        line_end(a + b, a.len() + i) == a.len() + line_end(b, i),
    decreases b.len() - i,
{
    if i < b.len() {
        assert((a + b)[a.len() + i] == b[i]);
        if !is_newline(b[i]) {
            lemma_line_end_shift(a, b, i + 1);
        }
    }
}

/// A line without line ends, followed by a line feed, ends there.
proof fn lemma_line_end_free(l: Seq<u8>, r: Seq<u8>, i: int)
    requires
        newline_free(l),
        0 <= i <= l.len(),
    ensures
        line_end(l + newline() + r, i) == l.len(),
    decreases l.len() - i,
{
    let s = l + newline() + r;
    if i < l.len() {
        assert(s[i] == l[i]);
        lemma_line_end_free(l, r, i + 1);
    } else {
        assert(s[i] == 0x0Au8);
    }
}

/// Reading at the start of a line without line ends that a line feed
/// follows gives that line, and moves past the line feed.
pub(crate) proof fn lemma_read_line(a: Seq<u8>, l: Seq<u8>, r: Seq<u8>)
    requires
        newline_free(l),
    ensures
        line_at(a + (l + newline() + r), a.len() as int) == l,
        next_line_start(a + (l + newline() + r), a.len() as int) == a.len() + l.len() + 1,
{
    let b = l + newline() + r;
    let s = a + b;
    lemma_line_end_free(l, r, 0);
    lemma_line_end_shift(a, b, 0);
    assert(s[(a.len() + l.len()) as int] == 0x0Au8);
    assert(s.subrange(a.len() as int, (a.len() + l.len()) as int) =~= l);
}

/// The first `n + 1` lines of a reader: its next line, then `n` lines from
/// there.
proof fn lemma_srt_run_cons(data: Seq<u8>, p: int, st: IterState, n: nat)
    requires
        srt_next(data, p, st) is Some,
    ensures
        ({
            let (l, p1, s1) = srt_next(data, p, st).unwrap();
            srt_run(reader_at(data, p, st), n + 1) == match srt_run(reader_at(data, p1, s1), n) {
                Some((ls, m2)) => Some((seq![l] + ls, m2)),
                None => None,
            }
        }),
    decreases n,
{
    let m = reader_at(data, p, st);
    let (l, p1, s1) = srt_next(data, p, st).unwrap();
    let m1 = reader_at(data, p1, s1);
    assert(srt_lines_next(m) == (Some(l), m1));
    if n == 0 {
        assert(srt_run(m, 0) == Some((Seq::<SrtLineModel>::empty(), m)));
        assert(seq![l] + Seq::<SrtLineModel>::empty() =~= Seq::<SrtLineModel>::empty().push(l));
    } else {
        lemma_srt_run_cons(data, p, st, (n - 1) as nat);
        let prev = srt_run(m1, (n - 1) as nat);
        if let Some((ls, m2)) = prev {
            let nx = srt_lines_next(m2);
            if let (Some(x), m3) = nx {
                assert((seq![l] + ls).push(x) =~= seq![l] + ls.push(x));
            }
        }
    }
}

/// The lines that reading `ls` in state `st` gives, and the state after
/// them.
pub open spec fn read_models(ls: Seq<Seq<u8>>, st: IterState) -> (Seq<SrtLineModel>, IterState)
    decreases ls.len(),
{
    if ls.len() == 0 {
        (seq![], st)
    } else {
        let (m, s2) = srt_step(st, ls[0]);
        let (rest, s3) = read_models(ls.drop_first(), s2);
        (seq![m] + rest, s3)
    }
}

/// SubRip lines reading from position `p` of `data` in state `st`.
pub open spec fn reader_at(data: Seq<u8>, p: int, st: IterState) -> SrtLinesModel {
    SrtLinesModel { source: SourceModel::Srt(data, p, st), buf: seq![], trans: TransIterState::Outside }
}

/// Reading joined lines without line ends gives them, each as
/// [`srt_step`] reads it.
#[verifier::spinoff_prover]
#[verifier::rlimit(40)]
proof fn lemma_read_lines(a: Seq<u8>, ls: Seq<Seq<u8>>, r: Seq<u8>, st: IterState)
    requires
        forall|i: int| 0 <= i < ls.len() ==> newline_free(#[trigger] ls[i]),
    ensures
        srt_run(reader_at(a + join_lines(ls) + r, a.len() as int, st), ls.len()) == Some(
            (
                read_models(ls, st).0,
                reader_at(
                    a + join_lines(ls) + r,
                    (a.len() + join_lines(ls).len()) as int,
                    read_models(ls, st).1,
                ),
            ),
        ),
    decreases ls.len(),
{
    let data = a + join_lines(ls) + r;
    if ls.len() == 0 {
        assert(join_lines(ls).len() == 0);
    } else {
        let l = ls[0];
        let rest = ls.drop_first();
        assert(forall|i: int| 0 <= i < rest.len() ==> newline_free(#[trigger] rest[i])) by {
            assert forall|i: int| 0 <= i < rest.len() implies newline_free(#[trigger] rest[i]) by {
                assert(rest[i] == ls[i + 1]);
            }
        }
        assert(data =~= a + (l + newline() + (join_lines(rest) + r)));
        assert(newline_free(ls[0]));
        lemma_read_line(a, l, join_lines(rest) + r);
        let m = reader_at(data, a.len() as int, st);
        let (lm, s2) = srt_step(st, l);
        assert(srt_next(data, a.len() as int, st) == Some((lm, (a.len() + l.len() + 1) as int, s2)));
        lemma_srt_run_cons(data, a.len() as int, st, rest.len());
        let a2 = a + l + newline();
        assert(a2 + join_lines(rest) + r =~= data);
        lemma_read_lines(a2, rest, r, s2);
    }
}

/// Two digits spell their number.
pub(crate) proof fn lemma_two_digits(v: nat)
    requires
        v < 100,
    ensures
        all_digits(two_digits(v)),
        digits_value(two_digits(v)) == v,
        parse_u16_spec(two_digits(v)) == Some(v as u16),
        parse_u8_spec(two_digits(v)) == Some(v as u8),
{
    let d = two_digits(v);
    assert(d.drop_last() =~= seq![d[0]]);
    assert(seq![d[0]].drop_last() =~= Seq::<u8>::empty());
    assert(digits_value(Seq::<u8>::empty()) == 0);
    assert(seq![d[0]].last() == d[0]);
    assert(digits_value(seq![d[0]]) == (d[0] - 0x30u8) as nat);
    assert(digits_value(d) == (d[0] - 0x30u8) * 10 + (d[1] - 0x30u8));
}

/// Three digits spell their number.
proof fn lemma_three_digits(v: nat)
    requires
        v < 1000,
    ensures
        all_digits(three_digits(v)),
        digits_value(three_digits(v)) == v,
        parse_u16_spec(three_digits(v)) == Some(v as u16),
{
    let d = three_digits(v);
    assert(d.drop_last() =~= seq![d[0], d[1]]);
    assert(seq![d[0], d[1]].drop_last() =~= seq![d[0]]);
    assert(seq![d[0]].drop_last() =~= Seq::<u8>::empty());
    assert(digits_value(Seq::<u8>::empty()) == 0);
    assert(seq![d[0]].last() == d[0]);
    assert(digits_value(seq![d[0]]) == (d[0] - 0x30u8) as nat);
    assert(digits_value(seq![d[0], d[1]]) == (d[0] - 0x30u8) * 10 + (d[1] - 0x30u8));
    assert(digits_value(d) == ((d[0] - 0x30u8) * 10 + (d[1] - 0x30u8)) * 10 + (d[2] - 0x30u8));
}

/// `find_byte` finds the first `b` from `i` on.
pub(crate) proof fn lemma_find_byte_at(s: Seq<u8>, b: u8, i: int, j: int)
    requires
        0 <= i <= j <= s.len(),
        forall|k: int| i <= k < j ==> s[k] != b,
        j < s.len() ==> s[j] == b,
    ensures
        find_byte(s, b, i) == j,
    decreases j - i,
{
    if i < j {
        lemma_find_byte_at(s, b, i + 1, j);
    }
}

/// `find_arrow` finds the first `-->` from `i` on.
proof fn lemma_find_arrow_at(s: Seq<u8>, i: int, j: int)
    requires
        0 <= i <= j,
        forall|k: int| i <= k < j ==> !is_arrow_at(s, k),
        is_arrow_at(s, j),
    ensures
        find_arrow(s, i) == j,
    decreases j - i,
{
    if i < j {
        lemma_find_arrow_at(s, i + 1, j);
    }
}

/// A timestamp is read back from its SubRip form.
proof fn lemma_parse_srt_time(t: Time)
    requires
        t.is_valid(),
        t.hours < 100,
    ensures
        parse_srt_time(srt_time_spec(t)) == Some(t),
        srt_time_spec(t).len() == 12,
        forall|k: int| 0 <= k < 12 && k != 2 && k != 5 && k != 8 ==> is_digit(#[trigger] srt_time_spec(t)[k]),
        srt_time_spec(t)[2] == 0x3Au8 && srt_time_spec(t)[5] == 0x3Au8 && srt_time_spec(t)[8] == 0x2Cu8,
{
    let s = srt_time_spec(t);
    let h = two_digits(t.hours as nat);
    let m = two_digits(t.mins as nat);
    let sc = two_digits(t.secs as nat);
    let ms = three_digits(t.millis as nat);
    assert(s =~= h + seq![0x3Au8] + m + seq![0x3Au8] + sc + seq![0x2Cu8] + ms);
    lemma_two_digits(t.hours as nat);
    lemma_two_digits(t.mins as nat);
    lemma_two_digits(t.secs as nat);
    lemma_three_digits(t.millis as nat);
    assert(forall|k: int| 0 <= k < 12 && k != 2 && k != 5 && k != 8 ==> is_digit(#[trigger] s[k])) by {
        assert forall|k: int| 0 <= k < 12 && k != 2 && k != 5 && k != 8 implies is_digit(#[trigger] s[k]) by {
            if k < 2 {
                assert(s[k] == h[k]);
            } else if k < 5 {
                assert(s[k] == m[k - 3]);
            } else if k < 8 {
                assert(s[k] == sc[k - 6]);
            } else {
                assert(s[k] == ms[k - 9]);
            }
        }
    }
    lemma_find_byte_at(s, 0x3Au8, 0, 2);
    lemma_find_byte_at(s, 0x3Au8, 3, 5);
    lemma_find_byte_at(s, 0x3Au8, 6, 12);
    let sec_ms = s.subrange(6, 12);
    assert(find_millis_sep(sec_ms, 0) == 2) by {
        assert(find_millis_sep(sec_ms, 2) == 2);
        assert(find_millis_sep(sec_ms, 1) == 2);
    }
    assert(s.subrange(0, 2) =~= h);
    assert(s.subrange(3, 5) =~= m);
    assert(sec_ms.subrange(0, 2) =~= sc);
    assert(sec_ms.subrange(2, 6).subrange(1, 4) =~= ms);
}

/// The SubRip time range line of `start` and `end`.
pub open spec fn time_line(start: Time, end: Time) -> Seq<u8> {
    srt_time_spec(start) + arrow() + srt_time_spec(end)
}

/// A timestamp the SubRip form holds exactly: well-formed, with hours below
/// one hundred.
pub open spec fn canonical_time(t: Time) -> bool {
    t.is_valid() && t.hours < 100
}

/// A time range line is read as that time range, and holds no line end.
pub(crate) proof fn lemma_time_line(start: Time, end: Time)
    requires
        canonical_time(start),
        canonical_time(end),
    ensures
        srt_line_type(time_line(start, end)) == SrtLineType::TimeRange((start, end)),
        newline_free(time_line(start, end)),
        trim_bom_spec(time_line(start, end)) == time_line(start, end),
{
    let a = srt_time_spec(start);
    let b = srt_time_spec(end);
    lemma_parse_srt_time(start);
    lemma_parse_srt_time(end);
    let l = time_line(start, end);
    assert(l.len() == 29);
    assert(forall|k: int| 0 <= k < 12 ==> l[k] == a[k]);
    assert(forall|k: int| 17 <= k < 29 ==> l[k] == b[k - 17]);
    assert(l[12] == 0x20u8 && l[13] == 0x2Du8 && l[14] == 0x2Du8 && l[15] == 0x3Eu8 && l[16] == 0x20u8);
    assert(newline_free(l)) by {
        assert forall|i: int| 0 <= i < l.len() implies !is_newline(#[trigger] l[i]) by {
            if i < 12 {
                assert(l[i] == a[i]);
            } else if i >= 17 {
                assert(l[i] == b[i - 17]);
            }
        }
    }
    assert(!is_ws(l[0]) && !is_ws(l.last())) by {
        assert(l[0] == a[0]);
        assert(l.last() == b[11]);
    }
    assert(trim_start_spec(l) == l);
    assert(trim_end_spec(l) == l);
    assert(!all_digits(l)) by {
        assert(l[2] == a[2]);
        assert(!is_digit(l[2]));
    }
    assert forall|k: int| 0 <= k < 13 implies !is_arrow_at(l, k) by {
        if k < 12 {
            assert(l[k] == a[k]);
        }
    }
    lemma_find_arrow_at(l, 0, 13);
    let left0 = l.subrange(0, 13);
    assert(left0.drop_last() =~= a);
    assert(trim_end_spec(left0) == trim_end_spec(a));
    assert(trim_end_spec(a) == a) by {
        assert(!is_ws(a.last()));
    }
    let right0 = l.subrange(16, 29);
    assert(right0.drop_first() =~= b);
    assert(trim_start_spec(b) == b) by {
        assert(!is_ws(b[0]));
    }
    assert(trim_spec(l) == l);
    assert(l.take(3) != bom_spec()) by {
        assert(l.take(3)[0] == a[0]);
    }
}

/// A block number is a run of digits.
pub(crate) proof fn lemma_dec_digits(n: nat)
    ensures
        dec_digits(n).len() > 0,
        all_digits(dec_digits(n)),
        newline_free(dec_digits(n)),
        !is_ws(dec_digits(n)[0]),
        !is_ws(dec_digits(n).last()),
        is_digit(dec_digits(n)[0]),
    decreases n,
{
    if n >= 10 {
        lemma_dec_digits(n / 10);
        let d = dec_digits(n / 10);
        assert(dec_digits(n) == d.push((0x30 + n % 10) as u8));
        assert(dec_digits(n)[0] == d[0]);
        assert forall|i: int| 0 <= i < dec_digits(n).len() implies is_digit(#[trigger] dec_digits(n)[i]) by {
            if i < d.len() {
                assert(dec_digits(n)[i] == d[i]);
            }
        }
    }
    assert(newline_free(dec_digits(n))) by {
        assert forall|i: int| 0 <= i < dec_digits(n).len() implies !is_newline(#[trigger] dec_digits(n)[i]) by {
            assert(is_digit(dec_digits(n)[i]));
        }
    }
}

/// A block number is read as a number line.
pub(crate) proof fn lemma_number_line(n: nat)
    ensures
        srt_line_type(dec_digits(n)) == SrtLineType::Number,
        trim_bom_spec(dec_digits(n)) == dec_digits(n),
        newline_free(dec_digits(n)),
{
    lemma_dec_digits(n);
    let d = dec_digits(n);
    assert(trim_start_spec(d) == d);
    assert(trim_end_spec(d) == d);
    assert(trim_spec(d) == d);
    if d.len() >= 3 {
        assert(d.take(3)[0] == d[0]);
        assert(d.take(3) != bom_spec());
    }
}

/// A text line of a block in written form: not empty, without surrounding
/// whitespace or line ends, and not a time range.
pub open spec fn canonical_text(t: Seq<u8>) -> bool {
    &&& t.len() > 0
    &&& trim_spec(t) == t
    &&& newline_free(t)
    &&& !(srt_line_type(t) is TimeRange)
}

/// A subtitle block: its times and its text lines.
pub struct CanonicalBlock {
    pub start: Time,
    pub end: Time,
    pub texts: Seq<Seq<u8>>,
}

/// A block that the SubRip form holds exactly: times it holds exactly, and
/// one or more text lines in written form.
pub open spec fn canonical_block(b: CanonicalBlock) -> bool {
    &&& canonical_time(b.start)
    &&& canonical_time(b.end)
    &&& b.texts.len() > 0
    &&& forall|i: int| 0 <= i < b.texts.len() ==> canonical_text(#[trigger] b.texts[i])
}

/// The lines of block number `k`: a blank line before every block but the
/// first, the number, the time range and the text lines.
pub open spec fn block_lines(k: nat, b: CanonicalBlock) -> Seq<Seq<u8>> {
    (if k > 1 {
        seq![Seq::<u8>::empty()]
    } else {
        seq![]
    }) + seq![dec_digits(k), time_line(b.start, b.end)] + b.texts
}

/// The lines of blocks `bs`, numbered from `k`.
pub open spec fn blocks_lines(bs: Seq<CanonicalBlock>, k: nat) -> Seq<Seq<u8>>
    decreases bs.len(),
{
    if bs.len() == 0 {
        seq![]
    } else {
        block_lines(k, bs[0]) + blocks_lines(bs.drop_first(), k + 1)
    }
}

/// The SubRip file of blocks `bs`, numbered from one.
pub open spec fn canonical_srt(bs: Seq<CanonicalBlock>) -> Seq<u8> {
    join_lines(blocks_lines(bs, 1))
}

/// Text lines as read inside a block.
pub open spec fn text_models(ts: Seq<Seq<u8>>) -> Seq<SrtLineModel> {
    Seq::new(ts.len(), |i: int| (ts[i], SrtLineType::Text))
}

/// The lines of block number `k` as read.
pub open spec fn block_models(k: nat, b: CanonicalBlock) -> Seq<SrtLineModel> {
    (if k > 1 {
        seq![(Seq::<u8>::empty(), SrtLineType::Blank)]
    } else {
        seq![]
    }) + seq![
        (dec_digits(k), SrtLineType::Number),
        (time_line(b.start, b.end), SrtLineType::TimeRange((b.start, b.end))),
    ] + text_models(b.texts)
}

/// The lines of blocks `bs`, numbered from `k`, as read.
pub open spec fn blocks_models(bs: Seq<CanonicalBlock>, k: nat) -> Seq<SrtLineModel>
    decreases bs.len(),
{
    if bs.len() == 0 {
        seq![]
    } else {
        block_models(k, bs[0]) + blocks_models(bs.drop_first(), k + 1)
    }
}

/// Reading lines one after another reads the first ones, then the others
/// from the state the first leave.
proof fn lemma_read_models_concat(a: Seq<Seq<u8>>, b: Seq<Seq<u8>>, st: IterState)
    ensures
        read_models(a + b, st) == ({
            let (ma, sa) = read_models(a, st);
            let (mb, sb) = read_models(b, sa);
            (ma + mb, sb)
        }),
    decreases a.len(),
{
    if a.len() == 0 {
        assert(a + b =~= b);
        let (mb, sb) = read_models(b, st);
        assert(Seq::<SrtLineModel>::empty() + mb =~= mb);
    } else {
        assert((a + b).drop_first() =~= a.drop_first() + b);
        assert((a + b)[0] == a[0]);
        let (m, s2) = srt_step(st, a[0]);
        lemma_read_models_concat(a.drop_first(), b, s2);
        let (ma, sa) = read_models(a.drop_first(), s2);
        let (mb, sb) = read_models(b, sa);
        assert(seq![m] + (ma + mb) =~= (seq![m] + ma) + mb);
    }
}

/// Text lines in written form are read as text inside a block.
proof fn lemma_read_texts(ts: Seq<Seq<u8>>)
    requires
        forall|i: int| 0 <= i < ts.len() ==> canonical_text(#[trigger] ts[i]),
    ensures
        read_models(ts, IterState::InBlock) == (text_models(ts), IterState::InBlock),
    decreases ts.len(),
{
    if ts.len() > 0 {
        let rest = ts.drop_first();
        assert forall|i: int| 0 <= i < rest.len() implies canonical_text(#[trigger] rest[i]) by {
            assert(rest[i] == ts[i + 1]);
        }
        lemma_read_texts(rest);
        assert(canonical_text(ts[0]));
        assert(trim_spec(ts[0]).len() > 0);
        assert(text_models(ts) =~= seq![(ts[0], SrtLineType::Text)] + text_models(rest));
    } else {
        assert(text_models(ts) =~= Seq::<SrtLineModel>::empty());
    }
}

/// The steps of reading a block's number line and time range line.
proof fn lemma_read_head(k: nat, b: CanonicalBlock, st: IterState)
    requires
        canonical_block(b),
        st is Init || st is Outside,
    ensures
        read_models(seq![dec_digits(k), time_line(b.start, b.end)], st) == (
            seq![
                (dec_digits(k), SrtLineType::Number),
                (time_line(b.start, b.end), SrtLineType::TimeRange((b.start, b.end))),
            ],
            IterState::InBlock,
        ),
{
    let tl = time_line(b.start, b.end);
    let dk = dec_digits(k);
    lemma_time_line(b.start, b.end);
    lemma_number_line(k);
    assert(srt_step(st, dk) == ((dk, SrtLineType::Number), IterState::Outside));
    assert(srt_step(IterState::Outside, tl) == (
        (tl, SrtLineType::TimeRange((b.start, b.end))),
        IterState::InBlock,
    ));
    let head: Seq<Seq<u8>> = seq![dk, tl];
    let one: Seq<Seq<u8>> = seq![tl];
    assert(head.drop_first() =~= one);
    assert(one.drop_first() =~= Seq::<Seq<u8>>::empty());
    assert(read_models(Seq::<Seq<u8>>::empty(), IterState::InBlock) == (
        Seq::<SrtLineModel>::empty(),
        IterState::InBlock,
    ));
    assert(read_models(one, IterState::Outside) == (
        seq![(tl, SrtLineType::TimeRange((b.start, b.end)))] + Seq::<SrtLineModel>::empty(),
        IterState::InBlock,
    ));
    assert(seq![(tl, SrtLineType::TimeRange((b.start, b.end)))] + Seq::<SrtLineModel>::empty()
        =~= seq![(tl, SrtLineType::TimeRange((b.start, b.end)))]);
    assert(seq![(dk, SrtLineType::Number)] + seq![(tl, SrtLineType::TimeRange((b.start, b.end)))]
        =~= seq![(dk, SrtLineType::Number), (tl, SrtLineType::TimeRange((b.start, b.end)))]);
}

/// The step of reading the blank line before a block.
proof fn lemma_read_blank(st: IterState)
    ensures
        read_models(seq![Seq::<u8>::empty()], st) == (
            seq![(Seq::<u8>::empty(), SrtLineType::Blank)],
            IterState::Outside,
        ),
{
    let e = Seq::<u8>::empty();
    let blank: Seq<Seq<u8>> = seq![e];
    assert(blank.drop_first() =~= Seq::<Seq<u8>>::empty());
    assert(read_models(Seq::<Seq<u8>>::empty(), IterState::Outside) == (
        Seq::<SrtLineModel>::empty(),
        IterState::Outside,
    ));
    assert(trim_bom_spec(e) =~= e);
    assert(trim_start_spec(e) =~= e);
    assert(trim_end_spec(e) =~= e);
    assert(srt_line_type(e) == SrtLineType::Blank);
    assert(srt_step(st, e) == ((e, SrtLineType::Blank), IterState::Outside));
    assert(seq![(e, SrtLineType::Blank)] + Seq::<SrtLineModel>::empty() =~= seq![(e, SrtLineType::Blank)]);
}

/// A block in written form is read as [`block_models`] says, and leaves the
/// reader inside a block.
proof fn lemma_read_block(k: nat, b: CanonicalBlock, st: IterState)
    requires
        k >= 1,
        canonical_block(b),
        k == 1 ==> (st is Init || st is Outside),
    ensures
        read_models(block_lines(k, b), st) == (block_models(k, b), IterState::InBlock),
{
    let tl = time_line(b.start, b.end);
    let dk = dec_digits(k);
    let head: Seq<Seq<u8>> = seq![dk, tl];
    let mhead: Seq<SrtLineModel> = seq![
        (dk, SrtLineType::Number),
        (tl, SrtLineType::TimeRange((b.start, b.end))),
    ];
    lemma_read_texts(b.texts);
    if k > 1 {
        let blank: Seq<Seq<u8>> = seq![Seq::<u8>::empty()];
        lemma_read_blank(st);
        lemma_read_head(k, b, IterState::Outside);
        lemma_read_models_concat(head, b.texts, IterState::Outside);
        lemma_read_models_concat(blank, head + b.texts, st);
        assert(block_lines(k, b) =~= blank + (head + b.texts));
        assert(block_models(k, b) =~= seq![(Seq::<u8>::empty(), SrtLineType::Blank)] + (mhead
            + text_models(b.texts)));
    } else {
        lemma_read_head(k, b, st);
        lemma_read_models_concat(head, b.texts, st);
        assert(block_lines(k, b) =~= head + b.texts);
        assert(block_models(k, b) =~= mhead + text_models(b.texts));
    }
}

/// Blocks in written form are read as [`blocks_models`] says.
proof fn lemma_read_blocks(bs: Seq<CanonicalBlock>, k: nat, st: IterState)
    requires
        k >= 1,
        forall|i: int| 0 <= i < bs.len() ==> canonical_block(#[trigger] bs[i]),
        k == 1 ==> (st is Init || st is Outside),
    ensures
        read_models(blocks_lines(bs, k), st).0 == blocks_models(bs, k),
    decreases bs.len(),
{
    if bs.len() > 0 {
        let rest = bs.drop_first();
        assert forall|i: int| 0 <= i < rest.len() implies canonical_block(#[trigger] rest[i]) by {
            assert(rest[i] == bs[i + 1]);
        }
        lemma_read_block(k, bs[0], st);
        lemma_read_blocks(rest, k + 1, IterState::InBlock);
        lemma_read_models_concat(block_lines(k, bs[0]), blocks_lines(rest, k + 1), st);
    }
}

/// The lines of blocks in written form hold no line ends.
pub(crate) proof fn lemma_blocks_lines_free(bs: Seq<CanonicalBlock>, k: nat)
    requires
        forall|i: int| 0 <= i < bs.len() ==> canonical_block(#[trigger] bs[i]),
    ensures
        forall|i: int| 0 <= i < blocks_lines(bs, k).len() ==> newline_free(#[trigger] blocks_lines(bs, k)[i]),
    decreases bs.len(),
{
    if bs.len() > 0 {
        let rest = bs.drop_first();
        assert forall|i: int| 0 <= i < rest.len() implies canonical_block(#[trigger] rest[i]) by {
            assert(rest[i] == bs[i + 1]);
        }
        lemma_blocks_lines_free(rest, k + 1);
        let b = bs[0];
        lemma_time_line(b.start, b.end);
        lemma_number_line(k);
        let bl = block_lines(k, b);
        let all = blocks_lines(bs, k);
        let off: int = if k > 1 { 1 } else { 0 };
        assert forall|i: int| 0 <= i < all.len() implies newline_free(#[trigger] all[i]) by {
            if i < bl.len() {
                assert(all[i] == bl[i]);
                if i >= off + 2 {
                    assert(bl[i] == b.texts[i - off - 2]);
                }
                if k > 1 && i == 0 {
                    assert(bl[i] == Seq::<u8>::empty());
                }
            } else {
                assert(all[i] == blocks_lines(rest, k + 1)[i - bl.len()]);
            }
        }
    }
}

/// The output of writing the lines `ls` from state `ws`, and the state
/// after them; the first fault stops it.
pub open spec fn write_from(ws: SrtWriteState, ls: Seq<SrtLineModel>, opts: WriteOptions) -> Result<
    (Seq<u8>, SrtWriteState),
    WriteFault,
>
    decreases ls.len(),
{
    if ls.len() == 0 {
        Ok((seq![], ws))
    } else {
        match srt_write_step(ws, ls[0], opts) {
            Err(f) => Err(f),
            Ok((o, w2)) => match write_from(w2, ls.drop_first(), opts) {
                Err(f) => Err(f),
                Ok((o2, w3)) => Ok((o + o2, w3)),
            },
        }
    }
}

/// Writing one more line after `ls`.
proof fn lemma_write_from_push(ws: SrtWriteState, ls: Seq<SrtLineModel>, x: SrtLineModel, opts: WriteOptions)
    ensures
        write_from(ws, ls.push(x), opts) == match write_from(ws, ls, opts) {
            Err(f) => Err(f),
            Ok((o, w)) => match srt_write_step(w, x, opts) {
                Err(f) => Err(f),
                Ok((o2, w2)) => Ok((o + o2, w2)),
            },
        },
    decreases ls.len(),
{
    if ls.len() == 0 {
        assert(ls.push(x).drop_first() =~= Seq::<SrtLineModel>::empty());
        assert(write_from(ws, Seq::<SrtLineModel>::empty(), opts) == Ok::<(Seq<u8>, SrtWriteState), WriteFault>((Seq::<u8>::empty(), ws)));
        assert(ls.push(x)[0] == x);
        if let Ok((o2, w2)) = srt_write_step(ws, x, opts) {
            assert(write_from(w2, Seq::<SrtLineModel>::empty(), opts) == Ok::<(Seq<u8>, SrtWriteState), WriteFault>((Seq::<u8>::empty(), w2)));
            assert(o2 + Seq::<u8>::empty() =~= o2);
            assert(Seq::<u8>::empty() + o2 =~= o2);
        }
    } else {
        assert(ls.push(x).drop_first() =~= ls.drop_first().push(x));
        assert(ls.push(x)[0] == ls[0]);
        if let Ok((o, w2)) = srt_write_step(ws, ls[0], opts) {
            lemma_write_from_push(w2, ls.drop_first(), x, opts);
            if let Ok((o3, w3)) = write_from(w2, ls.drop_first(), opts) {
                if let Ok((o4, w4)) = srt_write_step(w3, x, opts) {
                    assert(o + (o3 + o4) =~= (o + o3) + o4);
                }
            }
        }
    }
}

/// Writing lines from the start is writing them from the first state after
/// the byte order mark, if any.
proof fn lemma_write_lines_as_from(ls: Seq<SrtLineModel>, opts: WriteOptions)
    ensures
        srt_write_lines(ls, opts) == match write_from(SrtWriteState::initial(), ls, opts) {
            Err(f) => Err(f),
            Ok((o, w)) => Ok((opts.prefix() + o, w)),
        },
    decreases ls.len(),
{
    if ls.len() == 0 {
        assert(opts.prefix() + Seq::<u8>::empty() =~= opts.prefix());
    } else {
        let init = ls.drop_last();
        lemma_write_lines_as_from(init, opts);
        assert(init.push(ls.last()) =~= ls);
        lemma_write_from_push(SrtWriteState::initial(), init, ls.last(), opts);
        if let Ok((o, w)) = write_from(SrtWriteState::initial(), init, opts) {
            if let Ok((o2, w2)) = srt_write_step(w, ls.last(), opts) {
                assert(opts.prefix() + o + o2 =~= opts.prefix() + (o + o2));
            }
        }
    }
}

/// Writing lines one after another writes the first ones, then the others
/// from the state the first leave.
proof fn lemma_write_from_concat(ws: SrtWriteState, a: Seq<SrtLineModel>, b: Seq<SrtLineModel>, opts: WriteOptions)
    ensures
        write_from(ws, a + b, opts) == match write_from(ws, a, opts) {
            Err(f) => Err(f),
            Ok((o, w)) => match write_from(w, b, opts) {
                Err(f) => Err(f),
                Ok((o2, w2)) => Ok((o + o2, w2)),
            },
        },
    decreases a.len(),
{
    if a.len() == 0 {
        assert(a + b =~= b);
        if let Ok((o2, w2)) = write_from(ws, b, opts) {
            assert(Seq::<u8>::empty() + o2 =~= o2);
        }
    } else {
        assert((a + b).drop_first() =~= a.drop_first() + b);
        assert((a + b)[0] == a[0]);
        if let Ok((o, w2)) = srt_write_step(ws, a[0], opts) {
            lemma_write_from_concat(w2, a.drop_first(), b, opts);
            if let Ok((o3, w3)) = write_from(w2, a.drop_first(), opts) {
                if let Ok((o4, w4)) = write_from(w3, b, opts) {
                    assert(o + (o3 + o4) =~= (o + o3) + o4);
                }
            }
        }
    }
}

/// Text lines of a block whose header is written are written as they are.
proof fn lemma_write_texts(ws: SrtWriteState, ts: Seq<Seq<u8>>)
    requires
        ws.header,
        forall|i: int| 0 <= i < ts.len() ==> canonical_text(#[trigger] ts[i]),
    ensures
        write_from(ws, text_models(ts), WriteOptions::plain()) == Ok::<
            (Seq<u8>, SrtWriteState),
            WriteFault,
        >((join_lines(ts), ws)),
    decreases ts.len(),
{
    let opts = WriteOptions::plain();
    if ts.len() > 0 {
        let rest = ts.drop_first();
        assert forall|i: int| 0 <= i < rest.len() implies canonical_text(#[trigger] rest[i]) by {
            assert(rest[i] == ts[i + 1]);
        }
        lemma_write_texts(ws, rest);
        let tm = text_models(ts);
        assert(tm.drop_first() =~= text_models(rest));
        assert(tm[0] == (ts[0], SrtLineType::Text));
        assert(canonical_text(ts[0]));
        assert(srt_write_step(ws, tm[0], opts) == Ok::<(Seq<u8>, SrtWriteState), WriteFault>(
            (ts[0] + newline(), ws),
        ));
    } else {
        assert(text_models(ts) =~= Seq::<SrtLineModel>::empty());
    }
}

/// A block read from written form is written back as it was.
#[verifier::spinoff_prover]
#[verifier::rlimit(40)]
proof fn lemma_write_block(k: nat, b: CanonicalBlock, ws: SrtWriteState)
    requires
        canonical_block(b),
        k >= 1,
        ws.number == k,
        k < usize::MAX,
        k == 1 ==> (!ws.header && ws.range is None),
    ensures
        write_from(ws, block_models(k, b), WriteOptions::plain()) == Ok::<
            (Seq<u8>, SrtWriteState),
            WriteFault,
        >(
            (
                join_lines(block_lines(k, b)),
                SrtWriteState { number: (k + 1) as usize, header: true, range: Some((b.start, b.end)) },
            ),
        ),
{
    let opts = WriteOptions::plain();
    let s = b.start;
    let e = b.end;
    let dk = dec_digits(k);
    let tl = time_line(s, e);
    let w0 = SrtWriteState { number: k as usize, header: false, range: None };
    let w1 = SrtWriteState { number: k as usize, header: false, range: Some((s, e)) };
    let w2 = SrtWriteState { number: (k + 1) as usize, header: true, range: Some((s, e)) };
    let blank_m = (Seq::<u8>::empty(), SrtLineType::Blank);
    let num_m = (dk, SrtLineType::Number);
    let tr_m = (tl, SrtLineType::TimeRange((s, e)));
    let pre: Seq<SrtLineModel> = if k > 1 { seq![blank_m] } else { seq![] };
    let empty = Seq::<SrtLineModel>::empty();
    // The blank line, if any, leaves the block state empty.
    assert(write_from(ws, pre, opts) == Ok::<(Seq<u8>, SrtWriteState), WriteFault>((Seq::<u8>::empty(), w0))) by {
        if k > 1 {
            assert(empty.push(blank_m) =~= pre);
            lemma_write_from_push(ws, empty, blank_m, opts);
            assert(srt_write_step(ws, blank_m, opts) == Ok::<(Seq<u8>, SrtWriteState), WriteFault>((Seq::<u8>::empty(), w0)));
            assert(Seq::<u8>::empty() + Seq::<u8>::empty() =~= Seq::<u8>::empty());
        } else {
            assert(ws == w0);
        }
    }
    assert(srt_write_step(w0, num_m, opts) == Ok::<(Seq<u8>, SrtWriteState), WriteFault>((Seq::<u8>::empty(), w0)));
    assert(opts.shift_spec(s) == Some(s));
    assert(opts.shift_spec(e) == Some(e));
    assert(!opts.skips(s, e));
    assert(srt_write_step(w0, tr_m, opts) == Ok::<(Seq<u8>, SrtWriteState), WriteFault>((Seq::<u8>::empty(), w1)));
    lemma_write_from_push(ws, pre, num_m, opts);
    lemma_write_from_push(ws, pre.push(num_m), tr_m, opts);
    let head = pre.push(num_m).push(tr_m);
    assert(write_from(ws, head, opts) == Ok::<(Seq<u8>, SrtWriteState), WriteFault>((Seq::<u8>::empty(), w1))) by {
        assert(Seq::<u8>::empty() + Seq::<u8>::empty() =~= Seq::<u8>::empty());
    }
    let t0 = b.texts[0];
    let rest = b.texts.drop_first();
    assert(canonical_text(t0));
    assert forall|i: int| 0 <= i < rest.len() implies canonical_text(#[trigger] rest[i]) by {
        assert(rest[i] == b.texts[i + 1]);
    }
    let tm = text_models(b.texts);
    assert(tm[0] == (t0, SrtLineType::Text));
    assert(tm.drop_first() =~= text_models(rest));
    assert(srt_write_step(w1, tm[0], opts) == Ok::<(Seq<u8>, SrtWriteState), WriteFault>(
        (srt_header(k as usize, s, e) + (t0 + newline()), w2),
    ));
    lemma_write_texts(w2, rest);
    assert(write_from(w1, tm, opts) == Ok::<(Seq<u8>, SrtWriteState), WriteFault>(
        (srt_header(k as usize, s, e) + (t0 + newline()) + join_lines(rest), w2),
    ));
    lemma_write_from_concat(ws, head, tm, opts);
    assert(block_models(k, b) =~= head + tm);
    // The bytes written are the joined lines of the block.
    let pre_l: Seq<Seq<u8>> = if k > 1 { seq![Seq::<u8>::empty()] } else { seq![] };
    let two: Seq<Seq<u8>> = seq![dk, tl];
    assert(block_lines(k, b) =~= pre_l + two + b.texts);
    lemma_join_lines_concat(pre_l + two, b.texts);
    lemma_join_lines_concat(pre_l, two);
    assert(join_lines(pre_l) == (if k > 1 { newline() } else { Seq::<u8>::empty() })) by {
        if k > 1 {
            assert(pre_l.drop_first() =~= Seq::<Seq<u8>>::empty());
            assert(Seq::<u8>::empty() + newline() + join_lines(Seq::<Seq<u8>>::empty()) =~= newline());
        }
    }
    assert(join_lines(two) == dk + newline() + tl + newline()) by {
        assert(two.drop_first() =~= seq![tl]);
        assert(seq![tl].drop_first() =~= Seq::<Seq<u8>>::empty());
        assert(join_lines(seq![tl]) =~= tl + newline() + join_lines(Seq::<Seq<u8>>::empty()));
        assert(join_lines(two) =~= dk + newline() + (tl + newline()));
    }
    assert(join_lines(b.texts) == t0 + newline() + join_lines(rest));
    assert(Seq::<u8>::empty() + (srt_header(k as usize, s, e) + (t0 + newline()) + join_lines(rest))
        =~= join_lines(block_lines(k, b)));
}

/// Blocks read from written form are written back as they were.
proof fn lemma_write_blocks(bs: Seq<CanonicalBlock>, k: nat, ws: SrtWriteState)
    requires
        k >= 1,
        forall|i: int| 0 <= i < bs.len() ==> canonical_block(#[trigger] bs[i]),
        ws.number == k,
        k + bs.len() <= usize::MAX,
        k == 1 ==> (!ws.header && ws.range is None),
    ensures
        write_from(ws, blocks_models(bs, k), WriteOptions::plain()) matches Ok((o, _)) && o
            == join_lines(blocks_lines(bs, k)),
    decreases bs.len(),
{
    let opts = WriteOptions::plain();
    if bs.len() > 0 {
        let rest = bs.drop_first();
        assert forall|i: int| 0 <= i < rest.len() implies canonical_block(#[trigger] rest[i]) by {
            assert(rest[i] == bs[i + 1]);
        }
        let b = bs[0];
        lemma_write_block(k, b, ws);
        let w2 = SrtWriteState { number: (k + 1) as usize, header: true, range: Some((b.start, b.end)) };
        lemma_write_blocks(rest, k + 1, w2);
        lemma_write_from_concat(ws, block_models(k, b), blocks_models(rest, k + 1), opts);
        lemma_join_lines_concat(block_lines(k, b), blocks_lines(rest, k + 1));
    } else {
        assert(blocks_models(bs, k) =~= Seq::<SrtLineModel>::empty());
        assert(blocks_lines(bs, k) =~= Seq::<Seq<u8>>::empty());
    }
}

/// Reading SubRip subtitles in written form and writing them back with the
/// default options gives the same bytes. Written form: blocks numbered from
/// one and separated by single blank lines, each with a time range whose
/// times the form holds exactly and one or more text lines that have no
/// surrounding whitespace and are not time ranges, every line ended by a
/// line feed.
pub proof fn lemma_srt_read_write_round_trip(bs: Seq<CanonicalBlock>)
    requires
        forall|i: int| 0 <= i < bs.len() ==> canonical_block(#[trigger] bs[i]),
        bs.len() < usize::MAX,
    ensures
        exists|n: nat|
            #![trigger srt_run(SrtLines::fresh(SourceModel::Srt(canonical_srt(bs), 0, IterState::Init)), n)]
            {
                &&& srt_run(SrtLines::fresh(SourceModel::Srt(canonical_srt(bs), 0, IterState::Init)), n)
                    matches Some((ls, m))
                &&& srt_lines_next(m).0 is None
                &&& srt_write_lines(ls, WriteOptions::plain()) matches Ok((out, _))
                &&& out == canonical_srt(bs)
            },
{
    let opts = WriteOptions::plain();
    let lines = blocks_lines(bs, 1);
    let data = canonical_srt(bs);
    let e = Seq::<u8>::empty();
    lemma_blocks_lines_free(bs, 1);
    lemma_read_lines(e, lines, e, IterState::Init);
    assert(e + join_lines(lines) + e =~= data);
    let start = SrtLines::fresh(SourceModel::Srt(data, 0, IterState::Init));
    assert(start == reader_at(data, 0, IterState::Init));
    lemma_read_blocks(bs, 1, IterState::Init);
    let ls = blocks_models(bs, 1);
    let m = reader_at(data, data.len() as int, read_models(lines, IterState::Init).1);
    assert(srt_run(start, lines.len()) == Some((ls, m)));
    assert(srt_lines_next(m).0 is None);
    lemma_write_lines_as_from(ls, opts);
    lemma_write_blocks(bs, 1, SrtWriteState::initial());
    assert(opts.prefix() + join_lines(lines) =~= data);
}

} // verus!
