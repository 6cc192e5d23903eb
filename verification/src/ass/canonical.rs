//! Event lines in the form the writer gives, and the proof that reading such
//! a line and writing it back gives the same bytes.
use crate::ass::it::{ass_classify, ass_step, IterState};
use crate::ass::it::TransIterState;
use crate::ass::it::{ass_find_event, ass_next};
use crate::srt::it::{srt_lines_next, SrtLinesModel, TransIterState as SrtTransIterState};
use crate::srt::line::SrtLineType;
use crate::srt::text_split::{break_join, lemma_split_breaks, lemma_srt_run_cons, no_backslash, split_models};
use crate::srt::write::srt_run;
use crate::ass::lines::{ass_lines_next, AssLinesModel};
use crate::ass::write::{ass_run, ass_write_lines};
use crate::byte_lines::is_newline;
use crate::lines::SourceModel;
use crate::srt::canonical::{join_lines, lemma_join_lines_concat, lemma_read_line, newline_free};
use crate::ass::from_srt::ass_header_models;
use crate::ass::line::SectionMark;
use crate::ass::line::info::ScriptInfoKind;
use crate::byte_helpers::bom_spec;
use crate::ass::line::event::{cut_parts, event_spec, event_type_and_rest, find_comma_or_colon, ass_time_parse, Effect, EventModel, EventTag};
use crate::ass::line::event::format::{default_positions, field_of, format_fold, format_spec, FormatField};
use crate::ass::line::comment::comment_spec;
use crate::byte_helpers::{split_from, split_spec, starts_with_spec};
use crate::lits::bang_colon;
use crate::options::WriteFault;
use crate::ass::line::AssLineModel;
use crate::ass::time::lemma_ass_time_round_trip;
use crate::ass::write::{ass_write_step, event_field, event_fields, event_line, AssWriteState};
use crate::byte_helpers::{is_digit, dec_digits, digits_value, is_ws, parse_u16_spec, trim_end_spec, trim_spec, trim_start_spec};
use crate::lits::{events, events_mark, play_depth, script_info_mark, script_type, script_type_line, wrap_style, wrap_style_line, dialogue, effect, end, format_line, format_prefix, layer, margin_l, margin_r, margin_v, name, start, style};
use crate::options::WriteOptions;
use crate::srt::canonical::{lemma_dec_digits, lemma_find_byte_at};
use crate::srt::write::newline;
use crate::time::bufs::{ass_time_spec, fits_fixed_width};
use crate::time::Time;
use vstd::prelude::*;

verus! {

/// A number in decimal is read back as that number.
proof fn lemma_dec_digits_value(n: nat)
    ensures
        digits_value(dec_digits(n)) == n,
    decreases n,
{
    if n >= 10 {
        lemma_dec_digits_value(n / 10);
        let d = dec_digits(n / 10);
        assert(dec_digits(n).drop_last() =~= d);
        let x = (0x30 + n % 10) as u8;
        assert(x == 0x30 + n % 10);
        assert(dec_digits(n).last() == x);
        assert(digits_value(dec_digits(n)) == digits_value(d) * 10 + (x - 0x30u8) as nat);
        assert((n / 10) * 10 + n % 10 == n) by (nonlinear_arith);
    } else {
        let x = (0x30 + n) as u8;
        assert(x == 0x30 + n);
        assert(dec_digits(n) == seq![x]);
        assert(seq![x].drop_last() =~= Seq::<u8>::empty());
        assert(digits_value(Seq::<u8>::empty()) == 0);
        assert(digits_value(seq![x]) == (x - 0x30u8) as nat);
    }
}

/// A `u16` in decimal is parsed back.
proof fn lemma_parse_dec(n: u16)
    ensures
        parse_u16_spec(dec_digits(n as nat)) == Some(n),
{
    lemma_dec_digits(n as nat);
    lemma_dec_digits_value(n as nat);
}

/// Bytes without a comma.
pub open spec fn comma_free(s: Seq<u8>) -> bool {
    forall|i: int| 0 <= i < s.len() ==> s[i] != 0x2Cu8
}

/// The fields `fs`, each followed by a comma.
pub open spec fn join_fields(fs: Seq<Seq<u8>>) -> Seq<u8>
    decreases fs.len(),
{
    if fs.len() == 0 {
        seq![]
    } else {
        fs[0] + seq![0x2Cu8] + join_fields(fs.drop_first())
    }
}

/// Bytes that start with no whitespace are their own start-trimmed form.
proof fn lemma_trim_start_id(s: Seq<u8>)
    requires
        s.len() > 0,
        !is_ws(s[0]),
    ensures
        trim_start_spec(s) == s,
{
}

/// Comma-free fields, each followed by a comma, and then a text are cut back
/// into those fields and that text.
proof fn lemma_cut_fields(fs: Seq<Seq<u8>>, text: Seq<u8>)
    requires
        forall|i: int| 0 <= i < fs.len() ==> comma_free(#[trigger] fs[i]),
        forall|i: int| 0 < i < fs.len() && fs[i].len() > 0 ==> !is_ws(#[trigger] fs[i][0]),
        text.len() > 0,
        !is_ws(text[0]),
    ensures
        cut_parts(join_fields(fs) + text, fs.len()) == Some((fs, text)),
    decreases fs.len(),
{
    let rem = join_fields(fs) + text;
    if fs.len() == 0 {
        assert(join_fields(fs) + text =~= text);
        assert(fs =~= Seq::<Seq<u8>>::empty());
    } else {
        let f = fs[0];
        let rest = fs.drop_first();
        assert forall|i: int| 0 <= i < rest.len() implies comma_free(#[trigger] rest[i]) by {
            assert(rest[i] == fs[i + 1]);
        }
        assert forall|i: int| 0 < i < rest.len() && rest[i].len() > 0 implies !is_ws(#[trigger] rest[i][0]) by {
            assert(rest[i] == fs[i + 1]);
        }
        let after = join_fields(rest) + text;
        assert(rem =~= f + seq![0x2Cu8] + after);
        assert(comma_free(f));
        lemma_find_byte_at(rem, 0x2Cu8, 0, f.len() as int);
        assert(rem.take(f.len() as int) =~= f);
        assert(rem.skip(f.len() as int + 1) =~= after);
        assert(after.len() > 0 && !is_ws(after[0])) by {
            if rest.len() > 0 {
                assert(after =~= rest[0] + seq![0x2Cu8] + (join_fields(rest.drop_first()) + text));
                assert(rest[0] == fs[1]);
                if rest[0].len() > 0 {
                    assert(after[0] == rest[0][0]);
                } else {
                    assert(after[0] == 0x2Cu8);
                }
            } else {
                assert(after =~= text);
            }
        }
        lemma_trim_start_id(after);
        lemma_cut_fields(rest, text);
        assert(seq![f] + rest =~= fs);
    }
}

/// One more field at the end.
proof fn lemma_join_fields_push(fs: Seq<Seq<u8>>, x: Seq<u8>)
    ensures
        join_fields(fs.push(x)) == join_fields(fs) + x + seq![0x2Cu8],
    decreases fs.len(),
{
    if fs.len() == 0 {
        assert(fs.push(x).drop_first() =~= Seq::<Seq<u8>>::empty());
        assert(fs.push(x)[0] == x);
        assert(join_fields(Seq::<Seq<u8>>::empty()) == Seq::<u8>::empty());
        assert(join_fields(fs.push(x)) =~= x + seq![0x2Cu8] + Seq::<u8>::empty());
        assert(join_fields(fs) + x + seq![0x2Cu8] =~= x + seq![0x2Cu8]);
    } else {
        assert(fs.push(x).drop_first() =~= fs.drop_first().push(x));
        lemma_join_fields_push(fs.drop_first(), x);
        assert(fs.push(x)[0] == fs[0]);
    }
}

/// A SubStation Alpha time that its written form holds exactly: well-formed,
/// hours below ten, whole hundredths of a second.
pub open spec fn canonical_ass_time(t: Time) -> bool {
    t.is_valid() && t.hours < 10 && t.millis % 10 == 0
}

/// A field that is written as it is and read back as it is: no comma, and
/// no whitespace at its start.
pub open spec fn canonical_field(f: Seq<u8>) -> bool {
    comma_free(f) && (f.len() > 0 ==> !is_ws(f[0]))
}

/// An event that its line in the default format holds exactly: a dialogue
/// with exact times, name fields that read back as they are, no effect, and
/// a text that is not empty and has no whitespace at either end, and no
/// line end anywhere.
pub open spec fn canonical_event(e: EventModel) -> bool {
    &&& e.ty == (EventTag::Dialogue, Seq::<u8>::empty())
    &&& canonical_ass_time(e.start)
    &&& canonical_ass_time(e.end)
    &&& canonical_field(e.style_name)
    &&& canonical_field(e.character_name)
    &&& newline_free(e.style_name)
    &&& newline_free(e.character_name)
    &&& newline_free(e.text)
    &&& e.effect == Effect::Empty
    &&& e.text.len() > 0
    &&& !is_ws(e.text[0])
    &&& !is_ws(e.text.last())
}

/// The nine fields of an event in the default format, as written.
pub open spec fn event_field_list(e: EventModel) -> Seq<Seq<u8>> {
    seq![
        dec_digits(e.layer as nat),
        ass_time_spec(e.start),
        ass_time_spec(e.end),
        e.style_name,
        e.character_name,
        dec_digits(e.margin_l as nat),
        dec_digits(e.margin_r as nat),
        dec_digits(e.margin_v as nat),
        e.effect.bytes_spec(),
    ]
}

/// The line of an event in the default format, without its line end.
pub open spec fn event_text_line(e: EventModel) -> Seq<u8> {
    dialogue() + seq![0x3Au8, 0x20u8] + event_fields(e, default_positions(), 9) + e.text
}

/// The fields of the default format are written in their order.
proof fn lemma_event_fields_join(e: EventModel, k: nat)
    requires
        k <= 9,
    ensures
        event_fields(e, default_positions(), k) == join_fields(event_field_list(e).take(k as int)),
    decreases k,
{
    let fs = event_field_list(e);
    if k == 0 {
        assert(fs.take(0) =~= Seq::<Seq<u8>>::empty());
    } else {
        lemma_event_fields_join(e, (k - 1) as nat);
        assert(fs.take(k as int) =~= fs.take(k - 1).push(fs[k - 1]));
        lemma_join_fields_push(fs.take(k - 1), fs[k - 1]);
        assert(event_field(e, default_positions(), (k - 1) as u8) == Some(fs[k - 1]));
    }
}

/// `find_comma_or_colon` finds the first comma or colon from `i` on.
proof fn lemma_find_comma_or_colon_at(s: Seq<u8>, i: int, j: int)
    requires
        0 <= i <= j < s.len(),
        forall|k: int| i <= k < j ==> s[k] != 0x2Cu8 && s[k] != 0x3Au8,
        s[j] == 0x3Au8,
    ensures
        find_comma_or_colon(s, i) == j,
    decreases j - i,
{
    if i < j {
        lemma_find_comma_or_colon_at(s, i + 1, j);
    }
}

/// The written form of a time has no comma and starts with a digit.
proof fn lemma_ass_time_field(t: Time)
    requires
        canonical_ass_time(t),
    ensures
        canonical_field(ass_time_spec(t)),
        ass_time_spec(t).len() > 0,
        ass_time_parse(ass_time_spec(t)) == Some(t),
{
    lemma_ass_time_round_trip(t.hours as nat, t.mins as nat, t.secs as nat, (t.millis / 10) as nat);
    let x = ass_time_spec(t);
    assert(x.len() == 10);
    assert(t.millis / 10 * 10 == t.millis);
}

/// A number in decimal has no comma and starts with a digit.
proof fn lemma_dec_field(n: nat)
    ensures
        canonical_field(dec_digits(n)),
        dec_digits(n).len() > 0,
{
    lemma_dec_digits(n);
    let d = dec_digits(n);
    assert forall|i: int| 0 <= i < d.len() implies d[i] != 0x2Cu8 by {
        assert(is_digit(d[i]));
    }
}

/// The line of an event in written form is read back as that event.
#[verifier::spinoff_prover]
proof fn lemma_event_read(e: EventModel)
    requires
        canonical_event(e),
    ensures
        event_spec(event_text_line(e), default_positions()) == Some(
            EventModel { bytes: event_text_line(e), ..e },
        ),
{
    let dp = default_positions();
    let fs = event_field_list(e);
    lemma_event_fields_join(e, 9);
    assert(fs.take(9) =~= fs);
    let sp: Seq<u8> = seq![0x20u8];
    let fs1 = fs.update(0, sp + fs[0]);
    assert(fs1.drop_first() =~= fs.drop_first());
    assert(join_fields(fs1) =~= sp + join_fields(fs));
    let line = event_text_line(e);
    let r = join_fields(fs1) + e.text;
    assert(line =~= dialogue() + seq![0x3Au8] + r);
    assert forall|k: int| 0 <= k < 8 implies line[k] != 0x2Cu8 && line[k] != 0x3Au8 by {
        assert(line[k] == dialogue()[k]);
    }
    assert(line[8] == 0x3Au8);
    assert(r.len() > 0);
    lemma_find_comma_or_colon_at(line, 0, 8);
    assert(line.take(8) =~= dialogue());
    assert(line.skip(9) =~= r);
    assert(event_type_and_rest(line) == Some(((EventTag::Dialogue, Seq::<u8>::empty()), r)));
    lemma_dec_field(e.layer as nat);
    lemma_dec_field(e.margin_l as nat);
    lemma_dec_field(e.margin_r as nat);
    lemma_dec_field(e.margin_v as nat);
    lemma_ass_time_field(e.start);
    lemma_ass_time_field(e.end);
    assert(comma_free(fs1[0])) by {
        assert forall|i: int| 0 <= i < fs1[0].len() implies fs1[0][i] != 0x2Cu8 by {
            if i > 0 {
                assert(fs1[0][i] == fs[0][i - 1]);
            }
        }
    }
    assert forall|i: int| 0 <= i < fs1.len() implies comma_free(#[trigger] fs1[i]) by {
        if i > 0 {
            assert(fs1[i] == fs[i]);
        }
    }
    assert forall|i: int| 0 < i < fs1.len() && fs1[i].len() > 0 implies !is_ws(#[trigger] fs1[i][0]) by {
        assert(fs1[i] == fs[i]);
    }
    lemma_cut_fields(fs1, e.text);
    assert(cut_parts(r, 9) == Some((fs1, e.text)));
    lemma_trim_start_id(fs[0]);
    assert((sp + fs[0]).drop_first() =~= fs[0]);
    assert(trim_start_spec(fs1[0]) == fs[0]);
    let ps = fs1.update(0, trim_start_spec(fs1[0]));
    assert(ps =~= fs);
    lemma_parse_dec(e.layer);
    lemma_parse_dec(e.margin_l);
    lemma_parse_dec(e.margin_r);
    lemma_parse_dec(e.margin_v);
}

/// An event in written form is read back and written back as the same
/// bytes: its line in the default format is kept whole by trimming, is read
/// in the events section as that event (its source bytes being the line),
/// and writing that event in the default format without options gives the
/// line again with its line end.
pub proof fn lemma_event_read_write_round_trip(e: EventModel, ws: AssWriteState)
    requires
        canonical_event(e),
        ws.positions == default_positions(),
    ensures
        trim_spec(event_text_line(e)) == event_text_line(e),
        ass_classify(IterState::Events(default_positions()), event_text_line(e)) == (
            AssLineModel::Event(EventModel { bytes: event_text_line(e), ..e }),
            IterState::Events(default_positions()),
        ),
        ass_write_step(
            ws,
            AssLineModel::Event(EventModel { bytes: event_text_line(e), ..e }),
            WriteOptions::plain(),
        ) == Ok::<(Seq<u8>, AssWriteState), WriteFault>(
            (event_text_line(e) + newline(), AssWriteState { written_blank: false, ..ws }),
        ),
{
    let line = event_text_line(e);
    let e2 = EventModel { bytes: line, ..e };
    lemma_event_read(e);
    assert(line[0] == 0x44u8);
    assert(line.last() == e.text.last());
    lemma_trim_start_id(line);
    assert(trim_end_spec(line) == line);
    assert(comment_spec(line) is None) by {
        assert(!starts_with_spec(line, bang_colon())) by {
            assert(line.take(2)[0] == 0x44u8);
        }
        lemma_trim_start_id(line);
    }
    lemma_ass_time_field(e.start);
    lemma_ass_time_field(e.end);
    assert(fits_fixed_width(e.start) && fits_fixed_width(e.end));
    lemma_event_fields_join(e, 9);
    lemma_event_fields_join(e2, 9);
    assert(event_field_list(e2) == event_field_list(e));
    assert(event_fields(e2, default_positions(), 9) == event_fields(e, default_positions(), 9));
    assert(event_line(e2, default_positions()) =~= line + newline());
}

/// The default format line gives the default positions.
#[verifier::spinoff_prover]
#[verifier::rlimit(60)]
proof fn lemma_format_line_positions()
    ensures
        format_spec(format_line()) == Some(default_positions()),
{
    let fl = format_line();
    let f = fl.skip(8);
    assert(fl.len() == 79);
    assert(fl.skip(7).drop_first() =~= f);
    lemma_trim_start_id(f);
    assert(trim_start_spec(fl.skip(7)) == f);
    assert(starts_with_spec(fl, format_prefix())) by {
        assert(fl.take(7) =~= format_prefix());
    }
    lemma_find_byte_at(f, 0x2Cu8, 0, 5);
    lemma_find_byte_at(f, 0x2Cu8, 6, 12);
    lemma_find_byte_at(f, 0x2Cu8, 13, 17);
    lemma_find_byte_at(f, 0x2Cu8, 18, 24);
    lemma_find_byte_at(f, 0x2Cu8, 25, 30);
    lemma_find_byte_at(f, 0x2Cu8, 31, 39);
    lemma_find_byte_at(f, 0x2Cu8, 40, 48);
    lemma_find_byte_at(f, 0x2Cu8, 49, 57);
    lemma_find_byte_at(f, 0x2Cu8, 58, 65);
    lemma_find_byte_at(f, 0x2Cu8, 66, 71);
    assert(split_from(f, 0x2Cu8, 66) == seq![f.subrange(66, 71)]);
    assert(split_from(f, 0x2Cu8, 58) == seq![f.subrange(58, 65)] + split_from(f, 0x2Cu8, 66));
    assert(split_from(f, 0x2Cu8, 49) == seq![f.subrange(49, 57)] + split_from(f, 0x2Cu8, 58));
    assert(split_from(f, 0x2Cu8, 40) == seq![f.subrange(40, 48)] + split_from(f, 0x2Cu8, 49));
    assert(split_from(f, 0x2Cu8, 31) == seq![f.subrange(31, 39)] + split_from(f, 0x2Cu8, 40));
    assert(split_from(f, 0x2Cu8, 25) == seq![f.subrange(25, 30)] + split_from(f, 0x2Cu8, 31));
    assert(split_from(f, 0x2Cu8, 18) == seq![f.subrange(18, 24)] + split_from(f, 0x2Cu8, 25));
    assert(split_from(f, 0x2Cu8, 13) == seq![f.subrange(13, 17)] + split_from(f, 0x2Cu8, 18));
    assert(split_from(f, 0x2Cu8, 6) == seq![f.subrange(6, 12)] + split_from(f, 0x2Cu8, 13));
    assert(split_from(f, 0x2Cu8, 0) == seq![f.subrange(0, 5)] + split_from(f, 0x2Cu8, 6));
    let parts = split_spec(f, 0x2Cu8);
    assert(parts.len() == 10);
    assert(parts[0] =~= f.subrange(0, 5));
    assert(f.subrange(0, 5) =~= layer());
    lemma_trim_start_id(parts[0]);
    assert(parts[1] == f.subrange(6, 12));
    assert(parts[1].drop_first() =~= start());
    lemma_trim_start_id(start());
    assert(trim_start_spec(parts[1]) == start());
    assert(parts[2] == f.subrange(13, 17));
    assert(parts[2].drop_first() =~= end());
    lemma_trim_start_id(end());
    assert(trim_start_spec(parts[2]) == end());
    assert(parts[3] == f.subrange(18, 24));
    assert(parts[3].drop_first() =~= style());
    lemma_trim_start_id(style());
    assert(trim_start_spec(parts[3]) == style());
    assert(parts[4] == f.subrange(25, 30));
    assert(parts[4].drop_first() =~= name());
    lemma_trim_start_id(name());
    assert(trim_start_spec(parts[4]) == name());
    assert(parts[5] == f.subrange(31, 39));
    assert(parts[5].drop_first() =~= margin_l());
    lemma_trim_start_id(margin_l());
    assert(trim_start_spec(parts[5]) == margin_l());
    assert(parts[6] == f.subrange(40, 48));
    assert(parts[6].drop_first() =~= margin_r());
    lemma_trim_start_id(margin_r());
    assert(trim_start_spec(parts[6]) == margin_r());
    assert(parts[7] == f.subrange(49, 57));
    assert(parts[7].drop_first() =~= margin_v());
    lemma_trim_start_id(margin_v());
    assert(trim_start_spec(parts[7]) == margin_v());
    assert(parts[8] == f.subrange(58, 65));
    assert(parts[8].drop_first() =~= effect());
    lemma_trim_start_id(effect());
    assert(trim_start_spec(parts[8]) == effect());
    assert(start()[0] != layer()[0]);
    assert(style()[0] != layer()[0]);
    assert(style()[2] != start()[2]);
    assert(margin_r()[6] != margin_l()[6]);
    assert(margin_v()[6] != margin_l()[6]);
    assert(margin_v()[6] != margin_r()[6]);
    assert(field_of(layer()) == Some(FormatField::Layer));
    assert(field_of(start()) == Some(FormatField::Start));
    assert(field_of(end()) == Some(FormatField::End));
    assert(field_of(style()) == Some(FormatField::Style));
    assert(field_of(name()) == Some(FormatField::Name));
    assert(field_of(margin_l()) == Some(FormatField::MarginL));
    assert(field_of(margin_r()) == Some(FormatField::MarginR));
    assert(field_of(margin_v()) == Some(FormatField::MarginV));
    assert(field_of(effect()) == Some(FormatField::Effect));
    let dp = default_positions();
    assert(format_fold(parts, 8, dp) == format_fold(parts, 9, dp));
    assert(format_fold(parts, 7, dp) == format_fold(parts, 8, dp));
    assert(format_fold(parts, 6, dp) == format_fold(parts, 7, dp));
    assert(format_fold(parts, 5, dp) == format_fold(parts, 6, dp));
    assert(format_fold(parts, 4, dp) == format_fold(parts, 5, dp));
    assert(format_fold(parts, 3, dp) == format_fold(parts, 4, dp));
    assert(format_fold(parts, 2, dp) == format_fold(parts, 3, dp));
    assert(format_fold(parts, 1, dp) == format_fold(parts, 2, dp));
    assert(format_fold(parts, 0, dp) == format_fold(parts, 1, dp));
}

/// A line with no whitespace at either end is its own trimmed form.
proof fn lemma_trim_id(l: Seq<u8>)
    requires
        l.len() > 0,
        !is_ws(l[0]),
        !is_ws(l.last()),
    ensures
        trim_spec(l) == l,
{
    lemma_trim_start_id(l);
}

/// A line that starts with neither `;` nor `!` nor whitespace is no
/// comment.
proof fn lemma_not_comment(l: Seq<u8>)
    requires
        l.len() > 0,
        l[0] != 0x3Bu8,
        l[0] != 0x21u8,
        !is_ws(l[0]),
    ensures
        comment_spec(l) is None,
{
    assert(!starts_with_spec(l, bang_colon())) by {
        if 2 <= l.len() {
            assert(l.take(2)[0] == l[0]);
        }
    }
    lemma_trim_start_id(l);
}

/// The header lines of a script in written form: `[Script Info]`, the
/// script type, the wrap style, a blank line, `[Events]` and the default
/// format line.
pub open spec fn ass_header_lines() -> Seq<Seq<u8>> {
    seq![script_info_mark(), script_type_line(), wrap_style_line(), seq![], events_mark(), format_line()]
}

/// The lines `ls` of a script as read from its start, and the state after
/// them.
pub open spec fn ass_read_models(ls: Seq<Seq<u8>>) -> (Seq<AssLineModel>, IterState)
    decreases ls.len(),
{
    if ls.len() == 0 {
        (seq![], IterState::Init)
    } else {
        let (ms, st) = ass_read_models(ls.drop_last());
        let (m, s2) = ass_step(st, ls.last());
        (ms.push(m), s2)
    }
}

/// How each header line is read.
proof fn lemma_header_steps()
    ensures
        ass_step(IterState::Init, script_info_mark()) == (
            AssLineModel::SectionMark(SectionMark::ScriptInfo),
            IterState::ScriptInfo,
        ),
        ass_step(IterState::ScriptInfo, script_type_line()) == (
            AssLineModel::ScriptInfo((ScriptInfoKind::ScriptType, script_type_line())),
            IterState::ScriptInfo,
        ),
        ass_step(IterState::ScriptInfo, wrap_style_line()) == (
            AssLineModel::ScriptInfo((ScriptInfoKind::WrapStyle, wrap_style_line())),
            IterState::ScriptInfo,
        ),
        ass_step(IterState::ScriptInfo, Seq::<u8>::empty()) == (AssLineModel::Blank, IterState::Blank),
        ass_step(IterState::Blank, events_mark()) == (
            AssLineModel::SectionMark(SectionMark::Events),
            IterState::SectionMark(SectionMark::Events),
        ),
        ass_step(IterState::SectionMark(SectionMark::Events), format_line()) == (
            AssLineModel::EventFormat((format_line(), default_positions())),
            IterState::Events(default_positions()),
        ),
{
    let sim = script_info_mark();
    assert(!(sim.take(3) == bom_spec())) by {
        assert(sim.take(3)[0] != bom_spec()[0]);
    }
    lemma_trim_id(sim);
    let stl = script_type_line();
    lemma_trim_id(stl);
    lemma_not_comment(stl);
    lemma_find_byte_at(stl, 0x3Au8, 0, 10);
    assert(stl.take(10) =~= script_type());
    let wsl = wrap_style_line();
    lemma_trim_id(wsl);
    lemma_not_comment(wsl);
    lemma_find_byte_at(wsl, 0x3Au8, 0, 9);
    assert(wsl.take(9) =~= wrap_style());
    assert(wrap_style()[0] != play_depth()[0]);
    let e: Seq<u8> = seq![];
    assert(trim_start_spec(e) == e);
    assert(trim_end_spec(e) == e);
    let em = events_mark();
    lemma_trim_id(em);
    lemma_not_comment(em);
    assert(em.subrange(1, 7) =~= events());
    let fl = format_line();
    lemma_trim_id(fl);
    lemma_not_comment(fl);
    lemma_format_line_positions();
}

/// Reading the header lines gives the header of a converted script and
/// leaves the reader among the events, in the default format.
proof fn lemma_read_header()
    ensures
        ass_read_models(ass_header_lines()) == (ass_header_models(), IterState::Events(default_positions())),
{
    let h = ass_header_lines();
    let hm = ass_header_models();
    lemma_header_steps();
    assert(h.take(0) =~= Seq::<Seq<u8>>::empty());
    assert(ass_read_models(h.take(0)) == (Seq::<AssLineModel>::empty(), IterState::Init));
    assert forall|k: int| 1 <= k <= 6 implies #[trigger] h.take(k).drop_last() =~= h.take(k - 1) && h.take(k).last() == h[k - 1] by {}
    assert(ass_read_models(h.take(1)) == (hm.take(1), IterState::ScriptInfo)) by {
        assert(Seq::<AssLineModel>::empty().push(hm[0]) =~= hm.take(1));
    }
    assert(ass_read_models(h.take(2)) == (hm.take(2), IterState::ScriptInfo)) by {
        assert(hm.take(1).push(hm[1]) =~= hm.take(2));
    }
    assert(ass_read_models(h.take(3)) == (hm.take(3), IterState::ScriptInfo)) by {
        assert(hm.take(2).push(hm[2]) =~= hm.take(3));
    }
    assert(ass_read_models(h.take(4)) == (hm.take(4), IterState::Blank)) by {
        assert(hm.take(3).push(hm[3]) =~= hm.take(4));
    }
    assert(ass_read_models(h.take(5)) == (hm.take(5), IterState::SectionMark(SectionMark::Events))) by {
        assert(hm.take(4).push(hm[4]) =~= hm.take(5));
    }
    assert(ass_read_models(h.take(6)) == (hm.take(6), IterState::Events(default_positions()))) by {
        assert(hm.take(5).push(hm[5]) =~= hm.take(6));
    }
    assert(h.take(6) =~= h);
    assert(hm.take(6) =~= hm);
}

/// Fields without line ends, each followed by a comma, hold no line end.
proof fn lemma_join_fields_free(fs: Seq<Seq<u8>>)
    requires
        forall|i: int| 0 <= i < fs.len() ==> newline_free(#[trigger] fs[i]),
    ensures
        newline_free(join_fields(fs)),
    decreases fs.len(),
{
    if fs.len() > 0 {
        let rest = fs.drop_first();
        assert forall|i: int| 0 <= i < rest.len() implies newline_free(#[trigger] rest[i]) by {
            assert(rest[i] == fs[i + 1]);
        }
        lemma_join_fields_free(rest);
        let j = join_fields(fs);
        let f = fs[0];
        assert(newline_free(f));
        assert forall|i: int| 0 <= i < j.len() implies !is_newline(#[trigger] j[i]) by {
            if i < f.len() {
                assert(j[i] == f[i]);
            } else if i > f.len() {
                assert(j[i] == join_fields(rest)[i - f.len() - 1]);
            }
        }
    }
}

/// The line of an event in written form holds no line end.
pub(crate) proof fn lemma_event_line_free(e: EventModel)
    requires
        canonical_event(e),
    ensures
        newline_free(event_text_line(e)),
{
    let fs = event_field_list(e);
    lemma_event_fields_join(e, 9);
    assert(fs.take(9) =~= fs);
    lemma_dec_digits(e.layer as nat);
    lemma_dec_digits(e.margin_l as nat);
    lemma_dec_digits(e.margin_r as nat);
    lemma_dec_digits(e.margin_v as nat);
    assert forall|i: int| 0 <= i < fs.len() implies newline_free(#[trigger] fs[i]) by {
        if i == 1 || i == 2 {
            let t = if i == 1 { e.start } else { e.end };
            let x = ass_time_spec(t);
            assert forall|k: int| 0 <= k < x.len() implies !is_newline(#[trigger] x[k]) by {}
        }
    }
    lemma_join_fields_free(fs);
    let line = event_text_line(e);
    let head = dialogue() + seq![0x3Au8, 0x20u8];
    let mid = join_fields(fs);
    assert(line =~= head + mid + e.text);
    assert forall|i: int| 0 <= i < line.len() implies !is_newline(#[trigger] line[i]) by {
        if i < head.len() {
            assert(line[i] == head[i]);
        } else if i < head.len() + mid.len() {
            assert(line[i] == mid[i - head.len()]);
        } else {
            assert(line[i] == e.text[i - head.len() - mid.len()]);
        }
    }
}

/// The lines of events in written form.
pub open spec fn event_lines(es: Seq<EventModel>) -> Seq<Seq<u8>> {
    es.map_values(|e: EventModel| event_text_line(e))
}

/// An event as it is read back from its line.
pub open spec fn read_event(e: EventModel) -> AssLineModel {
    AssLineModel::Event(EventModel { bytes: event_text_line(e), ..e })
}

/// The events `es` as they are read back.
pub open spec fn event_models(es: Seq<EventModel>) -> Seq<AssLineModel> {
    es.map_values(|e: EventModel| read_event(e))
}

/// A script in written form: the header lines, then one line for each of
/// the events `es`, each line ended by `\n`.
pub open spec fn canonical_ass(es: Seq<EventModel>) -> Seq<u8> {
    join_lines(ass_header_lines() + event_lines(es))
}

/// Reading the header and then event lines gives the header and the events.
proof fn lemma_read_events(es: Seq<EventModel>, k: nat)
    requires
        k <= es.len(),
        forall|i: int| 0 <= i < es.len() ==> canonical_event(#[trigger] es[i]),
    ensures
        ass_read_models(ass_header_lines() + event_lines(es).take(k as int)) == (
            ass_header_models() + event_models(es).take(k as int),
            IterState::Events(default_positions()),
        ),
    decreases k,
{
    let h = ass_header_lines();
    let ls = event_lines(es);
    let ms = event_models(es);
    if k == 0 {
        lemma_read_header();
        assert(h + ls.take(0) =~= h);
        assert(ass_header_models() + ms.take(0) =~= ass_header_models());
    } else {
        lemma_read_events(es, (k - 1) as nat);
        let all = h + ls.take(k as int);
        assert(all.drop_last() =~= h + ls.take(k - 1));
        assert(all.last() == event_text_line(es[k - 1]));
        assert(canonical_event(es[k - 1]));
        lemma_event_read_write_round_trip(es[k - 1], AssWriteState::initial());
        assert(ass_header_models() + ms.take(k - 1) + seq![ms[k - 1]] =~= ass_header_models() + ms.take(k as int));
        assert((ass_header_models() + ms.take(k - 1)).push(ms[k - 1]) =~= ass_header_models() + ms.take(k as int));
    }
}

/// SubStation Alpha lines reading from position `p` of `data` in state `st`.
pub open spec fn ass_reader_at(data: Seq<u8>, p: int, st: IterState) -> AssLinesModel {
    AssLinesModel { source: SourceModel::Ass(data, p, st), trans: TransIterState::Init }
}

/// Reading joined lines without line ends gives the first `k` of them as
/// they are read from the start.
#[verifier::spinoff_prover]
#[verifier::rlimit(40)]
proof fn lemma_ass_read_prefix(ls: Seq<Seq<u8>>, k: nat)
    requires
        k <= ls.len(),
        forall|i: int| 0 <= i < ls.len() ==> newline_free(#[trigger] ls[i]),
    ensures
        ass_run(ass_reader_at(join_lines(ls), 0, IterState::Init), k) == Some(
            (
                ass_read_models(ls.take(k as int)).0,
                ass_reader_at(
                    join_lines(ls),
                    join_lines(ls.take(k as int)).len() as int,
                    ass_read_models(ls.take(k as int)).1,
                ),
            ),
        ),
    decreases k,
{
    let data = join_lines(ls);
    if k == 0 {
        assert(ls.take(0) =~= Seq::<Seq<u8>>::empty());
        assert(join_lines(Seq::<Seq<u8>>::empty()).len() == 0);
    } else {
        lemma_ass_read_prefix(ls, (k - 1) as nat);
        let a = join_lines(ls.take(k - 1));
        let l = ls[k - 1];
        let tail = ls.skip(k as int);
        lemma_join_lines_concat(ls.take(k - 1), ls.skip(k - 1));
        assert(ls.take(k - 1) + ls.skip(k - 1) =~= ls);
        assert(ls.skip(k - 1).drop_first() =~= tail);
        assert(join_lines(ls.skip(k - 1)) == l + newline() + join_lines(tail));
        assert(data =~= a + (l + newline() + join_lines(tail)));
        assert(newline_free(l));
        lemma_read_line(a, l, join_lines(tail));
        assert(ls.take(k as int) =~= ls.take(k - 1).push(l));
        assert(ls.take(k as int).drop_last() =~= ls.take(k - 1));
        lemma_join_lines_concat(ls.take(k - 1), seq![l]);
        assert(seq![l].drop_first() =~= Seq::<Seq<u8>>::empty());
        assert(seq![l][0] == l);
        assert(join_lines(Seq::<Seq<u8>>::empty()) =~= Seq::<u8>::empty());
        assert(join_lines(seq![l]) =~= l + newline() + Seq::<u8>::empty());
        assert(join_lines(seq![l]) =~= l + newline());
        assert(ls.take(k - 1) + seq![l] =~= ls.take(k as int));
    }
}

/// One more line at the end.
proof fn lemma_join_lines_push(ls: Seq<Seq<u8>>, l: Seq<u8>)
    ensures
        join_lines(ls.push(l)) == join_lines(ls) + l + newline(),
{
    lemma_join_lines_concat(ls, seq![l]);
    assert(ls + seq![l] =~= ls.push(l));
    assert(seq![l].drop_first() =~= Seq::<Seq<u8>>::empty());
    assert(seq![l][0] == l);
    assert(join_lines(Seq::<Seq<u8>>::empty()) =~= Seq::<u8>::empty());
    assert(join_lines(seq![l]) =~= l + newline() + Seq::<u8>::empty());
    assert(join_lines(ls) + (l + newline() + Seq::<u8>::empty()) =~= join_lines(ls) + l + newline());
}

/// The state of a writer after the header: no blank line last, the default
/// format.
pub open spec fn events_write_state() -> AssWriteState {
    AssWriteState { written_blank: false, positions: default_positions() }
}

/// Writing the header lines as read gives them back.
proof fn lemma_write_header()
    ensures
        ass_write_lines(ass_header_models(), WriteOptions::plain()) == Ok::<(Seq<u8>, AssWriteState), WriteFault>(
            (join_lines(ass_header_lines()), events_write_state()),
        ),
{
    let h = ass_header_lines();
    let hm = ass_header_models();
    let opts = WriteOptions::plain();
    let w0 = AssWriteState::initial();
    let w4 = AssWriteState { written_blank: true, ..w0 };
    assert(opts.prefix() =~= Seq::<u8>::empty());
    assert forall|k: int| 1 <= k <= 6 implies #[trigger] hm.take(k).drop_last() =~= hm.take(k - 1) && hm.take(k).last() == hm[k - 1] by {}
    assert forall|k: int| 1 <= k <= 6 implies #[trigger] h.take(k) =~= h.take(k - 1).push(h[k - 1]) by {}
    assert(hm.take(0) =~= Seq::<AssLineModel>::empty());
    assert(h.take(0) =~= Seq::<Seq<u8>>::empty());
    assert(join_lines(Seq::<Seq<u8>>::empty()) =~= Seq::<u8>::empty());
    lemma_join_lines_push(h.take(0), h[0]);
    lemma_join_lines_push(h.take(1), h[1]);
    lemma_join_lines_push(h.take(2), h[2]);
    lemma_join_lines_push(h.take(3), h[3]);
    lemma_join_lines_push(h.take(4), h[4]);
    lemma_join_lines_push(h.take(5), h[5]);
    assert(ass_write_lines(hm.take(0), opts) == Ok::<(Seq<u8>, AssWriteState), WriteFault>((join_lines(h.take(0)), w0)));
    assert(join_lines(h.take(0)) + (h[0] + newline()) =~= join_lines(h.take(1)));
    assert(ass_write_lines(hm.take(1), opts) == Ok::<(Seq<u8>, AssWriteState), WriteFault>((join_lines(h.take(1)), w0)));
    assert(hm[1].bytes_spec() == h[1]);
    assert(ass_write_step(w0, hm[1], opts) == Ok::<(Seq<u8>, AssWriteState), WriteFault>((h[1] + newline(), w0)));
    assert(hm[2].bytes_spec() == h[2]);
    assert(ass_write_step(w0, hm[2], opts) == Ok::<(Seq<u8>, AssWriteState), WriteFault>((h[2] + newline(), w0)));
    assert(join_lines(h.take(1)) + (h[1] + newline()) =~= join_lines(h.take(2)));
    assert(ass_write_lines(hm.take(2), opts) == Ok::<(Seq<u8>, AssWriteState), WriteFault>((join_lines(h.take(2)), w0)));
    assert(join_lines(h.take(2)) + (h[2] + newline()) =~= join_lines(h.take(3)));
    assert(ass_write_lines(hm.take(3), opts) == Ok::<(Seq<u8>, AssWriteState), WriteFault>((join_lines(h.take(3)), w0)));
    assert(join_lines(h.take(3)) + newline() =~= join_lines(h.take(4)));
    assert(ass_write_lines(hm.take(4), opts) == Ok::<(Seq<u8>, AssWriteState), WriteFault>((join_lines(h.take(4)), w4)));
    assert(join_lines(h.take(4)) + (h[4] + newline()) =~= join_lines(h.take(5)));
    assert(ass_write_lines(hm.take(5), opts) == Ok::<(Seq<u8>, AssWriteState), WriteFault>((join_lines(h.take(5)), w0)));
    assert(join_lines(h.take(5)) + (h[5] + newline()) =~= join_lines(h.take(6)));
    assert(ass_write_lines(hm.take(6), opts) == Ok::<(Seq<u8>, AssWriteState), WriteFault>((join_lines(h.take(6)), events_write_state())));
    assert(hm.take(6) =~= hm);
    assert(h.take(6) =~= h);
}

/// Writing the header and then events as read gives their lines back.
proof fn lemma_write_events(es: Seq<EventModel>, k: nat)
    requires
        k <= es.len(),
        forall|i: int| 0 <= i < es.len() ==> canonical_event(#[trigger] es[i]),
    ensures
        ass_write_lines(ass_header_models() + event_models(es).take(k as int), WriteOptions::plain())
            == Ok::<(Seq<u8>, AssWriteState), WriteFault>(
            (join_lines(ass_header_lines() + event_lines(es).take(k as int)), events_write_state()),
        ),
    decreases k,
{
    let h = ass_header_lines();
    let ls = event_lines(es);
    let ms = event_models(es);
    let hm = ass_header_models();
    if k == 0 {
        lemma_write_header();
        assert(h + ls.take(0) =~= h);
        assert(hm + ms.take(0) =~= hm);
    } else {
        lemma_write_events(es, (k - 1) as nat);
        let all = hm + ms.take(k as int);
        assert(all.drop_last() =~= hm + ms.take(k - 1));
        assert(all.last() == read_event(es[k - 1]));
        assert(canonical_event(es[k - 1]));
        lemma_event_read_write_round_trip(es[k - 1], events_write_state());
        assert(h + ls.take(k as int) =~= (h + ls.take(k - 1)).push(event_text_line(es[k - 1])));
        lemma_join_lines_push(h + ls.take(k - 1), event_text_line(es[k - 1]));
        assert(join_lines(h + ls.take(k - 1)) + (event_text_line(es[k - 1]) + newline()) =~= join_lines(
            h + ls.take(k - 1),
        ) + event_text_line(es[k - 1]) + newline());
    }
}

/// The lines of a script in written form hold no line end.
proof fn lemma_script_lines_free(es: Seq<EventModel>)
    requires
        forall|i: int| 0 <= i < es.len() ==> canonical_event(#[trigger] es[i]),
    ensures
        forall|i: int|
            0 <= i < (ass_header_lines() + event_lines(es)).len() ==> newline_free(
                #[trigger] (ass_header_lines() + event_lines(es))[i],
            ),
{
    let h = ass_header_lines();
    let ls = event_lines(es);
    let lines = h + ls;
    assert forall|i: int| 0 <= i < lines.len() implies newline_free(#[trigger] lines[i]) by {
        if i < 6 {
            assert(lines[i] == h[i]);
            let x = h[i];
            assert forall|k: int| 0 <= k < x.len() implies !is_newline(#[trigger] x[k]) by {}
        } else {
            assert(lines[i] == ls[i - 6]);
            assert(canonical_event(es[i - 6]));
            lemma_event_line_free(es[i - 6]);
        }
    }
}

/// A script in written form is read and written back as the same bytes:
/// reading it gives its header lines and then one event for each of `es`
/// (each with its line as source bytes), and then the lines end; writing
/// those lines without options gives the script again.
#[verifier::spinoff_prover]
#[verifier::rlimit(60)]
pub proof fn lemma_ass_read_write_round_trip(es: Seq<EventModel>)
    requires
        forall|i: int| 0 <= i < es.len() ==> canonical_event(#[trigger] es[i]),
    ensures
        ({
            let data = canonical_ass(es);
            let r = ass_run(ass_reader_at(data, 0, IterState::Init), 6 + es.len());
            &&& r matches Some((ls, m))
            &&& ls == ass_header_models() + event_models(es)
            &&& ass_lines_next(m).0 is None
            &&& ass_write_lines(ls, WriteOptions::plain()) matches Ok((out, _))
            &&& out == data
        }),
{
    let h = ass_header_lines();
    let ls = event_lines(es);
    let lines = h + ls;
    let data = canonical_ass(es);
    lemma_script_lines_free(es);
    assert(lines.len() == 6 + es.len());
    lemma_ass_read_prefix(lines, lines.len());
    assert(lines.take(lines.len() as int) =~= lines);
    lemma_read_events(es, es.len());
    assert(ls.take(es.len() as int) =~= ls);
    assert(event_models(es).take(es.len() as int) =~= event_models(es));
    let m = ass_reader_at(data, data.len() as int, IterState::Events(default_positions()));
    assert(ass_lines_next(m).0 is None);
    lemma_write_events(es, es.len());
}

/// An event of a script in written form converts to one SubRip block:
/// reading its line among the events gives a number line, the event's time
/// range, one text line for each piece of its text between `\N` or `\n`
/// breaks, and the blank line that ends the block.
pub proof fn lemma_ass_event_to_srt(
    a: Seq<u8>,
    e: EventModel,
    z: Seq<u8>,
    b0: Seq<u8>,
    ls: Seq<Seq<u8>>,
    small: Seq<bool>,
)
    requires
        canonical_event(e),
        ls.len() > 0,
        small.len() + 1 >= ls.len(),
        forall|i: int| 0 <= i < ls.len() ==> (#[trigger] ls[i]).len() > 0 && no_backslash(ls[i]),
        e.text == break_join(ls, small),
        e.text.len() < usize::MAX,
    ensures
        srt_run(
            SrtLinesModel {
                source: SourceModel::Ass(
                    a + (event_text_line(e) + newline() + z),
                    a.len() as int,
                    IterState::Events(default_positions()),
                ),
                buf: b0,
                trans: SrtTransIterState::Outside,
            },
            ls.len() + 3,
        ) == Some(
            (
                seq![
                    (Seq::<u8>::empty(), SrtLineType::Number),
                    (Seq::<u8>::empty(), SrtLineType::TimeRange((e.start, e.end))),
                ] + split_models(ls),
                SrtLinesModel {
                    source: SourceModel::Ass(
                        a + (event_text_line(e) + newline() + z),
                        (a.len() + event_text_line(e).len() + 1) as int,
                        IterState::Events(default_positions()),
                    ),
                    buf: e.text,
                    trans: SrtTransIterState::Outside,
                },
            ),
        ),
{
    let line = event_text_line(e);
    let data = a + (line + newline() + z);
    let dp = default_positions();
    let em: Seq<u8> = seq![];
    lemma_event_line_free(e);
    lemma_read_line(a, line, z);
    lemma_event_read_write_round_trip(e, AssWriteState::initial());
    let p2 = (a.len() + line.len() + 1) as int;
    assert(ass_next(data, a.len() as int, IterState::Events(dp)) == Some(
        (read_event(e), p2, IterState::Events(dp)),
    ));
    assert(ass_find_event(data, a.len() as int, IterState::Events(dp)) == (
        Some(EventModel { bytes: line, ..e }),
        p2,
        IterState::Events(dp),
    ));
    let src2 = SourceModel::Ass(data, p2, IterState::Events(dp));
    let m0 = SrtLinesModel {
        source: SourceModel::Ass(data, a.len() as int, IterState::Events(dp)),
        buf: b0,
        trans: SrtTransIterState::Outside,
    };
    let m1 = SrtLinesModel { source: src2, buf: e.text, trans: SrtTransIterState::TimeRange(e.start, e.end) };
    let m2 = SrtLinesModel { source: src2, buf: e.text, trans: SrtTransIterState::Text(0) };
    assert(srt_lines_next(m0) == (Some((em, SrtLineType::Number)), m1));
    assert(srt_lines_next(m1) == (Some((em, SrtLineType::TimeRange((e.start, e.end)))), m2));
    lemma_split_breaks(src2, ls, small);
    lemma_srt_run_cons(m1, ls.len() + 1);
    lemma_srt_run_cons(m0, ls.len() + 2);
    let tail = split_models(ls);
    assert(seq![(em, SrtLineType::Number)] + (seq![(em, SrtLineType::TimeRange((e.start, e.end)))] + tail) =~= seq![
        (em, SrtLineType::Number),
        (em, SrtLineType::TimeRange((e.start, e.end))),
    ] + tail);
}

} // verus!
