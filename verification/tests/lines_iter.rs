use player_subtitles::ass::line::{AssLine, ScriptInfo, SectionMark};
use player_subtitles::ass::time::AssTime;
use player_subtitles::ass::AssLines;
use player_subtitles::byte_helpers::{trim, trim_bom, trim_end, trim_start, words};
use player_subtitles::srt::it::SrtLines;
use player_subtitles::srt::{SrtLine, SrtLineType, SrtSubtitles};
use player_subtitles::vtt::it::VttLines;
use player_subtitles::vtt::{VttLine, VttLineType};
use player_subtitles::time::bufs::{AssTimeBuf, SrtTimeBuf, VttTimeBuf};
use player_subtitles::{ByteLines, StreamingIterator, Time, WriteOptions};

const SRT_ONE: &[u8] = b"1\n00:00:00,000 --> 00:00:05,000\nIt's simple subtitles\n";
const VTT_ONE: &[u8] = b"WEBVTT\n\n00:00:00.000 --> 00:00:05.000\nIt's simple subtitles\n";
const ASS_ONE: &[u8] = b"[Script Info]
ScriptType: v4.00+
WrapStyle: 0

[Events]
Format: Layer, Start, End, Style, Name, MarginL, MarginR, MarginV, Effect, Text
Dialogue: 0,0:00:00:00,0:00:05:00,Default,,0,0,0,,It's simple subtitles
";

fn t(h: u16, m: u8, s: u8, ms: u16) -> Time {
    Time::new_unchecked(h, m, s, ms)
}

#[test]
fn srt_iter() {
    let mut srt = SrtLines::from_bytes(SRT_ONE);
    assert_eq!(srt.next().unwrap().ty, SrtLineType::Number);
    assert_eq!(srt.next().unwrap().ty, SrtLineType::TimeRange((t(0, 0, 0, 0), t(0, 0, 5, 0))));
    let text = srt.next().unwrap();
    assert_eq!(text.ty, SrtLineType::Text);
    assert_eq!(text.raw, b"It's simple subtitles");
    assert!(srt.next().is_none());
    assert!(srt.next().is_none());
}

#[test]
fn srt_iter_skips_bom() {
    let mut data: Vec<u8> = "\u{feff}".as_bytes().to_vec();
    data.extend_from_slice(SRT_ONE);
    let mut srt = SrtLines::from_bytes(&data);
    let first = srt.next().unwrap();
    assert_eq!(first.ty, SrtLineType::Number);
    assert_eq!(first.raw, b"1");
}

#[test]
fn srt_iter_from_ass() {
    let mut srt = SrtLines::from_ass(AssLines::from_bytes(ASS_ONE));
    assert_eq!(srt.next().unwrap().ty, SrtLineType::Number);
    assert_eq!(srt.next().unwrap().ty, SrtLineType::TimeRange((t(0, 0, 0, 0), t(0, 0, 5, 0))));
    let text = srt.next().unwrap();
    assert_eq!(text.ty, SrtLineType::Text);
    assert_eq!(text.raw, b"It's simple subtitles");
    assert_eq!(srt.next().unwrap().ty, SrtLineType::Blank);
    assert!(srt.next().is_none());
}

#[test]
fn srt_iter_from_ass_splits_text_lines() {
    let data = b"[Script Info]\n[Events]\nFormat: Layer, Start, End, Style, Name, MarginL, MarginR, MarginV, Effect, Text\nDialogue: 0,0:00:01:00,0:00:02:00,Default,,0,0,0,,one\\Ntwo\n";
    let mut srt = SrtLines::from_ass(AssLines::from_bytes(data));
    assert_eq!(srt.next().unwrap().ty, SrtLineType::Number);
    assert_eq!(srt.next().unwrap().ty, SrtLineType::TimeRange((t(0, 0, 1, 0), t(0, 0, 2, 0))));
    assert_eq!(srt.next().unwrap().raw, b"one");
    assert_eq!(srt.next().unwrap().raw, b"two");
    assert_eq!(srt.next().unwrap().ty, SrtLineType::Blank);
    assert!(srt.next().is_none());
}

#[test]
fn srt_iter_from_vtt() {
    let mut srt = SrtLines::from_vtt(VttLines::from_bytes(VTT_ONE));
    assert_eq!(srt.next().unwrap().ty, SrtLineType::Number);
    assert_eq!(srt.next().unwrap().ty, SrtLineType::TimeRange((t(0, 0, 0, 0), t(0, 0, 5, 0))));
    assert_eq!(srt.next().unwrap().ty, SrtLineType::Text);
    assert_eq!(srt.next().unwrap().ty, SrtLineType::Blank);
    assert!(srt.next().is_none());
}

#[test]
fn vtt_iter() {
    let mut vtt = VttLines::from_bytes(VTT_ONE);
    assert_eq!(vtt.next().unwrap().ty, VttLineType::VttFileMark);
    assert_eq!(vtt.next().unwrap().ty, VttLineType::Blank);
    assert_eq!(
        vtt.next().unwrap().ty,
        VttLineType::TimeRangeAndStyle((t(0, 0, 0, 0), t(0, 0, 5, 0)))
    );
    assert_eq!(vtt.next().unwrap().ty, VttLineType::Text);
    assert!(vtt.next().is_none());
}

#[test]
fn vtt_iter_note_and_cue_id() {
    let data = b"WEBVTT\n\nNOTE  a note\n\nintro\n00:00:01.000 --> 00:00:02.000\n{\"k\": 1}\n";
    let mut vtt = VttLines::from_bytes(data);
    assert_eq!(vtt.next().unwrap().ty, VttLineType::VttFileMark);
    assert_eq!(vtt.next().unwrap().ty, VttLineType::Blank);
    let note = vtt.next().unwrap();
    assert_eq!(note.ty, VttLineType::Comment(6));
    assert_eq!(note.comment_text().unwrap(), b"a note");
    assert_eq!(vtt.next().unwrap().ty, VttLineType::Blank);
    assert_eq!(vtt.next().unwrap().ty, VttLineType::CueId);
    assert_eq!(
        vtt.next().unwrap().ty,
        VttLineType::TimeRangeAndStyle((t(0, 0, 1, 0), t(0, 0, 2, 0)))
    );
    assert_eq!(vtt.next().unwrap().ty, VttLineType::Metadata);
    assert!(vtt.next().is_none());
}

#[test]
fn vtt_iter_from_srt() {
    let mut vtt = VttLines::from_srt(SrtLines::from_bytes(SRT_ONE));
    assert_eq!(vtt.next().unwrap().ty, VttLineType::VttFileMark);
    assert_eq!(vtt.next().unwrap().ty, VttLineType::Blank);
    assert_eq!(vtt.next().unwrap().ty, VttLineType::CueId);
    assert_eq!(
        vtt.next().unwrap().ty,
        VttLineType::TimeRangeAndStyle((t(0, 0, 0, 0), t(0, 0, 5, 0)))
    );
    assert_eq!(vtt.next().unwrap().ty, VttLineType::Text);
    assert!(vtt.next().is_none());
}

#[test]
fn ass_iter() {
    let mut ass = AssLines::from_bytes(ASS_ONE);
    assert_eq!(ass.next().unwrap(), AssLine::SectionMark(SectionMark::ScriptInfo));
    assert!(matches!(ass.next().unwrap(), AssLine::ScriptInfo(ScriptInfo::ScriptType(_))));
    assert!(matches!(ass.next().unwrap(), AssLine::ScriptInfo(ScriptInfo::WrapStyle(_))));
    assert_eq!(ass.next().unwrap(), AssLine::Blank);
    assert_eq!(ass.next().unwrap(), AssLine::SectionMark(SectionMark::Events));
    assert!(matches!(ass.next().unwrap(), AssLine::EventFormat(_)));
    match ass.next().unwrap() {
        AssLine::Event(e) => {
            assert_eq!(e.start, t(0, 0, 0, 0));
            assert_eq!(e.end, t(0, 0, 5, 0));
            assert_eq!(e.text, b"It's simple subtitles");
            assert_eq!(e.style_name, b"Default");
        }
        other => panic!("not an event: {:?}", other),
    }
    assert!(ass.next().is_none());
}

#[test]
fn ass_iter_unrecognized_section() {
    let mut ass = AssLines::from_bytes(b"[Script Info]\n[Other]\nx\n");
    assert_eq!(ass.next().unwrap(), AssLine::SectionMark(SectionMark::ScriptInfo));
    assert_eq!(ass.next().unwrap(), AssLine::Unrecognized(b"[Other]".to_vec()));
    assert_eq!(ass.next().unwrap(), AssLine::Unrecognized(b"x".to_vec()));
    assert!(ass.next().is_none());
}

#[test]
fn ass_iter_from_srt_joins_text() {
    let data = b"1\n00:00:01,000 --> 00:00:02,000\none\ntwo\n\n";
    let mut ass = AssLines::from_srt(SrtLines::from_bytes(data));
    for _ in 0..6 {
        assert!(!matches!(ass.next().unwrap(), AssLine::Event(_)));
    }
    match ass.next().unwrap() {
        AssLine::Event(e) => {
            assert_eq!(e.start, t(0, 0, 1, 0));
            assert_eq!(e.end, t(0, 0, 2, 0));
            assert_eq!(e.text, b"one\\ntwo");
        }
        other => panic!("not an event: {:?}", other),
    }
    assert!(ass.next().is_none());
}

#[test]
fn ass_iter_from_srt_time_range_after_text() {
    let data = b"1\n00:00:01,000 --> 00:00:02,000\none\n00:00:03,000 --> 00:00:04,000\ntwo\n";
    let mut ass = AssLines::from_srt(SrtLines::from_bytes(data));
    for _ in 0..6 {
        ass.next().unwrap();
    }
    match ass.next().unwrap() {
        AssLine::Event(e) => {
            assert_eq!(e.start, t(0, 0, 1, 0));
            assert_eq!(e.text, b"one");
        }
        other => panic!("not an event: {:?}", other),
    }
    match ass.next().unwrap() {
        AssLine::Event(e) => {
            assert_eq!(e.start, t(0, 0, 3, 0));
            assert_eq!(e.text, b"two");
        }
        other => panic!("not an event: {:?}", other),
    }
    assert!(ass.next().is_none());
}

#[test]
fn streaming_iterator_next() {
    let mut lines = ByteLines::from_bytes(b"a\r\nb\rc\n");
    assert_eq!(StreamingIterator::next(&mut lines).unwrap(), b"a");
    assert_eq!(StreamingIterator::next(&mut lines).unwrap(), b"b");
    assert_eq!(StreamingIterator::next(&mut lines).unwrap(), b"c");
    assert!(StreamingIterator::next(&mut lines).is_none());
    let mut srt = SrtLines::from_bytes(SRT_ONE);
    assert_eq!(StreamingIterator::next(&mut srt).unwrap().ty, SrtLineType::Number);
}

#[test]
fn byte_lines_from_str() {
    let mut lines = ByteLines::from_str("x\n\ny");
    assert_eq!(lines.next().unwrap(), b"x");
    assert_eq!(lines.next().unwrap(), b"");
    assert_eq!(lines.next().unwrap(), b"y");
    assert!(lines.next().is_none());
}

#[test]
fn convert_round_trip() {
    let ass = AssLines::from_bytes(ASS_ONE);
    let mut back = AssLines::from_srt(SrtLines::from_ass(ass));
    assert_eq!(back.write_to_bytes_with(&WriteOptions::new()).unwrap(), ASS_ONE);
    let vtt = VttLines::from_bytes(VTT_ONE);
    let mut back = VttLines::from_ass(AssLines::from_vtt(vtt));
    assert_eq!(back.write_to_bytes_with(&WriteOptions::new()).unwrap(), VTT_ONE);
}

#[test]
fn subtitles_keep_bytes() {
    let data: &[u8] = b"1\r\n00:00:00,000 --> 00:00:05,000\r\n text \n\n\nx";
    let subs = SrtSubtitles::from_bytes(data);
    let joined: Vec<u8> = subs.0.iter().flat_map(|l| l.raw.iter().copied()).collect();
    assert_eq!(joined, data);
    assert_eq!(subs.0.last().unwrap().ty, SrtLineType::Blank);
    assert!(subs.0.last().unwrap().raw.is_empty());
}

#[test]
fn standardize_gives_standard() {
    let data: &[u8] = b"\n\n00:00:07,000 --> 00:00:08,000\nlater\n2\n00:00:01,000 --> 00:00:02,000\nfirst\n\nstray\n";
    let subs = SrtSubtitles::from_bytes(data);
    assert!(subs.validate().is_err());
    let std = subs.standardize().unwrap();
    assert!(std.validate().is_ok());
}

#[test]
fn standardize_sorts_by_times() {
    let data: &[u8] = b"1\n00:00:07,000 --> 00:00:08,000\nlater\n\n2\n00:00:01,000 --> 00:00:02,000\nfirst\n\n";
    let std = SrtSubtitles::from_bytes(data).standardize().unwrap();
    assert_eq!(std.0[1].ty, SrtLineType::TimeRange((t(0, 0, 1, 0), t(0, 0, 2, 0))));
    assert_eq!(std.0[5].ty, SrtLineType::TimeRange((t(0, 0, 7, 0), t(0, 0, 8, 0))));
    assert!(std.validate().is_ok());
}

#[test]
fn standardize_drops_block_with_text_before_time_range() {
    let data: &[u8] = b"note\n00:00:01,000 --> 00:00:02,000\nx\n\n";
    assert!(SrtSubtitles::from_bytes(data).standardize().is_err());
    let more: &[u8] = b"note\n00:00:01,000 --> 00:00:02,000\nx\n\n2\n00:00:03,000 --> 00:00:04,000\ny\n";
    let std = SrtSubtitles::from_bytes(more).standardize().unwrap();
    assert_eq!(std.0[0].ty, SrtLineType::Number);
    assert_eq!(std.0[0].raw, b"2\n");
    assert!(std.validate().is_ok());
}

#[test]
fn standardize_nothing_standard() {
    let r = SrtSubtitles::from_bytes(b"x\ny\n").standardize();
    assert!(r.is_err());
}

#[test]
fn time_add_then_sub() {
    let a = t(1, 59, 59, 999);
    let b = t(0, 0, 0, 1);
    let s = a.checked_add(b).unwrap();
    assert_eq!(s, t(2, 0, 0, 0));
    assert_eq!(s.checked_sub(b).unwrap(), a);
    assert!(t(0, 0, 0, 0).checked_sub(b).is_none());
    assert!(t(65535, 59, 59, 999).checked_add(b).is_none());
}

#[test]
fn time_new_errors() {
    assert!(Time::new(0, 60, 0, 0).is_err());
    assert!(Time::new(0, 0, 60, 0).is_err());
    assert!(Time::new(0, 0, 0, 1000).is_err());
    assert_eq!(Time::new(1, 2, 3, 4).unwrap(), t(1, 2, 3, 4));
}

#[test]
fn time_to_srt() {
    assert_eq!(t(1, 2, 3, 4).to_srt(), b"01:02:03,004");
    assert_eq!(Time::from_secs_and_millis(3723, 5), t(1, 2, 3, 5));
    assert_eq!(Time::from_duration(std::time::Duration::from_millis(3_723_005)), t(1, 2, 3, 5));
}

#[test]
fn time_order() {
    assert!(t(0, 0, 1, 0).is_before(&t(0, 0, 1, 1)));
    assert!(!t(0, 1, 0, 0).is_before(&t(0, 0, 59, 999)));
    assert!(t(0, 1, 0, 0).is_at_or_before(&t(0, 1, 0, 0)));
}

#[test]
fn helpers_trim() {
    assert_eq!(trim(b" \tabc \r\n"), b"abc");
    assert_eq!(trim_start(b"  a "), b"a ");
    assert_eq!(trim_end(b" a  "), b" a");
    assert_eq!(trim(b"   "), b"");
    let mut bom: Vec<u8> = "\u{feff}".as_bytes().to_vec();
    bom.extend_from_slice(b"x");
    assert_eq!(trim_bom(&bom), b"x");
    assert_eq!(trim_bom(b"x"), b"x");
}

#[test]
fn helpers_words() {
    assert_eq!(words(b"  one two\tthree "), vec![b"one".to_vec(), b"two".to_vec(), b"three".to_vec()]);
    assert!(words(b"   ").is_empty());
}

#[test]
fn time_assign_ops() {
    let mut a = t(0, 0, 59, 500);
    a.add_assign(t(0, 0, 0, 600));
    assert_eq!(a, t(0, 1, 0, 100));
    a.sub_assign(t(0, 0, 0, 200));
    assert_eq!(a, t(0, 0, 59, 900));
}

#[test]
fn ass_time_format() {
    let mut at = AssTime::new(t(12, 3, 4, 560));
    assert_eq!(at.format_using(), b"9:03:04:56");
    let mut ab = AssTimeBuf::new();
    assert_eq!(ab.format_time(t(1, 2, 3, 40)), b"1:02:03:04");
    let mut small = AssTime::new(t(0, 0, 5, 50));
    assert_eq!(small.format_using(), b"0:00:05:05");
    assert_eq!(ab.format_time(t(1, 2, 3, 450)), b"1:02:03:45");
    let mut sb = SrtTimeBuf::new();
    assert_eq!(sb.0.format_time(t(123, 2, 3, 4)), b"99:02:03,004");
    let mut vb = VttTimeBuf::new();
    assert_eq!(vb.0.format_time(t(1, 2, 3, 4)), b"01:02:03.004");
}

#[test]
fn standardize_twice_is_once() {
    let data: &[u8] = b"\n00:00:07,000 --> 00:00:08,000\nlater\n\n2\n00:00:01,000 --> 00:00:02,000\nfirst\n\njunk\n";
    let once = SrtSubtitles::from_bytes(data).standardize().unwrap();
    let twice = once.clone().standardize().unwrap();
    assert_eq!(once, twice);
}

#[test]
fn validate_reports_first_fault() {
    let data: &[u8] = b"1\n00:00:01,000 --> 00:00:02,000\nx\n\n2\n00:00:03,000 --> 00:00:04,000\n\n";
    let r = SrtSubtitles::from_bytes(data).validate();
    assert!(matches!(r, Err(player_subtitles::Error::NonStandardBlock((4, "length < 4")))));
    let r = SrtSubtitles::try_from_bytes(b"1\n00:00:02,000 --> 00:00:01,000\nx\n\n");
    assert!(matches!(r, Err(player_subtitles::Error::NonStandardBlock((0, "start time > end time")))));
}

#[test]
fn iter_cp1251_srt_file() {
    let text: [u8; 15] = [99, 112, 49, 50, 53, 49, 32, 241, 243, 225, 242, 232, 242, 240, 251];
    let mut data: Vec<u8> = b"1\r\n00:00:00,000 --> 00:00:05,000\r\n".to_vec();
    data.extend_from_slice(&text);
    data.extend_from_slice(b"\r\n");
    let mut lines = SrtLines::from_bytes(&data);
    for s in ["1", "00:00:00,000 --> 00:00:05,000"] {
        let l = player_subtitles::srt::SrtLine::new(s.as_bytes());
        assert_eq!(lines.next().unwrap(), l);
    }
    let l = player_subtitles::srt::SrtLine::new(&text);
    assert_eq!(lines.next().unwrap(), l);
    assert!(lines.next().is_none());
}

#[test]
fn ass_styles_marks_keep_their_spelling() {
    let data: &[u8] = b"[V4+ Styles]\n[v4 Styles+]\n";
    let mut ass = AssLines::from_bytes(data);
    let first = ass.next().unwrap();
    assert_eq!(first, AssLine::SectionMark(SectionMark::V4PlusStyles));
    assert_eq!(first.as_bytes(), b"[V4+ Styles]");
    let second = ass.next().unwrap();
    assert_eq!(second, AssLine::SectionMark(SectionMark::V4StylesPlus));
    assert_eq!(second.as_bytes(), b"[v4 Styles+]");
    let out = AssLines::from_bytes(data).write_to_bytes_with(&WriteOptions::new()).unwrap();
    assert_eq!(out, data);
}

#[test]
fn time_from_duration() {
    let d = std::time::Duration::from_millis(3_723_456);
    assert_eq!(Time::from_duration(d), t(1, 2, 3, 456));
    assert_eq!(t(0, 0, 1, 0).add_duration(d), t(1, 2, 4, 456));
    assert_eq!(t(2, 0, 0, 0).sub_duration(d), t(0, 57, 56, 544));
    assert_eq!(t(0, 0, 1, 0).checked_sub_duration(d), None);
    assert_eq!(t(0, 0, 1, 0).checked_add_duration(d), Some(t(1, 2, 4, 456)));
}

#[test]
fn find_first_accepted_line() {
    let mut bl = ByteLines::from_bytes(b"a\nbb\nc\nbb\n");
    assert_eq!(bl.find(|l: &[u8]| l.len() == 2), Some(&b"bb"[..]));
    assert_eq!(bl.next(), Some(&b"c"[..]));
    assert_eq!(bl.find(|l: &[u8]| l == b"zz"), None);
    assert_eq!(bl.next(), None);

    let mut srt = SrtLines::from_bytes(SRT_ONE);
    let text = srt.find(|l: &SrtLine| l.ty == SrtLineType::Text).unwrap();
    assert_eq!(text.raw, b"It's simple subtitles");
    assert!(srt.find(|_: &SrtLine| true).is_none());

    let mut vtt = VttLines::from_bytes(VTT_ONE);
    let text = vtt.find(|l: &VttLine| l.ty == VttLineType::Text).unwrap();
    assert_eq!(text.raw, b"It's simple subtitles");

    let mut ass = AssLines::from_bytes(ASS_ONE);
    match ass.find(|l: &AssLine| matches!(l, AssLine::Event(_))) {
        Some(AssLine::Event(e)) => assert_eq!(e.text, b"It's simple subtitles"),
        other => panic!("not an event: {:?}", other),
    }
    assert!(ass.find(|_: &AssLine| true).is_none());
}

#[test]
fn standardize_sort_is_stable_and_keeps_bytes() {
    let data: &[u8] = b"1\n00:00:05,000 --> 00:00:06,000\nfirst\n\n2\n00:00:01,000 --> 00:00:02,000\nearly\n\n3\n00:00:05,000 --> 00:00:06,000\nsecond\n";
    let std = SrtSubtitles::from_bytes(data).standardize().unwrap();
    let raws: Vec<&[u8]> = std.0.iter().map(|l| l.raw.as_slice()).collect();
    assert_eq!(
        raws,
        vec![
            &b"2\n"[..],
            b"00:00:01,000 --> 00:00:02,000\n",
            b"early\n",
            b"\n",
            b"1\n",
            b"00:00:05,000 --> 00:00:06,000\n",
            b"first\n",
            b"\n",
            b"3\n",
            b"00:00:05,000 --> 00:00:06,000\n",
            b"second\n",
            b"",
        ]
    );
}

#[test]
fn ass_from_srt_keeps_text_before_time_range() {
    let data: &[u8] = b"1\n00:00:05,000 --> 00:00:10,000\nFirst\nblock\n00:00:10,000 --> 00:00:15,000\nSecond\n";
    let mut ass = AssLines::from_srt(SrtLines::from_bytes(data));
    for _ in 0..6 {
        ass.next().unwrap();
    }
    match ass.next().unwrap() {
        AssLine::Event(e) => {
            assert_eq!((e.start, e.end), (t(0, 0, 5, 0), t(0, 0, 10, 0)));
            assert_eq!(e.text, b"First\\nblock");
        }
        other => panic!("not an event: {:?}", other),
    }
    match ass.next().unwrap() {
        AssLine::Event(e) => {
            assert_eq!((e.start, e.end), (t(0, 0, 10, 0), t(0, 0, 15, 0)));
            assert_eq!(e.text, b"Second");
        }
        other => panic!("not an event: {:?}", other),
    }
    assert!(ass.next().is_none());
}
