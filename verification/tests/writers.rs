use player_subtitles::ass::AssLines;
use player_subtitles::srt::it::SrtLines;
use player_subtitles::vtt::it::VttLines;
use player_subtitles::{Error, Time, WriteOptions};

const SRT_SIMPLE: &[u8] = b"1
00:00:05,000 --> 00:00:10,000
First block

2
00:00:10,000 --> 00:00:15,000
Second block
";

const VTT_SIMPLE: &[u8] = b"WEBVTT

00:00:05.000 --> 00:00:10.000
First block

00:00:10.000 --> 00:00:15.000
Second block
";

const ASS_SIMPLE: &[u8] = b"[Script Info]
ScriptType: v4.00+
WrapStyle: 0

[Events]
Format: Layer, Start, End, Style, Name, MarginL, MarginR, MarginV, Effect, Text
Dialogue: 0,0:00:05:00,0:00:10:00,Default,,0,0,0,,First block
Dialogue: 0,0:00:10:00,0:00:15:00,Default,,0,0,0,,Second block
";

fn bom_then(data: &[u8]) -> Vec<u8> {
    let mut v: Vec<u8> = "\u{feff}".as_bytes().to_vec();
    v.extend_from_slice(data);
    v
}

fn opts_with(f: impl FnOnce(&mut WriteOptions)) -> WriteOptions {
    let mut opts = WriteOptions::new();
    f(&mut opts);
    opts
}

fn srt_out(opts: &WriteOptions) -> Vec<u8> {
    SrtLines::from_bytes(SRT_SIMPLE).write_to_bytes_with(opts).unwrap()
}

fn vtt_out(opts: &WriteOptions) -> Vec<u8> {
    VttLines::from_bytes(VTT_SIMPLE).write_to_bytes_with(opts).unwrap()
}

fn ass_out(opts: &WriteOptions) -> Vec<u8> {
    AssLines::from_bytes(ASS_SIMPLE).write_to_bytes_with(opts).unwrap()
}

#[test]
fn srt_write() {
    assert_eq!(srt_out(&WriteOptions::new()), SRT_SIMPLE);
}

#[test]
fn srt_write_with_bom() {
    assert_eq!(srt_out(&opts_with(|o| o.bom = true)), bom_then(SRT_SIMPLE));
}

#[test]
fn srt_write_with_start() {
    let opts = opts_with(|o| o.start = Some(Time::new_unchecked(0, 0, 10, 0)));
    assert_eq!(srt_out(&opts), b"1\n00:00:10,000 --> 00:00:15,000\nSecond block\n");
}

#[test]
fn srt_write_with_end() {
    let opts = opts_with(|o| o.end = Some(Time::new_unchecked(0, 0, 10, 0)));
    assert_eq!(srt_out(&opts), b"1\n00:00:05,000 --> 00:00:10,000\nFirst block\n");
}

#[test]
fn srt_write_with_add_time() {
    let opts = opts_with(|o| o.add_time = Some(Time::new_unchecked(0, 0, 5, 0)));
    let expected: &[u8] = b"1
00:00:10,000 --> 00:00:15,000
First block

2
00:00:15,000 --> 00:00:20,000
Second block
";
    assert_eq!(srt_out(&opts), expected);
}

#[test]
fn srt_write_with_sub_time() {
    let opts = opts_with(|o| o.sub_time = Some(Time::new_unchecked(0, 0, 5, 0)));
    let expected: &[u8] = b"1
00:00:00,000 --> 00:00:05,000
First block

2
00:00:05,000 --> 00:00:10,000
Second block
";
    assert_eq!(srt_out(&opts), expected);
}

#[test]
fn srt_write_with_sub_time_below_zero() {
    let opts = opts_with(|o| o.sub_time = Some(Time::new_unchecked(0, 0, 6, 0)));
    let r = SrtLines::from_bytes(SRT_SIMPLE).write_to_bytes_with(&opts);
    assert!(matches!(r, Err(Error::ValueValidation("time out of range"))));
}

#[test]
fn srt_write_from_ass() {
    let mut srt = SrtLines::from_ass(AssLines::from_bytes(ASS_SIMPLE));
    assert_eq!(srt.write_to_bytes_with(&WriteOptions::new()).unwrap(), SRT_SIMPLE);
}

#[test]
fn srt_write_from_vtt() {
    let mut srt = SrtLines::from_vtt(VttLines::from_bytes(VTT_SIMPLE));
    assert_eq!(srt.write_to_bytes_with(&WriteOptions::new()).unwrap(), SRT_SIMPLE);
}

#[test]
fn srt_write_drops_lines_outside_blocks() {
    let data: &[u8] = b"stray\n\n1\n00:00:01,000 --> 00:00:02,000\nx\n";
    let out = SrtLines::from_bytes(data).write_to_bytes_with(&WriteOptions::new()).unwrap();
    assert_eq!(out, b"1\n00:00:01,000 --> 00:00:02,000\nx\n");
}

#[test]
fn vtt_write() {
    assert_eq!(vtt_out(&WriteOptions::new()), VTT_SIMPLE);
}

#[test]
fn vtt_write_with_bom() {
    assert_eq!(vtt_out(&opts_with(|o| o.bom = true)), bom_then(VTT_SIMPLE));
}

#[test]
fn vtt_write_with_start() {
    let opts = opts_with(|o| o.start = Some(Time::new_unchecked(0, 0, 10, 0)));
    assert_eq!(vtt_out(&opts), b"WEBVTT\n\n00:00:10.000 --> 00:00:15.000\nSecond block\n");
}

#[test]
fn vtt_write_with_end() {
    let opts = opts_with(|o| o.end = Some(Time::new_unchecked(0, 0, 10, 0)));
    assert_eq!(vtt_out(&opts), b"WEBVTT\n\n00:00:05.000 --> 00:00:10.000\nFirst block\n\n");
}

#[test]
fn vtt_write_with_add_time() {
    let opts = opts_with(|o| o.add_time = Some(Time::new_unchecked(0, 0, 5, 0)));
    let expected: &[u8] = b"WEBVTT

00:00:10.000 --> 00:00:15.000
First block

00:00:15.000 --> 00:00:20.000
Second block
";
    assert_eq!(vtt_out(&opts), expected);
}

#[test]
fn vtt_write_with_sub_time() {
    let opts = opts_with(|o| o.sub_time = Some(Time::new_unchecked(0, 0, 5, 0)));
    let expected: &[u8] = b"WEBVTT

00:00:00.000 --> 00:00:05.000
First block

00:00:05.000 --> 00:00:10.000
Second block
";
    assert_eq!(vtt_out(&opts), expected);
}

#[test]
fn vtt_write_from_ass() {
    let mut vtt = VttLines::from_ass(AssLines::from_bytes(ASS_SIMPLE));
    let mut expected = VTT_SIMPLE.to_vec();
    expected.push(b'\n');
    assert_eq!(vtt.write_to_bytes_with(&WriteOptions::new()).unwrap(), expected);
}

#[test]
fn vtt_write_from_srt() {
    let mut vtt = VttLines::from_srt(SrtLines::from_bytes(SRT_SIMPLE));
    let expected: &[u8] = b"WEBVTT

1
00:00:05.000 --> 00:00:10.000
First block

2
00:00:10.000 --> 00:00:15.000
Second block
";
    assert_eq!(vtt.write_to_bytes_with(&WriteOptions::new()).unwrap(), expected);
}

#[test]
fn vtt_write_keeps_cue_id_with_times() {
    let data: &[u8] = b"WEBVTT\n\nintro\n00:00:01.000 --> 00:00:02.000\nhi\n";
    let opts = opts_with(|o| o.add_time = Some(Time::new_unchecked(0, 0, 1, 0)));
    let out = VttLines::from_bytes(data).write_to_bytes_with(&opts).unwrap();
    assert_eq!(out, b"WEBVTT\n\nintro\n00:00:02.000 --> 00:00:03.000\nhi\n");
}

#[test]
fn ass_write() {
    assert_eq!(ass_out(&WriteOptions::new()), ASS_SIMPLE);
}

#[test]
fn ass_write_with_bom() {
    assert_eq!(ass_out(&opts_with(|o| o.bom = true)), bom_then(ASS_SIMPLE));
}

const ASS_HEADER: &[u8] = b"[Script Info]
ScriptType: v4.00+
WrapStyle: 0

[Events]
Format: Layer, Start, End, Style, Name, MarginL, MarginR, MarginV, Effect, Text
";

fn ass_with_events(events: &[u8]) -> Vec<u8> {
    let mut v = ASS_HEADER.to_vec();
    v.extend_from_slice(events);
    v
}

#[test]
fn ass_write_with_start() {
    let opts = opts_with(|o| o.start = Some(Time::new_unchecked(0, 0, 10, 0)));
    let expected =
        ass_with_events(b"Dialogue: 0,0:00:10:00,0:00:15:00,Default,,0,0,0,,Second block\n");
    assert_eq!(ass_out(&opts), expected);
}

#[test]
fn ass_write_with_end() {
    let opts = opts_with(|o| o.end = Some(Time::new_unchecked(0, 0, 10, 0)));
    let expected =
        ass_with_events(b"Dialogue: 0,0:00:05:00,0:00:10:00,Default,,0,0,0,,First block\n");
    assert_eq!(ass_out(&opts), expected);
}

#[test]
fn ass_write_with_add_time() {
    let opts = opts_with(|o| o.add_time = Some(Time::new_unchecked(0, 0, 5, 0)));
    let expected = ass_with_events(
        b"Dialogue: 0,0:00:10:00,0:00:15:00,Default,,0,0,0,,First block
Dialogue: 0,0:00:15:00,0:00:20:00,Default,,0,0,0,,Second block
",
    );
    assert_eq!(ass_out(&opts), expected);
}

#[test]
fn ass_write_with_sub_time() {
    let opts = opts_with(|o| o.sub_time = Some(Time::new_unchecked(0, 0, 5, 0)));
    let expected = ass_with_events(
        b"Dialogue: 0,0:00:00:00,0:00:05:00,Default,,0,0,0,,First block
Dialogue: 0,0:00:05:00,0:00:10:00,Default,,0,0,0,,Second block
",
    );
    assert_eq!(ass_out(&opts), expected);
}

#[test]
fn ass_write_from_srt() {
    let mut ass = AssLines::from_srt(SrtLines::from_bytes(SRT_SIMPLE));
    assert_eq!(ass.write_to_bytes_with(&WriteOptions::new()).unwrap(), ASS_SIMPLE);
}

#[test]
fn ass_write_from_vtt() {
    let mut ass = AssLines::from_vtt(VttLines::from_bytes(VTT_SIMPLE));
    assert_eq!(ass.write_to_bytes_with(&WriteOptions::new()).unwrap(), ASS_SIMPLE);
}

#[test]
fn ass_write_joins_text_lines() {
    let data: &[u8] = b"1\n00:00:01,000 --> 00:00:02,000\n one \ntwo\n";
    let mut ass = AssLines::from_srt(SrtLines::from_bytes(data));
    let expected = ass_with_events(b"Dialogue: 0,0:00:01:00,0:00:02:00,Default,,0,0,0,,one\\ntwo\n");
    assert_eq!(ass.write_to_bytes_with(&WriteOptions::new()).unwrap(), expected);
}

#[test]
fn ass_write_merges_blank_lines() {
    let data: &[u8] = b"[Script Info]\n\n\n\n[Events]\n";
    let out = AssLines::from_bytes(data).write_to_bytes_with(&WriteOptions::new()).unwrap();
    assert_eq!(out, b"[Script Info]\n\n[Events]\n");
}

#[test]
fn ass_from_srt_lines() {
    let srt = SrtLines::from_bytes(SRT_SIMPLE);
    let mut ass = AssLines::from_srt(srt);
    assert!(ass.write_to_bytes_with(&WriteOptions::new()).is_ok());
}

#[test]
fn from_vtt_lines() {
    let vtt = VttLines::from_bytes(VTT_SIMPLE);
    let mut ass = AssLines::from_vtt(vtt);
    assert!(ass.write_to_bytes_with(&WriteOptions::new()).is_ok());
}

#[test]
fn vtt_from_srt_lines() {
    let srt = SrtLines::from_bytes(SRT_SIMPLE);
    let mut vtt = VttLines::from_srt(srt);
    assert!(vtt.write_to_bytes_with(&WriteOptions::new()).is_ok());
}

#[test]
fn srt_read_write_round_trip() {
    let data: &[u8] = b"1
00:00:01,000 --> 00:00:02,500
hello
42

2
01:02:03,004 --> 99:59:59,999
<i>last</i> line
";
    let out = SrtLines::from_bytes(data).write_to_bytes_with(&WriteOptions::new()).unwrap();
    assert_eq!(out, data);
}

#[test]
fn vtt_read_write_round_trip() {
    let data: &[u8] = b"WEBVTT

NOTE a note

intro
00:00:01.000 --> 00:00:02.000 align:start
first line
second line

00:00:03.000 --> 00:00:04.000
{\"k\": 1}
";
    let out = VttLines::from_bytes(data).write_to_bytes_with(&WriteOptions::new()).unwrap();
    assert_eq!(out, data);
}

#[test]
fn ass_write_keeps_hundredths() {
    let data = ass_with_events(b"Dialogue: 0,0:00:05:05,0:00:10:00,Default,,0,0,0,,x\n");
    let out = AssLines::from_bytes(&data).write_to_bytes_with(&WriteOptions::new()).unwrap();
    assert_eq!(out, data);
}

#[test]
fn ass_read_write_round_trip() {
    let data = ass_with_events(
        b"Dialogue: 0,0:00:01:00,0:00:02:50,Default,,0,0,0,,Hello there\nDialogue: 2,1:02:03:04,9:59:59:99,Sign,Narrator,10,20,30,,Second {\\i1}line\n",
    );
    let out = AssLines::from_bytes(&data).write_to_bytes_with(&WriteOptions::new()).unwrap();
    assert_eq!(out, data);
}
