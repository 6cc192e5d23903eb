use player_subtitles::srt::{SrtBlock, SrtLine, SrtLineType, SrtSubtitles};
use player_subtitles::Time;

fn line(s: &str) -> SrtLine {
    SrtLine::new(s.as_bytes())
}

fn new_with_ty(s: &'static str, ty: SrtLineType) -> SrtLine {
    SrtLine::new_with_ty(s.as_bytes(), ty)
}

fn new_standard() -> SrtSubtitles {
    SrtSubtitles(vec![
        line("1\n"),
        line("00:00:00,000 --> 00:00:05,000\n"),
        line("It's simple srt subtitles\n"),
        line("\n"),
    ])
}

#[test]
fn line_new_blank() {
    ["", " ", "\n", "\r\n", "\r", "\t"].iter().for_each(|s| {
        let l = line(s);
        assert_eq!(s.as_bytes(), &*l.raw);
        assert_eq!(SrtLineType::Blank, l.ty);
    })
}

#[test]
fn line_new_number() {
    ["0", "4", " 0 ", "4\n", "\t4\n"].iter().for_each(|s| {
        let l = line(s);
        assert_eq!(s.as_bytes(), &*l.raw);
        assert_eq!(SrtLineType::Number, l.ty);
    })
}

#[test]
fn line_new_time_range() {
    [
        (
            "00:00:00,000 --> 00:00:05,000",
            Time::new_unchecked(0, 0, 0, 0),
            Time::new_unchecked(0, 0, 5, 0),
        ),
        (
            "12:45:55,657 --> 87:55:44,321",
            Time::new_unchecked(12, 45, 55, 657),
            Time::new_unchecked(87, 55, 44, 321),
        ),
    ]
    .into_iter()
    .for_each(|(s, start, end)| {
        let l = line(s);
        assert_eq!(s.as_bytes(), &*l.raw);
        assert_eq!(SrtLineType::TimeRange((start, end)), l.ty);
        assert_eq!(l.get_start(), Some(start));
        assert_eq!(l.get_end(), Some(end));
    })
}

#[test]
fn line_new_text() {
    ["x", "abc", " qwerty ", "text\n", "\tdef\n"]
        .iter()
        .for_each(|s| {
            let l = line(s);
            assert_eq!(s.as_bytes(), &*l.raw);
            assert_eq!(SrtLineType::Text, l.ty);
        })
}

#[test]
fn try_new_blank() {
    ["\n", "\r", "\t\n"].iter().for_each(|s| {
        let l = SrtLine::try_new(s.as_bytes()).unwrap();
        assert_eq!(s.as_bytes(), &*l.raw);
        assert_eq!(SrtLineType::Blank, l.ty);
    });

    ["", " ", "\n\n"].iter().for_each(|s| {
        SrtLine::try_new(s.as_bytes()).unwrap_err();
    })
}

#[test]
fn try_new_number() {
    ["0\n", "4\r", "\t4\n"].iter().for_each(|s| {
        let l = SrtLine::try_new(s.as_bytes()).unwrap();
        assert_eq!(s.as_bytes(), &*l.raw);
        assert_eq!(SrtLineType::Number, l.ty);
    });

    ["0", "4", "4\n\n"].iter().for_each(|s| {
        SrtLine::try_new(s.as_bytes()).unwrap_err();
    });
}

#[test]
fn try_new_time_range() {
    [
        (
            "00:00:00,000 --> 00:00:05,000\n",
            Time::new_unchecked(0, 0, 0, 0),
            Time::new_unchecked(0, 0, 5, 0),
        ),
        (
            "12:45:55,657 --> 87:55:44,321\r",
            Time::new_unchecked(12, 45, 55, 657),
            Time::new_unchecked(87, 55, 44, 321),
        ),
    ]
    .into_iter()
    .for_each(|(s, start, end)| {
        let l = SrtLine::try_new(s.as_bytes()).unwrap();
        assert_eq!(s.as_bytes(), &*l.raw);
        assert_eq!(SrtLineType::TimeRange((start, end)), l.ty);
    });

    [
        "00:00:00,000 --> 00:00:05,000",
        "00:00:00,000 --> 00:00:05,000\n\n",
        "00:00:05,000 --> 00:00:00,000\n",
        "100:00:00,000 --> 100:00:05,000\n",
    ]
    .into_iter()
    .for_each(|s| {
        SrtLine::try_new(s.as_bytes()).unwrap_err();
    })
}

#[test]
fn try_new_text() {
    ["x\n", "abc\r", " qwerty \n", "text\n", "\tdef\n"]
        .iter()
        .for_each(|s| {
            let l = SrtLine::try_new(s.as_bytes()).unwrap();
            assert_eq!(s.as_bytes(), &*l.raw);
            assert_eq!(SrtLineType::Text, l.ty);
        });

    ["x", "abc", " qwerty ", "text\n\n"].iter().for_each(|s| {
        SrtLine::try_new(s.as_bytes()).unwrap_err();
    })
}

#[test]
fn is_blank() {
    let blank = line("\n");
    assert!(SrtBlock(&[blank]).is_blank());

    [
        SrtLineType::Number,
        SrtLineType::Text,
        SrtLineType::TimeRange(Default::default()),
    ]
    .into_iter()
    .for_each(|ty| {
        let l = new_with_ty("", ty);
        assert!(!SrtBlock(&[l]).is_blank());
    })
}

#[test]
fn is_standard() {
    let mut srt = new_standard();
    assert!(SrtBlock(&srt.0[..]).is_standard());

    srt.0[3].ty = SrtLineType::Text;
    assert!(!SrtBlock(&srt.0[..]).is_standard());
    srt.0[3].ty = SrtLineType::Blank;

    for end in 0..3 {
        assert!(!SrtBlock(&srt.0[..end]).is_standard());
    }
}

#[test]
fn validate_standard() {
    let mut srt = new_standard();
    SrtBlock(&srt.0[..]).validate_standard().unwrap();

    srt.0[3].ty = SrtLineType::Text;
    SrtBlock(&srt.0[..]).validate_standard().unwrap_err();
    srt.0[3].ty = SrtLineType::Blank;

    for end in 0..3 {
        SrtBlock(&srt.0[..end]).validate_standard().unwrap_err();
    }
}

#[test]
fn from_bytes() {
    let srt = SrtSubtitles::from_bytes("1\nx".as_bytes());
    assert_eq!(srt.0.len(), 3);
    assert_eq!(srt.0[0], line("1\n"));
    assert_eq!(srt.0[1], line("x"));
    assert_eq!(srt.0[2], line(""));
}

#[test]
fn from_str() {
    let srt = SrtSubtitles::from_str("1\nx");
    assert_eq!(srt.0.len(), 3);
    assert_eq!(srt.0[0], line("1\n"));
    assert_eq!(srt.0[1], line("x"));
    assert_eq!(srt.0[2], line(""));
}

#[test]
fn try_from_bytes() {
    SrtSubtitles::try_from_bytes("1\nx".as_bytes()).unwrap_err();

    let srt =
        SrtSubtitles::try_from_bytes("1\n00:00:00,000 --> 00:00:05,000\nx\n\n".as_bytes()).unwrap();
    assert_eq!(srt.0.len(), 4);
    assert_eq!(srt.0[0], line("1\n"));
    assert_eq!(srt.0[1], line("00:00:00,000 --> 00:00:05,000\n"));
    assert_eq!(srt.0[2], line("x\n"));
    assert_eq!(srt.0[3], line("\n"));
}

#[test]
fn try_from_str() {
    SrtSubtitles::try_from_str("1\nx").unwrap_err();

    let srt = SrtSubtitles::try_from_str("1\n00:00:00,000 --> 00:00:05,000\nx\n\n").unwrap();
    assert_eq!(srt.0.len(), 4);
    assert_eq!(srt.0[0], line("1\n"));
    assert_eq!(srt.0[1], line("00:00:00,000 --> 00:00:05,000\n"));
    assert_eq!(srt.0[2], line("x\n"));
    assert_eq!(srt.0[3], line("\n"));
}

const SRT_FILE: &str = "1\n00:00:00,000 --> 00:00:05,000\nIt's simple srt subtitles\n";
const NON_STANDARD_FILE: &str = "00:00:00,000 --> 00:00:05,000\nIt's simple srt subtitles\n";

#[test]
fn read() {
    let srt = SrtSubtitles::from_bytes(SRT_FILE.as_bytes());
    assert_eq!(srt.0.len(), 4);
    assert_eq!(srt.0[0], line("1\n"));
    assert_eq!(srt.0[1], line("00:00:00,000 --> 00:00:05,000\n"));
    assert_eq!(srt.0[2], line("It's simple srt subtitles\n"));
    assert_eq!(srt.0[3], line(""));
}

#[test]
fn try_read() {
    let srt = SrtSubtitles::try_from_bytes(SRT_FILE.as_bytes()).unwrap();
    assert_eq!(srt.0.len(), 4);
    assert_eq!(srt.0[0], line("1\n"));
    assert_eq!(srt.0[1], line("00:00:00,000 --> 00:00:05,000\n"));
    assert_eq!(srt.0[2], line("It's simple srt subtitles\n"));
    assert_eq!(srt.0[3], line(""));
}

#[test]
fn read_non_standard() {
    let srt = SrtSubtitles::from_bytes(NON_STANDARD_FILE.as_bytes());
    assert_eq!(srt.0.len(), 3);
    assert_eq!(srt.0[0], line("00:00:00,000 --> 00:00:05,000\n"));
    assert_eq!(srt.0[1], line("It's simple srt subtitles\n"));
    assert_eq!(srt.0[2], line(""));
}

#[test]
fn try_read_non_standard() {
    SrtSubtitles::try_from_bytes(NON_STANDARD_FILE.as_bytes()).unwrap_err();
}

#[test]
fn already_standard() {
    assert_eq!(new_standard(), new_standard().standardize().unwrap());
}

#[test]
fn start_blanks() {
    let mut srt = new_standard();
    for _ in 0..4 {
        srt.0.insert(0, line(""));
    }
    assert_eq!(new_standard(), srt.standardize().unwrap());
}

#[test]
fn ty_line_after_time_range() {
    let mut srt = new_standard();
    srt.0[2].ty = SrtLineType::Number;
    assert_eq!(new_standard(), srt.standardize().unwrap());
}

#[test]
fn missing_number() {
    let mut srt = new_standard();
    srt.0.remove(0);
    let standardized = srt.standardize().unwrap();
    let new = new_standard();
    assert_eq!(new.0[0].ty, standardized.0[0].ty);
    assert_eq!(&new.0[1..], &standardized.0[1..]);
}

#[test]
fn missing_end_blank() {
    let mut srt = new_standard();
    srt.0.pop();
    let standardized = srt.standardize().unwrap();
    let new = new_standard();
    assert_eq!(new.0[3].ty, standardized.0[3].ty);
    assert_eq!(&new.0[..3], &standardized.0[..3]);
}

#[test]
fn time_tange_text_pair() {
    let mut srt = new_standard();
    srt.0.pop();
    srt.0.remove(0);
    let standardized = srt.standardize().unwrap();
    let new = new_standard();
    assert_eq!(new.0[0].ty, standardized.0[0].ty);
    assert_eq!(new.0[3].ty, standardized.0[3].ty);
    assert_eq!(&new.0[1..3], &standardized.0[1..3]);
}

#[test]
fn remove_non_standard() {
    let mut srt = new_standard();
    srt.0.push(line("x\n"));
    assert_eq!(new_standard(), srt.standardize().unwrap());
}

#[test]
fn sort_blocks_by_times() {
    let mut srt = new_standard();
    srt.0.push(line("00:00:00,000 --> 00:00:02,000\n"));
    srt.0.push(line("x\n"));
    let srt = srt.standardize().unwrap();
    assert_eq!(
        srt.0[1].ty,
        SrtLineType::TimeRange((
            Time::new_unchecked(0, 0, 0, 0),
            Time::new_unchecked(0, 0, 2, 0)
        ))
    );
    assert_eq!(
        srt.0[5].ty,
        SrtLineType::TimeRange((
            Time::new_unchecked(0, 0, 0, 0),
            Time::new_unchecked(0, 0, 5, 0)
        ))
    );
}

#[test]
fn standardize_nothing_kept() {
    let srt = SrtSubtitles::from_bytes(b"\n\nx\ny\n");
    assert!(srt.standardize().is_err());
}
