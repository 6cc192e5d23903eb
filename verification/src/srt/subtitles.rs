//! SubRip subtitles held as a list of lines: reading, validation and
//! standardization.
use crate::byte_lines::{get_slice_line, lemma_line_end_bounds, next_line_start};
use crate::error::{Error, Result};
use crate::srt::block::{block_fault, block_is_standard, SrtBlock};
use crate::srt::line::{is_standard_range, srt_line_type, SrtLine, SrtLineModel, SrtLineType};
use crate::time::Time;
use crate::vecs::{append_all, insert_at, lemma_skip_drop_first, lemma_take_push, push_back, take_first};
use vstd::prelude::*;
use vstd::string::StringSliceAdditionalSpecFns;

verus! {

/// SubRip subtitles: their lines, in order, each with its line break.
#[derive(Clone, Debug, PartialEq)]
pub struct SrtSubtitles(pub Vec<SrtLine>);

/// Where the line that starts at `i` ends, its line break included.
pub open spec fn raw_line_end(s: Seq<u8>, i: int) -> int {
    let e = next_line_start(s, i);
    if e > s.len() {
        s.len() as int
    } else {
        e
    }
}

/// The lines of `s` from `i` on, each with its line break, typed.
pub open spec fn line_models_from(s: Seq<u8>, i: int) -> Seq<SrtLineModel>
    decreases s.len() + 1 - i,
{
    if i < 0 || i >= s.len() {
        seq![]
    } else {
        proof {
            lemma_line_end_bounds(s, i);
        }
        let raw = s.subrange(i, raw_line_end(s, i));
        seq![(raw, srt_line_type(raw))] + line_models_from(s, next_line_start(s, i))
    }
}

/// The lines that reading `s` gives: its lines, each with its line break,
/// then an empty blank line unless the last line is blank.
pub open spec fn subtitles_spec(s: Seq<u8>) -> Seq<SrtLineModel> {
    let ls = line_models_from(s, 0);
    if ls.len() == 0 || !(ls.last().1 is Blank) {
        ls.push((seq![], SrtLineType::Blank))
    } else {
        ls
    }
}

/// Where the block that holds line `k - 1` ends: the first `j >= k` such that
/// line `j - 1` is blank and line `j` is not, or the number of lines.
pub open spec fn next_block_start(b: Seq<SrtLineModel>, k: int) -> int
    decreases b.len() - k,
{
    if k >= b.len() {
        b.len() as int
    } else if k >= 1 && b[k - 1].1 is Blank && !(b[k].1 is Blank) {
        k
    } else {
        next_block_start(b, k + 1)
    }
}

/// Every block of `b[i..]` is standard, a block being a run of non-blank
/// lines followed by its blank lines.
pub open spec fn blocks_standard_from(b: Seq<SrtLineModel>, i: int) -> bool
    decreases b.len() - i,
{
    if i < 0 || i >= b.len() {
        true
    } else {
        proof {
            lemma_next_block_start_bounds(b, i + 1);
        }
        let e = next_block_start(b, i + 1);
        block_is_standard(b.subrange(i, e)) && blocks_standard_from(b, e)
    }
}

/// The first block of `b[i..]` that is not standard: the index of its first
/// line and what is wrong with it.
pub open spec fn first_fault(b: Seq<SrtLineModel>, i: int) -> Option<(int, &'static str)>
    decreases b.len() - i,
{
    if i < 0 || i >= b.len() {
        None
    } else {
        proof {
            lemma_next_block_start_bounds(b, i + 1);
        }
        let e = next_block_start(b, i + 1);
        match block_fault(b.subrange(i, e)) {
            Some(m) => Some((i, m)),
            None => first_fault(b, e),
        }
    }
}

pub proof fn lemma_next_block_start_bounds(b: Seq<SrtLineModel>, k: int)
    ensures
        k <= b.len() ==> k <= next_block_start(b, k) <= b.len(),
        k > b.len() ==> next_block_start(b, k) == b.len(),
    decreases b.len() - k,
{
    if k < b.len() {
        lemma_next_block_start_bounds(b, k + 1);
    }
}

// ---- standardization -----------------------------------------------------

/// The line is blank.
pub open spec fn is_blank_model(l: SrtLineModel) -> bool {
    l.1 is Blank
}

/// The line is a standard time range.
pub open spec fn is_standard_tr_model(l: SrtLineModel) -> bool {
    l.1 matches SrtLineType::TimeRange(r) && is_standard_range(r)
}

/// Index of the first line of `b[i..]` that is not blank, or the length of `b`.
pub open spec fn first_non_blank(b: Seq<SrtLineModel>, i: int) -> int
    decreases b.len() - i,
{
    if i < 0 || i >= b.len() {
        b.len() as int
    } else if is_blank_model(b[i]) {
        first_non_blank(b, i + 1)
    } else {
        i
    }
}

/// Index of the first blank line of `b[i..]`, or the length of `b`.
pub open spec fn first_blank(b: Seq<SrtLineModel>, i: int) -> int
    decreases b.len() - i,
{
    if i < 0 || i >= b.len() {
        b.len() as int
    } else if is_blank_model(b[i]) {
        i
    } else {
        first_blank(b, i + 1)
    }
}

/// Splits `b[i..]` into blocks: a new block starts at each line that is not
/// blank and follows a blank line. `cur` is the block being read and
/// `was_blank` whether its last line is blank.
pub open spec fn group_from(b: Seq<SrtLineModel>, i: int, cur: Seq<SrtLineModel>, was_blank: bool) -> Seq<
    Seq<SrtLineModel>,
>
    decreases b.len() - i,
{
    if i < 0 || i >= b.len() {
        seq![cur]
    } else if !is_blank_model(b[i]) && was_blank {
        seq![cur] + group_from(b, i + 1, seq![b[i]], false)
    } else {
        group_from(b, i + 1, cur.push(b[i]), is_blank_model(b[i]))
    }
}

/// The blocks of `b` once its leading blank lines are dropped.
pub open spec fn groups(b: Seq<SrtLineModel>) -> Seq<Seq<SrtLineModel>> {
    group_from(b, first_non_blank(b, 0), seq![], false)
}

/// A block whose lines from the third on are text up to the first blank line,
/// and which ends with a blank line (an empty one is added where it has none).
pub open spec fn finish_block(b: Seq<SrtLineModel>) -> Seq<SrtLineModel> {
    let p = first_blank(b, 2);
    let texts = Seq::new((p - 2) as nat, |k: int| (b[2 + k].0, SrtLineType::Text));
    let body = b.take(2) + texts + b.skip(p);
    if p >= b.len() {
        body.push((seq![], SrtLineType::Blank))
    } else {
        body
    }
}

/// What becomes of a block in standardization: a block that starts with a
/// standard time range followed by a line that is not blank gets an empty
/// number line in front; a block that starts with a number line and whose
/// second line is a standard time range followed by a line that is not blank
/// is kept as it is; either is then finished (see [`finish_block`]). Any
/// other block is not standard and is dropped.
pub open spec fn keep_block(b: Seq<SrtLineModel>) -> Option<Seq<SrtLineModel>> {
    if b.len() < 2 {
        None
    } else if is_standard_tr_model(b[0]) && !is_blank_model(b[1]) {
        Some(finish_block(seq![(seq![], SrtLineType::Number)] + b))
    } else if b.len() > 2 && b[0].1 is Number && is_standard_tr_model(b[1]) && !is_blank_model(b[2]) {
        Some(finish_block(b))
    } else {
        None
    }
}

/// The blocks that standardization keeps, each as it becomes, in order.
pub open spec fn kept_blocks(bs: Seq<Seq<SrtLineModel>>) -> Seq<Seq<SrtLineModel>>
    decreases bs.len(),
{
    if bs.len() == 0 {
        seq![]
    } else {
        match keep_block(bs.last()) {
            Some(k) => kept_blocks(bs.drop_last()).push(k),
            None => kept_blocks(bs.drop_last()),
        }
    }
}

/// The time range by which a block is sorted: that of its second line.
pub open spec fn block_key(b: Seq<SrtLineModel>) -> (Time, Time) {
    if b.len() > 1 {
        match b[1].1 {
            SrtLineType::TimeRange(r) => r,
            _ => (Time { hours: 0, mins: 0, secs: 0, millis: 0 }, Time { hours: 0, mins: 0, secs: 0, millis: 0 }),
        }
    } else {
        (Time { hours: 0, mins: 0, secs: 0, millis: 0 }, Time { hours: 0, mins: 0, secs: 0, millis: 0 })
    }
}

/// The order of time ranges: by start, then by end.
pub open spec fn key_lt(a: (Time, Time), b: (Time, Time)) -> bool {
    a.0.spec_lt(b.0) || (a.0 == b.0 && a.1.spec_lt(b.1))
}

/// Index of the first block of `s` whose key is after `k`, or the length of `s`.
pub open spec fn insert_pos(s: Seq<Seq<SrtLineModel>>, k: (Time, Time), j: int) -> int
    decreases s.len() - j,
{
    if j < 0 || j >= s.len() {
        s.len() as int
    } else if key_lt(k, block_key(s[j])) {
        j
    } else {
        insert_pos(s, k, j + 1)
    }
}

/// Blocks stably sorted by their time ranges: each block goes after every
/// earlier block whose time range is not after its own.
pub open spec fn sort_blocks(bs: Seq<Seq<SrtLineModel>>) -> Seq<Seq<SrtLineModel>>
    decreases bs.len(),
{
    if bs.len() == 0 {
        seq![]
    } else {
        let s = sort_blocks(bs.drop_last());
        s.insert(insert_pos(s, block_key(bs.last()), 0), bs.last())
    }
}

/// The result of standardizing the lines `b`, or `None` where no block is
/// kept.
pub open spec fn standardize_spec(b: Seq<SrtLineModel>) -> Option<Seq<SrtLineModel>> {
    let kept = kept_blocks(groups(b));
    if kept.len() == 0 {
        None
    } else {
        Some(sort_blocks(kept).flatten_alt())
    }
}

/// The raw bytes of the lines `ls`, one after another.
pub open spec fn raws(ls: Seq<SrtLineModel>) -> Seq<u8>
    decreases ls.len(),
{
    if ls.len() == 0 {
        seq![]
    } else {
        ls[0].0 + raws(ls.drop_first())
    }
}

proof fn lemma_line_models_keep_bytes(s: Seq<u8>, i: int)
    requires
        0 <= i <= s.len(),
    ensures
        raws(line_models_from(s, i)) == s.subrange(i, s.len() as int),
    decreases s.len() + 1 - i,
{
    if i < s.len() {
        lemma_line_end_bounds(s, i);
        let n = next_line_start(s, i);
        let e = raw_line_end(s, i);
        let ls = line_models_from(s, i);
        assert(ls.drop_first() =~= line_models_from(s, n));
        assert(ls[0].0 == s.subrange(i, e));
        assert(raws(ls) == ls[0].0 + raws(ls.drop_first()));
        if n <= s.len() {
            lemma_line_models_keep_bytes(s, n);
            assert(e == n);
        } else {
            assert(line_models_from(s, n) == Seq::<SrtLineModel>::empty());
            assert(e == s.len());
            assert(s.subrange(e, s.len() as int) =~= Seq::<u8>::empty());
        }
        assert(s.subrange(i, e) + s.subrange(e, s.len() as int) =~= s.subrange(i, s.len() as int));
    } else {
        assert(s.subrange(i, s.len() as int) =~= Seq::<u8>::empty());
    }
}

/// Reading subtitles keeps every byte: the raw bytes of their lines, one
/// after another, are the bytes read.
pub proof fn lemma_subtitles_keep_bytes(s: Seq<u8>)
    ensures
        raws(subtitles_spec(s)) == s,
{
    lemma_line_models_keep_bytes(s, 0);
    let ls = line_models_from(s, 0);
    assert(s.subrange(0, s.len() as int) =~= s);
    if ls.len() == 0 || !(ls.last().1 is Blank) {
        lemma_raws_push(ls, (seq![], SrtLineType::Blank));
        assert(raws(ls) + seq![] =~= raws(ls));
    }
}

/// The raw bytes of lines with one more line after them.
proof fn lemma_raws_push(ls: Seq<SrtLineModel>, l: SrtLineModel)
    ensures
        raws(ls.push(l)) == raws(ls) + l.0,
    decreases ls.len(),
{
    if ls.len() > 0 {
        assert(ls.push(l).drop_first() =~= ls.drop_first().push(l));
        lemma_raws_push(ls.drop_first(), l);
        assert(raws(ls.push(l)) =~= ls[0].0 + (raws(ls.drop_first()) + l.0));
    } else {
        assert(ls.push(l).drop_first() =~= Seq::<SrtLineModel>::empty());
        assert(raws(ls.push(l)) =~= l.0 + raws(Seq::<SrtLineModel>::empty()));
    }
}

impl SrtSubtitles {
    /// The lines of the subtitles.
    pub open spec fn lines(&self) -> Seq<SrtLineModel> {
        self.0.deep_view()
    }

    /// Reads subtitles from bytes: splits them into lines, each keeping its
    /// line break, infers each line's type, and adds an empty blank line
    /// after the last line unless it is blank.
    pub fn from_bytes(bytes: &[u8]) -> (r: SrtSubtitles)
        requires
            bytes@.len() < usize::MAX,
        ensures
            r.lines() == subtitles_spec(bytes@),
    {
        let mut lines: Vec<SrtLine> = Vec::new();
        let mut pos: usize = 0;
        while pos < bytes.len()
            invariant
                bytes@.len() < usize::MAX,
                lines.deep_view() + line_models_from(bytes@, pos as int) == line_models_from(
                    bytes@,
                    0,
                ),
            decreases bytes@.len() + 1 - pos,
        {
            let start = pos;
            let ghost before = lines.deep_view();
            proof {
                lemma_line_end_bounds(bytes@, start as int);
            }
            let _ = get_slice_line(bytes, &mut pos);
            let end = if pos > bytes.len() {
                bytes.len()
            } else {
                pos
            };
            let line = SrtLine::new(&bytes[start..end]);
            push_back(&mut lines, line);
            assert(lines.deep_view() + line_models_from(bytes@, pos as int) =~= before
                + line_models_from(bytes@, start as int));
        }
        assert(lines.deep_view() =~= line_models_from(bytes@, 0));
        let n = lines.len();
        if n == 0 || !lines[n - 1].ty.is_blank() {
            push_back(&mut lines, SrtLine::empty(SrtLineType::Blank));
        }
        SrtSubtitles(lines)
    }

    /// Reads subtitles from the bytes of a string (see
    /// [`SrtSubtitles::from_bytes`]).
    pub fn from_str(s: &str) -> (r: SrtSubtitles)
        requires
            s.spec_bytes().len() < usize::MAX,
        ensures
            r.lines() == subtitles_spec(s.spec_bytes()),
    {
        Self::from_bytes(s.as_bytes())
    }

    /// Reads subtitles from bytes like [`SrtSubtitles::from_bytes`] and checks
    /// that every block is standard.
    ///
    /// # Errors
    /// Returns [`Error::NonStandardBlock`] for the first block that is not
    /// standard, with the index of its first line.
    pub fn try_from_bytes(bytes: &[u8]) -> (r: Result<SrtSubtitles>)
        requires
            bytes@.len() < usize::MAX,
        ensures
            r is Ok <==> blocks_standard_from(subtitles_spec(bytes@), 0),
            r matches Ok(s) ==> s.lines() == subtitles_spec(bytes@),
            match first_fault(subtitles_spec(bytes@), 0) {
                Some((k, m)) => r matches Err(Error::NonStandardBlock(p)) && p.0 == k && p.1@
                    == m@,
                None => r is Ok,
            },
    {
        let srt = Self::from_bytes(bytes);
        match srt.validate() {
            Ok(()) => Ok(srt),
            Err(e) => Err(e),
        }
    }

    /// Reads subtitles from the bytes of a string and checks them (see
    /// [`SrtSubtitles::try_from_bytes`]).
    pub fn try_from_str(s: &str) -> (r: Result<SrtSubtitles>)
        requires
            s.spec_bytes().len() < usize::MAX,
        ensures
            r is Ok <==> blocks_standard_from(subtitles_spec(s.spec_bytes()), 0),
            r matches Ok(x) ==> x.lines() == subtitles_spec(s.spec_bytes()),
            match first_fault(subtitles_spec(s.spec_bytes()), 0) {
                Some((k, m)) => r matches Err(Error::NonStandardBlock(p)) && p.0 == k && p.1@
                    == m@,
                None => r is Ok,
            },
    {
        Self::try_from_bytes(s.as_bytes())
    }

    /// Checks that every block is standard.
    ///
    /// # Errors
    /// Returns [`Error::NonStandardBlock`] for the first block that is not
    /// standard, with the index of its first line.
    pub fn validate(&self) -> (r: Result<()>)
        ensures
            r is Ok <==> blocks_standard_from(self.lines(), 0),
            match first_fault(self.lines(), 0) {
                Some((k, m)) => r matches Err(Error::NonStandardBlock(p)) && p.0 == k && p.1@
                    == m@,
                None => r is Ok,
            },
    {
        let ghost b = self.lines();
        let n = self.0.len();
        let mut i: usize = 0;
        while i < n
            invariant
                b == self.lines(),
                n == b.len(),
                i <= n,
                blocks_standard_from(b, 0) == blocks_standard_from(b, i as int),
                first_fault(b, 0) == first_fault(b, i as int),
            decreases n - i,
        {
            let e = self.next_block_start_at(i + 1);
            proof {
                lemma_next_block_start_bounds(b, i + 1);
            }
            let block = SrtBlock(&self.0.as_slice()[i..e]);
            assert(block.lines() =~= b.subrange(i as int, e as int));
            match block.validate_standard_at(i) {
                Ok(()) => {},
                Err(e) => return Err(e),
            }
            i = e;
        }
        Ok(())
    }

    fn next_block_start_at(&self, k: usize) -> (r: usize)
        requires
            k <= self.lines().len(),
        ensures
            r as int == next_block_start(self.lines(), k as int),
    {
        let ghost b = self.lines();
        proof {
            lemma_next_block_start_bounds(b, k as int);
        }
        let mut j = k;
        while j < self.0.len()
            invariant
                b == self.lines(),
                k <= j <= b.len(),
                next_block_start(b, k as int) == next_block_start(b, j as int),
            decreases b.len() - j,
        {
            if j >= 1 && self.0[j - 1].ty.is_blank() && !self.0[j].ty.is_blank() {
                return j;
            }
            j += 1;
        }
        j
    }

    /// Tries standardizes a subtitles:
    /// 1. Removes start blank lines.
    /// 2. Changes type a block non-blank lines after a time range to text.
    /// 3. Adds missing number line to a blocks with time range and text pairs.
    /// 4. Adds missing end blank line to last block.
    /// 5. Removes non-standard blocks.
    /// 6. Sorts block by times.
    ///
    /// Does not checks raws.
    ///
    /// # Errors
    /// Returns an error **only if** no block is kept after steps 1-5.
    pub fn standardize(self) -> (r: Result<SrtSubtitles>)
        ensures
            r is Ok <==> standardize_spec(self.lines()) is Some,
            r matches Ok(s) ==> Some(s.lines()) == standardize_spec(self.lines()),
            r is Err ==> (r matches Err(e) && e.is_validation("not received a standard block")),
    {
        let ghost b = self.lines();
        let groups_v = group_lines(self.0);
        let mut src = groups_v;
        let ghost gs = src.deep_view();
        let mut kept: Vec<Vec<SrtLine>> = Vec::new();
        let ghost mut k: int = 0;
        assert(gs.take(0) =~= Seq::<Seq<SrtLineModel>>::empty());
        while src.len() > 0
            invariant
                gs == groups(b),
                0 <= k <= gs.len(),
                src.deep_view() == gs.skip(k),
                src@.len() + k == gs.len(),
                kept.deep_view() == kept_blocks(gs.take(k)),
            decreases src.len(),
        {
            proof {
                lemma_skip_drop_first(gs, k);
                lemma_take_push(gs, k);
            }
            let mut block = take_first(&mut src);
            if is_keep_lines(&mut block) {
                push_back(&mut kept, block);
            }
            proof {
                k = k + 1;
            }
        }
        assert(gs.take(gs.len() as int) =~= gs);
        if kept.len() == 0 {
            return Err(Error::ValueValidation("not received a standard block"));
        }
        let sorted = sort_by_time_range(kept);
        let lines = flatten_blocks(sorted);
        Ok(SrtSubtitles(lines))
    }
}

/// Splits lines into blocks as [`groups`] does.
fn group_lines(lines: Vec<SrtLine>) -> (r: Vec<Vec<SrtLine>>)
    ensures
        r.deep_view() == groups(lines.deep_view()),
{
    let ghost b = lines.deep_view();
    let mut src = lines;
    let ghost mut i: int = 0;
    while src.len() > 0 && src[0].ty.is_blank()
        invariant
            0 <= i <= b.len(),
            src.deep_view() == b.skip(i),
            src@.len() + i == b.len(),
            first_non_blank(b, 0) == first_non_blank(b, i),
        decreases src.len(),
    {
        proof {
            lemma_skip_drop_first(b, i);
        }
        let _ = take_first(&mut src);
        proof {
            i = i + 1;
        }
    }
    assert(first_non_blank(b, 0) == i) by {
        if i < b.len() {
            assert(src.deep_view()[0] == b[i]);
        }
    }
    let mut done: Vec<Vec<SrtLine>> = Vec::new();
    let mut cur: Vec<SrtLine> = Vec::new();
    let mut was_blank = false;
    assert(done.deep_view() =~= Seq::<Seq<SrtLineModel>>::empty());
    assert(cur.deep_view() =~= Seq::<SrtLineModel>::empty());
    while src.len() > 0
        invariant
            0 <= i <= b.len(),
            src.deep_view() == b.skip(i),
            src@.len() + i == b.len(),
            done.deep_view() + group_from(b, i, cur.deep_view(), was_blank) == groups(b),
        decreases src.len(),
    {
        proof {
            lemma_skip_drop_first(b, i);
        }
        let line = take_first(&mut src);
        let is_blank = line.ty.is_blank();
        let ghost done_before = done.deep_view();
        let ghost cur_before = cur.deep_view();
        if !is_blank && was_blank {
            let mut finished: Vec<SrtLine> = Vec::new();
            std::mem::swap(&mut finished, &mut cur);
            push_back(&mut done, finished);
            push_back(&mut cur, line);
            assert(cur.deep_view() =~= seq![b[i]]);
            assert(done.deep_view() + group_from(b, i + 1, cur.deep_view(), false) =~= done_before
                + group_from(b, i, cur_before, was_blank));
        } else {
            push_back(&mut cur, line);
        }
        was_blank = is_blank;
        proof {
            i = i + 1;
        }
    }
    let ghost done_before = done.deep_view();
    let ghost cur_v = cur.deep_view();
    push_back(&mut done, cur);
    assert(done.deep_view() =~= done_before + group_from(b, i, cur_v, was_blank));
    done
}

/// Decides whether a block is kept and turns it into what it becomes, as
/// [`keep_block`] says.
fn is_keep_lines(lines: &mut Vec<SrtLine>) -> (r: bool)
    ensures
        r == keep_block(old(lines).deep_view()) is Some,
        r ==> Some(final(lines).deep_view()) == keep_block(old(lines).deep_view()),
{
    let ghost b = lines.deep_view();
    let len = lines.len();
    if len < 2 {
        return false;
    }
    if lines[0].ty.is_standard_time_range() && !lines[1].ty.is_blank() {
        insert_at(lines, 0, SrtLine::empty(SrtLineType::Number));
        assert(lines.deep_view() =~= seq![(Seq::<u8>::empty(), SrtLineType::Number)] + b);
        finish_lines(lines);
        return true;
    }
    let starts_with_number = match lines[0].ty {
        SrtLineType::Number => true,
        _ => false,
    };
    if len > 2 && starts_with_number && lines[1].ty.is_standard_time_range() && !lines[2].ty.is_blank() {
        finish_lines(lines);
        return true;
    }
    false
}

/// Turns a block into [`finish_block`] of it.
fn finish_lines(lines: &mut Vec<SrtLine>)
    requires
        old(lines)@.len() >= 2,
    ensures
        final(lines).deep_view() == finish_block(old(lines).deep_view()),
{
    let ghost b = lines.deep_view();
    let mut src: Vec<SrtLine> = Vec::new();
    std::mem::swap(&mut src, lines);
    let mut out: Vec<SrtLine> = Vec::new();
    proof {
        lemma_skip_drop_first(b, 0);
        lemma_skip_drop_first(b, 1);
    }
    assert(b.skip(0) =~= b);
    let first = take_first(&mut src);
    let second = take_first(&mut src);
    push_back(&mut out, first);
    push_back(&mut out, second);
    assert(out.deep_view() =~= b.take(2));
    let ghost mut i: int = 2;
    while src.len() > 0 && !src[0].ty.is_blank()
        invariant
            2 <= i <= b.len(),
            src.deep_view() == b.skip(i),
            src@.len() + i == b.len(),
            out.deep_view() == b.take(2) + Seq::new((i - 2) as nat, |k: int| (b[2 + k].0, SrtLineType::Text)),
            first_blank(b, 2) == first_blank(b, i),
        decreases src.len(),
    {
        proof {
            lemma_skip_drop_first(b, i);
        }
        let line = take_first(&mut src);
        let ghost out_before = out.deep_view();
        push_back(&mut out, SrtLine { raw: line.raw, ty: SrtLineType::Text });
        proof {
            i = i + 1;
        }
        assert(out.deep_view() =~= b.take(2) + Seq::new((i - 2) as nat, |k: int| (b[2 + k].0, SrtLineType::Text)));
    }
    assert(first_blank(b, 2) == i) by {
        if i < b.len() {
            assert(src.deep_view()[0] == b[i]);
        }
    }
    let has_blank = src.len() > 0;
    append_all(&mut out, &mut src);
    if !has_blank {
        push_back(&mut out, SrtLine::empty(SrtLineType::Blank));
    }
    *lines = out;
}

/// The sort key of a block (see [`block_key`]).
fn get_block_key(b: &Vec<SrtLine>) -> (r: (Time, Time))
    ensures
        r == block_key(b.deep_view()),
{
    if b.len() > 1 {
        match b[1].ty {
            SrtLineType::TimeRange(r) => r,
            _ => (Time::zero(), Time::zero()),
        }
    } else {
        (Time::zero(), Time::zero())
    }
}

fn is_key_before(a: &(Time, Time), b: &(Time, Time)) -> (r: bool)
    ensures
        r == key_lt(*a, *b),
{
    a.0.is_before(&b.0) || (a.0.hours == b.0.hours && a.0.mins == b.0.mins && a.0.secs == b.0.secs
        && a.0.millis == b.0.millis && a.1.is_before(&b.1))
}

/// Sorts blocks stably by their time ranges, as [`sort_blocks`] says.
fn sort_by_time_range(blocks: Vec<Vec<SrtLine>>) -> (r: Vec<Vec<SrtLine>>)
    ensures
        r.deep_view() == sort_blocks(blocks.deep_view()),
{
    let ghost bs = blocks.deep_view();
    let mut src = blocks;
    let mut out: Vec<Vec<SrtLine>> = Vec::new();
    let ghost mut k: int = 0;
    while src.len() > 0
        invariant
            0 <= k <= bs.len(),
            src.deep_view() == bs.skip(k),
            src@.len() + k == bs.len(),
            out.deep_view() == sort_blocks(bs.take(k)),
        decreases src.len(),
    {
        proof {
            lemma_skip_drop_first(bs, k);
            lemma_take_push(bs, k);
        }
        let block = take_first(&mut src);
        let key = get_block_key(&block);
        let j = find_insert_pos(&out, &key);
        insert_at(&mut out, j, block);
        proof {
            k = k + 1;
        }
    }
    assert(bs.take(bs.len() as int) =~= bs);
    out
}

/// Where a block with the key `key` goes among sorted blocks (see
/// [`insert_pos`]).
fn find_insert_pos(out: &Vec<Vec<SrtLine>>, key: &(Time, Time)) -> (r: usize)
    ensures
        r as int == insert_pos(out.deep_view(), *key, 0),
        r <= out@.len(),
{
    let ghost s = out.deep_view();
    let mut j: usize = 0;
    while j < out.len()
        invariant
            s == out.deep_view(),
            j <= s.len(),
            insert_pos(s, *key, 0) == insert_pos(s, *key, j as int),
        decreases s.len() - j,
    {
        let other = get_block_key(&out[j]);
        if is_key_before(key, &other) {
            return j;
        }
        j += 1;
    }
    j
}

/// Joins blocks into one list of lines.
fn flatten_blocks(blocks: Vec<Vec<SrtLine>>) -> (r: Vec<SrtLine>)
    ensures
        r.deep_view() == blocks.deep_view().flatten_alt(),
{
    let ghost bs = blocks.deep_view();
    let mut src = blocks;
    let mut out: Vec<SrtLine> = Vec::new();
    let ghost mut k: int = 0;
    while src.len() > 0
        invariant
            0 <= k <= bs.len(),
            src.deep_view() == bs.skip(k),
            src@.len() + k == bs.len(),
            out.deep_view() == bs.take(k).flatten_alt(),
        decreases src.len(),
    {
        proof {
            lemma_skip_drop_first(bs, k);
            lemma_take_push(bs, k);
        }
        let mut block = take_first(&mut src);
        append_all(&mut out, &mut block);
        proof {
            k = k + 1;
        }
    }
    assert(bs.take(bs.len() as int) =~= bs);
    out
}

} // verus!
