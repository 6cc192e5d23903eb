//! Splitting bytes into lines.
use vstd::prelude::*;
use vstd::string::StringSliceAdditionalSpecFns;

verus! {

/// Whether a byte ends a line: carriage return or line feed.
pub open spec fn is_newline(b: u8) -> bool {
    b == 0x0Du8 || b == 0x0Au8
}

/// Index of the first line end in `s[i..]`, or the length of `s`.
pub open spec fn line_end(s: Seq<u8>, i: int) -> int
    decreases s.len() - i,
{
    if i >= s.len() {
        s.len() as int
    } else if is_newline(s[i]) {
        i
    } else {
        line_end(s, i + 1)
    }
}

/// Where the line after the one that starts at `i` begins: past its line
/// end, where `\r\n` counts as one line end.
pub open spec fn next_line_start(s: Seq<u8>, i: int) -> int {
    let e = line_end(s, i);
    if e + 1 < s.len() && s[e] == 0x0Du8 && s[e + 1] == 0x0Au8 {
        e + 2
    } else {
        e + 1
    }
}

/// The line of `s` that starts at `i`, without its line end.
pub open spec fn line_at(s: Seq<u8>, i: int) -> Seq<u8> {
    s.subrange(i, line_end(s, i))
}

/// The lines of `s` from position `i` on.
pub open spec fn lines_from(s: Seq<u8>, i: int) -> Seq<Seq<u8>>
    decreases s.len() + 1 - i,
{
    if i < 0 || i >= s.len() {
        seq![]
    } else {
        proof {
            lemma_line_end_bounds(s, i);
        }
        seq![line_at(s, i)] + lines_from(s, next_line_start(s, i))
    }
}

pub proof fn lemma_line_end_bounds(s: Seq<u8>, i: int)
    requires
        0 <= i <= s.len(),
    ensures
        i <= line_end(s, i) <= s.len(),
        line_end(s, i) < s.len() ==> is_newline(s[line_end(s, i)]),
        forall|k: int| i <= k < line_end(s, i) ==> !is_newline(#[trigger] s[k]),
    decreases s.len() - i,
{
    if i < s.len() && !is_newline(s[i]) {
        lemma_line_end_bounds(s, i + 1);
    }
}

/// The next line starts after the current one and at most one past the end.
pub proof fn lemma_next_line_start_bounds(s: Seq<u8>, i: int)
    requires
        0 <= i < s.len(),
    ensures
        i < next_line_start(s, i) <= s.len() + 1,
{
    lemma_line_end_bounds(s, i);
}

/// Reads the line of `data` that starts at `*pos` and moves `*pos` past its
/// line end; `None` once `*pos` is at or past the end of `data`.
pub fn get_slice_line<'a>(data: &'a [u8], pos: &mut usize) -> (r: Option<&'a [u8]>)
    requires
        data@.len() < usize::MAX,
    ensures
        *old(pos) >= data@.len() ==> r is None && *final(pos) == *old(pos),
        *old(pos) < data@.len() ==> {
            &&& r matches Some(line)
            &&& line@ == line_at(data@, *old(pos) as int)
            &&& *final(pos) == next_line_start(data@, *old(pos) as int)
        },
{
    if *pos >= data.len() {
        return None;
    }
    let start = *pos;
    let mut end = start;
    while end < data.len() && data[end] != 0x0Du8 && data[end] != 0x0Au8
        invariant
            start <= end <= data@.len(),
            start < data@.len(),
            line_end(data@, start as int) == line_end(data@, end as int),
        decreases data@.len() - end,
    {
        end += 1;
    }
    let mut next = end + 1;
    if end + 1 < data.len() && data[end] == 0x0Du8 && data[end + 1] == 0x0Au8 {
        next = end + 2;
    }
    *pos = next;
    Some(&data[start..end])
}

/// The lines of a byte string, read one after another. A line ends at
/// `\n`, `\r` or `\r\n`; the line end is not part of the line.
#[derive(Debug)]
pub struct ByteLines {
    data: Vec<u8>,
    pos: usize,
}

/// `predicate` answered `false` for a line of bytes `l`.
pub open spec fn bytes_rejected<F: Fn(&[u8]) -> bool>(predicate: F, l: Seq<u8>) -> bool {
    exists|y: &[u8]| y@ == l && #[trigger] call_ensures(predicate, (y,), false)
}

impl ByteLines {
    /// The bytes being split.
    pub closed spec fn data(&self) -> Seq<u8> {
        self.data@
    }

    /// Where the next line starts.
    pub closed spec fn pos(&self) -> int {
        self.pos as int
    }

    /// The lines not read yet.
    pub open spec fn rest(&self) -> Seq<Seq<u8>> {
        lines_from(self.data(), self.pos())
    }

    /// The well-formedness of a reader: its bytes fit the machine's indices
    /// and its position is at most one past their end.
    pub open spec fn wf(&self) -> bool {
        self.data().len() < usize::MAX && 0 <= self.pos() <= self.data().len() + 1
    }

    /// A measure of the work left: it drops with every line read.
    pub open spec fn remaining(&self) -> nat {
        (self.data().len() + 1 - self.pos()) as nat
    }

    /// Lines of a copy of `bytes`.
    pub fn from_bytes(bytes: &[u8]) -> (r: ByteLines)
        requires
            bytes@.len() < usize::MAX,
        ensures
            r.wf(),
            r.data() == bytes@,
            r.pos() == 0,
    {
        ByteLines { data: vstd::slice::slice_to_vec(bytes), pos: 0 }
    }

    /// Lines of a copy of the bytes of `s`.
    pub fn from_str(s: &str) -> (r: ByteLines)
        requires
            s.spec_bytes().len() < usize::MAX,
        ensures
            r.wf(),
            r.data() == s.spec_bytes(),
            r.pos() == 0,
    {
        Self::from_bytes(s.as_bytes())
    }

    /// The next line, or `None` after the last one.
    pub fn next(&mut self) -> (r: Option<&[u8]>)
        requires
            old(self).wf(),
        ensures
            final(self).wf(),
            final(self).data() == old(self).data(),
            old(self).pos() >= old(self).data().len() ==> r is None && final(self).pos() == old(
                self,
            ).pos(),
            old(self).pos() < old(self).data().len() ==> {
                &&& r matches Some(line)
                &&& line@ == line_at(old(self).data(), old(self).pos())
                &&& final(self).pos() == next_line_start(old(self).data(), old(self).pos())
            },
            r matches Some(line) ==> old(self).rest() == seq![line@] + final(self).rest(),
            r is None ==> old(self).rest() == Seq::<Seq<u8>>::empty(),
            r is Some ==> final(self).remaining() < old(self).remaining(),
    {
        proof {
            if self.pos < self.data@.len() {
                lemma_line_end_bounds(self.data@, self.pos as int);
            }
        }
        let mut pos = self.pos;
        let r = get_slice_line(self.data.as_slice(), &mut pos);
        self.pos = pos;
        r
    }

    /// Reads lines up to the first one that `predicate` accepts and returns
    /// it; `None` where the lines end first.
    pub fn find<F: Fn(&[u8]) -> bool>(&mut self, predicate: F) -> (r: Option<&[u8]>)
        requires
            old(self).wf(),
            forall|l: &[u8]| #[trigger] call_requires(predicate, (l,)),
        ensures
            final(self).wf(),
            final(self).data() == old(self).data(),
            r matches Some(x) ==> exists|k: int|
                #![trigger old(self).rest()[k]]
                {
                    &&& 0 <= k < old(self).rest().len()
                    &&& old(self).rest()[k] == x@
                    &&& final(self).rest() == old(self).rest().skip(k + 1)
                    &&& forall|i: int| 0 <= i < k ==> bytes_rejected(predicate, #[trigger] old(self).rest()[i])
                },
            r matches Some(x) ==> call_ensures(predicate, (x,), true),
            r is None ==> final(self).rest() == Seq::<Seq<u8>>::empty() && forall|i: int|
                0 <= i < old(self).rest().len() ==> bytes_rejected(predicate, #[trigger] old(self).rest()[i]),
    {
        let ghost all = self.rest();
        let ghost mut k: int = 0;
        loop
            invariant
                self.wf(),
                self.data() == old(self).data(),
                all == old(self).rest(),
                0 <= k <= all.len(),
                self.rest() == all.skip(k),
                forall|i: int| 0 <= i < k ==> bytes_rejected(predicate, #[trigger] all[i]),
                forall|l: &[u8]| #[trigger] call_requires(predicate, (l,)),
            decreases self.remaining(),
        {
            proof {
                if self.pos < self.data@.len() {
                    lemma_line_end_bounds(self.data@, self.pos as int);
                }
            }
            let ghost rest0 = self.rest();
            let mut pos = self.pos;
            let line = match get_slice_line(self.data.as_slice(), &mut pos) {
                Some(l) => l,
                None => {
                    assert(all.skip(k).len() == 0);
                    assert(k == all.len());
                    return None;
                },
            };
            assert(rest0[0] == line@);
            assert(all[k] == line@);
            self.pos = pos;
            assert(self.rest() == rest0.drop_first());
            assert(all.skip(k + 1) =~= all.skip(k).drop_first());
            if predicate(line) {
                assert(self.rest() == all.skip(k + 1));
                assert(all[k] == line@);
                return Some(line);
            }
            assert(bytes_rejected(predicate, all[k]));
            proof {
                k = k + 1;
            }
        }
    }
}

} // verus!
