//! Comment lines of SubStation Alpha scripts.
use crate::byte_helpers::{skip_ws, starts_with, starts_with_spec, trim_start_spec};
use crate::lits::{bang_colon, bang_colon_bytes};
use vstd::prelude::*;

verus! {

/// A comment line: `;` or `!:` followed by the comment text.
#[derive(Clone, Debug, PartialEq)]
pub struct Comment {
    /// The whole line.
    pub bytes: Vec<u8>,
    /// The comment text.
    pub text: Vec<u8>,
}

impl DeepView for Comment {
    type V = (Seq<u8>, Seq<u8>);

    open spec fn deep_view(&self) -> (Seq<u8>, Seq<u8>) {
        (self.bytes@, self.text@)
    }
}

/// `d` without the prefix `p`, if it starts with it.
pub open spec fn trim_prefix_spec(d: Seq<u8>, p: Seq<u8>) -> Seq<u8> {
    if starts_with_spec(d, p) {
        d.skip(p.len() as int)
    } else {
        d
    }
}

/// The text of a line read as a comment: what follows a leading `;`, or
/// else what follows a leading `!:`, without leading whitespace.
pub open spec fn comment_text_spec(line: Seq<u8>) -> Seq<u8> {
    trim_start_spec(
        if line.len() > 0 && line[0] == 0x3Bu8 {
            line.skip(1)
        } else {
            trim_prefix_spec(line, bang_colon())
        },
    )
}

/// A line is a comment when reading it as one drops something from it.
pub open spec fn comment_spec(line: Seq<u8>) -> Option<(Seq<u8>, Seq<u8>)> {
    let t = comment_text_spec(line);
    if t.len() != line.len() {
        Some((line, t))
    } else {
        None
    }
}

impl Comment {
    pub fn as_bytes(&self) -> (r: &[u8])
        ensures
            r@ == self.bytes@,
    {
        self.bytes.as_slice()
    }

    /// Reads `line` as a comment if it is one (see [`comment_spec`]).
    pub fn get_new(line: &[u8]) -> (r: Option<Comment>)
        requires
            line@.len() > 0,
        ensures
            match r {
                Some(c) => comment_spec(line@) == Some(c.deep_view()),
                None => comment_spec(line@) is None,
            },
    {
        let x = Self::new(line);
        if x.text.len() != x.bytes.len() {
            Some(x)
        } else {
            None
        }
    }

    /// Reads `line` as a comment (see [`comment_text_spec`]).
    pub fn new(line: &[u8]) -> (r: Comment)
        requires
            line@.len() > 0,
        ensures
            r.deep_view() == (line@, comment_text_spec(line@)),
    {
        let start = if line[0] == 0x3Bu8 {
            1
        } else if starts_with(line, bang_colon_bytes().as_slice()) {
            2
        } else {
            0
        };
        assert(start == 2 ==> starts_with_spec(line@, bang_colon()));
        let pos = skip_ws(line, start);
        proof {
            assert(line@.skip(0) =~= line@);
        }
        Self::new_with(line, &line[pos..line.len()])
    }

    fn new_with(bytes: &[u8], text: &[u8]) -> (r: Comment)
        ensures
            r.deep_view() == (bytes@, text@),
    {
        Comment {
            bytes: vstd::slice::slice_to_vec(bytes),
            text: vstd::slice::slice_to_vec(text),
        }
    }
}

} // verus!
