//! Finding the first line that a predicate accepts.
use crate::ass::line::{AssLine, AssLineModel};
use crate::ass::lines::{ass_lines_next, ass_trans_rank, lemma_ass_lines_next_progress, AssLines};
use crate::ass::write::ass_run;
use crate::srt::it::{lemma_srt_lines_next_progress, srt_lines_next, srt_trans_rank, SrtLines};
use crate::srt::line::{SrtLine, SrtLineModel};
use crate::srt::write::srt_run;
use crate::vtt::write::vtt_run;
use crate::vtt::it::{lemma_vtt_lines_next_progress, vtt_lines_next, vtt_trans_rank, VttLines};
use crate::vtt::line::{VttLine, VttLineModel};
use vstd::prelude::*;

verus! {

/// `predicate` answered `false` for a SubRip line seen as `l`.
pub open spec fn srt_rejected<F: Fn(&SrtLine) -> bool>(predicate: F, l: SrtLineModel) -> bool {
    exists|y: SrtLine| y.deep_view() == l && #[trigger] call_ensures(predicate, (&y,), false)
}

impl SrtLines {
    /// Reads lines up to the first one that `predicate` accepts and returns
    /// it; `None` where the lines end first.
    pub fn find<F: Fn(&SrtLine) -> bool>(&mut self, predicate: F) -> (r: Option<SrtLine>)
        requires
            old(self).wf(),
            forall|l: &SrtLine| #[trigger] call_requires(predicate, (l,)),
        ensures
            final(self).wf(),
            exists|n: nat|
                #![trigger srt_run(old(self).model(), n)]
                {
                    &&& srt_run(old(self).model(), n) matches Some((ls, m))
                    &&& match r {
                        Some(x) => {
                            &&& ls.len() > 0 && ls.last() == x.deep_view()
                            &&& call_ensures(predicate, (&x,), true)
                            &&& final(self).model() == m
                            &&& forall|i: int| 0 <= i < ls.len() - 1 ==> srt_rejected(predicate, #[trigger] ls[i])
                        },
                        None => {
                            &&& srt_lines_next(m).0 is None
                            &&& final(self).model() == srt_lines_next(m).1
                            &&& forall|i: int| 0 <= i < ls.len() ==> srt_rejected(predicate, #[trigger] ls[i])
                        },
                    }
                },
    {
        let ghost mut n: nat = 0;
        let ghost mut ls: Seq<SrtLineModel> = seq![];
        loop
            invariant
                self.wf(),
                srt_run(old(self).model(), n) == Some((ls, self.model())),
                forall|i: int| 0 <= i < ls.len() ==> srt_rejected(predicate, #[trigger] ls[i]),
                forall|l: &SrtLine| #[trigger] call_requires(predicate, (l,)),
            decreases self.model().source.remaining(), srt_trans_rank(self.model().buf, self.model().trans),
        {
            let ghost m = self.model();
            proof {
                assert(self.buf@.len() == self.buf.len());
                lemma_srt_lines_next_progress(m);
            }
            let line = match self.next() {
                Some(l) => l,
                None => {
                    assert(srt_run(old(self).model(), n) == Some((ls, m)));
                    return None;
                },
            };
            let ghost ls0 = ls;
            proof {
                n = n + 1;
                ls = ls.push(line.deep_view());
            }
            if predicate(&line) {
                assert(forall|i: int| 0 <= i < ls.len() - 1 ==> ls[i] == ls0[i]);
                return Some(line);
            }
            assert(srt_rejected(predicate, line.deep_view()));
            assert(forall|i: int| 0 <= i < ls.len() - 1 ==> ls[i] == ls0[i]);
        }
    }
}

/// `predicate` answered `false` for a WebVTT line seen as `l`.
pub open spec fn vtt_rejected<F: Fn(&VttLine) -> bool>(predicate: F, l: VttLineModel) -> bool {
    exists|y: VttLine| y.deep_view() == l && #[trigger] call_ensures(predicate, (&y,), false)
}

impl VttLines {
    /// Reads lines up to the first one that `predicate` accepts and returns
    /// it; `None` where the lines end first.
    pub fn find<F: Fn(&VttLine) -> bool>(&mut self, predicate: F) -> (r: Option<VttLine>)
        requires
            old(self).wf(),
            forall|l: &VttLine| #[trigger] call_requires(predicate, (l,)),
        ensures
            final(self).wf(),
            exists|n: nat|
                #![trigger vtt_run(old(self).model(), n)]
                {
                    &&& vtt_run(old(self).model(), n) matches Some((ls, m))
                    &&& match r {
                        Some(x) => {
                            &&& ls.len() > 0 && ls.last() == x.deep_view()
                            &&& call_ensures(predicate, (&x,), true)
                            &&& final(self).model() == m
                            &&& forall|i: int| 0 <= i < ls.len() - 1 ==> vtt_rejected(predicate, #[trigger] ls[i])
                        },
                        None => {
                            &&& vtt_lines_next(m).0 is None
                            &&& final(self).model() == vtt_lines_next(m).1
                            &&& forall|i: int| 0 <= i < ls.len() ==> vtt_rejected(predicate, #[trigger] ls[i])
                        },
                    }
                },
    {
        let ghost mut n: nat = 0;
        let ghost mut ls: Seq<VttLineModel> = seq![];
        loop
            invariant
                self.wf(),
                vtt_run(old(self).model(), n) == Some((ls, self.model())),
                forall|i: int| 0 <= i < ls.len() ==> vtt_rejected(predicate, #[trigger] ls[i]),
                forall|l: &VttLine| #[trigger] call_requires(predicate, (l,)),
            decreases self.model().source.remaining(), vtt_trans_rank(self.model().buf, self.model().trans),
        {
            let ghost m = self.model();
            proof {
                assert(self.buf@.len() == self.buf.len());
                lemma_vtt_lines_next_progress(m);
            }
            let line = match self.next() {
                Some(l) => l,
                None => {
                    assert(vtt_run(old(self).model(), n) == Some((ls, m)));
                    return None;
                },
            };
            let ghost ls0 = ls;
            proof {
                n = n + 1;
                ls = ls.push(line.deep_view());
            }
            if predicate(&line) {
                assert(forall|i: int| 0 <= i < ls.len() - 1 ==> ls[i] == ls0[i]);
                return Some(line);
            }
            assert(vtt_rejected(predicate, line.deep_view()));
            assert(forall|i: int| 0 <= i < ls.len() - 1 ==> ls[i] == ls0[i]);
        }
    }
}

/// `predicate` answered `false` for a SubStation Alpha line seen as `l`.
pub open spec fn ass_rejected<F: Fn(&AssLine) -> bool>(predicate: F, l: AssLineModel) -> bool {
    exists|y: AssLine| y.deep_view() == l && #[trigger] call_ensures(predicate, (&y,), false)
}

impl AssLines {
    /// Reads lines up to the first one that `predicate` accepts and returns
    /// it; `None` where the lines end first.
    pub fn find<F: Fn(&AssLine) -> bool>(&mut self, predicate: F) -> (r: Option<AssLine>)
        requires
            old(self).wf(),
            forall|l: &AssLine| #[trigger] call_requires(predicate, (l,)),
        ensures
            final(self).wf(),
            exists|n: nat|
                #![trigger ass_run(old(self).model(), n)]
                {
                    &&& ass_run(old(self).model(), n) matches Some((ls, m))
                    &&& match r {
                        Some(x) => {
                            &&& ls.len() > 0 && ls.last() == x.deep_view()
                            &&& call_ensures(predicate, (&x,), true)
                            &&& final(self).model() == m
                            &&& forall|i: int| 0 <= i < ls.len() - 1 ==> ass_rejected(predicate, #[trigger] ls[i])
                        },
                        None => {
                            &&& ass_lines_next(m).0 is None
                            &&& final(self).model() == ass_lines_next(m).1
                            &&& forall|i: int| 0 <= i < ls.len() ==> ass_rejected(predicate, #[trigger] ls[i])
                        },
                    }
                },
    {
        let ghost mut n: nat = 0;
        let ghost mut ls: Seq<AssLineModel> = seq![];
        loop
            invariant
                self.wf(),
                ass_run(old(self).model(), n) == Some((ls, self.model())),
                forall|i: int| 0 <= i < ls.len() ==> ass_rejected(predicate, #[trigger] ls[i]),
                forall|l: &AssLine| #[trigger] call_requires(predicate, (l,)),
            decreases self.model().source.remaining(), ass_trans_rank(self.model().trans),
        {
            let ghost m = self.model();
            proof {
                lemma_ass_lines_next_progress(m);
            }
            let line = match self.next() {
                Some(l) => l,
                None => {
                    assert(ass_run(old(self).model(), n) == Some((ls, m)));
                    return None;
                },
            };
            let ghost ls0 = ls;
            proof {
                n = n + 1;
                ls = ls.push(line.deep_view());
            }
            if predicate(&line) {
                assert(forall|i: int| 0 <= i < ls.len() - 1 ==> ls[i] == ls0[i]);
                return Some(line);
            }
            assert(ass_rejected(predicate, line.deep_view()));
            assert(forall|i: int| 0 <= i < ls.len() - 1 ==> ls[i] == ls0[i]);
        }
    }
}

} // verus!
