//! What standardization of SubRip subtitles guarantees: every block of its
//! output is standard, the blocks come in the order of their times (those
//! with the same times in the order they were given), lines keep their
//! bytes, and standardizing again changes nothing.
use crate::srt::block::{block_is_standard, first_non_text};
use crate::srt::line::{SrtLineModel, SrtLineType};
use crate::srt::subtitles::{
    blocks_standard_from, finish_block, first_blank, first_non_blank, group_from, groups,
    block_key, insert_pos, is_blank_model, is_standard_tr_model, keep_block, key_lt, kept_blocks,
    lemma_next_block_start_bounds, next_block_start, sort_blocks, standardize_spec,
};
use crate::time::{lemma_order_is_length_order, lemma_total_injective, Time};
use vstd::prelude::*;

verus! {

/// Lines of `b[i..]` up to `first_non_text(b, i)` are text.
proof fn lemma_first_non_text(b: Seq<SrtLineModel>, i: int)
    requires
        0 <= i,
    ensures
        i <= first_non_text(b, i) <= b.len() || (i > b.len() && first_non_text(b, i) == b.len()),
        forall|k: int| i <= k < first_non_text(b, i) ==> (#[trigger] b[k]).1 is Text,
        first_non_text(b, i) < b.len() ==> !(b[first_non_text(b, i)].1 is Text),
    decreases b.len() - i,
{
    if i < b.len() && b[i].1 is Text {
        lemma_first_non_text(b, i + 1);
    }
}

/// Inside a standard block no blank line is followed by one that is not.
proof fn lemma_standard_block_closed(k: Seq<SrtLineModel>)
    requires
        block_is_standard(k),
    ensures
        !is_blank_model(k[0]),
        is_blank_model(k.last()),
        forall|j: int| 1 <= j < k.len() && is_blank_model(#[trigger] k[j - 1]) ==> is_blank_model(k[j]),
{
    lemma_first_non_text(k, 3);
    let p = first_non_text(k, 3);
    assert forall|j: int| 1 <= j < k.len() && is_blank_model(#[trigger] k[j - 1]) implies is_blank_model(
        k[j],
    ) by {
        if j - 1 < p {
            if j - 1 >= 3 {
                assert(k[j - 1].1 is Text);
            }
        }
    }
}

/// Within a block none of whose blank lines is followed by another kind of
/// line, the next block starts only after it.
proof fn lemma_next_block_start_in_block(x: Seq<SrtLineModel>, k: Seq<SrtLineModel>, j: int)
    requires
        k.len() <= x.len(),
        x.subrange(0, k.len() as int) == k,
        1 <= j <= k.len(),
        forall|i: int| 1 <= i < k.len() && is_blank_model(#[trigger] k[i - 1]) ==> is_blank_model(k[i]),
        k.len() < x.len() ==> !is_blank_model(x[k.len() as int]),
        k.len() < x.len() ==> is_blank_model(k.last()),
    ensures
        next_block_start(x, j) == k.len(),
    decreases k.len() - j,
{
    if j < k.len() {
        assert(x[j - 1] == k[j - 1]);
        assert(x[j] == k[j]);
        lemma_next_block_start_in_block(x, k, j + 1);
    } else if j < x.len() {
        assert(x[j - 1] == k[j - 1]);
    }
}

/// Past a prefix `p`, blocks are found in `p + y` as they are in `y`.
proof fn lemma_next_block_start_shift(p: Seq<SrtLineModel>, y: Seq<SrtLineModel>, j: int)
    requires
        1 <= j,
    ensures
        next_block_start(p + y, p.len() + j) == p.len() + next_block_start(y, j),
    decreases y.len() - j,
{
    let x = p + y;
    if j < y.len() {
        assert(x[p.len() + j - 1] == y[j - 1]);
        assert(x[p.len() + j] == y[j]);
        lemma_next_block_start_shift(p, y, j + 1);
    }
}

/// Past a prefix `p`, the blocks of `p + y` are standard where those of `y`
/// are.
proof fn lemma_blocks_standard_shift(p: Seq<SrtLineModel>, y: Seq<SrtLineModel>, i: int)
    requires
        0 <= i,
    ensures
        blocks_standard_from(p + y, p.len() + i) == blocks_standard_from(y, i),
    decreases y.len() - i,
{
    let x = p + y;
    if i < y.len() {
        lemma_next_block_start_shift(p, y, i + 1);
        lemma_next_block_start_bounds(y, i + 1);
        let e = next_block_start(y, i + 1);
        assert(x.subrange(p.len() + i, p.len() + e) =~= y.subrange(i, e));
        lemma_blocks_standard_shift(p, y, e);
    }
}

/// Standard blocks, one after another, make lines whose blocks are all
/// standard.
proof fn lemma_flatten_standard(ks: Seq<Seq<SrtLineModel>>)
    requires
        forall|i: int| 0 <= i < ks.len() ==> block_is_standard(#[trigger] ks[i]),
    ensures
        blocks_standard_from(ks.flatten(), 0),
    decreases ks.len(),
{
    if ks.len() > 0 {
        let k = ks[0];
        let rest = ks.drop_first();
        assert forall|i: int| 0 <= i < rest.len() implies block_is_standard(#[trigger] rest[i]) by {
            assert(rest[i] == ks[i + 1]);
        }
        lemma_flatten_standard(rest);
        let y = rest.flatten();
        let x = ks.flatten();
        assert(x == k + y);
        lemma_standard_block_closed(k);
        if y.len() > 0 {
            assert(rest.len() > 0);
            assert(y == rest[0] + rest.drop_first().flatten());
            assert(block_is_standard(rest[0]));
            lemma_standard_block_closed(rest[0]);
            assert(x[k.len() as int] == y[0]);
        }
        assert(x.subrange(0, k.len() as int) =~= k);
        lemma_next_block_start_in_block(x, k, 1);
        lemma_blocks_standard_shift(k, y, 0);
    }
}

/// A block whose first line is not blank and none of whose blank lines is
/// followed by another kind of line.
pub open spec fn closed_block(g: Seq<SrtLineModel>) -> bool {
    g.len() > 0 ==> {
        &&& !is_blank_model(g[0])
        &&& forall|j: int|
            1 <= j < g.len() && is_blank_model(#[trigger] g[j - 1]) ==> is_blank_model(g[j])
    }
}

/// In a closed block every line after a blank one is blank.
proof fn lemma_closed_after(g: Seq<SrtLineModel>, j: int, m: int)
    requires
        closed_block(g),
        0 <= j <= m < g.len(),
        is_blank_model(g[j]),
    ensures
        is_blank_model(g[m]),
    decreases m - j,
{
    if j < m {
        lemma_closed_after(g, j, m - 1);
        assert(is_blank_model(g[m - 1]));
    }
}

/// Lines of `b[i..]` before `first_blank(b, i)` are not blank.
proof fn lemma_first_blank(b: Seq<SrtLineModel>, i: int)
    requires
        0 <= i <= b.len(),
    ensures
        i <= first_blank(b, i) <= b.len(),
        forall|k: int| i <= k < first_blank(b, i) ==> !is_blank_model(#[trigger] b[k]),
        first_blank(b, i) < b.len() ==> is_blank_model(b[first_blank(b, i)]),
    decreases b.len() - i,
{
    if i < b.len() && !is_blank_model(b[i]) {
        lemma_first_blank(b, i + 1);
    }
}

/// A block that standardization keeps is standard.
proof fn lemma_kept_standard(g: Seq<SrtLineModel>)
    requires
        closed_block(g),
        keep_block(g) is Some,
    ensures
        block_is_standard(keep_block(g).unwrap()),
{
    let c = if is_standard_tr_model(g[0]) && !is_blank_model(g[1]) {
        seq![(seq![], SrtLineType::Number)] + g
    } else {
        g
    };
    assert(keep_block(g) == Some(finish_block(c)));
    assert(closed_block(c)) by {
        if c.len() > g.len() {
            assert forall|j: int| 1 <= j < c.len() && is_blank_model(#[trigger] c[j - 1]) implies is_blank_model(c[j]) by {
                assert(c[j] == g[j - 1]);
                if j >= 2 {
                    assert(c[j - 1] == g[j - 2]);
                }
            }
        }
    }
    assert(c.len() >= 3 && is_standard_tr_model(c[1]) && !is_blank_model(c[2]));
    lemma_first_blank(c, 2);
    let p = first_blank(c, 2);
    assert(p >= 3);
    let texts = Seq::new((p - 2) as nat, |k: int| (c[2 + k].0, SrtLineType::Text));
    let body = c.take(2) + texts + c.skip(p);
    let k = finish_block(c);
    assert(k == (if p >= c.len() { body.push((seq![], SrtLineType::Blank)) } else { body }));
    assert(k.len() > p);
    assert(k[0] == c[0]);
    assert(k[1] == c[1]);
    assert(k[2].1 is Text);
    assert(is_blank_model(k[p])) by {
        if p < c.len() {
            assert(k[p] == c[p]);
        }
    }
    lemma_first_non_text(k, 3);
    let f = first_non_text(k, 3);
    assert(forall|m: int| 3 <= m < p ==> (#[trigger] k[m]).1 is Text) by {
        assert forall|m: int| 3 <= m < p implies (#[trigger] k[m]).1 is Text by {
            assert(k[m] == texts[m - 2]);
        }
    }
    if f < p {
        assert(k[f].1 is Text);
    }
    if f > p {
        assert(k[p].1 is Text);
    }
    assert(f == p);
    assert forall|m: int| p <= m < k.len() implies (#[trigger] k[m]).1 is Blank by {
        if p < c.len() {
            assert(k[m] == c[m]);
            lemma_closed_after(c, p, m);
        }
    }
    assert(k.last() == k[k.len() - 1]);
}

/// The blocks that grouping gives are closed, given that the block being
/// read is closed and starts with a line that is not blank.
proof fn lemma_group_from_closed(b: Seq<SrtLineModel>, i: int, cur: Seq<SrtLineModel>, was_blank: bool)
    requires
        0 <= i,
        closed_block(cur),
        was_blank == (cur.len() > 0 && is_blank_model(cur.last())),
        cur.len() == 0 ==> (i >= b.len() || !is_blank_model(b[i])),
    ensures
        forall|j: int|
            0 <= j < group_from(b, i, cur, was_blank).len() ==> closed_block(
                #[trigger] group_from(b, i, cur, was_blank)[j],
            ),
    decreases b.len() - i,
{
    let res = group_from(b, i, cur, was_blank);
    if i >= b.len() {
        assert(res == seq![cur]);
        assert(res[0] == cur);
    } else if !is_blank_model(b[i]) && was_blank {
        let one = seq![b[i]];
        lemma_group_from_closed(b, i + 1, one, false);
        let rest = group_from(b, i + 1, one, false);
        assert(res == seq![cur] + rest);
        assert forall|j: int| 0 <= j < res.len() implies closed_block(#[trigger] res[j]) by {
            if j > 0 {
                assert(res[j] == rest[j - 1]);
            }
        }
    } else {
        let c2 = cur.push(b[i]);
        assert(closed_block(c2)) by {
            assert forall|j: int| 1 <= j < c2.len() && is_blank_model(#[trigger] c2[j - 1]) implies is_blank_model(c2[j]) by {
                if j < cur.len() {
                    assert(c2[j] == cur[j]);
                    assert(c2[j - 1] == cur[j - 1]);
                } else {
                    assert(c2[j - 1] == cur.last());
                }
            }
        }
        lemma_group_from_closed(b, i + 1, c2, is_blank_model(b[i]));
        assert(res == group_from(b, i + 1, c2, is_blank_model(b[i])));
    }
}

/// The first line that is not blank is not blank.
proof fn lemma_first_non_blank(b: Seq<SrtLineModel>, i: int)
    requires
        0 <= i,
    ensures
        i <= first_non_blank(b, i) <= b.len() || (i > b.len() && first_non_blank(b, i) == b.len()),
        first_non_blank(b, i) < b.len() ==> !is_blank_model(b[first_non_blank(b, i)]),
    decreases b.len() - i,
{
    if i < b.len() && is_blank_model(b[i]) {
        lemma_first_non_blank(b, i + 1);
    }
}

/// Every block that grouping gives is closed.
proof fn lemma_groups_closed(b: Seq<SrtLineModel>)
    ensures
        forall|j: int| 0 <= j < groups(b).len() ==> closed_block(#[trigger] groups(b)[j]),
{
    lemma_first_non_blank(b, 0);
    lemma_group_from_closed(b, first_non_blank(b, 0), seq![], false);
}

/// Each block that standardization keeps comes from one of the blocks.
proof fn lemma_kept_from(gs: Seq<Seq<SrtLineModel>>)
    ensures
        forall|j: int|
            0 <= j < kept_blocks(gs).len() ==> exists|i: int|
                0 <= i < gs.len() && keep_block(#[trigger] gs[i]) == Some(#[trigger] kept_blocks(gs)[j]),
    decreases gs.len(),
{
    if gs.len() > 0 {
        let init = gs.drop_last();
        lemma_kept_from(init);
        let kd = kept_blocks(gs);
        let ki = kept_blocks(init);
        assert forall|j: int| 0 <= j < kd.len() implies exists|i: int|
            0 <= i < gs.len() && keep_block(#[trigger] gs[i]) == Some(#[trigger] kd[j]) by {
            if j < ki.len() {
                assert(kd[j] == ki[j]);
                let i = choose|i: int| 0 <= i < init.len() && keep_block(#[trigger] init[i]) == Some(ki[j]);
                assert(gs[i] == init[i]);
            } else {
                assert(keep_block(gs[gs.len() - 1]) == Some(kd[j]));
            }
        }
    }
}

/// Where a block is inserted in sorting lies within the blocks sorted so far.
proof fn lemma_insert_pos_bounds(s: Seq<Seq<SrtLineModel>>, k: (Time, Time), j: int)
    requires
        0 <= j,
    ensures
        0 <= insert_pos(s, k, j) <= s.len(),
        j <= s.len() ==> j <= insert_pos(s, k, j),
    decreases s.len() - j,
{
    if j < s.len() {
        lemma_insert_pos_bounds(s, k, j + 1);
    }
}

/// Sorting keeps the blocks: as many, each one of the given ones.
proof fn lemma_sort_blocks_elements(bs: Seq<Seq<SrtLineModel>>)
    ensures
        sort_blocks(bs).len() == bs.len(),
        forall|j: int|
            0 <= j < bs.len() ==> exists|i: int| 0 <= i < bs.len() && #[trigger] sort_blocks(bs)[j] == bs[i],
    decreases bs.len(),
{
    if bs.len() > 0 {
        let init = bs.drop_last();
        lemma_sort_blocks_elements(init);
        let s = sort_blocks(init);
        let x = bs.last();
        lemma_insert_pos_bounds(s, block_key(x), 0);
        let pos = insert_pos(s, block_key(x), 0);
        let r = s.insert(pos, x);
        assert(sort_blocks(bs) == r);
        assert forall|j: int| 0 <= j < bs.len() implies exists|i: int| 0 <= i < bs.len() && #[trigger] r[j] == bs[i] by {
            if j < pos {
                assert(r[j] == s[j]);
                let i = choose|i: int| 0 <= i < init.len() && s[j] == init[i];
                assert(init[i] == bs[i]);
            } else if j == pos {
                assert(r[j] == bs[bs.len() - 1]);
            } else {
                assert(r[j] == s[j - 1]);
                let i = choose|i: int| 0 <= i < init.len() && s[j - 1] == init[i];
                assert(init[i] == bs[i]);
            }
        }
    }
}

/// Standardized subtitles are standard: where standardization succeeds,
/// every block of its output is a number, a standard time range, text and
/// blank lines.
pub proof fn lemma_standardize_gives_standard(b: Seq<SrtLineModel>)
    ensures
        standardize_spec(b) matches Some(out) ==> blocks_standard_from(out, 0),
{
    let gs = groups(b);
    let kept = kept_blocks(gs);
    if kept.len() > 0 {
        lemma_groups_closed(b);
        lemma_kept_from(gs);
        assert forall|j: int| 0 <= j < kept.len() implies block_is_standard(#[trigger] kept[j]) by {
            let i = choose|i: int| 0 <= i < gs.len() && keep_block(#[trigger] gs[i]) == Some(kept[j]);
            lemma_kept_standard(gs[i]);
        }
        let sorted = sort_blocks(kept);
        lemma_sort_blocks_elements(kept);
        assert forall|j: int| 0 <= j < sorted.len() implies block_is_standard(#[trigger] sorted[j]) by {
            let i = choose|i: int| 0 <= i < kept.len() && sorted[j] == kept[i];
        }
        sorted.lemma_flatten_and_flatten_alt_are_equivalent();
        lemma_flatten_standard(sorted);
    }
}

/// The blocks `s` come in the order of their time ranges: none is before
/// one that comes earlier.
pub open spec fn blocks_in_time_order(s: Seq<Seq<SrtLineModel>>) -> bool {
    forall|i: int, j: int|
        0 <= i < j < s.len() ==> !key_lt(#[trigger] block_key(s[j]), #[trigger] block_key(s[i]))
}

/// The order of time ranges never goes both ways and is transitive.
proof fn lemma_key_lt_order(a: (Time, Time), b: (Time, Time), c: (Time, Time))
    ensures
        !(key_lt(a, b) && key_lt(b, a)),
        key_lt(a, b) && key_lt(b, c) ==> key_lt(a, c),
{
}

/// Where a block is inserted in sorting: after every block whose time range
/// is not after its own, before the first whose time range is.
proof fn lemma_insert_pos(s: Seq<Seq<SrtLineModel>>, k: (Time, Time), j: int)
    requires
        0 <= j <= s.len(),
    ensures
        j <= insert_pos(s, k, j) <= s.len(),
        forall|m: int| j <= m < insert_pos(s, k, j) ==> !key_lt(k, #[trigger] block_key(s[m])),
        insert_pos(s, k, j) < s.len() ==> key_lt(k, block_key(s[insert_pos(s, k, j)])),
    decreases s.len() - j,
{
    if j < s.len() && !key_lt(k, block_key(s[j])) {
        lemma_insert_pos(s, k, j + 1);
    }
}

/// Sorting puts blocks in the order of their time ranges, and keeps them:
/// as many as were given, each one of them.
pub proof fn lemma_sort_blocks_in_time_order(bs: Seq<Seq<SrtLineModel>>)
    ensures
        blocks_in_time_order(sort_blocks(bs)),
        sort_blocks(bs).len() == bs.len(),
        forall|j: int|
            0 <= j < bs.len() ==> exists|i: int| 0 <= i < bs.len() && #[trigger] sort_blocks(bs)[j] == bs[i],
    decreases bs.len(),
{
    lemma_sort_blocks_elements(bs);
    if bs.len() > 0 {
        let init = bs.drop_last();
        lemma_sort_blocks_in_time_order(init);
        let s = sort_blocks(init);
        let x = bs.last();
        let k = block_key(x);
        lemma_insert_pos(s, k, 0);
        let pos = insert_pos(s, k, 0);
        let r = s.insert(pos, x);
        assert(sort_blocks(bs) == r);
        assert forall|i: int, j: int| 0 <= i < j < r.len() implies !key_lt(
            #[trigger] block_key(r[j]),
            #[trigger] block_key(r[i]),
        ) by {
            if j < pos {
                assert(r[i] == s[i] && r[j] == s[j]);
            } else if j == pos {
                assert(r[i] == s[i]);
                assert(!key_lt(k, block_key(s[i])));
            } else if i == pos {
                assert(r[j] == s[j - 1]);
                assert(key_lt(k, block_key(s[pos])));
                if j - 1 > pos {
                    assert(!key_lt(block_key(s[j - 1]), block_key(s[pos])));
                }
                lemma_key_lt_order(block_key(s[j - 1]), k, block_key(s[pos]));
            } else if i < pos {
                assert(r[i] == s[i] && r[j] == s[j - 1]);
            } else {
                assert(r[i] == s[i - 1] && r[j] == s[j - 1]);
            }
        }
    }
}

/// The blocks of `b[i..]`, each a run of lines up to the next line that is
/// not blank and follows a blank one.
pub open spec fn block_list(b: Seq<SrtLineModel>, i: int) -> Seq<Seq<SrtLineModel>>
    decreases b.len() - i,
{
    if i < 0 || i >= b.len() {
        seq![]
    } else {
        proof {
            lemma_next_block_start_bounds(b, i + 1);
        }
        let e = next_block_start(b, i + 1);
        seq![b.subrange(i, e)] + block_list(b, e)
    }
}

/// Grouping splits lines where [`block_list`] does.
proof fn lemma_group_from_blocks(b: Seq<SrtLineModel>, s: int, i: int)
    requires
        0 <= s < i <= b.len(),
    ensures
        group_from(b, i, b.subrange(s, i), is_blank_model(b[i - 1])) == seq![
            b.subrange(s, next_block_start(b, i)),
        ] + block_list(b, next_block_start(b, i)),
    decreases b.len() - i,
{
    lemma_next_block_start_bounds(b, i);
    if i < b.len() {
        if !is_blank_model(b[i]) && is_blank_model(b[i - 1]) {
            assert(next_block_start(b, i) == i);
            lemma_group_from_blocks(b, i, i + 1);
            assert(b.subrange(i, i + 1) =~= seq![b[i]]);
            lemma_next_block_start_bounds(b, i + 1);
        } else {
            assert(next_block_start(b, i) == next_block_start(b, i + 1));
            lemma_group_from_blocks(b, s, i + 1);
            assert(b.subrange(s, i).push(b[i]) =~= b.subrange(s, i + 1));
        }
    } else {
        assert(block_list(b, b.len() as int) =~= Seq::<Seq<SrtLineModel>>::empty());
    }
}

/// A standard block is kept by standardization as it is.
proof fn lemma_keep_standard_block(k: Seq<SrtLineModel>)
    requires
        block_is_standard(k),
    ensures
        keep_block(k) == Some(k),
{
    lemma_first_non_text(k, 3);
    lemma_first_blank(k, 2);
    let f = first_non_text(k, 3);
    let p = first_blank(k, 2);
    if p < f {
        if p >= 3 {
            assert(k[p].1 is Text);
        }
    }
    if p > f {
        assert(!is_blank_model(k[f]));
    }
    assert(p == f);
    let texts = Seq::new((p - 2) as nat, |j: int| (k[2 + j].0, SrtLineType::Text));
    assert(texts =~= k.subrange(2, p)) by {
        assert forall|j: int| 0 <= j < texts.len() implies texts[j] == k.subrange(2, p)[j] by {
            if 2 + j >= 3 {
                assert(k[2 + j].1 is Text);
            }
        }
    }
    assert(k.take(2) + texts + k.skip(p) =~= k);
}

/// The blocks of `b[i..]` once kept are the same blocks.
proof fn lemma_kept_all(bs: Seq<Seq<SrtLineModel>>)
    requires
        forall|j: int| 0 <= j < bs.len() ==> keep_block(#[trigger] bs[j]) == Some(bs[j]),
    ensures
        kept_blocks(bs) == bs,
    decreases bs.len(),
{
    if bs.len() > 0 {
        let init = bs.drop_last();
        assert forall|j: int| 0 <= j < init.len() implies keep_block(#[trigger] init[j]) == Some(init[j]) by {
            assert(init[j] == bs[j]);
        }
        lemma_kept_all(init);
        assert(keep_block(bs.last()) == Some(bs[bs.len() - 1]));
        assert(init.push(bs.last()) =~= bs);
    }
}

/// Blocks already in time order are left in their order by sorting.
proof fn lemma_sort_sorted(bs: Seq<Seq<SrtLineModel>>)
    requires
        blocks_in_time_order(bs),
    ensures
        sort_blocks(bs) == bs,
    decreases bs.len(),
{
    if bs.len() > 0 {
        let init = bs.drop_last();
        assert(blocks_in_time_order(init)) by {
            assert forall|i: int, j: int| 0 <= i < j < init.len() implies !key_lt(
                #[trigger] block_key(init[j]),
                #[trigger] block_key(init[i]),
            ) by {
                assert(init[i] == bs[i] && init[j] == bs[j]);
            }
        }
        lemma_sort_sorted(init);
        let k = block_key(bs.last());
        lemma_insert_pos(init, k, 0);
        let pos = insert_pos(init, k, 0);
        if pos < init.len() {
            assert(key_lt(k, block_key(init[pos])));
            assert(init[pos] == bs[pos]);
            assert(!key_lt(block_key(bs[bs.len() - 1]), block_key(bs[pos])));
        }
        assert(init.insert(init.len() as int, bs.last()) =~= bs);
    }
}

/// The blocks of standard lines are standard, and their lines one after
/// another are the lines.
proof fn lemma_block_list_standard(b: Seq<SrtLineModel>, i: int)
    requires
        0 <= i <= b.len(),
        blocks_standard_from(b, i),
    ensures
        forall|j: int| 0 <= j < block_list(b, i).len() ==> block_is_standard(#[trigger] block_list(b, i)[j]),
        block_list(b, i).flatten() == b.subrange(i, b.len() as int),
    decreases b.len() - i,
{
    if i < b.len() {
        lemma_next_block_start_bounds(b, i + 1);
        let e = next_block_start(b, i + 1);
        lemma_block_list_standard(b, e);
        let bl = block_list(b, i);
        assert(bl.drop_first() == block_list(b, e));
        assert forall|j: int| 0 <= j < bl.len() implies block_is_standard(#[trigger] bl[j]) by {
            if j > 0 {
                assert(bl[j] == block_list(b, e)[j - 1]);
            }
        }
        assert(b.subrange(i, e) + b.subrange(e, b.len() as int) =~= b.subrange(i, b.len() as int));
    } else {
        assert(b.subrange(i, b.len() as int) =~= Seq::<SrtLineModel>::empty());
    }
}

/// Standardization leaves standard subtitles whose blocks are in the order
/// of their times as they are.
pub proof fn lemma_standardize_keeps_standard(b: Seq<SrtLineModel>)
    requires
        b.len() > 0,
        blocks_standard_from(b, 0),
        blocks_in_time_order(block_list(b, 0)),
    ensures
        standardize_spec(b) == Some(b),
{
    lemma_next_block_start_bounds(b, 1);
    let bl = block_list(b, 0);
    lemma_block_list_standard(b, 0);
    assert(block_is_standard(bl[0]));
    assert(bl[0][0] == b[0]);
    lemma_first_non_blank(b, 0);
    assert(first_non_blank(b, 0) == 0);
    assert(groups(b) == group_from(b, 1, b.subrange(0, 1), is_blank_model(b[0]))) by {
        assert(Seq::<SrtLineModel>::empty().push(b[0]) =~= b.subrange(0, 1));
    }
    lemma_group_from_blocks(b, 0, 1);
    assert(groups(b) == bl);
    assert forall|j: int| 0 <= j < bl.len() implies keep_block(#[trigger] bl[j]) == Some(bl[j]) by {
        lemma_keep_standard_block(bl[j]);
    }
    lemma_kept_all(bl);
    lemma_sort_sorted(bl);
    bl.lemma_flatten_and_flatten_alt_are_equivalent();
    assert(b.subrange(0, b.len() as int) =~= b);
}

/// Past a prefix `p`, the blocks of `p + y` are those of `y`.
proof fn lemma_block_list_shift(p: Seq<SrtLineModel>, y: Seq<SrtLineModel>, i: int)
    requires
        0 <= i,
    ensures
        block_list(p + y, p.len() + i) == block_list(y, i),
    decreases y.len() - i,
{
    let x = p + y;
    if i < y.len() {
        lemma_next_block_start_shift(p, y, i + 1);
        lemma_next_block_start_bounds(y, i + 1);
        let e = next_block_start(y, i + 1);
        assert(x.subrange(p.len() + i, p.len() + e) =~= y.subrange(i, e));
        lemma_block_list_shift(p, y, e);
    }
}

/// Standard blocks, one after another, split back into the same blocks.
proof fn lemma_block_list_flatten(ks: Seq<Seq<SrtLineModel>>)
    requires
        forall|i: int| 0 <= i < ks.len() ==> block_is_standard(#[trigger] ks[i]),
    ensures
        block_list(ks.flatten(), 0) == ks,
    decreases ks.len(),
{
    if ks.len() > 0 {
        let k = ks[0];
        let rest = ks.drop_first();
        assert forall|i: int| 0 <= i < rest.len() implies block_is_standard(#[trigger] rest[i]) by {
            assert(rest[i] == ks[i + 1]);
        }
        lemma_block_list_flatten(rest);
        let y = rest.flatten();
        let x = ks.flatten();
        assert(x == k + y);
        lemma_standard_block_closed(k);
        if y.len() > 0 {
            assert(y == rest[0] + rest.drop_first().flatten());
            lemma_standard_block_closed(rest[0]);
            assert(x[k.len() as int] == y[0]);
        }
        assert(x.subrange(0, k.len() as int) =~= k);
        lemma_next_block_start_in_block(x, k, 1);
        lemma_block_list_shift(k, y, 0);
        assert(block_list(x, 0) =~= seq![k] + rest);
    }
}

/// Standardizing twice gives what standardizing once gives.
pub proof fn lemma_standardize_idempotent(b: Seq<SrtLineModel>)
    ensures
        standardize_spec(b) matches Some(out) ==> standardize_spec(out) == Some(out),
{
    let gs = groups(b);
    let kept = kept_blocks(gs);
    if kept.len() > 0 {
        lemma_standardize_gives_standard(b);
        lemma_groups_closed(b);
        lemma_kept_from(gs);
        assert forall|j: int| 0 <= j < kept.len() implies block_is_standard(#[trigger] kept[j]) by {
            let i = choose|i: int| 0 <= i < gs.len() && keep_block(#[trigger] gs[i]) == Some(kept[j]);
            lemma_kept_standard(gs[i]);
        }
        let sorted = sort_blocks(kept);
        lemma_sort_blocks_in_time_order(kept);
        assert forall|j: int| 0 <= j < sorted.len() implies block_is_standard(#[trigger] sorted[j]) by {
            let i = choose|i: int| 0 <= i < kept.len() && sorted[j] == kept[i];
        }
        sorted.lemma_flatten_and_flatten_alt_are_equivalent();
        let out = sorted.flatten();
        lemma_block_list_flatten(sorted);
        assert(block_is_standard(sorted[0]));
        assert(out == sorted[0] + sorted.drop_first().flatten());
        assert(out.len() > 0);
        lemma_standardize_keeps_standard(out);
    }
}

/// A line of standardized output that keeps its bytes: the raw bytes of a
/// line of `b` (its type may differ), or an empty number or blank line that
/// standardization added.
pub open spec fn line_from(b: Seq<SrtLineModel>, l: SrtLineModel) -> bool {
    (l.0.len() == 0 && (l.1 is Number || l.1 is Blank)) || exists|i: int|
        0 <= i < b.len() && #[trigger] b[i].0 == l.0
}

/// `l` is one of the lines of `b`.
pub open spec fn line_of(b: Seq<SrtLineModel>, l: SrtLineModel) -> bool {
    exists|i: int| 0 <= i < b.len() && #[trigger] b[i] == l
}

/// The blocks that grouping gives hold lines of `b`.
proof fn lemma_group_from_lines(b: Seq<SrtLineModel>, i: int, cur: Seq<SrtLineModel>, was_blank: bool)
    requires
        0 <= i,
        forall|x: int| 0 <= x < cur.len() ==> line_of(b, #[trigger] cur[x]),
    ensures
        forall|j: int, x: int|
            0 <= j < group_from(b, i, cur, was_blank).len() && 0 <= x < group_from(b, i, cur, was_blank)[j].len()
                ==> line_of(b, #[trigger] group_from(b, i, cur, was_blank)[j][x]),
    decreases b.len() - i,
{
    let res = group_from(b, i, cur, was_blank);
    if i >= b.len() {
        assert(res == seq![cur]);
        assert(res[0] == cur);
    } else {
        assert(line_of(b, b[i]));
        if !is_blank_model(b[i]) && was_blank {
            let one = seq![b[i]];
            lemma_group_from_lines(b, i + 1, one, false);
            let rest = group_from(b, i + 1, one, false);
            assert(res == seq![cur] + rest);
            assert forall|j: int, x: int| 0 <= j < res.len() && 0 <= x < res[j].len() implies line_of(
                b,
                #[trigger] res[j][x],
            ) by {
                if j > 0 {
                    assert(res[j] == rest[j - 1]);
                } else {
                    assert(res[0] == cur);
                }
            }
        } else {
            let c2 = cur.push(b[i]);
            assert forall|x: int| 0 <= x < c2.len() implies line_of(b, #[trigger] c2[x]) by {
                if x < cur.len() {
                    assert(c2[x] == cur[x]);
                }
            }
            lemma_group_from_lines(b, i + 1, c2, is_blank_model(b[i]));
            assert(res == group_from(b, i + 1, c2, is_blank_model(b[i])));
        }
    }
}

/// A block that standardization keeps holds lines that keep their bytes.
proof fn lemma_kept_lines(b: Seq<SrtLineModel>, g: Seq<SrtLineModel>)
    requires
        forall|x: int| 0 <= x < g.len() ==> line_of(b, #[trigger] g[x]),
        keep_block(g) is Some,
    ensures
        forall|x: int|
            0 <= x < keep_block(g).unwrap().len() ==> line_from(b, #[trigger] keep_block(g).unwrap()[x]),
{
    let inserted = is_standard_tr_model(g[0]) && !is_blank_model(g[1]);
    let c = if inserted {
        seq![(Seq::<u8>::empty(), SrtLineType::Number)] + g
    } else {
        g
    };
    assert(keep_block(g) == Some(finish_block(c)));
    assert forall|x: int| 0 <= x < c.len() && (x > 0 || !inserted) implies line_of(b, #[trigger] c[x]) by {
        if inserted {
            assert(c[x] == g[x - 1]);
        }
    }
    assert(line_from(b, c[0])) by {
        if !inserted {
            let i = choose|i: int| 0 <= i < b.len() && #[trigger] b[i] == c[0];
            assert(b[i].0 == c[0].0);
        }
    }
    lemma_first_blank(c, 2);
    let p = first_blank(c, 2);
    let texts = Seq::new((p - 2) as nat, |k: int| (c[2 + k].0, SrtLineType::Text));
    let k = finish_block(c);
    assert forall|x: int| 0 <= x < k.len() implies line_from(b, #[trigger] k[x]) by {
        if x == 0 {
            assert(k[x] == c[0]);
        } else if x < p || (x < c.len()) {
            assert(line_of(b, c[x]));
            let i = choose|i: int| 0 <= i < b.len() && #[trigger] b[i] == c[x];
            if x < 2 || x >= p {
                assert(k[x] == c[x]);
            } else {
                assert(k[x] == texts[x - 2]);
            }
            assert(b[i].0 == k[x].0);
        } else {
            assert(k[x] == (Seq::<u8>::empty(), SrtLineType::Blank));
        }
    }
}

/// Standardization keeps the bytes of lines: each line of its output has
/// the raw bytes of a line it was given (its type may change), or is an
/// empty number or blank line that it added.
pub proof fn lemma_standardize_keeps_raws(b: Seq<SrtLineModel>)
    ensures
        standardize_spec(b) matches Some(out) ==> forall|j: int| 0 <= j < out.len() ==> line_from(b, #[trigger] out[j]),
{
    let gs = groups(b);
    let kept = kept_blocks(gs);
    if kept.len() > 0 {
        lemma_first_non_blank(b, 0);
        lemma_group_from_lines(b, first_non_blank(b, 0), seq![], false);
        lemma_kept_from(gs);
        assert forall|j: int, x: int| 0 <= j < kept.len() && 0 <= x < kept[j].len() implies line_from(
            b,
            #[trigger] kept[j][x],
        ) by {
            let i = choose|i: int| 0 <= i < gs.len() && keep_block(#[trigger] gs[i]) == Some(kept[j]);
            assert(gs == group_from(b, first_non_blank(b, 0), seq![], false));
            assert forall|y: int| 0 <= y < gs[i].len() implies line_of(b, #[trigger] gs[i][y]) by {
                assert(gs[i][y] == group_from(b, first_non_blank(b, 0), seq![], false)[i][y]);
            }
            lemma_kept_lines(b, gs[i]);
            assert(keep_block(gs[i]).unwrap() == kept[j]);
            assert(line_from(b, keep_block(gs[i]).unwrap()[x]));
        }
        let sorted = sort_blocks(kept);
        lemma_sort_blocks_elements(kept);
        assert forall|j: int, x: int| 0 <= j < sorted.len() && 0 <= x < sorted[j].len() implies line_from(
            b,
            #[trigger] sorted[j][x],
        ) by {
            let i = choose|i: int| 0 <= i < kept.len() && sorted[j] == kept[i];
            assert(kept[i][x] == sorted[j][x]);
        }
        sorted.lemma_flatten_and_flatten_alt_are_equivalent();
        lemma_flatten_lines(b, sorted);
    }
}

/// Blocks of lines that keep their bytes, one after another, hold lines that
/// keep their bytes.
proof fn lemma_flatten_lines(b: Seq<SrtLineModel>, ks: Seq<Seq<SrtLineModel>>)
    requires
        forall|j: int, x: int| 0 <= j < ks.len() && 0 <= x < ks[j].len() ==> line_from(b, #[trigger] ks[j][x]),
    ensures
        forall|y: int| 0 <= y < ks.flatten().len() ==> line_from(b, #[trigger] ks.flatten()[y]),
    decreases ks.len(),
{
    if ks.len() > 0 {
        let rest = ks.drop_first();
        assert forall|j: int, x: int| 0 <= j < rest.len() && 0 <= x < rest[j].len() implies line_from(
            b,
            #[trigger] rest[j][x],
        ) by {
            assert(rest[j] == ks[j + 1]);
        }
        lemma_flatten_lines(b, rest);
        let f = ks.flatten();
        assert(f == ks[0] + rest.flatten());
        assert forall|y: int| 0 <= y < f.len() implies line_from(b, #[trigger] f[y]) by {
            if y < ks[0].len() {
                assert(f[y] == ks[0][y]);
            } else {
                assert(f[y] == rest.flatten()[y - ks[0].len()]);
            }
        }
    }
}

/// The blocks of `s` whose time range is `k`, in their order.
pub open spec fn blocks_with_key(s: Seq<Seq<SrtLineModel>>, k: (Time, Time)) -> Seq<Seq<SrtLineModel>> {
    s.filter(|x: Seq<SrtLineModel>| block_key(x) == k)
}

/// Past where a block is inserted in sorted blocks, every time range is
/// after its own.
proof fn lemma_after_insert_pos(s: Seq<Seq<SrtLineModel>>, kx: (Time, Time), m: int)
    requires
        blocks_in_time_order(s),
        insert_pos(s, kx, 0) <= m < s.len(),
    ensures
        key_lt(kx, block_key(s[m])),
{
    lemma_insert_pos(s, kx, 0);
    let pos = insert_pos(s, kx, 0);
    if m > pos {
        assert(!key_lt(block_key(s[m]), block_key(s[pos])));
        lemma_key_lt_order(kx, block_key(s[pos]), block_key(s[m]));
    }
}

/// Sorting is stable: the blocks that share a time range keep their order.
pub proof fn lemma_sort_blocks_stable(bs: Seq<Seq<SrtLineModel>>, k: (Time, Time))
    ensures
        blocks_with_key(sort_blocks(bs), k) == blocks_with_key(bs, k),
    decreases bs.len(),
{
    let p = |x: Seq<SrtLineModel>| block_key(x) == k;
    if bs.len() == 0 {
        assert(sort_blocks(bs) == bs);
    } else {
        let init = bs.drop_last();
        let x = bs.last();
        lemma_sort_blocks_stable(init, k);
        let s = sort_blocks(init);
        lemma_sort_blocks_in_time_order(init);
        lemma_insert_pos(s, block_key(x), 0);
        let pos = insert_pos(s, block_key(x), 0);
        let a = s.take(pos);
        let c = s.skip(pos);
        assert(s.insert(pos, x) =~= a + seq![x] + c);
        assert(s =~= a + c);
        assert(bs =~= init.push(x));
        init.lemma_filter_push(x, p);
        Seq::filter_distributes_over_add(a + seq![x], c, p);
        Seq::filter_distributes_over_add(a, seq![x], p);
        Seq::filter_distributes_over_add(a, c, p);
        Seq::<Seq<SrtLineModel>>::empty().lemma_filter_push(x, p);
        assert(Seq::<Seq<SrtLineModel>>::empty().push(x) =~= seq![x]);
        assert(Seq::<Seq<SrtLineModel>>::empty().filter(p) =~= Seq::<Seq<SrtLineModel>>::empty()) by {
            Seq::<Seq<SrtLineModel>>::empty().lemma_filter_len(p);
        }
        if p(x) {
            assert forall|m: int| 0 <= m < c.len() implies !p(#[trigger] c[m]) by {
                assert(c[m] == s[pos + m]);
                lemma_after_insert_pos(s, block_key(x), pos + m);
            }
            assert(c.all(|y: Seq<SrtLineModel>| !p(y)));
            c.lemma_all_neg_filter_empty(p);
            assert(c.filter(p) =~= Seq::<Seq<SrtLineModel>>::empty());
            assert(a.filter(p) + seq![x] + c.filter(p) =~= (a.filter(p) + c.filter(p)).push(x));
        } else {
            assert(a.filter(p) + Seq::<Seq<SrtLineModel>>::empty() =~= a.filter(p));
        }
    }
}

/// What standardization gives, in full: where it succeeds, its output is
/// standard blocks in the order of their time ranges, those with the same
/// time range in the order in which they were kept from the input; each line
/// keeps the raw bytes of an input line or is an empty number or blank line
/// that was added; and standardizing the output again gives it back.
pub proof fn lemma_standardize_law(b: Seq<SrtLineModel>)
    ensures
        standardize_spec(b) matches Some(out) ==> {
            &&& out.len() > 0
            &&& blocks_standard_from(out, 0)
            &&& blocks_in_time_order(block_list(out, 0))
            &&& forall|k: (Time, Time)|
                #[trigger] blocks_with_key(block_list(out, 0), k) == blocks_with_key(kept_blocks(groups(b)), k)
            &&& forall|j: int| 0 <= j < out.len() ==> line_from(b, #[trigger] out[j])
            &&& standardize_spec(out) == Some(out)
        },
{
    let gs = groups(b);
    let kept = kept_blocks(gs);
    if kept.len() > 0 {
        lemma_standardize_gives_standard(b);
        lemma_standardize_idempotent(b);
        lemma_standardize_keeps_raws(b);
        lemma_groups_closed(b);
        lemma_kept_from(gs);
        assert forall|j: int| 0 <= j < kept.len() implies block_is_standard(#[trigger] kept[j]) by {
            let i = choose|i: int| 0 <= i < gs.len() && keep_block(#[trigger] gs[i]) == Some(kept[j]);
            lemma_kept_standard(gs[i]);
        }
        let sorted = sort_blocks(kept);
        lemma_sort_blocks_in_time_order(kept);
        assert forall|j: int| 0 <= j < sorted.len() implies block_is_standard(#[trigger] sorted[j]) by {
            let i = choose|i: int| 0 <= i < kept.len() && sorted[j] == kept[i];
        }
        sorted.lemma_flatten_and_flatten_alt_are_equivalent();
        let out = sorted.flatten();
        lemma_block_list_flatten(sorted);
        assert(block_list(out, 0) == sorted);
        assert(block_is_standard(sorted[0]));
        assert(out == sorted[0] + sorted.drop_first().flatten());
        assert forall|k: (Time, Time)|
            #[trigger] blocks_with_key(block_list(out, 0), k) == blocks_with_key(kept, k) by {
            lemma_sort_blocks_stable(kept, k);
        }
    }
}

/// Standardized blocks come in the order of their time ranges as timestamps
/// order them: by start, and by end where the starts are the same. Each
/// block of the output has its time range (see [`block_key`]) on its second
/// line; of two blocks, the later one never starts before the earlier one,
/// and where they start together it never ends before it.
pub proof fn lemma_standardize_start_order(b: Seq<SrtLineModel>)
    ensures
        standardize_spec(b) matches Some(out) ==> {
            &&& forall|i: int|
                0 <= i < block_list(out, 0).len() ==> #[trigger] block_list(out, 0)[i][1].1 == SrtLineType::TimeRange(
                    block_key(block_list(out, 0)[i]),
                )
            &&& forall|i: int, j: int|
                0 <= i < j < block_list(out, 0).len() ==> {
                    let ri = block_key(#[trigger] block_list(out, 0)[i]);
                    let rj = block_key(#[trigger] block_list(out, 0)[j]);
                    !rj.0.spec_lt(ri.0) && (rj.0 == ri.0 ==> !rj.1.spec_lt(ri.1))
                }
        },
{
    lemma_standardize_law(b);
    if let Some(out) = standardize_spec(b) {
        let bl = block_list(out, 0);
        lemma_block_list_standard(out, 0);
        assert forall|i: int| 0 <= i < bl.len() implies #[trigger] bl[i][1].1 == SrtLineType::TimeRange(block_key(bl[i])) by {
            assert(block_is_standard(bl[i]));
        }
        assert forall|i: int, j: int| 0 <= i < j < bl.len() implies {
            let ri = block_key(#[trigger] bl[i]);
            let rj = block_key(#[trigger] bl[j]);
            !rj.0.spec_lt(ri.0) && (rj.0 == ri.0 ==> !rj.1.spec_lt(ri.1))
        } by {
            assert(!key_lt(block_key(bl[j]), block_key(bl[i])));
        }
    }
}

/// On well-formed times, standardized blocks come in the order of their
/// start times in milliseconds, and of their end times where they start
/// together.
pub proof fn lemma_standardize_start_order_millis(b: Seq<SrtLineModel>, i: int, j: int, ri: (Time, Time), rj: (Time, Time))
    requires
        standardize_spec(b) is Some,
        0 <= i < j < block_list(standardize_spec(b).unwrap(), 0).len(),
        block_list(standardize_spec(b).unwrap(), 0)[i][1].1 == SrtLineType::TimeRange(ri),
        block_list(standardize_spec(b).unwrap(), 0)[j][1].1 == SrtLineType::TimeRange(rj),
        ri.0.is_valid() && ri.1.is_valid() && rj.0.is_valid() && rj.1.is_valid(),
    ensures
        ri.0.total_millis() <= rj.0.total_millis(),
        ri.0.total_millis() == rj.0.total_millis() ==> ri.1.total_millis() <= rj.1.total_millis(),
{
    lemma_standardize_start_order(b);
    let bl = block_list(standardize_spec(b).unwrap(), 0);
    assert(bl[i][1].1 == SrtLineType::TimeRange(block_key(bl[i])));
    assert(bl[j][1].1 == SrtLineType::TimeRange(block_key(bl[j])));
    lemma_order_is_length_order(rj.0, ri.0);
    lemma_order_is_length_order(rj.1, ri.1);
    if ri.0.total_millis() == rj.0.total_millis() {
        lemma_total_injective(ri.0, rj.0);
    }
}

} // verus!
