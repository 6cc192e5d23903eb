//! Helpers on raw bytes: ASCII whitespace trimming, splitting into words,
//! prefix tests and small decimal numbers.
use vstd::prelude::*;

verus! {

/// Whether a byte is ASCII whitespace as `u8::is_ascii_whitespace` defines it:
/// space, tab, line feed, form feed or carriage return.
pub open spec fn is_ws(b: u8) -> bool {
    b == 0x20u8 || b == 0x09u8 || b == 0x0Au8 || b == 0x0Cu8 || b == 0x0Du8
}

/// Whether a byte is an ASCII decimal digit.
pub open spec fn is_digit(b: u8) -> bool {
    0x30u8 <= b <= 0x39u8
}

/// `s` without its leading ASCII whitespace.
pub open spec fn trim_start_spec(s: Seq<u8>) -> Seq<u8>
    decreases s.len(),
{
    if s.len() > 0 && is_ws(s[0]) {
        trim_start_spec(s.drop_first())
    } else {
        s
    }
}

/// `s` without its trailing ASCII whitespace.
pub open spec fn trim_end_spec(s: Seq<u8>) -> Seq<u8>
    decreases s.len(),
{
    if s.len() > 0 && is_ws(s.last()) {
        trim_end_spec(s.drop_last())
    } else {
        s
    }
}

/// `s` without its leading and trailing ASCII whitespace.
pub open spec fn trim_spec(s: Seq<u8>) -> Seq<u8> {
    trim_end_spec(trim_start_spec(s))
}

/// Every byte of `s` is an ASCII digit.
pub open spec fn all_digits(s: Seq<u8>) -> bool {
    forall|i: int| 0 <= i < s.len() ==> #[trigger] is_digit(s[i])
}

/// The number that the decimal digits `s` spell (most significant first).
pub open spec fn digits_value(s: Seq<u8>) -> nat
    decreases s.len(),
{
    if s.len() == 0 {
        0
    } else {
        digits_value(s.drop_last()) * 10 + (s.last() - 0x30u8) as nat
    }
}

/// The UTF-8 byte order mark.
pub open spec fn bom_spec() -> Seq<u8> {
    seq![0xEFu8, 0xBBu8, 0xBFu8]
}

/// `s` without a leading UTF-8 byte order mark.
pub open spec fn trim_bom_spec(s: Seq<u8>) -> Seq<u8> {
    if s.len() >= 3 && s.take(3) == bom_spec() {
        s.skip(3)
    } else {
        s
    }
}

/// The words of `s[i..]`, where `cur` is the part of a word already read:
/// maximal runs of bytes that are not ASCII whitespace.
pub open spec fn words_from(s: Seq<u8>, i: int, cur: Seq<u8>) -> Seq<Seq<u8>>
    decreases s.len() - i,
{
    if i >= s.len() {
        if cur.len() > 0 {
            seq![cur]
        } else {
            seq![]
        }
    } else if is_ws(s[i]) {
        (if cur.len() > 0 {
            seq![cur]
        } else {
            seq![]
        }) + words_from(s, i + 1, seq![])
    } else {
        words_from(s, i + 1, cur.push(s[i]))
    }
}

/// The words of `s`: its maximal non-empty runs of bytes that are not ASCII whitespace.
pub open spec fn words_spec(s: Seq<u8>) -> Seq<Seq<u8>> {
    words_from(s, 0, seq![])
}

pub fn is_ascii_whitespace(b: u8) -> (r: bool)
    ensures
        r == is_ws(b),
{
    b == 0x20u8 || b == 0x09u8 || b == 0x0Au8 || b == 0x0Cu8 || b == 0x0Du8
}

pub fn is_ascii_digit(b: u8) -> (r: bool)
    ensures
        r == is_digit(b),
{
    0x30u8 <= b && b <= 0x39u8
}

proof fn lemma_trim_start_skip(s: Seq<u8>, i: int)
    requires
        0 <= i < s.len(),
        is_ws(s[i]),
    ensures
        trim_start_spec(s.skip(i)) == trim_start_spec(s.skip(i + 1)),
{
    assert(s.skip(i).drop_first() =~= s.skip(i + 1));
}

proof fn lemma_trim_end_take(s: Seq<u8>, i: int)
    requires
        0 < i <= s.len(),
        is_ws(s[i - 1]),
    ensures
        trim_end_spec(s.take(i)) == trim_end_spec(s.take(i - 1)),
{
    assert(s.take(i).drop_last() =~= s.take(i - 1));
}

/// Index of the first byte of `s[from..]` that is not whitespace, with the
/// facts that characterise it.
pub fn skip_ws(data: &[u8], from: usize) -> (pos: usize)
    requires
        from <= data@.len(),
    ensures
        from <= pos <= data@.len(),
        trim_start_spec(data@.skip(from as int)) == data@.skip(pos as int),
        forall|k: int| from <= k < pos ==> is_ws(#[trigger] data@[k]),
{
    let mut pos = from;
    while pos < data.len() && is_ascii_whitespace(data[pos])
        invariant
            from <= pos <= data@.len(),
            trim_start_spec(data@.skip(from as int)) == trim_start_spec(data@.skip(pos as int)),
            forall|k: int| from <= k < pos ==> is_ws(#[trigger] data@[k]),
        decreases data@.len() - pos,
    {
        proof {
            lemma_trim_start_skip(data@, pos as int);
        }
        pos += 1;
    }
    pos
}

/// Returns `data` without leading ASCII whitespace.
pub fn trim_start(data: &[u8]) -> (r: &[u8])
    ensures
        r@ == trim_start_spec(data@),
{
    let pos = skip_ws(data, 0);
    assert(data@.skip(0) =~= data@);
    &data[pos..data.len()]
}

/// Length of `data[..end]` once its trailing whitespace is removed.
fn end_without_ws(data: &[u8], end: usize) -> (e: usize)
    requires
        end <= data@.len(),
    ensures
        e <= end,
        trim_end_spec(data@.take(end as int)) == data@.take(e as int),
{
    let mut e = end;
    while e > 0 && is_ascii_whitespace(data[e - 1])
        invariant
            e <= end <= data@.len(),
            trim_end_spec(data@.take(end as int)) == trim_end_spec(data@.take(e as int)),
        decreases e,
    {
        proof {
            lemma_trim_end_take(data@, e as int);
        }
        e -= 1;
    }
    e
}

/// Returns `data` without trailing ASCII whitespace.
pub fn trim_end(data: &[u8]) -> (r: &[u8])
    ensures
        r@ == trim_end_spec(data@),
{
    let e = end_without_ws(data, data.len());
    assert(data@.take(data@.len() as int) =~= data@);
    &data[0..e]
}

/// Returns `data` with leading and trailing ASCII whitespace removed.
pub fn trim(data: &[u8]) -> (r: &[u8])
    ensures
        r@ == trim_spec(data@),
{
    let start = trim_start(data);
    trim_end(start)
}

/// Returns `data` without a leading UTF-8 byte order mark.
pub fn trim_bom(data: &[u8]) -> (r: &[u8])
    ensures
        r@ == trim_bom_spec(data@),
{
    if data.len() >= 3 && data[0] == 0xEFu8 && data[1] == 0xBBu8 && data[2] == 0xBFu8 {
        assert(data@.take(3) =~= bom_spec());
        &data[3..data.len()]
    } else {
        assert(data@.len() >= 3 ==> data@.take(3) != bom_spec()) by {
            if data@.len() >= 3 && data@.take(3) == bom_spec() {
                assert(data@.take(3)[0] == data@[0]);
                assert(data@.take(3)[1] == data@[1]);
                assert(data@.take(3)[2] == data@[2]);
            }
        }
        data
    }
}

/// `s` starts with `p`.
pub open spec fn starts_with_spec(s: Seq<u8>, p: Seq<u8>) -> bool {
    p.len() <= s.len() && s.take(p.len() as int) == p
}

/// Whether `data` starts with `prefix`.
pub fn starts_with(data: &[u8], prefix: &[u8]) -> (r: bool)
    ensures
        r == (prefix@.len() <= data@.len() && data@.take(prefix@.len() as int) == prefix@),
{
    if prefix.len() > data.len() {
        return false;
    }
    let mut i: usize = 0;
    while i < prefix.len()
        invariant
            prefix@.len() <= data@.len(),
            i <= prefix@.len(),
            forall|k: int| 0 <= k < i ==> data@[k] == prefix@[k],
        decreases prefix@.len() - i,
    {
        if data[i] != prefix[i] {
            assert(data@.take(prefix@.len() as int)[i as int] != prefix@[i as int]);
            return false;
        }
        i += 1;
    }
    assert(data@.take(prefix@.len() as int) =~= prefix@);
    true
}

/// Whether two byte strings are equal.
pub fn bytes_eq(a: &[u8], b: &[u8]) -> (r: bool)
    ensures
        r == (a@ == b@),
{
    if a.len() != b.len() {
        return false;
    }
    let r = starts_with(a, b);
    assert(a@.take(b@.len() as int) =~= a@);
    r
}

/// Whether every byte of `data` is an ASCII digit.
pub fn is_all_digits(data: &[u8]) -> (r: bool)
    ensures
        r == all_digits(data@),
{
    let mut i: usize = 0;
    while i < data.len()
        invariant
            i <= data@.len(),
            forall|k: int| 0 <= k < i ==> #[trigger] is_digit(data@[k]),
        decreases data@.len() - i,
    {
        if !is_ascii_digit(data[i]) {
            return false;
        }
        i += 1;
    }
    true
}

proof fn lemma_words_step(s: Seq<u8>, i: int, cur: Seq<u8>)
    requires
        0 <= i < s.len(),
    ensures
        words_from(s, i, cur) == if is_ws(s[i]) {
            (if cur.len() > 0 {
                seq![cur]
            } else {
                seq![]
            }) + words_from(s, i + 1, seq![])
        } else {
            words_from(s, i + 1, cur.push(s[i]))
        },
{
}

/// Splits `data` into its words: the maximal non-empty runs of bytes that are
/// not ASCII whitespace, in order.
pub fn words(data: &[u8]) -> (r: Vec<Vec<u8>>)
    ensures
        r@.map_values(|w: Vec<u8>| w@) == words_spec(data@),
{
    let mut out: Vec<Vec<u8>> = Vec::new();
    let mut cur: Vec<u8> = Vec::new();
    let mut i: usize = 0;
    while i < data.len()
        invariant
            i <= data@.len(),
            out@.map_values(|w: Vec<u8>| w@) + words_from(data@, i as int, cur@) == words_spec(
                data@,
            ),
        decreases data@.len() - i,
    {
        proof {
            lemma_words_step(data@, i as int, cur@);
        }
        let ghost before = out@.map_values(|w: Vec<u8>| w@);
        if is_ascii_whitespace(data[i]) {
            if cur.len() > 0 {
                let w = cur;
                let ghost wv = w@;
                out.push(w);
                cur = Vec::new();
                assert(out@.map_values(|w: Vec<u8>| w@) =~= before + seq![wv]);
            } else {
                assert(cur@ =~= Seq::<u8>::empty());
            }
        } else {
            cur.push(data[i]);
        }
        proof {
            assert(out@.map_values(|w: Vec<u8>| w@) + words_from(data@, i + 1, cur@) =~= words_spec(data@));
        }
        i += 1;
    }
    if cur.len() > 0 {
        let ghost before = out@.map_values(|w: Vec<u8>| w@);
        let w = cur;
        let ghost wv = w@;
        out.push(w);
        assert(out@.map_values(|w: Vec<u8>| w@) =~= before + seq![wv]);
    }
    assert(out@.map_values(|w: Vec<u8>| w@) =~= words_spec(data@));
    out
}

proof fn lemma_digits_value_prefix_mono(s: Seq<u8>, j: int, k: int)
    requires
        0 <= j <= k <= s.len(),
    ensures
        digits_value(s.take(j)) <= digits_value(s.take(k)),
    decreases k - j,
{
    if j < k {
        lemma_digits_value_prefix_mono(s, j, k - 1);
        assert(s.take(k).drop_last() =~= s.take(k - 1));
    }
}

proof fn lemma_digits_value_push(s: Seq<u8>, i: int)
    requires
        0 <= i < s.len(),
    ensures
        digits_value(s.take(i + 1)) == digits_value(s.take(i)) * 10 + (s[i] - 0x30u8) as nat,
{
    assert(s.take(i + 1).drop_last() =~= s.take(i));
}

/// The `u8` that `s` spells in decimal, if `s` is a non-empty run of digits
/// whose value fits.
pub open spec fn parse_u8_spec(s: Seq<u8>) -> Option<u8> {
    if s.len() > 0 && all_digits(s) && digits_value(s) <= 255 {
        Some(digits_value(s) as u8)
    } else {
        None
    }
}

/// The `u16` that `s` spells in decimal, if `s` is a non-empty run of digits
/// whose value fits.
pub open spec fn parse_u16_spec(s: Seq<u8>) -> Option<u16> {
    if s.len() > 0 && all_digits(s) && digits_value(s) <= 65535 {
        Some(digits_value(s) as u16)
    } else {
        None
    }
}

/// Parses a non-empty run of decimal digits into a number no greater than `max`.
fn get_number(data: &[u8], max: u32) -> (r: Option<u32>)
    requires
        max <= 65535,
    ensures
        r == (if data@.len() > 0 && all_digits(data@) && digits_value(data@) <= max {
            Some(digits_value(data@) as u32)
        } else {
            None::<u32>
        }),
{
    if data.len() == 0 {
        return None;
    }
    let mut v: u32 = 0;
    let mut i: usize = 0;
    while i < data.len()
        invariant
            i <= data@.len(),
            max <= 65535,
            all_digits(data@.take(i as int)),
            v == digits_value(data@.take(i as int)),
            v <= max,
        decreases data@.len() - i,
    {
        let b = data[i];
        if !is_ascii_digit(b) {
            return None;
        }
        proof {
            lemma_digits_value_push(data@, i as int);
        }
        v = v * 10 + (b - 0x30u8) as u32;
        if v > max {
            proof {
                if all_digits(data@) {
                    lemma_digits_value_prefix_mono(data@, i + 1, data@.len() as int);
                    assert(data@.take(data@.len() as int) =~= data@);
                }
            }
            return None;
        }
        assert(all_digits(data@.take(i + 1))) by {
            assert forall|k: int| 0 <= k < i + 1 implies #[trigger] is_digit(data@.take(i + 1)[k]) by {
                if k < i {
                    assert(data@.take(i + 1)[k] == data@.take(i as int)[k]);
                }
            }
        }
        i += 1;
    }
    assert(data@.take(data@.len() as int) =~= data@);
    Some(v)
}

/// Parses a non-empty run of decimal digits whose value fits in a `u8`.
pub fn get_u8(data: &[u8]) -> (r: Option<u8>)
    ensures
        r == parse_u8_spec(data@),
{
    match get_number(data, 255) {
        Some(v) => Some(v as u8),
        None => None,
    }
}

/// Parses a non-empty run of decimal digits whose value fits in a `u16`.
pub fn get_u16(data: &[u8]) -> (r: Option<u16>)
    ensures
        r == parse_u16_spec(data@),
{
    match get_number(data, 65535) {
        Some(v) => Some(v as u16),
        None => None,
    }
}

/// The decimal digits of `n`, most significant first, without leading zeros.
pub open spec fn dec_digits(n: nat) -> Seq<u8>
    decreases n,
{
    if n < 10 {
        seq![(0x30 + n) as u8]
    } else {
        dec_digits(n / 10).push((0x30 + n % 10) as u8)
    }
}

/// `n` in decimal, padded with leading zeros to at least `width` digits.
pub open spec fn dec_padded(n: nat, width: nat) -> Seq<u8> {
    let d = dec_digits(n);
    if d.len() < width {
        Seq::new((width - d.len()) as nat, |i: int| 0x30u8) + d
    } else {
        d
    }
}

/// Appends the decimal digits of `n` to `out`.
pub fn push_decimal(out: &mut Vec<u8>, n: u64)
    ensures
        final(out)@ == old(out)@ + dec_digits(n as nat),
    decreases n,
{
    if n >= 10 {
        push_decimal(out, n / 10);
    }
    out.push((0x30 + n % 10) as u8);
    assert(final(out)@ =~= old(out)@ + dec_digits(n as nat));
}

proof fn lemma_dec_digits_len_pos(n: nat)
    ensures
        dec_digits(n).len() >= 1,
    decreases n,
{
    if n >= 10 {
        lemma_dec_digits_len_pos(n / 10);
    }
}

/// Appends `n` in decimal, padded with leading zeros to at least `width` digits.
pub fn push_padded(out: &mut Vec<u8>, n: u64, width: usize)
    ensures
        final(out)@ == old(out)@ + dec_padded(n as nat, width as nat),
{
    let mut digits: Vec<u8> = Vec::new();
    push_decimal(&mut digits, n);
    assert(digits@ =~= dec_digits(n as nat));
    let ghost start = out@;
    if digits.len() < width {
        let pad = width - digits.len();
        let mut i: usize = 0;
        while i < pad
            invariant
                i <= pad,
                out@ == start + Seq::new(i as nat, |k: int| 0x30u8),
            decreases pad - i,
        {
            out.push(0x30u8);
            i += 1;
            assert(out@ =~= start + Seq::new(i as nat, |k: int| 0x30u8));
        }
    }
    out.extend_from_slice(digits.as_slice());
    assert(final(out)@ =~= old(out)@ + dec_padded(n as nat, width as nat));
}

/// Copies `data` to the end of `out`.
pub fn push_all(out: &mut Vec<u8>, data: &[u8])
    ensures
        final(out)@ == old(out)@ + data@,
{
    out.extend_from_slice(data);
    assert(final(out)@ =~= old(out)@ + data@);
}

/// Index of the first `b` in `s[i..]`, or the length of `s`.
pub open spec fn find_byte(s: Seq<u8>, b: u8, i: int) -> int
    decreases s.len() - i,
{
    if i >= s.len() {
        s.len() as int
    } else if s[i] == b {
        i
    } else {
        find_byte(s, b, i + 1)
    }
}

/// Index of the first `b` in `data[from..]`, or the length of `data`.
pub fn find_byte_from(data: &[u8], b: u8, from: usize) -> (r: usize)
    requires
        from <= data@.len(),
    ensures
        r as int == find_byte(data@, b, from as int),
        from <= r <= data@.len(),
        forall|k: int| from <= k < r ==> data@[k] != b,
        r < data@.len() ==> data@[r as int] == b,
{
    let mut i = from;
    while i < data.len() && data[i] != b
        invariant
            from <= i <= data@.len(),
            find_byte(data@, b, from as int) == find_byte(data@, b, i as int),
            forall|k: int| from <= k < i ==> data@[k] != b,
        decreases data@.len() - i,
    {
        i += 1;
    }
    i
}

/// The parts of `s[i..]` between the bytes `sep`: like `split` on a slice,
/// an empty part stands between two adjacent separators and at either end.
pub open spec fn split_from(s: Seq<u8>, sep: u8, i: int) -> Seq<Seq<u8>>
    decreases s.len() - i,
{
    if i < 0 || i > s.len() {
        seq![]
    } else {
        proof {
            lemma_find_byte_bounds(s, sep, i);
        }
        let c = find_byte(s, sep, i);
        if c >= s.len() {
            seq![s.subrange(i, s.len() as int)]
        } else {
            seq![s.subrange(i, c)] + split_from(s, sep, c + 1)
        }
    }
}

/// The parts of `s` between the bytes `sep`.
pub open spec fn split_spec(s: Seq<u8>, sep: u8) -> Seq<Seq<u8>> {
    split_from(s, sep, 0)
}

pub proof fn lemma_find_byte_bounds(s: Seq<u8>, b: u8, i: int)
    requires
        0 <= i <= s.len(),
    ensures
        i <= find_byte(s, b, i) <= s.len(),
        find_byte(s, b, i) < s.len() ==> s[find_byte(s, b, i)] == b,
    decreases s.len() - i,
{
    if i < s.len() && s[i] != b {
        lemma_find_byte_bounds(s, b, i + 1);
    }
}

/// Splits `data` at every byte `sep` (see [`split_spec`]).
pub fn split_bytes(data: &[u8], sep: u8) -> (r: Vec<Vec<u8>>)
    ensures
        r@.map_values(|p: Vec<u8>| p@) == split_spec(data@, sep),
        r@.len() >= 1,
{
    let mut out: Vec<Vec<u8>> = Vec::new();
    let mut i: usize = 0;
    loop
        invariant
            i <= data@.len(),
            out@.map_values(|p: Vec<u8>| p@) + split_from(data@, sep, i as int) == split_spec(data@, sep),
        decreases data@.len() - i,
    {
        let c = find_byte_from(data, sep, i);
        let part = vstd::slice::slice_to_vec(&data[i..c]);
        let ghost before = out@.map_values(|p: Vec<u8>| p@);
        let ghost pv = part@;
        out.push(part);
        assert(out@.map_values(|p: Vec<u8>| p@) =~= before.push(pv));
        if c >= data.len() {
            assert(out@.map_values(|p: Vec<u8>| p@) =~= split_spec(data@, sep));
            return out;
        }
        assert(out@.map_values(|p: Vec<u8>| p@) + split_from(data@, sep, c + 1) =~= before + split_from(data@, sep, i as int));
        i = c + 1;
    }
}

} // verus!
