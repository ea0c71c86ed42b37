use vstd::prelude::*;
use crate::system_resources::{CpuRecord, CpuStat, snapshot};
use vstd::utf8::{
    encode_utf8, last_continuation_byte, leading_byte_width_1, leading_byte_width_2,
    leading_byte_width_3, leading_byte_width_4, second_last_continuation_byte,
};

verus! {

/// Whether `c` is white space in Unicode's sense (the property White_Space),
/// which is what `char::is_whitespace` decides.
pub open spec fn is_white_space(c: char) -> bool {
    let u = c as u32;
    ||| 0x09 <= u <= 0x0D
    ||| u == 0x20
    ||| u == 0x85
    ||| u == 0xA0
    ||| u == 0x1680
    ||| 0x2000 <= u <= 0x200A
    ||| u == 0x2028
    ||| u == 0x2029
    ||| u == 0x202F
    ||| u == 0x205F
    ||| u == 0x3000
}

/// The length of the UTF-8 encoding of a white space character that starts
/// at `b[i]` and ends by `hi`, or zero where none does.
pub open spec fn space_len(b: Seq<u8>, hi: int, i: int) -> int {
    if 0 <= i < hi && (9 <= b[i] <= 13 || b[i] == 32) {
        // U+0009 to U+000D, U+0020
        1
    } else if 0 <= i && i + 1 < hi && b[i] == 0xC2 && (b[i + 1] == 0x85 || b[i + 1] == 0xA0) {
        // U+0085, U+00A0
        2
    } else if 0 <= i && i + 2 < hi && b[i] == 0xE1 && b[i + 1] == 0x9A && b[i + 2] == 0x80 {
        // U+1680
        3
    } else if 0 <= i && i + 2 < hi && b[i] == 0xE2 && b[i + 1] == 0x80 && (0x80 <= b[i + 2]
        <= 0x8A || b[i + 2] == 0xA8 || b[i + 2] == 0xA9 || b[i + 2] == 0xAF) {
        // U+2000 to U+200A, U+2028, U+2029, U+202F
        3
    } else if 0 <= i && i + 2 < hi && b[i] == 0xE2 && b[i + 1] == 0x81 && b[i + 2] == 0x9F {
        // U+205F
        3
    } else if 0 <= i && i + 2 < hi && b[i] == 0xE3 && b[i + 1] == 0x80 && b[i + 2] == 0x80 {
        // U+3000
        3
    } else {
        0
    }
}

/// At the start of a character's UTF-8 encoding, whatever follows it,
/// `space_len` recognises exactly the white space characters, and spans the
/// whole of their encoding.
pub proof fn lemma_space_len_is_white_space(c: char, rest: Seq<u8>)
    ensures
        ({
            let e = encode_utf8(seq![c]);
            let b = e + rest;
            space_len(b, b.len() as int, 0) == if is_white_space(c) {
                e.len() as int
            } else {
                0
            }
        }),
{
    let u = c as u32;
    assert(seq![c].drop_first() =~= Seq::<char>::empty());
    assert(encode_utf8(Seq::<char>::empty()) =~= Seq::<u8>::empty());
    assert(seq![c][0] == c);
    let e = encode_utf8(seq![c]);
    assert(e =~= vstd::utf8::encode_scalar(u));
    let b = e + rest;
    if u <= 0x7F {
        let b0 = leading_byte_width_1(u);
        assert(b0 as u32 == u) by (bit_vector)
            requires
                b0 == (u & 0x7F) as u8,
                u <= 0x7F,
        ;
        assert(b[0] == b0);
    } else if u <= 0x7FF {
        let b0 = leading_byte_width_2(u);
        let b1 = last_continuation_byte(u);
        assert(0xC0 <= b0 <= 0xDF && ((b0 == 0xC2 && (b1 == 0x85 || b1 == 0xA0)) == (u == 0x85
            || u == 0xA0))) by (bit_vector)
            requires
                b0 == 0xC0 | ((u >> 6) & 0x1F) as u8,
                b1 == 0x80 | (u & 0x3F) as u8,
                0x80 <= u <= 0x7FF,
        ;
        assert(b[0] == b0 && b[1] == b1);
    } else if 0x800 <= u <= 0xFFFF && !(0xD800 <= u <= 0xDFFF) {
        let b0 = leading_byte_width_3(u);
        let b1 = second_last_continuation_byte(u);
        let b2 = last_continuation_byte(u);
        assert(0xE0 <= b0 <= 0xEF && ((b0 == 0xE1 && b1 == 0x9A && b2 == 0x80) == (u == 0x1680))
            && ((b0 == 0xE2 && b1 == 0x80 && (0x80 <= b2 <= 0x8A || b2 == 0xA8 || b2 == 0xA9
            || b2 == 0xAF)) == (0x2000 <= u <= 0x200A || u == 0x2028 || u == 0x2029 || u
            == 0x202F)) && ((b0 == 0xE2 && b1 == 0x81 && b2 == 0x9F) == (u == 0x205F)) && ((b0
            == 0xE3 && b1 == 0x80 && b2 == 0x80) == (u == 0x3000))) by (bit_vector)
            requires
                b0 == 0xE0 | ((u >> 12) & 0x0F) as u8,
                b1 == 0x80 | ((u >> 6) & 0x3F) as u8,
                b2 == 0x80 | (u & 0x3F) as u8,
                0x800 <= u <= 0xFFFF,
        ;
        assert(b[0] == b0 && b[1] == b1 && b[2] == b2);
    } else {
        let b0 = leading_byte_width_4(u);
        assert(b0 >= 0xF0) by (bit_vector)
            requires
                b0 == 0xF0 | ((u >> 18) & 0x7) as u8,
        ;
        assert(b[0] == b0);
    }
}

/// The spans `[x, y)` of the words of `b[i..hi]`, where `start` holds the
/// start of a word that is still open at `i`.
pub open spec fn spans_from(b: Seq<u8>, hi: int, i: int, start: Option<int>) -> Seq<(int, int)>
    decreases hi - i,
{
    if i >= hi {
        match start {
            Some(x) => seq![(x, hi)],
            None => seq![],
        }
    } else if space_len(b, hi, i) > 0 {
        let next = i + space_len(b, hi, i);
        match start {
            Some(x) => seq![(x, i)] + spans_from(b, hi, next, None),
            None => spans_from(b, hi, next, None),
        }
    } else {
        match start {
            Some(x) => spans_from(b, hi, i + 1, Some(x)),
            None => spans_from(b, hi, i + 1, Some(i)),
        }
    }
}

/// The words of the line `b[lo..hi]`: its maximal runs of bytes that encode
/// no white space.
pub open spec fn line_words(b: Seq<u8>, lo: int, hi: int) -> Seq<Seq<u8>> {
    spans_from(b, hi, lo, None).map_values(|p: (int, int)| b.subrange(p.0, p.1))
}

pub open spec fn is_digit(c: u8) -> bool {
    48 <= c <= 57
}

/// The value of a string of decimal digits.
pub open spec fn digits_value(s: Seq<u8>) -> nat
    decreases s.len(),
{
    if s.len() == 0 {
        0
    } else {
        digits_value(s.drop_last()) * 10 + (s.last() - 48) as nat
    }
}

/// The digits of an unsigned number written with an optional leading `+`.
pub open spec fn unsigned_digits(s: Seq<u8>) -> Seq<u8> {
    if s.len() > 0 && s[0] == 43 {
        s.drop_first()
    } else {
        s
    }
}

/// Whether `s` reads as a `u64` in decimal.
pub open spec fn is_u64_text(s: Seq<u8>) -> bool {
    let d = unsigned_digits(s);
    &&& d.len() > 0
    &&& forall|i: int| 0 <= i < d.len() ==> is_digit(#[trigger] d[i])
    &&& digits_value(d) <= u64::MAX
}

/// A counter field: its decimal value, or zero where it does not read as a `u64`.
pub open spec fn field_value(s: Seq<u8>) -> u64 {
    if is_u64_text(s) {
        digits_value(unsigned_digits(s)) as u64
    } else {
        0
    }
}

/// The counters held by the words after a row's label.
pub open spec fn stat_of_words(w: Seq<Seq<u8>>) -> CpuStat {
    CpuStat {
        user: field_value(w[1]),
        nice: field_value(w[2]),
        system: field_value(w[3]),
        idle: field_value(w[4]),
        iowait: field_value(w[5]),
        irq: field_value(w[6]),
        softirq: field_value(w[7]),
        steal: field_value(w[8]),
        guest: field_value(w[9]),
        guest_nice: field_value(w[10]),
    }
}

/// Whether the line `b[lo..hi]` begins with `cpu`.
pub open spec fn is_cpu_line(b: Seq<u8>, lo: int, hi: int) -> bool {
    hi - lo >= 3 && b[lo] == 99 && b[lo + 1] == 112 && b[lo + 2] == 117
}

/// The row that the line `b[lo..hi]` holds: a line that begins with `cpu` and
/// has a label and at least ten fields; shorter lines hold none.
pub open spec fn line_record(b: Seq<u8>, lo: int, hi: int) -> Option<(Seq<u8>, CpuStat)> {
    let w = line_words(b, lo, hi);
    if is_cpu_line(b, lo, hi) && w.len() >= 11 {
        Some((w[0], stat_of_words(w)))
    } else {
        None
    }
}

pub open spec fn opt_seq<T>(o: Option<T>) -> Seq<T> {
    match o {
        Some(x) => seq![x],
        None => seq![],
    }
}

/// The rows of the lines of `b[i..]`, where the current line began at `ls`.
pub open spec fn records_from(b: Seq<u8>, i: int, ls: int) -> Seq<(Seq<u8>, CpuStat)>
    decreases b.len() - i,
{
    if i >= b.len() {
        if ls < b.len() {
            opt_seq(line_record(b, ls, b.len() as int))
        } else {
            seq![]
        }
    } else if b[i] == 10 {
        opt_seq(line_record(b, ls, i)) + records_from(b, i + 1, i + 1)
    } else {
        records_from(b, i + 1, ls)
    }
}

/// The counter rows of a text, in the order of its lines.
pub open spec fn cpu_records(b: Seq<u8>) -> Seq<(Seq<u8>, CpuStat)> {
    records_from(b, 0, 0)
}

pub open spec fn int_spans(v: Seq<(usize, usize)>) -> Seq<(int, int)> {
    v.map_values(|p: (usize, usize)| (p.0 as int, p.1 as int))
}

pub open spec fn int_opt(o: Option<usize>) -> Option<int> {
    match o {
        Some(x) => Some(x as int),
        None => None,
    }
}

/// The spans of the words of the line `b[lo..hi]`.
fn word_spans(b: &Vec<u8>, lo: usize, hi: usize) -> (r: Vec<(usize, usize)>)
    requires
        lo <= hi <= b@.len(),
    ensures
        int_spans(r@) == spans_from(b@, hi as int, lo as int, None),
        forall|k: int| 0 <= k < r@.len() ==> lo <= #[trigger] r@[k].0 <= r@[k].1 <= hi,
{
    let mut r: Vec<(usize, usize)> = Vec::new();
    let mut start: Option<usize> = None;
    let mut i: usize = lo;
    while i < hi
        invariant
            lo <= i <= hi <= b@.len(),
            int_spans(r@) + spans_from(b@, hi as int, i as int, int_opt(start))
                == spans_from(b@, hi as int, lo as int, None),
            start matches Some(x) ==> lo <= x <= i,
            forall|k: int| 0 <= k < r@.len() ==> lo <= #[trigger] r@[k].0 <= r@[k].1 <= i,
        decreases hi - i,
    {
        let ghost old_r = r@;
        let n = space_len_exec(b, hi, i);
        if n > 0 {
            if let Some(x) = start {
                r.push((x, i));
                assert(int_spans(r@) =~= int_spans(old_r) + seq![(x as int, i as int)]);
            }
            start = None;
            assert forall|k: int| 0 <= k < r@.len() implies lo <= #[trigger] r@[k].0 <= r@[k].1
                <= i + n by {
                if k < old_r.len() {
                    assert(r@[k] == old_r[k]);
                }
            }
            i = i + n;
        } else {
            if start.is_none() {
                start = Some(i);
            }
            i = i + 1;
        }
    }
    let ghost old_r = r@;
    if let Some(x) = start {
        r.push((x, hi));
        assert(int_spans(r@) =~= int_spans(old_r) + seq![(x as int, hi as int)]);
    } else {
        assert(int_spans(r@) =~= int_spans(r@) + seq![]);
    }
    r
}

/// The length of the white space character encoded at `b[i]`, or zero.
fn space_len_exec(b: &Vec<u8>, hi: usize, i: usize) -> (r: usize)
    requires
        i < hi <= b@.len(),
    ensures
        r == space_len(b@, hi as int, i as int),
        r <= hi - i,
{
    let c = b[i];
    if 9 <= c && c <= 13 || c == 32 {
        return 1;
    }
    if hi - i > 1 && c == 0xC2 && (b[i + 1] == 0x85 || b[i + 1] == 0xA0) {
        return 2;
    }
    if hi - i > 2 {
        let (c1, c2) = (b[i + 1], b[i + 2]);
        if c == 0xE1 && c1 == 0x9A && c2 == 0x80 {
            return 3;
        }
        if c == 0xE2 && c1 == 0x80 && (0x80 <= c2 && c2 <= 0x8A || c2 == 0xA8 || c2 == 0xA9
            || c2 == 0xAF) {
            return 3;
        }
        if c == 0xE2 && c1 == 0x81 && c2 == 0x9F {
            return 3;
        }
        if c == 0xE3 && c1 == 0x80 && c2 == 0x80 {
            return 3;
        }
    }
    0
}
/// The counter field `b[x..y]`: its value where it reads as a `u64` in
/// decimal, else zero.
fn parse_field(b: &Vec<u8>, x: usize, y: usize) -> (v: u64)
    requires
        x <= y <= b@.len(),
    ensures
        v == field_value(b@.subrange(x as int, y as int)),
{
    let ghost s = b@.subrange(x as int, y as int);
    let mut d0: usize = x;
    if x < y && b[x] == 43 {
        d0 = x + 1;
    }
    assert(unsigned_digits(s) =~= b@.subrange(d0 as int, y as int));
    if d0 == y {
        return 0;
    }
    let mut acc: u64 = 0;
    let mut over = false;
    let mut i: usize = d0;
    while i < y
        invariant
            x <= d0 < y <= b@.len(),
            d0 <= i <= y,
            unsigned_digits(b@.subrange(x as int, y as int)) == b@.subrange(d0 as int, y as int),
            forall|j: int| d0 <= j < i ==> is_digit(#[trigger] b@[j]),
            !over ==> acc == digits_value(b@.subrange(d0 as int, i as int)),
            over ==> digits_value(b@.subrange(d0 as int, i as int)) > u64::MAX,
        decreases y - i,
    {
        let c = b[i];
        if c < 48 || c > 57 {
            let ghost d = b@.subrange(d0 as int, y as int);
            assert(!is_digit(d[i - d0]));
            return 0;
        }
        let ghost prev = b@.subrange(d0 as int, i as int);
        assert(b@.subrange(d0 as int, i + 1).drop_last() =~= prev);
        if !over {
            let next: u128 = acc as u128 * 10 + (c - 48) as u128;
            if next > 0xffff_ffff_ffff_ffff {
                over = true;
            } else {
                acc = next as u64;
            }
        }
        i = i + 1;
    }
    proof {
        let d = b@.subrange(d0 as int, y as int);
        assert forall|j: int| 0 <= j < d.len() implies is_digit(#[trigger] d[j]) by {
            assert(is_digit(b@[d0 + j]));
        }
    }
    if over {
        0
    } else {
        acc
    }
}

/// A copy of the bytes `b[x..y]`.
fn copy_bytes(b: &Vec<u8>, x: usize, y: usize) -> (r: Vec<u8>)
    requires
        x <= y <= b@.len(),
    ensures
        r@ == b@.subrange(x as int, y as int),
{
    let mut r: Vec<u8> = Vec::new();
    let mut i: usize = x;
    while i < y
        invariant
            x <= i <= y <= b@.len(),
            r@ == b@.subrange(x as int, i as int),
        decreases y - i,
    {
        r.push(b[i]);
        i = i + 1;
        assert(r@ =~= b@.subrange(x as int, i as int));
    }
    r
}

/// The row that the line `b[lo..hi]` holds, if any.
fn parse_line(b: &Vec<u8>, lo: usize, hi: usize) -> (r: Option<CpuRecord>)
    requires
        lo <= hi <= b@.len(),
    ensures
        match r {
            Some(rec) => line_record(b@, lo as int, hi as int) == Some(rec@),
            None => line_record(b@, lo as int, hi as int) is None,
        },
{
    if hi - lo < 3 || b[lo] != 99 || b[lo + 1] != 112 || b[lo + 2] != 117 {
        return None;
    }
    let w = word_spans(b, lo, hi);
    let ghost words = line_words(b@, lo as int, hi as int);
    assert(words.len() == w@.len());
    if w.len() < 11 {
        return None;
    }
    assert forall|k: int| 0 <= k < 11 implies #[trigger] words[k] == b@.subrange(
        w@[k].0 as int,
        w@[k].1 as int,
    ) by {
        assert(int_spans(w@)[k] == (w@[k].0 as int, w@[k].1 as int));
    }
    let label = copy_bytes(b, w[0].0, w[0].1);
    let stat = CpuStat {
        user: parse_field(b, w[1].0, w[1].1),
        nice: parse_field(b, w[2].0, w[2].1),
        system: parse_field(b, w[3].0, w[3].1),
        idle: parse_field(b, w[4].0, w[4].1),
        iowait: parse_field(b, w[5].0, w[5].1),
        irq: parse_field(b, w[6].0, w[6].1),
        softirq: parse_field(b, w[7].0, w[7].1),
        steal: parse_field(b, w[8].0, w[8].1),
        guest: parse_field(b, w[9].0, w[9].1),
        guest_nice: parse_field(b, w[10].0, w[10].1),
    };
    assert(stat == stat_of_words(words));
    Some(CpuRecord { label, stat })
}

/// The counter rows of the text `content` (as the kernel's statistics file
/// lists them), in the order of its lines. A row is a line that begins with
/// `cpu` and holds a label and at least ten fields, separated by white space
/// (any character that `char::is_whitespace` accepts); other lines are
/// skipped. A field that does not read as a `u64`
/// counts as zero.
pub fn parse_cpu_stats(content: &str) -> (r: Vec<CpuRecord>)
    ensures
        snapshot(r@) == cpu_records(encode_utf8(content@)),
{
    let b = content.as_bytes_vec();
    let mut r: Vec<CpuRecord> = Vec::new();
    let mut ls: usize = 0;
    let mut i: usize = 0;
    while i < b.len()
        invariant
            b@ == encode_utf8(content@),
            ls <= i <= b@.len(),
            snapshot(r@) + records_from(b@, i as int, ls as int) == cpu_records(b@),
        decreases b@.len() - i,
    {
        if b[i] == 10 {
            let ghost old_r = snapshot(r@);
            let rec = parse_line(&b, ls, i);
            if let Some(x) = rec {
                r.push(x);
            }
            assert(snapshot(r@) =~= old_r + opt_seq(line_record(b@, ls as int, i as int)));
            ls = i + 1;
        }
        i = i + 1;
    }
    let ghost old_r = snapshot(r@);
    if ls < b.len() {
        let rec = parse_line(&b, ls, b.len());
        if let Some(x) = rec {
            r.push(x);
        }
        assert(snapshot(r@) =~= old_r + opt_seq(line_record(b@, ls as int, b@.len() as int)));
    } else {
        assert(snapshot(r@) =~= old_r + seq![]);
    }
    r
}

} // verus!
