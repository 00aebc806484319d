//! A small assembler from a plain text mnemonic form to bytecode, enough to write test
//! programs by hand.
//!
//! A program is a list of lines. A `#` starts a comment that runs to the end of its line, and
//! surrounding whitespace is ignored. A line ending in a colon defines a label at the offset of
//! the next instruction. Any other line is a mnemonic, in any case, followed by its operands,
//! separated by commas or whitespace: registers `r0` to `r15`, decimal immediates, and jump
//! targets that are either a decimal offset or a label.
use vstd::prelude::*;
use crate::isa::{Instr, OpCode, NUM_REGS, DecodeError, build, decode_at, decodes_from, encoding, imm_width, op_of, reg_count, regs_of, well_formed, lemma_build_regs, law_decode_encode, lemma_decodes_append};
use vstd::std_specs::iter::IteratorSpec;

verus! {

// ---------------------------------------------------------------------------------------
// Characters

/// Whether `c` is white space in the Unicode sense (the `White_Space` property, which
/// `char::is_whitespace` tests).
pub open spec fn is_space(c: char) -> bool {
    let u = c as u32;
    ||| 0x09 <= u <= 0x0d
    ||| u == 0x20
    ||| u == 0x85
    ||| u == 0xa0
    ||| u == 0x1680
    ||| 0x2000 <= u <= 0x200a
    ||| u == 0x2028
    ||| u == 0x2029
    ||| u == 0x202f
    ||| u == 0x205f
    ||| u == 0x3000
}

/// Whether `c` separates operands: white space or a comma.
pub open spec fn is_sep(c: char) -> bool {
    is_space(c) || c == ','
}

/// Whether `c` is an ASCII decimal digit.
pub open spec fn is_digit(c: char) -> bool {
    '0' as u32 <= c as u32 <= '9' as u32
}

/// `c` with an ASCII lower-case letter made upper-case.
pub open spec fn upper(c: char) -> char {
    if 'a' as u32 <= c as u32 <= 'z' as u32 {
        ((c as u32) - 32) as char
    } else {
        c
    }
}

/// `s` with its ASCII lower-case letters made upper-case.
pub open spec fn upper_seq(s: Seq<char>) -> Seq<char> {
    s.map_values(|c: char| upper(c))
}

fn space(c: char) -> (r: bool)
    ensures
        r == is_space(c),
{
    let u = c as u32;
    (0x09 <= u && u <= 0x0d) || u == 0x20 || u == 0x85 || u == 0xa0 || u == 0x1680 || (0x2000 <= u
        && u <= 0x200a) || u == 0x2028 || u == 0x2029 || u == 0x202f || u == 0x205f || u == 0x3000
}

fn sep(c: char) -> (r: bool)
    ensures
        r == is_sep(c),
{
    space(c) || c == ','
}

fn upper_char(c: char) -> (r: char)
    ensures
        r == upper(c),
{
    if 'a' <= c && c <= 'z' {
        ((c as u8) - 32) as char
    } else {
        c
    }
}

/// The characters of `s`, in order.
fn chars_of(s: &str) -> (r: Vec<char>)
    ensures
        r@ == s@,
{
    let mut out: Vec<char> = Vec::new();
    let mut it = s.chars();
    loop
        invariant
            out@ + it.remaining() == s@,
            it.decrease() is Some,
        ensures
            out@ == s@,
        decreases it.decrease()->0,
    {
        let ghost before = it.remaining();
        match it.next() {
            Some(c) => {
                out.push(c);
                assert(out@ + it.remaining() =~= s@);
            },
            None => {
                assert(before.len() == 0);
                assert(out@ =~= s@);
                break;
            },
        }
    }
    out
}

/// Appends `ch`. Trusted: `String::push` appends the character to the string.
pub assume_specification[ String::push ](s: &mut String, ch: char)
    ensures
        final(s)@ == old(s)@.push(ch),
;

/// The string of the characters of `cs`.
fn string_of(cs: &[char]) -> (r: String)
    ensures
        r@ == cs@,
{
    let mut out = String::new();
    let mut k: usize = 0;
    while k < cs.len()
        invariant
            k <= cs@.len(),
            out@ == cs@.subrange(0, k as int),
        decreases cs@.len() - k,
    {
        out.push(cs[k]);
        k = k + 1;
        assert(out@ =~= cs@.subrange(0, k as int));
    }
    assert(cs@.subrange(0, cs@.len() as int) =~= cs@);
    out
}

/// Whether `a` and `b` hold the same characters.
fn same_chars(a: &[char], b: &[char]) -> (r: bool)
    ensures
        r == (a@ == b@),
{
    if a.len() != b.len() {
        return false;
    }
    let mut k: usize = 0;
    while k < a.len()
        invariant
            a@.len() == b@.len(),
            k <= a@.len(),
            forall|j: int| 0 <= j < k ==> a@[j] == b@[j],
        decreases a@.len() - k,
    {
        if a[k] != b[k] {
            return false;
        }
        k = k + 1;
    }
    assert(a@ =~= b@);
    true
}

/// The characters `lo..hi` of `src`.
fn copy_span(src: &[char], lo: usize, hi: usize) -> (r: Vec<char>)
    requires
        lo <= hi <= src@.len(),
    ensures
        r@ == src@.subrange(lo as int, hi as int),
{
    let mut out: Vec<char> = Vec::new();
    let mut k = lo;
    while k < hi
        invariant
            lo <= k <= hi <= src@.len(),
            out@ == src@.subrange(lo as int, k as int),
        decreases hi - k,
    {
        out.push(src[k]);
        k = k + 1;
        assert(out@ =~= src@.subrange(lo as int, k as int));
    }
    out
}

// ---------------------------------------------------------------------------------------
// Lines

/// The text cut at each line feed: the pieces between line feeds, the last one being what
/// follows the final line feed (empty when the text ends with one).
pub open spec fn pieces(s: Seq<char>) -> Seq<Seq<char>>
    decreases s.len(),
{
    if s.len() == 0 {
        seq![Seq::empty()]
    } else {
        let p = pieces(s.drop_last());
        if s.last() == '\n' {
            p.push(Seq::empty())
        } else {
            p.update(p.len() - 1, p.last().push(s.last()))
        }
    }
}

/// The part of a line before its first `#`.
pub open spec fn before_hash(s: Seq<char>) -> Seq<char>
    decreases s.len(),
{
    if s.len() == 0 {
        s
    } else if s[0] == '#' {
        Seq::empty()
    } else {
        seq![s[0]] + before_hash(s.drop_first())
    }
}

/// `s` without its leading white space.
pub open spec fn trim_start(s: Seq<char>) -> Seq<char>
    decreases s.len(),
{
    if s.len() > 0 && is_space(s[0]) {
        trim_start(s.drop_first())
    } else {
        s
    }
}

/// `s` without its trailing white space.
pub open spec fn trim_end(s: Seq<char>) -> Seq<char>
    decreases s.len(),
{
    if s.len() > 0 && is_space(s.last()) {
        trim_end(s.drop_last())
    } else {
        s
    }
}

/// `s` without its leading and trailing white space.
pub open spec fn trim(s: Seq<char>) -> Seq<char> {
    trim_end(trim_start(s))
}

/// What a raw line holds: its text before any comment, without surrounding white space.
pub open spec fn line_content(raw: Seq<char>) -> Seq<char> {
    trim(before_hash(raw))
}

/// `acc` followed by line `no`, when that line holds anything.
pub open spec fn add_line(acc: Seq<(nat, Seq<char>)>, no: nat, raw: Seq<char>) -> Seq<(nat, Seq<char>)> {
    if line_content(raw).len() == 0 {
        acc
    } else {
        acc.push((no, line_content(raw)))
    }
}

/// The lines among `p` that hold anything, each with its number (counted from 1) and its
/// content.
pub open spec fn numbered(p: Seq<Seq<char>>) -> Seq<(nat, Seq<char>)>
    decreases p.len(),
{
    if p.len() == 0 {
        Seq::empty()
    } else {
        add_line(numbered(p.drop_last()), p.len(), p.last())
    }
}

/// The numbered lines of a program that hold anything.
pub open spec fn logical_lines(src: Seq<char>) -> Seq<(nat, Seq<char>)> {
    numbered(pieces(src))
}

proof fn lemma_before_hash(s: Seq<char>, h: int)
    requires
        0 <= h <= s.len(),
        forall|j: int| 0 <= j < h ==> s[j] != '#',
        h == s.len() || s[h] == '#',
    ensures
        before_hash(s) == s.subrange(0, h),
    decreases s.len(),
{
    if s.len() == 0 {
        assert(s.subrange(0, h) =~= s);
    } else if s[0] == '#' {
        assert(s.subrange(0, h) =~= Seq::<char>::empty());
    } else {
        let t = s.drop_first();
        assert forall|j: int| 0 <= j < h - 1 implies t[j] != '#' by {
            assert(t[j] == s[j + 1]);
        }
        lemma_before_hash(t, h - 1);
        assert(seq![s[0]] + t.subrange(0, h - 1) =~= s.subrange(0, h));
    }
}

proof fn lemma_trim_start(s: Seq<char>, i: int)
    requires
        0 <= i <= s.len(),
        forall|j: int| 0 <= j < i ==> is_space(s[j]),
        i == s.len() || !is_space(s[i]),
    ensures
        trim_start(s) == s.subrange(i, s.len() as int),
    decreases i,
{
    if i == 0 {
        assert(s.subrange(0, s.len() as int) =~= s);
    } else {
        let t = s.drop_first();
        assert forall|j: int| 0 <= j < i - 1 implies is_space(t[j]) by {
            assert(t[j] == s[j + 1]);
        }
        if i < s.len() {
            assert(t[i - 1] == s[i]);
        }
        lemma_trim_start(t, i - 1);
        assert(t.subrange(i - 1, t.len() as int) =~= s.subrange(i, s.len() as int));
    }
}

proof fn lemma_trim_end(s: Seq<char>, j: int)
    requires
        0 <= j <= s.len(),
        forall|k: int| j <= k < s.len() ==> is_space(s[k]),
        j == 0 || !is_space(s[j - 1]),
    ensures
        trim_end(s) == s.subrange(0, j),
    decreases s.len() - j,
{
    if j == s.len() {
        assert(s.subrange(0, j) =~= s);
    } else {
        let t = s.drop_last();
        assert forall|k: int| j <= k < t.len() implies is_space(t[k]) by {
            assert(t[k] == s[k]);
        }
        if j > 0 {
            assert(t[j - 1] == s[j - 1]);
        }
        lemma_trim_end(t, j);
        assert(t.subrange(0, j) =~= s.subrange(0, j));
    }
}

/// The span of `src[start..end]` without its leading and trailing white space.
fn trim_span(src: &[char], start: usize, end: usize) -> (r: (usize, usize))
    requires
        start <= end <= src@.len(),
    ensures
        start <= r.0 <= r.1 <= end,
        src@.subrange(r.0 as int, r.1 as int) == trim(src@.subrange(start as int, end as int)),
{
    let ghost cut = src@.subrange(start as int, end as int);
    let mut lo = start;
    while lo < end && space(src[lo])
        invariant
            start <= lo <= end <= src@.len(),
            forall|j: int| start <= j < lo ==> is_space(src@[j]),
        decreases end - lo,
    {
        lo = lo + 1;
    }
    proof {
        lemma_trim_start(cut, lo - start);
    }
    let ghost kept = src@.subrange(lo as int, end as int);
    assert(cut.subrange(lo - start, cut.len() as int) =~= kept);
    let mut hi = end;
    while hi > lo && space(src[hi - 1])
        invariant
            lo <= hi <= end <= src@.len(),
            forall|j: int| hi <= j < end ==> is_space(src@[j]),
        decreases hi - lo,
    {
        hi = hi - 1;
    }
    proof {
        lemma_trim_end(kept, hi - lo);
    }
    assert(kept.subrange(0, hi - lo) =~= src@.subrange(lo as int, hi as int));
    (lo, hi)
}

/// The span of `src[start..end]` that holds its content: before any `#`, without surrounding
/// white space.
fn content_span(src: &[char], start: usize, end: usize) -> (r: (usize, usize))
    requires
        start <= end <= src@.len(),
    ensures
        start <= r.0 <= r.1 <= end,
        src@.subrange(r.0 as int, r.1 as int) == line_content(src@.subrange(start as int, end as int)),
{
    let ghost raw = src@.subrange(start as int, end as int);
    let mut h = start;
    while h < end && src[h] != '#'
        invariant
            start <= h <= end <= src@.len(),
            forall|j: int| start <= j < h ==> src@[j] != '#',
        decreases end - h,
    {
        h = h + 1;
    }
    proof {
        lemma_before_hash(raw, h - start);
    }
    assert(raw.subrange(0, h - start) =~= src@.subrange(start as int, h as int));
    trim_span(src, start, h)
}

/// A numbered line of the program that holds anything, by its content.
struct SrcLine {
    no: usize,
    text: Vec<char>,
}

spec fn lines_view(v: Seq<SrcLine>) -> Seq<(nat, Seq<char>)> {
    v.map_values(|l: SrcLine| (l.no as nat, l.text@))
}

fn push_line(out: &mut Vec<SrcLine>, src: &[char], start: usize, end: usize, no: usize)
    requires
        start <= end <= src@.len(),
    ensures
        lines_view(final(out)@) == add_line(lines_view(old(out)@), no as nat, src@.subrange(start as int, end as int)),
{
    let (lo, hi) = content_span(src, start, end);
    if lo < hi {
        let text = copy_span(src, lo, hi);
        out.push(SrcLine { no, text });
        assert(lines_view(out@) =~= lines_view(old(out)@).push((no as nat, text@)));
    }
}

/// The numbered lines of `src` that hold anything.
fn source_lines(src: &[char]) -> (r: Vec<SrcLine>)
    ensures
        lines_view(r@) == logical_lines(src@),
{
    let mut out: Vec<SrcLine> = Vec::new();
    let mut start: usize = 0;
    let mut idx: usize = 0;
    let mut k: usize = 0;
    assert(src@.subrange(0, 0) =~= Seq::<char>::empty());
    while k < src.len()
        invariant
            start <= k <= src@.len(),
            idx <= start,
            pieces(src@.subrange(0, k as int)).len() == idx + 1,
            pieces(src@.subrange(0, k as int)).last() == src@.subrange(start as int, k as int),
            lines_view(out@) == numbered(pieces(src@.subrange(0, k as int)).drop_last()),
        decreases src@.len() - k,
    {
        let ghost p = pieces(src@.subrange(0, k as int));
        assert(src@.subrange(0, k + 1).drop_last() =~= src@.subrange(0, k as int));
        if src[k] == '\n' {
            push_line(&mut out, src, start, k, idx + 1);
            proof {
                let p2 = pieces(src@.subrange(0, k + 1));
                assert(p2 == p.push(Seq::empty()));
                assert(p2.drop_last() =~= p);
                assert(p.drop_last() =~= p.subrange(0, p.len() - 1));
            }
            start = k + 1;
            idx = idx + 1;
            assert(src@.subrange(start as int, k + 1) =~= Seq::<char>::empty());
        } else {
            proof {
                let p2 = pieces(src@.subrange(0, k + 1));
                assert(p2.drop_last() =~= p.drop_last());
                assert(p2.last() =~= src@.subrange(start as int, k + 1));
            }
        }
        k = k + 1;
    }
    if start < src.len() {
        push_line(&mut out, src, start, src.len(), idx + 1);
    } else {
        assert(src@.subrange(start as int, src@.len() as int) =~= Seq::<char>::empty());
        assert(line_content(Seq::<char>::empty()) =~= Seq::<char>::empty());
    }
    assert(src@.subrange(0, src@.len() as int) =~= src@);
    out
}

// ---------------------------------------------------------------------------------------
// Tokens

/// The words of a line: its maximal runs of characters that are neither white space nor
/// commas, in order.
pub open spec fn tokens(s: Seq<char>) -> Seq<Seq<char>>
    decreases s.len(),
{
    if s.len() == 0 {
        Seq::empty()
    } else {
        let t = tokens(s.drop_last());
        let c = s.last();
        if is_sep(c) {
            t
        } else if s.len() >= 2 && !is_sep(s[s.len() - 2]) {
            t.update(t.len() - 1, t.last().push(c))
        } else {
            t.push(seq![c])
        }
    }
}

/// Where each word of `line` starts and ends.
fn token_spans(line: &[char]) -> (r: Vec<(usize, usize)>)
    ensures
        r@.len() == tokens(line@).len(),
        forall|k: int|
            0 <= k < r@.len() ==> {
                &&& (#[trigger] r@[k]).0 <= r@[k].1 <= line@.len()
                &&& line@.subrange(r@[k].0 as int, r@[k].1 as int) == tokens(line@)[k]
            },
{
    let mut out: Vec<(usize, usize)> = Vec::new();
    let mut k: usize = 0;
    while k < line.len()
        invariant
            k <= line@.len(),
            out@.len() == tokens(line@.subrange(0, k as int)).len(),
            forall|j: int|
                0 <= j < out@.len() ==> {
                    &&& (#[trigger] out@[j]).0 <= out@[j].1 <= k
                    &&& line@.subrange(out@[j].0 as int, out@[j].1 as int) == tokens(
                        line@.subrange(0, k as int),
                    )[j]
                },
            (k > 0 && !is_sep(line@[k - 1])) ==> out@.len() > 0 && out@.last().1 == k,
        decreases line@.len() - k,
    {
        let ghost pre = line@.subrange(0, k as int);
        let ghost t = tokens(pre);
        let ghost cur = line@.subrange(0, k + 1);
        assert(cur.drop_last() =~= pre);
        assert(cur.last() == line@[k as int]);
        let c = line[k];
        if sep(c) {
            assert(tokens(cur) == t);
        } else if k > 0 && !sep(line[k - 1]) {
            assert(cur[cur.len() - 2] == line@[k - 1]);
            let last = out.len() - 1;
            let (a, _) = out[last];
            let ghost before = out@;
            out.set(last, (a, k + 1));
            proof {
                assert(tokens(cur) == t.update(t.len() - 1, t.last().push(c)));
                assert(line@.subrange(a as int, k + 1) =~= line@.subrange(a as int, k as int).push(c));
                assert forall|j: int| 0 <= j < out@.len() implies {
                    &&& (#[trigger] out@[j]).0 <= out@[j].1 <= k + 1
                    &&& line@.subrange(out@[j].0 as int, out@[j].1 as int) == tokens(cur)[j]
                } by {
                    if j < last {
                        assert(out@[j] == before[j]);
                    }
                }
            }
        } else {
            if k > 0 {
                assert(cur[cur.len() - 2] == line@[k - 1]);
            }
            out.push((k, k + 1));
            proof {
                assert(tokens(cur) == t.push(seq![c]));
                assert(line@.subrange(k as int, k + 1) =~= seq![c]);
            }
        }
        k = k + 1;
    }
    assert(line@.subrange(0, line@.len() as int) =~= line@);
    out
}

// ---------------------------------------------------------------------------------------
// Operands

/// Whether every character of `s` is an ASCII digit.
pub open spec fn all_digits(s: Seq<char>) -> bool {
    forall|i: int| 0 <= i < s.len() ==> is_digit(#[trigger] s[i])
}

/// The value of a string of ASCII digits, read in base ten.
pub open spec fn digits_value(s: Seq<char>) -> nat
    decreases s.len(),
{
    if s.len() == 0 {
        0
    } else {
        digits_value(s.drop_last()) * 10 + ((s.last() as u32) - ('0' as u32)) as nat
    }
}

/// The value of an unsigned decimal numeral as `str::parse` reads one: an optional `+`,
/// then one or more ASCII digits. `None` for anything else.
pub open spec fn decimal(s: Seq<char>) -> Option<nat> {
    let d = if s.len() > 0 && s[0] == '+' {
        s.drop_first()
    } else {
        s
    };
    if d.len() > 0 && all_digits(d) {
        Some(digits_value(d))
    } else {
        None
    }
}

/// The register a token names: `r` or `R`, then a decimal numeral below `NUM_REGS`.
pub open spec fn reg_value(t: Seq<char>) -> Option<u8> {
    if t.len() > 0 && (t[0] == 'r' || t[0] == 'R') {
        match decimal(t.drop_first()) {
            Some(v) => if v < NUM_REGS {
                Some(v as u8)
            } else {
                None
            },
            None => None,
        }
    } else {
        None
    }
}

proof fn lemma_digits_prefix(s: Seq<char>, j: int)
    requires
        0 <= j <= s.len(),
        all_digits(s),
    ensures
        digits_value(s.subrange(0, j)) <= digits_value(s),
    decreases s.len() - j,
{
    if j < s.len() {
        let t = s.drop_last();
        assert forall|i: int| 0 <= i < t.len() implies is_digit(#[trigger] t[i]) by {
            assert(t[i] == s[i]);
        }
        lemma_digits_prefix(t, j);
        assert(t.subrange(0, j) =~= s.subrange(0, j));
    } else {
        assert(s.subrange(0, j) =~= s);
    }
}

/// The value of the decimal numeral `t[from..]` when it fits in a `u64`.
fn decimal_from(t: &[char], from: usize) -> (r: Option<u64>)
    requires
        from <= t@.len(),
    ensures
        r == (match decimal(t@.subrange(from as int, t@.len() as int)) {
            Some(v) => if v <= u64::MAX {
                Some(v as u64)
            } else {
                None
            },
            None => None,
        }),
{
    let ghost s = t@.subrange(from as int, t@.len() as int);
    let mut k = from;
    if k < t.len() && t[k] == '+' {
        k = k + 1;
    }
    let ghost d = t@.subrange(k as int, t@.len() as int);
    assert(d == (if s.len() > 0 && s[0] == '+' { s.drop_first() } else { s }));
    if k == t.len() {
        return None;
    }
    let start = k;
    let mut v: u64 = 0;
    while k < t.len()
        invariant
            from <= start <= k <= t@.len(),
            d == t@.subrange(start as int, t@.len() as int),
            s == t@.subrange(from as int, t@.len() as int),
            d == (if s.len() > 0 && s[0] == '+' { s.drop_first() } else { s }),
            forall|i: int| start <= i < k ==> is_digit(#[trigger] t@[i]),
            v == digits_value(t@.subrange(start as int, k as int)),
        decreases t@.len() - k,
    {
        let c = t[k];
        let u = c as u32;
        if !(('0' as u32) <= u && u <= ('9' as u32)) {
            assert(d[k - start] == t@[k as int]);
            return None;
        }
        let digit = (u - '0' as u32) as u64;
        let ghost next = t@.subrange(start as int, k + 1);
        assert(next.drop_last() =~= t@.subrange(start as int, k as int));
        assert(digits_value(next) == v * 10 + digit);
        match v.checked_mul(10) {
            None => {
                proof {
                    if all_digits(d) {
                        assert(d.subrange(0, k + 1 - start) =~= next);
                        lemma_digits_prefix(d, k + 1 - start);
                    }
                }
                return None;
            },
            Some(w) => match w.checked_add(digit) {
                None => {
                    proof {
                        assert(w + digit > u64::MAX);
                        if all_digits(d) {
                            assert(d.subrange(0, k + 1 - start) =~= next);
                            lemma_digits_prefix(d, k + 1 - start);
                            assert(digits_value(d) > u64::MAX);
                        }
                    }
                    return None;
                },
                Some(x) => {
                    v = x;
                },
            },
        }
        k = k + 1;
    }
    assert(all_digits(d)) by {
        assert forall|i: int| 0 <= i < d.len() implies is_digit(#[trigger] d[i]) by {
            assert(d[i] == t@[start + i]);
        }
    }
    Some(v)
}

/// The register token `t` names.
fn register(t: &[char]) -> (r: Option<u8>)
    ensures
        r == reg_value(t@),
{
    if t.len() == 0 || !(t[0] == 'r' || t[0] == 'R') {
        return None;
    }
    assert(t@.subrange(1, t@.len() as int) =~= t@.drop_first());
    match decimal_from(t, 1) {
        Some(v) => if v < NUM_REGS as u64 {
            Some(v as u8)
        } else {
            None
        },
        None => None,
    }
}

/// The opcode a mnemonic names, in upper case.
#[verifier::opaque]
pub open spec fn mnemonic_op(m: Seq<char>) -> Option<OpCode> {
    if m == seq!['H', 'A', 'L', 'T'] {
        Some(OpCode::Halt)
    } else if m == seq!['N', 'O', 'P'] {
        Some(OpCode::Nop)
    } else if m == seq!['R', 'E', 'T'] {
        Some(OpCode::Ret)
    } else if m == seq!['M', 'O', 'V'] {
        Some(OpCode::Mov)
    } else if m == seq!['L', 'D', 'I'] {
        Some(OpCode::Ldi)
    } else if m == seq!['L', 'D', 'C'] {
        Some(OpCode::Ldc)
    } else if m == seq!['A', 'D', 'D'] {
        Some(OpCode::Add)
    } else if m == seq!['S', 'U', 'B'] {
        Some(OpCode::Sub)
    } else if m == seq!['M', 'U', 'L'] {
        Some(OpCode::Mul)
    } else if m == seq!['D', 'I', 'V'] {
        Some(OpCode::Div)
    } else if m == seq!['R', 'E', 'M'] {
        Some(OpCode::Rem)
    } else if m == seq!['A', 'D', 'D', 'W'] {
        Some(OpCode::AddW)
    } else if m == seq!['S', 'U', 'B', 'W'] {
        Some(OpCode::SubW)
    } else if m == seq!['M', 'U', 'L', 'W'] {
        Some(OpCode::MulW)
    } else if m == seq!['M', 'U', 'L', 'H', 'I'] {
        Some(OpCode::MulHi)
    } else if m == seq!['A', 'N', 'D'] {
        Some(OpCode::And)
    } else if m == seq!['O', 'R'] {
        Some(OpCode::Or)
    } else if m == seq!['X', 'O', 'R'] {
        Some(OpCode::Xor)
    } else if m == seq!['S', 'H', 'L'] {
        Some(OpCode::Shl)
    } else if m == seq!['S', 'H', 'R'] {
        Some(OpCode::Shr)
    } else if m == seq!['E', 'Q'] {
        Some(OpCode::Eq)
    } else if m == seq!['L', 'T', 'U'] {
        Some(OpCode::LtU)
    } else if m == seq!['G', 'T', 'U'] {
        Some(OpCode::GtU)
    } else if m == seq!['S', 'E', 'N', 'D'] {
        Some(OpCode::Send)
    } else if m == seq!['E', 'M', 'I', 'T'] {
        Some(OpCode::Emit)
    } else if m == seq!['H', 'A', 'S', 'H'] {
        Some(OpCode::Hash)
    } else if m == seq!['V', 'E', 'R', 'I', 'F', 'Y', 'M', 'L'] {
        Some(OpCode::VerifyMl)
    } else if m == seq!['V', 'E', 'R', 'I', 'F', 'Y', 'S', 'L', 'H'] {
        Some(OpCode::VerifySlh)
    } else if m == seq!['M', 'E', 'R', 'K', 'L', 'E', 'V', 'E', 'R', 'I', 'F', 'Y'] {
        Some(OpCode::MerkleVerify)
    } else if m == seq!['K', 'E', 'M'] {
        Some(OpCode::Kem)
    } else if m == seq!['A', 'D', 'D', 'R'] {
        Some(OpCode::Addr)
    } else if m == seq!['N', 'O', 'T'] {
        Some(OpCode::Not)
    } else if m == seq!['P', 'U', 'S', 'H'] {
        Some(OpCode::Push)
    } else if m == seq!['P', 'O', 'P'] {
        Some(OpCode::Pop)
    } else if m == seq!['M', 'L', 'O', 'A', 'D'] {
        Some(OpCode::MLoad)
    } else if m == seq!['M', 'S', 'T', 'O', 'R', 'E'] {
        Some(OpCode::MStore)
    } else if m == seq!['S', 'L', 'O', 'A', 'D'] {
        Some(OpCode::SLoad)
    } else if m == seq!['S', 'S', 'T', 'O', 'R', 'E'] {
        Some(OpCode::SStore)
    } else if m == seq!['J', 'M', 'P'] {
        Some(OpCode::Jmp)
    } else if m == seq!['C', 'A', 'L', 'L'] {
        Some(OpCode::Call)
    } else if m == seq!['J', 'Z'] {
        Some(OpCode::Jz)
    } else if m == seq!['J', 'N', 'Z'] {
        Some(OpCode::Jnz)
    } else {
        None
    }
}

/// The name each opcode is written by in assembly text, in upper case; the wide division
/// opcodes have none and are only built from instructions.
pub open spec fn op_name(op: OpCode) -> Option<Seq<char>> {
    match op {
        OpCode::Halt => Some(seq!['H', 'A', 'L', 'T']),
        OpCode::Nop => Some(seq!['N', 'O', 'P']),
        OpCode::Mov => Some(seq!['M', 'O', 'V']),
        OpCode::Ldi => Some(seq!['L', 'D', 'I']),
        OpCode::Ldc => Some(seq!['L', 'D', 'C']),
        OpCode::Add => Some(seq!['A', 'D', 'D']),
        OpCode::Sub => Some(seq!['S', 'U', 'B']),
        OpCode::Mul => Some(seq!['M', 'U', 'L']),
        OpCode::Div => Some(seq!['D', 'I', 'V']),
        OpCode::Rem => Some(seq!['R', 'E', 'M']),
        OpCode::AddW => Some(seq!['A', 'D', 'D', 'W']),
        OpCode::SubW => Some(seq!['S', 'U', 'B', 'W']),
        OpCode::MulW => Some(seq!['M', 'U', 'L', 'W']),
        OpCode::MulHi => Some(seq!['M', 'U', 'L', 'H', 'I']),
        OpCode::DivW => None,
        OpCode::RemW => None,
        OpCode::And => Some(seq!['A', 'N', 'D']),
        OpCode::Or => Some(seq!['O', 'R']),
        OpCode::Xor => Some(seq!['X', 'O', 'R']),
        OpCode::Not => Some(seq!['N', 'O', 'T']),
        OpCode::Shl => Some(seq!['S', 'H', 'L']),
        OpCode::Shr => Some(seq!['S', 'H', 'R']),
        OpCode::Eq => Some(seq!['E', 'Q']),
        OpCode::LtU => Some(seq!['L', 'T', 'U']),
        OpCode::GtU => Some(seq!['G', 'T', 'U']),
        OpCode::Push => Some(seq!['P', 'U', 'S', 'H']),
        OpCode::Pop => Some(seq!['P', 'O', 'P']),
        OpCode::MLoad => Some(seq!['M', 'L', 'O', 'A', 'D']),
        OpCode::MStore => Some(seq!['M', 'S', 'T', 'O', 'R', 'E']),
        OpCode::Jmp => Some(seq!['J', 'M', 'P']),
        OpCode::Jz => Some(seq!['J', 'Z']),
        OpCode::Jnz => Some(seq!['J', 'N', 'Z']),
        OpCode::Call => Some(seq!['C', 'A', 'L', 'L']),
        OpCode::Ret => Some(seq!['R', 'E', 'T']),
        OpCode::SLoad => Some(seq!['S', 'L', 'O', 'A', 'D']),
        OpCode::SStore => Some(seq!['S', 'S', 'T', 'O', 'R', 'E']),
        OpCode::Send => Some(seq!['S', 'E', 'N', 'D']),
        OpCode::Emit => Some(seq!['E', 'M', 'I', 'T']),
        OpCode::Hash => Some(seq!['H', 'A', 'S', 'H']),
        OpCode::VerifyMl => Some(seq!['V', 'E', 'R', 'I', 'F', 'Y', 'M', 'L']),
        OpCode::VerifySlh => Some(seq!['V', 'E', 'R', 'I', 'F', 'Y', 'S', 'L', 'H']),
        OpCode::MerkleVerify => Some(seq!['M', 'E', 'R', 'K', 'L', 'E', 'V', 'E', 'R', 'I', 'F', 'Y']),
        OpCode::Kem => Some(seq!['K', 'E', 'M']),
        OpCode::Addr => Some(seq!['A', 'D', 'D', 'R']),
    }
}

/// Each mnemonic assembles to the opcode of the same name: the upper-case name of an opcode
/// parses to that opcode, and a mnemonic that parses to an opcode is that opcode's name.
pub proof fn law_mnemonic_names(op: OpCode, m: Seq<char>)
    ensures
        op_name(op) matches Some(name) ==> mnemonic_op(name) == Some(op),
        mnemonic_op(m) == Some(op) ==> op_name(op) == Some(m),
{
    lemma_names_parse();
    reveal(mnemonic_op);
}

proof fn lemma_names_parse()
    ensures
        mnemonic_op(seq!['H', 'A', 'L', 'T']) == Some(OpCode::Halt),
        mnemonic_op(seq!['N', 'O', 'P']) == Some(OpCode::Nop),
        mnemonic_op(seq!['R', 'E', 'T']) == Some(OpCode::Ret),
        mnemonic_op(seq!['M', 'O', 'V']) == Some(OpCode::Mov),
        mnemonic_op(seq!['L', 'D', 'I']) == Some(OpCode::Ldi),
        mnemonic_op(seq!['L', 'D', 'C']) == Some(OpCode::Ldc),
        mnemonic_op(seq!['A', 'D', 'D']) == Some(OpCode::Add),
        mnemonic_op(seq!['S', 'U', 'B']) == Some(OpCode::Sub),
        mnemonic_op(seq!['M', 'U', 'L']) == Some(OpCode::Mul),
        mnemonic_op(seq!['D', 'I', 'V']) == Some(OpCode::Div),
        mnemonic_op(seq!['R', 'E', 'M']) == Some(OpCode::Rem),
        mnemonic_op(seq!['A', 'D', 'D', 'W']) == Some(OpCode::AddW),
        mnemonic_op(seq!['S', 'U', 'B', 'W']) == Some(OpCode::SubW),
        mnemonic_op(seq!['M', 'U', 'L', 'W']) == Some(OpCode::MulW),
        mnemonic_op(seq!['M', 'U', 'L', 'H', 'I']) == Some(OpCode::MulHi),
        mnemonic_op(seq!['A', 'N', 'D']) == Some(OpCode::And),
        mnemonic_op(seq!['O', 'R']) == Some(OpCode::Or),
        mnemonic_op(seq!['X', 'O', 'R']) == Some(OpCode::Xor),
        mnemonic_op(seq!['S', 'H', 'L']) == Some(OpCode::Shl),
        mnemonic_op(seq!['S', 'H', 'R']) == Some(OpCode::Shr),
        mnemonic_op(seq!['E', 'Q']) == Some(OpCode::Eq),
        mnemonic_op(seq!['L', 'T', 'U']) == Some(OpCode::LtU),
        mnemonic_op(seq!['G', 'T', 'U']) == Some(OpCode::GtU),
        mnemonic_op(seq!['S', 'E', 'N', 'D']) == Some(OpCode::Send),
        mnemonic_op(seq!['E', 'M', 'I', 'T']) == Some(OpCode::Emit),
        mnemonic_op(seq!['H', 'A', 'S', 'H']) == Some(OpCode::Hash),
        mnemonic_op(seq!['V', 'E', 'R', 'I', 'F', 'Y', 'M', 'L']) == Some(OpCode::VerifyMl),
        mnemonic_op(seq!['V', 'E', 'R', 'I', 'F', 'Y', 'S', 'L', 'H']) == Some(OpCode::VerifySlh),
        mnemonic_op(seq!['M', 'E', 'R', 'K', 'L', 'E', 'V', 'E', 'R', 'I', 'F', 'Y']) == Some(OpCode::MerkleVerify),
        mnemonic_op(seq!['K', 'E', 'M']) == Some(OpCode::Kem),
        mnemonic_op(seq!['A', 'D', 'D', 'R']) == Some(OpCode::Addr),
        mnemonic_op(seq!['N', 'O', 'T']) == Some(OpCode::Not),
        mnemonic_op(seq!['P', 'U', 'S', 'H']) == Some(OpCode::Push),
        mnemonic_op(seq!['P', 'O', 'P']) == Some(OpCode::Pop),
        mnemonic_op(seq!['M', 'L', 'O', 'A', 'D']) == Some(OpCode::MLoad),
        mnemonic_op(seq!['M', 'S', 'T', 'O', 'R', 'E']) == Some(OpCode::MStore),
        mnemonic_op(seq!['S', 'L', 'O', 'A', 'D']) == Some(OpCode::SLoad),
        mnemonic_op(seq!['S', 'S', 'T', 'O', 'R', 'E']) == Some(OpCode::SStore),
        mnemonic_op(seq!['J', 'M', 'P']) == Some(OpCode::Jmp),
        mnemonic_op(seq!['C', 'A', 'L', 'L']) == Some(OpCode::Call),
        mnemonic_op(seq!['J', 'Z']) == Some(OpCode::Jz),
        mnemonic_op(seq!['J', 'N', 'Z']) == Some(OpCode::Jnz),
{
    reveal(mnemonic_op);
    assert(seq!['H', 'A', 'L', 'T'].len() == 4);
    assert(seq!['N', 'O', 'P'].len() == 3);
    assert(seq!['R', 'E', 'T'].len() == 3);
    assert(seq!['M', 'O', 'V'].len() == 3);
    assert(seq!['L', 'D', 'I'].len() == 3);
    assert(seq!['L', 'D', 'C'].len() == 3);
    assert(seq!['A', 'D', 'D'].len() == 3);
    assert(seq!['S', 'U', 'B'].len() == 3);
    assert(seq!['M', 'U', 'L'].len() == 3);
    assert(seq!['D', 'I', 'V'].len() == 3);
    assert(seq!['R', 'E', 'M'].len() == 3);
    assert(seq!['A', 'D', 'D', 'W'].len() == 4);
    assert(seq!['S', 'U', 'B', 'W'].len() == 4);
    assert(seq!['M', 'U', 'L', 'W'].len() == 4);
    assert(seq!['M', 'U', 'L', 'H', 'I'].len() == 5);
    assert(seq!['A', 'N', 'D'].len() == 3);
    assert(seq!['O', 'R'].len() == 2);
    assert(seq!['X', 'O', 'R'].len() == 3);
    assert(seq!['S', 'H', 'L'].len() == 3);
    assert(seq!['S', 'H', 'R'].len() == 3);
    assert(seq!['E', 'Q'].len() == 2);
    assert(seq!['L', 'T', 'U'].len() == 3);
    assert(seq!['G', 'T', 'U'].len() == 3);
    assert(seq!['S', 'E', 'N', 'D'].len() == 4);
    assert(seq!['E', 'M', 'I', 'T'].len() == 4);
    assert(seq!['H', 'A', 'S', 'H'].len() == 4);
    assert(seq!['V', 'E', 'R', 'I', 'F', 'Y', 'M', 'L'].len() == 8);
    assert(seq!['V', 'E', 'R', 'I', 'F', 'Y', 'S', 'L', 'H'].len() == 9);
    assert(seq!['M', 'E', 'R', 'K', 'L', 'E', 'V', 'E', 'R', 'I', 'F', 'Y'].len() == 12);
    assert(seq!['K', 'E', 'M'].len() == 3);
    assert(seq!['A', 'D', 'D', 'R'].len() == 4);
    assert(seq!['N', 'O', 'T'].len() == 3);
    assert(seq!['P', 'U', 'S', 'H'].len() == 4);
    assert(seq!['P', 'O', 'P'].len() == 3);
    assert(seq!['M', 'L', 'O', 'A', 'D'].len() == 5);
    assert(seq!['M', 'S', 'T', 'O', 'R', 'E'].len() == 6);
    assert(seq!['S', 'L', 'O', 'A', 'D'].len() == 5);
    assert(seq!['S', 'S', 'T', 'O', 'R', 'E'].len() == 6);
    assert(seq!['J', 'M', 'P'].len() == 3);
    assert(seq!['C', 'A', 'L', 'L'].len() == 4);
    assert(seq!['J', 'Z'].len() == 2);
    assert(seq!['J', 'N', 'Z'].len() == 3);
    assert(mnemonic_op(seq!['H', 'A', 'L', 'T']) == Some(OpCode::Halt));
    assert(mnemonic_op(seq!['N', 'O', 'P']) == Some(OpCode::Nop));
    assert(mnemonic_op(seq!['R', 'E', 'T']) == Some(OpCode::Ret)) by {
        assert(seq!['R', 'E', 'T'][0] != seq!['N', 'O', 'P'][0]);
    }
    assert(mnemonic_op(seq!['M', 'O', 'V']) == Some(OpCode::Mov)) by {
        assert(seq!['M', 'O', 'V'][0] != seq!['N', 'O', 'P'][0]);
        assert(seq!['M', 'O', 'V'][0] != seq!['R', 'E', 'T'][0]);
    }
    assert(mnemonic_op(seq!['L', 'D', 'I']) == Some(OpCode::Ldi)) by {
        assert(seq!['L', 'D', 'I'][0] != seq!['N', 'O', 'P'][0]);
        assert(seq!['L', 'D', 'I'][0] != seq!['R', 'E', 'T'][0]);
        assert(seq!['L', 'D', 'I'][0] != seq!['M', 'O', 'V'][0]);
    }
    assert(mnemonic_op(seq!['L', 'D', 'C']) == Some(OpCode::Ldc)) by {
        assert(seq!['L', 'D', 'C'][0] != seq!['N', 'O', 'P'][0]);
        assert(seq!['L', 'D', 'C'][0] != seq!['R', 'E', 'T'][0]);
        assert(seq!['L', 'D', 'C'][0] != seq!['M', 'O', 'V'][0]);
        assert(seq!['L', 'D', 'C'][2] != seq!['L', 'D', 'I'][2]);
    }
    assert(mnemonic_op(seq!['A', 'D', 'D']) == Some(OpCode::Add)) by {
        assert(seq!['A', 'D', 'D'][0] != seq!['N', 'O', 'P'][0]);
        assert(seq!['A', 'D', 'D'][0] != seq!['R', 'E', 'T'][0]);
        assert(seq!['A', 'D', 'D'][0] != seq!['M', 'O', 'V'][0]);
        assert(seq!['A', 'D', 'D'][0] != seq!['L', 'D', 'I'][0]);
        assert(seq!['A', 'D', 'D'][0] != seq!['L', 'D', 'C'][0]);
    }
    assert(mnemonic_op(seq!['S', 'U', 'B']) == Some(OpCode::Sub)) by {
        assert(seq!['S', 'U', 'B'][0] != seq!['N', 'O', 'P'][0]);
        assert(seq!['S', 'U', 'B'][0] != seq!['R', 'E', 'T'][0]);
        assert(seq!['S', 'U', 'B'][0] != seq!['M', 'O', 'V'][0]);
        assert(seq!['S', 'U', 'B'][0] != seq!['L', 'D', 'I'][0]);
        assert(seq!['S', 'U', 'B'][0] != seq!['L', 'D', 'C'][0]);
        assert(seq!['S', 'U', 'B'][0] != seq!['A', 'D', 'D'][0]);
    }
    assert(mnemonic_op(seq!['M', 'U', 'L']) == Some(OpCode::Mul)) by {
        assert(seq!['M', 'U', 'L'][0] != seq!['N', 'O', 'P'][0]);
        assert(seq!['M', 'U', 'L'][0] != seq!['R', 'E', 'T'][0]);
        assert(seq!['M', 'U', 'L'][1] != seq!['M', 'O', 'V'][1]);
        assert(seq!['M', 'U', 'L'][0] != seq!['L', 'D', 'I'][0]);
        assert(seq!['M', 'U', 'L'][0] != seq!['L', 'D', 'C'][0]);
        assert(seq!['M', 'U', 'L'][0] != seq!['A', 'D', 'D'][0]);
        assert(seq!['M', 'U', 'L'][0] != seq!['S', 'U', 'B'][0]);
    }
    assert(mnemonic_op(seq!['D', 'I', 'V']) == Some(OpCode::Div)) by {
        assert(seq!['D', 'I', 'V'][0] != seq!['N', 'O', 'P'][0]);
        assert(seq!['D', 'I', 'V'][0] != seq!['R', 'E', 'T'][0]);
        assert(seq!['D', 'I', 'V'][0] != seq!['M', 'O', 'V'][0]);
        assert(seq!['D', 'I', 'V'][0] != seq!['L', 'D', 'I'][0]);
        assert(seq!['D', 'I', 'V'][0] != seq!['L', 'D', 'C'][0]);
        assert(seq!['D', 'I', 'V'][0] != seq!['A', 'D', 'D'][0]);
        assert(seq!['D', 'I', 'V'][0] != seq!['S', 'U', 'B'][0]);
        assert(seq!['D', 'I', 'V'][0] != seq!['M', 'U', 'L'][0]);
    }
    assert(mnemonic_op(seq!['R', 'E', 'M']) == Some(OpCode::Rem)) by {
        assert(seq!['R', 'E', 'M'][0] != seq!['N', 'O', 'P'][0]);
        assert(seq!['R', 'E', 'M'][2] != seq!['R', 'E', 'T'][2]);
        assert(seq!['R', 'E', 'M'][0] != seq!['M', 'O', 'V'][0]);
        assert(seq!['R', 'E', 'M'][0] != seq!['L', 'D', 'I'][0]);
        assert(seq!['R', 'E', 'M'][0] != seq!['L', 'D', 'C'][0]);
        assert(seq!['R', 'E', 'M'][0] != seq!['A', 'D', 'D'][0]);
        assert(seq!['R', 'E', 'M'][0] != seq!['S', 'U', 'B'][0]);
        assert(seq!['R', 'E', 'M'][0] != seq!['M', 'U', 'L'][0]);
        assert(seq!['R', 'E', 'M'][0] != seq!['D', 'I', 'V'][0]);
    }
    assert(mnemonic_op(seq!['A', 'D', 'D', 'W']) == Some(OpCode::AddW)) by {
        assert(seq!['A', 'D', 'D', 'W'][0] != seq!['H', 'A', 'L', 'T'][0]);
    }
    assert(mnemonic_op(seq!['S', 'U', 'B', 'W']) == Some(OpCode::SubW)) by {
        assert(seq!['S', 'U', 'B', 'W'][0] != seq!['H', 'A', 'L', 'T'][0]);
        assert(seq!['S', 'U', 'B', 'W'][0] != seq!['A', 'D', 'D', 'W'][0]);
    }
    assert(mnemonic_op(seq!['M', 'U', 'L', 'W']) == Some(OpCode::MulW)) by {
        assert(seq!['M', 'U', 'L', 'W'][0] != seq!['H', 'A', 'L', 'T'][0]);
        assert(seq!['M', 'U', 'L', 'W'][0] != seq!['A', 'D', 'D', 'W'][0]);
        assert(seq!['M', 'U', 'L', 'W'][0] != seq!['S', 'U', 'B', 'W'][0]);
    }
    assert(mnemonic_op(seq!['M', 'U', 'L', 'H', 'I']) == Some(OpCode::MulHi));
    assert(mnemonic_op(seq!['A', 'N', 'D']) == Some(OpCode::And)) by {
        assert(seq!['A', 'N', 'D'][0] != seq!['N', 'O', 'P'][0]);
        assert(seq!['A', 'N', 'D'][0] != seq!['R', 'E', 'T'][0]);
        assert(seq!['A', 'N', 'D'][0] != seq!['M', 'O', 'V'][0]);
        assert(seq!['A', 'N', 'D'][0] != seq!['L', 'D', 'I'][0]);
        assert(seq!['A', 'N', 'D'][0] != seq!['L', 'D', 'C'][0]);
        assert(seq!['A', 'N', 'D'][1] != seq!['A', 'D', 'D'][1]);
        assert(seq!['A', 'N', 'D'][0] != seq!['S', 'U', 'B'][0]);
        assert(seq!['A', 'N', 'D'][0] != seq!['M', 'U', 'L'][0]);
        assert(seq!['A', 'N', 'D'][0] != seq!['D', 'I', 'V'][0]);
        assert(seq!['A', 'N', 'D'][0] != seq!['R', 'E', 'M'][0]);
    }
    assert(mnemonic_op(seq!['O', 'R']) == Some(OpCode::Or));
    assert(mnemonic_op(seq!['X', 'O', 'R']) == Some(OpCode::Xor)) by {
        assert(seq!['X', 'O', 'R'][0] != seq!['N', 'O', 'P'][0]);
        assert(seq!['X', 'O', 'R'][0] != seq!['R', 'E', 'T'][0]);
        assert(seq!['X', 'O', 'R'][0] != seq!['M', 'O', 'V'][0]);
        assert(seq!['X', 'O', 'R'][0] != seq!['L', 'D', 'I'][0]);
        assert(seq!['X', 'O', 'R'][0] != seq!['L', 'D', 'C'][0]);
        assert(seq!['X', 'O', 'R'][0] != seq!['A', 'D', 'D'][0]);
        assert(seq!['X', 'O', 'R'][0] != seq!['S', 'U', 'B'][0]);
        assert(seq!['X', 'O', 'R'][0] != seq!['M', 'U', 'L'][0]);
        assert(seq!['X', 'O', 'R'][0] != seq!['D', 'I', 'V'][0]);
        assert(seq!['X', 'O', 'R'][0] != seq!['R', 'E', 'M'][0]);
        assert(seq!['X', 'O', 'R'][0] != seq!['A', 'N', 'D'][0]);
    }
    assert(mnemonic_op(seq!['S', 'H', 'L']) == Some(OpCode::Shl)) by {
        assert(seq!['S', 'H', 'L'][0] != seq!['N', 'O', 'P'][0]);
        assert(seq!['S', 'H', 'L'][0] != seq!['R', 'E', 'T'][0]);
        assert(seq!['S', 'H', 'L'][0] != seq!['M', 'O', 'V'][0]);
        assert(seq!['S', 'H', 'L'][0] != seq!['L', 'D', 'I'][0]);
        assert(seq!['S', 'H', 'L'][0] != seq!['L', 'D', 'C'][0]);
        assert(seq!['S', 'H', 'L'][0] != seq!['A', 'D', 'D'][0]);
        assert(seq!['S', 'H', 'L'][1] != seq!['S', 'U', 'B'][1]);
        assert(seq!['S', 'H', 'L'][0] != seq!['M', 'U', 'L'][0]);
        assert(seq!['S', 'H', 'L'][0] != seq!['D', 'I', 'V'][0]);
        assert(seq!['S', 'H', 'L'][0] != seq!['R', 'E', 'M'][0]);
        assert(seq!['S', 'H', 'L'][0] != seq!['A', 'N', 'D'][0]);
        assert(seq!['S', 'H', 'L'][0] != seq!['X', 'O', 'R'][0]);
    }
    assert(mnemonic_op(seq!['S', 'H', 'R']) == Some(OpCode::Shr)) by {
        assert(seq!['S', 'H', 'R'][0] != seq!['N', 'O', 'P'][0]);
        assert(seq!['S', 'H', 'R'][0] != seq!['R', 'E', 'T'][0]);
        assert(seq!['S', 'H', 'R'][0] != seq!['M', 'O', 'V'][0]);
        assert(seq!['S', 'H', 'R'][0] != seq!['L', 'D', 'I'][0]);
        assert(seq!['S', 'H', 'R'][0] != seq!['L', 'D', 'C'][0]);
        assert(seq!['S', 'H', 'R'][0] != seq!['A', 'D', 'D'][0]);
        assert(seq!['S', 'H', 'R'][1] != seq!['S', 'U', 'B'][1]);
        assert(seq!['S', 'H', 'R'][0] != seq!['M', 'U', 'L'][0]);
        assert(seq!['S', 'H', 'R'][0] != seq!['D', 'I', 'V'][0]);
        assert(seq!['S', 'H', 'R'][0] != seq!['R', 'E', 'M'][0]);
        assert(seq!['S', 'H', 'R'][0] != seq!['A', 'N', 'D'][0]);
        assert(seq!['S', 'H', 'R'][0] != seq!['X', 'O', 'R'][0]);
        assert(seq!['S', 'H', 'R'][2] != seq!['S', 'H', 'L'][2]);
    }
    assert(mnemonic_op(seq!['E', 'Q']) == Some(OpCode::Eq)) by {
        assert(seq!['E', 'Q'][0] != seq!['O', 'R'][0]);
    }
    assert(mnemonic_op(seq!['L', 'T', 'U']) == Some(OpCode::LtU)) by {
        assert(seq!['L', 'T', 'U'][0] != seq!['N', 'O', 'P'][0]);
        assert(seq!['L', 'T', 'U'][0] != seq!['R', 'E', 'T'][0]);
        assert(seq!['L', 'T', 'U'][0] != seq!['M', 'O', 'V'][0]);
        assert(seq!['L', 'T', 'U'][1] != seq!['L', 'D', 'I'][1]);
        assert(seq!['L', 'T', 'U'][1] != seq!['L', 'D', 'C'][1]);
        assert(seq!['L', 'T', 'U'][0] != seq!['A', 'D', 'D'][0]);
        assert(seq!['L', 'T', 'U'][0] != seq!['S', 'U', 'B'][0]);
        assert(seq!['L', 'T', 'U'][0] != seq!['M', 'U', 'L'][0]);
        assert(seq!['L', 'T', 'U'][0] != seq!['D', 'I', 'V'][0]);
        assert(seq!['L', 'T', 'U'][0] != seq!['R', 'E', 'M'][0]);
        assert(seq!['L', 'T', 'U'][0] != seq!['A', 'N', 'D'][0]);
        assert(seq!['L', 'T', 'U'][0] != seq!['X', 'O', 'R'][0]);
        assert(seq!['L', 'T', 'U'][0] != seq!['S', 'H', 'L'][0]);
        assert(seq!['L', 'T', 'U'][0] != seq!['S', 'H', 'R'][0]);
    }
    assert(mnemonic_op(seq!['G', 'T', 'U']) == Some(OpCode::GtU)) by {
        assert(seq!['G', 'T', 'U'][0] != seq!['N', 'O', 'P'][0]);
        assert(seq!['G', 'T', 'U'][0] != seq!['R', 'E', 'T'][0]);
        assert(seq!['G', 'T', 'U'][0] != seq!['M', 'O', 'V'][0]);
        assert(seq!['G', 'T', 'U'][0] != seq!['L', 'D', 'I'][0]);
        assert(seq!['G', 'T', 'U'][0] != seq!['L', 'D', 'C'][0]);
        assert(seq!['G', 'T', 'U'][0] != seq!['A', 'D', 'D'][0]);
        assert(seq!['G', 'T', 'U'][0] != seq!['S', 'U', 'B'][0]);
        assert(seq!['G', 'T', 'U'][0] != seq!['M', 'U', 'L'][0]);
        assert(seq!['G', 'T', 'U'][0] != seq!['D', 'I', 'V'][0]);
        assert(seq!['G', 'T', 'U'][0] != seq!['R', 'E', 'M'][0]);
        assert(seq!['G', 'T', 'U'][0] != seq!['A', 'N', 'D'][0]);
        assert(seq!['G', 'T', 'U'][0] != seq!['X', 'O', 'R'][0]);
        assert(seq!['G', 'T', 'U'][0] != seq!['S', 'H', 'L'][0]);
        assert(seq!['G', 'T', 'U'][0] != seq!['S', 'H', 'R'][0]);
        assert(seq!['G', 'T', 'U'][0] != seq!['L', 'T', 'U'][0]);
    }
    assert(mnemonic_op(seq!['S', 'E', 'N', 'D']) == Some(OpCode::Send)) by {
        assert(seq!['S', 'E', 'N', 'D'][0] != seq!['H', 'A', 'L', 'T'][0]);
        assert(seq!['S', 'E', 'N', 'D'][0] != seq!['A', 'D', 'D', 'W'][0]);
        assert(seq!['S', 'E', 'N', 'D'][1] != seq!['S', 'U', 'B', 'W'][1]);
        assert(seq!['S', 'E', 'N', 'D'][0] != seq!['M', 'U', 'L', 'W'][0]);
    }
    assert(mnemonic_op(seq!['E', 'M', 'I', 'T']) == Some(OpCode::Emit)) by {
        assert(seq!['E', 'M', 'I', 'T'][0] != seq!['H', 'A', 'L', 'T'][0]);
        assert(seq!['E', 'M', 'I', 'T'][0] != seq!['A', 'D', 'D', 'W'][0]);
        assert(seq!['E', 'M', 'I', 'T'][0] != seq!['S', 'U', 'B', 'W'][0]);
        assert(seq!['E', 'M', 'I', 'T'][0] != seq!['M', 'U', 'L', 'W'][0]);
        assert(seq!['E', 'M', 'I', 'T'][0] != seq!['S', 'E', 'N', 'D'][0]);
    }
    assert(mnemonic_op(seq!['H', 'A', 'S', 'H']) == Some(OpCode::Hash)) by {
        assert(seq!['H', 'A', 'S', 'H'][2] != seq!['H', 'A', 'L', 'T'][2]);
        assert(seq!['H', 'A', 'S', 'H'][0] != seq!['A', 'D', 'D', 'W'][0]);
        assert(seq!['H', 'A', 'S', 'H'][0] != seq!['S', 'U', 'B', 'W'][0]);
        assert(seq!['H', 'A', 'S', 'H'][0] != seq!['M', 'U', 'L', 'W'][0]);
        assert(seq!['H', 'A', 'S', 'H'][0] != seq!['S', 'E', 'N', 'D'][0]);
        assert(seq!['H', 'A', 'S', 'H'][0] != seq!['E', 'M', 'I', 'T'][0]);
    }
    assert(mnemonic_op(seq!['V', 'E', 'R', 'I', 'F', 'Y', 'M', 'L']) == Some(OpCode::VerifyMl));
    assert(mnemonic_op(seq!['V', 'E', 'R', 'I', 'F', 'Y', 'S', 'L', 'H']) == Some(OpCode::VerifySlh));
    assert(mnemonic_op(seq!['M', 'E', 'R', 'K', 'L', 'E', 'V', 'E', 'R', 'I', 'F', 'Y']) == Some(OpCode::MerkleVerify));
    assert(mnemonic_op(seq!['K', 'E', 'M']) == Some(OpCode::Kem)) by {
        assert(seq!['K', 'E', 'M'][0] != seq!['N', 'O', 'P'][0]);
        assert(seq!['K', 'E', 'M'][0] != seq!['R', 'E', 'T'][0]);
        assert(seq!['K', 'E', 'M'][0] != seq!['M', 'O', 'V'][0]);
        assert(seq!['K', 'E', 'M'][0] != seq!['L', 'D', 'I'][0]);
        assert(seq!['K', 'E', 'M'][0] != seq!['L', 'D', 'C'][0]);
        assert(seq!['K', 'E', 'M'][0] != seq!['A', 'D', 'D'][0]);
        assert(seq!['K', 'E', 'M'][0] != seq!['S', 'U', 'B'][0]);
        assert(seq!['K', 'E', 'M'][0] != seq!['M', 'U', 'L'][0]);
        assert(seq!['K', 'E', 'M'][0] != seq!['D', 'I', 'V'][0]);
        assert(seq!['K', 'E', 'M'][0] != seq!['R', 'E', 'M'][0]);
        assert(seq!['K', 'E', 'M'][0] != seq!['A', 'N', 'D'][0]);
        assert(seq!['K', 'E', 'M'][0] != seq!['X', 'O', 'R'][0]);
        assert(seq!['K', 'E', 'M'][0] != seq!['S', 'H', 'L'][0]);
        assert(seq!['K', 'E', 'M'][0] != seq!['S', 'H', 'R'][0]);
        assert(seq!['K', 'E', 'M'][0] != seq!['L', 'T', 'U'][0]);
        assert(seq!['K', 'E', 'M'][0] != seq!['G', 'T', 'U'][0]);
    }
    assert(mnemonic_op(seq!['A', 'D', 'D', 'R']) == Some(OpCode::Addr)) by {
        assert(seq!['A', 'D', 'D', 'R'][0] != seq!['H', 'A', 'L', 'T'][0]);
        assert(seq!['A', 'D', 'D', 'R'][3] != seq!['A', 'D', 'D', 'W'][3]);
        assert(seq!['A', 'D', 'D', 'R'][0] != seq!['S', 'U', 'B', 'W'][0]);
        assert(seq!['A', 'D', 'D', 'R'][0] != seq!['M', 'U', 'L', 'W'][0]);
        assert(seq!['A', 'D', 'D', 'R'][0] != seq!['S', 'E', 'N', 'D'][0]);
        assert(seq!['A', 'D', 'D', 'R'][0] != seq!['E', 'M', 'I', 'T'][0]);
        assert(seq!['A', 'D', 'D', 'R'][0] != seq!['H', 'A', 'S', 'H'][0]);
    }
    assert(mnemonic_op(seq!['N', 'O', 'T']) == Some(OpCode::Not)) by {
        assert(seq!['N', 'O', 'T'][2] != seq!['N', 'O', 'P'][2]);
        assert(seq!['N', 'O', 'T'][0] != seq!['R', 'E', 'T'][0]);
        assert(seq!['N', 'O', 'T'][0] != seq!['M', 'O', 'V'][0]);
        assert(seq!['N', 'O', 'T'][0] != seq!['L', 'D', 'I'][0]);
        assert(seq!['N', 'O', 'T'][0] != seq!['L', 'D', 'C'][0]);
        assert(seq!['N', 'O', 'T'][0] != seq!['A', 'D', 'D'][0]);
        assert(seq!['N', 'O', 'T'][0] != seq!['S', 'U', 'B'][0]);
        assert(seq!['N', 'O', 'T'][0] != seq!['M', 'U', 'L'][0]);
        assert(seq!['N', 'O', 'T'][0] != seq!['D', 'I', 'V'][0]);
        assert(seq!['N', 'O', 'T'][0] != seq!['R', 'E', 'M'][0]);
        assert(seq!['N', 'O', 'T'][0] != seq!['A', 'N', 'D'][0]);
        assert(seq!['N', 'O', 'T'][0] != seq!['X', 'O', 'R'][0]);
        assert(seq!['N', 'O', 'T'][0] != seq!['S', 'H', 'L'][0]);
        assert(seq!['N', 'O', 'T'][0] != seq!['S', 'H', 'R'][0]);
        assert(seq!['N', 'O', 'T'][0] != seq!['L', 'T', 'U'][0]);
        assert(seq!['N', 'O', 'T'][0] != seq!['G', 'T', 'U'][0]);
        assert(seq!['N', 'O', 'T'][0] != seq!['K', 'E', 'M'][0]);
    }
    assert(mnemonic_op(seq!['P', 'U', 'S', 'H']) == Some(OpCode::Push)) by {
        assert(seq!['P', 'U', 'S', 'H'][0] != seq!['H', 'A', 'L', 'T'][0]);
        assert(seq!['P', 'U', 'S', 'H'][0] != seq!['A', 'D', 'D', 'W'][0]);
        assert(seq!['P', 'U', 'S', 'H'][0] != seq!['S', 'U', 'B', 'W'][0]);
        assert(seq!['P', 'U', 'S', 'H'][0] != seq!['M', 'U', 'L', 'W'][0]);
        assert(seq!['P', 'U', 'S', 'H'][0] != seq!['S', 'E', 'N', 'D'][0]);
        assert(seq!['P', 'U', 'S', 'H'][0] != seq!['E', 'M', 'I', 'T'][0]);
        assert(seq!['P', 'U', 'S', 'H'][0] != seq!['H', 'A', 'S', 'H'][0]);
        assert(seq!['P', 'U', 'S', 'H'][0] != seq!['A', 'D', 'D', 'R'][0]);
    }
    assert(mnemonic_op(seq!['P', 'O', 'P']) == Some(OpCode::Pop)) by {
        assert(seq!['P', 'O', 'P'][0] != seq!['N', 'O', 'P'][0]);
        assert(seq!['P', 'O', 'P'][0] != seq!['R', 'E', 'T'][0]);
        assert(seq!['P', 'O', 'P'][0] != seq!['M', 'O', 'V'][0]);
        assert(seq!['P', 'O', 'P'][0] != seq!['L', 'D', 'I'][0]);
        assert(seq!['P', 'O', 'P'][0] != seq!['L', 'D', 'C'][0]);
        assert(seq!['P', 'O', 'P'][0] != seq!['A', 'D', 'D'][0]);
        assert(seq!['P', 'O', 'P'][0] != seq!['S', 'U', 'B'][0]);
        assert(seq!['P', 'O', 'P'][0] != seq!['M', 'U', 'L'][0]);
        assert(seq!['P', 'O', 'P'][0] != seq!['D', 'I', 'V'][0]);
        assert(seq!['P', 'O', 'P'][0] != seq!['R', 'E', 'M'][0]);
        assert(seq!['P', 'O', 'P'][0] != seq!['A', 'N', 'D'][0]);
        assert(seq!['P', 'O', 'P'][0] != seq!['X', 'O', 'R'][0]);
        assert(seq!['P', 'O', 'P'][0] != seq!['S', 'H', 'L'][0]);
        assert(seq!['P', 'O', 'P'][0] != seq!['S', 'H', 'R'][0]);
        assert(seq!['P', 'O', 'P'][0] != seq!['L', 'T', 'U'][0]);
        assert(seq!['P', 'O', 'P'][0] != seq!['G', 'T', 'U'][0]);
        assert(seq!['P', 'O', 'P'][0] != seq!['K', 'E', 'M'][0]);
        assert(seq!['P', 'O', 'P'][0] != seq!['N', 'O', 'T'][0]);
    }
    assert(mnemonic_op(seq!['M', 'L', 'O', 'A', 'D']) == Some(OpCode::MLoad)) by {
        assert(seq!['M', 'L', 'O', 'A', 'D'][1] != seq!['M', 'U', 'L', 'H', 'I'][1]);
    }
    assert(mnemonic_op(seq!['M', 'S', 'T', 'O', 'R', 'E']) == Some(OpCode::MStore));
    assert(mnemonic_op(seq!['S', 'L', 'O', 'A', 'D']) == Some(OpCode::SLoad)) by {
        assert(seq!['S', 'L', 'O', 'A', 'D'][0] != seq!['M', 'U', 'L', 'H', 'I'][0]);
        assert(seq!['S', 'L', 'O', 'A', 'D'][0] != seq!['M', 'L', 'O', 'A', 'D'][0]);
    }
    assert(mnemonic_op(seq!['S', 'S', 'T', 'O', 'R', 'E']) == Some(OpCode::SStore)) by {
        assert(seq!['S', 'S', 'T', 'O', 'R', 'E'][0] != seq!['M', 'S', 'T', 'O', 'R', 'E'][0]);
    }
    assert(mnemonic_op(seq!['J', 'M', 'P']) == Some(OpCode::Jmp)) by {
        assert(seq!['J', 'M', 'P'][0] != seq!['N', 'O', 'P'][0]);
        assert(seq!['J', 'M', 'P'][0] != seq!['R', 'E', 'T'][0]);
        assert(seq!['J', 'M', 'P'][0] != seq!['M', 'O', 'V'][0]);
        assert(seq!['J', 'M', 'P'][0] != seq!['L', 'D', 'I'][0]);
        assert(seq!['J', 'M', 'P'][0] != seq!['L', 'D', 'C'][0]);
        assert(seq!['J', 'M', 'P'][0] != seq!['A', 'D', 'D'][0]);
        assert(seq!['J', 'M', 'P'][0] != seq!['S', 'U', 'B'][0]);
        assert(seq!['J', 'M', 'P'][0] != seq!['M', 'U', 'L'][0]);
        assert(seq!['J', 'M', 'P'][0] != seq!['D', 'I', 'V'][0]);
        assert(seq!['J', 'M', 'P'][0] != seq!['R', 'E', 'M'][0]);
        assert(seq!['J', 'M', 'P'][0] != seq!['A', 'N', 'D'][0]);
        assert(seq!['J', 'M', 'P'][0] != seq!['X', 'O', 'R'][0]);
        assert(seq!['J', 'M', 'P'][0] != seq!['S', 'H', 'L'][0]);
        assert(seq!['J', 'M', 'P'][0] != seq!['S', 'H', 'R'][0]);
        assert(seq!['J', 'M', 'P'][0] != seq!['L', 'T', 'U'][0]);
        assert(seq!['J', 'M', 'P'][0] != seq!['G', 'T', 'U'][0]);
        assert(seq!['J', 'M', 'P'][0] != seq!['K', 'E', 'M'][0]);
        assert(seq!['J', 'M', 'P'][0] != seq!['N', 'O', 'T'][0]);
        assert(seq!['J', 'M', 'P'][0] != seq!['P', 'O', 'P'][0]);
    }
    assert(mnemonic_op(seq!['C', 'A', 'L', 'L']) == Some(OpCode::Call)) by {
        assert(seq!['C', 'A', 'L', 'L'][0] != seq!['H', 'A', 'L', 'T'][0]);
        assert(seq!['C', 'A', 'L', 'L'][0] != seq!['A', 'D', 'D', 'W'][0]);
        assert(seq!['C', 'A', 'L', 'L'][0] != seq!['S', 'U', 'B', 'W'][0]);
        assert(seq!['C', 'A', 'L', 'L'][0] != seq!['M', 'U', 'L', 'W'][0]);
        assert(seq!['C', 'A', 'L', 'L'][0] != seq!['S', 'E', 'N', 'D'][0]);
        assert(seq!['C', 'A', 'L', 'L'][0] != seq!['E', 'M', 'I', 'T'][0]);
        assert(seq!['C', 'A', 'L', 'L'][0] != seq!['H', 'A', 'S', 'H'][0]);
        assert(seq!['C', 'A', 'L', 'L'][0] != seq!['A', 'D', 'D', 'R'][0]);
        assert(seq!['C', 'A', 'L', 'L'][0] != seq!['P', 'U', 'S', 'H'][0]);
    }
    assert(mnemonic_op(seq!['J', 'Z']) == Some(OpCode::Jz)) by {
        assert(seq!['J', 'Z'][0] != seq!['O', 'R'][0]);
        assert(seq!['J', 'Z'][0] != seq!['E', 'Q'][0]);
    }
    assert(mnemonic_op(seq!['J', 'N', 'Z']) == Some(OpCode::Jnz)) by {
        assert(seq!['J', 'N', 'Z'][0] != seq!['N', 'O', 'P'][0]);
        assert(seq!['J', 'N', 'Z'][0] != seq!['R', 'E', 'T'][0]);
        assert(seq!['J', 'N', 'Z'][0] != seq!['M', 'O', 'V'][0]);
        assert(seq!['J', 'N', 'Z'][0] != seq!['L', 'D', 'I'][0]);
        assert(seq!['J', 'N', 'Z'][0] != seq!['L', 'D', 'C'][0]);
        assert(seq!['J', 'N', 'Z'][0] != seq!['A', 'D', 'D'][0]);
        assert(seq!['J', 'N', 'Z'][0] != seq!['S', 'U', 'B'][0]);
        assert(seq!['J', 'N', 'Z'][0] != seq!['M', 'U', 'L'][0]);
        assert(seq!['J', 'N', 'Z'][0] != seq!['D', 'I', 'V'][0]);
        assert(seq!['J', 'N', 'Z'][0] != seq!['R', 'E', 'M'][0]);
        assert(seq!['J', 'N', 'Z'][0] != seq!['A', 'N', 'D'][0]);
        assert(seq!['J', 'N', 'Z'][0] != seq!['X', 'O', 'R'][0]);
        assert(seq!['J', 'N', 'Z'][0] != seq!['S', 'H', 'L'][0]);
        assert(seq!['J', 'N', 'Z'][0] != seq!['S', 'H', 'R'][0]);
        assert(seq!['J', 'N', 'Z'][0] != seq!['L', 'T', 'U'][0]);
        assert(seq!['J', 'N', 'Z'][0] != seq!['G', 'T', 'U'][0]);
        assert(seq!['J', 'N', 'Z'][0] != seq!['K', 'E', 'M'][0]);
        assert(seq!['J', 'N', 'Z'][0] != seq!['N', 'O', 'T'][0]);
        assert(seq!['J', 'N', 'Z'][0] != seq!['P', 'O', 'P'][0]);
        assert(seq!['J', 'N', 'Z'][1] != seq!['J', 'M', 'P'][1]);
    }
}

fn mnemonic(m: &[char]) -> (r: Option<OpCode>)
    ensures
        r == mnemonic_op(m@),
{
    reveal(mnemonic_op);
    if same_chars(m, &['H', 'A', 'L', 'T']) {
        Some(OpCode::Halt)
    } else if same_chars(m, &['N', 'O', 'P']) {
        Some(OpCode::Nop)
    } else if same_chars(m, &['R', 'E', 'T']) {
        Some(OpCode::Ret)
    } else if same_chars(m, &['M', 'O', 'V']) {
        Some(OpCode::Mov)
    } else if same_chars(m, &['L', 'D', 'I']) {
        Some(OpCode::Ldi)
    } else if same_chars(m, &['L', 'D', 'C']) {
        Some(OpCode::Ldc)
    } else if same_chars(m, &['A', 'D', 'D']) {
        Some(OpCode::Add)
    } else if same_chars(m, &['S', 'U', 'B']) {
        Some(OpCode::Sub)
    } else if same_chars(m, &['M', 'U', 'L']) {
        Some(OpCode::Mul)
    } else if same_chars(m, &['D', 'I', 'V']) {
        Some(OpCode::Div)
    } else if same_chars(m, &['R', 'E', 'M']) {
        Some(OpCode::Rem)
    } else if same_chars(m, &['A', 'D', 'D', 'W']) {
        Some(OpCode::AddW)
    } else if same_chars(m, &['S', 'U', 'B', 'W']) {
        Some(OpCode::SubW)
    } else if same_chars(m, &['M', 'U', 'L', 'W']) {
        Some(OpCode::MulW)
    } else if same_chars(m, &['M', 'U', 'L', 'H', 'I']) {
        Some(OpCode::MulHi)
    } else if same_chars(m, &['A', 'N', 'D']) {
        Some(OpCode::And)
    } else if same_chars(m, &['O', 'R']) {
        Some(OpCode::Or)
    } else if same_chars(m, &['X', 'O', 'R']) {
        Some(OpCode::Xor)
    } else if same_chars(m, &['S', 'H', 'L']) {
        Some(OpCode::Shl)
    } else if same_chars(m, &['S', 'H', 'R']) {
        Some(OpCode::Shr)
    } else if same_chars(m, &['E', 'Q']) {
        Some(OpCode::Eq)
    } else if same_chars(m, &['L', 'T', 'U']) {
        Some(OpCode::LtU)
    } else if same_chars(m, &['G', 'T', 'U']) {
        Some(OpCode::GtU)
    } else if same_chars(m, &['S', 'E', 'N', 'D']) {
        Some(OpCode::Send)
    } else if same_chars(m, &['E', 'M', 'I', 'T']) {
        Some(OpCode::Emit)
    } else if same_chars(m, &['H', 'A', 'S', 'H']) {
        Some(OpCode::Hash)
    } else if same_chars(m, &['V', 'E', 'R', 'I', 'F', 'Y', 'M', 'L']) {
        Some(OpCode::VerifyMl)
    } else if same_chars(m, &['V', 'E', 'R', 'I', 'F', 'Y', 'S', 'L', 'H']) {
        Some(OpCode::VerifySlh)
    } else if same_chars(m, &['M', 'E', 'R', 'K', 'L', 'E', 'V', 'E', 'R', 'I', 'F', 'Y']) {
        Some(OpCode::MerkleVerify)
    } else if same_chars(m, &['K', 'E', 'M']) {
        Some(OpCode::Kem)
    } else if same_chars(m, &['A', 'D', 'D', 'R']) {
        Some(OpCode::Addr)
    } else if same_chars(m, &['N', 'O', 'T']) {
        Some(OpCode::Not)
    } else if same_chars(m, &['P', 'U', 'S', 'H']) {
        Some(OpCode::Push)
    } else if same_chars(m, &['P', 'O', 'P']) {
        Some(OpCode::Pop)
    } else if same_chars(m, &['M', 'L', 'O', 'A', 'D']) {
        Some(OpCode::MLoad)
    } else if same_chars(m, &['M', 'S', 'T', 'O', 'R', 'E']) {
        Some(OpCode::MStore)
    } else if same_chars(m, &['S', 'L', 'O', 'A', 'D']) {
        Some(OpCode::SLoad)
    } else if same_chars(m, &['S', 'S', 'T', 'O', 'R', 'E']) {
        Some(OpCode::SStore)
    } else if same_chars(m, &['J', 'M', 'P']) {
        Some(OpCode::Jmp)
    } else if same_chars(m, &['C', 'A', 'L', 'L']) {
        Some(OpCode::Call)
    } else if same_chars(m, &['J', 'Z']) {
        Some(OpCode::Jz)
    } else if same_chars(m, &['J', 'N', 'Z']) {
        Some(OpCode::Jnz)
    } else {
        None
    }
}

/// Why a program does not assemble, with the number of the line (counted from 1) and the
/// text at fault.
#[derive(Debug, Clone, PartialEq, Eq)]
pub enum AsmError {
    UnknownMnemonic(usize, String),
    WrongOperands(usize, String),
    BadRegister(usize, String),
    BadNumber(usize, String),
    UnknownLabel(usize, String),
    DuplicateLabel(usize, String),
    ProgramTooLarge(usize),
}

/// An assembly error by value.
pub enum AsmErrorView {
    UnknownMnemonic(nat, Seq<char>),
    WrongOperands(nat, Seq<char>),
    BadRegister(nat, Seq<char>),
    BadNumber(nat, Seq<char>),
    UnknownLabel(nat, Seq<char>),
    DuplicateLabel(nat, Seq<char>),
    ProgramTooLarge(nat),
}

impl View for AsmError {
    type V = AsmErrorView;

    open spec fn view(&self) -> AsmErrorView {
        match self {
            AsmError::UnknownMnemonic(n, s) => AsmErrorView::UnknownMnemonic(*n as nat, s@),
            AsmError::WrongOperands(n, s) => AsmErrorView::WrongOperands(*n as nat, s@),
            AsmError::BadRegister(n, s) => AsmErrorView::BadRegister(*n as nat, s@),
            AsmError::BadNumber(n, s) => AsmErrorView::BadNumber(*n as nat, s@),
            AsmError::UnknownLabel(n, s) => AsmErrorView::UnknownLabel(*n as nat, s@),
            AsmError::DuplicateLabel(n, s) => AsmErrorView::DuplicateLabel(*n as nat, s@),
            AsmError::ProgramTooLarge(n) => AsmErrorView::ProgramTooLarge(*n as nat),
        }
    }
}

/// The offset of the label `name` in `labels`, if it is there.
pub open spec fn label_offset(labels: Seq<(Seq<char>, u32)>, name: Seq<char>) -> Option<u32>
    decreases labels.len(),
{
    if labels.len() == 0 {
        None
    } else if labels[0].0 == name {
        Some(labels[0].1)
    } else {
        label_offset(labels.drop_first(), name)
    }
}

/// The index of the first of operands `from..n` that names no register, if any.
pub open spec fn first_bad_reg(ops: Seq<Seq<char>>, from: nat, n: nat) -> Option<nat>
    decreases n - from,
{
    if from >= n {
        None
    } else if reg_value(ops[from as int]) is None {
        Some(from)
    } else {
        first_bad_reg(ops, from + 1, n)
    }
}

/// The register operands as `build` takes them: the registers the first `n` operands name,
/// then zeros.
pub open spec fn operand_regs(ops: Seq<Seq<char>>, n: nat) -> Seq<u8> {
    Seq::new(
        6,
        |k: int|
            if k < n {
                match reg_value(ops[k]) {
                    Some(r) => r,
                    None => 0,
                }
            } else {
                0
            },
    )
}

/// The immediate operand `tok` of an instruction with opcode `op`: a decimal numeral that
/// fits the immediate, or for a jump or call either a decimal offset or a label. Before all
/// labels are known, an unknown label stands for offset zero.
pub open spec fn imm_operand(
    no: nat,
    op: OpCode,
    tok: Seq<char>,
    labels: Seq<(Seq<char>, u32)>,
    allow_unknown: bool,
) -> Result<u64, AsmErrorView> {
    if imm_width(op) == 4 {
        if tok.len() == 0 {
            Err(AsmErrorView::BadNumber(no, tok))
        } else if is_digit(tok[0]) {
            match decimal(tok) {
                Some(v) => if v <= u32::MAX {
                    Ok(v as u64)
                } else {
                    Err(AsmErrorView::BadNumber(no, tok))
                },
                None => Err(AsmErrorView::BadNumber(no, tok)),
            }
        } else {
            match label_offset(labels, tok) {
                Some(off) => Ok(off as u64),
                None => if allow_unknown {
                    Ok(0)
                } else {
                    Err(AsmErrorView::UnknownLabel(no, tok))
                },
            }
        }
    } else {
        let max: nat = if imm_width(op) == 2 {
            u16::MAX as nat
        } else {
            u64::MAX as nat
        };
        match decimal(tok) {
            Some(v) => if v <= max {
                Ok(v as u64)
            } else {
                Err(AsmErrorView::BadNumber(no, tok))
            },
            None => Err(AsmErrorView::BadNumber(no, tok)),
        }
    }
}

/// The instruction on line `no`, or the first fault in it: a line with no word or an unknown
/// mnemonic, a wrong number of operands, then the operands in order.
#[verifier::opaque]
pub open spec fn parse_line(
    no: nat,
    line: Seq<char>,
    labels: Seq<(Seq<char>, u32)>,
    allow_unknown: bool,
) -> Result<Instr, AsmErrorView> {
    let toks = tokens(line);
    if toks.len() == 0 {
        Err(AsmErrorView::UnknownMnemonic(no, line))
    } else {
        let m = upper_seq(toks[0]);
        match mnemonic_op(m) {
            None => Err(AsmErrorView::UnknownMnemonic(no, m)),
            Some(op) => {
                let ops = toks.drop_first();
                let n = reg_count(op);
                let arity = if imm_width(op) > 0 {
                    n + 1
                } else {
                    n
                };
                if ops.len() != arity {
                    Err(AsmErrorView::WrongOperands(no, line))
                } else {
                    match first_bad_reg(ops, 0, n) {
                        Some(k) => Err(AsmErrorView::BadRegister(no, ops[k as int])),
                        None => {
                            let regs = operand_regs(ops, n);
                            if imm_width(op) == 0 {
                                Ok(build(op, regs, 0))
                            } else {
                                match imm_operand(no, op, ops[n as int], labels, allow_unknown) {
                                    Err(e) => Err(e),
                                    Ok(v) => Ok(build(op, regs, v)),
                                }
                            }
                        },
                    }
                }
            },
        }
    }
}

/// A label table by value: each name with its offset.
spec fn labels_view(v: Seq<(Vec<char>, u32)>) -> Seq<(Seq<char>, u32)> {
    v.map_values(|p: (Vec<char>, u32)| (p.0@, p.1))
}

fn find_label(labels: &Vec<(Vec<char>, u32)>, name: &[char]) -> (r: Option<u32>)
    ensures
        r == label_offset(labels_view(labels@), name@),
{
    let ghost lv = labels_view(labels@);
    let mut k: usize = 0;
    assert(lv.subrange(0, lv.len() as int) =~= lv);
    while k < labels.len()
        invariant
            k <= labels@.len(),
            lv == labels_view(labels@),
            label_offset(lv, name@) == label_offset(lv.subrange(k as int, lv.len() as int), name@),
        decreases labels@.len() - k,
    {
        let ghost rest = lv.subrange(k as int, lv.len() as int);
        assert(rest[0] == (labels@[k as int].0@, labels@[k as int].1));
        if same_chars(labels[k].0.as_slice(), name) {
            return Some(labels[k].1);
        }
        assert(rest.drop_first() =~= lv.subrange(k + 1, lv.len() as int));
        k = k + 1;
    }
    assert(lv.subrange(k as int, lv.len() as int) =~= Seq::<(Seq<char>, u32)>::empty());
    None
}

fn upper_all(v: &[char]) -> (r: Vec<char>)
    ensures
        r@ == upper_seq(v@),
{
    let mut out: Vec<char> = Vec::new();
    let mut k: usize = 0;
    while k < v.len()
        invariant
            k <= v@.len(),
            out@ == upper_seq(v@.subrange(0, k as int)),
        decreases v@.len() - k,
    {
        out.push(upper_char(v[k]));
        k = k + 1;
        assert(out@ =~= upper_seq(v@.subrange(0, k as int)));
    }
    assert(v@.subrange(0, v@.len() as int) =~= v@);
    out
}

/// The immediate operand `tok` of an instruction with opcode `op`.
fn immediate(
    no: usize,
    op: OpCode,
    tok: &[char],
    labels: &Vec<(Vec<char>, u32)>,
    allow_unknown: bool,
) -> (r: Result<u64, AsmError>)
    ensures
        match r {
            Ok(v) => imm_operand(no as nat, op, tok@, labels_view(labels@), allow_unknown) == Ok::<
                u64,
                AsmErrorView,
            >(v),
            Err(e) => imm_operand(no as nat, op, tok@, labels_view(labels@), allow_unknown) == Err::<
                u64,
                AsmErrorView,
            >(e@),
        },
{
    assert(tok@.subrange(0, tok@.len() as int) =~= tok@);
    let w = op.imm_width();
    if w == 4 {
        if tok.len() == 0 {
            return Err(AsmError::BadNumber(no, string_of(tok)));
        }
        let u = tok[0] as u32;
        if ('0' as u32) <= u && u <= ('9' as u32) {
            match decimal_from(tok, 0) {
                Some(v) => if v <= u32::MAX as u64 {
                    Ok(v)
                } else {
                    Err(AsmError::BadNumber(no, string_of(tok)))
                },
                None => Err(AsmError::BadNumber(no, string_of(tok))),
            }
        } else {
            match find_label(labels, tok) {
                Some(off) => Ok(off as u64),
                None => if allow_unknown {
                    Ok(0)
                } else {
                    Err(AsmError::UnknownLabel(no, string_of(tok)))
                },
            }
        }
    } else {
        let max: u64 = if w == 2 {
            u16::MAX as u64
        } else {
            u64::MAX
        };
        match decimal_from(tok, 0) {
            Some(v) => if v <= max {
                Ok(v)
            } else {
                Err(AsmError::BadNumber(no, string_of(tok)))
            },
            None => Err(AsmError::BadNumber(no, string_of(tok))),
        }
    }
}

/// The instruction on line `no`, or the first fault in it.
fn parse_instr(
    no: usize,
    line: &[char],
    labels: &Vec<(Vec<char>, u32)>,
    allow_unknown: bool,
) -> (r: Result<Instr, AsmError>)
    ensures
        match r {
            Ok(i) => parse_line(no as nat, line@, labels_view(labels@), allow_unknown) == Ok::<
                Instr,
                AsmErrorView,
            >(i),
            Err(e) => parse_line(no as nat, line@, labels_view(labels@), allow_unknown) == Err::<
                Instr,
                AsmErrorView,
            >(e@),
        },
{
    reveal(parse_line);
    let spans = token_spans(line);
    let ghost toks = tokens(line@);
    if spans.len() == 0 {
        return Err(AsmError::UnknownMnemonic(no, string_of(line)));
    }
    let (a0, b0) = spans[0];
    let first = copy_span(line, a0, b0);
    let m = upper_all(first.as_slice());
    let op = match mnemonic(m.as_slice()) {
        None => {
            return Err(AsmError::UnknownMnemonic(no, string_of(m.as_slice())));
        },
        Some(op) => op,
    };
    let ghost ops = toks.drop_first();
    let n = op.reg_count();
    let w = op.imm_width();
    let arity = if w > 0 {
        n + 1
    } else {
        n
    };
    if spans.len() - 1 != arity {
        return Err(AsmError::WrongOperands(no, string_of(line)));
    }
    let mut regs: Vec<u8> = vec![0, 0, 0, 0, 0, 0];
    let mut k: usize = 0;
    while k < n
        invariant
            k <= n,
            n == reg_count(op),
            n <= 6,
            spans@.len() == toks.len(),
            n + 1 <= spans@.len(),
            toks.len() > 0,
            mnemonic_op(upper_seq(toks[0])) == Some(op),
            ops.len() == (if imm_width(op) > 0 { n + 1 } else { n as int }),
            ops == toks.drop_first(),
            ops.len() >= n,
            toks == tokens(line@),
            forall|j: int|
                0 <= j < spans@.len() ==> {
                    &&& (#[trigger] spans@[j]).0 <= spans@[j].1 <= line@.len()
                    &&& line@.subrange(spans@[j].0 as int, spans@[j].1 as int) == toks[j]
                },
            regs@.len() == 6,
            forall|j: int| 0 <= j < k ==> reg_value(ops[j]) == Some(#[trigger] regs@[j]),
            forall|j: int| k <= j < 6 ==> #[trigger] regs@[j] == 0,
            first_bad_reg(ops, 0, n as nat) == first_bad_reg(ops, k as nat, n as nat),
        decreases n - k,
    {
        let (a, b) = spans[k + 1];
        let tok = copy_span(line, a, b);
        assert(tok@ == ops[k as int]);
        match register(tok.as_slice()) {
            None => {
                proof {
                    reveal(parse_line);
                }
                return Err(AsmError::BadRegister(no, string_of(tok.as_slice())));
            },
            Some(v) => {
                regs.set(k, v);
            },
        }
        k = k + 1;
    }
    assert(regs@ =~= operand_regs(ops, n as nat));
    let arr: [u8; 6] = [regs[0], regs[1], regs[2], regs[3], regs[4], regs[5]];
    assert(arr@ =~= regs@);
    if w == 0 {
        return Ok(Instr::from_parts(op, &arr, 0));
    }
    let (a, b) = spans[n + 1];
    let tok = copy_span(line, a, b);
    assert(tok@ == ops[n as int]);
    match immediate(no, op, tok.as_slice(), labels, allow_unknown) {
        Err(e) => Err(e),
        Ok(v) => Ok(Instr::from_parts(op, &arr, v)),
    }
}

// ---------------------------------------------------------------------------------------
// Programs

/// Whether a line defines a label: it ends in a colon.
pub open spec fn is_label(line: Seq<char>) -> bool {
    line.len() > 0 && line.last() == ':'
}

/// The label a label line defines: the text before the colon, without surrounding white
/// space.
pub open spec fn label_name(line: Seq<char>) -> Seq<char> {
    trim(line.drop_last())
}

/// The first pass over the lines: each label with the offset of the instruction after it,
/// and the length of the code so far; or the first fault met. A label may be defined once,
/// the code must stay within 32-bit offsets, and labels not defined yet stand for offset
/// zero.
pub open spec fn layout(lines: Seq<(nat, Seq<char>)>) -> Result<(Seq<(Seq<char>, u32)>, u32), AsmErrorView>
    decreases lines.len(),
{
    if lines.len() == 0 {
        Ok((Seq::empty(), 0))
    } else {
        match layout(lines.drop_last()) {
            Err(e) => Err(e),
            Ok((labels, off)) => {
                let (no, line) = lines.last();
                if is_label(line) {
                    let name = label_name(line);
                    if label_offset(labels, name) is Some {
                        Err(AsmErrorView::DuplicateLabel(no, name))
                    } else {
                        Ok((labels.push((name, off)), off))
                    }
                } else {
                    match parse_line(no, line, labels, true) {
                        Err(e) => Err(e),
                        Ok(i) => if off + encoding(i).len() > u32::MAX {
                            Err(AsmErrorView::ProgramTooLarge(no))
                        } else {
                            Ok((labels, (off + encoding(i).len()) as u32))
                        },
                    }
                }
            },
        }
    }
}

/// The second pass over the lines: the encodings of their instructions, one after another,
/// with every label resolved; or the first fault met.
pub open spec fn emit(lines: Seq<(nat, Seq<char>)>, labels: Seq<(Seq<char>, u32)>) -> Result<Seq<u8>, AsmErrorView>
    decreases lines.len(),
{
    if lines.len() == 0 {
        Ok(Seq::empty())
    } else {
        match emit(lines.drop_last(), labels) {
            Err(e) => Err(e),
            Ok(code) => {
                let (no, line) = lines.last();
                if is_label(line) {
                    Ok(code)
                } else {
                    match parse_line(no, line, labels, false) {
                        Err(e) => Err(e),
                        Ok(i) => Ok(code + encoding(i)),
                    }
                }
            },
        }
    }
}

/// The bytecode a program assembles to, or the first fault in it: the first pass lays out
/// the labels, the second encodes the instructions against them.
pub open spec fn assembly(src: Seq<char>) -> Result<Seq<u8>, AsmErrorView> {
    let lines = logical_lines(src);
    match layout(lines) {
        Err(e) => Err(e),
        Ok((labels, _)) => emit(lines, labels),
    }
}

proof fn lemma_layout_fault(lines: Seq<(nat, Seq<char>)>, i: int, e: AsmErrorView)
    requires
        0 <= i <= lines.len(),
        layout(lines.subrange(0, i)) == Err::<(Seq<(Seq<char>, u32)>, u32), AsmErrorView>(e),
    ensures
        layout(lines) == Err::<(Seq<(Seq<char>, u32)>, u32), AsmErrorView>(e),
    decreases lines.len(),
{
    if i == lines.len() {
        assert(lines.subrange(0, i) =~= lines);
    } else {
        assert(lines.drop_last().subrange(0, i) =~= lines.subrange(0, i));
        lemma_layout_fault(lines.drop_last(), i, e);
    }
}

proof fn lemma_emit_fault(lines: Seq<(nat, Seq<char>)>, labels: Seq<(Seq<char>, u32)>, i: int, e: AsmErrorView)
    requires
        0 <= i <= lines.len(),
        emit(lines.subrange(0, i), labels) == Err::<Seq<u8>, AsmErrorView>(e),
    ensures
        emit(lines, labels) == Err::<Seq<u8>, AsmErrorView>(e),
    decreases lines.len(),
{
    if i == lines.len() {
        assert(lines.subrange(0, i) =~= lines);
    } else {
        assert(lines.drop_last().subrange(0, i) =~= lines.subrange(0, i));
        lemma_emit_fault(lines.drop_last(), labels, i, e);
    }
}

/// Assembles a program into bytecode: labels are laid out in a first pass, so a jump may
/// name a label defined further down; the second pass encodes each instruction.
pub fn assemble(src: &str) -> (r: Result<Vec<u8>, AsmError>)
    ensures
        match r {
            Ok(code) => assembly(src@) == Ok::<Seq<u8>, AsmErrorView>(code@),
            Err(e) => assembly(src@) == Err::<Seq<u8>, AsmErrorView>(e@),
        },
{
    let text = chars_of(src);
    let lines = source_lines(text.as_slice());
    let ghost lv = lines_view(lines@);
    let mut labels: Vec<(Vec<char>, u32)> = Vec::new();
    let mut offset: u32 = 0;
    let mut i: usize = 0;
    assert(lv.subrange(0, 0) =~= Seq::<(nat, Seq<char>)>::empty());
    assert(labels_view(labels@) =~= Seq::<(Seq<char>, u32)>::empty());
    while i < lines.len()
        invariant
            i <= lines@.len(),
            lv == lines_view(lines@),
            lv == logical_lines(src@),
            layout(lv.subrange(0, i as int)) == Ok::<(Seq<(Seq<char>, u32)>, u32), AsmErrorView>(
                (labels_view(labels@), offset),
            ),
        decreases lines@.len() - i,
    {
        let no = lines[i].no;
        let t = lines[i].text.as_slice();
        let ghost pre = lv.subrange(0, i as int);
        let ghost cur = lv.subrange(0, i + 1);
        assert(cur.drop_last() =~= pre);
        assert(cur.last() == (no as nat, t@));
        if t.len() > 0 && t[t.len() - 1] == ':' {
            let (a, b) = trim_span(t, 0, t.len() - 1);
            assert(t@.subrange(0, t@.len() - 1) =~= t@.drop_last());
            let name = copy_span(t, a, b);
            if find_label(&labels, name.as_slice()).is_some() {
                let err = AsmError::DuplicateLabel(no, string_of(name.as_slice()));
                proof {
                    lemma_layout_fault(lv, i + 1, err@);
                }
                return Err(err);
            }
            let ghost before = labels@;
            labels.push((name, offset));
            assert(labels_view(labels@) =~= labels_view(before).push((name@, offset)));
        } else {
            match parse_instr(no, t, &labels, true) {
                Err(e) => {
                    proof {
                        lemma_layout_fault(lv, i + 1, e@);
                    }
                    return Err(e);
                },
                Ok(instr) => {
                    let len = instr.encoded_len();
                    if (offset as u64) + (len as u64) > u32::MAX as u64 {
                        let err = AsmError::ProgramTooLarge(no);
                        proof {
                            lemma_layout_fault(lv, i + 1, err@);
                        }
                        return Err(err);
                    }
                    offset = offset + len as u32;
                },
            }
        }
        i = i + 1;
    }
    assert(lv.subrange(0, lv.len() as int) =~= lv);
    let ghost lab = labels_view(labels@);
    let mut code: Vec<u8> = Vec::new();
    let mut j: usize = 0;
    while j < lines.len()
        invariant
            j <= lines@.len(),
            lv == lines_view(lines@),
            lv == logical_lines(src@),
            lab == labels_view(labels@),
            layout(lv) == Ok::<(Seq<(Seq<char>, u32)>, u32), AsmErrorView>((lab, offset)),
            emit(lv.subrange(0, j as int), lab) == Ok::<Seq<u8>, AsmErrorView>(code@),
        decreases lines@.len() - j,
    {
        let no = lines[j].no;
        let t = lines[j].text.as_slice();
        let ghost cur = lv.subrange(0, j + 1);
        assert(cur.drop_last() =~= lv.subrange(0, j as int));
        assert(cur.last() == (no as nat, t@));
        if !(t.len() > 0 && t[t.len() - 1] == ':') {
            match parse_instr(no, t, &labels, false) {
                Err(e) => {
                    proof {
                        lemma_emit_fault(lv, lab, j + 1, e@);
                    }
                    return Err(e);
                },
                Ok(instr) => {
                    instr.encode(&mut code);
                },
            }
        }
        j = j + 1;
    }
    assert(lv.subrange(0, lv.len() as int) =~= lv);
    Ok(code)
}

proof fn lemma_first_bad_reg_none(ops: Seq<Seq<char>>, from: nat, n: nat)
    requires
        first_bad_reg(ops, from, n) is None,
    ensures
        forall|j: int| from <= j < n ==> #[trigger] reg_value(ops[j]) is Some,
    decreases n - from,
{
    if from < n {
        lemma_first_bad_reg_none(ops, from + 1, n);
    }
}

proof fn lemma_parsed_well_formed(
    no: nat,
    line: Seq<char>,
    labels: Seq<(Seq<char>, u32)>,
    allow_unknown: bool,
)
    ensures
        parse_line(no, line, labels, allow_unknown) matches Ok(i) ==> well_formed(i),
{
    reveal(parse_line);
    if let Ok(i) = parse_line(no, line, labels, allow_unknown) {
        let toks = tokens(line);
        let ops = toks.drop_first();
        let op = mnemonic_op(upper_seq(toks[0]))->Some_0;
        let n = reg_count(op);
        let regs = operand_regs(ops, n);
        lemma_first_bad_reg_none(ops, 0, n);
        let imm: u64 = if imm_width(op) == 0 {
            0
        } else {
            imm_operand(no, op, ops[n as int], labels, allow_unknown)->Ok_0
        };
        assert(i == build(op, regs, imm));
        lemma_build_regs(op, regs, imm);
        assert forall|j: int| 0 <= j < crate::isa::regs_of(i).len() implies #[trigger] crate::isa::regs_of(i)[j] < NUM_REGS by {
            assert(crate::isa::regs_of(i)[j] == regs[j]);
            assert(reg_value(ops[j]) is Some);
        }
    }
}

/// Every instruction the assembler reads off a line names registers in range, so its
/// encoding decodes back to that instruction wherever it stands in the code.
pub proof fn law_parsed_instr_decodes(
    no: nat,
    line: Seq<char>,
    labels: Seq<(Seq<char>, u32)>,
    allow_unknown: bool,
    before: Seq<u8>,
    after: Seq<u8>,
)
    ensures
        parse_line(no, line, labels, allow_unknown) matches Ok(i) ==> decode_at(
            before + encoding(i) + after,
            before.len() as int,
        ) == Ok::<(Instr, nat), DecodeError>((i, encoding(i).len())),
{
    lemma_parsed_well_formed(no, line, labels, allow_unknown);
    if let Ok(i) = parse_line(no, line, labels, allow_unknown) {
        law_decode_encode(i, before, after);
    }
}

proof fn lemma_emit_decodes(lines: Seq<(nat, Seq<char>)>, labels: Seq<(Seq<char>, u32)>)
    ensures
        emit(lines, labels) matches Ok(code) ==> decodes_from(code, 0),
    decreases lines.len(),
{
    if lines.len() > 0 {
        lemma_emit_decodes(lines.drop_last(), labels);
        if let Ok(code) = emit(lines.drop_last(), labels) {
            let (no, line) = lines.last();
            lemma_parsed_well_formed(no, line, labels, false);
            if let Ok(i) = parse_line(no, line, labels, false) {
                lemma_decodes_append(code, 0, i);
            }
        }
    }
}

/// Whatever the assembler produces decodes, instruction after instruction, up to exactly its
/// end.
pub proof fn law_assembled_code_decodes(src: Seq<char>)
    ensures
        assembly(src) matches Ok(code) ==> decodes_from(code, 0),
{
    if let Ok((labels, _)) = layout(logical_lines(src)) {
        lemma_emit_decodes(logical_lines(src), labels);
    }
}

proof fn lemma_no_bad_reg(ops: Seq<Seq<char>>, from: nat, n: nat)
    requires
        n <= ops.len(),
        forall|k: int| from <= k < n ==> #[trigger] reg_value(ops[k]) is Some,
    ensures
        first_bad_reg(ops, from, n) is None,
    decreases n - from,
{
    if from < n {
        lemma_no_bad_reg(ops, from + 1, n);
    }
}

/// An instruction line of register operands assembles to the instruction its mnemonic names,
/// with the registers in the order they are written: a line whose first token is an opcode's
/// name, in any case, followed by one register token per register operand, parses to that
/// opcode with those registers.
pub proof fn law_register_operands_in_order(
    no: nat,
    line: Seq<char>,
    labels: Seq<(Seq<char>, u32)>,
    allow_unknown: bool,
    op: OpCode,
    rs: Seq<u8>,
)
    requires
        op_name(op) is Some,
        imm_width(op) == 0,
        tokens(line).len() == 1 + reg_count(op),
        upper_seq(tokens(line)[0]) == op_name(op)->Some_0,
        rs.len() == reg_count(op),
        forall|k: int| 0 <= k < rs.len() ==> reg_value(#[trigger] tokens(line)[k + 1]) == Some(rs[k]),
    ensures
        parse_line(no, line, labels, allow_unknown) matches Ok(i) && op_of(i) == op && regs_of(i) == rs,
{
    let toks = tokens(line);
    law_mnemonic_names(op, upper_seq(toks[0]));
    let ops = toks.drop_first();
    let n = reg_count(op);
    assert forall|k: int| 0 <= k < n implies #[trigger] reg_value(ops[k]) is Some by {
        assert(ops[k] == toks[k + 1]);
    }
    lemma_no_bad_reg(ops, 0, n);
    let regs = operand_regs(ops, n);
    assert(mnemonic_op(upper_seq(toks[0])) == Some(op));
    assert(ops.len() == n);
    reveal(parse_line);
    assert(parse_line(no, line, labels, allow_unknown) == Ok::<Instr, AsmErrorView>(build(op, regs, 0)));
    assert(n <= 6);
    lemma_build_regs(op, regs, 0);
    assert(regs.subrange(0, n as int) =~= rs) by {
        assert forall|k: int| 0 <= k < n implies regs.subrange(0, n as int)[k] == rs[k] by {
            assert(ops[k] == toks[k + 1]);
        }
    }
}

} // verus!
