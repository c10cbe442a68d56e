//! The input parser: three lines of text become a starting rover state and
//! an instruction sequence.
//!
//! The accepted grammar, after surrounding whitespace is trimmed:
//! a coordinate line `x, y`, a direction line starting with one of
//! `N`, `E`, `S`, `W`, and an instruction line of characters where `F`,
//! `L` and `R` are moves and turns and every other character is a no-op.
//! A coordinate that is not a well-formed integer in `i32` range counts
//! as zero; a missing line or an unrecognized direction fails the parse
//! as a whole.

use vstd::prelude::*;
use crate::grid::Point;
use crate::rover::Dir;
use crate::rover::Instr;
use crate::rover::Rover;

verus! {

/// The characters discarded when trimming: the Unicode white-space set,
/// exactly the characters `char::is_whitespace` accepts.
pub open spec fn is_space_char(c: char) -> bool {
    c == '\t' || c == '\n' || c == '\u{b}' || c == '\u{c}' || c == '\r' || c == ' '
        || c == '\u{85}' || c == '\u{a0}' || c == '\u{1680}' || (0x2000 <= c as u32 && c as u32
        <= 0x200a) || c == '\u{2028}' || c == '\u{2029}' || c == '\u{202f}' || c == '\u{205f}'
        || c == '\u{3000}'
}

/// `s` without its leading whitespace.
pub open spec fn trim_front(s: Seq<char>) -> Seq<char>
    decreases s.len(),
{
    if s.len() > 0 && is_space_char(s[0]) {
        trim_front(s.drop_first())
    } else {
        s
    }
}

/// `s` without its trailing whitespace.
pub open spec fn trim_back(s: Seq<char>) -> Seq<char>
    decreases s.len(),
{
    if s.len() > 0 && is_space_char(s.last()) {
        trim_back(s.drop_last())
    } else {
        s
    }
}

/// `s` without leading and trailing whitespace.
pub open spec fn trim_spec(s: Seq<char>) -> Seq<char> {
    trim_back(trim_front(s))
}

/// The index of the first occurrence of `c` in `s`, if any.
pub open spec fn find_spec(s: Seq<char>, c: char) -> Option<int>
    decreases s.len(),
{
    if s.len() == 0 {
        None
    } else if s[0] == c {
        Some(0)
    } else {
        match find_spec(s.drop_first(), c) {
            Some(i) => Some(i + 1),
            None => None,
        }
    }
}

/// The segment of `s` before the first occurrence of `c`; all of `s` when
/// `c` does not occur.
pub open spec fn seg_before(s: Seq<char>, c: char) -> Seq<char> {
    match find_spec(s, c) {
        Some(i) => s.take(i),
        None => s,
    }
}

/// The rest of `s` after the first occurrence of `c`; empty when `c` does
/// not occur.
pub open spec fn seg_after(s: Seq<char>, c: char) -> Seq<char> {
    match find_spec(s, c) {
        Some(i) => s.skip(i + 1),
        None => Seq::empty(),
    }
}

proof fn lemma_trim_front_skip(s: Seq<char>, k: int)
    requires
        0 <= k <= s.len(),
        forall|j: int| 0 <= j < k ==> is_space_char(s[j]),
        k == s.len() || !is_space_char(s[k]),
    ensures
        trim_front(s) == s.skip(k),
    decreases k,
{
    if k == 0 {
        assert(s.skip(0) =~= s);
    } else {
        assert(is_space_char(s[0]));
        lemma_trim_front_skip(s.drop_first(), k - 1);
        assert(s.drop_first().skip(k - 1) =~= s.skip(k));
    }
}

proof fn lemma_trim_back_take(s: Seq<char>, k: int)
    requires
        0 <= k <= s.len(),
        forall|j: int| k <= j < s.len() ==> is_space_char(s[j]),
        k == 0 || !is_space_char(s[k - 1]),
    ensures
        trim_back(s) == s.take(k),
    decreases s.len(),
{
    if k == s.len() {
        if s.len() > 0 {
            assert(!is_space_char(s.last()));
        }
        assert(s.take(k) =~= s);
    } else {
        assert(is_space_char(s.last()));
        lemma_trim_back_take(s.drop_last(), k);
        assert(s.drop_last().take(k) =~= s.take(k));
    }
}

proof fn lemma_find_at(s: Seq<char>, c: char, i: int)
    requires
        0 <= i < s.len(),
        s[i] == c,
        forall|j: int| 0 <= j < i ==> s[j] != c,
    ensures
        find_spec(s, c) == Some(i),
    decreases i,
{
    if i > 0 {
        lemma_find_at(s.drop_first(), c, i - 1);
    }
}

proof fn lemma_find_none(s: Seq<char>, c: char)
    requires
        forall|j: int| 0 <= j < s.len() ==> s[j] != c,
    ensures
        find_spec(s, c) is None,
    decreases s.len(),
{
    if s.len() > 0 {
        lemma_find_none(s.drop_first(), c);
    }
}

/// The characters of `s`, collected into a vector.
fn char_vec(s: &str) -> (v: Vec<char>)
    ensures
        v@ == s@,
{
    let n = s.unicode_len();
    let mut v: Vec<char> = Vec::new();
    let mut i: usize = 0;
    while i < n
        invariant
            i <= n,
            n == s@.len(),
            v@ == s@.take(i as int),
        decreases n - i,
    {
        v.push(s.get_char(i));
        proof {
            assert(s@.take(i as int).push(s@[i as int]) =~= s@.take(i as int + 1));
        }
        i = i + 1;
    }
    proof {
        assert(s@.take(n as int) =~= s@);
    }
    v
}

/// The characters of `v` from `lo` (inclusive) to `hi` (exclusive).
fn subvec(v: &Vec<char>, lo: usize, hi: usize) -> (r: Vec<char>)
    requires
        lo <= hi <= v@.len(),
    ensures
        r@ == v@.subrange(lo as int, hi as int),
{
    let mut r: Vec<char> = Vec::new();
    let mut i: usize = lo;
    while i < hi
        invariant
            lo <= i <= hi <= v@.len(),
            r@ == v@.subrange(lo as int, i as int),
        decreases hi - i,
    {
        r.push(v[i]);
        proof {
            assert(v@.subrange(lo as int, i as int).push(v@[i as int]) =~= v@.subrange(
                lo as int,
                i as int + 1,
            ));
        }
        i = i + 1;
    }
    r
}

/// The index of the first occurrence of `c` in `v`, if any.
fn find_char(v: &Vec<char>, c: char) -> (r: Option<usize>)
    ensures
        match r {
            Some(i) => i < v@.len() && find_spec(v@, c) == Some(i as int),
            None => find_spec(v@, c) is None,
        },
{
    let n = v.len();
    let mut i: usize = 0;
    while i < n
        invariant
            i <= n,
            n == v@.len(),
            forall|j: int| 0 <= j < i ==> v@[j] != c,
        decreases n - i,
    {
        if v[i] == c {
            proof {
                lemma_find_at(v@, c, i as int);
            }
            return Some(i);
        }
        i = i + 1;
    }
    proof {
        lemma_find_none(v@, c);
    }
    None
}

/// True exactly for the characters that trimming discards: the Unicode
/// white-space set of `char::is_whitespace`.
fn is_space(c: char) -> (r: bool)
    ensures
        r == is_space_char(c),
{
    let u: u32 = c as u32;
    c == '\t' || c == '\n' || c == '\u{b}' || c == '\u{c}' || c == '\r' || c == ' '
        || c == '\u{85}' || c == '\u{a0}' || c == '\u{1680}' || (0x2000 <= u && u <= 0x200a)
        || c == '\u{2028}' || c == '\u{2029}' || c == '\u{202f}' || c == '\u{205f}'
        || c == '\u{3000}'
}

/// `v` without leading and trailing whitespace.
fn trim_chars(v: &Vec<char>) -> (r: Vec<char>)
    ensures
        r@ == trim_spec(v@),
{
    let n = v.len();
    let mut lo: usize = 0;
    while lo < n && is_space(v[lo])
        invariant
            lo <= n,
            n == v@.len(),
            forall|j: int| 0 <= j < lo ==> is_space_char(v@[j]),
        decreases n - lo,
    {
        lo = lo + 1;
    }
    proof {
        lemma_trim_front_skip(v@, lo as int);
    }
    let mut hi: usize = n;
    while hi > lo && is_space(v[hi - 1])
        invariant
            lo <= hi <= n,
            n == v@.len(),
            forall|j: int| 0 <= j < lo ==> is_space_char(v@[j]),
            lo == n || !is_space_char(v@[lo as int]),
            forall|j: int| hi <= j < n ==> is_space_char(v@[j]),
        decreases hi,
    {
        hi = hi - 1;
    }
    proof {
        let t = v@.skip(lo as int);
        assert(forall|j: int| hi - lo <= j < t.len() ==> is_space_char(t[j]));
        if hi > lo {
            assert(!is_space_char(t[hi - lo - 1]));
        }
        lemma_trim_back_take(t, hi - lo as int);
        assert(t.take(hi - lo as int) =~= v@.subrange(lo as int, hi as int));
    }
    subvec(v, lo, hi)
}

/// Whether `c` is a decimal digit.
pub open spec fn is_digit_char(c: char) -> bool {
    48 <= c as u32 <= 57
}

/// The value of the decimal digit `c`.
pub open spec fn digit_value(c: char) -> int {
    c as u32 - 48
}

/// Whether every character of `s` is a decimal digit.
pub open spec fn all_digit_chars(s: Seq<char>) -> bool {
    forall|i: int| 0 <= i < s.len() ==> is_digit_char(s[i])
}

/// The number denoted by the digit string `s`, read most significant
/// digit first.
pub open spec fn digits_value(s: Seq<char>) -> int
    decreases s.len(),
{
    if s.len() == 0 {
        0
    } else {
        digits_value(s.drop_last()) * 10 + digit_value(s.last())
    }
}

/// The integer denoted by `s`: an optional sign, then one or more decimal
/// digits, with a value in `i32` range. Anything else (including an
/// overflowing value) is `None`.
pub open spec fn parse_i32_spec(s: Seq<char>) -> Option<i32> {
    let negative = s.len() > 0 && s[0] == '-';
    let body = if s.len() > 0 && (s[0] == '-' || s[0] == '+') {
        s.drop_first()
    } else {
        s
    };
    if body.len() > 0 && all_digit_chars(body) {
        let v = if negative {
            -digits_value(body)
        } else {
            digits_value(body)
        };
        if i32::MIN <= v <= i32::MAX {
            Some(v as i32)
        } else {
            None
        }
    } else {
        None
    }
}

/// The coordinate denoted by `s` once trimmed: the integer it denotes,
/// or zero when it denotes none.
pub open spec fn coord_spec(s: Seq<char>) -> i32 {
    match parse_i32_spec(trim_spec(s)) {
        Some(v) => v,
        None => 0,
    }
}

proof fn lemma_digits_value_nonneg(s: Seq<char>)
    requires
        all_digit_chars(s),
    ensures
        digits_value(s) >= 0,
    decreases s.len(),
{
    if s.len() > 0 {
        lemma_digits_value_nonneg(s.drop_last());
    }
}

/// The integer denoted by the characters of `v`, when they form an
/// optional sign followed by digits with a value in `i32` range.
fn parse_i32_chars(v: &Vec<char>) -> (r: Option<i32>)
    ensures
        r == parse_i32_spec(v@),
{
    let n = v.len();
    let mut start: usize = 0;
    let mut negative: bool = false;
    if n > 0 && (v[0] == '-' || v[0] == '+') {
        negative = v[0] == '-';
        start = 1;
    }
    let ghost body = if start == 1 {
        v@.drop_first()
    } else {
        v@
    };
    if start >= n {
        return None;
    }
    // `acc` holds the value of the digits read so far, saturated at `cap`;
    // a value at or above `cap` is outside `i32` range whatever the sign.
    let cap: u64 = 0x1_0000_0000;
    let mut acc: u64 = 0;
    let mut i: usize = start;
    while i < n
        invariant
            start <= i <= n,
            n == v@.len(),
            start == 0 || start == 1,
            start < n,
            cap == 0x1_0000_0000,
            negative == (v@.len() > 0 && v@[0] == '-'),
            (start == 1) == (v@.len() > 0 && (v@[0] == '-' || v@[0] == '+')),
            body == (if start == 1 {
                v@.drop_first()
            } else {
                v@
            }),
            forall|j: int| 0 <= j < i - start ==> is_digit_char(body[j]),
            digits_value(body.take(i - start)) >= 0,
            acc == (if digits_value(body.take(i - start)) <= 0x1_0000_0000 {
                digits_value(body.take(i - start))
            } else {
                0x1_0000_0000
            }),
        decreases n - i,
    {
        let u: u32 = v[i] as u32;
        if u < 48 || u > 57 {
            proof {
                assert(body[i - start] == v@[i as int]);
                assert(!is_digit_char(body[i - start]));
                assert(!all_digit_chars(body));
            }
            return None;
        }
        let d: u64 = (u - 48) as u64;
        let t: u64 = acc * 10 + d;
        proof {
            let pfx = body.take(i - start);
            let pfx2 = body.take(i + 1 - start);
            assert(pfx2.drop_last() =~= pfx);
            assert(pfx2.last() == body[i - start]);
            assert(body[i - start] == v@[i as int]);
            assert(all_digit_chars(pfx));
            lemma_digits_value_nonneg(pfx);
            assert(digits_value(pfx2) == digits_value(pfx) * 10 + digit_value(body[i - start]));
            assert(digit_value(body[i - start]) == d);
        }
        acc = if t > cap {
            cap
        } else {
            t
        };
        i = i + 1;
    }
    proof {
        assert(body.take(n - start) =~= body);
        assert(all_digit_chars(body));
        lemma_digits_value_nonneg(body);
    }
    if negative {
        if acc <= 0x8000_0000 {
            let r: i64 = -(acc as i64);
            Some(r as i32)
        } else {
            None
        }
    } else {
        if acc <= 0x7fff_ffff {
            Some(acc as i32)
        } else {
            None
        }
    }
}

/// The coordinate denoted by `v`: trimmed, then read as an integer, with
/// zero for anything unreadable.
fn coord_chars(v: &Vec<char>) -> (r: i32)
    ensures
        r == coord_spec(v@),
{
    let t = trim_chars(v);
    match parse_i32_chars(&t) {
        Some(x) => x,
        None => 0,
    }
}

/// The facing direction denoted by `c`, if any.
pub open spec fn dir_of_char(c: char) -> Option<Dir> {
    if c == 'N' {
        Some(Dir::North)
    } else if c == 'E' {
        Some(Dir::East)
    } else if c == 'W' {
        Some(Dir::West)
    } else if c == 'S' {
        Some(Dir::South)
    } else {
        None
    }
}

/// The instruction denoted by `c`; every unrecognized character is a no-op.
pub open spec fn instr_of_char(c: char) -> Instr {
    if c == 'R' {
        Instr::Right
    } else if c == 'L' {
        Instr::Left
    } else if c == 'F' {
        Instr::Forward
    } else {
        Instr::Noop
    }
}

/// The parse of the whole input: the trimmed text is split at newlines
/// into a coordinate segment, a direction segment and an instruction
/// segment; fewer than three segments, a coordinate segment without a
/// comma, an empty direction segment or an unrecognized first direction
/// character fail the parse as a whole.
pub open spec fn parse_spec(s: Seq<char>) -> Option<(Rover, Seq<Instr>)> {
    let t = trim_spec(s);
    if find_spec(t, '\n') is None {
        None
    } else {
        let seg1 = seg_before(t, '\n');
        let rest1 = seg_after(t, '\n');
        if find_spec(rest1, '\n') is None {
            None
        } else {
            let seg2 = seg_before(rest1, '\n');
            let seg3 = seg_before(seg_after(rest1, '\n'), '\n');
            if find_spec(seg1, ',') is None {
                None
            } else {
                let x = coord_spec(seg_before(seg1, ','));
                let y = coord_spec(seg_before(seg_after(seg1, ','), ','));
                if seg2.len() == 0 {
                    None
                } else {
                    match dir_of_char(seg2[0]) {
                        Some(d) => Some(
                            (
                                Rover { pos: Point { x, y }, facing: d },
                                seg3.map_values(|c: char| instr_of_char(c)),
                            ),
                        ),
                        None => None,
                    }
                }
            }
        }
    }
}

/// The facing direction denoted by `c`, if any.
fn parse_dir_char(c: char) -> (r: Option<Dir>)
    ensures
        r == dir_of_char(c),
{
    if c == 'N' {
        Some(Dir::North)
    } else if c == 'E' {
        Some(Dir::East)
    } else if c == 'W' {
        Some(Dir::West)
    } else if c == 'S' {
        Some(Dir::South)
    } else {
        None
    }
}

/// The instruction denoted by `c`; every unrecognized character is a no-op.
fn parse_instr_char(c: char) -> (r: Instr)
    ensures
        r == instr_of_char(c),
{
    if c == 'R' {
        Instr::Right
    } else if c == 'L' {
        Instr::Left
    } else if c == 'F' {
        Instr::Forward
    } else {
        Instr::Noop
    }
}

/// Parses the raw input text into a starting rover state and an
/// instruction sequence, or nothing when the text does not hold the three
/// required segments or the direction is unrecognized; a coordinate that
/// is not a well-formed `i32` counts as zero.
pub fn parse_input(input: &str) -> (r: Option<(Rover, Vec<Instr>)>)
    ensures
        match r {
            Some(p) => parse_spec(input@) == Some((p.0, p.1@)),
            None => parse_spec(input@) is None,
        },
{
    let chars = char_vec(input);
    let t = trim_chars(&chars);
    let n1 = match find_char(&t, '\n') {
        Some(i) => i,
        None => {
            return None;
        },
    };
    let tlen = t.len();
    let seg1 = subvec(&t, 0, n1);
    let rest1 = subvec(&t, n1 + 1, tlen);
    proof {
        assert(seg1@ =~= seg_before(t@, '\n'));
        assert(rest1@ =~= seg_after(t@, '\n'));
    }
    let n2 = match find_char(&rest1, '\n') {
        Some(i) => i,
        None => {
            return None;
        },
    };
    let r1len = rest1.len();
    let seg2 = subvec(&rest1, 0, n2);
    let rest2 = subvec(&rest1, n2 + 1, r1len);
    proof {
        assert(seg2@ =~= seg_before(rest1@, '\n'));
        assert(rest2@ =~= seg_after(rest1@, '\n'));
    }
    let seg3 = match find_char(&rest2, '\n') {
        Some(i) => subvec(&rest2, 0, i),
        None => rest2,
    };
    proof {
        assert(seg3@ =~= seg_before(seg_after(rest1@, '\n'), '\n'));
    }
    let c1 = match find_char(&seg1, ',') {
        Some(i) => i,
        None => {
            return None;
        },
    };
    let s1len = seg1.len();
    let xs = subvec(&seg1, 0, c1);
    let rest_c = subvec(&seg1, c1 + 1, s1len);
    proof {
        assert(xs@ =~= seg_before(seg1@, ','));
        assert(rest_c@ =~= seg_after(seg1@, ','));
    }
    let ys = match find_char(&rest_c, ',') {
        Some(i) => subvec(&rest_c, 0, i),
        None => rest_c,
    };
    proof {
        assert(ys@ =~= seg_before(seg_after(seg1@, ','), ','));
    }
    let x = coord_chars(&xs);
    let y = coord_chars(&ys);
    if seg2.len() == 0 {
        return None;
    }
    let d = match parse_dir_char(seg2[0]) {
        Some(d) => d,
        None => {
            return None;
        },
    };
    let mut instrs: Vec<Instr> = Vec::new();
    let n3 = seg3.len();
    let mut i: usize = 0;
    while i < n3
        invariant
            i <= n3,
            n3 == seg3@.len(),
            instrs@ == seg3@.take(i as int).map_values(|c: char| instr_of_char(c)),
        decreases n3 - i,
    {
        instrs.push(parse_instr_char(seg3[i]));
        proof {
            assert(seg3@.take(i as int + 1).map_values(|c: char| instr_of_char(c)) =~= seg3@.take(
                i as int,
            ).map_values(|c: char| instr_of_char(c)).push(instr_of_char(seg3@[i as int])));
        }
        i = i + 1;
    }
    proof {
        assert(seg3@.take(n3 as int) =~= seg3@);
    }
    Some((Rover { pos: Point { x, y }, facing: d }, instrs))
}

} // verus!
