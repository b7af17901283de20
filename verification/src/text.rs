//! Text primitives: conversions between strings and characters, numbers in a
//! radix, searching, trimming and splitting into lines.

use vstd::prelude::*;

verus! {

/// `String::push` appends the given character to the end of the string.
pub assume_specification[ String::push ](s: &mut String, ch: char)
    ensures
        final(s)@ == old(s)@.push(ch),
;

/// The characters of `s`, in order.
pub fn chars_of(s: &str) -> (v: Vec<char>)
    ensures
        v@ == s@,
{
    let mut v: Vec<char> = Vec::new();
    for c in it: s.chars()
        invariant
            v@ == it.seq().take(it.index() as int),
            it.seq() == s@,
    {
        v.push(c);
    }
    v
}

/// The string made of the given characters.
pub fn string_of(chars: &[char]) -> (s: String)
    ensures
        s@ == chars@,
{
    let mut s = String::new();
    let mut i: usize = 0;
    while i < chars.len()
        invariant
            i <= chars.len(),
            s@ == chars@.take(i as int),
        decreases chars.len() - i,
    {
        s.push(chars[i]);
        i = i + 1;
    }
    s
}

/// Copies `from[lo..hi]`.
pub fn chars_between(from: &[char], lo: usize, hi: usize) -> (v: Vec<char>)
    requires
        lo <= hi <= from.len(),
    ensures
        v@ == from@.subrange(lo as int, hi as int),
{
    let mut v: Vec<char> = Vec::new();
    let mut i: usize = lo;
    while i < hi
        invariant
            lo <= i <= hi <= from.len(),
            v@ == from@.subrange(lo as int, i as int),
        decreases hi - i,
    {
        v.push(from[i]);
        i = i + 1;
    }
    v
}

/// Copies `from[lo..hi]`.
pub fn bytes_between(from: &[u8], lo: usize, hi: usize) -> (v: Vec<u8>)
    requires
        lo <= hi <= from.len(),
    ensures
        v@ == from@.subrange(lo as int, hi as int),
{
    let mut v: Vec<u8> = Vec::new();
    let mut i: usize = lo;
    while i < hi
        invariant
            lo <= i <= hi <= from.len(),
            v@ == from@.subrange(lo as int, i as int),
        decreases hi - i,
    {
        v.push(from[i]);
        i = i + 1;
    }
    v
}

/// Appends `from` to `to`.
pub fn append_bytes(to: &mut Vec<u8>, from: &[u8])
    ensures
        final(to)@ == old(to)@ + from@,
{
    let mut i: usize = 0;
    while i < from.len()
        invariant
            i <= from.len(),
            to@ == old(to)@ + from@.take(i as int),
        decreases from.len() - i,
    {
        to.push(from[i]);
        i = i + 1;
    }
    assert(from@.take(from@.len() as int) == from@);
}

/// The numeral of `n` in the given radix, most significant digit first and
/// without leading zeros, as ASCII digits.
pub open spec fn digits(n: nat, radix: nat) -> Seq<u8>
    decreases n,
{
    if radix < 2 || n < radix {
        seq![(48 + n) as u8]
    } else {
        proof {
            vstd::arithmetic::div_mod::lemma_div_decreases(n as int, radix as int);
        }
        digits(n / radix, radix).push((48 + n % radix) as u8)
    }
}

/// Appends the numeral of `n` in the given radix.
pub fn push_digits(out: &mut Vec<u8>, n: u64, radix: u64)
    requires
        2 <= radix <= 10,
    ensures
        final(out)@ == old(out)@ + digits(n as nat, radix as nat),
    decreases n,
{
    if n < radix {
        out.push(48u8 + (n as u8));
    } else {
        proof {
            vstd::arithmetic::div_mod::lemma_div_decreases(n as int, radix as int);
        }
        push_digits(out, n / radix, radix);
        out.push(48u8 + ((n % radix) as u8));
    }
}

/// The text whose characters have the codes in `b`.
pub open spec fn ascii(b: Seq<u8>) -> Seq<char> {
    b.map_values(|x: u8| x as char)
}

/// The decimal numeral of `n` as text.
pub open spec fn decimal(n: nat) -> Seq<char> {
    ascii(digits(n, 10))
}

/// The decimal numeral of `n`.
pub fn decimal_string(n: u64) -> (s: String)
    ensures
        s@ == decimal(n as nat),
{
    let mut out: Vec<u8> = Vec::new();
    push_digits(&mut out, n, 10);
    let mut s = String::new();
    let mut i: usize = 0;
    while i < out.len()
        invariant
            i <= out.len(),
            s@ == ascii(out@.take(i as int)),
        decreases out.len() - i,
    {
        s.push(out[i] as char);
        i = i + 1;
        assert(ascii(out@.take(i as int)) =~= ascii(out@.take(i - 1)).push(out@[i - 1] as char));
    }
    assert(out@.take(out@.len() as int) == out@);
    s
}

/// True of an ASCII digit below the radix.
pub open spec fn is_digit(b: u8, radix: nat) -> bool {
    48 <= b && b - 48 < radix && b < 58
}

/// True when every byte of `s` is a digit of the radix.
pub open spec fn all_digits(s: Seq<u8>, radix: nat) -> bool {
    forall|i: int| 0 <= i < s.len() ==> is_digit(#[trigger] s[i], radix)
}

/// The number that a sequence of digits denotes.
pub open spec fn digits_value(s: Seq<u8>, radix: nat) -> nat
    decreases s.len(),
{
    if s.len() == 0 {
        0
    } else {
        (digits_value(s.drop_last(), radix) * radix + (s.last() - 48)) as nat
    }
}

/// An unsigned numeral with an optional leading `+`: at least one digit, nothing
/// else, and a value of at most `max`.
pub open spec fn parse_unsigned(s: Seq<u8>, radix: nat, max: nat) -> Option<nat> {
    let body = if s.len() > 0 && s[0] == 43u8 { s.skip(1) } else { s };
    if body.len() > 0 && all_digits(body, radix) && digits_value(body, radix) <= max {
        Some(digits_value(body, radix))
    } else {
        None
    }
}

proof fn lemma_value_grows(s: Seq<u8>, radix: nat, i: int)
    requires
        all_digits(s, radix),
        1 <= radix,
        0 <= i <= s.len(),
    ensures
        digits_value(s.take(i), radix) <= digits_value(s, radix),
    decreases s.len() - i,
{
    if i < s.len() {
        lemma_value_grows(s, radix, i + 1);
        let t = s.take(i + 1);
        assert(t.drop_last() =~= s.take(i));
        let v: nat = digits_value(s.take(i), radix);
        assert(v * radix >= v) by (nonlinear_arith)
            requires
                1 <= radix,
        ;
        assert(is_digit(s[i], radix));
    } else {
        assert(s.take(i) =~= s);
    }
}

/// Parses an unsigned numeral of at most `max`.
pub fn parse_number(s: &[u8], radix: u64, max: u64) -> (r: Option<u64>)
    requires
        2 <= radix <= 10,
    ensures
        match r {
            Some(n) => parse_unsigned(s@, radix as nat, max as nat) == Some(n as nat),
            None => parse_unsigned(s@, radix as nat, max as nat) is None,
        },
{
    let start: usize = if s.len() > 0 && s[0] == 43u8 { 1 } else { 0 };
    let ghost body = s@.skip(start as int);
    proof {
        if start == 0 {
            assert(body =~= s@);
        }
    }
    if s.len() == start {
        return None;
    }
    let mut value: u64 = 0;
    let mut i: usize = start;
    while i < s.len()
        invariant
            2 <= radix <= 10,
            start <= i <= s.len(),
            body == s@.skip(start as int),
            body == (if s@.len() > 0 && s@[0] == 43u8 { s@.skip(1) } else { s@ }),
            body.len() > 0,
            forall|j: int| 0 <= j < i - start ==> is_digit(#[trigger] body[j], radix as nat),
            value == digits_value(body.take(i - start), radix as nat),
            value <= max,
        decreases s.len() - i,
    {
        let b: u8 = s[i];
        assert(b == body[i - start]);
        if b < 48 || b >= 58 || (b - 48) as u64 >= radix {
            assert(!is_digit(body[i - start], radix as nat));
            return None;
        }
        let d: u64 = (b - 48) as u64;
        proof {
            assert(is_digit(body[i - start], radix as nat));
            assert(body.take(i - start + 1).drop_last() =~= body.take(i - start));
            assert(digits_value(body.take(i - start + 1), radix as nat) == value * radix + d);
        }
        assert(value * radix <= value * 10) by (nonlinear_arith)
            requires
                radix <= 10,
        ;
        let wide: u128 = value as u128 * radix as u128 + d as u128;
        if wide > max as u128 {
            proof {
                if all_digits(body, radix as nat) {
                    lemma_value_grows(body, radix as nat, i - start + 1);
                }
            }
            return None;
        }
        value = wide as u64;
        i = i + 1;
    }
    assert(body.take(body.len() as int) =~= body);
    Some(value)
}

/// A numeral is made of digits of its radix, has at least one, does not begin
/// with `+`, and denotes the number it was made from.
pub proof fn numeral_denotes_its_number(n: nat, radix: nat)
    requires
        2 <= radix <= 10,
    ensures
        digits(n, radix).len() > 0,
        all_digits(digits(n, radix), radix),
        digits_value(digits(n, radix), radix) == n,
        forall|max: nat| n <= max ==> #[trigger] parse_unsigned(digits(n, radix), radix, max) == Some(n),
    decreases n,
{
    let s = digits(n, radix);
    if n < radix {
        assert(s.drop_last() =~= Seq::<u8>::empty());
        assert(digits_value(s.drop_last(), radix) == 0);
        assert(0 * radix == 0) by (nonlinear_arith);
    } else {
        vstd::arithmetic::div_mod::lemma_div_decreases(n as int, radix as int);
        numeral_denotes_its_number(n / radix, radix);
        assert(s.drop_last() =~= digits(n / radix, radix));
        vstd::arithmetic::div_mod::lemma_fundamental_div_mod(n as int, radix as int);
        assert((n / radix) * radix == radix * (n / radix)) by (nonlinear_arith);
        assert(all_digits(digits(n / radix, radix), radix));
        assert forall|i: int| 0 <= i < s.len() implies is_digit(#[trigger] s[i], radix) by {
            if i < s.len() - 1 {
                assert(s[i] == digits(n / radix, radix)[i]);
            }
        }
    }
    assert(is_digit(s[0], radix));
    assert(s[0] != 43u8);
}

/// The position of the first `x` in `s`, or the length of `s` where there is none.
pub open spec fn first_index<T>(s: Seq<T>, x: T) -> int
    decreases s.len(),
{
    if s.len() == 0 || s[0] == x {
        0
    } else {
        1 + first_index(s.drop_first(), x)
    }
}

/// `first_index` is the one position before which `x` does not occur and at
/// which either `x` stands or the sequence ends.
pub proof fn lemma_first_index<T>(s: Seq<T>, x: T, i: int)
    requires
        0 <= i <= s.len(),
        forall|j: int| 0 <= j < i ==> #[trigger] s[j] != x,
        i < s.len() ==> s[i] == x,
    ensures
        first_index(s, x) == i,
    decreases s.len(),
{
    if s.len() > 0 && s[0] != x {
        assert(i > 0);
        let t = s.drop_first();
        assert forall|j: int| 0 <= j < i - 1 implies #[trigger] t[j] != x by {
            assert(t[j] == s[j + 1]);
        }
        lemma_first_index(t, x, i - 1);
    } else if s.len() > 0 && i > 0 {
        assert(s[0] != x);
    }
}

/// What `first_index` says of the sequence.
pub proof fn lemma_first_index_range<T>(s: Seq<T>, x: T)
    ensures
        0 <= first_index(s, x) <= s.len(),
        forall|j: int| 0 <= j < first_index(s, x) ==> #[trigger] s[j] != x,
        first_index(s, x) < s.len() ==> s[first_index(s, x)] == x,
    decreases s.len(),
{
    if s.len() > 0 && s[0] != x {
        let t = s.drop_first();
        lemma_first_index_range(t, x);
        assert forall|j: int| 0 <= j < first_index(s, x) implies #[trigger] s[j] != x by {
            if j > 0 {
                assert(s[j] == t[j - 1]);
            }
        }
    }
}

/// Finds the first `x` in `s[from..]`; the result is a position in `s`.
pub fn find_byte(s: &[u8], from: usize, x: u8) -> (r: Option<usize>)
    requires
        from <= s.len(),
    ensures
        match r {
            Some(i) => from <= i < s.len() && i - from == first_index(s@.skip(from as int), x),
            None => first_index(s@.skip(from as int), x) == s.len() - from,
        },
{
    let ghost rest = s@.skip(from as int);
    let mut i: usize = from;
    while i < s.len()
        invariant
            from <= i <= s.len(),
            rest == s@.skip(from as int),
            forall|j: int| 0 <= j < i - from ==> #[trigger] rest[j] != x,
        decreases s.len() - i,
    {
        assert(rest[i - from] == s@[i as int]);
        if s[i] == x {
            proof {
                lemma_first_index(rest, x, i - from);
            }
            return Some(i);
        }
        i = i + 1;
    }
    proof {
        lemma_first_index(rest, x, i - from);
    }
    None
}

/// Finds the first `x` in `s[from..]`; the result is a position in `s`.
pub fn find_char(s: &[char], from: usize, x: char) -> (r: Option<usize>)
    requires
        from <= s.len(),
    ensures
        match r {
            Some(i) => from <= i < s.len() && i - from == first_index(s@.skip(from as int), x),
            None => first_index(s@.skip(from as int), x) == s.len() - from,
        },
{
    let ghost rest = s@.skip(from as int);
    let mut i: usize = from;
    while i < s.len()
        invariant
            from <= i <= s.len(),
            rest == s@.skip(from as int),
            forall|j: int| 0 <= j < i - from ==> #[trigger] rest[j] != x,
        decreases s.len() - i,
    {
        assert(rest[i - from] == s@[i as int]);
        if s[i] == x {
            proof {
                lemma_first_index(rest, x, i - from);
            }
            return Some(i);
        }
        i = i + 1;
    }
    proof {
        lemma_first_index(rest, x, i - from);
    }
    None
}

/// The contents of a sequence of vectors.
pub open spec fn deep<T>(v: Seq<Vec<T>>) -> Seq<Seq<T>> {
    v.map_values(|x: Vec<T>| x@)
}

/// The parts of `s` between the separators; at least one.
pub open spec fn split(s: Seq<char>, sep: char) -> Seq<Seq<char>>
    decreases s.len(),
{
    let i = first_index(s, sep);
    if 0 <= i < s.len() {
        seq![s.take(i)] + split(s.skip(i + 1), sep)
    } else {
        seq![s]
    }
}

/// Splits at each separator.
pub fn split_chars(s: &[char], sep: char) -> (parts: Vec<Vec<char>>)
    ensures
        deep(parts@) == split(s@, sep),
{
    let mut parts: Vec<Vec<char>> = Vec::new();
    let mut start: usize = 0;
    assert(s@.skip(0) =~= s@);
    assert(deep(parts@) + split(s@, sep) =~= split(s@, sep));
    loop
        invariant
            start <= s.len(),
            deep(parts@) + split(s@.skip(start as int), sep) == split(s@, sep),
        decreases s.len() - start,
    {
        let ghost before = parts@;
        let ghost rest = s@.skip(start as int);
        match find_char(s, start, sep) {
            Some(i) => {
                let part = chars_between(s, start, i);
                parts.push(part);
                proof {
                    assert(part@ =~= rest.take(i - start));
                    assert(rest.skip(i - start + 1) =~= s@.skip(i + 1));
                    assert(deep(parts@) =~= deep(before).push(part@));
                    let tail = split(s@.skip(i + 1), sep);
                    assert(deep(before) + (seq![part@] + tail) =~= deep(before).push(part@) + tail);
                }
                start = i + 1;
            },
            None => {
                let part = chars_between(s, start, s.len());
                parts.push(part);
                proof {
                    assert(part@ =~= rest);
                    assert(deep(parts@) =~= deep(before).push(part@));
                    assert(deep(before) + seq![part@] =~= deep(parts@));
                }
                return parts;
            },
        }
    }
}

/// Splitting gives at least one part, and no part holds the separator.
pub proof fn split_parts_hold_no_separator(s: Seq<char>, sep: char)
    ensures
        split(s, sep).len() > 0,
        forall|k: int, j: int|
            0 <= k < split(s, sep).len() && 0 <= j < split(s, sep)[k].len() ==> #[trigger] split(s, sep)[k][j] != sep,
    decreases s.len(),
{
    lemma_first_index_range(s, sep);
    let i = first_index(s, sep);
    if i < s.len() {
        split_parts_hold_no_separator(s.skip(i + 1), sep);
        let tail = split(s.skip(i + 1), sep);
        assert forall|k: int, j: int|
            0 <= k < split(s, sep).len() && 0 <= j < split(s, sep)[k].len() implies #[trigger] split(s, sep)[k][j]
            != sep by {
            if k == 0 {
                assert(split(s, sep)[0] == s.take(i));
                assert(s.take(i)[j] == s[j]);
            } else {
                assert(split(s, sep)[k] == tail[k - 1]);
                assert(tail[k - 1][j] != sep);
            }
        }
    }
}

/// The lines of `s`: each ends at a line feed or at the end of the text, a
/// carriage return before the line feed is not part of it, and nothing after the
/// last line feed is no line.
pub open spec fn lines(s: Seq<char>) -> Seq<Seq<char>>
    decreases s.len(),
{
    if s.len() == 0 {
        Seq::empty()
    } else {
        let i = first_index(s, '\n');
        if 0 <= i < s.len() {
            seq![without_return(s.take(i))] + lines(s.skip(i + 1))
        } else {
            seq![s]
        }
    }
}

/// The text without a carriage return at its end.
pub open spec fn without_return(s: Seq<char>) -> Seq<char> {
    if s.len() > 0 && s.last() == '\r' {
        s.drop_last()
    } else {
        s
    }
}

/// Splits into lines.
pub fn split_lines(s: &[char]) -> (out: Vec<Vec<char>>)
    ensures
        deep(out@) == lines(s@),
{
    let mut out: Vec<Vec<char>> = Vec::new();
    let mut start: usize = 0;
    assert(s@.skip(0) =~= s@);
    assert(deep(out@) + lines(s@) =~= lines(s@));
    while start < s.len()
        invariant
            start <= s.len(),
            deep(out@) + lines(s@.skip(start as int)) == lines(s@),
        decreases s.len() - start,
    {
        let ghost before = out@;
        let ghost rest = s@.skip(start as int);
        match find_char(s, start, '\n') {
            Some(i) => {
                let end: usize = if i > start && s[i - 1] == '\r' { i - 1 } else { i };
                let line = chars_between(s, start, end);
                out.push(line);
                proof {
                    assert(line@ =~= without_return(rest.take(i - start)));
                    assert(rest.skip(i - start + 1) =~= s@.skip(i + 1));
                    assert(deep(out@) =~= deep(before).push(line@));
                    let tail = lines(s@.skip(i + 1));
                    assert(deep(before) + (seq![line@] + tail) =~= deep(before).push(line@) + tail);
                }
                start = i + 1;
            },
            None => {
                let line = chars_between(s, start, s.len());
                out.push(line);
                proof {
                    assert(line@ =~= rest);
                    assert(deep(out@) =~= deep(before).push(line@));
                    assert(deep(before) + seq![line@] =~= deep(out@));
                }
                return out;
            },
        }
    }
    assert(s@.skip(start as int) =~= Seq::empty());
    assert(deep(out@) + Seq::<Seq<char>>::empty() =~= deep(out@));
    out
}

/// White space as Unicode defines it.
pub open spec fn is_space(c: char) -> bool {
    ||| 0x09 <= c as u32 <= 0x0D
    ||| c as u32 == 0x20
    ||| c as u32 == 0x85
    ||| c as u32 == 0xA0
    ||| c as u32 == 0x1680
    ||| 0x2000 <= c as u32 <= 0x200A
    ||| c as u32 == 0x2028
    ||| c as u32 == 0x2029
    ||| c as u32 == 0x202F
    ||| c as u32 == 0x205F
    ||| c as u32 == 0x3000
}

/// Whether `c` is white space.
pub fn is_white(c: char) -> (r: bool)
    ensures
        r == is_space(c),
{
    let u: u32 = c as u32;
    (0x09 <= u && u <= 0x0D) || u == 0x20 || u == 0x85 || u == 0xA0 || u == 0x1680 || (0x2000 <= u && u <= 0x200A)
        || u == 0x2028 || u == 0x2029 || u == 0x202F || u == 0x205F || u == 0x3000
}

/// The text without the white space at its start.
pub open spec fn trim_start(s: Seq<char>) -> Seq<char>
    decreases s.len(),
{
    if s.len() > 0 && is_space(s[0]) {
        trim_start(s.drop_first())
    } else {
        s
    }
}

/// The text without the white space at its end.
pub open spec fn trim_end(s: Seq<char>) -> Seq<char>
    decreases s.len(),
{
    if s.len() > 0 && is_space(s.last()) {
        trim_end(s.drop_last())
    } else {
        s
    }
}

/// The text without the white space at either end.
pub open spec fn trim(s: Seq<char>) -> Seq<char> {
    trim_end(trim_start(s))
}

/// Removes the white space at either end.
pub fn trim_chars(s: &[char]) -> (v: Vec<char>)
    ensures
        v@ == trim(s@),
{
    let mut lo: usize = 0;
    assert(s@.skip(0) =~= s@);
    while lo < s.len() && is_white(s[lo])
        invariant
            lo <= s.len(),
            trim_start(s@) == trim_start(s@.skip(lo as int)),
        decreases s.len() - lo,
    {
        assert(s@.skip(lo as int).drop_first() =~= s@.skip(lo + 1));
        lo = lo + 1;
    }
    let mut hi: usize = s.len();
    assert(s@.subrange(lo as int, hi as int) =~= s@.skip(lo as int));
    while hi > lo && is_white(s[hi - 1])
        invariant
            lo <= hi <= s.len(),
            trim(s@) == trim_end(s@.subrange(lo as int, hi as int)),
        decreases hi,
    {
        assert(s@.subrange(lo as int, hi as int).drop_last() =~= s@.subrange(lo as int, hi - 1));
        hi = hi - 1;
    }
    chars_between(s, lo, hi)
}

/// `s` begins with `p`.
pub open spec fn begins_with<T>(s: Seq<T>, p: Seq<T>) -> bool {
    s.len() >= p.len() && s.take(p.len() as int) == p
}

/// `s` ends with `p`.
pub open spec fn ends_with<T>(s: Seq<T>, p: Seq<T>) -> bool {
    s.len() >= p.len() && s.skip(s.len() - p.len()) == p
}

/// `p` occurs in `s`.
pub open spec fn occurs_in(p: Seq<char>, s: Seq<char>) -> bool {
    exists|i: int| 0 <= i <= s.len() - p.len() && #[trigger] s.subrange(i, i + p.len()) == p
}

/// Whether `p` stands in `s` at position `at`.
pub fn stands_at(s: &[char], at: usize, p: &[char]) -> (r: bool)
    ensures
        r == (at + p.len() <= s.len() && s@.subrange(at as int, at + p.len()) == p@),
{
    if s.len() < at || s.len() - at < p.len() {
        return false;
    }
    let mut i: usize = 0;
    while i < p.len()
        invariant
            i <= p.len(),
            at + p.len() <= s.len(),
            forall|j: int| 0 <= j < i ==> s@[at + j] == p@[j],
        decreases p.len() - i,
    {
        if s[at + i] != p[i] {
            assert(s@.subrange(at as int, at + p.len())[i as int] != p@[i as int]);
            return false;
        }
        i = i + 1;
    }
    assert(s@.subrange(at as int, at + p.len()) =~= p@);
    true
}

/// Whether `s` begins with `p`.
pub fn has_prefix(s: &[char], p: &[char]) -> (r: bool)
    ensures
        r == begins_with(s@, p@),
{
    assert(s@.len() >= p@.len() ==> s@.subrange(0, p@.len() as int) =~= s@.take(p@.len() as int));
    stands_at(s, 0, p)
}

/// Whether `s` ends with `p`.
pub fn has_suffix(s: &[char], p: &[char]) -> (r: bool)
    ensures
        r == ends_with(s@, p@),
{
    if s.len() < p.len() {
        return false;
    }
    assert(s@.subrange(s@.len() - p@.len(), s@.len() as int) =~= s@.skip(s@.len() - p@.len()));
    stands_at(s, s.len() - p.len(), p)
}

/// Whether `p` occurs in `s`.
pub fn contains_chars(s: &[char], p: &[char]) -> (r: bool)
    ensures
        r == occurs_in(p@, s@),
{
    if s.len() < p.len() {
        return false;
    }
    let last: usize = s.len() - p.len();
    let mut i: usize = 0;
    while i <= last
        invariant
            i <= last + 1,
            last == s.len() - p.len(),
            forall|j: int| 0 <= j < i ==> #[trigger] s@.subrange(j, j + p@.len()) != p@,
        decreases last + 1 - i,
    {
        if stands_at(s, i, p) {
            return true;
        }
        if i == last {
            return false;
        }
        i = i + 1;
    }
    false
}

/// Whether two texts are the same.
pub fn same_chars(a: &[char], b: &[char]) -> (r: bool)
    ensures
        r == (a@ == b@),
{
    assert(a@.len() == b@.len() ==> a@.subrange(0, b@.len() as int) =~= a@);
    a.len() == b.len() && stands_at(a, 0, b)
}

/// Whether a text is the given string.
pub fn is_text(a: &[char], b: &str) -> (r: bool)
    ensures
        r == (a@ == b@),
{
    let v = chars_of(b);
    same_chars(a, v.as_slice())
}

/// The contents of a sequence of strings.
pub open spec fn texts(v: Seq<String>) -> Seq<Seq<char>> {
    v.map_values(|s: String| s@)
}

/// The view of an optional vector of characters.
pub open spec fn opt_chars(v: Option<Vec<char>>) -> Option<Seq<char>> {
    match v {
        Some(c) => Some(c@),
        None => None,
    }
}

/// What is said to be wrong with bytes that are no UTF-8 encoding of a text.
pub uninterp spec fn utf8_failure(bytes: Seq<u8>) -> Seq<char>;

/// `std::str::from_utf8` reads a text from its UTF-8 encoding and fails on bytes that
/// are no such encoding. The text of the failure depends on the bytes alone.
#[verifier::external_body]
pub(crate) fn utf8_text(bytes: &[u8]) -> (r: Result<String, String>)
    ensures
        match r {
            Ok(s) => vstd::utf8::valid_utf8(bytes@) && s@ == vstd::utf8::decode_utf8(bytes@),
            Err(e) => !vstd::utf8::valid_utf8(bytes@) && e@ == utf8_failure(bytes@),
        },
{
    match std::str::from_utf8(bytes) {
        Ok(s) => Ok(s.to_string()),
        Err(e) => Err(e.to_string()),
    }
}

/// The words of a text: its longest parts without white space.
pub open spec fn words(s: Seq<char>) -> Seq<Seq<char>>
    decreases s.len(),
{
    if s.len() == 0 {
        Seq::empty()
    } else {
        let before = words(s.drop_last());
        if is_space(s.last()) {
            before
        } else if s.len() > 1 && !is_space(s[s.len() - 2]) && before.len() > 0 {
            before.drop_last().push(before.last().push(s.last()))
        } else {
            before.push(seq![s.last()])
        }
    }
}

/// Splits a text into words.
pub fn split_words(s: &[char]) -> (out: Vec<Vec<char>>)
    ensures
        deep(out@) == words(s@),
{
    let mut out: Vec<Vec<char>> = Vec::new();
    let mut i: usize = 0;
    assert(s@.take(0) =~= Seq::empty());
    assert(deep(out@) =~= Seq::empty());
    while i < s.len()
        invariant
            i <= s.len(),
            deep(out@) == words(s@.take(i as int)),
        decreases s.len() - i,
    {
        let ghost before = out@;
        let ghost next = s@.take(i + 1);
        assert(next.drop_last() =~= s@.take(i as int));
        let c: char = s[i];
        if !is_white(c) {
            let grows: bool = i > 0 && !is_white(s[i - 1]) && out.len() > 0;
            if grows {
                assert(deep(before).last() == before.last()@);
                match out.pop() {
                    Some(mut word) => {
                        word.push(c);
                        out.push(word);
                        assert(deep(out@) =~= deep(before).drop_last().push(deep(before).last().push(c)));
                    },
                    None => {},
                }
            } else {
                let mut word: Vec<char> = Vec::new();
                word.push(c);
                out.push(word);
                assert(word@ =~= seq![c]);
                assert(deep(out@) =~= deep(before).push(seq![c]));
            }
        }
        i = i + 1;
    }
    assert(s@.take(s@.len() as int) =~= s@);
    out
}

/// Words are not empty and hold no white space.
pub proof fn words_hold_no_space(s: Seq<char>)
    ensures
        forall|k: int| 0 <= k < words(s).len() ==> (#[trigger] words(s)[k]).len() > 0,
        forall|k: int, j: int|
            0 <= k < words(s).len() && 0 <= j < words(s)[k].len() ==> !is_space(#[trigger] words(s)[k][j]),
    decreases s.len(),
{
    if s.len() > 0 {
        words_hold_no_space(s.drop_last());
        let before = words(s.drop_last());
        let all = words(s);
        assert forall|k: int| 0 <= k < all.len() implies (#[trigger] all[k]).len() > 0 by {
            if k < before.len() {
                assert(before[k].len() > 0);
            }
        }
        assert forall|k: int, j: int| 0 <= k < all.len() && 0 <= j < all[k].len() implies !is_space(
            #[trigger] all[k][j],
        ) by {
            if k < before.len() && j < before[k].len() {
                assert(!is_space(before[k][j]));
            }
        }
    }
}

/// The text before the first separator is the first part, and the others are the parts of
/// the rest.
pub proof fn split_at_each_separator(a: Seq<char>, sep: char, b: Seq<char>)
    requires
        !a.contains(sep),
    ensures
        split(a, sep) == seq![a],
        split(a + seq![sep] + b, sep) == seq![a] + split(b, sep),
{
    let s = a + seq![sep] + b;
    assert forall|j: int| 0 <= j < a.len() implies #[trigger] s[j] != sep by {
        assert(s[j] == a[j]);
    }
    assert(s[a.len() as int] == sep);
    lemma_first_index(s, sep, a.len() as int);
    lemma_first_index(a, sep, a.len() as int);
    assert(s.take(a.len() as int) =~= a);
    assert(s.skip(a.len() as int + 1) =~= b);
}

/// A line ends at a line feed, without a carriage return before it; a text without a line
/// feed is one line, unless it is empty.
pub proof fn lines_end_at_line_feeds(a: Seq<char>, b: Seq<char>)
    requires
        !a.contains('\n'),
    ensures
        lines(a) == (if a.len() == 0 { Seq::empty() } else { seq![a] }),
        (a.len() > 0 ==> a.last() != '\r') ==> lines(a + seq!['\n'] + b) == seq![a] + lines(b),
        lines(a + seq!['\r', '\n'] + b) == seq![a] + lines(b),
{
    let s = a + seq!['\n'] + b;
    let c = a.push('\r');
    let t = a + seq!['\r', '\n'] + b;
    assert(t =~= c + seq!['\n'] + b);
    assert(!c.contains('\n')) by {
        assert forall|j: int| 0 <= j < c.len() implies #[trigger] c[j] != '\n' by {
            if j < a.len() {
                assert(c[j] == a[j]);
            }
        }
    }
    assert forall|j: int| 0 <= j < a.len() implies #[trigger] s[j] != '\n' by {
        assert(s[j] == a[j]);
    }
    assert forall|j: int| 0 <= j < c.len() implies #[trigger] t[j] != '\n' by {
        assert(t[j] == c[j]);
    }
    assert(s[a.len() as int] == '\n');
    assert(t[c.len() as int] == '\n');
    lemma_first_index(s, '\n', a.len() as int);
    lemma_first_index(t, '\n', c.len() as int);
    lemma_first_index(a, '\n', a.len() as int);
    assert(s.take(a.len() as int) =~= a);
    assert(s.skip(a.len() as int + 1) =~= b);
    assert(t.take(c.len() as int) =~= c);
    assert(t.skip(c.len() as int + 1) =~= b);
    assert(c.drop_last() =~= a);
}

/// Trimming takes white space alone, and takes all of it that stands at either end.
pub proof fn trim_takes_the_white_space(s: Seq<char>)
    ensures
        trim(s).len() > 0 ==> !is_space(trim(s)[0]) && !is_space(trim(s).last()),
        exists|lo: int, hi: int|
            0 <= lo <= hi <= s.len() && trim(s) == #[trigger] s.subrange(lo, hi) && (forall|j: int|
                0 <= j < lo || hi <= j < s.len() ==> is_space(#[trigger] s[j])),
{
    lemma_trim_start(s);
    let t = trim_start(s);
    let lo = s.len() - t.len();
    lemma_trim_end(t);
    let hi = lo + trim_end(t).len();
    assert(s.subrange(lo, hi) =~= trim(s));
    assert forall|j: int| 0 <= j < lo || hi <= j < s.len() implies is_space(#[trigger] s[j]) by {
        if j >= hi {
            assert(s[j] == t[j - lo]);
        }
    }
    if trim(s).len() > 0 {
        assert(trim(s)[0] == t[0]);
    }
}

proof fn lemma_trim_start(s: Seq<char>)
    ensures
        trim_start(s).len() <= s.len(),
        trim_start(s) == s.skip(s.len() - trim_start(s).len()),
        forall|j: int| 0 <= j < s.len() - trim_start(s).len() ==> is_space(#[trigger] s[j]),
        trim_start(s).len() > 0 ==> !is_space(trim_start(s)[0]),
    decreases s.len(),
{
    if s.len() > 0 && is_space(s[0]) {
        let t = s.drop_first();
        lemma_trim_start(t);
        assert(trim_start(s) =~= s.skip(s.len() - trim_start(s).len()));
        assert forall|j: int| 0 <= j < s.len() - trim_start(s).len() implies is_space(#[trigger] s[j]) by {
            if j > 0 {
                assert(s[j] == t[j - 1]);
            }
        }
    } else {
        assert(s.skip(0) =~= s);
    }
}

proof fn lemma_trim_end(s: Seq<char>)
    ensures
        trim_end(s).len() <= s.len(),
        trim_end(s) == s.take(trim_end(s).len() as int),
        forall|j: int| trim_end(s).len() <= j < s.len() ==> is_space(#[trigger] s[j]),
        trim_end(s).len() > 0 ==> !is_space(trim_end(s).last()),
    decreases s.len(),
{
    if s.len() > 0 && is_space(s.last()) {
        let t = s.drop_last();
        lemma_trim_end(t);
        assert(trim_end(s) =~= s.take(trim_end(s).len() as int));
        assert forall|j: int| trim_end(s).len() <= j < s.len() implies is_space(#[trigger] s[j]) by {
            if j < t.len() {
                assert(s[j] == t[j]);
            }
        }
    } else {
        assert(s.take(s.len() as int) =~= s);
    }
}

/// A text without white space at its ends is what trimming leaves of it, with any white
/// space around it.
pub proof fn trim_undoes_padding(before: Seq<char>, s: Seq<char>, after: Seq<char>)
    requires
        forall|j: int| 0 <= j < before.len() ==> is_space(#[trigger] before[j]),
        forall|j: int| 0 <= j < after.len() ==> is_space(#[trigger] after[j]),
        s.len() > 0 ==> !is_space(s[0]) && !is_space(s.last()),
    ensures
        trim(before + s + after) == s,
{
    let all = before + s + after;
    lemma_trim_start(all);
    let t = trim_start(all);
    let lo = all.len() - t.len();
    if s.len() > 0 {
        assert(all[before.len() as int] == s[0]);
        if lo > before.len() {
            assert(is_space(all[before.len() as int]));
        }
        if lo < before.len() {
            assert(t[0] == all[lo]);
            assert(all[lo] == before[lo]);
        }
        assert(t =~= s + after);
        lemma_trim_end(t);
        let n = trim_end(t).len() as int;
        if n < s.len() {
            assert(is_space(t[s.len() - 1]));
            assert(t[s.len() - 1] == s.last());
        }
        if n > s.len() {
            assert(trim_end(t).last() == t[n - 1]);
            assert(t[n - 1] == after[n - 1 - s.len()]);
        }
        assert(trim_end(t) =~= s);
    } else {
        if t.len() > 0 {
            assert(t[0] == all[lo]);
            if lo < before.len() {
                assert(all[lo] == before[lo]);
            } else {
                assert(all[lo] == after[lo - before.len()]);
            }
        }
        assert(trim_end(t) =~= s);
    }
}

/// What it means that a text begins with, ends with or holds another.
pub proof fn parts_of_a_text(before: Seq<char>, p: Seq<char>, after: Seq<char>)
    ensures
        begins_with(p + after, p),
        ends_with(before + p, p),
        occurs_in(p, before + p + after),
{
    assert((p + after).take(p.len() as int) =~= p);
    assert((before + p).skip(before.len() as int) =~= p);
    let all = before + p + after;
    let i = before.len() as int;
    assert(all.subrange(i, i + p.len()) =~= p);
}

/// A text that begins with, ends with or holds another has its characters there, one by
/// one.
pub proof fn parts_stand_where_they_begin(s: Seq<char>, p: Seq<char>)
    ensures
        begins_with(s, p) <==> s.len() >= p.len() && forall|j: int| 0 <= j < p.len() ==> #[trigger] p[j] == s[j],
        ends_with(s, p) <==> s.len() >= p.len() && forall|j: int|
            0 <= j < p.len() ==> #[trigger] p[j] == s[s.len() - p.len() + j],
        occurs_in(p, s) <==> exists|i: int|
            0 <= i <= s.len() - p.len() && #[trigger] s.subrange(i, i + p.len()) == p,
{
    if s.len() >= p.len() {
        let n = p.len() as int;
        let m = s.len() - p.len();
        if begins_with(s, p) {
            assert forall|j: int| 0 <= j < p.len() implies #[trigger] p[j] == s[j] by {
                assert(s.take(n)[j] == s[j]);
            }
        }
        if forall|j: int| 0 <= j < p.len() ==> #[trigger] p[j] == s[j] {
            assert(s.take(n) =~= p);
        }
        if ends_with(s, p) {
            assert forall|j: int| 0 <= j < p.len() implies #[trigger] p[j] == s[m + j] by {
                assert(s.skip(m)[j] == s[m + j]);
            }
        }
        if forall|j: int| 0 <= j < p.len() ==> #[trigger] p[j] == s[s.len() - p.len() + j] {
            assert(s.skip(m) =~= p);
        }
    }
}

/// The words of two texts with white space between them are those of both, and a text
/// without any is one word.
pub proof fn words_end_at_white_space(a: Seq<char>, c: char, b: Seq<char>)
    requires
        is_space(c),
    ensures
        words(a + seq![c] + b) == words(a) + words(b),
        a.len() > 0 && (forall|j: int| 0 <= j < a.len() ==> !is_space(#[trigger] a[j])) ==> words(a) == seq![a],
    decreases a.len() + b.len(),
{
    let s = a + seq![c] + b;
    if b.len() == 0 {
        assert(s.drop_last() =~= a);
        assert(words(s) =~= words(a) + words(b));
    } else {
        let t = b.drop_last();
        assert(s.drop_last() =~= a + seq![c] + t);
        assert(s.last() == b.last());
        words_end_at_white_space(a, c, t);
        if !is_space(b.last()) {
            if t.len() > 0 {
                assert(s[s.len() - 2] == b[b.len() - 2]);
                if !is_space(b[b.len() - 2]) {
                    lemma_open_word(t);
                    let x = words(a);
                    let y = words(t);
                    assert((x + y).drop_last().push((x + y).last().push(b.last())) =~= x + y.drop_last().push(
                        y.last().push(b.last()),
                    ));
                } else {
                    assert((words(a) + words(t)).push(seq![b.last()]) =~= words(a) + words(t).push(seq![b.last()]));
                }
            } else {
                assert(s[s.len() - 2] == c);
                assert(words(t) =~= Seq::empty());
                assert((words(a) + words(t)).push(seq![b.last()]) =~= words(a) + words(b));
            }
        }
    }
    if a.len() > 0 && (forall|j: int| 0 <= j < a.len() ==> !is_space(#[trigger] a[j])) {
        lemma_one_word(a);
    }
}

proof fn lemma_open_word(s: Seq<char>)
    requires
        s.len() > 0,
        !is_space(s.last()),
    ensures
        words(s).len() > 0,
{
}

proof fn lemma_one_word(a: Seq<char>)
    requires
        a.len() > 0,
        forall|j: int| 0 <= j < a.len() ==> !is_space(#[trigger] a[j]),
    ensures
        words(a) == seq![a],
    decreases a.len(),
{
    let t = a.drop_last();
    assert(!is_space(a[a.len() - 1]));
    if t.len() > 0 {
        assert forall|j: int| 0 <= j < t.len() implies !is_space(#[trigger] t[j]) by {
            assert(t[j] == a[j]);
        }
        lemma_one_word(t);
        assert(!is_space(a[a.len() - 2]));
        assert(t.push(a.last()) =~= a);
        assert(words(a) =~= seq![a]);
    } else {
        assert(words(t) =~= Seq::empty());
        assert(a =~= seq![a.last()]);
        assert(words(a) =~= seq![a]);
    }
}

/// The numeral of a number has no zero at its beginning, but for that of zero, and has one
/// digit more for each factor of the radix.
pub proof fn numeral_has_no_leading_zero(n: nat, radix: nat)
    requires
        2 <= radix <= 10,
    ensures
        n > 0 ==> digits(n, radix)[0] != 48u8,
        n < radix <==> digits(n, radix).len() == 1,
        n >= radix ==> digits(n, radix).len() == digits(n / radix, radix).len() + 1,
    decreases n,
{
    numeral_denotes_its_number(n, radix);
    if n >= radix {
        vstd::arithmetic::div_mod::lemma_div_decreases(n as int, radix as int);
        vstd::arithmetic::div_mod::lemma_div_non_zero(n as int, radix as int);
        numeral_has_no_leading_zero(n / radix, radix);
        numeral_denotes_its_number(n / radix, radix);
    }
}

/// A number is read from digits of the radix alone, with a plus sign before them or not.
pub proof fn only_numerals_are_read(s: Seq<u8>, radix: nat, max: nat)
    requires
        2 <= radix <= 10,
    ensures
        s.len() == 0 ==> parse_unsigned(s, radix, max) is None,
        parse_unsigned(s, radix, max) is Some ==> parse_unsigned(s, radix, max)->0 <= max && forall|i: int|
            0 <= i < s.len() ==> (48 <= #[trigger] s[i] && s[i] - 48 < radix) || (i == 0 && s[i] == 43u8 && s.len() > 1),
        s.len() > 0 && s[0] != 43u8 ==> parse_unsigned(seq![43u8] + s, radix, max) == parse_unsigned(s, radix, max),
{
    let body = if s.len() > 0 && s[0] == 43u8 { s.skip(1) } else { s };
    if parse_unsigned(s, radix, max) is Some {
        assert forall|i: int| 0 <= i < s.len() implies (48 <= #[trigger] s[i] && s[i] - 48 < radix) || (i == 0 && s[i]
            == 43u8 && s.len() > 1) by {
            if s[0] == 43u8 {
                if i > 0 {
                    assert(body[i - 1] == s[i]);
                }
            } else {
                assert(body[i] == s[i]);
            }
        }
    }
    assert((seq![43u8] + s).skip(1) =~= s);
}

proof fn lemma_part_place(s: Seq<char>, sep: char, k: int) -> (i: int)
    requires
        0 <= k < split(s, sep).len(),
    ensures
        0 <= i <= i + split(s, sep)[k].len() <= s.len(),
        s.subrange(i, i + split(s, sep)[k].len()) == split(s, sep)[k],
        i == 0 || s[i - 1] == sep,
        k < split(s, sep).len() - 1 ==> i + split(s, sep)[k].len() < s.len() && s[i + split(s, sep)[k].len()] == sep,
        k == split(s, sep).len() - 1 ==> i + split(s, sep)[k].len() == s.len(),
    decreases s.len(),
{
    lemma_first_index_range(s, sep);
    let n = first_index(s, sep);
    if n < s.len() {
        let rest = s.skip(n + 1);
        let tail = split(rest, sep);
        split_parts_hold_no_separator(rest, sep);
        if k == 0 {
            assert(s.subrange(0, n) =~= s.take(n));
            0
        } else {
            let j = lemma_part_place(rest, sep, k - 1);
            let len = tail[k - 1].len() as int;
            assert(split(s, sep)[k] == tail[k - 1]);
            assert(s.subrange(n + 1 + j, n + 1 + j + len) =~= rest.subrange(j, j + len));
            if j > 0 {
                assert(rest[j - 1] == s[n + j]);
            }
            if j + len < rest.len() {
                assert(rest[j + len] == s[n + 1 + j + len]);
            }
            n + 1 + j
        }
    } else {
        assert(s.subrange(0, s.len() as int) =~= s);
        0
    }
}

proof fn lemma_place_part(a: Seq<char>, w: Seq<char>, b: Seq<char>, sep: char) -> (k: int)
    requires
        !w.contains(sep),
        a.len() == 0 || a.last() == sep,
        b.len() == 0 || b[0] == sep,
    ensures
        0 <= k < split(a + w + b, sep).len(),
        split(a + w + b, sep)[k] == w,
        b.len() > 0 <==> k < split(a + w + b, sep).len() - 1,
    decreases a.len(),
{
    let s = a + w + b;
    if a.len() == 0 {
        if b.len() == 0 {
            assert(s =~= w);
            split_at_each_separator(w, sep, b);
        } else {
            let r = b.skip(1);
            assert(s =~= w + seq![sep] + r);
            split_at_each_separator(w, sep, r);
            split_parts_hold_no_separator(r, sep);
        }
        0
    } else {
        lemma_first_index_range(a, sep);
        let n = first_index(a, sep);
        if n >= a.len() {
            assert(a[a.len() - 1] != sep);
        }
        let head = a.take(n);
        let rest = a.skip(n + 1);
        assert(!head.contains(sep)) by {
            assert forall|j: int| 0 <= j < head.len() implies #[trigger] head[j] != sep by {
                assert(head[j] == a[j]);
            }
        }
        assert(s =~= head + seq![sep] + (rest + w + b));
        split_at_each_separator(head, sep, rest + w + b);
        if rest.len() > 0 {
            assert(rest.last() == a.last());
        }
        1 + lemma_place_part(rest, w, b, sep)
    }
}

proof fn lemma_parts_have_places(s: Seq<char>, w: Seq<char>, sep: char)
    ensures
        split(s, sep).contains(w) ==> exists|i: int|
            0 <= i <= s.len() - w.len() && #[trigger] s.subrange(i, i + w.len()) == w && (i == 0 || s[i - 1] == sep) && (i
                + w.len() == s.len() || s[i + w.len()] == sep),
        split(s, sep).drop_last().contains(w) ==> exists|i: int|
            0 <= i < s.len() - w.len() && #[trigger] s.subrange(i, i + w.len()) == w && (i == 0 || s[i - 1] == sep) && s[i
                + w.len()] == sep,
{
    let parts = split(s, sep);
    let front = parts.drop_last();
    if parts.contains(w) {
        let k = choose|k: int| 0 <= k < parts.len() && parts[k] == w;
        let i = lemma_part_place(s, sep, k);
        assert(s.subrange(i, i + w.len()) == w);
    }
    if front.contains(w) {
        split_parts_hold_no_separator(s, sep);
        let k = choose|k: int| 0 <= k < front.len() && front[k] == w;
        assert(parts[k] == w);
        let i = lemma_part_place(s, sep, k);
        assert(s.subrange(i, i + w.len()) == w);
    }
}

proof fn lemma_places_have_parts(s: Seq<char>, w: Seq<char>, sep: char, i: int)
    requires
        !w.contains(sep),
        0 <= i <= s.len() - w.len(),
        s.subrange(i, i + w.len()) == w,
        i == 0 || s[i - 1] == sep,
        i + w.len() == s.len() || s[i + w.len()] == sep,
    ensures
        split(s, sep).contains(w),
        i + w.len() < s.len() ==> split(s, sep).drop_last().contains(w),
{
    let a = s.take(i);
    let b = s.skip(i + w.len());
    assert(s =~= a + w + b);
    if i > 0 {
        assert(a.last() == s[i - 1]);
    }
    let k = lemma_place_part(a, w, b, sep);
    let parts = split(s, sep);
    assert(parts[k] == w);
    if i + w.len() < s.len() {
        assert(parts.drop_last()[k] == w);
    }
}

/// A text without the separator is a part exactly where it stands between two separators,
/// or between one and an end.
pub proof fn parts_stand_between_separators(s: Seq<char>, w: Seq<char>, sep: char)
    requires
        !w.contains(sep),
    ensures
        split(s, sep).contains(w) <==> exists|i: int|
            0 <= i <= s.len() - w.len() && #[trigger] s.subrange(i, i + w.len()) == w && (i == 0 || s[i - 1] == sep) && (i
                + w.len() == s.len() || s[i + w.len()] == sep),
        split(s, sep).drop_last().contains(w) <==> exists|i: int|
            0 <= i < s.len() - w.len() && #[trigger] s.subrange(i, i + w.len()) == w && (i == 0 || s[i - 1] == sep) && s[i
                + w.len()] == sep,
{
    lemma_parts_have_places(s, w, sep);
    assert forall|i: int|
        0 <= i <= s.len() - w.len() && #[trigger] s.subrange(i, i + w.len()) == w && (i == 0 || s[i - 1] == sep) && (i
            + w.len() == s.len() || s[i + w.len()] == sep) implies split(s, sep).contains(w) && (i + w.len() < s.len()
        ==> split(s, sep).drop_last().contains(w)) by {
        lemma_places_have_parts(s, w, sep, i);
    }
}

/// The last part of a text is what follows its last separator.
pub proof fn last_part_follows_the_last_separator(a: Seq<char>, w: Seq<char>, sep: char)
    requires
        !w.contains(sep),
        a.len() == 0 || a.last() == sep,
    ensures
        split(a + w, sep).last() == w,
{
    let e = Seq::<char>::empty();
    assert(a + w + e =~= a + w);
    let k = lemma_place_part(a, w, e, sep);
}

/// The parts of two texts with a separator between them are those of both.
pub proof fn split_of_both(a: Seq<char>, sep: char, b: Seq<char>)
    ensures
        split(a + seq![sep] + b, sep) == split(a, sep) + split(b, sep),
    decreases a.len(),
{
    lemma_first_index_range(a, sep);
    let n = first_index(a, sep);
    if n < a.len() {
        let head = a.take(n);
        let rest = a.skip(n + 1);
        assert(!head.contains(sep)) by {
            assert forall|j: int| 0 <= j < head.len() implies #[trigger] head[j] != sep by {
                assert(head[j] == a[j]);
            }
        }
        split_of_both(rest, sep, b);
        assert(a =~= head + seq![sep] + rest);
        assert(a + seq![sep] + b =~= head + seq![sep] + (rest + seq![sep] + b));
        split_at_each_separator(head, sep, rest);
        split_at_each_separator(head, sep, rest + seq![sep] + b);
        assert(seq![head] + (split(rest, sep) + split(b, sep)) =~= (seq![head] + split(rest, sep)) + split(b, sep));
    } else {
        assert(!a.contains(sep)) by {
            assert forall|j: int| 0 <= j < a.len() implies #[trigger] a[j] != sep by {
                assert(a[j] != sep);
            }
        }
        split_at_each_separator(a, sep, b);
    }
}

} // verus!
