//! Characters, strings, decimal numbers and lines: the small pieces of
//! text handling that the compiler stages share.
use vstd::prelude::*;

verus! {

// ---------------------------------------------------------------------------
// Characters
// ---------------------------------------------------------------------------

/// `c` is one of the ASCII digits `0`..`9`.
pub open spec fn spec_is_digit(c: char) -> bool {
    '0' <= c && c <= '9'
}

/// The Unicode `White_Space` property, which `char::is_whitespace` tests.
pub open spec fn spec_is_whitespace(c: char) -> bool {
    ||| c == ' '
    ||| ('\t' <= c && c <= '\r')
    ||| c == '\u{85}'
    ||| c == '\u{a0}'
    ||| c == '\u{1680}'
    ||| ('\u{2000}' <= c && c <= '\u{200a}')
    ||| c == '\u{2028}'
    ||| c == '\u{2029}'
    ||| c == '\u{202f}'
    ||| c == '\u{205f}'
    ||| c == '\u{3000}'
}

/// A printable ASCII character other than space (`!` ..= `~`).
pub open spec fn spec_is_graphic(c: char) -> bool {
    '!' <= c && c <= '~'
}

/// Number of bytes of `c` in UTF-8.
pub open spec fn spec_utf8_len(c: char) -> int {
    if '\u{80}' > c {
        1
    } else if '\u{800}' > c {
        2
    } else if '\u{10000}' > c {
        3
    } else {
        4
    }
}

pub fn is_ascii_digit(c: char) -> (b: bool)
    ensures
        b == spec_is_digit(c),
{
    '0' <= c && c <= '9'
}

pub fn is_whitespace(c: char) -> (b: bool)
    ensures
        b == spec_is_whitespace(c),
{
    c == ' ' || ('\t' <= c && c <= '\r') || c == '\u{85}' || c == '\u{a0}' || c == '\u{1680}'
        || ('\u{2000}' <= c && c <= '\u{200a}') || c == '\u{2028}' || c == '\u{2029}' || c
        == '\u{202f}' || c == '\u{205f}' || c == '\u{3000}'
}

pub fn is_ascii_graphic(c: char) -> (b: bool)
    ensures
        b == spec_is_graphic(c),
{
    '!' <= c && c <= '~'
}

pub fn utf8_len(c: char) -> (n: usize)
    ensures
        n == spec_utf8_len(c),
        1 <= n <= 4,
{
    if '\u{80}' > c {
        1
    } else if '\u{800}' > c {
        2
    } else if '\u{10000}' > c {
        3
    } else {
        4
    }
}

// ---------------------------------------------------------------------------
// Strings
// ---------------------------------------------------------------------------

/// `String::push`, which appends `ch` to the end of the string.
#[verifier::external_body]
pub(crate) fn push_char(s: &mut String, ch: char)
    ensures
        final(s)@ == old(s)@.push(ch),
{
    s.push(ch);
}

/// A fresh `String` holding the characters of `s`.
pub fn string_of(s: &str) -> (r: String)
    ensures
        r@ == s@,
{
    String::from_str(s)
}

/// Appends `t` to `s`.
pub fn push_str(s: &mut String, t: &str)
    ensures
        final(s)@ == old(s)@ + t@,
{
    s.append(t);
}

/// The characters of `s`, in order.
pub fn chars_of(s: &str) -> (v: Vec<char>)
    ensures
        v@ == s@,
{
    let mut v: Vec<char> = Vec::new();
    for c in it: s.chars()
        invariant
            v@ == it.seq().take(it.index() as int),
            it.seq() == s@,
    {
        v.push(c);
    }
    v
}

/// Whether `s` holds exactly the characters of `lit`.
pub fn string_is(s: &String, lit: &str) -> (b: bool)
    ensures
        b == (s@ == lit@),
{
    let t = String::from_str(lit);
    s.eq(&t)
}

/// A `String` made of the characters of `v`.
pub fn string_from_chars(v: &[char]) -> (r: String)
    ensures
        r@ == v@,
{
    let mut r = String::new();
    let mut i: usize = 0;
    while i < v.len()
        invariant
            i <= v.len(),
            r@ == v@.take(i as int),
        decreases v.len() - i,
    {
        push_char(&mut r, v[i]);
        assert(v@.take(i + 1) =~= v@.take(i as int).push(v@[i as int]));
        i += 1;
    }
    assert(v@.take(v.len() as int) =~= v@);
    r
}

// ---------------------------------------------------------------------------
// Decimal numbers
// ---------------------------------------------------------------------------

/// The character of the decimal digit `d` (`0 <= d < 10`).
pub open spec fn digit_char(d: int) -> char {
    if d == 0 {
        '0'
    } else if d == 1 {
        '1'
    } else if d == 2 {
        '2'
    } else if d == 3 {
        '3'
    } else if d == 4 {
        '4'
    } else if d == 5 {
        '5'
    } else if d == 6 {
        '6'
    } else if d == 7 {
        '7'
    } else if d == 8 {
        '8'
    } else {
        '9'
    }
}

/// The value of the decimal digit `c`.
pub open spec fn digit_value(c: char) -> int {
    if c == '0' {
        0
    } else if c == '1' {
        1
    } else if c == '2' {
        2
    } else if c == '3' {
        3
    } else if c == '4' {
        4
    } else if c == '5' {
        5
    } else if c == '6' {
        6
    } else if c == '7' {
        7
    } else if c == '8' {
        8
    } else {
        9
    }
}

/// Decimal text of `n`, without leading zeros (`0` is `"0"`).
pub open spec fn nat_text(n: nat) -> Seq<char>
    decreases n,
{
    if n < 10 {
        seq![digit_char(n as int)]
    } else {
        nat_text(n / 10).push(digit_char((n % 10) as int))
    }
}

/// Decimal text of `i`, with a leading `-` when it is negative.
pub open spec fn int_text(i: int) -> Seq<char> {
    if i < 0 {
        seq!['-'] + nat_text((-i) as nat)
    } else {
        nat_text(i as nat)
    }
}

/// Every character of `s` is a decimal digit.
pub open spec fn all_digits(s: Seq<char>) -> bool {
    forall|i: int| 0 <= i < s.len() ==> spec_is_digit(#[trigger] s[i])
}

/// The number that the digits `s` spell in base ten.
pub open spec fn digits_value(s: Seq<char>) -> int
    decreases s.len(),
{
    if s.len() == 0 {
        0
    } else {
        digits_value(s.drop_last()) * 10 + digit_value(s.last())
    }
}

/// The text after an optional leading sign.
pub open spec fn unsigned_part(s: Seq<char>) -> Seq<char> {
    if s.len() > 0 && (s[0] == '+' || s[0] == '-') {
        s.drop_first()
    } else {
        s
    }
}

/// What `str::parse::<usize>` gives: an optional `+`, then one or more
/// digits whose value fits in a `usize`.
pub open spec fn spec_parse_usize(s: Seq<char>) -> Option<usize> {
    let d = if s.len() > 0 && s[0] == '+' {
        s.drop_first()
    } else {
        s
    };
    if d.len() > 0 && all_digits(d) && digits_value(d) <= usize::MAX {
        Some(digits_value(d) as usize)
    } else {
        None
    }
}

/// What `str::parse::<i64>` gives: an optional `+` or `-`, then one or more
/// digits, the signed value being in the range of an `i64`.
pub open spec fn spec_parse_i64(s: Seq<char>) -> Option<i64> {
    let d = unsigned_part(s);
    let v = if s.len() > 0 && s[0] == '-' {
        -digits_value(d)
    } else {
        digits_value(d)
    };
    if d.len() > 0 && all_digits(d) && i64::MIN <= v <= i64::MAX {
        Some(v as i64)
    } else {
        None
    }
}

pub proof fn lemma_digits_value_nonneg(s: Seq<char>)
    ensures
        digits_value(s) >= 0,
    decreases s.len(),
{
    if s.len() > 0 {
        lemma_digits_value_nonneg(s.drop_last());
    }
}

proof fn lemma_digits_value_prefix_grows(s: Seq<char>, k: int)
    requires
        0 <= k <= s.len(),
    ensures
        digits_value(s.take(k)) <= digits_value(s),
    decreases s.len() - k,
{
    if k < s.len() {
        lemma_digits_value_prefix_grows(s, k + 1);
        assert(s.take(k + 1).drop_last() =~= s.take(k));
        lemma_digits_value_nonneg(s.take(k));
    } else {
        assert(s.take(k) =~= s);
    }
}

/// The decimal text of `n` is a non-empty run of digits that spells `n`.
proof fn lemma_nat_text(n: nat)
    ensures
        nat_text(n).len() > 0,
        all_digits(nat_text(n)),
        digits_value(nat_text(n)) == n,
    decreases n,
{
    let d = (n % 10) as int;
    assert(digit_value(digit_char(d)) == d);
    if n < 10 {
        let t = nat_text(n);
        assert(t.drop_last() =~= Seq::<char>::empty());
        assert(d == n);
        assert(t.last() == digit_char(d));
        assert(digits_value(t) == digits_value(t.drop_last()) * 10 + digit_value(t.last()));
    } else {
        lemma_nat_text(n / 10);
        let t = nat_text(n);
        assert(t.drop_last() =~= nat_text(n / 10));
        assert(t.last() == digit_char(d));
        assert(n == (n / 10) * 10 + d);
        assert(digits_value(t) == digits_value(t.drop_last()) * 10 + digit_value(t.last()));
        assert forall|i: int| 0 <= i < t.len() implies spec_is_digit(#[trigger] t[i]) by {
            if i < t.len() - 1 {
                assert(t[i] == nat_text(n / 10)[i]);
            }
        }
    }
}

/// Reading back the decimal text of a `usize` gives that number.
pub proof fn lemma_parse_usize_text(n: usize)
    ensures
        spec_parse_usize(nat_text(n as nat)) == Some(n),
{
    lemma_nat_text(n as nat);
    let t = nat_text(n as nat);
    assert(spec_is_digit(t[0]));
}

/// Reading back the decimal text of an `i64`, with its sign, gives that
/// number.
pub proof fn lemma_parse_i64_text(i: i64)
    ensures
        spec_parse_i64(int_text(i as int)) == Some(i),
{
    if i < 0 {
        let m = (-i) as nat;
        lemma_nat_text(m);
        let t = int_text(i as int);
        assert(t.drop_first() =~= nat_text(m));
        assert(unsigned_part(t) == nat_text(m));
    } else {
        lemma_nat_text(i as nat);
        let t = nat_text(i as nat);
        assert(spec_is_digit(t[0]));
        assert(unsigned_part(t) == t);
    }
}

fn digit_to_char(d: u64) -> (c: char)
    requires
        d < 10,
    ensures
        c == digit_char(d as int),
{
    if d == 0 {
        '0'
    } else if d == 1 {
        '1'
    } else if d == 2 {
        '2'
    } else if d == 3 {
        '3'
    } else if d == 4 {
        '4'
    } else if d == 5 {
        '5'
    } else if d == 6 {
        '6'
    } else if d == 7 {
        '7'
    } else if d == 8 {
        '8'
    } else {
        '9'
    }
}

fn char_to_digit(c: char) -> (d: u64)
    requires
        spec_is_digit(c),
    ensures
        d == digit_value(c),
        d < 10,
{
    if c == '0' {
        0
    } else if c == '1' {
        1
    } else if c == '2' {
        2
    } else if c == '3' {
        3
    } else if c == '4' {
        4
    } else if c == '5' {
        5
    } else if c == '6' {
        6
    } else if c == '7' {
        7
    } else if c == '8' {
        8
    } else {
        9
    }
}

/// Appends the decimal text of `n` to `s`.
pub fn push_u64(s: &mut String, n: u64)
    ensures
        final(s)@ == old(s)@ + nat_text(n as nat),
    decreases n,
{
    if n >= 10 {
        push_u64(s, n / 10);
    }
    push_char(s, digit_to_char(n % 10));
}

/// Appends the decimal text of `n` to `s`.
pub fn push_usize(s: &mut String, n: usize)
    ensures
        final(s)@ == old(s)@ + nat_text(n as nat),
{
    push_u64(s, n as u64);
}

/// Appends the decimal text of `n` to `s`.
pub fn push_i64(s: &mut String, n: i64)
    ensures
        final(s)@ == old(s)@ + int_text(n as int),
{
    if n < 0 {
        push_char(s, '-');
        let m: u64 = if n == i64::MIN {
            9223372036854775808u64
        } else {
            (-n) as u64
        };
        push_u64(s, m);
        assert(final(s)@ =~= old(s)@ + int_text(n as int));
    } else {
        push_u64(s, n as u64);
    }
}

/// Decimal text of `n`.
pub fn usize_to_string(n: usize) -> (r: String)
    ensures
        r@ == nat_text(n as nat),
{
    let mut r = String::new();
    push_usize(&mut r, n);
    assert(r@ =~= nat_text(n as nat));
    r
}

/// Decimal text of `n`.
pub fn i64_to_string(n: i64) -> (r: String)
    ensures
        r@ == int_text(n as int),
{
    let mut r = String::new();
    push_i64(&mut r, n);
    assert(r@ =~= int_text(n as int));
    r
}

/// The value of the digits `d[start..]`, or `None` when one of them is not
/// a digit or the value exceeds `u64::MAX`.
fn digits_to_u64(d: &Vec<char>, start: usize) -> (r: Option<u64>)
    requires
        start <= d.len(),
    ensures
        r == (if all_digits(d@.skip(start as int)) && digits_value(d@.skip(start as int))
            <= u64::MAX {
            Some(digits_value(d@.skip(start as int)) as u64)
        } else {
            None
        }),
{
    let ghost s = d@.skip(start as int);
    let mut acc: u64 = 0;
    let mut i: usize = start;
    assert(s.take(0) =~= Seq::<char>::empty());
    while i < d.len()
        invariant
            start <= i <= d.len(),
            s == d@.skip(start as int),
            all_digits(s.take(i - start)),
            acc == digits_value(s.take(i - start)),
        decreases d.len() - i,
    {
        let c = d[i];
        assert(s[i - start] == c);
        if !is_ascii_digit(c) {
            return None;
        }
        let dv = char_to_digit(c);
        assert(s.take(i - start + 1).drop_last() =~= s.take(i - start));
        proof {
            lemma_digits_value_prefix_grows(s, i - start + 1);
        }
        if acc > (u64::MAX - dv) / 10 {
            proof {
                assert(acc * 10 + dv > u64::MAX) by (nonlinear_arith)
                    requires
                        acc > (u64::MAX - dv) / 10,
                        dv < 10,
                ;
                if all_digits(s) {
                } else {
                }
            }
            return None;
        }
        assert(acc * 10 + dv <= u64::MAX) by (nonlinear_arith)
            requires
                acc <= (u64::MAX - dv) / 10,
                dv < 10,
        ;
        acc = acc * 10 + dv;
        assert(all_digits(s.take(i - start + 1)));
        i += 1;
    }
    assert(s.take(i - start) =~= s);
    Some(acc)
}

/// `str::parse::<usize>`.
pub fn parse_usize(s: &String) -> (r: Option<usize>)
    ensures
        r == spec_parse_usize(s@),
{
    let d = chars_of(s.as_str());
    let start: usize = if d.len() > 0 && d[0] == '+' {
        1
    } else {
        0
    };
    assert(start == 1 ==> d@.skip(1) =~= d@.drop_first());
    assert(d@.skip(0) =~= d@);
    if start >= d.len() {
        return None;
    }
    proof {
        lemma_digits_value_nonneg(d@.skip(start as int));
    }
    match digits_to_u64(&d, start) {
        Some(v) => {
            if v <= usize::MAX as u64 {
                Some(v as usize)
            } else {
                None
            }
        },
        None => {
            proof {
                let t = d@.skip(start as int);
                if all_digits(t) {
                    assert(digits_value(t) > u64::MAX);
                }
            }
            None
        },
    }
}

/// `str::parse::<i64>`.
pub fn parse_i64(s: &String) -> (r: Option<i64>)
    ensures
        r == spec_parse_i64(s@),
{
    let d = chars_of(s.as_str());
    let neg = d.len() > 0 && d[0] == '-';
    let start: usize = if d.len() > 0 && (d[0] == '+' || d[0] == '-') {
        1
    } else {
        0
    };
    assert(start == 1 ==> d@.skip(1) =~= d@.drop_first());
    assert(d@.skip(0) =~= d@);
    assert(unsigned_part(s@) == d@.skip(start as int));
    if start >= d.len() {
        return None;
    }
    proof {
        lemma_digits_value_nonneg(d@.skip(start as int));
    }
    match digits_to_u64(&d, start) {
        Some(v) => {
            if neg {
                if v <= 9223372036854775808u64 {
                    if v == 9223372036854775808u64 {
                        Some(i64::MIN)
                    } else {
                        Some(-(v as i64))
                    }
                } else {
                    None
                }
            } else {
                if v <= 9223372036854775807u64 {
                    Some(v as i64)
                } else {
                    None
                }
            }
        },
        None => None,
    }
}

// ---------------------------------------------------------------------------
// Lines of text
// ---------------------------------------------------------------------------

/// The texts of a sequence of strings.
pub open spec fn names_of(s: Seq<String>) -> Seq<Seq<char>> {
    Seq::new(s.len(), |i: int| s[i]@)
}

pub proof fn lemma_names_push(v: Seq<String>, x: String)
    ensures
        names_of(v.push(x)) == names_of(v).push(x@),
{
    assert(names_of(v.push(x)) =~= names_of(v).push(x@));
}

/// Whether `v` holds a string with the characters of `x`.
pub fn contains_name(v: &Vec<String>, x: &String) -> (b: bool)
    ensures
        b == names_of(v@).contains(x@),
{
    let mut i: usize = 0;
    while i < v.len()
        invariant
            i <= v.len(),
            forall|j: int| 0 <= j < i ==> names_of(v@)[j] != x@,
        decreases v.len() - i,
    {
        if v[i].eq(x) {
            assert(names_of(v@)[i as int] == x@);
            return true;
        }
        i += 1;
    }
    false
}

/// Appends copies of the strings of `src` to `dst`.
pub fn append_names(dst: &mut Vec<String>, src: &Vec<String>)
    ensures
        names_of(final(dst)@) == names_of(old(dst)@) + names_of(src@),
{
    let mut i: usize = 0;
    while i < src.len()
        invariant
            i <= src.len(),
            names_of(dst@) == names_of(old(dst)@) + names_of(src@.take(i as int)),
        decreases src.len() - i,
    {
        let c = src[i].clone();
        proof {
            lemma_names_push(dst@, c);
        }
        dst.push(c);
        assert(names_of(src@.take(i + 1)) =~= names_of(src@.take(i as int)).push(src@[i as int]@));
        i += 1;
    }
    assert(src@.take(src.len() as int) =~= src@);
}

/// The characters `cs[from..to]` as a string.
pub fn sub_string(cs: &Vec<char>, from: usize, to: usize) -> (r: String)
    requires
        from <= to <= cs.len(),
    ensures
        r@ == cs@.subrange(from as int, to as int),
{
    let mut r = String::new();
    let mut i: usize = from;
    while i < to
        invariant
            from <= i <= to <= cs.len(),
            r@ == cs@.subrange(from as int, i as int),
        decreases to - i,
    {
        push_char(&mut r, cs[i]);
        assert(cs@.subrange(from as int, i + 1) =~= cs@.subrange(from as int, i as int).push(
            cs@[i as int],
        ));
        i += 1;
    }
    r
}

/// The parts joined with `sep` between each two of them.
pub open spec fn join(parts: Seq<Seq<char>>, sep: Seq<char>) -> Seq<char>
    decreases parts.len(),
{
    if parts.len() == 0 {
        Seq::empty()
    } else if parts.len() == 1 {
        parts[0]
    } else {
        join(parts.drop_last(), sep) + sep + parts.last()
    }
}

/// `parts.join(sep)`.
pub fn join_strings(parts: &Vec<String>, sep: &str) -> (r: String)
    ensures
        r@ == join(names_of(parts@), sep@),
{
    let mut r = String::new();
    let mut i: usize = 0;
    while i < parts.len()
        invariant
            i <= parts.len(),
            r@ == join(names_of(parts@.take(i as int)), sep@),
        decreases parts.len() - i,
    {
        let ghost before = names_of(parts@.take(i as int));
        assert(names_of(parts@.take(i + 1)).drop_last() =~= before);
        assert(names_of(parts@.take(i + 1)).last() == parts@[i as int]@);
        if i > 0 {
            push_str(&mut r, sep);
        } else {
            assert(r@ =~= Seq::<char>::empty());
        }
        push_str(&mut r, parts[i].as_str());
        i += 1;
    }
    assert(parts@.take(parts.len() as int) =~= parts@);
    r
}

/// `line` without one `\r` at its end.
pub open spec fn strip_cr(line: Seq<char>) -> Seq<char> {
    if line.len() > 0 && line.last() == '\r' {
        line.drop_last()
    } else {
        line
    }
}

/// The lines of `s[i..]`, after the lines `acc` and the start `cur` of the
/// current line, as `str::lines` cuts them: at each `\n`, dropping one
/// `\r` before it; a last line without `\n` is kept when it is not empty.
pub open spec fn lines_from(s: Seq<char>, i: int, cur: Seq<char>, acc: Seq<Seq<char>>) -> Seq<
    Seq<char>,
>
    decreases s.len() - i,
{
    if i < 0 || i >= s.len() {
        if cur.len() == 0 {
            acc
        } else {
            acc.push(cur)
        }
    } else if s[i] == '\n' {
        lines_from(s, i + 1, Seq::empty(), acc.push(strip_cr(cur)))
    } else {
        lines_from(s, i + 1, cur.push(s[i]), acc)
    }
}

/// What `str::lines` yields for `s`.
pub open spec fn lines_of(s: Seq<char>) -> Seq<Seq<char>> {
    lines_from(s, 0, Seq::empty(), Seq::empty())
}

/// The lines of `s`, as `str::lines` cuts them.
pub fn split_lines(s: &String) -> (r: Vec<String>)
    ensures
        names_of(r@) == lines_of(s@),
{
    let cs = chars_of(s.as_str());
    let mut out: Vec<String> = Vec::new();
    let mut cur: Vec<char> = Vec::new();
    let mut i: usize = 0;
    assert(names_of(out@) =~= Seq::<Seq<char>>::empty());
    while i < cs.len()
        invariant
            i <= cs.len(),
            cs@ == s@,
            lines_of(s@) == lines_from(s@, i as int, cur@, names_of(out@)),
        decreases cs.len() - i,
    {
        let c = cs[i];
        if c == '\n' {
            let ghost whole = cur@;
            let n: usize = cur.len();
            if n > 0 && cur[n - 1] == '\r' {
                cur.pop();
            }
            assert(cur@ =~= strip_cr(whole));
            let line = string_from_chars(cur.as_slice());
            proof {
                lemma_names_push(out@, line);
            }
            out.push(line);
            cur = Vec::new();
            assert(cur@ =~= Seq::<char>::empty());
        } else {
            cur.push(c);
        }
        i += 1;
    }
    if cur.len() > 0 {
        let line = string_from_chars(cur.as_slice());
        proof {
            lemma_names_push(out@, line);
        }
        out.push(line);
    }
    out
}

/// Where a scan of `s` from `i` goes depends only on `s[i..]`.
proof fn lemma_lines_skip(s: Seq<char>, i: int, cur: Seq<char>, acc: Seq<Seq<char>>)
    requires
        0 <= i <= s.len(),
    ensures
        lines_from(s, i, cur, acc) == lines_from(s.skip(i), 0, cur, acc),
    decreases s.len() - i, 1int,
{
    let t = s.skip(i);
    if i < s.len() {
        assert(t[0] == s[i]);
        assert(t.skip(1) =~= s.skip(i + 1));
        let cur2 = if s[i] == '\n' {
            Seq::empty()
        } else {
            cur.push(s[i])
        };
        let acc2 = if s[i] == '\n' {
            acc.push(strip_cr(cur))
        } else {
            acc
        };
        lemma_lines_skip(s, i + 1, cur2, acc2);
        lemma_lines_skip(t, 1, cur2, acc2);
    } else {
        assert(t.len() == 0);
    }
}

/// Scanning past a piece without a newline adds it to the current line.
proof fn lemma_lines_word(l: Seq<char>, rest: Seq<char>, cur: Seq<char>, acc: Seq<Seq<char>>)
    requires
        !l.contains('\n'),
    ensures
        lines_from(l + rest, 0, cur, acc) == lines_from(rest, 0, cur + l, acc),
    decreases l.len(),
{
    if l.len() == 0 {
        assert(l + rest =~= rest);
        assert(cur + l =~= cur);
    } else {
        let s = l + rest;
        assert(s[0] == l[0]);
        assert(l[0] != '\n') by {
            if l[0] == '\n' {
                assert(l.contains('\n'));
            }
        }
        lemma_lines_skip(s, 1, cur.push(l[0]), acc);
        assert(s.skip(1) =~= l.drop_first() + rest);
        assert(!l.drop_first().contains('\n')) by {
            if l.drop_first().contains('\n') {
                let k = choose|k: int| 0 <= k < l.drop_first().len() && l.drop_first()[k] == '\n';
                assert(l[k + 1] == '\n');
            }
        }
        lemma_lines_word(l.drop_first(), rest, cur.push(l[0]), acc);
        assert(cur.push(l[0]) + l.drop_first() =~= cur + l);
    }
}

/// Joining splits at the first part: `p0 + sep + join(rest)`.
proof fn lemma_join_front(parts: Seq<Seq<char>>, sep: Seq<char>)
    requires
        parts.len() >= 2,
    ensures
        join(parts, sep) == parts[0] + sep + join(parts.drop_first(), sep),
    decreases parts.len(),
{
    if parts.len() > 2 {
        lemma_join_front(parts.drop_last(), sep);
        assert(parts.drop_last().drop_first() =~= parts.drop_first().drop_last());
        assert(parts.drop_last()[0] == parts[0]);
        assert(parts.drop_first().last() == parts.last());
        assert(join(parts, sep) =~= parts[0] + sep + join(parts.drop_first(), sep));
    } else {
        assert(parts.drop_last().len() == 1);
        assert(parts.drop_first().len() == 1);
        assert(join(parts.drop_last(), sep) == parts[0]);
        assert(join(parts.drop_first(), sep) == parts[1]);
        assert(join(parts, sep) == parts[0] + sep + parts[1]);
    }
}

/// Joined parts start with the first part and end with the last one.
pub proof fn lemma_join_ends(parts: Seq<Seq<char>>, sep: Seq<char>)
    requires
        parts.len() > 0,
    ensures
        join(parts, sep).len() >= parts[0].len(),
        join(parts, sep).len() >= parts.last().len(),
        join(parts, sep).take(parts[0].len() as int) == parts[0],
        join(parts, sep).skip(join(parts, sep).len() - parts.last().len()) == parts.last(),
{
    let j = join(parts, sep);
    if parts.len() == 1 {
        assert(j.take(parts[0].len() as int) =~= parts[0]);
        assert(j.skip(0) =~= parts[0]);
    } else {
        lemma_join_front(parts, sep);
        let rest = join(parts.drop_first(), sep);
        assert(j == parts[0] + (sep + rest));
        assert(j.take(parts[0].len() as int) =~= parts[0]);
        let front = join(parts.drop_last(), sep) + sep;
        assert(j == front + parts.last());
        assert(j.skip(j.len() - parts.last().len()) =~= parts.last());
    }
}

/// The lines `ls` joined by newlines come back from `str::lines` as they
/// were, as long as none holds a newline or ends with a carriage return and
/// the last one is not empty.
pub proof fn lemma_lines_of_join(ls: Seq<Seq<char>>)
    requires
        forall|i: int| 0 <= i < ls.len() ==> !(#[trigger] ls[i]).contains('\n'),
        forall|i: int|
            0 <= i < ls.len() && (#[trigger] ls[i]).len() > 0 ==> ls[i].last() != '\r',
        ls.len() > 0 ==> ls.last().len() > 0,
    ensures
        lines_of(join(ls, "\n"@)) == ls,
{
    lemma_lines_join_acc(ls, Seq::empty());
    assert(Seq::<Seq<char>>::empty() + ls =~= ls);
}

proof fn lemma_lines_join_acc(ls: Seq<Seq<char>>, acc: Seq<Seq<char>>)
    requires
        forall|i: int| 0 <= i < ls.len() ==> !(#[trigger] ls[i]).contains('\n'),
        forall|i: int|
            0 <= i < ls.len() && (#[trigger] ls[i]).len() > 0 ==> ls[i].last() != '\r',
        ls.len() > 0 ==> ls.last().len() > 0,
    ensures
        lines_from(join(ls, "\n"@), 0, Seq::empty(), acc) == acc + ls,
    decreases ls.len(),
{
    reveal_strlit("\n");
    let nl = "\n"@;
    if ls.len() == 0 {
        assert(acc + ls =~= acc);
    } else if ls.len() == 1 {
        let l = ls[0];
        lemma_lines_word(l, Seq::empty(), Seq::empty(), acc);
        assert(l + Seq::<char>::empty() =~= l);
        assert(Seq::<char>::empty() + l =~= l);
        assert(acc + ls =~= acc.push(l));
    } else {
        let l = ls[0];
        let rest = join(ls.drop_first(), nl);
        lemma_join_front(ls, nl);
        assert(join(ls, nl) =~= l + (nl + rest));
        lemma_lines_word(l, nl + rest, Seq::empty(), acc);
        assert(Seq::<char>::empty() + l =~= l);
        let s2 = nl + rest;
        assert(s2[0] == '\n');
        assert(strip_cr(l) == l);
        lemma_lines_skip(s2, 1, Seq::empty(), acc.push(l));
        assert(s2.skip(1) =~= rest);
        let tail = ls.drop_first();
        assert forall|i: int| 0 <= i < tail.len() implies !(#[trigger] tail[i]).contains('\n') by {
            assert(tail[i] == ls[i + 1]);
        }
        assert forall|i: int| 0 <= i < tail.len() && (#[trigger] tail[i]).len() > 0 implies tail[i].last()
            != '\r' by {
            assert(tail[i] == ls[i + 1]);
        }
        lemma_lines_join_acc(tail, acc.push(l));
        assert(acc.push(l) + tail =~= acc + ls);
    }
}

/// Each line with `prefix` before it.
pub open spec fn indent(lines: Seq<Seq<char>>, prefix: Seq<char>) -> Seq<Seq<char>> {
    Seq::new(lines.len(), |i: int| prefix + lines[i])
}

/// Appends to `out` each line of `text`, with `prefix` before it.
pub fn push_indented(out: &mut Vec<String>, text: &String, prefix: &str)
    ensures
        names_of(final(out)@) == names_of(old(out)@) + indent(lines_of(text@), prefix@),
{
    let ls = split_lines(text);
    let mut i: usize = 0;
    while i < ls.len()
        invariant
            i <= ls.len(),
            names_of(ls@) == lines_of(text@),
            names_of(out@) == names_of(old(out)@) + indent(names_of(ls@).take(i as int), prefix@),
        decreases ls.len() - i,
    {
        let mut l = string_of(prefix);
        push_str(&mut l, ls[i].as_str());
        proof {
            lemma_names_push(out@, l);
        }
        out.push(l);
        assert(indent(names_of(ls@).take(i + 1), prefix@) =~= indent(
            names_of(ls@).take(i as int),
            prefix@,
        ).push(prefix@ + ls@[i as int]@));
        i += 1;
    }
    assert(names_of(ls@).take(ls.len() as int) =~= names_of(ls@));
}

} // verus!
