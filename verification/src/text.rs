//! Text helpers: copying, comparing, decimal rendering and parsing, trimming.

use vstd::prelude::*;
use vstd::string::*;

verus! {

/// `String::push` appends one character.
pub assume_specification[ String::push ](s: &mut String, c: char)
    ensures
        final(s)@ == old(s)@.push(c),
;

/// The texts of a list.
pub open spec fn texts(v: Seq<String>) -> Seq<Seq<char>> {
    v.map_values(|s: String| s@)
}

/// The characters of `s`, in order.
pub fn to_chars(s: &str) -> (r: Vec<char>)
    ensures
        r@ == s@,
{
    let mut out: Vec<char> = Vec::new();
    for c in it: s.chars()
        invariant
            it.seq() == s@,
            out@ == s@.take(it.index()),
    {
        out.push(c);
    }
    out
}

/// The text made of `cs`.
pub fn from_chars(cs: &Vec<char>) -> (r: String)
    ensures
        r@ == cs@,
{
    let mut out = String::new();
    let mut i: usize = 0;
    while i < cs.len()
        invariant
            i <= cs.len(),
            out@ == cs@.take(i as int),
        decreases cs.len() - i,
    {
        out.push(cs[i]);
        i += 1;
    }
    out
}

/// Whether two texts are the same.
pub fn same_text(a: &str, b: &str) -> (r: bool)
    ensures
        r == (a@ == b@),
{
    a.to_owned() == b.to_owned()
}

pub open spec fn digit(d: nat) -> char {
    ((0x30 + d) as u32) as char
}

/// Decimal digits of `n`, most significant first.
pub open spec fn dec(n: nat) -> Seq<char>
    decreases n,
{
    if n < 10 {
        seq![digit(n)]
    } else {
        dec(n / 10).push(digit(n % 10))
    }
}

fn digit_char(d: u8) -> (c: char)
    requires
        d < 10,
    ensures
        c == digit(d as nat),
{
    (0x30 + d) as char
}

/// `n` in decimal.
pub fn decimal(n: u128) -> (r: String)
    ensures
        r@ == dec(n as nat),
    decreases n,
{
    let last = digit_char((n % 10) as u8);
    if n < 10 {
        let mut s = String::new();
        s.push(last);
        s
    } else {
        let mut s = decimal(n / 10);
        s.push(last);
        s
    }
}

/// Decimal digits of `n`, after a sign where it is negative.
pub open spec fn signed_dec(n: int) -> Seq<char> {
    if n < 0 {
        seq!['-'] + dec((-n) as nat)
    } else {
        dec(n as nat)
    }
}

/// `n` in decimal.
pub fn signed_decimal(n: i32) -> (r: String)
    ensures
        r@ == signed_dec(n as int),
{
    if n < 0 {
        let mut s = String::new();
        s.push('-');
        s.append(decimal((0 - n as i64) as u128).as_str());
        assert(s@ =~= signed_dec(n as int));
        s
    } else {
        decimal(n as u128)
    }
}

/// Characters with the Unicode `White_Space` property.
pub open spec fn is_space(c: char) -> bool {
    let u = c as u32;
    ||| 0x09 <= u <= 0x0d
    ||| u == 0x20
    ||| u == 0x85
    ||| u == 0xa0
    ||| u == 0x1680
    ||| 0x2000 <= u <= 0x200a
    ||| u == 0x2028
    ||| u == 0x2029
    ||| u == 0x202f
    ||| u == 0x205f
    ||| u == 0x3000
}

fn space(c: char) -> (r: bool)
    ensures
        r == is_space(c),
{
    let u: u32 = c as u32;
    (0x09 <= u && u <= 0x0d) || u == 0x20 || u == 0x85 || u == 0xa0 || u == 0x1680 || (0x2000 <= u
        && u <= 0x200a) || u == 0x2028 || u == 0x2029 || u == 0x202f || u == 0x205f || u == 0x3000
}

/// `s` without its trailing whitespace.
pub open spec fn trimmed_end(s: Seq<char>) -> Seq<char>
    decreases s.len(),
{
    if s.len() > 0 && is_space(s.last()) {
        trimmed_end(s.drop_last())
    } else {
        s
    }
}

/// `s` without its leading whitespace.
pub open spec fn trimmed_start(s: Seq<char>) -> Seq<char>
    decreases s.len(),
{
    if s.len() > 0 && is_space(s[0]) {
        trimmed_start(s.drop_first())
    } else {
        s
    }
}

/// `s` without the whitespace at either end.
pub open spec fn trimmed(s: Seq<char>) -> Seq<char> {
    trimmed_end(trimmed_start(s))
}

/// Drops trailing whitespace in place.
pub fn trim_end(cs: &mut Vec<char>)
    ensures
        final(cs)@ == trimmed_end(old(cs)@),
{
    let ghost start = cs@;
    let mut n: usize = cs.len();
    assert(start.take(n as int) == start);
    while n > 0 && space(cs[n - 1])
        invariant
            n <= cs@.len(),
            cs@ == start,
            trimmed_end(start) == trimmed_end(start.take(n as int)),
        decreases n,
    {
        assert(start.take(n as int).drop_last() == start.take(n - 1));
        n -= 1;
    }
    cs.truncate(n);
}

/// The characters of `s` without the whitespace at either end.
pub fn trim(s: &str) -> (r: Vec<char>)
    ensures
        r@ == trimmed(s@),
{
    let cs = to_chars(s);
    let mut from: usize = 0;
    assert(cs@.skip(0) == cs@);
    while from < cs.len() && space(cs[from])
        invariant
            from <= cs.len(),
            trimmed_start(cs@) == trimmed_start(cs@.skip(from as int)),
        decreases cs.len() - from,
    {
        assert(cs@.skip(from as int).drop_first() == cs@.skip(from + 1));
        from += 1;
    }
    let mut out: Vec<char> = Vec::new();
    let mut i: usize = from;
    while i < cs.len()
        invariant
            from <= i <= cs.len(),
            out@ == cs@.subrange(from as int, i as int),
        decreases cs.len() - i,
    {
        out.push(cs[i]);
        i += 1;
    }
    assert(out@ == cs@.skip(from as int));
    trim_end(&mut out);
    out
}

pub open spec fn is_digit(c: char) -> bool {
    '0' <= c && c <= '9'
}

/// Whether `s` is a non-empty run of ASCII digits.
pub open spec fn is_number(s: Seq<char>) -> bool {
    s.len() > 0 && forall|i: int| 0 <= i < s.len() ==> is_digit(#[trigger] s[i])
}

/// The value of a run of digits, most significant first.
pub open spec fn number(s: Seq<char>) -> nat
    decreases s.len(),
{
    if s.len() == 0 {
        0
    } else {
        10 * number(s.drop_last()) + ((s.last() as u32 - '0' as u32) as nat)
    }
}

/// The integer that `s` denotes: digits, after at most one sign.
pub open spec fn signed_value(s: Seq<char>) -> Option<int> {
    if s.len() > 0 && s[0] == '-' {
        if is_number(s.skip(1)) {
            Some(-(number(s.skip(1)) as int))
        } else {
            None
        }
    } else {
        match unsigned_value(s) {
            Some(n) => Some(n as int),
            None => None,
        }
    }
}

/// The natural number that `s` denotes: digits, after at most one `+`.
pub open spec fn unsigned_value(s: Seq<char>) -> Option<nat> {
    let body = if s.len() > 0 && s[0] == '+' {
        s.skip(1)
    } else {
        s
    };
    if is_number(body) {
        Some(number(body))
    } else {
        None
    }
}

proof fn number_grows(s: Seq<char>, k: int)
    requires
        is_number(s),
        0 <= k <= s.len(),
    ensures
        number(s.take(k)) <= number(s),
    decreases s.len() - k,
{
    if k < s.len() {
        number_grows(s, k + 1);
        assert(s.take(k + 1).drop_last() == s.take(k));
        assert(is_digit(s[k]));
    } else {
        assert(s.take(k) == s);
    }
}

/// The value of the digits from `from` on, when they are a number of at most `limit`.
fn parse_digits(cs: &Vec<char>, from: usize, limit: u64) -> (r: Option<u64>)
    requires
        from <= cs.len(),
    ensures
        r is Some <==> is_number(cs@.skip(from as int)) && number(cs@.skip(from as int)) <= limit,
        r matches Some(n) ==> n == number(cs@.skip(from as int)),
{
    let ghost body = cs@.skip(from as int);
    if from == cs.len() {
        return None;
    }
    let mut acc: u64 = 0;
    let mut i: usize = from;
    while i < cs.len()
        invariant
            from <= i <= cs.len(),
            body == cs@.skip(from as int),
            forall|j: int| 0 <= j < i - from ==> is_digit(#[trigger] body[j]),
            acc == number(body.take(i - from)),
            acc <= limit,
        decreases cs.len() - i,
    {
        let c = cs[i];
        assert(body[i - from] == c);
        if !('0' <= c && c <= '9') {
            return None;
        }
        let d: u32 = c as u32 - '0' as u32;
        let next: u128 = acc as u128 * 10 + d as u128;
        assert(body.take(i - from + 1).drop_last() == body.take(i - from));
        assert(next == number(body.take(i - from + 1)));
        if next > limit as u128 {
            proof {
                if is_number(body) {
                    number_grows(body, i - from + 1);
                }
            }
            return None;
        }
        acc = next as u64;
        i += 1;
    }
    assert(body.take(i - from) == body);
    Some(acc)
}

/// Reads a signed 32-bit integer.
pub fn parse_i32(cs: &Vec<char>) -> (r: Option<i32>)
    ensures
        r == (match signed_value(cs@) {
            Some(v) if i32::MIN <= v <= i32::MAX => Some(v as i32),
            _ => None,
        }),
{
    assert(cs@.skip(0) == cs@);
    if cs.len() > 0 && cs[0] == '-' {
        match parse_digits(cs, 1, 0x8000_0000) {
            Some(n) => Some((0 - n as i64) as i32),
            None => None,
        }
    } else {
        let from: usize = if cs.len() > 0 && cs[0] == '+' { 1 } else { 0 };
        match parse_digits(cs, from, 0x7fff_ffff) {
            Some(n) => Some(n as i32),
            None => None,
        }
    }
}

/// Reads an unsigned number of at most `limit`.
pub fn parse_unsigned(cs: &Vec<char>, limit: u64) -> (r: Option<u64>)
    ensures
        r == (match unsigned_value(cs@) {
            Some(n) if n <= limit => Some(n as u64),
            _ => None,
        }),
{
    assert(cs@.skip(0) == cs@);
    let from: usize = if cs.len() > 0 && cs[0] == '+' { 1 } else { 0 };
    parse_digits(cs, from, limit)
}

proof fn decimal_reads_back(n: nat)
    ensures
        is_number(dec(n)),
        number(dec(n)) == n,
    decreases n,
{
    if n < 10 {
        assert(dec(n).drop_last() =~= Seq::<char>::empty());
        assert(dec(n).last() == digit(n));
        assert(number(Seq::<char>::empty()) == 0);
    } else {
        decimal_reads_back(n / 10);
        assert(dec(n).last() == digit(n % 10));
        let front = dec(n / 10);
        assert(dec(n).drop_last() =~= front);
        assert forall|i: int| 0 <= i < dec(n).len() implies is_digit(#[trigger] dec(n)[i]) by {
            if i < front.len() {
                assert(dec(n)[i] == front[i]);
            }
        }
    }
}

pub(crate) proof fn decimal_is_digits(n: nat, i: int)
    requires
        0 <= i < dec(n).len(),
    ensures
        0x30 <= dec(n)[i] as u32 <= 0x39,
    decreases n,
{
    if n >= 10 && i < dec(n / 10).len() {
        decimal_is_digits(n / 10, i);
    }
}

/// A number written in decimal is read back as itself.
pub proof fn decimal_is_read_back(n: nat)
    ensures
        unsigned_value(dec(n)) == Some(n),
        signed_value(dec(n)) == Some(n as int),
{
    decimal_reads_back(n);
    assert(is_digit(dec(n)[0]));
}

/// Digits have no whitespace to trim; a newline after them has.
pub proof fn decimal_line_trims(n: nat)
    ensures
        trimmed(dec(n).push('\n')) == dec(n),
{
    decimal_reads_back(n);
    let line = dec(n).push('\n');
    assert(is_digit(dec(n)[0]));
    assert(line[0] == dec(n)[0]);
    assert(trimmed_start(line) == line);
    assert(line.drop_last() =~= dec(n));
    assert(is_digit(dec(n)[dec(n).len() - 1]));
    reveal_with_fuel(trimmed_end, 3);
}

/// Negative numbers are read back too, and a leading plus changes nothing.
pub proof fn signed_decimal_is_read_back(n: int, m: nat)
    ensures
        signed_value(signed_dec(n)) == Some(n),
        signed_value(seq!['+'] + dec(m)) == Some(m as int),
        unsigned_value(seq!['+'] + dec(m)) == Some(m),
{
    decimal_is_read_back(m);
    assert((seq!['+'] + dec(m)).skip(1) =~= dec(m));
    decimal_reads_back(m);
    if n < 0 {
        let d = dec((-n) as nat);
        decimal_reads_back((-n) as nat);
        assert((seq!['-'] + d).skip(1) =~= d);
    } else {
        decimal_is_read_back(n as nat);
    }
}

/// What holds anything but digits, a sign aside, is no number, and neither is nothing.
pub proof fn only_digits_are_numbers(s: Seq<char>, i: int)
    requires
        0 < i < s.len(),
        !('0' <= s[i] && s[i] <= '9'),
    ensures
        unsigned_value(s) is None,
        signed_value(s) is None,
        unsigned_value(Seq::empty()) is None,
        signed_value(Seq::empty()) is None,
{
    if is_number(s) {
        assert(is_digit(s[i]));
    }
    if is_number(s.skip(1)) {
        assert(is_digit(s.skip(1)[i - 1]));
    }
}

/// Trimming takes whitespace off the ends and nothing else.
pub proof fn trimming_leaves_the_text(before: char, s: Seq<char>, after: char)
    requires
        s.len() > 0,
        !is_space(s[0]),
        !is_space(s.last()),
    ensures
        trimmed(s) == s,
        is_space(before) ==> trimmed(seq![before] + s) == s,
        is_space(after) ==> trimmed(s.push(after)) == s,
{
    let a = seq![before] + s;
    assert(a.drop_first() =~= s);
    assert(trimmed_start(s) == s);
    let b = s.push(after);
    assert(b[0] == s[0]);
    assert(b.drop_last() =~= s);
    assert(trimmed_start(b) == b);
    assert(trimmed_end(s) == s);
}

/// Blanks, tabs and line ends are whitespace; letters, digits and signs are not.
pub proof fn whitespace_is_the_usual()
    ensures
        is_space(' '),
        is_space('\t'),
        is_space('\n'),
        is_space('\r'),
        is_space('\u{85}'),
        is_space('\u{a0}'),
        is_space('\u{3000}'),
        forall|c: char| '\u{2000}' <= c && c <= '\u{200a}' ==> #[trigger] is_space(c),
        !is_space('\u{200b}'),
        !is_space('\u{feff}'),
        forall|c: char| '!' <= c && c <= '~' ==> !#[trigger] is_space(c),
{
}

/// A number that was written is read as itself, up to the limit.
pub proof fn written_number_is_read(
    n: u64,
    written: String,
    cs: Vec<char>,
    limit: u64,
    r: Option<u64>,
    i: i32,
    signed: String,
    ds: Vec<char>,
    s: Option<i32>,
)
    requires
        call_ensures(decimal, (n as u128,), written),
        call_ensures(parse_unsigned, (&cs, limit), r),
        cs@ == written@,
        call_ensures(signed_decimal, (i,), signed),
        call_ensures(parse_i32, (&ds,), s),
        ds@ == signed@,
    ensures
        n <= limit ==> r == Some(n),
        n > limit ==> r is None,
        s == Some(i),
{
    decimal_is_read_back(n as nat);
    signed_decimal_is_read_back(i as int, 0);
}

/// Trimming takes whitespace off both ends of a text.
pub proof fn trimming_takes_whitespace_off(
    a: Seq<char>,
    s: Seq<char>,
    b: Seq<char>,
    text: &str,
    r: Vec<char>,
)
    requires
        call_ensures(trim, (text,), r),
        text@ == a + s + b,
        forall|i: int| 0 <= i < a.len() ==> is_space(#[trigger] a[i]),
        forall|i: int| 0 <= i < b.len() ==> is_space(#[trigger] b[i]),
        s.len() > 0,
        !is_space(s[0]),
        !is_space(s.last()),
    ensures
        r@ == s,
{
    leading_goes(a, s + b);
    assert(a + s + b =~= a + (s + b));
    assert((s + b)[0] == s[0]);
    assert(trimmed_start(s + b) == s + b);
    trailing_goes(s, b);
}

proof fn leading_goes(a: Seq<char>, s: Seq<char>)
    requires
        forall|i: int| 0 <= i < a.len() ==> is_space(#[trigger] a[i]),
    ensures
        trimmed_start(a + s) == trimmed_start(s),
    decreases a.len(),
{
    if a.len() == 0 {
        assert(a + s =~= s);
    } else {
        assert((a + s)[0] == a[0]);
        assert((a + s).drop_first() =~= a.drop_first() + s);
        leading_goes(a.drop_first(), s);
    }
}

proof fn trailing_goes(s: Seq<char>, b: Seq<char>)
    requires
        forall|i: int| 0 <= i < b.len() ==> is_space(#[trigger] b[i]),
        s.len() > 0,
        !is_space(s.last()),
    ensures
        trimmed_end(s + b) == s,
    decreases b.len(),
{
    if b.len() == 0 {
        assert(s + b =~= s);
    } else {
        assert((s + b).last() == b.last());
        assert((s + b).drop_last() =~= s + b.drop_last());
        trailing_goes(s, b.drop_last());
    }
}

/// Trimming the end takes whitespace off there and nothing else.
pub proof fn end_is_trimmed(cs: &mut Vec<char>, s: Seq<char>, b: Seq<char>)
    requires
        call_ensures(trim_end, (cs,), ()),
        forall|i: int| 0 <= i < b.len() ==> is_space(#[trigger] b[i]),
        s.len() > 0,
        !is_space(s.last()),
    ensures
        old(cs)@ == s + b ==> final(cs)@ == s,
{
    trailing_goes(s, b);
}

} // verus!
