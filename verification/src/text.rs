use vstd::prelude::*;
use vstd::std_specs::iter::IteratorSpec;
use crate::konan::printer::element::{char_is_whitespace, is_whitespace};

verus! {

broadcast use vstd::string::group_string_axioms;

/// `String::push`: appends one character to the string.
#[verifier::external_body]
pub(crate) fn push_char(s: &mut String, c: char)
    ensures
        final(s)@ == old(s)@.push(c),
{
    s.push(c)
}

/// Appends the characters of `t` to `s`.
pub fn push_str(s: &mut String, t: &str)
    ensures
        final(s)@ == old(s)@ + t@,
{
    let ghost start = s@;
    let mut iter = t.chars();
    let ghost mut i: int = 0;
    loop
        invariant
            0 <= i <= t@.len(),
            iter.remaining() == t@.skip(i),
            s@ == start + t@.take(i),
            iter.obeys_prophetic_iter_laws(),
        ensures
            s@ == start + t@,
        decreases t@.len() - i,
    {
        match iter.next() {
            Some(c) => {
                push_char(s, c);
                proof {
                    assert(t@.skip(i)[0] == t@[i]);
                    assert(t@.take(i + 1) =~= t@.take(i).push(t@[i]));
                    i = i + 1;
                }
            },
            None => {
                proof {
                    assert(t@.take(i) =~= t@) by {
                        if i < t@.len() {
                            assert(t@.skip(i).len() > 0);
                        }
                    }
                }
                break;
            },
        }
    }
}

/// The decimal digit character for `d < 10`.
pub open spec fn digit_char(d: nat) -> char {
    (48 + d) as char
}

/// The decimal notation of `n`, without leading zeros.
pub open spec fn decimal(n: nat) -> Seq<char>
    decreases n,
{
    if n < 10 {
        seq![digit_char(n)]
    } else {
        decimal(n / 10).push(digit_char(n % 10))
    }
}

/// Appends the decimal notation of `n` to `s` (what `n.to_string()` gives).
pub fn push_decimal(s: &mut String, n: u64)
    ensures
        final(s)@ == old(s)@ + decimal(n as nat),
    decreases n,
{
    if n >= 10 {
        push_decimal(s, n / 10);
    }
    let d = (n % 10) as u8;
    push_char(s, (48u8 + d) as char);
    proof {
        assert(((48u8 + d) as char) == digit_char((n % 10) as nat));
        if n >= 10 {
            assert(old(s)@ + decimal(n as nat) =~= old(s)@ + decimal((n / 10) as nat) + seq![
                digit_char((n % 10) as nat),
            ]);
        }
    }
}

/// `n.to_string()`.
pub fn u64_to_string(n: u64) -> (r: String)
    ensures
        r@ == decimal(n as nat),
{
    let mut s = String::new();
    push_decimal(&mut s, n);
    s
}

/// The decimal notation of a `u64` has at most 20 digits.
pub proof fn lemma_decimal_len(n: nat)
    requires
        n <= u64::MAX,
    ensures
        decimal(n).len() <= 20,
{
    reveal_with_fuel(ten_pow, 21);
    assert(ten_pow(20) == 100000000000000000000nat);
    lemma_decimal_len_below(n, 20);
}

pub open spec fn ten_pow(k: nat) -> nat
    decreases k,
{
    if k == 0 {
        1
    } else {
        10 * ten_pow((k - 1) as nat)
    }
}

/// A number below `10^k` (with `k >= 1`) has at most `k` digits.
pub proof fn lemma_decimal_len_below(n: nat, k: nat)
    requires
        k >= 1,
        n < ten_pow(k),
    ensures
        decimal(n).len() <= k,
    decreases k,
{
    if n >= 10 {
        if k == 1 {
            assert(ten_pow(1) == 10 * ten_pow(0));
        } else {
            assert(ten_pow(k) == 10 * ten_pow((k - 1) as nat));
            assert(n / 10 < ten_pow((k - 1) as nat));
            lemma_decimal_len_below(n / 10, (k - 1) as nat);
        }
    }
}

/// The characters of each string.
pub open spec fn strings_view(v: Seq<String>) -> Seq<Seq<char>> {
    v.map_values(|c: String| c@)
}

/// `<str as PartialEq>::eq`: whether two strings hold the same characters.
#[verifier::external_body]
pub(crate) fn str_eq(a: &str, b: &str) -> (r: bool)
    ensures
        r == (a@ == b@),
{
    a == b
}

/// Bytes that the UTF-8 encoding of `c` takes.
pub open spec fn utf8_width(c: char) -> nat {
    let v = c as u32;
    if v < 0x80 {
        1
    } else if v < 0x800 {
        2
    } else if v < 0x10000 {
        3
    } else {
        4
    }
}

/// Bytes that the UTF-8 encoding of `s` takes.
pub open spec fn utf8_len(s: Seq<char>) -> nat
    decreases s.len(),
{
    if s.len() == 0 {
        0
    } else {
        utf8_width(s[0]) + utf8_len(s.drop_first())
    }
}

/// `char::len_utf8`.
pub fn char_utf8_width(c: char) -> (w: usize)
    ensures
        w == utf8_width(c),
{
    let v = c as u32;
    if v < 0x80 {
        1
    } else if v < 0x800 {
        2
    } else if v < 0x10000 {
        3
    } else {
        4
    }
}

/// The byte length of a string is the sum of the widths of its characters.
pub proof fn lemma_utf8_len(s: Seq<char>)
    ensures
        vstd::utf8::encode_utf8(s).len() == utf8_len(s),
    decreases s.len(),
{
    if s.len() > 0 {
        lemma_utf8_len(s.drop_first());
        let v = s[0] as u32;
        vstd::utf8::char_is_scalar(s[0]);
        assert(vstd::utf8::encode_scalar(v).len() == utf8_width(s[0]));
    }
}

pub proof fn lemma_utf8_len_push(s: Seq<char>, c: char)
    ensures
        utf8_len(s.push(c)) == utf8_len(s) + utf8_width(c),
    decreases s.len(),
{
    if s.len() == 0 {
        assert(s.push(c).drop_first() =~= Seq::<char>::empty());
        assert(utf8_len(Seq::<char>::empty()) == 0);
        assert(s.push(c)[0] == c);
    } else {
        lemma_utf8_len_push(s.drop_first(), c);
        assert(s.push(c)[0] == s[0]);
        assert(s.push(c).drop_first() =~= s.drop_first().push(c));
    }
}

/// `s` without its leading white space.
pub open spec fn trim_front(s: Seq<char>) -> Seq<char>
    decreases s.len(),
{
    if s.len() > 0 && is_whitespace(s[0]) {
        trim_front(s.drop_first())
    } else {
        s
    }
}

/// `s` without its trailing white space.
pub open spec fn trim_back(s: Seq<char>) -> Seq<char>
    decreases s.len(),
{
    if s.len() > 0 && is_whitespace(s.last()) {
        trim_back(s.drop_last())
    } else {
        s
    }
}

/// `str::trim`: `s` without leading and trailing white space.
pub open spec fn trimmed(s: Seq<char>) -> Seq<char> {
    trim_back(trim_front(s))
}

proof fn lemma_trim_front_starts(s: Seq<char>)
    ensures
        trim_front(s).len() == 0 || !is_whitespace(trim_front(s)[0]),
    decreases s.len(),
{
    if s.len() > 0 && is_whitespace(s[0]) {
        lemma_trim_front_starts(s.drop_first());
    }
}

proof fn lemma_trim_back_prefix(s: Seq<char>)
    ensures
        trim_back(s).len() <= s.len(),
        trim_back(s) == s.take(trim_back(s).len() as int),
        trim_back(s).len() == 0 || !is_whitespace(trim_back(s).last()),
    decreases s.len(),
{
    if s.len() > 0 && is_whitespace(s.last()) {
        lemma_trim_back_prefix(s.drop_last());
        assert(s.drop_last().take(trim_back(s).len() as int) =~= s.take(trim_back(s).len() as int));
    } else {
        assert(s.take(s.len() as int) =~= s);
    }
}

/// Trimming a trimmed text changes nothing.
pub proof fn lemma_trimmed_idempotent(s: Seq<char>)
    ensures
        trimmed(trimmed(s)) == trimmed(s),
{
    let v = trim_front(s);
    let u = trim_back(v);
    lemma_trim_front_starts(s);
    lemma_trim_back_prefix(v);
    if u.len() > 0 {
        assert(u[0] == v[0]);
    }
    assert(trim_front(u) == u);
    assert(trim_back(u) == u);
}

proof fn lemma_trim_front(s: Seq<char>, a: int)
    requires
        0 <= a <= s.len(),
        forall|k: int| 0 <= k < a ==> is_whitespace(#[trigger] s[k]),
        a == s.len() || !is_whitespace(s[a]),
    ensures
        trim_front(s) == s.skip(a),
    decreases a,
{
    if a == 0 {
        assert(s.skip(0) =~= s);
    } else {
        assert(is_whitespace(s[0]));
        lemma_trim_front(s.drop_first(), a - 1);
        assert(s.drop_first().skip(a - 1) =~= s.skip(a));
    }
}

proof fn lemma_trim_back(s: Seq<char>, b: int)
    requires
        0 <= b <= s.len(),
        forall|k: int| b <= k < s.len() ==> is_whitespace(#[trigger] s[k]),
        b == 0 || !is_whitespace(s[b - 1]),
    ensures
        trim_back(s) == s.take(b),
    decreases s.len() - b,
{
    if b == s.len() {
        assert(s.take(b) =~= s);
    } else {
        assert(is_whitespace(s.last()));
        lemma_trim_back(s.drop_last(), b);
        assert(s.drop_last().take(b) =~= s.take(b));
    }
}

/// `str::trim`, as an owned string.
pub fn trim(s: &str) -> (r: String)
    ensures
        r@ == trimmed(s@),
{
    let n = s.unicode_len();
    let ghost t = s@;
    let mut a: usize = 0;
    while a < n && char_is_whitespace(s.get_char(a))
        invariant
            n == t.len(),
            t == s@,
            a <= n,
            forall|k: int| 0 <= k < a ==> is_whitespace(#[trigger] t[k]),
        decreases n - a,
    {
        a = a + 1;
    }
    proof {
        lemma_trim_front(t, a as int);
    }
    let mut b: usize = n;
    while b > a && char_is_whitespace(s.get_char(b - 1))
        invariant
            n == t.len(),
            t == s@,
            a <= b <= n,
            forall|k: int| b <= k < n ==> is_whitespace(#[trigger] t[k]),
        decreases b,
    {
        b = b - 1;
    }
    proof {
        let f = t.skip(a as int);
        assert forall|k: int| (b - a) <= k < f.len() implies is_whitespace(#[trigger] f[k]) by {
            assert(f[k] == t[k + a]);
        }
        if b > a {
            assert(f[b - a - 1] == t[b - 1]);
        }
        lemma_trim_back(f, b - a);
        assert(f.take(b - a) =~= t.subrange(a as int, b as int));
    }
    let mut r = String::new();
    let mut i: usize = a;
    while i < b
        invariant
            t == s@,
            a <= i <= b <= n,
            n == t.len(),
            r@ == t.subrange(a as int, i as int),
        decreases b - i,
    {
        push_char(&mut r, s.get_char(i));
        i = i + 1;
        assert(r@ =~= t.subrange(a as int, i as int));
    }
    r
}

/// ASCII lowercase of one character (`char::to_ascii_lowercase`).
pub open spec fn ascii_lower(c: char) -> char {
    if 65 <= c as u32 <= 90 {
        ((c as u32) + 32) as char
    } else {
        c
    }
}

/// `s` with its ASCII letters in lower case.
pub open spec fn ascii_lowercased(s: Seq<char>) -> Seq<char> {
    s.map_values(|c: char| ascii_lower(c))
}

/// ASCII uppercase of one character (`char::to_ascii_uppercase`).
pub open spec fn ascii_upper(c: char) -> char {
    if 97 <= c as u32 <= 122 {
        ((c as u32) - 32) as char
    } else {
        c
    }
}

/// `s` with its ASCII letters in upper case.
pub open spec fn ascii_uppercased(s: Seq<char>) -> Seq<char> {
    s.map_values(|c: char| ascii_upper(c))
}

/// `str::to_ascii_uppercase`, as an owned string.
pub fn to_ascii_uppercase(s: &str) -> (r: String)
    ensures
        r@ == ascii_uppercased(s@),
{
    let mut r = String::new();
    let mut iter = s.chars();
    let ghost t = s@;
    let ghost mut i: int = 0;
    loop
        invariant
            0 <= i <= t.len(),
            t == s@,
            iter.remaining() == t.skip(i),
            iter.obeys_prophetic_iter_laws(),
            r@ == t.take(i).map_values(|c: char| ascii_upper(c)),
        ensures
            r@ == t.map_values(|c: char| ascii_upper(c)),
        decreases t.len() - i,
    {
        match iter.next() {
            Some(c) => {
                let v = c as u32;
                let u = if 97 <= v && v <= 122 {
                    ((v - 32) as u8) as char
                } else {
                    c
                };
                push_char(&mut r, u);
                proof {
                    assert(t.skip(i)[0] == t[i]);
                    assert(u == ascii_upper(t[i]));
                    assert(r@ =~= t.take(i + 1).map_values(|c: char| ascii_upper(c)));
                    i = i + 1;
                }
            },
            None => {
                proof {
                    assert(t.take(i) =~= t) by {
                        if i < t.len() {
                            assert(t.skip(i).len() > 0);
                        }
                    }
                }
                break;
            },
        }
    }
    r
}

/// What `str::to_uppercase` gives: the full Unicode uppercase mapping.
pub uninterp spec fn unicode_uppercase(s: Seq<char>) -> Seq<char>;

/// `str::to_uppercase`: maps every character to its Unicode uppercase form
/// (which may be several characters long); the mapping itself is named, not stated.
#[verifier::external_body]
pub(crate) fn to_uppercase(s: &str) -> (r: String)
    ensures
        r@ == unicode_uppercase(s@),
{
    s.to_uppercase()
}

/// The characters of `s` from index `a` up to, not including, `b`, as an owned string.
pub fn slice_chars(s: &str, a: usize, b: usize) -> (r: String)
    requires
        a <= b <= s@.len(),
    ensures
        r@ == s@.subrange(a as int, b as int),
{
    let mut r = String::new();
    let mut i: usize = a;
    while i < b
        invariant
            a <= i <= b <= s@.len(),
            r@ == s@.subrange(a as int, i as int),
        decreases b - i,
    {
        push_char(&mut r, s.get_char(i));
        i = i + 1;
        assert(r@ =~= s@.subrange(a as int, i as int));
    }
    r
}

/// Why text is not an unsigned integer, as `std::num::IntErrorKind` tells it.
#[derive(Debug, Clone, Copy, PartialEq, Eq, Structural)]
pub enum IntErrorKind {
    Empty,
    InvalidDigit,
    PosOverflow,
}

impl IntErrorKind {
    /// The sentence std prints for this kind of error.
    pub fn message(&self) -> (r: String)
        ensures
            r@ == int_error_message(*self),
    {
        match self {
            IntErrorKind::Empty => "cannot parse integer from empty string".to_string(),
            IntErrorKind::InvalidDigit => "invalid digit found in string".to_string(),
            IntErrorKind::PosOverflow => "number too large to fit in target type".to_string(),
        }
    }
}

pub open spec fn int_error_message(k: IntErrorKind) -> Seq<char> {
    match k {
        IntErrorKind::Empty => "cannot parse integer from empty string"@,
        IntErrorKind::InvalidDigit => "invalid digit found in string"@,
        IntErrorKind::PosOverflow => "number too large to fit in target type"@,
    }
}

pub open spec fn is_digit(c: char) -> bool {
    '0' <= c <= '9'
}

pub open spec fn digit_value(c: char) -> nat {
    (c as u32 - '0' as u32) as nat
}

/// Reads decimal digits left to right onto `acc`, stopping at the first
/// character that is not a digit or at the first step past `u64::MAX`.
pub open spec fn scan_u64(d: Seq<char>, acc: nat) -> Result<u64, IntErrorKind>
    decreases d.len(),
{
    if d.len() == 0 {
        Ok(acc as u64)
    } else if !is_digit(d[0]) {
        Err(IntErrorKind::InvalidDigit)
    } else if acc * 10 + digit_value(d[0]) > u64::MAX {
        Err(IntErrorKind::PosOverflow)
    } else {
        scan_u64(d.drop_first(), acc * 10 + digit_value(d[0]))
    }
}

/// `<u64 as FromStr>::from_str`: decimal digits with an optional leading `+`.
pub open spec fn parse_u64_spec(s: Seq<char>) -> Result<u64, IntErrorKind> {
    if s.len() == 0 {
        Err(IntErrorKind::Empty)
    } else if s.len() == 1 && (s[0] == '+' || s[0] == '-') {
        Err(IntErrorKind::InvalidDigit)
    } else if s[0] == '+' {
        scan_u64(s.drop_first(), 0)
    } else {
        scan_u64(s, 0)
    }
}

/// Parses a `u64` the way `str::parse::<u64>` does.
pub fn parse_u64(s: &str) -> (r: Result<u64, IntErrorKind>)
    ensures
        r == parse_u64_spec(s@),
{
    let n = s.unicode_len();
    if n == 0 {
        return Err(IntErrorKind::Empty);
    }
    let first = s.get_char(0);
    if n == 1 && (first == '+' || first == '-') {
        return Err(IntErrorKind::InvalidDigit);
    }
    let mut i: usize = if first == '+' { 1 } else { 0 };
    let ghost start = i as int;
    assert(s@.skip(1) =~= s@.drop_first());
    assert(s@.skip(0) =~= s@);
    let mut acc: u64 = 0;
    while i < n
        invariant
            n == s@.len(),
            start <= i <= n,
            parse_u64_spec(s@) == scan_u64(s@.skip(i as int), acc as nat),
        decreases n - i,
    {
        let c = s.get_char(i);
        let ghost rest = s@.skip(i as int);
        assert(rest[0] == c);
        assert(rest.drop_first() =~= s@.skip(i as int + 1));
        if !('0' <= c && c <= '9') {
            return Err(IntErrorKind::InvalidDigit);
        }
        let d = (c as u32 - '0' as u32) as u64;
        let next: u128 = acc as u128 * 10 + d as u128;
        if next > u64::MAX as u128 {
            return Err(IntErrorKind::PosOverflow);
        }
        acc = next as u64;
        i = i + 1;
    }
    assert(s@.skip(n as int).len() == 0);
    Ok(acc)
}

/// A line without the carriage return that ended it, if one did.
pub open spec fn strip_cr(l: Seq<char>) -> Seq<char> {
    if l.len() > 0 && l.last() == '\r' {
        l.drop_last()
    } else {
        l
    }
}

/// Lines finished so far and the line being read.
pub struct LineScan {
    pub done: Seq<Seq<char>>,
    pub current: Seq<char>,
}

/// Reading `s` character by character: a newline ends the current line,
/// without its carriage return.
pub open spec fn scan_lines(s: Seq<char>) -> LineScan
    decreases s.len(),
{
    if s.len() == 0 {
        LineScan { done: seq![], current: seq![] }
    } else {
        let st = scan_lines(s.drop_last());
        if s.last() == '\n' {
            LineScan { done: st.done.push(strip_cr(st.current)), current: seq![] }
        } else {
            LineScan { done: st.done, current: st.current.push(s.last()) }
        }
    }
}

/// `str::lines`: the lines of `s`, each without its `\n` or `\r\n`; a last
/// line that is not ended is kept as it is, an empty one is not a line.
pub open spec fn lines_of(s: Seq<char>) -> Seq<Seq<char>> {
    let st = scan_lines(s);
    if st.current.len() > 0 {
        st.done.push(st.current)
    } else {
        st.done
    }
}

/// The lines of `s`, as `str::lines` gives them.
pub fn lines(s: &str) -> (r: Vec<String>)
    ensures
        strings_view(r@) == lines_of(s@),
{
    let n = s.unicode_len();
    let ghost t = s@;
    let mut done: Vec<String> = Vec::new();
    let mut current = String::new();
    let mut i: usize = 0;
    assert(t.take(0) =~= Seq::<char>::empty());
    assert(strings_view(done@) =~= Seq::<Seq<char>>::empty());
    while i < n
        invariant
            n == t.len(),
            t == s@,
            i <= n,
            scan_lines(t.take(i as int)) == (LineScan { done: strings_view(done@), current: current@ }),
        decreases n - i,
    {
        let c = s.get_char(i);
        proof {
            assert(t.take(i + 1).drop_last() =~= t.take(i as int));
            assert(t.take(i + 1).last() == c);
        }
        if c == '\n' {
            let m = current.as_str().unicode_len();
            let line = if m > 0 && current.as_str().get_char(m - 1) == '\r' {
                slice_chars(current.as_str(), 0, m - 1)
            } else {
                slice_chars(current.as_str(), 0, m)
            };
            proof {
                assert(current@.subrange(0, m as int) =~= current@);
                if m > 0 {
                    assert(current@.subrange(0, m - 1) =~= current@.drop_last());
                }
            }
            let ghost before = strings_view(done@);
            done.push(line);
            assert(strings_view(done@) =~= before.push(line@));
            current = String::new();
            assert(current@ =~= Seq::<char>::empty());
        } else {
            push_char(&mut current, c);
        }
        i = i + 1;
    }
    assert(t.take(n as int) =~= t);
    if current.as_str().unicode_len() > 0 {
        let ghost before = strings_view(done@);
        let ghost cur = current@;
        done.push(current);
        assert(strings_view(done@) =~= before.push(cur));
    }
    done
}

/// `s` with every space turned into a dot.
pub open spec fn dotted(s: Seq<char>) -> Seq<char> {
    s.map_values(|c: char| if c == ' ' { '.' } else { c })
}

/// `s.replace(" ", ".")`.
pub fn replace_spaces_with_dots(s: &str) -> (r: String)
    ensures
        r@ == dotted(s@),
{
    let n = s.unicode_len();
    let mut r = String::new();
    let mut i: usize = 0;
    while i < n
        invariant
            n == s@.len(),
            i <= n,
            r@ == dotted(s@.take(i as int)),
        decreases n - i,
    {
        let c = s.get_char(i);
        let d = if c == ' ' { '.' } else { c };
        push_char(&mut r, d);
        i = i + 1;
        assert(r@ =~= dotted(s@.take(i as int)));
    }
    assert(s@.take(n as int) =~= s@);
    r
}

} // verus!
