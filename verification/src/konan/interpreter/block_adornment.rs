use vstd::prelude::*;
use crate::konan::printer::element::{Justification, TextSize};
use crate::konan::printer::rongta::{RongtaPrinter, lemma_pending_width};
use crate::text::{ascii_lowercased, decimal, push_char, push_decimal};

verus! {

broadcast use vstd::string::group_string_axioms;

/// How the items of an ordered list are numbered.
#[derive(Debug, Clone, Copy, PartialEq, Eq, Hash, Structural)]
pub enum OrderedListType {
    LowerCaseLetter,
    UpperCaseLetter,
    LowerCaseRoman,
    UpperCaseRoman,
    Number,
}

impl Default for OrderedListType {
    fn default() -> (t: Self)
        ensures
            t == OrderedListType::Number,
    {
        OrderedListType::Number
    }
}

/// The numbering that a list-type attribute names: `a`, `A`, `i`, `I`, numbers otherwise.
pub open spec fn list_type_of(value: Seq<char>) -> OrderedListType {
    if value == seq!['a'] {
        OrderedListType::LowerCaseLetter
    } else if value == seq!['A'] {
        OrderedListType::UpperCaseLetter
    } else if value == seq!['i'] {
        OrderedListType::LowerCaseRoman
    } else if value == seq!['I'] {
        OrderedListType::UpperCaseRoman
    } else {
        OrderedListType::Number
    }
}

impl<'a> From<&'a str> for OrderedListType {
    /// The numbering named by `value` (`"a"`, `"A"`, `"i"`, `"I"`; numbers otherwise).
    fn from(value: &'a str) -> (t: Self) {
        if value.unicode_len() != 1 {
            return OrderedListType::Number;
        }
        let c = value.get_char(0);
        proof {
            if c != 'a' {
                assert(value@ != seq!['a']);
            }
            if c != 'A' {
                assert(value@ != seq!['A']);
            }
            if c != 'i' {
                assert(value@ != seq!['i']);
            }
            if c != 'I' {
                assert(value@ != seq!['I']);
            }
            assert(value@ =~= seq![c]);
        }
        if c == 'a' {
            OrderedListType::LowerCaseLetter
        } else if c == 'A' {
            OrderedListType::UpperCaseLetter
        } else if c == 'i' {
            OrderedListType::LowerCaseRoman
        } else if c == 'I' {
            OrderedListType::UpperCaseRoman
        } else {
            OrderedListType::Number
        }
    }
}

impl<'a> vstd::std_specs::convert::FromSpecImpl<&'a str> for OrderedListType {
    open spec fn obeys_from_spec() -> bool {
        true
    }

    open spec fn from_spec(v: &'a str) -> Self {
        list_type_of(v@)
    }
}

/// The `n`-th letter of the alphabet, counting from 0.
pub open spec fn letter(n: nat, uppercase: bool) -> char {
    if uppercase {
        (65 + n) as char
    } else {
        (97 + n) as char
    }
}

/// The alphabetic label of a 1-based index: 1 is `a`, 26 is `z`, 27 is `aa`
/// (bijective base 26); 0 has the empty label.
pub open spec fn letters(index: nat, uppercase: bool) -> Seq<char>
    decreases index,
{
    if index == 0 {
        seq![]
    } else {
        letters(((index - 1) / 26) as nat, uppercase).push(letter(((index - 1) % 26) as nat, uppercase))
    }
}

/// The index that an alphabetic label stands for.
pub open spec fn letters_value(s: Seq<char>, uppercase: bool) -> int
    decreases s.len(),
{
    if s.len() == 0 {
        0
    } else {
        let base = if uppercase { 65int } else { 97int };
        26 * letters_value(s.drop_last(), uppercase) + (s.last() as int - base + 1)
    }
}

/// Reading an alphabetic label back gives its index.
pub proof fn lemma_letters_roundtrip(index: nat, uppercase: bool)
    ensures
        letters_value(letters(index, uppercase), uppercase) == index,
    decreases index,
{
    if index > 0 {
        let q = ((index - 1) / 26) as nat;
        let r = ((index - 1) % 26) as nat;
        lemma_letters_roundtrip(q, uppercase);
        let s = letters(index, uppercase);
        assert(s.drop_last() =~= letters(q, uppercase));
        assert(s.last() == letter(r, uppercase));
        assert(26 * q + r == index - 1) by (nonlinear_arith)
            requires
                q == (index - 1) / 26,
                r == (index - 1) % 26,
                index >= 1,
        ;
    }
}

/// Value of the `k`-th entry of the Roman numeral table.
pub open spec fn roman_value(k: int) -> nat {
    if k == 0 {
        1000
    } else if k == 1 {
        900
    } else if k == 2 {
        500
    } else if k == 3 {
        400
    } else if k == 4 {
        100
    } else if k == 5 {
        90
    } else if k == 6 {
        50
    } else if k == 7 {
        40
    } else if k == 8 {
        10
    } else if k == 9 {
        9
    } else if k == 10 {
        5
    } else if k == 11 {
        4
    } else {
        1
    }
}

/// Symbol of the `k`-th entry of the Roman numeral table.
pub open spec fn roman_symbol(k: int, uppercase: bool) -> Seq<char> {
    let s = if k == 0 {
        seq!['M']
    } else if k == 1 {
        seq!['C', 'M']
    } else if k == 2 {
        seq!['D']
    } else if k == 3 {
        seq!['C', 'D']
    } else if k == 4 {
        seq!['C']
    } else if k == 5 {
        seq!['X', 'C']
    } else if k == 6 {
        seq!['L']
    } else if k == 7 {
        seq!['X', 'L']
    } else if k == 8 {
        seq!['X']
    } else if k == 9 {
        seq!['I', 'X']
    } else if k == 10 {
        seq!['V']
    } else if k == 11 {
        seq!['I', 'V']
    } else {
        seq!['I']
    };
    if uppercase {
        s
    } else {
        s.map_values(|c: char| ((c as u32) + 32) as char)
    }
}

/// Greedy Roman notation of `n` using the table from entry `k` on: the largest
/// entry that fits is written, as often as it fits.
pub open spec fn roman_from(n: nat, k: nat, uppercase: bool) -> Seq<char>
    decreases 13 - k, n,
{
    if k >= 13 {
        seq![]
    } else if n >= roman_value(k as int) {
        roman_symbol(k as int, uppercase) + roman_from(
            (n - roman_value(k as int)) as nat,
            k,
            uppercase,
        )
    } else {
        roman_from(n, k + 1, uppercase)
    }
}

/// What one Roman digit stands for, in either case; 0 for any other character.
pub open spec fn roman_digit_value(c: char) -> int {
    if c == 'I' || c == 'i' {
        1
    } else if c == 'V' || c == 'v' {
        5
    } else if c == 'X' || c == 'x' {
        10
    } else if c == 'L' || c == 'l' {
        50
    } else if c == 'C' || c == 'c' {
        100
    } else if c == 'D' || c == 'd' {
        500
    } else if c == 'M' || c == 'm' {
        1000
    } else {
        0
    }
}

/// The number a Roman numeral stands for: a digit counts negatively when a
/// larger digit follows it, positively otherwise.
pub open spec fn roman_numeral_value(s: Seq<char>) -> int
    decreases s.len(),
{
    if s.len() == 0 {
        0
    } else if s.len() >= 2 && roman_digit_value(s[0]) < roman_digit_value(s[1]) {
        roman_numeral_value(s.drop_first()) - roman_digit_value(s[0])
    } else {
        roman_numeral_value(s.drop_first()) + roman_digit_value(s[0])
    }
}

/// Value of the last digit of table entry `k`.
spec fn last_digit_value(k: int, uppercase: bool) -> int {
    roman_digit_value(roman_symbol(k, uppercase).last())
}

proof fn lemma_symbol_shape(k: int, uppercase: bool)
    requires
        0 <= k < 13,
    ensures
        ({
            let s = roman_symbol(k, uppercase);
            &&& 1 <= s.len() <= 2
            &&& roman_digit_value(s[0]) <= last_digit_value(k, uppercase)
            &&& s.len() == 1 ==> roman_digit_value(s[0]) == roman_value(k)
            &&& s.len() == 2 ==> roman_digit_value(s[0]) < roman_digit_value(s[1])
                && roman_digit_value(s[1]) - roman_digit_value(s[0]) == roman_value(k)
            &&& k < 12 ==> last_digit_value(k + 1, uppercase) <= last_digit_value(k, uppercase)
        }),
{
    let up = roman_symbol(k, true);
    let up1 = roman_symbol(k + 1, true);
    if !uppercase {
        assert(roman_symbol(k, false)[0] == ((up[0] as u32) + 32) as char);
        assert(roman_symbol(k, false).last() == ((up.last() as u32) + 32) as char);
        if up.len() == 2 {
            assert(roman_symbol(k, false)[1] == ((up[1] as u32) + 32) as char);
        }
        if k < 12 {
            assert(roman_symbol(k + 1, false).last() == ((up1.last() as u32) + 32) as char);
        }
    }
}

/// Roman notation of table entry `k` followed by digits no larger than its
/// last one adds the entry's value.
proof fn lemma_symbol_then(k: int, uppercase: bool, rest: Seq<char>)
    requires
        0 <= k < 13,
        rest.len() > 0 ==> roman_digit_value(rest[0]) <= last_digit_value(k, uppercase),
    ensures
        roman_numeral_value(roman_symbol(k, uppercase) + rest) == roman_value(k) + roman_numeral_value(rest),
{
    lemma_symbol_shape(k, uppercase);
    let s = roman_symbol(k, uppercase);
    let all = s + rest;
    assert(all[0] == s[0]);
    if s.len() == 1 {
        assert(all.drop_first() =~= rest);
        assert(s.last() == s[0]);
        if all.len() >= 2 {
            assert(all[1] == rest[0]);
        }
        assert(roman_numeral_value(all) == roman_numeral_value(rest) + roman_digit_value(s[0]));
    } else {
        assert(all.drop_first() =~= seq![s[1]] + rest);
        assert(all[1] == s[1]);
        let tail = seq![s[1]] + rest;
        assert(tail.drop_first() =~= rest);
        if tail.len() >= 2 {
            assert(tail[1] == rest[0]);
        }
        assert(tail[0] == s[1]);
        assert(s.last() == s[1]);
        assert(roman_numeral_value(tail) == roman_numeral_value(rest) + roman_digit_value(s[1]));
        assert(roman_numeral_value(all) == roman_numeral_value(tail) - roman_digit_value(s[0]));
    }
}

/// The digits that the greedy notation from entry `k` on starts with are no
/// larger than the last digit of entry `k`.
proof fn lemma_roman_from_first(n: nat, k: nat, uppercase: bool)
    requires
        k < 13,
    ensures
        roman_from(n, k, uppercase).len() > 0 ==> roman_digit_value(roman_from(n, k, uppercase)[0])
            <= last_digit_value(k as int, uppercase),
    decreases 13 - k, n,
{
    lemma_symbol_shape(k as int, uppercase);
    if n >= roman_value(k as int) {
        let sym = roman_symbol(k as int, uppercase);
        let rest = roman_from((n - roman_value(k as int)) as nat, k, uppercase);
        assert((sym + rest)[0] == sym[0]);
    } else if k < 12 {
        lemma_roman_from_first(n, k + 1, uppercase);
    } else {
        assert(roman_from(n, 13, uppercase).len() == 0);
    }
}

proof fn lemma_roman_from_value(n: nat, k: nat, uppercase: bool)
    requires
        k < 13,
    ensures
        roman_numeral_value(roman_from(n, k, uppercase)) == n,
    decreases 13 - k, n,
{
    if n >= roman_value(k as int) {
        let rest_n = (n - roman_value(k as int)) as nat;
        lemma_roman_from_value(rest_n, k, uppercase);
        lemma_roman_from_first(rest_n, k, uppercase);
        lemma_symbol_then(k as int, uppercase, roman_from(rest_n, k, uppercase));
    } else if k < 12 {
        lemma_roman_from_value(n, k + 1, uppercase);
    } else {
        assert(n == 0);
        assert(roman_from(n, 13, uppercase) =~= Seq::<char>::empty());
    }
}

/// Read back, the Roman numeral of a number from 1 to 3999 stands for that number.
pub proof fn lemma_roman_value(value: nat, uppercase: bool)
    requires
        1 <= value <= 3999,
    ensures
        roman_numeral_value(roman(value, uppercase)) == value,
{
    lemma_roman_from_value(value, 0, uppercase);
}

/// The standard notation of decimal digit `d` at one place of a Roman numeral,
/// written with that place's `one`, `five` and `ten`: `I`, `II`, `III`, `IV`,
/// `V`, `VI`, `VII`, `VIII`, `IX` for the units; nothing for 0.
pub open spec fn roman_place(d: int, one: char, five: char, ten: char) -> Seq<char> {
    if d == 1 {
        seq![one]
    } else if d == 2 {
        seq![one, one]
    } else if d == 3 {
        seq![one, one, one]
    } else if d == 4 {
        seq![one, five]
    } else if d == 5 {
        seq![five]
    } else if d == 6 {
        seq![five, one]
    } else if d == 7 {
        seq![five, one, one]
    } else if d == 8 {
        seq![five, one, one, one]
    } else if d == 9 {
        seq![one, ten]
    } else {
        seq![]
    }
}

/// The canonical Roman numeral of `value` in 1..=3999: its thousands (`M`),
/// hundreds (`C`, `D`, `M`), tens (`X`, `L`, `C`) and units (`I`, `V`, `X`),
/// each digit in the standard notation of its place.
pub open spec fn canonical_roman(value: int) -> Seq<char> {
    roman_place(value / 1000, 'M', 'M', 'M') + roman_place((value / 100) % 10, 'C', 'D', 'M')
        + roman_place((value / 10) % 10, 'X', 'L', 'C') + roman_place(value % 10, 'I', 'V', 'X')
}

/// Up to three times the value of single-letter entry `k`, then less than it:
/// that many copies of the letter, then the notation of the rest from entry `k + 1`.
proof fn lemma_roman_repeat(k: nat, c: int, cm: int, r: nat, one: char, five: char, ten: char)
    requires
        k < 13,
        0 <= c <= 3,
        r < roman_value(k as int),
        roman_symbol(k as int, true) == seq![one],
        c == 0 ==> cm == 0,
        c == 1 ==> cm == roman_value(k as int),
        c == 2 ==> cm == 2 * roman_value(k as int),
        c == 3 ==> cm == 3 * roman_value(k as int),
    ensures
        roman_from((cm + r) as nat, k, true) == roman_place(c, one, five, ten) + roman_from(
            r,
            k + 1,
            true,
        ),
    decreases c,
{
    let rest = roman_from(r, k + 1, true);
    if c == 0 {
        assert(roman_place(c, one, five, ten) + rest =~= rest);
    } else {
        let u = roman_value(k as int);
        lemma_roman_repeat(k, c - 1, cm - u, r, one, five, ten);
        assert(roman_from((cm + r) as nat, k, true) == seq![one] + roman_from(
            (cm - u + r) as nat,
            k,
            true,
        ));
        assert(seq![one] + (roman_place(c - 1, one, five, ten) + rest) =~= roman_place(
            c,
            one,
            five,
            ten,
        ) + rest);
    }
}

/// One decimal place: from the entry `j` of its nine (`one`, `ten`), a number
/// below ten times the place's unit is written as its digit's standard notation
/// at that place, then the notation of the rest from entry `j + 4`.
proof fn lemma_roman_place(
    j: nat,
    u: int,
    d: int,
    dm: int,
    r: nat,
    one: char,
    five: char,
    ten: char,
)
    requires
        j + 4 <= 13,
        roman_value(j as int) == 9 * u,
        roman_value(j + 1int) == 5 * u,
        roman_value(j + 2int) == 4 * u,
        roman_value(j + 3int) == u,
        roman_symbol(j as int, true) == seq![one, ten],
        roman_symbol(j + 1int, true) == seq![five],
        roman_symbol(j + 2int, true) == seq![one, five],
        roman_symbol(j + 3int, true) == seq![one],
        0 <= d <= 9,
        r < u,
        d == 0 ==> dm == 0,
        d == 1 ==> dm == u,
        d == 2 ==> dm == 2 * u,
        d == 3 ==> dm == 3 * u,
        d == 4 ==> dm == 4 * u,
        d == 5 ==> dm == 5 * u,
        d == 6 ==> dm == 6 * u,
        d == 7 ==> dm == 7 * u,
        d == 8 ==> dm == 8 * u,
        d == 9 ==> dm == 9 * u,
    ensures
        roman_from((dm + r) as nat, j, true) == roman_place(d, one, five, ten) + roman_from(
            r,
            j + 4,
            true,
        ),
{
    let m = (dm + r) as nat;
    let rest = roman_from(r, j + 4, true);
    if d <= 3 {
        assert(roman_from(m, j, true) == roman_from(m, j + 1, true));
        assert(roman_from(m, j + 1, true) == roman_from(m, j + 2, true));
        assert(roman_from(m, j + 2, true) == roman_from(m, j + 3, true));
        lemma_roman_repeat(j + 3, d, dm, r, one, five, ten);
    } else if d == 4 {
        assert(roman_from(m, j, true) == roman_from(m, j + 1, true));
        assert(roman_from(m, j + 1, true) == roman_from(m, j + 2, true));
        assert(roman_from(m, j + 2, true) == seq![one, five] + roman_from(r, j + 2, true));
        assert(roman_from(r, j + 2, true) == roman_from(r, j + 3, true));
        assert(roman_from(r, j + 3, true) == rest);
    } else if d <= 8 {
        let m5 = (dm - 5 * u + r) as nat;
        assert(roman_from(m, j, true) == roman_from(m, j + 1, true));
        assert(roman_from(m, j + 1, true) == seq![five] + roman_from(m5, j + 1, true));
        assert(roman_from(m5, j + 1, true) == roman_from(m5, j + 2, true));
        assert(roman_from(m5, j + 2, true) == roman_from(m5, j + 3, true));
        lemma_roman_repeat(j + 3, d - 5, dm - 5 * u, r, one, five, ten);
        assert(seq![five] + (roman_place(d - 5, one, five, ten) + rest) =~= roman_place(
            d,
            one,
            five,
            ten,
        ) + rest);
    } else {
        assert(roman_from(m, j, true) == seq![one, ten] + roman_from(r, j, true));
        assert(roman_from(r, j, true) == roman_from(r, j + 1, true));
        assert(roman_from(r, j + 1, true) == roman_from(r, j + 2, true));
        assert(roman_from(r, j + 2, true) == roman_from(r, j + 3, true));
        assert(roman_from(r, j + 3, true) == rest);
    }
}

/// No letter of `s` stands four times in a row.
pub open spec fn no_run_of_four(s: Seq<char>) -> bool {
    forall|i: int|
        0 <= i && i + 3 < s.len() ==> !(#[trigger] s[i] == s[i + 1] && s[i + 1] == s[i + 2] && s[i
            + 2] == s[i + 3])
}

proof fn lemma_no_run_concat(a: Seq<char>, b: Seq<char>)
    requires
        no_run_of_four(a),
        no_run_of_four(b),
        a.len() > 0 && b.len() > 0 ==> a.last() != b[0],
    ensures
        no_run_of_four(a + b),
{
    let s = a + b;
    assert forall|i: int| 0 <= i && i + 3 < s.len() implies !(#[trigger] s[i] == s[i + 1] && s[i
        + 1] == s[i + 2] && s[i + 2] == s[i + 3]) by {
        if i + 3 < a.len() {
            assert(s[i] == a[i] && s[i + 1] == a[i + 1] && s[i + 2] == a[i + 2] && s[i + 3] == a[i
                + 3]);
        } else if i >= a.len() {
            let k = i - a.len();
            assert(s[i] == b[k] && s[i + 1] == b[k + 1] && s[i + 2] == b[k + 2] && s[i + 3] == b[k
                + 3]);
        } else {
            let n = a.len() as int;
            assert(s[n - 1] == a.last());
            assert(s[n] == b[0]);
        }
    }
}

proof fn lemma_place_shape(d: int, one: char, five: char, ten: char)
    requires
        0 <= d <= 9,
        (one != five && one != ten) || d <= 3,
    ensures
        no_run_of_four(roman_place(d, one, five, ten)),
        roman_place(d, one, five, ten).len() > 0 ==> roman_place(d, one, five, ten)[0] == one
            || roman_place(d, one, five, ten)[0] == five,
        roman_place(d, one, five, ten).len() > 0 ==> roman_place(d, one, five, ten).last() == one
            || roman_place(d, one, five, ten).last() == five || roman_place(
            d,
            one,
            five,
            ten,
        ).last() == ten,
{
    let p = roman_place(d, one, five, ten);
    if d == 8 {
        assert(p[0] != p[1]);
    }
}

/// The Roman numeral of a number from 1 to 3999 is its canonical numeral:
/// each decimal digit in the standard notation of its place; and no letter
/// of it stands four times in a row.
pub proof fn lemma_roman_canonical(value: nat)
    requires
        1 <= value <= 3999,
    ensures
        roman(value, true) == canonical_roman(value as int),
        no_run_of_four(roman(value, true)),
{
    let v = value as int;
    let t = v / 1000;
    let h = (v / 100) % 10;
    let te = (v / 10) % 10;
    let o = v % 10;
    let r1 = (v % 1000) as nat;
    let r2 = (v % 100) as nat;
    let r3 = (v % 10) as nat;
    assert(v == 1000 * t + r1);
    assert(r1 == 100 * h + r2);
    assert(r2 == 10 * te + r3);
    lemma_roman_repeat(0, t, 1000 * t, r1, 'M', 'M', 'M');
    lemma_roman_place(1, 100, h, 100 * h, r2, 'C', 'D', 'M');
    lemma_roman_place(5, 10, te, 10 * te, r3, 'X', 'L', 'C');
    lemma_roman_place(9, 1, o, o, 0, 'I', 'V', 'X');
    assert(roman_from(0, 13, true) =~= Seq::<char>::empty());
    let a = roman_place(t, 'M', 'M', 'M');
    let b = roman_place(h, 'C', 'D', 'M');
    let c = roman_place(te, 'X', 'L', 'C');
    let d = roman_place(o, 'I', 'V', 'X');
    assert(a + (b + (c + (d + Seq::<char>::empty()))) =~= a + b + c + d);
    lemma_place_shape(t, 'M', 'M', 'M');
    lemma_place_shape(h, 'C', 'D', 'M');
    lemma_place_shape(te, 'X', 'L', 'C');
    lemma_place_shape(o, 'I', 'V', 'X');
    lemma_no_run_concat(a, b);
    lemma_no_run_concat(a + b, c);
    lemma_no_run_concat(a + b + c, d);
}

/// Writing entry `k` in lower case lowers the letters of its upper-case form.
proof fn lemma_symbol_lowered(k: int)
    ensures
        roman_symbol(k, false) == ascii_lowercased(roman_symbol(k, true)),
{
    let up = roman_symbol(k, true);
    assert(forall|i: int| 0 <= i < up.len() ==> 65 <= #[trigger] up[i] as u32 <= 90);
    assert(roman_symbol(k, false) =~= ascii_lowercased(up));
}

proof fn lemma_roman_from_lowered(n: nat, k: nat)
    ensures
        roman_from(n, k, false) == ascii_lowercased(roman_from(n, k, true)),
    decreases 13 - k, n,
{
    if k >= 13 {
        assert(ascii_lowercased(Seq::<char>::empty()) =~= Seq::<char>::empty());
    } else if n >= roman_value(k as int) {
        let rest_n = (n - roman_value(k as int)) as nat;
        lemma_roman_from_lowered(rest_n, k);
        lemma_symbol_lowered(k as int);
        let a = roman_symbol(k as int, true);
        let b = roman_from(rest_n, k, true);
        assert(ascii_lowercased(a + b) =~= ascii_lowercased(a) + ascii_lowercased(b));
    } else {
        lemma_roman_from_lowered(n, k + 1);
    }
}

/// The lower-case Roman numeral of a number is its upper-case numeral with
/// the letters lowered.
pub proof fn lemma_roman_lowercase(value: nat)
    ensures
        roman(value, false) == ascii_lowercased(roman(value, true)),
{
    if value == 0 || value > 3999 {
        assert(ascii_lowercased(Seq::<char>::empty()) =~= Seq::<char>::empty());
    } else {
        lemma_roman_from_lowered(value, 0);
    }
}

/// The Roman numeral of `value` in 1..=3999; empty outside that range.
pub open spec fn roman(value: nat, uppercase: bool) -> Seq<char> {
    if value == 0 || value > 3999 {
        seq![]
    } else {
        roman_from(value, 0, uppercase)
    }
}

/// The label of the `index`-th item of a list numbered `kind`.
pub open spec fn ordinal_label(index: nat, kind: OrderedListType) -> Seq<char> {
    match kind {
        OrderedListType::LowerCaseLetter => letters(index, false),
        OrderedListType::UpperCaseLetter => letters(index, true),
        OrderedListType::LowerCaseRoman => roman(index, false),
        OrderedListType::UpperCaseRoman => roman(index, true),
        OrderedListType::Number => decimal(index),
    }
}

/// What stands before the `index`-th item of a list numbered `ordinal`
/// (numbers when none is given): its label, a full stop and a space.
pub open spec fn ordered_content(index: nat, ordinal: Option<OrderedListType>) -> Seq<char> {
    let kind = match ordinal {
        Some(k) => k,
        None => OrderedListType::Number,
    };
    ordinal_label(index, kind) + seq!['.', ' ']
}

/// The plain-value picture of a list item's marker.
pub struct ListItemBeforeModel {
    pub ordinal: Option<OrderedListType>,
    pub content: Seq<char>,
    pub text_size: TextSize,
    pub bold: bool,
}

/// Style the ListItem ::before pseudoelement
#[derive(Debug, Clone)]
pub struct ListItemBefore {
    ordinal: Option<OrderedListType>,
    content: String,
    text_size: TextSize,
    bold: bool,
}

impl View for ListItemBefore {
    type V = ListItemBeforeModel;

    closed spec fn view(&self) -> ListItemBeforeModel {
        ListItemBeforeModel {
            ordinal: self.ordinal,
            content: self.content@,
            text_size: self.text_size,
            bold: self.bold,
        }
    }
}

fn push_roman_symbol(out: &mut String, k: usize, uppercase: bool)
    requires
        k < 13,
    ensures
        final(out)@ == old(out)@ + roman_symbol(k as int, uppercase),
{
    let ghost start = out@;
    let (a, b): (char, Option<char>) = if k == 0 {
        ('M', None)
    } else if k == 1 {
        ('C', Some('M'))
    } else if k == 2 {
        ('D', None)
    } else if k == 3 {
        ('C', Some('D'))
    } else if k == 4 {
        ('C', None)
    } else if k == 5 {
        ('X', Some('C'))
    } else if k == 6 {
        ('L', None)
    } else if k == 7 {
        ('X', Some('L'))
    } else if k == 8 {
        ('X', None)
    } else if k == 9 {
        ('I', Some('X'))
    } else if k == 10 {
        ('V', None)
    } else if k == 11 {
        ('I', Some('V'))
    } else {
        ('I', None)
    };
    let shift: u32 = if uppercase { 0 } else { 32 };
    let a2 = char_from_ascii((a as u32 + shift) as u8);
    push_char(out, a2);
    match b {
        Some(b) => {
            let b2 = char_from_ascii((b as u32 + shift) as u8);
            push_char(out, b2);
        },
        None => {},
    }
    proof {
        let base = if k == 0 {
            seq!['M']
        } else if k == 1 {
            seq!['C', 'M']
        } else if k == 2 {
            seq!['D']
        } else if k == 3 {
            seq!['C', 'D']
        } else if k == 4 {
            seq!['C']
        } else if k == 5 {
            seq!['X', 'C']
        } else if k == 6 {
            seq!['L']
        } else if k == 7 {
            seq!['X', 'L']
        } else if k == 8 {
            seq!['X']
        } else if k == 9 {
            seq!['I', 'X']
        } else if k == 10 {
            seq!['V']
        } else if k == 11 {
            seq!['I', 'V']
        } else {
            seq!['I']
        };
        assert(out@ =~= start + roman_symbol(k as int, uppercase));
    }
}

/// The character with ASCII code `b`.
fn char_from_ascii(b: u8) -> (c: char)
    requires
        b < 128,
    ensures
        c as u32 == b as u32,
{
    b as char
}

impl ListItemBefore {
    /// The marker of an ordered list item, to be numbered by `next_index`.
    pub fn new_ordered(ordinal: Option<OrderedListType>) -> (item: Self)
        ensures
            item@ == (ListItemBeforeModel {
                ordinal,
                content: Seq::empty(),
                text_size: TextSize::Medium,
                bold: true,
            }),
    {
        Self { content: String::new(), ordinal, text_size: TextSize::Medium, bold: true }
    }

    /// The marker of a bulleted list item: a bullet and a space, in medium bold.
    pub fn new_unordered() -> (item: Self)
        ensures
            item@ == (ListItemBeforeModel {
                ordinal: None,
                content: seq!['\u{2219}', ' '],
                text_size: TextSize::Medium,
                bold: true,
            }),
    {
        let mut content = String::new();
        push_char(&mut content, '\u{2219}');
        push_char(&mut content, ' ');
        assert(content@ =~= seq!['\u{2219}', ' ']);
        Self { content, text_size: TextSize::Medium, bold: true, ordinal: None }
    }

    /// The label of the `index`-th item of a list numbered `ordinal`, followed by `". "`.
    pub fn ordered_before_content(index: u64, ordinal: &Option<OrderedListType>) -> (s: String)
        ensures
            s@ == ordered_content(index as nat, *ordinal),
    {
        let kind = match ordinal {
            Some(k) => *k,
            None => OrderedListType::Number,
        };
        let mut value = match kind {
            OrderedListType::LowerCaseLetter => Self::letter_for_index(index, false),
            OrderedListType::UpperCaseLetter => Self::letter_for_index(index, true),
            OrderedListType::LowerCaseRoman => Self::roman_numeral(index, false),
            OrderedListType::UpperCaseRoman => Self::roman_numeral(index, true),
            OrderedListType::Number => {
                let mut s = String::new();
                push_decimal(&mut s, index);
                s
            },
        };
        push_char(&mut value, '.');
        push_char(&mut value, ' ');
        assert(value@ =~= ordered_content(index as nat, *ordinal));
        value
    }

    /// Numbers this marker as the `index`-th item of its list.
    pub fn next_index(&mut self, index: u64)
        ensures
            final(self)@ == (ListItemBeforeModel {
                content: ordered_content(index as nat, old(self)@.ordinal),
                ..old(self)@
            }),
    {
        self.content = Self::ordered_before_content(index, &self.ordinal);
    }

    /// Returns the alphabetic label for a 1-based index.
    /// Examples: 1 -> "a"/"A", 26 -> "z"/"Z", 27 -> "aa"/"AA".
    pub fn letter_for_index(index: u64, uppercase: bool) -> (s: String)
        ensures
            s@ == letters(index as nat, uppercase),
    {
        let mut s = String::new();
        Self::push_letters(&mut s, index, uppercase);
        assert(s@ =~= letters(index as nat, uppercase));
        s
    }

    fn push_letters(s: &mut String, n: u64, uppercase: bool)
        ensures
            final(s)@ == old(s)@ + letters(n as nat, uppercase),
        decreases n,
    {
        if n == 0 {
            assert(old(s)@ + letters(0, uppercase) =~= old(s)@);
            return ;
        }
        Self::push_letters(s, (n - 1) / 26, uppercase);
        let rem = ((n - 1) % 26) as u8;
        let base: u8 = if uppercase { 65 } else { 97 };
        let c = char_from_ascii(base + rem);
        push_char(s, c);
        proof {
            assert(c == letter(rem as nat, uppercase));
            assert(old(s)@ + letters(n as nat, uppercase) =~= old(s)@ + letters(
                ((n - 1) / 26) as nat,
                uppercase,
            ) + seq![c]);
        }
    }

    /// Returns the Roman numeral for a positive integer (1..=3999).
    /// Set `uppercase` to control casing (e.g., 4 -> "iv" or "IV").
    pub fn roman_numeral(value: u64, uppercase: bool) -> (s: String)
        ensures
            s@ == roman(value as nat, uppercase),
    {
        if value == 0 || value > 3999 {
            let s = String::new();
            assert(s@ =~= roman(value as nat, uppercase));
            return s;
        }
        let mut n = value;
        let mut out = String::new();
        let mut k: usize = 0;
        while k < 13
            invariant
                k <= 13,
                out@ + roman_from(n as nat, k as nat, uppercase) == roman_from(
                    value as nat,
                    0,
                    uppercase,
                ),
            decreases 13 - k,
        {
            let v = Self::table_value(k);
            while n >= v
                invariant
                    k < 13,
                    v == roman_value(k as int),
                    out@ + roman_from(n as nat, k as nat, uppercase) == roman_from(
                        value as nat,
                        0,
                        uppercase,
                    ),
                decreases n,
            {
                let ghost before = out@;
                push_roman_symbol(&mut out, k, uppercase);
                n = n - v;
                assert(out@ + roman_from(n as nat, k as nat, uppercase) =~= before + roman_from(
                    (n + v) as nat,
                    k as nat,
                    uppercase,
                ));
            }
            k = k + 1;
        }
        assert(out@ =~= out@ + roman_from(n as nat, 13, uppercase));
        out
    }

    fn table_value(k: usize) -> (v: u64)
        requires
            k < 13,
        ensures
            v == roman_value(k as int),
            v >= 1,
    {
        if k == 0 {
            1000
        } else if k == 1 {
            900
        } else if k == 2 {
            500
        } else if k == 3 {
            400
        } else if k == 4 {
            100
        } else if k == 5 {
            90
        } else if k == 6 {
            50
        } else if k == 7 {
            40
        } else if k == 8 {
            10
        } else if k == 9 {
            9
        } else if k == 10 {
            5
        } else if k == 11 {
            4
        } else {
            1
        }
    }
}

/// Styles the marker and adds it to the current line, start-aligned.
pub fn list_item_before_print_command(item: ListItemBefore, printer: &mut RongtaPrinter)
    requires
        old(printer)@.pending_width() + 3 * item@.content.len() <= usize::MAX,
    ensures
        final(printer)@ == old(printer)@.justified(Justification::Start).with_style(
            item@.text_size,
            item@.bold,
        ).content_added(item@.content),
        final(printer)@.wf(),
        final(printer)@.pending_width() <= old(printer)@.pending_width() + 3 * item@.content.len(),
{
    proof {
        lemma_pending_width(printer@, Justification::Start, item@.text_size, item@.bold);
    }
    printer.set_line_justification(Justification::Start);
    printer.set_cached_text_size(item.text_size);
    printer.set_cached_bold(item.bold);
    printer.add_content(item.content.as_str())
}

/// The plain-value picture of a task-list checkbox.
pub struct TaskListBeforeModel {
    pub content: Seq<char>,
    pub text_size: TextSize,
    pub bold: bool,
}

/// The checkbox in front of a task-list item.
pub struct TaskListBefore {
    content: String,
    text_size: TextSize,
    bold: bool,
}

impl View for TaskListBefore {
    type V = TaskListBeforeModel;

    closed spec fn view(&self) -> TaskListBeforeModel {
        TaskListBeforeModel { content: self.content@, text_size: self.text_size, bold: self.bold }
    }
}

/// The checkbox text: filled when checked, empty otherwise.
pub open spec fn checkbox(checked: bool) -> Seq<char> {
    if checked {
        seq!['[', '\u{25A0}', ']', ' ']
    } else {
        seq!['[', ' ', ']', ' ']
    }
}

impl TaskListBefore {
    /// A medium bold checkbox, filled when `checked`.
    pub fn new(checked: bool) -> (item: Self)
        ensures
            item@ == (TaskListBeforeModel {
                content: checkbox(checked),
                text_size: TextSize::Medium,
                bold: true,
            }),
    {
        let mut content = String::new();
        push_char(&mut content, '[');
        if checked {
            push_char(&mut content, '\u{25A0}');
        } else {
            push_char(&mut content, ' ');
        }
        push_char(&mut content, ']');
        push_char(&mut content, ' ');
        assert(content@ =~= checkbox(checked));
        Self { content, text_size: TextSize::Medium, bold: true }
    }
}

/// Styles the checkbox and adds it to the current line.
pub fn task_list_before_print_command(item: TaskListBefore, printer: &mut RongtaPrinter)
    requires
        old(printer)@.pending_width() + 3 * item@.content.len() <= usize::MAX,
    ensures
        final(printer)@ == old(printer)@.with_style(item@.text_size, item@.bold).content_added(
            item@.content,
        ),
        final(printer)@.wf(),
        final(printer)@.pending_width() <= old(printer)@.pending_width() + 3 * item@.content.len(),
{
    printer.set_cached_text_size(item.text_size);
    printer.set_cached_bold(item.bold);
    printer.add_content(item.content.as_str())
}

/// The plain-value picture of a horizontal rule.
pub struct HorizontalRuleModel {
    pub content: Seq<char>,
    pub text_size: TextSize,
    pub bold: bool,
}

/// A thematic break, printed as a centred row of dashes.
pub struct HorizontalRule {
    content: String,
    text_size: TextSize,
    bold: bool,
}

impl View for HorizontalRule {
    type V = HorizontalRuleModel;

    closed spec fn view(&self) -> HorizontalRuleModel {
        HorizontalRuleModel { content: self.content@, text_size: self.text_size, bold: self.bold }
    }
}

/// Twelve dashes.
pub open spec fn rule_content() -> Seq<char> {
    Seq::new(12, |i: int| '-')
}

impl HorizontalRule {
    /// Twelve large bold dashes.
    pub fn new() -> (r: Self)
        ensures
            r@ == (HorizontalRuleModel {
                content: rule_content(),
                text_size: TextSize::Large,
                bold: true,
            }),
    {
        let mut content = String::new();
        let mut i: usize = 0;
        while i < 12
            invariant
                i <= 12,
                content@ == Seq::new(i as nat, |k: int| '-'),
            decreases 12 - i,
        {
            push_char(&mut content, '-');
            i = i + 1;
            assert(content@ =~= Seq::new(i as nat, |k: int| '-'));
        }
        Self { content, text_size: TextSize::Large, bold: true }
    }
}

/// Prints the rule on a line of its own, centred.
pub fn horizontal_rule_print_command(item: HorizontalRule, printer: &mut RongtaPrinter)
    requires
        3 * item@.content.len() <= usize::MAX,
    ensures
        final(printer)@ == old(printer)@.new_line_added().with_style(
            item@.text_size,
            item@.bold,
        ).justified(Justification::Center).content_added(item@.content).new_line_added(),
        final(printer)@.wf(),
        final(printer)@.pending_width() == 0,
{
    printer.add_new_line();
    printer.set_cached_text_size(item.text_size);
    printer.set_cached_bold(item.bold);
    printer.set_line_justification(Justification::Center);
    printer.add_content(item.content.as_str());
    printer.add_new_line();
}

/// The size and weight of headings: level 1 extra large bold, level 2 large
/// bold, level 3 large plain, deeper levels medium bold.
pub open spec fn heading_style(level: u8) -> (TextSize, bool) {
    if level == 1 {
        (TextSize::ExtraLarge, true)
    } else if level == 2 {
        (TextSize::Large, true)
    } else if level == 3 {
        (TextSize::Large, false)
    } else {
        (TextSize::Medium, true)
    }
}

/// Heading styles: bold at every level but 3; extra large at level 1, large
/// at levels 2 and 3, body size at every other level; a deeper heading from
/// level 1 on is never printed larger than a shallower one.
pub proof fn lemma_heading_styles(level: u8)
    ensures
        heading_style(level).1 <==> level != 3,
        level == 1 ==> heading_style(level).0 == TextSize::ExtraLarge,
        (level == 2 || level == 3) ==> heading_style(level).0 == TextSize::Large,
        (level == 0 || level >= 4) ==> heading_style(level).0 == TextSize::Medium,
        forall|deeper: u8|
            1 <= level <= deeper ==> #[trigger] heading_style(deeper).0.width() <= heading_style(
                level,
            ).0.width(),
{
}

/// Sets the style that the text of a heading of `level` is added in.
pub fn set_heading_style(level: u8, printer: &mut RongtaPrinter)
    ensures
        final(printer)@ == old(printer)@.with_style(heading_style(level).0, heading_style(level).1),
        final(printer)@.wf(),
{
    match level {
        1 => {
            printer.set_cached_text_size(TextSize::ExtraLarge);
            printer.set_cached_bold(true);
        },
        2 => {
            printer.set_cached_text_size(TextSize::Large);
            printer.set_cached_bold(true);
        },
        3 => {
            printer.set_cached_text_size(TextSize::Large);
            printer.set_cached_bold(false);
        },
        _ => {
            printer.set_cached_text_size(TextSize::Medium);
            printer.set_cached_bold(true);
        },
    };
}

} // verus!
