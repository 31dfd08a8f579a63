//! Field elements as text: decimal numerals.

use vstd::prelude::*;
use vstd::string::*;

use crate::field;
use crate::field::BaseElement;

verus! {

/// Whether Unicode counts a character as white space.
pub open spec fn white_space(c: char) -> bool {
    ||| '\u{9}' <= c <= '\u{d}'
    ||| c == ' '
    ||| c == '\u{85}'
    ||| c == '\u{a0}'
    ||| c == '\u{1680}'
    ||| '\u{2000}' <= c <= '\u{200a}'
    ||| c == '\u{2028}'
    ||| c == '\u{2029}'
    ||| c == '\u{202f}'
    ||| c == '\u{205f}'
    ||| c == '\u{3000}'
}

/// Whether Unicode counts a character as white space.
pub fn is_white_space(c: char) -> (r: bool)
    ensures
        r == white_space(c),
{
    ('\u{9}' <= c && c <= '\u{d}') || c == ' ' || c == '\u{85}' || c == '\u{a0}' || c == '\u{1680}'
        || ('\u{2000}' <= c && c <= '\u{200a}') || c == '\u{2028}' || c == '\u{2029}' || c
        == '\u{202f}' || c == '\u{205f}' || c == '\u{3000}'
}

/// A text without the white space that it begins with.
pub open spec fn trim_start(s: Seq<char>) -> Seq<char>
    decreases s.len(),
{
    if s.len() > 0 && white_space(s[0]) {
        trim_start(s.drop_first())
    } else {
        s
    }
}

/// A text without the white space that it ends with.
pub open spec fn trim_end(s: Seq<char>) -> Seq<char>
    decreases s.len(),
{
    if s.len() > 0 && white_space(s.last()) {
        trim_end(s.drop_last())
    } else {
        s
    }
}

/// A text without the white space around it.
pub open spec fn trimmed(s: Seq<char>) -> Seq<char> {
    trim_end(trim_start(s))
}

/// Whether a character is a decimal digit.
pub open spec fn digit(c: char) -> bool {
    '0' <= c <= '9'
}

/// The value of a decimal digit.
pub open spec fn digit_value(c: char) -> int {
    c as int - '0' as int
}

/// Whether a text is made of decimal digits.
pub open spec fn all_digits(s: Seq<char>) -> bool {
    forall|i: int| 0 <= i < s.len() ==> digit(#[trigger] s[i])
}

/// The value of a text of decimal digits.
pub open spec fn digits_value(s: Seq<char>) -> int
    decreases s.len(),
{
    if s.len() == 0 {
        0
    } else {
        10 * digits_value(s.drop_last()) + digit_value(s.last())
    }
}

/// The value of a numeral: at least one digit, after a plus sign or not, with a
/// value of at most 128 bits.
pub open spec fn numeral(s: Seq<char>) -> Option<int> {
    let digits = if s.len() > 0 && s[0] == '+' {
        s.drop_first()
    } else {
        s
    };
    if digits.len() > 0 && all_digits(digits) && digits_value(digits) <= u128::MAX {
        Some(digits_value(digits))
    } else {
        None
    }
}

/// The field element that a text stands for: the numeral between its white space.
pub open spec fn parsed(s: Seq<char>) -> Option<BaseElement> {
    match numeral(trimmed(s)) {
        Some(n) => Some(field::elem(n)),
        None => None,
    }
}

/// How a text is rejected that does not stand for a field element.
pub open spec fn parse_error(s: Seq<char>) -> Seq<char> {
    "could not parse '"@ + s + "' as a u128 decimal integer"@
}

/// The characters of a text.
fn characters(s: &str) -> (r: Vec<char>)
    ensures
        r@ == s@,
{
    broadcast use axiom_spec_iter;

    let mut r: Vec<char> = Vec::new();
    for c in it: s.chars()
        invariant
            it.seq() == s@,
            r@ == s@.take(it.index()),
    {
        r.push(c);
    }
    assert(s@.take(s@.len() as int) =~= s@);
    r
}

/// A longer run of digits has no smaller value.
proof fn lemma_value_grows(s: Seq<char>, n: int)
    requires
        all_digits(s),
        0 <= n <= s.len(),
    ensures
        0 <= digits_value(s.take(n)) <= digits_value(s),
    decreases s.len() - n,
{
    lemma_value_nonnegative(s.take(n));
    if n < s.len() {
        lemma_value_grows(s, n + 1);
        assert(s.take(n + 1).drop_last() =~= s.take(n));
        assert(digit(s[n]));
    } else {
        assert(s.take(n) =~= s);
    }
}

proof fn lemma_value_nonnegative(s: Seq<char>)
    requires
        all_digits(s),
    ensures
        digits_value(s) >= 0,
    decreases s.len(),
{
    if s.len() > 0 {
        assert(digit(s.last()));
        lemma_value_nonnegative(s.drop_last());
    }
}

/// Trimming at the start drops white space only.
pub proof fn lemma_trim_start(s: Seq<char>, from: int)
    requires
        0 <= from <= s.len(),
        forall|i: int| 0 <= i < from ==> white_space(#[trigger] s[i]),
        from < s.len() ==> !white_space(s[from]),
    ensures
        trim_start(s) == s.skip(from),
    decreases from,
{
    if from == 0 {
        assert(s.skip(0) =~= s);
    } else {
        assert(white_space(s[0]));
        lemma_trim_start(s.drop_first(), from - 1);
        assert(s.drop_first().skip(from - 1) =~= s.skip(from));
    }
}

/// Trimming at the end drops white space only.
pub proof fn lemma_trim_end(s: Seq<char>, to: int)
    requires
        0 <= to <= s.len(),
        forall|i: int| to <= i < s.len() ==> white_space(#[trigger] s[i]),
        to > 0 ==> !white_space(s[to - 1]),
    ensures
        trim_end(s) == s.take(to),
    decreases s.len() - to,
{
    if to == s.len() {
        assert(s.take(to) =~= s);
    } else {
        assert(white_space(s[s.len() - 1]));
        lemma_trim_end(s.drop_last(), to);
        assert(s.drop_last().take(to) =~= s.take(to));
    }
}

/// The value of the digits from `lo` to `hi`, where that is a numeral.
fn parse_digits(chars: &Vec<char>, lo: usize, hi: usize) -> (r: Option<u128>)
    requires
        lo <= hi <= chars@.len(),
    ensures
        ({
            let digits = chars@.subrange(lo as int, hi as int);
            if digits.len() > 0 && all_digits(digits) && digits_value(digits) <= u128::MAX {
                r is Some && r->0 == digits_value(digits)
            } else {
                r is None
            }
        }),
{
    if lo == hi {
        return None;
    }
    let ghost digits = chars@.subrange(lo as int, hi as int);
    let mut value: u128 = 0;
    let mut i: usize = lo;
    while i < hi
        invariant
            lo <= i <= hi <= chars@.len(),
            digits == chars@.subrange(lo as int, hi as int),
            all_digits(digits.take(i - lo)),
            value == digits_value(digits.take(i - lo)),
        decreases hi - i,
    {
        let c = chars[i];
        assert(digits[i - lo] == c);
        if !('0' <= c && c <= '9') {
            assert(!digit(digits[i - lo]));
            return None;
        }
        let d: u128 = (c as u32 - '0' as u32) as u128;
        let ghost longer = digits.take(i - lo + 1);
        proof {
            assert(longer.drop_last() =~= digits.take(i - lo));
            assert(longer.last() == c);
            assert forall|k: int| 0 <= k < longer.len() implies digit(#[trigger] longer[k]) by {
                if k < i - lo {
                    assert(digit(digits.take(i - lo)[k]));
                }
            }
            if all_digits(digits) {
                lemma_value_grows(digits, i - lo + 1);
            }
        }
        if value > (u128::MAX - d) / 10 {
            assert(10 * value + d > u128::MAX);
            return None;
        }
        value = value * 10 + d;
        i = i + 1;
    }
    assert(digits.take(hi - lo) =~= digits);
    Some(value)
}

/// Reads a field element from a decimal numeral.
pub fn parse_fe(s: &str) -> (r: Result<BaseElement, String>)
    ensures
        match parsed(s@) {
            Some(e) => r is Ok && r->Ok_0 == e,
            None => r is Err && r->Err_0@ == parse_error(s@),
        },
{
    let chars = characters(s);
    let mut lo: usize = 0;
    while lo < chars.len() && is_white_space(chars[lo])
        invariant
            lo <= chars@.len(),
            forall|i: int| 0 <= i < lo ==> white_space(#[trigger] chars@[i]),
        decreases chars@.len() - lo,
    {
        lo = lo + 1;
    }
    let ghost rest = chars@.skip(lo as int);
    let mut hi: usize = chars.len();
    while hi > lo && is_white_space(chars[hi - 1])
        invariant
            lo <= hi <= chars@.len(),
            rest == chars@.skip(lo as int),
            forall|i: int| hi - lo <= i < rest.len() ==> white_space(#[trigger] rest[i]),
        decreases hi,
    {
        assert(rest[hi - lo - 1] == chars@[hi - 1]);
        hi = hi - 1;
    }
    let ghost text = chars@.subrange(lo as int, hi as int);
    proof {
        lemma_trim_start(s@, lo as int);
        if hi > lo {
            assert(rest[hi - lo - 1] == chars@[hi - 1]);
        }
        lemma_trim_end(rest, hi - lo);
        assert(rest.take(hi - lo) =~= text);
    }
    let from: usize = if lo < hi && chars[lo] == '+' {
        lo + 1
    } else {
        lo
    };
    proof {
        let digits = if text.len() > 0 && text[0] == '+' {
            text.drop_first()
        } else {
            text
        };
        assert(digits =~= chars@.subrange(from as int, hi as int));
    }
    match parse_digits(&chars, from, hi) {
        Some(n) => Ok(BaseElement::new(n)),
        None => {
            let mut message = "could not parse '".to_owned();
            message.append(s);
            message.append("' as a u128 decimal integer");
            Err(message)
        },
    }
}

/// A decimal digit as a character.
pub open spec fn digit_char(d: int) -> char {
    ('0' as int + d) as char
}

/// The decimal numeral of a natural number, with no leading zero.
pub open spec fn numeral_of(n: int) -> Seq<char>
    decreases n,
{
    if n < 10 {
        seq![digit_char(n)]
    } else {
        numeral_of(n / 10).push(digit_char(n % 10))
    }
}

/// A digit as text.
fn digit_text(d: u8) -> (r: &'static str)
    requires
        d < 10,
    ensures
        r@ == seq![digit_char(d as int)],
{
    proof {
        reveal_strlit("0");
        reveal_strlit("1");
        reveal_strlit("2");
        reveal_strlit("3");
        reveal_strlit("4");
        reveal_strlit("5");
        reveal_strlit("6");
        reveal_strlit("7");
        reveal_strlit("8");
        reveal_strlit("9");
    }
    let r = if d == 0 {
        "0"
    } else if d == 1 {
        "1"
    } else if d == 2 {
        "2"
    } else if d == 3 {
        "3"
    } else if d == 4 {
        "4"
    } else if d == 5 {
        "5"
    } else if d == 6 {
        "6"
    } else if d == 7 {
        "7"
    } else if d == 8 {
        "8"
    } else {
        "9"
    };
    assert(r@ =~= seq![digit_char(d as int)]);
    r
}

/// Writes a number as a decimal numeral.
fn write_numeral(n: u128) -> (r: String)
    ensures
        r@ == numeral_of(n as int),
    decreases n,
{
    if n < 10 {
        digit_text(n as u8).to_owned()
    } else {
        let mut r = write_numeral(n / 10);
        r.append(digit_text((n % 10) as u8));
        assert(r@ =~= numeral_of(n as int));
        r
    }
}

/// Writes a field element as the decimal numeral of its representative.
pub fn fe_to_string(v: BaseElement) -> (r: String)
    ensures
        r@ == numeral_of(v@),
{
    write_numeral(v.as_int())
}

/// A numeral is made of digits and has the number's value.
pub proof fn lemma_numeral_of(n: int)
    requires
        n >= 0,
    ensures
        numeral_of(n).len() > 0,
        all_digits(numeral_of(n)),
        digits_value(numeral_of(n)) == n,
    decreases n,
{
    reveal_with_fuel(digits_value, 2);
    if n < 10 {
        assert(numeral_of(n).drop_last() =~= Seq::<char>::empty());
    } else {
        lemma_numeral_of(n / 10);
        assert(numeral_of(n).drop_last() =~= numeral_of(n / 10));
    }
}

/// Writing an element and reading the text gives the element back.
pub proof fn law_text_round_trip(e: BaseElement)
    requires
        e.wf(),
    ensures
        parsed(numeral_of(e@)) == Some(e),
{
    let s = numeral_of(e@);
    lemma_numeral_of(e@);
    assert(digit(s[0]));
    assert(digit(s[s.len() - 1]));
    lemma_trim_start(s, 0);
    assert(s.skip(0) =~= s);
    lemma_trim_end(s, s.len() as int);
    assert(s.take(s.len() as int) =~= s);
    field::lemma_elem_of_view(e);
}

/// Numerals tell elements apart.
pub proof fn law_numerals_are_distinct(a: BaseElement, b: BaseElement)
    requires
        a.wf(),
        b.wf(),
        numeral_of(a@) == numeral_of(b@),
    ensures
        a == b,
{
    law_text_round_trip(a);
    law_text_round_trip(b);
}

} // verus!
