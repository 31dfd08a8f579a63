//! Numbers as texts, and the text of a call.

use vstd::arithmetic::power::*;
use vstd::prelude::*;

use crate::air::PublicInputs;
use crate::cli;
use crate::cli::candid_args;
use crate::decimal;
use crate::decimal::{fe_to_string, is_white_space, parse_fe};
use crate::field;
use crate::field::BaseElement;
use crate::hexadecimal;

verus! {

/// The number that decimal digits spell out: each digit times the power of ten of its
/// place.
pub open spec fn place_value(digits: Seq<char>) -> int
    decreases digits.len(),
{
    if digits.len() == 0 {
        0
    } else {
        (digits[0] as int - 48) * pow(10, (digits.len() - 1) as nat) + place_value(
            digits.drop_first(),
        )
    }
}

/// Whether a text is made of the digits from `0` to `9` alone.
pub open spec fn digits_only(s: Seq<char>) -> bool {
    forall|i: int| 0 <= i < s.len() ==> 48 <= (#[trigger] s[i]) as int <= 57
}

/// Whether a text is made of white space alone.
pub open spec fn blank(s: Seq<char>) -> bool {
    forall|i: int| 0 <= i < s.len() ==> decimal::white_space(#[trigger] s[i])
}

/// What counts as white space: the characters that Unicode gives this property.
pub proof fn law_white_space(c: char, r: bool)
    requires
        call_ensures(is_white_space, (c,), r),
    ensures
        r <==> {
            ||| 9 <= c as int <= 13
            ||| c as int == 32
            ||| c as int == 0x85
            ||| c as int == 0xa0
            ||| c as int == 0x1680
            ||| 0x2000 <= c as int <= 0x200a
            ||| c as int == 0x2028
            ||| c as int == 0x2029
            ||| c as int == 0x202f
            ||| c as int == 0x205f
            ||| c as int == 0x3000
        },
        r == decimal::white_space(c),
{
}

proof fn lemma_place_value_push(s: Seq<char>, c: char)
    ensures
        place_value(s.push(c)) == 10 * place_value(s) + (c as int - 48),
    decreases s.len(),
{
    reveal_with_fuel(place_value, 2);
    if s.len() == 0 {
        lemma_pow0(10);
        assert(s.push(c).drop_first() =~= Seq::<char>::empty());
    } else {
        let n = s.len();
        assert(s.push(c).drop_first() =~= s.drop_first().push(c));
        lemma_place_value_push(s.drop_first(), c);
        lemma_pow_adds(10, 1, (n - 1) as nat);
        lemma_pow1(10);
        let d = s[0] as int - 48;
        let q = pow(10, (n - 1) as nat);
        assert(pow(10, n as nat) == 10 * q);
        assert(d * (10 * q) == 10 * (d * q)) by (nonlinear_arith);
    }
}

proof fn lemma_place_value(s: Seq<char>)
    ensures
        place_value(s) == decimal::digits_value(s),
    decreases s.len(),
{
    if s.len() > 0 {
        lemma_place_value(s.drop_last());
        lemma_place_value_push(s.drop_last(), s.last());
        assert(s.drop_last().push(s.last()) =~= s);
    }
}

/// The parts of a text that is a numeral: white space, a plus sign or none, digits, and
/// white space.
pub open spec fn made_of(
    s: Seq<char>,
    lead: Seq<char>,
    plus: bool,
    digits: Seq<char>,
    trail: Seq<char>,
) -> bool {
    &&& s == lead + (if plus {
        seq!['+']
    } else {
        Seq::empty()
    }) + digits + trail
    &&& blank(lead)
    &&& blank(trail)
    &&& digits.len() > 0
    &&& digits_only(digits)
}

proof fn lemma_trimmed(
    s: Seq<char>,
    lead: Seq<char>,
    plus: bool,
    digits: Seq<char>,
    trail: Seq<char>,
)
    requires
        made_of(s, lead, plus, digits, trail),
    ensures
        decimal::trimmed(s) == (if plus {
            seq!['+']
        } else {
            Seq::empty()
        }) + digits,
{
    let core = (if plus {
        seq!['+']
    } else {
        Seq::empty()
    }) + digits;
    assert(s =~= lead + core + trail);
    let from = lead.len() as int;
    assert forall|i: int| 0 <= i < from implies decimal::white_space(#[trigger] s[i]) by {
        assert(s[i] == lead[i]);
    }
    assert(s[from] == core[0]);
    assert(!decimal::white_space(core[0])) by {
        if !plus {
            assert(core[0] == digits[0]);
        }
    }
    decimal::lemma_trim_start(s, from);
    let rest = s.skip(from);
    assert(rest =~= core + trail);
    let to = core.len() as int;
    assert forall|i: int| to <= i < rest.len() implies decimal::white_space(#[trigger] rest[i]) by {
        assert(rest[i] == trail[i - to]);
    }
    assert(rest[to - 1] == digits[digits.len() - 1]);
    decimal::lemma_trim_end(rest, to);
    assert(rest.take(to) =~= core);
}

/// A text reads as a number exactly if it is digits, with white space around them and a
/// plus sign before them or not, whose number has at most 128 bits; it then reads as
/// the element of this number.
pub proof fn law_numerals(
    s: Seq<char>,
    lead: Seq<char>,
    plus: bool,
    digits: Seq<char>,
    trail: Seq<char>,
)
    requires
        made_of(s, lead, plus, digits, trail),
    ensures
        decimal::parsed(s) is Some <==> place_value(digits)
            < 0x1_0000_0000_0000_0000_0000_0000_0000_0000,
        decimal::parsed(s) is Some ==> decimal::parsed(s)->0@ == place_value(digits)
            % 340282366920938463463374557953744961537,
        decimal::parsed(s) is Some ==> decimal::parsed(s)->0.wf(),
{
    lemma_trimmed(s, lead, plus, digits, trail);
    lemma_place_value(digits);
    let core = decimal::trimmed(s);
    assert forall|i: int| 0 <= i < digits.len() implies decimal::digit(#[trigger] digits[i]) by {}
    if plus {
        assert(core.drop_first() =~= digits);
    } else {
        assert(core =~= digits);
        assert(decimal::digit(digits[0]));
    }
    field::lemma_elem_view(decimal::digits_value(digits));
}

/// The white space that a text begins with.
proof fn lemma_lead(s: Seq<char>) -> (n: int)
    ensures
        0 <= n <= s.len(),
        forall|i: int| 0 <= i < n ==> decimal::white_space(#[trigger] s[i]),
        decimal::trim_start(s) == s.skip(n),
    decreases s.len(),
{
    if s.len() > 0 && decimal::white_space(s[0]) {
        let m = lemma_lead(s.drop_first());
        assert forall|i: int| 0 <= i < m + 1 implies decimal::white_space(#[trigger] s[i]) by {
            if i > 0 {
                assert(s.drop_first()[i - 1] == s[i]);
            }
        }
        assert(s.drop_first().skip(m) =~= s.skip(m + 1));
        m + 1
    } else {
        assert(s.skip(0) =~= s);
        0
    }
}

/// The white space that a text ends with.
proof fn lemma_trail(s: Seq<char>) -> (n: int)
    ensures
        0 <= n <= s.len(),
        forall|i: int| n <= i < s.len() ==> decimal::white_space(#[trigger] s[i]),
        decimal::trim_end(s) == s.take(n),
    decreases s.len(),
{
    if s.len() > 0 && decimal::white_space(s.last()) {
        let m = lemma_trail(s.drop_last());
        assert forall|i: int| m <= i < s.len() implies decimal::white_space(#[trigger] s[i]) by {
            if i < s.len() - 1 {
                assert(s.drop_last()[i] == s[i]);
            }
        }
        assert(s.drop_last().take(m) =~= s.take(m));
        m
    } else {
        assert(s.take(s.len() as int) =~= s);
        s.len() as int
    }
}

/// Nothing but a numeral reads as a number: a text that does has these parts.
pub proof fn law_only_numerals_are_numbers(s: Seq<char>) -> (parts: (
    Seq<char>,
    bool,
    Seq<char>,
    Seq<char>,
))
    requires
        decimal::parsed(s) is Some,
    ensures
        made_of(s, parts.0, parts.1, parts.2, parts.3),
        place_value(parts.2) < 0x1_0000_0000_0000_0000_0000_0000_0000_0000,
{
    let from = lemma_lead(s);
    let rest = s.skip(from);
    let to = lemma_trail(rest);
    let core = rest.take(to);
    let plus = core.len() > 0 && core[0] == '+';
    let digits = if plus {
        core.drop_first()
    } else {
        core
    };
    let lead = s.take(from);
    let trail = rest.skip(to);
    assert forall|i: int| 0 <= i < digits.len() implies 48 <= (#[trigger] digits[i]) as int
        <= 57 by {
        assert(decimal::digit(digits[i]));
    }
    assert forall|i: int| 0 <= i < lead.len() implies decimal::white_space(#[trigger] lead[i]) by {
        assert(lead[i] == s[i]);
    }
    assert forall|i: int| 0 <= i < trail.len() implies decimal::white_space(#[trigger] trail[i]) by {
        assert(trail[i] == rest[to + i]);
    }
    if plus {
        assert(core =~= seq!['+'] + digits);
        assert(s =~= lead + seq!['+'] + digits + trail);
    } else {
        assert(s =~= lead + Seq::<char>::empty() + digits + trail);
    }
    lemma_place_value(digits);
    (lead, plus, digits, trail)
}

/// Reading a text gives the element that it reads as; a text that reads as none is
/// refused and named.
pub proof fn law_reading(s: &str, r: Result<BaseElement, String>)
    requires
        call_ensures(parse_fe, (s,), r),
    ensures
        r is Ok <==> decimal::parsed(s@) is Some,
        r is Ok ==> Some(r->Ok_0) == decimal::parsed(s@),
        r is Err ==> r->Err_0@ == "could not parse '"@ + s@ + "' as a u128 decimal integer"@,
{
}

/// Writing an element gives its number in decimal digits, without a leading zero unless
/// it is zero; reading this gives the element back.
pub proof fn law_writing(e: BaseElement, r: String)
    requires
        e.wf(),
        call_ensures(fe_to_string, (e,), r),
    ensures
        r@.len() > 0,
        digits_only(r@),
        place_value(r@) == e@,
        r@[0] == '0' ==> r@.len() == 1 && e@ == 0,
        decimal::parsed(r@) == Some(e),
        r@ == decimal::numeral_of(e@),
{
    decimal::lemma_numeral_of(e@);
    decimal::law_text_round_trip(e);
    lemma_place_value(r@);
    lemma_no_leading_zero(e@);
    assert forall|i: int| 0 <= i < r@.len() implies 48 <= (#[trigger] r@[i]) as int <= 57 by {
        assert(decimal::digit(r@[i]));
    }
}

proof fn lemma_no_leading_zero(n: int)
    requires
        n >= 0,
    ensures
        decimal::numeral_of(n).len() > 0,
        decimal::numeral_of(n)[0] == '0' ==> decimal::numeral_of(n).len() == 1 && n == 0,
    decreases n,
{
    if n >= 10 {
        lemma_no_leading_zero(n / 10);
    } else {
        assert(decimal::digit_char(n) as int == 48 + n);
    }
}

/// A hexadecimal digit of a value.
pub open spec fn hex_digit(v: int) -> char {
    seq!['0', '1', '2', '3', '4', '5', '6', '7', '8', '9', 'a', 'b', 'c', 'd', 'e', 'f'][v]
}

/// Whether a text is a blob of bytes: for each byte a backslash and its two hexadecimal
/// digits, the upper one first.
pub open spec fn blob_of(text: Seq<char>, bytes: Seq<u8>) -> bool {
    &&& text.len() == 3 * bytes.len()
    &&& forall|i: int| 0 <= i < bytes.len() ==> byte_at(text, #[trigger] bytes[i], 3 * i)
}

/// Whether a text has a byte at a place.
pub open spec fn byte_at(text: Seq<char>, byte: u8, at: int) -> bool {
    &&& text[at] == '\\'
    &&& text[at + 1] == hex_digit(byte as int / 16)
    &&& text[at + 2] == hex_digit(byte as int % 16)
}

proof fn lemma_blob(bytes: Seq<u8>)
    ensures
        blob_of(cli::escaped(bytes), bytes),
    decreases bytes.len(),
{
    reveal_strlit("\\");
    if bytes.len() > 0 {
        let rest = bytes.drop_last();
        lemma_blob(rest);
        let text = cli::escaped(bytes);
        assert(text =~= cli::escaped(rest) + "\\"@ + seq![
            hexadecimal::hex_char(bytes.last() as int / 16),
            hexadecimal::hex_char(bytes.last() as int % 16),
        ]);
        lemma_hex_digit(bytes.last() as int / 16);
        lemma_hex_digit(bytes.last() as int % 16);
        assert forall|i: int| 0 <= i < bytes.len() implies byte_at(text, #[trigger] bytes[i], 3 * i) by {
            if i < rest.len() {
                assert(byte_at(cli::escaped(rest), rest[i], 3 * i));
            }
        }
    }
}

proof fn lemma_hex_digit(v: int)
    requires
        0 <= v < 16,
    ensures
        hexadecimal::hex_char(v) == hex_digit(v),
{
    assert(hexadecimal::hex_char(v) as int == (if v < 10 {
        48 + v
    } else {
        87 + v
    }));
    assert(hex_digit(v) as int == (if v < 10 {
        48 + v
    } else {
        87 + v
    }));
}

/// The text of a call names the proof as a blob of all its bytes, and each public input
/// by its numeral, in this order; only the number of the challenge is left open.
pub proof fn law_arguments(
    bytes: &[u8],
    pi: &PublicInputs,
    r: String,
    registry: String,
    root: String,
    purpose: String,
    nonce: String,
    time: String,
    nullifier: String,
) -> (blob: Seq<char>)
    requires
        call_ensures(candid_args, (bytes, pi), r),
        call_ensures(fe_to_string, (pi.registry_id,), registry),
        call_ensures(fe_to_string, (pi.merkle_root,), root),
        call_ensures(fe_to_string, (pi.purpose,), purpose),
        call_ensures(fe_to_string, (pi.request_nonce,), nonce),
        call_ensures(fe_to_string, (pi.current_timestamp,), time),
        call_ensures(fe_to_string, (pi.nullifier,), nullifier),
    ensures
        blob_of(blob, bytes@),
        r@ == "({challengeId}, blob \""@ + blob + "\", record { registry_id = "@ + registry@
            + " : nat64; merkle_root = \""@ + root@ + "\"; purpose = "@ + purpose@
            + " : nat64; request_nonce = "@ + nonce@ + " : nat64; current_timestamp = "@ + time@
            + " : nat64; nullifier = \""@ + nullifier@ + "\" })"@,
{
    lemma_blob(bytes@);
    cli::escaped(bytes@)
}

} // verus!
