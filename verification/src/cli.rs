//! What the command line writes: the arguments of a call that submits a proof.

use vstd::prelude::*;
use vstd::string::*;

use crate::air::PublicInputs;
use crate::decimal;
use crate::decimal::fe_to_string;
use crate::hexadecimal;
use crate::hexadecimal::hex_text;

verus! {

/// Bytes as a quoted blob has them: each as a backslash and two hexadecimal digits.
pub open spec fn escaped(bytes: Seq<u8>) -> Seq<char>
    decreases bytes.len(),
{
    if bytes.len() == 0 {
        Seq::empty()
    } else {
        escaped(bytes.drop_last()) + "\\"@ + seq![
            hexadecimal::hex_char(bytes.last() as int / 16),
            hexadecimal::hex_char(bytes.last() as int % 16),
        ]
    }
}

/// The arguments of the call, with the challenge's number left open.
pub open spec fn verify_args(bytes: Seq<u8>, pi: PublicInputs) -> Seq<char> {
    "({challengeId}, blob \""@ + escaped(bytes) + "\", record { registry_id = "@
        + decimal::numeral_of(pi.registry_id@) + " : nat64; merkle_root = \""@
        + decimal::numeral_of(pi.merkle_root@) + "\"; purpose = "@ + decimal::numeral_of(
        pi.purpose@,
    ) + " : nat64; request_nonce = "@ + decimal::numeral_of(pi.request_nonce@)
        + " : nat64; current_timestamp = "@ + decimal::numeral_of(pi.current_timestamp@)
        + " : nat64; nullifier = \""@ + decimal::numeral_of(pi.nullifier@) + "\" })"@
}

/// Bytes as a quoted blob has them.
fn escape(bytes: &[u8]) -> (r: String)
    ensures
        r@ == escaped(bytes@),
{
    let mut r = String::new();
    let mut i: usize = 0;
    assert(bytes@.take(0) =~= Seq::<u8>::empty());
    while i < bytes.len()
        invariant
            i <= bytes@.len(),
            r@ == escaped(bytes@.take(i as int)),
        decreases bytes@.len() - i,
    {
        assert(bytes@.take(i + 1).drop_last() =~= bytes@.take(i as int));
        let ghost before = r@;
        r.append("\\");
        r.append(hex_text(bytes[i] / 16));
        r.append(hex_text(bytes[i] % 16));
        i = i + 1;
        assert(r@ =~= before + "\\"@ + seq![
            hexadecimal::hex_char(bytes@[i - 1] as int / 16),
            hexadecimal::hex_char(bytes@[i - 1] as int % 16),
        ]);
    }
    assert(bytes@.take(i as int) =~= bytes@);
    r
}

/// The arguments of a call that submits a proof of the given statement; whoever
/// calls puts in the number of the challenge.
pub fn candid_args(proof_bytes: &[u8], pi: &PublicInputs) -> (r: String)
    ensures
        r@ == verify_args(proof_bytes@, *pi),
{
    let mut r = "({challengeId}, blob \"".to_owned();
    r.append(escape(proof_bytes).as_str());
    r.append("\", record { registry_id = ");
    r.append(fe_to_string(pi.registry_id).as_str());
    r.append(" : nat64; merkle_root = \"");
    r.append(fe_to_string(pi.merkle_root).as_str());
    r.append("\"; purpose = ");
    r.append(fe_to_string(pi.purpose).as_str());
    r.append(" : nat64; request_nonce = ");
    r.append(fe_to_string(pi.request_nonce).as_str());
    r.append(" : nat64; current_timestamp = ");
    r.append(fe_to_string(pi.current_timestamp).as_str());
    r.append(" : nat64; nullifier = \"");
    r.append(fe_to_string(pi.nullifier).as_str());
    r.append("\" })");
    r
}

} // verus!
