//! Binary encodings: fixed-width bit strings and the closed mnemonic
//! tables of the compute instruction.

use vstd::prelude::*;

verus! {

/// The sequence of `width` binary digit characters for `v`, most
/// significant digit first (`v` taken modulo `2^width`).
pub open spec fn bits(v: nat, width: nat) -> Seq<char>
    decreases width,
{
    if width == 0 {
        Seq::empty()
    } else {
        bits(v / 2, (width - 1) as nat).push(
            if v % 2 == 1 {
                '1'
            } else {
                '0'
            },
        )
    }
}

/// The numeric value of a sequence of binary digit characters,
/// most significant digit first (a digit other than '1' counts 0).
pub open spec fn bits_val(s: Seq<char>) -> nat
    decreases s.len(),
{
    if s.len() == 0 {
        0
    } else {
        2 * bits_val(s.drop_last()) + (if s.last() == '1' {
            1nat
        } else {
            0nat
        })
    }
}

pub open spec fn two_pow(w: nat) -> nat
    decreases w,
{
    if w == 0 {
        1
    } else {
        2 * two_pow((w - 1) as nat)
    }
}

pub proof fn lemma_bits_len(v: nat, width: nat)
    ensures
        bits(v, width).len() == width,
    decreases width,
{
    if width > 0 {
        lemma_bits_len(v / 2, (width - 1) as nat);
    }
}

/// Decoding inverts encoding: the value of the `width`-bit string of
/// any `v < 2^width` is `v` itself.
pub proof fn lemma_bits_round_trip(v: nat, width: nat)
    requires
        v < two_pow(width),
    ensures
        bits_val(bits(v, width)) == v,
    decreases width,
{
    if width > 0 {
        assert(v / 2 < two_pow((width - 1) as nat));
        lemma_bits_round_trip(v / 2, (width - 1) as nat);
        lemma_bits_len(v / 2, (width - 1) as nat);
        assert(bits(v, width).drop_last() =~= bits(v / 2, (width - 1) as nat));
    }
}

/// A value below `2^width` encoded in `width + 1` bits carries a
/// leading zero digit.
pub proof fn lemma_bits_leading_zero(v: nat, width: nat)
    requires
        v < two_pow(width),
    ensures
        bits(v, (width + 1) as nat) =~= seq!['0'] + bits(v, width),
    decreases width,
{
    if width == 0 {
        assert(bits(0, 1) =~= seq!['0']);
    } else {
        assert(v / 2 < two_pow((width - 1) as nat));
        lemma_bits_leading_zero(v / 2, (width - 1) as nat);
        lemma_bits_len(v / 2, (width - 1) as nat);
    }
}

pub proof fn lemma_two_pow_15()
    ensures
        two_pow(15) == 32768,
{
    assert(two_pow(15) == 32768) by {
        reveal_with_fuel(two_pow, 17);
    }
}

/// The `width` low binary digits of `v`, most significant first, as a
/// string of '0' and '1' characters.
pub fn to_bits(v: u32, width: usize) -> (r: String)
    ensures
        r@ == bits(v as nat, width as nat),
    decreases width,
{
    if width == 0 {
        let r = String::new();
        proof {
            assert(r@ =~= bits(v as nat, 0));
        }
        r
    } else {
        let mut r = to_bits(v / 2, width - 1);
        if v % 2 == 1 {
            r.append("1");
            proof {
                reveal_strlit("1");
                assert(r@ =~= bits(v as nat, width as nat));
            }
        } else {
            r.append("0");
            proof {
                reveal_strlit("0");
                assert(r@ =~= bits(v as nat, width as nat));
            }
        }
        r
    }
}

/// Round trip for address encodings: for any address `k` up to 32767,
/// the 16-bit encoding opens with a zero bit, and its remaining
/// fifteen bits are exactly the binary representation of `k`.
pub proof fn lemma_address_round_trip(k: nat)
    requires
        k <= 32767,
    ensures
        bits(k, 16).len() == 16,
        bits(k, 16)[0] == '0',
        bits_val(bits(k, 16).subrange(1, 16)) == k,
{
    lemma_two_pow_15();
    lemma_bits_leading_zero(k, 15);
    lemma_bits_len(k, 16);
    lemma_bits_len(k, 15);
    lemma_bits_round_trip(k, 15);
    assert(bits(k, 16).subrange(1, 16) =~= bits(k, 15));
}

/// Character-by-character string equality, decided without any trust
/// in derived comparison impls.
pub fn str_eq(a: &str, b: &str) -> (r: bool)
    ensures
        r == (a@ == b@),
{
    let alen = a.unicode_len();
    let blen = b.unicode_len();
    if alen != blen {
        return false;
    }
    let mut i: usize = 0;
    while i < alen
        invariant
            alen == a@.len(),
            blen == b@.len(),
            alen == blen,
            i <= alen,
            forall|j: int| 0 <= j < i ==> a@[j] == b@[j],
        decreases alen - i,
    {
        if a.get_char(i) != b.get_char(i) {
            return false;
        }
        i += 1;
    }
    proof {
        assert(a@ =~= b@);
    }
    true
}

/// The closed destination table: three bits naming the registers that
/// receive the operation's result.
pub open spec fn spec_dest_code(s: Seq<char>) -> Option<u8> {
    if s.len() == 0 {
        Some(0b000u8)
    } else if s == "M"@ {
        Some(0b001u8)
    } else if s == "D"@ {
        Some(0b010u8)
    } else if s == "MD"@ {
        Some(0b011u8)
    } else if s == "A"@ {
        Some(0b100u8)
    } else if s == "AM"@ {
        Some(0b101u8)
    } else if s == "AD"@ {
        Some(0b110u8)
    } else if s == "AMD"@ {
        Some(0b111u8)
    } else {
        None
    }
}

/// The closed jump table: three bits naming the jump condition.
pub open spec fn spec_jump_code(s: Seq<char>) -> Option<u8> {
    if s.len() == 0 {
        Some(0b000u8)
    } else if s == "JGT"@ {
        Some(0b001u8)
    } else if s == "JEQ"@ {
        Some(0b010u8)
    } else if s == "JGE"@ {
        Some(0b011u8)
    } else if s == "JLT"@ {
        Some(0b100u8)
    } else if s == "JNE"@ {
        Some(0b101u8)
    } else if s == "JLE"@ {
        Some(0b110u8)
    } else if s == "JMP"@ {
        Some(0b111u8)
    } else {
        None
    }
}

/// The closed operation table: seven bits selecting the computed value.
pub open spec fn spec_comp_code(s: Seq<char>) -> Option<u8> {
    if s == "0"@ {
        Some(0b0101010u8)
    } else if s == "1"@ {
        Some(0b0111111u8)
    } else if s == "-1"@ {
        Some(0b0111010u8)
    } else if s == "D"@ {
        Some(0b0001100u8)
    } else if s == "A"@ {
        Some(0b0110000u8)
    } else if s == "!D"@ {
        Some(0b0001101u8)
    } else if s == "!A"@ {
        Some(0b0110001u8)
    } else if s == "-D"@ {
        Some(0b0001111u8)
    } else if s == "-A"@ {
        Some(0b0110011u8)
    } else if s == "D+1"@ {
        Some(0b0011111u8)
    } else if s == "A+1"@ {
        Some(0b0110111u8)
    } else if s == "D-1"@ {
        Some(0b0001110u8)
    } else if s == "A-1"@ {
        Some(0b0110010u8)
    } else if s == "D+A"@ {
        Some(0b0000010u8)
    } else if s == "D-A"@ {
        Some(0b0010011u8)
    } else if s == "A-D"@ {
        Some(0b0000111u8)
    } else if s == "D&A"@ {
        Some(0b0000000u8)
    } else if s == "D|A"@ {
        Some(0b0010101u8)
    } else if s == "M"@ {
        Some(0b1110000u8)
    } else if s == "!M"@ {
        Some(0b1110001u8)
    } else if s == "-M"@ {
        Some(0b1110011u8)
    } else if s == "M+1"@ {
        Some(0b1110111u8)
    } else if s == "M-1"@ {
        Some(0b1110010u8)
    } else if s == "D+M"@ {
        Some(0b1000010u8)
    } else if s == "D-M"@ {
        Some(0b1010011u8)
    } else if s == "M-D"@ {
        Some(0b1000111u8)
    } else if s == "D&M"@ {
        Some(0b1000000u8)
    } else if s == "D|M"@ {
        Some(0b1010101u8)
    } else {
        None
    }
}

pub fn dest_code(s: &str) -> (r: Option<u8>)
    ensures
        r == spec_dest_code(s@),
{
    if s.is_empty() {
        Some(0b000u8)
    } else if str_eq(s, "M") {
        Some(0b001u8)
    } else if str_eq(s, "D") {
        Some(0b010u8)
    } else if str_eq(s, "MD") {
        Some(0b011u8)
    } else if str_eq(s, "A") {
        Some(0b100u8)
    } else if str_eq(s, "AM") {
        Some(0b101u8)
    } else if str_eq(s, "AD") {
        Some(0b110u8)
    } else if str_eq(s, "AMD") {
        Some(0b111u8)
    } else {
        None
    }
}

pub fn jump_code(s: &str) -> (r: Option<u8>)
    ensures
        r == spec_jump_code(s@),
{
    if s.is_empty() {
        Some(0b000u8)
    } else if str_eq(s, "JGT") {
        Some(0b001u8)
    } else if str_eq(s, "JEQ") {
        Some(0b010u8)
    } else if str_eq(s, "JGE") {
        Some(0b011u8)
    } else if str_eq(s, "JLT") {
        Some(0b100u8)
    } else if str_eq(s, "JNE") {
        Some(0b101u8)
    } else if str_eq(s, "JLE") {
        Some(0b110u8)
    } else if str_eq(s, "JMP") {
        Some(0b111u8)
    } else {
        None
    }
}

pub fn comp_code(s: &str) -> (r: Option<u8>)
    ensures
        r == spec_comp_code(s@),
{
    if str_eq(s, "0") {
        Some(0b0101010u8)
    } else if str_eq(s, "1") {
        Some(0b0111111u8)
    } else if str_eq(s, "-1") {
        Some(0b0111010u8)
    } else if str_eq(s, "D") {
        Some(0b0001100u8)
    } else if str_eq(s, "A") {
        Some(0b0110000u8)
    } else if str_eq(s, "!D") {
        Some(0b0001101u8)
    } else if str_eq(s, "!A") {
        Some(0b0110001u8)
    } else if str_eq(s, "-D") {
        Some(0b0001111u8)
    } else if str_eq(s, "-A") {
        Some(0b0110011u8)
    } else if str_eq(s, "D+1") {
        Some(0b0011111u8)
    } else if str_eq(s, "A+1") {
        Some(0b0110111u8)
    } else if str_eq(s, "D-1") {
        Some(0b0001110u8)
    } else if str_eq(s, "A-1") {
        Some(0b0110010u8)
    } else if str_eq(s, "D+A") {
        Some(0b0000010u8)
    } else if str_eq(s, "D-A") {
        Some(0b0010011u8)
    } else if str_eq(s, "A-D") {
        Some(0b0000111u8)
    } else if str_eq(s, "D&A") {
        Some(0b0000000u8)
    } else if str_eq(s, "D|A") {
        Some(0b0010101u8)
    } else if str_eq(s, "M") {
        Some(0b1110000u8)
    } else if str_eq(s, "!M") {
        Some(0b1110001u8)
    } else if str_eq(s, "-M") {
        Some(0b1110011u8)
    } else if str_eq(s, "M+1") {
        Some(0b1110111u8)
    } else if str_eq(s, "M-1") {
        Some(0b1110010u8)
    } else if str_eq(s, "D+M") {
        Some(0b1000010u8)
    } else if str_eq(s, "D-M") {
        Some(0b1010011u8)
    } else if str_eq(s, "M-D") {
        Some(0b1000111u8)
    } else if str_eq(s, "D&M") {
        Some(0b1000000u8)
    } else if str_eq(s, "D|M") {
        Some(0b1010101u8)
    } else {
        None
    }
}

/// The fixed compute-instruction layout: literal `111`, then the
/// 7-bit operation field, the 3-bit destination field and the 3-bit
/// jump field.
pub open spec fn word_of_codes(c: u8, d: u8, j: u8) -> Seq<char> {
    seq!['1', '1', '1'] + bits(c as nat, 7) + bits(d as nat, 3) + bits(j as nat, 3)
}

} // verus!
