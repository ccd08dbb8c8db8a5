//! The two executable instruction forms and their 16-bit encodings.

use vstd::prelude::*;
use crate::code::{
    bits, comp_code, dest_code, jump_code, spec_comp_code, spec_dest_code, spec_jump_code, to_bits,
    word_of_codes,
};
use crate::error::ErrorKind;

verus! {

/// An address instruction: its operand already resolved to a numeric
/// address that fits the 15-bit address field.
pub struct AInstruction {
    pub value: u16,
}

impl AInstruction {
    /// The resolved address fits in 15 bits.
    pub open spec fn wf(self) -> bool {
        self.value <= 32767
    }

    pub fn new(value: u16) -> (r: AInstruction)
        requires
            value <= 32767,
        ensures
            r.value == value,
            r.wf(),
    {
        AInstruction { value }
    }

    /// The 16-bit encoding: a leading zero bit, then the fifteen-bit
    /// unsigned representation of the address.
    pub fn parse(&self) -> (r: String)
        requires
            self.wf(),
        ensures
            r@ == bits(self.value as nat, 16),
    {
        to_bits(self.value as u32, 16)
    }
}

/// A compute instruction: destination and jump mnemonics (possibly
/// empty) around a mandatory operation mnemonic. Mnemonics are not
/// validated at construction; encoding checks them against the closed
/// tables.
pub struct CInstruction {
    pub dest: String,
    pub comp: String,
    pub jump: String,
}

impl CInstruction {
    pub fn new(dest: String, comp: String, jump: String) -> (r: CInstruction)
        ensures
            r.dest@ == dest@,
            r.comp@ == comp@,
            r.jump@ == jump@,
    {
        CInstruction { dest, comp, jump }
    }

    /// All three mnemonics are present in their closed tables.
    pub open spec fn encodable(self) -> bool {
        spec_dest_code(self.dest@) is Some && spec_comp_code(self.comp@) is Some
            && spec_jump_code(self.jump@) is Some
    }

    /// The 16-bit encoding `111` + operation + destination + jump, or
    /// the first unrecognized mnemonic (checked in destination,
    /// operation, jump order).
    pub fn parse(&self) -> (r: Result<String, ErrorKind>)
        ensures
            r is Ok <==> self.encodable(),
            r is Ok ==> r->Ok_0@ == word_of_codes(
                spec_comp_code(self.comp@)->Some_0,
                spec_dest_code(self.dest@)->Some_0,
                spec_jump_code(self.jump@)->Some_0,
            ),
            r is Err ==> r->Err_0@ == (crate::error::ErrorKindSpec::InvalidMnemonic(
                if spec_dest_code(self.dest@) is None {
                    self.dest@
                } else if spec_comp_code(self.comp@) is None {
                    self.comp@
                } else {
                    self.jump@
                },
            )),
    {
        let d = match dest_code(self.dest.as_str()) {
            Some(d) => d,
            None => {
                return Err(ErrorKind::InvalidMnemonic(self.dest.clone()));
            },
        };
        let c = match comp_code(self.comp.as_str()) {
            Some(c) => c,
            None => {
                return Err(ErrorKind::InvalidMnemonic(self.comp.clone()));
            },
        };
        let j = match jump_code(self.jump.as_str()) {
            Some(j) => j,
            None => {
                return Err(ErrorKind::InvalidMnemonic(self.jump.clone()));
            },
        };
        let mut r = String::from_str("111");
        let cb = to_bits(c as u32, 7);
        let db = to_bits(d as u32, 3);
        let jb = to_bits(j as u32, 3);
        r.append(cb.as_str());
        r.append(db.as_str());
        r.append(jb.as_str());
        proof {
            reveal_strlit("111");
            assert(r@ =~= word_of_codes(c, d, j));
        }
        Ok(r)
    }
}

} // verus!
