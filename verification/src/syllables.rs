//! The syllable configuration layer: for every syllable value, whether it
//! is operational, its group and operation number, and its listing text.

use vstd::prelude::*;
use crate::assembler::{is_op, ka_of, ko_of, mnemonic, mnemonic_of};
use crate::trit::Trit;
use crate::tryte::{Tryte, of_value};

verus! {

/// What the configuration layer knows of one syllable value.
pub struct SyllableInfo {
    /// k1 = k2 = 0.
    pub is_op_syllable: bool,
    /// k3 (−1 macro, 0 basic, +1 spec).
    pub op_group: i8,
    /// ko (trits 3..=5), −13..=13.
    pub op_code: i8,
    /// Listing text.
    pub mnemonic: String,
}

/// The entry of the syllable value `v`; `None` outside −364..=364.
pub fn info_by_value(v: i16) -> (r: Option<SyllableInfo>)
    ensures
        r is Some <==> -364 <= v <= 364,
        r matches Some(i) ==> {
            let t = of_value(v as int);
            &&& i.is_op_syllable == is_op(t)
            &&& i.op_group == t.trits[2].val()
            &&& i.op_code == ko_of(t)
            &&& i.mnemonic@ == mnemonic(t)
            &&& -13 <= i.op_code <= 13
            &&& -1 <= i.op_group <= 1
        },
{
    if v < -364 || v > 364 {
        return None;
    }
    let t = Tryte::from_i16(v);
    proof {
        crate::arith::lemma_wrap_small(v as int, 729);
        crate::tryte::lemma_of_value(t);
        crate::registers::lemma_field_range(t.trits@, 3, 5);
        crate::arith::lemma_pow3_small();
    }
    let code = match crate::assembler::decode(&t) {
        crate::assembler::Syllable::Op { code, .. } => code,
        crate::assembler::Syllable::Addr { .. } => ko_field(&t),
    };
    Some(SyllableInfo {
        is_op_syllable: t.trits[0] == Trit::Z && t.trits[1] == Trit::Z,
        op_group: t.trits[2].to_i8(),
        op_code: code,
        mnemonic: mnemonic_of(&t),
    })
}

/// ko of any syllable.
fn ko_field(t: &Tryte) -> (r: i8)
    ensures
        r == ko_of(*t),
{
    let v = t.trits[3].to_i8() * 9 + t.trits[4].to_i8() * 3 + t.trits[5].to_i8();
    assert(ko_of(*t) == t.trits[3].val() * 9 + t.trits[4].val() * 3 + t.trits[5].val()) by {
        reveal_with_fuel(crate::registers::field_val, 4);
    }
    v
}

} // verus!
