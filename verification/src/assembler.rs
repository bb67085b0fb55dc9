//! Syllable disassembler and assembler, page dumps and state tracing.
//!
//! Notation: operational syllables print as their mnemonics (`LST`,
//! `S+T`, `COPYG1`, ...); a macro syllable prints as `MACRO @ka`; an
//! address syllable prints as `Ref<len> h[<k2>]@<ka>`: a reference of
//! `len` = k1 + 2 syllables whose senior sits at `ka` on page h[k2].

use vstd::prelude::*;
use crate::registers::{Mode, OpGroup, Registers, field_val};
use crate::memory::{ADDR_MAX, ADDR_MIN, Memory1, ram_page, valid_addr, valid_page};
use crate::machine::{Machine, s_word, t_word};
use crate::arith::pow3;
use crate::trit::Trit;
use crate::tryte::{Tryte, high_part, low_trit};
use crate::util::{dec_str, push_char, push_decimal};

verus! {

/// BASIC mnemonics B1..B27 (ko −13..=+13).
pub const BAS_NAMES: [&'static str; 27] = [
    "LST", "COT", "XNN", "E-1", "E=0", "E+1", "T-E", "E=T", "T+E",
    "CLT", "CET", "CGT", "T=C", "R=T", "C=T", "T=W", "YFT", "W=S",
    "SMT", "Y=T", "SAT", "S-T", "TDN", "S+T", "LBT", "L*T", "LHT",
];

/// SPEC mnemonics S1..S27 (ko −13..=+13).
pub const SPEC_NAMES: [&'static str; 27] = [
    "COPYG1", "COPYG2", "COPYG3", "COPYF1", "COPYF2", "COPYF3", "LOADQ1", "LOADQ2", "LOADQ3",
    "COPYP", "EXCHP", "LOADP", "COPYMC", "RETNMC", "LOADMC", "LOADH1", "LOADH2", "LOADH3",
    "LOADU1", "LOADU2", "LOADU3", "LOADF1", "LOADF2", "LOADF3", "LOADG1", "LOADG2", "LOADG3",
];

/// BASIC mnemonic `i` (ko = i − 13).
pub open spec fn bas_name(i: int) -> Seq<char> {
    if i == 0 {
        seq!['L', 'S', 'T']
    } else if i == 1 {
        seq!['C', 'O', 'T']
    } else if i == 2 {
        seq!['X', 'N', 'N']
    } else if i == 3 {
        seq!['E', '-', '1']
    } else if i == 4 {
        seq!['E', '=', '0']
    } else if i == 5 {
        seq!['E', '+', '1']
    } else if i == 6 {
        seq!['T', '-', 'E']
    } else if i == 7 {
        seq!['E', '=', 'T']
    } else if i == 8 {
        seq!['T', '+', 'E']
    } else if i == 9 {
        seq!['C', 'L', 'T']
    } else if i == 10 {
        seq!['C', 'E', 'T']
    } else if i == 11 {
        seq!['C', 'G', 'T']
    } else if i == 12 {
        seq!['T', '=', 'C']
    } else if i == 13 {
        seq!['R', '=', 'T']
    } else if i == 14 {
        seq!['C', '=', 'T']
    } else if i == 15 {
        seq!['T', '=', 'W']
    } else if i == 16 {
        seq!['Y', 'F', 'T']
    } else if i == 17 {
        seq!['W', '=', 'S']
    } else if i == 18 {
        seq!['S', 'M', 'T']
    } else if i == 19 {
        seq!['Y', '=', 'T']
    } else if i == 20 {
        seq!['S', 'A', 'T']
    } else if i == 21 {
        seq!['S', '-', 'T']
    } else if i == 22 {
        seq!['T', 'D', 'N']
    } else if i == 23 {
        seq!['S', '+', 'T']
    } else if i == 24 {
        seq!['L', 'B', 'T']
    } else if i == 25 {
        seq!['L', '*', 'T']
    } else if i == 26 {
        seq!['L', 'H', 'T']
    } else {
        Seq::empty()
    }
}

/// SPEC mnemonic `i` (ko = i − 13).
pub open spec fn spec_name(i: int) -> Seq<char> {
    if i == 0 {
        seq!['C', 'O', 'P', 'Y', 'G', '1']
    } else if i == 1 {
        seq!['C', 'O', 'P', 'Y', 'G', '2']
    } else if i == 2 {
        seq!['C', 'O', 'P', 'Y', 'G', '3']
    } else if i == 3 {
        seq!['C', 'O', 'P', 'Y', 'F', '1']
    } else if i == 4 {
        seq!['C', 'O', 'P', 'Y', 'F', '2']
    } else if i == 5 {
        seq!['C', 'O', 'P', 'Y', 'F', '3']
    } else if i == 6 {
        seq!['L', 'O', 'A', 'D', 'Q', '1']
    } else if i == 7 {
        seq!['L', 'O', 'A', 'D', 'Q', '2']
    } else if i == 8 {
        seq!['L', 'O', 'A', 'D', 'Q', '3']
    } else if i == 9 {
        seq!['C', 'O', 'P', 'Y', 'P']
    } else if i == 10 {
        seq!['E', 'X', 'C', 'H', 'P']
    } else if i == 11 {
        seq!['L', 'O', 'A', 'D', 'P']
    } else if i == 12 {
        seq!['C', 'O', 'P', 'Y', 'M', 'C']
    } else if i == 13 {
        seq!['R', 'E', 'T', 'N', 'M', 'C']
    } else if i == 14 {
        seq!['L', 'O', 'A', 'D', 'M', 'C']
    } else if i == 15 {
        seq!['L', 'O', 'A', 'D', 'H', '1']
    } else if i == 16 {
        seq!['L', 'O', 'A', 'D', 'H', '2']
    } else if i == 17 {
        seq!['L', 'O', 'A', 'D', 'H', '3']
    } else if i == 18 {
        seq!['L', 'O', 'A', 'D', 'U', '1']
    } else if i == 19 {
        seq!['L', 'O', 'A', 'D', 'U', '2']
    } else if i == 20 {
        seq!['L', 'O', 'A', 'D', 'U', '3']
    } else if i == 21 {
        seq!['L', 'O', 'A', 'D', 'F', '1']
    } else if i == 22 {
        seq!['L', 'O', 'A', 'D', 'F', '2']
    } else if i == 23 {
        seq!['L', 'O', 'A', 'D', 'F', '3']
    } else if i == 24 {
        seq!['L', 'O', 'A', 'D', 'G', '1']
    } else if i == 25 {
        seq!['L', 'O', 'A', 'D', 'G', '2']
    } else if i == 26 {
        seq!['L', 'O', 'A', 'D', 'G', '3']
    } else {
        Seq::empty()
    }
}

fn bas_name_str(i: usize) -> (r: &'static str)
    requires
        i < 27,
    ensures
        r@ == bas_name(i as int),
{
    proof {
        reveal_strlit("LST");
        reveal_strlit("COT");
        reveal_strlit("XNN");
        reveal_strlit("E-1");
        reveal_strlit("E=0");
        reveal_strlit("E+1");
        reveal_strlit("T-E");
        reveal_strlit("E=T");
        reveal_strlit("T+E");
        reveal_strlit("CLT");
        reveal_strlit("CET");
        reveal_strlit("CGT");
        reveal_strlit("T=C");
        reveal_strlit("R=T");
        reveal_strlit("C=T");
        reveal_strlit("T=W");
        reveal_strlit("YFT");
        reveal_strlit("W=S");
        reveal_strlit("SMT");
        reveal_strlit("Y=T");
        reveal_strlit("SAT");
        reveal_strlit("S-T");
        reveal_strlit("TDN");
        reveal_strlit("S+T");
        reveal_strlit("LBT");
        reveal_strlit("L*T");
        reveal_strlit("LHT");
    }
    match i {
        0 => "LST",
        1 => "COT",
        2 => "XNN",
        3 => "E-1",
        4 => "E=0",
        5 => "E+1",
        6 => "T-E",
        7 => "E=T",
        8 => "T+E",
        9 => "CLT",
        10 => "CET",
        11 => "CGT",
        12 => "T=C",
        13 => "R=T",
        14 => "C=T",
        15 => "T=W",
        16 => "YFT",
        17 => "W=S",
        18 => "SMT",
        19 => "Y=T",
        20 => "SAT",
        21 => "S-T",
        22 => "TDN",
        23 => "S+T",
        24 => "LBT",
        25 => "L*T",
        _ => "LHT",
    }
}

fn spec_name_str(i: usize) -> (r: &'static str)
    requires
        i < 27,
    ensures
        r@ == spec_name(i as int),
{
    proof {
        reveal_strlit("COPYG1");
        reveal_strlit("COPYG2");
        reveal_strlit("COPYG3");
        reveal_strlit("COPYF1");
        reveal_strlit("COPYF2");
        reveal_strlit("COPYF3");
        reveal_strlit("LOADQ1");
        reveal_strlit("LOADQ2");
        reveal_strlit("LOADQ3");
        reveal_strlit("COPYP");
        reveal_strlit("EXCHP");
        reveal_strlit("LOADP");
        reveal_strlit("COPYMC");
        reveal_strlit("RETNMC");
        reveal_strlit("LOADMC");
        reveal_strlit("LOADH1");
        reveal_strlit("LOADH2");
        reveal_strlit("LOADH3");
        reveal_strlit("LOADU1");
        reveal_strlit("LOADU2");
        reveal_strlit("LOADU3");
        reveal_strlit("LOADF1");
        reveal_strlit("LOADF2");
        reveal_strlit("LOADF3");
        reveal_strlit("LOADG1");
        reveal_strlit("LOADG2");
        reveal_strlit("LOADG3");
    }
    match i {
        0 => "COPYG1",
        1 => "COPYG2",
        2 => "COPYG3",
        3 => "COPYF1",
        4 => "COPYF2",
        5 => "COPYF3",
        6 => "LOADQ1",
        7 => "LOADQ2",
        8 => "LOADQ3",
        9 => "COPYP",
        10 => "EXCHP",
        11 => "LOADP",
        12 => "COPYMC",
        13 => "RETNMC",
        14 => "LOADMC",
        15 => "LOADH1",
        16 => "LOADH2",
        17 => "LOADH3",
        18 => "LOADU1",
        19 => "LOADU2",
        20 => "LOADU3",
        21 => "LOADF1",
        22 => "LOADF2",
        23 => "LOADF3",
        24 => "LOADG1",
        25 => "LOADG2",
        _ => "LOADG3",
    }
}

/// A decoded syllable.
#[derive(Clone, Copy, Debug, PartialEq, Eq)]
pub enum Syllable {
    /// k1 = k2 = 0.
    Op { group: OpGroup, code: i8 },
    /// Address syllable: `len` = k1 + 2 syllables whose senior sits at
    /// `ka` on page h[k2].
    Addr { len: u8, k2: Trit, ka: i8 },
}

/// The syllable is operational: k1 = k2 = 0.
pub open spec fn is_op(t: Tryte) -> bool {
    t.trits[0] == Trit::Z && t.trits[1] == Trit::Z
}

/// The operation number ko: trits 3..=5.
pub open spec fn ko_of(t: Tryte) -> int {
    field_val(t.trits@, 3, 5)
}

/// The address ka: trits 2..=5.
pub open spec fn ka_of(t: Tryte) -> int {
    field_val(t.trits@, 2, 5)
}

/// What `decode` gives for `t`.
pub open spec fn decoded(t: Tryte) -> Syllable {
    if is_op(t) {
        Syllable::Op { group: OpGroup::of_trit(t.trits[2]), code: ko_of(t) as i8 }
    } else {
        Syllable::Addr { len: (t.trits[0].val() + 2) as u8, k2: t.trits[1], ka: ka_of(t) as i8 }
    }
}

/// The sign of a page selector in `h[..]`.
pub open spec fn trit_sym(t: Trit) -> char {
    match t {
        Trit::N => '-',
        Trit::Z => '0',
        Trit::P => '+',
    }
}

/// The listing text of a syllable.
pub open spec fn mnemonic(t: Tryte) -> Seq<char> {
    if is_op(t) {
        match t.trits[2] {
            Trit::Z => bas_name(ko_of(t) + 13),
            Trit::P => spec_name(ko_of(t) + 13),
            Trit::N => "MACRO @"@ + dec_str(ka_of(t)),
        }
    } else {
        "Ref"@ + dec_str(t.trits[0].val() + 2) + " h["@ + seq![trit_sym(t.trits[1])] + "]@"@ + dec_str(
            ka_of(t),
        )
    }
}

/// The field `from..=to` of a syllable, most significant trit first.
fn field(t: &Tryte, from: usize, to: usize) -> (r: i8)
    requires
        from <= to <= 5,
        to - from <= 3,
    ensures
        r == field_val(t.trits@, from as int, to as int),
        -40 <= r <= 40,
{
    proof {
        crate::registers::lemma_field_range(t.trits@, from as int, to as int);
        crate::arith::lemma_pow3_small();
        crate::registers::lemma_pow3_mono((to - from + 1) as nat, 4);
    }
    let mut v: i8 = 0;
    let mut i: usize = from;
    while i <= to
        invariant
            from <= i <= to + 1,
            to <= 5,
            to - from <= 3,
            v == field_val(t.trits@, from as int, i - 1),
        decreases to + 1 - i,
    {
        proof {
            crate::registers::lemma_field_range(t.trits@, from as int, i as int);
            crate::registers::lemma_field_range(t.trits@, from as int, i - 1);
            crate::registers::lemma_pow3_mono((i - from + 1) as nat, 4);
            crate::arith::lemma_pow3_small();
            assert(-13 <= v <= 13) by {
                if i == from {
                } else if i == from + 1 {
                    assert(pow3(1) == 3);
                } else if i == from + 2 {
                    assert(pow3(2) == 9);
                } else {
                    assert(pow3(3) == 27);
                }
            }
        }
        v = v * 3 + t.trits[i].to_i8();
        i = i + 1;
    }
    v
}

/// Decodes a syllable.
pub fn decode(t: &Tryte) -> (r: Syllable)
    ensures
        r == decoded(*t),
{
    if t.trits[0] == Trit::Z && t.trits[1] == Trit::Z {
        Syllable::Op { group: OpGroup::from_trit(t.trits[2]), code: field(t, 3, 5) }
    } else {
        Syllable::Addr { len: (t.trits[0].to_i8() + 2) as u8, k2: t.trits[1], ka: field(t, 2, 5) }
    }
}

fn trit_char(t: Trit) -> (c: char)
    ensures
        c == trit_sym(t),
{
    match t {
        Trit::N => '-',
        Trit::Z => '0',
        Trit::P => '+',
    }
}

/// The listing text of a syllable, computed from its fields.
pub(crate) fn mnemonic_of(t: &Tryte) -> (r: String)
    ensures
        r@ == mnemonic(*t),
{
    proof {
        crate::registers::lemma_field_range(t.trits@, 3, 5);
        crate::arith::lemma_pow3_small();
    }
    let mut s = String::new();
    if t.trits[0] == Trit::Z && t.trits[1] == Trit::Z {
        let code = field(t, 3, 5);
        match t.trits[2] {
            Trit::Z => s.append(bas_name_str((code + 13) as usize)),
            Trit::P => s.append(spec_name_str((code + 13) as usize)),
            Trit::N => {
                s.append("MACRO @");
                push_decimal(&mut s, field(t, 2, 5) as i64);
            },
        }
    } else {
        s.append("Ref");
        push_decimal(&mut s, (t.trits[0].to_i8() + 2) as i64);
        s.append(" h[");
        push_char(&mut s, trit_char(t.trits[1]));
        s.append("]@");
        push_decimal(&mut s, field(t, 2, 5) as i64);
    }
    assert(s@ =~= mnemonic(*t));
    s
}

/// Formats a syllable for listings and traces through the syllable
/// configuration layer (`syllables::info_by_value`).
pub fn format_syllable(t: &Tryte) -> (r: String)
    ensures
        r@ == mnemonic(*t),
{
    proof {
        t.lemma_range();
        crate::tryte::lemma_of_value(*t);
    }
    match crate::syllables::info_by_value(t.to_i16()) {
        Some(info) => info.mnemonic,
        None => mnemonic_of(t),
    }
}

// ---------------------------------------------------------------------------
// Assembly: text -> syllable
// ---------------------------------------------------------------------------

/// Assembly error.
#[derive(Clone, Debug, PartialEq, Eq)]
pub enum AsmError {
    /// Not a mnemonic, not a Ref, not MACRO, not a value literal.
    Unknown(String),
    /// Malformed Ref/MACRO/value syntax.
    BadForm(String),
    /// The syllable cannot be represented (e.g. `Ref2 h[0]@..`: the
    /// k1 = 0 & k2 = 0 pattern is reserved for operational syllables).
    NotRepresentable(String),
}

/// An assembly error with its message as a character sequence.
pub enum AsmFault {
    Unknown(Seq<char>),
    BadForm(Seq<char>),
    NotRepresentable(Seq<char>),
}

impl AsmError {
    pub open spec fn fault(&self) -> AsmFault {
        match self {
            AsmError::Unknown(m) => AsmFault::Unknown(m@),
            AsmError::BadForm(m) => AsmFault::BadForm(m@),
            AsmError::NotRepresentable(m) => AsmFault::NotRepresentable(m@),
        }
    }
}

/// `char::is_whitespace`: the characters of the Unicode White_Space set.
pub open spec fn is_ws(c: char) -> bool {
    let u = c as u32;
    (9 <= u <= 13) || u == 32 || u == 0x85 || u == 0xa0 || u == 0x1680 || (0x2000 <= u <= 0x200a)
        || u == 0x2028 || u == 0x2029 || u == 0x202f || u == 0x205f || u == 0x3000
}

/// Number of leading whitespace characters.
pub open spec fn lead_ws(s: Seq<char>) -> nat
    decreases s.len(),
{
    if s.len() > 0 && is_ws(s[0]) {
        1 + lead_ws(s.drop_first())
    } else {
        0
    }
}

/// Number of trailing whitespace characters.
pub open spec fn trail_ws(s: Seq<char>) -> nat
    decreases s.len(),
{
    if s.len() > 0 && is_ws(s.last()) {
        1 + trail_ws(s.drop_last())
    } else {
        0
    }
}

/// Number of leading '@'.
pub open spec fn lead_ats(s: Seq<char>) -> nat
    decreases s.len(),
{
    if s.len() > 0 && s[0] == '@' {
        1 + lead_ats(s.drop_first())
    } else {
        0
    }
}

pub open spec fn trim_start(s: Seq<char>) -> Seq<char> {
    s.skip(lead_ws(s) as int)
}

pub open spec fn trim_end(s: Seq<char>) -> Seq<char> {
    s.take(s.len() - trail_ws(s))
}

/// `str::trim`.
pub open spec fn trim(s: Seq<char>) -> Seq<char> {
    trim_end(trim_start(s))
}

/// `str::trim_start_matches('@')`.
pub open spec fn strip_ats(s: Seq<char>) -> Seq<char> {
    s.skip(lead_ats(s) as int)
}

pub open spec fn starts_with(s: Seq<char>, p: Seq<char>) -> bool {
    p.len() <= s.len() && s.take(p.len() as int) == p
}

pub open spec fn is_digit(c: char) -> bool {
    48 <= (c as u32) <= 57
}

pub open spec fn digit_of(c: char) -> int {
    (c as u32) - 48
}

pub open spec fn all_digits(s: Seq<char>) -> bool {
    forall|i: int| 0 <= i < s.len() ==> is_digit(#[trigger] s[i])
}

/// The number a string of decimal digits spells.
pub open spec fn digits_value(s: Seq<char>) -> int
    decreases s.len(),
{
    if s.len() == 0 {
        0
    } else {
        digits_value(s.drop_last()) * 10 + digit_of(s.last())
    }
}

/// Integer text as `str::parse` reads it: an optional sign and at least
/// one decimal digit, nothing else.
pub open spec fn parse_int(s: Seq<char>) -> Option<int> {
    if s.len() > 0 && (s[0] == '-' || s[0] == '+') {
        let rest = s.drop_first();
        if rest.len() > 0 && all_digits(rest) {
            Some(
                if s[0] == '-' {
                    -digits_value(rest)
                } else {
                    digits_value(rest)
                },
            )
        } else {
            None
        }
    } else if s.len() > 0 && all_digits(s) {
        Some(digits_value(s))
    } else {
        None
    }
}

/// `parse_int` into an integer type with the range `lo..=hi`.
pub open spec fn parse_in(s: Seq<char>, lo: int, hi: int) -> Option<int> {
    match parse_int(s) {
        Some(v) => if lo <= v <= hi {
            Some(v)
        } else {
            None
        },
        None => None,
    }
}

/// Value of the three junior trits (3..=5) holding the field `x`.
pub open spec fn tail3(x: int) -> int {
    27 * low_trit(high_part(high_part(x))) + 81 * low_trit(high_part(x)) + 243 * low_trit(x)
}

/// Value of the operational syllable of group `g` and number `ko`.
pub open spec fn op_value(g: int, ko: int) -> int {
    9 * g + tail3(ko)
}

/// Value of the address syllable `Ref<len> h[k2]@ka`.
pub open spec fn ref_value(len: int, k2: int, ka: int) -> int {
    (len - 2) + 3 * k2 + 9 * low_trit(high_part(high_part(high_part(ka)))) + tail3(ka)
}

/// First BASIC mnemonic from `i` on equal to `s` (27 when none).
pub open spec fn find_bas(s: Seq<char>, i: int) -> int
    decreases 27 - i,
{
    if i >= 27 {
        27
    } else if bas_name(i) == s {
        i
    } else {
        find_bas(s, i + 1)
    }
}

/// First SPEC mnemonic from `i` on equal to `s` (27 when none).
pub open spec fn find_spec(s: Seq<char>, i: int) -> int
    decreases 27 - i,
{
    if i >= 27 {
        27
    } else if spec_name(i) == s {
        i
    } else {
        find_spec(s, i + 1)
    }
}

/// The message for a macro address outside −40..=−14.
pub open spec fn macro_message(ka: int) -> Seq<char> {
    "macro ka "@ + dec_str(ka) + " outside -40..=-14 (its senior trit is k3 = -1)"@
}

/// The text after `Ref<len>` and the blanks, where `h[` should stand.
pub open spec fn ref_rest(s: Seq<char>) -> Seq<char> {
    trim_start(s.skip(4))
}

/// Reading `Ref<len> h[<sym>]@<ka>` (`s` trimmed, starting with "Ref").
pub open spec fn parse_ref(s: Seq<char>) -> Result<int, AsmFault> {
    let bad = Err(AsmFault::BadForm(s));
    if s.len() <= 3 || !is_digit(s[3]) || !(1 <= digit_of(s[3]) <= 3) {
        bad
    } else {
        let len = digit_of(s[3]);
        let rest = ref_rest(s);
        if !starts_with(rest, "h["@) || rest.len() <= 2 || !(rest[2] == '-' || rest[2] == '0'
            || rest[2] == '+') {
            bad
        } else {
            let k2: int = if rest[2] == '-' {
                -1
            } else if rest[2] == '0' {
                0
            } else {
                1
            };
            let tail = rest.skip(3);
            if !starts_with(tail, "]@"@) {
                bad
            } else {
                match parse_in(trim(tail.skip(2)), -128, 127) {
                    None => bad,
                    Some(ka) => if !(-40 <= ka <= 40) {
                        bad
                    } else if len == 2 && k2 == 0 {
                        Err(
                            AsmFault::NotRepresentable(
                                s + ": k1 = 0 & k2 = 0 is the operational-syllable pattern"@,
                            ),
                        )
                    } else {
                        Ok(ref_value(len, k2, ka))
                    },
                }
            }
        }
    }
}

/// The page sign after `h[` is a character of more than one byte: the
/// byte-wise split of the text fails there.
pub open spec fn ref_split_fails(s: Seq<char>) -> bool {
    &&& s.len() > 3 && is_digit(s[3]) && 1 <= digit_of(s[3]) <= 3
    &&& starts_with(ref_rest(s), "h["@)
    &&& ref_rest(s).len() > 2
    &&& (ref_rest(s)[2] as u32) >= 128
}

/// Texts the assembler reads without failing.
pub open spec fn text_ok(src: Seq<char>) -> bool {
    !(starts_with(trim(src), "Ref"@) && ref_split_fails(trim(src)))
}

/// What `assemble_syllable` gives for `src`: the value of the syllable, or
/// the error.
pub open spec fn parse_syllable(src: Seq<char>) -> Result<int, AsmFault> {
    let s = trim(src);
    if s.len() > 0 && s[0] == '=' {
        match parse_in(trim(s.drop_first()), -32768, 32767) {
            Some(v) => if -364 <= v <= 364 {
                Ok(v)
            } else {
                Err(AsmFault::BadForm(s))
            },
            None => Err(AsmFault::BadForm(s)),
        }
    } else if starts_with(s, "MACRO"@) {
        match parse_in(trim(strip_ats(trim(s.skip(5)))), -128, 127) {
            Some(ka) => if -40 <= ka <= -14 {
                Ok(op_value(-1, ka))
            } else {
                Err(AsmFault::NotRepresentable(macro_message(ka)))
            },
            None => Err(AsmFault::BadForm(s)),
        }
    } else if starts_with(s, "Ref"@) {
        parse_ref(s)
    } else if find_bas(s, 0) < 27 {
        Ok(op_value(0, find_bas(s, 0) - 13))
    } else if find_spec(s, 0) < 27 {
        Ok(op_value(1, find_spec(s, 0) - 13))
    } else {
        Err(AsmFault::Unknown(s))
    }
}

fn is_ws_char(c: char) -> (r: bool)
    ensures
        r == is_ws(c),
{
    let u = c as u32;
    (9 <= u && u <= 13) || u == 32 || u == 0x85 || u == 0xa0 || u == 0x1680 || (0x2000 <= u && u
        <= 0x200a) || u == 0x2028 || u == 0x2029 || u == 0x202f || u == 0x205f || u == 0x3000
}

/// The characters of `src`.
fn chars_of(src: &str) -> (r: Vec<char>)
    ensures
        r@ == src@,
{
    let n = src.unicode_len();
    let mut v: Vec<char> = Vec::new();
    let mut i: usize = 0;
    while i < n
        invariant
            i <= n,
            n == src@.len(),
            v@ == src@.take(i as int),
        decreases n - i,
    {
        v.push(src.get_char(i));
        i = i + 1;
        assert(v@ =~= src@.take(i as int));
    }
    assert(v@ =~= src@);
    v
}

/// Index of the first non-blank in `s[lo..hi]` (`hi` when none).
fn skip_ws(s: &Vec<char>, lo: usize, hi: usize) -> (r: usize)
    requires
        lo <= hi <= s@.len(),
    ensures
        lo <= r <= hi,
        s@.subrange(r as int, hi as int) == trim_start(s@.subrange(lo as int, hi as int)),
{
    let mut i = lo;
    while i < hi && is_ws_char(s[i])
        invariant
            lo <= i <= hi,
            hi <= s@.len(),
            lead_ws(s@.subrange(lo as int, hi as int)) == (i - lo) + lead_ws(
                s@.subrange(i as int, hi as int),
            ),
        decreases hi - i,
    {
        assert(s@.subrange(i as int, hi as int).drop_first() =~= s@.subrange(i + 1, hi as int));
        i = i + 1;
    }
    assert(s@.subrange(i as int, hi as int) =~= s@.subrange(lo as int, hi as int).skip(i - lo));
    i
}

/// Index of the first non-'@' in `s[lo..hi]`.
fn skip_ats(s: &Vec<char>, lo: usize, hi: usize) -> (r: usize)
    requires
        lo <= hi <= s@.len(),
    ensures
        lo <= r <= hi,
        s@.subrange(r as int, hi as int) == strip_ats(s@.subrange(lo as int, hi as int)),
{
    let mut i = lo;
    while i < hi && s[i] == '@'
        invariant
            lo <= i <= hi,
            hi <= s@.len(),
            lead_ats(s@.subrange(lo as int, hi as int)) == (i - lo) + lead_ats(
                s@.subrange(i as int, hi as int),
            ),
        decreases hi - i,
    {
        assert(s@.subrange(i as int, hi as int).drop_first() =~= s@.subrange(i + 1, hi as int));
        i = i + 1;
    }
    assert(s@.subrange(i as int, hi as int) =~= s@.subrange(lo as int, hi as int).skip(i - lo));
    i
}

/// End of `s[lo..hi]` without its trailing blanks.
fn cut_ws(s: &Vec<char>, lo: usize, hi: usize) -> (r: usize)
    requires
        lo <= hi <= s@.len(),
    ensures
        lo <= r <= hi,
        s@.subrange(lo as int, r as int) == trim_end(s@.subrange(lo as int, hi as int)),
{
    let mut j = hi;
    while j > lo && is_ws_char(s[j - 1])
        invariant
            lo <= j <= hi,
            hi <= s@.len(),
            trail_ws(s@.subrange(lo as int, hi as int)) == (hi - j) + trail_ws(
                s@.subrange(lo as int, j as int),
            ),
        decreases j - lo,
    {
        assert(s@.subrange(lo as int, j as int).drop_last() =~= s@.subrange(lo as int, j - 1));
        j = j - 1;
    }
    assert(s@.subrange(lo as int, j as int) =~= s@.subrange(lo as int, hi as int).take(j - lo));
    j
}

/// Bounds of `trim(s[lo..hi])`.
fn trim_range(s: &Vec<char>, lo: usize, hi: usize) -> (r: (usize, usize))
    requires
        lo <= hi <= s@.len(),
    ensures
        lo <= r.0 <= r.1 <= hi,
        s@.subrange(r.0 as int, r.1 as int) == trim(s@.subrange(lo as int, hi as int)),
{
    let a = skip_ws(s, lo, hi);
    let b = cut_ws(s, a, hi);
    (a, b)
}

/// `s[lo..hi]` starts with `p`.
fn has_prefix(s: &Vec<char>, lo: usize, hi: usize, p: &str) -> (r: bool)
    requires
        lo <= hi <= s@.len(),
    ensures
        r == starts_with(s@.subrange(lo as int, hi as int), p@),
{
    let n = p.unicode_len();
    if n > hi - lo {
        return false;
    }
    let mut i: usize = 0;
    while i < n
        invariant
            i <= n,
            n == p@.len(),
            lo + n <= hi,
            hi <= s@.len(),
            forall|j: int| 0 <= j < i ==> s@[lo + j] == p@[j],
        decreases n - i,
    {
        if s[lo + i] != p.get_char(i) {
            assert(s@.subrange(lo as int, hi as int).take(n as int)[i as int] != p@[i as int]);
            return false;
        }
        i = i + 1;
    }
    assert(s@.subrange(lo as int, hi as int).take(n as int) =~= p@);
    true
}

/// `s` is the text `p`.
fn same_text(s: &Vec<char>, p: &str) -> (r: bool)
    ensures
        r == (s@ == p@),
{
    let n = p.unicode_len();
    if n != s.len() {
        return false;
    }
    let mut i: usize = 0;
    while i < n
        invariant
            i <= n,
            n == p@.len(),
            n == s@.len(),
            forall|j: int| 0 <= j < i ==> s@[j] == p@[j],
        decreases n - i,
    {
        if s[i] != p.get_char(i) {
            return false;
        }
        i = i + 1;
    }
    assert(s@ =~= p@);
    true
}

/// The characters `s[lo..hi]` as a string.
fn text_of(s: &Vec<char>, lo: usize, hi: usize) -> (r: String)
    requires
        lo <= hi <= s@.len(),
    ensures
        r@ == s@.subrange(lo as int, hi as int),
{
    let mut out = String::new();
    let mut i = lo;
    while i < hi
        invariant
            lo <= i <= hi,
            hi <= s@.len(),
            out@ == s@.subrange(lo as int, i as int),
        decreases hi - i,
    {
        push_char(&mut out, s[i]);
        i = i + 1;
        assert(out@ =~= s@.subrange(lo as int, i as int));
    }
    out
}

/// A string of digits is at least as large as any of its prefixes.
proof fn lemma_digits_prefix(s: Seq<char>, k: int)
    requires
        all_digits(s),
        0 <= k <= s.len(),
    ensures
        digits_value(s) >= digits_value(s.take(k)),
        digits_value(s) >= 0,
    decreases s.len(),
{
    if s.len() > 0 {
        assert(all_digits(s.drop_last())) by {
            assert forall|i: int| 0 <= i < s.drop_last().len() implies is_digit(
                #[trigger] s.drop_last()[i],
            ) by {
                assert(s.drop_last()[i] == s[i]);
            }
        }
        if k == s.len() {
            assert(s.take(k) =~= s);
            lemma_digits_prefix(s.drop_last(), 0);
        } else {
            assert(s.drop_last().take(k) =~= s.take(k));
            lemma_digits_prefix(s.drop_last(), k);
        }
        assert(is_digit(s[s.len() - 1]));
    } else {
        assert(s.take(k) =~= s);
    }
}

/// Reads an integer from `s[lo..hi]` with the range `min..=max`.
fn parse_number(s: &Vec<char>, lo: usize, hi: usize, min: i64, max: i64) -> (r: Option<i64>)
    requires
        lo <= hi <= s@.len(),
        -1_000_000 <= min <= max <= 1_000_000,
    ensures
        r matches Some(v) ==> parse_in(s@.subrange(lo as int, hi as int), min as int, max as int)
            == Some(v as int),
        r is None ==> parse_in(s@.subrange(lo as int, hi as int), min as int, max as int) is None,
{
    let ghost t = s@.subrange(lo as int, hi as int);
    if lo == hi {
        return None;
    }
    let signed = s[lo] == '-' || s[lo] == '+';
    let neg = s[lo] == '-';
    let start = if signed { lo + 1 } else { lo };
    assert(s@.subrange(start as int, hi as int) == (if signed { t.drop_first() } else { t })) by {
        if signed {
            assert(s@.subrange(start as int, hi as int) =~= t.drop_first());
        }
    }
    if start == hi {
        return None;
    }
    let mut acc: i64 = 0;
    let mut i = start;
    while i < hi
        invariant
            start <= i <= hi,
            lo < start || !signed,
            lo <= start,
            hi <= s@.len(),
            t == s@.subrange(lo as int, hi as int),
            t.len() > 0,
            signed == (t[0] == '-' || t[0] == '+'),
            neg == (t[0] == '-'),
            start == (if signed { lo + 1 } else { lo as int }),
            s@.subrange(start as int, hi as int) == (if signed { t.drop_first() } else { t }),
            -1_000_000 <= min <= max <= 1_000_000,
            acc == digits_value(s@.subrange(start as int, i as int)),
            all_digits(s@.subrange(start as int, i as int)),
            0 <= acc <= 100_000_000,
        decreases hi - i,
    {
        let c = s[i];
        let u = c as u32;
        if u < 48 || u > 57 {
            assert(!is_digit(s@.subrange(start as int, hi as int)[i - start]));
            return None;
        }
        if acc > 1_000_000 {
            proof {
                let rest = s@.subrange(start as int, hi as int);
                if all_digits(rest) {
                    assert(rest.take(i - start) =~= s@.subrange(start as int, i as int));
                    lemma_digits_prefix(rest, i - start);
                }
            }
            return None;
        }
        proof {
            assert(s@.subrange(start as int, i + 1).drop_last() =~= s@.subrange(start as int, i as int));
        }
        acc = acc * 10 + (u - 48) as i64;
        i = i + 1;
        assert(all_digits(s@.subrange(start as int, i as int))) by {
            assert forall|j: int| 0 <= j < s@.subrange(start as int, i as int).len() implies is_digit(
                #[trigger] s@.subrange(start as int, i as int)[j],
            ) by {
                if j < i - 1 - start {
                    assert(s@.subrange(start as int, i as int)[j] == s@.subrange(
                        start as int,
                        i - 1,
                    )[j]);
                }
            }
        }
    }
    let v = if neg { -acc } else { acc };
    if v < min || v > max {
        None
    } else {
        Some(v)
    }
}

/// The trit and the rest of a small value: its balanced low digit and
/// `(v − d) / 3`.
fn split_low(v: i32) -> (r: (Trit, i32))
    requires
        -1000 <= v <= 1000,
    ensures
        r.0 == Trit::of(low_trit(v as int)),
        r.0.val() == low_trit(v as int),
        r.1 == high_part(v as int),
        -1000 <= r.1 <= 1000,
{
    if v == 0 {
        return (Trit::Z, 0);
    }
    proof {
        crate::util::lemma_bal_step(v as int, 3);
    }
    let (d, q) = crate::util::bal_step(v, 3);
    let t = if d < 0 {
        Trit::N
    } else if d == 0 {
        Trit::Z
    } else {
        Trit::P
    };
    (t, q)
}

/// The operational syllable of group `group` and number `ko` (the low
/// three balanced digits of `ko` fill trits 3..=5).
pub(crate) fn op_tryte(group: Trit, ko: i8) -> (r: Tryte)
    requires
        -40 <= ko <= 40,
    ensures
        r.value() == op_value(group.val(), ko as int),
{
    let (t5, v1) = split_low(ko as i32);
    let (t4, v2) = split_low(v1);
    let (t3, _) = split_low(v2);
    Tryte { trits: [Trit::Z, Trit::Z, group, t3, t4, t5] }
}

/// The address syllable `Ref<len> h[k2]@ka`.
pub(crate) fn ref_tryte(len: u32, k2: Trit, ka: i8) -> (r: Tryte)
    requires
        1 <= len <= 3,
        -40 <= ka <= 40,
    ensures
        r.value() == ref_value(len as int, k2.val(), ka as int),
{
    let (t5, v1) = split_low(ka as i32);
    let (t4, v2) = split_low(v1);
    let (t3, v3) = split_low(v2);
    let (t2, _) = split_low(v3);
    let t0 = if len == 1 {
        Trit::N
    } else if len == 2 {
        Trit::Z
    } else {
        Trit::P
    };
    Tryte { trits: [t0, k2, t2, t3, t4, t5] }
}

fn macro_error(ka: i64) -> (r: AsmError)
    requires
        -1000 <= ka <= 1000,
    ensures
        r.fault() == AsmFault::NotRepresentable(macro_message(ka as int)),
{
    let mut m = String::from_str("macro ka ");
    push_decimal(&mut m, ka);
    m.append(" outside -40..=-14 (its senior trit is k3 = -1)");
    assert(m@ =~= macro_message(ka as int));
    AsmError::NotRepresentable(m)
}

fn bad_form(s: &Vec<char>) -> (r: AsmError)
    ensures
        r.fault() == AsmFault::BadForm(s@),
{
    let m = text_of(s, 0, s.len());
    assert(s@.subrange(0, s@.len() as int) =~= s@);
    AsmError::BadForm(m)
}

/// Reads `Ref<len> h[<sym>]@<ka>` from the trimmed text `s`.
fn assemble_ref(s: &Vec<char>) -> (r: Result<Tryte, AsmError>)
    requires
        !ref_split_fails(s@),
    ensures
        match r {
            Ok(t) => parse_ref(s@) == Ok::<int, AsmFault>(t.value()),
            Err(e) => parse_ref(s@) == Err::<int, AsmFault>(e.fault()),
        },
{
    proof {
        reveal_strlit("h[");
        reveal_strlit("]@");
    }
    let n = s.len();
    if n <= 3 {
        return Err(bad_form(s));
    }
    let u = s[3] as u32;
    if u < 49 || u > 51 {
        return Err(bad_form(s));
    }
    let len = u - 48;
    let x = skip_ws(s, 4, n);
    assert(s@.subrange(4, n as int) =~= s@.skip(4));
    let ghost rest = ref_rest(s@);
    assert(s@.subrange(x as int, n as int) == rest);
    if !has_prefix(s, x, n, "h[") {
        return Err(bad_form(s));
    }
    let p = x + 2;
    if p >= n {
        return Err(bad_form(s));
    }
    assert(rest[2] == s@[p as int]);
    let c = s[p];
    let k2 = if c == '-' {
        Trit::N
    } else if c == '0' {
        Trit::Z
    } else if c == '+' {
        Trit::P
    } else {
        return Err(bad_form(s));
    };
    assert(s@.subrange(p + 1, n as int) =~= rest.skip(3));
    if !has_prefix(s, p + 1, n, "]@") {
        return Err(bad_form(s));
    }
    assert(s@.subrange(p + 3, n as int) =~= rest.skip(3).skip(2));
    let (a, b) = trim_range(s, p + 3, n);
    match parse_number(s, a, b, -128, 127) {
        None => Err(bad_form(s)),
        Some(ka) => {
            if ka < -40 || ka > 40 {
                Err(bad_form(s))
            } else if len == 2 && c == '0' {
                let mut m = text_of(s, 0, n);
                m.append(": k1 = 0 & k2 = 0 is the operational-syllable pattern");
                assert(s@.subrange(0, n as int) =~= s@);
                Err(AsmError::NotRepresentable(m))
            } else {
                Ok(ref_tryte(len, k2, ka as i8))
            }
        },
    }
}

/// Assembles one syllable line.
///
/// Grammar:
///   `=V`               a data syllable with the balanced value V (−364..=364)
///   `<BAS mnemonic>`   e.g. `S+T`, `LST`
///   `<SPEC mnemonic>`  e.g. `LOADG3`, `RETNMC`
///   `MACRO @ka`        ka must lie in −40..=−14 (its senior trit is k3 = −1)
///   `Ref<len> h[<sym>]@<ka>`  sym ∈ {`-`, `0`, `+`}, len ∈ {1, 2, 3};
///                      `Ref2 h[0]@..` is rejected (reserved pattern)
pub fn assemble_syllable(src: &str) -> (r: Result<Tryte, AsmError>)
    requires
        text_ok(src@),
    ensures
        match r {
            Ok(t) => parse_syllable(src@) == Ok::<int, AsmFault>(t.value()),
            Err(e) => parse_syllable(src@) == Err::<int, AsmFault>(e.fault()),
        },
{
    let cs = chars_of(src);
    let (a, b) = trim_range(&cs, 0, cs.len());
    assert(cs@.subrange(0, cs@.len() as int) =~= cs@);
    let s = copy_range(&cs, a, b);
    let n = s.len();
    if n > 0 && s[0] == '=' {
        assert(s@.subrange(1, n as int) =~= s@.drop_first());
        let (x, y) = trim_range(&s, 1, n);
        return match parse_number(&s, x, y, -32768, 32767) {
            Some(v) => {
                if -364 <= v && v <= 364 {
                    let t = Tryte::from_i16(v as i16);
                    proof {
                        crate::arith::lemma_wrap_small(v as int, 729);
                    }
                    Ok(t)
                } else {
                    Err(bad_form(&s))
                }
            },
            None => Err(bad_form(&s)),
        };
    }
    proof {
        reveal_strlit("MACRO");
        reveal_strlit("Ref");
    }
    if has_prefix(&s, 0, n, "MACRO") {
        assert(s@.subrange(0, n as int) =~= s@);
        assert(s@.subrange(5, n as int) =~= s@.skip(5));
        let (x, y) = trim_range(&s, 5, n);
        let x2 = skip_ats(&s, x, y);
        let (x3, y3) = trim_range(&s, x2, y);
        return match parse_number(&s, x3, y3, -128, 127) {
            Some(ka) => {
                if -40 <= ka && ka <= -14 {
                    Ok(op_tryte(Trit::N, ka as i8))
                } else {
                    Err(macro_error(ka))
                }
            },
            None => Err(bad_form(&s)),
        };
    }
    assert(s@.subrange(0, n as int) =~= s@);
    if has_prefix(&s, 0, n, "Ref") {
        return assemble_ref(&s);
    }
    let mut i: usize = 0;
    while i < 27
        invariant
            i <= 27,
            s@ == trim(src@),
            !(s@.len() > 0 && s@[0] == '='),
            !starts_with(s@, "MACRO"@),
            !starts_with(s@, "Ref"@),
            find_bas(s@, 0) == find_bas(s@, i as int),
        decreases 27 - i,
    {
        if same_text(&s, bas_name_str(i)) {
            return Ok(op_tryte(Trit::Z, (i as i8) - 13));
        }
        i = i + 1;
    }
    let mut j: usize = 0;
    while j < 27
        invariant
            j <= 27,
            s@ == trim(src@),
            !(s@.len() > 0 && s@[0] == '='),
            !starts_with(s@, "MACRO"@),
            !starts_with(s@, "Ref"@),
            find_bas(s@, 0) == 27,
            find_spec(s@, 0) == find_spec(s@, j as int),
        decreases 27 - j,
    {
        if same_text(&s, spec_name_str(j)) {
            return Ok(op_tryte(Trit::P, (j as i8) - 13));
        }
        j = j + 1;
    }
    let m = text_of(&s, 0, n);
    Err(AsmError::Unknown(m))
}

/// A copy of `v[lo..hi]`.
fn copy_range(v: &Vec<char>, lo: usize, hi: usize) -> (r: Vec<char>)
    requires
        lo <= hi <= v@.len(),
    ensures
        r@ == v@.subrange(lo as int, hi as int),
{
    let mut out: Vec<char> = Vec::new();
    let mut i = lo;
    while i < hi
        invariant
            lo <= i <= hi,
            hi <= v@.len(),
            out@ == v@.subrange(lo as int, i as int),
        decreases hi - i,
    {
        out.push(v[i]);
        i = i + 1;
        assert(out@ =~= v@.subrange(lo as int, i as int));
    }
    out
}

/// Assembles a sequence of syllables; the first error stops it.
pub fn assemble(srcs: &[&str]) -> (r: Result<Vec<Tryte>, AsmError>)
    requires
        forall|i: int| 0 <= i < srcs@.len() ==> text_ok(#[trigger] srcs@[i]@),
    ensures
        match r {
            Ok(v) => {
                &&& v@.len() == srcs@.len()
                &&& forall|i: int|
                    0 <= i < srcs@.len() ==> parse_syllable(#[trigger] srcs@[i]@) == Ok::<
                        int,
                        AsmFault,
                    >(v@[i].value())
            },
            Err(e) => exists|k: int|
                0 <= k < srcs@.len() && (forall|i: int|
                    0 <= i < k ==> #[trigger] parse_syllable(srcs@[i]@) is Ok) && parse_syllable(
                    srcs@[k]@,
                ) == Err::<int, AsmFault>(e.fault()),
        },
{
    let mut out: Vec<Tryte> = Vec::new();
    let mut i: usize = 0;
    while i < srcs.len()
        invariant
            i <= srcs@.len(),
            out@.len() == i,
            forall|j: int| 0 <= j < srcs@.len() ==> text_ok(#[trigger] srcs@[j]@),
            forall|j: int|
                0 <= j < i ==> parse_syllable(#[trigger] srcs@[j]@) == Ok::<int, AsmFault>(
                    out@[j].value(),
                ),
        decreases srcs@.len() - i,
    {
        match assemble_syllable(srcs[i]) {
            Ok(t) => out.push(t),
            Err(e) => {
                assert(forall|j: int| 0 <= j < i ==> #[trigger] parse_syllable(srcs@[j]@) is Ok);
                return Err(e);
            },
        }
        i = i + 1;
    }
    Ok(out)
}

// ---------------------------------------------------------------------------
// Assembling the listing text of a syllable gives the syllable back
// ---------------------------------------------------------------------------

proof fn lemma_trim_id(s: Seq<char>)
    requires
        s.len() > 0,
        !is_ws(s[0]),
        !is_ws(s.last()),
    ensures
        trim(s) == s,
{
    assert(lead_ws(s) == 0);
    assert(s.skip(0) =~= s);
    assert(trail_ws(s) == 0);
    assert(s.take(s.len() as int) =~= s);
}

proof fn lemma_digit_char(d: int)
    requires
        0 <= d <= 9,
    ensures
        is_digit(crate::util::digit_char(d)),
        digit_of(crate::util::digit_char(d)) == d,
        !is_ws(crate::util::digit_char(d)),
        crate::util::digit_char(d) != '@',
        crate::util::digit_char(d) != '-',
        crate::util::digit_char(d) != '+',
{
}

proof fn lemma_dec_digits(n: nat)
    ensures
        crate::util::dec_digits(n).len() > 0,
        all_digits(crate::util::dec_digits(n)),
        digits_value(crate::util::dec_digits(n)) == n,
    decreases n,
{
    let s = crate::util::dec_digits(n);
    if n < 10 {
        lemma_digit_char(n as int);
        assert(s.drop_last() =~= Seq::<char>::empty());
        assert(s.last() == crate::util::digit_char(n as int));
        assert(digits_value(s.drop_last()) == 0);
    } else {
        lemma_dec_digits(n / 10);
        lemma_digit_char((n % 10) as int);
        vstd::arithmetic::div_mod::lemma_fundamental_div_mod(n as int, 10);
        let p = crate::util::dec_digits(n / 10);
        assert(s == p.push(crate::util::digit_char((n % 10) as int)));
        assert(s.drop_last() =~= p);
        assert(s.last() == crate::util::digit_char((n % 10) as int));
        assert(digits_value(s) == digits_value(p) * 10 + (n % 10));
        assert forall|i: int| 0 <= i < s.len() implies is_digit(#[trigger] s[i]) by {
            if i < p.len() {
                assert(s[i] == p[i]);
            }
        }
    }
}

/// Decimal text reads back as its number and has no blank at either end.
proof fn lemma_dec_text(v: int)
    ensures
        dec_str(v).len() > 0,
        !is_ws(dec_str(v)[0]),
        dec_str(v)[0] != '@',
        !is_ws(dec_str(v).last()),
        trim(dec_str(v)) == dec_str(v),
        parse_int(dec_str(v)) == Some(v),
{
    let s = dec_str(v);
    if v < 0 {
        let d = crate::util::dec_digits((-v) as nat);
        lemma_dec_digits((-v) as nat);
        assert(s.drop_first() =~= d);
        assert(s.last() == d.last());
        assert(is_digit(d[d.len() - 1]));
    } else {
        let d = crate::util::dec_digits(v as nat);
        lemma_dec_digits(v as nat);
        assert(is_digit(d[0]));
        assert(is_digit(d[d.len() - 1]));
    }
    lemma_trim_id(s);
}

/// The low balanced digits of `a5 + 3·a4 + 9·a3 + 27·a2 + 81·rest`.
proof fn lemma_low_digits(a2: int, a3: int, a4: int, a5: int, rest: int)
    requires
        -1 <= a2 <= 1,
        -1 <= a3 <= 1,
        -1 <= a4 <= 1,
        -1 <= a5 <= 1,
    ensures
        ({
            let x = a5 + 3 * a4 + 9 * a3 + 27 * a2 + 81 * rest;
            &&& low_trit(x) == a5
            &&& low_trit(high_part(x)) == a4
            &&& low_trit(high_part(high_part(x))) == a3
            &&& low_trit(high_part(high_part(high_part(x)))) == a2
        }),
{
    let x = a5 + 3 * a4 + 9 * a3 + 27 * a2 + 81 * rest;
    crate::tryte::lemma_digit_split(a5, a4 + 3 * a3 + 9 * a2 + 27 * rest);
    crate::tryte::lemma_digit_split(a4, a3 + 3 * a2 + 9 * rest);
    crate::tryte::lemma_digit_split(a3, a2 + 3 * rest);
    crate::tryte::lemma_digit_split(a2, rest);
}

/// A number that tells the mnemonic texts apart: the length and the first
/// six character codes.
spec fn name_sig(s: Seq<char>) -> int {
    s.len() + 8 * (code_at(s, 0) + 128 * (code_at(s, 1) + 128 * (code_at(s, 2) + 128 * (code_at(s, 3)
        + 128 * (code_at(s, 4) + 128 * code_at(s, 5))))))
}

spec fn code_at(s: Seq<char>, k: int) -> int {
    if 0 <= k < s.len() {
        s[k] as u32 as int
    } else {
        0
    }
}

proof fn lemma_name_sigs()
    ensures
        name_sig(bas_name(0)) == 11095651,
        name_sig(bas_name(1)) == 11091483,
        name_sig(bas_name(2)) == 10304195,
        name_sig(bas_name(3)) == 6469163,
        name_sig(bas_name(4)) == 6354475,
        name_sig(bas_name(5)) == 6467115,
        name_sig(bas_name(6)) == 9090723,
        name_sig(bas_name(7)) == 11073067,
        name_sig(bas_name(8)) == 9088675,
        name_sig(bas_name(9)) == 11088411,
        name_sig(bas_name(10)) == 11081243,
        name_sig(bas_name(11)) == 11083291,
        name_sig(bas_name(12)) == 8844963,
        name_sig(bas_name(13)) == 11073171,
        name_sig(bas_name(14)) == 11073051,
        name_sig(bas_name(15)) == 11466403,
        name_sig(bas_name(16)) == 11082443,
        name_sig(bas_name(17)) == 10942139,
        name_sig(bas_name(18)) == 11089563,
        name_sig(bas_name(19)) == 11073227,
        name_sig(bas_name(20)) == 11077275,
        name_sig(bas_name(21)) == 11056795,
        name_sig(bas_name(22)) == 10293923,
        name_sig(bas_name(23)) == 11054747,
        name_sig(bas_name(24)) == 11078243,
        name_sig(bas_name(25)) == 11053667,
        name_sig(bas_name(26)) == 11084387,
        name_sig(spec_name(0)) == 13622992518686,
        name_sig(spec_name(1)) == 13897870425630,
        name_sig(spec_name(2)) == 14172748332574,
        name_sig(spec_name(3)) == 13620845035038,
        name_sig(spec_name(4)) == 13895722941982,
        name_sig(spec_name(5)) == 14170600848926,
        name_sig(spec_name(6)) == 13644113067622,
        name_sig(spec_name(7)) == 13918990974566,
        name_sig(spec_name(8)) == 14193868881510,
        name_sig(spec_name(9)) == 173302431261,
        name_sig(spec_name(10)) == 173015523885,
        name_sig(spec_name(11)) == 172948143717,
        name_sig(spec_name(12)) == 18583679745566,
        name_sig(spec_name(13)) == 18583495710358,
        name_sig(spec_name(14)) == 18583325458022,
        name_sig(spec_name(15)) == 13624785714790,
        name_sig(spec_name(16)) == 13899663621734,
        name_sig(spec_name(17)) == 14174541528678,
        name_sig(spec_name(18)) == 13652703002214,
        name_sig(spec_name(19)) == 13927580909158,
        name_sig(spec_name(20)) == 14202458816102,
        name_sig(spec_name(21)) == 13620490747494,
        name_sig(spec_name(22)) == 13895368654438,
        name_sig(spec_name(23)) == 14170246561382,
        name_sig(spec_name(24)) == 13622638231142,
        name_sig(spec_name(25)) == 13897516138086,
        name_sig(spec_name(26)) == 14172394045030,
{
}

/// Each BASIC mnemonic is found at its own place in the table: no
/// earlier mnemonic has the same text.
proof fn lemma_find_bas(i: int)
    requires
        0 <= i < 27,
    ensures
        find_bas(bas_name(i), 0) == i,
        bas_name(i).len() == 3,
{
    lemma_name_sigs();
    reveal_with_fuel(find_bas, 28);
    if i == 0 {
        assert(find_bas(bas_name(0), 0) == 0);
    } else if i == 1 {
        assert(find_bas(bas_name(1), 0) == 1);
    } else if i == 2 {
        assert(find_bas(bas_name(2), 0) == 2);
    } else if i == 3 {
        assert(find_bas(bas_name(3), 0) == 3);
    } else if i == 4 {
        assert(find_bas(bas_name(4), 0) == 4);
    } else if i == 5 {
        assert(find_bas(bas_name(5), 0) == 5);
    } else if i == 6 {
        assert(find_bas(bas_name(6), 0) == 6);
    } else if i == 7 {
        assert(find_bas(bas_name(7), 0) == 7);
    } else if i == 8 {
        assert(find_bas(bas_name(8), 0) == 8);
    } else if i == 9 {
        assert(find_bas(bas_name(9), 0) == 9);
    } else if i == 10 {
        assert(find_bas(bas_name(10), 0) == 10);
    } else if i == 11 {
        assert(find_bas(bas_name(11), 0) == 11);
    } else if i == 12 {
        assert(find_bas(bas_name(12), 0) == 12);
    } else if i == 13 {
        assert(find_bas(bas_name(13), 0) == 13);
    } else if i == 14 {
        assert(find_bas(bas_name(14), 0) == 14);
    } else if i == 15 {
        assert(find_bas(bas_name(15), 0) == 15);
    } else if i == 16 {
        assert(find_bas(bas_name(16), 0) == 16);
    } else if i == 17 {
        assert(find_bas(bas_name(17), 0) == 17);
    } else if i == 18 {
        assert(find_bas(bas_name(18), 0) == 18);
    } else if i == 19 {
        assert(find_bas(bas_name(19), 0) == 19);
    } else if i == 20 {
        assert(find_bas(bas_name(20), 0) == 20);
    } else if i == 21 {
        assert(find_bas(bas_name(21), 0) == 21);
    } else if i == 22 {
        assert(find_bas(bas_name(22), 0) == 22);
    } else if i == 23 {
        assert(find_bas(bas_name(23), 0) == 23);
    } else if i == 24 {
        assert(find_bas(bas_name(24), 0) == 24);
    } else if i == 25 {
        assert(find_bas(bas_name(25), 0) == 25);
    } else if i == 26 {
        assert(find_bas(bas_name(26), 0) == 26);
    }
}

/// Each SPEC mnemonic is found at its own place in the SPEC table.
#[verifier::rlimit(40)]
proof fn lemma_find_spec(i: int)
    requires
        0 <= i < 27,
    ensures
        find_spec(spec_name(i), 0) == i,
        5 <= spec_name(i).len() <= 6,
{
    lemma_name_sigs();
    reveal_with_fuel(find_spec, 28);
    if i == 0 {
        assert(find_spec(spec_name(0), 0) == 0);
    } else if i == 1 {
        assert(find_spec(spec_name(1), 0) == 1);
    } else if i == 2 {
        assert(find_spec(spec_name(2), 0) == 2);
    } else if i == 3 {
        assert(find_spec(spec_name(3), 0) == 3);
    } else if i == 4 {
        assert(find_spec(spec_name(4), 0) == 4);
    } else if i == 5 {
        assert(find_spec(spec_name(5), 0) == 5);
    } else if i == 6 {
        assert(find_spec(spec_name(6), 0) == 6);
    } else if i == 7 {
        assert(find_spec(spec_name(7), 0) == 7);
    } else if i == 8 {
        assert(find_spec(spec_name(8), 0) == 8);
    } else if i == 9 {
        assert(find_spec(spec_name(9), 0) == 9);
    } else if i == 10 {
        assert(find_spec(spec_name(10), 0) == 10);
    } else if i == 11 {
        assert(find_spec(spec_name(11), 0) == 11);
    } else if i == 12 {
        assert(find_spec(spec_name(12), 0) == 12);
    } else if i == 13 {
        assert(find_spec(spec_name(13), 0) == 13);
    } else if i == 14 {
        assert(find_spec(spec_name(14), 0) == 14);
    } else if i == 15 {
        assert(find_spec(spec_name(15), 0) == 15);
    } else if i == 16 {
        assert(find_spec(spec_name(16), 0) == 16);
    } else if i == 17 {
        assert(find_spec(spec_name(17), 0) == 17);
    } else if i == 18 {
        assert(find_spec(spec_name(18), 0) == 18);
    } else if i == 19 {
        assert(find_spec(spec_name(19), 0) == 19);
    } else if i == 20 {
        assert(find_spec(spec_name(20), 0) == 20);
    } else if i == 21 {
        assert(find_spec(spec_name(21), 0) == 21);
    } else if i == 22 {
        assert(find_spec(spec_name(22), 0) == 22);
    } else if i == 23 {
        assert(find_spec(spec_name(23), 0) == 23);
    } else if i == 24 {
        assert(find_spec(spec_name(24), 0) == 24);
    } else if i == 25 {
        assert(find_spec(spec_name(25), 0) == 25);
    } else if i == 26 {
        assert(find_spec(spec_name(26), 0) == 26);
    }
}

/// No BASIC mnemonic has the text of a SPEC mnemonic.
#[verifier::rlimit(40)]
proof fn lemma_spec_not_bas(i: int)
    requires
        0 <= i < 27,
    ensures
        find_bas(spec_name(i), 0) == 27,
{
    lemma_name_sigs();
    reveal_with_fuel(find_bas, 28);
    if i == 0 {
        assert(find_bas(spec_name(0), 0) == 27);
    } else if i == 1 {
        assert(find_bas(spec_name(1), 0) == 27);
    } else if i == 2 {
        assert(find_bas(spec_name(2), 0) == 27);
    } else if i == 3 {
        assert(find_bas(spec_name(3), 0) == 27);
    } else if i == 4 {
        assert(find_bas(spec_name(4), 0) == 27);
    } else if i == 5 {
        assert(find_bas(spec_name(5), 0) == 27);
    } else if i == 6 {
        assert(find_bas(spec_name(6), 0) == 27);
    } else if i == 7 {
        assert(find_bas(spec_name(7), 0) == 27);
    } else if i == 8 {
        assert(find_bas(spec_name(8), 0) == 27);
    } else if i == 9 {
        assert(find_bas(spec_name(9), 0) == 27);
    } else if i == 10 {
        assert(find_bas(spec_name(10), 0) == 27);
    } else if i == 11 {
        assert(find_bas(spec_name(11), 0) == 27);
    } else if i == 12 {
        assert(find_bas(spec_name(12), 0) == 27);
    } else if i == 13 {
        assert(find_bas(spec_name(13), 0) == 27);
    } else if i == 14 {
        assert(find_bas(spec_name(14), 0) == 27);
    } else if i == 15 {
        assert(find_bas(spec_name(15), 0) == 27);
    } else if i == 16 {
        assert(find_bas(spec_name(16), 0) == 27);
    } else if i == 17 {
        assert(find_bas(spec_name(17), 0) == 27);
    } else if i == 18 {
        assert(find_bas(spec_name(18), 0) == 27);
    } else if i == 19 {
        assert(find_bas(spec_name(19), 0) == 27);
    } else if i == 20 {
        assert(find_bas(spec_name(20), 0) == 27);
    } else if i == 21 {
        assert(find_bas(spec_name(21), 0) == 27);
    } else if i == 22 {
        assert(find_bas(spec_name(22), 0) == 27);
    } else if i == 23 {
        assert(find_bas(spec_name(23), 0) == 27);
    } else if i == 24 {
        assert(find_bas(spec_name(24), 0) == 27);
    } else if i == 25 {
        assert(find_bas(spec_name(25), 0) == 27);
    } else if i == 26 {
        assert(find_bas(spec_name(26), 0) == 27);
    }
}

/// The texts of the mnemonics: no blank at either end, and none starts
/// like a literal, a macro or a reference.
proof fn lemma_name_shape(s: Seq<char>, i: int, spec: bool)
    requires
        0 <= i < 27,
        s == (if spec { spec_name(i) } else { bas_name(i) }),
    ensures
        s.len() >= 3,
        !is_ws(s[0]),
        !is_ws(s.last()),
        s[0] != '=',
        !starts_with(s, "MACRO"@),
        !starts_with(s, "Ref"@),
{
    reveal_strlit("MACRO");
    reveal_strlit("Ref");
    reveal_strlit("LST");
    reveal_strlit("COT");
    reveal_strlit("XNN");
    reveal_strlit("E-1");
    reveal_strlit("E=0");
    reveal_strlit("E+1");
    reveal_strlit("T-E");
    reveal_strlit("E=T");
    reveal_strlit("T+E");
    reveal_strlit("CLT");
    reveal_strlit("CET");
    reveal_strlit("CGT");
    reveal_strlit("T=C");
    reveal_strlit("R=T");
    reveal_strlit("C=T");
    reveal_strlit("T=W");
    reveal_strlit("YFT");
    reveal_strlit("W=S");
    reveal_strlit("SMT");
    reveal_strlit("Y=T");
    reveal_strlit("SAT");
    reveal_strlit("S-T");
    reveal_strlit("TDN");
    reveal_strlit("S+T");
    reveal_strlit("LBT");
    reveal_strlit("L*T");
    reveal_strlit("LHT");
    reveal_strlit("COPYG1");
    reveal_strlit("COPYG2");
    reveal_strlit("COPYG3");
    reveal_strlit("COPYF1");
    reveal_strlit("COPYF2");
    reveal_strlit("COPYF3");
    reveal_strlit("LOADQ1");
    reveal_strlit("LOADQ2");
    reveal_strlit("LOADQ3");
    reveal_strlit("COPYP");
    reveal_strlit("EXCHP");
    reveal_strlit("LOADP");
    reveal_strlit("COPYMC");
    reveal_strlit("RETNMC");
    reveal_strlit("LOADMC");
    reveal_strlit("LOADH1");
    reveal_strlit("LOADH2");
    reveal_strlit("LOADH3");
    reveal_strlit("LOADU1");
    reveal_strlit("LOADU2");
    reveal_strlit("LOADU3");
    reveal_strlit("LOADF1");
    reveal_strlit("LOADF2");
    reveal_strlit("LOADF3");
    reveal_strlit("LOADG1");
    reveal_strlit("LOADG2");
    reveal_strlit("LOADG3");
    if !spec {
        assert(s.len() == 3);
    }
    if starts_with(s, "Ref"@) {
        assert(s.take(3)[1] == "Ref"@[1]);
    }
    if starts_with(s, "MACRO"@) {
        assert(s.take(5)[1] == "MACRO"@[1]);
    }
}

proof fn lemma_fields(t: Tryte)
    ensures
        ko_of(t) == 9 * t.trits[3].val() + 3 * t.trits[4].val() + t.trits[5].val(),
        ka_of(t) == 27 * t.trits[2].val() + 9 * t.trits[3].val() + 3 * t.trits[4].val()
            + t.trits[5].val(),
{
    reveal_with_fuel(field_val, 5);
}

proof fn lemma_roundtrip_named(t: Tryte)
    requires
        is_op(t),
        t.trits[2] != Trit::N,
    ensures
        text_ok(mnemonic(t)),
        parse_syllable(mnemonic(t)) == Ok::<int, AsmFault>(t.value()),
{
    let s = mnemonic(t);
    let a = t.trits;
    lemma_fields(t);
    let ko = ko_of(t);
    lemma_low_digits(0, a[3].val(), a[4].val(), a[5].val(), 0);
    if a[2] == Trit::Z {
        lemma_find_bas(ko + 13);
        lemma_name_shape(s, ko + 13, false);
    } else {
        lemma_find_spec(ko + 13);
        lemma_spec_not_bas(ko + 13);
        lemma_name_shape(s, ko + 13, true);
    }
    lemma_trim_id(s);
}

proof fn lemma_roundtrip_macro(t: Tryte)
    requires
        is_op(t),
        t.trits[2] == Trit::N,
    ensures
        text_ok(mnemonic(t)),
        parse_syllable(mnemonic(t)) == Ok::<int, AsmFault>(t.value()),
{
    let s = mnemonic(t);
    let a = t.trits;
    lemma_fields(t);
    reveal_strlit("MACRO");
    reveal_strlit("Ref");
    reveal_strlit("MACRO @");
    let ka = ka_of(t);
    let d = dec_str(ka);
    lemma_dec_text(ka);
    lemma_low_digits(-1, a[3].val(), a[4].val(), a[5].val(), 0);
    assert(s == "MACRO @"@ + d);
    assert(s[0] == 'M');
    assert(s.last() == d.last());
    lemma_trim_id(s);
    assert(s.take(5) =~= "MACRO"@);
    let r = s.skip(5);
    assert(r =~= seq![' ', '@'] + d);
    let r1 = seq!['@'] + d;
    assert(r.drop_first() =~= r1);
    assert(lead_ws(r1) == 0);
    assert(trim_start(r) =~= r1);
    assert(r1.last() == d.last());
    lemma_trim_id(r1);
    assert(trim(r) == r1);
    assert(r1.drop_first() =~= d);
    assert(lead_ats(d) == 0);
    assert(strip_ats(r1) =~= d);
}

/// The shape of a reference text `Ref<c> h[<sym>]@<d>`.
proof fn lemma_ref_text(c: char, sym: char, d: Seq<char>)
    requires
        d.len() > 0,
        !is_ws(d.last()),
        trim(d) == d,
    ensures
        ({
            let s = "Ref"@ + seq![c] + " h["@ + seq![sym] + "]@"@ + d;
            &&& s.len() > 3
            &&& s[0] == 'R'
            &&& s[3] == c
            &&& trim(s) == s
            &&& starts_with(s, "Ref"@)
            &&& !starts_with(s, "MACRO"@)
            &&& starts_with(ref_rest(s), "h["@)
            &&& ref_rest(s).len() > 2
            &&& ref_rest(s)[2] == sym
            &&& starts_with(ref_rest(s).skip(3), "]@"@)
            &&& ref_rest(s).skip(3).skip(2) == d
        }),
{
    reveal_strlit("MACRO");
    reveal_strlit("Ref");
    reveal_strlit(" h[");
    reveal_strlit("]@");
    reveal_strlit("h[");
    let s = "Ref"@ + seq![c] + " h["@ + seq![sym] + "]@"@ + d;
    assert(s =~= seq!['R', 'e', 'f', c, ' ', 'h', '[', sym, ']', '@'] + d);
    assert(s.last() == d.last());
    lemma_trim_id(s);
    assert(s.take(3) =~= "Ref"@);
    assert(s.take(5)[0] == 'R');
    let rest0 = s.skip(4);
    assert(rest0 =~= seq![' ', 'h', '[', sym, ']', '@'] + d);
    let rest = seq!['h', '[', sym, ']', '@'] + d;
    assert(rest0.drop_first() =~= rest);
    assert(lead_ws(rest) == 0);
    assert(ref_rest(s) =~= rest);
    assert(rest.take(2) =~= "h["@);
    let tail = rest.skip(3);
    assert(tail =~= seq![']', '@'] + d);
    assert(tail.take(2) =~= "]@"@);
    assert(tail.skip(2) =~= d);
}

proof fn lemma_roundtrip_ref(t: Tryte)
    requires
        !is_op(t),
    ensures
        text_ok(mnemonic(t)),
        parse_syllable(mnemonic(t)) == Ok::<int, AsmFault>(t.value()),
{
    let s = mnemonic(t);
    let a = t.trits;
    lemma_fields(t);
    let len = a[0].val() + 2;
    let ka = ka_of(t);
    let d = dec_str(ka);
    lemma_dec_text(ka);
    lemma_low_digits(a[2].val(), a[3].val(), a[4].val(), a[5].val(), 0);
    assert(dec_str(len) =~= seq![crate::util::digit_char(len)]);
    lemma_digit_char(len);
    lemma_ref_text(crate::util::digit_char(len), trit_sym(a[1]), d);
    assert(s == "Ref"@ + seq![crate::util::digit_char(len)] + " h["@ + seq![trit_sym(a[1])] + "]@"@ + d);
}

/// The data form `=v` of a syllable value `v` (−364..=364, written in
/// decimal) assembles to `v`.
pub proof fn law_assemble_data(v: int)
    requires
        -364 <= v <= 364,
    ensures
        text_ok(seq!['='] + dec_str(v)),
        parse_syllable(seq!['='] + dec_str(v)) == Ok::<int, AsmFault>(v),
{
    let d = dec_str(v);
    let s = seq!['='] + d;
    lemma_dec_text(v);
    assert(s[0] == '=');
    assert(s.last() == d.last());
    lemma_trim_id(s);
    assert(s.drop_first() =~= d);
    reveal_strlit("Ref");
    assert(!starts_with(s, "Ref"@)) by {
        if starts_with(s, "Ref"@) {
            assert(s.take(3)[0] == s[0]);
        }
    }
}

/// Assembling the listing text of any syllable gives the syllable back
/// (its value, which determines it).
pub proof fn law_assemble_inverts_format(t: Tryte)
    ensures
        text_ok(mnemonic(t)),
        parse_syllable(mnemonic(t)) == Ok::<int, AsmFault>(t.value()),
{
    if !is_op(t) {
        lemma_roundtrip_ref(t);
    } else if t.trits[2] == Trit::N {
        lemma_roundtrip_macro(t);
    } else {
        lemma_roundtrip_named(t);
    }
}

// ---------------------------------------------------------------------------
// Page dumps and state tracing
// ---------------------------------------------------------------------------

/// `n` blanks (none when `n` ≤ 0).
pub open spec fn spaces(n: int) -> Seq<char> {
    Seq::new(if n > 0 { n as nat } else { 0 }, |i: int| ' ')
}

/// `s` right-aligned in a field of width `w` (`{:>w}`).
pub open spec fn pad_left(s: Seq<char>, w: int) -> Seq<char> {
    spaces(w - s.len()) + s
}

/// `s` left-aligned in a field of width `w` (`{:<w}`).
pub open spec fn pad_right(s: Seq<char>, w: int) -> Seq<char> {
    s + spaces(w - s.len())
}

/// The letter of a trit in a trit listing.
pub open spec fn trit_letter(t: Trit) -> char {
    match t {
        Trit::N => 'N',
        Trit::Z => 'Z',
        Trit::P => 'P',
    }
}

/// The six trits of a syllable as letters, trit 0 first.
pub open spec fn trits_text(t: Tryte) -> Seq<char> {
    Seq::new(6, |i: int| trit_letter(t.trits[i]))
}

/// One line of a page dump: address, value, trits, nonary (empty), name.
pub open spec fn dump_line(addr: int, t: Tryte) -> Seq<char> {
    pad_left(dec_str(addr), 4) + seq![' '] + pad_left(dec_str(t.value()), 5) + seq![' ']
        + pad_right(trits_text(t), 6) + seq![' '] + pad_right(Seq::empty(), 3) + seq![' ']
        + mnemonic(t) + seq!['\n']
}

/// The dump lines of the first `n` addresses (from −40) of `page`.
pub open spec fn dump_lines(m: Memory1, page: int, n: int) -> Seq<char>
    decreases n,
{
    if n <= 0 {
        Seq::empty()
    } else if valid_page(page) {
        dump_lines(m, page, n - 1) + dump_line(-40 + n - 1, m.cell(page, -40 + n - 1))
    } else {
        dump_lines(m, page, n - 1)
    }
}

/// The heading of a page dump.
pub open spec fn dump_heading(page: int) -> Seq<char> {
    "--- page "@ + dec_str(page) + " ("@ + (if ram_page(page) {
        "RAM"@
    } else {
        "ROM"@
    }) + ")\n"@
}

fn push_str(out: &mut String, s: &str)
    ensures
        final(out)@ == old(out)@ + s@,
{
    out.append(s);
}

fn push_spaces(out: &mut String, n: usize)
    ensures
        final(out)@ == old(out)@ + spaces(n as int),
{
    let mut i: usize = 0;
    while i < n
        invariant
            i <= n,
            out@ == old(out)@ + spaces(i as int),
        decreases n - i,
    {
        push_char(out, ' ');
        i = i + 1;
        assert(out@ =~= old(out)@ + spaces(i as int));
    }
}

/// Appends `s` right-aligned in width `w`.
fn push_right_aligned(out: &mut String, s: &String, w: usize)
    ensures
        final(out)@ == old(out)@ + pad_left(s@, w as int),
{
    let n = s.as_str().unicode_len();
    if n < w {
        push_spaces(out, w - n);
    } else {
        push_spaces(out, 0);
        assert(spaces(w - s@.len()) =~= spaces(0));
    }
    push_str(out, s.as_str());
    assert(out@ =~= old(out)@ + pad_left(s@, w as int));
}

/// Appends `s` left-aligned in width `w`.
fn push_left_aligned(out: &mut String, s: &String, w: usize)
    ensures
        final(out)@ == old(out)@ + pad_right(s@, w as int),
{
    push_str(out, s.as_str());
    let n = s.as_str().unicode_len();
    if n < w {
        push_spaces(out, w - n);
    } else {
        assert(spaces(w - s@.len()) =~= Seq::<char>::empty());
    }
    assert(out@ =~= old(out)@ + pad_right(s@, w as int));
}

fn trit_letter_of(t: Trit) -> (c: char)
    ensures
        c == trit_letter(t),
{
    match t {
        Trit::N => 'N',
        Trit::Z => 'Z',
        Trit::P => 'P',
    }
}

/// The six trits of a syllable as letters.
fn trits_string(t: &Tryte) -> (r: String)
    ensures
        r@ == trits_text(*t),
{
    let mut s = String::new();
    let mut i: usize = 0;
    while i < 6
        invariant
            i <= 6,
            s@ == trits_text(*t).take(i as int),
        decreases 6 - i,
    {
        push_char(&mut s, trit_letter_of(t.trits[i]));
        i = i + 1;
        assert(s@ =~= trits_text(*t).take(i as int));
    }
    assert(trits_text(*t).take(6) =~= trits_text(*t));
    s
}

/// Dumps one page: address, value, trits, nonary, decoded syllable.
pub fn dump_page(m: &Machine, page: i8) -> (r: String)
    ensures
        r@ == dump_heading(page as int) + dump_lines(m.mem, page as int, 81),
{
    let mut out = String::new();
    push_str(&mut out, "--- page ");
    push_decimal(&mut out, page as i64);
    push_str(&mut out, " (");
    if Memory1::is_ram(page) {
        push_str(&mut out, "RAM");
    } else {
        push_str(&mut out, "ROM");
    }
    push_str(&mut out, ")\n");
    assert(out@ =~= dump_heading(page as int));
    let ghost head = out@;
    let mut addr: i8 = ADDR_MIN;
    while addr <= ADDR_MAX
        invariant
            -40 <= addr <= 41,
            out@ == head + dump_lines(m.mem, page as int, addr + 40),
        decreases 41 - addr,
    {
        match m.mem.read(page, addr) {
            Some(t) => {
                let v = t.to_i16();
                proof {
                    t.lemma_range();
                }
                push_right_aligned(&mut out, &crate::util::decimal_string(addr as i64), 4);
                push_char(&mut out, ' ');
                push_right_aligned(&mut out, &crate::util::decimal_string(v as i64), 5);
                push_char(&mut out, ' ');
                push_left_aligned(&mut out, &trits_string(&t), 6);
                push_char(&mut out, ' ');
                push_left_aligned(&mut out, &String::new(), 3);
                push_char(&mut out, ' ');
                let name = format_syllable(&t);
                push_str(&mut out, name.as_str());
                push_char(&mut out, '\n');
                assert(out@ =~= head + dump_lines(m.mem, page as int, addr + 40) + dump_line(
                    addr as int,
                    t,
                ));
            },
            None => {},
        }
        addr = addr + 1;
    }
    out
}

/// The name of a mode as `{:?}` prints it.
pub open spec fn mode_name(mode: Mode) -> Seq<char> {
    match mode {
        Mode::Interrupt => "Interrupt"@,
        Mode::Macro => "Macro"@,
        Mode::User => "User"@,
    }
}

/// Flags of the request register v: '1' for a raised request, '.' else.
pub open spec fn v_text(v: Seq<Trit>) -> Seq<char> {
    Seq::new(9, |i: int| if v[i] == Trit::P { '1' } else { '.' })
}

/// The syllable about to run, or "??" off the memory.
pub open spec fn next_text(m: Memory1, r: Registers) -> Seq<char> {
    if valid_page(r.spec_ch()) && valid_addr(r.spec_ca()) {
        mnemonic(m.cell(r.spec_ch(), r.spec_ca()))
    } else {
        "??"@
    }
}

/// The one-line state: mode, (ch,ca), next syllable, p, T, S, R, Y, e, w
/// and v.
pub open spec fn trace_text(m: Memory1, r: Registers) -> Seq<char> {
    "mode="@ + mode_name(r.spec_mode()) + " ("@ + dec_str(r.spec_ch()) + ","@ + dec_str(r.spec_ca())
        + ") next="@ + next_text(m, r) + " | p=("@ + dec_str(r.spec_ph()) + ","@ + dec_str(r.spec_pa())
        + ") T="@ + dec_str(t_word(m, r).value()) + " S="@ + (if r.spec_pa() != -13 {
        dec_str(s_word(m, r).value())
    } else {
        "—"@
    }) + " | R="@ + dec_str(r.r.value()) + " Y="@ + dec_str(r.y.value()) + " e="@ + dec_str(
        r.e.value(),
    ) + " w="@ + dec_str(r.spec_w()) + " v="@ + v_text(r.v.trits@)
}

fn push_mode(out: &mut String, mode: Mode)
    ensures
        final(out)@ == old(out)@ + mode_name(mode),
{
    match mode {
        Mode::Interrupt => push_str(out, "Interrupt"),
        Mode::Macro => push_str(out, "Macro"),
        Mode::User => push_str(out, "User"),
    }
}

/// One-line machine state for tracing.
pub fn trace_state(m: &Machine) -> (r: String)
    ensures
        r@ == trace_text(m.mem, m.regs),
{
    let r = &m.regs;
    proof {
        r.lemma_ranges();
        r.r.lemma_range();
        r.y.lemma_range();
        r.e.lemma_range();
    }
    let mut out = String::new();
    push_str(&mut out, "mode=");
    push_mode(&mut out, r.mode());
    push_str(&mut out, " (");
    push_decimal(&mut out, r.ch() as i64);
    push_str(&mut out, ",");
    push_decimal(&mut out, r.ca() as i64);
    push_str(&mut out, ") next=");
    match m.mem.read(r.ch(), r.ca()) {
        Some(t) => {
            let name = format_syllable(&t);
            push_str(&mut out, name.as_str());
        },
        None => push_str(&mut out, "??"),
    }
    push_str(&mut out, " | p=(");
    push_decimal(&mut out, r.ph() as i64);
    push_str(&mut out, ",");
    push_decimal(&mut out, r.pa() as i64);
    push_str(&mut out, ") T=");
    let t = m.stack_t();
    match t {
        Some(w) => {
            proof {
                w.lemma_range();
            }
            push_decimal(&mut out, w.to_i64());
        },
        None => push_str(&mut out, "—"),
    }
    push_str(&mut out, " S=");
    match m.stack_s() {
        Some(w) => {
            proof {
                w.lemma_range();
            }
            push_decimal(&mut out, w.to_i64());
        },
        None => push_str(&mut out, "—"),
    }
    push_str(&mut out, " | R=");
    push_decimal(&mut out, r.r.to_i64());
    push_str(&mut out, " Y=");
    push_decimal(&mut out, r.y.to_i64());
    push_str(&mut out, " e=");
    push_decimal(&mut out, r.e.to_i16() as i64);
    push_str(&mut out, " w=");
    push_decimal(&mut out, r.w_value() as i64);
    push_str(&mut out, " v=");
    let mut i: usize = 0;
    let ghost before = out@;
    while i < 9
        invariant
            i <= 9,
            out@ == before + v_text(r.v.trits@).take(i as int),
        decreases 9 - i,
    {
        push_char(&mut out, if r.v.trits[i] == Trit::P { '1' } else { '.' });
        i = i + 1;
        assert(out@ =~= before + v_text(r.v.trits@).take(i as int));
    }
    assert(v_text(r.v.trits@).take(9) =~= v_text(r.v.trits@));
    assert(out@ =~= trace_text(m.mem, m.regs));
    out
}

/// The trace line shows the window's top word T after "T=" and the word
/// behind it, S, after " S=" (a dash when the stack is exhausted), in
/// decimal, between the pointer p and the register R.
pub proof fn law_trace_stack_fields(m: Memory1, r: Registers)
    ensures
        exists|a: Seq<char>, b: Seq<char>|
            #![trigger a + ") T="@, b + " | R="@]
            {
                &&& a + ") T="@ + dec_str(t_word(m, r).value()) + " S="@ + (if r.spec_pa() != -13 {
                    dec_str(s_word(m, r).value())
                } else {
                    "—"@
                }) + " | R="@ + b == trace_text(m, r)
                &&& a == "mode="@ + mode_name(r.spec_mode()) + " ("@ + dec_str(r.spec_ch()) + ","@ + dec_str(
                    r.spec_ca(),
                ) + ") next="@ + next_text(m, r) + " | p=("@ + dec_str(r.spec_ph()) + ","@ + dec_str(
                    r.spec_pa(),
                )
            },
{
    let a = "mode="@ + mode_name(r.spec_mode()) + " ("@ + dec_str(r.spec_ch()) + ","@ + dec_str(r.spec_ca())
        + ") next="@ + next_text(m, r) + " | p=("@ + dec_str(r.spec_ph()) + ","@ + dec_str(r.spec_pa());
    let b = dec_str(r.r.value()) + " Y="@ + dec_str(r.y.value()) + " e="@ + dec_str(r.e.value()) + " w="@
        + dec_str(r.spec_w()) + " v="@ + v_text(r.v.trits@);
    let sp = if r.spec_pa() != -13 {
        dec_str(s_word(m, r).value())
    } else {
        "—"@
    };
    assert(a + ") T="@ + dec_str(t_word(m, r).value()) + " S="@ + sp + " | R="@ + b =~= trace_text(m, r));
    assert(a + ") T="@ == a + ") T="@);
    assert(b + " | R="@ == b + " | R="@);
}

} // verus!

