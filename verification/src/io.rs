//! Peripheral layer: byte devices behind the g/u/a registers (INOUT).
//!
//! A device is addressed by (group, number): group ∈ {−1, 0, 1}, number
//! from u[i, 3:4] (2 trits, −4..=4). The byte level is the punched-tape
//! row: bit i (0-based) is the punch at tape position i+1; bit 6 is the
//! sign track.

use vstd::prelude::*;
use crate::charset::{encode_teletype, decode_char, is_representable, sign_of, teletype_code};
use crate::trit::Trit;
use crate::tryte::{Tryte, of_value};
use crate::util::push_char;

verus! {

/// A byte-at-a-time device (tape reader, punch, teletype).
pub trait ByteDevice {
    /// Next byte, or None at end of input / when not ready.
    fn read(&mut self) -> Option<u8>;

    /// Accept a byte.
    fn write(&mut self, byte: u8);
}

/// Bit `i` (0..7) of a byte.
pub open spec fn bit(row: u8, i: int) -> bool {
    if i == 0 {
        row % 2 == 1
    } else if i == 1 {
        (row / 2) % 2 == 1
    } else if i == 2 {
        (row / 4) % 2 == 1
    } else if i == 3 {
        (row / 8) % 2 == 1
    } else if i == 4 {
        (row / 16) % 2 == 1
    } else if i == 5 {
        (row / 32) % 2 == 1
    } else {
        (row / 64) % 2 == 1
    }
}

/// The syllable has a negative trit.
pub open spec fn has_negative(t: Tryte) -> bool {
    exists|j: int| 0 <= j < 6 && #[trigger] t.trits[j] == Trit::N
}

/// Tape row of a syllable: position p (1..6, bit p−1) is punched when
/// syllable trit 6−p is nonzero; the sign track (bit 6) is punched when
/// the syllable has no negative trit.
pub open spec fn row_of(t: Tryte) -> int {
    (if t.trits[5] != Trit::Z { 1int } else { 0 }) + (if t.trits[4] != Trit::Z { 2int } else { 0 })
        + (if t.trits[3] != Trit::Z { 4int } else { 0 }) + (if t.trits[2] != Trit::Z { 8int } else { 0 })
        + (if t.trits[1] != Trit::Z { 16int } else { 0 }) + (if t.trits[0] != Trit::Z { 32int } else { 0 })
        + (if has_negative(t) { 0int } else { 64 })
}

/// Syllable -> tape row.
pub fn syllable_to_row(t: &Tryte) -> (r: u8)
    ensures
        r == row_of(*t),
{
    let b0: u8 = if t.trits[5] != Trit::Z { 1 } else { 0 };
    let b1: u8 = if t.trits[4] != Trit::Z { 2 } else { 0 };
    let b2: u8 = if t.trits[3] != Trit::Z { 4 } else { 0 };
    let b3: u8 = if t.trits[2] != Trit::Z { 8 } else { 0 };
    let b4: u8 = if t.trits[1] != Trit::Z { 16 } else { 0 };
    let b5: u8 = if t.trits[0] != Trit::Z { 32 } else { 0 };
    let mut neg = false;
    for j in 0..6
        invariant
            neg <==> exists|i: int| 0 <= i < j && #[trigger] t.trits[i] == Trit::N,
    {
        if t.trits[j] == Trit::N {
            neg = true;
        }
    }
    let b6: u8 = if neg { 0 } else { 64 };
    b0 + b1 + b2 + b3 + b4 + b5 + b6
}

/// Bit `i` (0..7) of a tape row.
pub fn test_bit(row: u8, i: u8) -> (r: bool)
    requires
        i < 7,
    ensures
        r == bit(row, i as int),
{
    let d: u8 = if i == 0 {
        1
    } else if i == 1 {
        2
    } else if i == 2 {
        4
    } else if i == 3 {
        8
    } else if i == 4 {
        16
    } else if i == 5 {
        32
    } else {
        64
    };
    (row / d) % 2 == 1
}

/// Trit `j` of the syllable a tape row stands for: punched positions carry
/// the sign of the sign track.
pub open spec fn row_trit(row: u8, j: int) -> Trit {
    if bit(row, 5 - j) {
        if bit(row, 6) {
            Trit::P
        } else {
            Trit::N
        }
    } else {
        Trit::Z
    }
}

/// The syllable has no two nonzero trits of opposite signs.
pub open spec fn single_sign(t: Tryte) -> bool {
    !(has_negative(t) && exists|j: int| 0 <= j < 6 && #[trigger] t.trits[j] == Trit::P)
}

pub(crate) proof fn lemma_row_bits(b0: bool, b1: bool, b2: bool, b3: bool, b4: bool, b5: bool, b6: bool)
    ensures
        ({
            let row: u8 = ((if b0 { 1int } else { 0 }) + (if b1 { 2int } else { 0 }) + (if b2 { 4int } else { 0 })
                + (if b3 { 8int } else { 0 }) + (if b4 { 16int } else { 0 }) + (if b5 { 32int } else { 0 })
                + (if b6 { 64int } else { 0 })) as u8;
            &&& bit(row, 0) == b0
            &&& bit(row, 1) == b1
            &&& bit(row, 2) == b2
            &&& bit(row, 3) == b3
            &&& bit(row, 4) == b4
            &&& bit(row, 5) == b5
            &&& bit(row, 6) == b6
        }),
{
}

/// What the tape keeps of a syllable: its zero trits, and its nonzero
/// trits with the sign of the sign track (negative when any trit is).
/// Single-sign syllables therefore survive the tape unchanged.
pub proof fn law_row_roundtrip(t: Tryte)
    ensures
        forall|j: int|
            0 <= j < 6 ==> #[trigger] row_trit(row_of(t) as u8, j) == (if t.trits[j] == Trit::Z {
                Trit::Z
            } else if has_negative(t) {
                Trit::N
            } else {
                Trit::P
            }),
        single_sign(t) ==> forall|j: int| 0 <= j < 6 ==> #[trigger] row_trit(row_of(t) as u8, j) == t.trits[j],
{
    lemma_row_bits(
        t.trits[5] != Trit::Z,
        t.trits[4] != Trit::Z,
        t.trits[3] != Trit::Z,
        t.trits[2] != Trit::Z,
        t.trits[1] != Trit::Z,
        t.trits[0] != Trit::Z,
        !has_negative(t),
    );
    if single_sign(t) {
        assert forall|j: int| 0 <= j < 6 implies #[trigger] row_trit(row_of(t) as u8, j) == t.trits[j] by {
            if t.trits[j] == Trit::N {
                assert(has_negative(t));
            } else if t.trits[j] == Trit::P {
                if has_negative(t) {
                    assert(exists|k: int| 0 <= k < 6 && #[trigger] t.trits[k] == Trit::P);
                }
            }
        }
    }
}

/// Tape row -> syllable: a punch at position p gives syllable trit 6−p
/// the sign of the sign track (P when punched, N otherwise).
pub fn row_to_syllable(row: u8) -> (r: Tryte)
    ensures
        forall|j: int| 0 <= j < 6 ==> #[trigger] r.trits[j] == row_trit(row, j),
{
    let sign = if test_bit(row, 6) {
        Trit::P
    } else {
        Trit::N
    };
    let mut trits = [Trit::Z; 6];
    for p in 0..6u8
        invariant
            sign == (if bit(row, 6) { Trit::P } else { Trit::N }),
            forall|j: int| 0 <= j < 6 ==> #[trigger] trits[j] == (if 5 - j < p && bit(row, 5 - j) {
                sign
            } else {
                Trit::Z
            }),
    {
        if test_bit(row, p) {
            trits[(5 - p) as usize] = sign;
        }
    }
    Tryte { trits }
}

/// Tape reader over an in-memory byte string.
pub struct TapeReader {
    data: Vec<u8>,
    pos: usize,
}

impl TapeReader {
    /// The bytes not read yet.
    pub closed spec fn remaining(self) -> Seq<u8> {
        if self.pos <= self.data@.len() {
            self.data@.skip(self.pos as int)
        } else {
            Seq::empty()
        }
    }

    pub fn new(data: Vec<u8>) -> (r: Self)
        ensures
            r.remaining() == data@,
    {
        let r = TapeReader { data, pos: 0 };
        assert(r.data@.skip(0) =~= r.data@);
        r
    }
}

/// One read of a tape reader took `a` to `b` and gave `r`: the next byte,
/// or None at the end of the tape.
pub open spec fn tape_read(a: TapeReader, b: TapeReader, r: Option<u8>) -> bool {
    &&& a.remaining().len() == 0 ==> r is None && b.remaining() == a.remaining()
    &&& a.remaining().len() > 0 ==> r == Some(a.remaining()[0]) && b.remaining() == a.remaining().drop_first()
}

/// Reading a tape again and again gives its bytes in order, then None for
/// every read past its end; what is left is the rest of the tape.
pub proof fn law_tape_reads(rs: Seq<TapeReader>, outs: Seq<Option<u8>>)
    requires
        rs.len() == outs.len() + 1,
        forall|i: int| #![trigger outs[i]] 0 <= i < outs.len() ==> tape_read(rs[i], rs[i + 1], outs[i]),
    ensures
        forall|i: int|
            0 <= i < outs.len() ==> #[trigger] outs[i] == (if i < rs[0].remaining().len() {
                Some(rs[0].remaining()[i])
            } else {
                None
            }),
        rs.last().remaining() == rs[0].remaining().skip(
            if outs.len() < rs[0].remaining().len() { outs.len() as int } else { rs[0].remaining().len() as int },
        ),
    decreases outs.len(),
{
    let rem = rs[0].remaining();
    let n = outs.len() as int;
    if n > 0 {
        let rs1 = rs.drop_last();
        let outs1 = outs.drop_last();
        assert forall|i: int| #![trigger outs1[i]] 0 <= i < outs1.len() implies tape_read(rs1[i], rs1[i + 1], outs1[i]) by {
            assert(outs1[i] == outs[i]);
        }
        law_tape_reads(rs1, outs1);
        let m = n - 1;
        let k: int = if m < rem.len() { m } else { rem.len() as int };
        assert(rs1.last() == rs[m]);
        assert(rs[m].remaining() == rem.skip(k));
        assert(tape_read(rs[m], rs[m + 1], outs[m]));
        if m < rem.len() {
            assert(rem.skip(k)[0] == rem[m]);
            assert(rem.skip(k).drop_first() =~= rem.skip(k + 1));
        }
        assert forall|i: int| 0 <= i < outs.len() implies #[trigger] outs[i] == (if i < rem.len() {
            Some(rem[i])
        } else {
            None
        }) by {
            if i < m {
                assert(outs1[i] == outs[i]);
            }
        }
    } else {
        assert(rem.skip(0) =~= rem);
    }
}

impl ByteDevice for TapeReader {
    fn read(&mut self) -> (r: Option<u8>)
        ensures
            tape_read(*old(self), *final(self), r),
    {
        if self.pos < self.data.len() {
            let b = self.data[self.pos];
            self.pos = self.pos + 1;
            assert(self.data@.skip(self.pos as int) =~= self.data@.skip(self.pos - 1).drop_first());
            Some(b)
        } else {
            None
        }
    }

    fn write(&mut self, _byte: u8)
        ensures
            final(self).remaining() == old(self).remaining(),
    {
    }
}

/// Tape punch collecting output bytes.
pub struct TapePunch {
    pub out: Vec<u8>,
}

impl Default for TapePunch {
    fn default() -> (r: Self)
        ensures
            r.out@ == Seq::<u8>::empty(),
    {
        TapePunch { out: Vec::new() }
    }
}

impl ByteDevice for TapePunch {
    fn read(&mut self) -> (r: Option<u8>)
        ensures
            r is None,
            final(self).out@ == old(self).out@,
    {
        None
    }

    fn write(&mut self, byte: u8)
        ensures
            final(self).out@ == old(self).out@.push(byte),
    {
        self.out.push(byte);
    }
}

/// A device as the bus holds it.
pub struct Device(pub Box<dyn ByteDevice>);

/// The addresses of a bus and the devices attached there: `devices[i]`
/// answers at `keys[i]`.
struct DeviceTable {
    keys: Vec<(i8, i8)>,
    devices: Vec<Device>,
}

/// Device bus: (group, number) -> device.
///
/// Every address has one device, and no address occurs twice.
pub struct IoBus {
    table: DeviceTable,
    sent: Ghost<Seq<((i8, i8), u8)>>,
    asked: Ghost<Seq<((i8, i8), Option<u8>)>>,
}

/// No address occurs twice in `s`.
spec fn distinct_keys(s: Seq<(i8, i8)>) -> bool {
    forall|i: int, j: int| 0 <= i < j < s.len() ==> #[trigger] s[i] != #[trigger] s[j]
}

proof fn lemma_no_duplicates(s: Seq<(i8, i8)>)
    requires
        distinct_keys(s),
    ensures
        s.no_duplicates(),
{
    assert forall|i: int, j: int| 0 <= i < s.len() && 0 <= j < s.len() && i != j implies s[i] != s[j] by {
        if i < j {
            assert(s[i] != s[j]);
        } else {
            assert(s[j] != s[i]);
        }
    }
}

impl IoBus {
    #[verifier::type_invariant]
    spec fn table_whole(self) -> bool {
        &&& self.table.keys@.len() == self.table.devices@.len()
        &&& distinct_keys(self.table.keys@)
    }

    /// The addresses with an attached device, in attachment order, each once.
    pub closed spec fn keys(self) -> Seq<(i8, i8)> {
        self.table.keys@
    }

    /// The attached devices: `devices()[i]` answers at `keys()[i]`.
    pub closed spec fn devices(self) -> Seq<Device> {
        self.table.devices@
    }

    /// Every byte `write` has handed to an attached device, with its
    /// address, in order.
    pub closed spec fn sent(self) -> Seq<((i8, i8), u8)> {
        self.sent@
    }

    /// Every answer `read` has got from an attached device, with its
    /// address, in order.
    pub closed spec fn asked(self) -> Seq<((i8, i8), Option<u8>)> {
        self.asked@
    }

    pub fn new() -> (r: Self)
        ensures
            r.keys().len() == 0,
            r.devices().len() == 0,
            r.sent().len() == 0,
            r.asked().len() == 0,
    {
        IoBus {
            table: DeviceTable { keys: Vec::new(), devices: Vec::new() },
            sent: Ghost(Seq::empty()),
            asked: Ghost(Seq::empty()),
        }
    }

    fn find(&self, group: i8, number: i8) -> (r: Option<usize>)
        ensures
            r matches Some(i) ==> i < self.keys().len() && i < self.devices().len() && self.keys()[i as int]
                == (group, number),
            r is None ==> !self.keys().contains((group, number)),
    {
        proof {
            use_type_invariant(self);
        }
        let mut i: usize = 0;
        while i < self.table.keys.len()
            invariant
                i <= self.table.keys@.len(),
                self.table.keys@.len() == self.table.devices@.len(),
                forall|j: int| 0 <= j < i ==> #[trigger] self.table.keys@[j] != (group, number),
            decreases self.table.keys@.len() - i,
        {
            let (g, n) = self.table.keys[i];
            if g == group && n == number {
                return Some(i);
            }
            i = i + 1;
        }
        None
    }

    /// Takes the table out, leaving an empty one.
    fn take_table(&mut self) -> (t: DeviceTable)
        ensures
            t.keys@ == old(self).table.keys@,
            t.devices@ == old(self).table.devices@,
            final(self).table.keys@.len() == 0,
            final(self).table.devices@.len() == 0,
            final(self).sent == old(self).sent,
            final(self).asked == old(self).asked,
    {
        let mut t = DeviceTable { keys: Vec::new(), devices: Vec::new() };
        std::mem::swap(&mut t, &mut self.table);
        t
    }

    /// Puts a whole table back.
    fn put_table(&mut self, t: DeviceTable)
        requires
            t.keys@.len() == t.devices@.len(),
            distinct_keys(t.keys@),
        ensures
            final(self).table.keys@ == t.keys@,
            final(self).table.devices@ == t.devices@,
            final(self).sent == old(self).sent,
            final(self).asked == old(self).asked,
    {
        let mut t = t;
        std::mem::swap(&mut t, &mut self.table);
    }

    /// Attaches a device at (group, number), replacing any device there.
    pub fn attach(&mut self, group: i8, number: i8, device: Device)
        ensures
            final(self).keys().len() == final(self).devices().len(),
            final(self).keys().no_duplicates(),
            final(self).sent() == old(self).sent(),
            final(self).asked() == old(self).asked(),
            old(self).keys().contains((group, number)) ==> final(self).keys() == old(self).keys()
                && exists|i: int|
                0 <= i < old(self).keys().len() && old(self).keys()[i] == (group, number)
                    && #[trigger] final(self).devices() == old(self).devices().update(i, device),
            !old(self).keys().contains((group, number)) ==> final(self).keys() == old(self).keys().push(
                (group, number),
            ) && final(self).devices() == old(self).devices().push(device),
    {
        proof {
            use_type_invariant(&*self);
        }
        let found = self.find(group, number);
        let mut t = self.take_table();
        match found {
            Some(i) => {
                t.devices.set(i, device);
            },
            None => {
                let ghost k0 = t.keys@;
                t.keys.push((group, number));
                t.devices.push(device);
                proof {
                    assert forall|x: int, y: int| 0 <= x < y < t.keys@.len() implies #[trigger] t.keys@[x]
                        != #[trigger] t.keys@[y] by {
                        if y == k0.len() {
                            assert(k0[x] == t.keys@[x]);
                            if k0[x] == (group, number) {
                                assert(k0.contains((group, number)));
                            }
                        } else {
                            assert(k0[x] != k0[y]);
                        }
                    }
                }
            },
        }
        self.put_table(t);
        proof {
            use_type_invariant(&*self);
            lemma_no_duplicates(self.table.keys@);
        }
    }

    /// Next byte of the device at (group, number); None when no device is
    /// there. Only that device is asked, and only it may change; what it
    /// answers is up to its own `read`, which the trait leaves unspecified.
    pub fn read(&mut self, group: i8, number: i8) -> (r: Option<u8>)
        ensures
            final(self).keys().len() == final(self).devices().len(),
            final(self).keys().no_duplicates(),
            final(self).keys() == old(self).keys(),
            final(self).devices().len() == old(self).devices().len(),
            forall|j: int|
                0 <= j < old(self).devices().len() && old(self).keys()[j] != (group, number)
                    ==> #[trigger] final(self).devices()[j] == old(self).devices()[j],
            !old(self).keys().contains((group, number)) ==> r is None,
            final(self).sent() == old(self).sent(),
            old(self).keys().contains((group, number)) ==> final(self).asked() == old(self).asked().push(
                ((group, number), r),
            ),
            !old(self).keys().contains((group, number)) ==> final(self).asked() == old(self).asked(),
    {
        proof {
            use_type_invariant(&*self);
        }
        match self.find(group, number) {
            Some(i) => {
                let mut t = self.take_table();
                let r = t.devices[i].0.read();
                self.put_table(t);
                proof {
                    self.asked@ = self.asked@.push(((group, number), r));
                }
                proof {
                    use_type_invariant(&*self);
                    lemma_no_duplicates(self.table.keys@);
                }
                r
            },
            None => {
                proof {
                    lemma_no_duplicates(self.table.keys@);
                }
                None
            },
        }
    }

    /// Hands a byte to the device at (group, number); false when no device
    /// is there (the byte is dropped). Only that device may change.
    pub fn write(&mut self, group: i8, number: i8, byte: u8) -> (r: bool)
        ensures
            final(self).keys().len() == final(self).devices().len(),
            final(self).keys().no_duplicates(),
            final(self).keys() == old(self).keys(),
            r == old(self).keys().contains((group, number)),
            final(self).devices().len() == old(self).devices().len(),
            forall|j: int|
                0 <= j < old(self).devices().len() && old(self).keys()[j] != (group, number)
                    ==> #[trigger] final(self).devices()[j] == old(self).devices()[j],
            r ==> final(self).sent() == old(self).sent().push(((group, number), byte)),
            !r ==> final(self).sent() == old(self).sent(),
            final(self).asked() == old(self).asked(),
    {
        proof {
            use_type_invariant(&*self);
        }
        match self.find(group, number) {
            Some(i) => {
                let mut t = self.take_table();
                t.devices[i].0.write(byte);
                self.put_table(t);
                proof {
                    self.sent@ = self.sent@.push(((group, number), byte));
                }
                proof {
                    use_type_invariant(&*self);
                    lemma_no_duplicates(self.table.keys@);
                }
                true
            },
            None => {
                proof {
                    lemma_no_duplicates(self.table.keys@);
                }
                false
            },
        }
    }
}

/// A character of the teletype alphabet: a sign of the table, the space
/// or the line feed.
pub open spec fn typable(c: char) -> bool {
    c == '\n' || c == ' ' || exists|k: i16| #[trigger] sign_of(k) == Some(c)
}

/// The characters of `s` that are in the teletype alphabet, in order.
pub open spec fn keep_typable(s: Seq<char>) -> Seq<char>
    decreases s.len(),
{
    if s.len() == 0 {
        Seq::empty()
    } else {
        keep_typable(s.drop_last()) + (if typable(s.last()) {
            seq![s.last()]
        } else {
            Seq::empty()
        })
    }
}

/// Position of the first typable character of `s` from `i` on (its length
/// if none).
pub open spec fn first_typable(s: Seq<char>, i: int) -> int
    decreases s.len() - i,
{
    if i >= s.len() {
        s.len() as int
    } else if typable(s[i]) {
        i
    } else {
        first_typable(s, i + 1)
    }
}

/// Balanced value of the syllable a tape row stands for.
pub open spec fn row_value(row: u8) -> int {
    let s: int = if bit(row, 6) { 1 } else { -1 };
    (if bit(row, 5) { s } else { 0 }) + 3 * (if bit(row, 4) { s } else { 0 }) + 9 * (if bit(row, 3) { s } else { 0 })
        + 27 * (if bit(row, 2) { s } else { 0 }) + 81 * (if bit(row, 1) { s } else { 0 }) + 243 * (if bit(row, 0) { s } else { 0 })
}

/// What the printer shows for a character code: its sign; a line feed for
/// Возврат каретки (283) and Перевод строки (282); a space for Пропуск
/// (270); nothing for the other codes.
pub open spec fn printed(code: int) -> Seq<char> {
    if -32768 <= code <= 32767 && sign_of(code as i16) is Some {
        seq![sign_of(code as i16)->Some_0]
    } else if code == 283 || code == 282 {
        seq!['\n']
    } else if code == 270 {
        seq![' ']
    } else {
        Seq::empty()
    }
}

/// Teletype: a character-level device over the character layer.
///
/// Input characters are encoded to syllable codes and presented as tape
/// rows; output rows are decoded back to characters (CR/LF become '\n').
/// Characters outside the alphabet are skipped.
pub struct Teletype {
    input: Vec<char>,
    pos: usize,
    pub output: String,
}

impl Teletype {
    /// What the printer has shown.
    pub closed spec fn shown(self) -> Seq<char> {
        self.output@
    }

    /// The text the printer has shown (the `output` field).
    pub fn printed_text(&self) -> (r: &String)
        ensures
            r@ == self.shown(),
    {
        &self.output
    }

    /// The characters typed and not read yet.
    pub closed spec fn pending(self) -> Seq<char> {
        if self.pos <= self.input@.len() {
            self.input@.skip(self.pos as int)
        } else {
            Seq::empty()
        }
    }

    /// The typable characters of `s`.
    fn filter_typable(s: &str) -> (r: Vec<char>)
        ensures
            r@ == keep_typable(s@),
    {
        let n = s.unicode_len();
        let mut out: Vec<char> = Vec::new();
        let mut i: usize = 0;
        while i < n
            invariant
                i <= n,
                n == s@.len(),
                out@ == keep_typable(s@.take(i as int)),
            decreases n - i,
        {
            let c = s.get_char(i);
            proof {
                assert(s@.take(i + 1).drop_last() =~= s@.take(i as int));
            }
            if is_representable(c) {
                out.push(c);
            }
            i = i + 1;
        }
        proof {
            assert(s@.take(n as int) =~= s@);
        }
        out
    }

    /// Only characters of the alphabet enter the input queue; everything
    /// else is ignored silently.
    pub fn new(input: &str) -> (r: Self)
        ensures
            r.pending() == keep_typable(input@),
            r.shown() == Seq::<char>::empty(),
    {
        let v = Self::filter_typable(input);
        let r = Teletype { input: v, pos: 0, output: String::new() };
        assert(r.input@.skip(0) =~= r.input@);
        r
    }

    /// Type more characters (appended to the input queue, filtered).
    pub fn type_str(&mut self, s: &str)
        ensures
            final(self).pending() == old(self).pending() + keep_typable(s@),
            final(self).shown() == old(self).shown(),
    {
        if self.pos > self.input.len() {
            self.pos = self.input.len();
            assert(self.input@.skip(self.pos as int) =~= Seq::<char>::empty());
        }
        let ghost before = self.input@;
        assert(old(self).pending() =~= before.skip(self.pos as int));
        let more = Self::filter_typable(s);
        let mut i: usize = 0;
        while i < more.len()
            invariant
                i <= more@.len(),
                self.pos <= before.len(),
                self.input@ == before + more@.take(i as int),
                self.output == old(self).output,
                old(self).pending() == before.skip(self.pos as int),
                self.pending() == old(self).pending() + more@.take(i as int),
            decreases more@.len() - i,
        {
            self.input.push(more[i]);
            proof {
                assert(more@.take(i + 1) =~= more@.take(i as int).push(more@[i as int]));
                assert(self.input@.skip(self.pos as int) =~= old(self).pending() + more@.take(i + 1));
            }
            i = i + 1;
        }
        proof {
            assert(more@.take(more@.len() as int) =~= more@);
        }
    }
}

impl ByteDevice for Teletype {
    fn read(&mut self) -> (r: Option<u8>)
        ensures
            ({
                let p = old(self).pending();
                let k = first_typable(p, 0);
                if k >= p.len() {
                    r is None && final(self).pending() == Seq::<char>::empty()
                } else {
                    &&& final(self).pending() == p.skip(k + 1)
                    &&& exists|t: Tryte|
                        #![trigger row_of(t)]
                        teletype_code(p[k], t.value() as i16) && -364 <= t.value() <= 364 && r == Some(row_of(t) as u8)
                }
            }),
            final(self).shown() == old(self).shown(),
    {
        if self.pos > self.input.len() {
            self.pos = self.input.len();
            assert(self.input@.skip(self.pos as int) =~= Seq::<char>::empty());
            return None;
        }
        let ghost p = self.pending();
        let ghost start = self.pos;
        while self.pos < self.input.len()
            invariant
                start <= self.pos <= self.input@.len(),
                p == old(self).input@.skip(start as int),
                p == old(self).pending(),
                self.input == old(self).input,
                self.output == old(self).output,
                first_typable(p, 0) == first_typable(p, self.pos - start),
            decreases self.input@.len() - self.pos,
        {
            let c = self.input[self.pos];
            self.pos = self.pos + 1;
            assert(p[self.pos - 1 - start] == c);
            if let Some(code) = encode_teletype(c) {
                let t = Tryte::from_i16(code);
                let r = syllable_to_row(&t);
                proof {
                    crate::arith::lemma_wrap_small(code as int, 729);
                    let k = self.pos - 1 - start;
                    assert(self.input@.skip(self.pos as int) =~= p.skip(k + 1));
                    if c != '\n' && c != ' ' {
                        assert(sign_of(code) == Some(c));
                    }
                    assert(typable(p[k]));
                    assert(first_typable(p, k) == k);
                    assert(teletype_code(p[k], t.value() as i16));
                    assert(r == row_of(t) as u8);
                    assert(-364 <= t.value() <= 364);
                }
                return Some(r);
            }
        }
        proof {
            assert(self.input@.skip(self.pos as int) =~= Seq::<char>::empty());
        }
        None
    }

    fn write(&mut self, row: u8)
        ensures
            final(self).shown() == old(self).shown() + printed(row_value(row)),
            final(self).pending() == old(self).pending(),
    {
        let t = row_to_syllable(row);
        let code = t.to_i16();
        proof {
            assert(code == row_value(row));
        }
        match decode_char(code) {
            Some(c) => push_char(&mut self.output, c),
            None => {
                if code == 283 || code == 282 {
                    push_char(&mut self.output, '\n');
                } else if code == 270 {
                    push_char(&mut self.output, ' ');
                }
            },
        }
        assert(self.shown() =~= old(self).shown() + printed(row_value(row)));
    }
}

/// The syllable has nonzero trits of both signs.
pub open spec fn mixed_signs(t: Tryte) -> bool {
    let a = t.trits;
    &&& (a[0] == Trit::N || a[1] == Trit::N || a[2] == Trit::N || a[3] == Trit::N || a[4] == Trit::N
        || a[5] == Trit::N)
    &&& (a[0] == Trit::P || a[1] == Trit::P || a[2] == Trit::P || a[3] == Trit::P || a[4] == Trit::P
        || a[5] == Trit::P)
}

proof fn lemma_single_sign_iff(t: Tryte)
    ensures
        single_sign(t) == !mixed_signs(t),
{
    if mixed_signs(t) {
        let a = t.trits;
        let jn: int = if a[0] == Trit::N { 0 } else if a[1] == Trit::N { 1 } else if a[2] == Trit::N {
            2
        } else if a[3] == Trit::N { 3 } else if a[4] == Trit::N { 4 } else { 5 };
        let jp: int = if a[0] == Trit::P { 0 } else if a[1] == Trit::P { 1 } else if a[2] == Trit::P {
            2
        } else if a[3] == Trit::P { 3 } else if a[4] == Trit::P { 4 } else { 5 };
        assert(t.trits[jn] == Trit::N);
        assert(t.trits[jp] == Trit::P);
    } else if !single_sign(t) {
        let jn = choose|j: int| 0 <= j < 6 && #[trigger] t.trits[j] == Trit::N;
        let jp = choose|j: int| 0 <= j < 6 && #[trigger] t.trits[j] == Trit::P;
        assert(0 <= jn < 6 && t.trits[jn] == Trit::N);
        assert(0 <= jp < 6 && t.trits[jp] == Trit::P);
    }
}

/// The syllable of the balanced digits `a0..a5` (least significant
/// first) is the one with those trits, and its value is their sum.
proof fn lemma_code_trits(a0: int, a1: int, a2: int, a3: int, a4: int, a5: int)
    requires
        -1 <= a0 <= 1,
        -1 <= a1 <= 1,
        -1 <= a2 <= 1,
        -1 <= a3 <= 1,
        -1 <= a4 <= 1,
        -1 <= a5 <= 1,
    ensures
        of_value(a0 + 3 * a1 + 9 * a2 + 27 * a3 + 81 * a4 + 243 * a5) == (Tryte {
            trits: [Trit::of(a0), Trit::of(a1), Trit::of(a2), Trit::of(a3), Trit::of(a4), Trit::of(a5)],
        }),
        (Tryte {
            trits: [Trit::of(a0), Trit::of(a1), Trit::of(a2), Trit::of(a3), Trit::of(a4), Trit::of(a5)],
        }).value() == a0 + 3 * a1 + 9 * a2 + 27 * a3 + 81 * a4 + 243 * a5,
{
    let t = Tryte {
        trits: [Trit::of(a0), Trit::of(a1), Trit::of(a2), Trit::of(a3), Trit::of(a4), Trit::of(a5)],
    };
    crate::tryte::lemma_of_value(t);
}

#[verifier::rlimit(60)]
proof fn lemma_alphabet_negative(k: i16)
    requires
        sign_of(k) is Some || k == 270 || k == 283,
        k < 0,
    ensures
        !mixed_signs(of_value(k as int)),
        of_value(k as int).value() == k,
{
    if k == -364 {
        lemma_code_trits(-1, -1, -1, -1, -1, -1);
    } else if k == -363 {
        lemma_code_trits(0, -1, -1, -1, -1, -1);
    } else if k == -361 {
        lemma_code_trits(-1, 0, -1, -1, -1, -1);
    } else if k == -355 {
        lemma_code_trits(-1, -1, 0, -1, -1, -1);
    } else if k == -354 {
        lemma_code_trits(0, -1, 0, -1, -1, -1);
    } else if k == -352 {
        lemma_code_trits(-1, 0, 0, -1, -1, -1);
    } else if k == -351 {
        lemma_code_trits(0, 0, 0, -1, -1, -1);
    } else if k == -337 {
        lemma_code_trits(-1, -1, -1, 0, -1, -1);
    } else if k == -336 {
        lemma_code_trits(0, -1, -1, 0, -1, -1);
    } else if k == -334 {
        lemma_code_trits(-1, 0, -1, 0, -1, -1);
    } else if k == -333 {
        lemma_code_trits(0, 0, -1, 0, -1, -1);
    } else if k == -328 {
        lemma_code_trits(-1, -1, 0, 0, -1, -1);
    } else if k == -256 {
        lemma_code_trits(-1, -1, -1, 0, 0, -1);
    } else if k == -255 {
        lemma_code_trits(0, -1, -1, 0, 0, -1);
    } else if k == -121 {
        lemma_code_trits(-1, -1, -1, -1, -1, 0);
    } else if k == -120 {
        lemma_code_trits(0, -1, -1, -1, -1, 0);
    } else if k == -118 {
        lemma_code_trits(-1, 0, -1, -1, -1, 0);
    } else if k == -117 {
        lemma_code_trits(0, 0, -1, -1, -1, 0);
    } else if k == -112 {
        lemma_code_trits(-1, -1, 0, -1, -1, 0);
    } else if k == -111 {
        lemma_code_trits(0, -1, 0, -1, -1, 0);
    } else if k == -109 {
        lemma_code_trits(-1, 0, 0, -1, -1, 0);
    } else if k == -108 {
        lemma_code_trits(0, 0, 0, -1, -1, 0);
    } else if k == -94 {
        lemma_code_trits(-1, -1, -1, 0, -1, 0);
    } else if k == -93 {
        lemma_code_trits(0, -1, -1, 0, -1, 0);
    } else if k == -91 {
        lemma_code_trits(-1, 0, -1, 0, -1, 0);
    } else if k == -90 {
        lemma_code_trits(0, 0, -1, 0, -1, 0);
    } else if k == -85 {
        lemma_code_trits(-1, -1, 0, 0, -1, 0);
    } else if k == -84 {
        lemma_code_trits(0, -1, 0, 0, -1, 0);
    } else if k == -82 {
        lemma_code_trits(-1, 0, 0, 0, -1, 0);
    } else if k == -81 {
        lemma_code_trits(0, 0, 0, 0, -1, 0);
    } else if k == -40 {
        lemma_code_trits(-1, -1, -1, -1, 0, 0);
    } else if k == -39 {
        lemma_code_trits(0, -1, -1, -1, 0, 0);
    } else if k == -37 {
        lemma_code_trits(-1, 0, -1, -1, 0, 0);
    } else if k == -36 {
        lemma_code_trits(0, 0, -1, -1, 0, 0);
    } else if k == -31 {
        lemma_code_trits(-1, -1, 0, -1, 0, 0);
    } else if k == -30 {
        lemma_code_trits(0, -1, 0, -1, 0, 0);
    } else if k == -28 {
        lemma_code_trits(-1, 0, 0, -1, 0, 0);
    } else if k == -27 {
        lemma_code_trits(0, 0, 0, -1, 0, 0);
    } else if k == -13 {
        lemma_code_trits(-1, -1, -1, 0, 0, 0);
    } else if k == -12 {
        lemma_code_trits(0, -1, -1, 0, 0, 0);
    } else if k == -10 {
        lemma_code_trits(-1, 0, -1, 0, 0, 0);
    } else if k == -9 {
        lemma_code_trits(0, 0, -1, 0, 0, 0);
    } else if k == -4 {
        lemma_code_trits(-1, -1, 0, 0, 0, 0);
    } else if k == -3 {
        lemma_code_trits(0, -1, 0, 0, 0, 0);
    } else if k == -1 {
        lemma_code_trits(-1, 0, 0, 0, 0, 0);
    }
}

#[verifier::rlimit(60)]
proof fn lemma_alphabet_nonnegative(k: i16)
    requires
        sign_of(k) is Some || k == 270 || k == 283,
        k >= 0,
    ensures
        !mixed_signs(of_value(k as int)),
        of_value(k as int).value() == k,
{
    if k == 1 {
        lemma_code_trits(1, 0, 0, 0, 0, 0);
    } else if k == 3 {
        lemma_code_trits(0, 1, 0, 0, 0, 0);
    } else if k == 4 {
        lemma_code_trits(1, 1, 0, 0, 0, 0);
    } else if k == 9 {
        lemma_code_trits(0, 0, 1, 0, 0, 0);
    } else if k == 10 {
        lemma_code_trits(1, 0, 1, 0, 0, 0);
    } else if k == 12 {
        lemma_code_trits(0, 1, 1, 0, 0, 0);
    } else if k == 13 {
        lemma_code_trits(1, 1, 1, 0, 0, 0);
    } else if k == 27 {
        lemma_code_trits(0, 0, 0, 1, 0, 0);
    } else if k == 28 {
        lemma_code_trits(1, 0, 0, 1, 0, 0);
    } else if k == 30 {
        lemma_code_trits(0, 1, 0, 1, 0, 0);
    } else if k == 31 {
        lemma_code_trits(1, 1, 0, 1, 0, 0);
    } else if k == 36 {
        lemma_code_trits(0, 0, 1, 1, 0, 0);
    } else if k == 37 {
        lemma_code_trits(1, 0, 1, 1, 0, 0);
    } else if k == 39 {
        lemma_code_trits(0, 1, 1, 1, 0, 0);
    } else if k == 40 {
        lemma_code_trits(1, 1, 1, 1, 0, 0);
    } else if k == 81 {
        lemma_code_trits(0, 0, 0, 0, 1, 0);
    } else if k == 82 {
        lemma_code_trits(1, 0, 0, 0, 1, 0);
    } else if k == 84 {
        lemma_code_trits(0, 1, 0, 0, 1, 0);
    } else if k == 85 {
        lemma_code_trits(1, 1, 0, 0, 1, 0);
    } else if k == 90 {
        lemma_code_trits(0, 0, 1, 0, 1, 0);
    } else if k == 91 {
        lemma_code_trits(1, 0, 1, 0, 1, 0);
    } else if k == 93 {
        lemma_code_trits(0, 1, 1, 0, 1, 0);
    } else if k == 94 {
        lemma_code_trits(1, 1, 1, 0, 1, 0);
    } else if k == 108 {
        lemma_code_trits(0, 0, 0, 1, 1, 0);
    } else if k == 109 {
        lemma_code_trits(1, 0, 0, 1, 1, 0);
    } else if k == 111 {
        lemma_code_trits(0, 1, 0, 1, 1, 0);
    } else if k == 112 {
        lemma_code_trits(1, 1, 0, 1, 1, 0);
    } else if k == 117 {
        lemma_code_trits(0, 0, 1, 1, 1, 0);
    } else if k == 118 {
        lemma_code_trits(1, 0, 1, 1, 1, 0);
    } else if k == 120 {
        lemma_code_trits(0, 1, 1, 1, 1, 0);
    } else if k == 121 {
        lemma_code_trits(1, 1, 1, 1, 1, 0);
    } else if k == 255 {
        lemma_code_trits(0, 1, 1, 0, 0, 1);
    } else if k == 256 {
        lemma_code_trits(1, 1, 1, 0, 0, 1);
    } else if k == 328 {
        lemma_code_trits(1, 1, 0, 0, 1, 1);
    } else if k == 333 {
        lemma_code_trits(0, 0, 1, 0, 1, 1);
    } else if k == 334 {
        lemma_code_trits(1, 0, 1, 0, 1, 1);
    } else if k == 336 {
        lemma_code_trits(0, 1, 1, 0, 1, 1);
    } else if k == 337 {
        lemma_code_trits(1, 1, 1, 0, 1, 1);
    } else if k == 351 {
        lemma_code_trits(0, 0, 0, 1, 1, 1);
    } else if k == 352 {
        lemma_code_trits(1, 0, 0, 1, 1, 1);
    } else if k == 354 {
        lemma_code_trits(0, 1, 0, 1, 1, 1);
    } else if k == 355 {
        lemma_code_trits(1, 1, 0, 1, 1, 1);
    } else if k == 360 {
        lemma_code_trits(0, 0, 1, 1, 1, 1);
    } else if k == 361 {
        lemma_code_trits(1, 0, 1, 1, 1, 1);
    } else if k == 363 {
        lemma_code_trits(0, 1, 1, 1, 1, 1);
    } else if k == 364 {
        lemma_code_trits(1, 1, 1, 1, 1, 1);
    } else if k == 270 {
        lemma_code_trits(0, 0, 0, 1, 0, 1);
    } else if k == 283 {
        lemma_code_trits(1, 1, 1, 1, 0, 1);
    }
}

/// The syllables of the teletype alphabet (the signs, the space 270 and
/// the line feed 283) have no mixed signs, and each is the syllable of its
/// code.
proof fn lemma_alphabet_codes(k: i16)
    requires
        sign_of(k) is Some || k == 270 || k == 283,
    ensures
        !mixed_signs(of_value(k as int)),
        of_value(k as int).value() == k,
{
    if k < 0 {
        lemma_alphabet_negative(k);
    } else {
        lemma_alphabet_nonnegative(k);
    }
}

/// Every code of the teletype alphabet (the signs of the character table,
/// the space 270 and the line feed 283) is a single-sign syllable, and the
/// tape carries it unchanged: the row punched for it reads back as the same
/// trits and the same code.
pub proof fn law_sign_codes_survive_tape(k: i16)
    requires
        sign_of(k) is Some || k == 270 || k == 283,
    ensures
        single_sign(of_value(k as int)),
        forall|j: int|
            0 <= j < 6 ==> #[trigger] row_trit(row_of(of_value(k as int)) as u8, j) == of_value(k as int).trits[j],
        row_value(row_of(of_value(k as int)) as u8) == k,
{
    lemma_alphabet_codes(k);
    let t = of_value(k as int);
    lemma_single_sign_iff(t);
    law_row_roundtrip(t);
    let row = row_of(t) as u8;
    assert(row_trit(row, 0) == t.trits[0]);
    assert(row_trit(row, 1) == t.trits[1]);
    assert(row_trit(row, 2) == t.trits[2]);
    assert(row_trit(row, 3) == t.trits[3]);
    assert(row_trit(row, 4) == t.trits[4]);
    assert(row_trit(row, 5) == t.trits[5]);
    assert(row_value(row) == t.value());
}

/// A character typed on the teletype comes out of its printer as itself:
/// the tape row of its code prints the character.
pub proof fn law_teletype_echo(c: char, k: i16)
    requires
        teletype_code(c, k),
    ensures
        printed(row_value(row_of(of_value(k as int)) as u8)) == seq![c],
{
    lemma_alphabet_codes(k);
    let t = of_value(k as int);
    lemma_single_sign_iff(t);
    law_row_roundtrip(t);
    let row = row_of(t) as u8;
    assert(row_trit(row, 0) == t.trits[0]);
    assert(row_trit(row, 1) == t.trits[1]);
    assert(row_trit(row, 2) == t.trits[2]);
    assert(row_trit(row, 3) == t.trits[3]);
    assert(row_trit(row, 4) == t.trits[4]);
    assert(row_trit(row, 5) == t.trits[5]);
    assert(row_value(row) == t.value());
}

} // verus!
