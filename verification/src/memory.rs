//! Level-1 memory (27 pages × 81 syllables) and level-2 memory (the drum).
//!
//! Syllable addresses −40..=40, page numbers −13..=13:
//!   RAM (read/write): pages −4..=4                 (9 pages)
//!   ROM (read-only):  pages −13..=−5 and 5..=13    (18 pages)

use vstd::prelude::*;
use crate::tryte::Tryte;

verus! {

pub const PAGE_MIN: i8 = -13;
pub const PAGE_MAX: i8 = 13;
pub const ADDR_MIN: i8 = -40;
pub const ADDR_MAX: i8 = 40;
/// Syllables per page.
pub const PAGE_SIZE: usize = 81;
pub const RAM_MIN: i8 = -4;
pub const RAM_MAX: i8 = 4;
/// Number of level-1 pages.
pub const PAGE_COUNT: usize = 27;
/// Number of RAM pages.
pub const RAM_PAGE_COUNT: usize = 9;
/// Number of ROM pages (the rest).
pub const ROM_PAGE_COUNT: usize = 18;

pub open spec fn valid_page(page: int) -> bool {
    -13 <= page <= 13
}

pub open spec fn valid_addr(addr: int) -> bool {
    -40 <= addr <= 40
}

pub open spec fn ram_page(page: int) -> bool {
    -4 <= page <= 4
}

pub open spec fn rom_page(page: int) -> bool {
    valid_page(page) && !ram_page(page)
}

#[derive(Clone, Copy, Debug, PartialEq, Eq, Structural)]
pub enum MemError {
    /// Write to a read-only (ROM) page.
    ReadOnly { page: i8 },
    /// Page or syllable address outside the level-1 memory.
    BadAddress { page: i8, addr: i8 },
}

/// One page of 81 syllables; slot 0 is syllable −40.
#[derive(Clone, Copy, Debug)]
pub struct Page {
    pub syllables: [Tryte; 81],
}

impl Page {
    /// Syllable at address `addr` (−40..=40).
    pub open spec fn at(self, addr: int) -> Tryte {
        self.syllables[addr + 40]
    }

    pub fn zeroed() -> (r: Self)
        ensures
            forall|a: int| valid_addr(a) ==> (#[trigger] r.at(a)).is_zero(),
    {
        Page { syllables: [Tryte::zero(); 81] }
    }

    pub fn read(&self, addr: i8) -> (r: Option<Tryte>)
        ensures
            r is Some <==> valid_addr(addr as int),
            r matches Some(t) ==> t == self.at(addr as int),
    {
        if ADDR_MIN <= addr && addr <= ADDR_MAX {
            Some(self.syllables[(addr + 40) as usize])
        } else {
            None
        }
    }

    pub fn write(&mut self, addr: i8, value: Tryte) -> (r: bool)
        ensures
            r == valid_addr(addr as int),
            r ==> final(self).syllables@ == old(self).syllables@.update(addr + 40, value),
            !r ==> *final(self) == *old(self),
    {
        if ADDR_MIN <= addr && addr <= ADDR_MAX {
            self.syllables[(addr + 40) as usize] = value;
            true
        } else {
            false
        }
    }
}

/// Level-1 memory: 27 pages × 81 syllables.
#[derive(Clone, Copy, Debug)]
pub struct Memory1 {
    pages: [Page; 27],
}

impl Memory1 {
    /// The page `page` (−13..=13).
    pub closed spec fn page_at(self, page: int) -> Page {
        self.pages[page + 13]
    }

    /// The syllable at (page, addr).
    pub open spec fn cell(self, page: int, addr: int) -> Tryte {
        self.page_at(page).at(addr)
    }

    /// Both memories agree on every cell except (page, addr).
    pub open spec fn agree_except(self, other: Memory1, page: int, addr: int) -> bool {
        forall|p: int, a: int|
            valid_page(p) && valid_addr(a) && !(p == page && a == addr) ==> #[trigger] self.cell(
                p,
                a,
            ) == other.cell(p, a)
    }

    pub fn zeroed() -> (r: Self)
        ensures
            forall|p: int, a: int| valid_page(p) && valid_addr(a) ==> (#[trigger] r.cell(p, a)).is_zero(),
    {
        let z = Page::zeroed();
        let r = Memory1 { pages: [z; 27] };
        assert forall|p: int, a: int| valid_page(p) && valid_addr(a) implies (#[trigger] r.cell(p, a)).is_zero() by {
            assert(r.page_at(p) == z);
        }
        r
    }

    pub fn is_ram(page: i8) -> (r: bool)
        ensures
            r == ram_page(page as int),
    {
        RAM_MIN <= page && page <= RAM_MAX
    }

    pub fn is_rom(page: i8) -> (r: bool)
        ensures
            r == rom_page(page as int),
    {
        PAGE_MIN <= page && page <= PAGE_MAX && !Self::is_ram(page)
    }

    pub fn page(&self, page: i8) -> (r: Option<&Page>)
        ensures
            r is Some <==> valid_page(page as int),
            r matches Some(pg) ==> *pg == self.page_at(page as int),
    {
        if PAGE_MIN <= page && page <= PAGE_MAX {
            Some(&self.pages[(page + 13) as usize])
        } else {
            None
        }
    }

    /// Read one syllable from any page (RAM or ROM).
    pub fn read(&self, page: i8, addr: i8) -> (r: Option<Tryte>)
        ensures
            r is Some <==> valid_page(page as int) && valid_addr(addr as int),
            r matches Some(t) ==> t == self.cell(page as int, addr as int),
    {
        if PAGE_MIN <= page && page <= PAGE_MAX {
            self.pages[(page + 13) as usize].read(addr)
        } else {
            None
        }
    }

    /// Write one syllable. Only RAM pages are writable: a ROM page answers
    /// `ReadOnly`, a page outside level-1 memory `BadAddress`.
    pub fn write(&mut self, page: i8, addr: i8, value: Tryte) -> (r: Result<(), MemError>)
        ensures
            rom_page(page as int) ==> r == Err::<(), MemError>(MemError::ReadOnly { page }),
            !valid_page(page as int) ==> r == Err::<(), MemError>(
                MemError::BadAddress { page, addr },
            ),
            ram_page(page as int) && !valid_addr(addr as int) ==> r == Err::<(), MemError>(
                MemError::BadAddress { page, addr },
            ),
            r is Ok <==> ram_page(page as int) && valid_addr(addr as int),
            r is Ok ==> final(self).cell(page as int, addr as int) == value
                && final(self).agree_except(*old(self), page as int, addr as int),
            r is Err ==> *final(self) == *old(self),
    {
        if !(PAGE_MIN <= page && page <= PAGE_MAX) {
            return Err(MemError::BadAddress { page, addr });
        }
        if !Self::is_ram(page) {
            return Err(MemError::ReadOnly { page });
        }
        if !(ADDR_MIN <= addr && addr <= ADDR_MAX) {
            return Err(MemError::BadAddress { page, addr });
        }
        let i = (page + 13) as usize;
        let mut pg = self.pages[i];
        pg.write(addr, value);
        self.pages[i] = pg;
        Ok(())
    }

    /// Reads `len` (1..=3) syllables whose SENIOR syllable sits at `addr_hi`
    /// (ascending addresses `addr_hi−len+1 ..= addr_hi`), returned
    /// senior-first; unused slots are zero.
    pub fn read_syllables(&self, page: i8, addr_hi: i8, len: u8) -> (r: Option<[Tryte; 3]>)
        ensures
            r is Some <==> 1 <= len <= 3 && valid_page(page as int) && valid_addr(addr_hi as int)
                && valid_addr(addr_hi - len + 1),
            r matches Some(out) ==> forall|i: int|
                0 <= i < 3 ==> (if i < len {
                    #[trigger] out[i] == self.cell(page as int, addr_hi - i)
                } else {
                    out[i].is_zero()
                }),
    {
        if !(1 <= len && len <= 3) {
            return None;
        }
        let z = Tryte::zero();
        let mut out = [z, z, z];
        let mut i: u8 = 0;
        while i < len
            invariant
                1 <= len <= 3,
                i <= len,
                i > 0 ==> valid_addr(addr_hi as int) && valid_addr(addr_hi - i + 1),
                valid_page(page as int) || i == 0,
                forall|j: int|
                    0 <= j < 3 ==> (if j < i {
                        #[trigger] out[j] == self.cell(page as int, addr_hi - j)
                    } else {
                        out[j].is_zero()
                    }),
            decreases len - i,
        {
            let t = match self.read(page, addr_hi - i as i8) {
                Some(t) => t,
                None => return None,
            };
            out[i as usize] = t;
            i = i + 1;
        }
        Some(out)
    }

    /// Writes `len` (1..=3) syllables senior-first, senior at `addr_hi`,
    /// one syllable at a time; the first failing write ends the operation
    /// with its error (earlier syllables stay written).
    pub fn write_syllables(&mut self, page: i8, addr_hi: i8, len: u8, data: &[Tryte; 3]) -> (r:
        Result<(), MemError>)
        ensures
            !(1 <= len <= 3) ==> r == Err::<(), MemError>(
                MemError::BadAddress { page, addr: addr_hi },
            ) && *final(self) == *old(self),
            1 <= len <= 3 && rom_page(page as int) ==> r == Err::<(), MemError>(
                MemError::ReadOnly { page },
            ) && *final(self) == *old(self),
            1 <= len <= 3 && !valid_page(page as int) ==> r == Err::<(), MemError>(
                MemError::BadAddress { page, addr: addr_hi },
            ) && *final(self) == *old(self),
            r is Ok <==> 1 <= len <= 3 && ram_page(page as int) && valid_addr(addr_hi as int)
                && valid_addr(addr_hi - len + 1),
            1 <= len <= 3 && ram_page(page as int) ==> forall|p: int, a: int|
                valid_page(p) && valid_addr(a) ==> #[trigger] final(self).cell(p, a) == (if p
                    == page && addr_hi - len < a <= addr_hi && valid_addr(addr_hi as int) {
                    data[addr_hi - a]
                } else {
                    old(self).cell(p, a)
                }),
            1 <= len <= 3 && ram_page(page as int) && !(valid_addr(addr_hi as int) && valid_addr(
                addr_hi - len + 1,
            )) ==> r == Err::<(), MemError>(
                MemError::BadAddress {
                    page,
                    addr: if valid_addr(addr_hi as int) { -41i8 } else { addr_hi },
                },
            ),
    {
        if !(1 <= len && len <= 3) {
            return Err(MemError::BadAddress { page, addr: addr_hi });
        }
        let mut i: u8 = 0;
        while i < len
            invariant
                1 <= len <= 3,
                i <= len,
                i > 0 ==> ram_page(page as int) && valid_addr(addr_hi as int),
                i == 0 ==> *self == *old(self),
                i > 0 ==> valid_addr(addr_hi as int) && valid_addr(addr_hi - i + 1),
                forall|p: int, a: int|
                    valid_page(p) && valid_addr(a) ==> #[trigger] self.cell(p, a) == (if p == page
                        && addr_hi - i < a <= addr_hi {
                        data[addr_hi - a]
                    } else {
                        old(self).cell(p, a)
                    }),
            decreases len - i,
        {
            let a = addr_hi - i as i8;
            match self.write(page, a, data[i as usize]) {
                Ok(()) => {},
                Err(e) => {
                    return Err(e);
                },
            }
            i = i + 1;
        }
        Ok(())
    }

    /// Whole-page copy onto a RAM page.
    pub fn copy_page_from(&mut self, dst_ram_page: i8, src: &Page) -> (r: Result<(), MemError>)
        ensures
            r is Ok <==> ram_page(dst_ram_page as int),
            r is Err ==> r == Err::<(), MemError>(MemError::ReadOnly { page: dst_ram_page })
                && *final(self) == *old(self),
            r is Ok ==> final(self).page_at(dst_ram_page as int) == *src && forall|p: int|
                valid_page(p) && p != dst_ram_page ==> #[trigger] final(self).page_at(p) == old(
                    self,
                ).page_at(p),
    {
        if !Self::is_ram(dst_ram_page) {
            return Err(MemError::ReadOnly { page: dst_ram_page });
        }
        self.pages[(dst_ram_page + 13) as usize] = *src;
        Ok(())
    }

    /// Loads a ROM page image (firmware).
    pub fn load_rom_page(&mut self, rom: i8, image: Page) -> (r: Result<(), MemError>)
        ensures
            r is Ok <==> rom_page(rom as int),
            r is Err ==> r == Err::<(), MemError>(MemError::BadAddress { page: rom, addr: 0 })
                && *final(self) == *old(self),
            r is Ok ==> final(self).page_at(rom as int) == image && forall|p: int|
                valid_page(p) && p != rom ==> #[trigger] final(self).page_at(p) == old(
                    self,
                ).page_at(p),
    {
        if !Self::is_rom(rom) {
            return Err(MemError::BadAddress { page: rom, addr: 0 });
        }
        self.pages[(rom + 13) as usize] = image;
        Ok(())
    }
}

// Level-2 memory (drum `f`): 3 kinds × 6561 pages (q is an 8-trit number,
// −3280..=3280). Page-granular exchange with level-1 RAM only.
pub const L2_KIND_MIN: i8 = -1;
pub const L2_KIND_MAX: i8 = 1;
pub const L2_PAGE_MIN: i32 = -3280;
pub const L2_PAGE_MAX: i32 = 3280;
pub const L2_PAGES_PER_KIND: usize = 6561;

pub open spec fn valid_drum(kind: int, q: int) -> bool {
    -1 <= kind <= 1 && -3280 <= q <= 3280
}

/// Level-2 memory: three drum kinds, 6561 pages each.
#[derive(Debug)]
pub struct Memory2 {
    pages: Vec<Page>,
}

impl Memory2 {
    /// Well-formedness: 3 × 6561 pages.
    pub closed spec fn wf(self) -> bool {
        self.pages@.len() == 19683
    }

    /// The drum page (kind, q).
    pub closed spec fn drum(self, kind: int, q: int) -> Page {
        self.pages@[(kind + 1) * 6561 + (q + 3280)]
    }

    pub fn zeroed() -> (r: Self)
        ensures
            r.wf(),
            forall|k: int, q: int, a: int|
                valid_drum(k, q) && valid_addr(a) ==> (#[trigger] r.drum(k, q).at(a)).is_zero(),
    {
        let z = Page::zeroed();
        let mut pages: Vec<Page> = Vec::new();
        for i in 0..19683
            invariant
                pages@.len() == i,
                forall|j: int| 0 <= j < i ==> pages@[j] == z,
        {
            pages.push(z);
        }
        let r = Memory2 { pages };
        assert forall|k: int, q: int, a: int|
            valid_drum(k, q) && valid_addr(a) implies (#[trigger] r.drum(k, q).at(a)).is_zero() by {
            assert(r.drum(k, q) == z);
        }
        r
    }

    pub fn read_page(&self, kind: i8, q: i32) -> (r: Option<&Page>)
        requires
            self.wf(),
        ensures
            r is Some <==> valid_drum(kind as int, q as int),
            r matches Some(pg) ==> *pg == self.drum(kind as int, q as int),
    {
        if L2_KIND_MIN <= kind && kind <= L2_KIND_MAX && L2_PAGE_MIN <= q && q <= L2_PAGE_MAX {
            Some(&self.pages[((kind + 1) as usize) * 6561 + ((q + 3280) as usize)])
        } else {
            None
        }
    }

    pub fn write_page(&mut self, kind: i8, q: i32, page: Page) -> (r: Option<()>)
        requires
            old(self).wf(),
        ensures
            final(self).wf(),
            r is Some <==> valid_drum(kind as int, q as int),
            r is None ==> *final(self) == *old(self),
            r is Some ==> final(self).drum(kind as int, q as int) == page && forall|k: int, x: int|
                valid_drum(k, x) && !(k == kind && x == q) ==> #[trigger] final(self).drum(k, x)
                    == old(self).drum(k, x),
    {
        if L2_KIND_MIN <= kind && kind <= L2_KIND_MAX && L2_PAGE_MIN <= q && q <= L2_PAGE_MAX {
            self.pages.set(((kind + 1) as usize) * 6561 + ((q + 3280) as usize), page);
            Some(())
        } else {
            None
        }
    }
}

/// A syllable written to a RAM cell is what a read of that cell gives;
/// every other cell reads as before.
pub proof fn law_ram_write_read(m1: Memory1, m2: Memory1, page: int, addr: int, t: Tryte)
    requires
        m2.cell(page, addr) == t,
        m2.agree_except(m1, page, addr),
    ensures
        forall|p: int, a: int|
            valid_page(p) && valid_addr(a) ==> #[trigger] m2.cell(p, a) == (if p == page && a == addr {
                t
            } else {
                m1.cell(p, a)
            }),
{
}

} // verus!
