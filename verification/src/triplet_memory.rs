//! The value memory of the table-driven VM: 27 pages of 81 numbers, read
//! and written in triplets, with a stack pointer (page, triplet, position
//! inside the triplet). Pages −4..=4 are writable; a write to any other
//! page is accepted and dropped.

use vstd::prelude::*;
use crate::util::{dec_str, push_decimal, push_digits};

verus! {

/// Errors of the value memory.
#[derive(Debug, PartialEq, Eq, Structural)]
pub enum MemoryError {
    PageOutOfRange(i8),
    OffsetOutOfRange(usize),
    CountOutOfRange(usize),
    StackOverflow,
    StackUnderflow,
}

/// The message of an error, as the debugger shows it.
pub open spec fn error_text(e: MemoryError) -> Seq<char> {
    match e {
        MemoryError::PageOutOfRange(p) => "Page out of range: "@ + dec_str(p as int),
        MemoryError::OffsetOutOfRange(o) => "Offset out of range: "@ + dec_str(o as int),
        MemoryError::CountOutOfRange(c) => "Count out of range: "@ + dec_str(c as int),
        MemoryError::StackOverflow => "Stack overflow"@,
        MemoryError::StackUnderflow => "Stack underflow"@,
    }
}

impl MemoryError {
    /// The message of the error.
    pub fn to_string(&self) -> (r: String)
        ensures
            r@ == error_text(*self),
    {
        let mut s = String::new();
        match self {
            MemoryError::PageOutOfRange(p) => {
                s.append("Page out of range: ");
                push_decimal(&mut s, *p as i64);
            },
            MemoryError::OffsetOutOfRange(o) => {
                s.append("Offset out of range: ");
                push_digits(&mut s, *o as u64);
            },
            MemoryError::CountOutOfRange(c) => {
                s.append("Count out of range: ");
                push_digits(&mut s, *c as u64);
            },
            MemoryError::StackOverflow => s.append("Stack overflow"),
            MemoryError::StackUnderflow => s.append("Stack underflow"),
        }
        s
    }
}

/// Page `p` exists (−13..=13).
pub open spec fn page_valid(p: int) -> bool {
    -13 <= p <= 13
}

/// Page `p` keeps what is written to it (−4..=4).
pub open spec fn page_writable(p: int) -> bool {
    -4 <= p <= 4
}

/// Index of number `o` of page `p` in the cell sequence.
pub open spec fn slot(p: int, o: int) -> int {
    (p + 13) * 81 + o
}

/// `vals` padded with zeros to a whole number of triplets.
pub open spec fn pad3(vals: Seq<i32>) -> Seq<i32> {
    vals + Seq::new(((3 - vals.len() % 3) % 3) as nat, |i: int| 0i32)
}

/// `cells` with `vals` stored from number `off` of page `p` on.
pub open spec fn stored(cells: Seq<i32>, p: int, off: int, vals: Seq<i32>) -> Seq<i32> {
    Seq::new(
        cells.len(),
        |k: int|
            if slot(p, off) <= k < slot(p, off) + vals.len() {
                vals[k - slot(p, off)]
            } else {
                cells[k]
            },
    )
}

/// Outcome of `write_page`: the new cells and the result.
pub open spec fn write_page_spec(cells: Seq<i32>, p: i8, off: usize, vals: Seq<i32>) -> (
    Seq<i32>,
    Result<(), MemoryError>,
) {
    if !page_valid(p as int) {
        (cells, Err(MemoryError::PageOutOfRange(p)))
    } else if off >= 81 {
        (cells, Err(MemoryError::OffsetOutOfRange(off)))
    } else if off + pad3(vals).len() > 81 {
        (cells, Err(MemoryError::CountOutOfRange(pad3(vals).len() as usize)))
    } else if !page_writable(p as int) {
        (cells, Ok(()))
    } else {
        (stored(cells, p as int, off as int, pad3(vals)), Ok(()))
    }
}

/// Outcome of `read_page`.
pub open spec fn read_page_spec(cells: Seq<i32>, p: i8, off: usize, count: usize) -> Result<
    Seq<i32>,
    MemoryError,
> {
    if !page_valid(p as int) {
        Err(MemoryError::PageOutOfRange(p))
    } else if off >= 81 {
        Err(MemoryError::OffsetOutOfRange(off))
    } else if count == 0 {
        Ok(Seq::empty())
    } else if off + count > 81 {
        Err(MemoryError::CountOutOfRange(count))
    } else {
        Ok(pad3(cells.subrange(slot(p as int, off as int), slot(p as int, off as int) + count)))
    }
}

/// Outcome of `read_triplet_at`.
pub open spec fn read_triplet_spec(cells: Seq<i32>, p: i8, ti: usize) -> Result<Seq<i32>, MemoryError> {
    if ti >= 27 {
        Err(MemoryError::OffsetOutOfRange((ti * 3) as usize))
    } else if !page_valid(p as int) {
        Err(MemoryError::PageOutOfRange(p))
    } else {
        Ok(cells.subrange(slot(p as int, ti * 3), slot(p as int, ti * 3) + 3))
    }
}

/// Outcome of `write_triplet_at`.
pub open spec fn write_triplet_spec(cells: Seq<i32>, p: i8, ti: usize, t: Seq<i32>) -> (
    Seq<i32>,
    Result<(), MemoryError>,
) {
    if ti >= 27 {
        (cells, Err(MemoryError::OffsetOutOfRange((ti * 3) as usize)))
    } else {
        write_page_spec(cells, p, (ti * 3) as usize, t)
    }
}

/// The state of the memory: its cells and the stack pointer.
pub struct MemModel {
    pub cells: Seq<i32>,
    pub page: i8,
    pub triplet: usize,
    pub within: usize,
}

/// Outcome of `push_triplet`.
pub open spec fn push_spec(m: MemModel, t: Seq<i32>) -> (MemModel, Result<(), MemoryError>) {
    if m.triplet >= 27 {
        (m, Err(MemoryError::StackOverflow))
    } else {
        let cells = write_triplet_spec(m.cells, m.page, m.triplet, t).0;
        if m.triplet + 1 >= 27 {
            if m.page + 1 > 13 {
                (MemModel { cells, page: m.page, triplet: 27, within: 0 }, Err(MemoryError::StackOverflow))
            } else {
                (MemModel { cells, page: (m.page + 1) as i8, triplet: 0, within: 0 }, Ok(()))
            }
        } else {
            (MemModel { cells, page: m.page, triplet: (m.triplet + 1) as usize, within: 0 }, Ok(()))
        }
    }
}

/// Outcome of `pop_triplet`.
pub open spec fn pop_spec(m: MemModel) -> (MemModel, Result<Seq<i32>, MemoryError>) {
    if m.triplet == 0 && (m.page == -13 || m.page == -128) {
        (MemModel { within: 0, ..m }, Err(MemoryError::StackUnderflow))
    } else {
        let page: i8 = if m.triplet == 0 { (m.page - 1) as i8 } else { m.page };
        let ti: usize = if m.triplet == 0 { 26 } else { (m.triplet - 1) as usize };
        let m1 = MemModel { cells: m.cells, page, triplet: ti, within: 0 };
        match read_triplet_spec(m.cells, page, ti) {
            Ok(t) => (m1, Ok(t)),
            Err(e) => (m1, Err(e)),
        }
    }
}

/// Outcome of `read_one`.
pub open spec fn read_one_spec(m: MemModel) -> (MemModel, Result<i32, MemoryError>) {
    if m.triplet >= 27 {
        (m, Err(MemoryError::OffsetOutOfRange((m.triplet * 3) as usize)))
    } else if !page_valid(m.page as int) {
        (m, Err(MemoryError::PageOutOfRange(m.page)))
    } else {
        let value = m.cells[slot(m.page as int, m.triplet * 3 + m.within)];
        if m.within + 1 >= 3 {
            if m.triplet + 1 >= 27 {
                if m.page + 1 > 13 {
                    (MemModel { triplet: 27, within: 0, ..m }, Err(MemoryError::StackOverflow))
                } else {
                    (MemModel { page: (m.page + 1) as i8, triplet: 0, within: 0, ..m }, Ok(value))
                }
            } else {
                (MemModel { triplet: (m.triplet + 1) as usize, within: 0, ..m }, Ok(value))
            }
        } else {
            (MemModel { within: (m.within + 1) as usize, ..m }, Ok(value))
        }
    }
}

/// Outcome of `set_pointer`.
pub open spec fn set_pointer_spec(m: MemModel, p: i8, ti: usize, wt: usize) -> (
    MemModel,
    Result<(), MemoryError>,
) {
    if !page_valid(p as int) {
        (m, Err(MemoryError::PageOutOfRange(p)))
    } else if ti >= 27 {
        (m, Err(MemoryError::OffsetOutOfRange((ti * 3) as usize)))
    } else if wt >= 3 {
        (m, Err(MemoryError::OffsetOutOfRange(wt)))
    } else {
        (MemModel { page: p, triplet: ti, within: wt, ..m }, Ok(()))
    }
}

/// A triplet written to a writable page reads back unchanged.
pub proof fn law_triplet_write_read(cells: Seq<i32>, p: i8, ti: usize, t: Seq<i32>)
    requires
        cells.len() == 2187,
        page_writable(p as int),
        ti < 27,
        t.len() == 3,
    ensures
        write_triplet_spec(cells, p, ti, t).1 is Ok,
        read_triplet_spec(write_triplet_spec(cells, p, ti, t).0, p, ti) == Ok::<Seq<i32>, MemoryError>(t),
{
    assert(pad3(t) =~= t);
    let after = write_triplet_spec(cells, p, ti, t).0;
    assert(after.subrange(slot(p as int, ti * 3), slot(p as int, ti * 3) + 3) =~= t);
}

/// A successful page write reads back: reading as many numbers as were
/// written, from the same offset, gives them padded to whole triplets.
pub proof fn law_page_write_read(cells: Seq<i32>, p: i8, off: usize, vals: Seq<i32>)
    requires
        cells.len() == 2187,
        page_writable(p as int),
        off < 81,
        vals.len() > 0,
        off + pad3(vals).len() <= 81,
    ensures
        write_page_spec(cells, p, off, vals).1 is Ok,
        read_page_spec(write_page_spec(cells, p, off, vals).0, p, off, vals.len() as usize) == Ok::<
            Seq<i32>,
            MemoryError,
        >(pad3(vals)),
{
    let after = write_page_spec(cells, p, off, vals).0;
    let base = slot(p as int, off as int);
    assert(after.subrange(base, base + vals.len()) =~= vals);
}

/// Writes to a page outside −4..=4 leave every cell as it was.
pub proof fn law_read_only_pages(cells: Seq<i32>, p: i8, off: usize, vals: Seq<i32>)
    requires
        !page_writable(p as int),
    ensures
        write_page_spec(cells, p, off, vals).0 == cells,
{
}

/// Popping right after a push on a writable page gives the pushed triplet
/// back and returns the pointer to where the push started.
pub proof fn law_push_pop(m: MemModel, t: Seq<i32>)
    requires
        m.cells.len() == 2187,
        page_writable(m.page as int),
        m.triplet < 27,
        t.len() == 3,
    ensures
        push_spec(m, t).1 is Ok,
        pop_spec(push_spec(m, t).0).1 == Ok::<Seq<i32>, MemoryError>(t),
        pop_spec(push_spec(m, t).0).0 == (MemModel {
            cells: push_spec(m, t).0.cells,
            page: m.page,
            triplet: m.triplet,
            within: 0,
        }),
{
    law_triplet_write_read(m.cells, m.page, m.triplet, t);
}

/// Value memory with a triplet stack pointer.
pub struct Memory {
    pages: Vec<i32>,
    pub current_page: i8,
    pub current_triplet_index: usize,
    pub current_within_triplet: usize,
}

impl Memory {
    pub const PAGE_COUNT: usize = 27;

    pub const PAGE_SIZE: usize = 81;

    pub const TRIPLET_SIZE: usize = 3;

    pub const TRIPLETS_PER_PAGE: usize = 27;

    pub const FIRST_PAGE_NUM: i8 = -13;

    pub const LAST_PAGE_NUM: i8 = 13;

    /// The cells, page by page.
    pub closed spec fn cells(&self) -> Seq<i32> {
        self.pages@
    }

    /// Cells and stack pointer.
    pub closed spec fn model(&self) -> MemModel {
        MemModel {
            cells: self.cells(),
            page: self.current_page,
            triplet: self.current_triplet_index,
            within: self.current_within_triplet,
        }
    }

    /// There are 27 × 81 cells, and they are the cells of the model.
    pub open spec fn wf(&self) -> bool {
        &&& self.cells().len() == 2187
        &&& self.model().cells == self.cells()
    }

    /// All cells zero, pointer at (0, 0, 0).
    pub fn new() -> (r: Self)
        ensures
            r.wf(),
            r.model() == (MemModel { cells: Seq::new(2187, |k: int| 0i32), page: 0, triplet: 0, within: 0 }),
    {
        let mut pages: Vec<i32> = Vec::new();
        let mut k: usize = 0;
        while k < 2187
            invariant
                k <= 2187,
                pages@.len() == k,
                forall|j: int| 0 <= j < k ==> #[trigger] pages@[j] == 0,
            decreases 2187 - k,
        {
            pages.push(0);
            k = k + 1;
        }
        let r = Memory { pages, current_page: 0, current_triplet_index: 0, current_within_triplet: 0 };
        assert(r.cells() =~= Seq::new(2187, |k: int| 0i32));
        r
    }

    fn page_index(page: i8) -> (r: Result<usize, MemoryError>)
        ensures
            page_valid(page as int) ==> r == Ok::<usize, MemoryError>((page + 13) as usize),
            !page_valid(page as int) ==> r == Err::<usize, MemoryError>(MemoryError::PageOutOfRange(page)),
    {
        if page < Self::FIRST_PAGE_NUM || page > Self::LAST_PAGE_NUM {
            return Err(MemoryError::PageOutOfRange(page));
        }
        Ok((page - Self::FIRST_PAGE_NUM) as usize)
    }

    fn can_write(page: i8) -> (r: bool)
        ensures
            r == page_writable(page as int),
    {
        -4 <= page && page <= 4
    }

    /// Reads `count` numbers from `offset`, padded with zeros to whole
    /// triplets.
    pub fn read_page(&self, page: i8, offset: usize, count: usize) -> (r: Result<Vec<i32>, MemoryError>)
        requires
            self.wf(),
        ensures
            match r {
                Ok(v) => read_page_spec(self.cells(), page, offset, count) == Ok::<Seq<i32>, MemoryError>(v@),
                Err(e) => read_page_spec(self.cells(), page, offset, count) == Err::<Seq<i32>, MemoryError>(e),
            },
    {
        let idx = Self::page_index(page)?;
        if offset >= Self::PAGE_SIZE {
            return Err(MemoryError::OffsetOutOfRange(offset));
        }
        if count == 0 {
            return Ok(Vec::new());
        }
        if count > Self::PAGE_SIZE - offset {
            return Err(MemoryError::CountOutOfRange(count));
        }
        let base: usize = idx * 81 + offset;
        let ghost src = self.cells().subrange(base as int, base + count);
        let mut result: Vec<i32> = Vec::new();
        let mut i: usize = 0;
        while i < count
            invariant
                i <= count,
                base + count <= 2187,
                self.wf(),
                src == self.cells().subrange(base as int, base + count),
                result@ == src.take(i as int),
            decreases count - i,
        {
            result.push(self.pages[base + i]);
            i = i + 1;
        }
        assert(result@ =~= src);
        let padded: usize = if count % 3 == 0 { count } else { count + (3 - count % 3) };
        assert(padded == pad3(src).len());
        while result.len() < padded
            invariant
                count <= result@.len() <= padded,
                padded == pad3(src).len(),
                result@.take(count as int) == src,
                forall|j: int| count <= j < result@.len() ==> #[trigger] result@[j] == 0,
                src.len() == count,
            decreases padded - result@.len(),
        {
            result.push(0);
            assert(result@.take(count as int) =~= src);
        }
        assert(result@ =~= pad3(src));
        Ok(result)
    }

    /// Writes `values` (padded with zeros to whole triplets) from `offset`.
    /// On a page outside −4..=4 nothing is stored and the call succeeds.
    pub fn write_page(&mut self, page: i8, offset: usize, values: &[i32]) -> (r: Result<(), MemoryError>)
        requires
            old(self).wf(),
            values@.len() <= usize::MAX - 2,
        ensures
            final(self).wf(),
            (final(self).cells(), r) == write_page_spec(old(self).cells(), page, offset, values@),
            final(self).model().page == old(self).model().page,
            final(self).model().triplet == old(self).model().triplet,
            final(self).model().within == old(self).model().within,
    {
        let idx = Self::page_index(page)?;
        if offset >= Self::PAGE_SIZE {
            return Err(MemoryError::OffsetOutOfRange(offset));
        }
        let n = values.len();
        let padded: usize = if n % 3 == 0 { n } else { n + (3 - n % 3) };
        assert(padded == pad3(values@).len());
        if padded > Self::PAGE_SIZE - offset {
            return Err(MemoryError::CountOutOfRange(padded));
        }
        if !Self::can_write(page) {
            return Ok(());
        }
        let base: usize = idx * 81 + offset;
        let ghost vals = pad3(values@);
        let ghost before = self.cells();
        let mut i: usize = 0;
        while i < padded
            invariant
                i <= padded,
                n == values@.len(),
                padded == vals.len(),
                base + padded <= 2187,
                base == slot(page as int, offset as int),
                vals == pad3(values@),
                self.cells().len() == 2187,
                forall|k: int|
                    0 <= k < 2187 ==> #[trigger] self.cells()[k] == (if base <= k < base + i {
                        vals[k - base]
                    } else {
                        before[k]
                    }),
                self.current_page == old(self).current_page,
                self.current_triplet_index == old(self).current_triplet_index,
                self.current_within_triplet == old(self).current_within_triplet,
            decreases padded - i,
        {
            let v: i32 = if i < n { values[i] } else { 0 };
            assert(v == vals[i as int]);
            self.pages.set(base + i, v);
            i = i + 1;
        }
        assert(self.cells() =~= stored(before, page as int, offset as int, vals));
        Ok(())
    }

    /// The triplet `triplet_index` of `page`.
    pub fn read_triplet_at(&self, page: i8, triplet_index: usize) -> (r: Result<[i32; 3], MemoryError>)
        requires
            self.wf(),
            triplet_index <= usize::MAX / 3,
        ensures
            match r {
                Ok(t) => read_triplet_spec(self.cells(), page, triplet_index) == Ok::<Seq<i32>, MemoryError>(t@),
                Err(e) => read_triplet_spec(self.cells(), page, triplet_index) == Err::<Seq<i32>, MemoryError>(e),
            },
    {
        if triplet_index >= Self::TRIPLETS_PER_PAGE {
            return Err(MemoryError::OffsetOutOfRange(triplet_index * Self::TRIPLET_SIZE));
        }
        let start = triplet_index * Self::TRIPLET_SIZE;
        let idx = Self::page_index(page)?;
        let base = idx * 81 + start;
        let t = [self.pages[base], self.pages[base + 1], self.pages[base + 2]];
        assert(t@ =~= self.cells().subrange(base as int, base + 3));
        Ok(t)
    }

    /// Writes a triplet at `triplet_index` of `page` (dropped on a page
    /// outside −4..=4).
    pub fn write_triplet_at(&mut self, page: i8, triplet_index: usize, triple: [i32; 3]) -> (r: Result<(), MemoryError>)
        requires
            old(self).wf(),
            triplet_index <= usize::MAX / 3,
        ensures
            final(self).wf(),
            (final(self).cells(), r) == write_triplet_spec(old(self).cells(), page, triplet_index, triple@),
            final(self).model().page == old(self).model().page,
            final(self).model().triplet == old(self).model().triplet,
            final(self).model().within == old(self).model().within,
    {
        if triplet_index >= Self::TRIPLETS_PER_PAGE {
            return Err(MemoryError::OffsetOutOfRange(triplet_index * Self::TRIPLET_SIZE));
        }
        let start = triplet_index * Self::TRIPLET_SIZE;
        self.write_page(page, start, &triple)
    }

    /// Stores a triplet at the pointer (dropped on a read-only page) and
    /// advances the pointer, to the next page after the last triplet.
    pub fn push_triplet(&mut self, triple: [i32; 3]) -> (r: Result<(), MemoryError>)
        requires
            old(self).wf(),
        ensures
            final(self).wf(),
            (final(self).model(), r) == push_spec(old(self).model(), triple@),
    {
        if self.current_triplet_index >= Self::TRIPLETS_PER_PAGE {
            return Err(MemoryError::StackOverflow);
        }
        let _ = self.write_triplet_at(self.current_page, self.current_triplet_index, triple);
        self.current_triplet_index = self.current_triplet_index + 1;
        self.current_within_triplet = 0;
        if self.current_triplet_index >= Self::TRIPLETS_PER_PAGE {
            let next_page = match self.current_page.checked_add(1) {
                Some(p) => p,
                None => {
                    return Err(MemoryError::StackOverflow);
                },
            };
            if next_page > Self::LAST_PAGE_NUM {
                return Err(MemoryError::StackOverflow);
            }
            self.current_page = next_page;
            self.current_triplet_index = 0;
        }
        Ok(())
    }

    /// Steps the pointer back one triplet (to the previous page before the
    /// first triplet) and reads the triplet there.
    pub fn pop_triplet(&mut self) -> (r: Result<[i32; 3], MemoryError>)
        requires
            old(self).wf(),
            old(self).model().triplet <= usize::MAX / 3,
        ensures
            final(self).wf(),
            final(self).model() == pop_spec(old(self).model()).0,
            match r {
                Ok(t) => pop_spec(old(self).model()).1 == Ok::<Seq<i32>, MemoryError>(t@),
                Err(e) => pop_spec(old(self).model()).1 == Err::<Seq<i32>, MemoryError>(e),
            },
    {
        if self.current_within_triplet != 0 {
            self.current_within_triplet = 0;
        }
        if self.current_triplet_index == 0 {
            if self.current_page == Self::FIRST_PAGE_NUM {
                return Err(MemoryError::StackUnderflow);
            }
            self.current_page = match self.current_page.checked_sub(1) {
                Some(p) => p,
                None => {
                    return Err(MemoryError::StackUnderflow);
                },
            };
            self.current_triplet_index = Self::TRIPLETS_PER_PAGE;
        }
        if self.current_triplet_index == 0 {
            return Err(MemoryError::StackUnderflow);
        }
        self.current_triplet_index = self.current_triplet_index - 1;
        let triple = self.read_triplet_at(self.current_page, self.current_triplet_index)?;
        self.current_within_triplet = 0;
        Ok(triple)
    }

    /// Reads the number at the pointer and advances the pointer by one
    /// position (to the next triplet, and the next page, as needed).
    pub fn read_one(&mut self) -> (r: Result<i32, MemoryError>)
        requires
            old(self).wf(),
            old(self).model().triplet <= usize::MAX / 3,
            old(self).model().triplet < 27 && page_valid(old(self).model().page as int)
                ==> old(self).model().triplet * 3 + old(self).model().within < 81,
        ensures
            final(self).wf(),
            (final(self).model(), r) == read_one_spec(old(self).model()),
    {
        if self.current_triplet_index >= Self::TRIPLETS_PER_PAGE {
            return Err(MemoryError::OffsetOutOfRange(self.current_triplet_index * Self::TRIPLET_SIZE));
        }
        let pidx = Self::page_index(self.current_page)?;
        let start = self.current_triplet_index * Self::TRIPLET_SIZE;
        let value = self.pages[pidx * 81 + start + self.current_within_triplet];
        self.current_within_triplet = self.current_within_triplet + 1;
        if self.current_within_triplet >= Self::TRIPLET_SIZE {
            self.current_within_triplet = 0;
            self.current_triplet_index = self.current_triplet_index + 1;
            if self.current_triplet_index >= Self::TRIPLETS_PER_PAGE {
                let next_page = match self.current_page.checked_add(1) {
                    Some(p) => p,
                    None => {
                        return Err(MemoryError::StackOverflow);
                    },
                };
                if next_page > Self::LAST_PAGE_NUM {
                    return Err(MemoryError::StackOverflow);
                }
                self.current_page = next_page;
                self.current_triplet_index = 0;
            }
        }
        Ok(value)
    }

    /// Moves the pointer to (page, triplet, position).
    pub fn set_pointer(&mut self, page: i8, triplet_index: usize, within_triplet: usize) -> (r: Result<(), MemoryError>)
        requires
            old(self).wf(),
            triplet_index <= usize::MAX / 3,
        ensures
            final(self).wf(),
            (final(self).model(), r) == set_pointer_spec(old(self).model(), page, triplet_index, within_triplet),
    {
        Self::page_index(page)?;
        if triplet_index >= Self::TRIPLETS_PER_PAGE {
            return Err(MemoryError::OffsetOutOfRange(triplet_index * Self::TRIPLET_SIZE));
        }
        if within_triplet >= Self::TRIPLET_SIZE {
            return Err(MemoryError::OffsetOutOfRange(within_triplet));
        }
        self.current_page = page;
        self.current_triplet_index = triplet_index;
        self.current_within_triplet = within_triplet;
        Ok(())
    }

    /// (page, triplet, position) of the pointer.
    pub fn get_pointer(&self) -> (r: (i8, usize, usize))
        ensures
            r == (self.model().page, self.model().triplet, self.model().within),
    {
        (self.current_page, self.current_triplet_index, self.current_within_triplet)
    }
}

} // verus!
