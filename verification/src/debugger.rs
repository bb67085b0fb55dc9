//! The decisions of the interactive debugger of the table-driven VM: the
//! command a typed line stands for, one fetch–execute–process step, the
//! memory preview, and the column layout of the register listing.

use vstd::prelude::*;
use crate::assembler::spaces;
use crate::util::push_char;
use crate::vm::{Context, VM};

verus! {

/// A debugger command.
#[derive(Clone, Copy, Debug, PartialEq, Eq, Structural)]
pub enum Command {
    /// G: run the program.
    Run,
    /// H: show the command reference.
    Help,
    /// M: show the memory preview.
    Memory,
    /// R: show the registers.
    Registers,
    /// S: one step.
    Step,
    /// X: leave.
    Exit,
    /// Anything else.
    Unknown,
}

/// The command of a typed (trimmed) line: one letter, either case.
pub open spec fn command_spec(s: Seq<char>) -> Command {
    if s.len() != 1 {
        Command::Unknown
    } else if s[0] == 'G' || s[0] == 'g' {
        Command::Run
    } else if s[0] == 'H' || s[0] == 'h' {
        Command::Help
    } else if s[0] == 'M' || s[0] == 'm' {
        Command::Memory
    } else if s[0] == 'R' || s[0] == 'r' {
        Command::Registers
    } else if s[0] == 'S' || s[0] == 's' {
        Command::Step
    } else if s[0] == 'X' || s[0] == 'x' {
        Command::Exit
    } else {
        Command::Unknown
    }
}

/// The command a typed line stands for.
pub fn command_of(input: &str) -> (r: Command)
    ensures
        r == command_spec(input@),
{
    if input.unicode_len() != 1 {
        return Command::Unknown;
    }
    let c = input.get_char(0);
    if c == 'G' || c == 'g' {
        Command::Run
    } else if c == 'H' || c == 'h' {
        Command::Help
    } else if c == 'M' || c == 'm' {
        Command::Memory
    } else if c == 'R' || c == 'r' {
        Command::Registers
    } else if c == 'S' || c == 's' {
        Command::Step
    } else if c == 'X' || c == 'x' {
        Command::Exit
    } else {
        Command::Unknown
    }
}

/// One debugger step: fetch (opcode 0, operation 0), execute, process.
/// Gives the operation number and what `execute` returned.
pub fn debug_step(vm: &mut VM) -> (r: (usize, Result<(), ()>))
    ensures
        r.0 == 0,
        r.1 is Ok,
        *final(vm) == (VM {
            context: Context { opcode: 0, m_exception_rised: false, ..old(vm).context },
            ..*old(vm)
        }),
{
    let ko = vm.fetch();
    let res = vm.execute(ko);
    vm.process(0);
    (ko, res)
}

/// The five table values around the centre of the value table (the
/// entries of −2..=2 in a whole table).
pub fn center_values(vm: &VM) -> (r: [i16; 5])
    requires
        vm.values@.len() >= 367,
    ensures
        forall|i: int| 0 <= i < 5 ==> #[trigger] r[i] == vm.values@[362 + i].val_binary,
{
    let mut r: [i16; 5] = [0; 5];
    let mut i: usize = 0;
    while i < 5
        invariant
            i <= 5,
            vm.values@.len() >= 367,
            forall|j: int| 0 <= j < i ==> #[trigger] r[j] == vm.values@[362 + j].val_binary,
        decreases 5 - i,
    {
        let idx = VM::val_index(i as i16 - 2);
        r[i] = vm.values[idx].val_binary;
        i = i + 1;
    }
    r
}

/// UTF-8 length of a character.
pub open spec fn char_bytes(c: char) -> nat {
    let u = c as u32;
    if u < 0x80 {
        1
    } else if u < 0x800 {
        2
    } else if u < 0x10000 {
        3
    } else {
        4
    }
}

/// UTF-8 length of a text (`str::len`).
pub open spec fn utf8_len(s: Seq<char>) -> nat
    decreases s.len(),
{
    if s.len() == 0 {
        0
    } else {
        utf8_len(s.drop_last()) + char_bytes(s.last())
    }
}

/// The items as (label, value) character sequences.
pub open spec fn item_texts(items: Seq<(String, String)>) -> Seq<(Seq<char>, Seq<char>)> {
    Seq::new(items.len(), |i: int| (items[i].0@, items[i].1@))
}

/// Printed width of item `i`: label and value together.
pub open spec fn cell_width(items: Seq<(Seq<char>, Seq<char>)>, i: int) -> int {
    (utf8_len(items[i].0) + utf8_len(items[i].1)) as int
}

/// Width of column `c` over its first `r` rows: the widest item in it.
pub open spec fn col_width(items: Seq<(Seq<char>, Seq<char>)>, columns: int, c: int, r: int) -> int
    decreases r,
{
    if r <= 0 {
        0
    } else {
        let w = col_width(items, columns, c, r - 1);
        let i = (r - 1) * columns + c;
        if i < items.len() && cell_width(items, i) > w {
            cell_width(items, i)
        } else {
            w
        }
    }
}

/// Number of rows for `n` items in `columns` columns.
pub open spec fn row_count(n: int, columns: int) -> int {
    (n + columns - 1) / columns
}

/// The text of the cell (row `r`, column `c`): the item padded to the
/// column width, then the gap unless it is the last column.
pub open spec fn cell_text(items: Seq<(Seq<char>, Seq<char>)>, columns: int, gap: int, r: int, c: int) -> Seq<char> {
    let i = r * columns + c;
    let w = col_width(items, columns, c, row_count(items.len() as int, columns));
    if i < items.len() {
        items[i].0 + items[i].1 + spaces(w - cell_width(items, i)) + (if c + 1 < columns {
            spaces(gap)
        } else {
            Seq::empty()
        })
    } else if c + 1 < columns {
        spaces(w + gap)
    } else {
        Seq::empty()
    }
}

/// The first `k` cells of row `r`.
pub open spec fn row_cells(items: Seq<(Seq<char>, Seq<char>)>, columns: int, gap: int, r: int, k: int) -> Seq<char>
    decreases k,
{
    if k <= 0 {
        Seq::empty()
    } else {
        row_cells(items, columns, gap, r, k - 1) + cell_text(items, columns, gap, r, k - 1)
    }
}

/// The first `r` rows of the listing, each ending with a line feed.
pub open spec fn rows_text(items: Seq<(Seq<char>, Seq<char>)>, columns: int, gap: int, r: int) -> Seq<char>
    decreases r,
{
    if r <= 0 {
        Seq::empty()
    } else {
        rows_text(items, columns, gap, r - 1) + row_cells(items, columns, gap, r - 1, columns) + seq!['\n']
    }
}

/// The listing of `items` in `columns` columns (nothing for 0 columns).
pub open spec fn columns_text(items: Seq<(Seq<char>, Seq<char>)>, columns: int, gap: int) -> Seq<char> {
    if columns <= 0 {
        Seq::empty()
    } else {
        rows_text(items, columns, gap, row_count(items.len() as int, columns))
    }
}

/// UTF-8 length of a string.
fn byte_len(s: &String) -> (r: usize)
    requires
        utf8_len(s@) <= usize::MAX,
    ensures
        r == utf8_len(s@),
{
    let n = s.as_str().unicode_len();
    let mut total: usize = 0;
    let mut i: usize = 0;
    while i < n
        invariant
            i <= n,
            n == s@.len(),
            total == utf8_len(s@.take(i as int)),
            utf8_len(s@) <= usize::MAX,
        decreases n - i,
    {
        let c = s.as_str().get_char(i);
        let u = c as u32;
        let b: usize = if u < 0x80 {
            1
        } else if u < 0x800 {
            2
        } else if u < 0x10000 {
            3
        } else {
            4
        };
        proof {
            assert(s@.take(i + 1).drop_last() =~= s@.take(i as int));
            lemma_utf8_prefix(s@, i + 1);
        }
        total = total + b;
        i = i + 1;
    }
    assert(s@.take(n as int) =~= s@);
    total
}

/// A prefix is no longer than the whole.
proof fn lemma_utf8_prefix(s: Seq<char>, k: int)
    requires
        0 <= k <= s.len(),
    ensures
        utf8_len(s.take(k)) <= utf8_len(s),
    decreases s.len(),
{
    if k < s.len() {
        assert(s.drop_last().take(k) =~= s.take(k));
        lemma_utf8_prefix(s.drop_last(), k);
    } else {
        assert(s.take(k) =~= s);
    }
}

fn push_text(out: &mut String, s: &String)
    ensures
        final(out)@ == old(out)@ + s@,
{
    out.append(s.as_str());
}

fn push_blanks(out: &mut String, n: usize)
    ensures
        final(out)@ == old(out)@ + spaces(n as int),
{
    let mut i: usize = 0;
    while i < n
        invariant
            i <= n,
            out@ == old(out)@ + spaces(i as int),
        decreases n - i,
    {
        push_char(out, ' ');
        i = i + 1;
        assert(out@ =~= old(out)@ + spaces(i as int));
    }
}

/// Lays out (label, value) items in `columns` columns, row by row, each
/// column as wide as its widest item, columns separated by `gap` blanks.
pub fn format_columns(items: &[(String, String)], columns: usize, gap: usize) -> (r: String)
    requires
        items@.len() + columns <= usize::MAX,
        gap <= usize::MAX / 4,
        forall|i: int|
            0 <= i < items@.len() ==> #[trigger] cell_width(item_texts(items@), i) <= usize::MAX / 4,
    ensures
        r@ == columns_text(item_texts(items@), columns as int, gap as int),
{
    let ghost t = item_texts(items@);
    let mut out = String::new();
    if columns == 0 {
        return out;
    }
    let n = items.len();
    let rows = (n + columns - 1) / columns;
    proof {
        vstd::arithmetic::div_mod::lemma_fundamental_div_mod((n + columns - 1) as int, columns as int);
        let q = (n + columns - 1) as int / columns as int;
        let rem = (n + columns - 1) as int % columns as int;
        assert(q * columns <= n + columns - 1) by (nonlinear_arith)
            requires
                n + columns - 1 == columns * q + rem,
                rem >= 0,
        ;
    }
    // column widths
    let mut widths: Vec<usize> = Vec::new();
    let mut c: usize = 0;
    while c < columns
        invariant
            c <= columns,
            columns > 0,
            rows == row_count(n as int, columns as int),
            rows * columns <= n + columns - 1,
            n == items@.len(),
            t == item_texts(items@),
            n + columns <= usize::MAX,
            widths@.len() == c,
            forall|i: int| 0 <= i < n ==> #[trigger] cell_width(t, i) <= usize::MAX / 4,
            forall|j: int| 0 <= j < c ==> #[trigger] widths@[j] == col_width(t, columns as int, j, rows as int),
            forall|j: int| 0 <= j < c ==> #[trigger] widths@[j] <= usize::MAX / 4,
        decreases columns - c,
    {
        let mut w: usize = 0;
        let mut r: usize = 0;
        while r < rows
            invariant
                r <= rows,
                c < columns,
                rows * columns <= n + columns - 1,
                n == items@.len(),
                t == item_texts(items@),
                n + columns <= usize::MAX,
                forall|i: int| 0 <= i < n ==> #[trigger] cell_width(t, i) <= usize::MAX / 4,
                w == col_width(t, columns as int, c as int, r as int),
                w <= usize::MAX / 4,
            decreases rows - r,
        {
            proof {
                assert(r * columns + c < rows * columns) by (nonlinear_arith)
                    requires
                        r < rows,
                        c < columns,
                ;
            }
            let i = r * columns + c;
            if i < n {
                proof {
                    assert(t[i as int] == (items@[i as int].0@, items@[i as int].1@));
                    assert(cell_width(t, i as int) <= usize::MAX / 4);
                }
                let wi = byte_len(&items[i].0) + byte_len(&items[i].1);
                if wi > w {
                    w = wi;
                }
            }
            r = r + 1;
        }
        widths.push(w);
        c = c + 1;
    }
    // rows
    let mut r: usize = 0;
    while r < rows
        invariant
            r <= rows,
            columns > 0,
            rows == row_count(n as int, columns as int),
            rows * columns <= n + columns - 1,
            n == items@.len(),
            t == item_texts(items@),
            n + columns <= usize::MAX,
            gap <= usize::MAX / 4,
            widths@.len() == columns,
            forall|i: int| 0 <= i < n ==> #[trigger] cell_width(t, i) <= usize::MAX / 4,
            forall|j: int| 0 <= j < columns ==> #[trigger] widths@[j] == col_width(t, columns as int, j, rows as int),
            forall|j: int| 0 <= j < columns ==> #[trigger] widths@[j] <= usize::MAX / 4,
            out@ == rows_text(t, columns as int, gap as int, r as int),
        decreases rows - r,
    {
        let ghost before = out@;
        let mut c: usize = 0;
        while c < columns
            invariant
                c <= columns,
                r < rows,
                columns > 0,
                rows == row_count(n as int, columns as int),
                rows * columns <= n + columns - 1,
                n == items@.len(),
                t == item_texts(items@),
                n + columns <= usize::MAX,
                gap <= usize::MAX / 4,
                widths@.len() == columns,
                forall|i: int| 0 <= i < n ==> #[trigger] cell_width(t, i) <= usize::MAX / 4,
                forall|j: int| 0 <= j < columns ==> #[trigger] widths@[j] == col_width(t, columns as int, j, rows as int),
                forall|j: int| 0 <= j < columns ==> #[trigger] widths@[j] <= usize::MAX / 4,
                out@ == before + row_cells(t, columns as int, gap as int, r as int, c as int),
            decreases columns - c,
        {
            proof {
                assert(r * columns + c < rows * columns) by (nonlinear_arith)
                    requires
                        r < rows,
                        c < columns,
                ;
            }
            let i = r * columns + c;
            let ghost mid = out@;
            let wc = widths[c];
            if i < n {
                push_text(&mut out, &items[i].0);
                push_text(&mut out, &items[i].1);
                proof {
                    assert(t[i as int] == (items@[i as int].0@, items@[i as int].1@));
                    assert(cell_width(t, i as int) <= usize::MAX / 4);
                }
                let printed = byte_len(&items[i].0) + byte_len(&items[i].1);
                proof {
                    lemma_col_width_bound(t, columns as int, c as int, rows as int, r as int);
                }
                if wc > printed {
                    push_blanks(&mut out, wc - printed);
                } else {
                    assert(spaces(wc - cell_width(t, i as int)) =~= Seq::<char>::empty());
                }
                if c + 1 < columns {
                    push_blanks(&mut out, gap);
                }
                assert(out@ =~= mid + cell_text(t, columns as int, gap as int, r as int, c as int));
            } else {
                if c + 1 < columns {
                    push_blanks(&mut out, wc + gap);
                }
                assert(out@ =~= mid + cell_text(t, columns as int, gap as int, r as int, c as int));
            }
            c = c + 1;
        }
        push_char(&mut out, '\n');
        r = r + 1;
        assert(out@ =~= rows_text(t, columns as int, gap as int, r as int));
    }
    out
}

/// The column width covers every item of the column.
proof fn lemma_col_width_bound(t: Seq<(Seq<char>, Seq<char>)>, columns: int, c: int, rows: int, r: int)
    requires
        0 <= r < rows,
        r * columns + c < t.len(),
    ensures
        cell_width(t, r * columns + c) <= col_width(t, columns, c, rows),
    decreases rows,
{
    if r < rows - 1 {
        lemma_col_width_bound(t, columns, c, rows - 1, r);
    }
}

} // verus!
