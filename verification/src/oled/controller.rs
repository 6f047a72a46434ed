//! A model of the SSD1306 display memory in page addressing mode, and the
//! proofs of what the drawing routines leave on the screen.

use vstd::prelude::*;

verus! {

use crate::oled::bus::Transfer;
use crate::oled::display::{
    cursor_transfers, data_transfers, char_transfers, text_transfers, clear_page_transfers,
    clear_pages_transfers, glyph, Glyph, in_font, PAGES, COLUMNS, command_transfers, init_commands,
};
use crate::numfmt::{number_chars, chars_value, lemma_number_chars_value, digit_at};
use vstd::arithmetic::power::pow as ipow;

/// The controller's view: the page and column pointers, the display RAM,
/// keyed by `(page, column)`, and the number of argument bytes the last
/// command still waits for.
pub struct Screen {
    pub page: int,
    pub col: int,
    pub ram: spec_fn((int, int)) -> u8,
    pub args: int,
}

/// Number of argument bytes that follow a command byte, from the SSD1306
/// command table: addressing mode, contrast, charge pump, multiplex ratio,
/// display offset, clock divide ratio, pre-charge period, COM pins and VCOMH
/// level take one; column and page address and the vertical scroll area take
/// two; the diagonal scroll set-ups five and the horizontal ones six.
pub open spec fn arg_count(c: u8) -> int {
    if c == 0x20u8 || c == 0x81u8 || c == 0x8Du8 || c == 0xA8u8 || c == 0xD3u8 || c == 0xD5u8
        || c == 0xD9u8 || c == 0xDAu8 || c == 0xDBu8 {
        1
    } else if c == 0x21u8 || c == 0x22u8 || c == 0xA3u8 {
        2
    } else if c == 0x29u8 || c == 0x2Au8 {
        5
    } else if c == 0x26u8 || c == 0x27u8 {
        6
    } else {
        0
    }
}

/// No command is waiting for argument bytes.
pub open spec fn ready(s: Screen) -> bool {
    s.args == 0
}

/// The effect of one transfer in page addressing mode. A command byte that
/// a previous command still waits for is taken as its argument. Otherwise a
/// command that takes arguments starts waiting for them; `B0`-`B7` select
/// the page, `10`-`1F` set the high nibble and `00`-`0F` the low nibble of
/// the column. Display data is stored at the pointers and advances the
/// column, wrapping at the end of the page. Other commands leave the
/// pointers and the RAM alone.
pub open spec fn apply(s: Screen, t: Transfer) -> Screen {
    match t {
        Transfer::Command(c) => {
            if s.args > 0 {
                Screen { args: s.args - 1, ..s }
            } else if arg_count(c) > 0 {
                Screen { args: arg_count(c), ..s }
            } else if c & 0xF8u8 == 0xB0u8 {
                Screen { page: (c & 0x07u8) as int, ..s }
            } else if c & 0xF0u8 == 0x10u8 {
                Screen { col: (c & 0x0Fu8) as int * 16 + s.col % 16, ..s }
            } else if c & 0xF0u8 == 0x00u8 {
                Screen { col: (s.col / 16) * 16 + (c & 0x0Fu8) as int, ..s }
            } else {
                s
            }
        },
        Transfer::Data(d) => Screen {
            page: s.page,
            col: (s.col + 1) % (COLUMNS as int),
            ram: |k: (int, int)| if k == (s.page, s.col) { d } else { (s.ram)(k) },
            args: s.args,
        },
    }
}

pub open spec fn apply_all(s: Screen, ts: Seq<Transfer>) -> Screen
    decreases ts.len(),
{
    if ts.len() == 0 {
        s
    } else {
        apply(apply_all(s, ts.drop_last()), ts.last())
    }
}

pub proof fn lemma_apply_all_concat(s: Screen, a: Seq<Transfer>, b: Seq<Transfer>)
    ensures
        apply_all(s, a + b) == apply_all(apply_all(s, a), b),
    decreases b.len(),
{
    if b.len() == 0 {
        assert(a + b =~= a);
    } else {
        assert((a + b).drop_last() =~= a + b.drop_last());
        lemma_apply_all_concat(s, a, b.drop_last());
    }
}

proof fn lemma_apply_one(s: Screen, t: Transfer)
    ensures
        apply_all(s, seq![t]) == apply(s, t),
{
    let one = seq![t];
    assert(one.drop_last() =~= Seq::<Transfer>::empty());
    assert(one.last() == t);
    assert(apply_all(s, one.drop_last()) == s);
}

/// Law: the cursor commands for page `y` and column `x` set the pointers to
/// `y` and `x` and leave the RAM alone.
pub proof fn lemma_cursor(s: Screen, y: u8, x: u8)
    requires
        ready(s),
        y < PAGES,
        x < COLUMNS,
    ensures
        apply_all(s, cursor_transfers(y, x)) == (Screen { page: y as int, col: x as int, ..s }),
{
    let c = cursor_transfers(y, x);
    let c0 = 0xB0u8 | y;
    let c1 = 0x10u8 | ((x & 0xF0u8) >> 4u8);
    let c2 = 0x00u8 | (x & 0x0Fu8);
    assert(c0 & 0xF8u8 == 0xB0u8 && c0 & 0x07u8 == y && 0xB0u8 <= c0 <= 0xB7u8) by (bit_vector)
        requires
            c0 == 0xB0u8 | y,
            y < 8u8,
    ;
    assert(c1 & 0xF8u8 != 0xB0u8 && c1 & 0xF0u8 == 0x10u8 && c1 & 0x0Fu8 == x / 16u8 && 0x10u8
        <= c1 <= 0x17u8)
        by (bit_vector)
        requires
            c1 == 0x10u8 | ((x & 0xF0u8) >> 4u8),
            x < 128u8,
    ;
    assert(c2 & 0xF8u8 != 0xB0u8 && c2 & 0xF0u8 != 0x10u8 && c2 & 0xF0u8 == 0x00u8 && c2
        & 0x0Fu8 == x % 16u8 && c2 <= 0x0Fu8) by (bit_vector)
        requires
            c2 == 0x00u8 | (x & 0x0Fu8),
    ;
    assert(c =~= seq![Transfer::Command(c0)] + seq![Transfer::Command(c1)] + seq![Transfer::Command(c2)]);
    lemma_apply_all_concat(s, seq![Transfer::Command(c0)] + seq![Transfer::Command(c1)], seq![Transfer::Command(c2)]);
    lemma_apply_all_concat(s, seq![Transfer::Command(c0)], seq![Transfer::Command(c1)]);
    lemma_apply_one(s, Transfer::Command(c0));
    let s1 = apply(s, Transfer::Command(c0));
    lemma_apply_one(s1, Transfer::Command(c1));
    let s2 = apply(s1, Transfer::Command(c1));
    lemma_apply_one(s2, Transfer::Command(c2));
    assert(s1 == (Screen { page: y as int, ..s }));
    assert(s2.col == (x / 16) as int * 16 + s.col % 16);
    assert(apply_all(s, c) == (Screen { page: y as int, col: x as int, ..s }));
}

/// Writing `bytes` as data from page `p`, column `x` stores them in columns
/// `x ..` of page `p`, leaves every other cell alone and moves the column
/// pointer past them.
pub proof fn lemma_data_run(s: Screen, bytes: Seq<u8>)
    requires
        0 <= s.col < COLUMNS,
        s.col + bytes.len() <= COLUMNS,
    ensures
        apply_all(s, data_transfers(bytes)).page == s.page,
        apply_all(s, data_transfers(bytes)).args == s.args,
        apply_all(s, data_transfers(bytes)).col == (s.col + bytes.len()) % (COLUMNS as int),
        forall|k: int|
            0 <= k < bytes.len() ==> #[trigger] (apply_all(s, data_transfers(bytes)).ram)(
                (s.page, s.col + k),
            ) == bytes[k],
        forall|key: (int, int)|
            !(key.0 == s.page && s.col <= key.1 < s.col + bytes.len()) ==> #[trigger] (apply_all(
                s,
                data_transfers(bytes),
            ).ram)(key) == (s.ram)(key),
    decreases bytes.len(),
{
    let ts = data_transfers(bytes);
    if bytes.len() > 0 {
        let m = bytes.drop_last();
        assert(ts.drop_last() =~= data_transfers(m));
        lemma_data_run(s, m);
        let prev = apply_all(s, data_transfers(m));
        assert(prev.col == s.col + m.len());
        assert(ts.last() == Transfer::Data(bytes.last()));
        let fin = apply_all(s, ts);
        assert(fin == apply(prev, Transfer::Data(bytes.last())));
        assert forall|k: int| 0 <= k < bytes.len() implies #[trigger] (fin.ram)((s.page, s.col + k)) == bytes[k] by {
            if k < m.len() {
                assert(m[k] == bytes[k]);
                assert((prev.ram)((s.page, s.col + k)) == m[k]);
            }
        }
    } else {
        assert(ts =~= Seq::<Transfer>::empty());
    }
}

/// The cells that the character at `line`, `column` covers: columns
/// `8 * (column - 1)` to `8 * column - 1` of pages `2 * (line - 1)` and the
/// one below.
pub open spec fn in_cell(line: int, column: int, key: (int, int)) -> bool {
    &&& (key.0 == 2 * (line - 1) || key.0 == 2 * (line - 1) + 1)
    &&& 8 * (column - 1) <= key.1 < 8 * column
}

/// The byte that the glyph of `c` puts at `key` within its cell.
pub open spec fn cell_byte(line: int, column: int, c: char, font: Seq<Glyph>, key: (int, int)) -> u8 {
    let half = if key.0 == 2 * (line - 1) { 0int } else { 8int };
    glyph(font, c)[half + key.1 - 8 * (column - 1)]
}

/// Law (what a character write leaves on the screen): drawing `c` at
/// `line` (1-4) and `column` (1-16) puts its glyph in the cell, upper half
/// on the upper page, and leaves every other cell of the RAM as it was.
pub proof fn lemma_char_on_screen(s: Screen, line: u8, column: u8, c: char, font: Seq<Glyph>)
    requires
        ready(s),
        1 <= line <= 4,
        1 <= column <= 16,
        32 <= c as int && c as int - 32 < font.len(),
    ensures
        ready(apply_all(s, char_transfers(line, column, c, font))),
        forall|key: (int, int)|
            #[trigger] in_cell(line as int, column as int, key) ==> (apply_all(
                s,
                char_transfers(line, column, c, font),
            ).ram)(key) == cell_byte(line as int, column as int, c, font, key),
        forall|key: (int, int)|
            !in_cell(line as int, column as int, key) ==> #[trigger] (apply_all(
                s,
                char_transfers(line, column, c, font),
            ).ram)(key) == (s.ram)(key),
{
    let y = ((line - 1) * 2) as u8;
    let x = ((column - 1) * 8) as u8;
    let g = glyph(font, c);
    let a = cursor_transfers(y, x);
    let b = data_transfers(g.subrange(0, 8));
    let cc = cursor_transfers((y + 1) as u8, x);
    let d = data_transfers(g.subrange(8, 16));
    assert(font[c as int - 32]@.len() == 16);
    assert(char_transfers(line, column, c, font) == a + b + cc + d);
    lemma_apply_all_concat(s, a + b + cc, d);
    lemma_apply_all_concat(s, a + b, cc);
    lemma_apply_all_concat(s, a, b);
    lemma_cursor(s, y, x);
    let s1 = apply_all(s, a);
    lemma_data_run(s1, g.subrange(0, 8));
    let s2 = apply_all(s1, b);
    lemma_cursor(s2, (y + 1) as u8, x);
    let s3 = apply_all(s2, cc);
    lemma_data_run(s3, g.subrange(8, 16));
    let s4 = apply_all(s3, d);
    assert(s4 == apply_all(s, char_transfers(line, column, c, font)));
    assert forall|key: (int, int)| #[trigger] in_cell(line as int, column as int, key) implies (s4.ram)(key)
        == cell_byte(line as int, column as int, c, font, key) by {
        let k = key.1 - x as int;
        if key.0 == y as int {
            assert((s2.ram)((s1.page, s1.col + k)) == g.subrange(0, 8)[k]);
            assert((s4.ram)(key) == (s2.ram)(key));
        } else {
            assert((s4.ram)((s3.page, s3.col + k)) == g.subrange(8, 16)[k]);
        }
    }
}

/// Law (the pixels of a character): drawing `c` at `line` (1-4) and
/// `column` (1-16) puts bytes 0-7 of the font entry at `c - ' '` in the eight
/// pixel columns of the cell on its upper page, and bytes 8-15 in the same
/// columns on the page below, whatever the character.
pub proof fn lemma_char_pixels(s: Screen, line: u8, column: u8, c: char, font: Seq<Glyph>)
    requires
        ready(s),
        1 <= line <= 4,
        1 <= column <= 16,
        32 <= c as int && c as int - 32 < font.len(),
    ensures
        glyph(font, c) == font[c as int - 32]@,
        forall|j: int|
            0 <= j < 8 ==> #[trigger] (apply_all(s, char_transfers(line, column, c, font)).ram)(
                (2 * (line - 1), 8 * (column - 1) + j),
            ) == font[c as int - 32][j],
        forall|j: int|
            0 <= j < 8 ==> #[trigger] (apply_all(s, char_transfers(line, column, c, font)).ram)(
                (2 * (line - 1) + 1, 8 * (column - 1) + j),
            ) == font[c as int - 32][8 + j],
{
    lemma_char_on_screen(s, line, column, c, font);
    assert forall|j: int| 0 <= j < 8 implies #[trigger] (apply_all(
        s,
        char_transfers(line, column, c, font),
    ).ram)((2 * (line - 1), 8 * (column - 1) + j)) == font[c as int - 32][j] by {
        assert(in_cell(line as int, column as int, (2 * (line - 1), 8 * (column - 1) + j)));
    }
    assert forall|j: int| 0 <= j < 8 implies #[trigger] (apply_all(
        s,
        char_transfers(line, column, c, font),
    ).ram)((2 * (line - 1) + 1, 8 * (column - 1) + j)) == font[c as int - 32][8 + j] by {
        assert(in_cell(line as int, column as int, (2 * (line - 1) + 1, 8 * (column - 1) + j)));
    }
}

/// Law (what a text write leaves on the screen): drawing `cs` from `line`
/// (1-4), `column` on, within the 16 columns, puts the glyph of every
/// character in its own cell and leaves every cell outside the text as it
/// was.
pub proof fn lemma_text_on_screen(s: Screen, line: u8, column: u8, cs: Seq<char>, font: Seq<Glyph>)
    requires
        ready(s),
        1 <= line <= 4,
        1 <= column,
        column + cs.len() - 1 <= 16,
        forall|i: int|
            0 <= i < cs.len() ==> 32 <= #[trigger] cs[i] as int && cs[i] as int - 32 < font.len(),
    ensures
        ready(apply_all(s, text_transfers(line, column, cs, font))),
        forall|i: int, key: (int, int)|
            0 <= i < cs.len() && #[trigger] in_cell(line as int, column + i, key) ==> (apply_all(
                s,
                text_transfers(line, column, cs, font),
            ).ram)(key) == cell_byte(line as int, column + i, cs[i], font, key),
        forall|key: (int, int)|
            !(exists|i: int| 0 <= i < cs.len() && #[trigger] in_cell(line as int, column + i, key))
                ==> #[trigger] (apply_all(s, text_transfers(line, column, cs, font)).ram)(key) == (
            s.ram)(key),
    decreases cs.len(),
{
    if cs.len() > 0 {
        let m = cs.drop_last();
        let n = cs.len() - 1;
        assert forall|i: int| 0 <= i < m.len() implies 32 <= #[trigger] m[i] as int && m[i] as int - 32 < font.len() by {
            assert(m[i] == cs[i]);
        }
        lemma_text_on_screen(s, line, column, m, font);
        let prev = apply_all(s, text_transfers(line, column, m, font));
        let col = (column + n) as u8;
        assert(text_transfers(line, column, cs, font) == text_transfers(line, column, m, font)
            + char_transfers(line, col, cs.last(), font));
        lemma_apply_all_concat(s, text_transfers(line, column, m, font), char_transfers(line, col, cs.last(), font));
        assert(32 <= cs[n] as int && cs[n] as int - 32 < font.len());
        lemma_char_on_screen(prev, line, col, cs.last(), font);
        let fin = apply_all(s, text_transfers(line, column, cs, font));
        assert forall|i: int, key: (int, int)|
            0 <= i < cs.len() && #[trigger] in_cell(line as int, column + i, key)
                implies (fin.ram)(key) == cell_byte(line as int, column + i, cs[i], font, key) by {
            if i < n {
                assert(m[i] == cs[i]);
                assert(!in_cell(line as int, col as int, key));
            } else {
                assert(in_cell(line as int, col as int, key));
            }
        }
        assert forall|key: (int, int)|
            !(exists|i: int| 0 <= i < cs.len() && #[trigger] in_cell(line as int, column + i, key))
                implies #[trigger] (fin.ram)(key) == (s.ram)(key) by {
            assert(!in_cell(line as int, column + n, key));
            assert(!(exists|i: int| 0 <= i < m.len() && #[trigger] in_cell(line as int, column + i, key)));
        }
    }
}

/// The cells of `cs`, drawn from `line`, `column` on, hold its glyphs.
pub open spec fn shows(s: Screen, line: int, column: int, cs: Seq<char>, font: Seq<Glyph>) -> bool {
    forall|i: int, key: (int, int)|
        0 <= i < cs.len() && #[trigger] in_cell(line, column + i, key) ==> (s.ram)(key)
            == cell_byte(line, column + i, cs[i], font, key)
}

/// Law (drawing in one place keeps another): drawing `cs` from `line`
/// (1-4), `column` on shows it there, and text shown on another line, or in
/// columns that do not overlap it, stays shown.
pub proof fn lemma_text_keeps(
    s: Screen,
    line: u8,
    column: u8,
    cs: Seq<char>,
    font: Seq<Glyph>,
    other_line: int,
    other_column: int,
    other: Seq<char>,
)
    requires
        ready(s),
        1 <= line <= 4,
        1 <= column,
        column + cs.len() - 1 <= 16,
        forall|i: int| 0 <= i < cs.len() ==> #[trigger] in_font(font, cs[i]),
        shows(s, other_line, other_column, other, font),
        other_line != line || other_column + other.len() <= column || column + cs.len()
            <= other_column,
    ensures
        ready(apply_all(s, text_transfers(line, column, cs, font))),
        shows(apply_all(s, text_transfers(line, column, cs, font)), line as int, column as int, cs, font),
        shows(apply_all(s, text_transfers(line, column, cs, font)), other_line, other_column, other, font),
{
    assert forall|i: int| 0 <= i < cs.len() implies 32 <= #[trigger] cs[i] as int && cs[i] as int
        - 32 < font.len() by {
        assert(in_font(font, cs[i]));
    }
    lemma_text_on_screen(s, line, column, cs, font);
    let fin = apply_all(s, text_transfers(line, column, cs, font));
    assert forall|i: int, key: (int, int)|
        0 <= i < other.len() && #[trigger] in_cell(other_line, other_column + i, key) implies (fin.ram)(
        key) == cell_byte(other_line, other_column + i, other[i], font, key) by {
        assert forall|j: int| 0 <= j < cs.len() implies !#[trigger] in_cell(line as int, column + j, key) by {
        }
    }
}

/// Law (what clearing leaves on the screen): after clearing, every cell of
/// the 8 pages and 128 columns holds zero.
pub proof fn lemma_clear_screen(s: Screen)
    requires
        ready(s),
    ensures
        forall|p: int, c: int|
            0 <= p < PAGES && 0 <= c < COLUMNS ==> #[trigger] (apply_all(
                s,
                clear_pages_transfers(PAGES as nat),
            ).ram)((p, c)) == 0u8,
{
    lemma_clear_pages(s, PAGES as nat);
}

proof fn lemma_clear_pages(s: Screen, n: nat)
    requires
        ready(s),
        n <= PAGES,
    ensures
        ready(apply_all(s, clear_pages_transfers(n))),
        forall|p: int, c: int|
            0 <= p < n && 0 <= c < COLUMNS ==> #[trigger] (apply_all(
                s,
                clear_pages_transfers(n),
            ).ram)((p, c)) == 0u8,
    decreases n,
{
    if n > 0 {
        let m = (n - 1) as nat;
        lemma_clear_pages(s, m);
        let prev = apply_all(s, clear_pages_transfers(m));
        let zeros = Seq::new(COLUMNS as nat, |i: int| 0u8);
        assert(clear_pages_transfers(n) == clear_pages_transfers(m) + clear_page_transfers(m as u8));
        lemma_apply_all_concat(s, clear_pages_transfers(m), clear_page_transfers(m as u8));
        lemma_apply_all_concat(prev, cursor_transfers(m as u8, 0), data_transfers(zeros));
        lemma_cursor(prev, m as u8, 0);
        let s1 = apply_all(prev, cursor_transfers(m as u8, 0));
        lemma_data_run(s1, zeros);
        let fin = apply_all(s, clear_pages_transfers(n));
        assert forall|p: int, c: int| 0 <= p < n && 0 <= c < COLUMNS implies #[trigger] (fin.ram)((p, c)) == 0u8 by {
            if p == m {
                assert((fin.ram)((s1.page, s1.col + c)) == zeros[c]);
            } else {
                assert((prev.ram)((p, c)) == 0u8);
            }
        }
    }
}

/// How a command byte changes the number of argument bytes still awaited.
pub open spec fn args_step(a: int, c: u8) -> int {
    if a > 0 {
        a - 1
    } else if arg_count(c) > 0 {
        arg_count(c)
    } else {
        a
    }
}

/// The number of argument bytes still awaited after the first `k` bytes of
/// `cmds`, starting from `a`.
pub open spec fn args_after(cmds: Seq<u8>, k: nat, a: int) -> int
    decreases k,
{
    if k == 0 {
        a
    } else {
        args_step(args_after(cmds, (k - 1) as nat, a), cmds[k - 1])
    }
}

/// Sending the first `k` bytes of a command list leaves the controller
/// waiting for `args_after` argument bytes.
proof fn lemma_command_args(s: Screen, cmds: Seq<u8>, k: nat)
    requires
        k <= cmds.len(),
    ensures
        apply_all(s, command_transfers(cmds.take(k as int))).args == args_after(cmds, k, s.args),
    decreases k,
{
    let ts = command_transfers(cmds.take(k as int));
    if k > 0 {
        assert(ts.drop_last() =~= command_transfers(cmds.take(k - 1)));
        assert(ts.last() == Transfer::Command(cmds[k - 1]));
        lemma_command_args(s, cmds, (k - 1) as nat);
    } else {
        assert(ts.len() == 0);
    }
}

/// The start-up commands take every argument they announce: after them no
/// command waits for argument bytes.
proof fn lemma_init_commands_ready(s: Screen)
    requires
        ready(s),
    ensures
        ready(apply_all(s, command_transfers(init_commands()))),
{
    let cmds = init_commands();
    assert(cmds.take(23) =~= cmds);
    lemma_command_args(s, cmds, 23);
    reveal_with_fuel(args_after, 24);
}

/// Law (what the start-up sequence leaves on the screen): after the
/// configuration commands and the clearing that `init_oled_config` sends,
/// every cell of the display holds zero.
pub proof fn lemma_init_blank_screen(s: Screen)
    requires
        ready(s),
    ensures
        forall|p: int, c: int|
            0 <= p < PAGES && 0 <= c < COLUMNS ==> #[trigger] (apply_all(
                s,
                command_transfers(init_commands()) + clear_pages_transfers(PAGES as nat),
            ).ram)((p, c)) == 0u8,
{
    lemma_apply_all_concat(s, command_transfers(init_commands()), clear_pages_transfers(PAGES as nat));
    lemma_init_commands_ready(s);
    lemma_clear_screen(apply_all(s, command_transfers(init_commands())));
}

/// Law (what showing a number leaves on the screen): drawing the `length`
/// decimal digits of `number` from `line` (1-4), `column` on puts the glyph
/// of each digit in its own cell, leaves the rest of the screen as it was,
/// and the digits read back as `number` modulo `10^length`.
pub proof fn lemma_num_on_screen(
    s: Screen,
    line: u8,
    column: u8,
    number: u32,
    length: u8,
    font: Seq<Glyph>,
)
    requires
        ready(s),
        1 <= line <= 4,
        1 <= column,
        column + length - 1 <= 16,
        font.len() > 25,
    ensures
        forall|i: int, key: (int, int)|
            0 <= i < length && #[trigger] in_cell(line as int, column + i, key) ==> (apply_all(
                s,
                text_transfers(line, column, number_chars(number as nat, 10, length as nat), font),
            ).ram)(key) == cell_byte(
                line as int,
                column + i,
                number_chars(number as nat, 10, length as nat)[i],
                font,
                key,
            ),
        forall|key: (int, int)|
            !(exists|i: int| 0 <= i < length && #[trigger] in_cell(line as int, column + i, key))
                ==> #[trigger] (apply_all(
                s,
                text_transfers(line, column, number_chars(number as nat, 10, length as nat), font),
            ).ram)(key) == (s.ram)(key),
        chars_value(number_chars(number as nat, 10, length as nat), 10) == number as int % ipow(
            10,
            length as nat,
        ),
{
    let cs = number_chars(number as nat, 10, length as nat);
    assert forall|i: int| 0 <= i < cs.len() implies 32 <= #[trigger] cs[i] as int && cs[i] as int
        - 32 < font.len() by {
        let d = digit_at(number as nat, 10, length as nat, i);
        assert(0 <= d < 10);
    }
    lemma_text_on_screen(s, line, column, cs, font);
    lemma_number_chars_value(number as nat, 10, length as nat);
}

} // verus!
