//! Drawing on the 128x64 SSD1306 display: cursor placement, clearing, 8x16
//! characters from a font table, strings and numbers. Every routine appends
//! to `out` the bus operations of the transfers it makes.

use vstd::prelude::*;

verus! {

use crate::oled::bus::{
    BusOp, Transfer, wire, lemma_wire_push, lemma_wire_concat, write_command, write_data,
    release_ops,
};
use crate::numfmt::{pow, number_chars, signed_chars, digit_at, digit_char};
use vstd::arithmetic::power::pow as ipow;

/// Bytes of one 8x16 glyph: the upper 8 columns, then the lower 8.
pub type Glyph = [u8; 16];

/// Number of 8-pixel pages of the display.
pub const PAGES: u8 = 8;
/// Number of pixel columns of the display.
pub const COLUMNS: u8 = 128;

/// The three commands that place the cursor at page `y`, pixel column `x`.
pub open spec fn cursor_transfers(y: u8, x: u8) -> Seq<Transfer> {
    seq![
        Transfer::Command(0xB0u8 | y),
        Transfer::Command(0x10u8 | ((x & 0xF0u8) >> 4u8)),
        Transfer::Command(0x00u8 | (x & 0x0Fu8)),
    ]
}

pub open spec fn data_transfers(bytes: Seq<u8>) -> Seq<Transfer> {
    bytes.map_values(|b: u8| Transfer::Data(b))
}

/// One page of the display cleared: cursor at its start, 128 zero bytes.
pub open spec fn clear_page_transfers(page: u8) -> Seq<Transfer> {
    cursor_transfers(page, 0) + data_transfers(Seq::new(COLUMNS as nat, |i: int| 0u8))
}

/// The first `n` pages cleared.
pub open spec fn clear_pages_transfers(n: nat) -> Seq<Transfer>
    decreases n,
{
    if n == 0 {
        Seq::empty()
    } else {
        clear_pages_transfers((n - 1) as nat) + clear_page_transfers((n - 1) as u8)
    }
}

/// The glyph of character `c` in a font that starts at `' '`.
pub open spec fn glyph(font: Seq<Glyph>, c: char) -> Seq<u8> {
    font[c as int - 32]@
}

/// The font holds a glyph for `c`.
pub open spec fn in_font(font: Seq<Glyph>, c: char) -> bool {
    32 <= c as int && c as int - 32 < font.len()
}

/// Character position `line` (1-based, 8x16 cells) and `column` (1-based)
/// are ones the driver's `u8` arithmetic can address.
pub open spec fn cell_ok(line: int, column: int) -> bool {
    1 <= line <= 128 && 1 <= column <= 32
}

/// The transfers that draw character `c` at `line`, `column`: the upper
/// half on page `2 * (line - 1)`, the lower half on the page below, both
/// from pixel column `8 * (column - 1)`.
pub open spec fn char_transfers(line: u8, column: u8, c: char, font: Seq<Glyph>) -> Seq<Transfer> {
    let y = ((line - 1) * 2) as u8;
    let x = ((column - 1) * 8) as u8;
    cursor_transfers(y, x) + data_transfers(glyph(font, c).subrange(0, 8)) + cursor_transfers(
        (y + 1) as u8,
        x,
    ) + data_transfers(glyph(font, c).subrange(8, 16))
}

/// The transfers that draw `cs` from `line`, `column` on, one cell per
/// character.
pub open spec fn text_transfers(line: u8, column: u8, cs: Seq<char>, font: Seq<Glyph>) -> Seq<
    Transfer,
>
    decreases cs.len(),
{
    if cs.len() == 0 {
        Seq::empty()
    } else {
        text_transfers(line, column, cs.drop_last(), font) + char_transfers(
            line,
            (column + cs.len() - 1) as u8,
            cs.last(),
            font,
        )
    }
}

/// The characters of `s` before its first `'\0'`.
pub open spec fn visible_chars(s: Seq<char>) -> Seq<char>
    decreases s.len(),
{
    if s.len() == 0 {
        s
    } else if s[0] == '\0' {
        Seq::empty()
    } else {
        seq![s[0]] + visible_chars(s.drop_first())
    }
}

/// The text fits the `u8` cell arithmetic and every character has a glyph.
pub open spec fn text_ok(line: int, column: int, cs: Seq<char>, font: Seq<Glyph>) -> bool {
    &&& 1 <= line <= 128
    &&& 1 <= column
    &&& column + cs.len() - 1 <= 32
    &&& forall|i: int| 0 <= i < cs.len() ==> #[trigger] in_font(font, cs[i])
}

proof fn lemma_append_wire(o: Seq<BusOp>, a: Seq<Transfer>, b: Seq<Transfer>)
    ensures
        o + wire(a) + wire(b) == o + wire(a + b),
{
    lemma_wire_concat(a, b);
    assert(o + wire(a) + wire(b) =~= o + wire(a + b));
}

proof fn lemma_text_push(line: u8, column: u8, cs: Seq<char>, c: char, font: Seq<Glyph>)
    ensures
        text_transfers(line, column, cs.push(c), font) == text_transfers(line, column, cs, font)
            + char_transfers(line, (column + cs.len()) as u8, c, font),
{
    assert(cs.push(c).drop_last() =~= cs);
}

/// Places the cursor at page `y` (0-7) and pixel column `x` (0-127).
pub fn set_cursor(out: &mut Vec<BusOp>, y: u8, x: u8)
    ensures
        final(out)@ == old(out)@ + wire(cursor_transfers(y, x)),
{
    let ghost o = out@;
    write_command(out, 0xB0 | y);
    write_command(out, 0x10 | ((x & 0xF0) >> 4));
    write_command(out, 0x00 | (x & 0x0F));
    proof {
        let c = cursor_transfers(y, x);
        lemma_wire_push(seq![c[0]], c[1]);
        lemma_wire_push(seq![c[0], c[1]], c[2]);
        lemma_wire_push(Seq::empty(), c[0]);
        assert(Seq::<Transfer>::empty().push(c[0]) =~= seq![c[0]]);
        assert(seq![c[0]].push(c[1]) =~= seq![c[0], c[1]]);
        assert(seq![c[0], c[1]].push(c[2]) =~= c);
        assert(wire(Seq::<Transfer>::empty()) =~= Seq::<BusOp>::empty());
        assert(out@ =~= o + wire(c));
    }
}

/// Writes the bytes `bytes[from..to]` as display data.
fn write_data_run(out: &mut Vec<BusOp>, bytes: &[u8], from: usize, to: usize)
    requires
        from <= to <= bytes@.len(),
    ensures
        final(out)@ == old(out)@ + wire(data_transfers(bytes@.subrange(from as int, to as int))),
{
    let mut i = from;
    while i < to
        invariant
            from <= i <= to <= bytes@.len(),
            out@ == old(out)@ + wire(data_transfers(bytes@.subrange(from as int, i as int))),
        decreases to - i,
    {
        write_data(out, bytes[i]);
        proof {
            let prev = data_transfers(bytes@.subrange(from as int, i as int));
            lemma_wire_push(prev, Transfer::Data(bytes@[i as int]));
            assert(prev.push(Transfer::Data(bytes@[i as int])) =~= data_transfers(
                bytes@.subrange(from as int, i + 1),
            ));
        }
        i = i + 1;
    }
}

/// Clears the whole display: every page is filled with zero bytes.
pub fn clear(out: &mut Vec<BusOp>)
    ensures
        final(out)@ == old(out)@ + wire(clear_pages_transfers(PAGES as nat)),
{
    let mut j: u8 = 0;
    while j < 8
        invariant
            j <= 8,
            out@ == old(out)@ + wire(clear_pages_transfers(j as nat)),
        decreases 8 - j,
    {
        let ghost before = out@;
        set_cursor(out, j, 0);
        let mut i: u8 = 0;
        while i < 128
            invariant
                i <= 128,
                out@ == before + wire(cursor_transfers(j, 0)) + wire(
                    data_transfers(Seq::new(i as nat, |k: int| 0u8)),
                ),
            decreases 128 - i,
        {
            write_data(out, 0x00);
            proof {
                let prev = data_transfers(Seq::new(i as nat, |k: int| 0u8));
                lemma_wire_push(prev, Transfer::Data(0));
                assert(prev.push(Transfer::Data(0)) =~= data_transfers(
                    Seq::new((i + 1) as nat, |k: int| 0u8),
                ));
            }
            i = i + 1;
        }
        proof {
            lemma_append_wire(before, cursor_transfers(j, 0), data_transfers(Seq::new(128, |k: int| 0u8)));
            lemma_append_wire(old(out)@, clear_pages_transfers(j as nat), clear_page_transfers(j));
            assert(clear_pages_transfers((j + 1) as nat) == clear_pages_transfers(j as nat)
                + clear_page_transfers(j));
        }
        j = j + 1;
    }
}

/// Draws one character at `line` (1-4 on this display) and `column`
/// (1-16): the upper half of its glyph on one page, the lower half on the
/// next.
pub fn show_char(out: &mut Vec<BusOp>, line: u8, column: u8, cchar: char, font: &[Glyph])
    requires
        cell_ok(line as int, column as int),
        in_font(font@, cchar),
    ensures
        final(out)@ == old(out)@ + wire(char_transfers(line, column, cchar, font@)),
{
    let ghost o = out@;
    let index = (cchar as u32 - ' ' as u32) as usize;
    let g: &Glyph = &font[index];
    let y = (line - 1) * 2;
    let x = (column - 1) * 8;
    set_cursor(out, y, x);
    write_data_run(out, g, 0, 8);
    set_cursor(out, y + 1, x);
    write_data_run(out, g, 8, 16);
    proof {
        let gl = glyph(font@, cchar);
        assert(g@ == gl);
        let a = cursor_transfers(y, x);
        let b = data_transfers(gl.subrange(0, 8));
        let c = cursor_transfers((y + 1) as u8, x);
        let d = data_transfers(gl.subrange(8, 16));
        lemma_append_wire(o, a, b);
        lemma_append_wire(o, a + b, c);
        lemma_append_wire(o, a + b + c, d);
    }
}

/// Draws the characters of `cs` from `line`, `column` on.
fn show_chars(out: &mut Vec<BusOp>, line: u8, column: u8, cs: &Vec<char>, font: &[Glyph])
    requires
        text_ok(line as int, column as int, cs@, font@),
    ensures
        final(out)@ == old(out)@ + wire(text_transfers(line, column, cs@, font@)),
{
    let mut i: usize = 0;
    while i < cs.len()
        invariant
            i <= cs@.len(),
            text_ok(line as int, column as int, cs@, font@),
            out@ == old(out)@ + wire(text_transfers(line, column, cs@.take(i as int), font@)),
        decreases cs@.len() - i,
    {
        assert(in_font(font@, cs@[i as int]));
        show_char(out, line, column + i as u8, cs[i], font);
        proof {
            lemma_text_push(line, column, cs@.take(i as int), cs@[i as int], font@);
            assert(cs@.take(i as int).push(cs@[i as int]) =~= cs@.take(i + 1));
            lemma_append_wire(
                old(out)@,
                text_transfers(line, column, cs@.take(i as int), font@),
                char_transfers(line, (column + i) as u8, cs@[i as int], font@),
            );
        }
        i = i + 1;
    }
    assert(cs@.take(cs@.len() as int) =~= cs@);
}

proof fn lemma_visible_prefix(s: Seq<char>, k: int)
    requires
        0 <= k <= s.len(),
        forall|i: int| 0 <= i < k ==> s[i] != '\0',
        k < s.len() ==> s[k] == '\0',
    ensures
        visible_chars(s) == s.take(k),
    decreases s.len(),
{
    if s.len() == 0 {
    } else if k == 0 {
    } else {
        lemma_visible_prefix(s.drop_first(), k - 1);
        assert(seq![s[0]] + s.drop_first().take(k - 1) =~= s.take(k));
    }
}

/// Draws a string from `line`, `column` on, up to its first `'\0'`.
pub fn show_string(out: &mut Vec<BusOp>, line: u8, column: u8, string: &str, font: &[Glyph])
    requires
        text_ok(line as int, column as int, visible_chars(string@), font@),
    ensures
        final(out)@ == old(out)@ + wire(text_transfers(line, column, visible_chars(string@), font@)),
{
    broadcast use vstd::string::axiom_spec_iter;
    let mut cs: Vec<char> = Vec::new();
    let ghost s = string@;
    let ghost mut stop: int = s.len() as int;
    let mut done = false;
    for c in it: string.chars()
        invariant
            it.seq() == s,
            !done ==> stop == s.len() && cs@ == s.take(it.index() as int) && forall|i: int|
                0 <= i < it.index() ==> s[i] != '\0',
            done ==> 0 <= stop < it.index() && s[stop] == '\0' && cs@ == s.take(stop) && forall|
                i: int,
            | 0 <= i < stop ==> s[i] != '\0',
    {
        if !done {
            if c == '\0' {
                proof {
                    stop = it.index() as int;
                }
                done = true;
            } else {
                cs.push(c);
                proof {
                    assert(s.take(it.index() as int).push(c) =~= s.take(it.index() + 1));
                }
            }
        }
    }
    proof {
        lemma_visible_prefix(s, stop);
    }
    show_chars(out, line, column, &cs, font);
}

/// Draws the last `length` digits of `number` in base `base`, leading zeros
/// included, from `line`, `column` on.
fn show_number(
    out: &mut Vec<BusOp>,
    line: u8,
    column: u8,
    number: u32,
    length: u8,
    base: u32,
    font: &[Glyph],
)
    requires
        2 <= base <= 16,
        length >= 1 ==> ipow(base as int, (length - 1) as nat) <= u32::MAX,
        text_ok(line as int, column as int, number_chars(number as nat, base as nat, length as nat), font@),
    ensures
        final(out)@ == old(out)@ + wire(
            text_transfers(line, column, number_chars(number as nat, base as nat, length as nat), font@),
        ),
{
    let ghost cs = number_chars(number as nat, base as nat, length as nat);
    let mut i: u8 = 0;
    while i < length
        invariant
            i <= length,
            2 <= base <= 16,
            length >= 1 ==> ipow(base as int, (length - 1) as nat) <= u32::MAX,
            cs == number_chars(number as nat, base as nat, length as nat),
            text_ok(line as int, column as int, cs, font@),
            out@ == old(out)@ + wire(text_transfers(line, column, cs.take(i as int), font@)),
        decreases length - i,
    {
        proof {
            vstd::arithmetic::power::lemma_pow_increases(
                base as nat,
                (length - i - 1) as nat,
                (length - 1) as nat,
            );
            vstd::arithmetic::power::lemma_pow_positive(base as int, (length - i - 1) as nat);
        }
        let digit = number / pow(base, (length - i - 1) as u32) % base;
        let cchar = if digit < 10 {
            (digit as u8 + 48) as char  // b'0'
        } else {
            (digit as u8 - 10 + 65) as char  // b'A'
        };
        assert(cchar == cs[i as int]);
        show_char(out, line, column + i, cchar, font);
        proof {
            lemma_text_push(line, column, cs.take(i as int), cchar, font@);
            assert(cs.take(i as int).push(cchar) =~= cs.take(i + 1));
            lemma_append_wire(
                old(out)@,
                text_transfers(line, column, cs.take(i as int), font@),
                char_transfers(line, (column + i) as u8, cchar, font@),
            );
        }
        i = i + 1;
    }
    assert(cs.take(length as int) =~= cs);
}

/// Draws `number` in decimal with `length` digits (1-10), leading zeros
/// included.
pub fn show_num(out: &mut Vec<BusOp>, line: u8, column: u8, number: u32, length: u8, font: &[Glyph])
    requires
        length <= 10,
        text_ok(line as int, column as int, number_chars(number as nat, 10, length as nat), font@),
    ensures
        final(out)@ == old(out)@ + wire(
            text_transfers(line, column, number_chars(number as nat, 10, length as nat), font@),
        ),
{
    proof {
        reveal_with_fuel(vstd::arithmetic::power::pow, 10);
        assert(ipow(10, 9) == 1000000000);
        if length >= 1 {
            vstd::arithmetic::power::lemma_pow_increases(10, (length - 1) as nat, 9);
        }
    }
    show_number(out, line, column, number, length, 10, font);
}

/// Draws `number` in hexadecimal with `length` digits (1-8), upper-case,
/// leading zeros included.
pub fn show_hex_num(
    out: &mut Vec<BusOp>,
    line: u8,
    column: u8,
    number: u32,
    length: u8,
    font: &[Glyph],
)
    requires
        length <= 8,
        text_ok(line as int, column as int, number_chars(number as nat, 16, length as nat), font@),
    ensures
        final(out)@ == old(out)@ + wire(
            text_transfers(line, column, number_chars(number as nat, 16, length as nat), font@),
        ),
{
    proof {
        reveal_with_fuel(vstd::arithmetic::power::pow, 8);
        assert(ipow(16, 7) == 268435456);
        if length >= 1 {
            vstd::arithmetic::power::lemma_pow_increases(16, (length - 1) as nat, 7);
        }
    }
    show_number(out, line, column, number, length, 16, font);
}

/// Draws `number` in binary with `length` digits (1-32), leading zeros
/// included.
pub fn show_bin_num(
    out: &mut Vec<BusOp>,
    line: u8,
    column: u8,
    number: u32,
    length: u8,
    font: &[Glyph],
)
    requires
        length <= 32,
        text_ok(line as int, column as int, number_chars(number as nat, 2, length as nat), font@),
    ensures
        final(out)@ == old(out)@ + wire(
            text_transfers(line, column, number_chars(number as nat, 2, length as nat), font@),
        ),
{
    proof {
        reveal_with_fuel(vstd::arithmetic::power::pow, 32);
        assert(ipow(2, 31) == 2147483648);
        if length >= 1 {
            vstd::arithmetic::power::lemma_pow_increases(2, (length - 1) as nat, 31);
        }
    }
    show_number(out, line, column, number, length, 2, font);
}

/// Draws `number` with its sign (`+` for zero and above, `-` below) and then
/// `length` decimal digits (1-10) of its magnitude.
pub fn show_signed_num(
    out: &mut Vec<BusOp>,
    line: u8,
    column: u8,
    number: i32,
    length: u8,
    font: &[Glyph],
)
    requires
        length <= 10,
        text_ok(line as int, column as int, signed_chars(number as int, length as nat), font@),
    ensures
        final(out)@ == old(out)@ + wire(
            text_transfers(line, column, signed_chars(number as int, length as nat), font@),
        ),
{
    let ghost cs = signed_chars(number as int, length as nat);
    // The magnitude, taken as a `u32` so that `i32::MIN` has one too.
    #[allow(unused_assignments)]
    let mut number1: u32 = 0;
    assert(in_font(font@, cs[0]));
    if number >= 0 {
        show_char(out, line, column, '+', font);
        number1 = number as u32;
    } else {
        show_char(out, line, column, '-', font);
        number1 = (-(number as i64)) as u32;
    }
    proof {
        reveal_with_fuel(vstd::arithmetic::power::pow, 10);
        assert(ipow(10, 9) == 1000000000);
        lemma_text_push(line, column, Seq::empty(), cs[0], font@);
        assert(Seq::<char>::empty().push(cs[0]) =~= cs.take(1));
        assert(text_transfers(line, column, Seq::empty(), font@) =~= Seq::<Transfer>::empty());
        assert(wire(Seq::<Transfer>::empty()) =~= Seq::<BusOp>::empty());
        assert(old(out)@ + wire(text_transfers(line, column, cs.take(1), font@)) =~= out@);
    }
    let mut i: u8 = 0;
    while i < length
        invariant
            i <= length <= 10,
            ipow(10, 9) == 1000000000,
            0 <= number1,
            number1 as int == (if number >= 0 { number as int } else { -number }),
            cs == signed_chars(number as int, length as nat),
            text_ok(line as int, column as int, cs, font@),
            out@ == old(out)@ + wire(text_transfers(line, column, cs.take(i + 1), font@)),
        decreases length - i,
    {
        proof {
            vstd::arithmetic::power::lemma_pow_increases(10, (length - i - 1) as nat, 9);
            vstd::arithmetic::power::lemma_pow_positive(10, (length - i - 1) as nat);
        }
        let p = pow(10, (length - i - 1) as u32);
        let digit = number1 / p % 10;
        let cchar = (digit as u8 + 48) as char;  // b'0'
        assert(cchar == cs[i + 1]);
        show_char(out, line, column + i + 1, cchar, font);
        proof {
            lemma_text_push(line, column, cs.take(i + 1), cchar, font@);
            assert(cs.take(i + 1).push(cchar) =~= cs.take(i + 2));
            lemma_append_wire(
                old(out)@,
                text_transfers(line, column, cs.take(i + 1), font@),
                char_transfers(line, (column + i + 1) as u8, cchar, font@),
            );
        }
        i = i + 1;
    }
    assert(cs.take(length + 1) =~= cs);
}

/// The configuration commands sent at start-up, in order: display off,
/// clock divide ratio, multiplex ratio, display offset, start line, segment
/// and COM scan direction, COM pins, contrast, pre-charge period, VCOMH
/// deselect level, resume from RAM, normal (not inverted) display, charge
/// pump on, display on.
pub open spec fn init_commands() -> Seq<u8> {
    seq![
        0xAEu8, 0xD5u8, 0x80u8, 0xA8u8, 0x3Fu8, 0xD3u8, 0x00u8, 0x40u8, 0xA1u8, 0xC8u8, 0xDAu8,
        0x12u8, 0x81u8, 0xCFu8, 0xD9u8, 0xF1u8, 0xDBu8, 0x30u8, 0xA4u8, 0xA6u8, 0x8Du8, 0x14u8,
        0xAFu8,
    ]
}

pub open spec fn command_transfers(cmds: Seq<u8>) -> Seq<Transfer> {
    cmds.map_values(|c: u8| Transfer::Command(c))
}

/// Initialises the display: releases both lines high, sends the
/// configuration commands and clears the screen.
pub fn init_oled_config(out: &mut Vec<BusOp>)
    ensures
        final(out)@ == old(out)@ + release_ops() + wire(
            command_transfers(init_commands()) + clear_pages_transfers(PAGES as nat),
        ),
{
    out.push(BusOp::Scl(true));
    out.push(BusOp::Sda(true));
    let ghost o = out@;
    let cmds: [u8; 23] = [
        0xAE, 0xD5, 0x80, 0xA8, 0x3F, 0xD3, 0x00, 0x40, 0xA1, 0xC8, 0xDA, 0x12, 0x81, 0xCF, 0xD9,
        0xF1, 0xDB, 0x30, 0xA4, 0xA6, 0x8D, 0x14, 0xAF,
    ];
    assert(cmds@ =~= init_commands());
    let mut k: usize = 0;
    while k < 23
        invariant
            k <= 23,
            cmds@ == init_commands(),
            out@ == o + wire(command_transfers(cmds@.take(k as int))),
        decreases 23 - k,
    {
        write_command(out, cmds[k]);
        proof {
            lemma_wire_push(command_transfers(cmds@.take(k as int)), Transfer::Command(cmds@[k as int]));
            assert(command_transfers(cmds@.take(k as int)).push(Transfer::Command(cmds@[k as int]))
                =~= command_transfers(cmds@.take(k + 1)));
        }
        k = k + 1;
    }
    assert(cmds@.take(23) =~= cmds@);
    clear(out);
    proof {
        lemma_append_wire(o, command_transfers(init_commands()), clear_pages_transfers(PAGES as nat));
        assert(out@ =~= old(out)@ + release_ops() + wire(
            command_transfers(init_commands()) + clear_pages_transfers(PAGES as nat),
        ));
    }
}

/// Every digit character of a decimal number has a glyph when the ten digits
/// have one.
pub proof fn number_chars_in_font(number: nat, length: nat, font: Seq<Glyph>)
    requires
        forall|d: int| 0 <= d < 10 ==> #[trigger] in_font(font, digit_char(d)),
    ensures
        forall|i: int|
            0 <= i < length ==> #[trigger] in_font(font, number_chars(number, 10, length)[i]),
{
    assert forall|i: int| 0 <= i < length implies #[trigger] in_font(
        font,
        number_chars(number, 10, length)[i],
    ) by {
        let d = digit_at(number, 10, length, i);
        assert(0 <= d < 10);
        assert(in_font(font, digit_char(d)));
    }
}

} // verus!
