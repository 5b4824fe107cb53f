use vstd::prelude::*;
use crate::display::{Palette, SCROLL_CONTROL_TEXT};
use crate::text::{hex_pad, push_char, push_hex};

verus! {

/// Number of bytes shown on one hexdump line.
pub const HEXDUMP_WIDTH: usize = 16;

/// A printable ASCII character other than space (`u8::is_ascii_graphic`).
pub open spec fn is_graphic(b: u8) -> bool {
    0x21 <= b && b <= 0x7e
}

/// ASCII white space as `u8::is_ascii_whitespace` defines it: space, tab, line feed,
/// form feed, carriage return.
pub open spec fn is_whitespace(b: u8) -> bool {
    b == 0x20 || b == 0x09 || b == 0x0a || b == 0x0c || b == 0x0d
}

/// The colour of a byte: zero, printable, white space, other ASCII, and the rest.
pub open spec fn spec_color(b: u8) -> Palette {
    if b == 0 {
        Palette::DarkGray
    } else if is_graphic(b) {
        Palette::Blue
    } else if is_whitespace(b) {
        Palette::Green
    } else if b < 0x80 {
        Palette::Orange
    } else {
        Palette::Yellow
    }
}

/// The character the ASCII column shows for a byte: the byte itself when printable,
/// otherwise '.'.
pub open spec fn ascii_char(b: u8) -> char {
    if is_graphic(b) { (b as nat) as char } else { '.' }
}

/// Colours a byte.
pub fn color(byte: u8) -> (c: Palette)
    ensures
        c == spec_color(byte),
{
    if byte == 0x00 {
        Palette::DarkGray
    } else if 0x21 <= byte && byte <= 0x7e {
        Palette::Blue
    } else if byte == 0x20 || byte == 0x09 || byte == 0x0a || byte == 0x0c || byte == 0x0d {
        Palette::Green
    } else if byte < 0x80 {
        Palette::Orange
    } else {
        Palette::Yellow
    }
}

/// A register that has a name and holds a 64-bit value.
pub struct RegisterValue {
    pub name: String,
    pub value: u64,
}

/// A piece of coloured text.
pub struct HexCell {
    pub text: String,
    pub color: Palette,
}

/// One line of a hexdump: the offset column, the hex cells, the ASCII cells, and the
/// registers that point into the line.
pub struct HexdumpLine {
    pub address: String,
    pub hex: Vec<HexCell>,
    pub ascii: Vec<HexCell>,
    pub refs: Vec<String>,
}

/// The bytes of line `l` (the `l`-th chunk of 16 bytes; the last chunk may be shorter).
pub open spec fn line_bytes(buffer: Seq<u8>, l: int) -> Seq<u8> {
    let start = l * 16;
    let end = if start + 16 <= buffer.len() { start + 16 } else { buffer.len() as int };
    buffer.subrange(start, end)
}

/// The number of lines a buffer fills.
pub open spec fn line_count(len: nat) -> nat {
    (len + 15) / 16
}

/// The lines shown when `skip` lines are scrolled past and at most `take` are shown.
pub open spec fn shown_lines(len: nat, skip: nat, take: nat) -> nat {
    let total = line_count(len);
    if total <= skip {
        0
    } else if total - skip < take {
        (total - skip) as nat
    } else {
        take
    }
}

/// A register value points at one of the `windows + 1` bytes from `base` on.
pub open spec fn points_into(value: u64, base: int, windows: nat) -> bool {
    base <= value && value <= base + windows
}

/// The marker shown for a register that points into a line.
pub open spec fn ref_text(name: Seq<char>, value: u64) -> Seq<char> {
    "← $"@ + name + "(0x"@ + hex_pad(value as nat, 2) + ") "@
}

/// The markers of the registers, in order, that point into the bytes from `base` on.
pub open spec fn line_refs(regs: Seq<RegisterValue>, base: int, windows: nat) -> Seq<Seq<char>>
    decreases regs.len(),
{
    if regs.len() == 0 {
        Seq::empty()
    } else {
        let r = regs.last();
        let rest = line_refs(regs.drop_last(), base, windows);
        if points_into(r.value, base, windows) {
            rest.push(ref_text(r.name@, r.value))
        } else {
            rest
        }
    }
}

/// The hex cell of a byte: two hexadecimal digits and a space.
pub open spec fn hex_cell_ok(c: HexCell, b: u8) -> bool {
    c.text@ == hex_pad(b as nat, 2) + " "@ && c.color == spec_color(b)
}

/// The ASCII cell of a byte.
pub open spec fn ascii_cell_ok(c: HexCell, b: u8) -> bool {
    c.text@ == seq![ascii_char(b)] && c.color == spec_color(b)
}

/// Line `l` of the hexdump of `buffer`, which starts at address `pos`.
pub open spec fn line_ok(
    line: HexdumpLine,
    buffer: Seq<u8>,
    l: int,
    pos: u64,
    regs: Seq<RegisterValue>,
    windows: nat,
) -> bool {
    let bytes = line_bytes(buffer, l);
    &&& line.address@ == hex_pad((l * 16) as nat, 8) + ": "@
    &&& line.hex@.len() == bytes.len()
    &&& forall|k: int| 0 <= k < bytes.len() ==> hex_cell_ok(#[trigger] line.hex@[k], bytes[k])
    &&& line.ascii@.len() == bytes.len()
    &&& forall|k: int| 0 <= k < bytes.len() ==> ascii_cell_ok(#[trigger] line.ascii@[k], bytes[k])
    &&& line.refs@.len() == line_refs(regs, pos + l * 16, windows).len()
    &&& forall|k: int| 0 <= k < line.refs@.len() ==> (#[trigger] line.refs@[k])@ == line_refs(regs, pos + l * 16, windows)[k]
}

/// Builds the markers of the registers pointing into the bytes from `base` on.
fn register_refs(regs: &Vec<RegisterValue>, base: u64, windows: u64) -> (r: Vec<String>)
    requires
        regs@.len() > 0 ==> base + windows <= u64::MAX,
    ensures
        r@.len() == line_refs(regs@, base as int, windows as nat).len(),
        forall|k: int| 0 <= k < r@.len() ==> (#[trigger] r@[k])@ == line_refs(regs@, base as int, windows as nat)[k],
{
    let mut out: Vec<String> = Vec::new();
    let mut i: usize = 0;
    while i < regs.len()
        invariant
            i <= regs@.len(),
            regs@.len() > 0 ==> base + windows <= u64::MAX,
            out@.len() == line_refs(regs@.take(i as int), base as int, windows as nat).len(),
            forall|k: int| 0 <= k < out@.len() ==> (#[trigger] out@[k])@ == line_refs(regs@.take(i as int), base as int, windows as nat)[k],
        decreases regs@.len() - i,
    {
        let r = &regs[i];
        assert(regs@.take(i + 1).drop_last() =~= regs@.take(i as int));
        assert(regs@.take(i + 1).last() == regs@[i as int]);
        if base <= r.value && r.value <= base + windows {
            let mut t = String::from_str("← $");
            t.append(r.name.as_str());
            t.append("(0x");
            push_hex(&mut t, r.value, 2);
            t.append(") ");
            out.push(t);
        }
        i = i + 1;
    }
    assert(regs@.take(i as int) =~= regs@);
    out
}

/// Builds line `l` of the hexdump.
fn hexdump_line(buffer: &[u8], l: usize, pos: u64, regs: &Vec<RegisterValue>, windows: u64) -> (line: HexdumpLine)
    requires
        l * 16 < buffer@.len(),
        regs@.len() > 0 ==> pos + l * 16 + windows <= u64::MAX,
    ensures
        line_ok(line, buffer@, l as int, pos, regs@, windows as nat),
{
    let n = buffer.len();
    assert(l * 16 <= usize::MAX);
    let start = l * 16;
    let end = if buffer.len() - start >= 16 { start + 16 } else { buffer.len() };
    let ghost bytes = line_bytes(buffer@, l as int);
    let mut address = String::new();
    push_hex(&mut address, start as u64, 8);
    address.append(": ");
    let mut hex: Vec<HexCell> = Vec::new();
    let mut ascii: Vec<HexCell> = Vec::new();
    let mut k = start;
    while k < end
        invariant
            start <= k <= end,
            end <= buffer@.len(),
            bytes == buffer@.subrange(start as int, end as int),
            hex@.len() == k - start,
            ascii@.len() == k - start,
            forall|j: int| 0 <= j < k - start ==> hex_cell_ok(#[trigger] hex@[j], bytes[j]),
            forall|j: int| 0 <= j < k - start ==> ascii_cell_ok(#[trigger] ascii@[j], bytes[j]),
        decreases end - k,
    {
        let b = buffer[k];
        let c = color(b);
        let mut t = String::new();
        push_hex(&mut t, b as u64, 2);
        t.append(" ");
        hex.push(HexCell { text: t, color: c });
        let ch = if 0x21 <= b && b <= 0x7e { b as char } else { '.' };
        let mut a = String::new();
        push_char(&mut a, ch);
        assert(a@ =~= seq![ascii_char(b)]);
        ascii.push(HexCell { text: a, color: c });
        k = k + 1;
    }
    let base: u64 = if regs.len() > 0 { pos + start as u64 } else { 0 };
    let refs = register_refs(regs, base, windows);
    assert(regs@.len() == 0 ==> line_refs(regs@, base as int, windows as nat) =~= line_refs(regs@, pos + l * 16, windows as nat));
    HexdumpLine { address, hex, ascii, refs }
}

/// The lines of the hexdump of `buffer`, which starts at address `pos`: `skip` lines are
/// scrolled past and at most `take` are shown. Registers are marked on a line when they
/// point at one of its first `windows + 1` bytes, where `windows` is 4 for a 32-bit
/// target and 8 otherwise. Locating registers computes addresses in 64 bits, so they
/// must not overflow for the lines shown.
pub fn to_hexdump_lines(
    pos: u64,
    buffer: &[u8],
    skip: usize,
    take: usize,
    bit32: bool,
    regs: &Vec<RegisterValue>,
) -> (lines: Vec<HexdumpLine>)
    requires
        regs@.len() > 0 && shown_lines(buffer@.len(), skip as nat, take as nat) > 0 ==> pos + 16 * (skip
            + shown_lines(buffer@.len(), skip as nat, take as nat) - 1) + (if bit32 { 4int } else { 8int })
            <= u64::MAX,
    ensures
        lines@.len() == shown_lines(buffer@.len(), skip as nat, take as nat),
        forall|i: int| 0 <= i < lines@.len() ==> line_ok(
            #[trigger] lines@[i],
            buffer@,
            skip + i,
            pos,
            regs@,
            if bit32 { 4 } else { 8 },
        ),
{
    let windows: u64 = if bit32 { 4 } else { 8 };
    let mut lines: Vec<HexdumpLine> = Vec::new();
    let total = buffer.len() / 16 + if buffer.len() % 16 == 0 { 0 } else { 1 };
    assert(total == line_count(buffer@.len()));
    if total <= skip {
        return lines;
    }
    let shown = if total - skip < take { total - skip } else { take };
    let mut i: usize = 0;
    while i < shown
        invariant
            i <= shown,
            shown == shown_lines(buffer@.len(), skip as nat, take as nat),
            skip < total,
            total == line_count(buffer@.len()),
            shown <= total - skip,
            windows == (if bit32 { 4u64 } else { 8u64 }),
            regs@.len() > 0 && shown > 0 ==> pos + 16 * (skip + shown - 1) + windows <= u64::MAX,
            lines@.len() == i,
            forall|j: int| 0 <= j < i ==> line_ok(#[trigger] lines@[j], buffer@, skip + j, pos, regs@, windows as nat),
        decreases shown - i,
    {
        let l = skip + i;
        assert(l * 16 < buffer@.len()) by (nonlinear_arith)
            requires l < total, total == (buffer@.len() + 15) / 16;
        lines.push(hexdump_line(buffer, l, pos, regs, windows));
        i = i + 1;
    }
    lines
}

/// The position shown in the hexdump title: "(0x" and the start address in hexadecimal
/// (at least two digits) and ")", or nothing when no memory is shown.
pub open spec fn position_text(address: Option<u64>) -> Seq<char> {
    match address {
        Some(a) => "(0x"@ + hex_pad(a as nat, 2) + ")"@,
        None => Seq::empty(),
    }
}

/// The title of the hexdump pane.
pub fn hexdump_title(address: Option<u64>) -> (t: String)
    ensures
        t@ == "Hexdump"@ + position_text(address) + " "@ + SCROLL_CONTROL_TEXT@
            + ", Save(S), HEAP(H), STACK(T))"@,
{
    let mut t = String::from_str("Hexdump");
    if let Some(a) = address {
        t.append("(0x");
        push_hex(&mut t, a, 2);
        t.append(")");
    }
    t.append(" ");
    t.append(SCROLL_CONTROL_TEXT);
    t.append(", Save(S), HEAP(H), STACK(T))");
    t
}

/// The scroll position the hexdump pane keeps after it is drawn: the number of whole
/// lines in a dump of `len` bytes (a last, partial line is not counted).
pub fn scroll_after_draw(len: usize) -> (scroll: usize)
    ensures
        scroll == len / HEXDUMP_WIDTH,
        scroll * HEXDUMP_WIDTH <= len < (scroll + 1) * HEXDUMP_WIDTH,
{
    len / HEXDUMP_WIDTH
}

/// The markers of a line are those of the registers, in order, whose value lies from
/// the line's first byte `base` to `windows` bytes past it, bounds included.
pub proof fn law_line_refs_are_pointing_registers(regs: Seq<RegisterValue>, base: int, windows: nat)
    ensures
        line_refs(regs, base, windows) == regs.filter(
            |r: RegisterValue| base <= r.value && r.value <= base + windows,
        ).map_values(|r: RegisterValue| ref_text(r.name@, r.value)),
    decreases regs.len(),
{
    let pred = |r: RegisterValue| base <= r.value && r.value <= base + windows;
    let f = |r: RegisterValue| ref_text(r.name@, r.value);
    reveal(Seq::filter);
    if regs.len() == 0 {
        assert(regs.filter(pred).map_values(f) =~= Seq::<Seq<char>>::empty());
    } else {
        law_line_refs_are_pointing_registers(regs.drop_last(), base, windows);
        let sub = regs.drop_last().filter(pred);
        if pred(regs.last()) {
            assert(sub.push(regs.last()).map_values(f) =~= sub.map_values(f).push(f(regs.last())));
        }
    }
}

/// On every line of a hexdump, a register is marked exactly when it points at one of the
/// first `windows + 1` bytes of the line (the line's first byte included), in register
/// order.
pub proof fn law_hexdump_line_marks(
    line: HexdumpLine,
    buffer: Seq<u8>,
    l: int,
    pos: u64,
    regs: Seq<RegisterValue>,
    windows: nat,
)
    requires
        line_ok(line, buffer, l, pos, regs, windows),
    ensures
        line.refs@.map_values(|t: String| t@) == regs.filter(
            |r: RegisterValue| pos + 16 * l <= r.value && r.value <= pos + 16 * l + windows,
        ).map_values(|r: RegisterValue| ref_text(r.name@, r.value)),
{
    law_line_refs_are_pointing_registers(regs, pos + l * 16, windows);
    assert(line.refs@.map_values(|t: String| t@) =~= line_refs(regs, pos + l * 16, windows));
    let p1 = |r: RegisterValue| pos + l * 16 <= r.value && r.value <= pos + l * 16 + windows;
    let p2 = |r: RegisterValue| pos + 16 * l <= r.value && r.value <= pos + 16 * l + windows;
    assert(p1 =~= p2);
}

/// How a byte is shown: zero dark grey, 0x21 to 0x7e blue, ASCII white space green,
/// other bytes below 0x80 orange and the rest yellow; the ASCII column shows the byte
/// itself exactly when it is blue, and '.' otherwise.
pub proof fn law_byte_cells(b: u8)
    ensures
        (spec_color(b) == Palette::DarkGray) <==> b == 0,
        (spec_color(b) == Palette::Blue) <==> (0x21 <= b && b <= 0x7e),
        (spec_color(b) == Palette::Green) <==> (b == 0x20 || b == 0x09 || b == 0x0a || b == 0x0c || b == 0x0d),
        (spec_color(b) == Palette::Orange) <==> (0 < b && b < 0x80 && !(0x21 <= b && b <= 0x7e) && !(b == 0x20
            || b == 0x09 || b == 0x0a || b == 0x0c || b == 0x0d)),
        (spec_color(b) == Palette::Yellow) <==> b >= 0x80,
        spec_color(b) == Palette::Blue ==> ascii_char(b) as int == b as int,
        spec_color(b) != Palette::Blue ==> ascii_char(b) == '.',
{
}

} // verus!
