use vstd::prelude::*;
use vstd::utf8::{valid_utf8, decode_utf8};
use vstd::arithmetic::power::{pow, lemma_pow_positive};
use vstd::arithmetic::div_mod::lemma_div_denominator;
use crate::hexdump::{is_graphic, is_whitespace};
use crate::text::{hex_pad, pad_right, push_hex, push_spaces, spaces, utf8_to_string};

verus! {

/// The colours of the terminal interface.
#[derive(Clone, Copy, Debug, PartialEq, Eq, Structural)]
pub enum Palette {
    Blue,
    Purple,
    Orange,
    Yellow,
    Green,
    Red,
    DarkGray,
    Gray,
    GrayFg,
}

/// The key help shown in the titles of scrollable panes.
pub const SCROLL_CONTROL_TEXT: &'static str = "(up(k), down(j), 50 up(K), 50 down(J), top(g), bottom(G))";

/// Where a value points in the memory of the debugged program.
#[derive(Clone, Copy, Debug, PartialEq, Eq, Structural)]
pub enum MemoryType {
    Stack,
    Heap,
    Exec,
    Unknown,
}

/// The colour of a value, by where it points: stack values purple, heap values green,
/// code red; other values keep the default style.
pub open spec fn spec_value_color(m: MemoryType) -> Option<Palette> {
    match m {
        MemoryType::Stack => Some(Palette::Purple),
        MemoryType::Heap => Some(Palette::Green),
        MemoryType::Exec => Some(Palette::Red),
        MemoryType::Unknown => None,
    }
}

/// Chooses the colour of a value by where it points.
pub fn apply_val_color(memory_type: MemoryType) -> (c: Option<Palette>)
    ensures
        c == spec_value_color(memory_type),
{
    match memory_type {
        MemoryType::Stack => Some(Palette::Purple),
        MemoryType::Heap => Some(Palette::Green),
        MemoryType::Exec => Some(Palette::Red),
        MemoryType::Unknown => None,
    }
}

/// The first `n` little-endian bytes of `v`.
pub open spec fn le_bytes(v: nat, n: nat) -> Seq<u8>
    decreases n,
{
    if n == 0 {
        Seq::empty()
    } else {
        seq![(v % 256) as u8] + le_bytes(v / 256, (n - 1) as nat)
    }
}

/// A value reads as text when it exceeds one byte and each of its eight bytes is a
/// printable ASCII character or ASCII white space.
pub open spec fn looks_like_text(v: u64) -> bool {
    let b = le_bytes(v as nat, 8);
    v > 0xff && forall|k: int| 0 <= k < 8 ==> is_graphic(#[trigger] b[k]) || is_whitespace(b[k])
}

/// The text a value contributes to a string: its eight bytes decoded as UTF-8, or
/// nothing where they are not valid UTF-8.
pub open spec fn utf8_piece(v: u64) -> Seq<char> {
    let b = le_bytes(v as nat, 8);
    if valid_utf8(b) { decode_utf8(b) } else { Seq::empty() }
}

/// The text of a run of values.
pub open spec fn text_of(s: Seq<u64>) -> Seq<char>
    decreases s.len(),
{
    if s.len() == 0 { Seq::empty() } else { utf8_piece(s[0]) + text_of(s.drop_first()) }
}

/// The index of the first value that reads as text, or -1.
pub open spec fn first_text_index(s: Seq<u64>) -> int
    decreases s.len(),
{
    if s.len() == 0 {
        -1
    } else if looks_like_text(s[0]) {
        0
    } else {
        let r = first_text_index(s.drop_first());
        if r < 0 { -1 } else { r + 1 }
    }
}

/// A piece of text with an optional colour.
pub struct Cell {
    pub text: String,
    pub color: Option<Palette>,
}

/// The cell of a value in a chain of dereferences: an arrow, the value in hexadecimal
/// and spaces up to `width`.
pub open spec fn value_cell_text(v: u64, width: nat) -> Seq<char> {
    let hex = "0x"@ + hex_pad(v as nat, 2);
    "→ "@ + hex + spaces(if width > hex.len() { (width - hex.len()) as nat } else { 0 })
}

/// The cell of the text a chain of values reads as.
pub open spec fn text_cell_text(s: Seq<u64>) -> Seq<char> {
    "→ \""@ + text_of(s) + "\""@
}

/// The cells of the values before index `n`.
pub open spec fn value_cells_ok(cells: Seq<Cell>, map: Seq<u64>, classes: Seq<MemoryType>, n: int, width: nat) -> bool {
    forall|j: int| 0 <= j < n ==> {
        &&& (#[trigger] cells[j]).text@ == value_cell_text(map[j], width)
        &&& cells[j].color == spec_value_color(classes[j])
    }
}

fn le_bytes_of(v: u64) -> (b: Vec<u8>)
    ensures
        b@ == le_bytes(v as nat, 8),
{
    let mut out: Vec<u8> = Vec::new();
    let mut m: u64 = v;
    let mut k: usize = 0;
    while k < 8
        invariant
            k <= 8,
            out@ + le_bytes(m as nat, (8 - k) as nat) == le_bytes(v as nat, 8),
        decreases 8 - k,
    {
        assert(le_bytes(m as nat, (8 - k) as nat) == seq![(m % 256) as u8] + le_bytes((m / 256) as nat, (8 - k - 1) as nat));
        out.push((m % 256) as u8);
        assert(out@ + le_bytes((m / 256) as nat, (8 - k - 1) as nat) =~= le_bytes(v as nat, 8));
        m = m / 256;
        k = k + 1;
    }
    assert(le_bytes(m as nat, 0) =~= Seq::<u8>::empty());
    assert(out@ =~= le_bytes(v as nat, 8));
    out
}

fn reads_as_text(v: u64) -> (r: bool)
    ensures
        r == looks_like_text(v),
{
    if v <= 0xff {
        return false;
    }
    let b = le_bytes_of(v);
    proof {
        lemma_le_bytes_len(v as nat, 8);
    }
    let mut k: usize = 0;
    while k < 8
        invariant
            k <= 8,
            b@ == le_bytes(v as nat, 8),
            b@.len() == 8,
            forall|j: int| 0 <= j < k ==> is_graphic(#[trigger] b@[j]) || is_whitespace(b@[j]),
        decreases 8 - k,
    {
        let x = b[k];
        let ok = (0x21 <= x && x <= 0x7e) || x == 0x20 || x == 0x09 || x == 0x0a || x == 0x0c || x == 0x0d;
        if !ok {
            return false;
        }
        k = k + 1;
    }
    true
}

proof fn lemma_le_bytes_len(v: nat, n: nat)
    ensures
        le_bytes(v, n).len() == n,
    decreases n,
{
    if n > 0 {
        lemma_le_bytes_len(v / 256, (n - 1) as nat);
    }
}

proof fn lemma_first_text_index(s: Seq<u64>, i: int)
    requires
        0 <= i <= s.len(),
        forall|j: int| 0 <= j < i ==> !looks_like_text(#[trigger] s[j]),
    ensures
        i < s.len() && looks_like_text(s[i]) ==> first_text_index(s) == i,
        i == s.len() ==> first_text_index(s) == -1,
    decreases i,
{
    if i > 0 {
        assert forall|j: int| 0 <= j < i - 1 implies !looks_like_text(#[trigger] s.drop_first()[j]) by {
            assert(s.drop_first()[j] == s[j + 1]);
        }
        lemma_first_text_index(s.drop_first(), i - 1);
    }
}

/// The index of the first value that reads as text.
fn first_text(map: &Vec<u64>) -> (r: Option<usize>)
    ensures
        match r {
            Some(t) => t as int == first_text_index(map@) && t < map@.len(),
            None => first_text_index(map@) == -1,
        },
{
    let mut i: usize = 0;
    while i < map.len()
        invariant
            i <= map@.len(),
            forall|j: int| 0 <= j < i ==> !looks_like_text(#[trigger] map@[j]),
        decreases map@.len() - i,
    {
        if reads_as_text(map[i]) {
            proof {
                lemma_first_text_index(map@, i as int);
            }
            return Some(i);
        }
        i = i + 1;
    }
    proof {
        lemma_first_text_index(map@, i as int);
    }
    None
}

/// The text of the values of `map` from index `from` on.
fn text_from(map: &Vec<u64>, from: usize) -> (t: String)
    requires
        from <= map@.len(),
    ensures
        t@ == text_of(map@.skip(from as int)),
{
    let mut t = String::new();
    let mut j = from;
    while j < map.len()
        invariant
            from <= j <= map@.len(),
            text_of(map@.skip(from as int)) == t@ + text_of(map@.skip(j as int)),
        decreases map@.len() - j,
    {
        let bytes = le_bytes_of(map[j]);
        assert(map@.skip(j as int).drop_first() =~= map@.skip(j + 1));
        assert(map@.skip(j as int)[0] == map@[j as int]);
        match utf8_to_string(bytes.as_slice()) {
            Some(s) => {
                t.append(s.as_str());
            },
            None => {},
        }
        assert(text_of(map@.skip(from as int)) =~= t@ + text_of(map@.skip(j + 1)));
        j = j + 1;
    }
    assert(text_of(map@.skip(j as int)) =~= Seq::<char>::empty());
    assert(t@ =~= t@ + Seq::<char>::empty());
    t
}

/// Appends to `spans` the cells that show a chain of dereferenced values. Values are
/// shown in hexadecimal, padded to `width` and coloured by `classes`, the memory type of
/// each value; from the first value that reads as text on, the rest of the chain is
/// shown as one string and nothing more is added. Otherwise a detected loop and the
/// final instruction follow, and `longest_cells` grows to the number of cells if that is
/// larger.
pub fn add_resolve_symbol_to_span(
    map: &Vec<u64>,
    repeated_pattern: bool,
    final_assembly: &str,
    classes: &Vec<MemoryType>,
    spans: &mut Vec<Cell>,
    longest_cells: &mut usize,
    width: usize,
)
    requires
        classes@.len() == map@.len(),
    ensures
        ({
            let old_len = old(spans)@.len() as int;
            let added = final(spans)@.subrange(old_len, final(spans)@.len() as int);
            let t = first_text_index(map@);
            &&& final(spans)@.len() >= old_len
            &&& final(spans)@.subrange(0, old_len) == old(spans)@
            &&& if t >= 0 {
                &&& added.len() == t + 1
                &&& value_cells_ok(added, map@, classes@, t, width as nat)
                &&& added[t].text@ == text_cell_text(map@.skip(t))
                &&& added[t].color == Some(Palette::Yellow)
                &&& *final(longest_cells) == *old(longest_cells)
            } else {
                let n = map@.len() as int;
                let with_loop = if repeated_pattern { n + 1 } else { n };
                &&& added.len() == with_loop + (if final_assembly@.len() > 0 { 1int } else { 0 })
                &&& value_cells_ok(added, map@, classes@, n, width as nat)
                &&& repeated_pattern ==> (added[n].text@ == "→ [loop detected]"@ && added[n].color == Some(Palette::Gray))
                &&& final_assembly@.len() > 0 ==> (added[with_loop].text@ == "→ "@ + pad_right(final_assembly@, width as nat)
                    && added[with_loop].color == Some(Palette::Orange))
                &&& *final(longest_cells) == (if final(spans)@.len() > *old(longest_cells) {
                    final(spans)@.len() as usize
                } else {
                    *old(longest_cells)
                })
            }
        }),
{
    let ghost start = spans@;
    let old_len = spans.len();
    let stop = first_text(map);
    let limit = match stop {
        Some(t) => t,
        None => map.len(),
    };
    let mut i: usize = 0;
    while i < limit
        invariant
            i <= limit <= map@.len(),
            classes@.len() == map@.len(),
            old_len == start.len(),
            spans@.len() == old_len + i,
            spans@.subrange(0, old_len as int) == start,
            value_cells_ok(spans@.subrange(old_len as int, spans@.len() as int), map@, classes@, i as int, width as nat),
        decreases limit - i,
    {
        let v = map[i];
        let mut text = String::from_str("→ ");
        let mut hex = String::from_str("0x");
        push_hex(&mut hex, v, 2);
        let hex_width = hex.unicode_len();
        text.append(hex.as_str());
        let padding = width.saturating_sub(hex_width);
        push_spaces(&mut text, padding);
        let color = apply_val_color(classes[i]);
        let ghost before = spans@;
        spans.push(Cell { text, color });
        assert(spans@.subrange(0, old_len as int) =~= start);
        assert forall|j: int| 0 <= j < i + 1 implies {
            &&& (#[trigger] spans@.subrange(old_len as int, spans@.len() as int)[j]).text@ == value_cell_text(map@[j], width as nat)
            &&& spans@.subrange(old_len as int, spans@.len() as int)[j].color == spec_value_color(classes@[j])
        } by {
            if j < i {
                assert(spans@.subrange(old_len as int, spans@.len() as int)[j] == before.subrange(old_len as int, before.len() as int)[j]);
            }
        }
        i = i + 1;
    }
    if let Some(t) = stop {
        let mut text = String::from_str("→ \"");
        let rest = text_from(map, t);
        text.append(rest.as_str());
        text.append("\"");
        let ghost before = spans@;
        spans.push(Cell { text, color: Some(Palette::Yellow) });
        assert(spans@.subrange(0, old_len as int) =~= start);
        assert forall|j: int| 0 <= j < t implies {
            &&& (#[trigger] spans@.subrange(old_len as int, spans@.len() as int)[j]).text@ == value_cell_text(map@[j], width as nat)
            &&& spans@.subrange(old_len as int, spans@.len() as int)[j].color == spec_value_color(classes@[j])
        } by {
            assert(spans@.subrange(old_len as int, spans@.len() as int)[j] == before.subrange(old_len as int, before.len() as int)[j]);
        }
        return;
    }
    let ghost values_end = spans@;
    if repeated_pattern {
        spans.push(Cell { text: String::from_str("→ [loop detected]"), color: Some(Palette::Gray) });
    }
    let ghost loop_end = spans@;
    if final_assembly.unicode_len() > 0 {
        let mut text = String::from_str("→ ");
        text.append(final_assembly);
        let n = final_assembly.unicode_len();
        if n < width {
            push_spaces(&mut text, width - n);
        }
        spans.push(Cell { text, color: Some(Palette::Orange) });
    }
    assert(spans@.subrange(0, old_len as int) =~= start);
    assert forall|j: int| 0 <= j < map@.len() implies {
        &&& (#[trigger] spans@.subrange(old_len as int, spans@.len() as int)[j]).text@ == value_cell_text(map@[j], width as nat)
        &&& spans@.subrange(old_len as int, spans@.len() as int)[j].color == spec_value_color(classes@[j])
    } by {
        assert(spans@.subrange(old_len as int, spans@.len() as int)[j] == values_end.subrange(old_len as int, values_end.len() as int)[j]);
    }
    if spans.len() > *longest_cells {
        *longest_cells = spans.len();
    }
}

/// Which panes the interface shows.
#[derive(Clone, Copy, Debug, PartialEq, Eq, Structural)]
pub enum Mode {
    All,
    OnlyOutput,
    OnlyRegister,
    OnlyStack,
    OnlyInstructions,
    OnlyMapping,
    OnlyHexdump,
}

/// A size rule of one area of a vertical split.
#[derive(Clone, Copy, Debug, PartialEq, Eq, Structural)]
pub enum SizeRule {
    Fill(u16),
    Length(u16),
    Min(u16),
}

/// What an area of the screen shows.
#[derive(Clone, Copy, Debug, PartialEq, Eq, Structural)]
pub enum Pane {
    Title,
    Top,
    Backtrace,
    Output,
    Registers,
    Stack,
    Instructions,
    Mapping,
    Hexdump,
}

/// Lines of output kept on screen below the other panes.
pub const SAVED_OUTPUT: u16 = 10;

/// How the screen is divided: the vertical split of the whole screen and the panes of
/// its first areas, whether the output pane takes the whole screen, and the split of
/// the top area with its panes.
pub struct ScreenPlan {
    pub outer: Vec<SizeRule>,
    pub outer_panes: Vec<Pane>,
    pub output_full: bool,
    pub inner: Vec<SizeRule>,
    pub inner_panes: Vec<Pane>,
}

/// The split of the whole screen: title and output alone; or title, top and output; or,
/// with a backtrace, title, top, backtrace (one line more than its frames), output and a
/// three-line footer. The backtrace length is taken modulo 2^16, as a `u16` holds it.
pub open spec fn spec_outer(mode: Mode, bt_len: usize) -> Seq<SizeRule> {
    if mode == Mode::OnlyOutput {
        seq![SizeRule::Length(2), SizeRule::Fill(1)]
    } else if bt_len == 0 {
        seq![SizeRule::Length(2), SizeRule::Fill(1), SizeRule::Length(SAVED_OUTPUT)]
    } else {
        seq![
            SizeRule::Length(2),
            SizeRule::Fill(1),
            SizeRule::Length(((bt_len as int % 0x10000) + 1) as u16),
            SizeRule::Length(SAVED_OUTPUT),
            SizeRule::Length(3),
        ]
    }
}

/// The panes of the first areas of the whole screen, in order.
pub open spec fn spec_outer_panes(mode: Mode, bt_len: usize) -> Seq<Pane> {
    if mode == Mode::OnlyOutput {
        seq![Pane::Title, Pane::Output]
    } else if bt_len == 0 {
        seq![Pane::Title, Pane::Top, Pane::Output]
    } else {
        seq![Pane::Title, Pane::Top, Pane::Backtrace, Pane::Output]
    }
}

/// The split of the top area: registers, stack and instructions together, or the one
/// pane the mode selects filling it.
pub open spec fn spec_inner(mode: Mode) -> Seq<SizeRule> {
    match mode {
        Mode::OnlyOutput => Seq::empty(),
        Mode::All => seq![SizeRule::Min(10), SizeRule::Length(11), SizeRule::Length(11)],
        _ => seq![SizeRule::Fill(1)],
    }
}

/// The panes of the top area, in order.
pub open spec fn spec_inner_panes(mode: Mode) -> Seq<Pane> {
    match mode {
        Mode::OnlyOutput => Seq::empty(),
        Mode::All => seq![Pane::Registers, Pane::Stack, Pane::Instructions],
        Mode::OnlyRegister => seq![Pane::Registers],
        Mode::OnlyStack => seq![Pane::Stack],
        Mode::OnlyInstructions => seq![Pane::Instructions],
        Mode::OnlyMapping => seq![Pane::Mapping],
        Mode::OnlyHexdump => seq![Pane::Hexdump],
    }
}

/// Plans the screen for a mode and the number of backtrace frames. The backtrace area's
/// size is computed in 16 bits, so a length that is 65535 modulo 2^16 would overflow.
pub fn screen_plan(mode: Mode, bt_len: usize) -> (p: ScreenPlan)
    requires
        bt_len as int % 0x10000 != 0xffff,
    ensures
        p.outer@ == spec_outer(mode, bt_len),
        p.outer_panes@ == spec_outer_panes(mode, bt_len),
        p.output_full == (mode == Mode::OnlyOutput),
        p.inner@ == spec_inner(mode),
        p.inner_panes@ == spec_inner_panes(mode),
{
    if mode == Mode::OnlyOutput {
        return ScreenPlan {
            outer: vec![SizeRule::Length(2), SizeRule::Fill(1)],
            outer_panes: vec![Pane::Title, Pane::Output],
            output_full: true,
            inner: Vec::new(),
            inner_panes: Vec::new(),
        };
    }
    let mut outer: Vec<SizeRule> = Vec::new();
    let mut outer_panes: Vec<Pane> = Vec::new();
    outer.push(SizeRule::Length(2));
    outer.push(SizeRule::Fill(1));
    outer_panes.push(Pane::Title);
    outer_panes.push(Pane::Top);
    if bt_len == 0 {
        outer.push(SizeRule::Length(SAVED_OUTPUT));
        outer_panes.push(Pane::Output);
    } else {
        let frames = (bt_len % 0x10000) as u16;
        outer.push(SizeRule::Length(frames + 1));
        outer.push(SizeRule::Length(SAVED_OUTPUT));
        outer.push(SizeRule::Length(3));
        outer_panes.push(Pane::Backtrace);
        outer_panes.push(Pane::Output);
    }
    let mut inner: Vec<SizeRule> = Vec::new();
    let mut inner_panes: Vec<Pane> = Vec::new();
    match mode {
        Mode::All => {
            inner.push(SizeRule::Min(10));
            inner.push(SizeRule::Length(11));
            inner.push(SizeRule::Length(11));
            inner_panes.push(Pane::Registers);
            inner_panes.push(Pane::Stack);
            inner_panes.push(Pane::Instructions);
        },
        _ => {
            inner.push(SizeRule::Fill(1));
            let pane = match mode {
                Mode::OnlyRegister => Pane::Registers,
                Mode::OnlyStack => Pane::Stack,
                Mode::OnlyInstructions => Pane::Instructions,
                Mode::OnlyMapping => Pane::Mapping,
                _ => Pane::Hexdump,
            };
            inner_panes.push(pane);
        },
    }
    let p = ScreenPlan { outer, outer_panes, output_full: false, inner, inner_panes };
    assert(p.outer@ =~= spec_outer(mode, bt_len));
    assert(p.outer_panes@ =~= spec_outer_panes(mode, bt_len));
    assert(p.inner@ =~= spec_inner(mode));
    assert(p.inner_panes@ =~= spec_inner_panes(mode));
    p
}

/// Byte `k` of `v` in little-endian order, as an integer: the `k`-th digit of `v` in
/// base 256.
pub open spec fn le_byte(v: u64, k: int) -> int {
    (v as int / pow(256, k as nat)) % 256
}

proof fn lemma_le_bytes_index(v: nat, n: nat, k: int)
    requires
        0 <= k < n,
    ensures
        le_bytes(v, n)[k] == (v as int / pow(256, k as nat)) % 256,
    decreases n,
{
    if k > 0 {
        lemma_le_bytes_index(v / 256, (n - 1) as nat, k - 1);
        lemma_pow_positive(256, (k - 1) as nat);
        lemma_div_denominator(v as int, 256, pow(256, (k - 1) as nat));
        reveal(pow);
        assert(pow(256, k as nat) == 256 * pow(256, (k - 1) as nat));
        lemma_le_bytes_len(v / 256, (n - 1) as nat);
        assert(le_bytes(v, n) == seq![(v % 256) as u8] + le_bytes(v / 256, (n - 1) as nat));
        assert(le_bytes(v, n)[k] == le_bytes(v / 256, (n - 1) as nat)[k - 1]);
    } else {
        reveal(pow);
        assert(pow(256, 0) == 1);
    }
}

/// A value reads as text exactly when it is above 0xff and each of its eight
/// little-endian bytes is printable ASCII (0x21 to 0x7e, punctuation included) or ASCII
/// white space (space, tab, line feed, form feed, carriage return).
pub proof fn law_text_values(v: u64)
    ensures
        looks_like_text(v) <==> (v > 0xff && forall|k: int| 0 <= k < 8 ==> {
            let b = #[trigger] le_byte(v, k);
            (0x21 <= b && b <= 0x7e) || b == 0x20 || b == 0x09 || b == 0x0a || b == 0x0c || b == 0x0d
        }),
{
    lemma_le_bytes_len(v as nat, 8);
    let b = le_bytes(v as nat, 8);
    assert forall|k: int| 0 <= k < 8 implies b[k] == #[trigger] le_byte(v, k) by {
        lemma_le_bytes_index(v as nat, 8, k);
    }
    if looks_like_text(v) {
        assert forall|k: int| 0 <= k < 8 implies {
            let x = #[trigger] le_byte(v, k);
            (0x21 <= x && x <= 0x7e) || x == 0x20 || x == 0x09 || x == 0x0a || x == 0x0c || x == 0x0d
        } by {
            assert(is_graphic(b[k]) || is_whitespace(b[k]));
        }
    }
    if v > 0xff && forall|k: int| 0 <= k < 8 ==> {
        let x = #[trigger] le_byte(v, k);
        (0x21 <= x && x <= 0x7e) || x == 0x20 || x == 0x09 || x == 0x0a || x == 0x0c || x == 0x0d
    } {
        assert forall|k: int| 0 <= k < 8 implies is_graphic(#[trigger] b[k]) || is_whitespace(b[k]) by {
            assert(b[k] == le_byte(v, k));
        }
    }
}

/// The top area of the screen: in the full layout registers, stack and instructions;
/// in each single-pane mode exactly the pane that mode names, filling the area; in the
/// output-only mode nothing.
pub proof fn law_top_area_panes()
    ensures
        spec_inner_panes(Mode::All) == seq![Pane::Registers, Pane::Stack, Pane::Instructions],
        spec_inner_panes(Mode::OnlyRegister) == seq![Pane::Registers],
        spec_inner_panes(Mode::OnlyStack) == seq![Pane::Stack],
        spec_inner_panes(Mode::OnlyInstructions) == seq![Pane::Instructions],
        spec_inner_panes(Mode::OnlyMapping) == seq![Pane::Mapping],
        spec_inner_panes(Mode::OnlyHexdump) == seq![Pane::Hexdump],
        spec_inner_panes(Mode::OnlyOutput).len() == 0,
        forall|m: Mode| m != Mode::All && m != Mode::OnlyOutput ==> #[trigger] spec_inner(m) == seq![SizeRule::Fill(1)],
        forall|m: Mode| #[trigger] spec_inner(m).len() == spec_inner_panes(m).len(),
{
}

/// The split of the whole screen: the output-only mode shows a two-line title and the
/// output filling the rest; otherwise the title, the top area filling the rest and ten
/// saved output lines, with a backtrace area of one line more than its frames (counted
/// modulo 2^16) and a three-line footer when there are frames.
pub proof fn law_outer_layout(mode: Mode, bt_len: usize)
    requires
        bt_len as int % 0x10000 != 0xffff,
    ensures
        mode == Mode::OnlyOutput ==> spec_outer(mode, bt_len) == seq![SizeRule::Length(2), SizeRule::Fill(1)]
            && spec_outer_panes(mode, bt_len) == seq![Pane::Title, Pane::Output],
        mode != Mode::OnlyOutput && bt_len == 0 ==> spec_outer(mode, bt_len) == seq![
            SizeRule::Length(2),
            SizeRule::Fill(1),
            SizeRule::Length(10),
        ] && spec_outer_panes(mode, bt_len) == seq![Pane::Title, Pane::Top, Pane::Output],
        mode != Mode::OnlyOutput && bt_len != 0 ==> {
            &&& spec_outer(mode, bt_len).len() == 5
            &&& spec_outer(mode, bt_len)[0] == SizeRule::Length(2)
            &&& spec_outer(mode, bt_len)[1] == SizeRule::Fill(1)
            &&& spec_outer(mode, bt_len)[2] matches SizeRule::Length(n) && n as int == bt_len as int % 0x10000 + 1
            &&& spec_outer(mode, bt_len)[3] == SizeRule::Length(10)
            &&& spec_outer(mode, bt_len)[4] == SizeRule::Length(3)
            &&& spec_outer_panes(mode, bt_len) == seq![Pane::Title, Pane::Top, Pane::Backtrace, Pane::Output]
        },
{
}

} // verus!
