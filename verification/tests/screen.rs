use mcp_server_gdb::display::{
    add_resolve_symbol_to_span, apply_val_color, screen_plan, Cell, MemoryType, Mode, Palette, Pane, SizeRule,
};
use mcp_server_gdb::hexdump::{color, hexdump_title, scroll_after_draw, to_hexdump_lines, RegisterValue};

#[test]
fn byte_colors() {
    assert_eq!(color(0), Palette::DarkGray);
    assert_eq!(color(b'A'), Palette::Blue);
    assert_eq!(color(b' '), Palette::Green);
    assert_eq!(color(b'\n'), Palette::Green);
    assert_eq!(color(0x0b), Palette::Orange);
    assert_eq!(color(0x7f), Palette::Orange);
    assert_eq!(color(0x80), Palette::Yellow);
    assert_eq!(color(0xff), Palette::Yellow);
}

#[test]
fn hexdump_lines() {
    let data: Vec<u8> = (0u8..20).map(|i| if i == 1 { b'A' } else { i }).collect();
    let regs = vec![
        RegisterValue { name: "rax".to_string(), value: 0x1004 },
        RegisterValue { name: "rip".to_string(), value: 0x2000 },
        RegisterValue { name: "rsp".to_string(), value: 0x1012 },
    ];
    let lines = to_hexdump_lines(0x1000, &data, 0, 10, false, &regs);
    assert_eq!(lines.len(), 2);
    assert_eq!(lines[0].address, "00000000: ");
    assert_eq!(lines[1].address, "00000010: ");
    assert_eq!(lines[0].hex.len(), 16);
    assert_eq!(lines[1].hex.len(), 4);
    assert_eq!(lines[0].hex[1].text, "41 ");
    assert_eq!(lines[0].hex[1].color, Palette::Blue);
    assert_eq!(lines[0].hex[0].text, "00 ");
    assert_eq!(lines[0].ascii[1].text, "A");
    assert_eq!(lines[0].ascii[2].text, ".");
    assert_eq!(lines[0].refs, vec!["← $rax(0x1004) ".to_string()]);
    assert_eq!(lines[1].refs, vec!["← $rsp(0x1012) ".to_string()]);

    let skipped = to_hexdump_lines(0x1000, &data, 1, 10, true, &regs);
    assert_eq!(skipped.len(), 1);
    assert_eq!(skipped[0].address, "00000010: ");
    assert_eq!(skipped[0].refs, vec!["← $rsp(0x1012) ".to_string()]);
    assert_eq!(to_hexdump_lines(0x1000, &data, 2, 10, false, &regs).len(), 0);
    assert_eq!(to_hexdump_lines(0x1000, &data, 0, 1, false, &regs).len(), 1);
}

#[test]
fn hexdump_titles() {
    assert_eq!(
        hexdump_title(Some(0x7ffe)),
        "Hexdump(0x7ffe) (up(k), down(j), 50 up(K), 50 down(J), top(g), bottom(G)), Save(S), HEAP(H), STACK(T))"
    );
    assert_eq!(
        hexdump_title(Some(5)),
        "Hexdump(0x05) (up(k), down(j), 50 up(K), 50 down(J), top(g), bottom(G)), Save(S), HEAP(H), STACK(T))"
    );
    assert!(hexdump_title(None).starts_with("Hexdump (up(k)"));
}

#[test]
fn value_colors() {
    assert_eq!(apply_val_color(MemoryType::Stack), Some(Palette::Purple));
    assert_eq!(apply_val_color(MemoryType::Heap), Some(Palette::Green));
    assert_eq!(apply_val_color(MemoryType::Exec), Some(Palette::Red));
    assert_eq!(apply_val_color(MemoryType::Unknown), None);
}

#[test]
fn resolve_chain_of_values() {
    let mut spans: Vec<Cell> = vec![Cell { text: "rax".to_string(), color: None }];
    let mut longest = 2;
    add_resolve_symbol_to_span(
        &vec![0x7ffe_0000, 0x10],
        true,
        "ret",
        &vec![MemoryType::Stack, MemoryType::Unknown],
        &mut spans,
        &mut longest,
        14,
    );
    let texts: Vec<&str> = spans.iter().map(|c| c.text.as_str()).collect();
    assert_eq!(texts, vec!["rax", "→ 0x7ffe0000    ", "→ 0x10          ", "→ [loop detected]", "→ ret           "]);
    assert_eq!(spans[1].color, Some(Palette::Purple));
    assert_eq!(spans[2].color, None);
    assert_eq!(spans[3].color, Some(Palette::Gray));
    assert_eq!(spans[4].color, Some(Palette::Orange));
    assert_eq!(longest, 5);
}

#[test]
fn resolve_chain_reading_as_text() {
    let hello = u64::from_le_bytes(*b"Hello wo");
    let tail = u64::from_le_bytes(*b"rld!\0\0\0\0");
    let mut spans: Vec<Cell> = Vec::new();
    let mut longest = 0;
    add_resolve_symbol_to_span(
        &vec![0x1000, hello, tail],
        true,
        "nop",
        &vec![MemoryType::Exec, MemoryType::Unknown, MemoryType::Unknown],
        &mut spans,
        &mut longest,
        0,
    );
    assert_eq!(spans.len(), 2);
    assert_eq!(spans[0].text, "→ 0x1000");
    assert_eq!(spans[0].color, Some(Palette::Red));
    assert_eq!(spans[1].text, "→ \"Hello world!\0\0\0\0\"");
    assert_eq!(spans[1].color, Some(Palette::Yellow));
    assert_eq!(longest, 0);
}

#[test]
fn invalid_utf8_pieces_are_dropped() {
    let text = u64::from_le_bytes(*b"abcdefgh");
    let bad = u64::from_le_bytes([0xff, 0xfe, 0, 0, 0, 0, 0, 0]);
    let mut spans: Vec<Cell> = Vec::new();
    let mut longest = 0;
    add_resolve_symbol_to_span(&vec![text, bad], false, "", &vec![MemoryType::Unknown; 2], &mut spans, &mut longest, 0);
    assert_eq!(spans[0].text, "→ \"abcdefgh\"");
}

#[test]
fn screen_layouts() {
    let p = screen_plan(Mode::OnlyOutput, 3);
    assert_eq!(p.outer, vec![SizeRule::Length(2), SizeRule::Fill(1)]);
    assert_eq!(p.outer_panes, vec![Pane::Title, Pane::Output]);
    assert!(p.output_full);
    assert!(p.inner.is_empty());

    let p = screen_plan(Mode::All, 0);
    assert_eq!(p.outer, vec![SizeRule::Length(2), SizeRule::Fill(1), SizeRule::Length(10)]);
    assert_eq!(p.outer_panes, vec![Pane::Title, Pane::Top, Pane::Output]);
    assert_eq!(p.inner, vec![SizeRule::Min(10), SizeRule::Length(11), SizeRule::Length(11)]);
    assert_eq!(p.inner_panes, vec![Pane::Registers, Pane::Stack, Pane::Instructions]);

    let p = screen_plan(Mode::OnlyHexdump, 4);
    assert_eq!(
        p.outer,
        vec![SizeRule::Length(2), SizeRule::Fill(1), SizeRule::Length(5), SizeRule::Length(10), SizeRule::Length(3)]
    );
    assert_eq!(p.outer_panes, vec![Pane::Title, Pane::Top, Pane::Backtrace, Pane::Output]);
    assert_eq!(p.inner, vec![SizeRule::Fill(1)]);
    assert_eq!(p.inner_panes, vec![Pane::Hexdump]);
    assert!(!p.output_full);
}

#[test]
fn hexdump_scroll_counts_whole_lines() {
    assert_eq!(scroll_after_draw(0), 0);
    assert_eq!(scroll_after_draw(15), 0);
    assert_eq!(scroll_after_draw(16), 1);
    assert_eq!(scroll_after_draw(40), 2);
    assert_eq!(scroll_after_draw(48), 3);
}
