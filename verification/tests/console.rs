use aruvi_emulator::shell;
use aruvi_emulator::shell::LineEdit;
use aruvi_emulator::shell::MemRequest;
use aruvi_emulator::uart;
use aruvi_emulator::vga;
use aruvi_emulator::vga::Writer;

#[test]
fn putc_and_puts_queue_expected_bytes() {
    let mut tx: Vec<u8> = Vec::new();
    uart::putc(&mut tx, b'A');
    uart::puts(&mut tx, "ok\n");
    assert_eq!(tx, b"Aok\r\n");
}

#[test]
fn puts_expands_every_newline() {
    let mut tx: Vec<u8> = Vec::new();
    uart::puts(&mut tx, "a\nb\nc");
    assert_eq!(tx, b"a\r\nb\r\nc");
}

#[test]
fn put_hex_prints_eight_digits() {
    let mut tx: Vec<u8> = Vec::new();
    uart::put_hex(&mut tx, 0xDEADBEEF);
    uart::put_hex(&mut tx, 0x1);
    assert_eq!(tx, b"DEADBEEF00000001");
}

#[test]
fn put_dec_prints_decimal() {
    let mut tx: Vec<u8> = Vec::new();
    uart::put_dec(&mut tx, 0);
    uart::putc(&mut tx, b' ');
    uart::put_dec(&mut tx, 4294967295);
    assert_eq!(tx, b"0 4294967295");
}

#[test]
fn put_i32_handles_negatives_and_min() {
    let mut tx: Vec<u8> = Vec::new();
    uart::put_i32(&mut tx, -42);
    uart::putc(&mut tx, b' ');
    uart::put_i32(&mut tx, i32::MIN);
    uart::putc(&mut tx, b' ');
    uart::put_i32(&mut tx, 7);
    assert_eq!(tx, b"-42 -2147483648 7");
}

#[test]
fn parse_i32_accepts_signed_decimal() {
    assert_eq!(shell::parse_i32("123"), Some(123));
    assert_eq!(shell::parse_i32("-123"), Some(-123));
    assert_eq!(shell::parse_i32("2147483647"), Some(i32::MAX));
    assert_eq!(shell::parse_i32("2147483648"), None);
    assert_eq!(shell::parse_i32("-2147483648"), None);
    assert_eq!(shell::parse_i32(""), None);
    assert_eq!(shell::parse_i32("-"), None);
    assert_eq!(shell::parse_i32("12a"), None);
}

#[test]
fn parse_hex_accepts_prefixed_and_bare_words() {
    assert_eq!(shell::parse_hex("0x10"), Some(16));
    assert_eq!(shell::parse_hex("0XFF"), Some(255));
    assert_eq!(shell::parse_hex("dead"), Some(0xDEAD));
    assert_eq!(shell::parse_hex("FFFFFFFF"), Some(u32::MAX));
    assert_eq!(shell::parse_hex("123456789"), None);
    assert_eq!(shell::parse_hex("0x"), None);
    assert_eq!(shell::parse_hex("xyz"), None);
}

#[test]
fn echo_joins_arguments() {
    let reply = shell::handle_command("echo hello   world");
    assert_eq!(reply.output, b"hello world\r\n");
    assert_eq!(reply.request, None);
}

#[test]
fn sum_adds_and_reports() {
    let reply = shell::handle_command("sum 20 22");
    assert_eq!(reply.output, b"= 42\r\n");
    let reply = shell::handle_command("run sum 5 -8");
    assert_eq!(reply.output, b"= -3\r\n");
    let reply = shell::handle_command("sum 1");
    assert_eq!(reply.output, b"usage: sum <a> <b>\r\n");
    let reply = shell::handle_command("sum one two");
    assert_eq!(reply.output, b"error: expected integer arguments\r\n");
}

#[test]
fn unknown_commands_are_reported() {
    let reply = shell::handle_command("frobnicate");
    assert_eq!(reply.output, b"unknown command: frobnicate\r\n");
    let reply = shell::handle_command("run nothing");
    assert_eq!(reply.output, b"utility not found: nothing\r\n");
}

#[test]
fn blank_lines_produce_nothing() {
    let reply = shell::handle_command("   \t  ");
    assert!(reply.output.is_empty());
    assert_eq!(reply.request, None);
}

#[test]
fn mem_asks_for_a_read() {
    let reply = shell::handle_command("mem 0x2000");
    assert!(reply.output.is_empty());
    assert_eq!(reply.request, Some(MemRequest::Read(0x2000)));
    let reply = shell::handle_command("mem zz");
    assert_eq!(reply.output, b"error: invalid hex address\r\n");
    assert_eq!(reply.request, None);
}

#[test]
fn memw_asks_for_a_write_and_reports_it() {
    let reply = shell::handle_command("memw 0x40 0xAB");
    assert_eq!(reply.request, Some(MemRequest::Write(0x40, 0xAB)));
    assert_eq!(reply.output, b"wrote 0x000000AB to 0x00000040\r\n");
}

#[test]
fn mem_read_report_formats_both_words() {
    let mut tx: Vec<u8> = Vec::new();
    shell::report_mem_read(&mut tx, 0x2000, 0x1234);
    assert_eq!(tx, b"0x00002000 = 0x00001234\r\n");
}

#[test]
fn clear_emits_the_ansi_sequence() {
    let reply = shell::handle_command("clear");
    assert_eq!(reply.output, b"\x1b[2J\x1b[H");
}

#[test]
fn help_lists_every_utility() {
    let reply = shell::handle_command("help");
    let text = String::from_utf8(reply.output).unwrap();
    for name in ["echo", "sum", "about", "mem <addr>", "memw <addr> <val>"] {
        assert!(text.contains(name), "missing {name}");
    }
}

#[test]
fn line_editor_rules() {
    assert_eq!(shell::read_line_step(0, 128, b'\r'), LineEdit::Submit);
    assert_eq!(shell::read_line_step(5, 128, b'\n'), LineEdit::Submit);
    assert_eq!(shell::read_line_step(0, 128, 0x08), LineEdit::Ignore);
    assert_eq!(shell::read_line_step(3, 128, 0x7F), LineEdit::Erase);
    assert_eq!(shell::read_line_step(3, 128, b'x'), LineEdit::Append(b'x'));
    assert_eq!(shell::read_line_step(127, 128, b'x'), LineEdit::Ignore);
    assert_eq!(shell::read_line_step(0, 128, 0x01), LineEdit::Ignore);
}

#[test]
fn banner_and_print_i32_emit_plain_bytes() {
    let mut tx: Vec<u8> = Vec::new();
    shell::banner(&mut tx);
    assert_eq!(tx, b"AruviX HobbyOS (Rust)\nType 'help' for commands.\n\n");
    tx.clear();
    shell::print_i32(&mut tx, -250);
    shell::print_i32(&mut tx, 0);
    assert_eq!(tx, b"-2500");
}

#[test]
fn screen_writer_places_characters_on_the_bottom_row() {
    let mut w = Writer::new();
    vga::print(&mut w, "hi");
    assert_eq!(w.column(), 2);
    assert_eq!(w.cell(24, 0).ascii_character, b'h');
    assert_eq!(w.cell(24, 1).ascii_character, b'i');
    assert_eq!(w.cell(24, 2).ascii_character, b' ');
}

#[test]
fn screen_writer_scrolls_on_newline() {
    let mut w = Writer::new();
    vga::print_line(&mut w, "first");
    vga::print(&mut w, "second");
    assert_eq!(w.cell(23, 0).ascii_character, b'f');
    assert_eq!(w.cell(24, 0).ascii_character, b's');
    assert_eq!(w.column(), 6);
}

#[test]
fn screen_writer_wraps_a_full_row() {
    let mut w = Writer::new();
    let long = "x".repeat(85);
    vga::print(&mut w, &long);
    assert_eq!(w.column(), 5);
    assert_eq!(w.cell(23, 79).ascii_character, b'x');
    assert_eq!(w.cell(24, 4).ascii_character, b'x');
    assert_eq!(w.cell(24, 5).ascii_character, b' ');
}

#[test]
fn screen_writer_shows_blocks_for_unprintable_bytes() {
    let mut w = Writer::new();
    vga::print(&mut w, "\t");
    assert_eq!(w.cell(24, 0).ascii_character, 0xFE);
}

#[test]
fn clear_screen_blanks_everything() {
    let mut w = Writer::new();
    vga::print_line(&mut w, "junk");
    vga::clear_screen(&mut w);
    assert_eq!(w.column(), 0);
    for r in [0usize, 12, 23, 24] {
        for c in [0usize, 40, 79] {
            assert_eq!(w.cell(r, c).ascii_character, b' ');
        }
    }
}
