use kalopsia_os::scheduler::task::shell::parse_command;
use kalopsia_os::scheduler::task::shell::print_prompt;
use kalopsia_os::scheduler::task::shell::subtasks::interrupt_counter::{counter_text, is_quit_key};
use kalopsia_os::scheduler::task::shell::subtasks::memdump::{
    dump, dump_line, memdump_header, parse_hex_u64, parse_memdump_args, parse_usize,
};
use kalopsia_os::scheduler::task::shell::subtasks::sound::{beep, beep_setup};
use kalopsia_os::scheduler::task::shell::subtasks::{load, CommandRegistry};
use kalopsia_os::utils::text::{is_whitespace, str_eq, trim};
use kalopsia_os::utils::{Port, PortWrite};
use kalopsia_os::vga_buffer::writer::main_writer::VGAWriter;

#[test]
fn parse_command_splits_at_first_white_space() {
    assert_eq!(parse_command("echo hello world"), ("echo", "hello world"));
    assert_eq!(parse_command("  echo   hello  "), ("echo", "hello"));
    assert_eq!(parse_command("ls"), ("ls", ""));
    assert_eq!(parse_command("   "), ("", ""));
    assert_eq!(parse_command(""), ("", ""));
    assert_eq!(parse_command("memdump\t0xb8000 16"), ("memdump", "0xb8000 16"));
    // any Unicode white space separates
    assert_eq!(parse_command("a\u{3000}b"), ("a", "b"));
}

#[test]
fn white_space_and_trim() {
    for c in [' ', '\t', '\n', '\r', '\u{b}', '\u{c}', '\u{85}', '\u{a0}', '\u{2003}', '\u{3000}'] {
        assert!(is_whitespace(c));
        assert_eq!(c.is_whitespace(), is_whitespace(c));
    }
    for c in ['a', '0', '\u{200b}', '_'] {
        assert!(!is_whitespace(c));
        assert_eq!(c.is_whitespace(), is_whitespace(c));
    }
    assert_eq!(trim(" \u{a0}x y\n"), "x y");
    assert!(str_eq("on", "on"));
    assert!(!str_eq("on", "off"));
    assert!(!str_eq("o", "on"));
}

#[test]
fn parse_hex_values() {
    assert_eq!(parse_hex_u64("0xb8000"), Some(0xb8000));
    assert_eq!(parse_hex_u64("b8000"), Some(0xb8000));
    assert_eq!(parse_hex_u64("0xDEADbeef"), Some(0xdead_beef));
    assert_eq!(parse_hex_u64("ffffffffffffffff"), Some(u64::MAX));
    // an empty string of digits is zero
    assert_eq!(parse_hex_u64(""), Some(0));
    assert_eq!(parse_hex_u64("0x"), Some(0));
}

#[test]
fn parse_hex_rejects() {
    assert_eq!(parse_hex_u64("0x1g"), None);
    assert_eq!(parse_hex_u64("0X10"), None);
    assert_eq!(parse_hex_u64(" 10"), None);
    assert_eq!(parse_hex_u64("1_0"), None);
    // seventeen digits do not fit in 64 bits
    assert_eq!(parse_hex_u64("10000000000000000"), None);
    assert_eq!(parse_hex_u64("0xé"), None);
}

#[test]
fn parse_usize_as_std_does() {
    for s in ["0", "64", "+16", "007", "18446744073709551615", "", "+", "-1", "1 ", "1a", "18446744073709551616"] {
        assert_eq!(parse_usize(s), s.parse::<usize>().ok(), "{s:?}");
    }
}

#[test]
fn memdump_arguments() {
    assert_eq!(parse_memdump_args("0xb8000 16"), Some((0xb8000, 16)));
    assert_eq!(parse_memdump_args("0xb8000"), Some((0xb8000, 64)));
    assert_eq!(parse_memdump_args("  0xb8000   32  "), Some((0xb8000, 32)));
    // a length that does not parse is the default
    assert_eq!(parse_memdump_args("0x10 many"), Some((0x10, 64)));
    assert_eq!(parse_memdump_args(""), None);
    assert_eq!(parse_memdump_args("zz 16"), None);
    // a lone address is taken as given, untrimmed
    assert_eq!(parse_memdump_args(" 0x10"), None);
}

#[test]
fn memdump_lines() {
    let line = dump_line(0xb8000, b"Hi\x00");
    let expected = format!("000b8000  48 69 00 {} | Hi.\n", "   ".repeat(13));
    assert_eq!(String::from_utf8(line).unwrap(), expected);
    let header = memdump_header(16, 0xb8000);
    assert_eq!(String::from_utf8(header).unwrap(), "Dumping 16 bytes at 0xb8000\n");
    let data: Vec<u8> = (0u8..20).collect();
    let text = String::from_utf8(dump(0x1_0000_0000, &data)).unwrap();
    let lines: Vec<&str> = text.lines().collect();
    assert_eq!(lines.len(), 2);
    assert_eq!(
        lines[0],
        "100000000  00 01 02 03 04 05 06 07 08 09 0a 0b 0c 0d 0e 0f  | ................"
    );
    assert!(lines[1].starts_with("100000010  10 11 12 13    "));
    assert!(dump(0, &[]).is_empty());
}

#[test]
fn registry_register_and_get() {
    let mut r: CommandRegistry<u32> = CommandRegistry::new();
    assert_eq!(r.get_command_handler("echo"), None);
    r.register("echo", 1);
    r.register("beep", 2);
    assert_eq!(r.get_command_handler("echo"), Some(&1));
    assert_eq!(r.get_command_handler("beep"), Some(&2));
    // registering a name again replaces its handler
    r.register("echo", 3);
    assert_eq!(r.get_command_handler("echo"), Some(&3));
    assert_eq!(r.get_command_handler("ech"), None);
}

#[test]
fn load_has_echo() {
    let r = load("the echo handler");
    assert_eq!(r.get_command_handler("echo"), Some(&"the echo handler"));
    assert_eq!(r.get_command_handler("memdump"), None);
}

#[test]
fn beep_port_writes() {
    let setup = beep_setup();
    assert_eq!(
        setup,
        vec![
            PortWrite { port: Port::new(0x43), value: 0xb6 },
            PortWrite { port: Port::new(0x42), value: 0xa9 },
            PortWrite { port: Port::new(0x42), value: 0x04 },
        ]
    );
    assert_eq!(beep("", 0x10), Some(PortWrite { port: Port::new(0x61), value: 0x13 }));
    assert_eq!(beep("on", 0x11), Some(PortWrite { port: Port::new(0x61), value: 0x13 }));
    // already on: nothing to write
    assert_eq!(beep("on", 0x13), None);
    assert_eq!(beep("off", 0x13), Some(PortWrite { port: Port::new(0x61), value: 0x10 }));
}

#[test]
fn interrupt_counter_line() {
    assert_eq!(String::from_utf8(counter_text(12, 3)).unwrap(), "Timer: 12    | Kbd: 3    ");
    assert_eq!(String::from_utf8(counter_text(1234567, 0)).unwrap(), "Timer: 1234567 | Kbd: 0    ");
    assert!(is_quit_key('q'));
    assert!(!is_quit_key('Q'));
}

#[test]
fn prompt_is_printed() {
    let mut w = VGAWriter::new();
    print_prompt(&mut w);
    let shown: Vec<u8> = (0..w.col()).map(|c| w.buffer().read_char(0, c).unwrap()).collect();
    assert_eq!(String::from_utf8(shown).unwrap(), "admin@kalopsia-os $ ");
}
