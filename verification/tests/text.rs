use ipn::args::{startup_of, version_line, Startup};
use ipn::clock::{epoch_ms, now_ms};
use ipn::text::{
    chars_of, decimal_text, fmt_last_seen, join, last_seen_text, parse_i32, same_text, short_id,
    starts_with, trim,
};
use ipn::window::{load_window_size, save_window_size};

#[test]
fn trimming_takes_white_space_off_both_ends() {
    assert_eq!(trim("  a b \t\n"), "a b");
    assert_eq!(trim("\u{a0}\u{2003}x\u{3000}\u{2028}"), "x");
    assert_eq!(trim(" \r\n "), "");
    assert_eq!(trim(""), "");
    assert_eq!(trim(&trim(" a b ")), trim(" a b "));
    assert_eq!(trim("\u{200b}x"), "\u{200b}x");
    // Every character is white space here exactly if it is for the standard
    // library.
    for n in 0u32..=0x10ffff {
        if let Some(c) = char::from_u32(n) {
            if n < 0x3100 || n % 97 == 0 {
                let s = c.to_string();
                assert_eq!(trim(&s), s.trim());
            }
        }
    }
}

#[test]
fn comparing_texts() {
    assert!(same_text("ipn", "ipn"));
    assert!(!same_text("ipn", "ip"));
    assert!(starts_with("ipn1abc", "ipn1"));
    assert!(starts_with("ipn1", "ipn1"));
    assert!(!starts_with("ipn", "ipn1"));
    assert!(!starts_with("xipn1", "ipn1"));
    assert!(starts_with("anything", ""));
    assert_eq!(chars_of("a\u{e9}\u{1f600}"), vec!['a', '\u{e9}', '\u{1f600}']);
}

#[test]
fn decimals_are_those_of_the_standard_library() {
    for n in [0u64, 7, 9, 10, 99, 100, 1234567890, u64::MAX] {
        assert_eq!(decimal_text(n), n.to_string());
    }
    for n in [0i32, 9, 10, 4096, i32::MAX] {
        assert_eq!(parse_i32(&decimal_text(n as u64)), Some(n));
    }
}

#[test]
fn parsing_agrees_with_the_standard_library() {
    for s in [
        "0", "-0", "+0", "7", "+7", "-7", "007", "2147483647", "2147483648", "-2147483648",
        "-2147483649", "99999999999999999999999", "", "+", "-", "+-1", "1 ", " 1", "1x", "x", "--1",
        "\u{664}", "4294967296", "4294967297",
    ] {
        assert_eq!(parse_i32(s), s.parse::<i32>().ok(), "{s}");
    }
}

#[test]
fn short_ids_have_ten_characters() {
    assert_eq!(short_id("0123456789abcdef"), "0123456789");
    assert_eq!(short_id("0123456789"), "0123456789");
    assert_eq!(short_id("0123"), "0123");
    assert_eq!(short_id("\u{e9}\u{e9}\u{e9}\u{e9}\u{e9}\u{e9}\u{e9}\u{e9}\u{e9}\u{e9}\u{e9}").chars().count(), 10);
}

#[test]
fn joining_puts_separators_between() {
    let parts: Vec<String> = ["a", "b", "c"].iter().map(|s| s.to_string()).collect();
    assert_eq!(join(&parts, "  "), "a  b  c");
    assert_eq!(join(&parts[..1].to_vec(), "  "), "a");
    assert_eq!(join(&vec![], "  "), "");
}

#[test]
fn last_seen_in_words() {
    let now = 1_000_000_000;
    assert_eq!(last_seen_text(0, now), "never");
    assert_eq!(last_seen_text(now, now), "0s ago");
    assert_eq!(last_seen_text(now + 5000, now), "0s ago");
    assert_eq!(last_seen_text(now - 59_999, now), "59s ago");
    assert_eq!(last_seen_text(now - 60_000, now), "1m ago");
    assert_eq!(last_seen_text(now - 3_599_999, now), "59m ago");
    assert_eq!(last_seen_text(now - 3_600_000, now), "1h ago");
    assert_eq!(last_seen_text(now - 90_000_000, now), "25h ago");
    assert_eq!(fmt_last_seen(0), "never");
    assert_eq!(fmt_last_seen(u64::MAX), "0s ago");
}

#[test]
fn clock_readings() {
    assert_eq!(epoch_ms(None), 0);
    assert_eq!(epoch_ms(Some(5)), 5);
    assert_eq!(epoch_ms(Some((1u128 << 64) + 3)), 3);
    let t = now_ms();
    assert!(t > 1_600_000_000_000);
    assert!(now_ms() >= t);
}

#[test]
fn window_sizes_are_read() {
    assert_eq!(load_window_size(Some("800x600")), (800, 600));
    assert_eq!(load_window_size(Some("  800x600\n")), (800, 600));
    assert_eq!(load_window_size(Some("360x360")), (360, 360));
    for bad in ["", "800", "800x", "x600", "359x600", "800x359", "800 x600", "800x600x2", "-800x600"] {
        assert_eq!(load_window_size(Some(bad)), (560, 640), "{bad}");
    }
    assert_eq!(load_window_size(None), (560, 640));
}

#[test]
fn window_sizes_come_back() {
    for (w, h) in [(360, 360), (560, 640), (1920, 1080), (i32::MAX, 361)] {
        let line = save_window_size(w, h).unwrap();
        assert_eq!(line, format!("{w}x{h}"));
        assert_eq!(load_window_size(Some(&line)), (w, h));
    }
    assert_eq!(save_window_size(359, 640), None);
    assert_eq!(save_window_size(560, 0), None);
    assert_eq!(save_window_size(-5, 640), None);
}

#[test]
fn startup_options() {
    let args = |list: &[&str]| -> Vec<String> { list.iter().map(|s| s.to_string()).collect() };
    assert_eq!(startup_of(&args(&["ipn"]), false), Startup::Run { minimized: false });
    assert_eq!(startup_of(&args(&["ipn"]), true), Startup::Run { minimized: true });
    assert_eq!(startup_of(&args(&["ipn", "--minimized"]), false), Startup::Run { minimized: true });
    assert_eq!(startup_of(&args(&["ipn", "--minimized", "-V"]), false), Startup::Version);
    assert_eq!(startup_of(&args(&["ipn", "--version"]), true), Startup::Version);
    assert_eq!(startup_of(&args(&["ipn", "--Version"]), false), Startup::Run { minimized: false });
    assert_eq!(version_line("0.1.0"), "ipn 0.1.0");
}
