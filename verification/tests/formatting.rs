use commune::shared::{format_number, Ansi};

#[test]
fn thousands_separators() {
    assert_eq!(format_number(0), "0");
    assert_eq!(format_number(7), "7");
    assert_eq!(format_number(999), "999");
    assert_eq!(format_number(1000), "1,000");
    assert_eq!(format_number(12345), "12,345");
    assert_eq!(format_number(123456), "123,456");
    assert_eq!(format_number(1234567), "1,234,567");
    assert_eq!(format_number(100000000), "100,000,000");
}

#[test]
fn thousands_separators_keep_digits() {
    for n in [1usize, 10, 100, 1_000, 65_536, 4_294_967_295, usize::MAX] {
        let text = format_number(n);
        assert_eq!(text.replace(',', ""), n.to_string());
        let digits = n.to_string().len();
        assert_eq!(text.len(), digits + (digits - 1) / 3);
    }
}

#[test]
fn style_codes() {
    assert_eq!(Ansi::MoveTopLeft.as_text(), "\x1B[H");
    assert_eq!(Ansi::ClearLine.as_text(), "\x1B[K");
    assert_eq!(Ansi::Reset.as_text(), "\x1B[0m");
    assert_eq!(Ansi::Bold.as_text(), "\x1B[1m");
    assert_eq!(Ansi::BgBlue.as_text(), "\x1B[48;2;0;120;215m\x1B[38;2;255;255;255m");
    assert_eq!(Ansi::FgCyan.as_text(), "\x1B[38;2;0;220;255m");
    assert_eq!(Ansi::FgYellow.as_text(), "\x1B[38;2;255;215;0m");
    assert_eq!(Ansi::FgGray.as_text(), "\x1B[38;2;120;120;120m");
    assert_eq!(Ansi::BgGreen.as_text(), "\x1B[48;2;40;160;80m\x1B[38;2;0;0;0m");
    assert_eq!(Ansi::Text("plain").as_text(), "plain");
}
