use nginx_config::error::ErrorItem;
use nginx_config::grammar::Code;
use nginx_config::net::{IpAddress, SocketAddress};
use nginx_config::text::{
    chars_of, ends_with, parse_number, push_decimal, push_signed, same_text, starts_with,
    str_eq, string_of, NumError,
};

fn chars(s: &str) -> Vec<char> {
    s.chars().collect()
}

#[test]
fn decimal_numbers_are_written() {
    let mut s = String::from("x");
    push_decimal(&mut s, 0);
    push_decimal(&mut s, 7);
    push_decimal(&mut s, 10);
    push_decimal(&mut s, 18446744073709551615);
    assert_eq!(s, "x071018446744073709551615");
    let mut s = String::new();
    push_signed(&mut s, -1);
    push_signed(&mut s, 0);
    push_signed(&mut s, i64::MIN);
    push_signed(&mut s, 42);
    assert_eq!(s, "-10-922337203685477580842");
}

#[test]
fn decimal_numbers_are_read() {
    assert_eq!(parse_number(&chars("0"), 0, 255), Ok(0));
    assert_eq!(parse_number(&chars("255"), 0, 255), Ok(255));
    assert_eq!(parse_number(&chars("+7"), 0, 255), Ok(7));
    assert_eq!(parse_number(&chars("007"), 0, 255), Ok(7));
    assert_eq!(parse_number(&chars("-12"), -100, 100), Ok(-12));
    assert_eq!(parse_number(&chars("18446744073709551615"), 0, u64::MAX), Ok(18446744073709551615));
    assert_eq!(parse_number(&chars(""), 0, 255), Err(NumError::Empty));
    assert_eq!(parse_number(&chars("+"), 0, 255), Err(NumError::InvalidDigit));
    assert_eq!(parse_number(&chars("-"), -5, 255), Err(NumError::InvalidDigit));
    assert_eq!(parse_number(&chars("-1"), 0, 255), Err(NumError::InvalidDigit));
    assert_eq!(parse_number(&chars("1x"), 0, 255), Err(NumError::InvalidDigit));
    assert_eq!(parse_number(&chars("256"), 0, 255), Err(NumError::TooLarge));
    assert_eq!(parse_number(&chars("2560x"), 0, 255), Err(NumError::TooLarge));
    assert_eq!(parse_number(&chars("-101"), -100, 100), Err(NumError::TooSmall));
    assert_eq!(parse_number(&chars("18446744073709551616"), 0, u64::MAX), Err(NumError::TooLarge));
}

#[test]
fn response_codes() {
    assert_eq!(Code::parse("200"), Ok(Code::Normal(200)));
    assert_eq!(Code::parse("599"), Ok(Code::Normal(599)));
    assert_eq!(Code::parse("404").unwrap().as_code(), 404);
    for code in [301u32, 302, 303, 307, 308] {
        assert_eq!(Code::parse(&code.to_string()), Ok(Code::Redirect(code)));
        assert_eq!(Code::Redirect(code).as_code(), code);
    }
    assert_eq!(Code::parse("304"), Ok(Code::Normal(304)));
    assert_eq!(
        Code::parse("199"),
        Err(ErrorItem::Unexpected("invalid response code 199".to_string()))
    );
    assert_eq!(
        Code::parse("600"),
        Err(ErrorItem::Unexpected("invalid response code 600".to_string()))
    );
    assert_eq!(
        Code::parse("abc"),
        Err(ErrorItem::Message("invalid digit found in string".to_string()))
    );
    assert_eq!(
        Code::parse(""),
        Err(ErrorItem::Message("cannot parse integer from empty string".to_string()))
    );
    assert_eq!(
        Code::parse("4294967296"),
        Err(ErrorItem::Message("number too large to fit in target type".to_string()))
    );
}

#[test]
fn text_helpers() {
    assert_eq!(chars_of("héllo"), chars("héllo"));
    assert_eq!(string_of(&chars("héllo"), 1, 3), "él");
    assert!(str_eq("abc", "abc"));
    assert!(!str_eq("abc", "abd"));
    assert!(!str_eq("abc", "ab"));
    assert!(str_eq("", ""));
    assert!(starts_with(&chars("unix:/x"), "unix:"));
    assert!(!starts_with(&chars("uni"), "unix:"));
    assert!(starts_with(&chars("x"), ""));
    assert!(ends_with(&chars("mail.*"), ".*"));
    assert!(!ends_with(&chars("*"), ".*"));
    assert!(same_text(&chars("é"), "é"));
    assert!(!same_text(&chars("é"), "e"));
}

#[test]
fn addresses() {
    assert_eq!(IpAddress::parse(&chars("127.0.0.1")), Some(IpAddress::V4(127, 0, 0, 1)));
    assert_eq!(IpAddress::parse(&chars("255.255.255.255")), Some(IpAddress::V4(255, 255, 255, 255)));
    assert_eq!(IpAddress::parse(&chars("0.0.0.0")), Some(IpAddress::V4(0, 0, 0, 0)));
    assert_eq!(IpAddress::parse(&chars("256.0.0.1")), None);
    assert_eq!(IpAddress::parse(&chars("1.2.3")), None);
    assert_eq!(IpAddress::parse(&chars("1.2.3.4.5")), None);
    assert_eq!(IpAddress::parse(&chars("01.2.3.4")), None);
    assert_eq!(IpAddress::parse(&chars("1.2.3.4 ")), None);
    assert_eq!(IpAddress::parse(&chars("")), None);
    assert_eq!(
        SocketAddress::parse(&chars("10.1.2.3:8080")),
        Some(SocketAddress { ip: IpAddress::V4(10, 1, 2, 3), port: 8080 })
    );
    assert_eq!(
        SocketAddress::parse(&chars("10.1.2.3:080")),
        Some(SocketAddress { ip: IpAddress::V4(10, 1, 2, 3), port: 80 })
    );
    assert_eq!(SocketAddress::parse(&chars("10.1.2.3:65536")), None);
    assert_eq!(SocketAddress::parse(&chars("10.1.2.3:")), None);
    assert_eq!(SocketAddress::parse(&chars("10.1.2.3")), None);
    let mut s = String::new();
    SocketAddress { ip: IpAddress::V4(10, 0, 200, 3), port: 8080 }.write(&mut s);
    assert_eq!(s, "10.0.200.3:8080");
}

fn six(text: &str) -> Option<String> {
    IpAddress::parse(&chars(text)).map(|ip| {
        let mut s = String::new();
        ip.write(&mut s);
        s
    })
}

#[test]
fn addresses_of_version_six() {
    assert_eq!(IpAddress::parse(&chars("::")), Some(IpAddress::V6(0, 0, 0, 0, 0, 0, 0, 0)));
    assert_eq!(IpAddress::parse(&chars("::1")), Some(IpAddress::V6(0, 0, 0, 0, 0, 0, 0, 1)));
    assert_eq!(
        IpAddress::parse(&chars("2001:DB8::8:800:200C:417a")),
        Some(IpAddress::V6(0x2001, 0xdb8, 0, 0, 8, 0x800, 0x200c, 0x417a))
    );
    assert_eq!(
        IpAddress::parse(&chars("1:2:3:4:5:6:7:8")),
        Some(IpAddress::V6(1, 2, 3, 4, 5, 6, 7, 8))
    );
    assert_eq!(
        IpAddress::parse(&chars("::ffff:1.2.3.4")),
        Some(IpAddress::V6(0, 0, 0, 0, 0, 0xffff, 0x0102, 0x0304))
    );
    assert_eq!(
        IpAddress::parse(&chars("1:2:3:4:5:6:10.0.0.255")),
        Some(IpAddress::V6(1, 2, 3, 4, 5, 6, 0x0a00, 0x00ff))
    );
    assert_eq!(IpAddress::parse(&chars("1:0:0:2::")), Some(IpAddress::V6(1, 0, 0, 2, 0, 0, 0, 0)));
    assert_eq!(IpAddress::parse(&chars("0001::")), Some(IpAddress::V6(1, 0, 0, 0, 0, 0, 0, 0)));
    for bad in [
        "1::2::3", ":::", "12345::", "1:2:3:4:5:6:7", "1:2:3:4:5:6:7:8:9", "::1.2.3", "1.2.3.4::",
        "1:2:3:4:5:6:7::8", "::g", ":1", "1:", "[::1]", "::1 ",
    ] {
        assert_eq!(IpAddress::parse(&chars(bad)), None, "{}", bad);
    }
    assert_eq!(six("::"), Some("::".to_string()));
    assert_eq!(six("0:0:0:0:0:0:0:1"), Some("::1".to_string()));
    assert_eq!(six("2001:DB8:0:0:1:0:0:1"), Some("2001:db8::1:0:0:1".to_string()));
    assert_eq!(six("1:0:2:3:4:5:6:7"), Some("1:0:2:3:4:5:6:7".to_string()));
    assert_eq!(six("1:0:0:2:0:0:0:3"), Some("1:0:0:2::3".to_string()));
    assert_eq!(six("1:2:3:4:5:6:0:0"), Some("1:2:3:4:5:6::".to_string()));
    assert_eq!(six("0:0:0:0:0:ffff:102:304"), Some("::ffff:1.2.3.4".to_string()));
    assert_eq!(six("fe80::abcd:0:12"), Some("fe80::abcd:0:12".to_string()));
    assert_eq!(
        SocketAddress::parse(&chars("[::1]:8080")),
        Some(SocketAddress { ip: IpAddress::V6(0, 0, 0, 0, 0, 0, 0, 1), port: 8080 })
    );
    assert_eq!(SocketAddress::parse(&chars("[::1]")), None);
    assert_eq!(SocketAddress::parse(&chars("[::1]:")), None);
    assert_eq!(SocketAddress::parse(&chars("::1:80")), None);
    assert_eq!(SocketAddress::parse(&chars("[1.2.3.4]:80")), None);
    let mut s = String::new();
    SocketAddress { ip: IpAddress::V6(0x2001, 0xdb8, 0, 0, 0, 0, 0, 1), port: 443 }.write(&mut s);
    assert_eq!(s, "[2001:db8::1]:443");
}
