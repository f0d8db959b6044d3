use orpipe::binding::Binding;
use orpipe::binding::ConfigError;
use orpipe::digits::parse_port;
use orpipe::digits::u16_to_string;
use orpipe::parse::format_binding;
use orpipe::parse::parse_binding;
use orpipe::parse::parse_bindings;

#[test]
fn parses_well_formed_binding() {
    let b = parse_binding("example.onion:80~127.0.0.1:8080").unwrap();
    assert_eq!(b.remote_host, "example.onion");
    assert_eq!(b.remote_port, 80);
    assert_eq!(b.local_host, "127.0.0.1");
    assert_eq!(b.local_port, 8080);
}

#[test]
fn parses_empty_hosts() {
    let b = parse_binding(":80~:8080").unwrap();
    assert_eq!(b.remote_host, "");
    assert_eq!(b.remote_port, 80);
    assert_eq!(b.local_host, "");
    assert_eq!(b.local_port, 8080);
}

#[test]
fn parses_port_bounds() {
    let b = parse_binding("a:0~b:65535").unwrap();
    assert_eq!(b.remote_port, 0);
    assert_eq!(b.local_port, 65535);
}

#[test]
fn rejects_missing_separator() {
    assert_eq!(
        parse_binding("example.onion:80").unwrap_err(),
        ConfigError::MissingSeparator
    );
}

#[test]
fn rejects_repeated_separator() {
    assert_eq!(
        parse_binding("a:1~b:2~c:3").unwrap_err(),
        ConfigError::MissingSeparator
    );
}

#[test]
fn rejects_missing_colon_remote() {
    assert_eq!(parse_binding("a~b:1").unwrap_err(), ConfigError::MissingColon);
}

#[test]
fn rejects_missing_colon_local() {
    assert_eq!(parse_binding("a:1~b").unwrap_err(), ConfigError::MissingColon);
}

#[test]
fn rejects_repeated_colon() {
    assert_eq!(
        parse_binding("a:1:2~b:3").unwrap_err(),
        ConfigError::MissingColon
    );
}

#[test]
fn rejects_non_numeric_port() {
    assert_eq!(
        parse_binding("a:x~b:1").unwrap_err(),
        ConfigError::InvalidPort
    );
}

#[test]
fn rejects_out_of_range_port() {
    assert_eq!(
        parse_binding("a:65536~b:1").unwrap_err(),
        ConfigError::InvalidPort
    );
    assert_eq!(
        parse_binding("a:1~b:99999").unwrap_err(),
        ConfigError::InvalidPort
    );
}

#[test]
fn rejects_empty_port() {
    assert_eq!(parse_binding("a:~b:1").unwrap_err(), ConfigError::InvalidPort);
    assert_eq!(parse_binding("a:1~b:").unwrap_err(), ConfigError::InvalidPort);
}

#[test]
fn reports_remote_half_before_local_half() {
    assert_eq!(
        parse_binding("a~b:99999").unwrap_err(),
        ConfigError::MissingColon
    );
}

#[test]
fn parse_port_accepts_digits_in_range() {
    assert_eq!(parse_port("0"), Some(0));
    assert_eq!(parse_port("80"), Some(80));
    assert_eq!(parse_port("65535"), Some(65535));
    assert_eq!(parse_port("007"), Some(7));
}

#[test]
fn parse_port_rejects_bad_text() {
    assert_eq!(parse_port(""), None);
    assert_eq!(parse_port("65536"), None);
    assert_eq!(parse_port("873923282"), None);
    assert_eq!(parse_port("1a"), None);
    assert_eq!(parse_port("+1"), None);
    assert_eq!(parse_port("-1"), None);
    assert_eq!(parse_port(" 1"), None);
}

#[test]
fn renders_ports_in_decimal() {
    assert_eq!(u16_to_string(0), "0");
    assert_eq!(u16_to_string(7), "7");
    assert_eq!(u16_to_string(80), "80");
    assert_eq!(u16_to_string(8080), "8080");
    assert_eq!(u16_to_string(65535), "65535");
}

#[test]
fn formats_binding_text() {
    let b = Binding {
        remote_host: String::from("example.onion"),
        remote_port: 80,
        local_host: String::from("127.0.0.1"),
        local_port: 8080,
    };
    assert_eq!(format_binding(&b), "example.onion:80~127.0.0.1:8080");
}

#[test]
fn format_then_parse_round_trip() {
    let b = Binding {
        remote_host: String::from("service.onion"),
        remote_port: 443,
        local_host: String::from("localhost"),
        local_port: 9000,
    };
    let text = format_binding(&b);
    let back = parse_binding(text.as_str()).unwrap();
    assert_eq!(back.remote_host, b.remote_host);
    assert_eq!(back.remote_port, b.remote_port);
    assert_eq!(back.local_host, b.local_host);
    assert_eq!(back.local_port, b.local_port);
}

#[test]
fn parses_binding_list_in_order() {
    let specs = vec![
        String::from("a:1~b:2"),
        String::from("c:3~d:4"),
        String::from("e:5~f:6"),
    ];
    let bs = parse_bindings(&specs).unwrap();
    assert_eq!(bs.len(), 3);
    assert_eq!(bs[0].remote_host, "a");
    assert_eq!(bs[0].local_port, 2);
    assert_eq!(bs[1].remote_host, "c");
    assert_eq!(bs[1].local_port, 4);
    assert_eq!(bs[2].remote_host, "e");
    assert_eq!(bs[2].local_port, 6);
}

#[test]
fn binding_list_fails_on_first_malformed_entry() {
    let specs = vec![
        String::from("a:1~b:2"),
        String::from("c:70000~d:4"),
        String::from("no-separator"),
    ];
    assert_eq!(parse_bindings(&specs).unwrap_err(), ConfigError::InvalidPort);
}

#[test]
fn empty_binding_list_is_accepted() {
    let specs: Vec<String> = vec![];
    assert_eq!(parse_bindings(&specs).unwrap().len(), 0);
}
