use ws_bridge::config::{
    address, init, parse_port, port_text, Config, ConfigError, Lookup, Setting,
    DEFAULT_BACKEND_PORT, DEFAULT_BIND_PORT,
};

fn value(s: &str) -> Lookup {
    Lookup::Value(s.to_string())
}

#[test]
fn defaults_apply_where_nothing_is_set() {
    let config = init(Lookup::Unset, Lookup::Unset, Lookup::Unset, Lookup::Unset).unwrap();
    assert_eq!(
        config,
        Config {
            bind_host: "localhost".to_string(),
            bind_port: 8003,
            backend_host: "localhost".to_string(),
            backend_port: 8002,
        }
    );
    assert_eq!(DEFAULT_BIND_PORT, 8003);
    assert_eq!(DEFAULT_BACKEND_PORT, 8002);
    assert_eq!(config.bind_addr(), "localhost:8003");
    assert_eq!(config.backend_addr(), "localhost:8002");
}

#[test]
fn values_that_are_set_are_used() {
    let config = init(value("0.0.0.0"), value("9000"), value("lobby.internal"), value("+17"))
        .unwrap();
    assert_eq!(config.bind_host, "0.0.0.0");
    assert_eq!(config.bind_port, 9000);
    assert_eq!(config.backend_host, "lobby.internal");
    assert_eq!(config.backend_port, 17);
    assert_eq!(config.bind_addr(), "0.0.0.0:9000");
    assert_eq!(config.backend_addr(), "lobby.internal:17");
}

#[test]
fn init_gives_the_same_settings_again() {
    let first = init(value("h"), Lookup::Unset, Lookup::Unset, value("1"));
    let second = init(value("h"), Lookup::Unset, Lookup::Unset, value("1"));
    assert_eq!(first, second);
}

#[test]
fn unusable_port_is_an_error() {
    assert_eq!(
        init(Lookup::Unset, value("http"), Lookup::Unset, Lookup::Unset),
        Err(ConfigError::Unparsable(Setting::BindPort))
    );
    assert_eq!(
        init(Lookup::Unset, Lookup::Unset, Lookup::Unset, value("65536")),
        Err(ConfigError::Unparsable(Setting::BackendPort))
    );
    assert_eq!(
        init(Lookup::Unset, Lookup::Unset, Lookup::Unset, value("")),
        Err(ConfigError::Unparsable(Setting::BackendPort))
    );
}

#[test]
fn value_that_is_not_unicode_is_an_error() {
    assert_eq!(
        init(Lookup::NotUnicode, Lookup::Unset, Lookup::Unset, Lookup::Unset),
        Err(ConfigError::NotUnicode(Setting::BindHost))
    );
    assert_eq!(
        init(Lookup::Unset, Lookup::NotUnicode, Lookup::Unset, Lookup::Unset),
        Err(ConfigError::NotUnicode(Setting::BindPort))
    );
    assert_eq!(
        init(Lookup::Unset, Lookup::Unset, Lookup::NotUnicode, Lookup::Unset),
        Err(ConfigError::NotUnicode(Setting::BackendHost))
    );
    assert_eq!(
        init(Lookup::Unset, Lookup::Unset, Lookup::Unset, Lookup::NotUnicode),
        Err(ConfigError::NotUnicode(Setting::BackendPort))
    );
}

#[test]
fn first_unusable_value_is_reported() {
    assert_eq!(
        init(Lookup::NotUnicode, value("x"), Lookup::NotUnicode, value("y")),
        Err(ConfigError::NotUnicode(Setting::BackendHost))
    );
    assert_eq!(
        init(Lookup::NotUnicode, value("x"), Lookup::Unset, value("y")),
        Err(ConfigError::Unparsable(Setting::BackendPort))
    );
    assert_eq!(
        init(Lookup::NotUnicode, value("x"), Lookup::Unset, Lookup::Unset),
        Err(ConfigError::NotUnicode(Setting::BindHost))
    );
    assert_eq!(
        init(Lookup::Unset, value("x"), Lookup::Unset, Lookup::Unset),
        Err(ConfigError::Unparsable(Setting::BindPort))
    );
}

#[test]
fn ports_are_read_in_decimal() {
    assert_eq!(parse_port("0"), Some(0));
    assert_eq!(parse_port("8002"), Some(8002));
    assert_eq!(parse_port("65535"), Some(65535));
    assert_eq!(parse_port("+65535"), Some(65535));
    assert_eq!(parse_port("+0"), Some(0));
    assert_eq!(parse_port("0080"), Some(80));
    assert_eq!(parse_port("000000000000000000000065535"), Some(65535));
}

#[test]
fn what_is_no_port_is_refused() {
    for text in [
        "", "+", "-", "-1", "++1", "+-1", "1+", "65536", "70000", "99999999999999999999",
        " 80", "80 ", "8 0", "0x50", "80a", "a80", "8.0", "1e3", "\u{ff18}\u{ff10}", "8\u{e9}",
        "\u{e9}", "+\u{e9}1", "1\n",
    ] {
        assert_eq!(parse_port(text), None, "{:?}", text);
    }
}

#[test]
fn ports_are_read_as_the_standard_library_reads_them() {
    let mut samples: Vec<String> = vec![
        "", "+", "-", "-0", "+0", "00", "65535", "65536", "+65536", "655350", "1 ", " 1", "１",
        "12a", "+12", "++12", "4294967296", "18446744073709551616",
    ]
    .into_iter()
    .map(String::from)
    .collect();
    for n in [0u32, 1, 9, 10, 99, 100, 8002, 8003, 65534, 65535, 65536, 100000] {
        samples.push(n.to_string());
        samples.push(format!("+{}", n));
        samples.push(format!("0{}", n));
    }
    for text in samples {
        assert_eq!(parse_port(&text), text.parse::<u16>().ok(), "{:?}", text);
    }
}

#[test]
fn ports_are_written_in_decimal() {
    assert_eq!(port_text(0), "0");
    assert_eq!(port_text(7), "7");
    assert_eq!(port_text(10), "10");
    assert_eq!(port_text(8003), "8003");
    assert_eq!(port_text(65535), "65535");
    for port in [0u16, 1, 9, 10, 11, 99, 100, 101, 999, 1000, 9999, 10000, 40404, 65535] {
        assert_eq!(port_text(port), port.to_string());
        assert_eq!(parse_port(&port_text(port)), Some(port));
    }
}

#[test]
fn address_joins_host_and_port() {
    assert_eq!(address("localhost", 8003), "localhost:8003");
    assert_eq!(address("", 0), ":0");
    assert_eq!(address("::1", 65535), "::1:65535");
    assert_eq!(address("h\u{f6}st", 1), format!("{}:{}", "h\u{f6}st", 1));
}
