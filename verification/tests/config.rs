//! The client configuration.
use auks::config::{client_config, parse_read, parse_str, ConfigError, Duration, Server};
use auks::grammar::parse_blocks;
use auks::ordmap::OrdMap;

const FIXTURE: &str = r#"
# Settings of the AUKS daemon and its clients.
common {
    PrimaryHost      = "auks" ;
    PrimaryAddress   = "" ;
    PrimaryPort      = 12345 ;
    PrimaryPrincipal = "auks/auks.example.com@EXAMPLE.COM" ;

    SecondaryHost      = "auks2" ;
    SecondaryAddress   = '' ;
    SecondaryPort      = "12345" ;
    SecondaryPrincipal = "host/auks2.myrealm.org@MYREALM.ORG" ;

    NAT     = no ;     # no translation
    Retries = 3 ;
    Timeout = 10 ;
    Delay   = 3 ;
}
api { LogFile = /tmp/auksapi.log; LogLevel = 0; HelperScript = "/usr/local/bin/renewer_script.sh"; }
auksd { PrimaryKeytab = "/etc/krb5.keytab"; Workers = 10; }
renewer { LogFile = "/var/log/auks/auksdrenewer.log"; Delay = 60; }
"#;

#[test]
fn parses_fixture() {
    let config = parse_str(FIXTURE).expect("fixture");
    assert_eq!(config.client.primary.host, "auks");
    assert_eq!(config.client.primary.address, "auks");
    assert_eq!(config.client.primary.port, "12345");
    assert_eq!(
        config.client.primary.principal,
        "auks/auks.example.com@EXAMPLE.COM"
    );
    assert_eq!(
        config.client.secondary,
        Some(Server {
            host: "auks2".into(),
            address: "auks2".into(),
            port: "12345".into(),
            principal: "host/auks2.myrealm.org@MYREALM.ORG".into(),
        })
    );
    assert_eq!(config.client.cross_realm, None);
    assert!(!config.client.nat);
    assert_eq!(config.client.retries, 3);
    assert_eq!(config.client.timeout, Duration::from_secs(10));
    assert_eq!(config.client.delay, Duration::from_secs(3));
    assert_eq!(
        config.client.helper_script.as_deref(),
        Some("/usr/local/bin/renewer_script.sh")
    );
    assert!(config.blocks.contains_key("auksd"));
    assert!(config.blocks.contains_key("renewer"));
    assert_eq!(config.clone(), config);
}

#[test]
fn applies_minimal_defaults() {
    let config = parse_str("common { PrimaryHost = node; }").expect("config");
    assert_eq!(config.client.primary.address, "node");
    assert_eq!(config.client.primary.port, "12345");
    assert_eq!(config.client.primary.principal, "");
    assert_eq!(config.client.secondary, None);
    assert_eq!(config.client.retries, 3);
    assert_eq!(config.client.timeout, Duration::from_secs(10));
    assert_eq!(config.client.delay, Duration::from_secs(10));
    assert!(!config.client.nat);
}

#[test]
fn rejects_garbage() {
    assert!(parse_str("not a config").is_err());
}

#[test]
fn an_empty_text_gives_the_defaults() {
    let config = parse_str(" # nothing here\n").expect("config");
    assert_eq!(config.client.primary.host, "localhost");
    assert_eq!(config.client.primary.address, "localhost");
    assert_eq!(config.client.cross_realm, None);
    assert_eq!(config.client.helper_script, None);
    assert!(config.blocks.entries().is_empty());
}

#[test]
fn settings_are_read() {
    let text = "common { CrossRealm = OTHER.ORG; NAT = YeS; Retries = 0; Timeout = +7; \
                PrimaryAddress = 192.0.2.1; SecondaryHost = ''; }";
    let client = parse_str(text).expect("config").client;
    assert_eq!(client.cross_realm.as_deref(), Some("OTHER.ORG"));
    assert!(client.nat);
    assert_eq!(client.retries, 0);
    assert_eq!(client.timeout, Duration::from_secs(7));
    assert_eq!(client.primary.host, "localhost");
    assert_eq!(client.primary.address, "192.0.2.1");
    let secondary = client.secondary.expect("secondary");
    assert_eq!(secondary.host, "");
    assert_eq!(secondary.address, "");
    assert_eq!(secondary.port, "12345");
}

#[test]
fn numbers_must_be_numbers() {
    for (text, field, value) in [
        ("common { Retries = many; }", "Retries", "many"),
        ("common { Timeout = -1; Delay = x; }", "Timeout", "-1"),
        ("common { Delay = 4294967296; }", "Delay", "4294967296"),
    ] {
        assert_eq!(
            parse_str(text),
            Err(ConfigError::InvalidNumber {
                field,
                value: value.to_owned()
            })
        );
    }
    assert_eq!(
        parse_str("common { Delay = 4294967295; }")
            .expect("largest number")
            .client
            .delay,
        Duration::from_secs(4294967295)
    );
}

fn syntax(text: &str) -> (usize, String) {
    match parse_str(text) {
        Err(ConfigError::Syntax { offset, message }) => (offset, message),
        other => panic!("expected a syntax error, got {other:?}"),
    }
}

#[test]
fn each_syntax_error_has_its_place_and_its_words() {
    assert_eq!(syntax("not a config"), (4, "expected '{'".to_owned()));
    assert_eq!(syntax("{"), (0, "expected identifier".to_owned()));
    assert_eq!(syntax("a { b c; }"), (6, "expected '='".to_owned()));
    assert_eq!(syntax("a { b = ; }"), (8, "expected value".to_owned()));
    assert_eq!(syntax("a { b = c }"), (10, "expected ';'".to_owned()));
    assert_eq!(syntax("a { b = \"c"), (10, "missing closing quote".to_owned()));
    assert_eq!(syntax("a { b = 'c\\"), (11, "unterminated escape".to_owned()));
    assert_eq!(syntax("a { b = c;"), (10, "expected identifier".to_owned()));
}

#[test]
fn quotes_escapes_and_repeats_are_handled() {
    let blocks = match parse_blocks("one { a = \"x \\\" y\"; a = 'last; wins'; }") {
        Ok(blocks) => blocks,
        Err(error) => panic!("{} at {}", error.message, error.offset),
    };
    let one = blocks.get("one").expect("block");
    assert_eq!(one.get("a").map(String::as_str), Some("last; wins"));

    let config = parse_str("b { k = \"caf\u{e9} \\\\\"; }\nb { other = v#w; }").expect("config");
    let b = config.blocks.get("b").expect("block");
    assert!(!b.contains_key("k"));
    assert_eq!(b.get("other").map(String::as_str), Some("v#w"));

    let config = parse_str("b { k = \"caf\u{e9} \\\\\"; }").expect("config");
    let b = config.blocks.get("b").expect("block");
    assert_eq!(b.get("k").map(String::as_str), Some("caf\u{e9} \\"));
}

#[test]
fn blocks_alone_decide_the_client_settings() {
    let mut common: OrdMap<String> = OrdMap::new();
    common.insert("PrimaryHost".to_owned(), "one".to_owned());
    let mut blocks: OrdMap<OrdMap<String>> = OrdMap::new();
    blocks.insert("common".to_owned(), common);
    blocks.insert("unrelated".to_owned(), OrdMap::new());
    let client = client_config(&blocks).expect("client");
    assert_eq!(client.primary.address, "one");
}

#[test]
fn maps_keep_their_keys_in_order() {
    let mut map: OrdMap<u8> = OrdMap::new();
    for (key, value) in [("b", 1), ("a", 2), ("ab", 3), ("\u{e9}", 4), ("Z", 5), ("b", 6)] {
        map.insert(key.to_owned(), value);
    }
    let keys: Vec<&str> = map.entries().iter().map(|entry| entry.0.as_str()).collect();
    assert_eq!(keys, ["Z", "a", "ab", "b", "\u{e9}"]);
    assert_eq!(map.get("b"), Some(&6));
    assert_eq!(map.get("c"), None);
    assert_eq!(map.clone(), map);
}

#[test]
fn written_values_are_read_back() {
    let config = parse_str("common{PrimaryHost=\"a\\\"b\\\\;{}#c\";}api{}").expect("config");
    assert_eq!(config.client.primary.host, "a\"b\\;{}#c");
    assert!(config.blocks.contains_key("api"));
}

#[test]
fn the_case_of_keys_does_not_matter() {
    let config = parse_str("common { primaryhost = node; }").expect("config");
    assert_eq!(config.client.primary.host, "node");
    assert_eq!(config.client.primary.address, "node");
    assert!(config.blocks.get("common").expect("block").contains_key("primaryhost"));
    assert!(!config.blocks.get("common").expect("block").contains_key("PrimaryHost"));

    let text = "common { PRIMARYADDRESS = a; primaryport = 1; PrimaryPRINCIPAL = p; \
                secondaryhost = s; SecondaryPort = 2; CROSSREALM = R; nat = YES; retries = 7; \
                TIMEOUT = 8; dElAy = 9; } api { helperscript = /bin/h; }";
    let client = parse_str(text).expect("config").client;
    assert_eq!(client.primary.address, "a");
    assert_eq!(client.primary.port, "1");
    assert_eq!(client.primary.principal, "p");
    let secondary = client.secondary.expect("secondary");
    assert_eq!(secondary.host, "s");
    assert_eq!(secondary.port, "2");
    assert_eq!(client.cross_realm.as_deref(), Some("R"));
    assert!(client.nat);
    assert_eq!(client.retries, 7);
    assert_eq!(client.timeout, Duration::from_secs(8));
    assert_eq!(client.delay, Duration::from_secs(9));
    assert_eq!(client.helper_script.as_deref(), Some("/bin/h"));
}

#[test]
fn the_exact_spelling_wins_and_then_the_first() {
    let text = "common { primaryhost = low; PrimaryHost = exact; PRIMARYHOST = high; }";
    assert_eq!(parse_str(text).expect("config").client.primary.host, "exact");
    let text = "common { primaryhost = low; PRIMARYHOST = high; }";
    assert_eq!(parse_str(text).expect("config").client.primary.host, "high");
    assert_eq!(
        parse_str("common { RETRIES = many; }"),
        Err(ConfigError::InvalidNumber {
            field: "Retries",
            value: "many".to_owned()
        })
    );
    let text = "Common { PrimaryHost = node; }";
    assert_eq!(
        parse_str(text).expect("config").client.primary.host,
        "localhost"
    );
}

#[test]
fn what_came_of_reading_a_file_is_parsed() {
    assert_eq!(
        parse_read(Err("No such file or directory (os error 2)".to_owned())),
        Err(ConfigError::Io(
            "No such file or directory (os error 2)".to_owned()
        ))
    );
    assert_eq!(parse_read(Ok(FIXTURE.to_owned())), parse_str(FIXTURE));
    assert!(matches!(
        parse_read(Ok("not a config".to_owned())),
        Err(ConfigError::Syntax { offset: 4, .. })
    ));
}
