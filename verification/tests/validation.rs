use fail2banmonitoring::config::{Config, Violation};

fn config(driver: &str, host: &str, port: u32) -> Config {
    Config {
        driver: driver.to_string(),
        username: "monitor".to_string(),
        password: "secret".to_string(),
        host: host.to_string(),
        port,
        database: "bans".to_string(),
    }
}

#[test]
fn valid_configurations_pass() {
    let hosts = [
        "localhost",
        "127.0.0.1",
        "192.168.1.1",
        "255.255.255.255",
        "0.0.0.0",
        "::",
        "::1",
        "2001:db8::1",
        "fe80::",
        "1:2:3:4:5:6:7:8",
        "::ffff:192.0.2.1",
        "64:ff9b::192.0.2.33",
        "1:2:3:4:5:6:192.0.2.1",
    ];
    let drivers = ["sqlite", "mysql", "postgres"];
    for d in drivers {
        for h in hosts {
            for p in [1u32, 80, 65535] {
                let c = config(d, h, p);
                assert!(c.validate().is_ok(), "driver={} host={} port={}", d, h, p);
            }
        }
    }
}

#[test]
fn hex_groups_accept_either_case() {
    for h in ["2001:DB8::1", "FE80::1", "0:0:0:0:0:0:0:0", "abcd:ef01:2345:6789:abcd:ef01:2345:6789"] {
        let c = config("postgres", h, 5432);
        assert!(c.validate().is_ok(), "host={}", h);
    }
}

#[test]
fn octets_reject_leading_zeros() {
    for h in ["00.1.2.3", "1.2.3.04", "010.1.1.1"] {
        let c = config("sqlite", h, 5432);
        let v = c.validate().unwrap_err();
        assert_eq!(v, vec![Violation::InvalidHost], "host={}", h);
    }
}

#[test]
fn port_zero_is_reported() {
    let c = config("sqlite", "localhost", 0);
    let v = c.validate().unwrap_err();
    assert_eq!(v, vec![Violation::InvalidPort]);
}

#[test]
fn port_too_large_is_reported() {
    let c = config("sqlite", "localhost", 65536);
    let v = c.validate().unwrap_err();
    assert_eq!(v, vec![Violation::InvalidPort]);
    let c = config("sqlite", "localhost", 1_000_000);
    let v = c.validate().unwrap_err();
    assert_eq!(v, vec![Violation::InvalidPort]);
}

#[test]
fn unknown_driver_is_reported() {
    let c = config("oracle", "localhost", 5432);
    let v = c.validate().unwrap_err();
    assert_eq!(v, vec![Violation::InvalidDriver]);
    let c = config("", "localhost", 5432);
    let v = c.validate().unwrap_err();
    assert_eq!(v, vec![Violation::InvalidDriver]);
}

#[test]
fn bad_host_is_reported() {
    for h in [
        "",
        "example.com",
        "256.1.1.1",
        "1.2.3",
        "1.2.3.4.5",
        "01.2.3.4",
        "1..2.3",
        ":",
        ":::",
        "1::2::3",
        "12345::",
        "1:2:3:4:5:6:7:8:9",
        "1:2:3:4:5:6:7",
        "g::1",
        ":1:2:3:4:5:6:7",
        "1:2:3:4:5:6:7:",
        "1.2.3.4::5",
        "::ffff:192.0.2.1:1",
    ] {
        let c = config("sqlite", h, 5432);
        let v = c.validate().unwrap_err();
        assert_eq!(v, vec![Violation::InvalidHost], "host={}", h);
    }
}

#[test]
fn violations_come_in_field_order() {
    let c = config("oracle", "nowhere,invalid", 0);
    let v = c.validate().unwrap_err();
    assert_eq!(
        v,
        vec![
            Violation::InvalidDriver,
            Violation::InvalidHost,
            Violation::InvalidPort
        ]
    );
}

#[test]
fn new_configuration_is_empty() {
    let c = Config::new();
    assert_eq!(c.driver, "");
    assert_eq!(c.username, "");
    assert_eq!(c.password, "");
    assert_eq!(c.host, "");
    assert_eq!(c.port, 0);
    assert_eq!(c.database, "");
    assert!(c.validate().is_err());
}
