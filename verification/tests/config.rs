use suricata_sql_output::config::{
    buffer_variable, default_url, parse_size, url_variable, Config, DEFAULT_BUFFER_SIZE,
};
use suricata_sql_output::plugin::{registration_failed, Plugin};

#[test]
fn defaults() {
    let config = Config::new(Plugin::Eve, None, None);
    assert_eq!(config.database_url, "sqlite://./output_suricata/eve.db?mode=rwc");
    assert_eq!(config.buffer, 1000);
    assert_eq!(default_url(Plugin::Filedata), "sqlite://./output_suricata/filedata.db?mode=rwc");
    assert_eq!(default_url(Plugin::Rawdata), "sqlite://./output_suricata/rawdata.db?mode=rwc");
}

#[test]
fn variables() {
    assert_eq!(url_variable(Plugin::Eve), "EVE_DATABASE_URL");
    assert_eq!(url_variable(Plugin::Filedata), "FILEDATA_DATABASE_URL");
    assert_eq!(url_variable(Plugin::Rawdata), "RAWDATA_DATABASE_URL");
    assert_eq!(buffer_variable(Plugin::Eve), "EVE_BUFFER");
    assert_eq!(buffer_variable(Plugin::Filedata), "FILEDATA_BUFFER");
    assert_eq!(buffer_variable(Plugin::Rawdata), "RAWDATA_BUFFER");
}

#[test]
fn given_values() {
    let config = Config::new(
        Plugin::Rawdata,
        Some("postgres://host/db".to_string()),
        Some("25".to_string()),
    );
    assert_eq!(config.database_url, "postgres://host/db");
    assert_eq!(config.buffer, 25);
    let config = Config::new(Plugin::Rawdata, Some(String::new()), Some("many".to_string()));
    assert_eq!(config.database_url, "");
    assert_eq!(config.buffer, DEFAULT_BUFFER_SIZE);
}

#[test]
fn sizes() {
    let texts = [
        "0", "1", "1000", "+7", "007", "00000000000000000000000000000042", "18446744073709551615",
        "18446744073709551616", "99999999999999999999", "184467440737095516150", "", "+", "++1", "-1", "-0",
        " 1", "1 ", "1_000", "0x10", "1.5", "\u{661}", "1\u{e9}", "a",
    ];
    for text in texts {
        assert_eq!(parse_size(text), text.parse().ok());
    }
    assert_eq!(parse_size("+0012"), Some(12));
    assert_eq!(parse_size(&DEFAULT_BUFFER_SIZE.to_string()), Some(DEFAULT_BUFFER_SIZE));
}

#[test]
fn refused_registration() {
    assert!(registration_failed(-1));
    for status in [0, 1, -2, i32::MIN, i32::MAX] {
        assert!(!registration_failed(status));
    }
}
