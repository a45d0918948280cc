use orcis::artifact::FilePath;
use orcis::config::Config;
use std::collections::HashMap;
use std::path::PathBuf;

fn check(address: &str) -> Option<String> {
    let (host, port) = match address.rsplit_once(':') {
        Some(parts) => parts,
        None => return Some("invalid socket address syntax".to_owned()),
    };
    let octets = host.split('.').filter(|part| part.parse::<u8>().is_ok()).count();
    if octets == 4 && port.parse::<u16>().is_ok() {
        None
    } else {
        Some("invalid socket address syntax".to_owned())
    }
}

fn from_map(values: &HashMap<String, String>) -> Result<Config, String> {
    Config::from_map(values, check)
}

fn join(path: FilePath) -> PathBuf {
    PathBuf::from(path.directory).join(path.name)
}

#[test]
fn defaults_and_overrides() {
    let config = from_map(&HashMap::new()).expect("defaults are valid");
    assert_eq!(config.addr, "127.0.0.1:8080");
    assert_eq!(PathBuf::from(&config.data_path), PathBuf::from("."));
    assert_eq!(join(config.db_path()), PathBuf::from("./orcis.db"));
    assert_eq!(join(config.artifact_dir()), PathBuf::from("./artifacts"));
    assert_eq!(config.rust_log, "info");

    let values = HashMap::from([
        ("ORCIS_ADDR".to_owned(), "0.0.0.0:9000".to_owned()),
        ("ORCIS_DATA_PATH".to_owned(), "/tmp/orcis-data".to_owned()),
        ("ORCIS_TOKEN".to_owned(), "secret".to_owned()),
        ("RUST_LOG".to_owned(), "debug".to_owned()),
    ]);
    let config = from_map(&values).expect("overrides are valid");
    assert_eq!(config.addr, "0.0.0.0:9000");
    assert_eq!(
        PathBuf::from(&config.data_path),
        PathBuf::from("/tmp/orcis-data")
    );
    assert_eq!(join(config.db_path()), PathBuf::from("/tmp/orcis-data/orcis.db"));
    assert_eq!(
        join(config.artifact_dir()),
        PathBuf::from("/tmp/orcis-data/artifacts")
    );
    assert_eq!(config.token.as_deref(), Some("secret"));
    assert_eq!(config.rust_log, "debug");
}

#[test]
fn invalid_address_is_clear() {
    let values = HashMap::from([("ORCIS_ADDR".to_owned(), "not an address".to_owned())]);
    let error = from_map(&values).unwrap_err();
    assert!(error.contains("invalid ORCIS_ADDR"));
    assert_eq!(
        error,
        "invalid ORCIS_ADDR \"not an address\": invalid socket address syntax"
    );
}

#[test]
fn obsolete_database_path_is_rejected() {
    let values = HashMap::from([("ORCIS_DB_PATH".to_owned(), "/tmp/orcis.db".to_owned())]);
    let error = from_map(&values).unwrap_err();
    assert_eq!(
        error,
        "ORCIS_DB_PATH has been replaced by the directory setting ORCIS_DATA_PATH"
    );
}

#[test]
fn the_obsolete_path_is_told_before_anything_else_is_asked_for() {
    let error = Config::from_getter(
        |name| {
            assert_eq!(name, "ORCIS_DB_PATH");
            Some(String::new())
        },
        |_| unreachable!(),
    )
    .unwrap_err();
    assert!(error.starts_with("ORCIS_DB_PATH has been replaced"));
}

#[test]
fn the_rest_is_not_asked_for_after_a_wrong_address() {
    let error = Config::from_getter(
        |name| match name {
            "ORCIS_DB_PATH" => None,
            "ORCIS_ADDR" => Some("nowhere".to_owned()),
            _ => unreachable!(),
        },
        check,
    )
    .unwrap_err();
    assert!(error.starts_with("invalid ORCIS_ADDR \"nowhere\": "));
}

#[test]
fn the_wrong_address_is_quoted_with_escapes() {
    let values = HashMap::from([("ORCIS_ADDR".to_owned(), "a\"b\n".to_owned())]);
    let error = Config::from_getter(
        |name| values.get(name).cloned(),
        |_| Some("wrong".to_owned()),
    )
    .unwrap_err();
    assert_eq!(error, "invalid ORCIS_ADDR \"a\\\"b\\n\": wrong");
}
