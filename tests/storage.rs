use idola_block::config::DbConf;
use idola_block::db_error::Error;

#[test]
fn db_conf_sqlite() {
    match DbConf::from_fields(Some("sqlite".to_string()), Some("db.sqlite".to_string())) {
        Ok(DbConf::Sqlite { file }) => assert_eq!(file, "db.sqlite"),
        Err(e) => panic!("{}", e),
    }
}

#[test]
fn db_conf_missing_file() {
    let r = DbConf::from_fields(Some("sqlite".to_string()), None);
    assert_eq!(r.err().unwrap(), "sqlite DB type file path missing.");
}

#[test]
fn db_conf_unsupported_type() {
    let r = DbConf::from_fields(Some("postgres".to_string()), None);
    assert_eq!(r.err().unwrap(), "unsupported db type postgres");
}

#[test]
fn db_conf_missing_type() {
    let r = DbConf::from_fields(None, Some("x".to_string()));
    assert_eq!(r.err().unwrap(), "shipgate db type not specified");
}

#[test]
fn error_text() {
    let busy = format!("{:?}", "busy");
    let e = Error::BackendError("locked".to_string(), Some(busy.clone()));
    assert_eq!(e.description(), "locked");
    assert_eq!(e.cause(), Some("\"busy\""));
    assert_eq!(e.to_string(), "database error: locked\ncaused by: Some(\"busy\")");
    assert_eq!(e.to_string(), format!("database error: {}\ncaused by: {:?}", "locked", Some("busy")));
    let e = Error::Other("odd".to_string(), None);
    assert_eq!(e.cause(), None);
    assert_eq!(e.to_string(), "database error: odd\ncaused by: None");
    let io = std::io::Error::new(std::io::ErrorKind::Other, "disk");
    let e = Error::IoError(io.to_string(), format!("{:?}", io));
    assert_eq!(e.description(), "disk");
    assert_eq!(e.cause(), Some(format!("{:?}", io).as_str()));
    assert_eq!(e.to_string(), format!("database error: disk\ncaused by: {:?}", Some(&io)));
}
