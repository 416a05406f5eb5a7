use gh_gl_sync::config::{ConfigError, Database};

#[test]
fn connection_string_lists_the_parameters() {
    let db = Database {
        host: "db.local".to_string(),
        username: "sync".to_string(),
        password: "pw".to_string(),
        db: "projects".to_string(),
    };
    assert_eq!(
        db.connection_string(),
        "host=db.local user=sync password=pw dbname=projects connect_timeout=10"
    );
}

#[test]
fn config_error_keeps_its_text() {
    let ConfigError(text) = ConfigError("missing file".to_string());
    assert_eq!(text, "missing file");
}
