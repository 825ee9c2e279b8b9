use drainpipe::error::Error;

#[test]
fn each_error_shows_its_kind_and_cause() {
    let cause = || "boom".to_string();
    assert_eq!(Error::Io(cause()).message(), "I/O error: boom");
    assert_eq!(Error::FileWatch(cause()).message(), "File watcher error: boom");
    assert_eq!(Error::Yaml(cause()).message(), "YAML deserialization error: boom");
    assert_eq!(Error::Env(cause()).message(), "Env deserialization error: boom");
    assert_eq!(Error::Http(cause()).message(), "HTTP error: boom");
    assert_eq!(Error::Url(cause()).message(), "URL parse error: boom");
    assert_eq!(Error::Feed(cause()).message(), "Feed parse error: boom");
    assert_eq!(Error::Sqlite(cause()).message(), "Sqlite error: boom");
    assert_eq!(Error::Custom(cause()).message(), "boom");
}

#[test]
fn an_error_without_cause_shows_its_kind_alone() {
    assert_eq!(Error::Io(String::new()).message(), "I/O error: ");
    assert_eq!(Error::Custom(String::new()).message(), "");
}
