use recochan::dataprovider::{SQLDataProvider, TestDataCsvProvider};
use recochan::settings::{
    RecoChanSettings, RecoChanSettingsApi, RecoChanSettingsDataProvider, DEFAULT_PORT,
    DEFAULT_RETRAIN_EVERY_SEC, DEFAULT_SIMILAR_COUNT,
};

#[test]
fn a_query_over_all_rows() {
    let provider = SQLDataProvider::new("mysql://localhost/db", "", "aid", "uid", "score", "ratings");
    assert_eq!(provider.connection_string(), "mysql://localhost/db");
    assert_eq!(provider.query(), "SELECT aid, uid, score FROM ratings ");
}

#[test]
fn a_query_with_a_condition() {
    let provider = SQLDataProvider::new("mysql://h", "score > 0", "a", "u", "r", "t");
    assert_eq!(provider.connection_string(), "mysql://h");
    assert_eq!(provider.query(), "SELECT a, u, r FROM t WHERE score > 0");
}

#[test]
fn the_csv_provider_keeps_its_path() {
    assert_eq!(TestDataCsvProvider::new("data/ratings").path(), "data/ratings");
    assert_eq!(TestDataCsvProvider::new("").path(), "");
}

#[test]
fn default_settings() {
    assert_eq!(DEFAULT_PORT, 1337);
    assert_eq!(DEFAULT_SIMILAR_COUNT, 5);
    assert_eq!(DEFAULT_RETRAIN_EVERY_SEC, 24 * 60 * 60);
    let api = RecoChanSettingsApi::default();
    assert_eq!(api.bind, "127.0.0.1");
    assert_eq!(api.port, 1337);
    let settings = RecoChanSettings::with_defaults(RecoChanSettingsDataProvider::CSVTest { path: "p".to_string() });
    assert_eq!(settings.api.bind, "127.0.0.1");
    assert_eq!(settings.api.port, 1337);
    assert_eq!(settings.retrain_every_sec, 86400);
    assert!(matches!(settings.dataprovider, RecoChanSettingsDataProvider::CSVTest { ref path } if path == "p"));
}
