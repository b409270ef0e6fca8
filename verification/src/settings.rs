//! What can be configured about the service.

use vstd::prelude::*;

verus! {

/// How often the engine trains anew when nothing else is configured:
/// once a day.
pub const DEFAULT_RETRAIN_EVERY_SEC: u64 = 86400;

/// The port on which the service listens when nothing else is configured.
pub const DEFAULT_PORT: u16 = 1337;

/// How many similar users or items a query names when it does not say.
pub const DEFAULT_SIMILAR_COUNT: usize = 5;

/// Where the web service listens.
pub struct RecoChanSettingsApi {
    pub bind: String,
    pub port: u16,
}

/// Where the ratings come from.
pub enum RecoChanSettingsDataProvider {
    /// A table of a SQL database; `where_clause` is empty when all rows count.
    SQL {
        connection_string: String,
        where_clause: String,
        aid_name: String,
        uid_name: String,
        rating_name: String,
        table_name: String,
    },
    /// A directory of CSV files.
    CSVTest { path: String },
}

/// All settings of the service.
pub struct RecoChanSettings {
    pub api: RecoChanSettingsApi,
    pub dataprovider: RecoChanSettingsDataProvider,
    pub retrain_every_sec: u64,
}

impl Default for RecoChanSettingsApi {
    /// The local address, and the default port.
    fn default() -> (api: Self)
        ensures
            api.bind@ == "127.0.0.1"@,
            api.port == DEFAULT_PORT,
    {
        RecoChanSettingsApi { bind: "127.0.0.1".to_owned(), port: DEFAULT_PORT }
    }
}

impl RecoChanSettings {
    /// The settings in which only the source of the ratings was
    /// configured: everything else is at its default.
    pub fn with_defaults(dataprovider: RecoChanSettingsDataProvider) -> (settings: Self)
        ensures
            settings.api.bind@ == "127.0.0.1"@,
            settings.api.port == DEFAULT_PORT,
            settings.retrain_every_sec == DEFAULT_RETRAIN_EVERY_SEC,
            settings.dataprovider == dataprovider,
    {
        RecoChanSettings {
            api: RecoChanSettingsApi::default(),
            dataprovider,
            retrain_every_sec: DEFAULT_RETRAIN_EVERY_SEC,
        }
    }
}

} // verus!
