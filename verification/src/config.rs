//! Where the forum keeps its posts and where it listens.

use vstd::prelude::*;

verus! {

/// The settings of one running forum.
#[derive(Debug, Clone)]
pub struct AppConfig {
    /// The file of the database.
    pub db_path: String,
    /// The address to listen on.
    pub host: String,
    /// The port to listen on.
    pub port: u16,
    /// The title shown on the pages.
    pub title: String,
}

impl Default for AppConfig {
    /// The settings of a forum that was given none.
    fn default() -> (config: AppConfig)
        ensures
            config.db_path@ == "forum.db"@,
            config.host@ == "127.0.0.1"@,
            config.port == 3000,
            config.title@ == "Forum"@,
    {
        AppConfig {
            db_path: "forum.db".to_owned(),
            host: "127.0.0.1".to_owned(),
            port: 3000,
            title: "Forum".to_owned(),
        }
    }
}

} // verus!
