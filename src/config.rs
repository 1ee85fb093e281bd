//! Settings of the collecting daemon.
use vstd::prelude::*;
use vstd::string::StringExecFns;

verus! {

/// Settings of the collecting daemon.
#[derive(Debug, Clone)]
pub struct Config {
    /// Polling interval in seconds.
    pub poll_interval_secs: u64,
    /// Name of the one battery to watch, if only one.
    pub battery: Option<String>,
    /// Path of the database file.
    pub database_path: String,
}

impl Default for Config {
    /// Poll every minute, watch every battery, store in `battery.db`.
    fn default() -> (r: Config)
        ensures
            r.poll_interval_secs == 60,
            r.battery is None,
            r.database_path@ == "battery.db"@,
    {
        proof {
            reveal_strlit("battery.db");
        }
        Config { poll_interval_secs: 60, battery: None, database_path: String::from_str("battery.db") }
    }
}

} // verus!
