//! Server settings: a plain keyed settings object. Reading and writing
//! the settings file is outside the library; a missing file means these
//! defaults.

use vstd::prelude::*;

verus! {

/// Settings of the networking and state engine.
#[derive(Debug, Clone)]
pub struct ServerConfig {
    /// UDP port to listen on.
    pub port: u16,
    /// Most lobbies the store will hold.
    pub max_lobbies: usize,
    /// Most players one lobby admits.
    pub max_players_per_lobby: usize,
    /// Seconds of silence after which a player is removed.
    pub client_timeout_seconds: u64,
    /// Seconds of inactivity after which an empty lobby is retired.
    pub lobby_idle_timeout_seconds: u64,
    /// Whether retired and live lobbies are snapshotted to disk.
    pub enable_persistence: bool,
    /// Directory of the one-file-per-lobby snapshots.
    pub persistence_dir: String,
}

/// Settings of the logging sink.
#[derive(Debug, Clone)]
pub struct LoggingConfig {
    pub level: String,
    pub log_to_file: bool,
    pub log_file: String,
}

/// The whole settings file.
#[derive(Debug, Clone)]
pub struct Config {
    pub server: ServerConfig,
    pub logging: LoggingConfig,
}

impl Default for Config {
    /// The values used when no settings file is present.
    fn default() -> (r: Config)
        ensures
            r.server.port == 8756,
            r.server.max_lobbies == 100,
            r.server.max_players_per_lobby == 16,
            r.server.client_timeout_seconds == 60,
            r.server.lobby_idle_timeout_seconds == 300,
            r.server.enable_persistence == true,
            r.server.persistence_dir@ == "./lobbies"@,
            r.logging.level@ == "info"@,
            r.logging.log_to_file == true,
            r.logging.log_file@ == "server.log"@,
    {
        Config {
            server: ServerConfig {
                port: 8756,
                max_lobbies: 100,
                max_players_per_lobby: 16,
                client_timeout_seconds: 60,
                lobby_idle_timeout_seconds: 300,
                enable_persistence: true,
                persistence_dir: "./lobbies".to_owned(),
            },
            logging: LoggingConfig {
                level: "info".to_owned(),
                log_to_file: true,
                log_file: "server.log".to_owned(),
            },
        }
    }
}

} // verus!
