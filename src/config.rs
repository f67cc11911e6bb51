//! The server's settings, as plain values. Reading and writing the settings
//! file happens outside the library.
use vstd::prelude::*;
use vstd::string::StrSliceExecFns;
use crate::connection::ServerInfo;
use crate::frame::CompressionSettings;

verus! {

/// How much the server logs, from nothing to everything.
#[derive(Debug, Clone, Copy, PartialEq, Eq, Structural)]
pub enum Level {
    Off,
    Error,
    Warn,
    Info,
    Debug,
    Trace,
}

/// The log level setting.
#[derive(Debug, Clone, Copy, PartialEq, Eq, Structural)]
pub struct LogLevel {
    pub level: Level,
}

/// The lower-case form that `str::to_lowercase` gives of `s`.
pub uninterp spec fn lower_of(s: Seq<char>) -> Seq<char>;

/// Relies on `str::to_lowercase`: the result depends on the characters
/// alone.
#[verifier::external_body]
fn lowercase(s: &str) -> (r: String)
    ensures
        r@ == lower_of(s@),
{
    s.to_lowercase()
}

/// The level a lower-case name stands for; any other name turns logging off.
pub open spec fn level_named(name: Seq<char>) -> Level {
    if name == "trace"@ {
        Level::Trace
    } else if name == "debug"@ {
        Level::Debug
    } else if name == "info"@ {
        Level::Info
    } else if name == "warn"@ {
        Level::Warn
    } else if name == "error"@ {
        Level::Error
    } else {
        Level::Off
    }
}

/// The lower-case name of a level.
pub open spec fn level_name(level: Level) -> Seq<char> {
    match level {
        Level::Off => "off"@,
        Level::Error => "error"@,
        Level::Warn => "warn"@,
        Level::Info => "info"@,
        Level::Debug => "debug"@,
        Level::Trace => "trace"@,
    }
}

fn str_eq(a: &str, b: &str) -> (r: bool)
    ensures
        r == (a@ == b@),
{
    let n = a.unicode_len();
    if n != b.unicode_len() {
        return false;
    }
    let mut i: usize = 0;
    while i < n
        invariant
            i <= n,
            n == a@.len(),
            n == b@.len(),
            forall|j: int| 0 <= j < i ==> a@[j] == b@[j],
        decreases n - i,
    {
        if a.get_char(i) != b.get_char(i) {
            return false;
        }
        i = i + 1;
    }
    assert(a@ == b@);
    true
}

impl LogLevel {
    /// The level named by a name already in lower case.
    pub fn from_lowercase(name: &str) -> (r: LogLevel)
        ensures
            r.level == level_named(name@),
    {
        let level = if str_eq(name, "trace") {
            Level::Trace
        } else if str_eq(name, "debug") {
            Level::Debug
        } else if str_eq(name, "info") {
            Level::Info
        } else if str_eq(name, "warn") {
            Level::Warn
        } else if str_eq(name, "error") {
            Level::Error
        } else {
            Level::Off
        };
        LogLevel { level }
    }

    /// The level a name stands for, in any case; an unknown name turns
    /// logging off.
    pub fn from_name(name: &str) -> (r: LogLevel)
        ensures
            r.level == level_named(lower_of(name@)),
    {
        let lower = lowercase(name);
        LogLevel::from_lowercase(lower.as_str())
    }

    /// The lower-case name of the level.
    pub fn name(&self) -> (r: &'static str)
        ensures
            r@ == level_name(self.level),
    {
        match self.level {
            Level::Off => "off",
            Level::Error => "error",
            Level::Warn => "warn",
            Level::Info => "info",
            Level::Debug => "debug",
            Level::Trace => "trace",
        }
    }
}

/// General settings.
#[derive(Debug, Clone, PartialEq, Eq)]
pub struct GeneralConfig {
    pub log_level: LogLevel,
}

/// Settings of the connection engine that few need to change.
#[derive(Debug, Clone, PartialEq, Eq)]
pub struct AdvancedNetworkConfig {
    /// Bytes read from a socket at a time.
    pub buffer_size: usize,
    /// Kept in the settings file; the engine's queues hold 32 packets.
    pub buffered_packets: usize,
    /// Payloads longer than this many bytes are compressed.
    pub compression_threshold: u32,
    /// The zlib level, 0 to 9.
    pub compression_level: u32,
}

/// Network settings.
#[derive(Debug, Clone, PartialEq, Eq)]
pub struct NetworkConfig {
    pub port: u16,
    pub max_players: usize,
    pub advanced: AdvancedNetworkConfig,
}

/// Settings of the game layer.
#[derive(Debug, Clone, PartialEq, Eq)]
pub struct ServerConfig {
    pub motd: String,
}

/// All settings, with the path of the file they came from.
#[derive(Debug, Clone, PartialEq, Eq)]
pub struct Config {
    pub general: GeneralConfig,
    pub network: NetworkConfig,
    pub server: ServerConfig,
    pub path: String,
}

impl AdvancedNetworkConfig {
    /// The compression the settings ask for, or `None` where the level is
    /// not one zlib has.
    pub fn compression(&self) -> (r: Option<CompressionSettings>)
        ensures
            r is Some <==> self.compression_level <= 9,
            r matches Some(c) ==> c.threshold == self.compression_threshold && c.level
                == self.compression_level,
    {
        if self.compression_level <= 9 {
            Some(CompressionSettings { threshold: self.compression_threshold, level: self.compression_level })
        } else {
            None
        }
    }
}

impl Config {
    /// What the connection engine needs to know of the server.
    pub fn server_info(&self) -> (r: ServerInfo)
        ensures
            r.max_players == self.network.max_players,
            r.motd@ == self.server.motd@,
            r.compression_threshold == self.network.advanced.compression_threshold,
    {
        ServerInfo {
            max_players: self.network.max_players,
            motd: self.server.motd.clone(),
            compression_threshold: self.network.advanced.compression_threshold,
        }
    }
}

} // verus!
