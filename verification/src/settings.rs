//! Server configuration: upload limits, allowed lifetimes, the negotiated
//! chunk size, and the values the server publishes about itself.  File and
//! network locations live with the code that performs the I/O.

use vstd::prelude::*;
use vstd::string::*;

verus! {

/// Settings pertaining to the server's network identity.
pub struct ServerSettings {
    pub domain: String,
    pub address: String,
    pub port: u16,
    /// The path to the root directory of the program, ex `/filehost/`.
    pub root_path: String,
}

impl Default for ServerSettings {
    fn default() -> (r: ServerSettings)
        ensures
            r.domain@ == "example.com"@,
            r.address@ == "127.0.0.1"@,
            r.port == 8950u16,
            r.root_path@ == "/"@,
    {
        ServerSettings {
            domain: String::from_str("example.com"),
            address: String::from_str("127.0.0.1"),
            root_path: String::from_str("/"),
            port: 8950,
        }
    }
}

/// Settings pertaining to entry lifetimes, in seconds.
pub struct DurationSettings {
    /// Maximum file lifetime.
    pub maximum: i64,
    /// Default file lifetime.
    pub default: i64,
    /// List of recommended lifetimes.
    pub allowed: Vec<i64>,
    /// Restrict the input durations to the allowed ones or not.
    pub restrict_to_allowed: bool,
}

impl DurationSettings {
    /// The requested lifetime appears in the allowed list.
    pub open spec fn spec_allows(&self, duration: i64) -> bool {
        exists|i: int| 0 <= i < self.allowed@.len() && self.allowed@[i] == duration
    }

    /// Whether the requested lifetime appears in the allowed list.
    pub fn allows(&self, duration: i64) -> (r: bool)
        ensures
            r == self.spec_allows(duration),
    {
        let mut i: usize = 0;
        while i < self.allowed.len()
            invariant
                0 <= i <= self.allowed@.len(),
                forall|j: int| 0 <= j < i ==> self.allowed@[j] != duration,
            decreases self.allowed@.len() - i,
        {
            if self.allowed[i] == duration {
                return true;
            }
            i = i + 1;
        }
        false
    }
}

impl Default for DurationSettings {
    /// Three days at most, six hours by default; one hour, six hours, one
    /// day and two days offered, and inputs restricted to those.
    fn default() -> (r: DurationSettings)
        ensures
            r.maximum == 259200i64,
            r.default == 21600i64,
            r.allowed@ == seq![3600i64, 21600i64, 86400i64, 172800i64],
            r.restrict_to_allowed == true,
    {
        let mut allowed: Vec<i64> = Vec::new();
        allowed.push(3600);
        allowed.push(21600);
        allowed.push(86400);
        allowed.push(172800);
        proof {
            assert(allowed@ =~= seq![3600i64, 21600i64, 86400i64, 172800i64]);
        }
        DurationSettings { maximum: 259200, default: 21600, allowed, restrict_to_allowed: true }
    }
}

/// The server's operating limits and identity.
pub struct Settings {
    /// Maximum filesize in bytes.
    pub max_filesize: u64,
    /// Whether overwriting files that share a hash is allowed; deduplication
    /// makes this a no-op, and the switch is kept only for configuration
    /// compatibility.
    pub overwrite: bool,
    /// Settings pertaining to duration information.
    pub duration: DurationSettings,
    /// Maximum chunk size accepted by the chunked upload protocol, offered
    /// to clients at upload start.
    pub chunk_size: u64,
    /// Settings pertaining to the server configuration.
    pub server: ServerSettings,
}

impl Settings {
    /// Machine-level soundness of the limits: a chunk size of at least one
    /// byte, and a maximum file size that fits the address space, so byte
    /// positions inside a staged file are representable.
    pub open spec fn wf(&self) -> bool {
        &&& self.chunk_size >= 1
        &&& self.max_filesize <= usize::MAX
    }
}

impl Default for Settings {
    /// One megabyte uploads and chunks, with the default lifetimes.
    fn default() -> (r: Settings)
        ensures
            r.max_filesize == 1000000u64,
            r.overwrite == true,
            r.chunk_size == 1000000u64,
            r.duration.maximum == 259200i64,
            r.duration.default == 21600i64,
            r.duration.allowed@ == seq![3600i64, 21600i64, 86400i64, 172800i64],
            r.duration.restrict_to_allowed == true,
            r.server.domain@ == "example.com"@,
            r.server.address@ == "127.0.0.1"@,
            r.server.port == 8950u16,
            r.server.root_path@ == "/"@,
            r.wf(),
    {
        Settings {
            max_filesize: 1000000,
            overwrite: true,
            duration: DurationSettings::default(),
            chunk_size: 1000000,
            server: ServerSettings::default(),
        }
    }
}

/// What the server reports about its capabilities.
pub struct ServerInfo {
    pub max_filesize: u64,
    pub max_duration: u32,
    pub default_duration: u32,
    pub allowed_durations: Vec<u32>,
}

/// Build the capability report from the settings: durations are reported in
/// whole seconds, truncated to 32 bits as the wire format has them.
pub fn server_info(settings: &Settings) -> (r: ServerInfo)
    ensures
        r.max_filesize == settings.max_filesize,
        r.max_duration == settings.duration.maximum as u32,
        r.default_duration == settings.duration.default as u32,
        r.allowed_durations@.len() == settings.duration.allowed@.len(),
        forall|i: int|
            0 <= i < r.allowed_durations@.len() ==> r.allowed_durations@[i]
                == settings.duration.allowed@[i] as u32,
{
    let mut allowed: Vec<u32> = Vec::new();
    let mut i: usize = 0;
    while i < settings.duration.allowed.len()
        invariant
            0 <= i <= settings.duration.allowed@.len(),
            allowed@.len() == i,
            forall|j: int| 0 <= j < i ==> allowed@[j] == settings.duration.allowed@[j] as u32,
        decreases settings.duration.allowed@.len() - i,
    {
        #[verifier::truncate]
        let d = settings.duration.allowed[i] as u32;
        allowed.push(d);
        i = i + 1;
    }
    #[verifier::truncate]
    let max_duration = settings.duration.maximum as u32;
    #[verifier::truncate]
    let default_duration = settings.duration.default as u32;
    ServerInfo {
        max_filesize: settings.max_filesize,
        max_duration,
        default_duration,
        allowed_durations: allowed,
    }
}

} // verus!
