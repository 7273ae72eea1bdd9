//! Runtime configuration of the bridge, from the values of its environment
//! variables.
//!
//! Required: `GROCY_URL`, `GROCY_API_KEY`. Optional, with defaults:
//! `SCAN_DURATION_SECS` (30), `SCAN_INTERVAL_SECS` (5), `DEVICE_TIMEOUT_SECS`
//! (300), `STATS_INTERVAL_SECS` (60), `TRANSPORT_MODE` (`gatt`),
//! `MESH_POLL_INTERVAL_SECS` (5), `MESH_INGEST_BIND_ADDR` (`127.0.0.1:9478`).
use vstd::prelude::*;
use vstd::string::{StrSliceExecFns, StringExecFns, StringSliceAdditionalSpecFns};
use crate::numeric_text::{parse_u64, parse_u64_spec};

verus! {

/// Bridge runtime transport mode.
#[derive(Debug, Clone, Copy, PartialEq, Eq, Structural)]
pub enum TransportMode {
    /// BLE GATT central behaviour.
    Gatt,
    /// Mesh foundation runtime.
    Mesh,
}

/// Runtime configuration for the bridge server.
#[derive(Debug, Clone)]
pub struct Config {
    /// Base URL of the Grocy instance (e.g. `http://grocy.local`).
    pub grocy_url: String,
    /// Grocy REST API key.
    pub grocy_api_key: String,
    /// How long (seconds) to run each BLE scan pass before pausing.
    pub scan_duration_secs: u64,
    /// Seconds to pause between scan passes (0 = scan continuously).
    pub scan_interval_secs: u64,
    /// Seconds without a BLE advertisement before a device counts as away.
    pub device_timeout_secs: u64,
    /// How often (seconds) to emit a device-stats summary to the log.
    pub stats_interval_secs: u64,
    /// Runtime transport mode (`gatt` or `mesh`).
    pub transport_mode: TransportMode,
    /// Heartbeat interval used by mesh runtime mode.
    pub mesh_poll_interval_secs: u64,
    /// UDP socket bind address for mesh ingest packets in mesh mode.
    pub mesh_ingest_bind_addr: String,
}

/// The values of the environment variables the configuration is read from;
/// `None` for a variable that is not set.
#[derive(Debug, Clone, Default)]
pub struct ConfigVars {
    pub grocy_url: Option<String>,
    pub grocy_api_key: Option<String>,
    pub scan_duration_secs: Option<String>,
    pub scan_interval_secs: Option<String>,
    pub device_timeout_secs: Option<String>,
    pub stats_interval_secs: Option<String>,
    pub transport_mode: Option<String>,
    pub mesh_poll_interval_secs: Option<String>,
    pub mesh_ingest_bind_addr: Option<String>,
}

/// Why a configuration could not be built.
#[derive(Debug, Clone, PartialEq, Eq)]
pub enum ConfigError {
    /// A required variable is not set.
    NotSet { name: String },
    /// A variable is set but is not a non-negative integer.
    NotAnInteger { name: String },
    /// `TRANSPORT_MODE` is set to something other than `gatt` or `mesh`.
    UnknownTransportMode { name: String, value: String },
}

/// Whether `c` is white space in the sense of the Unicode `White_Space`
/// property, which `str::trim` removes.
pub open spec fn is_white_space(c: char) -> bool {
    ||| '\u{9}' <= c <= '\u{d}'
    ||| c == ' '
    ||| c == '\u{85}'
    ||| c == '\u{a0}'
    ||| c == '\u{1680}'
    ||| '\u{2000}' <= c <= '\u{200a}'
    ||| c == '\u{2028}'
    ||| c == '\u{2029}'
    ||| c == '\u{202f}'
    ||| c == '\u{205f}'
    ||| c == '\u{3000}'
}

/// `s` without leading white space.
pub open spec fn trim_start(s: Seq<char>) -> Seq<char>
    decreases s.len(),
{
    if s.len() > 0 && is_white_space(s[0]) {
        trim_start(s.drop_first())
    } else {
        s
    }
}

/// `s` without trailing white space.
pub open spec fn trim_end(s: Seq<char>) -> Seq<char>
    decreases s.len(),
{
    if s.len() > 0 && is_white_space(s.last()) {
        trim_end(s.drop_last())
    } else {
        s
    }
}

/// `c` with ASCII upper-case letters turned to lower case.
pub open spec fn ascii_lower(c: char) -> char {
    if 'A' <= c <= 'Z' {
        ((c as u32) + 32) as char
    } else {
        c
    }
}

/// The transport mode a `TRANSPORT_MODE` value names, after trimming white
/// space and ignoring ASCII case.
pub open spec fn transport_mode_of(s: Seq<char>) -> Option<TransportMode> {
    let t = trim_end(trim_start(s)).map_values(|c: char| ascii_lower(c));
    if t == seq!['g', 'a', 't', 't'] {
        Some(TransportMode::Gatt)
    } else if t == seq!['m', 'e', 's', 'h'] {
        Some(TransportMode::Mesh)
    } else {
        None
    }
}

/// The value of an unsigned-integer setting: `default` when unset, its
/// decimal value when set to one, `None` otherwise.
pub open spec fn u64_setting(v: Option<String>, default: u64) -> Option<u64> {
    match v {
        None => Some(default),
        Some(s) => parse_u64_spec(vstd::utf8::encode_utf8(s@)),
    }
}

/// The value of the transport-mode setting: `default` when unset.
pub open spec fn mode_setting(v: Option<String>, default: TransportMode) -> Option<TransportMode> {
    match v {
        None => Some(default),
        Some(s) => transport_mode_of(s@),
    }
}

/// The first index from which `s` has no leading white space.
fn trim_start_index(s: &str) -> (r: usize)
    ensures
        r <= s@.len(),
        trim_start(s@) == s@.subrange(r as int, s@.len() as int),
{
    let n = s.unicode_len();
    let mut i: usize = 0;
    assert(s@.subrange(0, n as int) =~= s@);
    while i < n
        invariant
            i <= n,
            n == s@.len(),
            trim_start(s@) == trim_start(s@.subrange(i as int, n as int)),
        decreases n - i,
    {
        let c = s.get_char(i);
        if !(('\u{9}' <= c && c <= '\u{d}') || c == ' ' || c == '\u{85}' || c == '\u{a0}' || c
            == '\u{1680}' || ('\u{2000}' <= c && c <= '\u{200a}') || c == '\u{2028}' || c
            == '\u{2029}' || c == '\u{202f}' || c == '\u{205f}' || c == '\u{3000}') {
            return i;
        }
        assert(s@.subrange(i as int, n as int).drop_first() =~= s@.subrange(i + 1, n as int));
        i += 1;
    }
    i
}

/// The index up to which `s` (from `start`) has no trailing white space.
fn trim_end_index(s: &str, start: usize) -> (r: usize)
    requires
        start <= s@.len(),
    ensures
        start <= r <= s@.len(),
        trim_end(s@.subrange(start as int, s@.len() as int)) == s@.subrange(start as int, r as int),
{
    let n = s.unicode_len();
    let mut j: usize = n;
    while j > start
        invariant
            start <= j <= n,
            n == s@.len(),
            trim_end(s@.subrange(start as int, n as int)) == trim_end(
                s@.subrange(start as int, j as int),
            ),
        decreases j,
    {
        let c = s.get_char(j - 1);
        if !(('\u{9}' <= c && c <= '\u{d}') || c == ' ' || c == '\u{85}' || c == '\u{a0}' || c
            == '\u{1680}' || ('\u{2000}' <= c && c <= '\u{200a}') || c == '\u{2028}' || c
            == '\u{2029}' || c == '\u{202f}' || c == '\u{205f}' || c == '\u{3000}') {
            return j;
        }
        assert(s@.subrange(start as int, j as int).drop_last() =~= s@.subrange(
            start as int,
            j - 1,
        ));
        j -= 1;
    }
    j
}

/// Whether the characters of `s` from `lo` to `hi`, lower-cased, are `word`.
fn lower_equals(s: &str, lo: usize, hi: usize, word: &str) -> (r: bool)
    requires
        lo <= hi <= s@.len(),
    ensures
        r == (s@.subrange(lo as int, hi as int).map_values(|c: char| ascii_lower(c)) == word@),
{
    let ghost t = s@.subrange(lo as int, hi as int).map_values(|c: char| ascii_lower(c));
    let m = word.unicode_len();
    if hi - lo != m {
        assert(t.len() != word@.len());
        return false;
    }
    let mut k: usize = 0;
    while k < m
        invariant
            k <= m,
            m == word@.len(),
            hi - lo == m,
            lo <= hi <= s@.len(),
            t == s@.subrange(lo as int, hi as int).map_values(|c: char| ascii_lower(c)),
            forall|x: int| 0 <= x < k ==> t[x] == word@[x],
        decreases m - k,
    {
        let c = s.get_char(lo + k);
        let lc = if 'A' <= c && c <= 'Z' {
            ((c as u32) + 32) as u8 as char
        } else {
            c
        };
        assert(t[k as int] == ascii_lower(c));
        if lc != word.get_char(k) {
            return false;
        }
        k += 1;
    }
    assert(t =~= word@);
    true
}

/// The transport mode a `TRANSPORT_MODE` value names (see [`transport_mode_of`]).
pub fn parse_transport_mode(s: &str) -> (r: Option<TransportMode>)
    ensures
        r == transport_mode_of(s@),
{
    let lo = trim_start_index(s);
    let hi = trim_end_index(s, lo);
    proof {
        assert(trim_end(trim_start(s@)) == s@.subrange(lo as int, hi as int));
        reveal_strlit("gatt");
        reveal_strlit("mesh");
        assert("gatt"@ =~= seq!['g', 'a', 't', 't']);
        assert("mesh"@ =~= seq!['m', 'e', 's', 'h']);
    }
    if lower_equals(s, lo, hi, "gatt") {
        Some(TransportMode::Gatt)
    } else if lower_equals(s, lo, hi, "mesh") {
        Some(TransportMode::Mesh)
    } else {
        None
    }
}

/// Read an unsigned-integer setting named `name` with value `value`:
/// `default` when unset, an error when set to anything but a decimal number.
pub fn env_u64(name: &str, value: Option<&String>, default: u64) -> (r: Result<u64, ConfigError>)
    ensures
        match u64_setting(
            match value {
                Some(s) => Some(*s),
                None => None,
            },
            default,
        ) {
            Some(v) => r == Ok::<u64, ConfigError>(v),
            None => r matches Err(ConfigError::NotAnInteger { name: n }) && n@ == name@,
        },
{
    match value {
        Some(s) => match parse_u64(s.as_str().as_bytes()) {
            Some(v) => Ok(v),
            None => Err(ConfigError::NotAnInteger { name: String::from_str(name) }),
        },
        None => Ok(default),
    }
}

/// Read the transport-mode setting named `name` with value `value`:
/// `default` when unset, an error when it names neither mode.
pub fn env_transport_mode(name: &str, value: Option<&String>, default: TransportMode) -> (r: Result<
    TransportMode,
    ConfigError,
>)
    ensures
        match mode_setting(
            match value {
                Some(s) => Some(*s),
                None => None,
            },
            default,
        ) {
            Some(m) => r == Ok::<TransportMode, ConfigError>(m),
            None => r matches Err(ConfigError::UnknownTransportMode { name: n, value: v }) && n@
                == name@ && v@ == value->0@,
        },
{
    match value {
        Some(s) => match parse_transport_mode(s.as_str()) {
            Some(m) => Ok(m),
            None => Err(
                ConfigError::UnknownTransportMode {
                    name: String::from_str(name),
                    value: s.clone(),
                },
            ),
        },
        None => Ok(default),
    }
}

/// Whether `c` is the configuration that `vars` describe: the required URL and
/// API key, every setting at its value or default.
pub open spec fn config_from(vars: ConfigVars, c: Config) -> bool {
    &&& vars.grocy_url matches Some(u) && c.grocy_url@ == u@
    &&& vars.grocy_api_key matches Some(k) && c.grocy_api_key@ == k@
    &&& u64_setting(vars.scan_duration_secs, 30) == Some(c.scan_duration_secs)
    &&& u64_setting(vars.scan_interval_secs, 5) == Some(c.scan_interval_secs)
    &&& u64_setting(vars.device_timeout_secs, 300) == Some(c.device_timeout_secs)
    &&& u64_setting(vars.stats_interval_secs, 60) == Some(c.stats_interval_secs)
    &&& mode_setting(vars.transport_mode, TransportMode::Gatt) == Some(c.transport_mode)
    &&& u64_setting(vars.mesh_poll_interval_secs, 5) == Some(c.mesh_poll_interval_secs)
    &&& c.mesh_ingest_bind_addr@ == match vars.mesh_ingest_bind_addr {
        Some(a) => a@,
        None => "127.0.0.1:9478"@,
    }
}

/// Whether every variable of `vars` is usable: both required ones set and
/// every optional one unset or well-formed.
pub open spec fn vars_valid(vars: ConfigVars) -> bool {
    &&& vars.grocy_url is Some
    &&& vars.grocy_api_key is Some
    &&& u64_setting(vars.scan_duration_secs, 30) is Some
    &&& u64_setting(vars.scan_interval_secs, 5) is Some
    &&& u64_setting(vars.device_timeout_secs, 300) is Some
    &&& u64_setting(vars.stats_interval_secs, 60) is Some
    &&& mode_setting(vars.transport_mode, TransportMode::Gatt) is Some
    &&& u64_setting(vars.mesh_poll_interval_secs, 5) is Some
}

/// The first problem with `vars`, in the order the variables are read:
/// `GROCY_URL`, `GROCY_API_KEY`, `SCAN_DURATION_SECS`, `SCAN_INTERVAL_SECS`,
/// `DEVICE_TIMEOUT_SECS`, `STATS_INTERVAL_SECS`, `TRANSPORT_MODE`,
/// `MESH_POLL_INTERVAL_SECS`; given as the variable's name and the kind of error.
pub open spec fn first_problem(vars: ConfigVars) -> (Seq<char>, int) {
    if vars.grocy_url is None {
        ("GROCY_URL"@, 0)
    } else if vars.grocy_api_key is None {
        ("GROCY_API_KEY"@, 0)
    } else if u64_setting(vars.scan_duration_secs, 30) is None {
        ("SCAN_DURATION_SECS"@, 1)
    } else if u64_setting(vars.scan_interval_secs, 5) is None {
        ("SCAN_INTERVAL_SECS"@, 1)
    } else if u64_setting(vars.device_timeout_secs, 300) is None {
        ("DEVICE_TIMEOUT_SECS"@, 1)
    } else if u64_setting(vars.stats_interval_secs, 60) is None {
        ("STATS_INTERVAL_SECS"@, 1)
    } else if mode_setting(vars.transport_mode, TransportMode::Gatt) is None {
        ("TRANSPORT_MODE"@, 2)
    } else {
        ("MESH_POLL_INTERVAL_SECS"@, 1)
    }
}

/// The name a configuration error is about, and its kind (0 = not set,
/// 1 = not an integer, 2 = unknown transport mode).
pub open spec fn error_name_kind(e: ConfigError) -> (Seq<char>, int) {
    match e {
        ConfigError::NotSet { name } => (name@, 0),
        ConfigError::NotAnInteger { name } => (name@, 1),
        ConfigError::UnknownTransportMode { name, .. } => (name@, 2),
    }
}

impl Config {
    /// Build the configuration from the values of its environment variables.
    ///
    /// Fails on the first required variable that is not set or optional
    /// variable that cannot be read, in the order listed at [`first_problem`].
    pub fn from_vars(vars: &ConfigVars) -> (r: Result<Config, ConfigError>)
        ensures
            vars_valid(*vars) == (r is Ok),
            (r matches Ok(c) ==> config_from(*vars, c)),
            (r matches Err(e) ==> error_name_kind(e) == first_problem(*vars)),
    {
        let grocy_url = match &vars.grocy_url {
            Some(u) => u.clone(),
            None => return Err(ConfigError::NotSet { name: String::from_str("GROCY_URL") }),
        };
        let grocy_api_key = match &vars.grocy_api_key {
            Some(k) => k.clone(),
            None => return Err(ConfigError::NotSet { name: String::from_str("GROCY_API_KEY") }),
        };
        let scan_duration_secs = env_u64("SCAN_DURATION_SECS", vars.scan_duration_secs.as_ref(), 30)?;
        let scan_interval_secs = env_u64("SCAN_INTERVAL_SECS", vars.scan_interval_secs.as_ref(), 5)?;
        let device_timeout_secs = env_u64(
            "DEVICE_TIMEOUT_SECS",
            vars.device_timeout_secs.as_ref(),
            300,
        )?;
        let stats_interval_secs = env_u64(
            "STATS_INTERVAL_SECS",
            vars.stats_interval_secs.as_ref(),
            60,
        )?;
        let transport_mode = env_transport_mode(
            "TRANSPORT_MODE",
            vars.transport_mode.as_ref(),
            TransportMode::Gatt,
        )?;
        let mesh_poll_interval_secs = env_u64(
            "MESH_POLL_INTERVAL_SECS",
            vars.mesh_poll_interval_secs.as_ref(),
            5,
        )?;
        let mesh_ingest_bind_addr = match &vars.mesh_ingest_bind_addr {
            Some(a) => a.clone(),
            None => String::from_str("127.0.0.1:9478"),
        };
        Ok(
            Config {
                grocy_url,
                grocy_api_key,
                scan_duration_secs,
                scan_interval_secs,
                device_timeout_secs,
                stats_interval_secs,
                transport_mode,
                mesh_poll_interval_secs,
                mesh_ingest_bind_addr,
            },
        )
    }
}

impl ConfigError {
    /// The human-readable description of the error.
    pub fn message(&self) -> (r: String)
        ensures
            r@ == match self {
                ConfigError::NotSet { name } => name@ + " environment variable not set"@,
                ConfigError::NotAnInteger { name } => name@ + " must be a non-negative integer"@,
                ConfigError::UnknownTransportMode { name, value } => name@
                    + " must be one of: gatt, mesh (got: "@ + value@ + ")"@,
            },
    {
        match self {
            ConfigError::NotSet { name } => {
                let mut m = name.clone();
                m.append(" environment variable not set");
                m
            },
            ConfigError::NotAnInteger { name } => {
                let mut m = name.clone();
                m.append(" must be a non-negative integer");
                m
            },
            ConfigError::UnknownTransportMode { name, value } => {
                let mut m = name.clone();
                m.append(" must be one of: gatt, mesh (got: ");
                m.append(value.as_str());
                m.append(")");
                m
            },
        }
    }
}

} // verus!
