use vstd::prelude::*;

use crate::text::{chars_of, parse_unsigned, parse_unsigned_text, string_of};

verus! {

/// The feeds that the service publishes, as loaded at startup.
#[derive(Clone, Debug)]
pub struct Feeds {
    pub feeds: Vec<Feed>,
}

/// One published feed: who may read it, what a refused reader sees, and its rules.
#[derive(Clone, Debug)]
pub struct Feed {
    pub uri: String,
    pub name: String,
    pub description: String,
    /// Identities allowed to read the feed; empty means that anyone may.
    pub allow: Vec<String>,
    /// The post shown in place of the feed to a caller who is not allowed.
    pub deny: String,
    pub matchers: Vec<Matcher>,
}

/// A rule of a feed, as configured: a path into the event and what to look for there.
#[derive(Clone, Debug)]
pub enum Matcher {
    Equal { path: String, value: String },
    Prefix { path: String, value: String },
    Sequence { path: String, values: Vec<String> },
}

impl Matcher {
    pub open spec fn path_view(&self) -> Seq<char> {
        match self {
            Matcher::Equal { path, .. } => path@,
            Matcher::Prefix { path, .. } => path@,
            Matcher::Sequence { path, .. } => path@,
        }
    }
}


/// Why a setting could not be read.
#[derive(PartialEq, Eq, Structural, Clone, Copy, Debug)]
pub enum ConfigError {
    /// The port is not a number in 0..=65535.
    InvalidPort,
    /// A task switch is neither `true` nor `false`.
    InvalidTaskEnable,
    /// Neither a commit hash nor a package version is known.
    MissingVersion,
}

/// The port that the HTTP server listens on.
#[derive(Clone, Debug)]
pub struct HttpPort(pub u16);

/// Files of extra CA certificates to trust.
#[derive(Clone, Debug)]
pub struct CertificateBundles(pub Vec<String>);

/// Whether a background task runs.
#[derive(Clone, Debug)]
pub struct TaskEnable(pub bool);

/// The port that a setting names: 80 when it is empty, else the number it spells.
pub open spec fn port_setting(value: Seq<char>) -> Option<u16> {
    if value.len() == 0 {
        Some(80)
    } else {
        match parse_unsigned(value, 65535) {
            Some(n) => Some(n as u16),
            None => None,
        }
    }
}

impl HttpPort {
    pub fn try_from(value: String) -> (r: Result<HttpPort, ConfigError>)
        ensures
            r is Ok <==> port_setting(value@) is Some,
            r matches Ok(p) ==> port_setting(value@) == Some(p.0),
            r matches Err(e) ==> e == ConfigError::InvalidPort,
    {
        let chars = chars_of(value.as_str());
        if chars.len() == 0 {
            return Ok(HttpPort(80));
        }
        match parse_unsigned_text(chars.as_slice(), 65535) {
            Some(n) => Ok(HttpPort(n as u16)),
            None => Err(ConfigError::InvalidPort),
        }
    }

    pub fn as_ref(&self) -> (r: &u16)
        ensures
            *r == self.0,
    {
        &self.0
    }
}

/// Scanning a setting left to right: the non-empty pieces closed by a `;` so far, and the
/// piece still open.
pub open spec fn scan_pieces(s: Seq<char>) -> (Seq<Seq<char>>, Seq<char>)
    decreases s.len(),
{
    if s.len() == 0 {
        (Seq::empty(), Seq::empty())
    } else {
        let (done, open) = scan_pieces(s.drop_last());
        if s.last() == ';' {
            if open.len() > 0 {
                (done.push(open), Seq::empty())
            } else {
                (done, Seq::empty())
            }
        } else {
            (done, open.push(s.last()))
        }
    }
}

/// The non-empty pieces of a `;`-separated setting, in order.
pub open spec fn bundle_paths(s: Seq<char>) -> Seq<Seq<char>> {
    let (done, open) = scan_pieces(s);
    if open.len() > 0 {
        done.push(open)
    } else {
        done
    }
}

impl CertificateBundles {
    pub fn try_from(value: String) -> (r: Result<CertificateBundles, ConfigError>)
        ensures
            r matches Ok(b) && b.0@.map_values(|p: String| p@) == bundle_paths(value@),
    {
        let chars = chars_of(value.as_str());
        let mut done: Vec<String> = Vec::new();
        let mut open: Vec<char> = Vec::new();
        let mut i: usize = 0;
        while i < chars.len()
            invariant
                i <= chars@.len(),
                chars@ == value@,
                scan_pieces(chars@.take(i as int)) == (done@.map_values(|p: String| p@), open@),
            decreases chars.len() - i,
        {
            let ghost before = chars@.take(i as int);
            assert(chars@.take(i + 1).drop_last() =~= before);
            let c = chars[i];
            if c == ';' {
                if open.len() > 0 {
                    let piece = string_of(open.as_slice());
                    let ghost old_done = done@;
                    done.push(piece);
                    assert(done@.map_values(|p: String| p@) =~= old_done.map_values(|p: String| p@).push(
                        open@,
                    ));
                }
                open = Vec::new();
            } else {
                open.push(c);
            }
            i = i + 1;
        }
        assert(chars@.take(i as int) =~= value@);
        if open.len() > 0 {
            let piece = string_of(open.as_slice());
            let ghost old_done = done@;
            done.push(piece);
            assert(done@.map_values(|p: String| p@) =~= old_done.map_values(|p: String| p@).push(
                open@,
            ));
        }
        Ok(CertificateBundles(done))
    }

    pub fn as_ref(&self) -> (r: &Vec<String>)
        ensures
            *r == self.0,
    {
        &self.0
    }
}

impl TaskEnable {
    /// Reads a task switch: exactly `true` or `false`.
    pub fn try_from(value: String) -> (r: Result<TaskEnable, ConfigError>)
        ensures
            r is Ok <==> (value@ == "true"@ || value@ == "false"@),
            r matches Ok(t) ==> (t.0 <==> value@ == "true"@),
            r matches Err(e) ==> e == ConfigError::InvalidTaskEnable,
    {
        if value == "true".to_owned() {
            Ok(TaskEnable(true))
        } else if value == "false".to_owned() {
            Ok(TaskEnable(false))
        } else {
            Err(ConfigError::InvalidTaskEnable)
        }
    }

    pub fn as_ref(&self) -> (r: &bool)
        ensures
            *r == self.0,
    {
        &self.0
    }
}

/// The version that the service reports: the commit hash it was built from when known, else
/// its package version.
pub fn version(git_hash: Option<&str>, package_version: Option<&str>) -> (r: Result<
    String,
    ConfigError,
>)
    ensures
        git_hash matches Some(h) ==> r matches Ok(v) && v@ == h@,
        git_hash is None ==> (package_version matches Some(p) ==> r matches Ok(v) && v@ == p@),
        r is Err <==> (git_hash is None && package_version is None),
        r matches Err(e) ==> e == ConfigError::MissingVersion,
{
    match git_hash {
        Some(h) => Ok(h.to_owned()),
        None => match package_version {
            Some(p) => Ok(p.to_owned()),
            None => Err(ConfigError::MissingVersion),
        },
    }
}

/// The service's settings.
#[derive(Clone, Debug)]
pub struct Config {
    pub version: String,
    pub http_port: HttpPort,
    pub external_base: String,
    pub database_url: String,
    pub certificate_bundles: CertificateBundles,
    pub consumer_task_enable: TaskEnable,
    pub vmc_task_enable: TaskEnable,
    pub plc_hostname: String,
    pub user_agent: String,
    pub zstd_dictionary: String,
    pub jetstream_hostname: String,
    pub feeds: Feeds,
}

} // verus!
