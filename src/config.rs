//! Configuration: backends, secrets and Steam identifiers.
use vstd::prelude::*;
use crate::text::{chars_of, push_all, slice_chars, starts_with, string_of, chars_eq, parse_u32, parsed_u32};

verus! {

/// A Steam application id.
#[derive(Debug, Clone, Copy, PartialEq, Eq, Structural, Hash)]
pub struct SteamId(pub u32);

impl SteamId {
    pub fn new(id: u32) -> (r: Self)
        ensures
            r.0 == id,
    {
        SteamId(id)
    }

    pub fn id(self) -> (r: u32)
        ensures
            r == self.0,
    {
        self.0
    }
}

/// Offset between a 64-bit Steam account id and its ID-3 form.
pub const ID64_BASE: u64 = 76561197960265728;

/// A 64-bit Steam account id.
#[derive(Debug, Clone, Copy, PartialEq, Eq, Structural, Hash)]
pub struct SteamId64(pub u64);

/// The 32-bit account id of a 64-bit one: its offset from the base, kept to 32 bits.
pub open spec fn id3_of(raw: u64) -> u32 {
    ((raw as int - ID64_BASE as int) % 0x1_0000_0000) as u32
}

impl SteamId64 {
    pub fn new(id: u64) -> (r: Self)
        ensures
            r.0 == id,
    {
        SteamId64(id)
    }

    /// The account's ID-3 form.
    pub fn to_id3(self) -> (r: u32)
        ensures
            r == id3_of(self.0),
    {
        let off: u64 = self.0.wrapping_sub(ID64_BASE);
        let r = (off % 0x1_0000_0000) as u32;
        assert(r == id3_of(self.0)) by {
            assert(off as int == (self.0 as int - ID64_BASE as int) % 0x1_0000_0000_0000_0000);
        };
        r
    }
}

/// Kinds of backend a user can add.
#[derive(Debug, Clone, Copy, PartialEq, Eq, Structural)]
pub enum BackendType {
    Filesystem,
    WebDav,
}

/// Where a backend stores its objects.
#[derive(Debug, Clone)]
pub enum BackendTy {
    Filesystem { root: String },
    WebDav(WebDavInfo),
}

/// A configured backend and its name.
#[derive(Debug, Clone)]
pub struct BackendInfo {
    pub name: String,
    pub info: BackendTy,
}

#[derive(Debug, Clone)]
pub struct WebDavInfo {
    pub url: String,
    pub username: String,
    pub psk: Option<Secret>,
    pub root: String,
}

/// A password: held in the system keyring under a name, or written inline.
#[derive(Debug, Clone, PartialEq, Eq, Hash)]
pub enum Secret {
    SystemSecret(String),
    Plain(String),
}

/// The marker that sends a secret to the system keyring.
pub const SYS_SECRET_PREFIX: &'static str = "keyring:";

/// A secret read from text: with the keyring marker it names a keyring entry,
/// otherwise it is the password itself.
pub open spec fn secret_of(s: Seq<char>) -> (bool, Seq<char>) {
    let p = SYS_SECRET_PREFIX@;
    if p.len() <= s.len() && s.subrange(0, p.len() as int) == p {
        (true, s.subrange(p.len() as int, s.len() as int))
    } else {
        (false, s)
    }
}

/// Whether a secret names a keyring entry, and its text.
pub open spec fn secret_view(sec: Secret) -> (bool, Seq<char>) {
    match sec {
        Secret::SystemSecret(s) => (true, s@),
        Secret::Plain(s) => (false, s@),
    }
}

#[derive(Debug, Clone)]
pub struct SecretParseError {
    pub input: String,
}

impl Secret {
    /// Reads a secret, removing the keyring marker where it is present.
    pub fn parse(s: &str) -> (r: Secret)
        ensures
            secret_view(r) == secret_of(s@),
    {
        let v = chars_of(s);
        let p = chars_of(SYS_SECRET_PREFIX);
        if starts_with(&v, &p) {
            Secret::SystemSecret(string_of(&slice_chars(&v, p.len(), v.len())))
        } else {
            Secret::Plain(string_of(&v))
        }
    }

    /// The secret as shown to the user: its text behind the keyring marker.
    pub fn render(&self) -> (r: String)
        ensures
            r@ == SYS_SECRET_PREFIX@ + secret_view(*self).1,
    {
        let mut out = chars_of(SYS_SECRET_PREFIX);
        match self {
            Secret::SystemSecret(s) => push_all(&mut out, &chars_of(s.as_str())),
            Secret::Plain(s) => push_all(&mut out, &chars_of(s.as_str())),
        }
        string_of(&out)
    }
}

impl std::str::FromStr for Secret {
    type Err = SecretParseError;

    fn from_str(s: &str) -> Result<Self, Self::Err> {
        Ok(Secret::parse(s))
    }
}

#[derive(Debug, Clone, Copy, PartialEq, Eq, Structural)]
pub enum SteamIdParseError {
    NonNumeric,
}

impl SteamId {
    /// Reads a decimal app id.
    pub fn parse(s: &str) -> (r: Result<SteamId, SteamIdParseError>)
        ensures
            r matches Ok(id) ==> parsed_u32(s@) == Some(id.0),
            r is Err ==> parsed_u32(s@) is None,
    {
        match parse_u32(s) {
            Some(id) => Ok(SteamId(id)),
            None => Err(SteamIdParseError::NonNumeric),
        }
    }
}

impl std::str::FromStr for SteamId {
    type Err = SteamIdParseError;

    fn from_str(s: &str) -> Result<Self, Self::Err> {
        SteamId::parse(s)
    }
}

/// Per-game settings.
#[derive(Debug, Clone)]
pub struct GameInfoConfig {
    pub steam_id: Option<SteamId>,
    pub save_dirs: Vec<String>,
}

/// The configuration file: backends, the default one, and the manifest's address.
#[derive(Debug, Clone)]
pub struct Config {
    pub backends: Vec<BackendInfo>,
    pub default_backend: String,
    pub manifest_url: Option<String>,
}

/// The keyring entry a backend's password is held under, if any.
pub open spec fn keyring_id(b: BackendInfo) -> Option<Seq<char>> {
    match b.info {
        BackendTy::WebDav(w) => match w.psk {
            Some(Secret::SystemSecret(s)) => Some(s@),
            _ => None,
        },
        _ => None,
    }
}

/// The keyring entries that the first `n` backends use, in order.
pub open spec fn keyring_ids(bs: Seq<BackendInfo>, n: int) -> Seq<Seq<char>>
    decreases n,
{
    if n <= 0 {
        seq![]
    } else {
        match keyring_id(bs[n - 1]) {
            Some(id) => keyring_ids(bs, n - 1).push(id),
            None => keyring_ids(bs, n - 1),
        }
    }
}

/// The index of the first backend named `name`, if any.
pub open spec fn backend_named(bs: Seq<BackendInfo>, name: Seq<char>) -> Option<int> {
    if exists|i: int| 0 <= i < bs.len() && (#[trigger] bs[i]).name@ == name {
        let i = choose|i: int|
            0 <= i < bs.len() && (#[trigger] bs[i]).name@ == name && forall|j: int|
                0 <= j < i ==> (#[trigger] bs[j]).name@ != name;
        Some(i)
    } else {
        None
    }
}

/// The characters held by a sequence of strings.
pub open spec fn string_views(v: Seq<String>) -> Seq<Seq<char>> {
    v.map_values(|s: String| s@)
}

/// `backend_named` is the first backend with that name.
pub proof fn lemma_backend_named(bs: Seq<BackendInfo>, name: Seq<char>, i: int)
    requires
        0 <= i < bs.len(),
        bs[i].name@ == name,
        forall|j: int| 0 <= j < i ==> bs[j].name@ != name,
    ensures
        backend_named(bs, name) == Some(i),
{
    let c = choose|c: int|
        0 <= c < bs.len() && (#[trigger] bs[c]).name@ == name && forall|j: int| 0 <= j < c ==> (#[trigger] bs[j]).name@ != name;
    assert(c == i) by {
        if c < i {
            assert(bs[c].name@ != name);
        }
        if i < c {
            assert(bs[i].name@ != name);
        }
    };
}

impl Config {
    /// The keyring entries that the backends' passwords are held under, in backend order.
    pub fn used_keyring_ids(&self) -> (r: Vec<String>)
        ensures
            string_views(r@) == keyring_ids(self.backends@, self.backends@.len() as int),
    {
        let mut out: Vec<String> = Vec::new();
        let mut i: usize = 0;
        while i < self.backends.len()
            invariant
                i <= self.backends@.len(),
                string_views(out@) == keyring_ids(self.backends@, i as int),
            decreases self.backends.len() - i,
        {
            let ghost before = out@;
            match &self.backends[i].info {
                BackendTy::WebDav(w) => match &w.psk {
                    Some(Secret::SystemSecret(s)) => {
                        out.push(s.clone());
                        assert(string_views(out@) =~= string_views(before).push(s@));
                    },
                    _ => {},
                },
                _ => {},
            }
            i = i + 1;
        }
        out
    }

    /// The index of the first backend named `name`, if any.
    pub fn find_backend(&self, name: &String) -> (r: Option<usize>)
        ensures
            match r {
                Some(i) => i < self.backends@.len() && self.backends@[i as int].name@ == name@ && forall|j: int|
                    0 <= j < i ==> self.backends@[j].name@ != name@,
                None => forall|j: int| 0 <= j < self.backends@.len() ==> self.backends@[j].name@ != name@,
            },
    {
        let n = chars_of(name.as_str());
        let mut i: usize = 0;
        while i < self.backends.len()
            invariant
                n@ == name@,
                i <= self.backends@.len(),
                forall|j: int| 0 <= j < i ==> self.backends@[j].name@ != name@,
            decreases self.backends.len() - i,
        {
            if chars_eq(&chars_of(self.backends[i].name.as_str()), &n) {
                return Some(i);
            }
            i = i + 1;
        }
        None
    }
}

impl BackendInfo {
    /// A line describing the backend for the console.
    pub fn pretty_print(&self) -> (r: String)
        ensures
            r@ == match self.info {
                BackendTy::Filesystem { root } => "filesystem at '\""@ + root@ + "\"'"@,
                BackendTy::WebDav(w) => "webdav at '"@ + w.url@ + "/\""@ + w.root@ + "\"' with username "@
                    + w.username@,
            },
    {
        match &self.info {
            BackendTy::Filesystem { root } => {
                let mut out = chars_of("filesystem at '\"");
                push_all(&mut out, &chars_of(root.as_str()));
                push_all(&mut out, &chars_of("\"'"));
                string_of(&out)
            },
            BackendTy::WebDav(w) => {
                let mut out = chars_of("webdav at '");
                push_all(&mut out, &chars_of(w.url.as_str()));
                push_all(&mut out, &chars_of("/\""));
                push_all(&mut out, &chars_of(w.root.as_str()));
                push_all(&mut out, &chars_of("\"' with username "));
                push_all(&mut out, &chars_of(w.username.as_str()));
                string_of(&out)
            },
        }
    }
}

/// Whether `s` parses as an absolute URL.
pub uninterp spec fn url_is_valid(s: Seq<char>) -> bool;

/// Relies on `reqwest::Url::parse`: whether `s` parses as an absolute URL.
#[verifier::external_body]
fn url_parses(s: &str) -> (r: bool)
    ensures
        r == url_is_valid(s@),
{
    reqwest::Url::parse(s).is_ok()
}

/// What the keyring said about a backend's password.
#[derive(Debug, Clone)]
pub enum SecretLookup {
    /// The backend keeps no password in the keyring, or it was found.
    Found,
    /// The keyring has no entry of that name.
    Missing,
    /// The keyring could not be asked; the message says why.
    Failed(String),
}

/// A problem with the configuration.
#[derive(Debug, Clone)]
pub enum ConfigValidationError {
    MalformedManifestUrl,
    /// The default backend names no configured backend.
    InvalidDefaultBackend(String),
    /// A keyring entry (first) that a backend (second) uses is missing.
    SecretDoesNotExist(String, String),
    /// A backend uses the keyring, which this system lacks.
    SecretsUnavailable(String),
    /// The keyring could not be asked.
    FailedToGetSecrets(String),
}

/// A configuration problem, with its text as characters.
pub enum ConfigFault {
    MalformedManifestUrl,
    InvalidDefaultBackend(Seq<char>),
    SecretDoesNotExist(Seq<char>, Seq<char>),
    SecretsUnavailable(Seq<char>),
    FailedToGetSecrets(Seq<char>),
}

impl View for ConfigValidationError {
    type V = ConfigFault;

    open spec fn view(&self) -> ConfigFault {
        match self {
            ConfigValidationError::MalformedManifestUrl => ConfigFault::MalformedManifestUrl,
            ConfigValidationError::InvalidDefaultBackend(s) => ConfigFault::InvalidDefaultBackend(s@),
            ConfigValidationError::SecretDoesNotExist(a, b) => ConfigFault::SecretDoesNotExist(a@, b@),
            ConfigValidationError::SecretsUnavailable(s) => ConfigFault::SecretsUnavailable(s@),
            ConfigValidationError::FailedToGetSecrets(s) => ConfigFault::FailedToGetSecrets(s@),
        }
    }
}

pub open spec fn fault_views(es: Seq<ConfigValidationError>) -> Seq<ConfigFault> {
    es.map_values(|e: ConfigValidationError| e@)
}

/// The problem with backend `b`'s keyring entry, if any.
pub open spec fn secret_fault(b: BackendInfo, available: bool, lookup: SecretLookup) -> Option<ConfigFault> {
    match keyring_id(b) {
        None => None,
        Some(key) => if !available {
            Some(ConfigFault::SecretsUnavailable(b.name@))
        } else {
            match lookup {
                SecretLookup::Found => None,
                SecretLookup::Missing => Some(ConfigFault::SecretDoesNotExist(key, b.name@)),
                SecretLookup::Failed(m) => Some(ConfigFault::FailedToGetSecrets(m@)),
            }
        },
    }
}

/// The keyring problems of the first `n` backends, in order.
pub open spec fn secret_faults(bs: Seq<BackendInfo>, available: bool, lookups: Seq<SecretLookup>, n: int) -> Seq<ConfigFault>
    decreases n,
{
    if n <= 0 {
        seq![]
    } else {
        match secret_fault(bs[n - 1], available, lookups[n - 1]) {
            Some(f) => secret_faults(bs, available, lookups, n - 1).push(f),
            None => secret_faults(bs, available, lookups, n - 1),
        }
    }
}

/// Every problem with a configuration: a default naming no backend, a
/// malformed manifest URL, then each backend's keyring problem in order.
pub open spec fn config_faults(cfg: Config, available: bool, lookups: Seq<SecretLookup>) -> Seq<ConfigFault> {
    (if backend_named(cfg.backends@, cfg.default_backend@) is None {
        seq![ConfigFault::InvalidDefaultBackend(cfg.default_backend@)]
    } else {
        seq![]
    }) + (if cfg.manifest_url matches Some(u) && !url_is_valid(u@) {
        seq![ConfigFault::MalformedManifestUrl]
    } else {
        seq![]
    }) + secret_faults(cfg.backends@, available, lookups, cfg.backends@.len() as int)
}

impl Config {
    /// The problems with this configuration; `lookups[i]` is what the keyring
    /// said of backend `i`'s entry, read only where that backend uses one.
    pub fn validate(&self, secrets_available: bool, lookups: &Vec<SecretLookup>) -> (r: Vec<ConfigValidationError>)
        requires
            lookups@.len() == self.backends@.len(),
        ensures
            fault_views(r@) == config_faults(*self, secrets_available, lookups@),
    {
        let mut errs: Vec<ConfigValidationError> = Vec::new();
        let found = self.find_backend(&self.default_backend);
        proof {
            if let Some(i) = found {
                assert(self.backends@[i as int].name@ == self.default_backend@);
            }
        }
        if found.is_none() {
            errs.push(ConfigValidationError::InvalidDefaultBackend(string_of(&chars_of(self.default_backend.as_str()))));
        }
        match &self.manifest_url {
            Some(u) => if !url_parses(u.as_str()) {
                errs.push(ConfigValidationError::MalformedManifestUrl);
            },
            None => {},
        }
        let ghost head = fault_views(errs@);
        assert(head =~= (if backend_named(self.backends@, self.default_backend@) is None {
            seq![ConfigFault::InvalidDefaultBackend(self.default_backend@)]
        } else {
            seq![]
        }) + (if self.manifest_url matches Some(u) && !url_is_valid(u@) {
            seq![ConfigFault::MalformedManifestUrl]
        } else {
            seq![]
        }));
        let mut i: usize = 0;
        while i < self.backends.len()
            invariant
                lookups@.len() == self.backends@.len(),
                i <= self.backends@.len(),
                fault_views(errs@) == head + secret_faults(self.backends@, secrets_available, lookups@, i as int),
            decreases self.backends.len() - i,
        {
            let b = &self.backends[i];
            let ghost before = errs@;
            match &b.info {
                BackendTy::WebDav(w) => match &w.psk {
                    Some(Secret::SystemSecret(key)) => {
                        let e = if !secrets_available {
                            Some(ConfigValidationError::SecretsUnavailable(string_of(&chars_of(b.name.as_str()))))
                        } else {
                            match &lookups[i] {
                                SecretLookup::Found => None,
                                SecretLookup::Missing => Some(
                                    ConfigValidationError::SecretDoesNotExist(
                                        string_of(&chars_of(key.as_str())),
                                        string_of(&chars_of(b.name.as_str())),
                                    ),
                                ),
                                SecretLookup::Failed(m) => Some(
                                    ConfigValidationError::FailedToGetSecrets(string_of(&chars_of(m.as_str()))),
                                ),
                            }
                        };
                        match e {
                            Some(e) => {
                                errs.push(e);
                                assert(fault_views(errs@) =~= fault_views(before).push(e@));
                            },
                            None => {},
                        }
                    },
                    _ => {},
                },
                _ => {},
            }
            i = i + 1;
        }
        errs
    }
}

} // verus!
