//! The configuration that the service starts with, and its defaults.

use rand::Rng;
use std::collections::BTreeMap;
use vstd::prelude::*;

verus! {

/// A signature scheme for identity tokens. The secret of [`Auth`] is a shared key, so
/// tokens can be signed under the three HMAC schemes; under the others signing fails.
#[derive(Debug, Clone, Copy, PartialEq, Eq)]
pub enum Algorithm {
    /// HMAC using SHA-256.
    HS256,
    /// HMAC using SHA-384.
    HS384,
    /// HMAC using SHA-512.
    HS512,
    /// ECDSA using SHA-256.
    ES256,
    /// ECDSA using SHA-384.
    ES384,
    /// RSASSA-PKCS1-v1_5 using SHA-256.
    RS256,
    /// RSASSA-PKCS1-v1_5 using SHA-384.
    RS384,
    /// RSASSA-PKCS1-v1_5 using SHA-512.
    RS512,
    /// RSASSA-PSS using SHA-256.
    PS256,
    /// RSASSA-PSS using SHA-384.
    PS384,
    /// RSASSA-PSS using SHA-512.
    PS512,
    /// Edwards-curve signatures.
    EdDSA,
}

impl Algorithm {
    /// The name under which a token's header declares the algorithm.
    pub open spec fn spec_name(self) -> Seq<char> {
        match self {
            Algorithm::HS256 => "HS256"@,
            Algorithm::HS384 => "HS384"@,
            Algorithm::HS512 => "HS512"@,
            Algorithm::ES256 => "ES256"@,
            Algorithm::ES384 => "ES384"@,
            Algorithm::RS256 => "RS256"@,
            Algorithm::RS384 => "RS384"@,
            Algorithm::RS512 => "RS512"@,
            Algorithm::PS256 => "PS256"@,
            Algorithm::PS384 => "PS384"@,
            Algorithm::PS512 => "PS512"@,
            Algorithm::EdDSA => "EdDSA"@,
        }
    }

    /// No two algorithms share a name.
    pub proof fn lemma_names_differ(self, other: Algorithm)
        requires
            self != other,
        ensures
            self.spec_name() != other.spec_name(),
    {
        reveal_strlit("HS256");
        reveal_strlit("HS384");
        reveal_strlit("HS512");
        reveal_strlit("ES256");
        reveal_strlit("ES384");
        reveal_strlit("RS256");
        reveal_strlit("RS384");
        reveal_strlit("RS512");
        reveal_strlit("PS256");
        reveal_strlit("PS384");
        reveal_strlit("PS512");
        reveal_strlit("EdDSA");
        let mine = self.spec_name();
        let theirs = other.spec_name();
        if mine == theirs {
            assert(mine[0] == theirs[0]);
            assert(mine[3] == theirs[3]);
        }
    }

    /// The name under which a token's header declares the algorithm.
    pub fn name(self) -> (name: &'static str)
        ensures
            name@ == self.spec_name(),
    {
        match self {
            Algorithm::HS256 => "HS256",
            Algorithm::HS384 => "HS384",
            Algorithm::HS512 => "HS512",
            Algorithm::ES256 => "ES256",
            Algorithm::ES384 => "ES384",
            Algorithm::RS256 => "RS256",
            Algorithm::RS384 => "RS384",
            Algorithm::RS512 => "RS512",
            Algorithm::PS256 => "PS256",
            Algorithm::PS384 => "PS384",
            Algorithm::PS512 => "PS512",
            Algorithm::EdDSA => "EdDSA",
        }
    }
}

/// What the token authority signs and verifies with. It is made once at startup and
/// never changed afterwards.
#[derive(Debug)]
pub struct Auth {
    /// The one algorithm that tokens are signed with and accepted under.
    pub algorithm: Algorithm,
    /// The signing secret.
    pub secret: String,
}

impl Clone for Auth {
    fn clone(&self) -> (copy: Auth)
        ensures
            copy == *self,
    {
        Auth { algorithm: self.algorithm, secret: self.secret.clone() }
    }
}

/// The number of characters in a generated secret.
pub const SECRET_LEN: usize = 32;

/// Whether `c` is one of the ASCII letters and digits.
pub open spec fn is_alphanumeric(c: char) -> bool {
    ||| 'a' <= c <= 'z'
    ||| 'A' <= c <= 'Z'
    ||| '0' <= c <= '9'
}

/// Calls `Rng::sample` on `rand::thread_rng` with the distribution
/// `rand::distributions::Alphanumeric`, which hands out the bytes of the ASCII letters
/// and digits. Which one comes differs from call to call.
#[verifier::external_body]
fn random_alphanumeric() -> (byte: u8)
    ensures
        is_alphanumeric(byte as char),
{
    rand::thread_rng().sample(rand::distributions::Alphanumeric)
}

impl Default for Auth {
    /// HMAC-SHA-256 with a secret of `SECRET_LEN` letters and digits drawn at random.
    fn default() -> (auth: Auth)
        ensures
            auth.algorithm == Algorithm::HS256,
            auth.secret@.len() == SECRET_LEN,
            forall|i: int| 0 <= i < auth.secret@.len() ==> is_alphanumeric(auth.secret@[i]),
    {
        let mut secret = String::new();
        let mut drawn: usize = 0;
        while drawn < SECRET_LEN
            invariant
                drawn <= SECRET_LEN,
                secret@.len() == drawn,
                forall|i: int| 0 <= i < secret@.len() ==> is_alphanumeric(secret@[i]),
            decreases SECRET_LEN - drawn,
        {
            let byte = random_alphanumeric();
            secret.push(byte as char);
            drawn += 1;
        }
        Auth { algorithm: Algorithm::HS256, secret }
    }
}

/// A span of time: whole seconds and the nanoseconds beyond them.
#[derive(Debug, Clone, Copy, PartialEq, Eq)]
pub struct Period {
    pub secs: u64,
    pub nanos: u32,
}

/// How the log is written to files.
#[derive(Debug)]
pub struct FilesystemLogger {
    /// Whether the log is written to files at all.
    pub enabled: bool,
    /// The name that the log files start with.
    pub name: String,
    /// The largest number of bytes that wait to be written.
    pub max_queue_size: u64,
    /// The largest number of bytes in one log file.
    pub max_file_size: u64,
    /// The number of old log files that are kept.
    pub history_size: u64,
    /// The directory that the log files are written to.
    pub directory: String,
    /// The time between two writes.
    pub flush_period: Period,
}

impl Clone for FilesystemLogger {
    fn clone(&self) -> (copy: FilesystemLogger)
        ensures
            copy == *self,
    {
        FilesystemLogger {
            enabled: self.enabled,
            name: self.name.clone(),
            max_queue_size: self.max_queue_size,
            max_file_size: self.max_file_size,
            history_size: self.history_size,
            directory: self.directory.clone(),
            flush_period: self.flush_period,
        }
    }
}

impl Default for FilesystemLogger {
    /// Switched off; files named `log` under `./log/`, of at most 64 MiB each, eight
    /// of them kept, written every ten seconds from a queue of at most 64 MiB.
    fn default() -> (logger: FilesystemLogger)
        ensures
            !logger.enabled,
            logger.name@ == "log"@,
            logger.max_queue_size == 67108864,
            logger.max_file_size == 67108864,
            logger.history_size == 8,
            logger.directory@ == "./log/"@,
            logger.flush_period == (Period { secs: 10, nanos: 0 }),
    {
        FilesystemLogger {
            enabled: false,
            name: "log".to_owned(),
            max_queue_size: 67108864,
            max_file_size: 67108864,
            history_size: 8,
            directory: "./log/".to_owned(),
            flush_period: Period { secs: 10, nanos: 0 },
        }
    }
}

/// How much of what happens is logged, from the least to the most.
#[derive(Debug, Clone, Copy, PartialEq, Eq)]
pub enum Level {
    Error,
    Warn,
    Info,
    Debug,
    Trace,
}

/// What is logged.
#[derive(Debug, Clone, Copy, PartialEq, Eq)]
pub struct Logging {
    pub level: Level,
}

impl Logging {
    /// The level that a build logs at unless told otherwise: everything where the
    /// build checks its debug assertions, and informational messages and above where
    /// it does not.
    pub fn for_build(debug_assertions: bool) -> (logging: Logging)
        ensures
            logging.level == if debug_assertions {
                Level::Trace
            } else {
                Level::Info
            },
    {
        let level = if debug_assertions {
            Level::Trace
        } else {
            Level::Info
        };
        Logging { level }
    }
}

/// Everything that the service is configured with.
#[derive(Debug)]
pub struct Settings {
    /// The address that the service listens on, as `host:port`.
    pub listen_address: String,
    /// The address of the store, as `host:port`.
    pub database_address: String,
    /// The number of the database within the store.
    pub database_id: u8,
    /// The number of workers that handle requests.
    pub workers: u16,
    /// The seconds for which an idle connection is kept open; 0 switches this off.
    pub keep_alive: u32,
    /// The largest number of bytes accepted per kind of request body.
    pub size_limits: BTreeMap<String, u64>,
    pub logging: Logging,
    pub filesystem_logger: FilesystemLogger,
    pub auth: Auth,
}

impl Clone for Settings {
    fn clone(&self) -> (copy: Settings)
        ensures
            copy.listen_address == self.listen_address,
            copy.database_address == self.database_address,
            copy.database_id == self.database_id,
            copy.workers == self.workers,
            copy.keep_alive == self.keep_alive,
            copy.size_limits@ == self.size_limits@,
            copy.logging == self.logging,
            copy.filesystem_logger == self.filesystem_logger,
            copy.auth == self.auth,
    {
        Settings {
            listen_address: self.listen_address.clone(),
            database_address: self.database_address.clone(),
            database_id: self.database_id,
            workers: self.workers,
            keep_alive: self.keep_alive,
            size_limits: self.size_limits.clone(),
            logging: self.logging,
            filesystem_logger: self.filesystem_logger.clone(),
            auth: self.auth.clone(),
        }
    }
}

impl Settings {
    /// The settings that a build starts with unless told otherwise. The signing secret
    /// is drawn at random, so no two calls give the same.
    pub fn for_build(debug_assertions: bool) -> (settings: Settings)
        ensures
            settings.listen_address@ == "0.0.0.0:6969"@,
            settings.database_address@ == "127.0.0.1:6380"@,
            settings.database_id == 0,
            settings.workers == 4,
            settings.keep_alive == 0,
            settings.size_limits@ == Map::<String, u64>::empty(),
            settings.logging.level == if debug_assertions {
                Level::Trace
            } else {
                Level::Info
            },
            !settings.filesystem_logger.enabled,
            settings.filesystem_logger.name@ == "log"@,
            settings.filesystem_logger.max_queue_size == 67108864,
            settings.filesystem_logger.max_file_size == 67108864,
            settings.filesystem_logger.history_size == 8,
            settings.filesystem_logger.directory@ == "./log/"@,
            settings.filesystem_logger.flush_period == (Period { secs: 10, nanos: 0 }),
            settings.auth.algorithm == Algorithm::HS256,
            settings.auth.secret@.len() == SECRET_LEN,
            forall|i: int|
                0 <= i < settings.auth.secret@.len() ==> is_alphanumeric(
                    settings.auth.secret@[i],
                ),
    {
        Settings {
            listen_address: "0.0.0.0:6969".to_owned(),
            database_address: "127.0.0.1:6380".to_owned(),
            database_id: 0,
            workers: 4,
            keep_alive: 0,
            size_limits: BTreeMap::new(),
            logging: Logging::for_build(debug_assertions),
            filesystem_logger: FilesystemLogger::default(),
            auth: Auth::default(),
        }
    }
}

} // verus!
