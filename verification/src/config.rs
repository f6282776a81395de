//! The state directory: where its files are, what they hold, and what is read
//! from them. Reading and writing is left to the caller.
use crate::device::{DeviceKeys, DeviceKeysBytes};
use crate::error::Error;
use crate::text::{chars_of, push_text};
use crate::words::{parse_u32, trim};
use vstd::prelude::*;

verus! {

/// Name of the file with the identity.
pub const IDENTITY_FILENAME: &'static str = "identity.bin";

/// Name of the file with the process id of a running daemon.
pub const PID_FILENAME: &'static str = "seednet.pid";

/// Name of the file with a status snapshot.
pub const STATUS_FILENAME: &'static str = "status.json";

/// Name of the file that says who is connected.
pub const PEERS_FILENAME: &'static str = "peers.json";

/// Name of the daemon's log.
pub const LOG_FILENAME: &'static str = "seednet.log";

/// Name of the state directory in a home directory.
pub const STATE_DIR_NAME: &'static str = ".seednet";

/// The path of a file in a directory.
pub open spec fn path_in(dir: Seq<char>, name: Seq<char>) -> Seq<char> {
    if dir.len() == 0 || dir.last() == '/' {
        dir + name
    } else {
        dir.push('/') + name
    }
}

fn join_path(dir: &str, name: &str) -> (r: String)
    ensures
        r@ == path_in(dir@, name@),
{
    let chars: Vec<char> = chars_of(dir);
    let n: usize = chars.len();
    let mut r: String = dir.to_owned();
    if n > 0 && chars[n - 1] != '/' {
        r.push('/');
    }
    push_text(&mut r, name);
    r
}

/// A file to be written: under the temporary path first, with the given
/// permissions, and then moved to its path.
#[derive(Debug, PartialEq, Eq)]
pub struct FileWrite {
    pub path: String,
    pub temp: String,
    pub bytes: Vec<u8>,
    pub mode: u32,
}

/// Whether a write puts bytes into a file of a directory, by way of a hidden file
/// beside it.
pub open spec fn writes(
    w: FileWrite,
    dir: Seq<char>,
    name: Seq<char>,
    bytes: Seq<u8>,
    mode: u32,
) -> bool {
    &&& w.path@ == path_in(dir, name)
    &&& w.temp@ == path_in(dir, "."@ + name + ".tmp"@)
    &&& w.bytes@ == bytes
    &&& w.mode == mode
}

/// The state directory of a per-user installation.
pub fn default_state_dir(home: Option<String>) -> (r: Result<String, Error>)
    ensures
        match r {
            Ok(p) => home matches Some(h) && p@ == path_in(h@, STATE_DIR_NAME@),
            Err(e) => home is None && (e matches Error::IdentityMissing(m) && m@ == "$HOME"@),
        },
{
    match home {
        Some(h) => Ok(join_path(h.as_str(), STATE_DIR_NAME)),
        None => Err(Error::IdentityMissing("$HOME".to_owned())),
    }
}

/// A state directory.
#[derive(Debug)]
pub struct StateDir {
    path: String,
}

impl Clone for StateDir {
    fn clone(&self) -> (r: StateDir)
        ensures
            r@ == self@,
    {
        StateDir { path: self.path.as_str().to_owned() }
    }
}

impl View for StateDir {
    type V = Seq<char>;

    closed spec fn view(&self) -> Seq<char> {
        self.path@
    }
}

impl StateDir {
    /// The state directory at a path.
    pub fn new(path: String) -> (r: StateDir)
        ensures
            r@ == path@,
    {
        StateDir { path }
    }

    /// The state directory in a home directory.
    pub fn default_user(home: Option<String>) -> (r: Result<StateDir, Error>)
        ensures
            match r {
                Ok(d) => home matches Some(h) && d@ == path_in(h@, STATE_DIR_NAME@),
                Err(e) => home is None && (e matches Error::IdentityMissing(m) && m@ == "$HOME"@),
            },
    {
        match default_state_dir(home) {
            Ok(path) => Ok(StateDir { path }),
            Err(e) => Err(e),
        }
    }

    /// The path of the directory.
    pub fn path(&self) -> (r: &str)
        ensures
            r@ == self@,
    {
        self.path.as_str()
    }

    /// The path of the identity file.
    pub fn identity_path(&self) -> (r: String)
        ensures
            r@ == path_in(self@, IDENTITY_FILENAME@),
    {
        join_path(self.path.as_str(), IDENTITY_FILENAME)
    }

    /// The path of the file with the process id.
    pub fn pid_path(&self) -> (r: String)
        ensures
            r@ == path_in(self@, PID_FILENAME@),
    {
        join_path(self.path.as_str(), PID_FILENAME)
    }

    /// The path of the status snapshot.
    pub fn status_path(&self) -> (r: String)
        ensures
            r@ == path_in(self@, STATUS_FILENAME@),
    {
        join_path(self.path.as_str(), STATUS_FILENAME)
    }

    /// The path of the file that says who is connected.
    pub fn peers_path(&self) -> (r: String)
        ensures
            r@ == path_in(self@, PEERS_FILENAME@),
    {
        join_path(self.path.as_str(), PEERS_FILENAME)
    }

    /// The path of the daemon's log.
    pub fn log_path(&self) -> (r: String)
        ensures
            r@ == path_in(self@, LOG_FILENAME@),
    {
        join_path(self.path.as_str(), LOG_FILENAME)
    }

    fn file_write(&self, name: &str, bytes: Vec<u8>, mode: u32) -> (r: FileWrite)
        ensures
            writes(r, self@, name@, bytes@, mode),
    {
        let mut hidden: String = ".".to_owned();
        push_text(&mut hidden, name);
        push_text(&mut hidden, ".tmp");
        FileWrite {
            path: join_path(self.path.as_str(), name),
            temp: join_path(self.path.as_str(), hidden.as_str()),
            bytes,
            mode,
        }
    }

    /// Reads an identity out of the contents of its file; none if there is no
    /// file.
    pub fn load_identity(&self, contents: Option<&[u8]>) -> (r: Result<Option<DeviceKeys>, Error>)
        ensures
            match contents {
                None => r matches Ok(None),
                Some(b) => match crate::device::identity_decoded(b@) {
                    Ok((version, seed)) => if version == 1 {
                        r matches Ok(Some(keys)) && keys.seed() == seed
                    } else {
                        r matches Err(e) && e == Error::UnsupportedIdentityVersion(version)
                    },
                    Err(cause) => r matches Err(Error::IdentityCorrupt(m)) && m@
                        == "serialization error: "@ + cause.text(),
                },
            },
    {
        let bytes: &[u8] = match contents {
            Some(b) => b,
            None => return Ok(None),
        };
        let envelope: DeviceKeysBytes = match DeviceKeysBytes::from_bytes(bytes) {
            Ok(e) => e,
            Err(e) => return Err(Error::IdentityCorrupt(e.to_text())),
        };
        match envelope.into_seed() {
            Ok(seed) => Ok(Some(DeviceKeys::from_seed(seed))),
            Err(e) => Err(e),
        }
    }

    /// The write that stores an identity, readable by its owner alone.
    pub fn save_identity(&self, keys: &DeviceKeys) -> (r: FileWrite)
        ensures
            writes(
                r,
                self@,
                IDENTITY_FILENAME@,
                crate::device::identity_bytes(1, keys.seed()),
                0o600,
            ),
    {
        self.file_write(IDENTITY_FILENAME, DeviceKeysBytes::from_keys(keys).to_bytes(), 0o600)
    }

    /// Reads an identity, or makes a random one if there is no file; in that case
    /// there is a write to do.
    pub fn load_or_create_identity(&self, contents: Option<&[u8]>) -> (r: Result<
        (DeviceKeys, Option<FileWrite>),
        Error,
    >)
        ensures
            match contents {
                None => {
                    &&& r matches Ok((keys, Some(w)))
                    &&& keys.seed().len() == 32
                    &&& writes(
                        w,
                        self@,
                        IDENTITY_FILENAME@,
                        crate::device::identity_bytes(1, keys.seed()),
                        0o600,
                    )
                },
                Some(b) => match crate::device::identity_decoded(b@) {
                    Ok((version, seed)) => if version == 1 {
                        r matches Ok((keys, None)) && keys.seed() == seed
                    } else {
                        r matches Err(e) && e == Error::UnsupportedIdentityVersion(version)
                    },
                    Err(cause) => r matches Err(Error::IdentityCorrupt(m)) && m@
                        == "serialization error: "@ + cause.text(),
                },
            },
    {
        match self.load_identity(contents) {
            Ok(Some(keys)) => Ok((keys, None)),
            Ok(None) => {
                let keys: DeviceKeys = DeviceKeys::generate();
                let w: FileWrite = self.save_identity(&keys);
                Ok((keys, Some(w)))
            },
            Err(e) => Err(e),
        }
    }

    /// The write that stores a process id.
    pub fn write_pid(&self, pid: u32) -> (r: FileWrite)
        ensures
            writes(
                r,
                self@,
                PID_FILENAME@,
                vstd::utf8::encode_utf8(crate::text::dec_text(pid as nat)),
                0o644,
            ),
    {
        let text: String = crate::text::to_dec(pid as u64);
        let bytes: Vec<u8> = crate::text::copy_bytes(text.as_str().as_bytes());
        self.file_write(PID_FILENAME, bytes, 0o644)
    }

    /// Reads a process id out of the contents of its file; none if there is no
    /// file.
    pub fn read_pid(&self, contents: Option<&str>) -> (r: Result<Option<u32>, Error>)
        ensures
            match contents {
                None => r matches Ok(None),
                Some(s) => match pid_of(s@) {
                    Ok(pid) => r matches Ok(Some(n)) && n == pid,
                    Err(cause) => r matches Err(Error::IdentityCorrupt(m)) && m@
                        == "bad pid file: "@ + cause.text(),
                },
            },
    {
        match contents {
            Some(s) => match parse_pid(s) {
                Ok(pid) => Ok(Some(pid)),
                Err(e) => {
                    let mut m: String = "bad pid file: ".to_owned();
                    push_text(&mut m, e.to_text());
                    Err(Error::IdentityCorrupt(m))
                },
            },
            None => Ok(None),
        }
    }

    /// The write that stores who is connected.
    pub fn write_peers_json(&self, json: &str) -> (r: FileWrite)
        ensures
            writes(r, self@, PEERS_FILENAME@, vstd::utf8::encode_utf8(json@), 0o644),
    {
        self.file_write(PEERS_FILENAME, crate::text::copy_bytes(json.as_bytes()), 0o644)
    }
}

/// The process id in a text.
pub open spec fn pid_of(s: Seq<char>) -> Result<u32, crate::words::NumberError> {
    crate::words::number_of(crate::words::trimmed(s))
}

/// Reads the process id in a text.
pub fn parse_pid(s: &str) -> (r: Result<u32, crate::words::NumberError>)
    ensures
        r == pid_of(s@),
{
    let chars: Vec<char> = chars_of(s);
    parse_u32(trim(chars.as_slice()))
}

proof fn lemma_digits(n: nat, i: int)
    requires
        0 <= i < crate::text::dec_text(n).len(),
    ensures
        crate::text::is_digit(crate::text::dec_text(n)[i]),
{
    crate::text::dec_round_trip(n);
}

proof fn lemma_scan_dec(n: nat)
    requires
        n <= u32::MAX,
    ensures
        crate::words::number_scan(crate::text::dec_text(n)) == Ok::<
            u32,
            crate::words::NumberError,
        >(n as u32),
    decreases n,
{
    let s = crate::text::dec_text(n);
    crate::text::dec_round_trip(n);
    assert(crate::text::is_digit(s[s.len() - 1]));
    if n < 10 {
        assert(s.drop_last() =~= Seq::<char>::empty());
        assert(crate::words::number_scan(Seq::<char>::empty()) == Ok::<
            u32,
            crate::words::NumberError,
        >(0u32));
    } else {
        lemma_scan_dec(n / 10);
        assert(s.drop_last() =~= crate::text::dec_text(n / 10));
    }
}

/// A process id is read back from the text that was written of it.
pub proof fn pid_round_trip(pid: u32)
    ensures
        pid_of(crate::text::dec_text(pid as nat)) == Ok::<u32, crate::words::NumberError>(pid),
{
    let s = crate::text::dec_text(pid as nat);
    crate::text::dec_round_trip(pid as nat);
    lemma_digits(pid as nat, 0);
    lemma_digits(pid as nat, s.len() - 1);
    assert(crate::words::trimmed_start(s) == s);
    assert(crate::words::trimmed_end(s) == s);
    lemma_scan_dec(pid as nat);
}

/// An identity is read back from the file that was written of it.
pub proof fn stored_identity_is_found(seed: Seq<u8>)
    requires
        seed.len() == 32,
    ensures
        crate::device::identity_decoded(crate::device::identity_bytes(1, seed)) == Ok::<
            (u32, Seq<u8>),
            crate::codec::DecodeError,
        >((1u32, seed)),
{
    let rest = Seq::<u8>::empty();
    crate::codec::u32_round_trip(1, seed);
    crate::codec::plain_round_trip(seed, rest);
    assert(seed + rest =~= seed);
}


/// A file lies in its directory: a slash stands between the two, and only one. Different
/// names give different paths.
pub proof fn files_lie_in_their_directory(dir: Seq<char>, a: Seq<char>, b: Seq<char>)
    ensures
        dir.len() > 0 && dir.last() != '/' ==> path_in(dir, a) == dir + seq!['/'] + a,
        dir.len() > 0 ==> path_in(dir.push('/'), a) == dir + seq!['/'] + a,
        path_in(dir, a) == path_in(dir, b) ==> a == b,
{
    if dir.len() > 0 && dir.last() != '/' {
        assert(path_in(dir, a) =~= dir + seq!['/'] + a);
    }
    assert(path_in(dir.push('/'), a) =~= dir + seq!['/'] + a);
    let n = path_in(dir, Seq::empty()).len() as int;
    assert(path_in(dir, a).skip(n) =~= a);
    assert(path_in(dir, b).skip(n) =~= b);
}

/// The process number is read back from what is written for it, with a line feed behind
/// it or blanks around it too.
pub proof fn blanks_around_a_pid_do_no_harm(pid: u32, text: Seq<char>)
    requires
        crate::words::trimmed(text) == crate::text::dec_text(pid as nat),
    ensures
        pid_of(text) == Ok::<u32, crate::words::NumberError>(pid),
{
    pid_round_trip(pid);
    let t = crate::text::dec_text(pid as nat);
    crate::words::trimming_is_final(text);
}
} // verus!
