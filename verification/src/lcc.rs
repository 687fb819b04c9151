//! The lockfile that a running game client writes: one line of five fields,
//! `process:pid:port:password:protocol`.

use crate::base64::{encode, encode_str};
use crate::text::{
    chars_of, decimal_nat, decimal_value, free_of, is_decimal, join, lemma_decimal_value,
    lemma_split_join, lemma_split_len, occurrences, parse_u32, split, split_fields, views,
};
use vstd::prelude::*;
use vstd::string::StringExecFns;
use vstd::utf8::encode_utf8;

verus! {

/// Why a lockfile gave no connection data.
#[derive(Clone, Copy, Debug, PartialEq, Eq, Structural)]
pub enum LeagueConnectorError {
    /// The file is missing or cannot be read.
    UnableToRead,
    /// The line does not have exactly five fields.
    FieldCount,
    /// The process id is not a decimal number that fits 32 bits.
    InvalidPid,
    /// The port is not a decimal number that fits 32 bits.
    InvalidPort,
}

/// What a lockfile says of the running client.
#[derive(Clone, Debug, PartialEq, Eq)]
pub struct RiotLockFile {
    pub process: String,
    pub pid: u32,
    pub port: u32,
    pub password: String,
    pub protocol: String,
    /// Base64 of `riot:` and the password, as HTTP Basic authentication wants it.
    pub b64_auth: String,
}

/// A lockfile's data as plain values.
pub struct LockFileView {
    pub process: Seq<char>,
    pub pid: u32,
    pub port: u32,
    pub password: Seq<char>,
    pub protocol: Seq<char>,
    pub b64_auth: Seq<char>,
}

impl RiotLockFile {
    /// The token is the one that belongs to the password.
    pub open spec fn well_formed(&self) -> bool {
        self.b64_auth@ == auth_token(self.password@)
    }
}

impl View for RiotLockFile {
    type V = LockFileView;

    open spec fn view(&self) -> LockFileView {
        LockFileView {
            process: self.process@,
            pid: self.pid,
            port: self.port,
            password: self.password@,
            protocol: self.protocol@,
            b64_auth: self.b64_auth@,
        }
    }
}

/// User name and colon that stand before the password in the credentials.
pub open spec fn credentials(password: Seq<char>) -> Seq<char> {
    "riot:"@ + password
}

/// The Basic authentication token for `password`.
pub open spec fn auth_token(password: Seq<char>) -> Seq<char> {
    encode(encode_utf8(credentials(password)))
}

/// The field is a decimal number that fits 32 bits.
pub open spec fn fits_u32(field: Seq<char>) -> bool {
    is_decimal(field) && decimal_value(field) <= u32::MAX
}

/// What the line `contents` holds, or why it is refused.
pub open spec fn parsed(contents: Seq<char>) -> Result<LockFileView, LeagueConnectorError> {
    let fields = split(contents, ':');
    if fields.len() != 5 {
        Err(LeagueConnectorError::FieldCount)
    } else if !fits_u32(fields[1]) {
        Err(LeagueConnectorError::InvalidPid)
    } else if !fits_u32(fields[2]) {
        Err(LeagueConnectorError::InvalidPort)
    } else {
        Ok(
            LockFileView {
                process: fields[0],
                pid: decimal_value(fields[1]) as u32,
                port: decimal_value(fields[2]) as u32,
                password: fields[3],
                protocol: fields[4],
                b64_auth: auth_token(fields[3]),
            },
        )
    }
}

/// The line that a client with these data writes.
pub open spec fn lockfile_line(
    process: Seq<char>,
    pid: u32,
    port: u32,
    password: Seq<char>,
    protocol: Seq<char>,
) -> Seq<char> {
    process + seq![':'] + decimal_nat(pid as nat) + seq![':'] + decimal_nat(port as nat) + seq![
        ':',
    ] + password + seq![':'] + protocol
}

/// The outcome of reading a lockfile as plain values.
pub open spec fn result_view(r: Result<RiotLockFile, LeagueConnectorError>) -> Result<
    LockFileView,
    LeagueConnectorError,
> {
    match r {
        Ok(lockfile) => Ok(lockfile@),
        Err(e) => Err(e),
    }
}

/// Reading a written line gives the data back: port, password and the rest
/// are exactly what the client wrote, and the token is that of the password.
pub proof fn lemma_parse_reads_back(
    process: Seq<char>,
    pid: u32,
    port: u32,
    password: Seq<char>,
    protocol: Seq<char>,
)
    requires
        free_of(process, ':'),
        free_of(password, ':'),
        free_of(protocol, ':'),
    ensures
        parsed(lockfile_line(process, pid, port, password, protocol)) == Ok::<
            LockFileView,
            LeagueConnectorError,
        >(
            LockFileView { process, pid, port, password, protocol, b64_auth: auth_token(password) },
        ),
{
    let fields = seq![process, decimal_nat(pid as nat), decimal_nat(port as nat), password, protocol];
    let line = lockfile_line(process, pid, port, password, protocol);
    lemma_decimal_value(pid as nat);
    lemma_decimal_value(port as nat);
    let one = fields.take(1);
    let two = fields.take(2);
    let three = fields.take(3);
    let four = fields.take(4);
    assert(join(one, ':') == process);
    assert(two.drop_last() =~= one);
    assert(join(two, ':') =~= process + seq![':'] + decimal_nat(pid as nat));
    assert(three.drop_last() =~= two);
    assert(join(three, ':') =~= join(two, ':') + seq![':'] + decimal_nat(port as nat));
    assert(four.drop_last() =~= three);
    assert(join(four, ':') =~= join(three, ':') + seq![':'] + password);
    assert(fields.drop_last() =~= four);
    assert(join(fields, ':') =~= join(four, ':') + seq![':'] + protocol);
    assert(join(fields, ':') =~= line);
    lemma_split_join(fields, ':');
}

/// A line with more or fewer than four colons is refused for its field count.
pub proof fn lemma_field_count(contents: Seq<char>)
    ensures
        occurrences(contents, ':') != 4 <==> parsed(contents) == Err::<
            LockFileView,
            LeagueConnectorError,
        >(LeagueConnectorError::FieldCount),
{
    lemma_split_len(contents, ':');
}

/// Namespace of the lockfile reader.
pub struct LeagueClientConnector {}

impl LeagueClientConnector {
    /// The Basic authentication token for `password`.
    pub fn encode_auth(password: &str) -> (token: String)
        ensures
            token@ == auth_token(password@),
    {
        let mut text = String::from_str("riot:");
        text.append(password);
        encode_str(text.as_str())
    }

    /// Reads the one line of a lockfile.
    ///
    /// The line is cut at every colon. Five fields are wanted, of which the
    /// second and third are decimal numbers that fit 32 bits; the first
    /// thing that is wrong, in this order, names the error.
    pub fn parse_lockfile(contents: &str) -> (r: Result<RiotLockFile, LeagueConnectorError>)
        ensures
            result_view(r) == parsed(contents@),
            r matches Ok(lockfile) ==> lockfile.well_formed(),
    {
        let fields = split_fields(contents, ':');
        assert(views(fields@).len() == fields.len());
        if fields.len() != 5 {
            return Err(LeagueConnectorError::FieldCount);
        }
        assert(forall|k: int| 0 <= k < 5 ==> views(fields@)[k] == fields@[k]@);
        let pid = match parse_u32(chars_of(fields[1].as_str()).as_slice()) {
            Some(pid) => pid,
            None => {
                return Err(LeagueConnectorError::InvalidPid);
            },
        };
        let port = match parse_u32(chars_of(fields[2].as_str()).as_slice()) {
            Some(port) => port,
            None => {
                return Err(LeagueConnectorError::InvalidPort);
            },
        };
        let b64_auth = Self::encode_auth(fields[3].as_str());
        Ok(
            RiotLockFile {
                process: fields[0].clone(),
                pid,
                port,
                password: fields[3].clone(),
                protocol: fields[4].clone(),
                b64_auth,
            },
        )
    }
}

} // verus!
