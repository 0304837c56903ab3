//! The files in which sessions and the lock are kept: their names, their
//! contents and who may own them.
//!
//! Reading and writing is up to the program around the library; what a name
//! means, what a lock file says and which files are trusted is decided here.

use vstd::prelude::*;

use crate::error::{ErrorCode, ErrorView, Retryability, SysboostError};
use crate::ids::SessionId;
use crate::process;
use crate::process::ProcessIdentity;
use crate::session::{RecordView, SessionRecord, SessionState};
use crate::text;
use crate::transaction;

verus! {

/// Where the privileged service keeps its state.
pub const DEFAULT_STATE_ROOT: &'static str = "/run/sysboost";

/// The name of the lock file.
pub const LOCK_FILE_NAME: &'static str = ".mutating.lock";

/// The longest lock file that is read.
pub const MAX_LOCK_FILE_BYTES: usize = 256;

/// The longest record file that is read.
pub const MAX_SESSION_RECORD_BYTES: usize = 4_194_304;

/// How often the lock is tried: once more after a stale one was removed.
pub const LOCK_ATTEMPTS: u32 = 2;

/// Who must own the state directory and its files, and with which permissions.
#[derive(Clone, Copy, Debug, PartialEq, Eq, Structural)]
pub struct RuntimeStatePolicy {
    pub owner_uid: u32,
    pub owner_gid: u32,
    pub directory_mode: u32,
    pub file_mode: u32,
}

/// The policy for an owner.
pub open spec fn policy_of(uid: u32, gid: u32) -> RuntimeStatePolicy {
    RuntimeStatePolicy { owner_uid: uid, owner_gid: gid, directory_mode: 0o700, file_mode: 0o600 }
}

/// The first line with a prefix, without the prefix.
pub open spec fn line_after(lines: Seq<Seq<char>>, prefix: Seq<char>) -> Option<Seq<char>>
    decreases lines.len(),
{
    if lines.len() == 0 {
        None
    } else {
        match line_after(lines.drop_last(), prefix) {
            Some(rest) => Some(rest),
            None => if text::starts_with_spec(lines.last(), prefix) && text::words_spec(
                lines.last().skip(prefix.len() as int),
            ).len() > 0 {
                Some(lines.last().skip(prefix.len() as int))
            } else {
                None
            },
        }
    }
}

/// The first number of the first line with a prefix.
pub open spec fn status_number(status: Seq<char>, prefix: Seq<char>) -> Option<nat> {
    match line_after(text::lines_spec(status), prefix) {
        Some(rest) => text::parse_spec(text::words_spec(rest)[0], u32::MAX as nat),
        None => None,
    }
}

proof fn lemma_line_after(lines: Seq<Seq<char>>, prefix: Seq<char>, k: int)
    requires
        0 <= k <= lines.len(),
        line_after(lines.take(k), prefix) is Some,
    ensures
        line_after(lines, prefix) == line_after(lines.take(k), prefix),
    decreases lines.len(),
{
    if k < lines.len() {
        assert(lines.drop_last().take(k) =~= lines.take(k));
        lemma_line_after(lines.drop_last(), prefix, k);
    } else {
        assert(lines.take(k) =~= lines);
    }
}

fn parse_status_number(status: &str, prefix: &str) -> (r: Option<u32>)
    ensures
        match r {
            Some(n) => status_number(status@, prefix@) == Some(n as nat),
            None => status_number(status@, prefix@) is None,
        },
{
    let chars = text::chars_of(status);
    let mark = text::chars_of(prefix);
    let lines = text::lines(chars.as_slice());
    let ghost all = text::lines_spec(status@);
    let mut i: usize = 0;
    while i < lines.len()
        invariant
            i <= lines@.len(),
            mark@ == prefix@,
            all == text::lines_spec(status@),
            all == text::deep_chars(lines@),
            all.len() == lines@.len(),
            line_after(all.take(i as int), prefix@) is None,
        decreases lines@.len() - i,
    {
        let line = lines[i].as_slice();
        assert(all[i as int] == line@);
        assert(all.take(i + 1).drop_last() =~= all.take(i as int));
        assert(all.take(i + 1).last() == line@);
        if text::starts_with(line, mark.as_slice()) {
            let rest = vstd::slice::slice_subrange(line, mark.len(), line.len());
            assert(rest@ =~= line@.skip(mark@.len() as int));
            let words = text::words(rest);
            assert(text::words_spec(rest@).len() == words@.len());
            if words.len() > 0 {
                proof {
                    lemma_line_after(all, prefix@, i + 1);
                    assert(text::words_spec(rest@)[0] == words@[0]@);
                }
                return match text::parse_unsigned(words[0].as_slice(), u32::MAX as u128) {
                    Some(n) => Some(n as u32),
                    None => None,
                };
            }
        }
        i = i + 1;
    }
    assert(all.take(i as int) =~= all);
    None
}

/// The owner of a process by the text of its `status` file.
pub open spec fn credentials_spec(status: Seq<char>) -> Option<(nat, nat)> {
    match (status_number(status, "Uid:"@), status_number(status, "Gid:"@)) {
        (Some(uid), Some(gid)) => Some((uid, gid)),
        _ => None,
    }
}

impl RuntimeStatePolicy {
    /// Everything belongs to root.
    pub fn root_owned() -> (r: RuntimeStatePolicy)
        ensures
            r == policy_of(0, 0),
    {
        RuntimeStatePolicy { owner_uid: 0, owner_gid: 0, directory_mode: 0o700, file_mode: 0o600 }
    }

    /// Everything belongs to the owner of the process whose `status` file holds
    /// the given text; without one, to root.
    pub fn current_process(status: Option<&str>) -> (r: RuntimeStatePolicy)
        ensures
            r.directory_mode == 0o700,
            r.file_mode == 0o600,
            match status {
                Some(text) => match credentials_spec(text@) {
                    Some((uid, gid)) => r.owner_uid == uid && r.owner_gid == gid,
                    None => r == policy_of(0, 0),
                },
                None => r == policy_of(0, 0),
            },
    {
        match status {
            Some(text) => {
                let uid = parse_status_number(text, "Uid:");
                let gid = parse_status_number(text, "Gid:");
                match (uid, gid) {
                    (Some(owner_uid), Some(owner_gid)) => RuntimeStatePolicy {
                        owner_uid,
                        owner_gid,
                        directory_mode: 0o700,
                        file_mode: 0o600,
                    },
                    _ => RuntimeStatePolicy::root_owned(),
                }
            },
            None => RuntimeStatePolicy::root_owned(),
        }
    }
}

/// What a filesystem object is, without following links.
#[derive(Clone, Copy, Debug, PartialEq, Eq, Structural)]
pub enum ObjectKind {
    RegularFile,
    Directory,
    SymbolicLink,
    Other,
}

/// What is known of a filesystem object.
#[derive(Clone, Copy, Debug, PartialEq, Eq, Structural)]
pub struct ObjectMetadata {
    pub kind: ObjectKind,
    pub uid: u32,
    pub gid: u32,
    /// The permission bits, with set-user, set-group and sticky.
    pub permissions: u32,
    pub links: u64,
    pub identity: FileIdentity,
}

/// Which file it is, whatever its name.
#[derive(Clone, Copy, Debug, PartialEq, Eq, Structural)]
pub struct FileIdentity {
    pub device: u64,
    pub inode: u64,
}

/// Why a directory is not trusted.
pub open spec fn directory_refusal(
    metadata: ObjectMetadata,
    policy: RuntimeStatePolicy,
    description: Seq<char>,
) -> Option<ErrorView> {
    if metadata.kind != ObjectKind::Directory {
        Some(process::corrupt(description + " is not a regular directory"@))
    } else if metadata.uid != policy.owner_uid || metadata.gid != policy.owner_gid {
        Some(
            crate::error::error_view(
                ErrorCode::AuthorizationError,
                description + " owner is not authorized"@,
            ),
        )
    } else if metadata.permissions != policy.directory_mode {
        Some(process::corrupt(description + " permissions are not private"@))
    } else {
        None
    }
}

/// Why a file is not trusted.
pub open spec fn file_refusal(
    metadata: ObjectMetadata,
    policy: RuntimeStatePolicy,
    description: Seq<char>,
) -> Option<ErrorView> {
    if metadata.kind != ObjectKind::RegularFile {
        Some(process::corrupt(description + " is not a regular file"@))
    } else if metadata.uid != policy.owner_uid || metadata.gid != policy.owner_gid {
        Some(
            crate::error::error_view(
                ErrorCode::AuthorizationError,
                description + " owner is not authorized"@,
            ),
        )
    } else if metadata.permissions != policy.file_mode {
        Some(process::corrupt(description + " permissions are not private"@))
    } else if metadata.links != 1 {
        Some(process::corrupt(description + " has unexpected hard links"@))
    } else {
        None
    }
}

fn described(code: ErrorCode, description: &str, fault: &str) -> (r: SysboostError)
    ensures
        r@ == crate::error::error_view(code, description@ + fault@),
{
    let message = text::join(description, fault);
    SysboostError::new(code, message.as_str())
}

/// Whether a directory is trusted.
pub fn validate_directory_metadata(
    metadata: ObjectMetadata,
    policy: RuntimeStatePolicy,
    description: &str,
) -> (r: Result<(), SysboostError>)
    ensures
        match r {
            Ok(_) => directory_refusal(metadata, policy, description@) is None,
            Err(e) => directory_refusal(metadata, policy, description@) == Some(e@),
        },
{
    if metadata.kind != ObjectKind::Directory {
        return Err(
            described(ErrorCode::JournalCorrupt, description, " is not a regular directory"),
        );
    }
    if metadata.uid != policy.owner_uid || metadata.gid != policy.owner_gid {
        return Err(
            described(ErrorCode::AuthorizationError, description, " owner is not authorized"),
        );
    }
    if metadata.permissions != policy.directory_mode {
        return Err(
            described(ErrorCode::JournalCorrupt, description, " permissions are not private"),
        );
    }
    Ok(())
}

/// Whether a file is trusted, and which file it is.
pub fn validate_regular_file(
    metadata: ObjectMetadata,
    policy: RuntimeStatePolicy,
    description: &str,
) -> (r: Result<FileIdentity, SysboostError>)
    ensures
        match r {
            Ok(identity) => file_refusal(metadata, policy, description@) is None && identity
                == metadata.identity,
            Err(e) => file_refusal(metadata, policy, description@) == Some(e@),
        },
{
    if metadata.kind != ObjectKind::RegularFile {
        return Err(described(ErrorCode::JournalCorrupt, description, " is not a regular file"));
    }
    if metadata.uid != policy.owner_uid || metadata.gid != policy.owner_gid {
        return Err(
            described(ErrorCode::AuthorizationError, description, " owner is not authorized"),
        );
    }
    if metadata.permissions != policy.file_mode {
        return Err(
            described(ErrorCode::JournalCorrupt, description, " permissions are not private"),
        );
    }
    if metadata.links != 1 {
        return Err(described(ErrorCode::JournalCorrupt, description, " has unexpected hard links"));
    }
    Ok(metadata.identity)
}

/// How an input or output operation failed.
#[derive(Clone, Copy, Debug, PartialEq, Eq, Structural)]
pub enum IoFailure {
    PermissionDenied,
    NotFound,
    AlreadyExists,
    Other,
}

pub open spec fn io_message(failure: IoFailure) -> Seq<char> {
    match failure {
        IoFailure::PermissionDenied => "state I/O permission was denied"@,
        IoFailure::NotFound => "state I/O target was not found"@,
        IoFailure::AlreadyExists => "state I/O target already exists"@,
        IoFailure::Other => "state I/O operation failed"@,
    }
}

/// The error of a failed operation.
pub fn io_error(code: ErrorCode, failure: IoFailure) -> (r: SysboostError)
    ensures
        r@ == crate::error::error_view(code, io_message(failure)),
{
    let message = match failure {
        IoFailure::PermissionDenied => "state I/O permission was denied",
        IoFailure::NotFound => "state I/O target was not found",
        IoFailure::AlreadyExists => "state I/O target already exists",
        IoFailure::Other => "state I/O operation failed",
    };
    SysboostError::new(code, message)
}

/// What stands where a record is to be written.
#[derive(Clone, Copy, Debug, PartialEq, Eq, Structural)]
pub enum Existing {
    Present(ObjectMetadata),
    Missing,
    Unreadable(IoFailure),
}

/// Why a record may not be written.
pub open spec fn write_refusal(
    existing: Existing,
    policy: RuntimeStatePolicy,
    replace: bool,
    session_id: SessionId,
) -> Option<ErrorView> {
    let fault = match existing {
        Existing::Present(metadata) => if !replace {
            Some(
                crate::error::error_view(
                    ErrorCode::InvariantViolation,
                    "session ID is already present in the durable state root"@,
                ),
            )
        } else {
            file_refusal(metadata, policy, "session state replacement target"@)
        },
        Existing::Missing => if replace {
            Some(process::durability("session state replacement target is missing"@))
        } else {
            None
        },
        Existing::Unreadable(failure) => match failure {
            IoFailure::NotFound => if replace {
                Some(process::durability("session state replacement target is missing"@))
            } else {
                None
            },
            _ => Some(process::durability(io_message(failure))),
        },
    };
    match fault {
        Some(error) => Some(ErrorView { session: Some(session_id), ..error }),
        None => None,
    }
}

/// Whether a record may be written: a new one only where there is none, a
/// replacement only over a trusted one.
pub fn validate_target_for_write(
    existing: Existing,
    policy: RuntimeStatePolicy,
    replace: bool,
    session_id: SessionId,
) -> (r: Result<(), SysboostError>)
    ensures
        match r {
            Ok(_) => write_refusal(existing, policy, replace, session_id) is None,
            Err(e) => write_refusal(existing, policy, replace, session_id) == Some(e@),
        },
{
    let missing = match existing {
        Existing::Present(_) => false,
        Existing::Missing => true,
        Existing::Unreadable(failure) => failure == IoFailure::NotFound,
    };
    if missing {
        if replace {
            return Err(
                SysboostError::new(
                    ErrorCode::DurabilityError,
                    "session state replacement target is missing",
                ).with_session(session_id),
            );
        }
        return Ok(());
    }
    match existing {
        Existing::Present(metadata) => {
            if !replace {
                return Err(
                    SysboostError::new(
                        ErrorCode::InvariantViolation,
                        "session ID is already present in the durable state root",
                    ).with_session(session_id),
                );
            }
            match validate_regular_file(metadata, policy, "session state replacement target") {
                Ok(_) => Ok(()),
                Err(e) => Err(e.with_session(session_id)),
            }
        },
        Existing::Missing => Ok(()),
        Existing::Unreadable(failure) => Err(
            io_error(ErrorCode::DurabilityError, failure).with_session(session_id),
        ),
    }
}

/// A session is never created over another one.
pub proof fn records_are_not_overwritten(
    metadata: ObjectMetadata,
    policy: RuntimeStatePolicy,
    session_id: SessionId,
)
    ensures
        write_refusal(Existing::Present(metadata), policy, false, session_id) is Some,
{
}

/// Whether the place where the state directory is to be made can hold it. A
/// directory that is the root of everything stands nowhere.
pub fn check_parent(parent: Option<Existing>) -> (r: Result<(), SysboostError>)
    ensures
        crate::cpu::failure(r) == parent_refusal(parent),
{
    match parent {
        None => Err(
            SysboostError::new(
                ErrorCode::DurabilityError,
                "runtime state root has no trusted parent",
            ),
        ),
        Some(Existing::Present(metadata)) => if metadata.kind == ObjectKind::Directory {
            Ok(())
        } else {
            Err(
                SysboostError::new(
                    ErrorCode::JournalCorrupt,
                    "runtime state root parent is not a directory",
                ),
            )
        },
        Some(Existing::Missing) => Err(io_error(ErrorCode::DurabilityError, IoFailure::NotFound)),
        Some(Existing::Unreadable(failure)) => Err(io_error(ErrorCode::DurabilityError, failure)),
    }
}

/// Why the state directory cannot be made in a place, if it cannot.
pub open spec fn parent_refusal(parent: Option<Existing>) -> Option<ErrorView> {
    match parent {
        None => Some(process::durability("runtime state root has no trusted parent"@)),
        Some(Existing::Present(metadata)) => if metadata.kind == ObjectKind::Directory {
            None
        } else {
            Some(process::corrupt("runtime state root parent is not a directory"@))
        },
        Some(Existing::Missing) => Some(process::durability(io_message(IoFailure::NotFound))),
        Some(Existing::Unreadable(failure)) => Some(process::durability(io_message(failure))),
    }
}

/// Whether a file is still the one that was held, so that it may be removed.
pub fn may_remove(found: ObjectMetadata, held: FileIdentity) -> (r: bool)
    ensures
        r == (found.kind == ObjectKind::RegularFile && found.identity == held),
{
    found.kind == ObjectKind::RegularFile && found.identity == held
}

/// The value of a hexadecimal digit of either case.
pub open spec fn hex_digit(c: char) -> Option<nat> {
    if '0' <= c <= '9' {
        Some((c as u32 - '0' as u32) as nat)
    } else if 'a' <= c <= 'f' {
        Some((c as u32 - 'a' as u32 + 10) as nat)
    } else if 'A' <= c <= 'F' {
        Some((c as u32 - 'A' as u32 + 10) as nat)
    } else {
        None
    }
}

/// Sixteen bytes from thirty-two hexadecimal digits.
pub open spec fn hex16_spec(s: Seq<char>) -> Option<Seq<u8>> {
    if s.len() == 32 && forall|i: int| 0 <= i < 32 ==> hex_digit(#[trigger] s[i]) is Some {
        Some(
            Seq::new(
                16,
                |i: int| (16 * hex_digit(s[2 * i])->0 + hex_digit(s[2 * i + 1])->0) as u8,
            ),
        )
    } else {
        None
    }
}

fn digit_of(c: char) -> (r: Option<u8>)
    ensures
        match r {
            Some(n) => hex_digit(c) == Some(n as nat) && n < 16,
            None => hex_digit(c) is None,
        },
{
    if '0' <= c && c <= '9' {
        Some((c as u32 - '0' as u32) as u8)
    } else if 'a' <= c && c <= 'f' {
        Some((c as u32 - 'a' as u32 + 10) as u8)
    } else if 'A' <= c && c <= 'F' {
        Some((c as u32 - 'A' as u32 + 10) as u8)
    } else {
        None
    }
}

/// Sixteen bytes from thirty-two hexadecimal digits.
pub fn decode_hex_16(s: &[char]) -> (r: Option<[u8; 16]>)
    ensures
        match r {
            Some(bytes) => hex16_spec(s@) == Some(bytes@),
            None => hex16_spec(s@) is None,
        },
{
    if s.len() != 32 {
        return None;
    }
    let mut out: [u8; 16] = [0u8; 16];
    let mut i: usize = 0;
    while i < 16
        invariant
            i <= 16,
            s@.len() == 32,
            forall|j: int| 0 <= j < 2 * i ==> hex_digit(#[trigger] s@[j]) is Some,
            forall|j: int|
                0 <= j < i ==> #[trigger] out@[j] == (16 * hex_digit(s@[2 * j])->0 + hex_digit(
                    s@[2 * j + 1],
                )->0) as u8,
        decreases 16 - i,
    {
        let high: u8 = match digit_of(s[2 * i]) {
            Some(n) => n,
            None => {
                assert(hex_digit(s@[2 * i]) is None);
                return None;
            },
        };
        let low: u8 = match digit_of(s[2 * i + 1]) {
            Some(n) => n,
            None => {
                assert(hex_digit(s@[2 * i + 1]) is None);
                return None;
            },
        };
        out[i] = 16 * high + low;
        i = i + 1;
    }
    assert(out@ =~= hex16_spec(s@)->0);
    Some(out)
}

/// Reading hexadecimal digits gives back the bytes that were written.
pub proof fn hex_round_trip(bytes: Seq<u8>)
    requires
        bytes.len() == 16,
    ensures
        hex16_spec(text::hex_spec(bytes)) == Some(bytes),
{
    let s = text::hex_spec(bytes);
    assert forall|i: int| 0 <= i < 32 implies hex_digit(#[trigger] s[i]) == Some(
        if i % 2 == 0 {
            bytes[i / 2] as nat / 16
        } else {
            bytes[i / 2] as nat % 16
        },
    ) by {
        let n: nat = if i % 2 == 0 {
            bytes[i / 2] as nat / 16
        } else {
            bytes[i / 2] as nat % 16
        };
        assert(n < 16);
        lemma_hex_char(n);
    }
    assert forall|i: int| 0 <= i < 16 implies #[trigger] hex16_spec(s)->0[i] == bytes[i] by {
        assert(hex_digit(s[2 * i]) == Some(bytes[i] as nat / 16));
        assert(hex_digit(s[2 * i + 1]) == Some(bytes[i] as nat % 16));
        assert(16 * (bytes[i] as nat / 16) + bytes[i] as nat % 16 == bytes[i]);
    }
    assert(hex16_spec(s)->0 =~= bytes);
}

proof fn lemma_hex_char(n: nat)
    requires
        n < 16,
    ensures
        hex_digit(text::hex_char(n)) == Some(n),
        text::hex_char(n) != '\n',
        text::hex_char(n) != '.',
        text::hex_char(n) != '\r',
{
    let c = text::hex_char(n);
    if n < 10 {
        assert(c as u32 == 0x30 + n);
    } else {
        assert(c as u32 == 0x61 + n - 10);
    }
}

/// Where a text first occurs in another, from a position on.
pub open spec fn find_from(s: Seq<char>, part: Seq<char>, i: int) -> Option<int>
    decreases s.len() + 1 - i,
{
    if i < 0 || i + part.len() > s.len() {
        None
    } else if s.subrange(i, i + part.len()) == part {
        Some(i)
    } else {
        find_from(s, part, i + 1)
    }
}

fn find_text(s: &[char], part: &[char]) -> (r: Option<usize>)
    ensures
        match r {
            Some(i) => find_from(s@, part@, 0) == Some(i as int) && i + part@.len() <= s@.len(),
            None => find_from(s@, part@, 0) is None,
        },
{
    let mut i: usize = 0;
    while i <= s.len() && part.len() <= s.len() - i
        invariant
            i <= s.len(),
            find_from(s@, part@, 0) == find_from(s@, part@, i as int),
        decreases s.len() - i,
    {
        let window = vstd::slice::slice_subrange(s, i, i + part.len());
        if text::same_chars(window, part) {
            return Some(i);
        }
        if i == s.len() {
            assert(window@ =~= part@);
            return None;
        }
        i = i + 1;
    }
    None
}

proof fn lemma_find_from(s: Seq<char>, part: Seq<char>, i: int, k: int)
    requires
        0 <= i <= k,
        k + part.len() <= s.len(),
        s.subrange(k, k + part.len()) == part,
        part.len() > 0,
        forall|j: int| i <= j < k ==> #[trigger] s[j] != part[0],
    ensures
        find_from(s, part, i) == Some(k),
    decreases k - i,
{
    if i < k {
        assert(s.subrange(i, i + part.len())[0] == s[i]);
        lemma_find_from(s, part, i + 1, k);
    }
}

/// The name of the file with a session's record.
pub open spec fn state_name_spec(session_id: Seq<u8>) -> Seq<char> {
    text::hex_spec(session_id) + ".state"@
}

/// The name of the file with a session's record.
pub fn state_name(session_id: SessionId) -> (r: String)
    ensures
        r@ == state_name_spec(session_id.bytes@),
{
    let hex = text::hex(&session_id.bytes);
    text::join(hex.as_str(), ".state")
}

/// The name of a file with a record that is being written.
pub open spec fn temporary_name_spec(session_id: Seq<u8>, pid: nat, tick: nat) -> Seq<char> {
    "."@ + text::hex_spec(session_id) + ".state.tmp."@ + text::decimal_spec(pid) + "."@
        + text::decimal_spec(tick)
}

/// The name of a file with a record that is being written.
pub fn temporary_name(session_id: SessionId, pid: u32, tick: u128) -> (r: String)
    ensures
        r@ == temporary_name_spec(session_id.bytes@, pid as nat, tick as nat),
{
    let hex = text::hex(&session_id.bytes);
    let mut out = ".".to_string();
    out.append(hex.as_str());
    out.append(".state.tmp.");
    let pid = text::decimal(pid as u128);
    out.append(pid.as_str());
    out.append(".");
    let tick = text::decimal(tick);
    out.append(tick.as_str());
    out
}

/// Whether a name is that of a record that is being written: a session, a
/// process and a moment.
pub open spec fn temporary_spec(name: Seq<char>) -> bool {
    if name.len() == 0 || name[0] != '.' {
        false
    } else {
        let rest = name.skip(1);
        match find_from(rest, ".state.tmp."@, 0) {
            None => false,
            Some(i) => {
                let suffix = rest.skip(i + ".state.tmp."@.len());
                let dot = text::find_spec(suffix, '.');
                &&& dot < suffix.len()
                &&& hex16_spec(rest.take(i)) is Some
                &&& text::parse_spec(suffix.take(dot), u32::MAX as nat) is Some
                &&& text::parse_spec(suffix.take(dot), u32::MAX as nat) != Some(0nat)
                &&& text::parse_spec(suffix.skip(dot + 1), u128::MAX as nat) is Some
            },
        }
    }
}

/// Whether a name is that of a record that is being written.
pub fn is_valid_temporary_name(name: &str) -> (r: bool)
    ensures
        r == temporary_spec(name@),
{
    let chars = text::chars_of(name);
    if chars.len() == 0 || chars[0] != '.' {
        return false;
    }
    let rest = vstd::slice::slice_subrange(chars.as_slice(), 1, chars.len());
    assert(rest@ =~= name@.skip(1));
    let mark = text::chars_of(".state.tmp.");
    let at: usize = match find_text(rest, mark.as_slice()) {
        Some(i) => i,
        None => {
            return false;
        },
    };
    let session = vstd::slice::slice_subrange(rest, 0, at);
    assert(session@ =~= rest@.take(at as int));
    let suffix = vstd::slice::slice_subrange(rest, at + mark.len(), rest.len());
    assert(suffix@ =~= rest@.skip(at + mark@.len()));
    let dot: usize = text::find(suffix, '.');
    if dot >= suffix.len() {
        return false;
    }
    let pid = vstd::slice::slice_subrange(suffix, 0, dot);
    assert(pid@ =~= suffix@.take(dot as int));
    let tick = vstd::slice::slice_subrange(suffix, dot + 1, suffix.len());
    assert(tick@ =~= suffix@.skip(dot + 1));
    let known = decode_hex_16(session).is_some();
    let process = match text::parse_unsigned(pid, u32::MAX as u128) {
        Some(value) => value != 0,
        None => false,
    };
    let moment = text::parse_unsigned(tick, u128::MAX).is_some();
    known && process && moment
}

/// A name that is made for a record that is being written is taken for one.
pub proof fn temporary_names_are_valid(session_id: Seq<u8>, pid: nat, tick: nat)
    requires
        session_id.len() == 16,
        0 < pid <= u32::MAX,
        tick <= u128::MAX,
    ensures
        temporary_spec(temporary_name_spec(session_id, pid, tick)),
{
    reveal_strlit(".");
    reveal_strlit(".state.tmp.");
    let mark = ".state.tmp."@;
    let hex = text::hex_spec(session_id);
    let p = text::decimal_spec(pid);
    let t = text::decimal_spec(tick);
    let name = temporary_name_spec(session_id, pid, tick);
    let rest = name.skip(1);
    assert(rest =~= hex + mark + p + "."@ + t);
    assert(rest.subrange(32, 32int + mark.len()) =~= mark);
    assert forall|j: int| 0 <= j < 32 implies #[trigger] rest[j] != mark[0] by {
        lemma_hex_plain(session_id, j);
        assert(rest[j] == hex[j]);
    }
    lemma_find_from(rest, mark, 0, 32);
    assert(rest.take(32) =~= hex);
    hex_round_trip(session_id);
    let suffix = rest.skip(32int + mark.len());
    assert(suffix =~= p + "."@ + t);
    text::lemma_decimal(pid);
    text::lemma_decimal(tick);
    assert forall|j: int| 0 <= j < p.len() implies suffix[j] != '.' by {
        assert(text::is_digit(p[j]));
    }
    text::lemma_find(suffix, '.', p.len() as int);
    assert(suffix.take(p.len() as int) =~= p);
    assert(suffix.skip(p.len() as int + 1) =~= t);
    text::decimal_round_trip(pid, u32::MAX as nat);
    text::decimal_round_trip(tick, u128::MAX as nat);
}

proof fn lemma_hex_plain(bytes: Seq<u8>, i: int)
    requires
        0 <= i < 2 * bytes.len(),
    ensures
        text::hex_spec(bytes)[i] != '.',
        text::hex_spec(bytes)[i] != '\n',
        text::hex_spec(bytes)[i] != '\r',
{
    let n: nat = if i % 2 == 0 {
        bytes[i / 2] as nat / 16
    } else {
        bytes[i / 2] as nat % 16
    };
    assert(n < 16);
    lemma_hex_char(n);
}

pub open spec fn ends_with_spec(s: Seq<char>, suffix: Seq<char>) -> bool {
    suffix.len() <= s.len() && s.skip(s.len() - suffix.len()) == suffix
}

fn ends_with(s: &[char], suffix: &[char]) -> (r: bool)
    ensures
        r == ends_with_spec(s@, suffix@),
{
    if suffix.len() > s.len() {
        return false;
    }
    let tail = vstd::slice::slice_subrange(s, s.len() - suffix.len(), s.len());
    assert(tail@ =~= s@.skip(s@.len() - suffix@.len()));
    text::same_chars(tail, suffix)
}

/// A text without a suffix, as often as it stands there.
pub open spec fn without_suffix(s: Seq<char>, suffix: Seq<char>) -> Seq<char>
    decreases s.len(),
{
    if suffix.len() > 0 && ends_with_spec(s, suffix) {
        without_suffix(s.take(s.len() - suffix.len()), suffix)
    } else {
        s
    }
}

fn strip_suffix<'a>(s: &'a [char], suffix: &[char]) -> (r: &'a [char])
    requires
        suffix@.len() > 0,
    ensures
        r@ == without_suffix(s@, suffix@),
{
    let mut end: usize = s.len();
    assert(s@.take(end as int) =~= s@);
    loop
        invariant
            end <= s.len(),
            suffix@.len() > 0,
            without_suffix(s@, suffix@) == without_suffix(s@.take(end as int), suffix@),
        decreases end,
    {
        let head = vstd::slice::slice_subrange(s, 0, end);
        assert(head@ =~= s@.take(end as int));
        if !ends_with(head, suffix) {
            return head;
        }
        assert(head@.take(head@.len() - suffix@.len()) =~= s@.take(end - suffix@.len()));
        end = end - suffix.len();
    }
}

/// What a file in the state directory is.
#[derive(Clone, Copy, Debug, PartialEq, Eq)]
pub enum StateEntry {
    Lock,
    /// A record that was being written.
    Temporary,
    Record(SessionId),
}

/// What a file in the state directory is, as plain values.
#[verifier::ext_equal]
pub enum EntryView {
    Lock,
    Temporary,
    Record(Seq<u8>),
}

impl View for StateEntry {
    type V = EntryView;

    open spec fn view(&self) -> EntryView {
        match *self {
            StateEntry::Lock => EntryView::Lock,
            StateEntry::Temporary => EntryView::Temporary,
            StateEntry::Record(session_id) => EntryView::Record(session_id.bytes@),
        }
    }
}

/// What a file in the state directory is, by its name.
pub open spec fn entry_spec(name: Seq<char>, regular: bool) -> Result<EntryView, ErrorView> {
    if name == LOCK_FILE_NAME@ {
        Ok(EntryView::Lock)
    } else if name.len() > 0 && name[0] == '.' && text::contains_spec(name, ".state.tmp."@) {
        if temporary_spec(name) {
            Ok(EntryView::Temporary)
        } else {
            Err(process::corrupt("temporary runtime state filename is malformed"@))
        }
    } else if !ends_with_spec(name, ".state"@) {
        Err(process::corrupt("runtime state contains an unexpected filesystem object"@))
    } else if !regular {
        Err(process::corrupt("session state entry is not a regular file"@))
    } else {
        match hex16_spec(without_suffix(name, ".state"@)) {
            Some(bytes) => Ok(EntryView::Record(bytes)),
            None => Err(process::corrupt("session state filename is not a valid session ID"@)),
        }
    }
}

/// What a file in the state directory is, by its name; nothing else may be
/// there.
pub fn classify_entry(name: Option<&str>, kind: ObjectKind) -> (r: Result<
    StateEntry,
    SysboostError,
>)
    ensures
        match name {
            Some(name) => crate::error::viewed(r) == entry_spec(
                name@,
                kind == ObjectKind::RegularFile,
            ),
            None => r is Err && r->Err_0@ == process::corrupt(
                "runtime state contains a non-text object name"@,
            ),
        },
{
    let name = match name {
        Some(name) => name,
        None => {
            return Err(
                SysboostError::new(
                    ErrorCode::JournalCorrupt,
                    "runtime state contains a non-text object name",
                ),
            );
        },
    };
    if text::same(name, LOCK_FILE_NAME) {
        return Ok(StateEntry::Lock);
    }
    let chars = text::chars_of(name);
    let mark = text::chars_of(".state.tmp.");
    if chars.len() > 0 && chars[0] == '.' && text::contains(chars.as_slice(), mark.as_slice()) {
        return if is_valid_temporary_name(name) {
            Ok(StateEntry::Temporary)
        } else {
            Err(
                SysboostError::new(
                    ErrorCode::JournalCorrupt,
                    "temporary runtime state filename is malformed",
                ),
            )
        };
    }
    let suffix = text::chars_of(".state");
    if !ends_with(chars.as_slice(), suffix.as_slice()) {
        return Err(
            SysboostError::new(
                ErrorCode::JournalCorrupt,
                "runtime state contains an unexpected filesystem object",
            ),
        );
    }
    if kind != ObjectKind::RegularFile {
        return Err(
            SysboostError::new(
                ErrorCode::JournalCorrupt,
                "session state entry is not a regular file",
            ),
        );
    }
    proof {
        reveal_strlit(".state");
    }
    match decode_hex_16(strip_suffix(chars.as_slice(), suffix.as_slice())) {
        Some(bytes) => Ok(StateEntry::Record(SessionId { bytes })),
        None => Err(
            SysboostError::new(
                ErrorCode::JournalCorrupt,
                "session state filename is not a valid session ID",
            ),
        ),
    }
}

/// The file of a session's record is found again by its name.
pub proof fn records_are_found_again(session_id: Seq<u8>)
    requires
        session_id.len() == 16,
    ensures
        entry_spec(state_name_spec(session_id), true) == Ok::<EntryView, ErrorView>(
            EntryView::Record(session_id),
        ),
{
    reveal_strlit(".state");
    reveal_strlit(".mutating.lock");
    let hex = text::hex_spec(session_id);
    let suffix = ".state"@;
    let name = state_name_spec(session_id);
    lemma_hex_plain(session_id, 0);
    assert(name[0] == hex[0]);
    assert(LOCK_FILE_NAME@[0] == '.');
    assert(name.skip(name.len() - suffix.len()) =~= suffix);
    assert(name.take(name.len() - suffix.len()) =~= hex);
    assert(!ends_with_spec(hex, suffix)) by {
        lemma_hex_plain(session_id, 26);
        assert(hex.skip(26)[0] == hex[26]);
    }
    assert(without_suffix(hex, suffix) == hex);
    assert(without_suffix(name, suffix) == without_suffix(hex, suffix));
    hex_round_trip(session_id);
}

/// Whether a record is that of the session that was asked for.
pub fn check_record_identity(record: &SessionRecord, expected: SessionId) -> (r: Result<
    (),
    SysboostError,
>)
    ensures
        r is Ok <==> record.session_id == expected,
        r is Err ==> r->Err_0@ == process::corrupt(
            "session state identity does not match its requested ID"@,
        ),
{
    if record.session_id.same(&expected) {
        Ok(())
    } else {
        Err(
            SysboostError::new(
                ErrorCode::JournalCorrupt,
                "session state identity does not match its requested ID",
            ),
        )
    }
}

/// Whether a file is short enough to be read.
pub fn check_length(length: usize, maximum: usize) -> (r: Result<(), SysboostError>)
    ensures
        r is Ok <==> length <= maximum,
        r is Err ==> r->Err_0@ == process::corrupt("runtime state file exceeds its decoder bound"@),
{
    if length > maximum {
        Err(
            SysboostError::new(
                ErrorCode::JournalCorrupt,
                "runtime state file exceeds its decoder bound",
            ),
        )
    } else {
        Ok(())
    }
}

/// The records of sessions that are not proven restored.
pub open spec fn unrestored(records: Seq<RecordView>) -> Seq<RecordView>
    decreases records.len(),
{
    if records.len() == 0 {
        records
    } else if records.last().state == SessionState::Restored {
        unrestored(records.drop_last())
    } else {
        unrestored(records.drop_last()).push(records.last())
    }
}

proof fn lemma_unrestored(records: Seq<RecordView>)
    ensures
        unrestored(records).to_multiset() == records.to_multiset().filter(
            |record: RecordView| record.state != SessionState::Restored,
        ),
    decreases records.len(),
{
    broadcast use vstd::seq_lib::group_to_multiset_ensures;
    broadcast use vstd::multiset::group_multiset_axioms;

    let keeps = |record: RecordView| record.state != SessionState::Restored;
    if records.len() > 0 {
        let rest = records.drop_last();
        let last = records.last();
        lemma_unrestored(rest);
        assert(records =~= rest.push(last));
        assert(records.to_multiset() =~= rest.to_multiset().insert(last));
        if keeps(last) {
            assert(records.to_multiset().filter(keeps) =~= rest.to_multiset().filter(keeps).insert(
                last,
            ));
        } else {
            assert(records.to_multiset().filter(keeps) =~= rest.to_multiset().filter(keeps));
        }
    } else {
        assert(records.to_multiset().filter(keeps) =~= records.to_multiset());
    }
}

/// A session is unfinished unless its record says that it is restored: whatever else the
/// record says, it is listed, once for each time that it is stored, and nothing else is.
/// The list is in ascending order of the session identities.
pub proof fn no_unfinished_session_is_left_out(records: Seq<RecordView>)
    ensures
        ({
            let listed = transaction::by_session(unrestored(records));
            &&& listed.to_multiset() == records.to_multiset().filter(
                |record: RecordView| record.state != SessionState::Restored,
            )
            &&& forall|i: int|
                0 <= i < records.len() && (#[trigger] records[i]).state != SessionState::Restored
                    ==> listed.contains(records[i])
            &&& forall|i: int|
                0 <= i < listed.len() ==> (#[trigger] listed[i]).state != SessionState::Restored
                    && records.contains(listed[i])
            &&& forall|i: int, j: int|
                0 <= i < j < listed.len() ==> crate::bytes::be_value(
                    (#[trigger] listed[i]).session_id.bytes@,
                ) <= crate::bytes::be_value((#[trigger] listed[j]).session_id.bytes@)
        }),
{
    broadcast use vstd::seq_lib::group_to_multiset_ensures;
    broadcast use vstd::multiset::group_multiset_axioms;

    let listed = transaction::by_session(unrestored(records));
    lemma_unrestored(records);
    transaction::recovery_order(unrestored(records));
    assert forall|i: int| 0 <= i < records.len() && (#[trigger] records[i]).state
        != SessionState::Restored implies listed.contains(records[i]) by {
        assert(records.contains(records[i]));
        assert(records.to_multiset().count(records[i]) > 0);
        assert(listed.to_multiset().count(records[i]) > 0);
    }
    assert forall|i: int| 0 <= i < listed.len() implies (#[trigger] listed[i]).state
        != SessionState::Restored && records.contains(listed[i]) by {
        assert(listed.contains(listed[i]));
        assert(listed.to_multiset().count(listed[i]) > 0);
        assert(records.to_multiset().count(listed[i]) > 0);
    }
}

/// The records of sessions that are not proven restored, in the order of their
/// sessions.
pub fn unfinished(records: Vec<SessionRecord>) -> (r: Vec<SessionRecord>)
    ensures
        crate::state::records_view(r@) == transaction::by_session(
            unrestored(crate::state::records_view(records@)),
        ),
        forall|i: int|
            0 <= i < records@.len() && (#[trigger] records@[i]).state != SessionState::Restored
                ==> crate::state::records_view(r@).contains(records@[i]@),
        forall|i: int|
            0 <= i < r@.len() ==> (#[trigger] r@[i]).state != SessionState::Restored
                && crate::state::records_view(records@).contains(r@[i]@),
{
    let ghost all = crate::state::records_view(records@);
    let mut rest = records;
    let mut kept: Vec<SessionRecord> = Vec::new();
    let n: usize = rest.len();
    let mut i: usize = 0;
    proof {
        assert(all.take(0) =~= Seq::empty());
        assert(all.skip(0) =~= all);
        assert(crate::state::records_view(kept@) =~= Seq::empty());
    }
    while i < n
        invariant
            i <= n,
            n == all.len(),
            rest@.len() == n - i,
            crate::state::records_view(rest@) == all.skip(i as int),
            crate::state::records_view(kept@) == unrestored(all.take(i as int)),
        decreases n - i,
    {
        let ghost before = rest@;
        let record = rest.remove(0);
        proof {
            assert(crate::state::records_view(before)[0] == all[i as int]);
            assert(record@ == all[i as int]);
            assert(crate::state::records_view(rest@) =~= crate::state::records_view(before).skip(1));
            assert(all.skip(i as int).skip(1) =~= all.skip(i + 1));
            assert(all.take(i + 1).drop_last() =~= all.take(i as int));
        }
        let ghost earlier = crate::state::records_view(kept@);
        if record.state != SessionState::Restored {
            let ghost added = record@;
            kept.push(record);
            assert(crate::state::records_view(kept@) =~= earlier.push(added));
        }
        i = i + 1;
    }
    assert(all.take(n as int) =~= all);
    let r = transaction::sort_records(kept);
    proof {
        no_unfinished_session_is_left_out(all);
        assert forall|i: int| 0 <= i < records@.len() && (#[trigger] records@[i]).state
            != SessionState::Restored implies crate::state::records_view(r@).contains(
            records@[i]@,
        ) by {
            assert(all[i] == records@[i]@);
        }
        assert forall|i: int| 0 <= i < r@.len() implies (#[trigger] r@[i]).state
            != SessionState::Restored && all.contains(r@[i]@) by {
            assert(crate::state::records_view(r@)[i] == r@[i]@);
        }
    }
    r
}

/// The lines of a lock file.
pub open spec fn lock_lines(owner: ProcessIdentity) -> Seq<Seq<char>> {
    seq![
        "version=1"@,
        "pid="@ + text::decimal_spec(owner.pid as nat),
        "start="@ + text::decimal_spec(owner.generation as nat),
        "boot="@ + text::hex_spec(owner.boot_id@),
        Seq::<char>::empty(),
    ]
}

/// The text of a lock file.
pub open spec fn lock_text(owner: ProcessIdentity) -> Seq<char> {
    text::join_spec(lock_lines(owner), '\n')
}

/// The bytes of a lock file.
pub fn encode_lock_owner(owner: ProcessIdentity) -> (r: Vec<u8>)
    ensures
        r@ == vstd::utf8::encode_utf8(lock_text(owner)),
{
    let pid = text::decimal(owner.pid as u128);
    let start = text::decimal(owner.generation as u128);
    let boot = text::hex(&owner.boot_id);
    let mut out = "version=1\npid=".to_string();
    out.append(pid.as_str());
    out.append("\nstart=");
    out.append(start.as_str());
    out.append("\nboot=");
    out.append(boot.as_str());
    out.append("\n");
    proof {
        reveal_strlit("version=1\npid=");
        reveal_strlit("version=1");
        reveal_strlit("pid=");
        reveal_strlit("\nstart=");
        reveal_strlit("start=");
        reveal_strlit("\nboot=");
        reveal_strlit("boot=");
        reveal_strlit("\n");
        let lines = lock_lines(owner);
        reveal_with_fuel(text::join_spec, 6);
        let l4 = lines.drop_last();
        let l3 = l4.drop_last();
        let l2 = l3.drop_last();
        let l1 = l2.drop_last();
        assert(l1.len() == 1);
        assert(text::join_spec(l1, '\n') == lines[0]);
        assert(text::join_spec(l2, '\n') =~= lines[0].push('\n') + lines[1]);
        assert(text::join_spec(l3, '\n') =~= text::join_spec(l2, '\n').push('\n') + lines[2]);
        assert(text::join_spec(l4, '\n') =~= text::join_spec(l3, '\n').push('\n') + lines[3]);
        assert(lock_text(owner) =~= text::join_spec(l4, '\n').push('\n'));
        assert(out@ =~= lock_text(owner));
    }
    text::bytes_of(out.as_str())
}

/// The value of a field of a lock file.
pub open spec fn lock_field(line: Seq<char>, prefix: Seq<char>) -> Option<Seq<char>> {
    if text::starts_with_spec(line, prefix) && line.len() > prefix.len() {
        Some(line.skip(prefix.len() as int))
    } else {
        None
    }
}

pub open spec fn bad_field() -> ErrorView {
    process::corrupt("lock metadata field is invalid"@)
}

/// The owner that the lines of a lock file name.
pub open spec fn lock_owner_of(lines: Seq<Seq<char>>) -> Result<(nat, nat, Seq<u8>), ErrorView> {
    if lines.len() != 4 || lines[0] != "version=1"@ {
        Err(process::corrupt("lock metadata format is unsupported"@))
    } else {
        match lock_field(lines[1], "pid="@) {
            None => Err(bad_field()),
            Some(pid) => match text::parse_spec(pid, u32::MAX as nat) {
                None => Err(process::corrupt("lock PID metadata is invalid"@)),
                Some(pid) => match lock_field(lines[2], "start="@) {
                    None => Err(bad_field()),
                    Some(start) => match text::parse_spec(start, u64::MAX as nat) {
                        None => Err(process::corrupt("lock start metadata is invalid"@)),
                        Some(start) => match lock_field(lines[3], "boot="@) {
                            None => Err(bad_field()),
                            Some(boot) => match hex16_spec(boot) {
                                None => Err(process::corrupt("lock boot metadata is invalid"@)),
                                Some(boot) => if pid == 0 || start == 0 || process::all_zero(boot) {
                                    Err(
                                        process::corrupt(
                                            "lock metadata contains a weak process identity"@,
                                        ),
                                    )
                                } else {
                                    Ok((pid, start, boot))
                                },
                            },
                        },
                    },
                },
            },
        }
    }
}

/// The owner that the bytes of a lock file name.
pub open spec fn lock_owner_spec(bytes: Seq<u8>) -> Result<(nat, nat, Seq<u8>), ErrorView> {
    match text::decode_spec(bytes) {
        None => Err(process::corrupt("lock metadata is not valid text"@)),
        Some(value) => lock_owner_of(text::lines_spec(value)),
    }
}

/// An identity as plain values.
pub open spec fn identity_values(identity: ProcessIdentity) -> (nat, nat, Seq<u8>) {
    (identity.pid as nat, identity.generation as nat, identity.boot_id@)
}

fn parse_lock_field<'a>(line: &'a [char], prefix: &str) -> (r: Result<&'a [char], SysboostError>)
    ensures
        match r {
            Ok(value) => lock_field(line@, prefix@) == Some(value@),
            Err(e) => lock_field(line@, prefix@) is None && e@ == bad_field(),
        },
{
    let mark = text::chars_of(prefix);
    if text::starts_with(line, mark.as_slice()) && line.len() > mark.len() {
        let value = vstd::slice::slice_subrange(line, mark.len(), line.len());
        assert(value@ =~= line@.skip(mark@.len() as int));
        Ok(value)
    } else {
        Err(SysboostError::new(ErrorCode::JournalCorrupt, "lock metadata field is invalid"))
    }
}

/// The owner that a lock file names.
pub fn parse_lock_owner(bytes: &[u8]) -> (r: Result<ProcessIdentity, SysboostError>)
    ensures
        match r {
            Ok(owner) => lock_owner_spec(bytes@) == Ok::<(nat, nat, Seq<u8>), ErrorView>(
                identity_values(owner),
            ),
            Err(e) => lock_owner_spec(bytes@) == Err::<(nat, nat, Seq<u8>), ErrorView>(e@),
        },
{
    let value = match text::decode(bytes) {
        Some(value) => value,
        None => {
            return Err(
                SysboostError::new(ErrorCode::JournalCorrupt, "lock metadata is not valid text"),
            );
        },
    };
    let chars = text::chars_of(value.as_str());
    let lines = text::lines(chars.as_slice());
    let ghost all = text::lines_spec(value@);
    assert(all.len() == lines@.len());
    let version = text::chars_of("version=1");
    if lines.len() != 4 {
        return Err(
            SysboostError::new(ErrorCode::JournalCorrupt, "lock metadata format is unsupported"),
        );
    }
    proof {
        assert(all[0] == lines@[0]@);
        assert(all[1] == lines@[1]@);
        assert(all[2] == lines@[2]@);
        assert(all[3] == lines@[3]@);
    }
    if !text::same_chars(lines[0].as_slice(), version.as_slice()) {
        return Err(
            SysboostError::new(ErrorCode::JournalCorrupt, "lock metadata format is unsupported"),
        );
    }
    let field = match parse_lock_field(lines[1].as_slice(), "pid=") {
        Ok(field) => field,
        Err(e) => {
            return Err(e);
        },
    };
    let pid: u32 = match text::parse_unsigned(field, u32::MAX as u128) {
        Some(pid) => pid as u32,
        None => {
            return Err(
                SysboostError::new(ErrorCode::JournalCorrupt, "lock PID metadata is invalid"),
            );
        },
    };
    let field = match parse_lock_field(lines[2].as_slice(), "start=") {
        Ok(field) => field,
        Err(e) => {
            return Err(e);
        },
    };
    let generation: u64 = match text::parse_unsigned(field, u64::MAX as u128) {
        Some(start) => start as u64,
        None => {
            return Err(
                SysboostError::new(ErrorCode::JournalCorrupt, "lock start metadata is invalid"),
            );
        },
    };
    let field = match parse_lock_field(lines[3].as_slice(), "boot=") {
        Ok(field) => field,
        Err(e) => {
            return Err(e);
        },
    };
    let boot_id = match decode_hex_16(field) {
        Some(boot_id) => boot_id,
        None => {
            return Err(
                SysboostError::new(ErrorCode::JournalCorrupt, "lock boot metadata is invalid"),
            );
        },
    };
    match ProcessIdentity::with_boot_id(pid, generation, boot_id) {
        Ok(owner) => Ok(owner),
        Err(_) => Err(
            SysboostError::new(
                ErrorCode::JournalCorrupt,
                "lock metadata contains a weak process identity",
            ),
        ),
    }
}

proof fn lemma_lock_lines(owner: ProcessIdentity)
    ensures
        text::lines_spec(lock_text(owner)) == lock_lines(owner).take(4),
{
    reveal_strlit("version=1");
    reveal_strlit("pid=");
    reveal_strlit("start=");
    reveal_strlit("boot=");
    let lines = lock_lines(owner);
    let p = text::decimal_spec(owner.pid as nat);
    let g = text::decimal_spec(owner.generation as nat);
    text::lemma_decimal(owner.pid as nat);
    text::lemma_decimal(owner.generation as nat);
    assert forall|k: int, i: int| 0 <= k < lines.len() && 0 <= i < lines[k].len() implies
        #[trigger] lines[k][i] != '\n' && lines[k][i] != '\r' by {
        if k == 1 && i >= 4 {
            assert(text::is_digit(p[i - 4]));
        }
        if k == 2 && i >= 6 {
            assert(text::is_digit(g[i - 6]));
        }
        if k == 3 && i >= 5 {
            lemma_hex_plain(owner.boot_id@, i - 5);
        }
    }
    text::split_join(lines, '\n');
    let parsed = text::lines_spec(lock_text(owner));
    assert forall|k: int| 0 <= k < 4 implies #[trigger] parsed[k] == lines[k] by {
        assert(lines[k].len() > 0);
        assert(lines[k][lines[k].len() - 1] != '\r');
    }
    assert(parsed =~= lines.take(4));
}

proof fn lemma_field(prefix: Seq<char>, value: Seq<char>)
    requires
        value.len() > 0,
    ensures
        lock_field(prefix + value, prefix) == Some(value),
{
    assert((prefix + value).take(prefix.len() as int) =~= prefix);
    assert((prefix + value).skip(prefix.len() as int) =~= value);
}

proof fn lemma_lock_fields(owner: ProcessIdentity)
    requires
        owner.pid != 0,
        process::same_process(owner, owner),
    ensures
        lock_owner_of(lock_lines(owner).take(4)) == Ok::<(nat, nat, Seq<u8>), ErrorView>(
            identity_values(owner),
        ),
{
    let lines = lock_lines(owner).take(4);
    let p = text::decimal_spec(owner.pid as nat);
    let g = text::decimal_spec(owner.generation as nat);
    let b = text::hex_spec(owner.boot_id@);
    text::lemma_decimal(owner.pid as nat);
    text::lemma_decimal(owner.generation as nat);
    lemma_field("pid="@, p);
    lemma_field("start="@, g);
    lemma_field("boot="@, b);
    assert(lines[0] == "version=1"@);
    assert(lock_field(lines[1], "pid="@) == Some(p));
    assert(lock_field(lines[2], "start="@) == Some(g));
    assert(lock_field(lines[3], "boot="@) == Some(b));
    text::decimal_round_trip(owner.pid as nat, u32::MAX as nat);
    text::decimal_round_trip(owner.generation as nat, u64::MAX as nat);
    hex_round_trip(owner.boot_id@);
}

/// Reading a lock file gives back the owner that wrote it.
pub proof fn lock_owner_round_trip(owner: ProcessIdentity)
    requires
        owner.pid != 0,
        process::same_process(owner, owner),
    ensures
        lock_owner_spec(vstd::utf8::encode_utf8(lock_text(owner))) == Ok::<
            (nat, nat, Seq<u8>),
            ErrorView,
        >(identity_values(owner)),
{
    let value = lock_text(owner);
    vstd::utf8::encode_utf8_decode_utf8(value);
    vstd::utf8::encode_utf8_valid_utf8(value);
    lemma_lock_lines(owner);
    lemma_lock_fields(owner);
}

/// Whether a lock is stale: its owner is gone, or another process has its
/// number.
pub fn lock_is_stale(current: Option<ProcessIdentity>, owner: ProcessIdentity) -> (r: bool)
    ensures
        r == match current {
            Some(process) => !process::same_process(process, owner),
            None => true,
        },
{
    match current {
        Some(process) => !process.same_generation(owner),
        None => true,
    }
}

/// How an attempt to create the lock file went.
#[derive(Clone, Copy, Debug, PartialEq, Eq, Structural)]
pub enum LockAttempt {
    Created,
    /// There was one; it was stale and is removed, or not.
    Exists { reclaimed: bool },
    Failed(IoFailure),
}

/// What to do after an attempt to create the lock file.
#[derive(Debug)]
pub enum LockStep {
    Hold,
    Again,
    Fail(SysboostError),
}

pub open spec fn contended() -> ErrorView {
    ErrorView {
        retryability: Retryability::Retry,
        ..crate::error::error_view(
            ErrorCode::AuthorizationError,
            "another mutating session owns the exclusive lock"@,
        )
    }
}

/// What to do after the attempt with the given number, counted from one. A lock
/// that is not stale is never taken over.
pub fn after_lock_attempt(attempt: u32, outcome: LockAttempt) -> (r: LockStep)
    ensures
        match outcome {
            LockAttempt::Created => r is Hold,
            LockAttempt::Exists { reclaimed } => if reclaimed && attempt < LOCK_ATTEMPTS {
                r is Again
            } else {
                r is Fail && r->Fail_0@ == contended()
            },
            LockAttempt::Failed(failure) => r is Fail && r->Fail_0@ == process::durability(
                io_message(failure),
            ),
        },
{
    match outcome {
        LockAttempt::Created => LockStep::Hold,
        LockAttempt::Exists { reclaimed } => if reclaimed && attempt < LOCK_ATTEMPTS {
            LockStep::Again
        } else {
            LockStep::Fail(
                SysboostError::new(
                    ErrorCode::AuthorizationError,
                    "another mutating session owns the exclusive lock",
                ).retryable(Retryability::Retry),
            )
        },
        LockAttempt::Failed(failure) => LockStep::Fail(
            io_error(ErrorCode::DurabilityError, failure),
        ),
    }
}

/// The session identity that random bytes give; all zeros give none.
pub fn identity_from_entropy(bytes: [u8; 16]) -> (r: Option<SessionId>)
    ensures
        match r {
            Some(id) => id.bytes == bytes && !process::all_zero(bytes@),
            None => process::all_zero(bytes@),
        },
{
    let mut i: usize = 0;
    while i < 16
        invariant
            i <= 16,
            forall|j: int| 0 <= j < i ==> #[trigger] bytes@[j] == 0,
        decreases 16 - i,
    {
        if bytes[i] != 0 {
            assert(bytes@[i as int] != 0);
            return Some(SessionId { bytes });
        }
        i = i + 1;
    }
    None
}

/// Where the records of sessions are kept, and who must own them.
#[derive(Debug, PartialEq, Eq)]
pub struct FileStateStore {
    root: String,
    policy: RuntimeStatePolicy,
}

impl FileStateStore {
    pub closed spec fn root_spec(&self) -> Seq<char> {
        self.root@
    }

    pub closed spec fn policy_spec(&self) -> RuntimeStatePolicy {
        self.policy
    }

    /// A directory of the process whose `status` file holds the given text.
    pub fn new(root: &str, status: Option<&str>) -> (r: FileStateStore)
        ensures
            r.root_spec() == root@,
            r.policy_spec().directory_mode == 0o700,
            r.policy_spec().file_mode == 0o600,
            match status {
                Some(text) => match credentials_spec(text@) {
                    Some((uid, gid)) => r.policy_spec().owner_uid == uid
                        && r.policy_spec().owner_gid == gid,
                    None => r.policy_spec() == policy_of(0, 0),
                },
                None => r.policy_spec() == policy_of(0, 0),
            },
    {
        FileStateStore::with_policy(root, RuntimeStatePolicy::current_process(status))
    }

    pub fn with_policy(root: &str, policy: RuntimeStatePolicy) -> (r: FileStateStore)
        ensures
            r.root_spec() == root@,
            r.policy_spec() == policy,
    {
        FileStateStore { root: root.to_string(), policy }
    }

    /// The directory of the privileged service.
    pub fn production() -> (r: FileStateStore)
        ensures
            r.root_spec() == DEFAULT_STATE_ROOT@,
            r.policy_spec() == policy_of(0, 0),
    {
        FileStateStore::with_policy(DEFAULT_STATE_ROOT, RuntimeStatePolicy::root_owned())
    }

    pub fn root(&self) -> (r: &str)
        ensures
            r@ == self.root_spec(),
    {
        self.root.as_str()
    }

    pub fn policy(&self) -> (r: RuntimeStatePolicy)
        ensures
            r == self.policy_spec(),
    {
        self.policy
    }
}

impl Default for FileStateStore {
    fn default() -> (r: FileStateStore)
        ensures
            r.root_spec() == DEFAULT_STATE_ROOT@,
            r.policy_spec() == policy_of(0, 0),
    {
        FileStateStore::production()
    }
}

/// Where the lock file is kept, and who must own it.
#[derive(Debug, PartialEq, Eq)]
pub struct FileSessionLock {
    root: String,
    policy: RuntimeStatePolicy,
}

impl FileSessionLock {
    pub closed spec fn root_spec(&self) -> Seq<char> {
        self.root@
    }

    pub closed spec fn policy_spec(&self) -> RuntimeStatePolicy {
        self.policy
    }

    /// A directory of the process whose `status` file holds the given text.
    pub fn new(root: &str, status: Option<&str>) -> (r: FileSessionLock)
        ensures
            r.root_spec() == root@,
            r.policy_spec().directory_mode == 0o700,
            r.policy_spec().file_mode == 0o600,
            match status {
                Some(text) => match credentials_spec(text@) {
                    Some((uid, gid)) => r.policy_spec().owner_uid == uid
                        && r.policy_spec().owner_gid == gid,
                    None => r.policy_spec() == policy_of(0, 0),
                },
                None => r.policy_spec() == policy_of(0, 0),
            },
    {
        FileSessionLock::with_policy(root, RuntimeStatePolicy::current_process(status))
    }

    pub fn with_policy(root: &str, policy: RuntimeStatePolicy) -> (r: FileSessionLock)
        ensures
            r.root_spec() == root@,
            r.policy_spec() == policy,
    {
        FileSessionLock { root: root.to_string(), policy }
    }

    /// The directory of the privileged service.
    pub fn production() -> (r: FileSessionLock)
        ensures
            r.root_spec() == DEFAULT_STATE_ROOT@,
            r.policy_spec() == policy_of(0, 0),
    {
        FileSessionLock::with_policy(DEFAULT_STATE_ROOT, RuntimeStatePolicy::root_owned())
    }

    pub fn root(&self) -> (r: &str)
        ensures
            r@ == self.root_spec(),
    {
        self.root.as_str()
    }

    pub fn policy(&self) -> (r: RuntimeStatePolicy)
        ensures
            r == self.policy_spec(),
    {
        self.policy
    }
}

impl Default for FileSessionLock {
    fn default() -> (r: FileSessionLock)
        ensures
            r.root_spec() == DEFAULT_STATE_ROOT@,
            r.policy_spec() == policy_of(0, 0),
    {
        FileSessionLock::production()
    }
}

} // verus!
