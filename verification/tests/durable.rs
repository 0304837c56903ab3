use sysboost::clock::wall_clock_time;
use sysboost::durable::{
    after_lock_attempt, check_length, check_parent, classify_entry, encode_lock_owner,
    identity_from_entropy, io_error, is_valid_temporary_name, lock_is_stale, may_remove,
    parse_lock_owner, state_name, temporary_name,
    validate_directory_metadata, validate_regular_file, validate_target_for_write, Existing,
    FileIdentity, FileSessionLock, FileStateStore, IoFailure, LockAttempt, LockStep, ObjectKind,
    ObjectMetadata, RuntimeStatePolicy, StateEntry,
};
use sysboost::error::ErrorCode;
use sysboost::ids::SessionId;
use sysboost::process::{parse_boot_id, parse_start_time, probed_identity, ProcessIdentity, StatRead};
use sysboost::text;

fn owner() -> ProcessIdentity {
    ProcessIdentity::with_boot_id(42, 9001, [0xa5; 16]).expect("strong identity")
}

fn metadata(kind: ObjectKind, uid: u32, permissions: u32, links: u64) -> ObjectMetadata {
    ObjectMetadata {
        kind,
        uid,
        gid: 0,
        permissions,
        links,
        identity: FileIdentity { device: 1, inode: 2 },
    }
}

#[test]
fn lock_owners_round_trip() {
    let bytes = encode_lock_owner(owner());
    assert_eq!(parse_lock_owner(&bytes).expect("own encoding"), owner());
    let text = String::from_utf8(bytes).expect("text");
    assert_eq!(text, format!("version=1\npid=42\nstart=9001\nboot={}\n", "a5".repeat(16)));
    assert!(parse_lock_owner(b"version=2\npid=42\n").is_err());
    assert!(parse_lock_owner(b"\xff\xfe").is_err());
}

#[test]
fn record_names_round_trip() {
    let session = SessionId::from_bytes([0x1f; 16]);
    let name = state_name(session);
    assert_eq!(name, format!("{}.state", "1f".repeat(16)));
    assert_eq!(
        classify_entry(Some(&name), ObjectKind::RegularFile).expect("own name"),
        StateEntry::Record(session)
    );
    assert!(classify_entry(Some(&name), ObjectKind::SymbolicLink).is_err());
    let temporary = temporary_name(session, 7, 99);
    assert!(is_valid_temporary_name(&temporary));
    assert_eq!(
        classify_entry(Some(&temporary), ObjectKind::RegularFile).expect("own name"),
        StateEntry::Temporary
    );
    assert!(classify_entry(Some("notes.txt"), ObjectKind::RegularFile).is_err());
    assert!(classify_entry(None, ObjectKind::RegularFile).is_err());
}

#[test]
fn only_private_files_of_the_owner_are_trusted() {
    let policy = RuntimeStatePolicy::root_owned();
    let good = metadata(ObjectKind::RegularFile, 0, 0o600, 1);
    assert_eq!(
        validate_regular_file(good, policy, "state").expect("private"),
        FileIdentity { device: 1, inode: 2 }
    );
    let hard = metadata(ObjectKind::RegularFile, 0, 0o600, 2);
    assert_eq!(
        validate_regular_file(hard, policy, "state").expect_err("another name").code,
        ErrorCode::JournalCorrupt
    );
    let link = metadata(ObjectKind::SymbolicLink, 0, 0o600, 1);
    assert!(validate_regular_file(link, policy, "state").is_err());
    let open = metadata(ObjectKind::RegularFile, 0, 0o644, 1);
    assert!(validate_regular_file(open, policy, "state").is_err());
    let foreign = metadata(ObjectKind::RegularFile, 5, 0o600, 1);
    assert_eq!(
        validate_regular_file(foreign, policy, "state").expect_err("another owner").code,
        ErrorCode::AuthorizationError
    );
    let directory = metadata(ObjectKind::Directory, 0, 0o700, 3);
    validate_directory_metadata(directory, policy, "root").expect("private");
    assert_eq!(
        validate_directory_metadata(good, policy, "root").expect_err("a file").message,
        "root is not a regular directory"
    );
}

#[test]
fn records_are_created_once_and_replaced_in_place() {
    let policy = RuntimeStatePolicy::root_owned();
    let session = SessionId::from_bytes([1; 16]);
    let there = Existing::Present(metadata(ObjectKind::RegularFile, 0, 0o600, 1));
    validate_target_for_write(Existing::Missing, policy, false, session).expect("new");
    validate_target_for_write(there, policy, true, session).expect("replaced");
    let taken = validate_target_for_write(there, policy, false, session).expect_err("taken");
    assert_eq!(taken.code, ErrorCode::InvariantViolation);
    assert_eq!(taken.session, Some(session));
    let gone =
        validate_target_for_write(Existing::Missing, policy, true, session).expect_err("gone");
    assert_eq!(gone.code, ErrorCode::DurabilityError);
    let hidden = validate_target_for_write(
        Existing::Unreadable(IoFailure::PermissionDenied),
        policy,
        true,
        session,
    )
    .expect_err("hidden");
    assert_eq!(hidden.message, "state I/O permission was denied");
}

#[test]
fn policies_come_from_the_status_of_the_process() {
    let status = "Name:\tx\nUid:\t1000\t1001\t1000\t1000\nGid:\t100\t101\t100\t100\n";
    let policy = RuntimeStatePolicy::current_process(Some(status));
    assert_eq!(policy.directory_mode, 0o700);
    assert_eq!(policy.file_mode, 0o600);
    assert_eq!(RuntimeStatePolicy::current_process(None), RuntimeStatePolicy::root_owned());
    assert_eq!(
        RuntimeStatePolicy::current_process(Some("nothing")),
        RuntimeStatePolicy::root_owned()
    );
}

#[test]
fn stale_locks_are_told_from_live_ones() {
    assert!(!lock_is_stale(Some(owner()), owner()));
    assert!(lock_is_stale(None, owner()));
    let reused = ProcessIdentity::with_boot_id(42, 9002, [0xa5; 16]).expect("strong identity");
    assert!(lock_is_stale(Some(reused), owner()));
}

#[test]
fn locks_are_tried_twice() {
    assert!(matches!(after_lock_attempt(1, LockAttempt::Created), LockStep::Hold));
    assert!(matches!(
        after_lock_attempt(1, LockAttempt::Exists { reclaimed: true }),
        LockStep::Again
    ));
    match after_lock_attempt(2, LockAttempt::Exists { reclaimed: true }) {
        LockStep::Fail(error) => assert_eq!(error.code, ErrorCode::AuthorizationError),
        other => panic!("not refused: {other:?}"),
    }
    match after_lock_attempt(1, LockAttempt::Failed(IoFailure::Other)) {
        LockStep::Fail(error) => assert_eq!(error.code, ErrorCode::DurabilityError),
        other => panic!("not refused: {other:?}"),
    }
}

#[test]
fn session_identities_are_not_zero() {
    assert!(identity_from_entropy([0; 16]).is_none());
    assert_eq!(identity_from_entropy([3; 16]), Some(SessionId::from_bytes([3; 16])));
}

#[test]
fn lengths_are_bounded() {
    check_length(10, 10).expect("at the bound");
    assert!(check_length(11, 10).is_err());
}

#[test]
fn failures_have_messages() {
    let error = io_error(ErrorCode::DurabilityError, IoFailure::NotFound);
    assert_eq!(error.message, "state I/O target was not found");
}

#[test]
fn stores_know_where_they_are() {
    assert_eq!(FileStateStore::production().root(), FileSessionLock::production().root());
    let policy = RuntimeStatePolicy::root_owned();
    let store = FileStateStore::with_policy("/tmp/state", policy);
    assert_eq!(store.root(), "/tmp/state");
    assert_eq!(store.policy(), policy);
}

#[test]
fn start_times_stand_behind_the_name() {
    let stat = "7 (odd ) name) S 1 1 1 0 -1 4194560 1 2 3 4 5 6 7 8 20 0 1 0 555 1 2";
    assert_eq!(parse_start_time(stat), Some(555));
    assert_eq!(parse_start_time("7 odd"), None);
}

#[test]
fn boot_identities_are_hexadecimal() {
    let id = parse_boot_id("01020304-0506-0708-090a-0b0c0d0e0f10\n").expect("a boot identity");
    assert_eq!(id, [1, 2, 3, 4, 5, 6, 7, 8, 9, 10, 11, 12, 13, 14, 15, 16]);
    assert!(parse_boot_id("00000000-0000-0000-0000-000000000000").is_err());
    assert!(parse_boot_id("01020304").is_err());
    assert!(parse_boot_id(&"z".repeat(32)).is_err());
}

#[test]
fn probes_tell_gone_from_unknown() {
    assert!(matches!(probed_identity(7, StatRead::Missing, None), Ok(None)));
    assert!(probed_identity(7, StatRead::Failed, None).is_err());
    let line = "7 (x) S 1 1 1 0 -1 4194560 1 2 3 4 5 6 7 8 20 0 1 0 555 1 2".to_string();
    let boot = Some("01020304-0506-0708-090a-0b0c0d0e0f10".to_string());
    let found = probed_identity(7, StatRead::Line(line), boot).expect("complete").expect("there");
    assert_eq!(found.pid, 7);
    assert_eq!(found.generation, 555);
}

#[test]
fn clocks_do_not_precede_the_epoch() {
    assert_eq!(wall_clock_time(Some(5)).expect("after").as_unix_millis(), 5);
    assert!(wall_clock_time(None).is_err());
}

#[test]
fn text_is_decoded_where_it_is_text() {
    assert_eq!(text::decode(b"caf\xc3\xa9"), Some("caf\u{e9}".to_string()));
    assert_eq!(text::decode(b"\xc3"), None);
    assert_eq!(text::decimal(1_234_567), "1234567");
    assert_eq!(text::hex(&[0, 0xab]), "00ab");
}

#[test]
fn the_state_directory_is_made_in_a_directory() {
    let directory = metadata(ObjectKind::Directory, 0, 0o755, 2);
    assert!(check_parent(Some(Existing::Present(directory))).is_ok());
    let link = metadata(ObjectKind::SymbolicLink, 0, 0o777, 1);
    let error = check_parent(Some(Existing::Present(link))).expect_err("a link");
    assert_eq!(error.code, ErrorCode::JournalCorrupt);
    let nowhere = check_parent(None).expect_err("no parent");
    assert_eq!(nowhere.message, "runtime state root has no trusted parent");
    let missing = check_parent(Some(Existing::Missing)).expect_err("nothing is there");
    assert_eq!(missing.message, "state I/O target was not found");
    let hidden = check_parent(Some(Existing::Unreadable(IoFailure::PermissionDenied)))
        .expect_err("it cannot be seen");
    assert_eq!(hidden.message, "state I/O permission was denied");
}

#[test]
fn only_the_held_lock_is_removed() {
    let file = metadata(ObjectKind::RegularFile, 0, 0o600, 1);
    assert!(may_remove(file, FileIdentity { device: 1, inode: 2 }));
    assert!(!may_remove(file, FileIdentity { device: 1, inode: 3 }));
    let link = metadata(ObjectKind::SymbolicLink, 0, 0o600, 1);
    assert!(!may_remove(link, FileIdentity { device: 1, inode: 2 }));
}
