use sysboost::cpu_host::{
    check_cpufreq_step, check_file, check_identity, check_opening, check_root, check_step,
    is_bound_present,
    locate, locate_choices, policy_directory, ChoicesPlace, NodePlace, PolicyFile,
};
use sysboost::cpu_node::{CpuNode, Found, MAX_CPU_READ_BYTES};
use sysboost::durable::IoFailure;
use sysboost::error::{ErrorCode, SysboostError};
use sysboost::filesystem::{DirectoryEntry, EntryKind};
use sysboost::ids::{CgroupName, TargetId};
use sysboost::mutation::MutationKind;
use sysboost::value::{
    CgroupGroupKind, CgroupId, CpuPolicyId, CpuWeight, IoPriority, IoPriorityClass, NiceValue,
    ProcessId, TypedValue, UclampValue,
};
use sysboost::workload::WorkloadTarget;
use sysboost::workload_host::{
    check_clamp, check_clamp_request, check_controller, check_group, check_object,
    check_unchanged, check_walk, check_writable, group_entry, plan_check, plan_group_read,
    admit_process_read, plan_process_read, sort_targets, GroupRead, ProcessRead, WorkloadCheck,
};
use sysboost::workload_node::{GroupFound, WorkloadNode, MAX_READ_BYTES, MAX_WORKLOAD_GROUPS};

fn group(inode: u64, handle: &str) -> CgroupId {
    CgroupId::new(1, inode, TargetId::new(handle).expect("valid target"))
}

fn process() -> ProcessId {
    ProcessId::new(10, 77).expect("valid process")
}

fn weight(value: u64) -> CpuWeight {
    CpuWeight::new(value).expect("valid weight")
}

fn clamp(value: u16) -> UclampValue {
    UclampValue::new(value).expect("valid clamp")
}

#[test]
fn controls_stand_in_named_files() {
    let policy = CpuPolicyId::new(4);
    assert_eq!(policy_directory(policy), "policy4");
    assert_eq!(
        locate(CpuNode::Governor(policy)),
        NodePlace::File(policy, PolicyFile::Governor)
    );
    assert_eq!(locate(CpuNode::Frequency(policy)), NodePlace::Limits(policy));
    assert_eq!(locate(CpuNode::Boost(None)), NodePlace::Boost);
    assert_eq!(locate(CpuNode::PlatformProfile), NodePlace::Profile);
    assert_eq!(
        locate_choices(CpuNode::EnergyPreference(policy)),
        ChoicesPlace::File(policy, PolicyFile::EnergyChoices)
    );
    assert_eq!(locate_choices(CpuNode::PlatformProfile), ChoicesPlace::Profiles);
    assert_eq!(locate_choices(CpuNode::Boost(None)), ChoicesPlace::Nowhere);
    assert_eq!(PolicyFile::Governor.name(), "scaling_governor");
    assert_eq!(PolicyFile::GovernorChoices.name(), "scaling_available_governors");
    assert_eq!(PolicyFile::EnergyPreference.name(), "energy_performance_preference");
    assert_eq!(PolicyFile::EnergyChoices.name(), "energy_performance_available_preferences");
    assert_eq!(PolicyFile::MinFrequency.name(), "scaling_min_freq");
    assert_eq!(PolicyFile::MaxFrequency.name(), "scaling_max_freq");
    assert_eq!(PolicyFile::HardwareMin.name(), "cpuinfo_min_freq");
    assert_eq!(PolicyFile::HardwareMax.name(), "cpuinfo_max_freq");
}

#[test]
fn no_step_leaves_the_root() {
    let directory = Found::Object(EntryKind::Directory);
    let link = Found::Object(EntryKind::Symlink);
    assert!(check_root(directory).is_ok());
    assert!(check_root(link).is_err());
    assert!(check_step("policy0", directory, true).is_ok());
    assert!(check_step("boost", Found::Object(EntryKind::File), false).is_ok());
    for (component, found) in [
        ("..", directory),
        (".", directory),
        ("", directory),
        ("policy0", link),
        ("policy0", Found::Object(EntryKind::File)),
        ("policy0", Found::Nothing),
        ("policy0", Found::Hidden),
    ] {
        let error = check_step(component, found, true).expect_err("no such step");
        assert_eq!(error.code, ErrorCode::TargetError);
    }
}

#[test]
fn absent_policies_are_unsupported() {
    assert!(check_cpufreq_step(Found::Object(EntryKind::Directory)).is_ok());
    let absent = check_cpufreq_step(Found::Nothing).expect_err("nothing is there");
    assert_eq!(absent.code, ErrorCode::Unsupported);
    let hidden = check_cpufreq_step(Found::Hidden).expect_err("it cannot be seen");
    assert_eq!(hidden.code, ErrorCode::TargetError);
    let link = check_cpufreq_step(Found::Object(EntryKind::Symlink)).expect_err("a link");
    assert_eq!(link.code, ErrorCode::TargetError);
}

#[test]
fn only_regular_files_are_opened() {
    assert!(check_file(Found::Object(EntryKind::File)).is_ok());
    assert!(check_file(Found::Object(EntryKind::Symlink)).is_err());
    assert!(check_file(Found::Nothing).is_err());
    assert_eq!(is_bound_present(Found::Object(EntryKind::File)).ok(), Some(true));
    assert_eq!(is_bound_present(Found::Nothing).ok(), Some(false));
    assert!(is_bound_present(Found::Object(EntryKind::Symlink)).is_err());
    assert!(is_bound_present(Found::Hidden).is_err());
    assert!(check_identity(Found::Object(EntryKind::Directory), true).is_ok());
    assert!(check_identity(Found::Object(EntryKind::Directory), false).is_err());
    assert!(check_identity(Found::Object(EntryKind::File), false).is_ok());
    assert!(check_identity(Found::Object(EntryKind::File), true).is_err());
}

#[test]
fn long_values_are_refused() {
    assert!(sysboost::cpu_host::check_read_length(MAX_CPU_READ_BYTES).is_ok());
    assert!(sysboost::cpu_host::check_read_length(MAX_CPU_READ_BYTES + 1).is_err());
    assert!(sysboost::workload_host::check_read_length(MAX_READ_BYTES).is_ok());
    assert!(sysboost::workload_host::check_read_length(MAX_READ_BYTES + 1).is_err());
}

#[test]
fn the_walk_over_groups_is_bounded() {
    assert!(check_walk(0, 0).is_ok());
    assert!(check_walk(MAX_WORKLOAD_GROUPS, MAX_WORKLOAD_GROUPS - 1).is_ok());
    assert!(check_walk(MAX_WORKLOAD_GROUPS + 1, 0).is_err());
    assert!(check_walk(0, MAX_WORKLOAD_GROUPS).is_err());
}

#[test]
fn only_directories_with_names_are_groups() {
    let found = group_entry(Some("games"), EntryKind::Directory).expect("no link");
    assert_eq!(found.map(|name| name.as_str().to_owned()), Some("games".to_owned()));
    assert!(group_entry(Some("cpu.weight"), EntryKind::File).expect("no link").is_none());
    assert!(group_entry(None, EntryKind::Directory).expect("no link").is_none());
    let link = group_entry(Some("games"), EntryKind::Symlink).expect_err("a link");
    assert_eq!(link.code, ErrorCode::TargetError);
}

#[test]
fn groups_keep_their_identity() {
    let known = group(2, "cgroup.games");
    assert!(check_group(&known, Some(&known)).is_ok());
    assert!(check_group(&known, None).is_err());
    assert!(check_group(&group(3, "cgroup.games"), Some(&known)).is_err());
    let weak = CgroupId::new(0, 2, TargetId::new("cgroup.games").expect("valid target"));
    assert!(check_group(&weak, Some(&known)).is_err());
    assert!(check_unchanged(&known, 1, 2).is_ok());
    assert!(check_unchanged(&known, 1, 9).is_err());
    assert!(check_unchanged(&known, 9, 2).is_err());
}

#[test]
fn objects_are_told_apart() {
    let directory = GroupFound::Object(EntryKind::Directory);
    assert!(check_object(directory, EntryKind::Directory, "gone").is_ok());
    let wrong = check_object(directory, EntryKind::File, "gone").expect_err("no file");
    assert_eq!(wrong.code, ErrorCode::TargetError);
    let denied = check_object(
        GroupFound::Failed(IoFailure::PermissionDenied),
        EntryKind::File,
        "gone",
    )
    .expect_err("it cannot be seen");
    assert_eq!(denied.code, ErrorCode::AuthorizationError);
}

#[test]
fn controllers_are_listed_and_delegated() {
    assert!(check_controller(b"cpu io\n", b"", "cpu", false).is_ok());
    assert!(check_controller(b"", b"cpuset cpu\n", "cpu", false).is_ok());
    let missing = check_controller(b"cpuset\n", b"io\n", "cpu", false).expect_err("not listed");
    assert_eq!(missing.code, ErrorCode::Unsupported);
    let no_text = check_controller(&[0xff], b"", "cpu", false).expect_err("not listed");
    assert_eq!(no_text.code, ErrorCode::Unsupported);
    let denied = check_controller(b"cpu\n", b"", "cpu", true).expect_err("not delegated");
    assert_eq!(denied.code, ErrorCode::AuthorizationError);
    assert!(check_writable(false).is_ok());
    let read_only = check_writable(true).expect_err("read only");
    assert_eq!(read_only.code, ErrorCode::AuthorizationError);
}

#[test]
fn reads_follow_the_mutation() {
    let games = group(2, "cgroup.games");
    let kind = MutationKind::CgroupCpuWeight { cgroup: games.clone(), weight: weight(900) };
    assert_eq!(
        plan_group_read(&kind).ok(),
        Some(GroupRead::Control { group: games.clone(), node: WorkloadNode::CpuWeight })
    );
    let name = CgroupName::new("batch").expect("valid name");
    let child = MutationKind::CgroupBackground { parent: games.clone(), name: name.clone() };
    assert_eq!(
        plan_group_read(&child).ok(),
        Some(GroupRead::Child {
            parent: games,
            name,
            kind: CgroupGroupKind::ConservativeBackground,
        })
    );
    let nice = NiceValue::new(5).expect("valid nice value");
    let renice = MutationKind::ProcessNice { process: process(), nice };
    assert_eq!(plan_process_read(&renice).ok(), Some(ProcessRead::Nice(process())));
    let of_a_process = plan_group_read(&renice).expect_err("of a process");
    assert_eq!(of_a_process.code, ErrorCode::Unsupported);
    let of_a_group = plan_process_read(&kind).expect_err("of a group");
    assert_eq!(of_a_group.code, ErrorCode::Unsupported);
    let priority = IoPriority::new(IoPriorityClass::BestEffort, 3).expect("valid priority");
    let ioprio = MutationKind::ProcessIoPriority { process: process(), priority };
    let read = plan_process_read(&ioprio).expect("of a process");
    assert_eq!(read, ProcessRead::IoPriority(process()));
    assert_eq!(read.process(), process());
}

#[test]
fn vanished_processes_are_reported_before_unreadable_values() {
    let gone = || SysboostError::new(ErrorCode::TargetError, "gone");
    let priority = ProcessRead::IoPriority(process());
    let error = admit_process_read(&priority, Err(gone())).expect_err("the process is gone");
    assert_eq!(error.code, ErrorCode::TargetError);
    let error = admit_process_read(&priority, Ok(())).expect_err("it cannot be read");
    assert_eq!(error.code, ErrorCode::Unsupported);
    let nice = ProcessRead::Nice(process());
    assert!(admit_process_read(&nice, Ok(())).is_ok());
    let error = admit_process_read(&nice, Err(gone())).expect_err("the process is gone");
    assert_eq!(error.code, ErrorCode::TargetError);
}

#[test]
fn checks_follow_the_mutation() {
    let games = group(2, "cgroup.games");
    let kind = MutationKind::CgroupCpuWeight { cgroup: games.clone(), weight: weight(900) };
    assert_eq!(
        plan_check(&kind, &kind.typed_value()).ok(),
        Some(WorkloadCheck::Control { group: games.clone(), node: WorkloadNode::CpuWeight })
    );
    let other = TypedValue::CgroupCpuWeight(weight(100));
    let differs = plan_check(&kind, &other).expect_err("another value");
    assert_eq!(differs.code, ErrorCode::PlanningError);
    let lower = MutationKind::CgroupUclampMin { cgroup: games.clone(), value: clamp(20) };
    assert_eq!(
        plan_check(&lower, &lower.typed_value()).ok(),
        Some(WorkloadCheck::Clamps {
            group: games.clone(),
            node: WorkloadNode::UclampMin,
            value: clamp(20),
        })
    );
    let place = MutationKind::ProcessPlacement { process: process(), cgroup: games.clone() };
    assert_eq!(
        plan_check(&place, &place.typed_value()).ok(),
        Some(WorkloadCheck::Placement { process: process(), group: games })
    );
    let priority = IoPriority::new(IoPriorityClass::BestEffort, 3).expect("valid priority");
    let ioprio = MutationKind::ProcessIoPriority { process: process(), priority };
    let refused = plan_check(&ioprio, &ioprio.typed_value()).expect_err("no adapter");
    assert_eq!(refused.code, ErrorCode::Unsupported);
}

#[test]
fn clamps_are_held_against_the_other_control() {
    assert!(check_clamp_request(WorkloadNode::UclampMin, clamp(20)).is_ok());
    assert!(check_clamp_request(WorkloadNode::UclampMax, UclampValue::Max).is_ok());
    let open = check_clamp_request(WorkloadNode::UclampMin, UclampValue::Max);
    assert_eq!(open.expect_err("no number").code, ErrorCode::InvalidInput);
    assert!(check_clamp(WorkloadNode::UclampMin, clamp(20), b"max\n").is_ok());
    assert!(check_clamp(WorkloadNode::UclampMin, clamp(20), b"20\n").is_ok());
    assert!(check_clamp(WorkloadNode::UclampMin, clamp(21), b"20\n").is_err());
    assert!(check_clamp(WorkloadNode::UclampMax, clamp(19), b"20\n").is_err());
    assert!(check_clamp(WorkloadNode::UclampMax, clamp(20), b"many\n").is_err());
}

#[test]
fn targets_come_in_the_order_of_their_paths() {
    let target = |inode: u64, handle: &str, path: &str| WorkloadTarget {
        identity: group(inode, handle),
        relative_path: path.to_owned(),
    };
    let sorted = sort_targets(vec![
        target(3, "cgroup.b", "games/b"),
        target(2, "cgroup.games", "games"),
        target(1, "cgroup.root", ""),
    ]);
    let paths: Vec<&str> = sorted.iter().map(|found| found.relative_path.as_str()).collect();
    assert_eq!(paths, ["", "games", "games/b"]);
}

#[test]
fn a_root_is_a_real_directory() {
    assert!(check_opening(Found::Object(EntryKind::Directory), false).is_ok());
    let given = check_opening(Found::Object(EntryKind::Symlink), false).expect_err("a link");
    assert_eq!(given.message, "CPU sysfs root is not a real directory");
    let resolved = check_opening(Found::Object(EntryKind::File), true).expect_err("a file");
    assert_eq!(resolved.message, "CPU sysfs root is not a directory");
    let gone = check_opening(Found::Nothing, false).expect_err("nothing");
    assert_eq!(gone.message, "CPU sysfs root cannot be inspected");
}

#[test]
fn trees_are_read_below_their_root() {
    let path = |components: &[&str]| -> Vec<Vec<u8>> {
        components.iter().map(|component| component.as_bytes().to_vec()).collect()
    };
    let root = path(&["/", "sys"]);
    assert!(sysboost::rooted::check_resolved(&path(&["/", "sys", "devices"]), &root).is_ok());
    assert!(sysboost::rooted::check_resolved(&root, &root).is_ok());
    assert!(sysboost::rooted::check_resolved(&path(&["/"]), &root).is_err());
    let outside = sysboost::rooted::check_resolved(&path(&["/", "system", "devices"]), &root)
        .expect_err("outside");
    assert_eq!(outside.message, "resolved adapter node escapes its approved root");
    assert!(sysboost::rooted::check_node(EntryKind::Directory).is_ok());
    assert!(sysboost::rooted::check_node(EntryKind::Other).is_ok());
    let link = sysboost::rooted::check_node(EntryKind::Symlink).expect_err("a link");
    assert_eq!(link.message, "symlink traversal is not accepted by the rooted adapter");
    assert!(sysboost::rooted::check_root(EntryKind::Directory).is_ok());
    assert!(sysboost::rooted::check_root(EntryKind::File).is_err());
    assert!(sysboost::rooted::check_identity(EntryKind::File).is_ok());
    assert!(sysboost::rooted::check_identity(EntryKind::Other).is_err());
    assert!(sysboost::rooted::check_directory(EntryKind::Directory).is_ok());
    assert!(sysboost::rooted::check_directory(EntryKind::File).is_err());
}

#[test]
fn entries_come_in_the_order_of_their_names() {
    let entry = |name: &str, kind: EntryKind| DirectoryEntry { name: name.to_owned(), kind };
    let sorted = sysboost::rooted::sort_entries(vec![
        entry("b", EntryKind::File),
        entry("a1", EntryKind::Directory),
        entry("a", EntryKind::Other),
    ]);
    assert_eq!(
        sorted,
        vec![
            entry("a", EntryKind::Other),
            entry("a1", EntryKind::Directory),
            entry("b", EntryKind::File),
        ]
    );
}
