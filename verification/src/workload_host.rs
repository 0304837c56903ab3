//! What may be touched of a real host with control groups and processes.
//!
//! Groups are found by walking the hierarchy, and no link is followed.

use vstd::prelude::*;

use crate::cpu;
use crate::error::{ErrorCode, ErrorView, SysboostError};
use crate::filesystem::EntryKind;
use crate::ids::CgroupName;
use crate::mutation::{KindView, MutationKind};
use crate::order;
use crate::order::{Key, Keyed};
use crate::text;
use crate::value::{
    CgroupGroupKind, CgroupId, CgroupView, ProcessId, TypedValue, UclampValue, ValueView,
};
use crate::workload::WorkloadTarget;
use crate::workload_model;
use crate::workload_node;
use crate::workload_node::{GroupFound, WorkloadNode, MAX_READ_BYTES, MAX_WORKLOAD_GROUPS};

verus! {

/// Why the walk cannot go on, if it cannot.
pub open spec fn walk_refusal(depth: nat, known: nat) -> Option<ErrorView> {
    if depth > MAX_WORKLOAD_GROUPS || known >= MAX_WORKLOAD_GROUPS {
        Some(
            workload_node::target_fault("cgroup hierarchy exceeds the bounded discovery limit"@),
        )
    } else {
        None
    }
}

/// Whether the walk can go on.
pub fn check_walk(depth: usize, known: usize) -> (r: Result<(), SysboostError>)
    ensures
        cpu::failure(r) == walk_refusal(depth as nat, known as nat),
{
    if depth > MAX_WORKLOAD_GROUPS || known >= MAX_WORKLOAD_GROUPS {
        Err(workload_node::target_error("cgroup hierarchy exceeds the bounded discovery limit"))
    } else {
        Ok(())
    }
}

/// The name of the group that an entry of the hierarchy is, if it is one.
pub open spec fn entry_group(name: Option<Seq<char>>, kind: EntryKind) -> Result<
    Option<Seq<char>>,
    ErrorView,
> {
    match kind {
        EntryKind::Symlink => Err(
            workload_node::target_fault("cgroup hierarchy contains a symlinked directory"@),
        ),
        EntryKind::Directory => match name {
            Some(name) => if name.len() > 0 {
                Ok(Some(name))
            } else {
                Ok(None)
            },
            None => Ok(None),
        },
        _ => Ok(None),
    }
}

/// The name of the group that an entry of the hierarchy is, if it is one.
pub fn group_entry(name: Option<&str>, kind: EntryKind) -> (r: Result<
    Option<CgroupName>,
    SysboostError,
>)
    ensures
        match r {
            Ok(group) => entry_group(
                match name {
                    Some(name) => Some(name@),
                    None => None,
                },
                kind,
            ) == Ok::<Option<Seq<char>>, ErrorView>(
                match group {
                    Some(group) => Some(group@),
                    None => None,
                },
            ),
            Err(e) => entry_group(
                match name {
                    Some(name) => Some(name@),
                    None => None,
                },
                kind,
            ) == Err::<Option<Seq<char>>, ErrorView>(e@),
        },
{
    match kind {
        EntryKind::Symlink => Err(
            workload_node::target_error("cgroup hierarchy contains a symlinked directory"),
        ),
        EntryKind::Directory => match name {
            Some(name) => match CgroupName::new(name) {
                Ok(group) => Ok(Some(group)),
                Err(_) => Ok(None),
            },
            None => Ok(None),
        },
        _ => Ok(None),
    }
}

/// Why a group that is asked for is not one that was found, if it is not.
pub open spec fn group_refusal(asked: CgroupView, known: Option<CgroupView>) -> Option<ErrorView> {
    if asked.mount_id == 0 || asked.inode == 0 {
        Some(
            workload_node::target_fault(
                "production cgroup target lacks complete mount/inode identity"@,
            ),
        )
    } else {
        match known {
            None => Some(
                workload_node::target_fault("cgroup target was not discovered by the backend"@),
            ),
            Some(known) => if known != asked {
                Some(
                    workload_node::target_fault("cgroup target identity does not match discovery"@),
                )
            } else {
                None
            },
        }
    }
}

/// Whether a group that is asked for is one that was found. Here no zero stands
/// for any mount or inode.
pub fn check_group(asked: &CgroupId, known: Option<&CgroupId>) -> (r: Result<(), SysboostError>)
    ensures
        cpu::failure(r) == group_refusal(
            asked@,
            match known {
                Some(known) => Some(known@),
                None => None,
            },
        ),
{
    if asked.mount_id == 0 || asked.inode == 0 {
        return Err(
            workload_node::target_error(
                "production cgroup target lacks complete mount/inode identity",
            ),
        );
    }
    match known {
        None => Err(workload_node::target_error("cgroup target was not discovered by the backend")),
        Some(known) => if known.same(asked) {
            Ok(())
        } else {
            Err(workload_node::target_error("cgroup target identity does not match discovery"))
        },
    }
}

/// Whether a group is the object that was found.
pub fn check_unchanged(known: &CgroupId, mount_id: u64, inode: u64) -> (r: Result<
    (),
    SysboostError,
>)
    ensures
        cpu::failure(r) == if known@.mount_id != mount_id || known@.inode != inode {
            Some(workload_node::target_fault("cgroup target was replaced after discovery"@))
        } else {
            None
        },
{
    if known.mount_id != mount_id || known.inode != inode {
        Err(workload_node::target_error("cgroup target was replaced after discovery"))
    } else {
        Ok(())
    }
}

/// Why an object is not what it has to be, if it is not.
pub open spec fn object_refusal(found: GroupFound, wanted: EntryKind, message: Seq<char>) -> Option<
    ErrorView,
> {
    match found {
        GroupFound::Object(kind) => if kind == wanted {
            None
        } else {
            Some(workload_node::target_fault(message))
        },
        GroupFound::Failed(failure) => Some(
            workload_node::fault(workload_node::failure_code(failure), message),
        ),
    }
}

/// Whether an object is what it has to be. A link is nothing else.
pub fn check_object(found: GroupFound, wanted: EntryKind, message: &str) -> (r: Result<
    (),
    SysboostError,
>)
    ensures
        cpu::failure(r) == object_refusal(found, wanted, message@),
{
    match found {
        GroupFound::Object(kind) => if kind == wanted {
            Ok(())
        } else {
            Err(workload_node::target_error(message))
        },
        GroupFound::Failed(failure) => Err(workload_node::io_error(failure, message)),
    }
}

/// The words of a list of controllers; bytes that are no text hold none.
pub open spec fn listed(raw: Seq<u8>) -> Seq<Seq<char>> {
    match text::decode_spec(raw) {
        Some(value) => text::words_spec(value),
        None => Seq::empty(),
    }
}

fn lists(raw: &[u8], wanted: &str) -> (r: bool)
    ensures
        r == listed(raw@).contains(wanted@),
{
    let value = match text::decode(raw) {
        Some(value) => value,
        None => {
            return false;
        },
    };
    let chars = text::chars_of(value.as_str());
    let words = text::words(chars.as_slice());
    let name = text::chars_of(wanted);
    let mut i: usize = 0;
    while i < words.len()
        invariant
            i <= words@.len(),
            text::deep_chars(words@) == listed(raw@),
            name@ == wanted@,
            forall|j: int| 0 <= j < i ==> listed(raw@)[j] != wanted@,
        decreases words@.len() - i,
    {
        assert(text::deep_chars(words@)[i as int] == words@[i as int]@);
        if text::same_chars(words[i].as_slice(), name.as_slice()) {
            return true;
        }
        i = i + 1;
    }
    false
}

/// Why a controller cannot be used in a group, if it cannot.
pub open spec fn controller_refusal(
    controllers: Seq<u8>,
    subtree: Seq<u8>,
    controller: Seq<char>,
    read_only: bool,
) -> Option<ErrorView> {
    if !listed(controllers).contains(controller) && !listed(subtree).contains(controller) {
        Some(workload_node::unsupported_fault("cgroup controller is unavailable"@))
    } else if read_only {
        Some(
            workload_node::fault(
                ErrorCode::AuthorizationError,
                "cgroup controller is not delegated for writing"@,
            ),
        )
    } else {
        None
    }
}

/// Whether a controller can be used in a group, by what the group lists and
/// whether its directory can be written.
pub fn check_controller(
    controllers: &[u8],
    subtree: &[u8],
    controller: &str,
    read_only: bool,
) -> (r: Result<(), SysboostError>)
    ensures
        cpu::failure(r) == controller_refusal(controllers@, subtree@, controller@, read_only),
{
    if !lists(controllers, controller) && !lists(subtree, controller) {
        return Err(workload_node::unsupported("cgroup controller is unavailable"));
    }
    if read_only {
        return Err(
            workload_node::permission_error("cgroup controller is not delegated for writing"),
        );
    }
    Ok(())
}

/// Whether a control can be written.
pub fn check_writable(read_only: bool) -> (r: Result<(), SysboostError>)
    ensures
        cpu::failure(r) == if read_only {
            Some(
                workload_node::fault(
                    ErrorCode::AuthorizationError,
                    "cgroup controller is not writable by the backend"@,
                ),
            )
        } else {
            None
        },
{
    if read_only {
        Err(workload_node::permission_error("cgroup controller is not writable by the backend"))
    } else {
        Ok(())
    }
}

/// Whether a file is short enough to be a control.
pub fn check_read_length(length: usize) -> (r: Result<(), SysboostError>)
    ensures
        cpu::failure(r) == if length > MAX_READ_BYTES {
            Some(workload_node::target_fault("workload control file is oversized"@))
        } else {
            None
        },
{
    if length > MAX_READ_BYTES {
        Err(workload_node::target_error("workload control file is oversized"))
    } else {
        Ok(())
    }
}

/// What is read for a mutation of a group.
#[derive(Debug, PartialEq, Eq)]
pub enum GroupRead {
    Control { group: CgroupId, node: WorkloadNode },
    Child { parent: CgroupId, name: CgroupName, kind: CgroupGroupKind },
}

/// What is read for a mutation of a group.
pub fn plan_group_read(kind: &MutationKind) -> (r: Result<GroupRead, SysboostError>)
    ensures
        match r {
            Ok(GroupRead::Control { group, node }) => workload_model::control_of(kind@) == Some(
                (group@, node),
            ),
            Ok(GroupRead::Child { parent, name, kind: purpose }) => workload_model::child_of(kind@)
                == Some((parent@, name@, purpose)),
            Err(e) => workload_model::control_of(kind@) is None && workload_model::child_of(kind@)
                is None && e@ == workload_node::unsupported_fault(
                "production mutation is not a cgroup operation"@,
            ),
        },
{
    match kind {
        MutationKind::CgroupCpuWeight { cgroup, .. } => Ok(
            GroupRead::Control { group: cgroup.clone(), node: WorkloadNode::CpuWeight },
        ),
        MutationKind::CgroupCpuMax { cgroup, .. } => Ok(
            GroupRead::Control { group: cgroup.clone(), node: WorkloadNode::CpuMax },
        ),
        MutationKind::CgroupCpuset { cgroup, .. } => Ok(
            GroupRead::Control { group: cgroup.clone(), node: WorkloadNode::CpusetCpus },
        ),
        MutationKind::CgroupIoWeight { cgroup, .. } => Ok(
            GroupRead::Control { group: cgroup.clone(), node: WorkloadNode::IoWeight },
        ),
        MutationKind::CgroupUclampMin { cgroup, .. } => Ok(
            GroupRead::Control { group: cgroup.clone(), node: WorkloadNode::UclampMin },
        ),
        MutationKind::CgroupUclampMax { cgroup, .. } => Ok(
            GroupRead::Control { group: cgroup.clone(), node: WorkloadNode::UclampMax },
        ),
        MutationKind::CgroupWorkload { parent, name } => Ok(
            GroupRead::Child {
                parent: parent.clone(),
                name: name.clone(),
                kind: CgroupGroupKind::Workload,
            },
        ),
        MutationKind::CgroupBackground { parent, name } => Ok(
            GroupRead::Child {
                parent: parent.clone(),
                name: name.clone(),
                kind: CgroupGroupKind::ConservativeBackground,
            },
        ),
        _ => Err(workload_node::unsupported("production mutation is not a cgroup operation")),
    }
}

/// What is read for a mutation of a process.
#[derive(Clone, Copy, Debug, PartialEq, Eq, Structural)]
pub enum ProcessRead {
    Nice(ProcessId),
    IoPriority(ProcessId),
    Placement(ProcessId),
}

/// What is read for a mutation of a process.
pub open spec fn process_read(kind: KindView) -> Result<ProcessRead, ErrorView> {
    match kind {
        KindView::ProcessNice { process, .. } => Ok(ProcessRead::Nice(process)),
        KindView::ProcessIoPriority { process, .. } => Ok(ProcessRead::IoPriority(process)),
        KindView::ProcessPlacement { process, .. } => Ok(ProcessRead::Placement(process)),
        _ => Err(
            workload_node::unsupported_fault("production mutation is not a process operation"@),
        ),
    }
}

/// What is read for a mutation of a process.
pub fn plan_process_read(kind: &MutationKind) -> (r: Result<ProcessRead, SysboostError>)
    ensures
        crate::error::plain(r) == process_read(kind@),
{
    match kind {
        MutationKind::ProcessNice { process, .. } => Ok(ProcessRead::Nice(*process)),
        MutationKind::ProcessIoPriority { process, .. } => Ok(ProcessRead::IoPriority(*process)),
        MutationKind::ProcessPlacement { process, .. } => Ok(ProcessRead::Placement(*process)),
        _ => Err(workload_node::unsupported("production mutation is not a process operation")),
    }
}

/// The process that is read.
pub open spec fn process_of_read(read: ProcessRead) -> ProcessId {
    match read {
        ProcessRead::Nice(process) => process,
        ProcessRead::IoPriority(process) => process,
        ProcessRead::Placement(process) => process,
    }
}

impl ProcessRead {
    /// The process that is read, whose identity has to be checked before and after.
    pub fn process(&self) -> (r: ProcessId)
        ensures
            r == process_of_read(*self),
    {
        match self {
            ProcessRead::Nice(process) => *process,
            ProcessRead::IoPriority(process) => *process,
            ProcessRead::Placement(process) => *process,
        }
    }
}

/// Why a process is not read, if it is not, by what was found of its identity. The
/// I/O priority of a process cannot be read on a real host, but a process that is gone
/// is reported as such first.
pub open spec fn read_refusal(read: ProcessRead, identity: Option<ErrorView>) -> Option<ErrorView> {
    match identity {
        Some(e) => Some(e),
        None => if read is IoPriority {
            Some(workload_node::unsupported_fault("production ioprio adapter is unavailable"@))
        } else {
            None
        },
    }
}

/// Whether a process is read, by what was found of its identity.
pub fn admit_process_read(read: &ProcessRead, identity: Result<(), SysboostError>) -> (r: Result<
    (),
    SysboostError,
>)
    ensures
        cpu::failure(r) == read_refusal(*read, cpu::failure(identity)),
{
    match identity {
        Err(e) => Err(e),
        Ok(_) => match read {
            ProcessRead::IoPriority(_) => Err(
                workload_node::unsupported("production ioprio adapter is unavailable"),
            ),
            _ => Ok(()),
        },
    }
}

/// What has to hold of a host before a value is written.
#[derive(Debug, PartialEq, Eq)]
pub enum WorkloadCheck {
    /// A control of a group can be written.
    Control { group: CgroupId, node: WorkloadNode },
    /// Both clamps of a group can be written and do not cross once one is set.
    Clamps { group: CgroupId, node: WorkloadNode, value: UclampValue },
    /// Groups can be made below a group.
    Parent { parent: CgroupId },
    /// A group is there, and so is a process.
    Placement { process: ProcessId, group: CgroupId },
    /// A process is there.
    Process { process: ProcessId },
}

/// What has to hold of a host, as plain values.
#[verifier::ext_equal]
pub enum CheckView {
    Control { group: CgroupView, node: WorkloadNode },
    Clamps { group: CgroupView, node: WorkloadNode, value: UclampValue },
    Parent { parent: CgroupView },
    Placement { process: ProcessId, group: CgroupView },
    Process { process: ProcessId },
}

impl View for WorkloadCheck {
    type V = CheckView;

    open spec fn view(&self) -> CheckView {
        match *self {
            WorkloadCheck::Control { group, node } => CheckView::Control { group: group@, node },
            WorkloadCheck::Clamps { group, node, value } => CheckView::Clamps {
                group: group@,
                node,
                value,
            },
            WorkloadCheck::Parent { parent } => CheckView::Parent { parent: parent@ },
            WorkloadCheck::Placement { process, group } => CheckView::Placement {
                process,
                group: group@,
            },
            WorkloadCheck::Process { process } => CheckView::Process { process },
        }
    }
}

/// What has to hold of a host before a mutation writes a value, or why it is not
/// written whatever holds.
pub open spec fn check_for(kind: KindView, desired: ValueView) -> Result<CheckView, ErrorView> {
    if kind.desired() != desired {
        Err(
            workload_node::fault(
                ErrorCode::PlanningError,
                "workload kind and desired value disagree"@,
            ),
        )
    } else {
        match kind {
            KindView::CgroupCpuWeight { cgroup, .. } => Ok(
                CheckView::Control { group: cgroup, node: WorkloadNode::CpuWeight },
            ),
            KindView::CgroupCpuMax { cgroup, .. } => Ok(
                CheckView::Control { group: cgroup, node: WorkloadNode::CpuMax },
            ),
            KindView::CgroupCpuset { cgroup, .. } => Ok(
                CheckView::Control { group: cgroup, node: WorkloadNode::CpusetCpus },
            ),
            KindView::CgroupIoWeight { cgroup, .. } => Ok(
                CheckView::Control { group: cgroup, node: WorkloadNode::IoWeight },
            ),
            KindView::CgroupUclampMin { cgroup, value } => Ok(
                CheckView::Clamps { group: cgroup, node: WorkloadNode::UclampMin, value },
            ),
            KindView::CgroupUclampMax { cgroup, value } => Ok(
                CheckView::Clamps { group: cgroup, node: WorkloadNode::UclampMax, value },
            ),
            KindView::CgroupWorkload { parent, .. } => Ok(CheckView::Parent { parent }),
            KindView::CgroupBackground { parent, .. } => Ok(CheckView::Parent { parent }),
            KindView::ProcessPlacement { process, cgroup } => Ok(
                CheckView::Placement { process, group: cgroup },
            ),
            KindView::ProcessNice { process, .. } => Ok(CheckView::Process { process }),
            KindView::ProcessIoPriority { .. } => Err(
                workload_node::unsupported_fault("production ioprio adapter is unavailable"@),
            ),
            _ => Err(
                workload_node::unsupported_fault(
                    "production backend does not own this workload operation"@,
                ),
            ),
        }
    }
}

/// What has to hold of a host before a mutation writes a value.
pub fn plan_check(kind: &MutationKind, desired: &TypedValue) -> (r: Result<
    WorkloadCheck,
    SysboostError,
>)
    ensures
        crate::error::viewed(r) == check_for(kind@, desired@),
{
    if !kind.typed_value().same(desired) {
        return Err(
            workload_node::workload_error(
                ErrorCode::PlanningError,
                "workload kind and desired value disagree",
            ),
        );
    }
    match kind {
        MutationKind::CgroupCpuWeight { cgroup, .. } => Ok(
            WorkloadCheck::Control { group: cgroup.clone(), node: WorkloadNode::CpuWeight },
        ),
        MutationKind::CgroupCpuMax { cgroup, .. } => Ok(
            WorkloadCheck::Control { group: cgroup.clone(), node: WorkloadNode::CpuMax },
        ),
        MutationKind::CgroupCpuset { cgroup, .. } => Ok(
            WorkloadCheck::Control { group: cgroup.clone(), node: WorkloadNode::CpusetCpus },
        ),
        MutationKind::CgroupIoWeight { cgroup, .. } => Ok(
            WorkloadCheck::Control { group: cgroup.clone(), node: WorkloadNode::IoWeight },
        ),
        MutationKind::CgroupUclampMin { cgroup, value } => Ok(
            WorkloadCheck::Clamps {
                group: cgroup.clone(),
                node: WorkloadNode::UclampMin,
                value: *value,
            },
        ),
        MutationKind::CgroupUclampMax { cgroup, value } => Ok(
            WorkloadCheck::Clamps {
                group: cgroup.clone(),
                node: WorkloadNode::UclampMax,
                value: *value,
            },
        ),
        MutationKind::CgroupWorkload { parent, .. } => Ok(
            WorkloadCheck::Parent { parent: parent.clone() },
        ),
        MutationKind::CgroupBackground { parent, .. } => Ok(
            WorkloadCheck::Parent { parent: parent.clone() },
        ),
        MutationKind::ProcessPlacement { process, cgroup } => Ok(
            WorkloadCheck::Placement { process: *process, group: cgroup.clone() },
        ),
        MutationKind::ProcessNice { process, .. } => Ok(WorkloadCheck::Process { process: *process }),
        MutationKind::ProcessIoPriority { .. } => Err(
            workload_node::unsupported("production ioprio adapter is unavailable"),
        ),
        _ => Err(
            workload_node::unsupported("production backend does not own this workload operation"),
        ),
    }
}

/// Whether a clamp can be asked for at all: the lower one has a number.
pub fn check_clamp_request(node: WorkloadNode, value: UclampValue) -> (r: Result<
    (),
    SysboostError,
>)
    ensures
        cpu::failure(r) == if node == WorkloadNode::UclampMin && value == UclampValue::Max {
            Some(
                workload_node::fault(
                    ErrorCode::InvalidInput,
                    "uclamp.min cannot use the max sentinel"@,
                ),
            )
        } else {
            None
        },
{
    if node == WorkloadNode::UclampMin && value == UclampValue::Max {
        Err(
            workload_node::workload_error(
                ErrorCode::InvalidInput,
                "uclamp.min cannot use the max sentinel",
            ),
        )
    } else {
        Ok(())
    }
}

/// Why a clamp does not go with what the other control holds, if it does not.
pub open spec fn clamp_refusal(node: WorkloadNode, value: UclampValue, other: Seq<u8>) -> Option<
    ErrorView,
> {
    match workload_node::uclamp_in(other) {
        Err(e) => Some(e),
        Ok(held) => if node == WorkloadNode::UclampMin {
            workload_model::clamp_refusal(value, held)
        } else {
            workload_model::clamp_refusal(held, value)
        },
    }
}

/// Whether a clamp goes with what the other control holds.
pub fn check_clamp(node: WorkloadNode, value: UclampValue, other: &[u8]) -> (r: Result<
    (),
    SysboostError,
>)
    ensures
        cpu::failure(r) == clamp_refusal(node, value, other@),
{
    match workload_node::parse_uclamp(other) {
        Err(e) => Err(e),
        Ok(held) => if node == WorkloadNode::UclampMin {
            workload_node::validate_uclamp_pair(value, held)
        } else {
            workload_node::validate_uclamp_pair(held, value)
        },
    }
}

impl View for WorkloadTarget {
    type V = (CgroupView, Seq<char>);

    open spec fn view(&self) -> (CgroupView, Seq<char>) {
        (self.identity@, self.relative_path@)
    }
}

impl Keyed for WorkloadTarget {
    open spec fn key_of(row: (CgroupView, Seq<char>)) -> Key {
        (row.1, None)
    }

    fn before(&self, other: &WorkloadTarget) -> (r: bool) {
        text::less(self.relative_path.as_str(), other.relative_path.as_str())
    }
}

/// Groups in the order of their paths.
pub fn sort_targets(targets: Vec<WorkloadTarget>) -> (r: Vec<WorkloadTarget>)
    ensures
        order::views(r@) == order::sorted::<WorkloadTarget>(order::views(targets@)),
{
    order::sort(targets)
}

/// What is planned for a control is planned for one file: a write goes to the file
/// that is read for the mutation and that is examined before it, and this is the
/// file that the kernel keeps for what the mutation is about. Every other mutation
/// writes no control.
pub proof fn controls_are_written_where_they_are_read(
    kind: KindView,
    desired: ValueView,
    group: CgroupView,
    node: WorkloadNode,
    text: Seq<char>,
)
    requires
        workload_node::write_for(kind, desired) == Ok::<workload_node::WriteView, ErrorView>(
            workload_node::WriteView::Control { group, node, text },
        ),
    ensures
        match kind {
            KindView::CgroupCpuWeight { cgroup, .. } => group == cgroup && node.filename_spec()
                == "cpu.weight"@,
            KindView::CgroupCpuMax { cgroup, .. } => group == cgroup && node.filename_spec()
                == "cpu.max"@,
            KindView::CgroupCpuset { cgroup, .. } => group == cgroup && node.filename_spec()
                == "cpuset.cpus"@,
            KindView::CgroupIoWeight { cgroup, .. } => group == cgroup && node.filename_spec()
                == "io.weight"@,
            KindView::CgroupUclampMin { cgroup, .. } => group == cgroup && node.filename_spec()
                == "cpu.uclamp.min"@,
            KindView::CgroupUclampMax { cgroup, .. } => group == cgroup && node.filename_spec()
                == "cpu.uclamp.max"@,
            _ => false,
        },
        workload_model::control_of(kind) == Some((group, node)),
        check_for(kind, desired) matches Ok(check) ==> match check {
            CheckView::Control { group: g, node: n } => g == group && n == node,
            CheckView::Clamps { group: g, node: n, .. } => g == group && n == node,
            _ => false,
        },
{
}

/// A value that a control can hold is written to it: a mutation of a control, with
/// a value of its sort, is planned as a write of that control.
pub proof fn controls_are_written(kind: KindView)
    ensures
        workload_model::control_of(kind) is Some ==> (workload_node::write_for(kind, kind.desired())
            matches Ok(workload_node::WriteView::Control { group, node, .. })
            && workload_model::control_of(kind) == Some((group, node))),
        workload_model::control_of(kind) is None ==> !(workload_node::write_for(
            kind,
            kind.desired(),
        ) matches Ok(workload_node::WriteView::Control { .. })),
{
}

/// Two mutations that write the same file of the same group are about the same
/// control: neither a floor is written over a ceiling, nor a weight over a limit.
pub proof fn two_controls_never_share_a_file(
    one: KindView,
    one_desired: ValueView,
    other: KindView,
    other_desired: ValueView,
    group: CgroupView,
    node: WorkloadNode,
    text: Seq<char>,
    other_text: Seq<char>,
)
    requires
        workload_node::write_for(one, one_desired) == Ok::<workload_node::WriteView, ErrorView>(
            workload_node::WriteView::Control { group, node, text },
        ),
        workload_node::write_for(other, other_desired) == Ok::<workload_node::WriteView, ErrorView>(
            workload_node::WriteView::Control { group, node, text: other_text },
        ),
    ensures
        one is CgroupCpuWeight <==> other is CgroupCpuWeight,
        one is CgroupCpuMax <==> other is CgroupCpuMax,
        one is CgroupCpuset <==> other is CgroupCpuset,
        one is CgroupIoWeight <==> other is CgroupIoWeight,
        one is CgroupUclampMin <==> other is CgroupUclampMin,
        one is CgroupUclampMax <==> other is CgroupUclampMax,
        node == WorkloadNode::UclampMin <==> one is CgroupUclampMin,
        node == WorkloadNode::UclampMax <==> one is CgroupUclampMax,
{
}

/// What is written to a control is the kernel's text for the value: a number in
/// decimal digits, `max` for no limit, the limit before the period, and the share
/// of input and output as the default of the group.
pub proof fn controls_are_written_in_the_kernels_words(
    group: CgroupView,
    weight: crate::value::CpuWeight,
    share: crate::value::IoWeight,
    period: crate::value::CpuPeriod,
    micros: u64,
    clamp: u16,
)
    ensures
        workload_node::write_for(
            KindView::CgroupCpuWeight { cgroup: group, weight },
            ValueView::CgroupCpuWeight(weight),
        ) matches Ok(workload_node::WriteView::Control { text, .. }) && text == text::decimal_spec(
            weight.value as nat,
        ),
        workload_node::write_for(
            KindView::CgroupIoWeight { cgroup: group, weight: share },
            ValueView::CgroupIoWeight(share),
        ) matches Ok(workload_node::WriteView::Control { text, .. }) && text == "default "@
            + text::decimal_spec(share.value as nat),
        workload_node::cpu_max_text(crate::value::CpuQuota::Max, period) == "max "@
            + text::decimal_spec(period.value as nat),
        workload_node::cpu_max_text(crate::value::CpuQuota::Micros(micros), period)
            == text::decimal_spec(micros as nat) + " "@ + text::decimal_spec(period.value as nat),
        workload_node::uclamp_text(UclampValue::Max) == "max"@,
        workload_node::uclamp_text(UclampValue::Value(clamp)) == text::decimal_spec(clamp as nat),
{
    reveal_strlit("max");
    reveal_strlit(" ");
    reveal_strlit("max ");
    assert("max"@ + " "@ =~= "max "@);
}

/// A clamp is written only where the floor stays at or below the ceiling: a floor is
/// held against the ceiling that stands in the other file, and a ceiling against the
/// floor.
pub proof fn clamps_never_cross(value: UclampValue, other: Seq<u8>, held: UclampValue)
    requires
        workload_node::uclamp_in(other) == Ok::<UclampValue, ErrorView>(held),
    ensures
        clamp_refusal(WorkloadNode::UclampMin, value, other) is None
            ==> workload_node::clamp_number(value) <= workload_node::clamp_number(held),
        clamp_refusal(WorkloadNode::UclampMax, value, other) is None
            ==> workload_node::clamp_number(held) <= workload_node::clamp_number(value),
        workload_node::clamp_number(UclampValue::Max) == 1024,
{
}

/// A group that is to be there is made and one that is to be gone is taken away,
/// under the parent and the name that were asked for, for either purpose. A process
/// is what is set and moved, and what is read for it is about that process.
pub proof fn groups_and_processes_are_handled_as_asked(
    parent: CgroupView,
    name: Seq<char>,
    purpose: CgroupGroupKind,
    process: ProcessId,
    nice: crate::value::NiceValue,
    group: CgroupView,
)
    ensures
        ({
            let made = Ok::<workload_node::WriteView, ErrorView>(
                workload_node::WriteView::CreateGroup { parent, name },
            );
            let gone = Ok::<workload_node::WriteView, ErrorView>(
                workload_node::WriteView::RemoveGroup { parent, name },
            );
            let there = ValueView::CgroupLifecycle { kind: purpose, name, present: true };
            let absent = ValueView::CgroupLifecycle { kind: purpose, name, present: false };
            &&& workload_node::write_for(KindView::CgroupWorkload { parent, name }, there) == made
            &&& workload_node::write_for(KindView::CgroupBackground { parent, name }, there) == made
            &&& workload_node::write_for(KindView::CgroupWorkload { parent, name }, absent) == gone
            &&& workload_node::write_for(KindView::CgroupBackground { parent, name }, absent)
                == gone
        }),
        workload_node::write_for(KindView::ProcessNice { process, nice }, ValueView::Nice(nice))
            == Ok::<workload_node::WriteView, ErrorView>(
            workload_node::WriteView::SetNice { process, nice },
        ),
        workload_node::write_for(
            KindView::ProcessPlacement { process, cgroup: group },
            ValueView::ProcessPlacement(group),
        ) == Ok::<workload_node::WriteView, ErrorView>(
            workload_node::WriteView::MoveProcess { process, group },
        ),
        process_read(KindView::ProcessNice { process, nice }) == Ok::<ProcessRead, ErrorView>(
            ProcessRead::Nice(process),
        ),
        process_read(KindView::ProcessPlacement { process, cgroup: group }) == Ok::<
            ProcessRead,
            ErrorView,
        >(ProcessRead::Placement(process)),
{
}

} // verus!
