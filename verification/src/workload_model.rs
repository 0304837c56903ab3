//! What a host with control groups and processes holds, and how writes change it.

use vstd::prelude::*;

use crate::capability::{CapabilityState, CapabilityView, FeatureClass, TargetKind};
use crate::error::{ErrorCode, ErrorView};
use crate::mutation::{EqualityKind, KindView};
use crate::text;
use crate::value::{
    CgroupGroupKind, CgroupView, CpuPeriod, CpuQuota, CpuWeight, IoPriority, IoWeight, NiceValue,
    ProcessId, UclampValue, ValueView,
};
use crate::workload;
use crate::workload::ObservationView;
use crate::workload_node;
use crate::workload_node::WorkloadNode;

verus! {

/// One group.
#[verifier::ext_equal]
pub struct GroupModel {
    /// The target that the group is found by. The group may have become another
    /// object since.
    pub key: Seq<char>,
    pub identity: CgroupView,
    pub relative_path: Seq<char>,
    /// The controllers that the group has.
    pub controllers: Set<Seq<char>>,
    /// The controllers that may be used in it.
    pub delegated: Set<Seq<char>>,
    pub cpu_weight: CpuWeight,
    pub cpu_quota: CpuQuota,
    pub cpu_period: CpuPeriod,
    pub cpuset: Seq<u32>,
    pub io_weight: IoWeight,
    pub uclamp_min: UclampValue,
    pub uclamp_max: UclampValue,
    pub processes: Set<ProcessId>,
}

/// One process.
#[verifier::ext_equal]
pub struct ProcessModel {
    /// The target of its group.
    pub cgroup: Seq<char>,
    pub nice: NiceValue,
    pub ioprio: IoPriority,
}

/// A host.
#[verifier::ext_equal]
pub struct CgroupModel {
    /// The groups, in ascending order of their targets.
    pub groups: Seq<GroupModel>,
    pub processes: Map<ProcessId, ProcessModel>,
}

/// A group that nothing was written to yet.
pub open spec fn fresh_group(
    identity: CgroupView,
    relative_path: Seq<char>,
    controllers: Set<Seq<char>>,
    delegated: Set<Seq<char>>,
    cpuset: Seq<u32>,
) -> GroupModel {
    GroupModel {
        key: identity.handle,
        identity,
        relative_path,
        controllers,
        delegated,
        cpu_weight: CpuWeight { value: 100 },
        cpu_quota: CpuQuota::Max,
        cpu_period: CpuPeriod { value: 100_000 },
        cpuset,
        io_weight: IoWeight { value: 100 },
        uclamp_min: UclampValue::Value(0),
        uclamp_max: UclampValue::Max,
        processes: Set::empty(),
    }
}

/// The controllers that a group has unless it is told otherwise.
pub open spec fn all_controllers() -> Set<Seq<char>> {
    Set::empty().insert("cpu"@).insert("cpuset"@).insert("io"@)
}

/// A group with all controllers.
pub open spec fn added_group(identity: CgroupView, relative_path: Seq<char>) -> GroupModel {
    fresh_group(identity, relative_path, all_controllers(), all_controllers(), seq![0u32, 1u32])
}

/// A group below another, with its controllers and CPUs.
pub open spec fn child_group(parent: GroupModel, name: Seq<char>, identity: CgroupView)
    -> GroupModel {
    fresh_group(
        identity,
        workload_node::child_path_spec(parent.relative_path, name),
        parent.controllers,
        parent.delegated,
        parent.cpuset,
    )
}

/// Where a group stands, or -1.
pub open spec fn position(groups: Seq<GroupModel>, key: Seq<char>) -> int
    decreases groups.len(),
{
    if groups.len() == 0 {
        -1
    } else if groups.last().key == key {
        groups.len() - 1
    } else {
        position(groups.drop_last(), key)
    }
}

/// Groups with one more, or with another in its place.
pub open spec fn with_group(groups: Seq<GroupModel>, group: GroupModel) -> Seq<GroupModel>
    decreases groups.len(),
{
    if groups.len() == 0 || text::less_spec(groups.last().key, group.key) {
        groups.push(group)
    } else if groups.last().key == group.key {
        groups.drop_last().push(group)
    } else {
        with_group(groups.drop_last(), group).push(groups.last())
    }
}

/// Groups without one.
pub open spec fn without_group(groups: Seq<GroupModel>, key: Seq<char>) -> Seq<GroupModel>
    decreases groups.len(),
{
    if groups.len() == 0 {
        groups
    } else if groups.last().key == key {
        without_group(groups.drop_last(), key)
    } else {
        without_group(groups.drop_last(), key).push(groups.last())
    }
}

/// Whether groups are in ascending order of their targets, so that none is there
/// twice.
pub open spec fn in_order(groups: Seq<GroupModel>) -> bool {
    forall|i: int, j: int|
        0 <= i < j < groups.len() ==> text::less_spec(
            (#[trigger] groups[i]).key,
            (#[trigger] groups[j]).key,
        )
}

/// A group of the host.
pub open spec fn group_at(model: CgroupModel, key: Seq<char>) -> Option<GroupModel> {
    let i = position(model.groups, key);
    if i >= 0 {
        Some(model.groups[i])
    } else {
        None
    }
}

/// The host with another group in the place of one with the same target.
pub open spec fn replaced(model: CgroupModel, group: GroupModel) -> CgroupModel {
    CgroupModel {
        groups: model.groups.update(position(model.groups, group.key), group),
        ..model
    }
}

/// The host with one more group, or with another in its place.
pub open spec fn with_one(model: CgroupModel, group: GroupModel) -> CgroupModel {
    CgroupModel { groups: with_group(model.groups, group), ..model }
}

/// The group that is named. A zero stands for any mount or any inode.
pub open spec fn resolved(model: CgroupModel, group: CgroupView) -> Result<GroupModel, ErrorView> {
    match group_at(model, group.handle) {
        None => Err(workload_node::target_fault("cgroup target was not discovered"@)),
        Some(found) => if (group.mount_id != 0 && group.mount_id != found.identity.mount_id) || (
        group.inode != 0 && group.inode != found.identity.inode) {
            Err(workload_node::target_fault("cgroup target identity does not match discovery"@))
        } else {
            Ok(found)
        },
    }
}

/// Why a controller cannot be used in a group, if it cannot.
pub open spec fn controller_refusal(group: GroupModel, controller: Seq<char>) -> Option<ErrorView> {
    if !group.controllers.contains(controller) {
        Some(workload_node::unsupported_fault("cgroup controller is unavailable"@))
    } else if !group.delegated.contains(controller) {
        Some(
            workload_node::fault(
                ErrorCode::AuthorizationError,
                "cgroup controller is not delegated"@,
            ),
        )
    } else {
        None
    }
}

/// The text of a control.
pub open spec fn node_text(group: GroupModel, node: WorkloadNode) -> Seq<char> {
    let value = match node {
        WorkloadNode::CpuWeight => text::decimal_spec(group.cpu_weight.value as nat),
        WorkloadNode::CpuMax => workload_node::cpu_max_text(group.cpu_quota, group.cpu_period),
        WorkloadNode::CpusetCpus => workload_node::cpuset_text(group.cpuset),
        WorkloadNode::IoWeight => text::decimal_spec(group.io_weight.value as nat),
        WorkloadNode::UclampMin => workload_node::uclamp_text(group.uclamp_min),
        WorkloadNode::UclampMax => workload_node::uclamp_text(group.uclamp_max),
    };
    value + "\n"@
}

/// The value of a control.
pub open spec fn node_value(group: GroupModel, node: WorkloadNode) -> ValueView {
    match node {
        WorkloadNode::CpuWeight => ValueView::CgroupCpuWeight(group.cpu_weight),
        WorkloadNode::CpuMax => ValueView::CgroupCpuMax {
            quota: group.cpu_quota,
            period: group.cpu_period,
        },
        WorkloadNode::CpusetCpus => ValueView::CgroupCpuset(group.cpuset),
        WorkloadNode::IoWeight => ValueView::CgroupIoWeight(group.io_weight),
        WorkloadNode::UclampMin => ValueView::CgroupUclamp(group.uclamp_min),
        WorkloadNode::UclampMax => ValueView::CgroupUclamp(group.uclamp_max),
    }
}

/// The bytes of a control of a group that is named.
pub open spec fn node_bytes(model: CgroupModel, group: CgroupView, node: WorkloadNode) -> Result<
    Seq<u8>,
    ErrorView,
> {
    match resolved(model, group) {
        Err(e) => Err(e),
        Ok(found) => match controller_refusal(found, node.controller_spec()) {
            Some(e) => Err(e),
            None => Ok(vstd::utf8::encode_utf8(node_text(found, node))),
        },
    }
}

/// The control that a mutation is about, if it is about one.
pub open spec fn control_of(kind: KindView) -> Option<(CgroupView, WorkloadNode)> {
    match kind {
        KindView::CgroupCpuWeight { cgroup, .. } => Some((cgroup, WorkloadNode::CpuWeight)),
        KindView::CgroupCpuMax { cgroup, .. } => Some((cgroup, WorkloadNode::CpuMax)),
        KindView::CgroupCpuset { cgroup, .. } => Some((cgroup, WorkloadNode::CpusetCpus)),
        KindView::CgroupIoWeight { cgroup, .. } => Some((cgroup, WorkloadNode::IoWeight)),
        KindView::CgroupUclampMin { cgroup, .. } => Some((cgroup, WorkloadNode::UclampMin)),
        KindView::CgroupUclampMax { cgroup, .. } => Some((cgroup, WorkloadNode::UclampMax)),
        _ => None,
    }
}

/// The group below another that a mutation is about, if it is about one.
pub open spec fn child_of(kind: KindView) -> Option<(CgroupView, Seq<char>, CgroupGroupKind)> {
    match kind {
        KindView::CgroupWorkload { parent, name } => Some(
            (parent, name, CgroupGroupKind::Workload),
        ),
        KindView::CgroupBackground { parent, name } => Some(
            (parent, name, CgroupGroupKind::ConservativeBackground),
        ),
        _ => None,
    }
}

/// The process that a mutation is about, if it is about one.
pub open spec fn process_in(kind: KindView) -> Option<ProcessId> {
    match kind {
        KindView::ProcessPlacement { process, .. } => Some(process),
        KindView::ProcessNice { process, .. } => Some(process),
        KindView::ProcessIoPriority { process, .. } => Some(process),
        _ => None,
    }
}

/// What a control of a group that is named holds.
pub open spec fn control_state(model: CgroupModel, group: CgroupView, node: WorkloadNode) -> Result<
    ObservationView,
    ErrorView,
> {
    match resolved(model, group) {
        Err(e) => Err(e),
        Ok(found) => match controller_refusal(found, node.controller_spec()) {
            Some(e) => Err(e),
            None => workload::observation(
                vstd::utf8::encode_utf8(node_text(found, node)),
                node_value(found, node),
                workload_node::cgroup_identity_spec(found.identity),
            ),
        },
    }
}

/// Whether a group stands below another.
pub open spec fn child_state(
    model: CgroupModel,
    parent: CgroupView,
    name: Seq<char>,
    kind: CgroupGroupKind,
) -> Result<ObservationView, ErrorView> {
    match resolved(model, parent) {
        Err(e) => Err(e),
        Ok(found) => match controller_refusal(found, "cpu"@) {
            Some(e) => Err(e),
            None => {
                let present = group_at(model, workload_node::child_name(parent.handle, name))
                    is Some;
                workload::observation(
                    vstd::utf8::encode_utf8(
                        if present {
                            "present\n"@
                        } else {
                            "absent\n"@
                        },
                    ),
                    ValueView::CgroupLifecycle { kind, name, present },
                    workload_node::cgroup_identity_spec(found.identity),
                )
            },
        },
    }
}

/// What the group that a mutation is about holds.
pub open spec fn group_state(model: CgroupModel, kind: KindView) -> Result<
    ObservationView,
    ErrorView,
> {
    match control_of(kind) {
        Some((group, node)) => control_state(model, group, node),
        None => match child_of(kind) {
            Some((parent, name, purpose)) => child_state(model, parent, name, purpose),
            None => Err(
                workload_node::unsupported_fault("fixture mutation is not a cgroup operation"@),
            ),
        },
    }
}

/// What the process that a mutation is about holds.
pub open spec fn process_value(process: ProcessModel, group: GroupModel, kind: KindView)
    -> ValueView {
    match kind {
        KindView::ProcessNice { .. } => ValueView::Nice(process.nice),
        KindView::ProcessIoPriority { .. } => ValueView::IoPriority(process.ioprio),
        _ => ValueView::ProcessPlacement(group.identity),
    }
}

pub open spec fn process_gone() -> ErrorView {
    workload_node::target_fault("fixture process disappeared"@)
}

/// What the process that a mutation is about holds.
pub open spec fn process_state(model: CgroupModel, kind: KindView) -> Result<
    ObservationView,
    ErrorView,
> {
    match process_in(kind) {
        None => Err(
            workload_node::unsupported_fault("fixture mutation is not a process operation"@),
        ),
        Some(process) => if !model.processes.contains_key(process) {
            Err(process_gone())
        } else {
            match group_at(model, model.processes[process].cgroup) {
                None => Err(
                    workload_node::target_fault("fixture process cgroup disappeared"@),
                ),
                Some(group) => {
                    let typed = process_value(model.processes[process], group, kind);
                    workload::observation(
                        vstd::utf8::encode_utf8(workload_node::process_value_text(typed)),
                        typed,
                        workload_node::process_identity_spec(process),
                    )
                },
            }
        },
    }
}

/// Why a clamp does not go with the other, if it does not.
pub open spec fn clamp_refusal(min: UclampValue, max: UclampValue) -> Option<ErrorView> {
    if workload_node::clamp_number(min) > workload_node::clamp_number(max) {
        Some(workload_node::target_fault("cgroup uclamp minimum exceeds maximum"@))
    } else {
        None
    }
}

/// Why a group does not take a clamp, if it does not.
pub open spec fn clamp_objection(
    model: CgroupModel,
    group: CgroupView,
    node: WorkloadNode,
    value: UclampValue,
) -> Option<ErrorView> {
    match resolved(model, group) {
        Err(e) => Some(e),
        Ok(found) => match controller_refusal(found, "cpu"@) {
            Some(e) => Some(e),
            None => if node == WorkloadNode::UclampMin {
                clamp_refusal(value, found.uclamp_max)
            } else {
                clamp_refusal(found.uclamp_min, value)
            },
        },
    }
}

/// Why a mutation cannot give its target a value, if it cannot.
pub open spec fn write_objection(model: CgroupModel, kind: KindView, desired: ValueView) -> Option<
    ErrorView,
> {
    if kind.desired() != desired {
        Some(
            workload_node::fault(
                ErrorCode::PlanningError,
                "workload kind and desired value disagree"@,
            ),
        )
    } else {
        match kind {
            KindView::CgroupUclampMin { cgroup, value } => if value == UclampValue::Max {
                Some(workload_node::fault(ErrorCode::InvalidInput, "uclamp.min cannot be max"@))
            } else {
                clamp_objection(model, cgroup, WorkloadNode::UclampMin, value)
            },
            KindView::CgroupUclampMax { cgroup, value } => clamp_objection(
                model,
                cgroup,
                WorkloadNode::UclampMax,
                value,
            ),
            KindView::ProcessPlacement { cgroup, .. } => match resolved(model, cgroup) {
                Err(e) => Some(e),
                Ok(_) => None,
            },
            _ => match child_of(kind) {
                None => None,
                Some((parent, _, _)) => match resolved(model, parent) {
                    Err(e) => Some(e),
                    Ok(found) => controller_refusal(found, "cpu"@),
                },
            },
        }
    }
}

/// Whether a control can hold a value.
pub open spec fn takes(node: WorkloadNode, value: ValueView) -> bool {
    match node {
        WorkloadNode::CpuWeight => value is CgroupCpuWeight,
        WorkloadNode::CpuMax => value is CgroupCpuMax,
        WorkloadNode::CpusetCpus => value is CgroupCpuset,
        WorkloadNode::IoWeight => value is CgroupIoWeight,
        WorkloadNode::UclampMin => value is CgroupUclamp,
        WorkloadNode::UclampMax => value is CgroupUclamp,
    }
}

/// A group with another value of a control.
pub open spec fn given(group: GroupModel, node: WorkloadNode, value: ValueView) -> GroupModel {
    match node {
        WorkloadNode::CpuWeight => GroupModel { cpu_weight: value->CgroupCpuWeight_0, ..group },
        WorkloadNode::CpuMax => GroupModel {
            cpu_quota: value->quota,
            cpu_period: value->period,
            ..group
        },
        WorkloadNode::CpusetCpus => GroupModel { cpuset: value->CgroupCpuset_0, ..group },
        WorkloadNode::IoWeight => GroupModel { io_weight: value->CgroupIoWeight_0, ..group },
        WorkloadNode::UclampMin => GroupModel { uclamp_min: value->CgroupUclamp_0, ..group },
        WorkloadNode::UclampMax => GroupModel { uclamp_max: value->CgroupUclamp_0, ..group },
    }
}

pub open spec fn open_shape() -> ErrorView {
    workload_node::fault(ErrorCode::InvariantViolation, "fixture write shape is not closed"@)
}

/// The highest inode of the groups, of which there is at least one.
pub open spec fn highest_inode(groups: Seq<GroupModel>) -> nat
    decreases groups.len(),
{
    if groups.len() == 0 {
        0
    } else {
        let before = highest_inode(groups.drop_last());
        let last = groups.last().identity.inode as nat;
        if last > before {
            last
        } else {
            before
        }
    }
}

/// The inode of the next group.
pub open spec fn next_inode(groups: Seq<GroupModel>) -> u64 {
    if highest_inode(groups) >= u64::MAX {
        u64::MAX
    } else {
        (highest_inode(groups) + 1) as u64
    }
}

/// What making a group below another leaves, and why it failed if it did.
pub open spec fn created(model: CgroupModel, parent: CgroupView, name: Seq<char>) -> (
    CgroupModel,
    Option<ErrorView>,
) {
    let key = workload_node::child_name(parent.handle, name);
    match resolved(model, parent) {
        Err(e) => (model, Some(e)),
        Ok(found) => if group_at(model, key) is Some {
            (
                model,
                Some(workload_node::fault(ErrorCode::ApplyError, "managed cgroup already exists"@)),
            )
        } else {
            let identity = CgroupView {
                mount_id: found.identity.mount_id,
                inode: next_inode(model.groups),
                handle: key,
            };
            (with_one(model, child_group(found, name, identity)), None)
        },
    }
}

/// Whether a group stands below a path.
pub open spec fn holds_below(groups: Seq<GroupModel>, path: Seq<char>) -> bool {
    exists|i: int|
        0 <= i < groups.len() && text::starts_with_spec(
            (#[trigger] groups[i]).relative_path,
            path + "/"@,
        )
}

/// What removing a group below another leaves, and why it failed if it did.
pub open spec fn removed(model: CgroupModel, parent: CgroupView, name: Seq<char>) -> (
    CgroupModel,
    Option<ErrorView>,
) {
    let key = workload_node::child_name(parent.handle, name);
    match resolved(model, parent) {
        Err(e) => (model, Some(e)),
        Ok(found) => match group_at(model, key) {
            None => (
                model,
                Some(
                    workload_node::target_fault("managed cgroup disappeared before cleanup"@),
                ),
            ),
            Some(group) => if group.processes != Set::<ProcessId>::empty() || holds_below(
                model.groups,
                group.relative_path,
            ) {
                (
                    model,
                    Some(
                        workload_node::fault(
                            ErrorCode::RestoreError,
                            "managed cgroup is not empty and cannot be removed safely"@,
                        ),
                    ),
                )
            } else if found.relative_path == group.relative_path {
                (
                    model,
                    Some(
                        workload_node::target_fault(
                            "managed cgroup parent and child are identical"@,
                        ),
                    ),
                )
            } else {
                (CgroupModel { groups: without_group(model.groups, key), ..model }, None)
            },
        },
    }
}

/// The host without a process in a group, if there is such a group.
pub open spec fn left(model: CgroupModel, key: Seq<char>, process: ProcessId) -> CgroupModel {
    match group_at(model, key) {
        None => model,
        Some(group) => replaced(
            model,
            GroupModel { processes: group.processes.remove(process), ..group },
        ),
    }
}

/// The host with a process in a group.
pub open spec fn entered(
    model: CgroupModel,
    group: GroupModel,
    process: ProcessId,
    state: ProcessModel,
) -> CgroupModel {
    CgroupModel {
        processes: model.processes.insert(process, state),
        ..replaced(model, GroupModel { processes: group.processes.insert(process), ..group })
    }
}

/// What moving a process into a group leaves, and why it failed if it did.
pub open spec fn moved(model: CgroupModel, process: ProcessId, destination: CgroupView) -> (
    CgroupModel,
    Option<ErrorView>,
) {
    match resolved(model, destination) {
        Err(e) => (model, Some(e)),
        Ok(found) => if !model.processes.contains_key(process) {
            (model, Some(process_gone()))
        } else {
            let key = found.identity.handle;
            let state = model.processes[process];
            let between = left(model, state.cgroup, process);
            match group_at(between, key) {
                None => (
                    between,
                    Some(workload_node::target_fault("fixture destination cgroup disappeared"@)),
                ),
                Some(group) => (
                    entered(between, group, process, ProcessModel { cgroup: key, ..state }),
                    None,
                ),
            }
        },
    }
}

/// What adding a process to a group leaves, and why it failed if it did.
pub open spec fn joined(
    model: CgroupModel,
    process: ProcessId,
    group: CgroupView,
    nice: NiceValue,
    ioprio: IoPriority,
) -> (CgroupModel, Option<ErrorView>) {
    match resolved(model, group) {
        Err(e) => (model, Some(e)),
        Ok(found) => {
            let key = found.identity.handle;
            let between = if model.processes.contains_key(process)
                && model.processes[process].cgroup != key {
                left(model, model.processes[process].cgroup, process)
            } else {
                model
            };
            match group_at(between, key) {
                None => (
                    between,
                    Some(workload_node::target_fault("cgroup target was not discovered"@)),
                ),
                Some(group) => (
                    entered(between, group, process, ProcessModel { cgroup: key, nice, ioprio }),
                    None,
                ),
            }
        },
    }
}

/// The host without a process.
pub open spec fn gone(model: CgroupModel, process: ProcessId) -> CgroupModel {
    if model.processes.contains_key(process) {
        CgroupModel {
            processes: model.processes.remove(process),
            ..left(model, model.processes[process].cgroup, process)
        }
    } else {
        model
    }
}

/// What writing to a process leaves, and why it failed if it did.
pub open spec fn process_write(
    model: CgroupModel,
    process: ProcessId,
    kind: KindView,
    desired: ValueView,
) -> (CgroupModel, Option<ErrorView>) {
    match (kind, desired) {
        (KindView::ProcessPlacement { .. }, ValueView::ProcessPlacement(group)) => moved(
            model,
            process,
            group,
        ),
        (KindView::ProcessNice { .. }, ValueView::Nice(nice)) => if model.processes.contains_key(
            process,
        ) {
            let state = ProcessModel { nice, ..model.processes[process] };
            (CgroupModel { processes: model.processes.insert(process, state), ..model }, None)
        } else {
            (model, Some(process_gone()))
        },
        (KindView::ProcessIoPriority { .. }, ValueView::IoPriority(ioprio)) => if model.processes.contains_key(
        process) {
            let state = ProcessModel { ioprio, ..model.processes[process] };
            (CgroupModel { processes: model.processes.insert(process, state), ..model }, None)
        } else {
            (model, Some(process_gone()))
        },
        _ => (model, Some(open_shape())),
    }
}

/// What a write leaves, and why it failed if it did.
pub open spec fn write(model: CgroupModel, kind: KindView, desired: ValueView) -> (
    CgroupModel,
    Option<ErrorView>,
) {
    match control_of(kind) {
        Some((group, node)) => if !takes(node, desired) {
            (model, Some(open_shape()))
        } else {
            match resolved(model, group) {
                Err(e) => (model, Some(e)),
                Ok(found) => (replaced(model, given(found, node, desired)), None),
            }
        },
        None => match child_of(kind) {
            Some((parent, name, _)) => match desired {
                ValueView::CgroupLifecycle { present, .. } => if present {
                    created(model, parent, name)
                } else {
                    removed(model, parent, name)
                },
                _ => (model, Some(open_shape())),
            },
            None => match process_in(kind) {
                Some(process) => process_write(model, process, kind, desired),
                None => (model, Some(open_shape())),
            },
        },
    }
}

/// What can be done with a controller.
pub open spec fn controller_state(groups: Seq<GroupModel>, controller: Seq<char>)
    -> CapabilityState {
    if !(exists|i: int|
        0 <= i < groups.len() && (#[trigger] groups[i]).controllers.contains(controller)) {
        CapabilityState::Unsupported
    } else if exists|i: int|
        0 <= i < groups.len() && controller_refusal(#[trigger] groups[i], controller) is None {
        CapabilityState::Available
    } else {
        CapabilityState::Denied
    }
}

/// What can be done with processes.
pub open spec fn scheduler_state(model: CgroupModel, needs_group: bool) -> CapabilityState {
    if model.processes == Map::<ProcessId, ProcessModel>::empty() {
        CapabilityState::Unsupported
    } else if needs_group && model.groups.len() == 0 {
        CapabilityState::Denied
    } else {
        CapabilityState::Available
    }
}

/// What the host can do.
pub open spec fn capabilities_spec(model: CgroupModel) -> Seq<CapabilityView> {
    let cpu = controller_state(model.groups, "cpu"@);
    seq![
        workload::group_capability(
            "cgroup.cpu.weight"@,
            "cgroup.cpu.weight"@,
            TargetKind::Cgroup,
            EqualityKind::ScalarExact,
            cpu,
            FeatureClass::RuntimeMutable,
            "fixture cgroup v2 cpu controller delegation"@,
        ),
        workload::group_capability(
            "cgroup.cpu.max"@,
            "cgroup.cpu.max"@,
            TargetKind::Cgroup,
            EqualityKind::ScalarExact,
            cpu,
            FeatureClass::RuntimeMutable,
            "fixture cgroup v2 cpu controller delegation"@,
        ),
        workload::group_capability(
            "cgroup.cpuset.cpus"@,
            "cgroup.cpuset.cpus"@,
            TargetKind::Cgroup,
            EqualityKind::SetExact,
            controller_state(model.groups, "cpuset"@),
            FeatureClass::Conditional,
            "fixture cgroup v2 cpuset controller delegation"@,
        ),
        workload::group_capability(
            "cgroup.io.weight"@,
            "cgroup.io.weight"@,
            TargetKind::Cgroup,
            EqualityKind::ScalarExact,
            controller_state(model.groups, "io"@),
            FeatureClass::Conditional,
            "fixture cgroup v2 io controller delegation"@,
        ),
        workload::uclamp_capability_spec(cpu, "fixture cgroup v2 CPU uclamp delegation"@),
        workload::group_capability(
            "cgroup.workload"@,
            "cgroup.workload"@,
            TargetKind::Cgroup,
            EqualityKind::ScalarExact,
            cpu,
            FeatureClass::Conditional,
            "fixture delegated parent permits explicit workload group management"@,
        ),
        workload::group_capability(
            "cgroup.background"@,
            "cgroup.background"@,
            TargetKind::Cgroup,
            EqualityKind::ScalarExact,
            cpu,
            FeatureClass::Conditional,
            "fixture delegated parent permits conservative background management"@,
        ),
        workload::group_capability(
            "scheduler.process.placement"@,
            "scheduler.process.placement"@,
            TargetKind::Process,
            EqualityKind::ScalarExact,
            scheduler_state(model, true),
            FeatureClass::Conditional,
            "fixture explicitly identified process and cgroup targets"@,
        ),
        workload::group_capability(
            "scheduler.nice"@,
            "scheduler.nice"@,
            TargetKind::Process,
            EqualityKind::ScalarExact,
            scheduler_state(model, false),
            FeatureClass::RuntimeMutable,
            "fixture explicitly identified process target"@,
        ),
        workload::group_capability(
            "scheduler.ioprio"@,
            "scheduler.ioprio"@,
            TargetKind::Process,
            EqualityKind::ScalarExact,
            scheduler_state(model, false),
            FeatureClass::Experimental,
            "fixture explicitly identified process target"@,
        ),
    ]
}

pub(crate) proof fn lemma_position(groups: Seq<GroupModel>, key: Seq<char>)
    ensures
        -1 <= position(groups, key) < groups.len(),
        position(groups, key) >= 0 ==> groups[position(groups, key)].key == key,
        position(groups, key) < 0 ==> forall|i: int|
            0 <= i < groups.len() ==> (#[trigger] groups[i]).key != key,
    decreases groups.len(),
{
    if groups.len() > 0 && groups.last().key != key {
        let before = groups.drop_last();
        lemma_position(before, key);
        assert forall|i: int| position(groups, key) < 0 && 0 <= i < groups.len() implies (
        #[trigger] groups[i]).key != key by {
            if i < groups.len() - 1 {
                assert(before[i].key != key);
            }
        }
    }
}

pub(crate) proof fn lemma_position_kept(groups: Seq<GroupModel>, i: int, group: GroupModel, key: Seq<char>)
    requires
        0 <= i < groups.len(),
        groups[i].key == group.key,
    ensures
        position(groups.update(i, group), key) == position(groups, key),
    decreases groups.len(),
{
    let changed = groups.update(i, group);
    assert(changed.last().key == groups.last().key);
    if groups.last().key != key {
        if i < groups.len() - 1 {
            assert(changed.drop_last() =~= groups.drop_last().update(i, group));
            lemma_position_kept(groups.drop_last(), i, group, key);
        } else {
            assert(changed.drop_last() =~= groups.drop_last());
        }
    }
}

/// What is found after a group was replaced.
pub(crate) proof fn lemma_replaced(model: CgroupModel, group: GroupModel, key: Seq<char>)
    requires
        group_at(model, group.key) is Some,
    ensures
        group_at(replaced(model, group), key) == if key == group.key {
            Some(group)
        } else {
            group_at(model, key)
        },
        replaced(model, group).groups.len() == model.groups.len(),
{
    let i = position(model.groups, group.key);
    lemma_position(model.groups, group.key);
    lemma_position(model.groups, key);
    lemma_position_kept(model.groups, i, group, key);
}

/// What is found after a process left a group.
pub(crate) proof fn lemma_left(model: CgroupModel, key: Seq<char>, process: ProcessId, k: Seq<char>)
    ensures
        match group_at(model, k) {
            None => group_at(left(model, key, process), k) is None,
            Some(group) => group_at(left(model, key, process), k) matches Some(same)
                && same.identity == group.identity && same.key == group.key,
        },
        left(model, key, process).processes == model.processes,
{
    lemma_position(model.groups, key);
    if let Some(group) = group_at(model, key) {
        lemma_replaced(
            model,
            GroupModel { processes: group.processes.remove(process), ..group },
            k,
        );
    }
}

/// What is found after a group was added.
proof fn lemma_with_group(groups: Seq<GroupModel>, group: GroupModel, key: Seq<char>)
    requires
        position(groups, group.key) < 0,
    ensures
        with_group(groups, group).len() == groups.len() + 1,
        without_group(with_group(groups, group), group.key) == groups,
        key == group.key ==> position(with_group(groups, group), key) >= 0 && with_group(
            groups,
            group,
        )[position(with_group(groups, group), key)] == group,
        key != group.key && position(groups, key) >= 0 ==> position(with_group(groups, group), key)
            >= 0 && with_group(groups, group)[position(with_group(groups, group), key)]
            == groups[position(groups, key)],
        key != group.key && position(groups, key) < 0 ==> position(with_group(groups, group), key)
            < 0,
        forall|i: int|
            0 <= i < with_group(groups, group).len() ==> (#[trigger] with_group(groups, group)[i]
                == group || groups.contains(with_group(groups, group)[i])),
    decreases groups.len(),
{
    lemma_position(groups, group.key);
    lemma_position(groups, key);
    let after = with_group(groups, group);
    if groups.len() == 0 || text::less_spec(groups.last().key, group.key) {
        assert(after.drop_last() =~= groups);
        lemma_absent(groups, group.key);
        assert forall|i: int| 0 <= i < after.len() implies (#[trigger] after[i] == group
            || groups.contains(after[i])) by {
            if i < groups.len() {
                assert(groups[i] == after[i]);
            }
        }
    } else {
        let before = groups.drop_last();
        assert(groups.last().key != group.key);
        lemma_position(before, group.key);
        lemma_position(before, key);
        lemma_with_group(before, group, key);
        lemma_position(with_group(before, group), key);
        assert(after.drop_last() =~= with_group(before, group));
        assert(before.push(groups.last()) =~= groups);
        assert forall|i: int| 0 <= i < after.len() implies (#[trigger] after[i] == group
            || groups.contains(after[i])) by {
            if i < after.len() - 1 {
                assert(after[i] == with_group(before, group)[i]);
                if after[i] != group {
                    let k = before.index_of(after[i]);
                    assert(groups[k] == after[i]);
                }
            } else {
                assert(groups[groups.len() - 1] == after[i]);
            }
        }
    }
}

proof fn lemma_absent(groups: Seq<GroupModel>, key: Seq<char>)
    requires
        position(groups, key) < 0,
    ensures
        without_group(groups, key) == groups,
    decreases groups.len(),
{
    if groups.len() > 0 {
        lemma_position(groups.drop_last(), key);
        lemma_absent(groups.drop_last(), key);
        assert(groups.drop_last().push(groups.last()) =~= groups);
    }
}

proof fn lemma_within(groups: Seq<GroupModel>, group: GroupModel)
    ensures
        forall|i: int|
            0 <= i < with_group(groups, group).len() ==> (#[trigger] with_group(groups, group)[i]).key
                == group.key || exists|j: int|
                0 <= j < groups.len() && (#[trigger] groups[j]).key == with_group(groups, group)[i].key,
    decreases groups.len(),
{
    let after = with_group(groups, group);
    if groups.len() == 0 || text::less_spec(groups.last().key, group.key) {
        assert forall|i: int| 0 <= i < after.len() implies (#[trigger] after[i]).key == group.key
            || exists|j: int| 0 <= j < groups.len() && (#[trigger] groups[j]).key == after[i].key by {
            if i < groups.len() {
                assert(groups[i].key == after[i].key);
            }
        }
    } else {
        let before = groups.drop_last();
        lemma_within(before, group);
        assert forall|i: int| 0 <= i < after.len() implies (#[trigger] after[i]).key == group.key
            || exists|j: int| 0 <= j < groups.len() && (#[trigger] groups[j]).key == after[i].key by {
            if groups.last().key == group.key {
                if i < before.len() {
                    assert(groups[i].key == after[i].key);
                }
            } else if i == after.len() - 1 {
                assert(groups[groups.len() - 1].key == after[i].key);
            } else {
                assert(after[i] == with_group(before, group)[i]);
                if after[i].key != group.key {
                    let j = choose|j: int|
                        0 <= j < before.len() && (#[trigger] before[j]).key == after[i].key;
                    assert(groups[j].key == after[i].key);
                }
            }
        }
    }
}

/// Adding a group keeps the groups in ascending order of their targets.
pub proof fn adding_keeps_the_order(groups: Seq<GroupModel>, group: GroupModel)
    requires
        in_order(groups),
    ensures
        in_order(with_group(groups, group)),
    decreases groups.len(),
{
    let after = with_group(groups, group);
    if groups.len() == 0 {
    } else if text::less_spec(groups.last().key, group.key) {
        assert forall|i: int, j: int| 0 <= i < j < after.len() implies text::less_spec(
            (#[trigger] after[i]).key,
            (#[trigger] after[j]).key,
        ) by {
            if j == groups.len() && i < groups.len() - 1 {
                assert(text::less_spec(groups[i].key, groups[groups.len() - 1].key));
                text::less_transitive(groups[i].key, groups.last().key, group.key);
            } else if j < groups.len() {
                assert(text::less_spec(groups[i].key, groups[j].key));
            }
        }
    } else {
        let before = groups.drop_last();
        assert(in_order(before)) by {
            assert forall|i: int, j: int| 0 <= i < j < before.len() implies text::less_spec(
                (#[trigger] before[i]).key,
                (#[trigger] before[j]).key,
            ) by {
                assert(text::less_spec(groups[i].key, groups[j].key));
            }
        }
        if groups.last().key == group.key {
            assert forall|i: int, j: int| 0 <= i < j < after.len() implies text::less_spec(
                (#[trigger] after[i]).key,
                (#[trigger] after[j]).key,
            ) by {
                assert(text::less_spec(groups[i].key, groups[j].key));
            }
        } else {
            adding_keeps_the_order(before, group);
            lemma_within(before, group);
            text::less_total(groups.last().key, group.key);
            let low = with_group(before, group);
            assert forall|i: int, j: int| 0 <= i < j < after.len() implies text::less_spec(
                (#[trigger] after[i]).key,
                (#[trigger] after[j]).key,
            ) by {
                if j < low.len() {
                    assert(text::less_spec(low[i].key, low[j].key));
                } else if low[i].key != group.key {
                    let k = choose|k: int|
                        0 <= k < before.len() && (#[trigger] before[k]).key == low[i].key;
                    assert(text::less_spec(groups[k].key, groups[groups.len() - 1].key));
                }
            }
        }
    }
}

/// A write to a control changes that control of that group and nothing else: the
/// control then holds the value, and every other control and every process holds
/// what it held.
pub proof fn writes_change_one_control(
    model: CgroupModel,
    kind: KindView,
    group: CgroupView,
    node: WorkloadNode,
    desired: ValueView,
    other: KindView,
)
    requires
        control_of(kind) == Some((group, node)),
        write(model, kind, desired).1 is None,
    ensures
        group_state(write(model, kind, desired).0, kind) matches Ok(seen) ==> seen.typed == desired,
        control_of(other) matches Some((second, control)) ==> second.handle != group.handle
            || control != node ==> group_state(write(model, kind, desired).0, other) == group_state(
            model,
            other,
        ),
        child_of(other) is Some ==> group_state(write(model, kind, desired).0, other)
            == group_state(model, other),
        process_in(other) is Some ==> process_state(write(model, kind, desired).0, other)
            == process_state(model, other),
{
    let found = resolved(model, group)->Ok_0;
    let changed = given(found, node, desired);
    lemma_position(model.groups, group.handle);
    lemma_replaced(model, changed, group.handle);
    if let Some((second, _)) = control_of(other) {
        lemma_replaced(model, changed, second.handle);
    }
    if let Some((parent, name, _)) = child_of(other) {
        lemma_replaced(model, changed, parent.handle);
        lemma_replaced(model, changed, workload_node::child_name(parent.handle, name));
    }
    if let Some(process) = process_in(other) {
        lemma_replaced(model, changed, model.processes[process].cgroup);
    }
}

/// A group that was made can be removed again, which leaves the host as it was,
/// unless another group stands below its path already.
pub proof fn removing_undoes_creating(model: CgroupModel, parent: CgroupView, name: Seq<char>)
    requires
        name.len() > 0,
        created(model, parent, name).1 is None,
        !holds_below(
            model.groups,
            workload_node::child_path_spec(resolved(model, parent)->Ok_0.relative_path, name),
        ),
    ensures
        removed(created(model, parent, name).0, parent, name) == (model, None::<ErrorView>),
        group_at(
            created(model, parent, name).0,
            workload_node::child_name(parent.handle, name),
        ) is Some,
{
    reveal_strlit(".");
    reveal_strlit("/");
    let key = workload_node::child_name(parent.handle, name);
    assert(key.len() > parent.handle.len());
    let found = resolved(model, parent)->Ok_0;
    let identity = CgroupView {
        mount_id: found.identity.mount_id,
        inode: next_inode(model.groups),
        handle: key,
    };
    let group = child_group(found, name, identity);
    let after = created(model, parent, name).0;
    lemma_position(model.groups, key);
    lemma_with_group(model.groups, group, key);
    lemma_with_group(model.groups, group, parent.handle);
    assert(resolved(after, parent) == Ok::<GroupModel, ErrorView>(found));
    assert(group_at(after, key) == Some(group));
    assert(!holds_below(after.groups, group.relative_path)) by {
        let path = group.relative_path;
        assert forall|i: int| 0 <= i < after.groups.len() implies !text::starts_with_spec(
            (#[trigger] after.groups[i]).relative_path,
            path + "/"@,
        ) by {
            if after.groups[i] != group {
                let k = model.groups.index_of(after.groups[i]);
                assert(model.groups[k] == after.groups[i]);
            }
        }
    }
    assert(found.relative_path.len() < group.relative_path.len());
}

/// What the target of a mutation holds.
pub open spec fn target_state(model: CgroupModel, kind: KindView) -> Result<
    ObservationView,
    ErrorView,
> {
    if process_in(kind) is Some {
        process_state(model, kind)
    } else {
        group_state(model, kind)
    }
}

/// Whether every group is found by its own name, and holds the processes that
/// say so and no others.
pub open spec fn well_formed(model: CgroupModel) -> bool {
    &&& forall|key: Seq<char>|
        #![trigger group_at(model, key)]
        group_at(model, key) matches Some(group) ==> group.identity.handle == key
    &&& forall|key: Seq<char>, process: ProcessId|
        #![trigger group_at(model, key), model.processes.contains_key(process)]
        group_at(model, key) matches Some(group) ==> (group.processes.contains(process)
            <==> model.processes.contains_key(process) && model.processes[process].cgroup == key)
    &&& forall|process: ProcessId| #[trigger]
        model.processes.contains_key(process) ==> group_at(model, model.processes[process].cgroup)
            is Some
}

/// Whether two mutations are about different things.
pub open spec fn apart(a: KindView, b: KindView) -> bool {
    match (control_of(a), control_of(b)) {
        (Some((group, node)), Some((second, other))) => group.handle != second.handle || node
            != other,
        _ => match (child_of(a), child_of(b)) {
            (Some((parent, name, _)), Some((second, other, _))) => workload_node::child_name(
                parent.handle,
                name,
            ) != workload_node::child_name(second.handle, other),
            _ => match (process_in(a), process_in(b)) {
                (Some(process), Some(other)) => process != other || (a is ProcessPlacement) != (
                b is ProcessPlacement) || (a is ProcessNice) != (b is ProcessNice),
                _ => true,
            },
        },
    }
}

pub(crate) proof fn lemma_created(model: CgroupModel, parent: CgroupView, name: Seq<char>, key: Seq<char>)
    requires
        created(model, parent, name).1 is None,
    ensures
        ({
            let after = created(model, parent, name).0;
            let made = workload_node::child_name(parent.handle, name);
            &&& key != made ==> group_at(after, key) == group_at(model, key)
            &&& group_at(after, made) matches Some(group)
            &&& group.identity.handle == made
            &&& group.processes == Set::<ProcessId>::empty()
            &&& group_at(model, made) is None
            &&& after.processes == model.processes
        }),
{
    let made = workload_node::child_name(parent.handle, name);
    let found = resolved(model, parent)->Ok_0;
    let identity = CgroupView {
        mount_id: found.identity.mount_id,
        inode: next_inode(model.groups),
        handle: made,
    };
    let group = child_group(found, name, identity);
    lemma_position(model.groups, made);
    lemma_with_group(model.groups, group, key);
    lemma_with_group(model.groups, group, made);
}

/// A change of a session changes its own target and no other: what another
/// mutation is about holds what it held.
pub proof fn other_targets_are_kept(model: CgroupModel, kind: KindView, other: KindView)
    requires
        write(model, kind, kind.desired()).1 is None,
        target_state(model, other) is Ok,
        apart(kind, other),
    ensures
        target_state(write(model, kind, kind.desired()).0, other) == target_state(model, other),
{
    let desired = kind.desired();
    let after = write(model, kind, desired).0;
    if let Some((group, node)) = control_of(kind) {
        writes_change_one_control(model, kind, group, node, desired, other);
    } else if let Some((parent, name, _)) = child_of(kind) {
        if let Some((second, _)) = control_of(other) {
            lemma_created(model, parent, name, second.handle);
        } else if let Some((second, child, _)) = child_of(other) {
            lemma_created(model, parent, name, second.handle);
            lemma_created(model, parent, name, workload_node::child_name(second.handle, child));
        } else if let Some(process) = process_in(other) {
            lemma_created(model, parent, name, model.processes[process].cgroup);
        }
    } else if let KindView::ProcessPlacement { process, cgroup } = kind {
        if let Some((second, _)) = control_of(other) {
            lemma_moved(model, process, cgroup, second.handle);
        } else if let Some((second, child, _)) = child_of(other) {
            lemma_moved(model, process, cgroup, second.handle);
            lemma_moved(
                model,
                process,
                cgroup,
                workload_node::child_name(second.handle, child),
            );
        } else if let Some(second) = process_in(other) {
            lemma_moved(model, process, cgroup, model.processes[second].cgroup);
            lemma_moved(model, process, cgroup, after.processes[second].cgroup);
        }
    }
}

/// What is found after a process was moved.
pub(crate) proof fn lemma_moved(model: CgroupModel, process: ProcessId, destination: CgroupView, key: Seq<char>)
    requires
        moved(model, process, destination).1 is None,
    ensures
        ({
            let after = moved(model, process, destination).0;
            let target = resolved(model, destination)->Ok_0.identity.handle;
            &&& match group_at(model, key) {
                None => group_at(after, key) is None,
                Some(group) => group_at(after, key) == Some(
                    GroupModel {
                        processes: if key == target {
                            group.processes.insert(process)
                        } else if key == model.processes[process].cgroup {
                            group.processes.remove(process)
                        } else {
                            group.processes
                        },
                        ..group
                    },
                ),
            }
            &&& group_at(after, target) is Some
            &&& after.processes == model.processes.insert(
                process,
                ProcessModel { cgroup: target, ..model.processes[process] },
            )
        }),
{
    let state = model.processes[process];
    let target = resolved(model, destination)->Ok_0.identity.handle;
    let between = left(model, state.cgroup, process);
    lemma_position(model.groups, state.cgroup);
    lemma_position(model.groups, key);
    if let Some(group) = group_at(model, state.cgroup) {
        let smaller = GroupModel { processes: group.processes.remove(process), ..group };
        lemma_replaced(model, smaller, key);
        lemma_replaced(model, smaller, target);
    }
    lemma_position(between.groups, target);
    let there = group_at(between, target)->0;
    let changed = GroupModel { processes: there.processes.insert(process), ..there };
    lemma_replaced(between, changed, key);
    lemma_replaced(between, changed, target);
    let after = moved(model, process, destination).0;
    assert(after.groups == replaced(between, changed).groups);
    if key == target && group_at(model, key) is Some {
        assert(group_at(model, key)->0.processes.remove(process).insert(process)
            =~= group_at(model, key)->0.processes.insert(process));
    }
}

/// A change of a session keeps a well-formed host well-formed.
pub proof fn changes_keep_the_form(model: CgroupModel, kind: KindView)
    requires
        well_formed(model),
        write(model, kind, kind.desired()).1 is None,
    ensures
        well_formed(write(model, kind, kind.desired()).0),
{
    let after = write(model, kind, kind.desired()).0;
    assert forall|key: Seq<char>| #![trigger group_at(after, key)]
        group_at(after, key) is Some implies group_at(after, key)->0.identity.handle == key by {
        lemma_form(model, kind, key);
    }
    assert forall|key: Seq<char>, process: ProcessId|
        #![trigger group_at(after, key), after.processes.contains_key(process)]
        group_at(after, key) is Some implies (group_at(after, key)->0.processes.contains(process)
        <==> after.processes.contains_key(process) && after.processes[process].cgroup == key) by {
        lemma_form(model, kind, key);
    }
    assert forall|process: ProcessId| #[trigger]
        after.processes.contains_key(process) implies group_at(
        after,
        after.processes[process].cgroup,
    ) is Some by {
        lemma_homes(model, kind, process);
    }
}

proof fn lemma_form(model: CgroupModel, kind: KindView, key: Seq<char>)
    requires
        well_formed(model),
        write(model, kind, kind.desired()).1 is None,
    ensures
        ({
            let after = write(model, kind, kind.desired()).0;
            &&& group_at(model, key) is Some ==> group_at(after, key) is Some
            &&& group_at(after, key) matches Some(group) ==> group.identity.handle == key && (
            forall|process: ProcessId| #[trigger]
                group.processes.contains(process) <==> after.processes.contains_key(process)
                    && after.processes[process].cgroup == key)
        }),
{
    let after = write(model, kind, kind.desired()).0;
    let known = group_at(model, key);
    assert forall|process: ProcessId| known is Some implies (#[trigger] known->0.processes.contains(
        process,
    ) <==> model.processes.contains_key(process) && model.processes[process].cgroup == key) by {
        assert(model.processes.contains_key(process) || !model.processes.contains_key(process));
    }
    if let Some((group, node)) = control_of(kind) {
        let found = resolved(model, group)->Ok_0;
        lemma_position(model.groups, group.handle);
        lemma_replaced(model, given(found, node, kind.desired()), key);
    } else if let Some((parent, name, _)) = child_of(kind) {
        lemma_created(model, parent, name, key);
        let made = workload_node::child_name(parent.handle, name);
        if key == made {
            assert forall|process: ProcessId| model.processes.contains_key(process) implies (
            #[trigger] model.processes[process]).cgroup != made by {
                assert(group_at(model, model.processes[process].cgroup) is Some);
            }
        }
    } else if let KindView::ProcessPlacement { process, cgroup } = kind {
        lemma_moved(model, process, cgroup, key);
    }
}

proof fn lemma_homes(model: CgroupModel, kind: KindView, process: ProcessId)
    requires
        well_formed(model),
        write(model, kind, kind.desired()).1 is None,
        write(model, kind, kind.desired()).0.processes.contains_key(process),
    ensures
        ({
            let after = write(model, kind, kind.desired()).0;
            group_at(after, after.processes[process].cgroup) is Some
        }),
{
    let after = write(model, kind, kind.desired()).0;
    if let KindView::ProcessPlacement { process: moved_process, cgroup } = kind {
        lemma_moved(model, moved_process, cgroup, after.processes[process].cgroup);
        if process != moved_process {
            assert(model.processes.contains_key(process));
        }
    } else {
        assert(model.processes.contains_key(process));
        lemma_form(model, kind, model.processes[process].cgroup);
    }
}

/// A process that was moved can be moved back, which leaves the host as it was.
pub proof fn moving_back_undoes_moving(model: CgroupModel, process: ProcessId, destination: CgroupView)
    requires
        well_formed(model),
        moved(model, process, destination).1 is None,
    ensures
        moved(
            moved(model, process, destination).0,
            process,
            group_at(model, model.processes[process].cgroup)->0.identity,
        ) == (model, None::<ErrorView>),
{
    let state = model.processes[process];
    let start = state.cgroup;
    assert(model.processes.contains_key(process));
    let home = group_at(model, start)->0;
    let found = resolved(model, destination)->Ok_0;
    let target = found.identity.handle;
    let away = moved(model, process, destination).0;
    lemma_position(model.groups, start);
    lemma_position(model.groups, destination.handle);
    lemma_moved(model, process, destination, start);
    lemma_moved(model, process, destination, target);
    assert(group_at(model, target) == Some(found));
    let between = left(away, target, process);
    lemma_left(away, target, process, start);
    assert(resolved(away, home.identity) is Ok);
    let back = moved(away, process, home.identity).0;
    lemma_position(model.groups, target);
    lemma_positions_kept(model, start, process);
    let first = left(model, start, process);
    let there = group_at(first, target)->0;
    let moved_state = ProcessModel { cgroup: target, ..state };
    lemma_position(first.groups, target);
    let entered_group = GroupModel { processes: there.processes.insert(process), ..there };
    assert(away.groups == replaced(first, entered_group).groups);
    assert forall|k: Seq<char>| #[trigger] position(away.groups, k) == position(model.groups, k) by {
        lemma_position_kept(first.groups, position(first.groups, target), entered_group, k);
        assert(position(first.groups, k) == position(model.groups, k));
    }
    lemma_positions_kept(away, target, process);
    assert forall|k: Seq<char>| #[trigger] position(between.groups, k) == position(model.groups, k) by {
        assert(position(away.groups, k) == position(model.groups, k));
    }
    let here = group_at(between, start)->0;
    lemma_position(between.groups, start);
    assert(home.processes.contains(process));
    if start != target {
        assert(!found.processes.contains(process));
        assert(found.processes.insert(process).remove(process) =~= found.processes);
    }
    assert(home.processes.remove(process).insert(process) =~= home.processes);
    assert(back.groups =~= model.groups);
    assert(back.processes =~= model.processes);
}

proof fn lemma_positions_kept(model: CgroupModel, key: Seq<char>, process: ProcessId)
    ensures
        forall|k: Seq<char>| #[trigger]
            position(left(model, key, process).groups, k) == position(model.groups, k),
{
    lemma_position(model.groups, key);
    assert forall|k: Seq<char>| #[trigger]
        position(left(model, key, process).groups, k) == position(model.groups, k) by {
        if let Some(group) = group_at(model, key) {
            let smaller = GroupModel { processes: group.processes.remove(process), ..group };
            lemma_position_kept(model.groups, position(model.groups, key), smaller, k);
        }
    }
}

} // verus!
