//! Mutations: what is to be changed, what was there before, and what came of it.

use vstd::prelude::*;

use crate::clock::Timestamp;
use crate::cpuset::CpuSet;
use crate::error::{ErrorCode, SysboostError};
use crate::ids::{
    BackendId, CapabilityId, CgroupName, GovernorId, MutationId, OperationId, PlanId,
    PlatformProfileId, StateFingerprint, TargetId, TargetIdentity,
};
use crate::value::{
    CgroupGroupKind, CgroupId, CgroupView, CpuBoostState, CpuPeriod, CpuPolicyId, CpuQuota,
    CpuWeight, EnergyPreference, FrequencyKHz, IoPriority, IoWeight, NiceValue, ProcessId,
    TypedValue, UclampValue, ValueView,
};

verus! {

/// How an observed value is held against an expected one.
#[derive(Clone, Copy, Debug, PartialEq, Eq, Structural)]
pub enum EqualityKind {
    ByteExact,
    ScalarExact,
    SetExact,
}

/// What a mutation changes, and to what.
#[allow(inconsistent_fields)]
#[derive(Debug, PartialEq, Eq)]
pub enum MutationKind {
    CpuFrequency {
        policy: CpuPolicyId,
        min_khz: Option<FrequencyKHz>,
        max_khz: Option<FrequencyKHz>,
    },
    CpuGovernor { policy: CpuPolicyId, governor: GovernorId },
    CpuEnergyPreference { policy: CpuPolicyId, preference: EnergyPreference },
    CpuBoost { state: CpuBoostState },
    PlatformProfile { profile: PlatformProfileId },
    CgroupCpuWeight { cgroup: CgroupId, weight: CpuWeight },
    CgroupCpuMax { cgroup: CgroupId, quota: CpuQuota, period: CpuPeriod },
    CgroupCpuset { cgroup: CgroupId, cpus: CpuSet },
    CgroupIoWeight { cgroup: CgroupId, weight: IoWeight },
    CgroupUclampMin { cgroup: CgroupId, value: UclampValue },
    CgroupUclampMax { cgroup: CgroupId, value: UclampValue },
    CgroupWorkload { parent: CgroupId, name: CgroupName },
    CgroupBackground { parent: CgroupId, name: CgroupName },
    ProcessPlacement { process: ProcessId, cgroup: CgroupId },
    ProcessNice { process: ProcessId, nice: NiceValue },
    ProcessIoPriority { process: ProcessId, priority: IoPriority },
}

/// A kind of mutation as plain values.
#[allow(inconsistent_fields)]
#[verifier::ext_equal]
pub enum KindView {
    CpuFrequency {
        policy: CpuPolicyId,
        min_khz: Option<FrequencyKHz>,
        max_khz: Option<FrequencyKHz>,
    },
    CpuGovernor { policy: CpuPolicyId, governor: Seq<char> },
    CpuEnergyPreference { policy: CpuPolicyId, preference: EnergyPreference },
    CpuBoost { state: CpuBoostState },
    PlatformProfile { profile: Seq<char> },
    CgroupCpuWeight { cgroup: CgroupView, weight: CpuWeight },
    CgroupCpuMax { cgroup: CgroupView, quota: CpuQuota, period: CpuPeriod },
    CgroupCpuset { cgroup: CgroupView, cpus: Seq<u32> },
    CgroupIoWeight { cgroup: CgroupView, weight: IoWeight },
    CgroupUclampMin { cgroup: CgroupView, value: UclampValue },
    CgroupUclampMax { cgroup: CgroupView, value: UclampValue },
    CgroupWorkload { parent: CgroupView, name: Seq<char> },
    CgroupBackground { parent: CgroupView, name: Seq<char> },
    ProcessPlacement { process: ProcessId, cgroup: CgroupView },
    ProcessNice { process: ProcessId, nice: NiceValue },
    ProcessIoPriority { process: ProcessId, priority: IoPriority },
}

impl View for MutationKind {
    type V = KindView;

    open spec fn view(&self) -> KindView {
        match *self {
            MutationKind::CpuFrequency { policy, min_khz, max_khz } => KindView::CpuFrequency {
                policy,
                min_khz,
                max_khz,
            },
            MutationKind::CpuGovernor { policy, governor } => KindView::CpuGovernor {
                policy,
                governor: governor@,
            },
            MutationKind::CpuEnergyPreference { policy, preference } =>
            KindView::CpuEnergyPreference { policy, preference },
            MutationKind::CpuBoost { state } => KindView::CpuBoost { state },
            MutationKind::PlatformProfile { profile } => KindView::PlatformProfile {
                profile: profile@,
            },
            MutationKind::CgroupCpuWeight { cgroup, weight } => KindView::CgroupCpuWeight {
                cgroup: cgroup@,
                weight,
            },
            MutationKind::CgroupCpuMax { cgroup, quota, period } => KindView::CgroupCpuMax {
                cgroup: cgroup@,
                quota,
                period,
            },
            MutationKind::CgroupCpuset { cgroup, cpus } => KindView::CgroupCpuset {
                cgroup: cgroup@,
                cpus: cpus@,
            },
            MutationKind::CgroupIoWeight { cgroup, weight } => KindView::CgroupIoWeight {
                cgroup: cgroup@,
                weight,
            },
            MutationKind::CgroupUclampMin { cgroup, value } => KindView::CgroupUclampMin {
                cgroup: cgroup@,
                value,
            },
            MutationKind::CgroupUclampMax { cgroup, value } => KindView::CgroupUclampMax {
                cgroup: cgroup@,
                value,
            },
            MutationKind::CgroupWorkload { parent, name } => KindView::CgroupWorkload {
                parent: parent@,
                name: name@,
            },
            MutationKind::CgroupBackground { parent, name } => KindView::CgroupBackground {
                parent: parent@,
                name: name@,
            },
            MutationKind::ProcessPlacement { process, cgroup } => KindView::ProcessPlacement {
                process,
                cgroup: cgroup@,
            },
            MutationKind::ProcessNice { process, nice } => KindView::ProcessNice {
                process,
                nice,
            },
            MutationKind::ProcessIoPriority { process, priority } => KindView::ProcessIoPriority {
                process,
                priority,
            },
        }
    }
}

impl KindView {
    /// The name of the operation.
    pub open spec fn operation(self) -> Seq<char> {
        match self {
            KindView::CpuFrequency { .. } => "cpu.frequency"@,
            KindView::CpuGovernor { .. } => "cpu.governor"@,
            KindView::CpuEnergyPreference { .. } => "cpu.energy_preference"@,
            KindView::CpuBoost { .. } => "cpu.boost"@,
            KindView::PlatformProfile { .. } => "platform.profile"@,
            KindView::CgroupCpuWeight { .. } => "cgroup.cpu.weight"@,
            KindView::CgroupCpuMax { .. } => "cgroup.cpu.max"@,
            KindView::CgroupCpuset { .. } => "cgroup.cpuset.cpus"@,
            KindView::CgroupIoWeight { .. } => "cgroup.io.weight"@,
            KindView::CgroupUclampMin { .. } => "cgroup.uclamp.min"@,
            KindView::CgroupUclampMax { .. } => "cgroup.uclamp.max"@,
            KindView::CgroupWorkload { .. } => "cgroup.workload"@,
            KindView::CgroupBackground { .. } => "cgroup.background"@,
            KindView::ProcessPlacement { .. } => "scheduler.process.placement"@,
            KindView::ProcessNice { .. } => "scheduler.nice"@,
            KindView::ProcessIoPriority { .. } => "scheduler.ioprio"@,
        }
    }

    /// The value that the mutation asks for.
    pub open spec fn desired(self) -> ValueView {
        match self {
            KindView::CpuFrequency { min_khz, max_khz, .. } => ValueView::CpuFrequency {
                min_khz,
                max_khz,
            },
            KindView::CpuGovernor { governor, .. } => ValueView::Governor(governor),
            KindView::CpuEnergyPreference { preference, .. } => ValueView::EnergyPreference(
                preference,
            ),
            KindView::CpuBoost { state } => ValueView::CpuBoost(state),
            KindView::PlatformProfile { profile } => ValueView::PlatformProfile(profile),
            KindView::CgroupCpuWeight { weight, .. } => ValueView::CgroupCpuWeight(weight),
            KindView::CgroupCpuMax { quota, period, .. } => ValueView::CgroupCpuMax {
                quota,
                period,
            },
            KindView::CgroupCpuset { cpus, .. } => ValueView::CgroupCpuset(cpus),
            KindView::CgroupIoWeight { weight, .. } => ValueView::CgroupIoWeight(weight),
            KindView::CgroupUclampMin { value, .. } => ValueView::CgroupUclamp(value),
            KindView::CgroupUclampMax { value, .. } => ValueView::CgroupUclamp(value),
            KindView::CgroupWorkload { name, .. } => ValueView::CgroupLifecycle {
                kind: CgroupGroupKind::Workload,
                name,
                present: true,
            },
            KindView::CgroupBackground { name, .. } => ValueView::CgroupLifecycle {
                kind: CgroupGroupKind::ConservativeBackground,
                name,
                present: true,
            },
            KindView::ProcessPlacement { cgroup, .. } => ValueView::ProcessPlacement(cgroup),
            KindView::ProcessNice { nice, .. } => ValueView::Nice(nice),
            KindView::ProcessIoPriority { priority, .. } => ValueView::IoPriority(priority),
        }
    }
}

/// An identity from a text that is known not to be empty.
pub fn operation_named(name: &str) -> (r: OperationId)
    requires
        name@.len() > 0,
    ensures
        r@ == name@,
{
    match OperationId::new(name) {
        Ok(id) => id,
        Err(_) => {
            assert(false);
            vstd::pervasive::unreached()
        },
    }
}

impl MutationKind {
    /// The name of the operation.
    pub fn operation_name(&self) -> (r: &'static str)
        ensures
            r@ == self@.operation(),
            r@.len() > 0,
    {
        proof {
            reveal_strlit("cpu.frequency");
            reveal_strlit("cpu.governor");
            reveal_strlit("cpu.energy_preference");
            reveal_strlit("cpu.boost");
            reveal_strlit("platform.profile");
            reveal_strlit("cgroup.cpu.weight");
            reveal_strlit("cgroup.cpu.max");
            reveal_strlit("cgroup.cpuset.cpus");
            reveal_strlit("cgroup.io.weight");
            reveal_strlit("cgroup.uclamp.min");
            reveal_strlit("cgroup.uclamp.max");
            reveal_strlit("cgroup.workload");
            reveal_strlit("cgroup.background");
            reveal_strlit("scheduler.process.placement");
            reveal_strlit("scheduler.nice");
            reveal_strlit("scheduler.ioprio");
        }
        match self {
            MutationKind::CpuFrequency { .. } => "cpu.frequency",
            MutationKind::CpuGovernor { .. } => "cpu.governor",
            MutationKind::CpuEnergyPreference { .. } => "cpu.energy_preference",
            MutationKind::CpuBoost { .. } => "cpu.boost",
            MutationKind::PlatformProfile { .. } => "platform.profile",
            MutationKind::CgroupCpuWeight { .. } => "cgroup.cpu.weight",
            MutationKind::CgroupCpuMax { .. } => "cgroup.cpu.max",
            MutationKind::CgroupCpuset { .. } => "cgroup.cpuset.cpus",
            MutationKind::CgroupIoWeight { .. } => "cgroup.io.weight",
            MutationKind::CgroupUclampMin { .. } => "cgroup.uclamp.min",
            MutationKind::CgroupUclampMax { .. } => "cgroup.uclamp.max",
            MutationKind::CgroupWorkload { .. } => "cgroup.workload",
            MutationKind::CgroupBackground { .. } => "cgroup.background",
            MutationKind::ProcessPlacement { .. } => "scheduler.process.placement",
            MutationKind::ProcessNice { .. } => "scheduler.nice",
            MutationKind::ProcessIoPriority { .. } => "scheduler.ioprio",
        }
    }

    /// The operation.
    pub fn operation_id(&self) -> (r: OperationId)
        ensures
            r@ == self@.operation(),
    {
        operation_named(self.operation_name())
    }

    /// The value that the mutation asks for.
    pub fn typed_value(&self) -> (r: TypedValue)
        ensures
            r@ == self@.desired(),
    {
        match self {
            MutationKind::CpuFrequency { min_khz, max_khz, .. } => TypedValue::CpuFrequency {
                min_khz: *min_khz,
                max_khz: *max_khz,
            },
            MutationKind::CpuGovernor { governor, .. } => TypedValue::Governor(governor.clone()),
            MutationKind::CpuEnergyPreference { preference, .. } => TypedValue::EnergyPreference(
                *preference,
            ),
            MutationKind::CpuBoost { state } => TypedValue::CpuBoost(*state),
            MutationKind::PlatformProfile { profile } => TypedValue::PlatformProfile(
                profile.clone(),
            ),
            MutationKind::CgroupCpuWeight { weight, .. } => TypedValue::CgroupCpuWeight(*weight),
            MutationKind::CgroupCpuMax { quota, period, .. } => TypedValue::CgroupCpuMax {
                quota: *quota,
                period: *period,
            },
            MutationKind::CgroupCpuset { cpus, .. } => TypedValue::CgroupCpuset(cpus.clone()),
            MutationKind::CgroupIoWeight { weight, .. } => TypedValue::CgroupIoWeight(*weight),
            MutationKind::CgroupUclampMin { value, .. } => TypedValue::CgroupUclamp(*value),
            MutationKind::CgroupUclampMax { value, .. } => TypedValue::CgroupUclamp(*value),
            MutationKind::CgroupWorkload { name, .. } => TypedValue::CgroupLifecycle {
                kind: CgroupGroupKind::Workload,
                name: name.clone(),
                present: true,
            },
            MutationKind::CgroupBackground { name, .. } => TypedValue::CgroupLifecycle {
                kind: CgroupGroupKind::ConservativeBackground,
                name: name.clone(),
                present: true,
            },
            MutationKind::ProcessPlacement { cgroup, .. } => TypedValue::ProcessPlacement(
                cgroup.clone(),
            ),
            MutationKind::ProcessNice { nice, .. } => TypedValue::Nice(*nice),
            MutationKind::ProcessIoPriority { priority, .. } => TypedValue::IoPriority(*priority),
        }
    }

    /// Whether two kinds are the same, with all that they name.
    pub fn same(&self, other: &MutationKind) -> (r: bool)
        ensures
            r == (self@ == other@),
    {
        match (self, other) {
            (
                MutationKind::CpuFrequency { policy: a, min_khz: b, max_khz: c },
                MutationKind::CpuFrequency { policy: d, min_khz: e, max_khz: f },
            ) => a.value == d.value && TypedValue::CpuFrequency { min_khz: *b, max_khz: *c }.same(
                &TypedValue::CpuFrequency { min_khz: *e, max_khz: *f },
            ),
            (
                MutationKind::CpuGovernor { policy: a, governor: b },
                MutationKind::CpuGovernor { policy: c, governor: d },
            ) => a.value == c.value && b.same(d),
            (
                MutationKind::CpuEnergyPreference { policy: a, preference: b },
                MutationKind::CpuEnergyPreference { policy: c, preference: d },
            ) => a.value == c.value && *b == *d,
            (MutationKind::CpuBoost { state: a }, MutationKind::CpuBoost { state: b }) => *a == *b,
            (
                MutationKind::PlatformProfile { profile: a },
                MutationKind::PlatformProfile { profile: b },
            ) => a.same(b),
            (
                MutationKind::CgroupCpuWeight { cgroup: a, weight: b },
                MutationKind::CgroupCpuWeight { cgroup: c, weight: d },
            ) => a.same(c) && *b == *d,
            (
                MutationKind::CgroupCpuMax { cgroup: a, quota: b, period: c },
                MutationKind::CgroupCpuMax { cgroup: d, quota: e, period: f },
            ) => a.same(d) && *b == *e && *c == *f,
            (
                MutationKind::CgroupCpuset { cgroup: a, cpus: b },
                MutationKind::CgroupCpuset { cgroup: c, cpus: d },
            ) => a.same(c) && b.same(d),
            (
                MutationKind::CgroupIoWeight { cgroup: a, weight: b },
                MutationKind::CgroupIoWeight { cgroup: c, weight: d },
            ) => a.same(c) && *b == *d,
            (
                MutationKind::CgroupUclampMin { cgroup: a, value: b },
                MutationKind::CgroupUclampMin { cgroup: c, value: d },
            ) => a.same(c) && *b == *d,
            (
                MutationKind::CgroupUclampMax { cgroup: a, value: b },
                MutationKind::CgroupUclampMax { cgroup: c, value: d },
            ) => a.same(c) && *b == *d,
            (
                MutationKind::CgroupWorkload { parent: a, name: b },
                MutationKind::CgroupWorkload { parent: c, name: d },
            ) => a.same(c) && b.same(d),
            (
                MutationKind::CgroupBackground { parent: a, name: b },
                MutationKind::CgroupBackground { parent: c, name: d },
            ) => a.same(c) && b.same(d),
            (
                MutationKind::ProcessPlacement { process: a, cgroup: b },
                MutationKind::ProcessPlacement { process: c, cgroup: d },
            ) => *a == *c && b.same(d),
            (
                MutationKind::ProcessNice { process: a, nice: b },
                MutationKind::ProcessNice { process: c, nice: d },
            ) => *a == *c && *b == *d,
            (
                MutationKind::ProcessIoPriority { process: a, priority: b },
                MutationKind::ProcessIoPriority { process: c, priority: d },
            ) => *a == *c && *b == *d,
            _ => false,
        }
    }
}

impl Clone for MutationKind {
    fn clone(&self) -> (r: MutationKind)
        ensures
            r@ == self@,
    {
        match self {
            MutationKind::CpuFrequency { policy, min_khz, max_khz } => MutationKind::CpuFrequency {
                policy: *policy,
                min_khz: *min_khz,
                max_khz: *max_khz,
            },
            MutationKind::CpuGovernor { policy, governor } => MutationKind::CpuGovernor {
                policy: *policy,
                governor: governor.clone(),
            },
            MutationKind::CpuEnergyPreference { policy, preference } =>
            MutationKind::CpuEnergyPreference { policy: *policy, preference: *preference },
            MutationKind::CpuBoost { state } => MutationKind::CpuBoost { state: *state },
            MutationKind::PlatformProfile { profile } => MutationKind::PlatformProfile {
                profile: profile.clone(),
            },
            MutationKind::CgroupCpuWeight { cgroup, weight } => MutationKind::CgroupCpuWeight {
                cgroup: cgroup.clone(),
                weight: *weight,
            },
            MutationKind::CgroupCpuMax { cgroup, quota, period } => MutationKind::CgroupCpuMax {
                cgroup: cgroup.clone(),
                quota: *quota,
                period: *period,
            },
            MutationKind::CgroupCpuset { cgroup, cpus } => MutationKind::CgroupCpuset {
                cgroup: cgroup.clone(),
                cpus: cpus.clone(),
            },
            MutationKind::CgroupIoWeight { cgroup, weight } => MutationKind::CgroupIoWeight {
                cgroup: cgroup.clone(),
                weight: *weight,
            },
            MutationKind::CgroupUclampMin { cgroup, value } => MutationKind::CgroupUclampMin {
                cgroup: cgroup.clone(),
                value: *value,
            },
            MutationKind::CgroupUclampMax { cgroup, value } => MutationKind::CgroupUclampMax {
                cgroup: cgroup.clone(),
                value: *value,
            },
            MutationKind::CgroupWorkload { parent, name } => MutationKind::CgroupWorkload {
                parent: parent.clone(),
                name: name.clone(),
            },
            MutationKind::CgroupBackground { parent, name } => MutationKind::CgroupBackground {
                parent: parent.clone(),
                name: name.clone(),
            },
            MutationKind::ProcessPlacement { process, cgroup } => MutationKind::ProcessPlacement {
                process: *process,
                cgroup: cgroup.clone(),
            },
            MutationKind::ProcessNice { process, nice } => MutationKind::ProcessNice {
                process: *process,
                nice: *nice,
            },
            MutationKind::ProcessIoPriority { process, priority } =>
            MutationKind::ProcessIoPriority { process: *process, priority: *priority },
        }
    }
}

/// One change of a plan.
#[derive(Debug, PartialEq, Eq)]
pub struct PlannedMutation {
    pub mutation_id: MutationId,
    /// The capability that the change needs.
    pub capability: CapabilityId,
    /// The target that is changed.
    pub target: TargetId,
    pub kind: MutationKind,
    /// The value that is asked for.
    pub desired: TypedValue,
    /// Fingerprint of the value that planning saw.
    pub precondition: StateFingerprint,
    pub equality: EqualityKind,
    /// Changes that come before this one.
    pub dependencies: Vec<MutationId>,
}

/// A change as plain values.
#[verifier::ext_equal]
pub struct MutationView {
    pub mutation_id: MutationId,
    pub capability: Seq<char>,
    pub target: Seq<char>,
    pub kind: KindView,
    pub desired: ValueView,
    pub precondition: StateFingerprint,
    pub equality: EqualityKind,
    pub dependencies: Seq<MutationId>,
}

impl View for PlannedMutation {
    type V = MutationView;

    open spec fn view(&self) -> MutationView {
        MutationView {
            mutation_id: self.mutation_id,
            capability: self.capability@,
            target: self.target@,
            kind: self.kind@,
            desired: self.desired@,
            precondition: self.precondition,
            equality: self.equality,
            dependencies: self.dependencies@,
        }
    }
}

pub open spec fn kind_disagrees() -> crate::error::ErrorView {
    crate::error::error_view(
        ErrorCode::PlanningError,
        "mutation kind and desired value disagree"@,
    )
}

fn same_ids(a: &Vec<MutationId>, b: &Vec<MutationId>) -> (r: bool)
    ensures
        r == (a@ == b@),
{
    if a.len() != b.len() {
        return false;
    }
    for i in 0..a.len()
        invariant
            a.len() == b.len(),
            forall|j: int| 0 <= j < i ==> a@[j] == b@[j],
    {
        if a[i] != b[i] {
            return false;
        }
    }
    assert(a@ =~= b@);
    true
}

impl PlannedMutation {
    /// A change whose desired value is the one that its kind asks for.
    pub fn new(
        mutation_id: MutationId,
        capability: CapabilityId,
        target: TargetId,
        kind: MutationKind,
        desired: TypedValue,
        precondition: StateFingerprint,
        equality: EqualityKind,
        dependencies: Vec<MutationId>,
    ) -> (r: Result<PlannedMutation, SysboostError>)
        ensures
            match r {
                Ok(mutation) => desired@ == kind@.desired() && mutation@ == (MutationView {
                    mutation_id,
                    capability: capability@,
                    target: target@,
                    kind: kind@,
                    desired: desired@,
                    precondition,
                    equality,
                    dependencies: dependencies@,
                }),
                Err(e) => desired@ != kind@.desired() && e@ == kind_disagrees(),
            },
    {
        if !kind.typed_value().same(&desired) {
            return Err(
                SysboostError::new(
                    ErrorCode::PlanningError,
                    "mutation kind and desired value disagree",
                ),
            );
        }
        Ok(
            PlannedMutation {
                mutation_id,
                capability,
                target,
                kind,
                desired,
                precondition,
                equality,
                dependencies,
            },
        )
    }

    pub fn same(&self, other: &PlannedMutation) -> (r: bool)
        ensures
            r == (self@ == other@),
    {
        self.mutation_id == other.mutation_id && self.capability.same(&other.capability)
            && self.target.same(&other.target) && self.kind.same(&other.kind) && self.desired.same(
            &other.desired,
        ) && self.precondition.same(&other.precondition) && self.equality == other.equality
            && same_ids(&self.dependencies, &other.dependencies)
    }
}

impl Clone for PlannedMutation {
    fn clone(&self) -> (r: PlannedMutation)
        ensures
            r@ == self@,
    {
        let dependencies = self.dependencies.clone();
        assert(dependencies@ =~= self.dependencies@);
        PlannedMutation {
            mutation_id: self.mutation_id,
            capability: self.capability.clone(),
            target: self.target.clone(),
            kind: self.kind.clone(),
            desired: self.desired.clone(),
            precondition: self.precondition,
            equality: self.equality,
            dependencies,
        }
    }
}

/// The most bytes that are kept of a value as it was read.
pub const MAX_PREIMAGE_BYTES: usize = 65_536;

pub open spec fn preimage_too_long() -> crate::error::ErrorView {
    crate::error::error_view(ErrorCode::InvalidInput, "captured bytes exceed their bound"@)
}

/// A value as it was read, byte for byte.
#[derive(Debug, PartialEq, Eq)]
pub struct BoundedBytes {
    pub bytes: Vec<u8>,
}

impl BoundedBytes {
    pub fn new(bytes: Vec<u8>) -> (r: Result<BoundedBytes, SysboostError>)
        ensures
            match r {
                Ok(kept) => bytes@.len() <= MAX_PREIMAGE_BYTES && kept.bytes@ == bytes@,
                Err(e) => bytes@.len() > MAX_PREIMAGE_BYTES && e@ == preimage_too_long(),
            },
    {
        if bytes.len() > MAX_PREIMAGE_BYTES {
            Err(
                SysboostError::new(ErrorCode::InvalidInput, "captured bytes exceed their bound"),
            )
        } else {
            Ok(BoundedBytes { bytes })
        }
    }
}

impl Clone for BoundedBytes {
    fn clone(&self) -> (r: BoundedBytes)
        ensures
            r.bytes@ == self.bytes@,
    {
        let bytes = self.bytes.clone();
        assert(bytes@ =~= self.bytes@);
        BoundedBytes { bytes }
    }
}

/// What a target held before it was changed.
#[derive(Debug, PartialEq, Eq)]
pub struct Snapshot {
    pub mutation_id: MutationId,
    pub target: TargetId,
    /// The value as it was read.
    pub original_raw: BoundedBytes,
    pub original_typed: TypedValue,
    pub original_fingerprint: StateFingerprint,
    pub equality: EqualityKind,
    /// Which object the name of the target meant.
    pub target_identity: TargetIdentity,
    pub captured_at: Timestamp,
}

/// A snapshot as plain values.
#[verifier::ext_equal]
pub struct SnapshotView {
    pub mutation_id: MutationId,
    pub target: Seq<char>,
    pub original_raw: Seq<u8>,
    pub original_typed: ValueView,
    pub original_fingerprint: StateFingerprint,
    pub equality: EqualityKind,
    pub target_identity: TargetIdentity,
    pub captured_at: Timestamp,
}

impl View for Snapshot {
    type V = SnapshotView;

    open spec fn view(&self) -> SnapshotView {
        SnapshotView {
            mutation_id: self.mutation_id,
            target: self.target@,
            original_raw: self.original_raw.bytes@,
            original_typed: self.original_typed@,
            original_fingerprint: self.original_fingerprint,
            equality: self.equality,
            target_identity: self.target_identity,
            captured_at: self.captured_at,
        }
    }
}

impl Clone for Snapshot {
    fn clone(&self) -> (r: Snapshot)
        ensures
            r@ == self@,
    {
        Snapshot {
            mutation_id: self.mutation_id,
            target: self.target.clone(),
            original_raw: self.original_raw.clone(),
            original_typed: self.original_typed.clone(),
            original_fingerprint: self.original_fingerprint,
            equality: self.equality,
            target_identity: self.target_identity,
            captured_at: self.captured_at,
        }
    }
}

/// What applying a change saw and left.
#[derive(Clone, Copy, Debug, PartialEq, Eq)]
pub struct ApplyReceipt {
    pub mutation_id: MutationId,
    /// Fingerprint right before the write.
    pub observed_precondition: StateFingerprint,
    /// Fingerprint right after the write.
    pub observed_postcondition: StateFingerprint,
    /// Fingerprint of the value that the session owns from now on.
    pub ownership_fingerprint: StateFingerprint,
}

/// What restoring a change left.
#[derive(Clone, Copy, Debug, PartialEq, Eq)]
pub struct RestoreReceipt {
    pub mutation_id: MutationId,
    pub restored_fingerprint: StateFingerprint,
    /// Whether the value was read back.
    pub verified: bool,
}

/// What reading back after an apply saw.
#[derive(Clone, Copy, Debug, PartialEq, Eq)]
pub struct VerificationResult {
    pub mutation_id: MutationId,
    pub expected: StateFingerprint,
    pub observed: Option<StateFingerprint>,
    pub matched: bool,
}

/// What a plan does about one capability.
#[derive(Clone, Copy, Debug, PartialEq, Eq, Structural)]
pub enum PlanAction {
    Mutation,
    Report,
}

/// One decision of a plan.
#[derive(Debug, PartialEq, Eq)]
pub struct PlanItem {
    pub action: PlanAction,
    pub mutation: Option<PlannedMutation>,
    /// The backend that owns the change.
    pub backend: Option<BackendId>,
    /// Which object the target meant when the plan was made.
    pub target_identity: Option<TargetIdentity>,
}

/// A decision as plain values.
#[verifier::ext_equal]
pub struct ItemView {
    pub action: PlanAction,
    pub mutation: Option<MutationView>,
    pub backend: Option<Seq<char>>,
    pub target_identity: Option<TargetIdentity>,
}

impl View for PlanItem {
    type V = ItemView;

    open spec fn view(&self) -> ItemView {
        ItemView {
            action: self.action,
            mutation: match self.mutation {
                Some(mutation) => Some(mutation@),
                None => None,
            },
            backend: match self.backend {
                Some(backend) => Some(backend@),
                None => None,
            },
            target_identity: self.target_identity,
        }
    }
}

impl PlanItem {
    pub fn same(&self, other: &PlanItem) -> (r: bool)
        ensures
            r == (self@ == other@),
    {
        let mutations = match (&self.mutation, &other.mutation) {
            (Some(a), Some(b)) => a.same(b),
            (None, None) => true,
            _ => false,
        };
        let backends = match (&self.backend, &other.backend) {
            (Some(a), Some(b)) => a.same(b),
            (None, None) => true,
            _ => false,
        };
        let identities = match (&self.target_identity, &other.target_identity) {
            (Some(a), Some(b)) => a.same(b),
            (None, None) => true,
            _ => false,
        };
        self.action == other.action && mutations && backends && identities
    }
}

impl Clone for PlanItem {
    fn clone(&self) -> (r: PlanItem)
        ensures
            r@ == self@,
    {
        PlanItem {
            action: self.action,
            mutation: match &self.mutation {
                Some(mutation) => Some(mutation.clone()),
                None => None,
            },
            backend: match &self.backend {
                Some(backend) => Some(backend.clone()),
                None => None,
            },
            target_identity: self.target_identity,
        }
    }
}

/// A complete plan.
#[derive(Debug, PartialEq, Eq)]
pub struct Plan {
    pub id: PlanId,
    /// Digest of the plan and its evidence.
    pub plan_digest: [u8; 32],
    /// The changes in the order in which they are applied.
    pub mutations: Vec<PlannedMutation>,
    pub items: Vec<PlanItem>,
}

/// A plan as plain values.
#[verifier::ext_equal]
pub struct PlanDataView {
    pub id: PlanId,
    pub plan_digest: Seq<u8>,
    pub mutations: Seq<MutationView>,
    pub items: Seq<ItemView>,
}

pub open spec fn mutations_view(mutations: Seq<PlannedMutation>) -> Seq<MutationView> {
    mutations.map_values(|mutation: PlannedMutation| mutation@)
}

pub open spec fn items_view(items: Seq<PlanItem>) -> Seq<ItemView> {
    items.map_values(|item: PlanItem| item@)
}

impl View for Plan {
    type V = PlanDataView;

    open spec fn view(&self) -> PlanDataView {
        PlanDataView {
            id: self.id,
            plan_digest: self.plan_digest@,
            mutations: mutations_view(self.mutations@),
            items: items_view(self.items@),
        }
    }
}

/// Whether two changes of a plan have the same number.
pub open spec fn repeated_mutation(mutations: Seq<MutationView>) -> bool {
    exists|i: int, j: int|
        0 <= i < j < mutations.len() && (#[trigger] mutations[i]).mutation_id
            == (#[trigger] mutations[j]).mutation_id
}

pub open spec fn incomplete_plan() -> crate::error::ErrorView {
    crate::error::error_view(ErrorCode::PlanningError, "plan repeats a mutation ID"@)
}

pub fn same_digest(a: &[u8; 32], b: &[u8; 32]) -> (r: bool)
    ensures
        r == (a@ == b@),
{
    for i in 0..32usize
        invariant
            forall|j: int| 0 <= j < i ==> #[trigger] a@[j] == b@[j],
    {
        if a[i] != b[i] {
            assert(a@[i as int] != b@[i as int]);
            return false;
        }
    }
    assert(a@ =~= b@);
    true
}

impl Plan {
    /// Whether the plan can be carried out: each change has a number of its
    /// own.
    pub fn validate_complete(&self) -> (r: Result<(), SysboostError>)
        ensures
            match r {
                Ok(_) => !repeated_mutation(self@.mutations),
                Err(e) => repeated_mutation(self@.mutations) && e@ == incomplete_plan(),
            },
    {
        let ghost all = self@.mutations;
        let mut j: usize = 0;
        while j < self.mutations.len()
            invariant
                j <= self.mutations.len(),
                all == self@.mutations,
                forall|a: int, b: int|
                    0 <= a < b < j ==> (#[trigger] all[a]).mutation_id
                        != (#[trigger] all[b]).mutation_id,
            decreases self.mutations.len() - j,
        {
            let mut i: usize = 0;
            while i < j
                invariant
                    i <= j < self.mutations.len(),
                    all == self@.mutations,
                    forall|a: int|
                        0 <= a < i ==> (#[trigger] all[a]).mutation_id != all[j as int].mutation_id,
                decreases j - i,
            {
                assert(all[i as int] == self.mutations@[i as int]@);
                assert(all[j as int] == self.mutations@[j as int]@);
                if self.mutations[i].mutation_id == self.mutations[j].mutation_id {
                    assert(all[i as int].mutation_id == all[j as int].mutation_id);
                    return Err(
                        SysboostError::new(ErrorCode::PlanningError, "plan repeats a mutation ID"),
                    );
                }
                i = i + 1;
            }
            j = j + 1;
        }
        Ok(())
    }

    /// Whether two plans have the same content.
    pub fn same(&self, other: &Plan) -> (r: bool)
        ensures
            r == (self@ == other@),
    {
        assert(self@.mutations.len() == self.mutations@.len());
        assert(other@.mutations.len() == other.mutations@.len());
        assert(self@.items.len() == self.items@.len());
        assert(other@.items.len() == other.items@.len());
        if !self.id.same(&other.id) || !same_digest(&self.plan_digest, &other.plan_digest)
            || self.mutations.len() != other.mutations.len() || self.items.len()
            != other.items.len() {
            return false;
        }
        let mut i: usize = 0;
        while i < self.mutations.len()
            invariant
                i <= self.mutations.len(),
                self.mutations.len() == other.mutations.len(),
                forall|j: int|
                    0 <= j < i ==> (#[trigger] self@.mutations[j]) == other@.mutations[j],
            decreases self.mutations.len() - i,
        {
            assert(self@.mutations[i as int] == self.mutations@[i as int]@);
            assert(other@.mutations[i as int] == other.mutations@[i as int]@);
            if !self.mutations[i].same(&other.mutations[i]) {
                return false;
            }
            i = i + 1;
        }
        assert(self@.mutations =~= other@.mutations);
        let mut k: usize = 0;
        while k < self.items.len()
            invariant
                k <= self.items.len(),
                self.items.len() == other.items.len(),
                forall|j: int| 0 <= j < k ==> (#[trigger] self@.items[j]) == other@.items[j],
            decreases self.items.len() - k,
        {
            assert(self@.items[k as int] == self.items@[k as int]@);
            assert(other@.items[k as int] == other.items@[k as int]@);
            if !self.items[k].same(&other.items[k]) {
                return false;
            }
            k = k + 1;
        }
        assert(self@.items =~= other@.items);
        true
    }
}

impl Clone for Plan {
    fn clone(&self) -> (r: Plan)
        ensures
            r@ == self@,
    {
        let mutations = self.mutations.clone();
        assert(mutations_view(mutations@) =~= self@.mutations);
        let items = self.items.clone();
        assert(items_view(items@) =~= self@.items);
        Plan { id: self.id, plan_digest: self.plan_digest, mutations, items }
    }
}

/// A mutation goes by the name of the operation that it is one of, and mutations of
/// different operations go by different names.
pub proof fn operations_go_by_their_names(one: KindView, other: KindView)
    ensures
        one is CpuFrequency ==> one.operation() == "cpu.frequency"@,
        one is CpuGovernor ==> one.operation() == "cpu.governor"@,
        one is CpuEnergyPreference ==> one.operation() == "cpu.energy_preference"@,
        one is CpuBoost ==> one.operation() == "cpu.boost"@,
        one is PlatformProfile ==> one.operation() == "platform.profile"@,
        one is CgroupCpuWeight ==> one.operation() == "cgroup.cpu.weight"@,
        one is CgroupCpuMax ==> one.operation() == "cgroup.cpu.max"@,
        one is CgroupCpuset ==> one.operation() == "cgroup.cpuset.cpus"@,
        one is CgroupIoWeight ==> one.operation() == "cgroup.io.weight"@,
        one is CgroupUclampMin ==> one.operation() == "cgroup.uclamp.min"@,
        one is CgroupUclampMax ==> one.operation() == "cgroup.uclamp.max"@,
        one is CgroupWorkload ==> one.operation() == "cgroup.workload"@,
        one is CgroupBackground ==> one.operation() == "cgroup.background"@,
        one is ProcessPlacement ==> one.operation() == "scheduler.process.placement"@,
        one is ProcessNice ==> one.operation() == "scheduler.nice"@,
        one is ProcessIoPriority ==> one.operation() == "scheduler.ioprio"@,
        one is CgroupUclampMin && other is CgroupUclampMax ==> one.operation()
            != other.operation(),
        one is CgroupCpuWeight && other is CgroupIoWeight ==> one.operation() != other.operation(),
        one is CgroupWorkload && other is CgroupBackground ==> one.operation()
            != other.operation(),
{
    reveal_strlit("cgroup.uclamp.min");
    reveal_strlit("cgroup.uclamp.max");
    assert("cgroup.uclamp.min"@[15] != "cgroup.uclamp.max"@[15]);
    reveal_strlit("cgroup.cpu.weight");
    reveal_strlit("cgroup.io.weight");
    reveal_strlit("cgroup.workload");
    reveal_strlit("cgroup.background");
    assert("cgroup.cpu.weight"@.len() != "cgroup.io.weight"@.len());
    assert("cgroup.workload"@.len() != "cgroup.background"@.len());
}

/// What a mutation sets is what it was asked to set: the floor as the floor and the
/// ceiling as the ceiling, each name and number as it was given, and a group that is
/// asked for is to be there, for the purpose it was asked for.
pub proof fn mutations_set_what_they_were_asked_to(kind: KindView)
    ensures
        match kind {
            KindView::CpuFrequency { min_khz: floor, max_khz: ceiling, .. } => kind.desired()
                matches ValueView::CpuFrequency { min_khz, max_khz } && min_khz == floor && max_khz
                == ceiling,
            KindView::CpuGovernor { governor, .. } => kind.desired() == ValueView::Governor(
                governor,
            ),
            KindView::CpuEnergyPreference { preference, .. } => kind.desired()
                == ValueView::EnergyPreference(preference),
            KindView::CpuBoost { state } => kind.desired() == ValueView::CpuBoost(state),
            KindView::PlatformProfile { profile } => kind.desired() == ValueView::PlatformProfile(
                profile,
            ),
            KindView::CgroupCpuMax { quota: limit, period: window, .. } => kind.desired()
                matches ValueView::CgroupCpuMax { quota, period } && quota == limit && period
                == window,
            KindView::CgroupWorkload { name: asked, .. } => kind.desired()
                matches ValueView::CgroupLifecycle { kind: purpose, name, present } && present
                && name == asked && purpose == CgroupGroupKind::Workload,
            KindView::CgroupBackground { name: asked, .. } => kind.desired()
                matches ValueView::CgroupLifecycle { kind: purpose, name, present } && present
                && name == asked && purpose == CgroupGroupKind::ConservativeBackground,
            KindView::ProcessPlacement { cgroup, .. } => kind.desired()
                == ValueView::ProcessPlacement(cgroup),
            KindView::ProcessNice { nice, .. } => kind.desired() == ValueView::Nice(nice),
            KindView::CgroupUclampMin { value, .. } => kind.desired() == ValueView::CgroupUclamp(
                value,
            ),
            KindView::CgroupUclampMax { value, .. } => kind.desired() == ValueView::CgroupUclamp(
                value,
            ),
            _ => true,
        },
{
}

} // verus!
