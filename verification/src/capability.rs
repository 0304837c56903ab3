//! What a host can do, and the evidence for it.

use vstd::prelude::*;

use crate::clock::Timestamp;
use crate::ids::{BackendId, CapabilityId, OperationId};
use crate::mutation::EqualityKind;

verus! {

/// Whether a capability can be used.
#[derive(Clone, Copy, Debug, PartialEq, Eq, Structural)]
pub enum CapabilityState {
    Available,
    ReadOnly,
    Unsupported,
    Denied,
    Indeterminate,
}

/// What a capability is good for.
#[derive(Clone, Copy, Debug, PartialEq, Eq, Structural)]
pub enum FeatureClass {
    RuntimeMutable,
    Conditional,
    Experimental,
    BootOnlyReportOnly,
}

/// How much can go wrong.
#[derive(Clone, Copy, Debug, PartialEq, Eq, Structural)]
pub enum RiskClass {
    Low,
    Medium,
    Critical,
}

/// What a capability is about.
#[derive(Clone, Copy, Debug, PartialEq, Eq, Structural)]
pub enum TargetKind {
    CpuPolicy,
    CpuSystem,
    Cgroup,
    Process,
    Gpu,
    Irq,
}

/// Where evidence was found.
#[derive(Clone, Copy, Debug, PartialEq, Eq, Structural)]
pub enum EvidenceSource {
    Sysfs,
    Procfs,
    CgroupV1,
    CgroupV2,
    Device,
    Synthetic,
}

/// What using a capability takes.
#[derive(Clone, Copy, Debug, PartialEq, Eq, Structural)]
pub enum PrivilegeRequirement {
    ReadOnly,
    PrivilegedMutation,
}

/// One piece of evidence.
#[derive(Debug, PartialEq, Eq)]
pub struct CapabilityEvidence {
    pub source: EvidenceSource,
    pub detail: String,
}

/// One operation of a capability.
#[derive(Debug, PartialEq, Eq)]
pub struct OperationDescriptor {
    pub id: OperationId,
    pub privilege: PrivilegeRequirement,
    pub equality: EqualityKind,
    pub classification: FeatureClass,
}

/// One capability of a host.
#[derive(Debug, PartialEq, Eq)]
pub struct CapabilityDescriptor {
    pub id: CapabilityId,
    pub backend: BackendId,
    pub target_kind: TargetKind,
    pub state: CapabilityState,
    pub operations: Vec<OperationDescriptor>,
    pub privilege: PrivilegeRequirement,
    pub equality: EqualityKind,
    pub risk: RiskClass,
    pub classification: FeatureClass,
    pub evidence: Vec<CapabilityEvidence>,
}

/// An operation as plain values.
#[verifier::ext_equal]
pub struct OperationView {
    pub id: Seq<char>,
    pub privilege: PrivilegeRequirement,
    pub equality: EqualityKind,
    pub classification: FeatureClass,
}

/// A capability as plain values.
#[verifier::ext_equal]
pub struct CapabilityView {
    pub id: Seq<char>,
    pub backend: Seq<char>,
    pub target_kind: TargetKind,
    pub state: CapabilityState,
    pub operations: Seq<OperationView>,
    pub privilege: PrivilegeRequirement,
    pub equality: EqualityKind,
    pub risk: RiskClass,
    pub classification: FeatureClass,
    pub evidence: Seq<(EvidenceSource, Seq<char>)>,
}

impl View for OperationDescriptor {
    type V = OperationView;

    open spec fn view(&self) -> OperationView {
        OperationView {
            id: self.id@,
            privilege: self.privilege,
            equality: self.equality,
            classification: self.classification,
        }
    }
}

pub open spec fn evidence_view(evidence: Seq<CapabilityEvidence>) -> Seq<
    (EvidenceSource, Seq<char>),
> {
    evidence.map_values(|e: CapabilityEvidence| (e.source, e.detail@))
}

impl View for CapabilityDescriptor {
    type V = CapabilityView;

    open spec fn view(&self) -> CapabilityView {
        CapabilityView {
            id: self.id@,
            backend: self.backend@,
            target_kind: self.target_kind,
            state: self.state,
            operations: self.operations@.map_values(|o: OperationDescriptor| o@),
            privilege: self.privilege,
            equality: self.equality,
            risk: self.risk,
            classification: self.classification,
            evidence: evidence_view(self.evidence@),
        }
    }
}

/// What a host can do, as of one moment.
#[derive(Debug, PartialEq, Eq)]
pub struct CapabilityInventory {
    pub observed_at: Timestamp,
    pub capabilities: Vec<CapabilityDescriptor>,
}

pub open spec fn capabilities_view(capabilities: Seq<CapabilityDescriptor>) -> Seq<
    CapabilityView,
> {
    capabilities.map_values(|c: CapabilityDescriptor| c@)
}

/// Capabilities, as plain values.
pub open spec fn capabilities_reply(
    r: Result<Vec<CapabilityDescriptor>, crate::error::SysboostError>,
) -> Result<Seq<CapabilityView>, crate::error::ErrorView> {
    match r {
        Ok(found) => Ok(capabilities_view(found@)),
        Err(e) => Err(e@),
    }
}

/// Whether capabilities are reported so, as of what a clock may tell.
pub open spec fn dated(
    capabilities: Seq<CapabilityView>,
    told: Set<Result<Timestamp, crate::error::ErrorView>>,
    reply: Result<CapabilityInventory, crate::error::ErrorView>,
) -> bool {
    exists|time: Result<Timestamp, crate::error::ErrorView>| #[trigger]
        told.contains(time) && match (time, reply) {
            (Ok(at), Ok(inventory)) => inventory.observed_at == at && capabilities_view(
                inventory.capabilities@,
            ) == capabilities,
            (Err(e), Err(f)) => f == e,
            _ => false,
        }
}

/// A capability of a host from its parts: one operation, one piece of evidence.
pub open spec fn single_capability(
    id: Seq<char>,
    backend: Seq<char>,
    operation: Seq<char>,
    target_kind: TargetKind,
    equality: EqualityKind,
    state: CapabilityState,
    risk: RiskClass,
    classification: FeatureClass,
    source: EvidenceSource,
    detail: Seq<char>,
) -> CapabilityView {
    CapabilityView {
        id,
        backend,
        target_kind,
        state,
        operations: seq![
            OperationView {
                id: operation,
                privilege: PrivilegeRequirement::PrivilegedMutation,
                equality,
                classification,
            },
        ],
        privilege: PrivilegeRequirement::PrivilegedMutation,
        equality,
        risk,
        classification,
        evidence: seq![(source, detail)],
    }
}

/// A capability identity from a text that is known not to be empty.
pub fn capability_named(name: &str) -> (r: CapabilityId)
    requires
        name@.len() > 0,
    ensures
        r@ == name@,
{
    match CapabilityId::new(name) {
        Ok(id) => id,
        Err(_) => {
            assert(false);
            vstd::pervasive::unreached()
        },
    }
}

/// A backend identity from a text that is known not to be empty.
pub fn backend_named(name: &str) -> (r: BackendId)
    requires
        name@.len() > 0,
    ensures
        r@ == name@,
{
    match BackendId::new(name) {
        Ok(id) => id,
        Err(_) => {
            assert(false);
            vstd::pervasive::unreached()
        },
    }
}

/// A capability of one operation and one piece of evidence.
pub fn describe_capability(
    id: &str,
    backend: &str,
    operation: &str,
    target_kind: TargetKind,
    equality: EqualityKind,
    state: CapabilityState,
    risk: RiskClass,
    classification: FeatureClass,
    source: EvidenceSource,
    detail: &str,
) -> (r: CapabilityDescriptor)
    requires
        id@.len() > 0,
        backend@.len() > 0,
        operation@.len() > 0,
    ensures
        r@ == single_capability(
            id@,
            backend@,
            operation@,
            target_kind,
            equality,
            state,
            risk,
            classification,
            source,
            detail@,
        ),
{
    let mut operations: Vec<OperationDescriptor> = Vec::new();
    operations.push(
        OperationDescriptor {
            id: crate::mutation::operation_named(operation),
            privilege: PrivilegeRequirement::PrivilegedMutation,
            equality,
            classification,
        },
    );
    let mut evidence: Vec<CapabilityEvidence> = Vec::new();
    evidence.push(CapabilityEvidence { source, detail: detail.to_string() });
    let r = CapabilityDescriptor {
        id: capability_named(id),
        backend: backend_named(backend),
        target_kind,
        state,
        operations,
        privilege: PrivilegeRequirement::PrivilegedMutation,
        equality,
        risk,
        classification,
        evidence,
    };
    let ghost expected = single_capability(
        id@,
        backend@,
        operation@,
        target_kind,
        equality,
        state,
        risk,
        classification,
        source,
        detail@,
    );
    assert(r@.operations =~= expected.operations);
    assert(r@.evidence =~= expected.evidence);
    r
}

/// Inventories one behind the other.
pub open spec fn joined_capabilities(inventories: Seq<CapabilityInventory>) -> Seq<CapabilityView>
    decreases inventories.len(),
{
    if inventories.len() == 0 {
        Seq::empty()
    } else {
        joined_capabilities(inventories.drop_last()) + capabilities_view(
            inventories.last().capabilities@,
        )
    }
}

/// The latest moment of inventories, or a given one where there are none.
pub open spec fn latest(inventories: Seq<CapabilityInventory>, otherwise: Timestamp) -> Timestamp
    decreases inventories.len(),
{
    if inventories.len() == 0 {
        otherwise
    } else if inventories.len() == 1 || inventories.last().observed_at.millis > latest(
        inventories.drop_last(),
        otherwise,
    ).millis {
        inventories.last().observed_at
    } else {
        latest(inventories.drop_last(), otherwise)
    }
}

/// Adds the capabilities of one more inventory.
pub fn extend_inventory(out: &mut Vec<CapabilityDescriptor>, more: Vec<CapabilityDescriptor>)
    ensures
        capabilities_view(final(out)@) == capabilities_view(old(out)@) + capabilities_view(more@),
{
    let mut more = more;
    let ghost a = out@;
    let ghost b = more@;
    out.append(&mut more);
    assert(capabilities_view(out@) =~= capabilities_view(a) + capabilities_view(b));
}

} // verus!
