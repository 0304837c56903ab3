//! What planning is told about operations before any host is looked at.

use vstd::prelude::*;

use crate::capability;
use crate::capability::{FeatureClass, RiskClass, TargetKind};
use crate::error::{ErrorCode, SysboostError};
use crate::ids::{BackendId, CapabilityId, OperationId};
use crate::mutation;
use crate::mutation::EqualityKind;

verus! {

/// The control that an operation turns.
#[derive(Clone, Copy, Debug, PartialEq, Eq, Structural)]
pub enum ControlId {
    CpuFrequency,
    CpuGovernor,
    CpuEnergyPreference,
    CpuBoost,
    PlatformProfile,
    CgroupCpuWeight,
    CgroupCpuMax,
    CgroupCpuset,
    CgroupIoWeight,
    CgroupUclampMin,
    CgroupUclampMax,
    CgroupWorkload,
    CgroupBackground,
    ProcessPlacement,
    ProcessNice,
    ProcessIoPriority,
}

/// What is kept of a target before it is changed.
#[derive(Clone, Copy, Debug, PartialEq, Eq, Structural)]
pub struct SnapshotContract {
    pub typed_value: bool,
    pub fingerprint: bool,
    pub target_identity: bool,
    /// Whether the bytes as they were read are kept too.
    pub raw_preimage: bool,
}

impl SnapshotContract {
    /// Whether enough is kept to go back.
    pub open spec fn complete(self) -> bool {
        self.typed_value && self.fingerprint && self.target_identity
    }

    /// Whether enough is kept to go back.
    pub fn is_complete(&self) -> (r: bool)
        ensures
            r == self.complete(),
    {
        self.typed_value && self.fingerprint && self.target_identity
    }
}

/// How a target is given back what it held.
#[derive(Clone, Copy, Debug, PartialEq, Eq, Structural)]
pub struct RestoreContract {
    pub exact_original: bool,
    /// Whether values that others wrote are left alone.
    pub ownership_check: bool,
    pub readback: bool,
}

impl RestoreContract {
    /// Whether restoring is exact, guarded and proved.
    pub open spec fn complete(self) -> bool {
        self.exact_original && self.ownership_check && self.readback
    }

    /// Whether restoring is exact, guarded and proved.
    pub fn is_complete(&self) -> (r: bool)
        ensures
            r == self.complete(),
    {
        self.exact_original && self.ownership_check && self.readback
    }
}

/// How a change is verified.
#[derive(Clone, Copy, Debug, PartialEq, Eq, Structural)]
pub struct VerificationContract {
    pub readback: bool,
    pub identity_check: bool,
}

impl VerificationContract {
    /// Whether a change is read back from the same target.
    pub open spec fn complete(self) -> bool {
        self.readback && self.identity_check
    }

    /// Whether a change is read back from the same target.
    pub fn is_complete(&self) -> (r: bool)
        ensures
            r == self.complete(),
    {
        self.readback && self.identity_check
    }
}

/// One operation, as planning sees it.
#[derive(Debug, PartialEq, Eq)]
pub struct OperationContract {
    pub operation: OperationId,
    pub capability: CapabilityId,
    pub backend: BackendId,
    pub target_kind: TargetKind,
    pub control: ControlId,
    pub equality: EqualityKind,
    pub risk: RiskClass,
    pub classification: FeatureClass,
    /// Whether a profile has to ask for it by name.
    pub explicit_opt_in: bool,
    /// Operations that come before it.
    pub dependencies: Vec<OperationId>,
    pub snapshot: SnapshotContract,
    pub restore: RestoreContract,
    pub verification: VerificationContract,
}

/// An operation as planning sees it, as plain values.
#[verifier::ext_equal]
pub struct ContractView {
    pub operation: Seq<char>,
    pub capability: Seq<char>,
    pub backend: Seq<char>,
    pub target_kind: TargetKind,
    pub control: ControlId,
    pub equality: EqualityKind,
    pub risk: RiskClass,
    pub classification: FeatureClass,
    pub explicit_opt_in: bool,
    pub dependencies: Seq<Seq<char>>,
    pub snapshot: SnapshotContract,
    pub restore: RestoreContract,
    pub verification: VerificationContract,
}

impl View for OperationContract {
    type V = ContractView;

    open spec fn view(&self) -> ContractView {
        ContractView {
            operation: self.operation@,
            capability: self.capability@,
            backend: self.backend@,
            target_kind: self.target_kind,
            control: self.control,
            equality: self.equality,
            risk: self.risk,
            classification: self.classification,
            explicit_opt_in: self.explicit_opt_in,
            dependencies: crate::backend::operation_names(self.dependencies@),
            snapshot: self.snapshot,
            restore: self.restore,
            verification: self.verification,
        }
    }
}

/// An operation that is fully reversible and depends on nothing.
pub open spec fn complete_contract(
    operation: Seq<char>,
    capability: Seq<char>,
    backend: Seq<char>,
    target_kind: TargetKind,
    control: ControlId,
    equality: EqualityKind,
    risk: RiskClass,
    classification: FeatureClass,
    explicit_opt_in: bool,
) -> ContractView {
    ContractView {
        operation,
        capability,
        backend,
        target_kind,
        control,
        equality,
        risk,
        classification,
        explicit_opt_in,
        dependencies: Seq::empty(),
        snapshot: SnapshotContract {
            typed_value: true,
            fingerprint: true,
            target_identity: true,
            raw_preimage: false,
        },
        restore: RestoreContract { exact_original: true, ownership_check: true, readback: true },
        verification: VerificationContract { readback: true, identity_check: true },
    }
}

pub open spec fn incomplete_contract() -> crate::error::ErrorView {
    crate::error::error_view(ErrorCode::InvariantViolation, "operation contract is incomplete"@)
}

pub open spec fn self_dependency() -> crate::error::ErrorView {
    crate::error::error_view(ErrorCode::InvariantViolation, "operation depends on itself"@)
}

/// Why a contract is not valid, if it is not.
pub open spec fn contract_refusal(contract: ContractView) -> Option<crate::error::ErrorView> {
    if !contract.snapshot.complete() || !contract.restore.complete()
        || !contract.verification.complete() {
        Some(incomplete_contract())
    } else if contract.dependencies.contains(contract.operation) {
        Some(self_dependency())
    } else {
        None
    }
}

impl OperationContract {
    /// An operation that is fully reversible and depends on nothing.
    pub fn complete(
        operation: OperationId,
        capability: CapabilityId,
        backend: BackendId,
        target_kind: TargetKind,
        control: ControlId,
        equality: EqualityKind,
        risk: RiskClass,
        classification: FeatureClass,
        explicit_opt_in: bool,
    ) -> (r: OperationContract)
        ensures
            r@ == complete_contract(
                operation@,
                capability@,
                backend@,
                target_kind,
                control,
                equality,
                risk,
                classification,
                explicit_opt_in,
            ),
    {
        let r = OperationContract {
            operation,
            capability,
            backend,
            target_kind,
            control,
            equality,
            risk,
            classification,
            explicit_opt_in,
            dependencies: Vec::new(),
            snapshot: SnapshotContract {
                typed_value: true,
                fingerprint: true,
                target_identity: true,
                raw_preimage: false,
            },
            restore: RestoreContract {
                exact_original: true,
                ownership_check: true,
                readback: true,
            },
            verification: VerificationContract { readback: true, identity_check: true },
        };
        assert(r@.dependencies =~= Seq::empty());
        r
    }

    /// Whether the operation can be undone exactly and does not depend on
    /// itself.
    pub fn validate(&self) -> (r: Result<(), SysboostError>)
        ensures
            match r {
                Ok(_) => contract_refusal(self@) is None,
                Err(e) => contract_refusal(self@) == Some(e@),
            },
    {
        if !self.snapshot.is_complete() || !self.restore.is_complete()
            || !self.verification.is_complete() {
            return Err(
                SysboostError::new(
                    ErrorCode::InvariantViolation,
                    "operation contract is incomplete",
                ),
            );
        }
        let ghost names = self@.dependencies;
        let mut i: usize = 0;
        while i < self.dependencies.len()
            invariant
                i <= self.dependencies@.len(),
                names == self@.dependencies,
                self.snapshot.complete(),
                self.restore.complete(),
                self.verification.complete(),
                forall|j: int| 0 <= j < i ==> (#[trigger] names[j]) != self.operation@,
            decreases self.dependencies@.len() - i,
        {
            assert(names[i as int] == self.dependencies@[i as int]@);
            if self.dependencies[i].same(&self.operation) {
                assert(names.contains(self.operation@));
                return Err(
                    SysboostError::new(
                        ErrorCode::InvariantViolation,
                        "operation depends on itself",
                    ),
                );
            }
            i = i + 1;
        }
        Ok(())
    }
}

impl Clone for OperationContract {
    fn clone(&self) -> (r: OperationContract)
        ensures
            r@ == self@,
    {
        let mut dependencies: Vec<OperationId> = Vec::new();
        let mut i: usize = 0;
        while i < self.dependencies.len()
            invariant
                i <= self.dependencies@.len(),
                dependencies@.len() == i,
                forall|j: int|
                    0 <= j < i ==> (#[trigger] dependencies@[j])@ == self.dependencies@[j]@,
            decreases self.dependencies@.len() - i,
        {
            dependencies.push(self.dependencies[i].clone());
            i = i + 1;
        }
        assert(crate::backend::operation_names(dependencies@)
            =~= crate::backend::operation_names(self.dependencies@));
        OperationContract {
            operation: self.operation.clone(),
            capability: self.capability.clone(),
            backend: self.backend.clone(),
            target_kind: self.target_kind,
            control: self.control,
            equality: self.equality,
            risk: self.risk,
            classification: self.classification,
            explicit_opt_in: self.explicit_opt_in,
            dependencies,
            snapshot: self.snapshot,
            restore: self.restore,
            verification: self.verification,
        }
    }
}

pub open spec fn contracts_view(contracts: Seq<OperationContract>) -> Seq<ContractView> {
    contracts.map_values(|c: OperationContract| c@)
}

/// The operations that planning may use.
#[derive(Debug, PartialEq, Eq)]
pub struct OperationCatalog {
    contracts: Vec<OperationContract>,
}

impl View for OperationCatalog {
    type V = Seq<ContractView>;

    closed spec fn view(&self) -> Seq<ContractView> {
        contracts_view(self.contracts@)
    }
}

impl OperationCatalog {
    pub fn new(contracts: Vec<OperationContract>) -> (r: OperationCatalog)
        ensures
            r@ == contracts_view(contracts@),
    {
        OperationCatalog { contracts }
    }

    pub fn contracts(&self) -> (r: &[OperationContract])
        ensures
            contracts_view(r@) == self@,
    {
        self.contracts.as_slice()
    }
}

/// An operation that is fully reversible and depends on nothing, by its names.
pub fn name_contract(
    operation: &str,
    capability: &str,
    backend: &str,
    target_kind: TargetKind,
    control: ControlId,
    equality: EqualityKind,
    risk: RiskClass,
    classification: FeatureClass,
    explicit_opt_in: bool,
) -> (r: OperationContract)
    requires
        operation@.len() > 0,
        capability@.len() > 0,
        backend@.len() > 0,
    ensures
        r@ == complete_contract(
            operation@,
            capability@,
            backend@,
            target_kind,
            control,
            equality,
            risk,
            classification,
            explicit_opt_in,
        ),
{
    OperationContract::complete(
        mutation::operation_named(operation),
        capability::capability_named(capability),
        capability::backend_named(backend),
        target_kind,
        control,
        equality,
        risk,
        classification,
        explicit_opt_in,
    )
}

fn copy_contracts(out: &mut Vec<OperationContract>, catalog: &OperationCatalog)
    ensures
        contracts_view(final(out)@) == contracts_view(old(out)@) + catalog@,
{
    let ghost before = contracts_view(out@);
    let contracts = catalog.contracts();
    let ghost all = contracts_view(contracts@);
    let mut i: usize = 0;
    assert(before + all.take(0) =~= before);
    while i < contracts.len()
        invariant
            i <= contracts@.len(),
            all == contracts_view(contracts@),
            contracts_view(out@) == before + all.take(i as int),
        decreases contracts@.len() - i,
    {
        let ghost listed = contracts_view(out@);
        out.push(contracts[i].clone());
        assert(all[i as int] == contracts@[i as int]@);
        assert(contracts_view(out@) =~= listed.push(all[i as int]));
        assert(before + all.take(i + 1) =~= listed.push(all[i as int]));
        i = i + 1;
    }
    assert(all.take(i as int) =~= all);
}

/// The operations of two catalogs, one after the other.
pub fn joined(first: &OperationCatalog, second: &OperationCatalog) -> (r: OperationCatalog)
    ensures
        r@ == first@ + second@,
{
    let mut contracts: Vec<OperationContract> = Vec::new();
    copy_contracts(&mut contracts, first);
    copy_contracts(&mut contracts, second);
    assert(contracts_view(contracts@) =~= first@ + second@);
    OperationCatalog::new(contracts)
}

/// An operation is admitted only if it can be undone exactly: its snapshot holds the
/// typed value, its fingerprint and the identity of its target, restoring puts back
/// the exact original after checking whose value stands there and reads it back, and
/// verifying reads back and checks the identity. It does not depend on itself, and
/// nothing else is asked of it.
pub proof fn admitted_operations_can_be_undone(contract: ContractView)
    ensures
        contract_refusal(contract) is None <==> {
            &&& contract.snapshot.typed_value
            &&& contract.snapshot.fingerprint
            &&& contract.snapshot.target_identity
            &&& contract.restore.exact_original
            &&& contract.restore.ownership_check
            &&& contract.restore.readback
            &&& contract.verification.readback
            &&& contract.verification.identity_check
            &&& !contract.dependencies.contains(contract.operation)
        },
{
}

} // verus!
