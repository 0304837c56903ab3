//! A host with CPU controls that lives in memory.

use vstd::prelude::*;

use crate::backend::Shown;
use crate::cpu;
use crate::cpu::{CpuBackend, CpuControlIo};
use crate::cpu_node;
use crate::cpu_node::{CpuBoostInterface, CpuNode, CpuNodeState, NodeView};
use crate::error::{ErrorCode, ErrorView, SysboostError};
use crate::ids::{GovernorId, PlatformProfileId, StateFingerprint, TargetIdentity};
use crate::mutation::{MutationView, SnapshotView};
use crate::text;
use crate::value::{
    CpuBoostState, CpuPolicyId, EnergyPreference, FrequencyKHz, TypedValue, ValueView,
};

verus! {

/// One policy of the host.
#[derive(Clone, Debug)]
struct FixturePolicy {
    id: CpuPolicyId,
    identity: TargetIdentity,
    governor: GovernorId,
    governor_choices: Vec<GovernorId>,
    epp: EnergyPreference,
    epp_choices: Vec<EnergyPreference>,
    min_khz: FrequencyKHz,
    max_khz: FrequencyKHz,
    hardware_min: FrequencyKHz,
    hardware_max: FrequencyKHz,
}

/// One policy of the host, as plain values.
#[verifier::ext_equal]
pub struct PolicyModel {
    pub id: CpuPolicyId,
    pub identity: TargetIdentity,
    pub governor: Seq<char>,
    pub governor_choices: Seq<Seq<char>>,
    pub epp: EnergyPreference,
    pub epp_choices: Seq<EnergyPreference>,
    pub min_khz: FrequencyKHz,
    pub max_khz: FrequencyKHz,
    pub hardware_min: FrequencyKHz,
    pub hardware_max: FrequencyKHz,
}

impl View for FixturePolicy {
    type V = PolicyModel;

    closed spec fn view(&self) -> PolicyModel {
        PolicyModel {
            id: self.id,
            identity: self.identity,
            governor: self.governor@,
            governor_choices: governor_names(self.governor_choices@),
            epp: self.epp,
            epp_choices: self.epp_choices@,
            min_khz: self.min_khz,
            max_khz: self.max_khz,
            hardware_min: self.hardware_min,
            hardware_max: self.hardware_max,
        }
    }
}

/// The names of governors.
pub open spec fn governor_names(governors: Seq<GovernorId>) -> Seq<Seq<char>> {
    governors.map_values(|g: GovernorId| g@)
}

/// The names of profiles.
pub open spec fn profile_names(profiles: Seq<PlatformProfileId>) -> Seq<Seq<char>> {
    profiles.map_values(|p: PlatformProfileId| p@)
}

/// The boost of the host.
#[derive(Clone, Copy, Debug, PartialEq, Eq)]
pub struct FixtureBoost {
    pub identity: TargetIdentity,
    pub interface: CpuBoostInterface,
    pub state: CpuBoostState,
}

/// The platform profile of the host.
#[derive(Clone, Debug)]
struct FixtureProfile {
    identity: TargetIdentity,
    profile: PlatformProfileId,
    choices: Vec<PlatformProfileId>,
}

/// The platform profile of the host, as plain values.
#[verifier::ext_equal]
pub struct ProfileModel {
    pub identity: TargetIdentity,
    pub profile: Seq<char>,
    pub choices: Seq<Seq<char>>,
}

impl View for FixtureProfile {
    type V = ProfileModel;

    closed spec fn view(&self) -> ProfileModel {
        ProfileModel {
            identity: self.identity,
            profile: self.profile@,
            choices: profile_names(self.choices@),
        }
    }
}

/// A host with CPU controls that lives in memory. A clone is a host of its own: what is
/// written to one is not seen in the other. The host that a backend drives is reached
/// through the backend, with `fixture_mut`.
#[derive(Clone, Debug)]
pub struct CpuFixture {
    policies: Vec<FixturePolicy>,
    boost: Option<FixtureBoost>,
    platform_profile: Option<FixtureProfile>,
    fail_writes: Vec<CpuNode>,
}

/// What the host holds, as plain values.
#[verifier::ext_equal]
pub struct CpuModel {
    /// The policies, in ascending order.
    pub policies: Seq<PolicyModel>,
    pub boost: Option<FixtureBoost>,
    pub profile: Option<ProfileModel>,
    /// The controls whose next write fails.
    pub failing: Set<CpuNode>,
}

spec fn policies_view(policies: Seq<FixturePolicy>) -> Seq<PolicyModel> {
    policies.map_values(|p: FixturePolicy| p@)
}

spec fn nodes_set(nodes: Seq<CpuNode>) -> Set<CpuNode> {
    Set::new(|node: CpuNode| nodes.contains(node))
}

impl View for CpuFixture {
    type V = CpuModel;

    closed spec fn view(&self) -> CpuModel {
        CpuModel {
            policies: policies_view(self.policies@),
            boost: self.boost,
            profile: match self.platform_profile {
                Some(profile) => Some(profile@),
                None => None,
            },
            failing: nodes_set(self.fail_writes@),
        }
    }
}

/// Where a policy stands, or -1.
pub open spec fn position(policies: Seq<PolicyModel>, id: CpuPolicyId) -> int
    decreases policies.len(),
{
    if policies.len() == 0 {
        -1
    } else if policies.last().id == id {
        policies.len() - 1
    } else {
        position(policies.drop_last(), id)
    }
}

/// A policy of the host.
pub open spec fn policy_of(model: CpuModel, id: CpuPolicyId) -> Option<PolicyModel> {
    let i = position(model.policies, id);
    if i >= 0 {
        Some(model.policies[i])
    } else {
        None
    }
}

/// Policies with one more, or with another in its place, in ascending order.
pub open spec fn with_policy(policies: Seq<PolicyModel>, policy: PolicyModel) -> Seq<PolicyModel>
    decreases policies.len(),
{
    if policies.len() == 0 || policies.last().id.value < policy.id.value {
        policies.push(policy)
    } else if policies.last().id == policy.id {
        policies.drop_last().push(policy)
    } else {
        with_policy(policies.drop_last(), policy).push(policies.last())
    }
}

pub(crate) proof fn lemma_position(policies: Seq<PolicyModel>, id: CpuPolicyId)
    ensures
        -1 <= position(policies, id) < policies.len(),
        position(policies, id) >= 0 ==> policies[position(policies, id)].id == id,
    decreases policies.len(),
{
    if policies.len() > 0 && policies.last().id != id {
        lemma_position(policies.drop_last(), id);
    }
}

proof fn lemma_position_kept(policies: Seq<PolicyModel>, i: int, policy: PolicyModel, id: CpuPolicyId)
    requires
        0 <= i < policies.len(),
        policies[i].id == policy.id,
    ensures
        position(policies.update(i, policy), id) == position(policies, id),
    decreases policies.len(),
{
    let changed = policies.update(i, policy);
    assert(changed.last().id == policies.last().id);
    if policies.last().id != id {
        if i < policies.len() - 1 {
            assert(changed.drop_last() =~= policies.drop_last().update(i, policy));
            lemma_position_kept(policies.drop_last(), i, policy, id);
        } else {
            assert(changed.drop_last() =~= policies.drop_last());
        }
    }
}

pub open spec fn missing() -> ErrorView {
    crate::error::error_view(ErrorCode::Unsupported, "CPU fixture node is unavailable"@)
}

fn fixture_missing() -> (r: SysboostError)
    ensures
        r@ == missing(),
{
    SysboostError::new(ErrorCode::Unsupported, "CPU fixture node is unavailable")
}

/// The text of both limits of a frequency.
pub open spec fn range_text(min: FrequencyKHz, max: FrequencyKHz) -> Seq<char> {
    text::decimal_spec(min.value as nat).push('\0') + text::decimal_spec(max.value as nat)
}

fn render_range(min: FrequencyKHz, max: FrequencyKHz) -> (r: String)
    ensures
        r@ == range_text(min, max),
{
    let low = text::decimal(min.value as u128);
    let high = text::decimal(max.value as u128);
    let r = text::join3(low.as_str(), "\0", high.as_str());
    proof {
        reveal_strlit("\0");
        assert("\0"@ =~= seq!['\0']);
        assert(r@ =~= range_text(min, max));
    }
    r
}

/// What a control of the host holds.
pub open spec fn fixture_node(model: CpuModel, node: CpuNode) -> Result<NodeView, ErrorView> {
    match node {
        CpuNode::Governor(id) => match policy_of(model, id) {
            None => Err(missing()),
            Some(policy) => cpu_node::observed(
                ValueView::Governor(policy.governor),
                vstd::utf8::encode_utf8(policy.governor),
                policy.identity,
                None,
            ),
        },
        CpuNode::EnergyPreference(id) => match policy_of(model, id) {
            None => Err(missing()),
            Some(policy) => cpu_node::observed(
                ValueView::EnergyPreference(policy.epp),
                vstd::utf8::encode_utf8(cpu_node::energy_text(policy.epp)),
                policy.identity,
                None,
            ),
        },
        CpuNode::Frequency(id) => match policy_of(model, id) {
            None => Err(missing()),
            Some(policy) => cpu_node::observed(
                ValueView::CpuFrequency {
                    min_khz: Some(policy.min_khz),
                    max_khz: Some(policy.max_khz),
                },
                vstd::utf8::encode_utf8(range_text(policy.min_khz, policy.max_khz)),
                policy.identity,
                None,
            ),
        },
        CpuNode::Boost(_) => match model.boost {
            None => Err(missing()),
            Some(boost) => cpu_node::observed(
                ValueView::CpuBoost(boost.state),
                vstd::utf8::encode_utf8(cpu_node::boost_text_spec(boost.interface, boost.state)),
                boost.identity,
                Some(boost.interface),
            ),
        },
        CpuNode::PlatformProfile => match model.profile {
            None => Err(missing()),
            Some(profile) => cpu_node::observed(
                ValueView::PlatformProfile(profile.profile),
                vstd::utf8::encode_utf8(profile.profile),
                profile.identity,
                None,
            ),
        },
    }
}

/// The values that a control of the host lists.
pub open spec fn fixture_choices(model: CpuModel, node: CpuNode) -> Result<
    Seq<ValueView>,
    ErrorView,
> {
    match node {
        CpuNode::Governor(id) => match policy_of(model, id) {
            None => Err(missing()),
            Some(policy) => Ok(
                policy.governor_choices.map_values(|g: Seq<char>| ValueView::Governor(g)),
            ),
        },
        CpuNode::EnergyPreference(id) => match policy_of(model, id) {
            None => Err(missing()),
            Some(policy) => Ok(
                policy.epp_choices.map_values(
                    |p: EnergyPreference| ValueView::EnergyPreference(p),
                ),
            ),
        },
        CpuNode::Frequency(_) => Ok(Seq::empty()),
        CpuNode::Boost(_) => Ok(
            seq![
                ValueView::CpuBoost(CpuBoostState::Enabled),
                ValueView::CpuBoost(CpuBoostState::Disabled),
            ],
        ),
        CpuNode::PlatformProfile => match model.profile {
            None => Err(missing()),
            Some(profile) => Ok(
                profile.choices.map_values(|p: Seq<char>| ValueView::PlatformProfile(p)),
            ),
        },
    }
}

/// Why a policy does not take limits, if it does not.
pub open spec fn range_objection(
    policy: PolicyModel,
    min_khz: Option<FrequencyKHz>,
    max_khz: Option<FrequencyKHz>,
) -> Option<ErrorView> {
    let min = cpu_node::or_current(min_khz, policy.min_khz).value;
    let max = cpu_node::or_current(max_khz, policy.max_khz).value;
    if min_khz is Some && max_khz is Some && min > max {
        Some(cpu_node::target_fault("CPU fixture minimum exceeds maximum"@))
    } else if min > max {
        Some(cpu_node::target_fault("CPU fixture frequency range is invalid"@))
    } else if min < policy.hardware_min.value || min > policy.hardware_max.value || max
        < policy.hardware_min.value || max > policy.hardware_max.value {
        Some(cpu_node::target_fault("CPU fixture frequency is outside hardware bounds"@))
    } else {
        None
    }
}

/// Why a control of the host does not take a value, if it does not.
pub open spec fn fixture_objection(model: CpuModel, node: CpuNode, desired: ValueView) -> Option<
    ErrorView,
> {
    match node {
        CpuNode::Frequency(id) => match desired {
            ValueView::CpuFrequency { min_khz, max_khz } => match policy_of(model, id) {
                None => Some(missing()),
                Some(policy) => range_objection(policy, min_khz, max_khz),
            },
            _ => Some(cpu_node::target_fault("CPU fixture frequency value is not typed"@)),
        },
        _ => match fixture_choices(model, node) {
            Err(e) => Some(e),
            Ok(choices) => if choices.contains(desired) {
                None
            } else {
                Some(cpu_node::unsupported_fault("CPU fixture desired value is not advertised"@))
            },
        },
    }
}

/// The host with another policy in the place of one with the same number.
pub open spec fn replaced(model: CpuModel, policy: PolicyModel) -> CpuModel {
    CpuModel {
        policies: model.policies.update(position(model.policies, policy.id), policy),
        ..model
    }
}

pub open spec fn untyped(message: Seq<char>) -> Option<ErrorView> {
    Some(cpu_node::target_fault(message))
}

/// What the host holds after a write that is not made to fail, and why it failed
/// if it did.
pub open spec fn stored(model: CpuModel, node: CpuNode, desired: ValueView) -> (
    CpuModel,
    Option<ErrorView>,
) {
    match node {
        CpuNode::Governor(id) => match desired {
            ValueView::Governor(governor) => match policy_of(model, id) {
                None => (model, Some(missing())),
                Some(policy) => (replaced(model, PolicyModel { governor, ..policy }), None),
            },
            _ => (model, untyped("CPU fixture governor value is not typed"@)),
        },
        CpuNode::EnergyPreference(id) => match desired {
            ValueView::EnergyPreference(epp) => match policy_of(model, id) {
                None => (model, Some(missing())),
                Some(policy) => (replaced(model, PolicyModel { epp, ..policy }), None),
            },
            _ => (model, untyped("CPU fixture EPP value is not typed"@)),
        },
        CpuNode::Frequency(id) => match desired {
            ValueView::CpuFrequency { min_khz, max_khz } => match policy_of(model, id) {
                None => (model, Some(missing())),
                Some(policy) => (
                    replaced(
                        model,
                        PolicyModel {
                            min_khz: cpu_node::or_current(min_khz, policy.min_khz),
                            max_khz: cpu_node::or_current(max_khz, policy.max_khz),
                            ..policy
                        },
                    ),
                    None,
                ),
            },
            _ => (model, untyped("CPU fixture frequency value is not typed"@)),
        },
        CpuNode::Boost(_) => match desired {
            ValueView::CpuBoost(state) => match model.boost {
                None => (model, Some(missing())),
                Some(boost) => (
                    CpuModel { boost: Some(FixtureBoost { state, ..boost }), ..model },
                    None,
                ),
            },
            _ => (model, untyped("CPU fixture boost value is not typed"@)),
        },
        CpuNode::PlatformProfile => match desired {
            ValueView::PlatformProfile(profile) => match model.profile {
                None => (model, Some(missing())),
                Some(old) => (
                    CpuModel { profile: Some(ProfileModel { profile, ..old }), ..model },
                    None,
                ),
            },
            _ => (model, untyped("CPU fixture profile value is not typed"@)),
        },
    }
}

pub open spec fn write_failed() -> ErrorView {
    crate::error::error_view(ErrorCode::ApplyError, "CPU fixture write failed"@)
}

/// What the host holds after a write, and why it failed if it did. A write that
/// was made to fail changes nothing, and the next one is not made to fail.
pub open spec fn fixture_write(model: CpuModel, node: CpuNode, desired: ValueView) -> (
    CpuModel,
    Option<ErrorView>,
) {
    if model.failing.contains(node) {
        (CpuModel { failing: model.failing.remove(node), ..model }, Some(write_failed()))
    } else {
        stored(model, node, desired)
    }
}

/// Whether two controls are one: the boost is one whatever file is named.
pub open spec fn same_control(a: CpuNode, b: CpuNode) -> bool {
    a == b || (a is Boost && b is Boost)
}

/// Reading a control gives back what was written to it, and what every other
/// control holds stays as it was.
pub proof fn writes_change_one_control(
    model: CpuModel,
    node: CpuNode,
    desired: ValueView,
    other: CpuNode,
)
    requires
        fixture_write(model, node, desired).1 is None,
        !same_control(node, other),
    ensures
        fixture_node(fixture_write(model, node, desired).0, other) == fixture_node(model, other),
        fixture_node(fixture_write(model, node, desired).0, node) matches Ok(state) ==> match desired {
            ValueView::CpuFrequency { min_khz, max_khz } => {
                &&& state.typed is CpuFrequency
                &&& min_khz is Some ==> state.typed->min_khz == min_khz
                &&& max_khz is Some ==> state.typed->max_khz == max_khz
            },
            _ => state.typed == desired,
        },
{
    let after = fixture_write(model, node, desired).0;
    lemma_written_policy(model, node, desired);
    lemma_position(model.policies, control_policy(node));
    lemma_position(model.policies, control_policy(other));
    assert(position(after.policies, control_policy(node)) == position(
        model.policies,
        control_policy(node),
    ));
    assert(position(after.policies, control_policy(other)) == position(
        model.policies,
        control_policy(other),
    ));
}

/// The policy of a control that has one.
spec fn control_policy(node: CpuNode) -> CpuPolicyId {
    match node {
        CpuNode::Governor(id) => id,
        CpuNode::EnergyPreference(id) => id,
        CpuNode::Frequency(id) => id,
        _ => arbitrary(),
    }
}

proof fn lemma_written_policy(model: CpuModel, node: CpuNode, desired: ValueView)
    requires
        fixture_write(model, node, desired).1 is None,
    ensures
        ({
            let after = fixture_write(model, node, desired).0;
            &&& forall|id: CpuPolicyId| #[trigger]
                position(after.policies, id) == position(model.policies, id)
            &&& forall|id: CpuPolicyId|
                #![trigger policy_of(after, id)]
                node != CpuNode::Governor(id) && node != CpuNode::EnergyPreference(id) && node
                    != CpuNode::Frequency(id) ==> policy_of(after, id) == policy_of(model, id)
        }),
{
    let after = fixture_write(model, node, desired).0;
    let id = control_policy(node);
    lemma_position(model.policies, id);
    assert forall|k: CpuPolicyId| #[trigger] position(after.policies, k) == position(
        model.policies,
        k,
    ) by {
        let i = position(model.policies, id);
        if after.policies != model.policies {
            lemma_position_kept(model.policies, i, after.policies[i], k);
        }
        lemma_position(model.policies, k);
    }
    assert forall|k: CpuPolicyId| #![trigger policy_of(after, k)]
        node != CpuNode::Governor(k) && node != CpuNode::EnergyPreference(k) && node
            != CpuNode::Frequency(k) implies policy_of(after, k) == policy_of(model, k) by {
        lemma_position(model.policies, k);
        assert(position(after.policies, k) == position(model.policies, k));
    }
}

/// A change that was applied can be restored, and leaves the host as it was.
pub proof fn restoring_undoes_applying(
    model: CpuModel,
    mutation: MutationView,
    snapshot: SnapshotView,
    now: crate::clock::Timestamp,
)
    requires
        cpu::snapshot_spec::<CpuFixture>(model, mutation, now) == Ok::<SnapshotView, ErrorView>(
            snapshot,
        ),
        cpu::apply_spec::<CpuFixture>(model, mutation, snapshot).1 is Ok,
    ensures
        ({
            let (applied, receipt) = cpu::apply_spec::<CpuFixture>(model, mutation, snapshot);
            let (restored, answer) = cpu::restore_spec::<CpuFixture>(
                applied,
                mutation,
                snapshot,
                receipt->Ok_0.ownership_fingerprint,
            );
            &&& answer is Ok
            &&& restored == model
        }),
{
    let node = cpu::node_for(mutation.kind)->0;
    let current = fixture_node(model, node)->Ok_0;
    let place = cpu::resolved(node, current);
    let (applied, receipt) = cpu::apply_spec::<CpuFixture>(model, mutation, snapshot);
    lemma_written_policy(model, place, mutation.desired);
    let (restored, answer) = cpu::restore_spec::<CpuFixture>(
        applied,
        mutation,
        snapshot,
        receipt->Ok_0.ownership_fingerprint,
    );
    lemma_position(model.policies, control_policy(node));
    assert(position(applied.policies, control_policy(node)) == position(
        model.policies,
        control_policy(node),
    ));
    let again = cpu::resolved(node, fixture_node(applied, node)->Ok_0);
    assert(again == place);
    assert(fixture_write(applied, again, snapshot.original_typed).1 is None);
    lemma_written_policy(applied, again, snapshot.original_typed);
    assert(position(restored.policies, control_policy(node)) == position(
        applied.policies,
        control_policy(node),
    ));
    assert(fixture_node(restored, node) == fixture_node(model, node));
    assert(restored.policies =~= model.policies);
    assert(restored =~= model);
}

/// Applying what a control holds already changes nothing.
pub proof fn applying_what_is_there_changes_nothing(
    model: CpuModel,
    mutation: MutationView,
    snapshot: SnapshotView,
)
    requires
        cpu::apply_spec::<CpuFixture>(model, mutation, snapshot).1 is Ok,
        ({
            let held = fixture_node(model, cpu::node_for(mutation.kind)->0)->Ok_0.typed;
            cpu::effective(mutation, held) == Ok::<ValueView, ErrorView>(held)
        }),
    ensures
        cpu::apply_spec::<CpuFixture>(model, mutation, snapshot).0 == model,
{
    let node = cpu::node_for(mutation.kind)->0;
    let place = cpu::resolved(node, fixture_node(model, node)->Ok_0);
    let after = cpu::apply_spec::<CpuFixture>(model, mutation, snapshot).0;
    lemma_written_policy(model, place, mutation.desired);
    lemma_position(model.policies, control_policy(node));
    assert(after.policies =~= model.policies);
    assert(after =~= model);
}

/// Whether snapshots were taken of a host for mutations.
pub open spec fn captured(
    model: CpuModel,
    mutations: Seq<MutationView>,
    snapshots: Seq<SnapshotView>,
    now: crate::clock::Timestamp,
) -> bool {
    &&& mutations.len() == snapshots.len()
    &&& forall|i: int|
        0 <= i < mutations.len() ==> cpu::snapshot_spec::<CpuFixture>(
            model,
            #[trigger] mutations[i],
            now,
        ) == Ok::<SnapshotView, ErrorView>(snapshots[i])
}

/// Whether mutations are about different controls.
pub open spec fn about_different_controls(mutations: Seq<MutationView>) -> bool {
    forall|i: int, j: int|
        0 <= i < j < mutations.len() ==> !same_control(
            cpu::node_for((#[trigger] mutations[i]).kind)->0,
            cpu::node_for((#[trigger] mutations[j]).kind)->0,
        )
}

/// What applying mutations in turn leaves, and what the session left in each
/// target, if all are applied.
pub open spec fn all_applied(
    model: CpuModel,
    mutations: Seq<MutationView>,
    snapshots: Seq<SnapshotView>,
) -> Option<(CpuModel, Seq<StateFingerprint>)>
    decreases mutations.len(),
{
    if mutations.len() == 0 {
        Some((model, Seq::empty()))
    } else {
        match all_applied(model, mutations.drop_last(), snapshots.drop_last()) {
            None => None,
            Some((between, owned)) => match cpu::apply_spec::<CpuFixture>(
                between,
                mutations.last(),
                snapshots.last(),
            ) {
                (after, Ok(receipt)) => Some((after, owned.push(receipt.ownership_fingerprint))),
                _ => None,
            },
        }
    }
}

/// What restoring mutations leaves, the last first, if all are restored.
pub open spec fn all_restored(
    model: CpuModel,
    mutations: Seq<MutationView>,
    snapshots: Seq<SnapshotView>,
    owned: Seq<StateFingerprint>,
) -> Option<CpuModel>
    decreases mutations.len(),
{
    if mutations.len() == 0 {
        Some(model)
    } else {
        match cpu::restore_spec::<CpuFixture>(
            model,
            mutations.last(),
            snapshots.last(),
            owned.last(),
        ) {
            (between, Ok(_)) => all_restored(
                between,
                mutations.drop_last(),
                snapshots.drop_last(),
                owned.drop_last(),
            ),
            _ => None,
        }
    }
}

/// Applying mutations changes no other control.
proof fn lemma_others_kept(
    model: CpuModel,
    mutations: Seq<MutationView>,
    snapshots: Seq<SnapshotView>,
    other: CpuNode,
)
    requires
        mutations.len() == snapshots.len(),
        all_applied(model, mutations, snapshots) is Some,
        forall|i: int|
            0 <= i < mutations.len() ==> !same_control(
                cpu::node_for((#[trigger] mutations[i]).kind)->0,
                other,
            ),
    ensures
        ({
            let (after, owned) = all_applied(model, mutations, snapshots)->0;
            &&& fixture_node(after, other) == fixture_node(model, other)
            &&& owned.len() == mutations.len()
        }),
    decreases mutations.len(),
{
    if mutations.len() > 0 {
        let first = mutations.drop_last();
        assert forall|i: int| 0 <= i < first.len() implies !same_control(
            cpu::node_for((#[trigger] first[i]).kind)->0,
            other,
        ) by {
            assert(mutations[i] == first[i]);
        }
        lemma_others_kept(model, first, snapshots.drop_last(), other);
        let (between, _) = all_applied(model, first, snapshots.drop_last())->0;
        let last = mutations.last();
        assert(mutations[mutations.len() - 1] == last);
        let node = cpu::node_for(last.kind)->0;
        let place = cpu::resolved(node, fixture_node(between, node)->Ok_0);
        writes_change_one_control(between, place, last.desired, other);
    }
}

/// A session leaves the host exactly as it was: where all its changes were
/// applied, all can be restored, the last first, and the host then holds what it
/// held before the session.
pub proof fn sessions_restore_the_host(
    model: CpuModel,
    mutations: Seq<MutationView>,
    snapshots: Seq<SnapshotView>,
    now: crate::clock::Timestamp,
)
    requires
        captured(model, mutations, snapshots, now),
        about_different_controls(mutations),
        all_applied(model, mutations, snapshots) is Some,
    ensures
        ({
            let (after, owned) = all_applied(model, mutations, snapshots)->0;
            all_restored(after, mutations, snapshots, owned) == Some(model)
        }),
    decreases mutations.len(),
{
    if mutations.len() > 0 {
        let first = mutations.drop_last();
        let before = snapshots.drop_last();
        let last = mutations.last();
        assert(mutations[mutations.len() - 1] == last);
        assert forall|i: int| 0 <= i < first.len() implies cpu::snapshot_spec::<CpuFixture>(
            model,
            #[trigger] first[i],
            now,
        ) == Ok::<SnapshotView, ErrorView>(before[i]) by {
            assert(mutations[i] == first[i]);
        }
        assert(about_different_controls(first)) by {
            assert forall|i: int, j: int| 0 <= i < j < first.len() implies !same_control(
                cpu::node_for((#[trigger] first[i]).kind)->0,
                cpu::node_for((#[trigger] first[j]).kind)->0,
            ) by {
                assert(mutations[i] == first[i] && mutations[j] == first[j]);
            }
        }
        sessions_restore_the_host(model, first, before, now);
        let node = cpu::node_for(last.kind)->0;
        assert forall|i: int| 0 <= i < first.len() implies !same_control(
            cpu::node_for((#[trigger] first[i]).kind)->0,
            node,
        ) by {
            assert(mutations[i] == first[i]);
        }
        lemma_others_kept(model, first, before, node);
        let (between, owned) = all_applied(model, first, before)->0;
        assert(cpu::snapshot_spec::<CpuFixture>(between, last, now) == Ok::<
            SnapshotView,
            ErrorView,
        >(snapshots.last()));
        restoring_undoes_applying(between, last, snapshots.last(), now);
        let (_, all_owned) = all_applied(model, mutations, snapshots)->0;
        assert(all_owned.drop_last() =~= owned);
    }
}

fn clone_governors(governors: &Vec<GovernorId>) -> (r: Vec<TypedValue>)
    ensures
        cpu_node::values_view(r@) == governor_names(governors@).map_values(
            |g: Seq<char>| ValueView::Governor(g),
        ),
{
    let mut r: Vec<TypedValue> = Vec::new();
    let mut i: usize = 0;
    while i < governors.len()
        invariant
            i <= governors@.len(),
            r@.len() == i,
            forall|j: int| 0 <= j < i ==> (#[trigger] r@[j])@ == ValueView::Governor(governors@[j]@),
        decreases governors@.len() - i,
    {
        r.push(TypedValue::Governor(governors[i].clone()));
        i = i + 1;
    }
    assert(cpu_node::values_view(r@) =~= governor_names(governors@).map_values(
        |g: Seq<char>| ValueView::Governor(g),
    ));
    r
}

fn clone_preferences(preferences: &Vec<EnergyPreference>) -> (r: Vec<TypedValue>)
    ensures
        cpu_node::values_view(r@) == preferences@.map_values(
            |p: EnergyPreference| ValueView::EnergyPreference(p),
        ),
{
    let mut r: Vec<TypedValue> = Vec::new();
    let mut i: usize = 0;
    while i < preferences.len()
        invariant
            i <= preferences@.len(),
            r@.len() == i,
            forall|j: int|
                0 <= j < i ==> (#[trigger] r@[j])@ == ValueView::EnergyPreference(preferences@[j]),
        decreases preferences@.len() - i,
    {
        r.push(TypedValue::EnergyPreference(preferences[i]));
        i = i + 1;
    }
    assert(cpu_node::values_view(r@) =~= preferences@.map_values(
        |p: EnergyPreference| ValueView::EnergyPreference(p),
    ));
    r
}

fn clone_profiles(profiles: &Vec<PlatformProfileId>) -> (r: Vec<TypedValue>)
    ensures
        cpu_node::values_view(r@) == profile_names(profiles@).map_values(
            |p: Seq<char>| ValueView::PlatformProfile(p),
        ),
{
    let mut r: Vec<TypedValue> = Vec::new();
    let mut i: usize = 0;
    while i < profiles.len()
        invariant
            i <= profiles@.len(),
            r@.len() == i,
            forall|j: int|
                0 <= j < i ==> (#[trigger] r@[j])@ == ValueView::PlatformProfile(profiles@[j]@),
        decreases profiles@.len() - i,
    {
        r.push(TypedValue::PlatformProfile(profiles[i].clone()));
        i = i + 1;
    }
    assert(cpu_node::values_view(r@) =~= profile_names(profiles@).map_values(
        |p: Seq<char>| ValueView::PlatformProfile(p),
    ));
    r
}

impl CpuFixture {
    /// A host without any control.
    pub fn new() -> (r: CpuFixture)
        ensures
            r@ == (CpuModel {
                policies: Seq::empty(),
                boost: None,
                profile: None,
                failing: Set::empty(),
            }),
    {
        let r = CpuFixture {
            policies: Vec::new(),
            boost: None,
            platform_profile: None,
            fail_writes: Vec::new(),
        };
        assert(r@.policies =~= Seq::empty());
        assert(r@.failing =~= Set::empty());
        r
    }

    fn find(&self, id: CpuPolicyId) -> (r: Option<usize>)
        ensures
            match r {
                Some(i) => i == position(self@.policies, id) && i < self.policies@.len(),
                None => position(self@.policies, id) == -1,
            },
    {
        let ghost all = self@.policies;
        let mut i: usize = self.policies.len();
        assert(all.take(i as int) =~= all);
        while i > 0
            invariant
                i <= self.policies@.len(),
                all == policies_view(self.policies@),
                all.len() == self.policies@.len(),
                position(all, id) == position(all.take(i as int), id),
            decreases i,
        {
            proof {
                assert(all.take(i as int).last() == all[i - 1]);
                assert(all[i - 1] == self.policies@[i - 1]@);
                assert(all.take(i as int).drop_last() =~= all.take(i - 1));
            }
            if self.policies[i - 1].id == id {
                return Some(i - 1);
            }
            i = i - 1;
        }
        None
    }

    /// Adds a policy, or puts it in the place of one with the same number.
    pub fn add_policy(
        &mut self,
        policy: CpuPolicyId,
        identity: TargetIdentity,
        governor: GovernorId,
        governor_choices: Vec<GovernorId>,
        epp: EnergyPreference,
        epp_choices: Vec<EnergyPreference>,
        min_khz: FrequencyKHz,
        max_khz: FrequencyKHz,
        hardware_min: FrequencyKHz,
        hardware_max: FrequencyKHz,
    )
        ensures
            final(self)@ == (CpuModel {
                policies: with_policy(
                    old(self)@.policies,
                    PolicyModel {
                        id: policy,
                        identity,
                        governor: governor@,
                        governor_choices: governor_names(governor_choices@),
                        epp,
                        epp_choices: epp_choices@,
                        min_khz,
                        max_khz,
                        hardware_min,
                        hardware_max,
                    },
                ),
                ..old(self)@
            }),
    {
        let added = FixturePolicy {
            id: policy,
            identity,
            governor,
            governor_choices,
            epp,
            epp_choices,
            min_khz,
            max_khz,
            hardware_min,
            hardware_max,
        };
        let ghost new = added@;
        let ghost all = self@.policies;
        let ghost before = self@;
        let mut at: usize = self.policies.len();
        let mut same = false;
        proof {
            assert(all.take(all.len() as int) =~= all);
            assert(with_policy(all, new) =~= with_policy(all.take(all.len() as int), new)
                + all.skip(all.len() as int));
        }
        while at > 0
            invariant_except_break
                !same,
                with_policy(all, new) == with_policy(all.take(at as int), new) + all.skip(
                    at as int,
                ),
            invariant
                at <= self.policies@.len(),
                all == policies_view(self.policies@),
                all.len() == self.policies@.len(),
                new == added@,
                self@ == before,
            ensures
                same ==> at > 0 && with_policy(all, new) == all.take(at - 1).push(new) + all.skip(
                    at as int,
                ),
                !same ==> with_policy(all, new) == all.take(at as int).push(new) + all.skip(
                    at as int,
                ),
            decreases at,
        {
            let ghost head = all.take(at as int);
            proof {
                assert(head.last() == all[at - 1]);
                assert(all[at - 1] == self.policies@[at - 1]@);
                assert(head.drop_last() =~= all.take(at - 1));
            }
            if self.policies[at - 1].id.value < added.id.value {
                break;
            }
            if self.policies[at - 1].id == added.id {
                same = true;
                break;
            }
            proof {
                assert(with_policy(all.take(at - 1), new).push(all[at - 1]) + all.skip(at as int)
                    =~= with_policy(all.take(at - 1), new) + all.skip(at - 1));
            }
            at = at - 1;
        }
        if same {
            self.policies.remove(at - 1);
            self.policies.insert(at - 1, added);
            assert(policies_view(self.policies@) =~= all.take(at - 1).push(new) + all.skip(
                at as int,
            ));
        } else {
            self.policies.insert(at, added);
            assert(policies_view(self.policies@) =~= all.take(at as int).push(new) + all.skip(
                at as int,
            ));
        }
    }

    /// Gives the host a boost.
    pub fn set_boost(
        &mut self,
        identity: TargetIdentity,
        interface: CpuBoostInterface,
        state: CpuBoostState,
    )
        ensures
            final(self)@ == (CpuModel {
                boost: Some(FixtureBoost { identity, interface, state }),
                ..old(self)@
            }),
    {
        self.boost = Some(FixtureBoost { identity, interface, state });
    }

    /// Gives the host a platform profile.
    pub fn set_platform_profile(
        &mut self,
        identity: TargetIdentity,
        profile: PlatformProfileId,
        choices: Vec<PlatformProfileId>,
    )
        ensures
            final(self)@ == (CpuModel {
                profile: Some(
                    ProfileModel {
                        identity,
                        profile: profile@,
                        choices: profile_names(choices@),
                    },
                ),
                ..old(self)@
            }),
    {
        self.platform_profile = Some(FixtureProfile { identity, profile, choices });
    }

    /// Makes the next write of a control fail.
    pub fn fail_writes_for(&mut self, node: CpuNode)
        ensures
            final(self)@ == (CpuModel { failing: old(self)@.failing.insert(node), ..old(self)@ }),
    {
        let ghost before = self.fail_writes@;
        self.fail_writes.push(node);
        proof {
            assert forall|n: CpuNode| #[trigger] nodes_set(self.fail_writes@).contains(n)
                == nodes_set(before).insert(node).contains(n) by {
                if before.contains(n) {
                    let k = before.index_of(n);
                    assert(self.fail_writes@[k] == n);
                }
                if n == node {
                    assert(self.fail_writes@[before.len() as int] == n);
                }
            }
            assert(nodes_set(self.fail_writes@) =~= nodes_set(before).insert(node));
        }
    }

    /// Makes a policy another object.
    pub fn replace_policy_identity(&mut self, policy: CpuPolicyId, identity: TargetIdentity)
        ensures
            final(self)@ == match policy_of(old(self)@, policy) {
                Some(found) => replaced(old(self)@, PolicyModel { identity, ..found }),
                None => old(self)@,
            },
    {
        let ghost all = self@.policies;
        proof {
            lemma_position(all, policy);
        }
        if let Some(i) = self.find(policy) {
            let ghost found = all[i as int];
            self.policies[i].identity = identity;
            assert(policies_view(self.policies@) =~= all.update(
                i as int,
                PolicyModel { identity, ..found },
            ));
        }
    }

    /// Takes a policy away.
    pub fn remove_policy(&mut self, policy: CpuPolicyId)
        ensures
            final(self)@ == match policy_of(old(self)@, policy) {
                Some(_) => (CpuModel {
                    policies: old(self)@.policies.remove(position(old(self)@.policies, policy)),
                    ..old(self)@
                }),
                None => old(self)@,
            },
    {
        let ghost all = self@.policies;
        if let Some(i) = self.find(policy) {
            self.policies.remove(i);
            assert(policies_view(self.policies@) =~= all.remove(i as int));
        }
    }

    /// Reads a control.
    pub fn read(&self, node: CpuNode) -> (r: Result<CpuNodeState, SysboostError>)
        ensures
            crate::error::viewed(r) == fixture_node(self@, node),
    {
        match node {
            CpuNode::Governor(id) => match self.find(id) {
                Some(i) => {
                    let policy = &self.policies[i];
                    assert(self@.policies[i as int] == policy@);
                    CpuNodeState::observe(
                        TypedValue::Governor(policy.governor.clone()),
                        text::bytes_of(policy.governor.as_str()),
                        policy.identity,
                        None,
                    )
                },
                None => Err(fixture_missing()),
            },
            CpuNode::EnergyPreference(id) => match self.find(id) {
                Some(i) => {
                    let policy = &self.policies[i];
                    assert(self@.policies[i as int] == policy@);
                    CpuNodeState::observe(
                        TypedValue::EnergyPreference(policy.epp),
                        text::bytes_of(cpu_node::render_energy(policy.epp)),
                        policy.identity,
                        None,
                    )
                },
                None => Err(fixture_missing()),
            },
            CpuNode::Frequency(id) => match self.find(id) {
                Some(i) => {
                    let policy = &self.policies[i];
                    assert(self@.policies[i as int] == policy@);
                    let range = render_range(policy.min_khz, policy.max_khz);
                    CpuNodeState::observe(
                        TypedValue::CpuFrequency {
                            min_khz: Some(policy.min_khz),
                            max_khz: Some(policy.max_khz),
                        },
                        text::bytes_of(range.as_str()),
                        policy.identity,
                        None,
                    )
                },
                None => Err(fixture_missing()),
            },
            CpuNode::Boost(_) => match &self.boost {
                Some(boost) => CpuNodeState::observe(
                    TypedValue::CpuBoost(boost.state),
                    text::bytes_of(cpu_node::boost_text(boost.interface, boost.state)),
                    boost.identity,
                    Some(boost.interface),
                ),
                None => Err(fixture_missing()),
            },
            CpuNode::PlatformProfile => match &self.platform_profile {
                Some(profile) => CpuNodeState::observe(
                    TypedValue::PlatformProfile(profile.profile.clone()),
                    text::bytes_of(profile.profile.as_str()),
                    profile.identity,
                    None,
                ),
                None => Err(fixture_missing()),
            },
        }
    }

    /// The policies of the host, in ascending order.
    pub fn list_policies(&self) -> (r: Result<Vec<CpuPolicyId>, SysboostError>)
        ensures
            cpu::policies_reply(r) == Ok::<Seq<CpuPolicyId>, ErrorView>(
                self@.policies.map_values(|p: PolicyModel| p.id),
            ),
    {
        let mut r: Vec<CpuPolicyId> = Vec::new();
        let mut i: usize = 0;
        while i < self.policies.len()
            invariant
                i <= self.policies@.len(),
                r@.len() == i,
                forall|j: int| 0 <= j < i ==> #[trigger] r@[j] == self.policies@[j].id,
            decreases self.policies@.len() - i,
        {
            r.push(self.policies[i].id);
            i = i + 1;
        }
        assert(r@ =~= self@.policies.map_values(|p: PolicyModel| p.id));
        Ok(r)
    }

    /// The values that a control lists.
    pub fn choices(&self, node: CpuNode) -> (r: Result<Vec<TypedValue>, SysboostError>)
        ensures
            cpu_node::choices_reply(r) == fixture_choices(self@, node),
    {
        match node {
            CpuNode::Governor(id) => match self.find(id) {
                Some(i) => {
                    assert(self@.policies[i as int] == self.policies@[i as int]@);
                    Ok(clone_governors(&self.policies[i].governor_choices))
                },
                None => Err(fixture_missing()),
            },
            CpuNode::EnergyPreference(id) => match self.find(id) {
                Some(i) => {
                    assert(self@.policies[i as int] == self.policies@[i as int]@);
                    Ok(clone_preferences(&self.policies[i].epp_choices))
                },
                None => Err(fixture_missing()),
            },
            CpuNode::Frequency(_) => {
                let r: Vec<TypedValue> = Vec::new();
                assert(cpu_node::values_view(r@) =~= Seq::empty());
                Ok(r)
            },
            CpuNode::Boost(_) => {
                let mut r: Vec<TypedValue> = Vec::new();
                r.push(TypedValue::CpuBoost(CpuBoostState::Enabled));
                r.push(TypedValue::CpuBoost(CpuBoostState::Disabled));
                assert(cpu_node::values_view(r@) =~= seq![
                    ValueView::CpuBoost(CpuBoostState::Enabled),
                    ValueView::CpuBoost(CpuBoostState::Disabled),
                ]);
                Ok(r)
            },
            CpuNode::PlatformProfile => match &self.platform_profile {
                Some(profile) => Ok(clone_profiles(&profile.choices)),
                None => Err(fixture_missing()),
            },
        }
    }

    fn take_failure(&mut self, node: CpuNode) -> (r: bool)
        ensures
            r == old(self)@.failing.contains(node),
            final(self)@ == (CpuModel { failing: old(self)@.failing.remove(node), ..old(self)@ }),
    {
        let ghost before = self.fail_writes@;
        let mut kept: Vec<CpuNode> = Vec::new();
        let mut found = false;
        let mut i: usize = 0;
        while i < self.fail_writes.len()
            invariant
                i <= self.fail_writes@.len(),
                before == self.fail_writes@,
                found == before.take(i as int).contains(node),
                forall|n: CpuNode|
                    #![trigger kept@.contains(n)]
                    kept@.contains(n) <==> (n != node && before.take(i as int).contains(n)),
            decreases self.fail_writes@.len() - i,
        {
            let next = self.fail_writes[i];
            let ghost earlier = kept@;
            let ghost head = before.take(i as int);
            let ghost longer = before.take(i + 1);
            if next == node {
                found = true;
            } else {
                kept.push(next);
            }
            proof {
                assert(longer =~= head.push(next));
                assert forall|n: CpuNode| longer.contains(n) <==> (head.contains(n) || n == next) by {
                    if head.contains(n) {
                        assert(longer[head.index_of(n)] == n);
                    }
                    if n == next {
                        assert(longer[i as int] == n);
                    }
                }
                assert forall|n: CpuNode|
                    #![trigger kept@.contains(n)]
                    kept@.contains(n) <==> (n != node && longer.contains(n)) by {
                    if next != node {
                        if earlier.contains(n) {
                            assert(kept@[earlier.index_of(n)] == n);
                        }
                        if n == next {
                            assert(kept@[earlier.len() as int] == n);
                        }
                    }
                    assert(earlier.contains(n) <==> (n != node && head.contains(n)));
                }
            }
            i = i + 1;
        }
        proof {
            assert(before.take(i as int) =~= before);
        }
        self.fail_writes = kept;
        proof {
            assert forall|n: CpuNode| #[trigger]
                nodes_set(self.fail_writes@).contains(n) == nodes_set(before).remove(
                    node,
                ).contains(n) by {
                assert(kept@.contains(n) <==> (n != node && before.contains(n)));
            }
            assert(nodes_set(self.fail_writes@) =~= nodes_set(before).remove(node));
        }
        found
    }
}

impl Default for CpuFixture {
    fn default() -> (r: CpuFixture)
        ensures
            r@ == (CpuModel {
                policies: Seq::empty(),
                boost: None,
                profile: None,
                failing: Set::empty(),
            }),
    {
        CpuFixture::new()
    }
}

impl CpuControlIo for CpuFixture {
    type Model = CpuModel;

    open spec fn shown(&self) -> Shown {
        Shown::Cpu(self.model())
    }

    open spec fn settled(&self) -> bool {
        true
    }

    open spec fn model(&self) -> CpuModel {
        self@
    }

    open spec fn policies_of(model: CpuModel) -> Result<Seq<CpuPolicyId>, ErrorView> {
        Ok(model.policies.map_values(|p: PolicyModel| p.id))
    }

    open spec fn node_of(model: CpuModel, node: CpuNode) -> Result<NodeView, ErrorView> {
        fixture_node(model, node)
    }

    open spec fn choices_of(model: CpuModel, node: CpuNode) -> Result<Seq<ValueView>, ErrorView> {
        fixture_choices(model, node)
    }

    open spec fn objection(model: CpuModel, node: CpuNode, desired: ValueView) -> Option<ErrorView> {
        fixture_objection(model, node, desired)
    }

    open spec fn after_write(model: CpuModel, node: CpuNode, desired: ValueView) -> (
        CpuModel,
        Option<ErrorView>,
    ) {
        fixture_write(model, node, desired)
    }

    fn list_policies(&self) -> (r: Result<Vec<CpuPolicyId>, SysboostError>) {
        self.list_policies()
    }

    fn read(&self, node: CpuNode) -> (r: Result<CpuNodeState, SysboostError>) {
        self.read(node)
    }

    fn choices(&self, node: CpuNode) -> (r: Result<Vec<TypedValue>, SysboostError>) {
        self.choices(node)
    }

    fn validate_desired(&self, node: CpuNode, desired: &TypedValue) -> (r: Result<
        (),
        SysboostError,
    >) {
        let id = match node {
            CpuNode::Frequency(id) => id,
            _ => {
                return match self.choices(node) {
                    Err(e) => Err(e),
                    Ok(choices) => if cpu_node::holds_value(&choices, desired) {
                        Ok(())
                    } else {
                        Err(cpu_node::unsupported("CPU fixture desired value is not advertised"))
                    },
                };
            },
        };
        let (min_khz, max_khz) = match desired {
            TypedValue::CpuFrequency { min_khz, max_khz } => (*min_khz, *max_khz),
            _ => {
                return Err(cpu_node::target_error("CPU fixture frequency value is not typed"));
            },
        };
        let policy = match self.find(id) {
            Some(i) => {
                assert(self@.policies[i as int] == self.policies@[i as int]@);
                &self.policies[i]
            },
            None => {
                return Err(fixture_missing());
            },
        };
        let min: u64 = match min_khz {
            Some(limit) => limit.value,
            None => policy.min_khz.value,
        };
        let max: u64 = match max_khz {
            Some(limit) => limit.value,
            None => policy.max_khz.value,
        };
        if min_khz.is_some() && max_khz.is_some() && min > max {
            return Err(cpu_node::target_error("CPU fixture minimum exceeds maximum"));
        }
        if min > max {
            return Err(cpu_node::target_error("CPU fixture frequency range is invalid"));
        }
        if min < policy.hardware_min.value || min > policy.hardware_max.value || max
            < policy.hardware_min.value || max > policy.hardware_max.value {
            return Err(cpu_node::target_error("CPU fixture frequency is outside hardware bounds"));
        }
        Ok(())
    }

    fn write(&mut self, node: CpuNode, desired: &TypedValue) -> (r: Result<(), SysboostError>) {
        let ghost before = self@;
        if self.take_failure(node) {
            return Err(SysboostError::new(ErrorCode::ApplyError, "CPU fixture write failed"));
        }
        proof {
            assert(before.failing.remove(node) =~= before.failing);
            assert(self@ == before);
        }
        let ghost all = self@.policies;
        match node {
            CpuNode::Governor(id) => {
                let value = match desired {
                    TypedValue::Governor(value) => value.clone(),
                    _ => {
                        return Err(
                            cpu_node::target_error("CPU fixture governor value is not typed"),
                        );
                    },
                };
                proof {
                    lemma_position(all, id);
                }
                match self.find(id) {
                    Some(i) => {
                        let ghost found = all[i as int];
                        self.policies[i].governor = value;
                        assert(policies_view(self.policies@) =~= all.update(
                            i as int,
                            PolicyModel { governor: value@, ..found },
                        ));
                        Ok(())
                    },
                    None => Err(fixture_missing()),
                }
            },
            CpuNode::EnergyPreference(id) => {
                let epp = match desired {
                    TypedValue::EnergyPreference(value) => *value,
                    _ => {
                        return Err(cpu_node::target_error("CPU fixture EPP value is not typed"));
                    },
                };
                proof {
                    lemma_position(all, id);
                }
                match self.find(id) {
                    Some(i) => {
                        let ghost found = all[i as int];
                        self.policies[i].epp = epp;
                        assert(policies_view(self.policies@) =~= all.update(
                            i as int,
                            PolicyModel { epp, ..found },
                        ));
                        Ok(())
                    },
                    None => Err(fixture_missing()),
                }
            },
            CpuNode::Frequency(id) => {
                let (min_khz, max_khz) = match desired {
                    TypedValue::CpuFrequency { min_khz, max_khz } => (*min_khz, *max_khz),
                    _ => {
                        return Err(
                            cpu_node::target_error("CPU fixture frequency value is not typed"),
                        );
                    },
                };
                proof {
                    lemma_position(all, id);
                }
                match self.find(id) {
                    Some(i) => {
                        let ghost found = all[i as int];
                        if let Some(min) = min_khz {
                            self.policies[i].min_khz = min;
                        }
                        if let Some(max) = max_khz {
                            self.policies[i].max_khz = max;
                        }
                        assert(policies_view(self.policies@) =~= all.update(
                            i as int,
                            PolicyModel {
                                min_khz: cpu_node::or_current(min_khz, found.min_khz),
                                max_khz: cpu_node::or_current(max_khz, found.max_khz),
                                ..found
                            },
                        ));
                        Ok(())
                    },
                    None => Err(fixture_missing()),
                }
            },
            CpuNode::Boost(_) => {
                let state = match desired {
                    TypedValue::CpuBoost(value) => *value,
                    _ => {
                        return Err(cpu_node::target_error("CPU fixture boost value is not typed"));
                    },
                };
                match self.boost {
                    Some(boost) => {
                        self.boost = Some(FixtureBoost { state, ..boost });
                        Ok(())
                    },
                    None => Err(fixture_missing()),
                }
            },
            CpuNode::PlatformProfile => {
                let profile = match desired {
                    TypedValue::PlatformProfile(value) => value.clone(),
                    _ => {
                        return Err(
                            cpu_node::target_error("CPU fixture profile value is not typed"),
                        );
                    },
                };
                match self.platform_profile.take() {
                    Some(old) => {
                        self.platform_profile = Some(
                            FixtureProfile {
                                identity: old.identity,
                                profile,
                                choices: old.choices,
                            },
                        );
                        Ok(())
                    },
                    None => Err(fixture_missing()),
                }
            },
        }
    }
}

impl CpuBackend<CpuFixture> {
    /// A backend over a host in memory.
    pub fn from_fixture(fixture: CpuFixture) -> (r: CpuBackend<CpuFixture>)
        ensures
            r.host() == fixture,
            crate::backend::MutationBackend::described(&r) == cpu::cpu_described(),
    {
        CpuBackend::new(fixture)
    }

    /// The host in memory, to be changed behind the back of the backend.
    pub fn fixture_mut(&mut self) -> (r: &mut CpuFixture)
        ensures
            *r == old(self).host(),
            final(self).host() == *final(r),
    {
        self.io_mut()
    }
}

} // verus!
