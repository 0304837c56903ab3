//! What a host says about its CPUs: frequency policies, topology, NUMA nodes.

use vstd::prelude::*;

use crate::capability::{EvidenceSource, FeatureClass};
use crate::facts;
use crate::facts::{
    CpuFreqFacts, CpuFreqPolicyFacts, CpuFreqPolicyView, CpuFreqView, CpuTopologyEntry,
    CpuTopologyEntryView, CpuTopologyFacts, CpuTopologyView, NumaFacts, NumaNodeFacts, NumaNodeView,
    NumaView,
};
use crate::filesystem::{DirectoryEntry, EntryKind, ReadOnlyFileSystem};
use crate::matrix;
use crate::probe;
use crate::probe::{
    Attribute, CapabilityFinding, DiscoveryStatus, FindingView, Probe,
};
use crate::text;

verus! {

/// What was read of a frequency policy.
#[derive(Debug)]
pub struct PolicyProbes {
    pub related: Probe<String>,
    pub driver: Probe<String>,
    pub governors: Probe<String>,
    pub governor: Probe<String>,
    pub preference: Probe<String>,
    pub preferences: Probe<String>,
    pub min: Probe<u64>,
    pub max: Probe<u64>,
    pub current: Probe<u64>,
}

/// What was read of a frequency policy, as plain values.
#[verifier::ext_equal]
pub struct PolicyView {
    pub related: Probe<Seq<char>>,
    pub driver: Probe<Seq<char>>,
    pub governors: Probe<Seq<char>>,
    pub governor: Probe<Seq<char>>,
    pub preference: Probe<Seq<char>>,
    pub preferences: Probe<Seq<char>>,
    pub min: Probe<nat>,
    pub max: Probe<nat>,
    pub current: Probe<nat>,
}

impl View for PolicyProbes {
    type V = PolicyView;

    open spec fn view(&self) -> PolicyView {
        PolicyView {
            related: probe::probe_text(self.related),
            driver: probe::probe_text(self.driver),
            governors: probe::probe_text(self.governors),
            governor: probe::probe_text(self.governor),
            preference: probe::probe_text(self.preference),
            preferences: probe::probe_text(self.preferences),
            min: probe::probe_u64(self.min),
            max: probe::probe_u64(self.max),
            current: probe::probe_u64(self.current),
        }
    }
}

/// The directory of a policy.
pub open spec fn policy_path(id: u32) -> Seq<char> {
    "devices/system/cpu/cpufreq/policy"@ + text::decimal_spec(id as nat)
}

/// A number at a path.
pub open spec fn number_at<F: ReadOnlyFileSystem>(tree: &F, path: Seq<char>) -> Probe<nat> {
    probe::number_found(probe::text_at(tree, path), u64::MAX as nat)
}

/// What a host says about a policy.
pub open spec fn policy_at<F: ReadOnlyFileSystem>(tree: &F, id: u32) -> PolicyView {
    let prefix = policy_path(id);
    PolicyView {
        related: probe::text_at(tree, prefix + "/related_cpus"@),
        driver: probe::text_at(tree, prefix + "/scaling_driver"@),
        governors: probe::text_at(tree, prefix + "/scaling_available_governors"@),
        governor: probe::text_at(tree, prefix + "/scaling_governor"@),
        preference: probe::text_at(tree, prefix + "/energy_performance_preference"@),
        preferences: probe::text_at(tree, prefix + "/energy_performance_available_preferences"@),
        min: number_at(tree, prefix + "/scaling_min_freq"@),
        max: number_at(tree, prefix + "/scaling_max_freq"@),
        current: number_at(tree, prefix + "/scaling_cur_freq"@),
    }
}

/// Whether reading a policy finds this: every file is read once.
pub open spec fn reads_policy<F: ReadOnlyFileSystem>(tree: &F, id: u32, seen: PolicyView) -> bool {
    let prefix = policy_path(id);
    &&& probe::reads_text(tree, prefix + "/related_cpus"@, seen.related)
    &&& probe::reads_text(tree, prefix + "/scaling_driver"@, seen.driver)
    &&& probe::reads_text(tree, prefix + "/scaling_available_governors"@, seen.governors)
    &&& probe::reads_text(tree, prefix + "/scaling_governor"@, seen.governor)
    &&& probe::reads_text(tree, prefix + "/energy_performance_preference"@, seen.preference)
    &&& probe::reads_text(
        tree,
        prefix + "/energy_performance_available_preferences"@,
        seen.preferences,
    )
    &&& probe::reads_number(tree, prefix + "/scaling_min_freq"@, u64::MAX as nat, seen.min)
    &&& probe::reads_number(tree, prefix + "/scaling_max_freq"@, u64::MAX as nat, seen.max)
    &&& probe::reads_number(tree, prefix + "/scaling_cur_freq"@, u64::MAX as nat, seen.current)
}

/// Reads the text at a path that is made of two parts.
pub(crate) fn read_below<F: ReadOnlyFileSystem>(tree: &F, prefix: &str, rest: &str) -> (r: Probe<String>)
    ensures
        probe::reads_text(tree, prefix@ + rest@, probe::probe_text(r)),
        tree.settled() ==> probe::probe_text(r) == probe::text_at(tree, prefix@ + rest@),
{
    let path = text::join(prefix, rest);
    probe::read_text(tree, path.as_str())
}

fn read_number<F: ReadOnlyFileSystem>(tree: &F, prefix: &str, rest: &str) -> (r: Probe<u64>)
    ensures
        probe::reads_number(tree, prefix@ + rest@, u64::MAX as nat, probe::probe_u64(r)),
        tree.settled() ==> probe::probe_u64(r) == number_at(tree, prefix@ + rest@),
{
    probe::parse_u64(read_below(tree, prefix, rest))
}

/// Reads a policy.
pub fn read_policy<F: ReadOnlyFileSystem>(tree: &F, id: u32) -> (r: PolicyProbes)
    ensures
        reads_policy(tree, id, r@),
        tree.settled() ==> r@ == policy_at(tree, id),
{
    let number = text::decimal(id as u128);
    let path = text::join("devices/system/cpu/cpufreq/policy", number.as_str());
    let prefix = path.as_str();
    PolicyProbes {
        related: read_below(tree, prefix, "/related_cpus"),
        driver: read_below(tree, prefix, "/scaling_driver"),
        governors: read_below(tree, prefix, "/scaling_available_governors"),
        governor: read_below(tree, prefix, "/scaling_governor"),
        preference: read_below(tree, prefix, "/energy_performance_preference"),
        preferences: read_below(tree, prefix, "/energy_performance_available_preferences"),
        min: read_number(tree, prefix, "/scaling_min_freq"),
        max: read_number(tree, prefix, "/scaling_max_freq"),
        current: read_number(tree, prefix, "/scaling_cur_freq"),
    }
}

/// A name, unless what it names is there.
pub open spec fn absent<T>(probe: Probe<T>, name: Seq<char>) -> Seq<Seq<char>> {
    match probe {
        Probe::Present(_) => Seq::empty(),
        _ => seq![name],
    }
}

fn push_absent<T>(names: &mut Vec<String>, probe: &Probe<T>, name: &str)
    ensures
        text::deep(final(names)@) == text::deep(old(names)@) + absent(*probe, name@),
{
    let ghost before = text::deep(names@);
    match probe {
        Probe::Present(_) => {},
        _ => {
            names.push(name.to_string());
        },
    }
    assert(text::deep(names@) =~= before + absent(*probe, name@));
}

proof fn lemma_absent_views(p: PolicyProbes)
    ensures
        absent(p.related, "related_cpus"@) == absent(p@.related, "related_cpus"@),
        absent(p.driver, "scaling_driver"@) == absent(p@.driver, "scaling_driver"@),
        absent(p.governors, "scaling_available_governors"@) == absent(
            p@.governors,
            "scaling_available_governors"@,
        ),
        absent(p.governor, "scaling_governor"@) == absent(p@.governor, "scaling_governor"@),
        absent(p.preference, "energy_performance_preference"@) == absent(
            p@.preference,
            "energy_performance_preference"@,
        ),
        absent(p.preferences, "energy_performance_available_preferences"@) == absent(
            p@.preferences,
            "energy_performance_available_preferences"@,
        ),
        absent(p.min, "scaling_min_freq"@) == absent(p@.min, "scaling_min_freq"@),
        absent(p.max, "scaling_max_freq"@) == absent(p@.max, "scaling_max_freq"@),
{
}

/// The facts about a policy.
pub open spec fn policy_facts_spec(id: u32, p: PolicyView) -> CpuFreqPolicyView {
    CpuFreqPolicyView {
        id,
        related_cpus: probe::value_of(p.related),
        driver: probe::value_of(p.driver),
        available_governors: probe::tokens_found(p.governors),
        current_governor: probe::value_of(p.governor),
        energy_performance_preference: probe::value_of(p.preference),
        energy_performance_choices: probe::tokens_found(p.preferences),
        min_khz: probe::value_of(p.min),
        max_khz: probe::value_of(p.max),
        current_khz: probe::value_of(p.current),
        read_failures: absent(p.related, "related_cpus"@) + absent(p.driver, "scaling_driver"@)
            + absent(p.governors, "scaling_available_governors"@) + absent(
            p.governor,
            "scaling_governor"@,
        ) + absent(p.preference, "energy_performance_preference"@) + absent(
            p.preferences,
            "energy_performance_available_preferences"@,
        ) + absent(p.min, "scaling_min_freq"@) + absent(p.max, "scaling_max_freq"@) + absent(
            p.current,
            "scaling_cur_freq"@,
        ),
    }
}

fn u64_value(probe: &Probe<u64>) -> (r: Option<u64>)
    ensures
        probe::number_option(r) == probe::value_of(probe::probe_u64(*probe)),
{
    match probe {
        Probe::Present(n) => Some(*n),
        _ => None,
    }
}

fn u32_value(probe: &Probe<u32>) -> (r: Option<u32>)
    ensures
        facts::small_number(r) == probe::value_of(probe::probe_u32(*probe)),
{
    match probe {
        Probe::Present(n) => Some(*n),
        _ => None,
    }
}

/// The facts about a policy.
pub fn policy_facts(id: u32, p: &PolicyProbes) -> (r: CpuFreqPolicyFacts)
    ensures
        r@ == policy_facts_spec(id, p@),
{
    let mut read_failures: Vec<String> = Vec::new();
    assert(text::deep(read_failures@) =~= Seq::empty());
    push_absent(&mut read_failures, &p.related, "related_cpus");
    push_absent(&mut read_failures, &p.driver, "scaling_driver");
    push_absent(&mut read_failures, &p.governors, "scaling_available_governors");
    push_absent(&mut read_failures, &p.governor, "scaling_governor");
    push_absent(&mut read_failures, &p.preference, "energy_performance_preference");
    push_absent(&mut read_failures, &p.preferences, "energy_performance_available_preferences");
    push_absent(&mut read_failures, &p.min, "scaling_min_freq");
    push_absent(&mut read_failures, &p.max, "scaling_max_freq");
    push_absent(&mut read_failures, &p.current, "scaling_cur_freq");
    proof {
        lemma_absent_views(*p);
        assert(Seq::<Seq<char>>::empty() + absent(p@.related, "related_cpus"@) =~= absent(
            p@.related,
            "related_cpus"@,
        ));
        assert(text::deep(read_failures@) == policy_facts_spec(id, p@).read_failures);
    }
    CpuFreqPolicyFacts {
        id,
        related_cpus: probe::text_value(&p.related),
        driver: probe::text_value(&p.driver),
        available_governors: probe::probe_tokens(&p.governors),
        current_governor: probe::text_value(&p.governor),
        energy_performance_preference: probe::text_value(&p.preference),
        energy_performance_choices: probe::probe_tokens(&p.preferences),
        min_khz: u64_value(&p.min),
        max_khz: u64_value(&p.max),
        current_khz: u64_value(&p.current),
        read_failures,
    }
}

/// A named value, where there is one.
pub open spec fn attribute_if(name: Seq<char>, value: Option<Seq<char>>) -> Seq<
    (Seq<char>, Seq<char>),
> {
    match value {
        Some(value) => seq![(name, value)],
        None => Seq::empty(),
    }
}

fn push_attribute(attributes: &mut Vec<Attribute>, name: &str, value: Option<String>)
    ensures
        probe::attributes_view(final(attributes)@) == probe::attributes_view(old(attributes)@)
            + attribute_if(name@, probe::text_option(value)),
{
    let ghost before = probe::attributes_view(attributes@);
    let ghost added = attribute_if(name@, probe::text_option(value));
    if let Some(value) = value {
        attributes.push(Attribute { key: name.to_string(), value });
    }
    assert(probe::attributes_view(attributes@) =~= before + added);
}

/// Evidence of one observation.
pub open spec fn seen<T>(probe: Probe<T>, source: EvidenceSource, name: Seq<char>) -> (
    EvidenceSource,
    Seq<char>,
) {
    (source, probe::evidence_detail(probe, name))
}

/// The rows of the capability matrix about a policy.
pub open spec fn policy_findings_spec(id: u32, p: PolicyView) -> Seq<FindingView> {
    let target = Some("cpu.policy."@ + text::decimal_spec(id as nat));
    let attributes = attribute_if("driver"@, probe::value_of(p.driver)) + attribute_if(
        "related_cpus"@,
        probe::value_of(p.related),
    );
    seq![
        FindingView {
            id: matrix::CPU_POLICY_GOVERNOR@,
            target,
            status: probe::joint_status(
                seq![
                    probe::status_spec(p.governors, DiscoveryStatus::Supported),
                    probe::status_spec(p.governor, DiscoveryStatus::Supported),
                ],
                DiscoveryStatus::Supported,
            ),
            classification: FeatureClass::RuntimeMutable,
            evidence: seq![
                seen(p.governors, EvidenceSource::Sysfs, "CPUFreq available governors"@),
                seen(p.governor, EvidenceSource::Sysfs, "CPUFreq current governor"@),
            ],
            attributes,
        },
        FindingView {
            id: matrix::CPU_POLICY_FREQUENCY_MIN@,
            target,
            status: probe::status_spec(p.min, DiscoveryStatus::Supported),
            classification: FeatureClass::RuntimeMutable,
            evidence: seq![seen(p.min, EvidenceSource::Sysfs, "CPUFreq minimum frequency"@)],
            attributes,
        },
        FindingView {
            id: matrix::CPU_POLICY_FREQUENCY_MAX@,
            target,
            status: probe::status_spec(p.max, DiscoveryStatus::Supported),
            classification: FeatureClass::RuntimeMutable,
            evidence: seq![seen(p.max, EvidenceSource::Sysfs, "CPUFreq maximum frequency"@)],
            attributes,
        },
        FindingView {
            id: matrix::CPU_POLICY_ENERGY_PREFERENCE@,
            target,
            status: probe::status_spec(p.preference, DiscoveryStatus::Supported),
            classification: FeatureClass::RuntimeMutable,
            evidence: seq![
                seen(p.preference, EvidenceSource::Sysfs, "CPUFreq energy-performance preference"@),
                seen(p.preferences, EvidenceSource::Sysfs, "CPUFreq energy-performance choices"@),
            ],
            attributes,
        },
    ]
}

/// The rows of the capability matrix about a policy.
pub fn policy_findings(id: u32, p: &PolicyProbes) -> (r: Vec<CapabilityFinding>)
    ensures
        probe::findings_view(r@) == policy_findings_spec(id, p@),
{
    let number = text::decimal(id as u128);
    let target = text::join("cpu.policy.", number.as_str());
    proof {
        matrix::names_are_not_empty();
        reveal_strlit("cpu.policy.");
    }
    let mut attributes: Vec<Attribute> = Vec::new();
    assert(probe::attributes_view(attributes@) =~= Seq::empty());
    push_attribute(&mut attributes, "driver", probe::text_value(&p.driver));
    push_attribute(&mut attributes, "related_cpus", probe::text_value(&p.related));
    let ghost listed = attribute_if("driver"@, probe::value_of(p@.driver)) + attribute_if(
        "related_cpus"@,
        probe::value_of(p@.related),
    );
    assert(probe::attributes_view(attributes@) =~= listed);
    let statuses = [
        probe::status(&p.governors, DiscoveryStatus::Supported),
        probe::status(&p.governor, DiscoveryStatus::Supported),
    ];
    proof {
        assert(statuses@ =~= seq![
            probe::status_spec(p@.governors, DiscoveryStatus::Supported),
            probe::status_spec(p@.governor, DiscoveryStatus::Supported),
        ]);
    }
    let governor = probe::finding(
        matrix::CPU_POLICY_GOVERNOR,
        Some(target.as_str()),
        probe::status_for(&statuses, DiscoveryStatus::Supported),
        FeatureClass::RuntimeMutable,
        probe::two(
            probe::probe_evidence(
                &p.governors,
                EvidenceSource::Sysfs,
                "CPUFreq available governors",
            ),
            probe::probe_evidence(&p.governor, EvidenceSource::Sysfs, "CPUFreq current governor"),
        ),
        probe::copied_attributes(&attributes),
    );
    let min = probe::finding(
        matrix::CPU_POLICY_FREQUENCY_MIN,
        Some(target.as_str()),
        probe::status(&p.min, DiscoveryStatus::Supported),
        FeatureClass::RuntimeMutable,
        probe::one(
            probe::probe_evidence(&p.min, EvidenceSource::Sysfs, "CPUFreq minimum frequency"),
        ),
        probe::copied_attributes(&attributes),
    );
    let max = probe::finding(
        matrix::CPU_POLICY_FREQUENCY_MAX,
        Some(target.as_str()),
        probe::status(&p.max, DiscoveryStatus::Supported),
        FeatureClass::RuntimeMutable,
        probe::one(
            probe::probe_evidence(&p.max, EvidenceSource::Sysfs, "CPUFreq maximum frequency"),
        ),
        probe::copied_attributes(&attributes),
    );
    let preference = probe::finding(
        matrix::CPU_POLICY_ENERGY_PREFERENCE,
        Some(target.as_str()),
        probe::status(&p.preference, DiscoveryStatus::Supported),
        FeatureClass::RuntimeMutable,
        probe::two(
            probe::probe_evidence(
                &p.preference,
                EvidenceSource::Sysfs,
                "CPUFreq energy-performance preference",
            ),
            probe::probe_evidence(
                &p.preferences,
                EvidenceSource::Sysfs,
                "CPUFreq energy-performance choices",
            ),
        ),
        attributes,
    );
    let ghost expected = policy_findings_spec(id, p@);
    proof {
        lemma_same_words(*p);
        assert(governor@ =~= expected[0]);
        assert(min@ =~= expected[1]);
        assert(max@ =~= expected[2]);
        assert(preference@ =~= expected[3]);
    }
    let mut r: Vec<CapabilityFinding> = Vec::new();
    r.push(governor);
    r.push(min);
    r.push(max);
    r.push(preference);
    assert(probe::findings_view(r@) =~= expected);
    r
}

proof fn lemma_same_words(p: PolicyProbes)
    ensures
        forall|name: Seq<char>|
            #![auto]
            probe::evidence_detail(p.governors, name) == probe::evidence_detail(p@.governors, name),
        forall|name: Seq<char>|
            #![auto]
            probe::evidence_detail(p.governor, name) == probe::evidence_detail(p@.governor, name),
        forall|name: Seq<char>|
            #![auto]
            probe::evidence_detail(p.min, name) == probe::evidence_detail(p@.min, name),
        forall|name: Seq<char>|
            #![auto]
            probe::evidence_detail(p.max, name) == probe::evidence_detail(p@.max, name),
        forall|name: Seq<char>|
            #![auto]
            probe::evidence_detail(p.preference, name) == probe::evidence_detail(
                p@.preference,
                name,
            ),
        forall|name: Seq<char>|
            #![auto]
            probe::evidence_detail(p.preferences, name) == probe::evidence_detail(
                p@.preferences,
                name,
            ),
{
}

/// What was read of the frequency policies and what goes with them.
#[derive(Debug)]
pub struct CpuFreqReadings {
    pub directory: Probe<Vec<DirectoryEntry>>,
    pub boost: Probe<String>,
    pub no_turbo: Probe<String>,
    pub profile: Probe<String>,
    pub profiles: Probe<String>,
    /// The policies in ascending order.
    pub ids: Vec<u32>,
    pub policies: Vec<PolicyProbes>,
}

/// What was read of the frequency policies, as plain values.
#[verifier::ext_equal]
pub struct CpuFreqReadingsView {
    pub directory: Probe<Seq<(Seq<char>, EntryKind)>>,
    pub boost: Probe<Seq<char>>,
    pub no_turbo: Probe<Seq<char>>,
    pub profile: Probe<Seq<char>>,
    pub profiles: Probe<Seq<char>>,
    pub ids: Seq<u32>,
    pub policies: Seq<PolicyView>,
}

impl View for CpuFreqReadings {
    type V = CpuFreqReadingsView;

    open spec fn view(&self) -> CpuFreqReadingsView {
        CpuFreqReadingsView {
            directory: probe::probe_entries(self.directory),
            boost: probe::probe_text(self.boost),
            no_turbo: probe::probe_text(self.no_turbo),
            profile: probe::probe_text(self.profile),
            profiles: probe::probe_text(self.profiles),
            ids: self.ids@,
            policies: self.policies@.map_values(|p: PolicyProbes| p@),
        }
    }
}

/// What a host says about its frequency policies.
pub open spec fn cpufreq_at<F: ReadOnlyFileSystem>(tree: &F) -> CpuFreqReadingsView {
    let directory = probe::entries_at(tree, "devices/system/cpu/cpufreq"@);
    let ids = probe::numeric_names(directory, "policy"@);
    CpuFreqReadingsView {
        directory,
        boost: probe::text_at(tree, "devices/system/cpu/cpufreq/boost"@),
        no_turbo: probe::text_at(tree, "devices/system/cpu/cpufreq/no_turbo"@),
        profile: probe::text_at(tree, "firmware/acpi/platform_profile"@),
        profiles: probe::text_at(tree, "firmware/acpi/platform_profile_choices"@),
        ids,
        policies: Seq::new(ids.len(), |i: int| policy_at(tree, ids[i])),
    }
}

/// Whether reading the frequency policies finds this: the directory is listed
/// once, and every policy in it is read once.
pub open spec fn reads_cpufreq<F: ReadOnlyFileSystem>(tree: &F, seen: CpuFreqReadingsView) -> bool {
    &&& probe::reads_entries(tree, "devices/system/cpu/cpufreq"@, seen.directory)
    &&& probe::reads_text(tree, "devices/system/cpu/cpufreq/boost"@, seen.boost)
    &&& probe::reads_text(tree, "devices/system/cpu/cpufreq/no_turbo"@, seen.no_turbo)
    &&& probe::reads_text(tree, "firmware/acpi/platform_profile"@, seen.profile)
    &&& probe::reads_text(tree, "firmware/acpi/platform_profile_choices"@, seen.profiles)
    &&& seen.ids == probe::numeric_names(seen.directory, "policy"@)
    &&& seen.policies.len() == seen.ids.len()
    &&& forall|i: int|
        0 <= i < seen.ids.len() ==> reads_policy(tree, seen.ids[i], #[trigger] seen.policies[i])
}

/// Reads the frequency policies and what goes with them.
pub fn read_cpufreq<F: ReadOnlyFileSystem>(tree: &F) -> (r: CpuFreqReadings)
    ensures
        r.ids@.len() == r.policies@.len(),
        reads_cpufreq(tree, r@),
        tree.settled() ==> r@ == cpufreq_at(tree),
{
    let directory = probe::list(tree, "devices/system/cpu/cpufreq");
    let ids = probe::sort_numeric_names(&directory, "policy");
    let boost = probe::read_text(tree, "devices/system/cpu/cpufreq/boost");
    let no_turbo = probe::read_text(tree, "devices/system/cpu/cpufreq/no_turbo");
    let profile = probe::read_text(tree, "firmware/acpi/platform_profile");
    let profiles = probe::read_text(tree, "firmware/acpi/platform_profile_choices");
    let mut policies: Vec<PolicyProbes> = Vec::new();
    let mut i: usize = 0;
    while i < ids.len()
        invariant
            i <= ids@.len(),
            policies@.len() == i,
            forall|j: int|
                0 <= j < i ==> reads_policy(tree, ids@[j], (#[trigger] policies@[j])@),
            tree.settled() ==> forall|j: int|
                0 <= j < i ==> (#[trigger] policies@[j])@ == policy_at(tree, ids@[j]),
        decreases ids@.len() - i,
    {
        policies.push(read_policy(tree, ids[i]));
        i = i + 1;
    }
    let r = CpuFreqReadings { directory, boost, no_turbo, profile, profiles, ids, policies };
    proof {
        if tree.settled() {
            assert(r@.policies =~= cpufreq_at(tree).policies);
        }
    }
    r
}

/// The facts about the frequency policies.
pub open spec fn cpufreq_facts_spec(r: CpuFreqReadingsView) -> CpuFreqView {
    CpuFreqView {
        policies: Seq::new(r.ids.len(), |i: int| policy_facts_spec(r.ids[i], r.policies[i])),
        boost: match probe::value_of(r.boost) {
            Some(value) => Some(value),
            None => probe::value_of(r.no_turbo),
        },
        platform_profile: probe::value_of(r.profile),
        platform_profile_choices: probe::tokens_found(r.profiles),
    }
}

/// The rows about all policies, one policy after the other.
pub open spec fn all_policy_findings(ids: Seq<u32>, policies: Seq<PolicyView>) -> Seq<FindingView>
    decreases ids.len(),
{
    if ids.len() == 0 {
        Seq::empty()
    } else {
        all_policy_findings(ids.drop_last(), policies) + policy_findings_spec(
            ids.last(),
            policies[ids.len() - 1],
        )
    }
}

/// A row where there is no policy.
pub open spec fn no_policy(
    id: Seq<char>,
    directory: Probe<Seq<(Seq<char>, EntryKind)>>,
) -> FindingView {
    FindingView {
        id,
        target: None,
        status: probe::status_spec(directory, DiscoveryStatus::Supported),
        classification: FeatureClass::RuntimeMutable,
        evidence: seq![seen(directory, EvidenceSource::Sysfs, "CPUFreq policy directory"@)],
        attributes: Seq::empty(),
    }
}

/// The rows of the capability matrix about frequency policies.
pub open spec fn cpufreq_findings_spec(r: CpuFreqReadingsView) -> Seq<FindingView> {
    seq![
        FindingView {
            id: matrix::CPU_BOOST@,
            target: None,
            status: probe::joint_status(
                seq![
                    probe::status_spec(r.boost, DiscoveryStatus::Supported),
                    probe::status_spec(r.no_turbo, DiscoveryStatus::Supported),
                ],
                DiscoveryStatus::Supported,
            ),
            classification: FeatureClass::RuntimeMutable,
            evidence: seq![
                seen(
                    if r.boost is Present {
                        r.boost
                    } else {
                        r.no_turbo
                    },
                    EvidenceSource::Sysfs,
                    "CPU boost interface"@,
                ),
                seen(r.no_turbo, EvidenceSource::Sysfs, "CPU no_turbo interface"@),
            ],
            attributes: Seq::empty(),
        },
        FindingView {
            id: matrix::PLATFORM_PROFILE@,
            target: None,
            status: probe::joint_status(
                seq![
                    probe::status_spec(r.profile, DiscoveryStatus::Supported),
                    probe::status_spec(r.profiles, DiscoveryStatus::Supported),
                ],
                DiscoveryStatus::Supported,
            ),
            classification: FeatureClass::Conditional,
            evidence: seq![
                seen(r.profile, EvidenceSource::Sysfs, "platform profile"@),
                seen(r.profiles, EvidenceSource::Sysfs, "platform profile choices"@),
            ],
            attributes: Seq::empty(),
        },
    ] + if r.ids.len() == 0 {
        seq![
            no_policy(matrix::CPU_POLICY_FREQUENCY_MIN@, r.directory),
            no_policy(matrix::CPU_POLICY_FREQUENCY_MAX@, r.directory),
            no_policy(matrix::CPU_POLICY_GOVERNOR@, r.directory),
            no_policy(matrix::CPU_POLICY_ENERGY_PREFERENCE@, r.directory),
        ]
    } else {
        all_policy_findings(r.ids, r.policies)
    }
}

fn missing_policy(id: &str, directory: &Probe<Vec<DirectoryEntry>>) -> (r: CapabilityFinding)
    requires
        id@.len() > 0,
    ensures
        r@ == no_policy(id@, probe::probe_entries(*directory)),
{
    let attributes: Vec<Attribute> = Vec::new();
    assert(probe::attributes_view(attributes@) =~= Seq::empty());
    let r = probe::finding(
        id,
        None,
        probe::status(directory, DiscoveryStatus::Supported),
        FeatureClass::RuntimeMutable,
        probe::one(
            probe::probe_evidence(directory, EvidenceSource::Sysfs, "CPUFreq policy directory"),
        ),
        attributes,
    );
    assert(r@ =~= no_policy(id@, probe::probe_entries(*directory)));
    r
}

/// No attributes.
pub(crate) fn no_attributes() -> (r: Vec<Attribute>)
    ensures
        probe::attributes_view(r@) == Seq::<(Seq<char>, Seq<char>)>::empty(),
{
    let r: Vec<Attribute> = Vec::new();
    assert(probe::attributes_view(r@) =~= Seq::empty());
    r
}

/// What is said of a text does not depend on how it is held.
pub proof fn lemma_text_words(p: Probe<String>)
    ensures
        forall|name: Seq<char>|
            #![auto]
            probe::evidence_detail(p, name) == probe::evidence_detail(probe::probe_text(p), name),
        forall|present: DiscoveryStatus|
            #![auto]
            probe::status_spec(p, present) == probe::status_spec(probe::probe_text(p), present),
        p is Present <==> probe::probe_text(p) is Present,
{
}

/// The facts about frequency policies, and the rows of the capability matrix.
pub fn cpufreq_report(r: &CpuFreqReadings) -> (report: (CpuFreqFacts, Vec<CapabilityFinding>))
    requires
        r.ids@.len() == r.policies@.len(),
    ensures
        report.0@ == cpufreq_facts_spec(r@),
        probe::findings_view(report.1@) == cpufreq_findings_spec(r@),
{
    proof {
        matrix::names_are_not_empty();
        lemma_text_words(r.boost);
        lemma_text_words(r.no_turbo);
        lemma_text_words(r.profile);
        lemma_text_words(r.profiles);
    }
    let ghost expected = cpufreq_findings_spec(r@);
    let boost_statuses = [
        probe::status(&r.boost, DiscoveryStatus::Supported),
        probe::status(&r.no_turbo, DiscoveryStatus::Supported),
    ];
    let profile_statuses = [
        probe::status(&r.profile, DiscoveryStatus::Supported),
        probe::status(&r.profiles, DiscoveryStatus::Supported),
    ];
    proof {
        assert(boost_statuses@ =~= seq![
            probe::status_spec(r@.boost, DiscoveryStatus::Supported),
            probe::status_spec(r@.no_turbo, DiscoveryStatus::Supported),
        ]);
        assert(profile_statuses@ =~= seq![
            probe::status_spec(r@.profile, DiscoveryStatus::Supported),
            probe::status_spec(r@.profiles, DiscoveryStatus::Supported),
        ]);
    }
    let boost_probe = match &r.boost {
        Probe::Present(_) => &r.boost,
        _ => &r.no_turbo,
    };
    let boost = probe::finding(
        matrix::CPU_BOOST,
        None,
        probe::status_for(&boost_statuses, DiscoveryStatus::Supported),
        FeatureClass::RuntimeMutable,
        probe::two(
            probe::probe_evidence(boost_probe, EvidenceSource::Sysfs, "CPU boost interface"),
            probe::probe_evidence(&r.no_turbo, EvidenceSource::Sysfs, "CPU no_turbo interface"),
        ),
        no_attributes(),
    );
    let profile = probe::finding(
        matrix::PLATFORM_PROFILE,
        None,
        probe::status_for(&profile_statuses, DiscoveryStatus::Supported),
        FeatureClass::Conditional,
        probe::two(
            probe::probe_evidence(&r.profile, EvidenceSource::Sysfs, "platform profile"),
            probe::probe_evidence(&r.profiles, EvidenceSource::Sysfs, "platform profile choices"),
        ),
        no_attributes(),
    );
    proof {
        assert(boost@ =~= expected[0]);
        assert(profile@ =~= expected[1]);
    }
    let mut findings: Vec<CapabilityFinding> = Vec::new();
    findings.push(boost);
    findings.push(profile);
    let ghost base = probe::findings_view(findings@);
    let mut policies: Vec<CpuFreqPolicyFacts> = Vec::new();
    if r.ids.len() == 0 {
        findings.push(missing_policy(matrix::CPU_POLICY_FREQUENCY_MIN, &r.directory));
        findings.push(missing_policy(matrix::CPU_POLICY_FREQUENCY_MAX, &r.directory));
        findings.push(missing_policy(matrix::CPU_POLICY_GOVERNOR, &r.directory));
        findings.push(missing_policy(matrix::CPU_POLICY_ENERGY_PREFERENCE, &r.directory));
        assert(probe::findings_view(findings@) =~= expected);
    } else {
        let ghost all = r@.policies;
        let mut i: usize = 0;
        assert(r.ids@.take(0) =~= Seq::empty());
        assert(base + all_policy_findings(r.ids@.take(0), all) =~= base);
        while i < r.ids.len()
            invariant
                i <= r.ids@.len(),
                r.ids@.len() == r.policies@.len(),
                all == r@.policies,
                probe::findings_view(findings@) == base + all_policy_findings(
                    r.ids@.take(i as int),
                    all,
                ),
                policies@.len() == i,
                forall|j: int|
                    0 <= j < i ==> (#[trigger] policies@[j])@ == policy_facts_spec(
                        r.ids@[j],
                        all[j],
                    ),
            decreases r.ids@.len() - i,
        {
            let id: u32 = r.ids[i];
            let probes = &r.policies[i];
            assert(all[i as int] == probes@);
            policies.push(policy_facts(id, probes));
            let mut more = policy_findings(id, probes);
            let ghost a = findings@;
            let ghost b = more@;
            findings.append(&mut more);
            proof {
                assert(probe::findings_view(findings@) =~= probe::findings_view(a)
                    + probe::findings_view(b));
                assert(r.ids@.take(i + 1).drop_last() =~= r.ids@.take(i as int));
                assert(r.ids@.take(i + 1).last() == id);
                assert(base + all_policy_findings(r.ids@.take(i as int), all)
                    + policy_findings_spec(id, probes@) =~= base + all_policy_findings(
                    r.ids@.take(i + 1),
                    all,
                ));
            }
            i = i + 1;
        }
        proof {
            assert(r.ids@.take(r.ids@.len() as int) =~= r.ids@);
            assert(base =~= expected.take(2));
            assert(probe::findings_view(findings@) =~= expected);
        }
    }
    let facts = CpuFreqFacts {
        policies,
        boost: match probe::text_value(&r.boost) {
            Some(value) => Some(value),
            None => probe::text_value(&r.no_turbo),
        },
        platform_profile: probe::text_value(&r.profile),
        platform_profile_choices: probe::probe_tokens(&r.profiles),
    };
    proof {
        assert(facts@.policies =~= cpufreq_facts_spec(r@).policies);
    }
    (facts, findings)
}

/// Finds the frequency policies and what goes with them.
pub fn detect_cpufreq<F: ReadOnlyFileSystem>(sysfs: &F) -> (report: (
    CpuFreqFacts,
    Vec<CapabilityFinding>,
))
    ensures
        exists|seen: CpuFreqReadingsView| #[trigger]
            reads_cpufreq(sysfs, seen) && report.0@ == cpufreq_facts_spec(seen)
                && probe::findings_view(report.1@) == cpufreq_findings_spec(seen),
        sysfs.settled() ==> report.0@ == cpufreq_facts_spec(cpufreq_at(sysfs))
            && probe::findings_view(report.1@) == cpufreq_findings_spec(cpufreq_at(sysfs)),
{
    let readings = read_cpufreq(sysfs);
    cpufreq_report(&readings)
}

/// What was read of a CPU.
#[derive(Debug)]
pub struct CpuProbes {
    pub package: Probe<u32>,
    pub core: Probe<u32>,
    pub siblings: Probe<String>,
    pub capacity: Probe<u64>,
}

/// What was read of a CPU, as plain values.
#[verifier::ext_equal]
pub struct CpuProbesView {
    pub package: Probe<nat>,
    pub core: Probe<nat>,
    pub siblings: Probe<Seq<char>>,
    pub capacity: Probe<nat>,
}

impl View for CpuProbes {
    type V = CpuProbesView;

    open spec fn view(&self) -> CpuProbesView {
        CpuProbesView {
            package: probe::probe_u32(self.package),
            core: probe::probe_u32(self.core),
            siblings: probe::probe_text(self.siblings),
            capacity: probe::probe_u64(self.capacity),
        }
    }
}

/// What a host says about a CPU.
pub open spec fn cpu_at<F: ReadOnlyFileSystem>(tree: &F, cpu: u32) -> CpuProbesView {
    let prefix = "devices/system/cpu/cpu"@ + text::decimal_spec(cpu as nat);
    CpuProbesView {
        package: probe::number_found(
            probe::text_at(tree, prefix + "/topology/physical_package_id"@),
            u32::MAX as nat,
        ),
        core: probe::number_found(
            probe::text_at(tree, prefix + "/topology/core_id"@),
            u32::MAX as nat,
        ),
        siblings: probe::text_at(tree, prefix + "/topology/thread_siblings_list"@),
        capacity: number_at(tree, prefix + "/cpu_capacity"@),
    }
}

/// Whether reading a CPU finds this: every file is read once.
pub open spec fn reads_cpu<F: ReadOnlyFileSystem>(tree: &F, cpu: u32, seen: CpuProbesView) -> bool {
    let prefix = "devices/system/cpu/cpu"@ + text::decimal_spec(cpu as nat);
    &&& probe::reads_number(
        tree,
        prefix + "/topology/physical_package_id"@,
        u32::MAX as nat,
        seen.package,
    )
    &&& probe::reads_number(tree, prefix + "/topology/core_id"@, u32::MAX as nat, seen.core)
    &&& probe::reads_text(tree, prefix + "/topology/thread_siblings_list"@, seen.siblings)
    &&& probe::reads_number(tree, prefix + "/cpu_capacity"@, u64::MAX as nat, seen.capacity)
}

/// Reads a CPU.
pub fn read_cpu<F: ReadOnlyFileSystem>(tree: &F, cpu: u32) -> (r: CpuProbes)
    ensures
        reads_cpu(tree, cpu, r@),
        tree.settled() ==> r@ == cpu_at(tree, cpu),
{
    let number = text::decimal(cpu as u128);
    let path = text::join("devices/system/cpu/cpu", number.as_str());
    let prefix = path.as_str();
    CpuProbes {
        package: probe::parse_u32(read_below(tree, prefix, "/topology/physical_package_id")),
        core: probe::parse_u32(read_below(tree, prefix, "/topology/core_id")),
        siblings: read_below(tree, prefix, "/topology/thread_siblings_list"),
        capacity: read_number(tree, prefix, "/cpu_capacity"),
    }
}

/// Whether a part of a list, a number or a range, holds a number.
pub open spec fn part_holds(part: Seq<char>, needle: u32) -> bool {
    let dash = text::find_spec(part, '-');
    if dash >= part.len() {
        text::parse_spec(part, u32::MAX as nat) == Some(needle as nat)
    } else {
        let start = text::parse_spec(part.take(dash), u32::MAX as nat);
        let end = text::parse_spec(part.skip(dash + 1), u32::MAX as nat);
        start is Some && end is Some && start->0 <= needle <= end->0
    }
}

/// Whether a list of numbers and ranges holds a number. Parts that are neither
/// hold nothing.
pub open spec fn list_holds(value: Seq<char>, needle: u32) -> bool {
    exists|i: int|
        0 <= i < text::split_spec(value, ',').len() && part_holds(
            text::trim_spec(#[trigger] text::split_spec(value, ',')[i]),
            needle,
        )
}

fn holds(part: &[char], needle: u32) -> (r: bool)
    ensures
        r == part_holds(part@, needle),
{
    let dash: usize = text::find(part, '-');
    if dash >= part.len() {
        return match text::parse_unsigned(part, u32::MAX as u128) {
            Some(n) => n == needle as u128,
            None => false,
        };
    }
    let left = vstd::slice::slice_subrange(part, 0, dash);
    assert(left@ =~= part@.take(dash as int));
    let right = vstd::slice::slice_subrange(part, dash + 1, part.len());
    assert(right@ =~= part@.skip(dash + 1));
    match (
        text::parse_unsigned(left, u32::MAX as u128),
        text::parse_unsigned(right, u32::MAX as u128),
    ) {
        (Some(start), Some(end)) => start <= needle as u128 && needle as u128 <= end,
        _ => false,
    }
}

/// Whether a list of numbers and ranges holds a number.
pub fn range_contains(value: &str, needle: u32) -> (r: bool)
    ensures
        r == list_holds(value@, needle),
{
    let chars = text::chars_of(value);
    let parts = text::split(chars.as_slice(), ',');
    let ghost all = text::split_spec(value@, ',');
    let mut i: usize = 0;
    while i < parts.len()
        invariant
            i <= parts@.len(),
            all == text::deep_chars(parts@),
            all == text::split_spec(value@, ','),
            all.len() == parts@.len(),
            forall|j: int| 0 <= j < i ==> !part_holds(text::trim_spec(#[trigger] all[j]), needle),
        decreases parts@.len() - i,
    {
        assert(all[i as int] == parts@[i as int]@);
        if holds(text::trim(parts[i].as_slice()), needle) {
            return true;
        }
        i = i + 1;
    }
    false
}

proof fn lemma_members(parts: Seq<Seq<char>>, needle: u32)
    requires
        crate::cpuset::members_spec(parts) is Ok,
    ensures
        crate::cpuset::members_spec(parts)->Ok_0.contains(needle) <==> exists|i: int|
            0 <= i < parts.len() && part_holds(text::trim_spec(#[trigger] parts[i]), needle),
    decreases parts.len(),
{
    if parts.len() > 0 {
        let shorter = parts.drop_last();
        lemma_members(shorter, needle);
        let before = crate::cpuset::members_spec(shorter)->Ok_0;
        let after = crate::cpuset::members_spec(parts)->Ok_0;
        let part = text::trim_spec(parts.last());
        text::lemma_find_first(part, '-');
        let dash = text::find_spec(part, '-');
        if dash < part.len() {
            let start = text::parse_spec(part.take(dash), u32::MAX as nat)->0;
            let end = text::parse_spec(part.skip(dash + 1), u32::MAX as nat)->0;
            let added = crate::cpuset::span(start, end);
            if start <= needle <= end {
                assert(added[needle - start] == needle);
                assert(after[before.len() + (needle - start)] == needle);
            }
            if after.contains(needle) {
                let k = choose|k: int| 0 <= k < after.len() && after[k] == needle;
                if k < before.len() {
                    assert(before[k] == needle);
                } else {
                    assert(added[k - before.len()] == needle);
                }
            }
        } else {
            if after.contains(needle) {
                let k = choose|k: int| 0 <= k < after.len() && after[k] == needle;
                if k < before.len() {
                    assert(before[k] == needle);
                }
            }
            if part_holds(part, needle) {
                assert(after[before.len() as int] == needle);
            }
        }
        if before.contains(needle) {
            let k = choose|k: int| 0 <= k < before.len() && before[k] == needle;
            assert(after[k] == needle);
        }
        assert(parts[parts.len() - 1] == parts.last());
        assert(after.contains(needle) <==> before.contains(needle) || part_holds(part, needle));
        if exists|i: int|
            0 <= i < shorter.len() && part_holds(text::trim_spec(#[trigger] shorter[i]), needle) {
            let i = choose|i: int|
                0 <= i < shorter.len() && part_holds(
                    text::trim_spec(#[trigger] shorter[i]),
                    needle,
                );
            assert(parts[i] == shorter[i]);
        }
        if exists|i: int|
            0 <= i < parts.len() && part_holds(text::trim_spec(#[trigger] parts[i]), needle) {
            let i = choose|i: int|
                0 <= i < parts.len() && part_holds(text::trim_spec(#[trigger] parts[i]), needle);
            if i < shorter.len() {
                assert(shorter[i] == parts[i]);
            }
        }
    }
}

/// Both readers of a list of CPUs agree: where the whole list can be read, it holds
/// exactly the CPUs of the set that it is read as.
pub proof fn list_readers_agree(value: Seq<char>, needle: u32)
    requires
        crate::cpuset::parse_list_spec(value) is Ok,
    ensures
        list_holds(value, needle) <==> crate::cpuset::parse_list_spec(value)->Ok_0.contains(needle),
{
    let trimmed = text::trim_spec(value);
    let parts = text::split_spec(trimmed, ',');
    let all = text::split_spec(value, ',');
    text::split_of_trimmed(value, ',');
    lemma_members(parts, needle);
    crate::cpuset::canonical_is_sorted_set(crate::cpuset::members_spec(parts)->Ok_0);
    if exists|i: int|
        0 <= i < parts.len() && part_holds(text::trim_spec(#[trigger] parts[i]), needle) {
        let i = choose|i: int|
            0 <= i < parts.len() && part_holds(text::trim_spec(#[trigger] parts[i]), needle);
        assert(text::trim_spec(all[i]) == text::trim_spec(parts[i]));
    }
    if list_holds(value, needle) {
        let i = choose|i: int|
            0 <= i < all.len() && part_holds(text::trim_spec(#[trigger] all[i]), needle);
        assert(text::trim_spec(all[i]) == text::trim_spec(parts[i]));
    }
}

/// What was read of the topology.
#[derive(Debug)]
pub struct TopologyReadings {
    pub directory: Probe<Vec<DirectoryEntry>>,
    pub possible: Probe<String>,
    pub online: Probe<String>,
    /// The CPUs in ascending order.
    pub ids: Vec<u32>,
    pub cpus: Vec<CpuProbes>,
}

/// What was read of the topology, as plain values.
#[verifier::ext_equal]
pub struct TopologyReadingsView {
    pub directory: Probe<Seq<(Seq<char>, EntryKind)>>,
    pub possible: Probe<Seq<char>>,
    pub online: Probe<Seq<char>>,
    pub ids: Seq<u32>,
    pub cpus: Seq<CpuProbesView>,
}

impl View for TopologyReadings {
    type V = TopologyReadingsView;

    open spec fn view(&self) -> TopologyReadingsView {
        TopologyReadingsView {
            directory: probe::probe_entries(self.directory),
            possible: probe::probe_text(self.possible),
            online: probe::probe_text(self.online),
            ids: self.ids@,
            cpus: self.cpus@.map_values(|c: CpuProbes| c@),
        }
    }
}

/// What a host says about its topology.
pub open spec fn topology_at<F: ReadOnlyFileSystem>(tree: &F) -> TopologyReadingsView {
    let directory = probe::entries_at(tree, "devices/system/cpu"@);
    let ids = probe::numeric_names(directory, "cpu"@);
    TopologyReadingsView {
        directory,
        possible: probe::text_at(tree, "devices/system/cpu/possible"@),
        online: probe::text_at(tree, "devices/system/cpu/online"@),
        ids,
        cpus: Seq::new(ids.len(), |i: int| cpu_at(tree, ids[i])),
    }
}

/// Whether reading the topology finds this: the directory is listed once, and every
/// CPU in it is read once.
pub open spec fn reads_topology<F: ReadOnlyFileSystem>(tree: &F, seen: TopologyReadingsView)
    -> bool {
    &&& probe::reads_entries(tree, "devices/system/cpu"@, seen.directory)
    &&& probe::reads_text(tree, "devices/system/cpu/possible"@, seen.possible)
    &&& probe::reads_text(tree, "devices/system/cpu/online"@, seen.online)
    &&& seen.ids == probe::numeric_names(seen.directory, "cpu"@)
    &&& seen.cpus.len() == seen.ids.len()
    &&& forall|i: int|
        0 <= i < seen.ids.len() ==> reads_cpu(tree, seen.ids[i], #[trigger] seen.cpus[i])
}

/// Reads the topology.
pub fn read_topology<F: ReadOnlyFileSystem>(tree: &F) -> (r: TopologyReadings)
    ensures
        r.ids@.len() == r.cpus@.len(),
        reads_topology(tree, r@),
        tree.settled() ==> r@ == topology_at(tree),
{
    let directory = probe::list(tree, "devices/system/cpu");
    let ids = probe::sort_numeric_names(&directory, "cpu");
    let possible = probe::read_text(tree, "devices/system/cpu/possible");
    let online = probe::read_text(tree, "devices/system/cpu/online");
    let mut cpus: Vec<CpuProbes> = Vec::new();
    let mut i: usize = 0;
    while i < ids.len()
        invariant
            i <= ids@.len(),
            cpus@.len() == i,
            forall|j: int| 0 <= j < i ==> reads_cpu(tree, ids@[j], (#[trigger] cpus@[j])@),
            tree.settled() ==> forall|j: int|
                0 <= j < i ==> (#[trigger] cpus@[j])@ == cpu_at(tree, ids@[j]),
        decreases ids@.len() - i,
    {
        cpus.push(read_cpu(tree, ids[i]));
        i = i + 1;
    }
    let r = TopologyReadings { directory, possible, online, ids, cpus };
    proof {
        if tree.settled() {
            assert(r@.cpus =~= topology_at(tree).cpus);
        }
    }
    r
}

/// The facts about a CPU.
pub open spec fn cpu_entry_spec(cpu: u32, p: CpuProbesView, online: Seq<char>)
    -> CpuTopologyEntryView {
    CpuTopologyEntryView {
        cpu,
        package_id: probe::value_of(p.package),
        core_id: probe::value_of(p.core),
        thread_siblings: probe::value_of(p.siblings),
        capacity: probe::value_of(p.capacity),
        online: list_holds(online, cpu),
    }
}

/// The different capacities, in the order in which they are first seen.
pub open spec fn capacities_spec(cpus: Seq<CpuProbesView>) -> Seq<nat>
    decreases cpus.len(),
{
    if cpus.len() == 0 {
        Seq::empty()
    } else {
        let before = capacities_spec(cpus.drop_last());
        match cpus.last().capacity {
            Probe::Present(n) => if before.contains(n) {
                before
            } else {
                before.push(n)
            },
            _ => before,
        }
    }
}

/// The facts about the topology.
pub open spec fn topology_facts_spec(r: TopologyReadingsView) -> CpuTopologyView {
    CpuTopologyView {
        possible: probe::value_of(r.possible),
        online: probe::value_of(r.online),
        entries: Seq::new(
            r.ids.len(),
            |i: int| cpu_entry_spec(r.ids[i], r.cpus[i], probe::text_or_empty(r.online)),
        ),
        heterogeneous: capacities_spec(r.cpus).len() > 1,
    }
}

pub open spec fn bool_text(value: bool) -> Seq<char> {
    if value {
        "true"@
    } else {
        "false"@
    }
}

/// The rows of the capability matrix about the topology.
pub open spec fn topology_findings_spec(r: TopologyReadingsView) -> Seq<FindingView> {
    let capacities = capacities_spec(r.cpus);
    let attributes = seq![
        ("cpu_count"@, text::decimal_spec(r.ids.len())),
        ("heterogeneous"@, bool_text(capacities.len() > 1)),
    ];
    seq![
        FindingView {
            id: matrix::CPU_TOPOLOGY@,
            target: None,
            status: probe::combined_status(
                seq![
                    probe::status_spec(r.directory, DiscoveryStatus::Supported),
                    probe::status_spec(r.possible, DiscoveryStatus::Supported),
                    probe::status_spec(r.online, DiscoveryStatus::Supported),
                ],
            ),
            classification: FeatureClass::BootOnlyReportOnly,
            evidence: seq![
                seen(r.directory, EvidenceSource::Sysfs, "CPU topology directory"@),
                seen(r.possible, EvidenceSource::Sysfs, "possible CPU list"@),
                seen(r.online, EvidenceSource::Sysfs, "online CPU list"@),
            ],
            attributes,
        },
        FindingView {
            id: matrix::CPU_CAPACITY@,
            target: None,
            status: if capacities.len() == 0 {
                probe::combined_status(
                    seq![
                        probe::status_spec(r.directory, DiscoveryStatus::PresentButUnsupported),
                        probe::status_spec(r.possible, DiscoveryStatus::PresentButUnsupported),
                    ],
                )
            } else {
                DiscoveryStatus::Supported
            },
            classification: FeatureClass::Conditional,
            evidence: seq![
                (
                    EvidenceSource::Sysfs,
                    if capacities.len() == 0 {
                        "no per-CPU capacity hint was exposed"@
                    } else {
                        text::decimal_spec(capacities.len())
                            + " distinct CPU capacity values were observed"@
                    },
                ),
            ],
            attributes,
        },
    ]
}

fn distinct_capacities(cpus: &Vec<CpuProbes>) -> (r: usize)
    ensures
        r == capacities_spec(cpus@.map_values(|c: CpuProbes| c@)).len(),
{
    let ghost all = cpus@.map_values(|c: CpuProbes| c@);
    let mut found: Vec<u64> = Vec::new();
    let mut i: usize = 0;
    assert(found@.map_values(|n: u64| n as nat) =~= capacities_spec(all.take(0)));
    while i < cpus.len()
        invariant
            i <= cpus@.len(),
            all == cpus@.map_values(|c: CpuProbes| c@),
            all.len() == cpus@.len(),
            found@.map_values(|n: u64| n as nat) == capacities_spec(all.take(i as int)),
        decreases cpus@.len() - i,
    {
        let ghost numbers = found@.map_values(|n: u64| n as nat);
        assert(all.take(i + 1).drop_last() =~= all.take(i as int));
        assert(all.take(i + 1).last() == cpus@[i as int]@);
        if let Probe::Present(capacity) = &cpus[i].capacity {
            let mut known = false;
            let mut j: usize = 0;
            while j < found.len()
                invariant
                    j <= found@.len(),
                    numbers == found@.map_values(|n: u64| n as nat),
                    known <==> exists|k: int| 0 <= k < j && #[trigger] found@[k] == *capacity,
                decreases found@.len() - j,
            {
                if found[j] == *capacity {
                    known = true;
                }
                j = j + 1;
            }
            proof {
                assert(numbers.contains(*capacity as nat) <==> known) by {
                    if known {
                        let k = choose|k: int|
                            0 <= k < found@.len() && #[trigger] found@[k] == *capacity;
                        assert(numbers[k] == *capacity as nat);
                    }
                    if numbers.contains(*capacity as nat) {
                        let k = numbers.index_of(*capacity as nat);
                        assert(found@[k] == *capacity);
                    }
                }
            }
            if !known {
                found.push(*capacity);
                assert(found@.map_values(|n: u64| n as nat) =~= numbers.push(*capacity as nat));
            }
        }
        i = i + 1;
    }
    assert(all.take(i as int) =~= all);
    assert(found@.map_values(|n: u64| n as nat).len() == found@.len());
    found.len()
}

/// The facts about the topology, and the rows of the capability matrix.
pub fn topology_report(r: &TopologyReadings) -> (report: (
    CpuTopologyFacts,
    Vec<CapabilityFinding>,
))
    requires
        r.ids@.len() == r.cpus@.len(),
    ensures
        report.0@ == topology_facts_spec(r@),
        probe::findings_view(report.1@) == topology_findings_spec(r@),
{
    proof {
        matrix::names_are_not_empty();
        lemma_text_words(r.possible);
        lemma_text_words(r.online);
    }
    let ghost expected = topology_findings_spec(r@);
    let ghost probes = r@.cpus;
    let online_text = probe::text_or_nothing(&r.online);
    let mut entries: Vec<CpuTopologyEntry> = Vec::new();
    let mut i: usize = 0;
    while i < r.ids.len()
        invariant
            i <= r.ids@.len(),
            r.ids@.len() == r.cpus@.len(),
            probes == r@.cpus,
            online_text@ == probe::text_or_empty(r@.online),
            entries@.len() == i,
            forall|j: int|
                0 <= j < i ==> (#[trigger] entries@[j])@ == cpu_entry_spec(
                    r.ids@[j],
                    probes[j],
                    online_text@,
                ),
        decreases r.ids@.len() - i,
    {
        let cpu: u32 = r.ids[i];
        let p = &r.cpus[i];
        assert(probes[i as int] == p@);
        entries.push(
            CpuTopologyEntry {
                cpu,
                package_id: u32_value(&p.package),
                core_id: u32_value(&p.core),
                thread_siblings: probe::text_value(&p.siblings),
                capacity: u64_value(&p.capacity),
                online: range_contains(online_text.as_str(), cpu),
            },
        );
        i = i + 1;
    }
    let capacities: usize = distinct_capacities(&r.cpus);
    let count = text::decimal(r.ids.len() as u128);
    let mut attributes: Vec<Attribute> = Vec::new();
    attributes.push(Attribute { key: "cpu_count".to_string(), value: count });
    attributes.push(
        Attribute {
            key: "heterogeneous".to_string(),
            value: if capacities > 1 {
                "true".to_string()
            } else {
                "false".to_string()
            },
        },
    );
    let topology_statuses = [
        probe::status(&r.directory, DiscoveryStatus::Supported),
        probe::status(&r.possible, DiscoveryStatus::Supported),
        probe::status(&r.online, DiscoveryStatus::Supported),
    ];
    let capacity_statuses = [
        probe::status(&r.directory, DiscoveryStatus::PresentButUnsupported),
        probe::status(&r.possible, DiscoveryStatus::PresentButUnsupported),
    ];
    proof {
        assert(topology_statuses@ =~= seq![
            probe::status_spec(r@.directory, DiscoveryStatus::Supported),
            probe::status_spec(r@.possible, DiscoveryStatus::Supported),
            probe::status_spec(r@.online, DiscoveryStatus::Supported),
        ]);
        assert(capacity_statuses@ =~= seq![
            probe::status_spec(r@.directory, DiscoveryStatus::PresentButUnsupported),
            probe::status_spec(r@.possible, DiscoveryStatus::PresentButUnsupported),
        ]);
        assert(probe::attributes_view(attributes@) =~= expected[0].attributes);
    }
    let topology = probe::finding(
        matrix::CPU_TOPOLOGY,
        None,
        probe::combine_statuses(&topology_statuses),
        FeatureClass::BootOnlyReportOnly,
        probe::three(
            probe::probe_evidence(&r.directory, EvidenceSource::Sysfs, "CPU topology directory"),
            probe::probe_evidence(&r.possible, EvidenceSource::Sysfs, "possible CPU list"),
            probe::probe_evidence(&r.online, EvidenceSource::Sysfs, "online CPU list"),
        ),
        probe::copied_attributes(&attributes),
    );
    let detail = if capacities == 0 {
        "no per-CPU capacity hint was exposed".to_string()
    } else {
        let number = text::decimal(capacities as u128);
        text::join(number.as_str(), " distinct CPU capacity values were observed")
    };
    let capacity = probe::finding(
        matrix::CPU_CAPACITY,
        None,
        if capacities == 0 {
            probe::combine_statuses(&capacity_statuses)
        } else {
            DiscoveryStatus::Supported
        },
        FeatureClass::Conditional,
        probe::one(probe::evidence(EvidenceSource::Sysfs, detail.as_str())),
        attributes,
    );
    proof {
        assert(topology@ =~= expected[0]);
        assert(capacity@ =~= expected[1]);
    }
    let mut findings: Vec<CapabilityFinding> = Vec::new();
    findings.push(topology);
    findings.push(capacity);
    assert(probe::findings_view(findings@) =~= expected);
    let facts = CpuTopologyFacts {
        possible: probe::text_value(&r.possible),
        online: probe::text_value(&r.online),
        entries,
        heterogeneous: capacities > 1,
    };
    assert(facts@.entries =~= topology_facts_spec(r@).entries);
    (facts, findings)
}

/// Finds the topology.
pub fn detect_topology<F: ReadOnlyFileSystem>(sysfs: &F) -> (report: (
    CpuTopologyFacts,
    Vec<CapabilityFinding>,
))
    ensures
        exists|seen: TopologyReadingsView| #[trigger]
            reads_topology(sysfs, seen) && report.0@ == topology_facts_spec(seen)
                && probe::findings_view(report.1@) == topology_findings_spec(seen),
        sysfs.settled() ==> report.0@ == topology_facts_spec(topology_at(sysfs))
            && probe::findings_view(report.1@) == topology_findings_spec(topology_at(sysfs)),
{
    let readings = read_topology(sysfs);
    topology_report(&readings)
}

/// What was read of a NUMA node.
#[derive(Debug)]
pub struct NodeProbes {
    pub cpus: Probe<String>,
    pub memory: Probe<String>,
}

/// What was read of the NUMA nodes.
#[derive(Debug)]
pub struct NumaReadings {
    pub directory: Probe<Vec<DirectoryEntry>>,
    /// The nodes in ascending order.
    pub ids: Vec<u32>,
    pub nodes: Vec<NodeProbes>,
}

/// What was read of the NUMA nodes, as plain values.
#[verifier::ext_equal]
pub struct NumaReadingsView {
    pub directory: Probe<Seq<(Seq<char>, EntryKind)>>,
    pub ids: Seq<u32>,
    pub nodes: Seq<(Probe<Seq<char>>, Probe<Seq<char>>)>,
}

impl View for NumaReadings {
    type V = NumaReadingsView;

    open spec fn view(&self) -> NumaReadingsView {
        NumaReadingsView {
            directory: probe::probe_entries(self.directory),
            ids: self.ids@,
            nodes: self.nodes@.map_values(
                |n: NodeProbes| (probe::probe_text(n.cpus), probe::probe_text(n.memory)),
            ),
        }
    }
}

/// What a host says about a NUMA node.
pub open spec fn node_at<F: ReadOnlyFileSystem>(tree: &F, id: u32) -> (
    Probe<Seq<char>>,
    Probe<Seq<char>>,
) {
    let prefix = "devices/system/node/node"@ + text::decimal_spec(id as nat);
    (probe::text_at(tree, prefix + "/cpulist"@), probe::text_at(tree, prefix + "/meminfo"@))
}

/// What a host says about its NUMA nodes.
pub open spec fn numa_at<F: ReadOnlyFileSystem>(tree: &F) -> NumaReadingsView {
    let directory = probe::entries_at(tree, "devices/system/node"@);
    let ids = probe::numeric_names(directory, "node"@);
    NumaReadingsView {
        directory,
        ids,
        nodes: Seq::new(ids.len(), |i: int| node_at(tree, ids[i])),
    }
}

/// Whether reading a NUMA node finds this: every file is read once.
pub open spec fn reads_node<F: ReadOnlyFileSystem>(
    tree: &F,
    id: u32,
    seen: (Probe<Seq<char>>, Probe<Seq<char>>),
) -> bool {
    let prefix = "devices/system/node/node"@ + text::decimal_spec(id as nat);
    &&& probe::reads_text(tree, prefix + "/cpulist"@, seen.0)
    &&& probe::reads_text(tree, prefix + "/meminfo"@, seen.1)
}

/// Whether reading the NUMA nodes finds this: the directory is listed once, and
/// every node in it is read once.
pub open spec fn reads_numa<F: ReadOnlyFileSystem>(tree: &F, seen: NumaReadingsView) -> bool {
    &&& probe::reads_entries(tree, "devices/system/node"@, seen.directory)
    &&& seen.ids == probe::numeric_names(seen.directory, "node"@)
    &&& seen.nodes.len() == seen.ids.len()
    &&& forall|i: int|
        0 <= i < seen.ids.len() ==> reads_node(tree, seen.ids[i], #[trigger] seen.nodes[i])
}

/// Reads the NUMA nodes.
pub fn read_numa<F: ReadOnlyFileSystem>(tree: &F) -> (r: NumaReadings)
    ensures
        r.ids@.len() == r.nodes@.len(),
        reads_numa(tree, r@),
        tree.settled() ==> r@ == numa_at(tree),
{
    let directory = probe::list(tree, "devices/system/node");
    let ids = probe::sort_numeric_names(&directory, "node");
    let mut nodes: Vec<NodeProbes> = Vec::new();
    let mut i: usize = 0;
    while i < ids.len()
        invariant
            i <= ids@.len(),
            nodes@.len() == i,
            forall|j: int|
                0 <= j < i ==> reads_node(
                    tree,
                    ids@[j],
                    (
                        probe::probe_text((#[trigger] nodes@[j]).cpus),
                        probe::probe_text(nodes@[j].memory),
                    ),
                ),
            tree.settled() ==> forall|j: int|
                0 <= j < i ==> (
                    probe::probe_text((#[trigger] nodes@[j]).cpus),
                    probe::probe_text(nodes@[j].memory),
                ) == node_at(tree, ids@[j]),
        decreases ids@.len() - i,
    {
        let number = text::decimal(ids[i] as u128);
        let path = text::join("devices/system/node/node", number.as_str());
        let prefix = path.as_str();
        let cpus = read_below(tree, prefix, "/cpulist");
        let memory = read_below(tree, prefix, "/meminfo");
        nodes.push(NodeProbes { cpus, memory });
        i = i + 1;
    }
    let r = NumaReadings { directory, ids, nodes };
    proof {
        if tree.settled() {
            assert(r@.nodes =~= numa_at(tree).nodes);
        }
    }
    r
}

/// What the kernel calls the total memory of a NUMA node: it puts the node before
/// the key.
pub open spec fn node_memory_key(id: u32) -> Seq<char> {
    "Node "@ + text::decimal_spec(id as nat) + " MemTotal"@
}

/// The total memory of a NUMA node, whether or not the node stands before the key.
pub open spec fn node_memory(id: u32, memory: Seq<char>) -> Option<nat> {
    match probe::key_value(memory, node_memory_key(id)) {
        Some(value) => probe::first_number(value),
        None => probe::key_number(memory, "MemTotal"@),
    }
}

fn read_node_memory(id: u32, memory: &str) -> (r: Option<u64>)
    ensures
        probe::number_option(r) == node_memory(id, memory@),
{
    let number = text::decimal(id as u128);
    let node = text::join("Node ", number.as_str());
    let key = text::join(node.as_str(), " MemTotal");
    match probe::value_for_key(memory, key.as_str()) {
        Some(_) => probe::number_for_key(memory, key.as_str()),
        None => probe::number_for_key(memory, "MemTotal"),
    }
}

/// The facts about a NUMA node.
pub open spec fn node_facts_spec(id: u32, p: (Probe<Seq<char>>, Probe<Seq<char>>)) -> NumaNodeView {
    NumaNodeView {
        id,
        cpus: probe::value_of(p.0),
        memory_total_kb: match p.1 {
            Probe::Present(memory) => node_memory(id, memory),
            _ => None,
        },
    }
}

/// The facts about the NUMA nodes.
pub open spec fn numa_facts_spec(r: NumaReadingsView) -> NumaView {
    NumaView { nodes: Seq::new(r.ids.len(), |i: int| node_facts_spec(r.ids[i], r.nodes[i])) }
}

/// The row of the capability matrix about the NUMA nodes.
pub open spec fn numa_findings_spec(r: NumaReadingsView) -> Seq<FindingView> {
    seq![
        FindingView {
            id: matrix::NUMA_TOPOLOGY@,
            target: None,
            status: probe::status_spec(r.directory, DiscoveryStatus::Supported),
            classification: FeatureClass::BootOnlyReportOnly,
            evidence: seq![seen(r.directory, EvidenceSource::Sysfs, "NUMA node directory"@)],
            attributes: seq![("node_count"@, text::decimal_spec(r.ids.len()))],
        },
    ]
}

/// The facts about the NUMA nodes, and the row of the capability matrix.
pub fn numa_report(r: &NumaReadings) -> (report: (NumaFacts, Vec<CapabilityFinding>))
    requires
        r.ids@.len() == r.nodes@.len(),
    ensures
        report.0@ == numa_facts_spec(r@),
        probe::findings_view(report.1@) == numa_findings_spec(r@),
{
    proof {
        matrix::names_are_not_empty();
    }
    let ghost probes = r@.nodes;
    let mut nodes: Vec<NumaNodeFacts> = Vec::new();
    let mut i: usize = 0;
    while i < r.ids.len()
        invariant
            i <= r.ids@.len(),
            r.ids@.len() == r.nodes@.len(),
            probes == r@.nodes,
            nodes@.len() == i,
            forall|j: int|
                0 <= j < i ==> (#[trigger] nodes@[j])@ == node_facts_spec(r.ids@[j], probes[j]),
        decreases r.ids@.len() - i,
    {
        let p = &r.nodes[i];
        assert(probes[i as int] == (probe::probe_text(p.cpus), probe::probe_text(p.memory)));
        let memory_total_kb = match &p.memory {
            Probe::Present(memory) => read_node_memory(r.ids[i], memory.as_str()),
            _ => None,
        };
        nodes.push(
            NumaNodeFacts { id: r.ids[i], cpus: probe::text_value(&p.cpus), memory_total_kb },
        );
        i = i + 1;
    }
    let facts = NumaFacts { nodes };
    assert(facts@.nodes =~= numa_facts_spec(r@).nodes);
    let count = text::decimal(r.ids.len() as u128);
    let mut attributes: Vec<Attribute> = Vec::new();
    attributes.push(Attribute { key: "node_count".to_string(), value: count });
    let ghost expected = numa_findings_spec(r@);
    assert(probe::attributes_view(attributes@) =~= expected[0].attributes);
    let row = probe::finding(
        matrix::NUMA_TOPOLOGY,
        None,
        probe::status(&r.directory, DiscoveryStatus::Supported),
        FeatureClass::BootOnlyReportOnly,
        probe::one(
            probe::probe_evidence(&r.directory, EvidenceSource::Sysfs, "NUMA node directory"),
        ),
        attributes,
    );
    assert(row@ =~= expected[0]);
    let mut findings: Vec<CapabilityFinding> = Vec::new();
    findings.push(row);
    assert(probe::findings_view(findings@) =~= expected);
    (facts, findings)
}

/// Finds the NUMA nodes.
pub fn detect_numa<F: ReadOnlyFileSystem>(sysfs: &F) -> (report: (
    NumaFacts,
    Vec<CapabilityFinding>,
))
    ensures
        exists|seen: NumaReadingsView| #[trigger]
            reads_numa(sysfs, seen) && report.0@ == numa_facts_spec(seen)
                && probe::findings_view(report.1@) == numa_findings_spec(seen),
        sysfs.settled() ==> report.0@ == numa_facts_spec(numa_at(sysfs)) && probe::findings_view(
            report.1@,
        ) == numa_findings_spec(numa_at(sysfs)),
{
    let readings = read_numa(sysfs);
    numa_report(&readings)
}

} // verus!
