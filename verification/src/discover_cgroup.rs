//! What a host says about its control groups.

use vstd::prelude::*;

use crate::capability::{EvidenceSource, FeatureClass};
use crate::discover_cpu;
use crate::discover_system;
use crate::facts::{CgroupFacts, CgroupView};
use crate::filesystem::ReadOnlyFileSystem;
use crate::matrix;
use crate::nodes::CgroupVersion;
use crate::probe;
use crate::probe::{CapabilityFinding, DiscoveryStatus, FindingView, Probe};
use crate::text;

verus! {

/// What was read of a control group tree.
#[derive(Debug)]
pub struct CgroupReadings {
    pub controllers: Probe<String>,
    pub subtree: Probe<String>,
    pub group_type: Probe<String>,
    pub shares: Probe<String>,
    pub quota: Probe<String>,
    pub weight: Probe<String>,
    pub max: Probe<String>,
    pub cpuset: Probe<String>,
    pub uclamp_min: Probe<String>,
    pub uclamp_max: Probe<String>,
}

/// What was read of a control group tree, as plain values.
#[verifier::ext_equal]
pub struct CgroupReadingsView {
    pub controllers: Probe<Seq<char>>,
    pub subtree: Probe<Seq<char>>,
    pub group_type: Probe<Seq<char>>,
    pub shares: Probe<Seq<char>>,
    pub quota: Probe<Seq<char>>,
    pub weight: Probe<Seq<char>>,
    pub max: Probe<Seq<char>>,
    pub cpuset: Probe<Seq<char>>,
    pub uclamp_min: Probe<Seq<char>>,
    pub uclamp_max: Probe<Seq<char>>,
}

impl View for CgroupReadings {
    type V = CgroupReadingsView;

    open spec fn view(&self) -> CgroupReadingsView {
        CgroupReadingsView {
            controllers: probe::probe_text(self.controllers),
            subtree: probe::probe_text(self.subtree),
            group_type: probe::probe_text(self.group_type),
            shares: probe::probe_text(self.shares),
            quota: probe::probe_text(self.quota),
            weight: probe::probe_text(self.weight),
            max: probe::probe_text(self.max),
            cpuset: probe::probe_text(self.cpuset),
            uclamp_min: probe::probe_text(self.uclamp_min),
            uclamp_max: probe::probe_text(self.uclamp_max),
        }
    }
}

/// What a control group tree says.
pub open spec fn cgroup_at<F: ReadOnlyFileSystem>(tree: &F) -> CgroupReadingsView {
    CgroupReadingsView {
        controllers: probe::text_at(tree, "cgroup.controllers"@),
        subtree: probe::text_at(tree, "cgroup.subtree_control"@),
        group_type: probe::text_at(tree, "cgroup.type"@),
        shares: probe::text_at(tree, "cpu.shares"@),
        quota: probe::text_at(tree, "cpu.cfs_quota_us"@),
        weight: probe::text_at(tree, "cpu.weight"@),
        max: probe::text_at(tree, "cpu.max"@),
        cpuset: probe::text_at(tree, "cpuset.cpus"@),
        uclamp_min: probe::text_at(tree, "cpu.uclamp.min"@),
        uclamp_max: probe::text_at(tree, "cpu.uclamp.max"@),
    }
}

/// Whether reading a control group tree finds this: every file is read once.
pub open spec fn reads_cgroup<F: ReadOnlyFileSystem>(tree: &F, seen: CgroupReadingsView) -> bool {
    &&& probe::reads_text(tree, "cgroup.controllers"@, seen.controllers)
    &&& probe::reads_text(tree, "cgroup.subtree_control"@, seen.subtree)
    &&& probe::reads_text(tree, "cgroup.type"@, seen.group_type)
    &&& probe::reads_text(tree, "cpu.shares"@, seen.shares)
    &&& probe::reads_text(tree, "cpu.cfs_quota_us"@, seen.quota)
    &&& probe::reads_text(tree, "cpu.weight"@, seen.weight)
    &&& probe::reads_text(tree, "cpu.max"@, seen.max)
    &&& probe::reads_text(tree, "cpuset.cpus"@, seen.cpuset)
    &&& probe::reads_text(tree, "cpu.uclamp.min"@, seen.uclamp_min)
    &&& probe::reads_text(tree, "cpu.uclamp.max"@, seen.uclamp_max)
}

/// Reads a control group tree.
pub fn read_cgroup<F: ReadOnlyFileSystem>(tree: &F) -> (r: CgroupReadings)
    ensures
        reads_cgroup(tree, r@),
        tree.settled() ==> r@ == cgroup_at(tree),
{
    CgroupReadings {
        controllers: probe::read_text(tree, "cgroup.controllers"),
        subtree: probe::read_text(tree, "cgroup.subtree_control"),
        group_type: probe::read_text(tree, "cgroup.type"),
        shares: probe::read_text(tree, "cpu.shares"),
        quota: probe::read_text(tree, "cpu.cfs_quota_us"),
        weight: probe::read_text(tree, "cpu.weight"),
        max: probe::read_text(tree, "cpu.max"),
        cpuset: probe::read_text(tree, "cpuset.cpus"),
        uclamp_min: probe::read_text(tree, "cpu.uclamp.min"),
        uclamp_max: probe::read_text(tree, "cpu.uclamp.max"),
    }
}

/// Whether the tree is of version two: it names its controllers or its type.
pub open spec fn is_v2(r: CgroupReadingsView) -> bool {
    r.controllers is Present || r.group_type is Present
}

/// Whether the tree is of version one: it has shares or a quota, and is not of
/// version two.
pub open spec fn is_v1(r: CgroupReadingsView) -> bool {
    !is_v2(r) && (r.shares is Present || r.quota is Present)
}

/// Whether CPU time can be controlled.
pub open spec fn controls_cpu(r: CgroupReadingsView) -> bool {
    is_v1(r) || exists|i: int|
        0 <= i < probe::tokens_found(r.controllers).len() && #[trigger] probe::tokens_found(
            r.controllers,
        )[i] == "cpu"@
}

/// The reading that stands for the weight.
pub open spec fn weight_of(r: CgroupReadingsView) -> Probe<Seq<char>> {
    if is_v2(r) {
        r.weight
    } else {
        r.shares
    }
}

/// The reading that stands for the limit.
pub open spec fn limit_of(r: CgroupReadingsView) -> Probe<Seq<char>> {
    if is_v2(r) {
        r.max
    } else {
        r.quota
    }
}

/// The facts about the control groups.
pub open spec fn cgroup_facts_spec(membership: Probe<Seq<char>>, r: Option<CgroupReadingsView>)
    -> CgroupView {
    match r {
        None => CgroupView {
            version: None,
            controllers: Seq::empty(),
            enabled_controllers: Seq::empty(),
            cpu_weight: None,
            cpu_max: None,
            cpuset_cpus: None,
            uclamp_min: None,
            uclamp_max: None,
            membership: probe::value_of(membership),
        },
        Some(r) => CgroupView {
            version: if is_v2(r) {
                Some(CgroupVersion::V2)
            } else if is_v1(r) {
                Some(CgroupVersion::V1)
            } else {
                None
            },
            controllers: probe::tokens_found(r.controllers),
            enabled_controllers: probe::tokens_found(r.subtree),
            cpu_weight: probe::value_of(weight_of(r)),
            cpu_max: probe::value_of(limit_of(r)),
            cpuset_cpus: probe::value_of(r.cpuset),
            uclamp_min: probe::value_of(r.uclamp_min),
            uclamp_max: probe::value_of(r.uclamp_max),
            membership: probe::value_of(membership),
        },
    }
}

/// The status of a control, given what its own status would be.
pub open spec fn controlled(r: CgroupReadingsView, status: DiscoveryStatus) -> DiscoveryStatus {
    if !controls_cpu(r) && is_v2(r) {
        DiscoveryStatus::PresentButUnsupported
    } else {
        status
    }
}

/// The version that evidence is filed under.
pub open spec fn source_of(r: CgroupReadingsView) -> EvidenceSource {
    if is_v2(r) {
        EvidenceSource::CgroupV2
    } else {
        EvidenceSource::CgroupV1
    }
}

/// One row of the capability matrix about a control.
pub open spec fn control_finding(
    r: CgroupReadingsView,
    id: Seq<char>,
    class: FeatureClass,
    reading: Probe<Seq<char>>,
    name: Seq<char>,
) -> FindingView {
    FindingView {
        id,
        target: None,
        status: controlled(r, probe::status_spec(reading, DiscoveryStatus::Supported)),
        classification: class,
        evidence: seq![discover_cpu::seen(reading, source_of(r), name)],
        attributes: Seq::empty(),
    }
}

/// One row of the capability matrix where there is no tree.
pub open spec fn no_tree(id: Seq<char>, class: FeatureClass, membership: Probe<Seq<char>>)
    -> FindingView {
    FindingView {
        id,
        target: None,
        status: DiscoveryStatus::Unavailable,
        classification: class,
        evidence: seq![
            (EvidenceSource::CgroupV2, "cgroup root was not configured"@),
            discover_cpu::seen(membership, EvidenceSource::Procfs, "procfs cgroup membership"@),
        ],
        attributes: Seq::empty(),
    }
}

/// The row of the capability matrix about the tree itself.
pub open spec fn hierarchy_finding(r: CgroupReadingsView) -> FindingView {
    FindingView {
        id: matrix::CGROUP_V2@,
        target: None,
        status: if is_v2(r) {
            DiscoveryStatus::Supported
        } else if is_v1(r) {
            DiscoveryStatus::PresentButUnsupported
        } else {
            probe::status_spec(r.controllers, DiscoveryStatus::Supported)
        },
        classification: FeatureClass::Conditional,
        evidence: seq![
            discover_cpu::seen(
                r.controllers,
                EvidenceSource::CgroupV2,
                "cgroup v2 controller list"@,
            ),
            discover_cpu::seen(r.group_type, EvidenceSource::CgroupV2, "cgroup hierarchy type"@),
            discover_cpu::seen(r.shares, EvidenceSource::CgroupV1, "cgroup v1 CPU shares"@),
        ],
        attributes: Seq::empty(),
    }
}

/// The row of the capability matrix about utilization clamps.
pub open spec fn uclamp_finding(r: CgroupReadingsView) -> FindingView {
    FindingView {
        id: matrix::CGROUP_UCLAMP@,
        target: None,
        status: controlled(
            r,
            probe::joint_status(
                seq![
                    probe::status_spec(r.uclamp_min, DiscoveryStatus::Supported),
                    probe::status_spec(r.uclamp_max, DiscoveryStatus::Supported),
                ],
                DiscoveryStatus::Supported,
            ),
        ),
        classification: FeatureClass::Conditional,
        evidence: seq![
            discover_cpu::seen(r.uclamp_min, EvidenceSource::CgroupV2, "cgroup uclamp minimum"@),
            discover_cpu::seen(r.uclamp_max, EvidenceSource::CgroupV2, "cgroup uclamp maximum"@),
        ],
        attributes: Seq::empty(),
    }
}

/// The rows of the capability matrix about the control groups.
pub open spec fn cgroup_findings_spec(
    membership: Probe<Seq<char>>,
    r: Option<CgroupReadingsView>,
) -> Seq<FindingView> {
    match r {
        None => seq![
            no_tree(matrix::CGROUP_V2@, FeatureClass::Conditional, membership),
            no_tree(matrix::CGROUP_UCLAMP@, FeatureClass::Conditional, membership),
            no_tree(matrix::CGROUP_CPU_WEIGHT@, FeatureClass::RuntimeMutable, membership),
            no_tree(matrix::CGROUP_CPU_MAX@, FeatureClass::RuntimeMutable, membership),
            no_tree(matrix::CGROUP_CPUSET_CPUS@, FeatureClass::Conditional, membership),
        ],
        Some(r) => seq![
            hierarchy_finding(r),
            control_finding(
                r,
                matrix::CGROUP_CPU_WEIGHT@,
                FeatureClass::RuntimeMutable,
                weight_of(r),
                "cgroup CPU weight"@,
            ),
            control_finding(
                r,
                matrix::CGROUP_CPU_MAX@,
                FeatureClass::RuntimeMutable,
                limit_of(r),
                "cgroup CPU max"@,
            ),
            control_finding(
                r,
                matrix::CGROUP_CPUSET_CPUS@,
                FeatureClass::Conditional,
                r.cpuset,
                "cgroup effective CPU set"@,
            ),
            uclamp_finding(r),
        ],
    }
}

fn is_present(probe: &Probe<String>) -> (r: bool)
    ensures
        r == (probe::probe_text(*probe) is Present),
{
    match probe {
        Probe::Present(_) => true,
        _ => false,
    }
}

fn names_cpu(names: &Vec<String>) -> (r: bool)
    ensures
        r == exists|i: int|
            0 <= i < text::deep(names@).len() && #[trigger] text::deep(names@)[i] == "cpu"@,
{
    let mut i: usize = 0;
    while i < names.len()
        invariant
            i <= names@.len(),
            forall|j: int| 0 <= j < i ==> (#[trigger] text::deep(names@)[j]) != "cpu"@,
        decreases names@.len() - i,
    {
        assert(text::deep(names@)[i as int] == names@[i as int]@);
        if text::same(names[i].as_str(), "cpu") {
            return true;
        }
        i = i + 1;
    }
    false
}

fn describe_control(
    r: &CgroupReadings,
    v2: bool,
    controls: bool,
    id: &str,
    class: FeatureClass,
    reading: &Probe<String>,
    name: &str,
) -> (row: CapabilityFinding)
    requires
        id@.len() > 0,
        v2 == is_v2(r@),
        controls == controls_cpu(r@),
    ensures
        row@ == control_finding(r@, id@, class, probe::probe_text(*reading), name@),
{
    proof {
        discover_cpu::lemma_text_words(*reading);
    }
    let status = if !controls && v2 {
        DiscoveryStatus::PresentButUnsupported
    } else {
        probe::status(reading, DiscoveryStatus::Supported)
    };
    let source = if v2 {
        EvidenceSource::CgroupV2
    } else {
        EvidenceSource::CgroupV1
    };
    let row = probe::finding(
        id,
        None,
        status,
        class,
        probe::one(probe::probe_evidence(reading, source, name)),
        discover_cpu::no_attributes(),
    );
    assert(row@ =~= control_finding(r@, id@, class, probe::probe_text(*reading), name@));
    row
}

fn describe_hierarchy(r: &CgroupReadings, v2: bool, v1: bool) -> (row: CapabilityFinding)
    requires
        v2 == is_v2(r@),
        v1 == is_v1(r@),
    ensures
        row@ == hierarchy_finding(r@),
{
    proof {
        matrix::names_are_not_empty();
        discover_cpu::lemma_text_words(r.controllers);
        discover_cpu::lemma_text_words(r.group_type);
        discover_cpu::lemma_text_words(r.shares);
    }
    let status = if v2 {
        DiscoveryStatus::Supported
    } else if v1 {
        DiscoveryStatus::PresentButUnsupported
    } else {
        probe::status(&r.controllers, DiscoveryStatus::Supported)
    };
    let row = probe::finding(
        matrix::CGROUP_V2,
        None,
        status,
        FeatureClass::Conditional,
        probe::three(
            probe::probe_evidence(
                &r.controllers,
                EvidenceSource::CgroupV2,
                "cgroup v2 controller list",
            ),
            probe::probe_evidence(&r.group_type, EvidenceSource::CgroupV2, "cgroup hierarchy type"),
            probe::probe_evidence(&r.shares, EvidenceSource::CgroupV1, "cgroup v1 CPU shares"),
        ),
        discover_cpu::no_attributes(),
    );
    assert(row@ =~= hierarchy_finding(r@));
    row
}

fn describe_uclamp(r: &CgroupReadings, v2: bool, controls: bool) -> (row: CapabilityFinding)
    requires
        v2 == is_v2(r@),
        controls == controls_cpu(r@),
    ensures
        row@ == uclamp_finding(r@),
{
    proof {
        matrix::names_are_not_empty();
        discover_cpu::lemma_text_words(r.uclamp_min);
        discover_cpu::lemma_text_words(r.uclamp_max);
    }
    let statuses = [
        probe::status(&r.uclamp_min, DiscoveryStatus::Supported),
        probe::status(&r.uclamp_max, DiscoveryStatus::Supported),
    ];
    assert(statuses@ =~= seq![
        probe::status_spec(r@.uclamp_min, DiscoveryStatus::Supported),
        probe::status_spec(r@.uclamp_max, DiscoveryStatus::Supported),
    ]);
    let status = if !controls && v2 {
        DiscoveryStatus::PresentButUnsupported
    } else {
        probe::status_for(&statuses, DiscoveryStatus::Supported)
    };
    let row = probe::finding(
        matrix::CGROUP_UCLAMP,
        None,
        status,
        FeatureClass::Conditional,
        probe::two(
            probe::probe_evidence(&r.uclamp_min, EvidenceSource::CgroupV2, "cgroup uclamp minimum"),
            probe::probe_evidence(&r.uclamp_max, EvidenceSource::CgroupV2, "cgroup uclamp maximum"),
        ),
        discover_cpu::no_attributes(),
    );
    assert(row@ =~= uclamp_finding(r@));
    row
}

fn describe_missing(id: &str, class: FeatureClass, membership: &Probe<String>) -> (row:
    CapabilityFinding)
    requires
        id@.len() > 0,
    ensures
        row@ == no_tree(id@, class, probe::probe_text(*membership)),
{
    proof {
        discover_cpu::lemma_text_words(*membership);
    }
    let row = probe::finding(
        id,
        None,
        DiscoveryStatus::Unavailable,
        class,
        probe::two(
            probe::evidence(EvidenceSource::CgroupV2, "cgroup root was not configured"),
            probe::probe_evidence(membership, EvidenceSource::Procfs, "procfs cgroup membership"),
        ),
        discover_cpu::no_attributes(),
    );
    assert(row@ =~= no_tree(id@, class, probe::probe_text(*membership)));
    row
}

/// The facts and rows where there is no control group tree.
pub fn cgroup_unavailable(membership: &Probe<String>) -> (report: (
    CgroupFacts,
    Vec<CapabilityFinding>,
))
    ensures
        report.0@ == cgroup_facts_spec(probe::probe_text(*membership), None),
        probe::findings_view(report.1@) == cgroup_findings_spec(
            probe::probe_text(*membership),
            None,
        ),
{
    proof {
        matrix::names_are_not_empty();
    }
    let facts = CgroupFacts {
        version: None,
        controllers: Vec::new(),
        enabled_controllers: Vec::new(),
        cpu_weight: None,
        cpu_max: None,
        cpuset_cpus: None,
        uclamp_min: None,
        uclamp_max: None,
        membership: probe::text_value(membership),
    };
    assert(facts@ =~= cgroup_facts_spec(probe::probe_text(*membership), None));
    let mut findings: Vec<CapabilityFinding> = Vec::new();
    findings.push(describe_missing(matrix::CGROUP_V2, FeatureClass::Conditional, membership));
    findings.push(describe_missing(matrix::CGROUP_UCLAMP, FeatureClass::Conditional, membership));
    findings.push(
        describe_missing(matrix::CGROUP_CPU_WEIGHT, FeatureClass::RuntimeMutable, membership),
    );
    findings.push(
        describe_missing(matrix::CGROUP_CPU_MAX, FeatureClass::RuntimeMutable, membership),
    );
    findings.push(
        describe_missing(matrix::CGROUP_CPUSET_CPUS, FeatureClass::Conditional, membership),
    );
    assert(probe::findings_view(findings@) =~= cgroup_findings_spec(
        probe::probe_text(*membership),
        None,
    ));
    (facts, findings)
}

/// The facts and rows about a control group tree.
pub fn cgroup_report(membership: &Probe<String>, r: &CgroupReadings) -> (report: (
    CgroupFacts,
    Vec<CapabilityFinding>,
))
    ensures
        report.0@ == cgroup_facts_spec(probe::probe_text(*membership), Some(r@)),
        probe::findings_view(report.1@) == cgroup_findings_spec(
            probe::probe_text(*membership),
            Some(r@),
        ),
{
    proof {
        matrix::names_are_not_empty();
    }
    let v2 = is_present(&r.controllers) || is_present(&r.group_type);
    let v1 = !v2 && (is_present(&r.shares) || is_present(&r.quota));
    let controllers = probe::probe_tokens(&r.controllers);
    let controls = v1 || names_cpu(&controllers);
    let weight = if v2 {
        &r.weight
    } else {
        &r.shares
    };
    let max = if v2 {
        &r.max
    } else {
        &r.quota
    };
    let facts = CgroupFacts {
        version: if v2 {
            Some(CgroupVersion::V2)
        } else if v1 {
            Some(CgroupVersion::V1)
        } else {
            None
        },
        controllers,
        enabled_controllers: probe::probe_tokens(&r.subtree),
        cpu_weight: probe::text_value(weight),
        cpu_max: probe::text_value(max),
        cpuset_cpus: probe::text_value(&r.cpuset),
        uclamp_min: probe::text_value(&r.uclamp_min),
        uclamp_max: probe::text_value(&r.uclamp_max),
        membership: probe::text_value(membership),
    };
    assert(facts@ =~= cgroup_facts_spec(probe::probe_text(*membership), Some(r@)));
    let mut findings: Vec<CapabilityFinding> = Vec::new();
    findings.push(describe_hierarchy(r, v2, v1));
    findings.push(
        describe_control(
            r,
            v2,
            controls,
            matrix::CGROUP_CPU_WEIGHT,
            FeatureClass::RuntimeMutable,
            weight,
            "cgroup CPU weight",
        ),
    );
    findings.push(
        describe_control(
            r,
            v2,
            controls,
            matrix::CGROUP_CPU_MAX,
            FeatureClass::RuntimeMutable,
            max,
            "cgroup CPU max",
        ),
    );
    findings.push(
        describe_control(
            r,
            v2,
            controls,
            matrix::CGROUP_CPUSET_CPUS,
            FeatureClass::Conditional,
            &r.cpuset,
            "cgroup effective CPU set",
        ),
    );
    findings.push(describe_uclamp(r, v2, controls));
    assert(probe::findings_view(findings@) =~= cgroup_findings_spec(
        probe::probe_text(*membership),
        Some(r@),
    ));
    (facts, findings)
}

/// What a control group tree that may be missing says.
pub open spec fn optional_cgroup_at<F: ReadOnlyFileSystem>(tree: Option<&F>) -> Option<
    CgroupReadingsView,
> {
    match tree {
        Some(tree) => Some(cgroup_at(tree)),
        None => None,
    }
}

/// Whether reading about the control groups finds this: the membership, and the tree
/// where there is one.
pub open spec fn reads_groups<F: ReadOnlyFileSystem, P: ReadOnlyFileSystem>(
    tree: Option<&F>,
    procfs: &P,
    membership: Probe<Seq<char>>,
    seen: Option<CgroupReadingsView>,
) -> bool {
    &&& probe::reads_text(procfs, "self/cgroup"@, membership)
    &&& match (tree, seen) {
        (Some(tree), Some(seen)) => reads_cgroup(tree, seen),
        (None, None) => true,
        _ => false,
    }
}

/// Finds out about the control groups.
pub fn detect_cgroup<F: ReadOnlyFileSystem, P: ReadOnlyFileSystem>(tree: Option<&F>, procfs: &P)
    -> (report: (CgroupFacts, Vec<CapabilityFinding>))
    ensures
        exists|membership: Probe<Seq<char>>, seen: Option<CgroupReadingsView>| #[trigger]
            reads_groups(tree, procfs, membership, seen) && report.0@ == cgroup_facts_spec(
                membership,
                seen,
            ) && probe::findings_view(report.1@) == cgroup_findings_spec(membership, seen),
        procfs.settled() && discover_system::optional_settled(tree) ==> report.0@
            == cgroup_facts_spec(
            probe::text_at(procfs, "self/cgroup"@),
            optional_cgroup_at(tree),
        ) && probe::findings_view(report.1@) == cgroup_findings_spec(
            probe::text_at(procfs, "self/cgroup"@),
            optional_cgroup_at(tree),
        ),
{
    let membership = probe::read_text(procfs, "self/cgroup");
    match tree {
        Some(found) => {
            let readings = read_cgroup(found);
            assert(reads_groups(tree, procfs, probe::probe_text(membership), Some(readings@)));
            cgroup_report(&membership, &readings)
        },
        None => {
            assert(reads_groups(tree, procfs, probe::probe_text(membership), None));
            cgroup_unavailable(&membership)
        },
    }
}

} // verus!
