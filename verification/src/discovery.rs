//! Everything that a host says about itself, read once and changed nowhere.

use vstd::prelude::*;

use crate::backend::CapabilityDetector;
use crate::capability;
use crate::capability::{CapabilityDescriptor, CapabilityInventory, CapabilityView, TargetKind};
use crate::clock::{Clock, Timestamp};
use crate::discover_cgroup;
use crate::discover_cpu;
use crate::discover_devices;
use crate::discover_system;
use crate::error::SysboostError;
use crate::facts::{
    CgroupFacts, CgroupView, CpuFreqFacts, CpuFreqView, CpuTopologyFacts, CpuTopologyView,
    EnvironmentFacts, EnvironmentView, GpuFacts, GpuView, IrqFacts, IrqView, MemoryFacts, MemoryView,
    NumaFacts, NumaView, SchedulerFacts, SchedulerView, SystemdFacts, SystemdView,
};
use crate::filesystem::{EntryKind, ReadOnlyFileSystem};
use crate::fixture::FixtureFilesystem;
use crate::matrix;
use crate::order;
use crate::order::Keyed;
use crate::probe;
use crate::probe::{CapabilityFinding, FindingView, Probe};
use crate::text;
use crate::topology;
use crate::topology::{CpuTopology, TopologyView};

verus! {

/// The trees that discovery reads.
pub struct DiscoverySources<'a, S, P, C, R> {
    /// The tree under `/sys`.
    pub sysfs: &'a S,
    /// The tree under `/proc`.
    pub procfs: &'a P,
    /// The control group tree, where there is one.
    pub cgroup: Option<&'a C>,
    /// The tree under `/run`, where there is one.
    pub run: Option<&'a R>,
}

impl<'a, S: ReadOnlyFileSystem, P: ReadOnlyFileSystem> DiscoverySources<
    'a,
    S,
    P,
    FixtureFilesystem,
    FixtureFilesystem,
> {
    /// Only the two trees that discovery cannot do without.
    pub fn new(sysfs: &'a S, procfs: &'a P) -> (r: Self)
        ensures
            r.sysfs == sysfs,
            r.procfs == procfs,
            r.cgroup is None,
            r.run is None,
    {
        DiscoverySources { sysfs, procfs, cgroup: None, run: None }
    }
}

impl<
    'a,
    S: ReadOnlyFileSystem,
    P: ReadOnlyFileSystem,
    C: ReadOnlyFileSystem,
    R: ReadOnlyFileSystem,
> DiscoverySources<'a, S, P, C, R> {
    /// Adds a control group tree.
    pub fn with_cgroup<D: ReadOnlyFileSystem>(self, cgroup: &'a D) -> (r: DiscoverySources<
        'a,
        S,
        P,
        D,
        R,
    >)
        ensures
            r.sysfs == self.sysfs,
            r.procfs == self.procfs,
            r.cgroup == Some(cgroup),
            r.run == self.run,
    {
        DiscoverySources {
            sysfs: self.sysfs,
            procfs: self.procfs,
            cgroup: Some(cgroup),
            run: self.run,
        }
    }

    /// Adds a tree under `/run`.
    pub fn with_run<D: ReadOnlyFileSystem>(self, run: &'a D) -> (r: DiscoverySources<'a, S, P, C, D>)
        ensures
            r.sysfs == self.sysfs,
            r.procfs == self.procfs,
            r.cgroup == self.cgroup,
            r.run == Some(run),
    {
        DiscoverySources {
            sysfs: self.sysfs,
            procfs: self.procfs,
            cgroup: self.cgroup,
            run: Some(run),
        }
    }

    /// Whether reading the trees twice gives the same twice.
    pub open spec fn settled(&self) -> bool {
        &&& self.sysfs.settled()
        &&& self.procfs.settled()
        &&& discover_system::optional_settled(self.cgroup)
        &&& discover_system::optional_settled(self.run)
    }
}

/// All that discovery found.
#[derive(Debug, PartialEq, Eq)]
pub struct DiscoveryReport {
    pub observed_at: Timestamp,
    pub environment: EnvironmentFacts,
    pub cpufreq: CpuFreqFacts,
    pub topology: CpuTopologyFacts,
    pub numa: NumaFacts,
    pub cgroup: CgroupFacts,
    pub gpu: GpuFacts,
    pub irq: IrqFacts,
    pub memory: MemoryFacts,
    pub scheduler: SchedulerFacts,
    pub systemd: SystemdFacts,
    /// The capability matrix, in the order of capabilities and targets.
    pub findings: Vec<CapabilityFinding>,
    /// The rows of the matrix that planning works with.
    pub inventory: CapabilityInventory,
}

/// All that discovery found, as plain values.
#[verifier::ext_equal]
pub struct ReportView {
    pub observed_at: Timestamp,
    pub environment: EnvironmentView,
    pub cpufreq: CpuFreqView,
    pub topology: CpuTopologyView,
    pub numa: NumaView,
    pub cgroup: CgroupView,
    pub gpu: GpuView,
    pub irq: IrqView,
    pub memory: MemoryView,
    pub scheduler: SchedulerView,
    pub systemd: SystemdView,
    pub findings: Seq<FindingView>,
    pub inventory_time: Timestamp,
    pub capabilities: Seq<CapabilityView>,
}

impl View for DiscoveryReport {
    type V = ReportView;

    open spec fn view(&self) -> ReportView {
        ReportView {
            observed_at: self.observed_at,
            environment: self.environment@,
            cpufreq: self.cpufreq@,
            topology: self.topology@,
            numa: self.numa@,
            cgroup: self.cgroup@,
            gpu: self.gpu@,
            irq: self.irq@,
            memory: self.memory@,
            scheduler: self.scheduler@,
            systemd: self.systemd@,
            findings: probe::findings_view(self.findings@),
            inventory_time: self.inventory.observed_at,
            capabilities: capability::capabilities_view(self.inventory.capabilities@),
        }
    }
}

impl Keyed for CapabilityFinding {
    open spec fn key_of(row: FindingView) -> order::Key {
        (row.id, row.target)
    }

    fn before(&self, other: &Self) -> (r: bool) {
        proof {
            text::less_irreflexive(self.id@);
        }
        if text::same(self.id.as_str(), other.id.as_str()) {
            match (&self.target, &other.target) {
                (None, Some(_)) => true,
                (Some(a), Some(b)) => text::less(a.as_str(), b.as_str()),
                _ => false,
            }
        } else {
            text::less(self.id.as_str(), other.id.as_str())
        }
    }
}

impl Keyed for CapabilityDescriptor {
    open spec fn key_of(row: CapabilityView) -> order::Key {
        (row.id, Some(row.backend))
    }

    fn before(&self, other: &Self) -> (r: bool) {
        proof {
            text::less_irreflexive(self.id@);
        }
        if text::same(self.id.as_str(), other.id.as_str()) {
            text::less(self.backend.as_str(), other.backend.as_str())
        } else {
            text::less(self.id.as_str(), other.id.as_str())
        }
    }
}

/// Whether planning works with a capability of a kind of target.
pub open spec fn planned_with(kind: TargetKind, id: Seq<char>) -> bool {
    match kind {
        TargetKind::CpuPolicy => true,
        TargetKind::Cgroup => id == matrix::CGROUP_CPU_WEIGHT@ || id == matrix::CGROUP_CPU_MAX@
            || id == matrix::CGROUP_CPUSET_CPUS@,
        TargetKind::Gpu => id == matrix::GPU_PERFORMANCE_PROFILE@ || id == matrix::GPU_POWER_LIMIT@,
        TargetKind::Irq => id == matrix::IRQ_AFFINITY@,
        _ => false,
    }
}

fn is_planned_with(kind: TargetKind, id: &str) -> (r: bool)
    ensures
        r == planned_with(kind, id@),
{
    match kind {
        TargetKind::CpuPolicy => true,
        TargetKind::Cgroup => text::same(id, matrix::CGROUP_CPU_WEIGHT) || text::same(
            id,
            matrix::CGROUP_CPU_MAX,
        ) || text::same(id, matrix::CGROUP_CPUSET_CPUS),
        TargetKind::Gpu => text::same(id, matrix::GPU_PERFORMANCE_PROFILE) || text::same(
            id,
            matrix::GPU_POWER_LIMIT,
        ),
        TargetKind::Irq => text::same(id, matrix::IRQ_AFFINITY),
        _ => false,
    }
}

/// The capabilities among rows that planning works with.
pub open spec fn projected(findings: Seq<FindingView>, kind: TargetKind) -> Seq<CapabilityView>
    decreases findings.len(),
{
    if findings.len() == 0 {
        Seq::empty()
    } else {
        let before = projected(findings.drop_last(), kind);
        if planned_with(kind, findings.last().id) {
            before.push(probe::described_finding(findings.last(), kind))
        } else {
            before
        }
    }
}

fn project(out: &mut Vec<CapabilityDescriptor>, findings: &Vec<CapabilityFinding>, kind: TargetKind)
    ensures
        order::views(final(out)@) == order::views(old(out)@) + projected(
            order::views(findings@),
            kind,
        ),
{
    let ghost before = order::views(out@);
    let ghost all = order::views(findings@);
    let mut i: usize = 0;
    assert(order::views(out@) =~= before + projected(all.take(0), kind));
    while i < findings.len()
        invariant
            i <= findings@.len(),
            all == order::views(findings@),
            all.len() == findings@.len(),
            order::views(out@) == before + projected(all.take(i as int), kind),
        decreases findings@.len() - i,
    {
        let finding = &findings[i];
        let ghost listed = order::views(out@);
        proof {
            assert(all[i as int] == finding@);
            assert(all.take(i + 1).drop_last() =~= all.take(i as int));
            assert(all.take(i + 1).last() == all[i as int]);
        }
        if is_planned_with(kind, finding.id.as_str()) {
            out.push(probe::describe_finding(finding, kind));
            assert(order::views(out@) =~= listed.push(
                probe::described_finding(all[i as int], kind),
            ));
            assert(order::views(out@) =~= before + projected(all.take(i + 1), kind));
        }
        i = i + 1;
    }
    assert(all.take(i as int) =~= all);
}

fn gather(out: &mut Vec<CapabilityFinding>, findings: Vec<CapabilityFinding>)
    ensures
        order::views(final(out)@) == order::views(old(out)@) + order::views(findings@),
{
    let ghost before = order::views(out@);
    let ghost more = order::views(findings@);
    let mut findings = findings;
    out.append(&mut findings);
    assert(order::views(out@) =~= before + more);
}

/// What was read of all trees, as plain values.
#[verifier::ext_equal]
pub struct ReadingsView {
    pub environment: discover_system::EnvironmentReadingsView,
    pub cpufreq: discover_cpu::CpuFreqReadingsView,
    pub topology: discover_cpu::TopologyReadingsView,
    pub numa: discover_cpu::NumaReadingsView,
    pub membership: Probe<Seq<char>>,
    pub cgroup: Option<discover_cgroup::CgroupReadingsView>,
    pub gpus: discover_devices::GpuReadingsView,
    pub irqs: discover_devices::IrqReadingsView,
    pub memory: discover_system::MemoryReadingsView,
    pub scheduler: discover_system::SchedulerReadingsView,
    pub init: Probe<Seq<char>>,
    pub systemd: Probe<Seq<(Seq<char>, EntryKind)>>,
}

/// Whether reading all trees finds this.
pub open spec fn reads_all<
    S: ReadOnlyFileSystem,
    P: ReadOnlyFileSystem,
    C: ReadOnlyFileSystem,
    R: ReadOnlyFileSystem,
>(sources: &DiscoverySources<'_, S, P, C, R>, seen: ReadingsView) -> bool {
    &&& discover_system::reads_environment(sources.procfs, seen.environment)
    &&& discover_cpu::reads_cpufreq(sources.sysfs, seen.cpufreq)
    &&& discover_cpu::reads_topology(sources.sysfs, seen.topology)
    &&& discover_cpu::reads_numa(sources.sysfs, seen.numa)
    &&& discover_cgroup::reads_groups(
        sources.cgroup,
        sources.procfs,
        seen.membership,
        seen.cgroup,
    )
    &&& discover_devices::reads_gpus(sources.sysfs, seen.gpus)
    &&& discover_devices::reads_irqs(sources.procfs, seen.irqs)
    &&& discover_system::reads_memory(sources.sysfs, sources.procfs, seen.memory)
    &&& discover_system::reads_scheduler(sources.procfs, seen.scheduler)
    &&& discover_system::reads_systemd(sources.procfs, sources.run, seen.init, seen.systemd)
}

/// What trees that do not change hold.
pub open spec fn readings_at<
    S: ReadOnlyFileSystem,
    P: ReadOnlyFileSystem,
    C: ReadOnlyFileSystem,
    R: ReadOnlyFileSystem,
>(sources: &DiscoverySources<'_, S, P, C, R>) -> ReadingsView {
    ReadingsView {
        environment: discover_system::environment_at(sources.procfs),
        cpufreq: discover_cpu::cpufreq_at(sources.sysfs),
        topology: discover_cpu::topology_at(sources.sysfs),
        numa: discover_cpu::numa_at(sources.sysfs),
        membership: probe::text_at(sources.procfs, "self/cgroup"@),
        cgroup: discover_cgroup::optional_cgroup_at(sources.cgroup),
        gpus: discover_devices::gpus_at(sources.sysfs),
        irqs: discover_devices::irqs_at(sources.procfs),
        memory: discover_system::memory_at(sources.sysfs, sources.procfs),
        scheduler: discover_system::scheduler_at(sources.procfs),
        init: probe::text_at(sources.procfs, "1/comm"@),
        systemd: discover_system::systemd_directory_at(sources.run),
    }
}

/// All rows of the capability matrix, in the order in which they are found.
pub open spec fn found(seen: ReadingsView) -> Seq<FindingView> {
    seq![discover_system::environment_finding_spec(seen.environment)]
        + discover_cpu::cpufreq_findings_spec(seen.cpufreq)
        + discover_cpu::topology_findings_spec(seen.topology) + discover_cpu::numa_findings_spec(
        seen.numa,
    ) + discover_cgroup::cgroup_findings_spec(seen.membership, seen.cgroup)
        + discover_devices::gpu_findings_spec(seen.gpus) + discover_devices::irq_findings_spec(
        seen.irqs,
    ) + discover_system::memory_findings_spec(seen.memory)
        + discover_system::scheduler_findings_spec(seen.scheduler)
        + discover_system::systemd_findings_spec(seen.init, seen.systemd)
}

/// The capabilities that planning works with, in the order in which they are
/// found.
pub open spec fn offered(seen: ReadingsView) -> Seq<CapabilityView> {
    projected(discover_cpu::cpufreq_findings_spec(seen.cpufreq), TargetKind::CpuPolicy) + projected(
        discover_cgroup::cgroup_findings_spec(seen.membership, seen.cgroup),
        TargetKind::Cgroup,
    ) + projected(discover_devices::gpu_findings_spec(seen.gpus), TargetKind::Gpu) + projected(
        discover_devices::irq_findings_spec(seen.irqs),
        TargetKind::Irq,
    )
}

/// What discovery reports of what was read, as of a time.
pub open spec fn report_of(seen: ReadingsView, time: Timestamp) -> ReportView {
    ReportView {
        observed_at: time,
        environment: discover_system::environment_facts_spec(seen.environment),
        cpufreq: discover_cpu::cpufreq_facts_spec(seen.cpufreq),
        topology: discover_cpu::topology_facts_spec(seen.topology),
        numa: discover_cpu::numa_facts_spec(seen.numa),
        cgroup: discover_cgroup::cgroup_facts_spec(seen.membership, seen.cgroup),
        gpu: discover_devices::gpu_facts_spec(seen.gpus),
        irq: discover_devices::irq_facts_spec(seen.irqs),
        memory: discover_system::memory_facts_spec(seen.memory),
        scheduler: discover_system::scheduler_facts_spec(seen.scheduler),
        systemd: discover_system::systemd_facts_spec(seen.init, seen.systemd),
        findings: order::sorted::<CapabilityFinding>(found(seen)),
        inventory_time: time,
        capabilities: order::sorted::<CapabilityDescriptor>(offered(seen)),
    }
}

/// What trees that do not change give at a time.
pub open spec fn report_at<
    S: ReadOnlyFileSystem,
    P: ReadOnlyFileSystem,
    C: ReadOnlyFileSystem,
    R: ReadOnlyFileSystem,
>(sources: &DiscoverySources<'_, S, P, C, R>, time: Timestamp) -> ReportView {
    report_of(readings_at(sources), time)
}

/// Trees that do not change give what they hold, and nothing else.
pub proof fn settled_trees_are_read_as_they_are<
    S: ReadOnlyFileSystem,
    P: ReadOnlyFileSystem,
    C: ReadOnlyFileSystem,
    R: ReadOnlyFileSystem,
>(sources: &DiscoverySources<'_, S, P, C, R>, seen: ReadingsView)
    requires
        sources.settled(),
        reads_all(sources, seen),
    ensures
        seen == readings_at(sources),
{
    let still = readings_at(sources);
    assert forall|i: int| 0 <= i < seen.cpufreq.policies.len() implies seen.cpufreq.policies[i]
        == #[trigger] still.cpufreq.policies[i] by {
        assert(discover_cpu::reads_policy(
            sources.sysfs,
            seen.cpufreq.ids[i],
            seen.cpufreq.policies[i],
        ));
    }
    assert(seen.cpufreq.policies =~= still.cpufreq.policies);
    assert forall|i: int| 0 <= i < seen.topology.cpus.len() implies seen.topology.cpus[i]
        == #[trigger] still.topology.cpus[i] by {
        assert(discover_cpu::reads_cpu(
            sources.sysfs,
            seen.topology.ids[i],
            seen.topology.cpus[i],
        ));
    }
    assert(seen.topology.cpus =~= still.topology.cpus);
    assert forall|i: int| 0 <= i < seen.numa.nodes.len() implies seen.numa.nodes[i]
        == #[trigger] still.numa.nodes[i] by {
        assert(discover_cpu::reads_node(sources.sysfs, seen.numa.ids[i], seen.numa.nodes[i]));
    }
    assert(seen.numa.nodes =~= still.numa.nodes);
    assert forall|i: int| 0 <= i < seen.gpus.cards.len() implies seen.gpus.cards[i]
        == #[trigger] still.gpus.cards[i] by {
        assert(discover_devices::reads_card(
            sources.sysfs,
            seen.gpus.entries[i].0,
            seen.gpus.cards[i],
        ));
    }
    assert(seen.gpus.cards =~= still.gpus.cards);
    assert forall|i: int| 0 <= i < seen.irqs.irqs.len() implies seen.irqs.irqs[i]
        == #[trigger] still.irqs.irqs[i] by {
        assert(discover_devices::reads_irq(sources.procfs, seen.irqs.ids[i], seen.irqs.irqs[i]));
    }
    assert(seen.irqs.irqs =~= still.irqs.irqs);
    assert(seen.environment =~= still.environment);
    assert(seen.cpufreq =~= still.cpufreq);
    assert(seen.topology =~= still.topology);
    assert(seen.memory =~= still.memory);
    assert(seen.scheduler =~= still.scheduler);
    assert(seen.cgroup =~= still.cgroup);
}

proof fn lemma_offers_nothing(findings: Seq<FindingView>, kind: TargetKind)
    ensures
        forall|i: int|
            0 <= i < projected(findings, kind).len() ==> (#[trigger] projected(
                findings,
                kind,
            )[i]).operations.len() == 0,
    decreases findings.len(),
{
    if findings.len() > 0 {
        lemma_offers_nothing(findings.drop_last(), kind);
        probe::discovery_offers_no_operation(findings.last(), kind);
    }
}

/// Discovery never offers an operation: what it finds can be read, and to
/// change it takes a backend.
pub proof fn discovery_is_read_only(seen: ReadingsView, time: Timestamp, i: int)
    requires
        0 <= i < report_of(seen, time).capabilities.len(),
    ensures
        report_of(seen, time).capabilities[i].operations.len() == 0,
{
    broadcast use vstd::seq_lib::group_to_multiset_ensures;

    let all = offered(seen);
    let rows = report_of(seen, time).capabilities;
    lemma_offers_nothing(
        discover_cpu::cpufreq_findings_spec(seen.cpufreq),
        TargetKind::CpuPolicy,
    );
    lemma_offers_nothing(
        discover_cgroup::cgroup_findings_spec(seen.membership, seen.cgroup),
        TargetKind::Cgroup,
    );
    lemma_offers_nothing(discover_devices::gpu_findings_spec(seen.gpus), TargetKind::Gpu);
    lemma_offers_nothing(discover_devices::irq_findings_spec(seen.irqs), TargetKind::Irq);
    order::sorting_keeps_all_rows::<CapabilityDescriptor>(all);
    assert(rows.contains(rows[i]));
    assert(all.to_multiset().contains(rows[i]));
    assert(all.contains(rows[i]));
}

/// The capability matrix holds every row that was found, and is in the order of
/// capabilities and targets; so is the inventory, by capabilities.
pub proof fn reports_are_ordered(seen: ReadingsView, time: Timestamp)
    ensures
        order::ordered::<CapabilityFinding>(report_of(seen, time).findings),
        report_of(seen, time).findings.to_multiset() == found(seen).to_multiset(),
        order::ordered::<CapabilityDescriptor>(report_of(seen, time).capabilities),
        report_of(seen, time).capabilities.to_multiset() == offered(seen).to_multiset(),
{
    order::sorting_keeps_all_rows::<CapabilityFinding>(found(seen));
    order::sorting_keeps_all_rows::<CapabilityDescriptor>(offered(seen));
}

/// Reads the facts of a host. Nothing is written.
pub struct CapabilityDiscovery<'a, S, P, C, R> {
    sources: DiscoverySources<'a, S, P, C, R>,
}

impl<
    'a,
    S: ReadOnlyFileSystem,
    P: ReadOnlyFileSystem,
    C: ReadOnlyFileSystem,
    R: ReadOnlyFileSystem,
> CapabilityDiscovery<'a, S, P, C, R> {
    /// The trees that are read.
    pub closed spec fn trees(&self) -> DiscoverySources<'a, S, P, C, R> {
        self.sources
    }

    pub fn new(sources: DiscoverySources<'a, S, P, C, R>) -> (r: Self)
        ensures
            r.trees() == sources,
    {
        CapabilityDiscovery { sources }
    }

    /// Reads every tree and reports what was found, as of a time.
    pub fn report(&self, observed_at: Timestamp) -> (r: DiscoveryReport)
        ensures
            r.observed_at == observed_at,
            r.inventory.observed_at == observed_at,
            exists|seen: ReadingsView| #[trigger]
                reads_all(&self.trees(), seen) && r@ == report_of(seen, observed_at),
            self.trees().settled() ==> r@ == report_at(&self.trees(), observed_at),
    {
        let (report, seen) = self.look(observed_at);
        proof {
            if self.trees().settled() {
                settled_trees_are_read_as_they_are(&self.trees(), seen@);
            }
        }
        report
    }

    /// Reads every tree once, in a fixed order.
    fn look(&self, observed_at: Timestamp) -> (r: (DiscoveryReport, Ghost<ReadingsView>))
        ensures
            reads_all(&self.trees(), r.1@),
            r.0@ == report_of(r.1@, observed_at),
    {
        let mut findings: Vec<CapabilityFinding> = Vec::new();
        let mut descriptors: Vec<CapabilityDescriptor> = Vec::new();
        assert(order::views(descriptors@) =~= Seq::empty());
        let (environment, row) = discover_system::detect_environment(self.sources.procfs);
        let ghost kernel = choose|seen: discover_system::EnvironmentReadingsView| #[trigger]
            discover_system::reads_environment(self.sources.procfs, seen) && environment@
                == discover_system::environment_facts_spec(seen) && row@
                == discover_system::environment_finding_spec(seen);
        findings.push(row);
        assert(order::views(findings@) =~= seq![row@]);
        let (cpufreq, rows) = discover_cpu::detect_cpufreq(self.sources.sysfs);
        let ghost policies = choose|seen: discover_cpu::CpuFreqReadingsView| #[trigger]
            discover_cpu::reads_cpufreq(self.sources.sysfs, seen) && cpufreq@ == discover_cpu::cpufreq_facts_spec(seen)
                && probe::findings_view(rows@) == discover_cpu::cpufreq_findings_spec(seen);
        project(&mut descriptors, &rows, TargetKind::CpuPolicy);
        gather(&mut findings, rows);
        let (topology, rows) = discover_cpu::detect_topology(self.sources.sysfs);
        let ghost cpus = choose|seen: discover_cpu::TopologyReadingsView| #[trigger]
            discover_cpu::reads_topology(self.sources.sysfs, seen) && topology@ == discover_cpu::topology_facts_spec(seen)
                && probe::findings_view(rows@) == discover_cpu::topology_findings_spec(seen);
        gather(&mut findings, rows);
        let (numa, rows) = discover_cpu::detect_numa(self.sources.sysfs);
        let ghost nodes = choose|seen: discover_cpu::NumaReadingsView| #[trigger]
            discover_cpu::reads_numa(self.sources.sysfs, seen) && numa@ == discover_cpu::numa_facts_spec(seen)
                && probe::findings_view(rows@) == discover_cpu::numa_findings_spec(seen);
        gather(&mut findings, rows);
        let (cgroup, rows) = discover_cgroup::detect_cgroup(
            self.sources.cgroup,
            self.sources.procfs,
        );
        let ghost groups = choose|
            membership: Probe<Seq<char>>,
            seen: Option<discover_cgroup::CgroupReadingsView>,
        | #[trigger]
            discover_cgroup::reads_groups(
                self.sources.cgroup,
                self.sources.procfs,
                membership,
                seen,
            ) && cgroup@ == discover_cgroup::cgroup_facts_spec(membership, seen)
                && probe::findings_view(rows@) == discover_cgroup::cgroup_findings_spec(
                membership,
                seen,
            );
        project(&mut descriptors, &rows, TargetKind::Cgroup);
        gather(&mut findings, rows);
        let (gpu, rows) = discover_devices::detect_gpus(self.sources.sysfs);
        let ghost gpus = choose|seen: discover_devices::GpuReadingsView| #[trigger]
            discover_devices::reads_gpus(self.sources.sysfs, seen) && gpu@ == discover_devices::gpu_facts_spec(seen)
                && probe::findings_view(rows@) == discover_devices::gpu_findings_spec(seen);
        project(&mut descriptors, &rows, TargetKind::Gpu);
        gather(&mut findings, rows);
        let (irq, rows) = discover_devices::detect_irqs(self.sources.procfs);
        let ghost irqs = choose|seen: discover_devices::IrqReadingsView| #[trigger]
            discover_devices::reads_irqs(self.sources.procfs, seen) && irq@ == discover_devices::irq_facts_spec(seen)
                && probe::findings_view(rows@) == discover_devices::irq_findings_spec(seen);
        project(&mut descriptors, &rows, TargetKind::Irq);
        gather(&mut findings, rows);
        let (memory, rows) = discover_system::detect_memory(
            self.sources.sysfs,
            self.sources.procfs,
        );
        let ghost store = choose|seen: discover_system::MemoryReadingsView| #[trigger]
            discover_system::reads_memory(self.sources.sysfs, self.sources.procfs, seen) && memory@ == discover_system::memory_facts_spec(seen)
                && probe::findings_view(rows@) == discover_system::memory_findings_spec(seen);
        gather(&mut findings, rows);
        let (scheduler, rows) = discover_system::detect_scheduler(self.sources.procfs);
        let ghost knobs = choose|seen: discover_system::SchedulerReadingsView| #[trigger]
            discover_system::reads_scheduler(self.sources.procfs, seen) && scheduler@ == discover_system::scheduler_facts_spec(seen)
                && probe::findings_view(rows@) == discover_system::scheduler_findings_spec(seen);
        gather(&mut findings, rows);
        let (systemd, rows) = discover_system::detect_systemd(
            self.sources.procfs,
            self.sources.run,
        );
        let ghost first = choose|
            init: Probe<Seq<char>>,
            directory: Probe<Seq<(Seq<char>, EntryKind)>>,
        | #[trigger]
            discover_system::reads_systemd(
                self.sources.procfs,
                self.sources.run,
                init,
                directory,
            ) && systemd@ == discover_system::systemd_facts_spec(init, directory)
                && probe::findings_view(rows@) == discover_system::systemd_findings_spec(
                init,
                directory,
            );
        gather(&mut findings, rows);
        let ghost seen = ReadingsView {
            environment: kernel,
            cpufreq: policies,
            topology: cpus,
            numa: nodes,
            membership: groups.0,
            cgroup: groups.1,
            gpus,
            irqs,
            memory: store,
            scheduler: knobs,
            init: first.0,
            systemd: first.1,
        };
        proof {
            assert(reads_all(&self.sources, seen));
            assert(order::views(findings@) =~= found(seen));
            assert(order::views(descriptors@) =~= offered(seen));
        }
        let findings = order::sort(findings);
        let capabilities = order::sort(descriptors);
        let report = DiscoveryReport {
            observed_at,
            environment,
            cpufreq,
            topology,
            numa,
            cgroup,
            gpu,
            irq,
            memory,
            scheduler,
            systemd,
            findings,
            inventory: CapabilityInventory { observed_at, capabilities },
        };
        assert(report@ =~= report_of(seen, observed_at));
        (report, Ghost(seen))
    }

    /// Reports what was found, where the time is known; else the failure of the
    /// clock.
    pub fn report_when(&self, now: Result<Timestamp, SysboostError>) -> (r: Result<
        DiscoveryReport,
        SysboostError,
    >)
        ensures
            match now {
                Ok(time) => r is Ok && r->Ok_0.observed_at == time
                    && r->Ok_0.inventory.observed_at == time && (exists|seen: ReadingsView|
                    #[trigger]
                    reads_all(&self.trees(), seen) && r->Ok_0@ == report_of(seen, time)) && (
                self.trees().settled() ==> r->Ok_0@ == report_at(&self.trees(), time)),
                Err(e) => r == Err::<DiscoveryReport, SysboostError>(e),
            },
    {
        match now {
            Ok(time) => Ok(self.report(time)),
            Err(e) => Err(e),
        }
    }

    /// Reads the clock, then every tree.
    pub fn discover(&self, clock: &dyn Clock) -> (r: Result<DiscoveryReport, SysboostError>)
        ensures
            exists|told: Result<Timestamp, crate::error::ErrorView>| #[trigger]
                clock.may_tell(told) && match (told, r) {
                    (Ok(at), Ok(report)) => report.observed_at == at
                        && report.inventory.observed_at == at && (exists|seen: ReadingsView|
                        #[trigger]
                        reads_all(&self.trees(), seen) && report@ == report_of(seen, at)) && (
                    self.trees().settled() ==> report@ == report_at(&self.trees(), at)),
                    (Err(e), Err(f)) => f@ == e,
                    _ => false,
                },
    {
        let told = clock.now();
        assert(clock.may_tell(crate::error::plain(told)));
        self.report_when(told)
    }
}

impl<
    'a,
    S: ReadOnlyFileSystem,
    P: ReadOnlyFileSystem,
    C: ReadOnlyFileSystem,
    R: ReadOnlyFileSystem,
> CapabilityDetector for CapabilityDiscovery<'a, S, P, C, R> {
    fn detect(&self, clock: &dyn Clock) -> (r: Result<CapabilityInventory, SysboostError>)
        ensures
            exists|told: Result<Timestamp, crate::error::ErrorView>| #[trigger]
                clock.may_tell(told) && match (told, r) {
                    (Ok(at), Ok(inventory)) => inventory.observed_at == at && (exists|
                        seen: ReadingsView,
                    | #[trigger]
                        reads_all(&self.trees(), seen) && capability::capabilities_view(
                            inventory.capabilities@,
                        ) == report_of(seen, at).capabilities) && (
                    self.trees().settled() ==> capability::capabilities_view(
                        inventory.capabilities@,
                    ) == report_at(&self.trees(), at).capabilities),
                    (Err(e), Err(f)) => f@ == e,
                    _ => false,
                },
    {
        let told = clock.now();
        assert(clock.may_tell(crate::error::plain(told)));
        match self.report_when(told) {
            Ok(report) => {
                assert(report@.capabilities == capability::capabilities_view(
                    report.inventory.capabilities@,
                ));
                Ok(report.inventory)
            },
            Err(e) => Err(e),
        }
    }
}

impl CpuTopology {
    /// The topology that a report describes.
    pub fn from_discovery(report: &DiscoveryReport) -> (r: Result<CpuTopology, SysboostError>)
        ensures
            match r {
                Ok(topology) => topology::from_facts_spec(report.topology, report.numa) == Ok::<
                    TopologyView,
                    crate::error::ErrorView,
                >(topology@),
                Err(e) => topology::from_facts_spec(report.topology, report.numa) == Err::<
                    TopologyView,
                    crate::error::ErrorView,
                >(e@),
            },
    {
        CpuTopology::from_facts(&report.topology, &report.numa)
    }

    /// The topology that a whole report describes.
    pub fn from_discovery_report(report: &DiscoveryReport) -> (r: Result<
        CpuTopology,
        SysboostError,
    >)
        ensures
            match r {
                Ok(topology) => topology::from_facts_spec(report.topology, report.numa) == Ok::<
                    TopologyView,
                    crate::error::ErrorView,
                >(topology@),
                Err(e) => topology::from_facts_spec(report.topology, report.numa) == Err::<
                    TopologyView,
                    crate::error::ErrorView,
                >(e@),
            },
    {
        CpuTopology::from_discovery(report)
    }
}

} // verus!
