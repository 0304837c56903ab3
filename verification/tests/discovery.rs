use sysboost::capability::CapabilityState;
use sysboost::clock::{Clock, FixedClock, Timestamp};
use sysboost::cpuset::parse_cpu_list;
use sysboost::discover_cpu::{detect_cpufreq, detect_numa, range_contains};
use sysboost::discover_system::detect_environment;
use sysboost::discovery::{CapabilityDiscovery, DiscoveryReport, DiscoverySources};
use sysboost::error::{ErrorCode, SysboostError};
use sysboost::filesystem::{DirectoryEntry, FileMetadata, ReadOnlyFileSystem, RelativePath};
use sysboost::fixture::FixtureFilesystem;
use sysboost::ids::TargetIdentity;
use sysboost::matrix;
use sysboost::probe::{
    first_value_for_key, number_for_key, value_for_key, CapabilityFinding, DiscoveryStatus,
};
use sysboost::topology::{CpuCapacityMode, CpuTopology};

struct FixtureSet {
    sysfs: FixtureFilesystem,
    procfs: FixtureFilesystem,
    cgroup: Option<FixtureFilesystem>,
    run: Option<FixtureFilesystem>,
}

impl FixtureSet {
    fn sources(
        &self,
    ) -> DiscoverySources<
        '_,
        FixtureFilesystem,
        FixtureFilesystem,
        FixtureFilesystem,
        FixtureFilesystem,
    > {
        let mut sources = DiscoverySources::new(&self.sysfs, &self.procfs);
        if let Some(cgroup) = self.cgroup.as_ref() {
            sources = sources.with_cgroup(cgroup);
        }
        if let Some(run) = self.run.as_ref() {
            sources = sources.with_run(run);
        }
        sources
    }
}

fn seed(filesystem: &mut FixtureFilesystem, path: &str, value: &str) {
    filesystem.set_fixture_value(
        RelativePath::new(path).expect("fixture path is valid"),
        value.as_bytes().to_vec(),
        true,
    );
}

fn base_fixture(vendor: &str, model: &str, capacities: &[u64]) -> FixtureSet {
    let mut sysfs = FixtureFilesystem::new();
    let mut procfs = FixtureFilesystem::new();
    let mut cgroup = FixtureFilesystem::new();

    seed(
        &mut sysfs,
        "devices/system/cpu/cpufreq/policy0/scaling_driver",
        "schedutil\n",
    );
    seed(
        &mut sysfs,
        "devices/system/cpu/cpufreq/policy0/scaling_available_governors",
        "performance powersave schedutil\n",
    );
    seed(
        &mut sysfs,
        "devices/system/cpu/cpufreq/policy0/scaling_governor",
        "schedutil\n",
    );
    seed(
        &mut sysfs,
        "devices/system/cpu/cpufreq/policy0/energy_performance_preference",
        "balance_performance\n",
    );
    seed(
        &mut sysfs,
        "devices/system/cpu/cpufreq/policy0/energy_performance_available_preferences",
        "performance balance_performance balance_power power\n",
    );
    seed(
        &mut sysfs,
        "devices/system/cpu/cpufreq/policy0/scaling_min_freq",
        "800000\n",
    );
    seed(
        &mut sysfs,
        "devices/system/cpu/cpufreq/policy0/scaling_max_freq",
        "3600000\n",
    );
    seed(
        &mut sysfs,
        "devices/system/cpu/cpufreq/policy0/scaling_cur_freq",
        "1800000\n",
    );
    seed(
        &mut sysfs,
        "devices/system/cpu/cpufreq/policy0/related_cpus",
        "0-3\n",
    );
    seed(&mut sysfs, "devices/system/cpu/cpufreq/boost", "1\n");
    seed(&mut sysfs, "firmware/acpi/platform_profile", "balanced\n");
    seed(
        &mut sysfs,
        "firmware/acpi/platform_profile_choices",
        "performance balanced quiet\n",
    );
    seed(&mut sysfs, "devices/system/cpu/possible", "0-3\n");
    seed(&mut sysfs, "devices/system/cpu/online", "0-3\n");
    seed(&mut sysfs, "devices/system/node/node0/cpulist", "0-3\n");
    seed(
        &mut sysfs,
        "devices/system/node/node0/meminfo",
        "Node 0 MemTotal:       16384 kB\n",
    );
    seed(
        &mut sysfs,
        "kernel/mm/transparent_hugepage/enabled",
        "always [madvise] never\n",
    );
    seed(
        &mut sysfs,
        "kernel/mm/transparent_hugepage/defrag",
        "always defer [defer+madvise] never\n",
    );
    seed(&mut sysfs, "class/block/zram0/disksize", "1073741824\n");
    seed(&mut sysfs, "module/zswap/parameters/enabled", "Y\n");
    seed(&mut sysfs, "module/zswap/parameters/compressor", "zstd\n");
    seed(&mut sysfs, "module/zswap/parameters/zpool", "z3fold\n");

    for (cpu, capacity) in capacities.iter().enumerate() {
        let prefix = format!("devices/system/cpu/cpu{cpu}");
        seed(
            &mut sysfs,
            &format!("{prefix}/topology/physical_package_id"),
            "0\n",
        );
        seed(
            &mut sysfs,
            &format!("{prefix}/topology/core_id"),
            &(cpu / 2).to_string(),
        );
        seed(
            &mut sysfs,
            &format!("{prefix}/topology/thread_siblings_list"),
            &format!("{}\n", if cpu % 2 == 0 { cpu } else { cpu - 1 }),
        );
        seed(
            &mut sysfs,
            &format!("{prefix}/cpu_capacity"),
            &format!("{capacity}\n"),
        );
    }

    seed(
        &mut procfs,
        "sys/kernel/osrelease",
        "6.8.0-sysboost-fixture\n",
    );
    seed(
        &mut procfs,
        "sys/kernel/version",
        "#1 SMP PREEMPT_DYNAMIC\n",
    );
    let mut cpuinfo = String::new();
    for cpu in 0..capacities.len() {
        cpuinfo.push_str(&format!(
            "processor\t: {cpu}\nvendor_id\t: {vendor}\nmodel name\t: {model}\n\n"
        ));
    }
    seed(&mut procfs, "cpuinfo", &cpuinfo);
    seed(&mut procfs, "1/comm", "systemd\n");
    seed(&mut procfs, "1/cgroup", "0::/machine.slice\n");
    seed(&mut procfs, "self/cgroup", "0::/user.slice\n");
    seed(
        &mut procfs,
        "meminfo",
        "MemTotal:       16384 kB\nSwapTotal:       4096 kB\nSwapFree:        2048 kB\n",
    );
    seed(
        &mut procfs,
        "swaps",
        "Filename\t\t\tType\t\tSize\tUsed\tPriority\n/dev/zram0\tpartition\t4096\t0\t100\n",
    );
    seed(
        &mut procfs,
        "pressure/cpu",
        "some avg10=0.00 avg60=0.00 avg300=0.00 total=0\n",
    );
    for (name, value) in [
        ("sys/kernel/sched_util_clamp_min", "0\n"),
        ("sys/kernel/sched_util_clamp_max", "1024\n"),
        ("sys/kernel/numa_balancing", "1\n"),
        ("sys/kernel/sched_energy_aware", "1\n"),
        ("irq/default_smp_affinity", "ff\n"),
        ("irq/32/smp_affinity_list", "0-3\n"),
        ("irq/32/effective_affinity_list", "0-3\n"),
    ] {
        seed(&mut procfs, name, value);
    }

    for (name, value) in [
        ("cgroup.controllers", "cpuset cpu io memory\n"),
        ("cgroup.subtree_control", "cpu cpuset\n"),
        ("cgroup.type", "domain\n"),
        ("cpu.weight", "100\n"),
        ("cpu.max", "max 100000\n"),
        ("cpuset.cpus", "0-3\n"),
        ("cpu.uclamp.min", "0\n"),
        ("cpu.uclamp.max", "1024\n"),
    ] {
        seed(&mut cgroup, name, value);
    }

    FixtureSet {
        sysfs,
        procfs,
        cgroup: Some(cgroup),
        run: None,
    }
}

fn minimal_fixture() -> FixtureSet {
    let mut procfs = FixtureFilesystem::new();
    seed(&mut procfs, "sys/kernel/osrelease", "6.1.0-minimal\n");
    seed(&mut procfs, "1/cgroup", "0::/docker/fixture\n");
    seed(
        &mut procfs,
        "cpuinfo",
        "processor\t: 0\nmodel name\t: virtual cpu\n\n",
    );
    FixtureSet {
        sysfs: FixtureFilesystem::new(),
        procfs,
        cgroup: None,
        run: None,
    }
}

fn finding<'a>(report: &'a DiscoveryReport, id: &str) -> Vec<&'a CapabilityFinding> {
    report
        .findings
        .iter()
        .filter(|finding| finding.id.as_str() == id)
        .collect()
}

struct DeniedFixture {
    inner: FixtureFilesystem,
    denied: Vec<RelativePath>,
}

impl ReadOnlyFileSystem for DeniedFixture {
    fn read(&self, path: &RelativePath) -> Result<Vec<u8>, SysboostError> {
        if self.denied.iter().any(|denied| denied == path) {
            return Err(SysboostError::new(
                ErrorCode::CapabilityError,
                "fixture read denied",
            ));
        }
        self.inner.read(path)
    }

    fn metadata(&self, path: &RelativePath) -> Result<FileMetadata, SysboostError> {
        self.inner.metadata(path)
    }

    fn identity(&self, path: &RelativePath) -> Result<TargetIdentity, SysboostError> {
        self.inner.identity(path)
    }

    fn list(&self, path: Option<&RelativePath>) -> Result<Vec<DirectoryEntry>, SysboostError> {
        self.inner.list(path)
    }
}

#[test]
fn intel_and_amd_like_hosts_use_interface_evidence() {
    for (vendor, model) in [
        ("GenuineIntel", "fixture Intel-like CPU"),
        ("AuthenticAMD", "fixture AMD-like CPU"),
    ] {
        let fixture = base_fixture(vendor, model, &[1024, 1024, 1024, 1024]);
        let report = CapabilityDiscovery::new(fixture.sources())
            .discover(&FixedClock::new(Timestamp::from_unix_millis(10)))
            .expect("fixture discovery succeeds");
        assert_eq!(report.environment.cpu_vendor.as_deref(), Some(vendor));
        assert!(report.environment.cpu_model.is_some());
        assert_eq!(report.cpufreq.policies.len(), 1);
        assert_eq!(
            report.cpufreq.policies[0].driver.as_deref(),
            Some("schedutil")
        );
        assert!(finding(&report, matrix::CPU_POLICY_GOVERNOR)
            .iter()
            .any(|finding| finding.status == DiscoveryStatus::Supported));
    }
}

#[test]
fn hybrid_cpu_capacity_is_reported_without_model_heuristics() {
    let fixture = base_fixture("unknown", "hybrid fixture", &[1024, 512, 1024, 512]);
    let report = CapabilityDiscovery::new(fixture.sources())
        .discover(&FixedClock::new(Timestamp::from_unix_millis(11)))
        .expect("fixture discovery succeeds");
    assert!(report.topology.heterogeneous);
    assert!(finding(&report, matrix::CPU_CAPACITY)
        .iter()
        .any(|finding| finding.status == DiscoveryStatus::Supported));
}

#[test]
fn minimal_vm_or_container_is_nonfatal_and_explicitly_sparse() {
    let fixture = minimal_fixture();
    let report = CapabilityDiscovery::new(fixture.sources())
        .discover(&FixedClock::new(Timestamp::from_unix_millis(12)))
        .expect("minimal fixture discovery succeeds");
    assert_eq!(
        report.environment.kernel_release.as_deref(),
        Some("6.1.0-minimal")
    );
    assert!(report.environment.container_hint);
    assert!(finding(&report, matrix::CPU_POLICY_GOVERNOR)
        .iter()
        .any(|finding| finding.status == DiscoveryStatus::Unavailable));
    assert!(finding(&report, matrix::CGROUP_V2)
        .iter()
        .any(|finding| finding.status == DiscoveryStatus::Unavailable));
}

#[test]
fn missing_cpufreq_and_missing_cgroup_v2_are_distinct_unavailable_results() {
    let mut fixture = minimal_fixture();
    fixture.cgroup = Some(FixtureFilesystem::new());
    let report = CapabilityDiscovery::new(fixture.sources())
        .discover(&FixedClock::new(Timestamp::from_unix_millis(13)))
        .expect("partial fixture discovery succeeds");
    assert!(
        finding(&report, matrix::CPU_POLICY_FREQUENCY_MIN)
            .iter()
            .all(|finding| finding.status == DiscoveryStatus::Unavailable)
    );
    assert!(finding(&report, matrix::CGROUP_V2)
        .iter()
        .all(|finding| finding.status == DiscoveryStatus::Unavailable));
    assert_eq!(report.cgroup.version, None);
}

#[test]
fn multiple_gpus_are_enumerated_without_vendor_specific_selection() {
    let mut fixture = minimal_fixture();
    seed(
        &mut fixture.sysfs,
        "class/drm/card0/uevent",
        "DRIVER=amdgpu\nPCI_CLASS=030000\n",
    );
    seed(
        &mut fixture.sysfs,
        "class/drm/card0/device/vendor",
        "0x1002\n",
    );
    seed(
        &mut fixture.sysfs,
        "class/drm/card1/uevent",
        "DRIVER=i915\nPCI_CLASS=030000\n",
    );
    seed(
        &mut fixture.sysfs,
        "class/drm/card1/device/vendor",
        "0x8086\n",
    );
    let report = CapabilityDiscovery::new(fixture.sources())
        .discover(&FixedClock::new(Timestamp::from_unix_millis(14)))
        .expect("GPU fixture discovery succeeds");
    assert_eq!(report.gpu.devices.len(), 2);
    assert!(finding(&report, matrix::GPU_POWER_LIMIT)
        .iter()
        .all(|finding| finding.status == DiscoveryStatus::PresentButUnsupported));
}

#[test]
fn partial_and_unreadable_interfaces_are_classified_without_aborting() {
    let fixture = base_fixture(
        "fixture",
        "denied interface host",
        &[1024, 1024, 1024, 1024],
    );
    let denied_paths = [
        "devices/system/cpu/cpufreq/policy0/scaling_available_governors",
        "devices/system/cpu/cpufreq/policy0/scaling_governor",
    ]
    .into_iter()
    .map(|value| RelativePath::new(value).expect("valid denied path"))
    .collect();
    let denied_sysfs = DeniedFixture {
        inner: fixture.sysfs,
        denied: denied_paths,
    };
    let sources = DiscoverySources::new(&denied_sysfs, &fixture.procfs)
        .with_cgroup(fixture.cgroup.as_ref().expect("base cgroup"));
    let report = CapabilityDiscovery::new(sources)
        .discover(&FixedClock::new(Timestamp::from_unix_millis(15)))
        .expect("unreadable optional interface is nonfatal");
    assert!(finding(&report, matrix::CPU_POLICY_GOVERNOR)
        .iter()
        .any(|finding| finding.status == DiscoveryStatus::PermissionDenied));
    assert!(report
        .findings
        .iter()
        .all(|finding| !finding.evidence.is_empty()));
    assert!(report
        .inventory
        .capabilities
        .iter()
        .all(|descriptor| descriptor.state != CapabilityState::Available));
}

#[test]
fn rows_are_ordered_and_no_operation_is_offered() {
    let fixture = base_fixture("fixture", "ordered host", &[1024, 1024, 1024, 1024]);
    let report = CapabilityDiscovery::new(fixture.sources())
        .discover(&FixedClock::new(Timestamp::from_unix_millis(1)))
        .expect("fixture discovery succeeds");
    for pair in report.findings.windows(2) {
        assert!(pair[0].id.as_str() <= pair[1].id.as_str());
    }
    assert!(!report.inventory.capabilities.is_empty());
    for capability in &report.inventory.capabilities {
        assert_ne!(capability.state, CapabilityState::Available);
    }
}

#[test]
fn discovered_topologies_can_be_planned_on() {
    let mut fixture = base_fixture("fixture", "hybrid host", &[1024, 1024, 512, 512]);
    for (cpu, siblings) in ["0-1\n", "0-1\n", "2-3\n", "2-3\n"].iter().enumerate() {
        let path = format!("devices/system/cpu/cpu{cpu}/topology/thread_siblings_list");
        seed(&mut fixture.sysfs, &path, siblings);
    }
    let report = CapabilityDiscovery::new(fixture.sources()).report(Timestamp::from_unix_millis(1));
    let topology = CpuTopology::from_discovery(&report).expect("complete evidence");
    assert_eq!(topology.online().expect("known").as_slice(), &[0, 1, 2, 3]);
    assert_eq!(topology.capacity_mode(), CpuCapacityMode::HeterogeneousProven);
}

struct StoppedClock;

impl Clock for StoppedClock {
    fn now(&self) -> Result<Timestamp, SysboostError> {
        Err(SysboostError::new(ErrorCode::InvariantViolation, "no time"))
    }
}

#[test]
fn discovery_needs_the_time() {
    let fixture = minimal_fixture();
    let error = CapabilityDiscovery::new(fixture.sources())
        .discover(&StoppedClock)
        .expect_err("the clock failed");
    assert_eq!(error.message, "no time");
}

#[test]
fn the_first_processor_names_the_host() {
    let mut procfs = FixtureFilesystem::new();
    seed(
        &mut procfs,
        "cpuinfo",
        "processor\t: 0\nvendor_id\t: VendorA\nmodel name\t: Model A\n\n\
         processor\t: 1\nvendor_id\t: VendorB\nmodel name\t: Model B\n",
    );
    let (facts, _) = detect_environment(&procfs);
    assert_eq!(facts.cpu_vendor.as_deref(), Some("VendorA"));
    assert_eq!(facts.cpu_model.as_deref(), Some("Model A"));
    assert_eq!(facts.cpu_count, 2);
    assert_eq!(first_value_for_key("a: 1\nb: 2\na: 3\n", "a").as_deref(), Some("1"));
    assert_eq!(first_value_for_key("a: 1\n", "c"), None);
}

#[test]
fn of_repeated_keys_the_last_counts() {
    assert_eq!(value_for_key("A=1\nA=2\n", "A").as_deref(), Some("2"));
    assert_eq!(number_for_key("SwapTotal: 1 kB\nSwapTotal: 2 kB\n", "SwapTotal"), Some(2));
    let mut procfs = FixtureFilesystem::new();
    seed(&mut procfs, "cpuinfo", "Architecture: old\nArchitecture: new\nmodel name: A\n");
    let (facts, _) = detect_environment(&procfs);
    assert_eq!(facts.architecture.as_deref(), Some("new"));
    assert_eq!(value_for_key("a: 1\n", "c"), None);
}

#[test]
fn files_of_a_policy_that_cannot_be_read_are_named() {
    let mut sysfs = FixtureFilesystem::new();
    seed(&mut sysfs, "devices/system/cpu/cpufreq/policy0/scaling_governor", "schedutil\n");
    let (facts, _) = detect_cpufreq(&sysfs);
    let failures = &facts.policies[0].read_failures;
    for file in ["scaling_min_freq", "scaling_max_freq", "scaling_cur_freq"] {
        assert!(failures.iter().any(|failure| failure == file), "{file} is missing");
    }
    assert!(!failures.iter().any(|failure| failure == "scaling_governor"));
}

#[test]
fn nodes_say_how_much_memory_they_have() {
    let mut sysfs = FixtureFilesystem::new();
    seed(&mut sysfs, "devices/system/node/node0/cpulist", "0-3\n");
    seed(
        &mut sysfs,
        "devices/system/node/node0/meminfo",
        "Node 0 MemTotal:       16384 kB\nNode 0 MemFree:        1024 kB\n",
    );
    seed(&mut sysfs, "devices/system/node/node2/cpulist", "4-7\n");
    seed(&mut sysfs, "devices/system/node/node2/meminfo", "Node 0 MemTotal: 1 kB\n");
    let (facts, _) = detect_numa(&sysfs);
    assert_eq!(facts.nodes.len(), 2);
    assert_eq!((facts.nodes[0].id, facts.nodes[0].memory_total_kb), (0, Some(16384)));
    assert_eq!(facts.nodes[0].cpus.as_deref(), Some("0-3"));
    assert_eq!((facts.nodes[1].id, facts.nodes[1].memory_total_kb), (2, None));
}

#[test]
fn the_two_readers_of_cpu_lists_agree() {
    for list in ["0-3", "0,2,4-6", "7"] {
        let cpus = parse_cpu_list(list).expect("a CPU list");
        for cpu in 0..9 {
            assert_eq!(
                range_contains(list, cpu),
                cpus.as_slice().contains(&cpu),
                "{cpu} in {list}"
            );
        }
    }
}
