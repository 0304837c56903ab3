//! What was observed of a host, as plain values.

use vstd::prelude::*;

use crate::filesystem::EntryKind;
use crate::nodes::CgroupVersion;
use crate::probe;
use crate::text;

verus! {

/// One logical CPU as the kernel describes it.
#[derive(Debug, PartialEq, Eq)]
pub struct CpuTopologyEntry {
    /// Logical CPU number.
    pub cpu: u32,
    /// Physical package, when exposed.
    pub package_id: Option<u32>,
    /// Physical core, when exposed.
    pub core_id: Option<u32>,
    /// CPU list of the thread siblings, when exposed.
    pub thread_siblings: Option<String>,
    /// Relative capacity, when exposed.
    pub capacity: Option<u64>,
    /// Whether the CPU is online.
    pub online: bool,
}

/// CPU topology as the kernel describes it.
#[derive(Debug, PartialEq, Eq)]
pub struct CpuTopologyFacts {
    /// CPU list of the possible CPUs, when exposed.
    pub possible: Option<String>,
    /// CPU list of the online CPUs, when exposed.
    pub online: Option<String>,
    /// The CPUs that have a record of their own.
    pub entries: Vec<CpuTopologyEntry>,
    /// Whether different capacities were seen.
    pub heterogeneous: bool,
}

/// One NUMA node.
#[derive(Debug, PartialEq, Eq)]
pub struct NumaNodeFacts {
    /// Node number.
    pub id: u32,
    /// CPU list of the node, when exposed.
    pub cpus: Option<String>,
    /// Memory of the node in kibibytes, when exposed.
    pub memory_total_kb: Option<u64>,
}

/// The NUMA nodes of the host.
#[derive(Debug, PartialEq, Eq)]
pub struct NumaFacts {
    pub nodes: Vec<NumaNodeFacts>,
}

/// The kernel and what runs on it.
#[derive(Debug, PartialEq, Eq)]
pub struct EnvironmentFacts {
    pub kernel_release: Option<String>,
    pub kernel_version: Option<String>,
    pub architecture: Option<String>,
    /// The first vendor that is named, for information; nothing is decided by it.
    pub cpu_vendor: Option<String>,
    /// The first model that is named, for information; nothing is decided by it.
    pub cpu_model: Option<String>,
    pub cpu_count: usize,
    pub init_name: Option<String>,
    /// Whether the host looks like a container.
    pub container_hint: bool,
    pub container_evidence: Vec<String>,
}

/// The kernel and what runs on it, as plain values.
#[verifier::ext_equal]
pub struct EnvironmentView {
    pub kernel_release: Option<Seq<char>>,
    pub kernel_version: Option<Seq<char>>,
    pub architecture: Option<Seq<char>>,
    pub cpu_vendor: Option<Seq<char>>,
    pub cpu_model: Option<Seq<char>>,
    pub cpu_count: usize,
    pub init_name: Option<Seq<char>>,
    pub container_hint: bool,
    pub container_evidence: Seq<Seq<char>>,
}

impl View for EnvironmentFacts {
    type V = EnvironmentView;

    open spec fn view(&self) -> EnvironmentView {
        EnvironmentView {
            kernel_release: probe::text_option(self.kernel_release),
            kernel_version: probe::text_option(self.kernel_version),
            architecture: probe::text_option(self.architecture),
            cpu_vendor: probe::text_option(self.cpu_vendor),
            cpu_model: probe::text_option(self.cpu_model),
            cpu_count: self.cpu_count,
            init_name: probe::text_option(self.init_name),
            container_hint: self.container_hint,
            container_evidence: text::deep(self.container_evidence@),
        }
    }
}

/// One frequency policy.
#[derive(Debug, PartialEq, Eq)]
pub struct CpuFreqPolicyFacts {
    pub id: u32,
    pub related_cpus: Option<String>,
    pub driver: Option<String>,
    pub available_governors: Vec<String>,
    pub current_governor: Option<String>,
    pub energy_performance_preference: Option<String>,
    pub energy_performance_choices: Vec<String>,
    pub min_khz: Option<u64>,
    pub max_khz: Option<u64>,
    pub current_khz: Option<u64>,
    /// The files that could not be read or understood.
    pub read_failures: Vec<String>,
}

/// One frequency policy, as plain values.
#[verifier::ext_equal]
pub struct CpuFreqPolicyView {
    pub id: u32,
    pub related_cpus: Option<Seq<char>>,
    pub driver: Option<Seq<char>>,
    pub available_governors: Seq<Seq<char>>,
    pub current_governor: Option<Seq<char>>,
    pub energy_performance_preference: Option<Seq<char>>,
    pub energy_performance_choices: Seq<Seq<char>>,
    pub min_khz: Option<nat>,
    pub max_khz: Option<nat>,
    pub current_khz: Option<nat>,
    pub read_failures: Seq<Seq<char>>,
}

impl View for CpuFreqPolicyFacts {
    type V = CpuFreqPolicyView;

    open spec fn view(&self) -> CpuFreqPolicyView {
        CpuFreqPolicyView {
            id: self.id,
            related_cpus: probe::text_option(self.related_cpus),
            driver: probe::text_option(self.driver),
            available_governors: text::deep(self.available_governors@),
            current_governor: probe::text_option(self.current_governor),
            energy_performance_preference: probe::text_option(self.energy_performance_preference),
            energy_performance_choices: text::deep(self.energy_performance_choices@),
            min_khz: probe::number_option(self.min_khz),
            max_khz: probe::number_option(self.max_khz),
            current_khz: probe::number_option(self.current_khz),
            read_failures: text::deep(self.read_failures@),
        }
    }
}

/// The frequency policies and what goes with them.
#[derive(Debug, PartialEq, Eq)]
pub struct CpuFreqFacts {
    pub policies: Vec<CpuFreqPolicyFacts>,
    pub boost: Option<String>,
    pub platform_profile: Option<String>,
    pub platform_profile_choices: Vec<String>,
}

/// The frequency policies and what goes with them, as plain values.
#[verifier::ext_equal]
pub struct CpuFreqView {
    pub policies: Seq<CpuFreqPolicyView>,
    pub boost: Option<Seq<char>>,
    pub platform_profile: Option<Seq<char>>,
    pub platform_profile_choices: Seq<Seq<char>>,
}

impl View for CpuFreqFacts {
    type V = CpuFreqView;

    open spec fn view(&self) -> CpuFreqView {
        CpuFreqView {
            policies: self.policies@.map_values(|p: CpuFreqPolicyFacts| p@),
            boost: probe::text_option(self.boost),
            platform_profile: probe::text_option(self.platform_profile),
            platform_profile_choices: text::deep(self.platform_profile_choices@),
        }
    }
}

/// The control groups of the host.
#[derive(Debug, PartialEq, Eq)]
pub struct CgroupFacts {
    pub version: Option<CgroupVersion>,
    pub controllers: Vec<String>,
    pub enabled_controllers: Vec<String>,
    pub cpu_weight: Option<String>,
    pub cpu_max: Option<String>,
    pub cpuset_cpus: Option<String>,
    pub uclamp_min: Option<String>,
    pub uclamp_max: Option<String>,
    /// The group of the reading process.
    pub membership: Option<String>,
}

/// The control groups of the host, as plain values.
#[verifier::ext_equal]
pub struct CgroupView {
    pub version: Option<CgroupVersion>,
    pub controllers: Seq<Seq<char>>,
    pub enabled_controllers: Seq<Seq<char>>,
    pub cpu_weight: Option<Seq<char>>,
    pub cpu_max: Option<Seq<char>>,
    pub cpuset_cpus: Option<Seq<char>>,
    pub uclamp_min: Option<Seq<char>>,
    pub uclamp_max: Option<Seq<char>>,
    pub membership: Option<Seq<char>>,
}

impl View for CgroupFacts {
    type V = CgroupView;

    open spec fn view(&self) -> CgroupView {
        CgroupView {
            version: self.version,
            controllers: text::deep(self.controllers@),
            enabled_controllers: text::deep(self.enabled_controllers@),
            cpu_weight: probe::text_option(self.cpu_weight),
            cpu_max: probe::text_option(self.cpu_max),
            cpuset_cpus: probe::text_option(self.cpuset_cpus),
            uclamp_min: probe::text_option(self.uclamp_min),
            uclamp_max: probe::text_option(self.uclamp_max),
            membership: probe::text_option(self.membership),
        }
    }
}

/// One graphics device.
#[derive(Debug, PartialEq, Eq)]
pub struct GpuDeviceFacts {
    pub name: String,
    pub vendor: Option<String>,
    pub device: Option<String>,
    pub class: Option<String>,
    pub driver: Option<String>,
    pub entry_kind: EntryKind,
}

/// One graphics device, as plain values.
#[verifier::ext_equal]
pub struct GpuDeviceView {
    pub name: Seq<char>,
    pub vendor: Option<Seq<char>>,
    pub device: Option<Seq<char>>,
    pub class: Option<Seq<char>>,
    pub driver: Option<Seq<char>>,
    pub entry_kind: EntryKind,
}

impl View for GpuDeviceFacts {
    type V = GpuDeviceView;

    open spec fn view(&self) -> GpuDeviceView {
        GpuDeviceView {
            name: self.name@,
            vendor: probe::text_option(self.vendor),
            device: probe::text_option(self.device),
            class: probe::text_option(self.class),
            driver: probe::text_option(self.driver),
            entry_kind: self.entry_kind,
        }
    }
}

/// The graphics devices of the host.
#[derive(Debug, PartialEq, Eq)]
pub struct GpuFacts {
    pub devices: Vec<GpuDeviceFacts>,
}

/// The graphics devices of the host, as plain values.
#[verifier::ext_equal]
pub struct GpuView {
    pub devices: Seq<GpuDeviceView>,
}

impl View for GpuFacts {
    type V = GpuView;

    open spec fn view(&self) -> GpuView {
        GpuView {
            devices: self.devices@.map_values(|d: GpuDeviceFacts| d@),
        }
    }
}

/// One interrupt.
#[derive(Debug, PartialEq, Eq)]
pub struct IrqEntryFacts {
    pub irq: u32,
    pub affinity: Option<String>,
    pub effective_affinity: Option<String>,
}

/// One interrupt, as plain values.
#[verifier::ext_equal]
pub struct IrqEntryView {
    pub irq: u32,
    pub affinity: Option<Seq<char>>,
    pub effective_affinity: Option<Seq<char>>,
}

impl View for IrqEntryFacts {
    type V = IrqEntryView;

    open spec fn view(&self) -> IrqEntryView {
        IrqEntryView {
            irq: self.irq,
            affinity: probe::text_option(self.affinity),
            effective_affinity: probe::text_option(self.effective_affinity),
        }
    }
}

/// The interrupts of the host.
#[derive(Debug, PartialEq, Eq)]
pub struct IrqFacts {
    pub default_affinity: Option<String>,
    pub entries: Vec<IrqEntryFacts>,
}

/// The interrupts of the host, as plain values.
#[verifier::ext_equal]
pub struct IrqView {
    pub default_affinity: Option<Seq<char>>,
    pub entries: Seq<IrqEntryView>,
}

impl View for IrqFacts {
    type V = IrqView;

    open spec fn view(&self) -> IrqView {
        IrqView {
            default_affinity: probe::text_option(self.default_affinity),
            entries: self.entries@.map_values(|e: IrqEntryFacts| e@),
        }
    }
}

/// Memory, swap and compression.
#[derive(Debug, PartialEq, Eq)]
pub struct MemoryFacts {
    pub thp_enabled: Option<String>,
    pub thp_defrag: Option<String>,
    pub swap_total_kb: Option<u64>,
    pub swap_free_kb: Option<u64>,
    pub active_swap_entries: usize,
    pub zram_devices: Vec<String>,
    pub zswap_enabled: Option<String>,
    pub zswap_compressor: Option<String>,
    pub zswap_zpool: Option<String>,
}

/// Memory, swap and compression, as plain values.
#[verifier::ext_equal]
pub struct MemoryView {
    pub thp_enabled: Option<Seq<char>>,
    pub thp_defrag: Option<Seq<char>>,
    pub swap_total_kb: Option<nat>,
    pub swap_free_kb: Option<nat>,
    pub active_swap_entries: usize,
    pub zram_devices: Seq<Seq<char>>,
    pub zswap_enabled: Option<Seq<char>>,
    pub zswap_compressor: Option<Seq<char>>,
    pub zswap_zpool: Option<Seq<char>>,
}

impl View for MemoryFacts {
    type V = MemoryView;

    open spec fn view(&self) -> MemoryView {
        MemoryView {
            thp_enabled: probe::text_option(self.thp_enabled),
            thp_defrag: probe::text_option(self.thp_defrag),
            swap_total_kb: probe::number_option(self.swap_total_kb),
            swap_free_kb: probe::number_option(self.swap_free_kb),
            active_swap_entries: self.active_swap_entries,
            zram_devices: text::deep(self.zram_devices@),
            zswap_enabled: probe::text_option(self.zswap_enabled),
            zswap_compressor: probe::text_option(self.zswap_compressor),
            zswap_zpool: probe::text_option(self.zswap_zpool),
        }
    }
}

/// What the scheduler exposes.
#[derive(Debug, PartialEq, Eq)]
pub struct SchedulerFacts {
    pub facilities: Vec<String>,
    pub cpu_pressure: bool,
    pub uclamp_min: Option<String>,
    pub uclamp_max: Option<String>,
    pub numa_balancing: Option<String>,
    pub energy_aware: Option<String>,
}

/// What the scheduler exposes, as plain values.
#[verifier::ext_equal]
pub struct SchedulerView {
    pub facilities: Seq<Seq<char>>,
    pub cpu_pressure: bool,
    pub uclamp_min: Option<Seq<char>>,
    pub uclamp_max: Option<Seq<char>>,
    pub numa_balancing: Option<Seq<char>>,
    pub energy_aware: Option<Seq<char>>,
}

impl View for SchedulerFacts {
    type V = SchedulerView;

    open spec fn view(&self) -> SchedulerView {
        SchedulerView {
            facilities: text::deep(self.facilities@),
            cpu_pressure: self.cpu_pressure,
            uclamp_min: probe::text_option(self.uclamp_min),
            uclamp_max: probe::text_option(self.uclamp_max),
            numa_balancing: probe::text_option(self.numa_balancing),
            energy_aware: probe::text_option(self.energy_aware),
        }
    }
}

/// Whether systemd runs.
#[derive(Debug, PartialEq, Eq)]
pub struct SystemdFacts {
    pub present: bool,
    pub evidence: Vec<String>,
}

/// Whether systemd runs, as plain values.
#[verifier::ext_equal]
pub struct SystemdView {
    pub present: bool,
    pub evidence: Seq<Seq<char>>,
}

impl View for SystemdFacts {
    type V = SystemdView;

    open spec fn view(&self) -> SystemdView {
        SystemdView {
            present: self.present,
            evidence: text::deep(self.evidence@),
        }
    }
}

/// One logical CPU, as plain values.
#[verifier::ext_equal]
pub struct CpuTopologyEntryView {
    pub cpu: u32,
    pub package_id: Option<nat>,
    pub core_id: Option<nat>,
    pub thread_siblings: Option<Seq<char>>,
    pub capacity: Option<nat>,
    pub online: bool,
}

pub open spec fn small_number(value: Option<u32>) -> Option<nat> {
    match value {
        Some(n) => Some(n as nat),
        None => None,
    }
}

impl View for CpuTopologyEntry {
    type V = CpuTopologyEntryView;

    open spec fn view(&self) -> CpuTopologyEntryView {
        CpuTopologyEntryView {
            cpu: self.cpu,
            package_id: small_number(self.package_id),
            core_id: small_number(self.core_id),
            thread_siblings: probe::text_option(self.thread_siblings),
            capacity: probe::number_option(self.capacity),
            online: self.online,
        }
    }
}

/// CPU topology, as plain values.
#[verifier::ext_equal]
pub struct CpuTopologyView {
    pub possible: Option<Seq<char>>,
    pub online: Option<Seq<char>>,
    pub entries: Seq<CpuTopologyEntryView>,
    pub heterogeneous: bool,
}

impl View for CpuTopologyFacts {
    type V = CpuTopologyView;

    open spec fn view(&self) -> CpuTopologyView {
        CpuTopologyView {
            possible: probe::text_option(self.possible),
            online: probe::text_option(self.online),
            entries: self.entries@.map_values(|e: CpuTopologyEntry| e@),
            heterogeneous: self.heterogeneous,
        }
    }
}

/// One NUMA node, as plain values.
#[verifier::ext_equal]
pub struct NumaNodeView {
    pub id: u32,
    pub cpus: Option<Seq<char>>,
    pub memory_total_kb: Option<nat>,
}

impl View for NumaNodeFacts {
    type V = NumaNodeView;

    open spec fn view(&self) -> NumaNodeView {
        NumaNodeView {
            id: self.id,
            cpus: probe::text_option(self.cpus),
            memory_total_kb: probe::number_option(self.memory_total_kb),
        }
    }
}

/// The NUMA nodes of the host, as plain values.
#[verifier::ext_equal]
pub struct NumaView {
    pub nodes: Seq<NumaNodeView>,
}

impl View for NumaFacts {
    type V = NumaView;

    open spec fn view(&self) -> NumaView {
        NumaView { nodes: self.nodes@.map_values(|n: NumaNodeFacts| n@) }
    }
}

} // verus!
