//! The names of the rows of the capability matrix.

use vstd::prelude::*;

verus! {

pub const KERNEL_ENVIRONMENT: &'static str = "environment.kernel";

pub const CPU_TOPOLOGY: &'static str = "cpu.topology";

pub const CPU_CAPACITY: &'static str = "cpu.capacity";

pub const NUMA_TOPOLOGY: &'static str = "memory.numa";

pub const CGROUP_V2: &'static str = "cgroup.v2";

pub const CGROUP_UCLAMP: &'static str = "cgroup.uclamp";

pub const CPU_BOOST: &'static str = "cpu.policy.boost";

pub const PLATFORM_PROFILE: &'static str = "platform.profile";

pub const GPU_DEVICE: &'static str = "gpu.device";

pub const IRQ_METADATA: &'static str = "irq.metadata";

pub const THP: &'static str = "memory.thp";

pub const SWAP: &'static str = "memory.swap";

pub const ZRAM: &'static str = "memory.zram";

pub const ZSWAP: &'static str = "memory.zswap";

pub const SCHEDULER: &'static str = "scheduler.facilities";

pub const SYSTEMD: &'static str = "service.systemd";

pub const CPU_POLICY_FREQUENCY_MIN: &'static str = "cpu.policy.frequency.min";

pub const CPU_POLICY_FREQUENCY_MAX: &'static str = "cpu.policy.frequency.max";

pub const CPU_POLICY_GOVERNOR: &'static str = "cpu.policy.governor";

pub const CPU_POLICY_ENERGY_PREFERENCE: &'static str = "cpu.policy.energy_preference";

pub const CGROUP_CPU_WEIGHT: &'static str = "cgroup.cpu.weight";

pub const CGROUP_CPU_MAX: &'static str = "cgroup.cpu.max";

pub const CGROUP_CPUSET_CPUS: &'static str = "cgroup.cpuset.cpus";

pub const GPU_PERFORMANCE_PROFILE: &'static str = "gpu.performance_profile";

pub const GPU_POWER_LIMIT: &'static str = "gpu.power_limit";

pub const IRQ_AFFINITY: &'static str = "irq.affinity";

/// No name is empty.
pub proof fn names_are_not_empty()
    ensures
        KERNEL_ENVIRONMENT@.len() > 0,
        CPU_TOPOLOGY@.len() > 0,
        CPU_CAPACITY@.len() > 0,
        NUMA_TOPOLOGY@.len() > 0,
        CGROUP_V2@.len() > 0,
        CGROUP_UCLAMP@.len() > 0,
        CPU_BOOST@.len() > 0,
        PLATFORM_PROFILE@.len() > 0,
        GPU_DEVICE@.len() > 0,
        IRQ_METADATA@.len() > 0,
        THP@.len() > 0,
        SWAP@.len() > 0,
        ZRAM@.len() > 0,
        ZSWAP@.len() > 0,
        SCHEDULER@.len() > 0,
        SYSTEMD@.len() > 0,
        CPU_POLICY_FREQUENCY_MIN@.len() > 0,
        CPU_POLICY_FREQUENCY_MAX@.len() > 0,
        CPU_POLICY_GOVERNOR@.len() > 0,
        CPU_POLICY_ENERGY_PREFERENCE@.len() > 0,
        CGROUP_CPU_WEIGHT@.len() > 0,
        CGROUP_CPU_MAX@.len() > 0,
        CGROUP_CPUSET_CPUS@.len() > 0,
        GPU_PERFORMANCE_PROFILE@.len() > 0,
        GPU_POWER_LIMIT@.len() > 0,
        IRQ_AFFINITY@.len() > 0,
{
    reveal_strlit("environment.kernel");
    reveal_strlit("cpu.topology");
    reveal_strlit("cpu.capacity");
    reveal_strlit("memory.numa");
    reveal_strlit("cgroup.v2");
    reveal_strlit("cgroup.uclamp");
    reveal_strlit("cpu.policy.boost");
    reveal_strlit("platform.profile");
    reveal_strlit("gpu.device");
    reveal_strlit("irq.metadata");
    reveal_strlit("memory.thp");
    reveal_strlit("memory.swap");
    reveal_strlit("memory.zram");
    reveal_strlit("memory.zswap");
    reveal_strlit("scheduler.facilities");
    reveal_strlit("service.systemd");
    reveal_strlit("cpu.policy.frequency.min");
    reveal_strlit("cpu.policy.frequency.max");
    reveal_strlit("cpu.policy.governor");
    reveal_strlit("cpu.policy.energy_preference");
    reveal_strlit("cgroup.cpu.weight");
    reveal_strlit("cgroup.cpu.max");
    reveal_strlit("cgroup.cpuset.cpus");
    reveal_strlit("gpu.performance_profile");
    reveal_strlit("gpu.power_limit");
    reveal_strlit("irq.affinity");
}

} // verus!
