//! What a host holds is what is reported of it.
//!
//! Every law goes from a file, by its path and the line in it, to the field of the
//! report that stands for it.

use vstd::prelude::*;

use crate::clock::Timestamp;
use crate::cpuset;
use crate::discover_cpu;
use crate::discovery;
use crate::discovery::DiscoverySources;
use crate::error::ErrorCode;
use crate::filesystem;
use crate::filesystem::{EntryKind, ReadOnlyFileSystem};
use crate::probe;
use crate::probe::{DiscoveryStatus, Probe};
use crate::text;

verus! {

/// Whether a file holds one line with this text, which has no white space around
/// it.
pub open spec fn holds<F: ReadOnlyFileSystem>(tree: &F, path: Seq<char>, line: Seq<char>) -> bool {
    &&& filesystem::path_fault(path) is None
    &&& tree.file(path) == Ok::<Seq<u8>, crate::error::ErrorView>(
        vstd::utf8::encode_utf8(line.push('\n')),
    )
    &&& vstd::utf8::encode_utf8(line.push('\n')).len() <= 1_048_576
    &&& line.len() > 0
    &&& !text::is_space(line[0])
    &&& !text::is_space(line.last())
}

/// Whether a file cannot be read.
pub open spec fn lacks<F: ReadOnlyFileSystem>(tree: &F, path: Seq<char>) -> bool {
    tree.file(path) is Err
}

/// A field is what a file holds, and is missing where the file cannot be read.
pub open spec fn mirrors<F: ReadOnlyFileSystem>(
    tree: &F,
    path: Seq<char>,
    field: Option<Seq<char>>,
) -> bool {
    &&& forall|line: Seq<char>| #[trigger] holds(tree, path, line) ==> field == Some(line)
    &&& lacks(tree, path) ==> field is None
}

/// A field is the number that a file holds, and is missing where the file cannot be
/// read.
pub open spec fn counts<F: ReadOnlyFileSystem>(
    tree: &F,
    path: Seq<char>,
    most: nat,
    field: Option<nat>,
) -> bool {
    &&& forall|n: nat|
        n <= most && holds(tree, path, #[trigger] text::decimal_spec(n)) ==> field == Some(n)
    &&& lacks(tree, path) ==> field is None
}

/// Whether a directory can be listed and has these entries.
pub open spec fn lists<F: ReadOnlyFileSystem>(
    tree: &F,
    path: Seq<char>,
    entries: Seq<(Seq<char>, EntryKind)>,
) -> bool {
    &&& filesystem::path_fault(path) is None
    &&& tree.directory(Some(path)) == Ok::<Seq<(Seq<char>, EntryKind)>, crate::error::ErrorView>(
        entries,
    )
}

proof fn lemma_text<F: ReadOnlyFileSystem>(tree: &F, path: Seq<char>)
    ensures
        mirrors(tree, path, probe::value_of(probe::text_at(tree, path))),
        forall|line: Seq<char>| #[trigger]
            holds(tree, path, line) ==> probe::text_at(tree, path) == Probe::Present(line),
        lacks(tree, path) ==> !(probe::text_at(tree, path) is Present),
{
    assert forall|line: Seq<char>| #[trigger] holds(tree, path, line) implies probe::text_at(
        tree,
        path,
    ) == Probe::Present(line) by {
        text::lemma_trim_line(line);
    }
}

proof fn lemma_number<F: ReadOnlyFileSystem>(tree: &F, path: Seq<char>, most: nat)
    ensures
        counts(
            tree,
            path,
            most,
            probe::value_of(probe::number_found(probe::text_at(tree, path), most)),
        ),
{
    lemma_text(tree, path);
    assert forall|n: nat|
        n <= most && holds(tree, path, #[trigger] text::decimal_spec(n)) implies probe::value_of(
        probe::number_found(probe::text_at(tree, path), most),
    ) == Some(n) by {
        text::decimal_round_trip(n, most);
    }
}

/// What is reported of a frequency policy is what the files in its directory hold:
/// its floor is the number in `scaling_min_freq`, its ceiling the number in
/// `scaling_max_freq`, and its frequency the number in `scaling_cur_freq`.
pub proof fn policies_are_reported_as_their_files_say<
    S: ReadOnlyFileSystem,
    P: ReadOnlyFileSystem,
    C: ReadOnlyFileSystem,
    R: ReadOnlyFileSystem,
>(sources: &DiscoverySources<'_, S, P, C, R>, time: Timestamp, i: int)
    requires
        0 <= i < discovery::report_at(sources, time).cpufreq.policies.len(),
    ensures
        ({
            let policy = discovery::report_at(sources, time).cpufreq.policies[i];
            let directory = "devices/system/cpu/cpufreq/policy"@ + text::decimal_spec(
                policy.id as nat,
            );
            &&& counts(
                sources.sysfs,
                directory + "/scaling_min_freq"@,
                u64::MAX as nat,
                policy.min_khz,
            )
            &&& counts(
                sources.sysfs,
                directory + "/scaling_max_freq"@,
                u64::MAX as nat,
                policy.max_khz,
            )
            &&& counts(
                sources.sysfs,
                directory + "/scaling_cur_freq"@,
                u64::MAX as nat,
                policy.current_khz,
            )
            &&& mirrors(sources.sysfs, directory + "/related_cpus"@, policy.related_cpus)
            &&& mirrors(sources.sysfs, directory + "/scaling_driver"@, policy.driver)
            &&& mirrors(sources.sysfs, directory + "/scaling_governor"@, policy.current_governor)
            &&& mirrors(
                sources.sysfs,
                directory + "/energy_performance_preference"@,
                policy.energy_performance_preference,
            )
        }),
{
    let policy = discovery::report_at(sources, time).cpufreq.policies[i];
    let directory = "devices/system/cpu/cpufreq/policy"@ + text::decimal_spec(policy.id as nat);
    lemma_number(sources.sysfs, directory + "/scaling_min_freq"@, u64::MAX as nat);
    lemma_number(sources.sysfs, directory + "/scaling_max_freq"@, u64::MAX as nat);
    lemma_number(sources.sysfs, directory + "/scaling_cur_freq"@, u64::MAX as nat);
    lemma_text(sources.sysfs, directory + "/related_cpus"@);
    lemma_text(sources.sysfs, directory + "/scaling_driver"@);
    lemma_text(sources.sysfs, directory + "/scaling_governor"@);
    lemma_text(sources.sysfs, directory + "/energy_performance_preference"@);
}

/// Where the floor that a policy's file holds is no higher than its ceiling, the
/// floor that is reported is no higher than the ceiling that is reported.
pub proof fn reported_limits_do_not_cross<
    S: ReadOnlyFileSystem,
    P: ReadOnlyFileSystem,
    C: ReadOnlyFileSystem,
    R: ReadOnlyFileSystem,
>(
    sources: &DiscoverySources<'_, S, P, C, R>,
    time: Timestamp,
    i: int,
    floor: nat,
    ceiling: nat,
)
    requires
        0 <= i < discovery::report_at(sources, time).cpufreq.policies.len(),
        floor <= ceiling <= u64::MAX,
        ({
            let policy = discovery::report_at(sources, time).cpufreq.policies[i];
            let directory = "devices/system/cpu/cpufreq/policy"@ + text::decimal_spec(
                policy.id as nat,
            );
            &&& holds(
                sources.sysfs,
                directory + "/scaling_min_freq"@,
                text::decimal_spec(floor),
            )
            &&& holds(
                sources.sysfs,
                directory + "/scaling_max_freq"@,
                text::decimal_spec(ceiling),
            )
        }),
    ensures
        ({
            let policy = discovery::report_at(sources, time).cpufreq.policies[i];
            &&& policy.min_khz == Some(floor)
            &&& policy.max_khz == Some(ceiling)
            &&& policy.min_khz->0 <= policy.max_khz->0
        }),
{
    policies_are_reported_as_their_files_say(sources, time, i);
}

/// What may be chosen for a policy is the words of the files that list them, each
/// once, in order.
pub proof fn choices_are_reported_as_their_files_say<
    S: ReadOnlyFileSystem,
    P: ReadOnlyFileSystem,
    C: ReadOnlyFileSystem,
    R: ReadOnlyFileSystem,
>(
    sources: &DiscoverySources<'_, S, P, C, R>,
    time: Timestamp,
    i: int,
    line: Seq<char>,
    word: Seq<char>,
)
    requires
        0 <= i < discovery::report_at(sources, time).cpufreq.policies.len(),
    ensures
        ({
            let cpufreq = discovery::report_at(sources, time).cpufreq;
            let policy = cpufreq.policies[i];
            let directory = "devices/system/cpu/cpufreq/policy"@ + text::decimal_spec(
                policy.id as nat,
            );
            &&& holds(sources.sysfs, directory + "/scaling_available_governors"@, line) ==> (
            policy.available_governors.contains(word) <==> text::words_spec(line).contains(word))
            &&& holds(
                sources.sysfs,
                directory + "/energy_performance_available_preferences"@,
                line,
            ) ==> (policy.energy_performance_choices.contains(word) <==> text::words_spec(
                line,
            ).contains(word))
            &&& holds(sources.sysfs, "firmware/acpi/platform_profile_choices"@, line) ==> (
            cpufreq.platform_profile_choices.contains(word) <==> text::words_spec(line).contains(
                word,
            ))
        }),
{
    let policy = discovery::report_at(sources, time).cpufreq.policies[i];
    let directory = "devices/system/cpu/cpufreq/policy"@ + text::decimal_spec(policy.id as nat);
    lemma_text(sources.sysfs, directory + "/scaling_available_governors"@);
    lemma_text(sources.sysfs, directory + "/energy_performance_available_preferences"@);
    lemma_text(sources.sysfs, "firmware/acpi/platform_profile_choices"@);
    text::text_set_is_sorted_set(text::words_spec(line));
}

/// What is reported of the frequency of the host as a whole is what its files hold:
/// `boost`, or `no_turbo` where there is no such file, and the platform profile.
pub proof fn frequency_is_reported_as_its_files_say<
    S: ReadOnlyFileSystem,
    P: ReadOnlyFileSystem,
    C: ReadOnlyFileSystem,
    R: ReadOnlyFileSystem,
>(sources: &DiscoverySources<'_, S, P, C, R>, time: Timestamp)
    ensures
        ({
            let cpufreq = discovery::report_at(sources, time).cpufreq;
            &&& forall|line: Seq<char>| #[trigger]
                holds(sources.sysfs, "devices/system/cpu/cpufreq/boost"@, line) ==> cpufreq.boost
                    == Some(line)
            &&& lacks(sources.sysfs, "devices/system/cpu/cpufreq/boost"@) ==> mirrors(
                sources.sysfs,
                "devices/system/cpu/cpufreq/no_turbo"@,
                cpufreq.boost,
            )
            &&& mirrors(
                sources.sysfs,
                "firmware/acpi/platform_profile"@,
                cpufreq.platform_profile,
            )
        }),
{
    lemma_text(sources.sysfs, "devices/system/cpu/cpufreq/boost"@);
    lemma_text(sources.sysfs, "devices/system/cpu/cpufreq/no_turbo"@);
    lemma_text(sources.sysfs, "firmware/acpi/platform_profile"@);
}

/// What is reported of a CPU is what the files in its directory hold, and which CPUs
/// may be there and are in use is what the kernel lists.
pub proof fn cpus_are_reported_as_their_files_say<
    S: ReadOnlyFileSystem,
    P: ReadOnlyFileSystem,
    C: ReadOnlyFileSystem,
    R: ReadOnlyFileSystem,
>(sources: &DiscoverySources<'_, S, P, C, R>, time: Timestamp, i: int)
    ensures
        ({
            let topology = discovery::report_at(sources, time).topology;
            let cpu = topology.entries[i];
            let directory = "devices/system/cpu/cpu"@ + text::decimal_spec(cpu.cpu as nat);
            &&& mirrors(sources.sysfs, "devices/system/cpu/possible"@, topology.possible)
            &&& mirrors(sources.sysfs, "devices/system/cpu/online"@, topology.online)
            &&& 0 <= i < topology.entries.len() ==> {
                &&& counts(
                    sources.sysfs,
                    directory + "/topology/physical_package_id"@,
                    u32::MAX as nat,
                    cpu.package_id,
                )
                &&& counts(
                    sources.sysfs,
                    directory + "/topology/core_id"@,
                    u32::MAX as nat,
                    cpu.core_id,
                )
                &&& counts(
                    sources.sysfs,
                    directory + "/cpu_capacity"@,
                    u64::MAX as nat,
                    cpu.capacity,
                )
                &&& mirrors(
                    sources.sysfs,
                    directory + "/topology/thread_siblings_list"@,
                    cpu.thread_siblings,
                )
            }
        }),
{
    let cpu = discovery::report_at(sources, time).topology.entries[i];
    let directory = "devices/system/cpu/cpu"@ + text::decimal_spec(cpu.cpu as nat);
    lemma_text(sources.sysfs, "devices/system/cpu/possible"@);
    lemma_text(sources.sysfs, "devices/system/cpu/online"@);
    lemma_number(sources.sysfs, directory + "/topology/physical_package_id"@, u32::MAX as nat);
    lemma_number(sources.sysfs, directory + "/topology/core_id"@, u32::MAX as nat);
    lemma_number(sources.sysfs, directory + "/cpu_capacity"@, u64::MAX as nat);
    lemma_text(sources.sysfs, directory + "/topology/thread_siblings_list"@);
}

/// The CPUs of a memory node are those that its file lists.
pub proof fn nodes_are_reported_as_their_files_say<
    S: ReadOnlyFileSystem,
    P: ReadOnlyFileSystem,
    C: ReadOnlyFileSystem,
    R: ReadOnlyFileSystem,
>(sources: &DiscoverySources<'_, S, P, C, R>, time: Timestamp, i: int)
    requires
        0 <= i < discovery::report_at(sources, time).numa.nodes.len(),
    ensures
        ({
            let node = discovery::report_at(sources, time).numa.nodes[i];
            mirrors(
                sources.sysfs,
                "devices/system/node/node"@ + text::decimal_spec(node.id as nat) + "/cpulist"@,
                node.cpus,
            )
        }),
{
    let node = discovery::report_at(sources, time).numa.nodes[i];
    lemma_text(
        sources.sysfs,
        "devices/system/node/node"@ + text::decimal_spec(node.id as nat) + "/cpulist"@,
    );
}

/// What is reported of a graphics device is what the files in its directory hold.
pub proof fn devices_are_reported_as_their_files_say<
    S: ReadOnlyFileSystem,
    P: ReadOnlyFileSystem,
    C: ReadOnlyFileSystem,
    R: ReadOnlyFileSystem,
>(sources: &DiscoverySources<'_, S, P, C, R>, time: Timestamp, i: int)
    requires
        0 <= i < discovery::report_at(sources, time).gpu.devices.len(),
    ensures
        ({
            let device = discovery::report_at(sources, time).gpu.devices[i];
            let directory = "class/drm/"@ + device.name;
            &&& mirrors(sources.sysfs, directory + "/device/vendor"@, device.vendor)
            &&& mirrors(sources.sysfs, directory + "/device/device"@, device.device)
            &&& mirrors(sources.sysfs, directory + "/device/class"@, device.class)
        }),
{
    let device = discovery::report_at(sources, time).gpu.devices[i];
    let directory = "class/drm/"@ + device.name;
    lemma_text(sources.sysfs, directory + "/device/vendor"@);
    lemma_text(sources.sysfs, directory + "/device/device"@);
    lemma_text(sources.sysfs, directory + "/device/class"@);
}

/// The affinity that is reported of an interrupt is the one that its files hold.
pub proof fn interrupts_are_reported_as_their_files_say<
    S: ReadOnlyFileSystem,
    P: ReadOnlyFileSystem,
    C: ReadOnlyFileSystem,
    R: ReadOnlyFileSystem,
>(sources: &DiscoverySources<'_, S, P, C, R>, time: Timestamp, i: int)
    ensures
        ({
            let irq = discovery::report_at(sources, time).irq;
            let entry = irq.entries[i];
            let directory = "irq/"@ + text::decimal_spec(entry.irq as nat);
            &&& mirrors(sources.procfs, "irq/default_smp_affinity"@, irq.default_affinity)
            &&& 0 <= i < irq.entries.len() ==> {
                &&& mirrors(sources.procfs, directory + "/smp_affinity_list"@, entry.affinity)
                &&& mirrors(
                    sources.procfs,
                    directory + "/effective_affinity_list"@,
                    entry.effective_affinity,
                )
            }
        }),
{
    let entry = discovery::report_at(sources, time).irq.entries[i];
    let directory = "irq/"@ + text::decimal_spec(entry.irq as nat);
    lemma_text(sources.procfs, "irq/default_smp_affinity"@);
    lemma_text(sources.procfs, directory + "/smp_affinity_list"@);
    lemma_text(sources.procfs, directory + "/effective_affinity_list"@);
}

/// What is reported of the memory, the scheduler and the kernel is what their files
/// hold.
pub proof fn the_system_is_reported_as_its_files_say<
    S: ReadOnlyFileSystem,
    P: ReadOnlyFileSystem,
    C: ReadOnlyFileSystem,
    R: ReadOnlyFileSystem,
>(sources: &DiscoverySources<'_, S, P, C, R>, time: Timestamp)
    ensures
        ({
            let report = discovery::report_at(sources, time);
            &&& mirrors(
                sources.sysfs,
                "kernel/mm/transparent_hugepage/enabled"@,
                report.memory.thp_enabled,
            )
            &&& mirrors(
                sources.sysfs,
                "kernel/mm/transparent_hugepage/defrag"@,
                report.memory.thp_defrag,
            )
            &&& mirrors(
                sources.sysfs,
                "module/zswap/parameters/enabled"@,
                report.memory.zswap_enabled,
            )
            &&& mirrors(
                sources.sysfs,
                "module/zswap/parameters/compressor"@,
                report.memory.zswap_compressor,
            )
            &&& mirrors(
                sources.sysfs,
                "module/zswap/parameters/zpool"@,
                report.memory.zswap_zpool,
            )
            &&& mirrors(
                sources.procfs,
                "sys/kernel/sched_util_clamp_min"@,
                report.scheduler.uclamp_min,
            )
            &&& mirrors(
                sources.procfs,
                "sys/kernel/sched_util_clamp_max"@,
                report.scheduler.uclamp_max,
            )
            &&& mirrors(
                sources.procfs,
                "sys/kernel/numa_balancing"@,
                report.scheduler.numa_balancing,
            )
            &&& mirrors(
                sources.procfs,
                "sys/kernel/sched_energy_aware"@,
                report.scheduler.energy_aware,
            )
            &&& lacks(sources.procfs, "pressure/cpu"@) ==> !report.scheduler.cpu_pressure
            &&& forall|line: Seq<char>| #[trigger]
                holds(sources.procfs, "pressure/cpu"@, line) ==> report.scheduler.cpu_pressure
            &&& mirrors(
                sources.procfs,
                "sys/kernel/osrelease"@,
                report.environment.kernel_release,
            )
            &&& mirrors(sources.procfs, "sys/kernel/version"@, report.environment.kernel_version)
            &&& mirrors(sources.procfs, "1/comm"@, report.environment.init_name)
            &&& holds(sources.procfs, "1/comm"@, "systemd"@) ==> report.systemd.present
            &&& report.systemd.present && lacks(sources.procfs, "1/comm"@) ==> sources.run is Some
                && sources.run->0.directory(Some("systemd/system"@)) is Ok
            &&& mirrors(sources.procfs, "self/cgroup"@, report.cgroup.membership)
        }),
{
    lemma_text(sources.sysfs, "kernel/mm/transparent_hugepage/enabled"@);
    lemma_text(sources.sysfs, "kernel/mm/transparent_hugepage/defrag"@);
    lemma_text(sources.sysfs, "module/zswap/parameters/enabled"@);
    lemma_text(sources.sysfs, "module/zswap/parameters/compressor"@);
    lemma_text(sources.sysfs, "module/zswap/parameters/zpool"@);
    lemma_text(sources.procfs, "sys/kernel/sched_util_clamp_min"@);
    lemma_text(sources.procfs, "sys/kernel/sched_util_clamp_max"@);
    lemma_text(sources.procfs, "sys/kernel/numa_balancing"@);
    lemma_text(sources.procfs, "sys/kernel/sched_energy_aware"@);
    lemma_text(sources.procfs, "pressure/cpu"@);
    lemma_text(sources.procfs, "sys/kernel/osrelease"@);
    lemma_text(sources.procfs, "sys/kernel/version"@);
    lemma_text(sources.procfs, "1/comm"@);
    lemma_text(sources.procfs, "self/cgroup"@);
}

/// What is reported of the control groups is what the files at the root of their
/// tree hold. The unified hierarchy is told by `cgroup.controllers`: its weight and
/// its limit stand in `cpu.weight` and `cpu.max`. The older one is told by
/// `cpu.shares` and `cpu.cfs_quota_us`, which are its weight and its limit.
pub proof fn groups_are_reported_as_their_files_say<
    S: ReadOnlyFileSystem,
    P: ReadOnlyFileSystem,
    C: ReadOnlyFileSystem,
    R: ReadOnlyFileSystem,
>(sources: &DiscoverySources<'_, S, P, C, R>, time: Timestamp, line: Seq<char>)
    requires
        sources.cgroup is Some,
    ensures
        ({
            let tree = sources.cgroup->0;
            let group = discovery::report_at(sources, time).cgroup;
            &&& mirrors(tree, "cpuset.cpus"@, group.cpuset_cpus)
            &&& mirrors(tree, "cpu.uclamp.min"@, group.uclamp_min)
            &&& mirrors(tree, "cpu.uclamp.max"@, group.uclamp_max)
            &&& holds(tree, "cgroup.controllers"@, line) ==> {
                &&& group.version == Some(crate::nodes::CgroupVersion::V2)
                &&& mirrors(tree, "cpu.weight"@, group.cpu_weight)
                &&& mirrors(tree, "cpu.max"@, group.cpu_max)
                &&& forall|word: Seq<char>| #[trigger]
                    group.controllers.contains(word) <==> text::words_spec(line).contains(word)
            }
            &&& holds(tree, "cgroup.subtree_control"@, line) ==> forall|word: Seq<char>|
             #[trigger]
                group.enabled_controllers.contains(word) <==> text::words_spec(line).contains(word)
            &&& lacks(tree, "cgroup.controllers"@) && lacks(tree, "cgroup.type"@) ==> {
                &&& mirrors(tree, "cpu.shares"@, group.cpu_weight)
                &&& mirrors(tree, "cpu.cfs_quota_us"@, group.cpu_max)
                &&& holds(tree, "cpu.shares"@, line) || holds(tree, "cpu.cfs_quota_us"@, line)
                    ==> group.version == Some(crate::nodes::CgroupVersion::V1)
                &&& lacks(tree, "cpu.shares"@) && lacks(tree, "cpu.cfs_quota_us"@)
                    ==> group.version is None
            }
        }),
{
    let tree = sources.cgroup->0;
    lemma_text(tree, "cpuset.cpus"@);
    lemma_text(tree, "cpu.uclamp.min"@);
    lemma_text(tree, "cpu.uclamp.max"@);
    lemma_text(tree, "cgroup.controllers"@);
    lemma_text(tree, "cgroup.subtree_control"@);
    lemma_text(tree, "cgroup.type"@);
    lemma_text(tree, "cpu.weight"@);
    lemma_text(tree, "cpu.max"@);
    lemma_text(tree, "cpu.shares"@);
    lemma_text(tree, "cpu.cfs_quota_us"@);
    text::text_set_is_sorted_set(text::words_spec(line));
}

proof fn lemma_listed(entries: Seq<(Seq<char>, EntryKind)>, prefix: Seq<char>, n: u32, k: int)
    requires
        0 <= k < entries.len(),
        entries[k] == (prefix + text::decimal_spec(n as nat), EntryKind::Directory),
    ensures
        probe::numbers_in(entries, prefix).contains(n),
    decreases entries.len(),
{
    let rest = entries.drop_last();
    let before = probe::numbers_in(rest, prefix);
    let all = probe::numbers_in(entries, prefix);
    if k == entries.len() - 1 {
        let name = prefix + text::decimal_spec(n as nat);
        assert(name.take(prefix.len() as int) =~= prefix);
        assert(name.skip(prefix.len() as int) =~= text::decimal_spec(n as nat));
        text::decimal_round_trip(n as nat, u32::MAX as nat);
        assert(all[all.len() - 1] == n);
    } else {
        lemma_listed(rest, prefix, n, k);
        let j = before.index_of(n);
        assert(all[j] == n);
    }
}

/// Where the number of a listed directory stands.
proof fn lemma_numbered<F: ReadOnlyFileSystem>(
    tree: &F,
    path: Seq<char>,
    prefix: Seq<char>,
    entries: Seq<(Seq<char>, EntryKind)>,
    k: int,
    n: u32,
) -> (i: int)
    requires
        lists(tree, path, entries),
        0 <= k < entries.len(),
        entries[k] == (prefix + text::decimal_spec(n as nat), EntryKind::Directory),
    ensures
        ({
            let ids = probe::numeric_names(probe::entries_at(tree, path), prefix);
            0 <= i < ids.len() && ids[i] == n
        }),
{
    lemma_listed(entries, prefix, n, k);
    cpuset::canonical_is_sorted_set(probe::numbers_in(entries, prefix));
    let ids = probe::numeric_names(probe::entries_at(tree, path), prefix);
    assert(ids.contains(n));
    ids.index_of(n)
}

/// Every directory of a frequency policy is reported under its number.
pub proof fn every_policy_is_reported<
    S: ReadOnlyFileSystem,
    P: ReadOnlyFileSystem,
    C: ReadOnlyFileSystem,
    R: ReadOnlyFileSystem,
>(
    sources: &DiscoverySources<'_, S, P, C, R>,
    time: Timestamp,
    entries: Seq<(Seq<char>, EntryKind)>,
    k: int,
    n: u32,
)
    requires
        lists(sources.sysfs, "devices/system/cpu/cpufreq"@, entries),
        0 <= k < entries.len(),
        entries[k] == ("policy"@ + text::decimal_spec(n as nat), EntryKind::Directory),
    ensures
        exists|i: int|
            0 <= i < discovery::report_at(sources, time).cpufreq.policies.len()
                && #[trigger] discovery::report_at(sources, time).cpufreq.policies[i].id == n,
{
    let i: int = lemma_numbered(sources.sysfs, "devices/system/cpu/cpufreq"@, "policy"@, entries, k, n);
    assert(discovery::report_at(sources, time).cpufreq.policies[i].id == n);
}

/// Every directory of a CPU is reported under its number.
pub proof fn every_cpu_is_reported<
    S: ReadOnlyFileSystem,
    P: ReadOnlyFileSystem,
    C: ReadOnlyFileSystem,
    R: ReadOnlyFileSystem,
>(
    sources: &DiscoverySources<'_, S, P, C, R>,
    time: Timestamp,
    entries: Seq<(Seq<char>, EntryKind)>,
    k: int,
    n: u32,
)
    requires
        lists(sources.sysfs, "devices/system/cpu"@, entries),
        0 <= k < entries.len(),
        entries[k] == ("cpu"@ + text::decimal_spec(n as nat), EntryKind::Directory),
    ensures
        exists|i: int|
            0 <= i < discovery::report_at(sources, time).topology.entries.len()
                && #[trigger] discovery::report_at(sources, time).topology.entries[i].cpu == n,
{
    let i: int = lemma_numbered(sources.sysfs, "devices/system/cpu"@, "cpu"@, entries, k, n);
    assert(discovery::report_at(sources, time).topology.entries[i].cpu == n);
}

/// Every directory of a memory node is reported under its number.
pub proof fn every_node_is_reported<
    S: ReadOnlyFileSystem,
    P: ReadOnlyFileSystem,
    C: ReadOnlyFileSystem,
    R: ReadOnlyFileSystem,
>(
    sources: &DiscoverySources<'_, S, P, C, R>,
    time: Timestamp,
    entries: Seq<(Seq<char>, EntryKind)>,
    k: int,
    n: u32,
)
    requires
        lists(sources.sysfs, "devices/system/node"@, entries),
        0 <= k < entries.len(),
        entries[k] == ("node"@ + text::decimal_spec(n as nat), EntryKind::Directory),
    ensures
        exists|i: int|
            0 <= i < discovery::report_at(sources, time).numa.nodes.len()
                && #[trigger] discovery::report_at(sources, time).numa.nodes[i].id == n,
{
    let i: int = lemma_numbered(sources.sysfs, "devices/system/node"@, "node"@, entries, k, n);
    assert(discovery::report_at(sources, time).numa.nodes[i].id == n);
}

/// Every directory of an interrupt is reported under its number.
pub proof fn every_interrupt_is_reported<
    S: ReadOnlyFileSystem,
    P: ReadOnlyFileSystem,
    C: ReadOnlyFileSystem,
    R: ReadOnlyFileSystem,
>(
    sources: &DiscoverySources<'_, S, P, C, R>,
    time: Timestamp,
    entries: Seq<(Seq<char>, EntryKind)>,
    k: int,
    n: u32,
)
    requires
        lists(sources.procfs, "irq"@, entries),
        0 <= k < entries.len(),
        entries[k] == (text::decimal_spec(n as nat), EntryKind::Directory),
    ensures
        exists|i: int|
            0 <= i < discovery::report_at(sources, time).irq.entries.len()
                && #[trigger] discovery::report_at(sources, time).irq.entries[i].irq == n,
{
    reveal_strlit("");
    assert(""@ + text::decimal_spec(n as nat) =~= text::decimal_spec(n as nat));
    let i: int = lemma_numbered(sources.procfs, "irq"@, ""@, entries, k, n);
    assert(discovery::report_at(sources, time).irq.entries[i].irq == n);
}

/// Whether a read of a file is refused.
pub open spec fn refuses<F: ReadOnlyFileSystem>(tree: &F, path: Seq<char>) -> bool {
    &&& filesystem::path_fault(path) is None
    &&& tree.file(path) is Err
    &&& tree.file(path)->Err_0.code == ErrorCode::AuthorizationError
}

/// What is found of a policy goes by the file that it is about: the floor by
/// `scaling_min_freq`, the ceiling by `scaling_max_freq` and the preference by
/// `energy_performance_preference`, each supported where that file holds a value and
/// refused where reading it is. All of it is about that policy.
pub proof fn policy_findings_go_by_their_files<F: ReadOnlyFileSystem>(
    tree: &F,
    id: u32,
    k: int,
    n: nat,
    line: Seq<char>,
)
    requires
        0 <= k < discover_cpu::policy_findings_spec(id, discover_cpu::policy_at(tree, id)).len(),
        n <= u64::MAX,
    ensures
        ({
            let finding = discover_cpu::policy_findings_spec(
                id,
                discover_cpu::policy_at(tree, id),
            )[k];
            let directory = "devices/system/cpu/cpufreq/policy"@ + text::decimal_spec(id as nat);
            &&& finding.target == Some("cpu.policy."@ + text::decimal_spec(id as nat))
            &&& finding.id == "cpu.policy.frequency.min"@ ==> {
                &&& holds(tree, directory + "/scaling_min_freq"@, text::decimal_spec(n))
                    ==> finding.status == DiscoveryStatus::Supported
                &&& refuses(tree, directory + "/scaling_min_freq"@) ==> finding.status
                    == DiscoveryStatus::PermissionDenied
            }
            &&& finding.id == "cpu.policy.frequency.max"@ ==> {
                &&& holds(tree, directory + "/scaling_max_freq"@, text::decimal_spec(n))
                    ==> finding.status == DiscoveryStatus::Supported
                &&& refuses(tree, directory + "/scaling_max_freq"@) ==> finding.status
                    == DiscoveryStatus::PermissionDenied
            }
            &&& finding.id == "cpu.policy.energy_preference"@ ==> {
                &&& holds(tree, directory + "/energy_performance_preference"@, line)
                    ==> finding.status == DiscoveryStatus::Supported
                &&& refuses(tree, directory + "/energy_performance_preference"@) ==> finding.status
                    == DiscoveryStatus::PermissionDenied
            }
        }),
{
    reveal_strlit("cpu.policy.frequency.min");
    reveal_strlit("cpu.policy.frequency.max");
    reveal_strlit("cpu.policy.energy_preference");
    reveal_strlit("cpu.policy.governor");
    assert("cpu.policy.frequency.min"@[22] == 'i' && "cpu.policy.frequency.max"@[22] == 'a');
    assert("cpu.policy.frequency.min"@.len() == 24 && "cpu.policy.frequency.max"@.len() == 24);
    assert("cpu.policy.energy_preference"@.len() == 28 && "cpu.policy.governor"@.len() == 19);
    let directory = "devices/system/cpu/cpufreq/policy"@ + text::decimal_spec(id as nat);
    lemma_text(tree, directory + "/scaling_min_freq"@);
    lemma_text(tree, directory + "/scaling_max_freq"@);
    lemma_text(tree, directory + "/energy_performance_preference"@);
    text::decimal_round_trip(n, u64::MAX as nat);
}

proof fn lemma_capacities(cpus: Seq<discover_cpu::CpuProbesView>)
    ensures
        discover_cpu::capacities_spec(cpus).no_duplicates(),
        forall|n: nat| #[trigger]
            discover_cpu::capacities_spec(cpus).contains(n) <==> exists|i: int|
                0 <= i < cpus.len() && (#[trigger] cpus[i]).capacity == Probe::Present(n),
    decreases cpus.len(),
{
    if cpus.len() > 0 {
        let rest = cpus.drop_last();
        let before = discover_cpu::capacities_spec(rest);
        let all = discover_cpu::capacities_spec(cpus);
        lemma_capacities(rest);
        assert forall|n: nat| #[trigger] all.contains(n) <==> exists|i: int|
            0 <= i < cpus.len() && (#[trigger] cpus[i]).capacity == Probe::Present(n) by {
            if before.contains(n) {
                let i = choose|i: int|
                    0 <= i < rest.len() && (#[trigger] rest[i]).capacity == Probe::Present(n);
                assert(cpus[i].capacity == Probe::Present(n));
                let j = before.index_of(n);
                assert(all[j] == n);
            }
            if cpus.last().capacity == Probe::Present(n) {
                assert(cpus[cpus.len() - 1].capacity == Probe::Present(n));
                if !before.contains(n) {
                    assert(all[all.len() - 1] == n);
                }
            }
            if all.contains(n) && !before.contains(n) {
                let j = all.index_of(n);
                if j < before.len() {
                    assert(before[j] == n);
                }
                assert(cpus[cpus.len() - 1].capacity == Probe::Present(n));
            }
            if exists|i: int|
                0 <= i < cpus.len() && (#[trigger] cpus[i]).capacity == Probe::Present(n) {
                let i = choose|i: int|
                    0 <= i < cpus.len() && (#[trigger] cpus[i]).capacity == Probe::Present(n);
                if i < rest.len() {
                    assert(rest[i].capacity == Probe::Present(n));
                    assert(before.contains(n));
                }
            }
        }
    }
}

/// A host is reported as one of unlike CPUs exactly where two of its CPUs report
/// different capacities.
pub proof fn unlike_cpus_are_reported_as_such<
    S: ReadOnlyFileSystem,
    P: ReadOnlyFileSystem,
    C: ReadOnlyFileSystem,
    R: ReadOnlyFileSystem,
>(sources: &DiscoverySources<'_, S, P, C, R>, time: Timestamp)
    ensures
        ({
            let topology = discovery::report_at(sources, time).topology;
            topology.heterogeneous <==> exists|i: int, j: int|
                0 <= i < topology.entries.len() && 0 <= j < topology.entries.len() && (
                #[trigger] topology.entries[i]).capacity is Some && (
                #[trigger] topology.entries[j]).capacity is Some && topology.entries[i].capacity->0
                    != topology.entries[j].capacity->0
        }),
{
    let seen = discovery::readings_at(sources).topology;
    let topology = discovery::report_at(sources, time).topology;
    let capacities = discover_cpu::capacities_spec(seen.cpus);
    lemma_capacities(seen.cpus);
    assert forall|i: int| 0 <= i < topology.entries.len() implies (
    #[trigger] topology.entries[i]).capacity == probe::value_of(seen.cpus[i].capacity) by {}
    if topology.heterogeneous {
        assert(capacities.contains(capacities[0]) && capacities.contains(capacities[1]));
        let i = choose|i: int|
            0 <= i < seen.cpus.len() && (#[trigger] seen.cpus[i]).capacity == Probe::Present(
                capacities[0],
            );
        let j = choose|j: int|
            0 <= j < seen.cpus.len() && (#[trigger] seen.cpus[j]).capacity == Probe::Present(
                capacities[1],
            );
        assert(capacities[0] != capacities[1]);
        assert(topology.entries[i].capacity is Some && topology.entries[j].capacity is Some);
    }
    if exists|i: int, j: int|
        0 <= i < topology.entries.len() && 0 <= j < topology.entries.len() && (
        #[trigger] topology.entries[i]).capacity is Some && (
        #[trigger] topology.entries[j]).capacity is Some && topology.entries[i].capacity->0
            != topology.entries[j].capacity->0 {
        let (i, j): (int, int) = choose|i: int, j: int|
            0 <= i < topology.entries.len() && 0 <= j < topology.entries.len() && (
            #[trigger] topology.entries[i]).capacity is Some && (
            #[trigger] topology.entries[j]).capacity is Some && topology.entries[i].capacity->0
                != topology.entries[j].capacity->0;
        let a = topology.entries[i].capacity->0;
        let b = topology.entries[j].capacity->0;
        assert(seen.cpus[i].capacity == Probe::Present(a));
        assert(seen.cpus[j].capacity == Probe::Present(b));
        assert(capacities.contains(a) && capacities.contains(b));
        assert(capacities.index_of(a) != capacities.index_of(b));
    }
}

/// What is reported out of a file with named rows is the row of that name: the swap
/// space of the host and what is free of it, the memory of a node, the driver of a
/// device and the make of the CPUs.
pub proof fn named_rows_are_reported_under_their_names<
    S: ReadOnlyFileSystem,
    P: ReadOnlyFileSystem,
    C: ReadOnlyFileSystem,
    R: ReadOnlyFileSystem,
>(
    sources: &DiscoverySources<'_, S, P, C, R>,
    time: Timestamp,
    rows: Seq<char>,
    i: int,
)
    ensures
        ({
            let report = discovery::report_at(sources, time);
            &&& holds(sources.procfs, "meminfo"@, rows) ==> {
                &&& report.memory.swap_total_kb == probe::key_number(rows, "SwapTotal"@)
                &&& report.memory.swap_free_kb == probe::key_number(rows, "SwapFree"@)
            }
            &&& holds(sources.procfs, "cpuinfo"@, rows) ==> {
                &&& report.environment.architecture == probe::key_value(rows, "Architecture"@)
                &&& probe::first_key_value(rows, "vendor_id"@) is Some
                    ==> report.environment.cpu_vendor == probe::first_key_value(
                    rows,
                    "vendor_id"@,
                )
                &&& probe::first_key_value(rows, "model name"@) is Some
                    ==> report.environment.cpu_model == probe::first_key_value(
                    rows,
                    "model name"@,
                )
            }
            &&& 0 <= i < report.gpu.devices.len() && holds(
                sources.sysfs,
                "class/drm/"@ + report.gpu.devices[i].name + "/uevent"@,
                rows,
            ) ==> report.gpu.devices[i].driver == probe::key_value(rows, "DRIVER"@)
            &&& 0 <= i < report.numa.nodes.len() && holds(
                sources.sysfs,
                "devices/system/node/node"@ + text::decimal_spec(report.numa.nodes[i].id as nat)
                    + "/meminfo"@,
                rows,
            ) && probe::key_value(
                rows,
                "Node "@ + text::decimal_spec(report.numa.nodes[i].id as nat) + " MemTotal"@,
            ) is Some ==> report.numa.nodes[i].memory_total_kb == probe::first_number(
                probe::key_value(
                    rows,
                    "Node "@ + text::decimal_spec(report.numa.nodes[i].id as nat) + " MemTotal"@,
                )->0,
            )
        }),
{
    let report = discovery::report_at(sources, time);
    lemma_text(sources.procfs, "meminfo"@);
    lemma_text(sources.procfs, "cpuinfo"@);
    lemma_text(sources.sysfs, "class/drm/"@ + report.gpu.devices[i].name + "/uevent"@);
    lemma_text(
        sources.sysfs,
        "devices/system/node/node"@ + text::decimal_spec(report.numa.nodes[i].id as nat)
            + "/meminfo"@,
    );
}

} // verus!
