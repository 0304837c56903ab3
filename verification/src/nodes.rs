//! The nodes of procfs, sysfs and cgroup trees that are read by name.

use vstd::prelude::*;

use crate::error::{ErrorView, Stage, SysboostError};
use crate::filesystem;
use crate::filesystem::{ReadOnlyFileSystem, RelativePath};
use crate::ids::TargetId;
use crate::text;
use crate::value::{CgroupId, CpuPolicyId};

verus! {

/// The nodes of procfs.
#[derive(Clone, Copy, Debug, PartialEq, Eq, Hash, Structural)]
pub enum ProcfsNode {
    /// The release of the kernel.
    KernelVersion,
    /// The status of the reading process.
    SelfStatus,
    LoadAverage,
}

/// The path of a node of procfs.
pub open spec fn procfs_path(node: ProcfsNode) -> Seq<char> {
    match node {
        ProcfsNode::KernelVersion => "sys/kernel/osrelease"@,
        ProcfsNode::SelfStatus => "self/status"@,
        ProcfsNode::LoadAverage => "loadavg"@,
    }
}

proof fn lemma_procfs_paths(node: ProcfsNode)
    ensures
        filesystem::path_fault(procfs_path(node)) is None,
{
    reveal_strlit("sys/kernel/osrelease");
    reveal_strlit("self/status");
    reveal_strlit("loadavg");
    reveal_with_fuel(filesystem::plain_up_to, 21);
    filesystem::plain_paths_are_paths(procfs_path(node));
}

impl ProcfsNode {
    /// The path of the node.
    pub fn relative_path(self) -> (r: RelativePath)
        ensures
            r@ == procfs_path(self),
    {
        let path = match self {
            ProcfsNode::KernelVersion => "sys/kernel/osrelease",
            ProcfsNode::SelfStatus => "self/status",
            ProcfsNode::LoadAverage => "loadavg",
        };
        proof {
            lemma_procfs_paths(self);
        }
        match RelativePath::new(path) {
            Ok(path) => path,
            Err(_) => {
                assert(false);
                vstd::pervasive::unreached()
            },
        }
    }
}

/// An answer to a read whose error names what was read.
pub open spec fn named_reply(reply: Result<Seq<u8>, ErrorView>, target: Seq<char>) -> Result<
    Seq<u8>,
    ErrorView,
> {
    match reply {
        Ok(bytes) => Ok(bytes),
        Err(e) => Err(ErrorView { stage: Some(Stage::Detect), target: Some(target), ..e }),
    }
}

/// A reader of procfs nodes.
#[derive(Clone, Debug)]
pub struct ProcfsAccess<F> {
    filesystem: F,
}

impl<F: ReadOnlyFileSystem> ProcfsAccess<F> {
    pub closed spec fn tree(&self) -> F {
        self.filesystem
    }

    pub fn new(filesystem: F) -> (r: ProcfsAccess<F>)
        ensures
            r.tree() == filesystem,
    {
        ProcfsAccess { filesystem }
    }

    /// Reads a node.
    pub fn read(&self, node: ProcfsNode) -> (r: Result<Vec<u8>, SysboostError>)
        ensures
            filesystem::reads(&self.tree(), procfs_path(node), filesystem::bytes_reply(r)),
    {
        self.filesystem.read(&node.relative_path())
    }
}

/// The nodes of sysfs that belong to a CPU policy.
#[derive(Clone, Copy, Debug, PartialEq, Eq, Hash, Structural)]
pub enum SysfsNode {
    CpuPolicyMinFrequency(CpuPolicyId),
    CpuPolicyMaxFrequency(CpuPolicyId),
    CpuPolicyGovernor(CpuPolicyId),
    CpuPolicyEnergyPreference(CpuPolicyId),
}

/// The file of a policy that a node is.
pub open spec fn sysfs_file(node: SysfsNode) -> (u32, Seq<char>) {
    match node {
        SysfsNode::CpuPolicyMinFrequency(policy) => (policy.value, "scaling_min_freq"@),
        SysfsNode::CpuPolicyMaxFrequency(policy) => (policy.value, "scaling_max_freq"@),
        SysfsNode::CpuPolicyGovernor(policy) => (policy.value, "scaling_governor"@),
        SysfsNode::CpuPolicyEnergyPreference(policy) => (
            policy.value,
            "energy_performance_preference"@,
        ),
    }
}

/// The path of a node of sysfs.
pub open spec fn sysfs_path(node: SysfsNode) -> Seq<char> {
    let (policy, file) = sysfs_file(node);
    "devices/system/cpu/cpufreq/policy"@ + text::decimal_spec(policy as nat) + "/"@ + file
}

proof fn lemma_plain_digits(a: Seq<char>, digits: Seq<char>, n: nat)
    requires
        n <= digits.len(),
        text::all_digits(digits),
        filesystem::plain_up_to(a + digits, a.len()),
    ensures
        filesystem::plain_up_to(a + digits, a.len() + n),
    decreases n,
{
    if n > 0 {
        lemma_plain_digits(a, digits, (n - 1) as nat);
        assert(text::is_digit(digits[n - 1]));
        assert((a + digits)[a.len() + n - 1] == digits[n - 1]);
    }
}

proof fn lemma_plain_prefix(a: Seq<char>, b: Seq<char>, n: nat)
    requires
        n <= a.len(),
        n <= b.len(),
        a.len() <= b.len(),
        forall|i: int| 0 <= i < n ==> a[i] == b[i],
        filesystem::plain_up_to(a, n),
    ensures
        filesystem::plain_up_to(b, n),
    decreases n,
{
    if n > 0 {
        lemma_plain_prefix(a, b, (n - 1) as nat);
        assert(a[n - 1] == b[n - 1]);
        if n >= 2 {
            assert(a[n - 2] == b[n - 2]);
        }
    }
}

proof fn lemma_plain_suffix(a: Seq<char>, b: Seq<char>, n: nat)
    requires
        n <= b.len(),
        a.len() > 0,
        a.last() != '/',
        b.len() > 1,
        b[0] == '/',
        filesystem::plain_up_to(a + b, a.len()),
        filesystem::plain_up_to(b.skip(1), (b.len() - 1) as nat),
        b[1] != '/',
    ensures
        filesystem::plain_up_to(a + b, a.len() + n),
    decreases n,
{
    if n > 0 {
        lemma_plain_suffix(a, b, (n - 1) as nat);
        let s = a + b;
        let i = (a.len() + n - 1) as int;
        assert(s[i] == b[n - 1]);
        if n == 1 {
            assert(s[i - 1] == a.last());
        } else {
            filesystem::lemma_plain_chars(b.skip(1), (b.len() - 1) as nat, n - 2);
            assert(b.skip(1)[n - 2] == b[n - 1]);
            assert(s[i - 1] == b[n - 2]);
            if n > 2 {
                assert(b.skip(1)[n - 3] == b[n - 2]);
            }
        }
    }
}

/// Every node of sysfs has a path.
pub proof fn sysfs_nodes_have_paths(node: SysfsNode)
    ensures
        filesystem::path_fault(sysfs_path(node)) is None,
{
    let (policy, file) = sysfs_file(node);
    let prefix = "devices/system/cpu/cpufreq/policy"@;
    let digits = text::decimal_spec(policy as nat);
    reveal_strlit("devices/system/cpu/cpufreq/policy");
    reveal_strlit("/");
    reveal_strlit("scaling_min_freq");
    reveal_strlit("scaling_max_freq");
    reveal_strlit("scaling_governor");
    reveal_strlit("energy_performance_preference");
    assert(filesystem::plain_up_to(prefix, prefix.len())) by {
        reveal_with_fuel(filesystem::plain_up_to, 35);
    }
    assert(filesystem::plain_up_to(file, file.len())) by {
        reveal_with_fuel(filesystem::plain_up_to, 31);
    }
    text::lemma_decimal(policy as nat);
    lemma_short_decimal(policy as nat);
    let named = prefix + digits;
    lemma_plain_prefix(prefix, named, prefix.len());
    lemma_plain_digits(prefix, digits, digits.len());
    let rest = "/"@ + file;
    assert(rest.skip(1) =~= file);
    let whole = named + rest;
    assert(text::is_digit(digits[digits.len() - 1]));
    assert(named.last() == digits[digits.len() - 1]);
    lemma_plain_prefix(named, whole, named.len());
    lemma_plain_suffix(named, rest, rest.len());
    assert(whole =~= sysfs_path(node));
    filesystem::plain_paths_are_paths(whole);
}

proof fn lemma_decimal_len(n: nat, bound: nat, digits: nat)
    requires
        n < bound,
        digits > 0,
        bound == vstd::arithmetic::power::pow(10, digits),
    ensures
        text::decimal_spec(n).len() <= digits,
    decreases digits,
{
    reveal(vstd::arithmetic::power::pow);
    if n >= 10 {
        assert(digits > 1) by {
            if digits == 1 {
                assert(vstd::arithmetic::power::pow(10, 0) == 1);
                assert(bound == 10);
            }
        }
        let smaller = vstd::arithmetic::power::pow(10, (digits - 1) as nat);
        assert(bound == 10 * smaller);
        lemma_decimal_len(n / 10, smaller as nat, (digits - 1) as nat);
    }
}

proof fn lemma_short_decimal(n: nat)
    requires
        n <= u32::MAX,
    ensures
        text::decimal_spec(n).len() <= 10,
{
    reveal_with_fuel(vstd::arithmetic::power::pow, 11);
    assert(vstd::arithmetic::power::pow(10, 10) == 10_000_000_000);
    lemma_decimal_len(n, 10_000_000_000, 10);
}

impl SysfsNode {
    /// The path of the node.
    pub fn relative_path(self) -> (r: Result<RelativePath, SysboostError>)
        ensures
            r is Ok,
            r->Ok_0@ == sysfs_path(self),
    {
        let (policy, file): (u32, &str) = match self {
            SysfsNode::CpuPolicyMinFrequency(policy) => (policy.value, "scaling_min_freq"),
            SysfsNode::CpuPolicyMaxFrequency(policy) => (policy.value, "scaling_max_freq"),
            SysfsNode::CpuPolicyGovernor(policy) => (policy.value, "scaling_governor"),
            SysfsNode::CpuPolicyEnergyPreference(policy) => (
                policy.value,
                "energy_performance_preference",
            ),
        };
        let number = text::decimal(policy as u128);
        let mut path = "devices/system/cpu/cpufreq/policy".to_string();
        path.append(number.as_str());
        path.append("/");
        path.append(file);
        proof {
            sysfs_nodes_have_paths(self);
        }
        RelativePath::new(path.as_str())
    }
}

/// A reader of sysfs nodes.
#[derive(Clone, Debug)]
pub struct SysfsAccess<F> {
    filesystem: F,
}

impl<F: ReadOnlyFileSystem> SysfsAccess<F> {
    pub closed spec fn tree(&self) -> F {
        self.filesystem
    }

    pub fn new(filesystem: F) -> (r: SysfsAccess<F>)
        ensures
            r.tree() == filesystem,
    {
        SysfsAccess { filesystem }
    }

    /// Reads a node. An error names the node.
    pub fn read(&self, node: SysfsNode) -> (r: Result<Vec<u8>, SysboostError>)
        ensures
            exists|reply: Result<Seq<u8>, ErrorView>| #[trigger]
                filesystem::reads(&self.tree(), sysfs_path(node), reply) && filesystem::bytes_reply(
                    r,
                ) == named_reply(reply, "sysfs."@ + sysfs_path(node)),
    {
        let path = match node.relative_path() {
            Ok(path) => path,
            Err(e) => {
                return Err(e);
            },
        };
        let reply = self.filesystem.read(&path);
        assert(filesystem::reads(&self.tree(), path@, filesystem::bytes_reply(reply)));
        match reply {
            Ok(bytes) => Ok(bytes),
            Err(e) => {
                let name = text::join("sysfs.", path.as_str());
                proof {
                    reveal_strlit("sysfs.");
                }
                let target = match TargetId::new(name.as_str()) {
                    Ok(target) => target,
                    Err(error) => {
                        assert(false);
                        return Err(error);
                    },
                };
                Err(e.with_stage(Stage::Detect).with_target(target))
            },
        }
    }

    /// The tree that is read.
    pub fn filesystem(&self) -> (r: &F)
        ensures
            *r == self.tree(),
    {
        &self.filesystem
    }
}

/// The generations of control groups.
#[derive(Clone, Copy, Debug, PartialEq, Eq, Hash, Structural)]
pub enum CgroupVersion {
    V1,
    V2,
}

/// The files of a control group.
#[derive(Clone, Copy, Debug, PartialEq, Eq, Hash, Structural)]
pub enum CgroupFile {
    CpuWeight,
    CpuMax,
    CpusetCpus,
}

/// The name of a file of a control group.
pub open spec fn cgroup_filename(file: CgroupFile, version: CgroupVersion) -> Seq<char> {
    match file {
        CgroupFile::CpuWeight => match version {
            CgroupVersion::V1 => "cpu.shares"@,
            CgroupVersion::V2 => "cpu.weight"@,
        },
        CgroupFile::CpuMax => match version {
            CgroupVersion::V1 => "cpu.cfs_quota_us"@,
            CgroupVersion::V2 => "cpu.max"@,
        },
        CgroupFile::CpusetCpus => "cpuset.cpus"@,
    }
}

impl CgroupFile {
    /// The name of the file.
    pub fn filename(self, version: CgroupVersion) -> (r: &'static str)
        ensures
            r@ == cgroup_filename(self, version),
    {
        match self {
            CgroupFile::CpuWeight => match version {
                CgroupVersion::V1 => "cpu.shares",
                CgroupVersion::V2 => "cpu.weight",
            },
            CgroupFile::CpuMax => match version {
                CgroupVersion::V1 => "cpu.cfs_quota_us",
                CgroupVersion::V2 => "cpu.max",
            },
            CgroupFile::CpusetCpus => "cpuset.cpus",
        }
    }
}

/// A control group that was found.
#[derive(Clone, Debug, PartialEq, Eq)]
pub struct CgroupTarget {
    pub identity: CgroupId,
    pub relative_path: RelativePath,
    pub version: CgroupVersion,
}

impl CgroupTarget {
    /// The path of a file of the group.
    pub fn file_path(&self, file: CgroupFile) -> (r: Result<RelativePath, SysboostError>)
        ensures
            match r {
                Ok(path) => {
                    &&& filesystem::join_fault(
                        self.relative_path@,
                        cgroup_filename(file, self.version),
                    ) is None
                    &&& path@ == filesystem::joined(
                        self.relative_path@,
                        cgroup_filename(file, self.version),
                    )
                },
                Err(e) => {
                    &&& filesystem::join_fault(
                        self.relative_path@,
                        cgroup_filename(file, self.version),
                    ) is Some
                    &&& e@ == filesystem::path_error(
                        filesystem::join_fault(
                            self.relative_path@,
                            cgroup_filename(file, self.version),
                        )->0,
                    )
                },
            },
    {
        self.relative_path.join_component(file.filename(self.version))
    }
}

/// A reader of the files of control groups.
#[derive(Clone, Debug)]
pub struct CgroupAccess<F> {
    filesystem: F,
}

impl<F: ReadOnlyFileSystem> CgroupAccess<F> {
    pub closed spec fn tree(&self) -> F {
        self.filesystem
    }

    pub fn new(filesystem: F) -> (r: CgroupAccess<F>)
        ensures
            r.tree() == filesystem,
    {
        CgroupAccess { filesystem }
    }

    /// Reads a file of a group. An error of reading names the group.
    pub fn read(&self, target: &CgroupTarget, file: CgroupFile) -> (r: Result<
        Vec<u8>,
        SysboostError,
    >)
        ensures
            match filesystem::join_fault(
                target.relative_path@,
                cgroup_filename(file, target.version),
            ) {
                Some(fault) => r is Err && r->Err_0@ == filesystem::path_error(fault),
                None => exists|reply: Result<Seq<u8>, ErrorView>| #[trigger]
                    filesystem::reads(
                        &self.tree(),
                        filesystem::joined(
                            target.relative_path@,
                            cgroup_filename(file, target.version),
                        ),
                        reply,
                    ) && filesystem::bytes_reply(r) == named_reply(
                        reply,
                        target.identity.handle@,
                    ),
            },
    {
        let path = match target.file_path(file) {
            Ok(path) => path,
            Err(e) => {
                return Err(e);
            },
        };
        let reply = self.filesystem.read(&path);
        assert(filesystem::reads(&self.tree(), path@, filesystem::bytes_reply(reply)));
        match reply {
            Ok(bytes) => Ok(bytes),
            Err(e) => Err(
                e.with_stage(Stage::Detect).with_target(target.identity.handle.clone()),
            ),
        }
    }
}

/// The files of a kernel that may be read go by these paths.
pub proof fn kernel_files_go_by_these_paths()
    ensures
        procfs_path(ProcfsNode::KernelVersion) == "sys/kernel/osrelease"@,
        procfs_path(ProcfsNode::SelfStatus) == "self/status"@,
        procfs_path(ProcfsNode::LoadAverage) == "loadavg"@,
{
}

} // verus!
