//! What may be touched of a real host with CPU controls.
//!
//! Every path is made of names that stand here, and no link is followed.

use vstd::prelude::*;

use crate::cpu;
use crate::cpu_node;
use crate::cpu_node::{CpuNode, Found, MAX_CPU_READ_BYTES};
use crate::error::{ErrorView, SysboostError};
use crate::filesystem::EntryKind;
use crate::text;
use crate::value::CpuPolicyId;

verus! {

/// A file of a policy. There are no others.
#[derive(Clone, Copy, Debug, PartialEq, Eq, Structural)]
pub enum PolicyFile {
    Governor,
    GovernorChoices,
    EnergyPreference,
    EnergyChoices,
    MinFrequency,
    MaxFrequency,
    HardwareMin,
    HardwareMax,
}

impl PolicyFile {
    /// The name of a file.
    pub open spec fn name_spec(self) -> Seq<char> {
        match self {
            PolicyFile::Governor => "scaling_governor"@,
            PolicyFile::GovernorChoices => "scaling_available_governors"@,
            PolicyFile::EnergyPreference => "energy_performance_preference"@,
            PolicyFile::EnergyChoices => "energy_performance_available_preferences"@,
            PolicyFile::MinFrequency => "scaling_min_freq"@,
            PolicyFile::MaxFrequency => "scaling_max_freq"@,
            PolicyFile::HardwareMin => "cpuinfo_min_freq"@,
            PolicyFile::HardwareMax => "cpuinfo_max_freq"@,
        }
    }

    /// The name of a file.
    pub fn name(self) -> (r: &'static str)
        ensures
            r@ == self.name_spec(),
    {
        match self {
            PolicyFile::Governor => "scaling_governor",
            PolicyFile::GovernorChoices => "scaling_available_governors",
            PolicyFile::EnergyPreference => "energy_performance_preference",
            PolicyFile::EnergyChoices => "energy_performance_available_preferences",
            PolicyFile::MinFrequency => "scaling_min_freq",
            PolicyFile::MaxFrequency => "scaling_max_freq",
            PolicyFile::HardwareMin => "cpuinfo_min_freq",
            PolicyFile::HardwareMax => "cpuinfo_max_freq",
        }
    }
}

/// Where a control stands.
#[derive(Clone, Copy, Debug, PartialEq, Eq, Structural)]
pub enum NodePlace {
    /// A file of a policy.
    File(CpuPolicyId, PolicyFile),
    /// Both limits of a policy, which stand for its directory.
    Limits(CpuPolicyId),
    /// A boost file.
    Boost,
    /// The platform profile.
    Profile,
}

/// Where a control stands.
pub open spec fn place_of(node: CpuNode) -> NodePlace {
    match node {
        CpuNode::Governor(policy) => NodePlace::File(policy, PolicyFile::Governor),
        CpuNode::EnergyPreference(policy) => NodePlace::File(policy, PolicyFile::EnergyPreference),
        CpuNode::Frequency(policy) => NodePlace::Limits(policy),
        CpuNode::Boost(_) => NodePlace::Boost,
        CpuNode::PlatformProfile => NodePlace::Profile,
    }
}

/// Where a control stands.
pub fn locate(node: CpuNode) -> (r: NodePlace)
    ensures
        r == place_of(node),
{
    match node {
        CpuNode::Governor(policy) => NodePlace::File(policy, PolicyFile::Governor),
        CpuNode::EnergyPreference(policy) => NodePlace::File(policy, PolicyFile::EnergyPreference),
        CpuNode::Frequency(policy) => NodePlace::Limits(policy),
        CpuNode::Boost(_) => NodePlace::Boost,
        CpuNode::PlatformProfile => NodePlace::Profile,
    }
}

/// Where the values stand that a control lists.
#[derive(Clone, Copy, Debug, PartialEq, Eq, Structural)]
pub enum ChoicesPlace {
    File(CpuPolicyId, PolicyFile),
    Profiles,
    /// Nothing is listed.
    Nowhere,
}

/// Where the values stand that a control lists.
pub open spec fn choices_place(node: CpuNode) -> ChoicesPlace {
    match node {
        CpuNode::Governor(policy) => ChoicesPlace::File(policy, PolicyFile::GovernorChoices),
        CpuNode::EnergyPreference(policy) => ChoicesPlace::File(policy, PolicyFile::EnergyChoices),
        CpuNode::PlatformProfile => ChoicesPlace::Profiles,
        _ => ChoicesPlace::Nowhere,
    }
}

/// Where the values stand that a control lists.
pub fn locate_choices(node: CpuNode) -> (r: ChoicesPlace)
    ensures
        r == choices_place(node),
{
    match node {
        CpuNode::Governor(policy) => ChoicesPlace::File(policy, PolicyFile::GovernorChoices),
        CpuNode::EnergyPreference(policy) => ChoicesPlace::File(policy, PolicyFile::EnergyChoices),
        CpuNode::PlatformProfile => ChoicesPlace::Profiles,
        CpuNode::Boost(_) => ChoicesPlace::Nowhere,
        CpuNode::Frequency(_) => ChoicesPlace::Nowhere,
    }
}

/// The name of the directory of a policy.
pub open spec fn policy_name(policy: CpuPolicyId) -> Seq<char> {
    "policy"@ + text::decimal_spec(policy.value as nat)
}

/// The name of the directory of a policy.
pub fn policy_directory(policy: CpuPolicyId) -> (r: String)
    ensures
        r@ == policy_name(policy),
{
    let number = text::decimal(policy.get() as u128);
    text::join("policy", number.as_str())
}

/// Why the directory of the policies cannot be entered, if it cannot.
pub open spec fn cpufreq_refusal(found: Found) -> Option<ErrorView> {
    match found {
        Found::Object(EntryKind::Directory) => None,
        Found::Object(_) => Some(
            cpu_node::target_fault("CPU sysfs cpufreq path has an unexpected type"@),
        ),
        Found::Nothing => Some(
            cpu_node::unsupported_fault("CPUFreq policy interface is unavailable"@),
        ),
        Found::Hidden => Some(
            cpu_node::target_fault("CPU sysfs cpufreq path cannot be inspected"@),
        ),
    }
}

/// Whether one directory on the way to the policies can be entered.
pub fn check_cpufreq_step(found: Found) -> (r: Result<(), SysboostError>)
    ensures
        cpu::failure(r) == cpufreq_refusal(found),
{
    match found {
        Found::Object(kind) => match kind {
            EntryKind::Directory => Ok(()),
            _ => Err(cpu_node::target_error("CPU sysfs cpufreq path has an unexpected type")),
        },
        Found::Nothing => Err(cpu_node::unsupported("CPUFreq policy interface is unavailable")),
        Found::Hidden => Err(cpu_node::target_error("CPU sysfs cpufreq path cannot be inspected")),
    }
}

/// Why a directory cannot be the root, if it cannot. A root is looked at as it was
/// given, and again with all links resolved.
pub open spec fn opening_refusal(found: Found, resolved: bool) -> Option<ErrorView> {
    match found {
        Found::Object(EntryKind::Directory) => None,
        Found::Object(_) => if resolved {
            Some(cpu_node::target_fault("CPU sysfs root is not a directory"@))
        } else {
            Some(cpu_node::target_fault("CPU sysfs root is not a real directory"@))
        },
        _ => Some(cpu_node::target_fault("CPU sysfs root cannot be inspected"@)),
    }
}

/// Whether a directory can be the root.
pub fn check_opening(found: Found, resolved: bool) -> (r: Result<(), SysboostError>)
    ensures
        cpu::failure(r) == opening_refusal(found, resolved),
{
    match found {
        Found::Object(kind) => if kind == EntryKind::Directory {
            Ok(())
        } else if resolved {
            Err(cpu_node::target_error("CPU sysfs root is not a directory"))
        } else {
            Err(cpu_node::target_error("CPU sysfs root is not a real directory"))
        },
        _ => Err(cpu_node::target_error("CPU sysfs root cannot be inspected")),
    }
}

/// Why the root cannot be entered, if it cannot.
pub open spec fn root_refusal(found: Found) -> Option<ErrorView> {
    match found {
        Found::Object(EntryKind::Directory) => None,
        Found::Object(_) => Some(cpu_node::target_fault("CPU sysfs root has an unexpected type"@)),
        _ => Some(cpu_node::target_fault("CPU sysfs root disappeared"@)),
    }
}

/// Whether the root can be entered.
pub fn check_root(found: Found) -> (r: Result<(), SysboostError>)
    ensures
        cpu::failure(r) == root_refusal(found),
{
    match found {
        Found::Object(kind) => match kind {
            EntryKind::Directory => Ok(()),
            _ => Err(cpu_node::target_error("CPU sysfs root has an unexpected type")),
        },
        _ => Err(cpu_node::target_error("CPU sysfs root disappeared")),
    }
}

/// Why one step of a path cannot be taken, if it cannot.
pub open spec fn step_refusal(component: Seq<char>, found: Found, directory: bool) -> Option<
    ErrorView,
> {
    if component.len() == 0 || component == "."@ || component == ".."@ {
        Some(cpu_node::target_fault("CPU backend component is not allowlisted"@))
    } else {
        match found {
            Found::Object(kind) => if kind == EntryKind::Symlink || (directory && kind
                != EntryKind::Directory) {
                Some(cpu_node::target_fault("CPU sysfs target has an unexpected type"@))
            } else {
                None
            },
            _ => Some(cpu_node::target_fault("CPU sysfs target disappeared"@)),
        }
    }
}

/// Whether one step of a path can be taken. No link is followed.
pub fn check_step(component: &str, found: Found, directory: bool) -> (r: Result<(), SysboostError>)
    ensures
        cpu::failure(r) == step_refusal(component@, found, directory),
{
    if component.unicode_len() == 0 || text::same(component, ".") || text::same(component, "..") {
        return Err(cpu_node::target_error("CPU backend component is not allowlisted"));
    }
    match found {
        Found::Object(kind) => if kind == EntryKind::Symlink || (directory && kind
            != EntryKind::Directory) {
            Err(cpu_node::target_error("CPU sysfs target has an unexpected type"))
        } else {
            Ok(())
        },
        _ => Err(cpu_node::target_error("CPU sysfs target disappeared")),
    }
}

/// A path whose every step can be taken holds no link and none of the names that
/// leave it.
pub proof fn steps_stay_below_the_root(component: Seq<char>, found: Found, directory: bool)
    requires
        step_refusal(component, found, directory) is None,
    ensures
        component != ".."@,
        component.len() > 0,
        found != Found::Object(EntryKind::Symlink),
        directory ==> found == Found::Object(EntryKind::Directory),
{
}

/// Why a file cannot be opened, if it cannot.
pub open spec fn file_refusal(found: Found) -> Option<ErrorView> {
    match found {
        Found::Object(EntryKind::File) => None,
        Found::Object(_) => Some(cpu_node::target_fault("CPU kernel node is not a regular file"@)),
        _ => Some(cpu_node::target_fault("CPU kernel node disappeared"@)),
    }
}

/// Whether a file can be opened.
pub fn check_file(found: Found) -> (r: Result<(), SysboostError>)
    ensures
        cpu::failure(r) == file_refusal(found),
{
    match found {
        Found::Object(kind) => match kind {
            EntryKind::File => Ok(()),
            _ => Err(cpu_node::target_error("CPU kernel node is not a regular file")),
        },
        _ => Err(cpu_node::target_error("CPU kernel node disappeared")),
    }
}

/// Whether a bound of the hardware is there.
pub open spec fn bound_presence(found: Found) -> Result<bool, ErrorView> {
    match found {
        Found::Object(EntryKind::File) => Ok(true),
        Found::Object(EntryKind::Symlink) => Err(
            cpu_node::target_fault("CPU hardware-bound node is a symlink"@),
        ),
        Found::Object(_) => Err(
            cpu_node::target_fault("CPU hardware-bound node has an unexpected type"@),
        ),
        Found::Nothing => Ok(false),
        Found::Hidden => Err(
            cpu_node::target_fault("CPU hardware-bound node cannot be inspected"@),
        ),
    }
}

/// Whether a bound of the hardware is there. A host may have none.
pub fn is_bound_present(found: Found) -> (r: Result<bool, SysboostError>)
    ensures
        crate::error::plain(r) == bound_presence(found),
{
    match found {
        Found::Object(kind) => match kind {
            EntryKind::File => Ok(true),
            EntryKind::Symlink => Err(
                cpu_node::target_error("CPU hardware-bound node is a symlink"),
            ),
            _ => Err(cpu_node::target_error("CPU hardware-bound node has an unexpected type")),
        },
        Found::Nothing => Ok(false),
        Found::Hidden => Err(cpu_node::target_error("CPU hardware-bound node cannot be inspected")),
    }
}

/// Why an object cannot stand for the identity of a control, if it cannot: a
/// policy is its directory, anything else its file.
pub open spec fn identity_refusal(found: Found, policy: bool) -> Option<ErrorView> {
    match found {
        Found::Object(kind) => if policy {
            if kind == EntryKind::Directory {
                None
            } else {
                Some(cpu_node::target_fault("CPU policy identity has an unexpected type"@))
            }
        } else if kind == EntryKind::File {
            None
        } else {
            Some(cpu_node::target_fault("CPU kernel node identity has an unexpected type"@))
        },
        _ => if policy {
            Some(cpu_node::target_fault("CPU policy identity cannot be inspected"@))
        } else {
            Some(cpu_node::target_fault("CPU kernel node identity cannot be inspected"@))
        },
    }
}

/// Whether an object can stand for the identity of a control.
pub fn check_identity(found: Found, policy: bool) -> (r: Result<(), SysboostError>)
    ensures
        cpu::failure(r) == identity_refusal(found, policy),
{
    match found {
        Found::Object(kind) => if policy {
            if kind == EntryKind::Directory {
                Ok(())
            } else {
                Err(cpu_node::target_error("CPU policy identity has an unexpected type"))
            }
        } else if kind == EntryKind::File {
            Ok(())
        } else {
            Err(cpu_node::target_error("CPU kernel node identity has an unexpected type"))
        },
        _ => if policy {
            Err(cpu_node::target_error("CPU policy identity cannot be inspected"))
        } else {
            Err(cpu_node::target_error("CPU kernel node identity cannot be inspected"))
        },
    }
}

/// Whether a value is short enough to be one of the kernel.
pub fn check_read_length(length: usize) -> (r: Result<(), SysboostError>)
    ensures
        cpu::failure(r) == if length > MAX_CPU_READ_BYTES {
            Some(cpu_node::target_fault("CPU kernel interface value is oversized"@))
        } else {
            None
        },
{
    if length > MAX_CPU_READ_BYTES {
        Err(cpu_node::target_error("CPU kernel interface value is oversized"))
    } else {
        Ok(())
    }
}

/// A control of a policy stands in the file that the kernel keeps for it, in the
/// directory of that policy, and what it may be set to in the file beside it. The
/// floor of the frequency and its ceiling stand in files of their own.
pub proof fn controls_stand_where_the_kernel_keeps_them(policy: CpuPolicyId)
    ensures
        policy_name(policy) == "policy"@ + text::decimal_spec(policy.value as nat),
        place_of(CpuNode::Governor(policy)) matches NodePlace::File(p, file) && p == policy
            && file.name_spec() == "scaling_governor"@,
        choices_place(CpuNode::Governor(policy)) matches ChoicesPlace::File(p, file) && p == policy
            && file.name_spec() == "scaling_available_governors"@,
        place_of(CpuNode::EnergyPreference(policy)) matches NodePlace::File(p, file) && p == policy
            && file.name_spec() == "energy_performance_preference"@,
        choices_place(CpuNode::EnergyPreference(policy)) matches ChoicesPlace::File(p, file) && p
            == policy && file.name_spec() == "energy_performance_available_preferences"@,
        place_of(CpuNode::Frequency(policy)) == NodePlace::Limits(policy),
        place_of(CpuNode::PlatformProfile) == NodePlace::Profile,
        choices_place(CpuNode::PlatformProfile) == ChoicesPlace::Profiles,
        PolicyFile::MinFrequency.name_spec() == "scaling_min_freq"@,
        PolicyFile::MaxFrequency.name_spec() == "scaling_max_freq"@,
        PolicyFile::HardwareMin.name_spec() == "cpuinfo_min_freq"@,
        PolicyFile::HardwareMax.name_spec() == "cpuinfo_max_freq"@,
{
}

} // verus!
