//! The closed vocabulary of values that a mutation reads and writes.

use vstd::prelude::*;

use crate::bytes;
use crate::cpuset::CpuSet;
use crate::error::{ErrorCode, SysboostError};
use crate::ids::{CgroupName, GovernorId, PlatformProfileId, StateFingerprint, TargetId};
use crate::text;

verus! {

/// A CPU frequency policy, by its number.
#[derive(Clone, Copy, Debug, PartialEq, Eq, PartialOrd, Ord, Hash, Structural)]
pub struct CpuPolicyId {
    pub value: u32,
}

impl CpuPolicyId {
    pub fn new(value: u32) -> (r: CpuPolicyId)
        ensures
            r.value == value,
    {
        CpuPolicyId { value }
    }

    pub fn get(&self) -> (r: u32)
        ensures
            r == self.value,
    {
        self.value
    }
}

/// How a CPU weighs energy against performance.
#[derive(Clone, Copy, Debug, PartialEq, Eq, Structural)]
pub enum EnergyPreference {
    Performance,
    BalancePerformance,
    BalancePower,
    Power,
}

/// Whether CPUs may exceed their nominal frequency.
#[derive(Clone, Copy, Debug, PartialEq, Eq, Structural)]
pub enum CpuBoostState {
    Enabled,
    Disabled,
}

pub open spec fn out_of_range(message: Seq<char>) -> crate::error::ErrorView {
    crate::error::error_view(ErrorCode::InvalidInput, message)
}

fn range_error(message: &str) -> (r: SysboostError)
    ensures
        r@ == out_of_range(message@),
{
    SysboostError::new(ErrorCode::InvalidInput, message)
}

/// A frequency in kilohertz, never zero.
#[derive(Clone, Copy, Debug, PartialEq, Eq, Structural)]
pub struct FrequencyKHz {
    pub value: u64,
}

impl FrequencyKHz {
    pub fn new(value: u64) -> (r: Result<FrequencyKHz, SysboostError>)
        ensures
            match r {
                Ok(f) => value > 0 && f.value == value,
                Err(e) => value == 0 && e@ == out_of_range("frequency must be positive"@),
            },
    {
        if value == 0 {
            Err(range_error("frequency must be positive"))
        } else {
            Ok(FrequencyKHz { value })
        }
    }

    pub fn get(&self) -> (r: u64)
        ensures
            r == self.value,
    {
        self.value
    }
}

/// A relative share of CPU time, from 1 to 10000.
#[derive(Clone, Copy, Debug, PartialEq, Eq, Structural)]
pub struct CpuWeight {
    pub value: u64,
}

impl CpuWeight {
    pub fn new(value: u64) -> (r: Result<CpuWeight, SysboostError>)
        ensures
            match r {
                Ok(w) => 1 <= value <= 10_000 && w.value == value,
                Err(e) => !(1 <= value <= 10_000) && e@ == out_of_range(
                    "CPU weight is out of range"@,
                ),
            },
    {
        if 1 <= value && value <= 10_000 {
            Ok(CpuWeight { value })
        } else {
            Err(range_error("CPU weight is out of range"))
        }
    }

    pub fn get(&self) -> (r: u64)
        ensures
            r == self.value,
    {
        self.value
    }
}

/// A relative share of I/O, from 1 to 10000.
#[derive(Clone, Copy, Debug, PartialEq, Eq, Structural)]
pub struct IoWeight {
    pub value: u64,
}

impl IoWeight {
    pub fn new(value: u64) -> (r: Result<IoWeight, SysboostError>)
        ensures
            match r {
                Ok(w) => 1 <= value <= 10_000 && w.value == value,
                Err(e) => !(1 <= value <= 10_000) && e@ == out_of_range(
                    "I/O weight is out of range"@,
                ),
            },
    {
        if 1 <= value && value <= 10_000 {
            Ok(IoWeight { value })
        } else {
            Err(range_error("I/O weight is out of range"))
        }
    }

    pub fn get(&self) -> (r: u64)
        ensures
            r == self.value,
    {
        self.value
    }
}

/// CPU time per period, in microseconds, or no limit.
#[derive(Clone, Copy, Debug, PartialEq, Eq, Structural)]
pub enum CpuQuota {
    Max,
    Micros(u64),
}

impl CpuQuota {
    /// A limit, which is never zero.
    pub fn micros(value: u64) -> (r: Result<CpuQuota, SysboostError>)
        ensures
            match r {
                Ok(quota) => value > 0 && quota == CpuQuota::Micros(value),
                Err(e) => value == 0 && e@ == out_of_range("CPU quota must be positive"@),
            },
    {
        if value == 0 {
            Err(range_error("CPU quota must be positive"))
        } else {
            Ok(CpuQuota::Micros(value))
        }
    }
}

/// The period of a CPU quota in microseconds, never zero.
#[derive(Clone, Copy, Debug, PartialEq, Eq, Structural)]
pub struct CpuPeriod {
    pub value: u64,
}

impl CpuPeriod {
    pub fn new(value: u64) -> (r: Result<CpuPeriod, SysboostError>)
        ensures
            match r {
                Ok(period) => value > 0 && period.value == value,
                Err(e) => value == 0 && e@ == out_of_range("CPU period must be positive"@),
            },
    {
        if value == 0 {
            Err(range_error("CPU period must be positive"))
        } else {
            Ok(CpuPeriod { value })
        }
    }

    pub fn get(&self) -> (r: u64)
        ensures
            r == self.value,
    {
        self.value
    }
}

/// A utilisation clamp: a value up to 1024, or the highest.
#[derive(Clone, Copy, Debug, PartialEq, Eq, Structural)]
pub enum UclampValue {
    Value(u16),
    Max,
}

impl UclampValue {
    pub fn new(value: u16) -> (r: Result<UclampValue, SysboostError>)
        ensures
            match r {
                Ok(clamp) => value <= 1024 && clamp == UclampValue::Value(value),
                Err(e) => value > 1024 && e@ == out_of_range("uclamp value is out of range"@),
            },
    {
        if value <= 1024 {
            Ok(UclampValue::Value(value))
        } else {
            Err(range_error("uclamp value is out of range"))
        }
    }

    /// The number, unless it is the highest.
    pub fn get(&self) -> (r: Option<u16>)
        ensures
            r == match *self {
                UclampValue::Value(value) => Some(value),
                UclampValue::Max => None,
            },
    {
        match self {
            UclampValue::Value(value) => Some(*value),
            UclampValue::Max => None,
        }
    }
}

/// The priority of a process, from -20 to 19.
#[derive(Clone, Copy, Debug, PartialEq, Eq, Structural)]
pub struct NiceValue {
    pub value: i8,
}

impl NiceValue {
    pub fn new(value: i8) -> (r: Result<NiceValue, SysboostError>)
        ensures
            match r {
                Ok(nice) => -20 <= value <= 19 && nice.value == value,
                Err(e) => !(-20 <= value <= 19) && e@ == out_of_range(
                    "nice value is out of range"@,
                ),
            },
    {
        if -20 <= value && value <= 19 {
            Ok(NiceValue { value })
        } else {
            Err(range_error("nice value is out of range"))
        }
    }

    pub fn get(&self) -> (r: i8)
        ensures
            r == self.value,
    {
        self.value
    }
}

#[derive(Clone, Copy, Debug, PartialEq, Eq, Structural)]
pub enum IoPriorityClass {
    Unset,
    RealTime,
    BestEffort,
    Idle,
}

/// The I/O priority of a process: a class and a level from 0 to 7.
#[derive(Clone, Copy, Debug, PartialEq, Eq, Structural)]
pub struct IoPriority {
    pub class: IoPriorityClass,
    pub level: u8,
}

impl IoPriority {
    pub fn new(class: IoPriorityClass, level: u8) -> (r: Result<IoPriority, SysboostError>)
        ensures
            match r {
                Ok(priority) => level <= 7 && priority == (IoPriority { class, level }),
                Err(e) => level > 7 && e@ == out_of_range("I/O priority level is out of range"@),
            },
    {
        if level <= 7 {
            Ok(IoPriority { class, level })
        } else {
            Err(range_error("I/O priority level is out of range"))
        }
    }
}

/// What a managed control group is for.
#[derive(Clone, Copy, Debug, PartialEq, Eq, Structural)]
pub enum CgroupGroupKind {
    Workload,
    ConservativeBackground,
}

/// A control group: the mount and the inode that identify it, and its name as a
/// target.
#[derive(Debug, PartialEq, Eq)]
pub struct CgroupId {
    pub mount_id: u64,
    pub inode: u64,
    pub handle: TargetId,
}

/// A control group as plain values.
#[verifier::ext_equal]
pub struct CgroupView {
    pub mount_id: u64,
    pub inode: u64,
    pub handle: Seq<char>,
}

impl View for CgroupId {
    type V = CgroupView;

    open spec fn view(&self) -> CgroupView {
        CgroupView { mount_id: self.mount_id, inode: self.inode, handle: self.handle@ }
    }
}

impl CgroupId {
    pub fn new(mount_id: u64, inode: u64, handle: TargetId) -> (r: CgroupId)
        ensures
            r == (CgroupId { mount_id, inode, handle }),
    {
        CgroupId { mount_id, inode, handle }
    }

    pub fn same(&self, other: &CgroupId) -> (r: bool)
        ensures
            r == (self@ == other@),
    {
        self.mount_id == other.mount_id && self.inode == other.inode && self.handle.same(
            &other.handle,
        )
    }
}

impl Clone for CgroupId {
    fn clone(&self) -> (r: CgroupId)
        ensures
            r == *self,
    {
        CgroupId { mount_id: self.mount_id, inode: self.inode, handle: self.handle.clone() }
    }
}

/// A process by its number and its start time, so that a number that is used
/// again is not taken for it.
#[derive(Clone, Copy, Debug, PartialEq, Eq, Structural)]
pub struct ProcessId {
    pub pid: u32,
    pub start_time_ticks: u64,
}

pub open spec fn process_target(process: ProcessId) -> Seq<char> {
    "process."@ + text::decimal_spec(process.pid as nat) + "."@ + text::decimal_spec(
        process.start_time_ticks as nat,
    )
}

impl ProcessId {
    pub fn new(pid: u32, start_time_ticks: u64) -> (r: Result<ProcessId, SysboostError>)
        ensures
            match r {
                Ok(process) => pid > 0 && start_time_ticks > 0 && process == (ProcessId {
                    pid,
                    start_time_ticks,
                }),
                Err(e) => (pid == 0 || start_time_ticks == 0) && e@ == out_of_range(
                    "process identity must be non-zero"@,
                ),
            },
    {
        if pid == 0 || start_time_ticks == 0 {
            Err(range_error("process identity must be non-zero"))
        } else {
            Ok(ProcessId { pid, start_time_ticks })
        }
    }

    pub fn pid(&self) -> (r: u32)
        ensures
            r == self.pid,
    {
        self.pid
    }

    pub fn start_time_ticks(&self) -> (r: u64)
        ensures
            r == self.start_time_ticks,
    {
        self.start_time_ticks
    }

    /// The process as a target.
    pub fn target_id(&self) -> (r: TargetId)
        ensures
            r@ == process_target(*self),
    {
        let mut name = "process.".to_string();
        name.append(text::decimal(self.pid as u128).as_str());
        name.append(".");
        name.append(text::decimal(self.start_time_ticks as u128).as_str());
        proof {
            text::lemma_decimal(self.pid as nat);
        }
        assert(name@ =~= process_target(*self));
        match TargetId::new(name.as_str()) {
            Ok(id) => id,
            Err(_) => {
                assert(false);
                vstd::pervasive::unreached()
            },
        }
    }
}

/// A value of a mutation's target.
#[derive(Debug, PartialEq, Eq)]
pub enum TypedValue {
    Governor(GovernorId),
    EnergyPreference(EnergyPreference),
    CpuFrequency { min_khz: Option<FrequencyKHz>, max_khz: Option<FrequencyKHz> },
    CpuBoost(CpuBoostState),
    PlatformProfile(PlatformProfileId),
    CgroupCpuWeight(CpuWeight),
    CgroupCpuMax { quota: CpuQuota, period: CpuPeriod },
    CgroupCpuset(CpuSet),
    CgroupIoWeight(IoWeight),
    CgroupUclamp(UclampValue),
    CgroupLifecycle { kind: CgroupGroupKind, name: CgroupName, present: bool },
    Nice(NiceValue),
    IoPriority(IoPriority),
    ProcessPlacement(CgroupId),
}

/// A value as plain values.
#[verifier::ext_equal]
pub enum ValueView {
    Governor(Seq<char>),
    EnergyPreference(EnergyPreference),
    CpuFrequency { min_khz: Option<FrequencyKHz>, max_khz: Option<FrequencyKHz> },
    CpuBoost(CpuBoostState),
    PlatformProfile(Seq<char>),
    CgroupCpuWeight(CpuWeight),
    CgroupCpuMax { quota: CpuQuota, period: CpuPeriod },
    CgroupCpuset(Seq<u32>),
    CgroupIoWeight(IoWeight),
    CgroupUclamp(UclampValue),
    CgroupLifecycle { kind: CgroupGroupKind, name: Seq<char>, present: bool },
    Nice(NiceValue),
    IoPriority(IoPriority),
    ProcessPlacement(CgroupView),
}

impl View for TypedValue {
    type V = ValueView;

    open spec fn view(&self) -> ValueView {
        match *self {
            TypedValue::Governor(id) => ValueView::Governor(id@),
            TypedValue::EnergyPreference(value) => ValueView::EnergyPreference(value),
            TypedValue::CpuFrequency { min_khz, max_khz } => ValueView::CpuFrequency {
                min_khz,
                max_khz,
            },
            TypedValue::CpuBoost(value) => ValueView::CpuBoost(value),
            TypedValue::PlatformProfile(id) => ValueView::PlatformProfile(id@),
            TypedValue::CgroupCpuWeight(value) => ValueView::CgroupCpuWeight(value),
            TypedValue::CgroupCpuMax { quota, period } => ValueView::CgroupCpuMax {
                quota,
                period,
            },
            TypedValue::CgroupCpuset(cpus) => ValueView::CgroupCpuset(cpus@),
            TypedValue::CgroupIoWeight(value) => ValueView::CgroupIoWeight(value),
            TypedValue::CgroupUclamp(value) => ValueView::CgroupUclamp(value),
            TypedValue::CgroupLifecycle { kind, name, present } => ValueView::CgroupLifecycle {
                kind,
                name: name@,
                present,
            },
            TypedValue::Nice(value) => ValueView::Nice(value),
            TypedValue::IoPriority(value) => ValueView::IoPriority(value),
            TypedValue::ProcessPlacement(cgroup) => ValueView::ProcessPlacement(cgroup@),
        }
    }
}

fn same_frequency(a: &Option<FrequencyKHz>, b: &Option<FrequencyKHz>) -> (r: bool)
    ensures
        r == (*a == *b),
{
    match (a, b) {
        (Some(a), Some(b)) => a.value == b.value,
        (None, None) => true,
        _ => false,
    }
}

impl TypedValue {
    /// Whether two values are the same.
    pub fn same(&self, other: &TypedValue) -> (r: bool)
        ensures
            r == (self@ == other@),
    {
        match (self, other) {
            (TypedValue::Governor(a), TypedValue::Governor(b)) => a.same(b),
            (TypedValue::EnergyPreference(a), TypedValue::EnergyPreference(b)) => *a == *b,
            (
                TypedValue::CpuFrequency { min_khz: a, max_khz: b },
                TypedValue::CpuFrequency { min_khz: c, max_khz: d },
            ) => same_frequency(a, c) && same_frequency(b, d),
            (TypedValue::CpuBoost(a), TypedValue::CpuBoost(b)) => *a == *b,
            (TypedValue::PlatformProfile(a), TypedValue::PlatformProfile(b)) => a.same(b),
            (TypedValue::CgroupCpuWeight(a), TypedValue::CgroupCpuWeight(b)) => *a == *b,
            (
                TypedValue::CgroupCpuMax { quota: a, period: b },
                TypedValue::CgroupCpuMax { quota: c, period: d },
            ) => *a == *c && *b == *d,
            (TypedValue::CgroupCpuset(a), TypedValue::CgroupCpuset(b)) => a.same(b),
            (TypedValue::CgroupIoWeight(a), TypedValue::CgroupIoWeight(b)) => *a == *b,
            (TypedValue::CgroupUclamp(a), TypedValue::CgroupUclamp(b)) => *a == *b,
            (
                TypedValue::CgroupLifecycle { kind: a, name: b, present: c },
                TypedValue::CgroupLifecycle { kind: d, name: e, present: f },
            ) => *a == *d && b.same(e) && *c == *f,
            (TypedValue::Nice(a), TypedValue::Nice(b)) => *a == *b,
            (TypedValue::IoPriority(a), TypedValue::IoPriority(b)) => *a == *b,
            (TypedValue::ProcessPlacement(a), TypedValue::ProcessPlacement(b)) => a.same(b),
            _ => false,
        }
    }
}

impl Clone for TypedValue {
    fn clone(&self) -> (r: TypedValue)
        ensures
            r@ == self@,
    {
        match self {
            TypedValue::Governor(id) => TypedValue::Governor(id.clone()),
            TypedValue::EnergyPreference(value) => TypedValue::EnergyPreference(*value),
            TypedValue::CpuFrequency { min_khz, max_khz } => TypedValue::CpuFrequency {
                min_khz: *min_khz,
                max_khz: *max_khz,
            },
            TypedValue::CpuBoost(value) => TypedValue::CpuBoost(*value),
            TypedValue::PlatformProfile(id) => TypedValue::PlatformProfile(id.clone()),
            TypedValue::CgroupCpuWeight(value) => TypedValue::CgroupCpuWeight(*value),
            TypedValue::CgroupCpuMax { quota, period } => TypedValue::CgroupCpuMax {
                quota: *quota,
                period: *period,
            },
            TypedValue::CgroupCpuset(cpus) => TypedValue::CgroupCpuset(cpus.clone()),
            TypedValue::CgroupIoWeight(value) => TypedValue::CgroupIoWeight(*value),
            TypedValue::CgroupUclamp(value) => TypedValue::CgroupUclamp(*value),
            TypedValue::CgroupLifecycle { kind, name, present } => TypedValue::CgroupLifecycle {
                kind: *kind,
                name: name.clone(),
                present: *present,
            },
            TypedValue::Nice(value) => TypedValue::Nice(*value),
            TypedValue::IoPriority(value) => TypedValue::IoPriority(*value),
            TypedValue::ProcessPlacement(cgroup) => TypedValue::ProcessPlacement(cgroup.clone()),
        }
    }
}

/// A text as its length in bytes and its bytes.
pub open spec fn text_bytes(s: Seq<char>) -> Seq<u8> {
    bytes::be(vstd::utf8::encode_utf8(s).len(), 8) + vstd::utf8::encode_utf8(s)
}

pub open spec fn frequency_bytes(value: Option<FrequencyKHz>) -> Seq<u8> {
    match value {
        Some(f) => bytes::be(f.value as nat, 8),
        None => bytes::be(0, 8),
    }
}

pub open spec fn id_list_bytes(ids: Seq<u32>) -> Seq<u8>
    decreases ids.len(),
{
    if ids.len() == 0 {
        Seq::empty()
    } else {
        id_list_bytes(ids.drop_last()) + bytes::be(ids.last() as nat, 4)
    }
}

pub open spec fn energy_number(value: EnergyPreference) -> nat {
    match value {
        EnergyPreference::Performance => 0,
        EnergyPreference::BalancePerformance => 1,
        EnergyPreference::BalancePower => 2,
        EnergyPreference::Power => 3,
    }
}

pub open spec fn class_number(value: IoPriorityClass) -> nat {
    match value {
        IoPriorityClass::Unset => 0,
        IoPriorityClass::RealTime => 1,
        IoPriorityClass::BestEffort => 2,
        IoPriorityClass::Idle => 3,
    }
}

/// The bytes that stand for a value: what it is, then its parts.
pub open spec fn value_bytes(value: ValueView) -> Seq<u8> {
    match value {
        ValueView::Governor(id) => bytes::be(1, 1) + text_bytes(id),
        ValueView::EnergyPreference(value) => bytes::be(2, 1) + bytes::be(
            energy_number(value),
            1,
        ),
        ValueView::CpuFrequency { min_khz, max_khz } => bytes::be(3, 1) + frequency_bytes(min_khz)
            + frequency_bytes(max_khz),
        ValueView::CpuBoost(value) => bytes::be(4, 1) + bytes::be(
            if value == CpuBoostState::Enabled {
                1
            } else {
                0
            },
            1,
        ),
        ValueView::PlatformProfile(id) => bytes::be(5, 1) + text_bytes(id),
        ValueView::CgroupCpuWeight(value) => bytes::be(6, 1) + bytes::be(value.value as nat, 8),
        ValueView::CgroupCpuMax { quota, period } => bytes::be(7, 1) + bytes::be(
            match quota {
                CpuQuota::Max => 0,
                CpuQuota::Micros(value) => value as nat,
            },
            8,
        ) + bytes::be(period.value as nat, 8),
        ValueView::CgroupCpuset(cpus) => bytes::be(8, 1) + id_list_bytes(cpus),
        ValueView::CgroupIoWeight(value) => bytes::be(9, 1) + bytes::be(value.value as nat, 8),
        ValueView::CgroupUclamp(value) => bytes::be(10, 1) + bytes::be(
            match value {
                UclampValue::Value(value) => value as nat,
                UclampValue::Max => 0xffff_ffff,
            },
            4,
        ),
        ValueView::CgroupLifecycle { kind, name, present } => bytes::be(11, 1) + bytes::be(
            if kind == CgroupGroupKind::Workload {
                0
            } else {
                1
            },
            1,
        ) + bytes::be(
            if present {
                1
            } else {
                0
            },
            1,
        ) + text_bytes(name),
        ValueView::Nice(value) => bytes::be(12, 1) + bytes::be((value.value + 128) as nat, 1),
        ValueView::IoPriority(value) => bytes::be(13, 1) + bytes::be(class_number(value.class), 1)
            + bytes::be(value.level as nat, 1),
        ValueView::ProcessPlacement(cgroup) => bytes::be(14, 1) + bytes::be(
            cgroup.mount_id as nat,
            8,
        ) + bytes::be(cgroup.inode as nat, 8) + text_bytes(cgroup.handle),
    }
}

/// The fingerprint of a value.
pub open spec fn fingerprint_spec(value: ValueView) -> Seq<u8> {
    bytes::digest_spec(value_bytes(value))
}

fn push_text(out: &mut Vec<u8>, s: &str)
    ensures
        final(out)@ == old(out)@ + text_bytes(s@),
{
    let ghost start = out@;
    let raw = s.as_bytes();
    bytes::push_be(out, raw.len() as u128, 8);
    for i in 0..raw.len()
        invariant
            raw@ == vstd::utf8::encode_utf8(s@),
            out@ == start + (bytes::be(raw@.len(), 8) + raw@.take(i as int)),
    {
        out.push(raw[i]);
        assert(out@ =~= start + (bytes::be(raw@.len(), 8) + raw@.take(i + 1)));
    }
    assert(raw@.take(raw@.len() as int) =~= raw@);
}

fn push_frequency(out: &mut Vec<u8>, value: &Option<FrequencyKHz>)
    ensures
        final(out)@ == old(out)@ + frequency_bytes(*value),
{
    match value {
        Some(f) => bytes::push_be(out, f.value as u128, 8),
        None => bytes::push_be(out, 0, 8),
    }
}

fn push_ids(out: &mut Vec<u8>, cpus: &CpuSet)
    ensures
        final(out)@ == old(out)@ + id_list_bytes(cpus@),
{
    let ids = cpus.as_slice();
    let ghost start = out@;
    assert(out@ =~= start + id_list_bytes(ids@.take(0)));
    for i in 0..ids.len()
        invariant
            ids@ == cpus@,
            out@ == start + id_list_bytes(ids@.take(i as int)),
    {
        assert(ids@.take(i + 1).drop_last() =~= ids@.take(i as int));
        bytes::push_be(out, ids[i] as u128, 4);
        assert(out@ =~= start + id_list_bytes(ids@.take(i + 1)));
    }
    assert(ids@.take(ids@.len() as int) =~= ids@);
}

/// The bytes that stand for a value.
pub fn encode_value(value: &TypedValue) -> (r: Vec<u8>)
    ensures
        r@ == value_bytes(value@),
{
    let mut out: Vec<u8> = Vec::new();
    match value {
        TypedValue::Governor(id) => {
            bytes::push_be(&mut out, 1, 1);
            push_text(&mut out, id.as_str());
        },
        TypedValue::EnergyPreference(value) => {
            bytes::push_be(&mut out, 2, 1);
            let number: u128 = match value {
                EnergyPreference::Performance => 0,
                EnergyPreference::BalancePerformance => 1,
                EnergyPreference::BalancePower => 2,
                EnergyPreference::Power => 3,
            };
            bytes::push_be(&mut out, number, 1);
        },
        TypedValue::CpuFrequency { min_khz, max_khz } => {
            bytes::push_be(&mut out, 3, 1);
            push_frequency(&mut out, min_khz);
            push_frequency(&mut out, max_khz);
        },
        TypedValue::CpuBoost(value) => {
            bytes::push_be(&mut out, 4, 1);
            let number: u128 = match value {
                CpuBoostState::Enabled => 1,
                CpuBoostState::Disabled => 0,
            };
            bytes::push_be(&mut out, number, 1);
        },
        TypedValue::PlatformProfile(id) => {
            bytes::push_be(&mut out, 5, 1);
            push_text(&mut out, id.as_str());
        },
        TypedValue::CgroupCpuWeight(value) => {
            bytes::push_be(&mut out, 6, 1);
            bytes::push_be(&mut out, value.value as u128, 8);
        },
        TypedValue::CgroupCpuMax { quota, period } => {
            bytes::push_be(&mut out, 7, 1);
            let number: u128 = match quota {
                CpuQuota::Max => 0,
                CpuQuota::Micros(value) => *value as u128,
            };
            bytes::push_be(&mut out, number, 8);
            bytes::push_be(&mut out, period.value as u128, 8);
        },
        TypedValue::CgroupCpuset(cpus) => {
            bytes::push_be(&mut out, 8, 1);
            push_ids(&mut out, cpus);
        },
        TypedValue::CgroupIoWeight(value) => {
            bytes::push_be(&mut out, 9, 1);
            bytes::push_be(&mut out, value.value as u128, 8);
        },
        TypedValue::CgroupUclamp(value) => {
            bytes::push_be(&mut out, 10, 1);
            let number: u128 = match value {
                UclampValue::Value(value) => *value as u128,
                UclampValue::Max => 0xffff_ffff,
            };
            bytes::push_be(&mut out, number, 4);
        },
        TypedValue::CgroupLifecycle { kind, name, present } => {
            bytes::push_be(&mut out, 11, 1);
            let number: u128 = match kind {
                CgroupGroupKind::Workload => 0,
                CgroupGroupKind::ConservativeBackground => 1,
            };
            bytes::push_be(&mut out, number, 1);
            bytes::push_be(
                &mut out,
                if *present {
                    1
                } else {
                    0
                },
                1,
            );
            push_text(&mut out, name.as_str());
        },
        TypedValue::Nice(value) => {
            bytes::push_be(&mut out, 12, 1);
            bytes::push_be(&mut out, (value.value as i16 + 128) as u128, 1);
        },
        TypedValue::IoPriority(value) => {
            bytes::push_be(&mut out, 13, 1);
            let number: u128 = match value.class {
                IoPriorityClass::Unset => 0,
                IoPriorityClass::RealTime => 1,
                IoPriorityClass::BestEffort => 2,
                IoPriorityClass::Idle => 3,
            };
            bytes::push_be(&mut out, number, 1);
            bytes::push_be(&mut out, value.level as u128, 1);
        },
        TypedValue::ProcessPlacement(cgroup) => {
            bytes::push_be(&mut out, 14, 1);
            bytes::push_be(&mut out, cgroup.mount_id as u128, 8);
            bytes::push_be(&mut out, cgroup.inode as u128, 8);
            push_text(&mut out, cgroup.handle.as_str());
        },
    }
    assert(out@ =~= value_bytes(value@));
    out
}

/// The fingerprint of a value.
pub open spec fn fingerprint_of(value: ValueView) -> StateFingerprint {
    choose|f: StateFingerprint| #[trigger] f.bytes@ == fingerprint_spec(value)
}

/// The fingerprint of a value: the same for equal values.
pub fn fingerprint_for_value(value: &TypedValue) -> (r: StateFingerprint)
    ensures
        r.bytes@ == fingerprint_spec(value@),
        r == fingerprint_of(value@),
{
    let encoded = encode_value(value);
    let r = StateFingerprint { bytes: bytes::stable_digest(encoded.as_slice()) };
    proof {
        let f = fingerprint_of(value@);
        assert(f.bytes@ == r.bytes@);
        assert(f.bytes =~= r.bytes);
    }
    r
}

/// A fingerprint is taken of bytes that begin with the number of the sort of value,
/// and a choice among a few is one byte more: no two sorts, and no two choices of
/// one sort, are taken of the same bytes.
pub proof fn fingerprints_tell_choices_apart(
    one: EnergyPreference,
    other: EnergyPreference,
    name: Seq<char>,
)
    ensures
        value_bytes(ValueView::EnergyPreference(EnergyPreference::Performance)) == seq![2u8, 0u8],
        value_bytes(ValueView::EnergyPreference(EnergyPreference::BalancePerformance)) == seq![
            2u8,
            1u8,
        ],
        value_bytes(ValueView::EnergyPreference(EnergyPreference::BalancePower)) == seq![2u8, 2u8],
        value_bytes(ValueView::EnergyPreference(EnergyPreference::Power)) == seq![2u8, 3u8],
        value_bytes(ValueView::CpuBoost(CpuBoostState::Disabled)) == seq![4u8, 0u8],
        value_bytes(ValueView::CpuBoost(CpuBoostState::Enabled)) == seq![4u8, 1u8],
        value_bytes(ValueView::EnergyPreference(one)) == value_bytes(
            ValueView::EnergyPreference(other),
        ) ==> one == other,
        value_bytes(ValueView::Governor(name))[0] == 1,
        value_bytes(ValueView::PlatformProfile(name))[0] == 5,
{
    reveal_with_fuel(bytes::be, 2);
    assert(bytes::be(1, 1) =~= seq![1u8]);
    assert(bytes::be(2, 1) =~= seq![2u8]);
    assert(bytes::be(3, 1) =~= seq![3u8]);
    assert(bytes::be(4, 1) =~= seq![4u8]);
    assert(bytes::be(5, 1) =~= seq![5u8]);
    assert(bytes::be(0, 1) =~= seq![0u8]);
    assert(value_bytes(ValueView::EnergyPreference(one))[1] == energy_number(one) as u8);
    assert(value_bytes(ValueView::EnergyPreference(other))[1] == energy_number(other) as u8);
}

} // verus!
