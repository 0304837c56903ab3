//! The controls of control groups and processes: what their files hold and what
//! is written to them.

use vstd::prelude::*;

use crate::bytes;
use crate::cpuset;
use crate::cpuset::CpuSet;
use crate::durable::IoFailure;
use crate::error::{ErrorCode, ErrorView, Stage, SysboostError};
use crate::filesystem::EntryKind;
use crate::ids::{CgroupName, TargetId, TargetIdentity};
use crate::mutation::{KindView, MutationKind};
use crate::process;
use crate::text;
use crate::value;
use crate::value::{
    CgroupId, CgroupView, CpuPeriod, CpuQuota, CpuWeight, IoPriorityClass, IoWeight, NiceValue,
    ProcessId, TypedValue, UclampValue, ValueView,
};

verus! {

/// The target of the root of the control groups.
pub const ROOT_TARGET: &'static str = "cgroup.root";

/// The most bytes that are read of a control.
pub const MAX_READ_BYTES: usize = 4096;

/// The most groups that are listed.
pub const MAX_WORKLOAD_GROUPS: usize = 4096;

/// The most CPUs that a set may name.
pub const MAX_CPUSET_CPUS: usize = 4096;

/// The most bytes that are written to a control.
pub const MAX_WORKLOAD_VALUE_BYTES: usize = 128;

/// A control of a group. There are no others.
#[derive(Clone, Copy, Debug, PartialEq, Eq, Hash, Structural)]
pub enum WorkloadNode {
    CpuWeight,
    CpuMax,
    CpusetCpus,
    IoWeight,
    UclampMin,
    UclampMax,
}

impl WorkloadNode {
    /// The name of the controller that a control belongs to.
    pub open spec fn controller_spec(self) -> Seq<char> {
        match self {
            WorkloadNode::CpusetCpus => "cpuset"@,
            WorkloadNode::IoWeight => "io"@,
            _ => "cpu"@,
        }
    }

    /// The name of the file of a control.
    pub open spec fn filename_spec(self) -> Seq<char> {
        match self {
            WorkloadNode::CpuWeight => "cpu.weight"@,
            WorkloadNode::CpuMax => "cpu.max"@,
            WorkloadNode::CpusetCpus => "cpuset.cpus"@,
            WorkloadNode::IoWeight => "io.weight"@,
            WorkloadNode::UclampMin => "cpu.uclamp.min"@,
            WorkloadNode::UclampMax => "cpu.uclamp.max"@,
        }
    }

    /// The name of the controller that a control belongs to.
    pub fn controller(self) -> (r: &'static str)
        ensures
            r@ == self.controller_spec(),
    {
        match self {
            WorkloadNode::CpuWeight => "cpu",
            WorkloadNode::CpuMax => "cpu",
            WorkloadNode::UclampMin => "cpu",
            WorkloadNode::UclampMax => "cpu",
            WorkloadNode::CpusetCpus => "cpuset",
            WorkloadNode::IoWeight => "io",
        }
    }

    /// The name of the file of a control.
    pub fn filename(self) -> (r: &'static str)
        ensures
            r@ == self.filename_spec(),
    {
        match self {
            WorkloadNode::CpuWeight => "cpu.weight",
            WorkloadNode::CpuMax => "cpu.max",
            WorkloadNode::CpusetCpus => "cpuset.cpus",
            WorkloadNode::IoWeight => "io.weight",
            WorkloadNode::UclampMin => "cpu.uclamp.min",
            WorkloadNode::UclampMax => "cpu.uclamp.max",
        }
    }
}

/// An error of the workload backend.
pub open spec fn fault(code: ErrorCode, message: Seq<char>) -> ErrorView {
    crate::error::staged(code, message, Stage::Apply)
}

/// A target that is not what it should be.
pub open spec fn target_fault(message: Seq<char>) -> ErrorView {
    fault(ErrorCode::TargetError, message)
}

/// Something that the host does not have.
pub open spec fn unsupported_fault(message: Seq<char>) -> ErrorView {
    fault(ErrorCode::Unsupported, message)
}

/// An error of the workload backend.
pub fn workload_error(code: ErrorCode, message: &str) -> (r: SysboostError)
    ensures
        r@ == fault(code, message@),
{
    SysboostError::new(code, message).with_stage(Stage::Apply)
}

/// A target that is not what it should be.
pub fn target_error(message: &str) -> (r: SysboostError)
    ensures
        r@ == target_fault(message@),
{
    workload_error(ErrorCode::TargetError, message)
}

/// Something that the host does not have.
pub fn unsupported(message: &str) -> (r: SysboostError)
    ensures
        r@ == unsupported_fault(message@),
{
    workload_error(ErrorCode::Unsupported, message)
}

/// Something that the backend may not do.
pub fn permission_error(message: &str) -> (r: SysboostError)
    ensures
        r@ == fault(ErrorCode::AuthorizationError, message@),
{
    workload_error(ErrorCode::AuthorizationError, message)
}

/// The code of a failed operation on a file.
pub open spec fn failure_code(failure: IoFailure) -> ErrorCode {
    match failure {
        IoFailure::PermissionDenied => ErrorCode::AuthorizationError,
        IoFailure::NotFound => ErrorCode::TargetError,
        _ => ErrorCode::ApplyError,
    }
}

/// The error of a failed operation on a file.
pub fn io_error(failure: IoFailure, message: &str) -> (r: SysboostError)
    ensures
        r@ == fault(failure_code(failure), message@),
{
    match failure {
        IoFailure::PermissionDenied => permission_error(message),
        IoFailure::NotFound => target_error(message),
        _ => workload_error(ErrorCode::ApplyError, message),
    }
}

/// A number that a text writes, or an error.
pub open spec fn number_in(digits: Seq<char>, message: Seq<char>) -> Result<nat, ErrorView> {
    match text::parse_spec(digits, u64::MAX as nat) {
        Some(n) => Ok(n),
        None => Err(target_fault(message)),
    }
}

fn parse_number(digits: &[char], message: &str) -> (r: Result<u64, SysboostError>)
    ensures
        match r {
            Ok(n) => number_in(digits@, message@) == Ok::<nat, ErrorView>(n as nat),
            Err(e) => number_in(digits@, message@) == Err::<nat, ErrorView>(e@),
        },
{
    match text::parse_unsigned(digits, u64::MAX as u128) {
        Some(n) => Ok(n as u64),
        None => Err(target_error(message)),
    }
}

/// The weight that a text writes.
pub open spec fn cpu_weight_in(value: Seq<char>) -> Result<ValueView, ErrorView> {
    match number_in(text::trim_spec(value), "cpu.weight is malformed"@) {
        Err(e) => Err(e),
        Ok(n) => if 1 <= n <= 10_000 {
            Ok(ValueView::CgroupCpuWeight(CpuWeight { value: n as u64 }))
        } else {
            Err(value::out_of_range("CPU weight is out of range"@))
        },
    }
}

fn parse_cpu_weight(value: &[char]) -> (r: Result<TypedValue, SysboostError>)
    ensures
        crate::error::viewed(r) == cpu_weight_in(value@),
{
    match parse_number(text::trim(value), "cpu.weight is malformed") {
        Err(e) => Err(e),
        Ok(n) => match CpuWeight::new(n) {
            Ok(weight) => Ok(TypedValue::CgroupCpuWeight(weight)),
            Err(e) => Err(e),
        },
    }
}

/// The quota that a word writes.
pub open spec fn quota_in(word: Seq<char>) -> Result<CpuQuota, ErrorView> {
    if word == "max"@ {
        Ok(CpuQuota::Max)
    } else {
        match number_in(word, "cpu.max quota is malformed"@) {
            Err(e) => Err(e),
            Ok(n) => if n == 0 {
                Err(value::out_of_range("CPU quota must be positive"@))
            } else {
                Ok(CpuQuota::Micros(n as u64))
            },
        }
    }
}

fn parse_quota(word: &[char]) -> (r: Result<CpuQuota, SysboostError>)
    ensures
        crate::error::plain(r) == quota_in(word@),
{
    let max = text::chars_of("max");
    if text::same_chars(word, max.as_slice()) {
        Ok(CpuQuota::Max)
    } else {
        match parse_number(word, "cpu.max quota is malformed") {
            Err(e) => Err(e),
            Ok(n) => CpuQuota::micros(n),
        }
    }
}

/// The limit that a text writes: a quota and a period.
pub open spec fn cpu_max_in(words: Seq<Seq<char>>) -> Result<ValueView, ErrorView> {
    if words.len() == 0 {
        Err(target_fault("cpu.max is malformed"@))
    } else {
        match quota_in(words[0]) {
            Err(e) => Err(e),
            Ok(quota) => if words.len() == 1 {
                Err(target_fault("cpu.max period is missing"@))
            } else {
                match number_in(words[1], "cpu.max period is malformed"@) {
                    Err(e) => Err(e),
                    Ok(n) => if n == 0 {
                        Err(value::out_of_range("CPU period must be positive"@))
                    } else if words.len() > 2 {
                        Err(target_fault("cpu.max has unexpected fields"@))
                    } else {
                        Ok(
                            ValueView::CgroupCpuMax {
                                quota,
                                period: CpuPeriod { value: n as u64 },
                            },
                        )
                    },
                }
            },
        }
    }
}

fn parse_cpu_max(value: &[char]) -> (r: Result<TypedValue, SysboostError>)
    ensures
        crate::error::viewed(r) == cpu_max_in(text::words_spec(value@)),
{
    let words = text::words(value);
    let ghost all = text::words_spec(value@);
    assert(all.len() == words@.len());
    if words.len() == 0 {
        return Err(target_error("cpu.max is malformed"));
    }
    assert(all[0] == words@[0]@);
    let quota = match parse_quota(words[0].as_slice()) {
        Ok(quota) => quota,
        Err(e) => {
            return Err(e);
        },
    };
    if words.len() == 1 {
        return Err(target_error("cpu.max period is missing"));
    }
    assert(all[1] == words@[1]@);
    let n: u64 = match parse_number(words[1].as_slice(), "cpu.max period is malformed") {
        Ok(n) => n,
        Err(e) => {
            return Err(e);
        },
    };
    let period = match CpuPeriod::new(n) {
        Ok(period) => period,
        Err(e) => {
            return Err(e);
        },
    };
    if words.len() > 2 {
        return Err(target_error("cpu.max has unexpected fields"));
    }
    Ok(TypedValue::CgroupCpuMax { quota, period })
}

/// The CPUs from one to another.
pub open spec fn span(start: u32, end: u32) -> Seq<u32> {
    Seq::new((end - start + 1) as nat, |i: int| (start + i) as u32)
}

/// CPUs with those that one part of a list names.
pub open spec fn with_part(cpus: Seq<u32>, part: Seq<char>) -> Result<Seq<u32>, ErrorView> {
    let dash = text::find_spec(part, '-');
    if part.len() == 0 {
        Err(target_fault("cpuset.cpus is malformed"@))
    } else if dash < part.len() {
        match (
            text::parse_spec(part.take(dash), u32::MAX as nat),
            text::parse_spec(part.skip(dash + 1), u32::MAX as nat),
        ) {
            (Some(start), Some(end)) => if start > end || end - start > MAX_CPUSET_CPUS {
                Err(target_fault("cpuset range is outside the bounded contract"@))
            } else {
                bounded(cpus + span(start as u32, end as u32))
            },
            _ => Err(target_fault("cpuset range is malformed"@)),
        }
    } else {
        match text::parse_spec(part, u32::MAX as nat) {
            Some(n) => bounded(cpus.push(n as u32)),
            None => Err(target_fault("cpuset CPU is malformed"@)),
        }
    }
}

/// CPUs, unless there are too many.
pub open spec fn bounded(cpus: Seq<u32>) -> Result<Seq<u32>, ErrorView> {
    if cpus.len() > MAX_CPUSET_CPUS {
        Err(target_fault("cpuset value is oversized"@))
    } else {
        Ok(cpus)
    }
}

/// The CPUs that the parts of a list name.
pub open spec fn cpus_in(parts: Seq<Seq<char>>) -> Result<Seq<u32>, ErrorView>
    decreases parts.len(),
{
    if parts.len() == 0 {
        Ok(Seq::empty())
    } else {
        match cpus_in(parts.drop_last()) {
            Err(e) => Err(e),
            Ok(cpus) => with_part(cpus, parts.last()),
        }
    }
}

/// The set that a text writes.
pub open spec fn cpuset_in(value: Seq<char>) -> Result<Seq<u32>, ErrorView> {
    match cpus_in(text::split_spec(text::trim_spec(value), ',')) {
        Err(e) => Err(e),
        Ok(cpus) => if cpus.len() == 0 {
            Err(target_fault("cpuset.cpus is empty"@))
        } else {
            Ok(cpuset::canonical(cpus))
        },
    }
}

proof fn lemma_cpus_error(parts: Seq<Seq<char>>, n: int)
    requires
        0 <= n <= parts.len(),
        cpus_in(parts.take(n)) is Err,
    ensures
        cpus_in(parts) == cpus_in(parts.take(n)),
    decreases parts.len() - n,
{
    if n < parts.len() {
        assert(parts.take(n + 1).drop_last() =~= parts.take(n));
        lemma_cpus_error(parts, n + 1);
    } else {
        assert(parts.take(n) =~= parts);
    }
}

fn add_part(cpus: &mut Vec<u32>, part: &[char]) -> (r: Result<(), SysboostError>)
    requires
        old(cpus)@.len() <= MAX_CPUSET_CPUS,
    ensures
        match r {
            Ok(_) => with_part(old(cpus)@, part@) == Ok::<Seq<u32>, ErrorView>(final(cpus)@)
                && final(cpus)@.len() <= MAX_CPUSET_CPUS,
            Err(e) => with_part(old(cpus)@, part@) == Err::<Seq<u32>, ErrorView>(e@),
        },
{
    let ghost before = cpus@;
    if part.len() == 0 {
        return Err(target_error("cpuset.cpus is malformed"));
    }
    let dash: usize = text::find(part, '-');
    if dash < part.len() {
        let first = vstd::slice::slice_subrange(part, 0, dash);
        let last = vstd::slice::slice_subrange(part, dash + 1, part.len());
        assert(first@ =~= part@.take(dash as int));
        assert(last@ =~= part@.skip(dash + 1));
        let start: u32 = match text::parse_unsigned(first, u32::MAX as u128) {
            Some(n) => n as u32,
            None => {
                return Err(target_error("cpuset range is malformed"));
            },
        };
        let end: u32 = match text::parse_unsigned(last, u32::MAX as u128) {
            Some(n) => n as u32,
            None => {
                return Err(target_error("cpuset range is malformed"));
            },
        };
        if start > end || end - start > 4096 {
            return Err(target_error("cpuset range is outside the bounded contract"));
        }
        let ghost all = span(start, end);
        let count: u32 = end - start;
        let mut k: u32 = 0;
        assert(cpus@ =~= before + all.take(0));
        while k < count
            invariant
                k <= count <= 4096,
                start + count == end,
                all == span(start, end),
                cpus@ == before + all.take(k as int),
            decreases count - k,
        {
            cpus.push(start + k);
            assert(all.take(k + 1) =~= all.take(k as int).push(all[k as int]));
            assert(cpus@ =~= before + all.take(k + 1));
            k = k + 1;
        }
        cpus.push(end);
        assert(cpus@ =~= before + all);
    } else {
        match text::parse_unsigned(part, u32::MAX as u128) {
            Some(n) => {
                cpus.push(n as u32);
            },
            None => {
                return Err(target_error("cpuset CPU is malformed"));
            },
        }
    }
    if cpus.len() > MAX_CPUSET_CPUS {
        Err(target_error("cpuset value is oversized"))
    } else {
        Ok(())
    }
}

/// The set that a text writes.
pub fn parse_cpuset(value: &[char]) -> (r: Result<CpuSet, SysboostError>)
    ensures
        crate::error::viewed(r) == cpuset_in(value@),
{
    let parts = text::split(text::trim(value), ',');
    let ghost all = text::split_spec(text::trim_spec(value@), ',');
    assert(all == text::deep_chars(parts@));
    let mut cpus: Vec<u32> = Vec::new();
    let mut i: usize = 0;
    assert(all.take(0) =~= Seq::empty());
    while i < parts.len()
        invariant
            i <= parts@.len(),
            all == text::deep_chars(parts@),
            all.len() == parts@.len(),
            all == text::split_spec(text::trim_spec(value@), ','),
            cpus@.len() <= MAX_CPUSET_CPUS,
            cpus_in(all.take(i as int)) == Ok::<Seq<u32>, ErrorView>(cpus@),
        decreases parts@.len() - i,
    {
        proof {
            assert(all[i as int] == parts@[i as int]@);
            assert(all.take(i + 1).drop_last() =~= all.take(i as int));
            assert(all.take(i + 1).last() == all[i as int]);
        }
        match add_part(&mut cpus, parts[i].as_slice()) {
            Ok(_) => {},
            Err(e) => {
                proof {
                    lemma_cpus_error(all, i + 1);
                }
                return Err(e);
            },
        }
        i = i + 1;
    }
    assert(all.take(i as int) =~= all);
    match CpuSet::new(cpus) {
        Ok(set) => Ok(set),
        Err(_) => Err(target_error("cpuset.cpus is empty")),
    }
}

/// The weight that a word writes.
pub open spec fn io_weight_in(word: Seq<char>) -> Result<IoWeight, ErrorView> {
    match number_in(word, "io.weight is malformed"@) {
        Err(e) => Err(e),
        Ok(n) => if 1 <= n <= 10_000 {
            Ok(IoWeight { value: n as u64 })
        } else {
            Err(value::out_of_range("I/O weight is out of range"@))
        },
    }
}

fn parse_io_weight(word: &[char]) -> (r: Result<IoWeight, SysboostError>)
    ensures
        crate::error::plain(r) == io_weight_in(word@),
{
    match parse_number(word, "io.weight is malformed") {
        Err(e) => Err(e),
        Ok(n) => IoWeight::new(n),
    }
}

/// The default weight that is known after one more line.
pub open spec fn with_line(known: Option<IoWeight>, words: Seq<Seq<char>>) -> Result<
    Option<IoWeight>,
    ErrorView,
> {
    if words.len() == 2 && words[0] == "default"@ {
        if known is Some {
            Err(target_fault("io.weight has duplicate default entries"@))
        } else {
            match io_weight_in(words[1]) {
                Err(e) => Err(e),
                Ok(weight) => Ok(Some(weight)),
            }
        }
    } else if words.len() >= 2 {
        Err(
            unsupported_fault("per-device io.weight entries are outside the closed operation"@),
        )
    } else {
        Err(target_fault("io.weight is malformed"@))
    }
}

/// The default weight that lines name.
pub open spec fn io_lines(lines: Seq<Seq<char>>) -> Result<Option<IoWeight>, ErrorView>
    decreases lines.len(),
{
    if lines.len() == 0 {
        Ok(None)
    } else {
        match io_lines(lines.drop_last()) {
            Err(e) => Err(e),
            Ok(known) => with_line(known, text::words_spec(lines.last())),
        }
    }
}

/// The weight that a text writes: the default one, and no other.
pub open spec fn default_weight_in(value: Seq<char>) -> Result<ValueView, ErrorView> {
    match io_lines(text::lines_spec(value)) {
        Err(e) => Err(e),
        Ok(None) => Err(target_fault("io.weight default entry is missing"@)),
        Ok(Some(weight)) => Ok(ValueView::CgroupIoWeight(weight)),
    }
}

proof fn lemma_io_error(lines: Seq<Seq<char>>, n: int)
    requires
        0 <= n <= lines.len(),
        io_lines(lines.take(n)) is Err,
    ensures
        io_lines(lines) == io_lines(lines.take(n)),
    decreases lines.len() - n,
{
    if n < lines.len() {
        assert(lines.take(n + 1).drop_last() =~= lines.take(n));
        lemma_io_error(lines, n + 1);
    } else {
        assert(lines.take(n) =~= lines);
    }
}

fn add_line(known: Option<IoWeight>, line: &[char]) -> (r: Result<Option<IoWeight>, SysboostError>)
    ensures
        crate::error::plain(r) == with_line(known, text::words_spec(line@)),
{
    let words = text::words(line);
    let ghost all = text::words_spec(line@);
    assert(all.len() == words@.len());
    let mark = text::chars_of("default");
    proof {
        if words@.len() >= 2 {
            assert(all[0] == words@[0]@);
            assert(all[1] == words@[1]@);
        }
    }
    if words.len() == 2 && text::same_chars(words[0].as_slice(), mark.as_slice()) {
        if known.is_some() {
            return Err(target_error("io.weight has duplicate default entries"));
        }
        match parse_io_weight(words[1].as_slice()) {
            Err(e) => Err(e),
            Ok(weight) => Ok(Some(weight)),
        }
    } else if words.len() >= 2 {
        Err(unsupported("per-device io.weight entries are outside the closed operation"))
    } else {
        Err(target_error("io.weight is malformed"))
    }
}

fn parse_default_weight(value: &[char]) -> (r: Result<TypedValue, SysboostError>)
    ensures
        crate::error::viewed(r) == default_weight_in(value@),
{
    let lines = text::lines(value);
    let ghost all = text::lines_spec(value@);
    let mut known: Option<IoWeight> = None;
    let mut i: usize = 0;
    assert(all.take(0) =~= Seq::empty());
    while i < lines.len()
        invariant
            i <= lines@.len(),
            all == text::deep_chars(lines@),
            all.len() == lines@.len(),
            all == text::lines_spec(value@),
            io_lines(all.take(i as int)) == Ok::<Option<IoWeight>, ErrorView>(known),
        decreases lines@.len() - i,
    {
        proof {
            assert(all[i as int] == lines@[i as int]@);
            assert(all.take(i + 1).drop_last() =~= all.take(i as int));
            assert(all.take(i + 1).last() == all[i as int]);
        }
        match add_line(known, lines[i].as_slice()) {
            Ok(next) => {
                known = next;
            },
            Err(e) => {
                proof {
                    lemma_io_error(all, i + 1);
                }
                return Err(e);
            },
        }
        i = i + 1;
    }
    assert(all.take(i as int) =~= all);
    match known {
        Some(weight) => Ok(TypedValue::CgroupIoWeight(weight)),
        None => Err(target_error("io.weight default entry is missing")),
    }
}

/// The clamp that bytes write.
pub open spec fn uclamp_in(raw: Seq<u8>) -> Result<UclampValue, ErrorView> {
    match text::decode_spec(raw) {
        None => Err(target_fault("uclamp value is not valid UTF-8"@)),
        Some(value) => if text::trim_spec(value) == "max"@ {
            Ok(UclampValue::Max)
        } else {
            match text::parse_spec(text::trim_spec(value), u16::MAX as nat) {
                None => Err(target_fault("uclamp value is malformed"@)),
                Some(n) => if n > 1024 {
                    Err(value::out_of_range("uclamp value is out of range"@))
                } else {
                    Ok(UclampValue::Value(n as u16))
                },
            }
        },
    }
}

/// The clamp that bytes write.
pub fn parse_uclamp(raw: &[u8]) -> (r: Result<UclampValue, SysboostError>)
    ensures
        crate::error::plain(r) == uclamp_in(raw@),
{
    let value = match text::decode(raw) {
        Some(value) => value,
        None => {
            return Err(target_error("uclamp value is not valid UTF-8"));
        },
    };
    let chars = text::chars_of(value.as_str());
    let trimmed = text::trim(chars.as_slice());
    let max = text::chars_of("max");
    if text::same_chars(trimmed, max.as_slice()) {
        return Ok(UclampValue::Max);
    }
    match text::parse_unsigned(trimmed, u16::MAX as u128) {
        Some(n) => UclampValue::new(n as u16),
        None => Err(target_error("uclamp value is malformed")),
    }
}

/// The value that the bytes of a control stand for.
pub open spec fn workload_value(node: WorkloadNode, raw: Seq<u8>) -> Result<ValueView, ErrorView> {
    match text::decode_spec(raw) {
        None => Err(target_fault("cgroup controller value is not valid UTF-8"@)),
        Some(value) => match node {
            WorkloadNode::CpuWeight => cpu_weight_in(value),
            WorkloadNode::CpuMax => cpu_max_in(text::words_spec(value)),
            WorkloadNode::CpusetCpus => match cpuset_in(value) {
                Ok(cpus) => Ok(ValueView::CgroupCpuset(cpus)),
                Err(e) => Err(e),
            },
            WorkloadNode::IoWeight => default_weight_in(value),
            _ => match uclamp_in(raw) {
                Ok(clamp) => Ok(ValueView::CgroupUclamp(clamp)),
                Err(e) => Err(e),
            },
        },
    }
}

/// The value that the bytes of a control stand for.
pub fn parse_workload_node(node: WorkloadNode, raw: &[u8]) -> (r: Result<TypedValue, SysboostError>)
    ensures
        crate::error::viewed(r) == workload_value(node, raw@),
{
    let value = match text::decode(raw) {
        Some(value) => value,
        None => {
            return Err(target_error("cgroup controller value is not valid UTF-8"));
        },
    };
    let chars = text::chars_of(value.as_str());
    match node {
        WorkloadNode::CpuWeight => parse_cpu_weight(chars.as_slice()),
        WorkloadNode::CpuMax => parse_cpu_max(chars.as_slice()),
        WorkloadNode::CpusetCpus => match parse_cpuset(chars.as_slice()) {
            Ok(cpus) => Ok(TypedValue::CgroupCpuset(cpus)),
            Err(e) => Err(e),
        },
        WorkloadNode::IoWeight => parse_default_weight(chars.as_slice()),
        _ => match parse_uclamp(raw) {
            Ok(clamp) => Ok(TypedValue::CgroupUclamp(clamp)),
            Err(e) => Err(e),
        },
    }
}

/// The text of a quota.
pub open spec fn quota_text(quota: CpuQuota) -> Seq<char> {
    match quota {
        CpuQuota::Max => "max"@,
        CpuQuota::Micros(n) => text::decimal_spec(n as nat),
    }
}

/// The text of a quota.
pub fn render_quota(quota: CpuQuota) -> (r: String)
    ensures
        r@ == quota_text(quota),
{
    match quota {
        CpuQuota::Max => "max".to_string(),
        CpuQuota::Micros(n) => text::decimal(n as u128),
    }
}

/// The text of a limit.
pub open spec fn cpu_max_text(quota: CpuQuota, period: CpuPeriod) -> Seq<char> {
    quota_text(quota) + " "@ + text::decimal_spec(period.value as nat)
}

/// The text of a limit.
pub fn render_cpu_max(quota: CpuQuota, period: CpuPeriod) -> (r: String)
    ensures
        r@ == cpu_max_text(quota, period),
{
    let first = render_quota(quota);
    let second = text::decimal(period.get() as u128);
    text::join3(first.as_str(), " ", second.as_str())
}

/// The text of a set: its CPUs with commas between them.
pub open spec fn cpuset_text(cpus: Seq<u32>) -> Seq<char> {
    text::join_spec(cpus.map_values(|cpu: u32| text::decimal_spec(cpu as nat)), ',')
}

/// The text of a set.
pub fn render_cpuset(cpus: &CpuSet) -> (r: String)
    ensures
        r@ == cpuset_text(cpus@),
{
    let values = cpus.as_slice();
    let ghost parts = values@.map_values(|cpu: u32| text::decimal_spec(cpu as nat));
    let mut out = String::new();
    assert(parts.take(0) =~= Seq::empty());
    for i in 0..values.len()
        invariant
            parts == values@.map_values(|cpu: u32| text::decimal_spec(cpu as nat)),
            out@ == text::join_spec(parts.take(i as int), ','),
    {
        assert(parts.take(i + 1).drop_last() =~= parts.take(i as int));
        if i > 0 {
            out.push(',');
        }
        out.append(text::decimal(values[i] as u128).as_str());
        assert(parts.take(i + 1).last() == parts[i as int]);
        assert(out@ =~= text::join_spec(parts.take(i + 1), ','));
    }
    assert(parts.take(values@.len() as int) =~= parts);
    out
}

/// The text of a clamp.
pub open spec fn uclamp_text(clamp: UclampValue) -> Seq<char> {
    match clamp {
        UclampValue::Max => "max"@,
        UclampValue::Value(n) => text::decimal_spec(n as nat),
    }
}

/// The text of a clamp.
pub fn render_uclamp(clamp: UclampValue) -> (r: String)
    ensures
        r@ == uclamp_text(clamp),
{
    match clamp {
        UclampValue::Max => "max".to_string(),
        UclampValue::Value(n) => text::decimal(n as u128),
    }
}

/// The number of a clamp; the highest counts as 1024.
pub open spec fn clamp_number(clamp: UclampValue) -> int {
    match clamp {
        UclampValue::Value(n) => n as int,
        UclampValue::Max => 1024,
    }
}

/// Whether a lower clamp goes with an upper one.
pub fn validate_uclamp_pair(min: UclampValue, max: UclampValue) -> (r: Result<(), SysboostError>)
    ensures
        match r {
            Ok(_) => clamp_number(min) <= clamp_number(max),
            Err(e) => clamp_number(min) > clamp_number(max) && e@ == target_fault(
                "cgroup uclamp minimum exceeds maximum"@,
            ),
        },
{
    let low: u16 = match min.get() {
        Some(n) => n,
        None => 1024,
    };
    let high: u16 = match max.get() {
        Some(n) => n,
        None => 1024,
    };
    if low > high {
        Err(target_error("cgroup uclamp minimum exceeds maximum"))
    } else {
        Ok(())
    }
}

/// A process as the identity of a target.
pub open spec fn process_identity_bytes(process: ProcessId) -> Seq<u8> {
    bytes::be(process.pid as nat, 4) + bytes::be(0, 4) + bytes::be(
        process.start_time_ticks as nat,
        8,
    )
}

/// A process as the identity of a target.
pub open spec fn process_identity_spec(process: ProcessId) -> TargetIdentity {
    choose|identity: TargetIdentity| #[trigger] identity.bytes@ == process_identity_bytes(process)
}

/// A group as the identity of a target.
pub open spec fn cgroup_identity_spec(group: CgroupView) -> TargetIdentity {
    choose|identity: TargetIdentity| #[trigger]
        identity.bytes@ == bytes::two_words(group.mount_id, group.inode)
}

fn sixteen(out: &Vec<u8>) -> (r: [u8; 16])
    requires
        out@.len() == 16,
    ensures
        r@ == out@,
{
    let mut array: [u8; 16] = [0u8; 16];
    for i in 0..16usize
        invariant
            out@.len() == 16,
            forall|j: int| 0 <= j < i ==> array@[j] == out@[j],
    {
        array[i] = out[i];
    }
    assert(array@ =~= out@);
    array
}

/// A process as the identity of a target.
pub fn process_identity(process: ProcessId) -> (r: TargetIdentity)
    ensures
        r.bytes@ == process_identity_bytes(process),
        r == process_identity_spec(process),
{
    let mut out: Vec<u8> = Vec::new();
    bytes::push_be(&mut out, process.pid() as u128, 4);
    bytes::push_be(&mut out, 0, 4);
    bytes::push_be(&mut out, process.start_time_ticks() as u128, 8);
    proof {
        bytes::be_len(process.pid as nat, 4);
        bytes::be_len(0, 4);
        bytes::be_len(process.start_time_ticks as nat, 8);
    }
    assert(out@ =~= process_identity_bytes(process));
    let r = TargetIdentity::from_bytes(sixteen(&out));
    proof {
        let other = process_identity_spec(process);
        assert(other.bytes@ == r.bytes@);
        assert(other.bytes =~= r.bytes);
    }
    r
}

/// A group as the identity of a target.
pub fn cgroup_identity(group: &CgroupId) -> (r: TargetIdentity)
    ensures
        r.bytes@ == bytes::two_words(group.mount_id, group.inode),
        r == cgroup_identity_spec(group@),
{
    let r = TargetIdentity::from_bytes(bytes::join_words(group.mount_id, group.inode));
    proof {
        let other = cgroup_identity_spec(group@);
        assert(other.bytes@ == r.bytes@);
        assert(other.bytes =~= r.bytes);
    }
    r
}

/// The identity of a process tells it apart from every other: from one that has
/// its number later, too.
pub proof fn process_identities_differ(a: ProcessId, b: ProcessId)
    requires
        process_identity_bytes(a) == process_identity_bytes(b),
    ensures
        a == b,
{
    bytes::be_ranges();
    bytes::be_len(a.pid as nat, 4);
    bytes::be_len(b.pid as nat, 4);
    bytes::be_len(0, 4);
    bytes::be_len(a.start_time_ticks as nat, 8);
    bytes::be_len(b.start_time_ticks as nat, 8);
    let x = process_identity_bytes(a);
    let y = process_identity_bytes(b);
    assert(x.take(4) =~= bytes::be(a.pid as nat, 4));
    assert(y.take(4) =~= bytes::be(b.pid as nat, 4));
    assert(x.skip(8) =~= bytes::be(a.start_time_ticks as nat, 8));
    assert(y.skip(8) =~= bytes::be(b.start_time_ticks as nat, 8));
    bytes::be_round_trip(a.pid as nat, 4);
    bytes::be_round_trip(b.pid as nat, 4);
    bytes::be_round_trip(a.start_time_ticks as nat, 8);
    bytes::be_round_trip(b.start_time_ticks as nat, 8);
}

/// The target of a group below another.
pub open spec fn child_name(parent: Seq<char>, name: Seq<char>) -> Seq<char> {
    parent + "."@ + name
}

/// The target of a group below another.
pub fn child_target(parent: &TargetId, name: &CgroupName) -> (r: TargetId)
    ensures
        r@ == child_name(parent@, name@),
{
    let target = text::join3(parent.as_str(), ".", name.as_str());
    proof {
        reveal_strlit(".");
    }
    match TargetId::new(target.as_str()) {
        Ok(target) => target,
        Err(_) => {
            assert(false);
            vstd::pervasive::unreached()
        },
    }
}

/// The path of a group below another.
pub open spec fn child_path_spec(parent: Seq<char>, name: Seq<char>) -> Seq<char> {
    if parent.len() == 0 {
        name
    } else {
        parent + "/"@ + name
    }
}

/// The path of a group below another.
pub fn child_path(parent: &str, name: &str) -> (r: String)
    ensures
        r@ == child_path_spec(parent@, name@),
{
    if parent.unicode_len() == 0 {
        name.to_string()
    } else {
        text::join3(parent, "/", name)
    }
}

/// What a process is observed to be, given its status.
pub open spec fn observed_process(process: ProcessId, stat: Seq<u8>) -> Result<ProcessId, ErrorView> {
    match text::decode_spec(stat) {
        None => Err(target_fault("process stat is not valid UTF-8"@)),
        Some(value) => if process::after_name(value) is None {
            Err(target_fault("process stat is malformed"@))
        } else {
            match process::start_time_spec(value) {
                None => Err(target_fault("process start time is unavailable"@)),
                Some(start) => if process.pid == 0 {
                    Err(value::out_of_range("process identity must be non-zero"@))
                } else if start != process.start_time_ticks {
                    Err(target_fault("process PID was recycled or identity changed"@))
                } else {
                    Ok(process)
                },
            }
        },
    }
}

proof fn lemma_after_name_some(stat: Seq<char>)
    ensures
        process::after_name(stat) is Some <==> stat.contains(')'),
    decreases stat.len(),
{
    if stat.len() > 0 {
        lemma_after_name_some(stat.drop_last());
        if stat.contains(')') && stat.last() != ')' {
            let i = stat.index_of(')');
            assert(stat.drop_last()[i] == ')');
        }
        if stat.drop_last().contains(')') {
            let i = stat.drop_last().index_of(')');
            assert(stat[i] == ')');
        }
        if stat.last() == ')' {
            assert(stat[stat.len() - 1] == ')');
        }
    }
}

fn has_close(chars: &[char]) -> (r: bool)
    ensures
        r == chars@.contains(')'),
{
    for i in 0..chars.len()
        invariant
            forall|j: int| 0 <= j < i ==> chars@[j] != ')',
    {
        if chars[i] == ')' {
            return true;
        }
    }
    false
}

/// Checks that a process is still the one that was named, given its status.
pub fn check_process(process: ProcessId, stat: &[u8]) -> (r: Result<ProcessId, SysboostError>)
    ensures
        crate::error::plain(r) == observed_process(process, stat@),
{
    let value = match text::decode(stat) {
        Some(value) => value,
        None => {
            return Err(target_error("process stat is not valid UTF-8"));
        },
    };
    let chars = text::chars_of(value.as_str());
    proof {
        lemma_after_name_some(value@);
    }
    if !has_close(chars.as_slice()) {
        return Err(target_error("process stat is malformed"));
    }
    let start: u64 = match process::parse_start_time(value.as_str()) {
        Some(start) => start,
        None => {
            return Err(target_error("process start time is unavailable"));
        },
    };
    match ProcessId::new(process.pid(), start) {
        Err(e) => Err(e),
        Ok(observed) => if observed == process {
            Ok(observed)
        } else {
            Err(target_error("process PID was recycled or identity changed"))
        },
    }
}

/// The text without slashes at the front.
pub open spec fn without_slashes(path: Seq<char>) -> Seq<char>
    decreases path.len(),
{
    if path.len() > 0 && path[0] == '/' {
        without_slashes(path.skip(1))
    } else {
        path
    }
}

/// The path of the group that a line names, where it is of the unified hierarchy.
pub open spec fn unified_path(line: Seq<char>) -> Option<Seq<char>> {
    if text::starts_with_spec(line, "0::"@) {
        Some(without_slashes(line.skip("0::"@.len() as int)))
    } else {
        None
    }
}

/// The path of the group that the first line that does so names.
pub open spec fn first_unified(lines: Seq<Seq<char>>) -> Option<Seq<char>>
    decreases lines.len(),
{
    if lines.len() == 0 {
        None
    } else {
        match first_unified(lines.drop_last()) {
            Some(path) => Some(path),
            None => unified_path(lines.last()),
        }
    }
}

/// The path of the group that a process is in.
pub open spec fn group_path_in(raw: Seq<u8>) -> Result<Seq<char>, ErrorView> {
    match text::decode_spec(raw) {
        None => Err(target_fault("process cgroup record is not valid UTF-8"@)),
        Some(value) => match first_unified(text::lines_spec(value)) {
            Some(path) => Ok(path),
            None => Err(unsupported_fault("process is not in a cgroup-v2 hierarchy"@)),
        },
    }
}

fn skip_slashes(path: &[char]) -> (r: usize)
    ensures
        r <= path@.len(),
        path@.skip(r as int) == without_slashes(path@),
{
    let mut i: usize = 0;
    assert(path@.skip(0) =~= path@);
    while i < path.len() && path[i] == '/'
        invariant
            i <= path@.len(),
            without_slashes(path@.skip(i as int)) == without_slashes(path@),
        decreases path@.len() - i,
    {
        assert(path@.skip(i as int)[0] == path@[i as int]);
        assert(path@.skip(i as int).skip(1) =~= path@.skip(i + 1));
        i = i + 1;
    }
    proof {
        if i < path@.len() {
            assert(path@.skip(i as int)[0] == path@[i as int]);
        }
    }
    i
}

proof fn lemma_first_unified(lines: Seq<Seq<char>>, n: int)
    requires
        0 <= n <= lines.len(),
        first_unified(lines.take(n)) is Some,
    ensures
        first_unified(lines) == first_unified(lines.take(n)),
    decreases lines.len() - n,
{
    if n < lines.len() {
        assert(lines.take(n + 1).drop_last() =~= lines.take(n));
        lemma_first_unified(lines, n + 1);
    } else {
        assert(lines.take(n) =~= lines);
    }
}

/// The path of the group that a process is in, given its record.
pub fn parse_group_path(raw: &[u8]) -> (r: Result<String, SysboostError>)
    ensures
        match r {
            Ok(path) => group_path_in(raw@) == Ok::<Seq<char>, ErrorView>(path@),
            Err(e) => group_path_in(raw@) == Err::<Seq<char>, ErrorView>(e@),
        },
{
    let value = match text::decode(raw) {
        Some(value) => value,
        None => {
            return Err(target_error("process cgroup record is not valid UTF-8"));
        },
    };
    let chars = text::chars_of(value.as_str());
    let lines = text::lines(chars.as_slice());
    let mark = text::chars_of("0::");
    let ghost all = text::lines_spec(value@);
    let mut i: usize = 0;
    assert(all.take(0) =~= Seq::empty());
    while i < lines.len()
        invariant
            i <= lines@.len(),
            all == text::deep_chars(lines@),
            all.len() == lines@.len(),
            mark@ == "0::"@,
            text::decode_spec(raw@) == Some(value@),
            all == text::lines_spec(value@),
            first_unified(all.take(i as int)) is None,
        decreases lines@.len() - i,
    {
        proof {
            assert(all[i as int] == lines@[i as int]@);
            assert(all.take(i + 1).drop_last() =~= all.take(i as int));
            assert(all.take(i + 1).last() == all[i as int]);
        }
        let line = lines[i].as_slice();
        if text::starts_with(line, mark.as_slice()) {
            let rest = vstd::slice::slice_subrange(line, mark.len(), line.len());
            assert(rest@ =~= line@.skip("0::"@.len() as int));
            let at: usize = skip_slashes(rest);
            let path = vstd::slice::slice_subrange(rest, at, rest.len());
            assert(path@ =~= rest@.skip(at as int));
            proof {
                lemma_first_unified(all, i + 1);
            }
            return Ok(text::string_of(path));
        }
        i = i + 1;
    }
    assert(all.take(i as int) =~= all);
    Err(unsupported("process is not in a cgroup-v2 hierarchy"))
}

/// Whether a byte is white space in ASCII.
pub open spec fn ascii_space(byte: u8) -> bool {
    byte == 0x20 || byte == 0x09 || byte == 0x0a || byte == 0x0c || byte == 0x0d
}

/// Why a managed group cannot be removed, if it cannot.
pub open spec fn removal_refusal(processes: Seq<u8>, names: Seq<Option<String>>) -> Option<
    ErrorView,
> {
    if !(forall|i: int| 0 <= i < processes.len() ==> ascii_space(#[trigger] processes[i])) {
        Some(
            fault(
                ErrorCode::RestoreError,
                "managed cgroup still contains processes; cleanup refused"@,
            ),
        )
    } else if exists|i: int| 0 <= i < names.len() && is_leftover(#[trigger] names[i]) {
        Some(
            fault(
                ErrorCode::RestoreError,
                "managed cgroup has nested groups; cleanup refused"@,
            ),
        )
    } else {
        None
    }
}

/// Whether an entry of a group keeps it from being removed: its name is not text,
/// or does not begin as the core files do.
pub open spec fn is_leftover(name: Option<String>) -> bool {
    match name {
        Some(name) => !text::starts_with_spec(name@, "cgroup."@),
        None => true,
    }
}

/// Whether a managed group can be removed, given its processes and entries.
pub fn check_removal(processes: &[u8], names: &Vec<Option<String>>) -> (r: Result<
    (),
    SysboostError,
>)
    ensures
        match r {
            Ok(_) => removal_refusal(processes@, names@) is None,
            Err(e) => removal_refusal(processes@, names@) == Some(e@),
        },
{
    let mut i: usize = 0;
    while i < processes.len()
        invariant
            i <= processes@.len(),
            forall|j: int| 0 <= j < i ==> ascii_space(#[trigger] processes@[j]),
        decreases processes@.len() - i,
    {
        let byte: u8 = processes[i];
        if !(byte == 0x20 || byte == 0x09 || byte == 0x0a || byte == 0x0c || byte == 0x0d) {
            assert(!ascii_space(processes@[i as int]));
            return Err(
                workload_error(
                    ErrorCode::RestoreError,
                    "managed cgroup still contains processes; cleanup refused",
                ),
            );
        }
        i = i + 1;
    }
    let mark = text::chars_of("cgroup.");
    let mut k: usize = 0;
    while k < names.len()
        invariant
            k <= names@.len(),
            mark@ == "cgroup."@,
            forall|j: int| 0 <= j < processes@.len() ==> ascii_space(#[trigger] processes@[j]),
            forall|j: int| 0 <= j < k ==> !is_leftover(#[trigger] names@[j]),
        decreases names@.len() - k,
    {
        let leftover = match &names[k] {
            Some(name) => {
                let chars = text::chars_of(name.as_str());
                !text::starts_with(chars.as_slice(), mark.as_slice())
            },
            None => true,
        };
        if leftover {
            assert(is_leftover(names@[k as int]));
            return Err(
                workload_error(
                    ErrorCode::RestoreError,
                    "managed cgroup has nested groups; cleanup refused",
                ),
            );
        }
        k = k + 1;
    }
    Ok(())
}

/// What is found in the place of a managed group.
#[derive(Clone, Copy, Debug, PartialEq, Eq, Structural)]
pub enum GroupFound {
    Object(EntryKind),
    Failed(IoFailure),
}

/// Whether a managed group is there.
pub open spec fn presence(found: GroupFound) -> Result<bool, ErrorView> {
    match found {
        GroupFound::Object(EntryKind::Directory) => Ok(true),
        GroupFound::Object(_) => Err(target_fault("managed cgroup path is not a directory"@)),
        GroupFound::Failed(IoFailure::NotFound) => Ok(false),
        GroupFound::Failed(failure) => Err(
            fault(failure_code(failure), "managed cgroup presence cannot be inspected"@),
        ),
    }
}

/// Whether a managed group is there.
pub fn is_group_present(found: GroupFound) -> (r: Result<bool, SysboostError>)
    ensures
        crate::error::plain(r) == presence(found),
{
    match found {
        GroupFound::Object(kind) => match kind {
            EntryKind::Directory => Ok(true),
            _ => Err(target_error("managed cgroup path is not a directory")),
        },
        GroupFound::Failed(failure) => match failure {
            IoFailure::NotFound => Ok(false),
            _ => Err(io_error(failure, "managed cgroup presence cannot be inspected")),
        },
    }
}

/// Whether a text may be written to a control.
pub open spec fn writable(value: Seq<char>) -> bool {
    &&& value.len() > 0
    &&& vstd::utf8::encode_utf8(value).len() <= MAX_WORKLOAD_VALUE_BYTES
    &&& !value.contains('\0')
}

/// Whether a text may be written to a control.
pub fn check_workload_value(value: &str) -> (r: Result<(), SysboostError>)
    ensures
        match r {
            Ok(_) => writable(value@),
            Err(e) => !writable(value@) && e@ == fault(
                ErrorCode::InvalidInput,
                "generated workload value is invalid"@,
            ),
        },
{
    let chars = text::chars_of(value);
    let length: usize = value.as_bytes().len();
    let mut valid = chars.len() > 0 && length <= MAX_WORKLOAD_VALUE_BYTES;
    let mut i: usize = 0;
    while i < chars.len()
        invariant
            i <= chars@.len(),
            chars@ == value@,
            length == vstd::utf8::encode_utf8(value@).len(),
            valid == (chars@.len() > 0 && length <= MAX_WORKLOAD_VALUE_BYTES && forall|j: int|
                0 <= j < i ==> chars@[j] != '\0'),
        decreases chars@.len() - i,
    {
        if chars[i] == '\0' {
            valid = false;
        }
        i = i + 1;
    }
    if valid {
        Ok(())
    } else {
        Err(workload_error(ErrorCode::InvalidInput, "generated workload value is invalid"))
    }
}

/// One write on a host.
#[derive(Debug, PartialEq, Eq)]
pub enum WorkloadWrite {
    /// A text to a control of a group.
    Control { group: CgroupId, node: WorkloadNode, text: String },
    CreateGroup { parent: CgroupId, name: CgroupName },
    RemoveGroup { parent: CgroupId, name: CgroupName },
    SetNice { process: ProcessId, nice: NiceValue },
    MoveProcess { process: ProcessId, group: CgroupId },
}

/// One write on a host, as plain values.
#[verifier::ext_equal]
pub enum WriteView {
    Control { group: CgroupView, node: WorkloadNode, text: Seq<char> },
    CreateGroup { parent: CgroupView, name: Seq<char> },
    RemoveGroup { parent: CgroupView, name: Seq<char> },
    SetNice { process: ProcessId, nice: NiceValue },
    MoveProcess { process: ProcessId, group: CgroupView },
}

impl View for WorkloadWrite {
    type V = WriteView;

    open spec fn view(&self) -> WriteView {
        match *self {
            WorkloadWrite::Control { group, node, text } => WriteView::Control {
                group: group@,
                node,
                text: text@,
            },
            WorkloadWrite::CreateGroup { parent, name } => WriteView::CreateGroup {
                parent: parent@,
                name: name@,
            },
            WorkloadWrite::RemoveGroup { parent, name } => WriteView::RemoveGroup {
                parent: parent@,
                name: name@,
            },
            WorkloadWrite::SetNice { process, nice } => WriteView::SetNice { process, nice },
            WorkloadWrite::MoveProcess { process, group } => WriteView::MoveProcess {
                process,
                group: group@,
            },
        }
    }
}

/// The write that gives the target of a mutation a value. A process is moved to
/// the group that the value names, so that restoring moves it back.
pub open spec fn write_for(kind: KindView, desired: ValueView) -> Result<WriteView, ErrorView> {
    match (kind, desired) {
        (KindView::CgroupCpuWeight { cgroup, .. }, ValueView::CgroupCpuWeight(weight)) => Ok(
            WriteView::Control {
                group: cgroup,
                node: WorkloadNode::CpuWeight,
                text: text::decimal_spec(weight.value as nat),
            },
        ),
        (KindView::CgroupCpuMax { cgroup, .. }, ValueView::CgroupCpuMax { quota, period }) => Ok(
            WriteView::Control {
                group: cgroup,
                node: WorkloadNode::CpuMax,
                text: cpu_max_text(quota, period),
            },
        ),
        (KindView::CgroupCpuset { cgroup, .. }, ValueView::CgroupCpuset(cpus)) => Ok(
            WriteView::Control {
                group: cgroup,
                node: WorkloadNode::CpusetCpus,
                text: cpuset_text(cpus),
            },
        ),
        (KindView::CgroupIoWeight { cgroup, .. }, ValueView::CgroupIoWeight(weight)) => Ok(
            WriteView::Control {
                group: cgroup,
                node: WorkloadNode::IoWeight,
                text: "default "@ + text::decimal_spec(weight.value as nat),
            },
        ),
        (KindView::CgroupUclampMin { cgroup, .. }, ValueView::CgroupUclamp(clamp)) => Ok(
            WriteView::Control {
                group: cgroup,
                node: WorkloadNode::UclampMin,
                text: uclamp_text(clamp),
            },
        ),
        (KindView::CgroupUclampMax { cgroup, .. }, ValueView::CgroupUclamp(clamp)) => Ok(
            WriteView::Control {
                group: cgroup,
                node: WorkloadNode::UclampMax,
                text: uclamp_text(clamp),
            },
        ),
        (
            KindView::CgroupWorkload { parent, name },
            ValueView::CgroupLifecycle { present, .. },
        ) => Ok(lifecycle_write(parent, name, present)),
        (
            KindView::CgroupBackground { parent, name },
            ValueView::CgroupLifecycle { present, .. },
        ) => Ok(lifecycle_write(parent, name, present)),
        (KindView::ProcessNice { process, .. }, ValueView::Nice(nice)) => Ok(
            WriteView::SetNice { process, nice },
        ),
        (KindView::ProcessPlacement { process, .. }, ValueView::ProcessPlacement(group)) => Ok(
            WriteView::MoveProcess { process, group },
        ),
        (KindView::ProcessIoPriority { .. }, ValueView::IoPriority(_)) => Err(
            unsupported_fault("production ioprio adapter is unavailable"@),
        ),
        _ => Err(
            fault(
                ErrorCode::InvariantViolation,
                "production workload write shape is not closed"@,
            ),
        ),
    }
}

/// The write that makes a managed group be there or not.
pub open spec fn lifecycle_write(parent: CgroupView, name: Seq<char>, present: bool) -> WriteView {
    if present {
        WriteView::CreateGroup { parent, name }
    } else {
        WriteView::RemoveGroup { parent, name }
    }
}

fn plan_lifecycle(parent: &CgroupId, name: &CgroupName, present: bool) -> (r: WorkloadWrite)
    ensures
        r@ == lifecycle_write(parent@, name@, present),
{
    if present {
        WorkloadWrite::CreateGroup { parent: parent.clone(), name: name.clone() }
    } else {
        WorkloadWrite::RemoveGroup { parent: parent.clone(), name: name.clone() }
    }
}

/// The write that gives the target of a mutation a value.
pub fn plan_write(kind: &MutationKind, desired: &TypedValue) -> (r: Result<
    WorkloadWrite,
    SysboostError,
>)
    ensures
        crate::error::viewed(r) == write_for(kind@, desired@),
{
    match (kind, desired) {
        (MutationKind::CgroupCpuWeight { cgroup, .. }, TypedValue::CgroupCpuWeight(weight)) => Ok(
            WorkloadWrite::Control {
                group: cgroup.clone(),
                node: WorkloadNode::CpuWeight,
                text: text::decimal(weight.get() as u128),
            },
        ),
        (
            MutationKind::CgroupCpuMax { cgroup, .. },
            TypedValue::CgroupCpuMax { quota, period },
        ) => Ok(
            WorkloadWrite::Control {
                group: cgroup.clone(),
                node: WorkloadNode::CpuMax,
                text: render_cpu_max(*quota, *period),
            },
        ),
        (MutationKind::CgroupCpuset { cgroup, .. }, TypedValue::CgroupCpuset(cpus)) => Ok(
            WorkloadWrite::Control {
                group: cgroup.clone(),
                node: WorkloadNode::CpusetCpus,
                text: render_cpuset(cpus),
            },
        ),
        (MutationKind::CgroupIoWeight { cgroup, .. }, TypedValue::CgroupIoWeight(weight)) => {
            let number = text::decimal(weight.get() as u128);
            Ok(
                WorkloadWrite::Control {
                    group: cgroup.clone(),
                    node: WorkloadNode::IoWeight,
                    text: text::join("default ", number.as_str()),
                },
            )
        },
        (MutationKind::CgroupUclampMin { cgroup, .. }, TypedValue::CgroupUclamp(clamp)) => Ok(
            WorkloadWrite::Control {
                group: cgroup.clone(),
                node: WorkloadNode::UclampMin,
                text: render_uclamp(*clamp),
            },
        ),
        (MutationKind::CgroupUclampMax { cgroup, .. }, TypedValue::CgroupUclamp(clamp)) => Ok(
            WorkloadWrite::Control {
                group: cgroup.clone(),
                node: WorkloadNode::UclampMax,
                text: render_uclamp(*clamp),
            },
        ),
        (
            MutationKind::CgroupWorkload { parent, name },
            TypedValue::CgroupLifecycle { present, .. },
        ) => Ok(plan_lifecycle(parent, name, *present)),
        (
            MutationKind::CgroupBackground { parent, name },
            TypedValue::CgroupLifecycle { present, .. },
        ) => Ok(plan_lifecycle(parent, name, *present)),
        (MutationKind::ProcessNice { process, .. }, TypedValue::Nice(nice)) => Ok(
            WorkloadWrite::SetNice { process: *process, nice: *nice },
        ),
        (MutationKind::ProcessPlacement { process, .. }, TypedValue::ProcessPlacement(group)) => Ok(
            WorkloadWrite::MoveProcess { process: *process, group: group.clone() },
        ),
        (MutationKind::ProcessIoPriority { .. }, TypedValue::IoPriority(_)) => Err(
            unsupported("production ioprio adapter is unavailable"),
        ),
        _ => Err(
            workload_error(
                ErrorCode::InvariantViolation,
                "production workload write shape is not closed",
            ),
        ),
    }
}

/// Whether a value is one that its type allows.
pub open spec fn allowed(value: ValueView) -> bool {
    match value {
        ValueView::CgroupCpuWeight(weight) => 1 <= weight.value <= 10_000,
        ValueView::CgroupCpuMax { quota, period } => quota != CpuQuota::Micros(0) && period.value
            > 0,
        ValueView::CgroupCpuset(cpus) => 0 < cpus.len() <= MAX_CPUSET_CPUS && cpuset::ascending(
            cpus,
        ),
        ValueView::CgroupIoWeight(weight) => 1 <= weight.value <= 10_000,
        ValueView::CgroupUclamp(UclampValue::Value(n)) => n <= 1024,
        _ => true,
    }
}

proof fn lemma_cpus_read_back(cpus: Seq<u32>, n: int)
    requires
        0 <= n <= cpus.len() <= MAX_CPUSET_CPUS,
    ensures
        cpus_in(cpus.map_values(|cpu: u32| text::decimal_spec(cpu as nat)).take(n)) == Ok::<
            Seq<u32>,
            ErrorView,
        >(cpus.take(n)),
    decreases n,
{
    let parts = cpus.map_values(|cpu: u32| text::decimal_spec(cpu as nat));
    if n == 0 {
        assert(parts.take(0) =~= Seq::empty());
        assert(cpus.take(0) =~= Seq::empty());
    } else {
        lemma_cpus_read_back(cpus, n - 1);
        let part = parts[n - 1];
        let value = cpus[n - 1] as nat;
        assert(parts.take(n).drop_last() =~= parts.take(n - 1));
        assert(parts.take(n).last() == part);
        assert(part == text::decimal_spec(value));
        text::lemma_number_plain(value);
        text::lemma_find(part, '-', part.len() as int);
        text::decimal_round_trip(value, u32::MAX as nat);
        assert(cpus.take(n) =~= cpus.take(n - 1).push(cpus[n - 1]));
    }
}

proof fn lemma_cpuset_reads_back(cpus: Seq<u32>)
    requires
        0 < cpus.len() <= MAX_CPUSET_CPUS,
        cpuset::ascending(cpus),
    ensures
        cpuset_in(cpuset_text(cpus)) == Ok::<Seq<u32>, ErrorView>(cpus),
{
    let parts = cpus.map_values(|cpu: u32| text::decimal_spec(cpu as nat));
    let whole = cpuset_text(cpus);
    assert forall|k: int, i: int| 0 <= k < parts.len() && 0 <= i < parts[k].len() implies
        #[trigger] parts[k][i] != ',' && !text::is_space(parts[k][i]) by {
        text::lemma_number_plain(cpus[k] as nat);
    }
    text::lemma_number_plain(cpus[0] as nat);
    text::lemma_number_plain(cpus.last() as nat);
    lemma_joined_ends(parts);
    assert(parts[0] == text::decimal_spec(cpus[0] as nat));
    assert(parts.last() == text::decimal_spec(cpus.last() as nat));
    text::lemma_trim_tight(whole);
    text::split_join(parts, ',');
    lemma_cpus_read_back(cpus, cpus.len() as int);
    assert(parts.take(cpus.len() as int) =~= parts);
    assert(cpus.take(cpus.len() as int) =~= cpus);
    cpuset::canonical_of_ascending(cpus);
}

proof fn lemma_joined_ends(parts: Seq<Seq<char>>)
    requires
        parts.len() > 0,
        parts[0].len() > 0,
        parts.last().len() > 0,
    ensures
        text::join_spec(parts, ',').len() > 0,
        text::join_spec(parts, ',')[0] == parts[0][0],
        text::join_spec(parts, ',').last() == parts.last().last(),
    decreases parts.len(),
{
    if parts.len() > 1 {
        let before = parts.drop_last();
        lemma_first_char(before);
        let joined = text::join_spec(before, ',');
        assert(text::join_spec(parts, ',') == joined.push(',') + parts.last());
    }
}

proof fn lemma_first_char(parts: Seq<Seq<char>>)
    requires
        parts.len() > 0,
        parts[0].len() > 0,
    ensures
        text::join_spec(parts, ',').len() > 0,
        text::join_spec(parts, ',')[0] == parts[0][0],
    decreases parts.len(),
{
    if parts.len() > 1 {
        lemma_first_char(parts.drop_last());
    }
}

proof fn lemma_limit_reads_back(quota: CpuQuota, period: CpuPeriod)
    requires
        quota != CpuQuota::Micros(0),
        period.value > 0,
    ensures
        cpu_max_in(text::words_spec(cpu_max_text(quota, period))) == Ok::<ValueView, ErrorView>(
            ValueView::CgroupCpuMax { quota, period },
        ),
{
    reveal_strlit("max");
    reveal_strlit(" ");
    let first = quota_text(quota);
    let second = text::decimal_spec(period.value as nat);
    text::lemma_number_plain(period.value as nat);
    text::decimal_round_trip(period.value as nat, u64::MAX as nat);
    match quota {
        CpuQuota::Max => {
            assert("max"@[0] == 'm' && "max"@[1] == 'a' && "max"@[2] == 'x');
        },
        CpuQuota::Micros(n) => {
            text::lemma_number_plain(n as nat);
            text::lemma_decimal(n as nat);
            text::decimal_round_trip(n as nat, u64::MAX as nat);
            assert(text::is_digit(first[0]));
            assert("max"@[0] == 'm');
            assert(first != "max"@);
        },
    }
    text::lemma_word_one(first);
    text::lemma_word_push(first, second);
    assert(cpu_max_text(quota, period) =~= first.push(' ') + second);
    assert(text::words_spec(cpu_max_text(quota, period)) =~= seq![first, second]);
}

proof fn lemma_weight_reads_back(weight: IoWeight)
    requires
        1 <= weight.value <= 10_000,
    ensures
        default_weight_in("default "@ + text::decimal_spec(weight.value as nat)) == Ok::<
            ValueView,
            ErrorView,
        >(ValueView::CgroupIoWeight(weight)),
{
    reveal_strlit("default ");
    reveal_strlit("default");
    let number = text::decimal_spec(weight.value as nat);
    let whole = "default "@ + number;
    text::lemma_number_plain(weight.value as nat);
    text::decimal_round_trip(weight.value as nat, u64::MAX as nat);
    assert("default "@ =~= "default"@.push(' '));
    assert forall|i: int| 0 <= i < whole.len() implies #[trigger] whole[i] != '\n' by {
        if i >= 8 {
            assert(whole[i] == number[i - 8]);
        }
    }
    text::lemma_split_one(whole, '\n');
    assert(seq![whole].drop_last() =~= Seq::empty());
    assert(text::lines_spec(whole) =~= seq![whole]);
    text::lemma_word_one("default"@);
    text::lemma_word_push("default"@, number);
    assert(text::words_spec(whole) =~= seq!["default"@, number]);
    let lines = seq![whole];
    assert(lines.drop_last() =~= Seq::empty());
    assert(io_lines(lines.drop_last()) == Ok::<Option<IoWeight>, ErrorView>(None));
    assert(lines.last() == whole);
}

/// Reading a control gives back the value that was written to it.
pub proof fn written_controls_read_back(
    kind: KindView,
    desired: ValueView,
    group: CgroupView,
    node: WorkloadNode,
    written: Seq<char>,
)
    requires
        write_for(kind, desired) == Ok::<WriteView, ErrorView>(
            WriteView::Control { group, node, text: written },
        ),
        allowed(desired),
    ensures
        workload_value(node, vstd::utf8::encode_utf8(written)) == Ok::<ValueView, ErrorView>(
            desired,
        ),
{
    text::lemma_decode_encoded(written);
    match desired {
        ValueView::CgroupCpuWeight(weight) => {
            text::lemma_number_plain(weight.value as nat);
            text::decimal_round_trip(weight.value as nat, u64::MAX as nat);
        },
        ValueView::CgroupCpuMax { quota, period } => {
            lemma_limit_reads_back(quota, period);
        },
        ValueView::CgroupCpuset(cpus) => {
            lemma_cpuset_reads_back(cpus);
        },
        ValueView::CgroupIoWeight(weight) => {
            lemma_weight_reads_back(weight);
        },
        ValueView::CgroupUclamp(clamp) => {
            reveal_strlit("max");
            match clamp {
                UclampValue::Max => {
                    assert("max"@[0] == 'm' && "max"@[2] == 'x');
                    text::lemma_trim_tight("max"@);
                },
                UclampValue::Value(n) => {
                    text::lemma_number_plain(n as nat);
                    text::lemma_decimal(n as nat);
                    text::decimal_round_trip(n as nat, u16::MAX as nat);
                    assert(text::is_digit(text::decimal_spec(n as nat)[0]));
                    assert("max"@[0] == 'm');
                },
            }
        },
        _ => {},
    }
}

/// A number with its sign.
pub open spec fn signed_text(n: int) -> Seq<char> {
    if n < 0 {
        "-"@ + text::decimal_spec((-n) as nat)
    } else {
        text::decimal_spec(n as nat)
    }
}

fn render_signed(n: i8) -> (r: String)
    ensures
        r@ == signed_text(n as int),
{
    if n < 0 {
        let size: i16 = -(n as i16);
        let digits = text::decimal(size as u128);
        text::join("-", digits.as_str())
    } else {
        text::decimal(n as u128)
    }
}

/// The text of a class of I/O priority.
pub open spec fn class_text(class: IoPriorityClass) -> Seq<char> {
    match class {
        IoPriorityClass::Unset => "none"@,
        IoPriorityClass::RealTime => "realtime"@,
        IoPriorityClass::BestEffort => "best-effort"@,
        IoPriorityClass::Idle => "idle"@,
    }
}

fn render_class(class: IoPriorityClass) -> (r: &'static str)
    ensures
        r@ == class_text(class),
{
    match class {
        IoPriorityClass::Unset => "none",
        IoPriorityClass::RealTime => "realtime",
        IoPriorityClass::BestEffort => "best-effort",
        IoPriorityClass::Idle => "idle",
    }
}

/// What is kept of a value of a process as it was read.
pub open spec fn process_value_text(value: ValueView) -> Seq<char> {
    match value {
        ValueView::Nice(nice) => signed_text(nice.value as int),
        ValueView::IoPriority(priority) => class_text(priority.class) + ":"@ + text::decimal_spec(
            priority.level as nat,
        ),
        ValueView::ProcessPlacement(group) => group.handle,
        _ => Seq::empty(),
    }
}

/// What is kept of a value of a process as it was read.
pub fn render_process_value(value: &TypedValue) -> (r: Vec<u8>)
    ensures
        r@ == vstd::utf8::encode_utf8(process_value_text(value@)),
{
    match value {
        TypedValue::Nice(nice) => {
            let kept = render_signed(nice.get());
            text::bytes_of(kept.as_str())
        },
        TypedValue::IoPriority(priority) => {
            let level = text::decimal(priority.level as u128);
            let kept = text::join3(render_class(priority.class), ":", level.as_str());
            text::bytes_of(kept.as_str())
        },
        TypedValue::ProcessPlacement(group) => text::bytes_of(group.handle.as_str()),
        _ => {
            proof {
                reveal_strlit("");
                assert(""@ =~= Seq::empty());
            }
            text::bytes_of("")
        },
    }
}

/// The number of a process as the kernel takes it, by
/// `rustix::process::Pid::from_raw`, which gives nothing for zero and keeps every
/// positive number, and `rustix::process::Pid::as_raw_pid`, which gives it back.
#[verifier::external_body]
fn raw_pid(raw: i32) -> (r: Option<i32>)
    requires
        raw >= 0,
    ensures
        r == (if raw == 0 {
            None
        } else {
            Some(raw)
        }),
{
    match rustix::process::Pid::from_raw(raw) {
        Some(pid) => Some(pid.as_raw_pid()),
        None => None,
    }
}

/// The line that moves a process into a group.
pub open spec fn placement_text(pid: u32) -> Seq<char> {
    text::decimal_spec(pid as nat) + "\n"@
}

/// The line that moves a process into a group.
pub fn render_placement(process: ProcessId) -> (r: Result<String, SysboostError>)
    requires
        process.pid <= i32::MAX,
    ensures
        match r {
            Ok(line) => process.pid != 0 && line@ == placement_text(process.pid),
            Err(e) => process.pid == 0 && e@ == target_fault("process PID is invalid"@),
        },
{
    match raw_pid(process.pid() as i32) {
        Some(pid) => {
            let number = text::decimal(pid as u128);
            Ok(text::join(number.as_str(), "\n"))
        },
        None => Err(target_error("process PID is invalid")),
    }
}

} // verus!
