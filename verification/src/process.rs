//! Which process holds a session.
//!
//! A process number is only a locator, because it is used again after a process
//! ends. An identity also has the start time of the process and the identity of
//! the boot.

use vstd::prelude::*;

use crate::error::{ErrorCode, SysboostError};
use crate::text;

verus! {

/// The identity of a process.
#[derive(Clone, Copy, Debug, PartialEq, Eq)]
pub struct ProcessIdentity {
    /// Process number.
    pub pid: u32,
    /// Start time of the process.
    pub generation: u64,
    /// Identity of the boot.
    pub boot_id: [u8; 16],
}

pub open spec fn input_error(message: Seq<char>) -> crate::error::ErrorView {
    crate::error::error_view(ErrorCode::InvalidInput, message)
}

pub open spec fn corrupt(message: Seq<char>) -> crate::error::ErrorView {
    crate::error::error_view(ErrorCode::JournalCorrupt, message)
}

pub open spec fn durability(message: Seq<char>) -> crate::error::ErrorView {
    crate::error::error_view(ErrorCode::DurabilityError, message)
}

/// Whether an identity value was never set.
pub open spec fn all_zero(bytes: Seq<u8>) -> bool {
    forall|i: int| 0 <= i < bytes.len() ==> #[trigger] bytes[i] == 0
}

pub fn is_zero(bytes: &[u8; 16]) -> (r: bool)
    ensures
        r == all_zero(bytes@),
{
    for i in 0..16usize
        invariant
            forall|j: int| 0 <= j < i ==> #[trigger] bytes@[j] == 0,
    {
        if bytes[i] != 0 {
            assert(bytes@[i as int] != 0);
            return false;
        }
    }
    true
}

fn same_bytes(a: &[u8; 16], b: &[u8; 16]) -> (r: bool)
    ensures
        r == (a@ == b@),
{
    for i in 0..16usize
        invariant
            forall|j: int| 0 <= j < i ==> #[trigger] a@[j] == b@[j],
    {
        if a[i] != b[i] {
            assert(a@[i as int] != b@[i as int]);
            return false;
        }
    }
    assert(a@ =~= b@);
    true
}

impl ProcessIdentity {
    /// An identity without boot evidence.
    pub fn new(pid: u32, generation: u64) -> (r: Result<ProcessIdentity, SysboostError>)
        ensures
            match r {
                Ok(identity) => pid != 0 && identity.pid == pid && identity.generation
                    == generation && all_zero(identity.boot_id@),
                Err(e) => pid == 0 && e@ == input_error("process ID must be non-zero"@),
            },
    {
        if pid == 0 {
            Err(SysboostError::new(ErrorCode::InvalidInput, "process ID must be non-zero"))
        } else {
            Ok(ProcessIdentity { pid, generation, boot_id: [0u8; 16] })
        }
    }

    /// An identity with all its evidence.
    pub fn with_boot_id(pid: u32, generation: u64, boot_id: [u8; 16]) -> (r: Result<
        ProcessIdentity,
        SysboostError,
    >)
        ensures
            match r {
                Ok(identity) => pid != 0 && generation != 0 && !all_zero(boot_id@) && identity == (
                ProcessIdentity { pid, generation, boot_id }),
                Err(e) => if pid == 0 {
                    e@ == input_error("process ID must be non-zero"@)
                } else {
                    (generation == 0 || all_zero(boot_id@)) && e@ == input_error(
                        "process identity requires a non-zero start and boot identity"@,
                    )
                },
            },
    {
        if pid == 0 {
            Err(SysboostError::new(ErrorCode::InvalidInput, "process ID must be non-zero"))
        } else if generation == 0 || is_zero(&boot_id) {
            Err(
                SysboostError::new(
                    ErrorCode::InvalidInput,
                    "process identity requires a non-zero start and boot identity",
                ),
            )
        } else {
            Ok(ProcessIdentity { pid, generation, boot_id })
        }
    }

    /// An identity of given values, whatever they are.
    pub fn fixture(pid: u32, generation: u64, boot_id: [u8; 16]) -> (r: ProcessIdentity)
        ensures
            r == (ProcessIdentity { pid, generation, boot_id }),
    {
        ProcessIdentity { pid, generation, boot_id }
    }

    /// Whether two identities are proven to be the same process. Evidence that
    /// was never set proves nothing.
    pub fn same_generation(self, other: ProcessIdentity) -> (r: bool)
        ensures
            r == same_process(self, other),
    {
        self.pid == other.pid && self.generation != 0 && self.generation == other.generation
            && !is_zero(&self.boot_id) && same_bytes(&self.boot_id, &other.boot_id)
    }
}

/// Whether two identities are the same values, whatever they prove.
pub fn identical(a: &ProcessIdentity, b: &ProcessIdentity) -> (r: bool)
    ensures
        r == (*a == *b),
{
    let r = a.pid == b.pid && a.generation == b.generation && same_bytes(&a.boot_id, &b.boot_id);
    if r {
        assert(a.boot_id =~= b.boot_id);
    }
    r
}

/// Whether an identity holds all the evidence that tells processes apart.
pub fn is_strong(identity: &ProcessIdentity) -> (r: bool)
    ensures
        r == same_process(*identity, *identity),
{
    identity.generation != 0 && !is_zero(&identity.boot_id)
}

/// Whether two identities are proven to be the same process.
pub open spec fn same_process(a: ProcessIdentity, b: ProcessIdentity) -> bool {
    a.pid == b.pid && a.generation != 0 && a.generation == b.generation && !all_zero(a.boot_id@)
        && a.boot_id@ == b.boot_id@
}

/// Being the same process is symmetric and transitive, and holds of an identity
/// itself exactly where its evidence is complete.
pub proof fn same_process_laws(a: ProcessIdentity, b: ProcessIdentity, c: ProcessIdentity)
    ensures
        same_process(a, b) ==> same_process(b, a),
        same_process(a, b) && same_process(b, c) ==> same_process(a, c),
        same_process(a, a) <==> a.generation != 0 && !all_zero(a.boot_id@),
{
}

/// Where the identity of the running process comes from.
pub trait ProcessIdentityProvider {
    fn current(&self) -> Result<ProcessIdentity, SysboostError>;
}

/// A provider with one answer.
#[derive(Clone, Copy, Debug)]
pub struct FixedProcessIdentity {
    pub identity: ProcessIdentity,
}

impl FixedProcessIdentity {
    pub fn new(identity: ProcessIdentity) -> (r: FixedProcessIdentity)
        ensures
            r.identity == identity,
    {
        FixedProcessIdentity { identity }
    }
}

impl ProcessIdentityProvider for FixedProcessIdentity {
    fn current(&self) -> (r: Result<ProcessIdentity, SysboostError>)
        ensures
            r == Ok::<ProcessIdentity, SysboostError>(self.identity),
    {
        Ok(self.identity)
    }
}

/// The text behind the last closing parenthesis. A command name may hold spaces
/// and parentheses, so that no other one can be relied on.
pub open spec fn after_name(stat: Seq<char>) -> Option<Seq<char>>
    decreases stat.len(),
{
    if stat.len() == 0 {
        None
    } else if stat.last() == ')' {
        Some(Seq::empty())
    } else {
        match after_name(stat.drop_last()) {
            Some(rest) => Some(rest.push(stat.last())),
            None => None,
        }
    }
}

/// The start time in a process status line: the twentieth word behind the
/// command name, where it is a positive number.
pub open spec fn start_time_spec(stat: Seq<char>) -> Option<nat> {
    match after_name(stat) {
        None => None,
        Some(rest) => {
            let fields = text::words_spec(rest);
            if fields.len() <= 19 {
                None
            } else {
                match text::parse_spec(fields[19], u64::MAX as nat) {
                    Some(value) => if value != 0 {
                        Some(value)
                    } else {
                        None
                    },
                    None => None,
                }
            }
        },
    }
}

proof fn lemma_after_name(stat: Seq<char>, close: int)
    requires
        0 <= close < stat.len(),
        stat[close] == ')',
        forall|j: int| close < j < stat.len() ==> stat[j] != ')',
    ensures
        after_name(stat) == Some(stat.skip(close + 1)),
    decreases stat.len(),
{
    if close == stat.len() - 1 {
        assert(stat.skip(close + 1) =~= Seq::<char>::empty());
    } else {
        lemma_after_name(stat.drop_last(), close);
        assert(stat.drop_last().skip(close + 1).push(stat.last()) =~= stat.skip(close + 1));
    }
}

proof fn lemma_no_name(stat: Seq<char>)
    requires
        forall|j: int| 0 <= j < stat.len() ==> stat[j] != ')',
    ensures
        after_name(stat) is None,
    decreases stat.len(),
{
    if stat.len() > 0 {
        lemma_no_name(stat.drop_last());
    }
}

/// The start time in a process status line.
pub fn parse_start_time(stat: &str) -> (r: Option<u64>)
    ensures
        match r {
            Some(value) => start_time_spec(stat@) == Some(value as nat),
            None => start_time_spec(stat@) is None,
        },
{
    let chars = text::chars_of(stat);
    let mut end: usize = chars.len();
    while end > 0 && chars[end - 1] != ')'
        invariant
            end <= chars.len(),
            forall|j: int| end <= j < chars@.len() ==> chars@[j] != ')',
        decreases end,
    {
        end = end - 1;
    }
    if end == 0 {
        proof {
            lemma_no_name(stat@);
        }
        return None;
    }
    proof {
        lemma_after_name(stat@, end - 1);
    }
    let rest = vstd::slice::slice_subrange(chars.as_slice(), end, chars.len());
    assert(rest@ =~= stat@.skip(end as int));
    let fields = text::words(rest);
    let ghost all = text::words_spec(rest@);
    assert(all.len() == fields@.len());
    if fields.len() <= 19 {
        return None;
    }
    assert(all[19] == fields@[19]@);
    match text::parse_unsigned(fields[19].as_slice(), u64::MAX as u128) {
        Some(value) => if value != 0 {
            Some(value as u64)
        } else {
            None
        },
        None => None,
    }
}

/// The value of a hexadecimal digit of either case.
pub open spec fn hex_value_spec(byte: u8) -> Option<u8> {
    if 0x30 <= byte <= 0x39 {
        Some((byte - 0x30) as u8)
    } else if 0x61 <= byte <= 0x66 {
        Some((byte - 0x61 + 10) as u8)
    } else if 0x41 <= byte <= 0x46 {
        Some((byte - 0x41 + 10) as u8)
    } else {
        None
    }
}

/// The value of a hexadecimal digit of either case.
pub fn hex_value(byte: u8) -> (r: Option<u8>)
    ensures
        r == hex_value_spec(byte),
{
    if 0x30 <= byte && byte <= 0x39 {
        Some(byte - 0x30)
    } else if 0x61 <= byte && byte <= 0x66 {
        Some(byte - 0x61 + 10)
    } else if 0x41 <= byte && byte <= 0x46 {
        Some(byte - 0x41 + 10)
    } else {
        None
    }
}

pub open spec fn all_hex(digits: Seq<u8>) -> bool {
    forall|i: int| 0 <= i < digits.len() ==> hex_value_spec(#[trigger] digits[i]) is Some
}

/// The bytes that pairs of hexadecimal digits write.
pub open spec fn hex_bytes(digits: Seq<u8>) -> Seq<u8> {
    Seq::new(
        digits.len() / 2,
        |i: int|
            (16 * hex_value_spec(digits[2 * i])->0 + hex_value_spec(digits[2 * i + 1])->0) as u8,
    )
}

/// Sixteen bytes from thirty-two hexadecimal digits.
pub fn decode_hex_digits(digits: &[u8]) -> (r: Option<[u8; 16]>)
    requires
        digits@.len() == 32,
    ensures
        match r {
            Some(bytes) => all_hex(digits@) && bytes@ == hex_bytes(digits@),
            None => !all_hex(digits@),
        },
{
    let mut out: [u8; 16] = [0u8; 16];
    let mut i: usize = 0;
    while i < 16
        invariant
            i <= 16,
            digits@.len() == 32,
            forall|j: int| 0 <= j < 2 * i ==> hex_value_spec(#[trigger] digits@[j]) is Some,
            forall|j: int| 0 <= j < i ==> #[trigger] out@[j] == hex_bytes(digits@)[j],
        decreases 16 - i,
    {
        let high: u8 = match hex_value(digits[2 * i]) {
            Some(value) => value,
            None => {
                assert(hex_value_spec(digits@[2 * i]) is None);
                return None;
            },
        };
        let low: u8 = match hex_value(digits[2 * i + 1]) {
            Some(value) => value,
            None => {
                assert(hex_value_spec(digits@[2 * i + 1]) is None);
                return None;
            },
        };
        out[i] = 16 * high + low;
        i = i + 1;
    }
    assert(out@ =~= hex_bytes(digits@));
    Some(out)
}

/// A text without the given character.
pub open spec fn without_char(s: Seq<char>, c: char) -> Seq<char>
    decreases s.len(),
{
    if s.len() == 0 {
        Seq::empty()
    } else if s.last() == c {
        without_char(s.drop_last(), c)
    } else {
        without_char(s.drop_last(), c).push(s.last())
    }
}

/// The boot identity that a text writes.
pub open spec fn boot_id_spec(value: Seq<char>) -> Result<Seq<u8>, crate::error::ErrorView> {
    let digits = vstd::utf8::encode_utf8(without_char(text::trim_spec(value), '-'));
    if digits.len() != 32 {
        Err(corrupt("boot identity metadata has an invalid length"@))
    } else if !all_hex(digits) {
        Err(corrupt("boot identity metadata is not hexadecimal"@))
    } else if all_zero(hex_bytes(digits)) {
        Err(corrupt("boot identity metadata is zero"@))
    } else {
        Ok(hex_bytes(digits))
    }
}

fn corrupt_error(message: &str) -> (r: SysboostError)
    ensures
        r@ == corrupt(message@),
{
    SysboostError::new(ErrorCode::JournalCorrupt, message)
}

/// The boot identity that a text writes.
pub fn parse_boot_id(value: &str) -> (r: Result<[u8; 16], SysboostError>)
    ensures
        match r {
            Ok(bytes) => boot_id_spec(value@) == Ok::<Seq<u8>, crate::error::ErrorView>(bytes@),
            Err(e) => boot_id_spec(value@) == Err::<Seq<u8>, crate::error::ErrorView>(e@),
        },
{
    let chars = text::chars_of(value);
    let trimmed = text::trim(chars.as_slice());
    let mut kept = String::new();
    for i in 0..trimmed.len()
        invariant
            kept@ == without_char(trimmed@.take(i as int), '-'),
    {
        assert(trimmed@.take(i + 1).drop_last() =~= trimmed@.take(i as int));
        if trimmed[i] != '-' {
            kept.push(trimmed[i]);
        }
    }
    assert(trimmed@.take(trimmed@.len() as int) =~= trimmed@);
    let digits = text::bytes_of(kept.as_str());
    if digits.len() != 32 {
        return Err(corrupt_error("boot identity metadata has an invalid length"));
    }
    match decode_hex_digits(digits.as_slice()) {
        None => Err(corrupt_error("boot identity metadata is not hexadecimal")),
        Some(bytes) => if is_zero(&bytes) {
            Err(corrupt_error("boot identity metadata is zero"))
        } else {
            Ok(bytes)
        },
    }
}

/// What reading the status of a process gave.
#[derive(Debug)]
pub enum StatRead {
    /// There is no such process.
    Missing,
    /// The status could not be read.
    Failed,
    /// The status line.
    Line(String),
}

/// What a probe of a process says: its identity, that it is gone, or that
/// nothing can be concluded.
pub open spec fn probe_spec(pid: u32, stat: StatRead, boot: Option<String>) -> Result<
    Option<(u32, nat, Seq<u8>)>,
    crate::error::ErrorView,
> {
    match stat {
        StatRead::Missing => Ok(None),
        StatRead::Failed => Err(durability("process identity could not be inspected"@)),
        StatRead::Line(line) => match start_time_spec(line@) {
            None => Err(corrupt("process identity metadata is malformed"@)),
            Some(generation) => match boot {
                None => Err(durability("boot identity could not be inspected"@)),
                Some(boot) => match boot_id_spec(boot@) {
                    Err(e) => Err(e),
                    Ok(boot_id) => if pid == 0 {
                        Err(input_error("process ID must be non-zero"@))
                    } else {
                        Ok(Some((pid, generation, boot_id)))
                    },
                },
            },
        },
    }
}

/// The identity that a probe of a process proves. `Ok(None)` says that the
/// process is gone; an error says that nothing can be concluded.
pub fn probed_identity(pid: u32, stat: StatRead, boot: Option<String>) -> (r: Result<
    Option<ProcessIdentity>,
    SysboostError,
>)
    ensures
        match r {
            Ok(Some(identity)) => probe_spec(pid, stat, boot) == Ok::<
                Option<(u32, nat, Seq<u8>)>,
                crate::error::ErrorView,
            >(Some((identity.pid, identity.generation as nat, identity.boot_id@))),
            Ok(None) => probe_spec(pid, stat, boot) == Ok::<
                Option<(u32, nat, Seq<u8>)>,
                crate::error::ErrorView,
            >(None),
            Err(e) => probe_spec(pid, stat, boot) == Err::<
                Option<(u32, nat, Seq<u8>)>,
                crate::error::ErrorView,
            >(e@),
        },
{
    let line = match stat {
        StatRead::Missing => return Ok(None),
        StatRead::Failed => return Err(
            SysboostError::new(
                ErrorCode::DurabilityError,
                "process identity could not be inspected",
            ),
        ),
        StatRead::Line(line) => line,
    };
    let generation: u64 = match parse_start_time(line.as_str()) {
        Some(value) => value,
        None => return Err(corrupt_error("process identity metadata is malformed")),
    };
    let boot = match boot {
        Some(boot) => boot,
        None => return Err(
            SysboostError::new(ErrorCode::DurabilityError, "boot identity could not be inspected"),
        ),
    };
    let boot_id = match parse_boot_id(boot.as_str()) {
        Ok(bytes) => bytes,
        Err(e) => return Err(e),
    };
    match ProcessIdentity::with_boot_id(pid, generation, boot_id) {
        Ok(identity) => Ok(Some(identity)),
        Err(e) => Err(e),
    }
}

proof fn lemma_rest_after_name(before: Seq<char>, rest: Seq<char>)
    requires
        !rest.contains(')'),
    ensures
        after_name(before.push(')') + rest) == Some(rest),
    decreases rest.len(),
{
    let stat = before.push(')') + rest;
    if rest.len() == 0 {
        assert(stat =~= before.push(')'));
        assert(stat.last() == ')');
        assert(rest =~= Seq::empty());
    } else {
        let shorter = rest.drop_last();
        assert(rest.contains(rest[rest.len() - 1]));
        assert(stat.last() == rest.last());
        assert(!shorter.contains(')')) by {
            assert forall|i: int| 0 <= i < shorter.len() implies shorter[i] != ')' by {
                assert(rest.contains(rest[i]));
            }
        }
        lemma_rest_after_name(before, shorter);
        assert(stat.drop_last() =~= before.push(')') + shorter);
        assert(shorter.push(rest.last()) =~= rest);
    }
}

/// When a process was started stands in the twentieth field after its name, and is
/// found there whatever the name holds, brackets and spaces too. A line with fewer
/// fields, and a start at zero, tell nothing.
pub proof fn start_times_stand_after_the_name(before: Seq<char>, rest: Seq<char>, ticks: u64)
    requires
        !rest.contains(')'),
    ensures
        text::words_spec(rest).len() > 19 && text::words_spec(rest)[19] == text::decimal_spec(
            ticks as nat,
        ) && ticks > 0 ==> start_time_spec(before.push(')') + rest) == Some(ticks as nat),
        text::words_spec(rest).len() <= 19 ==> start_time_spec(before.push(')') + rest) is None,
        text::words_spec(rest).len() > 19 && text::words_spec(rest)[19] == "0"@ ==> start_time_spec(
            before.push(')') + rest,
        ) is None,
{
    lemma_rest_after_name(before, rest);
    text::decimal_round_trip(ticks as nat, u64::MAX as nat);
    reveal_strlit("0");
    assert("0"@ =~= text::decimal_spec(0));
    text::decimal_round_trip(0, u64::MAX as nat);
}

/// A process is the same only if its number, its start and the boot it runs in all
/// are, and one of which the start or the boot is unknown is the same as none.
pub proof fn processes_are_told_by_all_three(a: ProcessIdentity, b: ProcessIdentity)
    ensures
        same_process(a, b) ==> a.pid == b.pid && a.generation == b.generation && a.boot_id@
            == b.boot_id@,
        a.generation == 0 || b.generation == 0 ==> !same_process(a, b),
        all_zero(a.boot_id@) || all_zero(b.boot_id@) ==> !same_process(a, b),
{
}

} // verus!
