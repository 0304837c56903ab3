//! The CPU controls of the kernel: what their files hold and what is written to
//! them.

use vstd::prelude::*;

use crate::cpuset;
use crate::error::{ErrorCode, ErrorView, Stage, SysboostError};
use crate::filesystem::EntryKind;
use crate::ids::{GovernorId, PlatformProfileId, StateFingerprint, TargetIdentity};
use crate::mutation;
use crate::mutation::BoundedBytes;
use crate::text;
use crate::value;
use crate::value::{
    CpuBoostState, CpuPolicyId, EnergyPreference, FrequencyKHz, TypedValue, ValueView,
};

verus! {

/// The most bytes that are read of a control.
pub const MAX_CPU_READ_BYTES: usize = 4096;

/// The most policies that are listed.
pub const MAX_CPU_POLICIES: usize = 4096;

/// The most bytes that are written to a control.
pub const MAX_KERNEL_VALUE_BYTES: usize = 128;

/// Which file says whether frequencies above the nominal one are allowed.
#[derive(Clone, Copy, Debug, PartialEq, Eq, PartialOrd, Ord, Hash, Structural)]
pub enum CpuBoostInterface {
    /// `boost`, where `1` allows them.
    Boost,
    /// `no_turbo`, where `0` allows them.
    NoTurbo,
}

/// A CPU control. There are no others.
#[derive(Clone, Copy, Debug, PartialEq, Eq, PartialOrd, Ord, Hash, Structural)]
pub enum CpuNode {
    Governor(CpuPolicyId),
    EnergyPreference(CpuPolicyId),
    /// Both limits of the frequency.
    Frequency(CpuPolicyId),
    /// The boost of the host, in the file that is found, or in the given one.
    Boost(Option<CpuBoostInterface>),
    PlatformProfile,
}

/// What a control holds.
#[derive(Debug, PartialEq, Eq)]
pub struct CpuNodeState {
    /// The value as it was read.
    pub raw: BoundedBytes,
    pub typed: TypedValue,
    pub fingerprint: StateFingerprint,
    /// Which object the control is.
    pub target_identity: TargetIdentity,
    /// For the boost: the file that it was read from.
    pub boost_interface: Option<CpuBoostInterface>,
}

/// What a control holds, as plain values.
#[verifier::ext_equal]
pub struct NodeView {
    pub raw: Seq<u8>,
    pub typed: ValueView,
    pub fingerprint: StateFingerprint,
    pub target_identity: TargetIdentity,
    pub boost_interface: Option<CpuBoostInterface>,
}

impl View for CpuNodeState {
    type V = NodeView;

    open spec fn view(&self) -> NodeView {
        NodeView {
            raw: self.raw.bytes@,
            typed: self.typed@,
            fingerprint: self.fingerprint,
            target_identity: self.target_identity,
            boost_interface: self.boost_interface,
        }
    }
}

/// A target that is not what it should be.
pub open spec fn target_fault(message: Seq<char>) -> ErrorView {
    crate::error::staged(ErrorCode::TargetError, message, Stage::Detect)
}

/// Something that the host does not have.
pub open spec fn unsupported_fault(message: Seq<char>) -> ErrorView {
    crate::error::staged(ErrorCode::Unsupported, message, Stage::Detect)
}

/// A target that is not what it should be.
pub fn target_error(message: &str) -> (r: SysboostError)
    ensures
        r@ == target_fault(message@),
{
    SysboostError::new(ErrorCode::TargetError, message).with_stage(Stage::Detect)
}

/// Something that the host does not have.
pub fn unsupported(message: &str) -> (r: SysboostError)
    ensures
        r@ == unsupported_fault(message@),
{
    SysboostError::new(ErrorCode::Unsupported, message).with_stage(Stage::Detect)
}

/// What a control is found to hold, where its bytes are not too many to keep.
pub open spec fn observed(
    typed: ValueView,
    raw: Seq<u8>,
    target_identity: TargetIdentity,
    boost_interface: Option<CpuBoostInterface>,
) -> Result<NodeView, ErrorView> {
    if raw.len() > mutation::MAX_PREIMAGE_BYTES {
        Err(mutation::preimage_too_long())
    } else {
        Ok(
            NodeView {
                raw,
                typed,
                fingerprint: value::fingerprint_of(typed),
                target_identity,
                boost_interface,
            },
        )
    }
}

impl CpuNodeState {
    /// What a control is found to hold.
    pub fn observe(
        typed: TypedValue,
        raw: Vec<u8>,
        target_identity: TargetIdentity,
        boost_interface: Option<CpuBoostInterface>,
    ) -> (r: Result<CpuNodeState, SysboostError>)
        ensures
            crate::error::viewed(r) == observed(typed@, raw@, target_identity, boost_interface),
    {
        match BoundedBytes::new(raw) {
            Ok(raw) => {
                let fingerprint = value::fingerprint_for_value(&typed);
                Ok(CpuNodeState { raw, typed, fingerprint, target_identity, boost_interface })
            },
            Err(e) => Err(e),
        }
    }
}

/// The text that a control holds, without white space around it.
pub open spec fn kernel_text(raw: Seq<u8>) -> Result<Seq<char>, ErrorView> {
    match text::decode_spec(raw) {
        Some(value) => Ok(text::trim_spec(value)),
        None => Err(target_fault("CPU kernel value is not valid UTF-8"@)),
    }
}

fn read_kernel_text(raw: &[u8]) -> (r: Result<String, SysboostError>)
    ensures
        match r {
            Ok(value) => kernel_text(raw@) == Ok::<Seq<char>, ErrorView>(value@),
            Err(e) => kernel_text(raw@) == Err::<Seq<char>, ErrorView>(e@),
        },
{
    match text::decode(raw) {
        Some(value) => {
            let chars = text::chars_of(value.as_str());
            Ok(text::string_of(text::trim(chars.as_slice())))
        },
        None => Err(target_error("CPU kernel value is not valid UTF-8")),
    }
}

/// The governor that a control names.
pub open spec fn governor_in(raw: Seq<u8>) -> Result<Seq<char>, ErrorView> {
    match kernel_text(raw) {
        Err(e) => Err(e),
        Ok(name) => if name.len() == 0 {
            Err(target_fault("CPU governor value is malformed"@))
        } else {
            Ok(name)
        },
    }
}

/// The governor that a control names.
pub fn parse_governor(raw: &[u8]) -> (r: Result<GovernorId, SysboostError>)
    ensures
        match r {
            Ok(governor) => governor_in(raw@) == Ok::<Seq<char>, ErrorView>(governor@),
            Err(e) => governor_in(raw@) == Err::<Seq<char>, ErrorView>(e@),
        },
{
    match read_kernel_text(raw) {
        Ok(value) => match GovernorId::new(value.as_str()) {
            Ok(governor) => Ok(governor),
            Err(_) => Err(target_error("CPU governor value is malformed")),
        },
        Err(e) => Err(e),
    }
}

/// The text of an energy preference.
pub open spec fn energy_text(preference: EnergyPreference) -> Seq<char> {
    match preference {
        EnergyPreference::Performance => "performance"@,
        EnergyPreference::BalancePerformance => "balance_performance"@,
        EnergyPreference::BalancePower => "balance_power"@,
        EnergyPreference::Power => "power"@,
    }
}

/// The text of an energy preference.
pub fn render_energy(preference: EnergyPreference) -> (r: &'static str)
    ensures
        r@ == energy_text(preference),
{
    match preference {
        EnergyPreference::Performance => "performance",
        EnergyPreference::BalancePerformance => "balance_performance",
        EnergyPreference::BalancePower => "balance_power",
        EnergyPreference::Power => "power",
    }
}

/// The energy preference that a text names. No others are known.
pub open spec fn energy_named(name: Seq<char>) -> Result<EnergyPreference, ErrorView> {
    if name == "performance"@ {
        Ok(EnergyPreference::Performance)
    } else if name == "balance_performance"@ {
        Ok(EnergyPreference::BalancePerformance)
    } else if name == "balance_power"@ {
        Ok(EnergyPreference::BalancePower)
    } else if name == "power"@ {
        Ok(EnergyPreference::Power)
    } else {
        Err(target_fault("CPU EPP value is not in the closed vocabulary"@))
    }
}

/// Reading the text of an energy preference gives it back.
pub proof fn energy_round_trip(preference: EnergyPreference)
    ensures
        energy_named(energy_text(preference)) == Ok::<EnergyPreference, ErrorView>(preference),
{
    reveal_strlit("performance");
    reveal_strlit("balance_performance");
    reveal_strlit("balance_power");
    reveal_strlit("power");
    assert("performance"@.len() == 11);
    assert("balance_performance"@.len() == 19);
    assert("balance_power"@.len() == 13);
    assert("power"@.len() == 5);
}

fn parse_energy_name(name: &str) -> (r: Result<EnergyPreference, SysboostError>)
    ensures
        match r {
            Ok(preference) => energy_named(name@) == Ok::<EnergyPreference, ErrorView>(preference),
            Err(e) => energy_named(name@) == Err::<EnergyPreference, ErrorView>(e@),
        },
{
    if text::same(name, "performance") {
        Ok(EnergyPreference::Performance)
    } else if text::same(name, "balance_performance") {
        Ok(EnergyPreference::BalancePerformance)
    } else if text::same(name, "balance_power") {
        Ok(EnergyPreference::BalancePower)
    } else if text::same(name, "power") {
        Ok(EnergyPreference::Power)
    } else {
        Err(target_error("CPU EPP value is not in the closed vocabulary"))
    }
}

/// The energy preference that a control holds.
pub open spec fn energy_in(raw: Seq<u8>) -> Result<EnergyPreference, ErrorView> {
    match kernel_text(raw) {
        Err(e) => Err(e),
        Ok(name) => energy_named(name),
    }
}

/// The energy preference that a control holds.
pub fn parse_energy(raw: &[u8]) -> (r: Result<EnergyPreference, SysboostError>)
    ensures
        match r {
            Ok(preference) => energy_in(raw@) == Ok::<EnergyPreference, ErrorView>(preference),
            Err(e) => energy_in(raw@) == Err::<EnergyPreference, ErrorView>(e@),
        },
{
    match read_kernel_text(raw) {
        Ok(value) => parse_energy_name(value.as_str()),
        Err(e) => Err(e),
    }
}

/// The frequency that a control holds.
pub open spec fn frequency_in(raw: Seq<u8>) -> Result<FrequencyKHz, ErrorView> {
    match kernel_text(raw) {
        Err(e) => Err(e),
        Ok(digits) => match text::parse_spec(digits, u64::MAX as nat) {
            None => Err(target_fault("CPU frequency value is malformed"@)),
            Some(n) => if n == 0 {
                Err(target_fault("CPU frequency value is invalid"@))
            } else {
                Ok(FrequencyKHz { value: n as u64 })
            },
        },
    }
}

/// The frequency that a control holds.
pub fn parse_frequency(raw: &[u8]) -> (r: Result<FrequencyKHz, SysboostError>)
    ensures
        match r {
            Ok(frequency) => frequency_in(raw@) == Ok::<FrequencyKHz, ErrorView>(frequency),
            Err(e) => frequency_in(raw@) == Err::<FrequencyKHz, ErrorView>(e@),
        },
{
    let value = match read_kernel_text(raw) {
        Ok(value) => value,
        Err(e) => {
            return Err(e);
        },
    };
    let chars = text::chars_of(value.as_str());
    match text::parse_unsigned(chars.as_slice(), u64::MAX as u128) {
        Some(n) => match FrequencyKHz::new(n as u64) {
            Ok(frequency) => Ok(frequency),
            Err(_) => Err(target_error("CPU frequency value is invalid")),
        },
        None => Err(target_error("CPU frequency value is malformed")),
    }
}

/// The text of a boost in a file.
pub open spec fn boost_text_spec(interface: CpuBoostInterface, state: CpuBoostState) -> Seq<char> {
    if (interface == CpuBoostInterface::Boost) == (state == CpuBoostState::Enabled) {
        "1"@
    } else {
        "0"@
    }
}

/// The text of a boost in a file.
pub fn boost_text(interface: CpuBoostInterface, state: CpuBoostState) -> (r: &'static str)
    ensures
        r@ == boost_text_spec(interface, state),
{
    match (interface, state) {
        (CpuBoostInterface::Boost, CpuBoostState::Enabled) => "1",
        (CpuBoostInterface::NoTurbo, CpuBoostState::Disabled) => "1",
        (CpuBoostInterface::Boost, CpuBoostState::Disabled) => "0",
        (CpuBoostInterface::NoTurbo, CpuBoostState::Enabled) => "0",
    }
}

/// The boost that a file with a text stands for.
pub open spec fn boost_named(interface: CpuBoostInterface, name: Seq<char>) -> Result<
    CpuBoostState,
    ErrorView,
> {
    if name == boost_text_spec(interface, CpuBoostState::Enabled) {
        Ok(CpuBoostState::Enabled)
    } else if name == boost_text_spec(interface, CpuBoostState::Disabled) {
        Ok(CpuBoostState::Disabled)
    } else {
        Err(target_fault("CPU boost value is malformed"@))
    }
}

/// Reading the text of a boost gives it back, in the same file.
pub proof fn boost_round_trip(interface: CpuBoostInterface, state: CpuBoostState)
    ensures
        boost_named(interface, boost_text_spec(interface, state)) == Ok::<CpuBoostState, ErrorView>(
            state,
        ),
{
    reveal_strlit("0");
    reveal_strlit("1");
    assert("0"@[0] != "1"@[0]);
}

/// The boost that a control holds.
pub open spec fn boost_in(interface: CpuBoostInterface, raw: Seq<u8>) -> Result<
    CpuBoostState,
    ErrorView,
> {
    match kernel_text(raw) {
        Err(e) => Err(e),
        Ok(name) => boost_named(interface, name),
    }
}

/// The boost that a control holds.
pub fn parse_boost(interface: CpuBoostInterface, raw: &[u8]) -> (r: Result<
    CpuBoostState,
    SysboostError,
>)
    ensures
        match r {
            Ok(state) => boost_in(interface, raw@) == Ok::<CpuBoostState, ErrorView>(state),
            Err(e) => boost_in(interface, raw@) == Err::<CpuBoostState, ErrorView>(e@),
        },
{
    match read_kernel_text(raw) {
        Ok(value) => if text::same(value.as_str(), boost_text(interface, CpuBoostState::Enabled)) {
            Ok(CpuBoostState::Enabled)
        } else if text::same(value.as_str(), boost_text(interface, CpuBoostState::Disabled)) {
            Ok(CpuBoostState::Disabled)
        } else {
            Err(target_error("CPU boost value is malformed"))
        },
        Err(e) => Err(e),
    }
}

/// The platform profile that a control names.
pub open spec fn profile_in(raw: Seq<u8>) -> Result<Seq<char>, ErrorView> {
    match kernel_text(raw) {
        Err(e) => Err(e),
        Ok(name) => if name.len() == 0 {
            Err(target_fault("platform profile is malformed"@))
        } else {
            Ok(name)
        },
    }
}

/// The platform profile that a control names.
pub fn parse_profile(raw: &[u8]) -> (r: Result<PlatformProfileId, SysboostError>)
    ensures
        match r {
            Ok(profile) => profile_in(raw@) == Ok::<Seq<char>, ErrorView>(profile@),
            Err(e) => profile_in(raw@) == Err::<Seq<char>, ErrorView>(e@),
        },
{
    match read_kernel_text(raw) {
        Ok(value) => match PlatformProfileId::new(value.as_str()) {
            Ok(profile) => Ok(profile),
            Err(_) => Err(target_error("platform profile is malformed")),
        },
        Err(e) => Err(e),
    }
}

/// Where the first zero byte stands, or the length.
pub open spec fn zero_at(bytes: Seq<u8>) -> int
    decreases bytes.len(),
{
    if bytes.len() == 0 || bytes[0] == 0 {
        0
    } else {
        1 + zero_at(bytes.skip(1))
    }
}

/// The two parts of bytes with exactly one zero byte.
pub open spec fn two_parts(bytes: Seq<u8>) -> Option<(Seq<u8>, Seq<u8>)> {
    let i = zero_at(bytes);
    if i < bytes.len() && zero_at(bytes.skip(i + 1)) == bytes.len() - i - 1 {
        Some((bytes.take(i), bytes.skip(i + 1)))
    } else {
        None
    }
}

proof fn lemma_zero_at(bytes: Seq<u8>, i: int)
    requires
        0 <= i <= bytes.len(),
        forall|j: int| 0 <= j < i ==> bytes[j] != 0,
        i < bytes.len() ==> bytes[i] == 0,
    ensures
        zero_at(bytes) == i,
    decreases i,
{
    if i > 0 {
        lemma_zero_at(bytes.skip(1), i - 1);
    }
}

fn find_zero(bytes: &[u8]) -> (r: usize)
    ensures
        r == zero_at(bytes@),
        r <= bytes@.len(),
{
    let mut i: usize = 0;
    while i < bytes.len()
        invariant_except_break
            i <= bytes@.len(),
        invariant
            forall|j: int| 0 <= j < i ==> bytes@[j] != 0,
        ensures
            i <= bytes@.len(),
            i < bytes@.len() ==> bytes@[i as int] == 0,
        decreases bytes@.len() - i,
    {
        if bytes[i] == 0 {
            break;
        }
        i = i + 1;
    }
    proof {
        lemma_zero_at(bytes@, i as int);
    }
    i
}

/// The bytes of both limits of a frequency, with a zero byte between them.
pub fn frequency_preimage(min: Vec<u8>, max: Vec<u8>) -> (r: Vec<u8>)
    ensures
        r@ == min@.push(0) + max@,
{
    let mut r = min;
    let mut max = max;
    r.push(0);
    r.append(&mut max);
    r
}

/// Both limits are found again in their bytes.
pub proof fn frequency_preimage_splits(min: Seq<u8>, max: Seq<u8>)
    requires
        forall|i: int| 0 <= i < min.len() ==> min[i] != 0,
        forall|i: int| 0 <= i < max.len() ==> max[i] != 0,
    ensures
        two_parts(min.push(0) + max) == Some((min, max)),
{
    let bytes = min.push(0) + max;
    lemma_zero_at(bytes, min.len() as int);
    assert(bytes.take(min.len() as int) =~= min);
    assert(bytes.skip(min.len() + 1int) =~= max);
    lemma_zero_at(max, max.len() as int);
}

/// The value that the bytes of a control stand for.
pub open spec fn node_value(
    node: CpuNode,
    interface: Option<CpuBoostInterface>,
    raw: Seq<u8>,
) -> Result<ValueView, ErrorView> {
    match node {
        CpuNode::Governor(_) => match governor_in(raw) {
            Ok(governor) => Ok(ValueView::Governor(governor)),
            Err(e) => Err(e),
        },
        CpuNode::EnergyPreference(_) => match energy_in(raw) {
            Ok(preference) => Ok(ValueView::EnergyPreference(preference)),
            Err(e) => Err(e),
        },
        CpuNode::Frequency(_) => match two_parts(raw) {
            None => Err(target_fault("CPU frequency state is malformed"@)),
            Some((min, max)) => match frequency_in(min) {
                Err(e) => Err(e),
                Ok(min) => match frequency_in(max) {
                    Err(e) => Err(e),
                    Ok(max) => Ok(
                        ValueView::CpuFrequency { min_khz: Some(min), max_khz: Some(max) },
                    ),
                },
            },
        },
        CpuNode::Boost(_) => match interface {
            None => Err(target_fault("CPU boost interface is unknown"@)),
            Some(interface) => match boost_in(interface, raw) {
                Ok(state) => Ok(ValueView::CpuBoost(state)),
                Err(e) => Err(e),
            },
        },
        CpuNode::PlatformProfile => match profile_in(raw) {
            Ok(profile) => Ok(ValueView::PlatformProfile(profile)),
            Err(e) => Err(e),
        },
    }
}

/// The value that the bytes of a control stand for.
pub fn parse_node(node: CpuNode, interface: Option<CpuBoostInterface>, raw: &[u8]) -> (r: Result<
    TypedValue,
    SysboostError,
>)
    ensures
        crate::error::viewed(r) == node_value(node, interface, raw@),
{
    match node {
        CpuNode::Governor(_) => match parse_governor(raw) {
            Ok(governor) => Ok(TypedValue::Governor(governor)),
            Err(e) => Err(e),
        },
        CpuNode::EnergyPreference(_) => match parse_energy(raw) {
            Ok(preference) => Ok(TypedValue::EnergyPreference(preference)),
            Err(e) => Err(e),
        },
        CpuNode::Frequency(_) => {
            let at: usize = find_zero(raw);
            if at >= raw.len() {
                return Err(target_error("CPU frequency state is malformed"));
            }
            let min = vstd::slice::slice_subrange(raw, 0, at);
            let max = vstd::slice::slice_subrange(raw, at + 1, raw.len());
            assert(min@ =~= raw@.take(at as int));
            assert(max@ =~= raw@.skip(at + 1));
            if find_zero(max) != max.len() {
                return Err(target_error("CPU frequency state is malformed"));
            }
            match parse_frequency(min) {
                Err(e) => Err(e),
                Ok(min) => match parse_frequency(max) {
                    Err(e) => Err(e),
                    Ok(max) => Ok(
                        TypedValue::CpuFrequency { min_khz: Some(min), max_khz: Some(max) },
                    ),
                },
            }
        },
        CpuNode::Boost(_) => match interface {
            None => Err(target_error("CPU boost interface is unknown")),
            Some(interface) => match parse_boost(interface, raw) {
                Ok(state) => Ok(TypedValue::CpuBoost(state)),
                Err(e) => Err(e),
            },
        },
        CpuNode::PlatformProfile => match parse_profile(raw) {
            Ok(profile) => Ok(TypedValue::PlatformProfile(profile)),
            Err(e) => Err(e),
        },
    }
}

/// The values of a list.
pub open spec fn values_view(values: Seq<TypedValue>) -> Seq<ValueView> {
    values.map_values(|v: TypedValue| v@)
}

/// The value that a word of a list of choices stands for.
pub open spec fn choice_spec(node: CpuNode, word: Seq<char>) -> Result<ValueView, ErrorView> {
    match node {
        CpuNode::EnergyPreference(_) => match energy_named(word) {
            Ok(preference) => Ok(ValueView::EnergyPreference(preference)),
            Err(e) => Err(e),
        },
        CpuNode::PlatformProfile => if word.len() == 0 {
            Err(crate::ids::empty_identity())
        } else {
            Ok(ValueView::PlatformProfile(word))
        },
        _ => if word.len() == 0 {
            Err(crate::ids::empty_identity())
        } else {
            Ok(ValueView::Governor(word))
        },
    }
}

fn choice(node: CpuNode, word: &str) -> (r: Result<TypedValue, SysboostError>)
    ensures
        crate::error::viewed(r) == choice_spec(node, word@),
{
    match node {
        CpuNode::EnergyPreference(_) => match parse_energy_name(word) {
            Ok(preference) => Ok(TypedValue::EnergyPreference(preference)),
            Err(e) => Err(e),
        },
        CpuNode::PlatformProfile => match PlatformProfileId::new(word) {
            Ok(profile) => Ok(TypedValue::PlatformProfile(profile)),
            Err(e) => Err(e),
        },
        _ => match GovernorId::new(word) {
            Ok(governor) => Ok(TypedValue::Governor(governor)),
            Err(e) => Err(e),
        },
    }
}

/// The values that words stand for, or why the first that stands for none does
/// not.
pub open spec fn choices_of_words(node: CpuNode, words: Seq<Seq<char>>) -> Result<
    Seq<ValueView>,
    ErrorView,
>
    decreases words.len(),
{
    if words.len() == 0 {
        Ok(Seq::empty())
    } else {
        match choices_of_words(node, words.drop_last()) {
            Err(e) => Err(e),
            Ok(values) => match choice_spec(node, words.last()) {
                Err(e) => Err(e),
                Ok(value) => Ok(values.push(value)),
            },
        }
    }
}

/// The values that a control takes, given what the kernel says about them. For
/// frequencies there is no list.
pub open spec fn advertised(node: CpuNode, listed: Seq<u8>) -> Result<Seq<ValueView>, ErrorView> {
    match node {
        CpuNode::Boost(_) => Ok(
            seq![
                ValueView::CpuBoost(CpuBoostState::Enabled),
                ValueView::CpuBoost(CpuBoostState::Disabled),
            ],
        ),
        CpuNode::Frequency(_) => Ok(Seq::empty()),
        _ => match text::decode_spec(listed) {
            None => Err(target_fault("CPU kernel choices are not valid text"@)),
            Some(value) => choices_of_words(node, text::words_spec(value)),
        },
    }
}

/// Choices, as plain values.
pub open spec fn choices_reply(r: Result<Vec<TypedValue>, SysboostError>) -> Result<
    Seq<ValueView>,
    ErrorView,
> {
    match r {
        Ok(values) => Ok(values_view(values@)),
        Err(e) => Err(e@),
    }
}

proof fn lemma_choice_error(node: CpuNode, words: Seq<Seq<char>>, n: int)
    requires
        0 <= n <= words.len(),
        choices_of_words(node, words.take(n)) is Err,
    ensures
        choices_of_words(node, words) == choices_of_words(node, words.take(n)),
    decreases words.len() - n,
{
    if n < words.len() {
        assert(words.take(n + 1).drop_last() =~= words.take(n));
        lemma_choice_error(node, words, n + 1);
    } else {
        assert(words.take(n) =~= words);
    }
}

/// The values that a control takes, given what the kernel says about them.
pub fn parse_choices(node: CpuNode, listed: &[u8]) -> (r: Result<Vec<TypedValue>, SysboostError>)
    ensures
        choices_reply(r) == advertised(node, listed@),
{
    let mut values: Vec<TypedValue> = Vec::new();
    assert(values_view(values@) =~= Seq::empty());
    match node {
        CpuNode::Boost(_) => {
            values.push(TypedValue::CpuBoost(CpuBoostState::Enabled));
            values.push(TypedValue::CpuBoost(CpuBoostState::Disabled));
            assert(values_view(values@) =~= seq![
                ValueView::CpuBoost(CpuBoostState::Enabled),
                ValueView::CpuBoost(CpuBoostState::Disabled),
            ]);
            return Ok(values);
        },
        CpuNode::Frequency(_) => {
            return Ok(values);
        },
        _ => {},
    }
    let value = match text::decode(listed) {
        Some(value) => value,
        None => {
            return Err(target_error("CPU kernel choices are not valid text"));
        },
    };
    let chars = text::chars_of(value.as_str());
    let words = text::words(chars.as_slice());
    let ghost all = text::words_spec(value@);
    let mut i: usize = 0;
    while i < words.len()
        invariant
            i <= words@.len(),
            all == text::deep_chars(words@),
            all.len() == words@.len(),
            choices_of_words(node, all.take(i as int)) == Ok::<Seq<ValueView>, ErrorView>(
                values_view(values@),
            ),
            advertised(node, listed@) == choices_of_words(node, all),
        decreases words@.len() - i,
    {
        let word = text::string_of(words[i].as_slice());
        let ghost before = values_view(values@);
        proof {
            assert(word@ == all[i as int]);
            assert(all.take(i + 1).drop_last() =~= all.take(i as int));
            assert(all.take(i + 1).last() == all[i as int]);
        }
        match choice(node, word.as_str()) {
            Ok(value) => {
                values.push(value);
                assert(values_view(values@) =~= before.push(value@));
            },
            Err(e) => {
                proof {
                    lemma_choice_error(node, all, i + 1);
                }
                return Err(e);
            },
        }
        i = i + 1;
    }
    assert(all.take(i as int) =~= all);
    Ok(values)
}

/// Whether a list holds a value.
pub fn holds_value(values: &Vec<TypedValue>, wanted: &TypedValue) -> (r: bool)
    ensures
        r == values_view(values@).contains(wanted@),
{
    let ghost all = values_view(values@);
    let mut i: usize = 0;
    while i < values.len()
        invariant
            i <= values@.len(),
            all == values_view(values@),
            all.len() == values@.len(),
            forall|j: int| 0 <= j < i ==> (#[trigger] all[j]) != wanted@,
        decreases values@.len() - i,
    {
        assert(all[i as int] == values@[i as int]@);
        if values[i].same(wanted) {
            assert(all.contains(wanted@));
            return true;
        }
        i = i + 1;
    }
    false
}

/// Whether a control takes a value that it lists.
pub fn check_advertised(values: &Vec<TypedValue>, desired: &TypedValue) -> (r: Result<
    (),
    SysboostError,
>)
    ensures
        match r {
            Ok(_) => values_view(values@).contains(desired@),
            Err(e) => !values_view(values@).contains(desired@) && e@ == unsupported_fault(
                "CPU desired value is not advertised by the kernel"@,
            ),
        },
{
    if holds_value(values, desired) {
        Ok(())
    } else {
        Err(unsupported("CPU desired value is not advertised by the kernel"))
    }
}

/// Why limits cannot be asked for, whatever holds now.
pub open spec fn request_refusal(desired: ValueView) -> Option<ErrorView> {
    match desired {
        ValueView::CpuFrequency { min_khz, max_khz } => match (min_khz, max_khz) {
            (Some(min), Some(max)) => if min.value > max.value {
                Some(target_fault("CPU desired minimum exceeds maximum"@))
            } else {
                None
            },
            _ => None,
        },
        _ => Some(target_fault("CPU frequency desired value is not typed"@)),
    }
}

/// Whether limits can be asked for, whatever holds now.
pub fn check_frequency_request(desired: &TypedValue) -> (r: Result<(), SysboostError>)
    ensures
        match r {
            Ok(_) => request_refusal(desired@) is None,
            Err(e) => request_refusal(desired@) == Some(e@),
        },
{
    match desired {
        TypedValue::CpuFrequency { min_khz, max_khz } => match (min_khz, max_khz) {
            (Some(min), Some(max)) => if min.value > max.value {
                Err(target_error("CPU desired minimum exceeds maximum"))
            } else {
                Ok(())
            },
            _ => Ok(()),
        },
        _ => Err(target_error("CPU frequency desired value is not typed")),
    }
}

/// Both limits that hold now.
pub open spec fn limits_now(current: ValueView) -> Result<(FrequencyKHz, FrequencyKHz), ErrorView> {
    match current {
        ValueView::CpuFrequency { min_khz, max_khz } => match (min_khz, max_khz) {
            (None, _) => Err(target_fault("CPU minimum is unavailable"@)),
            (Some(_), None) => Err(target_fault("CPU maximum is unavailable"@)),
            (Some(min), Some(max)) => Ok((min, max)),
        },
        _ => Err(target_fault("CPU frequency current state is malformed"@)),
    }
}

fn current_limits(current: &TypedValue) -> (r: Result<(FrequencyKHz, FrequencyKHz), SysboostError>)
    ensures
        match r {
            Ok(limits) => limits_now(current@) == Ok::<(FrequencyKHz, FrequencyKHz), ErrorView>(
                limits,
            ),
            Err(e) => limits_now(current@) == Err::<(FrequencyKHz, FrequencyKHz), ErrorView>(e@),
        },
{
    match current {
        TypedValue::CpuFrequency { min_khz, max_khz } => match (min_khz, max_khz) {
            (None, _) => Err(target_error("CPU minimum is unavailable")),
            (Some(_), None) => Err(target_error("CPU maximum is unavailable")),
            (Some(min), Some(max)) => Ok((*min, *max)),
        },
        _ => Err(target_error("CPU frequency current state is malformed")),
    }
}

/// A limit that is asked for, or else the one that holds.
pub open spec fn or_current(asked: Option<FrequencyKHz>, current: FrequencyKHz) -> FrequencyKHz {
    match asked {
        Some(limit) => limit,
        None => current,
    }
}

fn limit_or(asked: &Option<FrequencyKHz>, current: FrequencyKHz) -> (r: FrequencyKHz)
    ensures
        r == or_current(*asked, current),
{
    match asked {
        Some(limit) => *limit,
        None => current,
    }
}

/// Whether a frequency is outside what the hardware does.
pub open spec fn out_of_bounds(
    frequency: FrequencyKHz,
    hardware_min: Option<FrequencyKHz>,
    hardware_max: Option<FrequencyKHz>,
) -> bool {
    (hardware_min is Some && frequency.value < hardware_min->0.value) || (hardware_max is Some
        && frequency.value > hardware_max->0.value)
}

fn beyond(
    frequency: FrequencyKHz,
    hardware_min: &Option<FrequencyKHz>,
    hardware_max: &Option<FrequencyKHz>,
) -> (r: bool)
    ensures
        r == out_of_bounds(frequency, *hardware_min, *hardware_max),
{
    let low = match hardware_min {
        Some(min) => frequency.value < min.value,
        None => false,
    };
    let high = match hardware_max {
        Some(max) => frequency.value > max.value,
        None => false,
    };
    low || high
}

/// Why limits cannot be set on hardware, given what holds now.
pub open spec fn bounds_refusal(
    desired: ValueView,
    current: ValueView,
    hardware_min: Option<FrequencyKHz>,
    hardware_max: Option<FrequencyKHz>,
) -> Option<ErrorView> {
    match request_refusal(desired) {
        Some(e) => Some(e),
        None => match limits_now(current) {
            Err(e) => Some(e),
            Ok((min, max)) => if out_of_bounds(
                or_current(desired->min_khz, min),
                hardware_min,
                hardware_max,
            ) || out_of_bounds(or_current(desired->max_khz, max), hardware_min, hardware_max) {
                Some(target_fault("CPU desired frequency is outside kernel bounds"@))
            } else {
                None
            },
        },
    }
}

/// Whether limits can be set on hardware, given what holds now.
pub fn check_frequency_bounds(
    desired: &TypedValue,
    current: &TypedValue,
    hardware_min: Option<FrequencyKHz>,
    hardware_max: Option<FrequencyKHz>,
) -> (r: Result<(), SysboostError>)
    ensures
        match r {
            Ok(_) => bounds_refusal(desired@, current@, hardware_min, hardware_max) is None,
            Err(e) => bounds_refusal(desired@, current@, hardware_min, hardware_max) == Some(e@),
        },
{
    if let Err(e) = check_frequency_request(desired) {
        return Err(e);
    }
    let (min, max) = match current_limits(current) {
        Ok(limits) => limits,
        Err(e) => {
            return Err(e);
        },
    };
    match desired {
        TypedValue::CpuFrequency { min_khz, max_khz } => {
            if beyond(limit_or(min_khz, min), &hardware_min, &hardware_max) || beyond(
                limit_or(max_khz, max),
                &hardware_min,
                &hardware_max,
            ) {
                Err(target_error("CPU desired frequency is outside kernel bounds"))
            } else {
                Ok(())
            }
        },
        _ => Err(target_error("CPU frequency desired value is not typed")),
    }
}

/// Which limit of a frequency is written.
#[derive(Clone, Copy, Debug, PartialEq, Eq, Structural)]
pub enum FrequencyLimit {
    Min,
    Max,
}

/// One write of a limit.
#[derive(Clone, Copy, Debug, PartialEq, Eq, Structural)]
pub struct LimitWrite {
    pub limit: FrequencyLimit,
    pub frequency: FrequencyKHz,
}

/// The write of a limit that is asked for and does not hold yet.
pub open spec fn limit_write(
    limit: FrequencyLimit,
    asked: Option<FrequencyKHz>,
    current: FrequencyKHz,
) -> Seq<LimitWrite> {
    match asked {
        Some(frequency) => if frequency == current {
            Seq::empty()
        } else {
            seq![LimitWrite { limit, frequency }]
        },
        None => Seq::empty(),
    }
}

/// The writes that bring both limits to where they are asked for. The minimum
/// goes first where the new maximum is below the old minimum; else the maximum
/// does.
pub open spec fn limit_writes(desired: ValueView, current: ValueView) -> Result<
    Seq<LimitWrite>,
    ErrorView,
> {
    match desired {
        ValueView::CpuFrequency { min_khz, max_khz } => match limits_now(current) {
            Err(e) => Err(e),
            Ok((min, max)) => if request_refusal(desired) is Some {
                Err(target_fault("CPU desired minimum exceeds maximum"@))
            } else if or_current(min_khz, min).value > or_current(max_khz, max).value {
                Err(target_fault("CPU desired frequency range is invalid"@))
            } else {
                let first = limit_write(FrequencyLimit::Min, min_khz, min);
                let second = limit_write(FrequencyLimit::Max, max_khz, max);
                Ok(
                    if or_current(max_khz, max).value < min.value {
                        first + second
                    } else {
                        second + first
                    },
                )
            },
        },
        _ => Err(target_fault("CPU frequency operation has the wrong typed value"@)),
    }
}

/// Both limits after some writes.
pub open spec fn limits_after(
    limits: (FrequencyKHz, FrequencyKHz),
    writes: Seq<LimitWrite>,
) -> (FrequencyKHz, FrequencyKHz)
    decreases writes.len(),
{
    if writes.len() == 0 {
        limits
    } else {
        let before = limits_after(limits, writes.drop_last());
        match writes.last().limit {
            FrequencyLimit::Min => (writes.last().frequency, before.1),
            FrequencyLimit::Max => (before.0, writes.last().frequency),
        }
    }
}

/// However far the writes have come, the minimum does not exceed the maximum;
/// and in the end both limits are where they were asked for.
pub proof fn limits_never_cross(
    desired: ValueView,
    current: ValueView,
    writes: Seq<LimitWrite>,
    done: int,
)
    requires
        limit_writes(desired, current) == Ok::<Seq<LimitWrite>, ErrorView>(writes),
        limits_now(current)->Ok_0.0.value <= limits_now(current)->Ok_0.1.value,
        0 <= done <= writes.len(),
    ensures
        ({
            let limits = limits_now(current)->Ok_0;
            let then = limits_after(limits, writes.take(done));
            &&& then.0.value <= then.1.value
            &&& done == writes.len() ==> then == (
                or_current(desired->min_khz, limits.0),
                or_current(desired->max_khz, limits.1),
            )
        }),
{
    let limits = limits_now(current)->Ok_0;
    reveal_with_fuel(limits_after, 3);
    assert(writes.len() <= 2);
    assert(writes.take(done).len() == done);
    if done == 1 {
        assert(writes.take(1).drop_last() =~= Seq::empty());
        assert(writes.take(1).last() == writes[0]);
    } else if done == 2 {
        assert(writes.take(2).drop_last().drop_last() =~= Seq::empty());
        assert(writes.take(2).last() == writes[1]);
        assert(writes.take(2).drop_last().last() == writes[0]);
    }
}

fn push_limit(
    writes: &mut Vec<LimitWrite>,
    limit: FrequencyLimit,
    asked: &Option<FrequencyKHz>,
    current: FrequencyKHz,
)
    ensures
        final(writes)@ == old(writes)@ + limit_write(limit, *asked, current),
{
    let ghost before = writes@;
    if let Some(frequency) = asked {
        if *frequency != current {
            writes.push(LimitWrite { limit, frequency: *frequency });
        }
    }
    assert(writes@ =~= before + limit_write(limit, *asked, current));
}

/// The writes that bring both limits to where they are asked for, in an order in
/// which the kernel never sees a minimum above the maximum.
pub fn plan_limit_writes(desired: &TypedValue, current: &TypedValue) -> (r: Result<
    Vec<LimitWrite>,
    SysboostError,
>)
    ensures
        match r {
            Ok(writes) => limit_writes(desired@, current@) == Ok::<Seq<LimitWrite>, ErrorView>(
                writes@,
            ),
            Err(e) => limit_writes(desired@, current@) == Err::<Seq<LimitWrite>, ErrorView>(e@),
        },
{
    let (min_khz, max_khz) = match desired {
        TypedValue::CpuFrequency { min_khz, max_khz } => (min_khz, max_khz),
        _ => {
            return Err(target_error("CPU frequency operation has the wrong typed value"));
        },
    };
    let (min, max) = match current_limits(current) {
        Ok(limits) => limits,
        Err(e) => {
            return Err(e);
        },
    };
    if let Err(_) = check_frequency_request(desired) {
        return Err(target_error("CPU desired minimum exceeds maximum"));
    }
    let desired_min = limit_or(min_khz, min);
    let desired_max = limit_or(max_khz, max);
    if desired_min.value > desired_max.value {
        return Err(target_error("CPU desired frequency range is invalid"));
    }
    let mut writes: Vec<LimitWrite> = Vec::new();
    if desired_max.value < min.value {
        push_limit(&mut writes, FrequencyLimit::Min, min_khz, min);
        push_limit(&mut writes, FrequencyLimit::Max, max_khz, max);
    } else {
        push_limit(&mut writes, FrequencyLimit::Max, max_khz, max);
        push_limit(&mut writes, FrequencyLimit::Min, min_khz, min);
    }
    Ok(writes)
}

/// The text that is written to a control other than a frequency.
pub open spec fn written_text(node: CpuNode, desired: ValueView) -> Result<Seq<char>, ErrorView> {
    match node {
        CpuNode::Governor(_) => match desired {
            ValueView::Governor(name) => Ok(name),
            _ => Err(target_fault("CPU governor desired value is not typed"@)),
        },
        CpuNode::EnergyPreference(_) => match desired {
            ValueView::EnergyPreference(preference) => Ok(energy_text(preference)),
            _ => Err(target_fault("CPU EPP desired value is not typed"@)),
        },
        CpuNode::Boost(None) => Err(target_fault("CPU boost write lacks a resolved interface"@)),
        CpuNode::Boost(Some(interface)) => match desired {
            ValueView::CpuBoost(state) => Ok(boost_text_spec(interface, state)),
            _ => Err(target_fault("CPU boost desired value is not typed"@)),
        },
        CpuNode::PlatformProfile => match desired {
            ValueView::PlatformProfile(name) => Ok(name),
            _ => Err(target_fault("platform profile desired value is not typed"@)),
        },
        CpuNode::Frequency(_) => Err(
            target_fault("CPU frequency is written as two separate limits"@),
        ),
    }
}

/// The text that is written to a control other than a frequency.
pub fn render_write(node: CpuNode, desired: &TypedValue) -> (r: Result<String, SysboostError>)
    ensures
        match r {
            Ok(value) => written_text(node, desired@) == Ok::<Seq<char>, ErrorView>(value@),
            Err(e) => written_text(node, desired@) == Err::<Seq<char>, ErrorView>(e@),
        },
{
    match node {
        CpuNode::Governor(_) => match desired {
            TypedValue::Governor(name) => Ok(name.as_str().to_string()),
            _ => Err(target_error("CPU governor desired value is not typed")),
        },
        CpuNode::EnergyPreference(_) => match desired {
            TypedValue::EnergyPreference(preference) => Ok(render_energy(*preference).to_string()),
            _ => Err(target_error("CPU EPP desired value is not typed")),
        },
        CpuNode::Boost(None) => Err(target_error("CPU boost write lacks a resolved interface")),
        CpuNode::Boost(Some(interface)) => match desired {
            TypedValue::CpuBoost(state) => Ok(boost_text(interface, *state).to_string()),
            _ => Err(target_error("CPU boost desired value is not typed")),
        },
        CpuNode::PlatformProfile => match desired {
            TypedValue::PlatformProfile(name) => Ok(name.as_str().to_string()),
            _ => Err(target_error("platform profile desired value is not typed")),
        },
        CpuNode::Frequency(_) => Err(
            target_error("CPU frequency is written as two separate limits"),
        ),
    }
}

/// Whether a value is one that its type allows, and a name is one word.
pub open spec fn allowed(value: ValueView) -> bool {
    match value {
        ValueView::Governor(name) => name.len() > 0 && text::trim_spec(name) == name,
        ValueView::PlatformProfile(name) => name.len() > 0 && text::trim_spec(name) == name,
        _ => true,
    }
}

/// Reading a control gives back the value that was written to it.
pub proof fn written_controls_read_back(
    node: CpuNode,
    desired: ValueView,
    interface: Option<CpuBoostInterface>,
    written: Seq<char>,
)
    requires
        written_text(node, desired) == Ok::<Seq<char>, ErrorView>(written),
        node is Boost ==> node == CpuNode::Boost(interface),
        allowed(desired),
    ensures
        node_value(node, interface, vstd::utf8::encode_utf8(written)) == Ok::<ValueView, ErrorView>(
            desired,
        ),
{
    text::lemma_decode_encoded(written);
    match desired {
        ValueView::EnergyPreference(preference) => {
            energy_round_trip(preference);
            reveal_strlit("performance");
            reveal_strlit("balance_performance");
            reveal_strlit("balance_power");
            reveal_strlit("power");
            assert(written.len() > 0);
            assert(written[0] == 'p' || written[0] == 'b');
            assert(written.last() == 'e' || written.last() == 'r');
            text::lemma_trim_tight(written);
        },
        ValueView::CpuBoost(state) => {
            boost_round_trip(interface->0, state);
            reveal_strlit("0");
            reveal_strlit("1");
            text::lemma_trim_tight(written);
        },
        _ => {},
    }
}

/// Reading a limit gives back the frequency that was written to it.
pub proof fn written_limits_read_back(frequency: FrequencyKHz)
    requires
        frequency.value > 0,
    ensures
        frequency_in(vstd::utf8::encode_utf8(text::decimal_spec(frequency.value as nat))) == Ok::<
            FrequencyKHz,
            ErrorView,
        >(frequency),
{
    text::lemma_decode_encoded(text::decimal_spec(frequency.value as nat));
    text::lemma_number_plain(frequency.value as nat);
    text::decimal_round_trip(frequency.value as nat, u64::MAX as nat);
}

/// Whether a text may be written to a control.
pub open spec fn writable(value: Seq<char>) -> bool {
    &&& value.len() > 0
    &&& vstd::utf8::encode_utf8(value).len() <= MAX_KERNEL_VALUE_BYTES
    &&& !value.contains('\0')
    &&& !value.contains('\n')
}

fn has_char(chars: &[char], c: char) -> (r: bool)
    ensures
        r == chars@.contains(c),
{
    for i in 0..chars.len()
        invariant
            forall|j: int| 0 <= j < i ==> chars@[j] != c,
    {
        if chars[i] == c {
            return true;
        }
    }
    false
}

/// Whether a text may be written to a control.
pub fn check_kernel_value(value: &str) -> (r: Result<(), SysboostError>)
    ensures
        match r {
            Ok(_) => writable(value@),
            Err(e) => !writable(value@) && e@ == crate::error::error_view(
                ErrorCode::InvalidInput,
                "CPU backend generated an invalid kernel value"@,
            ),
        },
{
    let chars = text::chars_of(value);
    let bytes = value.as_bytes();
    if chars.len() == 0 || bytes.len() > MAX_KERNEL_VALUE_BYTES || has_char(
        chars.as_slice(),
        '\0',
    ) || has_char(chars.as_slice(), '\n') {
        Err(
            SysboostError::new(
                ErrorCode::InvalidInput,
                "CPU backend generated an invalid kernel value",
            ),
        )
    } else {
        Ok(())
    }
}

/// One entry of the directory that holds the policies.
#[derive(Debug)]
pub struct PolicyEntry {
    /// Its name, where that is text.
    pub name: Option<String>,
    /// What it is, where that can be seen.
    pub kind: Option<EntryKind>,
}

/// The policies among entries, as they stand there, or why the listing fails at
/// the first bad one.
pub open spec fn policies_in(entries: Seq<PolicyEntry>) -> Result<Seq<u32>, ErrorView>
    decreases entries.len(),
{
    if entries.len() == 0 {
        Ok(Seq::empty())
    } else {
        match policies_in(entries.drop_last()) {
            Err(e) => Err(e),
            Ok(found) => match entries.last().name {
                None => Ok(found),
                Some(name) => if !text::starts_with_spec(name@, "policy"@) {
                    Ok(found)
                } else {
                    match text::parse_spec(name@.skip("policy"@.len() as int), u32::MAX as nat) {
                        None => Err(target_fault("CPU policy directory name is malformed"@)),
                        Some(n) => match entries.last().kind {
                            None => Err(
                                target_fault("CPU policy directory cannot be inspected"@),
                            ),
                            Some(EntryKind::Directory) => if found.len() >= MAX_CPU_POLICIES {
                                Err(target_fault("CPU policy enumeration exceeds its bound"@))
                            } else {
                                Ok(found.push(n as u32))
                            },
                            Some(_) => Err(
                                target_fault("CPU policy directory is not a real directory"@),
                            ),
                        },
                    }
                },
            },
        }
    }
}

proof fn lemma_policies_error(entries: Seq<PolicyEntry>, n: int)
    requires
        0 <= n <= entries.len(),
        policies_in(entries.take(n)) is Err,
    ensures
        policies_in(entries) == policies_in(entries.take(n)),
    decreases entries.len() - n,
{
    if n < entries.len() {
        assert(entries.take(n + 1).drop_last() =~= entries.take(n));
        lemma_policies_error(entries, n + 1);
    } else {
        assert(entries.take(n) =~= entries);
    }
}

/// The numbers of policies.
pub open spec fn policy_numbers(policies: Seq<CpuPolicyId>) -> Seq<u32> {
    policies.map_values(|p: CpuPolicyId| p.value)
}

/// The policies of a host, each once, in ascending order.
pub fn list_policies(entries: &Vec<PolicyEntry>) -> (r: Result<Vec<CpuPolicyId>, SysboostError>)
    ensures
        match (r, policies_in(entries@)) {
            (Ok(policies), Ok(found)) => policy_numbers(policies@) == cpuset::canonical(found),
            (Err(e), Err(expected)) => e@ == expected,
            _ => false,
        },
{
    let mark = text::chars_of("policy");
    let mut found: Vec<u32> = Vec::new();
    let ghost all = entries@;
    let mut i: usize = 0;
    while i < entries.len()
        invariant
            i <= entries@.len(),
            all == entries@,
            mark@ == "policy"@,
            found@.len() <= MAX_CPU_POLICIES,
            policies_in(all.take(i as int)) == Ok::<Seq<u32>, ErrorView>(found@),
        decreases entries@.len() - i,
    {
        proof {
            assert(all.take(i + 1).drop_last() =~= all.take(i as int));
            assert(all.take(i + 1).last() == all[i as int]);
        }
        let entry = &entries[i];
        if let Some(name) = &entry.name {
            let chars = text::chars_of(name.as_str());
            if text::starts_with(chars.as_slice(), mark.as_slice()) {
                let rest = vstd::slice::slice_subrange(chars.as_slice(), mark.len(), chars.len());
                assert(rest@ =~= name@.skip("policy"@.len() as int));
                let number: u32 = match text::parse_unsigned(rest, u32::MAX as u128) {
                    Some(n) => n as u32,
                    None => {
                        proof {
                            lemma_policies_error(all, i + 1);
                        }
                        return Err(target_error("CPU policy directory name is malformed"));
                    },
                };
                match entry.kind {
                    None => {
                        proof {
                            lemma_policies_error(all, i + 1);
                        }
                        return Err(target_error("CPU policy directory cannot be inspected"));
                    },
                    Some(EntryKind::Directory) => {
                        if found.len() >= MAX_CPU_POLICIES {
                            proof {
                                lemma_policies_error(all, i + 1);
                            }
                            return Err(target_error("CPU policy enumeration exceeds its bound"));
                        }
                        found.push(number);
                    },
                    Some(_) => {
                        proof {
                            lemma_policies_error(all, i + 1);
                        }
                        return Err(target_error("CPU policy directory is not a real directory"));
                    },
                }
            }
        }
        i = i + 1;
    }
    assert(all.take(i as int) =~= all);
    let sorted = cpuset::sort_cpus(found.as_slice());
    let mut policies: Vec<CpuPolicyId> = Vec::new();
    for k in 0..sorted.len()
        invariant
            policy_numbers(policies@) == sorted@.take(k as int),
    {
        let ghost before = policy_numbers(policies@);
        policies.push(CpuPolicyId::new(sorted[k]));
        assert(policy_numbers(policies@) =~= before.push(sorted@[k as int]));
        assert(sorted@.take(k + 1) =~= sorted@.take(k as int).push(sorted@[k as int]));
    }
    assert(sorted@.take(sorted@.len() as int) =~= sorted@);
    Ok(policies)
}

/// What is found in the place of a file.
#[derive(Clone, Copy, Debug, PartialEq, Eq, Structural)]
pub enum Found {
    Nothing,
    Object(EntryKind),
    /// It cannot be seen what is there.
    Hidden,
}

/// What one of the two boost files decides: it is taken, it stops the search, or
/// the search goes on.
pub open spec fn boost_step(found: Found) -> Option<Result<(), ErrorView>> {
    match found {
        Found::Nothing => None,
        Found::Hidden => Some(Err(target_fault("CPU boost node cannot be inspected"@))),
        Found::Object(EntryKind::Symlink) => Some(
            Err(target_fault("CPU boost node is a symlink"@)),
        ),
        Found::Object(EntryKind::File) => Some(Ok(())),
        Found::Object(_) => Some(Err(target_fault("CPU boost node has an unexpected type"@))),
    }
}

/// The boost file that is used: the one that is asked for, or the first of
/// `boost` and `no_turbo` that is there.
pub open spec fn boost_file(
    asked: Option<CpuBoostInterface>,
    boost: Found,
    no_turbo: Found,
) -> Result<CpuBoostInterface, ErrorView> {
    let none = unsupported_fault("CPU boost/turbo interface is unavailable"@);
    if asked != Some(CpuBoostInterface::NoTurbo) && boost_step(boost) is Some {
        match boost_step(boost)->0 {
            Ok(_) => Ok(CpuBoostInterface::Boost),
            Err(e) => Err(e),
        }
    } else if asked != Some(CpuBoostInterface::Boost) && boost_step(no_turbo) is Some {
        match boost_step(no_turbo)->0 {
            Ok(_) => Ok(CpuBoostInterface::NoTurbo),
            Err(e) => Err(e),
        }
    } else {
        Err(none)
    }
}

fn take_boost(found: Found) -> (r: Option<Result<(), SysboostError>>)
    ensures
        match r {
            None => boost_step(found) is None,
            Some(Ok(_)) => boost_step(found) == Some(Ok::<(), ErrorView>(())),
            Some(Err(e)) => boost_step(found) == Some(Err::<(), ErrorView>(e@)),
        },
{
    match found {
        Found::Nothing => None,
        Found::Hidden => Some(Err(target_error("CPU boost node cannot be inspected"))),
        Found::Object(kind) => match kind {
            EntryKind::Symlink => Some(Err(target_error("CPU boost node is a symlink"))),
            EntryKind::File => Some(Ok(())),
            _ => Some(Err(target_error("CPU boost node has an unexpected type"))),
        },
    }
}

/// The boost file that is used.
pub fn select_boost(asked: Option<CpuBoostInterface>, boost: Found, no_turbo: Found) -> (r: Result<
    CpuBoostInterface,
    SysboostError,
>)
    ensures
        match r {
            Ok(interface) => boost_file(asked, boost, no_turbo) == Ok::<
                CpuBoostInterface,
                ErrorView,
            >(interface),
            Err(e) => boost_file(asked, boost, no_turbo) == Err::<CpuBoostInterface, ErrorView>(e@),
        },
{
    let first = match asked {
        Some(CpuBoostInterface::NoTurbo) => false,
        _ => true,
    };
    let second = match asked {
        Some(CpuBoostInterface::Boost) => false,
        _ => true,
    };
    if first {
        match take_boost(boost) {
            Some(Ok(_)) => {
                return Ok(CpuBoostInterface::Boost);
            },
            Some(Err(e)) => {
                return Err(e);
            },
            None => {},
        }
    }
    if second {
        match take_boost(no_turbo) {
            Some(Ok(_)) => {
                return Ok(CpuBoostInterface::NoTurbo);
            },
            Some(Err(e)) => {
                return Err(e);
            },
            None => {},
        }
    }
    Err(unsupported("CPU boost/turbo interface is unavailable"))
}

/// A kernel's line reads as the text before the newline.
proof fn lemma_kernel_line(s: Seq<char>)
    requires
        s.len() > 0,
        !text::is_space(s[0]),
        !text::is_space(s.last()),
    ensures
        kernel_text(vstd::utf8::encode_utf8(s.push('\n'))) == Ok::<Seq<char>, ErrorView>(s),
{
    text::lemma_trim_line(s);
}

/// An energy preference is written under the name that the kernel gives it, and the
/// line of that name is read as it: the strongest leaning to speed is
/// `performance`, the strongest to saving is `power`, and what lies between is
/// `balance_performance` and `balance_power`. No other line is read as one.
pub proof fn energy_preferences_have_the_kernels_names(policy: CpuPolicyId, raw: Seq<u8>)
    ensures
        energy_text(EnergyPreference::Performance) == "performance"@,
        energy_text(EnergyPreference::BalancePerformance) == "balance_performance"@,
        energy_text(EnergyPreference::BalancePower) == "balance_power"@,
        energy_text(EnergyPreference::Power) == "power"@,
        written_text(
            CpuNode::EnergyPreference(policy),
            ValueView::EnergyPreference(EnergyPreference::Performance),
        ) == Ok::<Seq<char>, ErrorView>("performance"@),
        written_text(
            CpuNode::EnergyPreference(policy),
            ValueView::EnergyPreference(EnergyPreference::BalancePerformance),
        ) == Ok::<Seq<char>, ErrorView>("balance_performance"@),
        written_text(
            CpuNode::EnergyPreference(policy),
            ValueView::EnergyPreference(EnergyPreference::BalancePower),
        ) == Ok::<Seq<char>, ErrorView>("balance_power"@),
        written_text(
            CpuNode::EnergyPreference(policy),
            ValueView::EnergyPreference(EnergyPreference::Power),
        ) == Ok::<Seq<char>, ErrorView>("power"@),
        energy_in(vstd::utf8::encode_utf8("performance\n"@)) == Ok::<EnergyPreference, ErrorView>(
            EnergyPreference::Performance,
        ),
        energy_in(vstd::utf8::encode_utf8("balance_performance\n"@)) == Ok::<
            EnergyPreference,
            ErrorView,
        >(EnergyPreference::BalancePerformance),
        energy_in(vstd::utf8::encode_utf8("balance_power\n"@)) == Ok::<EnergyPreference, ErrorView>(
            EnergyPreference::BalancePower,
        ),
        energy_in(vstd::utf8::encode_utf8("power\n"@)) == Ok::<EnergyPreference, ErrorView>(
            EnergyPreference::Power,
        ),
        energy_in(raw) is Ok ==> text::decode_spec(raw) is Some && {
            let name = text::trim_spec(text::decode_spec(raw)->0);
            ||| name == "performance"@ && energy_in(raw)->Ok_0 == EnergyPreference::Performance
            ||| name == "balance_performance"@ && energy_in(raw)->Ok_0
                == EnergyPreference::BalancePerformance
            ||| name == "balance_power"@ && energy_in(raw)->Ok_0 == EnergyPreference::BalancePower
            ||| name == "power"@ && energy_in(raw)->Ok_0 == EnergyPreference::Power
        },
{
    reveal_strlit("performance");
    reveal_strlit("balance_performance");
    reveal_strlit("balance_power");
    reveal_strlit("power");
    reveal_strlit("performance\n");
    reveal_strlit("balance_performance\n");
    reveal_strlit("balance_power\n");
    reveal_strlit("power\n");
    assert("performance\n"@ =~= "performance"@.push('\n'));
    assert("balance_performance\n"@ =~= "balance_performance"@.push('\n'));
    assert("balance_power\n"@ =~= "balance_power"@.push('\n'));
    assert("power\n"@ =~= "power"@.push('\n'));
    lemma_kernel_line("performance"@);
    lemma_kernel_line("balance_performance"@);
    lemma_kernel_line("balance_power"@);
    lemma_kernel_line("power"@);
    assert("performance"@.len() != "balance_performance"@.len());
    assert("performance"@.len() != "balance_power"@.len());
    assert("performance"@.len() != "power"@.len());
    assert("balance_performance"@.len() != "balance_power"@.len());
    assert("balance_performance"@.len() != "power"@.len());
    assert("balance_power"@.len() != "power"@.len());
}

/// The file `boost` holds one where CPUs may exceed their nominal frequency and
/// zero where they may not; the file `no_turbo` holds the opposite. Both are read
/// as they are written.
pub proof fn boost_files_hold_what_the_kernel_means()
    ensures
        written_text(
            CpuNode::Boost(Some(CpuBoostInterface::Boost)),
            ValueView::CpuBoost(CpuBoostState::Enabled),
        ) == Ok::<Seq<char>, ErrorView>("1"@),
        written_text(
            CpuNode::Boost(Some(CpuBoostInterface::Boost)),
            ValueView::CpuBoost(CpuBoostState::Disabled),
        ) == Ok::<Seq<char>, ErrorView>("0"@),
        written_text(
            CpuNode::Boost(Some(CpuBoostInterface::NoTurbo)),
            ValueView::CpuBoost(CpuBoostState::Enabled),
        ) == Ok::<Seq<char>, ErrorView>("0"@),
        written_text(
            CpuNode::Boost(Some(CpuBoostInterface::NoTurbo)),
            ValueView::CpuBoost(CpuBoostState::Disabled),
        ) == Ok::<Seq<char>, ErrorView>("1"@),
        boost_in(CpuBoostInterface::Boost, vstd::utf8::encode_utf8("1\n"@)) == Ok::<
            CpuBoostState,
            ErrorView,
        >(CpuBoostState::Enabled),
        boost_in(CpuBoostInterface::Boost, vstd::utf8::encode_utf8("0\n"@)) == Ok::<
            CpuBoostState,
            ErrorView,
        >(CpuBoostState::Disabled),
        boost_in(CpuBoostInterface::NoTurbo, vstd::utf8::encode_utf8("1\n"@)) == Ok::<
            CpuBoostState,
            ErrorView,
        >(CpuBoostState::Disabled),
        boost_in(CpuBoostInterface::NoTurbo, vstd::utf8::encode_utf8("0\n"@)) == Ok::<
            CpuBoostState,
            ErrorView,
        >(CpuBoostState::Enabled),
{
    reveal_strlit("1");
    reveal_strlit("0");
    reveal_strlit("1\n");
    reveal_strlit("0\n");
    assert("1\n"@ =~= "1"@.push('\n'));
    assert("0\n"@ =~= "0"@.push('\n'));
    lemma_kernel_line("1"@);
    lemma_kernel_line("0"@);
    assert("1"@[0] != "0"@[0]);
}

/// A governor and a platform profile are written as their names are, and a
/// frequency is read as the number that its line holds.
pub proof fn names_and_numbers_stand_as_they_are(policy: CpuPolicyId, name: Seq<char>, khz: u64)
    requires
        khz > 0,
    ensures
        written_text(CpuNode::Governor(policy), ValueView::Governor(name)) == Ok::<
            Seq<char>,
            ErrorView,
        >(name),
        written_text(CpuNode::PlatformProfile, ValueView::PlatformProfile(name)) == Ok::<
            Seq<char>,
            ErrorView,
        >(name),
        frequency_in(vstd::utf8::encode_utf8(text::decimal_spec(khz as nat).push('\n'))) == Ok::<
            FrequencyKHz,
            ErrorView,
        >(FrequencyKHz { value: khz }),
{
    let digits = text::decimal_spec(khz as nat);
    text::lemma_number_plain(khz as nat);
    text::decimal_round_trip(khz as nat, u64::MAX as nat);
    assert(!text::is_space(digits[0]) && !text::is_space(digits[digits.len() - 1]));
    lemma_kernel_line(digits);
}

} // verus!
