//! Reading a host, and what the answers mean.

use vstd::prelude::*;

use crate::capability::{
    CapabilityDescriptor, CapabilityEvidence, CapabilityState, CapabilityView, EvidenceSource,
    FeatureClass, PrivilegeRequirement, RiskClass, TargetKind,
};
use crate::cpuset;
use crate::error::{ErrorCode, ErrorView};
use crate::filesystem;
use crate::filesystem::{DirectoryEntry, EntryKind, ReadOnlyFileSystem, RelativePath};
use crate::ids::{CapabilityId, TargetId};
use crate::mutation::EqualityKind;
use crate::text;

verus! {

/// The longest file that is read.
pub const MAX_DISCOVERY_READ_BYTES: usize = 1_048_576;

/// The backend that discovery stands for in an inventory.
pub const DISCOVERY_BACKEND: &'static str = "linux.discovery";

/// What was found at a place.
#[derive(Debug, PartialEq, Eq)]
pub enum Probe<T> {
    Present(T),
    Missing,
    Denied,
    Malformed,
}

/// What was found, where it is a text.
pub open spec fn probe_text(probe: Probe<String>) -> Probe<Seq<char>> {
    match probe {
        Probe::Present(value) => Probe::Present(value@),
        Probe::Missing => Probe::Missing,
        Probe::Denied => Probe::Denied,
        Probe::Malformed => Probe::Malformed,
    }
}

/// What was found, where it is a directory.
pub open spec fn probe_entries(probe: Probe<Vec<DirectoryEntry>>) -> Probe<
    Seq<(Seq<char>, EntryKind)>,
> {
    match probe {
        Probe::Present(entries) => Probe::Present(filesystem::entries_view(entries@)),
        Probe::Missing => Probe::Missing,
        Probe::Denied => Probe::Denied,
        Probe::Malformed => Probe::Malformed,
    }
}

/// What a failed read means: it is not allowed, there is nothing, or it cannot be
/// told.
pub open spec fn failure<T>(code: ErrorCode) -> Probe<T> {
    match code {
        ErrorCode::AuthorizationError | ErrorCode::CapabilityError => Probe::Denied,
        ErrorCode::TargetError | ErrorCode::Unsupported => Probe::Missing,
        _ => Probe::Malformed,
    }
}

fn failed<T>(code: ErrorCode) -> (r: Probe<T>)
    ensures
        r == failure::<T>(code),
{
    match code {
        ErrorCode::AuthorizationError | ErrorCode::CapabilityError => Probe::Denied,
        ErrorCode::TargetError | ErrorCode::Unsupported => Probe::Missing,
        _ => Probe::Malformed,
    }
}

/// What an answer to a read means.
pub open spec fn text_found(reply: Result<Seq<u8>, ErrorView>) -> Probe<Seq<char>> {
    match reply {
        Ok(bytes) => if bytes.len() > MAX_DISCOVERY_READ_BYTES {
            Probe::Malformed
        } else {
            match text::decode_spec(bytes) {
                Some(value) => Probe::Present(text::trim_spec(value)),
                None => Probe::Malformed,
            }
        },
        Err(e) => failure(e.code),
    }
}

/// What reading a path gives; where the text is no path, there is nothing.
pub open spec fn file_at<F: ReadOnlyFileSystem>(tree: &F, path: Seq<char>) -> Result<
    Seq<u8>,
    ErrorView,
> {
    match filesystem::path_fault(path) {
        Some(fault) => Err(filesystem::path_error(fault)),
        None => tree.file(path),
    }
}

/// The text at a path, without the white space around it.
pub open spec fn text_at<F: ReadOnlyFileSystem>(tree: &F, path: Seq<char>) -> Probe<Seq<char>> {
    text_found(file_at(tree, path))
}

/// Whether reading the text at a path finds this: the path is read once.
pub open spec fn reads_text<F: ReadOnlyFileSystem>(
    tree: &F,
    path: Seq<char>,
    found: Probe<Seq<char>>,
) -> bool {
    match filesystem::path_fault(path) {
        Some(fault) => found == failure::<Seq<char>>(filesystem::path_error(fault).code),
        None => exists|reply: Result<Seq<u8>, ErrorView>| #[trigger]
            filesystem::reads(tree, path, reply) && found == text_found(reply),
    }
}

/// What an answer to a read means: too much, or no text, is malformed.
pub fn understand_text(bytes: &[u8]) -> (r: Probe<String>)
    ensures
        probe_text(r) == text_found(Ok(bytes@)),
{
    if bytes.len() > MAX_DISCOVERY_READ_BYTES {
        return Probe::Malformed;
    }
    match text::decode(bytes) {
        Some(value) => {
            let chars = text::chars_of(value.as_str());
            let trimmed = text::string_of(text::trim(chars.as_slice()));
            Probe::Present(trimmed)
        },
        None => Probe::Malformed,
    }
}

/// Reads the text at a path.
pub fn read_text<F: ReadOnlyFileSystem>(tree: &F, path: &str) -> (r: Probe<String>)
    ensures
        reads_text(tree, path@, probe_text(r)),
        tree.settled() ==> probe_text(r) == text_at(tree, path@),
{
    match RelativePath::new(path) {
        Ok(path) => {
            let reply = tree.read(&path);
            assert(filesystem::reads(tree, path@, filesystem::bytes_reply(reply)));
            match reply {
                Ok(bytes) => understand_text(bytes.as_slice()),
                Err(e) => failed(e.code),
            }
        },
        Err(e) => failed(e.code),
    }
}

/// What an answer to a listing means.
pub open spec fn entries_found(reply: Result<Seq<(Seq<char>, EntryKind)>, ErrorView>) -> Probe<
    Seq<(Seq<char>, EntryKind)>,
> {
    match reply {
        Ok(entries) => Probe::Present(entries),
        Err(e) => failure(e.code),
    }
}

/// The entries of a directory.
pub open spec fn entries_at<F: ReadOnlyFileSystem>(tree: &F, path: Seq<char>) -> Probe<
    Seq<(Seq<char>, EntryKind)>,
> {
    match filesystem::path_fault(path) {
        Some(fault) => failure(filesystem::path_error(fault).code),
        None => entries_found(tree.directory(Some(path))),
    }
}

/// Whether reading the entries of a directory finds this: it is listed once.
pub open spec fn reads_entries<F: ReadOnlyFileSystem>(
    tree: &F,
    path: Seq<char>,
    found: Probe<Seq<(Seq<char>, EntryKind)>>,
) -> bool {
    match filesystem::path_fault(path) {
        Some(fault) => found == failure::<Seq<(Seq<char>, EntryKind)>>(
            filesystem::path_error(fault).code,
        ),
        None => exists|reply: Result<Seq<(Seq<char>, EntryKind)>, ErrorView>| #[trigger]
            filesystem::lists(tree, Some(path), reply) && found == entries_found(reply),
    }
}

/// Reads the entries of a directory.
pub fn list<F: ReadOnlyFileSystem>(tree: &F, path: &str) -> (r: Probe<Vec<DirectoryEntry>>)
    ensures
        reads_entries(tree, path@, probe_entries(r)),
        tree.settled() ==> probe_entries(r) == entries_at(tree, path@),
{
    match RelativePath::new(path) {
        Ok(path) => {
            let reply = tree.list(Some(&path));
            assert(filesystem::lists(tree, Some(path@), filesystem::entries_reply(reply)));
            match reply {
                Ok(entries) => Probe::Present(entries),
                Err(e) => failed(e.code),
            }
        },
        Err(e) => failed(e.code),
    }
}

/// What a number reads as.
pub open spec fn number_found(probe: Probe<Seq<char>>, max: nat) -> Probe<nat> {
    match probe {
        Probe::Present(value) => match text::parse_spec(value, max) {
            Some(n) => Probe::Present(n),
            None => Probe::Malformed,
        },
        Probe::Missing => Probe::Missing,
        Probe::Denied => Probe::Denied,
        Probe::Malformed => Probe::Malformed,
    }
}

/// Whether reading a number at a path finds this: the path is read once.
pub open spec fn reads_number<F: ReadOnlyFileSystem>(
    tree: &F,
    path: Seq<char>,
    max: nat,
    found: Probe<nat>,
) -> bool {
    exists|seen: Probe<Seq<char>>| #[trigger]
        reads_text(tree, path, seen) && found == number_found(seen, max)
}

pub open spec fn probe_u64(probe: Probe<u64>) -> Probe<nat> {
    match probe {
        Probe::Present(n) => Probe::Present(n as nat),
        Probe::Missing => Probe::Missing,
        Probe::Denied => Probe::Denied,
        Probe::Malformed => Probe::Malformed,
    }
}

pub open spec fn probe_u32(probe: Probe<u32>) -> Probe<nat> {
    match probe {
        Probe::Present(n) => Probe::Present(n as nat),
        Probe::Missing => Probe::Missing,
        Probe::Denied => Probe::Denied,
        Probe::Malformed => Probe::Malformed,
    }
}

pub fn parse_u64(probe: Probe<String>) -> (r: Probe<u64>)
    ensures
        probe_u64(r) == number_found(probe_text(probe), u64::MAX as nat),
{
    match probe {
        Probe::Present(value) => {
            let chars = text::chars_of(value.as_str());
            match text::parse_unsigned(chars.as_slice(), u64::MAX as u128) {
                Some(n) => Probe::Present(n as u64),
                None => Probe::Malformed,
            }
        },
        Probe::Missing => Probe::Missing,
        Probe::Denied => Probe::Denied,
        Probe::Malformed => Probe::Malformed,
    }
}

pub fn parse_u32(probe: Probe<String>) -> (r: Probe<u32>)
    ensures
        probe_u32(r) == number_found(probe_text(probe), u32::MAX as nat),
{
    match probe {
        Probe::Present(value) => {
            let chars = text::chars_of(value.as_str());
            match text::parse_unsigned(chars.as_slice(), u32::MAX as u128) {
                Some(n) => Probe::Present(n as u32),
                None => Probe::Malformed,
            }
        },
        Probe::Missing => Probe::Missing,
        Probe::Denied => Probe::Denied,
        Probe::Malformed => Probe::Malformed,
    }
}

/// What is there, if anything.
pub open spec fn value_of<T>(probe: Probe<T>) -> Option<T> {
    match probe {
        Probe::Present(value) => Some(value),
        _ => None,
    }
}

/// A text that may be missing, as plain value.
pub open spec fn text_option(value: Option<String>) -> Option<Seq<char>> {
    match value {
        Some(value) => Some(value@),
        None => None,
    }
}

/// The text that is there, if any.
pub fn text_value(probe: &Probe<String>) -> (r: Option<String>)
    ensures
        text_option(r) == value_of(probe_text(*probe)),
{
    match probe {
        Probe::Present(value) => Some(value.clone()),
        _ => None,
    }
}

/// The text that is there, or an empty one.
pub open spec fn text_or_empty(probe: Probe<Seq<char>>) -> Seq<char> {
    match probe {
        Probe::Present(value) => value,
        _ => Seq::empty(),
    }
}

/// The text that is there, or an empty one.
pub fn text_or_nothing(probe: &Probe<String>) -> (r: String)
    ensures
        r@ == text_or_empty(probe_text(*probe)),
{
    match probe {
        Probe::Present(value) => value.clone(),
        _ => {
            let r = String::new();
            assert(r@ =~= Seq::<char>::empty());
            r
        },
    }
}

/// How a read-only observation is to be taken.
#[derive(Clone, Copy, Debug, PartialEq, Eq, Structural)]
pub enum DiscoveryStatus {
    /// There and understood.
    Supported,
    /// Not there.
    Unavailable,
    /// There, but it must not be read.
    PermissionDenied,
    /// There, but nothing is done with it.
    PresentButUnsupported,
    /// For information only.
    ReportOnly,
    /// There, but malformed or incomplete.
    Indeterminate,
}

/// The status of one observation.
pub open spec fn status_spec<T>(probe: Probe<T>, present: DiscoveryStatus) -> DiscoveryStatus {
    match probe {
        Probe::Present(_) => present,
        Probe::Missing => DiscoveryStatus::Unavailable,
        Probe::Denied => DiscoveryStatus::PermissionDenied,
        Probe::Malformed => DiscoveryStatus::Indeterminate,
    }
}

/// The status of one observation.
pub fn status<T>(probe: &Probe<T>, present: DiscoveryStatus) -> (r: DiscoveryStatus)
    ensures
        r == status_spec(*probe, present),
{
    match probe {
        Probe::Present(_) => present,
        Probe::Missing => DiscoveryStatus::Unavailable,
        Probe::Denied => DiscoveryStatus::PermissionDenied,
        Probe::Malformed => DiscoveryStatus::Indeterminate,
    }
}

/// Whether a status is among others.
pub open spec fn among(statuses: Seq<DiscoveryStatus>, status: DiscoveryStatus) -> bool {
    statuses.contains(status)
}

fn has_status(statuses: &[DiscoveryStatus], status: DiscoveryStatus) -> (r: bool)
    ensures
        r == among(statuses@, status),
{
    for i in 0..statuses.len()
        invariant
            forall|j: int| 0 <= j < i ==> statuses@[j] != status,
    {
        if statuses[i] == status {
            assert(statuses@[i as int] == status);
            return true;
        }
    }
    false
}

/// The status of several observations of one thing: what is denied or malformed
/// weighs more than what is there.
pub open spec fn joint_status(statuses: Seq<DiscoveryStatus>, present: DiscoveryStatus)
    -> DiscoveryStatus {
    if among(statuses, DiscoveryStatus::PermissionDenied) {
        DiscoveryStatus::PermissionDenied
    } else if among(statuses, DiscoveryStatus::Indeterminate) {
        DiscoveryStatus::Indeterminate
    } else if among(statuses, present) {
        present
    } else {
        DiscoveryStatus::Unavailable
    }
}

/// The status of several observations of one thing.
pub fn status_for(statuses: &[DiscoveryStatus], present: DiscoveryStatus) -> (r: DiscoveryStatus)
    ensures
        r == joint_status(statuses@, present),
{
    if has_status(statuses, DiscoveryStatus::PermissionDenied) {
        return DiscoveryStatus::PermissionDenied;
    }
    if has_status(statuses, DiscoveryStatus::Indeterminate) {
        return DiscoveryStatus::Indeterminate;
    }
    if has_status(statuses, present) {
        return present;
    }
    DiscoveryStatus::Unavailable
}

/// The status of different things together.
pub open spec fn combined_status(statuses: Seq<DiscoveryStatus>) -> DiscoveryStatus {
    if among(statuses, DiscoveryStatus::PermissionDenied) {
        DiscoveryStatus::PermissionDenied
    } else if among(statuses, DiscoveryStatus::Indeterminate) {
        DiscoveryStatus::Indeterminate
    } else if among(statuses, DiscoveryStatus::Supported) {
        DiscoveryStatus::Supported
    } else if among(statuses, DiscoveryStatus::PresentButUnsupported) {
        DiscoveryStatus::PresentButUnsupported
    } else if among(statuses, DiscoveryStatus::ReportOnly) {
        DiscoveryStatus::ReportOnly
    } else {
        DiscoveryStatus::Unavailable
    }
}

/// The status of different things together.
pub fn combine_statuses(statuses: &[DiscoveryStatus]) -> (r: DiscoveryStatus)
    ensures
        r == combined_status(statuses@),
{
    if has_status(statuses, DiscoveryStatus::PermissionDenied) {
        return DiscoveryStatus::PermissionDenied;
    }
    if has_status(statuses, DiscoveryStatus::Indeterminate) {
        return DiscoveryStatus::Indeterminate;
    }
    if has_status(statuses, DiscoveryStatus::Supported) {
        return DiscoveryStatus::Supported;
    }
    if has_status(statuses, DiscoveryStatus::PresentButUnsupported) {
        return DiscoveryStatus::PresentButUnsupported;
    }
    if has_status(statuses, DiscoveryStatus::ReportOnly) {
        return DiscoveryStatus::ReportOnly;
    }
    DiscoveryStatus::Unavailable
}

/// What an observation says, in words.
pub open spec fn evidence_detail<T>(probe: Probe<T>, name: Seq<char>) -> Seq<char> {
    match probe {
        Probe::Present(_) => name + " is readable and parsed"@,
        Probe::Missing => name + " is not exposed"@,
        Probe::Denied => name + " is present but read access was denied"@,
        Probe::Malformed => name + " was present but malformed or oversized"@,
    }
}

/// What an observation says, in words, with its source.
pub fn probe_evidence<T>(probe: &Probe<T>, source: EvidenceSource, name: &str) -> (r:
    CapabilityEvidence)
    ensures
        r.source == source,
        r.detail@ == evidence_detail(*probe, name@),
{
    let detail = match probe {
        Probe::Present(_) => text::join(name, " is readable and parsed"),
        Probe::Missing => text::join(name, " is not exposed"),
        Probe::Denied => text::join(name, " is present but read access was denied"),
        Probe::Malformed => text::join(name, " was present but malformed or oversized"),
    };
    CapabilityEvidence { source, detail }
}

pub fn evidence(source: EvidenceSource, detail: &str) -> (r: CapabilityEvidence)
    ensures
        r.source == source,
        r.detail@ == detail@,
{
    CapabilityEvidence { source, detail: detail.to_string() }
}

/// A named value.
#[derive(Debug, PartialEq, Eq)]
pub struct Attribute {
    pub key: String,
    pub value: String,
}

pub open spec fn attributes_view(attributes: Seq<Attribute>) -> Seq<(Seq<char>, Seq<char>)> {
    attributes.map_values(|a: Attribute| (a.key@, a.value@))
}

/// One row of the capability matrix.
#[derive(Debug, PartialEq, Eq)]
pub struct CapabilityFinding {
    pub id: CapabilityId,
    /// The policy or device that it is about.
    pub target: Option<TargetId>,
    pub status: DiscoveryStatus,
    pub classification: FeatureClass,
    pub evidence: Vec<CapabilityEvidence>,
    /// Values for display, in the order of their keys.
    pub attributes: Vec<Attribute>,
}

/// A row of the capability matrix as plain values.
#[verifier::ext_equal]
pub struct FindingView {
    pub id: Seq<char>,
    pub target: Option<Seq<char>>,
    pub status: DiscoveryStatus,
    pub classification: FeatureClass,
    pub evidence: Seq<(EvidenceSource, Seq<char>)>,
    pub attributes: Seq<(Seq<char>, Seq<char>)>,
}

impl View for CapabilityFinding {
    type V = FindingView;

    open spec fn view(&self) -> FindingView {
        FindingView {
            id: self.id@,
            target: match self.target {
                Some(target) => Some(target@),
                None => None,
            },
            status: self.status,
            classification: self.classification,
            evidence: crate::capability::evidence_view(self.evidence@),
            attributes: attributes_view(self.attributes@),
        }
    }
}

pub open spec fn findings_view(findings: Seq<CapabilityFinding>) -> Seq<FindingView> {
    findings.map_values(|f: CapabilityFinding| f@)
}

/// One piece of evidence.
pub fn one(a: CapabilityEvidence) -> (r: Vec<CapabilityEvidence>)
    ensures
        crate::capability::evidence_view(r@) == seq![(a.source, a.detail@)],
{
    let ghost av = (a.source, a.detail@);
    let mut r: Vec<CapabilityEvidence> = Vec::new();
    r.push(a);
    assert(crate::capability::evidence_view(r@) =~= seq![av]);
    r
}

/// Two pieces of evidence.
pub fn two(a: CapabilityEvidence, b: CapabilityEvidence) -> (r: Vec<CapabilityEvidence>)
    ensures
        crate::capability::evidence_view(r@) == seq![(a.source, a.detail@), (b.source, b.detail@)],
{
    let ghost av = (a.source, a.detail@);
    let ghost bv = (b.source, b.detail@);
    let mut r: Vec<CapabilityEvidence> = Vec::new();
    r.push(a);
    r.push(b);
    assert(crate::capability::evidence_view(r@) =~= seq![av, bv]);
    r
}

/// Three pieces of evidence.
pub fn three(a: CapabilityEvidence, b: CapabilityEvidence, c: CapabilityEvidence) -> (r: Vec<
    CapabilityEvidence,
>)
    ensures
        crate::capability::evidence_view(r@) == seq![
            (a.source, a.detail@),
            (b.source, b.detail@),
            (c.source, c.detail@),
        ],
{
    let ghost av = (a.source, a.detail@);
    let ghost bv = (b.source, b.detail@);
    let ghost cv = (c.source, c.detail@);
    let mut r: Vec<CapabilityEvidence> = Vec::new();
    r.push(a);
    r.push(b);
    r.push(c);
    assert(crate::capability::evidence_view(r@) =~= seq![av, bv, cv]);
    r
}

/// Another copy of evidence.
pub fn copied(evidence: &Vec<CapabilityEvidence>) -> (r: Vec<CapabilityEvidence>)
    ensures
        crate::capability::evidence_view(r@) == crate::capability::evidence_view(evidence@),
{
    let mut r: Vec<CapabilityEvidence> = Vec::new();
    let ghost all = crate::capability::evidence_view(evidence@);
    let mut i: usize = 0;
    while i < evidence.len()
        invariant
            i <= evidence@.len(),
            all == crate::capability::evidence_view(evidence@),
            crate::capability::evidence_view(r@) == all.take(i as int),
        decreases evidence@.len() - i,
    {
        let ghost before = crate::capability::evidence_view(r@);
        let item = CapabilityEvidence {
            source: evidence[i].source,
            detail: evidence[i].detail.clone(),
        };
        let ghost view = (item.source, item.detail@);
        r.push(item);
        assert(crate::capability::evidence_view(r@) =~= before.push(view));
        assert(all[i as int] == view);
        assert(all.take(i + 1) =~= all.take(i as int).push(view));
        i = i + 1;
    }
    assert(all.take(i as int) =~= all);
    r
}

/// Another copy of attributes.
pub fn copied_attributes(attributes: &Vec<Attribute>) -> (r: Vec<Attribute>)
    ensures
        attributes_view(r@) == attributes_view(attributes@),
{
    let mut r: Vec<Attribute> = Vec::new();
    let ghost all = attributes_view(attributes@);
    let mut i: usize = 0;
    while i < attributes.len()
        invariant
            i <= attributes@.len(),
            all == attributes_view(attributes@),
            attributes_view(r@) == all.take(i as int),
        decreases attributes@.len() - i,
    {
        let ghost before = attributes_view(r@);
        let item = Attribute {
            key: attributes[i].key.clone(),
            value: attributes[i].value.clone(),
        };
        let ghost view = (item.key@, item.value@);
        r.push(item);
        assert(attributes_view(r@) =~= before.push(view));
        assert(all[i as int] == view);
        assert(all.take(i + 1) =~= all.take(i as int).push(view));
        i = i + 1;
    }
    assert(all.take(i as int) =~= all);
    r
}

/// A row about the host as a whole or, where a name is given, about one target.
pub fn finding(
    id: &str,
    target: Option<&str>,
    status: DiscoveryStatus,
    classification: FeatureClass,
    evidence: Vec<CapabilityEvidence>,
    attributes: Vec<Attribute>,
) -> (r: CapabilityFinding)
    requires
        id@.len() > 0,
        target is Some ==> target->0@.len() > 0,
    ensures
        r@ == (FindingView {
            id: id@,
            target: match target {
                Some(target) => Some(target@),
                None => None,
            },
            status,
            classification,
            evidence: crate::capability::evidence_view(evidence@),
            attributes: attributes_view(attributes@),
        }),
{
    let target = match target {
        Some(name) => match TargetId::new(name) {
            Ok(target) => Some(target),
            Err(_) => None,
        },
        None => None,
    };
    CapabilityFinding {
        id: crate::capability::capability_named(id),
        target,
        status,
        classification,
        evidence,
        attributes,
    }
}

/// How a finding stands in an inventory. Discovery offers nothing to change, so
/// nothing is ever available through it.
pub open spec fn described_finding(finding: FindingView, kind: TargetKind) -> CapabilityView {
    CapabilityView {
        id: finding.id,
        backend: DISCOVERY_BACKEND@,
        target_kind: kind,
        state: match finding.status {
            DiscoveryStatus::Supported | DiscoveryStatus::PresentButUnsupported
            | DiscoveryStatus::ReportOnly => CapabilityState::ReadOnly,
            DiscoveryStatus::Unavailable => CapabilityState::Unsupported,
            DiscoveryStatus::PermissionDenied => CapabilityState::Denied,
            DiscoveryStatus::Indeterminate => CapabilityState::Indeterminate,
        },
        operations: Seq::empty(),
        privilege: PrivilegeRequirement::ReadOnly,
        equality: EqualityKind::ByteExact,
        risk: match finding.classification {
            FeatureClass::RuntimeMutable => RiskClass::Medium,
            FeatureClass::Conditional => RiskClass::Medium,
            FeatureClass::Experimental => RiskClass::Critical,
            FeatureClass::BootOnlyReportOnly => RiskClass::Low,
        },
        classification: finding.classification,
        evidence: finding.evidence,
    }
}

/// Nothing that discovery finds can be changed through it.
pub proof fn discovery_offers_no_operation(finding: FindingView, kind: TargetKind)
    ensures
        described_finding(finding, kind).state != CapabilityState::Available,
        described_finding(finding, kind).operations.len() == 0,
        described_finding(finding, kind).privilege == PrivilegeRequirement::ReadOnly,
{
}

/// How a finding stands in an inventory.
pub fn describe_finding(finding: &CapabilityFinding, kind: TargetKind) -> (r: CapabilityDescriptor)
    ensures
        r@ == described_finding(finding@, kind),
{
    let state = match finding.status {
        DiscoveryStatus::Supported | DiscoveryStatus::PresentButUnsupported
        | DiscoveryStatus::ReportOnly => CapabilityState::ReadOnly,
        DiscoveryStatus::Unavailable => CapabilityState::Unsupported,
        DiscoveryStatus::PermissionDenied => CapabilityState::Denied,
        DiscoveryStatus::Indeterminate => CapabilityState::Indeterminate,
    };
    let risk = match finding.classification {
        FeatureClass::RuntimeMutable => RiskClass::Medium,
        FeatureClass::Conditional => RiskClass::Medium,
        FeatureClass::Experimental => RiskClass::Critical,
        FeatureClass::BootOnlyReportOnly => RiskClass::Low,
    };
    proof {
        reveal_strlit("linux.discovery");
    }
    let r = CapabilityDescriptor {
        id: finding.id.clone(),
        backend: crate::capability::backend_named(DISCOVERY_BACKEND),
        target_kind: kind,
        state,
        operations: Vec::new(),
        privilege: PrivilegeRequirement::ReadOnly,
        equality: EqualityKind::ByteExact,
        risk,
        classification: finding.classification,
        evidence: copied(&finding.evidence),
    };
    assert(r@.operations =~= Seq::empty());
    r
}

/// The words of a text, each once, in ascending order.
pub open spec fn tokens_spec(value: Seq<char>) -> Seq<Seq<char>> {
    text::text_set(text::words_spec(value))
}

/// The words of a text, each once, in ascending order.
pub fn parse_tokens(value: &str) -> (r: Vec<String>)
    ensures
        text::deep(r@) == tokens_spec(value@),
{
    let chars = text::chars_of(value);
    let words = text::words(chars.as_slice());
    let ghost all = text::words_spec(value@);
    let mut texts: Vec<String> = Vec::new();
    let mut i: usize = 0;
    while i < words.len()
        invariant
            i <= words@.len(),
            all == text::deep_chars(words@),
            all.len() == words@.len(),
            text::deep(texts@) == all.take(i as int),
        decreases words@.len() - i,
    {
        let ghost before = text::deep(texts@);
        let word = text::string_of(words[i].as_slice());
        assert(word@ == all[i as int]);
        texts.push(word);
        assert(text::deep(texts@) =~= before.push(all[i as int]));
        assert(all.take(i + 1) =~= all.take(i as int).push(all[i as int]));
        i = i + 1;
    }
    assert(all.take(i as int) =~= all);
    text::sorted_set(texts)
}

/// The words of what is there, or none.
pub open spec fn tokens_found(probe: Probe<Seq<char>>) -> Seq<Seq<char>> {
    match probe {
        Probe::Present(value) => tokens_spec(value),
        _ => Seq::empty(),
    }
}

/// The words of what is there, or none.
pub fn probe_tokens(probe: &Probe<String>) -> (r: Vec<String>)
    ensures
        text::deep(r@) == tokens_found(probe_text(*probe)),
{
    match probe {
        Probe::Present(value) => parse_tokens(value.as_str()),
        _ => {
            let r: Vec<String> = Vec::new();
            assert(text::deep(r@) =~= Seq::empty());
            r
        },
    }
}

/// Where the first colon or equals sign of a line stands, or its length.
pub open spec fn mark_at(line: Seq<char>) -> int {
    let colon = text::find_spec(line, ':');
    let equals = text::find_spec(line, '=');
    if colon <= equals {
        colon
    } else {
        equals
    }
}

/// The value of a line with a given key.
pub open spec fn value_in(line: Seq<char>, key: Seq<char>) -> Option<Seq<char>> {
    let i = mark_at(line);
    if i < line.len() && text::trim_spec(line.take(i)) == key {
        Some(text::trim_spec(line.skip(i + 1)))
    } else {
        None
    }
}

/// The value of the last line with a given key.
pub open spec fn keyed(lines: Seq<Seq<char>>, key: Seq<char>) -> Option<Seq<char>>
    decreases lines.len(),
{
    if lines.len() == 0 {
        None
    } else {
        match value_in(lines.last(), key) {
            Some(value) => Some(value),
            None => keyed(lines.drop_last(), key),
        }
    }
}

/// The value of a key in a text of lines with keys and values.
pub open spec fn key_value(value: Seq<char>, key: Seq<char>) -> Option<Seq<char>> {
    keyed(text::lines_spec(value), key)
}

/// The value of a key in a text of lines with keys and values; of several lines
/// with the key, the last counts.
pub fn value_for_key(value: &str, key: &str) -> (r: Option<String>)
    ensures
        text_option(r) == key_value(value@, key@),
{
    let chars = text::chars_of(value);
    let wanted = text::chars_of(key);
    let lines = text::lines(chars.as_slice());
    let ghost all = text::lines_spec(value@);
    let mut i: usize = lines.len();
    assert(all.take(all.len() as int) =~= all);
    while i > 0
        invariant
            i <= lines@.len(),
            wanted@ == key@,
            all == text::deep_chars(lines@),
            all == text::lines_spec(value@),
            all.len() == lines@.len(),
            keyed(all, key@) == keyed(all.take(i as int), key@),
        decreases i,
    {
        i = i - 1;
        let line = lines[i].as_slice();
        assert(all[i as int] == line@);
        assert(all.take(i + 1).drop_last() =~= all.take(i as int));
        assert(all.take(i + 1).last() == line@);
        let colon: usize = text::find(line, ':');
        let equals: usize = text::find(line, '=');
        let at: usize = if colon <= equals {
            colon
        } else {
            equals
        };
        if at < line.len() {
            let left = vstd::slice::slice_subrange(line, 0, at);
            assert(left@ =~= line@.take(at as int));
            let right = vstd::slice::slice_subrange(line, at + 1, line.len());
            assert(right@ =~= line@.skip(at + 1));
            if text::same_chars(text::trim(left), wanted.as_slice()) {
                return Some(text::string_of(text::trim(right)));
            }
        }
    }
    None
}

/// The value of the first line with a given key.
pub open spec fn first_keyed(lines: Seq<Seq<char>>, key: Seq<char>) -> Option<Seq<char>>
    decreases lines.len(),
{
    if lines.len() == 0 {
        None
    } else {
        match value_in(lines[0], key) {
            Some(value) => Some(value),
            None => first_keyed(lines.skip(1), key),
        }
    }
}

/// The value that a key has first in a text of lines with keys and values.
pub open spec fn first_key_value(value: Seq<char>, key: Seq<char>) -> Option<Seq<char>> {
    first_keyed(text::lines_spec(value), key)
}

/// The value of a key in a text of lines with keys and values; of several lines
/// with the key, the first counts.
pub fn first_value_for_key(value: &str, key: &str) -> (r: Option<String>)
    ensures
        text_option(r) == first_key_value(value@, key@),
{
    let chars = text::chars_of(value);
    let wanted = text::chars_of(key);
    let lines = text::lines(chars.as_slice());
    let ghost all = text::lines_spec(value@);
    let mut i: usize = 0;
    assert(all.skip(0) =~= all);
    while i < lines.len()
        invariant
            i <= lines@.len(),
            wanted@ == key@,
            all == text::deep_chars(lines@),
            all == text::lines_spec(value@),
            all.len() == lines@.len(),
            first_keyed(all, key@) == first_keyed(all.skip(i as int), key@),
        decreases lines@.len() - i,
    {
        let line = lines[i].as_slice();
        assert(all[i as int] == line@);
        assert(all.skip(i as int).skip(1) =~= all.skip(i + 1));
        assert(all.skip(i as int)[0] == line@);
        let colon: usize = text::find(line, ':');
        let equals: usize = text::find(line, '=');
        let at: usize = if colon <= equals {
            colon
        } else {
            equals
        };
        if at < line.len() {
            let left = vstd::slice::slice_subrange(line, 0, at);
            assert(left@ =~= line@.take(at as int));
            let right = vstd::slice::slice_subrange(line, at + 1, line.len());
            assert(right@ =~= line@.skip(at + 1));
            if text::same_chars(text::trim(left), wanted.as_slice()) {
                return Some(text::string_of(text::trim(right)));
            }
        }
        i = i + 1;
    }
    None
}

/// The first word of a text as a number.
pub open spec fn first_number(value: Seq<char>) -> Option<nat> {
    let words = text::words_spec(value);
    if words.len() > 0 {
        text::parse_spec(words[0], u64::MAX as nat)
    } else {
        None
    }
}

/// The number that a key has in a text of lines with keys and values.
pub open spec fn key_number(value: Seq<char>, key: Seq<char>) -> Option<nat> {
    match key_value(value, key) {
        Some(value) => first_number(value),
        None => None,
    }
}

pub open spec fn number_option(value: Option<u64>) -> Option<nat> {
    match value {
        Some(n) => Some(n as nat),
        None => None,
    }
}

/// The number that a key has in a text of lines with keys and values.
pub fn number_for_key(value: &str, key: &str) -> (r: Option<u64>)
    ensures
        number_option(r) == key_number(value@, key@),
{
    match value_for_key(value, key) {
        Some(found) => {
            let chars = text::chars_of(found.as_str());
            let words = text::words(chars.as_slice());
            assert(text::words_spec(found@).len() == words@.len());
            if words.len() > 0 {
                assert(text::words_spec(found@)[0] == words@[0]@);
                match text::parse_unsigned(words[0].as_slice(), u64::MAX as u128) {
                    Some(n) => Some(n as u64),
                    None => None,
                }
            } else {
                None
            }
        },
        None => None,
    }
}

/// The number of a directory whose name is a prefix and a number.
pub open spec fn numbered(entry: (Seq<char>, EntryKind), prefix: Seq<char>) -> Option<nat> {
    if entry.1 == EntryKind::Directory && text::starts_with_spec(entry.0, prefix) {
        text::parse_spec(entry.0.skip(prefix.len() as int), u32::MAX as nat)
    } else {
        None
    }
}

/// The numbers of the directories whose names are a prefix and a number, as they
/// stand there.
pub open spec fn numbers_in(entries: Seq<(Seq<char>, EntryKind)>, prefix: Seq<char>) -> Seq<u32>
    decreases entries.len(),
{
    if entries.len() == 0 {
        Seq::empty()
    } else {
        match numbered(entries.last(), prefix) {
            Some(n) => numbers_in(entries.drop_last(), prefix).push(n as u32),
            None => numbers_in(entries.drop_last(), prefix),
        }
    }
}

/// The numbers of the directories whose names are a prefix and a number, each
/// once, in ascending order.
pub open spec fn numeric_names(probe: Probe<Seq<(Seq<char>, EntryKind)>>, prefix: Seq<char>) -> Seq<
    u32,
> {
    match probe {
        Probe::Present(entries) => cpuset::canonical(numbers_in(entries, prefix)),
        _ => Seq::empty(),
    }
}

/// The numbers of the directories whose names are a prefix and a number, each
/// once, in ascending order.
pub fn sort_numeric_names(probe: &Probe<Vec<DirectoryEntry>>, prefix: &str) -> (r: Vec<u32>)
    ensures
        r@ == numeric_names(probe_entries(*probe), prefix@),
{
    let entries = match probe {
        Probe::Present(entries) => entries,
        _ => {
            let r: Vec<u32> = Vec::new();
            return r;
        },
    };
    let mark = text::chars_of(prefix);
    let ghost all = filesystem::entries_view(entries@);
    let mut found: Vec<u32> = Vec::new();
    let mut i: usize = 0;
    while i < entries.len()
        invariant
            i <= entries@.len(),
            mark@ == prefix@,
            all == filesystem::entries_view(entries@),
            all.len() == entries@.len(),
            found@ == numbers_in(all.take(i as int), prefix@),
        decreases entries@.len() - i,
    {
        let entry = &entries[i];
        proof {
            assert(all[i as int] == (entry.name@, entry.kind));
            assert(all.take(i + 1).drop_last() =~= all.take(i as int));
            assert(all.take(i + 1).last() == all[i as int]);
        }
        if entry.kind == EntryKind::Directory {
            let name = text::chars_of(entry.name.as_str());
            if text::starts_with(name.as_slice(), mark.as_slice()) {
                let rest = vstd::slice::slice_subrange(name.as_slice(), mark.len(), name.len());
                assert(rest@ =~= entry.name@.skip(prefix@.len() as int));
                if let Some(n) = text::parse_unsigned(rest, u32::MAX as u128) {
                    found.push(n as u32);
                }
            }
        }
        i = i + 1;
    }
    assert(all.take(i as int) =~= all);
    cpuset::sort_cpus(found.as_slice())
}

/// A refused read is reported as refused, a missing file as missing, and anything
/// else that went wrong as not to be told; only what was read is there.
pub proof fn failures_are_reported_as_what_they_are<T>(code: ErrorCode, present: DiscoveryStatus, value: T)
    ensures
        status_spec(Probe::Present(value), present) == present,
        status_spec(failure::<T>(ErrorCode::AuthorizationError), present)
            == DiscoveryStatus::PermissionDenied,
        status_spec(failure::<T>(ErrorCode::CapabilityError), present)
            == DiscoveryStatus::PermissionDenied,
        status_spec(failure::<T>(ErrorCode::TargetError), present) == DiscoveryStatus::Unavailable,
        status_spec(failure::<T>(ErrorCode::Unsupported), present) == DiscoveryStatus::Unavailable,
        code != ErrorCode::AuthorizationError && code != ErrorCode::CapabilityError && code
            != ErrorCode::TargetError && code != ErrorCode::Unsupported ==> status_spec(
            failure::<T>(code),
            present,
        ) == DiscoveryStatus::Indeterminate,
        !(failure::<T>(code) is Present),
{
}

/// What is refused outweighs everything, and what cannot be told everything but
/// that: neither is ever hidden behind something that is there. What is there is
/// reported only where something is, and the order of the parts does not matter.
pub proof fn refusals_are_not_hidden(
    parts: Seq<DiscoveryStatus>,
    others: Seq<DiscoveryStatus>,
    present: DiscoveryStatus,
)
    ensures
        parts.contains(DiscoveryStatus::PermissionDenied) ==> joint_status(parts, present)
            == DiscoveryStatus::PermissionDenied && combined_status(parts)
            == DiscoveryStatus::PermissionDenied,
        !parts.contains(DiscoveryStatus::PermissionDenied) && parts.contains(
            DiscoveryStatus::Indeterminate,
        ) ==> joint_status(parts, present) == DiscoveryStatus::Indeterminate && combined_status(
            parts,
        ) == DiscoveryStatus::Indeterminate,
        joint_status(parts, present) == DiscoveryStatus::Supported ==> parts.contains(
            DiscoveryStatus::Supported,
        ),
        combined_status(parts) == DiscoveryStatus::Supported ==> parts.contains(
            DiscoveryStatus::Supported,
        ),
        combined_status(parts) != DiscoveryStatus::Unavailable ==> parts.contains(
            combined_status(parts),
        ),
        (forall|s: DiscoveryStatus| parts.contains(s) <==> others.contains(s)) ==> joint_status(
            parts,
            present,
        ) == joint_status(others, present) && combined_status(parts) == combined_status(others),
{
}

} // verus!
