//! What a host says about its kernel, memory, scheduler and services.

use vstd::prelude::*;

use crate::capability::{CapabilityEvidence, EvidenceSource, FeatureClass};
use crate::discover_cpu;
use crate::facts::{
    EnvironmentFacts, EnvironmentView, MemoryFacts, MemoryView, SchedulerFacts, SchedulerView,
    SystemdFacts, SystemdView,
};
use crate::filesystem;
use crate::filesystem::{DirectoryEntry, EntryKind, ReadOnlyFileSystem};
use crate::matrix;
use crate::probe;
use crate::probe::{CapabilityFinding, DiscoveryStatus, FindingView, Probe};
use crate::text;

verus! {

/// A character with upper-case ASCII letters made lower-case.
pub open spec fn lower_char(c: char) -> char {
    if 'A' <= c <= 'Z' {
        (c as u32 + 32) as char
    } else {
        c
    }
}

/// A text with upper-case ASCII letters made lower-case.
pub open spec fn lower(s: Seq<char>) -> Seq<char> {
    s.map_values(|c: char| lower_char(c))
}

fn lower_of(c: char) -> (r: char)
    ensures
        r == lower_char(c),
{
    if 'A' <= c && c <= 'Z' {
        (c as u32 as u8 + 32) as char
    } else {
        c
    }
}

fn lower_text(value: &str) -> (r: Vec<char>)
    ensures
        r@ == lower(value@),
{
    let chars = text::chars_of(value);
    let mut r: Vec<char> = Vec::new();
    for i in 0..chars.len()
        invariant
            chars@ == value@,
            r@ == lower(value@).take(i as int),
    {
        let c = lower_of(chars[i]);
        r.push(c);
        assert(r@ =~= lower(value@).take(i + 1));
    }
    assert(lower(value@).take(chars@.len() as int) =~= lower(value@));
    r
}

/// What the control group of the first process says about containers: one line
/// for each marker that its text holds.
pub open spec fn marker_evidence(membership: Seq<char>, marker: Seq<char>) -> Seq<Seq<char>> {
    if text::contains_spec(lower(membership), marker) {
        seq!["procfs cgroup contains "@ + marker]
    } else {
        Seq::empty()
    }
}

/// The line that says that systemd is the first process.
pub open spec fn init_is_systemd() -> Seq<char> {
    "init process is systemd"@
}

/// What speaks for or against a container, before it is sorted.
pub open spec fn container_lines(membership: Seq<char>, init: Probe<Seq<char>>) -> Seq<Seq<char>> {
    marker_evidence(membership, "docker"@) + marker_evidence(membership, "kubepods"@)
        + marker_evidence(membership, "containerd"@) + marker_evidence(membership, "libpod"@)
        + marker_evidence(membership, "lxc"@) + marker_evidence(membership, "podman"@) + if init
        == Probe::Present("systemd"@) {
        seq![init_is_systemd()]
    } else {
        Seq::empty()
    }
}

fn push_marker(lines: &mut Vec<String>, membership: &[char], marker: &str, Ghost(whole): Ghost<
    Seq<char>,
>)
    requires
        membership@ == lower(whole),
    ensures
        text::deep(final(lines)@) == text::deep(old(lines)@) + marker_evidence(whole, marker@),
{
    let ghost before = text::deep(lines@);
    let mark = text::chars_of(marker);
    if text::contains(membership, mark.as_slice()) {
        lines.push(text::join("procfs cgroup contains ", marker));
    }
    assert(text::deep(lines@) =~= before + marker_evidence(whole, marker@));
}

/// How many lines begin, behind white space, with a word.
pub open spec fn lines_beginning(lines: Seq<Seq<char>>, word: Seq<char>) -> nat
    decreases lines.len(),
{
    if lines.len() == 0 {
        0
    } else {
        lines_beginning(lines.drop_last(), word) + if text::starts_with_spec(
            text::trim_start(lines.last()),
            word,
        ) {
            1nat
        } else {
            0nat
        }
    }
}

fn without_leading_space(s: &[char]) -> (r: &[char])
    ensures
        r@ == text::trim_start(s@),
{
    let mut start: usize = 0;
    assert(s@.skip(0) =~= s@);
    while start < s.len() && text::space(s[start])
        invariant
            start <= s.len(),
            text::trim_start(s@) == text::trim_start(s@.skip(start as int)),
        ensures
            start <= s.len(),
            text::trim_start(s@) == s@.skip(start as int),
        decreases s.len() - start,
    {
        assert(s@.skip(start as int).skip(1) =~= s@.skip(start + 1));
        start = start + 1;
    }
    let r = vstd::slice::slice_subrange(s, start, s.len());
    assert(r@ =~= s@.skip(start as int));
    r
}

fn count_lines_beginning(value: &str, word: &str) -> (r: usize)
    ensures
        r == lines_beginning(text::lines_spec(value@), word@),
{
    let chars = text::chars_of(value);
    let mark = text::chars_of(word);
    let lines = text::lines(chars.as_slice());
    let ghost all = text::lines_spec(value@);
    let mut count: usize = 0;
    let mut i: usize = 0;
    while i < lines.len()
        invariant
            i <= lines@.len(),
            mark@ == word@,
            all == text::deep_chars(lines@),
            all.len() == lines@.len(),
            count == lines_beginning(all.take(i as int), word@),
            count <= i,
        decreases lines@.len() - i,
    {
        assert(all[i as int] == lines@[i as int]@);
        assert(all.take(i + 1).drop_last() =~= all.take(i as int));
        assert(all.take(i + 1).last() == all[i as int]);
        if text::starts_with(without_leading_space(lines[i].as_slice()), mark.as_slice()) {
            count = count + 1;
        }
        i = i + 1;
    }
    assert(all.take(i as int) =~= all);
    count
}

/// A value of the first of two keys, or else of the second.
pub open spec fn either_key(value: Seq<char>, first: Seq<char>, second: Seq<char>) -> Option<
    Seq<char>,
> {
    match probe::first_key_value(value, first) {
        Some(found) => Some(found),
        None => probe::first_key_value(value, second),
    }
}

fn value_for_either(value: &str, first: &str, second: &str) -> (r: Option<String>)
    ensures
        probe::text_option(r) == either_key(value@, first@, second@),
{
    match probe::first_value_for_key(value, first) {
        Some(found) => Some(found),
        None => probe::first_value_for_key(value, second),
    }
}

/// What was read about the kernel and what runs on it.
#[derive(Debug)]
pub struct EnvironmentReadings {
    pub release: Probe<String>,
    pub version: Probe<String>,
    pub cpuinfo: Probe<String>,
    pub init: Probe<String>,
    pub membership: Probe<String>,
}

/// What was read about the kernel, as plain values.
#[verifier::ext_equal]
pub struct EnvironmentReadingsView {
    pub release: Probe<Seq<char>>,
    pub version: Probe<Seq<char>>,
    pub cpuinfo: Probe<Seq<char>>,
    pub init: Probe<Seq<char>>,
    pub membership: Probe<Seq<char>>,
}

impl View for EnvironmentReadings {
    type V = EnvironmentReadingsView;

    open spec fn view(&self) -> EnvironmentReadingsView {
        EnvironmentReadingsView {
            release: probe::probe_text(self.release),
            version: probe::probe_text(self.version),
            cpuinfo: probe::probe_text(self.cpuinfo),
            init: probe::probe_text(self.init),
            membership: probe::probe_text(self.membership),
        }
    }
}

/// What a host says about its kernel.
pub open spec fn environment_at<F: ReadOnlyFileSystem>(tree: &F) -> EnvironmentReadingsView {
    EnvironmentReadingsView {
        release: probe::text_at(tree, "sys/kernel/osrelease"@),
        version: probe::text_at(tree, "sys/kernel/version"@),
        cpuinfo: probe::text_at(tree, "cpuinfo"@),
        init: probe::text_at(tree, "1/comm"@),
        membership: probe::text_at(tree, "1/cgroup"@),
    }
}

/// Whether reading about the kernel finds this: every file is read once.
pub open spec fn reads_environment<F: ReadOnlyFileSystem>(tree: &F, seen: EnvironmentReadingsView) -> bool {
    &&& probe::reads_text(tree, "sys/kernel/osrelease"@, seen.release)
    &&& probe::reads_text(tree, "sys/kernel/version"@, seen.version)
    &&& probe::reads_text(tree, "cpuinfo"@, seen.cpuinfo)
    &&& probe::reads_text(tree, "1/comm"@, seen.init)
    &&& probe::reads_text(tree, "1/cgroup"@, seen.membership)
}

/// The facts about the kernel and what runs on it.
pub open spec fn environment_facts_spec(r: EnvironmentReadingsView) -> EnvironmentView {
    let cpuinfo = probe::text_or_empty(r.cpuinfo);
    let lines = text::text_set(container_lines(probe::text_or_empty(r.membership), r.init));
    EnvironmentView {
        kernel_release: probe::value_of(r.release),
        kernel_version: probe::value_of(r.version),
        architecture: probe::key_value(cpuinfo, "Architecture"@),
        cpu_vendor: either_key(cpuinfo, "vendor_id"@, "CPU implementer"@),
        cpu_model: either_key(cpuinfo, "model name"@, "Model"@),
        cpu_count: lines_beginning(text::lines_spec(cpuinfo), "processor"@) as usize,
        init_name: probe::value_of(r.init),
        container_hint: lines.len() > 0 && !lines.contains(init_is_systemd()),
        container_evidence: lines,
    }
}

/// The evidence about the kernel and what runs on it.
pub open spec fn environment_evidence(r: EnvironmentReadingsView) -> Seq<
    (EvidenceSource, Seq<char>),
> {
    seq![
        discover_cpu::seen(r.release, EvidenceSource::Procfs, "procfs kernel release"@),
        discover_cpu::seen(r.version, EvidenceSource::Procfs, "procfs kernel version"@),
        discover_cpu::seen(r.cpuinfo, EvidenceSource::Procfs, "procfs CPU information"@),
        discover_cpu::seen(r.init, EvidenceSource::Procfs, "procfs init process"@),
        discover_cpu::seen(r.membership, EvidenceSource::Procfs, "procfs cgroup membership"@),
    ]
}

fn contains_line(lines: &Vec<String>, line: &str) -> (r: bool)
    ensures
        r == text::deep(lines@).contains(line@),
{
    let ghost all = text::deep(lines@);
    let mut i: usize = 0;
    while i < lines.len()
        invariant
            i <= lines@.len(),
            all == text::deep(lines@),
            forall|j: int| 0 <= j < i ==> #[trigger] all[j] != line@,
        decreases lines@.len() - i,
    {
        assert(all[i as int] == lines@[i as int]@);
        if text::same(lines[i].as_str(), line) {
            assert(all[i as int] == line@);
            return true;
        }
        i = i + 1;
    }
    false
}

/// The facts about the kernel and what runs on it, with their evidence.
pub fn environment_report(r: &EnvironmentReadings) -> (report: (
    EnvironmentFacts,
    Vec<CapabilityEvidence>,
))
    ensures
        report.0@ == environment_facts_spec(r@),
        crate::capability::evidence_view(report.1@) == environment_evidence(r@),
{
    let cpuinfo = probe::text_or_nothing(&r.cpuinfo);
    let membership = probe::text_or_nothing(&r.membership);
    let lowered = lower_text(membership.as_str());
    let mut lines: Vec<String> = Vec::new();
    assert(text::deep(lines@) =~= Seq::empty());
    push_marker(&mut lines, lowered.as_slice(), "docker", Ghost(membership@));
    push_marker(&mut lines, lowered.as_slice(), "kubepods", Ghost(membership@));
    push_marker(&mut lines, lowered.as_slice(), "containerd", Ghost(membership@));
    push_marker(&mut lines, lowered.as_slice(), "libpod", Ghost(membership@));
    push_marker(&mut lines, lowered.as_slice(), "lxc", Ghost(membership@));
    push_marker(&mut lines, lowered.as_slice(), "podman", Ghost(membership@));
    if let Probe::Present(name) = &r.init {
        if text::same(name.as_str(), "systemd") {
            lines.push("init process is systemd".to_string());
        }
    }
    proof {
        assert(text::deep(lines@) =~= container_lines(membership@, r@.init));
    }
    let container_evidence = text::sorted_set(lines);
    let systemd = contains_line(&container_evidence, "init process is systemd");
    assert(text::deep(container_evidence@).len() == container_evidence@.len());
    let facts = EnvironmentFacts {
        kernel_release: probe::text_value(&r.release),
        kernel_version: probe::text_value(&r.version),
        architecture: probe::value_for_key(cpuinfo.as_str(), "Architecture"),
        cpu_vendor: value_for_either(cpuinfo.as_str(), "vendor_id", "CPU implementer"),
        cpu_model: value_for_either(cpuinfo.as_str(), "model name", "Model"),
        cpu_count: count_lines_beginning(cpuinfo.as_str(), "processor"),
        init_name: probe::text_value(&r.init),
        container_hint: container_evidence.len() > 0 && !systemd,
        container_evidence,
    };
    let mut evidence: Vec<CapabilityEvidence> = Vec::new();
    evidence.push(
        probe::probe_evidence(&r.release, EvidenceSource::Procfs, "procfs kernel release"),
    );
    evidence.push(
        probe::probe_evidence(&r.version, EvidenceSource::Procfs, "procfs kernel version"),
    );
    evidence.push(
        probe::probe_evidence(&r.cpuinfo, EvidenceSource::Procfs, "procfs CPU information"),
    );
    evidence.push(probe::probe_evidence(&r.init, EvidenceSource::Procfs, "procfs init process"));
    evidence.push(
        probe::probe_evidence(&r.membership, EvidenceSource::Procfs, "procfs cgroup membership"),
    );
    proof {
        discover_cpu::lemma_text_words(r.release);
        discover_cpu::lemma_text_words(r.version);
        discover_cpu::lemma_text_words(r.cpuinfo);
        discover_cpu::lemma_text_words(r.init);
        discover_cpu::lemma_text_words(r.membership);
        assert(crate::capability::evidence_view(evidence@) =~= environment_evidence(r@));
    }
    (facts, evidence)
}

/// Reads about the kernel and what runs on it.
pub fn read_environment<F: ReadOnlyFileSystem>(tree: &F) -> (r: EnvironmentReadings)
    ensures
        reads_environment(tree, r@),
        tree.settled() ==> r@ == environment_at(tree),
{
    EnvironmentReadings {
        release: probe::read_text(tree, "sys/kernel/osrelease"),
        version: probe::read_text(tree, "sys/kernel/version"),
        cpuinfo: probe::read_text(tree, "cpuinfo"),
        init: probe::read_text(tree, "1/comm"),
        membership: probe::read_text(tree, "1/cgroup"),
    }
}

/// The row of the capability matrix about the kernel.
pub open spec fn environment_finding_spec(r: EnvironmentReadingsView) -> FindingView {
    FindingView {
        id: matrix::KERNEL_ENVIRONMENT@,
        target: None,
        status: probe::status_spec(r.release, DiscoveryStatus::ReportOnly),
        classification: FeatureClass::BootOnlyReportOnly,
        evidence: environment_evidence(r),
        attributes: Seq::empty(),
    }
}

/// Finds out about the kernel and what runs on it.
pub fn detect_environment<F: ReadOnlyFileSystem>(procfs: &F) -> (report: (
    EnvironmentFacts,
    CapabilityFinding,
))
    ensures
        exists|seen: EnvironmentReadingsView| #[trigger]
            reads_environment(procfs, seen) && report.0@ == environment_facts_spec(seen)
                && report.1@ == environment_finding_spec(seen),
        procfs.settled() ==> report.0@ == environment_facts_spec(environment_at(procfs))
            && report.1@ == environment_finding_spec(environment_at(procfs)),
{
    let readings = read_environment(procfs);
    let (facts, evidence) = environment_report(&readings);
    proof {
        matrix::names_are_not_empty();
        discover_cpu::lemma_text_words(readings.release);
    }
    let row = probe::finding(
        matrix::KERNEL_ENVIRONMENT,
        None,
        probe::status(&readings.release, DiscoveryStatus::ReportOnly),
        FeatureClass::BootOnlyReportOnly,
        evidence,
        discover_cpu::no_attributes(),
    );
    assert(row@ =~= environment_finding_spec(readings@));
    (facts, row)
}

/// What was read about memory.
#[derive(Debug)]
pub struct MemoryReadings {
    pub thp_enabled: Probe<String>,
    pub thp_defrag: Probe<String>,
    pub meminfo: Probe<String>,
    pub swaps: Probe<String>,
    pub blocks: Probe<Vec<DirectoryEntry>>,
    pub zswap_enabled: Probe<String>,
    pub zswap_compressor: Probe<String>,
    pub zswap_zpool: Probe<String>,
}

/// What was read about memory, as plain values.
#[verifier::ext_equal]
pub struct MemoryReadingsView {
    pub thp_enabled: Probe<Seq<char>>,
    pub thp_defrag: Probe<Seq<char>>,
    pub meminfo: Probe<Seq<char>>,
    pub swaps: Probe<Seq<char>>,
    pub blocks: Probe<Seq<(Seq<char>, EntryKind)>>,
    pub zswap_enabled: Probe<Seq<char>>,
    pub zswap_compressor: Probe<Seq<char>>,
    pub zswap_zpool: Probe<Seq<char>>,
}

impl View for MemoryReadings {
    type V = MemoryReadingsView;

    open spec fn view(&self) -> MemoryReadingsView {
        MemoryReadingsView {
            thp_enabled: probe::probe_text(self.thp_enabled),
            thp_defrag: probe::probe_text(self.thp_defrag),
            meminfo: probe::probe_text(self.meminfo),
            swaps: probe::probe_text(self.swaps),
            blocks: probe::probe_entries(self.blocks),
            zswap_enabled: probe::probe_text(self.zswap_enabled),
            zswap_compressor: probe::probe_text(self.zswap_compressor),
            zswap_zpool: probe::probe_text(self.zswap_zpool),
        }
    }
}

/// What a host says about memory.
pub open spec fn memory_at<S: ReadOnlyFileSystem, P: ReadOnlyFileSystem>(sysfs: &S, procfs: &P)
    -> MemoryReadingsView {
    MemoryReadingsView {
        thp_enabled: probe::text_at(sysfs, "kernel/mm/transparent_hugepage/enabled"@),
        thp_defrag: probe::text_at(sysfs, "kernel/mm/transparent_hugepage/defrag"@),
        meminfo: probe::text_at(procfs, "meminfo"@),
        swaps: probe::text_at(procfs, "swaps"@),
        blocks: probe::entries_at(sysfs, "class/block"@),
        zswap_enabled: probe::text_at(sysfs, "module/zswap/parameters/enabled"@),
        zswap_compressor: probe::text_at(sysfs, "module/zswap/parameters/compressor"@),
        zswap_zpool: probe::text_at(sysfs, "module/zswap/parameters/zpool"@),
    }
}

/// Whether reading about memory finds this: every file is read once.
pub open spec fn reads_memory<S: ReadOnlyFileSystem, P: ReadOnlyFileSystem>(
    sysfs: &S,
    procfs: &P,
    seen: MemoryReadingsView,
) -> bool {
    &&& probe::reads_text(sysfs, "kernel/mm/transparent_hugepage/enabled"@, seen.thp_enabled)
    &&& probe::reads_text(sysfs, "kernel/mm/transparent_hugepage/defrag"@, seen.thp_defrag)
    &&& probe::reads_text(procfs, "meminfo"@, seen.meminfo)
    &&& probe::reads_text(procfs, "swaps"@, seen.swaps)
    &&& probe::reads_entries(sysfs, "class/block"@, seen.blocks)
    &&& probe::reads_text(sysfs, "module/zswap/parameters/enabled"@, seen.zswap_enabled)
    &&& probe::reads_text(sysfs, "module/zswap/parameters/compressor"@, seen.zswap_compressor)
    &&& probe::reads_text(sysfs, "module/zswap/parameters/zpool"@, seen.zswap_zpool)
}

/// Reads about memory.
pub fn read_memory<S: ReadOnlyFileSystem, P: ReadOnlyFileSystem>(sysfs: &S, procfs: &P) -> (r:
    MemoryReadings)
    ensures
        reads_memory(sysfs, procfs, r@),
        sysfs.settled() && procfs.settled() ==> r@ == memory_at(sysfs, procfs),
{
    MemoryReadings {
        thp_enabled: probe::read_text(sysfs, "kernel/mm/transparent_hugepage/enabled"),
        thp_defrag: probe::read_text(sysfs, "kernel/mm/transparent_hugepage/defrag"),
        meminfo: probe::read_text(procfs, "meminfo"),
        swaps: probe::read_text(procfs, "swaps"),
        blocks: probe::list(sysfs, "class/block"),
        zswap_enabled: probe::read_text(sysfs, "module/zswap/parameters/enabled"),
        zswap_compressor: probe::read_text(sysfs, "module/zswap/parameters/compressor"),
        zswap_zpool: probe::read_text(sysfs, "module/zswap/parameters/zpool"),
    }
}

/// The names of the directories that begin with a prefix, as they stand there.
pub open spec fn directories_named(entries: Seq<(Seq<char>, EntryKind)>, prefix: Seq<char>) -> Seq<
    Seq<char>,
>
    decreases entries.len(),
{
    if entries.len() == 0 {
        Seq::empty()
    } else {
        let before = directories_named(entries.drop_last(), prefix);
        if entries.last().1 == EntryKind::Directory && text::starts_with_spec(
            entries.last().0,
            prefix,
        ) {
            before.push(entries.last().0)
        } else {
            before
        }
    }
}

/// The names of the directories that are there and begin with a prefix.
pub open spec fn directories_found(
    probe: Probe<Seq<(Seq<char>, EntryKind)>>,
    prefix: Seq<char>,
) -> Seq<Seq<char>> {
    match probe {
        Probe::Present(entries) => directories_named(entries, prefix),
        _ => Seq::empty(),
    }
}

fn directory_names(probe: &Probe<Vec<DirectoryEntry>>, prefix: &str) -> (r: Vec<String>)
    ensures
        text::deep(r@) == directories_found(probe::probe_entries(*probe), prefix@),
{
    let mut r: Vec<String> = Vec::new();
    assert(text::deep(r@) =~= Seq::empty());
    let entries = match probe {
        Probe::Present(entries) => entries,
        _ => {
            return r;
        },
    };
    let mark = text::chars_of(prefix);
    let ghost all = filesystem::entries_view(entries@);
    let mut i: usize = 0;
    while i < entries.len()
        invariant
            i <= entries@.len(),
            mark@ == prefix@,
            all == filesystem::entries_view(entries@),
            all.len() == entries@.len(),
            text::deep(r@) == directories_named(all.take(i as int), prefix@),
        decreases entries@.len() - i,
    {
        let entry = &entries[i];
        let ghost before = text::deep(r@);
        proof {
            assert(all[i as int] == (entry.name@, entry.kind));
            assert(all.take(i + 1).drop_last() =~= all.take(i as int));
            assert(all.take(i + 1).last() == all[i as int]);
        }
        if entry.kind == EntryKind::Directory {
            let name = text::chars_of(entry.name.as_str());
            if text::starts_with(name.as_slice(), mark.as_slice()) {
                r.push(entry.name.clone());
                assert(text::deep(r@) =~= before.push(entry.name@));
            }
        }
        i = i + 1;
    }
    assert(all.take(i as int) =~= all);
    r
}

/// How many lines hold more than white space.
pub open spec fn filled_lines(lines: Seq<Seq<char>>) -> nat
    decreases lines.len(),
{
    if lines.len() == 0 {
        0
    } else {
        filled_lines(lines.drop_last()) + if text::trim_spec(lines.last()).len() > 0 {
            1nat
        } else {
            0nat
        }
    }
}

/// How many lines behind the first hold more than white space.
pub open spec fn rows_below_heading(value: Seq<char>) -> nat {
    let lines = text::lines_spec(value);
    if lines.len() == 0 {
        0
    } else {
        filled_lines(lines.skip(1))
    }
}

fn count_rows(value: &str) -> (r: usize)
    ensures
        r == rows_below_heading(value@),
{
    let chars = text::chars_of(value);
    let lines = text::lines(chars.as_slice());
    let ghost all = text::lines_spec(value@);
    assert(all.len() == lines@.len());
    if lines.len() == 0 {
        return 0;
    }
    let ghost rest = all.skip(1);
    let mut count: usize = 0;
    let mut i: usize = 1;
    assert(rest.take(0) =~= Seq::empty());
    while i < lines.len()
        invariant
            1 <= i <= lines@.len(),
            all == text::deep_chars(lines@),
            all.len() == lines@.len(),
            rest == all.skip(1),
            count == filled_lines(rest.take(i - 1)),
            count <= i,
        decreases lines@.len() - i,
    {
        assert(rest[i - 1] == lines@[i as int]@);
        assert(rest.take(i as int).drop_last() =~= rest.take(i - 1));
        assert(rest.take(i as int).last() == rest[i - 1]);
        if text::trim(lines[i].as_slice()).len() > 0 {
            count = count + 1;
        }
        i = i + 1;
    }
    assert(rest.take(i - 1) =~= rest);
    count
}

/// The facts about memory.
pub open spec fn memory_facts_spec(r: MemoryReadingsView) -> MemoryView {
    let meminfo = probe::text_or_empty(r.meminfo);
    MemoryView {
        thp_enabled: probe::value_of(r.thp_enabled),
        thp_defrag: probe::value_of(r.thp_defrag),
        swap_total_kb: probe::key_number(meminfo, "SwapTotal"@),
        swap_free_kb: probe::key_number(meminfo, "SwapFree"@),
        active_swap_entries: rows_below_heading(probe::text_or_empty(r.swaps)) as usize,
        zram_devices: directories_found(r.blocks, "zram"@),
        zswap_enabled: probe::value_of(r.zswap_enabled),
        zswap_compressor: probe::value_of(r.zswap_compressor),
        zswap_zpool: probe::value_of(r.zswap_zpool),
    }
}

/// The rows of the capability matrix about memory.
pub open spec fn memory_findings_spec(r: MemoryReadingsView) -> Seq<FindingView> {
    seq![
        FindingView {
            id: matrix::THP@,
            target: None,
            status: probe::joint_status(
                seq![
                    probe::status_spec(r.thp_enabled, DiscoveryStatus::ReportOnly),
                    probe::status_spec(r.thp_defrag, DiscoveryStatus::ReportOnly),
                ],
                DiscoveryStatus::ReportOnly,
            ),
            classification: FeatureClass::Conditional,
            evidence: seq![
                discover_cpu::seen(r.thp_enabled, EvidenceSource::Sysfs, "THP enabled mode"@),
                discover_cpu::seen(r.thp_defrag, EvidenceSource::Sysfs, "THP defrag mode"@),
            ],
            attributes: Seq::empty(),
        },
        FindingView {
            id: matrix::SWAP@,
            target: None,
            status: probe::status_spec(r.meminfo, DiscoveryStatus::ReportOnly),
            classification: FeatureClass::BootOnlyReportOnly,
            evidence: seq![
                discover_cpu::seen(r.meminfo, EvidenceSource::Procfs, "procfs memory information"@),
                discover_cpu::seen(r.swaps, EvidenceSource::Procfs, "procfs swap table"@),
            ],
            attributes: Seq::empty(),
        },
        FindingView {
            id: matrix::ZRAM@,
            target: None,
            status: probe::status_spec(r.blocks, DiscoveryStatus::ReportOnly),
            classification: FeatureClass::Conditional,
            evidence: seq![
                discover_cpu::seen(r.blocks, EvidenceSource::Sysfs, "zram block devices"@),
            ],
            attributes: Seq::empty(),
        },
        FindingView {
            id: matrix::ZSWAP@,
            target: None,
            status: probe::joint_status(
                seq![
                    probe::status_spec(r.zswap_enabled, DiscoveryStatus::ReportOnly),
                    probe::status_spec(r.zswap_compressor, DiscoveryStatus::ReportOnly),
                    probe::status_spec(r.zswap_zpool, DiscoveryStatus::ReportOnly),
                ],
                DiscoveryStatus::ReportOnly,
            ),
            classification: FeatureClass::Conditional,
            evidence: seq![
                discover_cpu::seen(r.zswap_enabled, EvidenceSource::Sysfs, "zswap enabled"@),
                discover_cpu::seen(r.zswap_compressor, EvidenceSource::Sysfs, "zswap compressor"@),
                discover_cpu::seen(r.zswap_zpool, EvidenceSource::Sysfs, "zswap pool"@),
            ],
            attributes: Seq::empty(),
        },
    ]
}

/// The facts about memory, and the rows of the capability matrix.
pub fn memory_report(r: &MemoryReadings) -> (report: (MemoryFacts, Vec<CapabilityFinding>))
    ensures
        report.0@ == memory_facts_spec(r@),
        probe::findings_view(report.1@) == memory_findings_spec(r@),
{
    proof {
        matrix::names_are_not_empty();
        discover_cpu::lemma_text_words(r.thp_enabled);
        discover_cpu::lemma_text_words(r.thp_defrag);
        discover_cpu::lemma_text_words(r.meminfo);
        discover_cpu::lemma_text_words(r.swaps);
        discover_cpu::lemma_text_words(r.zswap_enabled);
        discover_cpu::lemma_text_words(r.zswap_compressor);
        discover_cpu::lemma_text_words(r.zswap_zpool);
    }
    let meminfo = probe::text_or_nothing(&r.meminfo);
    let swaps = probe::text_or_nothing(&r.swaps);
    let facts = MemoryFacts {
        thp_enabled: probe::text_value(&r.thp_enabled),
        thp_defrag: probe::text_value(&r.thp_defrag),
        swap_total_kb: probe::number_for_key(meminfo.as_str(), "SwapTotal"),
        swap_free_kb: probe::number_for_key(meminfo.as_str(), "SwapFree"),
        active_swap_entries: count_rows(swaps.as_str()),
        zram_devices: directory_names(&r.blocks, "zram"),
        zswap_enabled: probe::text_value(&r.zswap_enabled),
        zswap_compressor: probe::text_value(&r.zswap_compressor),
        zswap_zpool: probe::text_value(&r.zswap_zpool),
    };
    let ghost expected = memory_findings_spec(r@);
    let thp_statuses = [
        probe::status(&r.thp_enabled, DiscoveryStatus::ReportOnly),
        probe::status(&r.thp_defrag, DiscoveryStatus::ReportOnly),
    ];
    let zswap_statuses = [
        probe::status(&r.zswap_enabled, DiscoveryStatus::ReportOnly),
        probe::status(&r.zswap_compressor, DiscoveryStatus::ReportOnly),
        probe::status(&r.zswap_zpool, DiscoveryStatus::ReportOnly),
    ];
    proof {
        assert(thp_statuses@ =~= seq![
            probe::status_spec(r@.thp_enabled, DiscoveryStatus::ReportOnly),
            probe::status_spec(r@.thp_defrag, DiscoveryStatus::ReportOnly),
        ]);
        assert(zswap_statuses@ =~= seq![
            probe::status_spec(r@.zswap_enabled, DiscoveryStatus::ReportOnly),
            probe::status_spec(r@.zswap_compressor, DiscoveryStatus::ReportOnly),
            probe::status_spec(r@.zswap_zpool, DiscoveryStatus::ReportOnly),
        ]);
    }
    let thp = probe::finding(
        matrix::THP,
        None,
        probe::status_for(&thp_statuses, DiscoveryStatus::ReportOnly),
        FeatureClass::Conditional,
        probe::two(
            probe::probe_evidence(&r.thp_enabled, EvidenceSource::Sysfs, "THP enabled mode"),
            probe::probe_evidence(&r.thp_defrag, EvidenceSource::Sysfs, "THP defrag mode"),
        ),
        discover_cpu::no_attributes(),
    );
    let swap = probe::finding(
        matrix::SWAP,
        None,
        probe::status(&r.meminfo, DiscoveryStatus::ReportOnly),
        FeatureClass::BootOnlyReportOnly,
        probe::two(
            probe::probe_evidence(&r.meminfo, EvidenceSource::Procfs, "procfs memory information"),
            probe::probe_evidence(&r.swaps, EvidenceSource::Procfs, "procfs swap table"),
        ),
        discover_cpu::no_attributes(),
    );
    let zram = probe::finding(
        matrix::ZRAM,
        None,
        probe::status(&r.blocks, DiscoveryStatus::ReportOnly),
        FeatureClass::Conditional,
        probe::one(probe::probe_evidence(&r.blocks, EvidenceSource::Sysfs, "zram block devices")),
        discover_cpu::no_attributes(),
    );
    let zswap = probe::finding(
        matrix::ZSWAP,
        None,
        probe::status_for(&zswap_statuses, DiscoveryStatus::ReportOnly),
        FeatureClass::Conditional,
        probe::three(
            probe::probe_evidence(&r.zswap_enabled, EvidenceSource::Sysfs, "zswap enabled"),
            probe::probe_evidence(&r.zswap_compressor, EvidenceSource::Sysfs, "zswap compressor"),
            probe::probe_evidence(&r.zswap_zpool, EvidenceSource::Sysfs, "zswap pool"),
        ),
        discover_cpu::no_attributes(),
    );
    proof {
        assert(thp@ =~= expected[0]);
        assert(swap@ =~= expected[1]);
        assert(zram@ =~= expected[2]);
        assert(zswap@ =~= expected[3]);
    }
    let mut findings: Vec<CapabilityFinding> = Vec::new();
    findings.push(thp);
    findings.push(swap);
    findings.push(zram);
    findings.push(zswap);
    assert(probe::findings_view(findings@) =~= expected);
    (facts, findings)
}

/// Finds out about memory.
pub fn detect_memory<S: ReadOnlyFileSystem, P: ReadOnlyFileSystem>(sysfs: &S, procfs: &P) -> (report:
    (MemoryFacts, Vec<CapabilityFinding>))
    ensures
        exists|seen: MemoryReadingsView| #[trigger]
            reads_memory(sysfs, procfs, seen) && report.0@ == memory_facts_spec(seen)
                && probe::findings_view(report.1@) == memory_findings_spec(seen),
        sysfs.settled() && procfs.settled() ==> report.0@ == memory_facts_spec(
            memory_at(sysfs, procfs),
        ) && probe::findings_view(report.1@) == memory_findings_spec(memory_at(sysfs, procfs)),
{
    let readings = read_memory(sysfs, procfs);
    memory_report(&readings)
}

/// What was read about the scheduler.
#[derive(Debug)]
pub struct SchedulerReadings {
    pub uclamp_min: Probe<String>,
    pub uclamp_max: Probe<String>,
    pub numa_balancing: Probe<String>,
    pub energy_aware: Probe<String>,
    pub pressure: Probe<String>,
}

/// What was read about the scheduler, as plain values.
#[verifier::ext_equal]
pub struct SchedulerReadingsView {
    pub uclamp_min: Probe<Seq<char>>,
    pub uclamp_max: Probe<Seq<char>>,
    pub numa_balancing: Probe<Seq<char>>,
    pub energy_aware: Probe<Seq<char>>,
    pub pressure: Probe<Seq<char>>,
}

impl View for SchedulerReadings {
    type V = SchedulerReadingsView;

    open spec fn view(&self) -> SchedulerReadingsView {
        SchedulerReadingsView {
            uclamp_min: probe::probe_text(self.uclamp_min),
            uclamp_max: probe::probe_text(self.uclamp_max),
            numa_balancing: probe::probe_text(self.numa_balancing),
            energy_aware: probe::probe_text(self.energy_aware),
            pressure: probe::probe_text(self.pressure),
        }
    }
}

/// What a host says about its scheduler.
pub open spec fn scheduler_at<F: ReadOnlyFileSystem>(tree: &F) -> SchedulerReadingsView {
    SchedulerReadingsView {
        uclamp_min: probe::text_at(tree, "sys/kernel/sched_util_clamp_min"@),
        uclamp_max: probe::text_at(tree, "sys/kernel/sched_util_clamp_max"@),
        numa_balancing: probe::text_at(tree, "sys/kernel/numa_balancing"@),
        energy_aware: probe::text_at(tree, "sys/kernel/sched_energy_aware"@),
        pressure: probe::text_at(tree, "pressure/cpu"@),
    }
}

/// Whether reading about the scheduler finds this: every file is read once.
pub open spec fn reads_scheduler<F: ReadOnlyFileSystem>(tree: &F, seen: SchedulerReadingsView) -> bool {
    &&& probe::reads_text(tree, "sys/kernel/sched_util_clamp_min"@, seen.uclamp_min)
    &&& probe::reads_text(tree, "sys/kernel/sched_util_clamp_max"@, seen.uclamp_max)
    &&& probe::reads_text(tree, "sys/kernel/numa_balancing"@, seen.numa_balancing)
    &&& probe::reads_text(tree, "sys/kernel/sched_energy_aware"@, seen.energy_aware)
    &&& probe::reads_text(tree, "pressure/cpu"@, seen.pressure)
}

/// A name, if what it names is there.
pub open spec fn present<T>(probe: Probe<T>, name: Seq<char>) -> Seq<Seq<char>> {
    match probe {
        Probe::Present(_) => seq![name],
        _ => Seq::empty(),
    }
}

fn push_present(names: &mut Vec<String>, probe: &Probe<String>, name: &str)
    ensures
        text::deep(final(names)@) == text::deep(old(names)@) + present(
            probe::probe_text(*probe),
            name@,
        ),
{
    let ghost before = text::deep(names@);
    if let Probe::Present(_) = probe {
        names.push(name.to_string());
    }
    assert(text::deep(names@) =~= before + present(probe::probe_text(*probe), name@));
}

/// The facts about the scheduler.
pub open spec fn scheduler_facts_spec(r: SchedulerReadingsView) -> SchedulerView {
    SchedulerView {
        facilities: present(r.uclamp_min, "sched_util_clamp_min"@) + present(
            r.uclamp_max,
            "sched_util_clamp_max"@,
        ) + present(r.numa_balancing, "numa_balancing"@) + present(
            r.energy_aware,
            "sched_energy_aware"@,
        ) + present(r.pressure, "cpu_pressure"@),
        cpu_pressure: r.pressure is Present,
        uclamp_min: probe::value_of(r.uclamp_min),
        uclamp_max: probe::value_of(r.uclamp_max),
        numa_balancing: probe::value_of(r.numa_balancing),
        energy_aware: probe::value_of(r.energy_aware),
    }
}

/// The row of the capability matrix about the scheduler.
pub open spec fn scheduler_findings_spec(r: SchedulerReadingsView) -> Seq<FindingView> {
    seq![
        FindingView {
            id: matrix::SCHEDULER@,
            target: None,
            status: probe::joint_status(
                seq![
                    probe::status_spec(r.uclamp_min, DiscoveryStatus::ReportOnly),
                    probe::status_spec(r.uclamp_max, DiscoveryStatus::ReportOnly),
                    probe::status_spec(r.numa_balancing, DiscoveryStatus::ReportOnly),
                    probe::status_spec(r.energy_aware, DiscoveryStatus::ReportOnly),
                    probe::status_spec(r.pressure, DiscoveryStatus::ReportOnly),
                ],
                DiscoveryStatus::ReportOnly,
            ),
            classification: FeatureClass::Experimental,
            evidence: seq![
                discover_cpu::seen(
                    r.uclamp_min,
                    EvidenceSource::Procfs,
                    "sched_util_clamp_min"@,
                ),
                discover_cpu::seen(
                    r.uclamp_max,
                    EvidenceSource::Procfs,
                    "sched_util_clamp_max"@,
                ),
                discover_cpu::seen(r.numa_balancing, EvidenceSource::Procfs, "numa_balancing"@),
                discover_cpu::seen(r.energy_aware, EvidenceSource::Procfs, "sched_energy_aware"@),
                discover_cpu::seen(r.pressure, EvidenceSource::Procfs, "cpu_pressure"@),
            ],
            attributes: Seq::empty(),
        },
    ]
}

/// The facts about the scheduler, and the row of the capability matrix.
pub fn scheduler_report(r: &SchedulerReadings) -> (report: (
    SchedulerFacts,
    Vec<CapabilityFinding>,
))
    ensures
        report.0@ == scheduler_facts_spec(r@),
        probe::findings_view(report.1@) == scheduler_findings_spec(r@),
{
    proof {
        matrix::names_are_not_empty();
        discover_cpu::lemma_text_words(r.uclamp_min);
        discover_cpu::lemma_text_words(r.uclamp_max);
        discover_cpu::lemma_text_words(r.numa_balancing);
        discover_cpu::lemma_text_words(r.energy_aware);
        discover_cpu::lemma_text_words(r.pressure);
    }
    let mut facilities: Vec<String> = Vec::new();
    assert(text::deep(facilities@) =~= Seq::empty());
    push_present(&mut facilities, &r.uclamp_min, "sched_util_clamp_min");
    push_present(&mut facilities, &r.uclamp_max, "sched_util_clamp_max");
    push_present(&mut facilities, &r.numa_balancing, "numa_balancing");
    push_present(&mut facilities, &r.energy_aware, "sched_energy_aware");
    push_present(&mut facilities, &r.pressure, "cpu_pressure");
    assert(text::deep(facilities@) =~= scheduler_facts_spec(r@).facilities);
    let facts = SchedulerFacts {
        facilities,
        cpu_pressure: match &r.pressure {
            Probe::Present(_) => true,
            _ => false,
        },
        uclamp_min: probe::text_value(&r.uclamp_min),
        uclamp_max: probe::text_value(&r.uclamp_max),
        numa_balancing: probe::text_value(&r.numa_balancing),
        energy_aware: probe::text_value(&r.energy_aware),
    };
    let ghost expected = scheduler_findings_spec(r@);
    let statuses = [
        probe::status(&r.uclamp_min, DiscoveryStatus::ReportOnly),
        probe::status(&r.uclamp_max, DiscoveryStatus::ReportOnly),
        probe::status(&r.numa_balancing, DiscoveryStatus::ReportOnly),
        probe::status(&r.energy_aware, DiscoveryStatus::ReportOnly),
        probe::status(&r.pressure, DiscoveryStatus::ReportOnly),
    ];
    proof {
        assert(statuses@ =~= seq![
            probe::status_spec(r@.uclamp_min, DiscoveryStatus::ReportOnly),
            probe::status_spec(r@.uclamp_max, DiscoveryStatus::ReportOnly),
            probe::status_spec(r@.numa_balancing, DiscoveryStatus::ReportOnly),
            probe::status_spec(r@.energy_aware, DiscoveryStatus::ReportOnly),
            probe::status_spec(r@.pressure, DiscoveryStatus::ReportOnly),
        ]);
    }
    let mut evidence: Vec<CapabilityEvidence> = Vec::new();
    evidence.push(
        probe::probe_evidence(&r.uclamp_min, EvidenceSource::Procfs, "sched_util_clamp_min"),
    );
    evidence.push(
        probe::probe_evidence(&r.uclamp_max, EvidenceSource::Procfs, "sched_util_clamp_max"),
    );
    evidence.push(
        probe::probe_evidence(&r.numa_balancing, EvidenceSource::Procfs, "numa_balancing"),
    );
    evidence.push(
        probe::probe_evidence(&r.energy_aware, EvidenceSource::Procfs, "sched_energy_aware"),
    );
    evidence.push(probe::probe_evidence(&r.pressure, EvidenceSource::Procfs, "cpu_pressure"));
    assert(crate::capability::evidence_view(evidence@) =~= expected[0].evidence);
    let row = probe::finding(
        matrix::SCHEDULER,
        None,
        probe::status_for(&statuses, DiscoveryStatus::ReportOnly),
        FeatureClass::Experimental,
        evidence,
        discover_cpu::no_attributes(),
    );
    assert(row@ =~= expected[0]);
    let mut findings: Vec<CapabilityFinding> = Vec::new();
    findings.push(row);
    assert(probe::findings_view(findings@) =~= expected);
    (facts, findings)
}

/// Finds out about the scheduler.
pub fn detect_scheduler<F: ReadOnlyFileSystem>(procfs: &F) -> (report: (
    SchedulerFacts,
    Vec<CapabilityFinding>,
))
    ensures
        exists|seen: SchedulerReadingsView| #[trigger]
            reads_scheduler(procfs, seen) && report.0@ == scheduler_facts_spec(seen)
                && probe::findings_view(report.1@) == scheduler_findings_spec(seen),
        procfs.settled() ==> report.0@ == scheduler_facts_spec(scheduler_at(procfs))
            && probe::findings_view(report.1@) == scheduler_findings_spec(scheduler_at(procfs)),
{
    let readings = SchedulerReadings {
        uclamp_min: probe::read_text(procfs, "sys/kernel/sched_util_clamp_min"),
        uclamp_max: probe::read_text(procfs, "sys/kernel/sched_util_clamp_max"),
        numa_balancing: probe::read_text(procfs, "sys/kernel/numa_balancing"),
        energy_aware: probe::read_text(procfs, "sys/kernel/sched_energy_aware"),
        pressure: probe::read_text(procfs, "pressure/cpu"),
    };
    assert(reads_scheduler(procfs, readings@));
    scheduler_report(&readings)
}

/// The facts about systemd.
pub open spec fn systemd_facts_spec(
    init: Probe<Seq<char>>,
    directory: Probe<Seq<(Seq<char>, EntryKind)>>,
) -> SystemdView {
    let named = init == Probe::Present("systemd"@);
    let there = directory is Present;
    SystemdView {
        present: named || there,
        evidence: (if named {
            seq!["PID 1 is named systemd"@]
        } else {
            Seq::empty()
        }) + if there {
            seq!["/run/systemd/system is present"@]
        } else {
            Seq::empty()
        },
    }
}

/// The row of the capability matrix about systemd.
pub open spec fn systemd_findings_spec(
    init: Probe<Seq<char>>,
    directory: Probe<Seq<(Seq<char>, EntryKind)>>,
) -> Seq<FindingView> {
    seq![
        FindingView {
            id: matrix::SYSTEMD@,
            target: None,
            status: if systemd_facts_spec(init, directory).present {
                DiscoveryStatus::ReportOnly
            } else if init is Denied || directory is Denied {
                DiscoveryStatus::PermissionDenied
            } else if init is Malformed || directory is Malformed {
                DiscoveryStatus::Indeterminate
            } else {
                DiscoveryStatus::Unavailable
            },
            classification: FeatureClass::BootOnlyReportOnly,
            evidence: seq![
                discover_cpu::seen(init, EvidenceSource::Procfs, "PID 1 command name"@),
                discover_cpu::seen(
                    directory,
                    EvidenceSource::Synthetic,
                    "systemd runtime directory"@,
                ),
            ],
            attributes: Seq::empty(),
        },
    ]
}

/// The facts about systemd, and the row of the capability matrix.
pub fn systemd_report(init: &Probe<String>, directory: &Probe<Vec<DirectoryEntry>>) -> (report: (
    SystemdFacts,
    Vec<CapabilityFinding>,
))
    ensures
        report.0@ == systemd_facts_spec(
            probe::probe_text(*init),
            probe::probe_entries(*directory),
        ),
        probe::findings_view(report.1@) == systemd_findings_spec(
            probe::probe_text(*init),
            probe::probe_entries(*directory),
        ),
{
    proof {
        matrix::names_are_not_empty();
        discover_cpu::lemma_text_words(*init);
    }
    let named = match init {
        Probe::Present(name) => text::same(name.as_str(), "systemd"),
        _ => false,
    };
    let there = match directory {
        Probe::Present(_) => true,
        _ => false,
    };
    let mut lines: Vec<String> = Vec::new();
    if named {
        lines.push("PID 1 is named systemd".to_string());
    }
    if there {
        lines.push("/run/systemd/system is present".to_string());
    }
    let ghost i = probe::probe_text(*init);
    let ghost d = probe::probe_entries(*directory);
    assert(text::deep(lines@) =~= systemd_facts_spec(i, d).evidence);
    let facts = SystemdFacts { present: named || there, evidence: lines };
    let denied = match (init, directory) {
        (Probe::Denied, _) => true,
        (_, Probe::Denied) => true,
        _ => false,
    };
    let malformed = match (init, directory) {
        (Probe::Malformed, _) => true,
        (_, Probe::Malformed) => true,
        _ => false,
    };
    let status = if facts.present {
        DiscoveryStatus::ReportOnly
    } else if denied {
        DiscoveryStatus::PermissionDenied
    } else if malformed {
        DiscoveryStatus::Indeterminate
    } else {
        DiscoveryStatus::Unavailable
    };
    let row = probe::finding(
        matrix::SYSTEMD,
        None,
        status,
        FeatureClass::BootOnlyReportOnly,
        probe::two(
            probe::probe_evidence(init, EvidenceSource::Procfs, "PID 1 command name"),
            probe::probe_evidence(
                directory,
                EvidenceSource::Synthetic,
                "systemd runtime directory",
            ),
        ),
        discover_cpu::no_attributes(),
    );
    let ghost expected = systemd_findings_spec(i, d);
    assert(row@ =~= expected[0]);
    let mut findings: Vec<CapabilityFinding> = Vec::new();
    findings.push(row);
    assert(probe::findings_view(findings@) =~= expected);
    (facts, findings)
}

/// What a host says about its systemd directory; without a run tree, nothing.
pub open spec fn systemd_directory_at<R: ReadOnlyFileSystem>(run: Option<&R>) -> Probe<
    Seq<(Seq<char>, EntryKind)>,
> {
    match run {
        Some(tree) => probe::entries_at(tree, "systemd/system"@),
        None => Probe::Missing,
    }
}

/// Whether a tree that may be missing does not change.
pub open spec fn optional_settled<R: ReadOnlyFileSystem>(tree: Option<&R>) -> bool {
    match tree {
        Some(tree) => tree.settled(),
        None => true,
    }
}

/// Whether reading about systemd finds this: the name of the first process, and the
/// directory where there is a run tree.
pub open spec fn reads_systemd<P: ReadOnlyFileSystem, R: ReadOnlyFileSystem>(
    procfs: &P,
    run: Option<&R>,
    init: Probe<Seq<char>>,
    directory: Probe<Seq<(Seq<char>, EntryKind)>>,
) -> bool {
    &&& probe::reads_text(procfs, "1/comm"@, init)
    &&& match run {
        Some(tree) => probe::reads_entries(tree, "systemd/system"@, directory),
        None => directory is Missing,
    }
}

/// Finds out about systemd.
pub fn detect_systemd<P: ReadOnlyFileSystem, R: ReadOnlyFileSystem>(procfs: &P, run: Option<&R>)
    -> (report: (SystemdFacts, Vec<CapabilityFinding>))
    ensures
        exists|init: Probe<Seq<char>>, directory: Probe<Seq<(Seq<char>, EntryKind)>>| #[trigger]
            reads_systemd(procfs, run, init, directory) && report.0@ == systemd_facts_spec(
                init,
                directory,
            ) && probe::findings_view(report.1@) == systemd_findings_spec(init, directory),
        procfs.settled() && optional_settled(run) ==> report.0@ == systemd_facts_spec(
            probe::text_at(procfs, "1/comm"@),
            systemd_directory_at(run),
        ) && probe::findings_view(report.1@) == systemd_findings_spec(
            probe::text_at(procfs, "1/comm"@),
            systemd_directory_at(run),
        ),
{
    let init = probe::read_text(procfs, "1/comm");
    let directory = match run {
        Some(tree) => probe::list(tree, "systemd/system"),
        None => Probe::Missing,
    };
    assert(reads_systemd(
        procfs,
        run,
        probe::probe_text(init),
        probe::probe_entries(directory),
    ));
    systemd_report(&init, &directory)
}

} // verus!
