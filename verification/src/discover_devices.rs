//! What a host says about its graphics devices and interrupts.

use vstd::prelude::*;

use crate::capability::{EvidenceSource, FeatureClass};
use crate::discover_cpu;
use crate::facts::{
    GpuDeviceFacts, GpuDeviceView, GpuFacts, GpuView, IrqEntryFacts, IrqEntryView, IrqFacts, IrqView,
};
use crate::filesystem;
use crate::filesystem::{DirectoryEntry, EntryKind, ReadOnlyFileSystem};
use crate::matrix;
use crate::probe;
use crate::probe::{CapabilityFinding, DiscoveryStatus, FindingView, Probe};
use crate::text;

verus! {

/// An entry put behind all whose names do not come after its own.
pub open spec fn entry_placed(
    entries: Seq<(Seq<char>, EntryKind)>,
    entry: (Seq<char>, EntryKind),
) -> Seq<(Seq<char>, EntryKind)>
    decreases entries.len(),
{
    if entries.len() == 0 || !text::less_spec(entry.0, entries.last().0) {
        entries.push(entry)
    } else {
        entry_placed(entries.drop_last(), entry).push(entries.last())
    }
}

/// The entries whose names begin with a prefix, in the order of their names.
pub open spec fn entries_named(entries: Seq<(Seq<char>, EntryKind)>, prefix: Seq<char>) -> Seq<
    (Seq<char>, EntryKind),
>
    decreases entries.len(),
{
    if entries.len() == 0 {
        Seq::empty()
    } else {
        let before = entries_named(entries.drop_last(), prefix);
        if text::starts_with_spec(entries.last().0, prefix) {
            entry_placed(before, entries.last())
        } else {
            before
        }
    }
}

/// The graphics cards that are there.
pub open spec fn cards_spec(directory: Probe<Seq<(Seq<char>, EntryKind)>>) -> Seq<
    (Seq<char>, EntryKind),
> {
    match directory {
        Probe::Present(entries) => entries_named(entries, "card"@),
        _ => Seq::empty(),
    }
}

fn place_entry(entries: &mut Vec<DirectoryEntry>, entry: DirectoryEntry)
    ensures
        filesystem::entries_view(final(entries)@) == entry_placed(
            filesystem::entries_view(old(entries)@),
            (entry.name@, entry.kind),
        ),
{
    let ghost all = filesystem::entries_view(entries@);
    let ghost new = (entry.name@, entry.kind);
    let mut at: usize = entries.len();
    proof {
        assert(all.take(all.len() as int) =~= all);
        assert(entry_placed(all, new) =~= entry_placed(all.take(all.len() as int), new) + all.skip(
            all.len() as int,
        ));
    }
    while at > 0
        invariant_except_break
            entry_placed(all, new) == entry_placed(all.take(at as int), new) + all.skip(at as int),
        invariant
            at <= entries@.len(),
            all == filesystem::entries_view(entries@),
            all.len() == entries@.len(),
            new == (entry.name@, entry.kind),
        ensures
            entry_placed(all, new) == all.take(at as int).push(new) + all.skip(at as int),
        decreases at,
    {
        let ghost head = all.take(at as int);
        assert(head.last() == all[at - 1]);
        assert(all[at - 1] == (entries@[at - 1].name@, entries@[at - 1].kind));
        if !text::less(entry.name.as_str(), entries[at - 1].name.as_str()) {
            break;
        }
        proof {
            assert(head.drop_last() =~= all.take(at - 1));
            assert(entry_placed(all.take(at - 1), new).push(all[at - 1]) + all.skip(at as int)
                =~= entry_placed(all.take(at - 1), new) + all.skip(at - 1));
        }
        at = at - 1;
    }
    entries.insert(at, entry);
    assert(filesystem::entries_view(entries@) =~= all.take(at as int).push(new) + all.skip(
        at as int,
    ));
}

fn cards(directory: &Probe<Vec<DirectoryEntry>>) -> (r: Vec<DirectoryEntry>)
    ensures
        filesystem::entries_view(r@) == cards_spec(probe::probe_entries(*directory)),
{
    let mut r: Vec<DirectoryEntry> = Vec::new();
    assert(filesystem::entries_view(r@) =~= Seq::empty());
    let entries = match directory {
        Probe::Present(entries) => entries,
        _ => {
            return r;
        },
    };
    let mark = text::chars_of("card");
    let ghost all = filesystem::entries_view(entries@);
    let mut i: usize = 0;
    while i < entries.len()
        invariant
            i <= entries@.len(),
            mark@ == "card"@,
            all == filesystem::entries_view(entries@),
            all.len() == entries@.len(),
            filesystem::entries_view(r@) == entries_named(all.take(i as int), "card"@),
        decreases entries@.len() - i,
    {
        let entry = &entries[i];
        proof {
            assert(all[i as int] == (entry.name@, entry.kind));
            assert(all.take(i + 1).drop_last() =~= all.take(i as int));
            assert(all.take(i + 1).last() == all[i as int]);
        }
        let name = text::chars_of(entry.name.as_str());
        if text::starts_with(name.as_slice(), mark.as_slice()) {
            place_entry(&mut r, DirectoryEntry { name: entry.name.clone(), kind: entry.kind });
        }
        i = i + 1;
    }
    assert(all.take(i as int) =~= all);
    r
}

/// What was read of a graphics card.
#[derive(Debug)]
pub struct CardProbes {
    pub uevent: Probe<String>,
    pub vendor: Probe<String>,
    pub device: Probe<String>,
    pub class: Probe<String>,
}

/// What was read of a graphics card, as plain values.
#[verifier::ext_equal]
pub struct CardView {
    pub uevent: Probe<Seq<char>>,
    pub vendor: Probe<Seq<char>>,
    pub device: Probe<Seq<char>>,
    pub class: Probe<Seq<char>>,
}

impl View for CardProbes {
    type V = CardView;

    open spec fn view(&self) -> CardView {
        CardView {
            uevent: probe::probe_text(self.uevent),
            vendor: probe::probe_text(self.vendor),
            device: probe::probe_text(self.device),
            class: probe::probe_text(self.class),
        }
    }
}

/// What a host says about a graphics card.
pub open spec fn card_at<F: ReadOnlyFileSystem>(tree: &F, name: Seq<char>) -> CardView {
    let prefix = "class/drm/"@ + name;
    CardView {
        uevent: probe::text_at(tree, prefix + "/uevent"@),
        vendor: probe::text_at(tree, prefix + "/device/vendor"@),
        device: probe::text_at(tree, prefix + "/device/device"@),
        class: probe::text_at(tree, prefix + "/device/class"@),
    }
}

/// What was read of the graphics devices.
#[derive(Debug)]
pub struct GpuReadings {
    pub directory: Probe<Vec<DirectoryEntry>>,
    /// The cards in the order of their names.
    pub entries: Vec<DirectoryEntry>,
    pub cards: Vec<CardProbes>,
}

/// What was read of the graphics devices, as plain values.
#[verifier::ext_equal]
pub struct GpuReadingsView {
    pub directory: Probe<Seq<(Seq<char>, EntryKind)>>,
    pub entries: Seq<(Seq<char>, EntryKind)>,
    pub cards: Seq<CardView>,
}

impl View for GpuReadings {
    type V = GpuReadingsView;

    open spec fn view(&self) -> GpuReadingsView {
        GpuReadingsView {
            directory: probe::probe_entries(self.directory),
            entries: filesystem::entries_view(self.entries@),
            cards: self.cards@.map_values(|c: CardProbes| c@),
        }
    }
}

/// What a host says about its graphics devices.
pub open spec fn gpus_at<F: ReadOnlyFileSystem>(tree: &F) -> GpuReadingsView {
    let directory = probe::entries_at(tree, "class/drm"@);
    let entries = cards_spec(directory);
    GpuReadingsView {
        directory,
        entries,
        cards: Seq::new(entries.len(), |i: int| card_at(tree, entries[i].0)),
    }
}

/// Whether reading a graphics card finds this: every file is read once.
pub open spec fn reads_card<F: ReadOnlyFileSystem>(tree: &F, name: Seq<char>, seen: CardView)
    -> bool {
    let prefix = "class/drm/"@ + name;
    &&& probe::reads_text(tree, prefix + "/uevent"@, seen.uevent)
    &&& probe::reads_text(tree, prefix + "/device/vendor"@, seen.vendor)
    &&& probe::reads_text(tree, prefix + "/device/device"@, seen.device)
    &&& probe::reads_text(tree, prefix + "/device/class"@, seen.class)
}

/// Whether reading the graphics devices finds this: the directory is listed once,
/// and every card in it is read once.
pub open spec fn reads_gpus<F: ReadOnlyFileSystem>(tree: &F, seen: GpuReadingsView) -> bool {
    &&& probe::reads_entries(tree, "class/drm"@, seen.directory)
    &&& seen.entries == cards_spec(seen.directory)
    &&& seen.cards.len() == seen.entries.len()
    &&& forall|i: int|
        0 <= i < seen.entries.len() ==> reads_card(
            tree,
            seen.entries[i].0,
            #[trigger] seen.cards[i],
        )
}

/// Reads the graphics devices.
pub fn read_gpus<F: ReadOnlyFileSystem>(tree: &F) -> (r: GpuReadings)
    ensures
        r.entries@.len() == r.cards@.len(),
        reads_gpus(tree, r@),
        tree.settled() ==> r@ == gpus_at(tree),
{
    let directory = probe::list(tree, "class/drm");
    let entries = cards(&directory);
    let mut probes: Vec<CardProbes> = Vec::new();
    let mut i: usize = 0;
    while i < entries.len()
        invariant
            i <= entries@.len(),
            probes@.len() == i,
            forall|j: int|
                0 <= j < i ==> reads_card(tree, entries@[j].name@, (#[trigger] probes@[j])@),
            tree.settled() ==> forall|j: int|
                0 <= j < i ==> (#[trigger] probes@[j])@ == card_at(tree, entries@[j].name@),
        decreases entries@.len() - i,
    {
        let path = text::join("class/drm/", entries[i].name.as_str());
        let prefix = path.as_str();
        let uevent = discover_cpu::read_below(tree, prefix, "/uevent");
        let vendor = discover_cpu::read_below(tree, prefix, "/device/vendor");
        let device = discover_cpu::read_below(tree, prefix, "/device/device");
        let class = discover_cpu::read_below(tree, prefix, "/device/class");
        probes.push(CardProbes { uevent, vendor, device, class });
        i = i + 1;
    }
    let r = GpuReadings { directory, entries, cards: probes };
    proof {
        assert(r@.entries.len() == r.entries@.len());
        assert forall|j: int| 0 <= j < r@.entries.len() implies reads_card(
            tree,
            r@.entries[j].0,
            #[trigger] r@.cards[j],
        ) by {
            assert(r@.entries[j].0 == r.entries@[j].name@);
            assert(r@.cards[j] == r.cards@[j]@);
        }
        if tree.settled() {
            assert forall|j: int| 0 <= j < r@.cards.len() implies r@.cards[j]
                == #[trigger] gpus_at(tree).cards[j] by {
                assert(r@.entries[j].0 == r.entries@[j].name@);
                assert(r.cards@[j]@ == card_at(tree, r.entries@[j].name@));
            }
            assert(r@.cards =~= gpus_at(tree).cards);
        }
    }
    r
}

/// The facts about a graphics card.
pub open spec fn card_facts_spec(entry: (Seq<char>, EntryKind), p: CardView) -> GpuDeviceView {
    GpuDeviceView {
        name: entry.0,
        vendor: probe::value_of(p.vendor),
        device: probe::value_of(p.device),
        class: probe::value_of(p.class),
        driver: match p.uevent {
            Probe::Present(value) => probe::key_value(value, "DRIVER"@),
            _ => None,
        },
        entry_kind: entry.1,
    }
}

/// The status of a graphics card. A link is not followed.
pub open spec fn card_status(kind: EntryKind, p: CardView) -> DiscoveryStatus {
    if kind == EntryKind::Symlink {
        DiscoveryStatus::PresentButUnsupported
    } else {
        probe::joint_status(
            seq![
                probe::status_spec(p.uevent, DiscoveryStatus::PresentButUnsupported),
                probe::status_spec(p.vendor, DiscoveryStatus::PresentButUnsupported),
            ],
            DiscoveryStatus::PresentButUnsupported,
        )
    }
}

/// One row of the capability matrix about a graphics card.
pub open spec fn card_finding(id: Seq<char>, entry: (Seq<char>, EntryKind), p: CardView)
    -> FindingView {
    FindingView {
        id,
        target: Some("gpu."@ + entry.0),
        status: card_status(entry.1, p),
        classification: FeatureClass::Experimental,
        evidence: seq![
            (EvidenceSource::Device, "DRM entry "@ + entry.0 + " was enumerated"@),
            discover_cpu::seen(p.uevent, EvidenceSource::Device, "DRM uevent"@),
            discover_cpu::seen(p.vendor, EvidenceSource::Device, "GPU vendor identifier"@),
        ],
        attributes: Seq::empty(),
    }
}

/// The rows of the capability matrix about a graphics card.
pub open spec fn card_findings(entry: (Seq<char>, EntryKind), p: CardView) -> Seq<FindingView> {
    seq![
        card_finding(matrix::GPU_PERFORMANCE_PROFILE@, entry, p),
        card_finding(matrix::GPU_POWER_LIMIT@, entry, p),
        card_finding(matrix::GPU_DEVICE@, entry, p),
    ]
}

/// The rows about all cards, one card after the other.
pub open spec fn all_card_findings(entries: Seq<(Seq<char>, EntryKind)>, cards: Seq<CardView>) -> Seq<
    FindingView,
>
    decreases entries.len(),
{
    if entries.len() == 0 {
        Seq::empty()
    } else {
        all_card_findings(entries.drop_last(), cards) + card_findings(
            entries.last(),
            cards[entries.len() - 1],
        )
    }
}

/// The facts about the graphics devices.
pub open spec fn gpu_facts_spec(r: GpuReadingsView) -> GpuView {
    GpuView { devices: Seq::new(r.entries.len(), |i: int| card_facts_spec(r.entries[i], r.cards[i])) }
}

/// The rows of the capability matrix about the graphics devices.
pub open spec fn gpu_findings_spec(r: GpuReadingsView) -> Seq<FindingView> {
    if r.entries.len() == 0 {
        seq![
            FindingView {
                id: matrix::GPU_DEVICE@,
                target: None,
                status: probe::status_spec(r.directory, DiscoveryStatus::ReportOnly),
                classification: FeatureClass::Experimental,
                evidence: seq![
                    discover_cpu::seen(r.directory, EvidenceSource::Device, "DRM class directory"@),
                ],
                attributes: Seq::empty(),
            },
        ]
    } else {
        all_card_findings(r.entries, r.cards)
    }
}

fn describe_card(id: &str, entry: &DirectoryEntry, p: &CardProbes) -> (r: CapabilityFinding)
    requires
        id@.len() > 0,
    ensures
        r@ == card_finding(id@, (entry.name@, entry.kind), p@),
{
    let ghost expected = card_finding(id@, (entry.name@, entry.kind), p@);
    let target = text::join("gpu.", entry.name.as_str());
    let detail = text::join3("DRM entry ", entry.name.as_str(), " was enumerated");
    let statuses = [
        probe::status(&p.uevent, DiscoveryStatus::PresentButUnsupported),
        probe::status(&p.vendor, DiscoveryStatus::PresentButUnsupported),
    ];
    proof {
        reveal_strlit("gpu.");
        discover_cpu::lemma_text_words(p.uevent);
        discover_cpu::lemma_text_words(p.vendor);
        assert(statuses@ =~= seq![
            probe::status_spec(p@.uevent, DiscoveryStatus::PresentButUnsupported),
            probe::status_spec(p@.vendor, DiscoveryStatus::PresentButUnsupported),
        ]);
    }
    let status = if entry.kind == EntryKind::Symlink {
        DiscoveryStatus::PresentButUnsupported
    } else {
        probe::status_for(&statuses, DiscoveryStatus::PresentButUnsupported)
    };
    let r = probe::finding(
        id,
        Some(target.as_str()),
        status,
        FeatureClass::Experimental,
        probe::three(
            probe::evidence(EvidenceSource::Device, detail.as_str()),
            probe::probe_evidence(&p.uevent, EvidenceSource::Device, "DRM uevent"),
            probe::probe_evidence(&p.vendor, EvidenceSource::Device, "GPU vendor identifier"),
        ),
        discover_cpu::no_attributes(),
    );
    assert(r@ =~= expected);
    r
}

/// The facts about the graphics devices, and the rows of the capability matrix.
pub fn gpu_report(r: &GpuReadings) -> (report: (GpuFacts, Vec<CapabilityFinding>))
    requires
        r.entries@.len() == r.cards@.len(),
    ensures
        report.0@ == gpu_facts_spec(r@),
        probe::findings_view(report.1@) == gpu_findings_spec(r@),
{
    proof {
        matrix::names_are_not_empty();
    }
    let ghost entries = r@.entries;
    let ghost probes = r@.cards;
    assert(entries.len() == r.entries@.len());
    let mut devices: Vec<GpuDeviceFacts> = Vec::new();
    let mut findings: Vec<CapabilityFinding> = Vec::new();
    let mut i: usize = 0;
    assert(entries.take(0) =~= Seq::empty());
    assert(probe::findings_view(findings@) =~= Seq::empty());
    while i < r.entries.len()
        invariant
            i <= r.entries@.len(),
            r.entries@.len() == r.cards@.len(),
            entries == r@.entries,
            probes == r@.cards,
            entries.len() == r.entries@.len(),
            matrix::GPU_PERFORMANCE_PROFILE@.len() > 0,
            matrix::GPU_POWER_LIMIT@.len() > 0,
            matrix::GPU_DEVICE@.len() > 0,
            probe::findings_view(findings@) == all_card_findings(entries.take(i as int), probes),
            devices@.len() == i,
            forall|j: int|
                0 <= j < i ==> (#[trigger] devices@[j])@ == card_facts_spec(entries[j], probes[j]),
        decreases r.entries@.len() - i,
    {
        let entry = &r.entries[i];
        let p = &r.cards[i];
        assert(entries[i as int] == (entry.name@, entry.kind));
        assert(probes[i as int] == p@);
        let driver = match &p.uevent {
            Probe::Present(value) => probe::value_for_key(value.as_str(), "DRIVER"),
            _ => None,
        };
        devices.push(
            GpuDeviceFacts {
                name: entry.name.clone(),
                vendor: probe::text_value(&p.vendor),
                device: probe::text_value(&p.device),
                class: probe::text_value(&p.class),
                driver,
                entry_kind: entry.kind,
            },
        );
        let ghost before = probe::findings_view(findings@);
        findings.push(describe_card(matrix::GPU_PERFORMANCE_PROFILE, entry, p));
        findings.push(describe_card(matrix::GPU_POWER_LIMIT, entry, p));
        findings.push(describe_card(matrix::GPU_DEVICE, entry, p));
        proof {
            assert(probe::findings_view(findings@) =~= before + card_findings(
                entries[i as int],
                p@,
            ));
            assert(entries.take(i + 1).drop_last() =~= entries.take(i as int));
            assert(entries.take(i + 1).last() == entries[i as int]);
        }
        i = i + 1;
    }
    assert(entries.take(i as int) =~= entries);
    let facts = GpuFacts { devices };
    assert(facts@.devices =~= gpu_facts_spec(r@).devices);
    if r.entries.len() == 0 {
        let row = probe::finding(
            matrix::GPU_DEVICE,
            None,
            probe::status(&r.directory, DiscoveryStatus::ReportOnly),
            FeatureClass::Experimental,
            probe::one(
                probe::probe_evidence(&r.directory, EvidenceSource::Device, "DRM class directory"),
            ),
            discover_cpu::no_attributes(),
        );
        let ghost expected = gpu_findings_spec(r@);
        assert(row@ =~= expected[0]);
        findings.push(row);
        assert(probe::findings_view(findings@) =~= expected);
    }
    (facts, findings)
}

/// Finds the graphics devices.
pub fn detect_gpus<F: ReadOnlyFileSystem>(sysfs: &F) -> (report: (
    GpuFacts,
    Vec<CapabilityFinding>,
))
    ensures
        exists|seen: GpuReadingsView| #[trigger]
            reads_gpus(sysfs, seen) && report.0@ == gpu_facts_spec(seen) && probe::findings_view(
                report.1@,
            ) == gpu_findings_spec(seen),
        sysfs.settled() ==> report.0@ == gpu_facts_spec(gpus_at(sysfs)) && probe::findings_view(
            report.1@,
        ) == gpu_findings_spec(gpus_at(sysfs)),
{
    let readings = read_gpus(sysfs);
    gpu_report(&readings)
}

/// What was read of an interrupt.
#[derive(Debug)]
pub struct IrqProbes {
    pub affinity: Probe<String>,
    pub effective: Probe<String>,
}

/// What was read of the interrupts.
#[derive(Debug)]
pub struct IrqReadings {
    pub directory: Probe<Vec<DirectoryEntry>>,
    pub default_affinity: Probe<String>,
    /// The interrupts in ascending order.
    pub ids: Vec<u32>,
    pub irqs: Vec<IrqProbes>,
}

/// What was read of the interrupts, as plain values.
#[verifier::ext_equal]
pub struct IrqReadingsView {
    pub directory: Probe<Seq<(Seq<char>, EntryKind)>>,
    pub default_affinity: Probe<Seq<char>>,
    pub ids: Seq<u32>,
    pub irqs: Seq<(Probe<Seq<char>>, Probe<Seq<char>>)>,
}

impl View for IrqReadings {
    type V = IrqReadingsView;

    open spec fn view(&self) -> IrqReadingsView {
        IrqReadingsView {
            directory: probe::probe_entries(self.directory),
            default_affinity: probe::probe_text(self.default_affinity),
            ids: self.ids@,
            irqs: self.irqs@.map_values(
                |q: IrqProbes| (probe::probe_text(q.affinity), probe::probe_text(q.effective)),
            ),
        }
    }
}

/// What a host says about an interrupt.
pub open spec fn irq_at<F: ReadOnlyFileSystem>(tree: &F, irq: u32) -> (
    Probe<Seq<char>>,
    Probe<Seq<char>>,
) {
    let prefix = "irq/"@ + text::decimal_spec(irq as nat);
    (
        probe::text_at(tree, prefix + "/smp_affinity_list"@),
        probe::text_at(tree, prefix + "/effective_affinity_list"@),
    )
}

/// What a host says about its interrupts.
pub open spec fn irqs_at<F: ReadOnlyFileSystem>(tree: &F) -> IrqReadingsView {
    let directory = probe::entries_at(tree, "irq"@);
    let ids = probe::numeric_names(directory, ""@);
    IrqReadingsView {
        directory,
        default_affinity: probe::text_at(tree, "irq/default_smp_affinity"@),
        ids,
        irqs: Seq::new(ids.len(), |i: int| irq_at(tree, ids[i])),
    }
}

/// Whether reading an interrupt finds this: every file is read once.
pub open spec fn reads_irq<F: ReadOnlyFileSystem>(
    tree: &F,
    irq: u32,
    seen: (Probe<Seq<char>>, Probe<Seq<char>>),
) -> bool {
    let prefix = "irq/"@ + text::decimal_spec(irq as nat);
    &&& probe::reads_text(tree, prefix + "/smp_affinity_list"@, seen.0)
    &&& probe::reads_text(tree, prefix + "/effective_affinity_list"@, seen.1)
}

/// Whether reading the interrupts finds this: the directory is listed once, and
/// every interrupt in it is read once.
pub open spec fn reads_irqs<F: ReadOnlyFileSystem>(tree: &F, seen: IrqReadingsView) -> bool {
    &&& probe::reads_entries(tree, "irq"@, seen.directory)
    &&& probe::reads_text(tree, "irq/default_smp_affinity"@, seen.default_affinity)
    &&& seen.ids == probe::numeric_names(seen.directory, ""@)
    &&& seen.irqs.len() == seen.ids.len()
    &&& forall|i: int|
        0 <= i < seen.ids.len() ==> reads_irq(tree, seen.ids[i], #[trigger] seen.irqs[i])
}

/// Reads the interrupts.
pub fn read_irqs<F: ReadOnlyFileSystem>(tree: &F) -> (r: IrqReadings)
    ensures
        r.ids@.len() == r.irqs@.len(),
        reads_irqs(tree, r@),
        tree.settled() ==> r@ == irqs_at(tree),
{
    let directory = probe::list(tree, "irq");
    let ids = probe::sort_numeric_names(&directory, "");
    let default_affinity = probe::read_text(tree, "irq/default_smp_affinity");
    let mut irqs: Vec<IrqProbes> = Vec::new();
    let mut i: usize = 0;
    while i < ids.len()
        invariant
            i <= ids@.len(),
            irqs@.len() == i,
            forall|j: int|
                0 <= j < i ==> reads_irq(
                    tree,
                    ids@[j],
                    (
                        probe::probe_text((#[trigger] irqs@[j]).affinity),
                        probe::probe_text(irqs@[j].effective),
                    ),
                ),
            tree.settled() ==> forall|j: int|
                0 <= j < i ==> (
                    probe::probe_text((#[trigger] irqs@[j]).affinity),
                    probe::probe_text(irqs@[j].effective),
                ) == irq_at(tree, ids@[j]),
        decreases ids@.len() - i,
    {
        let number = text::decimal(ids[i] as u128);
        let path = text::join("irq/", number.as_str());
        let prefix = path.as_str();
        let affinity = discover_cpu::read_below(tree, prefix, "/smp_affinity_list");
        let effective = discover_cpu::read_below(tree, prefix, "/effective_affinity_list");
        irqs.push(IrqProbes { affinity, effective });
        i = i + 1;
    }
    let r = IrqReadings { directory, default_affinity, ids, irqs };
    proof {
        if tree.settled() {
            assert(r@.irqs =~= irqs_at(tree).irqs);
        }
    }
    r
}

/// The facts about an interrupt.
pub open spec fn irq_facts_of(irq: u32, p: (Probe<Seq<char>>, Probe<Seq<char>>)) -> IrqEntryView {
    IrqEntryView {
        irq,
        affinity: probe::value_of(p.0),
        effective_affinity: probe::value_of(p.1),
    }
}

/// The row of the capability matrix about an interrupt.
pub open spec fn irq_finding(irq: u32, p: (Probe<Seq<char>>, Probe<Seq<char>>)) -> FindingView {
    FindingView {
        id: matrix::IRQ_AFFINITY@,
        target: Some("irq."@ + text::decimal_spec(irq as nat)),
        status: probe::joint_status(
            seq![
                probe::status_spec(p.0, DiscoveryStatus::PresentButUnsupported),
                probe::status_spec(p.1, DiscoveryStatus::PresentButUnsupported),
            ],
            DiscoveryStatus::PresentButUnsupported,
        ),
        classification: FeatureClass::Experimental,
        evidence: seq![
            discover_cpu::seen(p.0, EvidenceSource::Procfs, "IRQ affinity list"@),
            discover_cpu::seen(p.1, EvidenceSource::Procfs, "IRQ effective affinity list"@),
        ],
        attributes: Seq::empty(),
    }
}

/// The facts about the interrupts.
pub open spec fn irq_facts_spec(r: IrqReadingsView) -> IrqView {
    IrqView {
        default_affinity: probe::value_of(r.default_affinity),
        entries: Seq::new(r.ids.len(), |i: int| irq_facts_of(r.ids[i], r.irqs[i])),
    }
}

/// The rows of the capability matrix about the interrupts.
pub open spec fn irq_findings_spec(r: IrqReadingsView) -> Seq<FindingView> {
    Seq::new(r.ids.len(), |i: int| irq_finding(r.ids[i], r.irqs[i])).push(
        FindingView {
            id: matrix::IRQ_METADATA@,
            target: None,
            status: if r.ids.len() == 0 {
                probe::combined_status(
                    seq![
                        probe::status_spec(r.directory, DiscoveryStatus::ReportOnly),
                        probe::status_spec(r.default_affinity, DiscoveryStatus::ReportOnly),
                    ],
                )
            } else {
                DiscoveryStatus::ReportOnly
            },
            classification: FeatureClass::Experimental,
            evidence: if r.ids.len() == 0 {
                seq![
                    discover_cpu::seen(r.directory, EvidenceSource::Procfs, "IRQ directory"@),
                    discover_cpu::seen(
                        r.default_affinity,
                        EvidenceSource::Procfs,
                        "default IRQ affinity"@,
                    ),
                ]
            } else {
                seq![
                    (
                        EvidenceSource::Procfs,
                        text::decimal_spec(r.ids.len()) + " IRQ entries were enumerated"@,
                    ),
                ]
            },
            attributes: Seq::empty(),
        },
    )
}

fn describe_irq(irq: u32, p: &IrqProbes) -> (r: CapabilityFinding)
    requires
        matrix::IRQ_AFFINITY@.len() > 0,
    ensures
        r@ == irq_finding(irq, (probe::probe_text(p.affinity), probe::probe_text(p.effective))),
{
    let ghost views = (probe::probe_text(p.affinity), probe::probe_text(p.effective));
    let number = text::decimal(irq as u128);
    let target = text::join("irq.", number.as_str());
    let statuses = [
        probe::status(&p.affinity, DiscoveryStatus::PresentButUnsupported),
        probe::status(&p.effective, DiscoveryStatus::PresentButUnsupported),
    ];
    proof {
        reveal_strlit("irq.");
        discover_cpu::lemma_text_words(p.affinity);
        discover_cpu::lemma_text_words(p.effective);
        assert(statuses@ =~= seq![
            probe::status_spec(views.0, DiscoveryStatus::PresentButUnsupported),
            probe::status_spec(views.1, DiscoveryStatus::PresentButUnsupported),
        ]);
    }
    let r = probe::finding(
        matrix::IRQ_AFFINITY,
        Some(target.as_str()),
        probe::status_for(&statuses, DiscoveryStatus::PresentButUnsupported),
        FeatureClass::Experimental,
        probe::two(
            probe::probe_evidence(&p.affinity, EvidenceSource::Procfs, "IRQ affinity list"),
            probe::probe_evidence(
                &p.effective,
                EvidenceSource::Procfs,
                "IRQ effective affinity list",
            ),
        ),
        discover_cpu::no_attributes(),
    );
    assert(r@ =~= irq_finding(irq, views));
    r
}

/// The facts about the interrupts, and the rows of the capability matrix.
pub fn irq_report(r: &IrqReadings) -> (report: (IrqFacts, Vec<CapabilityFinding>))
    requires
        r.ids@.len() == r.irqs@.len(),
    ensures
        report.0@ == irq_facts_spec(r@),
        probe::findings_view(report.1@) == irq_findings_spec(r@),
{
    proof {
        matrix::names_are_not_empty();
        discover_cpu::lemma_text_words(r.default_affinity);
    }
    let ghost probes = r@.irqs;
    let ghost expected = irq_findings_spec(r@);
    let mut entries: Vec<IrqEntryFacts> = Vec::new();
    let mut findings: Vec<CapabilityFinding> = Vec::new();
    let mut i: usize = 0;
    while i < r.ids.len()
        invariant
            i <= r.ids@.len(),
            r.ids@.len() == r.irqs@.len(),
            probes == r@.irqs,
            matrix::IRQ_AFFINITY@.len() > 0,
            entries@.len() == i,
            findings@.len() == i,
            forall|j: int|
                0 <= j < i ==> (#[trigger] entries@[j])@ == irq_facts_of(r.ids@[j], probes[j]),
            forall|j: int|
                0 <= j < i ==> (#[trigger] findings@[j])@ == irq_finding(r.ids@[j], probes[j]),
        decreases r.ids@.len() - i,
    {
        let irq: u32 = r.ids[i];
        let p = &r.irqs[i];
        assert(probes[i as int] == (
            probe::probe_text(p.affinity),
            probe::probe_text(p.effective),
        ));
        entries.push(
            IrqEntryFacts {
                irq,
                affinity: probe::text_value(&p.affinity),
                effective_affinity: probe::text_value(&p.effective),
            },
        );
        findings.push(describe_irq(irq, p));
        i = i + 1;
    }
    let facts = IrqFacts { default_affinity: probe::text_value(&r.default_affinity), entries };
    assert(facts@.entries =~= irq_facts_spec(r@).entries);
    let row = if r.ids.len() == 0 {
        let statuses = [
            probe::status(&r.directory, DiscoveryStatus::ReportOnly),
            probe::status(&r.default_affinity, DiscoveryStatus::ReportOnly),
        ];
        assert(statuses@ =~= seq![
            probe::status_spec(r@.directory, DiscoveryStatus::ReportOnly),
            probe::status_spec(r@.default_affinity, DiscoveryStatus::ReportOnly),
        ]);
        probe::finding(
            matrix::IRQ_METADATA,
            None,
            probe::combine_statuses(&statuses),
            FeatureClass::Experimental,
            probe::two(
                probe::probe_evidence(&r.directory, EvidenceSource::Procfs, "IRQ directory"),
                probe::probe_evidence(
                    &r.default_affinity,
                    EvidenceSource::Procfs,
                    "default IRQ affinity",
                ),
            ),
            discover_cpu::no_attributes(),
        )
    } else {
        let number = text::decimal(r.ids.len() as u128);
        let detail = text::join(number.as_str(), " IRQ entries were enumerated");
        probe::finding(
            matrix::IRQ_METADATA,
            None,
            DiscoveryStatus::ReportOnly,
            FeatureClass::Experimental,
            probe::one(probe::evidence(EvidenceSource::Procfs, detail.as_str())),
            discover_cpu::no_attributes(),
        )
    };
    assert(row@ =~= expected.last());
    findings.push(row);
    assert(probe::findings_view(findings@) =~= expected);
    (facts, findings)
}

/// Finds the interrupts.
pub fn detect_irqs<F: ReadOnlyFileSystem>(procfs: &F) -> (report: (
    IrqFacts,
    Vec<CapabilityFinding>,
))
    ensures
        exists|seen: IrqReadingsView| #[trigger]
            reads_irqs(procfs, seen) && report.0@ == irq_facts_spec(seen) && probe::findings_view(
                report.1@,
            ) == irq_findings_spec(seen),
        procfs.settled() ==> report.0@ == irq_facts_spec(irqs_at(procfs)) && probe::findings_view(
            report.1@,
        ) == irq_findings_spec(irqs_at(procfs)),
{
    let readings = read_irqs(procfs);
    irq_report(&readings)
}

} // verus!
