//! Conservative CPU placement for runtime soft isolation.
//!
//! The planner reads topology evidence, chooses CPUs for a workload and keeps
//! the others for housekeeping. It neither changes affinities nor knows of
//! boot-time isolation.

use vstd::prelude::*;

use crate::bytes;
use crate::cpuset;
use crate::cpuset::CpuSet;
use crate::error::SysboostError;
use crate::facts::{CpuTopologyEntry, CpuTopologyFacts, NumaFacts, NumaNodeFacts};

verus! {

/// How strongly the kernel proved differences of CPU capacity.
#[derive(Clone, Copy, Debug, PartialEq, Eq, Structural)]
pub enum CpuCapacityMode {
    /// Every online CPU has a capacity, and at least two differ.
    HeterogeneousProven,
    /// Every online CPU has the same capacity.
    Homogeneous,
    /// Some online CPU has no capacity, or the online CPUs are unknown.
    Unknown,
}

/// The capacity class of a CPU.
#[derive(Clone, Copy, Debug, PartialEq, Eq, Structural)]
pub enum CpuPerformanceClass {
    /// The highest capacity among the online CPUs.
    Performance,
    /// A lower capacity, where capacities are proven to differ.
    Efficiency,
    /// Capacities are the same, incomplete or inconsistent.
    Unknown,
}

/// One CPU of a topology.
#[derive(Debug, PartialEq, Eq)]
pub struct CpuTopologyCpu {
    /// Logical CPU number.
    pub id: u32,
    /// Physical package, when exposed.
    pub package_id: Option<u32>,
    /// Physical core, when exposed.
    pub core_id: Option<u32>,
    /// Thread siblings, restricted to the online CPUs where those are known.
    pub thread_siblings: CpuSet,
    /// Positive capacity, when exposed.
    pub capacity: Option<u64>,
    /// Whether the CPU is online.
    pub online: bool,
    /// NUMA node, when exposed.
    pub numa_node: Option<u32>,
    /// Capacity class.
    pub performance_class: CpuPerformanceClass,
}

/// What a topology says of one CPU.
#[verifier::ext_equal]
pub struct CpuView {
    pub id: u32,
    pub package_id: Option<u32>,
    pub core_id: Option<u32>,
    pub thread_siblings: Seq<u32>,
    pub capacity: Option<u64>,
    pub online: bool,
    pub numa_node: Option<u32>,
    pub performance_class: CpuPerformanceClass,
}

impl View for CpuTopologyCpu {
    type V = CpuView;

    open spec fn view(&self) -> CpuView {
        CpuView {
            id: self.id,
            package_id: self.package_id,
            core_id: self.core_id,
            thread_siblings: self.thread_siblings@,
            capacity: self.capacity,
            online: self.online,
            numa_node: self.numa_node,
            performance_class: self.performance_class,
        }
    }
}

/// The CPUs of one NUMA node.
#[derive(Debug, PartialEq, Eq)]
pub struct NumaNode {
    pub id: u32,
    pub cpus: CpuSet,
}

/// What is said of a whole topology.
#[verifier::ext_equal]
pub struct TopologyView {
    pub possible: Option<Seq<u32>>,
    pub online: Option<Seq<u32>>,
    pub cpus: Seq<CpuView>,
    pub numa: Seq<(u32, Seq<u32>)>,
    pub capacity_mode: CpuCapacityMode,
    pub revision: Seq<u8>,
}

/// Digest of everything that planning relies on. It detects changes; it is no
/// credential.
#[derive(Clone, Copy, Debug, PartialEq, Eq)]
pub struct TopologyRevision {
    pub bytes: [u8; 32],
}

impl TopologyRevision {
    pub fn as_bytes(&self) -> (r: &[u8; 32])
        ensures
            *r == self.bytes,
    {
        &self.bytes
    }
}

/// Topology evidence in normal form.
#[derive(Debug, PartialEq, Eq)]
pub struct CpuTopology {
    possible: Option<CpuSet>,
    online: Option<CpuSet>,
    cpus: Vec<CpuTopologyCpu>,
    numa_nodes: Vec<NumaNode>,
    capacity_mode: CpuCapacityMode,
    revision: TopologyRevision,
}

pub open spec fn set_view(set: Option<CpuSet>) -> Option<Seq<u32>> {
    match set {
        Some(set) => Some(set@),
        None => None,
    }
}

pub open spec fn cpus_view(cpus: Seq<CpuTopologyCpu>) -> Seq<CpuView> {
    cpus.map_values(|cpu: CpuTopologyCpu| cpu@)
}

pub open spec fn numa_view(nodes: Seq<NumaNode>) -> Seq<(u32, Seq<u32>)> {
    nodes.map_values(|node: NumaNode| (node.id, node.cpus@))
}

impl View for CpuTopology {
    type V = TopologyView;

    closed spec fn view(&self) -> TopologyView {
        TopologyView {
            possible: set_view(self.possible),
            online: set_view(self.online),
            cpus: cpus_view(self.cpus@),
            numa: numa_view(self.numa_nodes@),
            capacity_mode: self.capacity_mode,
            revision: self.revision.bytes@,
        }
    }
}

/// The CPUs of a topology stand in ascending order, and each online CPU is one
/// of them.
pub open spec fn topology_wf(t: TopologyView) -> bool {
    &&& forall|i: int, j: int|
        0 <= i < j < t.cpus.len() ==> (#[trigger] t.cpus[i]).id < (#[trigger] t.cpus[j]).id
    &&& t.online matches Some(online) ==> {
        &&& online.len() > 0
        &&& cpuset::ascending(online)
        &&& forall|cpu: u32| #[trigger] online.contains(cpu) ==> has_cpu(t.cpus, cpu)
    }
}

pub open spec fn has_cpu(cpus: Seq<CpuView>, id: u32) -> bool {
    exists|i: int| 0 <= i < cpus.len() && (#[trigger] cpus[i]).id == id
}

/// A CPU list that may be absent.
pub open spec fn optional_list(value: Option<String>) -> Result<
    Option<Seq<u32>>,
    crate::error::ErrorView,
> {
    match value {
        None => Ok(None),
        Some(list) => match cpuset::parse_list_spec(list@) {
            Ok(cpus) => Ok(Some(cpus)),
            Err(e) => Err(e),
        },
    }
}

fn parse_optional(value: &Option<String>) -> (r: Result<Option<CpuSet>, SysboostError>)
    ensures
        match r {
            Ok(set) => optional_list(*value) == Ok::<
                Option<Seq<u32>>,
                crate::error::ErrorView,
            >(set_view(set)),
            Err(e) => optional_list(*value) == Err::<Option<Seq<u32>>, crate::error::ErrorView>(
                e@,
            ),
        },
{
    match value {
        None => Ok(None),
        Some(list) => match cpuset::parse_cpu_list(list.as_str()) {
            Ok(set) => Ok(Some(set)),
            Err(e) => Err(e),
        },
    }
}

/// The CPUs whose own record says that they are online.
pub open spec fn online_entries(entries: Seq<CpuTopologyEntry>) -> Seq<u32>
    decreases entries.len(),
{
    if entries.len() == 0 {
        Seq::empty()
    } else {
        let before = online_entries(entries.drop_last());
        if entries.last().online {
            before.push(entries.last().cpu)
        } else {
            before
        }
    }
}

/// The online CPUs: those that the kernel lists, else those whose own record
/// says so.
pub open spec fn online_spec(
    declared: Option<Seq<u32>>,
    entries: Seq<CpuTopologyEntry>,
) -> Option<Seq<u32>> {
    match declared {
        Some(online) => Some(online),
        None => if online_entries(entries).len() == 0 {
            None
        } else {
            Some(cpuset::canonical(online_entries(entries)))
        },
    }
}

fn infer_online(declared: Option<CpuSet>, entries: &Vec<CpuTopologyEntry>) -> (r: Option<CpuSet>)
    ensures
        set_view(r) == online_spec(set_view(declared), entries@),
{
    if declared.is_some() {
        return declared;
    }
    let mut ids: Vec<u32> = Vec::new();
    for i in 0..entries.len()
        invariant
            ids@ == online_entries(entries@.take(i as int)),
    {
        assert(entries@.take(i + 1).drop_last() =~= entries@.take(i as int));
        if entries[i].online {
            ids.push(entries[i].cpu);
        }
    }
    assert(entries@.take(entries@.len() as int) =~= entries@);
    match CpuSet::new(ids) {
        Ok(set) => Some(set),
        Err(_) => None,
    }
}

pub open spec fn subset(a: Seq<u32>, b: Seq<u32>) -> bool {
    forall|i: int| 0 <= i < a.len() ==> b.contains(#[trigger] a[i])
}

pub fn is_subset(a: &CpuSet, b: &CpuSet) -> (r: bool)
    ensures
        r == subset(a@, b@),
{
    let ids = a.as_slice();
    for i in 0..ids.len()
        invariant
            ids@ == a@,
            forall|j: int| 0 <= j < i ==> b@.contains(#[trigger] ids@[j]),
    {
        if !b.contains(ids[i]) {
            return false;
        }
    }
    true
}

/// Whether two records describe the same CPU.
pub open spec fn duplicate_entries(entries: Seq<CpuTopologyEntry>) -> bool {
    exists|i: int, j: int|
        0 <= i < j < entries.len() && (#[trigger] entries[i]).cpu == (#[trigger] entries[j]).cpu
}

fn has_duplicates(entries: &Vec<CpuTopologyEntry>) -> (r: bool)
    ensures
        r == duplicate_entries(entries@),
{
    let mut j: usize = 0;
    while j < entries.len()
        invariant
            j <= entries.len(),
            forall|a: int, b: int|
                0 <= a < b < j ==> (#[trigger] entries@[a]).cpu != (#[trigger] entries@[b]).cpu,
        decreases entries.len() - j,
    {
        let mut i: usize = 0;
        while i < j
            invariant
                i <= j < entries.len(),
                forall|a: int| 0 <= a < i ==> (#[trigger] entries@[a]).cpu != entries@[j as int].cpu,
            decreases j - i,
        {
            if entries[i].cpu == entries[j].cpu {
                assert(entries@[i as int].cpu == entries@[j as int].cpu);
                return true;
            }
            i = i + 1;
        }
        j = j + 1;
    }
    false
}

pub open spec fn entry_ids(entries: Seq<CpuTopologyEntry>) -> Seq<u32> {
    entries.map_values(|entry: CpuTopologyEntry| entry.cpu)
}

pub open spec fn or_none(set: Option<Seq<u32>>) -> Seq<u32> {
    match set {
        Some(cpus) => cpus,
        None => Seq::empty(),
    }
}

/// Every CPU that the evidence names, ascending.
pub open spec fn known_ids(
    possible: Option<Seq<u32>>,
    online: Option<Seq<u32>>,
    entries: Seq<CpuTopologyEntry>,
) -> Seq<u32> {
    cpuset::canonical(or_none(possible) + or_none(online) + entry_ids(entries))
}

fn collect_ids(
    possible: &Option<CpuSet>,
    online: &Option<CpuSet>,
    entries: &Vec<CpuTopologyEntry>,
) -> (r: Vec<u32>)
    ensures
        r@ == known_ids(set_view(*possible), set_view(*online), entries@),
{
    let mut ids: Vec<u32> = Vec::new();
    if let Some(set) = possible {
        push_all(&mut ids, set.as_slice());
    }
    assert(ids@ =~= or_none(set_view(*possible)));
    if let Some(set) = online {
        push_all(&mut ids, set.as_slice());
    }
    let ghost lists = or_none(set_view(*possible)) + or_none(set_view(*online));
    assert(ids@ =~= lists);
    for i in 0..entries.len()
        invariant
            ids@ == lists + entry_ids(entries@).take(i as int),
    {
        ids.push(entries[i].cpu);
        assert(ids@ =~= lists + entry_ids(entries@).take(i + 1));
    }
    assert(entry_ids(entries@).take(entries@.len() as int) =~= entry_ids(entries@));
    cpuset::sort_cpus(ids.as_slice())
}

pub fn push_all(out: &mut Vec<u32>, more: &[u32])
    ensures
        final(out)@ == old(out)@ + more@,
{
    for i in 0..more.len()
        invariant
            out@ == old(out)@ + more@.take(i as int),
    {
        out.push(more[i]);
        assert(out@ =~= old(out)@ + more@.take(i + 1));
    }
    assert(more@.take(more@.len() as int) =~= more@);
}

/// NUMA nodes in ascending order with one more node in its place; a node that
/// is there already gets the new CPUs.
pub open spec fn put_node(nodes: Seq<(u32, Seq<u32>)>, id: u32, cpus: Seq<u32>) -> Seq<
    (u32, Seq<u32>),
>
    decreases nodes.len(),
{
    if nodes.len() == 0 {
        seq![(id, cpus)]
    } else if nodes.last().0 == id {
        nodes.drop_last().push((id, cpus))
    } else if nodes.last().0 < id {
        nodes.push((id, cpus))
    } else {
        put_node(nodes.drop_last(), id, cpus).push(nodes.last())
    }
}

/// The NUMA nodes that have a CPU list.
pub open spec fn numa_spec(nodes: Seq<NumaNodeFacts>) -> Result<
    Seq<(u32, Seq<u32>)>,
    crate::error::ErrorView,
>
    decreases nodes.len(),
{
    if nodes.len() == 0 {
        Ok(Seq::empty())
    } else {
        match numa_spec(nodes.drop_last()) {
            Err(e) => Err(e),
            Ok(before) => match nodes.last().cpus {
                None => Ok(before),
                Some(list) => match cpuset::parse_list_spec(list@) {
                    Err(e) => Err(e),
                    Ok(cpus) => Ok(put_node(before, nodes.last().id, cpus)),
                },
            },
        }
    }
}

proof fn lemma_numa_error(nodes: Seq<NumaNodeFacts>, k: int)
    requires
        0 <= k <= nodes.len(),
        numa_spec(nodes.take(k)) is Err,
    ensures
        numa_spec(nodes) == numa_spec(nodes.take(k)),
    decreases nodes.len(),
{
    if k < nodes.len() {
        assert(nodes.drop_last().take(k) =~= nodes.take(k));
        lemma_numa_error(nodes.drop_last(), k);
    } else {
        assert(nodes.take(k) =~= nodes);
    }
}

fn insert_node(nodes: &mut Vec<NumaNode>, id: u32, cpus: CpuSet)
    ensures
        numa_view(final(nodes)@) == put_node(numa_view(old(nodes)@), id, cpus@),
    decreases old(nodes)@.len(),
{
    let ghost before = numa_view(nodes@);
    match nodes.pop() {
        None => {
            nodes.push(NumaNode { id, cpus });
            assert(numa_view(nodes@) =~= seq![(id, cpus@)]);
        },
        Some(last) => {
            assert(numa_view(nodes@) =~= before.drop_last());
            if last.id == id {
                nodes.push(NumaNode { id, cpus });
                assert(numa_view(nodes@) =~= before.drop_last().push((id, cpus@)));
            } else if last.id < id {
                nodes.push(last);
                nodes.push(NumaNode { id, cpus });
                assert(numa_view(nodes@) =~= before.push((id, cpus@)));
            } else {
                insert_node(nodes, id, cpus);
                let ghost middle = numa_view(nodes@);
                nodes.push(last);
                assert(numa_view(nodes@) =~= middle.push((last.id, last.cpus@)));
            }
        },
    }
}

fn normalize_numa(numa: &NumaFacts) -> (r: Result<Vec<NumaNode>, SysboostError>)
    ensures
        match r {
            Ok(nodes) => numa_spec(numa.nodes@) == Ok::<
                Seq<(u32, Seq<u32>)>,
                crate::error::ErrorView,
            >(numa_view(nodes@)),
            Err(e) => numa_spec(numa.nodes@) == Err::<
                Seq<(u32, Seq<u32>)>,
                crate::error::ErrorView,
            >(e@),
        },
{
    let mut nodes: Vec<NumaNode> = Vec::new();
    assert(numa_view(nodes@) =~= Seq::empty());
    for i in 0..numa.nodes.len()
        invariant
            numa_spec(numa.nodes@.take(i as int)) == Ok::<
                Seq<(u32, Seq<u32>)>,
                crate::error::ErrorView,
            >(numa_view(nodes@)),
    {
        assert(numa.nodes@.take(i + 1).drop_last() =~= numa.nodes@.take(i as int));
        match &numa.nodes[i].cpus {
            None => {},
            Some(list) => match cpuset::parse_cpu_list(list.as_str()) {
                Ok(cpus) => {
                    insert_node(&mut nodes, numa.nodes[i].id, cpus);
                },
                Err(e) => {
                    proof {
                        lemma_numa_error(numa.nodes@, i + 1);
                    }
                    return Err(e);
                },
            },
        }
    }
    assert(numa.nodes@.take(numa.nodes@.len() as int) =~= numa.nodes@);
    Ok(nodes)
}

/// Whether two lists name a common CPU.
pub open spec fn shares(a: Seq<u32>, b: Seq<u32>) -> bool {
    exists|cpu: u32| a.contains(cpu) && b.contains(cpu)
}

/// Whether a CPU is in two nodes.
pub open spec fn numa_overlap(nodes: Seq<(u32, Seq<u32>)>) -> bool {
    exists|i: int, j: int| 0 <= i < j < nodes.len() && #[trigger] shares(nodes[i].1, nodes[j].1)
}

fn sets_share(a: &CpuSet, b: &CpuSet) -> (r: bool)
    ensures
        r == shares(a@, b@),
{
    let ids = a.as_slice();
    for k in 0..ids.len()
        invariant
            ids@ == a@,
            forall|m: int| 0 <= m < k ==> !b@.contains(#[trigger] ids@[m]),
    {
        if b.contains(ids[k]) {
            assert(a@.contains(ids@[k as int]));
            return true;
        }
    }
    assert forall|cpu: u32| !(a@.contains(cpu) && b@.contains(cpu)) by {
        if a@.contains(cpu) {
            let m = choose|m: int| 0 <= m < ids@.len() && ids@[m] == cpu;
            assert(!b@.contains(ids@[m]));
        }
    }
    false
}

fn nodes_overlap(nodes: &Vec<NumaNode>) -> (r: bool)
    ensures
        r == numa_overlap(numa_view(nodes@)),
{
    let ghost all = numa_view(nodes@);
    let mut j: usize = 0;
    while j < nodes.len()
        invariant
            j <= nodes.len(),
            all == numa_view(nodes@),
            forall|a: int, b: int| 0 <= a < b < j ==> !#[trigger] shares(all[a].1, all[b].1),
        decreases nodes.len() - j,
    {
        let mut i: usize = 0;
        while i < j
            invariant
                i <= j < nodes.len(),
                all == numa_view(nodes@),
                forall|a: int| 0 <= a < i ==> !#[trigger] shares(all[a].1, all[j as int].1),
            decreases j - i,
        {
            if sets_share(&nodes[i].cpus, &nodes[j].cpus) {
                assert(shares(all[i as int].1, all[j as int].1));
                return true;
            }
            i = i + 1;
        }
        j = j + 1;
    }
    false
}

/// The node of a CPU.
pub open spec fn node_of(nodes: Seq<(u32, Seq<u32>)>, cpu: u32) -> Option<u32>
    decreases nodes.len(),
{
    if nodes.len() == 0 {
        None
    } else if nodes.last().1.contains(cpu) {
        Some(nodes.last().0)
    } else {
        node_of(nodes.drop_last(), cpu)
    }
}

fn find_node(nodes: &Vec<NumaNode>, cpu: u32) -> (r: Option<u32>)
    ensures
        r == node_of(numa_view(nodes@), cpu),
{
    let ghost all = numa_view(nodes@);
    let mut k: usize = nodes.len();
    assert(all.take(k as int) =~= all);
    while k > 0
        invariant
            k <= nodes.len(),
            all == numa_view(nodes@),
            node_of(all, cpu) == node_of(all.take(k as int), cpu),
        decreases k,
    {
        assert(all.take(k as int).drop_last() =~= all.take(k - 1));
        if nodes[k - 1].cpus.contains(cpu) {
            return Some(nodes[k - 1].id);
        }
        k = k - 1;
    }
    None
}

/// The record of a CPU.
pub open spec fn entry_of(entries: Seq<CpuTopologyEntry>, cpu: u32) -> Option<CpuTopologyEntry>
    decreases entries.len(),
{
    if entries.len() == 0 {
        None
    } else if entries.last().cpu == cpu {
        Some(entries.last())
    } else {
        entry_of(entries.drop_last(), cpu)
    }
}

fn find_entry(entries: &Vec<CpuTopologyEntry>, cpu: u32) -> (r: Option<&CpuTopologyEntry>)
    ensures
        match r {
            Some(entry) => entry_of(entries@, cpu) == Some(*entry),
            None => entry_of(entries@, cpu) is None,
        },
{
    let mut k: usize = entries.len();
    assert(entries@.take(k as int) =~= entries@);
    while k > 0
        invariant
            k <= entries.len(),
            entry_of(entries@, cpu) == entry_of(entries@.take(k as int), cpu),
        decreases k,
    {
        assert(entries@.take(k as int).drop_last() =~= entries@.take(k - 1));
        if entries[k - 1].cpu == cpu {
            return Some(&entries[k - 1]);
        }
        k = k - 1;
    }
    None
}

/// The numbers of one list that another names too.
pub open spec fn restrict(list: Seq<u32>, keep: Seq<u32>) -> Seq<u32>
    decreases list.len(),
{
    if list.len() == 0 {
        Seq::empty()
    } else {
        let before = restrict(list.drop_last(), keep);
        if keep.contains(list.last()) {
            before.push(list.last())
        } else {
            before
        }
    }
}

fn restrict_set(list: &CpuSet, keep: &CpuSet) -> (r: Vec<u32>)
    ensures
        r@ == restrict(list@, keep@),
{
    let ids = list.as_slice();
    let mut out: Vec<u32> = Vec::new();
    for i in 0..ids.len()
        invariant
            out@ == restrict(ids@.take(i as int), keep@),
    {
        assert(ids@.take(i + 1).drop_last() =~= ids@.take(i as int));
        if keep.contains(ids[i]) {
            out.push(ids[i]);
        }
    }
    assert(ids@.take(ids@.len() as int) =~= ids@);
    out
}

/// The thread siblings of a CPU: those that its record lists and that are
/// online, or the CPU alone.
pub open spec fn siblings_spec(
    id: u32,
    listed: Option<Seq<u32>>,
    online: Option<Seq<u32>>,
) -> Seq<u32> {
    let kept = match (listed, online) {
        (Some(list), Some(online)) => restrict(list, online),
        (Some(list), None) => list,
        (None, _) => Seq::empty(),
    };
    if kept.len() == 0 {
        seq![id]
    } else {
        cpuset::canonical(kept)
    }
}

/// What the evidence says of one CPU, before its class is known.
pub open spec fn cpu_spec(
    id: u32,
    entry: Option<CpuTopologyEntry>,
    online: Option<Seq<u32>>,
    nodes: Seq<(u32, Seq<u32>)>,
) -> Result<CpuView, crate::error::ErrorView> {
    let text = match entry {
        Some(entry) => entry.thread_siblings,
        None => None,
    };
    match optional_list(text) {
        Err(e) => Err(e),
        Ok(listed) => if listed is Some && !listed->0.contains(id) {
            Err(
                cpuset::list_error(
                    "CPU thread-sibling metadata does not contain its owning CPU"@,
                ),
            )
        } else {
            Ok(
                CpuView {
                    id,
                    package_id: match entry {
                        Some(entry) => entry.package_id,
                        None => None,
                    },
                    core_id: match entry {
                        Some(entry) => entry.core_id,
                        None => None,
                    },
                    thread_siblings: siblings_spec(id, listed, online),
                    capacity: match entry {
                        Some(entry) => if entry.capacity is Some && entry.capacity->0 > 0 {
                            entry.capacity
                        } else {
                            None
                        },
                        None => None,
                    },
                    online: match online {
                        Some(online) => online.contains(id),
                        None => entry is Some && entry->0.online,
                    },
                    numa_node: node_of(nodes, id),
                    performance_class: CpuPerformanceClass::Unknown,
                },
            )
        },
    }
}

fn build_siblings(id: u32, listed: Option<CpuSet>, online: &Option<CpuSet>) -> (r: CpuSet)
    ensures
        r@ == siblings_spec(id, set_view(listed), set_view(*online)),
{
    let mut kept: Vec<u32> = Vec::new();
    match listed {
        None => {},
        Some(list) => match online {
            Some(online) => {
                kept = restrict_set(&list, online);
            },
            None => {
                let ids = list.as_slice();
                proof {
                    cpuset::canonical_of_ascending(list@);
                }
                push_all(&mut kept, ids);
                assert(kept@ =~= list@);
            },
        },
    }
    if kept.len() == 0 {
        kept.push(id);
        assert(kept@ =~= seq![id]);
        proof {
            cpuset::canonical_of_ascending(kept@);
        }
    }
    match CpuSet::new(kept) {
        Ok(set) => set,
        Err(_) => {
            assert(false);
            vstd::pervasive::unreached()
        },
    }
}

fn build_cpu(
    id: u32,
    entry: Option<&CpuTopologyEntry>,
    online: &Option<CpuSet>,
    nodes: &Vec<NumaNode>,
) -> (r: Result<CpuTopologyCpu, SysboostError>)
    ensures
        match r {
            Ok(cpu) => cpu_spec(
                id,
                match entry {
                    Some(entry) => Some(*entry),
                    None => None,
                },
                set_view(*online),
                numa_view(nodes@),
            ) == Ok::<CpuView, crate::error::ErrorView>(cpu@),
            Err(e) => cpu_spec(
                id,
                match entry {
                    Some(entry) => Some(*entry),
                    None => None,
                },
                set_view(*online),
                numa_view(nodes@),
            ) == Err::<CpuView, crate::error::ErrorView>(e@),
        },
{
    let listed = match entry {
        Some(entry) => match parse_optional(&entry.thread_siblings) {
            Ok(listed) => listed,
            Err(e) => return Err(e),
        },
        None => None,
    };
    if let Some(set) = &listed {
        if !set.contains(id) {
            return Err(
                cpuset::topology_error(
                    "CPU thread-sibling metadata does not contain its owning CPU",
                ),
            );
        }
    }
    let is_online = match online {
        Some(online) => online.contains(id),
        None => match entry {
            Some(entry) => entry.online,
            None => false,
        },
    };
    let capacity: Option<u64> = match entry {
        Some(entry) => match entry.capacity {
            Some(value) => if value > 0 {
                Some(value)
            } else {
                None
            },
            None => None,
        },
        None => None,
    };
    Ok(
        CpuTopologyCpu {
            id,
            package_id: match entry {
                Some(entry) => entry.package_id,
                None => None,
            },
            core_id: match entry {
                Some(entry) => entry.core_id,
                None => None,
            },
            thread_siblings: build_siblings(id, listed, online),
            capacity,
            online: is_online,
            numa_node: find_node(nodes, id),
            performance_class: CpuPerformanceClass::Unknown,
        },
    )
}

/// What the evidence says of each CPU; the first refusal decides the error.
pub open spec fn records_spec(
    ids: Seq<u32>,
    entries: Seq<CpuTopologyEntry>,
    online: Option<Seq<u32>>,
    nodes: Seq<(u32, Seq<u32>)>,
) -> Result<Seq<CpuView>, crate::error::ErrorView>
    decreases ids.len(),
{
    if ids.len() == 0 {
        Ok(Seq::empty())
    } else {
        match records_spec(ids.drop_last(), entries, online, nodes) {
            Err(e) => Err(e),
            Ok(before) => match cpu_spec(
                ids.last(),
                entry_of(entries, ids.last()),
                online,
                nodes,
            ) {
                Err(e) => Err(e),
                Ok(cpu) => Ok(before.push(cpu)),
            },
        }
    }
}

proof fn lemma_records_error(
    ids: Seq<u32>,
    entries: Seq<CpuTopologyEntry>,
    online: Option<Seq<u32>>,
    nodes: Seq<(u32, Seq<u32>)>,
    k: int,
)
    requires
        0 <= k <= ids.len(),
        records_spec(ids.take(k), entries, online, nodes) is Err,
    ensures
        records_spec(ids, entries, online, nodes) == records_spec(
            ids.take(k),
            entries,
            online,
            nodes,
        ),
    decreases ids.len(),
{
    if k < ids.len() {
        assert(ids.drop_last().take(k) =~= ids.take(k));
        lemma_records_error(ids.drop_last(), entries, online, nodes, k);
    } else {
        assert(ids.take(k) =~= ids);
    }
}

fn build_records(
    ids: &Vec<u32>,
    entries: &Vec<CpuTopologyEntry>,
    online: &Option<CpuSet>,
    nodes: &Vec<NumaNode>,
) -> (r: Result<Vec<CpuTopologyCpu>, SysboostError>)
    ensures
        match r {
            Ok(cpus) => records_spec(ids@, entries@, set_view(*online), numa_view(nodes@)) == Ok::<
                Seq<CpuView>,
                crate::error::ErrorView,
            >(cpus_view(cpus@)),
            Err(e) => records_spec(ids@, entries@, set_view(*online), numa_view(nodes@)) == Err::<
                Seq<CpuView>,
                crate::error::ErrorView,
            >(e@),
        },
{
    let mut cpus: Vec<CpuTopologyCpu> = Vec::new();
    assert(cpus_view(cpus@) =~= Seq::empty());
    for i in 0..ids.len()
        invariant
            records_spec(ids@.take(i as int), entries@, set_view(*online), numa_view(nodes@))
                == Ok::<Seq<CpuView>, crate::error::ErrorView>(cpus_view(cpus@)),
    {
        assert(ids@.take(i + 1).drop_last() =~= ids@.take(i as int));
        let ghost before = cpus_view(cpus@);
        match build_cpu(ids[i], find_entry(entries, ids[i]), online, nodes) {
            Ok(cpu) => {
                cpus.push(cpu);
                assert(cpus_view(cpus@) =~= before.push(cpu@));
            },
            Err(e) => {
                proof {
                    lemma_records_error(
                        ids@,
                        entries@,
                        set_view(*online),
                        numa_view(nodes@),
                        i + 1,
                    );
                }
                return Err(e);
            },
        }
    }
    assert(ids@.take(ids@.len() as int) =~= ids@);
    Ok(cpus)
}

/// Whether a CPU counts for the classes: it is one of the online CPUs.
pub open spec fn counts(cpus: Seq<CpuView>, online: Seq<u32>, i: int) -> bool {
    0 <= i < cpus.len() && online.contains(cpus[i].id)
}

/// Whether every online CPU has a capacity.
pub open spec fn capacity_known(cpus: Seq<CpuView>, online: Seq<u32>) -> bool {
    forall|i: int| #[trigger] counts(cpus, online, i) ==> cpus[i].capacity is Some
}

/// Whether all online CPUs have the same capacity.
pub open spec fn capacity_uniform(cpus: Seq<CpuView>, online: Seq<u32>) -> bool {
    forall|i: int, j: int| #[trigger]
        counts(cpus, online, i) && #[trigger] counts(cpus, online, j) ==> cpus[i].capacity
            == cpus[j].capacity
}

/// How strongly the capacities prove a difference.
pub open spec fn mode_spec(cpus: Seq<CpuView>, online: Option<Seq<u32>>) -> CpuCapacityMode {
    match online {
        None => CpuCapacityMode::Unknown,
        Some(online) => if !capacity_known(cpus, online) {
            CpuCapacityMode::Unknown
        } else if capacity_uniform(cpus, online) {
            CpuCapacityMode::Homogeneous
        } else {
            CpuCapacityMode::HeterogeneousProven
        },
    }
}

/// Whether no online CPU has more capacity.
pub open spec fn top_capacity(cpus: Seq<CpuView>, online: Seq<u32>, capacity: u64) -> bool {
    forall|i: int| #[trigger] counts(cpus, online, i) ==> cpus[i].capacity->0 <= capacity
}

/// The class of a CPU, given how strongly the capacities prove a difference.
pub open spec fn class_spec(
    cpus: Seq<CpuView>,
    online: Option<Seq<u32>>,
    i: int,
) -> CpuPerformanceClass {
    if mode_spec(cpus, online) != CpuCapacityMode::HeterogeneousProven || !counts(
        cpus,
        online->0,
        i,
    ) {
        cpus[i].performance_class
    } else if top_capacity(cpus, online->0, cpus[i].capacity->0) {
        CpuPerformanceClass::Performance
    } else {
        CpuPerformanceClass::Efficiency
    }
}

/// The CPUs with their classes.
pub open spec fn classified(cpus: Seq<CpuView>, online: Option<Seq<u32>>) -> Seq<CpuView> {
    Seq::new(
        cpus.len(),
        |i: int| CpuView { performance_class: class_spec(cpus, online, i), ..cpus[i] },
    )
}

/// The greatest capacity and whether all are the same; nothing where an online
/// CPU has no capacity or no CPU is online.
fn survey(cpus: &Vec<CpuTopologyCpu>, online: &CpuSet) -> (r: Option<(u64, bool)>)
    ensures
        match r {
            None => !capacity_known(cpus_view(cpus@), online@) || capacity_uniform(
                cpus_view(cpus@),
                online@,
            ) && forall|i: int| !counts(cpus_view(cpus@), online@, i),
            Some((maximum, uniform)) => {
                &&& capacity_known(cpus_view(cpus@), online@)
                &&& uniform == capacity_uniform(cpus_view(cpus@), online@)
                &&& top_capacity(cpus_view(cpus@), online@, maximum)
                &&& exists|i: int| #[trigger]
                    counts(cpus_view(cpus@), online@, i) && cpus_view(cpus@)[i].capacity == Some(
                        maximum,
                    )
            },
        },
{
    let ghost all = cpus_view(cpus@);
    let mut found: Option<(u64, bool)> = None;
    let ghost mut first: int = 0;
    let ghost mut best: int = 0;
    let ghost mut odd: int = 0;
    let mut i: usize = 0;
    while i < cpus.len()
        invariant
            i <= cpus.len(),
            all == cpus_view(cpus@),
            forall|j: int| j < i && #[trigger] counts(all, online@, j) ==> all[j].capacity is Some,
            match found {
                None => forall|j: int| j < i ==> !#[trigger] counts(all, online@, j),
                Some((maximum, uniform)) => {
                    &&& counts(all, online@, first) && first < i
                    &&& counts(all, online@, best) && best < i
                    &&& all[best].capacity == Some(maximum)
                    &&& forall|j: int|
                        j < i && #[trigger] counts(all, online@, j) ==> all[j].capacity->0
                            <= maximum
                    &&& uniform ==> forall|j: int|
                        j < i && #[trigger] counts(all, online@, j) ==> all[j].capacity
                            == all[first].capacity
                    &&& !uniform ==> counts(all, online@, odd) && odd < i && all[odd].capacity
                        != all[best].capacity
                },
            },
        decreases cpus.len() - i,
    {
        let here = online.contains(cpus[i].id);
        assert(all[i as int] == cpus@[i as int]@);
        assert(here == counts(all, online@, i as int));
        if here {
            match cpus[i].capacity {
                None => {
                    assert(counts(all, online@, i as int));
                    return None;
                },
                Some(value) => {
                    found = match found {
                        None => {
                            proof {
                                first = i as int;
                                best = i as int;
                            }
                            Some((value, true))
                        },
                        Some((maximum, uniform)) => {
                            if value > maximum {
                                proof {
                                    odd = best;
                                    best = i as int;
                                }
                                Some((value, false))
                            } else {
                                proof {
                                    if value < maximum {
                                        odd = i as int;
                                    }
                                }
                                Some((maximum, uniform && value == maximum))
                            }
                        },
                    };
                },
            }
        }
        i = i + 1;
    }
    proof {
        if let Some((maximum, uniform)) = found {
            if uniform {
                assert(capacity_uniform(all, online@));
            } else {
                assert(counts(all, online@, odd) && counts(all, online@, best));
                assert(!capacity_uniform(all, online@));
            }
        }
    }
    found
}

fn classify_capacities(cpus: &mut Vec<CpuTopologyCpu>, online: &Option<CpuSet>) -> (r:
    CpuCapacityMode)
    ensures
        r == mode_spec(cpus_view(old(cpus)@), set_view(*online)),
        cpus_view(final(cpus)@) == classified(cpus_view(old(cpus)@), set_view(*online)),
{
    let ghost all = cpus_view(cpus@);
    let ghost on = set_view(*online);
    let set = match online {
        None => {
            assert(all =~= classified(all, on));
            return CpuCapacityMode::Unknown;
        },
        Some(set) => set,
    };
    match survey(cpus, set) {
        None => {
            assert(mode_spec(all, on) != CpuCapacityMode::HeterogeneousProven);
            assert(all =~= classified(all, on));
            if all_known(cpus, set) {
                CpuCapacityMode::Homogeneous
            } else {
                CpuCapacityMode::Unknown
            }
        },
        Some((maximum, uniform)) => {
            if uniform {
                assert(all =~= classified(all, on));
                return CpuCapacityMode::Homogeneous;
            }
            let mut i: usize = 0;
            while i < cpus.len()
                invariant
                    i <= cpus.len(),
                    on == Some(set@),
                    cpus@.len() == all.len(),
                    mode_spec(all, on) == CpuCapacityMode::HeterogeneousProven,
                    capacity_known(all, set@),
                    top_capacity(all, set@, maximum),
                    exists|k: int| #[trigger]
                        counts(all, set@, k) && all[k].capacity == Some(maximum),
                    forall|j: int|
                        0 <= j < cpus@.len() ==> (#[trigger] cpus@[j])@ == if j < i {
                            classified(all, on)[j]
                        } else {
                            all[j]
                        },
                decreases cpus.len() - i,
            {
                let id: u32 = cpus[i].id;
                let capacity: Option<u64> = cpus[i].capacity;
                assert(cpus@[i as int]@ == all[i as int]);
                if set.contains(id) {
                    assert(counts(all, set@, i as int));
                    let class = match capacity {
                        Some(value) => if value == maximum {
                            CpuPerformanceClass::Performance
                        } else {
                            assert(!top_capacity(all, set@, value));
                            CpuPerformanceClass::Efficiency
                        },
                        None => CpuPerformanceClass::Unknown,
                    };
                    cpus[i].performance_class = class;
                }
                i = i + 1;
            }
            assert(cpus_view(cpus@) =~= classified(all, on));
            CpuCapacityMode::HeterogeneousProven
        },
    }
}

fn all_known(cpus: &Vec<CpuTopologyCpu>, online: &CpuSet) -> (r: bool)
    ensures
        r == capacity_known(cpus_view(cpus@), online@),
{
    let ghost all = cpus_view(cpus@);
    let mut i: usize = 0;
    while i < cpus.len()
        invariant
            i <= cpus.len(),
            all == cpus_view(cpus@),
            forall|j: int| j < i && #[trigger] counts(all, online@, j) ==> all[j].capacity is Some,
        decreases cpus.len() - i,
    {
        assert(all[i as int] == cpus@[i as int]@);
        if online.contains(cpus[i].id) && cpus[i].capacity.is_none() {
            assert(counts(all, online@, i as int));
            return false;
        }
        i = i + 1;
    }
    true
}

/// Words of four bytes, one for each CPU.
pub open spec fn id_bytes(ids: Seq<u32>) -> Seq<u8>
    decreases ids.len(),
{
    if ids.len() == 0 {
        Seq::empty()
    } else {
        id_bytes(ids.drop_last()) + bytes::be(ids.last() as nat, 4)
    }
}

/// A set as its length and its CPUs.
pub open spec fn set_bytes(ids: Seq<u32>) -> Seq<u8> {
    bytes::be(ids.len(), 8) + id_bytes(ids)
}

pub open spec fn optional_set_bytes(set: Option<Seq<u32>>) -> Seq<u8> {
    match set {
        Some(ids) => seq![1u8] + set_bytes(ids),
        None => seq![0u8],
    }
}

/// The order of the classes: the most capable first.
pub open spec fn rank_spec(class: CpuPerformanceClass) -> u8 {
    match class {
        CpuPerformanceClass::Performance => 0,
        CpuPerformanceClass::Unknown => 1,
        CpuPerformanceClass::Efficiency => 2,
    }
}

pub open spec fn or_max(value: Option<u32>) -> nat {
    match value {
        Some(n) => n as nat,
        None => u32::MAX as nat,
    }
}

pub open spec fn cpu_bytes(cpu: CpuView) -> Seq<u8> {
    bytes::be(cpu.id as nat, 4) + bytes::be(or_max(cpu.package_id), 4) + bytes::be(
        or_max(cpu.core_id),
        4,
    ) + bytes::be(
        match cpu.capacity {
            Some(n) => n as nat,
            None => 0,
        },
        8,
    ) + seq![if cpu.online { 1u8 } else { 0u8 }, rank_spec(cpu.performance_class)] + set_bytes(
        cpu.thread_siblings,
    ) + bytes::be(or_max(cpu.numa_node), 4)
}

pub open spec fn all_cpu_bytes(cpus: Seq<CpuView>) -> Seq<u8>
    decreases cpus.len(),
{
    if cpus.len() == 0 {
        Seq::empty()
    } else {
        all_cpu_bytes(cpus.drop_last()) + cpu_bytes(cpus.last())
    }
}

pub open spec fn all_node_bytes(nodes: Seq<(u32, Seq<u32>)>) -> Seq<u8>
    decreases nodes.len(),
{
    if nodes.len() == 0 {
        Seq::empty()
    } else {
        all_node_bytes(nodes.drop_last()) + (bytes::be(nodes.last().0 as nat, 4) + set_bytes(
            nodes.last().1,
        ))
    }
}

/// The bytes that a revision is the digest of: everything that planning relies
/// on.
pub open spec fn revision_bytes(
    possible: Option<Seq<u32>>,
    online: Option<Seq<u32>>,
    cpus: Seq<CpuView>,
    nodes: Seq<(u32, Seq<u32>)>,
) -> Seq<u8> {
    optional_set_bytes(possible) + optional_set_bytes(online) + all_cpu_bytes(cpus)
        + all_node_bytes(nodes)
}

pub fn capacity_rank(class: CpuPerformanceClass) -> (r: u8)
    ensures
        r == rank_spec(class),
{
    match class {
        CpuPerformanceClass::Performance => 0,
        CpuPerformanceClass::Unknown => 1,
        CpuPerformanceClass::Efficiency => 2,
    }
}

fn write_set(out: &mut Vec<u8>, set: &CpuSet)
    ensures
        final(out)@ == old(out)@ + set_bytes(set@),
{
    let ids = set.as_slice();
    let ghost start = out@;
    bytes::push_be(out, ids.len() as u128, 8);
    for i in 0..ids.len()
        invariant
            ids@ == set@,
            out@ == start + (bytes::be(ids@.len(), 8) + id_bytes(ids@.take(i as int))),
    {
        assert(ids@.take(i + 1).drop_last() =~= ids@.take(i as int));
        bytes::push_be(out, ids[i] as u128, 4);
        assert(out@ =~= start + (bytes::be(ids@.len(), 8) + id_bytes(ids@.take(i + 1))));
    }
    assert(ids@.take(ids@.len() as int) =~= ids@);
}

fn write_option_set(out: &mut Vec<u8>, set: &Option<CpuSet>)
    ensures
        final(out)@ == old(out)@ + optional_set_bytes(set_view(*set)),
{
    let ghost start = out@;
    match set {
        Some(set) => {
            out.push(1);
            write_set(out, set);
            assert(out@ =~= start + (seq![1u8] + set_bytes(set@)));
        },
        None => {
            out.push(0);
            assert(out@ =~= start + seq![0u8]);
        },
    }
}

fn word_or_max(value: Option<u32>) -> (r: u128)
    ensures
        r == or_max(value),
{
    match value {
        Some(n) => n as u128,
        None => u32::MAX as u128,
    }
}

fn write_cpu(out: &mut Vec<u8>, cpu: &CpuTopologyCpu)
    ensures
        final(out)@ == old(out)@ + cpu_bytes(cpu@),
{
    let ghost start = out@;
    bytes::push_be(out, cpu.id as u128, 4);
    bytes::push_be(out, word_or_max(cpu.package_id), 4);
    bytes::push_be(out, word_or_max(cpu.core_id), 4);
    let capacity: u128 = match cpu.capacity {
        Some(n) => n as u128,
        None => 0,
    };
    bytes::push_be(out, capacity, 8);
    out.push(if cpu.online { 1 } else { 0 });
    out.push(capacity_rank(cpu.performance_class));
    write_set(out, &cpu.thread_siblings);
    bytes::push_be(out, word_or_max(cpu.numa_node), 4);
    assert(out@ =~= start + cpu_bytes(cpu@));
}

fn topology_revision(
    possible: &Option<CpuSet>,
    online: &Option<CpuSet>,
    cpus: &Vec<CpuTopologyCpu>,
    nodes: &Vec<NumaNode>,
) -> (r: TopologyRevision)
    ensures
        r.bytes@ == bytes::digest_spec(
            revision_bytes(
                set_view(*possible),
                set_view(*online),
                cpus_view(cpus@),
                numa_view(nodes@),
            ),
        ),
{
    let mut out: Vec<u8> = Vec::new();
    write_option_set(&mut out, possible);
    write_option_set(&mut out, online);
    let ghost sets = optional_set_bytes(set_view(*possible)) + optional_set_bytes(
        set_view(*online),
    );
    assert(out@ =~= sets);
    let ghost records = cpus_view(cpus@);
    assert(out@ =~= sets + all_cpu_bytes(records.take(0)));
    for i in 0..cpus.len()
        invariant
            records == cpus_view(cpus@),
            out@ == sets + all_cpu_bytes(records.take(i as int)),
    {
        assert(records.take(i + 1).drop_last() =~= records.take(i as int));
        write_cpu(&mut out, &cpus[i]);
        assert(out@ =~= sets + all_cpu_bytes(records.take(i + 1)));
    }
    assert(records.take(records.len() as int) =~= records);
    let ghost all = numa_view(nodes@);
    let ghost front = sets + all_cpu_bytes(records);
    assert(out@ =~= front + all_node_bytes(all.take(0)));
    for i in 0..nodes.len()
        invariant
            all == numa_view(nodes@),
            out@ == front + all_node_bytes(all.take(i as int)),
    {
        assert(all.take(i + 1).drop_last() =~= all.take(i as int));
        bytes::push_be(&mut out, nodes[i].id as u128, 4);
        write_set(&mut out, &nodes[i].cpus);
        assert(out@ =~= front + all_node_bytes(all.take(i + 1)));
    }
    assert(all.take(all.len() as int) =~= all);
    TopologyRevision { bytes: bytes::stable_digest(out.as_slice()) }
}

/// The topology that discovery facts describe.
pub open spec fn from_facts_spec(facts: CpuTopologyFacts, numa: NumaFacts) -> Result<
    TopologyView,
    crate::error::ErrorView,
> {
    match (optional_list(facts.possible), optional_list(facts.online)) {
        (Err(e), _) => Err(e),
        (Ok(_), Err(e)) => Err(e),
        (Ok(possible), Ok(declared)) => {
            let online = online_spec(declared, facts.entries@);
            let ids = known_ids(possible, online, facts.entries@);
            if possible is Some && online is Some && !subset(online->0, possible->0) {
                Err(
                    cpuset::list_error(
                        "online CPU list contains a CPU outside the possible CPU list"@,
                    ),
                )
            } else if duplicate_entries(facts.entries@) {
                Err(cpuset::list_error("CPU topology contains duplicate logical CPU IDs"@))
            } else if ids.len() == 0 {
                Err(
                    cpuset::list_error(
                        "CPU topology exposes neither possible CPUs nor topology entries"@,
                    ),
                )
            } else {
                match numa_spec(numa.nodes@) {
                    Err(e) => Err(e),
                    Ok(nodes) => if numa_overlap(nodes) {
                        Err(
                            cpuset::list_error(
                                "NUMA facts assign one CPU to multiple NUMA nodes"@,
                            ),
                        )
                    } else {
                        match records_spec(ids, facts.entries@, online, nodes) {
                            Err(e) => Err(e),
                            Ok(records) => {
                                let cpus = classified(records, online);
                                Ok(
                                    TopologyView {
                                        possible,
                                        online,
                                        cpus,
                                        numa: nodes,
                                        capacity_mode: mode_spec(records, online),
                                        revision: bytes::digest_spec(
                                            revision_bytes(possible, online, cpus, nodes),
                                        ),
                                    },
                                )
                            },
                        }
                    },
                }
            }
        },
    }
}

proof fn lemma_records_ids(
    ids: Seq<u32>,
    entries: Seq<CpuTopologyEntry>,
    online: Option<Seq<u32>>,
    nodes: Seq<(u32, Seq<u32>)>,
)
    ensures
        records_spec(ids, entries, online, nodes) matches Ok(records) ==> {
            &&& records.len() == ids.len()
            &&& forall|i: int| 0 <= i < ids.len() ==> (#[trigger] records[i]).id == ids[i]
        },
    decreases ids.len(),
{
    if ids.len() > 0 {
        lemma_records_ids(ids.drop_last(), entries, online, nodes);
    }
}

/// Topologies made of facts are in normal form.
pub proof fn from_facts_well_formed(facts: CpuTopologyFacts, numa: NumaFacts)
    ensures
        from_facts_spec(facts, numa) matches Ok(t) ==> topology_wf(t),
{
    if let Ok(t) = from_facts_spec(facts, numa) {
        let entries = facts.entries@;
        let ids = known_ids(t.possible, t.online, entries);
        let named = or_none(t.possible) + or_none(t.online) + entry_ids(entries);
        cpuset::canonical_is_sorted_set(named);
        lemma_records_ids(ids, entries, t.online, t.numa);
        let records = records_spec(ids, entries, t.online, t.numa)->Ok_0;
        assert forall|i: int| 0 <= i < t.cpus.len() implies (#[trigger] t.cpus[i]).id == ids[i] by {
            assert(t.cpus[i].id == records[i].id);
        }
        if let Some(online) = t.online {
            cpuset::canonical_is_sorted_set(online_entries(entries));
            if let Some(list) = facts.online {
                lemma_parsed_is_set(list@);
            }
            assert forall|cpu: u32| #[trigger] online.contains(cpu) implies has_cpu(
                t.cpus,
                cpu,
            ) by {
                let k = choose|k: int| 0 <= k < online.len() && online[k] == cpu;
                assert(named[or_none(t.possible).len() + k] == cpu);
                assert(named.contains(cpu));
                assert(ids.contains(cpu));
                let i = choose|i: int| 0 <= i < ids.len() && ids[i] == cpu;
                assert(t.cpus[i].id == cpu);
            }
        }
    }
}

proof fn lemma_parsed_is_set(value: Seq<char>)
    ensures
        cpuset::parse_list_spec(value) matches Ok(cpus) ==> cpuset::ascending(cpus) && cpus.len()
            > 0,
{
    if let Ok(cpus) = cpuset::parse_list_spec(value) {
        let parts = crate::text::split_spec(crate::text::trim_spec(value), ',');
        cpuset::lemma_members_some(parts);
        crate::text::lemma_split_some(crate::text::trim_spec(value), ',');
        cpuset::canonical_is_sorted_set(cpuset::members_spec(parts)->Ok_0);
    }
}

impl CpuTopology {
    #[verifier::type_invariant]
    spec fn inv(self) -> bool {
        topology_wf(self@)
    }

    /// Brings discovery facts and NUMA facts into normal form.
    ///
    /// Capacity differences are derived from the CPUs themselves, not from a
    /// summary. A CPU without a record of its own has no known capacity.
    pub fn from_facts(facts: &CpuTopologyFacts, numa: &NumaFacts) -> (r: Result<
        CpuTopology,
        SysboostError,
    >)
        ensures
            match r {
                Ok(topology) => from_facts_spec(*facts, *numa) == Ok::<
                    TopologyView,
                    crate::error::ErrorView,
                >(topology@),
                Err(e) => from_facts_spec(*facts, *numa) == Err::<
                    TopologyView,
                    crate::error::ErrorView,
                >(e@),
            },
    {
        let possible = match parse_optional(&facts.possible) {
            Ok(set) => set,
            Err(e) => return Err(e),
        };
        let declared = match parse_optional(&facts.online) {
            Ok(set) => set,
            Err(e) => return Err(e),
        };
        let online = infer_online(declared, &facts.entries);
        if let (Some(possible), Some(online)) = (&possible, &online) {
            if !is_subset(online, possible) {
                return Err(
                    cpuset::topology_error(
                        "online CPU list contains a CPU outside the possible CPU list",
                    ),
                );
            }
        }
        if has_duplicates(&facts.entries) {
            return Err(
                cpuset::topology_error("CPU topology contains duplicate logical CPU IDs"),
            );
        }
        let ids = collect_ids(&possible, &online, &facts.entries);
        if ids.len() == 0 {
            return Err(
                cpuset::topology_error(
                    "CPU topology exposes neither possible CPUs nor topology entries",
                ),
            );
        }
        let nodes = match normalize_numa(numa) {
            Ok(nodes) => nodes,
            Err(e) => return Err(e),
        };
        if nodes_overlap(&nodes) {
            return Err(
                cpuset::topology_error("NUMA facts assign one CPU to multiple NUMA nodes"),
            );
        }
        let mut cpus = match build_records(&ids, &facts.entries, &online, &nodes) {
            Ok(cpus) => cpus,
            Err(e) => return Err(e),
        };
        let capacity_mode = classify_capacities(&mut cpus, &online);
        let revision = topology_revision(&possible, &online, &cpus, &nodes);
        proof {
            from_facts_well_formed(*facts, *numa);
        }
        Ok(CpuTopology { possible, online, cpus, numa_nodes: nodes, capacity_mode, revision })
    }

    /// The possible CPUs, when the kernel exposed them.
    pub fn possible(&self) -> (r: Option<&CpuSet>)
        ensures
            match r {
                Some(set) => self@.possible == Some(set@),
                None => self@.possible is None,
            },
    {
        self.possible.as_ref()
    }

    /// The online CPUs, when they are known.
    pub fn online(&self) -> (r: Option<&CpuSet>)
        ensures
            match r {
                Some(set) => self@.online == Some(set@),
                None => self@.online is None,
            },
            topology_wf(self@),
    {
        proof {
            use_type_invariant(self);
        }
        self.online.as_ref()
    }

    /// The online CPUs, when they are known.
    pub fn online_cpus(&self) -> (r: Option<&CpuSet>)
        ensures
            match r {
                Some(set) => self@.online == Some(set@),
                None => self@.online is None,
            },
    {
        self.online()
    }

    /// Whether the online CPUs are known.
    pub fn online_is_known(&self) -> (r: bool)
        ensures
            r == self@.online is Some,
    {
        self.online.is_some()
    }

    /// All CPUs, the offline ones too, in ascending order.
    pub fn cpus(&self) -> (r: &[CpuTopologyCpu])
        ensures
            cpus_view(r@) == self@.cpus,
    {
        self.cpus.as_slice()
    }

    /// One CPU.
    pub fn cpu(&self, id: u32) -> (r: Option<&CpuTopologyCpu>)
        ensures
            match r {
                Some(cpu) => cpu@.id == id && self@.cpus.contains(cpu@),
                None => !has_cpu(self@.cpus, id),
            },
    {
        for i in 0..self.cpus.len()
            invariant
                forall|j: int| 0 <= j < i ==> (#[trigger] self.cpus@[j]).id != id,
        {
            if self.cpus[i].id == id {
                assert(self@.cpus[i as int] == self.cpus@[i as int]@);
                return Some(&self.cpus[i]);
            }
        }
        None
    }

    /// The NUMA nodes in ascending order.
    pub fn numa_nodes(&self) -> (r: &[NumaNode])
        ensures
            numa_view(r@) == self@.numa,
    {
        self.numa_nodes.as_slice()
    }

    /// How strongly the kernel proved capacity differences.
    pub fn capacity_mode(&self) -> (r: CpuCapacityMode)
        ensures
            r == self@.capacity_mode,
    {
        self.capacity_mode
    }

    /// How strongly the kernel proved capacity differences.
    pub fn capacity_classification(&self) -> (r: CpuCapacityMode)
        ensures
            r == self@.capacity_mode,
    {
        self.capacity_mode
    }

    /// The revision of the evidence.
    pub fn revision(&self) -> (r: TopologyRevision)
        ensures
            r.bytes@ == self@.revision,
    {
        self.revision
    }
}

proof fn lemma_records_each(
    ids: Seq<u32>,
    entries: Seq<CpuTopologyEntry>,
    online: Option<Seq<u32>>,
    nodes: Seq<(u32, Seq<u32>)>,
    i: int,
)
    requires
        records_spec(ids, entries, online, nodes) is Ok,
        0 <= i < ids.len(),
    ensures
        records_spec(ids, entries, online, nodes)->Ok_0.len() == ids.len(),
        cpu_spec(ids[i], entry_of(entries, ids[i]), online, nodes) == Ok::<
            CpuView,
            crate::error::ErrorView,
        >(records_spec(ids, entries, online, nodes)->Ok_0[i]),
    decreases ids.len(),
{
    lemma_records_ids(ids, entries, online, nodes);
    if i < ids.len() - 1 {
        lemma_records_each(ids.drop_last(), entries, online, nodes, i);
    } else if ids.len() > 1 {
        lemma_records_ids(ids.drop_last(), entries, online, nodes);
    }
}

proof fn lemma_entry_of(entries: Seq<CpuTopologyEntry>, k: int)
    requires
        0 <= k < entries.len(),
        !duplicate_entries(entries),
    ensures
        entry_of(entries, entries[k].cpu) == Some(entries[k]),
    decreases entries.len(),
{
    let rest = entries.drop_last();
    if k < rest.len() {
        assert(entries[k].cpu != entries[entries.len() - 1].cpu);
        assert(!duplicate_entries(rest)) by {
            assert forall|i: int, j: int| 0 <= i < j < rest.len() implies (
            #[trigger] rest[i]).cpu != (#[trigger] rest[j]).cpu by {
                assert(entries[i].cpu != entries[j].cpu);
            }
        }
        lemma_entry_of(rest, k);
    }
}

proof fn lemma_node_of(nodes: Seq<(u32, Seq<u32>)>, cpu: u32)
    ensures
        match node_of(nodes, cpu) {
            Some(id) => exists|k: int|
                0 <= k < nodes.len() && (#[trigger] nodes[k]).0 == id && nodes[k].1.contains(cpu),
            None => forall|k: int|
                0 <= k < nodes.len() ==> !(#[trigger] nodes[k]).1.contains(cpu),
        },
    decreases nodes.len(),
{
    if nodes.len() > 0 {
        let rest = nodes.drop_last();
        if nodes.last().1.contains(cpu) {
            assert(nodes[nodes.len() - 1].1.contains(cpu));
        } else {
            lemma_node_of(rest, cpu);
            assert forall|k: int| 0 <= k < rest.len() implies (#[trigger] nodes[k]) == rest[k] by {}
            if let Some(id) = node_of(rest, cpu) {
                let k = choose|k: int|
                    0 <= k < rest.len() && (#[trigger] rest[k]).0 == id && rest[k].1.contains(cpu);
                assert(nodes[k].0 == id && nodes[k].1.contains(cpu));
            }
        }
    }
}

/// What a topology says of a CPU is what was found of it: its package, its core and
/// its capacity, unless that is zero. It is online where the list of online CPUs
/// names it, and belongs to the memory node that lists it.
pub proof fn cpus_are_what_was_found(facts: CpuTopologyFacts, numa: NumaFacts, i: int, k: int)
    requires
        from_facts_spec(facts, numa) is Ok,
        0 <= i < from_facts_spec(facts, numa)->Ok_0.cpus.len(),
    ensures
        ({
            let t = from_facts_spec(facts, numa)->Ok_0;
            let cpu = t.cpus[i];
            &&& 0 <= k < facts.entries@.len() && facts.entries@[k].cpu == cpu.id ==> {
                let entry = facts.entries@[k];
                &&& cpu.package_id == entry.package_id
                &&& cpu.core_id == entry.core_id
                &&& entry.capacity is Some && entry.capacity->0 > 0 ==> cpu.capacity
                    == entry.capacity
                &&& entry.capacity is None || entry.capacity->0 == 0 ==> cpu.capacity is None
            }
            &&& t.online is Some ==> (cpu.online <==> t.online->0.contains(cpu.id))
            &&& match cpu.numa_node {
                Some(id) => exists|n: int|
                    0 <= n < t.numa.len() && (#[trigger] t.numa[n]).0 == id && t.numa[n].1.contains(
                        cpu.id,
                    ),
                None => forall|n: int|
                    0 <= n < t.numa.len() ==> !(#[trigger] t.numa[n]).1.contains(cpu.id),
            }
        }),
{
    let t = from_facts_spec(facts, numa)->Ok_0;
    let entries = facts.entries@;
    let ids = known_ids(t.possible, t.online, entries);
    let records = records_spec(ids, entries, t.online, t.numa)->Ok_0;
    lemma_records_ids(ids, entries, t.online, t.numa);
    lemma_records_each(ids, entries, t.online, t.numa, i);
    assert(t.cpus[i] == (CpuView {
        performance_class: class_spec(records, t.online, i),
        ..records[i]
    }));
    lemma_node_of(t.numa, ids[i]);
    if 0 <= k < entries.len() && entries[k].cpu == t.cpus[i].id {
        lemma_entry_of(entries, k);
    }
}

/// A CPU is called fast only where no online CPU has more capacity and slow only
/// where some online CPU has more, and CPUs are told apart so only where every
/// online CPU has a capacity and two of them differ. Fast CPUs rank before CPUs of
/// which nothing is known, and these before slow ones.
pub proof fn classes_are_told_by_capacity(facts: CpuTopologyFacts, numa: NumaFacts, i: int, j: int)
    requires
        from_facts_spec(facts, numa) is Ok,
        0 <= i < from_facts_spec(facts, numa)->Ok_0.cpus.len(),
        0 <= j < from_facts_spec(facts, numa)->Ok_0.cpus.len(),
        from_facts_spec(facts, numa)->Ok_0.cpus[i].online,
        from_facts_spec(facts, numa)->Ok_0.cpus[j].online,
        from_facts_spec(facts, numa)->Ok_0.online is Some,
    ensures
        ({
            let t = from_facts_spec(facts, numa)->Ok_0;
            let one = t.cpus[i];
            let other = t.cpus[j];
            &&& one.performance_class == CpuPerformanceClass::Performance ==> {
                &&& one.capacity is Some && other.capacity is Some
                &&& other.capacity->0 <= one.capacity->0
            }
            &&& one.performance_class == CpuPerformanceClass::Efficiency ==> one.capacity is Some
                && exists|k: int|
                0 <= k < t.cpus.len() && (#[trigger] t.cpus[k]).online && t.cpus[k].capacity is Some
                    && t.cpus[k].capacity->0 > one.capacity->0
            &&& one.capacity is Some && other.capacity is Some && one.capacity->0
                < other.capacity->0 ==> one.performance_class != CpuPerformanceClass::Performance
            &&& t.capacity_mode == CpuCapacityMode::HeterogeneousProven ==> one.capacity is Some
                && one.performance_class != CpuPerformanceClass::Unknown
            &&& t.capacity_mode != CpuCapacityMode::HeterogeneousProven ==> one.performance_class
                == CpuPerformanceClass::Unknown
            &&& t.capacity_mode == CpuCapacityMode::Homogeneous ==> one.capacity is Some
                && one.capacity == other.capacity
            &&& one.capacity is None ==> t.capacity_mode == CpuCapacityMode::Unknown
        }),
        rank_spec(CpuPerformanceClass::Performance) < rank_spec(CpuPerformanceClass::Unknown),
        rank_spec(CpuPerformanceClass::Unknown) < rank_spec(CpuPerformanceClass::Efficiency),
{
    let t = from_facts_spec(facts, numa)->Ok_0;
    let entries = facts.entries@;
    let online = t.online->0;
    let ids = known_ids(t.possible, t.online, entries);
    let records = records_spec(ids, entries, t.online, t.numa)->Ok_0;
    lemma_records_ids(ids, entries, t.online, t.numa);
    assert forall|n: int| 0 <= n < t.cpus.len() implies {
        &&& (#[trigger] t.cpus[n]).online == counts(records, online, n)
        &&& t.cpus[n].capacity == records[n].capacity
        &&& t.cpus[n].performance_class == class_spec(records, t.online, n)
        &&& records[n].performance_class == CpuPerformanceClass::Unknown
    } by {
        lemma_records_each(ids, entries, t.online, t.numa, n);
    }
    assert(counts(records, online, i) && counts(records, online, j));
    if t.cpus[i].performance_class == CpuPerformanceClass::Efficiency {
        assert(!top_capacity(records, online, records[i].capacity->0));
        let k = choose|k: int| #[trigger]
            counts(records, online, k) && !(records[k].capacity->0 <= records[i].capacity->0);
        assert(t.cpus[k].online);
    }
}

/// Capacities are said to be the same, or proven to differ, only where they are: a
/// host with two online CPUs of different capacity is never taken for one of equal
/// CPUs.
pub proof fn differing_capacities_are_noticed(
    facts: CpuTopologyFacts,
    numa: NumaFacts,
    i: int,
    j: int,
)
    requires
        from_facts_spec(facts, numa) is Ok,
        0 <= i < from_facts_spec(facts, numa)->Ok_0.cpus.len(),
        0 <= j < from_facts_spec(facts, numa)->Ok_0.cpus.len(),
        from_facts_spec(facts, numa)->Ok_0.cpus[i].online,
        from_facts_spec(facts, numa)->Ok_0.cpus[j].online,
        from_facts_spec(facts, numa)->Ok_0.online is Some,
        from_facts_spec(facts, numa)->Ok_0.cpus[i].capacity
            != from_facts_spec(facts, numa)->Ok_0.cpus[j].capacity,
        forall|n: int|
            0 <= n < from_facts_spec(facts, numa)->Ok_0.cpus.len() ==> (
            #[trigger] from_facts_spec(facts, numa)->Ok_0.cpus[n]).capacity is Some,
    ensures
        from_facts_spec(facts, numa)->Ok_0.capacity_mode == CpuCapacityMode::HeterogeneousProven,
{
    let t = from_facts_spec(facts, numa)->Ok_0;
    let entries = facts.entries@;
    let online = t.online->0;
    let ids = known_ids(t.possible, t.online, entries);
    let records = records_spec(ids, entries, t.online, t.numa)->Ok_0;
    lemma_records_ids(ids, entries, t.online, t.numa);
    assert forall|n: int| 0 <= n < t.cpus.len() implies {
        &&& (#[trigger] t.cpus[n]).online == counts(records, online, n)
        &&& t.cpus[n].capacity == records[n].capacity
    } by {
        lemma_records_each(ids, entries, t.online, t.numa, n);
    }
    assert(counts(records, online, i) && counts(records, online, j));
    assert(capacity_known(records, online)) by {
        assert forall|n: int| #[trigger] counts(records, online, n) implies records[n].capacity
            is Some by {
            assert(t.cpus[n].capacity is Some);
        }
    }
}

} // verus!
