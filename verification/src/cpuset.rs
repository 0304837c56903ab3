//! Sets of logical CPUs, their text form and their affinity masks.

use vstd::prelude::*;

use crate::error::{ErrorCode, Stage, SysboostError};
use crate::text;

verus! {

/// The most CPUs that a list may name.
pub const CPUSET_CAPACITY_LIMIT: usize = 1_048_576;

/// Each number stands before the next.
pub open spec fn ascending(s: Seq<u32>) -> bool {
    forall|i: int, j: int| 0 <= i < j < s.len() ==> #[trigger] s[i] < #[trigger] s[j]
}

/// An ascending list with one more number in its place.
pub open spec fn insert_cpu(sorted: Seq<u32>, x: u32) -> Seq<u32>
    decreases sorted.len(),
{
    if sorted.len() == 0 {
        seq![x]
    } else if sorted.last() == x {
        sorted
    } else if sorted.last() < x {
        sorted.push(x)
    } else {
        insert_cpu(sorted.drop_last(), x).push(sorted.last())
    }
}

/// The distinct numbers of a list, ascending.
pub open spec fn canonical(s: Seq<u32>) -> Seq<u32>
    decreases s.len(),
{
    if s.len() == 0 {
        Seq::empty()
    } else {
        insert_cpu(canonical(s.drop_last()), s.last())
    }
}

proof fn lemma_insert_cpu(sorted: Seq<u32>, x: u32)
    requires
        ascending(sorted),
    ensures
        ascending(insert_cpu(sorted, x)),
        forall|y: u32| #[trigger]
            insert_cpu(sorted, x).contains(y) <==> sorted.contains(y) || y == x,
        insert_cpu(sorted, x).len() >= 1,
        insert_cpu(sorted, x).len() <= sorted.len() + 1,
        insert_cpu(sorted, x).len() >= sorted.len(),
    decreases sorted.len(),
{
    let r = insert_cpu(sorted, x);
    if sorted.len() == 0 {
        assert(r =~= seq![x]);
        assert(r[0] == x);
    } else if sorted.last() == x {
        assert(sorted[sorted.len() - 1] == x);
    } else if sorted.last() < x {
        assert forall|y: u32| #[trigger] r.contains(y) <==> sorted.contains(y) || y == x by {
            if sorted.contains(y) {
                let i = choose|i: int| 0 <= i < sorted.len() && sorted[i] == y;
                assert(r[i] == y);
            }
            if y == x {
                assert(r[r.len() - 1] == y);
            }
        }
    } else {
        let before = sorted.drop_last();
        let inner = insert_cpu(before, x);
        lemma_insert_cpu(before, x);
        assert forall|i: int, j: int| 0 <= i < j < r.len() implies #[trigger] r[i]
            < #[trigger] r[j] by {
            if j == r.len() - 1 {
                assert(inner.contains(inner[i]));
                if before.contains(inner[i]) {
                    let k = choose|k: int| 0 <= k < before.len() && before[k] == inner[i];
                    assert(sorted[k] < sorted[sorted.len() - 1]);
                }
            }
        }
        assert forall|y: u32| #[trigger] r.contains(y) <==> sorted.contains(y) || y == x by {
            if r.contains(y) {
                let i = choose|i: int| 0 <= i < r.len() && r[i] == y;
                if i < inner.len() {
                    assert(inner[i] == y);
                    assert(inner.contains(y));
                    if before.contains(y) {
                        let k = choose|k: int| 0 <= k < before.len() && before[k] == y;
                        assert(sorted[k] == y);
                    }
                } else {
                    assert(sorted[sorted.len() - 1] == y);
                }
            }
            if sorted.contains(y) {
                let k = choose|k: int| 0 <= k < sorted.len() && sorted[k] == y;
                if k < before.len() {
                    assert(before[k] == y);
                    assert(inner.contains(y));
                    let i = choose|i: int| 0 <= i < inner.len() && inner[i] == y;
                    assert(r[i] == y);
                } else {
                    assert(r[r.len() - 1] == y);
                }
            }
            if y == x {
                assert(inner.contains(y));
                let i = choose|i: int| 0 <= i < inner.len() && inner[i] == y;
                assert(r[i] == y);
            }
        }
    }
}

/// The canonical list is ascending and names the same CPUs.
pub proof fn canonical_is_sorted_set(s: Seq<u32>)
    ensures
        ascending(canonical(s)),
        forall|y: u32| #[trigger] canonical(s).contains(y) <==> s.contains(y),
        canonical(s).len() <= s.len(),
        s.len() > 0 ==> canonical(s).len() > 0,
    decreases s.len(),
{
    if s.len() > 0 {
        let before = s.drop_last();
        canonical_is_sorted_set(before);
        lemma_insert_cpu(canonical(before), s.last());
        assert forall|y: u32| #[trigger] canonical(s).contains(y) <==> s.contains(y) by {
            if s.contains(y) {
                let i = choose|i: int| 0 <= i < s.len() && s[i] == y;
                if i < before.len() {
                    assert(before[i] == y);
                }
            }
            if before.contains(y) {
                let i = choose|i: int| 0 <= i < before.len() && before[i] == y;
                assert(s[i] == y);
            }
            if y == s.last() {
                assert(s[s.len() - 1] == y);
            }
        }
    }
}

/// Two ascending lists of the same CPUs are the same list.
pub proof fn ascending_unique(a: Seq<u32>, b: Seq<u32>)
    requires
        ascending(a),
        ascending(b),
        forall|y: u32| a.contains(y) <==> b.contains(y),
    ensures
        a == b,
    decreases a.len(),
{
    if a.len() == 0 {
        if b.len() > 0 {
            assert(b.contains(b[0]));
            assert(a.contains(b[0]));
        }
        assert(a =~= b);
    } else {
        assert(a.contains(a.last()));
        assert(b.contains(a.last()));
        let i = choose|i: int| 0 <= i < b.len() && b[i] == a.last();
        assert(b.contains(b.last()));
        assert(a.contains(b.last()));
        let j = choose|j: int| 0 <= j < a.len() && a[j] == b.last();
        assert(a.last() == b.last());
        let x = a.drop_last();
        let y = b.drop_last();
        assert forall|v: u32| x.contains(v) <==> y.contains(v) by {
            if x.contains(v) {
                let k = choose|k: int| 0 <= k < x.len() && x[k] == v;
                assert(a[k] == v);
                assert(b.contains(v));
                let m = choose|m: int| 0 <= m < b.len() && b[m] == v;
                assert(a[k] < a[a.len() - 1]);
                assert(y[m] == v);
            }
            if y.contains(v) {
                let k = choose|k: int| 0 <= k < y.len() && y[k] == v;
                assert(b[k] == v);
                assert(a.contains(v));
                let m = choose|m: int| 0 <= m < a.len() && a[m] == v;
                assert(b[k] < b[b.len() - 1]);
                assert(x[m] == v);
            }
        }
        ascending_unique(x, y);
        assert(a =~= x.push(a.last()));
        assert(b =~= y.push(b.last()));
    }
}

/// An ascending list is its own canonical list.
pub proof fn canonical_of_ascending(s: Seq<u32>)
    requires
        ascending(s),
    ensures
        canonical(s) == s,
{
    canonical_is_sorted_set(s);
    assert forall|y: u32| canonical(s).contains(y) <==> s.contains(y) by {}
    ascending_unique(canonical(s), s);
}

/// A non-empty set of logical CPUs, held in ascending order.
#[derive(Debug, PartialEq, Eq)]
pub struct CpuSet {
    ids: Vec<u32>,
}

impl View for CpuSet {
    type V = Seq<u32>;

    closed spec fn view(&self) -> Seq<u32> {
        self.ids@
    }
}

/// What an empty CPU set is refused with.
pub open spec fn empty_set() -> crate::error::ErrorView {
    crate::error::error_view(ErrorCode::InvalidInput, "CPU set must not be empty"@)
}

impl CpuSet {
    #[verifier::type_invariant]
    spec fn inv(self) -> bool {
        ascending(self.ids@) && self.ids@.len() > 0
    }

    /// The set of the given CPUs, in whatever order and however often they are
    /// named.
    pub fn new(ids: Vec<u32>) -> (r: Result<CpuSet, SysboostError>)
        ensures
            match r {
                Ok(set) => ids@.len() > 0 && set@ == canonical(ids@),
                Err(e) => ids@.len() == 0 && e@ == empty_set(),
            },
    {
        if ids.len() == 0 {
            return Err(SysboostError::new(ErrorCode::InvalidInput, "CPU set must not be empty"));
        }
        let sorted = sort_cpus(ids.as_slice());
        proof {
            canonical_is_sorted_set(ids@);
        }
        Ok(CpuSet { ids: sorted })
    }

    /// The CPUs in ascending order.
    pub fn as_slice(&self) -> (r: &[u32])
        ensures
            r@ == self@,
            ascending(self@),
            self@.len() > 0,
    {
        proof {
            use_type_invariant(self);
        }
        self.ids.as_slice()
    }

    pub fn len(&self) -> (r: usize)
        ensures
            r == self@.len(),
            r > 0,
    {
        proof {
            use_type_invariant(self);
        }
        self.ids.len()
    }

    /// Whether a CPU is in the set.
    pub fn contains(&self, cpu: u32) -> (r: bool)
        ensures
            r == self@.contains(cpu),
    {
        member(self.ids.as_slice(), cpu)
    }

    /// Whether two sets are the same.
    pub fn same(&self, other: &CpuSet) -> (r: bool)
        ensures
            r == (self@ == other@),
    {
        if self.ids.len() != other.ids.len() {
            return false;
        }
        for i in 0..self.ids.len()
            invariant
                self.ids.len() == other.ids.len(),
                forall|j: int| 0 <= j < i ==> self.ids@[j] == other.ids@[j],
        {
            if self.ids[i] != other.ids[i] {
                return false;
            }
        }
        assert(self.ids@ =~= other.ids@);
        true
    }
}

impl Clone for CpuSet {
    fn clone(&self) -> (r: CpuSet)
        ensures
            r@ == self@,
    {
        proof {
            use_type_invariant(self);
        }
        let ids = self.ids.clone();
        assert(ids@ =~= self.ids@);
        CpuSet { ids }
    }
}

/// Whether a list names a CPU.
pub fn member(ids: &[u32], cpu: u32) -> (r: bool)
    ensures
        r == ids@.contains(cpu),
{
    for i in 0..ids.len()
        invariant
            forall|j: int| 0 <= j < i ==> ids@[j] != cpu,
    {
        if ids[i] == cpu {
            assert(ids@[i as int] == cpu);
            return true;
        }
    }
    false
}

proof fn lemma_insert_at(sorted: Seq<u32>, x: u32, k: int)
    requires
        0 <= k <= sorted.len(),
        ascending(sorted),
        k > 0 ==> sorted[k - 1] < x,
        k < sorted.len() ==> x < sorted[k],
    ensures
        insert_cpu(sorted, x) == sorted.insert(k, x),
    decreases sorted.len(),
{
    if k == sorted.len() {
        assert(sorted.insert(k, x) =~= sorted.push(x));
        if k == 0 {
            assert(sorted.insert(k, x) =~= seq![x]);
        }
    } else {
        let before = sorted.drop_last();
        assert(x < sorted.last()) by {
            if k < sorted.len() - 1 {
                assert(sorted[k] < sorted[sorted.len() - 1]);
            }
        }
        lemma_insert_at(before, x, k);
        assert(sorted.insert(k, x) =~= before.insert(k, x).push(sorted.last()));
    }
}

proof fn lemma_insert_present(sorted: Seq<u32>, x: u32, k: int)
    requires
        0 <= k < sorted.len(),
        ascending(sorted),
        sorted[k] == x,
    ensures
        insert_cpu(sorted, x) == sorted,
    decreases sorted.len(),
{
    if k < sorted.len() - 1 {
        assert(sorted[k] < sorted[sorted.len() - 1]);
        lemma_insert_present(sorted.drop_last(), x, k);
        assert(sorted.drop_last().push(sorted.last()) =~= sorted);
    }
}

/// The distinct numbers of a list, ascending.
pub fn sort_cpus(ids: &[u32]) -> (r: Vec<u32>)
    ensures
        r@ == canonical(ids@),
{
    let mut sorted: Vec<u32> = Vec::new();
    assert(sorted@ =~= canonical(ids@.take(0)));
    for i in 0..ids.len()
        invariant
            sorted@ == canonical(ids@.take(i as int)),
    {
        let x: u32 = ids[i];
        let ghost before = sorted@;
        proof {
            canonical_is_sorted_set(ids@.take(i as int));
            assert(ids@.take(i + 1).drop_last() =~= ids@.take(i as int));
        }
        let mut k: usize = sorted.len();
        while k > 0 && sorted[k - 1] > x
            invariant
                k <= sorted.len(),
                sorted@ == before,
                k < sorted.len() ==> x < sorted@[k as int],
            decreases k,
        {
            k = k - 1;
        }
        if k > 0 && sorted[k - 1] == x {
            proof {
                lemma_insert_present(before, x, k - 1);
            }
        } else {
            proof {
                lemma_insert_at(before, x, k as int);
            }
            sorted.insert(k, x);
        }
    }
    assert(ids@.take(ids@.len() as int) =~= ids@);
    sorted
}

/// A refusal of CPU topology evidence.
pub open spec fn list_error(message: Seq<char>) -> crate::error::ErrorView {
    crate::error::staged(ErrorCode::CapabilityError, message, Stage::Detect)
}

/// A refusal of CPU topology evidence.
pub fn topology_error(message: &str) -> (r: SysboostError)
    ensures
        r@ == list_error(message@),
{
    SysboostError::new(ErrorCode::CapabilityError, message).with_stage(Stage::Detect)
}

/// The numbers from one to another.
pub open spec fn span(start: nat, end: nat) -> Seq<u32> {
    Seq::new((end - start + 1) as nat, |i: int| (start + i) as u32)
}

/// A list of CPUs with the CPUs of one more component of the text.
pub open spec fn add_member(before: Seq<u32>, part: Seq<char>) -> Result<
    Seq<u32>,
    crate::error::ErrorView,
> {
    let dash = text::find_spec(part, '-');
    if part.len() == 0 {
        Err(list_error("CPU list contains an empty component"@))
    } else if dash < part.len() {
        match (
            text::parse_spec(part.take(dash), u32::MAX as nat),
            text::parse_spec(part.skip(dash + 1), u32::MAX as nat),
        ) {
            (None, _) => Err(list_error("CPU list range start is malformed"@)),
            (Some(_), None) => Err(list_error("CPU list range end is malformed"@)),
            (Some(start), Some(end)) => if start > end {
                Err(list_error("CPU list range is reversed"@))
            } else if before.len() + (end - start + 1) > CPUSET_CAPACITY_LIMIT {
                Err(list_error("CPU list exceeds the bounded planning size"@))
            } else {
                Ok(before + span(start, end))
            },
        }
    } else {
        match text::parse_spec(part, u32::MAX as nat) {
            None => Err(list_error("CPU list member is malformed"@)),
            Some(cpu) => if before.len() + 1 > CPUSET_CAPACITY_LIMIT {
                Err(list_error("CPU list exceeds the bounded planning size"@))
            } else {
                Ok(before.push(cpu as u32))
            },
        }
    }
}

/// The CPUs that the components of a list name, in the order of the text; the
/// first component that is refused decides the error.
pub open spec fn members_spec(parts: Seq<Seq<char>>) -> Result<
    Seq<u32>,
    crate::error::ErrorView,
>
    decreases parts.len(),
{
    if parts.len() == 0 {
        Ok(Seq::empty())
    } else {
        match members_spec(parts.drop_last()) {
            Ok(before) => add_member(before, text::trim_spec(parts.last())),
            Err(e) => Err(e),
        }
    }
}

/// The CPU set that a text such as `0-3,8` names.
pub open spec fn parse_list_spec(value: Seq<char>) -> Result<Seq<u32>, crate::error::ErrorView> {
    let trimmed = text::trim_spec(value);
    if trimmed.len() == 0 {
        Err(list_error("CPU list is empty"@))
    } else {
        match members_spec(text::split_spec(trimmed, ',')) {
            Ok(cpus) => Ok(canonical(cpus)),
            Err(e) => Err(e),
        }
    }
}

proof fn lemma_members_error(parts: Seq<Seq<char>>, k: int)
    requires
        0 <= k <= parts.len(),
        members_spec(parts.take(k)) is Err,
    ensures
        members_spec(parts) == members_spec(parts.take(k)),
    decreases parts.len(),
{
    if k < parts.len() {
        assert(parts.drop_last().take(k) =~= parts.take(k));
        lemma_members_error(parts.drop_last(), k);
    } else {
        assert(parts.take(k) =~= parts);
    }
}

/// Components that are accepted name at least one CPU each.
pub proof fn lemma_members_some(parts: Seq<Seq<char>>)
    ensures
        members_spec(parts) matches Ok(cpus) ==> cpus.len() >= parts.len(),
    decreases parts.len(),
{
    if parts.len() > 0 {
        lemma_members_some(parts.drop_last());
    }
}

fn extend_member(cpus: &mut Vec<u32>, part: &[char]) -> (r: Result<(), SysboostError>)
    requires
        old(cpus)@.len() <= CPUSET_CAPACITY_LIMIT,
    ensures
        match r {
            Ok(_) => add_member(old(cpus)@, part@) == Ok::<Seq<u32>, crate::error::ErrorView>(
                final(cpus)@,
            ) && final(cpus)@.len() <= CPUSET_CAPACITY_LIMIT,
            Err(e) => add_member(old(cpus)@, part@) == Err::<Seq<u32>, crate::error::ErrorView>(e@),
        },
{
    if part.len() == 0 {
        return Err(topology_error("CPU list contains an empty component"));
    }
    let dash: usize = text::find(part, '-');
    if dash < part.len() {
        let start_text = vstd::slice::slice_subrange(part, 0, dash);
        let end_text = vstd::slice::slice_subrange(part, dash + 1, part.len());
        assert(start_text@ =~= part@.take(dash as int));
        assert(end_text@ =~= part@.skip(dash + 1));
        let start: u32 = match text::parse_unsigned(start_text, u32::MAX as u128) {
            Some(value) => value as u32,
            None => return Err(topology_error("CPU list range start is malformed")),
        };
        let end: u32 = match text::parse_unsigned(end_text, u32::MAX as u128) {
            Some(value) => value as u32,
            None => return Err(topology_error("CPU list range end is malformed")),
        };
        if start > end {
            return Err(topology_error("CPU list range is reversed"));
        }
        let count: u64 = end as u64 - start as u64 + 1;
        if cpus.len() as u64 + count > CPUSET_CAPACITY_LIMIT as u64 {
            return Err(topology_error("CPU list exceeds the bounded planning size"));
        }
        let ghost before = cpus@;
        for i in 0..count
            invariant
                count == end - start + 1,
                before.len() + count <= CPUSET_CAPACITY_LIMIT,
                cpus@ == before + span(start as nat, end as nat).take(i as int),
        {
            cpus.push((start as u64 + i) as u32);
            assert(cpus@ =~= before + span(start as nat, end as nat).take(i + 1));
        }
        assert(span(start as nat, end as nat).take(count as int) =~= span(
            start as nat,
            end as nat,
        ));
    } else {
        let cpu: u32 = match text::parse_unsigned(part, u32::MAX as u128) {
            Some(value) => value as u32,
            None => return Err(topology_error("CPU list member is malformed")),
        };
        if cpus.len() >= CPUSET_CAPACITY_LIMIT {
            return Err(topology_error("CPU list exceeds the bounded planning size"));
        }
        cpus.push(cpu);
    }
    Ok(())
}

/// Reads the kernel's comma-separated CPU list, with ranges.
pub fn parse_cpu_list(value: &str) -> (r: Result<CpuSet, SysboostError>)
    ensures
        match r {
            Ok(set) => parse_list_spec(value@) == Ok::<Seq<u32>, crate::error::ErrorView>(set@),
            Err(e) => parse_list_spec(value@) == Err::<Seq<u32>, crate::error::ErrorView>(e@),
        },
{
    let chars = text::chars_of(value);
    let trimmed = text::trim(chars.as_slice());
    if trimmed.len() == 0 {
        return Err(topology_error("CPU list is empty"));
    }
    let parts = text::split(trimmed, ',');
    let ghost all = text::deep_chars(parts@);
    let mut cpus: Vec<u32> = Vec::new();
    for i in 0..parts.len()
        invariant
            all == text::deep_chars(parts@),
            all == text::split_spec(trimmed@, ','),
            trimmed@ == text::trim_spec(value@),
            trimmed@.len() > 0,
            cpus@.len() <= CPUSET_CAPACITY_LIMIT,
            i > 0 ==> cpus@.len() > 0,
            members_spec(all.take(i as int)) == Ok::<Seq<u32>, crate::error::ErrorView>(cpus@),
    {
        let part = text::trim(parts[i].as_slice());
        assert(all.take(i + 1).drop_last() =~= all.take(i as int));
        assert(all[i as int] == parts@[i as int]@);
        match extend_member(&mut cpus, part) {
            Ok(_) => {},
            Err(e) => {
                proof {
                    lemma_members_error(all, i + 1);
                }
                return Err(e);
            },
        }
    }
    assert(all.take(all.len() as int) =~= all);
    CpuSet::new(cpus)
}

/// The longest runs of neighbouring CPUs, each by its first and last.
pub open spec fn runs(s: Seq<u32>) -> Seq<(u32, u32)>
    decreases s.len(),
{
    if s.len() == 0 {
        Seq::empty()
    } else {
        let found = runs(s.drop_last());
        if found.len() > 0 && s.last() == found.last().1 + 1 {
            found.drop_last().push((found.last().0, s.last()))
        } else {
            found.push((s.last(), s.last()))
        }
    }
}

pub open spec fn run_text(run: (u32, u32)) -> Seq<char> {
    if run.0 == run.1 {
        text::decimal_spec(run.0 as nat)
    } else {
        text::decimal_spec(run.0 as nat).push('-') + text::decimal_spec(run.1 as nat)
    }
}

/// The text of a CPU set: its runs with commas between them.
pub open spec fn render_spec(s: Seq<u32>) -> Seq<char> {
    text::join_spec(runs(s).map_values(|run: (u32, u32)| run_text(run)), ',')
}

fn render_range(start: u32, end: u32) -> (r: String)
    ensures
        r@ == run_text((start, end)),
{
    let mut out = text::decimal(start as u128);
    if start != end {
        out.push('-');
        out.append(text::decimal(end as u128).as_str());
    }
    out
}

/// The text of a CPU set.
pub fn render_cpu_set(cpus: &CpuSet) -> (r: String)
    ensures
        r@ == render_spec(cpus@),
{
    let values = cpus.as_slice();
    let mut found: Vec<(u32, u32)> = Vec::new();
    assert(found@ =~= runs(values@.take(0)));
    for i in 0..values.len()
        invariant
            found@ == runs(values@.take(i as int)),
    {
        let cpu: u32 = values[i];
        assert(values@.take(i + 1).drop_last() =~= values@.take(i as int));
        let n: usize = found.len();
        if n > 0 && found[n - 1].1 < u32::MAX && cpu == found[n - 1].1 + 1 {
            let first: u32 = found[n - 1].0;
            found.pop();
            found.push((first, cpu));
        } else {
            found.push((cpu, cpu));
        }
    }
    assert(values@.take(values@.len() as int) =~= values@);
    let ghost parts = found@.map_values(|run: (u32, u32)| run_text(run));
    let mut out = String::new();
    for i in 0..found.len()
        invariant
            parts == found@.map_values(|run: (u32, u32)| run_text(run)),
            out@ == text::join_spec(parts.take(i as int), ','),
    {
        assert(parts.take(i + 1).drop_last() =~= parts.take(i as int));
        if i > 0 {
            out.push(',');
        }
        out.append(render_range(found[i].0, found[i].1).as_str());
        assert(out@ =~= text::join_spec(parts.take(i + 1), ','));
    }
    assert(parts.take(parts.len() as int) =~= parts);
    out
}

/// The CPUs of runs, in order.
spec fn expand(found: Seq<(u32, u32)>) -> Seq<u32>
    decreases found.len(),
{
    if found.len() == 0 {
        Seq::empty()
    } else {
        expand(found.drop_last()) + span(found.last().0 as nat, found.last().1 as nat)
    }
}

spec fn proper(found: Seq<(u32, u32)>) -> bool {
    forall|i: int| 0 <= i < found.len() ==> (#[trigger] found[i]).0 <= found[i].1
}

proof fn lemma_runs_expand(s: Seq<u32>)
    requires
        ascending(s),
    ensures
        expand(runs(s)) == s,
        proper(runs(s)),
        s.len() > 0 ==> runs(s).len() > 0 && runs(s).last().1 == s.last(),
    decreases s.len(),
{
    if s.len() > 0 {
        let before = s.drop_last();
        let found = runs(before);
        lemma_runs_expand(before);
        let r = runs(s);
        if found.len() > 0 && s.last() == found.last().1 + 1 {
            let first = found.last().0;
            assert(r.drop_last() =~= found.drop_last());
            assert(found[found.len() - 1].0 <= found[found.len() - 1].1);
            assert(span(first as nat, s.last() as nat) =~= span(
                first as nat,
                found.last().1 as nat,
            ).push(s.last()));
            assert(expand(r) =~= before.push(s.last()));
        } else {
            assert(r.drop_last() =~= found);
            assert(span(s.last() as nat, s.last() as nat) =~= seq![s.last()]);
            assert(expand(r) =~= before.push(s.last()));
        }
        assert(before.push(s.last()) =~= s);
    } else {
        assert(expand(runs(s)) =~= s);
    }
}

proof fn lemma_run_text(run: (u32, u32))
    ensures
        run_text(run).len() > 0,
        forall|i: int|
            0 <= i < run_text(run).len() ==> text::is_digit(#[trigger] run_text(run)[i])
                || run_text(run)[i] == '-',
        text::trim_spec(run_text(run)) == run_text(run),
{
    let t = run_text(run);
    text::lemma_decimal(run.0 as nat);
    text::lemma_decimal(run.1 as nat);
    assert forall|i: int| 0 <= i < t.len() implies text::is_digit(#[trigger] t[i]) || t[i]
        == '-' by {
        if run.0 != run.1 {
            let a = text::decimal_spec(run.0 as nat);
            let b = text::decimal_spec(run.1 as nat);
            if i < a.len() {
                assert(t[i] == a[i]);
            } else if i > a.len() {
                assert(t[i] == b[i - a.len() - 1]);
            }
        }
    }
    assert(text::is_digit(t[0]) || t[0] == '-');
    assert(text::is_digit(t[t.len() - 1]) || t[t.len() - 1] == '-');
    text::lemma_trim_tight(t);
}

proof fn lemma_add_run(before: Seq<u32>, run: (u32, u32))
    requires
        run.0 <= run.1,
        before.len() + (run.1 - run.0 + 1) <= CPUSET_CAPACITY_LIMIT,
    ensures
        add_member(before, run_text(run)) == Ok::<Seq<u32>, crate::error::ErrorView>(
            before + span(run.0 as nat, run.1 as nat),
        ),
{
    let part = run_text(run);
    let a = text::decimal_spec(run.0 as nat);
    let b = text::decimal_spec(run.1 as nat);
    text::lemma_decimal(run.0 as nat);
    text::lemma_decimal(run.1 as nat);
    text::decimal_round_trip(run.0 as nat, u32::MAX as nat);
    text::decimal_round_trip(run.1 as nat, u32::MAX as nat);
    if run.0 == run.1 {
        assert forall|j: int| 0 <= j < part.len() implies part[j] != '-' by {
            assert(text::is_digit(a[j]));
        }
        text::lemma_find(part, '-', part.len() as int);
        assert(span(run.0 as nat, run.1 as nat) =~= seq![run.0]);
        assert(before + seq![run.0] =~= before.push(run.0));
    } else {
        let dash = a.len() as int;
        assert forall|j: int| 0 <= j < dash implies part[j] != '-' by {
            assert(part[j] == a[j]);
            assert(text::is_digit(a[j]));
        }
        text::lemma_find(part, '-', dash);
        assert(part.take(dash) =~= a);
        assert(part.skip(dash + 1) =~= b);
    }
}

proof fn lemma_expand_len(found: Seq<(u32, u32)>, k: int)
    requires
        0 <= k <= found.len(),
        proper(found),
    ensures
        expand(found.take(k)).len() <= expand(found).len(),
    decreases found.len(),
{
    if k < found.len() {
        assert(found.drop_last().take(k) =~= found.take(k));
        lemma_expand_len(found.drop_last(), k);
    } else {
        assert(found.take(k) =~= found);
    }
}

proof fn lemma_members_of_runs(found: Seq<(u32, u32)>)
    requires
        proper(found),
        expand(found).len() <= CPUSET_CAPACITY_LIMIT,
    ensures
        members_spec(found.map_values(|run: (u32, u32)| run_text(run))) == Ok::<
            Seq<u32>,
            crate::error::ErrorView,
        >(expand(found)),
    decreases found.len(),
{
    let parts = found.map_values(|run: (u32, u32)| run_text(run));
    if found.len() > 0 {
        let before = found.drop_last();
        assert(found[found.len() - 1].0 <= found[found.len() - 1].1);
        lemma_members_of_runs(before);
        assert(parts.drop_last() =~= before.map_values(|run: (u32, u32)| run_text(run)));
        lemma_run_text(found.last());
        lemma_add_run(expand(before), found.last());
    }
}

/// Reading the text of a CPU set gives back the set.
pub proof fn render_then_parse(s: Seq<u32>)
    requires
        ascending(s),
        0 < s.len() <= CPUSET_CAPACITY_LIMIT,
    ensures
        parse_list_spec(render_spec(s)) == Ok::<Seq<u32>, crate::error::ErrorView>(s),
{
    let found = runs(s);
    let parts = found.map_values(|run: (u32, u32)| run_text(run));
    let whole = render_spec(s);
    lemma_runs_expand(s);
    lemma_members_of_runs(found);
    assert forall|k: int, i: int| 0 <= k < parts.len() && 0 <= i < parts[k].len() implies
        #[trigger] parts[k][i] != ',' by {
        lemma_run_text(found[k]);
        assert(text::is_digit(run_text(found[k])[i]) || run_text(found[k])[i] == '-');
    }
    text::split_join(parts, ',');
    lemma_join_ends(parts);
    lemma_run_text(found[0]);
    lemma_run_text(found.last());
    text::lemma_trim_tight(whole);
    canonical_of_ascending(s);
}

proof fn lemma_join_ends(parts: Seq<Seq<char>>)
    requires
        parts.len() > 0,
        forall|k: int| 0 <= k < parts.len() ==> (#[trigger] parts[k]).len() > 0,
    ensures
        text::join_spec(parts, ',').len() > 0,
        text::join_spec(parts, ',')[0] == parts[0][0],
        text::join_spec(parts, ',').last() == parts.last().last(),
    decreases parts.len(),
{
    if parts.len() > 1 {
        assert(parts[parts.len() - 1].len() > 0);
        lemma_join_ends(parts.drop_last());
    }
}

/// Whether bit `k` of a byte is set.
pub open spec fn bit(byte: u8, k: u32) -> bool {
    (byte >> k) & 1 == 1
}

/// Whether the bit of a CPU in a mask says that a set holds it.
pub open spec fn mask_bit(bytes: Seq<u8>, s: Seq<u32>, cpu: u32) -> bool {
    s.contains(cpu) <==> bit(bytes[(cpu / 8) as int], cpu % 8)
}

/// The bits of a mask are the CPUs of a set: bit `k` of byte `b` stands for CPU
/// `8 b + k`, and the last byte is that of the highest CPU.
pub open spec fn mask_of(bytes: Seq<u8>, s: Seq<u32>) -> bool {
    &&& s.len() > 0
    &&& bytes.len() == s.last() / 8 + 1
    &&& forall|cpu: u32|
        cpu / 8 < bytes.len() ==> #[trigger] mask_bit(bytes, s, cpu)
}

/// Whether the highest CPU of a set is one that a mask may hold.
pub open spec fn mask_fits(s: Seq<u32>) -> bool {
    s.last() < CPUSET_CAPACITY_LIMIT
}

pub open spec fn mask_error() -> crate::error::ErrorView {
    crate::error::error_view(
        ErrorCode::InvalidInput,
        "CPU affinity mask exceeds the bounded planning size"@,
    )
}

/// A CPU affinity mask, little-endian by CPU number.
#[derive(Debug, PartialEq, Eq)]
pub struct CpuAffinityMask {
    pub bytes: Vec<u8>,
}

impl CpuAffinityMask {
    /// The mask of a set; a set with a CPU beyond the bounded size has none.
    pub fn from_cpu_set(cpus: &CpuSet) -> (r: Result<CpuAffinityMask, SysboostError>)
        ensures
            match r {
                Ok(mask) => mask_fits(cpus@) && mask_of(mask.bytes@, cpus@),
                Err(e) => !mask_fits(cpus@) && e@ == mask_error(),
            },
    {
        let ids = cpus.as_slice();
        let last: u32 = ids[ids.len() - 1];
        if last >= 1_048_576 {
            return Err(
                SysboostError::new(
                    ErrorCode::InvalidInput,
                    "CPU affinity mask exceeds the bounded planning size",
                ),
            );
        }
        let count: usize = (last / 8) as usize + 1;
        let mut bytes: Vec<u8> = Vec::new();
        for i in 0..count
            invariant
                bytes@.len() == i,
                forall|j: int| 0 <= j < i ==> bytes@[j] == 0,
        {
            bytes.push(0);
        }
        assert forall|cpu: u32| cpu / 8 < bytes@.len() implies #[trigger] mask_bit(
            bytes@,
            ids@.take(0),
            cpu,
        ) by {
            let k = cpu % 8;
            assert((0u8 >> k) & 1 == 0) by (bit_vector)
                requires
                    k < 8,
            ;
        }
        let mut i: usize = 0;
        while i < ids.len()
            invariant
                i <= ids.len(),
                ascending(ids@),
                ids@.len() > 0,
                last == ids@.last(),
                bytes@.len() == last / 8 + 1,
                forall|cpu: u32|
                    cpu / 8 < bytes@.len() ==> #[trigger] mask_bit(
                        bytes@,
                        ids@.take(i as int),
                        cpu,
                    ),
            decreases ids.len() - i,
        {
            let cpu: u32 = ids[i];
            assert(cpu <= last) by {
                if i < ids@.len() - 1 {
                    assert(ids@[i as int] < ids@[ids@.len() - 1]);
                }
            }
            let at: usize = (cpu / 8) as usize;
            let k: u32 = cpu % 8;
            let before: u8 = bytes[at];
            let after: u8 = before | (1u8 << k);
            let ghost old_bytes = bytes@;
            bytes.set(at, after);
            assert forall|other: u32| other / 8 < bytes@.len() implies #[trigger] mask_bit(
                bytes@,
                ids@.take(i + 1),
                other,
            ) by {
                assert(mask_bit(old_bytes, ids@.take(i as int), other));
                let j = other % 8;
                let now = ids@.take(i + 1);
                let earlier = ids@.take(i as int);
                assert(now =~= earlier.push(cpu));
                if earlier.contains(other) {
                    let m = choose|m: int| 0 <= m < earlier.len() && earlier[m] == other;
                    assert(now[m] == other);
                }
                if other == cpu {
                    assert(now[i as int] == other);
                }
                assert(now.contains(other) <==> earlier.contains(other) || other == cpu);
                if other / 8 == cpu / 8 {
                    assert(other == cpu <==> j == k);
                    assert(((before | (1u8 << k)) >> j) & 1 == 1 <==> ((before >> j) & 1 == 1
                        || j == k)) by (bit_vector)
                        requires
                            j < 8,
                            k < 8,
                    ;
                }
            }
            i = i + 1;
        }
        assert(ids@.take(ids@.len() as int) =~= ids@);
        Ok(CpuAffinityMask { bytes })
    }

    /// The mask bytes, the lowest CPUs first.
    pub fn as_bytes(&self) -> (r: &[u8])
        ensures
            r@ == self.bytes@,
    {
        self.bytes.as_slice()
    }

    /// The mask in hexadecimal, the highest CPUs first.
    pub fn to_hex(&self) -> (r: String)
        ensures
            r@ == text::hex_spec(self.bytes@.reverse()),
    {
        let mut reversed: Vec<u8> = Vec::new();
        let n: usize = self.bytes.len();
        for i in 0..n
            invariant
                n == self.bytes@.len(),
                reversed@ == self.bytes@.reverse().take(i as int),
        {
            reversed.push(self.bytes[n - 1 - i]);
            assert(reversed@ =~= self.bytes@.reverse().take(i + 1));
        }
        assert(reversed@ =~= self.bytes@.reverse());
        text::hex(reversed.as_slice())
    }
}

impl Clone for CpuAffinityMask {
    fn clone(&self) -> (r: CpuAffinityMask)
        ensures
            r.bytes@ == self.bytes@,
    {
        let bytes = self.bytes.clone();
        assert(bytes@ =~= self.bytes@);
        CpuAffinityMask { bytes }
    }
}

} // verus!
