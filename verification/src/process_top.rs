//! The processes that use the most of the processor and of the memory.

use crate::bignat::Side;
use crate::monitor::{MonitorState, PROCESS_TOP_MIN_INTERVAL, PROCESS_TOP_N};
use crate::monitor;
use crate::number;
use crate::number::Single;
use crate::text;
use vstd::prelude::*;
use vstd::string::*;

verus! {

/// One process as the system reports it.
#[derive(Debug)]
pub struct ProcessReading {
    pub name: String,
    pub cpu_percent: Single,
    pub memory_bytes: u64,
}

/// All processes of one name together.
#[derive(Debug)]
pub struct ProcessTopEntry {
    pub name: String,
    pub cpu_percent: Single,
    pub memory_bytes: u64,
    pub count: u32,
}

impl Clone for ProcessTopEntry {
    fn clone(&self) -> (r: ProcessTopEntry)
        ensures
            r == *self,
    {
        ProcessTopEntry {
            name: self.name.clone(),
            cpu_percent: self.cpu_percent,
            memory_bytes: self.memory_bytes,
            count: self.count,
        }
    }
}

/// The top processes at one time; none where they are not wanted.
#[derive(Debug)]
pub struct ProcessTopSnapshot {
    pub enabled: bool,
    pub by_cpu: Vec<ProcessTopEntry>,
    pub by_memory: Vec<ProcessTopEntry>,
    pub sampled_at_ms: u128,
}

/// A snapshot with its lists as sequences.
pub ghost struct SnapshotView {
    pub enabled: bool,
    pub by_cpu: Seq<ProcessTopEntry>,
    pub by_memory: Seq<ProcessTopEntry>,
    pub sampled_at_ms: u128,
}

impl View for ProcessTopSnapshot {
    type V = SnapshotView;

    open spec fn view(&self) -> SnapshotView {
        SnapshotView {
            enabled: self.enabled,
            by_cpu: self.by_cpu@,
            by_memory: self.by_memory@,
            sampled_at_ms: self.sampled_at_ms,
        }
    }
}

fn copy_entries(v: &Vec<ProcessTopEntry>) -> (r: Vec<ProcessTopEntry>)
    ensures
        r@ == v@,
{
    let mut r: Vec<ProcessTopEntry> = Vec::new();
    let n = v.len();
    for i in 0..n
        invariant
            n == v@.len(),
            r@ == v@.take(i as int),
    {
        r.push(v[i].clone());
    }
    r
}

impl Clone for ProcessTopSnapshot {
    fn clone(&self) -> (r: ProcessTopSnapshot)
        ensures
            r@ == self@,
    {
        ProcessTopSnapshot {
            enabled: self.enabled,
            by_cpu: copy_entries(&self.by_cpu),
            by_memory: copy_entries(&self.by_memory),
            sampled_at_ms: self.sampled_at_ms,
        }
    }
}

/// The index of the entry of that name, and the number of entries without one.
pub open spec fn entry_index(entries: Seq<ProcessTopEntry>, name: Seq<char>) -> int
    decreases entries.len(),
{
    if entries.len() == 0 || entries[0].name@ == name {
        0
    } else {
        1 + entry_index(entries.drop_first(), name)
    }
}

/// An entry with one more process of its name.
pub open spec fn with_process(e: ProcessTopEntry, p: ProcessReading) -> ProcessTopEntry {
    ProcessTopEntry {
        name: e.name,
        cpu_percent: e.cpu_percent.sum(p.cpu_percent),
        memory_bytes: monitor::capped_sum(e.memory_bytes as int, p.memory_bytes as int) as u64,
        count: if e.count == u32::MAX {
            u32::MAX
        } else {
            (e.count + 1) as u32
        },
    }
}

/// An entry without a process.
pub open spec fn empty_entry(name: String) -> ProcessTopEntry {
    ProcessTopEntry { name, cpu_percent: number::single_whole(0), memory_bytes: 0, count: 0 }
}

/// The processes of each name together, in the order in which the names first
/// stand. A process without a name counts for nothing.
pub open spec fn merged(processes: Seq<ProcessReading>) -> Seq<ProcessTopEntry>
    decreases processes.len(),
{
    if processes.len() == 0 {
        Seq::empty()
    } else {
        let m = merged(processes.drop_last());
        let p = processes.last();
        let i = entry_index(m, p.name@);
        if p.name@.len() == 0 {
            m
        } else if 0 <= i < m.len() {
            m.update(i, with_process(m[i], p))
        } else {
            m.push(with_process(empty_entry(p.name), p))
        }
    }
}

fn find_entry(entries: &Vec<ProcessTopEntry>, name: &str) -> (r: usize)
    ensures
        r == entry_index(entries@, name@),
        r <= entries@.len(),
{
    let n = entries.len();
    let mut i: usize = 0;
    assert(entries@.skip(0) =~= entries@);
    while i < n
        invariant
            n == entries@.len(),
            i <= n,
            entry_index(entries@, name@) == i + entry_index(entries@.skip(i as int), name@),
        decreases n - i,
    {
        if text::same_text(entries[i].name.as_str(), name) {
            return i;
        }
        assert(entries@.skip(i as int).drop_first() =~= entries@.skip(i + 1));
        i = i + 1;
    }
    i
}

/// Puts the processes of each name together.
pub fn merge_processes(processes: &Vec<ProcessReading>) -> (r: Vec<ProcessTopEntry>)
    ensures
        r@ == merged(processes@),
{
    let mut r: Vec<ProcessTopEntry> = Vec::new();
    let n = processes.len();
    for k in 0..n
        invariant
            n == processes@.len(),
            r@ == merged(processes@.take(k as int)),
    {
        proof {
            assert(processes@.take(k + 1).drop_last() =~= processes@.take(k as int));
            assert(processes@.take(k + 1).last() == processes@[k as int]);
        }
        let p = &processes[k];
        if !p.name.as_str().is_empty() {
            let i = find_entry(&r, p.name.as_str());
            let (cpu_percent, memory_bytes, count) = if i < r.len() {
                (r[i].cpu_percent, r[i].memory_bytes, r[i].count)
            } else {
                (Single::whole(0), 0, 0)
            };
            let entry = ProcessTopEntry {
                name: if i < r.len() {
                    r[i].name.clone()
                } else {
                    p.name.clone()
                },
                cpu_percent: cpu_percent.plus(p.cpu_percent),
                memory_bytes: memory_bytes.saturating_add(p.memory_bytes),
                count: count.saturating_add(1),
            };
            if i < r.len() {
                assert(entry == with_process(r@[i as int], *p));
                r.set(i, entry);
            } else {
                assert(entry == with_process(empty_entry(p.name), *p));
                r.push(entry);
            }
        }
    }
    assert(processes@.take(n as int) =~= processes@);
    r
}

/// No name stands twice.
pub open spec fn names_differ(entries: Seq<ProcessTopEntry>) -> bool {
    forall|i: int, j: int|
        0 <= i < j < entries.len() ==> (#[trigger] entries[i]).name@ != (
        #[trigger] entries[j]).name@
}

/// Each entry's share of the processor is a number.
pub open spec fn cpu_known(entries: Seq<ProcessTopEntry>) -> bool {
    forall|i: int| 0 <= i < entries.len() ==> !(#[trigger] entries[i]).cpu_percent.nan()
}

proof fn lemma_entry_index(entries: Seq<ProcessTopEntry>, name: Seq<char>)
    ensures
        0 <= entry_index(entries, name) <= entries.len(),
        entry_index(entries, name) < entries.len() ==> entries[entry_index(entries, name)].name@
            == name,
        forall|j: int|
            0 <= j < entry_index(entries, name) ==> (#[trigger] entries[j]).name@ != name,
    decreases entries.len(),
{
    if entries.len() > 0 && entries[0].name@ != name {
        let rest = entries.drop_first();
        lemma_entry_index(rest, name);
        assert forall|j: int| 0 <= j < entry_index(entries, name) implies (
        #[trigger] entries[j]).name@ != name by {
            if j > 0 {
                assert(entries[j] == rest[j - 1]);
            }
        }
    }
}

/// Put together, no name stands twice and none is empty.
pub proof fn law_names_are_merged(processes: Seq<ProcessReading>)
    ensures
        names_differ(merged(processes)),
        forall|i: int|
            0 <= i < merged(processes).len() ==> (#[trigger] merged(processes)[i]).name@.len() > 0,
    decreases processes.len(),
{
    if processes.len() > 0 {
        law_names_are_merged(processes.drop_last());
        lemma_entry_index(merged(processes.drop_last()), processes.last().name@);
    }
}

/// How many processes have the name.
pub open spec fn count_named(processes: Seq<ProcessReading>, name: Seq<char>) -> int
    decreases processes.len(),
{
    if processes.len() == 0 {
        0
    } else {
        count_named(processes.drop_last(), name) + if processes.last().name@ == name {
            1int
        } else {
            0
        }
    }
}

/// How many bytes the processes of the name use.
pub open spec fn memory_named(processes: Seq<ProcessReading>, name: Seq<char>) -> int
    decreases processes.len(),
{
    if processes.len() == 0 {
        0
    } else {
        memory_named(processes.drop_last(), name) + if processes.last().name@ == name {
            processes.last().memory_bytes as int
        } else {
            0
        }
    }
}

/// `n`, or `most` where that is less.
pub open spec fn capped(n: int, most: int) -> int {
    if n > most {
        most
    } else {
        n
    }
}

/// A name has an entry exactly where a process has it, and the entry counts them all
/// and the memory of them all, in whatever order they stand, up to what it can hold.
pub proof fn law_merging_counts_all(processes: Seq<ProcessReading>, name: Seq<char>)
    requires
        name.len() > 0,
    ensures
        ({
            let m = merged(processes);
            let i = entry_index(m, name);
            &&& 0 <= i <= m.len()
            &&& i < m.len() <==> count_named(processes, name) > 0
            &&& i < m.len() ==> m[i].name@ == name && m[i].count == capped(
                count_named(processes, name),
                u32::MAX as int,
            ) && m[i].memory_bytes == capped(memory_named(processes, name), u64::MAX as int)
            &&& i == m.len() ==> memory_named(processes, name) == 0
            &&& count_named(processes, name) >= 0
            &&& memory_named(processes, name) >= 0
        }),
    decreases processes.len(),
{
    lemma_entry_index(merged(processes), name);
    if processes.len() > 0 {
        let before = processes.drop_last();
        let p = processes.last();
        let m = merged(before);
        law_merging_counts_all(before, name);
        lemma_entry_index(m, name);
        lemma_entry_index(m, p.name@);
        let at = entry_index(m, name);
        let i = entry_index(merged(processes), name);
        if p.name@.len() > 0 {
            let j = entry_index(m, p.name@);
            if j < m.len() {
                if i < at {
                    assert(merged(processes)[i].name@ == m[i].name@);
                } else if at < i {
                    assert(merged(processes)[at].name@ == m[at].name@);
                }
                assert(i == at);
            } else {
                if i < m.len() {
                    assert(merged(processes)[i] == m[i]);
                }
                if at < m.len() {
                    assert(merged(processes)[at] == m[at]);
                } else {
                    assert(merged(processes)[at].name@ == p.name@);
                }
                assert(at < m.len() || p.name@ == name ==> i == at);
            }
        }
    }
}

/// By what the processes are ranked.
#[derive(Clone, Copy, PartialEq, Eq, Structural, Debug)]
pub enum Rank {
    Cpu,
    Memory,
}

/// Whether `a` stands before `b`: by using more, and by its name where both use the
/// same.
pub open spec fn ahead(rank: Rank, a: ProcessTopEntry, b: ProcessTopEntry) -> bool {
    match rank {
        Rank::Cpu => b.cpu_percent.below(a.cpu_percent) || (!a.cpu_percent.below(b.cpu_percent)
            && text::before(a.name@, b.name@)),
        Rank::Memory => a.memory_bytes > b.memory_bytes || (a.memory_bytes == b.memory_bytes
            && text::before(a.name@, b.name@)),
    }
}

fn is_ahead(rank: Rank, a: &ProcessTopEntry, b: &ProcessTopEntry) -> (r: bool)
    ensures
        r == ahead(rank, *a, *b),
{
    let by_name = match text::order(a.name.as_str(), b.name.as_str()) {
        Side::Below => true,
        _ => false,
    };
    match rank {
        Rank::Cpu => b.cpu_percent.is_below(a.cpu_percent) || (!a.cpu_percent.is_below(
            b.cpu_percent,
        ) && by_name),
        Rank::Memory => a.memory_bytes > b.memory_bytes || (a.memory_bytes == b.memory_bytes
            && by_name),
    }
}

/// Whether `top` holds the first entries in their order, as many as there are up to
/// `n`: each stands before the next ones, and before every entry that is left out.
pub open spec fn is_top(
    top: Seq<ProcessTopEntry>,
    entries: Seq<ProcessTopEntry>,
    rank: Rank,
    n: int,
) -> bool {
    &&& top.len() == (if entries.len() < n {
        entries.len() as int
    } else {
        n
    })
    &&& forall|i: int, j: int|
        0 <= i < j < top.len() ==> ahead(rank, #[trigger] top[i], #[trigger] top[j])
    &&& forall|i: int| 0 <= i < top.len() ==> entries.contains(#[trigger] top[i])
    &&& forall|k: int|
        0 <= k < entries.len() ==> top.contains(#[trigger] entries[k]) || (top.len() == n && forall|
            i: int,
        |
            0 <= i < top.len() ==> ahead(rank, #[trigger] top[i], entries[k]))
}

/// Whether the entries stand in one order: what stands before an entry stands before
/// all that it stands before. A share that is no number can break it.
pub open spec fn ranked(rank: Rank, entries: Seq<ProcessTopEntry>) -> bool {
    forall|i: int, j: int, k: int|
        #![trigger entries[i], entries[j], entries[k]]
        0 <= i < entries.len() && 0 <= j < entries.len() && 0 <= k < entries.len() && ahead(
            rank,
            entries[i],
            entries[j],
        ) && ahead(rank, entries[j], entries[k]) ==> ahead(rank, entries[i], entries[k])
}

/// Of two entries of different names one stands before the other, and not both.
proof fn lemma_ahead_total(rank: Rank, a: ProcessTopEntry, b: ProcessTopEntry)
    ensures
        ahead(rank, a, b) ==> !ahead(rank, b, a),
        a.name@ != b.name@ ==> ahead(rank, a, b) || ahead(rank, b, a),
{
    text::lemma_before_order();
}

proof fn lemma_ranked(
    rank: Rank,
    entries: Seq<ProcessTopEntry>,
    a: ProcessTopEntry,
    b: ProcessTopEntry,
    c: ProcessTopEntry,
)
    requires
        ranked(rank, entries),
        entries.contains(a),
        entries.contains(b),
        entries.contains(c),
        ahead(rank, a, b),
        ahead(rank, b, c),
    ensures
        ahead(rank, a, c),
{
    let i = choose|i: int| 0 <= i < entries.len() && entries[i] == a;
    let j = choose|j: int| 0 <= j < entries.len() && entries[j] == b;
    let k = choose|k: int| 0 <= k < entries.len() && entries[k] == c;
    assert(ahead(rank, entries[i], entries[j]) && ahead(rank, entries[j], entries[k]));
}

/// The entries stand in one order by their memory, always, and by their share of the
/// processor where each share is a number or there are no more than two entries.
pub proof fn law_entries_are_ranked(entries: Seq<ProcessTopEntry>)
    ensures
        ranked(Rank::Memory, entries),
        cpu_known(entries) ==> ranked(Rank::Cpu, entries),
        entries.len() <= 2 ==> ranked(Rank::Cpu, entries),
{
    text::lemma_before_order();
    if entries.len() <= 2 {
        assert forall|i: int, j: int, k: int|
            #![trigger entries[i], entries[j], entries[k]]
            0 <= i < entries.len() && 0 <= j < entries.len() && 0 <= k < entries.len() && ahead(
                Rank::Cpu,
                entries[i],
                entries[j],
            ) && ahead(Rank::Cpu, entries[j], entries[k]) implies ahead(
            Rank::Cpu,
            entries[i],
            entries[k],
        ) by {
            lemma_ahead_total(Rank::Cpu, entries[i], entries[j]);
            lemma_ahead_total(Rank::Cpu, entries[j], entries[k]);
        }
    }
}

/// At most one list is the top of the entries.
pub proof fn law_top_is_unique(
    a: Seq<ProcessTopEntry>,
    b: Seq<ProcessTopEntry>,
    entries: Seq<ProcessTopEntry>,
    rank: Rank,
    n: int,
)
    requires
        n >= 0,
        names_differ(entries),
        is_top(a, entries, rank, n),
        is_top(b, entries, rank, n),
    ensures
        a == b,
{
    assert forall|k: int| 0 <= k < a.len() implies a.take(k) == b.take(k) && a[k] == b[k] by {
        lemma_top_prefix(a, b, entries, rank, n, k);
    }
    assert(a =~= b);
}

proof fn lemma_top_prefix(
    a: Seq<ProcessTopEntry>,
    b: Seq<ProcessTopEntry>,
    entries: Seq<ProcessTopEntry>,
    rank: Rank,
    n: int,
    k: int,
)
    requires
        names_differ(entries),
        is_top(a, entries, rank, n),
        is_top(b, entries, rank, n),
        0 <= k < a.len(),
    ensures
        a.take(k) == b.take(k),
        a[k] == b[k],
    decreases k,
{
    if k > 0 {
        lemma_top_prefix(a, b, entries, rank, n, k - 1);
        assert(a.take(k) =~= a.take(k - 1).push(a[k - 1]));
        assert(b.take(k) =~= b.take(k - 1).push(b[k - 1]));
    } else {
        assert(a.take(0) =~= b.take(0));
    }
    assert(entries.contains(a[k]));
    assert(entries.contains(b[k]));
    let x = choose|x: int| 0 <= x < entries.len() && entries[x] == a[k];
    let y = choose|y: int| 0 <= y < entries.len() && entries[y] == b[k];
    if a[k] != b[k] {
        lemma_place(a, b, entries, rank, n, k, x);
        lemma_place(b, a, entries, rank, n, k, y);
        lemma_ahead_total(rank, a[k], b[k]);
    }
}

/// Where two tops agree before `k`, the one's entry at `k` does not stand before the
/// other's unless it is the same.
proof fn lemma_place(
    a: Seq<ProcessTopEntry>,
    b: Seq<ProcessTopEntry>,
    entries: Seq<ProcessTopEntry>,
    rank: Rank,
    n: int,
    k: int,
    x: int,
)
    requires
        names_differ(entries),
        is_top(a, entries, rank, n),
        is_top(b, entries, rank, n),
        0 <= k < a.len(),
        a.take(k) == b.take(k),
        0 <= x < entries.len(),
        entries[x] == a[k],
        a[k] != b[k],
    ensures
        ahead(rank, b[k], a[k]),
{
    if b.contains(entries[x]) {
        let p = choose|p: int| 0 <= p < b.len() && b[p] == entries[x];
        if p < k {
            assert(a.take(k)[p] == a[p] && b.take(k)[p] == b[p]);
            assert(ahead(rank, a[p], a[k]));
            lemma_ahead_total(rank, a[k], a[k]);
        } else {
            assert(p > k);
            assert(ahead(rank, b[k], b[p]));
        }
    }
}

proof fn lemma_top_step(
    top: Seq<ProcessTopEntry>,
    entries: Seq<ProcessTopEntry>,
    e: ProcessTopEntry,
    rank: Rank,
    n: int,
    at: int,
    next: Seq<ProcessTopEntry>,
)
    requires
        n >= 1,
        names_differ(entries.push(e)),
        ranked(rank, entries.push(e)),
        is_top(top, entries, rank, n),
        0 <= at <= top.len(),
        forall|i: int| 0 <= i < at ==> ahead(rank, #[trigger] top[i], e),
        at < top.len() ==> ahead(rank, e, top[at]),
        next == (if at >= n {
            top
        } else if top.len() == n {
            top.insert(at, e).drop_last()
        } else {
            top.insert(at, e)
        }),
    ensures
        is_top(next, entries.push(e), rank, n),
{
    let all = entries.push(e);
    assert(all[entries.len() as int] == e);
    assert forall|i: int| 0 <= i < top.len() implies all.contains(
        #[trigger] top[i],
    ) by {
        let x = choose|x: int| 0 <= x < entries.len() && entries[x] == top[i];
        assert(all[x] == top[i]);
    }
    assert forall|i: int| at <= i < top.len() implies ahead(rank, e, #[trigger] top[i]) by {
        if i > at {
            assert(ahead(rank, top[at], top[i]));
            lemma_ranked(rank, all, e, top[at], top[i]);
        }
    }
    let wide = top.insert(at, e);
    assert forall|i: int, j: int| 0 <= i < j < wide.len() implies ahead(
        rank,
        #[trigger] wide[i],
        #[trigger] wide[j],
    ) by {
        let a = if i < at {
            i
        } else {
            i - 1
        };
        let b = if j < at {
            j
        } else {
            j - 1
        };
        if i != at && j != at {
            assert(wide[i] == top[a] && wide[j] == top[b]);
        } else if i == at {
            assert(wide[j] == top[b]);
        } else {
            assert(wide[i] == top[a]);
        }
    }
    assert forall|i: int| 0 <= i < wide.len() implies all.contains(#[trigger] wide[i]) by {
        if i < at {
            assert(wide[i] == top[i]);
        } else if i > at {
            assert(wide[i] == top[i - 1]);
        }
    }
    assert forall|i: int, j: int| 0 <= i < j < next.len() implies ahead(
        rank,
        #[trigger] next[i],
        #[trigger] next[j],
    ) by {
        if at < n {
            assert(next[i] == wide[i] && next[j] == wide[j]);
        }
    }
    assert forall|i: int| 0 <= i < next.len() implies all.contains(#[trigger] next[i]) by {
        if at < n {
            assert(next[i] == wide[i]);
        }
    }
    assert forall|k: int| 0 <= k < all.len() implies next.contains(#[trigger] all[k]) || (next.len() == n
        && forall|
        i: int,
    |
        0 <= i < next.len() ==> ahead(rank, #[trigger] next[i], all[k])) by {
        lemma_top_covers(top, entries, e, rank, n, at, next, k);
    }
}

proof fn lemma_top_covers(
    top: Seq<ProcessTopEntry>,
    entries: Seq<ProcessTopEntry>,
    e: ProcessTopEntry,
    rank: Rank,
    n: int,
    at: int,
    next: Seq<ProcessTopEntry>,
    k: int,
)
    requires
        n >= 1,
        ranked(rank, entries.push(e)),
        is_top(top, entries, rank, n),
        0 <= at <= top.len(),
        forall|i: int| 0 <= i < at ==> ahead(rank, #[trigger] top[i], e),
        forall|i: int| at <= i < top.len() ==> ahead(rank, e, #[trigger] top[i]),
        forall|i: int| 0 <= i < top.len() ==> entries.push(e).contains(#[trigger] top[i]),
        next == (if at >= n {
            top
        } else if top.len() == n {
            top.insert(at, e).drop_last()
        } else {
            top.insert(at, e)
        }),
        0 <= k <= entries.len(),
    ensures
        next.contains(entries.push(e)[k]) || (next.len() == n && forall|i: int|
            0 <= i < next.len() ==> ahead(rank, #[trigger] next[i], entries.push(e)[k])),
{
    let all = entries.push(e);
    let x = all[k];
    assert(all[entries.len() as int] == e);
    if k == entries.len() {
        if at < n {
            assert(next[at] == e);
        }
    } else if top.contains(x) {
        assert(all[k] == entries[k]);
        let p = choose|p: int| 0 <= p < top.len() && top[p] == x;
        if at >= n {
            assert(next[p] == x);
        } else if p < at {
            assert(next[p] == x);
        } else if p + 1 < next.len() {
            assert(next[p + 1] == x);
        } else {
            assert(top.len() == n && p == n - 1);
            assert forall|i: int| 0 <= i < next.len() implies ahead(rank, #[trigger] next[i], x) by {
                if i < at {
                    assert(next[i] == top[i]);
                    assert(ahead(rank, top[i], top[p]));
                } else if i == at {
                    assert(next[i] == e);
                    assert(ahead(rank, e, top[p]));
                } else {
                    assert(next[i] == top[i - 1]);
                    assert(ahead(rank, top[i - 1], top[p]));
                }
            }
        }
    } else {
        assert(all[k] == entries[k]);
        assert forall|i: int| 0 <= i < next.len() implies ahead(rank, #[trigger] next[i], x) by {
            if at >= n || i < at {
                assert(next[i] == top[i]);
            } else if i > at {
                assert(next[i] == top[i - 1]);
            } else {
                assert(next[i] == e);
                if at < top.len() {
                    assert(ahead(rank, top[at], x));
                    lemma_ranked(rank, all, e, top[at], x);
                }
            }
        }
    }
}

/// Whether `drawn` holds entries, as many as there are up to `n`, none of them twice.
pub open spec fn is_drawn(
    drawn: Seq<ProcessTopEntry>,
    entries: Seq<ProcessTopEntry>,
    n: int,
) -> bool {
    &&& drawn.len() == (if entries.len() < n {
        entries.len() as int
    } else {
        n
    })
    &&& names_differ(drawn)
    &&& forall|i: int| 0 <= i < drawn.len() ==> entries.contains(#[trigger] drawn[i])
}

proof fn lemma_drawn_step(
    drawn: Seq<ProcessTopEntry>,
    entries: Seq<ProcessTopEntry>,
    e: ProcessTopEntry,
    n: int,
    at: int,
    next: Seq<ProcessTopEntry>,
)
    requires
        n >= 1,
        names_differ(entries.push(e)),
        is_drawn(drawn, entries, n),
        0 <= at <= drawn.len(),
        next == (if at >= n {
            drawn
        } else if drawn.len() == n {
            drawn.insert(at, e).drop_last()
        } else {
            drawn.insert(at, e)
        }),
    ensures
        is_drawn(next, entries.push(e), n),
{
    let all = entries.push(e);
    assert(all[entries.len() as int] == e);
    assert forall|i: int| 0 <= i < drawn.len() implies all.contains(#[trigger] drawn[i])
        && drawn[i].name@ != e.name@ by {
        let x = choose|x: int| 0 <= x < entries.len() && entries[x] == drawn[i];
        assert(all[x] == drawn[i]);
        assert(all[x].name@ != all[entries.len() as int].name@);
    }
    let wide = drawn.insert(at, e);
    assert forall|i: int| 0 <= i < wide.len() implies #[trigger] wide[i] == (if i < at {
        drawn[i]
    } else if i == at {
        e
    } else {
        drawn[i - 1]
    }) by {}
    assert(names_differ(wide));
    assert forall|i: int| 0 <= i < wide.len() implies all.contains(#[trigger] wide[i]) by {
        if i < at {
            assert(all.contains(drawn[i]));
        } else if i > at {
            assert(all.contains(drawn[i - 1]));
        }
    }
    if at < n {
        assert forall|i: int| 0 <= i < next.len() implies #[trigger] next[i] == wide[i] by {}
    }
}

/// The first entries in their order, where they stand in one.
pub fn top_entries(entries: &Vec<ProcessTopEntry>, rank: Rank) -> (r: Vec<ProcessTopEntry>)
    requires
        names_differ(entries@),
    ensures
        r@.len() == (if entries@.len() < 5 {
            entries@.len() as int
        } else {
            5
        }),
        forall|i: int| 0 <= i < r@.len() ==> entries@.contains(#[trigger] r@[i]),
        forall|i: int, j: int|
            0 <= i < j < r@.len() ==> (#[trigger] r@[i]).name@ != (#[trigger] r@[j]).name@,
        is_drawn(r@, entries@, PROCESS_TOP_N as int),
        ranked(rank, entries@) ==> is_top(r@, entries@, rank, PROCESS_TOP_N as int),
{
    let mut top: Vec<ProcessTopEntry> = Vec::new();
    let n = entries.len();
    for k in 0..n
        invariant
            n == entries@.len(),
            names_differ(entries@),
            is_drawn(top@, entries@.take(k as int), PROCESS_TOP_N as int),
            ranked(rank, entries@) ==> is_top(
                top@,
                entries@.take(k as int),
                rank,
                PROCESS_TOP_N as int,
            ),
    {
        let mut at: usize = 0;
        while at < top.len() && !is_ahead(rank, &entries[k], &top[at])
            invariant
                k < n,
                n == entries@.len(),
                at <= top@.len(),
                forall|i: int| 0 <= i < at ==> !ahead(rank, entries@[k as int], #[trigger] top@[i]),
            decreases top@.len() - at,
        {
            at = at + 1;
        }
        let ghost before = top@;
        let ghost seen = entries@.take(k as int);
        let ghost e = entries@[k as int];
        proof {
            assert(seen.push(e) =~= entries@.take(k + 1));
            assert forall|i: int| 0 <= i < at implies ahead(rank, #[trigger] before[i], e) by {
                assert(seen.contains(before[i]));
                let x = choose|x: int| 0 <= x < seen.len() && seen[x] == before[i];
                assert(entries@[x] == before[i]);
                assert(entries@[x].name@ != entries@[k as int].name@);
                lemma_ahead_total(rank, e, before[i]);
            }
        }
        if at < PROCESS_TOP_N {
            top.insert(at, entries[k].clone());
            if top.len() > PROCESS_TOP_N {
                let _ = top.pop();
            }
        }
        proof {
            assert(names_differ(seen.push(e)));
            lemma_drawn_step(before, seen, e, PROCESS_TOP_N as int, at as int, top@);
            if ranked(rank, entries@) {
                assert forall|i: int| 0 <= i < seen.push(e).len() implies #[trigger] seen.push(
                    e,
                )[i] == entries@[i] by {}
                assert(ranked(rank, seen.push(e)));
                lemma_top_step(before, seen, e, rank, PROCESS_TOP_N as int, at as int, top@);
            }
        }
    }
    assert(entries@.take(n as int) =~= entries@);
    top
}

/// What a snapshot that may be missing holds.
pub open spec fn snapshot_view(s: Option<ProcessTopSnapshot>) -> Option<SnapshotView> {
    match s {
        Some(s) => Some(s@),
        None => None,
    }
}

/// The snapshot of a monitor that does not watch processes.
pub open spec fn no_snapshot() -> SnapshotView {
    SnapshotView {
        enabled: false,
        by_cpu: Seq::empty(),
        by_memory: Seq::empty(),
        sampled_at_ms: 0,
    }
}

/// The last snapshot, and when it was taken.
pub ghost struct TopMemory {
    pub at: Option<u64>,
    pub last: Option<SnapshotView>,
}

/// The snapshot that a call at `now` shows without asking the system: an empty one
/// where the processes are not watched, else the last one for a while after it was
/// taken. `None` where the system is asked.
pub open spec fn shown_top(memory: TopMemory, enabled: bool, now: u64) -> Option<SnapshotView> {
    if !enabled {
        Some(no_snapshot())
    } else if memory.at is Some && monitor::elapsed(memory.at->0, now) < PROCESS_TOP_MIN_INTERVAL {
        memory.last
    } else {
        None
    }
}

/// What is remembered after such a call: nothing where the processes are not watched.
pub open spec fn after_call(memory: TopMemory, enabled: bool) -> TopMemory {
    if enabled {
        memory
    } else {
        TopMemory { at: None, last: None }
    }
}

/// What is remembered after a fresh snapshot.
pub open spec fn after_reading(snapshot: SnapshotView, now: u64) -> TopMemory {
    TopMemory { at: Some(now), last: Some(snapshot) }
}

/// What is remembered after the calls, one after another, without a fresh snapshot
/// between them. Each call says whether the processes are watched.
pub open spec fn after_calls(memory: TopMemory, calls: Seq<bool>) -> TopMemory
    decreases calls.len(),
{
    if calls.len() == 0 {
        memory
    } else {
        after_call(after_calls(memory, calls.drop_last()), calls.last())
    }
}

/// Without watching, the snapshot is empty; and after a call without watching,
/// whatever the calls before and after it, the next one that watches asks the system
/// afresh.
pub proof fn law_not_watching_forgets(memory: TopMemory, calls: Seq<bool>, i: int, now: u64)
    requires
        0 <= i < calls.len(),
        !calls[i],
    ensures
        shown_top(memory, false, now) == Some(no_snapshot()),
        after_calls(memory, calls) == (TopMemory { at: None, last: None }),
        shown_top(after_calls(memory, calls), true, now) is None,
    decreases calls.len(),
{
    if i < calls.len() - 1 {
        law_not_watching_forgets(memory, calls.drop_last(), i, now);
    }
}

/// A fresh snapshot is what every call shows for four seconds, as long as all of them
/// watch, and the system is asked again after that.
pub proof fn law_snapshot_is_served_again(
    snapshot: SnapshotView,
    taken: u64,
    calls: Seq<bool>,
    now: u64,
)
    requires
        taken <= now,
        forall|i: int| 0 <= i < calls.len() ==> #[trigger] calls[i],
    ensures
        after_calls(after_reading(snapshot, taken), calls) == after_reading(snapshot, taken),
        shown_top(after_calls(after_reading(snapshot, taken), calls), true, now) == (if now - taken
            < PROCESS_TOP_MIN_INTERVAL {
            Some(snapshot)
        } else {
            None
        }),
    decreases calls.len(),
{
    if calls.len() > 0 {
        assert(calls.last() == calls[calls.len() - 1]);
        assert forall|i: int| 0 <= i < calls.drop_last().len() implies #[trigger] calls.drop_last()[i] by {
            assert(calls.drop_last()[i] == calls[i]);
        }
        law_snapshot_is_served_again(snapshot, taken, calls.drop_last(), now);
    }
}

impl MonitorState {
    /// What is remembered of the processes.
    pub open spec fn top_memory(&self) -> TopMemory {
        TopMemory { at: self.last_process_top_at, last: snapshot_view(self.last_process_top) }
    }

    /// The snapshot to show without asking the system: an empty one where the
    /// processes are not watched, which forgets the last one, and the last one for a
    /// while after it was taken. `None` where the system is to be asked.
    pub fn cached_process_top(&mut self, enabled: bool, now: u64) -> (r: Option<
        ProcessTopSnapshot,
    >)
        ensures
            !enabled ==> r is Some && !r->0.enabled && r->0.by_cpu@.len() == 0
                && r->0.by_memory@.len() == 0 && r->0.sampled_at_ms == 0,
            !enabled ==> final(self).last_process_top_at is None && final(self).last_process_top
                is None,
            enabled ==> (r is Some <==> old(self).last_process_top_at is Some
                && old(self).last_process_top is Some && now - old(self).last_process_top_at->0
                < 4_000_000_000),
            enabled && r is Some ==> r->0@ == old(self).last_process_top->0@,
            enabled ==> final(self).last_process_top_at == old(self).last_process_top_at
                && final(self).last_process_top == old(self).last_process_top,
            snapshot_view(r) == shown_top(old(self).top_memory(), enabled, now),
            final(self).top_memory() == after_call(old(self).top_memory(), enabled),
            final(self).memory() == old(self).memory(),
            final(self).history == old(self).history,
    {
        if !enabled {
            self.last_process_top = None;
            self.last_process_top_at = None;
            return Some(
                ProcessTopSnapshot {
                    enabled: false,
                    by_cpu: Vec::new(),
                    by_memory: Vec::new(),
                    sampled_at_ms: 0,
                },
            );
        }
        match (self.last_process_top_at, &self.last_process_top) {
            (Some(at), Some(cached)) => if now.saturating_sub(at) < PROCESS_TOP_MIN_INTERVAL {
                Some(cached.clone())
            } else {
                None
            },
            _ => None,
        }
    }

    /// Takes a snapshot of the processes that the system reports. The list by the
    /// processor is in order wherever the entries stand in one, which they do unless a
    /// share is no number.
    pub fn sample_process_top_cached(
        &mut self,
        processes: &Vec<ProcessReading>,
        now: u64,
        sampled_at_ms: u128,
    ) -> (r: ProcessTopSnapshot)
        ensures
            r.enabled,
            r.sampled_at_ms == sampled_at_ms,
            ({
                let entries = merged(processes@);
                let n = if entries.len() < 5 {
                    entries.len() as int
                } else {
                    5
                };
                &&& r.by_memory@.len() == n && r.by_cpu@.len() == n
                &&& forall|i: int|
                    0 <= i < n ==> entries.contains(#[trigger] r.by_memory@[i])
                &&& forall|i: int| 0 <= i < n ==> entries.contains(#[trigger] r.by_cpu@[i])
                &&& forall|i: int, j: int|
                    0 <= i < j < n ==> (#[trigger] r.by_memory@[i]).memory_bytes >= (
                    #[trigger] r.by_memory@[j]).memory_bytes && (r.by_memory@[i].memory_bytes
                        == r.by_memory@[j].memory_bytes ==> text::before(
                        r.by_memory@[i].name@,
                        r.by_memory@[j].name@,
                    ))
                &&& forall|k: int, i: int|
                    0 <= k < entries.len() && 0 <= i < n && !r.by_memory@.contains(
                        #[trigger] entries[k],
                    ) ==> (#[trigger] r.by_memory@[i]).memory_bytes >= entries[k].memory_bytes && (
                    r.by_memory@[i].memory_bytes == entries[k].memory_bytes ==> text::before(
                        r.by_memory@[i].name@,
                        entries[k].name@,
                    ))
            }),
            (forall|k: int|
                0 <= k < merged(processes@).len() ==> !(#[trigger] merged(
                    processes@,
                )[k]).cpu_percent.nan()) ==> {
                let entries = merged(processes@);
                &&& forall|i: int, j: int|
                    0 <= i < j < r.by_cpu@.len() ==> !(#[trigger] r.by_cpu@[i]).cpu_percent.below(
                        (#[trigger] r.by_cpu@[j]).cpu_percent,
                    ) && (!r.by_cpu@[j].cpu_percent.below(r.by_cpu@[i].cpu_percent)
                        ==> text::before(r.by_cpu@[i].name@, r.by_cpu@[j].name@))
                &&& forall|k: int, i: int|
                    0 <= k < entries.len() && 0 <= i < r.by_cpu@.len() && !r.by_cpu@.contains(
                        #[trigger] entries[k],
                    ) ==> !(#[trigger] r.by_cpu@[i]).cpu_percent.below(entries[k].cpu_percent) && (
                    !entries[k].cpu_percent.below(r.by_cpu@[i].cpu_percent) ==> text::before(
                        r.by_cpu@[i].name@,
                        entries[k].name@,
                    ))
            },
            final(self).last_process_top_at == Some(now),
            final(self).last_process_top is Some,
            final(self).last_process_top->0@ == r@,
            is_drawn(r.by_cpu@, merged(processes@), PROCESS_TOP_N as int),
            ranked(Rank::Cpu, merged(processes@)) ==> is_top(
                r.by_cpu@,
                merged(processes@),
                Rank::Cpu,
                PROCESS_TOP_N as int,
            ),
            is_top(r.by_memory@, merged(processes@), Rank::Memory, PROCESS_TOP_N as int),
            final(self).top_memory() == after_reading(r@, now),
            final(self).memory() == old(self).memory(),
            final(self).history == old(self).history,
    {
        let entries = merge_processes(processes);
        proof {
            law_names_are_merged(processes@);
            law_entries_are_ranked(merged(processes@));
        }
        let snapshot = ProcessTopSnapshot {
            enabled: true,
            by_cpu: top_entries(&entries, Rank::Cpu),
            by_memory: top_entries(&entries, Rank::Memory),
            sampled_at_ms,
        };
        self.last_process_top_at = Some(now);
        self.last_process_top = Some(snapshot.clone());
        proof {
            let entries = merged(processes@);
            if forall|k: int|
                0 <= k < entries.len() ==> !(#[trigger] entries[k]).cpu_percent.nan() {
                assert(cpu_known(entries));
                assert(ranked(Rank::Cpu, entries));
            }
        }
        snapshot
    }
}

/// The share of the processor that the processes of the name use together: their shares
/// added to zero, in the order in which the processes stand.
pub open spec fn cpu_named(processes: Seq<ProcessReading>, name: Seq<char>) -> Single
    decreases processes.len(),
{
    if processes.len() == 0 {
        number::single_whole(0)
    } else if processes.last().name@ == name {
        cpu_named(processes.drop_last(), name).sum(processes.last().cpu_percent)
    } else {
        cpu_named(processes.drop_last(), name)
    }
}

/// An entry has the shares of all processes of its name, however many they are.
pub proof fn law_merging_adds_all_shares(processes: Seq<ProcessReading>, i: int)
    requires
        0 <= i < merged(processes).len(),
    ensures
        merged(processes)[i].cpu_percent == cpu_named(processes, merged(processes)[i].name@),
        merged(processes)[i].count == capped(
            count_named(processes, merged(processes)[i].name@),
            u32::MAX as int,
        ),
        merged(processes)[i].memory_bytes == capped(
            memory_named(processes, merged(processes)[i].name@),
            u64::MAX as int,
        ),
    decreases processes.len(),
{
    let m = merged(processes);
    let name = m[i].name@;
    law_names_are_merged(processes);
    assert(m[i].name@.len() > 0);
    law_merging_counts_all(processes, name);
    lemma_entry_index(m, name);
    let at = entry_index(m, name);
    if at < i {
        assert(m[at].name@ == name);
    } else if i < at {
        assert(m[i].name@ != name);
    }
    assert(at == i);
    let before = processes.drop_last();
    let old = merged(before);
    let p = processes.last();
    lemma_entry_index(old, p.name@);
    let k = entry_index(old, p.name@);
    if p.name@.len() == 0 {
        law_merging_adds_all_shares(before, i);
    } else if k < old.len() {
        law_merging_adds_all_shares(before, i);
        if i != k {
            law_names_are_merged(before);
            assert(old[i].name@ != old[k].name@);
        }
    } else if i < old.len() {
        law_merging_adds_all_shares(before, i);
        assert(old[i].name@ != p.name@);
    } else {
        lemma_no_entry_no_share(before, p.name@);
    }
}

proof fn lemma_no_entry_no_share(processes: Seq<ProcessReading>, name: Seq<char>)
    requires
        name.len() > 0,
        entry_index(merged(processes), name) == merged(processes).len(),
    ensures
        cpu_named(processes, name) == number::single_whole(0),
    decreases processes.len(),
{
    if processes.len() > 0 {
        let before = processes.drop_last();
        law_merging_counts_all(processes, name);
        law_merging_counts_all(before, name);
        lemma_no_entry_no_share(before, name);
    }
}

/// What one more process does. Without a name it counts for nothing. Where its name has
/// an entry, that one gains its share, its memory and one process, as far as it can
/// hold them, and all others stay. Else an entry of that one process comes last.
pub proof fn law_one_more_process(processes: Seq<ProcessReading>, p: ProcessReading)
    ensures
        merged(Seq::empty()).len() == 0,
        p.name@.len() == 0 ==> merged(processes.push(p)) == merged(processes),
        forall|i: int|
            0 <= i < merged(processes).len() && (#[trigger] merged(processes)[i]).name@ == p.name@
                && p.name@.len() > 0 ==> {
                let old = merged(processes)[i];
                let new = merged(processes.push(p))[i];
                &&& merged(processes.push(p)).len() == merged(processes).len()
                &&& new.name@ == p.name@
                &&& new.cpu_percent == old.cpu_percent.sum(p.cpu_percent)
                &&& new.memory_bytes == (if old.memory_bytes + p.memory_bytes > u64::MAX {
                    u64::MAX as int
                } else {
                    old.memory_bytes + p.memory_bytes
                })
                &&& new.count == (if old.count == u32::MAX {
                    u32::MAX as int
                } else {
                    old.count + 1
                })
            },
        forall|i: int|
            0 <= i < merged(processes).len() && (#[trigger] merged(processes)[i]).name@ != p.name@
                ==> i < merged(processes.push(p)).len() && merged(processes.push(p))[i] == merged(
                processes,
            )[i],
        p.name@.len() > 0 && (forall|i: int|
            0 <= i < merged(processes).len() ==> (#[trigger] merged(processes)[i]).name@ != p.name@)
            ==> {
            let n = merged(processes).len();
            let new = merged(processes.push(p))[n as int];
            &&& merged(processes.push(p)).len() == n + 1
            &&& new.name@ == p.name@
            &&& new.cpu_percent == number::single_whole(0).sum(p.cpu_percent)
            &&& new.memory_bytes == p.memory_bytes
            &&& new.count == 1
        },
{
    let all = processes.push(p);
    let m = merged(processes);
    assert(all.drop_last() =~= processes);
    assert(all.last() == p);
    lemma_entry_index(m, p.name@);
    law_names_are_merged(processes);
    let k = entry_index(m, p.name@);
    if p.name@.len() > 0 {
        assert forall|i: int| 0 <= i < m.len() && (#[trigger] m[i]).name@ == p.name@ implies i
            == k by {
            if i < k {
                assert(m[i].name@ != p.name@);
            } else if k < i {
                assert(m[k].name@ == p.name@);
            }
        }
    }
}

/// What a list of the top processes is. It has as many entries as there are, up to five,
/// each of them once. By the processor: none uses less than one that comes after it or
/// is left out, and of two that use the same the one of the earlier name comes first.
/// By the memory the same.
pub proof fn law_top_lists_are_in_order(
    top: Seq<ProcessTopEntry>,
    entries: Seq<ProcessTopEntry>,
    i: int,
    e: ProcessTopEntry,
)
    requires
        0 <= i < top.len(),
        entries.contains(e),
        (exists|j: int| i < j < top.len() && #[trigger] top[j] == e) || !top.contains(e),
    ensures
        is_top(top, entries, Rank::Cpu, PROCESS_TOP_N as int) ==> {
            &&& !top[i].cpu_percent.below(e.cpu_percent)
            &&& !e.cpu_percent.below(top[i].cpu_percent) ==> text::before(top[i].name@, e.name@)
        },
        is_top(top, entries, Rank::Memory, PROCESS_TOP_N as int) ==> {
            &&& top[i].memory_bytes >= e.memory_bytes
            &&& top[i].memory_bytes == e.memory_bytes ==> text::before(top[i].name@, e.name@)
        },
        is_top(top, entries, Rank::Cpu, PROCESS_TOP_N as int) || is_top(
            top,
            entries,
            Rank::Memory,
            PROCESS_TOP_N as int,
        ) ==> entries.contains(top[i]) && top.len() == (if entries.len() < 5 {
            entries.len() as int
        } else {
            5
        }),
{
    let k = choose|k: int| 0 <= k < entries.len() && entries[k] == e;
    assert(entries[k] == e);
}

/// A snapshot is seen as what it holds.
pub proof fn law_snapshot_is_seen_whole(s: ProcessTopSnapshot)
    ensures
        s@.enabled == s.enabled,
        s@.by_cpu == s.by_cpu@,
        s@.by_memory == s.by_memory@,
        s@.sampled_at_ms == s.sampled_at_ms,
{
}

/// What is remembered of the processes is seen as what the monitor holds.
pub proof fn law_top_memory_is_seen_whole(s: MonitorState)
    ensures
        s.top_memory().at == s.last_process_top_at,
        s.last_process_top is Some ==> s.top_memory().last == Some(s.last_process_top->0@),
        s.last_process_top is None ==> s.top_memory().last is None,
{
}

/// Shares are known where each of them is a number; names differ where none stands twice.
pub proof fn law_known_entries(entries: Seq<ProcessTopEntry>)
    ensures
        cpu_known(entries) <==> forall|i: int|
            0 <= i < entries.len() ==> !(#[trigger] entries[i]).cpu_percent.nan(),
        names_differ(entries) <==> forall|i: int, j: int|
            0 <= i < j < entries.len() ==> (#[trigger] entries[i]).name@ != (
            #[trigger] entries[j]).name@,
{
}

} // verus!
