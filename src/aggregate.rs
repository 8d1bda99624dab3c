//! Process-group aggregation: application roots are found by their bundle
//! path, and each root's subtree is walked once, with one visited set shared
//! by all roots, so no process is counted twice.

use vstd::prelude::*;
use crate::metrics::{app_name_chars, app_name_of, opt_chars, ProcessInfo};
use crate::text::{chars_of, contains, contains_exec, push_all, push_str, string_of};

verus! {

/// `i` is a child of `j`: its parent id is `j`'s process id.
pub open spec fn edge(procs: Seq<ProcessInfo>, parents: Seq<Option<u32>>, j: int, i: int) -> bool {
    parents[i] == Some(procs[j].pid)
}

/// `path` leads from `r` to `i` through parent-to-child steps.
pub open spec fn is_path(procs: Seq<ProcessInfo>, parents: Seq<Option<u32>>, path: Seq<int>, r: int, i: int) -> bool {
    &&& path.len() >= 1
    &&& path[0] == r
    &&& path.last() == i
    &&& forall|t: int| 0 <= t < path.len() ==> 0 <= #[trigger] path[t] < procs.len()
    &&& forall|t: int| 0 <= t < path.len() - 1 ==> edge(procs, parents, #[trigger] path[t], path[t + 1])
}

/// `i` lies in the subtree of `r`.
pub open spec fn reachable(procs: Seq<ProcessInfo>, parents: Seq<Option<u32>>, r: int, i: int) -> bool {
    exists|path: Seq<int>| #[trigger] is_path(procs, parents, path, r, i)
}

/// The first record at or after `i` with process id `pid`.
pub open spec fn find_pid(procs: Seq<ProcessInfo>, pid: u32, i: int) -> Option<int>
    decreases procs.len() - i,
{
    if i < 0 || i >= procs.len() {
        None
    } else if procs[i].pid == pid {
        Some(i)
    } else {
        find_pid(procs, pid, i + 1)
    }
}

/// The application a record's executable belongs to.
pub open spec fn app_of(p: ProcessInfo) -> Option<Seq<char>> {
    match opt_chars(p.exe) {
        Some(path) => app_name_of(path),
        None => None,
    }
}

/// A record is the topmost process of its application: its parent is
/// unknown, or the parent's executable is not inside the same bundle.
pub open spec fn is_app_root(procs: Seq<ProcessInfo>, parents: Seq<Option<u32>>, i: int) -> bool {
    match app_of(procs[i]) {
        None => false,
        Some(a) => match parents[i] {
            None => true,
            Some(pp) => match find_pid(procs, pp, 0) {
                None => true,
                Some(j) => !(opt_chars(procs[j].exe) matches Some(pe) && contains(pe, a + ".app"@)),
            },
        },
    }
}

/// A record's share of memory or of CPU.
pub open spec fn weight(p: ProcessInfo, by_cpu: bool) -> int {
    if by_cpu { p.cpu_usage as int } else { p.memory_bytes as int }
}

/// The total weight of the first `k` records that are owned by group `g`.
pub open spec fn owned_total(procs: Seq<ProcessInfo>, owner: Seq<Option<int>>, g: int, k: int, by_cpu: bool) -> int
    decreases k,
{
    if k <= 0 {
        0
    } else {
        owned_total(procs, owner, g, k - 1, by_cpu) + if owner[k - 1] == Some(g) {
            weight(procs[k - 1], by_cpu)
        } else {
            0
        }
    }
}

/// The total weight of the first `k` records that satisfy `keep`.
pub open spec fn total_where(procs: Seq<ProcessInfo>, keep: spec_fn(int) -> bool, k: int, by_cpu: bool) -> int
    decreases k,
{
    if k <= 0 {
        0
    } else {
        total_where(procs, keep, k - 1, by_cpu) + if keep(k - 1) { weight(procs[k - 1], by_cpu) } else { 0 }
    }
}

/// A value capped at the largest `u64`.
pub open spec fn saturate(v: int) -> int {
    if v > u64::MAX { u64::MAX as int } else { v }
}

/// Whether two character vectors hold the same characters.
pub fn chars_eq(a: &Vec<char>, b: &Vec<char>) -> (r: bool)
    ensures
        r == (a@ == b@),
{
    if a.len() != b.len() {
        return false;
    }
    let mut i: usize = 0;
    while i < a.len()
        invariant
            a@.len() == b@.len(),
            i <= a.len(),
            forall|j: int| 0 <= j < i ==> a@[j] == b@[j],
        decreases a.len() - i,
    {
        if a[i] != b[i] {
            return false;
        }
        i = i + 1;
    }
    assert(a@ =~= b@);
    true
}

/// The first record with process id `pid`.
pub fn find_pid_exec(procs: &Vec<ProcessInfo>, pid: u32) -> (r: Option<usize>)
    ensures
        match r {
            Some(i) => find_pid(procs@, pid, 0) == Some(i as int),
            None => find_pid(procs@, pid, 0) is None,
        },
{
    let mut i: usize = 0;
    while i < procs.len()
        invariant
            i <= procs.len(),
            find_pid(procs@, pid, 0) == find_pid(procs@, pid, i as int),
        decreases procs.len() - i,
    {
        if procs[i].pid == pid {
            return Some(i);
        }
        i = i + 1;
    }
    None
}

/// The application a record's executable belongs to.
pub fn app_of_exec(p: &ProcessInfo) -> (r: Option<Vec<char>>)
    ensures
        match r {
            Some(a) => app_of(*p) == Some(a@),
            None => app_of(*p) is None,
        },
{
    match &p.exe {
        Some(path) => app_name_chars(&chars_of(path.as_str())),
        None => None,
    }
}

/// Whether a record is the topmost process of its application.
pub fn is_app_root_exec(procs: &Vec<ProcessInfo>, parents: &Vec<Option<u32>>, i: usize) -> (r: Option<Vec<char>>)
    requires
        i < procs.len(),
        parents@.len() == procs@.len(),
    ensures
        match r {
            Some(a) => is_app_root(procs@, parents@, i as int) && app_of(procs@[i as int]) == Some(a@),
            None => !is_app_root(procs@, parents@, i as int),
        },
{
    let a = match app_of_exec(&procs[i]) {
        Some(a) => a,
        None => return None,
    };
    let root = match parents[i] {
        None => true,
        Some(pp) => match find_pid_exec(procs, pp) {
            None => true,
            Some(j) => {
                proof { lemma_find_pid_bound(procs@, pp, 0); }
                match &procs[j].exe {
                    Some(pe) => {
                        let mut marker: Vec<char> = Vec::new();
                        push_all(&mut marker, &a);
                        push_str(&mut marker, ".app");
                        !contains_exec(&chars_of(pe.as_str()), &marker)
                    },
                    None => true,
                }
            },
        },
    };
    if root { Some(a) } else { None }
}

proof fn lemma_find_pid_bound(procs: Seq<ProcessInfo>, pid: u32, i: int)
    ensures
        find_pid(procs, pid, i) matches Some(j) ==> i <= j < procs.len() && procs[j].pid == pid,
    decreases procs.len() - i,
{
    if 0 <= i < procs.len() && procs[i].pid != pid {
        lemma_find_pid_bound(procs, pid, i + 1);
    }
}

/// A synthetic group record: no real process id, `NAME (Group)`, and the
/// saturated totals of its members.
pub open spec fn describes_group(p: ProcessInfo, name: Seq<char>, memory: int, cpu: int) -> bool {
    &&& p.pid == 0
    &&& p.parent_pid is None
    &&& p.exe is None
    &&& p.name@ == name + " (Group)"@
    &&& p.memory_bytes == saturate(memory)
    &&& p.cpu_usage == saturate(cpu)
}

/// The groups, among the first `k`, whose owned memory is not zero.
pub open spec fn nonzero_groups(procs: Seq<ProcessInfo>, owner: Seq<Option<int>>, k: int) -> Seq<int>
    decreases k,
{
    if k <= 0 {
        Seq::empty()
    } else if owned_total(procs, owner, k - 1, procs.len() as int, false) > 0 {
        nonzero_groups(procs, owner, k - 1).push(k - 1)
    } else {
        nonzero_groups(procs, owner, k - 1)
    }
}

/// Every owned record lies in the subtree of a root of its group's application.
pub open spec fn owners_sound(procs: Seq<ProcessInfo>, parents: Seq<Option<u32>>, owner: Seq<Option<int>>, names: Seq<Seq<char>>) -> bool {
    forall|i: int| 0 <= i < owner.len() && #[trigger] owner[i] is Some ==> {
        &&& 0 <= owner[i]->0 < names.len()
        &&& exists|r: int| 0 <= r < procs.len() && is_app_root(procs, parents, r)
            && app_of(procs[r]) == Some(names[owner[i]->0]) && #[trigger] reachable(procs, parents, r, i)
    }
}

/// Group names are distinct.
pub open spec fn names_distinct(names: Seq<Seq<char>>) -> bool {
    forall|g: int, h: int| 0 <= g < names.len() && 0 <= h < names.len() && g != h ==> names[g] != names[h]
}

/// The outcome of aggregation, given who owns each record and the group names.
pub open spec fn aggregation_of(
    procs: Seq<ProcessInfo>,
    parents: Seq<Option<u32>>,
    owner: Seq<Option<int>>,
    names: Seq<Seq<char>>,
    groups: Seq<ProcessInfo>,
) -> bool {
    let n = procs.len() as int;
    let ng = nonzero_groups(procs, owner, names.len() as int);
    &&& owner.len() == n
    &&& owners_sound(procs, parents, owner, names)
    &&& names_distinct(names)
    // every application with a root has a group
    &&& forall|r: int| 0 <= r < n && #[trigger] is_app_root(procs, parents, r)
        ==> exists|g: int| 0 <= g < names.len() && app_of(procs[r]) == Some(#[trigger] names[g])
    // every record in the subtree of a root is counted in some group
    &&& forall|r: int, i: int| 0 <= r < n && 0 <= i < n && #[trigger] is_app_root(procs, parents, r)
        && #[trigger] reachable(procs, parents, r, i) ==> owner[i] is Some
    // one record per group with memory, in order
    &&& groups.len() == ng.len()
    &&& forall|k: int| 0 <= k < ng.len() ==> describes_group(#[trigger] groups[k], names[ng[k]],
        owned_total(procs, owner, ng[k], n, false), owned_total(procs, owner, ng[k], n, true))
}

/// The number of unset flags.
pub open spec fn count_unset(v: Seq<bool>, k: int) -> int
    decreases k,
{
    if k <= 0 { 0 } else { count_unset(v, k - 1) + if v[k - 1] { 0int } else { 1int } }
}

proof fn lemma_count_unset_set(v: Seq<bool>, c: int, k: int)
    requires
        0 <= c < v.len(),
        !v[c],
        0 <= k <= v.len(),
    ensures
        count_unset(v.update(c, true), k) == count_unset(v, k) - (if c < k { 1int } else { 0int }),
        count_unset(v, k) >= 0,
    decreases k,
{
    if k > 0 {
        lemma_count_unset_set(v, c, k - 1);
    }
}

proof fn lemma_owned_total_update(procs: Seq<ProcessInfo>, owner: Seq<Option<int>>, c: int, g0: int, g: int, k: int, by_cpu: bool)
    requires
        0 <= c < owner.len(),
        owner[c] is None,
        0 <= k <= owner.len(),
    ensures
        owned_total(procs, owner.update(c, Some(g0)), g, k, by_cpu)
            == owned_total(procs, owner, g, k, by_cpu) + (if c < k && g == g0 { weight(procs[c], by_cpu) } else { 0 }),
    decreases k,
{
    if k > 0 {
        lemma_owned_total_update(procs, owner, c, g0, g, k - 1, by_cpu);
    }
}

proof fn lemma_owned_total_nonneg(procs: Seq<ProcessInfo>, owner: Seq<Option<int>>, g: int, k: int, by_cpu: bool)
    ensures
        owned_total(procs, owner, g, k, by_cpu) >= 0,
    decreases k,
{
    if k > 0 {
        lemma_owned_total_nonneg(procs, owner, g, k - 1, by_cpu);
    }
}

proof fn lemma_owned_total_none(procs: Seq<ProcessInfo>, owner: Seq<Option<int>>, g: int, k: int, by_cpu: bool)
    requires
        forall|i: int| 0 <= i < k ==> owner[i] != Some(g),
    ensures
        owned_total(procs, owner, g, k, by_cpu) == 0,
    decreases k,
{
    if k > 0 {
        lemma_owned_total_none(procs, owner, g, k - 1, by_cpu);
    }
}

/// One step further along an edge stays in the subtree.
proof fn lemma_reach_step(procs: Seq<ProcessInfo>, parents: Seq<Option<u32>>, r: int, j: int, i: int)
    requires
        0 <= j < procs.len(),
        0 <= i < procs.len(),
        reachable(procs, parents, r, j),
        edge(procs, parents, j, i),
    ensures
        reachable(procs, parents, r, i),
{
    let path = choose|path: Seq<int>| #[trigger] is_path(procs, parents, path, r, j);
    let p2 = path.push(i);
    assert forall|t: int| 0 <= t < p2.len() - 1 implies edge(procs, parents, #[trigger] p2[t], p2[t + 1]) by {
        if t < path.len() - 1 {
            assert(p2[t] == path[t] && p2[t + 1] == path[t + 1]);
        } else {
            assert(p2[t] == j && p2[t + 1] == i);
        }
    }
    assert(is_path(procs, parents, p2, r, i));
}

/// A root is in its own subtree.
proof fn lemma_reach_self(procs: Seq<ProcessInfo>, parents: Seq<Option<u32>>, r: int)
    requires
        0 <= r < procs.len(),
    ensures
        reachable(procs, parents, r, r),
{
    let path = seq![r];
    assert(is_path(procs, parents, path, r, r));
}

/// A visited set that holds `r` and is closed under edges holds `r`'s subtree.
proof fn lemma_closed_reach(procs: Seq<ProcessInfo>, parents: Seq<Option<u32>>, visited: Seq<bool>, r: int, i: int)
    requires
        visited.len() == procs.len(),
        0 <= r < procs.len(),
        visited[r],
        forall|v: int, c: int| 0 <= v < procs.len() && 0 <= c < procs.len() && #[trigger] visited[v]
            && #[trigger] edge(procs, parents, v, c) ==> visited[c],
        reachable(procs, parents, r, i),
    ensures
        visited[i],
{
    let path = choose|path: Seq<int>| #[trigger] is_path(procs, parents, path, r, i);
    lemma_closed_path(procs, parents, visited, path, r, i, path.len() - 1);
}

proof fn lemma_closed_path(procs: Seq<ProcessInfo>, parents: Seq<Option<u32>>, visited: Seq<bool>, path: Seq<int>, r: int, i: int, t: int)
    requires
        visited.len() == procs.len(),
        is_path(procs, parents, path, r, i),
        visited[r],
        forall|v: int, c: int| 0 <= v < procs.len() && 0 <= c < procs.len() && #[trigger] visited[v]
            && #[trigger] edge(procs, parents, v, c) ==> visited[c],
        0 <= t < path.len(),
    ensures
        visited[path[t]],
    decreases t,
{
    if t > 0 {
        lemma_closed_path(procs, parents, visited, path, r, i, t - 1);
        assert(0 <= path[t - 1] < procs.len() && 0 <= path[t] < procs.len());
        assert(edge(procs, parents, path[t - 1], path[t]));
    }
}

/// The characters of each name.
pub open spec fn views(names: Seq<Vec<char>>) -> Seq<Seq<char>> {
    names.map_values(|v: Vec<char>| v@)
}

/// What holds throughout aggregation of the bookkeeping it keeps.
pub open spec fn walk_state(
    procs: Seq<ProcessInfo>,
    parents: Seq<Option<u32>>,
    visited: Seq<bool>,
    owner: Seq<Option<int>>,
    names: Seq<Seq<char>>,
    mem: Seq<u64>,
    cpu: Seq<u64>,
) -> bool {
    let n = procs.len() as int;
    &&& visited.len() == n
    &&& owner.len() == n
    &&& forall|i: int| 0 <= i < n ==> (#[trigger] visited[i] <==> owner[i] is Some)
    &&& owners_sound(procs, parents, owner, names)
    &&& names_distinct(names)
    &&& mem.len() == names.len()
    &&& cpu.len() == names.len()
    &&& forall|g: int| 0 <= g < names.len() ==> #[trigger] mem[g] == saturate(owned_total(procs, owner, g, n, false))
    &&& forall|g: int| 0 <= g < names.len() ==> #[trigger] cpu[g] == saturate(owned_total(procs, owner, g, n, true))
}

/// Every root before `r` is visited and has a group.
pub open spec fn roots_done(procs: Seq<ProcessInfo>, parents: Seq<Option<u32>>, visited: Seq<bool>, names: Seq<Seq<char>>, r: int) -> bool {
    forall|q: int| 0 <= q < r && #[trigger] is_app_root(procs, parents, q) ==> {
        &&& visited[q]
        &&& exists|g: int| 0 <= g < names.len() && app_of(procs[q]) == Some(#[trigger] names[g])
    }
}

/// The index of the group named `a`, if there is one.
fn find_group(names: &Vec<Vec<char>>, a: &Vec<char>) -> (r: Option<usize>)
    ensures
        match r {
            Some(g) => g < names@.len() && views(names@)[g as int] == a@,
            None => forall|k: int| 0 <= k < names@.len() ==> views(names@)[k] != a@,
        },
{
    let mut h: usize = 0;
    while h < names.len()
        invariant
            h <= names@.len(),
            forall|k: int| 0 <= k < h ==> views(names@)[k] != a@,
        decreases names@.len() - h,
    {
        if chars_eq(&names[h], a) {
            return Some(h);
        }
        h = h + 1;
    }
    None
}

/// Visited flags closed under edges: every child of a visited record is visited.
pub open spec fn closed(procs: Seq<ProcessInfo>, parents: Seq<Option<u32>>, visited: Seq<bool>) -> bool {
    forall|v: int, c: int| 0 <= v < procs.len() && 0 <= c < procs.len() && #[trigger] visited[v]
        && #[trigger] edge(procs, parents, v, c) ==> visited[c]
}

/// Flags only ever go from unset to set.
pub open spec fn grows(before: Seq<bool>, after: Seq<bool>) -> bool {
    &&& after.len() == before.len()
    &&& forall|i: int| 0 <= i < before.len() && #[trigger] before[i] ==> after[i]
}

/// Pushes every child of `cur` onto the stack.
fn push_children(procs: &Vec<ProcessInfo>, parents: &Vec<Option<u32>>, cur: usize, stack: &mut Vec<usize>, r: Ghost<int>)
    requires
        parents@.len() == procs@.len(),
        cur < procs@.len(),
        0 <= r@ < procs@.len(),
        reachable(procs@, parents@, r@, cur as int),
        forall|k: int| 0 <= k < old(stack)@.len() ==> #[trigger] old(stack)@[k] < procs@.len()
            && reachable(procs@, parents@, r@, old(stack)@[k] as int),
    ensures
        final(stack)@.len() >= old(stack)@.len(),
        final(stack)@.subrange(0, old(stack)@.len() as int) == old(stack)@,
        forall|k: int| 0 <= k < final(stack)@.len() ==> #[trigger] final(stack)@[k] < procs@.len()
            && reachable(procs@, parents@, r@, final(stack)@[k] as int),
        forall|c: int| 0 <= c < procs@.len() && #[trigger] edge(procs@, parents@, cur as int, c)
            ==> final(stack)@.contains(c as usize),
{
    let n = procs.len();
    let pid = procs[cur].pid;
    let mut c: usize = 0;
    while c < n
        invariant
            n == procs@.len(),
            parents@.len() == procs@.len(),
            cur < n,
            pid == procs@[cur as int].pid,
            0 <= r@ < n,
            c <= n,
            reachable(procs@, parents@, r@, cur as int),
            stack@.len() >= old(stack)@.len(),
            stack@.subrange(0, old(stack)@.len() as int) == old(stack)@,
            forall|k: int| 0 <= k < stack@.len() ==> #[trigger] stack@[k] < n
                && reachable(procs@, parents@, r@, stack@[k] as int),
            forall|c2: int| 0 <= c2 < c && #[trigger] edge(procs@, parents@, cur as int, c2)
                ==> stack@.contains(c2 as usize),
        decreases n - c,
    {
        let is_child = match parents[c] {
            Some(pp) => pp == pid,
            None => false,
        };
        if is_child {
            proof { lemma_reach_step(procs@, parents@, r@, cur as int, c as int); }
            let ghost before_push = stack@;
            stack.push(c);
            proof {
                assert forall|c2: int| 0 <= c2 < c + 1 && #[trigger] edge(procs@, parents@, cur as int, c2)
                    implies stack@.contains(c2 as usize) by {
                    if c2 < c {
                        let k = choose|k: int| 0 <= k < before_push.len() && before_push[k] == c2 as usize;
                        assert(stack@[k] == c2 as usize);
                    } else {
                        assert(stack@[stack@.len() - 1] == c2 as usize);
                    }
                }
                assert(stack@.subrange(0, old(stack)@.len() as int) =~= old(stack)@) by {
                    assert(before_push.subrange(0, old(stack)@.len() as int) == old(stack)@);
                }
            }
        }
        c = c + 1;
    }
}

/// Marks `cur` visited and counts it in group `g`.
fn claim(
    procs: &Vec<ProcessInfo>,
    parents: &Vec<Option<u32>>,
    visited: &mut Vec<bool>,
    mem: &mut Vec<u64>,
    cpu: &mut Vec<u64>,
    cur: usize,
    g: usize,
    r: Ghost<int>,
    owner: Ghost<Seq<Option<int>>>,
    names: Ghost<Seq<Seq<char>>>,
) -> (owner2: Ghost<Seq<Option<int>>>)
    requires
        walk_state(procs@, parents@, old(visited)@, owner@, names@, old(mem)@, old(cpu)@),
        cur < procs@.len(),
        !old(visited)@[cur as int],
        g < names@.len(),
        0 <= r@ < procs@.len(),
        is_app_root(procs@, parents@, r@),
        app_of(procs@[r@]) == Some(names@[g as int]),
        reachable(procs@, parents@, r@, cur as int),
    ensures
        owner2@ == owner@.update(cur as int, Some(g as int)),
        final(visited)@ == old(visited)@.update(cur as int, true),
        walk_state(procs@, parents@, final(visited)@, owner2@, names@, final(mem)@, final(cpu)@),
{
    let ghost pr = procs@;
    let ghost n = pr.len() as int;
    let ghost o2 = owner@.update(cur as int, Some(g as int));
    proof {
        assert(owner@[cur as int] is None);
        lemma_owned_total_update(pr, owner@, cur as int, g as int, g as int, n, false);
        lemma_owned_total_update(pr, owner@, cur as int, g as int, g as int, n, true);
        lemma_owned_total_nonneg(pr, owner@, g as int, n, false);
        lemma_owned_total_nonneg(pr, owner@, g as int, n, true);
        assert forall|h: int| 0 <= h < names@.len() && h != g implies
            owned_total(pr, o2, h, n, false) == owned_total(pr, owner@, h, n, false)
            && owned_total(pr, o2, h, n, true) == owned_total(pr, owner@, h, n, true) by {
            lemma_owned_total_update(pr, owner@, cur as int, g as int, h, n, false);
            lemma_owned_total_update(pr, owner@, cur as int, g as int, h, n, true);
        }
    }
    visited.set(cur, true);
    let m1 = mem[g].saturating_add(procs[cur].memory_bytes);
    mem.set(g, m1);
    let c1 = cpu[g].saturating_add(procs[cur].cpu_usage);
    cpu.set(g, c1);
    proof {
        assert forall|i: int| 0 <= i < o2.len() && #[trigger] o2[i] is Some implies {
            &&& 0 <= o2[i]->0 < names@.len()
            &&& exists|q: int| 0 <= q < pr.len() && is_app_root(pr, parents@, q)
                && app_of(pr[q]) == Some(names@[o2[i]->0]) && #[trigger] reachable(pr, parents@, q, i)
        } by {
            if i == cur as int {
                assert(reachable(pr, parents@, r@, i));
            } else {
                assert(owner@[i] is Some);
            }
        }
        assert forall|h: int| 0 <= h < names@.len() implies #[trigger] mem@[h] == saturate(owned_total(pr, o2, h, n, false)) by {
            if h != g {
                assert(mem@[h] == old(mem)@[h]);
            }
        }
        assert forall|h: int| 0 <= h < names@.len() implies #[trigger] cpu@[h] == saturate(owned_total(pr, o2, h, n, true)) by {
            if h != g {
                assert(cpu@[h] == old(cpu)@[h]);
            }
        }
    }
    Ghost(o2)
}

/// Walks the subtree of root `r` with an explicit stack, counting every
/// record not yet visited in group `g`.
fn visit_subtree(
    procs: &Vec<ProcessInfo>,
    parents: &Vec<Option<u32>>,
    visited: &mut Vec<bool>,
    mem: &mut Vec<u64>,
    cpu: &mut Vec<u64>,
    r: usize,
    g: usize,
    owner: Ghost<Seq<Option<int>>>,
    names: Ghost<Seq<Seq<char>>>,
) -> (owner2: Ghost<Seq<Option<int>>>)
    requires
        parents@.len() == procs@.len(),
        walk_state(procs@, parents@, old(visited)@, owner@, names@, old(mem)@, old(cpu)@),
        closed(procs@, parents@, old(visited)@),
        r < procs@.len(),
        g < names@.len(),
        is_app_root(procs@, parents@, r as int),
        app_of(procs@[r as int]) == Some(names@[g as int]),
    ensures
        walk_state(procs@, parents@, final(visited)@, owner2@, names@, final(mem)@, final(cpu)@),
        closed(procs@, parents@, final(visited)@),
        final(visited)@[r as int],
        grows(old(visited)@, final(visited)@),
{
    let ghost pr = procs@;
    let ghost pa = parents@;
    let n = procs.len();
    let ghost mut own = owner@;
    proof { lemma_reach_self(pr, pa, r as int); }
    let mut stack: Vec<usize> = vec![r];
    while stack.len() > 0
        invariant
            n == pr.len(),
            pr == procs@,
            pa == parents@,
            pa.len() == pr.len(),
            r < n,
            g < names@.len(),
            is_app_root(pr, pa, r as int),
            app_of(pr[r as int]) == Some(names@[g as int]),
            walk_state(pr, pa, visited@, own, names@, mem@, cpu@),
            forall|k: int| 0 <= k < stack@.len() ==> #[trigger] stack@[k] < n
                && reachable(pr, pa, r as int, stack@[k] as int),
            forall|v: int, c: int| 0 <= v < n && 0 <= c < n && #[trigger] visited@[v]
                && #[trigger] edge(pr, pa, v, c) ==> visited@[c] || stack@.contains(c as usize),
            visited@[r as int] || stack@.contains(r),
            grows(old(visited)@, visited@),
        decreases count_unset(visited@, n as int), stack@.len(),
    {
        let ghost before_stack = stack@;
        let ghost count0 = count_unset(visited@, n as int);
        let cur = stack.pop().unwrap();
        proof {
            assert(stack@ =~= before_stack.drop_last());
            assert(cur == before_stack[before_stack.len() - 1]);
            assert forall|x: usize| before_stack.contains(x) && x != cur implies stack@.contains(x) by {
                let k = choose|k: int| 0 <= k < before_stack.len() && before_stack[k] == x;
                assert(k < before_stack.len() - 1);
                assert(stack@[k] == x);
            }
            lemma_count_unset_nonneg(visited@, n as int);
        }
        if visited[cur] {
            assert(count_unset(visited@, n as int) == count0);
            assert(stack@.len() < before_stack.len());
        } else {
            proof {
                lemma_count_unset_set(visited@, cur as int, n as int);
                assert(reachable(pr, pa, r as int, cur as int));
            }
            let ghost v0 = visited@;
            let o2 = claim(procs, parents, visited, mem, cpu, cur, g, Ghost(r as int), Ghost(own), names);
            proof { own = o2@; }
            let ghost mid = stack@;
            push_children(procs, parents, cur, &mut stack, Ghost(r as int));
            proof {
                assert forall|x: usize| mid.contains(x) implies stack@.contains(x) by {
                    let k = choose|k: int| 0 <= k < mid.len() && mid[k] == x;
                    assert(stack@.subrange(0, mid.len() as int)[k] == x);
                }
                assert forall|i: int| 0 <= i < old(visited)@.len() && #[trigger] old(visited)@[i] implies visited@[i] by {
                    assert(v0[i]);
                }
                assert(count_unset(visited@, n as int) < count0);
                lemma_count_unset_nonneg(visited@, n as int);
            }
        }
    }
    Ghost(own)
}

proof fn lemma_count_unset_nonneg(v: Seq<bool>, k: int)
    ensures
        count_unset(v, k) >= 0,
    decreases k,
{
    if k > 0 {
        lemma_count_unset_nonneg(v, k - 1);
    }
}

/// The records of the groups with memory, in group order.
fn group_records(
    mem: &Vec<u64>,
    cpu: &Vec<u64>,
    names: &Vec<Vec<char>>,
    procs: Ghost<Seq<ProcessInfo>>,
    parents: Ghost<Seq<Option<u32>>>,
    visited: Ghost<Seq<bool>>,
    owner: Ghost<Seq<Option<int>>>,
) -> (out: Vec<ProcessInfo>)
    requires
        walk_state(procs@, parents@, visited@, owner@, views(names@), mem@, cpu@),
    ensures
        out@.len() == nonzero_groups(procs@, owner@, names@.len() as int).len(),
        forall|k: int| 0 <= k < out@.len() ==> describes_group(#[trigger] out@[k],
            views(names@)[nonzero_groups(procs@, owner@, names@.len() as int)[k]],
            owned_total(procs@, owner@, nonzero_groups(procs@, owner@, names@.len() as int)[k], procs@.len() as int, false),
            owned_total(procs@, owner@, nonzero_groups(procs@, owner@, names@.len() as int)[k], procs@.len() as int, true)),
{
    let ghost pr = procs@;
    let ghost n = pr.len() as int;
    let ghost gnames = views(names@);
    let mut out: Vec<ProcessInfo> = Vec::new();
    let mut g: usize = 0;
    while g < names.len()
        invariant
            g <= names@.len(),
            pr == procs@,
            n == pr.len(),
            gnames == views(names@),
            walk_state(pr, parents@, visited@, owner@, gnames, mem@, cpu@),
            out@.len() == nonzero_groups(pr, owner@, g as int).len(),
            forall|k: int| 0 <= k < out@.len() ==> describes_group(#[trigger] out@[k],
                gnames[nonzero_groups(pr, owner@, g as int)[k]],
                owned_total(pr, owner@, nonzero_groups(pr, owner@, g as int)[k], n, false),
                owned_total(pr, owner@, nonzero_groups(pr, owner@, g as int)[k], n, true)),
        decreases names@.len() - g,
    {
        proof {
            assert(gnames.len() == names@.len());
            lemma_owned_total_nonneg(pr, owner@, g as int, n, false);
            assert(mem@[g as int] == saturate(owned_total(pr, owner@, g as int, n, false)));
            assert(cpu@[g as int] == saturate(owned_total(pr, owner@, g as int, n, true)));
        }
        if mem[g] > 0 {
            let mut name: Vec<char> = Vec::new();
            push_all(&mut name, &names[g]);
            push_str(&mut name, " (Group)");
            let rec = ProcessInfo {
                pid: 0,
                parent_pid: None,
                name: string_of(&name),
                memory_bytes: mem[g],
                cpu_usage: cpu[g],
                exe: None,
            };
            let ghost before = out@;
            out.push(rec);
            proof {
                let ng = nonzero_groups(pr, owner@, g + 1);
                assert(ng == nonzero_groups(pr, owner@, g as int).push(g as int));
                assert(gnames[g as int] == names@[g as int]@);
                assert forall|k: int| 0 <= k < out@.len() implies describes_group(#[trigger] out@[k],
                    gnames[ng[k]], owned_total(pr, owner@, ng[k], n, false),
                    owned_total(pr, owner@, ng[k], n, true)) by {
                    if k < before.len() {
                        assert(out@[k] == before[k]);
                    }
                }
            }
        }
        g = g + 1;
    }
    out
}

/// Adds a group named `a` with zero totals.
fn add_group(names: &mut Vec<Vec<char>>, mem: &mut Vec<u64>, cpu: &mut Vec<u64>, a: Vec<char>,
    procs: Ghost<Seq<ProcessInfo>>, parents: Ghost<Seq<Option<u32>>>, visited: Ghost<Seq<bool>>,
    owner: Ghost<Seq<Option<int>>>, r: Ghost<int>) -> (g: usize)
    requires
        walk_state(procs@, parents@, visited@, owner@, views(old(names)@), old(mem)@, old(cpu)@),
        forall|k: int| 0 <= k < old(names)@.len() ==> views(old(names)@)[k] != a@,
        roots_done(procs@, parents@, visited@, views(old(names)@), r@),
    ensures
        g == old(names)@.len(),
        final(names)@.len() == g + 1,
        views(final(names)@) == views(old(names)@).push(a@),
        walk_state(procs@, parents@, visited@, owner@, views(final(names)@), final(mem)@, final(cpu)@),
        roots_done(procs@, parents@, visited@, views(final(names)@), r@),
{
    let ghost before = views(names@);
    let ghost pr = procs@;
    let ghost pa = parents@;
    let ghost n = pr.len() as int;
    names.push(a);
    mem.push(0);
    cpu.push(0);
    proof {
        let g = before.len() as int;
        let after = views(names@);
        assert(after =~= before.push(a@));
        assert forall|i: int| 0 <= i < owner@.len() implies owner@[i] != Some(g) by {
            if owner@[i] is Some {
                assert(0 <= owner@[i]->0 < before.len());
            }
        }
        lemma_owned_total_none(pr, owner@, g, n, false);
        lemma_owned_total_none(pr, owner@, g, n, true);
        assert forall|q: int| 0 <= q < r@ && #[trigger] is_app_root(pr, pa, q) implies {
            &&& visited@[q]
            &&& exists|h: int| 0 <= h < after.len() && app_of(pr[q]) == Some(#[trigger] after[h])
        } by {
            let h = choose|h: int| 0 <= h < before.len() && app_of(pr[q]) == Some(#[trigger] before[h]);
            assert(after[h] == before[h]);
        }
        assert forall|i: int| 0 <= i < owner@.len() && #[trigger] owner@[i] is Some implies {
            &&& 0 <= owner@[i]->0 < after.len()
            &&& exists|q: int| 0 <= q < pr.len() && is_app_root(pr, pa, q)
                && app_of(pr[q]) == Some(after[owner@[i]->0]) && #[trigger] reachable(pr, pa, q, i)
        } by {
            let gi = owner@[i]->0;
            assert(after[gi] == before[gi]);
        }
        assert forall|h: int| 0 <= h < after.len() implies #[trigger] mem@[h] == saturate(owned_total(pr, owner@, h, n, false)) by {
            if h < g {
                assert(mem@[h] == old(mem)@[h]);
            }
        }
        assert forall|h: int| 0 <= h < after.len() implies #[trigger] cpu@[h] == saturate(owned_total(pr, owner@, h, n, true)) by {
            if h < g {
                assert(cpu@[h] == old(cpu)@[h]);
            }
        }
    }
    names.len() - 1
}

/// Aggregates memory and CPU per application: one synthetic record per
/// application whose subtrees hold any memory. `parents[i]` is the parent
/// process id of `procs[i]`.
pub fn aggregate_groups(procs: &Vec<ProcessInfo>, parents: &Vec<Option<u32>>) -> (r: Vec<ProcessInfo>)
    requires
        parents@.len() == procs@.len(),
    ensures
        exists|owner: Seq<Option<int>>, names: Seq<Seq<char>>| aggregation_of(procs@, parents@, owner, names, r@),
{
    let n = procs.len();
    let ghost pr = procs@;
    let ghost pa = parents@;
    let mut visited: Vec<bool> = Vec::new();
    while visited.len() < n
        invariant
            visited@.len() <= n,
            forall|i: int| 0 <= i < visited@.len() ==> !#[trigger] visited@[i],
        decreases n - visited@.len(),
    {
        visited.push(false);
    }
    let ghost mut owner: Seq<Option<int>> = Seq::new(n as nat, |i: int| None::<int>);
    let mut names: Vec<Vec<char>> = Vec::new();
    let mut mem: Vec<u64> = Vec::new();
    let mut cpu: Vec<u64> = Vec::new();
    let mut r: usize = 0;
    while r < n
        invariant
            n == pr.len(),
            pr == procs@,
            pa == parents@,
            pa.len() == pr.len(),
            r <= n,
            walk_state(pr, pa, visited@, owner, views(names@), mem@, cpu@),
            closed(pr, pa, visited@),
            roots_done(pr, pa, visited@, views(names@), r as int),
        decreases n - r,
    {
        match is_app_root_exec(procs, parents, r) {
            Some(a) => {
                let g = match find_group(&names, &a) {
                    Some(g) => g,
                    None => add_group(&mut names, &mut mem, &mut cpu, a.clone(), Ghost(pr), Ghost(pa),
                        Ghost(visited@), Ghost(owner), Ghost(r as int)),
                };
                let ghost v0 = visited@;
                let o2 = visit_subtree(procs, parents, &mut visited, &mut mem, &mut cpu, r, g, Ghost(owner),
                    Ghost(views(names@)));
                proof {
                    owner = o2@;
                    let gn = views(names@);
                    assert forall|q: int| 0 <= q < r + 1 && #[trigger] is_app_root(pr, pa, q) implies {
                        &&& visited@[q]
                        &&& exists|h: int| 0 <= h < gn.len() && app_of(pr[q]) == Some(#[trigger] gn[h])
                    } by {
                        if q < r {
                            assert(v0[q]);
                        } else {
                            assert(gn[g as int] == a@);
                        }
                    }
                }
            },
            None => {},
        }
        r = r + 1;
    }
    proof {
        assert forall|q: int, i: int| 0 <= q < n && 0 <= i < n && #[trigger] is_app_root(pr, pa, q)
            && #[trigger] reachable(pr, pa, q, i) implies owner[i] is Some by {
            lemma_closed_reach(pr, pa, visited@, q, i);
            assert(visited@[i]);
        }
    }
    let out = group_records(&mem, &cpu, &names, Ghost(pr), Ghost(pa), Ghost(visited@), Ghost(owner));
    assert(aggregation_of(pr, pa, owner, views(names@), out@));
    out
}

proof fn lemma_nonzero_groups_increasing(procs: Seq<ProcessInfo>, owner: Seq<Option<int>>, k: int)
    ensures
        forall|a: int, b: int| 0 <= a < b < nonzero_groups(procs, owner, k).len()
            ==> nonzero_groups(procs, owner, k)[a] < nonzero_groups(procs, owner, k)[b],
        forall|a: int| 0 <= a < nonzero_groups(procs, owner, k).len()
            ==> 0 <= #[trigger] nonzero_groups(procs, owner, k)[a] < k,
    decreases k,
{
    if k > 0 {
        lemma_nonzero_groups_increasing(procs, owner, k - 1);
        let prev = nonzero_groups(procs, owner, k - 1);
        let cur = nonzero_groups(procs, owner, k);
        if owned_total(procs, owner, k - 1, procs.len() as int, false) > 0 {
            assert(cur == prev.push(k - 1));
            assert forall|a: int| 0 <= a < cur.len() implies 0 <= #[trigger] cur[a] < k by {
                if a < prev.len() {
                    assert(cur[a] == prev[a]);
                }
            }
            assert forall|a: int, b: int| 0 <= a < b < cur.len() implies cur[a] < cur[b] by {
                assert(cur[a] == prev[a]);
                if b < prev.len() {
                    assert(cur[b] == prev[b]);
                }
            }
        } else {
            assert(cur == prev);
        }
    }
}

proof fn lemma_owned_within(procs: Seq<ProcessInfo>, owner: Seq<Option<int>>, g: int, keep: spec_fn(int) -> bool, k: int, by_cpu: bool)
    requires
        forall|i: int| 0 <= i < k && #[trigger] owner[i] == Some(g) ==> keep(i),
    ensures
        owned_total(procs, owner, g, k, by_cpu) <= total_where(procs, keep, k, by_cpu),
    decreases k,
{
    if k > 0 {
        lemma_owned_within(procs, owner, g, keep, k - 1, by_cpu);
    }
}

/// The records in the subtree of some root of application `app`.
pub open spec fn in_app_subtree(procs: Seq<ProcessInfo>, parents: Seq<Option<u32>>, app: Seq<char>) -> spec_fn(int) -> bool {
    |i: int| exists|r: int| 0 <= r < procs.len() && is_app_root(procs, parents, r)
        && app_of(procs[r]) == Some(app) && #[trigger] reachable(procs, parents, r, i)
}

/// Record `i` is counted in the `a`-th reported group.
pub open spec fn counted_in(procs: Seq<ProcessInfo>, owner: Seq<Option<int>>, names: Seq<Seq<char>>, i: int, a: int) -> bool {
    owner[i] == Some(nonzero_groups(procs, owner, names.len() as int)[a])
}

/// Aggregation accounting: in any outcome of aggregation (so in every run on
/// the same process table) no record is counted in two reported groups, and
/// no group reports more memory than the records in its application's
/// subtrees hold together.
pub proof fn law_aggregation_accounting(
    procs: Seq<ProcessInfo>,
    parents: Seq<Option<u32>>,
    owner: Seq<Option<int>>,
    names: Seq<Seq<char>>,
    groups: Seq<ProcessInfo>,
)
    requires
        aggregation_of(procs, parents, owner, names, groups),
    ensures
        forall|i: int, a: int, b: int| 0 <= i < procs.len() && 0 <= a < groups.len() && 0 <= b < groups.len()
            && #[trigger] counted_in(procs, owner, names, i, a) && #[trigger] counted_in(procs, owner, names, i, b) ==> a == b,
        forall|a: int| 0 <= a < groups.len() ==> (#[trigger] groups[a]).memory_bytes <= total_where(procs,
            in_app_subtree(procs, parents, names[nonzero_groups(procs, owner, names.len() as int)[a]]),
            procs.len() as int, false),
{
    let ng = nonzero_groups(procs, owner, names.len() as int);
    lemma_nonzero_groups_increasing(procs, owner, names.len() as int);
    assert forall|a: int| 0 <= a < groups.len() implies (#[trigger] groups[a]).memory_bytes <= total_where(procs,
        in_app_subtree(procs, parents, names[ng[a]]), procs.len() as int, false) by {
        let g = ng[a];
        let keep = in_app_subtree(procs, parents, names[g]);
        assert forall|i: int| 0 <= i < procs.len() && #[trigger] owner[i] == Some(g) implies keep(i) by {
            assert(owner[i] is Some);
        }
        lemma_owned_within(procs, owner, g, keep, procs.len() as int, false);
        lemma_owned_total_nonneg(procs, owner, g, procs.len() as int, false);
        assert(describes_group(groups[a], names[g], owned_total(procs, owner, g, procs.len() as int, false),
            owned_total(procs, owner, g, procs.len() as int, true)));
    }
    assert forall|i: int, a: int, b: int| 0 <= i < procs.len() && 0 <= a < groups.len() && 0 <= b < groups.len()
        && #[trigger] counted_in(procs, owner, names, i, a) && #[trigger] counted_in(procs, owner, names, i, b) implies a == b by {
        if a < b {
            assert(ng[a] < ng[b]);
        } else if b < a {
            assert(ng[b] < ng[a]);
        }
    }
}

} // verus!
