use vstd::prelude::*;

use crate::process::ProcessSample;

verus! {

// ── The parent relation of a process list ───────────────────────────────

/// No two listed processes share a PID.
pub open spec fn pids_unique(s: Seq<ProcessSample>) -> bool {
    forall|i: int, j: int|
        0 <= i < s.len() && 0 <= j < s.len() && i != j ==> s[i].pid != s[j].pid
}

/// `pid` is listed.
pub open spec fn listed(s: Seq<ProcessSample>, pid: u32) -> bool {
    exists|i: int| 0 <= i < s.len() && s[i].pid == pid
}

/// The position of a listed `pid`.
pub open spec fn position(s: Seq<ProcessSample>, pid: u32) -> int {
    choose|i: int| 0 <= i < s.len() && s[i].pid == pid
}

/// The parent recorded for `pid`: `None` when `pid` is not listed or has none.
pub open spec fn parent_of(s: Seq<ProcessSample>, pid: u32) -> Option<u32> {
    if listed(s, pid) {
        s[position(s, pid)].parent
    } else {
        None
    }
}

/// The name of a listed `pid`.
pub open spec fn name_of(s: Seq<ProcessSample>, pid: u32) -> Seq<char> {
    s[position(s, pid)].name@
}

/// The ancestor `k` generations above `pid`, following recorded parents.
pub open spec fn ancestor(s: Seq<ProcessSample>, pid: u32, k: nat) -> Option<u32>
    decreases k,
{
    if k == 0 {
        Some(pid)
    } else {
        match parent_of(s, pid) {
            None => None,
            Some(p) => ancestor(s, p, (k - 1) as nat),
        }
    }
}

/// The chain of recorded parents above `pid` comes to an end.
pub open spec fn lineage_ends(s: Seq<ProcessSample>, pid: u32) -> bool {
    exists|n: nat| ancestor(s, pid, n) is None
}

/// The ancestor `k` generations above `pid` exists and is itself listed.
pub open spec fn listed_ancestor(s: Seq<ProcessSample>, pid: u32, k: nat) -> bool {
    ancestor(s, pid, k) matches Some(a) && listed(s, a)
}

/// The upward walk from `pid`, which moves to the parent while both the
/// current process and its parent are listed, can take `a` steps.
pub open spec fn can_climb(s: Seq<ProcessSample>, pid: u32, a: nat) -> bool {
    a == 0 || (listed(s, pid) && forall|m: nat| 1 <= m <= a ==> #[trigger] listed_ancestor(s, pid, m))
}

/// The number of steps the upward walk from `pid` takes before it stops.
pub open spec fn climb_len(s: Seq<ProcessSample>, pid: u32) -> nat {
    choose|a: nat| #[trigger] can_climb(s, pid, a) && !can_climb(s, pid, a + 1)
}

// ── Lemmas on the parent relation ───────────────────────────────────────

proof fn lemma_position(s: Seq<ProcessSample>, i: int)
    requires
        pids_unique(s),
        0 <= i < s.len(),
    ensures
        listed(s, s[i].pid),
        position(s, s[i].pid) == i,
        parent_of(s, s[i].pid) == s[i].parent,
        name_of(s, s[i].pid) == s[i].name@,
{
}

proof fn lemma_ancestor_one(s: Seq<ProcessSample>, pid: u32)
    ensures
        ancestor(s, pid, 1) == parent_of(s, pid),
{
    reveal_with_fuel(ancestor, 2);
}

proof fn lemma_ancestor_add(s: Seq<ProcessSample>, pid: u32, a: nat, b: nat)
    ensures
        ancestor(s, pid, a + b) == (match ancestor(s, pid, a) {
            None => None,
            Some(x) => ancestor(s, x, b),
        }),
    decreases a,
{
    if a > 0 {
        match parent_of(s, pid) {
            None => {},
            Some(p) => {
                lemma_ancestor_add(s, p, (a - 1) as nat, b);
                assert((a + b - 1) as nat == ((a - 1) as nat + b) as nat);
            },
        }
    }
}

proof fn lemma_ancestor_none_after(s: Seq<ProcessSample>, pid: u32, a: nat, b: nat)
    requires
        ancestor(s, pid, a) is None,
        a <= b,
    ensures
        ancestor(s, pid, b) is None,
{
    lemma_ancestor_add(s, pid, a, (b - a) as nat);
    assert((a + (b - a) as nat) as nat == b);
}

/// When the same process turns up twice on the walk upward, the walk never ends.
proof fn lemma_repeat_never_ends(s: Seq<ProcessSample>, pid: u32, j: nat, m: nat, n: nat)
    requires
        j < m,
        ancestor(s, pid, j) is Some,
        ancestor(s, pid, m) == ancestor(s, pid, j),
    ensures
        ancestor(s, pid, n) is Some,
    decreases n,
{
    if n <= m {
        if ancestor(s, pid, n) is None {
            lemma_ancestor_none_after(s, pid, n, m);
        }
    } else {
        let x = ancestor(s, pid, m).unwrap();
        lemma_ancestor_add(s, pid, m, (n - m) as nat);
        assert((m + (n - m) as nat) as nat == n);
        lemma_ancestor_add(s, pid, j, (n - m) as nat);
        lemma_repeat_never_ends(s, pid, j, m, (j + (n - m)) as nat);
    }
}

/// A process whose lineage ends is not its own ancestor.
proof fn lemma_not_own_ancestor(s: Seq<ProcessSample>, pid: u32, k: nat)
    requires
        lineage_ends(s, pid),
        k >= 1,
    ensures
        ancestor(s, pid, k) != Some(pid),
{
    if ancestor(s, pid, k) == Some(pid) {
        let n = choose|n: nat| ancestor(s, pid, n) is None;
        lemma_repeat_never_ends(s, pid, 0, k, n);
    }
}

proof fn lemma_climb_len(s: Seq<ProcessSample>, pid: u32, a: nat)
    requires
        can_climb(s, pid, a),
        !can_climb(s, pid, a + 1),
    ensures
        climb_len(s, pid) == a,
{
    let c = climb_len(s, pid);
    assert(can_climb(s, pid, c) && !can_climb(s, pid, c + 1));
    if c < a {
        assert(can_climb(s, pid, c + 1));
    } else if a < c {
        assert(can_climb(s, pid, a + 1));
    }
}

// ── Lookup ──────────────────────────────────────────────────────────────

/// Finds the position of `pid` in the list.
fn find_index(procs: &Vec<ProcessSample>, pid: u32) -> (r: Option<usize>)
    requires
        pids_unique(procs@),
    ensures
        match r {
            Some(i) => i < procs.len() && procs@[i as int].pid == pid && position(procs@, pid)
                == i,
            None => !listed(procs@, pid),
        },
{
    let mut i: usize = 0;
    while i < procs.len()
        invariant
            i <= procs.len(),
            pids_unique(procs@),
            forall|j: int| 0 <= j < i ==> procs@[j].pid != pid,
        decreases procs.len() - i,
    {
        if procs[i].pid == pid {
            proof {
                lemma_position(procs@, i as int);
            }
            return Some(i);
        }
        i += 1;
    }
    None
}

/// Walks from `target_pid` up through its listed parents; returns them
/// nearest first.
fn listed_ancestors(procs: &Vec<ProcessSample>, target_pid: u32) -> (r: Vec<(u32, String)>)
    requires
        pids_unique(procs@),
        lineage_ends(procs@, target_pid),
    ensures
        r.len() == climb_len(procs@, target_pid),
        r.len() < procs.len() || r.len() == 0,
        forall|m: int|
            0 <= m < r.len() ==> {
                &&& ancestor(procs@, target_pid, (m + 1) as nat) == Some(#[trigger] r@[m].0)
                &&& listed(procs@, r@[m].0)
                &&& r@[m].1@ == name_of(procs@, r@[m].0)
            },
{
    let ghost s = procs@;
    let ghost n = choose|n: nat| ancestor(s, target_pid, n) is None;
    let mut ancestors: Vec<(u32, String)> = Vec::new();
    let mut current = target_pid;
    let ghost mut seen: Seq<int> = Seq::empty();
    loop
        invariant_except_break
            ancestor(s, target_pid, ancestors.len() as nat) == Some(current),
            ancestors.len() > 0 ==> listed(s, current),
        invariant
            s == procs@,
            pids_unique(s),
            ancestor(s, target_pid, n) is None,
            can_climb(s, target_pid, ancestors.len() as nat),
            seen.len() == ancestors.len(),
            seen.no_duplicates(),
            forall|m: int| 0 <= m < seen.len() ==> 0 <= #[trigger] seen[m] < s.len(),
            forall|m: int|
                0 <= m < ancestors.len() ==> {
                    &&& ancestor(s, target_pid, (m + 1) as nat) == Some(#[trigger] ancestors@[m].0)
                    &&& listed(s, ancestors@[m].0)
                    &&& s[seen[m]].pid == ancestors@[m].0
                    &&& ancestors@[m].1@ == name_of(s, ancestors@[m].0)
                },
        ensures
            !can_climb(s, target_pid, (ancestors.len() + 1) as nat),
        decreases n - ancestors.len(),
    {
        proof {
            if n <= ancestors.len() {
                lemma_ancestor_none_after(s, target_pid, n, ancestors.len() as nat);
            }
        }
        let ghost j = ancestors.len() as nat;
        match find_index(procs, current) {
            None => {
                assert(j == 0);
                break;
            },
            Some(ci) => match procs[ci].parent {
                None => {
                    proof {
                        lemma_position(s, ci as int);
                        lemma_ancestor_add(s, target_pid, j, 1);
                            lemma_ancestor_one(s, current);
                        assert(!listed_ancestor(s, target_pid, j + 1));
                    }
                    break;
                },
                Some(pp) => match find_index(procs, pp) {
                    None => {
                        proof {
                            lemma_position(s, ci as int);
                            lemma_ancestor_add(s, target_pid, j, 1);
                            lemma_ancestor_one(s, current);
                            assert(!listed_ancestor(s, target_pid, j + 1));
                        }
                        break;
                    },
                    Some(pi) => {
                        proof {
                            lemma_position(s, ci as int);
                            lemma_position(s, pi as int);
                            lemma_ancestor_add(s, target_pid, j, 1);
                            lemma_ancestor_one(s, current);
                            assert(ancestor(s, target_pid, j + 1) == Some(pp));
                            // the parent has not been met before on the walk
                            if seen.contains(pi as int) {
                                let m = choose|m: int| 0 <= m < seen.len() && seen[m] == pi as int;
                                assert(s[seen[m]].pid == ancestors@[m].0);
                                assert(ancestor(s, target_pid, (m + 1) as nat) == Some(pp));
                                lemma_repeat_never_ends(s, target_pid, (m + 1) as nat, j + 1, n);
                            }
                            assert forall|m: nat| 1 <= m <= j + 1 implies #[trigger] listed_ancestor(
                                s,
                                target_pid,
                                m,
                            ) by {
                                if m <= j {
                                    assert(ancestors@[m - 1].0 == ancestor(
                                        s,
                                        target_pid,
                                        m,
                                    ).unwrap());
                                }
                            }
                            if j == 0 {
                                assert(listed(s, target_pid));
                            }
                        }
                        let name = procs[pi].name.clone();
                        ancestors.push((pp, name));
                        current = pp;
                        proof {
                            seen = seen.push(pi as int);
                        }
                    },
                },
            },
        }
    }
    proof {
        lemma_climb_len(s, target_pid, ancestors.len() as nat);
        // the walk met distinct listed positions, so it is shorter than the list
        let range = vstd::set_lib::set_int_range(0, s.len() as int);
        let set = seen.to_set();
        seen.unique_seq_to_set();
        assert(set.subset_of(range));
        vstd::set_lib::lemma_int_range(0, s.len() as int);
        if ancestors.len() > 0 {
            // the walk began at a listed process that is not among the ancestors
            assert(listed(s, target_pid));
            let t = position(s, target_pid);
            lemma_position(s, t);
            if set.contains(t) {
                let m = choose|m: int| 0 <= m < seen.len() && seen[m] == t;
                assert(s[seen[m]].pid == ancestors@[m].0);
                lemma_not_own_ancestor(s, target_pid, (m + 1) as nat);
                assert(false);
            }
            assert(set.insert(t).subset_of(range));
            vstd::set_lib::lemma_len_subset(set.insert(t), range);
        }
    }
    ancestors
}


/// Distinct positions in a list of length `n` number at most `n`.
proof fn lemma_distinct_positions(order: Seq<int>, n: int)
    requires
        0 <= n,
        order.no_duplicates(),
        forall|j: int| 0 <= j < order.len() ==> 0 <= #[trigger] order[j] < n,
    ensures
        order.len() <= n,
{
    let range = vstd::set_lib::set_int_range(0, n);
    order.unique_seq_to_set();
    assert(order.to_set().subset_of(range));
    vstd::set_lib::lemma_int_range(0, n);
    vstd::set_lib::lemma_len_subset(order.to_set(), range);
}

/// `x` lies strictly below a process waiting in `queue`.
pub open spec fn below_queued(s: Seq<ProcessSample>, queue: Seq<(u32, i32)>, x: u32) -> bool {
    exists|qi: int, m: nat|
        0 <= qi < queue.len() && m >= 1 && #[trigger] ancestor(s, x, m) == Some(
            #[trigger] queue[qi].0,
        )
}

/// `x` is, or lies below, a child of `parent` listed at position `k` or later.
pub open spec fn through_child(s: Seq<ProcessSample>, parent: u32, k: int, x: u32) -> bool {
    exists|c: int, m: nat|
        k <= c < s.len() && s[c].parent == Some(parent) && #[trigger] ancestor(s, x, m) == Some(
            #[trigger] s[c].pid,
        )
}

/// `x` lies strictly below `target`.
pub open spec fn descends_from(s: Seq<ProcessSample>, x: u32, target: u32) -> bool {
    exists|k: nat| k >= 1 && #[trigger] ancestor(s, x, k) == Some(target)
}

/// What a listing of the processes below `target` holds: each entry is a
/// listed process strictly below `target`, with its name and with its
/// generation below `target` as depth; no process comes twice; a process
/// that is not a child of `target` comes after its parent.
pub open spec fn sound_listing(
    s: Seq<ProcessSample>,
    target: u32,
    d: Seq<(u32, String, i32)>,
) -> bool {
    &&& forall|i: int|
        0 <= i < d.len() ==> {
            &&& d[i].2 >= 1
            &&& ancestor(s, #[trigger] d[i].0, d[i].2 as nat) == Some(target)
            &&& listed(s, d[i].0)
            &&& d[i].1@ == name_of(s, d[i].0)
        }
    &&& forall|i: int, j: int| 0 <= i < d.len() && 0 <= j < d.len() && i != j ==> d[i].0 != d[j].0
    &&& forall|i: int|
        0 <= i < d.len() && d[i].2 >= 2 ==> exists|j: int|
            0 <= j < i && Some(#[trigger] d[j].0) == parent_of(s, #[trigger] d[i].0)
}

/// Every listed process strictly below `target` is in the listing.
pub open spec fn complete_listing(
    s: Seq<ProcessSample>,
    target: u32,
    d: Seq<(u32, String, i32)>,
) -> bool {
    forall|idx: int|
        0 <= idx < s.len() && descends_from(s, #[trigger] s[idx].pid, target) ==> exists|i: int|
            0 <= i < d.len() && #[trigger] d[i].0 == s[idx].pid
}

/// The listed children of `p`, in list order.
pub open spec fn children_of(s: Seq<ProcessSample>, p: u32) -> Seq<ProcessSample> {
    s.filter(|q: ProcessSample| q.parent == Some(p))
}

/// The listing entry of process `q` at depth `d`.
pub open spec fn entry_at(q: ProcessSample, d: int) -> (u32, String, i32) {
    (q.pid, q.name, d as i32)
}

/// A pending expansion: process `q`, found at depth `d`.
pub open spec fn pending_at(q: ProcessSample, d: int) -> (u32, i32) {
    (q.pid, d as i32)
}

/// The listing below `p` (found at depth `d`), in the order the tree walk
/// gives: the children of `p` in list order, then the family of each child,
/// from the last child to the first. Depths past `top` are not explored.
pub open spec fn family(s: Seq<ProcessSample>, p: u32, d: int, top: int) -> Seq<(u32, String, i32)>
    decreases (top - d) as nat, 1nat, 0nat,
{
    if d < top {
        children_of(s, p).map_values(|q: ProcessSample| entry_at(q, d + 1)) + families(
            s,
            children_of(s, p),
            d + 1,
            top,
        )
    } else {
        Seq::empty()
    }
}

/// The families of the processes in `kids` (all at depth `d`), from the
/// last to the first.
pub open spec fn families(s: Seq<ProcessSample>, kids: Seq<ProcessSample>, d: int, top: int) -> Seq<
    (u32, String, i32),
>
    decreases (top - d) as nat, 2nat, kids.len(),
{
    if kids.len() == 0 || d > top {
        Seq::empty()
    } else {
        family(s, kids.last().pid, d, top) + families(s, kids.drop_last(), d, top)
    }
}

/// The listing still owed for the pending expansions, last first.
pub open spec fn owed(s: Seq<ProcessSample>, queue: Seq<(u32, i32)>, top: int) -> Seq<(u32, String, i32)>
    decreases queue.len(),
{
    if queue.len() == 0 {
        Seq::empty()
    } else {
        family(s, queue.last().0, queue.last().1 as int, top) + owed(s, queue.drop_last(), top)
    }
}

proof fn lemma_owed_append(s: Seq<ProcessSample>, a: Seq<(u32, i32)>, b: Seq<(u32, i32)>, top: int)
    ensures
        owed(s, a + b, top) == owed(s, b, top) + owed(s, a, top),
    decreases b.len(),
{
    if b.len() == 0 {
        assert(a + b =~= a);
        assert(owed(s, b, top) + owed(s, a, top) =~= owed(s, a, top));
    } else {
        assert((a + b).drop_last() =~= a + b.drop_last());
        assert((a + b).last() == b.last());
        lemma_owed_append(s, a, b.drop_last(), top);
        assert(owed(s, a + b, top) =~= family(s, b.last().0, b.last().1 as int, top) + (owed(
            s,
            b.drop_last(),
            top,
        ) + owed(s, a, top)));
    }
}

proof fn lemma_owed_children(s: Seq<ProcessSample>, kids: Seq<ProcessSample>, d: int, top: int)
    requires
        0 <= d <= top,
        d <= i32::MAX,
    ensures
        owed(s, kids.map_values(|q: ProcessSample| pending_at(q, d)), top) == families(s, kids, d, top),
    decreases kids.len(),
{
    let f = |q: ProcessSample| pending_at(q, d);
    if kids.len() > 0 {
        let m = kids.map_values(f);
        assert(m.drop_last() =~= kids.drop_last().map_values(f));
        assert(m.last() == pending_at(kids.last(), d));
        lemma_owed_children(s, kids.drop_last(), d, top);
    } else {
        assert(kids.map_values(f) =~= Seq::<(u32, i32)>::empty());
    }
}

proof fn lemma_children_push(a: Seq<ProcessSample>, x: ProcessSample, p: u32)
    ensures
        children_of(a.push(x), p) == if x.parent == Some(p) {
            children_of(a, p).push(x)
        } else {
            children_of(a, p)
        },
{
    a.lemma_filter_push(x, |q: ProcessSample| q.parent == Some(p));
}

proof fn lemma_entries_push(a: Seq<ProcessSample>, x: ProcessSample, d: int)
    ensures
        a.push(x).map_values(|q: ProcessSample| entry_at(q, d)) == a.map_values(
            |q: ProcessSample| entry_at(q, d),
        ).push(entry_at(x, d)),
{
    a.lemma_push_map_commute(|q: ProcessSample| entry_at(q, d), x);
}

proof fn lemma_pendings_push(a: Seq<ProcessSample>, x: ProcessSample, d: int)
    ensures
        a.push(x).map_values(|q: ProcessSample| pending_at(q, d)) == a.map_values(
            |q: ProcessSample| pending_at(q, d),
        ).push(pending_at(x, d)),
{
    a.lemma_push_map_commute(|q: ProcessSample| pending_at(q, d), x);
}

/// Lists every process below `target_pid`: the target's children in list
/// order, then the family of each child, last child first (the walk takes
/// the most recently found process next), as `family` states.
#[verifier::rlimit(80)]
fn descendants(procs: &Vec<ProcessSample>, target_pid: u32) -> (r: Vec<(u32, String, i32)>)
    requires
        pids_unique(procs@),
        lineage_ends(procs@, target_pid),
        procs.len() < i32::MAX,
    ensures
        sound_listing(procs@, target_pid, r@),
        complete_listing(procs@, target_pid, r@),
        r@ == family(procs@, target_pid, 0, procs.len() + 1),
{
    let ghost s = procs@;
    let ghost t = target_pid;
    let ghost top: int = s.len() as int + 1;
    let mut result: Vec<(u32, String, i32)> = Vec::new();
    let mut queue: Vec<(u32, i32)> = Vec::new();
    queue.push((target_pid, 0));
    let ghost mut order: Seq<int> = Seq::empty();
    let ghost mut popped: Set<u32> = Set::empty();
    proof {
        assert forall|idx: int|
            0 <= idx < s.len() && descends_from(s, #[trigger] s[idx].pid, t) implies below_queued(
            s,
            queue@,
            s[idx].pid,
        ) by {
            let k = choose|k: nat| k >= 1 && #[trigger] ancestor(s, s[idx].pid, k) == Some(t);
            assert(queue@[0].0 == t);
        }
        assert(queue@.drop_last() =~= Seq::<(u32, i32)>::empty());
        assert(queue@.last() == (t, 0i32));
        assert(owed(s, queue@.drop_last(), top) == Seq::<(u32, String, i32)>::empty());
        assert(owed(s, queue@, top) == family(s, t, 0, top) + Seq::<(u32, String, i32)>::empty());
        assert(result@ + owed(s, queue@, top) =~= family(s, t, 0, top));
    }
    loop
        invariant
            top == s.len() + 1,
            result@ + owed(s, queue@, top) == family(s, t, 0, top),
            s == procs@,
            pids_unique(s),
            lineage_ends(s, t),
            s.len() < i32::MAX,
            sound_listing(s, t, result@),
            // where each listed entry comes from
            order.len() == result.len(),
            order.no_duplicates(),
            forall|j: int|
                0 <= j < order.len() ==> 0 <= #[trigger] order[j] < s.len() && s[order[j]].pid
                    == result@[j].0,
            result.len() <= s.len(),
            // a listed entry's parent has already been expanded
            forall|j: int|
                0 <= j < order.len() ==> (parent_of(s, #[trigger] result@[j].0) matches Some(p)
                    && popped.contains(p)),
            // the waiting processes
            forall|qi: int|
                0 <= qi < queue.len() ==> {
                    &&& 0 <= (#[trigger] queue@[qi]).1 <= result.len()
                    &&& ancestor(s, queue@[qi].0, queue@[qi].1 as nat) == Some(t)
                    &&& queue@[qi].1 >= 1 ==> exists|j: int|
                        0 <= j < result.len() && #[trigger] result@[j].0 == queue@[qi].0
                    &&& !popped.contains(queue@[qi].0)
                },
            forall|qi: int, qj: int|
                0 <= qi < queue.len() && 0 <= qj < queue.len() && qi != qj ==> queue@[qi].0
                    != queue@[qj].0,
            // the expanded processes are the target or listed entries
            forall|p: u32|
                #[trigger] popped.contains(p) ==> p == t || exists|j: int|
                    0 <= j < result.len() && #[trigger] result@[j].0 == p,
            // every process below the target is listed or waits below a queued one
            forall|idx: int|
                0 <= idx < s.len() && descends_from(s, #[trigger] s[idx].pid, t) ==> (exists|j: int|
                    0 <= j < result.len() && #[trigger] result@[j].0 == s[idx].pid) || below_queued(
                    s,
                    queue@,
                    s[idx].pid,
                ),
        ensures
            complete_listing(s, t, result@),
            result@ == family(s, t, 0, top),
        decreases 2 * (s.len() - result.len()) + queue.len(),
    {
        let ghost qb = queue@;
        let next = queue.pop();
        let (parent, depth) = match next {
            None => {
                proof {
                    assert forall|idx: int|
                        0 <= idx < s.len() && descends_from(
                            s,
                            #[trigger] s[idx].pid,
                            t,
                        ) implies exists|j: int|
                        0 <= j < result.len() && #[trigger] result@[j].0 == s[idx].pid by {
                        if !(exists|j: int|
                            0 <= j < result.len() && #[trigger] result@[j].0 == s[idx].pid) {
                            assert(below_queued(s, queue@, s[idx].pid));
                        }
                    }
                }
                assert(result@ + owed(s, queue@, top) =~= result@);
                break ;
            },
            Some(e) => e,
        };
        let ghost q0 = queue@;
        let ghost r0 = result@;
        let ghost popped0 = popped;
        let ghost measure0 = 2 * (s.len() - result.len()) + queue.len() + 1;
        proof {
            popped = popped.insert(parent);
            assert(queue@ == q0);
            assert(qb.drop_last() =~= q0);
            assert(qb.last() == (parent, depth));
            assert(r0 + family(s, parent, depth as int, top) + owed(s, q0, top) =~= r0 + owed(s, qb, top));
            assert(r0 + children_of(s.take(0), parent).map_values(|q: ProcessSample| entry_at(q, depth + 1)) =~= r0);
            assert(q0 + children_of(s.take(0), parent).map_values(|q: ProcessSample| pending_at(q, depth + 1)) =~= q0);
            let qlast = (q0.len()) as int;
            assert forall|idx: int|
                0 <= idx < s.len() && descends_from(s, #[trigger] s[idx].pid, t) implies (exists|
                j: int,
            | 0 <= j < result.len() && #[trigger] result@[j].0 == s[idx].pid) || below_queued(
                s,
                q0,
                s[idx].pid,
            ) || through_child(s, parent, 0, s[idx].pid) by {
                let x = s[idx].pid;
                if !(exists|j: int| 0 <= j < result.len() && #[trigger] result@[j].0 == x) {
                    assert(below_queued(s, qb, x));
                    let (qi, m) = choose|qi: int, m: nat|
                        0 <= qi < qb.len() && m >= 1 && #[trigger] ancestor(s, x, m) == Some(
                            #[trigger] qb[qi].0,
                        );
                    if qi < q0.len() {
                        assert(qb[qi] == q0[qi]);
                        assert(ancestor(s, x, m) == Some(q0[qi].0));
                        assert(below_queued(s, q0, x));
                    } else {
                        // `x` lies below the process being expanded: below one of its children
                        assert(qb[qi] == (parent, depth));
                        let m1 = (m - 1) as nat;
                        lemma_ancestor_add(s, x, m1, 1);
                        assert((m1 + 1) as nat == m);
                        let c = ancestor(s, x, m1).unwrap();
                        lemma_ancestor_one(s, c);
                        assert(parent_of(s, c) == Some(parent));
                        assert(listed(s, c));
                        let ci = position(s, c);
                        lemma_position(s, ci);
                        assert(s[ci].pid == c);
                        assert(through_child(s, parent, 0, x));
                    }
                }
            }
        }
        let mut k: usize = 0;
        while k < procs.len()
            invariant
                top == s.len() + 1,
                r0 + family(s, parent, depth as int, top) + owed(s, q0, top) == family(s, t, 0, top),
                result@ == r0 + children_of(s.take(k as int), parent).map_values(
                    |q: ProcessSample| entry_at(q, depth + 1),
                ),
                queue@ == q0 + children_of(s.take(k as int), parent).map_values(
                    |q: ProcessSample| pending_at(q, depth + 1),
                ),
                s == procs@,
                pids_unique(s),
                lineage_ends(s, t),
                s.len() < i32::MAX,
                0 <= k <= s.len(),
                0 <= depth <= r0.len(),
                ancestor(s, parent, depth as nat) == Some(t),
                depth >= 1 ==> exists|j: int| 0 <= j < r0.len() && #[trigger] r0[j].0 == parent,
                !popped0.contains(parent),
                popped == popped0.insert(parent),
                forall|qi: int| 0 <= qi < q0.len() ==> (#[trigger] q0[qi]).0 != parent,
                sound_listing(s, t, result@),
                result@.len() >= r0.len(),
                result@.subrange(0, r0.len() as int) == r0,
                queue@.len() >= q0.len(),
                queue@.subrange(0, q0.len() as int) == q0,
                2 * (s.len() - result.len()) + queue.len() + 1 <= measure0,
                order.len() == result.len(),
                order.no_duplicates(),
                forall|j: int|
                    0 <= j < order.len() ==> 0 <= #[trigger] order[j] < s.len() && s[order[j]].pid
                        == result@[j].0,
                result.len() <= s.len(),
                // entries of this round are the children of `parent` met so far
                forall|j: int|
                    r0.len() <= j < order.len() ==> #[trigger] order[j] < k && s[order[j]].parent
                        == Some(parent) && result@[j].2 == depth + 1,
                forall|idx: int|
                    0 <= idx < k && s[idx].parent == Some(parent) ==> exists|j: int|
                        r0.len() <= j < order.len() && #[trigger] order[j] == idx,
                forall|j: int|
                    0 <= j < r0.len() ==> (parent_of(s, #[trigger] result@[j].0) matches Some(p)
                        && popped0.contains(p)),
                forall|qi: int|
                    0 <= qi < queue.len() ==> {
                        &&& 0 <= (#[trigger] queue@[qi]).1 <= result.len()
                        &&& ancestor(s, queue@[qi].0, queue@[qi].1 as nat) == Some(t)
                        &&& queue@[qi].1 >= 1 ==> exists|j: int|
                            0 <= j < result.len() && #[trigger] result@[j].0 == queue@[qi].0
                        &&& !popped.contains(queue@[qi].0)
                    },
                forall|qi: int, qj: int|
                    0 <= qi < queue.len() && 0 <= qj < queue.len() && qi != qj ==> queue@[qi].0
                        != queue@[qj].0,
                forall|p: u32|
                    #[trigger] popped.contains(p) ==> p == t || exists|j: int|
                        0 <= j < result.len() && #[trigger] result@[j].0 == p,
                forall|idx: int|
                    0 <= idx < s.len() && descends_from(s, #[trigger] s[idx].pid, t) ==> (exists|
                        j: int,
                    |
                        0 <= j < result.len() && #[trigger] result@[j].0 == s[idx].pid)
                        || below_queued(s, queue@, s[idx].pid) || through_child(
                        s,
                        parent,
                        k as int,
                        s[idx].pid,
                    ),
            decreases s.len() - k,
        {
            if let Some(pp) = procs[k].parent {
                if pp == parent {
                    let child = procs[k].pid;
                    let cd = depth + 1;
                    let name = procs[k].name.clone();
                    let ghost r1 = result@;
                    let ghost qa = queue@;
                    let ghost o1 = order;
                    proof {
                        lemma_position(s, k as int);
                        lemma_ancestor_one(s, child);
                        lemma_ancestor_add(s, child, 1, depth as nat);
                        assert(ancestor(s, child, (depth + 1) as nat) == Some(t)) by {
                            assert((1 + depth as nat) as nat == (depth + 1) as nat);
                        }
                        // the child has not been listed before
                        assert forall|j: int| 0 <= j < r1.len() implies #[trigger] r1[j].0
                            != child by {
                            if r1[j].0 == child {
                                assert(s[order[j]].pid == r1[j].0);
                                if j < r0.len() {
                                    assert(result@[j] == r0[j]);
                                    assert(parent_of(s, result@[j].0) matches Some(p)
                                        && popped0.contains(p));
                                } else {
                                    assert(order[j] < k);
                                }
                            }
                        }
                        assert(!order.contains(k as int)) by {
                            if order.contains(k as int) {
                                let j = choose|j: int| 0 <= j < order.len() && order[j] == k;
                                assert(s[order[j]].pid == r1[j].0);
                            }
                        }
                        // nor is it the target or the process being expanded
                        lemma_not_own_ancestor(s, t, (depth + 1) as nat);
                        if child == parent {
                            lemma_ancestor_add(s, parent, depth as nat, 1);
                            lemma_ancestor_one(s, t);
                            lemma_not_own_ancestor(s, t, 1);
                        }
                        assert(!popped.contains(child));
                        assert forall|qi: int| 0 <= qi < qa.len() implies (#[trigger] qa[qi]).0
                            != child by {
                            if qa[qi].1 >= 1 {
                                let j = choose|j: int|
                                    0 <= j < r1.len() && #[trigger] r1[j].0 == qa[qi].0;
                            }
                        }
                    }
                    result.push((child, name, cd));
                    queue.push((child, cd));
                    proof {
                        order = order.push(k as int);
                        lemma_distinct_positions(order, s.len() as int);
                        assert(result@[r1.len() as int].0 == child);
                        assert forall|i: int| 0 <= i < result.len() implies {
                            &&& result@[i].2 >= 1
                            &&& ancestor(s, #[trigger] result@[i].0, result@[i].2 as nat) == Some(t)
                            &&& listed(s, result@[i].0)
                            &&& result@[i].1@ == name_of(s, result@[i].0)
                        } by {
                            if i < r1.len() {
                                assert(result@[i] == r1[i]);
                            }
                        }
                        assert forall|i: int, j: int|
                            0 <= i < result.len() && 0 <= j < result.len() && i != j implies result@[i].0
                            != result@[j].0 by {
                            if i < r1.len() {
                                assert(result@[i] == r1[i]);
                            }
                            if j < r1.len() {
                                assert(result@[j] == r1[j]);
                            }
                        }
                        assert forall|i: int|
                            0 <= i < result.len() && result@[i].2 >= 2 implies exists|j: int|
                            0 <= j < i && Some(#[trigger] result@[j].0) == parent_of(
                                s,
                                #[trigger] result@[i].0,
                            ) by {
                            if i < r1.len() {
                                assert(result@[i] == r1[i]);
                                let j = choose|j: int|
                                    0 <= j < i && Some(#[trigger] r1[j].0) == parent_of(
                                        s,
                                        #[trigger] r1[i].0,
                                    );
                                assert(result@[j] == r1[j]);
                            } else {
                                let j = choose|j: int|
                                    0 <= j < r0.len() && #[trigger] r0[j].0 == parent;
                                assert(r1[j] == r0[j]);
                                assert(result@[j] == r1[j]);
                            }
                        }
                        assert(result@.subrange(0, r0.len() as int) =~= r0) by {
                            assert(r1.subrange(0, r0.len() as int) == r0);
                        }
                        assert(queue@.subrange(0, q0.len() as int) =~= q0) by {
                            assert(qa.subrange(0, q0.len() as int) == q0);
                        }
                        assert forall|qi: int| 0 <= qi < queue.len() implies {
                            &&& 0 <= (#[trigger] queue@[qi]).1 <= result.len()
                            &&& ancestor(s, queue@[qi].0, queue@[qi].1 as nat) == Some(t)
                            &&& queue@[qi].1 >= 1 ==> exists|j: int|
                                0 <= j < result.len() && #[trigger] result@[j].0 == queue@[qi].0
                            &&& !popped.contains(queue@[qi].0)
                        } by {
                            if qi < qa.len() {
                                assert(queue@[qi] == qa[qi]);
                                if qa[qi].1 >= 1 {
                                    let j = choose|j: int|
                                        0 <= j < r1.len() && #[trigger] r1[j].0 == qa[qi].0;
                                    assert(result@[j] == r1[j]);
                                }
                            } else {
                                assert(result@[r1.len() as int].0 == queue@[qi].0);
                            }
                        }
                        assert forall|p: u32| #[trigger] popped.contains(p) implies p == t
                            || exists|j: int| 0 <= j < result.len() && #[trigger] result@[j].0 == p by {
                            if p != t {
                                let j = choose|j: int| 0 <= j < r1.len() && #[trigger] r1[j].0 == p;
                                assert(result@[j] == r1[j]);
                            }
                        }
                        assert forall|idx: int|
                            0 <= idx < k + 1 && s[idx].parent == Some(parent) implies exists|j: int|
                            r0.len() <= j < order.len() && #[trigger] order[j] == idx by {
                            if idx == k {
                                assert(order[r1.len() as int] == k);
                            } else {
                                let j = choose|j: int|
                                    r0.len() <= j < o1.len() && #[trigger] o1[j] == idx;
                                assert(order[j] == idx);
                            }
                        }
                        assert forall|j: int|
                            0 <= j < r0.len() implies (parent_of(s, #[trigger] result@[j].0) matches Some(
                            p,
                        ) && popped0.contains(p)) by {
                            assert(result@[j] == r1[j]);
                        }
                        assert forall|idx: int|
                            0 <= idx < s.len() && descends_from(
                                s,
                                #[trigger] s[idx].pid,
                                t,
                            ) implies (exists|j: int|
                            0 <= j < result.len() && #[trigger] result@[j].0 == s[idx].pid)
                            || below_queued(s, queue@, s[idx].pid) || through_child(
                            s,
                            parent,
                            (k + 1) as int,
                            s[idx].pid,
                        ) by {
                            let x = s[idx].pid;
                            if exists|j: int| 0 <= j < r1.len() && #[trigger] r1[j].0 == x {
                                let j = choose|j: int| 0 <= j < r1.len() && #[trigger] r1[j].0 == x;
                                assert(result@[j] == r1[j]);
                            } else if below_queued(s, qa, x) {
                                let (qi, m) = choose|qi: int, m: nat|
                                    0 <= qi < qa.len() && m >= 1 && #[trigger] ancestor(s, x, m)
                                        == Some(#[trigger] qa[qi].0);
                                assert(queue@[qi] == qa[qi]);
                            } else {
                                let (c, m) = choose|c: int, m: nat|
                                    k <= c < s.len() && s[c].parent == Some(parent)
                                        && #[trigger] ancestor(s, x, m) == Some(#[trigger] s[c].pid);
                                if c == k {
                                    if m == 0 {
                                        assert(result@[r1.len() as int].0 == x);
                                    } else {
                                        assert(queue@[qa.len() as int].0 == child);
                                    }
                                }
                            }
                        }
                    }
                }
            }
            proof {
                assert forall|idx: int|
                    0 <= idx < s.len() && descends_from(
                        s,
                        #[trigger] s[idx].pid,
                        t,
                    ) implies (exists|j: int|
                    0 <= j < result.len() && #[trigger] result@[j].0 == s[idx].pid)
                    || below_queued(s, queue@, s[idx].pid) || through_child(
                    s,
                    parent,
                    (k + 1) as int,
                    s[idx].pid,
                ) by {
                    let x = s[idx].pid;
                    if through_child(s, parent, k as int, x) && !(exists|j: int|
                        0 <= j < result.len() && #[trigger] result@[j].0 == x) && !below_queued(
                        s,
                        queue@,
                        x,
                    ) {
                        let (c, m) = choose|c: int, m: nat|
                            k <= c < s.len() && s[c].parent == Some(parent)
                                && #[trigger] ancestor(s, x, m) == Some(#[trigger] s[c].pid);
                        if c == k {
                            // the child at `k` was listed just now
                            if m == 0 {
                                assert(s[k as int].pid == x);
                            }
                        }
                    }
                }
            }
            proof {
                assert(s.take(k + 1) =~= s.take(k as int).push(s[k as int]));
                lemma_children_push(s.take(k as int), s[k as int], parent);
                lemma_entries_push(children_of(s.take(k as int), parent), s[k as int], depth + 1);
                lemma_pendings_push(children_of(s.take(k as int), parent), s[k as int], depth + 1);
            }
            k += 1;
        }
        proof {
            assert(s.take(s.len() as int) =~= s);
            let kids = children_of(s, parent);
            let entries = kids.map_values(|q: ProcessSample| entry_at(q, depth + 1));
            let pend = kids.map_values(|q: ProcessSample| pending_at(q, depth + 1));
            lemma_owed_append(s, q0, pend, top);
            lemma_owed_children(s, kids, depth + 1, top);
            assert(family(s, parent, depth as int, top) == entries + families(s, kids, depth + 1, top));
            assert(result@ + owed(s, queue@, top) =~= r0 + family(s, parent, depth as int, top) + owed(s, q0, top));
            assert forall|j: int| 0 <= j < order.len() implies (parent_of(
                s,
                #[trigger] result@[j].0,
            ) matches Some(p) && popped.contains(p)) by {
                if j >= r0.len() {
                    lemma_position(s, order[j]);
                }
            }
            assert forall|idx: int|
                0 <= idx < s.len() && descends_from(s, #[trigger] s[idx].pid, t) implies (exists|j: int|
                0 <= j < result.len() && #[trigger] result@[j].0 == s[idx].pid) || below_queued(
                s,
                queue@,
                s[idx].pid,
            ) by {
                if through_child(s, parent, k as int, s[idx].pid) {
                    let (c, m) = choose|c: int, m: nat|
                        k <= c < s.len() && s[c].parent == Some(parent)
                            && #[trigger] ancestor(s, s[idx].pid, m) == Some(#[trigger] s[c].pid);
                }
            }
        }
    }
    result
}

/// The process tree around `target`: the listed ancestors root first, with
/// depths counting down to -1; the target itself at depth 0 if it is listed;
/// then every process below it (see `sound_listing`, `complete_listing`), in
/// the order of `family`.
pub open spec fn tree_listing(s: Seq<ProcessSample>, target: u32, r: Seq<(u32, String, i32)>) -> bool {
    let a = climb_len(s, target) as int;
    let here: int = if listed(s, target) { 1 } else { 0 };
    &&& r.len() >= a + here
    &&& forall|i: int|
        0 <= i < a ==> {
            &&& Some(#[trigger] r[i].0) == ancestor(s, target, (a - i) as nat)
            &&& listed(s, r[i].0)
            &&& r[i].1@ == name_of(s, r[i].0)
            &&& r[i].2 == i - a
        }
    &&& listed(s, target) ==> r[a].0 == target && r[a].1@ == name_of(s, target) && r[a].2 == 0
    &&& sound_listing(s, target, r.subrange(a + here, r.len() as int))
    &&& complete_listing(s, target, r.subrange(a + here, r.len() as int))
    &&& r.subrange(a + here, r.len() as int) == family(s, target, 0, s.len() as int + 1)
}

/// Builds a process tree (ancestors + children) for the given PID.
///
/// Returns `(pid, name, depth)` tuples where depth 0 is the target process,
/// negative depths are ancestors, and positive depths are children.
pub fn process_tree(procs: &Vec<ProcessSample>, target_pid: u32) -> (r: Vec<(u32, String, i32)>)
    requires
        pids_unique(procs@),
        lineage_ends(procs@, target_pid),
        procs.len() < i32::MAX,
    ensures
        tree_listing(procs@, target_pid, r@),
{
    let ghost s = procs@;
    let mut result: Vec<(u32, String, i32)> = Vec::new();

    // ── Walk ancestors upward ───────────────────────────────────────
    let ancestors = listed_ancestors(procs, target_pid);

    // Add ancestors top-down (root first)
    let count = ancestors.len();
    let ghost a = count as int;
    let ancestor_count = count as i32;
    let mut i: usize = 0;
    while i < count
        invariant
            count == ancestors.len(),
            a == count,
            ancestor_count == count,
            count < s.len() || count == 0,
            s.len() < i32::MAX,
            i <= count,
            result.len() == i,
            forall|m: int|
                0 <= m < ancestors.len() ==> {
                    &&& ancestor(s, target_pid, (m + 1) as nat) == Some(#[trigger] ancestors@[m].0)
                    &&& listed(s, ancestors@[m].0)
                    &&& ancestors@[m].1@ == name_of(s, ancestors@[m].0)
                },
            forall|j: int|
                0 <= j < i ==> {
                    &&& Some(#[trigger] result@[j].0) == ancestor(s, target_pid, (a - j) as nat)
                    &&& listed(s, result@[j].0)
                    &&& result@[j].1@ == name_of(s, result@[j].0)
                    &&& result@[j].2 == j - a
                },
        decreases count - i,
    {
        let pid = ancestors[count - 1 - i].0;
        let name = ancestors[count - 1 - i].1.clone();
        let depth = -(ancestor_count - i as i32);
        result.push((pid, name, depth));
        proof {
            let m = (count - 1 - i) as int;
            assert(ancestors@[m].0 == pid);
            assert((m + 1) as nat == (a - i) as nat);
        }
        i += 1;
    }

    // ── Add target process at depth 0 ───────────────────────────────
    let ghost before_target = result@;
    if let Some(ti) = find_index(procs, target_pid) {
        let name = procs[ti].name.clone();
        result.push((target_pid, name, 0));
    }
    let ghost upper = result@;

    // ── Walk children downward ──────────────────────────────────────
    let mut below = descendants(procs, target_pid);
    let ghost below0 = below@;
    result.append(&mut below);
    proof {
        assert(climb_len(s, target_pid) == a);
        let here: int = if listed(s, target_pid) { 1 } else { 0 };
        assert(upper.len() == a + here);
        assert(result@.subrange(a + here, result@.len() as int) =~= below0);
        assert forall|j: int| 0 <= j < a implies {
            &&& Some(#[trigger] result@[j].0) == ancestor(s, target_pid, (a - j) as nat)
            &&& listed(s, result@[j].0)
            &&& result@[j].1@ == name_of(s, result@[j].0)
            &&& result@[j].2 == j - a
        } by {
            assert(result@[j] == upper[j]);
            assert(upper[j] == before_target[j]);
        }
        if listed(s, target_pid) {
            assert(result@[a] == upper[a]);
        }
    }
    result
}

/// Two places of a tree listing around a process whose lineage ends name
/// different processes.
proof fn lemma_tree_entries_distinct(
    s: Seq<ProcessSample>,
    target: u32,
    r: Seq<(u32, String, i32)>,
    i: int,
    j: int,
)
    requires
        lineage_ends(s, target),
        tree_listing(s, target, r),
        0 <= i < j < r.len(),
    ensures
        r[i].0 != r[j].0,
{
    let a = climb_len(s, target) as int;
    let here: int = if listed(s, target) { 1 } else { 0 };
    let d = r.subrange(a + here, r.len() as int);
    let n = choose|n: nat| ancestor(s, target, n) is None;
    if j < a {
        // two ancestors: a repeat on the walk up would never end
        assert(Some(r[i].0) == ancestor(s, target, (a - i) as nat));
        assert(Some(r[j].0) == ancestor(s, target, (a - j) as nat));
        if r[i].0 == r[j].0 {
            lemma_repeat_never_ends(s, target, (a - j) as nat, (a - i) as nat, n);
        }
    } else if j < a + here {
        // an ancestor and the target
        assert(Some(r[i].0) == ancestor(s, target, (a - i) as nat));
        lemma_not_own_ancestor(s, target, (a - i) as nat);
    } else {
        assert(d[j - a - here] == r[j]);
        let y = r[j].0;
        let dep = r[j].2 as nat;
        assert(ancestor(s, y, dep) == Some(target));
        if i >= a + here {
            assert(d[i - a - here] == r[i]);
        } else if i >= a {
            if y == target {
                lemma_not_own_ancestor(s, target, dep);
            }
        } else {
            // an ancestor and a descendant: the target would be its own ancestor
            let k = (a - i) as nat;
            assert(Some(r[i].0) == ancestor(s, target, k));
            if r[i].0 == y {
                lemma_ancestor_add(s, target, k, dep);
                lemma_not_own_ancestor(s, target, k + dep);
            }
        }
    }
}

/// A process tree around a process whose lineage ends names each listed
/// process at most once, so it is no longer than the process list.
pub proof fn lemma_tree_fits_in_list(s: Seq<ProcessSample>, target: u32, r: Seq<(u32, String, i32)>)
    requires
        lineage_ends(s, target),
        tree_listing(s, target, r),
    ensures
        r.len() <= s.len(),
        forall|i: int, j: int| 0 <= i < j < r.len() ==> r[i].0 != r[j].0,
        forall|i: int| 0 <= i < r.len() ==> listed(s, #[trigger] r[i].0),
{
    let a = climb_len(s, target) as int;
    let here: int = if listed(s, target) { 1 } else { 0 };
    let d = r.subrange(a + here, r.len() as int);
    assert forall|i: int| 0 <= i < r.len() implies listed(s, #[trigger] r[i].0) by {
        if i >= a + here {
            assert(d[i - a - here] == r[i]);
        }
    }
    assert forall|i: int, j: int| 0 <= i < j < r.len() implies r[i].0 != r[j].0 by {
        lemma_tree_entries_distinct(s, target, r, i, j);
    }
    let order = Seq::new(r.len(), |i: int| position(s, r[i].0));
    assert forall|i: int| 0 <= i < order.len() implies 0 <= #[trigger] order[i] < s.len() && s[order[i]].pid
        == r[i].0 by {
        assert(listed(s, r[i].0));
    }
    assert forall|i: int, j: int|
        0 <= i < order.len() && 0 <= j < order.len() && i != j implies order[i] != order[j] by {
        assert(s[order[i]].pid == r[i].0);
        assert(s[order[j]].pid == r[j].0);
        if i < j {
            lemma_tree_entries_distinct(s, target, r, i, j);
        } else {
            lemma_tree_entries_distinct(s, target, r, j, i);
        }
    }
    assert(order.no_duplicates());
    lemma_distinct_positions(order, s.len() as int);
}

// ── Properties of a process list ────────────────────────────────────────

/// Whether no two listed processes share a PID.
pub fn pids_are_unique(procs: &Vec<ProcessSample>) -> (r: bool)
    ensures
        r == pids_unique(procs@),
{
    let mut i: usize = 0;
    while i < procs.len()
        invariant
            i <= procs.len(),
            forall|a: int, b: int| 0 <= a < i && 0 <= b < procs.len() && a != b ==> procs@[a].pid != procs@[b].pid,
        decreases procs.len() - i,
    {
        let mut j: usize = 0;
        while j < procs.len()
            invariant
                i < procs.len(),
                j <= procs.len(),
                forall|a: int, b: int| 0 <= a < i && 0 <= b < procs.len() && a != b ==> procs@[a].pid != procs@[b].pid,
                forall|b: int| 0 <= b < j && b != i ==> procs@[i as int].pid != procs@[b].pid,
            decreases procs.len() - j,
        {
            if j != i && procs[i].pid == procs[j].pid {
                return false;
            }
            j += 1;
        }
        i += 1;
    }
    true
}

/// Whether the chain of recorded parents above `pid` comes to an end.
pub fn lineage_is_finite(procs: &Vec<ProcessSample>, pid: u32) -> (r: bool)
    requires
        pids_unique(procs@),
        procs.len() < usize::MAX,
    ensures
        r == lineage_ends(procs@, pid),
{
    let ghost s = procs@;
    let mut current = pid;
    let mut k: usize = 0;
    let ghost mut seen: Seq<int> = Seq::empty();
    while k <= procs.len()
        invariant
            s == procs@,
            pids_unique(s),
            procs.len() < usize::MAX,
            k <= s.len() + 1,
            ancestor(s, pid, k as nat) == Some(current),
            seen.len() == k,
            forall|m: int|
                0 <= m < k ==> 0 <= #[trigger] seen[m] < s.len() && ancestor(s, pid, m as nat) == Some(
                    s[seen[m]].pid,
                ),
        decreases s.len() + 1 - k,
    {
        match find_index(procs, current) {
            None => {
                proof {
                    lemma_ancestor_add(s, pid, k as nat, 1);
                    lemma_ancestor_one(s, current);
                    assert(ancestor(s, pid, (k + 1) as nat) is None);
                }
                return true;
            },
            Some(ci) => match procs[ci].parent {
                None => {
                    proof {
                        lemma_position(s, ci as int);
                        lemma_ancestor_add(s, pid, k as nat, 1);
                        lemma_ancestor_one(s, current);
                        assert(ancestor(s, pid, (k + 1) as nat) is None);
                    }
                    return true;
                },
                Some(p) => {
                    proof {
                        lemma_position(s, ci as int);
                        lemma_ancestor_add(s, pid, k as nat, 1);
                        lemma_ancestor_one(s, current);
                        seen = seen.push(ci as int);
                    }
                    current = p;
                    k += 1;
                },
            },
        }
    }
    proof {
        // more steps than positions: some position came twice
        if seen.no_duplicates() {
            lemma_distinct_positions(seen, s.len() as int);
        }
        let (a, b) = choose|a: int, b: int|
            0 <= a < seen.len() && 0 <= b < seen.len() && a != b && seen[a] == seen[b];
        if lineage_ends(s, pid) {
            let n = choose|n: nat| ancestor(s, pid, n) is None;
            if a < b {
                lemma_repeat_never_ends(s, pid, a as nat, b as nat, n);
            } else {
                lemma_repeat_never_ends(s, pid, b as nat, a as nat, n);
            }
        }
    }
    false
}

/// The process tree around `target_pid` when the list allows one: `None`
/// when two processes share a PID or the target's lineage never ends (a
/// cycle of parents), where no tree can be built.
pub fn tree_around(procs: &Vec<ProcessSample>, target_pid: u32) -> (r: Option<Vec<(u32, String, i32)>>)
    ensures
        r is None <==> !(pids_unique(procs@) && lineage_ends(procs@, target_pid) && procs.len() < i32::MAX),
        r matches Some(t) ==> tree_listing(procs@, target_pid, t@),
{
    if procs.len() >= 0x7fff_ffff {
        return None;
    }
    if !pids_are_unique(procs) {
        return None;
    }
    if !lineage_is_finite(procs, target_pid) {
        return None;
    }
    Some(process_tree(procs, target_pid))
}
} // verus!
