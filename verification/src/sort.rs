use vstd::prelude::*;

use crate::process::{ProcessInfo, SortColumn};
use crate::text::{lower_chars, lowercase};

verus! {

// ── Orders ──────────────────────────────────────────────────────────────

/// Three-way comparison of integers: -1, 0 or 1.
pub open spec fn num_order(a: int, b: int) -> int {
    if a < b {
        -1
    } else if a > b {
        1
    } else {
        0
    }
}

/// Lexicographic comparison of texts by code point (the order of `String`).
pub open spec fn text_order(a: Seq<char>, b: Seq<char>) -> int
    decreases a.len(),
{
    if a.len() == 0 {
        if b.len() == 0 {
            0
        } else {
            -1
        }
    } else if b.len() == 0 {
        1
    } else if a[0] < b[0] {
        -1
    } else if a[0] > b[0] {
        1
    } else {
        text_order(a.drop_first(), b.drop_first())
    }
}

/// The memory figure a row is ordered by: its share of `total`, which is
/// zero for every row when the total is unknown (zero).
pub open spec fn memory_rank(x: ProcessInfo, total: u64) -> int {
    if total > 0 {
        x.mem_bytes as int
    } else {
        0
    }
}

/// How row `x` compares with row `y` in the table sorted by `col`:
/// -1 when `x` comes first, 1 when `y` does, 0 when they tie.
/// CPU and memory sort highest first, PID and name lowest first (names
/// compared in lowercase); `ascending` reverses the order.
pub open spec fn row_order(x: ProcessInfo, y: ProcessInfo, col: SortColumn, ascending: bool, total: u64) -> int {
    let base = match col {
        SortColumn::Cpu => num_order(y.cpu_key as int, x.cpu_key as int),
        SortColumn::Memory => num_order(memory_rank(y, total), memory_rank(x, total)),
        SortColumn::Pid => num_order(x.pid as int, y.pid as int),
        SortColumn::Name => text_order(lowercase(x.name@), lowercase(y.name@)),
    };
    if ascending {
        -base
    } else {
        base
    }
}

/// `s` is in table order.
pub open spec fn rows_ordered(s: Seq<ProcessInfo>, col: SortColumn, ascending: bool, total: u64) -> bool {
    forall|i: int, j: int|
        0 <= i < j < s.len() ==> row_order(#[trigger] s[i], #[trigger] s[j], col, ascending, total) <= 0
}

/// The rows of `s` that tie with `x`, in their order in `s`.
pub open spec fn ties(s: Seq<ProcessInfo>, x: ProcessInfo, col: SortColumn, ascending: bool, total: u64) -> Seq<
    ProcessInfo,
> {
    s.filter(|y: ProcessInfo| row_order(x, y, col, ascending, total) == 0)
}

/// `out` is `input` sorted stably: in table order, with rows that tie kept
/// in their input order (which makes `out` a rearrangement of `input`).
pub open spec fn stably_sorted(
    input: Seq<ProcessInfo>,
    out: Seq<ProcessInfo>,
    col: SortColumn,
    ascending: bool,
    total: u64,
) -> bool {
    &&& out.len() == input.len()
    &&& rows_ordered(out, col, ascending, total)
    &&& forall|x: ProcessInfo| #[trigger]
        ties(out, x, col, ascending, total) == ties(input, x, col, ascending, total)
}

// ── Laws of the orders ──────────────────────────────────────────────────

proof fn lemma_text_order_antisym(a: Seq<char>, b: Seq<char>)
    ensures
        text_order(a, b) == -text_order(b, a),
        -1 <= text_order(a, b) <= 1,
        text_order(a, b) == 0 ==> a == b,
    decreases a.len(),
{
    if a.len() > 0 && b.len() > 0 && a[0] == b[0] {
        lemma_text_order_antisym(a.drop_first(), b.drop_first());
        if text_order(a, b) == 0 {
            assert(a =~= seq![a[0]] + a.drop_first());
            assert(b =~= seq![b[0]] + b.drop_first());
        }
    } else if a.len() == 0 && b.len() == 0 {
        assert(a =~= b);
    }
}

proof fn lemma_text_order_trans(a: Seq<char>, b: Seq<char>, c: Seq<char>)
    requires
        text_order(a, b) <= 0,
        text_order(b, c) <= 0,
    ensures
        text_order(a, c) <= 0,
    decreases a.len(),
{
    if a.len() > 0 && b.len() > 0 && c.len() > 0 {
        if a[0] == b[0] && b[0] == c[0] {
            lemma_text_order_trans(a.drop_first(), b.drop_first(), c.drop_first());
        }
    }
}

/// Row order is antisymmetric: swapping the rows flips the outcome.
pub proof fn lemma_row_order_antisym(x: ProcessInfo, y: ProcessInfo, col: SortColumn, ascending: bool, total: u64)
    ensures
        row_order(x, y, col, ascending, total) == -row_order(y, x, col, ascending, total),
        -1 <= row_order(x, y, col, ascending, total) <= 1,
{
    lemma_text_order_antisym(lowercase(x.name@), lowercase(y.name@));
}

/// Row order is transitive.
pub proof fn lemma_row_order_trans(
    x: ProcessInfo,
    y: ProcessInfo,
    z: ProcessInfo,
    col: SortColumn,
    ascending: bool,
    total: u64,
)
    requires
        row_order(x, y, col, ascending, total) <= 0,
        row_order(y, z, col, ascending, total) <= 0,
    ensures
        row_order(x, z, col, ascending, total) <= 0,
{
    let (lx, ly, lz) = (lowercase(x.name@), lowercase(y.name@), lowercase(z.name@));
    lemma_text_order_antisym(lx, ly);
    lemma_text_order_antisym(ly, lz);
    lemma_text_order_antisym(lx, lz);
    if col == SortColumn::Name {
        if ascending {
            lemma_text_order_trans(lz, ly, lx);
        } else {
            lemma_text_order_trans(lx, ly, lz);
        }
    }
}

/// Sorting ascending puts every pair of rows that do not tie in the
/// opposite order to sorting descending.
pub proof fn lemma_ascending_reverses(x: ProcessInfo, y: ProcessInfo, col: SortColumn, total: u64)
    ensures
        row_order(x, y, col, true, total) == row_order(y, x, col, false, total),
{
    lemma_row_order_antisym(x, y, col, false, total);
}

proof fn lemma_row_order_strict(
    x: ProcessInfo,
    y: ProcessInfo,
    z: ProcessInfo,
    col: SortColumn,
    ascending: bool,
    total: u64,
)
    requires
        row_order(x, y, col, ascending, total) < 0,
        row_order(y, z, col, ascending, total) <= 0,
    ensures
        row_order(x, z, col, ascending, total) < 0,
{
    lemma_row_order_trans(x, y, z, col, ascending, total);
    lemma_row_order_antisym(x, z, col, ascending, total);
    lemma_row_order_antisym(x, y, col, ascending, total);
    lemma_row_order_antisym(y, z, col, ascending, total);
    if row_order(x, z, col, ascending, total) == 0 {
        lemma_row_order_trans(y, z, x, col, ascending, total);
    }
}

proof fn lemma_row_order_strict_right(
    x: ProcessInfo,
    y: ProcessInfo,
    z: ProcessInfo,
    col: SortColumn,
    ascending: bool,
    total: u64,
)
    requires
        row_order(x, y, col, ascending, total) <= 0,
        row_order(y, z, col, ascending, total) < 0,
    ensures
        row_order(x, z, col, ascending, total) < 0,
{
    lemma_row_order_trans(x, y, z, col, ascending, total);
    lemma_row_order_antisym(x, z, col, ascending, total);
    lemma_row_order_antisym(x, y, col, ascending, total);
    lemma_row_order_antisym(y, z, col, ascending, total);
    if row_order(x, z, col, ascending, total) == 0 {
        lemma_row_order_trans(z, x, y, col, ascending, total);
    }
}

// ── Comparing rows ──────────────────────────────────────────────────────

fn text_compare(a: &Vec<char>, b: &Vec<char>) -> (r: i8)
    ensures
        r as int == text_order(a@, b@),
        -1 <= r <= 1,
{
    proof {
        lemma_text_order_antisym(a@, b@);
        assert(a@.skip(0) =~= a@);
        assert(b@.skip(0) =~= b@);
    }
    let mut i: usize = 0;
    while i < a.len() && i < b.len()
        invariant
            i <= a.len(),
            i <= b.len(),
            text_order(a@, b@) == text_order(a@.skip(i as int), b@.skip(i as int)),
        decreases a.len() - i,
    {
        let (ca, cb) = (a[i], b[i]);
        if ca < cb {
            return -1;
        }
        if ca > cb {
            return 1;
        }
        proof {
            assert(a@.skip(i as int).drop_first() =~= a@.skip(i + 1));
            assert(b@.skip(i as int).drop_first() =~= b@.skip(i + 1));
        }
        i += 1;
    }
    if i < b.len() {
        -1
    } else if i < a.len() {
        1
    } else {
        0
    }
}

fn num_compare(a: u64, b: u64) -> (r: i8)
    ensures
        r as int == num_order(a as int, b as int),
        -1 <= r <= 1,
{
    if a < b {
        -1
    } else if a > b {
        1
    } else {
        0
    }
}

/// Compares two rows of the table sorted by `col`.
pub fn compare_rows(x: &ProcessInfo, y: &ProcessInfo, col: SortColumn, ascending: bool, total: u64) -> (r: i8)
    ensures
        r as int == row_order(*x, *y, col, ascending, total),
{
    let base = match col {
        SortColumn::Cpu => num_compare(y.cpu_key as u64, x.cpu_key as u64),
        SortColumn::Memory => {
            let (my, mx) = if total > 0 {
                (y.mem_bytes, x.mem_bytes)
            } else {
                (0, 0)
            };
            num_compare(my, mx)
        },
        SortColumn::Pid => num_compare(x.pid as u64, y.pid as u64),
        SortColumn::Name => {
            let lx = lower_chars(x.name.as_str());
            let ly = lower_chars(y.name.as_str());
            text_compare(&lx, &ly)
        },
    };
    if ascending {
        -base
    } else {
        base
    }
}


// ── What the orders put first ───────────────────────────────────────────

/// A text comes before every longer text that it begins.
pub proof fn lemma_prefix_comes_first(a: Seq<char>, b: Seq<char>)
    requires
        b.len() > 0,
    ensures
        text_order(a, a + b) == -1,
        text_order(a + b, a) == 1,
    decreases a.len(),
{
    if a.len() > 0 {
        assert((a + b).drop_first() =~= a.drop_first() + b);
        assert((a + b)[0] == a[0]);
        lemma_prefix_comes_first(a.drop_first(), b);
    } else {
        assert(a + b =~= b);
    }
}

/// Two texts that agree on their first `k` characters and differ at place
/// `k` are ordered by the characters at `k`.
pub proof fn lemma_first_difference_decides(a: Seq<char>, b: Seq<char>, k: int)
    requires
        0 <= k < a.len(),
        k < b.len(),
        a.take(k) == b.take(k),
        a[k] < b[k],
    ensures
        text_order(a, b) == -1,
        text_order(b, a) == 1,
    decreases k,
{
    if k > 0 {
        assert(a[0] == a.take(k)[0]);
        assert(b[0] == b.take(k)[0]);
        assert(a.drop_first().take(k - 1) =~= a.take(k).drop_first());
        assert(b.drop_first().take(k - 1) =~= b.take(k).drop_first());
        lemma_first_difference_decides(a.drop_first(), b.drop_first(), k - 1);
    }
}

/// Sorted by memory with a known total, a process that uses more memory
/// comes first (last when the order is reversed), however small the
/// difference.
pub proof fn lemma_more_memory_first(x: ProcessInfo, y: ProcessInfo, total: u64)
    requires
        total > 0,
        x.mem_bytes > y.mem_bytes,
    ensures
        row_order(x, y, SortColumn::Memory, false, total) == -1,
        row_order(x, y, SortColumn::Memory, true, total) == 1,
{
}

/// Sorted by CPU, a process with a higher CPU figure comes first (last when
/// the order is reversed); sorted by PID, a lower PID comes first.
pub proof fn lemma_cpu_and_pid_orders(x: ProcessInfo, y: ProcessInfo, total: u64)
    ensures
        x.cpu_key > y.cpu_key ==> row_order(x, y, SortColumn::Cpu, false, total) == -1
            && row_order(x, y, SortColumn::Cpu, true, total) == 1,
        x.pid < y.pid ==> row_order(x, y, SortColumn::Pid, false, total) == -1
            && row_order(x, y, SortColumn::Pid, true, total) == 1,
{
}

/// Sorted by name, a process whose lowercase name begins the longer
/// lowercase name of another comes first (last when the order is
/// reversed); otherwise the first character where the lowercase names
/// differ decides.
pub proof fn lemma_name_order(x: ProcessInfo, y: ProcessInfo, total: u64)
    ensures
        ({
            let a = lowercase(x.name@);
            let b = lowercase(y.name@);
            &&& (a.len() < b.len() && a == b.take(a.len() as int)) ==> row_order(
                x,
                y,
                SortColumn::Name,
                false,
                total,
            ) == -1 && row_order(x, y, SortColumn::Name, true, total) == 1
            &&& forall|k: int|
                0 <= k < a.len() && k < b.len() && a.take(k) == b.take(k) && a[k] < b[k] ==> row_order(
                    x,
                    y,
                    SortColumn::Name,
                    false,
                    total,
                ) == -1 && row_order(x, y, SortColumn::Name, true, total) == 1
        }),
{
    let a = lowercase(x.name@);
    let b = lowercase(y.name@);
    if a.len() < b.len() && a == b.take(a.len() as int) {
        assert(b =~= a + b.skip(a.len() as int));
        lemma_prefix_comes_first(a, b.skip(a.len() as int));
    }
    assert forall|k: int|
        0 <= k < a.len() && k < b.len() && a.take(k) == b.take(k) && a[k] < b[k] implies row_order(
        x,
        y,
        SortColumn::Name,
        false,
        total,
    ) == -1 && row_order(x, y, SortColumn::Name, true, total) == 1 by {
        lemma_first_difference_decides(a, b, k);
    }
}

// ── Stable sort ─────────────────────────────────────────────────────────

proof fn lemma_ties_split(a: Seq<ProcessInfo>, b: Seq<ProcessInfo>, x: ProcessInfo, col: SortColumn, ascending: bool, total: u64)
    ensures
        ties(a + b, x, col, ascending, total) == ties(a, x, col, ascending, total) + ties(b, x, col, ascending, total),
{
    let pred = |y: ProcessInfo| row_order(x, y, col, ascending, total) == 0;
    Seq::filter_distributes_over_add(a, b, pred);
}

proof fn lemma_ties_single(e: ProcessInfo, x: ProcessInfo, col: SortColumn, ascending: bool, total: u64)
    ensures
        ties(seq![e], x, col, ascending, total) == (if row_order(x, e, col, ascending, total) == 0 {
            seq![e]
        } else {
            Seq::<ProcessInfo>::empty()
        }),
{
    let pred = |y: ProcessInfo| row_order(x, y, col, ascending, total) == 0;
    reveal_with_fuel(Seq::filter, 2);
    assert(seq![e].drop_last() =~= Seq::<ProcessInfo>::empty());
}

proof fn lemma_ties_none(s: Seq<ProcessInfo>, x: ProcessInfo, col: SortColumn, ascending: bool, total: u64)
    requires
        forall|i: int| 0 <= i < s.len() ==> row_order(x, #[trigger] s[i], col, ascending, total) != 0,
    ensures
        ties(s, x, col, ascending, total) == Seq::<ProcessInfo>::empty(),
{
    let pred = |y: ProcessInfo| row_order(x, y, col, ascending, total) == 0;
    s.lemma_all_neg_filter_empty(pred);
}

proof fn lemma_tie_chain(x: ProcessInfo, y: ProcessInfo, e: ProcessInfo, col: SortColumn, ascending: bool, total: u64)
    requires
        row_order(x, y, col, ascending, total) == 0,
        row_order(x, e, col, ascending, total) == 0,
    ensures
        row_order(y, e, col, ascending, total) == 0,
{
    lemma_row_order_antisym(x, y, col, ascending, total);
    lemma_row_order_antisym(x, e, col, ascending, total);
    lemma_row_order_antisym(y, e, col, ascending, total);
    lemma_row_order_trans(y, x, e, col, ascending, total);
    lemma_row_order_trans(e, x, y, col, ascending, total);
}

/// Sorts the rows stably into table order.
pub fn sort_rows(rows: Vec<ProcessInfo>, col: SortColumn, ascending: bool, total: u64) -> (out: Vec<ProcessInfo>)
    ensures
        stably_sorted(rows@, out@, col, ascending, total),
{
    let ghost input = rows@;
    let mut rows = rows;
    let mut out: Vec<ProcessInfo> = Vec::new();
    proof {
        assert forall|x: ProcessInfo| #[trigger] ties(out@, x, col, ascending, total) == ties(
            input.subrange(rows.len() as int, input.len() as int),
            x,
            col,
            ascending,
            total,
        ) by {
            assert(input.subrange(rows.len() as int, input.len() as int) =~= Seq::<ProcessInfo>::empty());
            lemma_ties_none(out@, x, col, ascending, total);
            lemma_ties_none(Seq::<ProcessInfo>::empty(), x, col, ascending, total);
        }
    }
    loop
        invariant
            rows.len() <= input.len(),
            rows@ == input.subrange(0, rows.len() as int),
            out.len() == input.len() - rows.len(),
            rows_ordered(out@, col, ascending, total),
            forall|x: ProcessInfo| #[trigger] ties(out@, x, col, ascending, total) == ties(
                input.subrange(rows.len() as int, input.len() as int),
                x,
                col,
                ascending,
                total,
            ),
        ensures
            rows.len() == 0,
        decreases rows.len(),
    {
        let ghost before = out@;
        let ghost done = input.subrange(rows.len() as int, input.len() as int);
        let e = match rows.pop() {
            None => break,
            Some(e) => e,
        };
        let ghost later = input.subrange(rows.len() as int, input.len() as int);
        proof {
            assert(later =~= seq![e] + done);
        }
        // the first place whose row does not come before `e`
        let mut p: usize = 0;
        while p < out.len() && compare_rows(&out[p], &e, col, ascending, total) < 0
            invariant
                out@ == before,
                p <= out.len(),
                forall|i: int| 0 <= i < p ==> row_order(#[trigger] out@[i], e, col, ascending, total) < 0,
            decreases out.len() - p,
        {
            p += 1;
        }
        proof {
            assert forall|i: int| p <= i < before.len() implies row_order(e, #[trigger] before[i], col, ascending, total) <= 0 by {
                lemma_row_order_antisym(before[p as int], e, col, ascending, total);
                if i > p {
                    lemma_row_order_trans(e, before[p as int], before[i], col, ascending, total);
                }
            }
        }
        out.insert(p, e);
        proof {
            let pi = p as int;
            let left = before.subrange(0, pi);
            let right = before.subrange(pi, before.len() as int);
            assert(before =~= left + right);
            assert(out@ =~= left + seq![e] + right);
            assert forall|i: int, j: int| 0 <= i < j < out.len() implies row_order(#[trigger] out@[i], #[trigger] out@[j], col, ascending, total) <= 0 by {
                if i < pi && j == pi {
                } else if i < pi && j > pi {
                    assert(out@[j] == before[j - 1]);
                    assert(row_order(before[i], before[j - 1], col, ascending, total) <= 0);
                } else if i == pi {
                    assert(out@[j] == before[j - 1]);
                } else if i > pi {
                    assert(out@[i] == before[i - 1]);
                    assert(out@[j] == before[j - 1]);
                    assert(row_order(before[i - 1], before[j - 1], col, ascending, total) <= 0);
                }
            }
            assert forall|x: ProcessInfo| #[trigger] ties(out@, x, col, ascending, total) == ties(later, x, col, ascending, total) by {
                lemma_ties_split(left + seq![e], right, x, col, ascending, total);
                lemma_ties_split(left, seq![e], x, col, ascending, total);
                lemma_ties_split(left, right, x, col, ascending, total);
                lemma_ties_split(seq![e], done, x, col, ascending, total);
                lemma_ties_single(e, x, col, ascending, total);
                assert(ties(before, x, col, ascending, total) == ties(done, x, col, ascending, total));
                if row_order(x, e, col, ascending, total) == 0 {
                    assert forall|i: int| 0 <= i < left.len() implies row_order(x, #[trigger] left[i], col, ascending, total) != 0 by {
                        if row_order(x, left[i], col, ascending, total) == 0 {
                            lemma_tie_chain(x, left[i], e, col, ascending, total);
                            assert(left[i] == before[i]);
                        }
                    }
                    lemma_ties_none(left, x, col, ascending, total);
                    assert(ties(left, x, col, ascending, total) + seq![e] + ties(right, x, col, ascending, total)
                        =~= seq![e] + (ties(left, x, col, ascending, total) + ties(right, x, col, ascending, total)));
                } else {
                    assert(ties(left, x, col, ascending, total) + Seq::<ProcessInfo>::empty() =~= ties(left, x, col, ascending, total));
                    assert(Seq::<ProcessInfo>::empty() + ties(done, x, col, ascending, total) =~= ties(done, x, col, ascending, total));
                }
            }
        }
    }
    proof {
        assert(input.subrange(0, input.len() as int) =~= input);
    }
    out
}

// ── The stable order is unique ──────────────────────────────────────────

proof fn lemma_ties_drop_last(s: Seq<ProcessInfo>, y: ProcessInfo, col: SortColumn, ascending: bool, total: u64)
    requires
        s.len() > 0,
    ensures
        ties(s, y, col, ascending, total) == if row_order(y, s.last(), col, ascending, total) == 0 {
            ties(s.drop_last(), y, col, ascending, total).push(s.last())
        } else {
            ties(s.drop_last(), y, col, ascending, total)
        },
{
    let pred = |w: ProcessInfo| row_order(y, w, col, ascending, total) == 0;
    assert(s.drop_last().push(s.last()) =~= s);
    s.drop_last().lemma_filter_push(s.last(), pred);
}

proof fn lemma_tied_member(s: Seq<ProcessInfo>, y: ProcessInfo, w: ProcessInfo, col: SortColumn, ascending: bool, total: u64)
    requires
        ties(s, y, col, ascending, total).contains(w),
    ensures
        s.contains(w),
{
    let pred = |v: ProcessInfo| row_order(y, v, col, ascending, total) == 0;
    s.lemma_filter_contains_rev(pred, w);
}

proof fn lemma_ordered_unique(a: Seq<ProcessInfo>, b: Seq<ProcessInfo>, col: SortColumn, ascending: bool, total: u64)
    requires
        a.len() == b.len(),
        rows_ordered(a, col, ascending, total),
        rows_ordered(b, col, ascending, total),
        forall|y: ProcessInfo| #[trigger] ties(a, y, col, ascending, total) == ties(b, y, col, ascending, total),
    ensures
        a == b,
    decreases a.len(),
{
    if a.len() == 0 {
        assert(a =~= b);
        return;
    }
    let x = a.last();
    let z = b.last();
    lemma_row_order_antisym(x, x, col, ascending, total);
    lemma_row_order_antisym(z, z, col, ascending, total);
    lemma_ties_drop_last(a, x, col, ascending, total);
    lemma_ties_drop_last(b, z, col, ascending, total);
    lemma_ties_drop_last(a, z, col, ascending, total);
    lemma_ties_drop_last(b, x, col, ascending, total);
    // `z` lies in `a`, so it does not come after `x`
    assert(ties(b, z, col, ascending, total).last() == z);
    assert(ties(a, z, col, ascending, total).contains(z));
    lemma_tied_member(a, z, z, col, ascending, total);
    let p = choose|p: int| 0 <= p < a.len() && a[p] == z;
    if p < a.len() - 1 {
        assert(row_order(a[p], a[a.len() - 1], col, ascending, total) <= 0);
    }
    // `x` lies in `b`, so it does not come after `z`
    assert(ties(b, x, col, ascending, total).contains(x));
    lemma_tied_member(b, x, x, col, ascending, total);
    let q = choose|q: int| 0 <= q < b.len() && b[q] == x;
    if q < b.len() - 1 {
        assert(row_order(b[q], b[b.len() - 1], col, ascending, total) <= 0);
    }
    lemma_row_order_antisym(x, z, col, ascending, total);
    // so both lists end with the last row of the same class
    assert(row_order(x, z, col, ascending, total) == 0);
    assert(ties(a, x, col, ascending, total).last() == x);
    assert(ties(b, x, col, ascending, total).last() == z);
    assert(x == z);
    let (a1, b1) = (a.drop_last(), b.drop_last());
    assert forall|y: ProcessInfo| #[trigger] ties(a1, y, col, ascending, total) == ties(b1, y, col, ascending, total) by {
        lemma_ties_drop_last(a, y, col, ascending, total);
        lemma_ties_drop_last(b, y, col, ascending, total);
        assert(ties(a, y, col, ascending, total) == ties(b, y, col, ascending, total));
        if row_order(y, x, col, ascending, total) == 0 {
            assert(ties(a1, y, col, ascending, total) =~= ties(a, y, col, ascending, total).drop_last());
            assert(ties(b1, y, col, ascending, total) =~= ties(b, y, col, ascending, total).drop_last());
        }
    }
    assert forall|i: int, j: int| 0 <= i < j < a1.len() implies row_order(#[trigger] a1[i], #[trigger] a1[j], col, ascending, total) <= 0 by {
        assert(a1[i] == a[i] && a1[j] == a[j]);
    }
    assert forall|i: int, j: int| 0 <= i < j < b1.len() implies row_order(#[trigger] b1[i], #[trigger] b1[j], col, ascending, total) <= 0 by {
        assert(b1[i] == b[i] && b1[j] == b[j]);
    }
    lemma_ordered_unique(a1, b1, col, ascending, total);
    assert(a =~= b) by {
        assert(a == a1.push(x));
        assert(b == b1.push(z));
    }
}

/// There is only one stable sort of a list of rows: the table order and the
/// order of the tied rows decide every place.
pub proof fn lemma_stable_sort_unique(
    input: Seq<ProcessInfo>,
    a: Seq<ProcessInfo>,
    b: Seq<ProcessInfo>,
    col: SortColumn,
    ascending: bool,
    total: u64,
)
    requires
        stably_sorted(input, a, col, ascending, total),
        stably_sorted(input, b, col, ascending, total),
    ensures
        a == b,
{
    assert forall|y: ProcessInfo| #[trigger] ties(a, y, col, ascending, total) == ties(b, y, col, ascending, total) by {
        assert(ties(a, y, col, ascending, total) == ties(input, y, col, ascending, total));
        assert(ties(b, y, col, ascending, total) == ties(input, y, col, ascending, total));
    }
    lemma_ordered_unique(a, b, col, ascending, total);
}
} // verus!
