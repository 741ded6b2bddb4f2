use vstd::prelude::*;

use crate::sort::{sort_rows, stably_sorted};
use crate::text::{contains_run, has_run, lower_chars, lowercase};

verus! {

/// One process as the system reports it: what the process table and the
/// process tree read of it.
///
/// `cpu_key` stands for the CPU usage figure: it is the bit pattern of that
/// (non-negative) figure, so that its integer order is the order of the
/// figures themselves.
pub struct ProcessSample {
    pub pid: u32,
    pub parent: Option<u32>,
    pub name: String,
    pub cpu_key: u32,
    pub memory: u64,
    pub status: String,
    pub exe_path: Option<String>,
}

/// A single row in the process table.
///
/// `cpu_key` stands for the CPU usage, as in `ProcessSample`; the memory
/// share is `mem_bytes` over the total memory.
pub struct ProcessInfo {
    pub pid: u32,
    pub name: String,
    pub cpu_key: u32,
    pub mem_bytes: u64,
    pub status: String,
    pub exe_path: Option<String>,
}

/// Which column the process table is sorted by.
#[derive(Clone, Copy, Debug, PartialEq, Eq, Structural)]
pub enum SortColumn {
    Cpu,
    Memory,
    Pid,
    Name,
}

/// The column after `c` in the cycle CPU → Memory → PID → Name → CPU.
pub open spec fn next_column(c: SortColumn) -> SortColumn {
    match c {
        SortColumn::Cpu => SortColumn::Memory,
        SortColumn::Memory => SortColumn::Pid,
        SortColumn::Pid => SortColumn::Name,
        SortColumn::Name => SortColumn::Cpu,
    }
}

/// The header label of column `c`.
pub open spec fn column_label(c: SortColumn) -> Seq<char> {
    match c {
        SortColumn::Cpu => "CPU%"@,
        SortColumn::Memory => "MEM%"@,
        SortColumn::Pid => "PID"@,
        SortColumn::Name => "Name"@,
    }
}

impl SortColumn {
    /// Cycle to the next sort column.
    pub fn next(self) -> (r: SortColumn)
        ensures
            r == next_column(self),
    {
        match self {
            SortColumn::Cpu => SortColumn::Memory,
            SortColumn::Memory => SortColumn::Pid,
            SortColumn::Pid => SortColumn::Name,
            SortColumn::Name => SortColumn::Cpu,
        }
    }

    /// Label shown in the table header.
    pub fn label(self) -> (r: &'static str)
        ensures
            r@ == column_label(self),
    {
        match self {
            SortColumn::Cpu => "CPU%",
            SortColumn::Memory => "MEM%",
            SortColumn::Pid => "PID",
            SortColumn::Name => "Name",
        }
    }
}

/// Cycling the sort column four times comes back to where it started, and
/// no sooner: the cycle passes through all four columns.
pub proof fn lemma_next_column_cycle(c: SortColumn)
    ensures
        next_column(next_column(next_column(next_column(c)))) == c,
        next_column(c) != c,
        next_column(next_column(c)) != c,
        next_column(next_column(next_column(c))) != c,
{
}


// ── Collecting the process table ────────────────────────────────────────

/// A process is shown when it uses some CPU or some memory (idle kernel
/// entries use neither), and, under a filter, when its name contains the
/// filter text, both taken in lowercase.
pub open spec fn shown(p: ProcessSample, filter: Option<Seq<char>>) -> bool {
    &&& (p.cpu_key > 0 || p.memory > 0)
    &&& match filter {
        None => true,
        Some(f) => has_run(lowercase(p.name@), lowercase(f)),
    }
}

/// The table row of a process.
pub open spec fn row_of(p: ProcessSample) -> ProcessInfo {
    ProcessInfo {
        pid: p.pid,
        name: p.name,
        cpu_key: p.cpu_key,
        mem_bytes: p.memory,
        status: p.status,
        exe_path: p.exe_path,
    }
}

/// The rows of the shown processes, in the order they were reported.
pub open spec fn shown_rows(s: Seq<ProcessSample>, filter: Option<Seq<char>>) -> Seq<ProcessInfo> {
    s.filter(|p: ProcessSample| shown(p, filter)).map_values(|p: ProcessSample| row_of(p))
}

/// The text a filter argument holds.
pub open spec fn filter_text(filter: Option<&str>) -> Option<Seq<char>> {
    match filter {
        None => None,
        Some(f) => Some(f@),
    }
}

/// `r` is the process table for `procs`: the shown rows sorted stably by
/// `col` (reversed when `ascending`), cut to the first `max` rows.
pub open spec fn is_table(
    procs: Seq<ProcessSample>,
    total: u64,
    col: SortColumn,
    ascending: bool,
    filter: Option<Seq<char>>,
    max: usize,
    r: Seq<ProcessInfo>,
) -> bool {
    let shown = shown_rows(procs, filter);
    &&& r.len() == if shown.len() < max {
        shown.len()
    } else {
        max as nat
    }
    &&& exists|full: Seq<ProcessInfo>|
        stably_sorted(shown, full, col, ascending, total) && r == full.take(r.len() as int)
}

/// Filters out kernel/system idle processes with zero CPU and memory.
pub fn process_is_visible(p: &ProcessSample) -> (r: bool)
    ensures
        r == (p.cpu_key > 0 || p.memory > 0),
{
    p.cpu_key > 0 || p.memory > 0
}

fn copy_text(o: &Option<String>) -> (r: Option<String>)
    ensures
        r == *o,
{
    match o {
        Some(t) => Some(t.clone()),
        None => None,
    }
}

fn row_from(p: &ProcessSample) -> (r: ProcessInfo)
    ensures
        r == row_of(*p),
{
    ProcessInfo {
        pid: p.pid,
        name: p.name.clone(),
        cpu_key: p.cpu_key,
        mem_bytes: p.memory,
        status: p.status.clone(),
        exe_path: copy_text(&p.exe_path),
    }
}

/// Collects the shown processes into table rows, sorts them stably by
/// `sort_col` (reversed when `sort_ascending`) and keeps the first
/// `max_rows`. `total_mem` is the machine's memory, which the memory share
/// of each row is taken of.
pub fn collect_processes(
    procs: &Vec<ProcessSample>,
    total_mem: u64,
    sort_col: SortColumn,
    sort_ascending: bool,
    filter: Option<&str>,
    max_rows: usize,
) -> (r: Vec<ProcessInfo>)
    ensures
        is_table(procs@, total_mem, sort_col, sort_ascending, filter_text(filter), max_rows, r@),
{
    let ghost s = procs@;
    let ghost f = filter_text(filter);
    let ghost keep = |p: ProcessSample| shown(p, f);
    let ghost conv = |p: ProcessSample| row_of(p);
    let lowered_filter: Option<Vec<char>> = match filter {
        Some(text) => Some(lower_chars(text)),
        None => None,
    };
    let mut rows: Vec<ProcessInfo> = Vec::new();
    let mut i: usize = 0;
    while i < procs.len()
        invariant
            s == procs@,
            f == filter_text(filter),
            keep == (|p: ProcessSample| shown(p, f)),
            conv == (|p: ProcessSample| row_of(p)),
            i <= s.len(),
            match filter {
                None => lowered_filter is None,
                Some(text) => lowered_filter matches Some(lf) && lf@ == lowercase(text@),
            },
            rows@ == s.take(i as int).filter(keep).map_values(conv),
        decreases s.len() - i,
    {
        let p = &procs[i];
        let wanted = if process_is_visible(p) {
            match &lowered_filter {
                None => true,
                Some(lf) => contains_run(&lower_chars(p.name.as_str()), lf),
            }
        } else {
            false
        };
        proof {
            assert(s.take(i + 1) =~= s.take(i as int).push(s[i as int]));
            s.take(i as int).lemma_filter_push(s[i as int], keep);
            assert(wanted == keep(s[i as int]));
        }
        if wanted {
            let row = row_from(p);
            proof {
                s.take(i as int).filter(keep).lemma_push_map_commute(conv, s[i as int]);
            }
            rows.push(row);
        }
        i += 1;
    }
    proof {
        assert(s.take(s.len() as int) =~= s);
    }
    let ghost unsorted = rows@;
    let mut sorted = sort_rows(rows, sort_col, sort_ascending, total_mem);
    let ghost full = sorted@;
    sorted.truncate(max_rows);
    proof {
        assert(sorted@ =~= full.take(sorted.len() as int));
        assert(stably_sorted(shown_rows(s, f), full, sort_col, sort_ascending, total_mem));
    }
    sorted
}
} // verus!
