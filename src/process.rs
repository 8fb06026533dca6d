//! The process table: one snapshot of processes kept sorted by the active
//! key, narrowed by the active name filter, with a clamped selection.
use vstd::prelude::*;
use crate::text::{contains_seq, folded_contains, lower_of, lowercase, seq_lt, str_lt};
use crate::text::{lemma_seq_lt_asymmetric, lemma_seq_lt_transitive};

verus! {

/// One row of the table. CPU use is in hundredths of a percent.
#[derive(Debug)]
pub struct Process {
    pub pid: u32,
    pub name: String,
    pub cpu_usage: u32,
    pub memory_usage: u64,
}

impl Clone for Process {
    fn clone(&self) -> (r: Self)
        ensures
            r == *self,
    {
        Process {
            pid: self.pid,
            name: self.name.clone(),
            cpu_usage: self.cpu_usage,
            memory_usage: self.memory_usage,
        }
    }
}

/// The active sort key: identifier and name ascend, CPU and memory descend.
#[derive(Debug, Clone, Copy, PartialEq, Eq, Structural)]
pub enum SortField {
    Pid,
    Name,
    Cpu,
    Memory,
}

/// `a` goes strictly before `b` under the sort key `f`.
pub open spec fn before(a: Process, b: Process, f: SortField) -> bool {
    match f {
        SortField::Pid => a.pid < b.pid,
        SortField::Name => seq_lt(a.name@, b.name@),
        SortField::Cpu => a.cpu_usage > b.cpu_usage,
        SortField::Memory => a.memory_usage > b.memory_usage,
    }
}

/// No row goes strictly before an earlier one.
pub open spec fn sorted_by(s: Seq<Process>, f: SortField) -> bool {
    forall|i: int, j: int| 0 <= i < j < s.len() ==> !before(#[trigger] s[j], #[trigger] s[i], f)
}

/// Where a stable insertion puts `x` into `r`: before the first row that `x` precedes.
pub open spec fn insert_pos(r: Seq<Process>, x: Process, f: SortField) -> int
    decreases r.len(),
{
    if r.len() == 0 {
        0
    } else if before(x, r[0], f) {
        0
    } else {
        1 + insert_pos(r.drop_first(), x, f)
    }
}

/// The stable sort of `s` under `f`: the rows inserted one by one, in order.
pub open spec fn sort_spec(s: Seq<Process>, f: SortField) -> Seq<Process>
    decreases s.len(),
{
    if s.len() == 0 {
        Seq::empty()
    } else {
        let r = sort_spec(s.drop_last(), f);
        r.insert(insert_pos(r, s.last(), f), s.last())
    }
}

/// A row is kept by the filter `q` when its case-folded name holds the case-folded query.
pub open spec fn name_matches(name: Seq<char>, q: Seq<char>) -> bool {
    contains_seq(lower_of(name), lower_of(q))
}

/// The rows of `s` that the filter `q` keeps, in their order.
pub open spec fn filter_spec(s: Seq<Process>, q: Seq<char>) -> Seq<Process>
    decreases s.len(),
{
    if s.len() == 0 {
        Seq::empty()
    } else {
        let r = filter_spec(s.drop_last(), q);
        if name_matches(s.last().name@, q) {
            r.push(s.last())
        } else {
            r
        }
    }
}

/// The filter, if any, applied to `s`.
pub open spec fn filter_opt(s: Seq<Process>, q: Option<Seq<char>>) -> Seq<Process> {
    match q {
        Some(q) => filter_spec(s, q),
        None => s,
    }
}

/// The selection index after moving `delta` rows from `sel` in a table of `len` rows.
pub open spec fn clamp_move(sel: int, delta: int, len: int) -> int {
    if len == 0 || sel + delta <= 0 {
        0
    } else if sel + delta >= len - 1 {
        len - 1
    } else {
        sel + delta
    }
}

/// The selection `sel` brought into a table of `len` rows.
pub open spec fn clamp_index(sel: int, len: int) -> int {
    if len == 0 {
        0
    } else if sel > len - 1 {
        len - 1
    } else {
        sel
    }
}

pub proof fn lemma_before_asymmetric(a: Process, b: Process, f: SortField)
    ensures
        before(a, b, f) ==> !before(b, a, f),
{
    lemma_seq_lt_asymmetric(a.name@, b.name@);
}

pub proof fn lemma_before_transitive(a: Process, b: Process, c: Process, f: SortField)
    ensures
        before(a, b, f) && before(b, c, f) ==> before(a, c, f),
{
    lemma_seq_lt_transitive(a.name@, b.name@, c.name@);
}

/// `insert_pos` is the first index of a row that `x` precedes, or the length.
proof fn lemma_insert_pos_first(r: Seq<Process>, x: Process, f: SortField, j: int)
    requires
        0 <= j <= r.len(),
        forall|k: int| 0 <= k < j ==> !before(x, #[trigger] r[k], f),
        j < r.len() ==> before(x, r[j], f),
    ensures
        insert_pos(r, x, f) == j,
    decreases r.len(),
{
    if r.len() > 0 && j > 0 {
        assert(!before(x, r[0], f));
        let t = r.drop_first();
        assert forall|k: int| 0 <= k < j - 1 implies !before(x, #[trigger] t[k], f) by {
            assert(t[k] == r[k + 1]);
        }
        lemma_insert_pos_first(t, x, f, j - 1);
    }
}

proof fn lemma_insert_pos_bounds(r: Seq<Process>, x: Process, f: SortField)
    ensures
        0 <= insert_pos(r, x, f) <= r.len(),
        forall|k: int| 0 <= k < insert_pos(r, x, f) ==> !before(x, #[trigger] r[k], f),
        insert_pos(r, x, f) < r.len() ==> before(x, r[insert_pos(r, x, f)], f),
    decreases r.len(),
{
    if r.len() > 0 && !before(x, r[0], f) {
        let t = r.drop_first();
        lemma_insert_pos_bounds(t, x, f);
        assert forall|k: int| 0 <= k < insert_pos(r, x, f) implies !before(x, #[trigger] r[k], f) by {
            if k > 0 {
                assert(r[k] == t[k - 1]);
            }
        }
    }
}

/// A stable sort leaves its result ordered by the key.
pub proof fn lemma_sort_spec_sorted(s: Seq<Process>, f: SortField)
    ensures
        sorted_by(sort_spec(s, f), f),
        sort_spec(s, f).len() == s.len(),
    decreases s.len(),
{
    if s.len() > 0 {
        let r = sort_spec(s.drop_last(), f);
        let x = s.last();
        lemma_sort_spec_sorted(s.drop_last(), f);
        lemma_insert_pos_bounds(r, x, f);
        let p = insert_pos(r, x, f);
        let n = r.insert(p, x);
        assert forall|i: int, j: int| 0 <= i < j < n.len() implies !before(#[trigger] n[j], #[trigger] n[i], f) by {
            if j < p {
                assert(n[i] == r[i] && n[j] == r[j]);
            } else if j == p {
                assert(n[i] == r[i]);
            } else if i == p {
                assert(n[j] == r[j - 1]);
                lemma_before_asymmetric(x, r[p], f);
                lemma_before_transitive(r[j - 1], x, r[p], f);
                if j - 1 > p {
                    assert(!before(r[j - 1], r[p], f));
                }
            } else if i < p {
                assert(n[i] == r[i] && n[j] == r[j - 1]);
            } else {
                assert(n[i] == r[i - 1] && n[j] == r[j - 1]);
            }
        }
    }
}

/// A stable sort keeps every row, each as often as it was there.
pub proof fn lemma_sort_spec_permutes(s: Seq<Process>, f: SortField)
    ensures
        sort_spec(s, f).to_multiset() == s.to_multiset(),
    decreases s.len(),
{
    if s.len() > 0 {
        let d = s.drop_last();
        let r = sort_spec(d, f);
        lemma_sort_spec_permutes(d, f);
        lemma_insert_pos_bounds(r, s.last(), f);
        vstd::seq_lib::to_multiset_insert(r, insert_pos(r, s.last(), f), s.last());
        vstd::seq_lib::to_multiset_build(d, s.last());
        assert(d.push(s.last()) =~= s);
    } else {
        assert(s =~= Seq::<Process>::empty());
    }
}

/// Sorting a sequence that is already ordered by the key changes nothing.
pub proof fn lemma_sort_spec_of_sorted(s: Seq<Process>, f: SortField)
    requires
        sorted_by(s, f),
    ensures
        sort_spec(s, f) == s,
    decreases s.len(),
{
    if s.len() > 0 {
        let d = s.drop_last();
        assert(sorted_by(d, f)) by {
            assert forall|i: int, j: int| 0 <= i < j < d.len() implies !before(#[trigger] d[j], #[trigger] d[i], f) by {
                assert(d[i] == s[i] && d[j] == s[j]);
            }
        }
        lemma_sort_spec_of_sorted(d, f);
        let x = s.last();
        assert forall|k: int| 0 <= k < d.len() implies !before(x, #[trigger] d[k], f) by {
            assert(d[k] == s[k]);
        }
        lemma_insert_pos_first(d, x, f, d.len() as int);
        assert(d.insert(d.len() as int, x) =~= s);
    }
}

/// Sorting twice by the same key gives the order that sorting once gave.
pub proof fn lemma_sort_twice(s: Seq<Process>, f: SortField)
    ensures
        sort_spec(sort_spec(s, f), f) == sort_spec(s, f),
{
    lemma_sort_spec_sorted(s, f);
    lemma_sort_spec_of_sorted(sort_spec(s, f), f);
}

/// Every row that the filter leaves matches it.
pub proof fn lemma_filter_all_match(s: Seq<Process>, q: Seq<char>)
    ensures
        forall|k: int| 0 <= k < filter_spec(s, q).len() ==> name_matches(#[trigger] filter_spec(s, q)[k].name@, q),
        filter_spec(s, q).len() <= s.len(),
    decreases s.len(),
{
    if s.len() > 0 {
        lemma_filter_all_match(s.drop_last(), q);
    }
}

/// Filtering a sequence whose rows all match leaves it as it is.
proof fn lemma_filter_of_matching(s: Seq<Process>, q: Seq<char>)
    requires
        forall|k: int| 0 <= k < s.len() ==> name_matches(#[trigger] s[k].name@, q),
    ensures
        filter_spec(s, q) == s,
    decreases s.len(),
{
    if s.len() > 0 {
        let d = s.drop_last();
        assert forall|k: int| 0 <= k < d.len() implies name_matches(#[trigger] d[k].name@, q) by {
            assert(d[k] == s[k]);
        }
        lemma_filter_of_matching(d, q);
        assert(d.push(s.last()) =~= s);
    }
}

/// Applying the same filter twice shows the rows that applying it once shows.
pub proof fn lemma_filter_twice(s: Seq<Process>, q: Seq<char>)
    ensures
        filter_spec(filter_spec(s, q), q) == filter_spec(s, q),
{
    lemma_filter_all_match(s, q);
    lemma_filter_of_matching(filter_spec(s, q), q);
}

/// Whether `a` goes strictly before `b` under `f`.
fn precedes(a: &Process, b: &Process, f: SortField) -> (r: bool)
    ensures
        r == before(*a, *b, f),
{
    match f {
        SortField::Pid => a.pid < b.pid,
        SortField::Name => str_lt(a.name.as_str(), b.name.as_str()),
        SortField::Cpu => a.cpu_usage > b.cpu_usage,
        SortField::Memory => a.memory_usage > b.memory_usage,
    }
}

/// A copy of the rows.
fn copy_rows(v: &Vec<Process>) -> (r: Vec<Process>)
    ensures
        r@ == v@,
{
    let mut out: Vec<Process> = Vec::new();
    let mut i: usize = 0;
    while i < v.len()
        invariant
            i <= v@.len(),
            out@ == v@.take(i as int),
        decreases v@.len() - i,
    {
        out.push(v[i].clone());
        assert(v@.take(i + 1) =~= v@.take(i as int).push(v@[i as int]));
        i = i + 1;
    }
    assert(v@.take(v@.len() as int) =~= v@);
    out
}

/// Sorts the rows stably by `f`.
pub fn sorted(v: Vec<Process>, f: SortField) -> (r: Vec<Process>)
    ensures
        r@ == sort_spec(v@, f),
{
    let ghost orig = v@;
    let mut src = v;
    let mut out: Vec<Process> = Vec::new();
    let mut k: usize = 0;
    let n = src.len();
    while k < n
        invariant
            n == orig.len(),
            k <= n,
            src@ == orig.skip(k as int),
            out@ == sort_spec(orig.take(k as int), f),
        decreases n - k,
    {
        let x = src.remove(0);
        let mut j: usize = 0;
        proof {
            lemma_sort_spec_sorted(orig.take(k as int), f);
        }
        while j < out.len() && !precedes(&x, &out[j], f)
            invariant
                j <= out@.len(),
                forall|m: int| 0 <= m < j ==> !before(x, #[trigger] out@[m], f),
            decreases out@.len() - j,
        {
            j = j + 1;
        }
        proof {
            assert(x == orig[k as int]);
            lemma_insert_pos_first(out@, x, f, j as int);
            assert(orig.take(k + 1).drop_last() =~= orig.take(k as int));
            assert(orig.skip(k as int).remove(0) =~= orig.skip(k + 1));
        }
        out.insert(j, x);
        k = k + 1;
    }
    assert(orig.take(n as int) =~= orig);
    out
}

/// Keeps the rows whose name holds `query`, both case folded.
/// An empty query keeps every row.
pub fn filtered(v: Vec<Process>, query: &str) -> (r: Vec<Process>)
    ensures
        r@ == filter_spec(v@, query@),
        query@.len() == 0 ==> r@ == v@,
{
    let ghost orig = v@;
    let q = lowercase(query);
    let mut src = v;
    let mut out: Vec<Process> = Vec::new();
    let mut k: usize = 0;
    let n = src.len();
    while k < n
        invariant
            n == orig.len(),
            k <= n,
            q@ == lower_of(query@),
            src@ == orig.skip(k as int),
            out@ == filter_spec(orig.take(k as int), query@),
            query@.len() == 0 ==> out@ == orig.take(k as int),
            query@.len() == 0 ==> q@.len() == 0,
        decreases n - k,
    {
        let x = src.remove(0);
        let name = lowercase(x.name.as_str());
        let keep = folded_contains(name.as_str(), q.as_str());
        proof {
            if query@.len() == 0 {
                assert(name@.subrange(0, 0 + q@.len() as int) =~= q@);
                assert(contains_seq(name@, q@));
                assert(orig.take(k + 1) =~= orig.take(k as int).push(x));
            }
            assert(x == orig[k as int]);
            assert(orig.take(k + 1).drop_last() =~= orig.take(k as int));
            assert(orig.skip(k as int).remove(0) =~= orig.skip(k + 1));
        }
        if keep {
            out.push(x);
        }
        k = k + 1;
    }
    assert(orig.take(n as int) =~= orig);
    out
}

/// The selection after each move of `deltas` in turn, from `sel`, in a table of `len` rows.
pub open spec fn select_after(sel: int, deltas: Seq<i32>, len: int) -> int
    decreases deltas.len(),
{
    if deltas.len() == 0 {
        sel
    } else {
        select_after(clamp_move(sel, deltas[0] as int, len), deltas.drop_first(), len)
    }
}

/// A selection index that refers to a row, or is 0 in an empty table.
pub open spec fn index_in_range(sel: int, len: int) -> bool {
    &&& len == 0 ==> sel == 0
    &&& len > 0 ==> 0 <= sel < len
}

/// Whatever moves are made, with whatever deltas, the selection stays in range.
pub proof fn lemma_selection_in_range(sel: int, deltas: Seq<i32>, len: int)
    requires
        len >= 0,
        index_in_range(sel, len),
    ensures
        index_in_range(select_after(sel, deltas, len), len),
    decreases deltas.len(),
{
    if deltas.len() > 0 {
        lemma_selection_in_range(clamp_move(sel, deltas[0] as int, len), deltas.drop_first(), len);
    }
}

/// The process table: the last snapshot sorted by the active key, the rows of
/// it on display after the filter, the selection, the sort key and the filter.
pub struct ProcessList {
    processes: Vec<Process>,
    snapshot: Vec<Process>,
    selected_index: usize,
    sort_field: SortField,
    filter: Option<String>,
}

impl ProcessList {
    /// The rows on display, in order.
    pub closed spec fn rows(&self) -> Seq<Process> {
        self.processes@
    }

    /// The last snapshot, sorted by the active key, before any filter.
    pub closed spec fn base(&self) -> Seq<Process> {
        self.snapshot@
    }

    /// The selection index.
    pub closed spec fn sel(&self) -> int {
        self.selected_index as int
    }

    /// The active sort key.
    pub closed spec fn key(&self) -> SortField {
        self.sort_field
    }

    /// The active filter text, if any.
    pub closed spec fn query(&self) -> Option<Seq<char>> {
        match self.filter {
            Some(q) => Some(q@),
            None => None,
        }
    }

    /// The selection refers to a row, or is 0 when there is none.
    pub open spec fn wf(&self) -> bool {
        index_in_range(self.sel(), self.rows().len() as int)
    }

    /// An empty table sorted by CPU use, without a filter.
    pub fn new() -> (r: Self)
        ensures
            r.wf(),
            r.rows() == Seq::<Process>::empty(),
            r.base() == Seq::<Process>::empty(),
            r.sel() == 0,
            r.key() == SortField::Cpu,
            r.query() == None::<Seq<char>>,
    {
        ProcessList {
            processes: Vec::new(),
            snapshot: Vec::new(),
            selected_index: 0,
            sort_field: SortField::Cpu,
            filter: None,
        }
    }

    /// Replaces the rows by a fresh snapshot, then sorts, filters and clamps.
    pub fn update(&mut self, snapshot: Vec<Process>)
        requires
            old(self).wf(),
        ensures
            final(self).wf(),
            final(self).base() == sort_spec(snapshot@, old(self).key()),
            final(self).rows() == filter_opt(final(self).base(), old(self).query()),
            final(self).sel() == clamp_index(old(self).sel(), final(self).rows().len() as int),
            final(self).key() == old(self).key(),
            final(self).query() == old(self).query(),
    {
        self.processes = snapshot;
        self.sort_processes();
        self.snapshot = copy_rows(&self.processes);
        self.apply_filter();
        self.clamp_selection();
    }

    fn sort_processes(&mut self)
        ensures
            final(self).base() == old(self).base(),
            final(self).rows() == sort_spec(old(self).rows(), old(self).key()),
            final(self).rows().len() == old(self).rows().len(),
            final(self).sel() == old(self).sel(),
            final(self).key() == old(self).key(),
            final(self).query() == old(self).query(),
    {
        proof {
            lemma_sort_spec_sorted(self.processes@, self.sort_field);
        }
        let mut v: Vec<Process> = Vec::new();
        std::mem::swap(&mut v, &mut self.processes);
        self.processes = sorted(v, self.sort_field);
    }

    fn apply_filter(&mut self)
        ensures
            final(self).base() == old(self).base(),
            final(self).rows() == filter_opt(old(self).rows(), old(self).query()),
            final(self).sel() == old(self).sel(),
            final(self).key() == old(self).key(),
            final(self).query() == old(self).query(),
    {
        match &self.filter {
            Some(q) => {
                let mut v: Vec<Process> = Vec::new();
                std::mem::swap(&mut v, &mut self.processes);
                self.processes = filtered(v, q.as_str());
            },
            None => {},
        }
    }

    fn clamp_selection(&mut self)
        ensures
            final(self).base() == old(self).base(),
            final(self).wf(),
            final(self).rows() == old(self).rows(),
            final(self).sel() == clamp_index(old(self).sel(), old(self).rows().len() as int),
            final(self).key() == old(self).key(),
            final(self).query() == old(self).query(),
    {
        if !self.processes.is_empty() {
            if self.selected_index > self.processes.len() - 1 {
                self.selected_index = self.processes.len() - 1;
            }
        } else {
            self.selected_index = 0;
        }
    }

    /// Sets the filter text and shows the rows of the last sorted snapshot
    /// that it keeps. An empty query keeps every row.
    pub fn filter(&mut self, query: &str)
        requires
            old(self).wf(),
        ensures
            final(self).wf(),
            final(self).query() == Some(query@),
            final(self).rows() == filter_spec(old(self).base(), query@),
            query@.len() == 0 ==> final(self).rows() == old(self).base(),
            final(self).sel() == clamp_index(old(self).sel(), final(self).rows().len() as int),
            final(self).key() == old(self).key(),
            final(self).base() == old(self).base(),
    {
        self.filter = Some(query.to_owned());
        self.processes = filtered(copy_rows(&self.snapshot), query);
        self.clamp_selection();
    }

    /// Sets the sort key and re-sorts the rows on display.
    pub fn set_sort_field(&mut self, field: SortField)
        requires
            old(self).wf(),
        ensures
            final(self).wf(),
            final(self).key() == field,
            final(self).rows() == sort_spec(old(self).rows(), field),
            final(self).base() == sort_spec(old(self).base(), field),
            final(self).sel() == old(self).sel(),
            final(self).query() == old(self).query(),
    {
        self.sort_field = field;
        self.sort_processes();
        let mut v: Vec<Process> = Vec::new();
        std::mem::swap(&mut v, &mut self.snapshot);
        self.snapshot = sorted(v, field);
    }

    /// Moves the selection by `delta` rows, stopping at the first and last row.
    pub fn move_selection(&mut self, delta: i32)
        requires
            old(self).wf(),
        ensures
            final(self).base() == old(self).base(),
            final(self).wf(),
            final(self).sel() == clamp_move(old(self).sel(), delta as int, old(self).rows().len() as int),
            final(self).rows() == old(self).rows(),
            final(self).key() == old(self).key(),
            final(self).query() == old(self).query(),
    {
        let len = self.processes.len();
        if len == 0 {
            self.selected_index = 0;
            return;
        }
        let last = len - 1;
        if delta < 0 {
            let d = (0i64 - delta as i64) as usize;
            if d >= self.selected_index {
                self.selected_index = 0;
            } else {
                self.selected_index = self.selected_index - d;
            }
        } else {
            let d = delta as usize;
            let room = last - self.selected_index;
            if d >= room {
                self.selected_index = last;
            } else {
                self.selected_index = self.selected_index + d;
            }
        }
    }

    /// Selects the first row.
    pub fn move_to_start(&mut self)
        requires
            old(self).wf(),
        ensures
            final(self).base() == old(self).base(),
            final(self).wf(),
            final(self).sel() == 0,
            final(self).rows() == old(self).rows(),
            final(self).key() == old(self).key(),
            final(self).query() == old(self).query(),
    {
        self.selected_index = 0;
    }

    /// Selects the last row, or 0 when there is none.
    pub fn move_to_end(&mut self)
        requires
            old(self).wf(),
        ensures
            final(self).base() == old(self).base(),
            final(self).wf(),
            final(self).sel() == (if old(self).rows().len() == 0 { 0 } else { old(self).rows().len() - 1 }),
            final(self).rows() == old(self).rows(),
            final(self).key() == old(self).key(),
            final(self).query() == old(self).query(),
    {
        if self.processes.is_empty() {
            self.selected_index = 0;
        } else {
            self.selected_index = self.processes.len() - 1;
        }
    }

    /// The identifier of the selected row, if the table has rows.
    pub fn selected_pid(&self) -> (r: Option<u32>)
        requires
            self.wf(),
        ensures
            r == (if self.rows().len() == 0 { None } else { Some(self.rows()[self.sel()].pid) }),
    {
        if self.selected_index < self.processes.len() {
            Some(self.processes[self.selected_index].pid)
        } else {
            None
        }
    }

    /// The rows on display, in order.
    pub fn processes(&self) -> (r: &[Process])
        ensures
            r@ == self.rows(),
    {
        self.processes.as_slice()
    }

    /// The selection index.
    pub fn selected_index(&self) -> (r: usize)
        ensures
            r as int == self.sel(),
    {
        self.selected_index
    }

    /// The active sort key.
    pub fn sort_field(&self) -> (r: SortField)
        ensures
            r == self.key(),
    {
        self.sort_field
    }
}

} // verus!
