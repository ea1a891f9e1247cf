//! Processor readings: per-CPU time counters from `/proc/stat`, frequencies
//! and static facts from `/proc/cpuinfo`.
use crate::assoc::{assoc_lookup, assoc_position, assoc_set, lemma_assoc_lookup};
use crate::text::{
    char_views, chars_eq, chars_of, float_token, float_token_of, has_prefix, lines, lines_of,
    opt_str, parse_u64, parse_u64_spec, push_str, replace_all, replace_chars, slice_copy, split_char,
    split_on, starts_with, string_of, string_views, strip_prefix, trim, trim_chars, words, words_of,
};
use vstd::prelude::*;
use vstd::wrapping::u64_specs::wrapping_add;

verus! {

broadcast use vstd::string::group_string_axioms;

// ---------------------------------------------------------------------------
// Previous totals
// ---------------------------------------------------------------------------

/// The time totals last seen per CPU line of `/proc/stat`.
pub struct CpuTotals {
    entries: Vec<(String, u64)>,
}

impl CpuTotals {
    /// The recorded total of a CPU.
    pub closed spec fn lookup(&self, name: Seq<char>) -> Option<u64> {
        assoc_lookup(self.entries@, name)
    }

    /// The number of entries held.
    pub closed spec fn spec_len(&self) -> nat {
        self.entries@.len()
    }

    /// No totals recorded.
    pub fn new() -> (r: Self)
        ensures
            forall|n: Seq<char>| r.lookup(n) is None,
            r.spec_len() == 0,
    {
        CpuTotals { entries: Vec::new() }
    }

    /// Whether no total is recorded.
    pub fn is_empty(&self) -> (r: bool)
        ensures
            r == (self.spec_len() == 0),
            r ==> forall|n: Seq<char>| self.lookup(n) is None,
    {
        self.entries.len() == 0
    }

    /// The number of CPUs with a recorded total.
    pub fn len(&self) -> (r: usize)
        ensures
            r == self.spec_len(),
    {
        self.entries.len()
    }

    /// The recorded total of a CPU.
    pub fn get(&self, name: &[char]) -> (r: Option<u64>)
        ensures
            r == self.lookup(name@),
    {
        let p = assoc_position(&self.entries, name);
        proof {
            lemma_assoc_lookup(self.entries@, name@, p);
        }
        match p {
            Some(k) => Some(self.entries[k].1),
            None => None,
        }
    }

    /// Records the total of a CPU.
    pub fn insert(&mut self, name: &[char], total: u64)
        ensures
            final(self).lookup(name@) == Some(total),
            forall|n: Seq<char>| n != name@ ==> final(self).lookup(n) == old(self).lookup(n),
            final(self).spec_len() == old(self).spec_len() + (if old(self).lookup(name@) is Some {
                0int
            } else {
                1int
            }),
    {
        assoc_set(&mut self.entries, name, total);
    }
}

// ---------------------------------------------------------------------------
// /proc/stat
// ---------------------------------------------------------------------------

/// The numbers among a sequence of words, in order (the words that parse as
/// `u64`).
pub open spec fn numbers_of(ws: Seq<Seq<char>>) -> Seq<u64>
    decreases ws.len(),
{
    if ws.len() == 0 {
        seq![]
    } else {
        match parse_u64_spec(ws.last()) {
            Some(v) => numbers_of(ws.drop_last()).push(v),
            None => numbers_of(ws.drop_last()),
        }
    }
}

/// The user, nice and system times of a CPU line: a line starting with
/// `cpu` with at least five words, whose words after the first include at
/// least three numbers; the times are the first three of them.
pub open spec fn cpu_line(line: Seq<char>) -> Option<(Seq<char>, u64, u64, u64)> {
    let w = words(line);
    if has_prefix(line, "cpu"@) && w.len() >= 5 {
        let v = numbers_of(w.skip(1));
        if v.len() >= 3 {
            Some((w[0], v[0], v[1], v[2]))
        } else {
            None
        }
    } else {
        None
    }
}

/// The times of one CPU.
pub struct CpuStat {
    pub name: Seq<char>,
    pub user: u64,
    pub nice: u64,
    pub system: u64,
}

/// The index of the last stat for `name`, or -1.
pub open spec fn stat_index(s: Seq<CpuStat>, name: Seq<char>) -> int
    decreases s.len(),
{
    if s.len() == 0 {
        -1
    } else if s.last().name == name {
        s.len() - 1
    } else {
        stat_index(s.drop_last(), name)
    }
}

/// The CPU times of a sequence of lines: one entry per CPU name in the order
/// first seen, holding the times of the CPU's last line.
pub open spec fn cpu_stats(ls: Seq<Seq<char>>) -> Seq<CpuStat>
    decreases ls.len(),
{
    if ls.len() == 0 {
        seq![]
    } else {
        let s = cpu_stats(ls.drop_last());
        match cpu_line(ls.last()) {
            None => s,
            Some((name, u, n, y)) => {
                let e = CpuStat { name, user: u, nice: n, system: y };
                let i = stat_index(s, name);
                if i >= 0 {
                    s.update(i, e)
                } else {
                    s.push(e)
                }
            },
        }
    }
}

/// The total busy time of a CPU: user, nice and system times, added with
/// wrap-around.
pub open spec fn busy_total(s: CpuStat) -> u64 {
    wrapping_add(wrapping_add(s.user, s.nice), s.system)
}

/// One CPU's sample of `/proc/stat`.
pub struct CpuSample {
    /// The CPU's name, like `cpu` or `cpu3`.
    pub name: String,
    /// Whether this is the aggregate line of all CPUs (named `cpu`).
    pub aggregate: bool,
    /// The core number: the name after `cpu`.
    pub core: String,
    /// The busy time total.
    pub total: u64,
    /// The previous total of this CPU, when there was one and it was not zero.
    pub previous: Option<u64>,
}

/// The samples of `/proc/stat` and the number of cores (CPU lines other
/// than the aggregate one).
pub struct ProcStat {
    pub samples: Vec<CpuSample>,
    pub cores: usize,
}

/// The previous total of a CPU that a rate is computed against: the recorded
/// one when it is not zero.
pub open spec fn usable_previous(p: Option<u64>) -> Option<u64> {
    match p {
        Some(v) => if v > 0 {
            Some(v)
        } else {
            None
        },
        None => None,
    }
}

/// The number of a core: the CPU name after `cpu` (`0` when it does not
/// start with `cpu`).
pub open spec fn core_number(name: Seq<char>) -> Seq<char> {
    if has_prefix(name, "cpu"@) {
        name.skip(3)
    } else {
        "0"@
    }
}

/// The core number of a CPU line named `cpu<n>` is all of `<n>`: `cpu`
/// followed by the core number gives the name back, so different CPU names
/// have different core numbers (`cpu1` and `cpu11` are cores `1` and `11`).
pub proof fn lemma_core_number_rest(name: Seq<char>, other: Seq<char>)
    ensures
        name.len() >= 3 && name.take(3) == "cpu"@ ==> "cpu"@ + core_number(name) == name,
        name.len() >= 3 && name.take(3) == "cpu"@ && other.len() >= 3 && other.take(3) == "cpu"@
            && name != other ==> core_number(name) != core_number(other),
{
    reveal_strlit("cpu");
    if name.len() >= 3 && name.take(3) == "cpu"@ {
        assert(name.take(3) + name.skip(3) =~= name);
    }
    if other.len() >= 3 && other.take(3) == "cpu"@ {
        assert(other.take(3) + other.skip(3) =~= other);
    }
}

/// The key of a core's usage reading: `_processor_core<n>_`.
pub fn core_key(core: &str) -> (r: String)
    ensures
        r@ == "_processor_core"@ + core@ + "_"@,
{
    let mut v = chars_of("_processor_core");
    push_str(&mut v, core);
    push_str(&mut v, "_");
    string_of(v.as_slice())
}

/// The label of a core's usage reading: `Core <n>`.
pub fn core_label(core: &str) -> (r: String)
    ensures
        r@ == "Core "@ + core@,
{
    let mut v = chars_of("Core ");
    push_str(&mut v, core);
    string_of(v.as_slice())
}

/// Whether a sample is what the stats and previous totals give.
pub open spec fn sample_matches(s: CpuSample, st: CpuStat, prev: Option<u64>) -> bool {
    &&& s.name@ == st.name
    &&& s.aggregate == (st.name == "cpu"@)
    &&& s.core@ == core_number(st.name)
    &&& s.total == busy_total(st)
    &&& s.previous == usable_previous(prev)
}

/// The numbers among words.
fn numbers_of_exec(ws: &[Vec<char>]) -> (r: Vec<u64>)
    ensures
        r@ == numbers_of(char_views(ws@)),
{
    let ghost all = char_views(ws@);
    let mut r: Vec<u64> = Vec::new();
    let mut i: usize = 0;
    proof {
        assert(all.take(0) =~= Seq::<Seq<char>>::empty());
    }
    while i < ws.len()
        invariant
            i <= ws@.len(),
            all == char_views(ws@),
            r@ == numbers_of(all.take(i as int)),
        decreases ws@.len() - i,
    {
        proof {
            assert(all.take(i + 1).drop_last() == all.take(i as int));
            assert(all.take(i + 1).last() == ws@[i as int]@);
        }
        if let Some(v) = parse_u64(ws[i].as_slice()) {
            r.push(v);
        }
        i = i + 1;
    }
    proof {
        assert(all.take(all.len() as int) == all);
    }
    r
}

/// The times of a CPU line.
fn cpu_line_exec(line: &[char]) -> (r: Option<(Vec<char>, u64, u64, u64)>)
    ensures
        match (r, cpu_line(line@)) {
            (Some((n, u, ni, s)), Some((n2, u2, ni2, s2))) => n@ == n2 && u == u2 && ni == ni2
                && s == s2,
            (None, None) => true,
            _ => false,
        },
{
    let cpu = chars_of("cpu");
    if !starts_with(line, cpu.as_slice()) {
        return None;
    }
    let parts = words_of(line);
    if parts.len() < 5 {
        return None;
    }
    let rest = slice_vec(&parts, 1);
    let v = numbers_of_exec(rest.as_slice());
    proof {
        assert(char_views(rest@) =~= char_views(parts@).skip(1));
        assert(char_views(parts@)[0] == parts@[0]@);
    }
    if v.len() < 3 {
        return None;
    }
    let name = slice_copy(parts[0].as_slice(), 0, parts[0].len());
    proof {
        assert(parts@[0]@.subrange(0, parts@[0]@.len() as int) == parts@[0]@);
    }
    Some((name, v[0], v[1], v[2]))
}

/// Copies of the character vectors of `v` from index `from` on.
fn slice_vec(v: &Vec<Vec<char>>, from: usize) -> (r: Vec<Vec<char>>)
    requires
        from <= v@.len(),
    ensures
        char_views(r@) == char_views(v@).skip(from as int),
{
    let mut r: Vec<Vec<char>> = Vec::new();
    let mut i = from;
    proof {
        assert(char_views(r@) =~= char_views(v@).subrange(from as int, from as int));
    }
    while i < v.len()
        invariant
            from <= i <= v@.len(),
            char_views(r@) == char_views(v@).subrange(from as int, i as int),
        decreases v@.len() - i,
    {
        let c = slice_copy(v[i].as_slice(), 0, v[i].len());
        let ghost before = char_views(r@);
        r.push(c);
        proof {
            assert(v@[i as int]@.subrange(0, v@[i as int]@.len() as int) == v@[i as int]@);
            assert(char_views(r@) =~= before.push(v@[i as int]@));
            assert(char_views(v@).subrange(from as int, i + 1) =~= char_views(v@).subrange(
                from as int,
                i as int,
            ).push(v@[i as int]@));
        }
        i = i + 1;
    }
    r
}

/// An exec copy of one CPU's times.
struct StatEntry {
    name: Vec<char>,
    user: u64,
    nice: u64,
    system: u64,
}

impl StatEntry {
    spec fn view(&self) -> CpuStat {
        CpuStat { name: self.name@, user: self.user, nice: self.nice, system: self.system }
    }
}

/// The processor provider's state: the CPU totals of the previous query,
/// the core frequencies read from cpufreq, where frequencies come from, and
/// whether the static facts are reported and were already.
pub struct ProcessorProvider {
    last_core_totals: CpuTotals,
    last_speeds: Vec<String>,
    uses_cpu_info: bool,
    include_static_info: bool,
    static_returned: bool,
}

impl ProcessorProvider {
    /// The totals of the previous query.
    pub closed spec fn totals(&self) -> CpuTotals {
        self.last_core_totals
    }

    /// The cpufreq frequencies of the last query, in kHz.
    pub closed spec fn speeds_spec(&self) -> Seq<Seq<char>> {
        string_views(self.last_speeds@)
    }

    /// Whether frequencies come from `/proc/cpuinfo` (no cpufreq).
    pub closed spec fn uses_cpu_info_spec(&self) -> bool {
        self.uses_cpu_info
    }

    /// Whether the static facts are still to be reported.
    pub closed spec fn static_pending(&self) -> bool {
        self.include_static_info && !self.static_returned
    }

    /// A provider that has seen no query, reading frequencies from
    /// `/proc/cpuinfo` until cpufreq is found.
    pub fn new(include_static_info: bool) -> (r: Self)
        ensures
            r.totals().spec_len() == 0,
            forall|n: Seq<char>| r.totals().lookup(n) is None,
            r.speeds_spec() == Seq::<Seq<char>>::empty(),
            r.uses_cpu_info_spec(),
            r.static_pending() == include_static_info,
    {
        let r = ProcessorProvider {
            last_core_totals: CpuTotals::new(),
            last_speeds: Vec::new(),
            uses_cpu_info: true,
            include_static_info,
            static_returned: false,
        };
        proof {
            assert(string_views(r.last_speeds@) =~= Seq::<Seq<char>>::empty());
        }
        r
    }

    /// The number of cores among the CPUs with a recorded total (all but the
    /// aggregate line).
    pub fn known_cores(&self) -> (r: usize)
        ensures
            r == if self.totals().spec_len() > 0 {
                self.totals().spec_len() - 1
            } else {
                0
            },
    {
        let n = self.last_core_totals.len();
        if n > 0 {
            n - 1
        } else {
            0
        }
    }

    /// Frequencies come from cpufreq from now on.
    pub fn use_cpufreq(&mut self)
        ensures
            !final(self).uses_cpu_info_spec(),
            final(self).totals() == old(self).totals(),
            final(self).speeds_spec() == old(self).speeds_spec(),
            final(self).static_pending() == old(self).static_pending(),
    {
        self.uses_cpu_info = false;
    }

    /// Whether frequencies come from `/proc/cpuinfo`.
    pub fn uses_cpu_info(&self) -> (r: bool)
        ensures
            r == self.uses_cpu_info_spec(),
    {
        self.uses_cpu_info
    }

    /// Takes a `/proc/stat` reading against the totals of the previous query
    /// (see `parse_proc_stat`).
    pub fn sample_stats(&mut self, contents: &str) -> (r: ProcStat)
        ensures
            ({
                let st = cpu_stats(lines(contents@));
                &&& r.samples@.len() == st.len()
                &&& forall|i: int|
                    0 <= i < st.len() ==> sample_matches(
                        #[trigger] r.samples@[i],
                        st[i],
                        old(self).totals().lookup(st[i].name),
                    )
                &&& r.cores == (if st.len() > 0 {
                    st.len() - 1
                } else {
                    0
                })
                &&& forall|n: Seq<char>|
                    final(self).totals().lookup(n) == if stat_index(st, n) >= 0 {
                        Some(busy_total(st[stat_index(st, n)]))
                    } else {
                        old(self).totals().lookup(n)
                    }
            }),
            final(self).speeds_spec() == old(self).speeds_spec(),
            final(self).uses_cpu_info_spec() == old(self).uses_cpu_info_spec(),
            final(self).static_pending() == old(self).static_pending(),
    {
        ProcessorProvider::parse_proc_stat(contents, &mut self.last_core_totals)
    }

    /// Forgets the cpufreq frequencies, before a query reads them again.
    pub fn clear_speeds(&mut self)
        ensures
            final(self).speeds_spec() == Seq::<Seq<char>>::empty(),
            final(self).totals() == old(self).totals(),
            final(self).uses_cpu_info_spec() == old(self).uses_cpu_info_spec(),
            final(self).static_pending() == old(self).static_pending(),
    {
        self.last_speeds = Vec::new();
        proof {
            assert(string_views(self.last_speeds@) =~= Seq::<Seq<char>>::empty());
        }
    }

    /// Records a core's cpufreq file contents: kept, trimmed, when it is a
    /// number.
    pub fn record_speed(&mut self, contents: &str)
        ensures
            final(self).speeds_spec() == match float_token(trim(contents@)) {
                Some(t) => old(self).speeds_spec().push(t),
                None => old(self).speeds_spec(),
            },
            final(self).totals() == old(self).totals(),
            final(self).uses_cpu_info_spec() == old(self).uses_cpu_info_spec(),
            final(self).static_pending() == old(self).static_pending(),
    {
        let c = chars_of(contents);
        let t = trim_chars(c.as_slice());
        match float_token_of(t.as_slice()) {
            Some(tok) => {
                let ghost before = self.last_speeds@;
                self.last_speeds.push(tok);
                proof {
                    assert(string_views(self.last_speeds@) =~= string_views(before).push(tok@));
                }
            },
            None => {},
        }
    }

    /// The cpufreq frequencies of the last query, in kHz.
    pub fn speeds(&self) -> (r: &Vec<String>)
        ensures
            string_views(r@) == self.speeds_spec(),
    {
        &self.last_speeds
    }

    /// Whether the static facts are to be reported now; they are reported
    /// once.
    pub fn take_static_due(&mut self) -> (due: bool)
        ensures
            due == old(self).static_pending(),
            !final(self).static_pending(),
            final(self).totals() == old(self).totals(),
            final(self).speeds_spec() == old(self).speeds_spec(),
            final(self).uses_cpu_info_spec() == old(self).uses_cpu_info_spec(),
    {
        if self.include_static_info && !self.static_returned {
            self.static_returned = true;
            true
        } else {
            false
        }
    }
}

impl ProcessorProvider {
    /// Parses `/proc/stat`: the CPU samples, each against the previous total of
    /// its CPU, and the number of cores. The totals of all CPUs seen replace the
    /// previous ones.
    pub fn parse_proc_stat(contents: &str, last_totals: &mut CpuTotals) -> (r: ProcStat)
        ensures
            ({
                let st = cpu_stats(lines(contents@));
                &&& r.samples@.len() == st.len()
                &&& forall|i: int|
                    0 <= i < st.len() ==> sample_matches(
                        #[trigger] r.samples@[i],
                        st[i],
                        old(last_totals).lookup(st[i].name),
                    )
                &&& r.cores == (if st.len() > 0 {
                    st.len() - 1
                } else {
                    0
                })
                &&& forall|n: Seq<char>|
                    final(last_totals).lookup(n) == if stat_index(st, n) >= 0 {
                        Some(busy_total(st[stat_index(st, n)]))
                    } else {
                        old(last_totals).lookup(n)
                    }
            }),
    {
        let c = chars_of(contents);
        let ls = lines_of(c.as_slice());
        let ghost all = char_views(ls@);
        let mut stats: Vec<StatEntry> = Vec::new();
        let mut i: usize = 0;
        proof {
            assert(all.take(0) =~= Seq::<Seq<char>>::empty());
            assert(stats@.map_values(|e: StatEntry| e.view()) =~= Seq::<CpuStat>::empty());
        }
        while i < ls.len()
            invariant
                i <= ls@.len(),
                all == char_views(ls@),
                all == lines(contents@),
                stats@.map_values(|e: StatEntry| e.view()) == cpu_stats(all.take(i as int)),
            decreases ls@.len() - i,
        {
            proof {
                assert(all.take(i + 1).drop_last() == all.take(i as int));
                assert(all.take(i + 1).last() == ls@[i as int]@);
            }
            let ghost before = stats@.map_values(|e: StatEntry| e.view());
            match cpu_line_exec(ls[i].as_slice()) {
                None => {},
                Some((name, u, n, y)) => {
                    let mut found: Option<usize> = None;
                    let mut j: usize = 0;
                    while j < stats.len()
                        invariant
                            j <= stats@.len(),
                            before == stats@.map_values(|e: StatEntry| e.view()),
                            match found {
                                Some(k) => k < j && stat_index(before.take(j as int), name@) == k,
                                None => stat_index(before.take(j as int), name@) == -1,
                            },
                        decreases stats@.len() - j,
                    {
                        proof {
                            assert(before.take(j + 1).drop_last() == before.take(j as int));
                            assert(before.take(j + 1).last() == stats@[j as int].view());
                        }
                        if chars_eq(stats[j].name.as_slice(), name.as_slice()) {
                            found = Some(j);
                        }
                        j = j + 1;
                    }
                    proof {
                        assert(before.take(stats@.len() as int) == before);
                    }
                    let e = StatEntry { name, user: u, nice: n, system: y };
                    match found {
                        Some(k) => {
                            stats.set(k, e);
                            proof {
                                assert(stats@.map_values(|e: StatEntry| e.view()) =~= before.update(
                                    k as int,
                                    e.view(),
                                ));
                            }
                        },
                        None => {
                            stats.push(e);
                            proof {
                                assert(stats@.map_values(|e: StatEntry| e.view()) =~= before.push(
                                    e.view(),
                                ));
                            }
                        },
                    }
                },
            }
            i = i + 1;
        }
        proof {
            assert(all.take(all.len() as int) == all);
        }
        let ghost st = cpu_stats(all);
        let ghost old_totals = *last_totals;
        proof {
            lemma_stat_names_distinct(all);
        }
        let cores = if stats.len() > 0 {
            stats.len() - 1
        } else {
            0
        };
        let mut samples: Vec<CpuSample> = Vec::new();
        let cpu = chars_of("cpu");
        let mut k: usize = 0;
        while k < stats.len()
            invariant
                k <= stats@.len(),
                st == stats@.map_values(|e: StatEntry| e.view()),
                cpu@ == "cpu"@,
                forall|a: int, b: int| 0 <= a < b < st.len() ==> st[a].name != st[b].name,
                samples@.len() == k,
                forall|i: int|
                    0 <= i < k ==> sample_matches(
                        #[trigger] samples@[i],
                        st[i],
                        old_totals.lookup(st[i].name),
                    ),
                forall|n: Seq<char>|
                    last_totals.lookup(n) == if stat_index(st.take(k as int), n) >= 0 {
                        Some(busy_total(st[stat_index(st.take(k as int), n)]))
                    } else {
                        old_totals.lookup(n)
                    },
                forall|i: int| k <= i < st.len() ==> last_totals.lookup(st[i].name) == old_totals.lookup(st[i].name),
            decreases stats@.len() - k,
        {
            let e = &stats[k];
            proof {
                assert(st[k as int] == e.view());
            }
            let total = e.user.wrapping_add(e.nice).wrapping_add(e.system);
            let prev = last_totals.get(e.name.as_slice());
            let previous = match prev {
                Some(p) => if p > 0 {
                    Some(p)
                } else {
                    None
                },
                None => None,
            };
            let aggregate = chars_eq(e.name.as_slice(), cpu.as_slice());
            let core = match strip_prefix(e.name.as_slice(), cpu.as_slice()) {
                Some(rest) => string_of(rest.as_slice()),
                None => "0".to_string(),
            };
            proof {
                reveal_strlit("cpu");
                reveal_strlit("0");
            }
            let sample = CpuSample {
                name: string_of(e.name.as_slice()),
                aggregate,
                core,
                total,
                previous,
            };
            proof {
                assert(sample_matches(sample, st[k as int], old_totals.lookup(st[k as int].name)));
            }
            let ghost before_samples = samples@;
            samples.push(sample);
            proof {
                assert forall|i: int| 0 <= i < k + 1 implies sample_matches(
                    #[trigger] samples@[i],
                    st[i],
                    old_totals.lookup(st[i].name),
                ) by {
                    if i < k {
                        assert(samples@[i] == before_samples[i]);
                    }
                }
            }
            let ghost before_totals = *last_totals;
            last_totals.insert(e.name.as_slice(), total);
            proof {
                lemma_stat_index_take(st, k as int);
                assert forall|i: int| k + 1 <= i < st.len() implies last_totals.lookup(st[i].name)
                    == old_totals.lookup(st[i].name) by {
                    assert(st[i].name != st[k as int].name);
                }
            }
            k = k + 1;
        }
        proof {
            assert(st.take(st.len() as int) == st);
        }
        ProcStat { samples, cores }
    }
}

/// The names of the CPU stats are distinct.
proof fn lemma_stat_names_distinct(ls: Seq<Seq<char>>)
    ensures
        forall|a: int, b: int|
            0 <= a < b < cpu_stats(ls).len() ==> cpu_stats(ls)[a].name != cpu_stats(ls)[b].name,
    decreases ls.len(),
{
    if ls.len() > 0 {
        lemma_stat_names_distinct(ls.drop_last());
        let s = cpu_stats(ls.drop_last());
        match cpu_line(ls.last()) {
            None => {},
            Some((name, u, n, y)) => {
                lemma_stat_index_spec(s, name);
            },
        }
    }
}

proof fn lemma_stat_index_spec(s: Seq<CpuStat>, name: Seq<char>)
    ensures
        -1 <= stat_index(s, name) < s.len(),
        stat_index(s, name) >= 0 ==> s[stat_index(s, name)].name == name,
        stat_index(s, name) == -1 ==> forall|j: int| 0 <= j < s.len() ==> s[j].name != name,
        stat_index(s, name) >= 0 ==> forall|j: int|
            stat_index(s, name) < j < s.len() ==> s[j].name != name,
    decreases s.len(),
{
    if s.len() > 0 {
        lemma_stat_index_spec(s.drop_last(), name);
        assert forall|j: int| 0 <= j < s.len() - 1 implies s[j] == s.drop_last()[j] by {}
    }
}

proof fn lemma_stat_index_take(st: Seq<CpuStat>, k: int)
    requires
        0 <= k < st.len(),
        forall|a: int, b: int| 0 <= a < b < st.len() ==> st[a].name != st[b].name,
    ensures
        stat_index(st.take(k + 1), st[k].name) == k,
        forall|n: Seq<char>|
            n != st[k].name ==> stat_index(st.take(k + 1), n) == stat_index(st.take(k), n),
        stat_index(st.take(k), st[k].name) == -1,
{
    assert(st.take(k + 1).drop_last() == st.take(k));
    lemma_stat_index_spec(st.take(k), st[k].name);
    assert forall|j: int| 0 <= j < k implies st.take(k)[j].name != st[k].name by {
        assert(st.take(k)[j] == st[j]);
    }
    if stat_index(st.take(k), st[k].name) >= 0 {
        let j = stat_index(st.take(k), st[k].name);
        assert(st.take(k)[j] == st[j]);
    }
}

// ---------------------------------------------------------------------------
// /proc/cpuinfo
// ---------------------------------------------------------------------------

/// The value of a `key : value` line starting with `key`: the second
/// `:`-separated piece of what follows the key, when there is one.
pub open spec fn cpuinfo_value(line: Seq<char>, key: Seq<char>) -> Option<Seq<char>> {
    if has_prefix(line, key) {
        let p = split_on(line.skip(key.len() as int), ':');
        if p.len() >= 2 {
            Some(p[1])
        } else {
            None
        }
    } else {
        None
    }
}

/// The value of a `key : value` line.
fn cpuinfo_value_exec(line: &[char], key: &str) -> (r: Option<Vec<char>>)
    ensures
        match (r, cpuinfo_value(line@, key@)) {
            (Some(v), Some(w)) => v@ == w,
            (None, None) => true,
            _ => false,
        },
{
    let k = chars_of(key);
    match strip_prefix(line, k.as_slice()) {
        None => None,
        Some(rest) => {
            let p = split_char(rest.as_slice(), ':');
            if p.len() >= 2 {
                proof {
                    assert(char_views(p@)[1] == p@[1]@);
                }
                Some(slice_copy(p[1].as_slice(), 0, p[1].len()))
            } else {
                None
            }
        },
    }
}

/// The MHz values of `cpu MHz` lines, in order, trimmed, when they are
/// numbers.
pub open spec fn mhz_values(ls: Seq<Seq<char>>) -> Seq<Seq<char>>
    decreases ls.len(),
{
    if ls.len() == 0 {
        seq![]
    } else {
        match cpuinfo_value(ls.last(), "cpu MHz"@) {
            Some(v) => match float_token(trim(v)) {
                Some(t) => mhz_values(ls.drop_last()).push(t),
                None => mhz_values(ls.drop_last()),
            },
            None => mhz_values(ls.drop_last()),
        }
    }
}

impl ProcessorProvider {
    /// The `cpu MHz` values of `/proc/cpuinfo`, in MHz, one per CPU.
    pub fn parse_cpuinfo_frequencies(contents: &str) -> (r: Vec<String>)
        ensures
            string_views(r@) == mhz_values(lines(contents@)),
    {
        let c = chars_of(contents);
        let ls = lines_of(c.as_slice());
        let ghost all = char_views(ls@);
        let mut r: Vec<String> = Vec::new();
        let mut i: usize = 0;
        proof {
            assert(all.take(0) =~= Seq::<Seq<char>>::empty());
            assert(string_views(r@) =~= Seq::<Seq<char>>::empty());
        }
        while i < ls.len()
            invariant
                i <= ls@.len(),
                all == char_views(ls@),
                all == lines(contents@),
                string_views(r@) == mhz_values(all.take(i as int)),
            decreases ls@.len() - i,
        {
            proof {
                assert(all.take(i + 1).drop_last() == all.take(i as int));
                assert(all.take(i + 1).last() == ls@[i as int]@);
            }
            if let Some(v) = cpuinfo_value_exec(ls[i].as_slice(), "cpu MHz") {
                let t = trim_chars(v.as_slice());
                if let Some(tok) = float_token_of(t.as_slice()) {
                    let ghost before = string_views(r@);
                    r.push(tok);
                    proof {
                        assert(string_views(r@) =~= before.push(trim(v@)));
                    }
                }
            }
            i = i + 1;
        }
        proof {
            assert(all.take(all.len() as int) == all);
        }
        r
    }
}

/// Static processor facts of `/proc/cpuinfo`.
pub struct CpuStatic {
    /// The last `vendor_id` value (empty when there is none).
    pub vendor_id: String,
    /// The last `bogomips` value (empty when there is none).
    pub bogomips: String,
    /// The distinct `physical id` values, in the order first seen.
    pub sockets: Vec<String>,
    /// The last `cache size` value that is a number once ` KB` is removed.
    pub cache: Option<String>,
}

/// The plain-value content of the static facts.
pub struct CpuStaticView {
    pub vendor_id: Seq<char>,
    pub bogomips: Seq<char>,
    pub sockets: Seq<Seq<char>>,
    pub cache: Option<Seq<char>>,
}

impl CpuStatic {
    pub open spec fn view(&self) -> CpuStaticView {
        CpuStaticView {
            vendor_id: self.vendor_id@,
            bogomips: self.bogomips@,
            sockets: string_views(self.sockets@),
            cache: opt_str(self.cache),
        }
    }
}

/// The facts after one more line: the first of the keys `vendor_id`,
/// `bogomips`, `physical id` and `cache size` the line starts with decides
/// what its value sets.
pub open spec fn static_step(f: CpuStaticView, line: Seq<char>) -> CpuStaticView {
    if has_prefix(line, "vendor_id"@) {
        match cpuinfo_value(line, "vendor_id"@) {
            Some(v) => CpuStaticView { vendor_id: trim(v), ..f },
            None => f,
        }
    } else if has_prefix(line, "bogomips"@) {
        match cpuinfo_value(line, "bogomips"@) {
            Some(v) => CpuStaticView { bogomips: trim(v), ..f },
            None => f,
        }
    } else if has_prefix(line, "physical id"@) {
        match cpuinfo_value(line, "physical id"@) {
            Some(v) => if f.sockets.contains(trim(v)) {
                f
            } else {
                CpuStaticView { sockets: f.sockets.push(trim(v)), ..f }
            },
            None => f,
        }
    } else if has_prefix(line, "cache size"@) {
        match cpuinfo_value(line, "cache size"@) {
            Some(v) => match float_token(replace_all(trim(v), " KB"@, ""@)) {
                Some(t) => CpuStaticView { cache: Some(t), ..f },
                None => f,
            },
            None => f,
        }
    } else {
        f
    }
}

/// The static facts of a sequence of lines.
pub open spec fn cpu_static(ls: Seq<Seq<char>>) -> CpuStaticView
    decreases ls.len(),
{
    if ls.len() == 0 {
        CpuStaticView { vendor_id: seq![], bogomips: seq![], sockets: seq![], cache: None }
    } else {
        static_step(cpu_static(ls.drop_last()), ls.last())
    }
}

/// Whether `v` holds `s`.
fn contains_string(v: &Vec<String>, s: &[char]) -> (r: bool)
    ensures
        r == string_views(v@).contains(s@),
{
    let mut i: usize = 0;
    while i < v.len()
        invariant
            i <= v@.len(),
            forall|j: int| 0 <= j < i ==> v@[j]@ != s@,
        decreases v@.len() - i,
    {
        let c = chars_of(v[i].as_str());
        if chars_eq(c.as_slice(), s) {
            proof {
                assert(string_views(v@)[i as int] == s@);
            }
            return true;
        }
        i = i + 1;
    }
    proof {
        if string_views(v@).contains(s@) {
            let j = choose|j: int|
                0 <= j < v@.len() && #[trigger] string_views(v@)[j] == s@;
            assert(v@[j]@ == s@);
        }
    }
    false
}

impl ProcessorProvider {
    /// The static processor facts of `/proc/cpuinfo`.
    pub fn parse_cpu_static(contents: &str) -> (r: CpuStatic)
        ensures
            r.view() == cpu_static(lines(contents@)),
    {
        let c = chars_of(contents);
        let ls = lines_of(c.as_slice());
        let ghost all = char_views(ls@);
        let mut f = CpuStatic {
            vendor_id: String::new(),
            bogomips: String::new(),
            sockets: Vec::new(),
            cache: None,
        };
        let kb = chars_of(" KB");
        let empty: Vec<char> = Vec::new();
        proof {
            reveal_strlit(" KB");
            assert(empty@ == ""@) by {
                reveal_strlit("");
            }
        }
        let mut i: usize = 0;
        proof {
            assert(all.take(0) =~= Seq::<Seq<char>>::empty());
            assert(f.view().sockets =~= Seq::<Seq<char>>::empty());
        }
        while i < ls.len()
            invariant
                i <= ls@.len(),
                all == char_views(ls@),
                all == lines(contents@),
                kb@ == " KB"@,
                kb@.len() > 0,
                empty@ == ""@,
                f.view() == cpu_static(all.take(i as int)),
            decreases ls@.len() - i,
        {
            proof {
                assert(all.take(i + 1).drop_last() == all.take(i as int));
                assert(all.take(i + 1).last() == ls@[i as int]@);
            }
            let line = ls[i].as_slice();
            let vid = chars_of("vendor_id");
            let bog = chars_of("bogomips");
            let phy = chars_of("physical id");
            let cac = chars_of("cache size");
            if starts_with(line, vid.as_slice()) {
                if let Some(v) = cpuinfo_value_exec(line, "vendor_id") {
                    let t = trim_chars(v.as_slice());
                    f.vendor_id = string_of(t.as_slice());
                }
            } else if starts_with(line, bog.as_slice()) {
                if let Some(v) = cpuinfo_value_exec(line, "bogomips") {
                    let t = trim_chars(v.as_slice());
                    f.bogomips = string_of(t.as_slice());
                }
            } else if starts_with(line, phy.as_slice()) {
                if let Some(v) = cpuinfo_value_exec(line, "physical id") {
                    let t = trim_chars(v.as_slice());
                    if !contains_string(&f.sockets, t.as_slice()) {
                        let ghost before = string_views(f.sockets@);
                        f.sockets.push(string_of(t.as_slice()));
                        proof {
                            assert(string_views(f.sockets@) =~= before.push(t@));
                        }
                    }
                }
            } else if starts_with(line, cac.as_slice()) {
                if let Some(v) = cpuinfo_value_exec(line, "cache size") {
                    let t = trim_chars(v.as_slice());
                    let stripped = replace_chars(t.as_slice(), kb.as_slice(), empty.as_slice());
                    if let Some(tok) = float_token_of(stripped.as_slice()) {
                        f.cache = Some(tok);
                    }
                }
            }
            i = i + 1;
        }
        proof {
            assert(all.take(all.len() as int) == all);
        }
        f
    }
}

} // verus!
