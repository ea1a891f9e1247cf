//! Memory usage, parsed from the text of `/proc/meminfo`.
use crate::text::{
    char_views, chars_of, float_token, float_token_of, has_prefix, lines, lines_of, opt_str,
    slice_copy, starts_with, word_at, words_of,
};
use vstd::prelude::*;

verus! {

/// Provider of memory readings.
pub struct MemoryProvider;

/// The values of `/proc/meminfo` the readings are computed from, each the
/// number of kibibytes of the last line that gives one.
pub struct MeminfoFields {
    pub total: Option<String>,
    pub avail: Option<String>,
    pub swap_total: Option<String>,
    pub swap_free: Option<String>,
    pub cached: Option<String>,
    pub mem_free: Option<String>,
}

/// The plain-value content of the parsed fields.
pub struct MeminfoView {
    pub total: Option<Seq<char>>,
    pub avail: Option<Seq<char>>,
    pub swap_total: Option<Seq<char>>,
    pub swap_free: Option<Seq<char>>,
    pub cached: Option<Seq<char>>,
    pub mem_free: Option<Seq<char>>,
}

impl MeminfoFields {
    pub open spec fn view(&self) -> MeminfoView {
        MeminfoView {
            total: opt_str(self.total),
            avail: opt_str(self.avail),
            swap_total: opt_str(self.swap_total),
            swap_free: opt_str(self.swap_free),
            cached: opt_str(self.cached),
            mem_free: opt_str(self.mem_free),
        }
    }
}

/// The number of a line like `MemTotal:  16384000 kB` when it starts with
/// `key`: the first word after the key, when it is a number.
pub open spec fn meminfo_value(line: Seq<char>, key: Seq<char>) -> Option<Seq<char>> {
    if has_prefix(line, key) {
        match word_at(line.skip(key.len() as int), 0) {
            Some(w) => float_token(w),
            None => None,
        }
    } else {
        None
    }
}

/// The fields after one more line: the first of the keys `MemTotal:`,
/// `MemAvailable:`, `SwapTotal:`, `SwapFree:`, `Cached:`, `MemFree:` that
/// gives a value sets its field.
pub open spec fn meminfo_step(f: MeminfoView, line: Seq<char>) -> MeminfoView {
    if meminfo_value(line, "MemTotal:"@) is Some {
        MeminfoView { total: meminfo_value(line, "MemTotal:"@), ..f }
    } else if meminfo_value(line, "MemAvailable:"@) is Some {
        MeminfoView { avail: meminfo_value(line, "MemAvailable:"@), ..f }
    } else if meminfo_value(line, "SwapTotal:"@) is Some {
        MeminfoView { swap_total: meminfo_value(line, "SwapTotal:"@), ..f }
    } else if meminfo_value(line, "SwapFree:"@) is Some {
        MeminfoView { swap_free: meminfo_value(line, "SwapFree:"@), ..f }
    } else if meminfo_value(line, "Cached:"@) is Some {
        MeminfoView { cached: meminfo_value(line, "Cached:"@), ..f }
    } else if meminfo_value(line, "MemFree:"@) is Some {
        MeminfoView { mem_free: meminfo_value(line, "MemFree:"@), ..f }
    } else {
        f
    }
}

/// The fields of a sequence of lines, read in order.
pub open spec fn meminfo_fields(ls: Seq<Seq<char>>) -> MeminfoView
    decreases ls.len(),
{
    if ls.len() == 0 {
        MeminfoView {
            total: None,
            avail: None,
            swap_total: None,
            swap_free: None,
            cached: None,
            mem_free: None,
        }
    } else {
        meminfo_step(meminfo_fields(ls.drop_last()), ls.last())
    }
}

/// The number of a meminfo line for `key`.
pub fn parse_meminfo_value(line: &[char], key: &str) -> (r: Option<String>)
    ensures
        opt_str(r) == meminfo_value(line@, key@),
{
    let k = chars_of(key);
    if !starts_with(line, k.as_slice()) {
        return None;
    }
    let rest = slice_copy(line, k.len(), line.len());
    let ws = words_of(rest.as_slice());
    if ws.len() == 0 {
        return None;
    }
    proof {
        assert(char_views(ws@)[0] == ws@[0]@);
    }
    float_token_of(ws[0].as_slice())
}

impl MemoryProvider {
    /// The memory provider.
    pub fn new() -> (r: Self) {
        MemoryProvider
    }

    /// The values of `/proc/meminfo`.
    pub fn parse_meminfo(contents: &str) -> (r: MeminfoFields)
        ensures
            r.view() == meminfo_fields(lines(contents@)),
    {
        let c = chars_of(contents);
        let ls = lines_of(c.as_slice());
        let mut f = MeminfoFields {
            total: None,
            avail: None,
            swap_total: None,
            swap_free: None,
            cached: None,
            mem_free: None,
        };
        let ghost all = char_views(ls@);
        let mut i: usize = 0;
        proof {
            assert(all.take(0) =~= Seq::<Seq<char>>::empty());
        }
        while i < ls.len()
            invariant
                i <= ls@.len(),
                all == char_views(ls@),
                all == lines(contents@),
                f.view() == meminfo_fields(all.take(i as int)),
            decreases ls@.len() - i,
        {
            let line = ls[i].as_slice();
            proof {
                assert(all.take(i + 1).drop_last() == all.take(i as int));
                assert(all.take(i + 1).last() == line@);
            }
            if let Some(v) = parse_meminfo_value(line, "MemTotal:") {
                f.total = Some(v);
            } else if let Some(v) = parse_meminfo_value(line, "MemAvailable:") {
                f.avail = Some(v);
            } else if let Some(v) = parse_meminfo_value(line, "SwapTotal:") {
                f.swap_total = Some(v);
            } else if let Some(v) = parse_meminfo_value(line, "SwapFree:") {
                f.swap_free = Some(v);
            } else if let Some(v) = parse_meminfo_value(line, "Cached:") {
                f.cached = Some(v);
            } else if let Some(v) = parse_meminfo_value(line, "MemFree:") {
                f.mem_free = Some(v);
            }
            i = i + 1;
        }
        proof {
            assert(all.take(all.len() as int) == all);
        }
        f
    }
}

} // verus!
