//! System information: open files, load averages, uptime and kernel version,
//! parsed from the text of `/proc/sys/fs/file-nr`, `/proc/loadavg`,
//! `/proc/uptime` and `/proc/version`.
use crate::text::{
    char_views, chars_of, float_token, float_token_of, opt_str, split_char, split_on, string_of,
    trim, trim_chars, word_at, words, words_of,
};
use vstd::prelude::*;

verus! {

/// Provider of system-wide readings.
pub struct SystemProvider {
    pub include_static_info: bool,
}

/// The fields of `/proc/loadavg` that the readings are made of.
pub struct LoadavgFields {
    /// The 1-minute load, when it is a number.
    pub load1: Option<String>,
    /// The 5-minute load, when it is a number.
    pub load5: Option<String>,
    /// The 15-minute load, when it is a number.
    pub load15: Option<String>,
    /// The active and total thread counts of the `active/total` field, when
    /// it has exactly one `/`.
    pub threads: Option<(String, String)>,
}

/// The threads field `active/total` split in two, when it has exactly one `/`.
pub open spec fn thread_counts(field: Seq<char>) -> Option<(Seq<char>, Seq<char>)> {
    let p = split_on(field, '/');
    if p.len() == 2 {
        Some((p[0], p[1]))
    } else {
        None
    }
}

/// The view of an optional pair of strings.
pub open spec fn opt_pair(o: Option<(String, String)>) -> Option<(Seq<char>, Seq<char>)> {
    match o {
        Some((a, b)) => Some((a@, b@)),
        None => None,
    }
}

impl SystemProvider {
    /// A provider that also reports the kernel version when asked to.
    pub fn new(include_static_info: bool) -> (r: Self)
        ensures
            r.include_static_info == include_static_info,
    {
        SystemProvider { include_static_info }
    }

    /// The open-file count of `/proc/sys/fs/file-nr`: its first tab-separated
    /// field, trimmed.
    pub fn parse_file_nr(contents: &str) -> (r: String)
        ensures
            r@ == trim(split_on(contents@, '\t')[0]),
    {
        let c = chars_of(contents);
        let pieces = split_char(c.as_slice(), '\t');
        proof {
            crate::text::lemma_split_on_len(contents@, '\t');
            assert(char_views(pieces@)[0] == pieces@[0]@);
        }
        let t = trim_chars(pieces[0].as_slice());
        string_of(t.as_slice())
    }

    /// The fields of `/proc/loadavg`, when it has at least four words.
    pub fn parse_loadavg(contents: &str) -> (r: Option<LoadavgFields>)
        ensures
            match r {
                None => words(contents@).len() < 4,
                Some(f) => {
                    let w = words(contents@);
                    &&& w.len() >= 4
                    &&& opt_str(f.load1) == float_token(w[0])
                    &&& opt_str(f.load5) == float_token(w[1])
                    &&& opt_str(f.load15) == float_token(w[2])
                    &&& opt_pair(f.threads) == thread_counts(w[3])
                },
            },
    {
        let c = chars_of(contents);
        let parts = words_of(c.as_slice());
        if parts.len() < 4 {
            return None;
        }
        proof {
            assert(char_views(parts@)[0] == parts@[0]@);
            assert(char_views(parts@)[1] == parts@[1]@);
            assert(char_views(parts@)[2] == parts@[2]@);
            assert(char_views(parts@)[3] == parts@[3]@);
        }
        let load1 = float_token_of(parts[0].as_slice());
        let load5 = float_token_of(parts[1].as_slice());
        let load15 = float_token_of(parts[2].as_slice());
        let procs = split_char(parts[3].as_slice(), '/');
        let threads = if procs.len() == 2 {
            proof {
                assert(char_views(procs@)[0] == procs@[0]@);
                assert(char_views(procs@)[1] == procs@[1]@);
            }
            Some((string_of(procs[0].as_slice()), string_of(procs[1].as_slice())))
        } else {
            None
        };
        Some(LoadavgFields { load1, load5, load15, threads })
    }

    /// The uptime field of `/proc/uptime`: its first word, when it is a
    /// number.
    pub fn parse_uptime(contents: &str) -> (r: Option<String>)
        ensures
            opt_str(r) == match word_at(contents@, 0) {
                Some(w) => float_token(w),
                None => None,
            },
    {
        let c = chars_of(contents);
        let parts = words_of(c.as_slice());
        if parts.len() == 0 {
            return None;
        }
        proof {
            assert(char_views(parts@)[0] == parts@[0]@);
        }
        float_token_of(parts[0].as_slice())
    }

    /// The kernel release of `/proc/version`: its third word.
    pub fn parse_version(contents: &str) -> (r: Option<String>)
        ensures
            opt_str(r) == word_at(contents@, 2),
    {
        let c = chars_of(contents);
        let parts = words_of(c.as_slice());
        if parts.len() < 3 {
            return None;
        }
        proof {
            assert(char_views(parts@)[2] == parts@[2]@);
        }
        Some(string_of(parts[2].as_slice()))
    }
}

} // verus!
