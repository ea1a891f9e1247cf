//! Storage readings: the device behind a mount point (`/proc/mounts`), ZFS
//! ARC statistics (`/proc/spl/kstat/zfs/arcstats`), disk I/O counters
//! (`/proc/diskstats`) and filesystem usage.
use crate::text::{
    char_views, chars_eq, chars_eq_str, chars_of, lines, lines_of, parse_u64, parse_u64_spec,
    push_all, string_of, words, words_of,
};
use vstd::prelude::*;
use vstd::wrapping::u64_specs::{wrapping_mul, wrapping_sub};

verus! {

/// Provider of storage readings for the filesystem mounted at a path.
pub struct StorageProvider {
    pub storage_path: String,
    pub storage_device: Option<String>,
    pub last_read: u64,
    pub last_write: u64,
}

/// The device mounted at `path` according to the lines of `/proc/mounts`:
/// the first word of the first line whose second word is `path`.
pub open spec fn mount_device(ls: Seq<Seq<char>>, path: Seq<char>) -> Option<Seq<char>>
    decreases ls.len(),
{
    if ls.len() == 0 {
        None
    } else if words(ls[0]).len() >= 2 && words(ls[0])[1] == path {
        Some(words(ls[0])[0])
    } else {
        mount_device(ls.drop_first(), path)
    }
}

/// The ZFS ARC sizes, in bytes.
#[derive(Debug, Clone, Copy, PartialEq, Eq, Structural)]
pub struct ArcStats {
    pub target: u64,
    pub maximum: u64,
    pub current: u64,
}

/// The ARC sizes after one more line of `arcstats`: a line of at least three
/// words named `c`, `c_max` or `size` sets the target, maximum or current
/// size to its third word, when that is a number.
pub open spec fn arc_step(a: ArcStats, line: Seq<char>) -> ArcStats {
    let w = words(line);
    if w.len() >= 3 {
        if w[0] == "c"@ {
            match parse_u64_spec(w[2]) {
                Some(v) => ArcStats { target: v, ..a },
                None => a,
            }
        } else if w[0] == "c_max"@ {
            match parse_u64_spec(w[2]) {
                Some(v) => ArcStats { maximum: v, ..a },
                None => a,
            }
        } else if w[0] == "size"@ {
            match parse_u64_spec(w[2]) {
                Some(v) => ArcStats { current: v, ..a },
                None => a,
            }
        } else {
            a
        }
    } else {
        a
    }
}

/// The ARC sizes of a sequence of lines, starting from zero.
pub open spec fn arc_sizes(ls: Seq<Seq<char>>) -> ArcStats
    decreases ls.len(),
{
    if ls.len() == 0 {
        ArcStats { target: 0, maximum: 0, current: 0 }
    } else {
        arc_step(arc_sizes(ls.drop_last()), ls.last())
    }
}

/// Whether a line of `/proc/diskstats` describes `device` (given as
/// `/dev/<name>`): it has at least ten words, the third being the name.
pub open spec fn is_device_line(line: Seq<char>, device: Seq<char>) -> bool {
    words(line).len() >= 10 && "/dev/"@ + words(line)[2] == device
}

/// The first line of `/proc/diskstats` that describes `device`.
pub open spec fn device_line(ls: Seq<Seq<char>>, device: Seq<char>) -> Option<Seq<char>>
    decreases ls.len(),
{
    if ls.len() == 0 {
        None
    } else if is_device_line(ls[0], device) {
        Some(ls[0])
    } else {
        device_line(ls.drop_first(), device)
    }
}

/// Disk counters are read only from a line naming exactly the device: the
/// line found for `device` is one of the lines, has the ten words of a device
/// line, and its third word with `/dev/` in front is the device itself (so for
/// `/dev/sda1` a line of `sda` is never taken); and a line is found whenever
/// some line names the device.
pub proof fn lemma_device_line_names_device(ls: Seq<Seq<char>>, device: Seq<char>)
    ensures
        device_line(ls, device) matches Some(line) ==> ls.contains(line) && words(line).len()
            >= 10 && "/dev/"@ + words(line)[2] == device,
        device_line(ls, device) matches Some(line) ==> exists|k: int|
            0 <= k < ls.len() && #[trigger] ls[k] == line && forall|j: int|
                0 <= j < k ==> !(words(#[trigger] ls[j]).len() >= 10 && "/dev/"@ + words(ls[j])[2]
                    == device),
        (exists|i: int|
            0 <= i < ls.len() && words(#[trigger] ls[i]).len() >= 10 && "/dev/"@ + words(ls[i])[2]
                == device) ==> device_line(ls, device) is Some,
    decreases ls.len(),
{
    if ls.len() > 0 {
        let rest = ls.drop_first();
        lemma_device_line_names_device(rest, device);
        if device_line(ls, device) is Some && !is_device_line(ls[0], device) {
            let line = device_line(rest, device)->0;
            let k = choose|k: int| 0 <= k < rest.len() && rest[k] == line;
            assert(ls[k + 1] == line);
            let k2 = choose|k: int|
                0 <= k < rest.len() && #[trigger] rest[k] == line && forall|j: int|
                    0 <= j < k ==> !(words(#[trigger] rest[j]).len() >= 10 && "/dev/"@ + words(
                        rest[j],
                    )[2] == device);
            assert(ls[k2 + 1] == line);
            assert forall|j: int| 0 <= j < k2 + 1 implies !(words(#[trigger] ls[j]).len() >= 10
                && "/dev/"@ + words(ls[j])[2] == device) by {
                if j > 0 {
                    assert(ls[j] == rest[j - 1]);
                }
            }
        }
        if device_line(ls, device) is Some && is_device_line(ls[0], device) {
            assert(ls[0] == device_line(ls, device)->0);
        }
        if exists|i: int|
            0 <= i < ls.len() && words(#[trigger] ls[i]).len() >= 10 && "/dev/"@ + words(ls[i])[2]
                == device {
            let i = choose|i: int|
                0 <= i < ls.len() && words(#[trigger] ls[i]).len() >= 10 && "/dev/"@ + words(
                    ls[i],
                )[2] == device;
            if i > 0 {
                assert(rest[i - 1] == ls[i]);
            }
        }
    }
}

/// The I/O counters of a device.
#[derive(Debug, Clone, Copy)]
pub struct DiskIo {
    /// Bytes read in total.
    pub read: u64,
    /// Bytes written in total.
    pub write: u64,
    /// Bytes read and written since the previous counters, when there were
    /// previous counters.
    pub deltas: Option<(u64, u64)>,
}

/// The sector counts of a device line: its sixth and tenth words, when both
/// are numbers.
pub open spec fn sector_counts(line: Seq<char>) -> Option<(u64, u64)> {
    let w = words(line);
    match (parse_u64_spec(w[5]), parse_u64_spec(w[9])) {
        (Some(r), Some(wr)) => Some((r, wr)),
        _ => None,
    }
}

/// Filesystem usage in bytes.
#[derive(Debug, Clone, Copy, PartialEq, Eq, Structural)]
pub struct FsUsage {
    pub total: u64,
    pub used: u64,
    pub free: u64,
    pub available: u64,
}

impl StorageProvider {
    /// A provider for the filesystem mounted at `storage_path`, with no
    /// device found yet and no counters read yet.
    pub fn new(storage_path: String) -> (r: Self)
        ensures
            r.storage_path@ == storage_path@,
            r.storage_device is None,
            r.last_read == 0,
            r.last_write == 0,
    {
        StorageProvider { storage_path, storage_device: None, last_read: 0, last_write: 0 }
    }

    /// Finds the device mounted at the storage path in the text of
    /// `/proc/mounts`; keeps the previous device when there is none.
    pub fn find_storage_device(&mut self, mounts: &str)
        ensures
            final(self).storage_path == old(self).storage_path,
            final(self).last_read == old(self).last_read,
            final(self).last_write == old(self).last_write,
            match mount_device(lines(mounts@), old(self).storage_path@) {
                Some(d) => final(self).storage_device matches Some(s) && s@ == d,
                None => final(self).storage_device == old(self).storage_device,
            },
    {
        let c = chars_of(mounts);
        let ls = lines_of(c.as_slice());
        let path = chars_of(self.storage_path.as_str());
        let ghost all = char_views(ls@);
        let mut i: usize = 0;
        proof {
            assert(all.skip(0) == all);
        }
        while i < ls.len()
            invariant
                i <= ls@.len(),
                all == char_views(ls@),
                all == lines(mounts@),
                path@ == self.storage_path@,
                *self == *old(self),
                mount_device(all, path@) == mount_device(all.skip(i as int), path@),
            decreases ls@.len() - i,
        {
            let parts = words_of(ls[i].as_slice());
            proof {
                assert(all.skip(i as int)[0] == ls@[i as int]@);
                assert(all.skip(i as int).drop_first() == all.skip(i + 1));
            }
            if parts.len() >= 2 {
                proof {
                    assert(char_views(parts@)[0] == parts@[0]@);
                    assert(char_views(parts@)[1] == parts@[1]@);
                }
                if chars_eq(parts[1].as_slice(), path.as_slice()) {
                    self.storage_device = Some(string_of(parts[0].as_slice()));
                    return;
                }
            }
            i = i + 1;
        }
        proof {
            assert(all.skip(i as int).len() == 0);
        }
    }

    /// The ZFS ARC sizes of `arcstats`, when the target size is not zero.
    pub fn parse_arcstats(contents: &str) -> (r: Option<ArcStats>)
        ensures
            r == (if arc_sizes(lines(contents@)).target > 0 {
                Some(arc_sizes(lines(contents@)))
            } else {
                None
            }),
    {
        let c = chars_of(contents);
        let ls = lines_of(c.as_slice());
        let ghost all = char_views(ls@);
        let mut a = ArcStats { target: 0, maximum: 0, current: 0 };
        let mut i: usize = 0;
        proof {
            assert(all.take(0) =~= Seq::<Seq<char>>::empty());
        }
        while i < ls.len()
            invariant
                i <= ls@.len(),
                all == char_views(ls@),
                all == lines(contents@),
                a == arc_sizes(all.take(i as int)),
            decreases ls@.len() - i,
        {
            proof {
                assert(all.take(i + 1).drop_last() == all.take(i as int));
                assert(all.take(i + 1).last() == ls@[i as int]@);
            }
            let parts = words_of(ls[i].as_slice());
            if parts.len() >= 3 {
                proof {
                    assert(char_views(parts@)[0] == parts@[0]@);
                    assert(char_views(parts@)[2] == parts@[2]@);
                }
                let name = parts[0].as_slice();
                if chars_eq_str(name, "c") {
                    if let Some(v) = parse_u64(parts[2].as_slice()) {
                        a.target = v;
                    }
                } else if chars_eq_str(name, "c_max") {
                    if let Some(v) = parse_u64(parts[2].as_slice()) {
                        a.maximum = v;
                    }
                } else if chars_eq_str(name, "size") {
                    if let Some(v) = parse_u64(parts[2].as_slice()) {
                        a.current = v;
                    }
                }
            }
            i = i + 1;
        }
        proof {
            assert(all.take(all.len() as int) == all);
        }
        if a.target > 0 {
            Some(a)
        } else {
            None
        }
    }

    /// The I/O counters of `device` (like `/dev/sda`) in `/proc/diskstats`.
    ///
    /// The first line describing the device is used. When its sector counts
    /// are numbers, the totals are 512 bytes per sector, the deltas against
    /// the previous totals are reported when those are not zero, and the
    /// totals replace the previous ones.
    pub fn parse_diskstats(contents: &str, device: &str, last_read: &mut u64, last_write: &mut u64) -> (r:
        Option<DiskIo>)
        ensures
            match device_line(lines(contents@), device@) {
                Some(line) => match sector_counts(line) {
                    Some((rs, ws)) => {
                        let read = wrapping_mul(rs, 512);
                        let write = wrapping_mul(ws, 512);
                        &&& r == Some(
                            DiskIo {
                                read,
                                write,
                                deltas: if *old(last_read) > 0 {
                                    Some(
                                        (
                                            wrapping_sub(read, *old(last_read)),
                                            wrapping_sub(write, *old(last_write)),
                                        ),
                                    )
                                } else {
                                    None
                                },
                            },
                        )
                        &&& *final(last_read) == read
                        &&& *final(last_write) == write
                    },
                    None => r is None && *final(last_read) == *old(last_read) && *final(last_write)
                        == *old(last_write),
                },
                None => r is None && *final(last_read) == *old(last_read) && *final(last_write)
                    == *old(last_write),
            },
            r is Some ==> exists|i: int|
                0 <= i < lines(contents@).len() && words(#[trigger] lines(contents@)[i]).len() >= 10
                    && "/dev/"@ + words(lines(contents@)[i])[2] == device@,
    {
        proof {
            lemma_device_line_names_device(lines(contents@), device@);
        }
        let c = chars_of(contents);
        let ls = lines_of(c.as_slice());
        let dev = chars_of(device);
        let ghost all = char_views(ls@);
        let mut i: usize = 0;
        proof {
            assert(all.skip(0) == all);
        }
        while i < ls.len()
            invariant
                i <= ls@.len(),
                all == char_views(ls@),
                all == lines(contents@),
                dev@ == device@,
                *last_read == *old(last_read),
                *last_write == *old(last_write),
                device_line(all, device@) == device_line(all.skip(i as int), device@),
            decreases ls@.len() - i,
        {
            let parts = words_of(ls[i].as_slice());
            proof {
                assert(all.skip(i as int)[0] == ls@[i as int]@);
                assert(all.skip(i as int).drop_first() == all.skip(i + 1));
            }
            if parts.len() >= 10 {
                let mut name = chars_of("/dev/");
                proof {
                    assert(char_views(parts@)[2] == parts@[2]@);
                    assert(char_views(parts@)[5] == parts@[5]@);
                    assert(char_views(parts@)[9] == parts@[9]@);
                }
                push_all(&mut name, parts[2].as_slice());
                if chars_eq(name.as_slice(), dev.as_slice()) {
                    let rs = parse_u64(parts[5].as_slice());
                    let ws = parse_u64(parts[9].as_slice());
                    match (rs, ws) {
                        (Some(rs), Some(ws)) => {
                            let read = rs.wrapping_mul(512);
                            let write = ws.wrapping_mul(512);
                            let deltas = if *last_read > 0 {
                                Some((read.wrapping_sub(*last_read), write.wrapping_sub(*last_write)))
                            } else {
                                None
                            };
                            *last_read = read;
                            *last_write = write;
                            return Some(DiskIo { read, write, deltas });
                        },
                        _ => {
                            return None;
                        },
                    }
                }
            }
            i = i + 1;
        }
        proof {
            assert(all.skip(i as int).len() == 0);
        }
        None
    }
}

/// The usage of a filesystem from its block counts (as `statvfs` reports
/// them): total, free and available bytes are the block counts times the
/// block size, and the used bytes are the total less the free ones.
pub fn filesystem_usage(blocks: u64, blocks_free: u64, blocks_available: u64, block_size: u64) -> (r:
    FsUsage)
    ensures
        r.total == wrapping_mul(blocks, block_size),
        r.free == wrapping_mul(blocks_free, block_size),
        r.available == wrapping_mul(blocks_available, block_size),
        r.used == wrapping_sub(r.total, r.free),
{
    let total = blocks.wrapping_mul(block_size);
    let free = blocks_free.wrapping_mul(block_size);
    let available = blocks_available.wrapping_mul(block_size);
    FsUsage { total, used: total.wrapping_sub(free), free, available }
}

} // verus!
