//! Time series of sensor readings for the history graphs, and detection of
//! changed readings.
use vstd::prelude::*;

use crate::assoc::assoc_lookup;
use crate::assoc::assoc_position;
use crate::assoc::assoc_set;
use crate::assoc::lemma_assoc_lookup;
use crate::assoc::lemma_assoc_lookup_entry;
use crate::assoc::lemma_assoc_lookup_listed;
use crate::assoc::lemma_assoc_lookup_push;
use crate::assoc::lemma_assoc_lookup_update;
use crate::sensors::format_from_name;
use crate::sensors::graphable;
use crate::sensors::parse_format_str;
use crate::sensors::SensorFormat;
use crate::text::chars_eq;
use crate::text::chars_of;
use crate::text::has_prefix;
use crate::text::starts_with;
use crate::text::string_of;

verus! {

// ---------------------------------------------------------------------------
// Time series
// ---------------------------------------------------------------------------

/// The most points a series keeps.
pub const MAX_POINTS: usize = 3600;

/// The shortest span of history kept, in seconds.
pub const MIN_DURATION_SECS: u32 = 60;

/// A point of a time series: milliseconds since the Unix epoch, and the value
/// read then (`None` marks a gap).
#[derive(Debug, Clone, Copy)]
pub struct TimePoint<V> {
    pub t: u64,
    pub v: Option<V>,
}

/// The spacing of points for an update interval in seconds (at least one
/// second), in milliseconds.
pub open spec fn step_ms(interval: u32) -> int {
    (if interval == 0 {
        1int
    } else {
        interval as int
    }) * 1000
}

/// Gap points after time `t`: one every `step`, while before `limit`.
pub open spec fn gap_points<V>(t: int, step: int, limit: int) -> Seq<TimePoint<V>>
    decreases limit - t,
{
    if step > 0 && t + step < limit {
        seq![TimePoint { t: (t + step) as u64, v: None }] + gap_points(t + step, step, limit)
    } else {
        seq![]
    }
}

/// The points at or after `cutoff`.
pub open spec fn points_after<V>(s: Seq<TimePoint<V>>, cutoff: int) -> Seq<TimePoint<V>>
    decreases s.len(),
{
    if s.len() == 0 {
        seq![]
    } else if s.last().t >= cutoff {
        points_after(s.drop_last(), cutoff).push(s.last())
    } else {
        points_after(s.drop_last(), cutoff)
    }
}

/// The points at or after `cutoff`, then at most the newest `max` of them.
pub open spec fn keep_recent<V>(s: Seq<TimePoint<V>>, cutoff: int, max: nat) -> Seq<TimePoint<V>> {
    let kept = points_after(s, cutoff);
    if kept.len() > max {
        kept.skip(kept.len() - max)
    } else {
        kept
    }
}

/// A series after recording `value` at time `now`: a value read less than
/// half a second short of one interval after the last one replaces it;
/// otherwise a gap longer than three intervals is filled with empty points,
/// the value is appended, and points older than `max_duration_secs` or beyond
/// the newest `max_points` are dropped.
pub open spec fn pushed_series<V>(
    buf: Seq<TimePoint<V>>,
    value: V,
    interval: u32,
    now: u64,
    max_duration_secs: u32,
    max_points: nat,
) -> Seq<TimePoint<V>> {
    let step = step_ms(interval);
    if buf.len() > 0 && buf.last().v is Some && now - buf.last().t < step - 500 {
        buf.update(buf.len() - 1, TimePoint { t: buf.last().t, v: Some(value) })
    } else {
        let filled = if buf.len() > 0 && now - buf.last().t > 3 * step {
            buf + gap_points(buf.last().t as int, step, now - step / 2)
        } else {
            buf
        };
        keep_recent(
            filled.push(TimePoint { t: now, v: Some(value) }),
            now - max_duration_secs * 1000,
            max_points,
        )
    }
}

/// A stored series with the gaps at its start removed.
pub open spec fn drop_leading_gaps<V>(s: Seq<TimePoint<V>>) -> Seq<TimePoint<V>>
    decreases s.len(),
{
    if s.len() > 0 && s[0].v is None {
        drop_leading_gaps(s.drop_first())
    } else {
        s
    }
}

/// What is kept of a stored series: its points at or after `cutoff`, without
/// leading gaps.
pub open spec fn loaded_points<V>(points: Seq<TimePoint<V>>, cutoff: int) -> Seq<TimePoint<V>> {
    drop_leading_gaps(points_after(points, cutoff))
}

/// The series of `key` after restoring stored series over `prev`: the last
/// stored series of that key with something left to keep, else `prev`.
pub open spec fn restored_series<V>(
    prev: Seq<TimePoint<V>>,
    stored: Seq<(String, Vec<TimePoint<V>>)>,
    key: Seq<char>,
    cutoff: int,
) -> Seq<TimePoint<V>>
    decreases stored.len(),
{
    if stored.len() == 0 {
        prev
    } else if stored.last().0@ == key && loaded_points(stored.last().1@, cutoff).len() > 0 {
        loaded_points(stored.last().1@, cutoff)
    } else {
        restored_series(prev, stored.drop_last(), key, cutoff)
    }
}

/// The format of `key` after restoring stored format names over `prev`: the
/// last known name stored for that key, else `prev`.
pub open spec fn restored_format(
    prev: Option<SensorFormat>,
    stored: Seq<(String, String)>,
    key: Seq<char>,
) -> Option<SensorFormat>
    decreases stored.len(),
{
    if stored.len() == 0 {
        prev
    } else if stored.last().0@ == key && format_from_name(stored.last().1@) is Some {
        format_from_name(stored.last().1@)
    } else {
        restored_format(prev, stored.drop_last(), key)
    }
}

/// The views of the series of an association list.
pub open spec fn series_view<V>(o: Option<Vec<TimePoint<V>>>) -> Seq<TimePoint<V>> {
    match o {
        Some(b) => b@,
        None => seq![],
    }
}

/// Time-series data of all sensors.
pub struct TimeSeriesStore<V> {
    series: Vec<(String, Vec<TimePoint<V>>)>,
    formats: Vec<(String, SensorFormat)>,
    max_duration_secs: u32,
    max_points: usize,
}

/// Recording `value` (finite or not, as `finite` says) for `key` at `now`
/// took `old` to `new`.
pub open spec fn pushed_with<V: Copy>(
    old: TimeSeriesStore<V>,
    new: TimeSeriesStore<V>,
    key: Seq<char>,
    value: V,
    finite: bool,
    format: SensorFormat,
    interval: u32,
    now: u64,
) -> bool {
    if !graphable(format) || !finite {
        new == old
    } else {
        &&& new.format_of(key) == Some(format)
        &&& forall|k: Seq<char>| k != key ==> new.format_of(k) == old.format_of(k)
        &&& new.series(key) == pushed_series(
            old.series(key),
            value,
            interval,
            now,
            old.max_duration(),
            old.max_len(),
        )
        &&& forall|k: Seq<char>| k != key ==> new.series(k) == old.series(k)
        &&& new.max_duration() == old.max_duration()
        &&& new.max_len() == old.max_len()
    }
}

/// Restoring stored data at time `now` took `old` to `new`.
pub open spec fn restored_with<V: Copy>(
    old: TimeSeriesStore<V>,
    new: TimeSeriesStore<V>,
    version: u32,
    stored: Seq<(String, Vec<TimePoint<V>>)>,
    formats: Seq<(String, String)>,
    now: u64,
) -> bool {
    if version != 1 {
        new == old
    } else {
        &&& forall|k: Seq<char>|
            new.series(k) == restored_series(
                old.series(k),
                stored,
                k,
                now - old.max_duration() * 1000,
            )
        &&& forall|k: Seq<char>| new.format_of(k) == restored_format(old.format_of(k), formats, k)
        &&& new.max_duration() == old.max_duration()
        &&& new.max_len() == old.max_len()
    }
}

/// Milliseconds since the Unix epoch by the system clock (`SystemTime::now`),
/// 0 if the clock reads earlier. Nothing is stated of it: it is the time.
#[verifier::external_body]
fn unix_time_millis() -> u64 {
    match std::time::SystemTime::now().duration_since(std::time::UNIX_EPOCH) {
        Ok(d) => d.as_millis() as u64,
        Err(_) => 0,
    }
}

/// The points of `s` at or after `cutoff` (given as `now` less a span).
fn points_since<V: Copy>(s: Vec<TimePoint<V>>, now: u64, span_ms: u64) -> (r: Vec<TimePoint<V>>)
    ensures
        r@ == points_after(s@, now - span_ms),
{
    let ghost all = s@;
    let ghost cutoff: int = now - span_ms;
    let mut r: Vec<TimePoint<V>> = Vec::new();
    proof {
        assert(all.take(0) =~= Seq::<TimePoint<V>>::empty());
    }
    for p in it: s.into_iter()
        invariant
            it.seq() == all,
            cutoff == now - span_ms,
            r@ == points_after(all.take(it.index() as int), cutoff),
    {
        proof {
            assert(all.take(it.index() + 1).drop_last() == all.take(it.index() as int));
        }
        if (p.t as u128) + (span_ms as u128) >= now as u128 {
            r.push(p);
        }
    }
    proof {
        assert(all.take(all.len() as int) == all);
    }
    r
}

/// The points of `s` from index `from` on.
fn points_from<V: Copy>(s: &Vec<TimePoint<V>>, from: usize) -> (r: Vec<TimePoint<V>>)
    requires
        from <= s@.len(),
    ensures
        r@ == s@.skip(from as int),
{
    let mut r: Vec<TimePoint<V>> = Vec::new();
    let mut j: usize = from;
    while j < s.len()
        invariant
            from <= j <= s@.len(),
            r@ == s@.subrange(from as int, j as int),
        decreases s@.len() - j,
    {
        r.push(s[j]);
        j = j + 1;
        proof {
            assert(r@ =~= s@.subrange(from as int, j as int));
        }
    }
    proof {
        assert(r@ =~= s@.skip(from as int));
    }
    r
}

/// The series `buf` after recording `value` at time `now`.
fn pushed_buffer<V: Copy>(
    buf: Vec<TimePoint<V>>,
    value: V,
    interval: u32,
    now: u64,
    max_duration_secs: u32,
    max_points: usize,
) -> (r: Vec<TimePoint<V>>)
    ensures
        r@ == pushed_series(buf@, value, interval, now, max_duration_secs, max_points as nat),
{
    let ghost old_buf = buf@;
    let mut buf = buf;
    let step: u64 = if interval == 0 {
        1000
    } else {
        interval as u64 * 1000
    };
    let n = buf.len();
    if n > 0 {
        let last = buf[n - 1];
        if last.v.is_some() && (now as u128) + 500 < (last.t as u128) + (step as u128) {
            buf.set(n - 1, TimePoint { t: last.t, v: Some(value) });
            return buf;
        }
    }
    let half: u64 = step / 2;
    let ghost limit: int = now - step / 2;
    if n > 0 {
        let last_t = buf[n - 1].t;
        if (now as u128) > (last_t as u128) + 3 * (step as u128) {
            let ghost pre = buf@;
            let mut cur: u64 = last_t;
            proof {
                assert(buf@ + gap_points::<V>(cur as int, step as int, limit) == pre + gap_points::<V>(
                    last_t as int,
                    step as int,
                    limit,
                ));
            }
            while (cur as u128) + (step as u128) + (half as u128) < now as u128
                invariant
                    step > 0,
                    half == step / 2,
                    limit == now - step / 2,
                    cur <= now,
                    buf@ + gap_points::<V>(cur as int, step as int, limit) == pre + gap_points::<V>(
                        last_t as int,
                        step as int,
                        limit,
                    ),
                decreases now - cur,
            {
                let t: u64 = cur + step;
                let ghost before = buf@;
                buf.push(TimePoint { t, v: None });
                proof {
                    assert(gap_points::<V>(cur as int, step as int, limit) == seq![
                        TimePoint::<V> { t, v: None },
                    ] + gap_points::<V>(t as int, step as int, limit));
                    assert(buf@ + gap_points::<V>(t as int, step as int, limit) =~= before + gap_points::<
                        V,
                    >(cur as int, step as int, limit));
                }
                cur = t;
            }
            proof {
                assert(gap_points::<V>(cur as int, step as int, limit) =~= Seq::<TimePoint<V>>::empty());
                assert(buf@ =~= pre + gap_points::<V>(last_t as int, step as int, limit));
            }
        }
    }
    let ghost filled = buf@;
    buf.push(TimePoint { t: now, v: Some(value) });
    let kept = points_since(buf, now, max_duration_secs as u64 * 1000);
    if kept.len() > max_points {
        points_from(&kept, kept.len() - max_points)
    } else {
        kept
    }
}

/// The points of `s` after its leading gaps.
fn without_leading_gaps<V: Copy>(s: Vec<TimePoint<V>>) -> (r: Vec<TimePoint<V>>)
    ensures
        r@ == drop_leading_gaps(s@),
{
    let mut j: usize = 0;
    proof {
        assert(s@.skip(0) =~= s@);
    }
    while j < s.len() && s[j].v.is_none()
        invariant
            j <= s@.len(),
            drop_leading_gaps(s@) == drop_leading_gaps(s@.skip(j as int)),
        decreases s@.len() - j,
    {
        proof {
            assert(s@.skip(j as int).drop_first() =~= s@.skip(j + 1));
        }
        j = j + 1;
    }
    proof {
        if j < s@.len() {
            assert(s@.skip(j as int)[0] == s@[j as int]);
        } else {
            assert(s@.skip(j as int) =~= Seq::<TimePoint<V>>::empty());
        }
    }
    points_from(&s, j)
}

impl<V: Copy> TimeSeriesStore<V> {
    /// The recorded series of `key` (empty if none).
    pub closed spec fn series(&self, key: Seq<char>) -> Seq<TimePoint<V>> {
        series_view(assoc_lookup(self.series@, key))
    }

    /// The format recorded with `key`.
    pub closed spec fn format_of(&self, key: Seq<char>) -> Option<SensorFormat> {
        assoc_lookup(self.formats@, key)
    }

    /// The keys of the recorded series, in the order they were first recorded.
    pub closed spec fn key_list(&self) -> Seq<Seq<char>> {
        self.series@.map_values(|e: (String, Vec<TimePoint<V>>)| e.0@)
    }

    /// The keys with a recorded format, with their formats.
    pub closed spec fn format_list(&self) -> Seq<(Seq<char>, SensorFormat)> {
        self.formats@.map_values(|e: (String, SensorFormat)| (e.0@, e.1))
    }

    /// The store's invariant: a series keeps at least one point, and every
    /// series the store holds has points.
    pub closed spec fn wf(&self) -> bool {
        &&& self.max_points >= 1
        &&& forall|k: Seq<char>|
            #[trigger] assoc_lookup(self.series@, k) is Some ==> self.series(k).len() > 0
    }

    /// How many seconds of history are kept.
    pub closed spec fn max_duration(&self) -> u32 {
        self.max_duration_secs
    }

    /// How many points a series keeps.
    pub closed spec fn max_len(&self) -> nat {
        self.max_points as nat
    }

    /// An empty store keeping `max_duration_secs` of history, at least a
    /// minute, and at most 3600 points per series.
    pub fn new(max_duration_secs: u32) -> (r: Self)
        ensures
            r.max_duration() == if max_duration_secs < MIN_DURATION_SECS {
                MIN_DURATION_SECS
            } else {
                max_duration_secs
            },
            r.max_len() == MAX_POINTS,
            r.wf(),
            forall|k: Seq<char>| r.series(k) == Seq::<TimePoint<V>>::empty(),
            forall|k: Seq<char>| r.format_of(k) is None,
            r.key_list() == Seq::<Seq<char>>::empty(),
            r.format_list() == Seq::<(Seq<char>, SensorFormat)>::empty(),
    {
        let r = TimeSeriesStore {
            series: Vec::new(),
            formats: Vec::new(),
            max_duration_secs: if max_duration_secs < MIN_DURATION_SECS {
                MIN_DURATION_SECS
            } else {
                max_duration_secs
            },
            max_points: MAX_POINTS,
        };
        proof {
            assert(r.key_list() =~= Seq::<Seq<char>>::empty());
            assert(r.format_list() =~= Seq::<(Seq<char>, SensorFormat)>::empty());
        }
        r
    }

    /// Records `value` for `key` at time `now` (milliseconds since the Unix
    /// epoch), as `pushed_series` describes. `finite` tells whether the value
    /// is a finite number (the caller's test on its numeric type); a value
    /// that is not, or a format that cannot be graphed, leaves the store as
    /// it was.
    pub fn push_at(
        &mut self,
        key: &str,
        value: V,
        finite: bool,
        format: SensorFormat,
        interval: u32,
        now: u64,
    )
        ensures
            pushed_with(*old(self), *final(self), key@, value, finite, format, interval, now),
            old(self).wf() ==> final(self).wf(),
    {
        if !format.is_graphable() || !finite {
            return;
        }
        let kc = chars_of(key);
        assoc_set(&mut self.formats, kc.as_slice(), format);
        let p = assoc_position(&self.series, kc.as_slice());
        let ghost before = self.series@;
        proof {
            lemma_assoc_lookup(before, kc@, p);
        }
        match p {
            Some(i) => {
                let mut e: (String, Vec<TimePoint<V>>) = (String::new(), Vec::new());
                self.series.set_and_swap(i, &mut e);
                let (name, buf) = e;
                let nb = pushed_buffer(
                    buf,
                    value,
                    interval,
                    now,
                    self.max_duration_secs,
                    self.max_points,
                );
                let ne = (name, nb);
                proof {
                    lemma_assoc_lookup_update(before, i as int, kc@, ne);
                }
                self.series.set(i, ne);
                proof {
                    assert(self.series@ =~= before.update(i as int, ne));
                }
            },
            None => {
                let nb = pushed_buffer(
                    Vec::new(),
                    value,
                    interval,
                    now,
                    self.max_duration_secs,
                    self.max_points,
                );
                let ne = (string_of(kc.as_slice()), nb);
                proof {
                    lemma_assoc_lookup_push(before, ne);
                }
                self.series.push(ne);
            },
        }
        proof {
            if old(self).wf() {
                lemma_push_ends_with_value(
                    old(self).series(key@),
                    value,
                    interval,
                    now,
                    old(self).max_duration_secs,
                    old(self).max_points as nat,
                );
                assert forall|k: Seq<char>| #[trigger]
                    assoc_lookup(self.series@, k) is Some implies self.series(k).len() > 0 by {
                    if k != key@ {
                        assert(self.series(k) == old(self).series(k));
                        assert(assoc_lookup(before, k) is Some);
                    }
                }
            }
        }
    }

    /// Records `value` for `key` at the current time.
    pub fn push(&mut self, key: &str, value: V, finite: bool, format: SensorFormat, interval: u32)
        ensures
            exists|now: u64|
                pushed_with(*old(self), *final(self), key@, value, finite, format, interval, now),
            old(self).wf() ==> final(self).wf(),
    {
        let now = unix_time_millis();
        self.push_at(key, value, finite, format, interval, now);
    }

    /// Sets the series of `key`.
    fn set_series(&mut self, key: &[char], buf: Vec<TimePoint<V>>)
        ensures
            final(self).series(key@) == buf@,
            assoc_lookup(final(self).series@, key@) is Some,
            forall|k: Seq<char>|
                k != key@ ==> assoc_lookup(final(self).series@, k) == assoc_lookup(
                    old(self).series@,
                    k,
                ),
            forall|k: Seq<char>| k != key@ ==> final(self).series(k) == old(self).series(k),
            final(self).formats == old(self).formats,
            final(self).max_duration_secs == old(self).max_duration_secs,
            final(self).max_points == old(self).max_points,
    {
        assoc_set(&mut self.series, key, buf);
    }

    /// Sets the format of `key` to the one named `name`, if that names one.
    fn set_format_named(&mut self, key: &[char], name: &str)
        ensures
            final(self).format_of(key@) == match format_from_name(name@) {
                Some(f) => Some(f),
                None => old(self).format_of(key@),
            },
            forall|k: Seq<char>| k != key@ ==> final(self).format_of(k) == old(self).format_of(k),
            final(self).series == old(self).series,
            final(self).max_duration_secs == old(self).max_duration_secs,
            final(self).max_points == old(self).max_points,
    {
        match parse_format_str(name) {
            Some(f) => assoc_set(&mut self.formats, key, f),
            None => {},
        }
    }

    /// Restores saved series and format names, as read back from a history
    /// of format `version`, at time `now` (milliseconds since the Unix epoch):
    /// only version 1 is understood; of each series the points older than the
    /// kept duration and the leading gaps are dropped, and a series with
    /// nothing left is skipped; format names that name no format are skipped.
    pub fn restore_at(
        &mut self,
        version: u32,
        stored: Vec<(String, Vec<TimePoint<V>>)>,
        formats: Vec<(String, String)>,
        now: u64,
    )
        ensures
            restored_with(*old(self), *final(self), version, stored@, formats@, now),
            old(self).wf() ==> final(self).wf(),
    {
        if version != 1 {
            return;
        }
        let ghost start = *self;
        let ghost all = stored@;
        let span: u64 = self.max_duration_secs as u64 * 1000;
        let ghost cutoff: int = now - span;
        proof {
            assert(all.take(0) =~= Seq::<(String, Vec<TimePoint<V>>)>::empty());
        }
        for e in it: stored.into_iter()
            invariant
                it.seq() == all,
                span == start.max_duration() * 1000,
                cutoff == now - span,
                self.max_duration_secs == start.max_duration_secs,
                self.max_points == start.max_points,
                self.formats == start.formats,
                start.wf() ==> self.wf(),
                forall|k: Seq<char>|
                    #[trigger] self.series(k) == restored_series(
                        start.series(k),
                        all.take(it.index() as int),
                        k,
                        cutoff,
                    ),
        {
            let ghost idx = it.index() as int;
            let (key, points) = e;
            let ghost pts = points@;
            let recent = points_since(points, now, span);
            let kept = without_leading_gaps(recent);
            let ghost before = *self;
            if kept.len() > 0 {
                let kc = chars_of(key.as_str());
                self.set_series(kc.as_slice(), kept);
                proof {
                    if start.wf() {
                        assert forall|k: Seq<char>| #[trigger]
                            assoc_lookup(self.series@, k) is Some implies self.series(k).len()
                            > 0 by {
                            if k != kc@ {
                                assert(assoc_lookup(before.series@, k) is Some);
                            }
                        }
                    }
                }
            }
            proof {
                let t1 = all.take(idx + 1);
                assert(t1.drop_last() == all.take(idx));
                assert(t1.last() == all[idx]);
                assert forall|k: Seq<char>|
                    #[trigger] self.series(k) == restored_series(start.series(k), t1, k, cutoff) by {
                    assert(restored_series(start.series(k), t1, k, cutoff) == if t1.last().0@ == k
                        && loaded_points(t1.last().1@, cutoff).len() > 0 {
                        loaded_points(t1.last().1@, cutoff)
                    } else {
                        restored_series(start.series(k), all.take(idx), k, cutoff)
                    });
                }
            }
        }
        proof {
            assert(all.take(all.len() as int) == all);
            assert forall|k: Seq<char>|
                #[trigger] self.series(k) == restored_series(start.series(k), all, k, cutoff) by {
                assert(all.take(all.len() as int) == all);
            }
        }
        let ghost mid = *self;
        let ghost fall = formats@;
        proof {
            assert(forall|k: Seq<char>|
                #[trigger] mid.series(k) == restored_series(start.series(k), all, k, cutoff));
            assert(fall.take(0) =~= Seq::<(String, String)>::empty());
        }
        for e in it: formats.into_iter()
            invariant
                it.seq() == fall,
                self.max_duration_secs == start.max_duration_secs,
                self.max_points == start.max_points,
                self.series == mid.series,
                start.wf() ==> mid.wf(),
                forall|k: Seq<char>|
                    #[trigger] self.format_of(k) == restored_format(
                        start.format_of(k),
                        fall.take(it.index() as int),
                        k,
                    ),
        {
            let ghost idx = it.index() as int;
            let (key, name) = e;
            let kc = chars_of(key.as_str());
            self.set_format_named(kc.as_slice(), name.as_str());
            proof {
                let t1 = fall.take(idx + 1);
                assert(t1.drop_last() == fall.take(idx));
                assert(t1.last() == fall[idx]);
            }
        }
        proof {
            assert(fall.take(fall.len() as int) == fall);
            assert forall|k: Seq<char>|
                #[trigger] self.series(k) == restored_series(start.series(k), all, k, cutoff) by {
                assert(self.series(k) == mid.series(k));
            }
            assert(forall|k: Seq<char>|
                #[trigger] self.format_of(k) == restored_format(start.format_of(k), fall, k));
            if start.wf() {
                assert forall|k: Seq<char>| #[trigger]
                    assoc_lookup(self.series@, k) is Some implies self.series(k).len() > 0 by {
                    assert(assoc_lookup(mid.series@, k) is Some);
                }
            }
        }
    }

    /// Restores saved series and format names at the current time.
    pub fn restore(
        &mut self,
        version: u32,
        stored: Vec<(String, Vec<TimePoint<V>>)>,
        formats: Vec<(String, String)>,
    )
        ensures
            exists|now: u64|
                restored_with(*old(self), *final(self), version, stored@, formats@, now),
            old(self).wf() ==> final(self).wf(),
    {
        let now = unix_time_millis();
        self.restore_at(version, stored, formats, now);
    }

    /// The series recorded for `key` (empty if none).
    pub fn get(&self, key: &str) -> (r: &[TimePoint<V>])
        ensures
            r@ == self.series(key@),
    {
        let kc = chars_of(key);
        let p = assoc_position(&self.series, kc.as_slice());
        proof {
            lemma_assoc_lookup(self.series@, kc@, p);
        }
        match p {
            Some(i) => self.series[i].1.as_slice(),
            None => &[],
        }
    }

    /// The format recorded with `key`.
    pub fn get_format(&self, key: &str) -> (r: Option<SensorFormat>)
        ensures
            r == self.format_of(key@),
    {
        let kc = chars_of(key);
        let p = assoc_position(&self.formats, kc.as_slice());
        proof {
            lemma_assoc_lookup(self.formats@, kc@, p);
        }
        match p {
            Some(i) => Some(self.formats[i].1),
            None => None,
        }
    }

    /// Forgets all series and formats.
    pub fn clear(&mut self)
        ensures
            forall|k: Seq<char>| final(self).series(k) == Seq::<TimePoint<V>>::empty(),
            forall|k: Seq<char>| final(self).format_of(k) is None,
            final(self).key_list() == Seq::<Seq<char>>::empty(),
            final(self).format_list() == Seq::<(Seq<char>, SensorFormat)>::empty(),
            final(self).max_duration() == old(self).max_duration(),
            final(self).max_len() == old(self).max_len(),
            old(self).wf() ==> final(self).wf(),
    {
        self.series = Vec::new();
        self.formats = Vec::new();
        proof {
            assert(self.key_list() =~= Seq::<Seq<char>>::empty());
            assert(self.format_list() =~= Seq::<(Seq<char>, SensorFormat)>::empty());
        }
    }

    /// How many seconds of history are kept.
    pub fn max_duration_secs(&self) -> (r: u32)
        ensures
            r == self.max_duration(),
    {
        self.max_duration_secs
    }

    /// The keys of the recorded series.
    pub fn keys(&self) -> (r: Vec<String>)
        ensures
            r@.len() == self.key_list().len(),
            forall|j: int| 0 <= j < r@.len() ==> #[trigger] r@[j]@ == self.key_list()[j],
    {
        let mut r: Vec<String> = Vec::new();
        let mut i: usize = 0;
        while i < self.series.len()
            invariant
                i <= self.series@.len(),
                r@.len() == i,
                forall|j: int| 0 <= j < i ==> #[trigger] r@[j]@ == self.series@[j].0@,
            decreases self.series@.len() - i,
        {
            let k = chars_of(self.series[i].0.as_str());
            r.push(string_of(k.as_slice()));
            i = i + 1;
        }
        r
    }

    /// The keys with a recorded format, with their formats.
    pub fn formats(&self) -> (r: Vec<(String, SensorFormat)>)
        ensures
            r@.len() == self.format_list().len(),
            forall|j: int|
                0 <= j < r@.len() ==> (#[trigger] r@[j]).0@ == self.format_list()[j].0 && r@[j].1
                    == self.format_list()[j].1,
    {
        let mut r: Vec<(String, SensorFormat)> = Vec::new();
        let mut i: usize = 0;
        while i < self.formats.len()
            invariant
                i <= self.formats@.len(),
                r@.len() == i,
                forall|j: int|
                    0 <= j < i ==> (#[trigger] r@[j]).0@ == self.formats@[j].0@ && r@[j].1
                        == self.formats@[j].1,
            decreases self.formats@.len() - i,
        {
            let k = chars_of(self.formats[i].0.as_str());
            r.push((string_of(k.as_slice()), self.formats[i].1));
            i = i + 1;
        }
        r
    }
}

// ---------------------------------------------------------------------------
// Laws of the time series
// ---------------------------------------------------------------------------

/// A recorded value is the last point of its series afterwards.
pub proof fn lemma_push_ends_with_value<V>(
    buf: Seq<TimePoint<V>>,
    value: V,
    interval: u32,
    now: u64,
    max_duration_secs: u32,
    max_points: nat,
)
    requires
        max_points >= 1,
    ensures
        pushed_series(buf, value, interval, now, max_duration_secs, max_points).len() >= 1,
        pushed_series(buf, value, interval, now, max_duration_secs, max_points).last().v == Some(
            value,
        ),
{
    let step = step_ms(interval);
    if buf.len() > 0 && buf.last().v is Some && now - buf.last().t < step - 500 {
    } else {
        let filled = if buf.len() > 0 && now - buf.last().t > 3 * step {
            buf + gap_points(buf.last().t as int, step, now - step / 2)
        } else {
            buf
        };
        let p = TimePoint { t: now, v: Some(value) };
        let all = filled.push(p);
        let cutoff = now - max_duration_secs * 1000;
        assert(all.drop_last() == filled);
        assert(points_after(all, cutoff) == points_after(filled, cutoff).push(p));
        let kept = points_after(all, cutoff);
        if kept.len() > max_points {
            assert(kept.skip(kept.len() - max_points).last() == kept.last());
        }
    }
}

/// Recording keeps a series that was within the point limit within it.
pub proof fn lemma_push_within_limit<V>(
    buf: Seq<TimePoint<V>>,
    value: V,
    interval: u32,
    now: u64,
    max_duration_secs: u32,
    max_points: nat,
)
    requires
        buf.len() <= max_points,
    ensures
        pushed_series(buf, value, interval, now, max_duration_secs, max_points).len()
            <= max_points,
{
}

/// A saved series whose points are all recent enough and which starts with a
/// value is restored unchanged.
pub proof fn lemma_restore_keeps_recent<V>(points: Seq<TimePoint<V>>, cutoff: int)
    requires
        points.len() > 0,
        points[0].v is Some,
        forall|i: int| 0 <= i < points.len() ==> #[trigger] points[i].t >= cutoff,
    ensures
        loaded_points(points, cutoff) == points,
{
    lemma_points_after_all(points, cutoff);
}

/// A saved format name restores the format it was saved from.
pub proof fn lemma_restore_format_name(
    prev: Option<SensorFormat>,
    stored: Seq<(String, String)>,
    key: Seq<char>,
    format: SensorFormat,
)
    requires
        stored.len() > 0,
        stored.last().0@ == key,
        stored.last().1@ == crate::sensors::format_name(format),
    ensures
        restored_format(prev, stored, key) == Some(format),
{
    crate::sensors::lemma_format_name_roundtrip(format);
}

proof fn lemma_points_after_all<V>(points: Seq<TimePoint<V>>, cutoff: int)
    requires
        forall|i: int| 0 <= i < points.len() ==> #[trigger] points[i].t >= cutoff,
    ensures
        points_after(points, cutoff) == points,
    decreases points.len(),
{
    if points.len() > 0 {
        lemma_points_after_all(points.drop_last(), cutoff);
        assert(points.drop_last().push(points.last()) == points);
    }
}

/// Whether some stored entry has key `k`.
pub open spec fn stored_key<T>(stored: Seq<(String, T)>, k: Seq<char>) -> bool {
    exists|j: int| 0 <= j < stored.len() && #[trigger] stored[j].0@ == k
}

proof fn lemma_restored_export<V>(
    ss: Seq<(String, Vec<TimePoint<V>>)>,
    stored: Seq<(String, Vec<TimePoint<V>>)>,
    k: Seq<char>,
    cutoff: int,
)
    requires
        forall|j: int|
            0 <= j < stored.len() ==> (#[trigger] stored[j]).1@ == series_view(
                assoc_lookup(ss, stored[j].0@),
            ),
    ensures
        ({
            let l = loaded_points(series_view(assoc_lookup(ss, k)), cutoff);
            restored_series(seq![], stored, k, cutoff) == if stored_key(stored, k) && l.len() > 0 {
                l
            } else {
                seq![]
            }
        }),
    decreases stored.len(),
{
    if stored.len() > 0 {
        let front = stored.drop_last();
        assert forall|j: int| 0 <= j < front.len() implies (#[trigger] front[j]).1@ == series_view(
            assoc_lookup(ss, front[j].0@),
        ) by {
            assert(front[j] == stored[j]);
        }
        lemma_restored_export(ss, front, k, cutoff);
        let last = stored.last();
        assert(last == stored[stored.len() - 1]);
        if stored_key(front, k) {
            let j = choose|j: int| 0 <= j < front.len() && #[trigger] front[j].0@ == k;
            assert(stored[j].0@ == k);
        }
        if stored_key(stored, k) && last.0@ != k {
            let j = choose|j: int| 0 <= j < stored.len() && #[trigger] stored[j].0@ == k;
            assert(front[j].0@ == k);
        }
    }
}

proof fn lemma_restored_format_export(
    fs: Seq<(String, SensorFormat)>,
    names: Seq<(String, String)>,
    k: Seq<char>,
)
    requires
        names.len() == fs.len(),
        forall|j: int|
            0 <= j < names.len() ==> (#[trigger] names[j]).0@ == fs[j].0@ && names[j].1@
                == crate::sensors::format_name(fs[j].1),
    ensures
        restored_format(None, names, k) == assoc_lookup(fs, k),
    decreases names.len(),
{
    if names.len() > 0 {
        let nf = names.drop_last();
        let ff = fs.drop_last();
        assert forall|j: int| 0 <= j < nf.len() implies (#[trigger] nf[j]).0@ == ff[j].0@ && nf[j].1@
            == crate::sensors::format_name(ff[j].1) by {
            assert(nf[j] == names[j]);
            assert(ff[j] == fs[j]);
        }
        lemma_restored_format_export(ff, nf, k);
        assert(names.last() == names[names.len() - 1]);
        assert(fs.last() == fs[fs.len() - 1]);
        crate::sensors::lemma_format_name_roundtrip(fs.last().1);
    }
}

impl<V: Copy> TimeSeriesStore<V> {
    /// Every key whose series holds points is among the listed keys.
    pub proof fn lemma_keys_listed(&self, k: Seq<char>)
        ensures
            self.series(k).len() > 0 ==> self.key_list().contains(k),
    {
        lemma_assoc_lookup_listed(self.series@, k);
        if self.series(k).len() > 0 {
            let j = choose|j: int| 0 <= j < self.series@.len() && #[trigger] self.series@[j].0@ == k;
            assert(self.key_list()[j] == k);
        }
    }
}

impl<V: Copy> TimeSeriesStore<V> {
    /// In a well-formed store a key is listed exactly when its series holds
    /// points, and a key has a format exactly when the format list names it,
    /// listed together with that format.
    pub proof fn lemma_lists_match(&self, k: Seq<char>)
        requires
            self.wf(),
        ensures
            self.key_list().contains(k) <==> self.series(k).len() > 0,
            self.format_of(k) is Some <==> exists|j: int|
                0 <= j < self.format_list().len() && #[trigger] self.format_list()[j].0 == k,
            self.format_of(k) is Some ==> self.format_list().contains(
                (k, self.format_of(k).unwrap()),
            ),
    {
        self.lemma_keys_listed(k);
        lemma_assoc_lookup_listed(self.series@, k);
        if self.key_list().contains(k) {
            let j = choose|j: int| 0 <= j < self.key_list().len() && self.key_list()[j] == k;
            assert(self.series@[j].0@ == k);
            assert(assoc_lookup(self.series@, k) is Some);
        }
        lemma_assoc_lookup_listed(self.formats@, k);
        lemma_assoc_lookup_entry(self.formats@, k);
        if exists|j: int|
            0 <= j < self.format_list().len() && #[trigger] self.format_list()[j].0 == k {
            let j = choose|j: int|
                0 <= j < self.format_list().len() && #[trigger] self.format_list()[j].0 == k;
            assert(self.formats@[j].0@ == k);
        }
        if self.format_of(k) is Some {
            let j = choose|j: int|
                0 <= j < self.formats@.len() && #[trigger] self.formats@[j].0@ == k && Some(
                    self.formats@[j].1,
                ) == assoc_lookup(self.formats@, k);
            assert(self.format_list()[j] == (k, self.format_of(k).unwrap()));
            assert(self.format_list()[j].0 == k);
        }
    }
}

/// Restoring what a store exports into an empty store gives its history back:
/// each listed key with its series, and each recorded format by its name,
/// restored at time `now`, give every series as far as it is recent enough to
/// be kept (`loaded_points`), and every format.
pub proof fn lemma_restore_export<V: Copy>(
    source: TimeSeriesStore<V>,
    before: TimeSeriesStore<V>,
    after: TimeSeriesStore<V>,
    stored: Seq<(String, Vec<TimePoint<V>>)>,
    names: Seq<(String, String)>,
    now: u64,
)
    requires
        forall|k: Seq<char>| #[trigger] before.series(k) == Seq::<TimePoint<V>>::empty(),
        forall|k: Seq<char>| #[trigger] before.format_of(k) is None,
        restored_with(before, after, 1, stored, names, now),
        stored.len() == source.key_list().len(),
        forall|j: int|
            0 <= j < stored.len() ==> (#[trigger] stored[j]).0@ == source.key_list()[j]
                && stored[j].1@ == source.series(source.key_list()[j]),
        names.len() == source.format_list().len(),
        forall|j: int|
            0 <= j < names.len() ==> (#[trigger] names[j]).0@ == source.format_list()[j].0
                && names[j].1@ == crate::sensors::format_name(source.format_list()[j].1),
    ensures
        forall|k: Seq<char>|
            #[trigger] after.series(k) == ({
                let l = loaded_points(source.series(k), now - before.max_duration() * 1000);
                if l.len() > 0 {
                    l
                } else {
                    seq![]
                }
            }),
        forall|k: Seq<char>| #[trigger] after.format_of(k) == source.format_of(k),
{
    let cutoff = now - before.max_duration() * 1000;
    assert forall|j: int| 0 <= j < stored.len() implies (#[trigger] stored[j]).1@ == series_view(
        assoc_lookup(source.series@, stored[j].0@),
    ) by {
        assert(source.key_list()[j] == source.series@[j].0@);
    }
    assert forall|k: Seq<char>| #[trigger] after.series(k) == ({
        let l = loaded_points(source.series(k), cutoff);
        if l.len() > 0 {
            l
        } else {
            seq![]
        }
    }) by {
        lemma_restored_export(source.series@, stored, k, cutoff);
        assert(before.series(k) == Seq::<TimePoint<V>>::empty());
        source.lemma_keys_listed(k);
        let l = loaded_points(source.series(k), cutoff);
        if l.len() > 0 && !stored_key(stored, k) {
            if source.series(k).len() == 0 {
                assert(source.series(k) =~= Seq::<TimePoint<V>>::empty());
                assert(points_after(source.series(k), cutoff) =~= Seq::<TimePoint<V>>::empty());
                assert(l == Seq::<TimePoint<V>>::empty());
            }
            let j = choose|j: int| 0 <= j < source.key_list().len() && source.key_list()[j] == k;
            assert(stored[j].0@ == k);
        }
    }
    assert forall|k: Seq<char>| #[trigger] after.format_of(k) == source.format_of(k) by {
        assert forall|j: int| 0 <= j < names.len() implies (#[trigger] names[j]).0@
            == source.formats@[j].0@ && names[j].1@ == crate::sensors::format_name(
            source.formats@[j].1,
        ) by {
            assert(source.format_list()[j] == (source.formats@[j].0@, source.formats@[j].1));
        }
        lemma_restored_format_export(source.formats@, names, k);
        assert(before.format_of(k) is None);
    }
}

// ---------------------------------------------------------------------------
// Change detection
// ---------------------------------------------------------------------------

/// The value of `key` in a category's entries, if any.
pub open spec fn entry_value(o: Option<Vec<(String, String)>>, key: Seq<char>) -> Option<Seq<char>> {
    match o {
        Some(inner) => match assoc_lookup(inner@, key) {
            Some(s) => Some(s@),
            None => None,
        },
        None => None,
    }
}

/// The last formatted value seen of each sensor, by category.
pub struct ChangeDetector {
    history: Vec<(String, Vec<(String, String)>)>,
}

/// Recording `value` for `key` of `category` took `old` to `new`.
pub open spec fn recorded_value(
    old: ChangeDetector,
    new: ChangeDetector,
    category: Seq<char>,
    key: Seq<char>,
    value: Seq<char>,
) -> bool {
    &&& new.last_value(category, key) == Some(value)
    &&& forall|c: Seq<char>, k: Seq<char>|
        c != category || k != key ==> #[trigger] new.last_value(c, k) == old.last_value(c, k)
    &&& new.tracks(category)
    &&& forall|c: Seq<char>| c != category ==> #[trigger] new.tracks(c) == old.tracks(c)
}

impl ChangeDetector {
    /// The last formatted value seen for `key` of `category`.
    pub closed spec fn last_value(&self, category: Seq<char>, key: Seq<char>) -> Option<Seq<char>> {
        entry_value(assoc_lookup(self.history@, category), key)
    }

    /// Whether values of `category` are being tracked.
    pub closed spec fn tracks(&self, category: Seq<char>) -> bool {
        assoc_lookup(self.history@, category) is Some
    }

    /// A detector that has seen nothing.
    pub fn new() -> (r: Self)
        ensures
            forall|c: Seq<char>, k: Seq<char>| r.last_value(c, k) is None,
            forall|c: Seq<char>| !r.tracks(c),
    {
        ChangeDetector { history: Vec::new() }
    }

    /// Whether `formatted_value` differs from the last value seen for `key`
    /// of `category` (or none was seen); it becomes the last value seen.
    pub fn has_changed(&mut self, category: &str, key: &str, formatted_value: &str) -> (r: bool)
        ensures
            r == (old(self).last_value(category@, key@) != Some(formatted_value@)),
            recorded_value(*old(self), *final(self), category@, key@, formatted_value@),
    {
        let cc = chars_of(category);
        let kc = chars_of(key);
        let fc = chars_of(formatted_value);
        let ghost before = self.history@;
        let p = assoc_position(&self.history, cc.as_slice());
        proof {
            lemma_assoc_lookup(before, cc@, p);
        }
        match p {
            Some(i) => {
                let mut e: (String, Vec<(String, String)>) = (String::new(), Vec::new());
                self.history.set_and_swap(i, &mut e);
                let (name, mut inner) = e;
                let q = assoc_position(&inner, kc.as_slice());
                proof {
                    lemma_assoc_lookup(inner@, kc@, q);
                }
                let same = match q {
                    Some(j) => {
                        let prev = chars_of(inner[j].1.as_str());
                        chars_eq(prev.as_slice(), fc.as_slice())
                    },
                    None => false,
                };
                if !same {
                    assoc_set(&mut inner, kc.as_slice(), string_of(fc.as_slice()));
                }
                let ne = (name, inner);
                proof {
                    lemma_assoc_lookup_update(before, i as int, cc@, ne);
                }
                self.history.set(i, ne);
                proof {
                    assert(self.history@ =~= before.update(i as int, ne));
                }
                !same
            },
            None => {
                let mut inner: Vec<(String, String)> = Vec::new();
                let ghost empty = inner@;
                assoc_set(&mut inner, kc.as_slice(), string_of(fc.as_slice()));
                proof {
                    assert forall|k: Seq<char>| k != kc@ implies assoc_lookup(inner@, k) is None by {
                        assert(assoc_lookup(empty, k) is None);
                    }
                }
                let ne = (string_of(cc.as_slice()), inner);
                proof {
                    lemma_assoc_lookup_push(before, ne);
                }
                self.history.push(ne);
                true
            },
        }
    }

    /// Forgets everything but the categories whose names start with
    /// `network-` (their values feed speed calculations).
    pub fn reset(&mut self)
        ensures
            forall|c: Seq<char>|
                #[trigger] final(self).tracks(c) == (old(self).tracks(c) && has_prefix(
                    c,
                    "network-"@,
                )),
            forall|c: Seq<char>, k: Seq<char>|
                #[trigger] final(self).last_value(c, k) == if has_prefix(c, "network-"@) {
                    old(self).last_value(c, k)
                } else {
                    None
                },
    {
        let mut all_entries: Vec<(String, Vec<(String, String)>)> = Vec::new();
        std::mem::swap(&mut self.history, &mut all_entries);
        let ghost all = all_entries@;
        let prefix = chars_of("network-");
        proof {
            assert(all.take(0) =~= Seq::<(String, Vec<(String, String)>)>::empty());
        }
        for e in it: all_entries.into_iter()
            invariant
                it.seq() == all,
                prefix@ == "network-"@,
                forall|c: Seq<char>|
                    #[trigger] assoc_lookup(self.history@, c) == if has_prefix(c, prefix@) {
                        assoc_lookup(all.take(it.index() as int), c)
                    } else {
                        None
                    },
        {
            let ghost idx = it.index() as int;
            let ghost before = self.history@;
            let kc = chars_of(e.0.as_str());
            if starts_with(kc.as_slice(), prefix.as_slice()) {
                proof {
                    lemma_assoc_lookup_push(before, e);
                }
                self.history.push(e);
            }
            proof {
                let t1 = all.take(idx + 1);
                assert(t1.drop_last() == all.take(idx));
                assert(t1.last() == all[idx]);
            }
        }
        proof {
            assert(all.take(all.len() as int) == all);
        }
    }
}

/// Once a value is recorded, seeing the same value again reports no change.
pub proof fn lemma_same_value_unchanged(
    old: ChangeDetector,
    new: ChangeDetector,
    category: Seq<char>,
    key: Seq<char>,
    value: Seq<char>,
)
    requires
        recorded_value(old, new, category, key, value),
    ensures
        !(new.last_value(category, key) != Some(value)),
{
}

/// Recording a value for one sensor leaves what is known of every other
/// sensor as it was.
pub proof fn lemma_record_is_local(
    old: ChangeDetector,
    new: ChangeDetector,
    category: Seq<char>,
    key: Seq<char>,
    value: Seq<char>,
    other_category: Seq<char>,
    other_key: Seq<char>,
)
    requires
        recorded_value(old, new, category, key, value),
        other_category != category || other_key != key,
    ensures
        new.last_value(other_category, other_key) == old.last_value(other_category, other_key),
{
}

} // verus!
