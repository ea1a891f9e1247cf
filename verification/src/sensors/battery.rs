//! Battery logic: where a battery's `uevent` file is, the `KEY=value`
//! properties it holds, and the smoothing history of time-left estimates.
use crate::text::{
    char_views, chars_eq, chars_of, float_token, float_token_of, lines, lines_of, opt_str,
    push_str, replace_all, replace_chars, run_len, slice_copy, string_of, find_char, trim,
    trim_chars, decimal,
};
use vstd::prelude::*;

verus! {

broadcast use vstd::string::group_string_axioms;

/// The largest battery slot.
pub const MAX_BATTERY_SLOT: u8 = 7;

/// The names of the power-supply directories of the battery slots.
pub open spec fn battery_name(slot: u8) -> Seq<char> {
    if slot == 0 {
        "BAT0"@
    } else if slot == 1 {
        "BAT1"@
    } else if slot == 2 {
        "BAT2"@
    } else if slot == 3 {
        "BATT"@
    } else if slot == 4 {
        "CMB0"@
    } else if slot == 5 {
        "CMB1"@
    } else if slot == 6 {
        "CMB2"@
    } else {
        "macsmc-battery"@
    }
}

/// Different battery slots read different power-supply directories, and so
/// different `uevent` files; slots 0 to 2 are the batteries `BAT0` to `BAT2`,
/// and slots 4 to 6 the batteries `CMB0` to `CMB2`.
pub proof fn lemma_battery_slots_distinct(a: u8, b: u8)
    ensures
        a <= MAX_BATTERY_SLOT && b <= MAX_BATTERY_SLOT && a != b ==> battery_name(a) != battery_name(
            b,
        ),
        a <= MAX_BATTERY_SLOT && b <= MAX_BATTERY_SLOT && a != b ==> "/sys/class/power_supply/"@
            + battery_name(a) + "/uevent"@ != "/sys/class/power_supply/"@ + battery_name(b)
            + "/uevent"@,
        a < 3 ==> battery_name(a) == "BAT"@ + decimal(a as nat),
        4 <= a < 7 ==> battery_name(a) == "CMB"@ + decimal((a - 4) as nat),
{
    reveal_strlit("BAT0");
    reveal_strlit("BAT1");
    reveal_strlit("BAT2");
    reveal_strlit("BATT");
    reveal_strlit("CMB0");
    reveal_strlit("CMB1");
    reveal_strlit("CMB2");
    reveal_strlit("macsmc-battery");
    reveal_strlit("BAT");
    reveal_strlit("/sys/class/power_supply/");
    reveal_strlit("/uevent");
    let p = "/sys/class/power_supply/"@;
    let x = battery_name(a);
    let y = battery_name(b);
    if a <= MAX_BATTERY_SLOT && b <= MAX_BATTERY_SLOT && a != b {
        assert(x.len() != y.len() || x[0] != y[0] || x[3] != y[3]);
        let px = p + x + "/uevent"@;
        let py = p + y + "/uevent"@;
        if px == py {
            assert(px.subrange(p.len() as int, px.len() - 7) =~= x);
            assert(py.subrange(p.len() as int, py.len() - 7) =~= y);
        }
    }
    if a < 3 {
        assert(decimal(a as nat) == seq![crate::text::digit_char(a as nat)]);
        assert(battery_name(a) =~= "BAT"@ + decimal(a as nat));
    }
    if 4 <= a < 7 {
        reveal_strlit("CMB");
        assert(decimal((a - 4) as nat) == seq![crate::text::digit_char((a - 4) as nat)]);
        assert(battery_name(a) =~= "CMB"@ + decimal((a - 4) as nat));
    }
}

/// A battery slot limited to the known slots (0-7).
pub fn battery_slot(slot: u8) -> (r: u8)
    ensures
        r == if slot < MAX_BATTERY_SLOT {
            slot
        } else {
            MAX_BATTERY_SLOT
        },
{
    if slot < MAX_BATTERY_SLOT {
        slot
    } else {
        MAX_BATTERY_SLOT
    }
}

/// The `uevent` file of a battery slot:
/// `/sys/class/power_supply/<name>/uevent`.
pub fn uevent_path(slot: u8) -> (r: String)
    ensures
        r@ == "/sys/class/power_supply/"@ + battery_name(slot) + "/uevent"@,
{
    let name = if slot == 0 {
        "BAT0"
    } else if slot == 1 {
        "BAT1"
    } else if slot == 2 {
        "BAT2"
    } else if slot == 3 {
        "BATT"
    } else if slot == 4 {
        "CMB0"
    } else if slot == 5 {
        "CMB1"
    } else if slot == 6 {
        "CMB2"
    } else {
        "macsmc-battery"
    };
    let mut v = chars_of("/sys/class/power_supply/");
    push_str(&mut v, name);
    push_str(&mut v, "/uevent");
    string_of(v.as_slice())
}

// ---------------------------------------------------------------------------
// Properties
// ---------------------------------------------------------------------------

/// `line` split at its first `=` (as `str::split_once`).
pub open spec fn split_at_eq(line: Seq<char>) -> Option<(Seq<char>, Seq<char>)> {
    let n = run_len(line, '=');
    if n < line.len() {
        Some((line.take(n as int), line.skip((n + 1) as int)))
    } else {
        None
    }
}

/// The property a line defines: its key without `POWER_SUPPLY_`, and its
/// value, when the line has a `=`.
pub open spec fn line_property(line: Seq<char>) -> Option<(Seq<char>, Seq<char>)> {
    match split_at_eq(line) {
        Some((k, v)) => Some((replace_all(k, "POWER_SUPPLY_"@, ""@), v)),
        None => None,
    }
}

/// The properties defined by a sequence of lines, in order.
pub open spec fn properties(ls: Seq<Seq<char>>) -> Seq<(Seq<char>, Seq<char>)>
    decreases ls.len(),
{
    if ls.len() == 0 {
        seq![]
    } else {
        match line_property(ls.last()) {
            Some(p) => properties(ls.drop_last()).push(p),
            None => properties(ls.drop_last()),
        }
    }
}

/// The value of `key` among properties: the value of its last definition.
pub open spec fn property_value(ps: Seq<(Seq<char>, Seq<char>)>, key: Seq<char>) -> Option<
    Seq<char>,
>
    decreases ps.len(),
{
    if ps.len() == 0 {
        None
    } else if ps.last().0 == key {
        Some(ps.last().1)
    } else {
        property_value(ps.drop_last(), key)
    }
}

/// The `KEY=value` properties of a battery's `uevent` file.
pub struct UeventProps {
    entries: Vec<(String, String)>,
}

/// The plain-value content of property entries.
pub open spec fn entry_views(e: Seq<(String, String)>) -> Seq<(Seq<char>, Seq<char>)> {
    e.map_values(|p: (String, String)| (p.0@, p.1@))
}

impl UeventProps {
    /// The properties, in the order they are defined.
    pub closed spec fn spec_entries(&self) -> Seq<(Seq<char>, Seq<char>)> {
        entry_views(self.entries@)
    }

    /// The value of a property.
    pub fn get(&self, key: &str) -> (r: Option<String>)
        ensures
            opt_str(r) == property_value(self.spec_entries(), key@),
    {
        let k = chars_of(key);
        let ghost all = entry_views(self.entries@);
        let mut found: Option<usize> = None;
        let mut i: usize = 0;
        while i < self.entries.len()
            invariant
                i <= self.entries@.len(),
                all == entry_views(self.entries@),
                k@ == key@,
                match found {
                    Some(j) => j < i && all[j as int].0 == key@ && property_value(
                        all.take(i as int),
                        key@,
                    ) == Some(all[j as int].1),
                    None => property_value(all.take(i as int), key@) is None,
                },
            decreases self.entries@.len() - i,
        {
            proof {
                assert(all.take(i + 1).drop_last() == all.take(i as int));
                assert(all.take(i + 1).last() == all[i as int]);
            }
            let e = chars_of(self.entries[i].0.as_str());
            if chars_eq(e.as_slice(), k.as_slice()) {
                found = Some(i);
            }
            i = i + 1;
        }
        proof {
            assert(all.take(all.len() as int) == all);
        }
        match found {
            Some(j) => Some(self.entries[j].1.clone()),
            None => None,
        }
    }
}

/// Parses the `KEY=value` lines of a battery's `uevent` file; keys lose
/// their `POWER_SUPPLY_` prefix.
pub fn parse_uevent_props(contents: &str) -> (r: UeventProps)
    ensures
        r.spec_entries() == properties(lines(contents@)),
{
    let c = chars_of(contents);
    let ls = lines_of(c.as_slice());
    let ghost all = char_views(ls@);
    let prefix = chars_of("POWER_SUPPLY_");
    let empty: Vec<char> = Vec::new();
    proof {
        reveal_strlit("POWER_SUPPLY_");
        assert(empty@ == ""@) by {
            reveal_strlit("");
        }
    }
    let mut entries: Vec<(String, String)> = Vec::new();
    let mut i: usize = 0;
    proof {
        assert(all.take(0) =~= Seq::<Seq<char>>::empty());
        assert(entry_views(entries@) =~= Seq::<(Seq<char>, Seq<char>)>::empty());
    }
    while i < ls.len()
        invariant
            i <= ls@.len(),
            all == char_views(ls@),
            all == lines(contents@),
            prefix@ == "POWER_SUPPLY_"@,
            prefix@.len() > 0,
            empty@ == ""@,
            entry_views(entries@) == properties(all.take(i as int)),
        decreases ls@.len() - i,
    {
        proof {
            assert(all.take(i + 1).drop_last() == all.take(i as int));
            assert(all.take(i + 1).last() == ls@[i as int]@);
        }
        let line = ls[i].as_slice();
        let n = find_char(line, 0, '=');
        proof {
            assert(line@.skip(0) == line@);
        }
        if n < line.len() {
            let key = slice_copy(line, 0, n);
            let value = slice_copy(line, n + 1, line.len());
            let clean = replace_chars(key.as_slice(), prefix.as_slice(), empty.as_slice());
            let ghost before = entry_views(entries@);
            entries.push((string_of(clean.as_slice()), string_of(value.as_slice())));
            proof {
                assert(line@.take(n as int) == key@);
                assert(line@.skip(n + 1) == value@);
                assert(entry_views(entries@) =~= before.push((clean@, value@)));
            }
        }
        i = i + 1;
    }
    proof {
        assert(all.take(all.len() as int) == all);
    }
    UeventProps { entries }
}

/// A property value read as a number: trimmed, when `str::parse::<f64>`
/// accepts it.
pub fn number_token(value: &str) -> (r: Option<String>)
    ensures
        opt_str(r) == float_token(trim(value@)),
{
    let c = chars_of(value);
    let t = trim_chars(c.as_slice());
    float_token_of(t.as_slice())
}

// ---------------------------------------------------------------------------
// Charge status
// ---------------------------------------------------------------------------

/// Which way a battery's charge is going, by its status.
#[derive(Debug, Clone, Copy, PartialEq, Eq, Structural)]
pub enum ChargeDirection {
    Charging,
    Discharging,
}

/// The direction of a status: `Charging` and `Discharging` have one, other
/// statuses (`Full`, `Unknown`, ...) none.
pub open spec fn charge_direction_of(status: Seq<char>) -> Option<ChargeDirection> {
    if status == "Charging"@ {
        Some(ChargeDirection::Charging)
    } else if status == "Discharging"@ {
        Some(ChargeDirection::Discharging)
    } else {
        None
    }
}

/// The direction of a status. The power rate is reported negative while
/// discharging, and a time left is estimated only with a direction.
pub fn charge_direction(status: &str) -> (r: Option<ChargeDirection>)
    ensures
        r == charge_direction_of(status@),
{
    let c = chars_of(status);
    if crate::text::chars_eq_str(c.as_slice(), "Charging") {
        Some(ChargeDirection::Charging)
    } else if crate::text::chars_eq_str(c.as_slice(), "Discharging") {
        Some(ChargeDirection::Discharging)
    } else {
        None
    }
}

// ---------------------------------------------------------------------------
// Time-left smoothing
// ---------------------------------------------------------------------------

/// The number of time-left estimates averaged.
pub const TIME_LEFT_WINDOW: usize = 10;

/// The estimates after recording one: the history restarts when the charge
/// status changed, gets the new estimate, and keeps the last ten.
pub open spec fn recorded<T>(history: Seq<T>, status_changed: bool, value: T) -> Seq<T> {
    let h = if status_changed {
        seq![value]
    } else {
        history.push(value)
    };
    if h.len() > TIME_LEFT_WINDOW {
        h.drop_first()
    } else {
        h
    }
}

/// Records a time-left estimate taken while the battery was in `status`.
pub fn record_time_left<T>(
    history: &mut Vec<T>,
    charge_status: &mut String,
    status: &str,
    value: T,
)
    ensures
        final(history)@ == recorded(old(history)@, old(charge_status)@ != status@, value),
        final(charge_status)@ == status@,
{
    let cur = chars_of(charge_status.as_str());
    let st = chars_of(status);
    let changed = !chars_eq(cur.as_slice(), st.as_slice());
    if changed {
        history.clear();
        *charge_status = status.to_string();
    }
    history.push(value);
    proof {
        if changed {
            assert(history@ =~= seq![value]);
        }
    }
    if history.len() > TIME_LEFT_WINDOW {
        history.remove(0);
        proof {
            assert(history@ =~= recorded(old(history)@, old(charge_status)@ != status@, value));
        }
    }
}

/// The battery provider's state: the slot read, and the recent time-left
/// estimates with the charge status they were taken in.
pub struct BatteryProvider<T> {
    slot: u8,
    time_left_history: Vec<T>,
    charge_status: String,
}

impl<T> BatteryProvider<T> {
    /// The slot read.
    pub closed spec fn slot_spec(&self) -> u8 {
        self.slot
    }

    /// The recent time-left estimates, oldest first.
    pub closed spec fn history_spec(&self) -> Seq<T> {
        self.time_left_history@
    }

    /// The charge status of the recent estimates.
    pub closed spec fn status_spec(&self) -> Seq<char> {
        self.charge_status@
    }

    /// A provider for a battery slot (at most the last known slot), with no
    /// estimates yet.
    pub fn new(slot: u8) -> (r: Self)
        ensures
            r.slot_spec() == if slot < MAX_BATTERY_SLOT {
                slot
            } else {
                MAX_BATTERY_SLOT
            },
            r.history_spec() == Seq::<T>::empty(),
            r.status_spec() == Seq::<char>::empty(),
    {
        BatteryProvider {
            slot: battery_slot(slot),
            time_left_history: Vec::new(),
            charge_status: String::new(),
        }
    }

    /// The slot read.
    pub fn slot(&self) -> (r: u8)
        ensures
            r == self.slot_spec(),
    {
        self.slot
    }

    /// The recent time-left estimates, oldest first.
    pub fn time_left_history(&self) -> (r: &Vec<T>)
        ensures
            r@ == self.history_spec(),
    {
        &self.time_left_history
    }

    /// Records a time-left estimate taken while the battery was in `status`
    /// (see `record_time_left`).
    pub fn record_time_left(&mut self, status: &str, value: T)
        ensures
            final(self).history_spec() == recorded(
                old(self).history_spec(),
                old(self).status_spec() != status@,
                value,
            ),
            final(self).status_spec() == status@,
            final(self).slot_spec() == old(self).slot_spec(),
    {
        record_time_left(&mut self.time_left_history, &mut self.charge_status, status, value);
    }
}

/// However long the history was, recording an estimate leaves at most ten,
/// the newest last.
pub proof fn lemma_recorded_window<T>(history: Seq<T>, status_changed: bool, value: T)
    requires
        history.len() <= TIME_LEFT_WINDOW,
    ensures
        recorded(history, status_changed, value).len() <= TIME_LEFT_WINDOW,
        recorded(history, status_changed, value).len() >= 1,
        recorded(history, status_changed, value).last() == value,
{
}

} // verus!
