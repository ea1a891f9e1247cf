//! Network readings: interface byte counters and WiFi quality, parsed from
//! `/sys/class/net/*/statistics/*_bytes` and `/proc/net/wireless`.
use crate::text::{
    char_views, chars_eq_str, chars_of, float_token, float_token_of, lines, lines_of, opt_str,
    push_str, string_of, trim_end_char, trim_end_char_of, words, words_of,
};
use vstd::prelude::*;

verus! {

broadcast use vstd::string::group_string_axioms;

/// The WiFi fields of one interface line of `/proc/net/wireless`.
pub struct WirelessFields {
    /// The link quality, when it is a number (out of 70).
    pub quality: Option<String>,
    /// The signal level, when it is a number.
    pub signal: Option<String>,
}

/// The plain-value content of a wireless line.
pub struct WirelessView {
    pub quality: Option<Seq<char>>,
    pub signal: Option<Seq<char>>,
}

impl WirelessFields {
    pub open spec fn view(&self) -> WirelessView {
        WirelessView { quality: opt_str(self.quality), signal: opt_str(self.signal) }
    }
}

/// The fields of one line: the third and fourth words without trailing dots,
/// when they are numbers.
pub open spec fn wireless_fields(line: Seq<char>) -> WirelessView {
    let w = words(line);
    WirelessView {
        quality: float_token(trim_end_char(w[2], '.')),
        signal: float_token(trim_end_char(w[3], '.')),
    }
}

/// The interface lines of the file: every line after the two header lines
/// that has at least four words, with its fields.
pub open spec fn wireless_lines(ls: Seq<Seq<char>>) -> Seq<WirelessView>
    decreases ls.len(),
{
    if ls.len() <= 2 {
        seq![]
    } else if words(ls.last()).len() >= 4 {
        wireless_lines(ls.drop_last()).push(wireless_fields(ls.last()))
    } else {
        wireless_lines(ls.drop_last())
    }
}

/// How often the public address is looked up, in milliseconds.
pub const PUBLIC_IP_PERIOD_MS: i128 = 3_600_000;

/// The network provider's state: whether the public address is reported,
/// the time left before it is looked up again, and the address last found.
pub struct NetworkProvider {
    include_public_ip: bool,
    next_ip_check_ms: i128,
    cached_public_ip: Option<String>,
}

/// A lookup is due when the countdown has run out; it then restarts at one
/// period. Either way the time since the last query is taken off.
pub open spec fn next_countdown(next: int, dwell_ms: int) -> int {
    if next <= 0 {
        PUBLIC_IP_PERIOD_MS - dwell_ms
    } else {
        next - dwell_ms
    }
}

/// The text field `field` of the JSON object `text`, as serde_json reads it.
pub uninterp spec fn json_string_field(text: Seq<char>, field: Seq<char>) -> Option<Seq<char>>;

/// Reads `text` as JSON with `serde_json::from_str` and returns the string
/// value of member `field` (`Value::get`, `Value::as_str`); `None` when the
/// text is no JSON, the member is missing or is no string. The result is only
/// named, as a function of `text` and `field`.
#[verifier::external_body]
fn json_string_member(text: &str, field: &str) -> (r: Option<String>)
    ensures
        opt_str(r) == json_string_field(text@, field@),
{
    serde_json::from_str::<serde_json::Value>(text)
        .ok()
        .and_then(|v| v.get(field).and_then(|x| x.as_str()).map(|s| s.to_string()))
}

impl NetworkProvider {
    /// The countdown stays where a query's time can be taken off it.
    #[verifier::type_invariant]
    spec fn countdown_in_range(&self) -> bool {
        -(u64::MAX as int) <= self.next_ip_check_ms <= PUBLIC_IP_PERIOD_MS
    }

    /// Whether the public address is reported.
    pub closed spec fn reports_public_ip(&self) -> bool {
        self.include_public_ip
    }

    /// Whether the public address is reported.
    pub fn include_public_ip(&self) -> (r: bool)
        ensures
            r == self.reports_public_ip(),
    {
        self.include_public_ip
    }

    /// Whether the public-address lookup is due.
    pub closed spec fn ip_check_due(&self) -> bool {
        self.next_ip_check_ms <= 0
    }

    /// The countdown before the next public-address lookup.
    pub closed spec fn countdown(&self) -> int {
        self.next_ip_check_ms as int
    }

    /// The public address last found.
    pub closed spec fn public_ip_view(&self) -> Option<Seq<char>> {
        opt_str(self.cached_public_ip)
    }

    /// A provider that reports the public address when asked to; the first
    /// query looks it up.
    pub fn new(include_public_ip: bool) -> (r: Self)
        ensures
            r.reports_public_ip() == include_public_ip,
            r.countdown() == 0,
            r.ip_check_due(),
            r.public_ip_view() is None,
    {
        NetworkProvider { include_public_ip, next_ip_check_ms: 0, cached_public_ip: None }
    }

    /// Advances the lookup countdown by a query `dwell_ms` milliseconds after
    /// the previous one, and says whether the address is to be looked up now.
    pub fn begin_ip_check(&mut self, dwell_ms: u64) -> (due: bool)
        ensures
            due == old(self).ip_check_due(),
            final(self).countdown() == next_countdown(old(self).countdown(), dwell_ms as int),
            final(self).public_ip_view() == old(self).public_ip_view(),
            final(self).reports_public_ip() == old(self).reports_public_ip(),
    {
        proof {
            use_type_invariant(&*self);
        }
        let due = self.next_ip_check_ms <= 0;
        let start: i128 = if due {
            PUBLIC_IP_PERIOD_MS
        } else {
            self.next_ip_check_ms
        };
        self.next_ip_check_ms = start - dwell_ms as i128;
        due
    }

    /// Takes the answer of the address service: the `IPv4` member of a JSON
    /// object becomes the known public address; anything else leaves it.
    pub fn record_public_ip(&mut self, response: &str)
        ensures
            final(self).public_ip_view() == match json_string_field(response@, "IPv4"@) {
                Some(ip) => Some(ip),
                None => old(self).public_ip_view(),
            },
            final(self).countdown() == old(self).countdown(),
            final(self).reports_public_ip() == old(self).reports_public_ip(),
    {
        let ip = json_string_member(response, "IPv4");
        self.take_public_ip(ip);
    }

    /// Takes the `IPv4` member read from the address service's answer: an
    /// address becomes the known public address; none leaves it.
    pub fn take_public_ip(&mut self, ip: Option<String>)
        ensures
            final(self).public_ip_view() == match opt_str(ip) {
                Some(a) => Some(a),
                None => old(self).public_ip_view(),
            },
            final(self).countdown() == old(self).countdown(),
            final(self).reports_public_ip() == old(self).reports_public_ip(),
    {
        proof {
            use_type_invariant(&*self);
        }
        match ip {
            Some(a) => self.cached_public_ip = Some(a),
            None => {},
        }
    }

    /// The public address last found.
    pub fn public_ip(&self) -> (r: Option<String>)
        ensures
            opt_str(r) == self.public_ip_view(),
    {
        match &self.cached_public_ip {
            Some(ip) => Some(string_of(chars_of(ip.as_str()).as_slice())),
            None => None,
        }
    }

    /// The WiFi fields of `/proc/net/wireless`, one entry per interface line.
    pub fn parse_wireless(contents: &str) -> (r: Vec<WirelessFields>)
        ensures
            r@.map_values(|f: WirelessFields| f.view()) == wireless_lines(lines(contents@)),
    {
        let c = chars_of(contents);
        let ls = lines_of(c.as_slice());
        let ghost all = char_views(ls@);
        let mut r: Vec<WirelessFields> = Vec::new();
        let mut i: usize = 0;
        proof {
            assert(r@.map_values(|f: WirelessFields| f.view()) =~= Seq::<WirelessView>::empty());
        }
        while i < ls.len()
            invariant
                i <= ls@.len(),
                all == char_views(ls@),
                all == lines(contents@),
                r@.map_values(|f: WirelessFields| f.view()) == wireless_lines(all.take(i as int)),
            decreases ls@.len() - i,
        {
            proof {
                assert(all.take(i + 1).drop_last() == all.take(i as int));
                assert(all.take(i + 1).last() == ls@[i as int]@);
            }
            if i >= 2 {
                let parts = words_of(ls[i].as_slice());
                if parts.len() >= 4 {
                    proof {
                        assert(char_views(parts@)[2] == parts@[2]@);
                        assert(char_views(parts@)[3] == parts@[3]@);
                    }
                    let q = trim_end_char_of(parts[2].as_slice(), '.');
                    let s = trim_end_char_of(parts[3].as_slice(), '.');
                    let f = WirelessFields {
                        quality: float_token_of(q.as_slice()),
                        signal: float_token_of(s.as_slice()),
                    };
                    let ghost before = r@.map_values(|f: WirelessFields| f.view());
                    r.push(f);
                    proof {
                        assert(r@.map_values(|f: WirelessFields| f.view()) =~= before.push(
                            f.view(),
                        ));
                    }
                }
            } else {
                proof {
                    assert(wireless_lines(all.take(i + 1)) == Seq::<WirelessView>::empty());
                }
            }
            i = i + 1;
        }
        proof {
            assert(all.take(all.len() as int) == all);
        }
        r
    }
}

/// Whether an interface counter is reported: all of them but the loopback
/// interface's receive counter, which equals its transmit counter.
pub open spec fn reports_counter(iface: Seq<char>, direction: Seq<char>) -> bool {
    !(iface == "lo"@ && direction == "rx"@)
}

/// Whether an interface counter is reported.
pub fn reports_interface_counter(iface: &str, direction: &str) -> (r: bool)
    ensures
        r == reports_counter(iface@, direction@),
{
    let i = chars_of(iface);
    let d = chars_of(direction);
    !(chars_eq_str(i.as_slice(), "lo") && chars_eq_str(d.as_slice(), "rx"))
}

/// The key of an interface counter: `_network_<iface>_<direction>_`.
pub open spec fn counter_key(iface: Seq<char>, direction: Seq<char>) -> Seq<char> {
    "_network_"@ + iface + "_"@ + direction + "_"@
}

/// The label of an interface counter: the interface name for the loopback
/// interface, `<iface> <direction>` otherwise.
pub open spec fn counter_label(iface: Seq<char>, direction: Seq<char>) -> Seq<char> {
    if iface == "lo"@ {
        iface
    } else {
        iface + " "@ + direction
    }
}

/// The key of an interface counter.
pub fn interface_counter_key(iface: &str, direction: &str) -> (r: String)
    ensures
        r@ == counter_key(iface@, direction@),
{
    let mut v = chars_of("_network_");
    push_str(&mut v, iface);
    push_str(&mut v, "_");
    push_str(&mut v, direction);
    push_str(&mut v, "_");
    string_of(v.as_slice())
}

/// The label of an interface counter.
pub fn interface_counter_label(iface: &str, direction: &str) -> (r: String)
    ensures
        r@ == counter_label(iface@, direction@),
{
    let i = chars_of(iface);
    if chars_eq_str(i.as_slice(), "lo") {
        iface.to_string()
    } else {
        let mut v = i;
        push_str(&mut v, " ");
        push_str(&mut v, direction);
        string_of(v.as_slice())
    }
}

/// After a lookup, the next one waits until queries totalling a full period
/// have passed: a lookup is never due again sooner.
pub proof fn lemma_lookup_spacing(next: int, dwells: Seq<int>)
    requires
        next <= 0,
        forall|i: int| 0 <= i < dwells.len() ==> #[trigger] dwells[i] >= 0,
        dwells.fold_left(0int, |acc: int, d: int| acc + d) < PUBLIC_IP_PERIOD_MS,
    ensures
        countdown_after(next_countdown(next, 0), dwells) > 0,
    decreases dwells.len(),
{
    lemma_countdown_after_sum(next_countdown(next, 0), dwells);
}

/// The countdown after queries with the given dwells, when no lookup became
/// due in between.
pub open spec fn countdown_after(start: int, dwells: Seq<int>) -> int
    decreases dwells.len(),
{
    if dwells.len() == 0 {
        start
    } else {
        next_countdown(countdown_after(start, dwells.drop_last()), dwells.last())
    }
}

proof fn lemma_countdown_after_sum(start: int, dwells: Seq<int>)
    requires
        start == PUBLIC_IP_PERIOD_MS,
        forall|i: int| 0 <= i < dwells.len() ==> #[trigger] dwells[i] >= 0,
        dwells.fold_left(0int, |acc: int, d: int| acc + d) < PUBLIC_IP_PERIOD_MS,
    ensures
        countdown_after(start, dwells) == start - dwells.fold_left(0int, |acc: int, d: int| acc + d),
    decreases dwells.len(),
{
    if dwells.len() > 0 {
        let f = |acc: int, d: int| acc + d;
        assert(dwells.fold_left(0int, f) == dwells.drop_last().fold_left(0int, f) + dwells.last());
        lemma_countdown_after_sum(start, dwells.drop_last());
    }
}

} // verus!
