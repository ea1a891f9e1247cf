//! Sensor categories and reading formats shared by all providers.
pub mod battery;
pub mod fan;
pub mod gpu;
pub mod memory;
pub mod network;
pub mod processor;
pub mod storage;
pub mod system;
pub mod temperature;

use crate::config::AppConfig;
use crate::text::{
    chars_eq_str, chars_of, decimal, decimal_chars, string_of,
};
use vstd::prelude::*;

verus! {

broadcast use vstd::string::group_string_axioms;

/// Identifies which category a sensor belongs to.
#[derive(Debug, Clone, Copy, PartialEq, Eq, Hash, Structural)]
pub enum SensorCategory {
    Temperature,
    Voltage,
    Fan,
    Memory,
    Processor,
    System,
    Network,
    Storage,
    Battery,
    Gpu(u8),
}

/// The lower-case name of a category, as it appears in sensor keys.
pub open spec fn category_name(c: SensorCategory) -> Seq<char> {
    match c {
        SensorCategory::Temperature => "temperature"@,
        SensorCategory::Voltage => "voltage"@,
        SensorCategory::Fan => "fan"@,
        SensorCategory::Memory => "memory"@,
        SensorCategory::Processor => "processor"@,
        SensorCategory::System => "system"@,
        SensorCategory::Network => "network"@,
        SensorCategory::Storage => "storage"@,
        SensorCategory::Battery => "battery"@,
        SensorCategory::Gpu(n) => "gpu#"@ + decimal(n as nat),
    }
}

impl SensorCategory {
    /// The category's name as characters.
    pub fn name_chars(&self) -> (r: Vec<char>)
        ensures
            r@ == category_name(*self),
    {
        match self {
            SensorCategory::Temperature => chars_of("temperature"),
            SensorCategory::Voltage => chars_of("voltage"),
            SensorCategory::Fan => chars_of("fan"),
            SensorCategory::Memory => chars_of("memory"),
            SensorCategory::Processor => chars_of("processor"),
            SensorCategory::System => chars_of("system"),
            SensorCategory::Network => chars_of("network"),
            SensorCategory::Storage => chars_of("storage"),
            SensorCategory::Battery => chars_of("battery"),
            SensorCategory::Gpu(n) => {
                let mut r = chars_of("gpu#");
                let d = decimal_chars(*n as u64);
                crate::text::push_all(&mut r, d.as_slice());
                r
            },
        }
    }

    /// The category's name (what the category displays as).
    pub fn to_display_string(&self) -> (r: String)
        ensures
            r@ == category_name(*self),
    {
        let v = self.name_chars();
        string_of(v.as_slice())
    }
}

/// The physical unit/format of a reading.
#[derive(Debug, Clone, Copy, PartialEq, Eq, Hash, Structural)]
pub enum SensorFormat {
    Percent,
    Temp,
    Fan,
    Voltage,
    Hertz,
    Memory,
    Storage,
    Speed,
    Uptime,
    Runtime,
    Watt,
    WattGpu,
    WattHour,
    Milliamp,
    MilliampHour,
    Load,
    Pcie,
    StringVal,
}

/// The serialization key of a format.
pub open spec fn format_name(f: SensorFormat) -> Seq<char> {
    match f {
        SensorFormat::Percent => "percent"@,
        SensorFormat::Temp => "temp"@,
        SensorFormat::Fan => "fan"@,
        SensorFormat::Voltage => "in"@,
        SensorFormat::Hertz => "hertz"@,
        SensorFormat::Memory => "memory"@,
        SensorFormat::Storage => "storage"@,
        SensorFormat::Speed => "speed"@,
        SensorFormat::Uptime => "uptime"@,
        SensorFormat::Runtime => "runtime"@,
        SensorFormat::Watt => "watt"@,
        SensorFormat::WattGpu => "watt-gpu"@,
        SensorFormat::WattHour => "watt-hour"@,
        SensorFormat::Milliamp => "milliamp"@,
        SensorFormat::MilliampHour => "milliamp-hour"@,
        SensorFormat::Load => "load"@,
        SensorFormat::Pcie => "pcie"@,
        SensorFormat::StringVal => "string"@,
    }
}

/// Whether readings of a format can be graphed in the history view.
pub open spec fn graphable(f: SensorFormat) -> bool {
    match f {
        SensorFormat::Temp | SensorFormat::Voltage | SensorFormat::Fan | SensorFormat::Percent
        | SensorFormat::Hertz | SensorFormat::Memory | SensorFormat::Speed
        | SensorFormat::Storage | SensorFormat::Watt | SensorFormat::WattGpu
        | SensorFormat::Milliamp | SensorFormat::MilliampHour | SensorFormat::Load => true,
        _ => false,
    }
}

/// The format whose serialization key is `s`, if any.
pub open spec fn format_from_name(s: Seq<char>) -> Option<SensorFormat> {
    if s == "percent"@ {
        Some(SensorFormat::Percent)
    } else if s == "temp"@ {
        Some(SensorFormat::Temp)
    } else if s == "fan"@ {
        Some(SensorFormat::Fan)
    } else if s == "in"@ {
        Some(SensorFormat::Voltage)
    } else if s == "hertz"@ {
        Some(SensorFormat::Hertz)
    } else if s == "memory"@ {
        Some(SensorFormat::Memory)
    } else if s == "storage"@ {
        Some(SensorFormat::Storage)
    } else if s == "speed"@ {
        Some(SensorFormat::Speed)
    } else if s == "uptime"@ {
        Some(SensorFormat::Uptime)
    } else if s == "runtime"@ {
        Some(SensorFormat::Runtime)
    } else if s == "watt"@ {
        Some(SensorFormat::Watt)
    } else if s == "watt-gpu"@ {
        Some(SensorFormat::WattGpu)
    } else if s == "watt-hour"@ {
        Some(SensorFormat::WattHour)
    } else if s == "milliamp"@ {
        Some(SensorFormat::Milliamp)
    } else if s == "milliamp-hour"@ {
        Some(SensorFormat::MilliampHour)
    } else if s == "load"@ {
        Some(SensorFormat::Load)
    } else if s == "pcie"@ {
        Some(SensorFormat::Pcie)
    } else if s == "string"@ {
        Some(SensorFormat::StringVal)
    } else {
        None
    }
}

impl SensorFormat {
    /// Returns the string key used in serialization.
    pub fn as_str(&self) -> (r: &'static str)
        ensures
            r@ == format_name(*self),
    {
        match self {
            SensorFormat::Percent => "percent",
            SensorFormat::Temp => "temp",
            SensorFormat::Fan => "fan",
            SensorFormat::Voltage => "in",
            SensorFormat::Hertz => "hertz",
            SensorFormat::Memory => "memory",
            SensorFormat::Storage => "storage",
            SensorFormat::Speed => "speed",
            SensorFormat::Uptime => "uptime",
            SensorFormat::Runtime => "runtime",
            SensorFormat::Watt => "watt",
            SensorFormat::WattGpu => "watt-gpu",
            SensorFormat::WattHour => "watt-hour",
            SensorFormat::Milliamp => "milliamp",
            SensorFormat::MilliampHour => "milliamp-hour",
            SensorFormat::Load => "load",
            SensorFormat::Pcie => "pcie",
            SensorFormat::StringVal => "string",
        }
    }

    /// Whether this format can be graphed in the history view.
    pub fn is_graphable(&self) -> (r: bool)
        ensures
            r == graphable(*self),
    {
        match self {
            SensorFormat::Temp | SensorFormat::Voltage | SensorFormat::Fan
            | SensorFormat::Percent | SensorFormat::Hertz | SensorFormat::Memory
            | SensorFormat::Speed | SensorFormat::Storage | SensorFormat::Watt
            | SensorFormat::WattGpu | SensorFormat::Milliamp | SensorFormat::MilliampHour
            | SensorFormat::Load => true,
            _ => false,
        }
    }
}

/// Converts a serialization key back into a format.
pub fn parse_format_str(s: &str) -> (r: Option<SensorFormat>)
    ensures
        r == format_from_name(s@),
{
    let cs = chars_of(s);
    let c = cs.as_slice();
    if chars_eq_str(c, "percent") {
        Some(SensorFormat::Percent)
    } else if chars_eq_str(c, "temp") {
        Some(SensorFormat::Temp)
    } else if chars_eq_str(c, "fan") {
        Some(SensorFormat::Fan)
    } else if chars_eq_str(c, "in") {
        Some(SensorFormat::Voltage)
    } else if chars_eq_str(c, "hertz") {
        Some(SensorFormat::Hertz)
    } else if chars_eq_str(c, "memory") {
        Some(SensorFormat::Memory)
    } else if chars_eq_str(c, "storage") {
        Some(SensorFormat::Storage)
    } else if chars_eq_str(c, "speed") {
        Some(SensorFormat::Speed)
    } else if chars_eq_str(c, "uptime") {
        Some(SensorFormat::Uptime)
    } else if chars_eq_str(c, "runtime") {
        Some(SensorFormat::Runtime)
    } else if chars_eq_str(c, "watt") {
        Some(SensorFormat::Watt)
    } else if chars_eq_str(c, "watt-gpu") {
        Some(SensorFormat::WattGpu)
    } else if chars_eq_str(c, "watt-hour") {
        Some(SensorFormat::WattHour)
    } else if chars_eq_str(c, "milliamp") {
        Some(SensorFormat::Milliamp)
    } else if chars_eq_str(c, "milliamp-hour") {
        Some(SensorFormat::MilliampHour)
    } else if chars_eq_str(c, "load") {
        Some(SensorFormat::Load)
    } else if chars_eq_str(c, "pcie") {
        Some(SensorFormat::Pcie)
    } else if chars_eq_str(c, "string") {
        Some(SensorFormat::StringVal)
    } else {
        None
    }
}

proof fn lemma_format_names_known()
    ensures
        "percent"@.len() == 7 && "percent"@[0] == 'p',
        "temp"@.len() == 4 && "temp"@[0] == 't',
        "fan"@.len() == 3 && "fan"@[0] == 'f',
        "in"@.len() == 2 && "in"@[0] == 'i',
        "hertz"@.len() == 5 && "hertz"@[0] == 'h',
        "memory"@.len() == 6 && "memory"@[0] == 'm',
        "storage"@.len() == 7 && "storage"@[0] == 's',
        "speed"@.len() == 5 && "speed"@[0] == 's',
        "uptime"@.len() == 6 && "uptime"@[0] == 'u',
        "runtime"@.len() == 7 && "runtime"@[0] == 'r',
        "watt"@.len() == 4 && "watt"@[0] == 'w',
        "watt-gpu"@.len() == 8 && "watt-gpu"@[0] == 'w',
        "watt-hour"@.len() == 9 && "watt-hour"@[0] == 'w',
        "milliamp"@.len() == 8 && "milliamp"@[0] == 'm',
        "milliamp-hour"@.len() == 13 && "milliamp-hour"@[0] == 'm',
        "load"@.len() == 4 && "load"@[0] == 'l',
        "pcie"@.len() == 4 && "pcie"@[0] == 'p',
        "string"@.len() == 6 && "string"@[0] == 's',
{
    reveal_strlit("percent");
    assert("percent"@.len() == 7 && "percent"@[0] == 'p');
    reveal_strlit("temp");
    assert("temp"@.len() == 4 && "temp"@[0] == 't');
    reveal_strlit("fan");
    assert("fan"@.len() == 3 && "fan"@[0] == 'f');
    reveal_strlit("in");
    assert("in"@.len() == 2 && "in"@[0] == 'i');
    reveal_strlit("hertz");
    assert("hertz"@.len() == 5 && "hertz"@[0] == 'h');
    reveal_strlit("memory");
    assert("memory"@.len() == 6 && "memory"@[0] == 'm');
    reveal_strlit("storage");
    assert("storage"@.len() == 7 && "storage"@[0] == 's');
    reveal_strlit("speed");
    assert("speed"@.len() == 5 && "speed"@[0] == 's');
    reveal_strlit("uptime");
    assert("uptime"@.len() == 6 && "uptime"@[0] == 'u');
    reveal_strlit("runtime");
    assert("runtime"@.len() == 7 && "runtime"@[0] == 'r');
    reveal_strlit("watt");
    assert("watt"@.len() == 4 && "watt"@[0] == 'w');
    reveal_strlit("watt-gpu");
    assert("watt-gpu"@.len() == 8 && "watt-gpu"@[0] == 'w');
    reveal_strlit("watt-hour");
    assert("watt-hour"@.len() == 9 && "watt-hour"@[0] == 'w');
    reveal_strlit("milliamp");
    assert("milliamp"@.len() == 8 && "milliamp"@[0] == 'm');
    reveal_strlit("milliamp-hour");
    assert("milliamp-hour"@.len() == 13 && "milliamp-hour"@[0] == 'm');
    reveal_strlit("load");
    assert("load"@.len() == 4 && "load"@[0] == 'l');
    reveal_strlit("pcie");
    assert("pcie"@.len() == 4 && "pcie"@[0] == 'p');
    reveal_strlit("string");
    assert("string"@.len() == 6 && "string"@[0] == 's');
}

/// Reading a format's serialization key back gives the same format:
/// `parse_format_str(f.as_str()) == Some(f)` for every format `f`.
pub proof fn lemma_format_name_roundtrip(f: SensorFormat)
    ensures
        format_from_name(format_name(f)) == Some(f),
{
    lemma_format_names_known();
}

/// Distinct formats have distinct serialization keys.
pub proof fn lemma_format_name_injective(f: SensorFormat, g: SensorFormat)
    requires
        format_name(f) == format_name(g),
    ensures
        f == g,
{
    lemma_format_name_roundtrip(f);
    lemma_format_name_roundtrip(g);
}

/// A sensor provider to run, with the settings it is made with.
#[derive(Debug)]
pub enum ProviderKind {
    Temperature,
    Voltage,
    Fan,
    Memory,
    Processor { include_static_info: bool },
    System { include_static_info: bool },
    Network { include_public_ip: bool },
    Storage { path: String },
    Battery { slot: u8 },
    Gpu { update_time: u32, include_static_info: bool },
}

/// Two provider kinds agree, paths compared by their characters.
pub open spec fn same_kind(a: ProviderKind, b: ProviderKind) -> bool {
    match (a, b) {
        (ProviderKind::Storage { path: p }, ProviderKind::Storage { path: q }) => p@ == q@,
        _ => a == b,
    }
}

/// `k` as a one-element plan when `show` is set.
#[verifier::opaque]
pub open spec fn shown(show: bool, k: ProviderKind) -> Seq<ProviderKind> {
    if show {
        seq![k]
    } else {
        seq![]
    }
}

/// The providers run for a configuration, in polling order: one per shown
/// category. The system provider follows the processor's static-info setting.
pub open spec fn plan_of(c: AppConfig) -> Seq<ProviderKind> {
    shown(c.temperature.show, ProviderKind::Temperature) + shown(c.voltage.show, ProviderKind::Voltage)
        + shown(c.fan.show, ProviderKind::Fan) + shown(c.memory.show, ProviderKind::Memory) + shown(
        c.processor.show,
        ProviderKind::Processor { include_static_info: c.processor.include_static_info },
    ) + shown(
        c.system.show,
        ProviderKind::System { include_static_info: c.processor.include_static_info },
    ) + shown(
        c.network.show,
        ProviderKind::Network { include_public_ip: c.network.include_public_ip },
    ) + shown(c.storage.show, ProviderKind::Storage { path: c.storage.path }) + shown(
        c.battery.show,
        ProviderKind::Battery { slot: c.battery.slot },
    ) + shown(
        c.gpu.show,
        ProviderKind::Gpu {
            update_time: c.general.update_time,
            include_static_info: c.gpu.include_static_info,
        },
    )
}

/// `r` agrees with `plan` kind by kind.
#[verifier::opaque]
pub open spec fn agrees(r: Seq<ProviderKind>, plan: Seq<ProviderKind>) -> bool {
    r.len() == plan.len() && forall|i: int| 0 <= i < r.len() ==> same_kind(#[trigger] r[i], plan[i])
}

proof fn lemma_agrees_empty()
    ensures
        agrees(Seq::<ProviderKind>::empty(), Seq::<ProviderKind>::empty()),
{
    reveal(agrees);
}

/// Appends `k` when `show` is set.
fn push_shown(
    plan: &mut Vec<ProviderKind>,
    show: bool,
    k: ProviderKind,
    Ghost(spec_k): Ghost<ProviderKind>,
    Ghost(done): Ghost<Seq<ProviderKind>>,
)
    requires
        same_kind(k, spec_k),
        agrees(old(plan)@, done),
    ensures
        agrees(final(plan)@, done + shown(show, spec_k)),
{
    proof {
        reveal(agrees);
        reveal(shown);
    }
    if show {
        plan.push(k);
    }
    proof {
        let t = done + shown(show, spec_k);
        assert forall|i: int| 0 <= i < plan@.len() implies same_kind(#[trigger] plan@[i], t[i]) by {
            if i < done.len() {
                assert(t[i] == done[i]);
            }
        }
    }
}

/// The providers to run for a configuration (see `plan_of`).
#[verifier::rlimit(80)]
pub fn provider_plan(config: &AppConfig) -> (r: Vec<ProviderKind>)
    ensures
        agrees(r@, plan_of(*config)),
{
    let c = config;
    let mut r: Vec<ProviderKind> = Vec::new();
    let ghost d0 = Seq::<ProviderKind>::empty();
    proof {
        lemma_agrees_empty();
    }
    push_shown(&mut r, c.temperature.show, ProviderKind::Temperature, Ghost(ProviderKind::Temperature), Ghost(d0));
    let ghost d1 = d0 + shown(c.temperature.show, ProviderKind::Temperature);
    push_shown(&mut r, c.voltage.show, ProviderKind::Voltage, Ghost(ProviderKind::Voltage), Ghost(d1));
    let ghost d2 = d1 + shown(c.voltage.show, ProviderKind::Voltage);
    push_shown(&mut r, c.fan.show, ProviderKind::Fan, Ghost(ProviderKind::Fan), Ghost(d2));
    let ghost d3 = d2 + shown(c.fan.show, ProviderKind::Fan);
    push_shown(&mut r, c.memory.show, ProviderKind::Memory, Ghost(ProviderKind::Memory), Ghost(d3));
    let ghost d4 = d3 + shown(c.memory.show, ProviderKind::Memory);
    let k = ProviderKind::Processor { include_static_info: c.processor.include_static_info };
    push_shown(&mut r, c.processor.show, k, Ghost(k), Ghost(d4));
    let ghost d5 = d4 + shown(c.processor.show, k);
    let k = ProviderKind::System { include_static_info: c.processor.include_static_info };
    push_shown(&mut r, c.system.show, k, Ghost(k), Ghost(d5));
    let ghost d6 = d5 + shown(c.system.show, k);
    let k = ProviderKind::Network { include_public_ip: c.network.include_public_ip };
    push_shown(&mut r, c.network.show, k, Ghost(k), Ghost(d6));
    let ghost d7 = d6 + shown(c.network.show, k);
    let path = string_of(chars_of(c.storage.path.as_str()).as_slice());
    let ghost sk = ProviderKind::Storage { path: c.storage.path };
    push_shown(&mut r, c.storage.show, ProviderKind::Storage { path }, Ghost(sk), Ghost(d7));
    let ghost d8 = d7 + shown(c.storage.show, sk);
    let k = ProviderKind::Battery { slot: c.battery.slot };
    push_shown(&mut r, c.battery.show, k, Ghost(k), Ghost(d8));
    let ghost d9 = d8 + shown(c.battery.show, k);
    let k = ProviderKind::Gpu {
        update_time: c.general.update_time,
        include_static_info: c.gpu.include_static_info,
    };
    push_shown(&mut r, c.gpu.show, k, Ghost(k), Ghost(d9));
    proof {
        assert(d0 + shown(c.temperature.show, ProviderKind::Temperature) =~= shown(
            c.temperature.show,
            ProviderKind::Temperature,
        ));
    }
    r
}

/// Whether the providers have been asked to discover their sensors: they are
/// on the first poll only.
pub struct PollState {
    discovered: bool,
}

impl PollState {
    /// Whether discovery has been done.
    pub closed spec fn has_discovered(&self) -> bool {
        self.discovered
    }

    /// Nothing has been polled yet.
    pub fn new() -> (r: Self)
        ensures
            !r.has_discovered(),
    {
        PollState { discovered: false }
    }

    /// Starts a poll; says whether the providers are to discover their
    /// sensors first, which is the case exactly on the first poll.
    pub fn begin_poll(&mut self) -> (discover: bool)
        ensures
            discover == !old(self).has_discovered(),
            final(self).has_discovered(),
    {
        let discover = !self.discovered;
        self.discovered = true;
        discover
    }
}

} // verus!
