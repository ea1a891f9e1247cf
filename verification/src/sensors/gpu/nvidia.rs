//! NVIDIA GPUs through `nvidia-smi`: the query it is started with, the CSV
//! lines it prints, and the polling state.
use crate::sensors::SensorFormat;
use crate::format::{join_pieces, join_with};
use crate::text::{
    lacks_char, lemma_join_append, lemma_split_join, char_views, chars_eq_str, chars_of, decimal, decimal_chars, float_token, float_token_of,
    opt_str, push_all, push_str, split_char, split_on, string_of, trim, trim_chars,
    digits_value, lemma_decimal_value,
};
use vstd::prelude::*;

verus! {

broadcast use vstd::string::group_string_axioms;

/// The number of fields of a regular query line.
pub const QUERY_FIELDS: usize = 19;

/// The number of fields of a line that also answers the static query.
pub const STATIC_QUERY_FIELDS: usize = 32;

/// The fields queried on every poll.
pub open spec fn base_fields() -> Seq<Seq<char>> {
    seq![
        "name"@,
        "fan.speed"@,
        "temperature.gpu"@,
        "temperature.memory"@,
        "memory.total"@,
        "memory.used"@,
        "memory.reserved"@,
        "memory.free"@,
        "utilization.gpu"@,
        "utilization.memory"@,
        "utilization.encoder"@,
        "utilization.decoder"@,
        "clocks.gr"@,
        "clocks.mem"@,
        "clocks.video"@,
        "power.draw.instant"@,
        "power.draw.average"@,
        "pcie.link.gen.gpucurrent"@,
        "pcie.link.width.current"@,
    ]
}

/// The static fields queried in addition when static information is asked
/// for.
pub open spec fn static_fields() -> Seq<Seq<char>> {
    seq![
        "temperature.gpu.tlimit"@,
        "power.limit"@,
        "pcie.link.gen.max"@,
        "pcie.link.width.max"@,
        "addressing_mode"@,
        "driver_version"@,
        "vbios_version"@,
        "serial"@,
        "pci.domain"@,
        "pci.bus"@,
        "pci.device"@,
        "pci.device_id"@,
        "pci.sub_device_id"@,
    ]
}

/// The fields queried.
pub open spec fn query_fields(include_static: bool) -> Seq<Seq<char>> {
    if include_static {
        base_fields() + static_fields()
    } else {
        base_fields()
    }
}

/// The `--query-gpu` list of `nvidia-smi`: the queried fields joined by
/// commas.
pub open spec fn query_text(include_static: bool) -> Seq<char> {
    join_with(query_fields(include_static), ","@)
}

/// The `--query-gpu` list of `nvidia-smi`.
pub fn build_query_string(include_static: bool) -> (r: String)
    ensures
        r@ == query_text(include_static),
{
    let mut fields: Vec<Vec<char>> = Vec::new();
    fields.push(chars_of("name"));
    fields.push(chars_of("fan.speed"));
    fields.push(chars_of("temperature.gpu"));
    fields.push(chars_of("temperature.memory"));
    fields.push(chars_of("memory.total"));
    fields.push(chars_of("memory.used"));
    fields.push(chars_of("memory.reserved"));
    fields.push(chars_of("memory.free"));
    fields.push(chars_of("utilization.gpu"));
    fields.push(chars_of("utilization.memory"));
    fields.push(chars_of("utilization.encoder"));
    fields.push(chars_of("utilization.decoder"));
    fields.push(chars_of("clocks.gr"));
    fields.push(chars_of("clocks.mem"));
    fields.push(chars_of("clocks.video"));
    fields.push(chars_of("power.draw.instant"));
    fields.push(chars_of("power.draw.average"));
    fields.push(chars_of("pcie.link.gen.gpucurrent"));
    fields.push(chars_of("pcie.link.width.current"));
    if include_static {
        fields.push(chars_of("temperature.gpu.tlimit"));
        fields.push(chars_of("power.limit"));
        fields.push(chars_of("pcie.link.gen.max"));
        fields.push(chars_of("pcie.link.width.max"));
        fields.push(chars_of("addressing_mode"));
        fields.push(chars_of("driver_version"));
        fields.push(chars_of("vbios_version"));
        fields.push(chars_of("serial"));
        fields.push(chars_of("pci.domain"));
        fields.push(chars_of("pci.bus"));
        fields.push(chars_of("pci.device"));
        fields.push(chars_of("pci.device_id"));
        fields.push(chars_of("pci.sub_device_id"));
    }
    proof {
        assert(char_views(fields@) =~= query_fields(include_static));
    }
    let q = join_pieces(&fields, ",");
    string_of(q.as_slice())
}

/// No queried field holds a comma.
proof fn lemma_fields_lack_commas()
    ensures
        forall|i: int| 0 <= i < query_fields(true).len() ==> #[trigger] lacks_char(query_fields(true)[i], ','),
{
    reveal_strlit("name");
    reveal_strlit("fan.speed");
    reveal_strlit("temperature.gpu");
    reveal_strlit("temperature.memory");
    reveal_strlit("memory.total");
    reveal_strlit("memory.used");
    reveal_strlit("memory.reserved");
    reveal_strlit("memory.free");
    reveal_strlit("utilization.gpu");
    reveal_strlit("utilization.memory");
    reveal_strlit("utilization.encoder");
    reveal_strlit("utilization.decoder");
    reveal_strlit("clocks.gr");
    reveal_strlit("clocks.mem");
    reveal_strlit("clocks.video");
    reveal_strlit("power.draw.instant");
    reveal_strlit("power.draw.average");
    reveal_strlit("pcie.link.gen.gpucurrent");
    reveal_strlit("pcie.link.width.current");
    reveal_strlit("temperature.gpu.tlimit");
    reveal_strlit("power.limit");
    reveal_strlit("pcie.link.gen.max");
    reveal_strlit("pcie.link.width.max");
    reveal_strlit("addressing_mode");
    reveal_strlit("driver_version");
    reveal_strlit("vbios_version");
    reveal_strlit("serial");
    reveal_strlit("pci.domain");
    reveal_strlit("pci.bus");
    reveal_strlit("pci.device");
    reveal_strlit("pci.device_id");
    reveal_strlit("pci.sub_device_id");
    let f = query_fields(true);
    assert forall|i: int| 0 <= i < f.len() implies #[trigger] lacks_char(f[i], ',') by {
        if i == 0 {
            assert(f[i] == "name"@);
        } else if i == 1 {
            assert(f[i] == "fan.speed"@);
        } else if i == 2 {
            assert(f[i] == "temperature.gpu"@);
        } else if i == 3 {
            assert(f[i] == "temperature.memory"@);
        } else if i == 4 {
            assert(f[i] == "memory.total"@);
        } else if i == 5 {
            assert(f[i] == "memory.used"@);
        } else if i == 6 {
            assert(f[i] == "memory.reserved"@);
        } else if i == 7 {
            assert(f[i] == "memory.free"@);
        } else if i == 8 {
            assert(f[i] == "utilization.gpu"@);
        } else if i == 9 {
            assert(f[i] == "utilization.memory"@);
        } else if i == 10 {
            assert(f[i] == "utilization.encoder"@);
        } else if i == 11 {
            assert(f[i] == "utilization.decoder"@);
        } else if i == 12 {
            assert(f[i] == "clocks.gr"@);
        } else if i == 13 {
            assert(f[i] == "clocks.mem"@);
        } else if i == 14 {
            assert(f[i] == "clocks.video"@);
        } else if i == 15 {
            assert(f[i] == "power.draw.instant"@);
        } else if i == 16 {
            assert(f[i] == "power.draw.average"@);
        } else if i == 17 {
            assert(f[i] == "pcie.link.gen.gpucurrent"@);
        } else if i == 18 {
            assert(f[i] == "pcie.link.width.current"@);
        } else if i == 19 {
            assert(f[i] == "temperature.gpu.tlimit"@);
        } else if i == 20 {
            assert(f[i] == "power.limit"@);
        } else if i == 21 {
            assert(f[i] == "pcie.link.gen.max"@);
        } else if i == 22 {
            assert(f[i] == "pcie.link.width.max"@);
        } else if i == 23 {
            assert(f[i] == "addressing_mode"@);
        } else if i == 24 {
            assert(f[i] == "driver_version"@);
        } else if i == 25 {
            assert(f[i] == "vbios_version"@);
        } else if i == 26 {
            assert(f[i] == "serial"@);
        } else if i == 27 {
            assert(f[i] == "pci.domain"@);
        } else if i == 28 {
            assert(f[i] == "pci.bus"@);
        } else if i == 29 {
            assert(f[i] == "pci.device"@);
        } else if i == 30 {
            assert(f[i] == "pci.device_id"@);
        } else if i == 31 {
            assert(f[i] == "pci.sub_device_id"@);
        }
    }
}

/// A query line splits at its commas into exactly the queried fields: 19 of
/// them, or 32 with the static ones; and the static query is the regular one
/// followed by a comma and the static fields.
pub proof fn lemma_query_fields()
    ensures
        split_on(query_text(false), ',') == base_fields(),
        split_on(query_text(true), ',') == base_fields() + static_fields(),
        split_on(query_text(false), ',').len() == QUERY_FIELDS,
        split_on(query_text(true), ',').len() == STATIC_QUERY_FIELDS,
        query_text(true) == query_text(false) + ","@ + join_with(static_fields(), ","@),
{
    reveal_strlit(",");
    assert(","@ =~= seq![',']);
    lemma_fields_lack_commas();
    let all = query_fields(true);
    assert forall|i: int| 0 <= i < base_fields().len() implies #[trigger] lacks_char(base_fields()[i], ',') by {
        assert(base_fields()[i] == all[i]);
    }
    lemma_split_join(base_fields(), ',');
    lemma_split_join(all, ',');
    lemma_join_append(base_fields(), static_fields(), ","@);
}

// ---------------------------------------------------------------------------
// CSV lines
// ---------------------------------------------------------------------------

/// The comma-separated fields of a line, each trimmed.
pub open spec fn csv_fields(csv: Seq<char>) -> Seq<Seq<char>> {
    split_on(csv, ',').map_values(|f: Seq<char>| trim(f))
}

/// Whether a field is the "not available" marker `N/A` or `[N/A]`.
pub open spec fn is_na(f: Seq<char>) -> bool {
    f == "N/A"@ || f == "[N/A]"@
}

/// A numeric field: trimmed, when it is not a "not available" marker and
/// `str::parse::<f64>` accepts it.
pub open spec fn numeric_field(f: Seq<char>) -> Option<Seq<char>> {
    if is_na(trim(f)) {
        None
    } else {
        float_token(trim(f))
    }
}

/// The PCIe link text of the generation and width fields, when neither is
/// empty: `PCIe <gen>x<width>`.
pub open spec fn pcie_text(gen: Seq<char>, width: Seq<char>) -> Option<Seq<char>> {
    if gen.len() > 0 && width.len() > 0 {
        Some("PCIe "@ + gen + "x"@ + width)
    } else {
        None
    }
}

/// Whether a static field (by its position among the static fields) holds a
/// number: the temperature limit and the power limit do.
pub open spec fn static_is_numeric(i: int) -> bool {
    i == 0 || i == 1
}

/// Whether the `i`-th static field of a line gives a reading: it is not empty
/// nor a "not available" marker, and it is a number where one is expected.
pub open spec fn static_shown(v: Seq<char>, i: int) -> bool {
    v.len() > 0 && !is_na(v) && (static_is_numeric(i) ==> float_syntax_of(v))
}

/// Whether `str::parse::<f64>` accepts `v`.
pub open spec fn float_syntax_of(v: Seq<char>) -> bool {
    float_token(v) is Some
}

/// The static readings of a line, from static field `i` on: the position
/// and trimmed text of each field that gives one.
pub open spec fn static_entries(fields: Seq<Seq<char>>, i: int) -> Seq<(int, Seq<char>)>
    decreases 13 - i,
{
    if i >= 13 || i < 0 {
        seq![]
    } else {
        let v = trim(fields[QUERY_FIELDS + i]);
        let rest = static_entries(fields, i + 1);
        if static_shown(v, i) {
            seq![(i, v)] + rest
        } else {
            rest
        }
    }
}

/// What a CSV line of `nvidia-smi` gives.
pub struct NvidiaLine {
    /// The GPU name (the first field).
    pub name: String,
    /// The numeric fields 1 to 16, each when it is a number: fan, GPU and
    /// memory temperature, memory total, used, reserved and free, GPU,
    /// memory, encoder and decoder utilization, graphics, memory and video
    /// clocks, instant and average power draw.
    pub numbers: Vec<Option<String>>,
    /// The PCIe link text.
    pub pcie: Option<String>,
    /// The static readings: position among the static fields and text.
    pub statics: Vec<(usize, String)>,
}

/// The label of static field `i`.
pub open spec fn static_label(i: int) -> Seq<char> {
    if i == 0 {
        "Temperature Limit"@
    } else if i == 1 {
        "Power Limit"@
    } else if i == 2 {
        "Maximum Link Gen"@
    } else if i == 3 {
        "Maximum Link Width"@
    } else if i == 4 {
        "Addressing Mode"@
    } else if i == 5 {
        "Driver Version"@
    } else if i == 6 {
        "vBIOS Version"@
    } else if i == 7 {
        "Serial Number"@
    } else if i == 8 {
        "Domain Number"@
    } else if i == 9 {
        "Bus Number"@
    } else if i == 10 {
        "Device Number"@
    } else if i == 11 {
        "Device ID"@
    } else {
        "Sub Device ID"@
    }
}

/// The format of static field `i`: the temperature limit is a temperature,
/// the power limit a GPU power, the others text.
pub open spec fn static_format(i: int) -> SensorFormat {
    if i == 0 {
        SensorFormat::Temp
    } else if i == 1 {
        SensorFormat::WattGpu
    } else {
        SensorFormat::StringVal
    }
}

/// The label of static field `i`.
pub fn static_field_label(i: usize) -> (r: &'static str)
    requires
        i < STATIC_QUERY_FIELDS - QUERY_FIELDS,
    ensures
        r@ == static_label(i as int),
{
    if i == 0 {
        "Temperature Limit"
    } else if i == 1 {
        "Power Limit"
    } else if i == 2 {
        "Maximum Link Gen"
    } else if i == 3 {
        "Maximum Link Width"
    } else if i == 4 {
        "Addressing Mode"
    } else if i == 5 {
        "Driver Version"
    } else if i == 6 {
        "vBIOS Version"
    } else if i == 7 {
        "Serial Number"
    } else if i == 8 {
        "Domain Number"
    } else if i == 9 {
        "Bus Number"
    } else if i == 10 {
        "Device Number"
    } else if i == 11 {
        "Device ID"
    } else {
        "Sub Device ID"
    }
}

/// The format of static field `i`.
pub fn static_field_format(i: usize) -> (r: SensorFormat)
    ensures
        r == static_format(i as int),
{
    if i == 0 {
        SensorFormat::Temp
    } else if i == 1 {
        SensorFormat::WattGpu
    } else {
        SensorFormat::StringVal
    }
}

// ---------------------------------------------------------------------------
// The readings of a line
// ---------------------------------------------------------------------------

/// How a numeric field becomes a reading's value: times 0.01 (percentages),
/// times 1000 (degrees to millidegrees, MiB to KiB), times 1 000 000 (MHz to
/// Hz), or as it is.
#[derive(Debug, Clone, Copy, PartialEq, Eq, Structural)]
pub enum FieldScale {
    Hundredths,
    Thousands,
    Millions,
    Unchanged,
}

/// Where a reading of a line comes from.
#[derive(Debug, Clone, Copy, PartialEq, Eq, Structural)]
pub enum LineSource {
    /// The GPU name (field 0), as text.
    Name,
    /// Memory used over memory total (fields 5 and 4), when the total is
    /// above zero.
    MemoryUsage,
    /// The PCIe link text (fields 17 and 18).
    Pcie,
    /// Numeric field `field` (1 to 16), scaled, when it is a number.
    Field { field: usize, scale: FieldScale },
}

/// One reading of a line: its label, the name in its key
/// (`_gpu#<n>_<name>_`), its format, and where its value comes from.
pub struct LineReading {
    pub label: &'static str,
    pub name: &'static str,
    pub format: SensorFormat,
    pub source: LineSource,
}

/// The number of readings a line can give before its static readings.
pub const LINE_READINGS: usize = 20;

/// The `i`-th reading of a line, in the order they are reported.
pub open spec fn line_reading(i: int) -> (Seq<char>, Seq<char>, SensorFormat, LineSource) {
    if i == 0 {
        ("Graphics"@, "group"@, SensorFormat::Percent, LineSource::Field { field: 8, scale: FieldScale::Hundredths })
    } else if i == 1 {
        ("Name"@, "name"@, SensorFormat::StringVal, LineSource::Name)
    } else if i == 2 {
        ("Fan"@, "fan"@, SensorFormat::Percent, LineSource::Field { field: 1, scale: FieldScale::Hundredths })
    } else if i == 3 {
        ("Temperature"@, "temp"@, SensorFormat::Temp, LineSource::Field { field: 2, scale: FieldScale::Thousands })
    } else if i == 4 {
        ("Memory Temperature"@, "temp_mem"@, SensorFormat::Temp, LineSource::Field { field: 3, scale: FieldScale::Thousands })
    } else if i == 5 {
        ("Memory Usage"@, "mem_usage"@, SensorFormat::Percent, LineSource::MemoryUsage)
    } else if i == 6 {
        ("Memory Total"@, "mem_total"@, SensorFormat::Memory, LineSource::Field { field: 4, scale: FieldScale::Thousands })
    } else if i == 7 {
        ("Memory Used"@, "mem_used"@, SensorFormat::Memory, LineSource::Field { field: 5, scale: FieldScale::Thousands })
    } else if i == 8 {
        ("Memory Reserved"@, "mem_reserved"@, SensorFormat::Memory, LineSource::Field { field: 6, scale: FieldScale::Thousands })
    } else if i == 9 {
        ("Memory Free"@, "mem_free"@, SensorFormat::Memory, LineSource::Field { field: 7, scale: FieldScale::Thousands })
    } else if i == 10 {
        ("Utilization"@, "util"@, SensorFormat::Percent, LineSource::Field { field: 8, scale: FieldScale::Hundredths })
    } else if i == 11 {
        ("Memory Utilization"@, "util_mem"@, SensorFormat::Percent, LineSource::Field { field: 9, scale: FieldScale::Hundredths })
    } else if i == 12 {
        ("Encoder Utilization"@, "util_encoder"@, SensorFormat::Percent, LineSource::Field { field: 10, scale: FieldScale::Hundredths })
    } else if i == 13 {
        ("Decoder Utilization"@, "util_decoder"@, SensorFormat::Percent, LineSource::Field { field: 11, scale: FieldScale::Hundredths })
    } else if i == 14 {
        ("Frequency"@, "clock_gpu"@, SensorFormat::Hertz, LineSource::Field { field: 12, scale: FieldScale::Millions })
    } else if i == 15 {
        ("Memory Frequency"@, "clock_mem"@, SensorFormat::Hertz, LineSource::Field { field: 13, scale: FieldScale::Millions })
    } else if i == 16 {
        ("Encoder/Decoder Frequency"@, "clock_video"@, SensorFormat::Hertz, LineSource::Field { field: 14, scale: FieldScale::Millions })
    } else if i == 17 {
        ("Power"@, "power"@, SensorFormat::WattGpu, LineSource::Field { field: 15, scale: FieldScale::Unchanged })
    } else if i == 18 {
        ("Average Power"@, "power_avg"@, SensorFormat::WattGpu, LineSource::Field { field: 16, scale: FieldScale::Unchanged })
    } else {
        ("Link Speed"@, "pcie"@, SensorFormat::Pcie, LineSource::Pcie)
    }
}

/// The `i`-th reading of a line.
pub fn line_reading_at(i: usize) -> (r: LineReading)
    requires
        i < LINE_READINGS,
    ensures
        (r.label@, r.name@, r.format, r.source) == line_reading(i as int),
{
    if i == 0 {
        LineReading { label: "Graphics", name: "group", format: SensorFormat::Percent, source: LineSource::Field { field: 8, scale: FieldScale::Hundredths } }
    } else if i == 1 {
        LineReading { label: "Name", name: "name", format: SensorFormat::StringVal, source: LineSource::Name }
    } else if i == 2 {
        LineReading { label: "Fan", name: "fan", format: SensorFormat::Percent, source: LineSource::Field { field: 1, scale: FieldScale::Hundredths } }
    } else if i == 3 {
        LineReading { label: "Temperature", name: "temp", format: SensorFormat::Temp, source: LineSource::Field { field: 2, scale: FieldScale::Thousands } }
    } else if i == 4 {
        LineReading { label: "Memory Temperature", name: "temp_mem", format: SensorFormat::Temp, source: LineSource::Field { field: 3, scale: FieldScale::Thousands } }
    } else if i == 5 {
        LineReading { label: "Memory Usage", name: "mem_usage", format: SensorFormat::Percent, source: LineSource::MemoryUsage }
    } else if i == 6 {
        LineReading { label: "Memory Total", name: "mem_total", format: SensorFormat::Memory, source: LineSource::Field { field: 4, scale: FieldScale::Thousands } }
    } else if i == 7 {
        LineReading { label: "Memory Used", name: "mem_used", format: SensorFormat::Memory, source: LineSource::Field { field: 5, scale: FieldScale::Thousands } }
    } else if i == 8 {
        LineReading { label: "Memory Reserved", name: "mem_reserved", format: SensorFormat::Memory, source: LineSource::Field { field: 6, scale: FieldScale::Thousands } }
    } else if i == 9 {
        LineReading { label: "Memory Free", name: "mem_free", format: SensorFormat::Memory, source: LineSource::Field { field: 7, scale: FieldScale::Thousands } }
    } else if i == 10 {
        LineReading { label: "Utilization", name: "util", format: SensorFormat::Percent, source: LineSource::Field { field: 8, scale: FieldScale::Hundredths } }
    } else if i == 11 {
        LineReading { label: "Memory Utilization", name: "util_mem", format: SensorFormat::Percent, source: LineSource::Field { field: 9, scale: FieldScale::Hundredths } }
    } else if i == 12 {
        LineReading { label: "Encoder Utilization", name: "util_encoder", format: SensorFormat::Percent, source: LineSource::Field { field: 10, scale: FieldScale::Hundredths } }
    } else if i == 13 {
        LineReading { label: "Decoder Utilization", name: "util_decoder", format: SensorFormat::Percent, source: LineSource::Field { field: 11, scale: FieldScale::Hundredths } }
    } else if i == 14 {
        LineReading { label: "Frequency", name: "clock_gpu", format: SensorFormat::Hertz, source: LineSource::Field { field: 12, scale: FieldScale::Millions } }
    } else if i == 15 {
        LineReading { label: "Memory Frequency", name: "clock_mem", format: SensorFormat::Hertz, source: LineSource::Field { field: 13, scale: FieldScale::Millions } }
    } else if i == 16 {
        LineReading { label: "Encoder/Decoder Frequency", name: "clock_video", format: SensorFormat::Hertz, source: LineSource::Field { field: 14, scale: FieldScale::Millions } }
    } else if i == 17 {
        LineReading { label: "Power", name: "power", format: SensorFormat::WattGpu, source: LineSource::Field { field: 15, scale: FieldScale::Unchanged } }
    } else if i == 18 {
        LineReading { label: "Average Power", name: "power_avg", format: SensorFormat::WattGpu, source: LineSource::Field { field: 16, scale: FieldScale::Unchanged } }
    } else {
        LineReading { label: "Link Speed", name: "pcie", format: SensorFormat::Pcie, source: LineSource::Pcie }
    }
}

/// The view of a sequence of optional strings.
pub open spec fn opt_views(v: Seq<Option<String>>) -> Seq<Option<Seq<char>>> {
    v.map_values(|o: Option<String>| opt_str(o))
}

/// The view of static entries.
pub open spec fn static_views(v: Seq<(usize, String)>) -> Seq<(int, Seq<char>)> {
    v.map_values(|p: (usize, String)| (p.0 as int, p.1@))
}

/// Whether a parsed line is what the fields of a line give.
pub open spec fn line_matches(l: NvidiaLine, fields: Seq<Seq<char>>, static_returned: bool) -> bool {
    &&& l.name@ == fields[0]
    &&& opt_views(l.numbers@) == Seq::new(16, |i: int| numeric_field(fields[i + 1]))
    &&& opt_str(l.pcie) == pcie_text(fields[17], fields[18])
    &&& static_views(l.statics@) == if fields.len() >= STATIC_QUERY_FIELDS && !static_returned {
        static_entries(fields, 0)
    } else {
        seq![]
    }
}

/// The trimmed fields of a line.
fn csv_fields_exec(csv: &[char]) -> (r: Vec<Vec<char>>)
    ensures
        char_views(r@) == csv_fields(csv@),
{
    let pieces = split_char(csv, ',');
    let ghost p = char_views(pieces@);
    let mut r: Vec<Vec<char>> = Vec::new();
    let mut i: usize = 0;
    while i < pieces.len()
        invariant
            i <= pieces@.len(),
            p == char_views(pieces@),
            p == split_on(csv@, ','),
            char_views(r@) == p.take(i as int).map_values(|f: Seq<char>| trim(f)),
        decreases pieces@.len() - i,
    {
        let t = trim_chars(pieces[i].as_slice());
        let ghost before = char_views(r@);
        r.push(t);
        proof {
            assert(char_views(r@) =~= before.push(t@));
            assert(p.take(i + 1).map_values(|f: Seq<char>| trim(f)) =~= p.take(i as int).map_values(
                |f: Seq<char>| trim(f),
            ).push(trim(p[i as int])));
        }
        i = i + 1;
    }
    proof {
        assert(p.take(p.len() as int) == p);
    }
    r
}

/// Whether a field is a "not available" marker.
fn is_na_exec(f: &[char]) -> (r: bool)
    ensures
        r == is_na(f@),
{
    chars_eq_str(f, "N/A") || chars_eq_str(f, "[N/A]")
}

/// A numeric field.
fn numeric_field_exec(f: &[char]) -> (r: Option<String>)
    ensures
        opt_str(r) == numeric_field(f@),
{
    let t = trim_chars(f);
    if is_na_exec(t.as_slice()) {
        None
    } else {
        float_token_of(t.as_slice())
    }
}

/// Parses a CSV line of `nvidia-smi`; `None` when it has fewer fields than
/// queried (a bad split). Static fields are only read while they have not
/// been reported yet.
pub fn parse_csv_line(csv: &str, static_returned: bool) -> (r: Option<NvidiaLine>)
    ensures
        match r {
            None => csv_fields(csv@).len() < QUERY_FIELDS,
            Some(l) => csv_fields(csv@).len() >= QUERY_FIELDS && line_matches(
                l,
                csv_fields(csv@),
                static_returned,
            ),
        },
{
    let c = chars_of(csv);
    let fields = csv_fields_exec(c.as_slice());
    let ghost fv = char_views(fields@);
    if fields.len() < QUERY_FIELDS {
        return None;
    }
    let name = string_of(fields[0].as_slice());
    proof {
        assert(fv[0] == fields@[0]@);
    }
    let mut numbers: Vec<Option<String>> = Vec::new();
    let mut i: usize = 1;
    while i <= 16
        invariant
            1 <= i <= 17,
            fields@.len() >= QUERY_FIELDS,
            fv == char_views(fields@),
            opt_views(numbers@) == Seq::new((i - 1) as nat, |k: int| numeric_field(fv[k + 1])),
        decreases 17 - i,
    {
        let n = numeric_field_exec(fields[i].as_slice());
        let ghost before = opt_views(numbers@);
        numbers.push(n);
        proof {
            assert(fv[i as int] == fields@[i as int]@);
            assert(opt_views(numbers@) =~= before.push(opt_str(n)));
            assert forall|k: int| 0 <= k < i implies #[trigger] opt_views(numbers@)[k]
                == numeric_field(fv[k + 1]) by {
                if k < i - 1 {
                    assert(opt_views(numbers@)[k] == before[k]);
                }
            }
            assert(opt_views(numbers@) =~= Seq::new(i as nat, |k: int| numeric_field(fv[k + 1])));
        }
        i = i + 1;
    }
    let gen = fields[17].as_slice();
    let width = fields[18].as_slice();
    proof {
        assert(fv[17] == fields@[17]@);
        assert(fv[18] == fields@[18]@);
    }
    let pcie = if gen.len() > 0 && width.len() > 0 {
        let mut v = chars_of("PCIe ");
        push_all(&mut v, gen);
        push_str(&mut v, "x");
        push_all(&mut v, width);
        Some(string_of(v.as_slice()))
    } else {
        None
    };
    let mut statics: Vec<(usize, String)> = Vec::new();
    if fields.len() >= STATIC_QUERY_FIELDS && !static_returned {
        let mut j: usize = 13;
        let ghost mut acc: Seq<(int, Seq<char>)> = seq![];
        let mut rev: Vec<(usize, String)> = Vec::new();
        // Walk the static fields from the last to the first, so that each
        // step prepends to the entries already gathered.
        proof {
            assert(static_entries(fv, 13) == Seq::<(int, Seq<char>)>::empty());
            assert(static_views(rev@) =~= Seq::<(int, Seq<char>)>::empty());
        }
        while j > 0
            invariant
                j <= 13,
                fields@.len() >= STATIC_QUERY_FIELDS,
                fv == char_views(fields@),
                static_views(rev@).reverse() == static_entries(fv, j as int),
            decreases j,
        {
            j = j - 1;
            let v = trim_chars(fields[QUERY_FIELDS + j].as_slice());
            proof {
                assert(fv[QUERY_FIELDS + j] == fields@[QUERY_FIELDS + j]@);
            }
            let shown = v.len() > 0 && !is_na_exec(v.as_slice()) && (!(j == 0 || j == 1)
                || is_float_syntax_exec(v.as_slice()));
            if shown {
                let ghost before = static_views(rev@);
                rev.push((j, string_of(v.as_slice())));
                proof {
                    assert(static_views(rev@) =~= before.push((j as int, v@)));
                    assert(static_views(rev@).reverse() =~= seq![(j as int, v@)]
                        + before.reverse());
                }
            }
        }
        let mut k = rev.len();
        proof {
            assert(static_views(statics@) =~= Seq::<(int, Seq<char>)>::empty());
            assert(static_views(rev@).reverse().take(0) =~= Seq::<(int, Seq<char>)>::empty());
        }
        while k > 0
            invariant
                k <= rev@.len(),
                static_views(statics@) == static_views(rev@).reverse().take(
                    (rev@.len() - k) as int,
                ),
            decreases k,
        {
            k = k - 1;
            let e = (rev[k].0, rev[k].1.clone());
            let ghost before = static_views(statics@);
            statics.push(e);
            proof {
                let all = static_views(rev@).reverse();
                assert(all[(rev@.len() - 1 - k) as int] == static_views(rev@)[k as int]);
                assert(static_views(statics@) =~= before.push((e.0 as int, e.1@)));
                assert(all.take((rev@.len() - k) as int) =~= all.take(
                    (rev@.len() - k - 1) as int,
                ).push(all[(rev@.len() - 1 - k) as int]));
            }
        }
        proof {
            assert(static_views(rev@).reverse().take(rev@.len() as int) == static_views(
                rev@,
            ).reverse());
        }
    }
    proof {
        assert(opt_views(numbers@) =~= Seq::new(16, |i: int| numeric_field(fv[i + 1])));
        if !(fields@.len() >= STATIC_QUERY_FIELDS && !static_returned) {
            assert(static_views(statics@) =~= Seq::<(int, Seq<char>)>::empty());
        }
        assert(name@ == fv[0]);
        assert(opt_str(pcie) == pcie_text(fv[17], fv[18]));
    }
    let r = NvidiaLine { name, numbers, pcie, statics };
    proof {
        assert(line_matches(r, fv, static_returned));
    }
    Some(r)
}

/// Whether `str::parse::<f64>` accepts `v`.
fn is_float_syntax_exec(v: &[char]) -> (r: bool)
    ensures
        r == float_syntax_of(v@),
{
    crate::text::is_float_syntax(v)
}

// ---------------------------------------------------------------------------
// Keys
// ---------------------------------------------------------------------------

/// The key of a GPU reading: `_gpu#<n>_<name>_`.
pub open spec fn gpu_key_text(gpu_num: u8, name: Seq<char>) -> Seq<char> {
    "_gpu#"@ + decimal(gpu_num as nat) + "_"@ + name + "_"@
}

/// The key of a GPU reading.
pub fn gpu_key(gpu_num: u8, name: &str) -> (r: String)
    ensures
        r@ == gpu_key_text(gpu_num, name@),
{
    let mut v = chars_of("_gpu#");
    let d = decimal_chars(gpu_num as u64);
    push_all(&mut v, d.as_slice());
    push_str(&mut v, "_");
    push_str(&mut v, name);
    push_str(&mut v, "_");
    string_of(v.as_slice())
}

/// The key of the `i`-th static reading of a GPU: `_gpu#<n>_static_<i>_`.
pub fn gpu_static_key(gpu_num: u8, i: usize) -> (r: String)
    ensures
        r@ == gpu_key_text(gpu_num, "static_"@ + decimal(i as nat)),
{
    let mut v = chars_of("_gpu#");
    let d = decimal_chars(gpu_num as u64);
    push_all(&mut v, d.as_slice());
    push_str(&mut v, "_static_");
    let n = decimal_chars(i as u64);
    push_all(&mut v, n.as_slice());
    push_str(&mut v, "_");
    proof {
        assert(v@ == "_gpu#"@ + decimal(gpu_num as nat) + "_"@ + ("static_"@ + decimal(i as nat))
            + "_"@) by {
            reveal_strlit("_static_");
            reveal_strlit("_");
            reveal_strlit("static_");
        }
    }
    string_of(v.as_slice())
}

/// The GPU number of the `i`-th line of a poll (counting from zero): `i + 1`,
/// wrapping around as a `u8`.
pub fn gpu_number(i: usize) -> (r: u8)
    requires
        i < usize::MAX,
    ensures
        r == (i + 1) % 256,
{
    ((i + 1) % 256) as u8
}

// ---------------------------------------------------------------------------
// Polling state
// ---------------------------------------------------------------------------

/// The number of bad lines in a row after which `nvidia-smi` is stopped.
pub const BAD_SPLIT_LIMIT: u32 = 3;

/// The count of bad lines in a row after a line: one more after a bad line
/// (staying at the largest count), none after a good one.
pub open spec fn next_bad_count(count: u32, bad_split: bool) -> u32 {
    if bad_split {
        if count < u32::MAX {
            (count + 1) as u32
        } else {
            count
        }
    } else {
        0
    }
}

/// The state of polling `nvidia-smi`.
pub struct NvidiaPoll {
    /// Bad lines seen in a row.
    pub bad_split_count: u32,
    /// Whether the static information has been reported.
    pub static_returned: bool,
    pub include_static_info: bool,
}

impl NvidiaPoll {
    /// The state before the first poll.
    pub fn new(include_static_info: bool) -> (r: Self)
        ensures
            r.bad_split_count == 0,
            !r.static_returned,
            r.include_static_info == include_static_info,
    {
        NvidiaPoll { bad_split_count: 0, static_returned: false, include_static_info }
    }

    /// Records whether a line was a bad split; returns whether `nvidia-smi`
    /// should be stopped: after three bad lines in a row.
    pub fn record_line(&mut self, bad_split: bool) -> (stop: bool)
        ensures
            final(self).static_returned == old(self).static_returned,
            final(self).include_static_info == old(self).include_static_info,
            final(self).bad_split_count == next_bad_count(old(self).bad_split_count, bad_split),
            stop == (bad_split && final(self).bad_split_count >= BAD_SPLIT_LIMIT),
    {
        if bad_split {
            self.bad_split_count = self.bad_split_count.saturating_add(1);
            self.bad_split_count >= BAD_SPLIT_LIMIT
        } else {
            self.bad_split_count = 0;
            false
        }
    }

    /// Ends a poll that had lines: once static information was asked for,
    /// it has now been reported.
    pub fn finish_batch(&mut self)
        ensures
            final(self).bad_split_count == old(self).bad_split_count,
            final(self).include_static_info == old(self).include_static_info,
            final(self).static_returned == (old(self).static_returned
                || old(self).include_static_info),
    {
        if !self.static_returned && self.include_static_info {
            self.static_returned = true;
        }
    }
}

/// Whatever the count before, three bad lines in a row stop `nvidia-smi` at
/// the third at the latest, and a good line resets the count.
pub proof fn lemma_three_bad_lines_stop(count: u32)
    ensures
        next_bad_count(next_bad_count(next_bad_count(count, true), true), true) >= BAD_SPLIT_LIMIT,
        next_bad_count(count, false) == 0,
{
}

/// From a reset count, fewer than three bad lines do not stop `nvidia-smi`.
pub proof fn lemma_two_bad_lines_continue()
    ensures
        next_bad_count(next_bad_count(0, true), true) < BAD_SPLIT_LIMIT,
{
}

/// Static readings come only from lines with all static fields, before they
/// have been reported; and on such a line every static field that gives a
/// reading (`static_shown`) is among them, with its position and trimmed text.
pub proof fn lemma_static_readings(l: NvidiaLine, fields: Seq<Seq<char>>, static_returned: bool)
    requires
        line_matches(l, fields, static_returned),
    ensures
        l.statics@.len() > 0 ==> fields.len() >= STATIC_QUERY_FIELDS && !static_returned,
        fields.len() >= STATIC_QUERY_FIELDS && !static_returned ==> forall|i: int|
            0 <= i < STATIC_QUERY_FIELDS - QUERY_FIELDS && #[trigger] static_shown(
                trim(fields[QUERY_FIELDS + i]),
                i,
            ) ==> static_views(l.statics@).contains((i, trim(fields[QUERY_FIELDS + i]))),
{
    if l.statics@.len() > 0 {
        assert(static_views(l.statics@).len() == l.statics@.len());
    }
    if fields.len() >= STATIC_QUERY_FIELDS && !static_returned {
        assert forall|i: int|
            0 <= i < STATIC_QUERY_FIELDS - QUERY_FIELDS && #[trigger] static_shown(
                trim(fields[QUERY_FIELDS + i]),
                i,
            ) implies static_views(l.statics@).contains((i, trim(fields[QUERY_FIELDS + i]))) by {
            lemma_static_entries_contain(fields, 0, i);
        }
    }
}

proof fn lemma_static_entries_contain(fields: Seq<Seq<char>>, k: int, i: int)
    requires
        0 <= k <= i < 13,
        static_shown(trim(fields[QUERY_FIELDS + i]), i),
    ensures
        static_entries(fields, k).contains((i, trim(fields[QUERY_FIELDS + i]))),
    decreases 13 - k,
{
    let v = trim(fields[QUERY_FIELDS + k]);
    let rest = static_entries(fields, k + 1);
    if k == i {
        assert((seq![(k, v)] + rest)[0] == (i, v));
    } else {
        lemma_static_entries_contain(fields, k + 1, i);
        let w = choose|j: int| 0 <= j < rest.len() && rest[j] == (i, trim(fields[QUERY_FIELDS + i]));
        if static_shown(v, k) {
            assert((seq![(k, v)] + rest)[w + 1] == rest[w]);
        }
    }
}

/// Two keys of one GPU are equal only when their names are.
proof fn lemma_gpu_key_injective(gpu_num: u8, a: Seq<char>, b: Seq<char>)
    ensures
        gpu_key_text(gpu_num, a) == gpu_key_text(gpu_num, b) ==> a == b,
{
    reveal_strlit("_");
    let p = "_gpu#"@ + decimal(gpu_num as nat) + "_"@;
    let ka = gpu_key_text(gpu_num, a);
    let kb = gpu_key_text(gpu_num, b);
    assert(ka =~= p + a + "_"@);
    assert(kb =~= p + b + "_"@);
    if ka == kb {
        assert(ka.subrange(p.len() as int, ka.len() - 1) =~= a);
        assert(kb.subrange(p.len() as int, kb.len() - 1) =~= b);
    }
}

/// The length, first and last character, and sixth character (a space when
/// there is none) of a name.
spec fn name_signature(s: Seq<char>) -> (nat, char, char, char) {
    (s.len(), s[0], s.last(), if s.len() > 5 { s[5] } else { ' ' })
}

/// The readings of one GPU line have pairwise distinct keys: the readings of
/// the table (`line_reading`) have different keys, the static readings
/// (`static_<i>`) have different keys for different fields, and no static
/// reading has the key of a table reading.
pub proof fn lemma_line_keys_distinct(gpu_num: u8)
    ensures
        forall|i: int, j: int|
            0 <= i < LINE_READINGS && 0 <= j < LINE_READINGS && i != j ==> gpu_key_text(
                gpu_num,
                #[trigger] line_reading(i).1,
            ) != gpu_key_text(gpu_num, #[trigger] line_reading(j).1),
        forall|a: nat, b: nat|
            a != b ==> gpu_key_text(gpu_num, "static_"@ + #[trigger] decimal(a)) != gpu_key_text(
                gpu_num,
                "static_"@ + #[trigger] decimal(b),
            ),
        forall|i: int, a: nat|
            0 <= i < LINE_READINGS ==> gpu_key_text(gpu_num, #[trigger] line_reading(i).1)
                != gpu_key_text(gpu_num, "static_"@ + #[trigger] decimal(a)),
{
    reveal_strlit("group");
    reveal_strlit("name");
    reveal_strlit("fan");
    reveal_strlit("temp");
    reveal_strlit("temp_mem");
    reveal_strlit("mem_usage");
    reveal_strlit("mem_total");
    reveal_strlit("mem_used");
    reveal_strlit("mem_reserved");
    reveal_strlit("mem_free");
    reveal_strlit("util");
    reveal_strlit("util_mem");
    reveal_strlit("util_encoder");
    reveal_strlit("util_decoder");
    reveal_strlit("clock_gpu");
    reveal_strlit("clock_mem");
    reveal_strlit("clock_video");
    reveal_strlit("power");
    reveal_strlit("power_avg");
    reveal_strlit("pcie");
    reveal_strlit("static_");
    assert(name_signature(line_reading(0).1) == (5nat, 'g', 'p', ' '));
    assert(name_signature(line_reading(1).1) == (4nat, 'n', 'e', ' '));
    assert(name_signature(line_reading(2).1) == (3nat, 'f', 'n', ' '));
    assert(name_signature(line_reading(3).1) == (4nat, 't', 'p', ' '));
    assert(name_signature(line_reading(4).1) == (8nat, 't', 'm', 'm'));
    assert(name_signature(line_reading(5).1) == (9nat, 'm', 'e', 's'));
    assert(name_signature(line_reading(6).1) == (9nat, 'm', 'l', 'o'));
    assert(name_signature(line_reading(7).1) == (8nat, 'm', 'd', 's'));
    assert(name_signature(line_reading(8).1) == (12nat, 'm', 'd', 'e'));
    assert(name_signature(line_reading(9).1) == (8nat, 'm', 'e', 'r'));
    assert(name_signature(line_reading(10).1) == (4nat, 'u', 'l', ' '));
    assert(name_signature(line_reading(11).1) == (8nat, 'u', 'm', 'm'));
    assert(name_signature(line_reading(12).1) == (12nat, 'u', 'r', 'e'));
    assert(name_signature(line_reading(13).1) == (12nat, 'u', 'r', 'd'));
    assert(name_signature(line_reading(14).1) == (9nat, 'c', 'u', '_'));
    assert(name_signature(line_reading(15).1) == (9nat, 'c', 'm', '_'));
    assert(name_signature(line_reading(16).1) == (11nat, 'c', 'o', '_'));
    assert(name_signature(line_reading(17).1) == (5nat, 'p', 'r', ' '));
    assert(name_signature(line_reading(18).1) == (9nat, 'p', 'g', '_'));
    assert(name_signature(line_reading(19).1) == (4nat, 'p', 'e', ' '));
    assert forall|i: int, j: int|
        0 <= i < LINE_READINGS && 0 <= j < LINE_READINGS && i != j implies gpu_key_text(
            gpu_num,
            #[trigger] line_reading(i).1,
        ) != gpu_key_text(gpu_num, #[trigger] line_reading(j).1) by {
        lemma_gpu_key_injective(gpu_num, line_reading(i).1, line_reading(j).1);
        assert(name_signature(line_reading(i).1) != name_signature(line_reading(j).1));
    }
    assert forall|a: nat, b: nat|
        a != b implies gpu_key_text(gpu_num, "static_"@ + #[trigger] decimal(a)) != gpu_key_text(
            gpu_num,
            "static_"@ + #[trigger] decimal(b),
        ) by {
        let sa = "static_"@ + decimal(a);
        let sb = "static_"@ + decimal(b);
        lemma_gpu_key_injective(gpu_num, sa, sb);
        lemma_decimal_value(a);
        lemma_decimal_value(b);
        if sa == sb {
            assert(sa.skip(7) =~= decimal(a));
            assert(sb.skip(7) =~= decimal(b));
        }
    }
    assert forall|i: int, a: nat|
        0 <= i < LINE_READINGS implies gpu_key_text(gpu_num, #[trigger] line_reading(i).1)
            != gpu_key_text(gpu_num, "static_"@ + #[trigger] decimal(a)) by {
        let sa = "static_"@ + decimal(a);
        lemma_gpu_key_injective(gpu_num, line_reading(i).1, sa);
        assert(sa[0] == 's');
        assert(name_signature(line_reading(i).1).1 != 's');
    }
}

/// The query field whose column each numeric reading of a line shows, by the
/// reading's name, as `nvidia-smi` names the field.
pub open spec fn reading_query_fields() -> Seq<(Seq<char>, Seq<char>)> {
    seq![
        ("group"@, "utilization.gpu"@),
        ("fan"@, "fan.speed"@),
        ("temp"@, "temperature.gpu"@),
        ("temp_mem"@, "temperature.memory"@),
        ("mem_total"@, "memory.total"@),
        ("mem_used"@, "memory.used"@),
        ("mem_reserved"@, "memory.reserved"@),
        ("mem_free"@, "memory.free"@),
        ("util"@, "utilization.gpu"@),
        ("util_mem"@, "utilization.memory"@),
        ("util_encoder"@, "utilization.encoder"@),
        ("util_decoder"@, "utilization.decoder"@),
        ("clock_gpu"@, "clocks.gr"@),
        ("clock_mem"@, "clocks.mem"@),
        ("clock_video"@, "clocks.video"@),
        ("power"@, "power.draw.instant"@),
        ("power_avg"@, "power.draw.average"@),
    ]
}

/// The scale a numeric reading of a format is shown with: percentages in
/// hundredths, degrees and MiB times 1000, MHz times 1 000 000, watts as they
/// are.
pub open spec fn scale_for(format: SensorFormat) -> Option<FieldScale> {
    match format {
        SensorFormat::Percent => Some(FieldScale::Hundredths),
        SensorFormat::Temp => Some(FieldScale::Thousands),
        SensorFormat::Memory => Some(FieldScale::Thousands),
        SensorFormat::Hertz => Some(FieldScale::Millions),
        SensorFormat::WattGpu => Some(FieldScale::Unchanged),
        _ => None,
    }
}

/// The numeric field a row of the reading table shows (0 for other rows).
pub open spec fn row_field(i: int) -> int {
    match line_reading(i).3 {
        LineSource::Field { field, .. } => field as int,
        _ => 0,
    }
}

/// Whether some row of the reading table shows numeric field `f`.
pub open spec fn field_shown(f: int) -> bool {
    exists|i: int| 0 <= i < LINE_READINGS && #[trigger] row_field(i) == f
}

/// The scale of a row of the reading table, for a numeric row.
pub open spec fn row_scale(i: int) -> Option<FieldScale> {
    match line_reading(i).3 {
        LineSource::Field { scale, .. } => Some(scale),
        _ => None,
    }
}

/// Each numeric reading of a line shows the column of the query field it is
/// named for (`power` the instant draw `power.draw.instant`, `power_avg` the
/// average, ...), scaled as its format asks; every numeric column, 1 to 16, is
/// shown; and no column but the GPU utilization (Graphics and Utilization) is
/// shown twice.
pub proof fn lemma_line_reading_fields()
    ensures
        forall|i: int|
            0 <= i < LINE_READINGS && (#[trigger] line_reading(i)).3 is Field ==> 1 <= row_field(i)
                <= 16 && reading_query_fields().contains(
                (line_reading(i).1, base_fields()[row_field(i)]),
            ) && row_scale(i) == scale_for(line_reading(i).2),
        forall|f: int| 1 <= f <= 16 ==> #[trigger] field_shown(f),
        forall|i: int, j: int|
            0 <= i < j < LINE_READINGS && #[trigger] row_field(i) == #[trigger] row_field(j) && row_field(i) > 0
                ==> base_fields()[row_field(i)] == "utilization.gpu"@,
{
    assert forall|i: int|
        0 <= i < LINE_READINGS && (#[trigger] line_reading(i)).3 is Field implies 1 <= row_field(i)
            <= 16 && reading_query_fields().contains(
            (line_reading(i).1, base_fields()[row_field(i)]),
        ) && row_scale(i) == scale_for(line_reading(i).2) by {
        if i == 0 {
            assert(reading_query_fields()[0] == (line_reading(i).1, base_fields()[row_field(i)]));
        }
        if i == 2 {
            assert(reading_query_fields()[1] == (line_reading(i).1, base_fields()[row_field(i)]));
        }
        if i == 3 {
            assert(reading_query_fields()[2] == (line_reading(i).1, base_fields()[row_field(i)]));
        }
        if i == 4 {
            assert(reading_query_fields()[3] == (line_reading(i).1, base_fields()[row_field(i)]));
        }
        if i == 6 {
            assert(reading_query_fields()[4] == (line_reading(i).1, base_fields()[row_field(i)]));
        }
        if i == 7 {
            assert(reading_query_fields()[5] == (line_reading(i).1, base_fields()[row_field(i)]));
        }
        if i == 8 {
            assert(reading_query_fields()[6] == (line_reading(i).1, base_fields()[row_field(i)]));
        }
        if i == 9 {
            assert(reading_query_fields()[7] == (line_reading(i).1, base_fields()[row_field(i)]));
        }
        if i == 10 {
            assert(reading_query_fields()[8] == (line_reading(i).1, base_fields()[row_field(i)]));
        }
        if i == 11 {
            assert(reading_query_fields()[9] == (line_reading(i).1, base_fields()[row_field(i)]));
        }
        if i == 12 {
            assert(reading_query_fields()[10] == (line_reading(i).1, base_fields()[row_field(i)]));
        }
        if i == 13 {
            assert(reading_query_fields()[11] == (line_reading(i).1, base_fields()[row_field(i)]));
        }
        if i == 14 {
            assert(reading_query_fields()[12] == (line_reading(i).1, base_fields()[row_field(i)]));
        }
        if i == 15 {
            assert(reading_query_fields()[13] == (line_reading(i).1, base_fields()[row_field(i)]));
        }
        if i == 16 {
            assert(reading_query_fields()[14] == (line_reading(i).1, base_fields()[row_field(i)]));
        }
        if i == 17 {
            assert(reading_query_fields()[15] == (line_reading(i).1, base_fields()[row_field(i)]));
        }
        if i == 18 {
            assert(reading_query_fields()[16] == (line_reading(i).1, base_fields()[row_field(i)]));
        }
    }
    assert forall|f: int| 1 <= f <= 16 implies #[trigger] field_shown(f) by {
        if f == 1 {
            assert(row_field(2) == 1);
        }
        if f == 2 {
            assert(row_field(3) == 2);
        }
        if f == 3 {
            assert(row_field(4) == 3);
        }
        if f == 4 {
            assert(row_field(6) == 4);
        }
        if f == 5 {
            assert(row_field(7) == 5);
        }
        if f == 6 {
            assert(row_field(8) == 6);
        }
        if f == 7 {
            assert(row_field(9) == 7);
        }
        if f == 8 {
            assert(row_field(0) == 8);
        }
        if f == 9 {
            assert(row_field(11) == 9);
        }
        if f == 10 {
            assert(row_field(12) == 10);
        }
        if f == 11 {
            assert(row_field(13) == 11);
        }
        if f == 12 {
            assert(row_field(14) == 12);
        }
        if f == 13 {
            assert(row_field(15) == 13);
        }
        if f == 14 {
            assert(row_field(16) == 14);
        }
        if f == 15 {
            assert(row_field(17) == 15);
        }
        if f == 16 {
            assert(row_field(18) == 16);
        }
    }
}

} // verus!
