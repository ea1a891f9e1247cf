//! Application configuration: the settings of every sensor category, their
//! defaults, and the locations of the configuration and cache files.
use crate::text::{chars_of, push_all, string_of};
use vstd::string::StringSliceAdditionalSpecFns;
use vstd::prelude::*;

verus! {

broadcast use vstd::string::group_string_axioms;

/// Settings for the whole application.
#[derive(Debug, Clone)]
pub struct AppConfig {
    pub general: GeneralConfig,
    pub temperature: TemperatureConfig,
    pub voltage: VoltageConfig,
    pub fan: FanConfig,
    pub memory: MemoryConfig,
    pub processor: ProcessorConfig,
    pub system: SystemConfig,
    pub network: NetworkConfig,
    pub storage: StorageConfig,
    pub battery: BatteryConfig,
    pub gpu: GpuConfig,
    pub history: HistoryConfig,
    pub hot_sensors: Vec<String>,
}

/// General display and polling settings.
#[derive(Debug, Clone)]
pub struct GeneralConfig {
    /// Seconds between sensor polls (1-60).
    pub update_time: u32,
    /// Show one extra digit after decimal.
    pub use_higher_precision: bool,
    /// Display sensors in alphabetical order.
    pub alphabetize: bool,
    /// Hide sensors that report zero values.
    pub hide_zeros: bool,
    /// Keep sensor widths fixed to prevent UI jitter.
    pub fixed_widths: bool,
    /// Hide icons, show only sensor values.
    pub hide_icons: bool,
    /// Center the dropdown menu.
    pub menu_centered: bool,
    /// Icon style: 0 = Original, 1 = GNOME.
    pub icon_style: u32,
    /// Command to launch system monitor.
    pub monitor_cmd: String,
}

/// Temperature sensor settings.
#[derive(Debug, Clone)]
pub struct TemperatureConfig {
    pub show: bool,
    /// 0 = Celsius, 1 = Fahrenheit.
    pub unit: u32,
}

/// Voltage sensor settings.
#[derive(Debug, Clone)]
pub struct VoltageConfig {
    pub show: bool,
}

/// Fan sensor settings.
#[derive(Debug, Clone)]
pub struct FanConfig {
    pub show: bool,
}

/// Memory sensor settings.
#[derive(Debug, Clone)]
pub struct MemoryConfig {
    pub show: bool,
    /// 0 = binary (GiB), 1 = decimal (GB).
    pub measurement: u32,
}

/// Processor sensor settings.
#[derive(Debug, Clone)]
pub struct ProcessorConfig {
    pub show: bool,
    pub include_static_info: bool,
}

/// System sensor settings.
#[derive(Debug, Clone)]
pub struct SystemConfig {
    pub show: bool,
}

/// Network sensor settings.
#[derive(Debug, Clone)]
pub struct NetworkConfig {
    pub show: bool,
    pub include_public_ip: bool,
    /// 0 = bytes/s, 1 = bits/s.
    pub speed_format: u32,
}

/// Storage sensor settings.
#[derive(Debug, Clone)]
pub struct StorageConfig {
    pub show: bool,
    pub path: String,
    /// 0 = binary (GiB), 1 = decimal (GB).
    pub measurement: u32,
}

/// Battery sensor settings.
#[derive(Debug, Clone)]
pub struct BatteryConfig {
    pub show: bool,
    /// Battery slot index (0-7).
    pub slot: u8,
}

/// GPU sensor settings.
#[derive(Debug, Clone)]
pub struct GpuConfig {
    pub show: bool,
    pub include_static_info: bool,
}

/// History graph settings.
#[derive(Debug, Clone)]
pub struct HistoryConfig {
    pub show_graphs: bool,
    /// How many seconds of history to keep.
    pub duration_seconds: u32,
}

impl GeneralConfig {
    /// Whether `self` holds the default general settings.
    pub open spec fn is_default(&self) -> bool {
        &&& self.update_time == 5
        &&& !self.use_higher_precision
        &&& self.alphabetize
        &&& !self.hide_zeros
        &&& self.fixed_widths
        &&& !self.hide_icons
        &&& !self.menu_centered
        &&& self.icon_style == 0
        &&& self.monitor_cmd@ == "gnome-system-monitor"@
    }
}

impl Default for GeneralConfig {
    fn default() -> (r: Self)
        ensures
            r.is_default(),
    {
        GeneralConfig {
            update_time: 5,
            use_higher_precision: false,
            alphabetize: true,
            hide_zeros: false,
            fixed_widths: true,
            hide_icons: false,
            menu_centered: false,
            icon_style: 0,
            monitor_cmd: "gnome-system-monitor".to_string(),
        }
    }
}

impl Default for TemperatureConfig {
    fn default() -> (r: Self)
        ensures
            r.show && r.unit == 0,
    {
        TemperatureConfig { show: true, unit: 0 }
    }
}

impl Default for VoltageConfig {
    fn default() -> (r: Self)
        ensures
            r.show,
    {
        VoltageConfig { show: true }
    }
}

impl Default for FanConfig {
    fn default() -> (r: Self)
        ensures
            r.show,
    {
        FanConfig { show: true }
    }
}

impl Default for MemoryConfig {
    fn default() -> (r: Self)
        ensures
            r.show && r.measurement == 1,
    {
        MemoryConfig { show: true, measurement: 1 }
    }
}

impl Default for ProcessorConfig {
    fn default() -> (r: Self)
        ensures
            r.show && !r.include_static_info,
    {
        ProcessorConfig { show: true, include_static_info: false }
    }
}

impl Default for SystemConfig {
    fn default() -> (r: Self)
        ensures
            r.show,
    {
        SystemConfig { show: true }
    }
}

impl Default for NetworkConfig {
    fn default() -> (r: Self)
        ensures
            r.show && r.include_public_ip && r.speed_format == 0,
    {
        NetworkConfig { show: true, include_public_ip: true, speed_format: 0 }
    }
}

impl Default for StorageConfig {
    fn default() -> (r: Self)
        ensures
            r.show && r.path@ == "/"@ && r.measurement == 1,
    {
        StorageConfig { show: true, path: "/".to_string(), measurement: 1 }
    }
}

impl Default for BatteryConfig {
    fn default() -> (r: Self)
        ensures
            !r.show && r.slot == 0,
    {
        BatteryConfig { show: false, slot: 0 }
    }
}

impl Default for GpuConfig {
    fn default() -> (r: Self)
        ensures
            !r.show && !r.include_static_info,
    {
        GpuConfig { show: false, include_static_info: false }
    }
}

impl Default for HistoryConfig {
    fn default() -> (r: Self)
        ensures
            r.show_graphs && r.duration_seconds == 3600,
    {
        HistoryConfig { show_graphs: true, duration_seconds: 3600 }
    }
}

impl AppConfig {
    /// Whether `self` holds the default settings of every category.
    pub open spec fn is_default(&self) -> bool {
        &&& self.general.is_default()
        &&& self.temperature.show && self.temperature.unit == 0
        &&& self.voltage.show
        &&& self.fan.show
        &&& self.memory.show && self.memory.measurement == 1
        &&& self.processor.show && !self.processor.include_static_info
        &&& self.system.show
        &&& self.network.show && self.network.include_public_ip && self.network.speed_format == 0
        &&& self.storage.show && self.storage.path@ == "/"@ && self.storage.measurement == 1
        &&& !self.battery.show && self.battery.slot == 0
        &&& !self.gpu.show && !self.gpu.include_static_info
        &&& self.history.show_graphs && self.history.duration_seconds == 3600
        &&& self.hot_sensors@.len() == 3
        &&& self.hot_sensors@[0]@ == "_memory_usage_"@
        &&& self.hot_sensors@[1]@ == "_system_load_1m_"@
        &&& self.hot_sensors@[2]@ == "__network-rx_max__"@
    }
}

impl Default for AppConfig {
    fn default() -> (r: Self)
        ensures
            r.is_default(),
    {
        let mut hot_sensors: Vec<String> = Vec::new();
        hot_sensors.push("_memory_usage_".to_string());
        hot_sensors.push("_system_load_1m_".to_string());
        hot_sensors.push("__network-rx_max__".to_string());
        AppConfig {
            general: GeneralConfig::default(),
            temperature: TemperatureConfig::default(),
            voltage: VoltageConfig::default(),
            fan: FanConfig::default(),
            memory: MemoryConfig::default(),
            processor: ProcessorConfig::default(),
            system: SystemConfig::default(),
            network: NetworkConfig::default(),
            storage: StorageConfig::default(),
            battery: BatteryConfig::default(),
            gpu: GpuConfig::default(),
            history: HistoryConfig::default(),
            hot_sensors,
        }
    }
}

// ---------------------------------------------------------------------------
// File locations
// ---------------------------------------------------------------------------

/// `base` extended by the path component `comp`, as `PathBuf::push` does on
/// Unix, with `sep` the separator: an absolute component replaces the path,
/// otherwise a separator goes between the two unless `base` is empty or
/// already ends with one.
pub open spec fn path_join<T>(base: Seq<T>, comp: Seq<T>, sep: T) -> Seq<T> {
    if comp.len() > 0 && comp[0] == sep {
        comp
    } else if base.len() == 0 || base.last() == sep {
        base + comp
    } else {
        base.push(sep) + comp
    }
}

/// Joins a path component onto a path held as text.
pub fn join_path(base: &str, comp: &str) -> (r: String)
    ensures
        r@ == path_join(base@, comp@, '/'),
{
    let b = chars_of(base);
    let c = chars_of(comp);
    if c.len() > 0 && c[0] == '/' {
        return string_of(c.as_slice());
    }
    let mut r = b;
    if !(r.len() == 0 || r[r.len() - 1] == '/') {
        r.push('/');
    }
    push_all(&mut r, c.as_slice());
    string_of(r.as_slice())
}

/// The byte of the path separator `/`.
pub const SLASH: u8 = 47;

/// Joins a path component onto a path held as bytes (a Unix path need not be
/// text).
pub fn join_path_bytes(base: &[u8], comp: &[u8]) -> (r: Vec<u8>)
    ensures
        r@ == path_join(base@, comp@, SLASH),
{
    if comp.len() > 0 && comp[0] == SLASH {
        return bytes_of(comp);
    }
    let mut r = bytes_of(base);
    if !(r.len() == 0 || r[r.len() - 1] == SLASH) {
        r.push(SLASH);
    }
    let mut i: usize = 0;
    let ghost start = r@;
    while i < comp.len()
        invariant
            i <= comp@.len(),
            r@ == start + comp@.subrange(0, i as int),
        decreases comp@.len() - i,
    {
        r.push(comp[i]);
        i = i + 1;
        proof {
            assert(r@ =~= start + comp@.subrange(0, i as int));
        }
    }
    proof {
        assert(comp@.subrange(0, comp@.len() as int) =~= comp@);
    }
    r
}

/// A copy of a byte slice.
fn bytes_of(b: &[u8]) -> (r: Vec<u8>)
    ensures
        r@ == b@,
{
    let mut r: Vec<u8> = Vec::new();
    let mut i: usize = 0;
    while i < b.len()
        invariant
            i <= b@.len(),
            r@ == b@.subrange(0, i as int),
        decreases b@.len() - i,
    {
        r.push(b[i]);
        i = i + 1;
        proof {
            assert(r@ =~= b@.subrange(0, i as int));
        }
    }
    proof {
        assert(b@.subrange(0, b@.len() as int) =~= b@);
    }
    r
}

/// `dirs::config_dir`: the user's configuration directory, when the
/// platform defines one, as the bytes of the path. It depends on the
/// environment, so nothing is stated about the result.
#[verifier::external_body]
fn user_config_dir() -> (r: Option<Vec<u8>>) {
    match dirs::config_dir() {
        Some(p) => Some(p.into_os_string().into_encoded_bytes()),
        None => None,
    }
}

/// `dirs::cache_dir`: the user's cache directory, when the platform defines
/// one, as the bytes of the path. It depends on the environment, so nothing
/// is stated about the result.
#[verifier::external_body]
fn user_cache_dir() -> (r: Option<Vec<u8>>) {
    match dirs::cache_dir() {
        Some(p) => Some(p.into_os_string().into_encoded_bytes()),
        None => None,
    }
}

/// The path of the configuration file inside the directory `config_dir`
/// (`/tmp` when there is none): `<dir>/vitals/config.toml`.
pub open spec fn config_file_in(config_dir: Option<Seq<u8>>) -> Seq<u8> {
    let base = match config_dir {
        Some(d) => d,
        None => "/tmp".spec_bytes(),
    };
    path_join(path_join(base, "vitals".spec_bytes(), SLASH), "config.toml".spec_bytes(), SLASH)
}

/// The cache directory inside the user's cache directory `cache_dir`
/// (`/tmp` when there is none): `<dir>/vitals`.
pub open spec fn cache_dir_in(cache_dir: Option<Seq<u8>>) -> Seq<u8> {
    let base = match cache_dir {
        Some(d) => d,
        None => "/tmp".spec_bytes(),
    };
    path_join(base, "vitals".spec_bytes(), SLASH)
}

/// The view of an optional byte vector.
pub open spec fn opt_view(o: Option<Vec<u8>>) -> Option<Seq<u8>> {
    match o {
        Some(s) => Some(s@),
        None => None,
    }
}

impl AppConfig {
    /// The configuration file below a given configuration directory (paths
    /// as bytes).
    pub fn config_path_in(config_dir: Option<Vec<u8>>) -> (r: Vec<u8>)
        ensures
            r@ == config_file_in(opt_view(config_dir)),
    {
        let base = match config_dir {
            Some(d) => d,
            None => bytes_of("/tmp".as_bytes()),
        };
        let dir = join_path_bytes(base.as_slice(), "vitals".as_bytes());
        join_path_bytes(dir.as_slice(), "config.toml".as_bytes())
    }

    /// The application cache directory below a given cache directory (paths
    /// as bytes).
    pub fn cache_dir_in(cache_dir: Option<Vec<u8>>) -> (r: Vec<u8>)
        ensures
            r@ == cache_dir_in(opt_view(cache_dir)),
    {
        let base = match cache_dir {
            Some(d) => d,
            None => bytes_of("/tmp".as_bytes()),
        };
        join_path_bytes(base.as_slice(), "vitals".as_bytes())
    }

    /// Returns the path to the config file, as bytes:
    /// `~/.config/vitals/config.toml`.
    pub fn config_path() -> (r: Vec<u8>)
        ensures
            exists|d: Option<Seq<u8>>| r@ == config_file_in(d),
    {
        let d = user_config_dir();
        Self::config_path_in(d)
    }

    /// Returns the path to the cache directory, as bytes: `~/.cache/vitals/`.
    pub fn cache_dir() -> (r: Vec<u8>)
        ensures
            exists|d: Option<Seq<u8>>| r@ == cache_dir_in(d),
    {
        let d = user_cache_dir();
        Self::cache_dir_in(d)
    }

    /// Returns the path to the history cache file, as bytes.
    pub fn history_path() -> (r: Vec<u8>)
        ensures
            exists|d: Option<Seq<u8>>|
                r@ == path_join(cache_dir_in(d), "history.json".spec_bytes(), SLASH),
    {
        let dir = Self::cache_dir();
        join_path_bytes(dir.as_slice(), "history.json".as_bytes())
    }
}

/// The history file is named `history.json` and lies directly in the
/// application cache directory: its path is that directory, a `/`, and
/// `history.json`, a name without a `/`.
pub proof fn lemma_history_file_name(d: Option<Seq<u8>>)
    ensures
        path_join(cache_dir_in(d), "history.json".spec_bytes(), SLASH) == cache_dir_in(d).push(
            SLASH,
        ) + "history.json".spec_bytes(),
        !"history.json".spec_bytes().contains(SLASH),
{
    reveal_strlit("history.json");
    reveal_strlit("vitals");
    vstd::string::is_ascii_spec_bytes("history.json");
    vstd::string::is_ascii_spec_bytes("vitals");
    let h = "history.json".spec_bytes();
    let v = "vitals".spec_bytes();
    assert(h.len() == 12);
    assert(h[0] == 104u8);
    assert(v.len() == 6);
    assert(v[0] == 118u8);
    assert(v[5] == 115u8);
    let base = match d {
        Some(b) => b,
        None => "/tmp".spec_bytes(),
    };
    let c = cache_dir_in(d);
    if base.len() == 0 || base.last() == SLASH {
        assert(c == base + v);
    } else {
        assert(c == base.push(SLASH) + v);
    }
    assert(c.last() == v.last());
    assert forall|i: int| 0 <= i < h.len() implies h[i] != SLASH by {
        assert(h[i] == ("history.json"@[i] as u8));
    }
}

} // verus!
