//! Hardware-monitor (hwmon) discovery logic for temperature, voltage and fan
//! sensors: which files of a hwmon directory belong together, what each sensor
//! is labelled, and the key it is known by. Reading the directories and files
//! is left to the caller, which hands the names and contents in.
use crate::assoc::{assoc_lookup, assoc_position, lemma_assoc_lookup};
use crate::config::{join_path, path_join};
use crate::sensors::{category_name, format_name, SensorCategory, SensorFormat};
use crate::text::{
    contains_seq, lacks_char, lemma_replace_all_absent, lemma_replace_all_removes,
    lemma_replace_all_unchanged, mismatch_from, no_start_inside, chars_eq, chars_eq_str, chars_of, concat, decimal, decimal_chars, ends_with, find_char,
    has_prefix, has_suffix, push_all, push_str, replace_all, replace_chars, slice_copy, split_on,
    starts_with, string_of, string_views,
};
use vstd::prelude::*;

verus! {

broadcast use vstd::string::group_string_axioms;

/// A discovered hardware monitor sensor.
#[derive(Debug, Clone)]
pub struct HwmonSensor {
    pub name: String,
    pub label: String,
    pub input_path: String,
    pub category: SensorCategory,
    pub format: SensorFormat,
    pub key: String,
}

// ---------------------------------------------------------------------------
// Label cleanup
// ---------------------------------------------------------------------------

/// Known labels that are replaced by a friendlier name.
pub open spec fn known_label(l: Seq<char>) -> Seq<char> {
    if l == "acpitz temp1"@ {
        "ACPI Thermal Zone"@
    } else if l == "pch_cannonlake temp1"@ {
        "Platform Controller Hub"@
    } else if l == "iwlwifi_1 temp1"@ {
        "Wireless Adapter"@
    } else if l == "Package id 0"@ {
        "Processor 0"@
    } else if l == "Package id 1"@ {
        "Processor 1"@
    } else {
        l
    }
}

/// A label after the known cleanups: the known replacements, then every
/// `Package id` turned into `CPU`.
pub open spec fn cleaned_label(l: Seq<char>) -> Seq<char> {
    replace_all(known_label(l), "Package id"@, "CPU"@)
}

/// Applies the known label transformations.
pub fn clean_label(label: &str) -> (r: String)
    ensures
        r@ == cleaned_label(label@),
{
    let l = chars_of(label);
    let s = l.as_slice();
    let known = if chars_eq_str(s, "acpitz temp1") {
        chars_of("ACPI Thermal Zone")
    } else if chars_eq_str(s, "pch_cannonlake temp1") {
        chars_of("Platform Controller Hub")
    } else if chars_eq_str(s, "iwlwifi_1 temp1") {
        chars_of("Wireless Adapter")
    } else if chars_eq_str(s, "Package id 0") {
        chars_of("Processor 0")
    } else if chars_eq_str(s, "Package id 1") {
        chars_of("Processor 1")
    } else {
        l
    };
    let pat = chars_of("Package id");
    let rep = chars_of("CPU");
    proof {
        reveal_strlit("Package id");
    }
    let r = replace_chars(known.as_slice(), pat.as_slice(), rep.as_slice());
    string_of(r.as_slice())
}

/// Whether a label is one of those with a friendlier name.
pub open spec fn is_known_label(l: Seq<char>) -> bool {
    l == "acpitz temp1"@ || l == "pch_cannonlake temp1"@ || l == "iwlwifi_1 temp1"@ || l
        == "Package id 0"@ || l == "Package id 1"@
}

/// The facts about the replacement of `Package id` by `CPU` that the label
/// laws use.
proof fn lemma_package_id_replacement()
    ensures
        "Package id"@.len() > 0,
        "CPU"@.len() > 0,
        "CPU"@[0] == 'C',
        no_start_inside("CPU"@, "Package id"@),
        lacks_char("Package id"@.drop_first(), 'C'),
{
    reveal_strlit("Package id");
    reveal_strlit("CPU");
    let p = "Package id"@;
    let rep = "CPU"@;
    assert(rep[0] != p[0]);
    assert(mismatch_from(rep, p, 0));
    assert(rep[2] != p[1]);
    assert(mismatch_from(rep, p, 1));
    assert(rep[2] != p[0]);
    assert(mismatch_from(rep, p, 2));
    assert(p.drop_first() =~= seq!['a', 'c', 'k', 'a', 'g', 'e', ' ', 'i', 'd']);
}

/// Cleaning a label leaves no `Package id` in it; cleaning a cleaned label
/// changes nothing; and a label that is none of the known ones and holds no
/// `Package id` is left as it is.
pub proof fn lemma_clean_label_laws(l: Seq<char>)
    ensures
        !contains_seq(cleaned_label(l), "Package id"@),
        cleaned_label(cleaned_label(l)) == cleaned_label(l),
        !is_known_label(l) && !contains_seq(l, "Package id"@) ==> cleaned_label(l) == l,
{
    let p = "Package id"@;
    let rep = "CPU"@;
    lemma_package_id_replacement();
    let y = cleaned_label(l);
    lemma_replace_all_removes(known_label(l), p, rep);
    reveal_strlit("Package id");
    reveal_strlit("Package id 0");
    reveal_strlit("Package id 1");
    reveal_strlit("acpitz temp1");
    reveal_strlit("pch_cannonlake temp1");
    reveal_strlit("iwlwifi_1 temp1");
    reveal_strlit("ACPI Thermal Zone");
    reveal_strlit("Platform Controller Hub");
    reveal_strlit("Wireless Adapter");
    reveal_strlit("Processor 0");
    reveal_strlit("Processor 1");
    // A cleaned label holds no `Package id`, so it is not a processor label.
    if y == "Package id 0"@ || y == "Package id 1"@ {
        assert(y.skip(0) =~= y);
        assert(y.take(p.len() as int) =~= p);
        assert(has_prefix(y.skip(0), p));
    }
    // Nor is it one of the other known labels: those hold no `C`, so nothing
    // was replaced and the label was already known.
    if y == "acpitz temp1"@ || y == "pch_cannonlake temp1"@ || y == "iwlwifi_1 temp1"@ {
        assert(lacks_char(y, 'C'));
        lemma_replace_all_unchanged(known_label(l), p, rep);
        assert(false);
    }
    assert(known_label(y) == y);
    lemma_replace_all_absent(y, p, rep);
    if !is_known_label(l) && !contains_seq(l, p) {
        lemma_replace_all_absent(l, p, rep);
    }
}

// ---------------------------------------------------------------------------
// Grouping the files of a hwmon directory
// ---------------------------------------------------------------------------

/// The input and label files of one sensor of a hwmon directory.
#[derive(Debug, Clone)]
pub struct SensorFileGroup {
    /// The hwmon directory's name followed by the file stem, like `hwmon0temp1`.
    pub file_key: String,
    pub category: SensorCategory,
    pub format: SensorFormat,
    /// The name of the `*_input` file, if there is one.
    pub input: Option<String>,
    /// The name of the `*_label` file, if there is one.
    pub label: Option<String>,
}

/// The plain-value content of a file group.
pub struct GroupView {
    pub key: Seq<char>,
    pub category: SensorCategory,
    pub format: SensorFormat,
    pub input: Option<Seq<char>>,
    pub label: Option<Seq<char>>,
}

/// The view of an optional string.
pub open spec fn opt_chars(o: Option<String>) -> Option<Seq<char>> {
    match o {
        Some(s) => Some(s@),
        None => None,
    }
}

/// A copy of an optional string.
fn copy_opt(o: &Option<String>) -> (r: Option<String>)
    ensures
        opt_chars(r) == opt_chars(*o),
{
    match o {
        Some(s) => Some(s.clone()),
        None => None,
    }
}

impl SensorFileGroup {
    /// A copy of this group.
    pub fn duplicate(&self) -> (r: Self)
        ensures
            r.view() == self.view(),
    {
        SensorFileGroup {
            file_key: self.file_key.clone(),
            category: self.category,
            format: self.format,
            input: copy_opt(&self.input),
            label: copy_opt(&self.label),
        }
    }

    pub open spec fn view(&self) -> GroupView {
        GroupView {
            key: self.file_key@,
            category: self.category,
            format: self.format,
            input: opt_chars(self.input),
            label: opt_chars(self.label),
        }
    }
}

/// The views of a sequence of file groups.
pub open spec fn group_views(gs: Seq<SensorFileGroup>) -> Seq<GroupView> {
    gs.map_values(|g: SensorFileGroup| g.view())
}

/// For a file name ending in `_input` or `_label`: whether it is an input
/// file, and the stem before the suffix.
pub open spec fn file_role(name: Seq<char>) -> Option<(bool, Seq<char>)> {
    if has_suffix(name, "_input"@) {
        Some((true, name.take(name.len() - 6)))
    } else if has_suffix(name, "_label"@) {
        Some((false, name.take(name.len() - 6)))
    } else {
        None
    }
}

/// What a file of a hwmon directory is for: files `temp*`, `in*` and `fan*`
/// ending in `_input` or `_label` belong to temperature, voltage and fan
/// sensors, when that category is enabled. The result is the category,
/// the format, whether it is an input file, and the file stem.
pub open spec fn classify_file(name: Seq<char>, temp: bool, volt: bool, fan: bool) -> Option<
    (SensorCategory, SensorFormat, bool, Seq<char>),
> {
    let typed: Option<(SensorCategory, SensorFormat)> = if temp && has_prefix(name, "temp"@) {
        Some((SensorCategory::Temperature, SensorFormat::Temp))
    } else if volt && has_prefix(name, "in"@) {
        Some((SensorCategory::Voltage, SensorFormat::Voltage))
    } else if fan && has_prefix(name, "fan"@) {
        Some((SensorCategory::Fan, SensorFormat::Fan))
    } else {
        None
    };
    match typed {
        None => None,
        Some((c, f)) => match file_role(name) {
            None => None,
            Some((is_input, stem)) => Some((c, f, is_input, stem)),
        },
    }
}

/// The index of the last group with the given key, or -1.
pub open spec fn find_key(gs: Seq<GroupView>, key: Seq<char>) -> int
    decreases gs.len(),
{
    if gs.len() == 0 {
        -1
    } else if gs.last().key == key {
        gs.len() - 1
    } else {
        find_key(gs.drop_last(), key)
    }
}

/// The groups after one more file of the directory `hwmon` has been seen:
/// the file's group (created on first sight) records it as its input or
/// label file.
pub open spec fn add_file(
    gs: Seq<GroupView>,
    hwmon: Seq<char>,
    name: Seq<char>,
    temp: bool,
    volt: bool,
    fan: bool,
) -> Seq<GroupView> {
    match classify_file(name, temp, volt, fan) {
        None => gs,
        Some((c, f, is_input, stem)) => {
            let key = hwmon + stem;
            let i = find_key(gs, key);
            let g = if i >= 0 {
                gs[i]
            } else {
                GroupView { key, category: c, format: f, input: None, label: None }
            };
            let g2 = if is_input {
                GroupView { input: Some(name), ..g }
            } else {
                GroupView { label: Some(name), ..g }
            };
            if i >= 0 {
                gs.update(i, g2)
            } else {
                gs.push(g2)
            }
        },
    }
}

/// The file groups of the directory `hwmon` holding the files `names`, in
/// the order in which each group was first seen.
pub open spec fn group_files(
    hwmon: Seq<char>,
    names: Seq<Seq<char>>,
    temp: bool,
    volt: bool,
    fan: bool,
) -> Seq<GroupView>
    decreases names.len(),
{
    if names.len() == 0 {
        seq![]
    } else {
        add_file(group_files(hwmon, names.drop_last(), temp, volt, fan), hwmon, names.last(), temp, volt, fan)
    }
}

/// What every file group of a directory satisfies: its category and format
/// are temperature, voltage or fan, each only when enabled; and its key is the
/// directory name followed by the stem of its input and of its label file.
pub open spec fn group_ok(g: GroupView, hwmon: Seq<char>, temp: bool, volt: bool, fan: bool) -> bool {
    &&& (g.category == SensorCategory::Temperature && g.format == SensorFormat::Temp && temp)
        || (g.category == SensorCategory::Voltage && g.format == SensorFormat::Voltage && volt)
        || (g.category == SensorCategory::Fan && g.format == SensorFormat::Fan && fan)
    &&& g.input matches Some(n) ==> has_suffix(n, "_input"@) && g.key == hwmon + n.take(
        n.len() - 6,
    )
    &&& g.label matches Some(n) ==> has_suffix(n, "_label"@) && g.key == hwmon + n.take(
        n.len() - 6,
    )
}

proof fn lemma_find_key(gs: Seq<GroupView>, key: Seq<char>)
    ensures
        -1 <= find_key(gs, key) < gs.len(),
        find_key(gs, key) >= 0 ==> gs[find_key(gs, key)].key == key,
    decreases gs.len(),
{
    if gs.len() > 0 {
        lemma_find_key(gs.drop_last(), key);
    }
}

/// Every file group of a directory is well formed (`group_ok`).
pub proof fn lemma_groups_well_formed(
    hwmon: Seq<char>,
    names: Seq<Seq<char>>,
    temp: bool,
    volt: bool,
    fan: bool,
)
    ensures
        forall|i: int|
            0 <= i < group_files(hwmon, names, temp, volt, fan).len() ==> #[trigger] group_ok(
                group_files(hwmon, names, temp, volt, fan)[i],
                hwmon,
                temp,
                volt,
                fan,
            ),
    decreases names.len(),
{
    if names.len() > 0 {
        let gs = group_files(hwmon, names.drop_last(), temp, volt, fan);
        lemma_groups_well_formed(hwmon, names.drop_last(), temp, volt, fan);
        let name = names.last();
        let r = group_files(hwmon, names, temp, volt, fan);
        assert(r == add_file(gs, hwmon, name, temp, volt, fan));
        match classify_file(name, temp, volt, fan) {
            None => {},
            Some((c, f, is_input, stem)) => {
                let key = hwmon + stem;
                lemma_find_key(gs, key);
                let i = find_key(gs, key);
                assert forall|j: int| 0 <= j < r.len() implies #[trigger] group_ok(
                    r[j],
                    hwmon,
                    temp,
                    volt,
                    fan,
                ) by {
                    if j < gs.len() && j != i {
                        assert(r[j] == gs[j]);
                    } else if i >= 0 {
                        assert(group_ok(gs[i], hwmon, temp, volt, fan));
                    }
                }
            },
        }
    }
}

/// The role of a file.
fn file_role_exec(name: &[char]) -> (r: Option<(bool, Vec<char>)>)
    ensures
        match (r, file_role(name@)) {
            (Some((a, s)), Some((b, t))) => a == b && s@ == t,
            (None, None) => true,
            _ => false,
        },
{
    let inp = chars_of("_input");
    let lab = chars_of("_label");
    proof {
        reveal_strlit("_input");
        reveal_strlit("_label");
    }
    if ends_with(name, inp.as_slice()) {
        Some((true, slice_copy(name, 0, name.len() - 6)))
    } else if ends_with(name, lab.as_slice()) {
        Some((false, slice_copy(name, 0, name.len() - 6)))
    } else {
        None
    }
}

/// What a file of a hwmon directory is for.
pub fn classify_file_exec(name: &[char], temp: bool, volt: bool, fan: bool) -> (r: Option<
    (SensorCategory, SensorFormat, bool, Vec<char>),
>)
    ensures
        match (r, classify_file(name@, temp, volt, fan)) {
            (Some((c, f, i, s)), Some((c2, f2, i2, s2))) => c == c2 && f == f2 && i == i2 && s@
                == s2,
            (None, None) => true,
            _ => false,
        },
{
    let t = chars_of("temp");
    let v = chars_of("in");
    let f = chars_of("fan");
    let typed = if temp && starts_with(name, t.as_slice()) {
        Some((SensorCategory::Temperature, SensorFormat::Temp))
    } else if volt && starts_with(name, v.as_slice()) {
        Some((SensorCategory::Voltage, SensorFormat::Voltage))
    } else if fan && starts_with(name, f.as_slice()) {
        Some((SensorCategory::Fan, SensorFormat::Fan))
    } else {
        None
    };
    match typed {
        None => None,
        Some((c, fm)) => match file_role_exec(name) {
            None => None,
            Some((is_input, stem)) => Some((c, fm, is_input, stem)),
        },
    }
}

/// Groups the files of the hwmon directory `hwmon_name` by sensor.
pub fn group_sensor_files(
    hwmon_name: &str,
    filenames: &Vec<String>,
    show_temp: bool,
    show_voltage: bool,
    show_fan: bool,
) -> (r: Vec<SensorFileGroup>)
    ensures
        group_views(r@) == group_files(
            hwmon_name@,
            string_views(filenames@),
            show_temp,
            show_voltage,
            show_fan,
        ),
{
    let ghost names = string_views(filenames@);
    let hw = chars_of(hwmon_name);
    let mut groups: Vec<SensorFileGroup> = Vec::new();
    let mut n: usize = 0;
    proof {
        assert(names.take(0) =~= Seq::<Seq<char>>::empty());
        assert(group_views(groups@) =~= Seq::<GroupView>::empty());
    }
    while n < filenames.len()
        invariant
            n <= filenames@.len(),
            names == string_views(filenames@),
            hw@ == hwmon_name@,
            group_views(groups@) == group_files(
                hwmon_name@,
                names.take(n as int),
                show_temp,
                show_voltage,
                show_fan,
            ),
        decreases filenames@.len() - n,
    {
        let name = chars_of(filenames[n].as_str());
        let ghost before = group_views(groups@);
        proof {
            assert(names.take(n + 1).drop_last() == names.take(n as int));
            assert(names.take(n + 1).last() == name@);
        }
        match classify_file_exec(name.as_slice(), show_temp, show_voltage, show_fan) {
            None => {},
            Some((c, f, is_input, stem)) => {
                let key = concat(hw.as_slice(), stem.as_slice());
                let mut found: Option<usize> = None;
                let mut j: usize = 0;
                while j < groups.len()
                    invariant
                        j <= groups@.len(),
                        before == group_views(groups@),
                        match found {
                            Some(k) => k < j && find_key(before.take(j as int), key@) == k,
                            None => find_key(before.take(j as int), key@) == -1,
                        },
                    decreases groups@.len() - j,
                {
                    let gk = chars_of(groups[j].file_key.as_str());
                    proof {
                        assert(before.take(j + 1).drop_last() == before.take(j as int));
                        assert(before.take(j + 1).last() == groups@[j as int].view());
                    }
                    if chars_eq(gk.as_slice(), key.as_slice()) {
                        found = Some(j);
                    }
                    j = j + 1;
                }
                proof {
                    assert(before.take(groups@.len() as int) == before);
                }
                let name_string = string_of(name.as_slice());
                match found {
                    Some(k) => {
                        let mut g = groups[k].duplicate();
                        proof {
                            assert(g.view() == groups@[k as int].view());
                        }
                        if is_input {
                            g.input = Some(name_string);
                        } else {
                            g.label = Some(name_string);
                        }
                        groups.set(k, g);
                        proof {
                            assert(group_views(groups@) =~= before.update(k as int, g.view()));
                        }
                    },
                    None => {
                        let key_string = string_of(key.as_slice());
                        let mut g = SensorFileGroup {
                            file_key: key_string,
                            category: c,
                            format: f,
                            input: None,
                            label: None,
                        };
                        if is_input {
                            g.input = Some(name_string);
                        } else {
                            g.label = Some(name_string);
                        }
                        groups.push(g);
                        proof {
                            assert(group_views(groups@) =~= before.push(g.view()));
                        }
                    },
                }
            },
        }
        n = n + 1;
    }
    proof {
        assert(names.take(filenames@.len() as int) == names);
    }
    groups
}

// ---------------------------------------------------------------------------
// Naming the sensors of a directory
// ---------------------------------------------------------------------------

/// Whether the sensor module of a directory takes its label prefix from its
/// first temperature label (`coretemp` does, with the CPU package name).
pub fn needs_package_label(sensor_name: &str) -> (r: bool)
    ensures
        r == (sensor_name@ == "coretemp"@),
{
    let n = chars_of(sensor_name);
    chars_eq_str(n.as_slice(), "coretemp")
}

/// The label prefix of a directory's sensors: for `coretemp` its package
/// label when that could be read, otherwise the module name.
pub open spec fn label_prefix(sensor_name: Seq<char>, package_label: Option<Seq<char>>) -> Seq<
    char,
> {
    if sensor_name == "coretemp"@ {
        match package_label {
            Some(l) => l,
            None => sensor_name,
        }
    } else {
        sensor_name
    }
}

/// The label prefix of a directory's sensors.
pub fn sensor_prefix(sensor_name: &str, package_label: Option<String>) -> (r: String)
    ensures
        r@ == label_prefix(sensor_name@, opt_chars(package_label)),
{
    if needs_package_label(sensor_name) {
        match package_label {
            Some(l) => l,
            None => sensor_name.to_string(),
        }
    } else {
        sensor_name.to_string()
    }
}

/// What is known of a sensor's label file.
pub enum LabelFile {
    /// The sensor has no label file.
    Missing,
    /// The label file exists but could not be read.
    Unreadable,
    /// The label file holds this (trimmed) text.
    Text(String),
}

/// The first `_`-separated piece of a file name, like `temp1` for
/// `temp1_input`.
pub open spec fn file_number(input_file: Seq<char>) -> Seq<char> {
    split_on(input_file, '_')[0]
}

/// A sensor's own label: its label file's text; the prefix when that file
/// exists but cannot be read; the prefix and the input file's number
/// otherwise.
pub open spec fn label_text(prefix: Seq<char>, label: LabelFile, input_file: Seq<char>) -> Seq<
    char,
> {
    match label {
        LabelFile::Text(t) => t@,
        LabelFile::Unreadable => prefix,
        LabelFile::Missing => prefix + " "@ + file_number(input_file),
    }
}

/// A sensor's full label before deduplication: the module name followed by
/// its own label, unless the two are the same, then cleaned up.
pub open spec fn full_label(sensor_name: Seq<char>, text: Seq<char>) -> Seq<char> {
    cleaned_label(
        if sensor_name != text {
            sensor_name + " "@ + text
        } else {
            text
        },
    )
}

/// The full label of a sensor, before deduplication.
pub fn sensor_full_label(sensor_name: &str, prefix: &str, label: LabelFile, input_file: &str) -> (r:
    String)
    ensures
        r@ == full_label(sensor_name@, label_text(prefix@, label, input_file@)),
{
    let ghost lab = label;
    let text = match label {
        LabelFile::Text(t) => chars_of(t.as_str()),
        LabelFile::Unreadable => chars_of(prefix),
        LabelFile::Missing => {
            let mut v = chars_of(prefix);
            push_str(&mut v, " ");
            let f = chars_of(input_file);
            let end = find_char(f.as_slice(), 0, '_');
            let num = slice_copy(f.as_slice(), 0, end);
            proof {
                crate::text::lemma_split_on_len(input_file@, '_');
                assert(input_file@.skip(0) == input_file@);
            }
            push_all(&mut v, num.as_slice());
            v
        },
    };
    let name = chars_of(sensor_name);
    let combined = if !chars_eq(name.as_slice(), text.as_slice()) {
        let mut v = name;
        push_str(&mut v, " ");
        push_all(&mut v, text.as_slice());
        v
    } else {
        text
    };
    let s = string_of(combined.as_slice());
    clean_label(s.as_str())
}

/// The key of a sensor: `_<category>_<file key with '/' as '_'>_<format>_`.
pub open spec fn sensor_key(category: SensorCategory, file_key: Seq<char>, format: SensorFormat) -> Seq<
    char,
> {
    "_"@ + category_name(category) + "_"@ + replace_all(file_key, "/"@, "_"@) + "_"@
        + format_name(format) + "_"@
}

/// Builds the key of a sensor.
pub fn make_sensor_key(category: SensorCategory, file_key: &str, format: SensorFormat) -> (r: String)
    ensures
        r@ == sensor_key(category, file_key@, format),
{
    let mut v = chars_of("_");
    let cat = category.name_chars();
    push_all(&mut v, cat.as_slice());
    push_str(&mut v, "_");
    let fk = chars_of(file_key);
    let slash = chars_of("/");
    let under = chars_of("_");
    proof {
        reveal_strlit("/");
    }
    let replaced = replace_chars(fk.as_slice(), slash.as_slice(), under.as_slice());
    push_all(&mut v, replaced.as_slice());
    push_str(&mut v, "_");
    push_str(&mut v, format.as_str());
    push_str(&mut v, "_");
    string_of(v.as_slice())
}

/// Counts the labels handed out per category, so that a repeated label gets
/// a number.
pub struct LabelCounter {
    seen: Vec<(String, u32)>,
}

/// The number of times `key` was counted in `seen`, as the count recorded
/// for its last entry (0 when absent).
pub open spec fn count_of(seen: Seq<(String, u32)>, key: Seq<char>) -> u32
    decreases seen.len(),
{
    if seen.len() == 0 {
        0
    } else if seen.last().0@ == key {
        seen.last().1
    } else {
        count_of(seen.drop_last(), key)
    }
}

/// The deduplication key of a label in a category: `<category>:<label>`.
pub open spec fn dedup_key(category: SensorCategory, label: Seq<char>) -> Seq<char> {
    category_name(category) + ":"@ + label
}

/// A label numbered when it was already used in its category: the label
/// itself the first time, `<label> <n>` the n-th time.
pub open spec fn numbered_label(label: Seq<char>, count: u32) -> Seq<char> {
    if count > 1 {
        label + " "@ + decimal(count as nat)
    } else {
        label
    }
}

impl LabelCounter {
    /// How many times each deduplication key has been counted.
    pub closed spec fn count(&self, key: Seq<char>) -> u32 {
        count_of(self.seen@, key)
    }

    /// A counter that has seen no label.
    pub fn new() -> (r: Self)
        ensures
            forall|k: Seq<char>| r.count(k) == 0,
    {
        LabelCounter { seen: Vec::new() }
    }

    /// Counts one more use of `label` in `category` and returns the label to
    /// show: numbered from its second use on.
    pub fn dedup(&mut self, category: SensorCategory, label: String) -> (r: String)
        ensures
            final(self).count(dedup_key(category, label@)) == sat_inc(
                old(self).count(dedup_key(category, label@)),
            ),
            forall|k: Seq<char>|
                k != dedup_key(category, label@) ==> final(self).count(k) == old(self).count(k),
            r@ == numbered_label(label@, final(self).count(dedup_key(category, label@))),
    {
        let mut key = category.name_chars();
        push_str(&mut key, ":");
        let lc = chars_of(label.as_str());
        push_all(&mut key, lc.as_slice());
        let mut current: u32 = 0;
        let mut i: usize = 0;
        while i < self.seen.len()
            invariant
                i <= self.seen@.len(),
                current == count_of(self.seen@.take(i as int), key@),
            decreases self.seen@.len() - i,
        {
            let k = chars_of(self.seen[i].0.as_str());
            proof {
                assert(self.seen@.take(i + 1).drop_last() == self.seen@.take(i as int));
            }
            if chars_eq(k.as_slice(), key.as_slice()) {
                current = self.seen[i].1;
            }
            i = i + 1;
        }
        proof {
            assert(self.seen@.take(self.seen@.len() as int) == self.seen@);
        }
        let next = if current < u32::MAX {
            current + 1
        } else {
            current
        };
        let ghost old_seen = self.seen@;
        let key_string = string_of(key.as_slice());
        self.seen.push((key_string, next));
        proof {
            assert(self.seen@.drop_last() == old_seen);
        }
        if next > 1 {
            let mut v = lc;
            push_str(&mut v, " ");
            let d = decimal_chars(next as u64);
            push_all(&mut v, d.as_slice());
            string_of(v.as_slice())
        } else {
            label
        }
    }
}

/// `n + 1`, saturating at the largest `u32`.
pub open spec fn sat_inc(n: u32) -> u32 {
    if n < u32::MAX {
        (n + 1) as u32
    } else {
        n
    }
}

/// Whether a sensor is shown: fans always, temperatures and voltages unless
/// zeros are hidden and the sensor reads zero.
pub open spec fn shows_sensor(hide_zeros: bool, reads_zero: bool, category: SensorCategory) -> bool {
    !(hide_zeros && reads_zero && category != SensorCategory::Fan)
}

/// The sensor described by a file group, or `None` when it has no input file
/// or is hidden for reading zero. `reads_zero` tells whether the current
/// value is zero; `label` what is known of the label file.
pub fn build_sensor(
    group: &SensorFileGroup,
    sensor_name: &str,
    prefix: &str,
    base_path: &str,
    label: LabelFile,
    reads_zero: bool,
    hide_zeros: bool,
    counter: &mut LabelCounter,
) -> (r: Option<HwmonSensor>)
    ensures
        match group.input {
            None => r.is_none() && *final(counter) == *old(counter),
            Some(input) => if !shows_sensor(hide_zeros, reads_zero, group.category) {
                r.is_none() && *final(counter) == *old(counter)
            } else {
                let fl = full_label(sensor_name@, label_text(prefix@, label, input@));
                let dk = dedup_key(group.category, fl);
                &&& final(counter).count(dk) == sat_inc(old(counter).count(dk))
                &&& forall|k: Seq<char>| k != dk ==> final(counter).count(k) == old(counter).count(k)
                &&& r matches Some(s) && {
                    &&& s.name@ == sensor_name@
                    &&& s.label@ == numbered_label(fl, final(counter).count(dk))
                    &&& s.input_path@ == path_join(base_path@, input@, '/')
                    &&& s.category == group.category
                    &&& s.format == group.format
                    &&& s.key@ == sensor_key(group.category, group.file_key@, group.format)
                }
            },
        },
{
    let input = match &group.input {
        None => return None,
        Some(i) => i,
    };
    if hide_zeros && reads_zero && group.category != SensorCategory::Fan {
        return None;
    }
    let fl = sensor_full_label(sensor_name, prefix, label, input.as_str());
    let shown = counter.dedup(group.category, fl);
    let key = make_sensor_key(group.category, group.file_key.as_str(), group.format);
    Some(
        HwmonSensor {
            name: sensor_name.to_string(),
            label: shown,
            input_path: join_path(base_path, input.as_str()),
            category: group.category,
            format: group.format,
            key,
        },
    )
}

/// What was read of a sensor's files: `input` is `None` when the input file
/// could not be read, otherwise whether its value is zero; `label` is what is
/// known of the label file.
pub struct GroupReading {
    pub input: Option<bool>,
    pub label: LabelFile,
}

/// Whether `s` is the sensor that group `g`, read as `rd`, gives: the group
/// has an input file that could be read, the sensor is not hidden for
/// reading zero, and the sensor's name, label, path, category, format and key
/// are those of the group.
pub open spec fn sensor_of_group(
    s: HwmonSensor,
    g: SensorFileGroup,
    rd: GroupReading,
    sensor_name: Seq<char>,
    prefix: Seq<char>,
    base_path: Seq<char>,
    hide_zeros: bool,
) -> bool {
    &&& g.input matches Some(input)
    &&& rd.input matches Some(zero)
    &&& shows_sensor(hide_zeros, zero, g.category)
    &&& s.name@ == sensor_name
    &&& exists|c: u32|
        s.label@ == numbered_label(full_label(sensor_name, label_text(prefix, rd.label, input@)), c)
    &&& s.input_path@ == path_join(base_path, input@, '/')
    &&& s.category == g.category
    &&& s.format == g.format
    &&& s.key@ == sensor_key(g.category, g.file_key@, g.format)
}

/// Whether `s` is the sensor that one of the read groups gives.
pub open spec fn from_some_group(
    s: HwmonSensor,
    reads: Seq<(SensorFileGroup, GroupReading)>,
    sensor_name: Seq<char>,
    prefix: Seq<char>,
    base_path: Seq<char>,
    hide_zeros: bool,
) -> bool {
    exists|i: int|
        0 <= i < reads.len() && #[trigger] sensor_of_group(
            s,
            reads[i].0,
            reads[i].1,
            sensor_name,
            prefix,
            base_path,
            hide_zeros,
        )
}

/// Whether group `g`, read as `rd`, gives a sensor.
pub open spec fn group_gives_sensor(g: SensorFileGroup, rd: GroupReading, hide_zeros: bool) -> bool {
    &&& g.input is Some
    &&& rd.input matches Some(zero)
    &&& shows_sensor(hide_zeros, zero, g.category)
}

/// How many of the read groups give a sensor.
pub open spec fn given_count(reads: Seq<(SensorFileGroup, GroupReading)>, hide_zeros: bool) -> nat
    decreases reads.len(),
{
    if reads.len() == 0 {
        0
    } else {
        given_count(reads.drop_last(), hide_zeros) + if group_gives_sensor(
            reads.last().0,
            reads.last().1,
            hide_zeros,
        ) {
            1nat
        } else {
            0nat
        }
    }
}

/// The full label of the sensor that group `g`, read as `rd`, gives, before
/// numbering.
pub open spec fn group_full_label(
    g: SensorFileGroup,
    rd: GroupReading,
    sensor_name: Seq<char>,
    prefix: Seq<char>,
) -> Seq<char> {
    full_label(sensor_name, label_text(prefix, rd.label, g.input->0@))
}

/// The key under which the label of group `g`'s sensor is counted.
pub open spec fn group_dedup_key(
    g: SensorFileGroup,
    rd: GroupReading,
    sensor_name: Seq<char>,
    prefix: Seq<char>,
) -> Seq<char> {
    dedup_key(g.category, group_full_label(g, rd, sensor_name, prefix))
}

/// How many of the read groups give a sensor whose label is counted under
/// `key`.
pub open spec fn label_uses(
    reads: Seq<(SensorFileGroup, GroupReading)>,
    hide_zeros: bool,
    sensor_name: Seq<char>,
    prefix: Seq<char>,
    key: Seq<char>,
) -> nat
    decreases reads.len(),
{
    if reads.len() == 0 {
        0
    } else {
        label_uses(reads.drop_last(), hide_zeros, sensor_name, prefix, key) + if group_gives_sensor(
            reads.last().0,
            reads.last().1,
            hide_zeros,
        ) && group_dedup_key(reads.last().0, reads.last().1, sensor_name, prefix) == key {
            1nat
        } else {
            0nat
        }
    }
}

/// A count raised by `n`, stopping at the largest `u32`.
pub open spec fn capped(n: int) -> u32 {
    if n > u32::MAX {
        u32::MAX
    } else {
        n as u32
    }
}

/// Whether `r` is the list of sensors of a directory whose groups were read as
/// `reads`, with labels counted from `before` to `after`: one sensor for every
/// group that gives one, in the order of the groups; the sensor of the i-th
/// group is that group's (`sensor_of_group`) and its label is numbered by the
/// count of its label after the uses up to and including that group; and each
/// count rises by the uses of its label.
pub open spec fn directory_result(
    r: Seq<HwmonSensor>,
    reads: Seq<(SensorFileGroup, GroupReading)>,
    sensor_name: Seq<char>,
    prefix: Seq<char>,
    base_path: Seq<char>,
    hide_zeros: bool,
    before: LabelCounter,
    after: LabelCounter,
) -> bool {
    &&& r.len() == given_count(reads, hide_zeros)
    &&& forall|i: int|
        0 <= i < reads.len() && group_gives_sensor(#[trigger] reads[i].0, reads[i].1, hide_zeros)
            ==> {
            let s = r[given_count(reads.take(i), hide_zeros) as int];
            let dk = group_dedup_key(reads[i].0, reads[i].1, sensor_name, prefix);
            &&& sensor_of_group(s, reads[i].0, reads[i].1, sensor_name, prefix, base_path, hide_zeros)
            &&& s.label@ == numbered_label(
                group_full_label(reads[i].0, reads[i].1, sensor_name, prefix),
                capped(before.count(dk) + label_uses(reads.take(i + 1), hide_zeros, sensor_name, prefix, dk)),
            )
        }
    &&& forall|k: Seq<char>|
        #[trigger] after.count(k) == capped(
            before.count(k) + label_uses(reads, hide_zeros, sensor_name, prefix, k),
        )
}

/// The sensors of one hwmon directory, from its file groups and what was read
/// of each (`directory_result`); repeated labels are numbered by `counter`,
/// which keeps counting across directories. Every sensor is the one some
/// group gives.
pub fn directory_sensors(
    reads: Vec<(SensorFileGroup, GroupReading)>,
    sensor_name: &str,
    prefix: &str,
    base_path: &str,
    hide_zeros: bool,
    counter: &mut LabelCounter,
) -> (r: Vec<HwmonSensor>)
    ensures
        directory_result(
            r@,
            reads@,
            sensor_name@,
            prefix@,
            base_path@,
            hide_zeros,
            *old(counter),
            *final(counter),
        ),
        forall|j: int|
            0 <= j < r@.len() ==> from_some_group(
                #[trigger] r@[j],
                reads@,
                sensor_name@,
                prefix@,
                base_path@,
                hide_zeros,
            ),
{
    let ghost all = reads@;
    let ghost c0 = *counter;
    let ghost mut origin: Seq<int> = Seq::empty();
    let mut r: Vec<HwmonSensor> = Vec::new();
    proof {
        assert(all.take(0) =~= Seq::<(SensorFileGroup, GroupReading)>::empty());
    }
    for e in it: reads.into_iter()
        invariant
            it.seq() == all,
            r@.len() == given_count(all.take(it.index() as int), hide_zeros),
            origin.len() == r@.len(),
            forall|j: int|
                0 <= j < r@.len() ==> 0 <= #[trigger] origin[j] < all.len() && sensor_of_group(
                    r@[j],
                    all[origin[j]].0,
                    all[origin[j]].1,
                    sensor_name@,
                    prefix@,
                    base_path@,
                    hide_zeros,
                ),
            forall|i: int|
                0 <= i < it.index() && group_gives_sensor(#[trigger] all[i].0, all[i].1, hide_zeros)
                    ==> {
                    let pos = given_count(all.take(i), hide_zeros) as int;
                    let dk = group_dedup_key(all[i].0, all[i].1, sensor_name@, prefix@);
                    &&& pos < r@.len()
                    &&& sensor_of_group(
                        r@[pos],
                        all[i].0,
                        all[i].1,
                        sensor_name@,
                        prefix@,
                        base_path@,
                        hide_zeros,
                    )
                    &&& r@[pos].label@ == numbered_label(
                        group_full_label(all[i].0, all[i].1, sensor_name@, prefix@),
                        capped(
                            c0.count(dk) + label_uses(
                                all.take(i + 1),
                                hide_zeros,
                                sensor_name@,
                                prefix@,
                                dk,
                            ),
                        ),
                    )
                },
            forall|k: Seq<char>|
                #[trigger] counter.count(k) == capped(
                    c0.count(k) + label_uses(
                        all.take(it.index() as int),
                        hide_zeros,
                        sensor_name@,
                        prefix@,
                        k,
                    ),
                ),
    {
        let ghost idx = it.index() as int;
        let ghost before = r@;
        let ghost before_origin = origin;
        let ghost cb = *counter;
        let ghost entry = e;
        assert(entry == all[idx]);
        proof {
            let t1 = all.take(idx + 1);
            assert(t1.drop_last() =~= all.take(idx));
            assert(t1.last() == all[idx]);
        }
        let (g, rd) = e;
        let GroupReading { input, label } = rd;
        let ghost lab = label;
        match input {
            None => {},
            Some(zero) => {
                let built = build_sensor(&g, sensor_name, prefix, base_path, label, zero, hide_zeros, counter);
                match built {
                    Some(s) => {
                        r.push(s);
                        proof {
                            origin = origin.push(idx);
                            assert(r@[before.len() as int] == s);
                            let c = counter.count(
                                dedup_key(
                                    g.category,
                                    full_label(
                                        sensor_name@,
                                        label_text(prefix@, lab, g.input->0@),
                                    ),
                                ),
                            );
                            assert(sensor_of_group(
                                s,
                                all[idx].0,
                                all[idx].1,
                                sensor_name@,
                                prefix@,
                                base_path@,
                                hide_zeros,
                            ));
                        }
                    },
                    None => {},
                }
            },
        }
        proof {
            let t1 = all.take(idx + 1);
            let gives = group_gives_sensor(all[idx].0, all[idx].1, hide_zeros);
            let dk0 = group_dedup_key(all[idx].0, all[idx].1, sensor_name@, prefix@);
            assert(gives ==> r@.len() == before.len() + 1);
            assert(!gives ==> r@ == before && *counter == cb);
            assert forall|k: Seq<char>|
                #[trigger] counter.count(k) == capped(
                    c0.count(k) + label_uses(t1, hide_zeros, sensor_name@, prefix@, k),
                ) by {
                if gives && k == dk0 {
                    assert(counter.count(k) == sat_inc(cb.count(k)));
                } else if gives {
                    assert(counter.count(k) == cb.count(k));
                }
            }
            assert forall|j: int| 0 <= j < r@.len() implies 0 <= #[trigger] origin[j] < all.len()
                && sensor_of_group(
                r@[j],
                all[origin[j]].0,
                all[origin[j]].1,
                sensor_name@,
                prefix@,
                base_path@,
                hide_zeros,
            ) by {
                if j < before.len() {
                    assert(r@[j] == before[j]);
                    assert(origin[j] == before_origin[j]);
                }
            }
            assert forall|i: int|
                0 <= i < idx + 1 && group_gives_sensor(#[trigger] all[i].0, all[i].1, hide_zeros)
                    implies {
                    let pos = given_count(all.take(i), hide_zeros) as int;
                    let dk = group_dedup_key(all[i].0, all[i].1, sensor_name@, prefix@);
                    &&& pos < r@.len()
                    &&& sensor_of_group(
                        r@[pos],
                        all[i].0,
                        all[i].1,
                        sensor_name@,
                        prefix@,
                        base_path@,
                        hide_zeros,
                    )
                    &&& r@[pos].label@ == numbered_label(
                        group_full_label(all[i].0, all[i].1, sensor_name@, prefix@),
                        capped(
                            c0.count(dk) + label_uses(
                                all.take(i + 1),
                                hide_zeros,
                                sensor_name@,
                                prefix@,
                                dk,
                            ),
                        ),
                    )
                } by {
                if i < idx {
                    let pos = given_count(all.take(i), hide_zeros) as int;
                    assert(r@[pos] == before[pos]);
                } else {
                    let dk = group_dedup_key(all[i].0, all[i].1, sensor_name@, prefix@);
                    assert(counter.count(dk) == capped(
                        c0.count(dk) + label_uses(t1, hide_zeros, sensor_name@, prefix@, dk),
                    ));
                }
            }
        }
    }
    proof {
        assert(all.take(all.len() as int) =~= all);
        assert forall|j: int| 0 <= j < r@.len() implies from_some_group(
            #[trigger] r@[j],
            reads@,
            sensor_name@,
            prefix@,
            base_path@,
            hide_zeros,
        ) by {
            let i = origin[j];
            assert(all[i] == reads@[i]);
            assert(sensor_of_group(
                r@[j],
                reads@[i].0,
                reads@[i].1,
                sensor_name@,
                prefix@,
                base_path@,
                hide_zeros,
            ));
        }
    }
    r
}

/// Every sensor of a directory whose groups are those of its files is a
/// temperature, voltage or fan sensor of an enabled kind, is not a hidden
/// zero reading, and has the key `_<category>_<directory><input file
/// stem>_<format>_` of its `*_input` file.
pub proof fn lemma_discovered_sensor(
    s: HwmonSensor,
    g: SensorFileGroup,
    rd: GroupReading,
    hwmon: Seq<char>,
    temp: bool,
    volt: bool,
    fan: bool,
    sensor_name: Seq<char>,
    prefix: Seq<char>,
    base_path: Seq<char>,
    hide_zeros: bool,
)
    requires
        group_ok(g.view(), hwmon, temp, volt, fan),
        sensor_of_group(s, g, rd, sensor_name, prefix, base_path, hide_zeros),
    ensures
        (s.category == SensorCategory::Temperature && s.format == SensorFormat::Temp && temp) || (
        s.category == SensorCategory::Voltage && s.format == SensorFormat::Voltage && volt) || (
        s.category == SensorCategory::Fan && s.format == SensorFormat::Fan && fan),
        hide_zeros && s.category != SensorCategory::Fan ==> rd.input == Some(false),
        g.input matches Some(n) && has_suffix(n@, "_input"@) && s.key@ == sensor_key(
            s.category,
            hwmon + n@.take(n@.len() - 6),
            s.format,
        ),
{
}

// ---------------------------------------------------------------------------
// A directory's sensors from its listing
// ---------------------------------------------------------------------------

/// Whether `rd` is what was read of group `g`, given the `*_input` files of
/// the directory that could be read, each with whether its value is zero, and
/// the `*_label` files that could be read, each with its trimmed text. A file
/// missing from its list could not be read.
pub open spec fn reading_of_files(
    rd: GroupReading,
    g: SensorFileGroup,
    inputs: Seq<(String, bool)>,
    labels: Seq<(String, String)>,
) -> bool {
    &&& rd.input == match g.input {
        Some(n) => assoc_lookup(inputs, n@),
        None => None,
    }
    &&& match g.label {
        None => rd.label is Missing,
        Some(n) => match assoc_lookup(labels, n@) {
            Some(t) => rd.label matches LabelFile::Text(x) && x@ == t@,
            None => rd.label is Unreadable,
        },
    }
}

/// What was read of the files of group `g`.
fn read_group(
    g: &SensorFileGroup,
    inputs: &Vec<(String, bool)>,
    labels: &Vec<(String, String)>,
) -> (rd: GroupReading)
    ensures
        reading_of_files(rd, *g, inputs@, labels@),
{
    let input = match &g.input {
        Some(n) => {
            let nc = chars_of(n.as_str());
            let p = assoc_position(inputs, nc.as_slice());
            proof {
                lemma_assoc_lookup(inputs@, nc@, p);
            }
            match p {
                Some(i) => Some(inputs[i].1),
                None => None,
            }
        },
        None => None,
    };
    let label = match &g.label {
        Some(n) => {
            let nc = chars_of(n.as_str());
            let p = assoc_position(labels, nc.as_slice());
            proof {
                lemma_assoc_lookup(labels@, nc@, p);
            }
            match p {
                Some(i) => LabelFile::Text(labels[i].1.clone()),
                None => LabelFile::Unreadable,
            }
        },
        None => LabelFile::Missing,
    };
    GroupReading { input, label }
}

/// Whether `s` is a sensor of the directory `hwmon` with files `names`: it is
/// a temperature, voltage or fan sensor of an enabled kind; it comes from an
/// `*_input` file `n` that could be read and, unless the sensor is a fan, does
/// not read zero when zeros are hidden; its key is
/// `_<category>_<hwmon><n without _input>_<format>_` and its path is `n` under
/// `base_path`; and it is the sensor that one of the directory's file groups,
/// read as the files say, gives.
pub open spec fn listed_sensor(
    s: HwmonSensor,
    hwmon: Seq<char>,
    names: Seq<Seq<char>>,
    inputs: Seq<(String, bool)>,
    labels: Seq<(String, String)>,
    sensor_name: Seq<char>,
    prefix: Seq<char>,
    base_path: Seq<char>,
    temp: bool,
    volt: bool,
    fan: bool,
    hide_zeros: bool,
) -> bool {
    &&& (s.category == SensorCategory::Temperature && s.format == SensorFormat::Temp && temp) || (
    s.category == SensorCategory::Voltage && s.format == SensorFormat::Voltage && volt) || (
    s.category == SensorCategory::Fan && s.format == SensorFormat::Fan && fan)
    &&& exists|n: Seq<char>|
        {
            &&& has_suffix(n, "_input"@)
            &&& s.key@ == sensor_key(s.category, hwmon + n.take(n.len() - 6), s.format)
            &&& s.input_path@ == path_join(base_path, n, '/')
            &&& #[trigger] assoc_lookup(inputs, n) matches Some(zero)
            &&& shows_sensor(hide_zeros, zero, s.category)
        }
    &&& exists|i: int, g: SensorFileGroup, rd: GroupReading|
        #![trigger group_files(hwmon, names, temp, volt, fan)[i], sensor_of_group(s, g, rd, sensor_name, prefix, base_path, hide_zeros)]
        {
            &&& 0 <= i < group_files(hwmon, names, temp, volt, fan).len()
            &&& g.view() == group_files(hwmon, names, temp, volt, fan)[i]
            &&& reading_of_files(rd, g, inputs, labels)
            &&& sensor_of_group(s, g, rd, sensor_name, prefix, base_path, hide_zeros)
        }
}

/// Whether `reads` are the file groups of the directory `hwmon` with files
/// `names`, in order, each with what was read of its files.
pub open spec fn listing_reads(
    reads: Seq<(SensorFileGroup, GroupReading)>,
    hwmon: Seq<char>,
    names: Seq<Seq<char>>,
    temp: bool,
    volt: bool,
    fan: bool,
    inputs: Seq<(String, bool)>,
    labels: Seq<(String, String)>,
) -> bool {
    &&& reads.len() == group_files(hwmon, names, temp, volt, fan).len()
    &&& forall|m: int|
        0 <= m < reads.len() ==> (#[trigger] reads[m]).0.view() == group_files(
            hwmon,
            names,
            temp,
            volt,
            fan,
        )[m] && reading_of_files(reads[m].1, reads[m].0, inputs, labels)
}

/// The sensors of the hwmon directory `hwmon_name`, from the names of its
/// files and what could be read of them (`reading_of_files`): every sensor is
/// one of the directory's (`listed_sensor`); and the list is the directory
/// result (`directory_result`) of its file groups read as the files say: one
/// sensor per group that gives one, in the order of the groups, with repeated
/// labels numbered by `counter`, which keeps counting across directories.
pub fn listing_sensors(
    hwmon_name: &str,
    filenames: &Vec<String>,
    inputs: &Vec<(String, bool)>,
    labels: &Vec<(String, String)>,
    sensor_name: &str,
    prefix: &str,
    base_path: &str,
    show_temp: bool,
    show_voltage: bool,
    show_fan: bool,
    hide_zeros: bool,
    counter: &mut LabelCounter,
) -> (r: Vec<HwmonSensor>)
    ensures
        forall|j: int|
            0 <= j < r@.len() ==> listed_sensor(
                #[trigger] r@[j],
                hwmon_name@,
                string_views(filenames@),
                inputs@,
                labels@,
                sensor_name@,
                prefix@,
                base_path@,
                show_temp,
                show_voltage,
                show_fan,
                hide_zeros,
            ),
        exists|reads: Seq<(SensorFileGroup, GroupReading)>|
            #[trigger] listing_reads(
                reads,
                hwmon_name@,
                string_views(filenames@),
                show_temp,
                show_voltage,
                show_fan,
                inputs@,
                labels@,
            ) && directory_result(
                r@,
                reads,
                sensor_name@,
                prefix@,
                base_path@,
                hide_zeros,
                *old(counter),
                *final(counter),
            ),
{
    let ghost names = string_views(filenames@);
    let ghost gf = group_files(hwmon_name@, names, show_temp, show_voltage, show_fan);
    let groups = group_sensor_files(hwmon_name, filenames, show_temp, show_voltage, show_fan);
    let ghost gs = groups@;
    let mut reads: Vec<(SensorFileGroup, GroupReading)> = Vec::new();
    for g in it: groups.into_iter()
        invariant
            it.seq() == gs,
            reads@.len() == it.index(),
            forall|m: int|
                0 <= m < reads@.len() ==> (#[trigger] reads@[m]).0 == gs[m] && reading_of_files(
                    reads@[m].1,
                    gs[m],
                    inputs@,
                    labels@,
                ),
    {
        let ghost idx = it.index() as int;
        let ghost before = reads@;
        let rd = read_group(&g, inputs, labels);
        reads.push((g, rd));
        proof {
            assert forall|m: int| 0 <= m < reads@.len() implies (#[trigger] reads@[m]).0 == gs[m]
                && reading_of_files(reads@[m].1, gs[m], inputs@, labels@) by {
                if m < before.len() {
                    assert(reads@[m] == before[m]);
                }
            }
        }
    }
    let ghost all = reads@;
    let r = directory_sensors(reads, sensor_name, prefix, base_path, hide_zeros, counter);
    proof {
        lemma_groups_well_formed(hwmon_name@, names, show_temp, show_voltage, show_fan);
        assert(group_views(gs) == gf);
        assert forall|j: int| 0 <= j < r@.len() implies listed_sensor(
            #[trigger] r@[j],
            hwmon_name@,
            names,
            inputs@,
            labels@,
            sensor_name@,
            prefix@,
            base_path@,
            show_temp,
            show_voltage,
            show_fan,
            hide_zeros,
        ) by {
            let s = r@[j];
            assert(from_some_group(s, all, sensor_name@, prefix@, base_path@, hide_zeros));
            let i = choose|i: int|
                0 <= i < all.len() && #[trigger] sensor_of_group(
                    s,
                    all[i].0,
                    all[i].1,
                    sensor_name@,
                    prefix@,
                    base_path@,
                    hide_zeros,
                );
            let g = all[i].0;
            let rd = all[i].1;
            assert(g == gs[i]);
            assert(g.view() == gf[i]);
            assert(group_ok(gf[i], hwmon_name@, show_temp, show_voltage, show_fan));
            lemma_discovered_sensor(
                s,
                g,
                rd,
                hwmon_name@,
                show_temp,
                show_voltage,
                show_fan,
                sensor_name@,
                prefix@,
                base_path@,
                hide_zeros,
            );
            let n = g.input->0@;
            assert(assoc_lookup(inputs@, n) == rd.input);
            assert(sensor_of_group(s, g, rd, sensor_name@, prefix@, base_path@, hide_zeros));
        }
        assert forall|m: int| 0 <= m < all.len() implies (#[trigger] all[m]).0.view() == gf[m]
            && reading_of_files(all[m].1, all[m].0, inputs@, labels@) by {
            assert(all[m].0 == gs[m]);
        }
        assert(listing_reads(
            all,
            hwmon_name@,
            names,
            show_temp,
            show_voltage,
            show_fan,
            inputs@,
            labels@,
        ));
    }
    r
}

/// The sensors of one category out of a discovery result, in order.
pub open spec fn of_category(s: Seq<HwmonSensor>, c: SensorCategory) -> Seq<HwmonSensor> {
    s.filter(|x: HwmonSensor| x.category == c)
}

/// Keeps the sensors of one category.
pub fn retain_category(sensors: Vec<HwmonSensor>, category: SensorCategory) -> (r: Vec<HwmonSensor>)
    ensures
        r@ == of_category(sensors@, category),
{
    let mut r: Vec<HwmonSensor> = Vec::new();
    let ghost all = sensors@;
    proof {
        assert(all.take(0).filter(|x: HwmonSensor| x.category == category) =~= Seq::<
            HwmonSensor,
        >::empty());
    }
    for s in it: sensors.into_iter()
        invariant
            it.seq() == all,
            r@ == of_category(all.take(it.index() as int), category),
    {
        proof {
            assert(all.take(it.index() + 1).drop_last() == all.take(it.index() as int));
            reveal_with_fuel(Seq::<HwmonSensor>::filter, 1);
        }
        if s.category == category {
            r.push(s);
        }
    }
    proof {
        assert(all.take(all.len() as int) == all);
    }
    r
}

} // verus!
