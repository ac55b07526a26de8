//! Energy and power sensors: what kinds exist, how they are named and
//! displayed, which devices become sensors, and how raw counter readings
//! turn into energy deltas.
use vstd::prelude::*;
use vstd::string::StringExecFns;
use crate::text::{
    all_digits, chars_of, contains_seq, decimal, is_digit, is_prefix, occurs, parse_u32, parse_u64,
    parse_unsigned, starts_with, str_eq, string_of, strip_prefix_all, trim, trim_chars,
    trim_start_matches, u64_to_decimal, words, split_whitespace, occurs_at,
};

verus! {

/// The kind of a sensor.
#[derive(Debug, Clone, Copy, PartialEq, Eq, Structural)]
pub enum SensorType {
    /// An Intel/AMD RAPL energy counter under `/sys/class/powercap`.
    Rapl,
    /// An NVIDIA GPU read through `nvidia-smi`.
    Nvidia,
    /// A disk under `/sys/block`, HDD or SSD.
    Disk,
}

/// A sensor found on this machine.
pub struct SensorInfo {
    pub id: String,
    pub raw_name: String,
    pub friendly_name: String,
    pub sensor_type: SensorType,
    pub path: String,
    pub max_energy_range_uj: u64,
}

/// The display name of a sensor from its id and raw name: RAPL domains by
/// their prefix (`package`, `core`, `uncore`, `dram`, `psys`), disks by
/// `SSD`/`HDD` in the raw name or `nvme`/`sd` in the id (with the `disk_`
/// prefix of the id dropped), NVIDIA GPUs by their id, and otherwise the
/// raw name, or the id when the raw name is empty.
pub open spec fn friendly_name(id: Seq<char>, raw: Seq<char>) -> Seq<char> {
    if is_prefix("package"@, raw) {
        "🔳 CPU Package"@
    } else if is_prefix("core"@, raw) {
        "🧠 Cores"@
    } else if is_prefix("uncore"@, raw) {
        "🎨 iGPU"@
    } else if is_prefix("dram"@, raw) {
        "📟 RAM"@
    } else if is_prefix("psys"@, raw) {
        "💻 System"@
    } else if occurs("SSD"@, raw) || occurs("nvme"@, id) {
        "📀 SSD "@ + strip_prefix_all(id, "disk_"@)
    } else if occurs("HDD"@, raw) || occurs("sd"@, id) {
        "💿 HDD "@ + strip_prefix_all(id, "disk_"@)
    } else if is_prefix("nvidia"@, id) {
        "🎨 GPU (NVIDIA)"@
    } else if raw.len() > 0 {
        raw
    } else {
        id
    }
}

/// `id` with every leading `disk_` removed.
fn without_disk_prefix(id: &[char]) -> (res: Vec<char>)
    ensures
        res@ == strip_prefix_all(id@, "disk_"@),
{
    proof {
        reveal_strlit("disk_");
    }
    let p = chars_of("disk_");
    trim_start_matches(id, p.as_slice())
}

impl SensorInfo {
    /// The display name of a sensor.
    pub fn compute_friendly_name(id: &str, raw_name: &str) -> (name: String)
        ensures
            name@ == friendly_name(id@, raw_name@),
    {
        let idc = chars_of(id);
        let raw = chars_of(raw_name);
        if starts_with(raw.as_slice(), chars_of("package").as_slice()) {
            String::from_str("🔳 CPU Package")
        } else if starts_with(raw.as_slice(), chars_of("core").as_slice()) {
            String::from_str("🧠 Cores")
        } else if starts_with(raw.as_slice(), chars_of("uncore").as_slice()) {
            String::from_str("🎨 iGPU")
        } else if starts_with(raw.as_slice(), chars_of("dram").as_slice()) {
            String::from_str("📟 RAM")
        } else if starts_with(raw.as_slice(), chars_of("psys").as_slice()) {
            String::from_str("💻 System")
        } else if contains_seq(raw.as_slice(), chars_of("SSD").as_slice()) || contains_seq(
            idc.as_slice(),
            chars_of("nvme").as_slice(),
        ) {
            let mut s = String::from_str("📀 SSD ");
            let rest = string_of(without_disk_prefix(idc.as_slice()).as_slice());
            s.append(rest.as_str());
            s
        } else if contains_seq(raw.as_slice(), chars_of("HDD").as_slice()) || contains_seq(
            idc.as_slice(),
            chars_of("sd").as_slice(),
        ) {
            let mut s = String::from_str("💿 HDD ");
            let rest = string_of(without_disk_prefix(idc.as_slice()).as_slice());
            s.append(rest.as_str());
            s
        } else if starts_with(idc.as_slice(), chars_of("nvidia").as_slice()) {
            String::from_str("🎨 GPU (NVIDIA)")
        } else if raw.len() > 0 {
            String::from_str(raw_name)
        } else {
            String::from_str(id)
        }
    }

    /// The device node of a disk sensor, which `hdparm` is asked about:
    /// `/dev/` followed by the id without its leading `disk_`.
    pub fn disk_device_path(id: &str) -> (p: String)
        ensures
            p@ == "/dev/"@ + strip_prefix_all(id@, "disk_"@),
    {
        let idc = chars_of(id);
        let mut s = String::from_str("/dev/");
        let rest = string_of(without_disk_prefix(idc.as_slice()).as_slice());
        s.append(rest.as_str());
        s
    }
}


/// The index of the last `c` in `s`, if any.
pub open spec fn last_index_of(s: Seq<char>, c: char) -> Option<int>
    decreases s.len(),
{
    if s.len() == 0 {
        None
    } else if s.last() == c {
        Some(s.len() - 1)
    } else {
        last_index_of(s.drop_last(), c)
    }
}

/// Whether a block device name is that of a partition: an `nvme` name
/// whose text after its last `p` is all digits, or an `sd` name ending in
/// a digit.
pub open spec fn is_partition(name: Seq<char>) -> bool {
    if is_prefix("nvme"@, name) {
        match last_index_of(name, 'p') {
            Some(p) => all_digits(name.skip(p + 1)),
            None => false,
        }
    } else if is_prefix("sd"@, name) {
        name.len() > 0 && is_digit(name.last())
    } else {
        false
    }
}

/// Whether a block device name is that of a partition.
pub fn is_partition_name(name: &str) -> (b: bool)
    ensures
        b == is_partition(name@),
{
    let n = chars_of(name);
    if starts_with(n.as_slice(), chars_of("nvme").as_slice()) {
        let mut i: usize = n.len();
        assert(n@.take(n.len() as int) =~= n@);
        while i > 0
            invariant
                i <= n.len(),
                is_prefix("nvme"@, n@),
                n@ == name@,
                last_index_of(n@, 'p') == last_index_of(n@.take(i as int), 'p'),
            decreases i,
        {
            assert(n@.take(i as int).drop_last() =~= n@.take(i - 1));
            if n[i - 1] == 'p' {
                assert(n@.take(i as int).last() == 'p');
                assert(last_index_of(n@, 'p') == Some(i - 1));
                let mut k: usize = i;
                while k < n.len()
                    invariant
                        0 < i <= k <= n.len(),
                        last_index_of(n@, 'p') == Some(i - 1),
                        is_prefix("nvme"@, n@),
                        n@ == name@,
                        forall|j: int| i <= j < k ==> is_digit(#[trigger] n@[j]),
                    decreases n.len() - k,
                {
                    if n[k] < '0' || n[k] > '9' {
                        assert(n@.skip(i as int)[k - i] == n@[k as int]);
                        assert(!is_digit(n@.skip(i as int)[k - i]));
                        return false;
                    }
                    k += 1;
                }
                assert forall|j: int| 0 <= j < n@.skip(i as int).len() implies is_digit(
                    #[trigger] n@.skip(i as int)[j],
                ) by {
                    assert(n@.skip(i as int)[j] == n@[i + j]);
                }
                return true;
            }
            i -= 1;
        }
        assert(n@.take(0) =~= Seq::<char>::empty());
        false
    } else if starts_with(n.as_slice(), chars_of("sd").as_slice()) {
        n.len() > 0 && '0' <= n[n.len() - 1] && n[n.len() - 1] <= '9'
    } else {
        false
    }
}


/// Name for `char::is_alphanumeric` (the Unicode `Alphabetic` or `Numeric`
/// property).
pub uninterp spec fn unicode_alphanumeric(c: char) -> bool;

/// Calls `char::is_alphanumeric`. Claimed: the result is the name
/// `unicode_alphanumeric` of `c`, and among ASCII characters exactly the
/// letters and digits are alphanumeric (as std documents).
#[verifier::external_body]
pub(crate) fn is_alphanumeric(c: char) -> (b: bool)
    ensures
        b == unicode_alphanumeric(c),
        (c as u32) < 128 ==> (b <==> (('a' <= c && c <= 'z') || ('A' <= c && c <= 'Z') || ('0' <= c
            && c <= '9'))),
{
    c.is_alphanumeric()
}

/// The outcome of reading a small text file under `/sys`.
pub enum FileRead {
    /// The file does not exist.
    Missing,
    /// The file exists but could not be read as text.
    Unreadable,
    /// The file's content.
    Text(String),
}

/// The mathematical content of a `FileRead`.
pub enum FileReadModel {
    Missing,
    Unreadable,
    Text(Seq<char>),
}

impl View for FileRead {
    type V = FileReadModel;

    open spec fn view(&self) -> FileReadModel {
        match self {
            FileRead::Missing => FileReadModel::Missing,
            FileRead::Unreadable => FileReadModel::Unreadable,
            FileRead::Text(t) => FileReadModel::Text(t@),
        }
    }
}

/// An entry of `/sys/class/powercap`: its file name, the path of its
/// `energy_uj` file and whether that exists, and what reading its `name`
/// and `max_energy_range_uj` files gave.
pub struct PowercapEntry {
    pub dir_name: String,
    pub energy_path: String,
    pub has_energy_file: bool,
    pub name_file: FileRead,
    pub max_energy_file: FileRead,
}

/// An entry of `/sys/block`: the device name, its path, and what reading
/// its `queue/rotational` file gave.
pub struct BlockDevice {
    pub name: String,
    pub path: String,
    pub rotational_file: FileRead,
}

/// The mathematical content of a `SensorInfo`.
pub struct SensorModel {
    pub id: Seq<char>,
    pub raw_name: Seq<char>,
    pub friendly_name: Seq<char>,
    pub sensor_type: SensorType,
    pub path: Seq<char>,
    pub max_energy_range_uj: u64,
}

impl View for SensorInfo {
    type V = SensorModel;

    open spec fn view(&self) -> SensorModel {
        SensorModel {
            id: self.id@,
            raw_name: self.raw_name@,
            friendly_name: self.friendly_name@,
            sensor_type: self.sensor_type,
            path: self.path@,
            max_energy_range_uj: self.max_energy_range_uj,
        }
    }
}

/// A sensor assembled from its parts, its display name computed.
pub open spec fn sensor_model(id: Seq<char>, raw: Seq<char>, t: SensorType, path: Seq<char>, max: u64) -> SensorModel {
    SensorModel {
        id,
        raw_name: raw,
        friendly_name: friendly_name(id, raw),
        sensor_type: t,
        path,
        max_energy_range_uj: max,
    }
}

/// The characters of a RAPL directory name kept in its sensor id.
pub open spec fn id_char(c: char) -> bool {
    unicode_alphanumeric(c) || c == '_'
}

/// A numeric counter file's value: its trimmed text read as a `u64`, or 0
/// when absent, unreadable or not a number.
pub open spec fn counter_file_value(f: FileReadModel) -> u64 {
    match f {
        FileReadModel::Text(t) => match parse_unsigned(trim(t), u64::MAX as int) {
            Some(v) => v as u64,
            None => 0,
        },
        _ => 0,
    }
}

/// The sensor a powercap entry gives: only `intel-rapl*` entries with both
/// an `energy_uj` and a `name` file; the raw name is the trimmed `name`
/// (`unknown` when unreadable); the id is `rapl_` followed by the entry's
/// alphanumeric and `_` characters.
pub open spec fn rapl_sensor(dir_name: Seq<char>, energy_path: Seq<char>, has_energy_file: bool, name_file: FileReadModel, max_file: FileReadModel) -> Option<SensorModel> {
    if !is_prefix("intel-rapl"@, dir_name) || !has_energy_file || name_file is Missing {
        None
    } else {
        let raw = match name_file {
            FileReadModel::Text(t) => trim(t),
            _ => "unknown"@,
        };
        let id = "rapl_"@ + dir_name.filter(|c: char| id_char(c));
        Some(sensor_model(id, raw, SensorType::Rapl, energy_path, counter_file_value(max_file)))
    }
}

/// The RAPL sensors of the powercap entries, in order.
pub open spec fn rapl_sensors(entries: Seq<PowercapEntry>) -> Seq<SensorModel>
    decreases entries.len(),
{
    if entries.len() == 0 {
        Seq::empty()
    } else {
        let e = entries.last();
        let before = rapl_sensors(entries.drop_last());
        match rapl_sensor(e.dir_name@, e.energy_path@, e.has_energy_file, e.name_file@, e.max_energy_file@) {
            Some(s) => before.push(s),
            None => before,
        }
    }
}

/// The sensor of the `i`-th NVIDIA GPU, given what its name query printed
/// (`None` when the query could not run).
pub open spec fn nvidia_sensor(i: nat, name_output: Option<Seq<char>>) -> SensorModel {
    let raw = match name_output {
        Some(out) => trim(out),
        None => "NVIDIA GPU "@ + decimal(i),
    };
    sensor_model("nvidia_gpu_"@ + decimal(i), raw, SensorType::Nvidia, decimal(i), 0)
}

/// The sensors of the NVIDIA GPUs, one per name query, in order.
pub open spec fn nvidia_sensors(names: Seq<Option<Seq<char>>>) -> Seq<SensorModel> {
    Seq::new(names.len(), |i: int| nvidia_sensor(i as nat, names[i]))
}

/// The sensor a block device gives: whole `sd*` and `nvme*` disks (not
/// partitions), `HDD` when its `rotational` file reads `1`, else `SSD`.
pub open spec fn disk_sensor(name: Seq<char>, path: Seq<char>, rotational_file: FileReadModel) -> Option<SensorModel> {
    if (is_prefix("sd"@, name) || is_prefix("nvme"@, name)) && !is_partition(name) {
        let raw = if rotational_of(rotational_file) {
            "HDD "@ + name
        } else {
            "SSD "@ + name
        };
        Some(sensor_model("disk_"@ + name, raw, SensorType::Disk, path, 0))
    } else {
        None
    }
}

/// The disk sensors of the block devices, in order.
pub open spec fn disk_sensors(devices: Seq<BlockDevice>) -> Seq<SensorModel>
    decreases devices.len(),
{
    if devices.len() == 0 {
        Seq::empty()
    } else {
        let d = devices.last();
        let before = disk_sensors(devices.drop_last());
        match disk_sensor(d.name@, d.path@, d.rotational_file@) {
            Some(s) => before.push(s),
            None => before,
        }
    }
}

/// The number of GPUs `nvidia-smi --query-gpu=count` reported.
pub open spec fn gpu_count(output: Seq<char>) -> Option<int> {
    parse_unsigned(trim(output), u32::MAX as int)
}

/// The number of GPUs that `nvidia-smi --query-gpu=count` reported: its
/// trimmed output read as a `u32`.
pub fn parse_gpu_count(output: &str) -> (n: Option<u32>)
    ensures
        match n {
            Some(v) => gpu_count(output@) == Some(v as int),
            None => gpu_count(output@) is None,
        },
{
    let t = trim_chars(chars_of(output).as_slice());
    parse_u32(t.as_slice())
}

/// `a` followed by `b`, as a `String`.
fn concat(a: &str, b: &[char]) -> (s: String)
    ensures
        s@ == a@ + b@,
{
    let mut s = String::from_str(a);
    let tail = string_of(b);
    s.append(tail.as_str());
    s
}

/// A sensor from its parts.
fn make_sensor(id: String, raw_name: String, sensor_type: SensorType, path: String, max: u64) -> (s: SensorInfo)
    ensures
        s@ == sensor_model(id@, raw_name@, sensor_type, path@, max),
{
    let friendly_name = SensorInfo::compute_friendly_name(id.as_str(), raw_name.as_str());
    SensorInfo { id, raw_name, friendly_name, sensor_type, path, max_energy_range_uj: max }
}

/// The value of a counter file: its trimmed text read as a `u64`, or 0.
pub fn counter_value(f: &FileRead) -> (v: u64)
    ensures
        v == counter_file_value(f@),
{
    match f {
        FileRead::Text(t) => {
            let tc = trim_chars(chars_of(t.as_str()).as_slice());
            match parse_u64(tc.as_slice()) {
                Some(v) => v,
                None => 0,
            }
        },
        _ => 0,
    }
}

/// The id characters of a RAPL directory name.
fn id_chars(name: &str) -> (res: Vec<char>)
    ensures
        res@ == name@.filter(|c: char| id_char(c)),
{
    let n = chars_of(name);
    let ghost pred = |c: char| id_char(c);
    let mut res: Vec<char> = Vec::new();
    let mut i: usize = 0;
    while i < n.len()
        invariant
            i <= n.len(),
            pred == (|c: char| id_char(c)),
            res@ == n@.take(i as int).filter(pred),
        decreases n.len() - i,
    {
        proof {
            crate::text::lemma_filter_step(n@, pred, i as int);
        }
        let c = n[i];
        if is_alphanumeric(c) || c == '_' {
            res.push(c);
        }
        i += 1;
    }
    assert(n@.take(n.len() as int) =~= n@);
    res
}

/// The sensor of one powercap entry, if it gives one.
fn rapl_sensor_of(e: &PowercapEntry) -> (res: Option<SensorInfo>)
    ensures
        match res {
            Some(s) => rapl_sensor(e.dir_name@, e.energy_path@, e.has_energy_file, e.name_file@, e.max_energy_file@) == Some(s@),
            None => rapl_sensor(e.dir_name@, e.energy_path@, e.has_energy_file, e.name_file@, e.max_energy_file@) is None,
        },
{
    let dn = chars_of(e.dir_name.as_str());
    if !starts_with(dn.as_slice(), chars_of("intel-rapl").as_slice()) || !e.has_energy_file {
        return None;
    }
    let raw = match &e.name_file {
        FileRead::Missing => {
            return None;
        },
        FileRead::Unreadable => String::from_str("unknown"),
        FileRead::Text(t) => string_of(trim_chars(chars_of(t.as_str()).as_slice()).as_slice()),
    };
    let id = concat("rapl_", id_chars(e.dir_name.as_str()).as_slice());
    let max = counter_value(&e.max_energy_file);
    Some(make_sensor(id, raw, SensorType::Rapl, String::from_str(e.energy_path.as_str()), max))
}

/// Whether a disk spins: its `queue/rotational` file reads `1` (trimmed).
pub open spec fn rotational_of(f: FileReadModel) -> bool {
    match f {
        FileReadModel::Text(t) => trim(t) == "1"@,
        _ => false,
    }
}

/// Whether a disk spins, from its `queue/rotational` file.
pub fn is_rotational(f: &FileRead) -> (b: bool)
    ensures
        b == rotational_of(f@),
{
    match f {
        FileRead::Text(t) => {
            let tc = trim_chars(chars_of(t.as_str()).as_slice());
            let one = chars_of("1");
            let same = tc.len() == one.len() && starts_with(tc.as_slice(), one.as_slice());
            assert(tc@.take(tc@.len() as int) =~= tc@);
            same
        },
        _ => false,
    }
}

/// The sensor of one block device, if it gives one.
fn disk_sensor_of(d: &BlockDevice) -> (res: Option<SensorInfo>)
    ensures
        match res {
            Some(s) => disk_sensor(d.name@, d.path@, d.rotational_file@) == Some(s@),
            None => disk_sensor(d.name@, d.path@, d.rotational_file@) is None,
        },
{
    let n = chars_of(d.name.as_str());
    if !((starts_with(n.as_slice(), chars_of("sd").as_slice()) || starts_with(n.as_slice(), chars_of("nvme").as_slice()))
        && !is_partition_name(d.name.as_str())) {
        return None;
    }
    let rotational = is_rotational(&d.rotational_file);
    let raw = if rotational {
        concat("HDD ", n.as_slice())
    } else {
        concat("SSD ", n.as_slice())
    };
    let id = concat("disk_", n.as_slice());
    Some(make_sensor(id, raw, SensorType::Disk, String::from_str(d.path.as_str()), 0))
}

/// The sensor of the `i`-th NVIDIA GPU.
fn nvidia_sensor_of(i: u32, name_output: &Option<String>) -> (s: SensorInfo)
    ensures
        s@ == nvidia_sensor(i as nat, match name_output {
            Some(o) => Some(o@),
            None => None,
        }),
{
    let digits = u64_to_decimal(i as u64);
    let raw = match name_output {
        Some(o) => string_of(trim_chars(chars_of(o.as_str()).as_slice()).as_slice()),
        None => concat("NVIDIA GPU ", digits.as_slice()),
    };
    let id = concat("nvidia_gpu_", digits.as_slice());
    make_sensor(id, raw, SensorType::Nvidia, string_of(digits.as_slice()), 0)
}

/// The view of the name query outputs of the GPUs.
pub open spec fn gpu_names_view(names: Seq<Option<String>>) -> Seq<Option<Seq<char>>> {
    names.map_values(|o: Option<String>| match o {
        Some(s) => Some(s@),
        None => None,
    })
}

/// All sensors of this machine: the RAPL domains in powercap order, then
/// one per NVIDIA GPU, then the whole disks in `/sys/block` order.
pub fn discover_sensors(powercap: &Vec<PowercapEntry>, gpu_names: &Vec<Option<String>>, block_devices: &Vec<BlockDevice>) -> (sensors: Vec<SensorInfo>)
    requires
        gpu_names@.len() <= u32::MAX,
    ensures
        sensors@.map_values(|s: SensorInfo| s@) == rapl_sensors(powercap@) + nvidia_sensors(
            gpu_names_view(gpu_names@),
        ) + disk_sensors(block_devices@),
{
    let mut sensors: Vec<SensorInfo> = Vec::new();
    let mut i: usize = 0;
    while i < powercap.len()
        invariant
            i <= powercap.len(),
            sensors@.map_values(|s: SensorInfo| s@) == rapl_sensors(powercap@.take(i as int)),
        decreases powercap.len() - i,
    {
        assert(powercap@.take(i + 1).drop_last() =~= powercap@.take(i as int));
        let ghost before = sensors@;
        match rapl_sensor_of(&powercap[i]) {
            Some(s) => {
                sensors.push(s);
                assert(sensors@.map_values(|s: SensorInfo| s@) =~= before.map_values(|s: SensorInfo| s@).push(s@));
            },
            None => {},
        }
        i += 1;
    }
    assert(powercap@.take(powercap.len() as int) =~= powercap@);
    let ghost rapl = sensors@.map_values(|s: SensorInfo| s@);
    let ghost names = gpu_names_view(gpu_names@);
    let mut g: usize = 0;
    while g < gpu_names.len()
        invariant
            g <= gpu_names.len() <= u32::MAX,
            names == gpu_names_view(gpu_names@),
            sensors@.map_values(|s: SensorInfo| s@) == rapl + nvidia_sensors(names.take(g as int)),
        decreases gpu_names.len() - g,
    {
        let ghost before = sensors@;
        let s = nvidia_sensor_of(g as u32, &gpu_names[g]);
        sensors.push(s);
        assert(nvidia_sensors(names.take(g + 1)) =~= nvidia_sensors(names.take(g as int)).push(
            nvidia_sensor(g as nat, names[g as int]),
        ));
        assert(sensors@.map_values(|s: SensorInfo| s@) =~= before.map_values(|s: SensorInfo| s@).push(s@));
        g += 1;
    }
    assert(names.take(gpu_names.len() as int) =~= names);
    let ghost with_gpus = sensors@.map_values(|s: SensorInfo| s@);
    let mut d: usize = 0;
    while d < block_devices.len()
        invariant
            d <= block_devices.len(),
            sensors@.map_values(|s: SensorInfo| s@) == with_gpus + disk_sensors(block_devices@.take(d as int)),
        decreases block_devices.len() - d,
    {
        assert(block_devices@.take(d + 1).drop_last() =~= block_devices@.take(d as int));
        let ghost before = sensors@;
        match disk_sensor_of(&block_devices[d]) {
            Some(s) => {
                sensors.push(s);
                assert(sensors@.map_values(|s: SensorInfo| s@) =~= before.map_values(|s: SensorInfo| s@).push(s@));
                assert(with_gpus + disk_sensors(block_devices@.take(d + 1)) =~= (with_gpus + disk_sensors(
                    block_devices@.take(d as int),
                )).push(s@));
            },
            None => {},
        }
        d += 1;
    }
    assert(block_devices@.take(block_devices.len() as int) =~= block_devices@);
    assert(with_gpus + disk_sensors(block_devices@) =~= rapl_sensors(powercap@) + nvidia_sensors(names)
        + disk_sensors(block_devices@));
    sensors
}


/// The energy (µJ) a RAPL counter gained since the previous reading
/// `last_val`: the plain difference when the counter did not go back; the
/// distance across the wrap-around at `max_range` when it went back and
/// the range is known; 0 on a first reading (`last_val == 0`) or when the
/// range is unknown.
pub open spec fn rapl_delta(cur_uj: u64, last_val: u64, max_range: u64) -> int {
    if cur_uj >= last_val && last_val > 0 {
        cur_uj - last_val
    } else if max_range > 0 && last_val > 0 {
        (if max_range >= last_val { max_range - last_val } else { 0 }) + cur_uj
    } else {
        0
    }
}

/// The energy (µJ) a RAPL counter gained since the previous reading (the
/// wrap-around sum cannot overflow: the counter went back, so it is below
/// the range).
pub fn rapl_delta_uj(cur_uj: u64, last_val: u64, max_range: u64) -> (d: u64)
    ensures
        d == rapl_delta(cur_uj, last_val, max_range),
{
    if cur_uj >= last_val && last_val > 0 {
        cur_uj - last_val
    } else if max_range > 0 && last_val > 0 {
        max_range.saturating_sub(last_val) + cur_uj
    } else {
        0
    }
}

/// The interval (seconds) a measurement spans: the elapsed seconds, or 1
/// when none elapsed.
pub fn effective_interval_secs(delta_sec: u64) -> (s: u64)
    ensures
        s == (if delta_sec > 0 { delta_sec } else { 1 }),
        s >= 1,
{
    if delta_sec > 0 { delta_sec } else { 1 }
}

/// The power level a disk is drawing at.
#[derive(Debug, Clone, Copy, PartialEq, Eq, Structural)]
pub enum DiskPowerLevel {
    HddStandby,
    HddActive,
    SsdActive,
    SsdIdle,
}

/// The power level of a disk: a rotational disk is in standby when
/// `hdparm -C` printed `standby` (`None` when it could not run), else
/// active; an SSD is active when its I/O counter moved since a known
/// previous reading, else idle.
pub open spec fn disk_level(rotational: bool, hdparm_output: Option<Seq<char>>, cur_io: u64, last_val: u64) -> DiskPowerLevel {
    if rotational {
        match hdparm_output {
            Some(out) => if occurs("standby"@, out) { DiskPowerLevel::HddStandby } else { DiskPowerLevel::HddActive },
            None => DiskPowerLevel::HddActive,
        }
    } else if cur_io > last_val && last_val > 0 {
        DiskPowerLevel::SsdActive
    } else {
        DiskPowerLevel::SsdIdle
    }
}

/// The power level of a disk.
pub fn disk_power_level(rotational: bool, hdparm_output: &Option<String>, cur_io: u64, last_val: u64) -> (l: DiskPowerLevel)
    ensures
        l == disk_level(rotational, match hdparm_output {
            Some(o) => Some(o@),
            None => None,
        }, cur_io, last_val),
{
    if rotational {
        match hdparm_output {
            Some(out) => {
                if contains_seq(chars_of(out.as_str()).as_slice(), chars_of("standby").as_slice()) {
                    DiskPowerLevel::HddStandby
                } else {
                    DiskPowerLevel::HddActive
                }
            },
            None => DiskPowerLevel::HddActive,
        }
    } else {
        let delta_io = cur_io.saturating_sub(last_val);
        if delta_io > 0 && last_val > 0 {
            DiskPowerLevel::SsdActive
        } else {
            DiskPowerLevel::SsdIdle
        }
    }
}

/// The value of a word of a statistics line: the word read as a `u64`, or 0.
pub open spec fn stat_field(w: Seq<char>) -> int {
    match parse_unsigned(w, u64::MAX as int) {
        Some(v) => v,
        None => 0,
    }
}

/// The sectors a disk read and wrote, from its `stat` file: fields 3 and 7
/// (read and written sectors) added, or 0 when the file has fewer than 7
/// fields.
pub open spec fn disk_io_sectors(content: Seq<char>) -> int {
    let parts = words(content);
    if parts.len() >= 7 {
        stat_field(parts[2]) + stat_field(parts[6])
    } else {
        0
    }
}

/// The sectors a disk read and wrote, from the content of its `stat` file;
/// `None` when the sum exceeds `u64::MAX`.
pub fn read_disk_io_stats(content: &str) -> (n: Option<u64>)
    ensures
        match n {
            Some(v) => v == disk_io_sectors(content@),
            None => disk_io_sectors(content@) > u64::MAX,
        },
{
    let parts = split_whitespace(chars_of(content).as_slice());
    if parts.len() >= 7 {
        let read_sectors = match parse_u64(parts[2].as_slice()) {
            Some(v) => v,
            None => 0,
        };
        let write_sectors = match parse_u64(parts[6].as_slice()) {
            Some(v) => v,
            None => 0,
        };
        read_sectors.checked_add(write_sectors)
    } else {
        Some(0)
    }
}

/// The power source icon and battery level text: plugged in (`🔌`) unless
/// the adapter's `online` file reads other than `1`, on battery (`🔋`)
/// then; the battery level `(N%)` from its `capacity` file, or empty.
pub open spec fn power_status_text(adapter_online: FileReadModel, battery_capacity: FileReadModel) -> (Seq<char>, Seq<char>) {
    let icon = match adapter_online {
        FileReadModel::Text(t) => if trim(t) == "1"@ { "🔌"@ } else { "🔋"@ },
        _ => "🔌"@,
    };
    let level = match battery_capacity {
        FileReadModel::Text(t) => "("@ + trim(t) + "%)"@,
        _ => Seq::empty(),
    };
    (icon, level)
}

/// The power source icon and battery level text.
pub fn get_power_status(adapter_online: &FileRead, battery_capacity: &FileRead) -> (res: (String, String))
    ensures
        (res.0@, res.1@) == power_status_text(adapter_online@, battery_capacity@),
{
    let icon = match adapter_online {
        FileRead::Text(t) => {
            let tc = trim_chars(chars_of(t.as_str()).as_slice());
            let one = chars_of("1");
            let online = tc.len() == one.len() && starts_with(tc.as_slice(), one.as_slice());
            assert(tc@.take(tc@.len() as int) =~= tc@);
            if online { String::from_str("🔌") } else { String::from_str("🔋") }
        },
        _ => String::from_str("🔌"),
    };
    let level = match battery_capacity {
        FileRead::Text(t) => {
            let tc = trim_chars(chars_of(t.as_str()).as_slice());
            let mut s = concat("(", tc.as_slice());
            s.append("%)");
            s
        },
        _ => String::new(),
    };
    (icon, level)
}

/// The files whose readability decides whether RAPL data is available: the
/// counter files of the RAPL sensors, in order.
pub fn rapl_sensor_paths(sensors: &Vec<SensorInfo>) -> (paths: Vec<String>)
    ensures
        paths@.map_values(|p: String| p@) == sensors@.filter(|s: SensorInfo| s.sensor_type == SensorType::Rapl).map_values(
            |s: SensorInfo| s.path@,
        ),
{
    let ghost pred = |s: SensorInfo| s.sensor_type == SensorType::Rapl;
    let mut paths: Vec<String> = Vec::new();
    let mut i: usize = 0;
    while i < sensors.len()
        invariant
            i <= sensors.len(),
            pred == (|s: SensorInfo| s.sensor_type == SensorType::Rapl),
            paths@.map_values(|p: String| p@) == sensors@.take(i as int).filter(pred).map_values(
                |s: SensorInfo| s.path@,
            ),
        decreases sensors.len() - i,
    {
        proof {
            crate::text::lemma_filter_step(sensors@, pred, i as int);
        }
        let ghost before = paths@;
        if sensors[i].sensor_type == SensorType::Rapl {
            let p = String::from_str(sensors[i].path.as_str());
            paths.push(p);
            assert(paths@.map_values(|p: String| p@) =~= before.map_values(|p: String| p@).push(p@));
            assert(sensors@.take(i + 1).filter(pred).map_values(|s: SensorInfo| s.path@) =~= sensors@.take(
                i as int,
            ).filter(pred).map_values(|s: SensorInfo| s.path@).push(sensors@[i as int].path@));
        }
        i += 1;
    }
    assert(sensors@.take(sensors.len() as int) =~= sensors@);
    paths
}

} // verus!
