//! Home Assistant integration over MQTT: the names, topics and discovery
//! entries derived from the host label and the sensor ids.
use vstd::prelude::*;
use vstd::string::StringExecFns;
use crate::sensors::{is_alphanumeric, unicode_alphanumeric};
use crate::text::{chars_of, string_of};

verus! {

/// Name for `str::to_lowercase` (Unicode lowercase mapping).
pub uninterp spec fn lowercase(s: Seq<char>) -> Seq<char>;

/// Calls `str::to_lowercase`. Claimed: the result is the name `lowercase`
/// of `s`.
#[verifier::external_body]
fn to_lowercase(s: &str) -> (res: String)
    ensures
        res@ == lowercase(s@),
{
    s.to_lowercase()
}

/// A label made safe for topics and ids: lowercased, every character that
/// is not alphanumeric replaced by `_`.
pub open spec fn clean_name(s: Seq<char>) -> Seq<char> {
    lowercase(s).map_values(|c: char| if unicode_alphanumeric(c) { c } else { '_' })
}

/// A label made safe for topics and ids.
pub fn clean_label(s: &str) -> (res: String)
    ensures
        res@ == clean_name(s@),
{
    let low = to_lowercase(s);
    let cs = chars_of(low.as_str());
    let mut out = String::new();
    let mut i: usize = 0;
    while i < cs.len()
        invariant
            i <= cs.len(),
            cs@ == lowercase(s@),
            out@ == cs@.take(i as int).map_values(|c: char| if unicode_alphanumeric(c) { c } else { '_' }),
        decreases cs.len() - i,
    {
        let c = cs[i];
        let d = if is_alphanumeric(c) { c } else { '_' };
        out.push(d);
        assert(cs@.take(i + 1).map_values(|c: char| if unicode_alphanumeric(c) { c } else { '_' }) =~= cs@.take(
            i as int,
        ).map_values(|c: char| if unicode_alphanumeric(c) { c } else { '_' }).push(d));
        i += 1;
    }
    assert(cs@.take(cs.len() as int) =~= cs@);
    out
}

/// The MQTT client id of a host: `spm_` and its clean label.
pub open spec fn client_id_of(host_label: Seq<char>) -> Seq<char> {
    "spm_"@ + clean_name(host_label)
}

/// The topic a host's state is published on.
pub open spec fn state_topic_of(prefix: Seq<char>, host_label: Seq<char>) -> Seq<char> {
    prefix + "/"@ + clean_name(host_label) + "/state"@
}

/// The MQTT client id of a host.
pub fn client_id(host_label: &str) -> (id: String)
    ensures
        id@ == client_id_of(host_label@),
{
    let mut id = String::from_str("spm_");
    let clean = clean_label(host_label);
    id.append(clean.as_str());
    id
}

/// The topic a host's state is published on.
pub fn state_topic(prefix: &str, host_label: &str) -> (t: String)
    ensures
        t@ == state_topic_of(prefix@, host_label@),
{
    let mut t = String::from_str(prefix);
    t.append("/");
    let clean = clean_label(host_label);
    t.append(clean.as_str());
    t.append("/state");
    t
}

/// One Home Assistant discovery entry (a sensor of the device).
pub struct DiscoveryEntry {
    /// The topic the entry's configuration is published on.
    pub config_topic: String,
    /// The topic the entry's values are read from.
    pub state_topic: String,
    pub name: String,
    pub unique_id: String,
    pub value_template: String,
    pub unit_of_measurement: String,
    pub device_class: String,
    pub state_class: String,
}

/// The mathematical content of a `DiscoveryEntry`.
pub struct DiscoveryModel {
    pub config_topic: Seq<char>,
    pub state_topic: Seq<char>,
    pub name: Seq<char>,
    pub unique_id: Seq<char>,
    pub value_template: Seq<char>,
    pub unit_of_measurement: Seq<char>,
    pub device_class: Seq<char>,
    pub state_class: Seq<char>,
}

impl View for DiscoveryEntry {
    type V = DiscoveryModel;

    open spec fn view(&self) -> DiscoveryModel {
        DiscoveryModel {
            config_topic: self.config_topic@,
            state_topic: self.state_topic@,
            name: self.name@,
            unique_id: self.unique_id@,
            value_template: self.value_template@,
            unit_of_measurement: self.unit_of_measurement@,
            device_class: self.device_class@,
            state_class: self.state_class@,
        }
    }
}

/// The discovery configuration topic of object `object_id` of a host.
pub open spec fn config_topic_of(clean_host: Seq<char>, object_id: Seq<char>) -> Seq<char> {
    "homeassistant/sensor/server-power-monitor_"@ + clean_host + "_"@ + object_id + "/config"@
}

/// A discovery entry from its parts; its unique id is `spm_<host>_<object>`.
pub open spec fn entry_model(clean_host: Seq<char>, state_topic: Seq<char>, object_id: Seq<char>, name: Seq<char>, template: Seq<char>, unit: Seq<char>, class: Seq<char>, state_class: Seq<char>) -> DiscoveryModel {
    DiscoveryModel {
        config_topic: config_topic_of(clean_host, object_id),
        state_topic,
        name,
        unique_id: "spm_"@ + clean_host + "_"@ + object_id,
        value_template: template,
        unit_of_measurement: unit,
        device_class: class,
        state_class,
    }
}

/// The discovery entries of a host whose state is published under
/// `prefix`: total power, today's energy, lifetime energy, then the power
/// of each sensor id in order, all read from the host's state topic.
pub open spec fn discovery_models(prefix: Seq<char>, host: Seq<char>, sensor_ids: Seq<Seq<char>>) -> Seq<DiscoveryModel> {
    let c = clean_name(host);
    let t = state_topic_of(prefix, host);
    seq![
        entry_model(c, t, "total_watts"@, host + " Total Power"@, "{{ value_json.total_watts }}"@, "W"@, "power"@, "measurement"@),
        entry_model(c, t, "today_kwh"@, host + " Energy Today"@, "{{ value_json.today_kwh }}"@, "kWh"@, "energy"@, "total_increasing"@),
        entry_model(c, t, "lifetime_kwh"@, host + " Lifetime Energy"@, "{{ value_json.alltime_kwh }}"@, "kWh"@, "energy"@, "total_increasing"@),
    ] + Seq::new(sensor_ids.len(), |i: int| entry_model(
        c,
        t,
        clean_name(sensor_ids[i]),
        host + " Power "@ + sensor_ids[i],
        "{{ value_json.sensors."@ + sensor_ids[i] + " }}"@,
        "W"@,
        "power"@,
        "measurement"@,
    ))
}

/// The device record every discovery entry of a host points to.
pub struct DiscoveryDevice {
    /// The device's single identifier: the host's MQTT client id.
    pub identifier: String,
    pub name: String,
    pub model: String,
    pub manufacturer: String,
}

/// The device record of a host: its client id as identifier, named
/// `Server Power Monitor (<host>)`.
pub open spec fn device_fields(host: Seq<char>) -> (Seq<char>, Seq<char>, Seq<char>, Seq<char>) {
    (
        client_id_of(host),
        "Server Power Monitor ("@ + host + ")"@,
        "Power Telemetry Agent (Rust)"@,
        "Server Power Monitor"@,
    )
}

/// The device record of a host.
pub fn discovery_device(host_label: &str) -> (d: DiscoveryDevice)
    ensures
        (d.identifier@, d.name@, d.model@, d.manufacturer@) == device_fields(host_label@),
{
    DiscoveryDevice {
        identifier: client_id(host_label),
        name: cat3("Server Power Monitor (", host_label, ")"),
        model: String::from_str("Power Telemetry Agent (Rust)"),
        manufacturer: String::from_str("Server Power Monitor"),
    }
}

/// `a + b + c` as a `String`.
fn cat3(a: &str, b: &str, c: &str) -> (s: String)
    ensures
        s@ == a@ + b@ + c@,
{
    let mut s = String::from_str(a);
    s.append(b);
    s.append(c);
    s
}

/// A discovery entry from its parts.
fn make_entry(clean_host: &str, state_topic: &str, object_id: &str, name: String, template: String, unit: &str, class: &str, state_class: &str) -> (e: DiscoveryEntry)
    ensures
        e@ == entry_model(clean_host@, state_topic@, object_id@, name@, template@, unit@, class@, state_class@),
{
    let mut topic = String::from_str("homeassistant/sensor/server-power-monitor_");
    topic.append(clean_host);
    topic.append("_");
    topic.append(object_id);
    topic.append("/config");
    let mut uid = String::from_str("spm_");
    uid.append(clean_host);
    uid.append("_");
    uid.append(object_id);
    DiscoveryEntry {
        config_topic: topic,
        state_topic: String::from_str(state_topic),
        name,
        unique_id: uid,
        value_template: template,
        unit_of_measurement: String::from_str(unit),
        device_class: String::from_str(class),
        state_class: String::from_str(state_class),
    }
}

/// The discovery entries of a host for the given sensor ids.
pub fn discovery_entries(topic_prefix: &str, host_label: &str, sensor_ids: &Vec<String>) -> (entries: Vec<DiscoveryEntry>)
    ensures
        entries@.map_values(|e: DiscoveryEntry| e@) == discovery_models(
            topic_prefix@,
            host_label@,
            sensor_ids@.map_values(|s: String| s@),
        ),
{
    let clean = clean_label(host_label);
    let c = clean.as_str();
    let topic = state_topic(topic_prefix, host_label);
    let t = topic.as_str();
    let mut entries: Vec<DiscoveryEntry> = Vec::new();
    entries.push(make_entry(c, t, "total_watts", cat3(host_label, " Total Power", ""), String::from_str("{{ value_json.total_watts }}"), "W", "power", "measurement"));
    entries.push(make_entry(c, t, "today_kwh", cat3(host_label, " Energy Today", ""), String::from_str("{{ value_json.today_kwh }}"), "kWh", "energy", "total_increasing"));
    entries.push(make_entry(c, t, "lifetime_kwh", cat3(host_label, " Lifetime Energy", ""), String::from_str("{{ value_json.alltime_kwh }}"), "kWh", "energy", "total_increasing"));
    proof {
        reveal_strlit("");
    }
    let ghost ids = sensor_ids@.map_values(|s: String| s@);
    let ghost all = discovery_models(topic_prefix@, host_label@, ids);
    assert(entries@.map_values(|e: DiscoveryEntry| e@) =~= all.take(3));
    let mut i: usize = 0;
    while i < sensor_ids.len()
        invariant
            i <= sensor_ids.len(),
            ids == sensor_ids@.map_values(|s: String| s@),
            all == discovery_models(topic_prefix@, host_label@, ids),
            t@ == state_topic_of(topic_prefix@, host_label@),
            clean@ == clean_name(host_label@),
            c@ == clean@,
            entries@.map_values(|e: DiscoveryEntry| e@) == all.take(3 + i),
        decreases sensor_ids.len() - i,
    {
        let id = sensor_ids[i].as_str();
        let object = clean_label(id);
        let name = cat3(host_label, " Power ", id);
        let template = cat3("{{ value_json.sensors.", id, " }}");
        let e = make_entry(c, t, object.as_str(), name, template, "W", "power", "measurement");
        let ghost before = entries@;
        entries.push(e);
        assert(all[3 + i] == e@);
        assert(entries@.map_values(|e: DiscoveryEntry| e@) =~= before.map_values(|e: DiscoveryEntry| e@).push(e@));
        assert(all.len() == 3 + ids.len());
        assert(all.take(3 + i + 1) =~= all.take(3 + i).push(all[3 + i]));
        i += 1;
    }
    assert(all.take(3 + sensor_ids.len()) =~= all);
    entries
}


/// What each discovery entry reports. The three fixed entries, total power,
/// today's energy and lifetime energy, read the state payload's
/// `total_watts`, `today_kwh` and `alltime_kwh` fields (no two the same
/// field), in W, kWh and kWh, under the object ids `total_watts`,
/// `today_kwh` and `lifetime_kwh`; the entry of each sensor id reads that
/// sensor's power from the payload's `sensors` map. Every entry reads the
/// host's state topic.
pub proof fn lemma_discovery_entries_read_their_fields(prefix: Seq<char>, host: Seq<char>, sensor_ids: Seq<Seq<char>>)
    ensures
        ({
            let ms = discovery_models(prefix, host, sensor_ids);
            let c = clean_name(host);
            &&& ms.len() == 3 + sensor_ids.len()
            &&& ms[0].value_template == "{{ value_json.total_watts }}"@
            &&& ms[1].value_template == "{{ value_json.today_kwh }}"@
            &&& ms[2].value_template == "{{ value_json.alltime_kwh }}"@
            &&& ms[0].value_template != ms[1].value_template
            &&& ms[0].value_template != ms[2].value_template
            &&& ms[1].value_template != ms[2].value_template
            &&& ms[0].unique_id == "spm_"@ + c + "_total_watts"@
            &&& ms[1].unique_id == "spm_"@ + c + "_today_kwh"@
            &&& ms[2].unique_id == "spm_"@ + c + "_lifetime_kwh"@
            &&& ms[0].unit_of_measurement == "W"@
            &&& ms[1].unit_of_measurement == "kWh"@
            &&& ms[2].unit_of_measurement == "kWh"@
            &&& forall|i: int| 0 <= i < sensor_ids.len() ==> (#[trigger] ms[3 + i]).value_template
                == "{{ value_json.sensors."@ + sensor_ids[i] + " }}"@
            &&& forall|i: int| 0 <= i < ms.len() ==> (#[trigger] ms[i]).state_topic
                == prefix + "/"@ + c + "/state"@
        }),
{
    reveal_strlit("{{ value_json.total_watts }}");
    reveal_strlit("{{ value_json.today_kwh }}");
    reveal_strlit("{{ value_json.alltime_kwh }}");
    reveal_strlit("_");
    reveal_strlit("total_watts");
    reveal_strlit("today_kwh");
    reveal_strlit("lifetime_kwh");
    reveal_strlit("_total_watts");
    reveal_strlit("_today_kwh");
    reveal_strlit("_lifetime_kwh");
    let ms = discovery_models(prefix, host, sensor_ids);
    let c = clean_name(host);
    assert("{{ value_json.total_watts }}"@[16] != "{{ value_json.today_kwh }}"@[16]);
    assert("{{ value_json.total_watts }}"@[15] != "{{ value_json.alltime_kwh }}"@[15]);
    assert("{{ value_json.today_kwh }}"@[15] != "{{ value_json.alltime_kwh }}"@[15]);
    assert("spm_"@ + c + "_"@ + "total_watts"@ =~= "spm_"@ + c + "_total_watts"@);
    assert("spm_"@ + c + "_"@ + "today_kwh"@ =~= "spm_"@ + c + "_today_kwh"@);
    assert("spm_"@ + c + "_"@ + "lifetime_kwh"@ =~= "spm_"@ + c + "_lifetime_kwh"@);
    assert forall|i: int| 0 <= i < ms.len() implies (#[trigger] ms[i]).state_topic == prefix + "/"@ + c + "/state"@ by {
        if i >= 3 {
            assert(ms[i] == ms.skip(3)[i - 3]);
        }
    }
    assert forall|i: int| 0 <= i < sensor_ids.len() implies (#[trigger] ms[3 + i]).value_template
        == "{{ value_json.sensors."@ + sensor_ids[i] + " }}"@ by {
        assert(ms[3 + i] == ms.skip(3)[i]);
    }
}

} // verus!
