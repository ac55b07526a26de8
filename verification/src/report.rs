//! Reporting decisions: which reports are due when, which sensors a report
//! lists and in what order, and when a power alert may be repeated.
use vstd::prelude::*;
use vstd::string::StringExecFns;
use crate::sensors::SensorInfo;
use crate::text::{chars_of, contains_seq, decimal, occurs, str_eq, string_of, u64_to_decimal};

verus! {

/// Seconds that must pass before another power alert is sent.
pub const ALERT_COOLDOWN_SECS: u64 = 900;

/// Whether another power alert may go out at `now_ts`, the last one having
/// gone out at `last_alert_ts`.
pub fn alert_cooldown_elapsed(now_ts: u64, last_alert_ts: u64) -> (b: bool)
    ensures
        b == (now_ts - last_alert_ts > ALERT_COOLDOWN_SECS),
{
    now_ts.saturating_sub(last_alert_ts) > ALERT_COOLDOWN_SECS
}

/// Seconds since the previous reading at `last_ts` (none known: no time
/// has passed), never negative.
pub fn elapsed_secs(last_ts: Option<u64>, now_ts: u64) -> (s: u64)
    ensures
        s == match last_ts {
            Some(t) => if now_ts >= t { (now_ts - t) as u64 } else { 0 },
            None => 0,
        },
{
    match last_ts {
        Some(t) => now_ts.saturating_sub(t),
        None => 0,
    }
}

/// Whether Telegram messages are sent: switched on, with a bot token and a
/// chat id.
pub fn telegram_active(enabled: bool, bot_token: &str, chat_id: &str) -> (b: bool)
    ensures
        b == (enabled && bot_token@.len() > 0 && chat_id@.len() > 0),
{
    enabled && !bot_token.is_empty() && !chat_id.is_empty()
}

/// The message announcing that monitoring started on `host_label` with
/// `sensor_count` sensors.
pub open spec fn startup_text(host_label: Seq<char>, sensor_count: nat) -> Seq<char> {
    "🚀 <b>Server Power Monitor</b> avviato su <code>"@ + host_label
        + "</code>\n📡 Sensori energetici attivi: <b>"@ + decimal(sensor_count) + "</b>"@
}

/// The message announcing that monitoring started.
pub fn startup_message(host_label: &str, sensor_count: usize) -> (m: String)
    ensures
        m@ == startup_text(host_label@, sensor_count as nat),
{
    let mut m = String::from_str("🚀 <b>Server Power Monitor</b> avviato su <code>");
    m.append(host_label);
    m.append("</code>\n📡 Sensori energetici attivi: <b>");
    let digits = string_of(u64_to_decimal(sensor_count as u64).as_slice());
    m.append(digits.as_str());
    m.append("</b>");
    m
}

/// The section of a report a sensor is listed in.
#[derive(Debug, Clone, Copy, PartialEq, Eq, Structural)]
pub enum ReportSection {
    Cpu,
    Gpu,
    Ram,
    Disk,
    System,
}

/// The section of a sensor by its display name: CPU and cores, GPUs, RAM,
/// the whole system, and the rest (disks).
pub open spec fn section_of(friendly: Seq<char>) -> ReportSection {
    if occurs("CPU"@, friendly) || occurs("Cores"@, friendly) {
        ReportSection::Cpu
    } else if occurs("GPU"@, friendly) {
        ReportSection::Gpu
    } else if occurs("RAM"@, friendly) {
        ReportSection::Ram
    } else if occurs("System"@, friendly) {
        ReportSection::System
    } else {
        ReportSection::Disk
    }
}

/// The section of a sensor by its display name.
pub fn report_section(friendly: &str) -> (s: ReportSection)
    ensures
        s == section_of(friendly@),
{
    let f = chars_of(friendly);
    if contains_seq(f.as_slice(), chars_of("CPU").as_slice()) || contains_seq(
        f.as_slice(),
        chars_of("Cores").as_slice(),
    ) {
        ReportSection::Cpu
    } else if contains_seq(f.as_slice(), chars_of("GPU").as_slice()) {
        ReportSection::Gpu
    } else if contains_seq(f.as_slice(), chars_of("RAM").as_slice()) {
        ReportSection::Ram
    } else if contains_seq(f.as_slice(), chars_of("System").as_slice()) {
        ReportSection::System
    } else {
        ReportSection::Disk
    }
}

/// The positions of the sensors a report lists: the first sensor of each
/// raw name, in order.
pub open spec fn first_of_each_raw(raws: Seq<Seq<char>>) -> (Seq<int>, Seq<Seq<char>>)
    decreases raws.len(),
{
    if raws.len() == 0 {
        (Seq::empty(), Seq::empty())
    } else {
        let (kept, seen) = first_of_each_raw(raws.drop_last());
        if seen.contains(raws.last()) {
            (kept, seen)
        } else {
            (kept.push(raws.len() - 1), seen.push(raws.last()))
        }
    }
}

/// The raw names of the sensors, in order.
pub open spec fn raw_names(sensors: Seq<SensorInfo>) -> Seq<Seq<char>> {
    sensors.map_values(|s: SensorInfo| s.raw_name@)
}

/// The listed positions whose sensor belongs to section `sec`, in order.
pub open spec fn in_section(sensors: Seq<SensorInfo>, kept: Seq<int>, sec: ReportSection) -> Seq<int> {
    kept.filter(|i: int| section_of(sensors[i].friendly_name@) == sec)
}

/// The order in which a report lists sensors: the first sensor of each raw
/// name, grouped CPU, GPU, RAM, disks, system, keeping sensor order within
/// a group.
pub open spec fn report_listing(sensors: Seq<SensorInfo>) -> Seq<int> {
    let kept = first_of_each_raw(raw_names(sensors)).0;
    in_section(sensors, kept, ReportSection::Cpu) + in_section(sensors, kept, ReportSection::Gpu)
        + in_section(sensors, kept, ReportSection::Ram) + in_section(sensors, kept, ReportSection::Disk)
        + in_section(sensors, kept, ReportSection::System)
}

/// Whether `seen` holds `s`.
fn holds(seen: &Vec<String>, s: &str) -> (b: bool)
    ensures
        b == seen@.map_values(|x: String| x@).contains(s@),
{
    let ghost v = seen@.map_values(|x: String| x@);
    let mut i: usize = 0;
    while i < seen.len()
        invariant
            i <= seen.len(),
            v == seen@.map_values(|x: String| x@),
            forall|k: int| 0 <= k < i ==> v[k] != s@,
        decreases seen.len() - i,
    {
        if str_eq(seen[i].as_str(), s) {
            assert(v[i as int] == s@);
            return true;
        }
        i += 1;
    }
    false
}

/// The positions of the sensors a report lists, in listing order.
pub fn report_order(sensors: &Vec<SensorInfo>) -> (order: Vec<usize>)
    ensures
        order@.map_values(|i: usize| i as int) == report_listing(sensors@),
{
    let ghost raws = raw_names(sensors@);
    let mut kept: Vec<usize> = Vec::new();
    let mut seen: Vec<String> = Vec::new();
    let mut i: usize = 0;
    while i < sensors.len()
        invariant
            i <= sensors.len(),
            raws == raw_names(sensors@),
            kept@.map_values(|k: usize| k as int) == first_of_each_raw(raws.take(i as int)).0,
            seen@.map_values(|x: String| x@) == first_of_each_raw(raws.take(i as int)).1,
            forall|k: int| 0 <= k < kept@.len() ==> kept@[k] < i,
        decreases sensors.len() - i,
    {
        assert(raws.take(i + 1).drop_last() =~= raws.take(i as int));
        assert(raws.take(i + 1).last() == sensors@[i as int].raw_name@);
        if !holds(&seen, sensors[i].raw_name.as_str()) {
            let ghost bk = kept@;
            let ghost bs = seen@;
            let r = String::from_str(sensors[i].raw_name.as_str());
            kept.push(i);
            seen.push(r);
            assert(kept@.map_values(|k: usize| k as int) =~= bk.map_values(|k: usize| k as int).push(i as int));
            assert(seen@.map_values(|x: String| x@) =~= bs.map_values(|x: String| x@).push(sensors@[i as int].raw_name@));
        }
        i += 1;
    }
    assert(raws.take(sensors.len() as int) =~= raws);
    let ghost kv = kept@.map_values(|k: usize| k as int);
    let mut order: Vec<usize> = Vec::new();
    let mut g: usize = 0;
    let sections = [ReportSection::Cpu, ReportSection::Gpu, ReportSection::Ram, ReportSection::Disk, ReportSection::System];
    let ghost mut acc: Seq<int> = Seq::empty();
    while g < 5
        invariant
            g <= 5,
            sections@ == seq![ReportSection::Cpu, ReportSection::Gpu, ReportSection::Ram, ReportSection::Disk, ReportSection::System],
            kv == kept@.map_values(|k: usize| k as int),
            forall|k: int| 0 <= k < kept@.len() ==> kept@[k] < sensors@.len(),
            order@.map_values(|i: usize| i as int) == section_listing(sensors@, kv, sections@.take(g as int)),
        decreases 5 - g,
    {
        let sec = sections[g];
        let ghost pred = |i: int| section_of(sensors@[i].friendly_name@) == sec;
        let ghost start = order@.map_values(|i: usize| i as int);
        let mut k: usize = 0;
        while k < kept.len()
            invariant
                k <= kept.len(),
                kv == kept@.map_values(|k: usize| k as int),
                forall|k: int| 0 <= k < kept@.len() ==> kept@[k] < sensors@.len(),
                pred == (|i: int| section_of(sensors@[i].friendly_name@) == sec),
                order@.map_values(|i: usize| i as int) == start + kv.take(k as int).filter(pred),
            decreases kept.len() - k,
        {
            proof {
                crate::text::lemma_filter_step(kv, pred, k as int);
            }
            let idx = kept[k];
            if report_section(sensors[idx].friendly_name.as_str()) == sec {
                let ghost before = order@;
                order.push(idx);
                assert(order@.map_values(|i: usize| i as int) =~= before.map_values(|i: usize| i as int).push(idx as int));
            }
            k += 1;
        }
        assert(kv.take(kept.len() as int) =~= kv);
        assert(sections@.take(g + 1) =~= sections@.take(g as int).push(sec));
        assert(sections@.take(g + 1).drop_last() =~= sections@.take(g as int));
        assert(kv.filter(pred) == in_section(sensors@, kv, sec));
        assert(section_listing(sensors@, kv, sections@.take(g + 1)) == section_listing(
            sensors@,
            kv,
            sections@.take(g as int),
        ) + in_section(sensors@, kv, sec));
        g += 1;
    }
    assert(sections@.take(5) =~= sections@);
    assert(kv == first_of_each_raw(raws).0);
    assert(section_listing(sensors@, kv, sections@) =~= report_listing(sensors@)) by {
        let s5 = sections@;
        let z = Seq::<ReportSection>::empty();
        let l1 = z.push(ReportSection::Cpu);
        let l2 = l1.push(ReportSection::Gpu);
        let l3 = l2.push(ReportSection::Ram);
        let l4 = l3.push(ReportSection::Disk);
        let l5 = l4.push(ReportSection::System);
        assert(s5 =~= l5);
        assert(l5.drop_last() =~= l4);
        assert(l4.drop_last() =~= l3);
        assert(l3.drop_last() =~= l2);
        assert(l2.drop_last() =~= l1);
        assert(l1.drop_last() =~= z);
        let c = in_section(sensors@, kv, ReportSection::Cpu);
        assert(section_listing(sensors@, kv, z) == Seq::<int>::empty());
        assert(section_listing(sensors@, kv, l1) == section_listing(sensors@, kv, z) + c);
        assert(Seq::<int>::empty() + c =~= c);
        assert(section_listing(sensors@, kv, l2) == section_listing(sensors@, kv, l1) + in_section(sensors@, kv, ReportSection::Gpu));
        assert(section_listing(sensors@, kv, l3) == section_listing(sensors@, kv, l2) + in_section(sensors@, kv, ReportSection::Ram));
        assert(section_listing(sensors@, kv, l4) == section_listing(sensors@, kv, l3) + in_section(sensors@, kv, ReportSection::Disk));
        assert(section_listing(sensors@, kv, l5) == section_listing(sensors@, kv, l4) + in_section(sensors@, kv, ReportSection::System));
    }
    order
}

/// The listed positions of each of `secs` in turn.
pub open spec fn section_listing(sensors: Seq<SensorInfo>, kept: Seq<int>, secs: Seq<ReportSection>) -> Seq<int>
    decreases secs.len(),
{
    if secs.len() == 0 {
        Seq::empty()
    } else {
        section_listing(sensors, kept, secs.drop_last()) + in_section(sensors, kept, secs.last())
    }
}


/// `n` printed with at least two digits (`{:02}`).
pub open spec fn two_digits(n: nat) -> Seq<char> {
    if decimal(n).len() < 2 {
        "0"@ + decimal(n)
    } else {
        decimal(n)
    }
}

/// `n` printed with at least two digits.
fn two_digit_text(n: u32) -> (s: String)
    ensures
        s@ == two_digits(n as nat),
{
    let d = u64_to_decimal(n as u64);
    if d.len() < 2 {
        let mut s = String::from_str("0");
        let tail = string_of(d.as_slice());
        s.append(tail.as_str());
        s
    } else {
        string_of(d.as_slice())
    }
}

/// An interval status report that is due: its tag (`HH:00`) and the key
/// that records it was sent (`<date>_HH`).
pub struct IntervalReport {
    pub tag: String,
    pub key: String,
}

/// The reports due at a sampling tick.
pub struct ReportPlan {
    /// The daily report is due.
    pub daily: bool,
    /// An interval status report is due.
    pub interval: Option<IntervalReport>,
}

/// Whether the daily report is due at `hour:minute` of `today`: at the
/// configured time, unless it was already sent for `today`.
pub open spec fn daily_report_due(hour: u32, minute: u32, today: Seq<char>, report_hour: u32, report_minute: u32, last_report_date: Option<Seq<char>>) -> bool {
    hour == report_hour && minute == report_minute && last_report_date != Some(today)
}

/// The key recording the interval report of `hour` on `today`.
pub open spec fn interval_key(today: Seq<char>, hour: u32) -> Seq<char> {
    today + "_"@ + two_digits(hour as nat)
}

/// Whether an interval status report is due at `hour:minute` of `today`:
/// at the top of every `interval_hours`-th hour (not the daily report's
/// hour), unless it was already sent for that hour of `today`.
pub open spec fn interval_report_due(hour: u32, minute: u32, today: Seq<char>, report_hour: u32, interval_hours: u32, last_interval_key: Option<Seq<char>>) -> bool {
    &&& interval_hours > 0
    &&& minute == 0
    &&& hour % interval_hours == 0
    &&& hour != report_hour
    &&& last_interval_key != Some(interval_key(today, hour))
}

/// The view of an optional string.
pub open spec fn opt_view(o: Option<String>) -> Option<Seq<char>> {
    match o {
        Some(s) => Some(s@),
        None => None,
    }
}

/// Whether an optional string holds `s`.
fn opt_is(o: &Option<String>, s: &str) -> (b: bool)
    ensures
        b == (opt_view(*o) == Some(s@)),
{
    match o {
        Some(x) => str_eq(x.as_str(), s),
        None => false,
    }
}

/// The reports due at `hour:minute` of `today`, given the configured time
/// of the daily report, the interval of status reports, and what was
/// recorded as last sent.
pub fn scheduled_reports(hour: u32, minute: u32, today: &str, report_hour: u32, report_minute: u32, interval_hours: u32, last_report_date: &Option<String>, last_interval_key: &Option<String>) -> (plan: ReportPlan)
    ensures
        plan.daily == daily_report_due(hour, minute, today@, report_hour, report_minute, opt_view(*last_report_date)),
        plan.interval is Some <==> interval_report_due(hour, minute, today@, report_hour, interval_hours, opt_view(*last_interval_key)),
        plan.interval matches Some(r) ==> r.key@ == interval_key(today@, hour) && r.tag@ == two_digits(hour as nat) + ":00"@,
{
    let daily = hour == report_hour && minute == report_minute && !opt_is(last_report_date, today);
    let mut interval: Option<IntervalReport> = None;
    if interval_hours > 0 && minute == 0 {
        if hour % interval_hours == 0 && hour != report_hour {
            let hh = two_digit_text(hour);
            let mut key = String::from_str(today);
            key.append("_");
            key.append(hh.as_str());
            if !opt_is(last_interval_key, key.as_str()) {
                let mut tag = String::from_str(hh.as_str());
                tag.append(":00");
                interval = Some(IntervalReport { tag, key });
            }
        }
    }
    ReportPlan { daily, interval }
}

/// Once the daily report of a date is recorded as sent, it is not due
/// again that date, at any time.
pub proof fn lemma_daily_report_once(hour: u32, minute: u32, today: Seq<char>, report_hour: u32, report_minute: u32)
    ensures
        !daily_report_due(hour, minute, today, report_hour, report_minute, Some(today)),
{
}

/// Once the interval report of an hour is recorded as sent, it is not due
/// again in that hour of that date.
pub proof fn lemma_interval_report_once(hour: u32, minute: u32, today: Seq<char>, report_hour: u32, interval_hours: u32)
    ensures
        !interval_report_due(hour, minute, today, report_hour, interval_hours, Some(interval_key(today, hour))),
{
}

} // verus!
