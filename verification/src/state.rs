//! Persisted state: the last raw reading of every sensor (`state.env`),
//! which sensors a day's energy total counts, the daily state files and
//! their retention.
use vstd::prelude::*;
use vstd::string::StringExecFns;
use crate::sensors::SensorInfo;
use crate::text::{
    chars_of, decimal, find_char, first_index_of, is_prefix, parse_u64, parse_unsigned, starts_with,
    str_eq, string_of, trim, trim_chars, u64_to_decimal, lemma_trim_noop, lemma_parse_decimal,
    lemma_decimal_digits, lemma_first_index_is, is_digit, is_white_space, ends_with, is_suffix,
    less_than, seq_lt, strip_prefix_all, strip_suffix_all, trim_end_matches, trim_start_matches,
    lemma_filter_step, lemma_seq_lt_asymmetric, lemma_seq_lt_transitive,
};
use chrono::{Datelike, NaiveDate};

verus! {

/// Whether no two entries share a key.
pub open spec fn distinct_keys(s: Seq<(Seq<char>, u64)>) -> bool {
    forall|i: int, j: int| 0 <= i < j < s.len() ==> s[i].0 != s[j].0
}

/// Whether some entry has key `k`.
pub open spec fn has_key(s: Seq<(Seq<char>, u64)>, k: Seq<char>) -> bool {
    exists|i: int| 0 <= i < s.len() && s[i].0 == k
}

/// The value stored under `k`, if any.
pub open spec fn lookup(s: Seq<(Seq<char>, u64)>, k: Seq<char>) -> Option<u64> {
    if has_key(s, k) {
        Some(s[choose|i: int| 0 <= i < s.len() && s[i].0 == k].1)
    } else {
        None
    }
}

/// The entries after storing `v` under `k`: the entry of `k` replaced in
/// place, or a new entry appended.
pub open spec fn stored(s: Seq<(Seq<char>, u64)>, k: Seq<char>, v: u64) -> Seq<(Seq<char>, u64)> {
    if has_key(s, k) {
        s.update(choose|i: int| 0 <= i < s.len() && s[i].0 == k, (k, v))
    } else {
        s.push((k, v))
    }
}

/// With distinct keys, the entry found for `k` is the one at `i`.
proof fn lemma_key_index(s: Seq<(Seq<char>, u64)>, i: int, k: Seq<char>)
    requires
        distinct_keys(s),
        0 <= i < s.len(),
        s[i].0 == k,
    ensures
        (choose|j: int| 0 <= j < s.len() && s[j].0 == k) == i,
        lookup(s, k) == Some(s[i].1),
{
    let j = choose|j: int| 0 <= j < s.len() && s[j].0 == k;
    if j != i {
        if j < i {
            assert(s[j].0 != s[i].0);
        } else {
            assert(s[i].0 != s[j].0);
        }
    }
}

/// Storing keeps keys distinct.
proof fn lemma_stored_distinct(s: Seq<(Seq<char>, u64)>, k: Seq<char>, v: u64)
    requires
        distinct_keys(s),
    ensures
        distinct_keys(stored(s, k, v)),
{
    let t = stored(s, k, v);
    if has_key(s, k) {
        let i = choose|i: int| 0 <= i < s.len() && s[i].0 == k;
        assert forall|a: int, b: int| 0 <= a < b < t.len() implies t[a].0 != t[b].0 by {
            assert(t[a].0 == s[a].0);
            assert(t[b].0 == s[b].0);
        }
    } else {
        assert forall|a: int, b: int| 0 <= a < b < t.len() implies t[a].0 != t[b].0 by {
            if b < s.len() {
                assert(t[a] == s[a]);
                assert(t[b] == s[b]);
            } else {
                assert(t[a] == s[a]);
            }
        }
    }
}

/// A table of `u64` counters keyed by sensor id, in first-stored order.
pub struct CounterMap {
    entries: Vec<(String, u64)>,
}

impl View for CounterMap {
    type V = Seq<(Seq<char>, u64)>;

    closed spec fn view(&self) -> Seq<(Seq<char>, u64)> {
        self.entries@.map_values(|e: (String, u64)| (e.0@, e.1))
    }
}

impl CounterMap {
    /// No key occurs twice.
    pub open spec fn wf(&self) -> bool {
        distinct_keys(self@)
    }

    /// An empty table.
    pub fn new() -> (m: Self)
        ensures
            m.wf(),
            m@ == Seq::<(Seq<char>, u64)>::empty(),
    {
        let m = CounterMap { entries: Vec::new() };
        assert(m@ =~= Seq::<(Seq<char>, u64)>::empty());
        m
    }

    /// The number of entries.
    pub fn len(&self) -> (n: usize)
        ensures
            n == self@.len(),
    {
        self.entries.len()
    }

    /// The `i`-th entry.
    pub fn entry(&self, i: usize) -> (e: (&str, u64))
        requires
            i < self@.len(),
        ensures
            e.0@ == self@[i as int].0,
            e.1 == self@[i as int].1,
    {
        (self.entries[i].0.as_str(), self.entries[i].1)
    }

    /// Position of the entry of `key`, if any.
    fn index_of(&self, key: &str) -> (res: Option<usize>)
        ensures
            match res {
                Some(i) => i < self@.len() && self@[i as int].0 == key@,
                None => !has_key(self@, key@),
            },
    {
        let mut i: usize = 0;
        while i < self.entries.len()
            invariant
                i <= self.entries@.len(),
                forall|j: int| 0 <= j < i ==> self@[j].0 != key@,
            decreases self.entries@.len() - i,
        {
            if str_eq(self.entries[i].0.as_str(), key) {
                return Some(i);
            }
            i += 1;
        }
        None
    }

    /// The value stored under `key`.
    pub fn get(&self, key: &str) -> (res: Option<u64>)
        requires
            self.wf(),
        ensures
            res == lookup(self@, key@),
    {
        match self.index_of(key) {
            Some(i) => {
                proof {
                    lemma_key_index(self@, i as int, key@);
                }
                Some(self.entries[i].1)
            },
            None => None,
        }
    }

    /// Whether some value is stored under `key`.
    pub fn contains_key(&self, key: &str) -> (b: bool)
        ensures
            b == has_key(self@, key@),
    {
        self.index_of(key).is_some()
    }

    /// Stores `value` under `key`.
    pub fn insert(&mut self, key: &str, value: u64)
        requires
            old(self).wf(),
        ensures
            final(self).wf(),
            final(self)@ == stored(old(self)@, key@, value),
    {
        proof {
            lemma_stored_distinct(self@, key@, value);
        }
        match self.index_of(key) {
            Some(i) => {
                proof {
                    lemma_key_index(self@, i as int, key@);
                }
                let ghost before = self.entries@;
                self.entries.set(i, (String::from_str(key), value));
                assert(self@ =~= stored(old(self)@, key@, value));
            },
            None => {
                let ghost before = self.entries@;
                self.entries.push((String::from_str(key), value));
                assert(self@ =~= stored(old(self)@, key@, value));
            },
        }
    }
}


/// The last raw reading (µJ, or I/O sectors) and its time, per sensor id.
pub struct LastState {
    pub last_uj: CounterMap,
    pub last_ts: CounterMap,
}

/// The counter tables after one line of `state.env`: a `LAST_UJ_<id>=<n>`
/// or `LAST_TS_<id>=<n>` line (after trimming; the key is the text before
/// the first `=`) stores `n` under `<id>` when `<n>` reads as a `u64`; any
/// other line changes nothing.
pub open spec fn state_line_effect(uj: Seq<(Seq<char>, u64)>, ts: Seq<(Seq<char>, u64)>, line: Seq<char>) -> (Seq<(Seq<char>, u64)>, Seq<(Seq<char>, u64)>) {
    let t = trim(line);
    match first_index_of(t, '=') {
        Some(i) => {
            let k = t.take(i);
            let v = t.skip(i + 1);
            if is_prefix("LAST_UJ_"@, k) {
                match parse_unsigned(v, u64::MAX as int) {
                    Some(n) => (stored(uj, k.skip(8), n as u64), ts),
                    None => (uj, ts),
                }
            } else if is_prefix("LAST_TS_"@, k) {
                match parse_unsigned(v, u64::MAX as int) {
                    Some(n) => (uj, stored(ts, k.skip(8), n as u64)),
                    None => (uj, ts),
                }
            } else {
                (uj, ts)
            }
        },
        None => (uj, ts),
    }
}

/// The counter tables read from the lines of `state.env`, in order.
pub open spec fn parsed_state(lines: Seq<Seq<char>>) -> (Seq<(Seq<char>, u64)>, Seq<(Seq<char>, u64)>)
    decreases lines.len(),
{
    if lines.len() == 0 {
        (Seq::empty(), Seq::empty())
    } else {
        let (uj, ts) = parsed_state(lines.drop_last());
        state_line_effect(uj, ts, lines.last())
    }
}

/// The lines `state.env` holds for the tables: for each id with a reading,
/// in table order, `LAST_UJ_<id>=<reading>` then `LAST_TS_<id>=<time>`
/// (time 0 when none is recorded).
pub open spec fn rendered_state(uj: Seq<(Seq<char>, u64)>, ts: Seq<(Seq<char>, u64)>) -> Seq<Seq<char>>
    decreases uj.len(),
{
    if uj.len() == 0 {
        Seq::empty()
    } else {
        let (id, v) = uj.last();
        let t = match lookup(ts, id) {
            Some(x) => x,
            None => 0,
        };
        rendered_state(uj.drop_last(), ts).push("LAST_UJ_"@ + id + "="@ + decimal(v as nat)).push(
            "LAST_TS_"@ + id + "="@ + decimal(t as nat),
        )
    }
}

/// The tables after making sure every sensor has an entry: a sensor without
/// a reading gets reading 0 and time `now_ts` (stored in both tables).
pub open spec fn initialized(uj: Seq<(Seq<char>, u64)>, ts: Seq<(Seq<char>, u64)>, ids: Seq<Seq<char>>, now_ts: u64) -> (Seq<(Seq<char>, u64)>, Seq<(Seq<char>, u64)>)
    decreases ids.len(),
{
    if ids.len() == 0 {
        (uj, ts)
    } else {
        let (u, t) = initialized(uj, ts, ids.drop_last(), now_ts);
        let id = ids.last();
        if has_key(u, id) {
            (u, t)
        } else {
            (stored(u, id, 0), stored(t, id, now_ts))
        }
    }
}

/// The ids of the sensors, in order.
pub open spec fn sensor_ids(sensors: Seq<SensorInfo>) -> Seq<Seq<char>> {
    sensors.map_values(|s: SensorInfo| s.id@)
}

/// `a`, then `b`, then `c`, as a `String`.
fn join3(a: &str, b: &str, c: &[char]) -> (s: String)
    ensures
        s@ == a@ + b@ + c@,
{
    let mut s = String::from_str(a);
    s.append(b);
    let tail = string_of(c);
    s.append(tail.as_str());
    s
}

impl LastState {
    /// Both tables have distinct keys.
    pub open spec fn wf(&self) -> bool {
        self.last_uj.wf() && self.last_ts.wf()
    }

    /// Empty tables.
    pub fn new() -> (s: Self)
        ensures
            s.wf(),
            s.last_uj@ == Seq::<(Seq<char>, u64)>::empty(),
            s.last_ts@ == Seq::<(Seq<char>, u64)>::empty(),
    {
        LastState { last_uj: CounterMap::new(), last_ts: CounterMap::new() }
    }

    /// Applies one line of `state.env`.
    fn apply_state_line(&mut self, line: &str)
        requires
            old(self).wf(),
        ensures
            final(self).wf(),
            (final(self).last_uj@, final(self).last_ts@) == state_line_effect(
                old(self).last_uj@,
                old(self).last_ts@,
                line@,
            ),
    {
        let t = trim_chars(chars_of(line).as_slice());
        match find_char(t.as_slice(), '=') {
            Some(i) => {
                let mut key: Vec<char> = Vec::new();
                let mut k: usize = 0;
                while k < i
                    invariant
                        i < t.len(),
                        k <= i,
                        key@ == t@.take(k as int),
                    decreases i - k,
                {
                    key.push(t[k]);
                    assert(t@.take(k + 1) =~= t@.take(k as int).push(t@[k as int]));
                    k += 1;
                }
                let mut val: Vec<char> = Vec::new();
                let mut m: usize = i + 1;
                while m < t.len()
                    invariant
                        i < t.len(),
                        i + 1 <= m <= t.len(),
                        val@ == t@.subrange(i + 1, m as int),
                    decreases t.len() - m,
                {
                    val.push(t[m]);
                    assert(t@.subrange(i + 1, m + 1) =~= t@.subrange(i + 1, m as int).push(t@[m as int]));
                    m += 1;
                }
                assert(val@ =~= t@.skip(i + 1));
                proof {
                    reveal_strlit("LAST_UJ_");
                    reveal_strlit("LAST_TS_");
                }
                let uj_prefix = chars_of("LAST_UJ_");
                let ts_prefix = chars_of("LAST_TS_");
                if starts_with(key.as_slice(), uj_prefix.as_slice()) {
                    if let Some(n) = parse_u64(val.as_slice()) {
                        let id = string_of(drop_front(key.as_slice(), 8).as_slice());
                        self.last_uj.insert(id.as_str(), n);
                    }
                } else if starts_with(key.as_slice(), ts_prefix.as_slice()) {
                    if let Some(n) = parse_u64(val.as_slice()) {
                        let id = string_of(drop_front(key.as_slice(), 8).as_slice());
                        self.last_ts.insert(id.as_str(), n);
                    }
                }
            },
            None => {},
        }
    }

    /// The tables read from the lines of `state.env`.
    pub fn parse_state_lines(lines: &Vec<String>) -> (s: Self)
        ensures
            s.wf(),
            (s.last_uj@, s.last_ts@) == parsed_state(lines@.map_values(|l: String| l@)),
    {
        let ghost all = lines@.map_values(|l: String| l@);
        let mut st = LastState::new();
        let mut i: usize = 0;
        while i < lines.len()
            invariant
                i <= lines.len(),
                all == lines@.map_values(|l: String| l@),
                st.wf(),
                (st.last_uj@, st.last_ts@) == parsed_state(all.take(i as int)),
            decreases lines.len() - i,
        {
            assert(all.take(i + 1).drop_last() =~= all.take(i as int));
            st.apply_state_line(lines[i].as_str());
            i += 1;
        }
        assert(all.take(lines.len() as int) =~= all);
        st
    }

    /// Makes sure every sensor has a reading: a sensor without one gets
    /// reading 0 and time `now_ts`. Tells whether anything was added.
    pub fn init_missing(&mut self, sensors: &Vec<SensorInfo>, now_ts: u64) -> (changed: bool)
        requires
            old(self).wf(),
        ensures
            final(self).wf(),
            (final(self).last_uj@, final(self).last_ts@) == initialized(
                old(self).last_uj@,
                old(self).last_ts@,
                sensor_ids(sensors@),
                now_ts,
            ),
            changed == (final(self).last_uj@ != old(self).last_uj@),
    {
        let ghost ids = sensor_ids(sensors@);
        let mut changed = false;
        let mut i: usize = 0;
        assert(ids.take(0) =~= Seq::<Seq<char>>::empty());
        while i < sensors.len()
            invariant
                i <= sensors.len(),
                ids == sensor_ids(sensors@),
                self.wf(),
                (self.last_uj@, self.last_ts@) == initialized(
                    old(self).last_uj@,
                    old(self).last_ts@,
                    ids.take(i as int),
                    now_ts,
                ),
                changed == (self.last_uj@.len() > old(self).last_uj@.len()),
                self.last_uj@.len() >= old(self).last_uj@.len(),
                !changed ==> self.last_uj@ == old(self).last_uj@,
            decreases sensors.len() - i,
        {
            assert(ids.take(i + 1).drop_last() =~= ids.take(i as int));
            assert(ids.take(i + 1).last() == sensors@[i as int].id@);
            let id = sensors[i].id.as_str();
            if !self.last_uj.contains_key(id) {
                self.last_uj.insert(id, 0);
                self.last_ts.insert(id, now_ts);
                changed = true;
            }
            i += 1;
        }
        assert(ids.take(sensors.len() as int) =~= ids);
        changed
    }

    /// The tables read from the lines of `state.env` (none when it is
    /// missing), with an entry made for every sensor lacking one; tells
    /// whether entries were made, in which case the file is due to be
    /// written again.
    pub fn load_or_init(lines: &Vec<String>, sensors: &Vec<SensorInfo>, now_ts: u64) -> (res: (Self, bool))
        ensures
            res.0.wf(),
            (res.0.last_uj@, res.0.last_ts@) == ({
                let (uj, ts) = parsed_state(lines@.map_values(|l: String| l@));
                initialized(uj, ts, sensor_ids(sensors@), now_ts)
            }),
            res.1 == (res.0.last_uj@ != parsed_state(lines@.map_values(|l: String| l@)).0),
    {
        let mut st = LastState::parse_state_lines(lines);
        let changed = st.init_missing(sensors, now_ts);
        (st, changed)
    }

    /// The lines `state.env` is to hold.
    pub fn state_lines(&self) -> (lines: Vec<String>)
        requires
            self.wf(),
        ensures
            lines@.map_values(|l: String| l@) == rendered_state(self.last_uj@, self.last_ts@),
    {
        let mut lines: Vec<String> = Vec::new();
        let mut i: usize = 0;
        let ghost uj = self.last_uj@;
        let ghost ts = self.last_ts@;
        while i < self.last_uj.len()
            invariant
                i <= uj.len(),
                uj == self.last_uj@,
                ts == self.last_ts@,
                self.wf(),
                lines@.map_values(|l: String| l@) == rendered_state(uj.take(i as int), ts),
            decreases uj.len() - i,
        {
            let (id, v) = self.last_uj.entry(i);
            let t = match self.last_ts.get(id) {
                Some(x) => x,
                None => 0,
            };
            let ghost before = lines@;
            let l1 = join3("LAST_UJ_", id, join_eq(u64_to_decimal(v).as_slice()).as_slice());
            let l2 = join3("LAST_TS_", id, join_eq(u64_to_decimal(t).as_slice()).as_slice());
            lines.push(l1);
            lines.push(l2);
            assert(uj.take(i + 1).drop_last() =~= uj.take(i as int));
            assert(uj.take(i + 1).last() == uj[i as int]);
            assert(l1@ =~= "LAST_UJ_"@ + id@ + "="@ + decimal(v as nat));
            assert(l2@ =~= "LAST_TS_"@ + id@ + "="@ + decimal(t as nat));
            assert(lines@.map_values(|l: String| l@) =~= before.map_values(|l: String| l@).push(l1@).push(l2@));
            i += 1;
        }
        assert(uj.take(uj.len() as int) =~= uj);
        lines
    }
}

/// `=` followed by `digits`.
fn join_eq(digits: &[char]) -> (res: Vec<char>)
    ensures
        res@ == "="@ + digits@,
{
    let mut res = chars_of("=");
    let mut i: usize = 0;
    let ghost start = res@;
    while i < digits.len()
        invariant
            i <= digits.len(),
            start == "="@,
            res@ == start + digits@.take(i as int),
        decreases digits.len() - i,
    {
        res.push(digits[i]);
        assert(digits@.take(i + 1) =~= digits@.take(i as int).push(digits@[i as int]));
        assert(res@ =~= start + digits@.take(i + 1));
        i += 1;
    }
    assert(digits@.take(digits.len() as int) =~= digits@);
    res
}

/// `s` without its first `n` characters.
fn drop_front(s: &[char], n: usize) -> (res: Vec<char>)
    requires
        n <= s.len(),
    ensures
        res@ == s@.skip(n as int),
{
    let mut res: Vec<char> = Vec::new();
    let mut i: usize = n;
    while i < s.len()
        invariant
            n <= i <= s.len(),
            res@ == s@.subrange(n as int, i as int),
        decreases s.len() - i,
    {
        res.push(s[i]);
        assert(s@.subrange(n as int, i + 1) =~= s@.subrange(n as int, i as int).push(s@[i as int]));
        i += 1;
    }
    assert(res@ =~= s@.skip(n as int));
    res
}


/// The time table `state.env` gives back for the readings `uj`: each id's
/// time from `ts`, or 0, in the order of `uj`.
pub open spec fn times_for(uj: Seq<(Seq<char>, u64)>, ts: Seq<(Seq<char>, u64)>) -> Seq<(Seq<char>, u64)> {
    uj.map_values(|e: (Seq<char>, u64)| (e.0, match lookup(ts, e.0) {
        Some(x) => x,
        None => 0,
    }))
}

/// Whether every id of `uj` is free of `=` (the separator of `state.env`).
pub open spec fn ids_without_eq(uj: Seq<(Seq<char>, u64)>) -> bool {
    forall|i: int| 0 <= i < uj.len() ==> !(#[trigger] uj[i].0).contains('=')
}

/// Reading back one line written for `id`.
proof fn lemma_state_line_read(uj: Seq<(Seq<char>, u64)>, ts: Seq<(Seq<char>, u64)>, id: Seq<char>, n: u64, timestamp: bool)
    requires
        !id.contains('='),
    ensures
        !timestamp ==> state_line_effect(uj, ts, "LAST_UJ_"@ + id + "="@ + decimal(n as nat)) == (stored(uj, id, n), ts),
        timestamp ==> state_line_effect(uj, ts, "LAST_TS_"@ + id + "="@ + decimal(n as nat)) == (uj, stored(ts, id, n)),
{
    reveal_strlit("LAST_UJ_");
    reveal_strlit("LAST_TS_");
    reveal_strlit("=");
    let prefix = if timestamp { "LAST_TS_"@ } else { "LAST_UJ_"@ };
    let digits = decimal(n as nat);
    let line = prefix + id + "="@ + digits;
    lemma_decimal_digits(n as nat);
    lemma_parse_decimal(n as nat, u64::MAX as int);
    assert(line[0] == 'L');
    assert(line.last() == digits.last());
    assert(is_digit(digits[digits.len() - 1]));
    lemma_trim_noop(line);
    let p: int = 8 + id.len() as int;
    assert(line[p] == '=');
    assert forall|k: int| 0 <= k < p implies line[k] != '=' by {
        if k >= 8 {
            assert(line[k] == id[k - 8]);
        }
    }
    lemma_first_index_is(line, '=', p);
    assert(line.take(p) =~= prefix + id);
    assert(line.skip(p + 1) =~= digits);
    assert((prefix + id).skip(8) =~= id);
    assert((prefix + id).take(8) =~= prefix);
    if timestamp {
        assert((prefix + id).take(8)[5] == 'T');
        assert(!is_prefix("LAST_UJ_"@, prefix + id));
    }
}

/// Writing the tables to `state.env` and reading them back gives the same
/// readings, in the same order, and for each of them the time stored with
/// it (0 when none was); times of ids without a reading are not written.
/// Holds for ids without `=`.
pub proof fn lemma_state_file_roundtrip(uj: Seq<(Seq<char>, u64)>, ts: Seq<(Seq<char>, u64)>)
    requires
        distinct_keys(uj),
        ids_without_eq(uj),
    ensures
        parsed_state(rendered_state(uj, ts)) == (uj, times_for(uj, ts)),
    decreases uj.len(),
{
    if uj.len() == 0 {
        assert(times_for(uj, ts) =~= Seq::<(Seq<char>, u64)>::empty());
    } else {
        let rest = uj.drop_last();
        assert(distinct_keys(rest));
        assert(ids_without_eq(rest)) by {
            assert forall|i: int| 0 <= i < rest.len() implies !(#[trigger] rest[i].0).contains('=') by {
                assert(rest[i] == uj[i]);
            }
        }
        lemma_state_file_roundtrip(rest, ts);
        let (id, v) = uj.last();
        assert(!uj[uj.len() - 1].0.contains('='));
        let t = match lookup(ts, id) {
            Some(x) => x,
            None => 0,
        };
        let r = rendered_state(rest, ts);
        let l1 = "LAST_UJ_"@ + id + "="@ + decimal(v as nat);
        let l2 = "LAST_TS_"@ + id + "="@ + decimal(t as nat);
        assert(rendered_state(uj, ts) == r.push(l1).push(l2));
        assert(r.push(l1).push(l2).drop_last() == r.push(l1));
        assert(r.push(l1).drop_last() == r);
        let tm = times_for(rest, ts);
        lemma_state_line_read(rest, tm, id, v, false);
        lemma_state_line_read(stored(rest, id, v), tm, id, t, true);
        assert(!has_key(rest, id)) by {
            if has_key(rest, id) {
                let k = choose|k: int| 0 <= k < rest.len() && rest[k].0 == id;
                assert(uj[k].0 != uj[uj.len() - 1].0);
            }
        }
        assert(!has_key(tm, id)) by {
            if has_key(tm, id) {
                let k = choose|k: int| 0 <= k < tm.len() && tm[k].0 == id;
                assert(rest[k].0 == tm[k].0);
            }
        }
        assert(stored(rest, id, v) =~= uj);
        assert(stored(tm, id, t) =~= times_for(uj, ts));
        assert(parsed_state(r.push(l1)) == state_line_effect(rest, tm, l1));
        assert(parsed_state(r.push(l1)) == (uj, tm));
        assert(parsed_state(r.push(l1).push(l2)) == state_line_effect(uj, tm, l2));
    }
}


/// Whether a sensor is the whole-system (`psys`) RAPL domain.
pub open spec fn is_psys(s: SensorInfo) -> bool {
    is_prefix("psys"@, s.raw_name@)
}

/// Whether a sensor's energy is part of the day's total when there is no
/// `psys` domain: the CPU package, NVIDIA GPUs, SSDs and HDDs.
pub open spec fn counts_toward_total(s: SensorInfo) -> bool {
    is_prefix("package"@, s.raw_name@) || is_prefix("nvidia"@, s.id@) || is_prefix("SSD"@, s.raw_name@)
        || is_prefix("HDD"@, s.raw_name@)
}

/// The position of the last `psys` sensor, if any.
pub open spec fn last_psys(sensors: Seq<SensorInfo>) -> Option<int>
    decreases sensors.len(),
{
    if sensors.len() == 0 {
        None
    } else if is_psys(sensors.last()) {
        Some(sensors.len() - 1)
    } else {
        last_psys(sensors.drop_last())
    }
}

/// The positions, in order, of the sensors counting toward the total when
/// there is no `psys` domain.
pub open spec fn counted_positions(sensors: Seq<SensorInfo>) -> Seq<int>
    decreases sensors.len(),
{
    if sensors.len() == 0 {
        Seq::empty()
    } else {
        let before = counted_positions(sensors.drop_last());
        if counts_toward_total(sensors.last()) {
            before.push(sensors.len() - 1)
        } else {
            before
        }
    }
}

/// Which sensors' energy makes the day's total, and whether a `psys` domain
/// exists: the `psys` domain alone (the last one, should there be several)
/// measures the whole system; without it, the package, GPUs and disks are
/// added up.
pub open spec fn total_sources(sensors: Seq<SensorInfo>) -> (Seq<int>, bool) {
    match last_psys(sensors) {
        Some(i) => (seq![i], true),
        None => (counted_positions(sensors), false),
    }
}

/// The positions of the sensors whose energy makes the day's total, and
/// whether a `psys` domain exists.
pub fn total_energy_sensors(sensors: &Vec<SensorInfo>) -> (res: (Vec<usize>, bool))
    ensures
        res.0@.map_values(|i: usize| i as int) == total_sources(sensors@).0,
        res.1 == total_sources(sensors@).1,
{
    let psys = chars_of("psys");
    let package = chars_of("package");
    let nvidia = chars_of("nvidia");
    let ssd = chars_of("SSD");
    let hdd = chars_of("HDD");
    let mut last: Option<usize> = None;
    let mut counted: Vec<usize> = Vec::new();
    let mut i: usize = 0;
    while i < sensors.len()
        invariant
            i <= sensors.len(),
            psys@ == "psys"@,
            package@ == "package"@,
            nvidia@ == "nvidia"@,
            ssd@ == "SSD"@,
            hdd@ == "HDD"@,
            match last {
                Some(k) => last_psys(sensors@.take(i as int)) == Some(k as int),
                None => last_psys(sensors@.take(i as int)) is None,
            },
            counted@.map_values(|k: usize| k as int) == counted_positions(sensors@.take(i as int)),
        decreases sensors.len() - i,
    {
        assert(sensors@.take(i + 1).drop_last() =~= sensors@.take(i as int));
        assert(sensors@.take(i + 1).last() == sensors@[i as int]);
        let raw = chars_of(sensors[i].raw_name.as_str());
        let id = chars_of(sensors[i].id.as_str());
        if starts_with(raw.as_slice(), psys.as_slice()) {
            last = Some(i);
        }
        if starts_with(raw.as_slice(), package.as_slice()) || starts_with(id.as_slice(), nvidia.as_slice())
            || starts_with(raw.as_slice(), ssd.as_slice()) || starts_with(raw.as_slice(), hdd.as_slice()) {
            let ghost before = counted@;
            counted.push(i);
            assert(counted@.map_values(|k: usize| k as int) =~= before.map_values(|k: usize| k as int).push(i as int));
        }
        i += 1;
    }
    assert(sensors@.take(sensors.len() as int) =~= sensors@);
    match last {
        Some(k) => {
            let v = vec![k];
            assert(v@.map_values(|i: usize| i as int) =~= seq![k as int]);
            (v, true)
        },
        None => (counted, false),
    }
}

/// The date a daily state file name carries: for a name starting with
/// `today_` and ending with `.env`, the name with every leading `today_`
/// and every trailing `.env` removed.
pub open spec fn daily_file_date(name: Seq<char>) -> Option<Seq<char>> {
    if is_prefix("today_"@, name) && is_suffix(".env"@, name) {
        Some(strip_suffix_all(strip_prefix_all(name, "today_"@), ".env"@))
    } else {
        None
    }
}

/// The date a daily state file name carries, if it is one.
pub fn daily_file_date_of(name: &str) -> (res: Option<String>)
    ensures
        match res {
            Some(d) => daily_file_date(name@) == Some(d@),
            None => daily_file_date(name@) is None,
        },
{
    proof {
        reveal_strlit("today_");
        reveal_strlit(".env");
    }
    let n = chars_of(name);
    let prefix = chars_of("today_");
    let suffix = chars_of(".env");
    if starts_with(n.as_slice(), prefix.as_slice()) && ends_with(n.as_slice(), suffix.as_slice()) {
        let a = trim_start_matches(n.as_slice(), prefix.as_slice());
        let b = trim_end_matches(a.as_slice(), suffix.as_slice());
        Some(string_of(b.as_slice()))
    } else {
        None
    }
}

/// What the whole history is made of: the dates of the daily state files
/// found (in directory order), how many days that is (at least 1), and the
/// first day of the history.
pub struct HistoryFiles {
    pub dates: Vec<String>,
    pub days_count: usize,
    pub first_date: String,
}

/// The dates of the daily state files among `names`, in order.
pub open spec fn history_dates(names: Seq<Seq<char>>) -> Seq<Seq<char>>
    decreases names.len(),
{
    if names.len() == 0 {
        Seq::empty()
    } else {
        let before = history_dates(names.drop_last());
        match daily_file_date(names.last()) {
            Some(d) => before.push(d),
            None => before,
        }
    }
}

/// The first day of the history: starting from the lifetime counter's, each
/// date found replaces it when that is empty or the date sorts before it.
pub open spec fn earliest_date(first: Seq<char>, dates: Seq<Seq<char>>) -> Seq<char>
    decreases dates.len(),
{
    if dates.len() == 0 {
        first
    } else {
        let before = earliest_date(first, dates.drop_last());
        if before.len() == 0 || seq_lt(dates.last(), before) {
            dates.last()
        } else {
            before
        }
    }
}

/// The daily state files among the directory entries `names`, how many
/// days they make (at least 1), and the first day of the history given the
/// lifetime counter's first day.
pub fn history_files(names: &Vec<String>, lifetime_first_date: &str) -> (h: HistoryFiles)
    requires
        names@.len() < usize::MAX,
    ensures
        h.dates@.map_values(|d: String| d@) == history_dates(names@.map_values(|n: String| n@)),
        h.days_count == if h.dates@.len() == 0 { 1 } else { h.dates@.len() },
        h.first_date@ == earliest_date(lifetime_first_date@, history_dates(names@.map_values(|n: String| n@))),
{
    let ghost all = names@.map_values(|n: String| n@);
    let mut dates: Vec<String> = Vec::new();
    let mut first = String::from_str(lifetime_first_date);
    let mut i: usize = 0;
    while i < names.len()
        invariant
            i <= names.len() < usize::MAX,
            all == names@.map_values(|n: String| n@),
            dates@.map_values(|d: String| d@) == history_dates(all.take(i as int)),
            dates@.len() <= i,
            first@ == earliest_date(lifetime_first_date@, history_dates(all.take(i as int))),
        decreases names.len() - i,
    {
        assert(all.take(i + 1).drop_last() =~= all.take(i as int));
        assert(all.take(i + 1).last() == names@[i as int]@);
        match daily_file_date_of(names[i].as_str()) {
            Some(d) => {
                let dc = chars_of(d.as_str());
                let fc = chars_of(first.as_str());
                let replace = fc.len() == 0 || less_than(dc.as_slice(), fc.as_slice());
                let ghost before = dates@;
                let ghost hd = history_dates(all.take(i + 1));
                assert(hd.drop_last() =~= history_dates(all.take(i as int)));
                assert(hd.last() == d@);
                if replace {
                    first = String::from_str(d.as_str());
                }
                dates.push(d);
                assert(dates@.map_values(|d: String| d@) =~= before.map_values(|d: String| d@).push(
                    dates@[dates@.len() - 1]@,
                ));
            },
            None => {},
        }
        i += 1;
    }
    assert(all.take(names.len() as int) =~= all);
    let days_count = if dates.len() == 0 { 1 } else { dates.len() };
    HistoryFiles { dates, days_count, first_date: first }
}

/// Name for the day number (days since 0001-01-01 counting that day as 1,
/// chrono's `num_days_from_ce`) of the date `s` spells in the `%Y-%m-%d`
/// format, as chrono's `NaiveDate::parse_from_str` reads it; `None` when
/// it does not read as such a date.
pub uninterp spec fn ymd_day_number(s: Seq<char>) -> Option<int>;

/// Calls `chrono::NaiveDate::parse_from_str` with the format `%Y-%m-%d`
/// and takes `num_days_from_ce` of the date. Claimed: the result is the name
/// `ymd_day_number` of `s`.
#[verifier::external_body]
fn parse_ymd_day(s: &str) -> (res: Option<i32>)
    ensures
        match res {
            Some(d) => ymd_day_number(s@) == Some(d as int),
            None => ymd_day_number(s@) is None,
        },
{
    NaiveDate::parse_from_str(s, "%Y-%m-%d").ok().map(|d| d.num_days_from_ce())
}

/// The day number of chrono's earliest date, `NaiveDate::MIN`.
pub const MIN_DAY_NUMBER: i64 = -95746129;

/// The daily state files among `names` that a retention of `retention_days`
/// days expires on the day numbered `today`: none when the retention is 0
/// (keep forever); else those whose date reads as a date before the day
/// `retention_days` days before today.
pub open spec fn expired_positions(names: Seq<Seq<char>>, today: int, retention_days: u32) -> Seq<int>
    decreases names.len(),
{
    if names.len() == 0 || retention_days == 0 {
        Seq::empty()
    } else {
        let before = expired_positions(names.drop_last(), today, retention_days);
        let expired = match daily_file_date(names.last()) {
            Some(d) => match ymd_day_number(d) {
                Some(day) => day < today - retention_days,
                None => false,
            },
            None => false,
        };
        if expired {
            before.push(names.len() - 1)
        } else {
            before
        }
    }
}

/// The positions, in order, of the daily state files that the retention
/// policy archives on the day numbered `today`.
pub fn expired_daily_files(names: &Vec<String>, today: i32, retention_days: u32) -> (res: Vec<usize>)
    requires
        retention_days > 0 ==> today - retention_days >= MIN_DAY_NUMBER,
    ensures
        res@.map_values(|i: usize| i as int) == expired_positions(
            names@.map_values(|n: String| n@),
            today as int,
            retention_days,
        ),
{
    let ghost all = names@.map_values(|n: String| n@);
    let mut res: Vec<usize> = Vec::new();
    if retention_days == 0 {
        assert(res@.map_values(|i: usize| i as int) =~= Seq::<int>::empty());
        return res;
    }
    let cutoff: i64 = today as i64 - retention_days as i64;
    let mut i: usize = 0;
    while i < names.len()
        invariant
            i <= names.len(),
            retention_days > 0,
            cutoff == today - retention_days,
            all == names@.map_values(|n: String| n@),
            res@.map_values(|k: usize| k as int) == expired_positions(all.take(i as int), today as int, retention_days),
        decreases names.len() - i,
    {
        assert(all.take(i + 1).drop_last() =~= all.take(i as int));
        assert(all.take(i + 1).last() == names@[i as int]@);
        let expired = match daily_file_date_of(names[i].as_str()) {
            Some(d) => match parse_ymd_day(d.as_str()) {
                Some(day) => (day as i64) < cutoff,
                None => false,
            },
            None => false,
        };
        if expired {
            let ghost before = res@;
            res.push(i);
            assert(res@.map_values(|k: usize| k as int) =~= before.map_values(|k: usize| k as int).push(i as int));
        }
        i += 1;
    }
    assert(all.take(names.len() as int) =~= all);
    res
}


/// The key and value of a `KEY=value` line of a state file: the line is
/// trimmed and split at its first `=` (key and value are not trimmed).
pub open spec fn assignment_of(line: Seq<char>) -> Option<(Seq<char>, Seq<char>)> {
    let t = trim(line);
    match first_index_of(t, '=') {
        Some(i) => Some((t.take(i), t.skip(i + 1))),
        None => None,
    }
}

/// The key and value of a `KEY=value` line of a state file.
pub fn split_assignment(line: &str) -> (res: Option<(Vec<char>, Vec<char>)>)
    ensures
        match res {
            Some((k, v)) => assignment_of(line@) == Some((k@, v@)),
            None => assignment_of(line@) is None,
        },
{
    let t = trim_chars(chars_of(line).as_slice());
    match find_char(t.as_slice(), '=') {
        Some(i) => {
            let key = take_front(t.as_slice(), i);
            let val = drop_front(t.as_slice(), i + 1);
            Some((key, val))
        },
        None => None,
    }
}

/// The first `n` characters of `s`.
fn take_front(s: &[char], n: usize) -> (res: Vec<char>)
    requires
        n <= s.len(),
    ensures
        res@ == s@.take(n as int),
{
    let mut res: Vec<char> = Vec::new();
    let mut i: usize = 0;
    while i < n
        invariant
            i <= n <= s.len(),
            res@ == s@.take(i as int),
        decreases n - i,
    {
        res.push(s[i]);
        assert(s@.take(i + 1) =~= s@.take(i as int).push(s@[i as int]));
        i += 1;
    }
    res
}

/// The two quantities a daily state file records per sensor.
#[derive(Debug, Clone, Copy, PartialEq, Eq, Structural)]
pub enum DailyField {
    /// `J_<id>`: the energy (J) of the day.
    Joules,
    /// `PEAK_<id>`: the peak power (W) of the day.
    PeakWatts,
}

/// One per-sensor line of a daily state file, its value still text.
pub struct DailyEntry {
    pub field: DailyField,
    pub sensor_id: String,
    pub value_text: String,
}

/// The per-sensor entry a line of a daily state file makes, if any: keys
/// `J_<id>` and `PEAK_<id>`; other lines (such as `DATE=`) make none.
pub open spec fn daily_entry_of(line: Seq<char>) -> Option<(DailyField, Seq<char>, Seq<char>)> {
    match assignment_of(line) {
        Some((k, v)) => if is_prefix("J_"@, k) {
            Some((DailyField::Joules, k.skip(2), v))
        } else if is_prefix("PEAK_"@, k) {
            Some((DailyField::PeakWatts, k.skip(5), v))
        } else {
            None
        },
        None => None,
    }
}

/// The per-sensor entries of a daily state file's lines, in order.
pub open spec fn daily_entries_of(lines: Seq<Seq<char>>) -> Seq<(DailyField, Seq<char>, Seq<char>)>
    decreases lines.len(),
{
    if lines.len() == 0 {
        Seq::empty()
    } else {
        let before = daily_entries_of(lines.drop_last());
        match daily_entry_of(lines.last()) {
            Some(e) => before.push(e),
            None => before,
        }
    }
}

/// The per-sensor entries of a daily state file's lines, in order.
pub fn daily_entries(lines: &Vec<String>) -> (entries: Vec<DailyEntry>)
    ensures
        entries@.map_values(|e: DailyEntry| (e.field, e.sensor_id@, e.value_text@)) == daily_entries_of(
            lines@.map_values(|l: String| l@),
        ),
{
    let ghost all = lines@.map_values(|l: String| l@);
    let mut entries: Vec<DailyEntry> = Vec::new();
    let mut i: usize = 0;
    proof {
        reveal_strlit("J_");
        reveal_strlit("PEAK_");
    }
    let j_prefix = chars_of("J_");
    let peak_prefix = chars_of("PEAK_");
    while i < lines.len()
        invariant
            i <= lines.len(),
            all == lines@.map_values(|l: String| l@),
            j_prefix@ == "J_"@,
            peak_prefix@ == "PEAK_"@,
            j_prefix@.len() == 2,
            peak_prefix@.len() == 5,
            entries@.map_values(|e: DailyEntry| (e.field, e.sensor_id@, e.value_text@)) == daily_entries_of(
                all.take(i as int),
            ),
        decreases lines.len() - i,
    {
        assert(all.take(i + 1).drop_last() =~= all.take(i as int));
        assert(all.take(i + 1).last() == lines@[i as int]@);
        let ghost before = entries@;
        match split_assignment(lines[i].as_str()) {
            Some((k, v)) => {
                if starts_with(k.as_slice(), j_prefix.as_slice()) {
                    let e = DailyEntry {
                        field: DailyField::Joules,
                        sensor_id: string_of(drop_front(k.as_slice(), 2).as_slice()),
                        value_text: string_of(v.as_slice()),
                    };
                    entries.push(e);
                    assert(entries@.map_values(|e: DailyEntry| (e.field, e.sensor_id@, e.value_text@)) =~= before.map_values(
                        |e: DailyEntry| (e.field, e.sensor_id@, e.value_text@),
                    ).push((DailyField::Joules, k@.skip(2), v@)));
                } else if starts_with(k.as_slice(), peak_prefix.as_slice()) {
                    let e = DailyEntry {
                        field: DailyField::PeakWatts,
                        sensor_id: string_of(drop_front(k.as_slice(), 5).as_slice()),
                        value_text: string_of(v.as_slice()),
                    };
                    entries.push(e);
                    assert(entries@.map_values(|e: DailyEntry| (e.field, e.sensor_id@, e.value_text@)) =~= before.map_values(
                        |e: DailyEntry| (e.field, e.sensor_id@, e.value_text@),
                    ).push((DailyField::PeakWatts, k@.skip(5), v@)));
                }
            },
            None => {},
        }
        i += 1;
    }
    assert(all.take(lines.len() as int) =~= all);
    entries
}

/// What a lifetime counter file's lines hold: the texts of its
/// `ARCHIVED_JOULES` values in order, and the last non-empty
/// `FIRST_SOFTWARE_DATE`, if any.
pub struct LifetimeEntries {
    pub archived_joules_texts: Vec<String>,
    pub first_date: Option<String>,
}

/// The `ARCHIVED_JOULES` value texts of the lines, in order.
pub open spec fn archived_texts_of(lines: Seq<Seq<char>>) -> Seq<Seq<char>>
    decreases lines.len(),
{
    if lines.len() == 0 {
        Seq::empty()
    } else {
        let before = archived_texts_of(lines.drop_last());
        match assignment_of(lines.last()) {
            Some((k, v)) => if k == "ARCHIVED_JOULES"@ { before.push(v) } else { before },
            None => before,
        }
    }
}

/// The last non-empty `FIRST_SOFTWARE_DATE` value of the lines, if any.
pub open spec fn first_date_of(lines: Seq<Seq<char>>) -> Option<Seq<char>>
    decreases lines.len(),
{
    if lines.len() == 0 {
        None
    } else {
        let before = first_date_of(lines.drop_last());
        match assignment_of(lines.last()) {
            Some((k, v)) => if k == "FIRST_SOFTWARE_DATE"@ && v.len() > 0 { Some(v) } else { before },
            None => before,
        }
    }
}

/// What the lines of a lifetime counter file hold.
pub fn lifetime_entries(lines: &Vec<String>) -> (res: LifetimeEntries)
    ensures
        res.archived_joules_texts@.map_values(|t: String| t@) == archived_texts_of(lines@.map_values(|l: String| l@)),
        crate::report::opt_view(res.first_date) == first_date_of(lines@.map_values(|l: String| l@)),
{
    let ghost all = lines@.map_values(|l: String| l@);
    let mut texts: Vec<String> = Vec::new();
    let mut first: Option<String> = None;
    let archived_key = chars_of("ARCHIVED_JOULES");
    let first_key = chars_of("FIRST_SOFTWARE_DATE");
    let mut i: usize = 0;
    while i < lines.len()
        invariant
            i <= lines.len(),
            all == lines@.map_values(|l: String| l@),
            archived_key@ == "ARCHIVED_JOULES"@,
            first_key@ == "FIRST_SOFTWARE_DATE"@,
            texts@.map_values(|t: String| t@) == archived_texts_of(all.take(i as int)),
            crate::report::opt_view(first) == first_date_of(all.take(i as int)),
        decreases lines.len() - i,
    {
        assert(all.take(i + 1).drop_last() =~= all.take(i as int));
        assert(all.take(i + 1).last() == lines@[i as int]@);
        match split_assignment(lines[i].as_str()) {
            Some((k, v)) => {
                let ks = string_of(k.as_slice());
                if str_eq(ks.as_str(), "ARCHIVED_JOULES") {
                    let ghost before = texts@;
                    let t = string_of(v.as_slice());
                    texts.push(t);
                    assert(texts@.map_values(|t: String| t@) =~= before.map_values(|t: String| t@).push(v@));
                }
                if str_eq(ks.as_str(), "FIRST_SOFTWARE_DATE") && v.len() > 0 {
                    first = Some(string_of(v.as_slice()));
                }
            },
            None => {},
        }
        i += 1;
    }
    assert(all.take(lines.len() as int) =~= all);
    LifetimeEntries { archived_joules_texts: texts, first_date: first }
}


/// The first day of the history is the earliest of the lifetime counter's
/// first day (when it has one) and the dates of the daily files: it is one
/// of them, no daily date sorts before it, and the lifetime counter's
/// first day does not sort before it either. So a lifetime first day that
/// no daily date precedes is kept. Holds for non-empty daily dates.
pub proof fn lemma_first_day_is_earliest(first: Seq<char>, dates: Seq<Seq<char>>)
    requires
        forall|i: int| 0 <= i < dates.len() ==> dates[i].len() > 0,
    ensures
        earliest_date(first, dates) == first || dates.contains(earliest_date(first, dates)),
        forall|i: int| 0 <= i < dates.len() ==> !seq_lt(dates[i], earliest_date(first, dates)),
        first.len() > 0 ==> !seq_lt(first, earliest_date(first, dates)),
        first.len() > 0 && (forall|i: int| 0 <= i < dates.len() ==> !seq_lt(dates[i], first))
            ==> earliest_date(first, dates) == first,
        dates.len() > 0 ==> earliest_date(first, dates).len() > 0,
    decreases dates.len(),
{
    let r = earliest_date(first, dates);
    if dates.len() == 0 {
        lemma_seq_lt_asymmetric(first, first);
    } else {
        let rest = dates.drop_last();
        let last = dates.last();
        let before = earliest_date(first, rest);
        lemma_first_day_is_earliest(first, rest);
        assert(forall|i: int| 0 <= i < rest.len() ==> rest[i] == dates[i]);
        if before.len() == 0 || seq_lt(last, before) {
            assert(r == last);
            assert(dates.contains(r)) by {
                assert(dates[dates.len() - 1] == last);
            }
            if before.len() == 0 {
                assert(rest.len() == 0);
                assert(before == first);
            } else {
                assert forall|i: int| 0 <= i < dates.len() implies !seq_lt(dates[i], r) by {
                    if i < rest.len() {
                        if seq_lt(dates[i], last) {
                            lemma_seq_lt_transitive(dates[i], last, before);
                        }
                    } else {
                        lemma_seq_lt_asymmetric(last, last);
                    }
                }
                if first.len() > 0 && seq_lt(first, last) {
                    lemma_seq_lt_transitive(first, last, before);
                }
            }
            if before.len() == 0 {
                assert forall|i: int| 0 <= i < dates.len() implies !seq_lt(dates[i], r) by {
                    assert(i == dates.len() - 1);
                    lemma_seq_lt_asymmetric(last, last);
                }
            }
            if first.len() > 0 && (forall|i: int| 0 <= i < dates.len() ==> !seq_lt(dates[i], first)) {
                assert(!seq_lt(dates[dates.len() - 1], first));
                if before.len() > 0 {
                    assert(before == first) by {
                        assert(forall|i: int| 0 <= i < rest.len() ==> !seq_lt(rest[i], first));
                    }
                }
            }
        } else {
            assert(r == before);
            if rest.contains(before) {
                let k = choose|k: int| 0 <= k < rest.len() && rest[k] == before;
                assert(dates[k] == before);
            }
            assert forall|i: int| 0 <= i < dates.len() implies !seq_lt(dates[i], r) by {
                if i < rest.len() {
                } else {
                    assert(dates[i] == last);
                }
            }
            if first.len() > 0 && (forall|i: int| 0 <= i < dates.len() ==> !seq_lt(dates[i], first)) {
                assert(forall|i: int| 0 <= i < rest.len() ==> !seq_lt(rest[i], first));
            }
            if rest.len() == 0 {
                assert(before == first);
            }
        }
    }
}

/// Where a sensor lies among the counted positions: every position that
/// the counted list holds is in range, the list is strictly increasing,
/// and it holds a position exactly when that sensor is a CPU package, an
/// NVIDIA GPU, an SSD or an HDD.
proof fn lemma_counted_positions(sensors: Seq<SensorInfo>)
    ensures
        forall|k: int| 0 <= k < counted_positions(sensors).len()
            ==> 0 <= #[trigger] counted_positions(sensors)[k] < sensors.len(),
        forall|a: int, b: int| 0 <= a < b < counted_positions(sensors).len()
            ==> counted_positions(sensors)[a] < counted_positions(sensors)[b],
        forall|i: int| 0 <= i < sensors.len() ==> (counted_positions(sensors).contains(i)
            <==> counts_toward_total(#[trigger] sensors[i])),
    decreases sensors.len(),
{
    if sensors.len() > 0 {
        let rest = sensors.drop_last();
        lemma_counted_positions(rest);
        let c = counted_positions(sensors);
        let cr = counted_positions(rest);
        assert(forall|i: int| 0 <= i < rest.len() ==> rest[i] == sensors[i]);
        assert forall|i: int| 0 <= i < sensors.len() implies (c.contains(i) <==> counts_toward_total(sensors[i])) by {
            if i < rest.len() {
                if cr.contains(i) {
                    let k = choose|k: int| 0 <= k < cr.len() && cr[k] == i;
                    assert(c[k] == i);
                }
                if c.contains(i) {
                    let k = choose|k: int| 0 <= k < c.len() && c[k] == i;
                    if k < cr.len() {
                        assert(cr[k] == i);
                    }
                }
            } else {
                if counts_toward_total(sensors.last()) {
                    assert(c[c.len() - 1] == i);
                } else if c.contains(i) {
                    let k = choose|k: int| 0 <= k < c.len() && c[k] == i;
                    assert(cr[k] == i);
                }
            }
        }
    }
}

/// Where the last `psys` sensor lies: there is none exactly when no
/// sensor's raw name starts with `psys`; otherwise it is a `psys` sensor
/// and none after it is.
proof fn lemma_last_psys(sensors: Seq<SensorInfo>)
    ensures
        last_psys(sensors) is None <==> forall|i: int| 0 <= i < sensors.len() ==> !is_psys(#[trigger] sensors[i]),
        last_psys(sensors) matches Some(p) ==> {
            &&& 0 <= p < sensors.len()
            &&& is_psys(sensors[p])
            &&& forall|j: int| p < j < sensors.len() ==> !is_psys(#[trigger] sensors[j])
        },
    decreases sensors.len(),
{
    if sensors.len() > 0 {
        let rest = sensors.drop_last();
        lemma_last_psys(rest);
        assert(forall|i: int| 0 <= i < rest.len() ==> rest[i] == sensors[i]);
        if !is_psys(sensors.last()) {
            assert(sensors[sensors.len() - 1] == sensors.last());
        }
    }
}

/// Which sensors make the day's total. With a sensor whose raw name starts
/// with `psys`, exactly one position counts: such a sensor, and no later
/// sensor is one. Without any, a sensor counts exactly when its raw name
/// starts with `package`, `SSD` or `HDD` or its id starts with `nvidia`,
/// each counted once, in sensor order.
pub proof fn lemma_total_energy_sources(sensors: Seq<SensorInfo>)
    ensures
        total_sources(sensors).1 <==> exists|i: int| 0 <= i < sensors.len() && is_prefix("psys"@, #[trigger] sensors[i].raw_name@),
        total_sources(sensors).1 ==> {
            let p = total_sources(sensors).0;
            &&& p.len() == 1
            &&& 0 <= p[0] < sensors.len()
            &&& is_prefix("psys"@, sensors[p[0]].raw_name@)
            &&& forall|j: int| p[0] < j < sensors.len() ==> !is_prefix("psys"@, #[trigger] sensors[j].raw_name@)
        },
        !total_sources(sensors).1 ==> {
            let p = total_sources(sensors).0;
            &&& forall|k: int| 0 <= k < p.len() ==> 0 <= #[trigger] p[k] < sensors.len()
            &&& forall|a: int, b: int| 0 <= a < b < p.len() ==> p[a] < p[b]
            &&& forall|i: int| 0 <= i < sensors.len() ==> (p.contains(i) <==> (
                is_prefix("package"@, #[trigger] sensors[i].raw_name@)
                || is_prefix("nvidia"@, sensors[i].id@)
                || is_prefix("SSD"@, sensors[i].raw_name@)
                || is_prefix("HDD"@, sensors[i].raw_name@)))
        },
{
    lemma_last_psys(sensors);
    lemma_counted_positions(sensors);
    if total_sources(sensors).1 {
        let p = last_psys(sensors)->0;
        assert(is_psys(sensors[p]));
    } else {
        assert forall|i: int| 0 <= i < sensors.len() implies !is_prefix("psys"@, #[trigger] sensors[i].raw_name@) by {
            assert(!is_psys(sensors[i]));
        }
    }
}

/// A daily state file reads back as written: its `DATE=` line makes no
/// entry, and the lines `J_<id>=<j>` and `PEAK_<id>=<p>` give the entries
/// `(Joules, id, j)` and `(PeakWatts, id, p)` with the key's prefix, and
/// only it, removed. Holds for ids without `=` and values that do not end
/// in white space.
pub proof fn lemma_daily_file_roundtrip(date: Seq<char>, id: Seq<char>, j: Seq<char>, p: Seq<char>)
    requires
        !id.contains('='),
        date.len() > 0 && !is_white_space(date.last()),
        j.len() > 0 && !is_white_space(j.last()),
        p.len() > 0 && !is_white_space(p.last()),
    ensures
        daily_entry_of("J_"@ + id + "="@ + j) == Some((DailyField::Joules, id, j)),
        daily_entry_of("PEAK_"@ + id + "="@ + p) == Some((DailyField::PeakWatts, id, p)),
        daily_entries_of(seq!["DATE="@ + date, "J_"@ + id + "="@ + j, "PEAK_"@ + id + "="@ + p])
            == seq![(DailyField::Joules, id, j), (DailyField::PeakWatts, id, p)],
{
    lemma_assignment_read("J_"@, id, j);
    lemma_assignment_read("PEAK_"@, id, p);
    lemma_date_line_read(date);
    let dl = "DATE="@ + date;
    let jl = "J_"@ + id + "="@ + j;
    let pl = "PEAK_"@ + id + "="@ + p;
    let ej = (DailyField::Joules, id, j);
    let ep = (DailyField::PeakWatts, id, p);
    let l1 = seq![dl];
    let l2 = seq![dl, jl];
    let l3 = seq![dl, jl, pl];
    assert(l1.drop_last() =~= Seq::<Seq<char>>::empty());
    assert(daily_entries_of(l1) == daily_entries_of(Seq::<Seq<char>>::empty()));
    assert(l2.drop_last() =~= l1);
    assert(daily_entries_of(l2) == daily_entries_of(l1).push(ej));
    assert(l3.drop_last() =~= l2);
    assert(daily_entries_of(l3) == daily_entries_of(l2).push(ep));
    assert(daily_entries_of(l3) =~= seq![ej, ep]);
}

/// A `DATE=<d>` line makes no per-sensor entry.
proof fn lemma_date_line_read(date: Seq<char>)
    requires
        date.len() > 0 && !is_white_space(date.last()),
    ensures
        daily_entry_of("DATE="@ + date) is None,
{
    reveal_strlit("J_");
    reveal_strlit("PEAK_");
    reveal_strlit("DATE=");
    reveal_strlit("DATE");
    let dl = "DATE="@ + date;
    assert(dl[0] == 'D');
    assert(dl.last() == date.last());
    lemma_trim_noop(dl);
    assert(dl[4] == '=');
    lemma_first_index_is(dl, '=', 4);
    assert(dl.take(4) =~= "DATE"@);
    assert(dl.take(4)[0] == 'D');
    assert(dl.take(4).take(2)[0] != "J_"@[0]);
    assert(!is_prefix("J_"@, dl.take(4)));
    assert(!is_prefix("PEAK_"@, dl.take(4)));
}

/// The line `<prefix><id>=<v>` (prefix `J_` or `PEAK_`) reads as that
/// entry.
proof fn lemma_assignment_read(prefix: Seq<char>, id: Seq<char>, v: Seq<char>)
    requires
        prefix == "J_"@ || prefix == "PEAK_"@,
        !id.contains('='),
        v.len() > 0 && !is_white_space(v.last()),
    ensures
        prefix == "J_"@ ==> daily_entry_of(prefix + id + "="@ + v) == Some((DailyField::Joules, id, v)),
        prefix == "PEAK_"@ ==> daily_entry_of(prefix + id + "="@ + v) == Some((DailyField::PeakWatts, id, v)),
{
    reveal_strlit("J_");
    reveal_strlit("PEAK_");
    reveal_strlit("=");
    let line = prefix + id + "="@ + v;
    let n = prefix.len() as int;
    assert(line[0] == prefix[0]);
    assert(line.last() == v.last());
    lemma_trim_noop(line);
    let q: int = n + id.len() as int;
    assert(line[q] == '=');
    assert forall|k: int| 0 <= k < q implies line[k] != '=' by {
        if k >= n {
            assert(line[k] == id[k - n]);
        } else {
            assert(line[k] == prefix[k]);
        }
    }
    lemma_first_index_is(line, '=', q);
    assert(line.take(q) =~= prefix + id);
    assert(line.skip(q + 1) =~= v);
    assert((prefix + id).skip(n) =~= id);
    assert((prefix + id).take(n) =~= prefix);
    if prefix == "PEAK_"@ {
        assert((prefix + id)[0] == 'P');
        assert(!is_prefix("J_"@, prefix + id));
    }
}

} // verus!
