//! The live dashboard's decisions: the bounded history behind the
//! sparkline, the sparkline itself from bar levels, which component rows
//! are shown, and their colours.
use vstd::prelude::*;
use std::collections::VecDeque;
use crate::text::{
    chars_of, contains_seq, is_prefix, less_than, lemma_seq_lt_asymmetric, lemma_seq_lt_transitive,
    occurs, seq_lt, starts_with,
};

verus! {

/// Width (characters) of the sparkline.
pub const SPARKLINE_WIDTH: usize = 35;

/// The most recent samples, at most `max_samples` of them (at least one
/// is always kept after a push), oldest first.
pub struct PowerHistory<T> {
    pub samples: VecDeque<T>,
    pub max_samples: usize,
}

/// The samples after pushing `val`: the oldest dropped first when the
/// history is full.
pub open spec fn pushed<T>(samples: Seq<T>, max_samples: usize, val: T) -> Seq<T> {
    if samples.len() >= max_samples && samples.len() > 0 {
        samples.drop_first().push(val)
    } else {
        samples.push(val)
    }
}

impl<T> PowerHistory<T> {
    /// An empty history keeping up to `max_samples` samples.
    pub fn new(max_samples: usize) -> (h: Self)
        ensures
            h.samples@ == Seq::<T>::empty(),
            h.max_samples == max_samples,
    {
        PowerHistory { samples: VecDeque::with_capacity(max_samples), max_samples }
    }

    /// Records a sample, dropping the oldest when the history is full.
    pub fn push(&mut self, val: T)
        ensures
            final(self).max_samples == old(self).max_samples,
            final(self).samples@ == pushed(old(self).samples@, old(self).max_samples, val),
    {
        if self.samples.len() >= self.max_samples {
            let _ = self.samples.pop_front();
        }
        self.samples.push_back(val);
        assert(self.samples@ =~= pushed(old(self).samples@, old(self).max_samples, val));
    }
}

/// A history within its bound stays within it after any push, the sample
/// just pushed is the newest, and the others are the newest of the ones
/// before, in order.
pub proof fn lemma_history_bounded<T>(samples: Seq<T>, max_samples: usize, val: T)
    requires
        max_samples >= 1,
        samples.len() <= max_samples,
    ensures
        pushed(samples, max_samples, val).len() <= max_samples,
        pushed(samples, max_samples, val).last() == val,
        pushed(samples, max_samples, val).drop_last() == samples.skip(
            samples.len() - pushed(samples, max_samples, val).drop_last().len(),
        ),
{
    let p = pushed(samples, max_samples, val);
    if samples.len() >= max_samples {
        assert(p.drop_last() =~= samples.skip(1));
    } else {
        assert(p.drop_last() =~= samples.skip(0));
    }
}

/// The bar character of level `l` (0 to 7).
pub open spec fn tick(l: int) -> char {
    if l <= 0 {
        ' '
    } else if l == 1 {
        '▂'
    } else if l == 2 {
        '▃'
    } else if l == 3 {
        '▄'
    } else if l == 4 {
        '▅'
    } else if l == 5 {
        '▆'
    } else if l == 6 {
        '▇'
    } else {
        '█'
    }
}

/// The sparkline of bar levels: one bar per level (levels above 7 drawn as
/// 7), padded with spaces to 35 characters.
pub open spec fn sparkline(levels: Seq<usize>) -> Seq<char> {
    let bars = levels.map_values(|l: usize| tick(l as int));
    if bars.len() < SPARKLINE_WIDTH {
        bars + Seq::new((SPARKLINE_WIDTH - bars.len()) as nat, |i: int| ' ')
    } else {
        bars
    }
}

/// The bar character of a level.
fn tick_char(l: usize) -> (c: char)
    ensures
        c == tick(l as int),
{
    if l == 0 {
        ' '
    } else if l == 1 {
        '▂'
    } else if l == 2 {
        '▃'
    } else if l == 3 {
        '▄'
    } else if l == 4 {
        '▅'
    } else if l == 5 {
        '▆'
    } else if l == 6 {
        '▇'
    } else {
        '█'
    }
}

/// The sparkline of bar levels (see `sparkline`).
pub fn sparkline_from_levels(levels: &Vec<usize>) -> (s: String)
    ensures
        s@ == sparkline(levels@),
{
    let mut s = String::new();
    let mut i: usize = 0;
    while i < levels.len()
        invariant
            i <= levels.len(),
            s@ == levels@.take(i as int).map_values(|l: usize| tick(l as int)),
        decreases levels.len() - i,
    {
        let c = tick_char(levels[i]);
        s.push(c);
        assert(levels@.take(i + 1).map_values(|l: usize| tick(l as int)) =~= levels@.take(i as int).map_values(
            |l: usize| tick(l as int),
        ).push(c));
        i += 1;
    }
    assert(levels@.take(levels.len() as int) =~= levels@);
    let ghost bars = s@;
    let mut k: usize = levels.len();
    while k < SPARKLINE_WIDTH
        invariant
            levels.len() <= k <= SPARKLINE_WIDTH || (k == levels.len() && k >= SPARKLINE_WIDTH),
            bars == levels@.map_values(|l: usize| tick(l as int)),
            s@ == bars + Seq::new((k - levels.len()) as nat, |i: int| ' '),
        decreases SPARKLINE_WIDTH - k,
    {
        s.push(' ');
        assert(bars + Seq::new((k + 1 - levels.len()) as nat, |i: int| ' ') =~= (bars + Seq::new(
            (k - levels.len()) as nat,
            |i: int| ' ',
        )).push(' '));
        k += 1;
    }
    assert(levels@.len() >= SPARKLINE_WIDTH ==> s@ =~= bars);
    s
}

/// The colour of a component row.
#[derive(Debug, Clone, Copy, PartialEq, Eq, Structural)]
pub enum RowColor {
    Green,
    Cyan,
    Magenta,
}

/// The colour of a component row by its display name: GPUs green, CPU and
/// system rows cyan, the rest magenta.
pub open spec fn row_color_of(friendly: Seq<char>) -> RowColor {
    if occurs("GPU"@, friendly) {
        RowColor::Green
    } else if occurs("CPU"@, friendly) || occurs("System"@, friendly) {
        RowColor::Cyan
    } else {
        RowColor::Magenta
    }
}

/// The colour of a component row.
pub fn row_color(friendly: &str) -> (c: RowColor)
    ensures
        c == row_color_of(friendly@),
{
    let f = chars_of(friendly);
    if contains_seq(f.as_slice(), chars_of("GPU").as_slice()) {
        RowColor::Green
    } else if contains_seq(f.as_slice(), chars_of("CPU").as_slice()) || contains_seq(
        f.as_slice(),
        chars_of("System").as_slice(),
    ) {
        RowColor::Cyan
    } else {
        RowColor::Magenta
    }
}

/// Whether some raw name starts with `package`.
pub open spec fn has_package(raws: Seq<Seq<char>>) -> bool {
    exists|i: int| 0 <= i < raws.len() && is_prefix("package"@, raws[i])
}

/// The rows shown, by position, and the raw names they show: a `core*`
/// row is hidden when a `package*` row exists, and a row whose raw name
/// was already shown is hidden.
pub open spec fn shown_rows(raws: Seq<Seq<char>>, package: bool) -> (Seq<int>, Seq<Seq<char>>)
    decreases raws.len(),
{
    if raws.len() == 0 {
        (Seq::empty(), Seq::empty())
    } else {
        let (rows, seen) = shown_rows(raws.drop_last(), package);
        let r = raws.last();
        if (is_prefix("core"@, r) && package) || seen.contains(r) {
            (rows, seen)
        } else {
            (rows.push(raws.len() - 1), seen.push(r))
        }
    }
}

/// Whether `s` holds a row whose characters are `r`.
fn seen_contains(seen: &Vec<Vec<char>>, r: &Vec<char>) -> (b: bool)
    ensures
        b == seen@.map_values(|v: Vec<char>| v@).contains(r@),
{
    let ghost view = seen@.map_values(|v: Vec<char>| v@);
    let mut i: usize = 0;
    while i < seen.len()
        invariant
            i <= seen.len(),
            view == seen@.map_values(|v: Vec<char>| v@),
            forall|k: int| 0 <= k < i ==> view[k] != r@,
        decreases seen.len() - i,
    {
        let a = &seen[i];
        let same = a.len() == r.len() && starts_with(a.as_slice(), r.as_slice());
        assert(a@.take(a@.len() as int) =~= a@);
        if same {
            assert(view[i as int] == r@);
            return true;
        }
        i += 1;
    }
    false
}

/// The positions of the component rows shown, for rows with the given
/// raw names.
pub fn visible_rows(raw_names: &Vec<String>) -> (rows: Vec<usize>)
    ensures
        rows@.map_values(|i: usize| i as int) == shown_rows(
            raw_names@.map_values(|r: String| r@),
            has_package(raw_names@.map_values(|r: String| r@)),
        ).0,
{
    let ghost raws = raw_names@.map_values(|r: String| r@);
    let package_chars = chars_of("package");
    let core_chars = chars_of("core");
    let mut package = false;
    let mut j: usize = 0;
    while j < raw_names.len()
        invariant
            j <= raw_names.len(),
            raws == raw_names@.map_values(|r: String| r@),
            package_chars@ == "package"@,
            package == exists|i: int| 0 <= i < j && is_prefix("package"@, raws[i]),
        decreases raw_names.len() - j,
    {
        assert(raws[j as int] == raw_names@[j as int]@);
        let hit = starts_with(chars_of(raw_names[j].as_str()).as_slice(), package_chars.as_slice());
        if hit {
            package = true;
        }
        assert(package == exists|i: int| 0 <= i < j + 1 && is_prefix("package"@, raws[i])) by {
            if hit {
                assert(is_prefix("package"@, raws[j as int]));
            }
        }
        j += 1;
    }
    let mut rows: Vec<usize> = Vec::new();
    let mut seen: Vec<Vec<char>> = Vec::new();
    let mut i: usize = 0;
    while i < raw_names.len()
        invariant
            i <= raw_names.len(),
            raws == raw_names@.map_values(|r: String| r@),
            core_chars@ == "core"@,
            package == has_package(raws),
            rows@.map_values(|k: usize| k as int) == shown_rows(raws.take(i as int), package).0,
            seen@.map_values(|v: Vec<char>| v@) == shown_rows(raws.take(i as int), package).1,
        decreases raw_names.len() - i,
    {
        assert(raws.take(i + 1).drop_last() =~= raws.take(i as int));
        assert(raws.take(i + 1).last() == raw_names@[i as int]@);
        let r = chars_of(raw_names[i].as_str());
        let hidden = (starts_with(r.as_slice(), core_chars.as_slice()) && package) || seen_contains(&seen, &r);
        if !hidden {
            let ghost before_rows = rows@;
            let ghost before_seen = seen@;
            rows.push(i);
            seen.push(r);
            assert(rows@.map_values(|k: usize| k as int) =~= before_rows.map_values(|k: usize| k as int).push(i as int));
            assert(seen@.map_values(|v: Vec<char>| v@) =~= before_seen.map_values(|v: Vec<char>| v@).push(
                raw_names@[i as int]@,
            ));
        }
        i += 1;
    }
    assert(raws.take(raw_names.len() as int) =~= raws);
    rows
}


/// Whether `order` lists every position of `keys` exactly once.
pub open spec fn is_permutation_of(order: Seq<usize>, n: nat) -> bool {
    &&& order.len() == n
    &&& forall|i: int| 0 <= i < order.len() ==> order[i] < n
    &&& forall|i: int, j: int| 0 <= i < j < order.len() ==> order[i] != order[j]
}

/// Whether `order` lists positions by ascending key, positions with equal
/// keys in their original order (what a stable sort gives).
pub open spec fn stably_sorted_by(order: Seq<usize>, keys: Seq<Seq<char>>) -> bool {
    &&& forall|i: int, j: int|
        0 <= i < j < order.len() ==> !seq_lt(keys[order[j] as int], keys[order[i] as int])
    &&& forall|i: int, j: int|
        0 <= i < j < order.len() && keys[order[i] as int] == keys[order[j] as int] ==> order[i] < order[j]
}

/// The positions of `keys` in ascending key order, equal keys keeping their
/// order (how the dashboard lists cluster nodes by host).
pub fn order_by_text(keys: &Vec<String>) -> (order: Vec<usize>)
    ensures
        is_permutation_of(order@, keys@.len()),
        stably_sorted_by(order@, keys@.map_values(|k: String| k@)),
{
    let ghost ks = keys@.map_values(|k: String| k@);
    let mut order: Vec<usize> = Vec::new();
    let mut i: usize = 0;
    while i < keys.len()
        invariant
            i <= keys.len(),
            ks == keys@.map_values(|k: String| k@),
            is_permutation_of(order@, i as nat),
            stably_sorted_by(order@, ks),
        decreases keys.len() - i,
    {
        let x = chars_of(keys[i].as_str());
        let mut p: usize = 0;
        while p < order.len() && !less_than(x.as_slice(), chars_of(keys[order[p]].as_str()).as_slice())
            invariant
                p <= order.len(),
                i < keys.len(),
                x@ == ks[i as int],
                ks == keys@.map_values(|k: String| k@),
                is_permutation_of(order@, i as nat),
                forall|q: int| 0 <= q < p ==> !seq_lt(ks[i as int], ks[order@[q] as int]),
            decreases order.len() - p,
        {
            p += 1;
        }
        let ghost old_order = order@;
        proof {
            if p < old_order.len() {
                assert(seq_lt(ks[i as int], ks[old_order[p as int] as int]));
            }
        }
        order.insert(p, i);
        proof {
            lemma_insert_keeps_sorted(old_order, ks, i as int, p as int);
        }
        i += 1;
    }
    order
}

/// Inserting position `x` (larger than every listed one) before the first
/// listed position with a greater key keeps the listing stably sorted.
proof fn lemma_insert_keeps_sorted(order: Seq<usize>, ks: Seq<Seq<char>>, x: int, p: int)
    requires
        0 <= x < ks.len(),
        x <= usize::MAX,
        is_permutation_of(order, x as nat),
        stably_sorted_by(order, ks),
        0 <= p <= order.len(),
        forall|q: int| 0 <= q < p ==> !seq_lt(ks[x], ks[order[q] as int]),
        p < order.len() ==> seq_lt(ks[x], ks[order[p] as int]),
    ensures
        is_permutation_of(order.insert(p, x as usize), (x + 1) as nat),
        stably_sorted_by(order.insert(p, x as usize), ks),
{
    let n = order.insert(p, x as usize);
    assert forall|i: int| 0 <= i < n.len() implies n[i] < x + 1 by {
        if i < p {
            assert(n[i] == order[i]);
        } else if i > p {
            assert(n[i] == order[i - 1]);
        }
    }
    assert forall|i: int, j: int| 0 <= i < j < n.len() implies n[i] != n[j] by {
        if i < p && j < p {
            assert(n[i] == order[i] && n[j] == order[j]);
        } else if i < p && j == p {
            assert(n[i] == order[i]);
        } else if i < p && j > p {
            assert(n[i] == order[i] && n[j] == order[j - 1]);
        } else if i == p {
            assert(n[j] == order[j - 1]);
        } else {
            assert(n[i] == order[i - 1] && n[j] == order[j - 1]);
        }
    }
    assert forall|i: int, j: int| 0 <= i < j < n.len() implies !seq_lt(ks[n[j] as int], ks[n[i] as int]) by {
        if j < p {
            assert(n[i] == order[i] && n[j] == order[j]);
        } else if j == p {
            assert(n[i] == order[i]);
        } else if i < p {
            assert(n[i] == order[i] && n[j] == order[j - 1]);
        } else if i == p {
            let b = order[j - 1];
            assert(n[j] == b);
            assert(seq_lt(ks[x], ks[order[p] as int]));
            if seq_lt(ks[b as int], ks[x]) {
                lemma_seq_lt_transitive(ks[b as int], ks[x], ks[order[p] as int]);
                if j - 1 > p {
                } else {
                    lemma_seq_lt_asymmetric(ks[b as int], ks[x]);
                }
            }
        } else {
            assert(n[i] == order[i - 1] && n[j] == order[j - 1]);
        }
    }
    assert forall|i: int, j: int|
        0 <= i < j < n.len() && ks[n[i] as int] == ks[n[j] as int] implies n[i] < n[j] by {
        if j < p {
            assert(n[i] == order[i] && n[j] == order[j]);
        } else if j == p {
            assert(n[i] == order[i]);
        } else if i < p {
            assert(n[i] == order[i] && n[j] == order[j - 1]);
        } else if i == p {
            let b = order[j - 1];
            assert(n[j] == b);
            assert(seq_lt(ks[x], ks[order[p] as int]));
            if j - 1 > p {
                assert(!seq_lt(ks[order[j - 1] as int], ks[order[p] as int]));
            } else {
                lemma_seq_lt_asymmetric(ks[x], ks[x]);
            }
        } else {
            assert(n[i] == order[i - 1] && n[j] == order[j - 1]);
        }
    }
}

} // verus!
