//! Kills and deaths per day, and the two series of points that the plot of
//! the application draws from them.

use vstd::prelude::*;
use std::collections::BTreeMap;
use vstd::std_specs::iter::IteratorSpec;
use vstd::std_specs::cmp::OrdSpec;
use crate::frags::{Frag, FragView};
use crate::journals::frag_views;
use crate::time::{day_in_range, day_of_secs, day_start, day_start_secs, lemma_day_of_day_start};

verus! {

/// The day number of the UTC day on which a frag happened.
pub open spec fn frag_day(f: FragView) -> int {
    day_of_secs(f.timestamp.seconds())
}

/// The number of frags among `fs` that happened on day `day` and are kills
/// (for `kill`) or deaths (for `!kill`).
pub open spec fn day_count(fs: Seq<FragView>, day: int, kill: bool) -> nat {
    fs.filter(|f: FragView| f.is_kill() == kill && frag_day(f) == day).len()
}

/// The count of a day in a map of counts: zero where the day is absent.
pub open spec fn count_in(m: Map<i32, i32>, day: i32) -> int {
    if m.contains_key(day) {
        m[day] as int
    } else {
        0
    }
}

/// The counts `m` after counting the kills (for `kill`) or the deaths among
/// `fs` on their days: a day is present once it has a frag of that kind.
pub open spec fn counted(m: Map<i32, i32>, fs: Seq<FragView>, kill: bool) -> Map<i32, i32> {
    Map::new(
        |d: i32| m.contains_key(d) || day_count(fs, d as int, kill) > 0,
        |d: i32| (count_in(m, d) + day_count(fs, d as int, kill)) as i32,
    )
}

/// Whether counting the frags `fs` into `m` keeps every count within `i32`.
pub open spec fn counts_fit(m: Map<i32, i32>, fs: Seq<FragView>, kill: bool) -> bool {
    forall|d: i32| #[trigger] count_in(m, d) + day_count(fs, d as int, kill) <= i32::MAX
}

/// The kills and the deaths of each day, by day number.
pub struct PlotView {
    pub kills: Map<i32, i32>,
    pub deaths: Map<i32, i32>,
}

/// The counts of kills and deaths per UTC day.
#[derive(Debug)]
pub struct PlotState {
    kills: BTreeMap<i32, i32>,
    deaths: BTreeMap<i32, i32>,
}

/// Whether every day of `m` is a date and every count is positive.
pub open spec fn counts_wf(m: Map<i32, i32>) -> bool {
    forall|d: i32| #[trigger] m.contains_key(d) ==> day_in_range(d as int) && m[d] >= 1
}

impl View for PlotState {
    type V = PlotView;

    closed spec fn view(&self) -> PlotView {
        PlotView { kills: self.kills@, deaths: self.deaths@ }
    }
}

/// The day whose midnight is the first coordinate of a point.
pub open spec fn point_day(p: (i64, i32)) -> i32 {
    day_of_secs(p.0 as int) as i32
}

/// Whether `points` lists the days of `m` in increasing order, each as the
/// UNIX time of its midnight with its count multiplied by `sign`.
pub open spec fn is_series(m: Map<i32, i32>, points: Seq<(i64, i32)>, sign: int) -> bool {
    &&& points.len() == m.dom().len()
    &&& forall|i: int, j: int| 0 <= i < j < points.len() ==> points[i].0 < points[j].0
    &&& forall|i: int|
        #![trigger points[i]]
        0 <= i < points.len() ==> {
            let d = point_day(points[i]);
            &&& m.contains_key(d)
            &&& points[i].0 == day_start_secs(d as int)
            &&& points[i].1 == sign * m[d]
        }
    &&& forall|d: i32| #[trigger]
        m.contains_key(d) ==> exists|i: int|
            0 <= i < points.len() && points[i].0 == day_start_secs(d as int)
}

/// The points of the counts `m`, by increasing day.
fn points_of(m: &BTreeMap<i32, i32>, sign: i32) -> (points: Vec<(i64, i32)>)
    requires
        counts_wf(m@),
        sign == 1 || sign == -1,
    ensures
        is_series(m@, points@, sign as int),
{
    let mut points: Vec<(i64, i32)> = Vec::new();
    let iter = m.iter();
    let ghost items = iter.remaining();
    proof {
        assert(items == vstd::std_specs::btree::spec_btree_map_iter(m).remaining());
        assert(items.len() == m@.dom().len());
    }
    for entry in it: iter
        invariant
            counts_wf(m@),
            sign == 1 || sign == -1,
            it.seq() == items,
            items == vstd::std_specs::btree::spec_btree_map_iter(m).remaining(),
            points@.len() == it.index(),
            forall|i: int| 0 <= i < it.index() ==> #[trigger] points@[i] == (
                day_start_secs(*items[i].0 as int) as i64,
                (sign * *items[i].1) as i32,
            ),
    {
        let (day, count) = entry;
        proof {
            assert(m@.contains_key(*items[it.index()].0));
        }
        points.push((day_start(*day), sign * *count));
    }
    proof {
        assert(points@.len() == items.len());
        assert(points@.len() == m@.dom().len());
        let keys = items.map_values(|kv: (&i32, &i32)| *kv.0);
        assert(vstd::std_specs::btree::increasing_seq(keys));
        assert forall|i: int, j: int| 0 <= i < j < points@.len() implies points@[i].0 < points@[j].0 by {
            assert(keys[i] == *items[i].0);
            assert(keys[j] == *items[j].0);
            lemma_increasing_keys(keys, i, j);
        }
        assert forall|i: int| #![trigger points@[i]] 0 <= i < points@.len() implies ({
            let d = point_day(points@[i]);
            &&& m@.contains_key(d)
            &&& points@[i].0 == day_start_secs(d as int)
            &&& points@[i].1 == sign * m@[d]
        }) by {
            let d = *items[i].0;
            assert(m@.contains_key(d));
            assert(m@[d] == *items[i].1);
            lemma_day_of_day_start(d as int);
            assert(point_day(points@[i]) == d);
        }
        assert forall|d: i32| #[trigger] m@.contains_key(d) implies exists|i: int|
            0 <= i < points@.len() && points@[i].0 == day_start_secs(d as int) by {
            assert(items.contains((&d, &m@[d])));
            let i = choose|i: int| 0 <= i < items.len() && items[i] == (&d, &m@[d]);
            assert(points@[i].0 == day_start_secs(d as int));
        }
        assert(is_series(m@, points@, sign as int));
    }
    points
}

/// In a sequence that a `BTreeMap` lists in increasing order, an earlier key
/// is smaller.
proof fn lemma_increasing_keys(keys: Seq<i32>, i: int, j: int)
    requires
        vstd::std_specs::btree::increasing_seq(keys),
        0 <= i < j < keys.len(),
    ensures
        keys[i] < keys[j],
{
    assert(keys[i].cmp_spec(&keys[j]) is Less);
}

/// Counts the frags of one kind into `counts`.
fn count_frags(counts: &mut BTreeMap<i32, i32>, frags: &[Frag], kill: bool)
    requires
        counts_wf(old(counts)@),
        counts_fit(old(counts)@, frag_views(frags@), kill),
    ensures
        final(counts)@ == counted(old(counts)@, frag_views(frags@), kill),
        counts_wf(final(counts)@),
{
    let n = frags.len();
    let mut i: usize = 0;
    let ghost all = frag_views(frags@);
    while i < n
        invariant
            0 <= i <= n,
            n == frags@.len(),
            all == frag_views(frags@),
            counts_fit(old(counts)@, all, kill),
            counts@ == counted(old(counts)@, all.take(i as int), kill),
            counts_wf(counts@),
        decreases n - i,
    {
        let frag = &frags[i];
        let ghost prefix = all.take(i as int);
        proof {
            assert(all.take(i + 1) =~= prefix.push(frag@));
        }
        if frag.is_kill() == kill {
            let day = frag.timestamp.day();
            let previous = match counts.get(&day) {
                Some(c) => *c,
                None => 0,
            };
            proof {
                prefix.lemma_filter_len_push(
                    |f: FragView| f.is_kill() == kill && frag_day(f) == day as int,
                    frag@,
                );
                lemma_day_count_prefix(all, i as int + 1, day as int, kill);
                assert(count_in(old(counts)@, day) + day_count(all, day as int, kill) <= i32::MAX);
            }
            counts.insert(day, previous + 1);
        }
        proof {
            let next = all.take(i + 1);
            assert forall|d: i32| !(frag@.is_kill() == kill && d as int == frag_day(frag@)) implies
                #[trigger] day_count(next, d as int, kill) == day_count(prefix, d as int, kill) by {
                prefix.lemma_filter_len_push(
                    |f: FragView| f.is_kill() == kill && frag_day(f) == d as int,
                    frag@,
                );
            }
            assert(counts@ =~= counted(old(counts)@, next, kill));
        }
        i = i + 1;
    }
    assert(all.take(n as int) =~= all);
}

/// A prefix holds no more frags of a day and kind than the whole list.
proof fn lemma_day_count_prefix(fs: Seq<FragView>, i: int, day: int, kill: bool)
    requires
        0 <= i <= fs.len(),
    ensures
        day_count(fs.take(i), day, kill) <= day_count(fs, day, kill),
{
    fs.take(i).lemma_filter_monotone(fs, |f: FragView| f.is_kill() == kill && frag_day(f) == day);
}

/// The kills and deaths per day after counting `fs`.
pub open spec fn plot_after(p: PlotView, fs: Seq<FragView>) -> PlotView {
    PlotView { kills: counted(p.kills, fs, true), deaths: counted(p.deaths, fs, false) }
}

/// The number of frags of a day and kind in two lists together.
pub proof fn lemma_day_count_append(a: Seq<FragView>, b: Seq<FragView>, d: int, kill: bool)
    ensures
        day_count(a + b, d, kill) == day_count(a, d, kill) + day_count(b, d, kill),
{
    Seq::filter_distributes_over_add(a, b, |f: FragView| f.is_kill() == kill && frag_day(f) == d);
}

/// Where counting `a` and then `b` into `m` keeps each count within `i32`,
/// counting `a + b` at once does too.
pub proof fn lemma_counts_fit_append(m: Map<i32, i32>, a: Seq<FragView>, b: Seq<FragView>, kill: bool)
    requires
        counts_fit(m, a, kill),
        counts_fit(counted(m, a, kill), b, kill),
    ensures
        counts_fit(m, a + b, kill),
{
    assert forall|d: i32| #[trigger] count_in(m, d) + day_count(a + b, d as int, kill) <= i32::MAX by {
        lemma_day_count_append(a, b, d as int, kill);
        assert(count_in(m, d) + day_count(a, d as int, kill) <= i32::MAX);
        assert(count_in(counted(m, a, kill), d) + day_count(b, d as int, kill) <= i32::MAX);
        if m.contains_key(d) || day_count(a, d as int, kill) > 0 {
            assert(count_in(counted(m, a, kill), d) == count_in(m, d) + day_count(a, d as int, kill));
        }
    }
}

/// Counting frags in two batches gives the per-day counts that counting them
/// in one batch gives, where no count leaves `i32`.
pub proof fn lemma_plot_after_append(p: PlotView, a: Seq<FragView>, b: Seq<FragView>)
    requires
        counts_fit(p.kills, a + b, true),
        counts_fit(p.deaths, a + b, false),
    ensures
        plot_after(plot_after(p, a), b) == plot_after(p, a + b),
{
    assert forall|d: i32, kill: bool| #[trigger] day_count(a + b, d as int, kill) == day_count(
        a,
        d as int,
        kill,
    ) + day_count(b, d as int, kill) by {
        lemma_day_count_append(a, b, d as int, kill);
    }
    assert forall|d: i32| #[trigger] counted(counted(p.kills, a, true), b, true).contains_key(d)
        implies counted(counted(p.kills, a, true), b, true)[d] == counted(p.kills, a + b, true)[d] by {
        assert(count_in(p.kills, d) + day_count(a + b, d as int, true) <= i32::MAX);
    }
    assert forall|d: i32| #[trigger] counted(counted(p.deaths, a, false), b, false).contains_key(d)
        implies counted(counted(p.deaths, a, false), b, false)[d] == counted(p.deaths, a + b, false)[d] by {
        assert(count_in(p.deaths, d) + day_count(a + b, d as int, false) <= i32::MAX);
    }
    assert(counted(counted(p.kills, a, true), b, true) =~= counted(p.kills, a + b, true));
    assert(counted(counted(p.deaths, a, false), b, false) =~= counted(p.deaths, a + b, false));
}

/// Lists that hold the same items, in any order, have as many items that
/// meet any condition.
pub proof fn lemma_filter_len_permutation(a: Seq<FragView>, b: Seq<FragView>, p: spec_fn(FragView) -> bool)
    requires
        a.to_multiset() == b.to_multiset(),
    ensures
        a.filter(p).len() == b.filter(p).len(),
    decreases a.len(),
{
    broadcast use vstd::seq_lib::group_to_multiset_ensures;
    broadcast use vstd::multiset::group_multiset_axioms;

    if a.len() == 0 {
        vstd::seq_lib::to_multiset_len(a);
        vstd::seq_lib::to_multiset_len(b);
        assert(b.len() == 0);
        assert(a.filter(p) =~= Seq::<FragView>::empty());
        assert(b.filter(p) =~= Seq::<FragView>::empty());
    } else {
        let init = a.drop_last();
        let x = a.last();
        assert(a =~= init.push(x));
        assert(a.to_multiset() =~= init.to_multiset().insert(x));
        assert(b.to_multiset().count(x) > 0);
        assert(b.contains(x));
        let j = choose|j: int| 0 <= j < b.len() && b[j] == x;
        let rest = b.remove(j);
        assert(rest.to_multiset() =~= b.to_multiset().remove(x));
        assert(rest.to_multiset() =~= init.to_multiset());
        lemma_filter_len_permutation(init, rest, p);
        init.lemma_filter_len_push(p, x);
        let front = b.take(j);
        let back = b.skip(j + 1);
        assert(b =~= front + seq![x] + back);
        assert(rest =~= front + back);
        Seq::filter_distributes_over_add(front + seq![x], back, p);
        Seq::filter_distributes_over_add(front, seq![x], p);
        Seq::filter_distributes_over_add(front, back, p);
        reveal_with_fuel(Seq::<_>::filter, 2);
        assert(seq![x].drop_last() =~= Seq::<FragView>::empty());
    }
}

/// The per-day counts do not depend on the order of the frags counted.
pub proof fn lemma_plot_after_permutation(p: PlotView, a: Seq<FragView>, b: Seq<FragView>)
    requires
        a.to_multiset() == b.to_multiset(),
    ensures
        plot_after(p, a) == plot_after(p, b),
{
    assert forall|d: i32, kill: bool| #[trigger] day_count(a, d as int, kill) == day_count(
        b,
        d as int,
        kill,
    ) by {
        lemma_filter_len_permutation(
            a,
            b,
            |f: FragView| f.is_kill() == kill && frag_day(f) == d as int,
        );
    }
    assert(counted(p.kills, a, true) =~= counted(p.kills, b, true));
    assert(counted(p.deaths, a, false) =~= counted(p.deaths, b, false));
}

/// Whether the plot has enough days to draw: two days of kills or two days
/// of deaths.
pub open spec fn drawable(p: PlotView) -> bool {
    p.kills.dom().len() >= 2 || p.deaths.dom().len() >= 2
}

/// A finite set has at least two elements exactly when it holds two
/// different elements.
pub proof fn lemma_two_elements(s: Set<i32>)
    requires
        s.finite(),
    ensures
        s.len() >= 2 <==> exists|a: i32, b: i32| a != b && s.contains(a) && s.contains(b),
{
    if s.len() >= 2 {
        vstd::set_lib::lemma_set_empty_equivalency_len(s);
        let a = s.choose();
        let rest = s.remove(a);
        assert(rest.len() == s.len() - 1);
        vstd::set_lib::lemma_set_empty_equivalency_len(rest);
        let b = rest.choose();
        assert(a != b && s.contains(a) && s.contains(b));
    }
    if exists|a: i32, b: i32| a != b && s.contains(a) && s.contains(b) {
        let (a, b) = choose|a: i32, b: i32| a != b && s.contains(a) && s.contains(b);
        let pair = Set::<i32>::empty().insert(a).insert(b);
        assert(pair.len() == 2);
        vstd::set_lib::lemma_len_subset(pair, s);
    }
}

/// The plot is drawn exactly when the kills fall on two different days or
/// the deaths fall on two different days, whichever kind the other has.
pub proof fn lemma_drawable_two_days(p: PlotView)
    requires
        p.kills.dom().finite(),
        p.deaths.dom().finite(),
    ensures
        drawable(p) <==> (exists|a: i32, b: i32|
            a != b && p.kills.contains_key(a) && p.kills.contains_key(b)) || (exists|a: i32, b: i32|
            a != b && p.deaths.contains_key(a) && p.deaths.contains_key(b)),
{
    lemma_two_elements(p.kills.dom());
    lemma_two_elements(p.deaths.dom());
}

/// The days counted from no counts are exactly the days of the frags of the
/// kind, and there are finitely many.
pub proof fn lemma_counted_days(fs: Seq<FragView>, kill: bool)
    ensures
        counted(Map::empty(), fs, kill).dom().finite(),
        forall|d: i32|
            counted(Map::empty(), fs, kill).contains_key(d) <==> exists|i: int|
                0 <= i < fs.len() && fs[i].is_kill() == kill && #[trigger] frag_day(fs[i]) == d as int,
{
    let m = counted(Map::empty(), fs, kill);
    assert forall|d: i32| m.contains_key(d) <==> exists|i: int|
        0 <= i < fs.len() && fs[i].is_kill() == kill && #[trigger] frag_day(fs[i]) == d as int by {
        let p = |f: FragView| f.is_kill() == kill && frag_day(f) == d as int;
        if m.contains_key(d) {
            assert(day_count(fs, d as int, kill) > 0);
            fs.lemma_filter_pred(p, 0);
            let f = fs.filter(p)[0];
            assert(fs.filter(p).contains(f));
            fs.lemma_filter_contains_rev(p, f);
            let i = choose|i: int| 0 <= i < fs.len() && fs[i] == f;
            assert(fs[i].is_kill() == kill && frag_day(fs[i]) == d as int);
        }
        if exists|i: int| 0 <= i < fs.len() && fs[i].is_kill() == kill && #[trigger] frag_day(fs[i]) == d as int {
            let i = choose|i: int| 0 <= i < fs.len() && fs[i].is_kill() == kill && #[trigger] frag_day(fs[i]) == d as int;
            fs.lemma_filter_contains(p, i);
            assert(fs.filter(p).len() > 0);
        }
    }
    let days = fs.map_values(|f: FragView| frag_day(f) as i32).to_set();
    assert(m.dom().subset_of(days)) by {
        assert forall|d: i32| m.dom().contains(d) implies days.contains(d) by {
            let i = choose|i: int| 0 <= i < fs.len() && fs[i].is_kill() == kill && #[trigger] frag_day(fs[i]) == d as int;
            let mapped = fs.map_values(|f: FragView| frag_day(f) as i32);
            assert(mapped[i] == d);
            assert(mapped.contains(d));
        }
    }
    vstd::seq_lib::seq_to_set_is_finite(fs.map_values(|f: FragView| frag_day(f) as i32));
    vstd::set_lib::lemma_set_subset_finite(days, m.dom());
}

/// From no counts, the plot is drawn exactly when two kills fall on
/// different days or two deaths fall on different days.
pub proof fn lemma_drawable_from_frags(fs: Seq<FragView>)
    requires
        forall|i: int| 0 <= i < fs.len() ==> day_in_range(#[trigger] frag_day(fs[i])),
    ensures
        drawable(plot_after(PlotView { kills: Map::empty(), deaths: Map::empty() }, fs)) <==> (
        exists|i: int, j: int|
            0 <= i < fs.len() && 0 <= j < fs.len() && fs[i].is_kill() && fs[j].is_kill() && frag_day(
                fs[i],
            ) != frag_day(fs[j])) || (exists|i: int, j: int|
            0 <= i < fs.len() && 0 <= j < fs.len() && !fs[i].is_kill() && !fs[j].is_kill()
                && frag_day(fs[i]) != frag_day(fs[j])),
{
    let p = plot_after(PlotView { kills: Map::empty(), deaths: Map::empty() }, fs);
    lemma_counted_days(fs, true);
    lemma_counted_days(fs, false);
    lemma_drawable_two_days(p);
    lemma_two_days_of_kind(fs, true);
    lemma_two_days_of_kind(fs, false);
}

/// Two different days are counted for a kind exactly when two frags of that
/// kind fall on different days.
proof fn lemma_two_days_of_kind(fs: Seq<FragView>, kill: bool)
    requires
        forall|i: int| 0 <= i < fs.len() ==> day_in_range(#[trigger] frag_day(fs[i])),
    ensures
        (exists|a: i32, b: i32| a != b && #[trigger] counted(Map::empty(), fs, kill).contains_key(a)
            && #[trigger] counted(Map::empty(), fs, kill).contains_key(b)) <==> (exists|i: int, j: int|
            0 <= i < fs.len() && 0 <= j < fs.len() && fs[i].is_kill() == kill && fs[j].is_kill() == kill
                && frag_day(fs[i]) != frag_day(fs[j])),
{
    lemma_counted_days(fs, kill);
    let m = counted(Map::empty(), fs, kill);
    if exists|a: i32, b: i32| a != b && m.contains_key(a) && m.contains_key(b) {
        let (a, b) = choose|a: i32, b: i32| a != b && m.contains_key(a) && m.contains_key(b);
        let i = choose|i: int|
            0 <= i < fs.len() && fs[i].is_kill() == kill && #[trigger] frag_day(fs[i]) == a as int;
        let j = choose|j: int|
            0 <= j < fs.len() && fs[j].is_kill() == kill && #[trigger] frag_day(fs[j]) == b as int;
        assert(frag_day(fs[i]) != frag_day(fs[j]));
    }
    if exists|i: int, j: int|
        0 <= i < fs.len() && 0 <= j < fs.len() && fs[i].is_kill() == kill && fs[j].is_kill() == kill
            && frag_day(fs[i]) != frag_day(fs[j]) {
        let (i, j) = choose|i: int, j: int|
            0 <= i < fs.len() && 0 <= j < fs.len() && fs[i].is_kill() == kill && fs[j].is_kill()
                == kill && frag_day(fs[i]) != frag_day(fs[j]);
        let a = frag_day(fs[i]) as i32;
        let b = frag_day(fs[j]) as i32;
        assert(day_in_range(frag_day(fs[i])));
        assert(day_in_range(frag_day(fs[j])));
        assert(m.contains_key(a));
        assert(m.contains_key(b));
    }
}

impl PlotState {
    #[verifier::type_invariant]
    spec fn inv(self) -> bool {
        counts_wf(self.kills@) && counts_wf(self.deaths@)
    }

    /// A plot with no frag counted.
    pub fn new() -> (p: PlotState)
        ensures
            p@.kills == Map::<i32, i32>::empty(),
            p@.deaths == Map::<i32, i32>::empty(),
    {
        PlotState { kills: BTreeMap::new(), deaths: BTreeMap::new() }
    }

    /// Counts each frag on its UTC day, as a kill or as a death.
    pub fn frags(&mut self, frags: Vec<Frag>)
        requires
            counts_fit(old(self)@.kills, frag_views(frags@), true),
            counts_fit(old(self)@.deaths, frag_views(frags@), false),
        ensures
            final(self)@ == plot_after(old(self)@, frag_views(frags@)),
    {
        proof {
            use_type_invariant(&*self);
        }
        let mut kills: BTreeMap<i32, i32> = BTreeMap::new();
        std::mem::swap(&mut kills, &mut self.kills);
        count_frags(&mut kills, frags.as_slice(), true);
        self.kills = kills;
        let mut deaths: BTreeMap<i32, i32> = BTreeMap::new();
        std::mem::swap(&mut deaths, &mut self.deaths);
        count_frags(&mut deaths, frags.as_slice(), false);
        self.deaths = deaths;
    }

    /// The points to draw, where the plot is drawable: kills as positive
    /// counts and deaths as negative counts, each at the midnight of its day,
    /// by increasing day. The plot is drawable exactly when kills are counted
    /// on two different days or deaths are counted on two different days.
    pub fn series(&self) -> (res: Option<(Vec<(i64, i32)>, Vec<(i64, i32)>)>)
        ensures
            res is Some <==> drawable(self@),
            res is Some <==> (exists|a: i32, b: i32|
                a != b && self@.kills.contains_key(a) && self@.kills.contains_key(b)) || (exists|
                a: i32,
                b: i32,
            | a != b && self@.deaths.contains_key(a) && self@.deaths.contains_key(b)),
            res matches Some((kills, deaths)) ==> is_series(self@.kills, kills@, 1) && is_series(
                self@.deaths,
                deaths@,
                -1,
            ),
    {
        proof {
            use_type_invariant(self);
            lemma_drawable_two_days(self@);
        }
        if self.kills.len() < 2 && self.deaths.len() < 2 {
            return None;
        }
        Some((points_of(&self.kills, 1), points_of(&self.deaths, -1)))
    }
}

} // verus!
