//! Running statistics over the frags found so far.

use vstd::prelude::*;
use crate::frags::{Frag, FragView, Target, TargetView};
use crate::journals::frag_views;
use crate::time::Timestamp;

verus! {

/// What the statistics hold: the number of fights, kills and deaths, the
/// names of all players met, and the first and last instant of a fight.
pub struct StatisticsView {
    pub total_frags: nat,
    pub kills: nat,
    pub deaths: nat,
    pub players: Set<Seq<char>>,
    pub first_frag: Option<Timestamp>,
    pub last_frag: Option<Timestamp>,
}

/// The statistics before any frag.
pub open spec fn empty_statistics() -> StatisticsView {
    StatisticsView {
        total_frags: 0,
        kills: 0,
        deaths: 0,
        players: Set::empty(),
        first_frag: None,
        last_frag: None,
    }
}

/// The name of a side of a fight, as a set: empty for the commander.
pub open spec fn target_players(t: TargetView) -> Set<Seq<char>> {
    match t {
        TargetView::You => Set::empty(),
        TargetView::Player(name) => set![name],
    }
}

/// The earlier of a known first instant and `t`.
pub open spec fn earlier(first: Option<Timestamp>, t: Timestamp) -> Option<Timestamp> {
    match first {
        None => Some(t),
        Some(f) => if t.precedes(f) {
            Some(t)
        } else {
            Some(f)
        },
    }
}

/// The later of a known last instant and `t`.
pub open spec fn later(last: Option<Timestamp>, t: Timestamp) -> Option<Timestamp> {
    match last {
        None => Some(t),
        Some(l) => if l.precedes(t) {
            Some(t)
        } else {
            Some(l)
        },
    }
}

/// The statistics after one more frag.
pub open spec fn record(s: StatisticsView, f: FragView) -> StatisticsView {
    StatisticsView {
        total_frags: s.total_frags + 1,
        kills: if f.is_kill() {
            s.kills + 1
        } else {
            s.kills
        },
        deaths: if f.is_kill() {
            s.deaths
        } else {
            s.deaths + 1
        },
        players: s.players + target_players(f.killer) + target_players(f.victim),
        first_frag: earlier(s.first_frag, f.timestamp),
        last_frag: later(s.last_frag, f.timestamp),
    }
}

/// The statistics after the frags `fs`, taken in order.
pub open spec fn record_all(s: StatisticsView, fs: Seq<FragView>) -> StatisticsView
    decreases fs.len(),
{
    if fs.len() == 0 {
        s
    } else {
        record(record_all(s, fs.drop_last()), fs.last())
    }
}

/// Whether `name` is the name of a player on either side of one of `fs`.
pub open spec fn met_in(fs: Seq<FragView>, name: Seq<char>) -> bool {
    exists|i: int|
        0 <= i < fs.len() && (#[trigger] target_players(fs[i].killer) + target_players(
            fs[i].victim,
        )).contains(name)
}

/// Counting frags in two batches gives what counting them in one batch gives.
pub proof fn lemma_record_all_append(s: StatisticsView, a: Seq<FragView>, b: Seq<FragView>)
    ensures
        record_all(record_all(s, a), b) == record_all(s, a + b),
    decreases b.len(),
{
    if b.len() == 0 {
        assert(a + b =~= a);
    } else {
        lemma_record_all_append(s, a, b.drop_last());
        assert((a + b).drop_last() =~= a + b.drop_last());
        assert((a + b).last() == b.last());
    }
}

/// The statistics of a list of frags: every frag is counted once, as a kill
/// or as a death; the players are exactly those met in some frag; the first
/// and last instants are the earliest and the latest instant of a frag, and
/// the first is not after the last.
pub proof fn lemma_statistics_of(fs: Seq<FragView>)
    ensures
        ({
            let r = record_all(empty_statistics(), fs);
            &&& r.total_frags == fs.len()
            &&& r.kills == fs.filter(|f: FragView| f.is_kill()).len()
            &&& r.deaths == fs.filter(|f: FragView| !f.is_kill()).len()
            &&& r.kills + r.deaths == r.total_frags
            &&& forall|name: Seq<char>| r.players.contains(name) <==> met_in(fs, name)
            &&& (fs.len() == 0 ==> r.first_frag is None && r.last_frag is None)
            &&& (fs.len() > 0 ==> {
                &&& r.first_frag matches Some(first)
                &&& r.last_frag matches Some(last)
                &&& exists|i: int| 0 <= i < fs.len() && fs[i].timestamp == first
                &&& exists|i: int| 0 <= i < fs.len() && fs[i].timestamp == last
                &&& forall|i: int| 0 <= i < fs.len() ==> !(#[trigger] fs[i].timestamp).precedes(first)
                &&& forall|i: int| 0 <= i < fs.len() ==> !last.precedes(#[trigger] fs[i].timestamp)
                &&& !last.precedes(first)
            })
        }),
    decreases fs.len(),
{
    let r = record_all(empty_statistics(), fs);
    if fs.len() == 0 {
        assert(fs.filter(|f: FragView| f.is_kill()) =~= Seq::<FragView>::empty());
        assert(fs.filter(|f: FragView| !f.is_kill()) =~= Seq::<FragView>::empty());
    } else {
        let init = fs.drop_last();
        let f = fs.last();
        lemma_statistics_of(init);
        let p = record_all(empty_statistics(), init);
        assert(fs =~= init.push(f));
        init.lemma_filter_len_push(|f: FragView| f.is_kill(), f);
        init.lemma_filter_len_push(|f: FragView| !f.is_kill(), f);
        assert forall|name: Seq<char>| r.players.contains(name) <==> met_in(fs, name) by {
            if r.players.contains(name) {
                if p.players.contains(name) {
                    assert(met_in(init, name));
                    let i = choose|i: int|
                        0 <= i < init.len() && (#[trigger] target_players(init[i].killer)
                            + target_players(init[i].victim)).contains(name);
                    assert(fs[i] == init[i]);
                    assert((target_players(fs[i].killer) + target_players(fs[i].victim)).contains(
                        name,
                    ));
                } else {
                    assert(fs[fs.len() - 1] == f);
                    assert((target_players(fs[fs.len() - 1].killer) + target_players(
                        fs[fs.len() - 1].victim,
                    )).contains(name));
                }
            }
            if met_in(fs, name) {
                let i = choose|i: int|
                    0 <= i < fs.len() && (#[trigger] target_players(fs[i].killer) + target_players(
                        fs[i].victim,
                    )).contains(name);
                if i < init.len() {
                    assert(init[i] == fs[i]);
                    assert((target_players(init[i].killer) + target_players(init[i].victim)).contains(
                        name,
                    ));
                    assert(met_in(init, name));
                } else {
                    assert(fs[i] == f);
                }
            }
        }
        if init.len() == 0 {
            assert(fs[0] == f);
        } else {
            let first = p.first_frag.unwrap();
            let last = p.last_frag.unwrap();
            let i0 = choose|i: int| 0 <= i < init.len() && init[i].timestamp == first;
            let i1 = choose|i: int| 0 <= i < init.len() && init[i].timestamp == last;
            assert(fs[i0] == init[i0]);
            assert(fs[i1] == init[i1]);
            assert(fs[fs.len() - 1] == f);
            assert forall|i: int| 0 <= i < fs.len() implies !(#[trigger] fs[i].timestamp).precedes(
                r.first_frag.unwrap(),
            ) by {
                if i < init.len() {
                    assert(fs[i] == init[i]);
                }
            }
            assert forall|i: int| 0 <= i < fs.len() implies !r.last_frag.unwrap().precedes(
                #[trigger] fs[i].timestamp,
            ) by {
                if i < init.len() {
                    assert(fs[i] == init[i]);
                }
            }
        }
    }
}

/// Whether statistics hang together: every frag is a kill or a death, the
/// first and last instants are known exactly when some frag was counted, and
/// the first is not after the last.
pub open spec fn is_consistent(s: StatisticsView) -> bool {
    &&& s.kills + s.deaths == s.total_frags
    &&& (s.first_frag is Some <==> s.total_frags > 0)
    &&& (s.last_frag is Some <==> s.total_frags > 0)
    &&& (s.first_frag is Some && s.last_frag is Some ==> !s.last_frag.unwrap().precedes(
        s.first_frag.unwrap(),
    ))
}

/// Counting one more frag keeps statistics consistent.
pub proof fn lemma_record_consistent(s: StatisticsView, f: FragView)
    requires
        is_consistent(s),
    ensures
        is_consistent(record(s, f)),
{
}

/// Counting frags keeps statistics consistent; statistics built from nothing
/// by any updates are consistent.
pub proof fn lemma_record_all_consistent(s: StatisticsView, fs: Seq<FragView>)
    requires
        is_consistent(s),
    ensures
        is_consistent(record_all(s, fs)),
        is_consistent(empty_statistics()),
    decreases fs.len(),
{
    if fs.len() > 0 {
        lemma_record_all_consistent(s, fs.drop_last());
        lemma_record_consistent(record_all(s, fs.drop_last()), fs.last());
    }
}

/// The earlier of two instants does not depend on their order.
proof fn lemma_earlier_commutes(x: Option<Timestamp>, a: Timestamp, b: Timestamp)
    ensures
        earlier(earlier(x, a), b) == earlier(earlier(x, b), a),
        later(later(x, a), b) == later(later(x, b), a),
{
    if a.seconds() == b.seconds() && a.subsec_nanos() == b.subsec_nanos() {
        Timestamp::lemma_same_instant(a, b);
    }
    if let Some(y) = x {
        if a.seconds() == y.seconds() && a.subsec_nanos() == y.subsec_nanos() {
            Timestamp::lemma_same_instant(a, y);
        }
        if b.seconds() == y.seconds() && b.subsec_nanos() == y.subsec_nanos() {
            Timestamp::lemma_same_instant(b, y);
        }
    }
}

/// Counting two frags gives the same statistics in either order.
pub proof fn lemma_record_commutes(s: StatisticsView, f: FragView, g: FragView)
    ensures
        record(record(s, f), g) == record(record(s, g), f),
{
    lemma_earlier_commutes(s.first_frag, f.timestamp, g.timestamp);
    lemma_earlier_commutes(s.last_frag, f.timestamp, g.timestamp);
    assert(record(record(s, f), g).players =~= record(record(s, g), f).players);
}

/// Counting a frag before a list gives what counting it after the list gives.
proof fn lemma_record_first(s: StatisticsView, f: FragView, fs: Seq<FragView>)
    ensures
        record_all(record(s, f), fs) == record(record_all(s, fs), f),
    decreases fs.len(),
{
    if fs.len() > 0 {
        lemma_record_first(s, f, fs.drop_last());
        lemma_record_commutes(record_all(s, fs.drop_last()), f, fs.last());
    }
}

/// Counting two batches of frags gives the same statistics in either order.
pub proof fn lemma_record_all_swap(s: StatisticsView, a: Seq<FragView>, b: Seq<FragView>)
    ensures
        record_all(record_all(s, a), b) == record_all(record_all(s, b), a),
    decreases a.len(),
{
    if a.len() > 0 {
        let init = a.drop_last();
        let x = a.last();
        lemma_record_all_swap(s, init, b);
        lemma_record_first(record_all(s, init), x, b);
    }
}

/// The names of a list of strings, as text.
pub open spec fn names(list: Seq<String>) -> Seq<Seq<char>> {
    list.map_values(|s: String| s@)
}

/// Counters over the frags found so far. The ratio of kills to deaths is
/// derived from `kills` and `deaths` where it is shown.
#[derive(Debug)]
pub struct Statistics {
    kills: usize,
    deaths: usize,
    unique_players: Vec<String>,
    first_frag: Option<Timestamp>,
    last_frag: Option<Timestamp>,
}

impl View for Statistics {
    type V = StatisticsView;

    closed spec fn view(&self) -> StatisticsView {
        StatisticsView {
            total_frags: (self.kills + self.deaths) as nat,
            kills: self.kills as nat,
            deaths: self.deaths as nat,
            players: names(self.unique_players@).to_set(),
            first_frag: self.first_frag,
            last_frag: self.last_frag,
        }
    }
}

impl Statistics {
    #[verifier::type_invariant]
    spec fn inv(self) -> bool {
        &&& self.kills + self.deaths <= usize::MAX
        &&& names(self.unique_players@).no_duplicates()
    }

    /// Statistics over no frag.
    pub fn new() -> (s: Statistics)
        ensures
            s@ == empty_statistics(),
            is_consistent(s@),
    {
        let s = Statistics {
            kills: 0,
            deaths: 0,
            unique_players: Vec::new(),
            first_frag: None,
            last_frag: None,
        };
        assert(names(s.unique_players@).to_set() =~= Set::empty());
        s
    }

    /// Whether `name` is among the players met.
    fn knows_player(&self, name: &String) -> (res: bool)
        ensures
            res == self@.players.contains(name@),
    {
        let n = self.unique_players.len();
        let mut i: usize = 0;
        while i < n
            invariant
                0 <= i <= n,
                n == self.unique_players@.len(),
                forall|j: int| 0 <= j < i ==> self.unique_players@[j]@ != name@,
            decreases n - i,
        {
            if self.unique_players[i] == *name {
                assert(names(self.unique_players@)[i as int] == name@);
                return true;
            }
            i = i + 1;
        }
        assert(!names(self.unique_players@).contains(name@));
        false
    }

    /// Adds the player of `target` to the players met, where it is a player.
    fn meet(&mut self, target: &Target)
        ensures
            final(self)@ == (StatisticsView {
                players: old(self)@.players + target_players(target@),
                ..old(self)@
            }),
    {
        proof {
            use_type_invariant(&*self);
        }
        match target {
            Target::You => {
                assert(old(self)@.players + target_players(target@) =~= old(self)@.players);
            },
            Target::Player(name) => {
                if !self.knows_player(name) {
                    let ghost before = names(self.unique_players@);
                    let mut list: Vec<String> = Vec::new();
                    std::mem::swap(&mut list, &mut self.unique_players);
                    list.push(name.clone());
                    proof {
                        assert(names(list@) =~= before.push(name@));
                        before.lemma_push_to_set_commute(name@);
                        assert(!before.contains(name@));
                    }
                    self.unique_players = list;
                    proof {
                        assert(names(self.unique_players@) =~= before.push(name@));
                        before.lemma_push_to_set_commute(name@);
                    }
                }
                assert(names(self.unique_players@).to_set() =~= old(self)@.players + target_players(
                    target@,
                ));
            },
        }
    }

    /// Counts the frags `frags` in the statistics, in order.
    pub fn update(&mut self, frags: &[Frag])
        requires
            old(self)@.total_frags + frags@.len() <= usize::MAX,
        ensures
            final(self)@ == record_all(old(self)@, frag_views(frags@)),
            is_consistent(old(self)@) ==> is_consistent(final(self)@),
    {
        let n = frags.len();
        let mut i: usize = 0;
        while i < n
            invariant
                0 <= i <= n,
                n == frags@.len(),
                old(self)@.total_frags + n <= usize::MAX,
                self@ == record_all(old(self)@, frag_views(frags@.take(i as int))),
                self@.total_frags == old(self)@.total_frags + i,
            decreases n - i,
        {
            proof {
                use_type_invariant(&*self);
            }
            let frag = &frags[i];
            let ghost before = self@;
            proof {
                assert(frag_views(frags@.take(i + 1)).drop_last() =~= frag_views(frags@.take(i as int)));
                assert(frag_views(frags@.take(i + 1)).last() == frag@);
            }
            if frag.is_kill() {
                self.kills = self.kills + 1;
            } else {
                self.deaths = self.deaths + 1;
            }
            let replace_first = match self.first_frag {
                None => true,
                Some(t) => frag.timestamp.is_before(&t),
            };
            if replace_first {
                self.first_frag = Some(frag.timestamp);
            }
            let replace_last = match self.last_frag {
                None => true,
                Some(t) => t.is_before(&frag.timestamp),
            };
            if replace_last {
                self.last_frag = Some(frag.timestamp);
            }
            self.meet(&frag.killer);
            self.meet(&frag.victim);
            assert(self@ == record(before, frag@));
            i = i + 1;
        }
        assert(frags@.take(n as int) =~= frags@);
        proof {
            if is_consistent(old(self)@) {
                lemma_record_all_consistent(old(self)@, frag_views(frags@));
            }
        }
    }

    /// The number of frags counted.
    pub fn total_frags(&self) -> (n: usize)
        ensures
            n == self@.total_frags,
    {
        proof {
            use_type_invariant(self);
        }
        self.kills + self.deaths
    }

    /// The number of kills counted.
    pub fn kills(&self) -> (n: usize)
        ensures
            n == self@.kills,
    {
        self.kills
    }

    /// The number of deaths counted.
    pub fn deaths(&self) -> (n: usize)
        ensures
            n == self@.deaths,
    {
        self.deaths
    }

    /// The number of different players met.
    pub fn unique_players(&self) -> (n: usize)
        ensures
            n == self@.players.len(),
    {
        proof {
            use_type_invariant(self);
            names(self.unique_players@).unique_seq_to_set();
        }
        self.unique_players.len()
    }

    /// The instant of the earliest frag, if any.
    pub fn first_frag(&self) -> (t: Option<Timestamp>)
        ensures
            t == self@.first_frag,
    {
        self.first_frag
    }

    /// The instant of the latest frag, if any.
    pub fn last_frag(&self) -> (t: Option<Timestamp>)
        ensures
            t == self@.last_frag,
    {
        self.last_frag
    }
}

} // verus!
