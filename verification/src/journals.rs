//! Scanning a journal: the events that matter for fights, and the frags that
//! a sequence of journal entries records.

use vstd::prelude::*;
use crate::frags::{Frag, FragView, TargetView};
use crate::ship::Ship;
use crate::time::Timestamp;

verus! {

/// The journal events that scanning reads; every other event is `Other`.
#[derive(Debug, PartialEq, Eq)]
pub enum JournalEvent {
    /// The commander's ship after a change of loadout.
    Loadout(Ship),
    /// The star system where the commander is, at start-up or after landing.
    Location(String),
    /// The star system reached by a hyperspace jump.
    FsdJump(String),
    /// The commander destroyed the named player.
    PvpKill(String),
    /// The commander died: the killer's name for a single killer, the names
    /// of all killers for a wing.
    Died { killer_name: Option<String>, killers: Option<Vec<String>> },
    Other,
}

/// One line of a journal: when it was written and its event.
#[derive(Debug, PartialEq, Eq)]
pub struct JournalEntry {
    pub timestamp: Timestamp,
    pub event: JournalEvent,
}

/// The prefix that the journal puts before the names of human players.
pub open spec fn cmdr_prefix() -> Seq<char> {
    seq!['C', 'm', 'd', 'r', ' ']
}

/// The marker of a human player in a killer's name.
pub open spec fn cmdr_marker() -> Seq<char> {
    seq!['C', 'm', 'd', 'r']
}

/// Whether `pat` occurs in `s` as a contiguous piece.
pub open spec fn seq_contains(s: Seq<char>, pat: Seq<char>) -> bool {
    exists|i: int| 0 <= i <= s.len() - pat.len() && #[trigger] s.subrange(i, i + pat.len()) == pat
}

/// A name without its leading `Cmdr ` where it has one.
pub open spec fn stripped_name(name: Seq<char>) -> Seq<char> {
    if cmdr_prefix().is_prefix_of(name) {
        name.skip(cmdr_prefix().len() as int)
    } else {
        name
    }
}

/// The name of `content` without the prefix `Cmdr `, where it begins with it.
pub fn strip_cmdr(content: &str) -> (res: &str)
    ensures
        res@ == stripped_name(content@),
{
    let n = content.unicode_len();
    if n < 5 {
        return content;
    }
    let prefix: [char; 5] = ['C', 'm', 'd', 'r', ' '];
    let mut i: usize = 0;
    while i < 5
        invariant
            0 <= i <= 5,
            n == content@.len(),
            n >= 5,
            prefix@ == cmdr_prefix(),
            forall|j: int| 0 <= j < i ==> content@[j] == cmdr_prefix()[j],
        decreases 5 - i,
    {
        if content.get_char(i) != prefix[i] {
            assert(!cmdr_prefix().is_prefix_of(content@));
            return content;
        }
        i = i + 1;
    }
    assert(cmdr_prefix().is_prefix_of(content@));
    content.substring_char(5, n)
}

/// The characters of `s`, in order.
fn chars_of(s: &str) -> (v: Vec<char>)
    ensures
        v@ == s@,
{
    let n = s.unicode_len();
    let mut v: Vec<char> = Vec::new();
    let mut i: usize = 0;
    while i < n
        invariant
            0 <= i <= n,
            n == s@.len(),
            v@ == s@.take(i as int),
        decreases n - i,
    {
        v.push(s.get_char(i));
        i = i + 1;
        assert(v@ == s@.take(i as int));
    }
    assert(s@.take(n as int) == s@);
    v
}

/// Whether `s` contains `Cmdr`.
fn contains_cmdr(s: &str) -> (res: bool)
    ensures
        res == seq_contains(s@, cmdr_marker()),
{
    let chars = chars_of(s);
    let pat: [char; 4] = ['C', 'm', 'd', 'r'];
    let n = chars.len();
    if n < 4 {
        assert forall|i: int| 0 <= i <= s@.len() - cmdr_marker().len() implies #[trigger] s@.subrange(i, i + cmdr_marker().len()) != cmdr_marker() by {}
        return false;
    }
    let mut i: usize = 0;
    while i <= n - 4
        invariant
            chars@ == s@,
            n == chars@.len(),
            n >= 4,
            pat@ == cmdr_marker(),
            0 <= i <= n - 3,
            forall|k: int| 0 <= k < i ==> #[trigger] s@.subrange(k, k + 4) != cmdr_marker(),
        decreases n - 3 - i,
    {
        let mut j: usize = 0;
        let mut same = true;
        while j < 4
            invariant
                chars@ == s@,
                n == chars@.len(),
                pat@ == cmdr_marker(),
                i + 4 <= n,
                0 <= j <= 4,
                same == (forall|l: int| 0 <= l < j ==> s@[i + l] == cmdr_marker()[l]),
            decreases 4 - j,
        {
            if chars[i + j] != pat[j] {
                same = false;
            }
            j = j + 1;
        }
        if same {
            assert(s@.subrange(i as int, i + 4) == cmdr_marker());
            return true;
        }
        assert(s@.subrange(i as int, i + 4) != cmdr_marker()) by {
            let l = choose|l: int| 0 <= l < 4 && s@[i + l] != cmdr_marker()[l];
            assert(s@.subrange(i as int, i + 4)[l] == s@[i + l]);
        }
        i = i + 1;
    }
    false
}

/// The commander's ship and star system after `entries`: the ship of the
/// last `Loadout`, the system of the last `Location` or `FsdJump`.
pub open spec fn context_after(entries: Seq<JournalEntry>) -> (Option<Ship>, Option<String>)
    decreases entries.len(),
{
    if entries.len() == 0 {
        (None, None)
    } else {
        let (ship, system) = context_after(entries.drop_last());
        match entries.last().event {
            JournalEvent::Loadout(s) => (Some(s), system),
            JournalEvent::Location(sys) => (ship, Some(sys)),
            JournalEvent::FsdJump(sys) => (ship, Some(sys)),
            _ => (ship, system),
        }
    }
}

/// The player who killed the commander in a `Died` event: a single killer
/// counts only where the name marks a human player (`Cmdr`); of a wing, the
/// first killer counts. The name is given without its `Cmdr ` prefix.
pub open spec fn death_killer(killer_name: Option<String>, killers: Option<Vec<String>>) -> Option<
    Seq<char>,
> {
    match killer_name {
        Some(name) => if seq_contains(name@, cmdr_marker()) {
            Some(stripped_name(name@))
        } else {
            None
        },
        None => match killers {
            Some(list) => if list@.len() > 0 {
                Some(stripped_name(list@[0]@))
            } else {
                None
            },
            None => None,
        },
    }
}

/// The frags that one entry records, given the ship and system before it.
pub open spec fn entry_frags(context: (Option<Ship>, Option<String>), entry: JournalEntry) -> Seq<
    FragView,
> {
    match entry.event {
        JournalEvent::PvpKill(victim) => seq![
            FragView {
                timestamp: entry.timestamp,
                killer: TargetView::You,
                victim: TargetView::Player(victim@),
                star_system: context.1,
                ship: context.0,
            },
        ],
        JournalEvent::Died { killer_name, killers } => match death_killer(killer_name, killers) {
            Some(name) => seq![
                FragView {
                    timestamp: entry.timestamp,
                    killer: TargetView::Player(name),
                    victim: TargetView::You,
                    star_system: context.1,
                    ship: context.0,
                },
            ],
            None => seq![],
        },
        _ => seq![],
    }
}

/// The frags that a journal records, in the order of its entries.
pub open spec fn journal_frags(entries: Seq<JournalEntry>) -> Seq<FragView>
    decreases entries.len(),
{
    if entries.len() == 0 {
        seq![]
    } else {
        journal_frags(entries.drop_last()) + entry_frags(
            context_after(entries.drop_last()),
            entries.last(),
        )
    }
}

/// The star system that an entry names: that of a `Location` or `FsdJump`.
pub open spec fn system_named(e: JournalEntry) -> Option<String> {
    match e.event {
        JournalEvent::Location(s) => Some(s),
        JournalEvent::FsdJump(s) => Some(s),
        _ => None,
    }
}

/// The ship that an entry names: that of a `Loadout`.
pub open spec fn ship_named(e: JournalEntry) -> Option<Ship> {
    match e.event {
        JournalEvent::Loadout(s) => Some(s),
        _ => None,
    }
}

/// Whether an entry records a frag: a kill, or a death by a player.
pub open spec fn records_frag(e: JournalEntry) -> bool {
    match e.event {
        JournalEvent::PvpKill(_) => true,
        JournalEvent::Died { killer_name, killers } => death_killer(killer_name, killers) is Some,
        _ => false,
    }
}

/// The known star system is the one named by the last entry that names one,
/// whatever other entries (ship changes among them) follow it; it is unknown
/// where no entry names one.
pub proof fn lemma_system_is_last_named(entries: Seq<JournalEntry>)
    ensures
        forall|i: int|
            0 <= i < entries.len() && system_named(entries[i]) is Some && (forall|j: int|
                i < j < entries.len() ==> system_named(#[trigger] entries[j]) is None)
                ==> #[trigger] context_after(entries).1 == system_named(entries[i]),
        (forall|j: int| 0 <= j < entries.len() ==> system_named(#[trigger] entries[j]) is None)
            ==> context_after(entries).1 is None,
    decreases entries.len(),
{
    if entries.len() > 0 {
        let init = entries.drop_last();
        lemma_system_is_last_named(init);
        assert forall|i: int|
            0 <= i < entries.len() && system_named(entries[i]) is Some && (forall|j: int|
                i < j < entries.len() ==> system_named(#[trigger] entries[j]) is None)
                implies #[trigger] context_after(entries).1 == system_named(entries[i]) by {
            if i < entries.len() - 1 {
                assert(init[i] == entries[i]);
                assert forall|j: int| i < j < init.len() implies system_named(#[trigger] init[j]) is None by {
                    assert(init[j] == entries[j]);
                }
            }
        }
        if forall|j: int| 0 <= j < entries.len() ==> system_named(#[trigger] entries[j]) is None {
            assert forall|j: int| 0 <= j < init.len() implies system_named(#[trigger] init[j]) is None by {
                assert(init[j] == entries[j]);
            }
            assert(system_named(entries[entries.len() - 1]) is None);
        }
    }
}

/// The known ship is the one of the last `Loadout`, whatever entries follow
/// it; it is unknown where there is no `Loadout`.
pub proof fn lemma_ship_is_last_loadout(entries: Seq<JournalEntry>)
    ensures
        forall|i: int|
            0 <= i < entries.len() && ship_named(entries[i]) is Some && (forall|j: int|
                i < j < entries.len() ==> ship_named(#[trigger] entries[j]) is None)
                ==> #[trigger] context_after(entries).0 == ship_named(entries[i]),
        (forall|j: int| 0 <= j < entries.len() ==> ship_named(#[trigger] entries[j]) is None)
            ==> context_after(entries).0 is None,
    decreases entries.len(),
{
    if entries.len() > 0 {
        let init = entries.drop_last();
        lemma_ship_is_last_loadout(init);
        assert forall|i: int|
            0 <= i < entries.len() && ship_named(entries[i]) is Some && (forall|j: int|
                i < j < entries.len() ==> ship_named(#[trigger] entries[j]) is None)
                implies #[trigger] context_after(entries).0 == ship_named(entries[i]) by {
            if i < entries.len() - 1 {
                assert(init[i] == entries[i]);
                assert forall|j: int| i < j < init.len() implies ship_named(#[trigger] init[j]) is None by {
                    assert(init[j] == entries[j]);
                }
            }
        }
        if forall|j: int| 0 <= j < entries.len() ==> ship_named(#[trigger] entries[j]) is None {
            assert forall|j: int| 0 <= j < init.len() implies ship_named(#[trigger] init[j]) is None by {
                assert(init[j] == entries[j]);
            }
            assert(ship_named(entries[entries.len() - 1]) is None);
        }
    }
}

/// An entry that records a frag adds exactly one frag after those of the
/// entries before it, at the entry's time, carrying the star system of the
/// last entry before it that names one (none where there is none) and the
/// ship of the last `Loadout` before it; every other entry adds none.
pub proof fn lemma_frag_of_last_entry(entries: Seq<JournalEntry>)
    requires
        entries.len() > 0,
    ensures
        ({
            let before = entries.drop_last();
            let e = entries.last();
            let frags = journal_frags(entries);
            &&& records_frag(e) ==> {
                &&& frags.len() == journal_frags(before).len() + 1
                &&& frags.drop_last() == journal_frags(before)
                &&& frags.last().timestamp == e.timestamp
                &&& forall|i: int|
                    0 <= i < before.len() && system_named(before[i]) is Some && (forall|j: int|
                        i < j < before.len() ==> system_named(#[trigger] before[j]) is None)
                        ==> frags.last().star_system == system_named(#[trigger] before[i])
                &&& (forall|j: int| 0 <= j < before.len() ==> system_named(#[trigger] before[j]) is None)
                    ==> frags.last().star_system is None
                &&& forall|i: int|
                    0 <= i < before.len() && ship_named(before[i]) is Some && (forall|j: int|
                        i < j < before.len() ==> ship_named(#[trigger] before[j]) is None)
                        ==> frags.last().ship == ship_named(#[trigger] before[i])
                &&& (forall|j: int| 0 <= j < before.len() ==> ship_named(#[trigger] before[j]) is None)
                    ==> frags.last().ship is None
            }
            &&& !records_frag(e) ==> frags == journal_frags(before)
        }),
{
    let before = entries.drop_last();
    lemma_system_is_last_named(before);
    lemma_ship_is_last_loadout(before);
    let e = entries.last();
    let frags = journal_frags(entries);
    if records_frag(e) {
        assert(frags.drop_last() =~= journal_frags(before));
        assert forall|i: int|
            0 <= i < before.len() && system_named(before[i]) is Some && (forall|j: int|
                i < j < before.len() ==> system_named(#[trigger] before[j]) is None)
                implies frags.last().star_system == system_named(#[trigger] before[i]) by {
            assert(context_after(before).1 == system_named(before[i]));
        }
        assert forall|i: int|
            0 <= i < before.len() && ship_named(before[i]) is Some && (forall|j: int|
                i < j < before.len() ==> ship_named(#[trigger] before[j]) is None)
                implies frags.last().ship == ship_named(#[trigger] before[i]) by {
            assert(context_after(before).0 == ship_named(before[i]));
        }
    } else {
        assert(entry_frags(context_after(before), e) =~= Seq::<FragView>::empty());
        assert(frags =~= journal_frags(before));
    }
}

/// Whether scanning reads an entry's event: every event but `Other`.
pub open spec fn is_scanned(e: JournalEntry) -> bool {
    !(e.event is Other)
}

/// Entries whose events scanning does not read change nothing: the journal
/// without them records the same frags, and leaves the same ship and system.
pub proof fn lemma_other_entries_ignored(entries: Seq<JournalEntry>)
    ensures
        journal_frags(entries.filter(|e: JournalEntry| is_scanned(e))) == journal_frags(entries),
        context_after(entries.filter(|e: JournalEntry| is_scanned(e))) == context_after(entries),
    decreases entries.len(),
{
    reveal_with_fuel(Seq::<_>::filter, 1);
    let kept = entries.filter(|e: JournalEntry| is_scanned(e));
    if entries.len() == 0 {
        assert(kept =~= Seq::<JournalEntry>::empty());
    } else {
        let init = entries.drop_last();
        let last = entries.last();
        lemma_other_entries_ignored(init);
        let kept_init = init.filter(|e: JournalEntry| is_scanned(e));
        if is_scanned(last) {
            assert(kept == kept_init.push(last));
            assert(kept.drop_last() =~= kept_init);
            assert(kept.last() == last);
        } else {
            assert(kept == kept_init);
            assert(entry_frags(context_after(init), last) =~= Seq::<FragView>::empty());
            assert(journal_frags(entries) =~= journal_frags(init));
        }
    }
}

/// The views of a list of frags.
pub open spec fn frag_views(frags: Seq<Frag>) -> Seq<FragView> {
    frags.map_values(|f: Frag| f@)
}

/// The frags that the entries of one journal record, in order: each
/// `PvpKill` is a kill of its victim, and each `Died` whose killer is a
/// player (see `death_killer`) is a death; both carry the ship and the star
/// system that the journal named last before them.
pub fn scan_journal(entries: &Vec<JournalEntry>) -> (frags: Vec<Frag>)
    ensures
        frag_views(frags@) == journal_frags(entries@),
{
    let mut ship: Option<Ship> = None;
    let mut star_system: Option<String> = None;
    let mut frags: Vec<Frag> = Vec::new();
    let n = entries.len();
    let mut i: usize = 0;
    while i < n
        invariant
            0 <= i <= n,
            n == entries@.len(),
            (ship, star_system) == context_after(entries@.take(i as int)),
            frag_views(frags@) == journal_frags(entries@.take(i as int)),
        decreases n - i,
    {
        let entry = &entries[i];
        let ghost before = entries@.take(i as int);
        let ghost old_frags = frags@;
        proof {
            assert(entries@.take(i + 1).drop_last() == before);
            assert(entries@.take(i + 1).last() == *entry);
        }
        match &entry.event {
            JournalEvent::Loadout(s) => {
                ship = Some(s.clone());
            },
            JournalEvent::Location(sys) => {
                star_system = Some(sys.clone());
            },
            JournalEvent::FsdJump(sys) => {
                star_system = Some(sys.clone());
            },
            JournalEvent::PvpKill(victim) => {
                frags.push(
                    Frag::kill(entry.timestamp, star_system.clone(), ship.clone(), victim.clone()),
                );
            },
            JournalEvent::Died { killer_name, killers } => {
                if let Some(name) = killer_name {
                    if contains_cmdr(name.as_str()) {
                        let player = String::from_str(strip_cmdr(name.as_str()));
                        frags.push(
                            Frag::death(entry.timestamp, star_system.clone(), ship.clone(), player),
                        );
                    }
                } else if let Some(list) = killers {
                    if list.len() > 0 {
                        let player = String::from_str(strip_cmdr(list[0].as_str()));
                        frags.push(
                            Frag::death(entry.timestamp, star_system.clone(), ship.clone(), player),
                        );
                    }
                }
            },
            JournalEvent::Other => {},
        }
        proof {
            assert(frag_views(frags@) == frag_views(old_frags) + entry_frags(
                context_after(before),
                *entry,
            ));
        }
        i = i + 1;
    }
    assert(entries@.take(n as int) == entries@);
    frags
}

/// What the scan of one journal reports: its frags where it found some,
/// nothing where it found none, and its error where it failed.
pub fn scan_outcome<E>(res: Result<Vec<Frag>, E>) -> (out: Option<Result<Vec<Frag>, E>>)
    ensures
        match res {
            Ok(frags) => if frags@.len() > 0 {
                out == Some(Ok::<Vec<Frag>, E>(frags))
            } else {
                out is None
            },
            Err(e) => out == Some(Err::<Vec<Frag>, E>(e)),
        },
{
    match res {
        Ok(frags) => if frags.len() > 0 {
            Some(Ok(frags))
        } else {
            None
        },
        Err(e) => Some(Err(e)),
    }
}

} // verus!
