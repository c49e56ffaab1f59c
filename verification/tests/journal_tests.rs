use pvped::frags::{Frag, Target};
use pvped::journals::{scan_journal, scan_outcome, strip_cmdr, JournalEntry, JournalEvent};
use pvped::ship::Ship;
use pvped::time::Timestamp;

fn at(secs: i64) -> Timestamp {
    Timestamp::new(secs, 0).unwrap()
}

fn entry(secs: i64, event: JournalEvent) -> JournalEntry {
    JournalEntry { timestamp: at(secs), event }
}

fn krait() -> Ship {
    Ship {
        ship_type: "krait_mkii".to_string(),
        ship_display: "Krait Mk II".to_string(),
        ship_name: Some("Nomad".to_string()),
        ship_id: Some("KR-01".to_string()),
    }
}

#[test]
fn strip_cmdr_removes_prefix_once() {
    assert_eq!(strip_cmdr("Cmdr Jameson"), "Jameson");
    assert_eq!(strip_cmdr("Cmdr Cmdr X"), "Cmdr X");
    assert_eq!(strip_cmdr("Jameson"), "Jameson");
    assert_eq!(strip_cmdr("Cmdr"), "Cmdr");
    assert_eq!(strip_cmdr("cmdr Jameson"), "cmdr Jameson");
    assert_eq!(strip_cmdr("Cmdr "), "");
    assert_eq!(strip_cmdr(""), "");
    assert_eq!(strip_cmdr("Cmdr Ünïcode"), "Ünïcode");
}

#[test]
fn scan_empty_journal() {
    assert!(scan_journal(&vec![]).is_empty());
}

#[test]
fn scan_kill_carries_ship_and_system() {
    let entries = vec![
        entry(1, JournalEvent::Loadout(krait())),
        entry(2, JournalEvent::Location("Sol".to_string())),
        entry(3, JournalEvent::FsdJump("Achenar".to_string())),
        entry(4, JournalEvent::Other),
        entry(5, JournalEvent::PvpKill("Bob".to_string())),
    ];
    let frags = scan_journal(&entries);
    assert_eq!(
        frags,
        vec![Frag::kill(at(5), Some("Achenar".to_string()), Some(krait()), "Bob".to_string())]
    );
}

#[test]
fn scan_kill_before_any_context() {
    let entries = vec![entry(7, JournalEvent::PvpKill("Cmdr Bob".to_string()))];
    // The victim of a kill is kept as the journal writes it.
    assert_eq!(scan_journal(&entries), vec![Frag::kill(at(7), None, None, "Cmdr Bob".to_string())]);
}

#[test]
fn scan_death_by_player() {
    let entries = vec![
        entry(1, JournalEvent::Location("Shinrarta Dezhra".to_string())),
        entry(2, JournalEvent::Died { killer_name: Some("Cmdr Eve".to_string()), killers: None }),
    ];
    assert_eq!(
        scan_journal(&entries),
        vec![Frag::death(at(2), Some("Shinrarta Dezhra".to_string()), None, "Eve".to_string())]
    );
}

#[test]
fn scan_death_by_npc_is_skipped() {
    let entries = vec![entry(
        2,
        JournalEvent::Died { killer_name: Some("Pirate Lord".to_string()), killers: None },
    )];
    assert!(scan_journal(&entries).is_empty());
}

#[test]
fn scan_death_by_wing_takes_first_killer() {
    let entries = vec![
        entry(
            3,
            JournalEvent::Died {
                killer_name: None,
                killers: Some(vec!["Cmdr Ann".to_string(), "Cmdr Ben".to_string()]),
            },
        ),
        entry(4, JournalEvent::Died { killer_name: None, killers: Some(vec![]) }),
        entry(5, JournalEvent::Died { killer_name: None, killers: None }),
    ];
    assert_eq!(scan_journal(&entries), vec![Frag::death(at(3), None, None, "Ann".to_string())]);
}

#[test]
fn scan_named_killer_wins_over_wing() {
    // A single named killer decides, even when it is no player.
    let entries = vec![entry(
        3,
        JournalEvent::Died {
            killer_name: Some("Thargoid".to_string()),
            killers: Some(vec!["Cmdr Ann".to_string()]),
        },
    )];
    assert!(scan_journal(&entries).is_empty());
}

#[test]
fn scan_killer_name_with_cmdr_inside() {
    let entries = vec![entry(
        9,
        JournalEvent::Died { killer_name: Some("Wing Cmdr Jo".to_string()), killers: None },
    )];
    assert_eq!(
        scan_journal(&entries),
        vec![Frag::death(at(9), None, None, "Wing Cmdr Jo".to_string())]
    );
}

#[test]
fn scan_uses_latest_ship_and_system() {
    let mut other = krait();
    other.ship_name = None;
    let entries = vec![
        entry(1, JournalEvent::Loadout(krait())),
        entry(2, JournalEvent::PvpKill("A".to_string())),
        entry(3, JournalEvent::Loadout(other.clone())),
        entry(4, JournalEvent::FsdJump("Lave".to_string())),
        entry(5, JournalEvent::Died { killer_name: Some("Cmdr B".to_string()), killers: None }),
    ];
    assert_eq!(
        scan_journal(&entries),
        vec![
            Frag::kill(at(2), None, Some(krait()), "A".to_string()),
            Frag::death(at(5), Some("Lave".to_string()), Some(other), "B".to_string()),
        ]
    );
}

#[test]
fn scan_outcome_drops_empty_results() {
    let none: Result<Vec<Frag>, String> = Ok(vec![]);
    assert!(scan_outcome(none).is_none());
    let err: Result<Vec<Frag>, String> = Err("broken".to_string());
    assert_eq!(scan_outcome(err), Some(Err("broken".to_string())));
    let some: Result<Vec<Frag>, String> = Ok(vec![Frag::kill(at(1), None, None, "X".to_string())]);
    let out = scan_outcome(some).unwrap().unwrap();
    assert_eq!(out.len(), 1);
    assert_eq!(out[0].victim, Target::Player("X".to_string()));
}

#[test]
fn scan_ignores_other_events() {
    let with_others = vec![
        entry(1, JournalEvent::Other),
        entry(2, JournalEvent::Loadout(krait())),
        entry(3, JournalEvent::Other),
        entry(4, JournalEvent::PvpKill("Bob".to_string())),
        entry(5, JournalEvent::Other),
    ];
    let without = vec![entry(2, JournalEvent::Loadout(krait())), entry(4, JournalEvent::PvpKill("Bob".to_string()))];
    assert_eq!(scan_journal(&with_others), scan_journal(&without));
    assert_eq!(scan_journal(&without).len(), 1);
}
