use pvped::files::JournalFile;
use pvped::frags::Frag;
use pvped::settings::{Settings, SettingsData};
use pvped::state::{journals_listed, MainMessage, MainState, MainTask, Message, Screen, SettingsMessage, SettingsState, SettingsTask, State};
use pvped::time::Timestamp;
use std::path::PathBuf;

fn settings() -> Settings {
    Settings::new(
        PathBuf::from("/cfg/settings.json"),
        SettingsData { journals_path: PathBuf::from("/games/journals") },
    )
}

fn kill(secs: i64) -> Frag {
    Frag::kill(Timestamp::new(secs, 0).unwrap(), None, None, "Bob".to_string())
}

#[test]
fn settings_get_and_set_journals_path() {
    let mut s = settings();
    assert_eq!(s.journals_path(), PathBuf::from("/games/journals"));
    s.set_journals_path(PathBuf::from("/elsewhere"));
    assert_eq!(s.journals_path(), PathBuf::from("/elsewhere"));
    assert_eq!(s.path(), PathBuf::from("/cfg/settings.json"));
    assert_eq!(s.data().journals_path, PathBuf::from("/elsewhere"));
}

#[test]
fn settings_screen_picks_directory_or_sends_back() {
    let mut s = SettingsState::new();
    assert!(matches!(s.update(SettingsMessage::ChooseJournalsPath), SettingsTask::PickDirectory));
    assert!(matches!(s.update(SettingsMessage::Back), SettingsTask::Send(SettingsMessage::Back)));
    match s.update(SettingsMessage::ChangeJournalsPath(Some(PathBuf::from("/x")))) {
        SettingsTask::Send(SettingsMessage::ChangeJournalsPath(Some(p))) => assert_eq!(p, PathBuf::from("/x")),
        other => panic!("unexpected {other:?}"),
    }
}

#[test]
fn main_scan_lists_journals_directory() {
    let mut m = MainState::new();
    assert!(m.can_scan());
    match m.update(&settings(), MainMessage::Scan) {
        MainTask::ListJournals(p) => assert_eq!(p, PathBuf::from("/games/journals")),
        other => panic!("unexpected {other:?}"),
    }
}

#[test]
fn listed_journals_are_ordered_newest_first() {
    let files = vec![
        JournalFile { name: Some(b"Journal.1.log".to_vec()), path: PathBuf::from("/j/Journal.1.log") },
        JournalFile { name: Some(b"Journal.3.log".to_vec()), path: PathBuf::from("/j/Journal.3.log") },
        JournalFile { name: Some(b"Journal.2.log".to_vec()), path: PathBuf::from("/j/Journal.2.log") },
    ];
    let message = journals_listed::<String>(Ok(files));
    let mut m = MainState::new();
    match m.update(&settings(), message) {
        MainTask::ScanJournals(sorted) => {
            let paths: Vec<PathBuf> = sorted.into_iter().map(|f| f.path).collect();
            assert_eq!(
                paths,
                vec![
                    PathBuf::from("/j/Journal.3.log"),
                    PathBuf::from("/j/Journal.2.log"),
                    PathBuf::from("/j/Journal.1.log")
                ]
            );
        }
        other => panic!("unexpected {other:?}"),
    }
}

#[test]
fn journals_message_is_scanned_as_given() {
    let files = vec![
        JournalFile { name: Some(b"a.log".to_vec()), path: PathBuf::from("/j/a.log") },
        JournalFile { name: Some(b"b.log".to_vec()), path: PathBuf::from("/j/b.log") },
    ];
    let mut m = MainState::new();
    match m.update(&settings(), MainMessage::Journals(files)) {
        MainTask::ScanJournals(list) => {
            let paths: Vec<PathBuf> = list.into_iter().map(|f| f.path).collect();
            assert_eq!(paths, vec![PathBuf::from("/j/a.log"), PathBuf::from("/j/b.log")]);
        }
        other => panic!("unexpected {other:?}"),
    }
}

#[test]
fn failed_listing_is_an_error() {
    assert!(matches!(journals_listed::<String>(Err("no dir".to_string())), MainMessage::Error));
}

#[test]
fn main_frags_accumulate_and_draw() {
    let mut m = MainState::new();
    assert!(matches!(m.update(&settings(), MainMessage::Frags(vec![])), MainTask::Nothing));
    assert!(matches!(m.update(&settings(), MainMessage::Frags(vec![kill(10)])), MainTask::Nothing));
    assert!(!m.can_scan());
    match m.update(&settings(), MainMessage::Frags(vec![kill(86_400 + 10), kill(20)])) {
        MainTask::DrawPlot(kills, deaths) => {
            assert_eq!(kills, vec![(0, 2), (86_400, 1)]);
            assert!(deaths.is_empty());
        }
        other => panic!("unexpected {other:?}"),
    }
    assert_eq!(m.frags().len(), 3);
    assert_eq!(m.statistics().total_frags(), 3);
    assert_eq!(m.statistics().kills(), 3);
    assert!(matches!(m.update(&settings(), MainMessage::Error), MainTask::Nothing));
    assert!(matches!(m.update(&settings(), MainMessage::Settings), MainTask::Nothing));
    assert_eq!(m.frags().len(), 3);
}

#[test]
fn state_switches_screens() {
    let s = settings();
    let mut state = State::new();
    assert_eq!(state.screen(), Screen::Main);
    assert!(matches!(state.update(&s, Message::Main(MainMessage::Settings)), MainTask::Nothing));
    assert_eq!(state.screen(), Screen::Settings);
    assert!(matches!(state.update(&s, Message::Settings(SettingsMessage::Back)), MainTask::Nothing));
    assert_eq!(state.screen(), Screen::Settings);
    assert!(matches!(state.update(&s, Message::Screen(Screen::Main)), MainTask::Nothing));
    assert_eq!(state.screen(), Screen::Main);
    assert!(matches!(state.update(&s, Message::Main(MainMessage::Scan)), MainTask::ListJournals(_)));
    state.update(&s, Message::Main(MainMessage::Frags(vec![kill(5)])));
    assert_eq!(state.main().frags().len(), 1);
}
