use pvped::frags::Frag;
use pvped::plot::PlotState;
use pvped::statistics::Statistics;
use pvped::time::{day_start, Timestamp};

fn at(secs: i64) -> Timestamp {
    Timestamp::new(secs, 0).unwrap()
}

fn kill(secs: i64, who: &str) -> Frag {
    Frag::kill(at(secs), None, None, who.to_string())
}

fn death(secs: i64, who: &str) -> Frag {
    Frag::death(at(secs), None, None, who.to_string())
}

const DAY: i64 = 86_400;

#[test]
fn statistics_start_empty() {
    let s = Statistics::new();
    assert_eq!(s.total_frags(), 0);
    assert_eq!(s.kills(), 0);
    assert_eq!(s.deaths(), 0);
    assert_eq!(s.unique_players(), 0);
    assert_eq!(s.first_frag(), None);
    assert_eq!(s.last_frag(), None);
}

#[test]
fn statistics_count_kills_deaths_players_and_span() {
    let mut s = Statistics::new();
    s.update(&[kill(50, "Bob"), death(10, "Eve"), kill(90, "Bob"), death(30, "Ann")]);
    assert_eq!(s.total_frags(), 4);
    assert_eq!(s.kills(), 2);
    assert_eq!(s.deaths(), 2);
    assert_eq!(s.unique_players(), 3);
    assert_eq!(s.first_frag(), Some(at(10)));
    assert_eq!(s.last_frag(), Some(at(90)));
}

#[test]
fn statistics_in_two_batches_equal_one_batch() {
    let all = vec![kill(5, "A"), death(3, "B"), kill(8, "B"), death(1, "C"), kill(2, "D")];
    let mut once = Statistics::new();
    once.update(&all);
    let mut twice = Statistics::new();
    twice.update(&all[..2]);
    twice.update(&all[2..]);
    assert_eq!(once.total_frags(), twice.total_frags());
    assert_eq!(once.kills(), twice.kills());
    assert_eq!(once.deaths(), twice.deaths());
    assert_eq!(once.unique_players(), twice.unique_players());
    assert_eq!(once.first_frag(), twice.first_frag());
    assert_eq!(once.last_frag(), twice.last_frag());
    assert_eq!(once.kills() + once.deaths(), once.total_frags());
    assert_eq!(once.unique_players(), 4);
}

#[test]
fn statistics_first_and_last_use_nanoseconds() {
    let mut s = Statistics::new();
    let a = Frag::kill(Timestamp::new(7, 9).unwrap(), None, None, "X".to_string());
    let b = Frag::kill(Timestamp::new(7, 3).unwrap(), None, None, "X".to_string());
    s.update(&[a, b]);
    assert_eq!(s.first_frag(), Timestamp::new(7, 3));
    assert_eq!(s.last_frag(), Timestamp::new(7, 9));
    assert_eq!(s.unique_players(), 1);
}

#[test]
fn plot_needs_two_days() {
    let mut p = PlotState::new();
    assert!(p.series().is_none());
    p.frags(vec![kill(10, "A"), kill(20, "B"), death(30, "C")]);
    assert!(p.series().is_none());
    p.frags(vec![death(DAY + 5, "C")]);
    let (kills, deaths) = p.series().unwrap();
    assert_eq!(kills, vec![(0, 2)]);
    assert_eq!(deaths, vec![(0, -1), (DAY, -1)]);
}

#[test]
fn plot_counts_per_day_in_order() {
    let mut p = PlotState::new();
    p.frags(vec![
        kill(3 * DAY + 1, "A"),
        kill(DAY + 7, "A"),
        kill(-5, "B"),
        kill(3 * DAY + 100, "C"),
        death(2 * DAY, "D"),
    ]);
    let (kills, deaths) = p.series().unwrap();
    assert_eq!(kills, vec![(-DAY, 1), (DAY, 1), (3 * DAY, 2)]);
    assert_eq!(deaths, vec![(2 * DAY, -1)]);
    assert_eq!(kills[2].0, day_start(at(3 * DAY).day()));
}

#[test]
fn statistics_batches_in_either_order() {
    let a = vec![kill(40, "A"), death(7, "B")];
    let b = vec![kill(3, "C"), kill(90, "A"), death(55, "D")];
    let mut ab = Statistics::new();
    ab.update(&a);
    ab.update(&b);
    let mut ba = Statistics::new();
    ba.update(&b);
    ba.update(&a);
    assert_eq!(ab.total_frags(), ba.total_frags());
    assert_eq!(ab.kills(), ba.kills());
    assert_eq!(ab.deaths(), ba.deaths());
    assert_eq!(ab.unique_players(), ba.unique_players());
    assert_eq!(ab.first_frag(), ba.first_frag());
    assert_eq!(ab.last_frag(), ba.last_frag());
    assert_eq!(ab.first_frag(), Some(at(3)));
    assert_eq!(ab.last_frag(), Some(at(90)));
}

#[test]
fn plot_ignores_order_of_frags() {
    let mut p1 = PlotState::new();
    p1.frags(vec![kill(10, "A"), death(DAY + 1, "B"), kill(2 * DAY, "C"), kill(20, "D")]);
    let mut p2 = PlotState::new();
    p2.frags(vec![kill(2 * DAY, "C"), kill(20, "D"), death(DAY + 1, "B"), kill(10, "A")]);
    assert_eq!(p1.series(), p2.series());
}
