use pvped::frags::{Frag, Target};
use pvped::ship::Ship;
use pvped::time::Timestamp;

fn ship(ship_type: &str, display: &str, name: Option<&str>) -> Ship {
    Ship {
        ship_type: ship_type.to_string(),
        ship_display: display.to_string(),
        ship_name: name.map(|n| n.to_string()),
        ship_id: None,
    }
}

#[test]
fn display_name_uses_displayed_type_and_name() {
    assert_eq!(ship("krait_mkii", "Krait Mk II", Some("Nomad")).display_name(), "Krait Mk II (Nomad)");
}

#[test]
fn display_name_falls_back_to_type() {
    assert_eq!(ship("federation_corvette", "", None).display_name(), "federation_corvette");
    assert_eq!(ship("fer_de_lance", "", Some("X")).display_name(), "fer_de_lance (X)");
}

#[test]
fn clone_keeps_ship() {
    let s = ship("a", "b", Some("c"));
    assert_eq!(s.clone(), s);
}

#[test]
fn kill_and_death_are_told_apart() {
    let t = Timestamp::new(1_000, 0).unwrap();
    let k = Frag::kill(t, Some("Sol".to_string()), None, "Bob".to_string());
    assert!(k.is_kill());
    assert_eq!(k.killer, Target::You);
    assert_eq!(k.victim, Target::Player("Bob".to_string()));
    let d = Frag::death(t, None, Some(ship("a", "", None)), "Eve".to_string());
    assert!(!d.is_kill());
    assert_eq!(d.killer, Target::Player("Eve".to_string()));
    assert_eq!(d.victim, Target::You);
    assert_eq!(d.star_system, None);
}
