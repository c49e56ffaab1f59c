//! The ship that the commander flew, as the journal's `Loadout` event names it.

use vstd::prelude::*;

verus! {

/// A ship: its internal type, the localised type name the game displays
/// (empty where the journal gives none), the name the commander gave it and
/// its identifier.
#[derive(Debug, PartialEq, Eq)]
pub struct Ship {
    pub ship_type: String,
    pub ship_display: String,
    pub ship_name: Option<String>,
    pub ship_id: Option<String>,
}

impl Clone for Ship {
    fn clone(&self) -> (res: Self)
        ensures
            res == *self,
    {
        Ship {
            ship_type: self.ship_type.clone(),
            ship_display: self.ship_display.clone(),
            ship_name: self.ship_name.clone(),
            ship_id: self.ship_id.clone(),
        }
    }
}

/// The text shown for a ship: the displayed type name, or the internal type
/// where the displayed one is empty, followed by ` (name)` where the ship has
/// a name.
pub open spec fn ship_label(ship: Ship) -> Seq<char> {
    let base = if ship.ship_display@.len() != 0 {
        ship.ship_display@
    } else {
        ship.ship_type@
    };
    match ship.ship_name {
        Some(name) => base + " ("@ + name@ + ")"@,
        None => base,
    }
}

/// A ship's label begins with its displayed type name whenever that name is
/// not empty, and with its internal type only when it is, whether or not the
/// ship has a name; a named ship's label is longer by the name and the three
/// characters ` (` and `)`, an unnamed ship's label is exactly that beginning.
pub proof fn lemma_label_shape(ship: Ship)
    ensures
        ship.ship_display@.len() > 0 ==> ship_label(ship).take(ship.ship_display@.len() as int)
            == ship.ship_display@,
        ship.ship_display@.len() == 0 ==> ship_label(ship).take(ship.ship_type@.len() as int)
            == ship.ship_type@,
        ship.ship_name is None && ship.ship_display@.len() > 0 ==> ship_label(ship)
            == ship.ship_display@,
        ship.ship_name is None && ship.ship_display@.len() == 0 ==> ship_label(ship)
            == ship.ship_type@,
        ship.ship_name matches Some(name) ==> ship_label(ship).len() == name@.len() + 3 + (
        if ship.ship_display@.len() > 0 {
            ship.ship_display@.len()
        } else {
            ship.ship_type@.len()
        }),
{
    reveal_strlit(" (");
    reveal_strlit(")");
    let base = if ship.ship_display@.len() != 0 {
        ship.ship_display@
    } else {
        ship.ship_type@
    };
    if let Some(name) = ship.ship_name {
        assert((base + " ("@ + name@ + ")"@).take(base.len() as int) =~= base);
    } else {
        assert(base.take(base.len() as int) =~= base);
    }
}

impl Ship {
    /// The text that represents the ship on screen (see `ship_label`).
    pub fn display_name(&self) -> (res: String)
        ensures
            res@ == ship_label(*self),
    {
        let mut label = if !self.ship_display.as_str().is_empty() {
            self.ship_display.clone()
        } else {
            self.ship_type.clone()
        };
        if let Some(name) = &self.ship_name {
            label.append(" (");
            label.append(name.as_str());
            label.append(")");
        }
        label
    }
}

} // verus!
