//! Stations of the universe, and the private ones that characters add.

use vstd::prelude::*;

verus! {

/// A station, or a private structure that a character added.
#[derive(Clone, Debug)]
pub struct Station {
    pub id: i64,
    pub system_id: i64,
    pub name: String,
    pub structure: String,
    pub pos: Option<bool>,
}

/// A solar system.
#[derive(Clone, Debug)]
pub struct System {
    pub id: i64,
    pub name: String,
}

/// A station as the station table stores it, with the character that
/// added it, if any.
#[derive(Clone, Debug)]
pub struct StationRow {
    pub id: i64,
    pub system_id: i64,
    pub name: String,
    pub structure: String,
    pub pos: bool,
    pub character_id: Option<i32>,
}

/// Why a station cannot be shown.
#[derive(Clone, Copy, Debug, PartialEq, Eq, Structural)]
pub enum UniverseError {
    /// The station is a private one of another character.
    NotFound,
}

/// The station `row` as the character `cid` may see it: a private
/// structure only for the character that added it, where a public station
/// is for everyone; no row gives no station.
pub fn station_for(cid: i32, row: Option<StationRow>) -> (r: Result<Option<Station>, UniverseError>)
    ensures
        row is None ==> r == Ok::<Option<Station>, UniverseError>(None),
        row matches Some(e) ==> if e.pos && e.character_id != Some(cid) {
            r == Err::<Option<Station>, UniverseError>(UniverseError::NotFound)
        } else {
            r matches Ok(Some(s)) && s.id == e.id && s.system_id == e.system_id && s.name == e.name
                && s.structure == e.structure && s.pos == Some(e.pos)
        },
{
    match row {
        Some(e) => {
            let owned = match e.character_id {
                Some(c) => c == cid,
                None => false,
            };
            if e.pos && !owned {
                return Err(UniverseError::NotFound);
            }
            Ok(Some(Station {
                id: e.id,
                system_id: e.system_id,
                name: e.name,
                structure: e.structure,
                pos: Some(e.pos),
            }))
        },
        None => Ok(None),
    }
}

} // verus!
