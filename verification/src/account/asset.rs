//! Blueprints and materials of all characters of an account.

use vstd::prelude::*;

verus! {

/// A kind of blueprint that the characters of an account own, with the
/// characters and items that hold it.
#[derive(Clone, Debug)]
pub struct AccountBlueprint {
    pub type_id: i32,
    pub owners: Vec<i32>,
    pub item_ids: Vec<i64>,
    pub material_efficiency: i32,
    pub time_efficiency: i32,
    pub quantity: i32,
    pub count: i64,
    pub runs: i32,
    pub name: String,
}

/// A material that a blueprint needs, or the product that it makes.
#[derive(Clone, Debug)]
pub struct BlueprintMaterial {
    pub type_id: i32,
    pub activity: i16,
    pub quantity: i32,
    pub is_product: bool,
    pub name: String,
}

/// A single blueprint that a character owns.
#[derive(Clone, Debug)]
pub struct CharacterBlueprint {
    pub type_id: i32,
    pub item_id: i64,
    pub material_efficiency: i32,
    pub time_efficiency: i32,
    pub quantity: i32,
    pub runs: i32,
    pub name: String,
}

/// The characters whose assets a query covers: the one that the filter
/// names, or else all characters of the account.
pub fn owners_to_query(characters: Vec<i32>, owner: Option<i32>) -> (r: Vec<i32>)
    ensures
        owner is Some ==> r@ == seq![owner->0],
        owner is None ==> r@ == characters@,
{
    match owner {
        Some(x) => {
            let mut r: Vec<i32> = Vec::new();
            r.push(x);
            r
        },
        None => characters,
    }
}

} // verus!
