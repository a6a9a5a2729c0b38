use caph::account::corporation::{blueprint_ids_to_delete, shared_blueprints, CorporationBlueprintOwner};
use caph::account::project::{owned_project, project_if_owner, ProjectAccessError};
use caph::eve::type_data::TypeId;
use caph::project::bonus::BlueprintTyp;
use caph::project::planner::{product_type_ids, tree_products, PlannedDependency};
use caph::project::service::{invention_entries, InventionRow};
use caph::time::{Time, MAX_TIMESTAMP};

#[test]
fn clock_readings_become_timestamps() {
    assert_eq!(Time::from_epoch_secs(Some(86100)).datetime_next_market(), 86400);
    assert_eq!(Time::from_epoch_secs(None).datetime_next_market(), 900);
    let late = Time::from_epoch_secs(Some(u64::MAX));
    let at_end = Time::from_epoch_secs(Some(MAX_TIMESTAMP as u64));
    assert_eq!(late.datetime_next_market(), at_end.datetime_next_market());
    let now = Time::default();
    assert!(now.seconds_next_market() >= 1 && now.seconds_next_market() <= 900);
}

#[test]
fn projects_belong_to_their_owner() {
    assert_eq!(project_if_owner("p", 7, 7), Some("p"));
    assert_eq!(project_if_owner("p", 7, 8), None);
    assert_eq!(owned_project("p", 7, 7), Ok("p"));
    assert_eq!(owned_project("p", 7, 8), Err(ProjectAccessError::InvalidUser));
}

#[test]
fn corporation_blueprints_by_owner() {
    let e = |id: u128, c: u32, k: u32| CorporationBlueprintOwner { id, char_id: c, corp_id: k };
    let entries = vec![e(1, 10, 100), e(2, 11, 100), e(3, 10, 101), e(4, 10, 100)];
    assert_eq!(shared_blueprints(&entries, 10, 100), vec![0, 3]);
    assert_eq!(blueprint_ids_to_delete(&entries, 10, 100), vec![1, 4]);
    assert!(blueprint_ids_to_delete(&entries, 12, 100).is_empty());
}

fn row(itype_id: i32, mtype_id: i32, quantity: i64) -> InventionRow {
    InventionRow {
        itype_id,
        time: 6000,
        iname: format!("item {}", itype_id),
        mtype_id,
        quantity,
        dname: format!("datacore {}", mtype_id),
        dgroup_id: 333,
    }
}

#[test]
fn inventions_collect_their_datacores() {
    let rows = vec![row(5, 20411, 2), row(6, 20412, 3), row(5, 20418, 4)];
    let entries = invention_entries(&rows);
    assert_eq!(entries.len(), 2);
    assert_eq!(entries[0].type_id, TypeId(5));
    assert_eq!(entries[0].name, "item 5");
    assert_eq!(entries[0].time_per_run, 6000);
    assert_eq!(entries[0].first_row, 0);
    assert_eq!(entries[0].materials.len(), 2);
    assert_eq!(entries[0].materials[1].type_id, TypeId(20418));
    assert_eq!(entries[0].materials[1].quantity, 4);
    assert_eq!(entries[0].materials[1].name, "datacore 20418");
    assert_eq!(entries[1].first_row, 1);
    assert!(invention_entries(&Vec::new()).is_empty());
}

fn planned(ptype_id: u32, typ: BlueprintTyp, components: Vec<PlannedDependency>) -> PlannedDependency {
    PlannedDependency { ptype_id, btype_id: ptype_id + 1, produces: 1, typ, components }
}

#[test]
fn fuel_block_components_stay_out_of_the_tree() {
    let block = planned(4312, BlueprintTyp::Blueprint, vec![planned(17887, BlueprintTyp::Material, vec![])]);
    let reaction = planned(16654, BlueprintTyp::Reaction, vec![block, planned(16638, BlueprintTyp::Material, vec![])]);
    let ship = planned(1, BlueprintTyp::Blueprint, vec![reaction, planned(16638, BlueprintTyp::Material, vec![])]);
    let mut ids = tree_products(&ship);
    ids.sort();
    assert_eq!(ids, vec![1, 4312, 16638, 16654]);
    let entries = vec![(1, BlueprintTyp::Blueprint), (16654, BlueprintTyp::Reaction), (4312, BlueprintTyp::Blueprint), (16638, BlueprintTyp::Material)];
    assert_eq!(product_type_ids(&entries), vec![1, 4312, 16638]);
}
