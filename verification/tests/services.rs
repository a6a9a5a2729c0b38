use caph::account::asset::owners_to_query;
use caph::account::project::{
    blueprint_entry, blueprint_status, find_stored, required_products, ManufactureProduct, ProductMaterial,
    StoredAsset,
};
use caph::eve::type_data::TypeId;
use caph::services::character::{group_assets, CharacterAsset, EveAsset};
use caph::services::market::{
    order_counts, orders_of_side, previous_30_minute, top_subset, total_volume, OrderVolume,
};
use caph::services::region::{region_ids, routes_to_fetch, RegionId, RouteFlag};
use caph::services::resolve::{first_resolved, resolved_only, Resolve};
use caph::universe::{station_for, StationRow, UniverseError};

fn asset(item_id: u64, location_id: u64, flag: &str, quantity: u32, type_id: u32) -> EveAsset {
    EveAsset { item_id, location_id, location_flag: flag.to_string(), quantity, type_id }
}

#[test]
fn assets_are_grouped_by_type_and_location() {
    let assets = vec![
        asset(1, 100, "Hangar", 5, 34),
        asset(2, 200, "Cargo", 7, 35),
        asset(3, 100, "Deliveries", 10, 34),
        asset(4, 300, "Hangar", 1, 34),
    ];
    let groups = group_assets(&assets);
    assert_eq!(groups.len(), 2);
    let tritanium = &groups[0];
    assert_eq!(tritanium.type_id, 34);
    assert_eq!(tritanium.item_ids, vec![1, 3, 4]);
    assert_eq!(tritanium.quantity, 16);
    assert_eq!(tritanium.locations.len(), 2);
    assert_eq!(tritanium.locations[0].item_id, 100);
    assert_eq!(tritanium.locations[0].quantity, 15);
    assert_eq!(tritanium.locations[0].typ, "Hangar");
    assert_eq!(tritanium.locations[1].item_id, 300);
    assert_eq!(groups[1].type_id, 35);
    assert_eq!(groups[1].quantity, 7);
    assert!(group_assets(&Vec::new()).is_empty());
}

#[test]
fn single_asset_makes_a_group() {
    let a = asset(9, 8, "Hangar", 3, 7);
    let g = CharacterAsset::from_asset(&a);
    assert_eq!(g.item_ids, vec![9]);
    assert_eq!(g.quantity, 3);
    assert_eq!(g.locations.len(), 1);
    assert_eq!(g.locations[0].item_id, 8);
}

#[test]
fn history_slots_are_half_hours() {
    // 2021-01-01 10:55:00
    assert_eq!(previous_30_minute(1609498500), 1609498200 * 1000);
    // 10:25:13 -> 10:20
    assert_eq!(previous_30_minute(1609496713), 1609496400 * 1000);
    // 10:05:00 -> 09:50
    assert_eq!(previous_30_minute(1609495500), 1609494600 * 1000);
    // 00:10:00 -> 23:50 of the same day
    assert_eq!(previous_30_minute(1609459800), (1609459200 + 23 * 3600 + 50 * 60) * 1000);
    assert_eq!(previous_30_minute(87000), 172_200_000);
    assert_eq!(previous_30_minute(1200), 1_200_000);
}

#[test]
fn orders_are_split_by_side() {
    let sides = vec![true, false, true, true, false];
    assert_eq!(orders_of_side(&sides, true), vec![0, 2, 3]);
    assert_eq!(orders_of_side(&sides, false), vec![1, 4]);
    assert_eq!(order_counts(&sides), (3, 2));
    assert_eq!(order_counts(&Vec::new()), (0, 0));
}

#[test]
fn top_orders_take_the_first() {
    assert_eq!(top_subset(vec![5, 4, 3], 2), vec![5, 4]);
    assert_eq!(top_subset(vec![5, 4, 3], 3), vec![5, 4, 3]);
    assert_eq!(top_subset(vec![5, 4, 3], 7), vec![5, 4, 3]);
    assert_eq!(top_subset(Vec::<u8>::new(), 0), Vec::<u8>::new());
}

#[test]
fn volume_counts_the_chosen_orders() {
    let entries = vec![
        OrderVolume { order_id: 1, volume: 10 },
        OrderVolume { order_id: 2, volume: 20 },
        OrderVolume { order_id: 3, volume: 0 },
        OrderVolume { order_id: 1, volume: 5 },
    ];
    assert_eq!(total_volume(&entries, &vec![1, 3]), 15);
    assert_eq!(total_volume(&entries, &vec![2]), 20);
    assert_eq!(total_volume(&entries, &vec![]), 0);
    let big = vec![
        OrderVolume { order_id: 1, volume: u32::MAX },
        OrderVolume { order_id: 1, volume: u32::MAX },
    ];
    assert_eq!(total_volume(&big, &vec![1]), 2 * u32::MAX as u64);
}

#[test]
fn regions_and_routes() {
    let rows = vec![RegionId { region_id: 10000002 }, RegionId { region_id: -1 }];
    assert_eq!(region_ids(&rows), vec![10000002, u32::MAX]);
    assert_eq!(routes_to_fetch(0), vec![RouteFlag::Shortest, RouteFlag::Secure, RouteFlag::Insecure]);
    assert!(routes_to_fetch(3).is_empty());
}

#[test]
fn names_prefer_items() {
    let item = Resolve { id: 1, name: "Tritanium".to_string() };
    let other = Resolve { id: 1, name: "Jita".to_string() };
    assert_eq!(first_resolved(Some(item.clone()), Some(other.clone())).unwrap().name, "Tritanium");
    assert_eq!(first_resolved(None, Some(other.clone())).unwrap().name, "Jita");
    assert!(first_resolved(None, None).is_none());
    let found = resolved_only(vec![None, Some(item), None, Some(other)]);
    let names: Vec<String> = found.into_iter().map(|x| x.name).collect();
    assert_eq!(names, vec!["Tritanium".to_string(), "Jita".to_string()]);
}

fn station_row(pos: bool, character_id: Option<i32>) -> StationRow {
    StationRow {
        id: 60003760,
        system_id: 30000142,
        name: "Jita IV - Moon 4".to_string(),
        structure: "Station".to_string(),
        pos,
        character_id,
    }
}

#[test]
fn private_stations_belong_to_their_owner() {
    let own = station_for(7, Some(station_row(true, Some(7)))).unwrap().unwrap();
    assert_eq!(own.pos, Some(true));
    assert_eq!(own.id, 60003760);
    assert_eq!(station_for(8, Some(station_row(true, Some(7)))).unwrap_err(), UniverseError::NotFound);
    assert_eq!(station_for(8, Some(station_row(true, None))).unwrap_err(), UniverseError::NotFound);
    let public = station_for(8, Some(station_row(false, None))).unwrap().unwrap();
    assert_eq!(public.pos, Some(false));
    assert!(station_for(8, None).unwrap().is_none());
}

#[test]
fn owner_filter_narrows_the_characters() {
    assert_eq!(owners_to_query(vec![1, 2, 3], Some(2)), vec![2]);
    assert_eq!(owners_to_query(vec![1, 2, 3], None), vec![1, 2, 3]);
}

fn stored(type_id: u32, item_id: u64, quantity: u32) -> StoredAsset {
    StoredAsset { type_id: TypeId(type_id), item_id, quantity }
}

#[test]
fn required_products_show_what_is_stored() {
    let store = vec![stored(34, 1, 100), stored(35, 2, 7), stored(34, 3, 250)];
    assert_eq!(find_stored(&store, TypeId(34)).unwrap().item_id, 3);
    assert!(find_stored(&store, TypeId(36)).is_none());
    let products = vec![
        ManufactureProduct {
            pid: TypeId(35),
            bpid: TypeId(1035),
            quantity: 10,
            depth: 1,
            materials: vec![
                ProductMaterial { mid: TypeId(34), quantity: 300 },
                ProductMaterial { mid: TypeId(36), quantity: 3 },
            ],
        },
        ManufactureProduct { pid: TypeId(37), bpid: TypeId(1037), quantity: 2, depth: 0, materials: vec![] },
    ];
    let required = required_products(products, &store);
    assert_eq!(required.len(), 2);
    assert_eq!(required[0].stored, 7);
    assert_eq!(required[0].materials[0].stored, 250);
    assert_eq!(required[0].materials[1].stored, 0);
    assert_eq!(required[0].materials[0].quantity, 300);
    assert_eq!(required[1].stored, 0);
    assert_eq!(required[1].bpid, TypeId(1037));
}

#[test]
fn blueprint_status_and_entry() {
    let store = vec![stored(1035, 11, 1), stored(35, 2, 7)];
    let status = blueprint_status(TypeId(1035), TypeId(35), Some(TypeId(99)), &store);
    assert!(status.stored);
    assert_eq!(status.item_id, 11);
    assert!(status.product);
    assert!(!status.invention);
    let entry = blueprint_entry(TypeId(1035), status, Some((10, 20)));
    assert_eq!(entry.mat_eff, Some(10));
    assert_eq!(entry.time_eff, Some(20));
    let missing = blueprint_status(TypeId(2000), TypeId(35), None, &store);
    assert!(!missing.stored);
    assert_eq!(missing.item_id, 0);
    let entry = blueprint_entry(TypeId(2000), missing, Some((10, 20)));
    assert_eq!(entry.mat_eff, None);
    assert_eq!(entry.time_eff, None);
}

#[test]
fn character_links_point_to_the_image_server() {
    let c = caph::account::character::Character::new(
        "Goonswarm".to_string(),
        1354830081,
        "Pilot".to_string(),
        2112345678,
        "GoonWaffe".to_string(),
        667531913,
    );
    assert_eq!(c.alliance_icon, "https://images.evetech.net/alliances/1354830081/logo?size=1024");
    assert_eq!(c.character_icon, "https://images.evetech.net/characters/2112345678/portrait?size=1024");
    assert_eq!(c.corporation_icon, "https://images.evetech.net/corporations/667531913/logo?size=1024");
    assert_eq!(c.character_id, 2112345678);
    let zero = caph::account::character::Character::new(String::new(), 0, String::new(), 7, String::new(), 10);
    assert_eq!(zero.alliance_icon, "https://images.evetech.net/alliances/0/logo?size=1024");
    assert_eq!(zero.corporation_icon, "https://images.evetech.net/corporations/10/logo?size=1024");
}
