use caph::database::blueprint::{blueprint_entry, ActivityManufactoring, Material as BlueprintMaterial, TimeModel};
use caph::eve::group_data::GroupId;
use caph::eve::region_data::RegionId;
use caph::eve::type_data::TypeId;
use caph::eve::{parse_u8, Eve};
use caph::project::blueprints::{blueprints_to_import, required_type_ids, OwnedBlueprint};
use caph::project::bonus::{covering_rig, mapped_structure, structure_by_id, BonusTyp, RigCoverage, StructureMapping};
use caph::project::dependency::Dependency;
use caph::project::legacy_structure::{StructureRig as LegacyRig, StructureSize, StructureType as LegacyType};
use caph::project::service::{invention_groups, Material, Product, ProductConfig};
use caph::project::storage::{Modify, ModifyMode, ModifyRequest};
use caph::structure::{
    installed_rigs, last_bonus_row, RigDogmaRow, Security, Structure, StructureBonusModifier, StructureRig, StructureType,
};
use caph::time::Time;
use caph::timed_cache::TimedCache;
use caph::tools::best_price::BestPrice;
use caph::utils::{generate_secure_token, recreate_secure_token, secure_token_for_key, TokenError};

#[test]
fn page_count_reads_the_header() {
    let eve = Eve;
    assert_eq!(eve.page_count(Some("12".as_bytes())), 12);
    assert_eq!(eve.page_count(Some("+7".as_bytes())), 7);
    assert_eq!(eve.page_count(Some("255".as_bytes())), 255);
    assert_eq!(eve.page_count(Some("256".as_bytes())), 0);
    assert_eq!(eve.page_count(Some("".as_bytes())), 0);
    assert_eq!(eve.page_count(Some("+".as_bytes())), 0);
    assert_eq!(eve.page_count(Some("-1".as_bytes())), 0);
    assert_eq!(eve.page_count(Some("1a".as_bytes())), 0);
    assert_eq!(eve.page_count(None), 0);
    assert_eq!(parse_u8(b"007"), Some(7));
    for n in 0..=255u32 {
        assert_eq!(parse_u8(n.to_string().as_bytes()), Some(n as u8));
        assert_eq!(parse_u8(n.to_string().as_bytes()), n.to_string().parse::<u8>().ok());
    }
}

#[test]
fn best_price_settings() {
    let search = BestPrice::new(RegionId(10000002));
    assert_eq!(search.cargo_capacity(), None);
    assert_eq!(search.region(), RegionId(10000002));
    let search = search.cargo_size(3000);
    assert_eq!(search.cargo_capacity(), Some(3000));
    assert_eq!(search.region(), RegionId(10000002));
}

#[test]
fn tokens_check_out() {
    let secret = b"my secret";
    let (token, hashed) = generate_secure_token(secret).unwrap();
    assert_ne!(token, hashed);
    assert_eq!(recreate_secure_token(secret, &token).unwrap(), hashed);
    assert_ne!(recreate_secure_token(b"another secret", &token).unwrap(), hashed);
    assert_eq!(recreate_secure_token(secret, "not base64!").unwrap_err(), TokenError::InvalidBase64);
    let (token2, _) = generate_secure_token(secret).unwrap();
    assert_eq!(token.len(), token2.len());
    assert_ne!(token, token2);
    let mut key = base64::decode(&token).unwrap();
    key.sort();
    assert_eq!(key, (0..255).collect::<Vec<u8>>());
    let (t, h) = secure_token_for_key(b"key", b"").unwrap();
    assert_eq!(t, "");
    assert_eq!(h, "XV0TlWPJW1lnub2ajJsjOp3ttFByeUzSMtwbdIMmB9A=");
    // an empty key encodes to the empty text
    assert_eq!(
        recreate_secure_token(b"key", "").unwrap(),
        "XV0TlWPJW1lnub2ajJsjOp3ttFByeUzSMtwbdIMmB9A="
    );
}

#[test]
fn next_market_run_is_on_the_quarter() {
    // 2021-01-01 10:07:30
    let t = Time::new(1609459200 + 10 * 3600 + 7 * 60 + 30);
    assert_eq!(t.datetime_next_market(), 1609459200 + 10 * 3600 + 15 * 60);
    assert_eq!(t.seconds_next_market(), 450);
    assert_eq!(t.duration_next_market().as_secs(), 450);
    // 10:15:00 counts into the next quarter
    let t = Time::new(1609459200 + 10 * 3600 + 15 * 60);
    assert_eq!(t.seconds_next_market(), 900);
    // 10:50:00 goes to the full hour
    let t = Time::new(1609459200 + 10 * 3600 + 50 * 60);
    assert_eq!(t.datetime_next_market(), 1609459200 + 11 * 3600);
    // 23:50:00 goes to midnight of the next day
    let t = Time::new(1609459200 + 23 * 3600 + 50 * 60);
    assert_eq!(t.datetime_next_market(), 1609459200 + 86400);
    assert_eq!(t.seconds_next_market(), 600);
    // 1970-01-01 23:55:00
    let t = Time::new(86100);
    assert_eq!(t.datetime_next_market(), 86400);
    assert_eq!(t.duration_next_market().as_secs(), 300);
}

#[test]
fn timed_cache_gives_out_live_entries() {
    let mut cache: TimedCache<u32, &str> = TimedCache::new();
    cache.insert_at(1, "a", 0);
    cache.insert_at(2, "b", 10);
    assert_eq!(cache.get_at(1, 43_200_000_000_000), Some(&"a"));
    assert_eq!(cache.get_at(1, 43_200_000_000_001), None);
    assert_eq!(cache.get_at(2, 43_200_000_000_001), Some(&"b"));
    cache.insert_at(3, "c", 43_200_000_000_001);
    assert_eq!(cache.get_at(1, 0), None);
    assert_eq!(cache.get_at(2, 0), Some(&"b"));
    cache.remove_expired_at(43_200_000_000_011);
    assert_eq!(cache.get_at(2, 0), None);
    assert_eq!(cache.get_at(3, 0), Some(&"c"));
    cache.insert(4, "d");
    assert_eq!(cache.get(4), Some(&"d"));
    assert_eq!(cache.get(5), None);
    cache.remove_expired();
    assert_eq!(cache.get(4), Some(&"d"));
}

#[test]
fn structure_kinds_and_rigs() {
    assert_eq!(StructureType::from(35835), StructureType::Athanor);
    assert_eq!(StructureType::from(35827), StructureType::Sotiyo);
    assert_eq!(StructureType::from(1), StructureType::Invalid);
    assert_eq!(LegacyType::Tatara.size(), StructureSize::L);
    assert_eq!(LegacyType::Sotiyo.size(), StructureSize::XL);
    assert_eq!(LegacyType::Raitaru.size(), StructureSize::M);
    assert!(LegacyRig::ReactorEfficiencyII.has_group(429));
    assert!(!LegacyRig::ReactorEfficiencyII.has_group(873));
    assert!(LegacyRig::CapitalComponentManufacturingEfficiencyI.has_group(873));

    let rigs = vec![
        StructureRig { category_groups: vec![4, 428] },
        StructureRig { category_groups: vec![6] },
        StructureRig { category_groups: vec![] },
    ];
    assert!(rigs[0].has_category_or_group(428));
    assert!(!rigs[1].has_category_or_group(428));
    assert!(rigs[2].has_category_or_group(12345));
    let s = Structure::new(7, "Sotiyo".to_string(), "Jita".to_string(), Security::Nullsec, StructureType::Sotiyo, rigs);
    assert_eq!(s.category_groups(), vec![4, 428, 6]);
    assert_eq!(s.rig_for(6, 999), Some(1));
    assert_eq!(s.rig_for(4, 999), Some(0));
    assert_eq!(s.rig_for(18, 999), Some(2));

    let mapping = vec![
        StructureMapping { structure: 1, category_group: vec![6, 7] },
        StructureMapping { structure: 2, category_group: vec![428] },
    ];
    assert_eq!(mapped_structure(&mapping, 4, 428), Some(2));
    assert_eq!(mapped_structure(&mapping, 7, 428), Some(1));
    assert_eq!(mapped_structure(&mapping, 1, 2), None);
    assert_eq!(structure_by_id(&vec![s], 7), Some(0));
}

#[test]
fn rigs_cover_kinds_and_groups() {
    let rigs = vec![
        RigCoverage { typ: BonusTyp::Reaction, categories: vec![], groups: vec![] },
        RigCoverage { typ: BonusTyp::Blueprint, categories: vec![7], groups: vec![] },
        RigCoverage { typ: BonusTyp::Blueprint, categories: vec![], groups: vec![] },
    ];
    assert_eq!(covering_rig(&rigs, BonusTyp::Blueprint, 7, 1), Some(1));
    assert_eq!(covering_rig(&rigs, BonusTyp::Blueprint, 6, 1), Some(2));
    assert_eq!(covering_rig(&rigs, BonusTyp::Reaction, 6, 1), Some(0));
    assert_eq!(covering_rig(&rigs, BonusTyp::Material, 6, 1), None);
    assert!(rigs[1].covers(BonusTyp::Blueprint, 7, 0));
    assert!(!rigs[1].covers(BonusTyp::Reaction, 7, 0));
}

#[test]
fn owned_blueprints_are_imported_once() {
    let owned = vec![
        OwnedBlueprint { type_id: TypeId(1), material_efficiency: 10, time_efficiency: 20, runs: -1 },
        OwnedBlueprint { type_id: TypeId(2), material_efficiency: 0, time_efficiency: 0, runs: 5 },
        OwnedBlueprint { type_id: TypeId(1), material_efficiency: 2, time_efficiency: 4, runs: 3 },
    ];
    let entries = blueprints_to_import(&vec![TypeId(1), TypeId(3), TypeId(1)], &owned);
    assert_eq!(entries.len(), 1);
    assert_eq!(entries[0].type_id, TypeId(1));
    assert_eq!(entries[0].me, Some(10));
    assert_eq!(entries[0].te, Some(20));
    assert_eq!(entries[0].runs, Some(-1));
}

#[test]
fn required_type_ids_cover_all_steps() {
    let leaf = |id: u32| Dependency {
        name: String::new(),
        ptype_id: TypeId(id),
        category_id: caph::eve::group_data::CategoryId(0),
        group_id: GroupId(0),
        products: 1,
        products_base: 1,
        products_per_run: 1,
        time: 1,
        time_per_run: 1,
        components: Vec::new(),
    };
    let mut a = leaf(10);
    a.components = vec![leaf(11), leaf(12)];
    let mut b = leaf(20);
    b.components = vec![leaf(11)];
    let ids = required_type_ids(&vec![a, b]);
    let mut sorted: Vec<u32> = ids.iter().map(|x| x.0).collect();
    sorted.sort();
    sorted.dedup();
    assert_eq!(sorted, vec![10, 11, 12, 20]);
}

#[test]
fn material_efficiency_of_stored_materials() {
    let mut m = Material {
        type_id: TypeId(34),
        quantity: 1000,
        quantity_single: 100,
        name: "Tritanium".to_string(),
        group_id: GroupId(18),
    };
    m.apply_me_bonus(10);
    assert_eq!(m.quantity, 900);
    let mut single = Material { quantity_single: 1, ..m.clone() };
    single.apply_me_bonus(10);
    assert_eq!(single.quantity, 900);
    let mut few = Material { quantity: 9, ..m.clone() };
    few.apply_me_bonus(10);
    assert_eq!(few.quantity, 9);
    let d = Material::default();
    assert_eq!(d.quantity, 0);
    assert_eq!(d.type_id, TypeId(0));
    let config = ProductConfig::from(Product { name: "x".to_string(), count: 3, meff: 10, type_id: TypeId(5) });
    assert_eq!(config.count, 3);
    assert_eq!(config.type_id, TypeId(5));
}

#[test]
fn invention_rows_are_grouped_by_item() {
    let groups = invention_groups(&vec![5, 6, 5, 7, 6, 5]);
    assert_eq!(groups, vec![vec![0, 2, 5], vec![1, 4], vec![3]]);
    assert!(invention_groups(&vec![]).is_empty());
}

#[test]
fn storage_requests_split_into_columns() {
    let request = ModifyRequest {
        mode: ModifyMode::Add,
        entries: vec![
            Modify { type_id: TypeId(34), quantity: 10 },
            Modify { type_id: TypeId(35), quantity: -3 },
        ],
    };
    assert!(request.adds());
    assert_eq!(request.columns(), (vec![34, 35], vec![10, -3]));
    let replace = ModifyRequest { mode: ModifyMode::Replace, entries: vec![] };
    assert!(!replace.adds());
}

#[test]
fn blueprint_entries_take_the_first_product() {
    let m = |q: u32, t: u32| BlueprintMaterial { quantity: q, type_id: TypeId(t) };
    let activity = ActivityManufactoring { materials: vec![m(10, 34), m(5, 35)], products: vec![m(1, 587), m(2, 588)], time: 60 };
    let bp = blueprint_entry(TypeId(681), Some(activity));
    assert_eq!(bp.type_id, TypeId(681));
    assert_eq!(bp.materials.len(), 2);
    assert_eq!(bp.produces, Some(m(1, 587)));
    let empty = blueprint_entry(TypeId(681), None);
    assert!(empty.materials.is_empty());
    assert_eq!(empty.produces, None);
    assert_eq!(TimeModel::new(300).time(), 300);
}

#[test]
fn rigs_from_their_dogma() {
    let rows = vec![
        RigDogmaRow { modifier: StructureBonusModifier::ManufactureMaterial, categories: vec![], groups: vec![] },
        RigDogmaRow { modifier: StructureBonusModifier::ManufactureTime, categories: vec![6, 7], groups: vec![428] },
        RigDogmaRow { modifier: StructureBonusModifier::ReactionMaterial, categories: vec![9], groups: vec![] },
    ];
    assert_eq!(StructureRig::from_dogma(&rows).category_groups, vec![6, 7, 428]);
    assert_eq!(last_bonus_row(&rows, true), Some(2));
    assert_eq!(last_bonus_row(&rows, false), Some(1));
    assert_eq!(last_bonus_row(&rows[..1].to_vec(), false), None);
    assert!(StructureRig::from_dogma(&Vec::new()).category_groups.is_empty());
    assert_eq!(installed_rigs(Some(37180), None, Some(43704)), vec![37180, 43704]);
    assert!(installed_rigs(None, None, None).is_empty());
}

#[test]
fn product_columns_split_the_configs() {
    let products = vec![
        ProductConfig { count: 10, meff: 0, type_id: TypeId(34) },
        ProductConfig { count: u32::MAX, meff: 10, type_id: TypeId(35) },
    ];
    assert_eq!(caph::project::service::product_columns(&products), (vec![34, 35], vec![10, -1]));
}
