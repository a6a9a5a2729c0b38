use caph::eve::type_data::TypeId;
use caph::project::dependency::cache::{CacheRow, DependencyCache};
use caph::project::dependency::Dependency;

fn row(ptype_id: u32, quantity: i64, time: i32, name: &str, mtype_id: u32, mquantity: i64, mname: &str) -> CacheRow {
    CacheRow {
        ptype_id,
        product_quantity: quantity,
        product_time: time,
        product_name: name.to_string(),
        product_category_id: 4,
        product_group_id: 1136,
        mtype_id,
        material_quantity: mquantity,
        material_name: mname.to_string(),
        material_category_id: 4,
        material_group_id: 423,
    }
}

fn rows() -> Vec<CacheRow> {
    vec![
        row(4312, 40, 900, "Oxygen Fuel Block", 17887, 450, "Oxygen Isotopes"),
        row(16654, 200, 10800, "Titanium Chromide", 16641, 100, "Chromium"),
        row(4312, 40, 900, "Oxygen Fuel Block", 44, 4, "Enriched Uranium"),
        row(16654, 200, 10800, "Titanium Chromide", 4312, 5, "Oxygen Fuel Block"),
        row(4312, 40, 900, "Oxygen Fuel Block", 3683, 22, "Oxygen"),
        row(16654, 200, 10800, "Titanium Chromide", 16638, 100, "Titanium"),
    ]
}

#[test]
fn cache_groups_rows_by_product() {
    let cache = DependencyCache::from_rows(&rows());
    let block = cache.get(4312).unwrap();
    assert_eq!(block.name, "Oxygen Fuel Block");
    assert_eq!(block.products_per_run, 40);
    assert_eq!(block.time, 900);
    assert_eq!(block.products, 0);
    let ids: Vec<u32> = block.components.iter().map(|x| x.ptype_id.0).collect();
    assert_eq!(ids, vec![17887, 44, 3683]);
    assert_eq!(block.components[0].products, 450);
    assert_eq!(block.components[0].products_base, 450);
    assert!(cache.get(17887).is_none());
}

#[test]
fn trees_are_built_from_the_cache() {
    let cache = DependencyCache::from_rows(&rows());
    let tree = Dependency::from_cache(&cache, TypeId(16654));
    assert_eq!(tree.products_per_run, 200);
    assert_eq!(tree.time_per_run, 10800);
    let ids: Vec<u32> = tree.components.iter().map(|x| x.ptype_id.0).collect();
    assert_eq!(ids, vec![16641, 4312, 16638]);
    let block = &tree.components[1];
    assert_eq!(block.products, 5);
    assert_eq!(block.products_base, 5);
    assert_eq!(block.products_per_run, 40);
    assert_eq!(block.time, 0);
    let ids: Vec<u32> = block.components.iter().map(|x| x.ptype_id.0).collect();
    assert_eq!(ids, vec![44, 3683, 17887]);
    assert!(tree.components[0].components.is_empty());

    let mut single = tree.components[0].clone();
    Dependency::component_from_cache(&cache, TypeId(4312), &mut single);
    assert_eq!(single.ptype_id, TypeId(16641));
    assert_eq!(single.components.len(), 3);
    assert_eq!(single.products_per_run, 40);
}
