use caph::eve::group_data::{CategoryId, GroupId};
use caph::eve::type_data::TypeId;
use caph::project::dependency::group::DependencyGroup;
use caph::project::dependency::{runs_needed, Dependency};
use std::collections::HashMap;

fn raw(name: &str, ptype_id: u32, category_id: u32, group_id: u32, products: i64) -> Dependency {
    Dependency {
        name: name.to_string(),
        ptype_id: TypeId(ptype_id),
        category_id: CategoryId(category_id),
        group_id: GroupId(group_id),
        products_per_run: 0,
        products,
        products_base: products,
        time: 0,
        time_per_run: 0,
        components: Vec::new(),
    }
}

fn fuel_block(name: &str, type_id: u32) -> Dependency {
    let (iname, iid) = match type_id {
        4051 => ("Nitrogen Isotopes", 17888),
        4246 => ("Hydrogen Isotopes", 17889),
        4247 => ("Helium Isotopes", 16274),
        4312 => ("Oxygen Isotopes", 17887),
        _ => unreachable!(),
    };
    let mut components = vec![
        raw("Enriched Uranium", 44, 43, 1034, 4),
        raw("Oxygen", 3683, 43, 1042, 22),
        raw("Mechanical Parts", 3689, 43, 1034, 4),
        raw("Coolant", 9832, 43, 1034, 9),
        raw("Robotics", 9848, 43, 1040, 1),
        raw("Heavy Water", 16272, 4, 423, 170),
        raw("Liquid Ozone", 16273, 4, 423, 350),
        raw("Strontium Clathrates", 16275, 4, 423, 20),
        raw(iname, iid, 4, 423, 450),
    ];
    components.sort_by_key(|x| x.ptype_id.0);
    Dependency {
        name: name.to_string(),
        ptype_id: TypeId(type_id),
        category_id: CategoryId(4),
        group_id: GroupId(1136),
        products: 0,
        products_base: 0,
        products_per_run: 40,
        time: 900,
        time_per_run: 900,
        components,
    }
}

fn dependency_fuel_block() -> Dependency {
    fuel_block("Oxygen Fuel Block", 4312)
}

/// Titanium chromide; a reaction run of it takes five oxygen fuel blocks.
///
/// The fuel block is given a base quantity of five here. A block with a
/// base quantity of zero, as `fuel_block` makes it, would need no blocks
/// for any number of runs, and the counts that `add_runs` and
/// `apply_material_bonus_titanium_chromide` expect (5, 10, 40 and 45
/// blocks, two block runs, 450 isotopes) could not come out.
fn dependency_titanium_chromide() -> Dependency {
    let mut block = fuel_block("Oxygen Fuel Block", 4312);
    block.products_base = 5;
    Dependency {
        name: "Titanium Chromide".to_string(),
        ptype_id: TypeId(16654),
        category_id: CategoryId(4),
        group_id: GroupId(428),
        products_per_run: 200,
        products: 0,
        products_base: 0,
        time: 10800,
        time_per_run: 10800,
        components: vec![
            block,
            raw("Titanium", 16638, 4, 427, 100),
            raw("Chromium", 16641, 4, 427, 100),
        ],
    }
}

#[test]
fn add_runs() {
    let mut dep = dependency_titanium_chromide();

    dep.add_product_quantity(100);
    assert_eq!(dep.runs(), 1);
    assert_eq!(dep.components[0].products, 5);

    dep.add_product_quantity(100);
    assert_eq!(dep.runs(), 1);
    assert_eq!(dep.components[0].products, 5);

    dep.add_product_quantity(100);
    assert_eq!(dep.runs(), 2);
    assert_eq!(dep.components[0].products, 10);

    dep.add_product_quantity(1300);
    assert_eq!(dep.runs(), 8);
    assert_eq!(dep.components[0].products, 40);

    dep.add_product_quantity(100);
    assert_eq!(dep.runs(), 9);
    assert_eq!(dep.components[0].products, 45);
    assert_eq!(dep.components[0].runs(), 2);
}

#[test]
fn apply_material_bonus_fuel_blocks() {
    let mut dep = dependency_fuel_block();

    let mut bonus: HashMap<u32, u8> = HashMap::new();
    bonus.insert(4312, 10);

    assert_eq!(dep.components[8].ptype_id, TypeId(17887));
    assert_eq!(dep.components[8].products, 450);

    dep.apply_material_bonus(&bonus);

    assert_eq!(dep.components[8].ptype_id, TypeId(17887));
    assert_eq!(dep.components[8].products, 405);
}

#[test]
fn apply_material_bonus_fuel_blocks_add_structure_bonus() {
    let mut dep = dependency_fuel_block();
    dep.add_product_quantity(40);

    let mut bonus: HashMap<u32, u8> = HashMap::new();
    bonus.insert(4312, 10);

    assert_eq!(dep.components[8].ptype_id, TypeId(17887));
    assert_eq!(dep.components[8].products, 450);

    dep.apply_material_bonus(&bonus);
    assert_eq!(dep.components[8].ptype_id, TypeId(17887));
    assert_eq!(dep.components[8].products, 405);

    let mut bonus: HashMap<u32, u8> = HashMap::new();
    bonus.insert(4312, 1);

    dep.apply_material_bonus(&bonus);
    assert_eq!(dep.components[8].ptype_id, TypeId(17887));
    assert_eq!(dep.components[8].products, 401);
}

#[test]
fn apply_material_bonus_titanium_chromide() {
    let mut dep = dependency_titanium_chromide();
    dep.add_product_quantity(200);

    let mut bonus: HashMap<u32, u8> = HashMap::new();
    bonus.insert(4312, 10);

    assert_eq!(dep.components[0].ptype_id, TypeId(4312));
    assert_eq!(dep.components[0].components[8].ptype_id, TypeId(17887));
    assert_eq!(dep.components[0].components[8].products, 450);

    dep.apply_material_bonus(&bonus);

    assert_eq!(dep.components[0].ptype_id, TypeId(4312));
    assert_eq!(dep.components[0].components[8].ptype_id, TypeId(17887));
    assert_eq!(dep.components[0].components[8].products, 405);
}

#[test]
fn runs_round_up_and_saturate() {
    assert_eq!(runs_needed(0, 40), 0);
    assert_eq!(runs_needed(1, 40), 1);
    assert_eq!(runs_needed(40, 40), 1);
    assert_eq!(runs_needed(41, 40), 2);
    assert_eq!(runs_needed(-41, 40), -1);
    assert_eq!(runs_needed(5, 0), i64::MAX);
    assert_eq!(runs_needed(0, 0), 0);
    assert_eq!(runs_needed(-5, 0), i64::MIN);
    assert_eq!(runs_needed(10, -3), -3);
}

#[test]
fn set_quantity_recalculates_components() {
    let mut dep = dependency_titanium_chromide();
    dep.set_product_quantity(401);
    assert_eq!(dep.products, 401);
    assert_eq!(dep.runs(), 3);
    assert_eq!(dep.time, 3 * 10800);
    assert_eq!(dep.components[0].products, 15);
    assert_eq!(dep.components[0].time, 2700);
    assert_eq!(dep.components[0].components[8].products, 450);
    assert_eq!(dep.components[1].products, 300);
    dep.set_product_quantity(0);
    assert_eq!(dep.components[1].products, 0);
    assert_eq!(dep.time, 0);
}

#[test]
fn material_bonus_spares_small_quantities() {
    let mut dep = dependency_fuel_block();
    let mut bonus: HashMap<u32, u8> = HashMap::new();
    bonus.insert(4312, 10);
    dep.apply_material_bonus(&bonus);
    let robotics = dep.components.iter().find(|x| x.ptype_id == TypeId(9848)).unwrap();
    assert_eq!(robotics.products, 1);
    let heavy_water = dep.components.iter().find(|x| x.ptype_id == TypeId(16272)).unwrap();
    assert_eq!(heavy_water.products, 153);
}

#[test]
fn time_bonus_reduces_component_times() {
    let mut dep = dependency_titanium_chromide();
    dep.add_product_quantity(200);
    let mut bonus: HashMap<u32, u8> = HashMap::new();
    bonus.insert(16654, 10);
    dep.apply_time_bonus(&bonus);
    assert_eq!(dep.components[0].time_per_run, 810);
    assert_eq!(dep.time_per_run, 10800);
}

#[test]
fn collect_ptype_ids_lists_each_product_once() {
    let mut dep = dependency_titanium_chromide();
    dep.components.push(fuel_block("Oxygen Fuel Block", 4312));
    let ids = dep.collect_ptype_ids();
    assert_eq!(ids.len(), 1 + 1 + 9 + 2);
    assert!(ids.contains(&TypeId(16654)));
    assert!(ids.contains(&TypeId(4312)));
    assert!(ids.contains(&TypeId(17887)));
    assert!(ids.contains(&TypeId(16641)));
}

#[test]
fn sort_builds_components_first() {
    let mut top = dependency_titanium_chromide();
    top.components.push(fuel_block("Helium Fuel Block", 4247));
    let mut root = Dependency::with_dependencies(vec![top]);
    root.sort();
    let order: Vec<u32> = root.components.iter().map(|x| x.ptype_id.0).collect();
    assert_eq!(order, vec![4312, 4247, 16654]);
}

#[test]
fn group_build_order_lists_each_product_once() {
    let group = DependencyGroup::from_dependencies(vec![dependency_titanium_chromide(), dependency_fuel_block()]);
    let mut group = group;
    let order = group.build_order();
    let ids: Vec<u32> = order.iter().map(|x| x.ptype_id.0).collect();
    assert_eq!(ids, vec![4312, 16654]);
    assert_eq!(group.0.len(), 2);
}

#[test]
fn group_add_sums_products() {
    let mut group = DependencyGroup::new();
    let mut a = dependency_fuel_block();
    a.set_product_quantity(40);
    group.add(a);
    let mut b = dependency_fuel_block();
    b.set_product_quantity(41);
    group.add(b);
    group.add(raw("Titanium", 16638, 4, 427, 100));
    let entries = group.into_inner();
    assert_eq!(entries.len(), 2);
    assert_eq!(entries[0].ptype_id, TypeId(4312));
    assert_eq!(entries[0].products, 81);
    assert_eq!(entries[0].time, 3 * 900);
    assert_eq!(entries[0].components[8].products, 3 * 450);
    assert_eq!(entries[1].ptype_id, TypeId(16638));
}

#[test]
fn group_from_dependencies_keeps_last() {
    let group = DependencyGroup::from_dependencies(vec![
        raw("Titanium", 16638, 4, 427, 100),
        raw("Chromium", 16641, 4, 427, 7),
        raw("Titanium", 16638, 4, 427, 300),
    ]);
    let entries = group.into_inner();
    assert_eq!(entries.len(), 2);
    assert_eq!(entries[0].products, 300);
    assert_eq!(entries[1].products, 7);
}

#[test]
fn group_merge_adds_entries() {
    let mut a = DependencyGroup::from_dependencies(vec![raw("Titanium", 16638, 4, 427, 100)]);
    let b = DependencyGroup::from_dependencies(vec![
        raw("Chromium", 16641, 4, 427, 7),
        raw("Titanium", 16638, 4, 427, 300),
    ]);
    a.merge(b);
    let entries = a.into_inner();
    assert_eq!(entries.len(), 2);
    assert_eq!(entries[0].ptype_id, TypeId(16638));
    assert_eq!(entries[0].products, 400);
    assert_eq!(entries[1].products, 7);
}

#[test]
fn raw_materials_add_up_over_the_tree() {
    let mut dep = dependency_titanium_chromide();
    dep.components.push(fuel_block("Oxygen Fuel Block", 4312));
    dep.components.push(raw("Titanium", 16638, 4, 427, 50));
    let raws = dep.collect_raw_materials().into_inner();
    assert_eq!(raws.len(), 11);
    let titanium = raws.iter().find(|x| x.ptype_id == TypeId(16638)).unwrap();
    assert_eq!(titanium.products, 150);
    let isotopes = raws.iter().find(|x| x.ptype_id == TypeId(17887)).unwrap();
    assert_eq!(isotopes.products, 900);
    assert!(raws.iter().all(|x| x.components.is_empty()));
    for w in raws.windows(2) {
        assert!(w[0].ptype_id.0 < w[1].ptype_id.0);
    }
}

#[test]
fn components_add_up_over_the_tree() {
    let mut dep = dependency_titanium_chromide();
    dep.set_product_quantity(200);
    let mut second = fuel_block("Oxygen Fuel Block", 4312);
    second.set_product_quantity(40);
    dep.components.push(second);
    let products = dep.collect_components().into_inner();
    let ids: Vec<u32> = products.iter().map(|x| x.ptype_id.0).collect();
    assert_eq!(ids, vec![4312, 16654]);
    assert_eq!(products[0].products, 45);
    assert_eq!(products[1].products, 200);

    let group = DependencyGroup::from_dependencies(vec![dep, dependency_fuel_block()]);
    let flat = group.collect_components().into_inner();
    assert_eq!(flat.len(), 2);
    assert_eq!(flat[0].products, 45);
}

#[test]
fn recalculate_runs_follows_the_parent() {
    let mut block = fuel_block("Oxygen Fuel Block", 4312);
    block.products_base = 5;
    block.recalculate_runs(9);
    assert_eq!(block.products, 45);
    assert_eq!(block.time, 9 * 900);
    assert_eq!(block.components[8].products, 2 * 450);
    let root = Dependency::with_dependencies(vec![block]);
    assert_eq!(root.ptype_id, TypeId(0));
    assert_eq!(root.products, 0);
    assert_eq!(root.components.len(), 1);
}

#[test]
fn adding_matches_setting() {
    let mut a = dependency_titanium_chromide();
    a.add_product_quantity(700);
    a.add_product_quantity(33);
    let mut b = dependency_titanium_chromide();
    b.set_product_quantity(733);
    assert_eq!(a, b);
}
