//! What the blueprints of a project need, held against what is stored in
//! the project's container.

use vstd::prelude::*;
use crate::eve::type_data::TypeId;

verus! {

/// An asset in the container of a project.
#[derive(Clone, Copy, Debug, PartialEq, Eq, Structural)]
pub struct StoredAsset {
    pub type_id: TypeId,
    pub item_id: u64,
    pub quantity: u32,
}

/// A material that a product needs, and how much of it.
#[derive(Clone, Copy, Debug, PartialEq, Eq, Structural)]
pub struct ProductMaterial {
    pub mid: TypeId,
    pub quantity: u32,
}

/// A product that the blueprints of a project make, with its materials.
#[derive(Clone, Debug)]
pub struct ManufactureProduct {
    pub pid: TypeId,
    pub bpid: TypeId,
    pub quantity: u32,
    pub depth: u8,
    pub materials: Vec<ProductMaterial>,
}

/// A material of a product, with how much of it is needed and stored.
#[derive(Clone, Copy, Debug, PartialEq, Eq, Structural)]
pub struct RequiredProductsMaterial {
    pub mid: TypeId,
    pub quantity: u32,
    pub stored: u32,
}

/// A product of a project, with how much of it is needed and stored, and
/// its materials.
#[derive(Clone, Debug)]
pub struct RequiredProducts {
    pub pid: TypeId,
    pub bpid: TypeId,
    pub quantity: u32,
    pub stored: u32,
    pub materials: Vec<RequiredProductsMaterial>,
    pub depth: u8,
}

/// What the project knows of a blueprint: whether the blueprint, its
/// product and its invented product are stored, and the item that holds
/// the stored blueprint.
#[derive(Clone, Copy, Debug, PartialEq, Eq, Structural)]
pub struct BlueprintStatus {
    pub stored: bool,
    pub item_id: u64,
    pub product: bool,
    pub invention: bool,
}

/// A blueprint of a project and what is stored of it.
#[derive(Clone, Copy, Debug, PartialEq, Eq, Structural)]
pub struct Blueprint {
    pub bpid: TypeId,
    pub stored: bool,
    pub product: bool,
    pub invention: bool,
    pub mat_eff: Option<u32>,
    pub time_eff: Option<u32>,
}

/// The stored asset of type `t`: where several are, the last one listed.
pub open spec fn stored_entry(s: Seq<StoredAsset>, t: TypeId) -> Option<StoredAsset>
    decreases s.len(),
{
    if s.len() == 0 {
        None
    } else if s.last().type_id == t {
        Some(s.last())
    } else {
        stored_entry(s.drop_last(), t)
    }
}

/// How much of type `t` is stored: the quantity of its stored asset, or
/// nothing.
pub open spec fn stored_quantity(s: Seq<StoredAsset>, t: TypeId) -> u32 {
    match stored_entry(s, t) {
        Some(e) => e.quantity,
        None => 0,
    }
}

/// `r` is the material `m`, with what is stored of it.
pub open spec fn material_required(s: Seq<StoredAsset>, m: ProductMaterial, r: RequiredProductsMaterial) -> bool {
    &&& r.mid == m.mid
    &&& r.quantity == m.quantity
    &&& r.stored == stored_quantity(s, m.mid)
}

/// `r` is the product `p`, with what is stored of it and of its materials.
pub open spec fn product_required(s: Seq<StoredAsset>, p: ManufactureProduct, r: RequiredProducts) -> bool {
    &&& r.pid == p.pid
    &&& r.bpid == p.bpid
    &&& r.quantity == p.quantity
    &&& r.depth == p.depth
    &&& r.stored == stored_quantity(s, p.pid)
    &&& r.materials.len() == p.materials.len()
    &&& forall|i: int| 0 <= i < p.materials.len() ==> material_required(s, p.materials@[i], #[trigger] r.materials@[i])
}

/// The stored asset of type `t`, if any.
pub fn find_stored(stored: &Vec<StoredAsset>, t: TypeId) -> (r: Option<StoredAsset>)
    ensures
        r == stored_entry(stored@, t),
{
    let mut i: usize = stored.len();
    assert(stored@.take(i as int) =~= stored@);
    while i > 0
        invariant
            i <= stored.len(),
            stored_entry(stored@, t) == stored_entry(stored@.take(i as int), t),
        decreases i,
    {
        assert(stored@.take(i as int).drop_last() =~= stored@.take(i - 1));
        if stored[i - 1].type_id == t {
            return Some(stored[i - 1]);
        }
        i -= 1;
    }
    None
}

/// How much of type `t` is stored.
fn quantity_stored(stored: &Vec<StoredAsset>, t: TypeId) -> (r: u32)
    ensures
        r == stored_quantity(stored@, t),
{
    match find_stored(stored, t) {
        Some(e) => e.quantity,
        None => 0,
    }
}

/// The products of a project with what is stored of each of them and of
/// each of their materials, in the order of the products.
pub fn required_products(products: Vec<ManufactureProduct>, stored: &Vec<StoredAsset>) -> (r: Vec<RequiredProducts>)
    ensures
        r.len() == products.len(),
        forall|i: int| 0 <= i < products.len() ==> product_required(stored@, products@[i], #[trigger] r@[i]),
{
    let mut r: Vec<RequiredProducts> = Vec::new();
    let mut i: usize = 0;
    while i < products.len()
        invariant
            i <= products.len(),
            r.len() == i,
            forall|j: int| 0 <= j < i ==> product_required(stored@, products@[j], #[trigger] r@[j]),
        decreases products.len() - i,
    {
        let product = &products[i];
        let mut materials: Vec<RequiredProductsMaterial> = Vec::new();
        let mut k: usize = 0;
        while k < product.materials.len()
            invariant
                k <= product.materials.len(),
                materials.len() == k,
                forall|j: int| 0 <= j < k ==> material_required(stored@, product.materials@[j], #[trigger] materials@[j]),
            decreases product.materials.len() - k,
        {
            let m = product.materials[k];
            materials.push(RequiredProductsMaterial {
                mid: m.mid,
                quantity: m.quantity,
                stored: quantity_stored(stored, m.mid),
            });
            k += 1;
        }
        r.push(RequiredProducts {
            pid: product.pid,
            bpid: product.bpid,
            quantity: product.quantity,
            stored: quantity_stored(stored, product.pid),
            materials,
            depth: product.depth,
        });
        i += 1;
    }
    r
}

/// What is stored of a blueprint `bid`, of its product `product_id` and of
/// the product of its invention, where it has one.
pub fn blueprint_status(
    bid: TypeId,
    product_id: TypeId,
    invention_product: Option<TypeId>,
    stored: &Vec<StoredAsset>,
) -> (r: BlueprintStatus)
    ensures
        r.stored == (stored_entry(stored@, bid) is Some),
        r.item_id == (match stored_entry(stored@, bid) {
            Some(e) => e.item_id,
            None => 0,
        }),
        r.product == (stored_entry(stored@, product_id) is Some),
        r.invention == (match invention_product {
            Some(p) => stored_entry(stored@, p) is Some,
            None => false,
        }),
{
    let (is_stored, item_id) = match find_stored(stored, bid) {
        Some(e) => (true, e.item_id),
        None => (false, 0),
    };
    let product = find_stored(stored, product_id).is_some();
    let invention = match invention_product {
        Some(p) => find_stored(stored, p).is_some(),
        None => false,
    };
    BlueprintStatus { stored: is_stored, item_id, product, invention }
}

/// The entry of a blueprint of a project. The efficiencies are those of
/// the character's blueprint in the item that holds it: they count only
/// where the blueprint is stored.
pub fn blueprint_entry(bpid: TypeId, status: BlueprintStatus, efficiencies: Option<(u32, u32)>) -> (r: Blueprint)
    ensures
        r.bpid == bpid,
        r.stored == status.stored,
        r.product == status.product,
        r.invention == status.invention,
        r.mat_eff == (if status.stored && efficiencies is Some { Some((efficiencies->0).0) } else { None::<u32> }),
        r.time_eff == (if status.stored && efficiencies is Some { Some((efficiencies->0).1) } else { None::<u32> }),
{
    let (mat_eff, time_eff) = match efficiencies {
        Some((me, te)) => {
            if status.stored {
                (Some(me), Some(te))
            } else {
                (None, None)
            }
        },
        None => (None, None),
    };
    Blueprint {
        bpid,
        stored: status.stored,
        product: status.product,
        invention: status.invention,
        mat_eff,
        time_eff,
    }
}

/// Why a project is refused.
#[derive(Clone, Copy, Debug, PartialEq, Eq, Structural)]
pub enum ProjectAccessError {
    /// The project belongs to another user.
    InvalidUser,
}

/// A project for the user `user`: the project where it is theirs, none
/// where it belongs to someone else.
pub fn project_if_owner<T>(project: T, owner: u32, user: u32) -> (r: Option<T>)
    ensures
        owner == user ==> r == Some(project),
        owner != user ==> r is None,
{
    if owner == user {
        Some(project)
    } else {
        None
    }
}

/// A project that the user `user` asks to work on: the project where it is
/// theirs, else the refusal.
pub fn owned_project<T>(project: T, owner: u32, user: u32) -> (r: Result<T, ProjectAccessError>)
    ensures
        owner == user ==> r == Ok::<T, ProjectAccessError>(project),
        owner != user ==> r == Err::<T, ProjectAccessError>(ProjectAccessError::InvalidUser),
{
    if owner != user {
        Err(ProjectAccessError::InvalidUser)
    } else {
        Ok(project)
    }
}

} // verus!
