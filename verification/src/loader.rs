//! Deciding what to build from a loaded model.
//!
//! A model file declares materials and groups of faces. Every material
//! becomes a textured or an untextured object material, and every group an
//! object of the kind of its material. The decisions are made here, on the
//! names and flags alone; creating the GPU resources is left to the caller.

use vstd::prelude::*;
use crate::object::ObjectKind;

verus! {

/// What a model file declares of one material.
#[derive(Debug, Clone, PartialEq, Eq)]
pub struct MaterialDecl {
    pub name: String,
    /// A constant diffuse colour is given.
    pub has_kd: bool,
    /// The name of the diffuse texture map, if one is given.
    pub map_kd: Option<String>,
}

/// The material a group of faces refers to.
#[derive(Debug, Clone, PartialEq, Eq)]
pub enum GroupMaterial {
    /// A material whose declaration was loaded.
    Loaded { name: String, textured: bool },
    /// A material known by name only: its library was not loaded.
    Unloaded { name: String },
    /// The group names no material.
    Missing,
}

/// What a model file declares of one group of faces.
#[derive(Debug, Clone, PartialEq, Eq)]
pub struct GroupDecl {
    pub name: String,
    pub material: GroupMaterial,
}

/// Why a model cannot be turned into objects. Materials and groups are named
/// by their position in the lists that were handed in.
#[derive(Debug, Clone, Copy, PartialEq, Eq, Structural)]
pub enum LoadError {
    /// The material's diffuse texture map is not among the loaded textures.
    TextureNotFound { material: usize },
    /// The material has neither a diffuse texture map nor a diffuse colour.
    MaterialWithoutColour { material: usize },
    /// An earlier material of the same kind has the same name.
    DuplicateMaterial { material: usize },
    /// The group's material was never loaded.
    MaterialNotLoaded { group: usize },
    /// The group has no material.
    GroupWithoutMaterial { group: usize },
    /// No material of the group's kind was declared under its name.
    UnknownMaterial { group: usize },
}

/// One object to create: its group of faces, its kind, and its material by
/// position in the material list.
#[derive(Debug, Clone, Copy, PartialEq, Eq, Structural)]
pub struct ObjectPlan {
    pub group: usize,
    pub kind: ObjectKind,
    pub material: usize,
}

/// A material with a diffuse texture map is textured, any other is not.
pub open spec fn kind_of(m: MaterialDecl) -> ObjectKind {
    if m.map_kd is Some {
        ObjectKind::WithTexture
    } else {
        ObjectKind::NoTexture
    }
}

/// The object kind that a group's material flag stands for.
pub open spec fn kind_from_flag(textured: bool) -> ObjectKind {
    if textured {
        ObjectKind::WithTexture
    } else {
        ObjectKind::NoTexture
    }
}

/// A texture of that name was loaded.
pub open spec fn has_texture(textures: Seq<String>, name: Seq<char>) -> bool {
    exists|k: int| 0 <= k < textures.len() && (#[trigger] textures[k])@ == name
}

/// The material has this name and kind.
pub open spec fn is_match(m: MaterialDecl, name: Seq<char>, kind: ObjectKind) -> bool {
    m.name@ == name && kind_of(m) == kind
}

/// One of the first `n` materials has this name and kind.
pub open spec fn declared_before(
    materials: Seq<MaterialDecl>,
    n: int,
    name: Seq<char>,
    kind: ObjectKind,
) -> bool {
    exists|j: int| 0 <= j < n && is_match(#[trigger] materials[j], name, kind)
}

/// Material `j` is the first with this name and kind.
pub open spec fn is_first_match(
    materials: Seq<MaterialDecl>,
    name: Seq<char>,
    kind: ObjectKind,
    j: int,
) -> bool {
    &&& 0 <= j < materials.len()
    &&& is_match(materials[j], name, kind)
    &&& !declared_before(materials, j, name, kind)
}

/// What is wrong with material `i`, if anything. A missing texture or colour
/// is found before a duplicate name.
pub open spec fn material_fault(materials: Seq<MaterialDecl>, textures: Seq<String>, i: int) -> Option<
    LoadError,
> {
    let m = materials[i];
    if m.map_kd is Some && !has_texture(textures, m.map_kd->0@) {
        Some(LoadError::TextureNotFound { material: i as usize })
    } else if m.map_kd is None && !m.has_kd {
        Some(LoadError::MaterialWithoutColour { material: i as usize })
    } else if declared_before(materials, i, m.name@, kind_of(m)) {
        Some(LoadError::DuplicateMaterial { material: i as usize })
    } else {
        None
    }
}

/// What is wrong with the group at position `g`, if anything.
pub open spec fn group_fault(materials: Seq<MaterialDecl>, group: GroupDecl, g: int) -> Option<
    LoadError,
> {
    match group.material {
        GroupMaterial::Missing => Some(LoadError::GroupWithoutMaterial { group: g as usize }),
        GroupMaterial::Unloaded { name } => Some(LoadError::MaterialNotLoaded { group: g as usize }),
        GroupMaterial::Loaded { name, textured } => if declared_before(
            materials,
            materials.len() as int,
            name@,
            kind_from_flag(textured),
        ) {
            None
        } else {
            Some(LoadError::UnknownMaterial { group: g as usize })
        },
    }
}

/// `plan` is the object to create for the group at position `g`.
pub open spec fn is_plan_of(
    materials: Seq<MaterialDecl>,
    group: GroupDecl,
    g: int,
    plan: ObjectPlan,
) -> bool {
    match group.material {
        GroupMaterial::Loaded { name, textured } => {
            &&& plan.group == g
            &&& plan.kind == kind_from_flag(textured)
            &&& is_first_match(materials, name@, plan.kind, plan.material as int)
        },
        _ => false,
    }
}

/// No material is at fault.
pub open spec fn materials_accepted(materials: Seq<MaterialDecl>, textures: Seq<String>) -> bool {
    forall|i: int|
        0 <= i < materials.len() ==> #[trigger] material_fault(materials, textures, i) is None
}

/// `kinds` holds the kind of every material, in order.
pub open spec fn is_kinds_of(materials: Seq<MaterialDecl>, kinds: Seq<ObjectKind>) -> bool {
    &&& kinds.len() == materials.len()
    &&& forall|i: int| 0 <= i < materials.len() ==> #[trigger] kinds[i] == kind_of(materials[i])
}

/// `e` is the fault of the first material that has one.
pub open spec fn first_material_fault(
    materials: Seq<MaterialDecl>,
    textures: Seq<String>,
    e: LoadError,
) -> bool {
    exists|k: int|
        {
            &&& 0 <= k < materials.len()
            &&& #[trigger] material_fault(materials, textures, k) == Some(e)
            &&& forall|j: int|
                0 <= j < k ==> #[trigger] material_fault(materials, textures, j) is None
        }
}

/// `plans` holds the object to create for every group, in order.
pub open spec fn is_plan_of_groups(
    materials: Seq<MaterialDecl>,
    groups: Seq<GroupDecl>,
    plans: Seq<ObjectPlan>,
) -> bool {
    &&& plans.len() == groups.len()
    &&& forall|g: int|
        0 <= g < groups.len() ==> is_plan_of(materials, groups[g], g, #[trigger] plans[g])
}

/// `e` is the fault of the first group that has one.
pub open spec fn first_group_fault(
    materials: Seq<MaterialDecl>,
    groups: Seq<GroupDecl>,
    e: LoadError,
) -> bool {
    exists|k: int|
        {
            &&& 0 <= k < groups.len()
            &&& #[trigger] group_fault(materials, groups[k], k) == Some(e)
            &&& forall|j: int| 0 <= j < k ==> #[trigger] group_fault(materials, groups[j], j) is None
        }
}

fn contains_name(names: &Vec<String>, name: &String) -> (found: bool)
    ensures
        found == has_texture(names@, name@),
{
    let mut k: usize = 0;
    while k < names.len()
        invariant
            k <= names@.len(),
            forall|j: int| 0 <= j < k ==> (#[trigger] names@[j])@ != name@,
        decreases names@.len() - k,
    {
        if names[k] == *name {
            return true;
        }
        k += 1;
    }
    false
}

fn kind_of_material(m: &MaterialDecl) -> (kind: ObjectKind)
    ensures
        kind == kind_of(*m),
{
    match &m.map_kd {
        Some(_) => ObjectKind::WithTexture,
        None => ObjectKind::NoTexture,
    }
}

/// Finds the first of the first `n` materials that has this name and kind.
fn find_material(materials: &Vec<MaterialDecl>, n: usize, name: &String, kind: ObjectKind) -> (found:
    Option<usize>)
    requires
        n <= materials@.len(),
    ensures
        match found {
            Some(j) => j < n && is_first_match(materials@, name@, kind, j as int),
            None => !declared_before(materials@, n as int, name@, kind),
        },
{
    let mut j: usize = 0;
    while j < n
        invariant
            j <= n <= materials@.len(),
            !declared_before(materials@, j as int, name@, kind),
        decreases n - j,
    {
        let m = &materials[j];
        if m.name == *name && kind_of_material(m) == kind {
            return Some(j);
        }
        j += 1;
    }
    None
}

/// Decides the kind of every declared material, or reports the first
/// material that cannot be used.
///
/// A material with a diffuse texture map becomes a textured material and its
/// map must be among `textures`; any other becomes an untextured material and
/// must have a diffuse colour. No two materials of one kind may share a name.
pub fn classify_materials(materials: &Vec<MaterialDecl>, textures: &Vec<String>) -> (res: Result<
    Vec<ObjectKind>,
    LoadError,
>)
    ensures
        match res {
            Ok(kinds) => materials_accepted(materials@, textures@) && is_kinds_of(materials@, kinds@),
            Err(e) => first_material_fault(materials@, textures@, e),
        },
{
    let mut kinds: Vec<ObjectKind> = Vec::new();
    let mut i: usize = 0;
    while i < materials.len()
        invariant
            i <= materials@.len(),
            kinds@.len() == i,
            forall|j: int|
                0 <= j < i ==> #[trigger] material_fault(materials@, textures@, j) is None,
            forall|j: int| 0 <= j < i ==> #[trigger] kinds@[j] == kind_of(materials@[j]),
        decreases materials@.len() - i,
    {
        let m = &materials[i];
        let kind = kind_of_material(m);
        match &m.map_kd {
            Some(texture) => {
                if !contains_name(textures, texture) {
                    assert(material_fault(materials@, textures@, i as int) == Some(LoadError::TextureNotFound { material: i }));
                    return Err(LoadError::TextureNotFound { material: i });
                }
            },
            None => {
                if !m.has_kd {
                    assert(material_fault(materials@, textures@, i as int) == Some(LoadError::MaterialWithoutColour { material: i }));
                    return Err(LoadError::MaterialWithoutColour { material: i });
                }
            },
        }
        if find_material(materials, i, &m.name, kind).is_some() {
            assert(material_fault(materials@, textures@, i as int) == Some(LoadError::DuplicateMaterial { material: i }));
            return Err(LoadError::DuplicateMaterial { material: i });
        }
        kinds.push(kind);
        i += 1;
    }
    Ok(kinds)
}

/// Decides, for every group in order, which object to create and from which
/// material, or reports the first group that cannot become an object.
pub fn plan_objects(materials: &Vec<MaterialDecl>, groups: &Vec<GroupDecl>) -> (res: Result<
    Vec<ObjectPlan>,
    LoadError,
>)
    ensures
        match res {
            Ok(plans) => is_plan_of_groups(materials@, groups@, plans@),
            Err(e) => first_group_fault(materials@, groups@, e),
        },
{
    let mut plans: Vec<ObjectPlan> = Vec::new();
    let mut g: usize = 0;
    while g < groups.len()
        invariant
            g <= groups@.len(),
            plans@.len() == g,
            forall|j: int|
                0 <= j < g ==> #[trigger] group_fault(materials@, groups@[j], j) is None,
            forall|j: int|
                0 <= j < g ==> is_plan_of(materials@, groups@[j], j, #[trigger] plans@[j]),
        decreases groups@.len() - g,
    {
        match &groups[g].material {
            GroupMaterial::Missing => {
                assert(group_fault(materials@, groups@[g as int], g as int) == Some(LoadError::GroupWithoutMaterial { group: g }));
                return Err(LoadError::GroupWithoutMaterial { group: g });
            },
            GroupMaterial::Unloaded { name: _ } => {
                assert(group_fault(materials@, groups@[g as int], g as int) == Some(LoadError::MaterialNotLoaded { group: g }));
                return Err(LoadError::MaterialNotLoaded { group: g });
            },
            GroupMaterial::Loaded { name, textured } => {
                let kind = if *textured {
                    ObjectKind::WithTexture
                } else {
                    ObjectKind::NoTexture
                };
                match find_material(materials, materials.len(), name, kind) {
                    Some(material) => {
                        plans.push(ObjectPlan { group: g, kind, material });
                    },
                    None => {
                        assert(group_fault(materials@, groups@[g as int], g as int) == Some(LoadError::UnknownMaterial { group: g }));
                        return Err(LoadError::UnknownMaterial { group: g });
                    },
                }
            },
        }
        g += 1;
    }
    Ok(plans)
}

/// What to build from a model: the kind of every material and the object of
/// every group.
#[derive(Debug, Clone, PartialEq, Eq)]
pub struct LoadPlan {
    pub materials: Vec<ObjectKind>,
    pub objects: Vec<ObjectPlan>,
}

/// Plans the loading of a model: first every material is examined, then
/// every group. The first fault found in that order is reported, and nothing
/// is planned unless the whole model is sound.
pub fn plan_load(
    materials: &Vec<MaterialDecl>,
    textures: &Vec<String>,
    groups: &Vec<GroupDecl>,
) -> (res: Result<LoadPlan, LoadError>)
    ensures
        match res {
            Ok(plan) => {
                &&& materials_accepted(materials@, textures@)
                &&& is_kinds_of(materials@, plan.materials@)
                &&& is_plan_of_groups(materials@, groups@, plan.objects@)
            },
            Err(e) => if materials_accepted(materials@, textures@) {
                first_group_fault(materials@, groups@, e)
            } else {
                first_material_fault(materials@, textures@, e)
            },
        },
{
    let kinds = match classify_materials(materials, textures) {
        Ok(kinds) => kinds,
        Err(e) => {
            return Err(e);
        },
    };
    match plan_objects(materials, groups) {
        Ok(objects) => Ok(LoadPlan { materials: kinds, objects }),
        Err(e) => Err(e),
    }
}

/// A group that refers to a loaded material by the name and kind of one of
/// the declarations has no fault: only a group without a loaded material, or
/// with one that was never declared, fails.
pub proof fn lemma_declared_material_is_found(
    materials: Seq<MaterialDecl>,
    group: GroupDecl,
    g: int,
    j: int,
)
    requires
        0 <= j < materials.len(),
        group.material matches GroupMaterial::Loaded { name, textured } && is_match(
            materials[j],
            name@,
            kind_from_flag(textured),
        ),
    ensures
        group_fault(materials, group, g) is None,
{
}

/// Among materials that were accepted, a name and kind single out at most one
/// material: the one a group is planned with is the only one it could mean.
pub proof fn lemma_accepted_materials_are_unambiguous(
    materials: Seq<MaterialDecl>,
    textures: Seq<String>,
    a: int,
    b: int,
)
    requires
        0 <= a < materials.len(),
        0 <= b < materials.len(),
        forall|i: int|
            0 <= i < materials.len() ==> #[trigger] material_fault(materials, textures, i) is None,
        materials[a].name@ == materials[b].name@,
        kind_of(materials[a]) == kind_of(materials[b]),
    ensures
        a == b,
{
    if a < b {
        assert(material_fault(materials, textures, b) is None);
        assert(is_match(materials[a], materials[b].name@, kind_of(materials[b])));
    } else if b < a {
        assert(material_fault(materials, textures, a) is None);
        assert(is_match(materials[b], materials[a].name@, kind_of(materials[a])));
    }
}

} // verus!
