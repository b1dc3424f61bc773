use scene_viewer::loader::{
    classify_materials, plan_load, plan_objects, GroupDecl, GroupMaterial, LoadError, LoadPlan,
    MaterialDecl, ObjectPlan,
};
use scene_viewer::object::ObjectKind;

fn plain(name: &str) -> MaterialDecl {
    MaterialDecl {
        name: name.to_string(),
        has_kd: true,
        map_kd: None,
    }
}

fn textured(name: &str, map: &str) -> MaterialDecl {
    MaterialDecl {
        name: name.to_string(),
        has_kd: false,
        map_kd: Some(map.to_string()),
    }
}

fn group(name: &str, material: &str, is_textured: bool) -> GroupDecl {
    GroupDecl {
        name: name.to_string(),
        material: GroupMaterial::Loaded {
            name: material.to_string(),
            textured: is_textured,
        },
    }
}

fn names(list: &[&str]) -> Vec<String> {
    list.iter().map(|s| s.to_string()).collect()
}

#[test]
fn materials_are_classified_by_their_texture_map() {
    let materials = vec![plain("wood"), textured("skin", "skin.png"), plain("iron")];
    assert_eq!(
        classify_materials(&materials, &names(&["other.png", "skin.png"])),
        Ok(vec![
            ObjectKind::NoTexture,
            ObjectKind::WithTexture,
            ObjectKind::NoTexture
        ])
    );
}

#[test]
fn texture_map_wins_over_colour() {
    let mut m = textured("skin", "skin.png");
    m.has_kd = true;
    assert_eq!(
        classify_materials(&vec![m], &names(&["skin.png"])),
        Ok(vec![ObjectKind::WithTexture])
    );
}

#[test]
fn texture_that_was_not_loaded_is_reported() {
    let materials = vec![plain("wood"), textured("skin", "skin.png")];
    assert_eq!(
        classify_materials(&materials, &names(&["other.png"])),
        Err(LoadError::TextureNotFound { material: 1 })
    );
}

#[test]
fn material_without_colour_is_reported() {
    let mut bare = plain("bare");
    bare.has_kd = false;
    assert_eq!(
        classify_materials(&vec![plain("wood"), bare], &vec![]),
        Err(LoadError::MaterialWithoutColour { material: 1 })
    );
}

#[test]
fn duplicate_name_within_a_kind_is_reported() {
    assert_eq!(
        classify_materials(&vec![plain("wood"), plain("iron"), plain("wood")], &vec![]),
        Err(LoadError::DuplicateMaterial { material: 2 })
    );
    assert_eq!(
        classify_materials(
            &vec![textured("a", "x.png"), textured("a", "y.png")],
            &names(&["x.png", "y.png"])
        ),
        Err(LoadError::DuplicateMaterial { material: 1 })
    );
}

#[test]
fn same_name_in_both_kinds_is_accepted() {
    assert_eq!(
        classify_materials(&vec![plain("a"), textured("a", "x.png")], &names(&["x.png"])),
        Ok(vec![ObjectKind::NoTexture, ObjectKind::WithTexture])
    );
}

#[test]
fn missing_texture_is_found_before_a_duplicate_name() {
    assert_eq!(
        classify_materials(
            &vec![textured("a", "x.png"), textured("a", "gone.png")],
            &names(&["x.png"])
        ),
        Err(LoadError::TextureNotFound { material: 1 })
    );
}

#[test]
fn groups_become_objects_of_their_material() {
    let materials = vec![plain("wood"), textured("skin", "skin.png"), plain("iron")];
    let groups = vec![
        group("leg", "iron", false),
        group("face", "skin", true),
        group("top", "wood", false),
        group("foot", "iron", false),
    ];
    assert_eq!(
        plan_objects(&materials, &groups),
        Ok(vec![
            ObjectPlan {
                group: 0,
                kind: ObjectKind::NoTexture,
                material: 2
            },
            ObjectPlan {
                group: 1,
                kind: ObjectKind::WithTexture,
                material: 1
            },
            ObjectPlan {
                group: 2,
                kind: ObjectKind::NoTexture,
                material: 0
            },
            ObjectPlan {
                group: 3,
                kind: ObjectKind::NoTexture,
                material: 2
            },
        ])
    );
}

#[test]
fn group_without_material_is_reported() {
    let groups = vec![
        group("top", "wood", false),
        GroupDecl {
            name: "bare".to_string(),
            material: GroupMaterial::Missing,
        },
    ];
    assert_eq!(
        plan_objects(&vec![plain("wood")], &groups),
        Err(LoadError::GroupWithoutMaterial { group: 1 })
    );
}

#[test]
fn group_with_unloaded_material_is_reported() {
    let groups = vec![GroupDecl {
        name: "top".to_string(),
        material: GroupMaterial::Unloaded {
            name: "wood".to_string(),
        },
    }];
    assert_eq!(
        plan_objects(&vec![plain("wood")], &groups),
        Err(LoadError::MaterialNotLoaded { group: 0 })
    );
}

#[test]
fn group_with_undeclared_material_is_reported() {
    assert_eq!(
        plan_objects(&vec![plain("wood")], &vec![group("top", "stone", false)]),
        Err(LoadError::UnknownMaterial { group: 0 })
    );
    assert_eq!(
        plan_objects(&vec![plain("wood")], &vec![group("top", "wood", true)]),
        Err(LoadError::UnknownMaterial { group: 0 })
    );
}

#[test]
fn whole_model_is_planned() {
    let materials = vec![textured("skin", "skin.png"), plain("wood")];
    let groups = vec![group("top", "wood", false), group("face", "skin", true)];
    assert_eq!(
        plan_load(&materials, &names(&["skin.png"]), &groups),
        Ok(LoadPlan {
            materials: vec![ObjectKind::WithTexture, ObjectKind::NoTexture],
            objects: vec![
                ObjectPlan {
                    group: 0,
                    kind: ObjectKind::NoTexture,
                    material: 1
                },
                ObjectPlan {
                    group: 1,
                    kind: ObjectKind::WithTexture,
                    material: 0
                },
            ],
        })
    );
}

#[test]
fn material_faults_come_before_group_faults() {
    let materials = vec![plain("wood"), plain("wood")];
    let groups = vec![GroupDecl {
        name: "bare".to_string(),
        material: GroupMaterial::Missing,
    }];
    assert_eq!(
        plan_load(&materials, &vec![], &groups),
        Err(LoadError::DuplicateMaterial { material: 1 })
    );
    assert_eq!(
        plan_load(&vec![plain("wood")], &vec![], &groups),
        Err(LoadError::GroupWithoutMaterial { group: 0 })
    );
}

#[test]
fn empty_model_gives_an_empty_plan() {
    assert_eq!(
        plan_load(&vec![], &vec![], &vec![]),
        Ok(LoadPlan {
            materials: vec![],
            objects: vec![]
        })
    );
}
