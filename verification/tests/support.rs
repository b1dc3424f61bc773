use scene_viewer::space::{NDCSpace, TriangleSpace, ViewSpace, WorldSpace};
use scene_viewer::support::init;

#[test]
fn title_is_the_file_name() {
    assert_eq!(init("src/main.rs").title, "main.rs");
    assert_eq!(init("/a/b/c/viewer.rs").title, "viewer.rs");
}

#[test]
fn title_without_slash_is_kept() {
    assert_eq!(init("viewer").title, "viewer");
    assert_eq!(init("").title, "");
}

#[test]
fn title_after_a_trailing_slash_is_empty() {
    assert_eq!(init("src/").title, "");
    assert_eq!(init("/").title, "");
}

#[test]
fn title_may_hold_any_characters() {
    assert_eq!(init("größe/日本語/naïve café.rs").title, "naïve café.rs");
    assert_eq!(init("a\\b/c\\d").title, "c\\d");
}

#[test]
fn space_tags_are_plain_markers() {
    assert_eq!(std::mem::size_of::<NDCSpace>(), 0);
    assert_eq!(std::mem::size_of::<ViewSpace>(), 0);
    assert_eq!(std::mem::size_of::<WorldSpace>(), 0);
    assert_eq!(std::mem::size_of::<TriangleSpace>(), 0);
    assert_eq!(WorldSpace, WorldSpace);
}
