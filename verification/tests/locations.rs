use smackup::locations::{folder_step, get_main_loc, replica_paths, sync_plan, FolderStep};

#[test]
fn main_location_is_the_first() {
    assert_eq!(get_main_loc("./data/data1:./data/data2"), "./data/data1");
    assert_eq!(get_main_loc("/only"), "/only");
    assert_eq!(get_main_loc(""), "");
    assert_eq!(get_main_loc(":x"), "");
}

#[test]
fn sync_plan_pairs_every_two_distinct_locations() {
    let plan = sync_plan("a:b:c");
    let expected: Vec<(String, String)> = vec![
        ("b", "a"), ("c", "a"),
        ("a", "b"), ("c", "b"),
        ("a", "c"), ("b", "c"),
    ]
    .into_iter()
    .map(|(s, d)| (s.to_string(), d.to_string()))
    .collect();
    assert_eq!(plan, expected);
}

#[test]
fn sync_plan_skips_equal_locations() {
    let plan = sync_plan("a:a:b");
    let expected: Vec<(String, String)> = vec![("b", "a"), ("b", "a"), ("a", "b"), ("a", "b")]
        .into_iter()
        .map(|(s, d)| (s.to_string(), d.to_string()))
        .collect();
    assert_eq!(plan, expected);
    assert!(sync_plan("only").is_empty());
}

#[test]
fn every_location_gets_the_file() {
    assert_eq!(
        replica_paths("./data/data1:./data/data2", "photo.jpg"),
        vec!["./data/data1/photo.jpg", "./data/data2/photo.jpg"]
    );
}

#[test]
fn folders_are_created_only_when_allowed() {
    assert_eq!(folder_step(true, None), FolderStep::Keep);
    assert_eq!(folder_step(true, Some("True")), FolderStep::Keep);
    assert_eq!(folder_step(false, Some("True")), FolderStep::Create);
    assert_eq!(folder_step(false, Some("true")), FolderStep::Refuse);
    assert_eq!(folder_step(false, Some("False")), FolderStep::Refuse);
    assert_eq!(folder_step(false, None), FolderStep::Refuse);
}
