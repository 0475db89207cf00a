use smackup::mirror::{entry_action, join_path, EntryAction};

#[test]
fn join_path_agrees_with_std() {
    for (base, name) in [("./data/a", "x"), ("./data/a/", "x"), ("", "x"), ("/a", "/etc"), ("a", "")] {
        let expected = std::path::Path::new(base).join(name).to_string_lossy().to_string();
        assert_eq!(join_path(base, name), expected, "{} {}", base, name);
    }
}

#[test]
fn entries_are_copied_only_when_missing() {
    assert_eq!(entry_action(true, false, false), EntryAction::CreateAndDescend);
    assert_eq!(entry_action(true, false, true), EntryAction::Descend);
    assert_eq!(entry_action(false, true, false), EntryAction::Copy);
    assert_eq!(entry_action(false, true, true), EntryAction::Skip);
    assert_eq!(entry_action(false, false, false), EntryAction::Skip);
}
