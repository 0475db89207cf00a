use smackup::listing::{
    breadcrumbs, creation_time_text, describe_entry, entry_detail, file_extension, relative_path, shows_creation_time,
    size_display, EntryDetail, File, SizeDisplay,
};

fn text(d: SizeDisplay) -> Option<String> {
    match d {
        SizeDisplay::Gigabytes => None,
        SizeDisplay::Text(t) => Some(t),
    }
}

#[test]
fn sizes_in_whole_units() {
    assert_eq!(text(size_display(0)), Some("0 B".to_string()));
    assert_eq!(text(size_display(1024)), Some("1024 B".to_string()));
    assert_eq!(text(size_display(1025)), Some("1 KB".to_string()));
    assert_eq!(text(size_display(1048576)), Some("1024 KB".to_string()));
    assert_eq!(text(size_display(3 * 1048576 + 5)), Some("3 MB".to_string()));
    assert_eq!(text(size_display(1073741824)), Some("1024 MB".to_string()));
    assert_eq!(text(size_display(1073741825)), None);
}

#[test]
fn extension_is_after_the_last_dot() {
    assert_eq!(file_extension("archive.tar.gz"), "gz");
    assert_eq!(file_extension("notes"), "");
    assert_eq!(file_extension("trailing."), "");
    assert_eq!(file_extension(".hidden"), "hidden");
}

#[test]
fn entries_for_folders_and_files() {
    let f = File::folder("photos".to_string(), "sub".to_string());
    assert_eq!((f.name.as_str(), f.size.as_str(), f.extension.as_str()), ("photos", "-", "folder"));
    assert_eq!((f.created_at.as_str(), f.relative_path.as_str()), ("-", "sub"));
    let d = File::document("a.txt".to_string(), "3 KB".to_string(), "-".to_string(), "".to_string());
    assert_eq!((d.name.as_str(), d.size.as_str(), d.extension.as_str()), ("a.txt", "3 KB", "txt"));
}

#[test]
fn creation_times_per_platform() {
    assert!(!shows_creation_time(None));
    assert!(!shows_creation_time(Some("ARM")));
    assert!(shows_creation_time(Some("X86")));
    assert!(shows_creation_time(Some("")));
}

#[test]
fn creation_time_is_shown_in_utc() {
    assert_eq!(creation_time_text(1431648000).as_deref(), Some("2015-05-15 00:00:00 UTC"));
    assert_eq!(creation_time_text(0).as_deref(), Some("1970-01-01 00:00:00 UTC"));
    assert!(creation_time_text(i64::MAX).is_none());
}

#[test]
fn relative_path_strips_the_main_location() {
    assert_eq!(relative_path("./data/data1//photos", "./data/data1"), "photos");
    assert_eq!(relative_path("./data/data1/photos/2024", "./data/data1"), "photos/2024");
    assert_eq!(relative_path("./data/data1/", "./data/data1"), "");
}

#[test]
fn breadcrumbs_accumulate_the_path() {
    let crumbs = breadcrumbs("/photos/2024");
    let expected: Vec<(String, String)> = vec![("", "/"), ("photos", "/photos/"), ("2024", "/photos/2024/")]
        .into_iter()
        .map(|(a, b)| (a.to_string(), b.to_string()))
        .collect();
    assert_eq!(crumbs, expected);
}

#[test]
fn last_breadcrumb_links_to_the_whole_path() {
    for p in ["/", "//a", "/photos/2024", "x/y/"] {
        let crumbs = breadcrumbs(p);
        assert_eq!(crumbs.last().unwrap().1, format!("{}/", p));
    }
}

#[test]
fn what_each_entry_needs() {
    assert_eq!(entry_detail(true, Some("X86")), EntryDetail::Folder);
    assert_eq!(entry_detail(false, Some("X86")), EntryDetail::Document { with_creation_time: true });
    assert_eq!(entry_detail(false, Some("ARM")), EntryDetail::Document { with_creation_time: false });
    assert_eq!(entry_detail(false, None), EntryDetail::Document { with_creation_time: false });
}

#[test]
fn entries_as_shown() {
    let d = describe_entry("dir.v2".to_string(), true, "ignored".to_string(), None, "p".to_string());
    assert_eq!((d.size.as_str(), d.extension.as_str(), d.created_at.as_str()), ("-", "folder", "-"));
    let f = describe_entry("a.tar.gz".to_string(), false, "2 KB".to_string(), None, "p".to_string());
    assert_eq!((f.size.as_str(), f.extension.as_str(), f.created_at.as_str()), ("2 KB", "gz", "-"));
    let g = describe_entry("n".to_string(), false, "1 B".to_string(), Some("2015-05-15 00:00:00 UTC".to_string()), "".to_string());
    assert_eq!((g.extension.as_str(), g.created_at.as_str()), ("", "2015-05-15 00:00:00 UTC"));
}
