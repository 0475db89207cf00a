use smackup::serve::{new_folder_path, plan_overview, show_header, valid_folder_name, FolderError, ShowHeader};

fn header(h: ShowHeader) -> (bool, String) {
    match h {
        ShowHeader::ContentType(t) => (false, t),
        ShowHeader::Disposition(t) => (true, t),
    }
}

#[test]
fn shown_files_get_their_type() {
    assert_eq!(header(show_header("notes.txt", false)), (false, "text/plain".to_string()));
    assert_eq!(header(show_header("photo.JPG", false)), (false, "image/jpeg".to_string()));
    assert_eq!(header(show_header("README", false)), (false, "application/octet-stream".to_string()));
}

#[test]
fn downloads_get_an_attachment_header() {
    assert_eq!(
        header(show_header("a b.txt", true)),
        (true, "attachment; filename=\"\"a b.txt\"\"".to_string())
    );
}

#[test]
fn folder_names_are_alphanumeric() {
    assert!(valid_folder_name("photos/2024"));
    assert!(valid_folder_name("Übersicht"));
    assert!(valid_folder_name(""));
    assert!(!valid_folder_name("a b"));
    assert!(!valid_folder_name("../etc"));
    assert!(!valid_folder_name("a-b"));
}

#[test]
fn new_folders_go_under_the_main_location() {
    assert_eq!(new_folder_path("./data/data1", "photos"), Ok("./data/data1/photos".to_string()));
    assert_eq!(new_folder_path("./data/data1", "a.b"), Err(FolderError::InvalidName));
}

#[test]
fn overview_of_a_folder() {
    let o = plan_overview("./data/data1", "photos/2024");
    assert_eq!(o.full_path, "/photos/2024");
    assert_eq!(o.location, "./data/data1/photos/2024");
    assert_eq!(o.current_path, "/photos/2024");
    assert_eq!(o.breadcrumbs.len(), 3);
    let root = plan_overview("./data/data1", "/");
    assert_eq!(root.full_path, "//");
    assert_eq!(root.current_path, "");
}

#[test]
fn relative_steps_are_refused() {
    for bad in ["..", "../etc", "a/./b", "a.b", "a_b", "a%2Fb"] {
        assert!(!valid_folder_name(bad), "{}", bad);
        assert_eq!(new_folder_path("./data", bad), Err(FolderError::InvalidName));
    }
}

#[test]
fn plain_names_are_accepted() {
    assert_eq!(new_folder_path("./d1", "photos"), Ok("./d1/photos".to_string()));
    assert_eq!(new_folder_path("./d1", "A/b9/C"), Ok("./d1/A/b9/C".to_string()));
}
