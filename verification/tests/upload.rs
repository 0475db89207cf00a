use smackup::upload::{
    assembly_step, chunk_path, field_kind, final_path, AssemblyStep, FieldKind, UploadAction, UploadError, UploadOutcome,
    UploadState,
};

fn s(x: &str) -> Option<String> {
    Some(x.to_string())
}

fn write_path(a: UploadAction) -> String {
    match a {
        UploadAction::WriteChunk(p) => p,
        _ => panic!("expected a write"),
    }
}

#[test]
fn fields_are_known_by_name() {
    assert_eq!(field_kind(Some("name")), FieldKind::Name);
    assert_eq!(field_kind(Some("file")), FieldKind::File);
    assert_eq!(field_kind(Some("chunk")), FieldKind::Chunk);
    assert_eq!(field_kind(Some("originalFilename")), FieldKind::OriginalFilename);
    assert_eq!(field_kind(Some("uploadPath")), FieldKind::UploadPath);
    assert_eq!(field_kind(Some("totalChunks")), FieldKind::TotalChunks);
    assert_eq!(field_kind(Some("File")), FieldKind::Other);
    assert_eq!(field_kind(None), FieldKind::Other);
}

#[test]
fn chunk_paths_are_numbered() {
    assert_eq!(chunk_path("tmp_12", 3), "./smbackup_tmp/tmp_12_3");
    assert_eq!(chunk_path("photo.jpg", 0), "./smbackup_tmp/photo.jpg_0");
}

#[test]
fn random_tmp_names() {
    let st = UploadState::new();
    let p = st.tmp_file_path();
    assert!(p.starts_with("./smbackup_tmp/tmp_"));
    assert!(p["./smbackup_tmp/tmp_".len()..].parse::<u64>().is_ok());
    assert_eq!(UploadState::with_number(42).tmp_file_path(), "./smbackup_tmp/tmp_42");
}

#[test]
fn chunk_number_before_bytes() {
    let mut st = UploadState::with_number(7);
    assert!(matches!(st.apply(FieldKind::Chunk, s("2")), UploadAction::Nothing));
    assert_eq!(write_path(st.apply(FieldKind::File, None)), "./smbackup_tmp/tmp_7_2");
}

#[test]
fn bytes_before_chunk_number_are_renamed() {
    let mut st = UploadState::with_number(7);
    assert_eq!(write_path(st.apply(FieldKind::File, None)), "./smbackup_tmp/tmp_7_tmp");
    match st.apply(FieldKind::Chunk, s("0")) {
        UploadAction::Rename(a, b) => {
            assert_eq!(a, "./smbackup_tmp/tmp_7_tmp");
            assert_eq!(b, "./smbackup_tmp/tmp_7_0");
        }
        _ => panic!("expected a rename"),
    }
}

#[test]
fn missing_fields_are_errors() {
    let st = UploadState::with_number(1);
    assert_eq!(st.conclude().err(), Some(UploadError::MissingOriginalFilename));
    let mut st = UploadState::with_number(1);
    st.apply(FieldKind::OriginalFilename, s("a.txt"));
    assert_eq!(st.conclude().err(), Some(UploadError::MissingChunkIndex));
    st.apply(FieldKind::Chunk, s("x"));
    assert_eq!(st.conclude().err(), Some(UploadError::MissingChunkIndex));
}

fn request(fields: &[(FieldKind, Option<String>)]) -> UploadState {
    let mut st = UploadState::with_number(9);
    for (k, t) in fields {
        st.apply(*k, t.clone());
    }
    st
}

#[test]
fn last_chunk_is_assembled_under_the_given_name() {
    let st = request(&[
        (FieldKind::Name, s("holiday")),
        (FieldKind::Chunk, s("2")),
        (FieldKind::File, None),
        (FieldKind::OriginalFilename, s("IMG_1.jpeg")),
        (FieldKind::UploadPath, s("/photos")),
        (FieldKind::TotalChunks, s("2")),
    ]);
    let plan = st.conclude().unwrap();
    assert_eq!(plan.rename_from, "./smbackup_tmp/tmp_9_2");
    assert_eq!(plan.rename_to, "./smbackup_tmp/IMG_1.jpeg_2");
    match plan.outcome {
        UploadOutcome::Assemble { folder, file_name, chunk_base, last_chunk } => {
            assert_eq!(final_path("./data/data1", &folder, &file_name), "./data/data1/photos/holiday.jpeg");
            assert_eq!(chunk_base, "IMG_1.jpeg");
            assert_eq!(last_chunk, 2);
        }
        _ => panic!("expected assembly"),
    }
}

#[test]
fn same_or_empty_name_keeps_the_original() {
    for name in ["a.txt", ""] {
        let st = request(&[
            (FieldKind::Chunk, s("0")),
            (FieldKind::File, None),
            (FieldKind::Name, s(name)),
            (FieldKind::OriginalFilename, s("a.txt")),
            (FieldKind::UploadPath, s("")),
            (FieldKind::TotalChunks, s("0")),
        ]);
        match st.conclude().unwrap().outcome {
            UploadOutcome::Assemble { folder, file_name, .. } => {
                assert_eq!(final_path("./d", &folder, &file_name), "./d/a.txt")
            }
            _ => panic!("expected assembly"),
        }
    }
}

#[test]
fn earlier_chunks_report_progress() {
    let st = request(&[
        (FieldKind::Chunk, s("1")),
        (FieldKind::File, None),
        (FieldKind::OriginalFilename, s("a.txt")),
        (FieldKind::UploadPath, s("/")),
        (FieldKind::TotalChunks, s("4")),
    ]);
    match st.conclude().unwrap().outcome {
        UploadOutcome::Progress { chunk, total } => assert_eq!((chunk, total), (1, 4)),
        _ => panic!("expected progress"),
    }
}

#[test]
fn requests_without_bytes_are_bad() {
    let st = request(&[
        (FieldKind::Chunk, s("1")),
        (FieldKind::OriginalFilename, s("a.txt")),
        (FieldKind::UploadPath, s("/")),
        (FieldKind::TotalChunks, s("1")),
    ]);
    assert!(matches!(st.conclude().unwrap().outcome, UploadOutcome::BadRequest));
    let st = request(&[
        (FieldKind::Chunk, s("1")),
        (FieldKind::File, None),
        (FieldKind::OriginalFilename, s("a.txt")),
        (FieldKind::TotalChunks, s("1")),
    ]);
    assert!(matches!(st.conclude().unwrap().outcome, UploadOutcome::BadRequest));
}

#[test]
fn ending_kept_from_an_earlier_original_name() {
    let st = request(&[
        (FieldKind::OriginalFilename, s("x.png")),
        (FieldKind::OriginalFilename, s("plain")),
        (FieldKind::Name, s("new")),
        (FieldKind::Chunk, s("0")),
        (FieldKind::File, None),
        (FieldKind::UploadPath, s("")),
        (FieldKind::TotalChunks, s("0")),
    ]);
    match st.conclude().unwrap().outcome {
        UploadOutcome::Assemble { folder, file_name, .. } => assert_eq!(final_path("m", &folder, &file_name), "m/new.png"),
        _ => panic!("expected assembly"),
    }
}

#[test]
fn different_chunks_have_different_files() {
    let paths: Vec<String> = [0u32, 1, 10, 11, 100].iter().map(|i| chunk_path("tmp_5", *i)).collect();
    for a in 0..paths.len() {
        for b in 0..paths.len() {
            assert_eq!(a == b, paths[a] == paths[b]);
        }
    }
}

#[test]
fn error_messages() {
    assert_eq!(UploadError::MissingOriginalFilename.message(), "Original file name not found");
    assert_eq!(UploadError::MissingChunkIndex.message(), "Chunk index not found");
    assert_eq!(smackup::serve::FolderError::InvalidName.message(), "Invalid folder name");
}

#[test]
fn assembly_joins_chunks_in_order() {
    match assembly_step(false, "a.txt", 2) {
        AssemblyStep::Join(files) => assert_eq!(
            files,
            vec!["./smbackup_tmp/a.txt_0", "./smbackup_tmp/a.txt_1", "./smbackup_tmp/a.txt_2"]
        ),
        AssemblyStep::Conflict => panic!("expected a join"),
    }
    match assembly_step(false, "b", 0) {
        AssemblyStep::Join(files) => assert_eq!(files, vec!["./smbackup_tmp/b_0"]),
        AssemblyStep::Conflict => panic!("expected a join"),
    }
}

#[test]
fn existing_files_are_not_overwritten() {
    assert!(matches!(assembly_step(true, "a.txt", 2), AssemblyStep::Conflict));
    assert!(matches!(assembly_step(true, "a.txt", u32::MAX), AssemblyStep::Conflict));
}

#[test]
fn final_path_appends_the_folder_text() {
    assert_eq!(final_path("./data", "/photos", "x.png"), "./data/photos/x.png");
    assert_eq!(final_path("./data", "", "x.png"), "./data/x.png");
}
