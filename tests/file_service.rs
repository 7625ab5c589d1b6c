use memo_desk::file_service::{DirectoryEntry, FileService};

fn entry(name: &str, is_dir: bool, path: &str) -> DirectoryEntry {
    DirectoryEntry {
        name: name.to_string(),
        is_dir,
        size: if is_dir { None } else { Some(1) },
        path: path.to_string(),
    }
}

#[test]
fn image_extensions_are_accepted_in_any_case() {
    assert!(FileService::check_image_extension(Some("png")).is_ok());
    assert!(FileService::check_image_extension(Some("JPG")).is_ok());
    assert!(FileService::check_image_extension(Some("Jpeg")).is_ok());
    assert!(FileService::check_image_extension(Some("gif")).is_ok());
    assert!(FileService::check_image_extension(Some("webp")).is_ok());
}

#[test]
fn other_extensions_are_refused() {
    assert_eq!(
        FileService::check_image_extension(Some("bmp")).unwrap_err(),
        "サポートされていないファイル形式です"
    );
    assert_eq!(
        FileService::check_image_extension(Some("txt")).unwrap_err(),
        "サポートされていないファイル形式です"
    );
}

#[test]
fn missing_extension_is_refused() {
    assert_eq!(
        FileService::check_image_extension(None).unwrap_err(),
        "ファイル拡張子が不明です"
    );
}

#[test]
fn image_data_is_standard_base64() {
    assert_eq!(FileService::encode_image_data(&b"hello".to_vec()), "aGVsbG8=");
    assert_eq!(FileService::encode_image_data(&vec![0xff, 0xfe, 0x00]), "//4A");
    assert_eq!(FileService::encode_image_data(&Vec::new()), "");
}

#[test]
fn directories_come_first_then_names_in_order() {
    let entries = vec![
        entry("b.txt", false, "/d/b.txt"),
        entry("zeta", true, "/d/zeta"),
        entry("a.txt", false, "/d/a.txt"),
        entry("Alpha", true, "/d/Alpha"),
        entry("alpha", true, "/d/alpha"),
    ];
    let names: Vec<String> = FileService::sort_entries(entries).into_iter().map(|e| e.name).collect();
    assert_eq!(names, vec!["Alpha", "alpha", "zeta", "a.txt", "b.txt"]);
}

#[test]
fn equal_entries_keep_their_order() {
    let entries = vec![entry("same", false, "/first"), entry("same", false, "/second")];
    let paths: Vec<String> = FileService::sort_entries(entries).into_iter().map(|e| e.path).collect();
    assert_eq!(paths, vec!["/first", "/second"]);
}

#[test]
fn empty_directory_stays_empty() {
    assert!(FileService::sort_entries(Vec::new()).is_empty());
}
