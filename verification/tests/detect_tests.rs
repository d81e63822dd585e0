use ai_wiki_core::detect::{detect_file_type, file_type_for_extension, path_extension, FileClassification};
use ai_wiki_core::queue::FileType;

#[test]
fn test_detect_markdown() {
    assert_eq!(
        detect_file_type("notes.md"),
        FileClassification::Ingestable(FileType::Markdown)
    );
    assert_eq!(
        detect_file_type("readme.markdown"),
        FileClassification::Ingestable(FileType::Markdown)
    );
}

#[test]
fn test_detect_pdf() {
    assert_eq!(
        detect_file_type("document.pdf"),
        FileClassification::Ingestable(FileType::Pdf)
    );
}

#[test]
fn test_detect_zip() {
    assert_eq!(
        detect_file_type("archive.zip"),
        FileClassification::Ingestable(FileType::Zip)
    );
}

#[test]
fn test_detect_video() {
    assert_eq!(
        detect_file_type("movie.mp4"),
        FileClassification::Ingestable(FileType::Video)
    );
    assert_eq!(
        detect_file_type("clip.mkv"),
        FileClassification::Ingestable(FileType::Video)
    );
}

#[test]
fn test_detect_audio() {
    assert_eq!(
        detect_file_type("song.mp3"),
        FileClassification::Ingestable(FileType::Audio)
    );
}

#[test]
fn test_unknown_extension() {
    assert_eq!(
        detect_file_type("data.xyz"),
        FileClassification::Ingestable(FileType::Unknown)
    );
}

#[test]
fn test_dmg_is_unknown() {
    // DMG files are no longer rejected; they return Unknown
    assert_eq!(
        detect_file_type("installer.dmg"),
        FileClassification::Ingestable(FileType::Unknown)
    );
}

// ─── Further cases ───────────────────────────────────────────────────────────

#[test]
fn extension_is_compared_without_case() {
    assert_eq!(
        detect_file_type("/docs/NOTES.MD"),
        FileClassification::Ingestable(FileType::Markdown)
    );
    assert_eq!(
        detect_file_type("Talk.WaV"),
        FileClassification::Ingestable(FileType::Audio)
    );
}

#[test]
fn names_without_extension_are_unknown() {
    assert_eq!(detect_file_type("README"), FileClassification::Ingestable(FileType::Unknown));
    assert_eq!(detect_file_type(".md"), FileClassification::Ingestable(FileType::Unknown));
    assert_eq!(detect_file_type("dir/"), FileClassification::Ingestable(FileType::Unknown));
    assert_eq!(detect_file_type(".."), FileClassification::Ingestable(FileType::Unknown));
}

#[test]
fn extension_follows_path_extension() {
    assert_eq!(path_extension("a/b.tar.gz"), Some("gz".to_string()));
    assert_eq!(path_extension("a.b/c"), None);
    assert_eq!(path_extension(".hidden"), None);
    assert_eq!(path_extension("x."), Some("".to_string()));
    assert_eq!(path_extension("/dir/file.txt/"), Some("txt".to_string()));
    assert_eq!(path_extension("notes.md/."), Some("md".to_string()));
}

#[test]
fn every_extension_maps_to_its_type() {
    for (e, t) in [
        ("md", FileType::Markdown),
        ("markdown", FileType::Markdown),
        ("txt", FileType::Text),
        ("text", FileType::Text),
        ("pdf", FileType::Pdf),
        ("zip", FileType::Zip),
        ("mp3", FileType::Audio),
        ("wav", FileType::Audio),
        ("flac", FileType::Audio),
        ("ogg", FileType::Audio),
        ("m4a", FileType::Audio),
        ("mp4", FileType::Video),
        ("mkv", FileType::Video),
        ("avi", FileType::Video),
        ("mov", FileType::Video),
        ("webm", FileType::Video),
        ("doc", FileType::Unknown),
    ] {
        assert_eq!(file_type_for_extension(Some(e)), t, "{e}");
    }
    assert_eq!(file_type_for_extension(None), FileType::Unknown);
}
