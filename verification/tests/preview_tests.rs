use folder_browser::preview::has_binary_extension;
use folder_browser::preview::render_preview;

#[test]
fn binary_extension_gives_placeholder_without_reading() {
    let out = render_preview("photo.PNG", None);
    assert_eq!(out, b"Binary file: photo.PNG".to_vec());
}

#[test]
fn read_failure_gives_unreadable_placeholder() {
    let out = render_preview("notes.txt", None);
    assert_eq!(out, b"Could not read file".to_vec());
}

#[test]
fn null_byte_content_gives_placeholder() {
    let out = render_preview("notes.txt", Some(vec![b'h', b'i', 0, b'!']));
    assert_eq!(out, b"Binary file: notes.txt".to_vec());
}

#[test]
fn small_text_passes_through() {
    let content = b"hello\nworld".to_vec();
    let out = render_preview("notes.txt", Some(content.clone()));
    assert_eq!(out, content);
}

#[test]
fn huge_text_is_truncated_at_fifty_thousand_bytes() {
    let content = vec![b'x'; 60000];
    let out = render_preview("notes.txt", Some(content.clone()));
    let marker = b"...\n\n[File truncated - 60000 bytes total]";
    assert_eq!(out.len(), 50000 + marker.len());
    assert_eq!(&out[..50000], &content[..50000]);
    assert_eq!(&out[50000..], &marker[..]);
}

#[test]
fn exactly_at_the_limit_is_not_truncated() {
    let content = vec![b'y'; 50000];
    let out = render_preview("notes.txt", Some(content.clone()));
    assert_eq!(out, content);
}

#[test]
fn extension_check_is_case_insensitive() {
    assert!(has_binary_extension("archive.TAR"));
    assert!(has_binary_extension("song.mp3"));
    assert!(!has_binary_extension("notes.txt"));
}

#[test]
fn hidden_files_have_no_extension() {
    assert!(!has_binary_extension(".gitignore"));
    assert!(!has_binary_extension("pdf"));
    assert!(has_binary_extension("a.b.pdf"));
}
