use librarian::file_metadata::{BaseFileMetadata, CreateFileMetadata, FileMetadata};

#[test]
fn new_marks_file_unassigned() {
    let m = CreateFileMetadata::new(
        "/a/b.mp3".to_string(),
        Some(3),
        "b.mp3".to_string(),
        Some(1000),
        Some(2),
        Some(44100),
        Some(128),
    );
    assert_eq!(m.book_id, -99);
    assert_eq!(m.file_id, Some(3));
    assert_eq!(m.file_name, "b.mp3");
    assert_eq!(m.file_path, "/a/b.mp3");
    assert_eq!(m.duration, Some(1000));
    assert_eq!(m.channels, Some(2));
    assert_eq!(m.sample_rate, Some(44100));
    assert_eq!(m.bitrate, Some(128));
}

#[test]
fn for_path_trims_and_names() {
    let m = BaseFileMetadata::for_path("  /media/Books/00 Opening Credits.mp3 \n");
    assert_eq!(m.file_path, "/media/Books/00 Opening Credits.mp3");
    assert_eq!(m.file_name, "00 Opening Credits.mp3");
    assert_eq!(m.book_id, -99);
    assert_eq!(m.file_id, None);
    assert_eq!(m.duration, None);
    assert_eq!(m.bitrate, None);
}

#[test]
fn for_path_without_file_name() {
    let m = BaseFileMetadata::for_path("/media/..");
    assert_eq!(m.file_name, "");
    assert_eq!(m.file_path, "/media/..");
}

#[test]
fn audio_properties_are_recorded() {
    let mut m = BaseFileMetadata::for_path("x.mp3");
    m.set_audio_properties(3_600_123, Some(64));
    assert_eq!(m.duration, Some(3_600_123));
    assert_eq!(m.bitrate, Some(64));
    m.set_audio_properties(0, None);
    assert_eq!(m.duration, Some(0));
    assert_eq!(m.bitrate, None);
    assert_eq!(m.file_name, "x.mp3");
}

#[test]
fn long_durations_wrap_as_i64() {
    let mut m = BaseFileMetadata::for_path("x.mp3");
    let big: u128 = (i64::MAX as u128) + 1;
    m.set_audio_properties(big, Some(u32::MAX));
    assert_eq!(m.duration, Some(i64::MIN));
    assert_eq!(m.bitrate, Some(u32::MAX as i64));
}

#[test]
fn stored_metadata_holds_its_data() {
    let data = BaseFileMetadata::for_path("/a/b.m4b");
    let stored = FileMetadata { id: 7, data: data.clone() };
    assert_eq!(stored.id, 7);
    assert_eq!(stored.data, data);
}
