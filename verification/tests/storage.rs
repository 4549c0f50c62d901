use keystone_cc::file_storage::{
    sanitize_name, FileError, FileStorage, FileStorageResource, MemoryFileStorage,
};

#[test]
fn memory_storage_reads_back_what_was_written() {
    let mut storage = MemoryFileStorage::new();
    assert!(storage.load("stage_progress.ron").unwrap().is_none());
    storage.save("stage_progress.ron", b"(unlocked_until:(2))").unwrap();
    storage.save("stage_scripts.ron", b"{}").unwrap();
    storage.save("stage_progress.ron", b"(unlocked_until:(3))").unwrap();
    assert_eq!(
        storage.load("stage_progress.ron").unwrap(),
        Some(b"(unlocked_until:(3))".to_vec())
    );
    assert_eq!(storage.load("stage_scripts.ron").unwrap(), Some(b"{}".to_vec()));
    assert!(storage.load("game_settings.ron").unwrap().is_none());
}

#[test]
fn storage_resource_writes_through_its_backend() {
    let mut resource = FileStorageResource::new(MemoryFileStorage::new());
    resource.backend_mut().save("a", &[1, 2, 3]).unwrap();
    assert_eq!(resource.backend().load("a").unwrap(), Some(vec![1, 2, 3]));
}

#[test]
fn file_errors_have_messages() {
    assert_eq!(FileError::Unavailable.message(), "storage is unavailable");
    assert_eq!(FileError::Other("disk full".to_string()).message(), "disk full");
    let io = std::io::Error::new(std::io::ErrorKind::Other, "broken pipe");
    assert_eq!(FileError::Io(io).message(), "broken pipe");
}

#[test]
fn remote_names_drop_one_leading_slash() {
    assert_eq!(sanitize_name("/stage_progress.ron"), "stage_progress.ron");
    assert_eq!(sanitize_name("//x"), "/x");
    assert_eq!(sanitize_name("stage_scripts.ron"), "stage_scripts.ron");
    assert_eq!(sanitize_name(""), "");
}
