use nexq::context::ContextManager;
use nexq::db::context::ContextResource as StoredResource;

#[test]
fn rows_round_trip_loaded_resources() {
    let mut manager = ContextManager::new("/managed".to_string());
    let pending = manager.begin_load("notes.txt", "txt").unwrap();
    let loaded = manager.load_file(
        pending,
        "/managed/x_notes.txt".to_string(),
        10,
        "notes".to_string(),
        "/knowledge-base".to_string(),
    );
    let row = StoredResource::from_loaded(&loaded);
    assert_eq!(row.size_bytes, 10);
    assert_eq!(row.token_count, 2);
    assert_eq!(row.source_folder, "/knowledge-base");
    let back = row.to_loaded();
    assert_eq!(back.id, loaded.id);
    assert_eq!(back.name, "notes.txt");
    assert_eq!(back.size_bytes, 10);
    assert_eq!(back.token_count, 2);
    assert_eq!(back.preview, "notes");
    assert_eq!(back.loaded_at, loaded.loaded_at);
}
