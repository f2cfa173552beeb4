use bubble::basin::{loaded_record, record_loaded, BufferTable};
use bubble::basin::{
    add_record, async_read_window, is_persistent, plan_get, read_window, record_from_options,
    window_bytes, BufferId, BufferMeta, BufferOptions, Example, Example0_1_0, Example0_2_0, GetPlan,
    Property,
};

#[test]
fn versioned_examples_hold_their_fields() {
    let example010: Example0_1_0 = Example::builder().a(1).b(2).build().to_versioned();
    let example020: Example0_2_0 = Example::builder().a(1).b(2).c("hello".to_string()).build().to_versioned();
    assert_eq!(example010.a, 1);
    assert_eq!(example010.b, 2);
    assert_eq!(example020.a, 1);
    assert_eq!(example020.b, 2);
    assert_eq!(example020.c, "hello".to_string());
    let defaults = Example::builder().build();
    assert_eq!(defaults.a, 0);
    assert_eq!(defaults.b, 0);
    assert_eq!(defaults.c, "");
}

#[test]
fn property_looks_through() {
    let base = 10;
    let own: Property<i32> = Property::Overriden(3);
    let inherited: Property<i32> = Property::Prototype;
    assert_eq!(*own.value_or(&base), 3);
    assert_eq!(*inherited.value_or(&base), 10);
}

#[test]
fn buffer_ids() {
    let r = BufferId::runtime(4);
    let h = BufferId::hash(99);
    assert!(r.to_cache_id().is_some());
    assert!(h.to_cache_id().is_none());
    assert_eq!(r.runtime_key(), 4);
    assert_eq!(h.hash_key(), 99);
    assert!(r.to_cache_id().unwrap().0 == r);
}

#[test]
fn records_of_new_buffers() {
    let mem = record_from_options(BufferOptions::Memory { hash: None, data: vec![1, 2] }, 77);
    assert_eq!(mem.hash, 77);
    assert_eq!(mem.data, Some(vec![1, 2]));
    assert!(!is_persistent(&mem.meta));
    let given = add_record(BufferOptions::Memory { hash: Some(5), data: vec![3] });
    assert_eq!(given.hash, 5);
    let file = add_record(BufferOptions::LocalStorage {
        hash: None,
        filename: "data.bin".to_string(),
        offset: None,
        size: Some(8),
    });
    assert_eq!(file.hash, 0);
    assert!(file.data.is_none());
    assert!(is_persistent(&file.meta));
    match file.meta {
        BufferMeta::LocalStorage { filename, offset, size } => {
            assert_eq!(filename, "data.bin");
            assert_eq!(offset, 0);
            assert_eq!(size, Some(8));
        },
        _ => panic!("a file buffer keeps its file"),
    }
}

#[test]
fn memory_hashes_are_computed_from_data() {
    let a = add_record(BufferOptions::Memory { hash: None, data: vec![1, 2, 3] });
    let b = add_record(BufferOptions::Memory { hash: None, data: vec![1, 2, 3] });
    let c = add_record(BufferOptions::Memory { hash: None, data: vec![1, 2, 4] });
    assert_eq!(a.hash, b.hash);
    assert_ne!(a.hash, c.hash);
}

#[test]
fn get_plans() {
    assert!(plan_get(&BufferMeta::Memory, true) == GetPlan::UseLoaded);
    let file = BufferMeta::LocalStorage { filename: "f".to_string(), offset: 0, size: None };
    assert!(plan_get(&file, false) == GetPlan::ReadFile);
    assert!(plan_get(&file, true) == GetPlan::UseLoaded);
}

#[test]
fn read_windows() {
    assert_eq!(read_window(10, 0, None), (0, 10));
    assert_eq!(read_window(10, 4, None), (4, 6));
    assert_eq!(read_window(10, 2, Some(3)), (2, 3));
    let file: Vec<u8> = (0u8..10).collect();
    assert_eq!(window_bytes(&file, 2, Some(3)), vec![2, 3, 4]);
    assert_eq!(window_bytes(&file, 7, None), vec![7, 8, 9]);
    assert_eq!(window_bytes(&file, 0, None), file);
    assert_eq!(async_read_window(10, 2, Some(3)), (2, 3));
    assert_eq!(async_read_window(10, 2, None), (2, 10));
}

#[test]
fn loaded_file_records_keep_data() {
    let file = add_record(BufferOptions::LocalStorage {
        hash: Some(1),
        filename: "data.bin".to_string(),
        offset: Some(2),
        size: None,
    });
    let loaded = record_loaded(file, vec![9, 8, 7]);
    assert_eq!(loaded.data, Some(vec![9, 8, 7]));
    let same = add_record(BufferOptions::Memory { hash: None, data: vec![9, 8, 7] });
    assert_eq!(loaded.hash, same.hash);
    match loaded.meta {
        BufferMeta::LocalStorage { offset, .. } => assert_eq!(offset, 2),
        _ => panic!("a loaded file buffer keeps its file"),
    }
}

#[test]
fn loaded_records_keep_the_computed_hash() {
    let file = add_record(BufferOptions::LocalStorage { hash: None, filename: "f".to_string(), offset: None, size: None });
    let r = loaded_record(file, vec![1, 2], 42);
    assert_eq!(r.hash, 42);
    assert_eq!(r.data, Some(vec![1, 2]));
}

#[test]
fn buffer_table_books() {
    let mut table = BufferTable::new();
    let m = table.add(BufferOptions::Memory { hash: Some(9), data: vec![1, 2, 3] });
    assert!(m == BufferId::runtime(0));
    let f = table.add(BufferOptions::LocalStorage {
        hash: Some(5),
        filename: "data.bin".to_string(),
        offset: Some(2),
        size: Some(3),
    });
    assert!(f == BufferId::runtime(1));
    // a file buffer with a known hash reuses the buffer that has it
    let again = table.add(BufferOptions::LocalStorage {
        hash: Some(5),
        filename: "other.bin".to_string(),
        offset: None,
        size: None,
    });
    assert!(again == f);
    let also_mem = table.add(BufferOptions::LocalStorage { hash: Some(9), filename: "x".to_string(), offset: None, size: None });
    assert!(also_mem == m);
    assert_eq!(table.len(), 2);
    assert_eq!(table.hash(m), Some(9));
    assert!(table.is_loaded(m));
    assert!(!table.is_loaded(f));
    assert!(table.is_persistent_buffer(f));
    assert!(!table.is_persistent_buffer(m));
    assert_eq!(table.buffer_size(m), Some(3));
    assert!(table.record(BufferId::hash(9)).is_none());
    assert!(table.record(BufferId::runtime(7)).is_none());
    let file: Vec<u8> = (0u8..10).collect();
    let bytes = table.load_from_file(f, &file);
    assert_eq!(bytes, vec![2, 3, 4]);
    assert!(table.is_loaded(f));
    assert_eq!(table.buffer_size(f), Some(3));
    let computed = add_record(BufferOptions::Memory { hash: None, data: vec![2, 3, 4] }).hash;
    assert_eq!(table.hash(f), Some(computed));
    table.remove(m);
    assert!(table.record(m).is_none());
    assert!(table.hash(m).is_none());
    table.remove(BufferId::runtime(50));
    assert_eq!(table.record(f).unwrap().hash, computed);
    let copy = record_from_options(BufferOptions::Memory { hash: Some(1), data: vec![0] }, 0);
    table.store_loaded(0, copy);
    assert_eq!(table.hash(m), Some(1));
}
