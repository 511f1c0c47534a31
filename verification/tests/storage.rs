use state::retrieve::{RawRetrieveHandle, StatePropertyReader};
use state::storage::Storage;
use state::store::RawStoreHandle;

fn store(storage: Storage, int_type: u32, float_type: u32, vector_type: u32) -> Storage {
    let mut store_handle = RawStoreHandle::new(Some(storage));

    store_handle.draft(1);
    store_handle.write_int(1, int_type, 17);
    store_handle.draft(2);
    let float_bytes: Vec<u8> = 1.0f32.to_le_bytes().to_vec();
    store_handle.write_raw(2, float_type, &float_bytes);

    store_handle.commit(1).unwrap().unwrap();

    store_handle.draft(3);
    store_handle.begin_vector(3, vector_type, int_type);
    let elems: Vec<i32> = vec![1, 2, 3, 4];
    store_handle.append_vector_ints(3, &elems);

    store_handle.commit_all().unwrap();

    store_handle.draft(4);
    store_handle.write_int(4, int_type, 0);

    store_handle.into_host().unwrap()
}

fn retrieve(storage: Storage, int_type: u32, float_type: u32, vector_type: u32) -> Storage {
    let retrieve_handle = RawRetrieveHandle::new(Some(storage));

    assert_eq!(
        17,
        retrieve_handle.retrieve(1).unwrap().read_int(int_type).unwrap()
    );
    let float_view = retrieve_handle.retrieve(2).unwrap();
    assert_eq!(float_type, float_view.type_id());
    let b = float_view.bytes();
    assert_eq!(
        1.0,
        f32::from_le_bytes([b[0], b[1], b[2], b[3]])
    );
    assert_eq!(
        vec![1, 2, 3, 4],
        retrieve_handle
            .retrieve(3)
            .unwrap()
            .read_vector(vector_type, int_type)
            .unwrap()
    );
    assert!(retrieve_handle.retrieve(4).is_none());

    retrieve_handle.into_host().unwrap()
}

#[test]
fn test_storage() {
    let int_type: u32 = 10;
    let float_type: u32 = 11;
    let vector_type: u32 = 12;

    let storage = Storage::default();

    let storage = store(storage, int_type, float_type, vector_type);

    for key in storage.keys() {
        match key {
            1 => {
                let (type_, _flags, value) = storage.get(1).unwrap();
                assert_eq!(int_type, type_);
                assert_eq!(
                    17,
                    i32::from_le_bytes([value[0], value[1], value[2], value[3]])
                );
            }
            2 => {
                let (type_, _flags, value) = storage.get(2).unwrap();
                assert_eq!(float_type, type_);
                assert_eq!(
                    1.0,
                    f32::from_le_bytes([value[0], value[1], value[2], value[3]])
                );
            }
            3 => {
                let (type_, _flags, value) = storage.get(3).unwrap();
                assert_eq!(vector_type, type_);
                let view = StatePropertyReader::new(type_, value);
                let data = view.read_vector(vector_type, int_type).unwrap();
                assert_eq!(vec![1, 2, 3, 4], data);
            }
            _ => panic!("Invalid key!"),
        }
    }

    let _ = retrieve(storage, int_type, float_type, vector_type);
}
