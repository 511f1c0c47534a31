use state::errors::StateErr;
use state::host::{FLAG_IS_POD, FLAG_IS_PORTABLE};
use state::retrieve::{RawRetrieveHandle, StatePropertyReader};
use state::storage::{NullHost, Storage};
use state::store::RawStoreHandle;

#[test]
fn discarded_draft_commits_nothing() {
    let mut handle = RawStoreHandle::new(Some(Storage::new()));
    handle.draft(5);
    handle.write_int(5, 10, 42);
    handle.discard(5);
    assert_eq!(None, handle.commit(5));
}

#[test]
fn never_drafted_commits_nothing() {
    let mut handle = RawStoreHandle::new(Some(Storage::new()));
    assert_eq!(None, handle.commit(9));
}

#[test]
fn second_draft_replaces_first() {
    let mut handle = RawStoreHandle::new(Some(Storage::new()));
    handle.draft(7);
    handle.write_int(7, 10, 1);
    handle.draft(7);
    handle.write_int(7, 10, 2);
    assert_eq!(Some(Ok(())), handle.commit(7));
    let storage = handle.into_host().unwrap();
    let (type_, _flags, value) = storage.get(7).unwrap();
    assert_eq!(10, type_);
    assert_eq!(
        2,
        i32::from_le_bytes([value[0], value[1], value[2], value[3]])
    );
    assert_eq!(vec![7], storage.keys());
}

#[test]
fn commit_all_on_empty_buffer() {
    let mut handle = RawStoreHandle::new(Some(Storage::new()));
    assert_eq!(Ok(()), handle.commit_all());
    let storage = handle.into_host().unwrap();
    assert!(storage.keys().is_empty());
}

#[test]
fn recommit_returns_nothing() {
    let mut handle = RawStoreHandle::new(Some(Storage::new()));
    handle.draft(3);
    handle.write_int(3, 10, 8);
    assert_eq!(Some(Ok(())), handle.commit(3));
    assert_eq!(None, handle.commit(3));
    let storage = handle.into_host().unwrap();
    assert_eq!(vec![3], storage.keys());
}

#[test]
fn int_round_trip() {
    let mut handle = RawStoreHandle::new(Some(Storage::new()));
    handle.draft(1);
    handle.write_int(1, 10, 17);
    assert_eq!(Some(Ok(())), handle.commit(1));
    let storage = handle.into_host().unwrap();
    let retrieve_handle = RawRetrieveHandle::new(Some(storage));
    assert_eq!(
        17,
        retrieve_handle.retrieve(1).unwrap().read_int(10).unwrap()
    );
}

#[test]
fn negative_int_round_trip() {
    let mut handle = RawStoreHandle::new(Some(Storage::new()));
    handle.draft(1);
    handle.write_int(1, 10, -123456);
    assert_eq!(Some(Ok(())), handle.commit(1));
    let storage = handle.into_host().unwrap();
    let retrieve_handle = RawRetrieveHandle::new(Some(storage));
    assert_eq!(
        -123456,
        retrieve_handle.retrieve(1).unwrap().read_int(10).unwrap()
    );
}

#[test]
fn vector_round_trip() {
    let mut handle = RawStoreHandle::new(Some(Storage::new()));
    handle.draft(3);
    handle.begin_vector(3, 12, 10);
    let elems: Vec<i32> = vec![1, 2, 3, 4];
    handle.append_vector_ints(3, &elems);
    assert_eq!(Ok(()), handle.commit_all());
    let storage = handle.into_host().unwrap();
    let retrieve_handle = RawRetrieveHandle::new(Some(storage));
    assert_eq!(
        vec![1, 2, 3, 4],
        retrieve_handle.retrieve(3).unwrap().read_vector(12, 10).unwrap()
    );
}

#[test]
fn vector_appended_in_pieces() {
    let mut handle = RawStoreHandle::new(Some(Storage::new()));
    handle.draft(3);
    handle.begin_vector(3, 12, 10);
    handle.append_vector_ints(3, &vec![1, 2]);
    handle.append_vector_ints(3, &vec![3, 4]);
    assert_eq!(Some(Ok(())), handle.commit(3));
    let storage = handle.into_host().unwrap();
    let retrieve_handle = RawRetrieveHandle::new(Some(storage));
    assert_eq!(
        vec![1, 2, 3, 4],
        retrieve_handle.retrieve(3).unwrap().read_vector(12, 10).unwrap()
    );
}

#[test]
fn uncommitted_draft_is_not_retrievable() {
    let mut handle = RawStoreHandle::new(Some(Storage::new()));
    handle.draft(4);
    handle.write_int(4, 10, 99);
    let storage = handle.into_host().unwrap();
    let retrieve_handle = RawRetrieveHandle::new(Some(storage));
    assert!(retrieve_handle.retrieve(4).is_none());
}

#[test]
fn absent_store_callback_is_bad_callback() {
    let mut handle = RawStoreHandle::<Storage>::new(None);
    handle.draft(2);
    handle.write_int(2, 10, 5);
    assert_eq!(Some(Err(StateErr::BadCallback)), handle.commit(2));
    assert_eq!(None, handle.commit(2));
}

#[test]
fn absent_store_callback_fails_commit_all() {
    let mut handle = RawStoreHandle::<Storage>::new(None);
    handle.draft(2);
    handle.write_int(2, 10, 5);
    assert_eq!(Err(StateErr::BadCallback), handle.commit_all());
    assert_eq!(None, handle.commit(2));
}

#[test]
fn absent_retrieve_callback_returns_nothing() {
    let handle = RawRetrieveHandle::<Storage>::new(None);
    assert!(handle.retrieve(1).is_none());
}

#[test]
fn null_data_pointer_returns_nothing() {
    let handle = RawRetrieveHandle::new(Some(NullHost {}));
    assert!(handle.retrieve(1).is_none());
    assert!(handle.retrieve(0).is_none());
}

#[test]
fn empty_draft_is_bad_data() {
    let mut handle = RawStoreHandle::new(Some(Storage::new()));
    handle.draft(6);
    assert_eq!(Some(Err(StateErr::BadData)), handle.commit(6));
    let storage = handle.into_host().unwrap();
    assert!(storage.keys().is_empty());
}

#[test]
fn status_codes_map_losslessly() {
    assert_eq!(Ok(()), StateErr::from(0));
    assert_eq!(Err(StateErr::Unknown), StateErr::from(1));
    assert_eq!(Err(StateErr::BadType), StateErr::from(2));
    assert_eq!(Err(StateErr::BadFlags), StateErr::from(3));
    assert_eq!(Err(StateErr::NoFeature), StateErr::from(4));
    assert_eq!(Err(StateErr::NoProperty), StateErr::from(5));
    assert_eq!(Err(StateErr::NoSpace), StateErr::from(6));
    assert_eq!(Err(StateErr::Unknown), StateErr::from(7));
    assert_eq!(Err(StateErr::Unknown), StateErr::from(4096));
}

#[test]
fn commit_asserts_pod_and_portable() {
    let mut handle = RawStoreHandle::new(Some(Storage::new()));
    handle.draft(1);
    handle.write_int(1, 10, 17);
    assert_eq!(Some(Ok(())), handle.commit(1));
    let storage = handle.into_host().unwrap();
    let (_type, flags, _value) = storage.get(1).unwrap();
    assert_eq!(FLAG_IS_POD | FLAG_IS_PORTABLE, flags);
}

#[test]
fn unresolvable_type_returns_nothing() {
    let mut handle = RawStoreHandle::new(Some(Storage::new()));
    handle.draft(1);
    handle.write_int(1, 0, 17);
    assert_eq!(Some(Ok(())), handle.commit(1));
    let storage = handle.into_host().unwrap();
    assert!(storage.get(1).is_some());
    let retrieve_handle = RawRetrieveHandle::new(Some(storage));
    assert!(retrieve_handle.retrieve(1).is_none());
}

#[test]
fn discard_all_empties_the_buffer() {
    let mut handle = RawStoreHandle::new(Some(Storage::new()));
    handle.draft(1);
    handle.write_int(1, 10, 17);
    handle.draft(2);
    handle.write_int(2, 10, 18);
    handle.discard_all();
    assert_eq!(None, handle.commit(1));
    assert_eq!(None, handle.commit(2));
    assert_eq!(Ok(()), handle.commit_all());
    let storage = handle.into_host().unwrap();
    assert!(storage.keys().is_empty());
}

#[test]
fn reader_rejects_wrong_type_or_size() {
    let view = StatePropertyReader::new(10, vec![17, 0, 0, 0]);
    assert_eq!(Some(17), view.read_int(10));
    assert_eq!(None, view.read_int(11));
    assert_eq!(None, view.read_vector(10, 10));
    let short = StatePropertyReader::new(10, vec![17, 0, 0]);
    assert_eq!(None, short.read_int(10));
}

#[test]
fn raw_draft_round_trips_bytes() {
    let mut handle = RawStoreHandle::new(Some(Storage::new()));
    handle.draft(8);
    let payload: Vec<u8> = vec![9, 8, 7, 6, 5];
    handle.write_raw(8, 21, &payload);
    assert_eq!(Some(Ok(())), handle.commit(8));
    let storage = handle.into_host().unwrap();
    let (type_, _flags, value) = storage.get(8).unwrap();
    assert_eq!(21, type_);
    assert_eq!(vec![9, 8, 7, 6, 5], value);
    let retrieve_handle = RawRetrieveHandle::new(Some(storage));
    let view = retrieve_handle.retrieve(8).unwrap();
    assert_eq!(21, view.type_id());
    assert_eq!(&vec![9, 8, 7, 6, 5], view.bytes());
}
