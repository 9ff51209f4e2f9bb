use imagedb::{
    best_file_id, compute_fingerprint, distance, get_file_path_if_processable, image_records,
    load_from_listing, storage_file_name, Chat, Document, Image, ImageDb, ImageDbError,
    ImageMetadata, ImageVariant, InMemoryStorage, Message, Metadata, PhotoSize, Registry,
    Storage, StorageError, User,
};

fn meta(name: &str, user_id: i64, message_id: i64) -> ImageMetadata {
    ImageMetadata::new(String::from(name), user_id, message_id)
}

fn img(bytes: &[u8], name: &str) -> Image<ImageMetadata> {
    Image::new(bytes.to_vec(), meta(name, 7, 11))
}

// The three payloads of the concrete scenario: the second is 0.3 distance
// units from the first, the third 5.0 units from the first.
const IMG1: [u8; 4] = [0, 0, 0, 0];
const IMG2: [u8; 4] = [1, 2, 0, 0];
const IMG3: [u8; 4] = [10, 20, 10, 10];

#[test]
fn fingerprint_exact_lanes() {
    let fp = compute_fingerprint(&vec![1, 2, 3, 4, 5]).unwrap();
    let fp2 = compute_fingerprint(&vec![1, 2, 3, 4, 5]).unwrap();
    // lanes: [1 + 5, 2, 3, 4]; identical input gives distance zero.
    assert_eq!(distance(&fp, &fp2), 0);
    let base = compute_fingerprint(&vec![0, 0, 0, 0, 0]).unwrap();
    // L1 distance: 6 + 2 + 3 + 4 = 15 raw tenths.
    assert_eq!(distance(&fp, &base), 15);
    assert_eq!(distance(&base, &fp), 15);
}

#[test]
fn fingerprint_rejects_empty_payload() {
    assert!(compute_fingerprint(&Vec::new()).is_none());
}

#[test]
fn empty_partition_classifies_new() {
    let storage: InMemoryStorage<ImageMetadata> = InMemoryStorage::new();
    let mut db = ImageDb::new(storage).unwrap();
    let r = db.save_image_if_new(img(&IMG1, "a")).unwrap();
    assert_eq!(r, ImageVariant::New);
    assert_eq!(db.image_count(), 1);
}

#[test]
fn detects_similar_images() {
    let first = img(&IMG1, "1");
    let near = img(&IMG2, "2");
    let far = img(&IMG3, "3");

    let storage = InMemoryStorage::new();
    let mut db = ImageDb::new(storage).unwrap();
    let result = db.save_image_if_new(first.clone()).unwrap();
    let result_near = db.save_image_if_new(near).unwrap();
    let result_far = db.save_image_if_new(far).unwrap();

    assert_eq!(result, ImageVariant::New);
    assert_eq!(result_near, ImageVariant::AlreadyExists(first.metadata));
    assert_eq!(result_far, ImageVariant::New);
}

#[test]
fn could_load_images() {
    let first = img(&IMG1, "1");
    let near = img(&IMG2, "2");
    let far = img(&IMG3, "3");

    let mut storage = InMemoryStorage::new();
    storage.save_image(&first).unwrap();
    storage.save_image(&far).unwrap();

    let mut db = ImageDb::new(storage).unwrap();

    let result = db.save_image_if_new(first.clone()).unwrap();
    let result_near = db.save_image_if_new(near).unwrap();
    let result_far = db.save_image_if_new(far.clone()).unwrap();

    assert_eq!(2, db.image_count());
    assert_eq!(result, ImageVariant::AlreadyExists(first.metadata.clone()));
    assert_eq!(result_near, ImageVariant::AlreadyExists(first.metadata));
    assert_eq!(result_far, ImageVariant::AlreadyExists(far.metadata));
}

#[test]
fn rehydration_is_idempotent() {
    // Submitting through one index persists; a fresh index over the same
    // store classifies a new probe identically.
    let mut db1 = ImageDb::new(InMemoryStorage::new()).unwrap();
    db1.save_image_if_new(img(&IMG1, "1")).unwrap();
    db1.save_image_if_new(img(&IMG3, "3")).unwrap();
    let direct = db1.save_image_if_new(img(&IMG2, "2")).unwrap();

    let mut storage = InMemoryStorage::new();
    storage.save_image(&img(&IMG1, "1")).unwrap();
    storage.save_image(&img(&IMG3, "3")).unwrap();
    let mut db2 = ImageDb::new(storage).unwrap();
    let rehydrated = db2.save_image_if_new(img(&IMG2, "2")).unwrap();

    assert_eq!(direct, rehydrated);
    assert_eq!(direct, ImageVariant::AlreadyExists(meta("1", 7, 11)));
}

#[test]
fn tie_break_returns_earliest_entry() {
    // Entries at equal minimum distance from the probe: the earliest wins.
    let a = img(&[0, 0, 0, 0], "a");
    let b = img(&[100, 0, 0, 0], "b");
    let c = img(&[2, 0, 0, 0], "c");
    let mut storage = InMemoryStorage::new();
    storage.save_image(&a).unwrap();
    storage.save_image(&b).unwrap();
    storage.save_image(&c).unwrap();
    let mut db = ImageDb::new(storage).unwrap();
    assert_eq!(db.image_count(), 3);

    let probe = img(&[1, 0, 0, 0], "q");
    let r = db.save_image_if_new(probe).unwrap();
    assert_eq!(r, ImageVariant::AlreadyExists(a.metadata));
}

#[test]
fn decode_error_leaves_index_unchanged() {
    let mut db = ImageDb::new(InMemoryStorage::new()).unwrap();
    db.save_image_if_new(img(&IMG1, "1")).unwrap();
    let r = db.save_image_if_new(img(&[], "empty"));
    assert_eq!(r, Err(ImageDbError::Decode));
    assert_eq!(db.image_count(), 1);
}

/// A persistence port whose writes always fail.
struct BrokenStorage;

impl Storage<ImageMetadata> for BrokenStorage {
    fn save_image(&mut self, _image: &Image<ImageMetadata>) -> Result<(), StorageError> {
        Err(StorageError::Io)
    }

    fn load_images(&self) -> Result<Vec<Image<ImageMetadata>>, StorageError> {
        Ok(Vec::new())
    }
}

#[test]
fn write_failure_surfaces_and_appends_nothing() {
    let mut db = ImageDb::new(BrokenStorage).unwrap();
    let r = db.save_image_if_new(img(&IMG1, "1"));
    assert_eq!(r, Err(ImageDbError::Storage(StorageError::Io)));
    assert_eq!(db.image_count(), 0);
}

#[test]
fn concrete_scenario_one_partition() {
    // Partition "room-1" lives under one key; threshold 1.0; the distances
    // are 0.3 (img1, img2) and 5.0 (img1, img3).
    let room_1: i64 = 1;
    let mut registry: Registry<ImageMetadata, InMemoryStorage<ImageMetadata>> = Registry::new();

    let r1 = registry.submit(room_1, InMemoryStorage::new(), img(&IMG1, "1")).unwrap();
    let r2 = registry.submit(room_1, InMemoryStorage::new(), img(&IMG2, "2")).unwrap();
    let r3 = registry.submit(room_1, InMemoryStorage::new(), img(&IMG3, "3")).unwrap();

    assert_eq!(r1, ImageVariant::New);
    assert_eq!(r2, ImageVariant::AlreadyExists(meta("1", 7, 11)));
    assert_eq!(r3, ImageVariant::New);
    assert_eq!(registry.image_count(room_1), Some(2));
}

#[test]
fn partitions_are_independent() {
    let mut registry: Registry<ImageMetadata, InMemoryStorage<ImageMetadata>> = Registry::new();
    assert_eq!(registry.image_count(5), None);

    let r1 = registry.submit(5, InMemoryStorage::new(), img(&IMG1, "1")).unwrap();
    // The same image in another partition is a first sighting there.
    let r2 = registry.submit(6, InMemoryStorage::new(), img(&IMG1, "1")).unwrap();
    assert_eq!(r1, ImageVariant::New);
    assert_eq!(r2, ImageVariant::New);
    assert_eq!(registry.image_count(5), Some(1));
    assert_eq!(registry.image_count(6), Some(1));
}

#[test]
fn metadata_record_round_trip() {
    let m = meta("lenna.png", -42, 1234567);
    let record = m.encode_record();
    let decoded = ImageMetadata::decode_record(record.as_slice()).unwrap();
    assert_eq!(decoded, m);

    let exotic = meta("фото-1.png", i64::MIN, i64::MAX);
    let record = exotic.encode_record();
    let decoded = ImageMetadata::decode_record(record.as_slice()).unwrap();
    assert_eq!(decoded, exotic);
}

#[test]
fn malformed_records_are_rejected() {
    // Truncated before the name terminator.
    assert!(ImageMetadata::decode_record(&[1, 2, 3]).is_none());
    // A surrogate scalar value in the name.
    let mut bad = Vec::new();
    bad.extend_from_slice(&0xD800u32.to_le_bytes());
    bad.extend_from_slice(&0xFFFF_FFFFu32.to_le_bytes());
    bad.extend_from_slice(&[0u8; 16]);
    assert!(ImageMetadata::decode_record(bad.as_slice()).is_none());
    // A well-formed name but a short tail.
    let mut short = Vec::new();
    short.extend_from_slice(&0xFFFF_FFFFu32.to_le_bytes());
    short.extend_from_slice(&[0u8; 15]);
    assert!(ImageMetadata::decode_record(short.as_slice()).is_none());
    // The record of the empty-named metadata is exactly 20 bytes and decodes.
    let mut ok = Vec::new();
    ok.extend_from_slice(&0xFFFF_FFFFu32.to_le_bytes());
    ok.extend_from_slice(&[0u8; 16]);
    assert_eq!(
        ImageMetadata::decode_record(ok.as_slice()).unwrap(),
        meta("", 0, 0)
    );
}

#[test]
fn durable_records_and_listing_round_trip() {
    let a = img(&IMG1, "a.png");
    let b = img(&IMG3, "b.png");
    let (primary_a, side_a) = image_records(&a);
    let (primary_b, side_b) = image_records(&b);
    assert_eq!(primary_a.0, "a.png");
    assert_eq!(side_a.0, "a.png.meta");
    assert_eq!(primary_a.1, IMG1.to_vec());

    // A listing in scrambled order still pairs up and loads both images.
    let listing = vec![side_b.clone(), primary_a, primary_b, side_a];
    let loaded: Vec<Image<ImageMetadata>> = load_from_listing(&listing).unwrap();
    assert_eq!(loaded.len(), 2);
    assert_eq!(loaded[0].bytes, IMG1.to_vec());
    assert_eq!(loaded[0].metadata, a.metadata);
    assert_eq!(loaded[1].bytes, IMG3.to_vec());
    assert_eq!(loaded[1].metadata, b.metadata);
}

#[test]
fn listing_with_missing_side_record_is_rejected() {
    let a = img(&IMG1, "a.png");
    let (primary_a, _side_a) = image_records(&a);
    let listing = vec![primary_a];
    let r: Result<Vec<Image<ImageMetadata>>, StorageError> = load_from_listing(&listing);
    assert_eq!(r, Err(StorageError::MissingRecord));
}

#[test]
fn listing_with_malformed_side_record_is_rejected() {
    let a = img(&IMG1, "a.png");
    let (primary_a, mut side_a) = image_records(&a);
    side_a.1 = vec![9, 9, 9];
    let listing = vec![primary_a, side_a];
    let r: Result<Vec<Image<ImageMetadata>>, StorageError> = load_from_listing(&listing);
    assert_eq!(r, Err(StorageError::MalformedRecord));
}

#[test]
fn processable_file_paths() {
    assert_eq!(
        get_file_path_if_processable(Some(String::from("photos/file_1.JPG"))),
        Some((String::from("photos/file_1.JPG"), String::from("jpg")))
    );
    assert_eq!(
        get_file_path_if_processable(Some(String::from("a.jpeg"))),
        Some((String::from("a.jpeg"), String::from("jpeg")))
    );
    assert_eq!(
        get_file_path_if_processable(Some(String::from("a.PnG"))),
        Some((String::from("a.PnG"), String::from("png")))
    );
    assert_eq!(get_file_path_if_processable(Some(String::from("archive.zip"))), None);
    assert_eq!(get_file_path_if_processable(Some(String::from("noext"))), None);
    assert_eq!(get_file_path_if_processable(Some(String::from("trailing."))), None);
    assert_eq!(get_file_path_if_processable(None), None);
}

#[test]
fn storage_file_name_joins_id_and_extension() {
    assert_eq!(storage_file_name("abc123", "png"), "abc123.png");
}

fn sample_user() -> User {
    User {
        id: 99,
        is_bot: false,
        first_name: String::from("Ada"),
        last_name: None,
        username: None,
        language_code: None,
    }
}

fn sample_message(
    from: Option<User>,
    document: Option<Document>,
    photo: Option<Vec<PhotoSize>>,
) -> Message {
    Message {
        message_id: 5,
        from,
        chat: Chat {
            id: 1,
            chat_type: String::from("group"),
            first_name: None,
            last_name: None,
            username: None,
        },
        date: 0,
        text: None,
        photo,
        document,
    }
}

fn photo(file_id: &str, file_size: Option<i64>) -> PhotoSize {
    PhotoSize { file_id: String::from(file_id), file_size, width: 1, height: 1 }
}

#[test]
fn best_file_id_prefers_document() {
    let doc = Document {
        file_id: String::from("doc-1"),
        file_name: None,
        mime_type: None,
        thumb: None,
        file_size: Some(10),
    };
    let msg = sample_message(
        Some(sample_user()),
        Some(doc),
        Some(vec![photo("p-1", Some(1000))]),
    );
    assert_eq!(best_file_id(&msg), Some(String::from("doc-1")));
}

#[test]
fn best_file_id_picks_largest_photo_last_tie_wins() {
    let msg = sample_message(
        Some(sample_user()),
        None,
        Some(vec![
            photo("small", Some(10)),
            photo("big-early", Some(500)),
            photo("none", None),
            photo("big-late", Some(500)),
        ]),
    );
    assert_eq!(best_file_id(&msg), Some(String::from("big-late")));
}

#[test]
fn best_file_id_without_sender_or_image() {
    let msg = sample_message(None, None, Some(vec![photo("p", Some(1))]));
    assert_eq!(best_file_id(&msg), None);
    let msg = sample_message(Some(sample_user()), None, None);
    assert_eq!(best_file_id(&msg), None);
    let msg = sample_message(Some(sample_user()), None, Some(Vec::new()));
    assert_eq!(best_file_id(&msg), None);
}

#[test]
fn metadata_capabilities() {
    let m = meta("file-9.png", 3, 4);
    assert_eq!(m.file_name(), "file-9.png");
    let copy = m.dup();
    assert_eq!(copy, m);
    assert_eq!(copy.user_id, 3);
    assert_eq!(copy.message_id, 4);
}
