//! Near-duplicate image detection library.
//!
//! The core is a fingerprint index: it computes a compact numeric fingerprint
//! for each image, keeps the fingerprints of every image accepted so far for
//! one partition (for example, one chat room), and classifies each newly
//! submitted image as either a first sighting (`New`) or a near-duplicate of
//! a specific earlier entry (`AlreadyExists`). Accepted images are handed to
//! a persistence port so the index can be rebuilt after a restart.

use vstd::prelude::*;

mod contract;
mod filestore;
mod fingerprint;
mod handler;
mod image;
mod imagedb;
mod meta;
mod registry;
mod storage;

pub use contract::{
    ApiResult, Chat, Document, File, GetFileResponse, Message, PhotoSize, Update, User,
};
pub use filestore::{
    find_entry, find_named, image_records, is_sidecar, is_sidecar_name,
    lemma_find_named_characterization, lemma_primaries_push, lemma_primary_member,
    lemma_saved_listing_round_trip, lemma_saved_listing_shape, lemma_sidecar_for_injective,
    lemma_sidecar_for_is_sidecar, listing_view, load_from_listing, loaded_images_match,
    meta_suffix, primaries, saved_listing, sidecar_for, sidecar_name, str_eq,
};
pub use fingerprint::{
    abs_diff, compute_fingerprint, decodable, distance, distance_of, fingerprint_of, lane_sum,
    lemma_distance_symmetric, lemma_distance_zero_nonneg, Fingerprint, DUPLICATE_THRESHOLD,
    LANE_BOUND,
};
pub use handler::{
    best_file_id, chosen_file_id, ext_of, ext_start, get_file_path_if_processable, lower_ascii,
    lower_char, photo_pick, processable_ext, size_of, storage_file_name,
};
pub use image::{copy_bytes, Image, ImageVariant, Metadata};
pub use imagedb::{
    best_index, best_match, best_upto, build_index, entries_of, entry_of, finds_duplicate,
    lemma_best_match_is_first_minimum, lemma_empty_partition_classifies_new,
    lemma_index_determined_by_store, lemma_new_entry_is_distant,
    lemma_second_beyond_threshold_is_new,
    lemma_second_within_threshold_is_duplicate, lemma_submit_pair_beyond_threshold,
    lemma_submit_pair_within_threshold, lemma_tie_break_earliest_wins, lemma_wf_entries,
    submit_outcome, ImageDb, ImageDbError,
};
pub use meta::{
    chars_bytes, lemma_chars_bytes_len, lemma_chars_bytes_push, lemma_meta_record_parses,
    lemma_parse_round_trip, lemma_parse_sound, lemma_u64_i64_round, meta_record, parse_name,
    valid_scalar, ImageMetadata, NAME_END_MARK,
};
pub use registry::{lemma_slots_map_props, slots_map, Registry};
pub use storage::{InMemoryStorage, Storage, StorageError};

verus! {

} // verus!
