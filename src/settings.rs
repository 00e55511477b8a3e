//! Decisions taken before the scatter phase: worker and queue sizes, the
//! per-worker buffer size, the output file name, and what the upstream
//! metadata and permit files say.
use crate::bytes::{le_value, read_le};
use crate::text::text_eq;
use vstd::prelude::*;

verus! {

/// Newest permit-frequency file version this library reads.
pub const PERMIT_FILE_VER: u64 = 2;

/// Smallest size one record can take in memory.
pub const MIN_RECORD_LEN: u64 = 24;

/// Largest size of one per-bucket slice of a worker's scatter buffer.
pub const MAX_LOCAL_BUFFER: u64 = 262_144;

/// Default for the most alignments one record may hold.
pub const DEFAULT_MOST_AMBIG_RECORD: u64 = 2500;

/// Why a collation run cannot go on.
#[derive(Clone, Copy, Debug, PartialEq, Eq)]
pub enum CollateError {
    /// The permit-frequency file has a newer version than this library reads.
    VersionMismatch { found: u64 },
    /// An input ended before a field it must hold.
    Truncated,
    /// A chunk header frames no record or fewer bytes than itself.
    MalformedChunk { n_bytes: u32, n_records: u32 },
    /// After scatter, a bucket did not receive the records planned for it.
    BucketMismatch { bucket: usize },
    /// A count or size does not fit the integer it is computed in.
    SizeOverflow,
    /// Gather did not write one chunk per corrected barcode.
    ChunkCountMismatch { expected: u64, written: u64 },
}

/// Whether the permit list keeps known cells only.
#[derive(Clone, Copy, Debug, PartialEq, Eq)]
pub enum FilterType {
    Filtered,
    Unfiltered,
}

/// The strand that alignments are normalised to.
#[derive(Clone, Copy, Debug, PartialEq, Eq)]
pub enum Orientation {
    Forward,
    Reverse,
    Unknown,
}

/// The number of worker threads: one thread is kept for reading.
pub open spec fn worker_count_of(num_threads: u32) -> nat {
    if num_threads > 1 {
        (num_threads - 1) as nat
    } else {
        1
    }
}

pub fn worker_count(num_threads: u32) -> (r: usize)
    ensures
        r == worker_count_of(num_threads),
        r >= 1,
{
    if num_threads > 1 {
        (num_threads - 1) as usize
    } else {
        1
    }
}

/// Capacity of the queue of input chunks: four per worker.
pub fn scatter_queue_capacity(n_workers: usize) -> (r: usize)
    requires
        4 * n_workers <= usize::MAX,
    ensures
        r == 4 * n_workers,
{
    4 * n_workers
}

/// Capacity of the queue of temporary buckets: the workers plus half as
/// many again, at least one more.
pub fn gather_queue_capacity(n_workers: usize) -> (r: usize)
    requires
        n_workers + n_workers / 2 + 1 <= usize::MAX,
    ensures
        r == n_workers + if n_workers / 2 > 1 {
            n_workers / 2
        } else {
            1
        },
{
    let slack: usize = if n_workers / 2 > 1 {
        n_workers / 2
    } else {
        1
    };
    n_workers + slack
}

/// Largest in-memory size of one record holding `most_ambig_record`
/// alignments.
pub open spec fn max_record_size(most_ambig_record: u64) -> int {
    24 + 4 * most_ambig_record - 4
}

/// Size of each per-bucket slice of a worker's scatter buffer:
/// `max(1000, 24 * max_records / (num_buckets * n_workers))`, at most
/// `262144`, and never below the largest record.
pub open spec fn local_buffer_size_of(
    most_ambig_record: u64,
    max_records: u32,
    num_buckets: u64,
    n_workers: u64,
) -> int {
    let share = 24 * max_records / (num_buckets * n_workers);
    let wanted = if share > 1000 {
        share
    } else {
        1000
    };
    let capped = if wanted < 262_144 {
        wanted
    } else {
        262_144
    };
    if max_record_size(most_ambig_record) > capped {
        max_record_size(most_ambig_record)
    } else {
        capped
    }
}

pub fn local_buffer_size(most_ambig_record: u64, max_records: u32, num_buckets: u64, n_workers: u64) -> (r: u64)
    requires
        num_buckets > 0,
        n_workers > 0,
        num_buckets * n_workers <= u64::MAX,
        24 + 4 * most_ambig_record <= u64::MAX,
    ensures
        r == local_buffer_size_of(most_ambig_record, max_records, num_buckets, n_workers),
        r >= max_record_size(most_ambig_record),
{
    let parts: u64 = num_buckets * n_workers;
    assert(parts > 0) by (nonlinear_arith)
        requires
            parts == num_buckets * n_workers,
            num_buckets > 0,
            n_workers > 0,
    ;
    let share: u64 = MIN_RECORD_LEN * (max_records as u64) / parts;
    let wanted: u64 = if share > 1000 {
        share
    } else {
        1000
    };
    let capped: u64 = if wanted < MAX_LOCAL_BUFFER {
        wanted
    } else {
        MAX_LOCAL_BUFFER
    };
    let largest: u64 = MIN_RECORD_LEN + 4 * most_ambig_record - 4;
    if largest > capped {
        largest
    } else {
        capped
    }
}

/// Name of the collated output file.
pub open spec fn output_file_name_of(velo_mode: bool, compress_out: bool) -> Seq<char> {
    if velo_mode {
        "velo.map.collated.rad"@
    } else if compress_out {
        "map.collated.rad.sz"@
    } else {
        "map.collated.rad"@
    }
}

pub fn output_file_name(velo_mode: bool, compress_out: bool) -> (r: &'static str)
    ensures
        r@ == output_file_name_of(velo_mode, compress_out),
{
    if velo_mode {
        "velo.map.collated.rad"
    } else if compress_out {
        "map.collated.rad.sz"
    } else {
        "map.collated.rad"
    }
}

/// The permit-list type named by the metadata field, if it holds a string:
/// only `"unfiltered"` gives an unfiltered list.
pub open spec fn filter_type_of(field: Option<Seq<char>>) -> FilterType {
    match field {
        Some(s) => if s == "unfiltered"@ {
            FilterType::Unfiltered
        } else {
            FilterType::Filtered
        },
        None => FilterType::Filtered,
    }
}

/// The permit-list type for the `permit-list-type` field; `field` is `None`
/// where it is absent or not a string.
pub fn filter_type_from_field(field: Option<&str>) -> (r: FilterType)
    ensures
        r == filter_type_of(
            match field {
                Some(s) => Some(s@),
                None => None,
            },
        ),
{
    match field {
        Some(s) => {
            if text_eq(s, "unfiltered") {
                FilterType::Unfiltered
            } else {
                FilterType::Filtered
            }
        },
        None => FilterType::Filtered,
    }
}

/// The most alignments of one record for the `max-ambig-record` field;
/// `field` is `None` where it is absent or not an unsigned integer, which
/// gives the default of 2500.
pub fn most_ambiguous_record_from_field(field: Option<u64>) -> (r: u64)
    ensures
        r == match field {
            Some(v) => v,
            None => DEFAULT_MOST_AMBIG_RECORD,
        },
{
    match field {
        Some(v) => v,
        None => DEFAULT_MOST_AMBIG_RECORD,
    }
}

/// The strand a character denotes: `+ f F` forward, `- r R` reverse,
/// `. ?` unknown; any other character denotes none.
pub open spec fn orientation_of_char(c: char) -> Option<Orientation> {
    if c == '+' || c == 'f' || c == 'F' {
        Some(Orientation::Forward)
    } else if c == '-' || c == 'r' || c == 'R' {
        Some(Orientation::Reverse)
    } else if c == '.' || c == '?' {
        Some(Orientation::Unknown)
    } else {
        None
    }
}

/// Relies on `bio_types::strand::Strand::from_char`, which maps the
/// characters as `orientation_of_char` says and rejects any other.
#[verifier::external_body]
fn strand_from_char(c: char) -> (r: Option<Orientation>)
    ensures
        r == orientation_of_char(c),
{
    match bio_types::strand::Strand::from_char(&c) {
        Ok(bio_types::strand::Strand::Forward) => Some(Orientation::Forward),
        Ok(bio_types::strand::Strand::Reverse) => Some(Orientation::Reverse),
        Ok(bio_types::strand::Strand::Unknown) => Some(Orientation::Unknown),
        Err(_) => None,
    }
}

/// The expected orientation named by the first character of the
/// `expected_ori` field; `None` where the field is empty or the character
/// names no strand.
pub fn orientation_from_field(expected_ori: &str) -> (r: Option<Orientation>)
    ensures
        r == (if expected_ori@.len() == 0 {
            None
        } else {
            orientation_of_char(expected_ori@[0])
        }),
{
    broadcast use {vstd::string::axiom_spec_iter, vstd::string::next_postcondition};

    let mut it = expected_ori.chars();
    match it.next() {
        Some(c) => strand_from_char(c),
        None => None,
    }
}

/// The version recorded in the first eight bytes of a permit-frequency file.
pub open spec fn permit_file_version_of(header: Seq<u8>) -> nat {
    le_value(header.subrange(0, 8))
}

/// Reads the permit-frequency file's version and refuses one newer than
/// `PERMIT_FILE_VER`, or a file too short to hold it.
pub fn check_permit_file_version(header: &[u8]) -> (r: Result<u64, CollateError>)
    ensures
        header@.len() < 8 ==> r == Err::<u64, CollateError>(CollateError::Truncated),
        header@.len() >= 8 ==> {
            let v = permit_file_version_of(header@);
            if v <= PERMIT_FILE_VER {
                r == Ok::<u64, CollateError>(v as u64)
            } else {
                r == Err::<u64, CollateError>(CollateError::VersionMismatch { found: v as u64 })
            }
        },
{
    if header.len() < 8 {
        return Err(CollateError::Truncated);
    }
    let v: u64 = read_le(header, 0, 8);
    if v > PERMIT_FILE_VER {
        Err(CollateError::VersionMismatch { found: v })
    } else {
        Ok(v)
    }
}

/// Only the older text frequency file is present: the run must stop and
/// the permit list be generated again.
pub fn needs_regenerated_permit_list(tsv_exists: bool, bin_exists: bool) -> (r: bool)
    ensures
        r == (tsv_exists && !bin_exists),
{
    tsv_exists && !bin_exists
}

#[verifier::external_type_specification]
#[verifier::external_body]
pub struct ExJsonValue(serde_json::Value);

/// The value under `key` in a JSON value: `None` where it is not an object
/// holding that key.
pub uninterp spec fn json_get_of(v: serde_json::Value, key: Seq<char>) -> Option<serde_json::Value>;

/// The text of a JSON value, where it is a string.
pub uninterp spec fn json_str_of(v: serde_json::Value) -> Option<Seq<char>>;

/// The number of a JSON value, where it is an integer that fits a `u64`.
pub uninterp spec fn json_u64_of(v: serde_json::Value) -> Option<u64>;

/// The truth value of a JSON value, where it is a boolean.
pub uninterp spec fn json_bool_of(v: serde_json::Value) -> Option<bool>;

/// Relies on `serde_json::Value::get` with a string key: the value under
/// `key` where `v` is an object holding it, else `None`; it depends on `v`
/// and `key` alone.
#[verifier::external_body]
fn json_field<'a>(v: &'a serde_json::Value, key: &str) -> (r: Option<&'a serde_json::Value>)
    ensures
        json_get_of(*v, key@) == match r {
            Some(f) => Some(*f),
            None => None,
        },
{
    v.get(key)
}

/// Relies on `serde_json::Value::as_str`: the text of a string value, else
/// `None`.
pub assume_specification<'a>[ serde_json::Value::as_str ](v: &'a serde_json::Value) -> (r: Option<
    &'a str,
>)
    ensures
        json_str_of(*v) == match r {
            Some(s) => Some(s@),
            None => None,
        },
;

/// Relies on `serde_json::Value::as_u64`: an integer value that fits a
/// `u64`, else `None`.
pub assume_specification[ serde_json::Value::as_u64 ](v: &serde_json::Value) -> (r: Option<u64>)
    ensures
        r == json_u64_of(*v),
;

/// Relies on `serde_json::Value::as_bool`: a boolean value, else `None`.
pub assume_specification[ serde_json::Value::as_bool ](v: &serde_json::Value) -> (r: Option<bool>)
    ensures
        r == json_bool_of(*v),
;

/// The text under `key` in `v`: `None` where the key is missing or its
/// value is not a string.
pub open spec fn json_text_field(v: serde_json::Value, key: Seq<char>) -> Option<Seq<char>> {
    match json_get_of(v, key) {
        Some(f) => json_str_of(f),
        None => None,
    }
}

/// The number under `key` in `v`: `None` where the key is missing or its
/// value is not an integer that fits a `u64`.
pub open spec fn json_u64_field(v: serde_json::Value, key: Seq<char>) -> Option<u64> {
    match json_get_of(v, key) {
        Some(f) => json_u64_of(f),
        None => None,
    }
}

/// The truth value under `key` in `v`: `None` where the key is missing or
/// its value is not a boolean.
pub open spec fn json_bool_field(v: serde_json::Value, key: Seq<char>) -> Option<bool> {
    match json_get_of(v, key) {
        Some(f) => json_bool_of(f),
        None => None,
    }
}

/// The orientation named by the first character of a field's text; none
/// for a missing, non-text or empty field.
pub open spec fn orientation_of_field(field: Option<Seq<char>>) -> Option<Orientation> {
    match field {
        Some(s) => if s.len() == 0 {
            None
        } else {
            orientation_of_char(s[0])
        },
        None => None,
    }
}

/// Reads the permit-list type from the upstream metadata's
/// `permit-list-type` field.
pub fn get_filter_type(mdata: &serde_json::Value) -> (r: FilterType)
    ensures
        r == filter_type_of(json_text_field(*mdata, "permit-list-type"@)),
{
    match json_field(mdata, "permit-list-type") {
        Some(f) => filter_type_from_field(f.as_str()),
        None => filter_type_from_field(None),
    }
}

/// Reads the most alignments of one record from the upstream metadata's
/// `max-ambig-record` field, 2500 where it is missing or not a `u64`.
pub fn get_most_ambiguous_record(mdata: &serde_json::Value) -> (r: u64)
    ensures
        r == match json_u64_field(*mdata, "max-ambig-record"@) {
            Some(v) => v,
            None => DEFAULT_MOST_AMBIG_RECORD,
        },
{
    match json_field(mdata, "max-ambig-record") {
        Some(f) => most_ambiguous_record_from_field(f.as_u64()),
        None => most_ambiguous_record_from_field(None),
    }
}

/// Reads the expected orientation from the upstream metadata's
/// `expected_ori` field; none where the field is missing, not a string,
/// empty, or starts with a character that names no strand.
pub fn get_orientation(mdata: &serde_json::Value) -> (r: Option<Orientation>)
    ensures
        r == orientation_of_field(json_text_field(*mdata, "expected_ori"@)),
{
    match json_field(mdata, "expected_ori") {
        Some(f) => match f.as_str() {
            Some(s) => orientation_from_field(s),
            None => None,
        },
        None => None,
    }
}

/// Reads the upstream metadata's `velo_mode` field; `None` where it is
/// missing or not a boolean.
pub fn get_velo_mode(mdata: &serde_json::Value) -> (r: Option<bool>)
    ensures
        r == json_bool_field(*mdata, "velo_mode"@),
{
    match json_field(mdata, "velo_mode") {
        Some(f) => f.as_bool(),
        None => None,
    }
}

/// Whether the upstream metadata's `version_str` field holds a string:
/// `None` where it is missing, `Some(false)` where it is not a string.
pub fn version_field_is_text(mdata: &serde_json::Value) -> (r: Option<bool>)
    ensures
        r == match json_get_of(*mdata, "version_str"@) {
            Some(f) => Some(json_str_of(f) is Some),
            None => None,
        },
{
    match json_field(mdata, "version_str") {
        Some(f) => match f.as_str() {
            Some(_) => Some(true),
            None => Some(false),
        },
        None => None,
    }
}

} // verus!
