use fry_collate::collation::prepare_collation;
use fry_collate::header::output_header;
use fry_collate::pipeline::{buckets_to_flush, check_output_chunks, check_scatter, chunk_frame};
use fry_collate::planner::{plan_buckets, sort_by_count_desc, total_count, PlannedBucket};
use fry_collate::settings::{
    check_permit_file_version, filter_type_from_field, gather_queue_capacity, get_filter_type,
    get_most_ambiguous_record, get_orientation, get_velo_mode, local_buffer_size,
    most_ambiguous_record_from_field, orientation_from_field, version_field_is_text, needs_regenerated_permit_list, output_file_name,
    scatter_queue_capacity, worker_count, CollateError, FilterType, Orientation, PERMIT_FILE_VER,
};
use fry_collate::unmapped::correct_unmapped_counts;
use std::collections::HashMap;
use std::io::Read;

fn unmapped_bytes(pairs: &[(u64, u32)]) -> Vec<u8> {
    let mut v = Vec::new();
    for (k, c) in pairs {
        v.extend_from_slice(&k.to_le_bytes());
        v.extend_from_slice(&c.to_le_bytes());
    }
    v
}

fn header_prefix() -> Vec<u8> {
    // is_paired, ref_count, one name, num_chunks, then a few tag bytes
    let mut v = vec![0u8];
    v.extend_from_slice(&1u64.to_le_bytes());
    v.extend_from_slice(&3u16.to_le_bytes());
    v.extend_from_slice(b"chr");
    v.extend_from_slice(&77u64.to_le_bytes());
    v.extend_from_slice(&[9, 8, 7, 6]);
    v
}

#[test]
fn single_barcode_single_chunk() {
    let plan = plan_buckets(&vec![(0xBB, 3)], 1, 1000);
    assert_eq!(plan.assignment, vec![0]);
    assert_eq!(plan.buckets, vec![PlannedBucket { num_chunks: 1, num_records: 3 }]);
    let prefix = header_prefix();
    let pos = 1 + 8 + 2 + 3;
    let out = output_header(prefix.clone(), pos, 1, false);
    assert_eq!(&out[pos..pos + 8], &1u64.to_le_bytes());
    assert_eq!(out.len(), prefix.len());
}

#[test]
fn two_barcodes_two_chunks() {
    let p = prepare_collation(vec![(0xB1, 2), (0xA1, 3)], 2, 1000, 2500).unwrap();
    assert_eq!(p.tsv_map, vec![(0xA1, 3), (0xB1, 2)]);
    assert_eq!(p.total_to_collate, 5);
    assert_eq!(p.n_workers, 1);
    assert_eq!(p.plan.assignment, vec![0, 0]);
    assert_eq!(p.plan.buckets, vec![PlannedBucket { num_chunks: 2, num_records: 5 }]);
    let prefix = header_prefix();
    let out = output_header(prefix.clone(), 14, p.tsv_map.len() as u64, false);
    assert_eq!(&out[14..22], &2u64.to_le_bytes());
    assert_eq!(&out[..14], &prefix[..14]);
    assert_eq!(&out[22..], &prefix[22..]);
}

#[test]
fn uncorrectable_barcode_is_dropped() {
    let mut cmap = HashMap::new();
    cmap.insert(0xA0u64, 0xA1u64);
    let data = unmapped_bytes(&[(0xA0, 4), (0xC0, 100), (0xA0, 1)]);
    let r = correct_unmapped_counts(&cmap, &data);
    assert_eq!(r.len(), 1);
    assert_eq!(r.get(&0xA1), Some(&5));
    assert_eq!(r.get(&0xC0), None);
    // the frequency totals do not see the dropped barcode
    assert_eq!(total_count(&vec![(0xA1, 3)]), Some(3));
}

#[test]
fn spill_across_buckets() {
    let freq: Vec<(u64, u64)> = (0..10u64).map(|b| (b, 1000)).collect();
    // two workers: three threads, one of them reading
    let p = prepare_collation(freq, 3, 2000, 2500).unwrap();
    assert_eq!(p.n_workers, 2);
    let buckets = &p.plan.buckets;
    assert!(buckets.len() >= 5);
    assert_eq!(buckets.len(), 6);
    for b in &buckets[..5] {
        assert_eq!(*b, PlannedBucket { num_chunks: 2, num_records: 2000 });
    }
    assert_eq!(buckets[5], PlannedBucket { num_chunks: 0, num_records: 0 });
    assert_eq!(p.plan.assignment, vec![0, 0, 1, 1, 2, 2, 3, 3, 4, 4]);
    let planned: u64 = buckets.iter().map(|b| b.num_records).sum();
    assert_eq!(planned, p.total_to_collate);
    assert_eq!(p.total_to_collate, 10_000);
    // records written per bucket equal to the plan pass the scatter check
    let written: Vec<u64> = buckets.iter().map(|b| b.num_records).collect();
    let bytes = vec![40u64; 6];
    assert_eq!(check_scatter(buckets, &written, &bytes, &bytes), Ok(()));
}

#[test]
fn compression_round_trip() {
    let prefix = header_prefix();
    let plain = output_header(prefix.clone(), 14, 2, false);
    let framed = output_header(prefix, 14, 2, true);
    assert_ne!(framed, plain);
    let mut dec = snap::read::FrameDecoder::new(&framed[..]);
    let mut back = Vec::new();
    dec.read_to_end(&mut back).unwrap();
    assert_eq!(back, plain);
}

#[test]
fn version_mismatch() {
    let mut hdr = (PERMIT_FILE_VER + 1).to_le_bytes().to_vec();
    hdr.extend_from_slice(&16u64.to_le_bytes());
    assert_eq!(
        check_permit_file_version(&hdr),
        Err(CollateError::VersionMismatch { found: PERMIT_FILE_VER + 1 })
    );
    let ok = PERMIT_FILE_VER.to_le_bytes();
    assert_eq!(check_permit_file_version(&ok), Ok(PERMIT_FILE_VER));
    assert_eq!(check_permit_file_version(&[1, 0, 0]), Err(CollateError::Truncated));
}

#[test]
fn unmapped_fold_sums_per_corrected_barcode() {
    let mut cmap = HashMap::new();
    cmap.insert(1u64, 10u64);
    cmap.insert(2u64, 10u64);
    cmap.insert(3u64, 30u64);
    let mut data = unmapped_bytes(&[(1, 5), (2, 7), (3, 1), (4, 9), (1, 2)]);
    data.extend_from_slice(&[1, 2, 3]); // a partial record is not read
    let r = correct_unmapped_counts(&cmap, &data);
    assert_eq!(r.len(), 2);
    assert_eq!(r[&10], 14);
    assert_eq!(r[&30], 1);
}

#[test]
fn unmapped_fold_wraps_at_u32() {
    let mut cmap = HashMap::new();
    cmap.insert(1u64, 10u64);
    let data = unmapped_bytes(&[(1, u32::MAX), (1, 3)]);
    let r = correct_unmapped_counts(&cmap, &data);
    assert_eq!(r[&10], 2);
    assert!(correct_unmapped_counts(&cmap, &[]).is_empty());
}

#[test]
fn planner_threshold_and_trailing_bucket() {
    // budget 10 / 1 + 1 = 11
    let plan = plan_buckets(&vec![(1, 8), (2, 3), (3, 5), (4, 2)], 1, 10);
    assert_eq!(plan.assignment, vec![0, 0, 1, 1]);
    assert_eq!(
        plan.buckets,
        vec![
            PlannedBucket { num_chunks: 2, num_records: 11 },
            PlannedBucket { num_chunks: 2, num_records: 7 },
        ]
    );
    let empty = plan_buckets(&vec![], 4, 10);
    assert!(empty.assignment.is_empty());
    assert_eq!(empty.buckets, vec![PlannedBucket { num_chunks: 0, num_records: 0 }]);
    // the largest barcode may exceed the budget alone
    let big = plan_buckets(&vec![(7, 500), (8, 1)], 2, 10);
    assert_eq!(big.assignment, vec![0, 1]);
    assert_eq!(big.buckets[0], PlannedBucket { num_chunks: 1, num_records: 500 });
}

#[test]
fn sorting_and_totals() {
    let mut v = vec![(1, 5), (2, 9), (3, 1), (4, 9), (5, 0)];
    sort_by_count_desc(&mut v);
    let counts: Vec<u64> = v.iter().map(|x| x.1).collect();
    assert_eq!(counts, vec![9, 9, 5, 1, 0]);
    let mut keys: Vec<u64> = v.iter().map(|x| x.0).collect();
    keys.sort();
    assert_eq!(keys, vec![1, 2, 3, 4, 5]);
    assert_eq!(total_count(&v), Some(24));
    assert_eq!(total_count(&vec![(1, u64::MAX), (2, 1)]), None);
    assert_eq!(total_count(&vec![]), Some(0));
}

#[test]
fn preparation_overflow() {
    let r = prepare_collation(vec![(1, u64::MAX), (2, 1)], 4, 100, 2500);
    assert!(matches!(r, Err(CollateError::SizeOverflow)));
    let r = prepare_collation(vec![(1, 1)], 4, 100, u64::MAX);
    assert!(matches!(r, Err(CollateError::SizeOverflow)));
}

#[test]
fn buffer_sizes() {
    // 24 * 1_000_000 / (2 * 3) = 4_000_000, capped at 262144
    assert_eq!(local_buffer_size(1, 1_000_000, 2, 3), 262_144);
    // 24 * 100 / 4 = 600, raised to 1000
    assert_eq!(local_buffer_size(1, 100, 2, 2), 1000);
    // 24 * 20_000 / 4 = 120_000
    assert_eq!(local_buffer_size(10, 20_000, 2, 2), 120_000);
    // the largest record wins: 24 + 4 * 2500 - 4 = 10_020
    assert_eq!(local_buffer_size(2500, 100, 2, 2), 10_020);
    assert_eq!(local_buffer_size(100_000, 1_000_000, 1, 1), 400_020);
    let p = prepare_collation(vec![(1, 3)], 1, 1000, 2500).unwrap();
    assert_eq!(p.local_buffer_size, 24_000);
}

#[test]
fn workers_and_queues() {
    assert_eq!(worker_count(0), 1);
    assert_eq!(worker_count(1), 1);
    assert_eq!(worker_count(2), 1);
    assert_eq!(worker_count(8), 7);
    assert_eq!(scatter_queue_capacity(3), 12);
    assert_eq!(gather_queue_capacity(1), 2);
    assert_eq!(gather_queue_capacity(3), 4);
    assert_eq!(gather_queue_capacity(8), 12);
}

#[test]
fn output_names() {
    assert_eq!(output_file_name(true, true), "velo.map.collated.rad");
    assert_eq!(output_file_name(true, false), "velo.map.collated.rad");
    assert_eq!(output_file_name(false, true), "map.collated.rad.sz");
    assert_eq!(output_file_name(false, false), "map.collated.rad");
}

#[test]
fn metadata_fields() {
    assert_eq!(filter_type_from_field(Some("unfiltered")), FilterType::Unfiltered);
    assert_eq!(filter_type_from_field(Some("filtered")), FilterType::Filtered);
    assert_eq!(filter_type_from_field(Some("other")), FilterType::Filtered);
    assert_eq!(filter_type_from_field(Some("unfiltere")), FilterType::Filtered);
    assert_eq!(filter_type_from_field(None), FilterType::Filtered);
    assert_eq!(most_ambiguous_record_from_field(Some(40)), 40);
    assert_eq!(most_ambiguous_record_from_field(None), 2500);
    assert_eq!(orientation_from_field("fw"), Some(Orientation::Forward));
    assert_eq!(orientation_from_field("+"), Some(Orientation::Forward));
    assert_eq!(orientation_from_field("rc"), Some(Orientation::Reverse));
    assert_eq!(orientation_from_field("-"), Some(Orientation::Reverse));
    assert_eq!(orientation_from_field("?"), Some(Orientation::Unknown));
    assert_eq!(orientation_from_field("both"), None);
    assert_eq!(orientation_from_field(""), None);
    assert!(needs_regenerated_permit_list(true, false));
    assert!(!needs_regenerated_permit_list(true, true));
    assert!(!needs_regenerated_permit_list(false, false));
}

#[test]
fn chunk_frames() {
    let f = chunk_frame(12, 3).unwrap();
    assert_eq!(f, vec![12, 0, 0, 0, 3, 0, 0, 0, 0, 0, 0, 0]);
    let g = chunk_frame(0x0001_0203, 1).unwrap();
    assert_eq!(&g[..4], &[3, 2, 1, 0]);
    assert_eq!(g.len(), 0x0001_0203);
    assert_eq!(chunk_frame(12, 0), Err(CollateError::MalformedChunk { n_bytes: 12, n_records: 0 }));
    assert_eq!(chunk_frame(7, 1), Err(CollateError::MalformedChunk { n_bytes: 7, n_records: 1 }));
}

#[test]
fn phase_checks() {
    let planned = vec![
        PlannedBucket { num_chunks: 1, num_records: 4 },
        PlannedBucket { num_chunks: 2, num_records: 6 },
        PlannedBucket { num_chunks: 1, num_records: 1 },
    ];
    let lens = vec![10, 20, 30];
    assert_eq!(
        check_scatter(&planned, &vec![4, 5, 0], &lens, &lens),
        Err(CollateError::BucketMismatch { bucket: 1 })
    );
    assert_eq!(
        check_scatter(&planned, &vec![4, 6, 1], &vec![10, 20, 31], &lens),
        Err(CollateError::BucketMismatch { bucket: 2 })
    );
    assert_eq!(check_scatter(&planned, &vec![4, 6, 1], &lens, &lens), Ok(()));
    assert_eq!(check_output_chunks(5, 5), Ok(()));
    assert_eq!(
        check_output_chunks(5, 4),
        Err(CollateError::ChunkCountMismatch { expected: 5, written: 4 })
    );
    assert_eq!(buckets_to_flush(&vec![0, 3, 0, 9]), vec![1, 3]);
    assert!(buckets_to_flush(&vec![0, 0]).is_empty());
}

#[test]
fn metadata_from_json() {
    let full: serde_json::Value = serde_json::from_str(
        r#"{"version_str": "0.9.0", "velo_mode": false, "expected_ori": "rc",
            "permit-list-type": "unfiltered", "max-ambig-record": 40}"#,
    )
    .unwrap();
    assert_eq!(get_filter_type(&full), FilterType::Unfiltered);
    assert_eq!(get_most_ambiguous_record(&full), 40);
    assert_eq!(get_orientation(&full), Some(Orientation::Reverse));
    assert_eq!(get_velo_mode(&full), Some(false));
    assert_eq!(version_field_is_text(&full), Some(true));

    let sparse: serde_json::Value =
        serde_json::from_str(r#"{"version_str": 3, "velo_mode": true, "expected_ori": "fw",
            "permit-list-type": 7, "max-ambig-record": "many"}"#)
        .unwrap();
    assert_eq!(get_filter_type(&sparse), FilterType::Filtered);
    assert_eq!(get_most_ambiguous_record(&sparse), 2500);
    assert_eq!(get_orientation(&sparse), Some(Orientation::Forward));
    assert_eq!(get_velo_mode(&sparse), Some(true));
    assert_eq!(version_field_is_text(&sparse), Some(false));

    let empty: serde_json::Value = serde_json::from_str("{}").unwrap();
    assert_eq!(get_filter_type(&empty), FilterType::Filtered);
    assert_eq!(get_most_ambiguous_record(&empty), 2500);
    assert_eq!(get_orientation(&empty), None);
    assert_eq!(get_velo_mode(&empty), None);
    assert_eq!(version_field_is_text(&empty), None);
}
