use whatsapp_backup::backup::{
    compute_sha256, split_into_chunks, Chunk, ChunkInfo, Manifest, CHUNK_SIZE,
};
use whatsapp_backup::error::BackupError;
use whatsapp_backup::restore::{check_digest, locate, reassemble_chunks};

fn pattern(len: usize) -> Vec<u8> {
    (0..len).map(|i| (i * 31 % 251) as u8).collect()
}

fn check_round_trip(len: usize, bound: u64, expected_sizes: &[u64]) {
    let data = pattern(len);
    let (chunks, manifest) = split_into_chunks(&data, "2026-01-17_19-41-14", bound);
    assert_eq!(chunks.len(), expected_sizes.len());
    assert_eq!(manifest.chunks.len(), expected_sizes.len());
    for (i, size) in expected_sizes.iter().enumerate() {
        assert_eq!(chunks[i].data.len() as u64, *size);
        assert_eq!(manifest.chunks[i].size, *size);
        assert_eq!(manifest.chunks[i].name, chunks[i].name);
    }
    assert_eq!(manifest.original_size, len as u64);
    assert_eq!(manifest.chunk_size, bound);
    assert_eq!(manifest.chunks.iter().map(|c| c.size).sum::<u64>(), len as u64);
    assert_eq!(reassemble_chunks(&manifest, &chunks), Ok(data));
}

#[test]
fn sha256_of_known_inputs() {
    assert_eq!(
        compute_sha256(b"abc"),
        "ba7816bf8f01cfea414140de5dae2223b00361a396177a9cb410ff61f20015ad"
    );
    assert_eq!(
        compute_sha256(b""),
        "e3b0c44298fc1c149afbf4c8996fb92427ae41e4649b934ca495991b7852b855"
    );
    assert_eq!(
        compute_sha256(b"The quick brown fox jumps over the lazy dog"),
        "d7a8fbb307d7809469ca9abcb0082e4f8d5651e46d3cdb762d02d0bf37c9e592"
    );
}

#[test]
fn chunk_round_trip_one_below_the_bound() {
    check_round_trip(9, 10, &[9]);
}

#[test]
fn chunk_round_trip_at_the_bound() {
    check_round_trip(10, 10, &[10]);
}

#[test]
fn chunk_round_trip_one_above_the_bound() {
    check_round_trip(11, 10, &[10, 1]);
}

#[test]
fn chunk_round_trip_three_bounds_and_seven() {
    check_round_trip(37, 10, &[10, 10, 10, 7]);
}

#[test]
fn chunk_round_trip_with_a_bound_of_one() {
    check_round_trip(3, 1, &[1, 1, 1]);
}

#[test]
fn chunk_round_trip_with_a_bound_beyond_the_length() {
    check_round_trip(5, u64::MAX, &[5]);
}

#[test]
fn empty_envelope_has_no_chunks() {
    let (chunks, manifest) = split_into_chunks(&[], "ts", 10);
    assert!(chunks.is_empty());
    assert!(manifest.chunks.is_empty());
    assert_eq!(manifest.original_size, 0);
    assert_eq!(
        manifest.sha256,
        "e3b0c44298fc1c149afbf4c8996fb92427ae41e4649b934ca495991b7852b855"
    );
    assert_eq!(reassemble_chunks(&manifest, &chunks), Ok(Vec::new()));
}

#[test]
fn manifest_records_the_split() {
    let data = pattern(25);
    let (chunks, manifest) = split_into_chunks(&data, "2026-01-17_19-41-14", 10);
    assert_eq!(manifest.version, 1);
    assert_eq!(manifest.timestamp, "2026-01-17_19-41-14");
    assert_eq!(manifest.original_size, 25);
    assert_eq!(manifest.chunk_size, 10);
    assert_eq!(manifest.sha256, compute_sha256(&data));
    assert_eq!(
        manifest.chunks,
        vec![
            ChunkInfo { name: "2026-01-17_19-41-14.enc.001".to_string(), size: 10 },
            ChunkInfo { name: "2026-01-17_19-41-14.enc.002".to_string(), size: 10 },
            ChunkInfo { name: "2026-01-17_19-41-14.enc.003".to_string(), size: 5 },
        ]
    );
    assert_eq!(chunks[0].data, data[..10].to_vec());
    assert_eq!(chunks[1].data, data[10..20].to_vec());
    assert_eq!(chunks[2].data, data[20..].to_vec());
}

#[test]
fn default_bound_is_ninety_million_bytes() {
    assert_eq!(CHUNK_SIZE, 90_000_000);
}

#[test]
fn ordinals_grow_beyond_three_digits() {
    let data = pattern(1001);
    let (chunks, manifest) = split_into_chunks(&data, "s", 1);
    assert_eq!(chunks.len(), 1001);
    assert_eq!(chunks[0].name, "s.enc.001");
    assert_eq!(chunks[8].name, "s.enc.009");
    assert_eq!(chunks[9].name, "s.enc.010");
    assert_eq!(chunks[98].name, "s.enc.099");
    assert_eq!(chunks[99].name, "s.enc.100");
    assert_eq!(chunks[998].name, "s.enc.999");
    assert_eq!(chunks[999].name, "s.enc.1000");
    assert_eq!(chunks[1000].name, "s.enc.1001");
    assert_eq!(reassemble_chunks(&manifest, &chunks), Ok(data));
}

#[test]
fn deleting_any_chunk_gives_missing_chunk() {
    let data = pattern(37);
    let (chunks, manifest) = split_into_chunks(&data, "ts", 10);
    for gone in 0..chunks.len() {
        let store: Vec<Chunk> = chunks
            .iter()
            .enumerate()
            .filter(|(i, _)| *i != gone)
            .map(|(_, c)| Chunk { name: c.name.clone(), data: c.data.clone() })
            .collect();
        assert_eq!(
            reassemble_chunks(&manifest, &store),
            Err(BackupError::MissingChunk { name: chunks[gone].name.clone() })
        );
    }
}

#[test]
fn the_first_missing_chunk_is_reported() {
    let data = pattern(37);
    let (_, manifest) = split_into_chunks(&data, "ts", 10);
    assert_eq!(
        reassemble_chunks(&manifest, &Vec::new()),
        Err(BackupError::MissingChunk { name: "ts.enc.001".to_string() })
    );
}

#[test]
fn changing_any_chunk_gives_integrity_mismatch() {
    let data = pattern(37);
    let (chunks, manifest) = split_into_chunks(&data, "ts", 10);
    for hit in 0..chunks.len() {
        let mut store: Vec<Chunk> = chunks
            .iter()
            .map(|c| Chunk { name: c.name.clone(), data: c.data.clone() })
            .collect();
        store[hit].data[0] ^= 0x01;
        let mut changed = data.clone();
        changed[hit * 10] ^= 0x01;
        assert_eq!(
            reassemble_chunks(&manifest, &store),
            Err(BackupError::IntegrityMismatch {
                expected: compute_sha256(&data),
                actual: compute_sha256(&changed),
            })
        );
    }
}

#[test]
fn chunks_are_joined_in_manifest_order_not_in_store_order() {
    let data = pattern(37);
    let (mut chunks, manifest) = split_into_chunks(&data, "ts", 10);
    chunks.reverse();
    assert_eq!(reassemble_chunks(&manifest, &chunks), Ok(data));
}

#[test]
fn manifest_order_wins_over_the_order_of_names() {
    let first = Chunk { name: "b".to_string(), data: vec![1, 2] };
    let second = Chunk { name: "a".to_string(), data: vec![3] };
    let manifest = Manifest {
        version: 1,
        timestamp: "ts".to_string(),
        original_size: 3,
        chunk_size: 2,
        chunks: vec![
            ChunkInfo { name: "b".to_string(), size: 2 },
            ChunkInfo { name: "a".to_string(), size: 1 },
        ],
        sha256: compute_sha256(&[1, 2, 3]),
    };
    assert_eq!(reassemble_chunks(&manifest, &vec![second, first]), Ok(vec![1, 2, 3]));
}

#[test]
fn chunks_that_the_manifest_does_not_list_are_ignored() {
    let data = pattern(25);
    let (mut chunks, manifest) = split_into_chunks(&data, "ts", 10);
    chunks.insert(0, Chunk { name: "ts.enc.004".to_string(), data: vec![9, 9, 9] });
    chunks.push(Chunk { name: "other".to_string(), data: vec![1] });
    assert_eq!(reassemble_chunks(&manifest, &chunks), Ok(data));
}

#[test]
fn the_first_chunk_of_a_name_is_the_one_found() {
    let store = vec![
        Chunk { name: "x".to_string(), data: vec![1] },
        Chunk { name: "x".to_string(), data: vec![2] },
    ];
    assert_eq!(locate(&store, &"x".to_string()).unwrap().data, vec![1]);
    assert!(locate(&store, &"y".to_string()).is_none());
}

#[test]
fn digest_is_compared_letter_for_letter() {
    let data = pattern(5);
    let (chunks, mut manifest) = split_into_chunks(&data, "ts", 10);
    let recorded = manifest.sha256.to_uppercase();
    manifest.sha256 = recorded.clone();
    assert_eq!(
        reassemble_chunks(&manifest, &chunks),
        Err(BackupError::IntegrityMismatch { expected: recorded, actual: compute_sha256(&data) })
    );
}

#[test]
fn digests_are_held_against_the_recorded_text() {
    assert_eq!(check_digest(&"00ff10".to_string(), &[0x00, 0xff, 0x10]), Ok(()));
    assert_eq!(check_digest(&String::new(), &[]), Ok(()));
    assert_eq!(
        check_digest(&"00FF10".to_string(), &[0x00, 0xff, 0x10]),
        Err(BackupError::IntegrityMismatch {
            expected: "00FF10".to_string(),
            actual: "00ff10".to_string(),
        })
    );
    assert_eq!(
        check_digest(&"".to_string(), &[0xab]),
        Err(BackupError::IntegrityMismatch { expected: String::new(), actual: "ab".to_string() })
    );
}
