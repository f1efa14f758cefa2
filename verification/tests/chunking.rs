use pentaract::chunks::{
    assemble_chunks, collect_transfer_results, fits_position_range, make_chunk_records,
    split_into_chunks, DownloadedChunk, CHUNK_SIZE,
};
use pentaract::errors::{PentaractError, PentaractResult};

#[test]
fn split_uneven_tail() {
    let data: Vec<u8> = b"abcdefgh".to_vec();
    let chunks = split_into_chunks(&data, 3);
    assert_eq!(chunks.len(), 3);
    assert_eq!(chunks[0], b"abc".to_vec());
    assert_eq!(chunks[1], b"def".to_vec());
    assert_eq!(chunks[2], b"gh".to_vec());
}

#[test]
fn split_exact_multiple() {
    let data: Vec<u8> = b"abcdef".to_vec();
    let chunks = split_into_chunks(&data, 3);
    assert_eq!(chunks.len(), 2);
    assert_eq!(chunks[0], b"abc".to_vec());
    assert_eq!(chunks[1], b"def".to_vec());
}

#[test]
fn split_empty_file() {
    let data: Vec<u8> = Vec::new();
    let chunks = split_into_chunks(&data, 4);
    assert_eq!(chunks.len(), 0);
}

#[test]
fn split_single_short_chunk() {
    let data: Vec<u8> = b"xy".to_vec();
    let chunks = split_into_chunks(&data, 1024);
    assert_eq!(chunks.len(), 1);
    assert_eq!(chunks[0], b"xy".to_vec());
}

#[test]
fn record_positions_are_contiguous() {
    let file_id = uuid::Uuid::new_v4();
    let handles = vec![
        "remote-a".to_string(),
        "remote-b".to_string(),
        "remote-c".to_string(),
    ];
    let records = make_chunk_records(file_id, handles).unwrap();
    assert_eq!(records.len(), 3);
    for (i, record) in records.iter().enumerate() {
        assert_eq!(record.position, i as i16);
        assert_eq!(record.file_id, file_id);
    }
    assert_eq!(records[0].telegram_file_id, "remote-a");
    assert_eq!(records[1].telegram_file_id, "remote-b");
    assert_eq!(records[2].telegram_file_id, "remote-c");
}

#[test]
fn record_ids_are_fresh() {
    let file_id = uuid::Uuid::new_v4();
    let handles = vec!["h0".to_string(), "h1".to_string()];
    let records = make_chunk_records(file_id, handles).unwrap();
    assert_ne!(records[0].id, records[1].id);
}

#[test]
fn too_many_chunks_is_rejected() {
    let file_id = uuid::Uuid::new_v4();
    let handles: Vec<String> = (0..32768).map(|i| format!("h{}", i)).collect();
    let result = make_chunk_records(file_id, handles);
    assert!(matches!(result, Err(PentaractError::FileTooLarge)));
}

#[test]
fn oversized_file_is_detected_before_any_transfer() {
    assert!(fits_position_range(0, 1));
    assert!(fits_position_range(32767, 1));
    assert!(!fits_position_range(32768, 1));
    assert!(fits_position_range(45 * 1024 * 1024, CHUNK_SIZE));
    // A length beyond 32767 chunks' worth of bytes is rejected.
    assert!(!fits_position_range(usize::MAX, CHUNK_SIZE));
}

#[test]
fn all_successful_tasks_are_collected_in_order() {
    let results: Vec<PentaractResult<u32>> = vec![Ok(10), Ok(20), Ok(30)];
    let values = collect_transfer_results(results).unwrap();
    assert_eq!(values, vec![10, 20, 30]);
}

#[test]
fn one_failed_task_fails_the_whole_batch_with_its_error() {
    let results: Vec<PentaractResult<u32>> = vec![
        Ok(10),
        Err(PentaractError::WorkerUnavailable),
        Err(PentaractError::RemoteProtocolError("500".to_string())),
        Ok(40),
    ];
    let result = collect_transfer_results(results);
    assert!(matches!(result, Err(PentaractError::WorkerUnavailable)));
}

#[test]
fn assemble_orders_by_position_not_arrival() {
    let chunks = vec![
        DownloadedChunk::new(2, b"!!".to_vec()),
        DownloadedChunk::new(0, b"hello ".to_vec()),
        DownloadedChunk::new(1, b"world".to_vec()),
    ];
    let bytes = assemble_chunks(chunks).unwrap();
    assert_eq!(bytes, b"hello world!!".to_vec());
}

#[test]
fn assemble_rejects_missing_position() {
    let chunks = vec![
        DownloadedChunk::new(0, b"aa".to_vec()),
        DownloadedChunk::new(2, b"cc".to_vec()),
    ];
    let result = assemble_chunks(chunks);
    assert!(matches!(result, Err(PentaractError::PersistenceError(_))));
}

#[test]
fn roundtrip_under_any_completion_order() {
    let data: Vec<u8> = (0u32..1000).map(|i| (i % 251) as u8).collect();
    let pieces = split_into_chunks(&data, 64);
    let n = pieces.len();
    // Simulate transfers finishing in a scrambled order.
    let mut downloaded: Vec<DownloadedChunk> = Vec::new();
    for (pos, piece) in pieces.into_iter().enumerate().rev() {
        downloaded.push(DownloadedChunk::new(pos as i16, piece));
    }
    assert_eq!(downloaded.len(), n);
    let bytes = assemble_chunks(downloaded).unwrap();
    assert_eq!(bytes, data);
}

#[test]
fn forty_five_mib_file_makes_three_chunks() {
    let mib = 1024 * 1024;
    let data: Vec<u8> = (0..45 * mib).map(|i| (i % 247) as u8).collect();
    let pieces = split_into_chunks(&data, CHUNK_SIZE);
    assert_eq!(pieces.len(), 3);
    assert_eq!(pieces[0].len(), 20 * mib);
    assert_eq!(pieces[1].len(), 20 * mib);
    assert_eq!(pieces[2].len(), 5 * mib);

    // Download completes out of order; reassembly is still byte-identical.
    let mut downloaded: Vec<DownloadedChunk> = Vec::new();
    for (pos, piece) in pieces.into_iter().enumerate().rev() {
        downloaded.push(DownloadedChunk::new(pos as i16, piece));
    }
    let bytes = assemble_chunks(downloaded).unwrap();
    assert_eq!(bytes.len(), 45 * mib);
    assert!(bytes == data);
}
