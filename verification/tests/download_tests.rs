use skopje::download::{
    chunk_outcome, content_length_size, download_outcome, plan_chunks, plan_download,
    range_header_value, DownloadPlan,
};
use skopje::error::EtlError;

const MIB: u64 = 1024 * 1024;

#[test]
fn three_chunks_for_250_mib_at_100_mib() {
    let chunks = plan_chunks(250 * MIB, 100 * MIB);
    assert_eq!(chunks.len(), 3);
    assert_eq!((chunks[0].start, chunks[0].end), (0, 100 * MIB));
    assert_eq!((chunks[1].start, chunks[1].end), (100 * MIB, 200 * MIB));
    assert_eq!((chunks[2].start, chunks[2].end), (200 * MIB, 250 * MIB));
    assert_eq!(chunks[0].end - chunks[0].start, 100 * MIB);
    assert_eq!(chunks[1].end - chunks[1].start, 100 * MIB);
    assert_eq!(chunks[2].end - chunks[2].start, 50 * MIB);
}

#[test]
fn reassembled_chunks_are_byte_identical() {
    // The same 250-to-100 shape at a testable scale: fetch each chunk's
    // range from the source and write it at the chunk's offset.
    let source: Vec<u8> = (0..250u32).map(|b| (b % 251) as u8).collect();
    let chunks = plan_chunks(source.len() as u64, 100);
    assert_eq!(chunks.len(), 3);
    let mut destination = vec![0u8; source.len()];
    for chunk in &chunks {
        let (start, end) = (chunk.start as usize, chunk.end as usize);
        destination[start..end].copy_from_slice(&source[start..end]);
    }
    assert_eq!(destination, source);
}

#[test]
fn chunk_edges() {
    assert_eq!(plan_chunks(0, 100).len(), 0);
    let exact = plan_chunks(200, 100);
    assert_eq!(exact.len(), 2);
    assert_eq!(exact[1].end - exact[1].start, 100);
    let tiny = plan_chunks(1, 100);
    assert_eq!(tiny.len(), 1);
    assert_eq!((tiny[0].start, tiny[0].end), (0, 1));
}

#[test]
fn plan_download_uses_size_when_known() {
    match plan_download(Some(250), 100) {
        DownloadPlan::Chunked(chunks) => assert_eq!(chunks.len(), 3),
        DownloadPlan::Whole => panic!("a known size must be chunked"),
    }
    assert!(matches!(plan_download(None, 100), DownloadPlan::Whole));
}

#[test]
fn only_partial_content_is_accepted() {
    assert_eq!(chunk_outcome(206), Ok(()));
    assert_eq!(
        chunk_outcome(404),
        Err(EtlError::TransientNetwork { status: 404 })
    );
    assert_eq!(
        chunk_outcome(200),
        Err(EtlError::TransientNetwork { status: 200 })
    );
}

#[test]
fn download_outcome_surfaces_first_failure() {
    let all_ok = vec![Ok(()), Ok(()), Ok(())];
    assert_eq!(download_outcome(&all_ok), Ok(()));

    let mixed = vec![
        Ok(()),
        Err(EtlError::TransientNetwork { status: 404 }),
        Err(EtlError::TransientNetwork { status: 500 }),
    ];
    assert_eq!(
        download_outcome(&mixed),
        Err(EtlError::TransientNetwork { status: 404 })
    );

    let empty: Vec<Result<(), EtlError>> = Vec::new();
    assert_eq!(download_outcome(&empty), Ok(()));
}

#[test]
fn content_length_reads_decimal_or_nothing() {
    assert_eq!(content_length_size(None), None);
    assert_eq!(content_length_size(Some("262144000")), Some(262144000));
    assert_eq!(content_length_size(Some("0")), Some(0));
    assert_eq!(content_length_size(Some("")), None);
    assert_eq!(content_length_size(Some("12a")), None);
    assert_eq!(content_length_size(Some("-5")), None);
    assert_eq!(
        content_length_size(Some("18446744073709551615")),
        Some(u64::MAX)
    );
    assert_eq!(content_length_size(Some("18446744073709551616")), None);
    assert_eq!(content_length_size(Some("99999999999999999999999")), None);
}

#[test]
fn range_header_names_closed_range() {
    assert_eq!(range_header_value(0, 100), "bytes=0-99");
    assert_eq!(
        range_header_value(100 * MIB, 200 * MIB),
        format!("bytes={}-{}", 104857600u64, 209715199u64)
    );
    assert_eq!(range_header_value(5, 6), "bytes=5-5");
}
