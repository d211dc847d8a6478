use cloudreve_vfs::blocks::{
    assemble, block_range, classify_status, materialize_chunk, missing_runs, range_header,
    readahead_range, run_bytes, split_run, url_entity, BlockRead, FetchAttempts, FetchReply,
    FetchStep, MATERIALIZE_CHUNK,
};
use cloudreve_vfs::cache::{FileKey, BLOCK_SIZE};

#[test]
fn all_present_yields_no_runs() {
    assert_eq!(missing_runs(0, &[true, true, true]), vec![]);
}

#[test]
fn a_single_gap_is_one_run() {
    assert_eq!(missing_runs(10, &[true, false, false, true]), vec![(11, 12)]);
}

#[test]
fn multiple_gaps_are_separate_runs() {
    assert_eq!(
        missing_runs(0, &[false, true, false, false, true, false]),
        vec![(0, 0), (2, 3), (5, 5)]
    );
}

#[test]
fn a_trailing_gap_runs_to_the_end() {
    assert_eq!(missing_runs(5, &[true, false, false]), vec![(6, 7)]);
}

/// A file of two and a half blocks.
fn content() -> Vec<u8> {
    (0..(2 * BLOCK_SIZE + BLOCK_SIZE / 2)).map(|i| (i % 251) as u8).collect()
}

/// Reads a file as a client does, with an empty cache.
fn read(content: &[u8], offset: u64, len: u32) -> Vec<u8> {
    let size = content.len() as u64;
    let mut read = match BlockRead::new(size, offset, len) {
        Some(r) => r,
        None => return Vec::new(),
    };
    for (first, last) in read.missing() {
        if let Some((start, end)) = run_bytes(first, last, size) {
            let data = content[start as usize..=end as usize].to_vec();
            for (b, block) in split_run(&data, first, last) {
                read.put(b, Some(block));
            }
        }
    }
    read.bytes()
}

#[test]
fn a_read_gets_the_bytes_of_the_file() {
    let c = content();
    for (offset, len) in [
        (0u64, 10u32),
        (BLOCK_SIZE - 3, 7),
        (BLOCK_SIZE, BLOCK_SIZE as u32),
        (5, 2 * BLOCK_SIZE as u32),
        (2 * BLOCK_SIZE + 1, u32::MAX),
    ] {
        let end = (offset + len as u64).min(c.len() as u64) as usize;
        assert_eq!(read(&c, offset, len), &c[offset as usize..end]);
    }
}

#[test]
fn a_read_at_or_past_the_end_is_empty() {
    let c = content();
    assert!(read(&c, c.len() as u64, 10).is_empty());
    assert!(read(&c, c.len() as u64 + 5, 10).is_empty());
    assert!(read(&c, 3, 0).is_empty());
}

#[test]
fn a_block_that_could_not_be_had_counts_as_empty() {
    let read = BlockRead::new(100, 0, 50).unwrap();
    assert_eq!(read.missing(), vec![(0, 0)]);
    assert!(read.bytes().is_empty());
    assert_eq!(assemble(&vec![None, Some(vec![9, 8])], 0, BLOCK_SIZE - 1, 3), vec![9, 8]);
}

#[test]
fn cached_blocks_are_not_missing() {
    let mut read = BlockRead::new(3 * BLOCK_SIZE, 0, 3 * BLOCK_SIZE as u32).unwrap();
    assert_eq!(read.range(), (0, 2));
    read.put(1, Some(vec![0; BLOCK_SIZE as usize]));
    assert_eq!(read.missing(), vec![(0, 0), (2, 2)]);
}

#[test]
fn ranges_are_kept_within_the_file() {
    assert_eq!(run_bytes(0, 1, 5), Some((0, 4)));
    assert_eq!(run_bytes(1, 1, BLOCK_SIZE), None);
    assert_eq!(run_bytes(1, 2, 10 * BLOCK_SIZE), Some((BLOCK_SIZE, 3 * BLOCK_SIZE - 1)));
    let r = block_range(10, 8, 100).unwrap();
    assert_eq!((r.len, r.first_block, r.last_block), (2, 0, 0));
    assert_eq!(range_header(5, 9), "bytes=5-9");
}

#[test]
fn blocks_are_fetched_in_advance_up_to_the_last() {
    assert_eq!(readahead_range(10 * BLOCK_SIZE, 2), Some((3, 6)));
    assert_eq!(readahead_range(5 * BLOCK_SIZE, 2), Some((3, 4)));
    assert_eq!(readahead_range(5 * BLOCK_SIZE, 4), None);
    assert_eq!(readahead_range(1, 0), None);
}

#[test]
fn a_file_is_copied_piece_by_piece() {
    assert_eq!(materialize_chunk(10, 0), Some(10));
    assert_eq!(materialize_chunk(10, 10), None);
    assert_eq!(materialize_chunk(u64::MAX, 0), Some(MATERIALIZE_CHUNK));
}

#[test]
fn a_transient_error_then_an_expired_url_still_serves_the_read() {
    let mut a = FetchAttempts::new();
    assert_eq!(a.next(classify_status(500)), FetchStep::RetryAfter(100));
    assert_eq!(a.next(classify_status(403)), FetchStep::RefreshUrl);
    assert_eq!(a.next(classify_status(206)), FetchStep::UseData);
}

#[test]
fn requests_are_given_up_after_three_failures() {
    let mut a = FetchAttempts::new();
    assert_eq!(a.next(FetchReply::Failed), FetchStep::RetryAfter(100));
    assert_eq!(a.next(FetchReply::Failed), FetchStep::RetryAfter(500));
    assert_eq!(a.next(FetchReply::Failed), FetchStep::Fail);
}

#[test]
fn a_url_is_renewed_once() {
    let mut a = FetchAttempts::new();
    assert_eq!(a.next(FetchReply::Forbidden), FetchStep::RefreshUrl);
    assert_eq!(a.next(FetchReply::Forbidden), FetchStep::StillForbidden);
    let mut b = FetchAttempts::new();
    assert_eq!(b.next(classify_status(416)), FetchStep::UseNothing);
}

#[test]
fn a_url_is_asked_for_the_known_version() {
    let key = FileKey { remote_path: "p".into(), etag: "e".into() };
    assert_eq!(url_entity(&key), Some("e".to_string()));
    let new = FileKey { remote_path: "p".into(), etag: "".into() };
    assert_eq!(url_entity(&new), None);
}
