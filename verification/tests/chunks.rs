use hypedown::chunk::{chunk_plan_is_valid, download_plan, get_chunk_length, get_header_from_index, RangeBytes};
use hypedown::transfer::{ChunkAction, ChunkTransfer, ReadEvent};
use hyper::header::{Headers, Range};

fn range_of(headers: &Headers) -> Option<Range> {
    headers.get::<Range>().cloned()
}

#[test]
fn chunk_length_of_first_and_last_chunk() {
    assert_eq!(get_chunk_length(0, 10, 4), Some(RangeBytes(0, 3)));
    assert_eq!(get_chunk_length(1, 10, 4), Some(RangeBytes(4, 7)));
    // the last chunk stops at the last byte of the content
    assert_eq!(get_chunk_length(2, 10, 4), Some(RangeBytes(8, 9)));
}

#[test]
fn chunk_length_past_the_content() {
    assert_eq!(get_chunk_length(3, 10, 4), None);
    // a chunk may not start on the last byte
    assert_eq!(get_chunk_length(0, 1, 5), None);
    assert_eq!(get_chunk_length(9, 10, 1), None);
}

#[test]
fn chunk_length_of_empty_content_or_chunks() {
    assert_eq!(get_chunk_length(0, 0, 4), None);
    assert_eq!(get_chunk_length(0, 10, 0), None);
}

#[test]
fn header_asks_for_the_chunk_range() {
    let (headers, range) = get_header_from_index(1, 10, 4).unwrap();
    assert_eq!(range, RangeBytes(4, 3));
    assert_eq!(range_of(&headers), Some(Range::bytes(4, 7)));
    assert_eq!(headers.to_string(), "Range: bytes=4-7\r\n");
}

#[test]
fn header_of_last_chunk_is_clipped() {
    let (headers, range) = get_header_from_index(2, 10, 4).unwrap();
    assert_eq!(range, RangeBytes(8, 1));
    assert_eq!(range_of(&headers), Some(Range::bytes(8, 9)));
}

#[test]
fn no_header_past_the_content() {
    assert!(get_header_from_index(3, 10, 4).is_none());
}

#[test]
fn plan_validity() {
    assert!(chunk_plan_is_valid(10, 3));
    assert!(chunk_plan_is_valid(100, 1));
    assert!(chunk_plan_is_valid(2, 1));
    // 10 bytes in 5 chunks of 3: the fifth chunk would start at byte 12
    assert!(!chunk_plan_is_valid(10, 5));
    assert!(!chunk_plan_is_valid(1, 1));
    assert!(!chunk_plan_is_valid(10, 0));
    assert!(!chunk_plan_is_valid(0, 3));
    // the chunk length or the chunk ends do not fit in a u64
    assert!(!chunk_plan_is_valid(u64::MAX, 1));
    assert!(!chunk_plan_is_valid(u64::MAX, 2));
    assert!(chunk_plan_is_valid(u64::MAX - 10, 3));
}

#[test]
fn plan_tiles_the_content() {
    let plan = download_plan(10, 3);
    assert_eq!(plan.len(), 3);
    assert_eq!(plan[0].1, RangeBytes(0, 3));
    assert_eq!(plan[1].1, RangeBytes(4, 3));
    assert_eq!(plan[2].1, RangeBytes(8, 1));
    assert_eq!(range_of(&plan[0].0), Some(Range::bytes(0, 3)));
    assert_eq!(range_of(&plan[1].0), Some(Range::bytes(4, 7)));
    assert_eq!(range_of(&plan[2].0), Some(Range::bytes(8, 9)));
}

#[test]
fn plan_of_a_single_chunk() {
    let plan = download_plan(100, 1);
    assert_eq!(plan.len(), 1);
    assert_eq!(plan[0].1, RangeBytes(0, 99));
}

#[test]
fn transfer_stores_blocks_one_after_another() {
    let mut transfer = ChunkTransfer::new();
    assert_eq!(
        transfer.step(ReadEvent::Read { count: 5, progress_due: false }),
        ChunkAction::Store { offset: 0, progress: None }
    );
    assert_eq!(
        transfer.step(ReadEvent::Read { count: 7, progress_due: true }),
        ChunkAction::Store { offset: 5, progress: Some(12) }
    );
    assert_eq!(
        transfer.step(ReadEvent::Read { count: 3, progress_due: false }),
        ChunkAction::Store { offset: 12, progress: None }
    );
    assert_eq!(transfer.received(), 15);
    assert_eq!(transfer.reported(), 12);
    assert_eq!(
        transfer.step(ReadEvent::Read { count: 0, progress_due: true }),
        ChunkAction::Finish { bytes: 15 }
    );
}

#[test]
fn transfer_reports_the_rest_when_reading_fails() {
    let mut transfer = ChunkTransfer::new();
    transfer.step(ReadEvent::Read { count: 4, progress_due: true });
    transfer.step(ReadEvent::Read { count: 6, progress_due: false });
    assert_eq!(transfer.step(ReadEvent::Failed), ChunkAction::Abort { progress: 6 });
    assert_eq!(transfer.reported(), 10);
}

#[test]
fn transfer_of_an_empty_body() {
    let mut transfer = ChunkTransfer::new();
    assert_eq!(
        transfer.step(ReadEvent::Read { count: 0, progress_due: false }),
        ChunkAction::Finish { bytes: 0 }
    );
}
