use video_upload::ingest::{IngestError, Ingestor, UploadPart, MAX_SIZE};
use video_upload::VideoService;

fn part(ct: Option<&str>, chunks: Vec<Vec<u8>>) -> UploadPart {
    UploadPart { content_type: ct.map(|s| s.to_string()), chunks }
}

#[test]
fn exactly_the_ceiling_is_accepted() {
    let half = MAX_SIZE / 2;
    let parts = vec![part(Some("video/mp4"), vec![vec![1u8; half], vec![2u8; MAX_SIZE - half]])];
    let data = VideoService::ingest(&parts).unwrap();
    assert_eq!(data.len(), MAX_SIZE);
    assert_eq!(data[0], 1);
    assert_eq!(data[MAX_SIZE - 1], 2);
}

#[test]
fn one_byte_over_the_ceiling_is_refused() {
    let parts = vec![part(Some("video/mp4"), vec![vec![0u8; MAX_SIZE], vec![0u8; 1]])];
    assert_eq!(VideoService::ingest(&parts), Err(IngestError::PayloadTooLarge));
}

#[test]
fn ceiling_counts_across_parts() {
    let parts = vec![
        part(Some("video/mp4"), vec![vec![0u8; MAX_SIZE - 10]]),
        part(Some("video/webm"), vec![vec![0u8; 11]]),
    ];
    assert_eq!(VideoService::ingest(&parts), Err(IngestError::PayloadTooLarge));
}

#[test]
fn image_part_is_refused() {
    let parts = vec![part(Some("image/png"), vec![vec![1, 2, 3]])];
    assert_eq!(VideoService::ingest(&parts), Err(IngestError::UnsupportedMediaType));
    assert_eq!(
        VideoService::check_content_type(Some("image/png")),
        Err(IngestError::UnsupportedMediaType)
    );
}

#[test]
fn image_part_is_refused_before_its_body_is_read() {
    let mut state = Ingestor::new();
    assert_eq!(state.begin_part(Some("image/png")), Err(IngestError::UnsupportedMediaType));
    assert_eq!(state.received_bytes(), 0);
    assert_eq!(state.accept_chunk(5), Ok(()));
    assert_eq!(state.received_bytes(), 5);
}

#[test]
fn missing_content_type_is_refused() {
    let parts = vec![part(None, vec![vec![1, 2, 3]])];
    assert_eq!(VideoService::ingest(&parts), Err(IngestError::MissingContentType));
    assert_eq!(VideoService::check_content_type(None), Err(IngestError::MissingContentType));
}

#[test]
fn unparsable_content_type_counts_as_missing() {
    assert_eq!(
        VideoService::check_content_type(Some("not a type")),
        Err(IngestError::MissingContentType)
    );
}

#[test]
fn video_types_are_accepted() {
    assert_eq!(VideoService::check_content_type(Some("video/mp4")), Ok(()));
    assert_eq!(VideoService::check_content_type(Some("VIDEO/WebM")), Ok(()));
    assert_eq!(VideoService::check_content_type(Some("video/quicktime; codecs=x")), Ok(()));
}

#[test]
fn later_bad_part_fails_the_whole_upload() {
    let parts = vec![
        part(Some("video/mp4"), vec![vec![1, 2]]),
        part(Some("text/plain"), vec![vec![3]]),
    ];
    assert_eq!(VideoService::ingest(&parts), Err(IngestError::UnsupportedMediaType));
}

#[test]
fn empty_body_gives_empty_asset() {
    let parts: Vec<UploadPart> = Vec::new();
    assert_eq!(VideoService::ingest(&parts), Ok(Vec::new()));
}

#[test]
fn chunks_are_kept_in_order() {
    let parts = vec![
        part(Some("video/mp4"), vec![vec![1, 2], vec![], vec![3]]),
        part(Some("video/mp4"), vec![vec![4]]),
    ];
    assert_eq!(VideoService::ingest(&parts), Ok(vec![1, 2, 3, 4]));
}

#[test]
fn accept_chunk_stops_at_the_ceiling() {
    let mut state = Ingestor::new();
    assert_eq!(state.accept_chunk(MAX_SIZE), Ok(()));
    assert_eq!(state.accept_chunk(1), Err(IngestError::PayloadTooLarge));
    assert_eq!(state.received_bytes(), MAX_SIZE);
    assert_eq!(state.accept_chunk(0), Ok(()));
}

#[test]
fn accept_chunk_refuses_huge_length_without_overflow() {
    let mut state = Ingestor::new();
    assert_eq!(state.accept_chunk(10), Ok(()));
    assert_eq!(state.accept_chunk(usize::MAX), Err(IngestError::PayloadTooLarge));
    assert_eq!(state.received_bytes(), 10);
}

#[test]
fn top_type_decision() {
    assert_eq!(VideoService::check_top_type(Some("video")), Ok(()));
    assert_eq!(VideoService::check_top_type(Some("image")), Err(IngestError::UnsupportedMediaType));
    assert_eq!(VideoService::check_top_type(Some("Video")), Err(IngestError::UnsupportedMediaType));
    assert_eq!(VideoService::check_top_type(None), Err(IngestError::MissingContentType));
}
