use video_upload::ingest::{IngestError, UploadPart};
use video_upload::relay::{CloudConfig, RelayError};
use video_upload::VideoService;

const MIB: usize = 1024 * 1024;

fn config() -> CloudConfig {
    VideoService::load_config(
        "https://api.example.com/v1_1".to_string(),
        Some("demo".to_string()),
        Some("key123".to_string()),
        Some("s3cr3t".to_string()),
    )
    .unwrap()
}

#[test]
fn request_carries_signed_fields() {
    let req = VideoService::build_upload(&config(), "abc123", 1700000000, vec![9, 8, 7]);
    assert_eq!(req.url, "https://api.example.com/v1_1/demo/video/upload");
    let fields: Vec<(&str, &str)> =
        req.fields.iter().map(|(k, v)| (k.as_str(), v.as_str())).collect();
    assert_eq!(
        fields,
        vec![
            ("public_id", "abc123"),
            ("timestamp", "1700000000"),
            ("signature", "0cd760f416d7e8441baa1890e1206b06a518fc61"),
            ("api_key", "key123"),
        ]
    );
    assert_eq!(req.file_name, "abc123");
    assert_eq!(req.file, vec![9, 8, 7]);
}

#[test]
fn prepared_request_uses_stored_name() {
    let req = VideoService::prepare_upload(&config(), Some(".tmpAb12"), 1700000000, vec![1]);
    assert_eq!(req.fields[0].1, ".tmpAb12");
    assert_eq!(req.fields[1].1, "1700000000");
    assert_eq!(req.file_name, ".tmpAb12");
    let again = VideoService::build_upload(&config(), ".tmpAb12", 1700000000, vec![1]);
    assert_eq!(req.fields, again.fields);
    let unnamed = VideoService::prepare_upload(&config(), None, 5, vec![]);
    assert_eq!(unnamed.file_name, "file");
    assert_eq!(unnamed.fields[0].1, "file");
}

#[test]
fn public_id_defaults_to_file() {
    assert_eq!(VideoService::public_id_from_name(None), "file");
    assert_eq!(VideoService::public_id_from_name(Some("x.mp4")), "x.mp4");
}

#[test]
fn missing_settings_are_configuration_errors() {
    let e = "https://api.example.com".to_string();
    assert_eq!(
        VideoService::load_config(e.clone(), None, Some("k".into()), Some("s".into())).err(),
        Some(RelayError::ConfigurationError)
    );
    assert_eq!(
        VideoService::load_config(e.clone(), Some("n".into()), None, Some("s".into())).err(),
        Some(RelayError::ConfigurationError)
    );
    assert_eq!(
        VideoService::load_config(e.clone(), Some("n".into()), Some("k".into()), None).err(),
        Some(RelayError::ConfigurationError)
    );
    assert_eq!(
        VideoService::load_config(e, Some("n".into()), Some("k".into()), Some(String::new())).err(),
        Some(RelayError::ConfigurationError)
    );
}

#[test]
fn json_answer_is_decoded() {
    let body = r#"{"public_id":"abc123","bytes":5242880,"resource_type":"video"}"#;
    let v = VideoService::decode_response(body).unwrap();
    assert_eq!(v["public_id"], "abc123");
    assert_eq!(v["bytes"], 5242880);
}

#[test]
fn malformed_answer_is_a_decode_error() {
    assert_eq!(
        VideoService::decode_response("<html>bad gateway</html>").err(),
        Some(RelayError::DecodeError)
    );
}

#[test]
fn five_mib_video_is_relayed_and_fifteen_mib_is_not() {
    let small = vec![UploadPart {
        content_type: Some("video/mp4".to_string()),
        chunks: (0..5).map(|_| vec![7u8; MIB]).collect(),
    }];
    let data = VideoService::ingest(&small).unwrap();
    assert_eq!(data.len(), 5 * MIB);
    let req = VideoService::build_upload(&config(), "clip", 1700000000, data);
    assert_eq!(req.file.len(), 5 * MIB);
    let stub = r#"{"asset_id":"a1","public_id":"clip","format":"mp4"}"#;
    let decoded = VideoService::decode_response(stub).unwrap();
    let expected: serde_json::Value = serde_json::from_str(stub).unwrap();
    assert_eq!(decoded, expected);

    let big = vec![UploadPart {
        content_type: Some("video/mp4".to_string()),
        chunks: (0..15).map(|_| vec![7u8; MIB]).collect(),
    }];
    assert_eq!(VideoService::ingest(&big), Err(IngestError::PayloadTooLarge));
}
