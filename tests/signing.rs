use video_upload::signature::{decimal_string, ParamValue, ParameterSet};
use video_upload::VideoService;

fn params(pairs: &[(&str, ParamValue)]) -> ParameterSet {
    let mut p = ParameterSet::new();
    for (k, v) in pairs {
        let v = match v {
            ParamValue::Str(s) => ParamValue::Str(s.clone()),
            ParamValue::Int(i) => ParamValue::Int(*i),
        };
        p.insert(k.to_string(), v);
    }
    p
}

#[test]
fn canonical_input_fixture() {
    let p = VideoService::upload_params("abc123", 1700000000);
    let text = VideoService::canonical_string(&p);
    assert_eq!(text, "public_id=abc123&timestamp=1700000000");
}

#[test]
fn signature_fixture() {
    let p = VideoService::upload_params("abc123", 1700000000);
    let sig = VideoService::generate_signature(&p, "s3cr3t");
    assert_eq!(sig, "0cd760f416d7e8441baa1890e1206b06a518fc61");
    assert_eq!(sig.len(), 40);
}

#[test]
fn insertion_order_does_not_matter() {
    let a = params(&[
        ("timestamp", ParamValue::Int(1700000000)),
        ("public_id", ParamValue::Str("abc123".to_string())),
        ("folder", ParamValue::Str("clips".to_string())),
    ]);
    let b = params(&[
        ("folder", ParamValue::Str("clips".to_string())),
        ("public_id", ParamValue::Str("abc123".to_string())),
        ("timestamp", ParamValue::Int(1700000000)),
    ]);
    assert_eq!(VideoService::canonical_string(&a), VideoService::canonical_string(&b));
    assert_eq!(
        VideoService::generate_signature(&a, "s3cr3t"),
        VideoService::generate_signature(&b, "s3cr3t")
    );
}

#[test]
fn keys_sort_bytewise() {
    let p = params(&[
        ("b", ParamValue::Int(2)),
        ("a", ParamValue::Int(1)),
        ("B", ParamValue::Int(0)),
        ("ab", ParamValue::Str("x".to_string())),
    ]);
    assert_eq!(VideoService::canonical_string(&p), "B=0&a=1&ab=x&b=2");
}

#[test]
fn reinserting_a_name_replaces_its_value() {
    let mut p = ParameterSet::new();
    p.insert("k".to_string(), ParamValue::Int(1));
    p.insert("k".to_string(), ParamValue::Str("v".to_string()));
    assert_eq!(VideoService::canonical_string(&p), "k=v");
}

#[test]
fn empty_set_signs_secret_alone() {
    let p = ParameterSet::new();
    assert_eq!(VideoService::canonical_string(&p), "");
    let sig = VideoService::generate_signature(&p, "s3cr3t");
    assert_eq!(sig, "25ab86bed149ca6ca9c1c0d5db7c9a91388ddeab");
}

#[test]
fn one_character_of_the_secret_changes_the_signature() {
    let p = VideoService::upload_params("abc123", 1700000000);
    let base = VideoService::generate_signature(&p, "s3cr3t");
    let secret: Vec<char> = "s3cr3t".chars().collect();
    for i in 0..secret.len() {
        for c in ['a', 'z', '0', '9', 'S', '#'] {
            if c == secret[i] {
                continue;
            }
            let mut other = secret.clone();
            other[i] = c;
            let other: String = other.into_iter().collect();
            assert_ne!(VideoService::generate_signature(&p, &other), base);
        }
    }
}

#[test]
fn decimal_rendering() {
    assert_eq!(decimal_string(0), "0");
    assert_eq!(decimal_string(1700000000), "1700000000");
    assert_eq!(decimal_string(-42), "-42");
    assert_eq!(decimal_string(i64::MIN), "-9223372036854775808");
    assert_eq!(decimal_string(i64::MAX), "9223372036854775807");
}

#[test]
fn negative_and_integer_values_in_canonical_string() {
    let p = params(&[("n", ParamValue::Int(-7)), ("z", ParamValue::Int(10))]);
    assert_eq!(VideoService::canonical_string(&p), "n=-7&z=10");
}
