//! The signed upload request sent to the media-hosting API, and the decoding
//! of its answer.
use crate::signature::{signature_of, decimal_of, decimal_string, ParamSpec, ParamValue, ParameterSet};
use crate::VideoService;
use vstd::prelude::*;

verus! {

/// `serde_json::Value`, carried through unopened as the decoded answer.
#[verifier::external_type_specification]
#[verifier::external_body]
pub struct ExJsonValue(serde_json::Value);

/// `serde_json::Error`, only told apart from success.
#[verifier::external_type_specification]
#[verifier::external_body]
pub struct ExJsonError(serde_json::Error);

/// Why a relay could not be made or understood.
#[derive(Debug, Clone, Copy, PartialEq, Eq, Structural)]
pub enum RelayError {
    /// A credential or setting is missing, or the secret is empty.
    ConfigurationError,
    /// The uploaded body could not be read, the remote service could not be
    /// reached, or its answer could not be read.
    TransportError,
    /// The remote service answered with text that is not JSON.
    DecodeError,
}

/// Where and as whom uploads are made.
pub struct CloudConfig {
    /// Base address of the API, without a trailing `/`.
    pub endpoint: String,
    /// The account's namespace (its cloud name).
    pub namespace: String,
    pub api_key: String,
    pub api_secret: String,
}

impl CloudConfig {
    /// A configuration that can sign: its secret is not empty.
    pub open spec fn wf(&self) -> bool {
        self.api_secret@.len() > 0
    }
}

/// A multipart upload request, ready to send.
pub struct UploadRequest {
    pub url: String,
    /// Text fields, in the order they are sent.
    pub fields: Vec<(String, String)>,
    /// Name given to the file part.
    pub file_name: String,
    /// Contents of the file part.
    pub file: Vec<u8>,
}

pub open spec fn upload_url(endpoint: Seq<char>, namespace: Seq<char>) -> Seq<char> {
    endpoint + seq!['/'] + namespace + "/video/upload"@
}

/// The public id of a stored file: its name, or `file` where it has none.
pub open spec fn public_id_of(name: Option<&str>) -> Seq<char> {
    match name {
        Some(n) => n@,
        None => "file"@,
    }
}

/// The parameters that are signed: exactly the public id and the timestamp.
pub open spec fn signed_params(public_id: Seq<char>, timestamp: i64) -> Map<Seq<char>, ParamSpec> {
    Map::empty().insert("public_id"@, ParamSpec::Str(public_id)).insert(
        "timestamp"@,
        ParamSpec::Int(timestamp),
    )
}

/// The text fields of an upload, in order.
pub open spec fn upload_fields(
    public_id: Seq<char>,
    timestamp: i64,
    api_key: Seq<char>,
    api_secret: Seq<char>,
) -> Seq<(Seq<char>, Seq<char>)> {
    seq![
        ("public_id"@, public_id),
        ("timestamp"@, decimal_of(timestamp as int)),
        ("signature"@, signature_of(signed_params(public_id, timestamp), api_secret)),
        ("api_key"@, api_key),
    ]
}

pub open spec fn fields_view(f: Seq<(String, String)>) -> Seq<(Seq<char>, Seq<char>)> {
    Seq::new(f.len(), |i: int| (f[i].0@, f[i].1@))
}

/// The upload request for the given configuration, public id, timestamp and file.
pub open spec fn request_is(
    r: UploadRequest,
    config: CloudConfig,
    public_id: Seq<char>,
    timestamp: i64,
    file: Seq<u8>,
) -> bool {
    &&& r.url@ == upload_url(config.endpoint@, config.namespace@)
    &&& fields_view(r.fields@) == upload_fields(
        public_id,
        timestamp,
        config.api_key@,
        config.api_secret@,
    )
    &&& r.file_name@ == public_id
    &&& r.file@ == file
}

/// Whether text is one well-formed JSON value.
pub uninterp spec fn json_parses(text: Seq<char>) -> bool;

/// The JSON value that well-formed text decodes to.
pub uninterp spec fn json_value_of(text: Seq<char>) -> serde_json::Value;

/// Relies on `serde_json::from_str::<serde_json::Value>`: succeeds exactly
/// on well-formed JSON, and the value it decodes depends on the text alone.
#[verifier::external_body]
fn parse_json(text: &str) -> (r: Result<serde_json::Value, serde_json::Error>)
    ensures
        r is Ok <==> json_parses(text@),
        r is Ok ==> r.unwrap() == json_value_of(text@),
{
    serde_json::from_str::<serde_json::Value>(text)
}

fn text_of(s: &str) -> (r: String)
    ensures
        r@ == s@,
{
    String::from_str(s)
}

impl VideoService {
    /// Builds the configuration from the loaded settings. Any missing setting,
    /// or an empty secret, is a `ConfigurationError`: nothing is ever signed
    /// with a stand-in secret.
    pub fn load_config(
        endpoint: String,
        namespace: Option<String>,
        api_key: Option<String>,
        api_secret: Option<String>,
    ) -> (r: Result<CloudConfig, RelayError>)
        ensures
            r is Ok <==> (namespace is Some && api_key is Some && api_secret is Some
                && api_secret.unwrap()@.len() > 0),
            r is Err ==> r == Err::<CloudConfig, RelayError>(RelayError::ConfigurationError),
            r is Ok ==> ({
                let c = r.unwrap();
                &&& c.endpoint == endpoint
                &&& c.namespace == namespace.unwrap()
                &&& c.api_key == api_key.unwrap()
                &&& c.api_secret == api_secret.unwrap()
                &&& c.wf()
            }),
    {
        match (namespace, api_key, api_secret) {
            (Some(namespace), Some(api_key), Some(api_secret)) => {
                if api_secret.as_str().unicode_len() == 0 {
                    Err(RelayError::ConfigurationError)
                } else {
                    Ok(CloudConfig { endpoint, namespace, api_key, api_secret })
                }
            },
            _ => Err(RelayError::ConfigurationError),
        }
    }

    /// The public id of an upload: the stored file's name, or `file` where it has none.
    pub fn public_id_from_name(name: Option<&str>) -> (r: String)
        ensures
            r@ == public_id_of(name),
    {
        match name {
            Some(n) => text_of(n),
            None => text_of("file"),
        }
    }

    /// The parameter set that is signed for an upload.
    pub fn upload_params(public_id: &str, timestamp: i64) -> (r: ParameterSet)
        ensures
            r.wf(),
            r@ == signed_params(public_id@, timestamp),
    {
        let mut params = ParameterSet::new();
        params.insert(text_of("public_id"), ParamValue::Str(text_of(public_id)));
        params.insert(text_of("timestamp"), ParamValue::Int(timestamp));
        params
    }

    /// The full upload request: the URL `{endpoint}/{namespace}/video/upload`,
    /// the fields `public_id`, `timestamp`, `signature` (over the public id and
    /// timestamp only) and `api_key`, and the file named after the public id.
    pub fn build_upload(config: &CloudConfig, public_id: &str, timestamp: i64, file: Vec<u8>) -> (r:
        UploadRequest)
        requires
            config.wf(),
        ensures
            request_is(r, *config, public_id@, timestamp, file@),
    {
        let params = VideoService::upload_params(public_id, timestamp);
        let signature = VideoService::generate_signature(&params, config.api_secret.as_str());
        let mut url = text_of(config.endpoint.as_str());
        url.append("/");
        url.append(config.namespace.as_str());
        url.append("/video/upload");
        proof {
            reveal_strlit("/");
            assert(url@ =~= upload_url(config.endpoint@, config.namespace@));
        }
        let mut fields: Vec<(String, String)> = Vec::new();
        fields.push((text_of("public_id"), text_of(public_id)));
        fields.push((text_of("timestamp"), decimal_string(timestamp)));
        fields.push((text_of("signature"), signature));
        fields.push((text_of("api_key"), text_of(config.api_key.as_str())));
        let r = UploadRequest { url, fields, file_name: text_of(public_id), file };
        assert(fields_view(r.fields@) =~= upload_fields(
            public_id@,
            timestamp,
            config.api_key@,
            config.api_secret@,
        ));
        r
    }

    /// The upload request for a stored file, stamped with `timestamp` (Unix
    /// seconds): its public id is the file's name, or `file` where it has none.
    pub fn prepare_upload(
        config: &CloudConfig,
        stored_name: Option<&str>,
        timestamp: i64,
        file: Vec<u8>,
    ) -> (r: UploadRequest)
        requires
            config.wf(),
        ensures
            request_is(r, *config, public_id_of(stored_name), timestamp, file@),
    {
        let public_id = VideoService::public_id_from_name(stored_name);
        VideoService::build_upload(config, public_id.as_str(), timestamp, file)
    }

    /// Decodes the remote service's answer. Text that is not JSON is a
    /// `DecodeError`, told apart from a failure to reach the service.
    pub fn decode_response(body: &str) -> (r: Result<serde_json::Value, RelayError>)
        ensures
            r is Ok <==> json_parses(body@),
            r is Ok ==> r.unwrap() == json_value_of(body@),
            r is Err ==> r == Err::<serde_json::Value, RelayError>(RelayError::DecodeError),
    {
        match parse_json(body) {
            Ok(v) => Ok(v),
            Err(_) => Err(RelayError::DecodeError),
        }
    }
}

} // verus!
