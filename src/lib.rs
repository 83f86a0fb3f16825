//! Ingestion of an uploaded video, canonical request signing, and the
//! construction of the signed upload request for the media-hosting API.
use vstd::prelude::*;

pub mod order;
pub mod pipeline;
pub mod ingest;
pub mod relay;
pub mod signature;

verus! {

/// The upload pipeline's operations, grouped under one name.
pub struct VideoService;

} // verus!
