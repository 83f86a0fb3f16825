//! Consuming an uploaded multipart body: the content-type gate and the byte ceiling.
use crate::VideoService;
use vstd::prelude::*;

verus! {

/// The largest number of bytes one upload may carry, over all its parts (10 MiB).
pub const MAX_SIZE: usize = 10 * 1024 * 1024;

/// Why an upload was refused.
#[derive(Debug, Clone, Copy, PartialEq, Eq, Structural)]
pub enum IngestError {
    /// A part declared no content type, or one that does not parse.
    MissingContentType,
    /// A part's content type is not a video type.
    UnsupportedMediaType,
    /// The upload carries more than `MAX_SIZE` bytes.
    PayloadTooLarge,
}

/// The top-level type (lower case) of a Content-Type header value, or `None`
/// where the value is not a media type.
pub uninterp spec fn media_top_type_of(header: Seq<char>) -> Option<Seq<char>>;

/// Relies on `mime::Mime`'s `FromStr` and `Mime::type_`: parses the header
/// value and hands back its top-level type.
#[verifier::external_body]
fn media_top_type(header: &str) -> (r: Option<String>)
    ensures
        match r {
            Some(t) => media_top_type_of(header@) == Some(t@),
            None => media_top_type_of(header@) is None,
        },
{
    header.parse::<mime::Mime>().ok().map(|m| m.type_().as_str().to_string())
}

pub open spec fn video_type() -> Seq<char> {
    seq!['v', 'i', 'd', 'e', 'o']
}

/// The decision on a part's parsed top-level type: `None` stands for a
/// missing or unparsable content type.
pub open spec fn top_type_check(top: Option<Seq<char>>) -> Result<(), IngestError> {
    match top {
        None => Err(IngestError::MissingContentType),
        Some(t) => if t == video_type() {
            Ok(())
        } else {
            Err(IngestError::UnsupportedMediaType)
        },
    }
}

/// The decision on a part's declared content type, made before its body is read.
pub open spec fn part_check(content_type: Option<Seq<char>>) -> Result<(), IngestError> {
    match content_type {
        None => Err(IngestError::MissingContentType),
        Some(h) => top_type_check(media_top_type_of(h)),
    }
}

pub open spec fn opt_str_view(s: Option<&str>) -> Option<Seq<char>> {
    match s {
        Some(x) => Some(x@),
        None => None,
    }
}

/// Appends the chunks from index `i` on to `acc`, failing as soon as the
/// running total passes the ceiling.
pub open spec fn run_chunks(chunks: Seq<Seq<u8>>, i: int, acc: Seq<u8>) -> Result<Seq<u8>, IngestError>
    decreases chunks.len() - i,
{
    if i < 0 || i >= chunks.len() {
        Ok(acc)
    } else if acc.len() + chunks[i].len() > MAX_SIZE {
        Err(IngestError::PayloadTooLarge)
    } else {
        run_chunks(chunks, i + 1, acc + chunks[i])
    }
}

/// Processes the parts from index `j` on, each checked for its content type
/// before any of its chunks is taken.
pub open spec fn run_parts(
    parts: Seq<(Option<Seq<char>>, Seq<Seq<u8>>)>,
    j: int,
    acc: Seq<u8>,
) -> Result<Seq<u8>, IngestError>
    decreases parts.len() - j,
{
    if j < 0 || j >= parts.len() {
        Ok(acc)
    } else {
        match part_check(parts[j].0) {
            Err(e) => Err(e),
            Ok(_) => match run_chunks(parts[j].1, 0, acc) {
                Err(e) => Err(e),
                Ok(a) => run_parts(parts, j + 1, a),
            },
        }
    }
}

/// The outcome of ingesting a whole multipart body.
pub open spec fn ingest_spec(parts: Seq<(Option<Seq<char>>, Seq<Seq<u8>>)>) -> Result<Seq<u8>, IngestError> {
    run_parts(parts, 0, Seq::empty())
}

/// All chunks, in order, as one byte string.
pub open spec fn flatten(chunks: Seq<Seq<u8>>) -> Seq<u8>
    decreases chunks.len(),
{
    if chunks.len() == 0 {
        Seq::empty()
    } else {
        chunks[0] + flatten(chunks.drop_first())
    }
}

proof fn lemma_run_chunks_from(chunks: Seq<Seq<u8>>, i: int, acc: Seq<u8>)
    requires
        0 <= i <= chunks.len(),
        acc.len() <= MAX_SIZE,
    ensures
        run_chunks(chunks, i, acc) == if acc.len() + flatten(chunks.skip(i)).len() <= MAX_SIZE {
            Ok::<Seq<u8>, IngestError>(acc + flatten(chunks.skip(i)))
        } else {
            Err(IngestError::PayloadTooLarge)
        },
    decreases chunks.len() - i,
{
    let rest = chunks.skip(i);
    if i == chunks.len() {
        assert(rest.len() == 0);
        assert(acc + flatten(rest) =~= acc);
    } else {
        assert(rest.drop_first() =~= chunks.skip(i + 1));
        assert(rest[0] == chunks[i]);
        assert(flatten(rest) == rest[0] + flatten(rest.drop_first()));
        assert(flatten(rest).len() == chunks[i].len() + flatten(chunks.skip(i + 1)).len());
        if acc.len() + chunks[i].len() <= MAX_SIZE {
            lemma_run_chunks_from(chunks, i + 1, acc + chunks[i]);
        }
        assert(acc + flatten(rest) =~= acc + chunks[i] + flatten(chunks.skip(i + 1)));
    }
}

/// The ceiling bounds the whole stream: a part's chunks are taken exactly when
/// their total size is at most `MAX_SIZE`, and refused with `PayloadTooLarge`
/// otherwise, wherever the excess falls.
pub proof fn lemma_ceiling(chunks: Seq<Seq<u8>>)
    ensures
        run_chunks(chunks, 0, Seq::empty()) == if flatten(chunks).len() <= MAX_SIZE {
            Ok::<Seq<u8>, IngestError>(flatten(chunks))
        } else {
            Err(IngestError::PayloadTooLarge)
        },
{
    lemma_run_chunks_from(chunks, 0, Seq::empty());
    assert(chunks.skip(0) =~= chunks);
    assert(Seq::<u8>::empty() + flatten(chunks) =~= flatten(chunks));
}

/// All bytes of the parts from index `j` on, in order.
pub open spec fn bytes_from(parts: Seq<(Option<Seq<char>>, Seq<Seq<u8>>)>, j: int) -> Seq<u8>
    decreases parts.len() - j,
{
    if j < 0 || j >= parts.len() {
        Seq::empty()
    } else {
        flatten(parts[j].1) + bytes_from(parts, j + 1)
    }
}

proof fn lemma_run_parts_from(parts: Seq<(Option<Seq<char>>, Seq<Seq<u8>>)>, j: int, acc: Seq<u8>)
    requires
        0 <= j <= parts.len(),
        acc.len() <= MAX_SIZE,
        forall|i: int| 0 <= i < parts.len() ==> part_check(#[trigger] parts[i].0) is Ok,
    ensures
        run_parts(parts, j, acc) == if acc.len() + bytes_from(parts, j).len() <= MAX_SIZE {
            Ok::<Seq<u8>, IngestError>(acc + bytes_from(parts, j))
        } else {
            Err(IngestError::PayloadTooLarge)
        },
    decreases parts.len() - j,
{
    if j == parts.len() {
        assert(acc + bytes_from(parts, j) =~= acc);
    } else {
        let c = parts[j].1;
        assert(part_check(parts[j].0) is Ok);
        lemma_run_chunks_from(c, 0, acc);
        assert(c.skip(0) =~= c);
        if acc.len() + flatten(c).len() <= MAX_SIZE {
            lemma_run_parts_from(parts, j + 1, acc + flatten(c));
            assert(acc + flatten(c) + bytes_from(parts, j + 1) =~= acc + bytes_from(parts, j));
        }
    }
}

/// The ceiling bounds the whole upload: where every part is a video part, the
/// upload succeeds, with exactly its bytes in order, if and only if it holds
/// at most `MAX_SIZE` bytes over all parts; otherwise it fails with
/// `PayloadTooLarge`.
pub proof fn lemma_upload_ceiling(parts: Seq<(Option<Seq<char>>, Seq<Seq<u8>>)>)
    requires
        forall|i: int| 0 <= i < parts.len() ==> part_check(#[trigger] parts[i].0) is Ok,
    ensures
        ingest_spec(parts) == if bytes_from(parts, 0).len() <= MAX_SIZE {
            Ok::<Seq<u8>, IngestError>(bytes_from(parts, 0))
        } else {
            Err(IngestError::PayloadTooLarge)
        },
{
    lemma_run_parts_from(parts, 0, Seq::empty());
    assert(Seq::<u8>::empty() + bytes_from(parts, 0) =~= bytes_from(parts, 0));
}

/// The running state of one upload's ingestion: how many bytes were taken.
pub struct Ingestor {
    total: usize,
}

impl Ingestor {
    /// Bytes taken so far over all parts.
    pub closed spec fn received(&self) -> nat {
        self.total as nat
    }

    /// A fresh state, before any part.
    pub fn new() -> (r: Ingestor)
        ensures
            r.received() == 0,
    {
        Ingestor { total: 0 }
    }

    /// Bytes taken so far over all parts.
    pub fn received_bytes(&self) -> (r: usize)
        ensures
            r == self.received(),
    {
        self.total
    }

    /// Decides on the next part from its declared content type, before its
    /// body is read.
    pub fn begin_part(&self, content_type: Option<&str>) -> (r: Result<(), IngestError>)
        ensures
            r == part_check(opt_str_view(content_type)),
    {
        VideoService::check_content_type(content_type)
    }

    /// Counts a chunk of `len` bytes. It is refused, and nothing is counted,
    /// where the running total would pass `MAX_SIZE`.
    pub fn accept_chunk(&mut self, len: usize) -> (r: Result<(), IngestError>)
        requires
            old(self).received() <= MAX_SIZE,
        ensures
            final(self).received() <= MAX_SIZE,
            old(self).received() + len > MAX_SIZE ==> r == Err::<(), IngestError>(
                IngestError::PayloadTooLarge,
            ) && final(self).received() == old(self).received(),
            old(self).received() + len <= MAX_SIZE ==> r is Ok && final(self).received()
                == old(self).received() + len,
    {
        if len > MAX_SIZE - self.total {
            Err(IngestError::PayloadTooLarge)
        } else {
            self.total = self.total + len;
            Ok(())
        }
    }
}

/// One part of an upload held in memory: its declared content type and its body in chunks.
pub struct UploadPart {
    pub content_type: Option<String>,
    pub chunks: Vec<Vec<u8>>,
}

impl View for UploadPart {
    type V = (Option<Seq<char>>, Seq<Seq<u8>>);

    open spec fn view(&self) -> (Option<Seq<char>>, Seq<Seq<u8>>) {
        (
            match self.content_type {
                Some(s) => Some(s@),
                None => None,
            },
            Seq::new(self.chunks@.len(), |i: int| self.chunks@[i]@),
        )
    }
}

pub open spec fn parts_view(parts: Seq<UploadPart>) -> Seq<(Option<Seq<char>>, Seq<Seq<u8>>)> {
    Seq::new(parts.len(), |i: int| parts[i]@)
}

impl VideoService {
    /// Decides on a part from its parsed top-level type: `video` is accepted,
    /// `None` (no type, or one that does not parse) is `MissingContentType`,
    /// and any other type is `UnsupportedMediaType`.
    pub fn check_top_type(top: Option<&str>) -> (r: Result<(), IngestError>)
        ensures
            r == top_type_check(opt_str_view(top)),
    {
        match top {
            None => Err(IngestError::MissingContentType),
            Some(t) => {
                let t = String::from_str(t);
                let video = String::from_str("video");
                proof {
                    reveal_strlit("video");
                    assert(video@ =~= video_type());
                }
                if t == video {
                    Ok(())
                } else {
                    Err(IngestError::UnsupportedMediaType)
                }
            },
        }
    }

    /// Accepts a part whose declared content type is a video type; refuses a
    /// missing or unparsable one with `MissingContentType` and any other with
    /// `UnsupportedMediaType`.
    pub fn check_content_type(content_type: Option<&str>) -> (r: Result<(), IngestError>)
        ensures
            r == part_check(opt_str_view(content_type)),
    {
        match content_type {
            None => Err(IngestError::MissingContentType),
            Some(h) => {
                let top = media_top_type(h);
                match &top {
                    None => VideoService::check_top_type(None),
                    Some(t) => VideoService::check_top_type(Some(t.as_str())),
                }
            },
        }
    }

    /// Ingests a whole multipart body held in memory: each part's content type
    /// is checked before its chunks are read, and the bytes over all parts may
    /// not pass `MAX_SIZE`. Returns the bytes taken, in order.
    pub fn ingest(parts: &Vec<UploadPart>) -> (r: Result<Vec<u8>, IngestError>)
        ensures
            match r {
                Ok(data) => ingest_spec(parts_view(parts@)) == Ok::<Seq<u8>, IngestError>(data@),
                Err(e) => ingest_spec(parts_view(parts@)) == Err::<Seq<u8>, IngestError>(e),
            },
            r is Ok ==> r.unwrap()@.len() <= MAX_SIZE,
    {
        let ghost ps = parts_view(parts@);
        let mut state = Ingestor::new();
        let mut data: Vec<u8> = Vec::new();
        let n = parts.len();
        let mut j: usize = 0;
        while j < n
            invariant
                n == ps.len(),
                ps == parts_view(parts@),
                j <= n,
                state.received() == data@.len(),
                data@.len() <= MAX_SIZE,
                ingest_spec(ps) == run_parts(ps, j as int, data@),
            decreases n - j,
        {
            let part = &parts[j];
            let ct = match &part.content_type {
                Some(s) => Some(s.as_str()),
                None => None,
            };
            assert(opt_str_view(ct) == ps[j as int].0);
            match state.begin_part(ct) {
                Err(e) => {
                    return Err(e);
                },
                Ok(_) => {},
            }
            let ghost cs = ps[j as int].1;
            let m = part.chunks.len();
            let mut i: usize = 0;
            while i < m
                invariant
                    n == ps.len(),
                    ps == parts_view(parts@),
                    j < n,
                    part == parts@[j as int],
                    cs == ps[j as int].1,
                    m == cs.len(),
                    i <= m,
                    state.received() == data@.len(),
                    data@.len() <= MAX_SIZE,
                    ingest_spec(ps) == match run_chunks(cs, i as int, data@) {
                        Err(e) => Err(e),
                        Ok(a) => run_parts(ps, j + 1, a),
                    },
                decreases m - i,
            {
                let chunk = &part.chunks[i];
                assert(chunk@ == cs[i as int]);
                match state.accept_chunk(chunk.len()) {
                    Err(e) => {
                        return Err(e);
                    },
                    Ok(_) => {},
                }
                let ghost before = data@;
                data.extend_from_slice(chunk.as_slice());
                assert(data@ =~= before + cs[i as int]);
                i = i + 1;
            }
            j = j + 1;
        }
        Ok(data)
    }
}

} // verus!
