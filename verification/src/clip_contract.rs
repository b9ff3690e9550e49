//! What every writer and reader of the image index agrees on: identifiers,
//! dimensions, and the job of one image.
use crate::derived::{DerivedIndexJobSpec, DerivedIndexKind};
use crate::{codec, digest, text};
use vstd::prelude::*;
use vstd::string::*;
use vstd::utf8::*;

verus! {

pub const CLIP_MODEL_ID: &'static str = "chinese-clip-vit-base-patch16";

/// The revision of the vector space.
pub const CLIP_VECTOR_SPACE_REVISION: &'static str = "chinese-clip-vit-b16-vector-space-v1";

pub const CLIP_EMBEDDING_VERSION: u32 = 1;

pub const CLIP_DIMENSIONS: usize = 512;

/// Codes that stored import runs carry.
pub const SNAPSHOT_ROW_MISSING: &'static str = "snapshot_row_missing";

pub const ORPHAN_DOCUMENT_ID: &'static str = "orphan_document_id";

pub const SCREENSHOT_DISAPPEARED: &'static str = "screenshot_disappeared";

pub const LEGACY_VECTOR_DECODE_FAILED: &'static str = "legacy_vector_decode_failed";

pub const INVALID_VECTOR: &'static str = "invalid_vector";

pub const RUN_FAILED: &'static str = "run_failed";

/// The address of an image.
pub fn clip_memory_uri(image_hash: &str) -> (result: String)
    ensures
        result@ == "memory://"@ + image_hash@,
{
    text::join2("memory://", image_hash)
}

/// The document identifier of an image: the digest of its address.
pub fn clip_document_id(image_hash: &str) -> (result: String)
    ensures
        result@ == digest::hex_text(
            digest::md5_of(encode_utf8("memory://"@ + image_hash@)),
        ),
        result@.len() == 32,
{
    let uri = clip_memory_uri(image_hash);
    digest::md5_hash(uri.as_str().as_bytes())
}

/// The bytes of the prefix that a fingerprint is versioned by.
pub open spec fn fingerprint_prefix() -> Seq<u8> {
    encode_utf8("clip-image-source-v1"@).push(0)
}

/// The fingerprint of what a row is made from. The version in it makes every
/// stored row invalid once the encoder is fed something else.
pub fn clip_source_fingerprint(image_hash: &str) -> (result: String)
    ensures
        result@ == digest::hex_text(
            digest::sha256_of(fingerprint_prefix() + encode_utf8(image_hash@)),
        ),
        result@.len() == 64,
{
    let mut bytes: Vec<u8> = Vec::new();
    codec::push_bytes(&mut bytes, "clip-image-source-v1".as_bytes());
    bytes.push(0);
    codec::push_bytes(&mut bytes, image_hash.as_bytes());
    assert(bytes@ =~= fingerprint_prefix() + encode_utf8(image_hash@));
    digest::sha256_hex(&bytes)
}

/// The job of one image.
pub fn clip_job_spec(image_hash: &str) -> (result: DerivedIndexJobSpec)
    ensures
        result.index_kind == DerivedIndexKind::ClipImage,
        result.subject_key@ == image_hash@,
        result.model_id@ == CLIP_MODEL_ID@,
        result.model_revision@ == CLIP_VECTOR_SPACE_REVISION@,
        result.embedding_version == CLIP_EMBEDDING_VERSION,
        result.source_fingerprint@ == digest::hex_text(
            digest::sha256_of(fingerprint_prefix() + encode_utf8(image_hash@)),
        ),
{
    DerivedIndexJobSpec {
        index_kind: DerivedIndexKind::ClipImage,
        subject_key: image_hash.to_owned(),
        model_id: CLIP_MODEL_ID.to_owned(),
        model_revision: CLIP_VECTOR_SPACE_REVISION.to_owned(),
        embedding_version: CLIP_EMBEDDING_VERSION,
        source_fingerprint: clip_source_fingerprint(image_hash),
    }
}

} // verus!
