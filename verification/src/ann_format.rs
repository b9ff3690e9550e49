//! Stable flat-vector sidecar format.
//!
//! A sidecar is a 512-byte header, a table of key offsets with a terminator,
//! the key bytes, and, from a 4096-byte boundary on, a fixed-stride matrix of
//! little-endian 32-bit floats. Keys have variable length and vectors do not,
//! so a reader reaches any vector directly.
//!
//! A 32-bit float is carried here as the `u32` of its IEEE 754 bits.
use crate::{codec, text};
use vstd::prelude::*;
use vstd::string::*;
use vstd::utf8::*;

verus! {

pub const FORMAT_VERSION: u32 = 4;

pub const HEADER_BYTES: u64 = 512;

pub const VECTOR_ALIGNMENT: u64 = 4096;

pub const ANN_IMPLEMENTATION_VERSION: &'static str = "usearch-2.26.0";

pub const ANN_ALGORITHM: &'static str = "hnsw";

pub const ANN_METRIC: &'static str = "ip";

pub const ANN_QUANTIZATION: &'static str = "i8";

pub const ANN_CONNECTIVITY: u32 = 16;

pub const ANN_EXPANSION_ADD: u32 = 160;

pub const MAX_ROWS: u64 = 2_000_000;

pub const MAX_DIMENSIONS: u32 = 65_536;

pub const MAX_TEXT_BYTES: usize = 4096;

const INDEX_KIND_BYTES: usize = 64;

const MODEL_ID_BYTES: usize = 128;

const MODEL_REVISION_BYTES: usize = 128;

const ANN_IMPLEMENTATION_BYTES: usize = 64;

/// The bytes `CPDVEC04` that open a sidecar.
pub open spec fn magic() -> Seq<u8> {
    seq![67u8, 80u8, 68u8, 86u8, 69u8, 67u8, 48u8, 52u8]
}

/// The fixed-size description at the start of a sidecar.
#[derive(Debug, Clone)]
pub struct Header {
    pub generation: u64,
    pub covered_epoch: u64,
    pub row_count: u64,
    pub dimensions: u32,
    pub key_offsets_offset: u64,
    pub keys_offset: u64,
    pub keys_bytes: u64,
    pub vectors_offset: u64,
    pub vectors_bytes: u64,
    pub expansion_search: u32,
    pub connectivity: u32,
    pub expansion_add: u32,
    pub index_kind: String,
    pub model_id: String,
    pub model_revision: String,
    pub ann_implementation: String,
}

/// What a header says, with its texts as character sequences.
pub struct HeaderModel {
    pub generation: u64,
    pub covered_epoch: u64,
    pub row_count: u64,
    pub dimensions: u32,
    pub key_offsets_offset: u64,
    pub keys_offset: u64,
    pub keys_bytes: u64,
    pub vectors_offset: u64,
    pub vectors_bytes: u64,
    pub expansion_search: u32,
    pub connectivity: u32,
    pub expansion_add: u32,
    pub index_kind: Seq<char>,
    pub model_id: Seq<char>,
    pub model_revision: Seq<char>,
    pub ann_implementation: Seq<char>,
}

impl View for Header {
    type V = HeaderModel;

    open spec fn view(&self) -> HeaderModel {
        HeaderModel {
            generation: self.generation,
            covered_epoch: self.covered_epoch,
            row_count: self.row_count,
            dimensions: self.dimensions,
            key_offsets_offset: self.key_offsets_offset,
            keys_offset: self.keys_offset,
            keys_bytes: self.keys_bytes,
            vectors_offset: self.vectors_offset,
            vectors_bytes: self.vectors_bytes,
            expansion_search: self.expansion_search,
            connectivity: self.connectivity,
            expansion_add: self.expansion_add,
            index_kind: self.index_kind@,
            model_id: self.model_id@,
            model_revision: self.model_revision@,
            ann_implementation: self.ann_implementation@,
        }
    }
}

/// Whether a text fits in a header field of `width` bytes, behind its length.
pub open spec fn text_fits(value: Seq<char>, width: nat) -> bool {
    encode_utf8(value).len() <= width - 2 && encode_utf8(value).len() <= MAX_TEXT_BYTES
}

/// A text field: a 16-bit length, the UTF-8 bytes, and zeros to the end.
pub open spec fn text_field(value: Seq<char>, width: nat) -> Seq<u8> {
    let bytes = encode_utf8(value);
    codec::le_bytes(bytes.len(), 2) + bytes + codec::zeros((width - 2 - bytes.len()) as nat)
}

/// The message for a text that does not fit its field.
pub open spec fn too_long(name: Seq<char>) -> Seq<char> {
    "ANN "@ + name + " is too long"@
}

/// The smallest multiple of `alignment` that is not below `value`.
pub open spec fn aligned(value: int, alignment: int) -> int {
    (value + alignment - 1) / alignment * alignment
}

impl HeaderModel {
    /// Whether every text fits its field.
    pub open spec fn texts_fit(self) -> bool {
        &&& text_fits(self.index_kind, 64)
        &&& text_fits(self.model_id, 128)
        &&& text_fits(self.model_revision, 128)
        &&& text_fits(self.ann_implementation, 64)
    }

    /// The numbers of the header, as the bytes 0 to 103.
    pub open spec fn numbers_image(self) -> Seq<u8> {
        magic() + codec::le_bytes(4, 4) + codec::le_bytes(512, 4) + codec::le_bytes(self.generation as nat, 8)
            + codec::le_bytes(self.covered_epoch as nat, 8) + codec::le_bytes(self.row_count as nat, 8)
            + codec::le_bytes(self.dimensions as nat, 4) + codec::zeros(4) + codec::le_bytes(
            self.key_offsets_offset as nat,
            8,
        ) + codec::le_bytes(self.keys_offset as nat, 8) + codec::le_bytes(self.keys_bytes as nat, 8) + codec::le_bytes(
            self.vectors_offset as nat,
            8,
        ) + codec::le_bytes(self.vectors_bytes as nat, 8) + codec::le_bytes(self.expansion_search as nat, 4)
            + codec::le_bytes(self.connectivity as nat, 4) + codec::le_bytes(self.expansion_add as nat, 4)
            + codec::zeros(4)
    }

    /// The texts of the header, as the bytes 104 to 511.
    pub open spec fn texts_image(self) -> Seq<u8> {
        text_field(self.index_kind, 64) + text_field(self.model_id, 128) + text_field(
            self.model_revision,
            128,
        ) + text_field(self.ann_implementation, 64) + codec::zeros(24)
    }

    /// The 512 bytes of the header.
    pub open spec fn image(self) -> Seq<u8> {
        self.numbers_image() + self.texts_image()
    }

    /// The sections follow each other as a snapshot writer lays them out.
    pub open spec fn snapshot_layout(self) -> bool {
        &&& self.row_count <= MAX_ROWS
        &&& 0 < self.dimensions <= MAX_DIMENSIONS
        &&& self.key_offsets_offset == 512
        &&& self.keys_offset == 512 + 8 * (self.row_count + 1)
        &&& self.vectors_offset == aligned(self.keys_offset + self.keys_bytes, 4096)
        &&& self.vectors_bytes == self.row_count * (4 * self.dimensions)
    }

    /// What is wrong with the layout of a file of `file_len` bytes, if anything.
    pub open spec fn layout_fault(self, file_len: int) -> Option<Seq<char>> {
        if self.row_count > MAX_ROWS || self.dimensions == 0 || self.dimensions > MAX_DIMENSIONS {
            Some("ANN sidecar shape is outside supported bounds"@)
        } else if self.connectivity != 16 || self.expansion_add != 160 || self.ann_implementation
            != "usearch-2.26.0"@ {
            Some("ANN sidecar implementation contract mismatch"@)
        } else if self.key_offsets_offset != 512 || self.keys_offset != 512 + 8 * (self.row_count
            + 1) || self.vectors_offset % 4096 != 0 {
            Some("ANN sidecar section layout is invalid"@)
        } else if self.vectors_bytes != self.row_count * (4 * self.dimensions) {
            Some("ANN sidecar file length mismatch"@)
        } else if self.vectors_offset + self.vectors_bytes > u64::MAX {
            Some("ANN sidecar file size overflow"@)
        } else if self.vectors_offset + self.vectors_bytes != file_len {
            Some("ANN sidecar file length mismatch"@)
        } else {
            None
        }
    }
}

/// The text in the field of `width` bytes at `at`, or what is wrong with it.
pub open spec fn text_at(bytes: Seq<u8>, at: int, width: int) -> Result<Seq<char>, Seq<char>> {
    let len = codec::le_at(bytes, at, 2);
    let body = bytes.subrange(at + 2, at + 2 + len);
    if len > width - 2 {
        Err("ANN header text length is invalid"@)
    } else if valid_utf8(body) {
        Ok(decode_utf8(body))
    } else {
        Err("ANN header text is not UTF-8"@)
    }
}

/// The header that the bytes of a whole sidecar begin with, or why they
/// are refused.
pub open spec fn decoded(bytes: Seq<u8>) -> Result<HeaderModel, Seq<char>> {
    if bytes.len() < 512 || bytes.subrange(0, 8) != magic() {
        Err("ANN sidecar has an invalid header"@)
    } else if codec::le_at(bytes, 8, 4) != 4 {
        Err("Unsupported ANN sidecar format version: "@ + text::decimal(codec::le_at(bytes, 8, 4)))
    } else if codec::le_at(bytes, 12, 4) != 512 {
        Err("ANN sidecar header size mismatch"@)
    } else if text_at(bytes, 104, 64) is Err {
        Err(text_at(bytes, 104, 64)->Err_0)
    } else if text_at(bytes, 168, 128) is Err {
        Err(text_at(bytes, 168, 128)->Err_0)
    } else if text_at(bytes, 296, 128) is Err {
        Err(text_at(bytes, 296, 128)->Err_0)
    } else if text_at(bytes, 424, 64) is Err {
        Err(text_at(bytes, 424, 64)->Err_0)
    } else {
        let header = HeaderModel {
            generation: codec::le_at(bytes, 16, 8) as u64,
            covered_epoch: codec::le_at(bytes, 24, 8) as u64,
            row_count: codec::le_at(bytes, 32, 8) as u64,
            dimensions: codec::le_at(bytes, 40, 4) as u32,
            key_offsets_offset: codec::le_at(bytes, 48, 8) as u64,
            keys_offset: codec::le_at(bytes, 56, 8) as u64,
            keys_bytes: codec::le_at(bytes, 64, 8) as u64,
            vectors_offset: codec::le_at(bytes, 72, 8) as u64,
            vectors_bytes: codec::le_at(bytes, 80, 8) as u64,
            expansion_search: codec::le_at(bytes, 88, 4) as u32,
            connectivity: codec::le_at(bytes, 92, 4) as u32,
            expansion_add: codec::le_at(bytes, 96, 4) as u32,
            index_kind: text_at(bytes, 104, 64)->Ok_0,
            model_id: text_at(bytes, 168, 128)->Ok_0,
            model_revision: text_at(bytes, 296, 128)->Ok_0,
            ann_implementation: text_at(bytes, 424, 64)->Ok_0,
        };
        match header.layout_fault(bytes.len() as int) {
            Some(fault) => Err(fault),
            None => Ok(header),
        }
    }
}

fn align_up(value: u64, alignment: u64) -> (result: Result<u64, String>)
    requires
        alignment > 0,
    ensures
        match result {
            Ok(v) => value + alignment - 1 <= u64::MAX && v == aligned(
                value as int,
                alignment as int,
            ),
            Err(e) => value + alignment - 1 > u64::MAX && e@ == "ANN sidecar alignment overflow"@,
        },
{
    match value.checked_add(alignment - 1) {
        Some(padded) => {
            proof {
                let q = padded as int / alignment as int;
                assert(q * alignment <= padded) by (nonlinear_arith)
                    requires
                        q == padded as int / alignment as int,
                        alignment > 0,
                ;
                assert(0 <= q * alignment) by (nonlinear_arith)
                    requires
                        q >= 0,
                        alignment > 0,
                ;
            }
            Ok(padded / alignment * alignment)
        },
        None => Err("ANN sidecar alignment overflow".to_owned()),
    }
}

fn validate_text(name: &str, value: &str, field_bytes: usize) -> (result: Result<(), String>)
    requires
        field_bytes >= 2,
    ensures
        match result {
            Ok(_) => text_fits(value@, field_bytes as nat),
            Err(e) => !text_fits(value@, field_bytes as nat) && e@ == too_long(name@),
        },
{
    let len: usize = value.as_bytes().len();
    if len > field_bytes - 2 || len > MAX_TEXT_BYTES {
        return Err(text::join3("ANN ", name, " is too long"));
    }
    Ok(())
}

fn put_text(out: &mut Vec<u8>, width: usize, value: &str) -> (result: Result<(), String>)
    requires
        2 <= width <= 128,
    ensures
        match result {
            Ok(_) => text_fits(value@, width as nat) && final(out)@ == old(out)@ + text_field(
                value@,
                width as nat,
            ),
            Err(e) => !text_fits(value@, width as nat) && e@ == too_long("header text"@),
        },
{
    match validate_text("header text", value, width) {
        Ok(_) => {},
        Err(e) => {
            return Err(e);
        },
    }
    let bytes = value.as_bytes();
    let len: usize = bytes.len();
    codec::push_le(out, len as u64, 2);
    codec::push_bytes(out, bytes);
    codec::push_zeros(out, width - 2 - len);
    assert(out@ =~= old(out)@ + text_field(value@, width as nat));
    Ok(())
}

fn get_text(bytes: &[u8], offset: usize, width: usize) -> (result: Result<String, String>)
    requires
        width >= 2,
        offset + width <= bytes@.len(),
    ensures
        match result {
            Ok(s) => text_at(bytes@, offset as int, width as int) == Ok::<Seq<char>, Seq<char>>(s@),
            Err(e) => text_at(bytes@, offset as int, width as int) == Err::<Seq<char>, Seq<char>>(
                e@,
            ),
        },
{
    let size: usize = bytes.len();
    let len: usize = codec::read_le(bytes, offset, 2) as usize;
    proof {
        codec::lemma_spans();
    }
    if len > width - 2 {
        return Err("ANN header text length is invalid".to_owned());
    }
    let body = vstd::slice::slice_subrange(bytes, offset + 2, offset + 2 + len);
    match text::utf8_str(body) {
        Some(s) => Ok(s.to_owned()),
        None => Err("ANN header text is not UTF-8".to_owned()),
    }
}

fn get_u32(bytes: &[u8], offset: usize) -> (result: Result<u32, String>)
    ensures
        match result {
            Ok(v) => offset + 4 <= bytes@.len() && v == codec::le_at(bytes@, offset as int, 4),
            Err(e) => offset + 4 > bytes@.len() && e@ == "ANN header is truncated"@,
        },
{
    if offset > bytes.len() || bytes.len() - offset < 4 {
        return Err("ANN header is truncated".to_owned());
    }
    proof {
        codec::lemma_spans();
    }
    Ok(codec::read_le(bytes, offset, 4) as u32)
}

fn has_magic(bytes: &[u8]) -> (result: bool)
    requires
        bytes@.len() >= 8,
    ensures
        result == (bytes@.subrange(0, 8) == magic()),
{
    let result = bytes[0] == 67 && bytes[1] == 80 && bytes[2] == 68 && bytes[3] == 86 && bytes[4]
        == 69 && bytes[5] == 67 && bytes[6] == 48 && bytes[7] == 52;
    proof {
        assert(bytes@.subrange(0, 8).len() == 8);
        if result {
            assert(bytes@.subrange(0, 8) =~= magic());
        } else {
            let part = bytes@.subrange(0, 8);
            assert(part[0] == bytes@[0] && part[1] == bytes@[1] && part[2] == bytes@[2] && part[3]
                == bytes@[3] && part[4] == bytes@[4] && part[5] == bytes@[5] && part[6] == bytes@[6]
                && part[7] == bytes@[7]);
            assert(part != magic());
        }
    }
    result
}

impl Header {
    /// The header of a snapshot with the given shape.
    pub fn for_snapshot(
        generation: u64,
        covered_epoch: u64,
        row_count: u64,
        dimensions: u32,
        index_kind: &str,
        model_id: &str,
        model_revision: &str,
        expansion_search: u32,
        key_bytes: u64,
    ) -> (result: Result<Self, String>)
        ensures
            match result {
                Ok(h) => {
                    &&& text_fits(index_kind@, 64)
                    &&& text_fits(model_id@, 128)
                    &&& text_fits(model_revision@, 128)
                    &&& 512 + 8 * (row_count + 1) + key_bytes + 4095 <= u64::MAX
                    &&& h@.snapshot_layout()
                    &&& h@.texts_fit()
                    &&& h.generation == generation
                    &&& h.covered_epoch == covered_epoch
                    &&& h.row_count == row_count
                    &&& h.dimensions == dimensions
                    &&& h.keys_bytes == key_bytes
                    &&& h.expansion_search == expansion_search
                    &&& h.connectivity == ANN_CONNECTIVITY
                    &&& h.expansion_add == ANN_EXPANSION_ADD
                    &&& h.index_kind@ == index_kind@
                    &&& h.model_id@ == model_id@
                    &&& h.model_revision@ == model_revision@
                    &&& h.ann_implementation@ == "usearch-2.26.0"@
                },
                Err(e) => if !text_fits(index_kind@, 64) {
                    e@ == too_long("index kind"@)
                } else if !text_fits(model_id@, 128) {
                    e@ == too_long("model id"@)
                } else if !text_fits(model_revision@, 128) {
                    e@ == too_long("model revision"@)
                } else if row_count > MAX_ROWS {
                    e@ == "ANN sidecar row count "@ + text::decimal(row_count as nat) + " exceeds 2000000"@
                } else if dimensions == 0 || dimensions > MAX_DIMENSIONS {
                    e@ == "Invalid ANN sidecar dimensions: "@ + text::decimal(dimensions as nat)
                } else if 512 + 8 * (row_count + 1) + key_bytes > u64::MAX {
                    e@ == "ANN key section overflow"@
                } else {
                    &&& 512 + 8 * (row_count + 1) + key_bytes + 4095 > u64::MAX
                    &&& e@ == "ANN sidecar alignment overflow"@
                },
            },
    {
        match validate_text("index kind", index_kind, INDEX_KIND_BYTES) {
            Ok(_) => {},
            Err(e) => {
                return Err(e);
            },
        }
        match validate_text("model id", model_id, MODEL_ID_BYTES) {
            Ok(_) => {},
            Err(e) => {
                return Err(e);
            },
        }
        match validate_text("model revision", model_revision, MODEL_REVISION_BYTES) {
            Ok(_) => {},
            Err(e) => {
                return Err(e);
            },
        }
        if row_count > MAX_ROWS {
            return Err(
                text::join3("ANN sidecar row count ", &text::decimal_string(row_count), " exceeds 2000000"),
            );
        }
        if dimensions == 0 || dimensions > MAX_DIMENSIONS {
            return Err(
                text::join2("Invalid ANN sidecar dimensions: ", &text::decimal_string(dimensions as u64)),
            );
        }
        let key_offsets_offset: u64 = HEADER_BYTES;
        let keys_offset: u64 = key_offsets_offset + (row_count + 1) * 8;
        let keys_end: u64 = match keys_offset.checked_add(key_bytes) {
            Some(end) => end,
            None => {
                return Err("ANN key section overflow".to_owned());
            },
        };
        let vectors_offset: u64 = match align_up(keys_end, VECTOR_ALIGNMENT) {
            Ok(offset) => offset,
            Err(e) => {
                return Err(e);
            },
        };
        let stride: u64 = dimensions as u64 * 4;
        assert(row_count * stride <= 2_000_000 * 262_144) by (nonlinear_arith)
            requires
                0 <= row_count <= 2_000_000,
                0 <= stride <= 262_144,
        ;
        let vectors_bytes: u64 = row_count * stride;
        proof {
            reveal_strlit("usearch-2.26.0");
            let ann = "usearch-2.26.0"@;
            assert(is_ascii_chars(ann));
            is_ascii_chars_encode_utf8(ann);
        }
        Ok(
            Header {
                generation,
                covered_epoch,
                row_count,
                dimensions,
                key_offsets_offset,
                keys_offset,
                keys_bytes: key_bytes,
                vectors_offset,
                vectors_bytes,
                expansion_search,
                connectivity: ANN_CONNECTIVITY,
                expansion_add: ANN_EXPANSION_ADD,
                index_kind: index_kind.to_owned(),
                model_id: model_id.to_owned(),
                model_revision: model_revision.to_owned(),
                ann_implementation: ANN_IMPLEMENTATION_VERSION.to_owned(),
            },
        )
    }

    /// The length of the whole sidecar.
    pub fn file_len(&self) -> (result: Result<u64, String>)
        ensures
            match result {
                Ok(len) => len == self.vectors_offset + self.vectors_bytes,
                Err(e) => {
                    &&& self.vectors_offset + self.vectors_bytes > u64::MAX
                    &&& e@ == "ANN sidecar file size overflow"@
                },
            },
    {
        match self.vectors_offset.checked_add(self.vectors_bytes) {
            Some(len) => Ok(len),
            None => Err("ANN sidecar file size overflow".to_owned()),
        }
    }

    /// The 512 bytes of the header.
    pub fn encode(&self) -> (result: Result<[u8; 512], String>)
        ensures
            match result {
                Ok(bytes) => self@.texts_fit() && bytes@ == self@.image(),
                Err(e) => !self@.texts_fit() && e@ == too_long("header text"@),
            },
    {
        let mut out: Vec<u8> = Vec::new();
        out.push(67);
        out.push(80);
        out.push(68);
        out.push(86);
        out.push(69);
        out.push(67);
        out.push(48);
        out.push(52);
        assert(out@ =~= magic());
        codec::push_le(&mut out, FORMAT_VERSION as u64, 4);
        codec::push_le(&mut out, HEADER_BYTES, 4);
        codec::push_le(&mut out, self.generation, 8);
        codec::push_le(&mut out, self.covered_epoch, 8);
        codec::push_le(&mut out, self.row_count, 8);
        codec::push_le(&mut out, self.dimensions as u64, 4);
        codec::push_zeros(&mut out, 4);
        codec::push_le(&mut out, self.key_offsets_offset, 8);
        codec::push_le(&mut out, self.keys_offset, 8);
        codec::push_le(&mut out, self.keys_bytes, 8);
        codec::push_le(&mut out, self.vectors_offset, 8);
        codec::push_le(&mut out, self.vectors_bytes, 8);
        codec::push_le(&mut out, self.expansion_search as u64, 4);
        codec::push_le(&mut out, self.connectivity as u64, 4);
        codec::push_le(&mut out, self.expansion_add as u64, 4);
        codec::push_zeros(&mut out, 4);
        assert(out@ == self@.numbers_image());
        let mut texts: Vec<u8> = Vec::new();
        match put_text(&mut texts, INDEX_KIND_BYTES, &self.index_kind) {
            Ok(_) => {},
            Err(e) => {
                return Err(e);
            },
        }
        match put_text(&mut texts, MODEL_ID_BYTES, &self.model_id) {
            Ok(_) => {},
            Err(e) => {
                return Err(e);
            },
        }
        match put_text(&mut texts, MODEL_REVISION_BYTES, &self.model_revision) {
            Ok(_) => {},
            Err(e) => {
                return Err(e);
            },
        }
        match put_text(&mut texts, ANN_IMPLEMENTATION_BYTES, &self.ann_implementation) {
            Ok(_) => {},
            Err(e) => {
                return Err(e);
            },
        }
        codec::push_zeros(&mut texts, 24);
        assert(texts@ =~= self@.texts_image());
        codec::push_bytes(&mut out, &texts);
        assert(out@ == self@.image());
        proof {
            lemma_image_len(self@);
        }
        let mut bytes: [u8; 512] = [0u8;512];
        let mut i: usize = 0;
        while i < 512
            invariant
                i <= 512,
                out@.len() == 512,
                bytes@.len() == 512,
                forall|j: int| 0 <= j < i ==> bytes@[j] == out@[j],
            decreases 512 - i,
        {
            bytes[i] = out[i];
            i = i + 1;
        }
        assert(bytes@ =~= out@);
        Ok(bytes)
    }
}

impl Header {
    /// Reads the header of a whole sidecar and checks it against its length.
    pub fn decode(bytes: &[u8]) -> (result: Result<Self, String>)
        ensures
            match result {
                Ok(h) => decoded(bytes@) == Ok::<HeaderModel, Seq<char>>(h@),
                Err(e) => decoded(bytes@) == Err::<HeaderModel, Seq<char>>(e@),
            },
    {
        if bytes.len() < HEADER_BYTES as usize || !has_magic(bytes) {
            return Err("ANN sidecar has an invalid header".to_owned());
        }
        let version: u32 = match get_u32(bytes, 8) {
            Ok(v) => v,
            Err(e) => {
                return Err(e);
            },
        };
        if version != FORMAT_VERSION {
            return Err(
                text::join2(
                    "Unsupported ANN sidecar format version: ",
                    &text::decimal_string(version as u64),
                ),
            );
        }
        proof {
            codec::lemma_spans();
        }
        if codec::read_le(bytes, 12, 4) as u32 != HEADER_BYTES as u32 {
            return Err("ANN sidecar header size mismatch".to_owned());
        }
        let index_kind = match get_text(bytes, 104, INDEX_KIND_BYTES) {
            Ok(v) => v,
            Err(e) => {
                return Err(e);
            },
        };
        let model_id = match get_text(bytes, 168, MODEL_ID_BYTES) {
            Ok(v) => v,
            Err(e) => {
                return Err(e);
            },
        };
        let model_revision = match get_text(bytes, 296, MODEL_REVISION_BYTES) {
            Ok(v) => v,
            Err(e) => {
                return Err(e);
            },
        };
        let ann_implementation = match get_text(bytes, 424, ANN_IMPLEMENTATION_BYTES) {
            Ok(v) => v,
            Err(e) => {
                return Err(e);
            },
        };
        let header = Header {
            generation: codec::read_le(bytes, 16, 8),
            covered_epoch: codec::read_le(bytes, 24, 8),
            row_count: codec::read_le(bytes, 32, 8),
            dimensions: codec::read_le(bytes, 40, 4) as u32,
            key_offsets_offset: codec::read_le(bytes, 48, 8),
            keys_offset: codec::read_le(bytes, 56, 8),
            keys_bytes: codec::read_le(bytes, 64, 8),
            vectors_offset: codec::read_le(bytes, 72, 8),
            vectors_bytes: codec::read_le(bytes, 80, 8),
            expansion_search: codec::read_le(bytes, 88, 4) as u32,
            connectivity: codec::read_le(bytes, 92, 4) as u32,
            expansion_add: codec::read_le(bytes, 96, 4) as u32,
            index_kind,
            model_id,
            model_revision,
            ann_implementation,
        };
        match header.validate_layout(bytes.len() as u64) {
            Ok(_) => Ok(header),
            Err(e) => Err(e),
        }
    }

    fn validate_layout(&self, file_len: u64) -> (result: Result<(), String>)
        ensures
            match result {
                Ok(_) => self@.layout_fault(file_len as int) is None,
                Err(e) => self@.layout_fault(file_len as int) == Some(e@),
            },
    {
        if self.row_count > MAX_ROWS || self.dimensions == 0 || self.dimensions > MAX_DIMENSIONS {
            return Err("ANN sidecar shape is outside supported bounds".to_owned());
        }
        if self.connectivity != ANN_CONNECTIVITY || self.expansion_add != ANN_EXPANSION_ADD
            || !text::same(&self.ann_implementation, ANN_IMPLEMENTATION_VERSION) {
            return Err("ANN sidecar implementation contract mismatch".to_owned());
        }
        let offset_bytes: u64 = (self.row_count + 1) * 8;
        if self.key_offsets_offset != HEADER_BYTES || self.keys_offset != self.key_offsets_offset
            + offset_bytes || self.vectors_offset % VECTOR_ALIGNMENT != 0 {
            return Err("ANN sidecar section layout is invalid".to_owned());
        }
        let stride: u64 = self.dimensions as u64 * 4;
        assert(self.row_count * stride <= 2_000_000 * 262_144) by (nonlinear_arith)
            requires
                0 <= self.row_count <= 2_000_000,
                0 <= stride <= 262_144,
        ;
        let expected_vectors: u64 = self.row_count * stride;
        if self.vectors_bytes != expected_vectors {
            return Err("ANN sidecar file length mismatch".to_owned());
        }
        match self.file_len() {
            Ok(len) => {
                if len != file_len {
                    return Err("ANN sidecar file length mismatch".to_owned());
                }
                Ok(())
            },
            Err(e) => Err(e),
        }
    }
}

proof fn lemma_text_len(value: Seq<char>, width: nat)
    requires
        2 <= width,
        text_fits(value, width),
    ensures
        text_field(value, width).len() == width,
{
    codec::lemma_le_len(encode_utf8(value).len(), 2);
}

proof fn lemma_numbers_len(h: HeaderModel)
    ensures
        h.numbers_image().len() == 104,
{
    codec::lemma_le_len(4, 4);
    codec::lemma_le_len(512, 4);
    codec::lemma_le_len(h.generation as nat, 8);
    codec::lemma_le_len(h.covered_epoch as nat, 8);
    codec::lemma_le_len(h.row_count as nat, 8);
    codec::lemma_le_len(h.dimensions as nat, 4);
    codec::lemma_le_len(h.key_offsets_offset as nat, 8);
    codec::lemma_le_len(h.keys_offset as nat, 8);
    codec::lemma_le_len(h.keys_bytes as nat, 8);
    codec::lemma_le_len(h.vectors_offset as nat, 8);
    codec::lemma_le_len(h.vectors_bytes as nat, 8);
    codec::lemma_le_len(h.expansion_search as nat, 4);
    codec::lemma_le_len(h.connectivity as nat, 4);
    codec::lemma_le_len(h.expansion_add as nat, 4);
}

pub proof fn lemma_image_len(h: HeaderModel)
    requires
        h.texts_fit(),
    ensures
        h.image().len() == 512,
{
    lemma_numbers_len(h);
    lemma_text_len(h.index_kind, 64);
    lemma_text_len(h.model_id, 128);
    lemma_text_len(h.model_revision, 128);
    lemma_text_len(h.ann_implementation, 64);
}

proof fn lemma_numbers_fields(h: HeaderModel)
    ensures
        h.numbers_image().subrange(0, 8) == magic(),
        h.numbers_image().subrange(8, 12) == codec::le_bytes(4, 4),
        h.numbers_image().subrange(12, 16) == codec::le_bytes(512, 4),
        h.numbers_image().subrange(16, 24) == codec::le_bytes(h.generation as nat, 8),
        h.numbers_image().subrange(24, 32) == codec::le_bytes(h.covered_epoch as nat, 8),
        h.numbers_image().subrange(32, 40) == codec::le_bytes(h.row_count as nat, 8),
        h.numbers_image().subrange(40, 44) == codec::le_bytes(h.dimensions as nat, 4),
        h.numbers_image().subrange(48, 56) == codec::le_bytes(h.key_offsets_offset as nat, 8),
        h.numbers_image().subrange(56, 64) == codec::le_bytes(h.keys_offset as nat, 8),
        h.numbers_image().subrange(64, 72) == codec::le_bytes(h.keys_bytes as nat, 8),
        h.numbers_image().subrange(72, 80) == codec::le_bytes(h.vectors_offset as nat, 8),
        h.numbers_image().subrange(80, 88) == codec::le_bytes(h.vectors_bytes as nat, 8),
        h.numbers_image().subrange(88, 92) == codec::le_bytes(h.expansion_search as nat, 4),
        h.numbers_image().subrange(92, 96) == codec::le_bytes(h.connectivity as nat, 4),
        h.numbers_image().subrange(96, 100) == codec::le_bytes(h.expansion_add as nat, 4),
{
    lemma_numbers_len(h);
    codec::lemma_le_len(4, 4);
    codec::lemma_le_len(512, 4);
    codec::lemma_le_len(h.generation as nat, 8);
    codec::lemma_le_len(h.covered_epoch as nat, 8);
    codec::lemma_le_len(h.row_count as nat, 8);
    codec::lemma_le_len(h.dimensions as nat, 4);
    codec::lemma_le_len(h.key_offsets_offset as nat, 8);
    codec::lemma_le_len(h.keys_offset as nat, 8);
    codec::lemma_le_len(h.keys_bytes as nat, 8);
    codec::lemma_le_len(h.vectors_offset as nat, 8);
    codec::lemma_le_len(h.vectors_bytes as nat, 8);
    codec::lemma_le_len(h.expansion_search as nat, 4);
    codec::lemma_le_len(h.connectivity as nat, 4);
    codec::lemma_le_len(h.expansion_add as nat, 4);
}

proof fn lemma_text_reads_back(bytes: Seq<u8>, at: int, value: Seq<char>, width: int)
    requires
        2 <= width <= 128,
        0 <= at,
        at + width <= bytes.len(),
        text_fits(value, width as nat),
        bytes.subrange(at, at + width) == text_field(value, width as nat),
    ensures
        text_at(bytes, at, width) == Ok::<Seq<char>, Seq<char>>(value),
{
    let body = encode_utf8(value);
    let field = text_field(value, width as nat);
    codec::lemma_le_len(body.len(), 2);
    codec::lemma_spans();
    codec::law_le_reads_back(body.len(), 2);
    assert(field.subrange(0, 2) =~= codec::le_bytes(body.len(), 2));
    assert(bytes.subrange(at, at + 2) =~= field.subrange(0, 2));
    assert(field.subrange(2, 2 + body.len() as int) =~= body);
    assert(bytes.subrange(at + 2, at + 2 + body.len()) =~= field.subrange(2, 2 + body.len() as int));
    encode_utf8_valid_utf8(value);
    encode_utf8_decode_utf8(value);
}

proof fn lemma_number_reads_back(bytes: Seq<u8>, numbers: Seq<u8>, at: int, n: nat, width: nat)
    requires
        numbers.len() == 104,
        bytes.len() >= 104,
        bytes.subrange(0, 104) == numbers,
        0 <= at,
        at + width <= 104,
        n < codec::span(width),
        numbers.subrange(at, at + width) == codec::le_bytes(n, width),
    ensures
        codec::le_at(bytes, at, width as int) == n,
{
    assert(bytes.subrange(at, at + width) =~= numbers.subrange(at, at + width));
    codec::law_le_reads_back(n, width);
}

proof fn lemma_numbers_read_back(bytes: Seq<u8>, h: HeaderModel)
    requires
        bytes.len() >= 104,
        bytes.subrange(0, 104) == h.numbers_image(),
    ensures
        bytes.subrange(0, 8) == magic(),
        codec::le_at(bytes, 8, 4) == 4,
        codec::le_at(bytes, 12, 4) == 512,
        codec::le_at(bytes, 16, 8) == h.generation,
        codec::le_at(bytes, 24, 8) == h.covered_epoch,
        codec::le_at(bytes, 32, 8) == h.row_count,
        codec::le_at(bytes, 40, 4) == h.dimensions,
        codec::le_at(bytes, 48, 8) == h.key_offsets_offset,
        codec::le_at(bytes, 56, 8) == h.keys_offset,
        codec::le_at(bytes, 64, 8) == h.keys_bytes,
        codec::le_at(bytes, 72, 8) == h.vectors_offset,
        codec::le_at(bytes, 80, 8) == h.vectors_bytes,
        codec::le_at(bytes, 88, 4) == h.expansion_search,
        codec::le_at(bytes, 92, 4) == h.connectivity,
        codec::le_at(bytes, 96, 4) == h.expansion_add,
{
    let numbers = h.numbers_image();
    lemma_numbers_len(h);
    lemma_numbers_fields(h);
    codec::lemma_spans();
    assert(bytes.subrange(0, 8) =~= numbers.subrange(0, 8));
    lemma_number_reads_back(bytes, numbers, 8, 4, 4);
    lemma_number_reads_back(bytes, numbers, 12, 512, 4);
    lemma_number_reads_back(bytes, numbers, 16, h.generation as nat, 8);
    lemma_number_reads_back(bytes, numbers, 24, h.covered_epoch as nat, 8);
    lemma_number_reads_back(bytes, numbers, 32, h.row_count as nat, 8);
    lemma_number_reads_back(bytes, numbers, 40, h.dimensions as nat, 4);
    lemma_number_reads_back(bytes, numbers, 48, h.key_offsets_offset as nat, 8);
    lemma_number_reads_back(bytes, numbers, 56, h.keys_offset as nat, 8);
    lemma_number_reads_back(bytes, numbers, 64, h.keys_bytes as nat, 8);
    lemma_number_reads_back(bytes, numbers, 72, h.vectors_offset as nat, 8);
    lemma_number_reads_back(bytes, numbers, 80, h.vectors_bytes as nat, 8);
    lemma_number_reads_back(bytes, numbers, 88, h.expansion_search as nat, 4);
    lemma_number_reads_back(bytes, numbers, 92, h.connectivity as nat, 4);
    lemma_number_reads_back(bytes, numbers, 96, h.expansion_add as nat, 4);
}

proof fn lemma_texts_read_back(bytes: Seq<u8>, h: HeaderModel)
    requires
        h.texts_fit(),
        bytes.len() >= 512,
        bytes.subrange(104, 512) == h.texts_image(),
    ensures
        text_at(bytes, 104, 64) == Ok::<Seq<char>, Seq<char>>(h.index_kind),
        text_at(bytes, 168, 128) == Ok::<Seq<char>, Seq<char>>(h.model_id),
        text_at(bytes, 296, 128) == Ok::<Seq<char>, Seq<char>>(h.model_revision),
        text_at(bytes, 424, 64) == Ok::<Seq<char>, Seq<char>>(h.ann_implementation),
{
    let texts = h.texts_image();
    lemma_text_len(h.index_kind, 64);
    lemma_text_len(h.model_id, 128);
    lemma_text_len(h.model_revision, 128);
    lemma_text_len(h.ann_implementation, 64);
    assert(texts.subrange(0, 64) =~= text_field(h.index_kind, 64));
    assert(texts.subrange(64, 192) =~= text_field(h.model_id, 128));
    assert(texts.subrange(192, 320) =~= text_field(h.model_revision, 128));
    assert(texts.subrange(320, 384) =~= text_field(h.ann_implementation, 64));
    assert(bytes.subrange(104, 168) =~= texts.subrange(0, 64));
    assert(bytes.subrange(168, 296) =~= texts.subrange(64, 192));
    assert(bytes.subrange(296, 424) =~= texts.subrange(192, 320));
    assert(bytes.subrange(424, 488) =~= texts.subrange(320, 384));
    lemma_text_reads_back(bytes, 104, h.index_kind, 64);
    lemma_text_reads_back(bytes, 168, h.model_id, 128);
    lemma_text_reads_back(bytes, 296, h.model_revision, 128);
    lemma_text_reads_back(bytes, 424, h.ann_implementation, 64);
}

/// A header that fits its file is read back from what it encodes to.
pub proof fn law_header_reads_back(h: HeaderModel, bytes: Seq<u8>)
    requires
        h.texts_fit(),
        bytes.len() >= 512,
        bytes.subrange(0, 512) == h.image(),
        h.layout_fault(bytes.len() as int) is None,
    ensures
        decoded(bytes) == Ok::<HeaderModel, Seq<char>>(h),
{
    lemma_image_len(h);
    lemma_numbers_len(h);
    assert(h.image().subrange(0, 104) =~= h.numbers_image());
    assert(h.image().subrange(104, 512) =~= h.texts_image());
    assert(bytes.subrange(0, 104) =~= bytes.subrange(0, 512).subrange(0, 104));
    assert(bytes.subrange(104, 512) =~= bytes.subrange(0, 512).subrange(104, 512));
    lemma_numbers_read_back(bytes, h);
    lemma_texts_read_back(bytes, h);
}

/// Aligning goes to the next multiple: the result is one, not below the value,
/// and less than one step above it.
pub proof fn law_alignment_is_the_next_multiple(value: int, alignment: int)
    requires
        0 <= value,
        0 < alignment,
    ensures
        aligned(value, alignment) % alignment == 0,
        value <= aligned(value, alignment) < value + alignment,
        value % alignment == 0 ==> aligned(value, alignment) == value,
{
    let q = (value + alignment - 1) / alignment;
    vstd::arithmetic::div_mod::lemma_fundamental_div_mod(value + alignment - 1, alignment);
    vstd::arithmetic::div_mod::lemma_mod_multiples_basic(q, alignment);
    vstd::arithmetic::div_mod::lemma_fundamental_div_mod(value, alignment);
    assert(q * alignment == alignment * q) by (nonlinear_arith);
    let r = (value + alignment - 1) % alignment;
    assert(0 <= r < alignment);
    if value % alignment == 0 {
        let p = value / alignment;
        assert(value == alignment * p);
        vstd::arithmetic::div_mod::lemma_fundamental_div_mod_converse(
            value + alignment - 1,
            alignment,
            p,
            alignment - 1,
        );
    }
}

/// A header that is read keeps to the bounds: at most two million rows, vectors
/// of some width, its sections one after another, the vectors from a page on,
/// and the file exactly as long as they need.
pub proof fn law_headers_keep_to_the_bounds(bytes: Seq<u8>, header: HeaderModel)
    requires
        decoded(bytes) == Ok::<HeaderModel, Seq<char>>(header),
    ensures
        bytes.len() >= 512,
        header.row_count <= 2_000_000,
        0 < header.dimensions <= 65_536,
        header.key_offsets_offset == 512,
        header.keys_offset == 512 + 8 * (header.row_count + 1),
        header.vectors_offset % 4096 == 0,
        header.vectors_bytes == header.row_count * (4 * header.dimensions),
        bytes.len() == header.vectors_offset + header.vectors_bytes,
        header.connectivity == 16,
        header.expansion_add == 160,
        header.ann_implementation == "usearch-2.26.0"@,
{
}

} // verus!
