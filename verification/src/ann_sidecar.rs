//! Reading and writing the bytes of a flat-vector sidecar.
//!
//! The reader works on the mapped bytes of a whole file. The writer holds no
//! file: each call queues the writes that the file needs, and
//! [`FlatFileWriter::take_writes`] hands them over.
use crate::ann_format::{Header, HeaderModel};
use crate::{ann_format, codec, ieee, text};
use vstd::prelude::*;
use vstd::string::*;
use vstd::utf8::*;

verus! {

/// The `len` bytes at `offset`, or why they cannot be reached.
pub open spec fn slice_of(bytes: Seq<u8>, offset: int, len: int) -> Result<Seq<u8>, Seq<char>> {
    if offset > usize::MAX {
        Err("ANN offset exceeds address space"@)
    } else if len > usize::MAX {
        Err("ANN length exceeds address space"@)
    } else if offset + len > usize::MAX {
        Err("ANN slice overflow"@)
    } else if offset + len > bytes.len() {
        Err("ANN sidecar is truncated"@)
    } else {
        Ok(bytes.subrange(offset, offset + len))
    }
}

/// The number in the 8 bytes at `offset`, or why they cannot be reached.
pub open spec fn word_of(bytes: Seq<u8>, offset: int) -> Result<nat, Seq<char>> {
    if offset > usize::MAX {
        Err("ANN offset exceeds address space"@)
    } else if offset + 8 > bytes.len() {
        Err("ANN header is truncated"@)
    } else {
        Ok(codec::le_at(bytes, offset, 8))
    }
}

/// The header of a sidecar that can be opened, or why it cannot.
pub open spec fn opened(bytes: Seq<u8>) -> Result<HeaderModel, Seq<char>> {
    match ann_format::decoded(bytes) {
        Err(fault) => Err(fault),
        Ok(header) => match word_of(bytes, header.key_offsets_offset + header.row_count * 8) {
            Err(fault) => Err(fault),
            Ok(last) => if last != header.keys_bytes {
                Err("ANN sidecar key-offset terminator mismatch"@)
            } else {
                Ok(header)
            },
        },
    }
}

/// The message for a row that does not exist.
pub open spec fn no_such_row(ordinal: nat) -> Seq<char> {
    "ANN ordinal "@ + text::decimal(ordinal) + " is out of range"@
}

/// The sum of two numbers, capped at the largest 64-bit number.
pub open spec fn capped(a: int, b: int) -> int {
    if a + b > u64::MAX {
        u64::MAX as int
    } else {
        a + b
    }
}

/// The key of row `ordinal`, or why it cannot be read.
pub open spec fn key_of(bytes: Seq<u8>, header: HeaderModel, ordinal: nat) -> Result<
    Seq<char>,
    Seq<char>,
> {
    let base = header.key_offsets_offset;
    if ordinal >= header.row_count {
        Err(no_such_row(ordinal))
    } else {
        match word_of(bytes, base + ordinal * 8) {
            Err(fault) => Err(fault),
            Ok(start) => match word_of(bytes, base + (ordinal + 1) * 8) {
                Err(fault) => Err(fault),
                Ok(end) => if start > end || end > header.keys_bytes {
                    Err("ANN sidecar key offsets are invalid"@)
                } else {
                    let first = capped(header.keys_offset as int, start as int);
                    let last = capped(header.keys_offset as int, end as int);
                    match slice_of(bytes, first, last - first) {
                        Err(fault) => Err(fault),
                        Ok(key) => if valid_utf8(key) {
                            Ok(decode_utf8(key))
                        } else {
                            Err("ANN sidecar key is not UTF-8"@)
                        },
                    }
                },
            },
        }
    }
}

/// Little-endian 32-bit words, one after the other.
pub open spec fn words(bytes: Seq<u8>) -> Seq<u32> {
    Seq::new(bytes.len() / 4, |i: int| codec::le_at(bytes, 4 * i, 4) as u32)
}

/// The bytes of row `ordinal` of the vector section.
pub open spec fn vector_bytes_of(bytes: Seq<u8>, header: HeaderModel, ordinal: nat) -> Seq<u8> {
    let stride = 4 * header.dimensions;
    let first = header.vectors_offset + ordinal * stride;
    bytes.subrange(first, first + stride)
}

fn read_u64_at(bytes: &[u8], offset: u64) -> (result: Result<u64, String>)
    ensures
        match result {
            Ok(v) => word_of(bytes@, offset as int) == Ok::<nat, Seq<char>>(v as nat),
            Err(e) => word_of(bytes@, offset as int) == Err::<nat, Seq<char>>(e@),
        },
{
    if offset > usize::MAX as u64 {
        return Err("ANN offset exceeds address space".to_owned());
    }
    let at: usize = offset as usize;
    if at > bytes.len() || bytes.len() - at < 8 {
        return Err("ANN header is truncated".to_owned());
    }
    Ok(codec::read_le(bytes, at, 8))
}

fn slice_at(bytes: &[u8], offset: u64, len: u64) -> (result: Result<&[u8], String>)
    ensures
        match result {
            Ok(v) => slice_of(bytes@, offset as int, len as int) == Ok::<Seq<u8>, Seq<char>>(v@),
            Err(e) => slice_of(bytes@, offset as int, len as int) == Err::<Seq<u8>, Seq<char>>(e@),
        },
{
    if offset > usize::MAX as u64 {
        return Err("ANN offset exceeds address space".to_owned());
    }
    if len > usize::MAX as u64 {
        return Err("ANN length exceeds address space".to_owned());
    }
    let start: usize = offset as usize;
    let end: usize = match start.checked_add(len as usize) {
        Some(end) => end,
        None => {
            return Err("ANN slice overflow".to_owned());
        },
    };
    if end > bytes.len() {
        return Err("ANN sidecar is truncated".to_owned());
    }
    Ok(vstd::slice::slice_subrange(bytes, start, end))
}

fn read_words(bytes: &[u8]) -> (result: Vec<u32>)
    ensures
        result@ == words(bytes@),
{
    let count: usize = bytes.len() / 4;
    let mut result: Vec<u32> = Vec::new();
    let mut i: usize = 0;
    while i < count
        invariant
            i <= count,
            count == bytes@.len() / 4,
            bytes@.len() <= usize::MAX,
            result@ =~= words(bytes@).take(i as int),
        decreases count - i,
    {
        proof {
            codec::lemma_spans();
        }
        result.push(codec::read_le(bytes, 4 * i, 4) as u32);
        i = i + 1;
    }
    result
}

fn missing_row(ordinal: usize) -> (result: String)
    ensures
        result@ == no_such_row(ordinal as nat),
{
    text::join3("ANN ordinal ", &text::decimal_string(ordinal as u64), " is out of range")
}

/// The bit patterns of an existing row of a whole sidecar.
pub(crate) fn row_words(bytes: &[u8], header: &Header, ordinal: usize) -> (result: Vec<u32>)
    requires
        ann_format::decoded(bytes@) == Ok::<HeaderModel, Seq<char>>(header@),
        ordinal < header.row_count,
    ensures
        result@ == words(vector_bytes_of(bytes@, header@, ordinal as nat)),
        result@.len() == header.dimensions,
{
    let size: usize = bytes.len();
    let stride: u64 = header.dimensions as u64 * 4;
    proof {
        let rows = header.row_count as int;
        let at = ordinal as int;
        assert((at + 1) * stride <= rows * stride) by (nonlinear_arith)
            requires
                at + 1 <= rows,
                0 <= stride,
        ;
        assert((at + 1) * stride == at * stride + stride) by (nonlinear_arith);
        assert(0 <= at * stride) by (nonlinear_arith)
            requires
                0 <= at,
                0 <= stride,
        ;
        assert(rows * stride == header.vectors_bytes);
    }
    let offset: usize = (header.vectors_offset + ordinal as u64 * stride) as usize;
    let row = vstd::slice::slice_subrange(bytes, offset, offset + stride as usize);
    read_words(row)
}

/// An opened sidecar.
pub struct MappedFlatIndex<'a> {
    pub map: &'a [u8],
    pub header: Header,
}

impl<'a> MappedFlatIndex<'a> {
    /// The header is the one that the mapped bytes open with.
    pub open spec fn wf(&self) -> bool {
        opened(self.map@) == Ok::<HeaderModel, Seq<char>>(self.header@)
    }

    /// Opens the bytes of a whole sidecar.
    pub fn open(map: &'a [u8]) -> (result: Result<Self, String>)
        ensures
            match result {
                Ok(index) => index.wf() && index.map@ == map@,
                Err(e) => opened(map@) == Err::<HeaderModel, Seq<char>>(e@),
            },
    {
        let header = match Header::decode(map) {
            Ok(header) => header,
            Err(e) => {
                return Err(e);
            },
        };
        match read_u64_at(map, header.key_offsets_offset + header.row_count * 8) {
            Ok(last) => {
                if last != header.keys_bytes {
                    return Err("ANN sidecar key-offset terminator mismatch".to_owned());
                }
            },
            Err(e) => {
                return Err(e);
            },
        }
        Ok(MappedFlatIndex { map, header })
    }

    /// The key of row `ordinal`.
    pub fn key(&self, ordinal: usize) -> (result: Result<&str, String>)
        requires
            self.wf(),
        ensures
            match result {
                Ok(key) => key_of(self.map@, self.header@, ordinal as nat) == Ok::<
                    Seq<char>,
                    Seq<char>,
                >(key@),
                Err(e) => key_of(self.map@, self.header@, ordinal as nat) == Err::<
                    Seq<char>,
                    Seq<char>,
                >(e@),
            },
    {
        if ordinal >= self.header.row_count as usize {
            return Err(missing_row(ordinal));
        }
        let base: u64 = self.header.key_offsets_offset;
        let start: u64 = match read_u64_at(self.map, base + ordinal as u64 * 8) {
            Ok(v) => v,
            Err(e) => {
                return Err(e);
            },
        };
        let end: u64 = match read_u64_at(self.map, base + (ordinal as u64 + 1) * 8) {
            Ok(v) => v,
            Err(e) => {
                return Err(e);
            },
        };
        if start > end || end > self.header.keys_bytes {
            return Err("ANN sidecar key offsets are invalid".to_owned());
        }
        let absolute_start: u64 = self.header.keys_offset.saturating_add(start);
        let absolute_end: u64 = self.header.keys_offset.saturating_add(end);
        let bytes = match slice_at(self.map, absolute_start, absolute_end - absolute_start) {
            Ok(bytes) => bytes,
            Err(e) => {
                return Err(e);
            },
        };
        match text::utf8_str(bytes) {
            Some(key) => Ok(key),
            None => Err("ANN sidecar key is not UTF-8".to_owned()),
        }
    }

    /// The bit patterns of the vector of row `ordinal`.
    pub fn vector(&self, ordinal: usize) -> (result: Result<Vec<u32>, String>)
        requires
            self.wf(),
        ensures
            match result {
                Ok(vector) => {
                    &&& ordinal < self.header.row_count
                    &&& vector@ == words(
                        vector_bytes_of(self.map@, self.header@, ordinal as nat),
                    )
                    &&& vector@.len() == self.header.dimensions
                },
                Err(e) => ordinal >= self.header.row_count && e@ == no_such_row(ordinal as nat),
            },
    {
        if ordinal >= self.header.row_count as usize {
            return Err(missing_row(ordinal));
        }
        Ok(row_words(self.map, &self.header, ordinal))
    }

    /// How many rows the sidecar holds.
    pub fn rows(&self) -> (result: usize)
        requires
            self.wf(),
        ensures
            result == self.header.row_count,
    {
        self.header.row_count as usize
    }
}

/// Bytes to be written to a file at an offset.
#[derive(Debug)]
pub struct FileWrite {
    pub offset: u64,
    pub bytes: Vec<u8>,
}

/// A file after `bytes` were written at `offset`; a gap reads as zeros.
pub open spec fn written(file: Seq<u8>, offset: int, bytes: Seq<u8>) -> Seq<u8> {
    let end = offset + bytes.len();
    Seq::new(
        (if file.len() < end {
            end as nat
        } else {
            file.len()
        }),
        |i: int|
            if offset <= i < end {
                bytes[i - offset]
            } else if i < file.len() {
                file[i]
            } else {
                0u8
            },
    )
}

/// A file after a list of writes, in order.
pub open spec fn all_written(file: Seq<u8>, writes: Seq<FileWrite>) -> Seq<u8>
    decreases writes.len(),
{
    if writes.len() == 0 {
        file
    } else {
        let last = writes.last();
        written(all_written(file, writes.drop_last()), last.offset as int, last.bytes@)
    }
}

/// The keys as character sequences.
pub open spec fn key_views(keys: Seq<&str>) -> Seq<Seq<char>> {
    keys.map_values(|key: &str| key@)
}

/// The byte sequences of a batch of vectors.
pub open spec fn byte_views(vectors: Seq<&[u8]>) -> Seq<Seq<u8>> {
    vectors.map_values(|vector: &[u8]| vector@)
}

/// The UTF-8 bytes of the keys, one after the other.
pub open spec fn key_payload(keys: Seq<Seq<char>>) -> Seq<u8>
    decreases keys.len(),
{
    if keys.len() == 0 {
        Seq::empty()
    } else {
        key_payload(keys.drop_last()) + encode_utf8(keys.last())
    }
}

/// The offsets at which the keys begin, 8 bytes each, counted from `start`.
pub open spec fn offset_table(start: nat, keys: Seq<Seq<char>>) -> Seq<u8>
    decreases keys.len(),
{
    if keys.len() == 0 {
        Seq::empty()
    } else {
        offset_table(start, keys.drop_last()) + codec::le_bytes(
            start + key_payload(keys.drop_last()).len(),
            8,
        )
    }
}

/// The vectors, one after the other.
pub open spec fn vector_payload(vectors: Seq<Seq<u8>>) -> Seq<u8>
    decreases vectors.len(),
{
    if vectors.len() == 0 {
        Seq::empty()
    } else {
        vector_payload(vectors.drop_last()) + vectors.last()
    }
}

/// Whether a file holds the header, the keys and the vectors in their places.
pub open spec fn holds(
    file: Seq<u8>,
    header: HeaderModel,
    keys: Seq<Seq<char>>,
    vectors: Seq<Seq<u8>>,
) -> bool {
    let table = offset_table(0, keys);
    let payload = key_payload(keys);
    let matrix = vector_payload(vectors);
    &&& file.len() == header.vectors_offset + header.vectors_bytes
    &&& file.subrange(0, 512) == header.image()
    &&& file.subrange(512, 512 + table.len() as int) == table
    &&& file.subrange(header.keys_offset as int, header.keys_offset + payload.len()) == payload
    &&& file.subrange(header.vectors_offset as int, header.vectors_offset + matrix.len()) == matrix
}

/// The message for a snapshot whose rows are not all there.
pub open spec fn snapshot_changed(
    keys: nat,
    vectors: nat,
    key_bytes: nat,
    rows: nat,
    expected: nat,
) -> Seq<char> {
    "ANN flat writer snapshot changed: keys="@ + text::decimal(keys) + " vectors="@ + text::decimal(
        vectors,
    ) + " key_bytes="@ + text::decimal(key_bytes) + " expected_rows="@ + text::decimal(rows)
        + " expected_key_bytes="@ + text::decimal(expected)
}

/// Lays out a snapshot in a new sidecar, a batch of rows at a time.
pub struct FlatFileWriter {
    header: Header,
    next_key_offset: u64,
    keys_written: u64,
    vectors_written: u64,
    pending: Vec<FileWrite>,
    flushed: Ghost<Seq<u8>>,
    keys: Ghost<Seq<Seq<char>>>,
    vectors: Ghost<Seq<Seq<u8>>>,
}

proof fn lemma_write_inside(file: Seq<u8>, offset: int, bytes: Seq<u8>)
    requires
        0 <= offset,
    ensures
        written(file, offset, bytes).subrange(offset, offset + bytes.len()) == bytes,
{
    assert(written(file, offset, bytes).subrange(offset, offset + bytes.len()) =~= bytes);
}

proof fn lemma_write_outside(file: Seq<u8>, offset: int, bytes: Seq<u8>, a: int, b: int)
    requires
        0 <= a <= b <= file.len(),
        0 <= offset,
        b <= offset || offset + bytes.len() <= a,
    ensures
        written(file, offset, bytes).subrange(a, b) == file.subrange(a, b),
{
    assert(written(file, offset, bytes).subrange(a, b) =~= file.subrange(a, b));
}

/// A write that begins where a kept stretch ends makes the stretch longer.
proof fn lemma_write_extends(file: Seq<u8>, a: int, b: int, bytes: Seq<u8>)
    requires
        0 <= a <= b <= file.len(),
    ensures
        written(file, b, bytes).subrange(a, b + bytes.len()) == file.subrange(a, b) + bytes,
{
    assert(written(file, b, bytes).subrange(a, b + bytes.len()) =~= file.subrange(a, b) + bytes);
}

proof fn lemma_payload_concat(a: Seq<Seq<char>>, b: Seq<Seq<char>>)
    ensures
        key_payload(a + b) == key_payload(a) + key_payload(b),
    decreases b.len(),
{
    if b.len() == 0 {
        assert(a + b =~= a);
        assert(key_payload(a) + key_payload(b) =~= key_payload(a));
    } else {
        lemma_payload_concat(a, b.drop_last());
        assert((a + b).drop_last() =~= a + b.drop_last());
        assert((a + b).last() == b.last());
        assert(key_payload(a + b) =~= key_payload(a) + key_payload(b));
    }
}

proof fn lemma_table_concat(start: nat, a: Seq<Seq<char>>, b: Seq<Seq<char>>)
    ensures
        offset_table(start, a + b) == offset_table(start, a) + offset_table(
            start + key_payload(a).len(),
            b,
        ),
    decreases b.len(),
{
    if b.len() == 0 {
        assert(a + b =~= a);
        assert(offset_table(start, a) + offset_table(start + key_payload(a).len(), b)
            =~= offset_table(start, a));
    } else {
        lemma_table_concat(start, a, b.drop_last());
        lemma_payload_concat(a, b.drop_last());
        assert((a + b).drop_last() =~= a + b.drop_last());
        assert(offset_table(start, a + b) =~= offset_table(start, a) + offset_table(
            start + key_payload(a).len(),
            b,
        ));
    }
}

proof fn lemma_vectors_concat(a: Seq<Seq<u8>>, b: Seq<Seq<u8>>)
    ensures
        vector_payload(a + b) == vector_payload(a) + vector_payload(b),
    decreases b.len(),
{
    if b.len() == 0 {
        assert(a + b =~= a);
        assert(vector_payload(a) + vector_payload(b) =~= vector_payload(a));
    } else {
        lemma_vectors_concat(a, b.drop_last());
        assert((a + b).drop_last() =~= a + b.drop_last());
        assert(vector_payload(a + b) =~= vector_payload(a) + vector_payload(b));
    }
}

proof fn lemma_table_len(start: nat, keys: Seq<Seq<char>>)
    ensures
        offset_table(start, keys).len() == 8 * keys.len(),
    decreases keys.len(),
{
    if keys.len() > 0 {
        lemma_table_len(start, keys.drop_last());
        codec::lemma_le_len(start + key_payload(keys.drop_last()).len(), 8);
    }
}

proof fn lemma_vectors_len(vectors: Seq<Seq<u8>>, stride: nat)
    requires
        forall|i: int| 0 <= i < vectors.len() ==> (#[trigger] vectors[i]).len() == stride,
    ensures
        vector_payload(vectors).len() == vectors.len() * stride,
    decreases vectors.len(),
{
    if vectors.len() > 0 {
        lemma_vectors_len(vectors.drop_last(), stride);
        assert(vectors.len() * stride == (vectors.len() - 1) * stride + stride)
            by (nonlinear_arith);
    } else {
        assert(vectors.len() * stride == 0) by (nonlinear_arith)
            requires
                vectors.len() == 0,
        ;
    }
}

impl FlatFileWriter {
    /// What the header says.
    pub closed spec fn shape(&self) -> HeaderModel {
        self.header@
    }

    /// The keys taken so far.
    pub closed spec fn key_rows(&self) -> Seq<Seq<char>> {
        self.keys@
    }

    /// The vectors taken so far.
    pub closed spec fn vector_rows(&self) -> Seq<Seq<u8>> {
        self.vectors@
    }

    /// The file once every write that was handed over has been made.
    pub closed spec fn file(&self) -> Seq<u8> {
        self.flushed@
    }

    /// The writes that were not handed over yet.
    pub closed spec fn queued(&self) -> Seq<FileWrite> {
        self.pending@
    }

    /// The file once the queued writes too have been made.
    pub open spec fn final_file(&self) -> Seq<u8> {
        all_written(self.file(), self.queued())
    }

    /// The counters agree with the rows taken, every vector has the
    /// declared width, and the file holds what was taken, as long as the keys
    /// stay inside their section.
    pub closed spec fn wf(&self) -> bool {
        &&& self.header@.snapshot_layout()
        &&& self.header@.texts_fit()
        &&& self.header.vectors_offset + self.header.vectors_bytes <= u64::MAX
        &&& self.keys_written == self.keys@.len()
        &&& self.vectors_written == self.vectors@.len()
        &&& self.next_key_offset == key_payload(self.keys@).len()
        &&& self.keys_written <= self.header.row_count
        &&& self.vectors_written <= self.header.row_count
        &&& forall|i: int|
            0 <= i < self.vectors@.len() ==> (#[trigger] self.vectors@[i]).len() == 4
                * self.header.dimensions
        &&& self.next_key_offset <= self.header.keys_bytes ==> holds(
            self.final_file(),
            self.header@,
            self.keys@,
            self.vectors@,
        )
    }

    /// Begins a sidecar: a file of the whole length that holds the header.
    pub fn create(header: Header) -> (result: Result<Self, String>)
        requires
            header@.snapshot_layout(),
        ensures
            match result {
                Ok(writer) => {
                    &&& writer.wf()
                    &&& writer.shape() == header@
                    &&& writer.key_rows() == Seq::<Seq<char>>::empty()
                    &&& writer.vector_rows() == Seq::<Seq<u8>>::empty()
                    &&& writer.file() == codec::zeros(
                        (header.vectors_offset + header.vectors_bytes) as nat,
                    )
                    &&& writer.queued().len() == 1
                    &&& writer.queued()[0].offset == 0
                    &&& writer.queued()[0].bytes@ == header@.image()
                },
                Err(e) => if header.vectors_offset + header.vectors_bytes > u64::MAX {
                    e@ == "ANN sidecar file size overflow"@
                } else {
                    !header@.texts_fit() && e@ == ann_format::too_long("header text"@)
                },
            },
    {
        match header.file_len() {
            Ok(_) => {},
            Err(e) => {
                return Err(e);
            },
        }
        let encoded = match header.encode() {
            Ok(encoded) => encoded,
            Err(e) => {
                return Err(e);
            },
        };
        let mut bytes: Vec<u8> = Vec::new();
        codec::push_bytes(&mut bytes, &encoded);
        let mut pending: Vec<FileWrite> = Vec::new();
        pending.push(FileWrite { offset: 0, bytes });
        let ghost blank = codec::zeros((header.vectors_offset + header.vectors_bytes) as nat);
        let writer = FlatFileWriter {
            header,
            next_key_offset: 0,
            keys_written: 0,
            vectors_written: 0,
            pending,
            flushed: Ghost(blank),
            keys: Ghost(Seq::empty()),
            vectors: Ghost(Seq::empty()),
        };
        proof {
            let image = header@.image();
            assert(writer.pending@[0].bytes@ =~= image);
            ann_format::lemma_image_len(header@);
            let file = writer.final_file();
            reveal_with_fuel(all_written, 2);
            assert(writer.pending@.drop_last() =~= Seq::<FileWrite>::empty());
            assert(file == written(blank, 0, image));
            lemma_write_inside(blank, 0, image);
            assert(file.len() == header.vectors_offset + header.vectors_bytes);
            let k = header.keys_offset as int;
            let v = header.vectors_offset as int;
            assert(file.subrange(512, 512) =~= Seq::<u8>::empty());
            assert(file.subrange(k, k) =~= Seq::<u8>::empty());
            assert(file.subrange(v, v) =~= Seq::<u8>::empty());
        }
        Ok(writer)
    }

    /// The length that the file has to have before the writes are made.
    pub fn file_len(&self) -> (result: u64)
        requires
            self.wf(),
        ensures
            result == self.shape().vectors_offset + self.shape().vectors_bytes,
    {
        self.header.vectors_offset + self.header.vectors_bytes
    }

    /// Hands over the queued writes.
    pub fn take_writes(&mut self) -> (result: Vec<FileWrite>)
        requires
            old(self).wf(),
        ensures
            final(self).wf(),
            result@ == old(self).queued(),
            final(self).queued() == Seq::<FileWrite>::empty(),
            final(self).file() == all_written(old(self).file(), result@),
            final(self).final_file() == old(self).final_file(),
            final(self).shape() == old(self).shape(),
            final(self).key_rows() == old(self).key_rows(),
            final(self).vector_rows() == old(self).vector_rows(),
    {
        let mut taken: Vec<FileWrite> = Vec::new();
        std::mem::swap(&mut taken, &mut self.pending);
        proof {
            self.flushed@ = all_written(self.flushed@, taken@);
        }
        taken
    }
}

proof fn lemma_all_written_push(file: Seq<u8>, writes: Seq<FileWrite>, next: FileWrite)
    ensures
        all_written(file, writes.push(next)) == written(
            all_written(file, writes),
            next.offset as int,
            next.bytes@,
        ),
{
    assert(writes.push(next).drop_last() =~= writes);
}

proof fn lemma_payload_grows(keys: Seq<Seq<char>>, n: int)
    requires
        0 <= n <= keys.len(),
    ensures
        key_payload(keys.take(n)).len() <= key_payload(keys).len(),
{
    assert(keys.take(n) + keys.skip(n) =~= keys);
    lemma_payload_concat(keys.take(n), keys.skip(n));
}

proof fn lemma_payload_step(keys: Seq<Seq<char>>, n: int)
    requires
        0 <= n < keys.len(),
    ensures
        key_payload(keys.take(n + 1)) == key_payload(keys.take(n)) + encode_utf8(keys[n]),
        forall|start: nat|
            #[trigger] offset_table(start, keys.take(n + 1)) == offset_table(start, keys.take(n))
                + codec::le_bytes(start + key_payload(keys.take(n)).len(), 8),
{
    assert(keys.take(n + 1).drop_last() =~= keys.take(n));
    assert(keys.take(n + 1).last() == keys[n]);
}

proof fn lemma_vectors_step(vectors: Seq<Seq<u8>>, n: int)
    requires
        0 <= n < vectors.len(),
    ensures
        vector_payload(vectors.take(n + 1)) == vector_payload(vectors.take(n)) + vectors[n],
{
    assert(vectors.take(n + 1).drop_last() =~= vectors.take(n));
    assert(vectors.take(n + 1).last() == vectors[n]);
}

/// Appending keys in their places keeps what the file holds.
proof fn lemma_keys_kept(
    file: Seq<u8>,
    header: HeaderModel,
    keys: Seq<Seq<char>>,
    vectors: Seq<Seq<u8>>,
    more: Seq<Seq<char>>,
)
    requires
        header.snapshot_layout(),
        header.texts_fit(),
        keys.len() + more.len() <= header.row_count,
        key_payload(keys + more).len() <= header.keys_bytes,
        vector_payload(vectors).len() <= header.vectors_bytes,
        holds(file, header, keys, vectors),
    ensures
        ({
            let table = offset_table(key_payload(keys).len(), more);
            let tabled = written(file, 512 + 8 * keys.len() as int, table);
            let payload = key_payload(more);
            holds(
                written(tabled, header.keys_offset + key_payload(keys).len(), payload),
                header,
                keys + more,
                vectors,
            )
        }),
{
    let n = keys.len() as int;
    let used = key_payload(keys).len() as int;
    let table = offset_table(used as nat, more);
    let payload = key_payload(more);
    let tabled = written(file, 512 + 8 * n, table);
    let done = written(tabled, header.keys_offset + used, payload);
    let k = header.keys_offset as int;
    let v = header.vectors_offset as int;
    let matrix = vector_payload(vectors);
    lemma_payload_concat(keys, more);
    lemma_table_concat(0, keys, more);
    lemma_table_len(0, keys);
    lemma_table_len(used as nat, more);
    lemma_table_len(0, keys + more);
    assert(k + header.keys_bytes <= v);
    assert(tabled.len() == file.len());
    assert(done.len() == file.len());
    lemma_write_extends(file, 512, 512 + 8 * n, table);
    lemma_write_outside(file, 512 + 8 * n, table, 0, 512);
    lemma_write_outside(file, 512 + 8 * n, table, k, k + used);
    lemma_write_outside(file, 512 + 8 * n, table, v, v + matrix.len());
    lemma_write_extends(tabled, k, k + used, payload);
    lemma_write_outside(tabled, k + used, payload, 0, 512);
    lemma_write_outside(tabled, k + used, payload, 512, 512 + 8 * n + table.len());
    lemma_write_outside(tabled, k + used, payload, v, v + matrix.len());
}

/// Appending vectors in their places keeps what the file holds.
proof fn lemma_matrix_kept(
    file: Seq<u8>,
    header: HeaderModel,
    keys: Seq<Seq<char>>,
    vectors: Seq<Seq<u8>>,
    more: Seq<Seq<u8>>,
)
    requires
        header.snapshot_layout(),
        header.texts_fit(),
        keys.len() <= header.row_count,
        key_payload(keys).len() <= header.keys_bytes,
        vector_payload(vectors + more).len() <= header.vectors_bytes,
        holds(file, header, keys, vectors),
    ensures
        holds(
            written(
                file,
                header.vectors_offset + vector_payload(vectors).len(),
                vector_payload(more),
            ),
            header,
            keys,
            vectors + more,
        ),
{
    let matrix = vector_payload(vectors);
    let added = vector_payload(more);
    let k = header.keys_offset as int;
    let v = header.vectors_offset as int;
    let at = v + matrix.len();
    lemma_vectors_concat(vectors, more);
    lemma_table_len(0, keys);
    assert(k + header.keys_bytes <= v);
    lemma_write_extends(file, v, at, added);
    lemma_write_outside(file, at, added, 0, 512);
    lemma_write_outside(file, at, added, 512, 512 + 8 * keys.len() as int);
    lemma_write_outside(file, at, added, k, k + key_payload(keys).len());
}

impl FlatFileWriter {
    /// Appends one key.
    pub fn push_key(&mut self, key: &str) -> (result: Result<(), String>)
        requires
            old(self).wf(),
            old(self).shape().keys_offset + key_payload(old(self).key_rows()).len() <= u64::MAX,
        ensures
            final(self).wf(),
            final(self).keys_step(*old(self), seq![key@], result),
    {
        let mut keys: Vec<&str> = Vec::new();
        keys.push(key);
        assert(key_views(keys@) =~= seq![key@]);
        self.push_keys(&keys)
    }

    /// What a batch of keys does to the writer.
    pub open spec fn keys_step(
        &self,
        before: Self,
        batch: Seq<Seq<char>>,
        result: Result<(), String>,
    ) -> bool {
        let used = key_payload(before.key_rows()).len();
        let size = key_payload(batch).len();
        &&& self.shape() == before.shape()
        &&& self.vector_rows() == before.vector_rows()
        &&& self.file() == before.file()
        &&& match result {
            Ok(_) => {
                &&& before.key_rows().len() + batch.len() <= before.shape().row_count
                &&& size <= usize::MAX
                &&& used + size <= u64::MAX
                &&& self.key_rows() == before.key_rows() + batch
                &&& self.queued().len() == before.queued().len() + 2
                &&& self.queued().take(before.queued().len() as int) == before.queued()
                &&& self.queued()[before.queued().len() as int].offset == 512 + 8
                    * before.key_rows().len()
                &&& self.queued()[before.queued().len() as int].bytes@ == offset_table(used, batch)
                &&& self.queued()[before.queued().len() as int + 1].offset == before.shape().keys_offset
                    + used
                &&& self.queued()[before.queued().len() as int + 1].bytes@ == key_payload(batch)
            },
            Err(e) => {
                &&& self.key_rows() == before.key_rows()
                &&& self.queued() == before.queued()
                &&& if before.key_rows().len() + batch.len() > before.shape().row_count {
                    e@ == "ANN flat writer received too many keys"@
                } else {
                    (size > usize::MAX || used + size > u64::MAX) && e@
                        == "ANN key bytes overflow"@
                }
            },
        }
    }

    /// Appends a batch of keys: one write to the offset table and one to the
    /// key section.
    pub fn push_keys(&mut self, keys: &[&str]) -> (result: Result<(), String>)
        requires
            old(self).wf(),
            old(self).shape().keys_offset + key_payload(old(self).key_rows()).len() <= u64::MAX,
        ensures
            final(self).wf(),
            final(self).keys_step(*old(self), key_views(keys@), result),
    {
        let ghost batch = key_views(keys@);
        let ghost before = *self;
        let batch_len: u64 = keys.len() as u64;
        if batch_len > self.header.row_count || self.keys_written > self.header.row_count
            - batch_len {
            return Err("ANN flat writer received too many keys".to_owned());
        }
        let mut total: usize = 0;
        let mut i: usize = 0;
        assert(batch.take(0) =~= Seq::<Seq<char>>::empty());
        while i < keys.len()
            invariant
                i <= keys@.len(),
                batch == key_views(keys@),
                batch.len() == keys@.len(),
                *self == before,
                total == key_payload(batch.take(i as int)).len(),
                before == *old(self),
                before.wf(),
                before.keys_written + keys@.len() <= before.header.row_count,
            decreases keys@.len() - i,
        {
            proof {
                lemma_payload_step(batch, i as int);
                lemma_payload_grows(batch, i + 1);
                assert(batch[i as int] == keys@[i as int]@);
            }
            match total.checked_add(keys[i].as_bytes().len()) {
                Some(sum) => {
                    total = sum;
                },
                None => {
                    return Err("ANN key bytes overflow".to_owned());
                },
            }
            i = i + 1;
        }
        assert(batch.take(batch.len() as int) =~= batch);
        let mut offsets: Vec<u8> = Vec::new();
        let mut payload: Vec<u8> = Vec::new();
        let mut next_offset: u64 = self.next_key_offset;
        i = 0;
        while i < keys.len()
            invariant
                i <= keys@.len(),
                batch == key_views(keys@),
                batch.len() == keys@.len(),
                batch.take(batch.len() as int) == batch,
                *self == before,
                before == *old(self),
                before.wf(),
                before.keys_written + keys@.len() <= before.header.row_count,
                next_offset == before.next_key_offset + key_payload(batch.take(i as int)).len(),
                offsets@ == offset_table(before.next_key_offset as nat, batch.take(i as int)),
                payload@ == key_payload(batch.take(i as int)),
                key_payload(batch).len() <= usize::MAX,
            decreases keys@.len() - i,
        {
            proof {
                lemma_payload_step(batch, i as int);
                lemma_payload_grows(batch, i + 1);
                assert(batch[i as int] == keys@[i as int]@);
            }
            codec::push_le(&mut offsets, next_offset, 8);
            match next_offset.checked_add(keys[i].as_bytes().len() as u64) {
                Some(sum) => {
                    next_offset = sum;
                },
                None => {
                    return Err("ANN key bytes overflow".to_owned());
                },
            }
            codec::push_bytes(&mut payload, keys[i].as_bytes());
            i = i + 1;
        }
        let table_write = FileWrite {
            offset: self.header.key_offsets_offset + self.keys_written * 8,
            bytes: offsets,
        };
        let payload_write = FileWrite {
            offset: self.header.keys_offset + self.next_key_offset,
            bytes: payload,
        };
        proof {
            lemma_all_written_push(self.flushed@, self.pending@, table_write);
            lemma_all_written_push(
                self.flushed@,
                self.pending@.push(table_write),
                payload_write,
            );
            lemma_payload_concat(self.keys@, batch);
            if next_offset <= self.header.keys_bytes {
                lemma_vectors_len(self.vectors@, 4 * self.header.dimensions as nat);
                let rows = self.header.row_count as int;
                let stride = 4 * self.header.dimensions as int;
                assert(self.vectors@.len() * stride <= rows * stride) by (nonlinear_arith)
                    requires
                        self.vectors@.len() <= rows,
                        0 <= stride,
                ;
                lemma_keys_kept(
                    self.final_file(),
                    self.header@,
                    self.keys@,
                    self.vectors@,
                    batch,
                );
            }
        }
        self.pending.push(table_write);
        self.pending.push(payload_write);
        self.next_key_offset = next_offset;
        self.keys_written = self.keys_written + batch_len;
        proof {
            self.keys@ = self.keys@ + batch;
            assert(self.pending@.take(before.pending@.len() as int) =~= before.pending@);
        }
        Ok(())
    }

    /// What a batch of vectors does to the writer.
    pub open spec fn vectors_step(
        &self,
        before: Self,
        batch: Seq<Seq<u8>>,
        result: Result<(), String>,
    ) -> bool {
        let stride = 4 * before.shape().dimensions;
        &&& self.shape() == before.shape()
        &&& self.key_rows() == before.key_rows()
        &&& self.file() == before.file()
        &&& match result {
            Ok(_) => {
                &&& before.vector_rows().len() + batch.len() <= before.shape().row_count
                &&& stride * batch.len() <= usize::MAX
                &&& forall|i: int| 0 <= i < batch.len() ==> (#[trigger] batch[i]).len() == stride
                &&& self.vector_rows() == before.vector_rows() + batch
                &&& self.queued().len() == before.queued().len() + 1
                &&& self.queued().take(before.queued().len() as int) == before.queued()
                &&& self.queued()[before.queued().len() as int].offset
                    == before.shape().vectors_offset + before.vector_rows().len() * stride
                &&& self.queued()[before.queued().len() as int].bytes@ == vector_payload(batch)
            },
            Err(e) => {
                &&& self.vector_rows() == before.vector_rows()
                &&& self.queued() == before.queued()
                &&& if before.vector_rows().len() + batch.len() > before.shape().row_count {
                    e@ == "ANN flat writer received too many vectors"@
                } else if stride * batch.len() > usize::MAX {
                    e@ == "ANN flat writer vector batch byte length overflow"@
                } else {
                    &&& exists|i: int| 0 <= i < batch.len() && (#[trigger] batch[i]).len() != stride
                    &&& e@ == "ANN flat writer vector dimension mismatch"@
                }
            },
        }
    }

    /// Appends a batch of little-endian vectors in one write.
    pub fn push_vector_bytes(&mut self, vectors: &[&[u8]]) -> (result: Result<(), String>)
        requires
            old(self).wf(),
        ensures
            final(self).wf(),
            final(self).vectors_step(*old(self), byte_views(vectors@), result),
    {
        let ghost batch = byte_views(vectors@);
        let ghost before = *self;
        let batch_len: u64 = vectors.len() as u64;
        if batch_len > self.header.row_count || self.vectors_written > self.header.row_count
            - batch_len {
            return Err("ANN flat writer received too many vectors".to_owned());
        }
        let bytes_per_vector: usize = self.header.dimensions as usize * 4;
        if bytes_per_vector.checked_mul(vectors.len()).is_none() {
            return Err("ANN flat writer vector batch byte length overflow".to_owned());
        }
        let mut bytes: Vec<u8> = Vec::new();
        let mut i: usize = 0;
        assert(batch.take(0) =~= Seq::<Seq<u8>>::empty());
        while i < vectors.len()
            invariant
                i <= vectors@.len(),
                batch == byte_views(vectors@),
                batch.len() == vectors@.len(),
                *self == before,
                before == *old(self),
                before.wf(),
                bytes_per_vector == 4 * before.header.dimensions,
                bytes_per_vector * batch.len() <= usize::MAX,
                before.vectors_written + vectors@.len() <= before.header.row_count,
                bytes@ == vector_payload(batch.take(i as int)),
                forall|j: int| 0 <= j < i ==> (#[trigger] batch[j]).len() == bytes_per_vector,
            decreases vectors@.len() - i,
        {
            proof {
                lemma_vectors_step(batch, i as int);
                assert(batch[i as int] == vectors@[i as int]@);
            }
            if vectors[i].len() != bytes_per_vector {
                return Err("ANN flat writer vector dimension mismatch".to_owned());
            }
            codec::push_bytes(&mut bytes, vectors[i]);
            i = i + 1;
        }
        assert(batch.take(batch.len() as int) =~= batch);
        let stride: u64 = self.header.dimensions as u64 * 4;
        let ghost joined = self.vectors@ + batch;
        proof {
            let rows = self.header.row_count as int;
            lemma_vectors_len(self.vectors@, stride as nat);
            assert forall|j: int| 0 <= j < joined.len() implies (#[trigger] joined[j]).len()
                == stride by {
                if j >= self.vectors@.len() {
                    assert(joined[j] == batch[j - self.vectors@.len()]);
                } else {
                    assert(joined[j] == self.vectors@[j]);
                }
            }
            lemma_vectors_len(joined, stride as nat);
            assert(joined.len() * stride <= rows * stride) by (nonlinear_arith)
                requires
                    joined.len() <= rows,
                    0 <= stride,
            ;
            assert(self.vectors@.len() * stride <= rows * stride) by (nonlinear_arith)
                requires
                    self.vectors@.len() <= rows,
                    0 <= stride,
            ;
            assert(0 <= self.vectors@.len() * stride) by (nonlinear_arith)
                requires
                    0 <= stride,
            ;
        }
        let write = FileWrite {
            offset: self.header.vectors_offset + self.vectors_written * stride,
            bytes,
        };
        proof {
            lemma_all_written_push(self.flushed@, self.pending@, write);
            if self.next_key_offset <= self.header.keys_bytes {
                lemma_matrix_kept(
                    self.final_file(),
                    self.header@,
                    self.keys@,
                    self.vectors@,
                    batch,
                );
            }
        }
        self.pending.push(write);
        self.vectors_written = self.vectors_written + batch_len;
        proof {
            self.vectors@ = joined;
            assert(self.pending@.take(before.pending@.len() as int) =~= before.pending@);
        }
        Ok(())
    }
}

/// The bytes of a vector given by its bit patterns.
pub open spec fn packed(vector: Seq<u32>) -> Seq<u8>
    decreases vector.len(),
{
    if vector.len() == 0 {
        Seq::empty()
    } else {
        packed(vector.drop_last()) + codec::le_bytes(vector.last() as nat, 4)
    }
}

/// The bytes of each of the vectors.
pub open spec fn packed_all(vectors: Seq<&[u32]>) -> Seq<Seq<u8>> {
    vectors.map_values(|vector: &[u32]| packed(vector@))
}

proof fn lemma_packed_len(vector: Seq<u32>)
    ensures
        packed(vector).len() == 4 * vector.len(),
    decreases vector.len(),
{
    if vector.len() > 0 {
        lemma_packed_len(vector.drop_last());
        codec::lemma_le_len(vector.last() as nat, 4);
    }
}

/// A vector is read back from its bytes.
pub proof fn law_vector_reads_back(vector: Seq<u32>)
    ensures
        words(packed(vector)) == vector,
    decreases vector.len(),
{
    lemma_packed_len(vector);
    if vector.len() > 0 {
        let rest = vector.drop_last();
        law_vector_reads_back(rest);
        lemma_packed_len(rest);
        codec::lemma_le_len(vector.last() as nat, 4);
        codec::lemma_spans();
        codec::law_le_reads_back(vector.last() as nat, 4);
        let n = rest.len() as int;
        assert forall|i: int| 0 <= i < vector.len() implies words(packed(vector))[i]
            == vector[i] by {
            if i < n {
                assert(packed(vector).subrange(4 * i, 4 * i + 4) =~= packed(rest).subrange(
                    4 * i,
                    4 * i + 4,
                ));
                assert(words(packed(rest))[i] == rest[i]);
            } else {
                assert(packed(vector).subrange(4 * i, 4 * i + 4) =~= codec::le_bytes(
                    vector.last() as nat,
                    4,
                ));
            }
        }
    }
    assert(words(packed(vector)) =~= vector);
}

fn pack(vector: &[u32]) -> (result: Vec<u8>)
    ensures
        result@ == packed(vector@),
{
    let mut result: Vec<u8> = Vec::new();
    let mut i: usize = 0;
    assert(vector@.take(0) =~= Seq::<u32>::empty());
    while i < vector.len()
        invariant
            i <= vector@.len(),
            result@ == packed(vector@.take(i as int)),
        decreases vector@.len() - i,
    {
        assert(vector@.take(i + 1).drop_last() =~= vector@.take(i as int));
        codec::push_le(&mut result, vector[i] as u64, 4);
        i = i + 1;
    }
    assert(vector@.take(vector@.len() as int) =~= vector@);
    result
}

/// The file holds every row of the snapshot, and the offset table is closed.
pub open spec fn complete(
    file: Seq<u8>,
    header: HeaderModel,
    keys: Seq<Seq<char>>,
    vectors: Seq<Seq<u8>>,
) -> bool {
    let end = 512 + 8 * header.row_count;
    &&& keys.len() == header.row_count
    &&& vectors.len() == header.row_count
    &&& key_payload(keys).len() == header.keys_bytes
    &&& forall|i: int|
        0 <= i < vectors.len() ==> (#[trigger] vectors[i]).len() == 4 * header.dimensions
    &&& holds(file, header, keys, vectors)
    &&& file.subrange(end, end + 8) == codec::le_bytes(header.keys_bytes as nat, 8)
}

impl FlatFileWriter {
    /// Appends one vector of bit patterns.
    pub fn push_vector(&mut self, vector: &[u32]) -> (result: Result<(), String>)
        requires
            old(self).wf(),
        ensures
            final(self).wf(),
            final(self).vectors_step(*old(self), seq![packed(vector@)], result),
    {
        let mut vectors: Vec<&[u32]> = Vec::new();
        vectors.push(vector);
        assert(packed_all(vectors@) =~= seq![packed(vector@)]);
        self.push_vectors(&vectors)
    }

    /// Appends a batch of vectors of bit patterns.
    pub fn push_vectors(&mut self, vectors: &[&[u32]]) -> (result: Result<(), String>)
        requires
            old(self).wf(),
        ensures
            final(self).wf(),
            final(self).vectors_step(*old(self), packed_all(vectors@), result),
    {
        let mut encoded: Vec<Vec<u8>> = Vec::new();
        let mut i: usize = 0;
        while i < vectors.len()
            invariant
                i <= vectors@.len(),
                encoded@.len() == i,
                forall|j: int| 0 <= j < i ==> (#[trigger] encoded@[j])@ == packed(vectors@[j]@),
            decreases vectors@.len() - i,
        {
            encoded.push(pack(vectors[i]));
            i = i + 1;
        }
        let mut slices: Vec<&[u8]> = Vec::new();
        i = 0;
        while i < encoded.len()
            invariant
                i <= encoded@.len(),
                slices@.len() == i,
                forall|j: int| 0 <= j < i ==> (#[trigger] slices@[j])@ == encoded@[j]@,
            decreases encoded@.len() - i,
        {
            slices.push(encoded[i].as_slice());
            i = i + 1;
        }
        assert(byte_views(slices@) =~= packed_all(vectors@));
        self.push_vector_bytes(&slices)
    }

    /// Closes the sidecar and hands over the last writes.
    pub fn finish(self) -> (result: Result<Vec<FileWrite>, String>)
        requires
            self.wf(),
        ensures
            match result {
                Ok(writes) => complete(
                    all_written(self.file(), writes@),
                    self.shape(),
                    self.key_rows(),
                    self.vector_rows(),
                ),
                Err(e) => {
                    &&& self.key_rows().len() != self.shape().row_count || self.vector_rows().len()
                        != self.shape().row_count || key_payload(self.key_rows()).len()
                        != self.shape().keys_bytes
                    &&& e@ == snapshot_changed(
                        self.key_rows().len(),
                        self.vector_rows().len(),
                        key_payload(self.key_rows()).len(),
                        self.shape().row_count as nat,
                        self.shape().keys_bytes as nat,
                    )
                },
            },
    {
        if self.keys_written != self.header.row_count || self.vectors_written
            != self.header.row_count || self.next_key_offset != self.header.keys_bytes {
            let mut message = text::join2(
                "ANN flat writer snapshot changed: keys=",
                &text::decimal_string(self.keys_written),
            );
            message.append(" vectors=");
            message.append(&text::decimal_string(self.vectors_written));
            message.append(" key_bytes=");
            message.append(&text::decimal_string(self.next_key_offset));
            message.append(" expected_rows=");
            message.append(&text::decimal_string(self.header.row_count));
            message.append(" expected_key_bytes=");
            message.append(&text::decimal_string(self.header.keys_bytes));
            return Err(message);
        }
        let mut terminator: Vec<u8> = Vec::new();
        codec::push_le(&mut terminator, self.next_key_offset, 8);
        let write = FileWrite {
            offset: self.header.key_offsets_offset + self.header.row_count * 8,
            bytes: terminator,
        };
        let mut pending = self.pending;
        proof {
            let file = self.final_file();
            let end = 512 + 8 * self.header.row_count as int;
            let k = self.header.keys_offset as int;
            let v = self.header.vectors_offset as int;
            let stride = 4 * self.header.dimensions as int;
            lemma_all_written_push(self.flushed@, self.pending@, write);
            assert(write.bytes@ =~= codec::le_bytes(self.header.keys_bytes as nat, 8));
            codec::lemma_le_len(self.header.keys_bytes as nat, 8);
            lemma_table_len(0, self.keys@);
            lemma_vectors_len(self.vectors@, stride as nat);
            lemma_write_inside(file, end, write.bytes@);
            lemma_write_outside(file, end, write.bytes@, 0, 512);
            lemma_write_outside(file, end, write.bytes@, 512, end);
            lemma_write_outside(file, end, write.bytes@, k, k + self.header.keys_bytes);
            lemma_write_outside(file, end, write.bytes@, v, v + self.header.vectors_bytes);
        }
        pending.push(write);
        Ok(pending)
    }
}

proof fn lemma_table_entry(keys: Seq<Seq<char>>, i: int)
    requires
        0 <= i < keys.len(),
    ensures
        offset_table(0, keys).subrange(8 * i, 8 * i + 8) == codec::le_bytes(
            key_payload(keys.take(i)).len(),
            8,
        ),
    decreases keys.len(),
{
    let rest = keys.drop_last();
    lemma_table_len(0, keys);
    lemma_table_len(0, rest);
    if i < rest.len() {
        lemma_table_entry(rest, i);
        assert(rest.take(i) =~= keys.take(i));
        assert(offset_table(0, keys).subrange(8 * i, 8 * i + 8) =~= offset_table(0, rest).subrange(
            8 * i,
            8 * i + 8,
        ));
    } else {
        assert(keys.take(i) =~= rest);
        codec::lemma_le_len(key_payload(rest).len(), 8);
        assert(offset_table(0, keys).subrange(8 * i, 8 * i + 8) =~= codec::le_bytes(
            key_payload(rest).len(),
            8,
        ));
    }
}

proof fn lemma_payload_entry(keys: Seq<Seq<char>>, i: int)
    requires
        0 <= i < keys.len(),
    ensures
        ({
            let start = key_payload(keys.take(i)).len() as int;
            let end = key_payload(keys.take(i + 1)).len() as int;
            &&& start <= end <= key_payload(keys).len()
            &&& key_payload(keys).subrange(start, end) == encode_utf8(keys[i])
        }),
{
    lemma_payload_step(keys, i);
    assert(keys.take(i + 1) + keys.skip(i + 1) =~= keys);
    lemma_payload_concat(keys.take(i + 1), keys.skip(i + 1));
    let start = key_payload(keys.take(i)).len() as int;
    let end = key_payload(keys.take(i + 1)).len() as int;
    assert(key_payload(keys).subrange(start, end) =~= encode_utf8(keys[i]));
}

proof fn lemma_matrix_entry(vectors: Seq<Seq<u8>>, stride: nat, i: int)
    requires
        0 <= i < vectors.len(),
        forall|j: int| 0 <= j < vectors.len() ==> (#[trigger] vectors[j]).len() == stride,
    ensures
        i * stride + stride <= vector_payload(vectors).len(),
        vector_payload(vectors).subrange(i * stride, i * stride + stride) == vectors[i],
    decreases vectors.len(),
{
    let rest = vectors.drop_last();
    lemma_vectors_len(vectors, stride);
    lemma_vectors_len(rest, stride);
    assert(0 <= i * stride) by (nonlinear_arith)
        requires
            0 <= i,
    ;
    if i < rest.len() {
        lemma_matrix_entry(rest, stride, i);
        assert(rest[i] == vectors[i]);
        assert(vector_payload(vectors).subrange(i * stride, i * stride + stride)
            =~= vector_payload(rest).subrange(i * stride, i * stride + stride));
    } else {
        assert(vector_payload(vectors).subrange(i * stride, i * stride + stride) =~= vectors[i]);
    }
}

proof fn lemma_finished_opens(
    file: Seq<u8>,
    header: HeaderModel,
    keys: Seq<Seq<char>>,
    vectors: Seq<Seq<u8>>,
)
    requires
        header.texts_fit(),
        header.connectivity == ann_format::ANN_CONNECTIVITY,
        header.expansion_add == ann_format::ANN_EXPANSION_ADD,
        header.ann_implementation == "usearch-2.26.0"@,
        header.snapshot_layout(),
        complete(file, header, keys, vectors),
        file.len() <= usize::MAX,
    ensures
        opened(file) == Ok::<HeaderModel, Seq<char>>(header),
{
    let end = 512 + 8 * header.row_count;
    codec::lemma_spans();
    ann_format::law_header_reads_back(header, file);
    codec::law_le_reads_back(header.keys_bytes as nat, 8);
    assert(codec::le_at(file, end, 8) == header.keys_bytes);
}

proof fn lemma_offset_reads_back(
    file: Seq<u8>,
    header: HeaderModel,
    keys: Seq<Seq<char>>,
    vectors: Seq<Seq<u8>>,
    i: int,
)
    requires
        header.snapshot_layout(),
        complete(file, header, keys, vectors),
        file.len() <= usize::MAX,
        0 <= i <= header.row_count,
    ensures
        word_of(file, 512 + i * 8) == Ok::<nat, Seq<char>>(key_payload(keys.take(i)).len()),
        key_payload(keys.take(i)).len() <= header.keys_bytes,
{
    let table = offset_table(0, keys);
    let n = key_payload(keys.take(i)).len();
    codec::lemma_spans();
    lemma_payload_grows(keys, i);
    codec::law_le_reads_back(n, 8);
    if i < header.row_count {
        lemma_table_len(0, keys);
        lemma_table_entry(keys, i);
        assert(file.subrange(512 + i * 8, 512 + i * 8 + 8) =~= file.subrange(
            512,
            512 + table.len() as int,
        ).subrange(8 * i, 8 * i + 8));
    } else {
        assert(keys.take(i) =~= keys);
        assert(512 + i * 8 == 512 + 8 * header.row_count);
    }
}

proof fn lemma_key_reads_back(
    file: Seq<u8>,
    header: HeaderModel,
    keys: Seq<Seq<char>>,
    vectors: Seq<Seq<u8>>,
    i: int,
)
    requires
        header.snapshot_layout(),
        complete(file, header, keys, vectors),
        file.len() <= usize::MAX,
        0 <= i < header.row_count,
    ensures
        key_of(file, header, i as nat) == Ok::<Seq<char>, Seq<char>>(keys[i]),
{
    let payload = key_payload(keys);
    let k = header.keys_offset as int;
    let start = key_payload(keys.take(i)).len() as int;
    let end = key_payload(keys.take(i + 1)).len() as int;
    lemma_payload_entry(keys, i);
    lemma_offset_reads_back(file, header, keys, vectors, i);
    lemma_offset_reads_back(file, header, keys, vectors, i + 1);
    assert(k + header.keys_bytes <= header.vectors_offset);
    assert(file.subrange(k + start, k + end) =~= file.subrange(k, k + payload.len()).subrange(
        start,
        end,
    ));
    encode_utf8_valid_utf8(keys[i]);
    encode_utf8_decode_utf8(keys[i]);
}

proof fn lemma_row_reads_back(
    file: Seq<u8>,
    header: HeaderModel,
    keys: Seq<Seq<char>>,
    vectors: Seq<Seq<u8>>,
    i: int,
)
    requires
        header.snapshot_layout(),
        complete(file, header, keys, vectors),
        file.len() <= usize::MAX,
        0 <= i < header.row_count,
    ensures
        vector_bytes_of(file, header, i as nat) == vectors[i],
{
    let stride = (4 * header.dimensions) as nat;
    let v = header.vectors_offset as int;
    let matrix = vector_payload(vectors);
    lemma_vectors_len(vectors, stride);
    lemma_matrix_entry(vectors, stride, i);
    assert(0 <= i * stride) by (nonlinear_arith)
        requires
            0 <= i,
    ;
    assert(vector_bytes_of(file, header, i as nat) =~= file.subrange(v, v + matrix.len()).subrange(
        i * stride,
        i * stride + stride,
    ));
}

/// A finished sidecar opens, and every row reads back as the key and the
/// vector that were given for it.
pub proof fn law_sidecar_reads_back(
    file: Seq<u8>,
    header: HeaderModel,
    keys: Seq<Seq<char>>,
    vectors: Seq<Seq<u8>>,
)
    requires
        header.texts_fit(),
        header.connectivity == ann_format::ANN_CONNECTIVITY,
        header.expansion_add == ann_format::ANN_EXPANSION_ADD,
        header.ann_implementation == "usearch-2.26.0"@,
        header.snapshot_layout(),
        complete(file, header, keys, vectors),
        file.len() <= usize::MAX,
    ensures
        opened(file) == Ok::<HeaderModel, Seq<char>>(header),
        forall|i: int|
            0 <= i < header.row_count ==> key_of(file, header, i as nat) == Ok::<
                Seq<char>,
                Seq<char>,
            >(#[trigger] keys[i]),
        forall|i: int|
            0 <= i < header.row_count ==> vector_bytes_of(file, header, i as nat)
                == #[trigger] vectors[i],
{
    lemma_finished_opens(file, header, keys, vectors);
    assert forall|i: int| 0 <= i < header.row_count implies key_of(file, header, i as nat) == Ok::<
        Seq<char>,
        Seq<char>,
    >(#[trigger] keys[i]) by {
        lemma_key_reads_back(file, header, keys, vectors, i);
    }
    assert forall|i: int| 0 <= i < header.row_count implies vector_bytes_of(file, header, i as nat)
        == #[trigger] vectors[i] by {
        lemma_row_reads_back(file, header, keys, vectors, i);
    }
}

/// Checks what a persisted graph answered: the result is not empty, and each
/// hit is an existing row at a finite distance.
pub fn validate_ann_search_result(keys: &[u64], distances: &[u32], row_count: u64) -> (result:
    Result<(), String>)
    ensures
        match result {
            Ok(_) => {
                &&& keys@.len() > 0
                &&& keys@.len() == distances@.len()
                &&& forall|i: int| 0 <= i < keys@.len() ==> 1 <= #[trigger] keys@[i] <= row_count
                &&& forall|i: int|
                    0 <= i < distances@.len() ==> ieee::is_finite32(#[trigger] distances@[i])
            },
            Err(e) => if keys@.len() == 0 || keys@.len() != distances@.len() {
                e@ == "ANN self-test returned an invalid result set"@
            } else if exists|i: int|
                0 <= i < keys@.len() && !(1 <= #[trigger] keys@[i] <= row_count) {
                e@ == "ANN self-test returned an out-of-range ordinal"@
            } else {
                &&& exists|i: int|
                    0 <= i < distances@.len() && !ieee::is_finite32(#[trigger] distances@[i])
                &&& e@ == "ANN self-test returned a non-finite distance"@
            },
        },
{
    if keys.len() == 0 || keys.len() != distances.len() {
        return Err("ANN self-test returned an invalid result set".to_owned());
    }
    let mut i: usize = 0;
    while i < keys.len()
        invariant
            i <= keys@.len(),
            keys@.len() > 0,
            keys@.len() == distances@.len(),
            forall|j: int| 0 <= j < i ==> 1 <= #[trigger] keys@[j] <= row_count,
        decreases keys@.len() - i,
    {
        if keys[i] == 0 || keys[i] > row_count {
            return Err("ANN self-test returned an out-of-range ordinal".to_owned());
        }
        i = i + 1;
    }
    i = 0;
    while i < distances.len()
        invariant
            i <= distances@.len(),
            keys@.len() > 0,
            keys@.len() == distances@.len(),
            forall|j: int| 0 <= j < keys@.len() ==> 1 <= #[trigger] keys@[j] <= row_count,
            forall|j: int| 0 <= j < i ==> ieee::is_finite32(#[trigger] distances@[j]),
        decreases distances@.len() - i,
    {
        if !ieee::finite32(distances[i]) {
            return Err("ANN self-test returned a non-finite distance".to_owned());
        }
        i = i + 1;
    }
    Ok(())
}

/// What a probe that was stored and read again compares to: the squares of both
/// vectors summed up, and their cosine, as double-precision numbers by their
/// bits; and the cosine as it is told.
#[derive(Debug)]
pub struct ProbeComparison {
    pub expected_norm: u64,
    pub recovered_norm: u64,
    pub cosine: u64,
    pub shown: String,
}

/// Why a probe that was stored is not accepted, if it is not: where it was not
/// found, is not finite, is nothing, or has a cosine below 0.95.
pub open spec fn probe_fault(
    expected: Seq<u32>,
    recovered: Seq<u32>,
    vectors_found: usize,
    comparison: ProbeComparison,
) -> Option<Seq<char>> {
    if vectors_found != 1 || expected.len() == 0 || expected.len() != recovered.len() {
        Some("ANN self-test could not recover the probe vector"@)
    } else if exists|i: int|
        0 <= i < expected.len() && !(ieee::is_finite32(#[trigger] expected[i])
            && ieee::is_finite32(recovered[i])) {
        Some("ANN self-test recovered a non-finite vector"@)
    } else if ieee::reaches(0x3CB0_0000_0000_0000, comparison.expected_norm) || ieee::reaches(
        0x3CB0_0000_0000_0000,
        comparison.recovered_norm,
    ) {
        Some("ANN self-test recovered a zero-norm vector"@)
    } else if !ieee::is_finite(comparison.cosine) || ieee::below(
        comparison.cosine,
        0x3FEE_6666_6000_0000,
    ) {
        Some(
            "ANN self-test recovered a mismatched probe vector: cosine="@ + comparison.shown@,
        )
    } else {
        None
    }
}

/// Checks that a vector that was stored is still there. Gives its cosine with
/// what was stored.
pub fn validate_ann_recovered_probe(
    expected: &[u32],
    recovered: &[u32],
    vectors_found: usize,
    comparison: &ProbeComparison,
) -> (result: Result<u64, String>)
    ensures
        match result {
            Ok(cosine) => {
                &&& probe_fault(expected@, recovered@, vectors_found, *comparison) is None
                &&& cosine == comparison.cosine
            },
            Err(e) => probe_fault(expected@, recovered@, vectors_found, *comparison) == Some(e@),
        },
{
    if vectors_found != 1 || expected.len() == 0 || expected.len() != recovered.len() {
        return Err("ANN self-test could not recover the probe vector".to_owned());
    }
    let mut i: usize = 0;
    while i < expected.len()
        invariant
            i <= expected@.len(),
            vectors_found == 1,
            expected@.len() > 0,
            expected@.len() == recovered@.len(),
            forall|j: int|
                0 <= j < i ==> ieee::is_finite32(#[trigger] expected@[j]) && ieee::is_finite32(
                    recovered@[j],
                ),
        decreases expected@.len() - i,
    {
        let (left, right): (u32, u32) = (expected[i], recovered[i]);
        if !ieee::finite32(left) || !ieee::finite32(right) {
            assert(!(ieee::is_finite32(expected@[i as int]) && ieee::is_finite32(
                recovered@[i as int],
            )));
            return Err("ANN self-test recovered a non-finite vector".to_owned());
        }
        i = i + 1;
    }
    let epsilon: u64 = 0x3CB0_0000_0000_0000;
    if ieee::at_least(epsilon, comparison.expected_norm) || ieee::at_least(
        epsilon,
        comparison.recovered_norm,
    ) {
        return Err("ANN self-test recovered a zero-norm vector".to_owned());
    }
    if !ieee::finite(comparison.cosine) || ieee::less(comparison.cosine, 0x3FEE_6666_6000_0000) {
        return Err(
            text::join2(
                "ANN self-test recovered a mismatched probe vector: cosine=",
                &comparison.shown,
            ),
        );
    }
    Ok(comparison.cosine)
}

/// What is written is read where it was written, and nothing else changes; a
/// file that was shorter is filled with noughts.
pub proof fn law_writes_stay_in_their_place(file: Seq<u8>, offset: int, bytes: Seq<u8>, i: int)
    requires
        0 <= offset,
    ensures
        written(file, offset, bytes).subrange(offset, offset + bytes.len()) == bytes,
        written(file, offset, bytes).len() >= file.len(),
        0 <= i < file.len() && !(offset <= i < offset + bytes.len()) ==> written(
            file,
            offset,
            bytes,
        )[i] == file[i],
        file.len() <= i < offset ==> written(file, offset, bytes)[i] == 0,
{
    assert(written(file, offset, bytes).subrange(offset, offset + bytes.len()) =~= bytes);
}

/// A probe passes only if it gave back one vector of the same width, with finite
/// numbers, neither of them next to nothing, and with a cosine of at least 0.95.
pub proof fn law_probes_recover_their_vector(
    expected: Seq<u32>,
    recovered: Seq<u32>,
    found: usize,
    comparison: ProbeComparison,
    i: int,
)
    requires
        probe_fault(expected, recovered, found, comparison) is None,
    ensures
        found == 1,
        0 < expected.len() == recovered.len(),
        0 <= i < expected.len() ==> ieee::is_finite32(expected[i]) && ieee::is_finite32(
            recovered[i],
        ),
        ieee::is_finite(comparison.cosine),
        !ieee::below(comparison.cosine, 0x3FEE_6666_6000_0000),
        !ieee::reaches(0x3CB0_0000_0000_0000, comparison.expected_norm),
        !ieee::reaches(0x3CB0_0000_0000_0000, comparison.recovered_norm),
{
}

/// The table tells where each key begins: behind all keys before it.
pub proof fn law_the_table_tells_where_keys_begin(keys: Seq<Seq<char>>, i: int)
    requires
        0 <= i < keys.len(),
        key_payload(keys).len() <= u64::MAX,
    ensures
        offset_table(0, keys).len() == 8 * keys.len(),
        codec::le_at(offset_table(0, keys), 8 * i, 8) == key_payload(keys.take(i)).len(),
    decreases keys.len(),
{
    let head = keys.drop_last();
    let table = offset_table(0, keys);
    let before = offset_table(0, head);
    lemma_table_len(0, keys);
    lemma_table_len(0, head);
    codec::lemma_le_len(key_payload(head).len(), 8);
    if i < head.len() {
        law_the_table_tells_where_keys_begin(head, i);
        assert(head.take(i) =~= keys.take(i));
        assert(table.subrange(8 * i, 8 * i + 8) =~= before.subrange(8 * i, 8 * i + 8));
    } else {
        assert(keys.take(i) =~= head);
        codec::lemma_spans();
        codec::law_le_reads_back(key_payload(head).len(), 8);
        assert(table.subrange(8 * i, 8 * i + 8) =~= codec::le_bytes(key_payload(head).len(), 8));
    }
}

} // verus!
