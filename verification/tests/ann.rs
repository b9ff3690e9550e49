use carbonpaper::ann_format::Header;
use carbonpaper::ann_protocol::{AnnReply, AnnRequest, CHECKPOINT_ROWS, IO_CHUNK};
use carbonpaper::ann_sidecar::{
    validate_ann_recovered_probe, validate_ann_search_result, FileWrite, FlatFileWriter,
    MappedFlatIndex, ProbeComparison,
};
use carbonpaper::ann_worker::{dispatch, Control, Dispatch, GraphFacts, Phase, Session};
use carbonpaper::digest::{md5_hash, sha256_hex};

fn bits(values: &[f32]) -> Vec<u32> {
    values.iter().map(|v| v.to_bits()).collect()
}

fn assemble(writes: Vec<FileWrite>, length: u64) -> Vec<u8> {
    let mut file = vec![0u8; length as usize];
    for write in writes {
        let at = write.offset as usize;
        file[at..at + write.bytes.len()].copy_from_slice(&write.bytes);
    }
    file
}

fn flat_file(header: Header, keys: &[String], vectors: &[Vec<f32>]) -> Vec<u8> {
    let mut writer = FlatFileWriter::create(header).unwrap();
    let length = writer.file_len();
    for key in keys {
        writer.push_key(key).unwrap();
    }
    for vector in vectors {
        writer.push_vector(&bits(vector)).unwrap();
    }
    let mut writes = writer.take_writes();
    writes.extend(writer.finish().unwrap());
    assemble(writes, length)
}

#[test]
fn round_trip_supports_unicode_paths_and_keys() {
    let keys = vec!["图像-a".to_string(), "hash-b".to_string()];
    let vectors = vec![vec![1.0, 0.0], vec![0.0, 1.0]];
    let key_bytes = keys.iter().map(|key| key.as_bytes().len() as u64).sum();
    let header =
        Header::for_snapshot(7, 11, 2, 2, "clip_image", "clip", "rev", 256, key_bytes).unwrap();
    let file = flat_file(header, &keys, &vectors);
    let mapped = MappedFlatIndex::open(&file).unwrap();
    assert_eq!(mapped.key(0).unwrap(), "图像-a");
    assert_eq!(mapped.vector(1).unwrap(), bits(&[0.0, 1.0]));
    assert_eq!(mapped.header.covered_epoch, 11);
    assert_eq!(mapped.rows(), 2);
    assert!(mapped.key(2).is_err());
    assert!(mapped.vector(2).is_err());
}

#[test]
fn batched_writer_preserves_key_and_vector_order_across_pages() {
    let header = Header::for_snapshot(8, 12, 3, 2, "clip_image", "clip", "rev", 256, 3).unwrap();
    let mut writer = FlatFileWriter::create(header).unwrap();
    let length = writer.file_len();
    writer.push_keys(&["a", "b"]).unwrap();
    writer
        .push_vectors(&[&bits(&[1.0, 0.0]), &bits(&[0.0, 1.0])])
        .unwrap();
    writer.push_keys(&["c"]).unwrap();
    writer.push_vectors(&[&bits(&[0.5, 0.5])]).unwrap();
    let file = assemble(writer.finish().unwrap(), length);

    let mapped = MappedFlatIndex::open(&file).unwrap();
    assert_eq!(mapped.key(0).unwrap(), "a");
    assert_eq!(mapped.key(1).unwrap(), "b");
    assert_eq!(mapped.key(2).unwrap(), "c");
    assert_eq!(mapped.vector(0).unwrap(), bits(&[1.0, 0.0]));
    assert_eq!(mapped.vector(1).unwrap(), bits(&[0.0, 1.0]));
    assert_eq!(mapped.vector(2).unwrap(), bits(&[0.5, 0.5]));
}

#[test]
fn rejects_a_truncated_file() {
    assert!(MappedFlatIndex::open(b"CPDVEC04").is_err());
}

#[test]
fn headers_read_back_and_damage_is_found() {
    let header = Header::for_snapshot(3, 5, 1, 4, "clip_image", "clip", "rev", 96, 6).unwrap();
    let mut bytes = header.encode().unwrap().to_vec();
    bytes.resize(header.file_len().unwrap() as usize, 0);
    let again = Header::decode(&bytes).unwrap();
    assert_eq!(again.generation, 3);
    assert_eq!(again.row_count, 1);
    assert_eq!(again.model_revision, "rev");
    assert_eq!(again.file_len().unwrap(), header.file_len().unwrap());
    let mut damaged = bytes.clone();
    damaged[0] = b'X';
    assert!(Header::decode(&damaged).is_err());
    assert!(Header::decode(&bytes[..100]).is_err());
    assert!(Header::for_snapshot(3, 5, 3_000_000, 4, "clip_image", "clip", "rev", 96, 6).is_err());
}

#[test]
fn unfinished_files_are_refused() {
    let header = Header::for_snapshot(8, 12, 2, 2, "clip_image", "clip", "rev", 256, 2).unwrap();
    let mut writer = FlatFileWriter::create(header).unwrap();
    writer.push_key("a").unwrap();
    assert!(writer.push_vector(&bits(&[1.0])).is_err());
    writer.push_vector(&bits(&[1.0, 0.0])).unwrap();
    assert!(writer.finish().is_err());
}

#[test]
fn ann_probe_accepts_a_different_valid_neighbor() {
    assert!(validate_ann_search_result(&[2], &bits(&[0.99]), 3).is_ok());
}

#[test]
fn ann_probe_rejects_invalid_results() {
    assert!(validate_ann_search_result(&[], &bits(&[]), 3).is_err());
    assert!(validate_ann_search_result(&[0], &bits(&[0.99]), 3).is_err());
    assert!(validate_ann_search_result(&[4], &bits(&[0.99]), 3).is_err());
    assert!(validate_ann_search_result(&[1], &bits(&[f32::NAN]), 3).is_err());
    assert!(validate_ann_search_result(&[1], &bits(&[]), 3).is_err());
}

fn compare(expected: &[f32], recovered: &[f32]) -> ProbeComparison {
    let mut dot = 0.0f64;
    let mut expected_norm = 0.0f64;
    let mut recovered_norm = 0.0f64;
    for (left, right) in expected.iter().zip(recovered) {
        let left = f64::from(*left);
        let right = f64::from(*right);
        dot += left * right;
        expected_norm += left * left;
        recovered_norm += right * right;
    }
    let cosine = dot / (expected_norm.sqrt() * recovered_norm.sqrt());
    ProbeComparison {
        expected_norm: expected_norm.to_bits(),
        recovered_norm: recovered_norm.to_bits(),
        cosine: cosine.to_bits(),
        shown: format!("{cosine:.6}"),
    }
}

fn probe(expected: &[f32], recovered: &[f32], found: usize) -> Result<f32, String> {
    validate_ann_recovered_probe(
        &bits(expected),
        &bits(recovered),
        found,
        &compare(expected, recovered),
    )
    .map(|cosine| f64::from_bits(cosine) as f32)
}

#[test]
fn ann_recovered_probe_allows_quantization_but_rejects_wrong_vectors() {
    let expected = [0.6, 0.8];
    let recovered = [76.0 / 127.0, 101.0 / 127.0];
    assert!(probe(&expected, &recovered, 1).unwrap() > 0.99);
    assert!(probe(&expected, &[0.8, -0.6], 1).is_err());
    assert!(probe(&expected, &recovered, 0).is_err());
}

#[test]
fn recovered_probes_are_told_apart_by_their_faults() {
    assert_eq!(
        probe(&[0.6, 0.8], &[0.8, -0.6], 1).unwrap_err(),
        "ANN self-test recovered a mismatched probe vector: cosine=0.000000"
    );
    assert_eq!(
        probe(&[0.0, 0.0], &[0.8, -0.6], 1).unwrap_err(),
        "ANN self-test recovered a zero-norm vector"
    );
    assert_eq!(
        probe(&[f32::INFINITY, 0.0], &[0.8, -0.6], 1).unwrap_err(),
        "ANN self-test recovered a non-finite vector"
    );
    assert_eq!(
        probe(&[1.0], &[0.8, -0.6], 1).unwrap_err(),
        "ANN self-test could not recover the probe vector"
    );
    // The limit is the single-precision number nearest to 0.95.
    assert_eq!(f64::from(0.95f32).to_bits(), 0x3FEE_6666_6000_0000);
    assert_eq!(f64::EPSILON.to_bits(), 0x3CB0_0000_0000_0000);
}

#[test]
fn cancel_is_scoped_to_the_request_id() {
    let mut c = Control::default();
    c.begin(10);
    c.cancel(10);
    assert!(c.check().is_err());
    c.begin(11);
    c.cancel(10);
    assert!(c.check().is_ok());
}

#[test]
fn moving_bytes_in_the_background_is_slowed_down() {
    let c = Control::default();
    assert_eq!(c.throttle(2_097_152, true), 1_000_000_000);
    assert_eq!(c.throttle(2_097_152, false), 0);
    assert_eq!(c.throttle(1, true), 477);
    assert_eq!(c.throttle(2048, true), 976_562);
}

fn input_file(rows: usize) -> Vec<u8> {
    let keys: Vec<String> = (0..rows).map(|i| format!("v{i:05}")).collect();
    let header = Header::for_snapshot(
        1,
        7,
        rows as u64,
        8,
        "clip_image",
        "model",
        "revision",
        96,
        keys.iter().map(|k| k.len() as u64).sum(),
    )
    .unwrap();
    let vectors: Vec<Vec<f32>> = (0..rows)
        .map(|i| {
            let mut vector = vec![0.0f32; 8];
            vector[i % 8] = 1.0;
            vector
        })
        .collect();
    flat_file(header, &keys, &vectors)
}

fn facts(rows: u64) -> GraphFacts {
    GraphFacts {
        size: rows,
        dimensions: 8,
        inner_product: true,
        eight_bit: true,
        connectivity: 16,
    }
}

/// A graph that is only its count of rows, and a disk with one file on it.
struct Bench {
    input: Vec<u8>,
    disk: Vec<(String, Vec<u8>)>,
    graph: u64,
}

impl Bench {
    fn read(&self, path: &str) -> Vec<u8> {
        self.disk
            .iter()
            .rev()
            .find(|entry| entry.0 == path)
            .unwrap()
            .1
            .clone()
    }

    fn step(&mut self, session: &mut Session, control: &Control, reply: &mut AnnReply) -> Result<(), String> {
        match session.begin_step(control)? {
            Phase::Flat => {
                let input = self.input.clone();
                for chunk in input.chunks(IO_CHUNK) {
                    session.flat_chunk(chunk, input.len() as u64)?;
                }
                Ok(())
            }
            Phase::ReadCheckpoint | Phase::ReadBack => {
                let bytes = self.read(&session.checkpoint_path()?.clone());
                session.read_allowed(bytes.len() as u64)?;
                for chunk in bytes.chunks(IO_CHUNK) {
                    session.checkpoint_chunk(chunk, bytes.len() as u64)?;
                }
                Ok(())
            }
            Phase::Restore | Phase::VerifyRestore => {
                self.graph = session.built;
                session.restored(facts(self.graph))
            }
            Phase::Build => {
                let mut inserted = 0;
                while let Some(row) = session.next_row(inserted, false, control)? {
                    assert_eq!(row, self.graph);
                    session.vector(row as usize)?;
                    self.graph += 1;
                    inserted += 1;
                    session.row_inserted(10, 5, reply);
                }
                session.build_paused();
                Ok(())
            }
            Phase::Serialize => {
                session.serialize_allowed(100, false)?;
                let path = session.scratch_extension();
                session.serialized(self.graph.to_le_bytes().to_vec(), path.clone());
                self.disk.push((path, Vec::new()));
                Ok(())
            }
            Phase::Write => {
                let chunk = session.next_chunk().to_vec();
                let path = session.output.clone().unwrap();
                let last = self.disk.iter().rposition(|entry| entry.0 == path).unwrap();
                self.disk[last].1.extend(chunk);
                session.chunk_written();
                Ok(())
            }
            Phase::Validate => {
                for row in session.probes() {
                    assert!(row < session.built);
                }
                session.validated(reply);
                Ok(())
            }
        }
    }

    fn checkpoint(&mut self, session: &mut Session, control: &Control) -> (u64, AnnReply) {
        for _ in 0..10_000 {
            let mut reply = AnnReply::blank(1);
            self.step(session, control, &mut reply).unwrap();
            if reply.checkpoint.is_some() {
                return (session.committed, reply);
            }
        }
        panic!("checkpoint did not complete")
    }
}

#[test]
fn complete_checkpoint_restores_and_replays_only_the_uncommitted_suffix() {
    let mut bench = Bench { input: input_file(5100), disk: Vec::new(), graph: 0 };
    let mut control = Control::default();
    control.begin(1);
    let mut session = Session::new("input.cpdvec".to_string(), None, None, 0);
    let (built, first) = bench.checkpoint(&mut session, &control);
    assert_eq!(built, CHECKPOINT_ROWS);
    let first_path = first.checkpoint.clone().unwrap();
    let first_digest = first.checksum.clone().unwrap();
    bench.step(&mut session, &control, &mut AnnReply::blank(1)).unwrap();
    assert_eq!(session.built, 5100);
    bench.graph = 0;
    let mut resumed = Session::new(
        "input.cpdvec".to_string(),
        Some(first_path.clone()),
        Some(first_digest.clone()),
        CHECKPOINT_ROWS,
    );
    let (built, _) = bench.checkpoint(&mut resumed, &control);
    assert_eq!(built, 5100);
    assert_eq!(bench.graph, 5100);
    assert_eq!(sha256_hex(&bench.read(&first_path)), first_digest);
    for ordinal in [0usize, 4999, 5099] {
        let mut expected = vec![0.0f32; 8];
        expected[ordinal % 8] = 1.0;
        assert_eq!(resumed.vector(ordinal).unwrap(), bits(&expected));
    }
    assert!(resumed.vector(5100).is_err());
}

#[test]
fn losing_process_memory_in_each_phase_resumes_the_last_complete_prefix() {
    let mut bench = Bench { input: input_file(5020), disk: Vec::new(), graph: 0 };
    let mut control = Control::default();
    control.begin(1);
    let mut first = Session::new("input.cpdvec".to_string(), None, None, 0);
    let (_, committed) = bench.checkpoint(&mut first, &control);
    let path = committed.checkpoint.unwrap();
    let checksum = committed.checksum.unwrap();
    for phase in [
        Phase::Flat,
        Phase::ReadCheckpoint,
        Phase::Restore,
        Phase::Build,
        Phase::Serialize,
        Phase::Write,
        Phase::ReadBack,
        Phase::VerifyRestore,
        Phase::Validate,
    ] {
        let reopen = || {
            Session::new(
                "input.cpdvec".to_string(),
                Some(path.clone()),
                Some(checksum.clone()),
                CHECKPOINT_ROWS,
            )
        };
        let mut interrupted = reopen();
        for _ in 0..1000 {
            if interrupted.phase == phase {
                break;
            }
            bench
                .step(&mut interrupted, &control, &mut AnnReply::blank(1))
                .unwrap();
        }
        assert_eq!(interrupted.phase, phase);
        bench.graph = 0;
        let mut recovered = reopen();
        assert_eq!(bench.checkpoint(&mut recovered, &control).0, 5020);
        assert_eq!(bench.graph, 5020, "{phase:?}");
        assert_eq!(sha256_hex(&bench.read(&path)), checksum);
    }
}

#[test]
fn interrupted_save_cannot_replace_a_complete_checkpoint_and_corruption_is_rejected() {
    let mut bench = Bench { input: input_file(5050), disk: Vec::new(), graph: 0 };
    let mut control = Control::default();
    control.begin(1);
    let mut session = Session::new("input.cpdvec".to_string(), None, None, 0);
    let (built, first) = bench.checkpoint(&mut session, &control);
    bench.step(&mut session, &control, &mut AnnReply::blank(1)).unwrap();
    bench.step(&mut session, &control, &mut AnnReply::blank(1)).unwrap();
    control.cancel(1);
    assert!(bench
        .step(&mut session, &control, &mut AnnReply::blank(1))
        .unwrap_err()
        .starts_with("background_paused:"));
    let path = first.checkpoint.clone().unwrap();
    assert_eq!(sha256_hex(&bench.read(&path)), first.checksum.clone().unwrap());
    bench.disk.push((path.clone(), b"incomplete checkpoint".to_vec()));
    let mut bad = Session::new("input.cpdvec".to_string(), first.checkpoint, first.checksum, built);
    control.begin(2);
    let mut failure = None;
    for _ in 0..100 {
        if let Err(error) = bench.step(&mut bad, &control, &mut AnnReply::blank(2)) {
            failure = Some(error);
            break;
        }
    }
    assert!(failure.unwrap().contains("checksum mismatch"));
}

#[test]
fn a_graph_that_does_not_fit_is_not_restored() {
    let mut bench = Bench { input: input_file(3), disk: Vec::new(), graph: 0 };
    bench.disk.push(("c".to_string(), vec![1, 2, 3]));
    let mut session = Session::new(
        "input.cpdvec".to_string(),
        Some("c".to_string()),
        Some(sha256_hex(&[1, 2, 3])),
        2,
    );
    let control = Control::default();
    bench.step(&mut session, &control, &mut AnnReply::blank(1)).unwrap();
    bench.step(&mut session, &control, &mut AnnReply::blank(1)).unwrap();
    assert_eq!(session.phase, Phase::Restore);
    assert!(session.restored(facts(1)).is_err());
    assert!(session.restored(facts(2)).is_ok());
}

#[test]
fn a_revoked_step_does_nothing_in_any_phase() {
    let mut session = Session::new("input.cpdvec".to_string(), None, None, 0);
    let mut control = Control::default();
    control.begin(7);
    assert_eq!(session.begin_step(&control).unwrap(), Phase::Flat);
    control.cancel(8);
    assert!(session.begin_step(&control).is_ok());
    control.cancel(7);
    for phase in [Phase::Flat, Phase::Build, Phase::Write, Phase::Validate] {
        session.phase = phase;
        assert_eq!(
            session.begin_step(&control).unwrap_err(),
            "background_paused: ANN request revoked"
        );
    }
}

#[test]
fn a_revoked_build_stops_also_behind_the_last_row() {
    let mut bench = Bench { input: input_file(2), disk: Vec::new(), graph: 0 };
    let mut control = Control::default();
    control.begin(1);
    let mut session = Session::new("input.cpdvec".to_string(), None, None, 0);
    bench.step(&mut session, &control, &mut AnnReply::blank(1)).unwrap();
    let mut reply = AnnReply::blank(1);
    session.row_inserted(10, 5, &mut reply);
    session.row_inserted(10, 5, &mut reply);
    assert_eq!(reply.samples.len(), 2);
    assert_eq!(session.next_row(2, false, &control), Ok(None));
    control.cancel(1);
    assert_eq!(session.next_row(1, true, &control), Ok(None));
    assert!(session.next_row(2, false, &control).is_err());
}

#[test]
fn what_fails_around_a_session_is_tried_again() {
    let mut bench = Bench { input: input_file(2), disk: Vec::new(), graph: 0 };
    let control = Control::default();
    let mut session = Session::new("input.cpdvec".to_string(), None, None, 0);
    let size = bench.input.len() as u64;
    bench.step(&mut session, &control, &mut AnnReply::blank(1)).unwrap();
    assert_eq!(session.phase, Phase::Build);
    session.graph_not_made();
    assert_eq!(session.phase, Phase::Flat);
    session.flat_chunk(&[], size).unwrap();
    assert_eq!(session.phase, Phase::Build);
    bench.step(&mut session, &control, &mut AnnReply::blank(1)).unwrap();
    bench.step(&mut session, &control, &mut AnnReply::blank(1)).unwrap();
    assert_eq!(session.phase, Phase::Write);
    assert!(session.writes_last_chunk());
    assert_eq!(session.next_chunk().len(), 8);
    session.sync_failed();
    assert_eq!(session.phase, Phase::Write);
    assert!(session.writes_last_chunk());
    assert!(session.next_chunk().is_empty());
    session.chunk_written();
    assert_eq!(session.phase, Phase::ReadBack);
    assert!(session.check_graph(facts(2)).is_ok());
    assert_eq!(
        session.check_graph(facts(1)).unwrap_err(),
        "ANN checkpoint contract mismatch"
    );
    assert!(session.vector(1).is_ok());
}

#[test]
fn requests_go_to_an_open_session() {
    let open = AnnRequest::Open {
        request_id: 4,
        protocol: 1,
        flat: "flat".to_string(),
        checkpoint: None,
        checksum: None,
        checkpoint_rows: 0,
    };
    assert_eq!(open.id(), 4);
    assert!(matches!(dispatch(open, false), Dispatch::Open { .. }));
}

#[test]
fn test_md5_hash_known() {
    assert_eq!(md5_hash(b"hello"), "5d41402abc4b2a76b9719d911017c592");
}

#[test]
fn test_md5_hash_empty() {
    assert_eq!(md5_hash(b""), "d41d8cd98f00b204e9800998ecf8427e");
}

#[test]
fn sha256_of_a_known_text() {
    assert_eq!(
        sha256_hex(b"abc"),
        "ba7816bf8f01cfea414140de5dae2223b00361a396177a9cb410ff61f20015ad"
    );
}
