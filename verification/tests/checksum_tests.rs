use lethe_manifest::{calculate_checksum, calculate_checksum_while, ChunkSink, NoopSink};

/// A sink that records every chunk it is handed.
struct CollectSink {
    chunks: Vec<Vec<u8>>,
}

impl ChunkSink for CollectSink {
    fn accept(&mut self, chunk: &[u8]) -> Result<(), ()> {
        self.chunks.push(chunk.to_vec());
        Ok(())
    }
}

/// A sink that rejects every chunk.
struct RejectSink;

impl ChunkSink for RejectSink {
    fn accept(&mut self, _chunk: &[u8]) -> Result<(), ()> {
        Err(())
    }
}

const EMPTY_SHA1: &str = "DA39A3EE5E6B4B0D3255BFEF95601890AFD80709";

#[test]
fn empty_input_digest_is_fixed_and_deterministic() {
    let first = calculate_checksum(&[]);
    let second = calculate_checksum(&[]);
    assert_eq!(first, second);
    assert_eq!(first, EMPTY_SHA1);
}

#[test]
fn known_digest_of_abc() {
    let digest = calculate_checksum(b"abc");
    assert_eq!(digest, "A9993E364706816ABA3E25717850C26C9CD0D89D");
}

#[test]
fn digest_is_forty_uppercase_hex_characters() {
    let digest = calculate_checksum(b"some bytes");
    assert_eq!(digest.len(), 40);
    assert!(digest.chars().all(|c| c.is_ascii_digit() || (c >= 'A' && c <= 'F')));
}

#[test]
fn sink_receives_all_chunks_and_a_terminal_empty_chunk() {
    let data: Vec<u8> = (0..10000u32).map(|i| (i % 251) as u8).collect();
    let mut sink = CollectSink { chunks: Vec::new() };
    let digest = calculate_checksum_while(&data, &mut sink).expect("sink accepts");
    assert_eq!(digest, calculate_checksum(&data));
    assert_eq!(sink.chunks.len(), 3);
    assert_eq!(sink.chunks[0].len(), 8192);
    assert_eq!(sink.chunks[1].len(), 10000 - 8192);
    assert_eq!(sink.chunks[2].len(), 0);
    let rebuilt: Vec<u8> = sink.chunks.concat();
    assert_eq!(rebuilt, data);
}

#[test]
fn a_source_of_exactly_one_chunk_sends_one_chunk() {
    let data = vec![7u8; 8192];
    let mut sink = CollectSink { chunks: Vec::new() };
    let digest = calculate_checksum_while(&data, &mut sink).expect("sink accepts");
    assert_eq!(digest, calculate_checksum(&data));
    assert_eq!(sink.chunks.len(), 2);
    assert_eq!(sink.chunks[0].len(), 8192);
    assert_eq!(sink.chunks[1].len(), 0);
}

#[test]
fn empty_source_still_sends_the_terminal_chunk() {
    let mut sink = CollectSink { chunks: Vec::new() };
    let digest = calculate_checksum_while(&[], &mut sink).expect("sink accepts");
    assert_eq!(digest, EMPTY_SHA1);
    assert_eq!(sink.chunks.len(), 1);
    assert!(sink.chunks[0].is_empty());
}

#[test]
fn rejecting_sink_aborts_the_pass() {
    let mut sink = RejectSink;
    assert!(calculate_checksum_while(b"abc", &mut sink).is_err());
}

#[test]
fn noop_sink_changes_nothing() {
    let mut sink = NoopSink;
    let digest = calculate_checksum_while(b"abc", &mut sink).expect("no-op sink accepts");
    assert_eq!(digest, "A9993E364706816ABA3E25717850C26C9CD0D89D");
}
