use divvunspell::transducer::index_table::{IndexTable, SerializeError};
use divvunspell::transducer::transition_table::TransitionTable;

const NO_SYM: u16 = 0xFFFF;
const NO_TGT: u32 = 0xFFFF_FFFF;

fn index_record(sym: u16, tgt: u32) -> Vec<u8> {
    let mut r = Vec::new();
    r.extend_from_slice(&sym.to_le_bytes());
    r.extend_from_slice(&0u16.to_le_bytes());
    r.extend_from_slice(&tgt.to_le_bytes());
    r
}

fn index_table(records: &[(u16, u32)]) -> IndexTable {
    let mut buf = Vec::new();
    for &(sym, tgt) in records {
        buf.extend_from_slice(&index_record(sym, tgt));
    }
    let len = buf.len();
    IndexTable::new(buf, 0, len, records.len() as u32)
}

fn trans_record(input: u16, output: u16, tgt: u32, weight: u32) -> Vec<u8> {
    let mut r = Vec::new();
    r.extend_from_slice(&input.to_le_bytes());
    r.extend_from_slice(&output.to_le_bytes());
    r.extend_from_slice(&tgt.to_le_bytes());
    r.extend_from_slice(&weight.to_le_bytes());
    r
}

fn transition_table(records: &[(u16, u16, u32, u32)]) -> TransitionTable {
    let mut buf = Vec::new();
    for &(i, o, t, w) in records {
        buf.extend_from_slice(&trans_record(i, o, t, w));
    }
    let len = buf.len();
    TransitionTable::new(buf, 0, len, records.len() as u32)
}

#[test]
fn index_table_reads_fields() {
    let t = index_table(&[(7, 42), (NO_SYM, 3), (5, NO_TGT), (NO_SYM, NO_TGT)]);
    assert_eq!(t.input_symbol(0), Some(7));
    assert_eq!(t.target(0), Some(42));
    assert_eq!(t.input_symbol(1), None);
    assert_eq!(t.target(1), Some(3));
    assert_eq!(t.input_symbol(2), Some(5));
    assert_eq!(t.target(2), None);
    assert_eq!(t.input_symbol(3), None);
    assert_eq!(t.target(3), None);
}

#[test]
fn out_of_range_reads_are_absent() {
    let t = index_table(&[(7, 42), (NO_SYM, 3)]);
    for i in [2u32, 3, 100, u32::MAX] {
        assert_eq!(t.input_symbol(i), None);
        assert_eq!(t.target(i), None);
        assert_eq!(t.final_weight(i), None);
        assert!(!t.is_final(i));
    }
}

#[test]
fn is_final_iff_no_symbol_and_some_target() {
    let t = index_table(&[(7, 42), (NO_SYM, 3), (5, NO_TGT), (NO_SYM, NO_TGT), (NO_SYM, 0)]);
    for i in 0..5u32 {
        let expected = t.input_symbol(i).is_none() && t.target(i).is_some();
        assert_eq!(t.is_final(i), expected);
    }
    assert!(!t.is_final(0));
    assert!(t.is_final(1));
    assert!(!t.is_final(2));
    assert!(!t.is_final(3));
    // A final record whose weight slot holds all-zero bits is still final:
    // weight zero is distinct from the "no target" sentinel.
    assert!(t.is_final(4));
    assert_eq!(t.final_weight(4), Some(0));
}

#[test]
fn final_weight_reads_target_slot_raw() {
    let t = index_table(&[(NO_SYM, 0x3F80_0000)]);
    assert!(t.is_final(0));
    assert_eq!(t.final_weight(0), Some(0x3F80_0000));
}

#[test]
fn serialize_rejects_unaligned_chunk_size() {
    let t = index_table(&[(7, 42), (NO_SYM, 3)]);
    assert_eq!(t.serialize(7), Err(SerializeError::ChunkSizeNotRecordAligned));
    assert_eq!(t.serialize(12), Err(SerializeError::ChunkSizeNotRecordAligned));
    assert!(t.serialize(16).is_ok());
}

#[test]
fn serialize_round_trips_every_record() {
    let records = [(7u16, 42u32), (NO_SYM, 3), (5, NO_TGT), (NO_SYM, NO_TGT), (1, 2)];
    let t = index_table(&records);
    let chunks = t.serialize(8).expect("aligned chunk size");
    assert_eq!(chunks.len(), 5);
    for (i, chunk) in chunks.iter().enumerate() {
        assert_eq!(chunk.len(), 8);
        let sym = u16::from_le_bytes([chunk[0], chunk[1]]);
        let pad = u16::from_le_bytes([chunk[2], chunk[3]]);
        let tgt = u32::from_le_bytes([chunk[4], chunk[5], chunk[6], chunk[7]]);
        assert_eq!(pad, 0);
        assert_eq!(sym, t.input_symbol(i as u32).unwrap_or(NO_SYM));
        assert_eq!(tgt, t.target(i as u32).unwrap_or(NO_TGT));
    }
}

#[test]
fn serialize_chunk_boundaries_never_split_records() {
    let records = [(1u16, 10u32), (2, 20), (3, 30), (4, 40), (5, 50)];
    let t = index_table(&records);
    let chunks = t.serialize(16).expect("aligned chunk size");
    // Five records at two per chunk: two full chunks and a short final one.
    assert_eq!(chunks.len(), 3);
    assert_eq!(chunks[0].len(), 16);
    assert_eq!(chunks[1].len(), 16);
    assert_eq!(chunks[2].len(), 8);
    let mut flat = Vec::new();
    for c in &chunks {
        flat.extend_from_slice(c);
    }
    for (i, &(sym, tgt)) in records.iter().enumerate() {
        let p = i * 8;
        assert_eq!(u16::from_le_bytes([flat[p], flat[p + 1]]), sym);
        assert_eq!(
            u32::from_le_bytes([flat[p + 4], flat[p + 5], flat[p + 6], flat[p + 7]]),
            tgt
        );
    }
}

#[test]
fn table_rebuilt_from_chunks_reads_identically() {
    let records = [(7u16, 42u32), (NO_SYM, 3), (5, NO_TGT), (NO_SYM, NO_TGT), (1, 2)];
    let t = index_table(&records);
    let chunks = t.serialize(16).expect("aligned chunk size");
    let u = IndexTable::from_chunks(&chunks, 5).expect("exact record count");
    for i in 0..7u32 {
        assert_eq!(u.input_symbol(i), t.input_symbol(i));
        assert_eq!(u.target(i), t.target(i));
        assert_eq!(u.final_weight(i), t.final_weight(i));
        assert_eq!(u.is_final(i), t.is_final(i));
    }
    // A wrong record count is refused.
    assert!(IndexTable::from_chunks(&chunks, 4).is_none());
}

#[test]
fn transition_table_reads_fields() {
    let t = transition_table(&[
        (1, 2, 9, 100),
        (NO_SYM, NO_SYM, NO_TGT, 0),
        (NO_SYM, 0, 4, 250),
    ]);
    assert_eq!(t.input_symbol(0), Some(1));
    assert_eq!(t.output_symbol(0), Some(2));
    assert_eq!(t.target(0), Some(9));
    assert_eq!(t.weight(0), Some(100));
    assert!(!t.is_final(0));
    assert!(!t.is_final(1));
    assert!(t.is_final(2));
    assert_eq!(t.weight(2), Some(250));
    for i in [3u32, 50, u32::MAX] {
        assert_eq!(t.input_symbol(i), None);
        assert_eq!(t.target(i), None);
        assert_eq!(t.weight(i), None);
        assert!(!t.is_final(i));
    }
}
