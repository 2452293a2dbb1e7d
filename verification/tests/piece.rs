use qcm_backend::piece::{FileMeta, Piece};
use std::collections::BTreeMap;
use std::path::PathBuf;

fn meta(len: u64, pieces: &[(u64, u64)]) -> FileMeta {
    let mut m = BTreeMap::new();
    for &(o, l) in pieces {
        m.insert(o, Piece { offset: o, length: l });
    }
    FileMeta { path: PathBuf::from("f"), len, pieces: m }
}

fn pieces(m: &FileMeta) -> Vec<(u64, u64)> {
    m.pieces.values().map(|p| (p.offset, p.length)).collect()
}

#[test]
fn combine_into_empty_adds_the_piece() {
    let mut m = meta(100, &[]);
    m.combine(Piece { offset: 10, length: 5 });
    assert_eq!(pieces(&m), vec![(10, 5)]);
}

#[test]
fn combine_merges_left_and_right_neighbours() {
    let mut m = meta(100, &[(0, 10), (20, 5)]);
    m.combine(Piece { offset: 10, length: 10 });
    assert_eq!(pieces(&m), vec![(0, 25)]);
}

#[test]
fn combine_keeps_a_gap() {
    let mut m = meta(100, &[(0, 10)]);
    m.combine(Piece { offset: 11, length: 4 });
    assert_eq!(pieces(&m), vec![(0, 10), (11, 4)]);
}

#[test]
fn longest_piece_finds_the_piece_holding_start() {
    let m = meta(100, &[(0, 10), (20, 10)]);
    let p = m.longest_piece(25).unwrap();
    assert_eq!((p.offset, p.length), (20, 10));
    let p = m.longest_piece(0).unwrap();
    assert_eq!((p.offset, p.length), (0, 10));
}

#[test]
fn longest_piece_none_in_a_gap_or_before_all() {
    let m = meta(100, &[(5, 5), (20, 10)]);
    assert!(m.longest_piece(10).is_none());
    assert!(m.longest_piece(2).is_none());
    assert!(m.longest_piece(30).is_none());
}

#[test]
fn is_end_only_for_one_full_piece() {
    assert!(meta(10, &[(0, 10)]).is_end());
    assert!(!meta(10, &[(0, 9)]).is_end());
    assert!(!meta(10, &[(0, 5), (5, 5)]).is_end());
    assert!(!meta(10, &[]).is_end());
}

#[test]
fn writes_in_any_order_complete_the_file() {
    let mut m = meta(30, &[]);
    m.combine(Piece { offset: 20, length: 10 });
    m.combine(Piece { offset: 0, length: 10 });
    assert!(!m.is_end());
    m.combine(Piece { offset: 10, length: 10 });
    assert!(m.is_end());
}

#[test]
fn overlaps_detects_shared_bytes() {
    let m = meta(100, &[(10, 10)]);
    assert!(m.overlaps(&Piece { offset: 15, length: 10 }));
    assert!(m.overlaps(&Piece { offset: 0, length: 11 }));
    assert!(!m.overlaps(&Piece { offset: 20, length: 5 }));
    assert!(!m.overlaps(&Piece { offset: 0, length: 10 }));
}
