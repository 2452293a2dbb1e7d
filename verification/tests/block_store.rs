use qcm_backend::block_store::{
    block_count, block_dir, block_index, block_key, block_offset, block_path,
    block_path_downloading, BlockPath, BlockState, BlockStore, Readable, SourceMeta, BLOCK_SIZE,
};
use qcm_backend::source_actor::{finish_filled_block, finish_last_block, start_first_block};
use qcm_backend::connection::{HttpContentRange, RemoteFileInfo};
use std::path::{Path, PathBuf};

#[test]
fn block_arithmetic() {
    assert_eq!(BLOCK_SIZE, 8 * 1024 * 1024);
    assert_eq!(block_index(0), 0);
    assert_eq!(block_index(BLOCK_SIZE - 1), 0);
    assert_eq!(block_index(BLOCK_SIZE), 1);
    assert_eq!(block_offset(3), 3 * BLOCK_SIZE);
    assert_eq!(block_count(0), 0);
    assert_eq!(block_count(1), 1);
    assert_eq!(block_count(BLOCK_SIZE), 1);
    assert_eq!(block_count(BLOCK_SIZE + 1), 2);
}

#[test]
fn block_key_is_source_key_and_index() {
    assert_eq!(block_key("abc", 0), "abc_0");
    assert_eq!(block_key("abc", 1234567), "abc_1234567");
    assert_eq!(block_key("", 4294967295), "_4294967295");
}

#[test]
fn block_dir_takes_two_bytes_or_00() {
    assert_eq!(block_dir("abcdef"), "ab");
    assert_eq!(block_dir("a"), "00");
    assert_eq!(block_dir(""), "00");
    // a two-byte character is the first two bytes
    assert_eq!(block_dir("éx"), "é");
    // a three-byte character does not end at byte 2
    assert_eq!(block_dir("中国"), "00");
    // one ASCII byte then a multi-byte character: byte 2 is inside it
    assert_eq!(block_dir("aé"), "00");
}

fn joined(dir: &Path, p: &BlockPath) -> PathBuf {
    let path = dir.join(&p.dir).join(&p.file);
    match &p.extension {
        Some(e) => path.with_extension(e),
        None => path,
    }
}

#[test]
fn block_paths() {
    let dir = Path::new("/cache");
    let p = block_path("abcd_1");
    assert_eq!(p, BlockPath { dir: "ab".to_string(), file: "abcd_1".to_string(), extension: None });
    assert_eq!(joined(dir, &p), PathBuf::from("/cache/ab/abcd_1"));
    let d = block_path_downloading("abcd_1");
    assert_eq!(d.extension, Some("downloading".to_string()));
    assert_eq!(joined(dir, &d), PathBuf::from("/cache/ab/abcd_1.downloading"));
    assert_eq!(joined(Path::new("/c"), &block_path("a")), PathBuf::from("/c/00/a"));
    assert_eq!(joined(Path::new("/c"), &block_path("中x")), PathBuf::from("/c/00/中x"));
}

fn info(len: u64, range: Option<(u64, u64, u64)>) -> RemoteFileInfo {
    RemoteFileInfo {
        content_type: "audio/flac".to_string(),
        content_length: len,
        accept_ranges: true,
        content_range: range.map(|(start, end, full)| HttpContentRange { start, end, full }),
    }
}

#[test]
fn source_meta_uses_the_full_length() {
    let m = SourceMeta::from_remote_info(&info(100, Some((50, 149, 3 * BLOCK_SIZE + 1))));
    assert_eq!(m.content_length, 3 * BLOCK_SIZE + 1);
    assert_eq!(m.block_count, 4);
    assert_eq!(m.content_type, "audio/flac");
    let m = SourceMeta::from_remote_info(&info(100, None));
    assert_eq!(m.content_length, 100);
    assert_eq!(m.block_count, 1);
}

#[test]
fn block_states() {
    let mut s: BlockStore<u32> = BlockStore::new(PathBuf::from("/cache"));
    assert_eq!(s.memory_block_state("k_0"), None);
    assert_eq!(s.readable_at("k_0", 0), Readable::Missing);
    assert!(!s.begin_fetch("k_0"));
    assert!(s.begin_fetch("k_0"));
    assert_eq!(s.memory_block_state("k_0"), Some(BlockState::Fetching { written: 0 }));
    assert_eq!(s.readable_at("k_0", 0), Readable::Wait);
    assert!(s.write_block_data("k_0", 0, 100));
    assert_eq!(s.readable_bytes("k_0"), 100);
    assert_eq!(s.readable_at("k_0", 99), Readable::Ready);
    assert_eq!(s.readable_at("k_0", 100), Readable::Wait);
    // an earlier write does not shrink what is readable
    assert!(s.write_block_data("k_0", 10, 20));
    assert_eq!(s.readable_bytes("k_0"), 100);
    let f = s.finish_block("k_0", "k", 0, BLOCK_SIZE as i64);
    assert!(f.notify);
    assert_eq!(f.rename_from, block_path_downloading("k_0"));
    assert_eq!(f.rename_to, block_path("k_0"));
    assert_eq!((f.row.key.as_str(), f.row.source_key.as_str()), ("k_0", "k"));
    assert_eq!((f.row.block_index, f.row.block_size), (0, BLOCK_SIZE as i64));
    assert_eq!(s.readable_bytes("k_0"), BLOCK_SIZE);
    assert!(!s.finish_block("k_0", "k", 0, BLOCK_SIZE as i64).notify);
    // writes to a block that is not being fetched change nothing
    assert!(!s.write_block_data("k_0", 0, 5));
    assert!(!s.write_block_data("k_1", 0, 5));
    assert_eq!(s.memory_block_state("k_1"), None);
}

#[test]
fn source_meta_and_actors() {
    let mut s: BlockStore<u32> = BlockStore::new(PathBuf::from("/cache"));
    assert!(s.get_source_meta("k").is_none());
    s.set_source_meta("k", SourceMeta::from_remote_info(&info(10, None)));
    assert_eq!(s.get_source_meta("k").unwrap().content_length, 10);
    assert!(s.needs_source_actor("k"));
    s.set_source_actor("k", 7);
    assert!(s.has_source_actor("k"));
    assert!(!s.needs_source_actor("k"));
    s.remove_source_actor("k");
    assert!(!s.has_source_actor("k"));
    assert_eq!(s.cache_dir(), &PathBuf::from("/cache"));
}

#[test]
fn block_state_falls_back_to_the_database() {
    let mut s: BlockStore<u32> = BlockStore::new(PathBuf::from("/cache"));
    assert_eq!(s.block_state("k_0", false), None);
    assert_eq!(s.memory_block_state("k_0"), None);
    assert_eq!(s.block_state("k_0", true), Some(BlockState::Cached));
    assert_eq!(s.memory_block_state("k_0"), Some(BlockState::Cached));
    s.begin_fetch("k_1");
    assert_eq!(s.block_state("k_1", true), Some(BlockState::Fetching { written: 0 }));
}

#[test]
fn a_full_block_is_finished_and_the_next_started() {
    let mut s: BlockStore<u32> = BlockStore::new(PathBuf::from("/cache"));
    assert_eq!(start_first_block(&mut s, "src", 3), "src_3");
    assert_eq!(s.memory_block_state("src_3"), Some(BlockState::Fetching { written: 0 }));
    let (f, next) = finish_filled_block(&mut s, "src", 3);
    assert!(f.notify);
    assert_eq!(f.row.block_index, 3);
    assert_eq!(f.row.block_size, BLOCK_SIZE as i64);
    assert_eq!(f.rename_to, block_path("src_3"));
    assert_eq!(next, "src_4");
    assert_eq!(s.memory_block_state("src_3"), Some(BlockState::Cached));
    assert_eq!(s.memory_block_state("src_4"), Some(BlockState::Fetching { written: 0 }));
    assert!(finish_last_block(&mut s, "src", 4, 0).is_none());
    assert_eq!(s.memory_block_state("src_4"), Some(BlockState::Fetching { written: 0 }));
    let f = finish_last_block(&mut s, "src", 4, 10).unwrap();
    assert_eq!((f.row.block_index, f.row.block_size), (4, 10));
    assert_eq!(s.memory_block_state("src_4"), Some(BlockState::Cached));
}

#[test]
fn source_row_of_a_finished_source() {
    let s: BlockStore<u32> = BlockStore::new(PathBuf::from("/cache"));
    let m = SourceMeta::from_remote_info(&info(2 * BLOCK_SIZE + 3, None));
    let r = s.finish_source("src", 'a', &m);
    assert_eq!(r.key, "src");
    assert_eq!(r.cache_type, 'a');
    assert_eq!(r.content_type, "audio/flac");
    assert_eq!(r.content_length, (2 * BLOCK_SIZE + 3) as i64);
    assert_eq!(r.block_count, 3);
}
