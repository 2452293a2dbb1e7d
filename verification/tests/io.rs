use qcm_backend::connection::RemoteFileInfo;
use qcm_backend::io::{IoContext, PieceLookup, ReadState, READ_BUF_SIZE};
use qcm_backend::piece::Piece;
use std::path::PathBuf;

fn info(len: u64) -> RemoteFileInfo {
    RemoteFileInfo {
        content_type: "audio/mpeg".to_string(),
        content_length: len,
        accept_ranges: true,
        content_range: None,
    }
}

fn sorted(mut v: Vec<(i64, u64)>) -> Vec<(i64, u64)> {
    v.sort();
    v
}

#[test]
fn writers_are_shared_and_ended() {
    let mut c = IoContext::new();
    assert!(!c.has_writer("a"));
    assert!(!c.add_writer_ref("a"));
    c.insert_writer("a", PathBuf::from("a.dl"), 100, info(100));
    assert!(c.has_writer("a"));
    assert!(c.add_writer_ref("a"));
    c.end_writer("a");
    assert!(c.has_writer("a"));
    c.end_writer("a");
    assert!(!c.has_writer("a"));
    // ending an unknown writer changes nothing
    c.end_writer("a");
    assert!(!c.has_writer("a"));
}

#[test]
fn lookup_piece_goes_by_the_writer() {
    let mut c = IoContext::new();
    assert!(matches!(c.lookup_piece("a", 0), PieceLookup::NoWriter));
    c.insert_writer("a", PathBuf::from("a.dl"), 100, info(100));
    assert!(matches!(c.lookup_piece("a", 0), PieceLookup::Writing(None)));
    let out = c.record_write("a", 0, 40);
    assert!(out.known && out.write && out.finished.is_none());
    match c.lookup_piece("a", 10) {
        PieceLookup::Writing(Some(p)) => assert_eq!((p.offset, p.length), (0, 40)),
        _ => panic!("expected the written piece"),
    }
    assert!(matches!(c.lookup_piece("a", 40), PieceLookup::Writing(None)));
}

#[test]
fn writes_serve_waiters_and_finish_the_file() {
    let mut c = IoContext::new();
    c.insert_writer("a", PathBuf::from("a.dl"), 100, info(100));
    c.add_waiter(1, "a", 10);
    c.add_waiter(2, "a", 60);
    c.add_waiter(3, "b", 10);
    let out = c.record_write("a", 0, 50);
    assert!(out.known && out.write);
    assert_eq!(sorted(out.notify), vec![(1, 10)]);
    assert!(out.finished.is_none());
    // a repeated write is not written again, and serves nobody new
    let out = c.record_write("a", 0, 50);
    assert!(out.known && !out.write);
    assert_eq!(out.notify, vec![]);
    let out = c.record_write("a", 50, 50);
    assert!(out.write);
    assert_eq!(sorted(out.notify), vec![(2, 60)]);
    let fin = out.finished.expect("file complete");
    assert_eq!(fin.key, "a");
    assert_eq!(fin.meta.len, 100);
    assert!(!c.has_writer("a"));
    // writes to an unknown file do nothing
    let out = c.record_write("b", 0, 10);
    assert!(!out.known && !out.write && out.notify.is_empty() && out.finished.is_none());
}

#[test]
fn readers_read_in_buffers_and_pause() {
    let mut c = IoContext::new();
    let b = READ_BUF_SIZE;
    c.start_reader(7, "a", Piece { offset: 1000, length: 2 * b + 100 });
    assert_eq!(c.reading_ids(), vec![7]);
    assert_eq!(c.reading_count(), 1);
    assert_eq!(c.read_len(7), b);
    assert_eq!(c.finish_read(7, 1000), ReadState::Reading(1000));
    assert_eq!(c.read_len(7), b);
    // a full buffer since the last pause: pause, the piece shrinking by it
    assert_eq!(c.finish_read(7, b - 1000), ReadState::Paused);
    assert_eq!(c.reading_count(), 0);
    assert_eq!(c.readers_of("a"), vec![(7, 1000)]);
    assert!(c.set_reader_state(7, ReadState::Reading(0)));
    assert_eq!(c.read_len(7), b);
    assert_eq!(c.finish_read(7, b), ReadState::Paused);
    assert!(c.set_reader_state(7, ReadState::Reading(0)));
    assert_eq!(c.read_len(7), 100);
    assert_eq!(c.finish_read(7, 100), ReadState::End);
    assert!(!c.set_reader_state(8, ReadState::Paused));
    c.end(7);
    assert_eq!(c.reading_count(), 0);
    assert_eq!(c.readers_of("a"), vec![]);
}

#[test]
fn take_served_waiters_takes_only_those_in_range() {
    let mut c = IoContext::new();
    c.add_waiter(1, "a", 5);
    c.add_waiter(2, "a", 15);
    let got = c.take_served_waiters("a", 0, 10);
    assert_eq!(got, vec![(1, 5)]);
    assert_eq!(c.take_served_waiters("a", 0, 10), vec![]);
    assert_eq!(c.take_served_waiters("a", 15, 1), vec![(2, 15)]);
}

#[test]
fn a_cached_file_is_read_from_the_cursor_to_its_end() {
    let mut c = IoContext::new();
    let p = c.start_cached_reader(3, "a", 40, 100);
    assert_eq!((p.offset, p.length), (40, 60));
    assert_eq!(c.readers_of("a"), vec![(3, 40)]);
    assert_eq!(c.read_len(3), 60);
    let p = c.start_cached_reader(3, "b", 100, 100);
    assert_eq!(p.length, 0);
    assert_eq!(c.readers_of("a"), vec![]);
    assert_eq!(c.readers_of("b"), vec![(3, 100)]);
}

#[test]
fn read_requests_are_answered_once() {
    let mut c = IoContext::new();
    // no writer, no cache file: the connection waits
    assert_eq!(c.request_read(1, "a", 0, false, None).map(|p| p.offset), None);
    assert_eq!(c.take_served_waiters("a", 0, 1), vec![(1, 0)]);
    // no writer, a cache file of 50 bytes
    let p = c.request_read(1, "a", 20, false, Some(50)).unwrap();
    assert_eq!((p.offset, p.length), (20, 30));
    assert_eq!(c.readers_of("a"), vec![(1, 20)]);
    // a writer with bytes 0..40 written
    c.insert_writer("w", PathBuf::from("w.dl"), 100, info(100));
    c.record_write("w", 0, 40);
    let p = c.request_read(2, "w", 10, true, None).unwrap();
    assert_eq!((p.offset, p.length), (0, 40));
    // not opened: the connection waits
    assert!(c.request_read(3, "w", 10, false, None).is_none());
    // past what was written: the connection waits
    assert!(c.request_read(4, "w", 60, true, None).is_none());
    let mut served = c.record_write("w", 40, 30).notify;
    served.sort();
    assert_eq!(served, vec![(4, 60)]);
}
