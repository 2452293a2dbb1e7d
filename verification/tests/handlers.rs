use qcm_backend::connection::{HttpContentRange, RemoteFileInfo};
use qcm_backend::connection_handler::{
    retry_backoff_secs, AttemptResult, BufAction, ConnectionHandler, ConnectionState,
};
use qcm_backend::io::ReadState;
use qcm_backend::reverse_handler::{remote_file_start, ReverseHandler, CONNECTION_ID_BOUND};

fn info(len: u64, range: Option<(u64, u64, u64)>) -> RemoteFileInfo {
    RemoteFileInfo {
        content_type: "audio/ogg".to_string(),
        content_length: len,
        accept_ranges: true,
        content_range: range.map(|(start, end, full)| HttpContentRange { start, end, full }),
    }
}

#[test]
fn full_length_prefers_the_content_range() {
    assert_eq!(info(10, None).full(), 10);
    assert_eq!(info(10, Some((90, 99, 100))).full(), 100);
    assert_eq!(remote_file_start(&info(10, Some((90, 99, 100)))), 90);
    assert_eq!(remote_file_start(&info(10, None)), 0);
}

#[test]
fn connection_serves_until_the_last_buffer() {
    let mut h = ConnectionHandler::new(3, info(0, None));
    assert_eq!(h.state, ConnectionState::Init);
    h.init();
    assert_eq!(h.state, ConnectionState::QueryingFileInfo);
    h.file_info_found(info(100, None), 40);
    assert_eq!((h.state, h.cursor, h.start), (ConnectionState::SendResponse, 40, 40));
    h.response_sent(true, false, true);
    assert_eq!(h.state, ConnectionState::WaitingForPiece);
    assert_eq!(h.on_readed_buf(10, ReadState::Reading(10)), BufAction::Nothing);
    assert_eq!((h.state, h.cursor), (ConnectionState::Serving(false), 50));
    h.served(true);
    assert_eq!(h.state, ConnectionState::WaitingForPiece);
    assert_eq!(h.on_readed_buf(10, ReadState::Paused), BufAction::ReadContinue);
    h.served(true);
    // the reader ended short of the requested end: read again
    assert_eq!(h.on_readed_buf(10, ReadState::End), BufAction::RequestRead);
    assert_eq!(h.state, ConnectionState::Serving(false));
    h.served(true);
    // the reader ended at the end: the last buffer
    assert_eq!(h.on_readed_buf(70, ReadState::End), BufAction::Nothing);
    assert_eq!((h.state, h.cursor), (ConnectionState::Serving(true), 140));
    assert!(h.keeps_polling());
    h.served(true);
    assert_eq!(h.state, ConnectionState::Finished);
    assert!(!h.keeps_polling());
    assert!(h.overflowed());
}

#[test]
fn a_failed_send_finishes_the_connection() {
    let mut h = ConnectionHandler::new(1, info(10, None));
    h.set_state(ConnectionState::Serving(false));
    h.served(false);
    assert_eq!(h.state, ConnectionState::Finished);
    h.set_state(ConnectionState::BusClosed);
    assert!(!h.keeps_polling());
    h.set_state(ConnectionState::Error);
    assert!(!h.keeps_polling());
}

#[test]
fn db_range_and_backoff() {
    let mut h = ConnectionHandler::new(1, info(10, None));
    h.file_info_found(info(10, None), 4);
    assert_eq!(h.db_range(10), Some((4, 10)));
    assert_eq!(h.db_range(4), None);
    h.response_sent(true, true, false);
    assert_eq!(h.state, ConnectionState::ServingFromDb);
    assert_eq!(retry_backoff_secs(1), 1);
    assert_eq!(retry_backoff_secs(2), 2);
}

#[test]
fn connection_ids_wrap() {
    let mut r: ReverseHandler<u8> = ReverseHandler::new();
    assert_eq!(r.next_connection_id(), 1);
    assert_eq!(r.next_connection_id(), 2);
    for _ in 2..CONNECTION_ID_BOUND - 1 {
        r.next_connection_id();
    }
    assert_eq!(r.next_connection_id(), 0);
    assert_eq!(r.next_connection_id(), 1);
}

#[test]
fn remote_file_tasks() {
    let mut r: ReverseHandler<u8> = ReverseHandler::new();
    r.add_remote_file(1, "a".to_string(), &info(10, None), 0, 100);
    r.add_remote_file(2, "b".to_string(), &info(10, None), 0, 200);
    r.add_remote_file(3, "a".to_string(), &info(10, None), 0, 300);
    assert!(r.has_remote_file(1));
    let mut c = r.cancel_task_by_key("a");
    c.sort();
    assert_eq!(c, vec![100, 300]);
    assert!(!r.has_remote_file(1) && !r.has_remote_file(3) && r.has_remote_file(2));
    assert_eq!(r.remove_task(2, false), None);
    assert!(!r.has_remote_file(2));
    r.add_remote_file(4, "c".to_string(), &info(10, None), 0, 400);
    assert_eq!(r.remove_task(4, true), Some(400));
    assert_eq!(r.remove_task(4, true), None);
    assert_eq!(r.cancel_task_by_key("zzz"), vec![]);
}

#[test]
fn finishing_a_file_records_it_and_cancels_its_downloads() {
    let mut r: ReverseHandler<u8> = ReverseHandler::new();
    r.add_remote_file(1, "a".to_string(), &info(10, None), 0, 100);
    r.add_remote_file(2, "b".to_string(), &info(10, None), 0, 200);
    let f = r.finish_file("a".to_string(), 7u8, &info(10, Some((5, 9, 40))));
    assert_eq!(f.row.key, "a");
    assert_eq!(f.row.cache_type, 7);
    assert_eq!(f.row.content_length, 40);
    assert_eq!(f.row.content_type, "audio/ogg");
    assert_eq!(f.cancel, vec![100]);
    assert_eq!(f.done, "a");
    assert!(!r.has_remote_file(1) && r.has_remote_file(2));
}

#[test]
fn responses_and_remote_attempts() {
    let mut h = ConnectionHandler::new(1, info(10, None));
    h.response_sent(false, false, true);
    assert_eq!(h.state, ConnectionState::Finished);
    h.response_sent(true, false, false);
    assert_eq!(h.state, ConnectionState::BusClosed);
    assert_eq!(h.remote_attempt(1, AttemptResult::Failed), Some(1));
    assert_eq!(h.state, ConnectionState::Error);
    assert_eq!(h.remote_attempt(2, AttemptResult::Failed), Some(2));
    assert_eq!(h.remote_attempt(3, AttemptResult::Failed), None);
    assert_eq!(h.state, ConnectionState::Error);
    assert!(!h.keeps_polling());
    assert_eq!(h.remote_attempt(2, AttemptResult::Sent), None);
    assert_eq!(h.state, ConnectionState::WaitingForPiece);
    assert_eq!(h.remote_attempt(1, AttemptResult::BusClosed), None);
    assert_eq!(h.state, ConnectionState::Finished);
    h.bus_closed();
    assert_eq!(h.state, ConnectionState::BusClosed);
}
