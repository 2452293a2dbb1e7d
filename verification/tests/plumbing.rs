use qcm_backend::bus::{BusRouter, ConnectionCmd, EventBus, IoEvent, ReverseCmd};
use qcm_backend::convert::{QcmFrom, QcmInto, QcmTryFrom, QcmTryInto};
use qcm_backend::file_cache::{
    downloading_key, read_chunk_len, read_source, FileCache, ReadSource, READ_CHUNK,
};
use qcm_backend::io::ReadState;
use qcm_backend::media_key::{audio_key_text, hex_lower, image_key_text};

#[derive(Debug, PartialEq)]
struct Celsius(i32);
#[derive(Debug, PartialEq)]
struct Kelvin(i32);

impl QcmFrom<Celsius> for Kelvin {
    fn qcm_from(c: Celsius) -> Self {
        Kelvin(c.0 + 273)
    }
}

impl QcmTryFrom<i32> for Kelvin {
    type Error = String;
    fn qcm_try_from(v: i32) -> Result<Self, String> {
        if v >= 0 {
            Ok(Kelvin(v))
        } else {
            Err("below absolute zero".to_string())
        }
    }
}

#[test]
fn into_follows_from() {
    let k: Kelvin = Celsius(20).qcm_into();
    assert_eq!(k, Kelvin(293));
    let ok: Result<Kelvin, String> = 5.qcm_try_into();
    assert_eq!(ok, Ok(Kelvin(5)));
    let err: Result<Kelvin, String> = (-1).qcm_try_into();
    assert_eq!(err, Err("below absolute zero".to_string()));
}

type Ev = EventBus<&'static str, Vec<u8>, u32, u64>;

#[test]
fn bus_routes_events() {
    let mut r: BusRouter<&'static str> = BusRouter::new();
    let a = r.route::<Vec<u8>, u32, u64>(EventBus::RequestRead("k".to_string(), 1, 5, true));
    assert_eq!(a.io, Some(IoEvent::RequestRead("k".to_string(), 1, 5, true)));
    assert!(a.reverse.is_none() && a.connection.is_none());

    // bytes for a connection that is not open go nowhere
    let ev: Ev = EventBus::ReadedBuf(1, vec![1, 2], ReadState::End);
    assert!(r.route(ev).connection.is_none());

    let ev: Ev = EventBus::NewConnection(1, "tx1");
    let a = r.route(ev);
    assert!(a.io.is_none() && a.reverse.is_none() && a.connection.is_none());
    assert_eq!(r.active(), 1);
    assert_eq!(r.connection(1), Some(&"tx1"));

    let ev: Ev = EventBus::ReadedBuf(1, vec![1, 2], ReadState::Paused);
    match r.route(ev).connection {
        Some((1, ConnectionCmd::ReadedBuf(b, ReadState::Paused))) => assert_eq!(b, vec![1, 2]),
        _ => panic!("expected the buffer for connection 1"),
    }
    let ev: Ev = EventBus::NoRemoteFile(1);
    assert!(matches!(r.route(ev).connection, Some((1, ConnectionCmd::NoCache))));

    let ev: Ev = EventBus::NoCache(1);
    assert!(matches!(r.route(ev).reverse, Some(ReverseCmd::HasRemoteFile(1))));
    let ev: Ev = EventBus::NewRemoteFile(9);
    assert!(matches!(r.route(ev).reverse, Some(ReverseCmd::NewRemoteFile(9))));
    let ev: Ev = EventBus::FinishFile(8);
    assert!(matches!(r.route(ev).reverse, Some(ReverseCmd::FinishFile(8))));
    let ev: Ev = EventBus::DbFinishFile("k".to_string());
    assert_eq!(r.route(ev).io, Some(IoEvent::EndWrite("k".to_string())));
    let ev: Ev = EventBus::DoRead;
    assert_eq!(r.route(ev).io, Some(IoEvent::DoRead));
    let ev: Ev = EventBus::ReadContinue(1);
    assert_eq!(r.route(ev).io, Some(IoEvent::ReadContinue(1)));
    let ev: Ev = EventBus::EndRemoteFile(1);
    assert!(matches!(r.route(ev).reverse, Some(ReverseCmd::EndRemoteFile(1))));

    let ev: Ev = EventBus::EndConnection(1);
    let a = r.route(ev);
    assert_eq!(a.io, Some(IoEvent::EndConnection(1)));
    assert!(matches!(a.reverse, Some(ReverseCmd::EndConnection(1))));
    assert_eq!(r.active(), 0);
    let ev: Ev = EventBus::NoRemoteFile(1);
    assert!(r.route(ev).connection.is_none());
}

#[test]
fn bus_drops_a_failed_connection() {
    let mut r: BusRouter<&'static str> = BusRouter::new();
    let ev: Ev = EventBus::NewConnection(4, "tx");
    r.route(ev);
    r.drop_connection(4);
    assert_eq!(r.connection(4), None);
    assert_eq!(r.active(), 0);
}

#[test]
fn file_cache_evicts_the_oldest_when_full() {
    let mut c: FileCache<u32> = FileCache::new(2);
    c.insert("a".to_string(), 1);
    c.insert("b".to_string(), 2);
    assert_eq!(c.len(), 2);
    assert_eq!(c.find("b"), Some(1));
    c.evict_one();
    assert!(!c.contains_key("a"));
    assert!(c.contains_key("b"));
    c.insert("c".to_string(), 3);
    c.insert("c".to_string(), 4);
    assert_eq!(c.len(), 2);
    let i = c.find("c").unwrap();
    assert_eq!(*c.handle_mut(i), 4);
    *c.handle_mut(i) = 5;
    assert_eq!(*c.handle_mut(i), 5);
    c.remove("b");
    assert!(!c.contains_key("b"));
    assert_eq!(c.len(), 1);
    c.evict_one();
    assert_eq!(c.len(), 1);
    c.remove("zz");
    assert_eq!(c.len(), 1);
}

#[test]
fn reuse_or_make_room_before_opening() {
    let mut c: FileCache<u32> = FileCache::new(2);
    assert_eq!(c.reuse_or_make_room("a"), None);
    c.insert("a".to_string(), 1);
    assert_eq!(c.reuse_or_make_room("a"), Some(0));
    c.insert("b".to_string(), 2);
    // full: the oldest handle is closed before the new one is opened
    assert_eq!(c.reuse_or_make_room("c"), None);
    assert!(!c.contains_key("a") && c.contains_key("b"));
    assert_eq!(c.len(), 1);
}

#[test]
fn read_plan() {
    assert_eq!(downloading_key("abc_0"), "abc_0.dl");
    assert_eq!(read_source(true, true, true), ReadSource::DownloadHandle);
    assert_eq!(read_source(false, true, true), ReadSource::Finished);
    assert_eq!(read_source(false, false, true), ReadSource::Downloading);
    assert_eq!(read_source(false, false, false), ReadSource::NotFound);
    assert_eq!(read_chunk_len(10), 10);
    assert_eq!(read_chunk_len(READ_CHUNK), READ_CHUNK as usize);
    assert_eq!(read_chunk_len(u64::MAX), 65536);
}

#[test]
fn media_keys() {
    assert_eq!(image_key_text("12", Some("x"), "Primary"), "image12xPrimary");
    assert_eq!(image_key_text("12", None, "Primary"), "image12Primary");
    assert_eq!(audio_key_text("n1"), "audion1");
    assert_eq!(hex_lower(&[0x00, 0x0f, 0xa5, 0xff]), "000fa5ff");
    assert_eq!(hex_lower(&[]), "");
}
