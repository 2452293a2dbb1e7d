use qcm_backend::error::{echo, ErrorCode, ProcessError};
use qcm_backend::dispatch::{dispatch, QcmRequest};
use qcm_backend::http_route::{
    id_text, pick_image, ImageItem, ImageRow, ImageSource,
    check_audio_request, check_image_request, parse_id, route_get, split, GetRoute,
};

#[test]
fn split_like_str_split() {
    assert_eq!(split("/a//b", '/'), vec!["", "a", "", "b"]);
    assert_eq!(split("", '/'), vec![""]);
    assert_eq!(split("abc", '/'), vec!["abc"]);
}

#[test]
fn routes_images_and_audio() {
    assert_eq!(
        route_get("/image/album/12/cover"),
        GetRoute::Image {
            item_type: "album".to_string(),
            id: "12".to_string(),
            image_type: "cover".to_string()
        }
    );
    assert_eq!(
        route_get("/audio/song/5"),
        GetRoute::Audio { item_type: "song".to_string(), id: "5".to_string() }
    );
}

#[test]
fn other_paths_are_not_found() {
    assert_eq!(route_get("/image/album/12"), GetRoute::NotFound);
    assert_eq!(route_get("/audio/song/5/x"), GetRoute::NotFound);
    assert_eq!(route_get("/video/a/b"), GetRoute::NotFound);
    assert_eq!(route_get("/"), GetRoute::NotFound);
    assert_eq!(route_get(""), GetRoute::NotFound);
    assert_eq!(route_get("/audio/song/5/"), GetRoute::NotFound);
}

#[test]
fn parse_id_as_i64() {
    assert_eq!(parse_id("42"), Some(42));
    assert_eq!(parse_id("+42"), Some(42));
    assert_eq!(parse_id("-42"), Some(-42));
    assert_eq!(parse_id("007"), Some(7));
    assert_eq!(parse_id("9223372036854775807"), Some(i64::MAX));
    assert_eq!(parse_id("-9223372036854775808"), Some(i64::MIN));
    assert_eq!(parse_id("9223372036854775808"), None);
    assert_eq!(parse_id(""), None);
    assert_eq!(parse_id("-"), None);
    assert_eq!(parse_id("+"), None);
    assert_eq!(parse_id("1a"), None);
    assert_eq!(parse_id(" 1"), None);
    assert_eq!(parse_id("99999999999999999999999"), None);
    for s in ["0", "-0", "123456789", "-77"] {
        assert_eq!(parse_id(s), s.parse::<i64>().ok());
    }
}

#[test]
fn image_requests_are_checked_in_order() {
    assert_eq!(
        check_image_request("album", "x", "poster", Some(1u8), None::<u8>),
        Err(ProcessError::NoSuchImageType("poster".to_string()))
    );
    assert_eq!(
        check_image_request("thing", "x", "cover", None::<u8>, Some(2u8)),
        Err(ProcessError::NoSuchItemType("thing".to_string()))
    );
    assert_eq!(
        check_image_request("album", "x", "cover", Some(1u8), Some(2u8)),
        Err(ProcessError::WrongId("x".to_string()))
    );
    assert_eq!(check_image_request("album", "12", "cover", Some(1u8), Some(2u8)), Ok((1, 2, 12)));
}

#[test]
fn audio_requests_are_for_songs() {
    assert_eq!(
        check_audio_request("thing", "1", None),
        Err(ProcessError::NoSuchItemType("thing".to_string()))
    );
    assert_eq!(
        check_audio_request("album", "x", Some(false)),
        Err(ProcessError::UnsupportedItemType("album".to_string()))
    );
    assert_eq!(
        check_audio_request("song", "x", Some(true)),
        Err(ProcessError::WrongId("x".to_string()))
    );
    assert_eq!(check_audio_request("song", "-3", Some(true)), Ok(-3));
}

#[test]
fn errors_and_their_answers() {
    assert!(ProcessError::NoSuchSong("1".to_string()).is_not_found());
    assert!(ProcessError::NoSuchItemType("x".to_string()).is_not_found());
    assert!(ProcessError::NotFound.is_not_found());
    assert!(!ProcessError::WrongId("x".to_string()).is_not_found());
    assert!(!ProcessError::NoSuchImageType("x".to_string()).is_not_found());
    assert!(!ProcessError::NoSuchProvider("x".to_string()).is_not_found());
    assert_eq!(ProcessError::WrongId("x".to_string()).error_code(), ErrorCode::WrongId);
    assert_eq!(ProcessError::Db("e".to_string()).error_code(), ErrorCode::Db);
    assert_eq!(ProcessError::NoError.error_code(), ErrorCode::Success);
    assert_eq!(ProcessError::UnknownMessageType(7).error_code(), ErrorCode::UnknownMessageType);
}

#[test]
fn undispatched_messages_and_echo() {
    assert_eq!(ProcessError::not_dispatched(5, true), ProcessError::UnexpectedPayload(5));
    assert_eq!(ProcessError::not_dispatched(99, false), ProcessError::UnsupportedMessageType(99));
    assert_eq!(echo("ping"), "Echo: ping");
    assert_eq!(echo(""), "Echo: ");
}

#[test]
fn messages_go_to_the_handler_of_their_type() {
    assert_eq!(dispatch(3, Some(QcmRequest::GetAlbumReq), Some(QcmRequest::GetAlbumReq)), Ok(QcmRequest::GetAlbumReq));
    assert_eq!(dispatch(3, Some(QcmRequest::GetAlbumReq), Some(QcmRequest::TestReq)), Err(ProcessError::UnexpectedPayload(3)));
    assert_eq!(dispatch(3, Some(QcmRequest::GetAlbumReq), None), Err(ProcessError::UnexpectedPayload(3)));
    assert_eq!(dispatch(1, Some(QcmRequest::GetProviderMetasReq), None), Ok(QcmRequest::GetProviderMetasReq));
    assert_eq!(dispatch(77, None, Some(QcmRequest::TestReq)), Err(ProcessError::UnsupportedMessageType(77)));
    assert_eq!(dispatch(9, Some(QcmRequest::GetStorageInfoReq), None), Err(ProcessError::UnexpectedPayload(9)));
}

fn row(own: Option<&str>, album: Option<&str>) -> Option<ImageRow> {
    Some(ImageRow {
        native_id: "n1".to_string(),
        provider_id: 4,
        own_image: own.map(|s| s.to_string()),
        album_image: album.map(|s| s.to_string()),
    })
}

#[test]
fn images_prefer_the_items_own() {
    let src = |image: Option<&str>| {
        Ok(ImageSource { provider_id: 4, native_id: "n1".to_string(), image_id: image.map(|s| s.to_string()) })
    };
    assert_eq!(pick_image(ImageItem::Song, "Song", 1, row(Some("s"), Some("a"))), src(Some("s")));
    assert_eq!(pick_image(ImageItem::Song, "Song", 1, row(None, Some("a"))), src(Some("a")));
    assert_eq!(pick_image(ImageItem::Song, "Song", 1, row(None, None)), src(None));
    assert_eq!(pick_image(ImageItem::Album, "Album", 1, row(Some("x"), Some("a"))), src(Some("x")));
    assert_eq!(pick_image(ImageItem::Album, "Album", 1, row(None, Some("a"))), src(None));
    assert_eq!(pick_image(ImageItem::Artist, "Artist", 1, row(Some("r"), None)), src(Some("r")));
    assert_eq!(pick_image(ImageItem::Mix, "Mix", 1, row(Some("m"), None)), src(None));
    assert_eq!(
        pick_image(ImageItem::Song, "Song", -12, None),
        Err(ProcessError::NoSuchSong("-12".to_string()))
    );
    assert_eq!(
        pick_image(ImageItem::Mix, "Mix", 5, None),
        Err(ProcessError::NoSuchMix("5".to_string()))
    );
    assert_eq!(
        pick_image(ImageItem::Other, "Program", 5, row(None, None)),
        Err(ProcessError::UnsupportedItemType("Program".to_string()))
    );
}

#[test]
fn ids_in_decimal() {
    for v in [0i64, 7, -7, 10, 1234567890, i64::MAX, i64::MIN] {
        assert_eq!(id_text(v), v.to_string());
    }
}
