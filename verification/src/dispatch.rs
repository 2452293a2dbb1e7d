//! Which handler a request message goes to.
//!
//! A message carries its type (a number) and a payload of one kind. The
//! caller decodes the type into the request it names, where it names one
//! that the backend handles.
use vstd::prelude::*;

use crate::error::ProcessError;

verus! {

/// The requests the backend handles; also the kinds of their payloads.
#[derive(Debug, Clone, Copy, PartialEq, Eq, Structural)]
pub enum QcmRequest {
    GetProviderMetasReq,
    DeleteProviderReq,
    AuthProviderReq,
    AddProviderReq,
    ReplaceProviderReq,
    UpdateProviderReq,
    CreateTmpProviderReq,
    DeleteTmpProviderReq,
    QrAuthUrlReq,
    GetAlbumReq,
    GetAlbumsReq,
    GetAlbumArtistsReq,
    GetArtistsReq,
    GetArtistReq,
    GetMixsReq,
    GetRemoteMixsReq,
    GetMixReq,
    GetMixSongsReq,
    CreateMixReq,
    DeleteMixReq,
    LinkMixReq,
    MixManipulateReq,
    GetArtistAlbumReq,
    GetSubtitleReq,
    SearchReq,
    SetFavoriteReq,
    GetStorageInfoReq,
    PlaylogReq,
    SyncReq,
    TestReq,
}

/// The handler a message goes to: the one of its type, when the payload is
/// of that type (a request for the provider metas needs none); a handled
/// type with another payload, or none, is an unexpected payload; any other
/// type is not supported.
pub open spec fn dispatched(
    message_type: i32,
    known: Option<QcmRequest>,
    payload: Option<QcmRequest>,
) -> Result<QcmRequest, ProcessError> {
    match known {
        None => Err(ProcessError::UnsupportedMessageType(message_type)),
        Some(QcmRequest::GetProviderMetasReq) => Ok(QcmRequest::GetProviderMetasReq),
        Some(k) => if payload == Some(k) {
            Ok(k)
        } else {
            Err(ProcessError::UnexpectedPayload(message_type))
        },
    }
}

/// Dispatches a message of type `message_type`; `known` is the request
/// that type names, if the backend handles it, and `payload` the kind of
/// the payload, if there is one.
pub fn dispatch(message_type: i32, known: Option<QcmRequest>, payload: Option<QcmRequest>) -> (r:
    Result<QcmRequest, ProcessError>)
    ensures
        r == dispatched(message_type, known, payload),
{
    match known {
        None => Err(ProcessError::not_dispatched(message_type, false)),
        Some(QcmRequest::GetProviderMetasReq) => Ok(QcmRequest::GetProviderMetasReq),
        Some(k) => {
            let matches = match payload {
                Some(p) => p == k,
                None => false,
            };
            if matches {
                Ok(k)
            } else {
                Err(ProcessError::not_dispatched(message_type, true))
            }
        },
    }
}

} // verus!
