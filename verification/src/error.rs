//! The errors of request processing, and how they are answered: the error
//! code a reply carries, and which errors an HTTP request answers with
//! `404 Not Found`.
//!
//! The errors of other crates are kept as their rendered text.
use vstd::prelude::*;
use vstd::string::StringExecFns;

use crate::text::string_push;

verus! {

#[derive(Debug, Clone, PartialEq)]
pub enum ProcessError {
    Internal(String),
    Encode(String),
    Decode(String),
    UnsupportedMessageType(i32),
    UnknownMessageType(i32),
    UnexpectedPayload(i32),
    MissingFields(String),
    NoSuchProviderType(String),
    Db(String),
    HyperBody(String),
    WrongId(String),
    NoSuchLibrary(String),
    NoSuchProvider(String),
    NoSuchAlbum(String),
    NoSuchSong(String),
    NoSuchArtist(String),
    NoSuchMix(String),
    NoSuchItemType(String),
    NoSuchImageType(String),
    UnsupportedItemType(String),
    NotFound,
    NotImplemented,
    /// Cannot happen: the error of a conversion that never fails.
    Infallible,
    /// No error.
    NoError,
}

/// The code of an error reply.
#[derive(Debug, Clone, Copy, PartialEq, Eq, Structural)]
pub enum ErrorCode {
    /// No error.
    Success,
    Internal,
    Encode,
    Decode,
    UnsupportedMessageType,
    UnknownMessageType,
    UnexpectedPayload,
    MissingFields,
    NoSuchProviderType,
    Db,
    WrongId,
    NoSuchLibrary,
    NoSuchProvider,
    NoSuchAlbum,
    NoSuchSong,
    NoSuchArtist,
    NoSuchMix,
    NoSuchItemType,
    NoSuchImageType,
    UnsupportedItemType,
    NotFound,
    HyperBody,
}

/// The code an error is replied with: each error has the code of its own
/// name, and `NoError` has the code of success. `NotImplemented` and `Infallible` have
/// none.
pub open spec fn code_of(e: ProcessError) -> Option<ErrorCode> {
    match e {
        ProcessError::Internal(_) => Some(ErrorCode::Internal),
        ProcessError::Encode(_) => Some(ErrorCode::Encode),
        ProcessError::Decode(_) => Some(ErrorCode::Decode),
        ProcessError::UnsupportedMessageType(_) => Some(ErrorCode::UnsupportedMessageType),
        ProcessError::UnknownMessageType(_) => Some(ErrorCode::UnknownMessageType),
        ProcessError::UnexpectedPayload(_) => Some(ErrorCode::UnexpectedPayload),
        ProcessError::MissingFields(_) => Some(ErrorCode::MissingFields),
        ProcessError::NoSuchProviderType(_) => Some(ErrorCode::NoSuchProviderType),
        ProcessError::Db(_) => Some(ErrorCode::Db),
        ProcessError::HyperBody(_) => Some(ErrorCode::HyperBody),
        ProcessError::WrongId(_) => Some(ErrorCode::WrongId),
        ProcessError::NoSuchLibrary(_) => Some(ErrorCode::NoSuchLibrary),
        ProcessError::NoSuchProvider(_) => Some(ErrorCode::NoSuchProvider),
        ProcessError::NoSuchAlbum(_) => Some(ErrorCode::NoSuchAlbum),
        ProcessError::NoSuchSong(_) => Some(ErrorCode::NoSuchSong),
        ProcessError::NoSuchArtist(_) => Some(ErrorCode::NoSuchArtist),
        ProcessError::NoSuchMix(_) => Some(ErrorCode::NoSuchMix),
        ProcessError::NoSuchItemType(_) => Some(ErrorCode::NoSuchItemType),
        ProcessError::NoSuchImageType(_) => Some(ErrorCode::NoSuchImageType),
        ProcessError::UnsupportedItemType(_) => Some(ErrorCode::UnsupportedItemType),
        ProcessError::NotFound => Some(ErrorCode::NotFound),
        ProcessError::NoError => Some(ErrorCode::Success),
        ProcessError::NotImplemented | ProcessError::Infallible => None,
    }
}

/// The errors an HTTP request answers with `404 Not Found`: what it asked
/// for does not exist. Any other error fails the request.
pub open spec fn not_found(e: ProcessError) -> bool {
    match e {
        ProcessError::NotFound | ProcessError::NoSuchAlbum(_) | ProcessError::NoSuchArtist(_)
        | ProcessError::NoSuchSong(_) | ProcessError::NoSuchMix(_) | ProcessError::NoSuchItemType(
            _,
        ) => true,
        _ => false,
    }
}

impl ProcessError {
    /// The error of a message no handler took: a type that has a handler
    /// (`handled`) came with a payload of another kind; any other type is
    /// not supported.
    pub fn not_dispatched(message_type: i32, handled: bool) -> (e: ProcessError)
        ensures
            e == if handled {
                ProcessError::UnexpectedPayload(message_type)
            } else {
                ProcessError::UnsupportedMessageType(message_type)
            },
    {
        if handled {
            ProcessError::UnexpectedPayload(message_type)
        } else {
            ProcessError::UnsupportedMessageType(message_type)
        }
    }

    /// The code of the reply to a failed request.
    pub fn error_code(&self) -> (c: ErrorCode)
        requires
            !(*self is Infallible) && !(*self is NotImplemented),
        ensures
            code_of(*self) == Some(c),
    {
        match self {
            ProcessError::Internal(_) => ErrorCode::Internal,
            ProcessError::Encode(_) => ErrorCode::Encode,
            ProcessError::Decode(_) => ErrorCode::Decode,
            ProcessError::UnsupportedMessageType(_) => ErrorCode::UnsupportedMessageType,
            ProcessError::UnknownMessageType(_) => ErrorCode::UnknownMessageType,
            ProcessError::UnexpectedPayload(_) => ErrorCode::UnexpectedPayload,
            ProcessError::MissingFields(_) => ErrorCode::MissingFields,
            ProcessError::NoSuchProviderType(_) => ErrorCode::NoSuchProviderType,
            ProcessError::Db(_) => ErrorCode::Db,
            ProcessError::HyperBody(_) => ErrorCode::HyperBody,
            ProcessError::WrongId(_) => ErrorCode::WrongId,
            ProcessError::NoSuchLibrary(_) => ErrorCode::NoSuchLibrary,
            ProcessError::NoSuchProvider(_) => ErrorCode::NoSuchProvider,
            ProcessError::NoSuchAlbum(_) => ErrorCode::NoSuchAlbum,
            ProcessError::NoSuchSong(_) => ErrorCode::NoSuchSong,
            ProcessError::NoSuchArtist(_) => ErrorCode::NoSuchArtist,
            ProcessError::NoSuchMix(_) => ErrorCode::NoSuchMix,
            ProcessError::NoSuchItemType(_) => ErrorCode::NoSuchItemType,
            ProcessError::NoSuchImageType(_) => ErrorCode::NoSuchImageType,
            ProcessError::UnsupportedItemType(_) => ErrorCode::UnsupportedItemType,
            ProcessError::NotFound => ErrorCode::NotFound,
            ProcessError::NoError => ErrorCode::Success,
            ProcessError::NotImplemented | ProcessError::Infallible => ErrorCode::Internal,
        }
    }

    /// Whether an HTTP request that failed with this error is answered with
    /// `404 Not Found`.
    pub fn is_not_found(&self) -> (b: bool)
        ensures
            b == not_found(*self),
    {
        match self {
            ProcessError::NotFound | ProcessError::NoSuchAlbum(_) | ProcessError::NoSuchArtist(_)
            | ProcessError::NoSuchSong(_) | ProcessError::NoSuchMix(_)
            | ProcessError::NoSuchItemType(_) => true,
            _ => false,
        }
    }
}

/// The answer to a test message: its data after `Echo: `.
pub open spec fn echo_of(data: Seq<char>) -> Seq<char> {
    seq!['E', 'c', 'h', 'o', ':', ' '] + data
}

pub fn echo(data: &str) -> (r: String)
    ensures
        r@ == echo_of(data@),
{
    let mut r = String::new();
    string_push(&mut r, 'E');
    string_push(&mut r, 'c');
    string_push(&mut r, 'h');
    string_push(&mut r, 'o');
    string_push(&mut r, ':');
    string_push(&mut r, ' ');
    r.append(data);
    proof {
        assert(r@ =~= echo_of(data@));
    }
    r
}

} // verus!
