//! The state machine of one proxied connection: what it does next after each
//! step, and how far it has streamed. The caller performs each step's work
//! (database lookups, remote requests, sending bytes) and reports back.
use vstd::prelude::*;

use crate::connection::{full_length, RemoteFileInfo};
use crate::io::ReadState;

verus! {

/// Where a connection stands.
#[derive(Debug, Clone, Copy, PartialEq, Eq, Structural)]
pub enum ConnectionState {
    Init,
    QueryingFileInfo,
    SendResponse,
    WaitingForPiece,
    QueryRemoteFile,
    /// Sending bytes; `true` when they are the last.
    Serving(bool),
    ServingFromDb,
    BusClosed,
    Finished,
    Error,
}

/// How a remote request attempt went.
#[derive(Debug, Clone, Copy, PartialEq, Eq, Structural)]
pub enum AttemptResult {
    /// The response came, and the bus took the new download.
    Sent,
    /// The response came, but the bus was closed.
    BusClosed,
    /// The request failed.
    Failed,
}

/// What to ask the event bus for after a buffer arrived.
#[derive(Debug, Clone, Copy, PartialEq, Eq, Structural)]
pub enum BufAction {
    /// Nothing: the reader goes on by itself.
    Nothing,
    /// Let the paused reader continue.
    ReadContinue,
    /// Ask for a new read from the cursor.
    RequestRead,
}

pub struct ConnectionHandler {
    pub state: ConnectionState,
    pub id: i64,
    pub file_info: RemoteFileInfo,
    pub cursor: u64,
    pub start: u64,
}

/// The step after a buffer of `len` bytes arrived in `read_state`: the
/// connection then serves it, as the last buffer when the reader ended and
/// the cursor reached `start + content_length`; a paused reader is told to
/// continue, and an ended reader short of that point is asked to read again.
pub open spec fn buf_step(start: u64, content_length: u64, cursor: u64, read_state: ReadState) -> (
    BufAction,
    ConnectionState,
) {
    match read_state {
        ReadState::Paused => (BufAction::ReadContinue, ConnectionState::Serving(false)),
        ReadState::End => if start + content_length > cursor {
            (BufAction::RequestRead, ConnectionState::Serving(false))
        } else {
            (BufAction::Nothing, ConnectionState::Serving(true))
        },
        ReadState::Reading(_) => (BufAction::Nothing, ConnectionState::Serving(false)),
    }
}

impl ConnectionHandler {
    pub fn new(id: i64, file_info: RemoteFileInfo) -> (h: Self)
        ensures
            h.state == ConnectionState::Init,
            h.id == id,
            h.file_info == file_info,
            h.cursor == 0,
            h.start == 0,
    {
        ConnectionHandler { state: ConnectionState::Init, id, file_info, cursor: 0, start: 0 }
    }

    /// `Init`: the cursor and start are reset and the file info is looked up.
    pub fn init(&mut self)
        ensures
            final(self).state == ConnectionState::QueryingFileInfo,
            final(self).cursor == 0,
            final(self).start == 0,
            final(self).id == old(self).id,
            final(self).file_info == old(self).file_info,
    {
        self.cursor = 0;
        self.start = 0;
        self.state = ConnectionState::QueryingFileInfo;
    }

    /// The file info was found (in the cache or from a `HEAD`-like request);
    /// streaming starts at `range_start`, where the requested range starts in
    /// the full file (0 without a range), and the response is sent next.
    pub fn file_info_found(&mut self, info: RemoteFileInfo, range_start: u64)
        ensures
            final(self).state == ConnectionState::SendResponse,
            final(self).file_info == info,
            final(self).start == range_start,
            final(self).cursor == range_start,
            final(self).id == old(self).id,
    {
        self.file_info = info;
        self.start = range_start;
        self.cursor = range_start;
        self.state = ConnectionState::SendResponse;
    }

    /// The response was handed over (`delivered`; the client may be gone):
    /// a cached blob (`has_blob`) is then served from the database;
    /// otherwise a read of the cursor is asked of the bus (`read_sent`: the
    /// bus took it) and the connection waits for pieces, or stops when the
    /// bus is closed. An undelivered response finishes the connection.
    pub fn response_sent(&mut self, delivered: bool, has_blob: bool, read_sent: bool)
        ensures
            final(self).state == if !delivered {
                ConnectionState::Finished
            } else if has_blob {
                ConnectionState::ServingFromDb
            } else if read_sent {
                ConnectionState::WaitingForPiece
            } else {
                ConnectionState::BusClosed
            },
            final(self).cursor == old(self).cursor,
            final(self).start == old(self).start,
            final(self).id == old(self).id,
            final(self).file_info == old(self).file_info,
    {
        self.state = if !delivered {
            ConnectionState::Finished
        } else if has_blob {
            ConnectionState::ServingFromDb
        } else if read_sent {
            ConnectionState::WaitingForPiece
        } else {
            ConnectionState::BusClosed
        };
    }

    /// The outcome of remote request attempt `attempt` (counted from 1, at
    /// most 3) after the bus reported no cache: a response that the bus took
    /// makes the connection wait for pieces; one the bus refused finishes
    /// it; a failed request leaves it in error, and is retried after the
    /// returned number of seconds unless it was the third.
    pub fn remote_attempt(&mut self, attempt: u32, result: AttemptResult) -> (retry: Option<u64>)
        requires
            1 <= attempt <= 3,
        ensures
            final(self).state == match result {
                AttemptResult::Sent => ConnectionState::WaitingForPiece,
                AttemptResult::BusClosed => ConnectionState::Finished,
                AttemptResult::Failed => ConnectionState::Error,
            },
            retry == if result == AttemptResult::Failed && attempt < 3 {
                Some(if attempt == 1 {
                    1u64
                } else {
                    2u64
                })
            } else {
                None::<u64>
            },
            final(self).cursor == old(self).cursor,
            final(self).start == old(self).start,
            final(self).id == old(self).id,
            final(self).file_info == old(self).file_info,
    {
        match result {
            AttemptResult::Sent => {
                self.state = ConnectionState::WaitingForPiece;
                None
            },
            AttemptResult::BusClosed => {
                self.state = ConnectionState::Finished;
                None
            },
            AttemptResult::Failed => {
                self.state = ConnectionState::Error;
                if attempt < 3 {
                    Some(retry_backoff_secs(attempt))
                } else {
                    None
                }
            },
        }
    }

    /// The bus refused a message (a read request or a continue): the
    /// connection stops.
    pub fn bus_closed(&mut self)
        ensures
            final(self).state == ConnectionState::BusClosed,
            final(self).cursor == old(self).cursor,
            final(self).start == old(self).start,
            final(self).id == old(self).id,
            final(self).file_info == old(self).file_info,
    {
        self.state = ConnectionState::BusClosed;
    }

    /// A buffer of `len` bytes arrived: the cursor moves past it and the
    /// next step is decided (see `buf_step`); returns what to ask the bus.
    pub fn on_readed_buf(&mut self, len: u64, read_state: ReadState) -> (action: BufAction)
        requires
            old(self).cursor + len <= u64::MAX,
            old(self).start + old(self).file_info.content_length <= u64::MAX,
        ensures
            final(self).cursor == old(self).cursor + len,
            (action, final(self).state) == buf_step(
                old(self).start,
                old(self).file_info.content_length,
                (old(self).cursor + len) as u64,
                read_state,
            ),
            read_state is End && old(self).cursor + len < old(self).start
                + old(self).file_info.content_length ==> action == BufAction::RequestRead
                && final(self).state == ConnectionState::Serving(false),
            read_state is End && old(self).cursor + len >= old(self).start
                + old(self).file_info.content_length ==> action == BufAction::Nothing
                && final(self).state == ConnectionState::Serving(true),
            final(self).start == old(self).start,
            final(self).id == old(self).id,
            final(self).file_info == old(self).file_info,
    {
        self.cursor = self.cursor + len;
        match read_state {
            ReadState::Paused => {
                self.state = ConnectionState::Serving(false);
                BufAction::ReadContinue
            },
            ReadState::End => {
                if self.start + self.file_info.content_length > self.cursor {
                    self.state = ConnectionState::Serving(false);
                    BufAction::RequestRead
                } else {
                    self.state = ConnectionState::Serving(true);
                    BufAction::Nothing
                }
            },
            ReadState::Reading(_) => {
                self.state = ConnectionState::Serving(false);
                BufAction::Nothing
            },
        }
    }

    /// Whether the cursor passed the end of the full file, which is logged as
    /// an overflow.
    pub fn overflowed(&self) -> (b: bool)
        ensures
            b == (self.cursor > full_length(self.file_info)),
    {
        self.cursor > self.file_info.full()
    }

    /// A buffer was handed to the client (`sent`) or the client is gone: the
    /// connection finishes after the last buffer or a failed send, and waits
    /// for the next piece otherwise.
    pub fn served(&mut self, sent: bool)
        requires
            old(self).state is Serving,
        ensures
            final(self).state == if !sent || old(self).state == ConnectionState::Serving(true) {
                ConnectionState::Finished
            } else {
                ConnectionState::WaitingForPiece
            },
            final(self).cursor == old(self).cursor,
            final(self).start == old(self).start,
            final(self).id == old(self).id,
            final(self).file_info == old(self).file_info,
    {
        let last = match self.state {
            ConnectionState::Serving(l) => l,
            _ => false,
        };
        if !sent || last {
            self.state = ConnectionState::Finished;
        } else {
            self.state = ConnectionState::WaitingForPiece;
        }
    }

    /// The part of a cached blob of `len` bytes to send: from the start of the
    /// requested range to the end, if the start lies within it.
    pub fn db_range(&self, len: usize) -> (r: Option<(usize, usize)>)
        ensures
            r == if self.start < len {
                Some((self.start as usize, len))
            } else {
                None::<(usize, usize)>
            },
    {
        if self.start < len as u64 {
            Some((self.start as usize, len))
        } else {
            None
        }
    }

    /// Moves to `state` (a step's outcome that needs no computation: the bus
    /// closed, the reader reported no cache, the remote request was sent...).
    pub fn set_state(&mut self, state: ConnectionState)
        ensures
            final(self).state == state,
            final(self).cursor == old(self).cursor,
            final(self).start == old(self).start,
            final(self).id == old(self).id,
            final(self).file_info == old(self).file_info,
    {
        self.state = state;
    }

    /// Whether the connection goes on polling: not once it is finished, its
    /// bus closed or it failed.
    pub fn keeps_polling(&self) -> (b: bool)
        ensures
            b == !(self.state is BusClosed || self.state is Error || self.state is Finished),
    {
        match self.state {
            ConnectionState::BusClosed | ConnectionState::Error | ConnectionState::Finished => false,
            _ => true,
        }
    }
}

/// How long to wait before remote request attempt `attempt + 1`, in seconds:
/// 1, then 2 (attempts are counted from 1, and the third is the last).
pub fn retry_backoff_secs(attempt: u32) -> (s: u64)
    requires
        1 <= attempt < 3,
    ensures
        s == if attempt == 1 {
            1u64
        } else {
            2u64
        },
{
    if attempt == 1 {
        1
    } else {
        2
    }
}

/// The cursor only moves forward, and a reader that ended at or past the end
/// of what was requested makes the connection serve its last buffer.
pub proof fn lemma_end_is_last(start: u64, content_length: u64, cursor: u64)
    requires
        cursor >= start + content_length,
    ensures
        buf_step(start, content_length, cursor, ReadState::End) == (
            BufAction::Nothing,
            ConnectionState::Serving(true),
        ),
{
}

/// A reader that ended short of the end of what was requested (the cursor
/// before `start + content_length`) never makes the connection send its
/// last buffer: the connection keeps serving and asks for a new read.
pub proof fn lemma_end_short_reads_again(start: u64, content_length: u64, cursor: u64)
    requires
        cursor < start + content_length,
    ensures
        buf_step(start, content_length, cursor, ReadState::End) == (
            BufAction::RequestRead,
            ConnectionState::Serving(false),
        ),
{
}

} // verus!
