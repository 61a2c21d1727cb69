pub mod frame;

use vstd::prelude::*;
use crate::ae::service::{served, Service};
use crate::error::HikvError;
use crate::net::frame::MAX_FRAME;
use crate::net::frame::{
    after_first_frame, buffered, carries, first_message, frameable, holds_frame, holds_nothing,
    message_frame, starts_with_frame, FrameCodec, Framed,
};
use crate::pb::abi::{CommandRequest, CommandRequestView, CommandResponse, CommandResponseView};
use crate::pb::message::{request_bytes, response_bytes};
use crate::store::Storage;

verus! {

/// Whether one turn of serving, with the result `r`, can have taken the
/// request `req` from the service's state `before` to `after`, and the output
/// from `out_before` to `out_after`: the reply is what the service gives; its
/// frame is added to the output exactly if the reply can be framed, and else
/// nothing is added and the error is `FrameError`.
pub open spec fn turn_served<Store: Storage>(
    before: Service<Store>,
    after: Service<Store>,
    req: CommandRequestView,
    out_before: Seq<u8>,
    out_after: Seq<u8>,
    r: Result<bool, HikvError>,
) -> bool {
    exists|reply: CommandResponseView|
        {
            &&& #[trigger] served(
                before.inner().before_reply(),
                before.table(),
                after.table(),
                req,
                reply,
            )
            &&& r is Ok <==> frameable(response_bytes(reply))
            &&& match r {
                Ok(more) => {
                    &&& more
                    &&& out_after == out_before + message_frame(response_bytes(reply))
                    &&& carries::<CommandResponse>(message_frame(response_bytes(reply)), reply)
                },
                Err(e) => out_after == out_before && e is FrameError,
            }
        }
}

/// The text of the error for an input that ends in the middle of a frame.
pub open spec fn ended_in_frame() -> Seq<char> {
    "the connection ended in the middle of a frame"@
}

/// One turn of serving a connection: takes the frame that `input` starts
/// with off it, lets `service` carry out the request in it, and adds the
/// frame of the reply behind the bytes of `output`.
///
/// Whoever drives the connection calls this when `input` holds a whole
/// frame, or when the stream has ended. So an `input` that holds part of a
/// frame is a connection that ended in the middle of one: the error is
/// `IoError`. An `input` that holds nothing is a connection that is over, and
/// so is one whose frame does not decompress or spells no request: the
/// result is `Ok(false)`. In all these cases the service and the output are
/// as they were. Where the reply cannot be framed, the error is `FrameError`
/// and nothing is added to `output`.
pub fn serve<Store: Storage>(
    service: &mut Service<Store>,
    input: &mut bytes::BytesMut,
    output: &mut bytes::BytesMut,
) -> (r: Result<bool, HikvError>)
    ensures
        final(service).inner().before_reply() == old(service).inner().before_reply(),
        buffered(*final(input)) == after_first_frame(buffered(*old(input))),
        match first_message::<CommandRequest>(buffered(*old(input))) {
            Framed::Message(req) => turn_served(
                *old(service),
                *final(service),
                req,
                buffered(*old(output)),
                buffered(*final(output)),
                r,
            ),
            Framed::Incomplete => {
                &&& *final(service) == *old(service)
                &&& buffered(*final(output)) == buffered(*old(output))
                &&& if buffered(*old(input)).len() == 0 {
                    r matches Ok(false)
                } else {
                    r matches Err(HikvError::IoError(text)) && text@ == ended_in_frame()
                }
            },
            _ => {
                &&& r matches Ok(false)
                &&& *final(service) == *old(service)
                &&& buffered(*final(output)) == buffered(*old(output))
            },
        },
{
    if !holds_frame(input) {
        if holds_nothing(input) {
            return Ok(false);
        }
        return Err(
            HikvError::IoError("the connection ended in the middle of a frame".to_owned()),
        );
    }
    let cmd = match CommandRequest::decode_frame(input) {
        Ok(cmd) => cmd,
        Err(_) => { return Ok(false); },
    };
    let ret = service.execute(cmd);
    match ret.encode_frame(output) {
        Ok(()) => Ok(true),
        Err(e) => Err(e),
    }
}

/// The server's end of a connection: the stream, and the service that
/// answers what arrives on it.
///
/// The stream is only held here. Whoever drives the connection reads frames
/// from it into a buffer, hands the buffer to [`ProstServerStream::process`],
/// and writes out what that leaves in the buffer for output.
pub struct ProstServerStream<S> {
    pub inner: S,
    pub service: Service,
}

impl<S> ProstServerStream<S> {
    pub fn new(inner: S, service: Service) -> (r: Self)
        ensures
            r.inner == inner,
            r.service == service,
    {
        Self { inner, service }
    }

    /// Takes the frame that `input` starts with off it and returns the
    /// request in it.
    pub fn recv(&mut self, input: &mut bytes::BytesMut) -> (r: Result<CommandRequest, HikvError>)
        ensures
            *final(self) == *old(self),
            buffered(*final(input)) == after_first_frame(buffered(*old(input))),
            match first_message::<CommandRequest>(buffered(*old(input))) {
                Framed::Message(m) => r matches Ok(cmd) && cmd@ == m,
                Framed::Incomplete => r matches Err(HikvError::DecodeError(_)),
                Framed::Corrupt => r matches Err(HikvError::IoError(_)),
                Framed::Malformed => r matches Err(HikvError::DecodeError(_)),
            },
    {
        CommandRequest::decode_frame(input)
    }

    /// Adds the frame of `cmd` behind the bytes of `output`. It succeeds
    /// exactly if `cmd` can be framed, so never above [`MAX_FRAME`]; else the
    /// error is `FrameError` and nothing is added.
    pub fn send(&mut self, cmd: CommandResponse, output: &mut bytes::BytesMut) -> (r: Result<
        (),
        HikvError,
    >)
        ensures
            *final(self) == *old(self),
            r is Ok <==> frameable(response_bytes(cmd@)),
            response_bytes(cmd@).len() > MAX_FRAME ==> r matches Err(HikvError::FrameError),
            match r {
                Ok(()) => {
                    &&& response_bytes(cmd@).len() <= MAX_FRAME
                    &&& buffered(*final(output)) == buffered(*old(output)) + message_frame(
                        response_bytes(cmd@),
                    )
                    &&& carries::<CommandResponse>(message_frame(response_bytes(cmd@)), cmd@)
                },
                Err(e) => buffered(*final(output)) == buffered(*old(output)) && e is FrameError,
            },
    {
        cmd.encode_frame(output)
    }

    /// One turn of serving the connection, as [`serve`] does it with this
    /// end's service.
    pub fn process(&mut self, input: &mut bytes::BytesMut, output: &mut bytes::BytesMut) -> (r:
        Result<bool, HikvError>)
        ensures
            final(self).inner == old(self).inner,
            final(self).service.inner().before_reply() == old(self).service.inner().before_reply(),
            buffered(*final(input)) == after_first_frame(buffered(*old(input))),
            match first_message::<CommandRequest>(buffered(*old(input))) {
                Framed::Message(req) => turn_served(
                    old(self).service,
                    final(self).service,
                    req,
                    buffered(*old(output)),
                    buffered(*final(output)),
                    r,
                ),
                Framed::Incomplete => {
                    &&& final(self).service == old(self).service
                    &&& buffered(*final(output)) == buffered(*old(output))
                    &&& if buffered(*old(input)).len() == 0 {
                        r matches Ok(false)
                    } else {
                        r matches Err(HikvError::IoError(text)) && text@ == ended_in_frame()
                    }
                },
                _ => {
                    &&& r matches Ok(false)
                    &&& final(self).service == old(self).service
                    &&& buffered(*final(output)) == buffered(*old(output))
                },
            },
    {
        serve(&mut self.service, input, output)
    }
}

/// The client's end of a connection: the stream, and whether a request is
/// waiting for its response.
///
/// Responses are matched to requests by their order alone, so a request is
/// framed only when none is waiting.
pub struct ProstClientStream<S> {
    pub inner: S,
    /// Whether a request was framed whose response was not taken yet.
    pub waiting: bool,
}

impl<S> ProstClientStream<S> {
    pub fn new(inner: S) -> (r: Self)
        ensures
            r.inner == inner,
            !r.waiting,
    {
        Self { inner, waiting: false }
    }

    /// Adds the frame of `cmd` behind the bytes of `output`, unless a request
    /// is waiting for its response. Where none is waiting, it succeeds
    /// exactly if `cmd` can be framed, so never above [`MAX_FRAME`]; else the
    /// error is `FrameError`. Nothing is added where it fails.
    pub fn send(&mut self, cmd: CommandRequest, output: &mut bytes::BytesMut) -> (r: Result<
        (),
        HikvError,
    >)
        ensures
            final(self).inner == old(self).inner,
            r is Ok <==> !old(self).waiting && frameable(request_bytes(cmd@)),
            !old(self).waiting && request_bytes(cmd@).len() > MAX_FRAME ==> r matches Err(
                HikvError::FrameError,
            ),
            match r {
                Ok(()) => {
                    &&& final(self).waiting
                    &&& request_bytes(cmd@).len() <= MAX_FRAME
                    &&& buffered(*final(output)) == buffered(*old(output)) + message_frame(
                        request_bytes(cmd@),
                    )
                    &&& carries::<CommandRequest>(message_frame(request_bytes(cmd@)), cmd@)
                },
                Err(e) => {
                    &&& final(self).waiting == old(self).waiting
                    &&& buffered(*final(output)) == buffered(*old(output))
                    &&& if old(self).waiting {
                        e matches HikvError::Internal(text) && text@
                            == "a request is waiting for its response"@
                    } else {
                        e is FrameError
                    }
                },
            },
    {
        if self.waiting {
            return Err(HikvError::Internal("a request is waiting for its response".to_owned()));
        }
        match cmd.encode_frame(output) {
            Ok(()) => {
                self.waiting = true;
                Ok(())
            },
            Err(e) => Err(e),
        }
    }

    /// Takes the frame that `input` starts with off it and returns the
    /// response in it. Where `input` holds a whole frame, no request is
    /// waiting afterwards.
    pub fn recv(&mut self, input: &mut bytes::BytesMut) -> (r: Result<CommandResponse, HikvError>)
        ensures
            final(self).inner == old(self).inner,
            final(self).waiting == (old(self).waiting && !starts_with_frame(
                buffered(*old(input)),
            )),
            buffered(*final(input)) == after_first_frame(buffered(*old(input))),
            match first_message::<CommandResponse>(buffered(*old(input))) {
                Framed::Message(m) => r matches Ok(resp) && resp@ == m,
                Framed::Incomplete => r matches Err(HikvError::DecodeError(_)),
                Framed::Corrupt => r matches Err(HikvError::IoError(_)),
                Framed::Malformed => r matches Err(HikvError::DecodeError(_)),
            },
    {
        let have = holds_frame(input);
        let r = CommandResponse::decode_frame(input);
        if have {
            self.waiting = false;
        }
        r
    }
}

} // verus!
