//! Request bodies: how much of one is kept so that it can be sent again.
//!
//! The body of a request that may be repeated is read into memory. One that turns
//! out too large is not kept: what was read so far goes first, and what the client
//! still sends follows as it arrives, which can be done only once.

use hyper::body::Bytes;
use vstd::prelude::*;

use crate::http::{
    error_response, is_retriable, law_retriable_methods, reply, retriable, ErrorResponse,
};
use crate::octets::{as_slice, from_vec, octets, share};

verus! {

/// The most that is kept of a body.
pub const MAX_BUFFER_BYTES: usize = 1024 * 1024;

/// How often a request with a kept body is sent, all in all.
pub const MAX_RETRY_ATTEMPTS_FOR_SEND_RETRIABLE_BODY: u8 = 3;

/// Bytes that were read ahead, and the stream `S` that they were read from.
pub struct PrefixBody<S> {
    /// The bytes that still go before the rest, if any.
    pub prefix: Option<Bytes>,
    /// What the client has yet to send.
    pub rest: S,
}

impl<S> PrefixBody<S> {
    /// `prefix`, and after it whatever `rest` yields.
    pub fn new(prefix: Bytes, rest: S) -> (res: Self)
        ensures
            res.prefix == Some(prefix),
            res.rest == rest,
    {
        PrefixBody { prefix: Some(prefix), rest }
    }

    /// The next piece of the body, if it was read ahead. `None` says that the next
    /// piece is the next one of the rest.
    pub fn poll_prefix(&mut self) -> (res: Option<Bytes>)
        ensures
            res == old(self).prefix,
            final(self).prefix is None,
            final(self).rest == old(self).rest,
    {
        self.prefix.take()
    }
}

/// The body of a request on its way to a backend. `S` is a stream that can be read
/// once.
pub enum RequestBody<S> {
    /// All of the body, so that it can be sent any number of times.
    Retriable { bytes: Bytes },
    /// A stream that is used up by sending it.
    OneShot(S),
}

/// What one attempt to send a request carries.
pub enum AttemptBody<S> {
    Buffered(Bytes),
    Streamed(S),
}

impl<S> RequestBody<S> {
    /// How often a request with this body may be sent.
    pub open spec fn attempts(self) -> u8 {
        match self {
            RequestBody::Retriable { .. } => MAX_RETRY_ATTEMPTS_FOR_SEND_RETRIABLE_BODY,
            RequestBody::OneShot(_) => 1,
        }
    }

    /// How often a request with this body may be sent, counting the first time.
    pub fn max_attempts(&self) -> (res: u8)
        ensures
            res == self.attempts(),
            self is Retriable ==> res == 3,
            self is OneShot ==> res == 1,
    {
        match self {
            RequestBody::Retriable { .. } => MAX_RETRY_ATTEMPTS_FOR_SEND_RETRIABLE_BODY,
            RequestBody::OneShot(_) => 1,
        }
    }

    /// The same body, with another form given to a stream that can be read once.
    pub fn map_stream<R>(self, reshape: impl FnOnce(S) -> R) -> (res: RequestBody<R>)
        requires
            self matches RequestBody::OneShot(stream) ==> call_requires(reshape, (stream,)),
        ensures
            match self {
                RequestBody::Retriable { bytes } => res == (RequestBody::<R>::Retriable { bytes }),
                RequestBody::OneShot(stream) => {
                    &&& res matches RequestBody::OneShot(reshaped)
                    &&& call_ensures(reshape, (stream,), reshaped)
                },
            },
            res.attempts() == self.attempts(),
    {
        match self {
            RequestBody::Retriable { bytes } => RequestBody::Retriable { bytes },
            RequestBody::OneShot(stream) => RequestBody::OneShot(reshape(stream)),
        }
    }

    /// The body for one more attempt. A kept body stays as it is; a stream is moved
    /// out, and `empty` is left in its place.
    pub fn attempt_body(&mut self, empty: S) -> (res: AttemptBody<S>)
        ensures
            match *old(self) {
                RequestBody::Retriable { bytes } => {
                    &&& res matches AttemptBody::Buffered(copy)
                    &&& octets(copy) == octets(bytes)
                    &&& *final(self) == *old(self)
                },
                RequestBody::OneShot(stream) => {
                    &&& res == AttemptBody::Streamed(stream)
                    &&& *final(self) == RequestBody::OneShot(empty)
                },
            },
    {
        match self {
            RequestBody::Retriable { bytes } => AttemptBody::Buffered(share(bytes)),
            RequestBody::OneShot(stream) => {
                let mut out = empty;
                std::mem::swap(stream, &mut out);
                AttemptBody::Streamed(out)
            },
        }
    }
}

/// A body that is being read into memory.
pub struct BodyBuffer {
    bytes: Vec<u8>,
}

impl View for BodyBuffer {
    type V = Seq<u8>;

    closed spec fn view(&self) -> Seq<u8> {
        self.bytes@
    }
}

impl BodyBuffer {
    #[verifier::type_invariant]
    spec fn within_bounds(self) -> bool {
        self.bytes@.len() <= MAX_BUFFER_BYTES
    }

    /// A buffer with nothing read yet.
    pub fn new() -> (res: Self)
        ensures
            res@ == Seq::<u8>::empty(),
    {
        BodyBuffer { bytes: Vec::new() }
    }
}

/// What came of reading one frame of a body.
pub enum BodyEvent {
    /// A frame of data.
    Data(Bytes),
    /// A frame that holds no data.
    NotData,
    /// The body broke off.
    Failed,
    /// The body is complete.
    End,
}

/// What to do with a request next, as far as its body is concerned. `I` is the body as
/// it comes in.
pub enum BodyStep<I> {
    /// Read another frame.
    Read(BodyBuffer, I),
    /// Send the request with this body.
    Send(RequestBody<PrefixBody<I>>),
    /// Give up on the request and answer the client.
    Refuse(ErrorResponse),
}

/// A [`BodyEvent`] with its data as a sequence.
pub enum BodyInput {
    Data(Seq<u8>),
    NotData,
    Failed,
    End,
}

/// How far a body has got.
#[verifier::ext_equal]
pub enum Intake {
    /// This much was read, and all of it is kept.
    Reading(Seq<u8>),
    /// This is all of it, and it can be sent again.
    Retriable(Seq<u8>),
    /// This much was read ahead; it can be sent once, and then what was not read.
    OneShot(Seq<u8>),
    /// It broke off.
    Refused,
}

impl View for BodyEvent {
    type V = BodyInput;

    open spec fn view(&self) -> BodyInput {
        match *self {
            BodyEvent::Data(bytes) => BodyInput::Data(octets(bytes)),
            BodyEvent::NotData => BodyInput::NotData,
            BodyEvent::Failed => BodyInput::Failed,
            BodyEvent::End => BodyInput::End,
        }
    }
}

impl<I> PrefixBody<I> {
    /// The bytes that were read ahead.
    pub open spec fn read_ahead(self) -> Seq<u8> {
        match self.prefix {
            Some(bytes) => octets(bytes),
            None => Seq::empty(),
        }
    }
}

impl<I> View for BodyStep<I> {
    type V = Intake;

    open spec fn view(&self) -> Intake {
        match *self {
            BodyStep::Read(buffer, _) => Intake::Reading(buffer@),
            BodyStep::Send(RequestBody::Retriable { bytes }) => Intake::Retriable(octets(bytes)),
            BodyStep::Send(RequestBody::OneShot(stream)) => Intake::OneShot(stream.read_ahead()),
            BodyStep::Refuse(_) => Intake::Refused,
        }
    }
}

impl<I> BodyStep<I> {
    /// What has not been read of the body, where it is still of use.
    pub open spec fn unread(self) -> Option<I> {
        match self {
            BodyStep::Read(_, body) => Some(body),
            BodyStep::Send(RequestBody::OneShot(stream)) => Some(stream.rest),
            _ => None,
        }
    }
}

/// How the body of a request with this method is begun: only what may be repeated is
/// read to be kept.
pub open spec fn planned(method: Seq<char>) -> Intake {
    if retriable(method) {
        Intake::Reading(Seq::empty())
    } else {
        Intake::OneShot(Seq::empty())
    }
}

/// Where one more frame takes a body of which `buffered` was read.
pub open spec fn take_in(buffered: Seq<u8>, input: BodyInput) -> Intake {
    match input {
        BodyInput::Data(data) => if buffered.len() + data.len() <= MAX_BUFFER_BYTES {
            Intake::Reading(buffered + data)
        } else {
            Intake::OneShot(buffered + data)
        },
        BodyInput::NotData => Intake::Reading(buffered),
        BodyInput::Failed => Intake::Refused,
        BodyInput::End => Intake::Retriable(buffered),
    }
}

/// Begins with the body of a request with this method. It is read to be kept if the
/// request may be repeated, and passed on as it arrives if not.
pub fn plan_body<I>(method: &str, body: I) -> (step: BodyStep<I>)
    ensures
        step@ == planned(method@),
        step.unread() == Some(body),
        step matches BodyStep::Send(RequestBody::OneShot(stream)) ==> stream.prefix is None,
        if method@ == "GET"@ || method@ == "HEAD"@ || method@ == "PUT"@ || method@ == "DELETE"@
            || method@ == "OPTIONS"@ {
            &&& step matches BodyStep::Read(buffer, rest)
            &&& buffer@.len() == 0
            &&& rest == body
        } else {
            step == BodyStep::Send(RequestBody::OneShot(PrefixBody { prefix: None, rest: body }))
        },
{
    if is_retriable(method) {
        BodyStep::Read(BodyBuffer::new(), body)
    } else {
        BodyStep::Send(RequestBody::OneShot(PrefixBody { prefix: None, rest: body }))
    }
}

/// Takes in one frame of the body of a request that may be repeated, and decides
/// how to go on. A body is kept whole up to [`MAX_BUFFER_BYTES`].
pub fn handle_body<I>(buffer: BodyBuffer, event: BodyEvent, body: I) -> (step: BodyStep<I>)
    ensures
        step@ == take_in(buffer@, event@),
        step@ is Reading || step@ is OneShot ==> step.unread() == Some(body),
        step matches BodyStep::Send(RequestBody::OneShot(stream)) ==> stream.prefix is Some,
        step matches BodyStep::Refuse(response) ==> response@ == reply(
            400,
            "recieve request failed"@,
        ),
        match event {
            BodyEvent::Data(data) => if buffer@.len() + octets(data).len() <= 1048576 {
                &&& step matches BodyStep::Read(more, rest)
                &&& more@ == buffer@ + octets(data)
                &&& rest == body
            } else {
                &&& step matches BodyStep::Send(RequestBody::OneShot(stream))
                &&& stream.prefix matches Some(bytes)
                &&& octets(bytes) == buffer@ + octets(data)
                &&& stream.rest == body
            },
            BodyEvent::NotData => {
                &&& step matches BodyStep::Read(same, rest)
                &&& same@ == buffer@
                &&& rest == body
            },
            BodyEvent::Failed => {
                &&& step matches BodyStep::Refuse(response)
                &&& response.status == 400
                &&& octets(response.body) == vstd::utf8::encode_utf8("recieve request failed"@)
            },
            BodyEvent::End => {
                &&& step matches BodyStep::Send(RequestBody::Retriable { bytes })
                &&& octets(bytes) == buffer@
            },
        },
{
    proof {
        use_type_invariant(&buffer);
    }
    match event {
        BodyEvent::Data(data) => {
            let piece: &[u8] = as_slice(&data);
            let fits: bool = piece.len() <= MAX_BUFFER_BYTES - buffer.bytes.len();
            let mut bytes: Vec<u8> = buffer.bytes;
            bytes.extend_from_slice(piece);
            assert(bytes@ =~= buffer@ + octets(data));
            if fits {
                BodyStep::Read(BodyBuffer { bytes }, body)
            } else {
                BodyStep::Send(RequestBody::OneShot(PrefixBody::new(from_vec(bytes), body)))
            }
        },
        BodyEvent::NotData => BodyStep::Read(buffer, body),
        BodyEvent::Failed => BodyStep::Refuse(error_response(400, "recieve request failed")),
        BodyEvent::End => BodyStep::Send(RequestBody::Retriable { bytes: from_vec(buffer.bytes) }),
    }
}

/// Where the body of a request with this method is after `inputs`, read in order until
/// there is a decision.
pub open spec fn intake(method: Seq<char>, inputs: Seq<BodyInput>) -> Intake
    decreases inputs.len(),
{
    if inputs.len() == 0 {
        planned(method)
    } else {
        match intake(method, inputs.drop_last()) {
            Intake::Reading(buffered) => take_in(buffered, inputs.last()),
            decided => decided,
        }
    }
}

/// Whether the inputs are frames alone: nothing failed and nothing ended.
pub open spec fn frames_only(inputs: Seq<BodyInput>) -> bool {
    forall|i: int|
        0 <= i < inputs.len() ==> #[trigger] inputs[i] is Data || inputs[i] is NotData
}

/// The data in the inputs, joined.
pub open spec fn data_of(inputs: Seq<BodyInput>) -> Seq<u8>
    decreases inputs.len(),
{
    if inputs.len() == 0 {
        Seq::empty()
    } else {
        match inputs.last() {
            BodyInput::Data(data) => data_of(inputs.drop_last()) + data,
            _ => data_of(inputs.drop_last()),
        }
    }
}

/// Only bodies of requests that may be repeated are kept: one of any other request
/// goes once, as it arrives, and no frame of it is read ahead.
pub proof fn law_only_bodies_of_retriable_requests_are_kept(
    method: Seq<char>,
    inputs: Seq<BodyInput>,
)
    ensures
        intake(method, inputs) is Reading || intake(method, inputs) is Retriable ==> retriable(
            method,
        ),
        !retriable(method) ==> intake(method, inputs) == Intake::OneShot(Seq::empty()),
    decreases inputs.len(),
{
    if inputs.len() > 0 {
        law_only_bodies_of_retriable_requests_are_kept(method, inputs.drop_last());
    }
}

/// A body of at most [`MAX_BUFFER_BYTES`] is kept whole, byte for byte, however it
/// was cut into frames, and so can be sent again.
pub proof fn law_small_bodies_are_kept_whole(method: Seq<char>, frames: Seq<BodyInput>)
    requires
        retriable(method),
        frames_only(frames),
        data_of(frames).len() <= MAX_BUFFER_BYTES,
    ensures
        intake(method, frames) == Intake::Reading(data_of(frames)),
        intake(method, frames.push(BodyInput::End)) == Intake::Retriable(data_of(frames)),
    decreases frames.len(),
{
    assert(frames.push(BodyInput::End).drop_last() =~= frames);
    if frames.len() > 0 {
        assert(frames.last() is Data || frames.last() is NotData);
        law_small_bodies_are_kept_whole(method, frames.drop_last());
    }
}

/// Whether a body came to be too large with the last of the first `read` frames, and is
/// cut there without loss: their data was read ahead, and that of the others was not.
pub open spec fn overflows_at(method: Seq<char>, frames: Seq<BodyInput>, read: int) -> bool {
    &&& 0 < read <= frames.len()
    &&& data_of(frames.take(read - 1)).len() <= MAX_BUFFER_BYTES
    &&& data_of(frames.take(read)).len() > MAX_BUFFER_BYTES
    &&& intake(method, frames.take(read)) == Intake::OneShot(data_of(frames.take(read)))
    &&& intake(method, frames) == Intake::OneShot(data_of(frames.take(read)))
    &&& data_of(frames) == data_of(frames.take(read)) + data_of(frames.skip(read))
}

/// A body that grows past [`MAX_BUFFER_BYTES`] can be sent once, and nothing of it
/// is lost or moved: what was read ahead is the data of the frames up to the one
/// that went too far, and all later frames are still unread.
#[verifier::spinoff_prover]
pub proof fn law_large_bodies_lose_nothing(method: Seq<char>, frames: Seq<BodyInput>)
    requires
        retriable(method),
        frames_only(frames),
        data_of(frames).len() > MAX_BUFFER_BYTES,
    ensures
        exists|read: int| overflows_at(method, frames, read),
    decreases frames.len(),
{
    let n = frames.len() as int;
    let init = frames.drop_last();
    assert(frames.take(n - 1) =~= init);
    assert(frames.last() is Data || frames.last() is NotData);
    if data_of(init).len() <= MAX_BUFFER_BYTES {
        law_small_bodies_are_kept_whole(method, init);
        assert(frames.take(n) =~= frames);
        assert(frames.skip(n) =~= Seq::<BodyInput>::empty());
        assert(data_of(frames) =~= data_of(frames.take(n)) + data_of(frames.skip(n)));
        assert(overflows_at(method, frames, n));
    } else {
        law_large_bodies_lose_nothing(method, init);
        let read = choose|read: int| overflows_at(method, init, read);
        assert(frames.take(read) =~= init.take(read));
        assert(frames.take(read - 1) =~= init.take(read - 1));
        assert(frames.skip(read).drop_last() =~= init.skip(read));
        assert(frames.skip(read).last() == frames.last());
        assert(data_of(frames) =~= data_of(frames.take(read)) + data_of(frames.skip(read)));
        assert(overflows_at(method, frames, read));
    }
}

/// A body that breaks off while it is being kept is refused, whatever came before.
pub proof fn law_broken_bodies_are_refused(method: Seq<char>, inputs: Seq<BodyInput>)
    requires
        intake(method, inputs) is Reading,
    ensures
        intake(method, inputs.push(BodyInput::Failed)) is Refused,
{
    assert(inputs.push(BodyInput::Failed).drop_last() =~= inputs);
}

/// What one more frame does to a body that is being kept. Its data comes after what was
/// read before; past one mebibyte the body is no longer kept. The end makes it one that can
/// be sent again, a frame without data changes nothing, and a failure ends it. Once there is
/// a decision, it stands.
pub proof fn law_frames_are_taken_in_one_by_one(
    method: Seq<char>,
    inputs: Seq<BodyInput>,
    input: BodyInput,
)
    ensures
        match intake(method, inputs) {
            Intake::Reading(buffered) => match input {
                BodyInput::Data(data) => if buffered.len() + data.len() <= 1048576 {
                    intake(method, inputs.push(input)) == Intake::Reading(buffered + data)
                } else {
                    intake(method, inputs.push(input)) == Intake::OneShot(buffered + data)
                },
                BodyInput::NotData => intake(method, inputs.push(input)) == Intake::Reading(
                    buffered,
                ),
                BodyInput::Failed => intake(method, inputs.push(input)) is Refused,
                BodyInput::End => intake(method, inputs.push(input)) == Intake::Retriable(buffered),
            },
            decided => intake(method, inputs.push(input)) == decided,
        },
{
    assert(inputs.push(input).drop_last() =~= inputs);
}

/// A body that came whole is kept for further attempts exactly if its request has a method
/// that may be repeated and it is no longer than one mebibyte, however it was cut into
/// frames; one that is kept may be sent three times, and any other once.
pub proof fn law_bodies_are_kept_up_to_one_mebibyte<S>(
    method: Seq<char>,
    frames: Seq<BodyInput>,
    bytes: Bytes,
    stream: S,
)
    requires
        frames_only(frames),
    ensures
        intake(method, frames.push(BodyInput::End)) is Retriable <==> {
            &&& method == "GET"@ || method == "HEAD"@ || method == "PUT"@ || method == "DELETE"@
                || method == "OPTIONS"@
            &&& data_of(frames).len() <= 1048576
        },
        intake(method, frames.push(BodyInput::End)) matches Intake::Retriable(kept) ==> kept
            == data_of(frames),
        intake(method, frames.push(BodyInput::End)) !is Retriable ==> intake(
            method,
            frames.push(BodyInput::End),
        ) is OneShot,
        (RequestBody::<S>::Retriable { bytes }).attempts() == 3,
        RequestBody::OneShot(stream).attempts() == 1,
{
    let whole = frames.push(BodyInput::End);
    assert(whole.drop_last() =~= frames);
    law_only_bodies_of_retriable_requests_are_kept(method, whole);
    law_retriable_methods(method);
    if retriable(method) {
        if data_of(frames).len() <= MAX_BUFFER_BYTES {
            law_small_bodies_are_kept_whole(method, frames);
        } else {
            law_large_bodies_lose_nothing(method, frames);
            let read = choose|read: int| overflows_at(method, frames, read);
            assert(overflows_at(method, frames, read));
        }
    }
}

/// Joining data goes frame by frame, and what comes before the first frame is nothing.
pub proof fn law_data_is_joined_in_order(frames: Seq<BodyInput>, data: Seq<u8>)
    ensures
        data_of(Seq::empty()) == Seq::<u8>::empty(),
        data_of(frames.push(BodyInput::Data(data))) == data_of(frames) + data,
        data_of(frames.push(BodyInput::NotData)) == data_of(frames),
{
    assert(frames.push(BodyInput::Data(data)).drop_last() =~= frames);
    assert(frames.push(BodyInput::NotData).drop_last() =~= frames);
}

} // verus!
