//! The passthrough relay: both codecs stop parsing, and every chunk that
//! arrives on one side leaves on the other as it came.
//!
//! As with the unwrap relay, the caller does the waiting and the writing.

use crate::codec::TLSCodec;
use crate::relay::{ReadEvent, RelayError, Side};
use vstd::prelude::*;

verus! {

/// Switches record parsing off on both sides. What the codecs have buffered
/// stays.
pub fn disable_framing(front: &mut TLSCodec, back: &mut TLSCodec)
    ensures
        !final(front).enabled(),
        !final(back).enabled(),
        final(front).buffered() == old(front).buffered(),
        final(front).position() == old(front).position(),
        final(back).buffered() == old(back).buffered(),
        final(back).position() == old(back).position(),
{
    front.set_enabled(false);
    back.set_enabled(false);
}

/// What a codec buffered before the relay started, to be written to the
/// other side: the whole region, whether or not part of it was consumed, or
/// nothing if the buffer is empty. Afterwards everything counts as consumed.
pub fn take_buffered(codec: &mut TLSCodec) -> (chunk: Option<&[u8]>)
    requires
        old(codec).wf(),
    ensures
        final(codec).wf(),
        final(codec).buffered() == old(codec).buffered(),
        final(codec).position() == old(codec).buffered().len(),
        final(codec).enabled() == old(codec).enabled(),
        chunk is Some <==> old(codec).buffered().len() > 0,
        chunk matches Some(bytes) ==> bytes@ == old(codec).buffered(),
{
    if codec.has_content() {
        codec.skip_to_end();
        Some(codec.raw_buf())
    } else {
        None
    }
}

/// One direction of the relay loop: `side` reported `event`. A chunk that a
/// decode cycle buffered is forwarded whole; the end of the stream and a
/// failed read each end the relay, and leave the codec alone.
pub fn on_chunk(codec: &mut TLSCodec, side: Side, event: ReadEvent) -> (chunk: Result<
    &[u8],
    RelayError,
>)
    ensures
        final(codec).buffered() == old(codec).buffered(),
        final(codec).enabled() == old(codec).enabled(),
        chunk is Ok <==> event == ReadEvent::Ready,
        chunk matches Ok(bytes) ==> bytes@ == old(codec).buffered(),
        chunk is Ok ==> final(codec).wf(),
        chunk is Ok ==> final(codec).position() == old(codec).buffered().len(),
        event == ReadEvent::Closed ==> chunk == Err::<&[u8], RelayError>(RelayError::Closed(side)),
        event == ReadEvent::Failed ==> chunk == Err::<&[u8], RelayError>(RelayError::Failed(side)),
        chunk is Err ==> final(codec).position() == old(codec).position(),
{
    match event {
        ReadEvent::Ready => {
            codec.skip_to_end();
            Ok(codec.raw_buf())
        },
        ReadEvent::Closed => Err(RelayError::Closed(side)),
        ReadEvent::Failed => Err(RelayError::Failed(side)),
    }
}

} // verus!
