//! Lifecycle events emitted during payload execution, and the handler
//! interface an observer implements. Events are advisory data; a missing
//! handler simply drops them.

use vstd::prelude::*;
use crate::jsonval::JsonValue;

verus! {

/// Events emitted during payload execution.
#[derive(Debug)]
pub enum Event {
    /// A payload has started executing.
    PayloadStart {
        /// Instance name of the payload.
        name: String,
        /// Stable type identifier.
        kind: &'static str,
    },
    /// A token was received during streaming.
    Token {
        /// Instance name of the payload producing this token.
        name: String,
        /// The token text.
        chunk: String,
    },
    /// A payload has finished executing.
    PayloadEnd {
        /// Instance name of the payload.
        name: String,
        /// Whether execution succeeded.
        ok: bool,
    },
    /// A semantic retry attempt is starting.
    RetryStart {
        /// Instance name of the payload being retried.
        name: String,
        /// The retry attempt number, starting at one.
        attempt: u32,
        /// Why the retry was triggered.
        reason: String,
    },
    /// A semantic retry sequence has completed.
    RetryEnd {
        /// Instance name of the payload.
        name: String,
        /// Total number of retry attempts made.
        attempts: u32,
        /// Whether the final attempt succeeded.
        success: bool,
    },
    /// A partial parse result from streaming JSON.
    PartialParse {
        /// Instance name of the payload.
        name: String,
        /// The partial value extracted so far.
        value: JsonValue,
        /// Whether the value appears complete.
        complete: bool,
    },
    /// A transport-level retry due to an HTTP error.
    TransportRetry {
        /// Instance name or operation description.
        name: String,
        /// The retry attempt number, starting at one.
        attempt: u32,
        /// Delay before this retry attempt, in milliseconds.
        delay_ms: u64,
        /// Reason for the retry.
        reason: String,
    },
}

/// The chunk texts of the token events among `es`, in order.
pub open spec fn token_chunks(es: Seq<Event>) -> Seq<Seq<char>>
    decreases es.len(),
{
    if es.len() == 0 {
        Seq::empty()
    } else {
        token_chunks(es.drop_last()) + (match es.last() {
            Event::Token { name, chunk } => seq![chunk@],
            _ => Seq::empty(),
        })
    }
}

/// Whether an event is a token event.
pub open spec fn is_token_event(e: Event) -> bool {
    e is Token
}

/// Token chunks distribute over concatenation of event lists.
pub proof fn lemma_token_chunks_concat(a: Seq<Event>, b: Seq<Event>)
    ensures
        token_chunks(a + b) == token_chunks(a) + token_chunks(b),
    decreases b.len(),
{
    if b.len() == 0 {
        assert(a + b =~= a);
        assert(token_chunks(a) + token_chunks(b) =~= token_chunks(a));
    } else {
        lemma_token_chunks_concat(a, b.drop_last());
        assert((a + b).drop_last() =~= a + b.drop_last());
        assert((a + b).last() == b.last());
        assert(token_chunks(a + b) =~= token_chunks(a) + token_chunks(b));
    }
}

/// A list without token events contributes no chunks.
pub proof fn lemma_token_chunks_none(es: Seq<Event>)
    requires
        forall|j: int| 0 <= j < es.len() ==> !((#[trigger] es[j]) is Token),
    ensures
        token_chunks(es) == Seq::<Seq<char>>::empty(),
    decreases es.len(),
{
    if es.len() > 0 {
        assert(forall|j: int|
            0 <= j < es.drop_last().len() ==> (#[trigger] es.drop_last()[j]) == es[j]);
        lemma_token_chunks_none(es.drop_last());
        assert(!(es[es.len() - 1] is Token));
        assert(token_chunks(es) =~= Seq::<Seq<char>>::empty());
    }
}

/// Handler for payload lifecycle events; implement it to receive tokens,
/// progress updates and retry signals. Entirely optional.
pub trait EventHandler {
    /// Called when a payload emits an event.
    fn on_event(&self, event: &Event);
}

/// Record a non-token event: the token chunks are unchanged.
pub fn push_quiet(events: &mut Vec<Event>, e: Event)
    requires
        !(e is Token),
    ensures
        final(events)@ == old(events)@.push(e),
        token_chunks(final(events)@) == token_chunks(old(events)@),
{
    let ghost pre = events@;
    events.push(e);
    proof {
        assert(events@.drop_last() =~= pre);
        assert(token_chunks(events@) =~= token_chunks(pre));
    }
}

/// Record a token event: its chunk joins the token chunks.
pub fn push_token(events: &mut Vec<Event>, name: String, chunk: String)
    ensures
        token_chunks(final(events)@) == token_chunks(old(events)@).push(chunk@),
{
    let ghost pre = events@;
    let ghost c = chunk@;
    events.push(Event::Token { name, chunk });
    proof {
        assert(events@.drop_last() =~= pre);
        assert(events@.last() matches Event::Token { name, chunk } && chunk@ == c);
        assert(token_chunks(events@) =~= token_chunks(pre).push(c));
    }
}

/// Deliver an event to a handler when one is present; a no-op otherwise.
pub fn emit<H: EventHandler>(handler: &Option<&H>, event: &Event) {
    match handler {
        Some(h) => h.on_event(event),
        None => {}
    }
}

} // verus!
