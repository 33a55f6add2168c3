use vstd::prelude::*;

verus! {

/// Where one instance stands in its life: it becomes usable only through
/// the initialize exchange, and nothing brings it back from `Failed`.
#[derive(Clone, Copy, PartialEq, Eq, Structural, Debug)]
pub enum HandshakePhase {
    /// Process spawned; nothing sent yet.
    Uninitialized,
    /// The initialize request is on the wire; its response is awaited.
    InitializeSent,
    /// The response arrived and the initialized notification went out: the
    /// instance may serve requests.
    Ready,
    /// The exchange failed or the process died; the instance is unusable.
    Failed,
}

/// What the handshake reacts to.
#[derive(Clone, Copy, PartialEq, Eq, Structural, Debug)]
pub enum HandshakeEvent {
    /// The initialize request was written to the process.
    SendInitialize,
    /// The response to the initialize request arrived well-formed.
    InitializeOk,
    /// The response was an error or malformed.
    InitializeErr,
    /// The process exited.
    ProcessExited,
}

/// One step of the initialization handshake. A dead process fails the
/// instance from any phase; events that make no sense in a phase change
/// nothing.
pub open spec fn spec_handshake_step(p: HandshakePhase, e: HandshakeEvent) -> HandshakePhase {
    match (p, e) {
        (_, HandshakeEvent::ProcessExited) => HandshakePhase::Failed,
        (HandshakePhase::Uninitialized, HandshakeEvent::SendInitialize) => HandshakePhase::InitializeSent,
        (HandshakePhase::InitializeSent, HandshakeEvent::InitializeOk) => HandshakePhase::Ready,
        (HandshakePhase::InitializeSent, HandshakeEvent::InitializeErr) => HandshakePhase::Failed,
        _ => p,
    }
}

/// Drive the handshake by one event.
pub fn handshake_step(p: HandshakePhase, e: HandshakeEvent) -> (r: HandshakePhase)
    ensures
        r == spec_handshake_step(p, e),
{
    match (p, e) {
        (_, HandshakeEvent::ProcessExited) => HandshakePhase::Failed,
        (HandshakePhase::Uninitialized, HandshakeEvent::SendInitialize) => HandshakePhase::InitializeSent,
        (HandshakePhase::InitializeSent, HandshakeEvent::InitializeOk) => HandshakePhase::Ready,
        (HandshakePhase::InitializeSent, HandshakeEvent::InitializeErr) => HandshakePhase::Failed,
        _ => p,
    }
}

/// Whether an instance in phase `p` may serve requests.
pub fn is_ready(p: HandshakePhase) -> (r: bool)
    ensures
        r == (p is Ready),
{
    match p {
        HandshakePhase::Ready => true,
        _ => false,
    }
}

/// No step reaches `Ready` except by completing the initialize exchange
/// or by already being ready: an instance is never usable before its
/// handshake succeeded.
pub proof fn lemma_ready_only_through_handshake(p: HandshakePhase, e: HandshakeEvent)
    ensures
        spec_handshake_step(p, e) is Ready ==> (p is Ready && !(e is ProcessExited)) || (
        p is InitializeSent && e is InitializeOk),
{
}

/// Nothing brings a failed instance back.
pub proof fn lemma_failed_is_final(p: HandshakePhase, e: HandshakeEvent)
    ensures
        p is Failed ==> spec_handshake_step(p, e) is Failed,
{
}

} // verus!
