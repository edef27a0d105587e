//! One front-end session: routing a request path to a target, and the
//! decisions of the two relay directions.
use crate::target::{Target, TargetRegistry, TargetType};
use crate::telnet::{run, Negotiation, TelnetHandler, TelnetState};
use std::sync::Arc;
use vstd::prelude::*;
use vstd::slice::slice_to_vec;

verus! {

/// Why a front-end request was not routed to a target.
#[derive(Debug, Clone, Copy, PartialEq, Eq, Structural)]
pub enum RouteError {
    /// The path does not have the form `/ws/<name>`.
    InvalidPath,
    /// No target is registered under the name.
    UnknownTarget,
}

impl RouteError {
    pub fn message(&self) -> (r: &'static str) {
        match self {
            RouteError::InvalidPath => "invalid path, expected /ws/{target}",
            RouteError::UnknownTarget => "unknown target",
        }
    }
}

/// The path prefix under which targets are reached.
pub open spec fn route_prefix() -> Seq<char> {
    seq!['/', 'w', 's', '/']
}

/// The target name that a request path selects.
pub open spec fn route_name(path: Seq<char>) -> Option<Seq<char>> {
    if path.len() >= 4 && path.take(4) == route_prefix() {
        Some(path.skip(4))
    } else {
        None
    }
}

/// The target name in a request path `/ws/<name>`.
pub fn target_name(path: &str) -> (r: Option<String>)
    ensures
        match r {
            Some(n) => route_name(path@) == Some(n@),
            None => route_name(path@) is None,
        },
{
    let len = path.unicode_len();
    if len < 4 {
        return None;
    }
    let a = path.get_char(0);
    let b = path.get_char(1);
    let c = path.get_char(2);
    let d = path.get_char(3);
    if a == '/' && b == 'w' && c == 's' && d == '/' {
        assert(path@.take(4) =~= route_prefix());
        Some(String::from_str(path.substring_char(4, len)))
    } else {
        assert(path@.take(4)[0] == a && path@.take(4)[1] == b && path@.take(4)[2] == c
            && path@.take(4)[3] == d);
        None
    }
}

/// Resolves a request path to the target it names.
pub fn route(registry: &TargetRegistry, path: &str) -> (r: Result<Arc<Target>, RouteError>)
    requires
        registry.wf(),
    ensures
        match route_name(path@) {
            None => r == Err::<Arc<Target>, RouteError>(RouteError::InvalidPath),
            Some(n) => if registry@.contains_key(n) {
                r matches Ok(t) && *t == registry@[n]
            } else {
                r == Err::<Arc<Target>, RouteError>(RouteError::UnknownTarget)
            },
        },
{
    match target_name(path) {
        None => Err(RouteError::InvalidPath),
        Some(name) => match registry.get(name.as_str()) {
            Some(t) => Ok(t),
            None => Err(RouteError::UnknownTarget),
        },
    }
}

/// A message from the front end, as far as relaying cares.
pub enum FrontFrame {
    Binary(Vec<u8>),
    Close,
    /// Text, ping and pong frames.
    Other,
}

/// What to do with a front-end message.
pub enum FrontAction {
    /// Write these bytes to the backend.
    Write(Vec<u8>),
    /// End this direction.
    Finish,
    /// Nothing.
    Skip,
}

/// The front-to-backend direction: the payload of a binary frame goes to the
/// backend verbatim; a close frame, or the end of the stream (`None`), ends
/// the direction; other frames are ignored.
pub fn on_front_frame(frame: Option<FrontFrame>) -> (r: FrontAction)
    ensures
        match frame {
            None => r is Finish,
            Some(FrontFrame::Binary(d)) => r == FrontAction::Write(d),
            Some(FrontFrame::Close) => r is Finish,
            Some(FrontFrame::Other) => r is Skip,
        },
{
    match frame {
        None => FrontAction::Finish,
        Some(FrontFrame::Binary(d)) => FrontAction::Write(d),
        Some(FrontFrame::Close) => FrontAction::Finish,
        Some(FrontFrame::Other) => FrontAction::Skip,
    }
}

/// What to do with a read from the backend.
pub enum BackAction {
    /// The backend closed: end this direction.
    Finish,
    /// Answer `reply` to the backend and send `frame` to the front end, each
    /// only when present.
    Forward { reply: Option<Vec<u8>>, frame: Option<Vec<u8>> },
}

/// The state of the backend-to-front direction.
pub struct RelayModel {
    pub mode: TargetType,
    pub negotiation: Negotiation,
}

/// The bytes answered to the backend for a non-empty read.
pub open spec fn relay_reply(m: RelayModel, chunk: Seq<u8>) -> Seq<u8> {
    match m.mode {
        TargetType::Raw => Seq::empty(),
        TargetType::Telnet => run(m.negotiation, chunk).reply,
    }
}

/// The bytes sent on to the front end for a non-empty read.
pub open spec fn relay_data(m: RelayModel, chunk: Seq<u8>) -> Seq<u8> {
    match m.mode {
        TargetType::Raw => chunk,
        TargetType::Telnet => run(m.negotiation, chunk).clean,
    }
}

/// The state after a non-empty read.
pub open spec fn relay_after(m: RelayModel, chunk: Seq<u8>) -> RelayModel {
    match m.mode {
        TargetType::Raw => m,
        TargetType::Telnet => RelayModel { mode: m.mode, negotiation: run(m.negotiation, chunk).after },
    }
}

/// `o` holds `s`, and is absent exactly when `s` is empty.
pub open spec fn holds_bytes(o: Option<Vec<u8>>, s: Seq<u8>) -> bool {
    match o {
        None => s.len() == 0,
        Some(v) => s.len() > 0 && v@ == s,
    }
}

/// The state after a series of non-empty reads.
pub open spec fn relay_state(m: RelayModel, chunks: Seq<Seq<u8>>) -> RelayModel
    decreases chunks.len(),
{
    if chunks.len() == 0 {
        m
    } else {
        relay_after(relay_state(m, chunks.drop_last()), chunks.last())
    }
}

/// The frames sent to the front end for a series of non-empty reads.
pub open spec fn relay_frames(m: RelayModel, chunks: Seq<Seq<u8>>) -> Seq<Seq<u8>>
    decreases chunks.len(),
{
    if chunks.len() == 0 {
        Seq::empty()
    } else {
        let earlier = relay_frames(m, chunks.drop_last());
        let data = relay_data(relay_state(m, chunks.drop_last()), chunks.last());
        if data.len() == 0 {
            earlier
        } else {
            earlier.push(data)
        }
    }
}

/// The frames the front end receives carry, laid end to end, exactly the
/// backend's bytes in passthrough mode, and exactly what the negotiator makes
/// of all of them in telnet mode, however the backend's output was cut into
/// reads. No frame is empty, and in passthrough mode each read is one frame.
pub proof fn lemma_relay_delivers(m: RelayModel, chunks: Seq<Seq<u8>>)
    requires
        forall|i: int| 0 <= i < chunks.len() ==> #[trigger] chunks[i].len() > 0,
    ensures
        m.mode == TargetType::Raw ==> relay_frames(m, chunks).flatten() == chunks.flatten(),
        m.mode == TargetType::Raw ==> relay_frames(m, chunks) == chunks,
        m.mode == TargetType::Telnet ==> relay_frames(m, chunks).flatten() == run(
            m.negotiation,
            chunks.flatten(),
        ).clean,
        m.mode == TargetType::Telnet ==> relay_state(m, chunks) == (RelayModel {
            mode: m.mode,
            negotiation: run(m.negotiation, chunks.flatten()).after,
        }),
        m.mode == TargetType::Raw ==> relay_state(m, chunks) == m,
        forall|i: int|
            0 <= i < relay_frames(m, chunks).len() ==> #[trigger] relay_frames(m, chunks)[i].len()
                > 0,
    decreases chunks.len(),
{
    if chunks.len() == 0 {
        assert(chunks.flatten() =~= Seq::<u8>::empty());
        assert(relay_frames(m, chunks) =~= chunks);
    } else {
        let init = chunks.drop_last();
        let last = chunks.last();
        assert forall|i: int| 0 <= i < init.len() implies #[trigger] init[i].len() > 0 by {
            assert(init[i] == chunks[i]);
        }
        lemma_relay_delivers(m, init);
        assert(init.push(last) =~= chunks);
        init.lemma_flatten_push(last);
        assert(last.len() > 0) by {
            assert(chunks[chunks.len() - 1] == last);
        }
        let earlier = relay_frames(m, init);
        let data = relay_data(relay_state(m, init), last);
        if m.mode == TargetType::Raw {
            assert(data == last);
            earlier.lemma_flatten_push(data);
            assert(relay_frames(m, chunks) =~= chunks);
        } else {
            crate::telnet::lemma_run_concat(m.negotiation, init.flatten(), last);
            if data.len() == 0 {
                assert(relay_frames(m, chunks).flatten() =~= run(
                    m.negotiation,
                    chunks.flatten(),
                ).clean);
            } else {
                earlier.lemma_flatten_push(data);
            }
        }
        assert forall|i: int|
            0 <= i < relay_frames(m, chunks).len() implies #[trigger] relay_frames(m, chunks)[i].len()
            > 0 by {
            if i < earlier.len() {
                assert(relay_frames(m, chunks)[i] == earlier[i]);
            }
        }
    }
}

/// The backend-to-front direction of one session.
pub struct Relay {
    mode: TargetType,
    telnet: TelnetHandler,
}

impl View for Relay {
    type V = RelayModel;

    closed spec fn view(&self) -> RelayModel {
        RelayModel { mode: self.mode, negotiation: self.telnet@ }
    }
}

fn present(v: Vec<u8>) -> (r: Option<Vec<u8>>)
    ensures
        holds_bytes(r, v@),
{
    if v.len() == 0 {
        None
    } else {
        Some(v)
    }
}

impl Relay {
    pub fn new(mode: TargetType) -> (r: Self)
        ensures
            r@ == (RelayModel {
                mode,
                negotiation: Negotiation { state: TelnetState::Data, naws_sent: false },
            }),
    {
        Relay { mode, telnet: TelnetHandler::new() }
    }

    /// Handles one read of the backend: an empty read means the backend
    /// closed; other bytes go to the front end verbatim in passthrough mode,
    /// and through the negotiator in telnet mode, whose answers go back to
    /// the backend.
    pub fn on_backend_data(&mut self, chunk: &[u8]) -> (r: BackAction)
        ensures
            chunk@.len() == 0 ==> r is Finish && final(self)@ == old(self)@,
            chunk@.len() > 0 ==> final(self)@ == relay_after(old(self)@, chunk@),
            chunk@.len() > 0 ==> (r matches BackAction::Forward { reply, frame } && holds_bytes(
                reply,
                relay_reply(old(self)@, chunk@),
            ) && holds_bytes(frame, relay_data(old(self)@, chunk@))),
    {
        if chunk.len() == 0 {
            return BackAction::Finish;
        }
        match self.mode {
            TargetType::Raw => BackAction::Forward { reply: None, frame: Some(slice_to_vec(chunk)) },
            TargetType::Telnet => {
                let (clean, replies) = self.telnet.process(chunk);
                BackAction::Forward { reply: present(replies), frame: present(clean) }
            },
        }
    }
}

} // verus!
