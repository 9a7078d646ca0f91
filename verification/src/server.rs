//! The session spawner / listener loop and the transport choices
//! around it.
//!
//! The loop is a state machine driven by the surrounding program: the
//! program establishes connections and runs sessions, while every
//! decision — which transport mode to use, when to spawn a session,
//! whether to keep listening — is computed and verified here. Serving
//! is strictly serial: a new session is spawned only when no session
//! is live, so the engine singleton never sees two sessions at once.

use vstd::prelude::*;

verus! {

/// The transport mode, selected exactly once from configuration.
#[derive(Clone, Copy, Debug, PartialEq, Eq, Structural)]
pub enum TransportMode {
    /// Wrap standard input/output; exactly one session.
    Stdio,
    /// Actively connect to a loopback port; exactly one session.
    Connect(u16),
    /// Bind a loopback listener and accept repeatedly.
    Listen(u16),
}

/// Selects the transport mode: an outbound connect port takes
/// precedence, then a listen port, and with neither the process
/// serves a single session on standard input/output.
pub fn select_mode(connect: Option<u16>, port: Option<u16>) -> (m: TransportMode)
    ensures
        connect is Some ==> m == TransportMode::Connect(connect->0),
        connect is None && port is Some ==> m == TransportMode::Listen(port->0),
        connect is None && port is None ==> m == TransportMode::Stdio,
{
    match connect {
        Option::Some(p) => TransportMode::Connect(p),
        Option::None => match port {
            Option::Some(p) => TransportMode::Listen(p),
            Option::None => TransportMode::Stdio,
        },
    }
}

/// The authentication preamble prefix, the bytes of `Auth-Token: `.
pub open spec fn auth_prefix() -> Seq<u8> {
    seq![65u8, 117u8, 116u8, 104u8, 45u8, 84u8, 111u8, 107u8, 101u8, 110u8, 58u8, 32u8]
}

/// The full authentication preamble line for one token: the prefix,
/// the token bytes, then carriage return and line feed.
pub open spec fn auth_preamble_spec(token: Seq<u8>) -> Seq<u8> {
    auth_prefix() + token + seq![13u8, 10u8]
}

/// Builds the authentication preamble written on an outbound
/// connection strictly before the first protocol frame.
pub fn auth_preamble(token: &Vec<u8>) -> (out: Vec<u8>)
    ensures
        out@ == auth_preamble_spec(token@),
{
    let mut out: Vec<u8> = Vec::new();
    out.push(65u8);
    out.push(117u8);
    out.push(116u8);
    out.push(104u8);
    out.push(45u8);
    out.push(84u8);
    out.push(111u8);
    out.push(107u8);
    out.push(101u8);
    out.push(110u8);
    out.push(58u8);
    out.push(32u8);
    let mut i: usize = 0;
    while i < token.len()
        invariant
            i <= token.len(),
            out@ == auth_prefix() + token@.subrange(0, i as int),
        decreases token.len() - i,
    {
        out.push(token[i]);
        proof {
            assert(out@ =~= auth_prefix() + token@.subrange(0, i + 1 as int));
        }
        i = i + 1;
    }
    out.push(13u8);
    out.push(10u8);
    proof {
        assert(token@.subrange(0, token@.len() as int) =~= token@);
        assert(out@ =~= auth_preamble_spec(token@));
    }
    out
}

/// The bytes an outbound connection writes before any frame: the
/// authentication preamble when a token is configured, nothing
/// otherwise.
pub fn connect_preamble(token: &Option<Vec<u8>>) -> (out: Vec<u8>)
    ensures
        token is Some ==> out@ == auth_preamble_spec(token->0@),
        token is None ==> out@ == Seq::<u8>::empty(),
{
    match token {
        Option::Some(t) => auth_preamble(t),
        Option::None => Vec::new(),
    }
}

/// The phase of the session spawner / listener loop.
#[derive(Clone, Copy, Debug, PartialEq, Eq, Structural)]
pub enum ServerPhase {
    /// Single-shot mode, waiting for its one connection.
    SingleShot,
    /// Listening mode, waiting for the next accepted connection.
    Listening,
    /// One session is live; nothing else is accepted meanwhile.
    Serving,
    /// The loop is over; the process proceeds to shutdown.
    Terminated,
}

/// What the surrounding program reports to the loop.
#[derive(Clone, Copy, Debug, PartialEq, Eq, Structural)]
pub enum ServerEvent {
    /// A connection was established or accepted and configured.
    ConnectionReady,
    /// The live session's logic declared completion.
    SessionCompleted,
    /// Establishing or accepting a connection failed.
    AcceptFailed,
}

/// What the surrounding program must do next.
#[derive(Clone, Copy, Debug, PartialEq, Eq, Structural)]
pub enum ServerAction {
    /// Split the new connection and run pump and session to completion.
    SpawnSession,
    /// Await the next connection.
    AwaitConnection,
    /// Stop the loop and proceed to shutdown.
    Stop,
}

/// The session spawner / listener loop state.
pub struct ListenerLoop {
    pub phase: ServerPhase,
    /// True in listening mode, false in the single-shot modes.
    pub listening: bool,
    /// Whether the loop keeps accepting after a served session.
    pub multi_session: bool,
    /// How many sessions have been served to completion.
    pub served: u64,
}

/// One transition of the loop: from a state and an event to the next
/// state and the action the program must take. Unexpected events are
/// treated as reasons to stop, like an accept failure.
pub open spec fn step_spec(s: ListenerLoop, e: ServerEvent) -> (ListenerLoop, ServerAction) {
    match s.phase {
        ServerPhase::SingleShot => match e {
            ServerEvent::ConnectionReady => (
                ListenerLoop { phase: ServerPhase::Serving, ..s },
                ServerAction::SpawnSession,
            ),
            _ => (ListenerLoop { phase: ServerPhase::Terminated, ..s }, ServerAction::Stop),
        },
        ServerPhase::Listening => match e {
            ServerEvent::ConnectionReady => (
                ListenerLoop { phase: ServerPhase::Serving, ..s },
                ServerAction::SpawnSession,
            ),
            _ => (ListenerLoop { phase: ServerPhase::Terminated, ..s }, ServerAction::Stop),
        },
        ServerPhase::Serving => match e {
            ServerEvent::SessionCompleted => {
                let served = if s.served == u64::MAX {
                    u64::MAX
                } else {
                    (s.served + 1) as u64
                };
                if s.listening && s.multi_session {
                    (
                        ListenerLoop { phase: ServerPhase::Listening, served, ..s },
                        ServerAction::AwaitConnection,
                    )
                } else {
                    (
                        ListenerLoop { phase: ServerPhase::Terminated, served, ..s },
                        ServerAction::Stop,
                    )
                }
            },
            _ => (ListenerLoop { phase: ServerPhase::Terminated, ..s }, ServerAction::Stop),
        },
        ServerPhase::Terminated => (
            ListenerLoop { phase: ServerPhase::Terminated, ..s },
            ServerAction::Stop,
        ),
    }
}

impl ListenerLoop {
    /// A fresh loop for a single-shot mode (stdio or connect).
    pub fn new_single_shot() -> (s: Self)
        ensures
            s.phase == ServerPhase::SingleShot,
            !s.listening,
            !s.multi_session,
            s.served == 0,
    {
        ListenerLoop {
            phase: ServerPhase::SingleShot,
            listening: false,
            multi_session: false,
            served: 0,
        }
    }

    /// A fresh loop for listening mode.
    pub fn new_listening(multi_session: bool) -> (s: Self)
        ensures
            s.phase == ServerPhase::Listening,
            s.listening,
            s.multi_session == multi_session,
            s.served == 0,
    {
        ListenerLoop {
            phase: ServerPhase::Listening,
            listening: true,
            multi_session,
            served: 0,
        }
    }

    /// Advances the loop by one event and returns the action to take.
    pub fn step(&mut self, e: ServerEvent) -> (a: ServerAction)
        ensures
            (*final(self), a) == step_spec(*old(self), e),
    {
        match self.phase {
            ServerPhase::SingleShot | ServerPhase::Listening => match e {
                ServerEvent::ConnectionReady => {
                    self.phase = ServerPhase::Serving;
                    ServerAction::SpawnSession
                },
                _ => {
                    self.phase = ServerPhase::Terminated;
                    ServerAction::Stop
                },
            },
            ServerPhase::Serving => match e {
                ServerEvent::SessionCompleted => {
                    if self.served < u64::MAX {
                        self.served = self.served + 1;
                    }
                    if self.listening && self.multi_session {
                        self.phase = ServerPhase::Listening;
                        ServerAction::AwaitConnection
                    } else {
                        self.phase = ServerPhase::Terminated;
                        ServerAction::Stop
                    }
                },
                _ => {
                    self.phase = ServerPhase::Terminated;
                    ServerAction::Stop
                },
            },
            ServerPhase::Terminated => ServerAction::Stop,
        }
    }
}

/// The loop state after a whole sequence of events.
pub open spec fn run_trace(s: ListenerLoop, events: Seq<ServerEvent>) -> ListenerLoop
    decreases events.len(),
{
    if events.len() == 0 {
        s
    } else {
        run_trace(step_spec(s, events[0]).0, events.drop_first())
    }
}

/// Serial exclusivity, one step at a time: a session is spawned only
/// while no session is live, a spawn makes a session live, and the
/// served count grows exactly when a live session completes.
pub proof fn lemma_serial_exclusivity(s: ListenerLoop, e: ServerEvent)
    ensures
        step_spec(s, e).1 == ServerAction::SpawnSession ==> s.phase != ServerPhase::Serving,
        step_spec(s, e).1 == ServerAction::SpawnSession ==> step_spec(s, e).0.phase
            == ServerPhase::Serving,
        step_spec(s, e).0.served != s.served ==> s.phase == ServerPhase::Serving && e
            == ServerEvent::SessionCompleted,
{
}

/// A terminated loop stays terminated: no later event changes the
/// state or serves another session.
pub proof fn lemma_terminated_absorbs(s: ListenerLoop, events: Seq<ServerEvent>)
    requires
        s.phase == ServerPhase::Terminated,
    ensures
        run_trace(s, events).phase == ServerPhase::Terminated,
        run_trace(s, events).served == s.served,
    decreases events.len(),
{
    if events.len() > 0 {
        lemma_terminated_absorbs(step_spec(s, events[0]).0, events.drop_first());
    }
}

/// Running a trace in two pieces is running it whole.
pub proof fn lemma_run_trace_append(s: ListenerLoop, a: Seq<ServerEvent>, b: Seq<ServerEvent>)
    ensures
        run_trace(s, a + b) == run_trace(run_trace(s, a), b),
    decreases a.len(),
{
    if a.len() == 0 {
        assert(a + b =~= b);
    } else {
        assert((a + b).drop_first() =~= a.drop_first() + b);
        lemma_run_trace_append(step_spec(s, a[0]).0, a.drop_first(), b);
    }
}

/// The events of one served connection: an accept followed by the
/// completion of the session spawned for it.
pub open spec fn session_round() -> Seq<ServerEvent> {
    seq![ServerEvent::ConnectionReady, ServerEvent::SessionCompleted]
}

/// `k` sequential connections, each served to completion.
pub open spec fn session_rounds(k: nat) -> Seq<ServerEvent>
    decreases k,
{
    if k == 0 {
        Seq::empty()
    } else {
        session_rounds((k - 1) as nat) + session_round()
    }
}

/// With multi-session disabled, one served connection terminates the
/// loop with exactly one session served; whatever happens afterwards,
/// no further session is ever served.
pub proof fn lemma_single_session(s: ListenerLoop, later: Seq<ServerEvent>)
    requires
        s.phase == ServerPhase::Listening || s.phase == ServerPhase::SingleShot,
        !s.multi_session,
        s.served == 0,
    ensures
        run_trace(s, session_round()).phase == ServerPhase::Terminated,
        run_trace(s, session_round()).served == 1,
        run_trace(s, session_round() + later).served == 1,
{
    reveal_with_fuel(run_trace, 3);
    lemma_run_trace_append(s, session_round(), later);
    lemma_terminated_absorbs(run_trace(s, session_round()), later);
}

/// With multi-session enabled, `k` sequential connections are served
/// as exactly `k` sessions, strictly one after the other, and the
/// loop is back to listening for the next.
pub proof fn lemma_k_sessions(s: ListenerLoop, k: nat)
    requires
        s.phase == ServerPhase::Listening,
        s.listening,
        s.multi_session,
        s.served + k <= u64::MAX,
    ensures
        run_trace(s, session_rounds(k)).phase == ServerPhase::Listening,
        run_trace(s, session_rounds(k)).served == s.served + k,
        run_trace(s, session_rounds(k)).listening,
        run_trace(s, session_rounds(k)).multi_session,
    decreases k,
{
    if k == 0 {
        assert(session_rounds(0) =~= Seq::<ServerEvent>::empty());
    } else {
        lemma_k_sessions(s, (k - 1) as nat);
        let mid = run_trace(s, session_rounds((k - 1) as nat));
        lemma_run_trace_append(s, session_rounds((k - 1) as nat), session_round());
        reveal_with_fuel(run_trace, 3);
        assert(run_trace(mid, session_round()).served == mid.served + 1);
    }
}

} // verus!
