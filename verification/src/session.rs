//! One party's run of the protocol, as a state machine. The machine decides;
//! whoever drives it sends and receives. Each step takes what the channels
//! did with the last action and gives the next action.
//!
//! The server goes from awaiting shares to awaiting patterns to responded;
//! the querier from sending its share to sending its patterns to awaiting
//! the reply to done; any other client from sending its share to done.
use vstd::prelude::*;
use crate::approx_mpsi::{ApproximateMpsiParty, ProtocolError};
use crate::byte_algebra::{xor_bytes, zero_bytes};
use crate::element_set::ElementSet;
use crate::roles::{
    answered, answers_to, evaluate_patterns, is_client_share, patterns_for, patterns_in_range,
    patterns_of, select_answered,
};
use crate::secret_sharing::SimdBytes;
use crate::trusted::{
    answers_decoding, answers_encoding, deserialize_answers, deserialize_patterns,
    patterns_decoding, patterns_encoding, serialize_answers, serialize_patterns,
};
use crate::SHARE_BYTE_COUNT;

verus! {

/// What a party does in the protocol, which its id decides.
#[derive(Clone, Copy, Debug, PartialEq, Eq, Structural)]
pub enum Role {
    /// Id 0: aggregates the shares and answers the querier.
    Server,
    /// Id 1: contributes a set and learns the intersection.
    Querier,
    /// Any other id: contributes a set.
    Client,
}

/// Where a party stands in its run.
#[derive(Clone, Copy, Debug, PartialEq, Eq, Structural)]
pub enum Phase {
    AwaitingShares,
    AwaitingPatterns,
    Responded,
    SendingShare,
    SendingPattern,
    AwaitingReply,
    Done,
}

/// What the channels are to do next for a party.
#[derive(Debug)]
pub enum Action {
    /// Send `payload` to party `to`.
    Send { to: usize, payload: Vec<u8> },
    /// Wait for the next message of party `from`.
    Receive { from: usize },
    /// Nothing more: the run is over, with this output.
    Finish { output: Option<ElementSet> },
}

/// What the channels did with the last action.
#[derive(Debug)]
pub enum Event {
    /// The payload was sent.
    Sent,
    /// The awaited message arrived.
    Received(Vec<u8>),
    /// The channels failed.
    Failed,
}

/// An [`Action`] with its bytes and elements as sequences.
pub enum ActionView {
    Send { to: usize, payload: Seq<u8> },
    Receive { from: usize },
    Finish { output: Option<Seq<usize>> },
}

/// An [`Event`] with its bytes as a sequence.
pub enum EventView {
    Sent,
    Received(Seq<u8>),
    Failed,
}

impl View for Action {
    type V = ActionView;

    open spec fn view(&self) -> ActionView {
        match *self {
            Action::Send { to, payload } => ActionView::Send { to, payload: payload@ },
            Action::Receive { from } => ActionView::Receive { from },
            Action::Finish { output: Some(set) } => ActionView::Finish {
                output: Some(set.elements@),
            },
            Action::Finish { output: None } => ActionView::Finish { output: None },
        }
    }
}

impl View for Event {
    type V = EventView;

    open spec fn view(&self) -> EventView {
        match *self {
            Event::Sent => EventView::Sent,
            Event::Received(payload) => EventView::Received(payload@),
            Event::Failed => EventView::Failed,
        }
    }
}

/// The state of one party's run.
pub struct Session {
    role: Role,
    phase: Phase,
    bin_count: usize,
    hash_count: usize,
    n_parties: usize,
    next_sender: usize,
    aggregate: SimdBytes,
    elements: Vec<usize>,
}

/// What a [`Session`] holds.
pub struct SessionView {
    pub role: Role,
    pub phase: Phase,
    pub bin_count: usize,
    pub hash_count: usize,
    pub n_parties: usize,
    /// The server's: the id of the party whose share it awaits.
    pub next_sender: usize,
    /// The server's: the XOR of the shares received so far.
    pub aggregate: Seq<u8>,
    /// The querier's: its elements, in the order of its patterns.
    pub elements: Seq<usize>,
}

impl View for Session {
    type V = SessionView;

    closed spec fn view(&self) -> SessionView {
        SessionView {
            role: self.role,
            phase: self.phase,
            bin_count: self.bin_count,
            hash_count: self.hash_count,
            n_parties: self.n_parties,
            next_sender: self.next_sender,
            aggregate: self.aggregate@,
            elements: self.elements@,
        }
    }
}

/// The server takes in one share: it must hold five bytes for each bin, and
/// is added to the aggregate. After the last client's share the server
/// awaits the querier's patterns.
pub open spec fn absorb_share(s: SessionView, payload: Seq<u8>) -> Result<
    (SessionView, ActionView),
    ProtocolError,
> {
    if payload.len() != 5 * s.bin_count {
        Err(ProtocolError::ShareSizeMismatch)
    } else if s.next_sender + 1 < s.n_parties {
        Ok(
            (
                SessionView {
                    aggregate: xor_bytes(s.aggregate, payload),
                    next_sender: (s.next_sender + 1) as usize,
                    ..s
                },
                ActionView::Receive { from: (s.next_sender + 1) as usize },
            ),
        )
    } else {
        Ok(
            (
                SessionView {
                    phase: Phase::AwaitingPatterns,
                    aggregate: xor_bytes(s.aggregate, payload),
                    next_sender: (s.next_sender + 1) as usize,
                    ..s
                },
                ActionView::Receive { from: 1 },
            ),
        )
    }
}

/// The server answers the querier's patterns against the aggregate.
pub open spec fn answer_patterns(s: SessionView, payload: Seq<u8>) -> Result<
    (SessionView, ActionView),
    ProtocolError,
> {
    match patterns_decoding(payload) {
        None => Err(ProtocolError::WireMalformed),
        Some(patterns) => if !patterns_in_range(patterns, s.aggregate.len() as int / 5) {
            Err(ProtocolError::WireMalformed)
        } else {
            match answers_encoding(answers_to(s.aggregate, patterns)) {
                None => Err(ProtocolError::WireMalformed),
                Some(reply) => Ok(
                    (
                        SessionView { phase: Phase::Responded, ..s },
                        ActionView::Send { to: 1, payload: reply },
                    ),
                ),
            }
        },
    }
}

/// A share is on its way: the querier goes on with its patterns, any other
/// client is done.
pub open spec fn share_sent(s: SessionView) -> Result<(SessionView, ActionView), ProtocolError> {
    if s.role == Role::Querier {
        match patterns_encoding(patterns_of(s.elements, s.bin_count, s.hash_count)) {
            None => Err(ProtocolError::WireMalformed),
            Some(payload) => Ok(
                (
                    SessionView { phase: Phase::SendingPattern, ..s },
                    ActionView::Send { to: 0, payload },
                ),
            ),
        }
    } else {
        Ok((SessionView { phase: Phase::Done, ..s }, ActionView::Finish { output: None }))
    }
}

/// The querier reads the server's reply: one answer for each of its
/// elements, of which it keeps those answered with true.
pub open spec fn read_reply(s: SessionView, payload: Seq<u8>) -> Result<
    (SessionView, ActionView),
    ProtocolError,
> {
    match answers_decoding(payload) {
        None => Err(ProtocolError::WireMalformed),
        Some(answers) => if answers.len() != s.elements.len() {
            Err(ProtocolError::WireMalformed)
        } else {
            Ok(
                (
                    SessionView { phase: Phase::Done, ..s },
                    ActionView::Finish { output: Some(answered(s.elements, answers)) },
                ),
            )
        },
    }
}

/// The next state and action of a party in state `s` on `event`. A failure
/// of the channels, or an event that does not answer the last action, ends
/// the run.
pub open spec fn transition(s: SessionView, event: EventView) -> Result<
    (SessionView, ActionView),
    ProtocolError,
> {
    match (s.phase, event) {
        (_, EventView::Failed) => Err(ProtocolError::ChannelBroken),
        (Phase::AwaitingShares, EventView::Received(payload)) => absorb_share(s, payload),
        (Phase::AwaitingPatterns, EventView::Received(payload)) => answer_patterns(s, payload),
        (Phase::Responded, EventView::Sent) => Ok((s, ActionView::Finish { output: None })),
        (Phase::SendingShare, EventView::Sent) => share_sent(s),
        (Phase::SendingPattern, EventView::Sent) => Ok(
            (SessionView { phase: Phase::AwaitingReply, ..s }, ActionView::Receive { from: 0 }),
        ),
        (Phase::AwaitingReply, EventView::Received(payload)) => read_reply(s, payload),
        _ => Err(ProtocolError::ChannelBroken),
    }
}

/// A step's result with its session and action as views.
pub open spec fn outcome_view(result: Result<(Session, Action), ProtocolError>) -> Result<
    (SessionView, ActionView),
    ProtocolError,
> {
    match result {
        Ok((session, action)) => Ok((session@, action@)),
        Err(error) => Err(error),
    }
}

impl ApproximateMpsiParty {
    /// Whether this party can run as party `id` of `n_parties`: there are at
    /// least three parties, and a party other than the server has an input
    /// and one seed for each of the other clients.
    pub open spec fn can_begin(&self, id: usize, n_parties: usize, input: Option<ElementSet>) -> bool {
        &&& n_parties >= 3
        &&& id < n_parties
        &&& id == 0 || (input is Some && self.spec_seeds().len() == n_parties - 2)
    }

    /// The state in which party `id` of `n_parties` begins.
    pub open spec fn first_view(&self, id: usize, n_parties: usize, input: Option<ElementSet>) -> SessionView {
        SessionView {
            role: if id == 0 {
                Role::Server
            } else if id == 1 {
                Role::Querier
            } else {
                Role::Client
            },
            phase: if id == 0 {
                Phase::AwaitingShares
            } else {
                Phase::SendingShare
            },
            bin_count: self.bin_count(),
            hash_count: self.hash_count(),
            n_parties,
            next_sender: 1,
            aggregate: if id == 0 {
                zero_bytes((5 * self.bin_count()) as nat)
            } else {
                Seq::empty()
            },
            elements: if id == 1 {
                input.unwrap().elements@
            } else {
                Seq::empty()
            },
        }
    }

    /// Begins the run of this party as party `id` of `n_parties`. The server
    /// begins by awaiting the share of party 1; any other party begins by
    /// sending the server its share, made from its seeds and its set.
    pub fn begin(&self, id: usize, n_parties: usize, input: &Option<ElementSet>) -> (result: Result<
        (Session, Action),
        ProtocolError,
    >)
        ensures
            match result {
                Ok((session, action)) => {
                    &&& self.can_begin(id, n_parties, *input)
                    &&& session@ == self.first_view(id, n_parties, *input)
                    &&& if id == 0 {
                        action@ == (ActionView::Receive { from: 1 })
                    } else {
                        &&& action@ matches ActionView::Send { to, payload }
                        &&& to == 0
                        &&& is_client_share(
                            payload,
                            self.spec_seeds(),
                            input.unwrap().elements@,
                            self.bin_count(),
                            self.hash_count(),
                        )
                    }
                },
                Err(error) => error == ProtocolError::SetupInvalid && !self.can_begin(
                    id,
                    n_parties,
                    *input,
                ),
            },
    {
        let bin_count: usize = self.bin_count();
        if n_parties < 3 || id >= n_parties {
            return Err(ProtocolError::SetupInvalid);
        }
        if id == 0 {
            let zeros: Vec<u8> = vec![0u8; SHARE_BYTE_COUNT * bin_count];
            let aggregate = SimdBytes::from_bytes(zeros.as_slice());
            assert(aggregate@ =~= zero_bytes((5 * bin_count) as nat));
            let session = Session {
                role: Role::Server,
                phase: Phase::AwaitingShares,
                bin_count,
                hash_count: self.hash_count(),
                n_parties,
                next_sender: 1,
                aggregate,
                elements: Vec::new(),
            };
            return Ok((session, Action::Receive { from: 1 }));
        }
        match input {
            None => Err(ProtocolError::SetupInvalid),
            Some(set) => {
                if self.seeds().len() != n_parties - 2 {
                    return Err(ProtocolError::SetupInvalid);
                }
                let payload = self.client_share(set);
                let empty: Vec<u8> = Vec::new();
                let aggregate = SimdBytes::from_bytes(empty.as_slice());
                assert(aggregate@ =~= Seq::<u8>::empty());
                let session = Session {
                    role: if id == 1 {
                        Role::Querier
                    } else {
                        Role::Client
                    },
                    phase: Phase::SendingShare,
                    bin_count,
                    hash_count: self.hash_count(),
                    n_parties,
                    next_sender: 1,
                    aggregate,
                    elements: if id == 1 {
                        ElementSet::new(set.elements.as_slice()).elements
                    } else {
                        Vec::new()
                    },
                };
                Ok((session, Action::Send { to: 0, payload }))
            },
        }
    }
}

impl Session {
    #[verifier::type_invariant]
    spec fn well_formed(self) -> bool {
        &&& self.bin_count > 0
        &&& self.bin_count % 64 == 0
        &&& 5 * self.bin_count <= usize::MAX
        &&& self.phase == Phase::AwaitingShares ==> self.next_sender < self.n_parties
    }

    /// Where the party stands.
    pub fn phase(&self) -> (result: Phase)
        ensures
            result == self@.phase,
    {
        self.phase
    }

    /// What the party does in the protocol.
    pub fn role(&self) -> (result: Role)
        ensures
            result == self@.role,
    {
        self.role
    }

    /// Takes what the channels did with the last action, and gives the
    /// party's next state and action, or the error that ends its run.
    pub fn step(self, event: Event) -> (result: Result<(Session, Action), ProtocolError>)
        ensures
            outcome_view(result) == transition(self@, event@),
    {
        proof {
            use_type_invariant(&self);
        }
        let Session {
            role,
            phase,
            bin_count,
            hash_count,
            n_parties,
            next_sender,
            aggregate,
            elements,
        } = self;
        match event {
            Event::Failed => Err(ProtocolError::ChannelBroken),
            Event::Sent => match phase {
                Phase::Responded => Ok(
                    (
                        Session {
                            role,
                            phase,
                            bin_count,
                            hash_count,
                            n_parties,
                            next_sender,
                            aggregate,
                            elements,
                        },
                        Action::Finish { output: None },
                    ),
                ),
                Phase::SendingShare => match role {
                    Role::Querier => {
                        let patterns = patterns_for(&elements, bin_count, hash_count);
                        match serialize_patterns(&patterns) {
                            Err(_) => Err(ProtocolError::WireMalformed),
                            Ok(payload) => Ok(
                                (
                                    Session {
                                        role,
                                        phase: Phase::SendingPattern,
                                        bin_count,
                                        hash_count,
                                        n_parties,
                                        next_sender,
                                        aggregate,
                                        elements,
                                    },
                                    Action::Send { to: 0, payload },
                                ),
                            ),
                        }
                    },
                    _ => Ok(
                        (
                            Session {
                                role,
                                phase: Phase::Done,
                                bin_count,
                                hash_count,
                                n_parties,
                                next_sender,
                                aggregate,
                                elements,
                            },
                            Action::Finish { output: None },
                        ),
                    ),
                },
                Phase::SendingPattern => Ok(
                    (
                        Session {
                            role,
                            phase: Phase::AwaitingReply,
                            bin_count,
                            hash_count,
                            n_parties,
                            next_sender,
                            aggregate,
                            elements,
                        },
                        Action::Receive { from: 0 },
                    ),
                ),
                _ => Err(ProtocolError::ChannelBroken),
            },
            Event::Received(payload) => match phase {
                Phase::AwaitingShares => {
                    if payload.len() != SHARE_BYTE_COUNT * bin_count {
                        return Err(ProtocolError::ShareSizeMismatch);
                    }
                    let share = SimdBytes::from_bytes(payload.as_slice());
                    let mut aggregate = aggregate;
                    core::ops::BitXorAssign::bitxor_assign(&mut aggregate, share);
                    let next: usize = next_sender + 1;
                    if next < n_parties {
                        Ok(
                            (
                                Session {
                                    role,
                                    phase,
                                    bin_count,
                                    hash_count,
                                    n_parties,
                                    next_sender: next,
                                    aggregate,
                                    elements,
                                },
                                Action::Receive { from: next },
                            ),
                        )
                    } else {
                        Ok(
                            (
                                Session {
                                    role,
                                    phase: Phase::AwaitingPatterns,
                                    bin_count,
                                    hash_count,
                                    n_parties,
                                    next_sender: next,
                                    aggregate,
                                    elements,
                                },
                                Action::Receive { from: 1 },
                            ),
                        )
                    }
                },
                Phase::AwaitingPatterns => {
                    match deserialize_patterns(payload.as_slice()) {
                        Err(_) => Err(ProtocolError::WireMalformed),
                        Ok(patterns) => {
                            let cells = aggregate.to_bytes();
                            match evaluate_patterns(cells.as_slice(), &patterns) {
                                Err(error) => Err(error),
                                Ok(answers) => match serialize_answers(&answers) {
                                    Err(_) => Err(ProtocolError::WireMalformed),
                                    Ok(reply) => Ok(
                                        (
                                            Session {
                                                role,
                                                phase: Phase::Responded,
                                                bin_count,
                                                hash_count,
                                                n_parties,
                                                next_sender,
                                                aggregate,
                                                elements,
                                            },
                                            Action::Send { to: 1, payload: reply },
                                        ),
                                    ),
                                },
                            }
                        },
                    }
                },
                Phase::AwaitingReply => {
                    match deserialize_answers(payload.as_slice()) {
                        Err(_) => Err(ProtocolError::WireMalformed),
                        Ok(answers) => match select_answered(
                            elements.as_slice(),
                            answers.as_slice(),
                        ) {
                            Err(error) => Err(error),
                            Ok(output) => Ok(
                                (
                                    Session {
                                        role,
                                        phase: Phase::Done,
                                        bin_count,
                                        hash_count,
                                        n_parties,
                                        next_sender,
                                        aggregate,
                                        elements,
                                    },
                                    Action::Finish { output: Some(output) },
                                ),
                            ),
                        },
                    }
                },
                _ => Err(ProtocolError::ChannelBroken),
            },
        }
    }
}

} // verus!
