//! The channel handshake: the driver that opens a channel between two
//! chains, step by step, and the decisions that it takes on the way.

pub mod error;
pub mod retry_strategy;

use crate::chain::counterparty::answers_connection;
use crate::chain::counterparty::asks_for_channels_of;
use crate::chain::counterparty::channel_connection_client;
use crate::chain::counterparty::channel_state_on_destination;
use crate::chain::counterparty::is_resolved;
use crate::chain::counterparty::is_state_on_destination;
use crate::chain::counterparty::ChannelConnectionClient;
use crate::chain::handle::ChainHandle;
use crate::chain::msgs::Any;
use crate::chain::msgs::Msg;
use crate::chain::msgs::MsgChannelCloseConfirm;
use crate::chain::msgs::MsgChannelCloseInit;
use crate::chain::msgs::MsgChannelOpenAck;
use crate::chain::msgs::MsgChannelOpenConfirm;
use crate::chain::msgs::MsgChannelOpenInit;
use crate::chain::msgs::MsgChannelOpenTry;
use crate::chain::msgs::Proofs;
use crate::chain::requests::PageRequest;
use crate::chain::requests::QueryConnectionChannelsRequest;
use crate::chain::state::ChannelEnd;
use crate::chain::state::ConnectionEnd;
use crate::chain::state::Counterparty;
use crate::chain::state::IdentifiedChannelEnd;
use crate::chain::state::opt_view;
use crate::chain::state::Order;
use crate::chain::state::same_hops;
use crate::chain::state::State;
use crate::channel::error::ChannelError;
use crate::connection::Connection;
use crate::error::Error as RelayerError;
use crate::event::IbcEvent;
use crate::identifier::ChainId;
use crate::identifier::ChannelId;
use crate::identifier::ClientId;
use crate::identifier::ConnectionId;
use crate::identifier::Height;
use crate::identifier::PortId;
use crate::object::Channel as WorkerChannelObject;
use crate::supervisor::error::Error as SupervisorError;
use crate::util::retry::RetryError;
use crate::util::retry::RetryResult;
use crate::util::retry::total_of;
use retry::OperationResult;
use std::time::Duration;
use vstd::prelude::*;
use vstd::string::StringExecFns;

verus! {

/// The messages of the handshake that carry a proof.
#[derive(Clone, Copy, Debug, PartialEq, Eq, Structural)]
pub enum ChannelMsgType {
    OpenTry,
    OpenAck,
    OpenConfirm,
    CloseConfirm,
}

/// The furthest state in which a message of the kind `msg_type` may find the
/// channel end on its destination.
pub open spec fn spec_highest_state(msg_type: ChannelMsgType) -> State {
    match msg_type {
        ChannelMsgType::OpenAck => State::TryOpen,
        ChannelMsgType::OpenConfirm => State::TryOpen,
        ChannelMsgType::CloseConfirm => State::Open,
        ChannelMsgType::OpenTry => State::Uninitialized,
    }
}

pub fn highest_state(msg_type: ChannelMsgType) -> (r: State)
    ensures
        r == spec_highest_state(msg_type),
{
    match msg_type {
        ChannelMsgType::OpenAck => State::TryOpen,
        ChannelMsgType::OpenConfirm => State::TryOpen,
        ChannelMsgType::CloseConfirm => State::Open,
        ChannelMsgType::OpenTry => State::Uninitialized,
    }
}

/// The steps of the handshakes that open and close a channel.
#[derive(Clone, Copy, Debug, PartialEq, Eq, Structural)]
pub enum HandshakeStep {
    OpenInit,
    OpenTry,
    OpenAck,
    OpenConfirm,
    CloseInit,
    CloseConfirm,
}

/// Whether `event` is the event that a chain emits for `step`.
pub open spec fn is_event_of(step: HandshakeStep, event: IbcEvent) -> bool {
    match step {
        HandshakeStep::OpenInit => event is OpenInitChannel,
        HandshakeStep::OpenTry => event is OpenTryChannel,
        HandshakeStep::OpenAck => event is OpenAckChannel,
        HandshakeStep::OpenConfirm => event is OpenConfirmChannel,
        HandshakeStep::CloseInit => event is CloseInitChannel,
        HandshakeStep::CloseConfirm => event is CloseConfirmChannel,
    }
}

/// Whether `event` settles how `step` went: its own event, or the chain's
/// refusal.
pub open spec fn settles(step: HandshakeStep, event: IbcEvent) -> bool {
    is_event_of(step, event) || event is ChainError
}

/// What is said where the answer to `step` holds no event that settles it.
pub open spec fn missing_event_text(step: HandshakeStep) -> Seq<char> {
    match step {
        HandshakeStep::OpenInit => "no chan init event was in the response"@,
        HandshakeStep::OpenTry => "no chan try event was in the response"@,
        HandshakeStep::OpenAck => "no chan ack event was in the response"@,
        HandshakeStep::OpenConfirm => "no chan confirm event was in the response"@,
        HandshakeStep::CloseInit => "no chan init event was in the response"@,
        HandshakeStep::CloseConfirm => "no chan confirm event was in the response"@,
    }
}

fn event_settles(step: HandshakeStep, event: &IbcEvent) -> (r: bool)
    ensures
        r == settles(step, *event),
{
    match event {
        IbcEvent::ChainError(_) => true,
        IbcEvent::OpenInitChannel(_) => step == HandshakeStep::OpenInit,
        IbcEvent::OpenTryChannel(_) => step == HandshakeStep::OpenTry,
        IbcEvent::OpenAckChannel(_) => step == HandshakeStep::OpenAck,
        IbcEvent::OpenConfirmChannel(_) => step == HandshakeStep::OpenConfirm,
        IbcEvent::CloseInitChannel(_) => step == HandshakeStep::CloseInit,
        IbcEvent::CloseConfirmChannel(_) => step == HandshakeStep::CloseConfirm,
        _ => false,
    }
}

/// Whether `e` is an error that comes while a message is built: a channel
/// that the driver does not hold, a query or a proof that failed, an end
/// on the destination that does not fit.
pub open spec fn is_building_error(e: ChannelError) -> bool {
    e is MissingLocalChannelId || e is MissingCounterpartyChannelId || e is Query
        || e is MissingChannelOnDestination || e is ChannelAlreadyExist || e is MismatchPort
        || e is ChannelProof || e is ClientOperation || e is FetchSigner
}

/// Whether `e` is an error that comes once the messages are built: the
/// submission failed, the chain refused, or its answer holds no event of
/// the step.
pub open spec fn is_submission_error(e: ChannelError) -> bool {
    e is Submit || e is TxResponse || e is MissingEvent
}

/// Whether `i` is the place of the first of `events` that settles `step`.
pub open spec fn is_first_settling(events: Seq<IbcEvent>, step: HandshakeStep, i: int) -> bool {
    &&& 0 <= i < events.len()
    &&& settles(step, events[i])
    &&& forall|j: int| 0 <= j < i ==> !settles(step, #[trigger] events[j])
}

/// Whether `r` says how `step` went, by the events that the chain answered
/// with.
///
/// The first event that settles the step decides: the step's own event is
/// handed back; the chain's refusal is the error `TxResponse` with the
/// chain's reason, whatever the step. Where no event settles the step, the
/// error is `MissingEvent`.
pub open spec fn is_settled(
    events: Seq<IbcEvent>,
    step: HandshakeStep,
    r: Result<IbcEvent, ChannelError>,
) -> bool {
    match r {
        Ok(event) => is_event_of(step, event) && exists|i: int|
            is_first_settling(events, step, i) && events[i] == event,
        Err(ChannelError::TxResponse(reason)) => exists|i: int|
            is_first_settling(events, step, i) && events[i] == IbcEvent::ChainError(reason),
        Err(ChannelError::MissingEvent(text)) => text@ == missing_event_text(step) && forall|
            j: int,
        |
            0 <= j < events.len() ==> !settles(step, #[trigger] events[j]),
        Err(_) => false,
    }
}

/// How `step` went, by the events that the chain answered with: the first
/// event that settles the step decides.
pub fn response_event(events: &Vec<IbcEvent>, step: HandshakeStep) -> (r: Result<
    IbcEvent,
    ChannelError,
>)
    ensures
        is_settled(events@, step, r),
{
    let mut i: usize = 0;
    while i < events.len()
        invariant
            i <= events.len(),
            forall|j: int| 0 <= j < i ==> !settles(step, #[trigger] events@[j]),
        decreases events.len() - i,
    {
        if event_settles(step, &events[i]) {
            assert(is_first_settling(events@, step, i as int));
            match &events[i] {
                IbcEvent::ChainError(reason) => {
                    return Err(ChannelError::TxResponse(reason.clone()));
                },
                _ => {
                    return Ok(events[i].clone());
                },
            }
        }
        i = i + 1;
    }
    let text = match step {
        HandshakeStep::OpenInit => "no chan init event was in the response",
        HandshakeStep::OpenTry => "no chan try event was in the response",
        HandshakeStep::OpenAck => "no chan ack event was in the response",
        HandshakeStep::OpenConfirm => "no chan confirm event was in the response",
        HandshakeStep::CloseInit => "no chan init event was in the response",
        HandshakeStep::CloseConfirm => "no chan confirm event was in the response",
    };
    Err(ChannelError::MissingEvent(text.to_owned()))
}

/// The channel that an event of the opening handshake names; `None` for an
/// event that names none, and for any other event.
pub open spec fn spec_channel_id_of(event: IbcEvent) -> Option<ChannelId> {
    match event {
        IbcEvent::OpenInitChannel(a) => a.channel_id,
        IbcEvent::OpenTryChannel(a) => a.channel_id,
        IbcEvent::OpenAckChannel(a) => a.channel_id,
        IbcEvent::OpenConfirmChannel(a) => a.channel_id,
        _ => None,
    }
}

/// The channel that an event of the opening handshake names.
pub fn extract_channel_id(event: &IbcEvent) -> (r: Result<ChannelId, ChannelError>)
    ensures
        match r {
            Ok(id) => spec_channel_id_of(*event) == Some(id),
            Err(ChannelError::MissingEvent(text)) => spec_channel_id_of(*event) is None && text@
                == "cannot extract channel_id from result"@,
            Err(_) => false,
        },
{
    let found = match event {
        IbcEvent::OpenInitChannel(a) => a.channel_id.clone(),
        IbcEvent::OpenTryChannel(a) => a.channel_id.clone(),
        IbcEvent::OpenAckChannel(a) => a.channel_id.clone(),
        IbcEvent::OpenConfirmChannel(a) => a.channel_id.clone(),
        _ => None,
    };
    match found {
        Some(id) => Ok(id),
        None => Err(ChannelError::MissingEvent("cannot extract channel_id from result".to_owned())),
    }
}

/// Whether the channel end `existing`, found on the destination, fits the
/// end `expected` there: it has come no further, it rests on the same
/// connections, and it names no channel as its other end or the port and
/// channel that `expected` names.
pub open spec fn fits_expected(existing: ChannelEnd, expected: ChannelEnd) -> bool {
    &&& existing.connection_hops.deep_view() == expected.connection_hops.deep_view()
    &&& existing.state.spec_number() <= expected.state.spec_number()
    &&& (existing.remote.channel_id is None || (opt_view(existing.remote.channel_id) == opt_view(
        expected.remote.channel_id,
    ) && existing.remote.port_id@ == expected.remote.port_id@))
}

/// Holds the channel end found on the destination against the one expected
/// there; `ChannelAlreadyExist`, with the channel's name, where it does not
/// fit.
pub fn check_destination_channel_state(
    channel_id: ChannelId,
    existing_channel: &ChannelEnd,
    expected_channel: &ChannelEnd,
) -> (r: Result<(), ChannelError>)
    ensures
        match r {
            Ok(_) => fits_expected(*existing_channel, *expected_channel),
            Err(ChannelError::ChannelAlreadyExist(id)) => !fits_expected(
                *existing_channel,
                *expected_channel,
            ) && id == channel_id,
            Err(_) => false,
        },
{
    let good_connection_hops = same_hops(
        &existing_channel.connection_hops,
        &expected_channel.connection_hops,
    );
    let good_state = existing_channel.state.number() <= expected_channel.state.number();
    let good_channel_port_ids = match &existing_channel.remote.channel_id {
        None => true,
        Some(existing_id) => {
            let same_channel = match &expected_channel.remote.channel_id {
                Some(expected_id) => *existing_id == *expected_id,
                None => false,
            };
            same_channel && existing_channel.remote.port_id == expected_channel.remote.port_id
        },
    };
    if good_state && good_connection_hops && good_channel_port_ids {
        Ok(())
    } else {
        Err(ChannelError::ChannelAlreadyExist(channel_id))
    }
}

/// One submission of the end of the opening handshake, with the chain that
/// it goes to.
#[derive(Clone, Copy, Debug, PartialEq, Eq, Structural)]
pub enum FinalizeStep {
    AckOnA,
    AckOnB,
    ConfirmOnA,
    ConfirmOnB,
}

impl FinalizeStep {
    /// Whether the step is submitted to side `a`.
    pub open spec fn goes_to_a(self) -> bool {
        self == FinalizeStep::AckOnA || self == FinalizeStep::ConfirmOnA
    }

    /// The states of the two ends after the step, where it went through.
    pub open spec fn spec_expected(self) -> (State, State) {
        match self {
            FinalizeStep::AckOnA => (State::Open, State::TryOpen),
            FinalizeStep::AckOnB => (State::TryOpen, State::Open),
            FinalizeStep::ConfirmOnA => (State::Open, State::Open),
            FinalizeStep::ConfirmOnB => (State::Open, State::Open),
        }
    }

    pub fn expected(self) -> (r: (State, State))
        ensures
            r == self.spec_expected(),
    {
        match self {
            FinalizeStep::AckOnA => (State::Open, State::TryOpen),
            FinalizeStep::AckOnB => (State::TryOpen, State::Open),
            FinalizeStep::ConfirmOnA => (State::Open, State::Open),
            FinalizeStep::ConfirmOnB => (State::Open, State::Open),
        }
    }
}

/// What is left to submit to open a channel whose ends are in the states
/// `a` and `b`.
pub open spec fn spec_finalize_steps(a: State, b: State) -> Seq<FinalizeStep> {
    match (a, b) {
        (State::Init, State::TryOpen) => seq![FinalizeStep::AckOnA, FinalizeStep::ConfirmOnB],
        (State::TryOpen, State::TryOpen) => seq![FinalizeStep::AckOnA, FinalizeStep::ConfirmOnB],
        (State::TryOpen, State::Init) => seq![FinalizeStep::AckOnB, FinalizeStep::ConfirmOnA],
        (State::Open, State::TryOpen) => seq![FinalizeStep::ConfirmOnB],
        (State::TryOpen, State::Open) => seq![FinalizeStep::ConfirmOnA],
        _ => Seq::empty(),
    }
}

/// Whether the end of the opening handshake has anything to say of a channel
/// whose ends are in the states `a` and `b`: something is left to submit, or
/// both ends are open.
pub open spec fn handshake_applies(a: State, b: State) -> bool {
    spec_finalize_steps(a, b).len() > 0 || (a == State::Open && b == State::Open)
}

/// What is left to submit to open a channel whose ends are in the states
/// `a` and `b`, in order.
pub fn finalize_steps(a: State, b: State) -> (r: Vec<FinalizeStep>)
    ensures
        r@ == spec_finalize_steps(a, b),
{
    let mut steps: Vec<FinalizeStep> = Vec::new();
    match (a, b) {
        (State::Init, State::TryOpen) => {
            steps.push(FinalizeStep::AckOnA);
            steps.push(FinalizeStep::ConfirmOnB);
        },
        (State::TryOpen, State::TryOpen) => {
            steps.push(FinalizeStep::AckOnA);
            steps.push(FinalizeStep::ConfirmOnB);
        },
        (State::TryOpen, State::Init) => {
            steps.push(FinalizeStep::AckOnB);
            steps.push(FinalizeStep::ConfirmOnA);
        },
        (State::Open, State::TryOpen) => {
            steps.push(FinalizeStep::ConfirmOnB);
        },
        (State::TryOpen, State::Open) => {
            steps.push(FinalizeStep::ConfirmOnA);
        },
        _ => {},
    }
    assert(steps@ =~= spec_finalize_steps(a, b));
    steps
}

/// What the protocol makes of the two ends, in the states `a` and `b`, when
/// `step` is submitted: `Ack` opens an end in `Init` or `TryOpen` whose
/// other end is in `TryOpen`; `Confirm` opens an end in `TryOpen` whose
/// other end is open. `None` where the protocol refuses the step.
pub open spec fn protocol_step(step: FinalizeStep, a: State, b: State) -> Option<(State, State)> {
    match step {
        FinalizeStep::AckOnA => if (a == State::Init || a == State::TryOpen) && b
            == State::TryOpen {
            Some((State::Open, b))
        } else {
            None
        },
        FinalizeStep::AckOnB => if (b == State::Init || b == State::TryOpen) && a
            == State::TryOpen {
            Some((a, State::Open))
        } else {
            None
        },
        FinalizeStep::ConfirmOnA => if a == State::TryOpen && b == State::Open {
            Some((State::Open, b))
        } else {
            None
        },
        FinalizeStep::ConfirmOnB => if b == State::TryOpen && a == State::Open {
            Some((a, State::Open))
        } else {
            None
        },
    }
}

/// What is left to submit is what the protocol accepts, step by step, and
/// leaves both ends open: each step is accepted in the states that the step
/// before it leads to, and leads to the states that are expected after it.
pub proof fn lemma_finalize_steps_follow_the_protocol(a: State, b: State)
    ensures
        ({
            let steps = spec_finalize_steps(a, b);
            &&& steps.len() <= 2
            &&& steps.len() >= 1 ==> protocol_step(steps[0], a, b) == Some(steps[0].spec_expected())
            &&& steps.len() == 2 ==> protocol_step(
                steps[1],
                steps[0].spec_expected().0,
                steps[0].spec_expected().1,
            ) == Some(steps[1].spec_expected())
            &&& steps.len() >= 1 ==> steps.last().spec_expected() == (State::Open, State::Open)
        }),
{
}

/// Holds the states found after a submission against those expected;
/// `PartialOpenHandshake`, with the expected states, where they differ.
pub fn check_channel_states(expected: (State, State), found: (State, State)) -> (r: Result<
    (),
    ChannelError,
>)
    ensures
        match r {
            Ok(_) => found == expected,
            Err(ChannelError::PartialOpenHandshake(a, b)) => found != expected && (a, b)
                == expected,
            Err(_) => false,
        },
{
    if expected.0 == found.0 && expected.1 == found.1 {
        Ok(())
    } else {
        Err(ChannelError::PartialOpenHandshake(expected.0, expected.1))
    }
}

/// How the end of the opening handshake went.
#[derive(Debug, PartialEq, Eq)]
pub struct FinalizeOutcome {
    /// The states of the two ends as first queried.
    pub initial: (State, State),
    /// The states of the two ends as last queried.
    pub last: (State, State),
    /// What was submitted, in order.
    pub sent: Vec<FinalizeStep>,
}

impl FinalizeOutcome {
    /// All that was left was submitted and went through: after each
    /// submission the two ends were found in the states that it leads to.
    pub open spec fn wf(&self) -> bool {
        &&& self.sent@ == spec_finalize_steps(self.initial.0, self.initial.1)
        &&& self.last == if self.sent@.len() == 0 {
            self.initial
        } else {
            self.sent@.last().spec_expected()
        }
    }

    /// Whether both ends were found open at the last query.
    pub open spec fn spec_is_open(&self) -> bool {
        self.last == (State::Open, State::Open)
    }

    #[verifier::when_used_as_spec(spec_is_open)]
    pub fn is_open(&self) -> (r: bool)
        ensures
            r == self.spec_is_open(),
    {
        self.last.0 == State::Open && self.last.1 == State::Open
    }
}

/// Where the end of the handshake applies and went through, both ends were
/// found open at the last query.
pub proof fn lemma_finalized_channel_is_open(outcome: FinalizeOutcome)
    requires
        outcome.wf(),
        handshake_applies(outcome.initial.0, outcome.initial.1),
    ensures
        outcome.spec_is_open(),
{
}

/// Where both ends are found open at the first query, nothing is submitted.
pub proof fn lemma_open_channel_needs_no_submission(outcome: FinalizeOutcome)
    requires
        outcome.wf(),
        outcome.initial == (State::Open, State::Open),
    ensures
        outcome.sent@.len() == 0,
        outcome.spec_is_open(),
{
}

/// What is submitted next for a channel whose end on the source is in
/// `state` and whose end on the destination is in `counterparty_state`.
pub open spec fn spec_next_step(state: State, counterparty_state: State) -> Option<
    ChannelMsgType,
> {
    match (state, counterparty_state) {
        (State::Init, State::Uninitialized) => Some(ChannelMsgType::OpenTry),
        (State::Init, State::Init) => Some(ChannelMsgType::OpenTry),
        (State::TryOpen, State::Init) => Some(ChannelMsgType::OpenAck),
        (State::TryOpen, State::TryOpen) => Some(ChannelMsgType::OpenAck),
        (State::Open, State::TryOpen) => Some(ChannelMsgType::OpenConfirm),
        _ => None,
    }
}

pub fn next_step(state: State, counterparty_state: State) -> (r: Option<ChannelMsgType>)
    ensures
        r == spec_next_step(state, counterparty_state),
{
    match (state, counterparty_state) {
        (State::Init, State::Uninitialized) => Some(ChannelMsgType::OpenTry),
        (State::Init, State::Init) => Some(ChannelMsgType::OpenTry),
        (State::TryOpen, State::Init) => Some(ChannelMsgType::OpenAck),
        (State::TryOpen, State::TryOpen) => Some(ChannelMsgType::OpenAck),
        (State::Open, State::TryOpen) => Some(ChannelMsgType::OpenConfirm),
        _ => None,
    }
}

/// The state that an event of the opening handshake leaves the channel end
/// in; `Uninitialized` for any other event.
pub open spec fn spec_state_after(event: IbcEvent) -> State {
    match event {
        IbcEvent::OpenInitChannel(_) => State::Init,
        IbcEvent::OpenTryChannel(_) => State::TryOpen,
        IbcEvent::OpenAckChannel(_) => State::Open,
        IbcEvent::OpenConfirmChannel(_) => State::Open,
        _ => State::Uninitialized,
    }
}

pub fn state_after(event: &IbcEvent) -> (r: State)
    ensures
        r == spec_state_after(*event),
{
    match event {
        IbcEvent::OpenInitChannel(_) => State::Init,
        IbcEvent::OpenTryChannel(_) => State::TryOpen,
        IbcEvent::OpenAckChannel(_) => State::Open,
        IbcEvent::OpenConfirmChannel(_) => State::Open,
        _ => State::Uninitialized,
    }
}

/// The error that ends a run of tries: `MaxRetry` around the error of the
/// last try, with the number of tries and the time waited, or
/// `RetryInternal` where the retry mechanism itself failed.
pub fn from_retry_error(e: RetryError<ChannelError>, description: String) -> (r: ChannelError)
    ensures
        match e {
            RetryError::Operation { error, total_delay, tries } => r == (ChannelError::MaxRetry {
                description,
                tries,
                total_delay,
                source: Box::new(error),
            }),
            RetryError::Internal(reason) => r == ChannelError::RetryInternal(reason),
        },
{
    match e {
        RetryError::Operation { error, total_delay, tries } => ChannelError::MaxRetry {
            description,
            tries,
            total_delay,
            source: Box::new(error),
        },
        RetryError::Internal(reason) => ChannelError::RetryInternal(reason),
    }
}

/// One side of a channel in the making: the chain, the client and the
/// connection under the channel, the port, and the channel end, once it has
/// a name.
pub struct ChannelSide<Chain: ChainHandle> {
    pub chain: Chain,
    pub client_id: ClientId,
    pub connection_id: ConnectionId,
    pub port_id: PortId,
    pub channel_id: Option<ChannelId>,
}

impl<Chain: ChainHandle> ChannelSide<Chain> {
    pub fn new(
        chain: Chain,
        client_id: ClientId,
        connection_id: ConnectionId,
        port_id: PortId,
        channel_id: Option<ChannelId>,
    ) -> (r: ChannelSide<Chain>)
        ensures
            r.chain == chain,
            r.client_id == client_id,
            r.connection_id == connection_id,
            r.port_id == port_id,
            r.channel_id == channel_id,
    {
        ChannelSide { chain, client_id, connection_id, port_id, channel_id }
    }

    /// Whether two sides name the same client, connection, port and channel.
    pub open spec fn same_ids<Other: ChainHandle>(&self, other: &ChannelSide<Other>) -> bool {
        &&& self.client_id == other.client_id
        &&& self.connection_id == other.connection_id
        &&& self.port_id == other.port_id
        &&& self.channel_id == other.channel_id
    }

    /// The name by which the chain of this side calls itself: what the
    /// chain answers when it is asked for its name.
    pub fn chain_id(&self) -> (r: ChainId)
        ensures
            call_ensures(Chain::id, (&self.chain,), r),
    {
        self.chain.id()
    }

    pub fn client_id(&self) -> (r: ClientId)
        ensures
            r == self.client_id,
    {
        self.client_id.clone()
    }

    pub fn connection_id(&self) -> (r: ConnectionId)
        ensures
            r == self.connection_id,
    {
        self.connection_id.clone()
    }

    pub fn port_id(&self) -> (r: PortId)
        ensures
            r == self.port_id,
    {
        self.port_id.clone()
    }

    pub fn channel_id(&self) -> (r: Option<ChannelId>)
        ensures
            r == self.channel_id,
    {
        self.channel_id.clone()
    }
}

impl<Chain: ChainHandle> Clone for ChannelSide<Chain> {
    fn clone(&self) -> (r: Self)
        ensures
            r.same_ids(self),
            cloned(self.chain, r.chain),
    {
        ChannelSide {
            chain: self.chain.clone(),
            client_id: self.client_id.clone(),
            connection_id: self.connection_id.clone(),
            port_id: self.port_id.clone(),
            channel_id: self.channel_id.clone(),
        }
    }
}

/// The driver of the handshake of one channel between the chains `ChainA`
/// and `ChainB`. Messages are built from the state of the source, side `a`,
/// and go to the destination, side `b`.
pub struct Channel<ChainA: ChainHandle, ChainB: ChainHandle> {
    pub ordering: Order,
    pub a_side: ChannelSide<ChainA>,
    pub b_side: ChannelSide<ChainB>,
    /// The delay that the connection asks for, in nanoseconds.
    pub connection_delay: u64,
    pub version: Option<String>,
}

/// The three runs of tries that make up the opening handshake.
#[derive(Clone, Copy, Debug, PartialEq, Eq, Structural)]
pub enum HandshakePhase {
    Init,
    Try,
    Finalize,
}

/// The place of the first of `channels` whose other end is the channel
/// `channel`, whatever its port.
pub open spec fn is_first_naming(channels: Seq<IdentifiedChannelEnd>, channel: Seq<char>, i: int) -> bool {
    &&& 0 <= i < channels.len()
    &&& opt_view(channels[i].channel_end.remote.channel_id) == Some(channel)
    &&& forall|j: int|
        0 <= j < i ==> opt_view((#[trigger] channels[j]).channel_end.remote.channel_id) != Some(
            channel,
        )
}

/// Whether `r` is the version of a channel on the port `port` of `chain`,
/// where the driver holds `held`, by what `answer`, the answer of `chain`
/// for the version of the port, says: the version held, or, where none is
/// held, the version that the chain gave; `Query` around the failure of the
/// chain, with the name by which it calls itself, even where a version is
/// held.
pub open spec fn is_version_by<C: ChainHandle>(
    chain: &C,
    held: Option<String>,
    answer: Result<String, RelayerError>,
    r: Result<String, ChannelError>,
) -> bool {
    match answer {
        Ok(given) => r == Ok::<String, ChannelError>(
            match held {
                Some(version) => version,
                None => given,
            },
        ),
        Err(cause) => {
            &&& r matches Err(ChannelError::Query(name, reason))
            &&& reason == cause
            &&& call_ensures(C::id, (chain,), name)
        },
    }
}

/// Whether `r` is the version of a channel on the port `port` of `chain`,
/// where the driver holds `held`: the chain was asked for the version of the
/// port, and `r` is as `is_version_by` says.
pub open spec fn is_version_on<C: ChainHandle>(
    chain: &C,
    port: PortId,
    held: Option<String>,
    r: Result<String, ChannelError>,
) -> bool {
    exists|answer: Result<String, RelayerError>| #[trigger]
        call_ensures(C::module_version, (chain, &port), answer) && is_version_by(
            chain,
            held,
            answer,
            r,
        )
}

/// Whether `end` is what `chain` answered when it was asked for the channel
/// `channel`, by its port and its name on that chain, at `height`.
pub open spec fn is_end_at<C: ChainHandle>(
    chain: &C,
    channel: WorkerChannelObject,
    height: Height,
    end: ChannelEnd,
) -> bool {
    call_ensures(
        C::query_channel,
        (chain, &channel.src_port_id, &channel.src_channel_id, height),
        Ok(end),
    )
}

/// Whether `end` is what `chain` answered for `channel` at `height`, and
/// `connection` what it answered for the first connection that `end` names,
/// in its latest state.
pub open spec fn is_end_with_connection<C: ChainHandle>(
    chain: &C,
    channel: WorkerChannelObject,
    height: Height,
    end: ChannelEnd,
    connection: ConnectionEnd,
) -> bool {
    &&& is_end_at(chain, channel, height, end)
    &&& end.connection_hops@.len() > 0
    &&& answers_connection(chain, end.connection_hops@[0], connection)
}

/// Whether `chain` answered `request` with `channels`, and `found` is the
/// first of them whose other end is the channel `channel`.
pub open spec fn is_searched_on<C: ChainHandle>(
    chain: &C,
    request: QueryConnectionChannelsRequest,
    channels: Vec<IdentifiedChannelEnd>,
    channel: Seq<char>,
    found: Option<ChannelId>,
) -> bool {
    &&& call_ensures(C::query_connection_channels, (chain, request), Ok(channels))
    &&& is_found_among(channels@, channel, found)
}

/// Whether `found` is the name of the first of `channels` whose other end
/// is the channel `channel`; nothing where none of them names it.
pub open spec fn is_found_among(
    channels: Seq<IdentifiedChannelEnd>,
    channel: Seq<char>,
    found: Option<ChannelId>,
) -> bool {
    match found {
        Some(id) => exists|i: int| is_first_naming(channels, channel, i) && channels[i].channel_id == id,
        None => forall|j: int|
            0 <= j < channels.len() ==> opt_view(
                (#[trigger] channels[j]).channel_end.remote.channel_id,
            ) != Some(channel),
    }
}

/// The name of the first of `channels` whose other end is the channel
/// `channel_id`, if there is one.
pub fn find_counterparty_channel(channels: &Vec<IdentifiedChannelEnd>, channel_id: &ChannelId) -> (r:
    Option<ChannelId>)
    ensures
        is_found_among(channels@, channel_id@, r),
{
    let mut i: usize = 0;
    while i < channels.len()
        invariant
            i <= channels.len(),
            forall|j: int|
                0 <= j < i ==> opt_view((#[trigger] channels@[j]).channel_end.remote.channel_id)
                    != Some(channel_id@),
        decreases channels.len() - i,
    {
        let found = match &channels[i].channel_end.remote.channel_id {
            Some(id) => *id == *channel_id,
            None => false,
        };
        if found {
            assert(is_first_naming(channels@, channel_id@, i as int));
            return Some(channels[i].channel_id.clone());
        }
        i = i + 1;
    }
    None
}

/// The channel that a `Try` message names as the one to go on with: the one
/// that the source's end names as its other end, else the one that the
/// driver holds for the destination.
pub open spec fn spec_previous_channel_id(
    named_by_source: Option<ChannelId>,
    held_for_destination: Option<ChannelId>,
) -> Option<ChannelId> {
    if named_by_source is None {
        held_for_destination
    } else {
        named_by_source
    }
}

pub fn previous_channel_id(
    named_by_source: &Option<ChannelId>,
    held_for_destination: &Option<ChannelId>,
) -> (r: Option<ChannelId>)
    ensures
        r == spec_previous_channel_id(*named_by_source, *held_for_destination),
{
    match named_by_source {
        None => held_for_destination.clone(),
        Some(_) => named_by_source.clone(),
    }
}

/// The list of the one connection that a channel end rests on.
fn single_hop(connection_id: ConnectionId) -> (r: Vec<ConnectionId>)
    ensures
        r@ == seq![connection_id],
{
    let mut hops: Vec<ConnectionId> = Vec::new();
    hops.push(connection_id);
    assert(hops@ =~= seq![connection_id]);
    hops
}

/// Whether `msgs` are the messages `updates`, each as a message of a
/// transaction, in the same order.
pub open spec fn encodes(msgs: Seq<Msg>, updates: Seq<Any>) -> bool {
    &&& msgs.len() == updates.len()
    &&& forall|i: int| 0 <= i < msgs.len() ==> #[trigger] msgs[i] == Msg::Encoded(updates[i])
}

/// The messages of a client update, each as a message of a transaction, in
/// the same order.
fn encoded_msgs(updates: Vec<Any>) -> (r: Vec<Msg>)
    ensures
        encodes(r@, updates@),
        r@.len() == updates@.len(),
        forall|i: int| 0 <= i < r@.len() ==> #[trigger] r@[i] == Msg::Encoded(updates@[i]),
{
    let ghost all = updates@;
    let mut out: Vec<Msg> = Vec::new();
    let mut rest = updates;
    while rest.len() > 0
        invariant
            out@.len() + rest@.len() == all.len(),
            forall|i: int| 0 <= i < out@.len() ==> #[trigger] out@[i] == Msg::Encoded(all[i]),
            forall|i: int| 0 <= i < rest@.len() ==> #[trigger] rest@[i] == all[out@.len() + i],
        decreases rest.len(),
    {
        let update = rest.remove(0);
        out.push(Msg::Encoded(update));
    }
    out
}

impl<ChainA: ChainHandle, ChainB: ChainHandle> Channel<ChainA, ChainB> {
    pub fn src_chain(&self) -> (r: &ChainA)
        ensures
            *r == self.a_side.chain,
    {
        &self.a_side.chain
    }

    pub fn dst_chain(&self) -> (r: &ChainB)
        ensures
            *r == self.b_side.chain,
    {
        &self.b_side.chain
    }

    pub fn src_client_id(&self) -> (r: ClientId)
        ensures
            r == self.a_side.client_id,
    {
        self.a_side.client_id.clone()
    }

    pub fn dst_client_id(&self) -> (r: ClientId)
        ensures
            r == self.b_side.client_id,
    {
        self.b_side.client_id.clone()
    }

    pub fn src_connection_id(&self) -> (r: ConnectionId)
        ensures
            r == self.a_side.connection_id,
    {
        self.a_side.connection_id.clone()
    }

    pub fn dst_connection_id(&self) -> (r: ConnectionId)
        ensures
            r == self.b_side.connection_id,
    {
        self.b_side.connection_id.clone()
    }

    pub fn src_port_id(&self) -> (r: PortId)
        ensures
            r == self.a_side.port_id,
    {
        self.a_side.port_id.clone()
    }

    pub fn dst_port_id(&self) -> (r: PortId)
        ensures
            r == self.b_side.port_id,
    {
        self.b_side.port_id.clone()
    }

    pub fn src_channel_id(&self) -> (r: Option<ChannelId>)
        ensures
            r == self.a_side.channel_id,
    {
        self.a_side.channel_id()
    }

    pub fn dst_channel_id(&self) -> (r: Option<ChannelId>)
        ensures
            r == self.b_side.channel_id,
    {
        self.b_side.channel_id()
    }

    /// Whether `other` is this driver seen from the other chain: the two
    /// sides change places, each with a clone of its chain's handle, and all
    /// else stays.
    pub open spec fn is_flipped(&self, other: &Channel<ChainB, ChainA>) -> bool {
        &&& other.ordering == self.ordering
        &&& cloned(self.b_side.chain, other.a_side.chain)
        &&& cloned(self.a_side.chain, other.b_side.chain)
        &&& other.a_side.same_ids(&self.b_side)
        &&& other.b_side.same_ids(&self.a_side)
        &&& other.connection_delay == self.connection_delay
        &&& other.version == self.version
    }

    /// The driver for the other direction: what was the destination is the
    /// source.
    pub fn flipped(&self) -> (r: Channel<ChainB, ChainA>)
        ensures
            self.is_flipped(&r),
    {
        Channel {
            ordering: self.ordering,
            a_side: self.b_side.clone(),
            b_side: self.a_side.clone(),
            connection_delay: self.connection_delay,
            version: self.version.clone(),
        }
    }

    /// What `build_update_client_on_dst` answers where the source calls
    /// itself `src_chain_id`, by what the destination answers when it is
    /// asked to build the update of its client of that chain up to `height`:
    /// its messages, each as a message of a transaction, in the same order;
    /// or `ClientOperation` around its failure, with the client and the name
    /// by which the destination calls itself.
    pub open spec fn is_update_from(
        &self,
        src_chain_id: ChainId,
        height: Height,
        r: Result<Vec<Msg>, ChannelError>,
    ) -> bool {
        match r {
            Ok(msgs) => exists|updates: Vec<Any>|
                #[trigger] call_ensures(
                    ChainB::build_update_client,
                    (&self.b_side.chain, &self.b_side.client_id, &src_chain_id, height),
                    Ok(updates),
                ) && encodes(msgs@, updates@),
            Err(ChannelError::ClientOperation(client_id, chain_id, cause)) => {
                &&& client_id == self.b_side.client_id
                &&& call_ensures(ChainB::id, (&self.b_side.chain,), chain_id)
                &&& call_ensures(
                    ChainB::build_update_client,
                    (&self.b_side.chain, &self.b_side.client_id, &src_chain_id, height),
                    Err(cause),
                )
            },
            Err(_) => false,
        }
    }

    /// What `build_update_client_on_dst` answers: see `is_update_from`, with
    /// the name that the source answers when it is asked for its name.
    pub open spec fn is_client_update(&self, height: Height, r: Result<Vec<Msg>, ChannelError>) -> bool {
        exists|src_chain_id: ChainId|
            call_ensures(ChainA::id, (&self.a_side.chain,), src_chain_id)
                && #[trigger] self.is_update_from(src_chain_id, height, r)
    }

    /// The messages that bring the destination's client of the source up to
    /// `height`.
    pub fn build_update_client_on_dst(&self, height: Height) -> (r: Result<Vec<Msg>, ChannelError>)
        ensures
            self.is_client_update(height, r),
            match r {
                Ok(msgs) => forall|i: int| 0 <= i < msgs@.len() ==> #[trigger] msgs@[i] is Encoded,
                Err(e) => e matches ChannelError::ClientOperation(client_id, _, _) && client_id
                    == self.b_side.client_id,
            },
    {
        let src_chain_id = self.a_side.chain.id();
        let r = match self.b_side.chain.build_update_client(
            &self.b_side.client_id,
            &src_chain_id,
            height,
        ) {
            Ok(updates) => Ok(encoded_msgs(updates)),
            Err(e) => Err(
                ChannelError::ClientOperation(
                    self.b_side.client_id.clone(),
                    self.b_side.chain.id(),
                    e,
                ),
            ),
        };
        assert(self.is_update_from(src_chain_id, height, r));
        r
    }

    /// The version of the channel on the destination: the one that the
    /// driver holds, else the one that the destination gives for its port.
    /// The destination is asked in either case, and its failure is an error.
    pub fn dst_version(&self) -> (r: Result<String, ChannelError>)
        ensures
            is_version_on(&self.b_side.chain, self.b_side.port_id, self.version, r),
            match r {
                Ok(version) => self.version matches Some(held) ==> version == held,
                Err(e) => e is Query,
            },
    {
        let answer = self.b_side.chain.module_version(&self.b_side.port_id);
        let ghost answered = answer;
        let r = match answer {
            Ok(given) => match &self.version {
                Some(held) => Ok(held.clone()),
                None => Ok(given),
            },
            Err(e) => Err(ChannelError::Query(self.b_side.chain.id(), e)),
        };
        assert(is_version_by(&self.b_side.chain, self.version, answered, r));
        r
    }

    /// The version of the channel on the source: the one that the driver
    /// holds, else the one that the source gives for its port. The source is
    /// asked in either case, and its failure is an error.
    pub fn src_version(&self) -> (r: Result<String, ChannelError>)
        ensures
            is_version_on(&self.a_side.chain, self.a_side.port_id, self.version, r),
            match r {
                Ok(version) => self.version matches Some(held) ==> version == held,
                Err(e) => e is Query,
            },
    {
        let answer = self.a_side.chain.module_version(&self.a_side.port_id);
        let ghost answered = answer;
        let r = match answer {
            Ok(given) => match &self.version {
                Some(held) => Ok(held.clone()),
                None => Ok(given),
            },
            Err(e) => Err(ChannelError::Query(self.a_side.chain.id(), e)),
        };
        assert(is_version_by(&self.a_side.chain, self.version, answered, r));
        r
    }

    /// Whether `end` is what the source, the chain of side `a`, answered
    /// when it was asked for the channel that the driver holds for it, on
    /// the port of side `a` and at height zero, that is in its latest state.
    pub open spec fn is_answered_by_source(&self, end: ChannelEnd) -> bool {
        &&& self.a_side.channel_id is Some
        &&& call_ensures(
            ChainA::query_channel,
            (&self.a_side.chain, &self.a_side.port_id, &self.a_side.channel_id->0, Height::zero()),
            Ok(end),
        )
    }

    /// Whether `end` is what the destination, the chain of side `b`,
    /// answered when it was asked for the channel that the driver holds for
    /// it, on the port of side `b` and at height zero.
    pub open spec fn is_answered_by_destination(&self, end: ChannelEnd) -> bool {
        &&& self.b_side.channel_id is Some
        &&& call_ensures(
            ChainB::query_channel,
            (&self.b_side.chain, &self.b_side.port_id, &self.b_side.channel_id->0, Height::zero()),
            Ok(end),
        )
    }

    /// Whether `end` is the channel end that the driver puts or expects on
    /// the destination in `state`: it names the source's port and channel as
    /// its other end, rests on the destination's connection, and has the
    /// version that the driver holds, where it holds one.
    pub open spec fn is_destination_end(&self, end: ChannelEnd, state: State) -> bool {
        &&& end.state == state
        &&& end.remote.port_id == self.a_side.port_id
        &&& end.remote.channel_id == self.a_side.channel_id
        &&& end.connection_hops@ == seq![self.b_side.connection_id]
        &&& self.version matches Some(held) ==> end.version == held
    }

    fn destination_end(&self, state: State, ordering: Order, version: String) -> (r: ChannelEnd)
        requires
            self.version matches Some(held) ==> version == held,
        ensures
            self.is_destination_end(r, state),
            r.ordering == ordering,
            r.version == version,
    {
        let counterparty = Counterparty::new(
            self.a_side.port_id.clone(),
            self.a_side.channel_id.clone(),
        );
        ChannelEnd::new(
            state,
            ordering,
            counterparty,
            single_hop(self.b_side.connection_id.clone()),
            version,
        )
    }

    /// The `Init` message for the destination. It names the source's port as
    /// the other end, and no channel.
    pub fn build_chan_open_init(&self) -> (r: Result<Vec<Msg>, ChannelError>)
        ensures
            match r {
                Ok(msgs) => {
                    &&& msgs@.len() == 1
                    &&& msgs@[0] matches Msg::ChannelOpenInit(m)
                    &&& m.port_id == self.b_side.port_id
                    &&& m.channel.state == State::Init
                    &&& m.channel.ordering == self.ordering
                    &&& m.channel.remote.port_id == self.a_side.port_id
                    &&& m.channel.remote.channel_id is None
                    &&& m.channel.connection_hops@ == seq![self.b_side.connection_id]
                    &&& self.version matches Some(held) ==> m.channel.version == held
                },
                Err(e) => e is Query,
            },
    {
        let signer = match self.b_side.chain.get_signer() {
            Ok(signer) => signer,
            Err(e) => {
                return Err(ChannelError::Query(self.b_side.chain.id(), e));
            },
        };
        let counterparty = Counterparty::new(self.a_side.port_id.clone(), None);
        let version = match self.dst_version() {
            Ok(version) => version,
            Err(e) => {
                return Err(e);
            },
        };
        let channel = ChannelEnd::new(
            State::Init,
            self.ordering,
            counterparty,
            single_hop(self.b_side.connection_id.clone()),
            version,
        );
        let new_msg = MsgChannelOpenInit { port_id: self.b_side.port_id.clone(), channel, signer };
        Ok(vec![Msg::ChannelOpenInit(new_msg)])
    }

    /// Whether `msgs` are messages of `step` as this driver sends them:
    /// updates of the client first, if any, and last the one message of the
    /// step, for the port of the destination and the channels that the
    /// driver holds, with the proof of the source where the step needs
    /// one.
    pub open spec fn is_step_msgs(&self, step: HandshakeStep, msgs: Seq<Msg>) -> bool {
        &&& msgs.len() >= 1
        &&& forall|i: int| 0 <= i < msgs.len() - 1 ==> #[trigger] msgs[i] is Encoded
        &&& match step {
            HandshakeStep::OpenInit => {
                &&& msgs.len() == 1
                &&& msgs.last() matches Msg::ChannelOpenInit(m)
                &&& m.port_id == self.b_side.port_id
            },
            HandshakeStep::OpenTry => {
                &&& msgs.last() matches Msg::ChannelOpenTry(m)
                &&& m.port_id == self.b_side.port_id
                &&& self.carries_proof(msgs, m.proofs)
            },
            HandshakeStep::OpenAck => {
                &&& msgs.last() matches Msg::ChannelOpenAck(m)
                &&& m.port_id == self.b_side.port_id
                &&& self.carries_proof(msgs, m.proofs)
                &&& self.b_side.channel_id == Some(m.channel_id)
                &&& self.a_side.channel_id == Some(m.counterparty_channel_id)
            },
            HandshakeStep::OpenConfirm => {
                &&& msgs.last() matches Msg::ChannelOpenConfirm(m)
                &&& m.port_id == self.b_side.port_id
                &&& self.carries_proof(msgs, m.proofs)
                &&& self.b_side.channel_id == Some(m.channel_id)
            },
            HandshakeStep::CloseInit => {
                &&& msgs.len() == 1
                &&& msgs.last() matches Msg::ChannelCloseInit(m)
                &&& m.port_id == self.b_side.port_id
                &&& self.b_side.channel_id == Some(m.channel_id)
            },
            HandshakeStep::CloseConfirm => {
                &&& msgs.last() matches Msg::ChannelCloseConfirm(m)
                &&& m.port_id == self.b_side.port_id
                &&& self.carries_proof(msgs, m.proofs)
                &&& self.b_side.channel_id == Some(m.channel_id)
            },
        }
    }

    /// Whether `r` is what the answer of the destination to a submission
    /// makes of `step`: the verdict of its events, see `is_settled`, or
    /// `Submit` around the failure of the submission, with the name by which
    /// the destination calls itself.
    pub open spec fn is_read_from(
        &self,
        answer: Result<Vec<IbcEvent>, RelayerError>,
        step: HandshakeStep,
        r: Result<IbcEvent, ChannelError>,
    ) -> bool {
        match answer {
            Ok(events) => is_settled(events@, step, r),
            Err(cause) => {
                &&& r matches Err(ChannelError::Submit(id, reason))
                &&& reason == cause
                &&& call_ensures(ChainB::id, (&self.b_side.chain,), id)
            },
        }
    }

    /// Whether `r` is how `step` went when `msgs` were submitted to the
    /// destination, the chain of side `b`, in one transaction.
    pub open spec fn is_answer_to(
        &self,
        msgs: Vec<Msg>,
        step: HandshakeStep,
        r: Result<IbcEvent, ChannelError>,
    ) -> bool {
        exists|answer: Result<Vec<IbcEvent>, RelayerError>| #[trigger]
            call_ensures(ChainB::send_msgs, (&self.b_side.chain, msgs), answer)
                && self.is_read_from(answer, step, r)
    }

    /// Whether `r` is how `step` went when its messages were submitted to
    /// the destination.
    pub open spec fn is_submitted(
        &self,
        step: HandshakeStep,
        r: Result<IbcEvent, ChannelError>,
    ) -> bool {
        exists|msgs: Vec<Msg>| self.is_step_msgs(step, msgs@) && #[trigger] self.is_answer_to(msgs, step, r)
    }

    /// Submits the messages to the destination and reads how `step` went
    /// from the events of the answer.
    fn send_and_settle(&self, msgs: Vec<Msg>, step: HandshakeStep) -> (r: Result<
        IbcEvent,
        ChannelError,
    >)
        ensures
            self.is_answer_to(msgs, step, r),
            match r {
                Ok(event) => is_event_of(step, event),
                Err(e) => e is Submit || e is TxResponse || e is MissingEvent,
            },
    {
        let ghost submitted = msgs;
        let answer = self.b_side.chain.send_msgs(msgs);
        let r = match answer {
            Ok(events) => response_event(&events, step),
            Err(e) => Err(ChannelError::Submit(self.b_side.chain.id(), e)),
        };
        proof {
            assert(call_ensures(ChainB::send_msgs, (&self.b_side.chain, submitted), answer));
            assert(self.is_read_from(answer, step, r));
        }
        r
    }

    /// Builds the `Init` message and submits it to the destination.
    pub fn build_chan_open_init_and_send(&self) -> (r: Result<IbcEvent, ChannelError>)
        ensures
            r is Ok ==> self.is_submitted(HandshakeStep::OpenInit, r),
            r matches Err(e) ==> {
                &&& is_building_error(e) || is_submission_error(e)
                &&& is_submission_error(e) ==> self.is_submitted(HandshakeStep::OpenInit, r)
            },
            match r {
                Ok(event) => event is OpenInitChannel,
                Err(e) => e is Query || e is Submit || e is TxResponse || e is MissingEvent,
            },
    {
        let dst_msgs = match self.build_chan_open_init() {
            Ok(msgs) => msgs,
            Err(e) => {
                return Err(e);
            },
        };
        let ghost built = dst_msgs;
        let r = self.send_and_settle(dst_msgs, HandshakeStep::OpenInit);
        proof {
            assert(self.is_step_msgs(HandshakeStep::OpenInit, built@));
            assert(self.is_answer_to(built, HandshakeStep::OpenInit, r));
        }
        r
    }

    /// The channel end that a message of the kind `msg_type` expects on the
    /// destination, after the end found there was held against it.
    ///
    /// Fails with `MissingCounterpartyChannelId` where the driver holds no
    /// channel for the destination, with `MissingChannelOnDestination` where
    /// the end found is not initialized, and with `ChannelAlreadyExist` where
    /// it does not fit.
    pub fn validated_expected_channel(&self, msg_type: ChannelMsgType) -> (r: Result<
        ChannelEnd,
        ChannelError,
    >)
        ensures
            self.b_side.channel_id is None ==> r matches Err(
                ChannelError::MissingCounterpartyChannelId,
            ),
            match r {
                Ok(expected) => {
                    &&& self.b_side.channel_id is Some
                    &&& self.is_destination_end(expected, spec_highest_state(msg_type))
                    &&& expected.ordering == self.ordering
                    &&& is_version_on(
                        &self.b_side.chain,
                        self.b_side.port_id,
                        self.version,
                        Ok(expected.version),
                    )
                    &&& exists|found: ChannelEnd|
                        {
                            &&& #[trigger] self.is_answered_by_destination(found)
                            &&& found.state != State::Uninitialized
                            &&& fits_expected(found, expected)
                        }
                },
                Err(e) => {
                    &&& e is MissingCounterpartyChannelId || e is Query
                        || e is MissingChannelOnDestination || e is ChannelAlreadyExist
                    &&& e is MissingCounterpartyChannelId ==> self.b_side.channel_id is None
                    &&& e is MissingChannelOnDestination ==> exists|found: ChannelEnd| #[trigger]
                        self.is_answered_by_destination(found) && found.state
                            == State::Uninitialized
                    &&& e matches ChannelError::ChannelAlreadyExist(id) ==> {
                        &&& self.b_side.channel_id == Some(id)
                        &&& exists|found: ChannelEnd, expected: ChannelEnd|
                            {
                                &&& #[trigger] self.is_answered_by_destination(found)
                                &&& found.state != State::Uninitialized
                                &&& #[trigger] self.is_destination_end(
                                    expected,
                                    spec_highest_state(msg_type),
                                )
                                &&& !fits_expected(found, expected)
                            }
                    }
                },
            },
    {
        let dst_channel_id = match &self.b_side.channel_id {
            Some(id) => id,
            None => {
                return Err(ChannelError::MissingCounterpartyChannelId);
            },
        };
        let version = match self.dst_version() {
            Ok(version) => version,
            Err(e) => {
                return Err(e);
            },
        };
        let dst_expected_channel = self.destination_end(
            highest_state(msg_type),
            self.ordering,
            version,
        );
        let dst_channel = match self.b_side.chain.query_channel(
            &self.b_side.port_id,
            dst_channel_id,
            Height::zero(),
        ) {
            Ok(end) => end,
            Err(e) => {
                return Err(ChannelError::Query(self.b_side.chain.id(), e));
            },
        };
        assert(self.is_answered_by_destination(dst_channel));
        if dst_channel.state_matches(State::Uninitialized) {
            return Err(ChannelError::MissingChannelOnDestination);
        }
        match check_destination_channel_state(
            dst_channel_id.clone(),
            &dst_channel,
            &dst_expected_channel,
        ) {
            Ok(_) => Ok(dst_expected_channel),
            Err(e) => Err(e),
        }
    }

    /// Whether `proofs` and `msgs` are what comes of proving the channel end
    /// `src_channel_id` of the source at `query_height`: the destination
    /// answers for its connection, `query_height` is what the source
    /// answers as its latest height, `proofs` what it answers when it is
    /// asked for the proofs of the channel end at that height, and `msgs`
    /// the update of the destination's client up to the height of the
    /// proofs.
    pub open spec fn is_proved_at(
        &self,
        src_channel_id: ChannelId,
        query_height: Height,
        msgs: Vec<Msg>,
        proofs: Proofs,
    ) -> bool {
        &&& exists|connection: crate::chain::state::ConnectionEnd|
            #[trigger] call_ensures(
                ChainB::query_connection,
                (&self.b_side.chain, &self.b_side.connection_id, Height::zero()),
                Ok(connection),
            )
        &&& call_ensures(ChainA::query_latest_height, (&self.a_side.chain,), Ok(query_height))
        &&& call_ensures(
            ChainA::build_channel_proofs,
            (&self.a_side.chain, &self.a_side.port_id, &src_channel_id, query_height),
            Ok(proofs),
        )
        &&& self.is_client_update(proofs.height, Ok(msgs))
    }

    /// Whether `proofs` and `msgs` are what comes of proving the channel end
    /// `src_channel_id` of the source at its latest height: see
    /// `is_proved_at`.
    pub open spec fn is_proved_on_source(
        &self,
        src_channel_id: ChannelId,
        msgs: Vec<Msg>,
        proofs: Proofs,
    ) -> bool {
        exists|query_height: Height| #[trigger]
            self.is_proved_at(src_channel_id, query_height, msgs, proofs)
    }

    /// Whether `msgs` are, but for the last, the messages that update the
    /// client of the destination up to the height of `proofs`, and `proofs`
    /// what the source gave for the channel end that the driver holds for
    /// it: see `is_proved_on_source`.
    pub open spec fn carries_proof(&self, msgs: Seq<Msg>, proofs: Proofs) -> bool {
        &&& self.a_side.channel_id is Some
        &&& msgs.len() >= 1
        &&& exists|updates: Vec<Msg>|
            {
                &&& #[trigger] self.is_proved_on_source(self.a_side.channel_id->0, updates, proofs)
                &&& msgs.drop_last() == updates@
            }
    }

    /// What the messages that carry a proof have in common: the destination
    /// has the connection, the source proves its channel end at its latest
    /// height, and the destination's client is brought up to the height of
    /// the proof.
    fn prove_on_source(&self, src_channel_id: &ChannelId) -> (r: Result<
        (Vec<Msg>, Proofs),
        ChannelError,
    >)
        ensures
            match r {
                Ok((msgs, proofs)) => {
                    &&& forall|i: int| 0 <= i < msgs@.len() ==> #[trigger] msgs@[i] is Encoded
                    &&& self.is_proved_on_source(*src_channel_id, msgs, proofs)
                },
                Err(e) => e is Query || e is ChannelProof || e is ClientOperation,
            },
    {
        match self.b_side.chain.query_connection(&self.b_side.connection_id, Height::zero()) {
            Ok(_) => {},
            Err(e) => {
                return Err(ChannelError::Query(self.b_side.chain.id(), e));
            },
        }
        let query_height = match self.a_side.chain.query_latest_height() {
            Ok(height) => height,
            Err(e) => {
                return Err(ChannelError::Query(self.a_side.chain.id(), e));
            },
        };
        let proofs = match self.a_side.chain.build_channel_proofs(
            &self.a_side.port_id,
            src_channel_id,
            query_height,
        ) {
            Ok(proofs) => proofs,
            Err(e) => {
                return Err(ChannelError::ChannelProof(e));
            },
        };
        match self.build_update_client_on_dst(proofs.height()) {
            Ok(msgs) => {
                assert(self.is_proved_at(*src_channel_id, query_height, msgs, proofs));
                Ok((msgs, proofs))
            },
            Err(e) => Err(e),
        }
    }

    /// The `Try` message for the destination, after the messages that update
    /// its client.
    ///
    /// The source must hold the channel end, which must name the
    /// destination's port as its other end: `MismatchPort` otherwise.
    pub fn build_chan_open_try(&self) -> (r: Result<Vec<Msg>, ChannelError>)
        ensures
            self.a_side.channel_id is None ==> r matches Err(ChannelError::MissingLocalChannelId),
            match r {
                Ok(msgs) => {
                    &&& self.a_side.channel_id is Some
                    &&& msgs@.len() >= 1
                    &&& forall|i: int| 0 <= i < msgs@.len() - 1 ==> #[trigger] msgs@[i] is Encoded
                    &&& msgs@.last() matches Msg::ChannelOpenTry(m)
                    &&& m.port_id == self.b_side.port_id
                    &&& self.carries_proof(msgs@, m.proofs)
                    &&& self.is_destination_end(m.channel, State::TryOpen)
                    &&& m.previous_channel_id is None ==> self.b_side.channel_id is None
                    &&& self.version matches Some(held) ==> m.counterparty_version == held
                    &&& exists|found: ChannelEnd|
                        {
                            &&& #[trigger] self.is_answered_by_source(found)
                            &&& found.remote.port_id@ == self.b_side.port_id@
                            &&& m.channel.ordering == found.ordering
                            &&& m.previous_channel_id == spec_previous_channel_id(
                                found.remote.channel_id,
                                self.b_side.channel_id,
                            )
                        }
                },
                Err(e) => {
                    &&& e is MissingLocalChannelId || e is Query || e is MismatchPort
                        || e is ChannelProof || e is ClientOperation || e is FetchSigner
                    &&& e is MissingLocalChannelId ==> self.a_side.channel_id is None
                    &&& e matches ChannelError::MismatchPort {
                        destination_port_id,
                        counterparty_port_id,
                        counterparty_channel_id,
                        ..
                    } ==> {
                        &&& destination_port_id == self.b_side.port_id
                        &&& self.a_side.channel_id == Some(counterparty_channel_id)
                        &&& counterparty_port_id@ != self.b_side.port_id@
                        &&& exists|found: ChannelEnd| #[trigger]
                            self.is_answered_by_source(found) && found.remote.port_id
                                == counterparty_port_id
                    }
                },
            },
    {
        let src_channel_id = match &self.a_side.channel_id {
            Some(id) => id,
            None => {
                return Err(ChannelError::MissingLocalChannelId);
            },
        };
        let src_channel = match self.a_side.chain.query_channel(
            &self.a_side.port_id,
            src_channel_id,
            Height::zero(),
        ) {
            Ok(end) => end,
            Err(e) => {
                return Err(ChannelError::Query(self.a_side.chain.id(), e));
            },
        };
        assert(self.is_answered_by_source(src_channel));
        if src_channel.remote.port_id != self.b_side.port_id {
            return Err(
                ChannelError::MismatchPort {
                    destination_chain_id: self.b_side.chain.id(),
                    destination_port_id: self.b_side.port_id.clone(),
                    source_chain_id: self.a_side.chain.id(),
                    counterparty_port_id: src_channel.remote.port_id.clone(),
                    counterparty_channel_id: src_channel_id.clone(),
                },
            );
        }
        let (mut msgs, proofs) = match self.prove_on_source(src_channel_id) {
            Ok(found) => found,
            Err(e) => {
                return Err(e);
            },
        };
        let version = match self.dst_version() {
            Ok(version) => version,
            Err(e) => {
                return Err(e);
            },
        };
        let channel = self.destination_end(State::TryOpen, src_channel.ordering, version);
        let signer = match self.b_side.chain.get_signer() {
            Ok(signer) => signer,
            Err(e) => {
                return Err(ChannelError::FetchSigner(self.b_side.chain.id(), e));
            },
        };
        let previous = previous_channel_id(&src_channel.remote.channel_id, &self.b_side.channel_id);
        let counterparty_version = match self.src_version() {
            Ok(version) => version,
            Err(e) => {
                return Err(e);
            },
        };
        let new_msg = MsgChannelOpenTry {
            port_id: self.b_side.port_id.clone(),
            previous_channel_id: previous,
            counterparty_version,
            channel,
            proofs,
            signer,
        };
        let ghost updates = msgs;
        let ghost proved = new_msg.proofs;
        msgs.push(Msg::ChannelOpenTry(new_msg));
        proof {
            assert(msgs@.drop_last() == updates@);
            assert(self.carries_proof(msgs@, proved));
        }
        Ok(msgs)
    }

    /// Builds the `Try` message and submits it to the destination.
    pub fn build_chan_open_try_and_send(&self) -> (r: Result<IbcEvent, ChannelError>)
        ensures
            r is Ok ==> self.is_submitted(HandshakeStep::OpenTry, r),
            r matches Err(e) ==> {
                &&& is_building_error(e) || is_submission_error(e)
                &&& is_submission_error(e) ==> self.is_submitted(HandshakeStep::OpenTry, r)
            },
            self.a_side.channel_id is None ==> r matches Err(ChannelError::MissingLocalChannelId),
            match r {
                Ok(event) => event is OpenTryChannel,
                Err(e) => e is MissingLocalChannelId ==> self.a_side.channel_id is None,
            },
    {
        let dst_msgs = match self.build_chan_open_try() {
            Ok(msgs) => msgs,
            Err(e) => {
                return Err(e);
            },
        };
        let ghost built = dst_msgs;
        let r = self.send_and_settle(dst_msgs, HandshakeStep::OpenTry);
        proof {
            assert(self.is_step_msgs(HandshakeStep::OpenTry, built@));
            assert(self.is_answer_to(built, HandshakeStep::OpenTry, r));
        }
        r
    }

    /// What `Ack`, `Confirm` and the confirmation of a closing do before
    /// they build their message: both channels must be held, the end on the
    /// destination must fit, and the source must hold its end.
    fn prepare_proved_msg(&self, msg_type: ChannelMsgType) -> (r: Result<
        (Vec<Msg>, Proofs, ChannelId, ChannelId),
        ChannelError,
    >)
        ensures
            self.a_side.channel_id is None ==> r matches Err(ChannelError::MissingLocalChannelId),
            self.a_side.channel_id is Some && self.b_side.channel_id is None ==> r matches Err(
                ChannelError::MissingCounterpartyChannelId,
            ),
            match r {
                Ok((msgs, proofs, src_channel_id, dst_channel_id)) => {
                    &&& self.a_side.channel_id == Some(src_channel_id)
                    &&& self.b_side.channel_id == Some(dst_channel_id)
                    &&& forall|i: int| 0 <= i < msgs@.len() ==> #[trigger] msgs@[i] is Encoded
                    &&& self.is_proved_on_source(src_channel_id, msgs, proofs)
                },
                Err(e) => {
                    &&& e is MissingLocalChannelId || e is MissingCounterpartyChannelId
                        || e is Query || e is MissingChannelOnDestination
                        || e is ChannelAlreadyExist || e is ChannelProof || e is ClientOperation
                    &&& e is MissingLocalChannelId ==> self.a_side.channel_id is None
                    &&& e is MissingCounterpartyChannelId ==> self.b_side.channel_id is None
                },
            },
    {
        let src_channel_id = match &self.a_side.channel_id {
            Some(id) => id,
            None => {
                return Err(ChannelError::MissingLocalChannelId);
            },
        };
        let dst_channel_id = match &self.b_side.channel_id {
            Some(id) => id,
            None => {
                return Err(ChannelError::MissingCounterpartyChannelId);
            },
        };
        match self.validated_expected_channel(msg_type) {
            Ok(_) => {},
            Err(e) => {
                return Err(e);
            },
        }
        match self.a_side.chain.query_channel(&self.a_side.port_id, src_channel_id, Height::zero()) {
            Ok(_) => {},
            Err(e) => {
                return Err(ChannelError::Query(self.a_side.chain.id(), e));
            },
        }
        match self.prove_on_source(src_channel_id) {
            Ok((msgs, proofs)) => Ok((msgs, proofs, src_channel_id.clone(), dst_channel_id.clone())),
            Err(e) => Err(e),
        }
    }

    /// The `Ack` message for the destination, after the messages that update
    /// its client.
    pub fn build_chan_open_ack(&self) -> (r: Result<Vec<Msg>, ChannelError>)
        ensures
            self.a_side.channel_id is None ==> r matches Err(ChannelError::MissingLocalChannelId),
            self.a_side.channel_id is Some && self.b_side.channel_id is None ==> r matches Err(
                ChannelError::MissingCounterpartyChannelId,
            ),
            match r {
                Ok(msgs) => {
                    &&& msgs@.len() >= 1
                    &&& forall|i: int| 0 <= i < msgs@.len() - 1 ==> #[trigger] msgs@[i] is Encoded
                    &&& msgs@.last() matches Msg::ChannelOpenAck(m)
                    &&& m.port_id == self.b_side.port_id
                    &&& self.carries_proof(msgs@, m.proofs)
                    &&& self.b_side.channel_id == Some(m.channel_id)
                    &&& self.a_side.channel_id == Some(m.counterparty_channel_id)
                    &&& self.version matches Some(held) ==> m.counterparty_version == held
                },
                Err(e) => {
                    &&& is_building_error(e)
                    &&& e is MissingLocalChannelId ==> self.a_side.channel_id is None
                    &&& e is MissingCounterpartyChannelId ==> self.b_side.channel_id is None
                },
            },
    {
        let (mut msgs, proofs, src_channel_id, dst_channel_id) = match self.prepare_proved_msg(
            ChannelMsgType::OpenAck,
        ) {
            Ok(found) => found,
            Err(e) => {
                return Err(e);
            },
        };
        let signer = match self.b_side.chain.get_signer() {
            Ok(signer) => signer,
            Err(e) => {
                return Err(ChannelError::FetchSigner(self.b_side.chain.id(), e));
            },
        };
        let counterparty_version = match self.src_version() {
            Ok(version) => version,
            Err(e) => {
                return Err(e);
            },
        };
        let new_msg = MsgChannelOpenAck {
            port_id: self.b_side.port_id.clone(),
            channel_id: dst_channel_id,
            counterparty_channel_id: src_channel_id,
            counterparty_version,
            proofs,
            signer,
        };
        let ghost updates = msgs;
        let ghost proved = new_msg.proofs;
        msgs.push(Msg::ChannelOpenAck(new_msg));
        proof {
            assert(msgs@.drop_last() == updates@);
            assert(self.is_proved_on_source(self.a_side.channel_id->0, updates, proved));
            assert(self.carries_proof(msgs@, proved));
        }
        Ok(msgs)
    }

    /// Builds the `Ack` message and submits it to the destination.
    pub fn build_chan_open_ack_and_send(&self) -> (r: Result<IbcEvent, ChannelError>)
        ensures
            r is Ok ==> self.is_submitted(HandshakeStep::OpenAck, r),
            r matches Err(e) ==> {
                &&& is_building_error(e) || is_submission_error(e)
                &&& is_submission_error(e) ==> self.is_submitted(HandshakeStep::OpenAck, r)
            },
            self.a_side.channel_id is None ==> r matches Err(ChannelError::MissingLocalChannelId),
            self.a_side.channel_id is Some && self.b_side.channel_id is None ==> r matches Err(
                ChannelError::MissingCounterpartyChannelId,
            ),
            match r {
                Ok(event) => event is OpenAckChannel,
                Err(e) => {
                    &&& is_building_error(e) || is_submission_error(e)
                    &&& e is MissingLocalChannelId ==> self.a_side.channel_id is None
                    &&& e is MissingCounterpartyChannelId ==> self.b_side.channel_id is None
                },
            },
    {
        let dst_msgs = match self.build_chan_open_ack() {
            Ok(msgs) => msgs,
            Err(e) => {
                return Err(e);
            },
        };
        let ghost built = dst_msgs;
        let r = self.send_and_settle(dst_msgs, HandshakeStep::OpenAck);
        proof {
            assert(self.is_step_msgs(HandshakeStep::OpenAck, built@));
            assert(self.is_answer_to(built, HandshakeStep::OpenAck, r));
        }
        r
    }

    /// The `Confirm` message for the destination, after the messages that
    /// update its client.
    pub fn build_chan_open_confirm(&self) -> (r: Result<Vec<Msg>, ChannelError>)
        ensures
            self.a_side.channel_id is None ==> r matches Err(ChannelError::MissingLocalChannelId),
            self.a_side.channel_id is Some && self.b_side.channel_id is None ==> r matches Err(
                ChannelError::MissingCounterpartyChannelId,
            ),
            match r {
                Ok(msgs) => {
                    &&& msgs@.len() >= 1
                    &&& forall|i: int| 0 <= i < msgs@.len() - 1 ==> #[trigger] msgs@[i] is Encoded
                    &&& msgs@.last() matches Msg::ChannelOpenConfirm(m)
                    &&& m.port_id == self.b_side.port_id
                    &&& self.carries_proof(msgs@, m.proofs)
                    &&& self.b_side.channel_id == Some(m.channel_id)
                },
                Err(e) => {
                    &&& is_building_error(e)
                    &&& e is MissingLocalChannelId ==> self.a_side.channel_id is None
                    &&& e is MissingCounterpartyChannelId ==> self.b_side.channel_id is None
                },
            },
    {
        let (mut msgs, proofs, _, dst_channel_id) = match self.prepare_proved_msg(
            ChannelMsgType::OpenConfirm,
        ) {
            Ok(found) => found,
            Err(e) => {
                return Err(e);
            },
        };
        let signer = match self.b_side.chain.get_signer() {
            Ok(signer) => signer,
            Err(e) => {
                return Err(ChannelError::FetchSigner(self.b_side.chain.id(), e));
            },
        };
        let new_msg = MsgChannelOpenConfirm {
            port_id: self.b_side.port_id.clone(),
            channel_id: dst_channel_id,
            proofs,
            signer,
        };
        let ghost updates = msgs;
        let ghost proved = new_msg.proofs;
        msgs.push(Msg::ChannelOpenConfirm(new_msg));
        proof {
            assert(msgs@.drop_last() == updates@);
            assert(self.is_proved_on_source(self.a_side.channel_id->0, updates, proved));
            assert(self.carries_proof(msgs@, proved));
        }
        Ok(msgs)
    }

    /// Builds the `Confirm` message and submits it to the destination.
    pub fn build_chan_open_confirm_and_send(&self) -> (r: Result<IbcEvent, ChannelError>)
        ensures
            r is Ok ==> self.is_submitted(HandshakeStep::OpenConfirm, r),
            r matches Err(e) ==> {
                &&& is_building_error(e) || is_submission_error(e)
                &&& is_submission_error(e) ==> self.is_submitted(HandshakeStep::OpenConfirm, r)
            },
            self.a_side.channel_id is None ==> r matches Err(ChannelError::MissingLocalChannelId),
            self.a_side.channel_id is Some && self.b_side.channel_id is None ==> r matches Err(
                ChannelError::MissingCounterpartyChannelId,
            ),
            match r {
                Ok(event) => event is OpenConfirmChannel,
                Err(e) => {
                    &&& is_building_error(e) || is_submission_error(e)
                    &&& e is MissingLocalChannelId ==> self.a_side.channel_id is None
                    &&& e is MissingCounterpartyChannelId ==> self.b_side.channel_id is None
                },
            },
    {
        let dst_msgs = match self.build_chan_open_confirm() {
            Ok(msgs) => msgs,
            Err(e) => {
                return Err(e);
            },
        };
        let ghost built = dst_msgs;
        let r = self.send_and_settle(dst_msgs, HandshakeStep::OpenConfirm);
        proof {
            assert(self.is_step_msgs(HandshakeStep::OpenConfirm, built@));
            assert(self.is_answer_to(built, HandshakeStep::OpenConfirm, r));
        }
        r
    }

    /// The message that starts the closing of the channel on the
    /// destination, which must hold the channel end.
    pub fn build_chan_close_init(&self) -> (r: Result<Vec<Msg>, ChannelError>)
        ensures
            self.b_side.channel_id is None ==> r matches Err(
                ChannelError::MissingCounterpartyChannelId,
            ),
            match r {
                Ok(msgs) => {
                    &&& msgs@.len() == 1
                    &&& msgs@[0] matches Msg::ChannelCloseInit(m)
                    &&& m.port_id == self.b_side.port_id
                    &&& self.b_side.channel_id == Some(m.channel_id)
                },
                Err(e) => {
                    &&& e is MissingCounterpartyChannelId || e is Query || e is FetchSigner
                    &&& e is MissingCounterpartyChannelId ==> self.b_side.channel_id is None
                },
            },
    {
        let dst_channel_id = match &self.b_side.channel_id {
            Some(id) => id,
            None => {
                return Err(ChannelError::MissingCounterpartyChannelId);
            },
        };
        match self.b_side.chain.query_channel(&self.b_side.port_id, dst_channel_id, Height::zero()) {
            Ok(_) => {},
            Err(e) => {
                return Err(ChannelError::Query(self.b_side.chain.id(), e));
            },
        }
        let signer = match self.b_side.chain.get_signer() {
            Ok(signer) => signer,
            Err(e) => {
                return Err(ChannelError::FetchSigner(self.b_side.chain.id(), e));
            },
        };
        let new_msg = MsgChannelCloseInit {
            port_id: self.b_side.port_id.clone(),
            channel_id: dst_channel_id.clone(),
            signer,
        };
        Ok(vec![Msg::ChannelCloseInit(new_msg)])
    }

    /// Builds the message that starts the closing and submits it to the
    /// destination.
    pub fn build_chan_close_init_and_send(&self) -> (r: Result<IbcEvent, ChannelError>)
        ensures
            r is Ok ==> self.is_submitted(HandshakeStep::CloseInit, r),
            r matches Err(e) ==> {
                &&& is_building_error(e) || is_submission_error(e)
                &&& is_submission_error(e) ==> self.is_submitted(HandshakeStep::CloseInit, r)
            },
            self.b_side.channel_id is None ==> r matches Err(
                ChannelError::MissingCounterpartyChannelId,
            ),
            match r {
                Ok(event) => event is CloseInitChannel,
                Err(e) => e is MissingCounterpartyChannelId ==> self.b_side.channel_id is None,
            },
    {
        let dst_msgs = match self.build_chan_close_init() {
            Ok(msgs) => msgs,
            Err(e) => {
                return Err(e);
            },
        };
        let ghost built = dst_msgs;
        let r = self.send_and_settle(dst_msgs, HandshakeStep::CloseInit);
        proof {
            assert(self.is_step_msgs(HandshakeStep::CloseInit, built@));
            assert(self.is_answer_to(built, HandshakeStep::CloseInit, r));
        }
        r
    }

    /// The message that confirms the closing of the channel on the
    /// destination, after the messages that update its client.
    pub fn build_chan_close_confirm(&self) -> (r: Result<Vec<Msg>, ChannelError>)
        ensures
            self.a_side.channel_id is None ==> r matches Err(ChannelError::MissingLocalChannelId),
            self.a_side.channel_id is Some && self.b_side.channel_id is None ==> r matches Err(
                ChannelError::MissingCounterpartyChannelId,
            ),
            match r {
                Ok(msgs) => {
                    &&& msgs@.len() >= 1
                    &&& forall|i: int| 0 <= i < msgs@.len() - 1 ==> #[trigger] msgs@[i] is Encoded
                    &&& msgs@.last() matches Msg::ChannelCloseConfirm(m)
                    &&& m.port_id == self.b_side.port_id
                    &&& self.carries_proof(msgs@, m.proofs)
                    &&& self.b_side.channel_id == Some(m.channel_id)
                },
                Err(e) => {
                    &&& is_building_error(e)
                    &&& e is MissingLocalChannelId ==> self.a_side.channel_id is None
                    &&& e is MissingCounterpartyChannelId ==> self.b_side.channel_id is None
                },
            },
    {
        let (mut msgs, proofs, _, dst_channel_id) = match self.prepare_proved_msg(
            ChannelMsgType::CloseConfirm,
        ) {
            Ok(found) => found,
            Err(e) => {
                return Err(e);
            },
        };
        let signer = match self.b_side.chain.get_signer() {
            Ok(signer) => signer,
            Err(e) => {
                return Err(ChannelError::FetchSigner(self.b_side.chain.id(), e));
            },
        };
        let new_msg = MsgChannelCloseConfirm {
            port_id: self.b_side.port_id.clone(),
            channel_id: dst_channel_id,
            proofs,
            signer,
        };
        let ghost updates = msgs;
        let ghost proved = new_msg.proofs;
        msgs.push(Msg::ChannelCloseConfirm(new_msg));
        proof {
            assert(msgs@.drop_last() == updates@);
            assert(self.is_proved_on_source(self.a_side.channel_id->0, updates, proved));
            assert(self.carries_proof(msgs@, proved));
        }
        Ok(msgs)
    }

    /// Builds the message that confirms the closing and submits it to the
    /// destination.
    pub fn build_chan_close_confirm_and_send(&self) -> (r: Result<IbcEvent, ChannelError>)
        ensures
            r is Ok ==> self.is_submitted(HandshakeStep::CloseConfirm, r),
            r matches Err(e) ==> {
                &&& is_building_error(e) || is_submission_error(e)
                &&& is_submission_error(e) ==> self.is_submitted(HandshakeStep::CloseConfirm, r)
            },
            self.a_side.channel_id is None ==> r matches Err(ChannelError::MissingLocalChannelId),
            self.a_side.channel_id is Some && self.b_side.channel_id is None ==> r matches Err(
                ChannelError::MissingCounterpartyChannelId,
            ),
            match r {
                Ok(event) => event is CloseConfirmChannel,
                Err(e) => {
                    &&& is_building_error(e) || is_submission_error(e)
                    &&& e is MissingLocalChannelId ==> self.a_side.channel_id is None
                    &&& e is MissingCounterpartyChannelId ==> self.b_side.channel_id is None
                },
            },
    {
        let dst_msgs = match self.build_chan_close_confirm() {
            Ok(msgs) => msgs,
            Err(e) => {
                return Err(e);
            },
        };
        let ghost built = dst_msgs;
        let r = self.send_and_settle(dst_msgs, HandshakeStep::CloseConfirm);
        proof {
            assert(self.is_step_msgs(HandshakeStep::CloseConfirm, built@));
            assert(self.is_answer_to(built, HandshakeStep::CloseConfirm, r));
        }
        r
    }
}

impl<ChainA: ChainHandle, ChainB: ChainHandle> Channel<ChainA, ChainB> {
    /// Whether `after` is this driver but for the channels that it holds.
    pub open spec fn same_ends(&self, after: &Self) -> bool {
        &&& after.ordering == self.ordering
        &&& after.connection_delay == self.connection_delay
        &&& after.version == self.version
        &&& after.a_side.chain == self.a_side.chain
        &&& after.a_side.client_id == self.a_side.client_id
        &&& after.a_side.connection_id == self.a_side.connection_id
        &&& after.a_side.port_id == self.a_side.port_id
        &&& after.b_side.chain == self.b_side.chain
        &&& after.b_side.client_id == self.b_side.client_id
        &&& after.b_side.connection_id == self.b_side.connection_id
        &&& after.b_side.port_id == self.b_side.port_id
    }

    /// What any number of tries of `phase` leaves of the driver: all but the
    /// channel that the phase is there to learn.
    pub open spec fn phase_keeps(&self, after: &Self, phase: HandshakePhase) -> bool {
        &&& self.same_ends(after)
        &&& phase != HandshakePhase::Init ==> after.a_side.channel_id == self.a_side.channel_id
        &&& phase != HandshakePhase::Try ==> after.b_side.channel_id == self.b_side.channel_id
    }

    /// What a try of `phase` that went through leaves: `Init` the channel of
    /// side `a`, `Try` the channel of side `b`, and `Finalize` an account of
    /// what was submitted.
    pub open spec fn phase_done(&self, phase: HandshakePhase, outcome: Option<FinalizeOutcome>) -> bool {
        match phase {
            HandshakePhase::Init => self.a_side.channel_id is Some,
            HandshakePhase::Try => self.b_side.channel_id is Some,
            HandshakePhase::Finalize => outcome matches Some(o) && o.wf(),
        }
    }

    /// Whether `after` holds the channels that this driver holds, beside all
    /// else.
    pub open spec fn same_channels(&self, after: &Self) -> bool {
        &&& self.same_ends(after)
        &&& after.a_side.channel_id == self.a_side.channel_id
        &&& after.b_side.channel_id == self.b_side.channel_id
    }

    /// Whether `outcome` is the account of an end of the handshake that
    /// went through: the states are those that the chains answered; each
    /// step was taken by the chain that it goes to; and all that was left
    /// was submitted.
    pub open spec fn is_finalized(&self, outcome: FinalizeOutcome) -> bool {
        &&& outcome.wf()
        &&& self.are_answered_states(outcome.initial)
        &&& self.are_answered_states(outcome.last)
        &&& forall|k: int| 0 <= k < outcome.sent@.len() ==> self.is_taken(#[trigger] outcome.sent@[k])
    }

    /// Whether a try of `phase` went through and left the driver as
    /// `after`. For `Init` the chain of side `a` took the message and named
    /// in its event the channel that `after` holds for side `a`; for `Try`
    /// the same on side `b`; for `Finalize` see `is_finalized`.
    pub open spec fn went_through(
        &self,
        phase: HandshakePhase,
        after: &Self,
        outcome: Option<FinalizeOutcome>,
    ) -> bool {
        match phase {
            HandshakePhase::Init => {
                &&& after.a_side.channel_id is Some
                &&& exists|flipped: Channel<ChainB, ChainA>, event: IbcEvent|
                    {
                        &&& self.is_flipped(&flipped)
                        &&& #[trigger] flipped.is_submitted(HandshakeStep::OpenInit, Ok(event))
                        &&& spec_channel_id_of(event) == after.a_side.channel_id
                    }
            },
            HandshakePhase::Try => {
                &&& after.b_side.channel_id is Some
                &&& exists|event: IbcEvent|
                    {
                        &&& #[trigger] self.is_submitted(HandshakeStep::OpenTry, Ok(event))
                        &&& spec_channel_id_of(event) == after.b_side.channel_id
                    }
            },
            HandshakePhase::Finalize => {
                &&& outcome matches Some(o)
                &&& self.is_finalized(o)
                &&& self.same_channels(after)
            },
        }
    }

    /// What one try of `phase` does to the driver, and how it ends, where the
    /// driver is `self` before the try and `after` after it.
    ///
    /// A try that went through left what the phase is there for: see
    /// `went_through`. A try that failed left the driver as it was, and is
    /// tried again exactly where its error is one that is tried again. `Try`
    /// fails for good, with `MissingLocalChannelId`, where the driver holds
    /// no channel for side `a`; so does `Finalize`, which fails for good
    /// with `MissingCounterpartyConnection` where the driver holds a channel
    /// for side `a` and none for side `b`.
    pub open spec fn tried(
        &self,
        phase: HandshakePhase,
        after: &Self,
        result: RetryResult<Option<FinalizeOutcome>, ChannelError>,
    ) -> bool {
        &&& self.phase_keeps(after, phase)
        &&& match result {
            RetryResult::Done(outcome) => after.phase_done(phase, outcome) && self.went_through(
                phase,
                after,
                outcome,
            ),
            RetryResult::Retry(e) => e.spec_is_retryable() && self.same_channels(after),
            RetryResult::Abort(e) => !e.spec_is_retryable() && self.same_channels(after),
        }
        &&& phase != HandshakePhase::Init && self.a_side.channel_id is None ==> result
            == RetryResult::<Option<FinalizeOutcome>, ChannelError>::Abort(
            ChannelError::MissingLocalChannelId,
        )
        &&& phase == HandshakePhase::Finalize && self.a_side.channel_id is Some
            && self.b_side.channel_id is None ==> result == RetryResult::<
            Option<FinalizeOutcome>,
            ChannelError,
        >::Abort(ChannelError::MissingCounterpartyConnection)
    }

    /// What a failed step is called in the error that ends its tries: the
    /// step, then the two ports.
    pub open spec fn description(&self, what: Seq<char>) -> Seq<char> {
        what + " for "@ + self.a_side.port_id@ + " <-> "@ + self.b_side.port_id@
    }

    /// What a failed step is called in the error that ends its tries: see
    /// `description`.
    pub fn describe(&self, what: &str) -> (r: String)
        ensures
            r@ == self.description(what@),
            r@ == what@ + " for "@ + self.a_side.port_id@ + " <-> "@ + self.b_side.port_id@,
    {
        let mut text = what.to_owned();
        text.append(" for ");
        text.append(self.a_side.port_id.as_str());
        text.append(" <-> ");
        text.append(self.b_side.port_id.as_str());
        text
    }

    /// One try of `Init`: the message goes to side `a`, and the channel that
    /// the chain names in its event becomes the channel of side `a`.
    pub fn do_chan_open_init_and_send(&mut self) -> (r: Result<(), ChannelError>)
        ensures
            old(self).phase_keeps(final(self), HandshakePhase::Init),
            match r {
                Ok(_) => old(self).went_through(HandshakePhase::Init, final(self), None),
                Err(e) => old(self).same_channels(final(self)) && (e is Query || e is Submit
                    || e is TxResponse || e is MissingEvent),
            },
    {
        let flipped = self.flipped();
        let event = match flipped.build_chan_open_init_and_send() {
            Ok(event) => event,
            Err(e) => {
                return Err(e);
            },
        };
        assert(flipped.is_submitted(HandshakeStep::OpenInit, Ok(event)));
        let channel_id = match extract_channel_id(&event) {
            Ok(id) => id,
            Err(e) => {
                return Err(e);
            },
        };
        self.a_side.channel_id = Some(channel_id);
        Ok(())
    }

    /// One try of `Try`: the message goes to side `b`, and the channel that
    /// the chain names in its event becomes the channel of side `b`.
    pub fn do_chan_open_try_and_send(&mut self) -> (r: Result<(), ChannelError>)
        ensures
            old(self).phase_keeps(final(self), HandshakePhase::Try),
            old(self).a_side.channel_id is None ==> r matches Err(
                ChannelError::MissingLocalChannelId,
            ),
            match r {
                Ok(_) => old(self).went_through(HandshakePhase::Try, final(self), None),
                Err(e) => old(self).same_channels(final(self)),
            },
    {
        let event = match self.build_chan_open_try_and_send() {
            Ok(event) => event,
            Err(e) => {
                return Err(e);
            },
        };
        assert(self.is_submitted(HandshakeStep::OpenTry, Ok(event)));
        let channel_id = match extract_channel_id(&event) {
            Ok(id) => id,
            Err(e) => {
                return Err(e);
            },
        };
        self.b_side.channel_id = Some(channel_id);
        Ok(())
    }

    /// Whether `states` are the states of the two ends as the chains
    /// answered them: see `is_answered_by_source` and
    /// `is_answered_by_destination`.
    pub open spec fn are_answered_states(&self, states: (State, State)) -> bool {
        exists|a_end: ChannelEnd, b_end: ChannelEnd|
            {
                &&& #[trigger] self.is_answered_by_source(a_end)
                &&& #[trigger] self.is_answered_by_destination(b_end)
                &&& states == (a_end.state, b_end.state)
            }
    }

    /// The states of the two ends, as the chains give them now.
    ///
    /// Fails with `MissingLocalChannelId` where the driver holds no channel
    /// for side `a`, with `MissingCounterpartyConnection` where it holds one
    /// for side `a` and none for side `b`, and with `HandshakeFinalize` where
    /// a chain does not answer.
    pub fn query_channel_states(&self) -> (r: Result<(State, State), ChannelError>)
        ensures
            r matches Ok(states) ==> self.are_answered_states(states),
            self.a_side.channel_id is None ==> r matches Err(ChannelError::MissingLocalChannelId),
            self.a_side.channel_id is Some && self.b_side.channel_id is None ==> r matches Err(
                ChannelError::MissingCounterpartyConnection,
            ),
            r matches Err(e) ==> {
                &&& e is MissingLocalChannelId || e is MissingCounterpartyConnection
                    || e is HandshakeFinalize
                &&& e is MissingLocalChannelId ==> self.a_side.channel_id is None
                &&& e is MissingCounterpartyConnection ==> self.b_side.channel_id is None
            },
    {
        let src_channel_id = match &self.a_side.channel_id {
            Some(id) => id,
            None => {
                return Err(ChannelError::MissingLocalChannelId);
            },
        };
        let dst_channel_id = match &self.b_side.channel_id {
            Some(id) => id,
            None => {
                return Err(ChannelError::MissingCounterpartyConnection);
            },
        };
        let a_channel = match self.a_side.chain.query_channel(
            &self.a_side.port_id,
            src_channel_id,
            Height::zero(),
        ) {
            Ok(end) => end,
            Err(e) => {
                return Err(
                    ChannelError::HandshakeFinalize(
                        self.a_side.port_id.clone(),
                        src_channel_id.clone(),
                        self.a_side.chain.id(),
                        e,
                    ),
                );
            },
        };
        let b_channel = match self.b_side.chain.query_channel(
            &self.b_side.port_id,
            dst_channel_id,
            Height::zero(),
        ) {
            Ok(end) => end,
            Err(e) => {
                return Err(
                    ChannelError::HandshakeFinalize(
                        self.b_side.port_id.clone(),
                        dst_channel_id.clone(),
                        self.b_side.chain.id(),
                        e,
                    ),
                );
            },
        };
        proof {
            assert(self.is_answered_by_source(a_channel));
            assert(self.is_answered_by_destination(b_channel));
        }
        Ok((a_channel.state, b_channel.state))
    }

    /// Whether the chain that `step` goes to answered the messages of the
    /// step with the step's event. For a step on side `b` that chain is the
    /// destination of this driver; for a step on side `a` it is the
    /// destination of the flipped driver, which holds a clone of the handle
    /// of side `a`.
    pub open spec fn is_taken(&self, step: FinalizeStep) -> bool {
        match step {
            FinalizeStep::AckOnB => exists|event: IbcEvent| #[trigger]
                self.is_submitted(HandshakeStep::OpenAck, Ok(event)),
            FinalizeStep::ConfirmOnB => exists|event: IbcEvent| #[trigger]
                self.is_submitted(HandshakeStep::OpenConfirm, Ok(event)),
            FinalizeStep::AckOnA => exists|flipped: Channel<ChainB, ChainA>, event: IbcEvent|
                self.is_flipped(&flipped) && #[trigger] flipped.is_submitted(
                    HandshakeStep::OpenAck,
                    Ok(event),
                ),
            FinalizeStep::ConfirmOnA => exists|flipped: Channel<ChainB, ChainA>, event: IbcEvent|
                self.is_flipped(&flipped) && #[trigger] flipped.is_submitted(
                    HandshakeStep::OpenConfirm,
                    Ok(event),
                ),
        }
    }

    /// Submits one step of the end of the handshake to the chain that it is
    /// for, with the other chain as the source of the proof.
    ///
    /// Fails with `MissingLocalChannelId` where the driver holds no channel
    /// for the source of the proof, and with `MissingCounterpartyChannelId`
    /// where it holds one for the source and none for the chain that the
    /// step goes to; no chain is asked then.
    fn submit(&self, step: FinalizeStep) -> (r: Result<(), ChannelError>)
        ensures
            self.proving_channel(step) is None ==> r matches Err(
                ChannelError::MissingLocalChannelId,
            ),
            self.proving_channel(step) is Some && self.receiving_channel(step) is None ==> r matches Err(
                ChannelError::MissingCounterpartyChannelId,
            ),
            r matches Err(e) ==> {
                &&& e is MissingLocalChannelId ==> self.proving_channel(step) is None
                &&& e is MissingCounterpartyChannelId ==> self.receiving_channel(step) is None
            },
            r matches Err(e) ==> is_building_error(e) || is_submission_error(e),
            r is Ok ==> self.proving_channel(step) is Some && self.receiving_channel(step) is Some,
            r is Ok ==> self.is_taken(step),
    {
        let sent = match step {
            FinalizeStep::AckOnA => {
                let flipped = self.flipped();
                let sent = flipped.build_chan_open_ack_and_send();
                assert(sent matches Ok(event) ==> flipped.is_submitted(
                    HandshakeStep::OpenAck,
                    Ok(event),
                ));
                sent
            },
            FinalizeStep::AckOnB => self.build_chan_open_ack_and_send(),
            FinalizeStep::ConfirmOnA => {
                let flipped = self.flipped();
                let sent = flipped.build_chan_open_confirm_and_send();
                assert(sent matches Ok(event) ==> flipped.is_submitted(
                    HandshakeStep::OpenConfirm,
                    Ok(event),
                ));
                sent
            },
            FinalizeStep::ConfirmOnB => self.build_chan_open_confirm_and_send(),
        };
        match sent {
            Ok(_) => Ok(()),
            Err(e) => Err(e),
        }
    }

    /// The channel that the driver holds for the chain that proves for
    /// `step`: the other chain than the one that the step goes to.
    pub open spec fn proving_channel(&self, step: FinalizeStep) -> Option<ChannelId> {
        if step.goes_to_a() {
            self.b_side.channel_id
        } else {
            self.a_side.channel_id
        }
    }

    /// The channel that the driver holds for the chain that `step` goes to.
    pub open spec fn receiving_channel(&self, step: FinalizeStep) -> Option<ChannelId> {
        if step.goes_to_a() {
            self.a_side.channel_id
        } else {
            self.b_side.channel_id
        }
    }

    /// One try of the end of the opening handshake.
    ///
    /// The states of the two ends are queried, and what is left to submit
    /// follows from them: see `spec_finalize_steps`. After each submission
    /// the states are queried again; where they are not those that the
    /// submission leads to, the try fails with `PartialOpenHandshake`.
    /// Where nothing is left to submit, the try succeeds with nothing
    /// submitted.
    pub fn do_chan_open_finalize(&self) -> (r: Result<FinalizeOutcome, ChannelError>)
        ensures
            self.a_side.channel_id is None ==> r matches Err(ChannelError::MissingLocalChannelId),
            self.a_side.channel_id is Some && self.b_side.channel_id is None ==> r matches Err(
                ChannelError::MissingCounterpartyConnection,
            ),
            match r {
                Ok(outcome) => self.is_finalized(outcome),
                Err(e) => {
                    &&& e is MissingLocalChannelId ==> self.a_side.channel_id is None
                    &&& e is MissingCounterpartyConnection ==> self.b_side.channel_id is None
                },
            },
    {
        let initial = match self.query_channel_states() {
            Ok(states) => states,
            Err(e) => {
                return Err(e);
            },
        };
        let steps = finalize_steps(initial.0, initial.1);
        let mut last = initial;
        let mut sent: Vec<FinalizeStep> = Vec::new();
        let mut i: usize = 0;
        while i < steps.len()
            invariant
                i <= steps.len(),
                self.a_side.channel_id is Some,
                self.b_side.channel_id is Some,
                steps@ == spec_finalize_steps(initial.0, initial.1),
                sent@ == steps@.take(i as int),
                self.are_answered_states(last),
                forall|k: int| 0 <= k < i ==> self.is_taken(#[trigger] steps@[k]),
                last == if i == 0 {
                    initial
                } else {
                    steps@[i - 1].spec_expected()
                },
            decreases steps.len() - i,
        {
            let step = steps[i];
            match self.submit(step) {
                Ok(_) => {},
                Err(e) => {
                    return Err(e);
                },
            }
            let found = match self.query_channel_states() {
                Ok(states) => states,
                Err(e) => {
                    return Err(e);
                },
            };
            match check_channel_states(step.expected(), found) {
                Ok(_) => {},
                Err(e) => {
                    return Err(e);
                },
            }
            last = found;
            sent.push(step);
            assert(sent@ == steps@.take(i + 1));
            i = i + 1;
        }
        assert(steps@.take(steps@.len() as int) == steps@);
        Ok(FinalizeOutcome { initial, last, sent })
    }

    /// One try of `phase`, with the verdict on its error: whether the phase
    /// is tried again after it.
    fn attempt(&mut self, phase: HandshakePhase) -> (r: RetryResult<
        Option<FinalizeOutcome>,
        ChannelError,
    >)
        ensures
            old(self).tried(phase, final(self), r),
            old(self).phase_keeps(final(self), phase),
            match r {
                RetryResult::Done(outcome) => final(self).phase_done(phase, outcome),
                RetryResult::Retry(e) => e.spec_is_retryable(),
                RetryResult::Abort(e) => !e.spec_is_retryable(),
            },
    {
        let tried = match phase {
            HandshakePhase::Init => match self.do_chan_open_init_and_send() {
                Ok(_) => Ok(None),
                Err(e) => Err(e),
            },
            HandshakePhase::Try => match self.do_chan_open_try_and_send() {
                Ok(_) => Ok(None),
                Err(e) => Err(e),
            },
            HandshakePhase::Finalize => match self.do_chan_open_finalize() {
                Ok(outcome) => Ok(Some(outcome)),
                Err(e) => Err(e),
            },
        };
        match tried {
            Ok(outcome) => RetryResult::Done(outcome),
            Err(e) => if e.is_retryable() {
                RetryResult::Retry(e)
            } else {
                RetryResult::Abort(e)
            },
        }
    }
}

/// How the last try of a run of tries ended, by the answer of the run: a
/// run that succeeds ends with a try that went through; a run that fails
/// ends with a try that failed, which asked for another try exactly where
/// its error is one that is tried again.
pub open spec fn last_try(r: Result<Option<FinalizeOutcome>, RetryError<ChannelError>>) -> RetryResult<
    Option<FinalizeOutcome>,
    ChannelError,
> {
    match r {
        Ok(outcome) => RetryResult::Done(outcome),
        Err(RetryError::Operation { error, .. }) => if error.spec_is_retryable() {
            RetryResult::Retry(error)
        } else {
            RetryResult::Abort(error)
        },
        Err(RetryError::Internal(reason)) => RetryResult::Abort(ChannelError::RetryInternal(reason)),
    }
}

/// `retry::retry_with_index`, with one try of `phase` as the operation and
/// `delays`, in milliseconds, as the time to sleep between the tries.
///
/// The outside function calls the operation until it succeeds or fails for
/// good, or no delay is left. Its answer is the value of the last call, or
/// the error of the last call with the number of calls and the sum of the
/// delays slept. So the answer counts at most one try more than there are
/// delays, and exactly that many where the last error is one that is tried
/// again; and where it counts more than one try, a call before the last
/// asked for another try. What the contract says of the driver and of the
/// value is what every call of the operation ensures. A call that asks for
/// another try leaves the driver as it was, so each call, the last too,
/// found the driver as it was before the first, and ended as `tried` says.
#[verifier::external_body]
fn retry_phase<ChainA: ChainHandle, ChainB: ChainHandle>(
    channel: &mut Channel<ChainA, ChainB>,
    phase: HandshakePhase,
    delays: Vec<u64>,
) -> (r: Result<Option<FinalizeOutcome>, RetryError<ChannelError>>)
    requires
        total_of(delays@) <= u64::MAX,
    ensures
        old(channel).phase_keeps(final(channel), phase),
        match r {
            Ok(outcome) => final(channel).phase_done(phase, outcome),
            Err(RetryError::Operation { error, total_delay, tries }) => {
                &&& 1 <= tries <= delays@.len() + 1
                &&& total_delay as nat == total_of(delays@.take(tries - 1))
                &&& error.spec_is_retryable() ==> tries == delays@.len() + 1
            },
            Err(RetryError::Internal(_)) => false,
        },
        old(channel).tried(phase, final(channel), last_try(r)),
        r matches Err(RetryError::Operation { tries, .. }) && tries > 1 ==> exists|e: ChannelError| #[trigger]
            old(channel).tried(phase, old(channel), RetryResult::Retry(e)),
{
    let delays = delays.into_iter().map(Duration::from_millis);
    match retry::retry_with_index(delays, |_| match channel.attempt(phase) {
        RetryResult::Done(v) => OperationResult::Ok(v),
        RetryResult::Retry(e) => OperationResult::Retry(e),
        RetryResult::Abort(e) => OperationResult::Err(e),
    }) {
        Ok(v) => Ok(v),
        Err(retry::Error::Operation { error, total_delay, tries }) => Err(
            RetryError::Operation { error, total_delay: total_delay.as_millis() as u64, tries },
        ),
        Err(retry::Error::Internal(reason)) => Err(RetryError::Internal(reason)),
    }
}

/// Whether `e` is the error of a run of tries that ended with its first
/// try, which failed for good with `cause`: nothing was waited, and the
/// error is called `description`.
pub open spec fn is_failure_at_once(e: ChannelError, cause: ChannelError, description: Seq<char>) -> bool {
    &&& e matches ChannelError::MaxRetry { description: called, tries, total_delay, source }
    &&& called@ == description
    &&& tries == 1
    &&& total_delay == 0
    &&& *source == cause
}

/// Whether a run of tries failed at once: see `is_failure_at_once`.
pub open spec fn fails_at_once<T>(
    r: Result<T, ChannelError>,
    cause: ChannelError,
    description: Seq<char>,
) -> bool {
    r matches Err(e) && is_failure_at_once(e, cause, description)
}

/// Whether `e` is the error that ends a run of tries with the default
/// delays. It holds the error of the last try, the number of tries, and the
/// time waited, which is the sum of the delays before the last try. Where
/// the last error is one that is tried again, every delay was used, so the
/// step was tried once more than there are delays and ten minutes were
/// waited in all; an error that is not tried again ended the run with the
/// try that met it.
pub open spec fn is_retry_exhaustion(e: ChannelError) -> bool {
    &&& e matches ChannelError::MaxRetry { tries, total_delay, source, .. }
    &&& 1 <= tries <= retry_strategy::DELAYS + 1
    &&& total_delay as nat == total_of(retry_strategy::default_delays().take(tries - 1))
    &&& source.spec_is_retryable() ==> tries == retry_strategy::DELAYS + 1 && total_delay
        == retry_strategy::MAX_TOTAL_DELAY
}

/// How the last try of a run of tries ended, by the answer of the run,
/// where a failed run answers with `MaxRetry` around the error of its last
/// try.
pub open spec fn ended_with(r: Result<Option<FinalizeOutcome>, ChannelError>) -> RetryResult<
    Option<FinalizeOutcome>,
    ChannelError,
> {
    match r {
        Ok(outcome) => RetryResult::Done(outcome),
        Err(ChannelError::MaxRetry { source, .. }) => if source.spec_is_retryable() {
            RetryResult::Retry(*source)
        } else {
            RetryResult::Abort(*source)
        },
        Err(e) => RetryResult::Abort(e),
    }
}

impl<ChainA: ChainHandle, ChainB: ChainHandle> Channel<ChainA, ChainB> {
    /// Runs `phase` with the default delays between its tries.
    fn run_phase(&mut self, phase: HandshakePhase, what: &str) -> (r: Result<
        Option<FinalizeOutcome>,
        ChannelError,
    >)
        ensures
            old(self).phase_keeps(final(self), phase),
            old(self).tried(phase, final(self), ended_with(r)),
            match r {
                Ok(outcome) => final(self).phase_done(phase, outcome),
                Err(e) => is_retry_exhaustion(e) && old(self).same_channels(final(self)),
            },
            phase != HandshakePhase::Init && old(self).a_side.channel_id is None ==> fails_at_once(
                r,
                ChannelError::MissingLocalChannelId,
                old(self).description(what@),
            ),
            phase == HandshakePhase::Finalize && old(self).a_side.channel_id is Some && old(self).b_side.channel_id is None ==> fails_at_once(
                r,
                ChannelError::MissingCounterpartyConnection,
                old(self).description(what@),
            ),
    {
        let delays = retry_strategy::default();
        let ghost all = delays@;
        let tried = retry_phase(self, phase, delays);
        proof {
            let owed = (phase != HandshakePhase::Init && old(self).a_side.channel_id is None) || (
            phase == HandshakePhase::Finalize && old(self).b_side.channel_id is None);
            if owed {
                assert(last_try(tried) is Abort);
                if tried matches Err(RetryError::Operation { tries, .. }) && tries > 1 {
                    let e = choose|e: ChannelError| #[trigger]
                        old(self).tried(phase, old(self), RetryResult::Retry(e));
                    assert(false);
                }
                assert(all.take(0).len() == 0);
            }
        }
        match tried {
            Ok(outcome) => Ok(outcome),
            Err(e) => {
                proof {
                    assert(all.take(all.len() as int) == all);
                }
                let description = self.describe(what);
                Err(from_retry_error(e, description))
            },
        }
    }

    /// `Init`, tried until it goes through or the delays are used up.
    pub fn do_chan_open_init_and_send_with_retry(&mut self) -> (r: Result<(), ChannelError>)
        ensures
            old(self).phase_keeps(final(self), HandshakePhase::Init),
            match r {
                Ok(_) => old(self).went_through(HandshakePhase::Init, final(self), None),
                Err(e) => is_retry_exhaustion(e) && old(self).same_channels(final(self)),
            },
    {
        match self.run_phase(HandshakePhase::Init, "Failed to finish channel open init") {
            Ok(_) => Ok(()),
            Err(e) => Err(e),
        }
    }

    /// `Try`, tried until it goes through or the delays are used up.
    pub fn do_chan_open_try_and_send_with_retry(&mut self) -> (r: Result<(), ChannelError>)
        ensures
            old(self).phase_keeps(final(self), HandshakePhase::Try),
            old(self).a_side.channel_id is None ==> fails_at_once(
                r,
                ChannelError::MissingLocalChannelId,
                old(self).description("Failed to finish channel open try"@),
            ),
            match r {
                Ok(_) => old(self).went_through(HandshakePhase::Try, final(self), None),
                Err(e) => is_retry_exhaustion(e) && old(self).same_channels(final(self)),
            },
    {
        match self.run_phase(HandshakePhase::Try, "Failed to finish channel open try") {
            Ok(_) => Ok(()),
            Err(e) => Err(e),
        }
    }

    /// The end of the opening handshake, tried until it goes through or the
    /// delays are used up.
    ///
    /// A driver that does not hold both channels fails at once, without a
    /// wait: with `MissingLocalChannelId` where it holds none for side `a`,
    /// else with `MissingCounterpartyConnection`; no chain is asked then.
    pub fn do_chan_open_finalize_with_retry(&mut self) -> (r: Result<FinalizeOutcome, ChannelError>)
        ensures
            old(self).same_channels(final(self)),
            match r {
                Ok(outcome) => {
                    &&& outcome.wf()
                    &&& old(self).is_finalized(outcome)
                    &&& old(self).a_side.channel_id is Some
                    &&& old(self).b_side.channel_id is Some
                },
                Err(e) => is_retry_exhaustion(e),
            },
            old(self).a_side.channel_id is None ==> fails_at_once(
                r,
                ChannelError::MissingLocalChannelId,
                old(self).description("Failed to finish channel handshake"@),
            ),
            old(self).a_side.channel_id is Some && old(self).b_side.channel_id is None
                ==> fails_at_once(
                r,
                ChannelError::MissingCounterpartyConnection,
                old(self).description("Failed to finish channel handshake"@),
            ),
    {
        match self.run_phase(HandshakePhase::Finalize, "Failed to finish channel handshake") {
            Ok(Some(outcome)) => Ok(outcome),
            Ok(None) => vstd::pervasive::unreached(),
            Err(e) => Err(e),
        }
    }

    /// Whether `end` is a channel end with which another relayer has begun
    /// the handshake that this driver is for: it is in `Init`, on the port
    /// and over the connection of side `a`, with the ordering of the driver
    /// and, where the driver holds one, its version; and it names the port of
    /// side `b`, and no channel yet, as its other end.
    pub open spec fn is_begun_by_other(&self, end: IdentifiedChannelEnd) -> bool {
        &&& end.channel_end.state == State::Init
        &&& end.port_id@ == self.a_side.port_id@
        &&& end.channel_end.ordering == self.ordering
        &&& end.channel_end.remote.port_id@ == self.b_side.port_id@
        &&& end.channel_end.remote.channel_id is None
        &&& end.channel_end.connection_hops@.len() == 1
        &&& end.channel_end.connection_hops@[0]@ == self.a_side.connection_id@
        &&& self.version matches Some(held) ==> end.channel_end.version@ == held@
    }

    /// Whether `found` is the name of the first of `channels` that another
    /// relayer has begun; nothing where none of them is.
    pub open spec fn is_first_begun(
        &self,
        channels: Seq<IdentifiedChannelEnd>,
        found: Option<ChannelId>,
    ) -> bool {
        match found {
            Some(id) => exists|i: int|
                {
                    &&& 0 <= i < channels.len()
                    &&& self.is_begun_by_other(#[trigger] channels[i])
                    &&& channels[i].channel_id == id
                    &&& forall|j: int| 0 <= j < i ==> !self.is_begun_by_other(#[trigger] channels[j])
                },
            None => forall|j: int|
                0 <= j < channels.len() ==> !self.is_begun_by_other(#[trigger] channels[j]),
        }
    }

    /// The first of `channels` that another relayer has begun, if there is
    /// one: see `is_begun_by_other`.
    pub fn find_begun(&self, channels: &Vec<IdentifiedChannelEnd>) -> (r: Option<ChannelId>)
        ensures
            self.is_first_begun(channels@, r),
    {
        let mut i: usize = 0;
        while i < channels.len()
            invariant
                i <= channels.len(),
                forall|j: int| 0 <= j < i ==> !self.is_begun_by_other(#[trigger] channels@[j]),
            decreases channels.len() - i,
        {
            let end = &channels[i].channel_end;
            let fits_version = match &self.version {
                Some(held) => end.version == *held,
                None => true,
            };
            if fits_version && end.state_matches(State::Init) && channels[i].port_id
                == self.a_side.port_id && end.ordering == self.ordering && end.remote.port_id
                == self.b_side.port_id && end.remote.channel_id.is_none()
                && end.connection_hops.len() == 1 && end.connection_hops[0]
                == self.a_side.connection_id {
                return Some(channels[i].channel_id.clone());
            }
            i = i + 1;
        }
        None
    }

    /// Whether `after` and `adopted` are what `answer`, the channels that
    /// the chain of side `a` gave for the connection of side `a`, makes of
    /// this driver: `after` holds for side `a` the first of them that
    /// another relayer has begun, and `adopted` says that there is one;
    /// where there is none, or the chain did not answer, the driver is as it
    /// was.
    pub open spec fn is_adopted_from(
        &self,
        answer: Result<Vec<IdentifiedChannelEnd>, RelayerError>,
        after: &Self,
        adopted: bool,
    ) -> bool {
        match answer {
            Ok(channels) => exists|found: Option<ChannelId>|
                {
                    &&& #[trigger] self.is_first_begun(channels@, found)
                    &&& adopted == found is Some
                    &&& after.a_side.channel_id == if adopted {
                        found
                    } else {
                        self.a_side.channel_id
                    }
                },
            Err(_) => !adopted && after.a_side.channel_id == self.a_side.channel_id,
        }
    }

    /// Whether `after` and `adopted` are what comes of looking on side `a`
    /// for a channel that another relayer has begun: the chain of side `a`
    /// was asked for all channels of the connection of side `a`, and its
    /// answer was read as `is_adopted_from` says.
    pub open spec fn is_adoption(&self, after: &Self, adopted: bool) -> bool {
        &&& self.same_ends(after)
        &&& after.b_side.channel_id == self.b_side.channel_id
        &&& exists|
            request: QueryConnectionChannelsRequest,
            answer: Result<Vec<IdentifiedChannelEnd>, RelayerError>,
        |
            {
                &&& asks_for_channels_of(request, self.a_side.connection_id)
                &&& #[trigger] call_ensures(
                    ChainA::query_connection_channels,
                    (&self.a_side.chain, request),
                    answer,
                )
                &&& self.is_adopted_from(answer, after, adopted)
            }
    }

    /// Looks on side `a` for a channel that another relayer has begun, and
    /// takes the first as the channel of side `a`. The answer says whether
    /// one was taken.
    pub fn adopt_begun_channel(&mut self) -> (r: bool)
        ensures
            old(self).is_adoption(final(self), r),
    {
        let request = QueryConnectionChannelsRequest {
            connection_id: self.a_side.connection_id.clone(),
            pagination: Some(PageRequest::all()),
        };
        let ghost asked = request;
        let answer = self.a_side.chain.query_connection_channels(request);
        let ghost answered = answer;
        proof {
            assert(asks_for_channels_of(asked, self.a_side.connection_id));
            assert(call_ensures(
                ChainA::query_connection_channels,
                (&self.a_side.chain, asked),
                answered,
            ));
        }
        let found = match answer {
            Ok(channels) => self.find_begun(&channels),
            Err(_) => None,
        };
        match found {
            Some(id) => {
                assert(old(self).is_first_begun(answered->Ok_0@, Some(id)));
                self.a_side.channel_id = Some(id);
                assert(old(self).is_adopted_from(answered, self, true));
                true
            },
            None => {
                proof {
                    if answered is Ok {
                        assert(old(self).is_first_begun(answered->Ok_0@, None));
                    }
                    assert(old(self).is_adopted_from(answered, self, false));
                }
                false
            },
        }
    }

    /// Whether `after` and `outcome` are what a handshake that went through
    /// makes of this driver, with `begun` as the driver once side `a` was
    /// looked at for a channel begun by another relayer, and `held` as the
    /// driver once it holds a channel for side `a`. A driver that holds no
    /// channel for side `a` looks for one, see `is_adoption`. Where it then
    /// holds one, it goes on with it; else `Init` went through and named the
    /// channel of side `a`. Then `Try` went through and named the channel of
    /// side `b`, and the end of the handshake went through: see
    /// `went_through` and `is_finalized`.
    pub open spec fn is_opened_through(
        &self,
        begun: &Self,
        held: &Self,
        after: &Self,
        outcome: FinalizeOutcome,
    ) -> bool {
        &&& if self.a_side.channel_id is None {
            self.is_adoption(begun, begun.a_side.channel_id is Some)
        } else {
            *begun == *self
        }
        &&& if self.a_side.channel_id is None && begun.a_side.channel_id is Some {
            *held == *begun
        } else {
            begun.went_through(HandshakePhase::Init, held, None)
        }
        &&& held.went_through(HandshakePhase::Try, after, None)
        &&& after.is_finalized(outcome)
    }

    /// Whether `after` and `outcome` are what a handshake that went through
    /// makes of this driver: see `is_opened_through`.
    pub open spec fn is_opened(&self, after: &Self, outcome: FinalizeOutcome) -> bool {
        exists|begun: Self, held: Self| #[trigger]
            self.is_opened_through(&begun, &held, after, outcome)
    }

    /// The opening handshake: `Init` on side `a`, `Try` on side `b`, then
    /// what is left to open both ends.
    ///
    /// A driver that holds no channel for side `a` first looks there for a
    /// channel that another relayer has begun: see `adopt_begun_channel`.
    /// Where it finds one it goes on with that channel, and sends no `Init`
    /// of its own.
    ///
    /// On success the driver holds both channels, and the account says what
    /// was submitted at the end and in which states the ends were last
    /// found.
    pub fn handshake(&mut self) -> (r: Result<FinalizeOutcome, ChannelError>)
        ensures
            old(self).same_ends(final(self)),
            match r {
                Ok(outcome) => {
                    &&& outcome.wf()
                    &&& final(self).is_finalized(outcome)
                    &&& final(self).a_side.channel_id is Some
                    &&& final(self).b_side.channel_id is Some
                    &&& old(self).is_opened(final(self), outcome)
                },
                Err(e) => is_retry_exhaustion(e),
            },
            old(self).a_side.channel_id is None ==> exists|begun: Self|
                {
                    &&& #[trigger] old(self).is_adoption(&begun, begun.a_side.channel_id is Some)
                    &&& begun.a_side.channel_id is Some ==> final(self).a_side.channel_id
                        == begun.a_side.channel_id
                },
    {
        let adopted = if self.a_side.channel_id.is_none() {
            self.adopt_begun_channel()
        } else {
            false
        };
        let ghost begun = *self;
        proof {
            if old(self).a_side.channel_id is None {
                assert(old(self).is_adoption(&begun, begun.a_side.channel_id is Some));
            }
        }
        if !adopted {
            match self.do_chan_open_init_and_send_with_retry() {
                Ok(_) => {},
                Err(e) => {
                    return Err(e);
                },
            }
        }
        let ghost held = *self;
        match self.do_chan_open_try_and_send_with_retry() {
            Ok(_) => {},
            Err(e) => {
                return Err(e);
            },
        }
        let ghost named = *self;
        let r = self.do_chan_open_finalize_with_retry();
        proof {
            if r is Ok {
                let outcome = r->Ok_0;
                assert(named.is_finalized(outcome));
                assert(self.is_finalized(outcome));
                assert(old(self).is_opened_through(&begun, &held, self, outcome));
            }
        }
        r
    }
}

impl<ChainA: ChainHandle, ChainB: ChainHandle> Channel<ChainA, ChainB> {
    /// Opens a channel on top of `connection`, between `a_port` on its
    /// source and `b_port` on its destination.
    ///
    /// The destination is asked for the version of `b_port`, which is the
    /// channel's version where none is given. Both ends of the connection
    /// must have a name: `MissingLocalConnection` otherwise. Then the
    /// handshake runs. On success the driver holds both channels.
    pub fn new(
        connection: Connection<ChainA, ChainB>,
        ordering: Order,
        a_port: PortId,
        b_port: PortId,
        version: Option<String>,
    ) -> (r: Result<Self, ChannelError>)
        ensures
            match r {
                Ok(channel) => {
                    &&& channel.ordering == ordering
                    &&& channel.connection_delay == connection.delay_period
                    &&& channel.a_side.port_id == a_port
                    &&& channel.b_side.port_id == b_port
                    &&& channel.a_side.client_id == connection.a_side.client_id
                    &&& channel.b_side.client_id == connection.b_side.client_id
                    &&& connection.a_side.connection_id == Some(channel.a_side.connection_id)
                    &&& connection.b_side.connection_id == Some(channel.b_side.connection_id)
                    &&& channel.a_side.chain == connection.a_side.chain
                    &&& channel.b_side.chain == connection.b_side.chain
                    &&& channel.a_side.channel_id is Some
                    &&& channel.b_side.channel_id is Some
                    &&& channel.version is Some
                    &&& version is Some ==> channel.version == version
                    &&& version is None ==> exists|given: String| #[trigger]
                        call_ensures(
                            ChainB::module_version,
                            (&connection.b_side.chain, &b_port),
                            Ok(given),
                        ) && channel.version == Some(given)
                    &&& exists|outcome: FinalizeOutcome| #[trigger] channel.is_finalized(outcome)
                    &&& exists|start: Self, outcome: FinalizeOutcome|
                        {
                            &&& #[trigger] start.is_opened(&channel, outcome)
                            &&& start.same_ends(&channel)
                            &&& start.a_side.channel_id is None
                            &&& start.b_side.channel_id is None
                        }
                },
                Err(e) => {
                    &&& e is Query || e is MissingLocalConnection || is_retry_exhaustion(e)
                    &&& e is MissingLocalConnection ==> connection.a_side.connection_id is None
                        || connection.b_side.connection_id is None
                    &&& e matches ChannelError::Query(_, cause) ==> call_ensures(
                        ChainB::module_version,
                        (&connection.b_side.chain, &b_port),
                        Err(cause),
                    )
                },
            },
            connection.a_side.connection_id is None || connection.b_side.connection_id is None
                ==> r is Err && (r->Err_0 is Query || r->Err_0 is MissingLocalConnection),
    {
        let Connection { delay_period, a_side, b_side } = connection;
        let given = match b_side.chain.module_version(&b_port) {
            Ok(version) => version,
            Err(e) => {
                return Err(ChannelError::Query(b_side.chain.id(), e));
            },
        };
        let version = match version {
            Some(version) => version,
            None => given,
        };
        let src_connection_id = match a_side.connection_id {
            Some(id) => id,
            None => {
                return Err(ChannelError::MissingLocalConnection(a_side.chain.id()));
            },
        };
        let dst_connection_id = match b_side.connection_id {
            Some(id) => id,
            None => {
                return Err(ChannelError::MissingLocalConnection(b_side.chain.id()));
            },
        };
        let mut channel = Channel {
            ordering,
            a_side: ChannelSide::new(a_side.chain, a_side.client_id, src_connection_id, a_port, None),
            b_side: ChannelSide::new(b_side.chain, b_side.client_id, dst_connection_id, b_port, None),
            connection_delay: delay_period,
            version: Some(version),
        };
        let ghost start = channel;
        match channel.handshake() {
            Ok(outcome) => {
                assert(channel.is_finalized(outcome));
                assert(start.is_opened(&channel, outcome));
                Ok(channel)
            },
            Err(e) => Err(e),
        }
    }

    /// The driver of the handshake that `channel_open_event`, seen on
    /// `chain`, belongs to.
    ///
    /// The event gives the ports, the channels and the connection on
    /// `chain`; that connection, queried on `chain`, gives the clients and
    /// the connection on the other chain. The ordering is the default one,
    /// and the version is the one that the other chain gives for its port.
    ///
    /// Fails with `InvalidEvent` exactly where the event is none of the
    /// channel handshake.
    pub fn restore_from_event(
        chain: ChainA,
        counterparty_chain: ChainB,
        channel_open_event: IbcEvent,
    ) -> (r: Result<Channel<ChainA, ChainB>, ChannelError>)
        ensures
            channel_open_event.spec_channel_attributes() is None <==> r matches Err(
                ChannelError::InvalidEvent(_),
            ),
            match r {
                Ok(channel) => {
                    &&& channel_open_event.spec_channel_attributes() matches Some(a)
                    &&& channel.ordering == Order::Unordered
                    &&& channel.a_side.chain == chain
                    &&& channel.a_side.connection_id == a.connection_id
                    &&& channel.a_side.port_id == a.port_id
                    &&& channel.a_side.channel_id == a.channel_id
                    &&& channel.b_side.chain == counterparty_chain
                    &&& channel.b_side.port_id == a.counterparty_port_id
                    &&& channel.b_side.channel_id == a.counterparty_channel_id
                    &&& exists|connection: ConnectionEnd|
                        {
                            &&& #[trigger] answers_connection(&chain, a.connection_id, connection)
                            &&& channel.a_side.client_id == connection.client_id
                            &&& channel.b_side.client_id == connection.counterparty.client_id
                            &&& connection.counterparty.connection_id == Some(
                                channel.b_side.connection_id,
                            )
                            &&& channel.connection_delay == connection.delay_period
                        }
                    &&& exists|version: String|
                        {
                            &&& #[trigger] call_ensures(
                                ChainB::module_version,
                                (&counterparty_chain, &a.counterparty_port_id),
                                Ok(version),
                            )
                            &&& channel.version == Some(version)
                        }
                },
                Err(e) => {
                    &&& e is InvalidEvent || e is Relayer || e is MissingCounterpartyConnection
                        || e is Query
                    &&& e matches ChannelError::InvalidEvent(event) ==> event == channel_open_event
                    &&& e matches ChannelError::Relayer(cause) ==> call_ensures(
                        ChainA::query_connection,
                        (
                            &chain,
                            &channel_open_event.spec_channel_attributes()->0.connection_id,
                            Height::zero(),
                        ),
                        Err(cause),
                    )
                    &&& e is MissingCounterpartyConnection ==> exists|connection: ConnectionEnd|
                        {
                            &&& #[trigger] answers_connection(
                                &chain,
                                channel_open_event.spec_channel_attributes()->0.connection_id,
                                connection,
                            )
                            &&& connection.counterparty.connection_id is None
                        }
                    &&& e matches ChannelError::Query(name, cause) ==> {
                        &&& call_ensures(ChainB::id, (&counterparty_chain,), name)
                        &&& call_ensures(
                            ChainB::module_version,
                            (
                                &counterparty_chain,
                                &channel_open_event.spec_channel_attributes()->0.counterparty_port_id,
                            ),
                            Err(cause),
                        )
                    }
                },
            },
    {
        let attributes = match channel_open_event.channel_attributes() {
            Some(attributes) => attributes.clone(),
            None => {
                return Err(ChannelError::InvalidEvent(channel_open_event));
            },
        };
        let connection = match chain.query_connection(&attributes.connection_id, Height::zero()) {
            Ok(end) => end,
            Err(e) => {
                return Err(ChannelError::Relayer(e));
            },
        };
        assert(answers_connection(&chain, attributes.connection_id, connection));
        let counterparty_connection_id = match connection.counterparty.connection_id {
            Some(id) => id,
            None => {
                return Err(ChannelError::MissingCounterpartyConnection);
            },
        };
        let version = match counterparty_chain.module_version(&attributes.counterparty_port_id) {
            Ok(version) => version,
            Err(e) => {
                return Err(ChannelError::Query(counterparty_chain.id(), e));
            },
        };
        Ok(
            Channel {
                ordering: Order::default(),
                a_side: ChannelSide::new(
                    chain,
                    connection.client_id,
                    attributes.connection_id,
                    attributes.port_id,
                    attributes.channel_id,
                ),
                b_side: ChannelSide::new(
                    counterparty_chain,
                    connection.counterparty.client_id,
                    counterparty_connection_id,
                    attributes.counterparty_port_id,
                    attributes.counterparty_channel_id,
                ),
                connection_delay: connection.delay_period,
                version: Some(version),
            },
        )
    }

    /// The driver of the handshake of the channel end `channel`, as `chain`
    /// holds it at `height`, with the state of that end.
    ///
    /// The end gives the ordering, the version, its connection and what it
    /// names as its other end; the connection, queried on `chain`, gives the
    /// clients and the connection on the other chain. Where the end is in
    /// `Init` and names no channel as its other end, the channel of side `b`
    /// is that of the first channel on the other chain's connection that
    /// names `channel` as its other end, if there is one.
    ///
    /// Fails with `MissingConnectionHops` where the end names no connection,
    /// with `ChannelConnectionUninitialized` where its connection names none
    /// on the other chain, and with the chain's failure where a chain does
    /// not answer.
    pub fn restore_from_state(
        chain: ChainA,
        counterparty_chain: ChainB,
        channel: WorkerChannelObject,
        height: Height,
    ) -> (r: Result<(Channel<ChainA, ChainB>, State), ChannelError>)
        ensures
            match r {
                Ok((restored, state)) => {
                    &&& restored.a_side.chain == chain
                    &&& restored.a_side.port_id == channel.src_port_id
                    &&& restored.a_side.channel_id == Some(channel.src_channel_id)
                    &&& restored.b_side.chain == counterparty_chain
                    &&& exists|end: ChannelEnd, connection: ConnectionEnd|
                        {
                            &&& #[trigger] is_end_with_connection(
                                &chain,
                                channel,
                                height,
                                end,
                                connection,
                            )
                            &&& restored.is_restored_from(end, connection, state)
                        }
                },
                Err(e) => {
                    &&& e is Relayer || e is Supervisor
                    &&& e matches ChannelError::Supervisor(cause) ==> {
                        &&& cause is MissingConnectionHops || cause is ChannelConnectionUninitialized
                        &&& cause matches SupervisorError::MissingConnectionHops(id, name) ==> {
                            &&& id == channel.src_channel_id
                            &&& call_ensures(ChainA::id, (&chain,), name)
                            &&& exists|end: ChannelEnd| #[trigger]
                                is_end_at(&chain, channel, height, end)
                                    && end.connection_hops@.len() == 0
                        }
                        &&& cause matches SupervisorError::ChannelConnectionUninitialized(
                            id,
                            name,
                            client,
                        ) ==> {
                            &&& id == channel.src_channel_id
                            &&& call_ensures(ChainA::id, (&chain,), name)
                            &&& exists|end: ChannelEnd, connection: ConnectionEnd|
                                {
                                    &&& #[trigger] is_end_with_connection(
                                        &chain,
                                        channel,
                                        height,
                                        end,
                                        connection,
                                    )
                                    &&& connection.counterparty.connection_id is None
                                    &&& connection.counterparty.client_id == client
                                }
                        }
                    }
                },
            },
    {
        let a_channel = match chain.query_channel(
            &channel.src_port_id,
            &channel.src_channel_id,
            height,
        ) {
            Ok(end) => end,
            Err(e) => {
                return Err(ChannelError::Relayer(e));
            },
        };
        let ghost end = a_channel;
        assert(is_end_at(&chain, channel, height, end));
        if a_channel.connection_hops.len() == 0 {
            return Err(
                ChannelError::Supervisor(
                    SupervisorError::MissingConnectionHops(channel.src_channel_id, chain.id()),
                ),
            );
        }
        let a_connection_id = a_channel.connection_hops[0].clone();
        let a_connection = match chain.query_connection(&a_connection_id, Height::zero()) {
            Ok(end) => end,
            Err(e) => {
                return Err(ChannelError::Relayer(e));
            },
        };
        let ghost connection = a_connection;
        assert(is_end_with_connection(&chain, channel, height, end, connection));
        let b_connection_id = match a_connection.counterparty.connection_id {
            Some(id) => id,
            None => {
                return Err(
                    ChannelError::Supervisor(
                        SupervisorError::ChannelConnectionUninitialized(
                            channel.src_channel_id,
                            chain.id(),
                            a_connection.counterparty.client_id,
                        ),
                    ),
                );
            },
        };
        let state = a_channel.state;
        let search = a_channel.state_matches(State::Init) && a_channel.remote.channel_id.is_none();
        let mut b_channel_id = a_channel.remote.channel_id;
        let ghost mut searched: Option<(QueryConnectionChannelsRequest, Vec<IdentifiedChannelEnd>)> =
            None;
        if search {
            let request = QueryConnectionChannelsRequest {
                connection_id: b_connection_id.clone(),
                pagination: Some(PageRequest::all()),
            };
            let ghost asked = request;
            let b_channels = match counterparty_chain.query_connection_channels(request) {
                Ok(channels) => channels,
                Err(e) => {
                    return Err(ChannelError::Relayer(e));
                },
            };
            b_channel_id = find_counterparty_channel(&b_channels, &channel.src_channel_id);
            proof {
                searched = Some((asked, b_channels));
                assert(asks_for_channels_of(asked, b_connection_id));
                assert(is_searched_on(
                    &counterparty_chain,
                    asked,
                    b_channels,
                    channel.src_channel_id@,
                    b_channel_id,
                ));
            }
        }
        let handshake_channel = Channel {
            ordering: a_channel.ordering,
            a_side: ChannelSide::new(
                chain,
                a_connection.client_id,
                a_connection_id,
                channel.src_port_id,
                Some(channel.src_channel_id),
            ),
            b_side: ChannelSide::new(
                counterparty_chain,
                a_connection.counterparty.client_id,
                b_connection_id,
                a_channel.remote.port_id,
                b_channel_id,
            ),
            connection_delay: a_connection.delay_period,
            version: Some(a_channel.version),
        };
        proof {
            if search {
                let (request, channels) = searched->0;
                assert(is_searched_on(
                    &handshake_channel.b_side.chain,
                    request,
                    channels,
                    handshake_channel.a_side.channel_id->0@,
                    handshake_channel.b_side.channel_id,
                ));
            }
            assert(handshake_channel.is_restored_from(end, connection, state));
        }
        Ok((handshake_channel, state))
    }

    /// Whether this driver and `state` are what the end `end` of a channel
    /// and the connection `connection` under it give: the state, the
    /// ordering and the version of the end; the clients, the connections and
    /// the delay of the connection; the port that the end names as its other
    /// end. The channel of side `b` is the one that the end names; where the
    /// end is in `Init` and names none, it is the one found among the
    /// channels that the chain of side `b` answered for its connection: see
    /// `is_searched_on`.
    pub open spec fn is_restored_from(
        &self,
        end: ChannelEnd,
        connection: ConnectionEnd,
        state: State,
    ) -> bool {
        &&& state == end.state
        &&& self.ordering == end.ordering
        &&& self.version == Some(end.version)
        &&& end.connection_hops@.len() > 0
        &&& self.a_side.connection_id == end.connection_hops@[0]
        &&& self.a_side.client_id == connection.client_id
        &&& self.b_side.client_id == connection.counterparty.client_id
        &&& connection.counterparty.connection_id == Some(self.b_side.connection_id)
        &&& self.b_side.port_id == end.remote.port_id
        &&& self.connection_delay == connection.delay_period
        &&& self.a_side.channel_id is Some
        &&& if end.state == State::Init && end.remote.channel_id is None {
            exists|request: QueryConnectionChannelsRequest, channels: Vec<IdentifiedChannelEnd>|
                {
                    &&& asks_for_channels_of(request, self.b_side.connection_id)
                    &&& #[trigger] is_searched_on(
                        &self.b_side.chain,
                        request,
                        channels,
                        self.a_side.channel_id->0@,
                        self.b_side.channel_id,
                    )
                }
        } else {
            self.b_side.channel_id == end.remote.channel_id
        }
    }

    /// The state of the channel end on the destination, resolved from the
    /// end on the source.
    pub fn counterparty_state(&self) -> (r: Result<State, ChannelError>)
        ensures
            self.a_side.channel_id is None <==> r matches Err(ChannelError::MissingLocalChannelId),
            match r {
                Ok(state) => self.is_counterparty_state(state),
                Err(e) => {
                    &&& e is MissingLocalChannelId || e is QueryChannel
                    &&& e matches ChannelError::QueryChannel(id, _) ==> self.a_side.channel_id
                        == Some(id)
                },
            },
    {
        let channel_id = match &self.a_side.channel_id {
            Some(id) => id,
            None => {
                return Err(ChannelError::MissingLocalChannelId);
            },
        };
        let found = match channel_connection_client(
            &self.a_side.chain,
            &self.a_side.port_id,
            channel_id,
        ) {
            Ok(found) => found,
            Err(e) => {
                return Err(ChannelError::QueryChannel(channel_id.clone(), e));
            },
        };
        assert(is_resolved(
            &self.a_side.chain,
            &self.a_side.port_id,
            &self.a_side.channel_id->0,
            found,
        ));
        match channel_state_on_destination(&found.channel, &found.connection, &self.b_side.chain) {
            Ok(state) => Ok(state),
            Err(e) => Err(ChannelError::QueryChannel(channel_id.clone(), e)),
        }
    }

    /// Whether `state` is the state of the channel end on the destination as
    /// it is resolved from the source: the source answered for the channel
    /// that the driver holds for it, for its connection and its client, and
    /// the destination for the other end, as `is_state_on_destination`
    /// says.
    pub open spec fn is_counterparty_state(&self, state: State) -> bool {
        &&& self.a_side.channel_id is Some
        &&& exists|found: ChannelConnectionClient|
            {
                &&& #[trigger] is_resolved(
                    &self.a_side.chain,
                    &self.a_side.port_id,
                    &self.a_side.channel_id->0,
                    found,
                )
                &&& is_state_on_destination(
                    found.channel,
                    found.connection,
                    &self.b_side.chain,
                    Ok(state),
                )
            }
    }

    /// Whether `events` are what a step from `state` leaves where the end
    /// on the destination is in `other`: the event with which the
    /// destination answered the message that comes next, see
    /// `spec_next_step`, or nothing where nothing comes next.
    pub open spec fn is_stepped(&self, state: State, other: State, events: Seq<IbcEvent>) -> bool {
        match spec_next_step(state, other) {
            Some(ChannelMsgType::OpenTry) => events.len() == 1 && self.is_submitted(
                HandshakeStep::OpenTry,
                Ok(events[0]),
            ),
            Some(ChannelMsgType::OpenAck) => events.len() == 1 && self.is_submitted(
                HandshakeStep::OpenAck,
                Ok(events[0]),
            ),
            Some(ChannelMsgType::OpenConfirm) => events.len() == 1 && self.is_submitted(
                HandshakeStep::OpenConfirm,
                Ok(events[0]),
            ),
            _ => events.len() == 0,
        }
    }

    /// Whether `r` is what comes of a step from `state`: see
    /// `handshake_step`.
    pub open spec fn is_step_from(&self, state: State, r: Result<Vec<IbcEvent>, ChannelError>) -> bool {
        &&& self.a_side.channel_id is None ==> r == Err::<Vec<IbcEvent>, ChannelError>(
            ChannelError::MissingLocalChannelId,
        )
        &&& match r {
            Ok(events) => exists|other: State| #[trigger]
                self.is_counterparty_state(other) && self.is_stepped(state, other, events@),
            Err(e) => e is MissingLocalChannelId ==> self.a_side.channel_id is None,
        }
    }

    /// Submits what comes next for a channel whose end on the source is in
    /// `state`: see `spec_next_step`. The answer holds the event of the
    /// submission, or nothing where nothing was to submit.
    pub fn handshake_step(&mut self, state: State) -> (r: Result<Vec<IbcEvent>, ChannelError>)
        ensures
            *final(self) == *old(self),
            old(self).a_side.channel_id is None ==> r matches Err(
                ChannelError::MissingLocalChannelId,
            ),
            old(self).is_step_from(state, r),
            r matches Ok(events) ==> events@.len() <= 1 && forall|i: int|
                0 <= i < events@.len() ==> {
                    ||| #[trigger] events@[i] is OpenTryChannel && state == State::Init
                    ||| events@[i] is OpenAckChannel && state == State::TryOpen
                    ||| events@[i] is OpenConfirmChannel && state == State::Open
                },
    {
        let counterparty_state = match self.counterparty_state() {
            Ok(state) => state,
            Err(e) => {
                return Err(e);
            },
        };
        let sent = match next_step(state, counterparty_state) {
            Some(ChannelMsgType::OpenTry) => self.build_chan_open_try_and_send(),
            Some(ChannelMsgType::OpenAck) => self.build_chan_open_ack_and_send(),
            Some(ChannelMsgType::OpenConfirm) => self.build_chan_open_confirm_and_send(),
            _ => {
                return Ok(Vec::new());
            },
        };
        match sent {
            Ok(event) => Ok(vec![event]),
            Err(e) => Err(e),
        }
    }

    /// One try of `handshake_step`: done where it went through, to be tried
    /// again, with `index` handed back, where it failed.
    pub fn step_state(&mut self, state: State, index: u64) -> (r: RetryResult<(), u64>)
        ensures
            *final(self) == *old(self),
            r is Done || r == RetryResult::<(), u64>::Retry(index),
            old(self).a_side.channel_id is None ==> r == RetryResult::<(), u64>::Retry(index),
            exists|stepped: Result<Vec<IbcEvent>, ChannelError>| #[trigger]
                old(self).is_step_from(state, stepped) && (r is Done <==> stepped is Ok),
    {
        let stepped = self.handshake_step(state);
        assert(old(self).is_step_from(state, stepped));
        match stepped {
            Err(_) => RetryResult::Retry(index),
            Ok(_) => RetryResult::Done(()),
        }
    }

    /// One try of the step that follows `event`, seen on the source: the
    /// state that the event leaves the source's end in decides.
    pub fn step_event(&mut self, event: IbcEvent, index: u64) -> (r: RetryResult<(), u64>)
        ensures
            *final(self) == *old(self),
            r is Done || r == RetryResult::<(), u64>::Retry(index),
            old(self).a_side.channel_id is None ==> r == RetryResult::<(), u64>::Retry(index),
            exists|stepped: Result<Vec<IbcEvent>, ChannelError>| #[trigger]
                old(self).is_step_from(spec_state_after(event), stepped) && (r is Done
                    <==> stepped is Ok),
    {
        let state = state_after(&event);
        self.step_state(state, index)
    }
}

} // verus!
