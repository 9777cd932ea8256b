//! The Bulk-Only Transport session: a command wrapper in, its execution, a status wrapper out.

use vstd::prelude::*;
use crate::storage::block::BlockStorage;
use crate::usb::bot::{self, BotControl, Cbw, Csw, DataEndpoint, EndpointError};
use crate::usb::commands::{self, CommandOutcome, StallAfterCsw};
use crate::usb::constants::{
    BOT_ACTION_STALL_IN, BOT_ACTION_STALL_OUT, BOT_EVENT_BULK_RESET, CBW_READ_TIMEOUT_MS, CSW_STATUS_FAILED,
    CSW_STATUS_PASSED, CSW_STATUS_PHASE_ERROR, USB_PACKET_SIZE,
};
use crate::usb::sense::{self, SenseData};

verus! {

/// Where a session stands.
#[derive(Copy, Clone, Debug)]
pub enum BotState {
    WaitingForCbw,
    Executing(Cbw),
    SendingCsw { csw: Csw, stall_before_csw: StallAfterCsw, stall_after_csw: StallAfterCsw },
}

/// Whether a step leaves the session going.
#[derive(Copy, Clone, Debug, PartialEq, Eq, Structural)]
pub enum SessionStep {
    /// The next step is due.
    Continue,
    /// An endpoint failed: the session starts anew once the endpoints are enabled again.
    Ended,
}

/// The state of the data path: where the session stands, and what outlives it.
#[derive(Copy, Clone, Debug)]
pub struct BotSession {
    pub state: BotState,
    pub sense: SenseData,
    pub prevent_medium_removal: bool,
}

/// The state after a command wrapper: one that is not valid is answered with a phase error, which
/// stalls both endpoints.
pub open spec fn state_after_cbw(cbw: Cbw) -> BotState {
    if cbw.valid() {
        BotState::Executing(cbw)
    } else {
        BotState::SendingCsw {
            csw: Csw {
                tag: cbw.tag,
                residue: cbw.data_transfer_length,
                status: CSW_STATUS_PHASE_ERROR,
            },
            stall_before_csw: StallAfterCsw::NoStall,
            stall_after_csw: StallAfterCsw::Both,
        }
    }
}

/// The state after a command that ended with `outcome`.
pub open spec fn state_after_command(outcome: CommandOutcome) -> BotState {
    BotState::SendingCsw {
        csw: outcome.csw,
        stall_before_csw: outcome.stall_before_csw,
        stall_after_csw: outcome.stall_after_csw,
    }
}

/// The action bits of a stall.
pub open spec fn mask_of(stall: StallAfterCsw) -> u8 {
    match stall {
        StallAfterCsw::NoStall => 0,
        StallAfterCsw::In => BOT_ACTION_STALL_IN,
        StallAfterCsw::Out => BOT_ACTION_STALL_OUT,
        StallAfterCsw::Both => 0x03,
    }
}

/// The control state once a stall was requested.
pub open spec fn with_stall(control: BotControl, stall: StallAfterCsw) -> BotControl {
    BotControl { bus_actions: control.bus_actions | mask_of(stall), ..control }
}

pub fn stall_mask(stall: StallAfterCsw) -> (mask: u8)
    ensures
        mask == mask_of(stall),
{
    match stall {
        StallAfterCsw::NoStall => 0,
        StallAfterCsw::In => BOT_ACTION_STALL_IN,
        StallAfterCsw::Out => BOT_ACTION_STALL_OUT,
        StallAfterCsw::Both => {
            assert(1u8 | 2u8 == 3u8) by (bit_vector);
            BOT_ACTION_STALL_IN | BOT_ACTION_STALL_OUT
        },
    }
}

/// Requests the stalls of the endpoints that `stall_after_csw` names.
pub fn request_stall_after_csw(bot_control: &mut BotControl, stall_after_csw: StallAfterCsw)
    ensures
        *final(bot_control) == with_stall(*old(bot_control), stall_after_csw),
{
    let ghost actions = bot_control.bus_actions;
    proof {
        assert(actions | 0u8 == actions) by (bit_vector);
        assert((actions | 1u8) | 2u8 == actions | 3u8) by (bit_vector);
    }
    match stall_after_csw {
        StallAfterCsw::NoStall => {},
        StallAfterCsw::In => bot_control.request_stall_in(),
        StallAfterCsw::Out => bot_control.request_stall_out(),
        StallAfterCsw::Both => {
            bot_control.request_stall_in();
            bot_control.request_stall_out();
        },
    }
}

/// The wait for the control path to apply the stalls that were requested.
#[derive(Copy, Clone, Debug, PartialEq, Eq, Structural)]
pub struct StallAckWait {
    pub expected_mask: u8,
    pub seen: u8,
}

impl StallAckWait {
    pub fn new(stall: StallAfterCsw) -> (wait: Self)
        ensures
            wait == (StallAckWait { expected_mask: mask_of(stall), seen: 0 }),
    {
        StallAckWait { expected_mask: stall_mask(stall), seen: 0 }
    }

    /// Takes note of acknowledgements, and tells whether all that are waited for have come.
    pub fn note(&mut self, acks: u8) -> (done: bool)
        ensures
            *final(self) == (StallAckWait {
                seen: old(self).seen | (acks & old(self).expected_mask),
                ..*old(self)
            }),
            done == (final(self).seen == old(self).expected_mask),
    {
        self.seen = self.seen | (acks & self.expected_mask);
        self.seen == self.expected_mask
    }
}

/// A wait ends once every stall it waits for was acknowledged, in whatever portions, and not
/// before.
pub proof fn wait_ends_with_the_last_acknowledgement(expected_mask: u8, first: u8, second: u8)
    ensures
        ((0u8 | (first & expected_mask)) | (second & expected_mask)) == expected_mask <==> (first
            | second) & expected_mask == expected_mask,
{
    assert(((0u8 | (first & expected_mask)) | (second & expected_mask)) == (first | second)
        & expected_mask) by (bit_vector);
}

impl BotSession {
    /// The data path before its first session: nothing to report, and removal allowed.
    pub fn new() -> (session: Self)
        ensures
            session == (BotSession {
                state: BotState::WaitingForCbw,
                sense: sense::good_sense(),
                prevent_medium_removal: false,
            }),
    {
        BotSession {
            state: BotState::WaitingForCbw,
            sense: SenseData::good(),
            prevent_medium_removal: false,
        }
    }

    /// Starts a session, the endpoints having been enabled.
    pub fn restart(&mut self)
        ensures
            *final(self) == (BotSession { state: BotState::WaitingForCbw, ..*old(self) }),
    {
        self.state = BotState::WaitingForCbw;
    }

    /// Takes note of events. A bulk reset drops whatever was under way, and the sense data with it.
    pub fn handle_events(&mut self, events: u8) -> (reset: bool)
        ensures
            reset == (events & BOT_EVENT_BULK_RESET != 0),
            *final(self) == if reset {
                BotSession {
                    state: BotState::WaitingForCbw,
                    sense: sense::good_sense(),
                    ..*old(self)
                }
            } else {
                *old(self)
            },
    {
        if events & BOT_EVENT_BULK_RESET != 0 {
            self.state = BotState::WaitingForCbw;
            self.sense = SenseData::good();
            true
        } else {
            false
        }
    }

    /// Takes note of a command wrapper.
    pub fn cbw_received(&mut self, cbw: Cbw)
        ensures
            *final(self) == (BotSession { state: state_after_cbw(cbw), ..*old(self) }),
    {
        self.state = if !cbw.is_valid() {
            BotState::SendingCsw {
                csw: Csw {
                    tag: cbw.tag,
                    residue: cbw.data_transfer_length,
                    status: CSW_STATUS_PHASE_ERROR,
                },
                stall_before_csw: StallAfterCsw::NoStall,
                stall_after_csw: StallAfterCsw::Both,
            }
        } else {
            BotState::Executing(cbw)
        };
    }

    /// Takes note of the outcome of the command.
    pub fn command_finished(&mut self, outcome: CommandOutcome)
        ensures
            *final(self) == (BotSession { state: state_after_command(outcome), ..*old(self) }),
    {
        self.state = BotState::SendingCsw {
            csw: outcome.csw,
            stall_before_csw: outcome.stall_before_csw,
            stall_after_csw: outcome.stall_after_csw,
        };
    }

    /// Takes note that the status wrapper is on its way.
    pub fn csw_sent(&mut self)
        ensures
            *final(self) == (BotSession { state: BotState::WaitingForCbw, ..*old(self) }),
    {
        self.state = BotState::WaitingForCbw;
    }

    /// Makes one step of the session. The control path acknowledges stalls between steps, so a step
    /// looks for acknowledgements once and goes on, as after a wait in vain.
    pub fn step<OUT: DataEndpoint, IN: DataEndpoint, S: BlockStorage>(
        &mut self,
        storage: &mut S,
        out_ep: &mut OUT,
        in_ep: &mut IN,
        bot_control: &mut BotControl,
    ) -> (r: SessionStep)
        requires
            old(storage).wf(),
        ensures
            final(storage).wf(),
            final(storage).contents().len() == old(storage).contents().len(),
            final(storage).ready() == old(storage).ready(),
            final(storage).write_protected() == old(storage).write_protected(),
            old(storage).healthy() ==> final(storage).healthy(),
            old(out_ep).healthy() ==> final(out_ep).healthy(),
            old(in_ep).healthy() ==> final(in_ep).healthy(),
            stepped(
                (*old(self), *final(self)),
                (old(storage), final(storage)),
                (old(out_ep), final(out_ep)),
                (old(in_ep), final(in_ep)),
                (*old(bot_control), *final(bot_control)),
                r,
            ),
    {
        let events = bot_control.take_msc_events();
        if self.handle_events(events) {
            return SessionStep::Continue;
        }
        match self.state {
            BotState::WaitingForCbw => match bot::read_cbw(out_ep) {
                Ok(Some(cbw)) => {
                    self.cbw_received(cbw);
                    SessionStep::Continue
                },
                Ok(None) => SessionStep::Continue,
                Err(_) => SessionStep::Ended,
            },
            BotState::Executing(cbw) => {
                match commands::execute_command(
                    storage,
                    out_ep,
                    in_ep,
                    &mut self.sense,
                    &mut self.prevent_medium_removal,
                    cbw,
                ) {
                    Ok(outcome) => {
                        self.command_finished(outcome);
                        SessionStep::Continue
                    },
                    Err(_) => SessionStep::Ended,
                }
            },
            BotState::SendingCsw { csw, stall_before_csw, stall_after_csw } => {
                request_stall_after_csw(bot_control, stall_before_csw);
                if stall_before_csw != StallAfterCsw::NoStall {
                    let mut wait = StallAckWait::new(stall_before_csw);
                    let _ = wait.note(bot_control.take_bus_action_acks());
                }
                if bot::send_csw(in_ep, csw).is_err() {
                    return SessionStep::Ended;
                }
                request_stall_after_csw(bot_control, stall_after_csw);
                self.csw_sent();
                SessionStep::Continue
            },
        }
    }
}

/// What one step of a session did. Of everything it works on, the pairs hold what it was before
/// and what it is after.
pub open spec fn stepped<OUT: DataEndpoint, IN: DataEndpoint, S: BlockStorage>(
    session: (BotSession, BotSession),
    storage: (&S, &S),
    out_ep: (&OUT, &OUT),
    in_ep: (&IN, &IN),
    control: (BotControl, BotControl),
    r: SessionStep,
) -> bool {
    let taken = BotControl { msc_events: 0, ..control.0 };
    if control.0.msc_events & BOT_EVENT_BULK_RESET != 0 {
        &&& r == SessionStep::Continue
        &&& session.1 == BotSession {
            state: BotState::WaitingForCbw,
            sense: sense::good_sense(),
            ..session.0
        }
        &&& control.1 == taken
        &&& commands::untouched(storage.0, storage.1)
        &&& commands::unused(out_ep.0, out_ep.1)
        &&& commands::unused(in_ep.0, in_ep.1)
    } else {
        match session.0.state {
            BotState::WaitingForCbw => {
                &&& control.1 == taken
                &&& commands::untouched(storage.0, storage.1)
                &&& commands::unused(in_ep.0, in_ep.1)
                &&& waited(session.0, out_ep.0, session.1, out_ep.1, r)
            },
            BotState::Executing(cbw) => {
                &&& control.1 == taken
                &&& exists|outcome: Result<CommandOutcome, EndpointError>|
                    {
                        &&& #[trigger] commands::executed(
                            cbw,
                            storage,
                            out_ep,
                            in_ep,
                            (session.0.sense, session.1.sense),
                            (session.0.prevent_medium_removal, session.1.prevent_medium_removal),
                            outcome,
                        )
                        &&& r == if outcome is Ok {
                            SessionStep::Continue
                        } else {
                            SessionStep::Ended
                        }
                        &&& session.1.state == match outcome {
                            Ok(outcome) => state_after_command(outcome),
                            Err(_) => session.0.state,
                        }
                    }
            },
            BotState::SendingCsw { csw, stall_before_csw, stall_after_csw } => {
                let ready = BotControl {
                    bus_actions_applied: if stall_before_csw == StallAfterCsw::NoStall {
                        taken.bus_actions_applied
                    } else {
                        0
                    },
                    ..with_stall(taken, stall_before_csw)
                };
                &&& commands::untouched(storage.0, storage.1)
                &&& commands::unused(out_ep.0, out_ep.1)
                &&& in_ep.1.incoming() == in_ep.0.incoming()
                &&& in_ep.1.received() == in_ep.0.received()
                &&& in_ep.1.waits() == in_ep.0.waits()
                &&& in_ep.0.healthy() ==> r == SessionStep::Continue && in_ep.1.healthy()
                &&& match r {
                    SessionStep::Continue => {
                        &&& in_ep.1.sent() == in_ep.0.sent().push(csw.wire())
                        &&& in_ep.1.errors() == in_ep.0.errors()
                        &&& control.1 == with_stall(ready, stall_after_csw)
                        &&& session.1 == BotSession { state: BotState::WaitingForCbw, ..session.0 }
                    },
                    SessionStep::Ended => {
                        &&& in_ep.1.sent() == in_ep.0.sent()
                        &&& in_ep.1.errors().len() == in_ep.0.errors().len() + 1
                        &&& control.1 == ready
                        &&& session.1 == session.0
                    },
                }
            },
        }
    }
}

/// What a session did that waited for a command wrapper.
pub open spec fn waited<OUT: DataEndpoint>(
    session: BotSession,
    out_ep: &OUT,
    session_after: BotSession,
    out_ep_after: &OUT,
    r: SessionStep,
) -> bool {
    let incoming = out_ep.incoming();
    &&& out_ep_after.sent() == out_ep.sent()
    &&& out_ep_after.waits() == out_ep.waits().push(CBW_READ_TIMEOUT_MS)
    &&& out_ep.healthy() ==> out_ep_after.healthy()
    &&& {
        // A command wrapper came.
        ||| {
            &&& r == SessionStep::Continue
            &&& incoming.len() > 0
            &&& 0 < incoming[0].len() <= USB_PACKET_SIZE
            &&& out_ep_after.incoming() == incoming.drop_first()
            &&& out_ep_after.received() == out_ep.received().push(incoming[0])
            &&& out_ep_after.errors() == out_ep.errors()
            &&& exists|cbw: Cbw|
                {
                    &&& #[trigger] bot::parsed_from(cbw, incoming[0])
                    &&& session_after == (BotSession { state: state_after_cbw(cbw), ..session })
                }
        }
        // An empty packet came.
        ||| {
            &&& r == SessionStep::Continue
            &&& session_after == session
            &&& incoming.len() > 0
            &&& incoming[0].len() == 0
            &&& out_ep_after.incoming() == incoming.drop_first()
            &&& out_ep_after.received() == out_ep.received().push(incoming[0])
            &&& out_ep_after.errors() == out_ep.errors()
        }
        // None came.
        ||| {
            &&& r == SessionStep::Continue
            &&& session_after == session
            &&& out_ep_after.incoming() == incoming
            &&& out_ep_after.received() == out_ep.received()
            &&& out_ep_after.errors() == out_ep.errors()
            &&& out_ep.healthy() ==> incoming.len() == 0
        }
        // The endpoint failed.
        ||| {
            &&& r == SessionStep::Ended
            &&& session_after == session
            &&& out_ep_after.received() == out_ep.received()
            &&& out_ep_after.errors().len() == out_ep.errors().len() + 1
            &&& out_ep.healthy() ==> incoming.len() > 0 && incoming[0].len() > USB_PACKET_SIZE
        }
    }
}

/// Every command that ends is answered under its own tag, with no more missing than the host
/// expected, and with one of the three statuses.
pub proof fn every_command_is_answered_under_its_tag<
    OUT: DataEndpoint,
    IN: DataEndpoint,
    S: BlockStorage,
>(
    cbw: Cbw,
    storage: (&S, &S),
    out_ep: (&OUT, &OUT),
    in_ep: (&IN, &IN),
    sense: (SenseData, SenseData),
    prevented: (bool, bool),
    outcome: CommandOutcome,
)
    requires
        commands::executed(cbw, storage, out_ep, in_ep, sense, prevented, Ok(outcome)),
    ensures
        outcome.csw.tag == cbw.tag,
        outcome.csw.residue <= cbw.data_transfer_length,
        outcome.csw.status == CSW_STATUS_PASSED || outcome.csw.status == CSW_STATUS_FAILED
            || outcome.csw.status == CSW_STATUS_PHASE_ERROR,
{
}

/// One command is three steps and one answer: the wrapper is taken, the command executed, and one
/// status wrapper sent under its tag, after which the session waits for the next command. Nothing
/// is lost where the data phase does not fail and no reset comes between.
pub proof fn one_command_is_one_answer<OUT: DataEndpoint, IN: DataEndpoint, S: BlockStorage>(
    cbw: Cbw,
    session: (BotSession, BotSession, BotSession, BotSession),
    storage: (&S, &S, &S, &S),
    out_ep: (&OUT, &OUT, &OUT, &OUT),
    in_ep: (&IN, &IN, &IN, &IN),
    control: ((BotControl, BotControl), (BotControl, BotControl), (BotControl, BotControl)),
    r: (SessionStep, SessionStep, SessionStep),
)
    requires
        session.0.state == BotState::WaitingForCbw,
        out_ep.0.healthy(),
        out_ep.0.incoming().len() > 0,
        out_ep.0.incoming()[0].len() <= USB_PACKET_SIZE,
        bot::parsed_from(cbw, out_ep.0.incoming()[0]),
        cbw.valid(),
        control.0.0.msc_events & BOT_EVENT_BULK_RESET == 0,
        control.1.0.msc_events & BOT_EVENT_BULK_RESET == 0,
        control.2.0.msc_events & BOT_EVENT_BULK_RESET == 0,
        stepped(
            (session.0, session.1),
            (storage.0, storage.1),
            (out_ep.0, out_ep.1),
            (in_ep.0, in_ep.1),
            control.0,
            r.0,
        ),
        stepped(
            (session.1, session.2),
            (storage.1, storage.2),
            (out_ep.1, out_ep.2),
            (in_ep.1, in_ep.2),
            control.1,
            r.1,
        ),
        r.1 == SessionStep::Continue,
        in_ep.2.healthy(),
        stepped(
            (session.2, session.3),
            (storage.2, storage.3),
            (out_ep.2, out_ep.3),
            (in_ep.2, in_ep.3),
            control.2,
            r.2,
        ),
    ensures
        r.0 == SessionStep::Continue,
        r.2 == SessionStep::Continue,
        in_ep.1.sent() == in_ep.0.sent(),
        session.2.state matches BotState::SendingCsw { csw, .. } && {
            &&& csw.tag == cbw.tag
            &&& csw.residue <= cbw.data_transfer_length
            &&& in_ep.3.sent() == in_ep.2.sent().push(csw.wire())
        },
        session.3.state == BotState::WaitingForCbw,
        out_ep.1.incoming() == out_ep.0.incoming().drop_first(),
        out_ep.3.incoming() == out_ep.2.incoming(),
        storage.1.contents() == storage.0.contents(),
        storage.3.contents() == storage.2.contents(),
{
}

/// A wrapper that is not valid is answered with a phase error under its tag, and both endpoints are
/// to be stalled, whatever else was requested before.
pub proof fn invalid_wrappers_stall_both_endpoints(cbw: Cbw, control: BotControl)
    requires
        !cbw.valid(),
    ensures
        state_after_cbw(cbw) matches BotState::SendingCsw { csw, stall_after_csw, .. } && {
            let actions = with_stall(control, stall_after_csw).bus_actions;
            &&& csw.tag == cbw.tag
            &&& csw.status == CSW_STATUS_PHASE_ERROR
            &&& csw.residue == cbw.data_transfer_length
            &&& actions & BOT_ACTION_STALL_IN != 0
            &&& actions & BOT_ACTION_STALL_OUT != 0
        },
{
    let actions = control.bus_actions;
    assert((actions | 3u8) & 1u8 != 0) by (bit_vector);
    assert((actions | 3u8) & 2u8 != 0) by (bit_vector);
}

/// A bulk reset drops the command that is under way: it is not answered, and the session waits for
/// the next command with nothing to report.
pub proof fn bulk_reset_drops_the_command<OUT: DataEndpoint, IN: DataEndpoint, S: BlockStorage>(
    session: (BotSession, BotSession),
    storage: (&S, &S),
    out_ep: (&OUT, &OUT),
    in_ep: (&IN, &IN),
    control: (BotControl, BotControl),
    signalled: BotControl,
    r: SessionStep,
)
    requires
        control.0 == (BotControl {
            msc_events: signalled.msc_events | BOT_EVENT_BULK_RESET,
            ..signalled
        }),
        stepped(session, storage, out_ep, in_ep, control, r),
    ensures
        session.1.state == BotState::WaitingForCbw,
        session.1.sense == sense::good_sense(),
        in_ep.1.sent() == in_ep.0.sent(),
        storage.1.contents() == storage.0.contents(),
        control.1.msc_events == 0,
{
    let events = signalled.msc_events;
    assert((events | 1u8) & 1u8 != 0) by (bit_vector);
}

} // verus!
