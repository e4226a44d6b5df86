//! The encapsulation logic of the SPI transport
//!
//! A Component and an Arbitrator exchange frames over SPI in two steps: a
//! 4-byte header, in which each side announces the length of the frame it
//! has to send, then a body, in which both frames travel at once. The
//! Component drives its CSn line, the Arbitrator its GO line.
//!
//! The drivers, the queues and the timers live with the application; this
//! module decides, at each poll, what the driver does next and which state
//! follows.

use crate::groundhog::{scaled_saturating, wrapping_since, RollingTimer};
use vstd::prelude::*;

verus! {

/// Why a queue refused a grant (the errors of the queues the transport
/// moves its frames through)
#[derive(Debug, PartialEq, Eq, Clone, Copy, Structural)]
pub enum QueueError {
    /// The buffer does not contain sufficient size for the requested action
    InsufficientSize,
    /// A grant of this type is already in progress
    GrantInProgress,
    /// The buffer has already been split
    AlreadySplit,
}

/// The errors of the SPI transport
#[derive(Debug, PartialEq, Eq, Clone, Copy, Structural)]
pub enum Error {
    TxQueueFull,
    IncompleteTransaction(usize),
    ArbitratorHungUp,
    InitializationFailed,
    BBQueueError(QueueError),
    /// The exchange is still in progress
    TransactionBusy,
    TransactionAborted,
    ConnectionFailure,
    /// We tried to prep a message, but the component had not
    /// marked itself as ready
    ComponentNotReady,
    /// We were in an unexpected state when an event happened.
    IncorrectState,
    UnstableFailure,
    GpioError,
    SpiError,
}

impl From<QueueError> for Error {
    fn from(b: QueueError) -> (r: Error) {
        Error::BBQueueError(b)
    }
}

impl vstd::std_specs::convert::FromSpecImpl<QueueError> for Error {
    open spec fn obeys_from_spec() -> bool {
        true
    }

    open spec fn from_spec(b: QueueError) -> Error {
        Error::BBQueueError(b)
    }
}

/// The result type of the SPI transport
pub type Result<T> = core::result::Result<T, Error>;

/// The length of a header exchange, in bytes
pub const HEADER_LEN: usize = 4;

/// The longest body a side accepts to receive
pub const MAX_BODY_LEN: u32 = 4096;

/// The least time, in microseconds, the Component leaves between two
/// changes of its CSn line
pub const T_MIN_US: u32 = 1000;

/// The longest time, in microseconds, the Arbitrator gives a whole exchange
pub const T_WINDOW_US: u32 = 1_000_000;

/// The longest time, in microseconds, the Arbitrator gives one step of an
/// exchange
pub const T_STEP_US: u32 = 500_000;

/// What a poll does once the exchange in progress, if any, was asked to
/// complete
#[derive(Debug, PartialEq, Eq, Clone, Copy, Structural)]
pub enum Completion {
    /// The exchange moved this many bytes
    Done(usize),
    /// No exchange completed (none was active, or it is still busy)
    Pending,
    /// The exchange failed: abort it, release the line, end the poll
    Failed,
    /// The exchange was aborted: release the line, end the poll
    Aborted,
}

/// Read the outcome of `complete_exchange` as the Component does
pub fn component_completion(res: &Result<usize>) -> (c: Completion)
    ensures
        *res matches Ok(amt) ==> c == Completion::Done(amt),
        *res matches Err(Error::TransactionBusy) ==> c == Completion::Pending,
        *res is Err && !(*res matches Err(Error::TransactionBusy)) ==> c == Completion::Failed,
{
    match res {
        Ok(amt) => Completion::Done(*amt),
        Err(Error::TransactionBusy) => Completion::Pending,
        Err(_) => Completion::Failed,
    }
}

/// Read the outcome of `complete_exchange` as the Arbitrator does
pub fn arbitrator_completion(res: &Result<usize>) -> (c: Completion)
    ensures
        *res matches Ok(amt) ==> c == Completion::Done(amt),
        *res matches Err(Error::TransactionBusy) ==> c == Completion::Pending,
        *res matches Err(Error::TransactionAborted) ==> c == Completion::Aborted,
        *res is Err && !(*res matches Err(Error::TransactionBusy)) && !(*res matches Err(
            Error::TransactionAborted,
        )) ==> c == Completion::Failed,
{
    match res {
        Ok(amt) => Completion::Done(*amt),
        Err(Error::TransactionBusy) => Completion::Pending,
        Err(Error::TransactionAborted) => Completion::Aborted,
        Err(_) => Completion::Failed,
    }
}

// =====================================================================
// Component
// =====================================================================

/// What the Component's poll does after asking its driver about the GO line
/// and the exchange in progress
#[derive(Debug, PartialEq, Eq, Clone, Copy, Structural)]
pub enum ComponentStart {
    /// Stop here: abort the exchange if asked, release CSn, end the poll
    Halt { abort: bool },
    /// Ask the exchange in progress to complete, then go on
    Complete,
    /// Go on with no completed exchange
    Continue,
}

/// Decide how the Component's poll goes on, given what the driver said of
/// the GO line (`go`) and of the exchange in progress (`active`)
///
/// A driver error, or a GO line the Arbitrator released, ends the poll; an
/// exchange still in progress is then aborted.
pub fn component_start(go: &Result<bool>, active: &Result<bool>) -> (s: ComponentStart)
    ensures
        *go is Err ==> s == (ComponentStart::Halt { abort: false }),
        (*go is Ok && *active is Err) ==> s == (ComponentStart::Halt { abort: false }),
        *go == Ok::<bool, Error>(false) ==> (*active matches Ok(a) ==> s == (ComponentStart::Halt {
            abort: a,
        })),
        (*go == Ok::<bool, Error>(true) && *active == Ok::<bool, Error>(true)) ==> s
            == ComponentStart::Complete,
        (*go == Ok::<bool, Error>(true) && *active == Ok::<bool, Error>(false)) ==> s
            == ComponentStart::Continue,
{
    let go = match go {
        Ok(g) => *g,
        Err(_) => return ComponentStart::Halt { abort: false },
    };
    let active = match active {
        Ok(a) => *a,
        Err(_) => return ComponentStart::Halt { abort: false },
    };
    if !go {
        ComponentStart::Halt { abort: active }
    } else if active {
        ComponentStart::Complete
    } else {
        ComponentStart::Continue
    }
}

/// The state of the Component's side of an exchange; a tick is the time the
/// state was entered
#[derive(Debug, PartialEq, Eq, Clone, Copy, Structural)]
pub enum ComponentState {
    Idle,
    HeaderStart(u32),
    HeaderXfer,
    HeaderComplete(u32),
    BodyStart(u32),
    BodyXfer,
    BodyComplete(u32),
}

/// The driver work of one Component poll
#[derive(Debug, PartialEq, Eq, Clone, Copy, Structural)]
pub enum ComponentAction {
    Nothing,
    /// Set CSn active
    NotifyCsn,
    /// Set CSn inactive
    ClearCsn,
    /// Announce the length of the next outgoing frame (0 if none) and
    /// begin the 4-byte header exchange
    BeginHeader,
    /// Take a grant of `in_len` bytes for the incoming frame (none if 0),
    /// take the next outgoing frame (if any), and begin the body exchange
    BeginBody { in_len: usize },
    /// Set CSn inactive, release the sent frame, and commit `amt` bytes of
    /// the received one
    FinishBody { amt: usize },
}

/// The driver work of a poll, and the state that follows once it is done
/// (should the work fail, the state is `Idle`)
#[derive(Debug, PartialEq, Eq, Clone, Copy, Structural)]
pub struct ComponentPlan {
    pub action: ComponentAction,
    pub next: ComponentState,
    /// Does `next` start now (its tick is the time the work was done)?
    pub stamp: bool,
}

/// Does the Component's poll in `state` wait for time to pass?
pub open spec fn component_timed(state: ComponentState) -> bool {
    match state {
        ComponentState::HeaderStart(_) => true,
        ComponentState::HeaderComplete(_) => true,
        ComponentState::BodyStart(_) => true,
        ComponentState::BodyComplete(_) => true,
        _ => false,
    }
}

/// The Component's decision in `state`, given the bytes of the exchange
/// that just completed (if any), whether more than `T_MIN_US` passed since
/// the state was entered (`waited`), and the lengths announced in the last
/// header by the Arbitrator (`header_in`) and by the Component
/// (`header_out`)
pub open spec fn component_plan_spec(
    state: ComponentState,
    completed: Option<usize>,
    waited: bool,
    header_in: u32,
    header_out: u32,
) -> ComponentPlan {
    let stay = ComponentPlan { action: ComponentAction::Nothing, next: state, stamp: false };
    let idle = ComponentPlan { action: ComponentAction::ClearCsn, next: ComponentState::Idle, stamp: false };
    match state {
        ComponentState::Idle => ComponentPlan {
            action: ComponentAction::NotifyCsn,
            next: ComponentState::HeaderStart(0),
            stamp: true,
        },
        ComponentState::HeaderStart(_) => if waited {
            ComponentPlan {
                action: ComponentAction::BeginHeader,
                next: ComponentState::HeaderXfer,
                stamp: false,
            }
        } else {
            stay
        },
        ComponentState::HeaderXfer => match completed {
            None => stay,
            Some(amt) => if amt != HEADER_LEN || (header_in == 0 && header_out == 0) {
                idle
            } else {
                ComponentPlan {
                    action: ComponentAction::ClearCsn,
                    next: ComponentState::HeaderComplete(0),
                    stamp: true,
                }
            },
        },
        ComponentState::HeaderComplete(_) => if waited {
            ComponentPlan {
                action: ComponentAction::NotifyCsn,
                next: ComponentState::BodyStart(0),
                stamp: true,
            }
        } else {
            stay
        },
        ComponentState::BodyStart(_) => if !waited {
            stay
        } else if header_in > MAX_BODY_LEN {
            idle
        } else {
            ComponentPlan {
                action: ComponentAction::BeginBody { in_len: header_in as usize },
                next: ComponentState::BodyXfer,
                stamp: false,
            }
        },
        ComponentState::BodyXfer => match completed {
            None => stay,
            Some(amt) => ComponentPlan {
                action: ComponentAction::FinishBody { amt },
                next: ComponentState::BodyComplete(0),
                stamp: true,
            },
        },
        ComponentState::BodyComplete(_) => if waited {
            ComponentPlan {
                action: ComponentAction::NotifyCsn,
                next: ComponentState::HeaderStart(0),
                stamp: true,
            }
        } else {
            stay
        },
    }
}

/// Decide the Component's driver work and next state; see
/// [`component_plan_spec`]
pub fn component_plan(
    state: ComponentState,
    completed: Option<usize>,
    waited: bool,
    header_in: u32,
    header_out: u32,
) -> (p: ComponentPlan)
    ensures
        p == component_plan_spec(state, completed, waited, header_in, header_out),
{
    let stay = ComponentPlan { action: ComponentAction::Nothing, next: state, stamp: false };
    let idle = ComponentPlan {
        action: ComponentAction::ClearCsn,
        next: ComponentState::Idle,
        stamp: false,
    };
    match state {
        ComponentState::Idle => ComponentPlan {
            action: ComponentAction::NotifyCsn,
            next: ComponentState::HeaderStart(0),
            stamp: true,
        },
        ComponentState::HeaderStart(_) => {
            if waited {
                ComponentPlan {
                    action: ComponentAction::BeginHeader,
                    next: ComponentState::HeaderXfer,
                    stamp: false,
                }
            } else {
                stay
            }
        },
        ComponentState::HeaderXfer => match completed {
            None => stay,
            Some(amt) => {
                if amt != HEADER_LEN || (header_in == 0 && header_out == 0) {
                    idle
                } else {
                    ComponentPlan {
                        action: ComponentAction::ClearCsn,
                        next: ComponentState::HeaderComplete(0),
                        stamp: true,
                    }
                }
            },
        },
        ComponentState::HeaderComplete(_) => {
            if waited {
                ComponentPlan {
                    action: ComponentAction::NotifyCsn,
                    next: ComponentState::BodyStart(0),
                    stamp: true,
                }
            } else {
                stay
            }
        },
        ComponentState::BodyStart(_) => {
            if !waited {
                stay
            } else if header_in > MAX_BODY_LEN {
                idle
            } else {
                ComponentPlan {
                    action: ComponentAction::BeginBody { in_len: header_in as usize },
                    next: ComponentState::BodyXfer,
                    stamp: false,
                }
            }
        },
        ComponentState::BodyXfer => match completed {
            None => stay,
            Some(amt) => ComponentPlan {
                action: ComponentAction::FinishBody { amt },
                next: ComponentState::BodyComplete(0),
                stamp: true,
            },
        },
        ComponentState::BodyComplete(_) => {
            if waited {
                ComponentPlan {
                    action: ComponentAction::NotifyCsn,
                    next: ComponentState::HeaderStart(0),
                    stamp: true,
                }
            } else {
                stay
            }
        },
    }
}

/// `state`, entered at tick `now` where it keeps a tick
pub open spec fn component_stamped_spec(state: ComponentState, now: u32) -> ComponentState {
    match state {
        ComponentState::HeaderStart(_) => ComponentState::HeaderStart(now),
        ComponentState::HeaderComplete(_) => ComponentState::HeaderComplete(now),
        ComponentState::BodyStart(_) => ComponentState::BodyStart(now),
        ComponentState::BodyComplete(_) => ComponentState::BodyComplete(now),
        _ => state,
    }
}

/// The state that follows a poll whose driver work succeeded at tick `now`
pub fn component_next(plan: ComponentPlan, now: u32) -> (s: ComponentState)
    ensures
        s == (if plan.stamp {
            component_stamped_spec(plan.next, now)
        } else {
            plan.next
        }),
{
    if !plan.stamp {
        return plan.next;
    }
    match plan.next {
        ComponentState::HeaderStart(_) => ComponentState::HeaderStart(now),
        ComponentState::HeaderComplete(_) => ComponentState::HeaderComplete(now),
        ComponentState::BodyStart(_) => ComponentState::BodyStart(now),
        ComponentState::BodyComplete(_) => ComponentState::BodyComplete(now),
        other => other,
    }
}

/// Has more than `T_MIN_US` passed since the Component entered `state`?
/// (Always `false` in a state that waits for no time.)
pub fn component_waited<RT: RollingTimer>(state: &ComponentState, timer: &RT) -> (r: bool)
    requires
        RT::TICKS_PER_SECOND > 0,
    ensures
        !component_timed(*state) ==> !r,
        *state matches ComponentState::HeaderStart(t) ==> exists|now: u32|
            r == (scaled_saturating(wrapping_since(now, t), 1_000_000, RT::TICKS_PER_SECOND)
                > T_MIN_US),
        *state matches ComponentState::HeaderComplete(t) ==> exists|now: u32|
            r == (scaled_saturating(wrapping_since(now, t), 1_000_000, RT::TICKS_PER_SECOND)
                > T_MIN_US),
        *state matches ComponentState::BodyStart(t) ==> exists|now: u32|
            r == (scaled_saturating(wrapping_since(now, t), 1_000_000, RT::TICKS_PER_SECOND)
                > T_MIN_US),
        *state matches ComponentState::BodyComplete(t) ==> exists|now: u32|
            r == (scaled_saturating(wrapping_since(now, t), 1_000_000, RT::TICKS_PER_SECOND)
                > T_MIN_US),
{
    match state {
        ComponentState::HeaderStart(t) => timer.micros_since(*t) > T_MIN_US,
        ComponentState::HeaderComplete(t) => timer.micros_since(*t) > T_MIN_US,
        ComponentState::BodyStart(t) => timer.micros_since(*t) > T_MIN_US,
        ComponentState::BodyComplete(t) => timer.micros_since(*t) > T_MIN_US,
        _ => false,
    }
}

// =====================================================================
// Arbitrator
// =====================================================================

/// The state of the Arbitrator's side of an exchange: `t_window` is the
/// tick the exchange began, `t_step` the tick the current step began
#[derive(Debug, PartialEq, Eq, Clone, Copy, Structural)]
pub enum ArbState {
    Idle,
    HeaderStart { t_window: u32, t_step: u32 },
    HeaderPrepped { t_window: u32, t_step: u32 },
    HeaderXfer { t_window: u32 },
    BodyPrepped { t_window: u32, t_step: u32 },
    BodyXfer { t_window: u32 },
}

/// The driver work of one Arbitrator poll
#[derive(Debug, PartialEq, Eq, Clone, Copy, Structural)]
pub enum ArbAction {
    Nothing,
    /// Announce the length of the next outgoing frame (0 if none), prepare
    /// the 4-byte header exchange, and set GO active
    PrepareHeader,
    /// Ask the driver whether the Component began the prepared exchange
    CheckBegun,
    /// Set GO inactive
    ClearGo,
    /// Take a grant of `in_len` bytes for the incoming frame (none if 0),
    /// take the next outgoing frame (if any), and prepare the body exchange
    PrepareBody { in_len: usize },
    /// Release the sent frame, and commit `amt` bytes of the received one
    FinishBody { amt: usize },
}

/// The driver work of a poll, and the state that follows once it is done
/// (should the work fail, the state is `Idle`)
#[derive(Debug, PartialEq, Eq, Clone, Copy, Structural)]
pub struct ArbPlan {
    pub action: ArbAction,
    /// The next state (for `CheckBegun`: if the exchange began)
    pub next: ArbState,
    /// For `CheckBegun`: the next state if the exchange did not begin
    pub otherwise: ArbState,
    /// Does a step of `next` start now (its ticks are the time the work
    /// was done)?
    pub stamp: bool,
}

/// Has an Arbitrator in `state` waited too long, when `window_us`
/// microseconds passed since its exchange began and `step_us` since its
/// step began?
pub open spec fn arb_timed_out_spec(state: ArbState, window_us: u32, step_us: u32) -> bool {
    match state {
        ArbState::Idle => false,
        ArbState::HeaderXfer { .. } => window_us > T_WINDOW_US,
        ArbState::BodyXfer { .. } => window_us > T_WINDOW_US,
        _ => window_us > T_WINDOW_US || step_us > T_STEP_US,
    }
}

/// Has an Arbitrator in `state` waited too long? See [`arb_timed_out_spec`].
pub fn arbitrator_timed_out(state: &ArbState, window_us: u32, step_us: u32) -> (r: bool)
    ensures
        r == arb_timed_out_spec(*state, window_us, step_us),
{
    match state {
        ArbState::Idle => false,
        ArbState::HeaderXfer { .. } => window_us > T_WINDOW_US,
        ArbState::BodyXfer { .. } => window_us > T_WINDOW_US,
        _ => window_us > T_WINDOW_US || step_us > T_STEP_US,
    }
}

/// How an Arbitrator's poll goes on once the exchange in progress, if any,
/// was asked to complete
#[derive(Debug, PartialEq, Eq, Clone, Copy, Structural)]
pub enum ArbSettle {
    /// Set GO inactive and end the poll
    ClearGo,
    /// Abort the exchange, set GO inactive and end the poll
    AbortAndClearGo,
    /// The exchange took too long: abort it if the driver still has it
    /// active, and end the poll
    TimedOut,
    /// Go on with the plan, with the size of the exchange that completed,
    /// if one did
    Proceed(Option<usize>),
}

/// Decide how an Arbitrator's poll in `state` goes on, given what the
/// driver said of the exchange in progress (`active`), how the exchange it
/// then asked to complete ended (`completion`, asked only of an active
/// exchange), and the microseconds since the exchange began (`window_us`)
/// and since its step began (`step_us`); and the state to hold from now on
///
/// A driver error ends the poll, as does an aborted or failed exchange and
/// a timeout; each of these leaves the Arbitrator `Idle`, and a timeout
/// aborts an exchange the driver still has active. Otherwise the state
/// stays as it is, for [`arbitrator_plan`] to go on from.
pub fn arbitrator_settle(
    state: ArbState,
    active: &Result<bool>,
    completion: Option<Completion>,
    window_us: u32,
    step_us: u32,
) -> (r: (ArbSettle, ArbState))
    requires
        *active matches Ok(true) <==> completion is Some,
    ensures
        *active is Err ==> r == (ArbSettle::ClearGo, ArbState::Idle),
        completion == Some(Completion::Aborted) ==> r == (ArbSettle::ClearGo, ArbState::Idle),
        completion == Some(Completion::Failed) ==> r == (ArbSettle::AbortAndClearGo, ArbState::Idle),
        *active is Ok && completion != Some(Completion::Aborted) && completion != Some(
            Completion::Failed,
        ) ==> r == if arb_timed_out_spec(state, window_us, step_us) {
            (ArbSettle::TimedOut, ArbState::Idle)
        } else {
            (
                ArbSettle::Proceed(
                    match completion {
                        Some(Completion::Done(amt)) => Some(amt),
                        _ => None,
                    },
                ),
                state,
            )
        },
{
    match active {
        Err(_) => return (ArbSettle::ClearGo, ArbState::Idle),
        Ok(_) => {},
    }
    let completed = match completion {
        None => None,
        Some(Completion::Done(amt)) => Some(amt),
        Some(Completion::Pending) => None,
        Some(Completion::Aborted) => return (ArbSettle::ClearGo, ArbState::Idle),
        Some(Completion::Failed) => return (ArbSettle::AbortAndClearGo, ArbState::Idle),
    };
    if arbitrator_timed_out(&state, window_us, step_us) {
        (ArbSettle::TimedOut, ArbState::Idle)
    } else {
        (ArbSettle::Proceed(completed), state)
    }
}

impl ArbState {
    /// The tick the exchange in progress began, if one is
    pub fn window_start(&self) -> (r: Option<u32>)
        ensures
            *self == ArbState::Idle <==> r is None,
            r matches Some(t) ==> match *self {
                ArbState::HeaderStart { t_window, .. } => t == t_window,
                ArbState::HeaderPrepped { t_window, .. } => t == t_window,
                ArbState::HeaderXfer { t_window } => t == t_window,
                ArbState::BodyPrepped { t_window, .. } => t == t_window,
                ArbState::BodyXfer { t_window } => t == t_window,
                ArbState::Idle => false,
            },
    {
        match self {
            ArbState::Idle => None,
            ArbState::HeaderStart { t_window, .. } => Some(*t_window),
            ArbState::HeaderPrepped { t_window, .. } => Some(*t_window),
            ArbState::HeaderXfer { t_window } => Some(*t_window),
            ArbState::BodyPrepped { t_window, .. } => Some(*t_window),
            ArbState::BodyXfer { t_window } => Some(*t_window),
        }
    }

    /// The tick the current step began, in a state that times its steps
    pub fn step_start(&self) -> (r: Option<u32>)
        ensures
            r == match *self {
                ArbState::HeaderStart { t_step, .. } => Some(t_step),
                ArbState::HeaderPrepped { t_step, .. } => Some(t_step),
                ArbState::BodyPrepped { t_step, .. } => Some(t_step),
                _ => None::<u32>,
            },
    {
        match self {
            ArbState::HeaderStart { t_step, .. } => Some(*t_step),
            ArbState::HeaderPrepped { t_step, .. } => Some(*t_step),
            ArbState::BodyPrepped { t_step, .. } => Some(*t_step),
            _ => None,
        }
    }
}

/// The Arbitrator's decision in `state`, given the bytes of the exchange
/// that just completed (if any), and the lengths announced in the last
/// header by the Component (`header_in`) and by the Arbitrator
/// (`header_out`)
pub open spec fn arbitrator_plan_spec(
    state: ArbState,
    completed: Option<usize>,
    header_in: u32,
    header_out: u32,
) -> ArbPlan {
    let stay = ArbPlan { action: ArbAction::Nothing, next: state, otherwise: state, stamp: false };
    let idle = ArbPlan {
        action: ArbAction::ClearGo,
        next: ArbState::Idle,
        otherwise: ArbState::Idle,
        stamp: false,
    };
    match state {
        ArbState::Idle => stay,
        ArbState::HeaderStart { t_window, t_step } => {
            let next = ArbState::HeaderPrepped { t_window, t_step };
            ArbPlan { action: ArbAction::PrepareHeader, next, otherwise: next, stamp: true }
        },
        ArbState::HeaderPrepped { t_window, .. } => ArbPlan {
            action: ArbAction::CheckBegun,
            next: ArbState::HeaderXfer { t_window },
            otherwise: state,
            stamp: false,
        },
        ArbState::HeaderXfer { t_window } => match completed {
            None => stay,
            Some(amt) => if amt != HEADER_LEN || (header_in == 0 && header_out == 0) || header_in
                > MAX_BODY_LEN {
                idle
            } else {
                let next = ArbState::BodyPrepped { t_window, t_step: t_window };
                ArbPlan {
                    action: ArbAction::PrepareBody { in_len: header_in as usize },
                    next,
                    otherwise: next,
                    stamp: true,
                }
            },
        },
        ArbState::BodyPrepped { t_window, .. } => ArbPlan {
            action: ArbAction::CheckBegun,
            next: ArbState::BodyXfer { t_window },
            otherwise: state,
            stamp: false,
        },
        ArbState::BodyXfer { t_window } => match completed {
            None => stay,
            Some(amt) => {
                let next = ArbState::HeaderStart { t_window, t_step: t_window };
                ArbPlan { action: ArbAction::FinishBody { amt }, next, otherwise: next, stamp: true }
            },
        },
    }
}

/// Decide the Arbitrator's driver work and next state; see
/// [`arbitrator_plan_spec`]
pub fn arbitrator_plan(state: ArbState, completed: Option<usize>, header_in: u32, header_out: u32) -> (p:
    ArbPlan)
    ensures
        p == arbitrator_plan_spec(state, completed, header_in, header_out),
{
    let stay = ArbPlan { action: ArbAction::Nothing, next: state, otherwise: state, stamp: false };
    let idle = ArbPlan {
        action: ArbAction::ClearGo,
        next: ArbState::Idle,
        otherwise: ArbState::Idle,
        stamp: false,
    };
    match state {
        ArbState::Idle => stay,
        ArbState::HeaderStart { t_window, t_step } => {
            let next = ArbState::HeaderPrepped { t_window, t_step };
            ArbPlan { action: ArbAction::PrepareHeader, next, otherwise: next, stamp: true }
        },
        ArbState::HeaderPrepped { t_window, .. } => ArbPlan {
            action: ArbAction::CheckBegun,
            next: ArbState::HeaderXfer { t_window },
            otherwise: state,
            stamp: false,
        },
        ArbState::HeaderXfer { t_window } => match completed {
            None => stay,
            Some(amt) => {
                if amt != HEADER_LEN || (header_in == 0 && header_out == 0) || header_in
                    > MAX_BODY_LEN {
                    idle
                } else {
                    let next = ArbState::BodyPrepped { t_window, t_step: t_window };
                    ArbPlan {
                        action: ArbAction::PrepareBody { in_len: header_in as usize },
                        next,
                        otherwise: next,
                        stamp: true,
                    }
                }
            },
        },
        ArbState::BodyPrepped { t_window, .. } => ArbPlan {
            action: ArbAction::CheckBegun,
            next: ArbState::BodyXfer { t_window },
            otherwise: state,
            stamp: false,
        },
        ArbState::BodyXfer { t_window } => match completed {
            None => stay,
            Some(amt) => {
                let next = ArbState::HeaderStart { t_window, t_step: t_window };
                ArbPlan {
                    action: ArbAction::FinishBody { amt },
                    next,
                    otherwise: next,
                    stamp: true,
                }
            },
        },
    }
}

/// Ask the Component for an exchange at tick `now`: only an idle
/// Arbitrator starts one
pub fn arbitrator_query(state: ArbState, now: u32) -> (r: Result<ArbState>)
    ensures
        state == ArbState::Idle ==> r == Ok::<ArbState, Error>(
            ArbState::HeaderStart { t_window: now, t_step: now },
        ),
        state != ArbState::Idle ==> r == Err::<ArbState, Error>(Error::IncorrectState),
{
    match state {
        ArbState::Idle => Ok(ArbState::HeaderStart { t_window: now, t_step: now }),
        _ => Err(Error::IncorrectState),
    }
}

/// `state`, with its current step begun at tick `now`; a new exchange
/// (`HeaderStart`) also begins its window then
pub open spec fn arb_stamped_spec(state: ArbState, now: u32) -> ArbState {
    match state {
        ArbState::HeaderStart { .. } => ArbState::HeaderStart { t_window: now, t_step: now },
        ArbState::HeaderPrepped { t_window, .. } => ArbState::HeaderPrepped { t_window, t_step: now },
        ArbState::BodyPrepped { t_window, .. } => ArbState::BodyPrepped { t_window, t_step: now },
        _ => state,
    }
}

/// The state that follows a poll whose driver work succeeded at tick `now`;
/// `begun` is the driver's answer to `CheckBegun` (ignored otherwise)
pub fn arbitrator_next(plan: ArbPlan, begun: bool, now: u32) -> (s: ArbState)
    ensures
        s == (if plan.action == ArbAction::CheckBegun && !begun {
            plan.otherwise
        } else if plan.stamp {
            arb_stamped_spec(plan.next, now)
        } else {
            plan.next
        }),
{
    if plan.action == ArbAction::CheckBegun && !begun {
        return plan.otherwise;
    }
    if !plan.stamp {
        return plan.next;
    }
    match plan.next {
        ArbState::HeaderStart { .. } => ArbState::HeaderStart { t_window: now, t_step: now },
        ArbState::HeaderPrepped { t_window, .. } => ArbState::HeaderPrepped { t_window, t_step: now },
        ArbState::BodyPrepped { t_window, .. } => ArbState::BodyPrepped { t_window, t_step: now },
        other => other,
    }
}

// =====================================================================
// Laws of the exchange
// =====================================================================

/// The Component releases CSn whenever a poll gives up an exchange, and
/// never takes a grant of more than `MAX_BODY_LEN` bytes for an incoming
/// body; it begins a body only after a full header in which one side or
/// the other announced a frame.
pub proof fn lemma_component_exchange(
    state: ComponentState,
    completed: Option<usize>,
    waited: bool,
    header_in: u32,
    header_out: u32,
)
    ensures
        ({
            let p = component_plan_spec(state, completed, waited, header_in, header_out);
            &&& (p.next == ComponentState::Idle ==> p.action == ComponentAction::ClearCsn)
            &&& (p.action matches ComponentAction::BeginBody { in_len } ==> in_len
                <= MAX_BODY_LEN && in_len == header_in && state is BodyStart && waited)
            &&& (p.next is HeaderComplete && !(state is HeaderComplete) ==> state is HeaderXfer
                && completed == Some(HEADER_LEN) && !(header_in == 0 && header_out == 0))
        }),
{
}

/// The Arbitrator releases GO whenever a poll gives up an exchange, never
/// takes a grant of more than `MAX_BODY_LEN` bytes for an incoming body,
/// and prepares a body only after a full header in which one side or the
/// other announced a frame.
pub proof fn lemma_arbitrator_exchange(
    state: ArbState,
    completed: Option<usize>,
    header_in: u32,
    header_out: u32,
)
    ensures
        ({
            let p = arbitrator_plan_spec(state, completed, header_in, header_out);
            &&& (state != ArbState::Idle && p.next == ArbState::Idle ==> p.action
                == ArbAction::ClearGo)
            &&& (p.action matches ArbAction::PrepareBody { in_len } ==> in_len <= MAX_BODY_LEN
                && in_len == header_in && state is HeaderXfer && completed == Some(HEADER_LEN)
                && !(header_in == 0 && header_out == 0))
        }),
{
}

/// An exchange that completes its body starts the next one at once: the
/// Arbitrator goes back to `HeaderStart` with a fresh window and step.
pub proof fn lemma_arbitrator_body_restarts(t_window: u32, amt: usize, header_in: u32, header_out: u32, now: u32)
    ensures
        ({
            let p = arbitrator_plan_spec(ArbState::BodyXfer { t_window }, Some(amt), header_in, header_out);
            &&& p.action == (ArbAction::FinishBody { amt })
            &&& p.stamp
            &&& arb_stamped_spec(p.next, now) == (ArbState::HeaderStart { t_window: now, t_step: now })
        }),
{
}

} // verus!
