//! One update cycle as a state machine: resolve the address, publish it,
//! report the outcome. The machine decides; its driver performs the requests
//! and hands the replies back as events.

use crate::config::{Config, ConfigView};
use crate::interfaces::{
    list_interfaces, local_address, select_local_address, wanted_name, Interface,
};
use crate::publisher::{
    judge_response, provider_verdict, publish_error_text, update_url, update_url_text,
    PublishError, PublishErrorView,
};
use crate::resolver::{
    address_from_body, external_address, method_choice, resolve_error_text, select_method,
    Ipv6Method, ResolveError, ResolveErrorView,
};
use vstd::prelude::*;
use vstd::string::*;

verus! {

/// The longest that the driver lets a request over the network take, in
/// seconds. A request that takes longer is reported as failed.
pub const REQUEST_TIMEOUT_SECS: u64 = 30;

/// Why a cycle failed.
#[derive(Debug, Clone, PartialEq, Eq)]
pub enum FailureReason {
    Resolve(ResolveError),
    Publish(PublishError),
}

/// A `FailureReason` with its texts as character sequences.
pub enum FailureReasonView {
    Resolve(ResolveErrorView),
    Publish(PublishErrorView),
}

impl View for FailureReason {
    type V = FailureReasonView;

    open spec fn view(&self) -> FailureReasonView {
        match *self {
            FailureReason::Resolve(e) => FailureReasonView::Resolve(e@),
            FailureReason::Publish(e) => FailureReasonView::Publish(e@),
        }
    }
}

/// How one cycle ended.
#[derive(Debug, Clone, PartialEq, Eq)]
pub enum UpdateOutcome {
    Success,
    Failure(FailureReason),
}

/// An `UpdateOutcome` with its texts as character sequences.
pub enum UpdateOutcomeView {
    Success,
    Failure(FailureReasonView),
}

impl View for UpdateOutcome {
    type V = UpdateOutcomeView;

    open spec fn view(&self) -> UpdateOutcomeView {
        match *self {
            UpdateOutcome::Success => UpdateOutcomeView::Success,
            UpdateOutcome::Failure(reason) => UpdateOutcomeView::Failure(reason@),
        }
    }
}

/// The outcome in words, for a log: neither token nor request is in it.
pub open spec fn outcome_text(outcome: UpdateOutcomeView) -> Seq<char> {
    match outcome {
        UpdateOutcomeView::Success => "DDNS update completed successfully"@,
        UpdateOutcomeView::Failure(FailureReasonView::Resolve(e)) => "Failed to update DDNS: "@
            + resolve_error_text(e),
        UpdateOutcomeView::Failure(FailureReasonView::Publish(e)) => "Failed to update DDNS: "@
            + publish_error_text(e),
    }
}

impl UpdateOutcome {
    /// Says the outcome in words, for a log.
    pub fn message(&self) -> (text: String)
        ensures
            text@ == outcome_text(self@),
    {
        match self {
            UpdateOutcome::Success => String::from_str("DDNS update completed successfully"),
            UpdateOutcome::Failure(reason) => {
                let mut text = String::from_str("Failed to update DDNS: ");
                let detail = match reason {
                    FailureReason::Resolve(e) => e.message(),
                    FailureReason::Publish(e) => e.message(),
                };
                text.append(detail.as_str());
                text
            },
        }
    }

    /// Tells whether the cycle published the address.
    pub fn is_success(&self) -> (b: bool)
        ensures
            b == (self@ is Success),
    {
        match self {
            UpdateOutcome::Success => true,
            UpdateOutcome::Failure(_) => false,
        }
    }
}

/// Where a cycle stands. Between ticks the machine is idle; while a cycle is
/// in flight it waits for the address or for the provider's reply. Nothing
/// of a finished cycle is kept.
#[derive(Debug, Clone, Copy, PartialEq, Eq, Structural)]
pub enum CycleState {
    Idle,
    Resolving(Ipv6Method),
    Publishing,
}

impl CycleState {
    /// A cycle is in flight.
    pub open spec fn is_running(self) -> bool {
        self != CycleState::Idle
    }
}

/// What the driver reports to the machine.
#[derive(Debug, Clone, PartialEq, Eq)]
pub enum CycleEvent {
    /// The schedule fired.
    Tick,
    /// The address service replied with this body.
    AddressBody(String),
    /// The system listed these interface entries, in this order.
    Interfaces(Vec<Interface>),
    /// The address could not be asked for; the text says why.
    ResolveFailed(String),
    /// The provider replied.
    ProviderReplied { status: u16, body: String },
    /// The provider could not be reached; the text says why.
    PublishFailed(String),
}

/// A `CycleEvent` with its texts as character sequences.
pub enum CycleEventView {
    Tick,
    AddressBody(Seq<char>),
    Interfaces(Seq<Interface>),
    ResolveFailed(Seq<char>),
    ProviderReplied { status: u16, body: Seq<char> },
    PublishFailed(Seq<char>),
}

impl View for CycleEvent {
    type V = CycleEventView;

    open spec fn view(&self) -> CycleEventView {
        match *self {
            CycleEvent::Tick => CycleEventView::Tick,
            CycleEvent::AddressBody(body) => CycleEventView::AddressBody(body@),
            CycleEvent::Interfaces(entries) => CycleEventView::Interfaces(entries@),
            CycleEvent::ResolveFailed(cause) => CycleEventView::ResolveFailed(cause@),
            CycleEvent::ProviderReplied { status, body } => CycleEventView::ProviderReplied {
                status,
                body: body@,
            },
            CycleEvent::PublishFailed(cause) => CycleEventView::PublishFailed(cause@),
        }
    }
}

/// What the machine asks of its driver.
#[derive(Debug, Clone, PartialEq, Eq)]
pub enum CycleAction {
    /// Get `url` and report the body. `fallback` is set where the configured
    /// strategy name was not a known one: the driver owes a warning.
    FetchAddress { url: String, fallback: bool },
    /// List the network interfaces and report them.
    ListInterfaces,
    /// Get `url` and report status and body. The URL holds the token and is
    /// for the request alone; `domain` and `address` are there for the log.
    SendUpdate { url: String, domain: String, address: String },
    /// The cycle is over.
    Finish(UpdateOutcome),
    /// The event was not awaited; nothing changes.
    Ignore,
}

/// A `CycleAction` with its texts as character sequences.
pub enum CycleActionView {
    FetchAddress { url: Seq<char>, fallback: bool },
    ListInterfaces,
    SendUpdate { url: Seq<char>, domain: Seq<char>, address: Seq<char> },
    Finish(UpdateOutcomeView),
    Ignore,
}

impl View for CycleAction {
    type V = CycleActionView;

    open spec fn view(&self) -> CycleActionView {
        match *self {
            CycleAction::FetchAddress { url, fallback } => CycleActionView::FetchAddress {
                url: url@,
                fallback,
            },
            CycleAction::ListInterfaces => CycleActionView::ListInterfaces,
            CycleAction::SendUpdate { url, domain, address } => CycleActionView::SendUpdate {
                url: url@,
                domain: domain@,
                address: address@,
            },
            CycleAction::Finish(outcome) => CycleActionView::Finish(outcome@),
            CycleAction::Ignore => CycleActionView::Ignore,
        }
    }
}

/// How a cycle ends, given what resolution and publication came to: the
/// resolve error where resolution failed, else the publish error where
/// publication failed, else success.
pub open spec fn cycle_outcome(
    resolved: Result<Seq<char>, ResolveErrorView>,
    published: Result<(), PublishErrorView>,
) -> UpdateOutcomeView {
    match resolved {
        Err(e) => UpdateOutcomeView::Failure(FailureReasonView::Resolve(e)),
        Ok(_) => match published {
            Ok(_) => UpdateOutcomeView::Success,
            Err(e) => UpdateOutcomeView::Failure(FailureReasonView::Publish(e)),
        },
    }
}

/// The start of a cycle: the configured strategy decides what is asked for.
pub open spec fn begin(config: ConfigView) -> (CycleState, CycleActionView) {
    let choice = method_choice(config.ipv6_method);
    match choice.method {
        Ipv6Method::External => (
            CycleState::Resolving(Ipv6Method::External),
            CycleActionView::FetchAddress {
                url: config.ip_service_url,
                fallback: !choice.recognised,
            },
        ),
        Ipv6Method::Local => (
            CycleState::Resolving(Ipv6Method::Local),
            CycleActionView::ListInterfaces,
        ),
    }
}

/// After resolution: publish the address, or end the cycle with the error.
pub open spec fn after_resolution(
    config: ConfigView,
    resolved: Result<Seq<char>, ResolveErrorView>,
) -> (CycleState, CycleActionView) {
    match resolved {
        Ok(address) => (
            CycleState::Publishing,
            CycleActionView::SendUpdate {
                url: update_url_text(config.duckdns_domain, config.duckdns_token, address),
                domain: config.duckdns_domain,
                address,
            },
        ),
        Err(e) => (
            CycleState::Idle,
            CycleActionView::Finish(UpdateOutcomeView::Failure(FailureReasonView::Resolve(e))),
        ),
    }
}

/// After publication: the cycle ends, one way or the other.
pub open spec fn after_publication(published: Result<(), PublishErrorView>) -> (
    CycleState,
    CycleActionView,
) {
    match published {
        Ok(_) => (CycleState::Idle, CycleActionView::Finish(UpdateOutcomeView::Success)),
        Err(e) => (
            CycleState::Idle,
            CycleActionView::Finish(UpdateOutcomeView::Failure(FailureReasonView::Publish(e))),
        ),
    }
}

/// The transition of the machine: the next state and what is asked of the
/// driver. An event that the state does not await changes nothing.
pub open spec fn next(config: ConfigView, state: CycleState, event: CycleEventView) -> (
    CycleState,
    CycleActionView,
) {
    match (state, event) {
        (CycleState::Idle, CycleEventView::Tick) => begin(config),
        (
            CycleState::Resolving(Ipv6Method::External),
            CycleEventView::AddressBody(body),
        ) => after_resolution(config, external_address(body)),
        (
            CycleState::Resolving(Ipv6Method::Local),
            CycleEventView::Interfaces(entries),
        ) => after_resolution(config, local_address(entries, config.hosts_interface)),
        (CycleState::Resolving(_), CycleEventView::ResolveFailed(cause)) => after_resolution(
            config,
            Err(ResolveErrorView::Transport(cause)),
        ),
        (
            CycleState::Publishing,
            CycleEventView::ProviderReplied { status, body },
        ) => after_publication(provider_verdict(status, body)),
        (CycleState::Publishing, CycleEventView::PublishFailed(cause)) => after_publication(
            Err(PublishErrorView::Transport(cause)),
        ),
        _ => (state, CycleActionView::Ignore),
    }
}

/// The machine run over a sequence of events: the state it ends in and the
/// actions it asked for, in order.
pub open spec fn run(config: ConfigView, state: CycleState, events: Seq<CycleEventView>) -> (
    CycleState,
    Seq<CycleActionView>,
)
    decreases events.len(),
{
    if events.len() == 0 {
        (state, Seq::<CycleActionView>::empty())
    } else {
        let before = run(config, state, events.drop_last());
        let step = next(config, before.0, events.last());
        (step.0, before.1.push(step.1))
    }
}

/// A finished cycle leaves the machine idle, and only a tick starts one.
pub proof fn lemma_finish_returns_to_idle(
    config: ConfigView,
    state: CycleState,
    event: CycleEventView,
)
    ensures
        next(config, state, event).1 is Finish ==> next(config, state, event).0 == CycleState::Idle,
        state == CycleState::Idle && !(event is Tick) ==> next(config, state, event) == (
            CycleState::Idle,
            CycleActionView::Ignore,
        ),
        state.is_running() && next(config, state, event).0.is_running() ==> !(next(
            config,
            state,
            event,
        ).1 is Finish),
{
}

/// Running over two sequences in a row is running over the first, then over
/// the second from where the first ended.
pub proof fn lemma_run_concat(
    config: ConfigView,
    state: CycleState,
    first: Seq<CycleEventView>,
    second: Seq<CycleEventView>,
)
    ensures
        run(config, state, first + second).0 == run(
            config,
            run(config, state, first).0,
            second,
        ).0,
        run(config, state, first + second).1 == run(config, state, first).1 + run(
            config,
            run(config, state, first).0,
            second,
        ).1,
    decreases second.len(),
{
    let mid = run(config, state, first).0;
    if second.len() == 0 {
        assert(first + second =~= first);
        assert(run(config, state, first).1 + Seq::<CycleActionView>::empty() =~= run(
            config,
            state,
            first,
        ).1);
    } else {
        lemma_run_concat(config, state, first, second.drop_last());
        assert((first + second).drop_last() =~= first + second.drop_last());
        assert((first + second).last() == second.last());
        let a = run(config, state, first).1;
        let b = run(config, mid, second.drop_last()).1;
        let step = next(config, run(config, mid, second.drop_last()).0, second.last());
        assert((a + b).push(step.1) =~= a + b.push(step.1));
    }
}

/// `s` taken `n` times in a row.
pub open spec fn repeated<A>(s: Seq<A>, n: nat) -> Seq<A>
    decreases n,
{
    if n == 0 {
        Seq::<A>::empty()
    } else {
        repeated(s, (n - 1) as nat) + s
    }
}

/// Cycles that are repeated with the same events ask for the same actions
/// and end with the same outcome, however often: the machine keeps nothing
/// from one cycle to the next.
pub proof fn lemma_cycle_repeats(config: ConfigView, events: Seq<CycleEventView>, n: nat)
    requires
        run(config, CycleState::Idle, events).0 == CycleState::Idle,
    ensures
        run(config, CycleState::Idle, repeated(events, n)).0 == CycleState::Idle,
        run(config, CycleState::Idle, repeated(events, n)).1 == repeated(
            run(config, CycleState::Idle, events).1,
            n,
        ),
    decreases n,
{
    if n > 0 {
        lemma_cycle_repeats(config, events, (n - 1) as nat);
        lemma_run_concat(config, CycleState::Idle, repeated(events, (n - 1) as nat), events);
    }
}

/// What a reply to the resolve request comes to. Of an event that is no
/// such reply nothing is meant.
pub open spec fn resolution_of(config: ConfigView, reply: CycleEventView) -> Result<
    Seq<char>,
    ResolveErrorView,
> {
    match reply {
        CycleEventView::AddressBody(body) => external_address(body),
        CycleEventView::Interfaces(entries) => local_address(entries, config.hosts_interface),
        CycleEventView::ResolveFailed(cause) => Err(ResolveErrorView::Transport(cause)),
        _ => Err(ResolveErrorView::NoAddressFound),
    }
}

/// What a reply to the update request comes to. Of an event that is no
/// such reply nothing is meant.
pub open spec fn publication_of(reply: CycleEventView) -> Result<(), PublishErrorView> {
    match reply {
        CycleEventView::ProviderReplied { status, body } => provider_verdict(status, body),
        CycleEventView::PublishFailed(cause) => Err(PublishErrorView::Transport(cause)),
        _ => Ok(()),
    }
}

/// A whole cycle, from the tick over the reply to the resolve request to the
/// reply to the update request, ends as `cycle_outcome` says, and leaves the
/// machine idle.
pub proof fn lemma_cycle_outcome(
    config: ConfigView,
    resolve_reply: CycleEventView,
    publish_reply: CycleEventView,
)
    requires
        match method_choice(config.ipv6_method).method {
            Ipv6Method::External => resolve_reply is AddressBody || resolve_reply is ResolveFailed,
            Ipv6Method::Local => resolve_reply is Interfaces || resolve_reply is ResolveFailed,
        },
        publish_reply is ProviderReplied || publish_reply is PublishFailed,
    ensures
        ({
            let resolved = resolution_of(config, resolve_reply);
            let published = publication_of(publish_reply);
            let events = if resolved is Ok {
                seq![CycleEventView::Tick, resolve_reply, publish_reply]
            } else {
                seq![CycleEventView::Tick, resolve_reply]
            };
            let end = run(config, CycleState::Idle, events);
            &&& end.0 == CycleState::Idle
            &&& end.1.last() == CycleActionView::Finish(cycle_outcome(resolved, published))
        }),
{
    let resolved = resolution_of(config, resolve_reply);
    let tick = seq![CycleEventView::Tick];
    let none = Seq::<CycleEventView>::empty();
    assert(tick.drop_last() =~= none);
    assert(run(config, CycleState::Idle, none).0 == CycleState::Idle);
    let after_tick = run(config, CycleState::Idle, tick);
    assert(after_tick.0 == next(config, CycleState::Idle, tick.last()).0);
    assert(after_tick.0 == begin(config).0);
    let two = seq![CycleEventView::Tick, resolve_reply];
    assert(two.drop_last() =~= tick);
    let after_two = run(config, CycleState::Idle, two);
    assert(after_two.0 == next(config, after_tick.0, resolve_reply).0);
    if resolved is Ok {
        let three = seq![CycleEventView::Tick, resolve_reply, publish_reply];
        assert(three.drop_last() =~= two);
    }
}

/// Goes on after resolution: to the update request, or to the end.
fn proceed_after_resolution(config: &Config, resolved: Result<String, ResolveError>) -> (r: (
    CycleState,
    CycleAction,
))
    ensures
        (r.0, r.1@) == after_resolution(config@, crate::resolver::resolution(resolved)),
{
    match resolved {
        Ok(address) => {
            let url = update_url(
                config.duckdns_domain.as_str(),
                config.duckdns_token.as_str(),
                address.as_str(),
            );
            (
                CycleState::Publishing,
                CycleAction::SendUpdate { url, domain: config.duckdns_domain.clone(), address },
            )
        },
        Err(e) => (CycleState::Idle, CycleAction::Finish(UpdateOutcome::Failure(FailureReason::Resolve(e)))),
    }
}

/// Ends the cycle after publication.
fn proceed_after_publication(published: Result<(), PublishError>) -> (r: (CycleState, CycleAction))
    ensures
        (r.0, r.1@) == after_publication(crate::publisher::publication(published)),
{
    match published {
        Ok(_) => (CycleState::Idle, CycleAction::Finish(UpdateOutcome::Success)),
        Err(e) => (CycleState::Idle, CycleAction::Finish(UpdateOutcome::Failure(FailureReason::Publish(e)))),
    }
}

/// Takes one event: gives the next state and what the driver is to do.
pub fn advance(config: &Config, state: CycleState, event: CycleEvent) -> (r: (
    CycleState,
    CycleAction,
))
    ensures
        (r.0, r.1@) == next(config@, state, event@),
{
    match (state, event) {
        (CycleState::Idle, CycleEvent::Tick) => {
            let choice = select_method(config.ipv6_method.as_str());
            match choice.method {
                Ipv6Method::External => (
                    CycleState::Resolving(Ipv6Method::External),
                    CycleAction::FetchAddress {
                        url: config.ip_service_url.clone(),
                        fallback: !choice.recognised,
                    },
                ),
                Ipv6Method::Local => (
                    CycleState::Resolving(Ipv6Method::Local),
                    CycleAction::ListInterfaces,
                ),
            }
        },
        (CycleState::Resolving(Ipv6Method::External), CycleEvent::AddressBody(body)) => {
            proceed_after_resolution(config, address_from_body(body.as_str()))
        },
        (CycleState::Resolving(Ipv6Method::Local), CycleEvent::Interfaces(entries)) => {
            proceed_after_resolution(
                config,
                select_local_address(&entries, config.hosts_interface.as_ref()),
            )
        },
        (CycleState::Resolving(_), CycleEvent::ResolveFailed(cause)) => {
            proceed_after_resolution(config, Err(ResolveError::Transport(cause)))
        },
        (CycleState::Publishing, CycleEvent::ProviderReplied { status, body }) => {
            proceed_after_publication(judge_response(status, body))
        },
        (CycleState::Publishing, CycleEvent::PublishFailed(cause)) => {
            proceed_after_publication(Err(PublishError::Transport(cause)))
        },
        (state, _) => (state, CycleAction::Ignore),
    }
}

/// Takes one event, as `advance` does, and lists the network interfaces
/// itself where the machine asks for that: the driver is left with the
/// requests over the network.
pub fn step(config: &Config, state: CycleState, event: CycleEvent) -> (r: (CycleState, CycleAction))
    ensures
        !(next(config@, state, event@).1 is ListInterfaces) ==> (r.0, r.1@) == next(
            config@,
            state,
            event@,
        ),
        next(config@, state, event@).1 is ListInterfaces ==> exists|reply: CycleEventView|
            (reply is Interfaces || reply is ResolveFailed) && (r.0, r.1@) == #[trigger] next(
                config@,
                next(config@, state, event@).0,
                reply,
            ),
        !(r.1@ is ListInterfaces),
{
    let ghost first = next(config@, state, event@);
    let (waiting, action) = advance(config, state, event);
    match action {
        CycleAction::ListInterfaces => {
            let reply = match list_interfaces() {
                Ok(entries) => CycleEvent::Interfaces(entries),
                Err(cause) => CycleEvent::ResolveFailed(cause),
            };
            let ghost seen = reply@;
            let r = advance(config, waiting, reply);
            proof {
                assert(seen is Interfaces || seen is ResolveFailed);
                assert(waiting == first.0);
                assert((r.0, r.1@) == next(config@, first.0, seen));
            }
            r
        },
        other => (waiting, other),
    }
}

} // verus!
