//! Decisions of the asynchronous command plane: what the Warp Core publishes
//! when it comes online and how it answers each owner command.

use vstd::prelude::*;

use crate::crew::{
    assign_error_text, assignment, law_assignment_keeps_manifest_valid, leader_position,
    leader_problem, lemma_leader_position, manifest_problem_text, manifest_valid, AssignModelError, CrewId,
    CrewManifest, LeaderView, ModelAssignment,
};

verus! {

/// An owner command sent to the Warp Core.
#[derive(Debug)]
pub enum Command {
    AssignLeaderModel { leader_id: CrewId, model: ModelAssignment },
    RequestSnapshot,
    ShutDown,
}

/// An event as the contracts see it.
pub enum EventView {
    Online(Seq<LeaderView>),
    CrewUpdated(Seq<LeaderView>),
    CommandRejected(Seq<char>),
    Offline,
}

/// An event published by the Warp Core to the bridge.
#[derive(Debug)]
pub enum BridgeEvent {
    Online(CrewManifest),
    CrewUpdated(CrewManifest),
    CommandRejected(String),
    Offline,
}

impl View for BridgeEvent {
    type V = EventView;

    open spec fn view(&self) -> EventView {
        match self {
            BridgeEvent::Online(m) => EventView::Online(m@),
            BridgeEvent::CrewUpdated(m) => EventView::CrewUpdated(m@),
            BridgeEvent::CommandRejected(t) => EventView::CommandRejected(t@),
            BridgeEvent::Offline => EventView::Offline,
        }
    }
}

/// Why a command could not be queued.
#[derive(Debug, PartialEq, Eq)]
pub enum DispatchError {
    Busy,
    Offline,
}

impl DispatchError {
    /// The human-readable report of this error.
    pub fn message(&self) -> (r: String)
        ensures
            r@ == (match self {
                DispatchError::Busy => "the command queue is at capacity"@,
                DispatchError::Offline => "the Warp Core is offline"@,
            }),
    {
        match self {
            DispatchError::Busy => String::from_str("the command queue is at capacity"),
            DispatchError::Offline => String::from_str("the Warp Core is offline"),
        }
    }
}

/// The report of a refused model assignment, from the refusal's own report.
pub open spec fn rejection_text(refusal: Seq<char>) -> Seq<char> {
    "model assignment rejected: "@ + refusal
}

pub fn format_assignment_error(error: AssignModelError) -> (r: String)
    ensures
        r@ == rejection_text(assign_error_text(error)),
{
    let mut r = String::from_str("model assignment rejected: ");
    let m = error.message();
    r.append(m.as_str());
    r
}

/// Leader `i` holds the first problem of the crew `ls`.
pub open spec fn first_problem_at(ls: Seq<LeaderView>, i: int) -> bool {
    &&& 0 <= i < ls.len()
    &&& leader_problem(ls, i) is Some
    &&& forall|j: int| 0 <= j < i ==> leader_problem(ls, j) is None
}

/// Comes online with `manifest`: returns the events to publish, in order, and
/// whether the Warp Core then serves commands.
pub fn start_warp_core(manifest: &CrewManifest) -> (r: (Vec<BridgeEvent>, bool))
    ensures
        r.1 == manifest_valid(manifest@),
        manifest_valid(manifest@) ==> r.0@.map_values(|e: BridgeEvent| e@) == seq![
            EventView::Online(manifest@),
        ],
        !manifest_valid(manifest@) ==> exists|i: int|
            first_problem_at(manifest@, i) && r.0@.map_values(|e: BridgeEvent| e@) == seq![
                EventView::CommandRejected(manifest_problem_text(leader_problem(manifest@, i)->0)),
                EventView::Offline,
            ],
{
    let mut events: Vec<BridgeEvent> = Vec::new();
    match manifest.validate() {
        Err(error) => {
            let text = error.message();
            events.push(BridgeEvent::CommandRejected(text));
            events.push(BridgeEvent::Offline);
            assert(events@.map_values(|e: BridgeEvent| e@) =~= seq![
                EventView::CommandRejected(manifest_problem_text(error@)),
                EventView::Offline,
            ]);
            proof {
                let i = choose|i: int|
                    0 <= i < manifest@.len() && leader_problem(manifest@, i) == Some(error@)
                        && forall|j: int| 0 <= j < i ==> leader_problem(manifest@, j) is None;
                assert(first_problem_at(manifest@, i));
            }
            (events, false)
        },
        Ok(()) => {
            events.push(BridgeEvent::Online(manifest.clone()));
            assert(events@.map_values(|e: BridgeEvent| e@) =~= seq![EventView::Online(manifest@)]);
            (events, true)
        },
    }
}

/// Answering `command` with crew `ls`: the crew afterwards, the event to
/// publish, and whether the Warp Core keeps serving commands.
pub open spec fn command_step(ls: Seq<LeaderView>, command: Command) -> (Seq<LeaderView>, EventView, bool) {
    match command {
        Command::AssignLeaderModel { leader_id, model } => match assignment(ls, leader_id.0@, model@) {
            Ok(ns) => (ns, EventView::CrewUpdated(ns), true),
            Err(t) => (ls, EventView::CommandRejected(rejection_text(t)), true),
        },
        Command::RequestSnapshot => (ls, EventView::CrewUpdated(ls), true),
        Command::ShutDown => (ls, EventView::Offline, false),
    }
}

/// Serving `commands` in order from crew `ls`: the events published, one per
/// command up to and including the first `ShutDown`, and the crew afterwards.
pub open spec fn session(ls: Seq<LeaderView>, commands: Seq<Command>) -> (Seq<EventView>, Seq<LeaderView>)
    decreases commands.len(),
{
    if commands.len() == 0 {
        (Seq::empty(), ls)
    } else {
        let (ns, e, serving) = command_step(ls, commands[0]);
        if serving {
            let (rest, last) = session(ns, commands.drop_first());
            (seq![e] + rest, last)
        } else {
            (seq![e], ns)
        }
    }
}

/// Answers one command: updates the crew, returns the event to publish and
/// whether the Warp Core keeps serving commands.
pub fn handle_command(manifest: &mut CrewManifest, command: Command) -> (r: (BridgeEvent, bool))
    ensures
        (final(manifest)@, r.0@, r.1) == command_step(old(manifest)@, command),
        match command {
            Command::AssignLeaderModel { leader_id, model } => {
                &&& r.1
                &&& match assignment(old(manifest)@, leader_id.0@, model@) {
                    Ok(ns) => final(manifest)@ == ns && r.0@ == EventView::CrewUpdated(ns),
                    Err(t) => *final(manifest) == *old(manifest) && r.0@
                        == EventView::CommandRejected(rejection_text(t)),
                }
            },
            Command::RequestSnapshot => {
                &&& r.1
                &&& *final(manifest) == *old(manifest)
                &&& r.0@ == EventView::CrewUpdated(old(manifest)@)
            },
            Command::ShutDown => {
                &&& !r.1
                &&& *final(manifest) == *old(manifest)
                &&& r.0@ == EventView::Offline
            },
        },
{
    match command {
        Command::AssignLeaderModel { leader_id, model } => {
            match manifest.assign_model(&leader_id, model) {
                Ok(()) => (BridgeEvent::CrewUpdated(manifest.clone()), true),
                Err(error) => (BridgeEvent::CommandRejected(format_assignment_error(error)), true),
            }
        },
        Command::RequestSnapshot => (BridgeEvent::CrewUpdated(manifest.clone()), true),
        Command::ShutDown => (BridgeEvent::Offline, false),
    }
}

} // verus!

verus! {

/// A valid crew stays valid through any command: every crew published
/// afterwards passes validation, and `ShutDown` is the only command that
/// stops the Warp Core.
pub proof fn law_command_keeps_crew_valid(ls: Seq<LeaderView>, command: Command)
    requires
        manifest_valid(ls),
    ensures
        ({
            let (ns, e, serving) = command_step(ls, command);
            &&& manifest_valid(ns)
            &&& e matches EventView::CrewUpdated(m) ==> m == ns
            &&& (e is Offline <==> command is ShutDown)
            &&& (serving <==> !(command is ShutDown))
        }),
{
    if let Command::AssignLeaderModel { leader_id, model } = command {
        lemma_leader_position(ls, leader_id.0@);
        if let Ok(ns) = assignment(ls, leader_id.0@, model@) {
            let i = leader_position(ls, leader_id.0@)->0;
            law_assignment_keeps_manifest_valid(ls, i, model@);
        }
    }
}

/// Serving any sequence of commands from a valid crew, as the Warp Core does
/// after coming online with it: there is one event per command, in order, up
/// to and including the first `ShutDown`, which alone publishes `Offline`
/// and after which nothing is published; every crew published along the way,
/// and the crew at the end, passes validation.
pub proof fn law_session_keeps_crew_valid(ls: Seq<LeaderView>, commands: Seq<Command>)
    requires
        manifest_valid(ls),
    ensures
        ({
            let (events, last) = session(ls, commands);
            &&& manifest_valid(last)
            &&& events.len() <= commands.len()
            &&& events.len() == commands.len() || (events.len() > 0 && events.last() is Offline)
            &&& forall|k: int| 0 <= k < events.len() ==> (#[trigger] events[k] is Offline <==> commands[k] is ShutDown)
            &&& forall|k: int| 0 <= k < events.len() ==> (#[trigger] events[k] matches EventView::CrewUpdated(m) ==> manifest_valid(m))
        }),
    decreases commands.len(),
{
    if commands.len() > 0 {
        let c = commands[0];
        law_command_keeps_crew_valid(ls, c);
        let (ns, e, serving) = command_step(ls, c);
        if serving {
            let tail = commands.drop_first();
            law_session_keeps_crew_valid(ns, tail);
            let (rest, last) = session(ns, tail);
            let events = seq![e] + rest;
            assert(session(ls, commands).0 == events);
            assert forall|k: int| 0 <= k < events.len() implies (#[trigger] events[k] is Offline <==> commands[k] is ShutDown) by {
                if k > 0 {
                    assert(events[k] == rest[k - 1]);
                    assert(commands[k] == tail[k - 1]);
                }
            }
            assert forall|k: int| 0 <= k < events.len() implies (#[trigger] events[k] matches EventView::CrewUpdated(m) ==> manifest_valid(m)) by {
                if k > 0 {
                    assert(events[k] == rest[k - 1]);
                }
            }
            if rest.len() > 0 {
                assert(events.last() == rest.last());
            }
        }
    }
}

} // verus!
