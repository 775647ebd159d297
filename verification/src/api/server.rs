use vstd::prelude::*;
use vstd::string::*;

use crate::event_bus::{Event, EventView};
use crate::orchestration::scheduler::{Task, TaskScheduler};

verus! {

/// The priority of a task whose request names none.
pub const DEFAULT_TASK_PRIORITY: u8 = 5;

/// The priority that a request asks for: the requested number cut to its
/// low eight bits (as a cast to `u8` does), or the default priority.
pub open spec fn requested_priority(priority: Option<u64>) -> u8 {
    match priority {
        Some(p) => (p % 256) as u8,
        None => DEFAULT_TASK_PRIORITY,
    }
}

/// The priority for a request that carries `priority`.
pub fn priority_from_request(priority: Option<u64>) -> (level: u8)
    ensures
        level == requested_priority(priority),
{
    match priority {
        Some(p) => {
            let low = p % 256;
            low as u8
        },
        None => DEFAULT_TASK_PRIORITY,
    }
}

/// A text that may be absent, taken by its characters.
pub open spec fn opt_view(text: Option<String>) -> Option<Seq<char>> {
    match text {
        Some(t) => Some(t@),
        None => None,
    }
}

/// The description that a request asks for, or `default` when it names none.
pub open spec fn requested_description(description: Option<Seq<char>>, default: Seq<char>) -> Seq<char> {
    match description {
        Some(d) => d,
        None => default,
    }
}

/// `task` is the pending task queued by a request for `description` and
/// `priority` whose description defaults to `default`, and `TaskCreated` for
/// it is the one event published.
pub open spec fn queued_as_requested(
    before: Seq<Task>,
    after: Seq<Task>,
    events_before: Seq<EventView>,
    events_after: Seq<EventView>,
    task: Task,
    description: Option<Seq<char>>,
    priority: Option<u64>,
    default: Seq<char>,
) -> bool {
    &&& after == before.push(task)
    &&& events_after == events_before.push(EventView::TaskCreated { task_id: task.id@ })
    &&& task.id@.len() == 26
    &&& task.description@ == requested_description(description, default)
    &&& task.priority == requested_priority(priority)
    &&& task.status@ == "pending"@
}

/// Queues a new pending task for `description` and `priority`, the
/// description defaulting to `default`, and returns it.
fn queue_requested_task(
    scheduler: &mut TaskScheduler,
    description: Option<String>,
    priority: Option<u64>,
    default: &str,
) -> (task_id: String)
    ensures
        final(scheduler)@.len() == old(scheduler)@.len() + 1,
        final(scheduler)@.last().id == task_id,
        final(scheduler)@.last().description@ == match description {
            Some(d) => d@,
            None => default@,
        },
        final(scheduler)@.last().priority as int == match priority {
            Some(p) => p % 256,
            None => 5,
        },
        final(scheduler).event_bus().continues(&old(scheduler).event_bus()),
        exists|task: Task|
            #[trigger] queued_as_requested(
                old(scheduler)@,
                final(scheduler)@,
                old(scheduler).published_events(),
                final(scheduler).published_events(),
                task,
                opt_view(description),
                priority,
                default@,
            ) && task.id == task_id,
{
    let ghost requested = opt_view(description);
    let text = match description {
        Some(d) => d,
        None => default.to_owned(),
    };
    let level = priority_from_request(priority);
    let task = Task::new(text, level);
    let task_id = task.id.clone();
    let ghost queued = task;
    scheduler.add_task(task);
    assert(queued_as_requested(
        old(scheduler)@,
        scheduler@,
        old(scheduler).published_events(),
        scheduler.published_events(),
        queued,
        requested,
        priority,
        default@,
    ));
    task_id
}

/// Creates a task from a REST request, whose fields are absent where the
/// request's JSON lacks them or holds a value of another type, queues it,
/// publishes `TaskCreated` for it and returns its identifier. A request
/// without description gets `Unnamed task`; one without priority gets the
/// default priority.
pub fn create_task(
    scheduler: &mut TaskScheduler,
    description: Option<String>,
    priority: Option<u64>,
) -> (task_id: String)
    ensures
        final(scheduler)@.len() == old(scheduler)@.len() + 1,
        final(scheduler)@.last().id == task_id,
        final(scheduler)@.last().description@ == match description {
            Some(d) => d@,
            None => "Unnamed task"@,
        },
        final(scheduler)@.last().priority as int == match priority {
            Some(p) => p % 256,
            None => 5,
        },
        final(scheduler).event_bus().continues(&old(scheduler).event_bus()),
        exists|task: Task|
            #[trigger] queued_as_requested(
                old(scheduler)@,
                final(scheduler)@,
                old(scheduler).published_events(),
                final(scheduler).published_events(),
                task,
                opt_view(description),
                priority,
                "Unnamed task"@,
            ) && task.id == task_id,
{
    queue_requested_task(scheduler, description, priority, "Unnamed task")
}

/// What became of a command from the dashboard.
#[derive(Debug, PartialEq, Eq)]
pub enum CommandOutcome {
    /// A `create_task` command queued the task with this identifier.
    TaskCreated { task_id: String },
    /// The command named an action that the orchestrator does not know.
    UnknownAction { action: String },
    /// The message was not JSON or had no string `action`: nothing was done.
    Ignored,
}

/// What a command asking for `action` with `description` and `priority` does
/// to a scheduler holding `before` that has published `events_before`.
pub open spec fn command_effect(
    action: Option<Seq<char>>,
    description: Option<Seq<char>>,
    priority: Option<u64>,
    before: Seq<Task>,
    after: Seq<Task>,
    events_before: Seq<EventView>,
    events_after: Seq<EventView>,
    outcome: CommandOutcome,
) -> bool {
    match action {
        None => outcome == CommandOutcome::Ignored && after == before && events_after == events_before,
        Some(a) => if a == "create_task"@ {
            exists|task: Task|
                #[trigger] queued_as_requested(
                    before,
                    after,
                    events_before,
                    events_after,
                    task,
                    description,
                    priority,
                    "Unnamed task from WS"@,
                ) && outcome == (CommandOutcome::TaskCreated { task_id: task.id })
        } else {
            (outcome matches CommandOutcome::UnknownAction { action } && action@ == a)
                && after == before && events_after == events_before
        },
    }
}

/// Carries out a dashboard command whose fields are already taken out of its
/// message: `action`, `description` and `priority`, absent where the message
/// lacks them, holds another type, or is not JSON. The action `create_task`
/// queues a task, described `Unnamed task from WS` when the message names no
/// description; any other action changes nothing.
pub fn run_command(
    scheduler: &mut TaskScheduler,
    action: Option<String>,
    description: Option<String>,
    priority: Option<u64>,
) -> (outcome: CommandOutcome)
    ensures
        (action matches Some(a) && a@ == "create_task"@) ==> {
            &&& final(scheduler)@.len() == old(scheduler)@.len() + 1
            &&& outcome == (CommandOutcome::TaskCreated { task_id: final(scheduler)@.last().id })
            &&& final(scheduler)@.last().description@ == match description {
                Some(d) => d@,
                None => "Unnamed task from WS"@,
            }
            &&& final(scheduler)@.last().priority as int == match priority {
                Some(p) => p % 256,
                None => 5,
            }
        },
        !(action matches Some(a) && a@ == "create_task"@) ==> final(scheduler)@ == old(scheduler)@,
        final(scheduler).event_bus().continues(&old(scheduler).event_bus()),
        command_effect(
            opt_view(action),
            opt_view(description),
            priority,
            old(scheduler)@,
            final(scheduler)@,
            old(scheduler).published_events(),
            final(scheduler).published_events(),
            outcome,
        ),
{
    match action {
        None => CommandOutcome::Ignored,
        Some(a) => {
            let create = String::from_str("create_task");
            if a == create {
                let task_id = queue_requested_task(scheduler, description, priority, "Unnamed task from WS");
                CommandOutcome::TaskCreated { task_id }
            } else {
                CommandOutcome::UnknownAction { action: a }
            }
        },
    }
}

/// The string that `serde_json` finds under `key` in the JSON text `text`:
/// present when the text parses as JSON, is an object with a field `key`,
/// and that field is a string.
pub uninterp spec fn json_str_field_of(text: Seq<char>, key: Seq<char>) -> Option<Seq<char>>;

/// The number that `serde_json` finds under `key` in the JSON text `text`:
/// present when the text parses as JSON, is an object with a field `key`,
/// and that field is an integer that fits in a `u64`.
pub uninterp spec fn json_u64_field_of(text: Seq<char>, key: Seq<char>) -> Option<u64>;

/// Parses `text` with `serde_json::from_str` into a JSON value and takes its
/// field `key` (`Value::get`) where that is a string (`Value::as_str`). The
/// result is named by `json_str_field_of`, a function of the text and the
/// key alone.
#[verifier::external_body]
fn json_str_field(text: &str, key: &str) -> (field: Option<String>)
    ensures
        opt_view(field) == json_str_field_of(text@, key@),
{
    match serde_json::from_str::<serde_json::Value>(text) {
        Ok(v) => v.get(key).and_then(serde_json::Value::as_str).map(String::from),
        Err(_) => None,
    }
}

/// Parses `text` with `serde_json::from_str` into a JSON value and takes its
/// field `key` (`Value::get`) where that is a `u64` (`Value::as_u64`). The
/// result is named by `json_u64_field_of`, a function of the text and the key
/// alone.
#[verifier::external_body]
fn json_u64_field(text: &str, key: &str) -> (field: Option<u64>)
    ensures
        field == json_u64_field_of(text@, key@),
{
    match serde_json::from_str::<serde_json::Value>(text) {
        Ok(v) => v.get(key).and_then(serde_json::Value::as_u64),
        Err(_) => None,
    }
}

/// The fields of a request or command that the orchestrator reads from its
/// JSON text: `action` and `description` as strings, `priority` as a `u64`.
pub open spec fn command_fields(text: Seq<char>) -> (Option<Seq<char>>, Option<Seq<char>>, Option<u64>) {
    (
        json_str_field_of(text, "action"@),
        json_str_field_of(text, "description"@),
        json_u64_field_of(text, "priority"@),
    )
}

/// Creates a task from the JSON body `body` of a REST request, as
/// `create_task` does with the body's `description` (when a string) and
/// `priority` (when a `u64`), and returns its identifier.
pub fn create_task_from_json(scheduler: &mut TaskScheduler, body: &str) -> (task_id: String)
    ensures
        final(scheduler)@.len() == old(scheduler)@.len() + 1,
        final(scheduler)@.last().id == task_id,
        final(scheduler)@.last().description@ == match json_str_field_of(body@, "description"@) {
            Some(d) => d,
            None => "Unnamed task"@,
        },
        final(scheduler)@.last().priority as int == match json_u64_field_of(body@, "priority"@) {
            Some(p) => p % 256,
            None => 5,
        },
        final(scheduler).event_bus().continues(&old(scheduler).event_bus()),
        exists|task: Task|
            #[trigger] queued_as_requested(
                old(scheduler)@,
                final(scheduler)@,
                old(scheduler).published_events(),
                final(scheduler).published_events(),
                task,
                command_fields(body@).1,
                command_fields(body@).2,
                "Unnamed task"@,
            ) && task.id == task_id,
{
    let description = json_str_field(body, "description");
    let priority = json_u64_field(body, "priority");
    assert(opt_view(description) == command_fields(body@).1);
    assert(priority == command_fields(body@).2);
    create_task(scheduler, description, priority)
}

/// Carries out a command that the dashboard sent over the WebSocket as the
/// text `text`: its fields are read as `command_fields` says, then acted on
/// as `run_command` does.
pub fn handle_incoming_command(scheduler: &mut TaskScheduler, text: &str) -> (outcome: CommandOutcome)
    ensures
        json_str_field_of(text@, "action"@) == Some("create_task"@) ==> {
            &&& final(scheduler)@.len() == old(scheduler)@.len() + 1
            &&& outcome == (CommandOutcome::TaskCreated { task_id: final(scheduler)@.last().id })
            &&& final(scheduler)@.last().description@ == match json_str_field_of(text@, "description"@) {
                Some(d) => d,
                None => "Unnamed task from WS"@,
            }
            &&& final(scheduler)@.last().priority as int == match json_u64_field_of(text@, "priority"@) {
                Some(p) => p % 256,
                None => 5,
            }
        },
        json_str_field_of(text@, "action"@) != Some("create_task"@) ==> final(scheduler)@ == old(scheduler)@,
        final(scheduler).event_bus().continues(&old(scheduler).event_bus()),
        command_effect(
            command_fields(text@).0,
            command_fields(text@).1,
            command_fields(text@).2,
            old(scheduler)@,
            final(scheduler)@,
            old(scheduler).published_events(),
            final(scheduler).published_events(),
            outcome,
        ),
{
    let action = json_str_field(text, "action");
    let description = json_str_field(text, "description");
    let priority = json_u64_field(text, "priority");
    run_command(scheduler, action, description, priority)
}

/// A request's own description is kept whole and its priority is its low
/// eight bits; only a missing field takes the default.
pub proof fn lemma_request_fields_kept(d: Seq<char>, default: Seq<char>, p: u64)
    ensures
        requested_description(Some(d), default) == d,
        requested_description(None, default) == default,
        requested_priority(Some(p)) as int == p % 256,
        requested_priority(None) == 5,
{
}

/// A queued request is one new task at the end of the queue, carrying the
/// request's description and priority, with `TaskCreated` for it published.
pub proof fn lemma_queued_request_is_last_task(
    before: Seq<Task>,
    after: Seq<Task>,
    events_before: Seq<EventView>,
    events_after: Seq<EventView>,
    task: Task,
    description: Option<Seq<char>>,
    priority: Option<u64>,
    default: Seq<char>,
)
    requires
        queued_as_requested(
            before,
            after,
            events_before,
            events_after,
            task,
            description,
            priority,
            default,
        ),
    ensures
        after.len() == before.len() + 1,
        after.last() == task,
        after.drop_last() == before,
        description matches Some(d) ==> task.description@ == d,
        description is None ==> task.description@ == default,
        priority matches Some(p) ==> task.priority as int == p % 256,
        priority is None ==> task.priority == 5,
        events_after == events_before.push(EventView::TaskCreated { task_id: task.id@ }),
{
    assert(before.push(task).drop_last() =~= before);
}

/// A `create_task` command queues exactly one task, whose description is the
/// command's description whenever it has one, whatever its priority field,
/// and reports that task's identifier; any other action queues nothing.
pub proof fn lemma_create_command_effect(
    action: Option<Seq<char>>,
    description: Option<Seq<char>>,
    priority: Option<u64>,
    before: Seq<Task>,
    after: Seq<Task>,
    events_before: Seq<EventView>,
    events_after: Seq<EventView>,
    outcome: CommandOutcome,
)
    requires
        command_effect(action, description, priority, before, after, events_before, events_after, outcome),
    ensures
        action == Some("create_task"@) ==> {
            &&& after.len() == before.len() + 1
            &&& after.drop_last() == before
            &&& outcome == (CommandOutcome::TaskCreated { task_id: after.last().id })
            &&& (description matches Some(d) ==> after.last().description@ == d)
            &&& (description is None ==> after.last().description@ == "Unnamed task from WS"@)
            &&& (priority matches Some(p) ==> after.last().priority as int == p % 256)
            &&& (priority is None ==> after.last().priority == 5)
            &&& events_after == events_before.push(EventView::TaskCreated { task_id: after.last().id@ })
        },
        action != Some("create_task"@) ==> after == before && events_after == events_before
            && !(outcome is TaskCreated),
{
    if action == Some("create_task"@) {
        let task = choose|task: Task|
            #[trigger] queued_as_requested(
                before,
                after,
                events_before,
                events_after,
                task,
                description,
                priority,
                "Unnamed task from WS"@,
            ) && outcome == (CommandOutcome::TaskCreated { task_id: task.id });
        lemma_queued_request_is_last_task(
            before,
            after,
            events_before,
            events_after,
            task,
            description,
            priority,
            "Unnamed task from WS"@,
        );
    }
}

/// What a WebSocket session with the dashboard has just observed.
#[derive(Debug)]
pub enum SocketInput {
    /// The event bus delivered an event.
    BusEvent(Event),
    /// The event bus failed: it closed, or this session lagged behind.
    BusFailed,
    /// Sending a forwarded event to the client failed.
    SendFailed,
    /// The client sent a text message.
    ClientText(String),
    /// The client sent a close frame.
    ClientClosed,
    /// The client's stream ended.
    ClientGone,
    /// The client sent any other frame, or its stream reported an error.
    ClientOther,
}

/// What a WebSocket session does next.
#[derive(Debug)]
pub enum SocketAction {
    /// Serialise the event and send it to the client.
    Forward(Event),
    /// Carry out the client's text as a dashboard command.
    RunCommand(String),
    /// Keep waiting.
    Continue,
    /// End the session.
    Disconnect,
}

/// What a dashboard session does on `input`.
pub open spec fn socket_action(input: SocketInput) -> SocketAction {
    match input {
        SocketInput::BusEvent(e) => SocketAction::Forward(e),
        SocketInput::ClientText(t) => SocketAction::RunCommand(t),
        SocketInput::ClientOther => SocketAction::Continue,
        _ => SocketAction::Disconnect,
    }
}

/// The command texts that a session observing `inputs` in turn runs, in
/// order: those of the client's texts that come before the session ends.
pub open spec fn session_commands(inputs: Seq<SocketInput>) -> Seq<String>
    decreases inputs.len(),
{
    if inputs.len() == 0 {
        seq![]
    } else {
        match socket_action(inputs[0]) {
            SocketAction::Disconnect => seq![],
            SocketAction::RunCommand(t) => seq![t] + session_commands(inputs.drop_first()),
            _ => session_commands(inputs.drop_first()),
        }
    }
}

/// The texts that the client sent among `inputs`, in order.
pub open spec fn client_texts(inputs: Seq<SocketInput>) -> Seq<String>
    decreases inputs.len(),
{
    if inputs.len() == 0 {
        seq![]
    } else {
        match inputs[0] {
            SocketInput::ClientText(t) => seq![t] + client_texts(inputs.drop_first()),
            _ => client_texts(inputs.drop_first()),
        }
    }
}

/// A session in which the client sends texts and other frames, the bus
/// delivers events that are forwarded without failure, and the client then
/// closes, runs exactly the client's texts as commands, in the order sent;
/// the other frames and the events run nothing, and nothing after the close
/// is run.
pub proof fn lemma_session_runs_texts_in_order(inputs: Seq<SocketInput>, after: Seq<SocketInput>)
    requires
        inputs.len() > 0,
        inputs.last() is ClientClosed || inputs.last() is ClientGone,
        forall|i: int|
            0 <= i < inputs.len() - 1 ==> (#[trigger] inputs[i] is ClientText || inputs[i] is ClientOther
                || inputs[i] is BusEvent),
    ensures
        session_commands(inputs + after) == client_texts(inputs),
    decreases inputs.len(),
{
    let all = inputs + after;
    assert(all[0] == inputs[0]);
    assert(all.drop_first() =~= inputs.drop_first() + after);
    if inputs.len() > 1 {
        let rest = inputs.drop_first();
        assert(rest.last() == inputs.last());
        assert forall|i: int| 0 <= i < rest.len() - 1 implies (#[trigger] rest[i] is ClientText
            || rest[i] is ClientOther || rest[i] is BusEvent) by {
            assert(rest[i] == inputs[i + 1]);
        }
        lemma_session_runs_texts_in_order(rest, after);
        assert(inputs[0] is ClientText || inputs[0] is ClientOther || inputs[0] is BusEvent);
    } else {
        assert(client_texts(inputs.drop_first()) =~= Seq::<String>::empty());
    }
}

/// The step of a dashboard session: events of the bus go to the client,
/// texts of the client are run as commands, and a failure of the bus, of a
/// send, or the end of the client's stream ends the session.
pub fn handle_socket_input(input: SocketInput) -> (action: SocketAction)
    ensures
        action == socket_action(input),
        match input {
            SocketInput::BusEvent(e) => action == SocketAction::Forward(e),
            SocketInput::ClientText(t) => action == SocketAction::RunCommand(t),
            SocketInput::ClientOther => action == SocketAction::Continue,
            _ => action == SocketAction::Disconnect,
        },
{
    match input {
        SocketInput::BusEvent(e) => SocketAction::Forward(e),
        SocketInput::ClientText(t) => SocketAction::RunCommand(t),
        SocketInput::ClientOther => SocketAction::Continue,
        SocketInput::BusFailed => SocketAction::Disconnect,
        SocketInput::SendFailed => SocketAction::Disconnect,
        SocketInput::ClientClosed => SocketAction::Disconnect,
        SocketInput::ClientGone => SocketAction::Disconnect,
    }
}

} // verus!
