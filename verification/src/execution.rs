//! The course of a trial in its container: which step follows which, when a
//! trial fails, and when it has a score.

use vstd::prelude::*;
use crate::double::Double;
use crate::lines;
use crate::text;
use crate::trial;
use crate::trial::RewardError;

verus! {

// ---------------------------------------------------------------------------
// Commands

/// The command that prepares a container whose network is off.
pub const ISOLATED_SETUP: &'static str =
    "mkdir -p /logs/agent /logs/verifier /tests && command -v bash && command -v python3";

/// The command that prepares any other container.
pub const OPEN_SETUP: &'static str =
    "mkdir -p /logs/agent /logs/verifier /tests && ((command -v bash >/dev/null && [ -s /etc/ssl/certs/ca-certificates.crt ]) || (apt-get update -qq && apt-get install -y -qq bash ca-certificates) || true)";

/// The command that prepares a container for a resumed run.
pub const RESUME_SETUP: &'static str = "mkdir -p /logs/agent /restore";

/// The command that makes the agent executable.
pub const MAKE_EXECUTABLE: &'static str = "chmod 755 /usr/local/bin/rigcoder";

/// The command that discards verifier files an agent may have left.
pub const CLEAR_VERIFIER: &'static str = "rm -rf /tests /logs/verifier && mkdir -p /logs/verifier";

/// The command that runs the verifier.
pub const RUN_TESTS: &'static str =
    "bash /tests/test.sh > /logs/verifier/output.txt 2>&1; status=$?; echo $status > /logs/verifier/exit_code.txt; exit $status";

/// The command that prepares a trial's container.
pub fn setup_command(plan: Plan) -> (out: &'static str)
    ensures
        out@ == if plan.resumed {
            RESUME_SETUP@
        } else if plan.budgeted {
            ISOLATED_SETUP@
        } else {
            OPEN_SETUP@
        },
{
    if plan.resumed {
        RESUME_SETUP
    } else if plan.budgeted {
        ISOLATED_SETUP
    } else {
        OPEN_SETUP
    }
}

/// How many seconds a step's command may take in the container, given those of
/// the agent and of the verifier.
pub open spec fn seconds_of(plan: Plan, step: Step, agent: u64, verifier: u64) -> Option<u64> {
    match step {
        Step::Setup => if plan.resumed {
            Some(60)
        } else {
            Some(300)
        },
        Step::Restore => Some(120),
        Step::Executable => Some(30),
        Step::Agent => Some(agent),
        Step::ClearVerifier => Some(30),
        Step::RunTests => Some(verifier),
        _ => None,
    }
}

/// How many seconds a step's command may take in the container, if it runs one.
pub fn step_seconds(plan: Plan, step: Step, agent: u64, verifier: u64) -> (out: Option<u64>)
    ensures
        out == seconds_of(plan, step, agent, verifier),
{
    match step {
        Step::Setup => if plan.resumed {
            Some(60)
        } else {
            Some(300)
        },
        Step::Restore => Some(120),
        Step::Executable => Some(30),
        Step::Agent => Some(agent),
        Step::ClearVerifier => Some(30),
        Step::RunTests => Some(verifier),
        _ => None,
    }
}

/// How many seconds the agent gives itself: a minute less than it is given, but
/// no less than a minute.
pub fn agent_seconds(limit: u64) -> (out: u64)
    ensures
        out == if limit >= 120 {
            limit - 60
        } else {
            60
        },
{
    if limit >= 120 {
        limit - 60
    } else {
        60
    }
}

/// The beginning of an agent's command.
pub open spec fn agent_words(workdir: Seq<char>, max_turns: nat, seconds: nat) -> Seq<char> {
    "/usr/local/bin/rigcoder --cwd "@ + trial::quoted(workdir) + " --max-turns "@ + lines::digits(
        max_turns,
    ) + " --timeout-secs "@ + lines::digits(seconds)
        + " --transcript /logs/agent/transcript.jsonl --effect-log /logs/agent/effects.json --observations /logs/agent/observations.json "@
}

/// The end of an agent's command.
pub const AGENT_TAIL: &'static str =
    " > /logs/agent/rigcoder.txt 2>&1; status=$?; echo $status > /logs/agent/exit_code.txt; exit $status";

fn agent_start(workdir: &str, max_turns: usize, seconds: u64) -> (out: String)
    ensures
        out@ == agent_words(workdir@, max_turns as nat, seconds as nat),
{
    let mut out: String = "/usr/local/bin/rigcoder --cwd ".to_owned();
    let word: String = trial::shell_quote(workdir);
    out.append(word.as_str());
    out.append(" --max-turns ");
    let shown: String = lines::count(max_turns);
    out.append(shown.as_str());
    out.append(" --timeout-secs ");
    let shown: String = lines::number(seconds);
    out.append(shown.as_str());
    out.append(
        " --transcript /logs/agent/transcript.jsonl --effect-log /logs/agent/effects.json --observations /logs/agent/observations.json ",
    );
    out
}

/// The command that runs the agent on a task's instruction.
pub fn agent_command(workdir: &str, max_turns: usize, seconds: u64, checkpoint: bool) -> (out:
    String)
    ensures
        out@ == agent_words(workdir@, max_turns as nat, seconds as nat)
            + "--task-file /logs/agent/instruction.md"@ + (if checkpoint {
            " --checkpoint /logs/agent/scenes --checkpoint-tar"@
        } else {
            Seq::empty()
        }) + AGENT_TAIL@,
{
    let mut out: String = agent_start(workdir, max_turns, seconds);
    out.append("--task-file /logs/agent/instruction.md");
    if checkpoint {
        out.append(" --checkpoint /logs/agent/scenes --checkpoint-tar");
    } else {
        assert(out@ + Seq::<char>::empty() =~= out@);
    }
    out.append(AGENT_TAIL);
    out
}

/// The command that resumes the agent from a scene.
pub fn resume_command(workdir: &str, max_turns: usize, seconds: u64) -> (out: String)
    ensures
        out@ == agent_words(workdir@, max_turns as nat, seconds as nat)
            + "--resume /logs/agent/resume.scene.json"@ + AGENT_TAIL@,
{
    let mut out: String = agent_start(workdir, max_turns, seconds);
    out.append("--resume /logs/agent/resume.scene.json");
    out.append(AGENT_TAIL);
    out
}

/// A list of variables, each name and value as its characters.
pub open spec fn pairs(env: Seq<(String, String)>) -> Seq<(Seq<char>, Seq<char>)> {
    Seq::new(env.len(), |i: int| (env[i].0@, env[i].1@))
}

/// The variables that an agent runs with. A trial on a budget reaches its model
/// through the relay alone and never sees the key.
pub open spec fn agent_variables(
    provider: Seq<char>,
    model: Seq<char>,
    budgeted: bool,
    key: Option<(Seq<char>, Seq<char>)>,
) -> Seq<(Seq<char>, Seq<char>)> {
    seq![("RIGCODER_PROVIDER"@, provider), ("RIGCODER_MODEL"@, model), ("RUST_LOG"@, "warn"@)]
        + if budgeted {
        seq![
            ("RIGCODER_GEMINI_GATEWAY"@, "http://127.0.0.1:18080"@),
            ("RIGCODER_GATEWAY_TOKEN"@, "task-relay"@),
        ]
    } else {
        match key {
            Some(pair) => seq![pair],
            None => Seq::empty(),
        }
    }
}

/// The variables that an agent runs with.
pub fn agent_environment(
    provider: &str,
    model: &str,
    budgeted: bool,
    key: Option<(&str, &str)>,
) -> (out: Vec<(String, String)>)
    ensures
        pairs(out@) == agent_variables(
            provider@,
            model@,
            budgeted,
            match key {
                Some(pair) => Some((pair.0@, pair.1@)),
                None => None,
            },
        ),
{
    let mut out: Vec<(String, String)> = Vec::new();
    out.push(("RIGCODER_PROVIDER".to_owned(), provider.to_owned()));
    out.push(("RIGCODER_MODEL".to_owned(), model.to_owned()));
    out.push(("RUST_LOG".to_owned(), "warn".to_owned()));
    if budgeted {
        out.push(("RIGCODER_GEMINI_GATEWAY".to_owned(), "http://127.0.0.1:18080".to_owned()));
        out.push(("RIGCODER_GATEWAY_TOKEN".to_owned(), "task-relay".to_owned()));
    } else if let Some((name, value)) = key {
        out.push((name.to_owned(), value.to_owned()));
    }
    assert(pairs(out@) =~= agent_variables(
        provider@,
        model@,
        budgeted,
        match key {
            Some(pair) => Some((pair.0@, pair.1@)),
            None => None,
        },
    ));
    out
}

// ---------------------------------------------------------------------------
// The course

/// What a trial does in its container, one thing at a time.
#[derive(Clone, Copy, Debug, PartialEq, Eq, Structural)]
pub enum Step {
    /// Start the container; without a network where the trial has a budget.
    Start,
    /// Make the directories and whatever else the agent needs.
    Setup,
    /// Copy a checkpoint's workspace in.
    CopyWorkspace,
    /// Restore the workspace from it.
    Restore,
    /// Copy the agent in.
    Binary,
    /// Make the agent executable.
    Executable,
    /// Copy in what the agent is to do: an instruction, or a scene to resume.
    Brief,
    /// Start the relay to the model.
    StartRelay,
    /// Run the agent.
    Agent,
    /// Stop the relay.
    StopRelay,
    /// Copy the agent's files out.
    CollectLogs,
    /// Have the host score the agent's output.
    Score,
    /// Discard verifier files that the agent may have left.
    ClearVerifier,
    /// Copy the verifier in.
    InstallTests,
    /// Run the verifier.
    RunTests,
    /// Copy the verifier's files out.
    CollectVerifier,
    /// Read the reward that the verifier wrote.
    ReadReward,
}

/// What came of a step.
#[derive(Clone, Copy, Debug, PartialEq, Eq, Structural)]
pub enum Event {
    /// It ended with an exit code, 0 where it went well.
    Exit(i32),
    /// It could not be carried out.
    Broke,
    /// It gave a text for a reward, and this is the number that the text reads
    /// as.
    Reward(Option<Double>),
}

/// Why a trial has no score.
#[derive(Clone, Copy, Debug, PartialEq, Eq, Structural)]
pub enum Problem {
    Broke(Step),
    Exit(Step, i32),
    /// A trial on a budget needs the provider's key.
    NoKey,
    /// The verifier wrote no reward.
    NoReward,
    /// What it wrote is no reward.
    BadReward(RewardError),
}

/// What is settled about a trial before it starts.
#[derive(Clone, Copy, Debug, PartialEq, Eq, Structural)]
pub struct Plan {
    /// Whether the run resumes from a checkpoint.
    pub resumed: bool,
    /// Whether the agent reaches its model through the relay alone.
    pub budgeted: bool,
    /// Whether the provider's key is known.
    pub keyed: bool,
    /// Whether the host scores the agent's output itself.
    pub host_scored: bool,
}

impl Plan {
    /// Whether a relay runs beside the agent.
    pub open spec fn relayed(self) -> bool {
        self.budgeted && !self.resumed
    }
}

/// Where a trial stands.
#[derive(Clone, Copy, Debug, PartialEq, Eq, Structural)]
pub enum Position {
    Doing(Step),
    Finished(Double),
    Failed(Problem),
}

/// A trial under way, with what is kept of the steps whose results count later.
#[derive(Clone, Copy, Debug, PartialEq, Eq, Structural)]
pub struct Course {
    pub plan: Plan,
    pub at: Position,
    pub agent: Option<Event>,
    pub relay: Option<Event>,
    pub verifier: Option<Event>,
}

/// What went wrong in a step that came to this.
pub open spec fn trouble(step: Step, event: Event) -> Problem {
    match event {
        Event::Exit(code) => Problem::Exit(step, code),
        _ => Problem::Broke(step),
    }
}

/// `next` after a step that went well, the step's problem after any other.
pub open spec fn onward(step: Step, event: Event, next: Step) -> Position {
    if event == Event::Exit(0) {
        Position::Doing(next)
    } else {
        Position::Failed(trouble(step, event))
    }
}

/// The exit codes of an agent that was launched and ended, was stopped by its
/// own limit, or was killed at the hard timeout.
pub open spec fn launched(code: i32) -> bool {
    code == 0 || code == 1 || code == 137
}

/// Where a trial stands once the agent's files were collected, with what came
/// of collecting them. A relay that did not stop as it should comes first, then
/// the collecting, then the agent.
pub open spec fn after_logs(c: Course, event: Event) -> Position {
    match c.relay {
        Some(stopped) => if stopped != Event::Exit(0) {
            Position::Failed(trouble(Step::StopRelay, stopped))
        } else {
            after_agent(c, event)
        },
        None => after_agent(c, event),
    }
}

pub open spec fn after_agent(c: Course, event: Event) -> Position {
    if event != Event::Exit(0) {
        Position::Failed(trouble(Step::CollectLogs, event))
    } else {
        match c.agent {
            Some(Event::Exit(code)) => if !launched(code) {
                Position::Failed(Problem::Exit(Step::Agent, code))
            } else if c.plan.host_scored {
                Position::Doing(Step::Score)
            } else {
                Position::Doing(Step::ClearVerifier)
            },
            _ => Position::Failed(Problem::Broke(Step::Agent)),
        }
    }
}

/// The score of a reward's text, by the number that it reads as.
pub open spec fn scored(number: Option<Double>) -> Position {
    match number {
        None => Position::Failed(Problem::BadReward(RewardError::NotANumber)),
        Some(reward) => if trial::is_probability(reward) {
            Position::Finished(reward)
        } else {
            Position::Failed(Problem::BadReward(RewardError::OutOfRange))
        },
    }
}

/// Where a trial stands after its step came to `event`.
pub open spec fn moved(c: Course, step: Step, event: Event) -> Position {
    match step {
        Step::Start => onward(step, event, Step::Setup),
        Step::Setup => onward(
            step,
            event,
            if c.plan.resumed {
                Step::CopyWorkspace
            } else {
                Step::Binary
            },
        ),
        Step::CopyWorkspace => onward(step, event, Step::Restore),
        Step::Restore => onward(step, event, Step::Binary),
        Step::Binary => onward(step, event, Step::Executable),
        Step::Executable => onward(step, event, Step::Brief),
        Step::Brief => if c.plan.relayed() {
            if event == Event::Exit(0) && !c.plan.keyed {
                Position::Failed(Problem::NoKey)
            } else {
                onward(step, event, Step::StartRelay)
            }
        } else {
            onward(step, event, Step::Agent)
        },
        Step::StartRelay => onward(step, event, Step::Agent),
        Step::Agent => if c.plan.relayed() {
            Position::Doing(Step::StopRelay)
        } else if c.plan.resumed && !(event is Exit) {
            Position::Failed(Problem::Broke(Step::Agent))
        } else {
            Position::Doing(Step::CollectLogs)
        },
        Step::StopRelay => Position::Doing(Step::CollectLogs),
        Step::CollectLogs => after_logs(c, event),
        Step::Score => match event {
            Event::Reward(number) => scored(number),
            _ => Position::Failed(trouble(step, event)),
        },
        Step::ClearVerifier => onward(step, event, Step::InstallTests),
        Step::InstallTests => onward(step, event, Step::RunTests),
        Step::RunTests => match event {
            Event::Exit(_) => Position::Doing(Step::CollectVerifier),
            _ => Position::Failed(Problem::Broke(step)),
        },
        Step::CollectVerifier => if event != Event::Exit(0) {
            Position::Failed(trouble(step, event))
        } else {
            match c.verifier {
                Some(Event::Exit(0)) => Position::Doing(Step::ReadReward),
                Some(Event::Exit(code)) => Position::Failed(Problem::Exit(Step::RunTests, code)),
                _ => Position::Failed(Problem::Broke(Step::RunTests)),
            }
        },
        Step::ReadReward => match event {
            Event::Reward(number) => scored(number),
            Event::Exit(_) => Position::Failed(Problem::NoReward),
            Event::Broke => Position::Failed(Problem::Broke(step)),
        },
    }
}

/// A trial after what came of its step; one that is over stays as it is.
pub open spec fn followed(c: Course, event: Event) -> Course {
    match c.at {
        Position::Doing(step) => Course {
            plan: c.plan,
            at: moved(c, step, event),
            agent: if step == Step::Agent {
                Some(event)
            } else {
                c.agent
            },
            relay: if step == Step::StopRelay {
                Some(event)
            } else {
                c.relay
            },
            verifier: if step == Step::RunTests {
                Some(event)
            } else {
                c.verifier
            },
        },
        _ => c,
    }
}

/// A trial that has not started.
pub open spec fn starting(plan: Plan) -> Course {
    Course { plan, at: Position::Doing(Step::Start), agent: None, relay: None, verifier: None }
}

/// A trial after everything that came of its steps so far.
pub open spec fn reached(plan: Plan, events: Seq<Event>) -> Course
    decreases events.len(),
{
    if events.len() == 0 {
        starting(plan)
    } else {
        followed(reached(plan, events.drop_last()), events.last())
    }
}

fn problem_of(step: Step, event: Event) -> (out: Problem)
    ensures
        out == trouble(step, event),
{
    match event {
        Event::Exit(code) => Problem::Exit(step, code),
        _ => Problem::Broke(step),
    }
}

fn proceed(step: Step, event: Event, next: Step) -> (out: Position)
    ensures
        out == onward(step, event, next),
{
    if event == Event::Exit(0) {
        Position::Doing(next)
    } else {
        Position::Failed(problem_of(step, event))
    }
}

fn take_score(number: Option<Double>) -> (out: Position)
    ensures
        out == scored(number),
{
    match trial::parse_reward(number) {
        Ok(reward) => Position::Finished(reward),
        Err(error) => Position::Failed(Problem::BadReward(error)),
    }
}

fn judge_agent(c: &Course, event: Event) -> (out: Position)
    ensures
        out == after_logs(*c, event),
{
    if let Some(stopped) = c.relay {
        if stopped != Event::Exit(0) {
            return Position::Failed(problem_of(Step::StopRelay, stopped));
        }
    }
    if event != Event::Exit(0) {
        return Position::Failed(problem_of(Step::CollectLogs, event));
    }
    match c.agent {
        Some(Event::Exit(code)) => {
            if code != 0 && code != 1 && code != 137 {
                Position::Failed(Problem::Exit(Step::Agent, code))
            } else if c.plan.host_scored {
                Position::Doing(Step::Score)
            } else {
                Position::Doing(Step::ClearVerifier)
            }
        },
        _ => Position::Failed(Problem::Broke(Step::Agent)),
    }
}

/// A trial that has not started.
pub fn begin(plan: Plan) -> (out: Course)
    ensures
        out == starting(plan),
{
    Course { plan, at: Position::Doing(Step::Start), agent: None, relay: None, verifier: None }
}

/// A trial after what came of its step.
pub fn follow(c: Course, event: Event) -> (out: Course)
    ensures
        out == followed(c, event),
{
    let step: Step = match c.at {
        Position::Doing(step) => step,
        _ => {
            return c;
        },
    };
    let mut out: Course = c;
    let relayed: bool = c.plan.budgeted && !c.plan.resumed;
    let at: Position = match step {
        Step::Start => proceed(step, event, Step::Setup),
        Step::Setup => {
            if c.plan.resumed {
                proceed(step, event, Step::CopyWorkspace)
            } else {
                proceed(step, event, Step::Binary)
            }
        },
        Step::CopyWorkspace => proceed(step, event, Step::Restore),
        Step::Restore => proceed(step, event, Step::Binary),
        Step::Binary => proceed(step, event, Step::Executable),
        Step::Executable => proceed(step, event, Step::Brief),
        Step::Brief => {
            if !relayed {
                proceed(step, event, Step::Agent)
            } else if event == Event::Exit(0) && !c.plan.keyed {
                Position::Failed(Problem::NoKey)
            } else {
                proceed(step, event, Step::StartRelay)
            }
        },
        Step::StartRelay => proceed(step, event, Step::Agent),
        Step::Agent => {
            out.agent = Some(event);
            let exited: bool = match event {
                Event::Exit(_) => true,
                _ => false,
            };
            if relayed {
                Position::Doing(Step::StopRelay)
            } else if c.plan.resumed && !exited {
                Position::Failed(Problem::Broke(Step::Agent))
            } else {
                Position::Doing(Step::CollectLogs)
            }
        },
        Step::StopRelay => {
            out.relay = Some(event);
            Position::Doing(Step::CollectLogs)
        },
        Step::CollectLogs => judge_agent(&c, event),
        Step::Score => match event {
            Event::Reward(number) => take_score(number),
            _ => Position::Failed(problem_of(step, event)),
        },
        Step::ClearVerifier => proceed(step, event, Step::InstallTests),
        Step::InstallTests => proceed(step, event, Step::RunTests),
        Step::RunTests => {
            out.verifier = Some(event);
            match event {
                Event::Exit(_) => Position::Doing(Step::CollectVerifier),
                _ => Position::Failed(Problem::Broke(step)),
            }
        },
        Step::CollectVerifier => {
            if event != Event::Exit(0) {
                Position::Failed(problem_of(step, event))
            } else {
                match c.verifier {
                    Some(Event::Exit(code)) => {
                        if code == 0 {
                            Position::Doing(Step::ReadReward)
                        } else {
                            Position::Failed(Problem::Exit(Step::RunTests, code))
                        }
                    },
                    _ => Position::Failed(Problem::Broke(Step::RunTests)),
                }
            }
        },
        Step::ReadReward => match event {
            Event::Reward(number) => take_score(number),
            Event::Exit(_) => Position::Failed(Problem::NoReward),
            Event::Broke => Position::Failed(Problem::Broke(step)),
        },
    };
    out.at = at;
    out
}

// ---------------------------------------------------------------------------
// What every course keeps to

/// The order of the steps.
pub open spec fn turn(step: Step) -> nat {
    match step {
        Step::Start => 0,
        Step::Setup => 1,
        Step::CopyWorkspace => 2,
        Step::Restore => 3,
        Step::Binary => 4,
        Step::Executable => 5,
        Step::Brief => 6,
        Step::StartRelay => 7,
        Step::Agent => 8,
        Step::StopRelay => 9,
        Step::CollectLogs => 10,
        Step::Score => 11,
        Step::ClearVerifier => 12,
        Step::InstallTests => 13,
        Step::RunTests => 14,
        Step::CollectVerifier => 15,
        Step::ReadReward => 16,
    }
}

/// No step is taken twice or after a later one: a checkpoint is restored before
/// the agent is installed, and the verifier comes after the agent.
pub proof fn steps_never_go_back(c: Course, event: Event)
    ensures
        c.at matches Position::Doing(step) ==> (followed(c, event).at matches Position::Doing(next)
            ==> turn(next) > turn(step)),
        !(c.at is Doing) ==> followed(c, event) == c,
{
}

proof fn lemma_far_enough(plan: Plan, events: Seq<Event>)
    ensures
        reached(plan, events).at matches Position::Doing(step) ==> turn(step) >= events.len(),
    decreases events.len(),
{
    if events.len() > 0 {
        lemma_far_enough(plan, events.drop_last());
        steps_never_go_back(reached(plan, events.drop_last()), events.last());
    }
}

/// A trial is over after at most as many steps as there are.
pub proof fn every_course_ends(plan: Plan, events: Seq<Event>)
    requires
        events.len() >= 17,
    ensures
        !(reached(plan, events).at is Doing),
{
    lemma_far_enough(plan, events);
}

/// Whether the trial took `step` and it came to `event`.
pub open spec fn took(plan: Plan, events: Seq<Event>, step: Step, event: Event) -> bool {
    exists|i: int| #[trigger] took_at(plan, events, step, event, i)
}

pub open spec fn took_at(plan: Plan, events: Seq<Event>, step: Step, event: Event, i: int) -> bool {
    0 <= i < events.len() && events[i] == event && reached(plan, events.take(i)).at
        == Position::Doing(step)
}

proof fn lemma_took_now(plan: Plan, events: Seq<Event>, step: Step)
    requires
        events.len() > 0,
        reached(plan, events.drop_last()).at == Position::Doing(step),
    ensures
        took(plan, events, step, events.last()),
{
    assert(events.take(events.len() - 1) =~= events.drop_last());
    assert(took_at(plan, events, step, events.last(), events.len() - 1));
}

proof fn lemma_took_before(plan: Plan, events: Seq<Event>, step: Step, event: Event)
    requires
        events.len() > 0,
        took(plan, events.drop_last(), step, event),
    ensures
        took(plan, events, step, event),
{
    let i = choose|i: int| #[trigger] took_at(plan, events.drop_last(), step, event, i);
    assert(events.drop_last().take(i) =~= events.take(i));
    assert(took_at(plan, events, step, event, i));
}

/// The agent ran and ended, and where it had a relay that was stopped as it
/// should.
pub open spec fn agent_ended(c: Course) -> bool {
    &&& c.agent matches Some(Event::Exit(code)) && launched(code)
    &&& c.plan.relayed() ==> c.relay == Some(Event::Exit(0))
}

/// Whether a step belongs to the scoring of what the agent did.
pub open spec fn scoring(step: Step) -> bool {
    turn(step) >= turn(Step::Score)
}

/// What holds of a trial wherever it stands.
pub open spec fn sound(plan: Plan, events: Seq<Event>) -> bool {
    let c = reached(plan, events);
    &&& c.plan == plan
    &&& c.relay is Some ==> plan.relayed()
    &&& c.agent matches Some(event) ==> took(plan, events, Step::Agent, event)
    &&& c.relay matches Some(event) ==> took(plan, events, Step::StopRelay, event)
    &&& c.verifier matches Some(event) ==> took(plan, events, Step::RunTests, event)
    &&& match c.at {
        Position::Doing(step) => {
            &&& turn(step) > turn(Step::Agent) ==> c.agent is Some
            &&& step == Step::CollectLogs && plan.relayed() ==> c.relay is Some
            &&& scoring(step) ==> agent_ended(c)
            &&& scoring(step) ==> (step == Step::Score <==> plan.host_scored)
            &&& turn(step) > turn(Step::ClearVerifier) ==> took(
                plan,
                events,
                Step::ClearVerifier,
                Event::Exit(0),
            )
            &&& turn(step) > turn(Step::InstallTests) ==> took(
                plan,
                events,
                Step::InstallTests,
                Event::Exit(0),
            )
            &&& step == Step::ReadReward ==> c.verifier == Some(Event::Exit(0))
        },
        Position::Finished(reward) => {
            &&& trial::is_probability(reward)
            &&& agent_ended(c)
            &&& plan.host_scored ==> took(plan, events, Step::Score, Event::Reward(Some(reward)))
            &&& !plan.host_scored ==> {
                &&& took(plan, events, Step::ClearVerifier, Event::Exit(0))
                &&& took(plan, events, Step::InstallTests, Event::Exit(0))
                &&& took(plan, events, Step::RunTests, Event::Exit(0))
                &&& took(plan, events, Step::ReadReward, Event::Reward(Some(reward)))
            }
        },
        Position::Failed(_) => true,
    }
}

proof fn lemma_sound(plan: Plan, events: Seq<Event>)
    ensures
        sound(plan, events),
    decreases events.len(),
{
    if events.len() > 0 {
        let init = events.drop_last();
        lemma_sound(plan, init);
        let c = reached(plan, init);
        let event = events.last();
        assert forall|step: Step, e: Event| took(plan, init, step, e) implies #[trigger] took(
            plan,
            events,
            step,
            e,
        ) by {
            lemma_took_before(plan, events, step, e);
        }
        if let Position::Doing(step) = c.at {
            lemma_took_now(plan, events, step);
        }
    }
}

/// The verifier is installed only after the agent has ended, and what the agent
/// may have left in its place has been discarded first.
pub proof fn tests_come_after_the_agent(plan: Plan, events: Seq<Event>)
    requires
        reached(plan, events).at == Position::Doing(Step::InstallTests),
    ensures
        exists|code: i32|
            launched(code) && #[trigger] took(plan, events, Step::Agent, Event::Exit(code)),
        plan.relayed() ==> took(plan, events, Step::StopRelay, Event::Exit(0)),
        took(plan, events, Step::ClearVerifier, Event::Exit(0)),
{
    lemma_sound(plan, events);
    let c = reached(plan, events);
    let code = c.agent->0->Exit_0;
    assert(took(plan, events, Step::Agent, Event::Exit(code)));
}

/// A score is a finite number from 0 to 1, and comes only of a run in which the
/// agent ended, its relay was stopped as it should, and the scorer gave that
/// number: the host's, or a verifier that was installed anew and succeeded.
pub proof fn a_score_needs_a_whole_run(plan: Plan, events: Seq<Event>, reward: Double)
    requires
        reached(plan, events).at == Position::Finished(reward),
    ensures
        trial::is_probability(reward),
        exists|code: i32|
            launched(code) && #[trigger] took(plan, events, Step::Agent, Event::Exit(code)),
        plan.relayed() ==> took(plan, events, Step::StopRelay, Event::Exit(0)),
        plan.host_scored ==> took(plan, events, Step::Score, Event::Reward(Some(reward))),
        !plan.host_scored ==> took(plan, events, Step::ClearVerifier, Event::Exit(0)) && took(
            plan,
            events,
            Step::InstallTests,
            Event::Exit(0),
        ) && took(plan, events, Step::RunTests, Event::Exit(0)) && took(
            plan,
            events,
            Step::ReadReward,
            Event::Reward(Some(reward)),
        ),
{
    lemma_sound(plan, events);
    let c = reached(plan, events);
    let code = c.agent->0->Exit_0;
    assert(took(plan, events, Step::Agent, Event::Exit(code)));
}

/// Whatever came of the agent and of its relay, what a fresh trial's agent left
/// is collected, and collected after the relay was stopped.
pub proof fn logs_are_collected_whatever_came(c: Course, event: Event)
    requires
        !c.plan.resumed,
    ensures
        c.at == Position::Doing(Step::Agent) ==> followed(c, event).at == if c.plan.budgeted {
            Position::Doing(Step::StopRelay)
        } else {
            Position::Doing(Step::CollectLogs)
        },
        c.at == Position::Doing(Step::StopRelay) ==> followed(c, event).at == Position::Doing(
            Step::CollectLogs,
        ),
{
}

/// An agent that ended with 0, with 1 as it does at a failure or a limit of its own,
/// or with 137 as it does when it is killed at the hard timeout, was launched: what it
/// did is scored. Any other code is the launcher's, and the trial fails with it.
pub proof fn only_a_launcher_failure_keeps_an_agent_from_its_score(c: Course, code: i32)
    requires
        c.at == Position::Doing(Step::CollectLogs),
        c.agent == Some(Event::Exit(code)),
        c.relay is None || c.relay == Some(Event::Exit(0)),
    ensures
        code == 0 || code == 1 || code == 137 ==> followed(c, Event::Exit(0)).at
            == Position::Doing(
            if c.plan.host_scored {
                Step::Score
            } else {
                Step::ClearVerifier
            },
        ),
        code != 0 && code != 1 && code != 137 ==> followed(c, Event::Exit(0)).at
            == Position::Failed(Problem::Exit(Step::Agent, code)),
{
}

/// A trial whose every step goes well takes them all: the container is started and
/// set up, a checkpoint restored where there is one, the agent installed and told what
/// to do, run beside its relay where it has one, and its files collected. Then the
/// host scores them, or the verifier is installed anew, run, and its reward read; and
/// that reward is the trial's, whichever of its own endings the agent came to.
pub proof fn a_trial_that_goes_well_is_scored(plan: Plan, code: i32, reward: Double)
    requires
        plan.relayed() ==> plan.keyed,
        code == 0 || code == 1 || code == 137,
        trial::is_probability(reward),
    ensures
        ({
            let ok = Event::Exit(0);
            let relayed = plan.budgeted && !plan.resumed;
            let start = starting(plan);
            let setup = followed(start, ok);
            let prepared = followed(setup, ok);
            let restoring = followed(prepared, ok);
            let binary = if plan.resumed {
                followed(restoring, ok)
            } else {
                prepared
            };
            let executable = followed(binary, ok);
            let brief = followed(executable, ok);
            let briefed = followed(brief, ok);
            let agent = if relayed {
                followed(briefed, ok)
            } else {
                briefed
            };
            let ran = followed(agent, Event::Exit(code));
            let collecting = if relayed {
                followed(ran, ok)
            } else {
                ran
            };
            let judged = followed(collecting, ok);
            let installing = followed(judged, ok);
            let testing = followed(installing, ok);
            let tested = followed(testing, ok);
            let reading = followed(tested, ok);
            let scoring = if plan.host_scored {
                judged
            } else {
                reading
            };
            &&& start.at == Position::Doing(Step::Start)
            &&& setup.at == Position::Doing(Step::Setup)
            &&& plan.resumed ==> prepared.at == Position::Doing(Step::CopyWorkspace)
            &&& plan.resumed ==> restoring.at == Position::Doing(Step::Restore)
            &&& binary.at == Position::Doing(Step::Binary)
            &&& executable.at == Position::Doing(Step::Executable)
            &&& brief.at == Position::Doing(Step::Brief)
            &&& relayed ==> briefed.at == Position::Doing(Step::StartRelay)
            &&& agent.at == Position::Doing(Step::Agent)
            &&& relayed ==> ran.at == Position::Doing(Step::StopRelay)
            &&& collecting.at == Position::Doing(Step::CollectLogs)
            &&& plan.host_scored ==> judged.at == Position::Doing(Step::Score)
            &&& !plan.host_scored ==> judged.at == Position::Doing(Step::ClearVerifier)
            &&& !plan.host_scored ==> installing.at == Position::Doing(Step::InstallTests)
            &&& !plan.host_scored ==> testing.at == Position::Doing(Step::RunTests)
            &&& !plan.host_scored ==> tested.at == Position::Doing(Step::CollectVerifier)
            &&& !plan.host_scored ==> reading.at == Position::Doing(Step::ReadReward)
            &&& followed(scoring, Event::Reward(Some(reward))).at == Position::Finished(reward)
        }),
{
}

/// A step that must go well and does not ends the trial with that step's own problem:
/// the code it ended with, or that it could not be carried out.
pub proof fn a_step_that_fails_names_itself(c: Course, step: Step, event: Event)
    requires
        c.at == Position::Doing(step),
        event != Event::Exit(0),
        step != Step::Agent && step != Step::StopRelay && step != Step::CollectLogs && step
            != Step::Score && step != Step::RunTests && step != Step::ReadReward,
    ensures
        event matches Event::Exit(code) ==> followed(c, event).at == Position::Failed(
            Problem::Exit(step, code),
        ),
        !(event is Exit) ==> followed(c, event).at == Position::Failed(Problem::Broke(step)),
{
}

/// Once the agent's files were asked for, a relay that did not stop as it should is
/// what the trial fails with; else files that could not be collected; else an agent
/// that could not be run.
pub proof fn what_went_wrong_first_is_said(c: Course, event: Event)
    requires
        c.at == Position::Doing(Step::CollectLogs),
    ensures
        c.relay matches Some(Event::Exit(code)) ==> (code != 0 ==> followed(c, event).at
            == Position::Failed(Problem::Exit(Step::StopRelay, code))),
        c.relay matches Some(stopped) ==> (!(stopped is Exit) ==> followed(c, event).at
            == Position::Failed(Problem::Broke(Step::StopRelay))),
        c.relay is None || c.relay == Some(Event::Exit(0)) ==> {
            &&& event matches Event::Exit(code) ==> (code != 0 ==> followed(c, event).at
                == Position::Failed(Problem::Exit(Step::CollectLogs, code)))
            &&& !(event is Exit) ==> followed(c, event).at == Position::Failed(
                Problem::Broke(Step::CollectLogs),
            )
            &&& event == Event::Exit(0) && !(c.agent matches Some(Event::Exit(_))) ==> followed(
                c,
                event,
            ).at == Position::Failed(Problem::Broke(Step::Agent))
        },
{
}

/// A trial on a budget without the provider's key does not reach its agent, and a
/// resumed run whose agent could not be run goes no further.
pub proof fn no_agent_without_a_key(c: Course, event: Event)
    ensures
        c.at == Position::Doing(Step::Brief) && c.plan.budgeted && !c.plan.resumed
            && !c.plan.keyed ==> followed(c, Event::Exit(0)).at == Position::Failed(Problem::NoKey),
        c.at == Position::Doing(Step::Agent) && c.plan.resumed && !(event is Exit) ==> followed(
            c,
            event,
        ).at == Position::Failed(Problem::Broke(Step::Agent)),
        c.at == Position::Doing(Step::Agent) && c.plan.resumed && event is Exit ==> followed(
            c,
            event,
        ).at == Position::Doing(Step::CollectLogs),
{
}

/// Whatever code the verifier ends with its files are collected, and then a code other
/// than 0 is what the trial fails with, so that no reward is read beside it.
pub proof fn a_failed_verifier_gives_no_reward(c: Course, code: i32)
    requires
        c.at == Position::Doing(Step::RunTests),
    ensures
        followed(c, Event::Exit(code)).at == Position::Doing(Step::CollectVerifier),
        code != 0 ==> followed(followed(c, Event::Exit(code)), Event::Exit(0)).at
            == Position::Failed(Problem::Exit(Step::RunTests, code)),
        followed(c, Event::Broke).at == Position::Failed(Problem::Broke(Step::RunTests)),
{
}

/// A reward that was read is the trial's exactly where it is a finite number from 0 to
/// 1; a text that is no number, a number beyond, and a verifier that wrote nothing are
/// each their own problem.
pub proof fn a_reward_is_taken_or_refused(c: Course, reward: Double, code: i32)
    requires
        c.at == Position::Doing(Step::ReadReward) || c.at == Position::Doing(Step::Score),
    ensures
        followed(c, Event::Reward(None)).at == Position::Failed(
            Problem::BadReward(RewardError::NotANumber),
        ),
        followed(c, Event::Reward(Some(reward))).at == if reward.bits <= 0x3ff0_0000_0000_0000
            || reward.bits == 0x8000_0000_0000_0000 {
            Position::Finished(reward)
        } else {
            Position::Failed(Problem::BadReward(RewardError::OutOfRange))
        },
        c.at == Position::Doing(Step::ReadReward) ==> followed(c, Event::Exit(code)).at
            == Position::Failed(Problem::NoReward) && followed(c, Event::Broke).at
            == Position::Failed(Problem::Broke(Step::ReadReward)),
        c.at == Position::Doing(Step::Score) ==> followed(c, Event::Exit(code)).at
            == Position::Failed(Problem::Exit(Step::Score, code)) && followed(c, Event::Broke).at
            == Position::Failed(Problem::Broke(Step::Score)),
{
}

/// What an agent on a budget runs with does not depend on the provider's key and names
/// the relay as its gateway; any other agent runs with the key where there is one. Both
/// are told the provider and the model.
pub proof fn a_budgeted_agent_never_sees_the_key(
    provider: Seq<char>,
    model: Seq<char>,
    key: Option<(Seq<char>, Seq<char>)>,
    other: Option<(Seq<char>, Seq<char>)>,
)
    ensures
        agent_variables(provider, model, true, key) == agent_variables(
            provider,
            model,
            true,
            other,
        ),
        agent_variables(provider, model, true, key).contains(
            ("RIGCODER_GEMINI_GATEWAY"@, "http://127.0.0.1:18080"@),
        ),
        key matches Some(pair) ==> agent_variables(provider, model, false, key).last() == pair,
        agent_variables(provider, model, false, None).len() == 3,
        forall|budgeted: bool|
            #![trigger agent_variables(provider, model, budgeted, key)]
            agent_variables(provider, model, budgeted, key).contains(
                ("RIGCODER_PROVIDER"@, provider),
            ) && agent_variables(provider, model, budgeted, key).contains(
                ("RIGCODER_MODEL"@, model),
            ),
{
    assert(agent_variables(provider, model, true, key)[3] == (
        "RIGCODER_GEMINI_GATEWAY"@,
        "http://127.0.0.1:18080"@,
    ));
    assert forall|budgeted: bool|
        #![trigger agent_variables(provider, model, budgeted, key)]
        agent_variables(provider, model, budgeted, key).contains(("RIGCODER_PROVIDER"@, provider))
            && agent_variables(provider, model, budgeted, key).contains(
            ("RIGCODER_MODEL"@, model),
        ) by {
        let all = agent_variables(provider, model, budgeted, key);
        assert(all[0] == ("RIGCODER_PROVIDER"@, provider));
        assert(all[1] == ("RIGCODER_MODEL"@, model));
    }
}

/// The agent has the task's own seconds and the verifier its own; no other command's
/// limit depends on them.
pub proof fn limits_are_the_tasks_own(plan: Plan, step: Step, agent: u64, verifier: u64)
    ensures
        seconds_of(plan, Step::Agent, agent, verifier) == Some(agent),
        seconds_of(plan, Step::RunTests, agent, verifier) == Some(verifier),
        step != Step::Agent && step != Step::RunTests ==> seconds_of(plan, step, agent, verifier)
            == seconds_of(plan, step, 0, 0),
{
}

// ---------------------------------------------------------------------------
// What is said of a problem

/// What is said of a step that ended with an exit code; `said` is what it wrote
/// to its error output.
pub open spec fn exit_text(resumed: bool, step: Step, code: i32, said: Seq<char>) -> Seq<char> {
    match step {
        Step::Setup => if resumed {
            command_text(code, said)
        } else {
            "container setup failed: "@ + trial::ending_lines(said, 10)
        },
        Step::Executable => if resumed {
            command_text(code, said)
        } else {
            "making agent executable failed: "@ + said
        },
        Step::Restore => command_text(code, said),
        Step::Agent => (if resumed {
            "resumed agent launcher failed (exit "@
        } else {
            "agent launcher failed (exit "@
        }) + lines::signed(code as int) + "): "@ + said,
        Step::ClearVerifier => "preparing verifier failed: "@ + said,
        Step::RunTests => "verifier failed (exit "@ + lines::signed(code as int) + "): "@ + said,
        Step::Score => "output-line scorer failed: "@ + said,
        _ => said,
    }
}

/// What is said of a container command that failed.
pub open spec fn command_text(code: i32, said: Seq<char>) -> Seq<char> {
    "container command failed (exit "@ + lines::signed(code as int) + "): "@ + trial::ending_lines(
        said,
        20,
    )
}

/// A container command's end: nothing where it went well, else what is said of
/// it.
pub fn exec_checked(code: i32, stderr: &str) -> (out: Result<(), String>)
    ensures
        out is Ok <==> code == 0,
        out matches Err(message) ==> message@ == command_text(code, stderr@),
{
    if code == 0 {
        return Ok(());
    }
    let mut out: String = "container command failed (exit ".to_owned();
    let shown: String = lines::signed_number(code);
    out.append(shown.as_str());
    out.append("): ");
    let last: String = trial::last_lines(stderr, 20);
    out.append(last.as_str());
    Err(out)
}

/// What is said of a step that ended with an exit code other than it should.
pub fn exit_message(resumed: bool, step: Step, code: i32, stderr: &str) -> (out: String)
    requires
        code != 0,
    ensures
        out@ == exit_text(resumed, step, code, stderr@),
{
    let plain: &str = match step {
        Step::Setup => "container setup failed: ",
        Step::Executable => "making agent executable failed: ",
        Step::Agent => if resumed {
            "resumed agent launcher failed (exit "
        } else {
            "agent launcher failed (exit "
        },
        Step::ClearVerifier => "preparing verifier failed: ",
        Step::RunTests => "verifier failed (exit ",
        Step::Score => "output-line scorer failed: ",
        _ => "",
    };
    let command: bool = match step {
        Step::Setup => resumed,
        Step::Executable => resumed,
        Step::Restore => true,
        _ => false,
    };
    if command {
        return match exec_checked(code, stderr) {
            Err(message) => message,
            Ok(()) => String::new(),
        };
    }
    let mut out: String = plain.to_owned();
    let numbered: bool = match step {
        Step::Agent => true,
        Step::RunTests => true,
        _ => false,
    };
    if numbered {
        let shown: String = lines::signed_number(code);
        out.append(shown.as_str());
        out.append("): ");
    }
    if step == Step::Setup {
        let last: String = trial::last_lines(stderr, 10);
        out.append(last.as_str());
    } else {
        out.append(stderr);
    }
    proof {
        reveal_strlit("");
        assert(out@ =~= exit_text(resumed, step, code, stderr@));
    }
    out
}

/// What is said of a step ends with what the command itself said, all of it or its last
/// lines, and of the agent and of the verifier it says the code; a resumed run's agent is
/// told from a fresh one's.
pub proof fn what_a_command_said_is_told(resumed: bool, code: i32, said: Seq<char>)
    ensures
        exit_text(false, Step::Agent, code, said) == "agent launcher failed (exit "@
            + lines::signed(code as int) + "): "@ + said,
        exit_text(true, Step::Agent, code, said) == "resumed agent launcher failed (exit "@
            + lines::signed(code as int) + "): "@ + said,
        exit_text(resumed, Step::RunTests, code, said) == "verifier failed (exit "@
            + lines::signed(code as int) + "): "@ + said,
        exit_text(resumed, Step::ClearVerifier, code, said) == "preparing verifier failed: "@
            + said,
        exit_text(resumed, Step::Score, code, said) == "output-line scorer failed: "@ + said,
        exit_text(false, Step::Setup, code, said) == "container setup failed: "@
            + trial::ending_lines(said, 10),
        exit_text(false, Step::Executable, code, said) == "making agent executable failed: "@
            + said,
        exit_text(resumed, Step::Restore, code, said) == "container command failed (exit "@
            + lines::signed(code as int) + "): "@ + trial::ending_lines(said, 20),
        exit_text(true, Step::Setup, code, said) == exit_text(true, Step::Restore, code, said),
        exit_text(true, Step::Executable, code, said) == exit_text(true, Step::Restore, code, said),
{
}

/// An agent's command runs it in its workspace, within its turns and its seconds, and has
/// it leave its transcript, its effects and its observations among its logs.
pub proof fn an_agents_command_holds_its_limits(workdir: Seq<char>, max_turns: nat, seconds: nat)
    ensures
        ({
            let words = agent_words(workdir, max_turns, seconds);
            &&& text::occurs_at(words, "/usr/local/bin/rigcoder --cwd "@ + trial::quoted(workdir), 0)
            &&& text::occurs(words, " --max-turns "@ + lines::digits(max_turns) + " "@)
            &&& text::occurs(words, " --timeout-secs "@ + lines::digits(seconds) + " "@)
            &&& text::occurs(words, " --transcript /logs/agent/transcript.jsonl "@)
            &&& text::occurs(words, "--effect-log /logs/agent/effects.json "@)
            &&& text::occurs(words, "--observations /logs/agent/observations.json "@)
        }),
{
    let none = Seq::<char>::empty();
    let words = agent_words(workdir, max_turns, seconds);
    let start = "/usr/local/bin/rigcoder --cwd "@ + trial::quoted(workdir);
    let turns = " --max-turns "@ + lines::digits(max_turns);
    let limit = " --timeout-secs "@ + lines::digits(seconds);
    let logs =
        " --transcript /logs/agent/transcript.jsonl --effect-log /logs/agent/effects.json --observations /logs/agent/observations.json "@;
    let transcript = " --transcript /logs/agent/transcript.jsonl "@;
    let effects = "--effect-log /logs/agent/effects.json "@;
    let observations = "--observations /logs/agent/observations.json "@;
    reveal_strlit(" --timeout-secs ");
    reveal_strlit(" ");
    reveal_strlit(
        " --transcript /logs/agent/transcript.jsonl --effect-log /logs/agent/effects.json --observations /logs/agent/observations.json ",
    );
    reveal_strlit(" --transcript /logs/agent/transcript.jsonl ");
    reveal_strlit("--effect-log /logs/agent/effects.json ");
    reveal_strlit("--observations /logs/agent/observations.json ");
    assert(logs =~= transcript + effects + observations);
    assert(words =~= start + turns + limit + logs);
    assert(words.subrange(0, start.len() as int) =~= start);
    let after = limit.skip(1) + logs;
    assert(limit =~= " "@ + limit.skip(1));
    assert(words =~= start + (turns + " "@) + after);
    text::lemma_occurs_between(start, turns + " "@, after);
    assert(" --max-turns "@ + lines::digits(max_turns) + " "@ =~= turns + " "@);
    let rest = logs.skip(1);
    assert(logs =~= " "@ + rest);
    assert(words =~= (start + turns) + (limit + " "@) + rest);
    text::lemma_occurs_between(start + turns, limit + " "@, rest);
    let head = start + turns + limit;
    assert(words =~= head + transcript + (effects + observations));
    text::lemma_occurs_between(head, transcript, effects + observations);
    assert(words =~= (head + transcript) + effects + observations);
    text::lemma_occurs_between(head + transcript, effects, observations);
    assert(words =~= (head + transcript + effects) + observations + none);
    text::lemma_occurs_between(head + transcript + effects, observations, none);
}

// ---------------------------------------------------------------------------
// Resumed runs together

/// What is said of a resumed run that failed.
pub open spec fn branch_text(turn: nat, attempt: nat, error: Seq<char>) -> Seq<char> {
    "branch from turn "@ + lines::digits(turn) + ", attempt "@ + lines::digits(attempt) + ": "@
        + error
}

/// What is said of the resumed runs that failed, in order.
pub open spec fn branch_errors(turn: nat, runs: Seq<Result<Double, String>>) -> Seq<Seq<char>>
    decreases runs.len(),
{
    if runs.len() == 0 {
        Seq::empty()
    } else {
        let before = branch_errors(turn, runs.drop_last());
        match runs.last() {
            Ok(_) => before,
            Err(error) => before.push(branch_text(turn, runs.len(), error@)),
        }
    }
}

/// How many resumed runs have a full reward.
pub open spec fn branch_passes(runs: Seq<Result<Double, String>>) -> nat
    decreases runs.len(),
{
    if runs.len() == 0 {
        0
    } else {
        branch_passes(runs.drop_last()) + match runs.last() {
            Ok(reward) => if reward.reaches(crate::double::one()) {
                1nat
            } else {
                0nat
            },
            Err(_) => 0nat,
        }
    }
}

/// How many of the runs resumed from a turn passed; an error that names every
/// failed run where one could not be scored.
pub fn branch_total(turn: usize, runs: &[Result<Double, String>]) -> (out: Result<usize, String>)
    ensures
        out is Ok <==> branch_errors(turn as nat, runs@).len() == 0,
        out matches Ok(passed) ==> passed == branch_passes(runs@),
        out matches Err(message) ==> message@ == "incomplete branch evaluation: "@ + lines::joined(
            branch_errors(turn as nat, runs@),
            "; "@,
        ),
{
    let one: Double = Double { bits: crate::double::ONE_BITS };
    let n: usize = runs.len();
    let mut passed: usize = 0;
    let mut errors: Vec<String> = Vec::new();
    assert(text::views(errors@) =~= branch_errors(turn as nat, runs@.take(0)));
    for i in 0..n
        invariant
            n == runs@.len(),
            one == crate::double::one(),
            passed <= i,
            passed == branch_passes(runs@.take(i as int)),
            text::views(errors@) == branch_errors(turn as nat, runs@.take(i as int)),
    {
        assert(runs@.take(i + 1).drop_last() =~= runs@.take(i as int));
        match &runs[i] {
            Ok(reward) => {
                if reward.is_at_least(one) {
                    passed += 1;
                }
            },
            Err(error) => {
                let mut said: String = "branch from turn ".to_owned();
                let shown: String = lines::count(turn);
                said.append(shown.as_str());
                said.append(", attempt ");
                let shown: String = lines::count(i + 1);
                said.append(shown.as_str());
                said.append(": ");
                said.append(error.as_str());
                proof {
                    text::lemma_views_push(errors@, said);
                }
                errors.push(said);
            },
        }
    }
    assert(runs@.take(n as int) =~= runs@);
    assert(text::views(errors@).len() == errors@.len());
    if errors.len() == 0 {
        Ok(passed)
    } else {
        let all: String = lines::join(&errors, "; ");
        let mut message: String = "incomplete branch evaluation: ".to_owned();
        message.append(all.as_str());
        Err(message)
    }
}

/// A branch evaluation that passed scored every one of its runs.
pub proof fn complete_branches_have_no_failed_run(turn: nat, runs: Seq<Result<Double, String>>)
    ensures
        branch_errors(turn, runs).len() == 0 <==> forall|i: int|
            0 <= i < runs.len() ==> (#[trigger] runs[i]) is Ok,
    decreases runs.len(),
{
    if runs.len() > 0 {
        let init = runs.drop_last();
        complete_branches_have_no_failed_run(turn, init);
        if branch_errors(turn, runs).len() == 0 {
            assert forall|i: int| 0 <= i < runs.len() implies (#[trigger] runs[i]) is Ok by {
                if i < init.len() {
                    assert(init[i] == runs[i]);
                }
            }
        } else if forall|i: int| 0 <= i < runs.len() ==> (#[trigger] runs[i]) is Ok {
            assert forall|i: int| 0 <= i < init.len() implies (#[trigger] init[i]) is Ok by {
                assert(init[i] == runs[i]);
            }
            assert(runs[runs.len() - 1] is Ok);
        }
    }
}

/// The runs that passed are those with a reward of at least one, and they are counted
/// one by one; every run that failed is named with its number and its error, in order.
pub proof fn branches_are_counted_and_named(turn: nat, runs: Seq<Result<Double, String>>, i: int)
    ensures
        branch_passes(runs) == runs.filter(
            |run: Result<Double, String>|
                run matches Ok(reward) && reward.reaches(Double { bits: 0x3ff0_0000_0000_0000 }),
        ).len(),
        branch_errors(turn, runs).len() == runs.filter(
            |run: Result<Double, String>| run is Err,
        ).len(),
        0 <= i < runs.len() && runs[i] is Err ==> branch_errors(turn, runs).contains(
            "branch from turn "@ + lines::digits(turn) + ", attempt "@ + lines::digits(
                (i + 1) as nat,
            ) + ": "@ + runs[i]->Err_0@,
        ),
    decreases runs.len(),
{
    reveal(Seq::filter);
    if runs.len() > 0 {
        let init = runs.drop_last();
        branches_are_counted_and_named(turn, init, i);
        if 0 <= i < runs.len() && runs[i] is Err {
            let said = branch_text(turn, (i + 1) as nat, runs[i]->Err_0@);
            if i < init.len() {
                assert(init[i] == runs[i]);
                let before = branch_errors(turn, init);
                let k = choose|k: int| 0 <= k < before.len() && before[k] == said;
                assert(branch_errors(turn, runs)[k] == said);
            } else {
                assert(branch_errors(turn, runs).last() == said);
            }
        }
    }
}

} // verus!
