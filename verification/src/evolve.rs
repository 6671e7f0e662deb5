//! What a run is asked to do, what a generation may change, and which kind of
//! change comes next.

use vstd::prelude::*;
use crate::digest::Aggregate;
use crate::digest::Digest;
use crate::docker;
use crate::double;
use crate::double::Double;
use crate::lines;
use crate::order;
use crate::place;
use crate::table;
use crate::table::Table;
use crate::text;
use crate::trial;

verus! {

// ---------------------------------------------------------------------------
// Lanes

/// Everything any lane may change: the revert set. Everything else is the
/// harness's, not the agent's.
pub const MUTABLE: [&'static str; 7] = [
    "crates/rigcoder/src/prompt.md",
    "crates/rigcoder/src/tools.rs",
    "crates/rigcoder/src/tools/",
    "crates/rigcoder/src/lib.rs",
    "crates/rigcoder-cli/src/main.rs",
    "crates/rigcoder/src/session.rs",
    "crates/rigcoder/src/steer.rs",
];

/// What the meta agent must never read: the held-out tasks, its own scores,
/// and the harness that scores it.
pub const META_FORBIDDEN: [&'static str; 4] = [
    "harness/slices/holdout.txt",
    "harness/ledger.jsonl",
    "crates/rigcoder-bench/",
    "harness/notes/",
];

/// One kind of change per generation, so the ledger can say which kind
/// moved the score.
#[derive(Clone, Copy, Debug, PartialEq, Eq, Structural)]
pub enum Lane {
    /// The system prompt.
    Prompt,
    /// Tool descriptions and behaviours.
    Tools,
    /// The agent components (max tokens, turns, tool concurrency, temperature) and the CLI defaults.
    Settings,
    /// How tool results and history are shaped before the model sees them.
    Shaping,
    /// Gate and Judge steering systems.
    Systems,
}

/// The name of a lane.
pub open spec fn lane_name(lane: Lane) -> Seq<char> {
    match lane {
        Lane::Prompt => "prompt"@,
        Lane::Tools => "tools"@,
        Lane::Settings => "settings"@,
        Lane::Shaping => "shaping"@,
        Lane::Systems => "systems"@,
    }
}

/// The files a lane may touch.
pub open spec fn lane_files(lane: Lane) -> Seq<Seq<char>> {
    match lane {
        Lane::Prompt => seq!["crates/rigcoder/src/prompt.md"@],
        Lane::Tools => seq!["crates/rigcoder/src/tools.rs"@, "crates/rigcoder/src/tools/"@],
        Lane::Settings => seq!["crates/rigcoder/src/lib.rs"@, "crates/rigcoder-cli/src/main.rs"@],
        Lane::Shaping => seq!["crates/rigcoder/src/session.rs"@],
        Lane::Systems => seq!["crates/rigcoder/src/steer.rs"@],
    }
}

/// What a lane works with, in words.
pub open spec fn lane_levers(lane: Lane) -> Seq<char> {
    match lane {
        Lane::Prompt =>
            "the system prompt: process, verification habits, when to stop, what to do before the final message"@,
        Lane::Tools =>
            "tool descriptions and behaviours: output limits, timeouts, error messages the model can act on, what a result shows"@,
        Lane::Settings =>
            "the agent components set in lib.rs::setup (MaxTokens, MaxTurns, ToolPolicy concurrency, Temperature) and the CLI defaults"@,
        Lane::Shaping =>
            "how tool results and history are shaped before the model sees them (session.rs)"@,
        Lane::Systems =>
            "Gate and Judge systems in steer.rs: deny or hold dangerous tool calls, rewrite over-long results, retry a turn that would settle with deliverables missing"@,
    }
}

/// The lane after a lane, round and round.
pub open spec fn following(lane: Lane) -> Lane {
    match lane {
        Lane::Prompt => Lane::Tools,
        Lane::Tools => Lane::Settings,
        Lane::Settings => Lane::Shaping,
        Lane::Shaping => Lane::Systems,
        Lane::Systems => Lane::Prompt,
    }
}

/// The passed trials' means with what a lane's signal must exceed them by.
#[derive(Clone, Copy, Debug, PartialEq, Eq, Structural)]
pub struct Limits {
    pub timeouts: Double,
    pub truncations: Double,
    pub ended_deliberating: Double,
    pub repeated_calls: Double,
    pub calls_before_first_edit: Double,
    pub input_tokens: Option<Double>,
    pub no_settle: Double,
}

/// The lane that the failed trials' means point at, if they point at one.
pub open spec fn pointed_at(f: Aggregate, p: Aggregate, limits: Limits) -> Option<Lane> {
    if f.trials == 0 {
        None
    } else if limits.timeouts.below(f.timeouts) || limits.truncations.below(f.truncations) {
        Some(Lane::Tools)
    } else if limits.ended_deliberating.below(f.ended_deliberating) || limits.repeated_calls.below(
        f.repeated_calls,
    ) || limits.calls_before_first_edit.below(f.calls_before_first_edit) {
        Some(Lane::Prompt)
    } else if more_input(f, p, limits) {
        Some(Lane::Shaping)
    } else if limits.no_settle.below(f.no_settle) {
        Some(Lane::Systems)
    } else {
        None
    }
}

/// Whether the failed trials are known to take much more input than the passed,
/// which are known to take some.
pub open spec fn more_input(f: Aggregate, p: Aggregate, limits: Limits) -> bool {
    f.input_tokens matches Some(failed) && p.input_tokens matches Some(passed)
        && limits.input_tokens matches Some(limit) && limit.below(failed) && double::zero().below(
        passed,
    )
}

/// The lane that a digest points at, or the next in round-robin.
pub open spec fn chosen(digest: Option<(Digest, Limits)>, previous: Option<Lane>) -> Lane {
    let signal = match digest {
        Some((d, limits)) => pointed_at(d.failed, d.passed, limits),
        None => None,
    };
    match signal {
        Some(lane) => lane,
        None => match previous {
            Some(lane) => following(lane),
            None => Lane::Prompt,
        },
    }
}

fn point_at(f: &Aggregate, p: &Aggregate, limits: &Limits) -> (out: Option<Lane>)
    ensures
        out == pointed_at(*f, *p, *limits),
{
    if f.trials == 0 {
        return None;
    }
    if limits.timeouts.is_below(f.timeouts) || limits.truncations.is_below(f.truncations) {
        return Some(Lane::Tools);
    }
    if limits.ended_deliberating.is_below(f.ended_deliberating) || limits.repeated_calls.is_below(
        f.repeated_calls,
    ) || limits.calls_before_first_edit.is_below(f.calls_before_first_edit) {
        return Some(Lane::Prompt);
    }
    if let (Some(failed), Some(passed)) = (f.input_tokens, p.input_tokens) {
        if let Some(limit) = limits.input_tokens {
            if limit.is_below(failed) && (Double { bits: 0 }).is_below(passed) {
                return Some(Lane::Shaping);
            }
        }
    }
    if limits.no_settle.is_below(f.no_settle) {
        return Some(Lane::Systems);
    }
    None
}

impl Lane {
    /// The lane's name.
    pub fn name(self) -> (out: &'static str)
        ensures
            out@ == lane_name(self),
    {
        match self {
            Lane::Prompt => "prompt",
            Lane::Tools => "tools",
            Lane::Settings => "settings",
            Lane::Shaping => "shaping",
            Lane::Systems => "systems",
        }
    }

    /// The files the lane may touch.
    pub fn files(self) -> (out: &'static [&'static str])
        ensures
            text::str_views(out@) == lane_files(self),
    {
        let out: &'static [&'static str] = match self {
            Lane::Prompt => &["crates/rigcoder/src/prompt.md"],
            Lane::Tools => &["crates/rigcoder/src/tools.rs", "crates/rigcoder/src/tools/"],
            Lane::Settings => &[
                "crates/rigcoder/src/lib.rs",
                "crates/rigcoder-cli/src/main.rs",
            ],
            Lane::Shaping => &["crates/rigcoder/src/session.rs"],
            Lane::Systems => &["crates/rigcoder/src/steer.rs"],
        };
        assert(text::str_views(out@) =~= lane_files(self));
        out
    }

    /// What the lane works with, in words.
    pub fn levers(self) -> (out: &'static str)
        ensures
            out@ == lane_levers(self),
    {
        match self {
            Lane::Prompt =>
                "the system prompt: process, verification habits, when to stop, what to do before the final message",
            Lane::Tools =>
                "tool descriptions and behaviours: output limits, timeouts, error messages the model can act on, what a result shows",
            Lane::Settings =>
                "the agent components set in lib.rs::setup (MaxTokens, MaxTurns, ToolPolicy concurrency, Temperature) and the CLI defaults",
            Lane::Shaping =>
                "how tool results and history are shaped before the model sees them (session.rs)",
            Lane::Systems =>
                "Gate and Judge systems in steer.rs: deny or hold dangerous tool calls, rewrite over-long results, retry a turn that would settle with deliverables missing",
        }
    }

    /// Pick the lane the digest points at, or the next in round-robin.
    pub fn pick(digest: Option<(&Digest, Limits)>, previous: Option<Lane>) -> (out: Lane)
        ensures
            out == chosen(
                match digest {
                    Some((d, limits)) => Some((*d, limits)),
                    None => None,
                },
                previous,
            ),
    {
        if let Some((d, limits)) = digest {
            if let Some(lane) = point_at(&d.failed, &d.passed, &limits) {
                return lane;
            }
        }
        match previous {
            None => Lane::Prompt,
            Some(Lane::Prompt) => Lane::Tools,
            Some(Lane::Tools) => Lane::Settings,
            Some(Lane::Settings) => Lane::Shaping,
            Some(Lane::Shaping) => Lane::Systems,
            Some(Lane::Systems) => Lane::Prompt,
        }
    }
}

/// Round-robin leaves no lane out: five lanes on, it is the same lane again.
pub proof fn round_robin_reaches_every_lane(lane: Lane, other: Lane)
    ensures
        following(following(following(following(following(lane))))) == lane,
        other == lane || other == following(lane) || other == following(following(lane)) || other
            == following(following(following(lane))) || other == following(
            following(following(following(lane))),
        ),
{
}

/// Unknown usage, of the failed or of the passed trials, never points at
/// shaping.
pub proof fn unknown_usage_is_no_signal(f: Aggregate, p: Aggregate, limits: Limits)
    requires
        f.input_tokens is None || p.input_tokens is None,
    ensures
        pointed_at(f, p, limits) != Some(Lane::Shaping),
{
}

// ---------------------------------------------------------------------------
// Covered paths

/// Whether a path is the file, or inside it where it is a directory.
pub open spec fn inside(file: Seq<char>, path: Seq<char>) -> bool {
    if file.len() > 0 && file.last() == '/' {
        file.is_prefix_of(path)
    } else {
        path == file
    }
}

/// Whether a path is inside one of the files.
pub open spec fn is_covered(files: Seq<Seq<char>>, path: Seq<char>) -> bool {
    exists|i: int| 0 <= i < files.len() && inside(#[trigger] files[i], path)
}

/// Is `path` inside one of `files` (a file, or a directory prefix)?
pub fn covered(files: &[&str], path: &str) -> (r: bool)
    ensures
        r == is_covered(text::str_views(files@), path@),
{
    let n: usize = files.len();
    let ghost all = text::str_views(files@);
    for i in 0..n
        invariant
            n == files@.len(),
            all == text::str_views(files@),
            forall|j: int| 0 <= j < i ==> !inside(#[trigger] all[j], path@),
    {
        assert(all[i as int] == files@[i as int]@);
        let found: bool = if text::ends_with_char(files[i], '/') {
            text::begins_with(path, files[i])
        } else {
            text::same(path, files[i])
        };
        if found {
            assert(inside(all[i as int], path@));
            return true;
        }
    }
    false
}

/// Whatever a lane may touch is in the revert set.
pub proof fn every_lane_can_be_reverted(lane: Lane, path: Seq<char>)
    requires
        is_covered(lane_files(lane), path),
    ensures
        is_covered(text::str_views(MUTABLE@), path),
{
    let files = lane_files(lane);
    let all = text::str_views(MUTABLE@);
    let i = choose|i: int| 0 <= i < files.len() && inside(#[trigger] files[i], path);
    let k: int = match lane {
        Lane::Prompt => 0,
        Lane::Tools => 1 + i,
        Lane::Settings => 3 + i,
        Lane::Shaping => 5,
        Lane::Systems => 6,
    };
    assert(all[0] == "crates/rigcoder/src/prompt.md"@);
    assert(all[1] == "crates/rigcoder/src/tools.rs"@);
    assert(all[2] == "crates/rigcoder/src/tools/"@);
    assert(all[3] == "crates/rigcoder/src/lib.rs"@);
    assert(all[4] == "crates/rigcoder-cli/src/main.rs"@);
    assert(all[5] == "crates/rigcoder/src/session.rs"@);
    assert(all[6] == "crates/rigcoder/src/steer.rs"@);
    assert(all[k] == files[i]);
}

/// By which characters the paths of a lane are told from those of the others.
proof fn lemma_lane_path(lane: Lane, path: Seq<char>)
    requires
        is_covered(lane_files(lane), path),
    ensures
        path.len() > 21,
        match lane {
            Lane::Prompt => path[15] == '/' && path[20] == 'p',
            Lane::Tools => path[15] == '/' && path[20] == 't',
            Lane::Settings => path[15] == '-' || (path[15] == '/' && path[20] == 'l'),
            Lane::Shaping => path[15] == '/' && path[20] == 's' && path[21] == 'e',
            Lane::Systems => path[15] == '/' && path[20] == 's' && path[21] == 't',
        },
{
    let all = lane_files(lane);
    let i = choose|i: int| 0 <= i < all.len() && inside(#[trigger] all[i], path);
    reveal_strlit("crates/rigcoder/src/prompt.md");
    reveal_strlit("crates/rigcoder/src/tools.rs");
    reveal_strlit("crates/rigcoder/src/tools/");
    reveal_strlit("crates/rigcoder/src/lib.rs");
    reveal_strlit("crates/rigcoder-cli/src/main.rs");
    reveal_strlit("crates/rigcoder/src/session.rs");
    reveal_strlit("crates/rigcoder/src/steer.rs");
    let file = all[i];
    assert(file.len() > 21 && file.is_prefix_of(path));
    assert(path[15] == file[15] && path[20] == file[20] && path[21] == file[21]);
}

/// No path belongs to two lanes, so that a generation's edits are of one kind.
pub proof fn no_path_is_in_two_lanes(a: Lane, b: Lane, path: Seq<char>)
    requires
        is_covered(lane_files(a), path),
        is_covered(lane_files(b), path),
    ensures
        a == b,
{
    lemma_lane_path(a, path);
    lemma_lane_path(b, path);
}

/// The first character in which a mutable path differs from every forbidden
/// one: past `crates/rigcoder`, or at once where that is not how it begins.
proof fn lemma_mutable_path(path: Seq<char>)
    requires
        is_covered(text::str_views(MUTABLE@), path),
    ensures
        path.len() > 18,
        path[0] == 'c',
        path[15] == '/' || path[16] == 'c',
{
    let all = text::str_views(MUTABLE@);
    let i = choose|i: int| 0 <= i < all.len() && inside(#[trigger] all[i], path);
    reveal_strlit("crates/rigcoder/src/prompt.md");
    reveal_strlit("crates/rigcoder/src/tools.rs");
    reveal_strlit("crates/rigcoder/src/tools/");
    reveal_strlit("crates/rigcoder/src/lib.rs");
    reveal_strlit("crates/rigcoder-cli/src/main.rs");
    reveal_strlit("crates/rigcoder/src/session.rs");
    reveal_strlit("crates/rigcoder/src/steer.rs");
    assert(all[0] == "crates/rigcoder/src/prompt.md"@);
    assert(all[1] == "crates/rigcoder/src/tools.rs"@);
    assert(all[2] == "crates/rigcoder/src/tools/"@);
    assert(all[3] == "crates/rigcoder/src/lib.rs"@);
    assert(all[4] == "crates/rigcoder-cli/src/main.rs"@);
    assert(all[5] == "crates/rigcoder/src/session.rs"@);
    assert(all[6] == "crates/rigcoder/src/steer.rs"@);
    let file = all[i];
    assert(file.len() > 18 && file.is_prefix_of(path));
    assert(path[0] == file[0] && path[15] == file[15] && path[16] == file[16]);
}

/// No lane may touch what the meta agent must not even read: the held-out
/// tasks, the scores, the notes and the harness.
pub proof fn no_lane_reaches_the_harness(path: Seq<char>)
    requires
        is_covered(text::str_views(MUTABLE@), path),
    ensures
        !is_covered(text::str_views(META_FORBIDDEN@), path),
{
    lemma_mutable_path(path);
    let all = text::str_views(META_FORBIDDEN@);
    if is_covered(all, path) {
        let i = choose|i: int| 0 <= i < all.len() && inside(#[trigger] all[i], path);
        reveal_strlit("harness/slices/holdout.txt");
        reveal_strlit("harness/ledger.jsonl");
        reveal_strlit("crates/rigcoder-bench/");
        reveal_strlit("harness/notes/");
        assert(all[0] == "harness/slices/holdout.txt"@);
        assert(all[1] == "harness/ledger.jsonl"@);
        assert(all[2] == "crates/rigcoder-bench/"@);
        assert(all[3] == "harness/notes/"@);
        let file = all[i];
        assert(file.is_prefix_of(path));
        assert(path[0] == file[0]);
        if i == 2 {
            assert(path[15] == file[15] && path[16] == file[16]);
        }
    }
}

// ---------------------------------------------------------------------------
// What a run is asked to do

/// What an evaluation is asked to do.
#[derive(Debug)]
pub struct RunArgs {
    /// Task slice under harness/slices/ (dev or holdout).
    pub slice: String,
    /// Explicit task names instead of the slice (repeatable).
    pub tasks: Vec<String>,
    /// Attempts per task.
    pub attempts: usize,
    /// Trials running at once.
    pub concurrency: usize,
    /// provider/model the benchmarked agent uses.
    pub model: String,
    /// Existing trusted Gemini ledger; isolates task networking and uses host scoring.
    pub gemini_budget: Option<String>,
    /// Model calls per run inside the container.
    pub max_turns: usize,
    /// Task directories (a checkout of laude-institute/terminal-bench-2).
    pub tasks_dir: String,
    /// The Linux rigcoder binary to upload.
    pub binary: String,
    /// Skip harness/build-linux.sh (evaluation only).
    pub no_build: bool,
    /// Job prefix; each evaluation gets a fresh directory including its label.
    pub job_name: Option<String>,
    /// Save a scene and a workspace tarball after every turn into <trial>/agent/scenes/.
    pub checkpoint: bool,
}

/// What the self-improvement loop is asked to do.
#[derive(Debug)]
pub struct IterateArgs {
    pub run: RunArgs,
    pub generations: usize,
    /// Provider the improvement step uses (its key from the environment).
    pub meta_provider: String,
    /// Model the improvement step uses (default: the provider's default).
    pub meta_model: Option<String>,
    /// Use the isolated macOS prompt launcher through this local budget gateway.
    /// Requires --lane prompt and RIGCODER_GATEWAY_TOKEN; affects only self-editing.
    pub meta_gateway_port: Option<u16>,
    /// Evaluate only; never self-edit.
    pub no_improve: bool,
    /// Score the best kept generation on the holdout slice at the end.
    pub holdout: bool,
    /// Force one lane for every generation instead of choosing from the digest.
    pub lane: Option<Lane>,
}

/// The variable that holds a provider's key.
pub open spec fn key_variable(provider: Seq<char>) -> Option<Seq<char>> {
    if provider == "anthropic"@ {
        Some("ANTHROPIC_API_KEY"@)
    } else if provider == "openai"@ {
        Some("OPENAI_API_KEY"@)
    } else if provider == "gemini"@ {
        Some("GEMINI_API_KEY"@)
    } else {
        None
    }
}

/// The variable that holds a provider's key, if the provider is known.
pub fn provider_key(provider: &str) -> (out: Option<&'static str>)
    ensures
        match out {
            Some(name) => key_variable(provider@) == Some(name@),
            None => key_variable(provider@) is None,
        },
{
    if text::same(provider, "anthropic") {
        Some("ANTHROPIC_API_KEY")
    } else if text::same(provider, "openai") {
        Some("OPENAI_API_KEY")
    } else if text::same(provider, "gemini") {
        Some("GEMINI_API_KEY")
    } else {
        None
    }
}

/// The provider and the model of `provider/model`: Gemini's where no provider is
/// named.
pub open spec fn provider_and_model(model: Seq<char>) -> (Seq<char>, Seq<char>) {
    let first = lines::pieces(model, '/')[0];
    if model.contains('/') {
        (first, model.skip(first.len() as int + 1))
    } else {
        ("gemini"@, model)
    }
}

proof fn lemma_first_piece(s: Seq<char>, sep: char, at: int)
    requires
        0 <= at < s.len(),
        s[at] == sep,
        forall|i: int| 0 <= i < at ==> s[i] != sep,
    ensures
        lines::pieces(s, sep).len() >= 1,
        lines::pieces(s, sep)[0] == s.take(at),
        lines::pieces(s, sep).len() >= 2,
    decreases s.len(),
{
    let init = s.drop_last();
    lines::lemma_pieces_some(init, sep);
    if at < init.len() {
        lemma_first_piece(init, sep, at);
        assert(init.take(at) =~= s.take(at));
    } else {
        lemma_whole_piece(init, sep);
        assert(init =~= s.take(at));
    }
}

proof fn lemma_whole_piece(s: Seq<char>, sep: char)
    requires
        forall|i: int| 0 <= i < s.len() ==> s[i] != sep,
    ensures
        lines::pieces(s, sep).len() == 1,
        lines::pieces(s, sep)[0] == s,
    decreases s.len(),
{
    if s.len() > 0 {
        lemma_whole_piece(s.drop_last(), sep);
        assert(s.drop_last().push(s.last()) =~= s);
    } else {
        assert(s =~= Seq::empty());
    }
}

/// The provider and the model of `provider/model`.
pub fn split_model(model: &str) -> (out: (String, String))
    ensures
        (out.0@, out.1@) == provider_and_model(model@),
{
    let chars: Vec<char> = text::chars_of(model);
    let n: usize = chars.len();
    for i in 0..n
        invariant
            n == chars@.len(),
            chars@ == model@,
            forall|j: int| 0 <= j < i ==> chars@[j] != '/',
    {
        if chars[i] == '/' {
            let provider: String = text::string_range(&chars, 0, i);
            let rest: String = text::string_range(&chars, i + 1, n);
            proof {
                lemma_first_piece(model@, '/', i as int);
                assert(model@[i as int] == '/');
                assert(provider@ =~= model@.take(i as int));
                assert(rest@ =~= model@.skip(i + 1));
            }
            return (provider, rest);
        }
    }
    ("gemini".to_owned(), model.to_owned())
}

/// Why an evaluation is not started.
#[derive(Clone, Copy, Debug, PartialEq, Eq, Structural)]
pub enum RunRefusal {
    Budget,
    Nothing,
    TaskName,
    Duplicate,
}

/// Whether a text can name one directory.
pub open spec fn is_plain_name(name: Seq<char>) -> bool {
    name.len() > 0 && !name.contains('/') && !name.contains('\\') && name != "."@ && name != ".."@
}

/// Whether a text can name one directory.
pub fn plain_name(name: &str) -> (r: bool)
    ensures
        r == is_plain_name(name@),
{
    !name.is_empty() && !text::has_char(name, '/') && !text::has_char(name, '\\') && !text::same(
        name,
        ".",
    ) && !text::same(name, "..")
}

/// Whether the trials are on a budget that the run does not fit.
pub open spec fn misses_budget(args: RunArgs) -> bool {
    args.gemini_budget is Some && !((args.model@ == "gemini/gemini-3.8-flash"@ || args.model@
        == "gemini-3.8-flash"@) && !args.checkpoint)
}

/// Why an evaluation of the tasks is not started, if it is not.
pub open spec fn run_refusal(args: RunArgs, tasks: Seq<Seq<char>>) -> Option<RunRefusal> {
    if misses_budget(args) {
        Some(RunRefusal::Budget)
    } else if tasks.len() == 0 || args.attempts == 0 || args.concurrency == 0 {
        Some(RunRefusal::Nothing)
    } else if exists|i: int| 0 <= i < tasks.len() && !is_plain_name(#[trigger] tasks[i]) {
        Some(RunRefusal::TaskName)
    } else if !tasks.no_duplicates() {
        Some(RunRefusal::Duplicate)
    } else {
        None
    }
}

/// What is said of an evaluation that is not started.
pub open spec fn refusal_text(refusal: RunRefusal) -> Seq<char> {
    match refusal {
        RunRefusal::Budget =>
            "--gemini-budget requires Gemini gemini-3.8-flash without checkpoints"@,
        RunRefusal::Nothing => "evaluation needs at least one task, attempt, and worker"@,
        RunRefusal::TaskName => "task names must be single directory names"@,
        RunRefusal::Duplicate => "task names must be unique"@,
    }
}

impl RunRefusal {
    /// What is said of an evaluation that is not started.
    pub fn message(self) -> (out: &'static str)
        ensures
            out@ == refusal_text(self),
    {
        match self {
            RunRefusal::Budget =>
                "--gemini-budget requires Gemini gemini-3.8-flash without checkpoints",
            RunRefusal::Nothing => "evaluation needs at least one task, attempt, and worker",
            RunRefusal::TaskName => "task names must be single directory names",
            RunRefusal::Duplicate => "task names must be unique",
        }
    }
}

/// Whether an evaluation of the tasks may start.
pub fn validate_run(args: &RunArgs, tasks: &[String]) -> (out: Result<(), RunRefusal>)
    ensures
        out == match run_refusal(*args, text::views(tasks@)) {
            Some(refusal) => Err::<(), _>(refusal),
            None => Ok(()),
        },
{
    if args.gemini_budget.is_some() && !((text::same(args.model.as_str(), "gemini/gemini-3.8-flash")
        || text::same(args.model.as_str(), "gemini-3.8-flash")) && !args.checkpoint) {
        return Err(RunRefusal::Budget);
    }
    let n: usize = tasks.len();
    let ghost all = text::views(tasks@);
    assert(all.len() == n);
    if n == 0 || args.attempts == 0 || args.concurrency == 0 {
        return Err(RunRefusal::Nothing);
    }
    for i in 0..n
        invariant
            n == tasks@.len(),
            n > 0,
            args.attempts != 0,
            args.concurrency != 0,
            !misses_budget(*args),
            all == text::views(tasks@),
            forall|j: int| 0 <= j < i ==> is_plain_name(#[trigger] all[j]),
    {
        assert(all[i as int] == tasks@[i as int]@);
        if !plain_name(tasks[i].as_str()) {
            return Err(RunRefusal::TaskName);
        }
    }
    for i in 0..n
        invariant
            n == tasks@.len(),
            n > 0,
            args.attempts != 0,
            args.concurrency != 0,
            !misses_budget(*args),
            all == text::views(tasks@),
            forall|j: int| 0 <= j < all.len() ==> is_plain_name(#[trigger] all[j]),
            forall|a: int, b: int| 0 <= a < b < i ==> all[a] != all[b],
    {
        for j in 0..i
            invariant
                i < n,
                n == tasks@.len(),
                n > 0,
                args.attempts != 0,
                args.concurrency != 0,
                !misses_budget(*args),
                all == text::views(tasks@),
                forall|k: int| 0 <= k < all.len() ==> is_plain_name(#[trigger] all[k]),
                forall|k: int| 0 <= k < j ==> all[k] != all[i as int],
        {
            assert(all[i as int] == tasks@[i as int]@);
            assert(all[j as int] == tasks@[j as int]@);
            if text::same(tasks[j].as_str(), tasks[i].as_str()) {
                assert(!all.no_duplicates());
                return Err(RunRefusal::Duplicate);
            }
        }
    }
    assert(all.no_duplicates());
    Ok(())
}

/// The slice that a run is recorded under: its own, or `custom` where it lists its
/// tasks.
pub open spec fn named_slice(args: RunArgs) -> Seq<char> {
    if args.tasks@.len() == 0 {
        args.slice@
    } else {
        "custom"@
    }
}

/// The slice that a run is recorded under.
pub fn slice_name(args: &RunArgs) -> (out: String)
    ensures
        out@ == named_slice(*args),
{
    if args.tasks.len() == 0 {
        args.slice.clone()
    } else {
        "custom".to_owned()
    }
}

/// The tasks of a run: those named, or what its slice was read as.
pub fn tasks_for(args: &RunArgs, slice: Result<Vec<String>, String>) -> (out: Result<
    Vec<String>,
    String,
>)
    ensures
        args.tasks@.len() > 0 ==> (out matches Ok(tasks) && text::views(tasks@) == text::views(
            args.tasks@,
        )),
        args.tasks@.len() == 0 ==> out == slice,
{
    if args.tasks.len() == 0 {
        slice
    } else {
        Ok(text::copy_all(&args.tasks))
    }
}

/// The label of a run's job, and what its spending is counted under.
pub fn run(args: &RunArgs) -> (out: (String, &'static str))
    ensures
        out.0@ == "run-"@ + named_slice(*args),
        out.1@ == phase_of(args.slice@),
{
    let slice: String = slice_name(args);
    let mut label: String = "run-".to_owned();
    label.append(slice.as_str());
    (label, budget_phase(args.slice.as_str()))
}

/// What the spending on a slice is counted under.
pub open spec fn phase_of(slice: Seq<char>) -> Seq<char> {
    if slice == "holdout"@ {
        "holdout"@
    } else {
        "development"@
    }
}

/// What the spending on a slice is counted under.
pub fn budget_phase(slice: &str) -> (out: &'static str)
    ensures
        out@ == phase_of(slice@),
{
    if text::same(slice, "holdout") {
        "holdout"
    } else {
        "development"
    }
}

/// Why a job gets no directory.
#[derive(Clone, Copy, Debug, PartialEq, Eq, Structural)]
pub enum JobRefusal {
    Label,
    Name,
}

impl JobRefusal {
    /// What is said of a job that gets no directory.
    pub fn message(self) -> (out: &'static str)
        ensures
            out@ == match self {
                JobRefusal::Label => "job labels must not contain directory separators"@,
                JobRefusal::Name => "job name must be a single directory name"@,
            },
    {
        match self {
            JobRefusal::Label => "job labels must not contain directory separators",
            JobRefusal::Name => "job name must be a single directory name",
        }
    }
}

/// The name of a job's directory: its prefix, its label, the time and the
/// process.
pub open spec fn job_dir_name(
    prefix: Option<Seq<char>>,
    label: Seq<char>,
    stamp: nat,
    process: nat,
) -> Seq<char> {
    (match prefix {
        Some(name) => name + "-"@,
        None => Seq::empty(),
    }) + label + "-"@ + lines::digits(stamp) + "-"@ + lines::digits(process)
}

/// The name of a fresh job directory, which is one directory's.
pub fn new_job_dir(prefix: Option<&str>, label: &str, stamp: u128, process: u32) -> (out: Result<
    String,
    JobRefusal,
>)
    ensures
        out matches Err(JobRefusal::Label) <==> label@.contains('/') || label@.contains('\\'),
        out matches Err(JobRefusal::Name) <==> !(label@.contains('/') || label@.contains('\\')) && (
        prefix matches Some(name) && !is_plain_name(name@)),
        out matches Ok(name) ==> name@ == job_dir_name(
            match prefix {
                Some(found) => Some(found@),
                None => None,
            },
            label@,
            stamp as nat,
            process as nat,
        ),
{
    if text::has_char(label, '/') || text::has_char(label, '\\') {
        return Err(JobRefusal::Label);
    }
    let mut out: String = String::new();
    if let Some(name) = prefix {
        if !plain_name(name) {
            return Err(JobRefusal::Name);
        }
        out.append(name);
        out.append("-");
    }
    out.append(label);
    out.append("-");
    let shown: String = lines::wide_number(stamp);
    out.append(shown.as_str());
    out.append("-");
    let shown: String = lines::wide_number(process as u128);
    out.append(shown.as_str());
    assert(out@ =~= job_dir_name(
        match prefix {
            Some(found) => Some(found@),
            None => None,
        },
        label@,
        stamp as nat,
        process as nat,
    ));
    Ok(out)
}

/// The task that a trial directory's name begins with: what stands before its
/// first two underscores, all of it where there are none.
pub open spec fn task_of(name: Seq<char>) -> Seq<char>
    decreases name.len(),
{
    if name.len() == 0 || text::occurs_at(name, "__"@, 0) {
        Seq::empty()
    } else {
        seq![name[0]] + task_of(name.skip(1))
    }
}

/// The task of a trial directory, if its path has a name.
pub fn trial_task(trial_dir: &str) -> (out: Option<String>)
    ensures
        text::opt(out) == match place::last_name(trial_dir@) {
            Some(name) => Some(task_of(name)),
            None => None,
        },
{
    let name: String = match place::file_name(trial_dir) {
        Some(name) => name,
        None => {
            return None;
        },
    };
    let chars: Vec<char> = text::chars_of(name.as_str());
    let mark: Vec<char> = text::chars_of("__");
    let n: usize = chars.len();
    let mut at: usize = 0;
    assert(chars@.skip(0) =~= chars@);
    assert(chars@.take(0) + task_of(chars@.skip(0)) =~= task_of(chars@));
    while at < n && !text::found_at(&chars, &mark, at)
        invariant
            n == chars@.len(),
            at <= n,
            mark@ == "__"@,
            chars@ == name@,
            chars@.take(at as int) + task_of(chars@.skip(at as int)) == task_of(name@),
        decreases n - at,
    {
        proof {
            let rest = chars@.skip(at as int);
            if text::occurs_at(rest, "__"@, 0) {
                assert(rest.subrange(0, "__"@.len() as int) =~= chars@.subrange(
                    at as int,
                    at + "__"@.len(),
                ));
            }
            assert(rest.skip(1) =~= chars@.skip(at + 1));
            assert(chars@.take(at as int) + (seq![rest[0]] + task_of(rest.skip(1))) =~= chars@.take(
                at + 1,
            ) + task_of(chars@.skip(at + 1)));
        }
        at += 1;
    }
    proof {
        let rest = chars@.skip(at as int);
        if at < n {
            assert(rest.subrange(0, "__"@.len() as int) =~= chars@.subrange(
                at as int,
                at + "__"@.len(),
            ));
        }
        assert(task_of(rest) =~= Seq::empty());
        assert(chars@.take(at as int) + Seq::<char>::empty() =~= chars@.subrange(0, at as int));
    }
    Some(text::string_range(&chars, 0, at))
}

// ---------------------------------------------------------------------------
// The benchmarked executable

/// The architecture that a binary's name says, if it says one that is built.
pub open spec fn built_arch(file: Option<Seq<char>>) -> Option<Seq<char>> {
    if file == Some("rigcoder-linux-aarch64"@) {
        Some("aarch64"@)
    } else if file == Some("rigcoder-linux-x86_64"@) {
        Some("x86_64"@)
    } else {
        None
    }
}

/// The architecture that a binary's name says, if it says one that is built.
pub fn binary_arch(binary: &str) -> (out: Option<&'static str>)
    ensures
        match out {
            Some(arch) => built_arch(place::last_name(binary@)) == Some(arch@),
            None => built_arch(place::last_name(binary@)) is None,
        },
{
    match place::file_name(binary) {
        None => None,
        Some(name) => {
            if text::same(name.as_str(), "rigcoder-linux-aarch64") {
                Some("aarch64")
            } else if text::same(name.as_str(), "rigcoder-linux-x86_64") {
                Some("x86_64")
            } else {
                None
            }
        },
    }
}

/// Why a binary is not built.
#[derive(Clone, Copy, Debug, PartialEq, Eq, Structural)]
pub enum BuildRefusal {
    /// Its name is none that the build gives.
    Name,
    /// It is not where the build puts it.
    Place,
}

impl BuildRefusal {
    /// What is said of a binary that is not built.
    pub fn message(self, binary: &str) -> (out: String)
        ensures
            out@ == match self {
                BuildRefusal::Name =>
                    "building requires a harness/bin/rigcoder-linux-<architecture> binary; use --no-build for custom binaries"@,
                BuildRefusal::Place => "the build script does not produce "@ + binary@
                    + "; use its harness/bin output"@,
            },
    {
        match self {
            BuildRefusal::Name =>
                "building requires a harness/bin/rigcoder-linux-<architecture> binary; use --no-build for custom binaries".to_owned(),
            BuildRefusal::Place => {
                let mut out: String = "the build script does not produce ".to_owned();
                out.append(binary);
                out.append("; use its harness/bin output");
                out
            },
        }
    }
}

/// The names that lead to what the build makes below a root.
pub open spec fn build_output(root: Seq<char>, arch: Seq<char>) -> Seq<Seq<char>> {
    place::names(place::below(root, "harness/bin/rigcoder-linux-"@ + arch))
}

/// The architecture to build a binary for: its name must be one that the build
/// gives, and its place the one where the build puts it.
pub fn build_linux(root: &str, binary: &str) -> (out: Result<&'static str, BuildRefusal>)
    requires
        root@.len() > 0 && root@[0] == '/',
    ensures
        out matches Err(BuildRefusal::Name) <==> built_arch(place::last_name(binary@)) is None,
        out matches Ok(arch) ==> built_arch(place::last_name(binary@)) == Some(arch@),
        built_arch(place::last_name(binary@)) matches Some(arch) ==> (out is Ok <==> place::names(
            place::below(root@, binary@),
        ) == build_output(root@, arch)),
{
    let arch: &'static str = match binary_arch(binary) {
        Some(arch) => arch,
        None => {
            return Err(BuildRefusal::Name);
        },
    };
    let mut made: String = "harness/bin/rigcoder-linux-".to_owned();
    made.append(arch);
    let target: String = place::join(root, made.as_str());
    let asked: String = place::join(root, binary);
    let a: Vec<String> = place::split_names(asked.as_str());
    let b: Vec<String> = place::split_names(target.as_str());
    if same_list(&a, &b) {
        Ok(arch)
    } else {
        Err(BuildRefusal::Place)
    }
}

fn same_list(a: &[String], b: &[String]) -> (r: bool)
    ensures
        r == (text::views(a@) == text::views(b@)),
{
    let n: usize = a.len();
    assert(text::views(a@).len() == n && text::views(b@).len() == b@.len());
    if n != b.len() {
        return false;
    }
    for i in 0..n
        invariant
            n == a@.len(),
            n == b@.len(),
            forall|j: int| 0 <= j < i ==> text::views(a@)[j] == text::views(b@)[j],
    {
        assert(text::views(a@)[i as int] == a@[i as int]@);
        assert(text::views(b@)[i as int] == b@[i as int]@);
        if !text::same(a[i].as_str(), b[i].as_str()) {
            return false;
        }
    }
    assert(text::views(a@) =~= text::views(b@));
    true
}

// ---------------------------------------------------------------------------
// What Git says

/// `s` without the line breaks at its end.
pub open spec fn without_breaks(s: Seq<char>) -> Seq<char>
    decreases s.len(),
{
    if s.len() > 0 && (s.last() == '\n' || s.last() == '\r') {
        without_breaks(s.drop_last())
    } else {
        s
    }
}

/// What a Git command printed, without the line breaks at its end.
pub fn git(stdout: &str) -> (out: String)
    ensures
        out@ == without_breaks(stdout@),
{
    let chars: Vec<char> = text::chars_of(stdout);
    let mut to: usize = chars.len();
    assert(chars@.take(to as int) =~= chars@);
    while to > 0 && (chars[to - 1] == '\n' || chars[to - 1] == '\r')
        invariant
            to <= chars@.len(),
            chars@ == stdout@,
            without_breaks(stdout@) == without_breaks(chars@.take(to as int)),
        decreases to,
    {
        assert(chars@.take(to as int).drop_last() =~= chars@.take(to - 1));
        to -= 1;
    }
    assert(chars@.subrange(0, to as int) =~= chars@.take(to as int));
    text::string_range(&chars, 0, to)
}

/// The parts that are not empty.
pub open spec fn filled(parts: Seq<Seq<char>>) -> Seq<Seq<char>>
    decreases parts.len(),
{
    if parts.len() == 0 {
        Seq::empty()
    } else {
        let before = filled(parts.drop_last());
        if parts.last().len() == 0 {
            before
        } else {
            before.push(parts.last())
        }
    }
}

/// The paths in a list that NULs separate.
pub fn paths(listed: &str) -> (out: Vec<String>)
    ensures
        text::views(out@) == filled(lines::pieces(listed@, '\0')),
{
    let cut: Vec<String> = lines::split(listed, '\0');
    let ghost all = lines::pieces(listed@, '\0');
    let n: usize = cut.len();
    let mut out: Vec<String> = Vec::new();
    assert(text::views(out@) =~= filled(all.take(0)));
    for i in 0..n
        invariant
            n == cut@.len(),
            all == text::views(cut@),
            text::views(out@) == filled(all.take(i as int)),
    {
        proof {
            assert(all.take(i + 1).drop_last() =~= all.take(i as int));
            assert(all.take(i + 1).last() == cut@[i as int]@);
        }
        if !cut[i].as_str().is_empty() {
            proof {
                text::lemma_views_push(out@, cut@[i as int]);
            }
            out.push(cut[i].clone());
        }
    }
    assert(all.take(n as int) =~= all);
    out
}

/// Whether each path comes before the next, so that none is there twice.
pub open spec fn in_path_order(all: Seq<Seq<char>>) -> bool {
    forall|i: int, j: int| 0 <= i < j < all.len() ==> order::before(#[trigger] all[i], #[trigger] all[j])
}

fn add_paths(out: &mut Table<bool>, list: &[String])
    requires
        old(out).valid(),
    ensures
        final(out).valid(),
        forall|path: Seq<char>| #[trigger]
            final(out).map().contains_key(path) <==> old(out).map().contains_key(path)
                || text::views(list@).contains(path),
{
    let n: usize = list.len();
    let ghost first = out.map();
    let ghost all = text::views(list@);
    for i in 0..n
        invariant
            n == list@.len(),
            all == text::views(list@),
            out.valid(),
            forall|path: Seq<char>| #[trigger]
                out.map().contains_key(path) <==> first.contains_key(path) || all.take(
                    i as int,
                ).contains(path),
    {
        let ghost before = out.map();
        out.set(list[i].as_str(), true);
        assert forall|path: Seq<char>| #[trigger]
            out.map().contains_key(path) <==> first.contains_key(path) || all.take(
                i + 1,
            ).contains(path) by {
            let fewer = all.take(i as int);
            let more = all.take(i + 1);
            assert(before.contains_key(path) <==> first.contains_key(path) || fewer.contains(path));
            assert(all[i as int] == list@[i as int]@);
            if fewer.contains(path) {
                let k = choose|k: int| 0 <= k < fewer.len() && fewer[k] == path;
                assert(more[k] == path);
            }
            if path == all[i as int] {
                assert(more[i as int] == path);
            }
            if more.contains(path) && path != all[i as int] {
                let k = choose|k: int| 0 <= k < more.len() && more[k] == path;
                assert(fewer[k] == path);
            }
        }
    }
    assert(all.take(n as int) =~= all);
}

/// The paths that differ from the last commit, in order and each once: those
/// staged, those changed in the worktree, and those Git does not know. A staged edit
/// counts though the worktree cancels it.
pub fn changed_paths(staged: &[String], unstaged: &[String], untracked: &[String]) -> (out: Vec<
    String,
>)
    ensures
        in_path_order(text::views(out@)),
        forall|path: Seq<char>| #[trigger]
            text::views(out@).contains(path) <==> text::views(staged@).contains(path)
                || text::views(unstaged@).contains(path) || text::views(untracked@).contains(path),
{
    let mut all: Table<bool> = Table::new();
    add_paths(&mut all, staged);
    add_paths(&mut all, unstaged);
    add_paths(&mut all, untracked);
    let n: usize = all.entries.len();
    let mut out: Vec<String> = Vec::new();
    let ghost list = all.list();
    for i in 0..n
        invariant
            n == all.entries@.len(),
            list == all.list(),
            out@.len() == i,
            forall|j: int| 0 <= j < i ==> (#[trigger] out@[j])@ == list[j].0,
    {
        assert(list[i as int].0 == all.entries@[i as int].0@);
        out.push(all.entries[i].0.clone());
    }
    proof {
        let views = text::views(out@);
        assert forall|i: int, j: int| 0 <= i < j < views.len() implies order::before(
            #[trigger] views[i],
            #[trigger] views[j],
        ) by {
            assert(order::before(list[i].0, list[j].0));
        }
        assert forall|path: Seq<char>| #[trigger]
            views.contains(path) <==> text::views(staged@).contains(path) || text::views(
                unstaged@,
            ).contains(path) || text::views(untracked@).contains(path) by {
            table::lemma_contents_domain(list, path);
            assert(all.map().contains_key(path) <==> text::views(staged@).contains(path)
                || text::views(unstaged@).contains(path) || text::views(untracked@).contains(path));
            if views.contains(path) {
                let k = choose|k: int| 0 <= k < views.len() && views[k] == path;
                assert(table::stands_at(list, path, k));
            }
            if all.map().contains_key(path) {
                let k = choose|k: int| table::stands_at(list, path, k);
                assert(views[k] == path);
            }
        }
    }
    out
}

/// The paths that are inside the files, or, with `covered` false, that are not.
pub open spec fn sifted(all: Seq<Seq<char>>, files: Seq<Seq<char>>, covered: bool) -> Seq<Seq<char>>
    decreases all.len(),
{
    if all.len() == 0 {
        Seq::empty()
    } else {
        let before = sifted(all.drop_last(), files, covered);
        if is_covered(files, all.last()) == covered {
            before.push(all.last())
        } else {
            before
        }
    }
}

fn sift(changed: &[String], files: &[&str], inside_them: bool) -> (out: Vec<String>)
    ensures
        text::views(out@) == sifted(text::views(changed@), text::str_views(files@), inside_them),
{
    let ghost all = text::views(changed@);
    let n: usize = changed.len();
    let mut out: Vec<String> = Vec::new();
    assert(text::views(out@) =~= sifted(all.take(0), text::str_views(files@), inside_them));
    for i in 0..n
        invariant
            n == changed@.len(),
            all == text::views(changed@),
            text::views(out@) == sifted(all.take(i as int), text::str_views(files@), inside_them),
    {
        proof {
            assert(all.take(i + 1).drop_last() =~= all.take(i as int));
            assert(all.take(i + 1).last() == changed@[i as int]@);
        }
        if covered(files, changed[i].as_str()) == inside_them {
            proof {
                text::lemma_views_push(out@, changed@[i as int]);
            }
            out.push(changed[i].clone());
        }
    }
    assert(all.take(n as int) =~= all);
    out
}

/// What must be restored after a self-edit: every change outside the files it
/// was allowed.
pub fn clean_outside(changed: &[String], files: &[&str]) -> (out: Vec<String>)
    ensures
        text::views(out@) == sifted(text::views(changed@), text::str_views(files@), false),
{
    sift(changed, files, false)
}

/// What must be restored to reject a self-edit: every change that a lane may
/// make.
pub fn revert_mutable(changed: &[String]) -> (out: Vec<String>)
    ensures
        text::views(out@) == sifted(text::views(changed@), text::str_views(MUTABLE@), true),
{
    sift(changed, &MUTABLE, true)
}

proof fn lemma_sifted(all: Seq<Seq<char>>, files: Seq<Seq<char>>, covered: bool, path: Seq<char>)
    ensures
        sifted(all, files, covered).contains(path) <==> all.contains(path) && is_covered(
            files,
            path,
        ) == covered,
    decreases all.len(),
{
    if all.len() > 0 {
        let init = all.drop_last();
        lemma_sifted(init, files, covered, path);
        assert(all =~= init.push(all.last()));
        let before = sifted(init, files, covered);
        let after = sifted(all, files, covered);
        if all.contains(path) {
            let k = choose|k: int| 0 <= k < all.len() && all[k] == path;
            if k < init.len() {
                assert(init[k] == path);
            }
        }
        if init.contains(path) {
            let k = choose|k: int| 0 <= k < init.len() && init[k] == path;
            assert(all[k] == path);
        }
        assert(all[all.len() - 1] == all.last());
        if before.contains(path) {
            let k = choose|k: int| 0 <= k < before.len() && before[k] == path;
            assert(after[k] == path);
        }
        if after.contains(path) {
            let k = choose|k: int| 0 <= k < after.len() && after[k] == path;
            if k < before.len() {
                assert(before[k] == path);
            }
        }
        if is_covered(files, all.last()) == covered && path == all.last() {
            assert(after[after.len() - 1] == path);
        }
    }
}

/// After a self-edit is cleaned up, what is still changed is inside the files it
/// was allowed; and what a rejected self-edit may have changed is all restored.
pub proof fn nothing_outside_a_lane_survives(
    changed: Seq<Seq<char>>,
    files: Seq<Seq<char>>,
    path: Seq<char>,
)
    requires
        changed.contains(path),
    ensures
        !sifted(changed, files, false).contains(path) <==> is_covered(files, path),
        sifted(changed, text::str_views(MUTABLE@), true).contains(path) <==> is_covered(
            text::str_views(MUTABLE@),
            path,
        ),
{
    lemma_sifted(changed, files, false, path);
    lemma_sifted(changed, text::str_views(MUTABLE@), true, path);
}

/// The changes that a kept generation commits: those a lane may make, and the
/// generation's note.
pub open spec fn committed(all: Seq<Seq<char>>, note: Option<Seq<char>>) -> Seq<Seq<char>>
    decreases all.len(),
{
    if all.len() == 0 {
        Seq::empty()
    } else {
        let before = committed(all.drop_last(), note);
        if is_covered(text::str_views(MUTABLE@), all.last()) || note == Some(all.last()) {
            before.push(all.last())
        } else {
            before
        }
    }
}

/// The changes that a kept generation commits.
pub fn to_commit(changed: &[String], note: Option<&str>) -> (out: Vec<String>)
    ensures
        text::views(out@) == committed(
            text::views(changed@),
            match note {
                Some(found) => Some(found@),
                None => None,
            },
        ),
{
    let ghost all = text::views(changed@);
    let ghost kept = match note {
        Some(found) => Some(found@),
        None => None,
    };
    let n: usize = changed.len();
    let mut out: Vec<String> = Vec::new();
    assert(text::views(out@) =~= committed(all.take(0), kept));
    for i in 0..n
        invariant
            n == changed@.len(),
            all == text::views(changed@),
            kept == match note {
                Some(found) => Some(found@),
                None => None,
            },
            text::views(out@) == committed(all.take(i as int), kept),
    {
        proof {
            assert(all.take(i + 1).drop_last() =~= all.take(i as int));
            assert(all.take(i + 1).last() == changed@[i as int]@);
        }
        let is_note: bool = match note {
            Some(found) => text::same(found, changed[i].as_str()),
            None => false,
        };
        if covered(&MUTABLE, changed[i].as_str()) || is_note {
            proof {
                text::lemma_views_push(out@, changed@[i as int]);
            }
            out.push(changed[i].clone());
        }
    }
    assert(all.take(n as int) =~= all);
    out
}

/// What is done to restore a path.
#[derive(Debug)]
pub struct Restore {
    pub path: String,
    /// Whether the last commit has it: then it is restored from there, else
    /// removed. The index is reset first either way.
    pub in_head: bool,
}

/// What is done to restore each path.
pub fn restore_paths(restore: &[String], in_head: &[String]) -> (out: Vec<Restore>)
    ensures
        out@.len() == restore@.len(),
        forall|i: int|
            0 <= i < restore@.len() ==> (#[trigger] out@[i]).path@ == restore@[i]@ && out@[i].in_head
                == text::views(in_head@).contains(restore@[i]@),
{
    let n: usize = restore.len();
    let mut out: Vec<Restore> = Vec::new();
    for i in 0..n
        invariant
            n == restore@.len(),
            out@.len() == i,
            forall|j: int|
                0 <= j < i ==> (#[trigger] out@[j]).path@ == restore@[j]@ && out@[j].in_head
                    == text::views(in_head@).contains(restore@[j]@),
    {
        let known: bool = text::holds(in_head, restore[i].as_str());
        out.push(Restore { path: restore[i].clone(), in_head: known });
    }
    out
}

/// What a repository must do before it may be self-edited.
#[derive(Debug)]
pub enum Preparation {
    /// It is on its branch.
    Ready,
    /// The branch is to be made.
    CreateBranch,
    /// These changes, or staged ones, are in the way.
    Dirty { paths: Vec<String> },
    /// The branch exists, and is not checked out.
    BranchExists,
}

/// The changes other than the generated ledger's.
pub open spec fn other_than_ledger(all: Seq<Seq<char>>) -> Seq<Seq<char>>
    decreases all.len(),
{
    if all.len() == 0 {
        Seq::empty()
    } else {
        let before = other_than_ledger(all.drop_last());
        if all.last() == "harness/ledger.jsonl"@ {
            before
        } else {
            before.push(all.last())
        }
    }
}

/// What a repository must do before it may be self-edited: it must have a clean
/// index and worktree, but for an unstaged ledger, and an existing branch is
/// never reset.
pub fn prepare_evolve(changed: &[String], staged: &str, branch: &str, branch_exists: bool) -> (out:
    Preparation)
    ensures
        ({
            let dirty = other_than_ledger(text::views(changed@));
            let clean = dirty.len() == 0 && staged@.len() == 0;
            match out {
                Preparation::Dirty { paths } => !clean && text::views(paths@) == dirty,
                Preparation::Ready => clean && branch@ == "evolve"@,
                Preparation::BranchExists => clean && branch@ != "evolve"@ && branch_exists,
                Preparation::CreateBranch => clean && branch@ != "evolve"@ && !branch_exists,
            }
        }),
{
    let ghost all = text::views(changed@);
    let n: usize = changed.len();
    let mut dirty: Vec<String> = Vec::new();
    assert(text::views(dirty@) =~= other_than_ledger(all.take(0)));
    for i in 0..n
        invariant
            n == changed@.len(),
            all == text::views(changed@),
            text::views(dirty@) == other_than_ledger(all.take(i as int)),
    {
        proof {
            assert(all.take(i + 1).drop_last() =~= all.take(i as int));
            assert(all.take(i + 1).last() == changed@[i as int]@);
        }
        if !text::same(changed[i].as_str(), "harness/ledger.jsonl") {
            proof {
                text::lemma_views_push(dirty@, changed@[i as int]);
            }
            dirty.push(changed[i].clone());
        }
    }
    assert(all.take(n as int) =~= all);
    assert(text::views(dirty@).len() == dirty@.len());
    if dirty.len() > 0 || !staged.is_empty() {
        return Preparation::Dirty { paths: dirty };
    }
    if text::same(branch, "evolve") {
        Preparation::Ready
    } else if branch_exists {
        Preparation::BranchExists
    } else {
        Preparation::CreateBranch
    }
}

/// The Git commands whose outputs tell whether a repository changed while a
/// proposal was made.
pub fn proposal_baseline() -> (out: Vec<Vec<&'static str>>)
    ensures
        out@.len() == 5,
        text::str_views(out@[0]@) == seq!["rev-parse"@, "HEAD"@],
        text::str_views(out@[1]@) == seq!["rev-parse"@, "--symbolic-full-name"@, "HEAD"@],
        text::str_views(out@[2]@) == seq![
            "status"@,
            "--porcelain=v1"@,
            "--untracked-files=all"@,
        ],
        text::str_views(out@[3]@) == seq!["diff"@, "--no-ext-diff"@, "--binary"@],
        text::str_views(out@[4]@) == seq!["diff"@, "--cached"@, "--no-ext-diff"@, "--binary"@],
{
    let mut out: Vec<Vec<&'static str>> = Vec::new();
    let commit: Vec<&'static str> = vec!["rev-parse", "HEAD"];
    let branch: Vec<&'static str> = vec!["rev-parse", "--symbolic-full-name", "HEAD"];
    let status: Vec<&'static str> = vec!["status", "--porcelain=v1", "--untracked-files=all"];
    let unstaged: Vec<&'static str> = vec!["diff", "--no-ext-diff", "--binary"];
    let staged: Vec<&'static str> = vec!["diff", "--cached", "--no-ext-diff", "--binary"];
    assert(text::str_views(commit@) =~= seq!["rev-parse"@, "HEAD"@]);
    assert(text::str_views(branch@) =~= seq!["rev-parse"@, "--symbolic-full-name"@, "HEAD"@]);
    assert(text::str_views(status@) =~= seq![
        "status"@,
        "--porcelain=v1"@,
        "--untracked-files=all"@,
    ]);
    assert(text::str_views(unstaged@) =~= seq!["diff"@, "--no-ext-diff"@, "--binary"@]);
    assert(text::str_views(staged@) =~= seq!["diff"@, "--cached"@, "--no-ext-diff"@, "--binary"@]);
    out.push(commit);
    out.push(branch);
    out.push(status);
    out.push(unstaged);
    out.push(staged);
    out
}

/// The Git arguments that tell where the marker of an unfinished improvement
/// stands; each linked worktree has its own.
pub fn pending_improvement() -> (out: Vec<&'static str>)
    ensures
        text::str_views(out@) == seq![
            "rev-parse"@,
            "--git-path"@,
            "rigcoder-pending-improvement.json"@,
        ],
{
    let out: Vec<&'static str> = vec![
        "rev-parse",
        "--git-path",
        "rigcoder-pending-improvement.json",
    ];
    assert(text::str_views(out@) =~= seq![
        "rev-parse"@,
        "--git-path"@,
        "rigcoder-pending-improvement.json"@,
    ]);
    out
}

// ---------------------------------------------------------------------------
// What the meta agent is told

/// The meta agent's task, with names in braces for what differs.
pub const META_TASK: &'static str =
    "You are improving rigcoder, the coding agent in this repository, so it scores higher on Terminal-Bench.\n\nRead {report} first for the failure digest and evidence (instructions, transcripts, verifier output). Oversized reports link report.full.md; read relevant ranges there when the excerpt omits needed evidence.\n\nThis generation works in the {lane} lane: {levers}. You may only edit these files: {mutable}. Nothing else.\n\nRules:\n- Make one coherent improvement aimed at the failure patterns the digest shows, not many unrelated tweaks.\n- Do not touch the harness/ directory except the requested note, the rigcoder-bench crate, Cargo.toml files, or the model choice. Do not read {forbidden}.\n- Use read_file, list_files and grep to inspect the repository, and write_file/edit_file for changes. Bash is disabled in this scoped improvement run. The trusted harness will run cargo check --workspace after validating the edit; finish with your note once the file changes are ready.\n- Finish with a short note: what you changed and which failures it targets. Write that note to {note}.\n";

/// The meta agent's task for a report, a lane and a note.
pub open spec fn meta_task_text(report: Seq<char>, lane: Lane, note: Seq<char>) -> Seq<char> {
    let a = lines::replaced(META_TASK@, "{report}"@, report);
    let b = lines::replaced(a, "{lane}"@, lane_name(lane));
    let c = lines::replaced(b, "{levers}"@, lane_levers(lane));
    let d = lines::replaced(c, "{mutable}"@, lines::joined(lane_files(lane), ", "@));
    let e = lines::replaced(
        d,
        "{forbidden}"@,
        lines::joined(text::str_views(META_FORBIDDEN@), ", "@),
    );
    lines::replaced(e, "{note}"@, note)
}

/// The meta agent's task for a report, a lane and a note.
pub fn meta_task(report: &str, lane: Lane, note: &str) -> (out: String)
    ensures
        out@ == meta_task_text(report@, lane, note@),
{
    proof {
        reveal_strlit("{report}");
        reveal_strlit("{lane}");
        reveal_strlit("{levers}");
        reveal_strlit("{mutable}");
        reveal_strlit("{forbidden}");
        reveal_strlit("{note}");
    }
    let files: String = lines::join_strs(lane.files(), ", ");
    let forbidden: String = lines::join_strs(&META_FORBIDDEN, ", ");
    let a: String = lines::replace(META_TASK, "{report}", report);
    let b: String = lines::replace(a.as_str(), "{lane}", lane.name());
    let c: String = lines::replace(b.as_str(), "{levers}", lane.levers());
    let d: String = lines::replace(c.as_str(), "{mutable}", files.as_str());
    let e: String = lines::replace(d.as_str(), "{forbidden}", forbidden.as_str());
    lines::replace(e.as_str(), "{note}", note)
}

/// The name of a generation's note.
pub fn note_name(generation: usize, lane: Lane, job: &str) -> (out: String)
    ensures
        out@ == "gen-"@ + lines::three_digits(generation as nat) + "-"@ + lane_name(lane) + "-"@
            + job@ + ".md"@,
{
    let mut out: String = "gen-".to_owned();
    let shown: String = lines::padded(generation);
    out.append(shown.as_str());
    out.append("-");
    out.append(lane.name());
    out.append("-");
    out.append(job);
    out.append(".md");
    out
}

/// The label of a generation's evaluation.
pub fn generation_label(generation: usize) -> (out: String)
    ensures
        out@ == "gen-"@ + lines::three_digits(generation as nat),
{
    let mut out: String = "gen-".to_owned();
    let shown: String = lines::padded(generation);
    out.append(shown.as_str());
    out
}

/// Paths that the meta agent is denied whatever its lane.
pub const DENIED: [&'static str; 5] = [
    "harness/",
    "Cargo.toml",
    "Cargo.lock",
    "crates/rigcoder-bench/",
    ".github/",
];

/// Each part after the flag.
pub open spec fn flagged(flag: Seq<char>, parts: Seq<Seq<char>>) -> Seq<Seq<char>>
    decreases parts.len(),
{
    if parts.len() == 0 {
        Seq::empty()
    } else {
        flagged(flag, parts.drop_last()).push(flag).push(parts.last())
    }
}

/// The arguments that scope the meta agent: it may touch its lane's files and
/// its note, and is denied the rest of the harness.
pub open spec fn scope_words(lane: Lane, note: Seq<char>) -> Seq<Seq<char>> {
    flagged("--allow"@, lane_files(lane).push(note)) + flagged(
        "--deny-path"@,
        text::str_views(DENIED@),
    )
}

fn append_flagged(out: &mut Vec<String>, flag: &str, parts: &[&str])
    ensures
        text::views(final(out)@) == text::views(old(out)@) + flagged(
            flag@,
            text::str_views(parts@),
        ),
{
    let n: usize = parts.len();
    let ghost first = text::views(out@);
    let ghost all = text::str_views(parts@);
    assert(first + flagged(flag@, all.take(0)) =~= first);
    for i in 0..n
        invariant
            n == parts@.len(),
            all == text::str_views(parts@),
            text::views(out@) == first + flagged(flag@, all.take(i as int)),
    {
        proof {
            assert(all.take(i + 1).drop_last() =~= all.take(i as int));
            assert(all.take(i + 1).last() == parts@[i as int]@);
        }
        let ghost before = out@;
        out.push(flag.to_owned());
        let ghost mid = out@;
        assert(text::views(mid) =~= text::views(before).push(flag@));
        out.push(parts[i].to_owned());
        assert(text::views(out@) =~= text::views(mid).push(parts@[i as int]@));
        assert(text::views(out@) =~= first + flagged(flag@, all.take(i + 1)));
    }
    assert(all.take(n as int) =~= all);
}

/// The arguments that scope the meta agent.
pub fn scope_arguments(lane: Lane, note: &str) -> (out: Vec<String>)
    ensures
        text::views(out@) == scope_words(lane, note@),
{
    let mut out: Vec<String> = Vec::new();
    append_flagged(&mut out, "--allow", lane.files());
    let ghost allowed = out@;
    assert(text::views(allowed) =~= flagged("--allow"@, lane_files(lane)));
    out.push("--allow".to_owned());
    let ghost mid = out@;
    assert(text::views(mid) =~= text::views(allowed).push("--allow"@));
    out.push(note.to_owned());
    assert(text::views(out@) =~= text::views(mid).push(note@));
    assert(lane_files(lane).push(note@).drop_last() =~= lane_files(lane));
    assert(text::views(out@) =~= flagged("--allow"@, lane_files(lane).push(note@)));
    append_flagged(&mut out, "--deny-path", &DENIED);
    out
}

/// The arguments that the meta agent is run with, its files beside the job's
/// report.
pub open spec fn improver_words(
    root: Seq<char>,
    job: Seq<char>,
    lane: Lane,
    note: Seq<char>,
    task: Seq<char>,
) -> Seq<Seq<char>> {
    seq![
        "--cwd"@,
        root,
        "--max-turns"@,
        "80"@,
        "--timeout-secs"@,
        "1800"@,
        "--transcript"@,
        place::below(job, "improve-transcript.jsonl"@),
        "--effect-log"@,
        place::below(job, "improve-effects.json"@),
        "--checkpoint"@,
        place::below(job, "improve-scenes"@),
    ] + scope_words(lane, note) + seq![task]
}

/// The arguments that the meta agent is run with on a task, for a job's report.
pub fn improver_arguments(root: &str, job: &str, lane: Lane, note: &str, task: &str) -> (out: Vec<
    String,
>)
    ensures
        text::views(out@) == improver_words(root@, job@, lane, note@, task@),
{
    let transcript: String = place::join(job, "improve-transcript.jsonl");
    let effects: String = place::join(job, "improve-effects.json");
    let scenes: String = place::join(job, "improve-scenes");
    let mut out: Vec<String> = docker::words(
        &[
            "--cwd",
            root,
            "--max-turns",
            "80",
            "--timeout-secs",
            "1800",
            "--transcript",
            transcript.as_str(),
            "--effect-log",
            effects.as_str(),
            "--checkpoint",
            scenes.as_str(),
        ],
    );
    let ghost first = text::views(out@);
    let scope: Vec<String> = scope_arguments(lane, note);
    text::append_range(&mut out, &scope, 0, scope.len());
    assert(text::views(out@) =~= first + scope_words(lane, note@));
    let ghost before = out@;
    out.push(task.to_owned());
    assert(text::views(out@) =~= text::views(before).push(task@));
    assert(text::views(out@) =~= improver_words(root@, job@, lane, note@, task@));
    out
}

// ---------------------------------------------------------------------------
// Branches and replay

/// Why a recorded trial is not branched from.
#[derive(Clone, Copy, Debug, PartialEq, Eq, Structural)]
pub enum BranchRefusal {
    Budgeted,
    NoAttempts,
    NoKey,
}

impl BranchRefusal {
    /// What is said of a trial that is not branched from.
    pub fn message(self) -> (out: &'static str)
        ensures
            out@ == match self {
                BranchRefusal::Budgeted =>
                    "budgeted branching is not supported; use fresh trials"@,
                BranchRefusal::NoAttempts => "branch-from requires at least one attempt"@,
                BranchRefusal::NoKey => "provider API key is not set"@,
            },
    {
        match self {
            BranchRefusal::Budgeted => "budgeted branching is not supported; use fresh trials",
            BranchRefusal::NoAttempts => "branch-from requires at least one attempt",
            BranchRefusal::NoKey => "provider API key is not set",
        }
    }
}

/// Whether a recorded trial may be branched from so many times: on no budget, and
/// at least once.
pub fn branch_from(args: &RunArgs, times: usize) -> (out: Result<(), BranchRefusal>)
    ensures
        out == if args.gemini_budget is Some {
            Err::<(), _>(BranchRefusal::Budgeted)
        } else if times == 0 {
            Err::<(), _>(BranchRefusal::NoAttempts)
        } else {
            Ok(())
        },
{
    if args.gemini_budget.is_some() {
        Err(BranchRefusal::Budgeted)
    } else if times == 0 {
        Err(BranchRefusal::NoAttempts)
    } else {
        Ok(())
    }
}

/// Whether a branch can reach its model: a provider that needs a key needs it set,
/// which `keyed` says.
pub fn branch_key(model: &str, keyed: bool) -> (out: Result<(), BranchRefusal>)
    ensures
        out == if key_variable(provider_and_model(model@).0) is Some && !keyed {
            Err::<(), _>(BranchRefusal::NoKey)
        } else {
            Ok(())
        },
{
    let (provider, _) = split_model(model);
    if provider_key(provider.as_str()).is_some() && !keyed {
        Err(BranchRefusal::NoKey)
    } else {
        Ok(())
    }
}

/// The arguments that replay an effect log in a workspace, on a prompt of its
/// own where one is given.
pub fn replay_arguments(workdir: &str, log: &str, prompt: Option<&str>) -> (out: Vec<String>)
    ensures
        text::views(out@) == seq![
            "--cwd"@,
            workdir@,
            "--replay"@,
            log@,
            "--provider"@,
            "gemini"@,
        ] + match prompt {
            Some(file) => seq!["--prompt-file"@, file@],
            None => Seq::empty(),
        },
{
    let mut out: Vec<String> = docker::words(
        &["--cwd", workdir, "--replay", log, "--provider", "gemini"],
    );
    let ghost first = text::views(out@);
    assert(first =~= seq!["--cwd"@, workdir@, "--replay"@, log@, "--provider"@, "gemini"@]);
    match prompt {
        Some(file) => {
            let more: Vec<String> = docker::words(&["--prompt-file", file]);
            text::append_range(&mut out, &more, 0, more.len());
            assert(text::views(out@) =~= first + seq!["--prompt-file"@, file@]);
        },
        None => {
            assert(text::views(out@) =~= first + Seq::<Seq<char>>::empty());
        },
    }
    out
}

/// What a replay's exit code says.
#[derive(Clone, Copy, Debug, PartialEq, Eq, Structural)]
pub enum Replay {
    /// The current prompt and tools reproduce the recorded requests exactly.
    Reproduced,
    /// They do not: a live run is needed.
    Diverged,
    /// It ended some other way, or by a signal.
    Failed(Option<i32>),
}

/// What a replay's exit code says.
pub fn replay(code: Option<i32>) -> (out: Replay)
    ensures
        out == if code == Some(0i32) {
            Replay::Reproduced
        } else if code == Some(3i32) {
            Replay::Diverged
        } else {
            Replay::Failed(code)
        },
{
    match code {
        Some(0) => Replay::Reproduced,
        Some(3) => Replay::Diverged,
        other => Replay::Failed(other),
    }
}

// ---------------------------------------------------------------------------
// What lanes, runs and scopes keep to

/// Failed trials whose timeouts or cut results exceed their limits point at the tools;
/// else those that deliberate, repeat or edit late at the prompt; else those that take
/// more input at shaping; else those that do not settle at the systems. Nothing else is
/// a signal, and nothing points at the settings.
pub proof fn each_signal_points_at_its_lane(f: Aggregate, p: Aggregate, limits: Limits)
    ensures
        ({
            let tools = limits.timeouts.below(f.timeouts) || limits.truncations.below(
                f.truncations,
            );
            let prompt = limits.ended_deliberating.below(f.ended_deliberating)
                || limits.repeated_calls.below(f.repeated_calls)
                || limits.calls_before_first_edit.below(f.calls_before_first_edit);
            let shaping = f.input_tokens is Some && p.input_tokens is Some
                && limits.input_tokens is Some && limits.input_tokens->0.below(f.input_tokens->0)
                && p.input_tokens->0.rank() > 0 && !p.input_tokens->0.is_nan();
            let systems = limits.no_settle.below(f.no_settle);
            let found = pointed_at(f, p, limits);
            &&& found == Some(Lane::Tools) <==> f.trials > 0 && tools
            &&& found == Some(Lane::Prompt) <==> f.trials > 0 && !tools && prompt
            &&& found == Some(Lane::Shaping) <==> f.trials > 0 && !tools && !prompt && shaping
            &&& found == Some(Lane::Systems) <==> f.trials > 0 && !tools && !prompt && !shaping
                && systems
            &&& found != Some(Lane::Settings)
        }),
{
}

/// A signal decides the lane whatever came before. Without one the lanes take turns:
/// the prompt first, then the tools, the settings, shaping, the systems, and the prompt
/// again.
pub proof fn lanes_take_turns_without_a_signal(digest: Option<(Digest, Limits)>)
    ensures
        digest matches Some(pair) ==> (pointed_at(pair.0.failed, pair.0.passed, pair.1)
            matches Some(lane) ==> forall|previous: Option<Lane>| #[trigger]
            chosen(digest, previous) == lane),
        !(digest matches Some(pair) && pointed_at(pair.0.failed, pair.0.passed, pair.1) is Some)
            ==> chosen(digest, None) == Lane::Prompt && chosen(digest, Some(Lane::Prompt))
            == Lane::Tools && chosen(digest, Some(Lane::Tools)) == Lane::Settings && chosen(
            digest,
            Some(Lane::Settings),
        ) == Lane::Shaping && chosen(digest, Some(Lane::Shaping)) == Lane::Systems && chosen(
            digest,
            Some(Lane::Systems),
        ) == Lane::Prompt,
{
}

/// A path is covered by a list exactly when one of its members covers it: a directory,
/// which ends in a slash, by every path that begins with it, and a file by itself alone.
pub proof fn each_file_covers_on_its_own(files: Seq<Seq<char>>, file: Seq<char>, path: Seq<char>)
    ensures
        !is_covered(Seq::empty(), path),
        is_covered(files.push(file), path) <==> is_covered(files, path) || (file.len() > 0
            && file.last() == '/' && file.is_prefix_of(path)) || path == file,
{
    let more = files.push(file);
    if is_covered(files, path) {
        let i = choose|i: int| 0 <= i < files.len() && inside(#[trigger] files[i], path);
        assert(inside(more[i], path));
    }
    if is_covered(more, path) {
        let i = choose|i: int| 0 <= i < more.len() && inside(#[trigger] more[i], path);
        if i < files.len() {
            assert(inside(files[i], path));
        }
    }
    assert(more[files.len() as int] == file);
    assert(file.is_prefix_of(file)) by {
        assert(file.subrange(0, file.len() as int) =~= file);
    }
    if path == file {
        assert(inside(more[files.len() as int], path));
    }
    if file.len() > 0 && file.last() == '/' && file.is_prefix_of(path) {
        assert(inside(more[files.len() as int], path));
    }
}

/// Whatever may be changed at all may be changed in some lane, so that no part of the
/// revert set is out of every lane's reach.
pub proof fn every_mutable_path_has_its_lane(path: Seq<char>)
    requires
        is_covered(text::str_views(MUTABLE@), path),
    ensures
        is_covered(lane_files(Lane::Prompt), path) || is_covered(lane_files(Lane::Tools), path)
            || is_covered(lane_files(Lane::Settings), path) || is_covered(
            lane_files(Lane::Shaping),
            path,
        ) || is_covered(lane_files(Lane::Systems), path),
{
    let all = text::str_views(MUTABLE@);
    let i = choose|i: int| 0 <= i < all.len() && inside(#[trigger] all[i], path);
    assert(all[0] == "crates/rigcoder/src/prompt.md"@);
    assert(all[1] == "crates/rigcoder/src/tools.rs"@);
    assert(all[2] == "crates/rigcoder/src/tools/"@);
    assert(all[3] == "crates/rigcoder/src/lib.rs"@);
    assert(all[4] == "crates/rigcoder-cli/src/main.rs"@);
    assert(all[5] == "crates/rigcoder/src/session.rs"@);
    assert(all[6] == "crates/rigcoder/src/steer.rs"@);
    assert(inside(lane_files(Lane::Prompt)[0], path) || i != 0);
    assert(inside(lane_files(Lane::Tools)[0], path) || i != 1);
    assert(inside(lane_files(Lane::Tools)[1], path) || i != 2);
    assert(inside(lane_files(Lane::Settings)[0], path) || i != 3);
    assert(inside(lane_files(Lane::Settings)[1], path) || i != 4);
    assert(inside(lane_files(Lane::Shaping)[0], path) || i != 5);
    assert(inside(lane_files(Lane::Systems)[0], path) || i != 6);
}

/// What stands before a model's first slash is its provider and what follows is the
/// model; without a slash all of it is a model of Gemini's.
pub proof fn the_first_slash_parts_the_model(model: Seq<char>)
    ensures
        !model.contains('/') ==> provider_and_model(model) == ("gemini"@, model),
        model.contains('/') ==> {
            let (provider, rest) = provider_and_model(model);
            &&& !provider.contains('/')
            &&& provider + "/"@ + rest == model
        },
{
    if model.contains('/') {
        let all = lines::pieces(model, '/');
        lines::pieces_join_to_the_text(model, '/');
        let k = choose|k: int| 0 <= k < model.len() && model[k] == '/';
        lemma_first_slash(model, k);
        let at = all[0].len() as int;
        reveal_strlit("/");
        assert(all[0] + "/"@ + model.skip(at + 1) =~= model);
    }
}

proof fn lemma_first_slash(model: Seq<char>, k: int)
    requires
        0 <= k < model.len(),
        model[k] == '/',
    ensures
        ({
            let first = lines::pieces(model, '/')[0];
            &&& first.len() < model.len()
            &&& first == model.take(first.len() as int)
            &&& model[first.len() as int] == '/'
        }),
    decreases k,
{
    if exists|i: int| 0 <= i < k && model[i] == '/' {
        let i = choose|i: int| 0 <= i < k && model[i] == '/';
        lemma_first_slash(model, i);
    } else {
        lemma_first_piece(model, '/', k);
    }
}

/// Three providers keep their key in a variable of their own, and no other is known.
pub proof fn three_providers_have_a_key(provider: Seq<char>)
    ensures
        key_variable("anthropic"@) == Some("ANTHROPIC_API_KEY"@),
        key_variable("openai"@) == Some("OPENAI_API_KEY"@),
        key_variable("gemini"@) == Some("GEMINI_API_KEY"@),
        key_variable(provider) is Some <==> provider == "anthropic"@ || provider == "openai"@
            || provider == "gemini"@,
{
    reveal_strlit("anthropic");
    reveal_strlit("openai");
    reveal_strlit("gemini");
    assert("openai"@[0] != "gemini"@[0]);
    assert("anthropic"@.len() != "openai"@.len());
    assert("anthropic"@.len() != "gemini"@.len());
}

/// A run may start exactly when it fits the budget it may be on, has something to do and
/// someone to do it, and names its tasks by plain names, each once.
pub proof fn a_run_starts_exactly_when_its_arguments_hold(args: RunArgs, tasks: Seq<Seq<char>>)
    ensures
        run_refusal(args, tasks) is None <==> (args.gemini_budget is None || ((args.model@
            == "gemini/gemini-3.8-flash"@ || args.model@ == "gemini-3.8-flash"@)
            && !args.checkpoint)) && tasks.len() > 0 && args.attempts > 0 && args.concurrency > 0
            && (forall|i: int|
            0 <= i < tasks.len() ==> (#[trigger] tasks[i]).len() > 0 && !tasks[i].contains('/')
                && !tasks[i].contains('\\') && tasks[i] != "."@ && tasks[i] != ".."@) && (forall|
            i: int,
            j: int,
        |
            0 <= i < j < tasks.len() ==> tasks[i] != tasks[j]),
        run_refusal(args, tasks) == Some(RunRefusal::Duplicate) ==> exists|i: int, j: int|
            0 <= i < j < tasks.len() && tasks[i] == tasks[j],
        run_refusal(args, tasks) == Some(RunRefusal::TaskName) ==> exists|i: int|
            0 <= i < tasks.len() && !is_plain_name(#[trigger] tasks[i]),
        run_refusal(args, tasks) == Some(RunRefusal::Nothing) ==> tasks.len() == 0 || args.attempts
            == 0 || args.concurrency == 0,
        run_refusal(args, tasks) == Some(RunRefusal::Budget) ==> args.gemini_budget is Some,
{
    if !tasks.no_duplicates() {
        let (i, j) = choose|i: int, j: int|
            (0 <= i < tasks.len() && 0 <= j < tasks.len() && i != j) && tasks[i] == tasks[j];
        if i < j {
            assert(0 <= i < j < tasks.len() && tasks[i] == tasks[j]);
        } else {
            assert(0 <= j < i < tasks.len() && tasks[j] == tasks[i]);
        }
    } else {
        assert(forall|i: int, j: int| 0 <= i < j < tasks.len() ==> tasks[i] != tasks[j]);
    }
    if exists|i: int| 0 <= i < tasks.len() && !is_plain_name(#[trigger] tasks[i]) {
        let i = choose|i: int| 0 <= i < tasks.len() && !is_plain_name(#[trigger] tasks[i]);
        assert(!(tasks[i].len() > 0 && !tasks[i].contains('/') && !tasks[i].contains('\\')
            && tasks[i] != "."@ && tasks[i] != ".."@));
    } else {
        assert forall|i: int| 0 <= i < tasks.len() implies (#[trigger] tasks[i]).len() > 0
            && !tasks[i].contains('/') && !tasks[i].contains('\\') && tasks[i] != "."@
            && tasks[i] != ".."@ by {
            assert(is_plain_name(tasks[i]));
        }
    }
}

/// A run that lists its tasks is recorded under `custom`, any other under its slice; and
/// only the holdout's spending is counted as the holdout's.
pub proof fn runs_are_recorded_by_what_they_ran(args: RunArgs, slice: Seq<char>)
    ensures
        args.tasks@.len() > 0 ==> named_slice(args) == "custom"@,
        args.tasks@.len() == 0 ==> named_slice(args) == args.slice@,
        phase_of(slice) == "holdout"@ <==> slice == "holdout"@,
        slice != "holdout"@ ==> phase_of(slice) == "development"@,
{
    reveal_strlit("holdout");
    reveal_strlit("development");
    assert("holdout"@.len() != "development"@.len());
}

proof fn lemma_no_dash(n: nat)
    ensures
        forall|i: int| 0 <= i < lines::digits(n).len() ==> (#[trigger] lines::digits(n)[i]) != '-',
{
    lines::digits_stand_for_their_number(n);
}

/// Two jobs of one name that are begun at different times or by different processes have
/// different directories.
pub proof fn jobs_have_directories_of_their_own(
    prefix: Option<Seq<char>>,
    label: Seq<char>,
    stamp: nat,
    process: nat,
    other_stamp: nat,
    other_process: nat,
)
    requires
        job_dir_name(prefix, label, stamp, process) == job_dir_name(
            prefix,
            label,
            other_stamp,
            other_process,
        ),
    ensures
        stamp == other_stamp,
        process == other_process,
        text::occurs(job_dir_name(prefix, label, stamp, process), label),
{
    let head = (match prefix {
        Some(name) => name + "-"@,
        None => Seq::empty(),
    }) + label + "-"@;
    let a = lines::digits(stamp);
    let b = lines::digits(process);
    let c = lines::digits(other_stamp);
    let d = lines::digits(other_process);
    let whole = job_dir_name(prefix, label, stamp, process);
    reveal_strlit("-");
    assert(whole =~= head + (a + "-"@ + b));
    assert(whole =~= head + (c + "-"@ + d));
    let x = a + "-"@ + b;
    let y = c + "-"@ + d;
    assert(x =~= whole.skip(head.len() as int));
    assert(y =~= whole.skip(head.len() as int));
    lemma_no_dash(stamp);
    lemma_no_dash(other_stamp);
    assert(x[a.len() as int] == '-');
    assert(y[c.len() as int] == '-');
    if a.len() < c.len() {
        assert(y[a.len() as int] == c[a.len() as int]);
    } else if c.len() < a.len() {
        assert(x[c.len() as int] == a[c.len() as int]);
    }
    assert(a =~= x.take(a.len() as int));
    assert(c =~= y.take(c.len() as int));
    assert(b =~= x.skip(a.len() as int + 1));
    assert(d =~= y.skip(c.len() as int + 1));
    lines::digits_stand_for_their_number(stamp);
    lines::digits_stand_for_their_number(other_stamp);
    lines::digits_stand_for_their_number(process);
    lines::digits_stand_for_their_number(other_process);
    let start = match prefix {
        Some(name) => name + "-"@,
        None => Seq::empty(),
    };
    assert(whole =~= start + label + ("-"@ + x));
    text::lemma_occurs_between(start, label, "-"@ + x);
}

/// A trial's task is what stands before the first two underscores of its name, and all
/// of the name where it has none.
pub proof fn the_task_ends_at_the_first_two_underscores(name: Seq<char>, k: int)
    requires
        0 <= k <= name.len(),
        forall|i: int| 0 <= i < k ==> !text::occurs_at(name, "__"@, i),
        k < name.len() ==> text::occurs_at(name, "__"@, k),
    ensures
        task_of(name) == name.take(k),
    decreases k,
{
    if k == 0 {
        assert(name.take(0) =~= Seq::empty());
    } else {
        let rest = name.skip(1);
        let mark = "__"@.len() as int;
        assert forall|i: int| 0 <= i < k - 1 implies !text::occurs_at(rest, "__"@, i) by {
            if text::occurs_at(rest, "__"@, i) {
                assert(name.subrange(i + 1, i + 1 + mark) =~= rest.subrange(i, i + mark));
                assert(text::occurs_at(name, "__"@, i + 1));
            }
        }
        if k < name.len() {
            assert(name.subrange(k, k + mark) =~= rest.subrange(k - 1, k - 1 + mark));
        }
        the_task_ends_at_the_first_two_underscores(rest, k - 1);
        assert(!text::occurs_at(name, "__"@, 0));
        assert(seq![name[0]] + rest.take(k - 1) =~= name.take(k));
    }
}

/// A binary's architecture is what its name says after `rigcoder-linux-`, where that is
/// one of the two that are built.
pub proof fn a_binary_is_named_by_its_architecture(file: Option<Seq<char>>)
    ensures
        built_arch(file) matches Some(arch) ==> file == Some("rigcoder-linux-"@ + arch) && (arch
            == "aarch64"@ || arch == "x86_64"@),
        built_arch(Some("rigcoder-linux-aarch64"@)) == Some("aarch64"@),
        built_arch(Some("rigcoder-linux-x86_64"@)) == Some("x86_64"@),
{
    reveal_strlit("rigcoder-linux-");
    reveal_strlit("aarch64");
    reveal_strlit("x86_64");
    reveal_strlit("rigcoder-linux-aarch64");
    reveal_strlit("rigcoder-linux-x86_64");
    assert("rigcoder-linux-"@ + "aarch64"@ =~= "rigcoder-linux-aarch64"@);
    assert("rigcoder-linux-"@ + "x86_64"@ =~= "rigcoder-linux-x86_64"@);
    assert("rigcoder-linux-aarch64"@.len() != "rigcoder-linux-x86_64"@.len());
}

/// Only line breaks are taken off the end of what Git printed, and all of them.
pub proof fn only_line_breaks_are_taken_off(s: Seq<char>)
    ensures
        without_breaks(s).len() <= s.len(),
        without_breaks(s) == s.take(without_breaks(s).len() as int),
        without_breaks(s).len() > 0 ==> without_breaks(s).last() != '\n' && without_breaks(s).last()
            != '\r',
        forall|i: int|
            without_breaks(s).len() <= i < s.len() ==> s[i] == '\n' || s[i] == '\r',
    decreases s.len(),
{
    let k = without_breaks(s).len() as int;
    if s.len() > 0 && (s.last() == '\n' || s.last() == '\r') {
        let init = s.drop_last();
        only_line_breaks_are_taken_off(init);
        assert(init.take(k) =~= s.take(k));
        assert forall|i: int| k <= i < s.len() implies s[i] == '\n' || s[i] == '\r' by {
            if i < init.len() {
                assert(init[i] == s[i]);
            }
        }
    } else {
        assert(s.take(k) =~= s);
    }
}

/// The paths that a list names are all of its parts that hold something, in order. Of
/// the changes, those to restore and those in the way are told apart by their paths
/// alone, and each keeps its order; a kept generation commits every change that a lane
/// may make and its note, and nothing else.
pub proof fn changes_are_told_apart_by_their_paths(
    all: Seq<Seq<char>>,
    files: Seq<Seq<char>>,
    covered: bool,
    note: Option<Seq<char>>,
)
    ensures
        filled(all) == all.filter(|part: Seq<char>| part.len() > 0),
        sifted(all, files, covered) == all.filter(
            |path: Seq<char>| is_covered(files, path) == covered,
        ),
        committed(all, note) == all.filter(
            |path: Seq<char>|
                is_covered(text::str_views(MUTABLE@), path) || (note is Some && note->0 == path),
        ),
        other_than_ledger(all) == all.filter(
            |path: Seq<char>| path != "harness/ledger.jsonl"@,
        ),
    decreases all.len(),
{
    reveal(Seq::filter);
    if all.len() > 0 {
        changes_are_told_apart_by_their_paths(all.drop_last(), files, covered, note);
    } else {
        assert(all =~= Seq::empty());
    }
}

proof fn lemma_flagged(flag: Seq<char>, parts: Seq<Seq<char>>, i: int)
    ensures
        flagged(flag, parts).len() == 2 * parts.len(),
        0 <= i < parts.len() ==> flagged(flag, parts)[2 * i] == flag && flagged(flag, parts)[2 * i
            + 1] == parts[i],
    decreases parts.len(),
{
    if parts.len() > 0 {
        lemma_flagged(flag, parts.drop_last(), i);
    }
}

/// The meta agent is allowed each file of its lane and its note, and nothing more, and is
/// denied the harness, the manifests, the lock file, the benchmark and the workflows.
pub proof fn the_scope_is_the_lane_and_the_note(lane: Lane, note: Seq<char>, i: int)
    ensures
        ({
            let words = scope_words(lane, note);
            let files = lane_files(lane);
            let n = files.len() as int;
            &&& words.len() == 2 * (n + 1) + 10
            &&& 0 <= i < n ==> words[2 * i] == "--allow"@ && words[2 * i + 1] == files[i]
            &&& words[2 * n] == "--allow"@ && words[2 * n + 1] == note
            &&& words.skip(2 * (n + 1)) == seq![
                "--deny-path"@,
                "harness/"@,
                "--deny-path"@,
                "Cargo.toml"@,
                "--deny-path"@,
                "Cargo.lock"@,
                "--deny-path"@,
                "crates/rigcoder-bench/"@,
                "--deny-path"@,
                ".github/"@,
            ]
        }),
{
    let words = scope_words(lane, note);
    let files = lane_files(lane);
    let n = files.len() as int;
    let allowed = files.push(note);
    let denied = text::str_views(DENIED@);
    lemma_flagged("--allow"@, allowed, i);
    lemma_flagged("--allow"@, allowed, n);
    lemma_flagged("--deny-path"@, denied, 0);
    lemma_flagged("--deny-path"@, denied, 1);
    lemma_flagged("--deny-path"@, denied, 2);
    lemma_flagged("--deny-path"@, denied, 3);
    lemma_flagged("--deny-path"@, denied, 4);
    assert(denied[0] == "harness/"@);
    assert(denied[1] == "Cargo.toml"@);
    assert(denied[2] == "Cargo.lock"@);
    assert(denied[3] == "crates/rigcoder-bench/"@);
    assert(denied[4] == ".github/"@);
    let rest = flagged("--deny-path"@, denied);
    assert(words.skip(2 * (n + 1)) =~= rest);
    assert(rest =~= seq![
        "--deny-path"@,
        "harness/"@,
        "--deny-path"@,
        "Cargo.toml"@,
        "--deny-path"@,
        "Cargo.lock"@,
        "--deny-path"@,
        "crates/rigcoder-bench/"@,
        "--deny-path"@,
        ".github/"@,
    ]);
    if 0 <= i < n {
        assert(allowed[i] == files[i]);
    }
}

/// The meta agent runs in the repository, for at most eighty turns and half an hour, with
/// its record beside the job, within its scope, and is told its task last.
pub proof fn the_meta_agent_runs_within_its_scope(
    root: Seq<char>,
    job: Seq<char>,
    lane: Lane,
    note: Seq<char>,
    task: Seq<char>,
)
    ensures
        ({
            let words = improver_words(root, job, lane, note, task);
            &&& words.last() == task
            &&& words.subrange(12, words.len() - 1) == scope_words(lane, note)
            &&& words[0] == "--cwd"@ && words[1] == root
            &&& words[2] == "--max-turns"@ && words[3] == "80"@
            &&& words[4] == "--timeout-secs"@ && words[5] == "1800"@
            &&& words[6] == "--transcript"@ && words[7] == place::below(
                job,
                "improve-transcript.jsonl"@,
            )
            &&& words[8] == "--effect-log"@ && words[9] == place::below(
                job,
                "improve-effects.json"@,
            )
            &&& words[10] == "--checkpoint"@ && words[11] == place::below(job, "improve-scenes"@)
        }),
{
    let words = improver_words(root, job, lane, note, task);
    assert(words.subrange(12, words.len() - 1) =~= scope_words(lane, note));
}

/// The task of a trial is read back from its directory's name, wherever its own name
/// neither holds two underscores nor ends with one.
pub proof fn a_trials_task_is_read_back(task: Seq<char>, attempt: nat)
    requires
        !text::occurs(task.push('_'), "__"@),
    ensures
        task_of(trial::trial_name(task, attempt)) == task,
{
    let name = trial::trial_name(task, attempt);
    reveal_strlit("__");
    let n = task.len() as int;
    assert(name.subrange(n, n + 2) =~= "__"@);
    assert(text::occurs_at(name, "__"@, n));
    assert forall|i: int| 0 <= i < n implies !text::occurs_at(name, "__"@, i) by {
        if text::occurs_at(name, "__"@, i) {
            assert(name.subrange(i, i + 2) =~= task.push('_').subrange(i, i + 2));
            assert(text::occurs_at(task.push('_'), "__"@, i));
        }
    }
    the_task_ends_at_the_first_two_underscores(name, n);
    assert(name.take(n) =~= task);
}

/// Each lane has a name of its own.
pub proof fn lanes_have_names_of_their_own(a: Lane, b: Lane)
    ensures
        lane_name(Lane::Prompt) == "prompt"@,
        lane_name(Lane::Tools) == "tools"@,
        lane_name(Lane::Settings) == "settings"@,
        lane_name(Lane::Shaping) == "shaping"@,
        lane_name(Lane::Systems) == "systems"@,
        lane_name(a) == lane_name(b) ==> a == b,
{
    reveal_strlit("prompt");
    reveal_strlit("tools");
    reveal_strlit("settings");
    reveal_strlit("shaping");
    reveal_strlit("systems");
    assert("shaping"@[1] != "systems"@[1]);
    assert("prompt"@.len() == 6 && "tools"@.len() == 5 && "settings"@.len() == 8);
    assert("shaping"@.len() == 7 && "systems"@.len() == 7);
}

} // verus!
