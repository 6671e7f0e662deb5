//! One trial: a task, an attempt number, a container, a reward.

use vstd::prelude::*;
use crate::double;
use crate::double::Double;
use crate::json;
use crate::lines;
use crate::order;
use crate::order::Ranked;
use crate::place;
use crate::text;

verus! {

/// What a trial leaves behind, in `<job>/<task>__<attempt>/result.json`.
#[derive(Debug)]
pub struct TrialRecord {
    pub task: String,
    pub attempt: usize,
    pub reward: Double,
    /// Sum of reported usage; unknown when absent, malformed or overflowing.
    /// Even a known sum does not prove every provider attempt reported usage.
    pub input_tokens: Option<u64>,
    pub output_tokens: Option<u64>,
    pub cache_tokens: Option<u64>,
    pub tool_calls: u64,
    pub wall_seconds: Double,
    pub settled: bool,
    /// A harness-side failure (build, container, verifier), not the agent's.
    pub error: Option<String>,
}

/// Where the agent's executable is installed in a container.
pub const REMOTE_BIN: &'static str = "/usr/local/bin/rigcoder";

// ---------------------------------------------------------------------------
// Names

/// `<task>__<attempt>`.
pub open spec fn trial_name(task: Seq<char>, attempt: nat) -> Seq<char> {
    task + "__"@ + lines::digits(attempt)
}

/// The directory of one trial of a job.
pub fn trial_dir(job_dir: &str, task: &str, attempt: usize) -> (out: String)
    ensures
        out@ == place::below(job_dir@, trial_name(task@, attempt as nat)),
{
    let mut name: String = task.to_owned();
    name.append("__");
    let shown: String = lines::count(attempt);
    name.append(shown.as_str());
    place::join(job_dir, name.as_str())
}

/// The name of a trial's container.
pub fn container_name(task: &str, attempt: usize, process: u32) -> (out: String)
    ensures
        out@ == "rigcoder-"@ + task@ + "-"@ + lines::digits(attempt as nat) + "-"@ + lines::digits(
            process as nat,
        ),
{
    let mut out: String = "rigcoder-".to_owned();
    out.append(task);
    out.append("-");
    let shown: String = lines::count(attempt);
    out.append(shown.as_str());
    out.append("-");
    let shown: String = lines::wide_number(process as u128);
    out.append(shown.as_str());
    out
}

/// `turn-<turn>` with the turn in at least three digits.
pub open spec fn turn_name(turn: nat) -> Seq<char> {
    "turn-"@ + lines::three_digits(turn)
}

/// The files of the checkpoint after a turn: the scene and the workspace.
pub fn checkpoint_files(turn: usize) -> (out: (String, String))
    ensures
        out.0@ == turn_name(turn as nat) + ".scene.json"@,
        out.1@ == turn_name(turn as nat) + ".tar"@,
{
    let mut scene: String = "turn-".to_owned();
    let shown: String = lines::padded(turn);
    scene.append(shown.as_str());
    let mut tar: String = scene.clone();
    scene.append(".scene.json");
    tar.append(".tar");
    (scene, tar)
}

/// The directory name of one resumed run.
pub fn branch_name(task: &str, turn: usize, attempt: usize) -> (out: String)
    ensures
        out@ == task@ + "__branch"@ + lines::digits(turn as nat) + "-"@ + lines::digits(
            attempt as nat,
        ),
{
    let mut out: String = task.to_owned();
    out.append("__branch");
    let shown: String = lines::count(turn);
    out.append(shown.as_str());
    out.append("-");
    let shown: String = lines::count(attempt);
    out.append(shown.as_str());
    out
}

/// The name of a resumed run's container.
pub fn branch_container(task: &str, turn: usize, attempt: usize, process: u32) -> (out: String)
    ensures
        out@ == "rigcoder-branch-"@ + task@ + "-"@ + lines::digits(turn as nat) + "-"@
            + lines::digits(attempt as nat) + "-"@ + lines::digits(process as nat),
{
    let mut out: String = "rigcoder-branch-".to_owned();
    out.append(task);
    out.append("-");
    let shown: String = lines::count(turn);
    out.append(shown.as_str());
    out.append("-");
    let shown: String = lines::count(attempt);
    out.append(shown.as_str());
    out.append("-");
    let shown: String = lines::wide_number(process as u128);
    out.append(shown.as_str());
    out
}

// ---------------------------------------------------------------------------
// Shell words

/// What stands for a single quote inside a single-quoted word.
pub const QUOTED_QUOTE: &'static str = "'\"'\"'";

/// `s` as one word of a shell command.
pub open spec fn quoted(s: Seq<char>) -> Seq<char> {
    (seq!['\''] + lines::char_replaced(s, '\'', QUOTED_QUOTE@)).push('\'')
}

/// How a shell is reading a word: outside quotes, between single quotes,
/// between double quotes, or past something that quotes do not keep from it.
pub enum Reading {
    Bare,
    Single,
    Double,
    Live,
}

/// How a shell reads a word so far, and the text it has taken from it. Between
/// single quotes every character stands for itself; between double quotes all
/// but `$`, a backtick, a backslash and `!` do; outside quotes none is taken to.
pub open spec fn word_read(word: Seq<char>) -> (Reading, Seq<char>)
    decreases word.len(),
{
    if word.len() == 0 {
        (Reading::Bare, Seq::empty())
    } else {
        let (mode, taken) = word_read(word.drop_last());
        let c = word.last();
        match mode {
            Reading::Bare => if c == '\'' {
                (Reading::Single, taken)
            } else if c == '"' {
                (Reading::Double, taken)
            } else {
                (Reading::Live, taken)
            },
            Reading::Single => if c == '\'' {
                (Reading::Bare, taken)
            } else {
                (Reading::Single, taken.push(c))
            },
            Reading::Double => if c == '"' {
                (Reading::Bare, taken)
            } else if c == '$' || c == '`' || c == '\\' || c == '!' {
                (Reading::Live, taken)
            } else {
                (Reading::Double, taken.push(c))
            },
            Reading::Live => (Reading::Live, taken),
        }
    }
}

proof fn lemma_read_push(word: Seq<char>, c: char)
    ensures
        word.push(c).drop_last() == word,
        word.push(c).last() == c,
{
    assert(word.push(c).drop_last() =~= word);
}

proof fn lemma_read_opened(s: Seq<char>)
    ensures
        word_read(seq!['\''] + lines::char_replaced(s, '\'', QUOTED_QUOTE@)) == (
            Reading::Single,
            s,
        ),
    decreases s.len(),
{
    if s.len() == 0 {
        let start = seq!['\''] + lines::char_replaced(s, '\'', QUOTED_QUOTE@);
        assert(start =~= Seq::<char>::empty().push('\''));
        lemma_read_push(Seq::empty(), '\'');
        assert(word_read(Seq::empty()) == (Reading::Bare, Seq::<char>::empty()));
        assert(s =~= Seq::empty());
    } else {
        let init = s.drop_last();
        lemma_read_opened(init);
        let before = seq!['\''] + lines::char_replaced(init, '\'', QUOTED_QUOTE@);
        let after = seq!['\''] + lines::char_replaced(s, '\'', QUOTED_QUOTE@);
        assert(s =~= init.push(s.last()));
        if s.last() == '\'' {
            reveal_strlit("'\"'\"'");
            let a = before.push('\'');
            let b = a.push('"');
            let c = b.push('\'');
            let d = c.push('"');
            let e = d.push('\'');
            lemma_read_push(before, '\'');
            lemma_read_push(a, '"');
            lemma_read_push(b, '\'');
            lemma_read_push(c, '"');
            lemma_read_push(d, '\'');
            assert(word_read(a) == (Reading::Bare, init));
            assert(word_read(b) == (Reading::Double, init));
            assert(word_read(c) == (Reading::Double, s));
            assert(word_read(d) == (Reading::Bare, s));
            assert(word_read(e) == (Reading::Single, s));
            assert(after =~= e);
        } else {
            lemma_read_push(before, s.last());
            assert(word_read(before.push(s.last())) == (Reading::Single, s));
            assert(after =~= before.push(s.last()));
        }
    }
}

/// A shell reads a quoted text as one word with exactly that text.
pub proof fn quoted_text_reads_back(s: Seq<char>)
    ensures
        word_read(quoted(s)) == (Reading::Bare, s),
{
    lemma_read_opened(s);
    lemma_read_push(seq!['\''] + lines::char_replaced(s, '\'', QUOTED_QUOTE@), '\'');
}

/// The text as one word of a shell command.
pub fn shell_quote(s: &str) -> (out: String)
    ensures
        out@ == quoted(s@),
{
    let inner: String = lines::replace_char(s, '\'', QUOTED_QUOTE);
    let mut out: String = String::new();
    out.push('\'');
    out.append(inner.as_str());
    out.push('\'');
    assert(out@ =~= quoted(s@));
    out
}

// ---------------------------------------------------------------------------
// Small readings

/// The last `n` lines of a text, all of them where it has fewer.
pub open spec fn ending_lines(s: Seq<char>, n: nat) -> Seq<char> {
    let all = lines::lines_of(s);
    lines::joined(
        if all.len() > n {
            all.skip(all.len() - n)
        } else {
            all
        },
        "\n"@,
    )
}

/// The last `n` lines of a text.
pub fn last_lines(s: &str, n: usize) -> (out: String)
    ensures
        out@ == ending_lines(s@, n as nat),
{
    let all: Vec<String> = lines::lines(s);
    let total: usize = all.len();
    let from: usize = if total > n {
        total - n
    } else {
        0
    };
    let ghost cut = lines::lines_of(s@);
    assert(cut.len() == total);
    let mut kept: Vec<String> = Vec::new();
    text::append_range(&mut kept, &all, from, total);
    assert(text::views(kept@) =~= cut.skip(from as int));
    assert(total <= n ==> cut.skip(0) =~= cut);
    lines::join(&kept, "\n")
}

/// Whether `c` is a hexadecimal digit.
pub open spec fn is_hex(c: char) -> bool {
    ('0' <= c && c <= '9') || ('a' <= c && c <= 'f') || ('A' <= c && c <= 'F')
}

/// The image that a build's receipt names, without white space round it:
/// `sha256:` and sixty-four hexadecimal digits.
pub open spec fn image_named(receipt: Seq<char>) -> Option<Seq<char>> {
    let id = text::trimmed(receipt);
    if id.len() == 71 && "sha256:"@.is_prefix_of(id) && forall|i: int|
        7 <= i < 71 ==> is_hex(#[trigger] id[i]) {
        Some(id)
    } else {
        None
    }
}

/// The image that a build's receipt names, if it names one.
pub fn image_id(receipt: &str) -> (out: Option<String>)
    ensures
        text::opt(out) == image_named(receipt@),
{
    let id: String = text::trim(receipt);
    let chars: Vec<char> = text::chars_of(id.as_str());
    if chars.len() != 71 || !text::begins_with(id.as_str(), "sha256:") {
        return None;
    }
    for i in 7..71usize
        invariant
            chars@ == id@,
            id@ == text::trimmed(receipt@),
            chars@.len() == 71,
            forall|j: int| 7 <= j < i ==> is_hex(#[trigger] id@[j]),
    {
        let c: char = chars[i];
        if !(('0' <= c && c <= '9') || ('a' <= c && c <= 'f') || ('A' <= c && c <= 'F')) {
            assert(!is_hex(id@[i as int]));
            return None;
        }
    }
    Some(id)
}

/// Why a reward is refused.
#[derive(Clone, Copy, Debug, PartialEq, Eq, Structural)]
pub enum RewardError {
    /// The text is not a number.
    NotANumber,
    /// The number is not finite, or not between 0 and 1.
    OutOfRange,
}

/// Whether `reward` is a finite number from 0 to 1.
pub open spec fn is_probability(reward: Double) -> bool {
    reward.is_finite() && reward.reaches(double::zero()) && double::one().reaches(reward)
}

/// A verifier's reward, from the number that its trimmed text reads as.
pub fn parse_reward(number: Option<Double>) -> (out: Result<Double, RewardError>)
    ensures
        number is None ==> out == Err::<Double, _>(RewardError::NotANumber),
        number matches Some(reward) ==> out == if is_probability(reward) {
            Ok(reward)
        } else {
            Err::<Double, _>(RewardError::OutOfRange)
        },
{
    match number {
        None => Err(RewardError::NotANumber),
        Some(reward) => {
            let zero: Double = Double { bits: 0 };
            let one: Double = Double { bits: double::ONE_BITS };
            if reward.finite() && reward.is_at_least(zero) && one.is_at_least(reward) {
                Ok(reward)
            } else {
                Err(RewardError::OutOfRange)
            }
        },
    }
}

// ---------------------------------------------------------------------------
// Restoring a workspace

/// Directories directly below the root over which no checkpoint is restored.
pub const RESERVED: [&'static str; 13] = [
    "bin",
    "sbin",
    "usr",
    "etc",
    "lib",
    "lib64",
    "dev",
    "proc",
    "sys",
    "run",
    "logs",
    "tests",
    "restore",
];

/// What is said of a workspace that is no directory to restore into.
pub const NOT_BELOW_ROOT: &'static str =
    "checkpoint workspace must be an absolute directory below / without traversal";

/// Why no checkpoint may be restored over a workspace, if none may.
pub open spec fn restore_refusal(workdir: Seq<char>) -> Option<Seq<char>> {
    let all = place::names(workdir);
    if workdir.len() == 0 || workdir[0] != '/' || all.len() == 0 || all.contains(".."@) {
        Some(NOT_BELOW_ROOT@)
    } else if text::str_views(RESERVED@).contains(all[0]) {
        Some("cannot restore a checkpoint over /"@ + all[0])
    } else if all == seq!["var"@] {
        Some("cannot restore a checkpoint over /var"@)
    } else {
        None
    }
}

/// `s` without the slashes at its end.
pub open spec fn without_slashes(s: Seq<char>) -> Seq<char>
    decreases s.len(),
{
    if s.len() > 0 && s.last() == '/' {
        without_slashes(s.drop_last())
    } else {
        s
    }
}

/// The command that empties a workspace, which must not be reached through a
/// link, and unpacks a checkpoint into it.
pub open spec fn restore_script(workdir: Seq<char>) -> Seq<char> {
    "set -eu; w="@ + quoted(without_slashes(workdir))
        + "; [ \"$(cd -- \"$w\" && pwd -P)\" = \"$w\" ]; find \"$w\" -mindepth 1 -delete; tar -xf /restore/workspace.tar -C \"$w\""@
}

fn trim_slashes(s: &str) -> (out: String)
    ensures
        out@ == without_slashes(s@),
{
    let chars: Vec<char> = text::chars_of(s);
    let mut to: usize = chars.len();
    assert(chars@.take(to as int) =~= chars@);
    while to > 0 && chars[to - 1] == '/'
        invariant
            to <= chars@.len(),
            chars@ == s@,
            without_slashes(s@) == without_slashes(chars@.take(to as int)),
        decreases to,
    {
        assert(chars@.take(to as int).drop_last() =~= chars@.take(to - 1));
        to -= 1;
    }
    assert(chars@.subrange(0, to as int) =~= chars@.take(to as int));
    text::string_range(&chars, 0, to)
}

/// The command that restores a checkpoint over a workspace, or why it may not
/// be restored: never over a system directory, over the root, or along a path
/// that leads upwards.
pub fn workspace_restore_script(workdir: &str) -> (out: Result<String, String>)
    ensures
        text::outcome(out) == match restore_refusal(workdir@) {
            Some(refusal) => Err(refusal),
            None => Ok(restore_script(workdir@)),
        },
{
    let all: Vec<String> = place::split_names(workdir);
    let ghost names = place::names(workdir@);
    assert(names.len() == all@.len());
    if !text::begins_with_char(workdir, '/') || all.len() == 0 || text::holds(&all, "..") {
        return Err(NOT_BELOW_ROOT.to_owned());
    }
    assert(names[0] == all@[0]@);
    if text::among(&RESERVED, all[0].as_str()) {
        let mut refusal: String = "cannot restore a checkpoint over /".to_owned();
        refusal.append(all[0].as_str());
        return Err(refusal);
    }
    if all.len() == 1 && text::same(all[0].as_str(), "var") {
        assert(names =~= seq!["var"@]);
        return Err("cannot restore a checkpoint over /var".to_owned());
    }
    let plain: String = trim_slashes(workdir);
    let word: String = shell_quote(plain.as_str());
    let mut out: String = "set -eu; w=".to_owned();
    out.append(word.as_str());
    out.append(
        "; [ \"$(cd -- \"$w\" && pwd -P)\" = \"$w\" ]; find \"$w\" -mindepth 1 -delete; tar -xf /restore/workspace.tar -C \"$w\"",
    );
    Ok(out)
}

// ---------------------------------------------------------------------------
// What the agent's transcript reports

/// One line of a transcript, as far as a trial's record is made from it.
#[derive(Debug)]
pub struct UsageLine {
    pub kind: Option<String>,
    pub input_tokens: Option<u64>,
    pub output_tokens: Option<u64>,
    pub cached_input_tokens: Option<u64>,
}

/// What a transcript line reports.
pub struct Reported {
    pub kind: Option<Seq<char>>,
    pub input: Option<u64>,
    pub output: Option<u64>,
    pub cache: Option<u64>,
}

impl View for UsageLine {
    type V = Reported;

    open spec fn view(&self) -> Reported {
        Reported {
            kind: text::opt(self.kind),
            input: self.input_tokens,
            output: self.output_tokens,
            cache: self.cached_input_tokens,
        }
    }
}

/// What the lines of a transcript report, one by one; nothing where a line
/// could not be read.
pub open spec fn reports(all: Seq<Option<UsageLine>>) -> Seq<Option<Reported>> {
    Seq::new(
        all.len(),
        |i: int|
            match all[i] {
                Some(line) => Some(line@),
                None => None,
            },
    )
}

/// What `serde_json` reads from a transcript line.
pub open spec fn reported(line: Seq<char>) -> Option<Reported> {
    match json::json_object(line) {
        Some(members) => Some(
            Reported {
                kind: json::text_member(members, "kind"@),
                input: json::count_member(members, "input_tokens"@),
                output: json::count_member(members, "output_tokens"@),
                cache: json::count_member(members, "cached_input_tokens"@),
            },
        ),
        None => None,
    }
}

/// What `serde_json` reads from each line of a transcript.
pub open spec fn all_reported(transcript: Seq<char>) -> Seq<Option<Reported>> {
    let cut = lines::lines_of(transcript);
    Seq::new(cut.len(), |i: int| reported(cut[i]))
}

/// The counts taken from a transcript.
#[derive(Clone, Copy, Debug, PartialEq, Eq, Structural)]
pub struct Tally {
    pub input: Option<u64>,
    pub output: Option<u64>,
    pub cache: Option<u64>,
    pub tool_calls: u64,
    pub settled: bool,
    pub saw_usage: bool,
}

/// A sum with one more figure: unknown as soon as a figure is, or when it
/// outgrows its type.
pub open spec fn with_usage(total: Option<u64>, value: Option<u64>) -> Option<u64> {
    match (total, value) {
        (Some(a), Some(b)) => if a + b <= u64::MAX {
            Some((a + b) as u64)
        } else {
            None
        },
        _ => None,
    }
}

/// The counts after the lines so far.
pub open spec fn tallied(all: Seq<Option<Reported>>) -> Tally
    decreases all.len(),
{
    if all.len() == 0 {
        Tally {
            input: Some(0),
            output: Some(0),
            cache: Some(0),
            tool_calls: 0,
            settled: false,
            saw_usage: false,
        }
    } else {
        let t = tallied(all.drop_last());
        match all.last() {
            None => Tally { input: None, output: None, cache: None, ..t },
            Some(line) => if line.kind == Some("tool_call"@) {
                Tally { tool_calls: (t.tool_calls + 1) as u64, ..t }
            } else if line.kind == Some("settled"@) {
                Tally { settled: true, ..t }
            } else if line.kind == Some("usage"@) {
                Tally {
                    saw_usage: true,
                    input: with_usage(t.input, line.input),
                    output: with_usage(t.output, line.output),
                    cache: with_usage(t.cache, line.cache),
                    ..t
                }
            } else {
                t
            },
        }
    }
}

/// The counts of a whole transcript: usage that no line reported is unknown.
pub open spec fn usage_of(all: Seq<Option<Reported>>) -> Tally {
    let t = tallied(all);
    if t.saw_usage {
        t
    } else {
        Tally { input: None, output: None, cache: None, ..t }
    }
}

/// One of the figures of a usage report.
#[derive(Clone, Copy, Debug, PartialEq, Eq, Structural)]
pub enum Figure {
    Input,
    Output,
    Cache,
}

impl Figure {
    pub open spec fn of_line(self, line: Reported) -> Option<u64> {
        match self {
            Figure::Input => line.input,
            Figure::Output => line.output,
            Figure::Cache => line.cache,
        }
    }

    pub open spec fn of_tally(self, t: Tally) -> Option<u64> {
        match self {
            Figure::Input => t.input,
            Figure::Output => t.output,
            Figure::Cache => t.cache,
        }
    }
}

/// Every line could be read, and every usage report has the figure.
pub open spec fn reported_throughout(all: Seq<Option<Reported>>, figure: Figure) -> bool {
    forall|i: int|
        0 <= i < all.len() ==> match #[trigger] all[i] {
            None => false,
            Some(line) => line.kind == Some("usage"@) ==> figure.of_line(line) is Some,
        }
}

/// The sum of the figure over every usage report that has it.
pub open spec fn figure_sum(all: Seq<Option<Reported>>, figure: Figure) -> nat
    decreases all.len(),
{
    if all.len() == 0 {
        0
    } else {
        figure_sum(all.drop_last(), figure) + match all.last() {
            Some(line) => if line.kind == Some("usage"@) && figure.of_line(line) is Some {
                figure.of_line(line)->0 as nat
            } else {
                0
            },
            None => 0,
        }
    }
}

proof fn lemma_tally_sum(all: Seq<Option<Reported>>, figure: Figure)
    ensures
        figure.of_tally(tallied(all)) is Some <==> reported_throughout(all, figure) && figure_sum(
            all,
            figure,
        ) <= u64::MAX,
        figure.of_tally(tallied(all)) matches Some(n) ==> n == figure_sum(all, figure),
        tallied(all).saw_usage <==> exists|i: int|
            0 <= i < all.len() && ((#[trigger] all[i]) matches Some(line) && line.kind == Some(
                "usage"@,
            )),
    decreases all.len(),
{
    reveal_strlit("usage");
    reveal_strlit("tool_call");
    reveal_strlit("settled");
    assert("usage"@.len() != "tool_call"@.len());
    assert("usage"@.len() != "settled"@.len());
    if all.len() > 0 {
        let init = all.drop_last();
        lemma_tally_sum(init, figure);
        assert(reported_throughout(all, figure) ==> reported_throughout(init, figure)) by {
            assert forall|i: int|
                reported_throughout(all, figure) && 0 <= i < init.len() implies match #[trigger] init[i] {
                None => false,
                Some(line) => line.kind == Some("usage"@) ==> figure.of_line(line) is Some,
            } by {
                assert(init[i] == all[i]);
            }
        }
        let last = match all.last() {
            None => false,
            Some(line) => line.kind == Some("usage"@) ==> figure.of_line(line) is Some,
        };
        assert(reported_throughout(all, figure) ==> last) by {
            assert(all[all.len() - 1] == all.last());
        }
        assert(reported_throughout(init, figure) && last ==> reported_throughout(all, figure)) by {
            assert forall|i: int|
                reported_throughout(init, figure) && last && 0 <= i < all.len() implies match #[trigger] all[i] {
                None => false,
                Some(line) => line.kind == Some("usage"@) ==> figure.of_line(line) is Some,
            } by {
                if i < init.len() {
                    assert(init[i] == all[i]);
                }
            }
        }
        if tallied(init).saw_usage {
            let i = choose|i: int|
                0 <= i < init.len() && ((#[trigger] init[i]) matches Some(line) && line.kind
                    == Some("usage"@));
            assert(all[i] == init[i]);
        }
        assert(all.last() == all[all.len() - 1]);
        if !tallied(init).saw_usage {
            assert forall|i: int| 0 <= i < init.len() implies !((#[trigger] all[i]) matches Some(
                line,
            ) && line.kind == Some("usage"@)) by {
                assert(init[i] == all[i]);
            }
        }
    }
}

/// A known usage figure is the exact sum of what was reported; it is unknown
/// exactly when no usage was reported, a line could not be read, a report lacks
/// the figure, or the sum does not fit.
pub proof fn known_usage_is_the_exact_sum(all: Seq<Option<Reported>>, figure: Figure)
    ensures
        figure.of_tally(usage_of(all)) is Some <==> reported_throughout(all, figure) && figure_sum(
            all,
            figure,
        ) <= u64::MAX && exists|i: int|
            0 <= i < all.len() && ((#[trigger] all[i]) matches Some(line) && line.kind == Some(
                "usage"@,
            )),
        figure.of_tally(usage_of(all)) matches Some(n) ==> n == figure_sum(all, figure),
{
    lemma_tally_sum(all, figure);
}

/// A sum with one more figure.
pub fn add_usage(total: Option<u64>, value: Option<u64>) -> (out: Option<u64>)
    ensures
        out == with_usage(total, value),
{
    match (total, value) {
        (Some(a), Some(b)) => a.checked_add(b),
        _ => None,
    }
}

fn has_kind(line: &UsageLine, kind: &str) -> (r: bool)
    ensures
        r == (line@.kind == Some(kind@)),
{
    match &line.kind {
        Some(found) => text::same(found.as_str(), kind),
        None => false,
    }
}

/// The counts of a transcript, from what its lines report.
pub fn tally(all: &[Option<UsageLine>]) -> (out: Tally)
    ensures
        out == usage_of(reports(all@)),
{
    let ghost seen = reports(all@);
    let n: usize = all.len();
    let mut t: Tally = Tally {
        input: Some(0),
        output: Some(0),
        cache: Some(0),
        tool_calls: 0,
        settled: false,
        saw_usage: false,
    };
    for i in 0..n
        invariant
            n == all@.len(),
            seen == reports(all@),
            t.tool_calls <= i,
            t == tallied(seen.take(i as int)),
    {
        proof {
            assert(seen.take(i + 1).drop_last() =~= seen.take(i as int));
            assert(seen.take(i + 1).last() == seen[i as int]);
        }
        match &all[i] {
            None => {
                t.input = None;
                t.output = None;
                t.cache = None;
            },
            Some(line) => {
                if has_kind(line, "tool_call") {
                    t.tool_calls = t.tool_calls + 1;
                } else if has_kind(line, "settled") {
                    t.settled = true;
                } else if has_kind(line, "usage") {
                    t.saw_usage = true;
                    t.input = add_usage(t.input, line.input_tokens);
                    t.output = add_usage(t.output, line.output_tokens);
                    t.cache = add_usage(t.cache, line.cached_input_tokens);
                }
            },
        }
    }
    assert(seen.take(n as int) =~= seen);
    if !t.saw_usage {
        t.input = None;
        t.output = None;
        t.cache = None;
    }
    t
}

fn read_line(line: &str) -> (out: Option<UsageLine>)
    ensures
        reported(line@) == match out {
            Some(found) => Some(found@),
            None => None,
        },
{
    match json::parse(line) {
        None => None,
        Some(value) => Some(
            UsageLine {
                kind: json::text_at(&value, "kind"),
                input_tokens: json::count_at(&value, "input_tokens"),
                output_tokens: json::count_at(&value, "output_tokens"),
                cached_input_tokens: json::count_at(&value, "cached_input_tokens"),
            },
        ),
    }
}

/// Tokens, tool calls and the ending, from the agent's transcript, if it left
/// one.
pub fn read_agent_output(transcript: Option<&str>, task: &str, attempt: usize) -> (out: TrialRecord)
    ensures
        out.task@ == task@,
        out.attempt == attempt,
        out.reward == double::zero(),
        out.wall_seconds == double::zero(),
        out.error is None,
        transcript is None ==> out.input_tokens is None && out.output_tokens is None
            && out.cache_tokens is None && out.tool_calls == 0 && !out.settled,
        transcript matches Some(found) ==> ({
            let t = usage_of(all_reported(found@));
            &&& out.input_tokens == t.input
            &&& out.output_tokens == t.output
            &&& out.cache_tokens == t.cache
            &&& out.tool_calls == t.tool_calls
            &&& out.settled == t.settled
        }),
{
    let zero: Double = Double { bits: 0 };
    let mut record: TrialRecord = TrialRecord {
        task: task.to_owned(),
        attempt,
        reward: zero,
        input_tokens: None,
        output_tokens: None,
        cache_tokens: None,
        tool_calls: 0,
        wall_seconds: zero,
        settled: false,
        error: None,
    };
    if let Some(found) = transcript {
        let cut: Vec<String> = lines::lines(found);
        let ghost all = all_reported(found@);
        let n: usize = cut.len();
        let mut read: Vec<Option<UsageLine>> = Vec::new();
        for i in 0..n
            invariant
                n == cut@.len(),
                text::views(cut@) == lines::lines_of(found@),
                all == all_reported(found@),
                read@.len() == i,
                forall|j: int| 0 <= j < i ==> #[trigger] reports(read@)[j] == all[j],
        {
            let ghost before = read@;
            assert(text::views(cut@)[i as int] == cut@[i as int]@);
            let line: Option<UsageLine> = read_line(cut[i].as_str());
            read.push(line);
            assert forall|j: int| 0 <= j < i + 1 implies #[trigger] reports(read@)[j] == all[j] by {
                if j < i {
                    assert(reports(before)[j] == all[j]);
                }
            }
        }
        assert(text::views(cut@).len() == n);
        assert(reports(read@) =~= all);
        let t: Tally = tally(&read);
        record.input_tokens = t.input;
        record.output_tokens = t.output;
        record.cache_tokens = t.cache;
        record.tool_calls = t.tool_calls;
        record.settled = t.settled;
    }
    record
}

// ---------------------------------------------------------------------------
// Records

/// A record with how the trial went: its reward, or its error and no reward.
pub fn conclude(
    record: TrialRecord,
    wall_seconds: Double,
    outcome: Result<Double, String>,
) -> (out: TrialRecord)
    ensures
        out.task@ == record.task@,
        out.attempt == record.attempt,
        out.input_tokens == record.input_tokens,
        out.output_tokens == record.output_tokens,
        out.cache_tokens == record.cache_tokens,
        out.tool_calls == record.tool_calls,
        out.settled == record.settled,
        out.wall_seconds == wall_seconds,
        outcome matches Ok(reward) ==> out.reward == reward && out.error == record.error,
        outcome matches Err(error) ==> out.reward == double::zero() && text::opt(out.error) == Some(
            error@,
        ),
{
    let mut out: TrialRecord = record;
    out.wall_seconds = wall_seconds;
    match outcome {
        Ok(reward) => {
            out.reward = reward;
        },
        Err(error) => {
            out.error = Some(error);
            out.reward = Double { bits: 0 };
        },
    }
    out
}

impl Ranked for TrialRecord {
    open spec fn precedes(a: &Self, b: &Self) -> bool {
        order::before(a.task@, b.task@) || (a.task@ == b.task@ && a.attempt < b.attempt)
    }

    proof fn lemma_not_both(a: &Self, b: &Self) {
        if Self::precedes(a, b) && Self::precedes(b, a) {
            if order::before(a.task@, b.task@) && order::before(b.task@, a.task@) {
                order::lemma_before_transitive(a.task@, b.task@, a.task@);
            }
            order::lemma_before_irreflexive(a.task@);
            order::lemma_before_irreflexive(b.task@);
        }
    }

    proof fn lemma_chain(a: &Self, b: &Self, c: &Self) {
        if Self::precedes(c, a) {
            order::lemma_before_total(a.task@, b.task@);
            order::lemma_before_total(b.task@, c.task@);
            if order::before(c.task@, a.task@) && order::before(a.task@, b.task@) {
                order::lemma_before_transitive(c.task@, a.task@, b.task@);
            }
            if order::before(c.task@, a.task@) && order::before(b.task@, c.task@) {
                order::lemma_before_transitive(b.task@, c.task@, a.task@);
            }
        }
    }

    fn ranks_before(&self, other: &Self) -> (r: bool) {
        order::comes_before(self.task.as_str(), other.task.as_str()) || (text::same(
            self.task.as_str(),
            other.task.as_str(),
        ) && self.attempt < other.attempt)
    }
}

/// A job's records by task, then by attempt.
pub fn read_job(records: Vec<TrialRecord>) -> (out: Vec<TrialRecord>)
    ensures
        out@ == order::ordered(records@),
        order::in_order(out@),
        out@.to_multiset() == records@.to_multiset(),
{
    order::sort(records)
}

// ---------------------------------------------------------------------------
// What trials keep to

/// The end of a text is its last lines, as many as are asked for, in order; all of them
/// where there are no more.
pub proof fn the_last_lines_are_kept(s: Seq<char>, n: nat)
    ensures
        lines::lines_of(s).len() <= n ==> ending_lines(s, n) == lines::joined(
            lines::lines_of(s),
            "\n"@,
        ),
        lines::lines_of(s).len() > n ==> exists|first: Seq<Seq<char>>, last: Seq<Seq<char>>|
            last.len() == n && lines::lines_of(s) == #[trigger] (first + last) && ending_lines(s, n)
                == lines::joined(last, "\n"@),
{
    let all = lines::lines_of(s);
    if all.len() > n {
        let first = all.take(all.len() - n);
        let last = all.skip(all.len() - n);
        assert(all =~= first + last);
    }
}

/// A receipt names an image exactly when it holds, but for white space round it, a SHA-256
/// digest in hexadecimal digits after `sha256:`; and that is the image.
pub proof fn an_image_is_named_by_its_digest(receipt: Seq<char>)
    ensures
        image_named(receipt) matches Some(id) ==> id == text::trimmed(receipt),
        image_named(receipt) is Some <==> exists|digest: Seq<char>|
            digest.len() == 64 && text::trimmed(receipt) == #[trigger] ("sha256:"@ + digest)
                && forall|i: int|
                0 <= i < 64 ==> ('0' <= #[trigger] digest[i] <= '9' || 'a' <= digest[i] <= 'f'
                    || 'A' <= digest[i] <= 'F'),
{
    reveal_strlit("sha256:");
    let id = text::trimmed(receipt);
    if image_named(receipt) is Some {
        let digest = id.skip(7);
        assert("sha256:"@ + digest =~= id);
        assert forall|i: int| 0 <= i < 64 implies ('0' <= #[trigger] digest[i] <= '9' || 'a'
            <= digest[i] <= 'f' || 'A' <= digest[i] <= 'F') by {
            assert(is_hex(id[i + 7]));
        }
    }
    if exists|digest: Seq<char>|
        digest.len() == 64 && text::trimmed(receipt) == #[trigger] ("sha256:"@ + digest)
            && forall|i: int|
            0 <= i < 64 ==> ('0' <= #[trigger] digest[i] <= '9' || 'a' <= digest[i] <= 'f' || 'A'
                <= digest[i] <= 'F') {
        let digest = choose|digest: Seq<char>|
            digest.len() == 64 && text::trimmed(receipt) == #[trigger] ("sha256:"@ + digest)
                && forall|i: int|
                0 <= i < 64 ==> ('0' <= #[trigger] digest[i] <= '9' || 'a' <= digest[i] <= 'f'
                    || 'A' <= digest[i] <= 'F');
        assert(id.subrange(0, 7) =~= "sha256:"@);
        assert forall|i: int| 7 <= i < 71 implies is_hex(#[trigger] id[i]) by {
            assert(id[i] == digest[i - 7]);
        }
    }
}

/// A reward is a probability exactly when its bits are those of a number from zero to
/// one, with either sign of zero.
pub proof fn a_reward_lies_from_zero_to_one(reward: Double)
    ensures
        is_probability(reward) <==> reward.bits <= 0x3ff0_0000_0000_0000 || reward.bits
            == 0x8000_0000_0000_0000,
{
}

/// A checkpoint is restored only over an absolute path that leads nowhere upwards, not to
/// the root, not into a directory of the system or of the harness, and not to `/var`
/// itself; and over any other it is.
pub proof fn a_checkpoint_is_never_restored_over_the_system(workdir: Seq<char>)
    ensures
        ({
            let all = place::names(workdir);
            restore_refusal(workdir) is None <==> workdir.len() > 0 && workdir[0] == '/'
                && all.len() > 0 && !all.contains(".."@) && all[0] != "bin"@ && all[0] != "sbin"@
                && all[0] != "usr"@ && all[0] != "etc"@ && all[0] != "lib"@ && all[0] != "lib64"@
                && all[0] != "dev"@ && all[0] != "proc"@ && all[0] != "sys"@ && all[0] != "run"@
                && all[0] != "logs"@ && all[0] != "tests"@ && all[0] != "restore"@ && !(all.len()
                == 1 && all[0] == "var"@)
        }),
{
    let all = place::names(workdir);
    let kept = text::str_views(RESERVED@);
    assert(kept[0] == "bin"@ && kept[1] == "sbin"@ && kept[2] == "usr"@ && kept[3] == "etc"@);
    assert(kept[4] == "lib"@ && kept[5] == "lib64"@ && kept[6] == "dev"@ && kept[7] == "proc"@);
    assert(kept[8] == "sys"@ && kept[9] == "run"@ && kept[10] == "logs"@ && kept[11] == "tests"@);
    assert(kept[12] == "restore"@ && kept.len() == 13);
    if all.len() == 1 && all[0] == "var"@ {
        assert(all =~= seq!["var"@]);
    }
    if all.len() > 0 && kept.contains(all[0]) {
        let i = choose|i: int| 0 <= i < kept.len() && kept[i] == all[0];
        assert(0 <= i < 13);
    }
}

/// A restored workspace is checked to be reached by no link, then emptied, then filled
/// from the checkpoint; its path stands in the command as one word, without the slashes
/// at its end.
pub proof fn a_workspace_is_checked_emptied_and_filled(workdir: Seq<char>)
    ensures
        ({
            let path = without_slashes(workdir);
            let script = restore_script(workdir);
            &&& path.len() <= workdir.len() && path == workdir.take(path.len() as int)
            &&& path.len() > 0 ==> path.last() != '/'
            &&& forall|i: int| path.len() <= i < workdir.len() ==> workdir[i] == '/'
            &&& script == "set -eu; w="@ + quoted(path)
                + "; [ \"$(cd -- \"$w\" && pwd -P)\" = \"$w\" ]; find \"$w\" -mindepth 1 -delete; tar -xf /restore/workspace.tar -C \"$w\""@
            &&& word_read(quoted(path)) == (Reading::Bare, path)
        }),
{
    lemma_without_slashes(workdir);
    quoted_text_reads_back(without_slashes(workdir));
}

proof fn lemma_without_slashes(s: Seq<char>)
    ensures
        without_slashes(s).len() <= s.len(),
        without_slashes(s) == s.take(without_slashes(s).len() as int),
        without_slashes(s).len() > 0 ==> without_slashes(s).last() != '/',
        forall|i: int| without_slashes(s).len() <= i < s.len() ==> s[i] == '/',
    decreases s.len(),
{
    let k = without_slashes(s).len() as int;
    if s.len() > 0 && s.last() == '/' {
        let init = s.drop_last();
        lemma_without_slashes(init);
        assert(init.take(k) =~= s.take(k));
        assert forall|i: int| k <= i < s.len() implies s[i] == '/' by {
            if i < init.len() {
                assert(init[i] == s[i]);
            }
        }
    } else {
        assert(s.take(k) =~= s);
    }
}

/// The lines of a transcript that report usage.
pub open spec fn usage_reports(all: Seq<Option<Reported>>) -> Seq<Option<Reported>> {
    all.filter(|r: Option<Reported>| r is Some && r->0.kind == Some("usage"@))
}

proof fn lemma_tally_counts(all: Seq<Option<Reported>>)
    requires
        all.len() <= u64::MAX,
    ensures
        tallied(all).tool_calls == all.filter(
            |r: Option<Reported>| r is Some && r->0.kind == Some("tool_call"@),
        ).len(),
        tallied(all).tool_calls <= all.len(),
        tallied(all).settled <==> all.filter(
            |r: Option<Reported>| r is Some && r->0.kind == Some("settled"@),
        ).len() > 0,
    decreases all.len(),
{
    reveal(Seq::filter);
    reveal_strlit("tool_call");
    reveal_strlit("settled");
    assert("tool_call"@.len() != "settled"@.len());
    if all.len() > 0 {
        lemma_tally_counts(all.drop_last());
    }
}

/// A trial's calls are its transcript's lines of that kind, and it settled where one of
/// its lines says so.
pub proof fn calls_and_settling_are_read_from_the_lines(all: Seq<Option<Reported>>)
    requires
        all.len() <= u64::MAX,
    ensures
        usage_of(all).tool_calls == all.filter(
            |r: Option<Reported>| r is Some && r->0.kind == Some("tool_call"@),
        ).len(),
        usage_of(all).settled <==> all.filter(
            |r: Option<Reported>| r is Some && r->0.kind == Some("settled"@),
        ).len() > 0,
{
    lemma_tally_counts(all);
}

proof fn lemma_figure_sums(all: Seq<Option<Reported>>)
    ensures
        figure_sum(all, Figure::Input) == usage_reports(all).fold_left(
            0int,
            |sum: int, r: Option<Reported>|
                sum + match r->0.input {
                    Some(n) => n as int,
                    None => 0,
                },
        ),
        figure_sum(all, Figure::Output) == usage_reports(all).fold_left(
            0int,
            |sum: int, r: Option<Reported>|
                sum + match r->0.output {
                    Some(n) => n as int,
                    None => 0,
                },
        ),
        figure_sum(all, Figure::Cache) == usage_reports(all).fold_left(
            0int,
            |sum: int, r: Option<Reported>|
                sum + match r->0.cache {
                    Some(n) => n as int,
                    None => 0,
                },
        ),
    decreases all.len(),
{
    reveal(Seq::filter);
    if all.len() > 0 {
        let init = all.drop_last();
        lemma_figure_sums(init);
        if all.last() is Some && all.last()->0.kind == Some("usage"@) {
            assert(usage_reports(all).drop_last() =~= usage_reports(init));
        }
    }
}

/// Each figure of a trial is the sum of that figure over its usage reports, each from its
/// own field, and unknown where there is no report at all.
pub proof fn usage_is_added_up_report_by_report(all: Seq<Option<Reported>>)
    ensures
        usage_of(all).input matches Some(n) ==> n == usage_reports(all).fold_left(
            0int,
            |sum: int, r: Option<Reported>|
                sum + match r->0.input {
                    Some(n) => n as int,
                    None => 0,
                },
        ),
        usage_of(all).output matches Some(n) ==> n == usage_reports(all).fold_left(
            0int,
            |sum: int, r: Option<Reported>|
                sum + match r->0.output {
                    Some(n) => n as int,
                    None => 0,
                },
        ),
        usage_of(all).cache matches Some(n) ==> n == usage_reports(all).fold_left(
            0int,
            |sum: int, r: Option<Reported>|
                sum + match r->0.cache {
                    Some(n) => n as int,
                    None => 0,
                },
        ),
        usage_reports(all).len() == 0 ==> usage_of(all).input is None && usage_of(all).output
            is None && usage_of(all).cache is None,
{
    lemma_figure_sums(all);
    known_usage_is_the_exact_sum(all, Figure::Input);
    known_usage_is_the_exact_sum(all, Figure::Output);
    known_usage_is_the_exact_sum(all, Figure::Cache);
    if usage_reports(all).len() == 0 {
        let usage = |r: Option<Reported>| r is Some && r->0.kind == Some("usage"@);
        assert forall|i: int| 0 <= i < all.len() implies !((#[trigger] all[i]) matches Some(line)
            && line.kind == Some("usage"@)) by {
            if all[i] is Some && all[i]->0.kind == Some("usage"@) {
                all.lemma_filter_contains(usage, i);
            }
        }
    }
}

/// Each figure is read from the member of a line that is named for it.
pub proof fn figures_are_read_by_name(line: Seq<char>)
    ensures
        reported(line) is Some <==> json::json_object(line) is Some,
        json::json_object(line) matches Some(members) ==> {
            let found = reported(line)->0;
            &&& found.kind == json::text_member(members, "kind"@)
            &&& found.input == json::count_member(members, "input_tokens"@)
            &&& found.output == json::count_member(members, "output_tokens"@)
            &&& found.cache == json::count_member(members, "cached_input_tokens"@)
        },
{
}

/// A job's records stand by task and, for one task, by attempt.
pub proof fn records_stand_by_task_and_attempt(records: Seq<TrialRecord>, i: int, j: int)
    requires
        0 <= i < j < records.len(),
    ensures
        ({
            let all = order::ordered(records);
            &&& all.len() == records.len()
            &&& order::before(all[i].task@, all[j].task@) || (all[i].task@ == all[j].task@
                && all[i].attempt <= all[j].attempt)
        }),
{
    order::lemma_ordered(records);
    let all = order::ordered(records);
    assert(!TrialRecord::precedes(&all[j], &all[i]));
    order::lemma_before_total(all[i].task@, all[j].task@);
}

/// Two attempts of one task have different names, and each begins with the task's.
pub proof fn trials_have_names_of_their_own(task: Seq<char>, attempt: nat, other: nat)
    requires
        trial_name(task, attempt) == trial_name(task, other),
    ensures
        attempt == other,
        task.is_prefix_of(trial_name(task, attempt)),
{
    let name = trial_name(task, attempt);
    let n = (task.len() + "__"@.len()) as int;
    assert(name.skip(n) =~= lines::digits(attempt));
    assert(name.skip(n) =~= lines::digits(other));
    lines::digits_stand_for_their_number(attempt);
    lines::digits_stand_for_their_number(other);
    assert(name.subrange(0, task.len() as int) =~= task);
}

/// Each turn has a name of its own, `turn-` and its number in three digits at least.
pub proof fn turns_have_names_of_their_own(turn: nat, other: nat)
    ensures
        turn_name(turn) == "turn-"@ + lines::three_digits(turn),
        turn_name(turn) == turn_name(other) ==> turn == other,
{
    lines::signs_and_zeros_come_before_the_digits(0, turn);
    lines::signs_and_zeros_come_before_the_digits(0, other);
    if turn_name(turn) == turn_name(other) {
        let n = "turn-"@.len() as int;
        assert(turn_name(turn).skip(n) =~= lines::three_digits(turn));
        assert(turn_name(other).skip(n) =~= lines::three_digits(other));
    }
}

} // verus!
