//! A Terminal-Bench task directory.

use vstd::prelude::*;
use crate::double::Double;
use crate::json;
use crate::lines;
use crate::text;

verus! {

/// A task, as its directory describes it.
#[derive(Debug)]
pub struct Task {
    pub name: String,
    pub dir: String,
    pub instruction: String,
    /// The Dockerfile's last `WORKDIR`; the agent and the verifier run there.
    pub workdir: String,
    pub agent_timeout_secs: u64,
    pub verifier_timeout_secs: u64,
    pub build_timeout_secs: u64,
    pub cpus: Double,
    pub memory: String,
    pub difficulty: String,
    pub output_line: Option<OutputLine>,
    pub polyglot: bool,
}

/// A file of the agent's, and the line it should hold.
#[derive(Debug)]
pub struct OutputLine {
    pub artifact: String,
    pub expected: String,
}

/// What stands at the path of an output-line oracle.
#[derive(Debug)]
pub struct OracleFile {
    /// Whether it is a regular file.
    pub regular: bool,
    pub bytes: u64,
    /// What it was read as, if it could be.
    pub oracle: Option<OutputLine>,
}

/// What stands at the path of a polyglot marker.
#[derive(Debug)]
pub struct MarkerFile {
    /// Whether it is a regular file.
    pub regular: bool,
    pub bytes: u64,
    pub text: String,
}

/// What a task's directory holds.
#[derive(Debug)]
pub struct Contents {
    pub name: String,
    pub dir: String,
    pub instruction: String,
    pub dockerfile: String,
    pub oracle: Option<OracleFile>,
    pub marker: Option<MarkerFile>,
    /// The whole seconds of each timeout; nothing where it is no finite time
    /// from now on.
    pub agent_timeout: Option<u64>,
    pub verifier_timeout: Option<u64>,
    pub build_timeout: Option<u64>,
    pub cpus: Double,
    pub memory: String,
    pub difficulty: String,
}

/// A timeout that a task's settings give.
#[derive(Clone, Copy, Debug, PartialEq, Eq, Structural)]
pub enum Timeout {
    Agent,
    Verifier,
    Build,
}

/// Why a directory is no task.
#[derive(Clone, Copy, Debug, PartialEq, Eq, Structural)]
pub enum LoadError {
    OracleFile,
    OracleUnreadable,
    Oracle,
    MarkerFile,
    MarkerUnreadable,
    Marker,
    /// The timeout is not finite and positive.
    NoTimeout(Timeout),
    /// The timeout is under a second.
    ShortTimeout(Timeout),
}

// ---------------------------------------------------------------------------
// Settings

/// The seconds of an agent or a verifier whose settings give none.
pub const DEFAULT_TIMEOUT: u64 = 900;

/// The seconds of an image build whose settings give none.
pub const DEFAULT_BUILD_TIMEOUT: u64 = 600;

/// The processors of a container whose settings give none.
pub const DEFAULT_CPUS: u64 = 1;

/// The memory of a container whose settings give none.
pub fn default_memory() -> (out: String)
    ensures
        out@ == "2G"@,
{
    "2G".to_owned()
}

/// The name of a timeout among a task's settings.
pub open spec fn timeout_field(timeout: Timeout) -> Seq<char> {
    match timeout {
        Timeout::Agent => "agent.timeout_sec"@,
        Timeout::Verifier => "verifier.timeout_sec"@,
        Timeout::Build => "environment.build_timeout_sec"@,
    }
}

/// The whole seconds of a timeout, of which there must be one at least: zero
/// would disable the deadline.
pub open spec fn seconds_of(value: Option<u64>, timeout: Timeout) -> Result<u64, LoadError> {
    match value {
        None => Err(LoadError::NoTimeout(timeout)),
        Some(seconds) => if seconds > 0 {
            Ok(seconds)
        } else {
            Err(LoadError::ShortTimeout(timeout))
        },
    }
}

/// The whole seconds of a timeout, of which there must be one at least.
pub fn timeout_seconds(value: Option<u64>, timeout: Timeout) -> (out: Result<u64, LoadError>)
    ensures
        out == seconds_of(value, timeout),
{
    match value {
        None => Err(LoadError::NoTimeout(timeout)),
        Some(seconds) => {
            if seconds > 0 {
                Ok(seconds)
            } else {
                Err(LoadError::ShortTimeout(timeout))
            }
        },
    }
}

/// What is said of a directory that is no task; nothing where the reader of a
/// file says it.
pub open spec fn error_text(error: LoadError) -> Seq<char> {
    match error {
        LoadError::OracleFile => "invalid output-line oracle file"@,
        LoadError::OracleUnreadable => "unreadable output-line oracle"@,
        LoadError::Oracle => "invalid output-line oracle"@,
        LoadError::MarkerFile => "invalid polyglot scorer marker"@,
        LoadError::MarkerUnreadable => "unreadable polyglot scorer marker"@,
        LoadError::Marker => "invalid or conflicting polyglot scorer marker"@,
        LoadError::NoTimeout(timeout) => timeout_field(timeout)
            + " must be a finite positive timeout"@,
        LoadError::ShortTimeout(timeout) => timeout_field(timeout)
            + " must be at least one second"@,
    }
}

fn field_name(timeout: Timeout) -> (out: &'static str)
    ensures
        out@ == timeout_field(timeout),
{
    match timeout {
        Timeout::Agent => "agent.timeout_sec",
        Timeout::Verifier => "verifier.timeout_sec",
        Timeout::Build => "environment.build_timeout_sec",
    }
}

impl LoadError {
    /// What is said of a directory that is no task.
    pub fn message(self) -> (out: String)
        ensures
            out@ == error_text(self),
    {
        match self {
            LoadError::OracleFile => "invalid output-line oracle file".to_owned(),
            LoadError::OracleUnreadable => "unreadable output-line oracle".to_owned(),
            LoadError::Oracle => "invalid output-line oracle".to_owned(),
            LoadError::MarkerFile => "invalid polyglot scorer marker".to_owned(),
            LoadError::MarkerUnreadable => "unreadable polyglot scorer marker".to_owned(),
            LoadError::Marker => "invalid or conflicting polyglot scorer marker".to_owned(),
            LoadError::NoTimeout(timeout) => {
                let mut out: String = field_name(timeout).to_owned();
                out.append(" must be a finite positive timeout");
                out
            },
            LoadError::ShortTimeout(timeout) => {
                let mut out: String = field_name(timeout).to_owned();
                out.append(" must be at least one second");
                out
            },
        }
    }
}

// ---------------------------------------------------------------------------
// The working directory

/// What a Dockerfile line sets the working directory to, if it does.
pub open spec fn workdir_line(line: Seq<char>) -> Option<Seq<char>> {
    let plain = text::trimmed(line);
    if "WORKDIR"@.is_prefix_of(plain) {
        Some(text::trimmed(plain.skip("WORKDIR"@.len() as int)))
    } else {
        None
    }
}

/// The working directory after the lines: the last that one set, or `/app`.
pub open spec fn last_workdir(all: Seq<Seq<char>>) -> Seq<char>
    decreases all.len(),
{
    if all.len() == 0 {
        "/app"@
    } else {
        match workdir_line(all.last()) {
            Some(dir) => dir,
            None => last_workdir(all.drop_last()),
        }
    }
}

fn read_workdir(line: &str) -> (out: Option<String>)
    ensures
        text::opt(out) == workdir_line(line@),
{
    let plain: String = text::trim(line);
    if !text::begins_with(plain.as_str(), "WORKDIR") {
        return None;
    }
    proof {
        reveal_strlit("WORKDIR");
    }
    let chars: Vec<char> = text::chars_of(plain.as_str());
    let n: usize = chars.len();
    let rest: String = text::string_range(&chars, 7, n);
    assert(rest@ =~= plain@.skip(7));
    Some(text::trim(rest.as_str()))
}

/// A Dockerfile's last `WORKDIR`, or `/app`.
pub fn workdir(dockerfile: &str) -> (out: String)
    ensures
        out@ == last_workdir(lines::lines_of(dockerfile@)),
{
    let cut: Vec<String> = lines::lines(dockerfile);
    let ghost all = lines::lines_of(dockerfile@);
    let mut k: usize = cut.len();
    assert(all.take(k as int) =~= all);
    while k > 0
        invariant
            k <= cut@.len(),
            all == text::views(cut@),
            all == lines::lines_of(dockerfile@),
            last_workdir(all) == last_workdir(all.take(k as int)),
        decreases k,
    {
        proof {
            assert(all.take(k as int).last() == cut@[k - 1]@);
            assert(all.take(k as int).drop_last() =~= all.take(k - 1));
        }
        if let Some(dir) = read_workdir(cut[k - 1].as_str()) {
            return dir;
        }
        k -= 1;
    }
    "/app".to_owned()
}

// ---------------------------------------------------------------------------
// Scorers

/// Whether an oracle names an absolute path and a line that is not empty.
pub open spec fn is_oracle(oracle: OutputLine) -> bool {
    &&& oracle.artifact@.len() > 0 && oracle.artifact@[0] == '/'
    &&& text::byte_len(oracle.artifact@) <= 4096
    &&& !oracle.artifact@.contains('\0')
    &&& oracle.expected@.len() > 0
    &&& text::byte_len(oracle.expected@) <= 65_536
    &&& !oracle.expected@.contains('\n') && !oracle.expected@.contains('\r')
}

fn check_oracle(oracle: &OutputLine) -> (r: bool)
    ensures
        r == is_oracle(*oracle),
{
    text::begins_with_char(oracle.artifact.as_str(), '/') && text::bytes_in(
        oracle.artifact.as_str(),
    ) <= 4096 && !text::has_char(oracle.artifact.as_str(), '\0')
        && !oracle.expected.as_str().is_empty() && text::bytes_in(oracle.expected.as_str())
        <= 65_536 && !text::has_char(oracle.expected.as_str(), '\n') && !text::has_char(
        oracle.expected.as_str(),
        '\r',
    )
}

/// The oracle of a task, from what stands at its path.
pub open spec fn oracle_in(file: Option<OracleFile>) -> Result<Option<OutputLine>, LoadError> {
    match file {
        None => Ok(None),
        Some(found) => if !found.regular || found.bytes > 70_000 {
            Err(LoadError::OracleFile)
        } else {
            match found.oracle {
                None => Err(LoadError::OracleUnreadable),
                Some(oracle) => if is_oracle(oracle) {
                    Ok(Some(oracle))
                } else {
                    Err(LoadError::Oracle)
                },
            }
        },
    }
}

/// The oracle of a task, from what stands at its path.
pub fn output_line(file: Option<OracleFile>) -> (out: Result<Option<OutputLine>, LoadError>)
    ensures
        out == oracle_in(file),
{
    match file {
        None => Ok(None),
        Some(found) => {
            if !found.regular || found.bytes > 70_000 {
                return Err(LoadError::OracleFile);
            }
            match found.oracle {
                None => Err(LoadError::OracleUnreadable),
                Some(oracle) => {
                    if check_oracle(&oracle) {
                        Ok(Some(oracle))
                    } else {
                        Err(LoadError::Oracle)
                    }
                },
            }
        },
    }
}

/// Whether an object is a polyglot marker: the one member `version`, which is 1.
pub open spec fn marks(members: Map<Seq<char>, (Option<Seq<char>>, Option<u64>)>) -> bool {
    (forall|key: Seq<char>| #[trigger] members.contains_key(key) <==> key == "version"@)
        && json::count_member(members, "version"@) == Some(1u64)
}

/// Whether the names of an object's members and its `version` make it a
/// polyglot marker.
pub fn is_marker(keys: &[String], version: Option<u64>) -> (r: bool)
    ensures
        r == ((forall|key: Seq<char>| #[trigger]
            text::views(keys@).contains(key) <==> key == "version"@) && version == Some(1u64)),
{
    let n: usize = keys.len();
    if n == 0 {
        assert(!text::views(keys@).contains("version"@));
        return false;
    }
    for i in 0..n
        invariant
            n == keys@.len(),
            forall|j: int| 0 <= j < i ==> text::views(keys@)[j] == "version"@,
    {
        if !text::same(keys[i].as_str(), "version") {
            proof {
                let key = keys@[i as int]@;
                assert(text::views(keys@)[i as int] == key);
                assert(text::views(keys@).contains(key));
            }
            return false;
        }
    }
    assert(text::views(keys@)[0] == "version"@);
    assert(text::views(keys@).contains("version"@));
    match version {
        Some(number) => number == 1,
        None => false,
    }
}

/// Whether a task has a polyglot scorer, from what stands at the marker's path
/// and whether it has an oracle as well.
pub open spec fn marker_in(file: Option<MarkerFile>, has_oracle: bool) -> Result<bool, LoadError> {
    match file {
        None => Ok(false),
        Some(found) => if !found.regular || found.bytes > 128 {
            Err(LoadError::MarkerFile)
        } else {
            match json::json_object(found.text@) {
                None => Err(LoadError::MarkerUnreadable),
                Some(members) => if marks(members) && !has_oracle {
                    Ok(true)
                } else {
                    Err(LoadError::Marker)
                },
            }
        },
    }
}

/// Whether a task has a polyglot scorer.
pub fn polyglot(file: &Option<MarkerFile>, has_oracle: bool) -> (out: Result<bool, LoadError>)
    ensures
        out == marker_in(*file, has_oracle),
{
    match file {
        None => Ok(false),
        Some(found) => {
            if !found.regular || found.bytes > 128 {
                return Err(LoadError::MarkerFile);
            }
            match json::parse(found.text.as_str()) {
                None => Err(LoadError::MarkerUnreadable),
                Some(value) => {
                    let keys: Vec<String> = json::keys(&value);
                    let version: Option<u64> = json::count_at(&value, "version");
                    let ghost members = json::json_members(value);
                    let marker: bool = is_marker(&keys, version);
                    proof {
                        if marks(members) {
                            assert forall|key: Seq<char>| #[trigger]
                                text::views(keys@).contains(key) <==> key == "version"@ by {
                                assert(members.contains_key(key) <==> key == "version"@);
                            }
                        }
                        if marker {
                            assert forall|key: Seq<char>| #[trigger]
                                members.contains_key(key) <==> key == "version"@ by {
                                assert(text::views(keys@).contains(key) <==> key == "version"@);
                            }
                        }
                        assert(marker == marks(members));
                    }
                    if marker && !has_oracle {
                        Ok(true)
                    } else {
                        Err(LoadError::Marker)
                    }
                },
            }
        },
    }
}

// ---------------------------------------------------------------------------
// The task

/// What a task's directory is refused for first, if for anything.
pub open spec fn load_error(c: Contents) -> Option<LoadError> {
    match oracle_in(c.oracle) {
        Err(error) => Some(error),
        Ok(oracle) => match marker_in(c.marker, oracle is Some) {
            Err(error) => Some(error),
            Ok(_) => if seconds_of(c.agent_timeout, Timeout::Agent) is Err {
                Some(seconds_of(c.agent_timeout, Timeout::Agent)->Err_0)
            } else if seconds_of(c.verifier_timeout, Timeout::Verifier) is Err {
                Some(seconds_of(c.verifier_timeout, Timeout::Verifier)->Err_0)
            } else if seconds_of(c.build_timeout, Timeout::Build) is Err {
                Some(seconds_of(c.build_timeout, Timeout::Build)->Err_0)
            } else {
                None
            },
        },
    }
}

/// Whether `task` is what a directory describes.
pub open spec fn describes(c: Contents, task: Task) -> bool {
    &&& task.name@ == c.name@
    &&& task.dir@ == c.dir@
    &&& task.instruction@ == c.instruction@
    &&& task.workdir@ == last_workdir(lines::lines_of(c.dockerfile@))
    &&& Some(task.agent_timeout_secs) == c.agent_timeout
    &&& Some(task.verifier_timeout_secs) == c.verifier_timeout
    &&& Some(task.build_timeout_secs) == c.build_timeout
    &&& task.cpus == c.cpus
    &&& task.memory@ == c.memory@
    &&& task.difficulty@ == c.difficulty@
    &&& Ok::<_, LoadError>(task.output_line) == oracle_in(c.oracle)
    &&& Ok::<_, LoadError>(task.polyglot) == marker_in(c.marker, task.output_line is Some)
}

impl Task {
    /// The limits and scorers of a task are what they should be.
    pub open spec fn valid(self) -> bool {
        &&& self.agent_timeout_secs > 0
        &&& self.verifier_timeout_secs > 0
        &&& self.build_timeout_secs > 0
        &&& self.output_line matches Some(oracle) ==> is_oracle(oracle)
        &&& !(self.polyglot && self.output_line is Some)
    }

    /// The task that a directory describes.
    pub fn load(contents: Contents) -> (out: Result<Task, LoadError>)
        ensures
            out is Ok <==> load_error(contents) is None,
            out matches Ok(task) ==> describes(contents, task) && task.valid(),
            out matches Err(error) ==> load_error(contents) == Some(error),
    {
        let directory: String = workdir(contents.dockerfile.as_str());
        let oracle: Option<OutputLine> = match output_line(contents.oracle) {
            Ok(oracle) => oracle,
            Err(error) => {
                return Err(error);
            },
        };
        let marked: bool = match polyglot(&contents.marker, oracle.is_some()) {
            Ok(marked) => marked,
            Err(error) => {
                return Err(error);
            },
        };
        let agent: u64 = match timeout_seconds(contents.agent_timeout, Timeout::Agent) {
            Ok(seconds) => seconds,
            Err(error) => {
                return Err(error);
            },
        };
        let verifier: u64 = match timeout_seconds(contents.verifier_timeout, Timeout::Verifier) {
            Ok(seconds) => seconds,
            Err(error) => {
                return Err(error);
            },
        };
        let build: u64 = match timeout_seconds(contents.build_timeout, Timeout::Build) {
            Ok(seconds) => seconds,
            Err(error) => {
                return Err(error);
            },
        };
        Ok(
            Task {
                name: contents.name,
                dir: contents.dir,
                instruction: contents.instruction,
                workdir: directory,
                agent_timeout_secs: agent,
                verifier_timeout_secs: verifier,
                build_timeout_secs: build,
                cpus: contents.cpus,
                memory: contents.memory,
                difficulty: contents.difficulty,
                output_line: oracle,
                polyglot: marked,
            },
        )
    }

    /// The tag of the task's image.
    pub fn image_tag(&self) -> (out: String)
        ensures
            out@ == "rigcoder-bench/"@ + self.name@ + ":local"@,
    {
        let mut out: String = "rigcoder-bench/".to_owned();
        out.append(self.name.as_str());
        out.append(":local");
        out
    }
}

// ---------------------------------------------------------------------------
// What a task's directory comes to

/// The working directory is what the last line that sets it says after `WORKDIR`, without
/// white space round it, and `/app` where none does.
pub proof fn the_last_workdir_counts(all: Seq<Seq<char>>)
    ensures
        ({
            let setting = all.filter(
                |line: Seq<char>| "WORKDIR"@.is_prefix_of(text::trimmed(line)),
            );
            &&& setting.len() == 0 ==> last_workdir(all) == "/app"@
            &&& setting.len() > 0 ==> last_workdir(all) == text::trimmed(
                text::trimmed(setting.last()).skip("WORKDIR"@.len() as int),
            )
        }),
    decreases all.len(),
{
    reveal(Seq::filter);
    if all.len() > 0 {
        the_last_workdir_counts(all.drop_last());
    }
}

/// An oracle names an absolute path of at most 4 KiB without a NUL, and one line that
/// holds something, of at most 64 KiB.
pub proof fn an_oracle_is_a_path_and_a_line(oracle: OutputLine)
    ensures
        is_oracle(oracle) <==> oracle.artifact@.len() > 0 && oracle.artifact@[0] == '/'
            && text::byte_len(oracle.artifact@) <= 4 * 1024 && !oracle.artifact@.contains('\0')
            && oracle.expected@.len() > 0 && text::byte_len(oracle.expected@) <= 64 * 1024
            && !oracle.expected@.contains('\n') && !oracle.expected@.contains('\r'),
{
}

/// A directory is a task exactly when its oracle, if it has one, is a readable regular
/// file with an oracle in it; its marker, if it has one, is a small regular file whose
/// object has the version 1 and nothing else, beside no oracle; and each of its timeouts
/// is a second at least.
pub proof fn a_directory_is_a_task_exactly_when_it_is_whole(c: Contents)
    ensures
        load_error(c) is None <==> (c.oracle is None || (c.oracle->0.regular && c.oracle->0.bytes
            <= 70_000 && c.oracle->0.oracle is Some && is_oracle(c.oracle->0.oracle->0))) && (
        c.marker is None || (c.oracle is None && c.marker->0.regular && c.marker->0.bytes <= 128
            && json::json_object(c.marker->0.text@) is Some && marks(
            json::json_object(c.marker->0.text@)->0,
        ))) && c.agent_timeout is Some && c.agent_timeout->0 >= 1 && c.verifier_timeout is Some
            && c.verifier_timeout->0 >= 1 && c.build_timeout is Some && c.build_timeout->0 >= 1,
{
}

/// A marker's object has one member, `version`, and it is 1.
pub proof fn a_marker_has_its_version_alone(
    members: Map<Seq<char>, (Option<Seq<char>>, Option<u64>)>,
)
    ensures
        marks(members) <==> members.dom() == set!["version"@] && members["version"@].1 == Some(
            1u64,
        ),
{
    if marks(members) {
        assert(members.contains_key("version"@));
        assert forall|key: Seq<char>| members.dom().contains(key) == set!["version"@].contains(
            key,
        ) by {
            assert(members.contains_key(key) <==> key == "version"@);
        }
        assert(members.dom() =~= set!["version"@]);
    }
    if members.dom() == set!["version"@] {
        assert forall|key: Seq<char>| #[trigger] members.contains_key(key) <==> key
            == "version"@ by {
            assert(members.dom().contains(key) == set!["version"@].contains(key));
        }
    }
}

/// A timeout that is not there and one under a second are told apart, each with the
/// setting that it is of.
pub proof fn a_timeout_is_at_least_a_second(seconds: u64, timeout: Timeout)
    ensures
        seconds_of(None, timeout) == Err::<u64, _>(LoadError::NoTimeout(timeout)),
        seconds_of(Some(0), timeout) == Err::<u64, _>(LoadError::ShortTimeout(timeout)),
        seconds >= 1 ==> seconds_of(Some(seconds), timeout) == Ok::<_, LoadError>(seconds),
        error_text(LoadError::NoTimeout(Timeout::Agent)) == "agent.timeout_sec"@
            + " must be a finite positive timeout"@,
        error_text(LoadError::ShortTimeout(Timeout::Verifier)) == "verifier.timeout_sec"@
            + " must be at least one second"@,
        error_text(LoadError::ShortTimeout(Timeout::Build)) == "environment.build_timeout_sec"@
            + " must be at least one second"@,
{
}

/// A task has what its directory describes, each thing in its own place, and its scorer is
/// the oracle or the marker that is there.
pub proof fn a_task_has_what_its_directory_describes(c: Contents, task: Task)
    requires
        describes(c, task),
        load_error(c) is None,
    ensures
        task.name@ == c.name@,
        task.dir@ == c.dir@,
        task.instruction@ == c.instruction@,
        task.agent_timeout_secs == c.agent_timeout->0,
        task.verifier_timeout_secs == c.verifier_timeout->0,
        task.build_timeout_secs == c.build_timeout->0,
        task.cpus == c.cpus,
        task.memory@ == c.memory@,
        task.difficulty@ == c.difficulty@,
        task.workdir@ == last_workdir(lines::lines_of(c.dockerfile@)),
        c.oracle is None ==> task.output_line is None,
        c.oracle is Some ==> task.output_line == c.oracle->0.oracle,
        task.polyglot <==> c.marker is Some,
{
}

/// What a task's settings leave open is fifteen minutes for the agent and the verifier,
/// ten for the image, and one processor.
pub proof fn settings_have_their_defaults()
    ensures
        DEFAULT_TIMEOUT == 15 * 60,
        DEFAULT_BUILD_TIMEOUT == 10 * 60,
        DEFAULT_CPUS == 1,
{
}

} // verus!
