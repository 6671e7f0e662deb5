//! The `docker` CLI: the arguments of each call, and what its result means.

use vstd::prelude::*;
use crate::lines;
use crate::text;

verus! {

/// What a finished command left: its exit code and its output.
#[derive(Debug)]
pub struct Output {
    pub code: i32,
    pub stdout: String,
    pub stderr: String,
}

/// The programs that may be GNU `timeout` on the host; Homebrew installs it as
/// `gtimeout` on macOS.
pub const TIMEOUT_PROGRAMS: [&'static str; 2] = ["timeout", "gtimeout"];

/// What is said where the host has no GNU `timeout`.
pub const NO_TIMEOUT: &'static str =
    "GNU timeout is required for image builds: install coreutils (on macOS: brew install coreutils) and put timeout or gtimeout on PATH";

/// The words as owned texts.
pub fn words(parts: &[&str]) -> (out: Vec<String>)
    ensures
        text::views(out@) == text::str_views(parts@),
{
    let n: usize = parts.len();
    let mut out: Vec<String> = Vec::new();
    for i in 0..n
        invariant
            n == parts@.len(),
            out@.len() == i,
            forall|j: int| 0 <= j < i ==> (#[trigger] out@[j])@ == parts@[j]@,
    {
        out.push(parts[i].to_owned());
    }
    assert(text::views(out@) =~= text::str_views(parts@));
    out
}

/// Whether the i-th timeout program is GNU's, from what its `--version` printed
/// where it succeeded.
pub open spec fn is_gnu(versions: Seq<Option<String>>, i: int) -> bool {
    0 <= i < versions.len() && (versions[i] matches Some(version) && text::occurs(
        version@,
        "GNU coreutils"@,
    ))
}

/// The first of the timeout programs that is GNU's, from what the `--version`
/// of each printed where it succeeded.
pub fn host_timeout(versions: &[Option<String>]) -> (out: Result<&'static str, String>)
    ensures
        out matches Ok(program) ==> exists|i: int|
            0 <= i < TIMEOUT_PROGRAMS@.len() && program@ == TIMEOUT_PROGRAMS@[i]@ && is_gnu(
                versions@,
                i,
            ) && forall|j: int| 0 <= j < i ==> !is_gnu(versions@, j),
        out matches Err(message) ==> message@ == NO_TIMEOUT@ && forall|i: int|
            0 <= i < TIMEOUT_PROGRAMS@.len() ==> !is_gnu(versions@, i),
{
    let n: usize = versions.len();
    for i in 0..2usize
        invariant
            n == versions@.len(),
            forall|j: int| 0 <= j < i ==> !is_gnu(versions@, j),
    {
        if i < n {
            if let Some(version) = &versions[i] {
                if text::contains(version.as_str(), "GNU coreutils") {
                    assert(is_gnu(versions@, i as int));
                    return Ok(TIMEOUT_PROGRAMS[i]);
                }
            }
        }
    }
    Err(NO_TIMEOUT.to_owned())
}

/// The arguments that ask the daemon for its version.
pub fn available() -> (out: Vec<String>)
    ensures
        text::views(out@) == seq!["version"@, "--format"@, "{{.Server.Version}}"@],
{
    let out: Vec<String> = words(&["version", "--format", "{{.Server.Version}}"]);
    assert(text::views(out@) =~= seq!["version"@, "--format"@, "{{.Server.Version}}"@]);
    out
}

/// A failed call's message: what was tried, and what the command said.
pub open spec fn complaint(what: Seq<char>, out: Output) -> Seq<char> {
    what + text::trimmed(out.stderr@)
}

/// Whether a command ended well; where not, `what` and its own words.
pub fn checked(out: &Output, what: &str) -> (r: Result<(), String>)
    ensures
        r is Ok <==> out.code == 0,
        r matches Err(message) ==> message@ == complaint(what@, *out),
{
    if out.code == 0 {
        return Ok(());
    }
    let said: String = text::trim(out.stderr.as_str());
    let mut message: String = what.to_owned();
    message.append(said.as_str());
    Err(message)
}

/// What is said of a daemon that does not answer.
pub const UNREACHABLE: &'static str = "docker daemon unreachable: ";

/// Whether one of the timeout programs is GNU's.
pub open spec fn has_gnu(versions: Seq<Option<String>>) -> bool {
    exists|i: int| 0 <= i < TIMEOUT_PROGRAMS@.len() && #[trigger] is_gnu(versions, i)
}

/// Whether jobs can be run here, as far as it is known.
#[derive(Debug)]
pub enum Readiness {
    /// The daemon is to be asked.
    Ask,
    Ready,
    NotReady { message: String },
}

/// Whether jobs can be run here, from what the `--version` of each timeout program
/// printed where it succeeded, and from the daemon's answer once it was asked. The
/// daemon is not asked where the host has no GNU `timeout`: its absence shows before
/// a job is started, not midway through builds.
pub fn readiness(versions: &[Option<String>], answer: &Option<Output>) -> (out: Readiness)
    ensures
        match out {
            Readiness::Ask => has_gnu(versions@) && answer is None,
            Readiness::Ready => has_gnu(versions@) && (answer matches Some(said) && said.code == 0),
            Readiness::NotReady { message } => if has_gnu(versions@) {
                answer matches Some(said) && said.code != 0 && message@ == complaint(
                    UNREACHABLE@,
                    *said,
                )
            } else {
                message@ == NO_TIMEOUT@
            },
        },
{
    if let Err(message) = host_timeout(versions) {
        return Readiness::NotReady { message };
    }
    match answer {
        None => Readiness::Ask,
        Some(said) => match checked(said, UNREACHABLE) {
            Ok(()) => Readiness::Ready,
            Err(message) => Readiness::NotReady { message },
        },
    }
}

/// The command line that builds an image from `context`, natively for this
/// daemon and within `seconds`, and leaves its identity in `receipt`.
pub fn build(timeout: &str, context: &str, tag: &str, receipt: &str, seconds: u64) -> (out: Vec<
    String,
>)
    ensures
        text::views(out@) == seq![
            timeout@,
            "--signal=KILL"@,
            lines::digits(seconds as nat),
            "docker"@,
            "build"@,
            "--iidfile"@,
            receipt@,
            "-t"@,
            tag@,
            context@,
        ],
{
    let limit: String = lines::number(seconds);
    let out: Vec<String> = words(
        &[
            timeout,
            "--signal=KILL",
            limit.as_str(),
            "docker",
            "build",
            "--iidfile",
            receipt,
            "-t",
            tag,
            context,
        ],
    );
    assert(text::views(out@) =~= seq![
        timeout@,
        "--signal=KILL"@,
        lines::digits(seconds as nat),
        "docker"@,
        "build"@,
        "--iidfile"@,
        receipt@,
        "-t"@,
        tag@,
        context@,
    ]);
    out
}

/// The arguments that start a container; the limits and the directory it idles
/// in.
pub open spec fn start_words(
    name: Seq<char>,
    image: Seq<char>,
    workdir: Seq<char>,
    cpus: Seq<char>,
    memory: Seq<char>,
) -> Seq<Seq<char>> {
    seq![
        "run"@,
        "-d"@,
        "--name"@,
        name,
        "--cpus"@,
        cpus,
        "--memory"@,
        memory,
        "-w"@,
        workdir,
        "--entrypoint"@,
        "sh"@,
        image,
        "-c"@,
        "while true; do sleep 3600; done"@,
    ]
}

/// The arguments that start a container which idles until removed.
pub fn start(name: &str, image: &str, workdir: &str, cpus: &str, memory: &str) -> (out: Vec<String>)
    ensures
        text::views(out@) == start_words(name@, image@, workdir@, cpus@, memory@),
{
    let out: Vec<String> = words(
        &[
            "run",
            "-d",
            "--name",
            name,
            "--cpus",
            cpus,
            "--memory",
            memory,
            "-w",
            workdir,
            "--entrypoint",
            "sh",
            image,
            "-c",
            "while true; do sleep 3600; done",
        ],
    );
    assert(text::views(out@) =~= start_words(name@, image@, workdir@, cpus@, memory@));
    out
}

/// The arguments that start a container without a network or capabilities.
pub open spec fn isolated_words(
    name: Seq<char>,
    image: Seq<char>,
    workdir: Seq<char>,
    cpus: Seq<char>,
    memory: Seq<char>,
) -> Seq<Seq<char>> {
    seq!["run"@, "-d"@, "--network"@, "none"@, "--cap-drop"@, "ALL"@] + start_words(
        name,
        image,
        workdir,
        cpus,
        memory,
    ).skip(2)
}

/// The arguments that start a container which idles until removed, without a
/// network or capabilities.
pub fn start_isolated(name: &str, image: &str, workdir: &str, cpus: &str, memory: &str) -> (out: Vec<
    String,
>)
    ensures
        text::views(out@) == isolated_words(name@, image@, workdir@, cpus@, memory@),
{
    let usual: Vec<String> = start(name, image, workdir, cpus, memory);
    let mut out: Vec<String> = words(&["run", "-d", "--network", "none", "--cap-drop", "ALL"]);
    let ghost all = start_words(name@, image@, workdir@, cpus@, memory@);
    assert(usual@.len() == text::views(usual@).len());
    let ghost before = text::views(out@);
    text::append_range(&mut out, &usual, 2, usual.len());
    assert(before =~= seq!["run"@, "-d"@, "--network"@, "none"@, "--cap-drop"@, "ALL"@]);
    assert(text::views(out@) =~= before + all.skip(2));
    out
}

/// The arguments that remove a container.
pub fn remove(name: &str) -> (out: Vec<String>)
    ensures
        text::views(out@) == seq!["rm"@, "-f"@, name@],
{
    let out: Vec<String> = words(&["rm", "-f", name]);
    assert(text::views(out@) =~= seq!["rm"@, "-f"@, name@]);
    out
}

/// `<container>:<path>`.
pub open spec fn inside(name: Seq<char>, path: Seq<char>) -> Seq<char> {
    name + ":"@ + path
}

fn inside_path(name: &str, path: &str) -> (out: String)
    ensures
        out@ == inside(name@, path@),
{
    let mut out: String = name.to_owned();
    out.append(":");
    out.append(path);
    out
}

/// The arguments that copy a host file into a container.
pub fn copy_in(name: &str, from: &str, to: &str) -> (out: Vec<String>)
    ensures
        text::views(out@) == seq!["cp"@, from@, inside(name@, to@)],
{
    let target: String = inside_path(name, to);
    let out: Vec<String> = words(&["cp", from, target.as_str()]);
    assert(text::views(out@) =~= seq!["cp"@, from@, inside(name@, to@)]);
    out
}

/// The arguments that copy a container's files to the host.
pub fn copy_out(name: &str, from: &str, to: &str) -> (out: Vec<String>)
    ensures
        text::views(out@) == seq!["cp"@, inside(name@, from@), to@],
{
    let source: String = inside_path(name, from);
    let out: Vec<String> = words(&["cp", source.as_str(), to]);
    assert(text::views(out@) =~= seq!["cp"@, inside(name@, from@), to@]);
    out
}

/// What a failed copy, either way, is said to have been.
pub fn copy_label(from: &str, to: &str) -> (out: String)
    ensures
        out@ == "docker cp "@ + from@ + " -> "@ + to@ + ": "@,
{
    let mut out: String = "docker cp ".to_owned();
    out.append(from);
    out.append(" -> ");
    out.append(to);
    out.append(": ");
    out
}

/// The arguments that export variables to a container command.
pub open spec fn env_words(env: Seq<(String, String)>) -> Seq<Seq<char>>
    decreases env.len(),
{
    if env.len() == 0 {
        Seq::empty()
    } else {
        env_words(env.drop_last()).push("-e"@).push(env.last().0@ + "="@ + env.last().1@)
    }
}

/// How long the host waits for a container command: a second longer than the
/// container allows it, so that a timeout in the container is reported as such.
pub open spec fn host_seconds(seconds: u64) -> nat {
    if seconds == u64::MAX {
        seconds as nat
    } else {
        seconds as nat + 1
    }
}

/// The command line that runs a command in a container.
pub open spec fn exec_words(
    timeout: Seq<char>,
    name: Seq<char>,
    workdir: Seq<char>,
    env: Seq<(String, String)>,
    script: Seq<char>,
    seconds: u64,
) -> Seq<Seq<char>> {
    seq![
        timeout,
        "--signal=KILL"@,
        lines::digits(host_seconds(seconds)),
        "docker"@,
        "exec"@,
        "--user"@,
        "root"@,
        "-w"@,
        workdir,
    ] + env_words(env) + seq![
        name,
        "timeout"@,
        "--signal=KILL"@,
        lines::digits(seconds as nat),
        "bash"@,
        "-c"@,
        script,
    ]
}

/// The command line that runs a shell command in a container as root, with a
/// hard timeout enforced inside the container (coreutils `timeout`, present in
/// every base image the dataset uses), and `env` exported to it. The host's own
/// deadline stops a command that ignores the container's.
pub fn exec(
    timeout: &str,
    name: &str,
    workdir: &str,
    env: &[(String, String)],
    script: &str,
    seconds: u64,
) -> (out: Vec<String>)
    ensures
        text::views(out@) == exec_words(timeout@, name@, workdir@, env@, script@, seconds),
{
    let host: u64 = if seconds == u64::MAX {
        seconds
    } else {
        seconds + 1
    };
    let deadline: String = lines::number(host);
    let mut out: Vec<String> = words(
        &[
            timeout,
            "--signal=KILL",
            deadline.as_str(),
            "docker",
            "exec",
            "--user",
            "root",
            "-w",
            workdir,
        ],
    );
    let ghost head = seq![
        timeout@,
        "--signal=KILL"@,
        lines::digits(host_seconds(seconds)),
        "docker"@,
        "exec"@,
        "--user"@,
        "root"@,
        "-w"@,
        workdir@,
    ];
    assert(text::views(out@) =~= head);
    let n: usize = env.len();
    assert(head + env_words(env@.take(0)) =~= head);
    for i in 0..n
        invariant
            n == env@.len(),
            text::views(out@) == head + env_words(env@.take(i as int)),
    {
        proof {
            assert(env@.take(i + 1).drop_last() =~= env@.take(i as int));
        }
        let ghost before = out@;
        out.push("-e".to_owned());
        let ghost mid = out@;
        assert(text::views(mid) =~= text::views(before).push("-e"@));
        let mut pair: String = env[i].0.clone();
        pair.append("=");
        pair.append(env[i].1.as_str());
        let ghost shown = pair@;
        out.push(pair);
        assert(text::views(out@) =~= text::views(mid).push(shown));
        assert(text::views(out@) =~= head + env_words(env@.take(i + 1)));
    }
    assert(env@.take(n as int) =~= env@);
    let limit: String = lines::number(seconds);
    let tail: Vec<String> = words(
        &[name, "timeout", "--signal=KILL", limit.as_str(), "bash", "-c", script],
    );
    text::append_range(&mut out, &tail, 0, tail.len());
    assert(text::views(out@) =~= exec_words(timeout@, name@, workdir@, env@, script@, seconds));
    out
}

/// What is said of a container command that the host had to stop.
pub const TERMINATED: &'static str = "docker client terminated by signal";

/// What a container command left; one that a signal ended on the host gave no
/// exit code, and none is made up for it.
pub fn exec_result(code: Option<i32>, stdout: String, stderr: String) -> (out: Result<
    Output,
    String,
>)
    ensures
        out is Ok <==> code is Some,
        out matches Ok(left) ==> Some(left.code) == code && left.stdout == stdout && left.stderr
            == stderr,
        out matches Err(message) ==> message@ == TERMINATED@,
{
    match code {
        Some(code) => Ok(Output { code, stdout, stderr }),
        None => Err(TERMINATED.to_owned()),
    }
}

/// The exit code by which a file is said not to exist; neither `cat` nor `docker`
/// itself ends with it.
pub const ABSENT: i32 = 66;

/// What is said of a file that could not be printed though it may exist.
pub const UNREADABLE: &'static str = "docker exec cat: ";

/// The shell command that runs what it is given on a file, its second argument,
/// unless there is no such file.
pub const IF_PRESENT: &'static str = "[ -e \"$2\" ] || exit 66; exec \"$@\"";

/// The arguments that print a container's file, and tell its absence from any
/// other failure.
pub fn read_file(name: &str, path: &str) -> (out: Vec<String>)
    ensures
        text::views(out@) == seq![
            "exec"@,
            "--user"@,
            "root"@,
            name@,
            "sh"@,
            "-c"@,
            IF_PRESENT@,
            "sh"@,
            "cat"@,
            path@,
        ],
{
    let out: Vec<String> = words(
        &["exec", "--user", "root", name, "sh", "-c", IF_PRESENT, "sh", "cat", path],
    );
    assert(text::views(out@) =~= seq![
        "exec"@,
        "--user"@,
        "root"@,
        name@,
        "sh"@,
        "-c"@,
        IF_PRESENT@,
        "sh"@,
        "cat"@,
        path@,
    ]);
    out
}

/// The file's contents, or `None` if it does not exist; any other failure, such as
/// a container that is gone, is an error.
pub fn file_contents(out: Output) -> (r: Result<Option<String>, String>)
    ensures
        match r {
            Ok(Some(contents)) => out.code == 0 && contents == out.stdout,
            Ok(None) => out.code == ABSENT,
            Err(message) => out.code != 0 && out.code != ABSENT && message@ == complaint(
                UNREADABLE@,
                out,
            ),
        },
{
    if out.code == ABSENT {
        return Ok(None);
    }
    match checked(&out, UNREADABLE) {
        Ok(()) => Ok(Some(out.stdout)),
        Err(message) => Err(message),
    }
}

// ---------------------------------------------------------------------------
// What every call keeps to

/// The host has GNU's `timeout` exactly when `timeout` or `gtimeout` says that it is of
/// GNU coreutils.
pub proof fn either_program_may_be_gnus(versions: Seq<Option<String>>)
    ensures
        has_gnu(versions) <==> (versions.len() > 0 && versions[0] is Some && text::occurs(
            versions[0]->0@,
            "GNU coreutils"@,
        )) || (versions.len() > 1 && versions[1] is Some && text::occurs(
            versions[1]->0@,
            "GNU coreutils"@,
        )),
        TIMEOUT_PROGRAMS@.len() == 2,
        TIMEOUT_PROGRAMS@[0]@ == "timeout"@,
        TIMEOUT_PROGRAMS@[1]@ == "gtimeout"@,
{
    if is_gnu(versions, 0) || is_gnu(versions, 1) {
        assert(has_gnu(versions));
    }
}

/// A failed call says what was tried, and then what the command said, without white space
/// round it.
pub proof fn a_complaint_says_what_was_tried(what: Seq<char>, out: Output)
    ensures
        what.is_prefix_of(complaint(what, out)),
        complaint(what, out).skip(what.len() as int) == text::trimmed(out.stderr@),
{
    assert(complaint(what, out).subrange(0, what.len() as int) =~= what);
    assert(complaint(what, out).skip(what.len() as int) =~= text::trimmed(out.stderr@));
}

/// A container is started in the background under its name, with its limits and in its
/// directory, and idles in a shell of its image.
pub proof fn a_container_has_its_name_and_limits(
    name: Seq<char>,
    image: Seq<char>,
    workdir: Seq<char>,
    cpus: Seq<char>,
    memory: Seq<char>,
)
    ensures
        ({
            let words = start_words(name, image, workdir, cpus, memory);
            &&& words.len() == 15
            &&& words[0] == "run"@ && words[1] == "-d"@
            &&& words[2] == "--name"@ && words[3] == name
            &&& words[4] == "--cpus"@ && words[5] == cpus
            &&& words[6] == "--memory"@ && words[7] == memory
            &&& words[8] == "-w"@ && words[9] == workdir
            &&& words[10] == "--entrypoint"@ && words[11] == "sh"@ && words[12] == image
            &&& words[13] == "-c"@ && words[14] == "while true; do sleep 3600; done"@
        }),
{
}

/// An isolated container is started as any other is, but without a network and without
/// capabilities.
pub proof fn isolation_takes_the_network_and_the_capabilities(
    name: Seq<char>,
    image: Seq<char>,
    workdir: Seq<char>,
    cpus: Seq<char>,
    memory: Seq<char>,
)
    ensures
        ({
            let words = isolated_words(name, image, workdir, cpus, memory);
            let usual = start_words(name, image, workdir, cpus, memory);
            &&& words.len() == usual.len() + 4
            &&& words.take(2) == usual.take(2)
            &&& words.subrange(2, 6) == seq!["--network"@, "none"@, "--cap-drop"@, "ALL"@]
            &&& words.skip(6) == usual.skip(2)
        }),
{
    let words = isolated_words(name, image, workdir, cpus, memory);
    let usual = start_words(name, image, workdir, cpus, memory);
    assert(words.take(2) =~= usual.take(2));
    assert(words.subrange(2, 6) =~= seq!["--network"@, "none"@, "--cap-drop"@, "ALL"@]);
    assert(words.skip(6) =~= usual.skip(2));
}

proof fn lemma_env_words(env: Seq<(String, String)>, i: int)
    ensures
        env_words(env).len() == 2 * env.len(),
        0 <= i < env.len() ==> env_words(env)[2 * i] == "-e"@ && env_words(env)[2 * i + 1]
            == env[i].0@ + "="@ + env[i].1@,
    decreases env.len(),
{
    if env.len() > 0 {
        lemma_env_words(env.drop_last(), i);
    }
}

/// A command runs in its container as root, in its directory, with every variable
/// exported to it, and is killed there after its own seconds; the host waits longer, where
/// it can, before it kills the client.
pub proof fn a_command_is_limited_inside_its_container(
    timeout: Seq<char>,
    name: Seq<char>,
    workdir: Seq<char>,
    env: Seq<(String, String)>,
    script: Seq<char>,
    seconds: u64,
    i: int,
)
    ensures
        ({
            let words = exec_words(timeout, name, workdir, env, script, seconds);
            let n = 2 * env.len() as int;
            &&& words.len() == 16 + n
            &&& words[0] == timeout && words[1] == "--signal=KILL"@
            &&& words[2] == lines::digits(host_seconds(seconds))
            &&& words[3] == "docker"@ && words[4] == "exec"@
            &&& words[5] == "--user"@ && words[6] == "root"@
            &&& words[7] == "-w"@ && words[8] == workdir
            &&& 0 <= i < env.len() ==> words[9 + 2 * i] == "-e"@ && words[10 + 2 * i] == env[i].0@
                + "="@ + env[i].1@
            &&& words[9 + n] == name
            &&& words[10 + n] == "timeout"@ && words[11 + n] == "--signal=KILL"@
            &&& words[12 + n] == lines::digits(seconds as nat)
            &&& words[13 + n] == "bash"@ && words[14 + n] == "-c"@ && words[15 + n] == script
        }),
        host_seconds(seconds) <= u64::MAX,
        seconds < u64::MAX ==> host_seconds(seconds) == seconds + 1,
        host_seconds(seconds) >= seconds,
{
    lemma_env_words(env, i);
    let words = exec_words(timeout, name, workdir, env, script, seconds);
    if 0 <= i < env.len() {
        assert(words[9 + 2 * i] == env_words(env)[2 * i]);
        assert(words[10 + 2 * i] == env_words(env)[2 * i + 1]);
    }
}

/// A file of a container is named by the container, a colon and its path.
pub proof fn a_containers_file_is_named_by_both(name: Seq<char>, path: Seq<char>)
    ensures
        inside(name, path).len() == name.len() + 1 + path.len(),
        inside(name, path).take(name.len() as int) == name,
        inside(name, path)[name.len() as int] == ':',
        inside(name, path).skip(name.len() as int + 1) == path,
{
    reveal_strlit(":");
    assert(inside(name, path).take(name.len() as int) =~= name);
    assert(inside(name, path).skip(name.len() as int + 1) =~= path);
}

} // verus!
