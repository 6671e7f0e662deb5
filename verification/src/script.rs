//! The Python programs that the host runs: each embeds the sources of the
//! modules it imports, so that no file of a candidate can stand in for one.

use vstd::prelude::*;
use crate::json;
use crate::lines;
use crate::text;

verus! {

/// The JSON literals of texts, one by one.
pub open spec fn json_literals(sources: Seq<Seq<char>>) -> Seq<Seq<char>> {
    Seq::new(sources.len(), |i: int| json::json_literal(sources[i]))
}

/// The JSON literal of a text.
pub fn quote(source: &str) -> (out: String)
    ensures
        out@ == json::json_literal(source@),
{
    match json::literal(source) {
        Some(out) => out,
        None => String::new(),
    }
}

/// The JSON literals of texts, one by one.
pub fn literals(sources: &[String]) -> (out: Vec<String>)
    ensures
        text::views(out@) == json_literals(text::views(sources@)),
{
    let n: usize = sources.len();
    let mut out: Vec<String> = Vec::new();
    for i in 0..n
        invariant
            n == sources@.len(),
            out@.len() == i,
            forall|j: int| 0 <= j < i ==> (#[trigger] out@[j])@ == json::json_literal(sources@[j]@),
    {
        out.push(quote(sources[i].as_str()));
    }
    assert(text::views(out@) =~= json_literals(text::views(sources@)));
    out
}

/// The lines that make a module `name` and run the source that `value` stands
/// for in it.
pub open spec fn module_lines(name: Seq<char>, value: Seq<char>) -> Seq<char> {
    "m = types.ModuleType(\""@ + name + "\"); sys.modules[\""@ + name + "\"] = m\nexec("@ + value
        + ", m.__dict__)\n"@
}

/// The lines that load each module from its literal.
pub open spec fn loading(names: Seq<Seq<char>>, literals: Seq<Seq<char>>) -> Seq<char>
    decreases names.len(),
{
    if names.len() == 0 {
        Seq::empty()
    } else {
        loading(names.drop_last(), literals) + module_lines(names.last(), literals[names.len() - 1])
    }
}

/// The lines that keep each source and load each module from it.
pub open spec fn keeping(names: Seq<Seq<char>>, literals: Seq<Seq<char>>) -> Seq<char>
    decreases names.len(),
{
    if names.len() == 0 {
        Seq::empty()
    } else {
        keeping(names.drop_last(), literals) + "sources[\""@ + names.last() + "\"] = "@
            + literals[names.len() - 1] + "\n"@ + module_lines(
            names.last(),
            "sources[\""@ + names.last() + "\"]"@,
        )
    }
}

fn append_module(out: &mut String, name: &str, value: &str)
    ensures
        final(out)@ == old(out)@ + module_lines(name@, value@),
{
    let ghost first = out@;
    out.append("m = types.ModuleType(\"");
    out.append(name);
    out.append("\"); sys.modules[\"");
    out.append(name);
    out.append("\"] = m\nexec(");
    out.append(value);
    out.append(", m.__dict__)\n");
    assert(out@ =~= first + module_lines(name@, value@));
}

fn load_modules(out: &mut String, names: &[&str], literals: &[String])
    requires
        names@.len() == literals@.len(),
    ensures
        final(out)@ == old(out)@ + loading(text::str_views(names@), text::views(literals@)),
{
    let ghost first = out@;
    let ghost all = text::str_views(names@);
    let ghost values = text::views(literals@);
    let n: usize = names.len();
    assert(first + loading(all.take(0), values) =~= first);
    for i in 0..n
        invariant
            n == names@.len(),
            n == literals@.len(),
            all == text::str_views(names@),
            values == text::views(literals@),
            out@ == first + loading(all.take(i as int), values),
    {
        proof {
            assert(all.take(i + 1).drop_last() =~= all.take(i as int));
            assert(all.take(i + 1).last() == names@[i as int]@);
            assert(values[i as int] == literals@[i as int]@);
        }
        append_module(out, names[i], literals[i].as_str());
        assert(out@ =~= first + loading(all.take(i + 1), values));
    }
    assert(all.take(n as int) =~= all);
}

fn keep_modules(out: &mut String, names: &[&str], literals: &[String])
    requires
        names@.len() == literals@.len(),
    ensures
        final(out)@ == old(out)@ + keeping(text::str_views(names@), text::views(literals@)),
{
    let ghost first = out@;
    let ghost all = text::str_views(names@);
    let ghost values = text::views(literals@);
    let n: usize = names.len();
    assert(first + keeping(all.take(0), values) =~= first);
    for i in 0..n
        invariant
            n == names@.len(),
            n == literals@.len(),
            all == text::str_views(names@),
            values == text::views(literals@),
            out@ == first + keeping(all.take(i as int), values),
    {
        proof {
            assert(all.take(i + 1).drop_last() =~= all.take(i as int));
            assert(all.take(i + 1).last() == names@[i as int]@);
            assert(values[i as int] == literals@[i as int]@);
        }
        out.append("sources[\"");
        out.append(names[i]);
        out.append("\"] = ");
        out.append(literals[i].as_str());
        out.append("\n");
        let mut kept: String = "sources[\"".to_owned();
        kept.append(names[i]);
        kept.append("\"]");
        append_module(out, names[i], kept.as_str());
        assert(out@ =~= first + keeping(all.take(i + 1), values));
    }
    assert(all.take(n as int) =~= all);
}

// ---------------------------------------------------------------------------
// The output-line scorer

/// The modules that the output-line scorer imports.
pub const SCORER_MODULES: [&'static str; 2] = ["artifact_score", "artifact_capture"];

/// The scorer's program, from the literals of its modules.
pub open spec fn scorer_program(literals: Seq<Seq<char>>, main: Seq<char>) -> Seq<char> {
    "import sys, types\n"@ + loading(text::str_views(SCORER_MODULES@), literals) + main
}

/// The scorer's program, from the literals of its modules' sources and its own.
pub fn scorer_text(literals: &[String], main: &str) -> (out: String)
    requires
        literals@.len() == SCORER_MODULES@.len(),
    ensures
        out@ == scorer_program(text::views(literals@), main@),
{
    let mut out: String = "import sys, types\n".to_owned();
    load_modules(&mut out, &SCORER_MODULES, literals);
    out.append(main);
    out
}

/// The scorer's program, with the sources of its modules and its own.
pub fn scorer_script(sources: &[String], main: &str) -> (out: String)
    requires
        sources@.len() == SCORER_MODULES@.len(),
    ensures
        out@ == scorer_program(json_literals(text::views(sources@)), main@),
{
    let all: Vec<String> = literals(sources);
    assert(text::views(all@).len() == all@.len());
    scorer_text(&all, main)
}

/// What the scorer is given to look for, from the literals of the file and of
/// the line it should hold.
pub open spec fn oracle_object(artifact: Seq<char>, expected: Seq<char>) -> Seq<char> {
    "{\"artifact\":"@ + artifact + ",\"expected\":"@ + expected + "}"@
}

/// What the scorer is given to look for, from the literals of the file and of
/// the line it should hold.
pub fn oracle_text(artifact: &str, expected: &str) -> (out: String)
    ensures
        out@ == oracle_object(artifact@, expected@),
{
    let mut out: String = "{\"artifact\":".to_owned();
    out.append(artifact);
    out.append(",\"expected\":");
    out.append(expected);
    out.append("}");
    out
}

/// What the scorer is given to look for: the file, and the line it should hold.
pub fn oracle(artifact: &str, expected: &str) -> (out: String)
    ensures
        out@ == oracle_object(json::json_literal(artifact@), json::json_literal(expected@)),
{
    let first: String = quote(artifact);
    let second: String = quote(expected);
    oracle_text(first.as_str(), second.as_str())
}

// ---------------------------------------------------------------------------
// The trial relay

/// The modules that the trial relay imports.
pub const RELAY_MODULES: [&'static str; 8] = [
    "artifact_score",
    "artifact_capture",
    "gemini_budget",
    "gemini_usage",
    "gemini_dispatch",
    "gemini_gateway",
    "gemini_relay",
    "gemini_trial_relay",
];

/// The relay's program, from the literals of its modules.
pub open spec fn relay_program(literals: Seq<Seq<char>>) -> Seq<char> {
    "import sys, types\nsources = {}\n"@ + keeping(text::str_views(RELAY_MODULES@), literals)
        + "raise SystemExit(sys.modules['gemini_trial_relay'].entry(sources))\n"@
}

/// The relay's program, from the literals of its modules' sources.
pub fn relay_text(literals: &[String]) -> (out: String)
    requires
        literals@.len() == RELAY_MODULES@.len(),
    ensures
        out@ == relay_program(text::views(literals@)),
{
    let mut out: String = "import sys, types\nsources = {}\n".to_owned();
    keep_modules(&mut out, &RELAY_MODULES, literals);
    out.append("raise SystemExit(sys.modules['gemini_trial_relay'].entry(sources))\n");
    out
}

/// The relay's program, with the sources of its modules.
pub fn relay_script(sources: &[String]) -> (out: String)
    requires
        sources@.len() == RELAY_MODULES@.len(),
    ensures
        out@ == relay_program(json_literals(text::views(sources@))),
{
    let all: Vec<String> = literals(sources);
    assert(text::views(all@).len() == all@.len());
    relay_text(&all)
}

// ---------------------------------------------------------------------------
// The prompt launcher

/// The modules that the prompt launcher imports.
pub const LAUNCHER_MODULES: [&'static str; 5] = [
    "artifact_score",
    "artifact_capture",
    "improver_sandbox",
    "prompt_workspace",
    "prompt_improve",
];

/// What the prompt launcher runs once its modules are loaded.
pub const LAUNCHER_MAIN: &'static str =
    "\ntry:\n    request = json.loads(sys.stdin.buffer.read(5_000_001))\n    result = sys.modules['prompt_improve'].launch(\n        sys.argv[1], request['prompt'].encode('utf-8'), request['report'].encode('utf-8'),\n        int(sys.argv[2]), os.environ['RIGCODER_GATEWAY_TOKEN'], sys.argv[3])\n    print(json.dumps({key: value.decode('utf-8') if value is not None else None for key, value in result.items()}))\nexcept BaseException:\n    sys.stderr.write('isolated prompt proposal failed; inspect retained evidence\\n')\n    sys.exit(1)\n";

/// The launcher's program, from the literals of its modules.
pub open spec fn launcher_program(literals: Seq<Seq<char>>) -> Seq<char> {
    "import sys, types, json, os\n"@ + loading(text::str_views(LAUNCHER_MODULES@), literals)
        + LAUNCHER_MAIN@
}

/// The launcher's program, from the literals of its modules' sources.
pub fn launcher_text(literals: &[String]) -> (out: String)
    requires
        literals@.len() == LAUNCHER_MODULES@.len(),
    ensures
        out@ == launcher_program(text::views(literals@)),
{
    let mut out: String = "import sys, types, json, os\n".to_owned();
    load_modules(&mut out, &LAUNCHER_MODULES, literals);
    out.append(LAUNCHER_MAIN);
    out
}

/// The launcher's program, with the sources of its modules.
pub fn launcher_script(sources: &[String]) -> (out: String)
    requires
        sources@.len() == LAUNCHER_MODULES@.len(),
    ensures
        out@ == launcher_program(json_literals(text::views(sources@))),
{
    let all: Vec<String> = literals(sources);
    assert(text::views(all@).len() == all@.len());
    launcher_text(&all)
}

// ---------------------------------------------------------------------------
// What every program holds

/// Each module more is made under its own name and run from its own literal, after those
/// before it.
pub proof fn one_more_module_is_loaded(
    names: Seq<Seq<char>>,
    name: Seq<char>,
    literals: Seq<Seq<char>>,
)
    requires
        names.len() < literals.len(),
    ensures
        ({
            let value = literals[names.len() as int];
            let made = "m = types.ModuleType(\""@ + name + "\"); sys.modules[\""@ + name
                + "\"] = m\nexec("@;
            &&& loading(Seq::empty(), literals).len() == 0
            &&& keeping(Seq::empty(), literals).len() == 0
            &&& loading(names.push(name), literals) == loading(names, literals) + (made + value
                + ", m.__dict__)\n"@)
            &&& keeping(names.push(name), literals) == keeping(names, literals) + ("sources[\""@
                + name + "\"] = "@ + value + "\n"@ + made + "sources[\""@ + name + "\"]"@
                + ", m.__dict__)\n"@)
        }),
{
    let value = literals[names.len() as int];
    let made = "m = types.ModuleType(\""@ + name + "\"); sys.modules[\""@ + name
        + "\"] = m\nexec("@;
    assert(names.push(name).drop_last() =~= names);
    assert(loading(names.push(name), literals) =~= loading(names, literals) + (made + value
        + ", m.__dict__)\n"@));
    assert(keeping(names.push(name), literals) =~= keeping(names, literals) + ("sources[\""@ + name
        + "\"] = "@ + value + "\n"@ + made + "sources[\""@ + name + "\"]"@ + ", m.__dict__)\n"@));
}

proof fn lemma_every_literal(names: Seq<Seq<char>>, literals: Seq<Seq<char>>, i: int)
    requires
        0 <= i < names.len(),
        names.len() <= literals.len(),
    ensures
        text::occurs(loading(names, literals), literals[i]),
        text::occurs(keeping(names, literals), literals[i]),
    decreases names.len(),
{
    let init = names.drop_last();
    let none = Seq::<char>::empty();
    let name = names.last();
    assert(names =~= init.push(name));
    one_more_module_is_loaded(init, name, literals);
    if i < init.len() {
        lemma_every_literal(init, literals, i);
        let a = loading(init, literals);
        let b = keeping(init, literals);
        let more = loading(names, literals).skip(a.len() as int);
        let kept = keeping(names, literals).skip(b.len() as int);
        assert(none + a + more =~= loading(names, literals));
        assert(none + b + kept =~= keeping(names, literals));
        text::lemma_occurs_within(none, a, more, literals[i]);
        text::lemma_occurs_within(none, b, kept, literals[i]);
    } else {
        let made = "m = types.ModuleType(\""@ + name + "\"); sys.modules[\""@ + name
            + "\"] = m\nexec("@;
        let head = loading(init, literals) + made;
        let tail = ", m.__dict__)\n"@;
        assert(head + literals[i] + tail =~= loading(names, literals));
        text::lemma_occurs_between(head, literals[i], tail);
        let head = keeping(init, literals) + ("sources[\""@ + name + "\"] = "@);
        let tail = "\n"@ + made + "sources[\""@ + name + "\"]"@ + ", m.__dict__)\n"@;
        assert(head + literals[i] + tail =~= keeping(names, literals));
        text::lemma_occurs_between(head, literals[i], tail);
    }
}

/// A program holds the literal of every module it imports, and what it runs comes after
/// all of them.
pub proof fn every_program_holds_its_modules(
    scorer: Seq<Seq<char>>,
    main: Seq<char>,
    relay: Seq<Seq<char>>,
    launcher: Seq<Seq<char>>,
    i: int,
)
    requires
        scorer.len() == 2,
        relay.len() == 8,
        launcher.len() == 5,
    ensures
        0 <= i < 2 ==> text::occurs(scorer_program(scorer, main), scorer[i]),
        0 <= i < 8 ==> text::occurs(relay_program(relay), relay[i]),
        0 <= i < 5 ==> text::occurs(launcher_program(launcher), launcher[i]),
        scorer_program(scorer, main).skip(scorer_program(scorer, main).len() - main.len()) == main,
        "import sys, types\n"@.is_prefix_of(scorer_program(scorer, main)),
        text::occurs(
            relay_program(relay),
            "raise SystemExit(sys.modules['gemini_trial_relay'].entry(sources))\n"@,
        ),
        text::occurs(launcher_program(launcher), LAUNCHER_MAIN@),
{
    let none = Seq::<char>::empty();
    let a = "import sys, types\n"@;
    let names = text::str_views(SCORER_MODULES@);
    let whole = scorer_program(scorer, main);
    assert(whole =~= a + loading(names, scorer) + main);
    if 0 <= i < 2 {
        lemma_every_literal(names, scorer, i);
        text::lemma_occurs_within(a, loading(names, scorer), main, scorer[i]);
    }
    assert(whole.skip(whole.len() - main.len()) =~= main);
    assert(whole.subrange(0, a.len() as int) =~= a);
    let b = "import sys, types\nsources = {}\n"@;
    let names = text::str_views(RELAY_MODULES@);
    let last = "raise SystemExit(sys.modules['gemini_trial_relay'].entry(sources))\n"@;
    assert(relay_program(relay) =~= b + keeping(names, relay) + last);
    if 0 <= i < 8 {
        lemma_every_literal(names, relay, i);
        text::lemma_occurs_within(b, keeping(names, relay), last, relay[i]);
    }
    assert(b + keeping(names, relay) + last + none =~= relay_program(relay));
    text::lemma_occurs_between(b + keeping(names, relay), last, none);
    let c = "import sys, types, json, os\n"@;
    let names = text::str_views(LAUNCHER_MODULES@);
    assert(launcher_program(launcher) =~= c + loading(names, launcher) + LAUNCHER_MAIN@);
    if 0 <= i < 5 {
        lemma_every_literal(names, launcher, i);
        text::lemma_occurs_within(c, loading(names, launcher), LAUNCHER_MAIN@, launcher[i]);
    }
    assert(c + loading(names, launcher) + LAUNCHER_MAIN@ + none =~= launcher_program(launcher));
    text::lemma_occurs_between(c + loading(names, launcher), LAUNCHER_MAIN@, none);
}

/// The modules stand in the order in which they import each other.
pub proof fn modules_stand_in_their_order()
    ensures
        text::str_views(SCORER_MODULES@) == seq!["artifact_score"@, "artifact_capture"@],
        text::str_views(RELAY_MODULES@) == seq![
            "artifact_score"@,
            "artifact_capture"@,
            "gemini_budget"@,
            "gemini_usage"@,
            "gemini_dispatch"@,
            "gemini_gateway"@,
            "gemini_relay"@,
            "gemini_trial_relay"@,
        ],
        text::str_views(LAUNCHER_MODULES@) == seq![
            "artifact_score"@,
            "artifact_capture"@,
            "improver_sandbox"@,
            "prompt_workspace"@,
            "prompt_improve"@,
        ],
{
    assert(text::str_views(SCORER_MODULES@) =~= seq!["artifact_score"@, "artifact_capture"@]);
    assert(text::str_views(RELAY_MODULES@) =~= seq![
        "artifact_score"@,
        "artifact_capture"@,
        "gemini_budget"@,
        "gemini_usage"@,
        "gemini_dispatch"@,
        "gemini_gateway"@,
        "gemini_relay"@,
        "gemini_trial_relay"@,
    ]);
    assert(text::str_views(LAUNCHER_MODULES@) =~= seq![
        "artifact_score"@,
        "artifact_capture"@,
        "improver_sandbox"@,
        "prompt_workspace"@,
        "prompt_improve"@,
    ]);
}

} // verus!
