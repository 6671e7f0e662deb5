//! The isolated prompt lane: what may be sent to the launcher, and what is
//! accepted from it.

use vstd::prelude::*;
use crate::json;
use crate::script;
use crate::text;

verus! {

/// The most bytes a prompt may have.
pub const PROMPT_LIMIT: usize = 131_072;

/// The most bytes a report may have.
pub const REPORT_LIMIT: usize = 4_194_304;

/// The most bytes a request may have.
pub const REQUEST_LIMIT: usize = 5_000_000;

/// The most bytes a response may have.
pub const RESPONSE_LIMIT: usize = 1_200_000;

/// The most bytes a note may have.
pub const NOTE_LIMIT: usize = 65_536;

/// What the launcher proposes.
#[derive(Debug)]
pub struct Proposal {
    pub prompt: String,
    pub note: Option<String>,
}

/// Why a proposal is not asked for, or not taken.
#[derive(Clone, Copy, Debug, PartialEq, Eq, Structural)]
pub enum Refusal {
    InputsExceedLimits,
    RequestExceedsLimits,
    LauncherFailed,
    ResponseExceedsLimit,
    ProposalExceedsLimits,
}

impl Refusal {
    /// What is said of a proposal that is not asked for or not taken; `evidence` is
    /// where the launcher keeps what it did.
    pub fn message(self, evidence: &str) -> (out: String)
        ensures
            out@ == match self {
                Refusal::InputsExceedLimits => "prompt proposal inputs exceed limits"@,
                Refusal::RequestExceedsLimits => "encoded proposal inputs exceed limits"@,
                Refusal::LauncherFailed => "isolated prompt proposal failed; inspect "@
                    + evidence@,
                Refusal::ResponseExceedsLimit => "proposal response exceeds limit"@,
                Refusal::ProposalExceedsLimits => "proposal exceeds limits"@,
            },
    {
        match self {
            Refusal::InputsExceedLimits => "prompt proposal inputs exceed limits".to_owned(),
            Refusal::RequestExceedsLimits => "encoded proposal inputs exceed limits".to_owned(),
            Refusal::LauncherFailed => {
                let mut out: String = "isolated prompt proposal failed; inspect ".to_owned();
                out.append(evidence);
                out
            },
            Refusal::ResponseExceedsLimit => "proposal response exceeds limit".to_owned(),
            Refusal::ProposalExceedsLimits => "proposal exceeds limits".to_owned(),
        }
    }
}

/// What the launcher is sent, from the literals of the prompt and the report.
pub open spec fn request_object(prompt: Seq<char>, report: Seq<char>) -> Seq<char> {
    "{\"prompt\":"@ + prompt + ",\"report\":"@ + report + "}"@
}

/// What the launcher is sent, from the literals of the prompt and the report,
/// where that keeps to the limit.
pub fn request_text(prompt: &str, report: &str) -> (out: Result<String, Refusal>)
    ensures
        out is Ok <==> text::byte_len(request_object(prompt@, report@)) <= REQUEST_LIMIT,
        out matches Ok(request) ==> request@ == request_object(prompt@, report@),
        out matches Err(refusal) ==> refusal == Refusal::RequestExceedsLimits,
{
    let mut out: String = "{\"prompt\":".to_owned();
    out.append(prompt);
    out.append(",\"report\":");
    out.append(report);
    out.append("}");
    if text::bytes_in(out.as_str()) <= REQUEST_LIMIT {
        Ok(out)
    } else {
        Err(Refusal::RequestExceedsLimits)
    }
}

/// Whether a prompt and a report are within the limits.
pub open spec fn inputs_fit(prompt: Seq<char>, report: Seq<char>) -> bool {
    text::byte_len(prompt) <= PROMPT_LIMIT && text::byte_len(report) <= REPORT_LIMIT
}

/// What the launcher is sent for a prompt and a report, where both and the whole
/// keep to their limits.
pub fn request(prompt: &str, report: &str) -> (out: Result<String, Refusal>)
    ensures
        ({
            let whole = request_object(json::json_literal(prompt@), json::json_literal(report@));
            match out {
                Ok(request) => inputs_fit(prompt@, report@) && text::byte_len(whole)
                    <= REQUEST_LIMIT && request@ == whole,
                Err(Refusal::InputsExceedLimits) => !inputs_fit(prompt@, report@),
                Err(refusal) => inputs_fit(prompt@, report@) && text::byte_len(whole)
                    > REQUEST_LIMIT && refusal == Refusal::RequestExceedsLimits,
            }
        }),
{
    if text::bytes_in(prompt) > PROMPT_LIMIT || text::bytes_in(report) > REPORT_LIMIT {
        return Err(Refusal::InputsExceedLimits);
    }
    let first: String = script::quote(prompt);
    let second: String = script::quote(report);
    request_text(first.as_str(), second.as_str())
}

/// Whether a launcher's response is read: it succeeded, and the response keeps
/// to the limit.
pub fn response(success: bool, bytes: usize) -> (out: Result<(), Refusal>)
    ensures
        out == if !success {
            Err::<(), _>(Refusal::LauncherFailed)
        } else if bytes > RESPONSE_LIMIT {
            Err::<(), _>(Refusal::ResponseExceedsLimit)
        } else {
            Ok(())
        },
{
    if !success {
        Err(Refusal::LauncherFailed)
    } else if bytes > RESPONSE_LIMIT {
        Err(Refusal::ResponseExceedsLimit)
    } else {
        Ok(())
    }
}

/// Whether a proposal keeps to the limits.
pub open spec fn proposal_fits(proposal: Proposal) -> bool {
    text::byte_len(proposal.prompt@) <= PROMPT_LIMIT && (proposal.note matches Some(note)
        ==> text::byte_len(note@) <= NOTE_LIMIT)
}

/// A proposal that keeps to the limits, as it is.
pub fn accept(proposal: Proposal) -> (out: Result<Proposal, Refusal>)
    ensures
        out == if proposal_fits(proposal) {
            Ok(proposal)
        } else {
            Err::<Proposal, _>(Refusal::ProposalExceedsLimits)
        },
{
    let mut fits: bool = text::bytes_in(proposal.prompt.as_str()) <= PROMPT_LIMIT;
    if let Some(note) = &proposal.note {
        if text::bytes_in(note.as_str()) > NOTE_LIMIT {
            fits = false;
        }
    }
    if fits {
        Ok(proposal)
    } else {
        Err(Refusal::ProposalExceedsLimits)
    }
}

/// The note to keep beside a proposal.
pub fn note_text(note: &Option<String>) -> (out: String)
    ensures
        out@ == match *note {
            Some(found) => found@,
            None => "No rationale supplied.\n"@,
        },
{
    match note {
        Some(found) => found.clone(),
        None => "No rationale supplied.\n".to_owned(),
    }
}

/// A prompt may have 128 KiB, a report 4 MiB and a note 64 KiB, in bytes; an exchange
/// with the launcher has limits of its own.
pub proof fn every_part_has_its_limit(prompt: Seq<char>, report: Seq<char>, proposal: Proposal)
    ensures
        inputs_fit(prompt, report) <==> text::byte_len(prompt) <= 128 * 1024 && text::byte_len(
            report,
        ) <= 4 * 1024 * 1024,
        proposal_fits(proposal) <==> text::byte_len(proposal.prompt@) <= 128 * 1024 && (
        proposal.note is None || text::byte_len(proposal.note->0@) <= 64 * 1024),
        REQUEST_LIMIT == 5_000_000,
        RESPONSE_LIMIT == 1_200_000,
{
}

/// What the launcher is sent is one object, with the prompt's literal and the report's
/// as its two members.
pub proof fn a_request_holds_the_prompt_and_the_report(prompt: Seq<char>, report: Seq<char>)
    ensures
        request_object(prompt, report) == "{\"prompt\":"@ + prompt + ",\"report\":"@ + report + "}"@,
        text::occurs(request_object(prompt, report), "\"prompt\":"@ + prompt),
        text::occurs(request_object(prompt, report), "\"report\":"@ + report),
{
    reveal_strlit("{\"prompt\":");
    reveal_strlit("{");
    reveal_strlit("\"prompt\":");
    reveal_strlit(",\"report\":");
    reveal_strlit(",");
    reveal_strlit("\"report\":");
    let first = "\"prompt\":"@ + prompt;
    let second = "\"report\":"@ + report;
    assert("{\"prompt\":"@ =~= "{"@ + "\"prompt\":"@);
    assert(",\"report\":"@ =~= ","@ + "\"report\":"@);
    assert(request_object(prompt, report) =~= "{"@ + first + (","@ + second + "}"@));
    assert(request_object(prompt, report) =~= ("{"@ + first + ","@) + second + "}"@);
    text::lemma_occurs_between("{"@, first, ","@ + second + "}"@);
    text::lemma_occurs_between("{"@ + first + ","@, second, "}"@);
}

} // verus!
