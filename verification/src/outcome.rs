//! The outcome of one observation and the line that reports it.

use vstd::prelude::*;
use crate::classify::{
    class_name, classify_difference, law_class_names_are_distinct, report, Class,
};
use crate::divergence::opt_chars;
use crate::hashing::{full_sha256_hex, sha256, Salt};
use crate::identity::{
    account_key, account_key_of, observed_session_key, opt_str, session_key_of, Trajectory,
    TrajectoryView,
};
use crate::json::{opt_view, Json, JsonView};
use crate::parse::{parse_json, parsed_json};
use crate::path::{known_path, opt_path, DivergencePath, PathView};
use crate::prefix::{
    common_prefix_len, estimate_lcp_tokens, longest_common_prefix, BYTES_PER_TOKEN_APPROX,
};
use crate::sanitize::{log_path, logged_further};
use crate::scan::{signature_transition, transition_report};
use crate::snapshot::{Snapshot, SnapshotView};
use crate::text::{bool_text, decimal, hex, str_eq, to_bool_text, to_decimal};

verus! {

/// Structured diagnostic outcome. Contains no raw request content.
pub struct DiagnosticOutcome {
    pub trajectory_key: String,
    pub trajectory_source: &'static str,
    pub account_key: String,
    pub account_changed: bool,
    pub session_key: Option<String>,
    pub session_changed: bool,
    pub method: String,
    pub observation_seq: u64,
    pub current_bytes: usize,
    pub current_sha256: String,
    pub previous_bytes: Option<usize>,
    pub lcp_bytes: Option<usize>,
    pub estimated_lcp_tokens: Option<usize>,
    pub first_diff_offset: Option<usize>,
    pub first_divergence: Option<DivergencePath>,
    pub classification: &'static str,
    /// Representation transition for `THINKING_SIGNATURE_CHANGE`, or `none` for
    /// every other classification / snapshot state. Never value-derived.
    pub signature_transition: &'static str,
    pub ordering: &'static str,
}

/// The content of a [`DiagnosticOutcome`].
pub ghost struct OutcomeView {
    pub trajectory_key: Seq<char>,
    pub trajectory_source: Seq<char>,
    pub account_key: Seq<char>,
    pub account_changed: bool,
    pub session_key: Option<Seq<char>>,
    pub session_changed: bool,
    pub method: Seq<char>,
    pub observation_seq: u64,
    pub current_bytes: nat,
    pub current_sha256: Seq<char>,
    pub previous_bytes: Option<nat>,
    pub lcp_bytes: Option<nat>,
    pub estimated_lcp_tokens: Option<nat>,
    pub first_diff_offset: Option<nat>,
    pub first_divergence: Option<PathView>,
    pub classification: Seq<char>,
    pub signature_transition: Seq<char>,
    pub ordering: Seq<char>,
}

/// A count that may be absent.
pub open spec fn opt_nat(n: Option<usize>) -> Option<nat> {
    match n {
        Some(k) => Some(k as nat),
        None => None,
    }
}

impl View for DiagnosticOutcome {
    type V = OutcomeView;

    open spec fn view(&self) -> OutcomeView {
        OutcomeView {
            trajectory_key: self.trajectory_key@,
            trajectory_source: self.trajectory_source@,
            account_key: self.account_key@,
            account_changed: self.account_changed,
            session_key: opt_chars(self.session_key),
            session_changed: self.session_changed,
            method: self.method@,
            observation_seq: self.observation_seq,
            current_bytes: self.current_bytes as nat,
            current_sha256: self.current_sha256@,
            previous_bytes: opt_nat(self.previous_bytes),
            lcp_bytes: opt_nat(self.lcp_bytes),
            estimated_lcp_tokens: opt_nat(self.estimated_lcp_tokens),
            first_diff_offset: opt_nat(self.first_diff_offset),
            first_divergence: opt_path(self.first_divergence),
            classification: self.classification@,
            signature_transition: self.signature_transition@,
            ordering: self.ordering@,
        }
    }
}

/// One request as it is observed.
pub ghost struct RequestView {
    pub serialized: Seq<u8>,
    pub body: JsonView,
    pub method: Seq<char>,
    pub account_id: Option<Seq<char>>,
}

/// What every observation reports of the request itself.
pub open spec fn fresh_outcome(
    salt: Seq<u8>,
    request: RequestView,
    trajectory: TrajectoryView,
    seq: u64,
) -> OutcomeView {
    OutcomeView {
        trajectory_key: trajectory.id,
        trajectory_source: trajectory.source,
        account_key: account_key_of(salt, request.account_id),
        account_changed: false,
        session_key: session_key_of(salt, request.body),
        session_changed: false,
        method: request.method,
        observation_seq: seq,
        current_bytes: request.serialized.len(),
        current_sha256: hex(sha256(request.serialized)),
        previous_bytes: None,
        lcp_bytes: None,
        estimated_lcp_tokens: None,
        first_diff_offset: None,
        first_divergence: None,
        classification: "NEW_SESSION"@,
        signature_transition: "none"@,
        ordering: "arrival"@,
    }
}

/// An outcome with the common prefix of `lcp` bytes filled in.
pub open spec fn with_prefix(outcome: OutcomeView, lcp: nat) -> OutcomeView {
    OutcomeView {
        lcp_bytes: Some(lcp),
        estimated_lcp_tokens: Some(lcp / BYTES_PER_TOKEN_APPROX as nat),
        first_diff_offset: Some(lcp),
        ..outcome
    }
}

/// The outcome of observing a request after a previous snapshot, of which
/// `prev_value` is the parsed body, absent where it does not parse.
pub open spec fn outcome_of(
    salt: Seq<u8>,
    prev: Option<SnapshotView>,
    prev_value: Option<JsonView>,
    request: RequestView,
    trajectory: TrajectoryView,
    seq: u64,
) -> OutcomeView {
    let fresh = fresh_outcome(salt, request, trajectory, seq);
    match prev {
        None => fresh,
        Some(p) => {
            let compared = OutcomeView {
                previous_bytes: Some(p.bytes.len()),
                account_changed: p.account_key != fresh.account_key,
                session_changed: p.session_key != fresh.session_key,
                ..fresh
            };
            if p.sha256_hex == fresh.current_sha256 {
                with_prefix(
                    OutcomeView { classification: "DEDUPED"@, ..compared },
                    request.serialized.len(),
                )
            } else {
                let lcp = common_prefix_len(request.serialized, p.bytes);
                with_prefix(
                    match prev_value {
                        Some(value) => {
                            let reported = report(value, request.body);
                            OutcomeView {
                                first_divergence: Some(reported.0),
                                classification: class_name(reported.1),
                                signature_transition: if reported.1 is SignatureChange {
                                    transition_report(value, request.body)
                                } else {
                                    "none"@
                                },
                                ..compared
                            }
                        },
                        None => OutcomeView {
                            first_divergence: Some(known_path(Seq::empty())),
                            classification: "PREVIOUS_PARSE_ERROR"@,
                            ..compared
                        },
                    },
                    lcp,
                )
            }
        },
    }
}

/// Whether two strings that may be absent are the same.
fn same_opt_string(a: &Option<String>, b: &Option<String>) -> (r: bool)
    ensures
        r == (opt_chars(*a) == opt_chars(*b)),
{
    match (a, b) {
        (Some(x), Some(y)) => str_eq(x.as_str(), y.as_str()),
        (None, None) => true,
        _ => false,
    }
}

/// A copy of a string that may be absent.
pub(crate) fn copy_opt_string(s: &Option<String>) -> (copy: Option<String>)
    ensures
        opt_chars(copy) == opt_chars(*s),
{
    match s {
        Some(t) => Some(t.clone()),
        None => None,
    }
}

/// Runs the diagnostic core with an explicit previous snapshot and the value
/// that its bytes parse to, `None` where they do not parse.
pub fn observe_parsed(
    salt: &Salt,
    prev: Option<&Snapshot>,
    prev_value: Option<&Json>,
    serialized: &[u8],
    body: &Json,
    method: &str,
    account_id: Option<&str>,
    trajectory: &Trajectory,
    observation_seq: u64,
) -> (outcome: DiagnosticOutcome)
    ensures
        outcome@ == outcome_of(
            salt@,
            match prev {
                Some(p) => Some(p@),
                None => None,
            },
            opt_view(prev_value),
            (RequestView {
                serialized: serialized@,
                body: body@,
                method: method@,
                account_id: opt_str(account_id),
            }),
            trajectory@,
            observation_seq,
        ),
{
    let current_len: usize = serialized.len();
    let mut outcome = DiagnosticOutcome {
        trajectory_key: trajectory.id.clone(),
        trajectory_source: trajectory.source,
        account_key: account_key(salt, account_id),
        account_changed: false,
        session_key: observed_session_key(salt, body),
        session_changed: false,
        method: method.to_string(),
        observation_seq,
        current_bytes: current_len,
        current_sha256: full_sha256_hex(serialized),
        previous_bytes: None,
        lcp_bytes: None,
        estimated_lcp_tokens: None,
        first_diff_offset: None,
        first_divergence: None,
        classification: "NEW_SESSION",
        signature_transition: "none",
        ordering: "arrival",
    };
    if let Some(p) = prev {
        outcome.previous_bytes = Some(p.bytes.len());
        outcome.account_changed = !str_eq(p.account_key.as_str(), outcome.account_key.as_str());
        outcome.session_changed = !same_opt_string(&p.session_key, &outcome.session_key);
        if str_eq(p.sha256_hex.as_str(), outcome.current_sha256.as_str()) {
            // Idempotent: repeated endpoint attempts with identical bytes.
            outcome.classification = "DEDUPED";
            outcome.lcp_bytes = Some(current_len);
            outcome.estimated_lcp_tokens = Some(estimate_lcp_tokens(current_len));
            outcome.first_diff_offset = Some(current_len);
            return outcome;
        }
        let lcp: usize = longest_common_prefix(serialized, p.bytes.as_slice());
        match prev_value {
            Some(value) => {
                let (path, class) = classify_difference(value, body);
                proof {
                    law_class_names_are_distinct(
                        report(value@, body@).1,
                        Class::SignatureChange,
                    );
                }
                // Only a signature-classified divergence gets a transition; a
                // signature slot that happens to differ alongside a
                // higher-precedence change is not surfaced as a signature event.
                if str_eq(class, "THINKING_SIGNATURE_CHANGE") {
                    outcome.signature_transition = signature_transition(value, body);
                }
                outcome.first_divergence = Some(path);
                outcome.classification = class;
            },
            None => {
                outcome.first_divergence = Some(DivergencePath::known(String::new()));
                outcome.classification = "PREVIOUS_PARSE_ERROR";
            },
        }
        outcome.lcp_bytes = Some(lcp);
        outcome.estimated_lcp_tokens = Some(estimate_lcp_tokens(lcp));
        outcome.first_diff_offset = Some(lcp);
    }
    outcome
}

/// The value that the bytes of a previous snapshot parse to.
pub open spec fn parsed_previous(prev: Option<SnapshotView>) -> Option<JsonView> {
    match prev {
        Some(p) => parsed_json(p.bytes),
        None => None,
    }
}

/// Runs the diagnostic core with an explicit previous snapshot. The previous
/// bytes are parsed lazily: only where a semantic classification is needed.
pub fn observe_inner(
    salt: &Salt,
    prev: Option<&Snapshot>,
    serialized: &[u8],
    body: &Json,
    method: &str,
    account_id: Option<&str>,
    trajectory: &Trajectory,
    observation_seq: u64,
) -> (outcome: DiagnosticOutcome)
    ensures
        outcome@ == outcome_of(
            salt@,
            match prev {
                Some(p) => Some(p@),
                None => None,
            },
            parsed_previous(
                match prev {
                    Some(p) => Some(p@),
                    None => None,
                },
            ),
            (RequestView {
                serialized: serialized@,
                body: body@,
                method: method@,
                account_id: opt_str(account_id),
            }),
            trajectory@,
            observation_seq,
        ),
{
    let prev_value = match prev {
        Some(p) => {
            if str_eq(p.sha256_hex.as_str(), full_sha256_hex(serialized).as_str()) {
                None
            } else {
                parse_json(p.bytes.as_slice())
            }
        },
        None => None,
    };
    observe_parsed(
        salt,
        prev,
        match &prev_value {
            Some(value) => Some(value),
            None => None,
        },
        serialized,
        body,
        method,
        account_id,
        trajectory,
        observation_seq,
    )
}

/// A text, or `none`.
pub open spec fn or_none(text: Option<Seq<char>>) -> Seq<char> {
    match text {
        Some(s) => s,
        None => "none"@,
    }
}

/// A count in decimal, or `none`.
pub open spec fn count_or_none(n: Option<nat>) -> Seq<char> {
    match n {
        Some(k) => decimal(k),
        None => "none"@,
    }
}

/// Writes a count in decimal, or `none`.
pub(crate) fn to_count_or_none(n: Option<usize>) -> (text: String)
    ensures
        text@ == count_or_none(opt_nat(n)),
{
    match n {
        Some(k) => to_decimal(k as u64),
        None => "none".to_string(),
    }
}

/// The divergence path as it is logged: sanitized, `none` where there is none.
pub open spec fn divergence_text(salt: Seq<u8>, path: Option<PathView>) -> Seq<char> {
    match path {
        Some(p) => if logged_further(salt, p.base, p.steps).len() == 0 {
            "none"@
        } else {
            logged_further(salt, p.base, p.steps)
        },
        None => "none"@,
    }
}

/// The line that reports an outcome. The percentage of the common prefix comes
/// as the text in which it is to be shown.
pub open spec fn outcome_line(
    salt: Seq<u8>,
    outcome: OutcomeView,
    lcp_percent: Option<Seq<char>>,
) -> Seq<char> {
    "[CACHE-DIAG] trajectory="@ + outcome.trajectory_key + " trajectory_source="@
        + outcome.trajectory_source + " ordering="@ + outcome.ordering + " account="@
        + outcome.account_key + " account_changed="@ + bool_text(outcome.account_changed)
        + " session="@ + or_none(outcome.session_key) + " session_changed="@
        + bool_text(outcome.session_changed) + " method="@ + outcome.method + " obs_seq="@
        + decimal(outcome.observation_seq as nat) + " current_bytes="@
        + decimal(outcome.current_bytes) + " previous_bytes="@
        + count_or_none(outcome.previous_bytes) + " lcp_bytes="@ + count_or_none(outcome.lcp_bytes)
        + " lcp_percent="@ + or_none(lcp_percent) + " estimated_lcp_tokens="@
        + count_or_none(outcome.estimated_lcp_tokens) + " first_diff_offset="@
        + count_or_none(outcome.first_diff_offset) + " first_divergence="@
        + divergence_text(salt, outcome.first_divergence) + " classification="@
        + outcome.classification + " signature_transition="@ + outcome.signature_transition
}

impl DiagnosticOutcome {
    /// The operands of the percentage of the common prefix: its length, the
    /// current length and the previous length. Absent where nothing was compared.
    pub fn lcp_percent_operands(&self) -> (operands: Option<(usize, usize, usize)>)
        ensures
            match (self.lcp_bytes, self.previous_bytes) {
                (Some(lcp), Some(previous)) => operands == Some(
                    (lcp, self.current_bytes, previous),
                ),
                _ => operands is None,
            },
    {
        match (self.lcp_bytes, self.previous_bytes) {
            (Some(lcp), Some(previous)) => Some((lcp, self.current_bytes, previous)),
            _ => None,
        }
    }

    /// The line that reports this outcome; `lcp_percent` is the percentage of the
    /// common prefix, with two decimals, where there is one.
    pub fn format_line(&self, salt: &Salt, lcp_percent: Option<&str>) -> (line: String)
        ensures
            line@ == outcome_line(salt@, self@, opt_str(lcp_percent)),
    {
        let divergence = match &self.first_divergence {
            Some(path) => {
                let shown = log_path(salt, path);
                if shown.as_str().is_empty() {
                    "none".to_string()
                } else {
                    shown
                }
            },
            None => "none".to_string(),
        };
        let mut line = "[CACHE-DIAG] trajectory=".to_string();
        line.append(self.trajectory_key.as_str());
        line.append(" trajectory_source=");
        line.append(self.trajectory_source);
        line.append(" ordering=");
        line.append(self.ordering);
        line.append(" account=");
        line.append(self.account_key.as_str());
        line.append(" account_changed=");
        line.append(to_bool_text(self.account_changed));
        line.append(" session=");
        match &self.session_key {
            Some(key) => line.append(key.as_str()),
            None => line.append("none"),
        }
        line.append(" session_changed=");
        line.append(to_bool_text(self.session_changed));
        line.append(" method=");
        line.append(self.method.as_str());
        line.append(" obs_seq=");
        line.append(to_decimal(self.observation_seq).as_str());
        line.append(" current_bytes=");
        line.append(to_decimal(self.current_bytes as u64).as_str());
        line.append(" previous_bytes=");
        line.append(to_count_or_none(self.previous_bytes).as_str());
        line.append(" lcp_bytes=");
        line.append(to_count_or_none(self.lcp_bytes).as_str());
        line.append(" lcp_percent=");
        match lcp_percent {
            Some(text) => line.append(text),
            None => line.append("none"),
        }
        line.append(" estimated_lcp_tokens=");
        line.append(to_count_or_none(self.estimated_lcp_tokens).as_str());
        line.append(" first_diff_offset=");
        line.append(to_count_or_none(self.first_diff_offset).as_str());
        line.append(" first_divergence=");
        line.append(divergence.as_str());
        line.append(" classification=");
        line.append(self.classification);
        line.append(" signature_transition=");
        line.append(self.signature_transition);
        line
    }
}

} // verus!
