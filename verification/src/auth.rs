//! Who may talk to the gateway.
use subtle::ConstantTimeEq;
use vstd::prelude::*;
use vstd::string::*;
use vstd::utf8::*;

use crate::config::McpAuthMode;
use crate::json;
use crate::metrics;
use crate::metrics::{Family, MetricsView};
use crate::state::{AppState, AppStateView, McpAuthState};
use crate::text;

verus! {

/// Why a request is refused.
#[derive(Debug, Clone, Copy, PartialEq, Eq, Structural)]
pub enum DenyReason {
    /// The gateway has no token to compare with.
    Internal,
    /// The request shows nothing.
    MissingHeader,
    /// What it shows is not a bearer token.
    BadFormat,
    /// It shows another token.
    WrongToken,
}

/// Whether a request is let through.
#[derive(Debug, Clone, Copy, PartialEq, Eq, Structural)]
pub enum AuthDecision {
    Allow,
    Deny(DenyReason),
}

/// The name of a reason.
pub open spec fn reason_label(reason: DenyReason) -> Seq<char> {
    match reason {
        DenyReason::Internal => "internal"@,
        DenyReason::MissingHeader => "missing_header"@,
        DenyReason::BadFormat => "bad_format"@,
        DenyReason::WrongToken => "wrong_token"@,
    }
}

impl DenyReason {
    /// The name of the reason.
    pub fn label(&self) -> (label: &'static str)
        ensures
            label@ == reason_label(*self),
    {
        match self {
            DenyReason::Internal => "internal",
            DenyReason::MissingHeader => "missing_header",
            DenyReason::BadFormat => "bad_format",
            DenyReason::WrongToken => "wrong_token",
        }
    }
}

/// `ct_eq` of `subtle::ConstantTimeEq` on byte slices: true exactly if the bytes are the same. That
/// its running time tells nothing of the bytes is not part of what is stated.
#[verifier::external_body]
fn ct_equal(a: &[u8], b: &[u8]) -> (same: bool)
    ensures
        same == (a@ == b@),
{
    bool::from(a.ct_eq(b))
}

/// Whether a request is let through that shows `header`.
pub open spec fn decision(
    mode: McpAuthMode,
    bearer_token: Option<Seq<char>>,
    header: Option<Seq<char>>,
) -> AuthDecision {
    match (mode, bearer_token, header) {
        (McpAuthMode::NoAuth, _, _) => AuthDecision::Allow,
        (McpAuthMode::Bearer, None, _) => AuthDecision::Deny(DenyReason::Internal),
        (McpAuthMode::Bearer, Some(_), None) => AuthDecision::Deny(DenyReason::MissingHeader),
        (McpAuthMode::Bearer, Some(token), Some(shown)) => match text::strip_prefix(
            text::trim(shown),
            "Bearer "@,
        ) {
            None => AuthDecision::Deny(DenyReason::BadFormat),
            Some(candidate) => if candidate.len() == 0 {
                AuthDecision::Deny(DenyReason::BadFormat)
            } else if candidate == token {
                AuthDecision::Allow
            } else {
                AuthDecision::Deny(DenyReason::WrongToken)
            },
        },
    }
}

/// Whether a request is let through that shows `header`.
pub fn authorize_mcp(header: Option<&str>, auth: &McpAuthState) -> (verdict: AuthDecision)
    ensures
        verdict == decision(
            auth.mode,
            text::optional(auth.bearer_token),
            json::text_option(header),
        ),
{
    match auth.mode {
        McpAuthMode::NoAuth => AuthDecision::Allow,
        McpAuthMode::Bearer => {
            let token = match &auth.bearer_token {
                Some(token) => token,
                None => return AuthDecision::Deny(DenyReason::Internal),
            };
            let shown = match header {
                Some(shown) => text::trimmed(shown),
                None => return AuthDecision::Deny(DenyReason::MissingHeader),
            };
            let candidate = match text::text_after_prefix(shown.as_str(), "Bearer ") {
                Some(candidate) => candidate,
                None => return AuthDecision::Deny(DenyReason::BadFormat),
            };
            if candidate.as_str().is_empty() {
                return AuthDecision::Deny(DenyReason::BadFormat);
            }
            proof {
                encode_utf8_decode_utf8(candidate@);
                encode_utf8_decode_utf8(token@);
            }
            if ct_equal(candidate.as_str().as_bytes(), token.as_str().as_bytes()) {
                AuthDecision::Allow
            } else {
                AuthDecision::Deny(DenyReason::WrongToken)
            }
        },
    }
}

/// What is counted of a decision: nothing where clients need not prove who they are.
pub open spec fn with_decision(
    counted: MetricsView,
    mode: McpAuthMode,
    verdict: AuthDecision,
) -> MetricsView {
    match (mode, verdict) {
        (McpAuthMode::NoAuth, _) => counted,
        (McpAuthMode::Bearer, AuthDecision::Allow) => counted.plus(
            metrics::key(Family::AuthSuccesses, Seq::empty(), Seq::empty()),
            1,
        ),
        (McpAuthMode::Bearer, AuthDecision::Deny(reason)) => counted.plus(
            metrics::key(Family::AuthFailures, reason_label(reason), Seq::empty()),
            1,
        ),
    }
}

/// Counts a decision.
pub fn record_auth_decision(state: &mut AppState, verdict: AuthDecision)
    requires
        old(state).wf(),
    ensures
        final(state).wf(),
        final(state)@ == (AppStateView {
            metrics: with_decision(old(state)@.metrics, old(state)@.auth_mode, verdict),
            ..old(state)@
        }),
{
    match state.mcp_auth.mode {
        McpAuthMode::NoAuth => {},
        McpAuthMode::Bearer => match verdict {
            AuthDecision::Allow => state.metrics.record_auth_success(),
            AuthDecision::Deny(reason) => state.metrics.record_auth_failure(reason.label()),
        },
    }
}

/// The decision on a request that shows `header`, by what the gateway keeps.
pub open spec fn state_decision(state: AppStateView, header: Option<Seq<char>>) -> AuthDecision {
    decision(state.auth_mode, state.bearer_token, header)
}

/// What the gateway keeps after it has decided on a request that shows `header`.
pub open spec fn after_decision(state: AppStateView, header: Option<Seq<char>>) -> AppStateView {
    AppStateView {
        metrics: with_decision(state.metrics, state.auth_mode, state_decision(state, header)),
        ..state
    }
}

/// Decides on a request that shows `header`, and counts the decision.
pub fn authorize(state: &mut AppState, header: Option<&str>) -> (verdict: AuthDecision)
    requires
        old(state).wf(),
    ensures
        final(state).wf(),
        verdict == state_decision(old(state)@, json::text_option(header)),
        final(state)@ == after_decision(old(state)@, json::text_option(header)),
{
    let verdict = authorize_mcp(header, &state.mcp_auth);
    record_auth_decision(state, verdict);
    verdict
}

/// Where clients have to show a token, a request is let through exactly if its header is, white
/// space at its ends aside, the word `Bearer`, a space and that token.
pub proof fn law_only_the_token_opens(token: Seq<char>, header: Option<Seq<char>>)
    requires
        token.len() > 0,
    ensures
        decision(McpAuthMode::Bearer, Some(token), header) == AuthDecision::Allow <==> (
        header matches Some(shown) && text::trim(shown) == "Bearer "@ + token),
{
    let prefix = "Bearer "@;
    if let Some(shown) = header {
        let trimmed = text::trim(shown);
        if trimmed == prefix + token {
            assert(trimmed.skip(prefix.len() as int) =~= token);
            assert(trimmed.take(prefix.len() as int) =~= prefix);
        }
        if prefix.is_prefix_of(trimmed) && trimmed.skip(prefix.len() as int) == token {
            assert(trimmed =~= prefix + token);
        }
    }
}

/// An empty token lets no request through.
pub proof fn law_empty_token_opens_nothing(header: Option<Seq<char>>)
    ensures
        decision(McpAuthMode::Bearer, Some(Seq::empty()), header) is Deny,
{
}

/// Where clients need not prove who they are, every request is let through.
pub proof fn law_no_auth_opens_to_all(bearer_token: Option<Seq<char>>, header: Option<Seq<char>>)
    ensures
        decision(McpAuthMode::NoAuth, bearer_token, header) == AuthDecision::Allow,
{
}

/// A request that is refused is refused for the reason that holds of it: that the gateway has no
/// token, that the request shows nothing, that what it shows is no bearer token, or that it shows
/// another one.
pub proof fn law_refusals_say_why(token: Option<Seq<char>>, header: Option<Seq<char>>)
    ensures
        token is None ==> decision(McpAuthMode::Bearer, token, header) == AuthDecision::Deny(
            DenyReason::Internal,
        ),
        token is Some && header is None ==> decision(McpAuthMode::Bearer, token, header)
            == AuthDecision::Deny(DenyReason::MissingHeader),
        token matches Some(held) ==> header matches Some(shown) ==> {
            let verdict = decision(McpAuthMode::Bearer, token, header);
            &&& !"Bearer "@.is_prefix_of(text::trim(shown)) ==> verdict == AuthDecision::Deny(
                DenyReason::BadFormat,
            )
            &&& text::trim(shown) == "Bearer "@ ==> verdict == AuthDecision::Deny(
                DenyReason::BadFormat,
            )
            &&& forall|candidate: Seq<char>|
                candidate.len() > 0 && text::trim(shown) == #[trigger] ("Bearer "@ + candidate)
                    ==> (verdict == if candidate == held {
                    AuthDecision::Allow
                } else {
                    AuthDecision::Deny(DenyReason::WrongToken)
                })
        },
        reason_label(DenyReason::Internal) == "internal"@,
        reason_label(DenyReason::MissingHeader) == "missing_header"@,
        reason_label(DenyReason::BadFormat) == "bad_format"@,
        reason_label(DenyReason::WrongToken) == "wrong_token"@,
{
    let prefix = "Bearer "@;
    if token is Some && header is Some {
        let shown = text::trim(header->Some_0);
        if shown == prefix {
            assert(shown.skip(prefix.len() as int).len() == 0);
        }
        assert forall|candidate: Seq<char>|
            candidate.len() > 0 && shown == #[trigger] (prefix + candidate) implies decision(
            McpAuthMode::Bearer,
            token,
            header,
        ) == if candidate == token->Some_0 {
            AuthDecision::Allow
        } else {
            AuthDecision::Deny(DenyReason::WrongToken)
        } by {
            assert(shown.take(prefix.len() as int) =~= prefix);
            assert(shown.skip(prefix.len() as int) =~= candidate);
        }
    }
}

/// Where clients have to show a token, each decision is counted once, a refusal by its reason;
/// elsewhere nothing is counted. A decision changes nothing else.
pub proof fn law_decisions_are_counted(state: AppStateView, header: Option<Seq<char>>)
    ensures
        ({
            let after = after_decision(state, header);
            let let_through = metrics::key(Family::AuthSuccesses, Seq::empty(), Seq::empty());
            &&& after == (AppStateView { metrics: after.metrics, ..state })
            &&& state.auth_mode == McpAuthMode::NoAuth ==> after == state
            &&& state.auth_mode == McpAuthMode::Bearer ==> match state_decision(state, header) {
                AuthDecision::Allow => after.metrics.counters == state.metrics.counters.insert(
                    let_through,
                    metrics::counted(state.metrics.counters[let_through], 1),
                ),
                AuthDecision::Deny(reason) => {
                    let refused = metrics::key(
                        Family::AuthFailures,
                        reason_label(reason),
                        Seq::empty(),
                    );
                    after.metrics.counters == state.metrics.counters.insert(
                        refused,
                        metrics::counted(state.metrics.counters[refused], 1),
                    )
                },
            }
        }),
{
}

/// The gateway decides by the mode and the token that it keeps.
pub proof fn law_the_kept_token_decides(
    state: AppStateView,
    token: Seq<char>,
    header: Option<Seq<char>>,
)
    requires
        state.auth_mode == McpAuthMode::Bearer,
        state.bearer_token == Some(token),
        token.len() > 0,
    ensures
        state_decision(state, header) == AuthDecision::Allow <==> (header matches Some(shown)
            && text::trim(shown) == "Bearer "@ + token),
{
    law_only_the_token_opens(token, header);
}

} // verus!
