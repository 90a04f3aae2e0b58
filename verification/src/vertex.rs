//! Vertex AI configuration, the endpoint URL, and the decisions taken around
//! each call: what an HTTP status means, whether to retry, and which text a
//! reply carries.
use vstd::prelude::*;
use crate::text::{
    chars_of, contains, contains_exec, lacks_pair, lemma_lacks_pair, lemma_lacks_pair_add, occurs_at,
    push_char,
    push_str,
};

verus! {

/// Seconds before a request to Vertex AI times out.
pub const DEFAULT_TIMEOUT_SECS: u64 = 60;

/// Most tokens the model may generate.
pub const DEFAULT_MAX_TOKENS: u32 = 8192;

/// Region used when none is given.
pub const DEFAULT_LOCATION: &'static str = "us-central1";

/// Model used when none is given.
pub const DEFAULT_MODEL: &'static str = "gemini-2.5-flash";

/// How many times a failed call is retried.
pub const MAX_RETRIES: u32 = 3;

/// The duration `Duration::from_secs(secs)` makes.
pub uninterp spec fn duration_from_secs(secs: u64) -> std::time::Duration;

/// A duration of `secs` seconds.
///
/// Trusted: calls `std::time::Duration::from_secs`; its result is named by
/// `duration_from_secs`.
#[verifier::external_body]
fn duration_of_secs(secs: u64) -> (d: std::time::Duration)
    ensures
        d == duration_from_secs(secs),
{
    std::time::Duration::from_secs(secs)
}

/// Configuration for the Vertex AI client.
pub struct VertexConfig {
    pub project_id: String,
    pub location: String,
    pub model: String,
    pub timeout: std::time::Duration,
    pub max_tokens: u32,
}

/// The settings found in the environment: `GOOGLE_CLOUD_PROJECT`,
/// `VERTEX_AI_LOCATION` and `VERTEX_AI_MODEL`, each when it is set.
pub struct ConfigEnv {
    pub project: Option<String>,
    pub location: Option<String>,
    pub model: Option<String>,
}

impl ConfigEnv {
    /// An environment that sets none of the three variables.
    pub fn empty() -> (res: Self)
        ensures
            res.project is None,
            res.location is None,
            res.model is None,
    {
        ConfigEnv { project: None, location: None, model: None }
    }
}

/// Why a configuration could not be built.
#[derive(Debug, Clone, Copy, PartialEq, Eq, Structural)]
pub enum ConfigError {
    /// Neither `--project` nor `GOOGLE_CLOUD_PROJECT` gives a project.
    MissingProject,
}

impl ConfigError {
    /// The message shown for this error.
    pub fn message(&self) -> (res: &'static str)
        ensures
            res@ == "Missing project ID. Set --project or GOOGLE_CLOUD_PROJECT env var"@,
    {
        match self {
            ConfigError::MissingProject => "Missing project ID. Set --project or GOOGLE_CLOUD_PROJECT env var",
        }
    }
}

/// The first of an explicit value and an environment value that is given.
pub open spec fn first_given(arg: Option<&str>, env: Option<String>) -> Option<Seq<char>> {
    match arg {
        Some(a) => Some(a@),
        None => match env {
            Some(e) => Some(e@),
            None => None,
        },
    }
}

/// The chosen value, or `default`.
pub open spec fn given_or(arg: Option<&str>, env: Option<String>, default: Seq<char>) -> Seq<char> {
    match first_given(arg, env) {
        Some(v) => v,
        None => default,
    }
}

/// The first of `arg` and `env` that is given, as a string.
fn choose_value(arg: Option<&str>, env: &Option<String>) -> (res: Option<String>)
    ensures
        res.deep_view() == first_given(arg, *env),
{
    match arg {
        Some(a) => Some(String::from_str(a)),
        None => match env {
            Some(e) => Some(e.clone()),
            None => None,
        },
    }
}

impl VertexConfig {
    /// Build config from explicit values, falling back to the environment.
    pub fn from_args(
        project: Option<&str>,
        location: Option<&str>,
        model: Option<&str>,
        env: &ConfigEnv,
    ) -> (res: Result<Self, ConfigError>)
        ensures
            first_given(project, env.project) is None <==> res is Err,
            res matches Ok(c) ==> {
                &&& Some(c.project_id@) == first_given(project, env.project)
                &&& c.location@ == given_or(location, env.location, DEFAULT_LOCATION@)
                &&& c.model@ == given_or(model, env.model, DEFAULT_MODEL@)
                &&& c.timeout == duration_from_secs(DEFAULT_TIMEOUT_SECS)
                &&& c.max_tokens == DEFAULT_MAX_TOKENS
            },
            // An explicit value always wins over the environment, which only
            // fills in what was not given; the defaults come last.
            project matches Some(p) ==> res matches Ok(c) && c.project_id@ == p@,
            project is None ==> (env.project matches Some(p) ==> (res matches Ok(c) && c.project_id@
                == p@)),
            project is None && env.project is None ==> res matches Err(ConfigError::MissingProject),
            res matches Ok(c) ==> {
                &&& location matches Some(l) ==> c.location@ == l@
                &&& location is None ==> (env.location matches Some(l) ==> c.location@ == l@)
                &&& location is None && env.location is None ==> c.location@ == DEFAULT_LOCATION@
                &&& model matches Some(m) ==> c.model@ == m@
                &&& model is None ==> (env.model matches Some(m) ==> c.model@ == m@)
                &&& model is None && env.model is None ==> c.model@ == DEFAULT_MODEL@
            },
    {
        let project_id = match choose_value(project, &env.project) {
            Some(p) => p,
            None => return Err(ConfigError::MissingProject),
        };
        let location = match choose_value(location, &env.location) {
            Some(l) => l,
            None => String::from_str(DEFAULT_LOCATION),
        };
        let model = match choose_value(model, &env.model) {
            Some(m) => m,
            None => String::from_str(DEFAULT_MODEL),
        };
        Ok(
            VertexConfig {
                project_id,
                location,
                model,
                timeout: duration_of_secs(DEFAULT_TIMEOUT_SECS),
                max_tokens: DEFAULT_MAX_TOKENS,
            },
        )
    }

    /// Build the Vertex AI REST API endpoint URL.
    pub fn endpoint_url(&self) -> (res: String)
        ensures
            res@ == endpoint_url_text(self.location@, self.project_id@, self.model@),
    {
        let mut url = String::new();
        push_str(&mut url, "https://");
        push_str(&mut url, self.location.as_str());
        push_str(&mut url, "-aiplatform.googleapis.com/v1/projects/");
        push_str(&mut url, self.project_id.as_str());
        push_str(&mut url, "/locations/");
        push_str(&mut url, self.location.as_str());
        push_str(&mut url, "/publishers/google/models/");
        push_str(&mut url, self.model.as_str());
        push_str(&mut url, ":generateContent");
        url
    }
}

/// The `generateContent` endpoint of a model in a project and region.
pub open spec fn endpoint_url_text(location: Seq<char>, project: Seq<char>, model: Seq<char>) -> Seq<
    char,
> {
    "https://"@ + location + "-aiplatform.googleapis.com/v1/projects/"@ + project + "/locations/"@
        + location + "/publishers/google/models/"@ + model + ":generateContent"@
}

// ---------------------------------------------------------------------------
// HTTP status
// ---------------------------------------------------------------------------

/// The decimal digits.
pub open spec fn digits() -> Seq<char> {
    seq!['0', '1', '2', '3', '4', '5', '6', '7', '8', '9']
}

/// The decimal representation of `n`.
pub open spec fn decimal(n: nat) -> Seq<char>
    decreases n,
{
    if n < 10 {
        seq![digits()[n as int]]
    } else {
        decimal(n / 10) + seq![digits()[(n % 10) as int]]
    }
}

/// Appends the decimal representation of `n` to `out`.
fn push_decimal(out: &mut String, n: u16)
    ensures
        final(out)@ == old(out)@ + decimal(n as nat),
    decreases n,
{
    if n >= 10 {
        push_decimal(out, n / 10);
    }
    let d = n % 10;
    let c = if d == 0 {
        '0'
    } else if d == 1 {
        '1'
    } else if d == 2 {
        '2'
    } else if d == 3 {
        '3'
    } else if d == 4 {
        '4'
    } else if d == 5 {
        '5'
    } else if d == 6 {
        '6'
    } else if d == 7 {
        '7'
    } else if d == 8 {
        '8'
    } else {
        '9'
    };
    assert(c == digits()[d as int]);
    push_char(out, c);
}

/// The failure an HTTP status stands for, if any: 401 and 403 are
/// authentication failures, 429 is rate limiting, 5xx are server errors, and
/// any other status outside 2xx is a failed request.
pub open spec fn status_failure(status: u16) -> Option<Seq<char>> {
    if status == 401 || status == 403 {
        Some("Authentication failed. Check your GCP credentials and permissions"@)
    } else if status == 429 {
        Some("Rate limited by VertexAI"@)
    } else if 500 <= status <= 599 {
        Some("VertexAI server error ("@ + decimal(status as nat) + ")"@)
    } else if !(200 <= status <= 299) {
        Some("VertexAI request failed ("@ + decimal(status as nat) + ")"@)
    } else {
        None
    }
}

/// The error message for an HTTP status, or `None` on success.
pub fn status_error(status: u16) -> (res: Option<String>)
    ensures
        res.deep_view() == status_failure(status),
{
    if status == 401 || status == 403 {
        Some(String::from_str("Authentication failed. Check your GCP credentials and permissions"))
    } else if status == 429 {
        Some(String::from_str("Rate limited by VertexAI"))
    } else if 500 <= status && status <= 599 {
        let mut m = String::from_str("VertexAI server error (");
        push_decimal(&mut m, status);
        push_str(&mut m, ")");
        Some(m)
    } else if !(200 <= status && status <= 299) {
        let mut m = String::from_str("VertexAI request failed (");
        push_decimal(&mut m, status);
        push_str(&mut m, ")");
        Some(m)
    } else {
        None
    }
}

// ---------------------------------------------------------------------------
// Retries
// ---------------------------------------------------------------------------

/// A failure worth retrying: rate limiting or a server error.
pub open spec fn is_retryable(message: Seq<char>) -> bool {
    contains(message, "Rate limited"@) || contains(message, "server error"@)
}

/// Seconds to wait before retry number `attempt + 1`: 1, 2, 4, ...
pub open spec fn backoff_secs(attempt: nat) -> nat
    decreases attempt,
{
    if attempt == 0 {
        1
    } else {
        2 * backoff_secs((attempt - 1) as nat)
    }
}

/// What to do after attempt number `attempt` (from 0) failed.
#[derive(Debug, Clone, Copy, PartialEq, Eq, Structural)]
pub enum RetryDecision {
    /// Wait this many seconds, then try again.
    Retry { delay_secs: u64 },
    /// Return the failure.
    GiveUp,
}

/// Decides whether to retry after attempt `attempt` failed with
/// `failure_message`: retryable failures are retried with exponential
/// backoff until `MAX_RETRIES` retries have been made.
pub fn retry_decision(attempt: u32, failure_message: &str) -> (res: RetryDecision)
    ensures
        if is_retryable(failure_message@) && attempt < MAX_RETRIES {
            res == (RetryDecision::Retry { delay_secs: backoff_secs(attempt as nat) as u64 })
        } else {
            res == RetryDecision::GiveUp
        },
        // Three retries at most, waiting 1, 2 and then 4 seconds.
        is_retryable(failure_message@) && attempt == 0 ==> res == (RetryDecision::Retry {
            delay_secs: 1,
        }),
        is_retryable(failure_message@) && attempt == 1 ==> res == (RetryDecision::Retry {
            delay_secs: 2,
        }),
        is_retryable(failure_message@) && attempt == 2 ==> res == (RetryDecision::Retry {
            delay_secs: 4,
        }),
        attempt >= 3 ==> res == RetryDecision::GiveUp,
        !contains(failure_message@, "Rate limited"@) && !contains(failure_message@, "server error"@)
            ==> res == RetryDecision::GiveUp,
{
    let m = chars_of(failure_message);
    let rate = chars_of("Rate limited");
    let server = chars_of("server error");
    let retryable = contains_exec(&m, &rate) || contains_exec(&m, &server);
    if !retryable || attempt >= MAX_RETRIES {
        return RetryDecision::GiveUp;
    }
    let mut delay: u64 = 1;
    let mut k: u32 = 0;
    while k < attempt
        invariant
            k <= attempt < MAX_RETRIES,
            delay == backoff_secs(k as nat),
            k == 0 ==> delay == 1,
            k == 1 ==> delay == 2,
            k == 2 ==> delay == 4,
        decreases attempt - k,
    {
        delay = delay * 2;
        k = k + 1;
    }
    RetryDecision::Retry { delay_secs: delay }
}

// ---------------------------------------------------------------------------
// Replies
// ---------------------------------------------------------------------------

/// One part of a candidate's content.
pub struct CandidatePart {
    pub text: Option<String>,
}

/// A candidate's content.
pub struct CandidateContent {
    pub parts: Option<Vec<CandidatePart>>,
}

/// One candidate reply.
pub struct Candidate {
    pub content: Option<CandidateContent>,
}

/// The body of a `generateContent` reply.
pub struct GenerateResponse {
    pub candidates: Option<Vec<Candidate>>,
}

/// The text of the first part of the first candidate, if there is one.
pub open spec fn first_text(resp: GenerateResponse) -> Option<Seq<char>> {
    match resp.candidates {
        Some(cs) => if cs@.len() > 0 {
            match cs@[0].content {
                Some(c) => match c.parts {
                    Some(ps) => if ps@.len() > 0 {
                        ps@[0].text.deep_view()
                    } else {
                        None
                    },
                    None => None,
                },
                None => None,
            }
        } else {
            None
        },
        None => None,
    }
}

/// The text a reply carries: that of the first part of its first candidate.
pub fn reply_text(resp: GenerateResponse) -> (res: Option<String>)
    ensures
        res.deep_view() == first_text(resp),
{
    let mut cs = match resp.candidates {
        Some(cs) => cs,
        None => return None,
    };
    if cs.len() == 0 {
        return None;
    }
    let first = cs.swap_remove(0);
    let content = match first.content {
        Some(c) => c,
        None => return None,
    };
    let mut ps = match content.parts {
        Some(ps) => ps,
        None => return None,
    };
    if ps.len() == 0 {
        return None;
    }
    let part = ps.swap_remove(0);
    part.text
}

// ---------------------------------------------------------------------------
// Which failures are retried
// ---------------------------------------------------------------------------

proof fn lemma_decimal_digits(n: nat)
    ensures
        forall|j: int| 0 <= j < decimal(n).len() ==> '0' <= #[trigger] decimal(n)[j] <= '9',
    decreases n,
{
    if n >= 10 {
        lemma_decimal_digits(n / 10);
        let d = decimal(n / 10);
        assert forall|j: int| 0 <= j < decimal(n).len() implies '0' <= #[trigger] decimal(n)[j] <= '9' by {
            if j < d.len() {
                assert(decimal(n)[j] == d[j]);
            }
        }
    }
}

/// Digits followed by `)` hold no `s` and no `R`.
proof fn lemma_lacks_pair_digits(d: Seq<char>, a: char, b: char)
    requires
        forall|j: int| 0 <= j < d.len() ==> '0' <= #[trigger] d[j] <= '9',
        !('0' <= a <= '9'),
        a != ')',
    ensures
        lacks_pair(d + ")"@, a, b),
    decreases d.len(),
{
    reveal_strlit(")");
    if d.len() > 0 {
        lemma_lacks_pair_digits(d.drop_first(), a, b);
        assert((d + ")"@).drop_first() =~= d.drop_first() + ")"@);
        assert((d + ")"@)[0] == d[0]);
    } else {
        assert(d + ")"@ =~= seq![')']);
    }
}

/// Law: a failed request is retried (while retries remain) exactly when its
/// status is 429 or a 5xx server error.
#[verifier::rlimit(60)]
pub proof fn law_retry_on_rate_limit_and_server_error(status: u16)
    requires
        status_failure(status) is Some,
    ensures
        is_retryable(status_failure(status)->0) <==> (status == 429 || 500 <= status <= 599),
{
    let rate = "Rate limited"@;
    let server = "server error"@;
    reveal_strlit("Rate limited");
    reveal_strlit("server error");
    let m = status_failure(status)->0;
    if status == 401 || status == 403 {
        let a = "Authentication failed. Check your GCP credentials and permissions"@;
        reveal_strlit("Authentication failed. Check your GCP credentials and permissions");
        let a1 = a.subrange(0, 22);
        let a2 = a.subrange(22, 44);
        let a3 = a.subrange(44, 65);
        assert(a =~= a1 + (a2 + a3));
        reveal_with_fuel(lacks_pair, 25);
        assert(lacks_pair(a1, 'R', 'a'));
        assert(lacks_pair(a2, 'R', 'a'));
        assert(lacks_pair(a3, 'R', 'a'));
        assert(lacks_pair(a1, 's', 'e'));
        assert(lacks_pair(a2, 's', 'e'));
        assert(lacks_pair(a3, 's', 'e'));
        lemma_lacks_pair_add(a2, a3, 'R', 'a');
        lemma_lacks_pair_add(a2, a3, 's', 'e');
        lemma_lacks_pair_add(a1, a2 + a3, 'R', 'a');
        lemma_lacks_pair_add(a1, a2 + a3, 's', 'e');
        lemma_lacks_pair(a, rate);
        lemma_lacks_pair(a, server);
    } else if status == 429 {
        reveal_strlit("Rate limited by VertexAI");
        assert(m.subrange(0, 12) =~= rate);
        assert(occurs_at(m, rate, 0));
    } else if 500 <= status <= 599 {
        reveal_strlit("VertexAI server error (");
        let head = "VertexAI server error ("@;
        let d = decimal(status as nat);
        assert(m == head + d + ")"@);
        assert(m.subrange(9, 21) =~= server);
        assert(occurs_at(m, server, 9));
    } else {
        reveal_strlit("VertexAI request failed (");
        let head = "VertexAI request failed ("@;
        let d = decimal(status as nat);
        lemma_decimal_digits(status as nat);
        assert(m == head + d + ")"@);
        assert(m =~= head + (d + ")"@));
        reveal_with_fuel(lacks_pair, 30);
        assert(lacks_pair(head, 'R', 'a'));
        assert(lacks_pair(head, 's', 'e'));
        lemma_lacks_pair_digits(d, 'R', 'a');
        lemma_lacks_pair_digits(d, 's', 'e');
        lemma_lacks_pair_add(head, d + ")"@, 'R', 'a');
        lemma_lacks_pair_add(head, d + ")"@, 's', 'e');
        lemma_lacks_pair(m, rate);
        lemma_lacks_pair(m, server);
    }
}

} // verus!
