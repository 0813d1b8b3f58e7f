//! What can go wrong talking to Linear, told apart so callers can react;
//! how an answer is judged; and the name a request goes by in the log.

use vstd::prelude::*;
use crate::resolve::{joined, push_joined, texts};
use crate::text::{chars_of, push_decimal, push_str, split_whitespace, words_of, decimal};
use crate::callback::{index_of, lemma_index_of};

verus! {

/// Linear's machine-readable reason for an error, e.g. `RATELIMITED` or
/// `AUTHENTICATION_ERROR`.
#[derive(Debug, Clone, PartialEq, Eq)]
pub struct Extensions {
    pub code: Option<String>,
}

/// One entry of a GraphQL `errors` array.
#[derive(Debug, Clone, PartialEq, Eq)]
pub struct GraphQLError {
    pub message: String,
    pub extensions: Option<Extensions>,
}

/// The code of an error, if it has one.
pub open spec fn code_of(e: GraphQLError) -> Option<Seq<char>> {
    match e.extensions {
        Some(x) => match x.code {
            Some(c) => Some(c@),
            None => None,
        },
        None => None,
    }
}

impl GraphQLError {
    pub fn code(&self) -> (c: Option<&str>)
        ensures
            match c {
                Some(c) => code_of(*self) == Some(c@),
                None => code_of(*self) is None,
            },
    {
        match &self.extensions {
            Some(x) => match &x.code {
                Some(c) => Some(c.as_str()),
                None => None,
            },
            None => None,
        }
    }
}

/// What went wrong.
#[derive(Debug, Clone, PartialEq, Eq)]
pub enum ApiError {
    /// The request never got an answer: DNS, TLS, a dropped connection, or
    /// the timeout. Holds what the HTTP client said.
    Transport(String),
    /// The credentials were refused, and refreshing them (where possible)
    /// did not help.
    Unauthorized,
    /// Linear asked to slow down, and maybe said for how many seconds.
    RateLimited { retry_after: Option<u64> },
    /// A non-success HTTP status that is none of the above: the status as
    /// HTTP words it (`500 Internal Server Error`), and the body.
    Http { status: String, body: String },
    /// Linear answered, but with GraphQL errors instead of data.
    GraphQL(Vec<GraphQLError>),
    /// The response did not have the shape this client expects — the schema
    /// moved under us.
    Decode(String),
    /// A mutation came back with `success: false`.
    Rejected(&'static str),
    /// Fetching fresh credentials failed.
    Refresh(String),
}

/// Whether one of the errors carries the code `code`.
pub open spec fn has_code(errors: Seq<GraphQLError>, code: Seq<char>) -> bool {
    exists|i: int| 0 <= i < errors.len() && #[trigger] code_of(errors[i]) == Some(code)
}

fn any_code(errors: &Vec<GraphQLError>, code: &str) -> (b: bool)
    ensures
        b == has_code(errors@, code@),
{
    let mut i: usize = 0;
    while i < errors.len()
        invariant
            i <= errors@.len(),
            forall|j: int| 0 <= j < i ==> #[trigger] code_of(errors@[j]) != Some(code@),
        decreases errors@.len() - i,
    {
        match errors[i].code() {
            Some(c) => if crate::text::same_text(c, code) {
                return true;
            },
            None => {},
        }
        i = i + 1;
    }
    false
}

impl ApiError {
    /// Classify a GraphQL error list: Linear reports authentication and rate
    /// limiting as error codes, often with a 200 or 400 status.
    pub fn from_graphql(errors: Vec<GraphQLError>, retry_after: Option<u64>) -> (e: ApiError)
        ensures
            e == (if has_code(errors@, "AUTHENTICATION_ERROR"@) {
                ApiError::Unauthorized
            } else if has_code(errors@, "RATELIMITED"@) {
                ApiError::RateLimited { retry_after }
            } else {
                ApiError::GraphQL(errors)
            }),
    {
        if any_code(&errors, "AUTHENTICATION_ERROR") {
            ApiError::Unauthorized
        } else if any_code(&errors, "RATELIMITED") {
            ApiError::RateLimited { retry_after }
        } else {
            ApiError::GraphQL(errors)
        }
    }

    /// What the error says to the user.
    pub fn message(&self) -> (m: String)
        ensures
            m@ == error_text(*self),
    {
        let mut m = String::new();
        match self {
            ApiError::Transport(cause) => {
                push_str(&mut m, "could not reach Linear: ");
                push_str(&mut m, cause.as_str());
            },
            ApiError::Unauthorized => push_str(
                &mut m,
                "Linear rejected the credentials. Run `linear-tui auth login` to sign in again.",
            ),
            ApiError::RateLimited { retry_after } => {
                push_str(&mut m, "Linear is rate limiting requests");
                let hint = retry_hint(*retry_after);
                push_str(&mut m, hint.as_str());
            },
            ApiError::Http { status, body } => {
                push_str(&mut m, "API error (");
                push_str(&mut m, status.as_str());
                push_str(&mut m, "): ");
                push_str(&mut m, body.as_str());
            },
            ApiError::GraphQL(errors) => {
                let text = join(errors);
                push_str(&mut m, text.as_str());
            },
            ApiError::Decode(what) => {
                push_str(&mut m, "unexpected response from Linear: ");
                push_str(&mut m, what.as_str());
            },
            ApiError::Rejected(what) => push_str(&mut m, what),
            ApiError::Refresh(why) => {
                push_str(&mut m, "could not refresh the session: ");
                push_str(&mut m, why.as_str());
            },
        }
        m
    }
}

/// When to try again, as the rate-limit message says it: at least a second.
pub open spec fn retry_hint_text(retry_after: Option<u64>) -> Seq<char> {
    match retry_after {
        Some(wait) => "; try again in "@ + decimal(if wait >= 1 {
            wait as nat
        } else {
            1
        }) + "s"@,
        None => "; try again shortly"@,
    }
}

/// The messages of the errors, in order.
pub open spec fn messages(errors: Seq<GraphQLError>) -> Seq<Seq<char>> {
    errors.map_values(|e: GraphQLError| e.message@)
}

/// What each error says.
pub open spec fn error_text(e: ApiError) -> Seq<char> {
    match e {
        ApiError::Transport(cause) => "could not reach Linear: "@ + cause@,
        ApiError::Unauthorized => "Linear rejected the credentials. Run `linear-tui auth login` to sign in again."@,
        ApiError::RateLimited { retry_after } => "Linear is rate limiting requests"@ + retry_hint_text(
            retry_after,
        ),
        ApiError::Http { status, body } => "API error ("@ + status@ + "): "@ + body@,
        ApiError::GraphQL(errors) => "GraphQL errors: "@ + joined(messages(errors@), ", "@),
        ApiError::Decode(what) => "unexpected response from Linear: "@ + what@,
        ApiError::Rejected(what) => what@,
        ApiError::Refresh(why) => "could not refresh the session: "@ + why@,
    }
}

fn retry_hint(retry_after: Option<u64>) -> (s: String)
    ensures
        s@ == retry_hint_text(retry_after),
{
    let mut s = String::new();
    match retry_after {
        Some(wait) => {
            push_str(&mut s, "; try again in ");
            push_decimal(
                &mut s,
                if wait >= 1 {
                    wait
                } else {
                    1
                },
            );
            push_str(&mut s, "s");
        },
        None => push_str(&mut s, "; try again shortly"),
    }
    s
}

fn join(errors: &Vec<GraphQLError>) -> (s: String)
    ensures
        s@ == "GraphQL errors: "@ + joined(messages(errors@), ", "@),
{
    let mut list: Vec<String> = Vec::new();
    let mut i: usize = 0;
    while i < errors.len()
        invariant
            i <= errors@.len(),
            texts(list@) == messages(errors@).take(i as int),
        decreases errors@.len() - i,
    {
        let ghost before = texts(list@);
        list.push(errors[i].message.clone());
        assert(texts(list@) =~= before.push(errors@[i as int].message@));
        assert(messages(errors@).take(i + 1) =~= messages(errors@).take(i as int).push(
            errors@[i as int].message@,
        ));
        i = i + 1;
    }
    assert(messages(errors@).take(errors@.len() as int) =~= messages(errors@));
    let mut s = String::new();
    push_str(&mut s, "GraphQL errors: ");
    push_joined(&mut s, &list, ", ");
    s
}

/// What a response body held, as far as judging it goes: whether it read as
/// a GraphQL response at all, its errors, and whether it had data.
#[derive(Debug, Clone, PartialEq, Eq)]
pub struct Reply {
    pub errors: Option<Vec<GraphQLError>>,
    pub has_data: bool,
}

/// The GraphQL errors a reply reports, if it reports any.
pub open spec fn reply_errors(reply: Option<Reply>) -> Option<Vec<GraphQLError>> {
    match reply {
        Some(r) => match r.errors {
            Some(e) => if e@.len() > 0 {
                Some(e)
            } else {
                None
            },
            None => None,
        },
        None => None,
    }
}

/// The error a list of GraphQL errors amounts to.
pub open spec fn graphql_error(errors: Vec<GraphQLError>, retry_after: Option<u64>) -> ApiError {
    if has_code(errors@, "AUTHENTICATION_ERROR"@) {
        ApiError::Unauthorized
    } else if has_code(errors@, "RATELIMITED"@) {
        ApiError::RateLimited { retry_after }
    } else {
        ApiError::GraphQL(errors)
    }
}

/// How an answer is judged: a refused credential or a rate limit by its
/// status, then GraphQL errors whatever the status, then any other failed
/// status, then whether there is data. `None` is an answer to use.
/// `status_text` is the status as HTTP words it, `reply` the body as read,
/// or `None` for a body that is not a GraphQL response.
pub fn judge(status: u16, status_text: String, retry_after: Option<u64>, body: String, reply: Option<
    Reply,
>) -> (r: Option<ApiError>)
    ensures
        status == 401 ==> r == Some(ApiError::Unauthorized),
        status == 429 ==> r == Some(ApiError::RateLimited { retry_after }),
        status != 401 && status != 429 ==> match reply_errors(reply) {
            Some(e) => r == Some(graphql_error(e, retry_after)),
            None => if !(200 <= status < 300) {
                r == Some(ApiError::Http { status: status_text, body })
            } else {
                match reply {
                    Some(rp) => if rp.has_data {
                        r is None
                    } else {
                        r matches Some(ApiError::Decode(m)) && m@ == "no data in the response"@
                    },
                    None => r matches Some(ApiError::Decode(m)) && m@ == "the response is not JSON"@,
                }
            },
        },
{
    if status == 401 {
        return Some(ApiError::Unauthorized);
    }
    if status == 429 {
        return Some(ApiError::RateLimited { retry_after });
    }
    let has_data = match &reply {
        Some(r) => r.has_data,
        None => false,
    };
    let read = reply.is_some();
    let errors = match reply {
        Some(r) => match r.errors {
            Some(e) => if e.len() > 0 {
                Some(e)
            } else {
                None
            },
            None => None,
        },
        None => None,
    };
    match errors {
        Some(e) => return Some(ApiError::from_graphql(e, retry_after)),
        None => {},
    }
    if !(200 <= status && status < 300) {
        return Some(ApiError::Http { status: status_text, body });
    }
    if has_data {
        return None;
    }
    let mut m = String::new();
    if read {
        push_str(&mut m, "no data in the response");
    } else {
        push_str(&mut m, "the response is not JSON");
    }
    Some(ApiError::Decode(m))
}

/// The name a query goes by: the word after `query` or `mutation`, up to its
/// variables or selection; `anonymous` for a query without one.
pub open spec fn operation_name_spec(query: Seq<char>) -> Seq<char> {
    let words = words_of(query);
    if words.len() >= 2 {
        let w = words[1];
        let end = match (index_of(w, '(', 0), index_of(w, '{', 0)) {
            (Some(a), Some(b)) => if a < b {
                a
            } else {
                b
            },
            (Some(a), None) => a,
            (None, Some(b)) => b,
            (None, None) => w.len() as int,
        };
        if end > 0 {
            w.take(end)
        } else {
            "anonymous"@
        }
    } else {
        "anonymous"@
    }
}

/// The name a query goes by in the log.
pub fn operation_name(query: &str) -> (name: String)
    ensures
        name@ == operation_name_spec(query@),
{
    let words = split_whitespace(query);
    assert(words@.map_values(|w: String| w@).len() == words@.len());
    let mut name = String::new();
    if words.len() >= 2 {
        assert(words@.map_values(|w: String| w@)[1] == words@[1]@);
        let w = words[1].as_str();
        let v = chars_of(w);
        let mut end: usize = 0;
        while end < v.len() && v[end] != '(' && v[end] != '{'
            invariant
                v@ == w@,
                end <= v@.len(),
                forall|k: int| 0 <= k < end ==> v@[k] != '(' && v@[k] != '{',
            decreases v@.len() - end,
        {
            end = end + 1;
        }
        proof {
            lemma_index_of(w@, '(', 0);
            lemma_index_of(w@, '{', 0);
        }
        if end > 0 {
            push_str(&mut name, w.substring_char(0, end));
            assert(w@.subrange(0, end as int) =~= w@.take(end as int));
            return name;
        }
    }
    push_str(&mut name, "anonymous");
    name
}

/// A header that is what it is: an API key, or a token nobody can refresh.
pub struct StaticCredentials(pub String);

impl StaticCredentials {
    /// The value of the `Authorization` header: always the one it holds.
    pub fn authorization(&self) -> (header: String)
        ensures
            header@ == self.0@,
    {
        self.0.clone()
    }

    /// Whether a refused header can be replaced: never.
    pub fn refresh(&self, rejected: &str) -> (retry: bool)
        ensures
            !retry,
    {
        false
    }
}

}
