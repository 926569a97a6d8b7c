//! The decisions taken on a request, and the relay of the store's reply.
//!
//! Nothing here talks to the network. A request is turned into an [`Action`]:
//! either the response to send at once, or the order to forward the request to
//! the store. What the store did is handed back as a [`BackendReply`] and
//! turned into the response for the caller.

use crate::config::{authenticated, find_client, Client, ClientView, Config, ConfigView};
use crate::matching::matchable;
use vstd::prelude::*;
use vstd::string::*;
use vstd::utf8::encode_utf8;

verus! {

/// Status of the response to a request whose metric expression is malformed.
pub const BAD_REQUEST: u16 = 400;

/// Status of the response to a token that authenticates nobody.
pub const UNAUTHORIZED: u16 = 401;

/// Status of the response to a client that may not touch the metric.
pub const FORBIDDEN: u16 = 403;

/// Status of the response when the store could not be reached, or answered
/// with a status that is none.
pub const INTERNAL_SERVER_ERROR: u16 = 500;

/// `i` is the place of the first colon of `expr`.
pub open spec fn first_colon(expr: Seq<char>, i: int) -> bool {
    &&& 0 <= i < expr.len()
    &&& expr[i] == ':'
    &&& forall|j: int| 0 <= j < i ==> expr[j] != ':'
}

/// The metric that a query expression `aggregator:metric` names: all that
/// follows its first colon. An expression without a colon names none.
pub open spec fn metric_of(expr: Seq<char>) -> Option<Seq<char>> {
    if exists|i: int| first_colon(expr, i) {
        Some(expr.skip((choose|i: int| first_colon(expr, i)) + 1))
    } else {
        None
    }
}

/// An expression names a metric exactly when it holds a colon.
pub proof fn lemma_metric_of_some_iff_colon(expr: Seq<char>)
    ensures
        metric_of(expr) is Some <==> expr.contains(':'),
{
    if expr.contains(':') {
        let k = choose|k: int| 0 <= k < expr.len() && expr[k] == ':';
        lemma_colon_has_first(expr, k);
    }
    if metric_of(expr) is Some {
        let i = choose|i: int| first_colon(expr, i);
        assert(expr[i] == ':');
    }
}

/// If `expr` has a colon at `k`, it has a first colon.
proof fn lemma_colon_has_first(expr: Seq<char>, k: int)
    requires
        0 <= k < expr.len(),
        expr[k] == ':',
    ensures
        exists|i: int| first_colon(expr, i),
    decreases k,
{
    if exists|j: int| 0 <= j < k && expr[j] == ':' {
        let j = choose|j: int| 0 <= j < k && expr[j] == ':';
        lemma_colon_has_first(expr, j);
    } else {
        assert(first_colon(expr, k));
    }
}

/// With the first colon at `i`, the metric is what follows place `i`.
pub proof fn lemma_metric_of_at(expr: Seq<char>, i: int)
    requires
        first_colon(expr, i),
    ensures
        metric_of(expr) == Some(expr.skip(i + 1)),
{
    let k = choose|k: int| first_colon(expr, k);
    if k < i {
        assert(expr[k] != ':');
    } else if i < k {
        assert(expr[i] != ':');
    }
}

/// What is left of a text after its first `k` characters takes no more bytes
/// than the text.
pub proof fn lemma_suffix_is_no_longer(text: Seq<char>, k: int)
    requires
        0 <= k <= text.len(),
    ensures
        encode_utf8(text.skip(k)).len() <= encode_utf8(text).len(),
    decreases k,
{
    if k == 0 {
        assert(text.skip(0) == text);
    } else {
        assert(text.drop_first().skip(k - 1) == text.skip(k));
        lemma_suffix_is_no_longer(text.drop_first(), k - 1);
    }
}

/// The metric that a matchable expression names is matchable.
pub proof fn lemma_metric_of_matchable(expr: Seq<char>)
    requires
        matchable(expr),
    ensures
        metric_of(expr) matches Some(name) ==> matchable(name),
{
    if metric_of(expr) is Some {
        let i = choose|i: int| first_colon(expr, i);
        lemma_suffix_is_no_longer(expr, i + 1);
    }
}

/// Why a query expression was refused.
#[derive(Clone, Copy, Debug, PartialEq, Eq, Structural)]
pub enum MetricError {
    /// The expression holds no colon, so it names no metric.
    MissingColon,
}

/// Extracts the metric name from a query expression `aggregator:metric`.
pub fn get_metric(m: &String) -> (metric: Result<String, MetricError>)
    ensures
        match metric_of(m@) {
            Some(name) => metric matches Ok(got) && got@ == name,
            None => metric == Err::<String, MetricError>(MetricError::MissingColon),
        },
{
    let expr = m.as_str();
    let n = expr.unicode_len();
    let mut i: usize = 0;
    while i < n
        invariant
            n == expr@.len(),
            expr@ == m@,
            i <= n,
            forall|j: int| 0 <= j < i ==> expr@[j] != ':',
        decreases n - i,
    {
        if expr.get_char(i) == ':' {
            proof {
                assert(first_colon(m@, i as int));
                lemma_metric_of_at(m@, i as int);
            }
            return Ok(String::from_str(expr.substring_char(i + 1, n)));
        }
        i += 1;
    }
    proof {
        assert(!m@.contains(':'));
        lemma_metric_of_some_iff_colon(m@);
    }
    Err(MetricError::MissingColon)
}

/// The parts of a list written one after the other, with `sep` between each
/// two neighbours.
pub open spec fn joined(parts: Seq<Seq<char>>, sep: Seq<char>) -> Seq<char>
    decreases parts.len(),
{
    if parts.len() == 0 {
        Seq::empty()
    } else if parts.len() == 1 {
        parts[0]
    } else {
        joined(parts.drop_last(), sep) + sep + parts.last()
    }
}

/// Writes the patterns of an allow-list as one line, separated by `", "`.
pub fn join_patterns(patterns: &Vec<String>) -> (line: String)
    ensures
        line@ == joined(patterns@.map_values(|p: String| p@), ", "@),
{
    let ghost parts = patterns@.map_values(|p: String| p@);
    let mut line = String::new();
    let mut i: usize = 0;
    while i < patterns.len()
        invariant
            i <= patterns.len(),
            parts == patterns@.map_values(|p: String| p@),
            line@ == joined(parts.take(i as int), ", "@),
        decreases patterns.len() - i,
    {
        proof {
            let next = parts.take(i as int + 1);
            assert(next.drop_last() == parts.take(i as int));
            assert(next.last() == patterns[i as int]@);
        }
        if i > 0 {
            line.append(", ");
            line.append(patterns[i].as_str());
        } else {
            line.append(patterns[i].as_str());
            assert(line@ == patterns[i as int]@);
        }
        i += 1;
    }
    assert(parts.take(patterns.len() as int) == parts);
    line
}

/// The address of the endpoint `name` of the store at `base`: the two joined
/// by exactly one slash, which `base` may already end in.
pub open spec fn endpoint(base: Seq<char>, name: Seq<char>) -> Seq<char> {
    if base.len() > 0 && base.last() == '/' {
        base + name
    } else {
        base + "/"@ + name
    }
}

/// Builds the address of an endpoint of the store.
pub fn backend_url(base: &str, name: &str) -> (url: String)
    ensures
        url@ == endpoint(base@, name@),
{
    let n = base.unicode_len();
    let mut url = String::from_str(base);
    if !(n > 0 && base.get_char(n - 1) == '/') {
        url.append("/");
    }
    url.append(name);
    url
}

/// Body of the response to a token that authenticates nobody.
pub open spec fn unknown_token_message(token: Seq<char>) -> Seq<char> {
    "Unauthorized. Unknown token: "@ + token + ". Please specify a valid tokne."@
}

/// Body of the response to a client that may not write `metric`.
pub open spec fn write_denied_message(metric: Seq<char>, patterns: Seq<Seq<char>>) -> Seq<char> {
    "Not allowed to write metric `"@ + metric + "`. Allowed metrics: "@ + joined(patterns, ", "@)
}

/// Body of the response to a client that may not read `metric`.
pub open spec fn read_denied_message(metric: Seq<char>) -> Seq<char> {
    "Not allowed to read metric `"@ + metric + "`"@
}

/// Body of the response to a query expression that names no metric.
pub open spec fn malformed_message(expr: Seq<char>) -> Seq<char> {
    "Malformed metric expression `"@ + expr + "`. Expected `aggregator:metric`."@
}

/// Body of the response when the store could not be reached.
pub open spec fn proxy_error_message(description: Seq<char>) -> Seq<char> {
    "Proxy error: "@ + description
}

/// A response for the caller: a status and a body.
#[derive(Clone, Debug, PartialEq, Eq)]
pub struct Response {
    pub status: u16,
    pub body: String,
}

/// Mathematical model of a [`Response`].
pub struct ResponseView {
    pub status: u16,
    pub body: Seq<char>,
}

impl View for Response {
    type V = ResponseView;

    open spec fn view(&self) -> ResponseView {
        ResponseView { status: self.status, body: self.body@ }
    }
}

/// What is to be done with a request.
#[derive(Clone, Debug, PartialEq, Eq)]
pub enum Action {
    /// Answer at once, without a call to the store.
    Respond(Response),
    /// Send the request of `client`, which names `metric`, to the store at
    /// `url`, once, and relay what comes back.
    Forward { client: String, metric: String, url: String },
}

/// Mathematical model of an [`Action`].
pub enum ActionView {
    Respond(ResponseView),
    Forward { client: Seq<char>, metric: Seq<char>, url: Seq<char> },
}

impl View for Action {
    type V = ActionView;

    open spec fn view(&self) -> ActionView {
        match self {
            Action::Respond(response) => ActionView::Respond(response@),
            Action::Forward { client, metric, url } => ActionView::Forward {
                client: client@,
                metric: metric@,
                url: url@,
            },
        }
    }
}

/// The response that refuses a token.
pub open spec fn unauthorized(token: Seq<char>) -> ActionView {
    ActionView::Respond(ResponseView { status: UNAUTHORIZED, body: unknown_token_message(token) })
}

/// The response that refuses a query expression that names no metric.
pub open spec fn malformed(expr: Seq<char>) -> ActionView {
    ActionView::Respond(ResponseView { status: BAD_REQUEST, body: malformed_message(expr) })
}

/// What is done with a write of `metric` by `client`, given whether its
/// allow-list matches the metric: forwarded to the `put` endpoint of the store
/// at `base` where it does, refused as forbidden where it does not.
pub open spec fn write_outcome(
    client: ClientView,
    allowed: bool,
    base: Seq<char>,
    metric: Seq<char>,
) -> ActionView {
    if allowed {
        ActionView::Forward { client: client.name, metric, url: endpoint(base, "put"@) }
    } else {
        ActionView::Respond(
            ResponseView { status: FORBIDDEN, body: write_denied_message(metric, client.metrics) },
        )
    }
}

/// What is done with a read of `metric` by `client`, given whether its
/// allow-list matches the metric: forwarded to the `query` endpoint of the
/// store at `base` where it does, refused as forbidden where it does not.
pub open spec fn read_outcome(
    client: ClientView,
    allowed: bool,
    base: Seq<char>,
    metric: Seq<char>,
) -> ActionView {
    if allowed {
        ActionView::Forward { client: client.name, metric, url: endpoint(base, "query"@) }
    } else {
        ActionView::Respond(ResponseView { status: FORBIDDEN, body: read_denied_message(metric) })
    }
}

/// What is done with a write of `metric` under `token`: refused as
/// unauthorized where the token authenticates nobody, as forbidden where the
/// client's allow-list does not match the metric, and else forwarded to the
/// store's `put` endpoint.
pub open spec fn put_decision(cfg: ConfigView, token: Seq<char>, metric: Seq<char>) -> ActionView {
    match authenticated(cfg.clients, token) {
        None => unauthorized(token),
        Some(i) => write_outcome(cfg.clients[i], cfg.clients[i].allows(metric), cfg.url, metric),
    }
}

/// What is done with a read of the expression `expr` under `token`: refused
/// as unauthorized where the token authenticates nobody, as a bad request
/// where the expression names no metric, as forbidden where the client's
/// allow-list does not match the metric, and else forwarded to the store's
/// `query` endpoint.
pub open spec fn query_decision(cfg: ConfigView, token: Seq<char>, expr: Seq<char>) -> ActionView {
    match authenticated(cfg.clients, token) {
        None => unauthorized(token),
        Some(i) => match metric_of(expr) {
            None => malformed(expr),
            Some(metric) => read_outcome(
                cfg.clients[i],
                cfg.clients[i].allows(metric),
                cfg.url,
                metric,
            ),
        },
    }
}

/// Builds the response that refuses a token.
pub fn refuse_token(token: &str) -> (action: Action)
    ensures
        action@ == unauthorized(token@),
{
    let mut body = String::from_str("Unauthorized. Unknown token: ");
    body.append(token);
    body.append(". Please specify a valid tokne.");
    Action::Respond(Response { status: UNAUTHORIZED, body })
}

/// Builds the response that refuses a query expression that names no metric.
pub fn refuse_expression(expr: &str) -> (action: Action)
    ensures
        action@ == malformed(expr@),
{
    let mut body = String::from_str("Malformed metric expression `");
    body.append(expr);
    body.append("`. Expected `aggregator:metric`.");
    Action::Respond(Response { status: BAD_REQUEST, body })
}

/// Settles a write of `metric` by `client`, once it is known whether the
/// client's allow-list matches the metric.
pub fn settle_write(client: &Client, allowed: bool, base: &str, metric: &str) -> (action: Action)
    ensures
        action@ == write_outcome(client@, allowed, base@, metric@),
{
    if allowed {
        Action::Forward {
            client: client.name.clone(),
            metric: String::from_str(metric),
            url: backend_url(base, "put"),
        }
    } else {
        let mut body = String::from_str("Not allowed to write metric `");
        body.append(metric);
        body.append("`. Allowed metrics: ");
        let patterns = join_patterns(&client.metrics);
        body.append(patterns.as_str());
        Action::Respond(Response { status: FORBIDDEN, body })
    }
}

/// Settles a read of `metric` by `client`, once it is known whether the
/// client's allow-list matches the metric.
pub fn settle_read(client: &Client, allowed: bool, base: &str, metric: &str) -> (action: Action)
    ensures
        action@ == read_outcome(client@, allowed, base@, metric@),
{
    if allowed {
        Action::Forward {
            client: client.name.clone(),
            metric: String::from_str(metric),
            url: backend_url(base, "query"),
        }
    } else {
        let mut body = String::from_str("Not allowed to read metric `");
        body.append(metric);
        body.append("`");
        Action::Respond(Response { status: FORBIDDEN, body })
    }
}

/// Decides what is done with a write of `metric` under `token`.
pub fn authorize_put(cfg: &Config, token: &str, metric: &str) -> (action: Action)
    requires
        matchable(metric@),
    ensures
        action@ == put_decision(cfg@, token@, metric@),
{
    match find_client(cfg.clients.as_slice(), token) {
        None => refuse_token(token),
        Some(i) => {
            let client = &cfg.clients[i];
            assert(cfg@.clients[i as int] == client@);
            let allowed = client.can_write(metric);
            settle_write(client, allowed, cfg.config.opentsdb.url.as_str(), metric)
        },
    }
}

/// Decides what is done with a read of the expression `m` under `token`.
pub fn authorize_query(cfg: &Config, token: &str, m: &String) -> (action: Action)
    requires
        matchable(m@),
    ensures
        action@ == query_decision(cfg@, token@, m@),
{
    match find_client(cfg.clients.as_slice(), token) {
        None => refuse_token(token),
        Some(i) => {
            let client = &cfg.clients[i];
            assert(cfg@.clients[i as int] == client@);
            match get_metric(m) {
                Err(_) => refuse_expression(m.as_str()),
                Ok(metric) => {
                    proof {
                        lemma_metric_of_matchable(m@);
                    }
                    let allowed = client.can_read(metric.as_str());
                    settle_read(client, allowed, cfg.config.opentsdb.url.as_str(), metric.as_str())
                },
            }
        },
    }
}

/// A write that an authenticated client is allowed is forwarded to the
/// store's `put` endpoint. The decision depends on the configuration and the
/// request alone, so every repetition of the request is forwarded anew.
pub proof fn lemma_allowed_write_is_forwarded(
    cfg: ConfigView,
    token: Seq<char>,
    metric: Seq<char>,
    i: int,
)
    requires
        authenticated(cfg.clients, token) == Some(i),
        cfg.clients[i].allows(metric),
    ensures
        put_decision(cfg, token, metric) == (ActionView::Forward {
            client: cfg.clients[i].name,
            metric,
            url: endpoint(cfg.url, "put"@),
        }),
{
}

/// Nothing is forwarded to the store unless the token authenticates a client
/// and that client's allow-list matches the metric: a write that is forwarded
/// is forwarded for the authenticated client, with its metric, to the `put`
/// endpoint.
pub proof fn lemma_forwarded_write_was_allowed(cfg: ConfigView, token: Seq<char>, metric: Seq<char>)
    requires
        put_decision(cfg, token, metric) is Forward,
    ensures
        authenticated(cfg.clients, token) matches Some(i) && cfg.clients[i].allows(metric)
            && put_decision(cfg, token, metric) == (ActionView::Forward {
            client: cfg.clients[i].name,
            metric,
            url: endpoint(cfg.url, "put"@),
        }),
{
}

/// A read is forwarded only where the token authenticates a client, the
/// expression names a metric, and that client's allow-list matches the
/// metric.
pub proof fn lemma_forwarded_read_was_allowed(cfg: ConfigView, token: Seq<char>, expr: Seq<char>)
    requires
        query_decision(cfg, token, expr) is Forward,
    ensures
        authenticated(cfg.clients, token) matches Some(i) && metric_of(expr) matches Some(metric)
            && cfg.clients[i].allows(metric) && query_decision(cfg, token, expr) == (
        ActionView::Forward { client: cfg.clients[i].name, metric, url: endpoint(cfg.url, "query"@) }),
{
}

/// A token that authenticates nobody is refused as unauthorized, whatever it
/// asks for, and the refusal depends on the token alone.
pub proof fn lemma_unknown_token_is_refused(
    cfg: ConfigView,
    token: Seq<char>,
    metric: Seq<char>,
    expr: Seq<char>,
)
    requires
        authenticated(cfg.clients, token) is None,
    ensures
        put_decision(cfg, token, metric) == unauthorized(token),
        query_decision(cfg, token, expr) == unauthorized(token),
{
}

/// A read whose expression holds no colon is never forwarded: it is refused
/// as a bad request where the token authenticates a client, and as
/// unauthorized where it does not.
pub proof fn lemma_colonless_read_is_refused(cfg: ConfigView, token: Seq<char>, expr: Seq<char>)
    requires
        !expr.contains(':'),
    ensures
        query_decision(cfg, token, expr) == if authenticated(cfg.clients, token) is Some {
            malformed(expr)
        } else {
            unauthorized(token)
        },
{
    lemma_metric_of_some_iff_colon(expr);
}

/// What came of the call to the store.
#[derive(Clone, Debug, PartialEq, Eq)]
pub enum BackendReply {
    /// The store answered with `status`. `body` is `None` where the body
    /// could not be read.
    Answered { status: u16, body: Option<String> },
    /// The call failed in transport; `description` says how.
    Failed { description: String },
}

/// Mathematical model of a [`BackendReply`].
pub enum BackendReplyView {
    Answered { status: u16, body: Option<Seq<char>> },
    Failed { description: Seq<char> },
}

impl View for BackendReply {
    type V = BackendReplyView;

    open spec fn view(&self) -> BackendReplyView {
        match self {
            BackendReply::Answered { status, body } => BackendReplyView::Answered {
                status: *status,
                body: match body {
                    Some(text) => Some(text@),
                    None => None,
                },
            },
            BackendReply::Failed { description } => BackendReplyView::Failed {
                description: description@,
            },
        }
    }
}

/// A number is a status code iff it has three digits.
pub open spec fn is_status_code(code: u16) -> bool {
    100 <= code < 1000
}

/// The status relayed for the store's `code`: the code itself where it is a
/// status code, and else the status of a server error.
pub open spec fn relayed_status(code: u16) -> u16 {
    if is_status_code(code) {
        code
    } else {
        INTERNAL_SERVER_ERROR
    }
}

/// The response for the caller: the store's status and body unchanged, with
/// an empty body where none could be read; a server error that carries the
/// description where the call failed.
pub open spec fn relayed(reply: BackendReplyView) -> ResponseView {
    match reply {
        BackendReplyView::Answered { status, body } => ResponseView {
            status: relayed_status(status),
            body: match body {
                Some(text) => text,
                None => Seq::empty(),
            },
        },
        BackendReplyView::Failed { description } => ResponseView {
            status: INTERNAL_SERVER_ERROR,
            body: proxy_error_message(description),
        },
    }
}

/// Calls `actix_web::http::StatusCode::from_u16` and hands back the number of
/// the status it made. Trusted: that constructor accepts exactly the numbers
/// from 100 to 999, and the status it makes has the number it was given.
#[verifier::external_body]
fn status_from_u16(code: u16) -> (status: Option<u16>)
    ensures
        status == if is_status_code(code) { Some(code) } else { None },
{
    match actix_web::http::StatusCode::from_u16(code) {
        Ok(status) => Some(status.as_u16()),
        Err(_) => None,
    }
}

/// Chooses the status to relay for the store's `code`.
pub fn relay_status(code: u16) -> (status: u16)
    ensures
        status == relayed_status(code),
{
    match status_from_u16(code) {
        Some(status) => status,
        None => INTERNAL_SERVER_ERROR,
    }
}

/// Turns what came of the call to the store into the response for the caller.
pub fn relay_response(reply: BackendReply) -> (response: Response)
    ensures
        response@ == relayed(reply@),
{
    match reply {
        BackendReply::Answered { status, body } => {
            let body = match body {
                Some(text) => text,
                None => String::new(),
            };
            Response { status: relay_status(status), body }
        },
        BackendReply::Failed { description } => {
            let mut body = String::from_str("Proxy error: ");
            body.append(description.as_str());
            Response { status: INTERNAL_SERVER_ERROR, body }
        },
    }
}

} // verus!
