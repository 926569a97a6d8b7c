//! The registry of clients, their credentials and their metric allow-lists.

use crate::digest::{hex_lower, sha256, sha256_digest, to_hex_lower};
use crate::matching::{glob_match_str, glob_matches, matchable};
use vstd::prelude::*;
use vstd::string::*;
use vstd::utf8::encode_utf8;

verus! {

/// The digest algorithms a credential can name.
#[derive(Clone, Copy, Debug, PartialEq, Eq, Structural)]
pub enum DigestAlgorithm {
    /// Tagged `sha256` in the configuration.
    Sha256,
    /// Any other tag. No token verifies against it.
    Unsupported,
}

/// A credential: an algorithm tag and the expected digest.
#[derive(Clone, Debug, PartialEq, Eq)]
pub struct Auth {
    pub auth_type: String,
    pub hash: String,
}

/// Mathematical model of an [`Auth`].
pub struct AuthView {
    pub auth_type: Seq<char>,
    pub hash: Seq<char>,
}

impl AuthView {
    /// The algorithm that the tag stands for.
    pub open spec fn algorithm(self) -> DigestAlgorithm {
        if self.auth_type == "sha256"@ {
            DigestAlgorithm::Sha256
        } else {
            DigestAlgorithm::Unsupported
        }
    }

    /// A digest verifies iff the algorithm is known and the digest, written
    /// as lower-case hexadecimal digits, is character for character the stored
    /// hash.
    pub open spec fn accepts_digest(self, digest: Seq<u8>) -> bool {
        self.algorithm() == DigestAlgorithm::Sha256 && hex_lower(digest) == self.hash
    }

    /// A token verifies iff the SHA-256 digest of its UTF-8 bytes does.
    pub open spec fn accepts(self, token: Seq<char>) -> bool {
        self.accepts_digest(sha256(encode_utf8(token)))
    }
}

impl View for Auth {
    type V = AuthView;

    open spec fn view(&self) -> AuthView {
        AuthView { auth_type: self.auth_type@, hash: self.hash@ }
    }
}

impl Auth {
    /// Reads the algorithm tag.
    pub fn algorithm(&self) -> (alg: DigestAlgorithm)
        ensures
            alg == self@.algorithm(),
    {
        let sha256 = String::from_str("sha256");
        if self.auth_type == sha256 {
            DigestAlgorithm::Sha256
        } else {
            DigestAlgorithm::Unsupported
        }
    }

    /// Verifies the digest of a presented token against this credential.
    pub fn is_valid_digest(&self, digest: &[u8]) -> (valid: bool)
        ensures
            valid == self@.accepts_digest(digest@),
    {
        match self.algorithm() {
            DigestAlgorithm::Sha256 => to_hex_lower(digest) == self.hash,
            DigestAlgorithm::Unsupported => false,
        }
    }

    /// Verifies a presented token against this credential.
    pub fn is_valid_token(&self, token: &str) -> (valid: bool)
        ensures
            valid == self@.accepts(token@),
    {
        match self.algorithm() {
            DigestAlgorithm::Sha256 => {
                let digest = sha256_digest(token.as_bytes());
                self.is_valid_digest(digest.as_slice())
            },
            DigestAlgorithm::Unsupported => false,
        }
    }
}

/// A registered client: a name for attribution, the glob patterns of the
/// metrics it may touch, and its credential.
#[derive(Clone, Debug, PartialEq, Eq)]
pub struct Client {
    pub name: String,
    pub metrics: Vec<String>,
    pub auth: Auth,
}

/// Mathematical model of a [`Client`].
pub struct ClientView {
    pub name: Seq<char>,
    pub metrics: Seq<Seq<char>>,
    pub auth: AuthView,
}

impl ClientView {
    /// A metric is allowed iff some pattern of the allow-list matches it.
    pub open spec fn allows(self, metric: Seq<char>) -> bool {
        exists|i: int| 0 <= i < self.metrics.len() && glob_matches(#[trigger] self.metrics[i], metric)
    }
}

impl View for Client {
    type V = ClientView;

    open spec fn view(&self) -> ClientView {
        ClientView {
            name: self.name@,
            metrics: self.metrics@.map_values(|p: String| p@),
            auth: self.auth@,
        }
    }
}

/// The operations a request can ask for.
#[derive(Clone, Copy, Debug, PartialEq, Eq, Structural)]
pub enum Operation {
    Read,
    Write,
}

impl Client {
    /// Whether the client may write `metric`.
    pub fn can_write(&self, metric: &str) -> (allowed: bool)
        requires
            matchable(metric@),
        ensures
            allowed == self@.allows(metric@),
    {
        let mut i: usize = 0;
        while i < self.metrics.len()
            invariant
                matchable(metric@),
                i <= self.metrics.len(),
                forall|j: int| 0 <= j < i ==> !glob_matches(#[trigger] self@.metrics[j], metric@),
            decreases self.metrics.len() - i,
        {
            if glob_match_str(self.metrics[i].as_str(), metric) {
                assert(self@.metrics[i as int] == self.metrics[i as int]@);
                return true;
            }
            assert(self@.metrics[i as int] == self.metrics[i as int]@);
            i += 1;
        }
        false
    }

    /// Whether the client may read `metric`. Reads are governed by the same
    /// allow-list as writes.
    pub fn can_read(&self, metric: &str) -> (allowed: bool)
        requires
            matchable(metric@),
        ensures
            allowed == self@.allows(metric@),
    {
        self.can_write(metric)
    }

    /// Whether the client may perform `operation` on `metric`. One allow-list
    /// governs every operation, so the answer does not depend on `operation`.
    pub fn is_allowed(&self, metric: &str, operation: Operation) -> (allowed: bool)
        requires
            matchable(metric@),
        ensures
            allowed == self@.allows(metric@),
    {
        match operation {
            Operation::Read => self.can_read(metric),
            Operation::Write => self.can_write(metric),
        }
    }
}

/// Where the metrics store is reached.
#[derive(Clone, Debug, PartialEq, Eq)]
pub struct Opentsdb {
    pub url: String,
}

/// Where the proxy listens.
#[derive(Clone, Debug, PartialEq, Eq)]
pub struct Server {
    pub port: String,
}

/// The global options of a configuration.
#[derive(Clone, Debug, PartialEq, Eq)]
pub struct ConfigOptions {
    pub opentsdb: Opentsdb,
    pub server: Server,
}

/// The configuration snapshot: the clients in registry order and the options.
#[derive(Clone, Debug, PartialEq, Eq)]
pub struct Config {
    pub clients: Vec<Client>,
    pub config: ConfigOptions,
}

/// Mathematical model of a [`Config`].
pub struct ConfigView {
    pub clients: Seq<ClientView>,
    pub url: Seq<char>,
    pub port: Seq<char>,
}

impl View for Config {
    type V = ConfigView;

    open spec fn view(&self) -> ConfigView {
        ConfigView {
            clients: registry(self.clients@),
            url: self.config.opentsdb.url@,
            port: self.config.server.port@,
        }
    }
}

/// The models of the clients of a registry, in registry order.
pub open spec fn registry(clients: Seq<Client>) -> Seq<ClientView> {
    clients.map_values(|c: Client| c@)
}

/// The port the proxy listens on when the configuration names none.
pub fn default_listen_port() -> (port: String)
    ensures
        port@ == "8080"@,
{
    String::from_str("8080")
}

/// `i` is the place of the first client of the registry whose credential
/// accepts `token`.
pub open spec fn first_accepting(clients: Seq<ClientView>, token: Seq<char>, i: int) -> bool {
    &&& 0 <= i < clients.len()
    &&& clients[i].auth.accepts(token)
    &&& forall|j: int| 0 <= j < i ==> !(#[trigger] clients[j]).auth.accepts(token)
}

/// The place of the client that `token` authenticates, if any: the first in
/// registry order whose credential accepts it.
pub open spec fn authenticated(clients: Seq<ClientView>, token: Seq<char>) -> Option<int> {
    if exists|i: int| first_accepting(clients, token, i) {
        Some(choose|i: int| first_accepting(clients, token, i))
    } else {
        None
    }
}

/// At most one place is that of the first accepting client.
pub proof fn lemma_first_accepting_unique(clients: Seq<ClientView>, token: Seq<char>, i: int, j: int)
    requires
        first_accepting(clients, token, i),
        first_accepting(clients, token, j),
    ensures
        i == j,
{
    if i < j {
        assert(!clients[i].auth.accepts(token));
    } else if j < i {
        assert(!clients[j].auth.accepts(token));
    }
}

/// A token authenticates the client at place `i` exactly when that client's
/// credential accepts the token and no earlier client's does.
pub proof fn lemma_authenticated_iff(clients: Seq<ClientView>, token: Seq<char>, i: int)
    ensures
        authenticated(clients, token) == Some(i) <==> first_accepting(clients, token, i),
{
    if first_accepting(clients, token, i) {
        let k = choose|k: int| first_accepting(clients, token, k);
        lemma_first_accepting_unique(clients, token, i, k);
    }
}

/// A token authenticates nobody exactly when no credential accepts it.
pub proof fn lemma_authenticated_none(clients: Seq<ClientView>, token: Seq<char>)
    ensures
        authenticated(clients, token) is None <==> forall|i: int|
            0 <= i < clients.len() ==> !(#[trigger] clients[i]).auth.accepts(token),
{
    if exists|i: int| 0 <= i < clients.len() && (#[trigger] clients[i]).auth.accepts(token) {
        let k = choose|i: int| 0 <= i < clients.len() && (#[trigger] clients[i]).auth.accepts(token);
        lemma_some_accepting_has_first(clients, token, k);
    }
}

/// If the client at `k` accepts the token, some client at or before `k` is
/// the first to do so.
proof fn lemma_some_accepting_has_first(clients: Seq<ClientView>, token: Seq<char>, k: int)
    requires
        0 <= k < clients.len(),
        clients[k].auth.accepts(token),
    ensures
        exists|i: int| first_accepting(clients, token, i),
    decreases k,
{
    if exists|j: int| 0 <= j < k && (#[trigger] clients[j]).auth.accepts(token) {
        let j = choose|j: int| 0 <= j < k && (#[trigger] clients[j]).auth.accepts(token);
        lemma_some_accepting_has_first(clients, token, j);
    } else {
        assert(first_accepting(clients, token, k));
    }
}

/// Finds the place of the client that `token` authenticates.
pub fn find_client(clients: &[Client], token: &str) -> (found: Option<usize>)
    ensures
        match found {
            Some(i) => i < clients@.len() && authenticated(registry(clients@), token@) == Some(
                i as int,
            ),
            None => authenticated(registry(clients@), token@) is None,
        },
{
    let mut i: usize = 0;
    while i < clients.len()
        invariant
            i <= clients.len(),
            forall|j: int| 0 <= j < i ==> !(#[trigger] registry(clients@)[j]).auth.accepts(token@),
        decreases clients.len() - i,
    {
        if clients[i].auth.is_valid_token(token) {
            proof {
                assert(registry(clients@)[i as int] == clients[i as int]@);
                assert(first_accepting(registry(clients@), token@, i as int));
                lemma_authenticated_iff(registry(clients@), token@, i as int);
            }
            return Some(i);
        }
        assert(registry(clients@)[i as int] == clients[i as int]@);
        i += 1;
    }
    proof {
        lemma_authenticated_none(registry(clients@), token@);
    }
    None
}

/// Resolves a bearer token to the first client, in registry order, whose
/// credential accepts it.
pub fn try_authenticate_client<'a>(clients: &'a [Client], token: &str) -> (found: Option<&'a Client>)
    ensures
        match authenticated(registry(clients@), token@) {
            Some(i) => found == Some(&clients@[i]),
            None => found is None,
        },
{
    match find_client(clients, token) {
        Some(i) => Some(&clients[i]),
        None => None,
    }
}

} // verus!
