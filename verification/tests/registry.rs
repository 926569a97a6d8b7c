use tsdb_auth_proxy::config::{
    default_listen_port, find_client, try_authenticate_client, Auth, Client, DigestAlgorithm,
    Operation,
};
use tsdb_auth_proxy::digest::to_hex_lower;
use tsdb_auth_proxy::matching::is_matchable;

const ABC123: &str = "6ca13d52ca70c883e0f0bb101e425a89e8624de51db2d2392593af6a84118090";
const S3CRET: &str = "1ec1c26b50d5d3c58d9583181af8076655fe00756bf7285940ba3670f99fcba0";
const EMPTY: &str = "e3b0c44298fc1c149afbf4c8996fb92427ae41e4649b934ca495991b7852b855";

fn auth(auth_type: &str, hash: &str) -> Auth {
    Auth { auth_type: auth_type.to_string(), hash: hash.to_string() }
}

fn client(name: &str, metrics: &[&str], auth_type: &str, hash: &str) -> Client {
    Client {
        name: name.to_string(),
        metrics: metrics.iter().map(|m| m.to_string()).collect(),
        auth: auth(auth_type, hash),
    }
}

#[test]
fn token_with_the_stored_digest_is_valid() {
    assert!(auth("sha256", ABC123).is_valid_token("abc123"));
    assert!(auth("sha256", S3CRET).is_valid_token("s3cret"));
}

#[test]
fn empty_token_is_hashed_like_any_other() {
    assert!(auth("sha256", EMPTY).is_valid_token(""));
    assert!(!auth("sha256", EMPTY).is_valid_token(" "));
}

#[test]
fn token_is_not_compared_with_the_hash_itself() {
    assert!(!auth("sha256", "abc123").is_valid_token("abc123"));
    assert!(!auth("sha256", ABC123).is_valid_token(ABC123));
}

#[test]
fn token_with_another_digest_is_invalid() {
    assert!(!auth("sha256", ABC123).is_valid_token("abc124"));
    assert!(!auth("sha256", S3CRET).is_valid_token("abc123"));
}

#[test]
fn digest_is_compared_case_sensitively() {
    let upper = ABC123.to_uppercase();
    assert!(!auth("sha256", &upper).is_valid_token("abc123"));
}

#[test]
fn unknown_algorithm_never_verifies() {
    assert!(!auth("md5", ABC123).is_valid_token("abc123"));
    assert!(!auth("SHA256", ABC123).is_valid_token("abc123"));
    assert!(!auth("", ABC123).is_valid_token("abc123"));
}

#[test]
fn algorithm_tag_is_read_exactly() {
    assert_eq!(auth("sha256", "").algorithm(), DigestAlgorithm::Sha256);
    assert_eq!(auth("sha-256", "").algorithm(), DigestAlgorithm::Unsupported);
    assert_eq!(auth("sha256 ", "").algorithm(), DigestAlgorithm::Unsupported);
}

#[test]
fn authentication_returns_the_matching_client() {
    let clients = vec![
        client("alice", &["sensors.*"], "sha256", ABC123),
        client("bob", &["power.*"], "sha256", S3CRET),
    ];
    assert_eq!(try_authenticate_client(&clients, "abc123").map(|c| c.name.as_str()), Some("alice"));
    assert_eq!(try_authenticate_client(&clients, "s3cret").map(|c| c.name.as_str()), Some("bob"));
    assert_eq!(find_client(&clients, "abc123"), Some(0));
    assert_eq!(find_client(&clients, "s3cret"), Some(1));
}

#[test]
fn authentication_prefers_the_earlier_client() {
    let clients = vec![
        client("carol", &["a"], "md5", ABC123),
        client("first", &["b"], "sha256", ABC123),
        client("second", &["c"], "sha256", ABC123),
    ];
    let found = try_authenticate_client(&clients, "abc123");
    assert_eq!(found, Some(&clients[1]));
    assert_eq!(find_client(&clients, "abc123"), Some(1));
}

#[test]
fn authentication_fails_for_unknown_token() {
    let clients = vec![
        client("alice", &["sensors.*"], "sha256", ABC123),
        client("bob", &["power.*"], "sha256", S3CRET),
    ];
    assert_eq!(try_authenticate_client(&clients, "nope"), None);
    assert_eq!(find_client(&clients, "nope"), None);
}

#[test]
fn authentication_fails_on_empty_registry() {
    let clients: Vec<Client> = Vec::new();
    assert_eq!(try_authenticate_client(&clients, "abc123"), None);
    assert_eq!(find_client(&clients, "abc123"), None);
}

#[test]
fn patterns_are_anchored() {
    let c = client("alice", &["cpu.*"], "sha256", ABC123);
    assert!(c.can_write("cpu.load"));
    assert!(!c.can_write("xcpu.load"));
    assert!(!c.can_write("cpu"));
}

#[test]
fn star_matches_the_empty_string() {
    let c = client("alice", &["cpu.*", "*mem"], "sha256", ABC123);
    assert!(c.can_write("cpu."));
    assert!(c.can_write("mem"));
}

#[test]
fn lone_star_matches_metrics() {
    let c = client("alice", &["*"], "sha256", ABC123);
    assert!(c.can_write("cpu.load"));
    assert!(c.can_write("sensors.temp"));
    assert!(c.can_write(""));
}

#[test]
fn question_mark_matches_one_character() {
    let c = client("alice", &["a?c"], "sha256", ABC123);
    assert!(c.can_write("abc"));
    assert!(!c.can_write("ac"));
    assert!(!c.can_write("abbc"));
}

#[test]
fn literal_pattern_matches_itself_only() {
    let c = client("alice", &["power.draw"], "sha256", ABC123);
    assert!(c.can_write("power.draw"));
    assert!(!c.can_write("power.draw2"));
    assert!(!c.can_write("power"));
}

#[test]
fn pattern_is_not_taken_for_the_metric() {
    let c = client("alice", &["cpu.*"], "sha256", ABC123);
    assert!(!c.can_write("cpu"));
    let d = client("dave", &["cpu"], "sha256", ABC123);
    assert!(!d.can_write("cpu.*"));
}

#[test]
fn any_pattern_of_the_list_allows() {
    let c = client("alice", &["cpu.*", "mem.*", "disk.used"], "sha256", ABC123);
    assert!(c.can_write("cpu.load"));
    assert!(c.can_write("mem.free"));
    assert!(c.can_write("disk.used"));
    assert!(!c.can_write("disk.free"));
}

#[test]
fn empty_allow_list_allows_nothing() {
    let c = client("alice", &[], "sha256", ABC123);
    assert!(!c.can_write("cpu.load"));
    assert!(!c.can_read(""));
}

#[test]
fn reads_and_writes_share_one_allow_list() {
    let c = client("alice", &["sensors.*"], "sha256", ABC123);
    for metric in ["sensors.temp", "power.draw", "", "sensors."] {
        assert_eq!(c.can_read(metric), c.can_write(metric));
        assert_eq!(c.is_allowed(metric, Operation::Read), c.can_write(metric));
        assert_eq!(c.is_allowed(metric, Operation::Write), c.can_write(metric));
    }
    assert!(c.is_allowed("sensors.temp", Operation::Read));
    assert!(!c.is_allowed("power.draw", Operation::Write));
}

#[test]
fn default_port_is_8080() {
    assert_eq!(default_listen_port(), "8080");
}

#[test]
fn bytes_are_written_as_lower_case_hex() {
    assert_eq!(to_hex_lower(&[]), "");
    assert_eq!(to_hex_lower(&[0x00]), "00");
    assert_eq!(to_hex_lower(&[0x0a, 0x14, 0x1e]), "0a141e");
    assert_eq!(to_hex_lower(&[0x00, 0xff, 0x9a, 0xa9]), "00ff9aa9");
    assert_eq!(to_hex_lower(&[0x01, 0x23, 0x45, 0x67, 0x89, 0xab, 0xcd, 0xef]), "0123456789abcdef");
    assert_eq!(to_hex_lower(&[0xf0, 0x0f]), "f00f");
}

#[test]
fn digest_equal_to_the_stored_hash_is_valid() {
    assert!(auth("sha256", "00ff").is_valid_digest(&[0x00, 0xff]));
    assert!(auth("sha256", "").is_valid_digest(&[]));
}

#[test]
fn digest_that_differs_from_the_stored_hash_is_invalid() {
    assert!(!auth("sha256", "00ff").is_valid_digest(&[0x00, 0xfe]));
    assert!(!auth("sha256", "00FF").is_valid_digest(&[0x00, 0xff]));
    assert!(!auth("sha256", "00ff").is_valid_digest(&[0x00, 0xff, 0x00]));
    assert!(!auth("sha256", "00ff").is_valid_digest(&[0xff, 0x00]));
    assert!(!auth("sha256", "00ff").is_valid_digest(&[]));
}

#[test]
fn digest_under_unknown_algorithm_is_invalid() {
    assert!(!auth("sha512", "00ff").is_valid_digest(&[0x00, 0xff]));
    assert!(!auth("", "").is_valid_digest(&[]));
}

#[test]
fn ordinary_metrics_are_matchable() {
    assert!(is_matchable(""));
    assert!(is_matchable("sensors.temp"));
    assert!(is_matchable("température"));
}
