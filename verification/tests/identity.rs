use pr_dedupe::identity::uuid;
use pr_dedupe::identity::uuid_to_pr_number;
use pr_dedupe::identity::uuid_to_repo_name;

#[test]
fn uuid_encode_and_decode_pr_number() {
    let repo_name = "cs50victor/pr_dedupe";
    let pr_number = "2";

    let uuid = uuid(repo_name, pr_number);

    assert_eq!(uuid_to_pr_number(&uuid), pr_number);
}

#[test]
fn uuid_encode_and_decode_repo_name() {
    let repo_name = "cs50victor/pr_dedupe";
    let pr_number = "2";

    let uuid = uuid(repo_name, pr_number);

    assert_eq!(uuid_to_repo_name(&uuid), repo_name);
}

#[test]
fn uuid_encoding_is_repo_colon_number() {
    assert_eq!(uuid("repo", "7"), "repo:7");
    assert_eq!(uuid("cs50victor/pr_dedupe", "41"), "cs50victor/pr_dedupe:41");
}

#[test]
fn uuid_roundtrip_with_colon_in_repo_name() {
    let repo_name = "host:8080/org/repo";
    let pr_number = "12";

    let uuid = uuid(repo_name, pr_number);

    assert_eq!(uuid_to_repo_name(&uuid), repo_name);
    assert_eq!(uuid_to_pr_number(&uuid), pr_number);
}

#[test]
fn decode_takes_the_last_colon() {
    assert_eq!(uuid_to_pr_number("a:b:3"), "3");
    assert_eq!(uuid_to_repo_name("a:b:3"), "a:b");
}
