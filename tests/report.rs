use std::collections::HashMap;

use coveralls_api::{BranchData, CoverallsReport, Identity, Service, Source};

fn digest_of(text: &str) -> String {
    format!("{:x}", md5::compute(text))
}

fn parse(body: &str) -> serde_json::Value {
    serde_json::from_str(body).expect("the body is JSON")
}

#[test]
fn repo_token_report_with_one_entry() {
    let content = "fn main() {}\n}";
    let mut hits: HashMap<usize, usize> = HashMap::new();
    hits.insert(1, 1);
    let source = Source::new("src/main", content, &hits, &None, false);
    let mut report = CoverallsReport::new(Identity::RepoToken("tok".to_string()));
    report.add_source(source);
    let body = report.to_json();
    let expected = format!(
        "{{\"repo_token\":\"tok\",\"source_files\":[{{\"name\":\"src/main\",\"source_digest\":\"{}\",\"coverage\":[1,null]}}]}}",
        digest_of(content)
    );
    assert_eq!(body, expected);

    let v = parse(&body);
    let top = v.as_object().unwrap();
    assert_eq!(top.len(), 2);
    assert_eq!(top["repo_token"], "tok");
    let files = top["source_files"].as_array().unwrap();
    assert_eq!(files.len(), 1);
    let file = files[0].as_object().unwrap();
    assert_eq!(file.len(), 3);
    assert!(file.contains_key("name"));
    assert!(file.contains_key("source_digest"));
    assert!(file.contains_key("coverage"));
    assert!(!file.contains_key("branches"));
    assert!(!file.contains_key("source"));
}

#[test]
fn digest_is_md5_in_lowercase_hex() {
    let hits: HashMap<usize, usize> = HashMap::new();
    let mut report = CoverallsReport::new(Identity::RepoToken("t".to_string()));
    report.add_source(Source::new("abc.rs", "abc", &hits, &None, false));
    report.add_source(Source::new("empty.rs", "", &hits, &None, false));
    let v = parse(&report.to_json());
    let files = v["source_files"].as_array().unwrap();
    assert_eq!(files[0]["source_digest"], "900150983cd24fb0d6963f7d28e17f72");
    assert_eq!(files[0]["coverage"], serde_json::Value::Array(vec![serde_json::Value::Null]));
    assert_eq!(files[1]["source_digest"], "d41d8cd98f00b204e9800998ecf8427e");
    assert_eq!(files[1]["coverage"].as_array().unwrap().len(), 0);
}

#[test]
fn service_identity_emits_name_and_job_only() {
    let service = Service::new("travis-ci".to_string(), "1234".to_string());
    let report = CoverallsReport::new(Identity::ServiceToken(service));
    let body = report.to_json();
    assert_eq!(
        body,
        "{\"service_name\":\"travis-ci\",\"service_job_id\":\"1234\",\"source_files\":[]}"
    );
    let v = parse(&body);
    let top = v.as_object().unwrap();
    assert!(!top.contains_key("repo_token"));
    assert_eq!(top["service_name"], "travis-ci");
    assert_eq!(top["service_job_id"], "1234");
}

#[test]
fn repo_token_identity_has_no_service_fields() {
    let report = CoverallsReport::new(Identity::RepoToken("SECRET".to_string()));
    let v = parse(&report.to_json());
    let top = v.as_object().unwrap();
    assert!(top.contains_key("repo_token"));
    assert!(!top.contains_key("service_name"));
    assert!(!top.contains_key("service_job_id"));
}

#[test]
fn absent_and_empty_branch_lists_differ() {
    let hits: HashMap<usize, usize> = HashMap::new();
    let mut report = CoverallsReport::new(Identity::RepoToken("t".to_string()));
    report.add_source(Source::new("a.rs", "x\n", &hits, &None, false));
    report.add_source(Source::new("b.rs", "x\n", &hits, &Some(Vec::new()), false));
    let body = report.to_json();
    let v = parse(&body);
    let files = v["source_files"].as_array().unwrap();
    assert!(!files[0].as_object().unwrap().contains_key("branches"));
    assert_eq!(files[1]["branches"], serde_json::Value::Array(Vec::new()));
    assert!(body.contains("\"coverage\":[null],\"branches\":[]}"));
}

#[test]
fn branches_and_source_are_written_in_order() {
    let content = "if a {\n    b\n}\n";
    let mut hits: HashMap<usize, usize> = HashMap::new();
    hits.insert(1, 3);
    hits.insert(2, 0);
    let branches = Some(vec![
        BranchData { line_number: 1, block_name: 0, branch_number: 0, hits: 3 },
        BranchData { line_number: 1, block_name: 0, branch_number: 1, hits: 0 },
    ]);
    let mut report = CoverallsReport::new(Identity::RepoToken("t".to_string()));
    report.add_source(Source::new("lib.rs", content, &hits, &branches, true));
    let body = report.to_json();
    let expected = format!(
        "{{\"repo_token\":\"t\",\"source_files\":[{{\"name\":\"lib.rs\",\"source_digest\":\"{}\",\"coverage\":[3,0,null],\"branches\":[1,0,0,3,1,0,1,0],\"source\":\"if a {{\\n    b\\n}}\\n\"}}]}}",
        digest_of(content)
    );
    assert_eq!(body, expected);
    let v = parse(&body);
    assert_eq!(v["source_files"][0]["source"], content);
}

#[test]
fn strings_are_escaped() {
    let hits: HashMap<usize, usize> = HashMap::new();
    let mut report = CoverallsReport::new(Identity::RepoToken("to\"k".to_string()));
    report.add_source(Source::new("dir\\a\"b.rs", "", &hits, &None, false));
    let body = report.to_json();
    assert!(body.starts_with("{\"repo_token\":\"to\\\"k\","));
    assert!(body.contains("\"name\":\"dir\\\\a\\\"b.rs\""));
    let v = parse(&body);
    assert_eq!(v["repo_token"], "to\"k");
    assert_eq!(v["source_files"][0]["name"], "dir\\a\"b.rs");
}

#[test]
fn entries_keep_insertion_order() {
    let hits: HashMap<usize, usize> = HashMap::new();
    let mut report = CoverallsReport::new(Identity::RepoToken("t".to_string()));
    for name in ["z.rs", "a.rs", "m.rs"] {
        report.add_source(Source::new(name, "", &hits, &None, false));
    }
    let v = parse(&report.to_json());
    let names: Vec<&str> = v["source_files"]
        .as_array()
        .unwrap()
        .iter()
        .map(|f| f["name"].as_str().unwrap())
        .collect();
    assert_eq!(names, vec!["z.rs", "a.rs", "m.rs"]);
}

#[test]
fn large_counts_are_written_in_decimal() {
    let mut hits: HashMap<usize, usize> = HashMap::new();
    hits.insert(1, 0);
    hits.insert(2, 1_000_000_007);
    hits.insert(3, usize::MAX);
    let mut report = CoverallsReport::new(Identity::RepoToken("t".to_string()));
    report.add_source(Source::new("n.rs", "a\nb\nc", &hits, &None, false));
    let body = report.to_json();
    let expected = format!("\"coverage\":[0,1000000007,{}]", usize::MAX);
    assert!(body.contains(&expected));
}

#[test]
fn fresh_report_serializes_to_its_identity_and_no_files() {
    let report = CoverallsReport::new(Identity::RepoToken("tok".to_string()));
    assert_eq!(report.to_json(), "{\"repo_token\":\"tok\",\"source_files\":[]}");
}
