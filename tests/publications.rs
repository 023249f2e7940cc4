use wos_reports::batch::{lookup_batches, BATCH_SIZE};
use wos_reports::hierarchy::OrgRecord;
use wos_reports::lookup::{
    batch_query, has_short_digit_runs, hits_of, parse_hits, resolve_batch, AnswerError, Hit, Json,
    MAX_DIGIT_RUN,
};
use wos_reports::report::{batch_identifiers, make_row, report_rows, ReportError};
use wos_reports::roster::{build_org_lookup, Publication, ShortRow, PUBLICATION_FIELDS};
use wos_reports::single::{
    after_single_answer, start_single_lookup, LookupError, LookupStep, RetryPolicy, SingleAnswer,
    DAY_SECONDS,
};

fn org(id: &str, name: &str) -> OrgRecord {
    OrgRecord { id: id.to_string(), name: name.to_string(), parent_id: String::new() }
}

fn publication(uid: &str, dept: &str) -> Publication {
    Publication {
        last_name: "Smith".to_string(),
        first_name: "John".to_string(),
        department_id: dept.to_string(),
        uid: uid.to_string(),
        email: "j@x.edu".to_string(),
    }
}

fn hit(uid: Option<&str>, doi: Option<&str>) -> Hit {
    Hit { uid: uid.map(|s| s.to_string()), doi: doi.map(|s| s.to_string()) }
}

fn strings(items: &[&str]) -> Vec<String> {
    items.iter().map(|s| s.to_string()).collect()
}

#[test]
fn publication_row_reads_positional_fields() {
    let fields = strings(&["0", "Smith", "John", "2", "WOS:1", "5", "j@x.edu"]);
    let p = Publication::from_fields(&fields).ok().unwrap();
    assert_eq!(p.last_name, "Smith");
    assert_eq!(p.first_name, "John");
    assert_eq!(p.department_id, "2");
    assert_eq!(p.uid, "WOS:1");
    assert_eq!(p.email, "j@x.edu");
}

#[test]
fn short_publication_row_is_refused() {
    let fields = strings(&["0", "Smith", "John", "2", "WOS:1", "5"]);
    let e = Publication::from_fields(&fields).err().unwrap();
    assert_eq!(e, ShortRow { found: 6, needed: PUBLICATION_FIELDS });
}

#[test]
fn lookup_table_keeps_the_later_name() {
    let orgs = build_org_lookup(vec![org("1", "Univ"), org("2", "CS"), org("1", "University")]);
    assert_eq!(orgs.get(&"1".to_string()).unwrap(), "University");
    assert_eq!(orgs.get(&"2".to_string()).unwrap(), "CS");
    assert!(orgs.get(&"3".to_string()).is_none());
}

#[test]
fn resolved_record_becomes_a_report_row() {
    let orgs = build_org_lookup(vec![org("2", "CS")]);
    let row = make_row(&publication("WOS:1", "2"), &orgs, &"10.1/x".to_string()).ok().unwrap();
    assert_eq!(row.author, "Smith, John");
    assert_eq!(row.email, "j@x.edu");
    assert_eq!(row.department, "CS");
    assert_eq!(row.doi, "10.1/x");
}

#[test]
fn unknown_department_fails_the_row() {
    let orgs = build_org_lookup(vec![org("2", "CS")]);
    match make_row(&publication("WOS:1", "8"), &orgs, &"10.1/x".to_string()) {
        Err(ReportError::UnknownDepartment(id)) => assert_eq!(id, "8"),
        Ok(_) => panic!("an unknown department must fail"),
    }
}

#[test]
fn empty_identifiers_are_never_batched() {
    let pubs = vec![publication("A", "2"), publication("", "2"), publication("B", "2")];
    let batches = lookup_batches(&pubs);
    assert_eq!(batches, vec![vec![0usize, 2]]);
}

#[test]
fn only_empty_identifiers_give_no_batch() {
    let pubs = vec![publication("", "2"), publication("", "3")];
    assert!(lookup_batches(&pubs).is_empty());
    assert!(lookup_batches(&Vec::new()).is_empty());
}

#[test]
fn batches_hold_fifty_identifiers() {
    let mut pubs = Vec::new();
    for i in 0..120 {
        let uid = if i % 10 == 3 { String::new() } else { format!("WOS:{}", i) };
        pubs.push(publication(&uid, "2"));
    }
    let batches = lookup_batches(&pubs);
    assert_eq!(batches.len(), 3);
    assert_eq!(batches[0].len(), BATCH_SIZE);
    assert_eq!(batches[1].len(), BATCH_SIZE);
    assert_eq!(batches[2].len(), 108 - 2 * BATCH_SIZE);
    let all: Vec<usize> = batches.concat();
    let expected: Vec<usize> = (0..120).filter(|i| i % 10 != 3).collect();
    assert_eq!(all, expected);
}

#[test]
fn exactly_full_batch_is_not_followed_by_an_empty_one() {
    let pubs: Vec<Publication> = (0..50).map(|i| publication(&format!("U{}", i), "2")).collect();
    let batches = lookup_batches(&pubs);
    assert_eq!(batches.len(), 1);
    assert_eq!(batches[0].len(), 50);
}

#[test]
fn query_joins_identifiers_with_or() {
    assert_eq!(batch_query(&strings(&["WOS:1", "WOS:2", "WOS:3"])), "UT=(WOS:1 OR WOS:2 OR WOS:3)");
    assert_eq!(batch_query(&strings(&["WOS:1"])), "UT=(WOS:1)");
}

#[test]
fn batch_identifiers_follow_the_batch() {
    let pubs = vec![publication("A", "2"), publication("", "2"), publication("C", "2")];
    assert_eq!(batch_identifiers(&pubs, &vec![2, 0]), strings(&["C", "A"]));
}

#[test]
fn answer_hits_are_read_from_json() {
    let text = r#"{"metadata":{"total":2},"hits":[
        {"uid":"WOS:1","identifiers":{"doi":"10.1/x","issn":"1"}},
        {"uid":"WOS:2","identifiers":{}},
        {"identifiers":{"doi":"10.9/orphan"}}
    ]}"#;
    let hits = parse_hits(text).ok().unwrap();
    assert_eq!(hits.len(), 3);
    assert_eq!(hits[0].uid.as_deref(), Some("WOS:1"));
    assert_eq!(hits[0].doi.as_deref(), Some("10.1/x"));
    assert_eq!(hits[1].uid.as_deref(), Some("WOS:2"));
    assert_eq!(hits[1].doi, None);
    assert_eq!(hits[2].uid, None);
    assert_eq!(hits[2].doi.as_deref(), Some("10.9/orphan"));
}

#[test]
fn answer_without_hits_has_none() {
    assert!(parse_hits(r#"{"metadata":{"total":0}}"#).ok().unwrap().is_empty());
}

#[test]
fn answer_that_is_not_json_is_refused() {
    assert_eq!(parse_hits("<html>quota</html>").err(), Some(AnswerError::NotJson));
}

#[test]
fn resolution_covers_exactly_the_identifiers_with_a_doi() {
    let ids = strings(&["A", "B", "C", "D"]);
    let hits = vec![
        hit(Some("C"), Some("10.3/c")),
        hit(Some("B"), None),
        hit(Some("Z"), Some("10.9/z")),
        hit(None, Some("10.8/none")),
        hit(Some("A"), Some("10.1/a")),
    ];
    let dois = resolve_batch(&ids, &hits);
    assert_eq!(
        dois,
        vec![Some("10.1/a".to_string()), None, Some("10.3/c".to_string()), None]
    );
}

#[test]
fn later_hit_wins_for_the_same_identifier() {
    let ids = strings(&["A"]);
    let hits = vec![hit(Some("A"), Some("10.1/old")), hit(Some("A"), Some("10.1/new"))];
    assert_eq!(resolve_batch(&ids, &hits), vec![Some("10.1/new".to_string())]);
}

#[test]
fn batch_report_joins_dois_and_departments() {
    let orgs = build_org_lookup(vec![org("2", "CS"), org("3", "Physics")]);
    let mut other = publication("B", "3");
    other.last_name = "Doe".to_string();
    other.first_name = "Jane".to_string();
    let pubs = vec![publication("A", "2"), publication("", "2"), other, publication("C", "9")];
    let batch = vec![0usize, 2, 3];
    let dois = vec![Some("10.1/x".to_string()), Some("10.2/y".to_string()), None];
    let report = report_rows(&pubs, &batch, &dois, &orgs);
    assert!(report.failure.is_none());
    let rows = report.rows;
    assert_eq!(rows.len(), 2);
    assert_eq!(
        (rows[0].author.as_str(), rows[0].email.as_str(), rows[0].department.as_str(), rows[0].doi.as_str()),
        ("Smith, John", "j@x.edu", "CS", "10.1/x")
    );
    assert_eq!(
        (rows[1].author.as_str(), rows[1].department.as_str(), rows[1].doi.as_str()),
        ("Doe, Jane", "Physics", "10.2/y")
    );
}

#[test]
fn batch_report_fails_on_unknown_department_with_doi() {
    let orgs = build_org_lookup(vec![org("2", "CS")]);
    let pubs = vec![publication("A", "2"), publication("C", "9"), publication("D", "2")];
    let batch = vec![0usize, 1, 2];
    let dois = vec![
        Some("10.1/x".to_string()),
        Some("10.3/z".to_string()),
        Some("10.4/w".to_string()),
    ];
    let report = report_rows(&pubs, &batch, &dois, &orgs);
    match report.failure {
        Some(ReportError::UnknownDepartment(id)) => assert_eq!(id, "9"),
        None => panic!("an unknown department must fail"),
    }
    assert_eq!(report.rows.len(), 1);
    assert_eq!(report.rows[0].doi, "10.1/x");
}

#[test]
fn unknown_department_without_doi_does_not_fail() {
    let orgs = build_org_lookup(vec![org("2", "CS")]);
    let pubs = vec![publication("C", "9"), publication("A", "2")];
    let dois = vec![None, Some("10.1/x".to_string())];
    let report = report_rows(&pubs, &vec![0usize, 1], &dois, &orgs);
    assert!(report.failure.is_none());
    assert_eq!(report.rows.len(), 1);
    assert_eq!(report.rows[0].department, "CS");
}

#[test]
fn full_batch_pipeline_skips_empty_identifier_record() {
    let orgs = build_org_lookup(vec![org("2", "CS")]);
    let pubs = vec![publication("", "2"), publication("WOS:1", "2")];
    let batches = lookup_batches(&pubs);
    assert_eq!(batches.len(), 1);
    let ids = batch_identifiers(&pubs, &batches[0]);
    assert_eq!(batch_query(&ids), "UT=(WOS:1)");
    let hits = parse_hits(r#"{"hits":[{"uid":"WOS:1","identifiers":{"doi":"10.1/x"}}]}"#).ok().unwrap();
    let dois = resolve_batch(&ids, &hits);
    let report = report_rows(&pubs, &batches[0], &dois, &orgs);
    assert!(report.failure.is_none());
    let rows = report.rows;
    assert_eq!(rows.len(), 1);
    assert_eq!(rows[0].author, "Smith, John");
    assert_eq!(rows[0].doi, "10.1/x");
}

#[test]
fn single_lookup_with_empty_identifier_is_skipped_without_a_call() {
    assert!(matches!(
        start_single_lookup(&String::new()),
        LookupStep::Skip(LookupError::EmptyIdentifier)
    ));
    assert!(matches!(start_single_lookup(&"WOS:1".to_string()), LookupStep::Call));
}

#[test]
fn single_lookup_answers_lead_to_their_steps() {
    let policy = RetryPolicy::daily();
    assert_eq!(policy.cooldown_secs, DAY_SECONDS);
    assert!(matches!(
        after_single_answer(SingleAnswer::QuotaExceeded, &policy),
        LookupStep::Cooldown(86400)
    ));
    match after_single_answer(SingleAnswer::Found("10.1/x".to_string()), &policy) {
        LookupStep::Done(d) => assert_eq!(d, "10.1/x"),
        _ => panic!("a DOI ends the lookup"),
    }
    assert!(matches!(
        after_single_answer(SingleAnswer::NoDoi, &policy),
        LookupStep::Skip(LookupError::MissingDoi)
    ));
    assert!(matches!(
        after_single_answer(SingleAnswer::Failed, &RetryPolicy { cooldown_secs: 5 }),
        LookupStep::Skip(LookupError::Transport)
    ));
    assert!(matches!(
        after_single_answer(SingleAnswer::QuotaExceeded, &RetryPolicy { cooldown_secs: 5 }),
        LookupStep::Cooldown(5)
    ));
}

#[test]
fn hits_object_instead_of_array_gives_no_hits() {
    let hits = parse_hits(r#"{"hits":{"a":{"uid":"WOS:1","identifiers":{"doi":"10.1/x"}}}}"#).ok().unwrap();
    assert!(hits.is_empty());
}

#[test]
fn non_string_fields_are_not_identifiers() {
    let hits = parse_hits(r#"{"hits":[{"uid":7,"identifiers":{"doi":null}}, 3]}"#).ok().unwrap();
    assert_eq!(hits.len(), 2);
    assert_eq!(hits[0].uid, None);
    assert_eq!(hits[0].doi, None);
    assert_eq!(hits[1].uid, None);
}

#[test]
fn overlong_digit_run_is_refused_unread() {
    let long = format!("{{\"hits\":[],\"n\":0.{}}}", "0".repeat(MAX_DIGIT_RUN + 1));
    assert_eq!(parse_hits(&long).err(), Some(AnswerError::DigitRunTooLong));
    let fits = format!("{{\"hits\":[],\"n\":0.{}}}", "0".repeat(MAX_DIGIT_RUN));
    assert!(parse_hits(&fits).ok().unwrap().is_empty());
}

#[test]
fn digit_runs_are_measured() {
    assert!(has_short_digit_runs(b""));
    assert!(has_short_digit_runs(b"12a34"));
    let mut bytes = vec![b'1'; MAX_DIGIT_RUN];
    assert!(has_short_digit_runs(&bytes));
    bytes.push(b'9');
    assert!(!has_short_digit_runs(&bytes));
    bytes.insert(100, b' ');
    assert!(has_short_digit_runs(&bytes));
}

#[test]
fn hits_are_read_from_a_plain_document() {
    let hit_value = Json::Object(vec![
        ("uid".to_string(), Json::Str("WOS:5".to_string())),
        (
            "identifiers".to_string(),
            Json::Object(vec![("doi".to_string(), Json::Str("10.5/e".to_string()))]),
        ),
    ]);
    let doc = Json::Object(vec![
        ("metadata".to_string(), Json::Null),
        ("hits".to_string(), Json::Array(vec![hit_value, Json::Number(true, 1, 0)])),
    ]);
    let hits = hits_of(&doc);
    assert_eq!(hits.len(), 2);
    assert_eq!(hits[0].uid.as_deref(), Some("WOS:5"));
    assert_eq!(hits[0].doi.as_deref(), Some("10.5/e"));
    assert_eq!(hits[1].uid, None);
    assert_eq!(hits[1].doi, None);
    assert!(hits_of(&Json::Array(Vec::new())).is_empty());
}

#[test]
fn removing_an_empty_identifier_record_sends_the_same_identifiers() {
    let with = vec![publication("A", "2"), publication("", "2"), publication("B", "3")];
    let without = vec![publication("A", "2"), publication("B", "3")];
    let ids = |pubs: &Vec<Publication>| -> Vec<String> {
        lookup_batches(pubs).iter().flat_map(|b| batch_identifiers(pubs, b)).collect()
    };
    assert_eq!(ids(&with), ids(&without));
    assert_eq!(ids(&with), strings(&["A", "B"]));
}
