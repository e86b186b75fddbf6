use move_crawler::commit_dates::{
    commit_date_line, parse_update_date_line, try_parse_update_date_line, update_dates_from_lines,
    UpdateDate, UpdateDates,
};
use move_crawler::link_header::{get_next_page_from_response_header, header_value_is_text};
use move_crawler::requests::request_headers;

#[test]
fn record_line_format() {
    assert_eq!(commit_date_line("a/b", "2024-01-02T03:04:05Z", true), "a/b,2024-01-02T03:04:05Z,true\n");
    assert_eq!(commit_date_line("a/b", "d", false), "a/b,d,false\n");
}

#[test]
fn record_line_parsing() {
    let d = parse_update_date_line("a/b,2024-01-02T03:04:05Z,true");
    assert_eq!(d, UpdateDate { repo: "a/b".to_string(), last_update: "2024-01-02T03:04:05Z".to_string(), usable: true });
    let e = parse_update_date_line("x/y,d,True,extra");
    assert!(!e.usable);
    assert_eq!(e.last_update, "d");
    assert!(try_parse_update_date_line("x/y,d").is_none());
    assert!(try_parse_update_date_line("").is_none());
    assert_eq!(try_parse_update_date_line(",,").unwrap().repo, "");
}

#[test]
fn later_records_replace_earlier_ones() {
    let lines = vec![
        "a/b,2020-01-01T00:00:00Z,false".to_string(),
        "c/d,2021-01-01T00:00:00Z,true".to_string(),
        "a/b,2022-01-01T00:00:00Z,true".to_string(),
    ];
    let dates = update_dates_from_lines(&lines);
    assert_eq!(dates.len(), 2);
    let ab = dates.get("a/b").unwrap();
    assert_eq!(ab.last_update, "2022-01-01T00:00:00Z");
    assert!(ab.usable);
    assert!(dates.get("e/f").is_none());
}

#[test]
fn insert_then_get() {
    let mut dates = UpdateDates::new();
    assert_eq!(dates.len(), 0);
    dates.insert(UpdateDate { repo: "r".to_string(), last_update: "1".to_string(), usable: false });
    dates.insert(UpdateDate { repo: "s".to_string(), last_update: "2".to_string(), usable: true });
    dates.insert(UpdateDate { repo: "r".to_string(), last_update: "3".to_string(), usable: true });
    assert_eq!(dates.len(), 2);
    assert_eq!(dates.get("r").unwrap().last_update, "3");
    assert_eq!(dates.get("s").unwrap().last_update, "2");
}

#[test]
fn next_page_link() {
    let h = b"<https://api.github.com/search/code?q=x&page=2>; rel=\"next\", <https://api.github.com/search/code?q=x&page=5>; rel=\"last\"";
    assert_eq!(
        get_next_page_from_response_header(Some(&h[..])),
        Some("https://api.github.com/search/code?q=x&page=2".to_string())
    );
    let h2 = b"<https://a/1>; rel=\"prev\", <https://a/3>; rel=\"next\"";
    assert_eq!(get_next_page_from_response_header(Some(&h2[..])), Some("https://a/3".to_string()));
    let last = b"<https://a/1>; rel=\"prev\"";
    assert_eq!(get_next_page_from_response_header(Some(&last[..])), None);
    assert_eq!(get_next_page_from_response_header(None), None);
    assert_eq!(get_next_page_from_response_header(Some(&b"x; rel=\"next\""[..])), Some(String::new()));
}

#[test]
fn header_text_check() {
    assert!(header_value_is_text(b"abc\tdef"));
    assert!(!header_value_is_text(&[0x61, 0x80]));
    assert!(!header_value_is_text(b"a\nb"));
}

#[test]
fn standard_request_headers() {
    let h = request_headers("tok", "agent/1");
    assert_eq!(
        h,
        vec![
            ("authorization".to_string(), "Bearer tok".to_string()),
            ("X-GitHub-Api-Version".to_string(), "2022-11-28".to_string()),
            ("user-agent".to_string(), "agent/1".to_string()),
        ]
    );
}

fn read_records(file: &str) -> Option<UpdateDates> {
    let lines: Vec<String> = file.lines().map(|l| l.to_string()).collect();
    move_crawler::commit_dates::try_update_dates_from_lines(&lines)
}

#[test]
fn appended_record_is_read_back() {
    let mut file = String::from("a/b,2020-01-01T00:00:00Z,false\nc/d,2021-01-01T00:00:00Z,true\n");
    file.push_str(&commit_date_line("a/b", "2024-02-03T04:05:06Z", true));
    let dates = read_records(&file).unwrap();
    let ab = dates.get("a/b").unwrap();
    assert_eq!(ab.last_update, "2024-02-03T04:05:06Z");
    assert!(ab.usable);
    assert_eq!(dates.get("c/d").unwrap().last_update, "2021-01-01T00:00:00Z");
    assert_eq!(dates.len(), 2);

    let mut empty = String::new();
    empty.push_str(&commit_date_line("x/y", "2024-01-01T00:00:00Z", false));
    let dates = read_records(&empty).unwrap();
    assert!(!dates.get("x/y").unwrap().usable);
    assert_eq!(dates.len(), 1);
}
