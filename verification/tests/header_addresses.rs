use mail_sink::address::AddressSet;
use mail_sink::smtp::mail::{
    extract_email_address, extract_emails, get_data_from_to, parse_header_line, process_header,
    unfold_headers,
};

fn cs(s: &str) -> Vec<char> {
    s.chars().collect()
}

fn sorted(set: &AddressSet) -> Vec<String> {
    let mut v = set.as_vec().clone();
    v.sort();
    v
}

#[test]
fn display_name_and_bare_address() {
    let (from, to) = get_data_from_to("From: Alice <a@x.com>, b@y.com\r\n");
    assert_eq!(sorted(&from), vec!["a@x.com", "b@y.com"]);
    assert!(from.contains("a@x.com"));
    assert!(from.contains("b@y.com"));
    assert_eq!(from.len(), 2);
    assert!(to.is_empty());
}

#[test]
fn folded_line_joins_the_header_before_it() {
    let data = "To: one@x.com,\r\n\ttwo@x.com,\r\n  Three <three@x.com>\r\nSubject: s\r\n second\r\n\r\nbody";
    let (from, to) = get_data_from_to(data);
    assert!(from.is_empty());
    assert_eq!(sorted(&to), vec!["one@x.com", "three@x.com", "two@x.com"]);
}

#[test]
fn folded_line_is_joined_with_one_space() {
    let lines = vec![cs("X-Long: first"), cs("\t  second  "), cs(" third"), cs("Other: v")];
    let headers = unfold_headers(&lines);
    assert_eq!(headers.len(), 2);
    assert_eq!(headers[0].0, cs("X-Long"));
    assert_eq!(headers[0].1, cs("first second third"));
    assert_eq!(headers[1], (cs("Other"), cs("v")));
}

#[test]
fn continuation_before_any_header_is_passed_over() {
    let lines = vec![cs(" stray"), cs("no colon here"), cs("A: b")];
    let headers = unfold_headers(&lines);
    assert_eq!(headers, vec![(cs("A"), cs("b"))]);
    assert_eq!(unfold_headers(&Vec::new()), Vec::new());
}

#[test]
fn header_names_ignore_case() {
    let (from, to) = get_data_from_to("FROM: a@x.com\nto: b@y.com\nfRoM: c@z.com\n");
    assert_eq!(sorted(&from), vec!["a@x.com", "c@z.com"]);
    assert_eq!(sorted(&to), vec!["b@y.com"]);
}

#[test]
fn lines_without_colon_are_skipped() {
    let (from, to) = get_data_from_to("garbage\r\nFrom a@x.com\r\nTo: b@y.com\r\n\r\nmore garbage\r\n");
    assert!(from.is_empty());
    assert_eq!(sorted(&to), vec!["b@y.com"]);
}

#[test]
fn other_headers_give_nothing() {
    let (from, to) = get_data_from_to("Reply-To: a@x.com\r\nCc: b@y.com\r\nFrom-X: c@z.com\r\n");
    assert!(from.is_empty());
    assert!(to.is_empty());
    let (from, to) = get_data_from_to("");
    assert!(from.is_empty() && to.is_empty());
}

#[test]
fn repeated_addresses_are_kept_once() {
    let (from, _) = get_data_from_to("From: a@x.com, A <a@x.com>\r\nFrom: a@x.com\r\n");
    assert_eq!(from.len(), 1);
    assert_eq!(from.as_vec(), &vec!["a@x.com".to_string()]);
}

#[test]
fn header_lines_in_the_body_count_too() {
    let (from, to) = get_data_from_to("From: a@x.com\r\n\r\nTo: b@y.com\r\n");
    assert_eq!(sorted(&from), vec!["a@x.com"]);
    assert_eq!(sorted(&to), vec!["b@y.com"]);
}

#[test]
fn header_line_is_split_at_the_first_colon() {
    assert_eq!(parse_header_line(&cs("Name :  a: b  ")), Some((cs("Name"), cs("a: b"))));
    assert_eq!(parse_header_line(&cs(":")), Some((cs(""), cs(""))));
    assert_eq!(parse_header_line(&cs("no colon")), None);
    assert_eq!(parse_header_line(&cs("")), None);
}

#[test]
fn address_of_an_entry() {
    assert_eq!(extract_email_address(&cs("Alice <a@x.com>")), Some("a@x.com".to_string()));
    assert_eq!(extract_email_address(&cs("a@x.com")), Some("a@x.com".to_string()));
    assert_eq!(extract_email_address(&cs("<a@x.com> trailing <b@y.com>")), Some("a@x.com".to_string()));
    assert_eq!(extract_email_address(&cs("<>")), Some("".to_string()));
    assert_eq!(extract_email_address(&cs("")), Some("".to_string()));
    assert_eq!(extract_email_address(&cs("Alice <a@x.com")), None);
    assert_eq!(extract_email_address(&cs("a>b<c")), None);
    assert_eq!(extract_email_address(&cs("only > here")), Some("only > here".to_string()));
}

#[test]
fn addresses_of_a_value() {
    let mut set = AddressSet::new();
    set.insert("kept@x.com".to_string());
    extract_emails(&cs(" a@x.com ,Bob <b@y.com>,broken <c@z.com, kept@x.com"), &mut set);
    assert_eq!(set.as_vec(), &vec!["kept@x.com".to_string(), "a@x.com".to_string(), "b@y.com".to_string()]);
    let mut empty = AddressSet::new();
    extract_emails(&cs(""), &mut empty);
    assert_eq!(empty.as_vec(), &vec!["".to_string()]);
}

#[test]
fn process_header_fills_the_set_of_its_name() {
    let mut from = AddressSet::new();
    let mut to = AddressSet::new();
    process_header(&cs("from"), &cs("a@x.com"), &mut from, &mut to);
    process_header(&cs("TO"), &cs("b@y.com, c@z.com"), &mut from, &mut to);
    process_header(&cs("Subject"), &cs("d@w.com"), &mut from, &mut to);
    process_header(&cs(""), &cs("e@v.com"), &mut from, &mut to);
    assert_eq!(sorted(&from), vec!["a@x.com"]);
    assert_eq!(sorted(&to), vec!["b@y.com", "c@z.com"]);
}

#[test]
fn address_set_keeps_first_insertions_in_order() {
    let mut set = AddressSet::new();
    assert!(set.is_empty());
    assert!(set.insert("b".to_string()));
    assert!(set.insert("a".to_string()));
    assert!(!set.insert("b".to_string()));
    assert_eq!(set.len(), 2);
    assert!(set.contains("a") && set.contains("b") && !set.contains("c"));
    assert_eq!(set.as_vec(), &vec!["b".to_string(), "a".to_string()]);
    let mut other = AddressSet::from_vec(vec!["c".to_string(), "a".to_string(), "c".to_string()]);
    assert_eq!(other.as_vec(), &vec!["c".to_string(), "a".to_string()]);
    other.extend(&set);
    assert_eq!(other.as_vec(), &vec!["c".to_string(), "a".to_string(), "b".to_string()]);
    assert!(AddressSet::default().is_empty());
}
