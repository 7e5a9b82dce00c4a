use mail_sink::address::AddressSet;
use mail_sink::handlers::{
    clearing_response, delete_mail_handler, delete_mails_handler, get_mail_from_to_handler,
    get_mail_handler, get_mails_handler, info_handler, is_addressed, listing_response,
    mail_response, panel_handler, parse_mail_id, parse_paging, pick_filtered_page, pick_page,
    preview_mail_handler, preview_response, removal_response, serve, Assets,
};
use mail_sink::http::{parse_request, Handler, Method, Request, Verdict};
use mail_sink::response::{ContentType, Response, Status};
use mail_sink::smtp::mail::Mail;
use mail_sink::snowflake::EPOCH;
use mail_sink::store::{Store, StoreError, StoredMail};

fn temp_store() -> Store {
    Store::new(sled::Config::new().temporary(true).open().unwrap())
}

fn set(addresses: &[&str]) -> AddressSet {
    AddressSet::from_vec(addresses.iter().map(|a| a.to_string()).collect())
}

fn mail(id: u128, from: &[&str], to: &[&str], data: &str) -> Mail {
    Mail { from: set(from), to: set(to), data: data.to_string(), id }
}

fn request(handler: Handler, params: &[(&str, &str)], query: &[(&str, &str)]) -> Request {
    let own = |list: &[(&str, &str)]| -> Vec<(String, String)> {
        list.iter().map(|(a, b)| (a.to_string(), b.to_string())).collect()
    };
    Request { method: Method::GET, path: String::new(), query: own(query), params: own(params), handler }
}

fn json(response: &Response) -> serde_json::Value {
    assert_eq!(response.status, Status::Success);
    assert_eq!(response.content_type, Some(ContentType::Json));
    serde_json::from_slice(&response.body).unwrap()
}

fn ids(response: &Response) -> Vec<u64> {
    json(response).as_array().unwrap().iter().map(|m| m["id"].as_u64().unwrap()).collect()
}

fn fifteen() -> (Store, Vec<u128>) {
    let mut store = temp_store();
    let mut made = Vec::new();
    for n in 1..=15u128 {
        let id = (n * 37) << 12;
        let text = format!("Subject: number {}\r\n\r\nThe body of message {}.\r\n", n, n);
        store.insert(&mail(id, &["sender@x.com"], &["reader@y.com"], &text)).unwrap();
        made.push(id);
    }
    (store, made)
}

const TEXT: &str = "From: a@x.com\r\nSubject: greetings \"quoted\"\r\n\r\nHello,\r\nworld \\ é\r\n";

#[test]
fn stored_record_is_served_as_it_was_stored() {
    let mut store = temp_store();
    let sent = mail((5 << 12) | 1, &["a@x.com", "b@x.com"], &["c@y.com"], TEXT);
    store.insert(&sent).unwrap();
    let id_text = sent.id.to_string();
    let response = get_mail_handler(&request(Handler::GetMail, &[("mail_id", &id_text)], &[]), &store);
    let value = json(&response);
    assert_eq!(value["data"], TEXT);
    assert_eq!(value["body"].as_str().unwrap(), sent.parse_body());
    assert_eq!(value["body"], "Hello,\r\nworld \\ Ã©\r\n");
    assert_eq!(value["id"].as_u64().unwrap() as u128, sent.id);
    assert_eq!(value["timestamp"].as_u64().unwrap() as u128, EPOCH + 5);
    let from: Vec<&str> = value["from"].as_array().unwrap().iter().map(|a| a.as_str().unwrap()).collect();
    let to: Vec<&str> = value["to"].as_array().unwrap().iter().map(|a| a.as_str().unwrap()).collect();
    assert_eq!(from, vec!["a@x.com", "b@x.com"]);
    assert_eq!(to, vec!["c@y.com"]);
    assert_eq!(value.as_object().unwrap().len(), 6);
}

#[test]
fn record_json_is_written_member_by_member() {
    let mut store = temp_store();
    store.insert(&mail(4096, &["a@x.com"], &["b@y.com", "c@y.com"], "S: \"q\"\r\n\r\nhi\t\u{1}")).unwrap();
    let response = get_mail_handler(&request(Handler::GetMail, &[("mail_id", "4096")], &[]), &store);
    let expected = "{\"body\":\"hi\\t\\u0001\",\"data\":\"S: \\\"q\\\"\\r\\n\\r\\nhi\\t\\u0001\",\"from\":[\"a@x.com\"],\"id\":4096,\"timestamp\":1704067200001,\"to\":[\"b@y.com\",\"c@y.com\"]}";
    assert_eq!(String::from_utf8(response.body.clone()).unwrap(), expected);
    assert_eq!(
        response.head(),
        format!("HTTP/1.1 200 OK\r\nContent-Type: application/json\r\nContent-Length: {}\r\n\r\n", expected.len())
    );
    let mut bytes = response.head().into_bytes();
    bytes.extend_from_slice(expected.as_bytes());
    assert_eq!(response.to_bytes(), bytes);
}

#[test]
fn missing_record_is_not_found() {
    let store = temp_store();
    let response = get_mail_handler(&request(Handler::GetMail, &[("mail_id", "12")], &[]), &store);
    assert_eq!(response, Response::empty(Status::NotFound));
    assert_eq!(response.to_bytes(), b"HTTP/1.1 404 Not Found\r\n\r\n".to_vec());
}

#[test]
fn identifier_that_is_no_number_is_a_bad_request() {
    let mut store = temp_store();
    for text in ["abc", "", "-1", "1.5", "340282366920938463463374607431768211456", " 1"] {
        let asked = request(Handler::GetMail, &[("mail_id", text)], &[]);
        assert_eq!(parse_mail_id(&asked), None);
        assert_eq!(get_mail_handler(&asked, &store), Response::empty(Status::BadRequest));
        assert_eq!(delete_mail_handler(&asked, &mut store), Response::empty(Status::BadRequest));
        assert_eq!(preview_mail_handler(&asked, &store, b"<html>"), Response::empty(Status::BadRequest));
    }
    let nameless = request(Handler::GetMail, &[], &[]);
    assert_eq!(get_mail_handler(&nameless, &store), Response::empty(Status::BadRequest));
    assert_eq!(parse_mail_id(&request(Handler::GetMail, &[("mail_id", "+42")], &[])), Some(42));
    assert_eq!(
        Response::empty(Status::BadRequest).to_bytes(),
        b"HTTP/1.1 400 Bad Request\r\n\r\n".to_vec()
    );
}

#[test]
fn response_to_what_the_store_found() {
    assert_eq!(mail_response(&Ok(None)), Response::empty(Status::NotFound));
    assert_eq!(mail_response(&Err(StoreError::Decode)), Response::empty(Status::InternalServerError));
    assert_eq!(
        mail_response(&Err(StoreError::Storage(sled::Error::Unsupported("test".to_string())))),
        Response::empty(Status::InternalServerError)
    );
    let found = mail_response(&Ok(Some(mail(1, &[], &[], "x"))));
    assert_eq!(json(&found)["id"], 1);
    assert_eq!(
        Response::empty(Status::InternalServerError).to_bytes(),
        b"HTTP/1.1 500 Internal Server Error\r\n\r\n".to_vec()
    );
}

#[test]
fn value_that_is_no_record_is_a_server_error() {
    let db = sled::Config::new().temporary(true).open().unwrap();
    db.insert(3u128.to_le_bytes(), vec![9u8; 4]).unwrap();
    let store = Store::new(db);
    let asked = request(Handler::GetMail, &[("mail_id", "3")], &[]);
    assert_eq!(get_mail_handler(&asked, &store), Response::empty(Status::InternalServerError));
    assert_eq!(
        get_mails_handler(&request(Handler::GetMails, &[], &[]), &store),
        Response::empty(Status::InternalServerError)
    );
    assert_eq!(
        get_mail_from_to_handler(&request(Handler::GetMailsTo, &[("email", "a")], &[]), &store, true),
        Response::empty(Status::InternalServerError)
    );
}

#[test]
fn second_page_of_five_holds_the_sixth_to_tenth_most_recent() {
    let (store, made) = fifteen();
    let asked = request(Handler::GetMails, &[], &[("k", "s"), ("limit", "5"), ("offset", "5")]);
    let listed = ids(&get_mails_handler(&asked, &store));
    let expected: Vec<u64> = made.iter().rev().skip(5).take(5).map(|id| *id as u64).collect();
    assert_eq!(listed, expected);
    assert_eq!(listed, vec![(10 * 37) << 12, (9 * 37) << 12, (8 * 37) << 12, (7 * 37) << 12, (6 * 37) << 12]);
}

#[test]
fn page_defaults_to_the_ten_most_recent() {
    let (store, made) = fifteen();
    let listed = ids(&get_mails_handler(&request(Handler::GetMails, &[], &[]), &store));
    let expected: Vec<u64> = made.iter().rev().take(10).map(|id| *id as u64).collect();
    assert_eq!(listed, expected);
    let value = json(&get_mails_handler(&request(Handler::GetMails, &[], &[("limit", "1")]), &store));
    assert_eq!(value[0]["body"], "The body of message 15.\r\n");
    assert_eq!(value[0]["data"], "Subject: number 15\r\n\r\nThe body of message 15.\r\n");
    assert_eq!(value[0]["timestamp"].as_u64().unwrap() as u128, EPOCH + 15 * 37);
}

#[test]
fn pages_at_the_edges() {
    let (store, made) = fifteen();
    let page = |limit: &str, offset: &str| {
        ids(&get_mails_handler(&request(Handler::GetMails, &[], &[("limit", limit), ("offset", offset)]), &store))
    };
    let recent: Vec<u64> = made.iter().rev().map(|id| *id as u64).collect();
    assert_eq!(page("100", "0"), recent);
    assert_eq!(page("5", "12"), recent[12..].to_vec());
    assert_eq!(page("5", "15"), Vec::<u64>::new());
    assert_eq!(page("5", "1000"), Vec::<u64>::new());
    assert_eq!(page("0", "0"), Vec::<u64>::new());
    assert_eq!(page("0", "14"), Vec::<u64>::new());
    assert_eq!(page("2", "14"), recent[14..].to_vec());
    assert_eq!(page("1", "3"), recent[3..4].to_vec());
    assert_eq!(page("18446744073709551615", "14"), recent[14..].to_vec());
    let empty = temp_store();
    let response = get_mails_handler(&request(Handler::GetMails, &[], &[]), &empty);
    assert_eq!(response.body, b"[]".to_vec());
    assert_eq!(
        response.to_bytes(),
        b"HTTP/1.1 200 OK\r\nContent-Type: application/json\r\nContent-Length: 2\r\n\r\n[]".to_vec()
    );
}

#[test]
fn limit_or_offset_that_is_no_count_is_a_bad_request() {
    let (store, _) = fifteen();
    for query in [[("limit", "x")], [("offset", "-1")], [("limit", "")], [("offset", "1e3")]] {
        let asked = request(Handler::GetMails, &[("email", "reader@y.com")], &query);
        assert_eq!(parse_paging(&asked), None);
        assert_eq!(get_mails_handler(&asked, &store), Response::empty(Status::BadRequest));
        assert_eq!(get_mail_from_to_handler(&asked, &store, true), Response::empty(Status::BadRequest));
    }
    assert_eq!(parse_paging(&request(Handler::GetMails, &[], &[])), Some((10, 0)));
    assert_eq!(parse_paging(&request(Handler::GetMails, &[], &[("limit", "3"), ("offset", "4")])), Some((3, 4)));
}

fn addressed_store() -> Store {
    let mut store = temp_store();
    let text = "Subject: s\r\n\r\nbody\r\n";
    store.insert(&mail(1 << 12, &["Alice@X.com"], &["bob@y.com"], text)).unwrap();
    store.insert(&mail(2 << 12, &["carol@x.com"], &["BOB@Y.COM", "dave@y.com"], text)).unwrap();
    store.insert(&mail(3 << 12, &["alice@x.com"], &["dave@y.com"], text)).unwrap();
    store.insert(&mail(4 << 12, &["bob@y.com"], &["Émile@y.com"], text)).unwrap();
    store.insert(&mail(5 << 12, &["erin@x.com"], &["bob@y.com"], text)).unwrap();
    store
}

#[test]
fn records_are_filtered_by_recipient_in_any_case() {
    let store = addressed_store();
    let to = |email: &str, query: &[(&str, &str)]| {
        ids(&get_mail_from_to_handler(&request(Handler::GetMailsTo, &[("email", email)], query), &store, true))
    };
    assert_eq!(to("bob@y.com", &[]), vec![5 << 12, 2 << 12, 1 << 12]);
    assert_eq!(to("Bob@Y.com", &[]), vec![5 << 12, 2 << 12, 1 << 12]);
    assert_eq!(to("dave@y.com", &[]), vec![3 << 12, 2 << 12]);
    assert_eq!(to("émile@y.com", &[]), vec![4 << 12]);
    assert_eq!(to("ÉMILE@Y.COM", &[]), vec![4 << 12]);
    assert_eq!(to("bob", &[]), Vec::<u64>::new());
    assert_eq!(to("alice@x.com", &[]), Vec::<u64>::new());
    assert_eq!(to("bob@y.com", &[("limit", "2")]), vec![5 << 12, 2 << 12]);
    assert_eq!(to("bob@y.com", &[("limit", "0")]), Vec::<u64>::new());
    assert_eq!(to("bob@y.com", &[("limit", "1")]), vec![5 << 12]);
    assert_eq!(to("bob@y.com", &[("offset", "1")]), vec![2 << 12, 1 << 12]);
    assert_eq!(to("bob@y.com", &[("offset", "2"), ("limit", "1")]), vec![2 << 12]);
    assert_eq!(to("bob@y.com", &[("offset", "4")]), vec![1 << 12]);
    assert_eq!(to("bob@y.com", &[("offset", "5")]), Vec::<u64>::new());
}

#[test]
fn records_are_filtered_by_sender() {
    let store = addressed_store();
    let from = |email: &str| {
        ids(&get_mail_from_to_handler(&request(Handler::GetMailsFrom, &[("email", email)], &[]), &store, false))
    };
    assert_eq!(from("alice@x.com"), vec![3 << 12, 1 << 12]);
    assert_eq!(from("bob@y.com"), vec![4 << 12]);
    assert_eq!(from("dave@y.com"), Vec::<u64>::new());
    let nameless = request(Handler::GetMailsFrom, &[], &[]);
    assert_eq!(get_mail_from_to_handler(&nameless, &store, false), Response::empty(Status::BadRequest));
}

#[test]
fn address_is_compared_in_lowercase() {
    let m = mail(1, &["Alice@X.com", "ÄB@x.com"], &["bob@y.com"], "");
    assert!(is_addressed(&m, false, &"alice@x.com".to_string()));
    assert!(is_addressed(&m, false, &"äb@x.com".to_string()));
    assert!(!is_addressed(&m, false, &"Alice@X.com".to_string()));
    assert!(!is_addressed(&m, true, &"alice@x.com".to_string()));
    assert!(is_addressed(&m, true, &"bob@y.com".to_string()));
    assert!(!is_addressed(&mail(1, &[], &[], ""), true, &"".to_string()));
}

#[test]
fn picks_are_positions_in_the_list() {
    let list: Vec<StoredMail> = (0..6u128)
        .map(|n| StoredMail {
            key: vec![n as u8],
            mail: mail(60 - n, &[], if n % 2 == 0 { &["even@x.com"] } else { &["odd@x.com"] }, ""),
        })
        .collect();
    assert_eq!(pick_page(&list, 2, 1), vec![1, 2]);
    assert_eq!(pick_page(&list, 0, 5), Vec::<usize>::new());
    assert_eq!(pick_page(&list, 0, 0), Vec::<usize>::new());
    assert_eq!(pick_page(&list, 1, 5), vec![5]);
    assert_eq!(pick_page(&list, 10, 4), vec![4, 5]);
    assert_eq!(pick_page(&list, 10, 6), Vec::<usize>::new());
    assert_eq!(pick_page(&list, usize::MAX, usize::MAX), Vec::<usize>::new());
    assert_eq!(pick_page(&list, usize::MAX, 0), vec![0, 1, 2, 3, 4, 5]);
    assert_eq!(pick_page(&Vec::new(), 3, 0), Vec::<usize>::new());
    let even = "even@x.com".to_string();
    assert_eq!(pick_filtered_page(&list, 10, 0, true, &even), vec![0, 2, 4]);
    assert_eq!(pick_filtered_page(&list, 2, 0, true, &even), vec![0, 2]);
    assert_eq!(pick_filtered_page(&list, 2, 1, true, &even), vec![2, 4]);
    assert_eq!(pick_filtered_page(&list, 0, 3, true, &even), Vec::<usize>::new());
    assert_eq!(pick_filtered_page(&list, 1, 3, true, &even), vec![4]);
    assert_eq!(pick_filtered_page(&list, 5, 9, true, &even), Vec::<usize>::new());
    assert_eq!(pick_filtered_page(&list, 5, 0, false, &even), Vec::<usize>::new());
    let listed = listing_response(&list, &vec![3, 0]);
    assert_eq!(ids(&listed), vec![57, 60]);
}

#[test]
fn delete_removes_one_record() {
    let (mut store, made) = fifteen();
    let id_text = made[3].to_string();
    let asked = request(Handler::DeleteMail, &[("mail_id", &id_text)], &[]);
    assert_eq!(delete_mail_handler(&asked, &mut store), Response::empty(Status::Success));
    assert_eq!(store.len().unwrap(), 14);
    assert!(store.get(made[3]).unwrap().is_none());
    assert_eq!(delete_mail_handler(&asked, &mut store), Response::empty(Status::NotFound));
    assert_eq!(store.len().unwrap(), 14);
    assert_eq!(Response::empty(Status::Success).to_bytes(), b"HTTP/1.1 200 OK\r\n\r\n".to_vec());
}

#[test]
fn delete_all_empties_the_store() {
    let (mut store, _) = fifteen();
    assert_eq!(delete_mails_handler(&mut store), Response::empty(Status::Success));
    assert_eq!(store.len().unwrap(), 0);
    assert_eq!(delete_mails_handler(&mut store), Response::empty(Status::Success));
}

#[test]
fn pages_are_served_as_they_are_given() {
    let (store, made) = fifteen();
    let page = b"<!doctype html><title>preview</title>";
    let id_text = made[0].to_string();
    let held = preview_mail_handler(&request(Handler::PreviewMail, &[("mail_id", &id_text)], &[]), &store, page);
    assert_eq!(held.status, Status::Success);
    assert_eq!(held.content_type, Some(ContentType::Html));
    assert_eq!(held.body, page.to_vec());
    assert_eq!(held.head(), "HTTP/1.1 200 OK\r\nContent-Type: text/html\r\nContent-Length: 37\r\n\r\n");
    let missing = preview_mail_handler(&request(Handler::PreviewMail, &[("mail_id", "1")], &[]), &store, page);
    assert_eq!(missing, Response::empty(Status::NotFound));
    let panel = panel_handler(&[0xff, 0x00, 0x41]);
    assert_eq!(panel.to_bytes(), b"HTTP/1.1 200 OK\r\nContent-Type: text/html\r\nContent-Length: 3\r\n\r\n\xff\x00A".to_vec());
    assert_eq!(panel, Response::html(&[0xff, 0x00, 0x41]));
}

#[test]
fn figures_are_served_as_json() {
    let response = info_handler("{\"mail_count\":3,\"note\":\"é\"}");
    assert_eq!(json(&response)["mail_count"], 3);
    assert_eq!(
        response.to_bytes(),
        "HTTP/1.1 200 OK\r\nContent-Type: application/json\r\nContent-Length: 28\r\n\r\n{\"mail_count\":3,\"note\":\"é\"}"
            .as_bytes()
            .to_vec()
    );
    assert_eq!(response, Response::json("{\"mail_count\":3,\"note\":\"é\"}"));
}

#[test]
fn request_line_is_served_by_its_handler() {
    let (mut store, made) = fifteen();
    let assets = Assets { preview_page: b"<p>preview</p>", panel_page: b"<p>panel</p>", figures: "{\"mail_count\":15}" };
    let mut ask = |line: &str| match parse_request(line, "secret") {
        Verdict::Serve(request) => serve(&request, &mut store, &assets),
        other => panic!("not served: {:?}", other),
    };
    assert_eq!(ids(&ask("GET /mails?k=secret&limit=2 HTTP/1.1\r\n")), vec![made[14] as u64, made[13] as u64]);
    assert_eq!(json(&ask(&format!("GET /mails/{}?k=secret HTTP/1.1\r\n", made[0])))["id"].as_u64().unwrap() as u128, made[0]);
    assert_eq!(ids(&ask("GET /mails/to/READER@y.com?k=secret&limit=1 HTTP/1.1\r\n")), vec![made[14] as u64]);
    assert_eq!(ids(&ask("GET /mails/from/reader@y.com?k=secret HTTP/1.1\r\n")), Vec::<u64>::new());
    assert_eq!(ask("GET /panel?k=secret HTTP/1.1\r\n"), Response::html(b"<p>panel</p>"));
    assert_eq!(ask(&format!("GET /preview/{}?k=secret HTTP/1.1\r\n", made[1])), Response::html(b"<p>preview</p>"));
    assert_eq!(ask("GET /preview/1?k=secret HTTP/1.1\r\n"), Response::empty(Status::NotFound));
    assert_eq!(ask("GET /info?k=secret HTTP/1.1\r\n"), Response::json("{\"mail_count\":15}"));
    assert_eq!(ask(&format!("DELETE /mails/{}?k=secret HTTP/1.1\r\n", made[0])), Response::empty(Status::Success));
    assert_eq!(ask(&format!("GET /mails/{}?k=secret HTTP/1.1\r\n", made[0])), Response::empty(Status::NotFound));
    assert_eq!(ask("GET /mails/x?k=secret HTTP/1.1\r\n"), Response::empty(Status::BadRequest));
    assert_eq!(ask("DELETE /mails?k=secret HTTP/1.1\r\n"), Response::empty(Status::Success));
    assert_eq!(ask("GET /mails?k=secret HTTP/1.1\r\n").body, b"[]".to_vec());
}

fn storage_failure() -> StoreError {
    StoreError::Storage(sled::Error::Unsupported("test".to_string()))
}

#[test]
fn response_to_what_the_store_reported_of_a_removal() {
    assert_eq!(removal_response(&Ok(true)), Response::empty(Status::Success));
    assert_eq!(removal_response(&Ok(false)), Response::empty(Status::NotFound));
    assert_eq!(removal_response(&Err(storage_failure())), Response::empty(Status::InternalServerError));
    assert_eq!(removal_response(&Err(StoreError::Decode)), Response::empty(Status::InternalServerError));
}

#[test]
fn response_to_what_the_store_reported_of_holding_a_record() {
    assert_eq!(preview_response(&Ok(true), b"<p>page</p>"), Response::html(b"<p>page</p>"));
    assert_eq!(preview_response(&Ok(false), b"<p>page</p>"), Response::empty(Status::NotFound));
    assert_eq!(
        preview_response(&Err(storage_failure()), b"<p>page</p>"),
        Response::empty(Status::InternalServerError)
    );
}

#[test]
fn response_to_what_the_store_reported_of_clearing() {
    assert_eq!(clearing_response(&Ok(())), Response::empty(Status::Success));
    assert_eq!(clearing_response(&Err(storage_failure())), Response::empty(Status::InternalServerError));
}

#[test]
fn limit_of_zero_gives_an_empty_page() {
    let (store, _) = fifteen();
    let response = get_mails_handler(&request(Handler::GetMails, &[], &[("limit", "0")]), &store);
    assert_eq!(
        response.to_bytes(),
        b"HTTP/1.1 200 OK\r\nContent-Type: application/json\r\nContent-Length: 2\r\n\r\n[]".to_vec()
    );
}
