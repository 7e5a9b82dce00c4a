use mail_sink::address::AddressSet;
use mail_sink::json::{
    render_decimal, render_mail, render_mails, render_strings, write_mail_object,
};
use mail_sink::smtp::mail::Mail;
use mail_sink::store::StoredMail;

fn mail(id: u128, from: &[&str], to: &[&str], data: &str) -> Mail {
    Mail {
        from: AddressSet::from_vec(from.iter().map(|a| a.to_string()).collect()),
        to: AddressSet::from_vec(to.iter().map(|a| a.to_string()).collect()),
        data: data.to_string(),
        id,
    }
}

#[test]
fn numbers_are_written_in_decimal() {
    assert_eq!(render_decimal(0), "0");
    assert_eq!(render_decimal(7), "7");
    assert_eq!(render_decimal(10), "10");
    assert_eq!(render_decimal(1_704_067_200_000), "1704067200000");
    assert_eq!(render_decimal(u128::MAX), "340282366920938463463374607431768211455");
    for n in [9u128, 99, 100, 101, 4095, 4096, 1 << 64, (1 << 64) - 1] {
        assert_eq!(render_decimal(n), n.to_string());
    }
}

#[test]
fn strings_are_written_as_a_json_array() {
    assert_eq!(render_strings(&Vec::new()), "[]");
    assert_eq!(render_strings(&vec!["a".to_string()]), "[\"a\"]");
    assert_eq!(
        render_strings(&vec!["a\"b".to_string(), "".to_string(), "c\\d\n".to_string()]),
        "[\"a\\\"b\",\"\",\"c\\\\d\\n\"]"
    );
    let texts = vec!["é".to_string(), "\u{7f}\u{0}".to_string(), "<a@x.com>".to_string()];
    assert_eq!(render_strings(&texts), serde_json::to_string(&texts).unwrap());
}

#[test]
fn record_is_written_with_its_members_in_the_order_of_their_names() {
    let m = mail(8192, &["a@x.com", "b@x.com"], &[], "Subject: s\r\n\r\nbody text");
    assert_eq!(
        render_mail(&m),
        "{\"body\":\"body text\",\"data\":\"Subject: s\\r\\n\\r\\nbody text\",\"from\":[\"a@x.com\",\"b@x.com\"],\"id\":8192,\"timestamp\":1704067200002,\"to\":[]}"
    );
    let big = mail(u128::MAX, &[], &[], "");
    assert_eq!(
        render_mail(&big),
        format!(
            "{{\"body\":\"\",\"data\":\"\",\"from\":[],\"id\":340282366920938463463374607431768211455,\"timestamp\":{},\"to\":[]}}",
            (u128::MAX >> 12) + 1_704_067_200_000
        )
    );
}

#[test]
fn records_are_written_as_a_json_array() {
    let list: Vec<StoredMail> = [1u128, 2, 3]
        .iter()
        .map(|id| StoredMail { key: Vec::new(), mail: mail(*id, &[], &[], "x") })
        .collect();
    let one = |id: u128| render_mail(&mail(id, &[], &[], "x"));
    assert_eq!(render_mails(&list, &Vec::new()), "[]");
    assert_eq!(render_mails(&list, &vec![1]), format!("[{}]", one(2)));
    assert_eq!(render_mails(&list, &vec![2, 0, 0]), format!("[{},{},{}]", one(3), one(1), one(1)));
    let value: serde_json::Value = serde_json::from_str(&render_mails(&list, &vec![0, 1, 2])).unwrap();
    assert_eq!(value.as_array().unwrap().len(), 3);
    assert_eq!(value[2]["id"], 3);
}

#[test]
fn object_is_put_together_from_the_texts_of_its_members() {
    assert_eq!(
        write_mail_object("\"b\"", "\"d\"", "[\"f\"]", 12, 34, "[]"),
        "{\"body\":\"b\",\"data\":\"d\",\"from\":[\"f\"],\"id\":12,\"timestamp\":34,\"to\":[]}"
    );
    assert_eq!(
        write_mail_object("", "", "", 0, 0, ""),
        "{\"body\":,\"data\":,\"from\":,\"id\":0,\"timestamp\":0,\"to\":}"
    );
}
