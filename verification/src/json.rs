//! Mail records as JSON text.

use crate::address::string_views;
use crate::smtp::mail::{body_of, Mail};
use crate::snowflake::timestamp_of;
use crate::store::StoredMail;
use crate::text::string_of;
use vstd::prelude::*;
use vstd::string::StringExecFns;

verus! {

/// The JSON string literal that `serde_json::to_string` writes for the text
/// `s`: the text in double quotes, with the characters escaped that JSON
/// wants escaped.
pub uninterp spec fn json_string_literal(s: Seq<char>) -> Seq<char>;

/// Calls `serde_json::to_string` on a string slice. The call succeeds: of
/// the two causes of failure that its documentation names, a value that
/// decides to fail and a map whose keys are no strings, neither can come
/// from a string slice.
#[verifier::external_body]
fn json_string(s: &str) -> (r: Option<String>)
    ensures
        r is Some && r->Some_0@ == json_string_literal(s@),
{
    serde_json::to_string(s).ok()
}

/// The character that writes the digit `d`.
pub open spec fn digit_char(d: int) -> char {
    ('0' as u8 + d) as u8 as char
}

/// The decimal digits that write `n`, without leading zeros.
pub open spec fn decimal(n: nat) -> Seq<char>
    decreases n,
{
    if n < 10 {
        seq![digit_char(n as int)]
    } else {
        decimal(n / 10).push(digit_char((n % 10) as int))
    }
}

/// The items, with `sep` between each two of them.
pub open spec fn join(items: Seq<Seq<char>>, sep: char) -> Seq<char>
    decreases items.len(),
{
    if items.len() == 0 {
        Seq::<char>::empty()
    } else if items.len() == 1 {
        items[0]
    } else {
        join(items.drop_last(), sep) + seq![sep] + items.last()
    }
}

/// The JSON array of the given items, each of them JSON text already.
pub open spec fn json_array(items: Seq<Seq<char>>) -> Seq<char> {
    seq!['['] + join(items, ',') + seq![']']
}

/// The JSON string literals of the given texts.
pub open spec fn json_strings(texts: Seq<Seq<char>>) -> Seq<Seq<char>> {
    Seq::new(texts.len(), |i: int| json_string_literal(texts[i]))
}

/// The JSON object of a mail record, put together from the JSON texts of
/// its members: the body to show, the message text, the sender addresses,
/// the identifier, the time of capture and the recipient addresses. The
/// members stand in the order of their names.
pub open spec fn mail_object(
    body: Seq<char>,
    data: Seq<char>,
    from: Seq<char>,
    id: u128,
    timestamp: u128,
    to: Seq<char>,
) -> Seq<char> {
    "{\"body\":"@ + body + ",\"data\":"@ + data + ",\"from\":"@ + from + ",\"id\":"@ + decimal(
        id as nat,
    ) + ",\"timestamp\":"@ + decimal(timestamp as nat) + ",\"to\":"@ + to + "}"@
}

/// The JSON object of a mail record with the given sender and recipient
/// addresses, message text and identifier, the body to show and the time of
/// capture.
pub open spec fn mail_json(
    from: Seq<Seq<char>>,
    to: Seq<Seq<char>>,
    data: Seq<char>,
    id: u128,
    body: Seq<char>,
    timestamp: u128,
) -> Seq<char> {
    mail_object(
        json_string_literal(body),
        json_string_literal(data),
        json_array(json_strings(from)),
        id,
        timestamp,
        json_array(json_strings(to)),
    )
}

/// The JSON object of the mail `mail`: its members are its addresses, its
/// text and its identifier, the body that is shown for it and the time
/// that its identifier holds.
pub open spec fn json_of(mail: Mail) -> Seq<char> {
    mail_json(
        mail.from.entries(),
        mail.to.entries(),
        mail.data@,
        mail.id,
        body_of(mail.data@),
        timestamp_of(mail.id) as u128,
    )
}

/// The JSON objects of the mails of `list`.
pub open spec fn jsons_of(list: Seq<StoredMail>) -> Seq<Seq<char>> {
    Seq::new(list.len(), |i: int| json_of(list[i].mail))
}

/// The decimal digits that write `n`.
pub fn render_decimal(n: u128) -> (s: String)
    ensures
        s@ == decimal(n as nat),
{
    let mut digits: Vec<char> = Vec::new();
    digits.push(((n % 10) as u8 + '0' as u8) as char);
    let mut rest: u128 = n / 10;
    assert(digits@ =~= seq![digit_char((n % 10) as int)]);
    while rest > 0
        invariant
            rest > 0 ==> decimal(n as nat) == decimal(rest as nat) + digits@,
            rest == 0 ==> decimal(n as nat) == digits@,
        decreases rest,
    {
        let c = ((rest % 10) as u8 + '0' as u8) as char;
        let ghost before = digits@;
        digits.insert(0, c);
        assert(digits@ =~= seq![c] + before);
        assert(c == digit_char((rest % 10) as int));
        proof {
            if rest >= 10 {
                assert(decimal(rest as nat) == decimal((rest / 10) as nat).push(c));
                assert(decimal((rest / 10) as nat).push(c) + before =~= decimal(
                    (rest / 10) as nat,
                ) + digits@);
            } else {
                assert(decimal(rest as nat) =~= seq![c]);
            }
        }
        rest = rest / 10;
    }
    string_of(digits.as_slice())
}

/// The JSON array of the string literals of `texts`.
pub fn render_strings(texts: &Vec<String>) -> (r: String)
    ensures
        r@ == json_array(json_strings(string_views(texts@))),
{
    let mut out = String::new();
    out.append("[");
    proof {
        reveal_strlit("[");
        reveal_strlit("]");
        reveal_strlit(",");
        assert(","@ =~= seq![',']);
    }
    let ghost items = json_strings(string_views(texts@));
    let mut i: usize = 0;
    assert(items.take(0) =~= Seq::<Seq<char>>::empty());
    assert(out@ =~= seq!['['] + join(items.take(0), ','));
    while i < texts.len()
        invariant
            i <= texts.len(),
            items == json_strings(string_views(texts@)),
            out@ == seq!['['] + join(items.take(i as int), ','),
            ","@ == seq![','],
        decreases texts.len() - i,
    {
        let literal = json_string(texts[i].as_str()).unwrap();
        let ghost before = out@;
        if i > 0 {
            out.append(",");
        }
        out.append(literal.as_str());
        proof {
            let more = items.take(i + 1);
            assert(more.drop_last() =~= items.take(i as int));
            assert(more.last() == literal@);
            if i > 0 {
                assert(out@ =~= seq!['['] + (join(items.take(i as int), ',') + seq![','] + literal@));
            } else {
                assert(more.len() == 1);
                assert(out@ =~= seq!['['] + literal@);
            }
        }
        i = i + 1;
    }
    assert(items.take(i as int) =~= items);
    out.append("]");
    out
}

/// The JSON object of a mail record, put together from the JSON texts of
/// its members.
pub fn write_mail_object(body: &str, data: &str, from: &str, id: u128, timestamp: u128, to: &str) -> (out:
    String)
    ensures
        out@ == mail_object(body@, data@, from@, id, timestamp, to@),
{
    let id_text = render_decimal(id);
    let timestamp_text = render_decimal(timestamp);
    let mut out = String::new();
    out.append("{\"body\":");
    out.append(body);
    out.append(",\"data\":");
    out.append(data);
    out.append(",\"from\":");
    out.append(from);
    out.append(",\"id\":");
    out.append(id_text.as_str());
    out.append(",\"timestamp\":");
    out.append(timestamp_text.as_str());
    out.append(",\"to\":");
    out.append(to);
    out.append("}");
    assert(out@ =~= mail_object(body@, data@, from@, id, timestamp, to@));
    out
}

/// The JSON object of `mail`.
pub fn render_mail(mail: &Mail) -> (r: String)
    ensures
        r@ == json_of(*mail),
{
    let body = json_string(mail.parse_body().as_str()).unwrap();
    let data = json_string(mail.data.as_str()).unwrap();
    let from = render_strings(mail.from.as_vec());
    let to = render_strings(mail.to.as_vec());
    write_mail_object(
        body.as_str(),
        data.as_str(),
        from.as_str(),
        mail.id,
        mail.timestamp(),
        to.as_str(),
    )
}

/// The records of `list` at the positions `picks`, in the order of `picks`.
pub open spec fn picked(list: Seq<StoredMail>, picks: Seq<usize>) -> Seq<StoredMail> {
    Seq::new(picks.len(), |k: int| list[picks[k] as int])
}

/// The JSON array of the objects of the mails of `list` at the positions
/// `picks`.
pub fn render_mails(list: &Vec<StoredMail>, picks: &Vec<usize>) -> (r: String)
    requires
        forall|k: int| 0 <= k < picks@.len() ==> picks@[k] < list@.len(),
    ensures
        r@ == json_array(jsons_of(picked(list@, picks@))),
{
    let mut out = String::new();
    out.append("[");
    proof {
        reveal_strlit("[");
        reveal_strlit("]");
        reveal_strlit(",");
        assert(","@ =~= seq![',']);
    }
    let ghost items = jsons_of(picked(list@, picks@));
    let mut i: usize = 0;
    assert(items.take(0) =~= Seq::<Seq<char>>::empty());
    assert(out@ =~= seq!['['] + join(items.take(0), ','));
    while i < picks.len()
        invariant
            i <= picks.len(),
            forall|k: int| 0 <= k < picks@.len() ==> picks@[k] < list@.len(),
            items == jsons_of(picked(list@, picks@)),
            out@ == seq!['['] + join(items.take(i as int), ','),
            ","@ == seq![','],
        decreases picks.len() - i,
    {
        let object = render_mail(&list[picks[i]].mail);
        if i > 0 {
            out.append(",");
        }
        out.append(object.as_str());
        proof {
            let more = items.take(i + 1);
            assert(more.drop_last() =~= items.take(i as int));
            assert(more.last() == object@);
            if i > 0 {
                assert(out@ =~= seq!['['] + (join(items.take(i as int), ',') + seq![','] + object@));
            } else {
                assert(more.len() == 1);
                assert(out@ =~= seq!['['] + object@);
            }
        }
        i = i + 1;
    }
    assert(items.take(i as int) =~= items);
    out.append("]");
    out
}

} // verus!
