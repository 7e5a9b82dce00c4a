//! The handlers of the HTTP API: from a request and the store to a
//! response.

use crate::address::string_views;
use crate::http::{find_pair, lookup, pair_views, Handler, Pair, Request, RequestView};
use crate::json::{
    json_array, json_of, jsons_of, mail_json, picked, render_mail, render_mails,
};
use crate::smtp::mail::{body_of, Mail};
use crate::snowflake::timestamp_of;
use crate::response::{
    bodyless, html_response, json_response, ContentType, Response, ResponseView, Status,
};
use crate::store::{
    is_listing, key_of, matches_record, most_recent_first, no_entries, record_of, stored_record,
    Store, StoreError, StoredMail,
};
use crate::text::{chars_of, chars_parse_decimal, lowercase, parse_decimal, to_lowercase};
use vstd::prelude::*;

verus! {

/// The identifier that decimal digits write.
pub open spec fn id_of(text: Seq<char>) -> Option<u128> {
    match parse_decimal(text, u128::MAX as nat) {
        Some(n) => Some(n as u128),
        None => None,
    }
}

/// The identifier that the path of a request names.
pub open spec fn mail_id_of(params: Seq<Pair>) -> Option<u128> {
    match lookup(params, "mail_id"@) {
        Some(text) => id_of(text),
        None => None,
    }
}

/// The count that the query parameter `name` gives; `default` where the
/// query has no such parameter, nothing where it is no count.
pub open spec fn count_of(query: Seq<Pair>, name: Seq<char>, default: usize) -> Option<usize> {
    match lookup(query, name) {
        Some(text) => match parse_decimal(text, usize::MAX as nat) {
            Some(n) => Some(n as usize),
            None => None,
        },
        None => Some(default),
    }
}

/// Number of records that a page holds where the request names no limit.
pub const DEFAULT_LIMIT: usize = 10;

/// The limit and the offset that the query of a request gives.
pub open spec fn paging_of(query: Seq<Pair>) -> Option<(usize, usize)> {
    match (count_of(query, "limit"@, DEFAULT_LIMIT), count_of(query, "offset"@, 0)) {
        (Some(limit), Some(offset)) => Some((limit, offset)),
        _ => None,
    }
}

/// The page of `list` that starts after `offset` records and holds up to
/// `limit` of them.
pub open spec fn page(list: Seq<StoredMail>, limit: usize, offset: usize) -> Seq<StoredMail> {
    let start = if offset <= list.len() {
        offset as int
    } else {
        list.len() as int
    };
    let end = if start + limit <= list.len() {
        start + limit
    } else {
        list.len() as int
    };
    list.subrange(start, end)
}

/// Whether one of the addresses is `wanted` once it is in lowercase.
pub open spec fn names(addresses: Seq<Seq<char>>, wanted: Seq<char>) -> bool {
    exists|i: int| 0 <= i < addresses.len() && lowercase(#[trigger] addresses[i]) == wanted
}

/// Whether `mail` names `wanted` among its recipients, where `to` holds, or
/// among its senders, where it does not.
pub open spec fn addressed(mail: Mail, to: bool, wanted: Seq<char>) -> bool {
    if to {
        names(mail.to.entries(), wanted)
    } else {
        names(mail.from.entries(), wanted)
    }
}

/// The first `count` records of `list` that name `wanted`.
pub open spec fn select(list: Seq<StoredMail>, to: bool, wanted: Seq<char>, count: int) -> Seq<
    StoredMail,
>
    decreases list.len(),
{
    if list.len() == 0 || count <= 0 {
        Seq::<StoredMail>::empty()
    } else if addressed(list[0].mail, to, wanted) {
        seq![list[0]] + select(list.drop_first(), to, wanted, count - 1)
    } else {
        select(list.drop_first(), to, wanted, count)
    }
}

/// The page of the records that name `wanted`: after `offset` records of
/// `list` are passed over, the first `limit` that name it.
pub open spec fn filtered_page(
    list: Seq<StoredMail>,
    limit: usize,
    offset: usize,
    to: bool,
    wanted: Seq<char>,
) -> Seq<StoredMail> {
    let start = if offset <= list.len() {
        offset as int
    } else {
        list.len() as int
    };
    select(list.skip(start), to, wanted, limit as int)
}

/// The identifier that the path of `request` names.
pub fn parse_mail_id(request: &Request) -> (r: Option<u128>)
    ensures
        r == mail_id_of(request@.params),
{
    match find_pair(&request.params, "mail_id") {
        Some(text) => {
            let chars = chars_of(text.as_str());
            chars_parse_decimal(chars.as_slice(), u128::MAX)
        },
        None => None,
    }
}

/// The count that the query parameter `name` gives.
pub fn parse_count(query: &Vec<(String, String)>, name: &str, default: usize) -> (r: Option<usize>)
    ensures
        r == count_of(pair_views(query@), name@, default),
{
    match find_pair(query, name) {
        Some(text) => {
            let chars = chars_of(text.as_str());
            match chars_parse_decimal(chars.as_slice(), usize::MAX as u128) {
                Some(n) => Some(n as usize),
                None => None,
            }
        },
        None => Some(default),
    }
}

/// The limit and the offset that the query of `request` gives.
pub fn parse_paging(request: &Request) -> (r: Option<(usize, usize)>)
    ensures
        r == paging_of(request@.query),
{
    let limit = parse_count(&request.query, "limit", DEFAULT_LIMIT);
    let offset = parse_count(&request.query, "offset", 0);
    match (limit, offset) {
        (Some(limit), Some(offset)) => Some((limit, offset)),
        _ => None,
    }
}

/// The positions in a list of `len` records of the page that starts after
/// `offset` records.
pub fn pick_page(list: &Vec<StoredMail>, limit: usize, offset: usize) -> (picks: Vec<usize>)
    ensures
        forall|k: int| 0 <= k < picks@.len() ==> picks@[k] < list@.len(),
        picked(list@, picks@) == page(list@, limit, offset),
{
    let start: usize = if offset <= list.len() {
        offset
    } else {
        list.len()
    };
    let end: usize = if limit <= list.len() - start {
        start + limit
    } else {
        list.len()
    };
    let mut picks: Vec<usize> = Vec::new();
    let mut i: usize = start;
    while i < end
        invariant
            start <= i <= end <= list.len(),
            picks@.len() == i - start,
            forall|k: int| 0 <= k < picks@.len() ==> picks@[k] == start + k,
        decreases end - i,
    {
        picks.push(i);
        i = i + 1;
    }
    assert(picked(list@, picks@) =~= page(list@, limit, offset));
    picks
}

/// Whether `mail` names `wanted` among its recipients, where `to` holds, or
/// among its senders.
pub fn is_addressed(mail: &Mail, to: bool, wanted: &String) -> (b: bool)
    ensures
        b == addressed(*mail, to, wanted@),
{
    let addresses = if to {
        mail.to.as_vec()
    } else {
        mail.from.as_vec()
    };
    let ghost entries = if to {
        mail.to.entries()
    } else {
        mail.from.entries()
    };
    let mut i: usize = 0;
    while i < addresses.len()
        invariant
            i <= addresses.len(),
            entries == string_views(addresses@),
            addressed(*mail, to, wanted@) == names(entries, wanted@),
            forall|j: int| 0 <= j < i ==> lowercase(#[trigger] entries[j]) != wanted@,
        decreases addresses.len() - i,
    {
        let lowered = to_lowercase(addresses[i].as_str());
        if lowered == *wanted {
            assert(lowercase(entries[i as int]) == wanted@);
            return true;
        }
        i = i + 1;
    }
    false
}

/// The positions in `list` of the page of the records that name `wanted`.
pub fn pick_filtered_page(
    list: &Vec<StoredMail>,
    limit: usize,
    offset: usize,
    to: bool,
    wanted: &String,
) -> (picks: Vec<usize>)
    ensures
        forall|k: int| 0 <= k < picks@.len() ==> picks@[k] < list@.len(),
        picked(list@, picks@) == filtered_page(list@, limit, offset, to, wanted@),
{
    let start: usize = if offset <= list.len() {
        offset
    } else {
        list.len()
    };
    let mut picks: Vec<usize> = Vec::new();
    let mut i: usize = start;
    assert(picked(list@, picks@) =~= Seq::<StoredMail>::empty());
    while i < list.len() && picks.len() < limit
        invariant
            start <= i <= list.len(),
            picks@.len() <= limit,
            forall|k: int| 0 <= k < picks@.len() ==> picks@[k] < list@.len(),
            filtered_page(list@, limit, offset, to, wanted@) == picked(list@, picks@) + select(
                list@.skip(i as int),
                to,
                wanted@,
                limit - picks@.len(),
            ),
            start == if offset <= list.len() {
                offset as int
            } else {
                list.len() as int
            },
        decreases list.len() - i,
    {
        let ghost rest = list@.skip(i as int);
        let ghost before = picks@;
        assert(rest[0] == list@[i as int]);
        assert(rest.drop_first() =~= list@.skip(i + 1));
        if is_addressed(&list[i].mail, to, wanted) {
            picks.push(i);
            assert(picked(list@, picks@) =~= picked(list@, before).push(list@[i as int]));
            assert(picked(list@, before) + (seq![list@[i as int]] + select(
                list@.skip(i + 1),
                to,
                wanted@,
                limit - before.len() - 1,
            )) =~= picked(list@, picks@) + select(
                list@.skip(i + 1),
                to,
                wanted@,
                limit - picks@.len(),
            ));
        }
        i = i + 1;
    }
    assert(select(list@.skip(i as int), to, wanted@, limit - picks@.len()) =~= Seq::<
        StoredMail,
    >::empty());
    assert(picked(list@, picks@) + Seq::<StoredMail>::empty() =~= picked(list@, picks@));
    picks
}

/// Whether `r` answers a request for one record: status 400 where the
/// path names no identifier; else the record as JSON, and status 404 where
/// the store holds nothing under the identifier; or status 500 where the
/// store failed or the stored value is no record.
pub open spec fn answers_get_mail(
    request: RequestView,
    entries: Map<Seq<u8>, Seq<u8>>,
    r: ResponseView,
) -> bool {
    match mail_id_of(request.params) {
        None => r == bodyless(Status::BadRequest),
        Some(id) => {
            ||| r == bodyless(Status::InternalServerError)
            ||| !entries.contains_key(key_of(id)) && r == bodyless(Status::NotFound)
            ||| exists|mail: Mail|
                stored_record(entries, id) is Some && matches_record(
                    mail,
                    stored_record(entries, id)->Some_0,
                ) && r == json_response(json_of(mail))
        },
    }
}

/// Whether `r` answers a request to remove one record from a store that
/// held `before` and holds `after`: status 400 where the path names no
/// identifier; else status 200 where the store held something under the
/// identifier, which is gone, and status 404 where it held nothing there;
/// or status 500 where the store failed.
pub open spec fn answers_delete_mail(
    request: RequestView,
    before: Map<Seq<u8>, Seq<u8>>,
    after: Map<Seq<u8>, Seq<u8>>,
    r: ResponseView,
) -> bool {
    match mail_id_of(request.params) {
        None => r == bodyless(Status::BadRequest) && after == before,
        Some(id) => {
            ||| r == bodyless(Status::InternalServerError)
            ||| after == before.remove(key_of(id)) && r == bodyless(
                if before.contains_key(key_of(id)) {
                    Status::Success
                } else {
                    Status::NotFound
                },
            )
        },
    }
}

/// Whether `r` answers a request for a page of all records: status 400
/// where the limit or the offset is no count; else the page of the records
/// in the order of their identifiers, the latest first, as a JSON array, or
/// status 500 where the store failed or a stored value is no record.
pub open spec fn answers_get_mails(
    request: RequestView,
    entries: Map<Seq<u8>, Seq<u8>>,
    r: ResponseView,
) -> bool {
    match paging_of(request.query) {
        None => r == bodyless(Status::BadRequest),
        Some((limit, offset)) => {
            ||| r == bodyless(Status::InternalServerError)
            ||| exists|list: Seq<StoredMail>|
                is_listing(list, entries) && most_recent_first(list) && r == json_response(
                    json_array(jsons_of(page(list, limit, offset))),
                )
        },
    }
}

/// Whether `r` answers a request for a page of the records sent to an
/// address, where `to` holds, or from it: status 400 where the path names
/// no address or the limit or the offset is no count; else the page as a
/// JSON array, or status 500 where the store failed or a stored value is
/// no record.
pub open spec fn answers_get_mails_by_address(
    request: RequestView,
    entries: Map<Seq<u8>, Seq<u8>>,
    to: bool,
    r: ResponseView,
) -> bool {
    match (lookup(request.params, "email"@), paging_of(request.query)) {
        (Some(email), Some((limit, offset))) => {
            ||| r == bodyless(Status::InternalServerError)
            ||| exists|list: Seq<StoredMail>|
                is_listing(list, entries) && most_recent_first(list) && r == json_response(
                    json_array(jsons_of(filtered_page(list, limit, offset, to, lowercase(email)))),
                )
        },
        _ => r == bodyless(Status::BadRequest),
    }
}

/// Whether `r` answers a request to remove all records from a store that
/// holds `after` afterwards: status 200, with nothing left, or status 500
/// where the store failed.
pub open spec fn answers_delete_mails(after: Map<Seq<u8>, Seq<u8>>, r: ResponseView) -> bool {
    ||| r == bodyless(Status::Success) && after == no_entries()
    ||| r == bodyless(Status::InternalServerError)
}

/// Whether `r` answers a request for the page that shows one record:
/// status 400 where the path names no identifier; else the page where the
/// store holds something under the identifier and status 404 where it does
/// not, or status 500 where the store failed to look.
pub open spec fn answers_preview(
    request: RequestView,
    entries: Map<Seq<u8>, Seq<u8>>,
    page: Seq<u8>,
    r: ResponseView,
) -> bool {
    match mail_id_of(request.params) {
        None => r == bodyless(Status::BadRequest),
        Some(id) => {
            ||| r == bodyless(Status::InternalServerError)
            ||| r == if entries.contains_key(key_of(id)) {
                html_response(page)
            } else {
                bodyless(Status::NotFound)
            }
        },
    }
}

/// A record that is read back as it was stored is served with status 200,
/// as JSON: its members are the senders, the recipients, the text and the
/// identifier that were stored, the body that is shown for the text, and
/// the time that the identifier holds.
pub proof fn lemma_stored_record_is_served(
    stored: Mail,
    found: Mail,
    request: RequestView,
    entries: Map<Seq<u8>, Seq<u8>>,
)
    requires
        matches_record(found, record_of(stored)),
        mail_id_of(request.params) == Some(stored.id),
        stored_record(entries, stored.id) == Some(record_of(stored)),
    ensures
        found.from@ == stored.from@,
        found.to@ == stored.to@,
        found.data@ == stored.data@,
        found.id == stored.id,
        json_of(found) == mail_json(
            found.from.entries(),
            found.to.entries(),
            stored.data@,
            stored.id,
            body_of(stored.data@),
            timestamp_of(stored.id) as u128,
        ),
        json_response(json_of(found)).status == Status::Success,
        json_response(json_of(found)).content_type == Some(ContentType::Json),
        answers_get_mail(request, entries, json_response(json_of(found))),
{
    assert(matches_record(found, stored_record(entries, stored.id)->Some_0));
}

/// The response to a request for one record, given what the store found:
/// the record as JSON; status 404 where the store holds none; status 500
/// where the store failed or the stored value is no record.
pub fn mail_response(found: &Result<Option<Mail>, StoreError>) -> (r: Response)
    ensures
        match found {
            Ok(Some(mail)) => r@ == json_response(json_of(*mail)),
            Ok(None) => r@ == bodyless(Status::NotFound),
            Err(_) => r@ == bodyless(Status::InternalServerError),
        },
{
    match found {
        Ok(Some(mail)) => Response::json(render_mail(mail).as_str()),
        Ok(None) => Response::empty(Status::NotFound),
        Err(_) => Response::empty(Status::InternalServerError),
    }
}

/// The response to a request to remove one record, given what the store
/// reported of the removal: status 200 where it held the record, status 404
/// where it held none, status 500 where it failed.
pub fn removal_response(removed: &Result<bool, StoreError>) -> (r: Response)
    ensures
        match removed {
            Ok(true) => r@ == bodyless(Status::Success),
            Ok(false) => r@ == bodyless(Status::NotFound),
            Err(_) => r@ == bodyless(Status::InternalServerError),
        },
{
    match removed {
        Ok(true) => Response::empty(Status::Success),
        Ok(false) => Response::empty(Status::NotFound),
        Err(_) => Response::empty(Status::InternalServerError),
    }
}

/// The response to a request for the page that shows one record, given
/// what the store reported of holding the record: the page where it holds
/// it, status 404 where it does not, status 500 where it failed.
pub fn preview_response(held: &Result<bool, StoreError>, page: &[u8]) -> (r: Response)
    ensures
        match held {
            Ok(true) => r@ == html_response(page@),
            Ok(false) => r@ == bodyless(Status::NotFound),
            Err(_) => r@ == bodyless(Status::InternalServerError),
        },
{
    match held {
        Ok(true) => Response::html(page),
        Ok(false) => Response::empty(Status::NotFound),
        Err(_) => Response::empty(Status::InternalServerError),
    }
}

/// The response to a request to remove all records, given what the store
/// reported: status 200, or status 500 where it failed.
pub fn clearing_response(cleared: &Result<(), StoreError>) -> (r: Response)
    ensures
        match cleared {
            Ok(()) => r@ == bodyless(Status::Success),
            Err(_) => r@ == bodyless(Status::InternalServerError),
        },
{
    match cleared {
        Ok(()) => Response::empty(Status::Success),
        Err(_) => Response::empty(Status::InternalServerError),
    }
}

/// Serves one record as JSON.
pub fn get_mail_handler(request: &Request, store: &Store) -> (r: Response)
    ensures
        answers_get_mail(request@, store.entries(), r@),
{
    match parse_mail_id(request) {
        None => Response::empty(Status::BadRequest),
        Some(id) => {
            let found = store.get(id);
            mail_response(&found)
        },
    }
}

/// Removes one record.
pub fn delete_mail_handler(request: &Request, store: &mut Store) -> (r: Response)
    ensures
        answers_delete_mail(request@, old(store).entries(), final(store).entries(), r@),
{
    let id = match parse_mail_id(request) {
        Some(id) => id,
        None => {
            return Response::empty(Status::BadRequest);
        },
    };
    let removed = store.remove(id);
    removal_response(&removed)
}

/// The response that lists the records of `list` at the positions `picks`.
pub fn listing_response(list: &Vec<StoredMail>, picks: &Vec<usize>) -> (r: Response)
    requires
        forall|k: int| 0 <= k < picks@.len() ==> picks@[k] < list@.len(),
    ensures
        r@ == json_response(json_array(jsons_of(picked(list@, picks@)))),
{
    Response::json(render_mails(list, picks).as_str())
}

/// Serves one page of all records, the most recent first, as a JSON array.
pub fn get_mails_handler(request: &Request, store: &Store) -> (r: Response)
    ensures
        answers_get_mails(request@, store.entries(), r@),
{
    let (limit, offset) = match parse_paging(request) {
        Some(paging) => paging,
        None => {
            return Response::empty(Status::BadRequest);
        },
    };
    match store.scan_reverse() {
        Ok(list) => {
            let picks = pick_page(&list, limit, offset);
            listing_response(&list, &picks)
        },
        Err(_) => Response::empty(Status::InternalServerError),
    }
}

/// Removes all records.
pub fn delete_mails_handler(store: &mut Store) -> (r: Response)
    ensures
        answers_delete_mails(final(store).entries(), r@),
{
    let cleared = store.clear();
    clearing_response(&cleared)
}

/// Serves one page of the records sent to an address, where `to` holds, or
/// from it, the most recent first, as a JSON array. The address is taken
/// from the path and compared in lowercase.
pub fn get_mail_from_to_handler(request: &Request, store: &Store, to: bool) -> (r: Response)
    ensures
        answers_get_mails_by_address(request@, store.entries(), to, r@),
{
    let wanted = match find_pair(&request.params, "email") {
        Some(email) => to_lowercase(email.as_str()),
        None => {
            return Response::empty(Status::BadRequest);
        },
    };
    let (limit, offset) = match parse_paging(request) {
        Some(paging) => paging,
        None => {
            return Response::empty(Status::BadRequest);
        },
    };
    match store.scan_reverse() {
        Ok(list) => {
            let picks = pick_filtered_page(&list, limit, offset, to, &wanted);
            listing_response(&list, &picks)
        },
        Err(_) => Response::empty(Status::InternalServerError),
    }
}

/// Serves the page that shows one record, where the store holds it.
pub fn preview_mail_handler(request: &Request, store: &Store, page: &[u8]) -> (r: Response)
    ensures
        answers_preview(request@, store.entries(), page@, r@),
{
    let id = match parse_mail_id(request) {
        Some(id) => id,
        None => {
            return Response::empty(Status::BadRequest);
        },
    };
    let held = store.contains(id);
    preview_response(&held, page)
}

/// Serves the panel page.
pub fn panel_handler(page: &[u8]) -> (r: Response)
    ensures
        r@ == html_response(page@),
{
    Response::html(page)
}

/// Serves the resource figures that the caller gathered, as JSON.
pub fn info_handler(figures: &str) -> (r: Response)
    ensures
        r@ == json_response(figures@),
{
    Response::json(figures)
}

/// The fixed documents and the figures that the handlers hand out.
pub struct Assets<'a> {
    /// The page that shows one record.
    pub preview_page: &'a [u8],
    /// The panel page.
    pub panel_page: &'a [u8],
    /// The resource figures of the process and its host, as JSON text. They
    /// are read only for a request that `Handler::Info` serves.
    pub figures: &'a str,
}

/// Whether `r` is a response of the handler of `request`, for a store that
/// held `before` and holds `after`. But for the two handlers that remove
/// records, the store is left as it was.
pub open spec fn answers(
    request: RequestView,
    before: Map<Seq<u8>, Seq<u8>>,
    after: Map<Seq<u8>, Seq<u8>>,
    preview_page: Seq<u8>,
    panel_page: Seq<u8>,
    figures: Seq<char>,
    r: ResponseView,
) -> bool {
    match request.handler {
        Handler::GetMail => after == before && answers_get_mail(request, before, r),
        Handler::GetMailsTo => after == before && answers_get_mails_by_address(
            request,
            before,
            true,
            r,
        ),
        Handler::GetMailsFrom => after == before && answers_get_mails_by_address(
            request,
            before,
            false,
            r,
        ),
        Handler::DeleteMail => answers_delete_mail(request, before, after, r),
        Handler::GetMails => after == before && answers_get_mails(request, before, r),
        Handler::DeleteMails => answers_delete_mails(after, r),
        Handler::Info => after == before && r == json_response(figures),
        Handler::PreviewMail => after == before && answers_preview(
            request,
            before,
            preview_page,
            r,
        ),
        Handler::Panel => after == before && r == html_response(panel_page),
    }
}

/// Hands `request` to its handler.
pub fn serve(request: &Request, store: &mut Store, assets: &Assets) -> (r: Response)
    ensures
        answers(
            request@,
            old(store).entries(),
            final(store).entries(),
            assets.preview_page@,
            assets.panel_page@,
            assets.figures@,
            r@,
        ),
{
    match request.handler {
        Handler::GetMail => get_mail_handler(request, store),
        Handler::GetMailsTo => get_mail_from_to_handler(request, store, true),
        Handler::GetMailsFrom => get_mail_from_to_handler(request, store, false),
        Handler::DeleteMail => delete_mail_handler(request, store),
        Handler::GetMails => get_mails_handler(request, store),
        Handler::DeleteMails => delete_mails_handler(store),
        Handler::Info => info_handler(assets.figures),
        Handler::PreviewMail => preview_mail_handler(request, store, assets.preview_page),
        Handler::Panel => panel_handler(assets.panel_page),
    }
}

} // verus!
