//! The mail record: the addresses that the header lines of a message
//! name, and the body that is shown for it.

use crate::address::AddressSet;
use crate::snowflake::{timestamp_of, to_timestamp, IdError, Snowflake};
use crate::text::{
    chars_eq_ignore_ascii_case, chars_of, chars_trim, copy_range, eq_ignore_ascii_case, find,
    find_char, find_chars, first_index, lines, split, split_chars, split_lines, string_of, trim,
    views,
};
use vstd::prelude::*;
use vstd::slice::slice_subrange;
use vstd::string::StrSliceExecFns;

verus! {

/// A message text is worth storing only if it has more characters than
/// this.
pub const MIN_DATA_LEN: usize = 20;

/// A captured message.
#[derive(Debug, Clone)]
pub struct Mail {
    /// Sender addresses.
    pub from: AddressSet,
    /// Recipient addresses.
    pub to: AddressSet,
    /// The message text as it was received: headers and body.
    pub data: String,
    /// Identifier; it holds the time of capture.
    pub id: u128,
}

/// One part of a multipart message.
#[derive(Debug)]
pub struct MimePart {
    /// Content type, such as `text/plain`.
    pub mimetype: String,
    /// Decoded body of the part.
    pub body: String,
}

/// What structured parsing finds in a message: the decoded body of the
/// message as a whole, and its parts.
#[derive(Debug)]
pub struct ParsedMessage {
    /// Decoded body of the whole message.
    pub body: String,
    /// The parts of a multipart message, in order; empty otherwise.
    pub parts: Vec<MimePart>,
}

/// A part as a pair of content type and body.
pub type PartView = (Seq<char>, Seq<char>);

/// The pairs of content type and body that `parts` hold.
pub open spec fn part_views(parts: Seq<MimePart>) -> Seq<PartView> {
    Seq::new(parts.len(), |i: int| (parts[i].mimetype@, parts[i].body@))
}

/// What `mailparse::parse_mail` finds in the message text `data`, where it
/// accepts it: the decoded body of the whole message, and for each part its
/// content type and its decoded body, a body that cannot be decoded taken
/// as empty.
pub uninterp spec fn mime_structure(data: Seq<char>) -> Option<(Seq<char>, Seq<PartView>)>;

/// Whether a content type is `text/html`, the case of ASCII letters aside.
pub open spec fn is_html(mimetype: Seq<char>) -> bool {
    eq_ignore_ascii_case(mimetype, "text/html"@)
}

/// The body of the first part whose content type is `text/html`.
pub open spec fn html_body(parts: Seq<PartView>) -> Option<Seq<char>>
    decreases parts.len(),
{
    if parts.len() == 0 {
        None
    } else if is_html(parts[0].0) {
        Some(parts[0].1)
    } else {
        html_body(parts.drop_first())
    }
}

/// The body to show for a parsed message: its own where it has no parts,
/// else that of its first `text/html` part, else that of its first part.
pub open spec fn selected_body(body: Seq<char>, parts: Seq<PartView>) -> Seq<char> {
    if parts.len() == 0 {
        body
    } else {
        match html_body(parts) {
            Some(html) => html,
            None => parts[0].1,
        }
    }
}

/// What follows the first empty line of `data`, lines ending in carriage
/// return and line feed; all of `data` where it has no such line.
pub open spec fn raw_body(data: Seq<char>) -> Seq<char> {
    match find(data, "\r\n\r\n"@) {
        Some(i) => data.skip(i + 4),
        None => data,
    }
}

/// The body to show for the message text `data`.
pub open spec fn body_of(data: Seq<char>) -> Seq<char> {
    match mime_structure(data) {
        Some((body, parts)) => selected_body(body, parts),
        None => raw_body(data),
    }
}

/// Calls `mailparse::parse_mail` on the bytes of `data` and
/// `ParsedMail::get_body` on the message and on each of its parts. The
/// result is `None` where `parse_mail` fails; a body that `get_body` cannot
/// decode is empty. The result is a function of `data` alone, named
/// `mime_structure`.
#[verifier::external_body]
fn parse_structure(data: &str) -> (r: Option<ParsedMessage>)
    ensures
        match mime_structure(data@) {
            Some((body, parts)) => r is Some && r->Some_0.body@ == body && part_views(
                r->Some_0.parts@,
            ) == parts,
            None => r is None,
        },
{
    let mail = mailparse::parse_mail(data.as_bytes()).ok()?;
    let parts = mail.subparts.iter().map(
        |p| MimePart { mimetype: p.ctype.mimetype.clone(), body: p.get_body().unwrap_or_default() },
    ).collect();
    Some(ParsedMessage { body: mail.get_body().unwrap_or_default(), parts })
}

/// The body to show for a parsed message.
pub fn select_body(message: &ParsedMessage) -> (body: String)
    ensures
        body@ == selected_body(message.body@, part_views(message.parts@)),
{
    if message.parts.len() == 0 {
        return message.body.clone();
    }
    let html = chars_of("text/html");
    let ghost parts = part_views(message.parts@);
    let mut i: usize = 0;
    assert(parts.skip(0) =~= parts);
    while i < message.parts.len()
        invariant
            i <= message.parts.len(),
            parts == part_views(message.parts@),
            html@ == "text/html"@,
            html_body(parts) == html_body(parts.skip(i as int)),
        decreases message.parts.len() - i,
    {
        let mimetype = chars_of(message.parts[i].mimetype.as_str());
        assert(parts.skip(i as int)[0] == parts[i as int]);
        if chars_eq_ignore_ascii_case(mimetype.as_slice(), html.as_slice()) {
            return message.parts[i].body.clone();
        }
        assert(parts.skip(i as int).drop_first() =~= parts.skip(i + 1));
        i = i + 1;
    }
    message.parts[0].body.clone()
}

/// What follows the first empty line of `data`.
pub fn select_raw_body(data: &str) -> (body: String)
    ensures
        body@ == raw_body(data@),
{
    let chars = chars_of(data);
    let blank = chars_of("\r\n\r\n");
    proof {
        reveal_strlit("\r\n\r\n");
    }
    match find_chars(chars.as_slice(), blank.as_slice()) {
        Some(i) => {
            assert(chars@.skip(i + 4) =~= chars@.subrange(i + 4, chars.len() as int));
            string_of(slice_subrange(chars.as_slice(), i + 4, chars.len()))
        },
        None => string_of(chars.as_slice()),
    }
}

impl Mail {
    /// Both address sets hold each address once.
    pub open spec fn wf(&self) -> bool {
        self.from.wf() && self.to.wf()
    }

    /// Whether the record is worth storing: it names a sender and a
    /// recipient, and its text has more than `MIN_DATA_LEN` characters.
    pub open spec fn storable(&self) -> bool {
        &&& self.from@ != Set::<Seq<char>>::empty()
        &&& self.to@ != Set::<Seq<char>>::empty()
        &&& self.data@.len() > MIN_DATA_LEN
    }

    /// A record of the given addresses and text, with the next identifier
    /// of `generator`. No record is made where the generator refuses.
    pub fn new(generator: &mut Snowflake, from: AddressSet, to: AddressSet, data: String) -> (r:
        Result<Mail, IdError>)
        ensures
            final(generator).wf(),
            r is Err ==> *final(generator) == *old(generator),
            r is Ok ==> {
                &&& r->Ok_0.from == from
                &&& r->Ok_0.to == to
                &&& r->Ok_0.data == data
                &&& final(generator).has_issued()
                &&& r->Ok_0.id == final(generator).last_id()
                &&& timestamp_of(r->Ok_0.id) == final(generator).last_timestamp()
            },
            r is Ok && old(generator).has_issued() && final(generator).last_timestamp() >= old(
                generator,
            ).last_timestamp() ==> r->Ok_0.id > old(generator).last_id(),
    {
        match generator.next_id() {
            Ok(id) => Ok(Mail { from, to, data, id }),
            Err(e) => Err(e),
        }
    }

    /// The millisecond, since the Unix epoch, at which the record was made.
    pub fn timestamp(&self) -> (t: u128)
        ensures
            t == timestamp_of(self.id),
    {
        to_timestamp(self.id)
    }

    /// The body to show for the record: chosen from the parts of the
    /// message where its text parses as one, else what follows the first
    /// empty line of the text.
    pub fn parse_body(&self) -> (body: String)
        ensures
            body@ == body_of(self.data@),
    {
        match parse_structure(self.data.as_str()) {
            Some(message) => select_body(&message),
            None => select_raw_body(self.data.as_str()),
        }
    }

    /// Whether the record is worth storing.
    pub fn should_persist(&self) -> (b: bool)
        ensures
            b == self.storable(),
    {
        !self.from.is_empty() && !self.to.is_empty() && self.data.as_str().unicode_len()
            > MIN_DATA_LEN
    }
}

impl Default for Mail {
    fn default() -> (m: Mail)
        ensures
            m.wf(),
            m.from@ == Set::<Seq<char>>::empty(),
            m.to@ == Set::<Seq<char>>::empty(),
            m.data@ == Seq::<char>::empty(),
            m.id == 0,
    {
        Mail { from: AddressSet::new(), to: AddressSet::new(), data: String::new(), id: 0 }
    }
}


/// A header: its name and its value.
pub type Header = (Seq<char>, Seq<char>);

/// Whether `line` continues the header before it: it starts with a space or
/// a tab.
pub open spec fn is_continuation(line: Seq<char>) -> bool {
    line.len() > 0 && (line[0] == ' ' || line[0] == '\t')
}

/// The header that `line` starts: the name before its first colon and the
/// value after it, both trimmed. A line without a colon starts none.
pub open spec fn header_of(line: Seq<char>) -> Option<Header> {
    let colon = first_index(line, ':');
    if 0 <= colon < line.len() {
        Some((trim(line.take(colon)), trim(line.skip(colon + 1))))
    } else {
        None
    }
}

/// The headers that `lines` hold, each with its continuation lines joined
/// to its value by single spaces. Lines that neither continue a header nor
/// start one are passed over, as are continuation lines before the first
/// header.
pub open spec fn unfold(lines: Seq<Seq<char>>) -> Seq<Header>
    decreases lines.len(),
{
    if lines.len() == 0 {
        Seq::<Header>::empty()
    } else {
        let prior = unfold(lines.drop_last());
        let line = lines.last();
        if is_continuation(line) {
            if prior.len() == 0 {
                prior
            } else {
                prior.drop_last().push((prior.last().0, prior.last().1 + seq![' '] + trim(line)))
            }
        } else {
            match header_of(line) {
                Some(header) => prior.push(header),
                None => prior,
            }
        }
    }
}

/// The address that one entry of an address list gives: what stands between
/// the first `<` and the first `>`, or all of an entry that holds no `<`.
/// An entry with a `<` that no `>` follows gives none.
pub open spec fn address_of(entry: Seq<char>) -> Option<Seq<char>> {
    let open = first_index(entry, '<');
    let close = first_index(entry, '>');
    if !(0 <= open < entry.len()) {
        Some(entry)
    } else if open < close < entry.len() {
        Some(entry.subrange(open + 1, close))
    } else {
        None
    }
}

/// The addresses that the entries give, in order, each entry trimmed first.
pub open spec fn addresses(entries: Seq<Seq<char>>) -> Seq<Seq<char>>
    decreases entries.len(),
{
    if entries.len() == 0 {
        Seq::<Seq<char>>::empty()
    } else {
        let prior = addresses(entries.drop_last());
        match address_of(trim(entries.last())) {
            Some(address) => prior.push(address),
            None => prior,
        }
    }
}

/// The addresses in a header value: those of its comma-separated entries.
pub open spec fn value_addresses(value: Seq<char>) -> Seq<Seq<char>> {
    addresses(split(value, ','))
}

/// The addresses of all headers whose name is `name`, the case of ASCII
/// letters aside.
pub open spec fn header_addresses(headers: Seq<Header>, name: Seq<char>) -> Seq<Seq<char>>
    decreases headers.len(),
{
    if headers.len() == 0 {
        Seq::<Seq<char>>::empty()
    } else {
        let prior = header_addresses(headers.drop_last(), name);
        if eq_ignore_ascii_case(headers.last().0, name) {
            prior + value_addresses(headers.last().1)
        } else {
            prior
        }
    }
}

/// The sender addresses that the `From` headers of a message name.
pub open spec fn senders(data: Seq<char>) -> Set<Seq<char>> {
    header_addresses(unfold(lines(data)), "From"@).to_set()
}

/// The recipient addresses that the `To` headers of a message name.
pub open spec fn recipients(data: Seq<char>) -> Set<Seq<char>> {
    header_addresses(unfold(lines(data)), "To"@).to_set()
}

/// The headers that the pairs of vectors hold.
pub open spec fn header_views(v: Seq<(Vec<char>, Vec<char>)>) -> Seq<Header> {
    Seq::new(v.len(), |i: int| (v[i].0@, v[i].1@))
}

/// The header that `line` starts, if it holds a colon.
pub fn parse_header_line(line: &[char]) -> (r: Option<(Vec<char>, Vec<char>)>)
    ensures
        match header_of(line@) {
            Some(header) => r is Some && r->Some_0.0@ == header.0 && r->Some_0.1@ == header.1,
            None => r is None,
        },
{
    assert(line@.skip(0) =~= line@);
    let colon = find_char(line, 0, ':');
    if colon < line.len() {
        let name = chars_trim(slice_subrange(line, 0, colon));
        let value = chars_trim(slice_subrange(line, colon + 1, line.len()));
        assert(line@.subrange(0, colon as int) =~= line@.take(colon as int));
        assert(line@.subrange(colon + 1, line.len() as int) =~= line@.skip(colon + 1));
        Some((copy_range(name, 0, name.len()), copy_range(value, 0, value.len())))
    } else {
        None
    }
}

/// The address that one entry of an address list gives.
pub fn extract_email_address(s: &[char]) -> (r: Option<String>)
    ensures
        match address_of(s@) {
            Some(address) => r is Some && r->Some_0@ == address,
            None => r is None,
        },
{
    assert(s@.skip(0) =~= s@);
    let open = find_char(s, 0, '<');
    if open >= s.len() {
        return Some(string_of(s));
    }
    let close = find_char(s, 0, '>');
    if open < close && close < s.len() {
        Some(string_of(slice_subrange(s, open + 1, close)))
    } else {
        None
    }
}

/// Adds the addresses in a header value to `email_set`.
pub fn extract_emails(header_value: &[char], email_set: &mut AddressSet)
    ensures
        old(email_set).wf() ==> final(email_set).wf(),
        final(email_set)@ == old(email_set)@.union(value_addresses(header_value@).to_set()),
{
    let entries = split_chars(header_value, ',');
    let mut i: usize = 0;
    assert(views(entries@).take(0) =~= Seq::<Seq<char>>::empty());
    assert(old(email_set)@.union(Seq::<Seq<char>>::empty().to_set()) =~= old(email_set)@);
    while i < entries.len()
        invariant
            i <= entries.len(),
            old(email_set).wf() ==> email_set.wf(),
            email_set@ == old(email_set)@.union(addresses(views(entries@).take(i as int)).to_set()),
        decreases entries.len() - i,
    {
        let ghost taken = views(entries@).take(i as int);
        let ghost more = views(entries@).take(i + 1);
        assert(more.drop_last() =~= taken);
        assert(more.last() == entries@[i as int]@);
        let entry = chars_trim(entries[i].as_slice());
        match extract_email_address(entry) {
            Some(address) => {
                proof {
                    addresses(taken).lemma_push_to_set_commute(address@);
                }
                email_set.insert(address);
                assert(email_set@ =~= old(email_set)@.union(addresses(more).to_set()));
            },
            None => {},
        }
        i = i + 1;
    }
    assert(views(entries@).take(i as int) =~= views(entries@));
}

/// Adds the addresses of a `From` header to `from_set` and those of a `To`
/// header to `to_set`; a header of another name adds nothing.
pub fn process_header(
    header_name: &[char],
    header_value: &[char],
    from_set: &mut AddressSet,
    to_set: &mut AddressSet,
)
    ensures
        old(from_set).wf() ==> final(from_set).wf(),
        old(to_set).wf() ==> final(to_set).wf(),
        final(from_set)@ == if eq_ignore_ascii_case(header_name@, "From"@) {
            old(from_set)@.union(value_addresses(header_value@).to_set())
        } else {
            old(from_set)@
        },
        final(to_set)@ == if eq_ignore_ascii_case(header_name@, "To"@) {
            old(to_set)@.union(value_addresses(header_value@).to_set())
        } else {
            old(to_set)@
        },
{
    proof {
        reveal_strlit("From");
        reveal_strlit("To");
    }
    let from_name = chars_of("From");
    let to_name = chars_of("To");
    if chars_eq_ignore_ascii_case(header_name, from_name.as_slice()) {
        extract_emails(header_value, from_set);
    } else if chars_eq_ignore_ascii_case(header_name, to_name.as_slice()) {
        extract_emails(header_value, to_set);
    }
}

/// The headers that `lines` hold, continuation lines joined to their header.
pub fn unfold_headers(lines: &Vec<Vec<char>>) -> (headers: Vec<(Vec<char>, Vec<char>)>)
    ensures
        header_views(headers@) == unfold(views(lines@)),
{
    let mut done: Vec<(Vec<char>, Vec<char>)> = Vec::new();
    let mut current: Option<(Vec<char>, Vec<char>)> = None;
    let mut i: usize = 0;
    assert(views(lines@).take(0) =~= Seq::<Seq<char>>::empty());
    assert(header_views(done@) =~= Seq::<Header>::empty());
    while i < lines.len()
        invariant
            i <= lines.len(),
            current is None ==> done@.len() == 0,
            unfold(views(lines@).take(i as int)) == match current {
                Some(header) => header_views(done@).push((header.0@, header.1@)),
                None => header_views(done@),
            },
        decreases lines.len() - i,
    {
        let ghost taken = views(lines@).take(i as int);
        let ghost more = views(lines@).take(i + 1);
        assert(more.drop_last() =~= taken);
        assert(more.last() == lines@[i as int]@);
        let line = lines[i].as_slice();
        if line.len() > 0 && (line[0] == ' ' || line[0] == '\t') {
            match current {
                Some((name, mut value)) => {
                    let ghost old_value = value@;
                    let tail = chars_trim(line);
                    value.push(' ');
                    let mut k: usize = 0;
                    while k < tail.len()
                        invariant
                            k <= tail.len(),
                            value@ == old_value + seq![' '] + tail@.take(k as int),
                        decreases tail.len() - k,
                    {
                        value.push(tail[k]);
                        assert(tail@.take(k + 1) =~= tail@.take(k as int).push(tail@[k as int]));
                        k = k + 1;
                    }
                    assert(tail@.take(k as int) =~= tail@);
                    assert(header_views(done@).push((name@, old_value)).drop_last()
                        =~= header_views(done@));
                    current = Some((name, value));
                },
                None => {
                    current = None;
                },
            }
        } else {
            match parse_header_line(line) {
                Some(header) => {
                    let ghost before = done@;
                    match current {
                        Some(finished) => {
                            done.push(finished);
                            assert(header_views(done@) =~= header_views(before).push(
                                (finished.0@, finished.1@),
                            ));
                        },
                        None => {},
                    }
                    current = Some(header);
                },
                None => {},
            }
        }
        i = i + 1;
    }
    assert(views(lines@).take(i as int) =~= views(lines@));
    match current {
        Some(finished) => {
            let ghost before = done@;
            done.push(finished);
            assert(header_views(done@) =~= header_views(before).push((finished.0@, finished.1@)));
        },
        None => {},
    }
    done
}

/// The sender and the recipient addresses that the `From` and `To` headers
/// of the message text `data` name.
pub fn get_data_from_to(data: &str) -> (r: (AddressSet, AddressSet))
    ensures
        r.0.wf(),
        r.1.wf(),
        r.0@ == senders(data@),
        r.1@ == recipients(data@),
{
    let chars = chars_of(data);
    let lines = split_lines(chars.as_slice());
    let headers = unfold_headers(&lines);
    let mut from_set = AddressSet::new();
    let mut to_set = AddressSet::new();
    let mut i: usize = 0;
    assert(header_views(headers@).take(0) =~= Seq::<Header>::empty());
    assert(Seq::<Seq<char>>::empty().to_set() =~= Set::<Seq<char>>::empty());
    while i < headers.len()
        invariant
            i <= headers.len(),
            from_set.wf(),
            to_set.wf(),
            from_set@ == header_addresses(header_views(headers@).take(i as int), "From"@).to_set(),
            to_set@ == header_addresses(header_views(headers@).take(i as int), "To"@).to_set(),
        decreases headers.len() - i,
    {
        let ghost taken = header_views(headers@).take(i as int);
        let ghost more = header_views(headers@).take(i + 1);
        assert(more.drop_last() =~= taken);
        assert(more.last() == (headers@[i as int].0@, headers@[i as int].1@));
        proof {
            vstd::seq_lib::seq_to_set_distributes_over_add(
                header_addresses(taken, "From"@),
                value_addresses(more.last().1),
            );
            vstd::seq_lib::seq_to_set_distributes_over_add(
                header_addresses(taken, "To"@),
                value_addresses(more.last().1),
            );
        }
        process_header(
            headers[i].0.as_slice(),
            headers[i].1.as_slice(),
            &mut from_set,
            &mut to_set,
        );
        i = i + 1;
    }
    assert(header_views(headers@).take(i as int) =~= header_views(headers@));
    (from_set, to_set)
}

} // verus!
