//! The SMTP command state machine.
//!
//! A [`Session`] takes the lines that a client sent, one at a time, and
//! answers each with what the server is to do next. Reading from and
//! writing to the connection is left to the caller, so one machine serves
//! the plain and the encrypted channel alike.

use crate::address::AddressSet;
use crate::smtp::mail::{get_data_from_to, recipients, senders, Mail};
use crate::snowflake::{timestamp_of, IdError, Snowflake};
use crate::text::{
    chars_eq, chars_eq_ignore_ascii_case, chars_of, chars_remove,
    chars_start_with_ignore_ascii_case, chars_trim_end, eq_ignore_ascii_case, remove_char,
    starts_with_ignore_ascii_case, string_of, trim_end,
};
use vstd::prelude::*;
use vstd::slice::slice_subrange;
use vstd::string::StringExecFns;

pub mod mail;

verus! {

/// Number of characters of a `MAIL FROM:` command before the address.
pub const MAIL_FROM_SKIP: usize = 10;

/// Number of characters of a `RCPT TO:` command before the address.
pub const RCPT_TO_SKIP: usize = 8;

/// What a command line asks for.
#[derive(Debug, Clone, Copy, PartialEq, Eq, Structural)]
pub enum Verb {
    /// `EHLO` or `HELO`.
    Hello,
    /// `STARTTLS`, on a channel that can still be upgraded.
    StartTls,
    /// `MAIL FROM`, with an address.
    MailFrom,
    /// `RCPT TO`, with an address.
    RcptTo,
    /// `DATA`.
    Data,
    /// `QUIT`.
    Quit,
    /// Anything else.
    Unknown,
}

/// A reply line, or group of lines, of the server.
#[derive(Debug, Clone, Copy, PartialEq, Eq, Structural)]
pub enum Reply {
    /// The banner that greets a new connection.
    ServiceReady,
    /// The capabilities of an encrypted channel.
    Capabilities,
    /// The capabilities of a plain channel, `STARTTLS` among them.
    CapabilitiesWithStartTls,
    /// The go-ahead for the TLS handshake.
    ReadyForTls,
    /// Acknowledgement of a command or of the message text.
    Accepted,
    /// The request to send the message text.
    SendData,
    /// The answer to a command that the server does not know.
    NotImplemented,
}

/// What the server does after a line.
#[derive(Debug, Clone, Copy, PartialEq, Eq, Structural)]
pub enum Action {
    /// Send the reply and read the next line.
    Send(Reply),
    /// Read the next line without replying.
    Nothing,
    /// Send `Reply::ReadyForTls`, perform the TLS handshake, and serve the
    /// encrypted channel with a new session that offers no upgrade.
    Upgrade,
    /// Close the connection.
    Close,
}

/// Where a session stands.
#[derive(Debug, Clone, Copy, PartialEq, Eq, Structural)]
pub enum Phase {
    /// A command is awaited.
    Command,
    /// The lines of a message text are awaited.
    Data,
    /// The session is over.
    Closed,
}

/// The text of a reply.
pub open spec fn reply_text(reply: Reply) -> Seq<char> {
    match reply {
        Reply::ServiceReady => "220 mail-sink\r\n"@,
        Reply::Capabilities => "250-localhost\r\n250 OK\r\n"@,
        Reply::CapabilitiesWithStartTls => "250-localhost\r\n250-STARTTLS\r\n250 OK\r\n"@,
        Reply::ReadyForTls => "220 Ready to start TLS\r\n"@,
        Reply::Accepted => "250 OK\r\n"@,
        Reply::SendData => "354 End data with <CR><LF>.<CR><LF>\r\n"@,
        Reply::NotImplemented => "502 Command not implemented\r\n"@,
    }
}

impl Reply {
    /// The text of the reply, as it goes over the wire.
    pub fn text(self) -> (t: &'static str)
        ensures
            t@ == reply_text(self),
    {
        match self {
            Reply::ServiceReady => "220 mail-sink\r\n",
            Reply::Capabilities => "250-localhost\r\n250 OK\r\n",
            Reply::CapabilitiesWithStartTls => "250-localhost\r\n250-STARTTLS\r\n250 OK\r\n",
            Reply::ReadyForTls => "220 Ready to start TLS\r\n",
            Reply::Accepted => "250 OK\r\n",
            Reply::SendData => "354 End data with <CR><LF>.<CR><LF>\r\n",
            Reply::NotImplemented => "502 Command not implemented\r\n",
        }
    }
}

/// What the command line `command`, its line ending taken off, asks for.
/// Verbs are told by how the line begins, the case of ASCII letters aside;
/// `DATA` and `QUIT` are the whole line. `STARTTLS` is a verb only while
/// the channel offers the upgrade, and `MAIL FROM` and `RCPT TO` only where
/// the line is long enough to hold the character that ends the verb.
pub open spec fn verb_of(command: Seq<char>, offers_tls: bool) -> Verb {
    if starts_with_ignore_ascii_case(command, "EHLO"@) || starts_with_ignore_ascii_case(
        command,
        "HELO"@,
    ) {
        Verb::Hello
    } else if offers_tls && starts_with_ignore_ascii_case(command, "STARTTLS"@) {
        Verb::StartTls
    } else if starts_with_ignore_ascii_case(command, "MAIL FROM"@) && command.len()
        >= MAIL_FROM_SKIP {
        Verb::MailFrom
    } else if starts_with_ignore_ascii_case(command, "RCPT TO"@) && command.len() >= RCPT_TO_SKIP {
        Verb::RcptTo
    } else if eq_ignore_ascii_case(command, "DATA"@) {
        Verb::Data
    } else if eq_ignore_ascii_case(command, "QUIT"@) {
        Verb::Quit
    } else {
        Verb::Unknown
    }
}

/// The address that a command names: what follows its first `skip`
/// characters, without any `<` and `>`.
pub open spec fn address_argument(command: Seq<char>, skip: int) -> Seq<char> {
    remove_char(remove_char(command.skip(skip), '<'), '>')
}

/// Whether a line of message text ends the text: it is a single dot, line
/// ending aside.
pub open spec fn ends_data(line: Seq<char>) -> bool {
    trim_end(line) == "."@
}

/// The state of a session.
pub struct SessionView {
    /// Sender addresses gathered so far.
    pub from: Set<Seq<char>>,
    /// Recipient addresses gathered so far.
    pub to: Set<Seq<char>>,
    /// The last message text that was completed.
    pub body: Seq<char>,
    /// The lines of the message text that is being received.
    pub pending: Seq<char>,
    /// Where the session stands.
    pub phase: Phase,
    /// Whether the channel can still be upgraded to TLS.
    pub offers_tls: bool,
}

/// The state after the message text that is being received is complete: the
/// addresses of its `From` and `To` headers join those gathered from the
/// commands, and the text becomes the body.
pub open spec fn commit(s: SessionView) -> SessionView {
    SessionView {
        from: s.from.union(senders(s.pending)),
        to: s.to.union(recipients(s.pending)),
        body: s.pending,
        pending: Seq::<char>::empty(),
        phase: Phase::Command,
        offers_tls: s.offers_tls,
    }
}

/// The state after one line, and what the server does then.
pub open spec fn step(s: SessionView, line: Seq<char>) -> (SessionView, Action) {
    match s.phase {
        Phase::Closed => (s, Action::Close),
        Phase::Data => if ends_data(line) {
            (commit(s), Action::Send(Reply::Accepted))
        } else {
            (SessionView { pending: s.pending + line, ..s }, Action::Nothing)
        },
        Phase::Command => {
            let command = trim_end(line);
            match verb_of(command, s.offers_tls) {
                Verb::Hello => (
                    s,
                    Action::Send(
                        if s.offers_tls {
                            Reply::CapabilitiesWithStartTls
                        } else {
                            Reply::Capabilities
                        },
                    ),
                ),
                Verb::StartTls => (SessionView { phase: Phase::Closed, ..s }, Action::Upgrade),
                Verb::MailFrom => (
                    SessionView {
                        from: s.from.insert(address_argument(command, MAIL_FROM_SKIP as int)),
                        ..s
                    },
                    Action::Send(Reply::Accepted),
                ),
                Verb::RcptTo => (
                    SessionView {
                        to: s.to.insert(address_argument(command, RCPT_TO_SKIP as int)),
                        ..s
                    },
                    Action::Send(Reply::Accepted),
                ),
                Verb::Data => (
                    SessionView { phase: Phase::Data, pending: Seq::<char>::empty(), ..s },
                    Action::Send(Reply::SendData),
                ),
                Verb::Quit => (SessionView { phase: Phase::Closed, ..s }, Action::Close),
                Verb::Unknown => (s, Action::Send(Reply::NotImplemented)),
            }
        },
    }
}

/// The state when the connection ends: a message text that was being
/// received counts as complete.
pub open spec fn settle(s: SessionView) -> SessionView {
    if s.phase == Phase::Data {
        SessionView { phase: Phase::Closed, ..commit(s) }
    } else {
        SessionView { phase: Phase::Closed, ..s }
    }
}

/// The state after the given lines, one after the other.
pub open spec fn run(s: SessionView, lines: Seq<Seq<char>>) -> SessionView
    decreases lines.len(),
{
    if lines.len() == 0 {
        s
    } else {
        step(run(s, lines.drop_last()), lines.last()).0
    }
}

/// Whether two states differ at most in whether the channel offers the
/// upgrade to TLS.
pub open spec fn same_but_tls(a: SessionView, b: SessionView) -> bool {
    &&& a.from == b.from
    &&& a.to == b.to
    &&& a.body == b.body
    &&& a.pending == b.pending
    &&& a.phase == b.phase
}

/// Whether none of the lines asks a session that starts in state `s` on a
/// plain channel for the upgrade to TLS.
pub open spec fn asks_no_upgrade(s: SessionView, lines: Seq<Seq<char>>) -> bool
    decreases lines.len(),
{
    lines.len() > 0 ==> {
        &&& asks_no_upgrade(s, lines.drop_last())
        &&& !(run(s, lines.drop_last()).phase == Phase::Command && verb_of(
            trim_end(lines.last()),
            true,
        ) == Verb::StartTls)
    }
}

/// A session on an encrypted channel gathers from a line what a session on
/// a plain channel gathers from it, and answers alike but for the
/// capabilities it lists, unless the line asks for the upgrade.
pub proof fn lemma_step_same_on_both_channels(plain: SessionView, secured: SessionView, line: Seq<char>)
    requires
        same_but_tls(plain, secured),
        plain.offers_tls,
        !secured.offers_tls,
        !(plain.phase == Phase::Command && verb_of(trim_end(line), true) == Verb::StartTls),
    ensures
        same_but_tls(step(plain, line).0, step(secured, line).0),
        step(plain, line).0.offers_tls,
        !step(secured, line).0.offers_tls,
        step(plain, line).1 == step(secured, line).1 || (step(plain, line).1 == Action::Send(
            Reply::CapabilitiesWithStartTls,
        ) && step(secured, line).1 == Action::Send(Reply::Capabilities)),
{
}

/// The record that a session over an encrypted channel yields is the one
/// that a session over a plain channel yields from the same lines, where
/// none of them asks for the upgrade.
pub proof fn lemma_run_same_on_both_channels(
    plain: SessionView,
    secured: SessionView,
    lines: Seq<Seq<char>>,
)
    requires
        same_but_tls(plain, secured),
        plain.offers_tls,
        !secured.offers_tls,
        asks_no_upgrade(plain, lines),
    ensures
        same_but_tls(run(plain, lines), run(secured, lines)),
        run(plain, lines).offers_tls,
        !run(secured, lines).offers_tls,
        settle(run(plain, lines)).from == settle(run(secured, lines)).from,
        settle(run(plain, lines)).to == settle(run(secured, lines)).to,
        settle(run(plain, lines)).body == settle(run(secured, lines)).body,
    decreases lines.len(),
{
    if lines.len() > 0 {
        lemma_run_same_on_both_channels(plain, secured, lines.drop_last());
        lemma_step_same_on_both_channels(
            run(plain, lines.drop_last()),
            run(secured, lines.drop_last()),
            lines.last(),
        );
    }
}

/// What the command line `command` asks for.
pub fn parse_verb(command: &[char], offers_tls: bool) -> (verb: Verb)
    ensures
        verb == verb_of(command@, offers_tls),
{
    let ehlo = chars_of("EHLO");
    let helo = chars_of("HELO");
    let starttls = chars_of("STARTTLS");
    let mail_from = chars_of("MAIL FROM");
    let rcpt_to = chars_of("RCPT TO");
    let data = chars_of("DATA");
    let quit = chars_of("QUIT");
    if chars_start_with_ignore_ascii_case(command, ehlo.as_slice())
        || chars_start_with_ignore_ascii_case(command, helo.as_slice()) {
        Verb::Hello
    } else if offers_tls && chars_start_with_ignore_ascii_case(command, starttls.as_slice()) {
        Verb::StartTls
    } else if chars_start_with_ignore_ascii_case(command, mail_from.as_slice()) && command.len()
        >= MAIL_FROM_SKIP {
        Verb::MailFrom
    } else if chars_start_with_ignore_ascii_case(command, rcpt_to.as_slice()) && command.len()
        >= RCPT_TO_SKIP {
        Verb::RcptTo
    } else if chars_eq_ignore_ascii_case(command, data.as_slice()) {
        Verb::Data
    } else if chars_eq_ignore_ascii_case(command, quit.as_slice()) {
        Verb::Quit
    } else {
        Verb::Unknown
    }
}

/// The address that a command names.
pub fn parse_address_argument(command: &[char], skip: usize) -> (address: String)
    requires
        skip <= command.len(),
    ensures
        address@ == address_argument(command@, skip as int),
{
    let rest = slice_subrange(command, skip, command.len());
    assert(rest@ =~= command@.skip(skip as int));
    let unopened = chars_remove(rest, '<');
    let bare = chars_remove(unopened.as_slice(), '>');
    string_of(bare.as_slice())
}

/// One SMTP session.
#[derive(Debug)]
pub struct Session {
    from: AddressSet,
    to: AddressSet,
    body: String,
    pending: String,
    phase: Phase,
    offers_tls: bool,
}

impl View for Session {
    type V = SessionView;

    closed spec fn view(&self) -> SessionView {
        SessionView {
            from: self.from@,
            to: self.to@,
            body: self.body@,
            pending: self.pending@,
            phase: self.phase,
            offers_tls: self.offers_tls,
        }
    }
}

impl Session {
    /// Both address sets hold each address once.
    pub closed spec fn wf(&self) -> bool {
        self.from.wf() && self.to.wf()
    }

    /// A session that awaits its first command. `offers_tls` says whether
    /// the channel is a plain one that can be upgraded.
    pub fn new(offers_tls: bool) -> (s: Session)
        ensures
            s.wf(),
            s@ == (SessionView {
                from: Set::<Seq<char>>::empty(),
                to: Set::<Seq<char>>::empty(),
                body: Seq::<char>::empty(),
                pending: Seq::<char>::empty(),
                phase: Phase::Command,
                offers_tls,
            }),
    {
        Session {
            from: AddressSet::new(),
            to: AddressSet::new(),
            body: String::new(),
            pending: String::new(),
            phase: Phase::Command,
            offers_tls,
        }
    }

    /// The reply that greets the client when the connection is accepted.
    pub fn greeting() -> (r: Reply)
        ensures
            r == Reply::ServiceReady,
    {
        Reply::ServiceReady
    }

    /// Where the session stands.
    pub fn phase(&self) -> (p: Phase)
        ensures
            p == self@.phase,
    {
        self.phase
    }

    fn commit_pending(&mut self)
        ensures
            old(self).wf() ==> final(self).wf(),
            final(self)@ == commit(old(self)@),
    {
        let (from, to) = get_data_from_to(self.pending.as_str());
        self.from.extend(&from);
        self.to.extend(&to);
        self.body = self.pending.clone();
        self.pending = String::new();
        self.phase = Phase::Command;
    }

    /// Takes one line from the client, line ending included, and says what
    /// the server does next.
    pub fn on_line(&mut self, line: &str) -> (action: Action)
        ensures
            old(self).wf() ==> final(self).wf(),
            final(self)@ == step(old(self)@, line@).0,
            action == step(old(self)@, line@).1,
    {
        let chars = chars_of(line);
        let command = chars_trim_end(chars.as_slice());
        match self.phase {
            Phase::Closed => Action::Close,
            Phase::Data => {
                let dot = chars_of(".");
                if chars_eq(command, dot.as_slice()) {
                    self.commit_pending();
                    Action::Send(Reply::Accepted)
                } else {
                    self.pending.append(line);
                    Action::Nothing
                }
            },
            Phase::Command => {
                match parse_verb(command, self.offers_tls) {
                    Verb::Hello => Action::Send(
                        if self.offers_tls {
                            Reply::CapabilitiesWithStartTls
                        } else {
                            Reply::Capabilities
                        },
                    ),
                    Verb::StartTls => {
                        self.phase = Phase::Closed;
                        Action::Upgrade
                    },
                    Verb::MailFrom => {
                        self.from.insert(parse_address_argument(command, MAIL_FROM_SKIP));
                        Action::Send(Reply::Accepted)
                    },
                    Verb::RcptTo => {
                        self.to.insert(parse_address_argument(command, RCPT_TO_SKIP));
                        Action::Send(Reply::Accepted)
                    },
                    Verb::Data => {
                        self.phase = Phase::Data;
                        self.pending = String::new();
                        Action::Send(Reply::SendData)
                    },
                    Verb::Quit => {
                        self.phase = Phase::Closed;
                        Action::Close
                    },
                    Verb::Unknown => Action::Send(Reply::NotImplemented),
                }
            },
        }
    }

    /// Ends the session and makes the record of what it gathered, with the
    /// identifier `id`, which the generator has issued for it. A message
    /// text that was still being received when the connection ended counts
    /// as complete. A caller that has to wait for the generator asks it
    /// until it issues an identifier, and then calls this.
    pub fn finish_with(self, id: u128) -> (mail: Mail)
        ensures
            self.wf() ==> mail.wf(),
            mail.from@ == settle(self@).from,
            mail.to@ == settle(self@).to,
            mail.data@ == settle(self@).body,
            mail.id == id,
    {
        let mut session = self;
        if session.phase == Phase::Data {
            session.commit_pending();
        }
        Mail { from: session.from, to: session.to, data: session.body, id }
    }

    /// Ends the session and makes the record of what it gathered, with the
    /// next identifier of `generator`. A message text that was still being
    /// received when the connection ended counts as complete. Where the
    /// generator refuses, what was gathered is given up with the session.
    pub fn finish(self, generator: &mut Snowflake) -> (r: Result<Mail, IdError>)
        ensures
            final(generator).wf(),
            r is Err ==> *final(generator) == *old(generator),
            r is Ok ==> {
                &&& self.wf() ==> r->Ok_0.wf()
                &&& r->Ok_0.from@ == settle(self@).from
                &&& r->Ok_0.to@ == settle(self@).to
                &&& r->Ok_0.data@ == settle(self@).body
                &&& final(generator).has_issued()
                &&& r->Ok_0.id == final(generator).last_id()
                &&& timestamp_of(r->Ok_0.id) == final(generator).last_timestamp()
            },
            r is Ok && old(generator).has_issued() && final(generator).last_timestamp() >= old(
                generator,
            ).last_timestamp() ==> r->Ok_0.id > old(generator).last_id(),
    {
        let mut session = self;
        if session.phase == Phase::Data {
            session.commit_pending();
        }
        Mail::new(generator, session.from, session.to, session.body)
    }
}

} // verus!
