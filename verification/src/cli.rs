//! The settings of the server, as the command line gives them.

use crate::text::{chars_of, chars_parse_decimal, parse_decimal, split, split_chars, views};
use vstd::prelude::*;
use vstd::string::StringExecFns;

verus! {

/// The settings of the server.
#[derive(Debug)]
pub struct Args {
    /// Whether the help text was asked for.
    pub help: bool,
    /// The ports to take SMTP connections on, separated by commas.
    pub smtp_port: String,
    /// The port to take HTTP connections on.
    pub http_ports: u16,
    /// The key that gives access to the HTTP API.
    pub key: String,
    /// How many minutes a record is kept; `None` keeps it for good.
    pub lifetime: Option<u16>,
}

impl Default for Args {
    fn default() -> (args: Args)
        ensures
            !args.help,
            args.smtp_port@ == "2525"@,
            args.http_ports == 8080,
            args.key@ == "prouteur"@,
            args.lifetime is None,
    {
        Args {
            help: false,
            smtp_port: String::from_str("2525"),
            http_ports: 8080,
            key: String::from_str("prouteur"),
            lifetime: None,
        }
    }
}

/// The port that decimal digits write.
pub open spec fn port_of(text: Seq<char>) -> Option<u16> {
    match parse_decimal(text, u16::MAX as nat) {
        Some(n) => Some(n as u16),
        None => None,
    }
}

/// The ports that the pieces write, where each of them writes one.
pub open spec fn ports_of(pieces: Seq<Seq<char>>) -> Option<Seq<u16>>
    decreases pieces.len(),
{
    if pieces.len() == 0 {
        Some(Seq::<u16>::empty())
    } else {
        match (port_of(pieces[0]), ports_of(pieces.drop_first())) {
            (Some(port), Some(rest)) => Some(seq![port] + rest),
            _ => None,
        }
    }
}

/// `rest` after `done`, where there is a `rest`.
pub open spec fn after(done: Seq<u16>, rest: Option<Seq<u16>>) -> Option<Seq<u16>> {
    match rest {
        Some(rest) => Some(done + rest),
        None => None,
    }
}

/// The ports that a list of numbers separated by commas names; nothing
/// where a piece of the list is no port number.
pub fn parse_ports(list: &str) -> (r: Option<Vec<u16>>)
    ensures
        match ports_of(split(list@, ',')) {
            Some(ports) => r is Some && r->Some_0@ == ports,
            None => r is None,
        },
{
    let chars = chars_of(list);
    let pieces = split_chars(chars.as_slice(), ',');
    let ghost all = views(pieces@);
    let mut ports: Vec<u16> = Vec::new();
    let mut i: usize = 0;
    assert(all.skip(0) =~= all);
    assert(after(ports@, ports_of(all)) == ports_of(all)) by {
        if ports_of(all) is Some {
            assert(ports@ + ports_of(all)->Some_0 =~= ports_of(all)->Some_0);
        }
    }
    while i < pieces.len()
        invariant
            i <= pieces.len(),
            all == views(pieces@),
            all == split(list@, ','),
            ports_of(all) == after(ports@, ports_of(all.skip(i as int))),
        decreases pieces.len() - i,
    {
        let ghost rest = all.skip(i as int);
        let ghost before = ports@;
        assert(rest[0] == pieces@[i as int]@);
        assert(rest.drop_first() =~= all.skip(i + 1));
        match chars_parse_decimal(pieces[i].as_slice(), u16::MAX as u128) {
            Some(n) => {
                ports.push(n as u16);
                proof {
                    if ports_of(rest.drop_first()) is Some {
                        let tail = ports_of(rest.drop_first())->Some_0;
                        assert(before + (seq![n as u16] + tail) =~= ports@ + tail);
                    }
                }
            },
            None => {
                return None;
            },
        }
        i = i + 1;
    }
    assert(all.skip(i as int) =~= Seq::<Seq<char>>::empty());
    assert(ports@ + Seq::<u16>::empty() =~= ports@);
    Some(ports)
}

} // verus!
