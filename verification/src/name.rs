//! Query names below the zone: an optional SRV prefix and a container name.

use vstd::prelude::*;
use vstd::string::*;

use crate::text::{chars_of, find_from, same};

verus! {

/// Transport protocol of an SRV name (`_tcp` / `_udp`) or an exposed port.
#[derive(Clone, Copy, Debug, PartialEq, Eq, PartialOrd, Ord, Structural)]
pub enum Proto {
    Tcp,
    Udp,
}

/// A query name with the root domain already stripped, split into an
/// optional SRV prefix and the container name:
/// `_http._tcp.weft` -> service "http", proto Tcp, name "weft";
/// `weft` -> no service, proto Tcp, name "weft".
#[derive(Debug, PartialEq, Eq)]
pub struct ParsedName<'a> {
    pub service: Option<&'a str>,
    pub proto: Proto,
    pub name: &'a str,
}

/// What a `ParsedName` holds, as text.
pub struct ParsedText {
    pub service: Option<Seq<char>>,
    pub proto: Proto,
    pub name: Seq<char>,
}

impl<'a> View for ParsedName<'a> {
    type V = ParsedText;

    open spec fn view(&self) -> ParsedText {
        ParsedText {
            service: match self.service {
                Some(s) => Some(s@),
                None => None,
            },
            proto: self.proto,
            name: self.name@,
        }
    }
}

/// The protocol that a label names.
pub open spec fn proto_label(label: Seq<char>) -> Option<Proto> {
    if label == "_tcp"@ {
        Some(Proto::Tcp)
    } else if label == "_udp"@ {
        Some(Proto::Udp)
    } else {
        None
    }
}

/// The reading of a name: without a leading `_` it is a container name as it
/// stands; with one it is `_<service>._<proto>.<name>`, where the service is
/// the first label, the protocol the second, and neither the service nor the
/// name is empty.
pub open spec fn parsed(s: Seq<char>) -> Option<ParsedText> {
    if s.len() == 0 {
        None
    } else if s[0] != '_' {
        Some(ParsedText { service: None, proto: Proto::Tcp, name: s })
    } else {
        match s.index_of_first('.') {
            None => None,
            Some(i) => {
                let rest = s.skip(i + 1);
                match rest.index_of_first('.') {
                    None => None,
                    Some(j) => {
                        let service = s.subrange(1, i);
                        let name = rest.skip(j + 1);
                        match proto_label(rest.take(j)) {
                            Some(proto) if service.len() > 0 && name.len() > 0 => Some(
                                ParsedText { service: Some(service), proto, name },
                            ),
                            _ => None,
                        }
                    },
                }
            },
        }
    }
}

/// Splits a stripped query name. `None` means: no container can have it.
pub fn parse_name(stripped: &str) -> (r: Option<ParsedName<'_>>)
    ensures
        match r {
            Some(p) => parsed(stripped@) == Some(p@),
            None => parsed(stripped@) is None,
        },
{
    let chars = chars_of(stripped);
    if chars.len() == 0 {
        return None;
    }
    if chars[0] != '_' {
        return Some(ParsedName { service: None, proto: Proto::Tcp, name: stripped });
    }
    let ghost s = stripped@;
    assert(s.skip(0) == s);
    let i = match find_from(&chars, '.', 0) {
        Some(i) => i,
        None => {
            return None;
        },
    };
    proof {
        s.index_of_first_ensures('.');
    }
    let j = match find_from(&chars, '.', i + 1) {
        Some(j) => j,
        None => {
            return None;
        },
    };
    let ghost rest = s.skip(i + 1);
    assert(rest.take(j - i - 1) == s.subrange(i + 1, j as int));
    assert(rest.skip(j - i) == s.subrange(j + 1, s.len() as int));
    let label = stripped.substring_char(i + 1, j);
    let proto = if same(label, "_tcp") {
        Proto::Tcp
    } else if same(label, "_udp") {
        Proto::Udp
    } else {
        return None;
    };
    let service = stripped.substring_char(1, i);
    let name = stripped.substring_char(j + 1, chars.len());
    if service.is_empty() || name.is_empty() {
        return None;
    }
    Some(ParsedName { service: Some(service), proto, name })
}

/// A text that does not begin with `_` is a container name as it stands, dots
/// included, over TCP and without a service.
pub proof fn plain_name_is_kept(name: Seq<char>)
    requires
        name.len() > 0,
        name[0] != '_',
    ensures
        parsed(name) == Some(ParsedText { service: None, proto: Proto::Tcp, name }),
{
}

/// The text of an SRV name.
pub open spec fn srv_text(service: Seq<char>, proto: Proto, name: Seq<char>) -> Seq<char> {
    let label = match proto {
        Proto::Tcp => "_tcp"@,
        Proto::Udp => "_udp"@,
    };
    seq!['_'] + service + seq!['.'] + label + seq!['.'] + name
}

/// Reading `_<service>._<proto>.<name>` gives back its three parts, whatever
/// they are, as long as the service is not empty and has no dot and the name
/// is not empty.
pub proof fn srv_name_is_split(service: Seq<char>, proto: Proto, name: Seq<char>)
    requires
        service.len() > 0,
        !service.contains('.'),
        name.len() > 0,
    ensures
        parsed(srv_text(service, proto, name)) == Some(
            ParsedText { service: Some(service), proto, name },
        ),
{
    reveal_strlit("_tcp");
    reveal_strlit("_udp");
    let label = match proto {
        Proto::Tcp => "_tcp"@,
        Proto::Udp => "_udp"@,
    };
    let s = srv_text(service, proto, name);
    let i = service.len() as int + 1;
    assert(s[i] == '.');
    s.index_of_first_ensures('.');
    assert forall|k: int| 0 <= k < i implies s[k] != '.' by {
        if k > 0 {
            assert(s[k] == service[k - 1]);
        }
    }
    assert(s.index_of_first('.') == Some(i));
    let rest = s.skip(i + 1);
    assert(rest =~= label + seq!['.'] + name);
    rest.index_of_first_ensures('.');
    assert(rest[4] == '.');
    assert(rest[0] == label[0] && rest[1] == label[1] && rest[2] == label[2] && rest[3] == label[3]);
    assert(rest.index_of_first('.') == Some(4int));
    assert(s.subrange(1, i) =~= service);
    assert(rest.take(4) =~= label);
    assert("_tcp"@[1] != "_udp"@[1]);
    assert(rest.skip(5) =~= name);
}

/// Nothing else is read as an SRV name: a reading with a service is the
/// reading of the text made from its parts.
pub proof fn srv_reading_is_faithful(s: Seq<char>, p: ParsedText)
    requires
        parsed(s) == Some(p),
        p.service is Some,
    ensures
        s == srv_text(p.service->0, p.proto, p.name),
        p.service->0.len() > 0,
        !p.service->0.contains('.'),
        p.name.len() > 0,
{
    s.index_of_first_ensures('.');
    let i = s.index_of_first('.')->0;
    let rest = s.skip(i + 1);
    rest.index_of_first_ensures('.');
    let j = rest.index_of_first('.')->0;
    let label = rest.take(j);
    let service = p.service->0;
    assert forall|k: int| 0 <= k < service.len() implies service[k] != '.' by {
        assert(service[k] == s[k + 1]);
    }
    assert(label == (match p.proto {
        Proto::Tcp => "_tcp"@,
        Proto::Udp => "_udp"@,
    }));
    assert(rest =~= label + seq!['.'] + p.name);
    assert(s =~= seq!['_'] + service + seq!['.'] + rest);
    assert(s =~= srv_text(service, p.proto, p.name));
}

/// Nothing is no name, and what begins with `_` is an SRV name or none.
pub proof fn underscore_is_for_services(s: Seq<char>)
    ensures
        s.len() == 0 ==> parsed(s) is None,
        s.len() > 0 && s[0] == '_' && parsed(s) is Some ==> parsed(s)->0.service is Some,
{
}

/// The view of a parsed name is the text of its parts.
pub proof fn parsed_name_is_its_parts(p: ParsedName<'_>)
    ensures
        p@.name == p.name@,
        p@.proto == p.proto,
        p@.service is Some <==> p.service is Some,
        p.service is Some ==> p@.service->0 == p.service->0@,
{
}

} // verus!
