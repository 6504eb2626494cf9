//! Ports, the protocols they belong to, and how both are written.
use vstd::prelude::*;

use crate::text::{
    chars_of, find_char, first_index, format_integer, integer_text, integer_text_reads_back,
    is_digit, joined, lemma_decimal_digits, lemma_first_index_is, parse_integer, parsed_integer,
    same_text, string_of,
};

verus! {

/// A text could not be read as a Zeek value.
#[derive(Debug, Clone, PartialEq)]
pub enum ParseError {
    InvalidPort(String),
    InvalidPortNumber(String),
    InvalidProtocol(String),
    InvalidTimespanUnit(String),
    InvalidTimestamp(String),
}

/// A [`ParseError`] with the text that it is about.
pub enum ParseErrorView {
    InvalidPort(Seq<char>),
    InvalidPortNumber(Seq<char>),
    InvalidProtocol(Seq<char>),
    InvalidTimespanUnit(Seq<char>),
    InvalidTimestamp(Seq<char>),
}

impl ParseErrorView {
    /// What a reader of the error is told.
    pub open spec fn text(self) -> Seq<char> {
        match self {
            ParseErrorView::InvalidPort(s) => "invalid port '"@ + s + "'"@,
            ParseErrorView::InvalidPortNumber(s) => "invalid port number '"@ + s + "'"@,
            ParseErrorView::InvalidProtocol(s) => "invalid protocol '"@ + s + "'"@,
            ParseErrorView::InvalidTimespanUnit(s) => "invalid timespan unit '"@ + s + "'"@,
            ParseErrorView::InvalidTimestamp(s) => "invalid timestamp: "@ + s + ""@,
        }
    }
}

impl ParseError {
    /// An error is seen as the one that it is, with the text that it is about.
    pub proof fn errors_are_seen(self)
        ensures
            self matches ParseError::InvalidPort(s) ==> self@ == ParseErrorView::InvalidPort(s@),
            self matches ParseError::InvalidPortNumber(s) ==> self@
                == ParseErrorView::InvalidPortNumber(s@),
            self matches ParseError::InvalidProtocol(s) ==> self@
                == ParseErrorView::InvalidProtocol(s@),
            self matches ParseError::InvalidTimespanUnit(s) ==> self@
                == ParseErrorView::InvalidTimespanUnit(s@),
            self matches ParseError::InvalidTimestamp(s) ==> self@
                == ParseErrorView::InvalidTimestamp(s@),
    {
    }
}

impl View for ParseError {
    type V = ParseErrorView;

    open spec fn view(&self) -> ParseErrorView {
        match self {
            ParseError::InvalidPort(s) => ParseErrorView::InvalidPort(s@),
            ParseError::InvalidPortNumber(s) => ParseErrorView::InvalidPortNumber(s@),
            ParseError::InvalidProtocol(s) => ParseErrorView::InvalidProtocol(s@),
            ParseError::InvalidTimespanUnit(s) => ParseErrorView::InvalidTimespanUnit(s@),
            ParseError::InvalidTimestamp(s) => ParseErrorView::InvalidTimestamp(s@),
        }
    }
}

impl ParseError {
    /// Describes the error.
    pub fn to_string(&self) -> (r: String)
        ensures
            r@ == self@.text(),
    {
        match self {
            ParseError::InvalidPort(s) => joined("invalid port '", s.as_str(), "'"),
            ParseError::InvalidPortNumber(s) => joined("invalid port number '", s.as_str(), "'"),
            ParseError::InvalidProtocol(s) => joined("invalid protocol '", s.as_str(), "'"),
            ParseError::InvalidTimespanUnit(s) => joined(
                "invalid timespan unit '",
                s.as_str(),
                "'",
            ),
            ParseError::InvalidTimestamp(s) => joined("invalid timestamp: ", s.as_str(), ""),
        }
    }
}

/// A network protocol understood by Zeek.
#[derive(Debug, Clone, Copy, PartialEq, Eq, PartialOrd, Ord, Hash, Structural)]
pub enum Protocol {
    TCP,
    UDP,
    ICMP,
    UNKNOWN,
}

impl Protocol {
    /// How the protocol is written.
    pub open spec fn text(self) -> Seq<char> {
        match self {
            Protocol::TCP => "tcp"@,
            Protocol::UDP => "udp"@,
            Protocol::ICMP => "icmp"@,
            Protocol::UNKNOWN => "?"@,
        }
    }

    /// The protocol that is written so.
    pub open spec fn parsed(s: Seq<char>) -> Result<Protocol, ParseErrorView> {
        if s == "tcp"@ {
            Ok(Protocol::TCP)
        } else if s == "udp"@ {
            Ok(Protocol::UDP)
        } else if s == "icmp"@ {
            Ok(Protocol::ICMP)
        } else if s == "?"@ {
            Ok(Protocol::UNKNOWN)
        } else {
            Err(ParseErrorView::InvalidProtocol(s))
        }
    }

    /// Place among the protocols.
    pub open spec fn rank(self) -> int {
        match self {
            Protocol::TCP => 0,
            Protocol::UDP => 1,
            Protocol::ICMP => 2,
            Protocol::UNKNOWN => 3,
        }
    }

    pub fn rank_of(&self) -> (r: u8)
        ensures
            r == self.rank(),
    {
        match self {
            Protocol::TCP => 0,
            Protocol::UDP => 1,
            Protocol::ICMP => 2,
            Protocol::UNKNOWN => 3,
        }
    }

    /// The name of the protocol.
    pub fn to_string(&self) -> (r: String)
        ensures
            r@ == self.text(),
    {
        match self {
            Protocol::TCP => "tcp".to_owned(),
            Protocol::UDP => "udp".to_owned(),
            Protocol::ICMP => "icmp".to_owned(),
            Protocol::UNKNOWN => "?".to_owned(),
        }
    }

    /// Reads a protocol name.
    pub fn from_str(s: &str) -> (r: Result<Protocol, ParseError>)
        ensures
            match r {
                Ok(p) => Protocol::parsed(s@) == Ok::<Protocol, ParseErrorView>(p),
                Err(e) => Protocol::parsed(s@) == Err::<Protocol, ParseErrorView>(e@),
            },
    {
        if same_text(s, "tcp") {
            Ok(Protocol::TCP)
        } else if same_text(s, "udp") {
            Ok(Protocol::UDP)
        } else if same_text(s, "icmp") {
            Ok(Protocol::ICMP)
        } else if same_text(s, "?") {
            Ok(Protocol::UNKNOWN)
        } else {
            Err(ParseError::InvalidProtocol(s.to_owned()))
        }
    }

    /// A protocol is read back from its name.
    pub proof fn text_reads_back(self)
        ensures
            Protocol::parsed(self.text()) == Ok::<Protocol, ParseErrorView>(self),
    {
        reveal_strlit("tcp");
        reveal_strlit("udp");
        reveal_strlit("icmp");
        reveal_strlit("?");
        assert("tcp"@[0] != "udp"@[0]);
        assert("icmp"@.len() != "tcp"@.len());
        assert("icmp"@.len() != "udp"@.len());
        assert("?"@.len() != "tcp"@.len());
        assert("?"@.len() != "udp"@.len());
        assert("?"@.len() != "icmp"@.len());
    }
}

impl std::str::FromStr for Protocol {
    type Err = ParseError;

    fn from_str(s: &str) -> (r: Result<Protocol, ParseError>)
        ensures
            match r {
                Ok(p) => Protocol::parsed(s@) == Ok::<Protocol, ParseErrorView>(p),
                Err(e) => Protocol::parsed(s@) == Err::<Protocol, ParseErrorView>(e@),
            },
    {
        Protocol::from_str(s)
    }
}

/// A Zeek port, which holds both a port number and a protocol.
#[derive(Debug, Clone, Copy, PartialEq, Eq, PartialOrd, Ord, Hash, Structural)]
pub struct Port {
    number: u16,
    protocol: Protocol,
}

impl Port {
    pub closed spec fn spec_number(self) -> u16 {
        self.number
    }

    pub closed spec fn spec_protocol(self) -> Protocol {
        self.protocol
    }

    /// How the port is written: its number, a slash and its protocol.
    pub open spec fn text(self) -> Seq<char> {
        integer_text(self.spec_number() as int) + "/"@ + self.spec_protocol().text()
    }

    /// The port with this number and protocol.
    pub closed spec fn of(number: u16, protocol: Protocol) -> Port {
        Port { number, protocol }
    }

    /// The port that a text stands for. The first slash parts the number from the protocol.
    pub open spec fn parsed(s: Seq<char>) -> Result<Port, ParseErrorView> {
        match first_index(s, '/') {
            None => Err(ParseErrorView::InvalidPort(s)),
            Some(i) => match parsed_integer(s.take(i), 0, 0xffff) {
                Err(_) => Err(ParseErrorView::InvalidPortNumber(s.take(i))),
                Ok(n) => match Protocol::parsed(s.skip(i + 1)) {
                    Err(e) => Err(e),
                    Ok(p) => Ok(Port::of(n as u16, p)),
                },
            },
        }
    }

    /// A port is its number and its protocol, and nothing else.
    pub broadcast proof fn lemma_parts(self)
        ensures
            Port::of(#[trigger] self.spec_number(), self.spec_protocol()) == self,
    {
    }

    #[must_use]
    pub fn new(number: u16, protocol: Protocol) -> (r: Port)
        ensures
            r == Port::of(number, protocol),
            r.spec_number() == number,
            r.spec_protocol() == protocol,
    {
        Port { number, protocol }
    }

    #[must_use]
    pub fn number(&self) -> (r: u16)
        ensures
            r == self.spec_number(),
    {
        self.number
    }

    #[must_use]
    pub fn protocol(&self) -> (r: Protocol)
        ensures
            r == self.spec_protocol(),
    {
        self.protocol
    }

    /// The port in writing.
    pub fn to_string(&self) -> (r: String)
        ensures
            r@ == self.text(),
    {
        let number = format_integer(self.number as i64);
        let protocol = self.protocol.to_string();
        joined(number.as_str(), "/", protocol.as_str())
    }

    /// Reads a port.
    pub fn from_str(s: &str) -> (r: Result<Port, ParseError>)
        ensures
            match r {
                Ok(p) => Port::parsed(s@) == Ok::<Port, ParseErrorView>(p),
                Err(e) => Port::parsed(s@) == Err::<Port, ParseErrorView>(e@),
            },
    {
        let cs = chars_of(s);
        match find_char(&cs, '/') {
            None => Err(ParseError::InvalidPort(s.to_owned())),
            Some(i) => {
                assert(cs@.subrange(0, i as int) =~= s@.take(i as int));
                assert(cs@.subrange(i + 1, cs@.len() as int) =~= s@.skip(i + 1));
                match parse_integer(&cs, 0, i, 0, 0xffff) {
                    Err(_) => Err(ParseError::InvalidPortNumber(string_of(&cs, 0, i))),
                    Ok(n) => {
                        let rest = string_of(&cs, i + 1, cs.len());
                        match Protocol::from_str(rest.as_str()) {
                            Err(e) => Err(e),
                            Ok(p) => Ok(Port::new(n as u16, p)),
                        }
                    },
                }
            },
        }
    }

    /// A port is read back from what is written for it.
    pub proof fn text_reads_back(self)
        ensures
            Port::parsed(self.text()) == Ok::<Port, ParseErrorView>(self),
    {
        let number = integer_text(self.number as int);
        let s = self.text();
        let at = number.len() as int;
        reveal_strlit("/");
        lemma_decimal_digits(self.number as nat);
        assert(s[at] == '/');
        assert forall|j: int| 0 <= j < at implies s[j] != '/' by {
            assert(is_digit(number[j]));
        }
        lemma_first_index_is(s, '/', at);
        assert(s.take(at) =~= number);
        assert(s.skip(at + 1) =~= self.protocol.text());
        integer_text_reads_back(self.number as int, 0, 0xffff);
        self.protocol.text_reads_back();
    }

    /// A port is written as its number in decimal, a slash, and `tcp`, `udp`, `icmp` or a question
    /// mark, and a port that is written so has that number and that protocol.
    pub proof fn ports_in_writing(number: u16)
        ensures
            Port::of(number, Protocol::TCP).text() == integer_text(number as int) + "/tcp"@,
            Port::of(number, Protocol::UDP).text() == integer_text(number as int) + "/udp"@,
            Port::of(number, Protocol::ICMP).text() == integer_text(number as int) + "/icmp"@,
            Port::of(number, Protocol::UNKNOWN).text() == integer_text(number as int) + "/?"@,
            Port::parsed(integer_text(number as int) + "/tcp"@) == Ok::<Port, ParseErrorView>(
                Port::of(number, Protocol::TCP),
            ),
            Port::parsed(integer_text(number as int) + "/udp"@) == Ok::<Port, ParseErrorView>(
                Port::of(number, Protocol::UDP),
            ),
            Port::parsed(integer_text(number as int) + "/icmp"@) == Ok::<Port, ParseErrorView>(
                Port::of(number, Protocol::ICMP),
            ),
            Port::parsed(integer_text(number as int) + "/?"@) == Ok::<Port, ParseErrorView>(
                Port::of(number, Protocol::UNKNOWN),
            ),
            forall|p: Protocol| #[trigger]
                Port::of(number, p).spec_number() == number && Port::of(number, p).spec_protocol()
                    == p,
    {
        reveal_strlit("/");
        reveal_strlit("tcp");
        reveal_strlit("udp");
        reveal_strlit("icmp");
        reveal_strlit("?");
        reveal_strlit("/tcp");
        reveal_strlit("/udp");
        reveal_strlit("/icmp");
        reveal_strlit("/?");
        let n = integer_text(number as int);
        Port::of(number, Protocol::TCP).text_reads_back();
        Port::of(number, Protocol::UDP).text_reads_back();
        Port::of(number, Protocol::ICMP).text_reads_back();
        Port::of(number, Protocol::UNKNOWN).text_reads_back();
        assert(n + "/"@ + "tcp"@ =~= n + "/tcp"@);
        assert(n + "/"@ + "udp"@ =~= n + "/udp"@);
        assert(n + "/"@ + "icmp"@ =~= n + "/icmp"@);
        assert(n + "/"@ + "?"@ =~= n + "/?"@);
    }

    /// The first slash parts a port: what stands in front of it has to be a number that fits 16
    /// bits, and what stands behind it a protocol. The number is looked at first, and a text
    /// without a slash is no port.
    pub proof fn slash_parts_ports(a: Seq<char>, b: Seq<char>)
        requires
            !a.contains('/'),
        ensures
            Port::parsed(a) == Err::<Port, ParseErrorView>(ParseErrorView::InvalidPort(a)),
            parsed_integer(a, 0, 0xffff) is Err ==> Port::parsed(a + "/"@ + b) == Err::<
                Port,
                ParseErrorView,
            >(ParseErrorView::InvalidPortNumber(a)),
            parsed_integer(a, 0, 0xffff) matches Ok(n) ==> match Protocol::parsed(b) {
                Ok(p) => Port::parsed(a + "/"@ + b) == Ok::<Port, ParseErrorView>(
                    Port::of(n as u16, p),
                ),
                Err(_) => Port::parsed(a + "/"@ + b) == Err::<Port, ParseErrorView>(
                    ParseErrorView::InvalidProtocol(b),
                ),
            },
    {
        reveal_strlit("/");
        let s = a + "/"@ + b;
        let at = a.len() as int;
        assert forall|j: int| 0 <= j < a.len() implies a[j] != '/' by {
            assert(a.contains(a[j]));
        }
        crate::text::lemma_first_index_none(a, '/');
        assert(s[at] == '/');
        lemma_first_index_is(s, '/', at);
        assert(s.take(at) =~= a);
        assert(s.skip(at + 1) =~= b);
    }
}

impl Protocol {
    /// There are four protocols; any other text is refused with the text itself.
    pub proof fn protocols_in_writing(s: Seq<char>)
        ensures
            Protocol::parsed("tcp"@) == Ok::<Protocol, ParseErrorView>(Protocol::TCP),
            Protocol::parsed("udp"@) == Ok::<Protocol, ParseErrorView>(Protocol::UDP),
            Protocol::parsed("icmp"@) == Ok::<Protocol, ParseErrorView>(Protocol::ICMP),
            Protocol::parsed("?"@) == Ok::<Protocol, ParseErrorView>(Protocol::UNKNOWN),
            s != "tcp"@ && s != "udp"@ && s != "icmp"@ && s != "?"@ ==> Protocol::parsed(s)
                == Err::<Protocol, ParseErrorView>(ParseErrorView::InvalidProtocol(s)),
            Protocol::parsed(s) matches Ok(p) ==> p.text() == s,
    {
        Protocol::TCP.text_reads_back();
        Protocol::UDP.text_reads_back();
        Protocol::ICMP.text_reads_back();
        Protocol::UNKNOWN.text_reads_back();
    }
}

impl ParseErrorView {
    /// What a reader is told names the text that is to blame.
    pub proof fn errors_name_their_text(s: Seq<char>)
        ensures
            ParseErrorView::InvalidPort(s).text() == "invalid port '"@ + s + "'"@,
            ParseErrorView::InvalidPortNumber(s).text() == "invalid port number '"@ + s + "'"@,
            ParseErrorView::InvalidProtocol(s).text() == "invalid protocol '"@ + s + "'"@,
            ParseErrorView::InvalidTimespanUnit(s).text() == "invalid timespan unit '"@ + s + "'"@,
            ParseErrorView::InvalidTimestamp(s).text() == "invalid timestamp: "@ + s,
    {
        reveal_strlit("");
        assert("invalid timestamp: "@ + s + ""@ =~= "invalid timestamp: "@ + s);
    }
}

impl std::str::FromStr for Port {
    type Err = ParseError;

    fn from_str(s: &str) -> (r: Result<Port, ParseError>)
        ensures
            match r {
                Ok(p) => Port::parsed(s@) == Ok::<Port, ParseErrorView>(p),
                Err(e) => Port::parsed(s@) == Err::<Port, ParseErrorView>(e@),
            },
    {
        Port::from_str(s)
    }
}

} // verus!
