//! What a connection string names: a transport and what is needed to open it.

use crate::numbers;
use crate::text;
use vstd::prelude::*;
use vstd::string::StringExecFns;

verus! {

/// A device and how it is reached.
#[derive(Debug, Clone, PartialEq, Eq)]
pub enum ConnectionTarget {
    Tcp { address: String },
    Rtu { path: String, baud_rate: u32 },
    TlsTcp { address: String },
}

/// What a [`ConnectionTarget`] says.
pub ghost enum Target {
    Tcp { address: Seq<char> },
    Rtu { path: Seq<char>, baud_rate: u32 },
    TlsTcp { address: Seq<char> },
}

impl View for ConnectionTarget {
    type V = Target;

    open spec fn view(&self) -> Target {
        match self {
            ConnectionTarget::Tcp { address } => Target::Tcp { address: address@ },
            ConnectionTarget::Rtu { path, baud_rate } => Target::Rtu {
                path: path@,
                baud_rate: *baud_rate,
            },
            ConnectionTarget::TlsTcp { address } => Target::TlsTcp { address: address@ },
        }
    }
}

/// The text that the `Debug` form of `str` gives: quoted, with escapes.
pub uninterp spec fn quoted(string: Seq<char>) -> Seq<char>;

/// Calls the `Debug` formatting of `str`, whose text depends on the characters
/// alone.
#[verifier::external_body]
fn quote(string: &str) -> (form: String)
    ensures
        form@ == quoted(string@),
{
    format!("{:?}", string)
}

/// The message of the error that `str::parse` gives for a text that is no `u32`.
pub uninterp spec fn number_error(string: Seq<char>) -> Seq<char>;

/// Calls `str::parse` for a `u32`, which accepts an optional `+` and decimal
/// digits, where their number fits; the message of its error depends on the
/// characters alone.
#[verifier::external_body]
fn parse_u32(string: &str) -> (number: Result<u32, String>)
    ensures
        number matches Ok(n) ==> numbers::unsigned_up_to(string@, 10, u32::MAX as nat) == Some(
            n as nat,
        ),
        number matches Err(message) ==> numbers::unsigned_up_to(
            string@,
            10,
            u32::MAX as nat,
        ) is None && message@ == number_error(string@),
{
    string.parse::<u32>().map_err(|error| error.to_string())
}

/// What follows `prefix` in `s`, where `s` starts with it.
pub open spec fn stripped(s: Seq<char>, prefix: Seq<char>) -> Option<Seq<char>> {
    if prefix.len() <= s.len() && s.take(prefix.len() as int) == prefix {
        Some(s.skip(prefix.len() as int))
    } else {
        None
    }
}

/// Where the last colon of `s` stands.
pub open spec fn last_colon(s: Seq<char>) -> Option<int>
    decreases s.len(),
{
    if s.len() == 0 {
        None
    } else if s.last() == ':' {
        Some(s.len() - 1)
    } else {
        last_colon(s.drop_last())
    }
}

/// That a serial line is named without a baud rate; `quoted_string` is the string
/// in quotes.
pub open spec fn no_rate(quoted_string: Seq<char>) -> Seq<char> {
    "rtu:// connection must be rtu://<path>:<baud-rate>, got "@ + quoted_string
}

/// That a baud rate is no number; `quoted_rate` is the rate in quotes, and `error`
/// says what is wrong with it.
pub open spec fn bad_rate(quoted_rate: Seq<char>, error: Seq<char>) -> Seq<char> {
    "invalid baud rate "@ + quoted_rate + ": "@ + error
}

/// That a string names no known transport; `quoted_string` is the string in quotes.
pub open spec fn bad_scheme(quoted_string: Seq<char>) -> Seq<char> {
    "connection must start with tcp://, tls+tcp://, or rtu://, got "@ + quoted_string
}

/// What a connection string names, or why it names nothing.
pub open spec fn target(string: Seq<char>) -> Result<Target, Seq<char>> {
    match (
        stripped(string, "tls+tcp://"@),
        stripped(string, "tcp://"@),
        stripped(string, "rtu://"@),
    ) {
        (Some(address), _, _) => Ok(Target::TlsTcp { address }),
        (_, Some(address), _) => Ok(Target::Tcp { address }),
        (_, _, Some(rest)) => match last_colon(rest) {
            None => Err(no_rate(quoted(string))),
            Some(at) => {
                let speed = rest.skip(at + 1);
                match numbers::unsigned_up_to(speed, 10, u32::MAX as nat) {
                    Some(baud_rate) => Ok(
                        Target::Rtu { path: rest.take(at), baud_rate: baud_rate as u32 },
                    ),
                    None => Err(bad_rate(quoted(speed), number_error(speed))),
                }
            },
        },
        _ => Err(bad_scheme(quoted(string))),
    }
}

/// What follows `prefix` in `chars`, where they start with it.
fn strip(chars: &[char], prefix: &str) -> (rest: Option<Vec<char>>)
    ensures
        rest is Some <==> stripped(chars@, prefix@) is Some,
        rest matches Some(r) ==> stripped(chars@, prefix@) == Some(r@),
{
    let front = text::chars_of(prefix);
    let n: usize = front.len();
    if n > chars.len() {
        return None;
    }
    if !text::same_chars(vstd::slice::slice_subrange(chars, 0, n), front.as_slice()) {
        assert(chars@.take(n as int) =~= chars@.subrange(0, n as int));
        return None;
    }
    assert(chars@.take(n as int) =~= chars@.subrange(0, n as int));
    let rest = vstd::slice::slice_subrange(chars, n, chars.len());
    assert(rest@ =~= chars@.skip(n as int));
    Some(vstd::slice::slice_to_vec(rest))
}

/// Where the last colon of `chars` stands.
fn find_last_colon(chars: &[char]) -> (at: Option<usize>)
    ensures
        at is Some <==> last_colon(chars@) is Some,
        at matches Some(i) ==> i < chars@.len() && last_colon(chars@) == Some(i as int),
{
    let mut i: usize = chars.len();
    assert(chars@.take(i as int) =~= chars@);
    while i > 0
        invariant
            i <= chars@.len(),
            last_colon(chars@) == last_colon(chars@.take(i as int)),
        decreases i,
    {
        assert(chars@.take(i as int).drop_last() =~= chars@.take(i - 1));
        if chars[i - 1] == ':' {
            return Some(i - 1);
        }
        i = i - 1;
    }
    None
}

/// The characters from `start` up to `end` as a string.
fn piece(chars: &[char], start: usize, end: usize) -> (string: String)
    requires
        start <= end <= chars@.len(),
    ensures
        string@ == chars@.subrange(start as int, end as int),
{
    text::string_of(vstd::slice::slice_subrange(chars, start, end))
}

/// That a serial line is named without a baud rate.
pub fn no_rate_message(quoted_string: &str) -> (message: String)
    ensures
        message@ == no_rate(quoted_string@),
{
    let mut message = String::from_str("rtu:// connection must be rtu://<path>:<baud-rate>, got ");
    message.append(quoted_string);
    message
}

/// That a baud rate is no number.
pub fn bad_rate_message(quoted_rate: &str, error: &str) -> (message: String)
    ensures
        message@ == bad_rate(quoted_rate@, error@),
{
    let mut message = String::from_str("invalid baud rate ");
    message.append(quoted_rate);
    message.append(": ");
    message.append(error);
    message
}

/// That a string names no known transport.
pub fn bad_scheme_message(quoted_string: &str) -> (message: String)
    ensures
        message@ == bad_scheme(quoted_string@),
{
    let mut message = String::from_str(
        "connection must start with tcp://, tls+tcp://, or rtu://, got ",
    );
    message.append(quoted_string);
    message
}

/// Reads a connection string.
pub fn parse_connection_string(connection_string: &str) -> (parsed: Result<
    ConnectionTarget,
    String,
>)
    ensures
        parsed matches Ok(t) ==> target(connection_string@) == Ok::<Target, Seq<char>>(t@),
        parsed matches Err(reason) ==> target(connection_string@) == Err::<Target, Seq<char>>(
            reason@,
        ),
{
    let chars = text::chars_of(connection_string);
    if let Some(address) = strip(chars.as_slice(), "tls+tcp://") {
        return Ok(ConnectionTarget::TlsTcp { address: text::string_of(address.as_slice()) });
    }
    if let Some(address) = strip(chars.as_slice(), "tcp://") {
        return Ok(ConnectionTarget::Tcp { address: text::string_of(address.as_slice()) });
    }
    if let Some(rest) = strip(chars.as_slice(), "rtu://") {
        let at: usize = match find_last_colon(rest.as_slice()) {
            Some(at) => at,
            None => return Err(no_rate_message(quote(connection_string).as_str())),
        };
        let path = piece(rest.as_slice(), 0, at);
        let speed = piece(rest.as_slice(), at + 1, rest.len());
        proof {
            assert(path@ =~= rest@.take(at as int));
            assert(speed@ =~= rest@.skip(at + 1));
        }
        match parse_u32(speed.as_str()) {
            Ok(baud_rate) => return Ok(ConnectionTarget::Rtu { path, baud_rate }),
            Err(message) => {
                return Err(bad_rate_message(quote(speed.as_str()).as_str(), message.as_str()));
            },
        }
    }
    Err(bad_scheme_message(quote(connection_string).as_str()))
}

/// The host in an address: what stands before its last colon, or all of it.
pub open spec fn host(address: Seq<char>) -> Seq<char> {
    match last_colon(address) {
        Some(at) => address.take(at),
        None => address,
    }
}

/// The host in `address`.
pub fn host_of(address: &str) -> (name: String)
    ensures
        name@ == host(address@),
{
    let chars = text::chars_of(address);
    match find_last_colon(chars.as_slice()) {
        Some(at) => {
            assert(chars@.subrange(0, at as int) =~= chars@.take(at as int));
            piece(chars.as_slice(), 0, at)
        },
        None => text::copy(address),
    }
}

proof fn lemma_last_colon(front: Seq<char>, back: Seq<char>)
    requires
        !back.contains(':'),
    ensures
        last_colon(front + seq![':'] + back) == Some(front.len() as int),
    decreases back.len(),
{
    let s = front + seq![':'] + back;
    if back.len() > 0 {
        let rest = back.drop_last();
        assert(back[back.len() - 1] != ':');
        assert(!rest.contains(':')) by {
            if rest.contains(':') {
                let i = rest.index_of(':');
                assert(back[i] == ':');
            }
        }
        assert(s.drop_last() =~= front + seq![':'] + rest);
        lemma_last_colon(front, rest);
    }
}

proof fn lemma_no_colon(n: nat)
    ensures
        !numbers::decimal(n).contains(':'),
    decreases n,
{
    if n >= 10 {
        lemma_no_colon(n / 10);
    }
    let s = numbers::decimal(n);
    if s.contains(':') {
        let i = s.index_of(':');
        if n >= 10 && i < s.len() - 1 {
            assert(numbers::decimal(n / 10)[i] == ':');
        }
    }
}

/// The string that names a serial line by any path and baud rate is read back as
/// that path and baud rate, whatever colons the path holds.
pub proof fn law_serial_line_reads_back(path: Seq<char>, baud_rate: u32)
    ensures
        target("rtu://"@ + path + ":"@ + numbers::decimal(baud_rate as nat)) == Ok::<
            Target,
            Seq<char>,
        >(Target::Rtu { path, baud_rate }),
{
    reveal_strlit("tls+tcp://");
    reveal_strlit("tcp://");
    reveal_strlit("rtu://");
    reveal_strlit(":");
    let digits = numbers::decimal(baud_rate as nat);
    let string = "rtu://"@ + path + ":"@ + digits;
    let rest = path + ":"@ + digits;
    assert(string.take(6) =~= "rtu://"@);
    assert(string.skip(6) =~= rest);
    assert(string[0] == 'r');
    if string.len() >= 10 {
        assert(string.take(10)[0] == 'r');
    }
    assert("tls+tcp://"@[0] == 't');
    assert(string.take(6)[0] == 'r');
    assert("tcp://"@[0] == 't');
    assert(":"@ =~= seq![':']);
    lemma_no_colon(baud_rate as nat);
    lemma_last_colon(path, digits);
    assert(rest.skip(path.len() as int + 1) =~= digits);
    assert(rest.take(path.len() as int) =~= path);
    numbers::lemma_decimal_value(baud_rate as nat);
    assert(digits[0] != '+');
}

/// The strings that name an address by either scheme are read back as that
/// address.
pub proof fn law_addresses_read_back(address: Seq<char>)
    ensures
        target("tcp://"@ + address) == Ok::<Target, Seq<char>>(Target::Tcp { address }),
        target("tls+tcp://"@ + address) == Ok::<Target, Seq<char>>(Target::TlsTcp { address }),
{
    reveal_strlit("tls+tcp://");
    reveal_strlit("tcp://");
    let plain = "tcp://"@ + address;
    let secure = "tls+tcp://"@ + address;
    assert(plain.take(6) =~= "tcp://"@);
    assert(plain.skip(6) =~= address);
    assert(plain[1] == 'c');
    assert("tls+tcp://"@[1] == 'l');
    if plain.len() >= 10 {
        assert(plain.take(10)[1] == 'c');
    }
    assert(secure.take(10) =~= "tls+tcp://"@);
    assert(secure.skip(10) =~= address);
}

/// A string names what it says: an address behind `tcp://` or `tls+tcp://`, or behind
/// `rtu://` a path, a colon and a baud rate, in which no colon stands. No other string
/// names anything.
pub proof fn law_target_is_what_the_string_says(string: Seq<char>)
    ensures
        target(string) matches Ok(Target::Tcp { address }) ==> string == "tcp://"@ + address,
        target(string) matches Ok(Target::TlsTcp { address }) ==> string == "tls+tcp://"@ + address,
        target(string) matches Ok(Target::Rtu { path, baud_rate }) ==> exists|rate: Seq<char>|
            {
                &&& string == #[trigger] ("rtu://"@ + path + seq![':'] + rate)
                &&& !rate.contains(':')
                &&& numbers::unsigned_up_to(rate, 10, u32::MAX as nat) == Some(baud_rate as nat)
            },
{
    match target(string) {
        Ok(Target::Tcp { address }) => {
            assert(string =~= "tcp://"@ + address);
        },
        Ok(Target::TlsTcp { address }) => {
            assert(string =~= "tls+tcp://"@ + address);
        },
        Ok(Target::Rtu { path, baud_rate }) => {
            let rest = stripped(string, "rtu://"@)->0;
            let at = last_colon(rest)->0;
            lemma_found_colon(rest);
            let rate = rest.skip(at + 1);
            assert(rest =~= path + seq![':'] + rate);
            assert(string =~= "rtu://"@ + path + seq![':'] + rate);
        },
        Err(_) => {},
    }
}

proof fn lemma_found_colon(s: Seq<char>)
    ensures
        last_colon(s) matches Some(at) ==> 0 <= at < s.len() && s[at] == ':' && !s.skip(
            at + 1,
        ).contains(':'),
        last_colon(s) is None ==> !s.contains(':'),
    decreases s.len(),
{
    if s.len() > 0 && s.last() != ':' {
        let rest = s.drop_last();
        lemma_found_colon(rest);
        if let Some(at) = last_colon(rest) {
            let tail = s.skip(at + 1);
            if tail.contains(':') {
                let i = tail.index_of(':');
                assert(s[at + 1 + i] == ':');
                assert(rest.skip(at + 1)[i] == ':');
            }
        } else if s.contains(':') {
            let i = s.index_of(':');
            assert(rest[i] == ':');
        }
    } else if s.len() > 0 {
        let tail = s.skip(s.len() as int);
        assert(tail.len() == 0);
    }
}

/// Whether `s` has the characters of `prefix` in front.
pub open spec fn begins(s: Seq<char>, prefix: Seq<char>) -> bool {
    &&& prefix.len() <= s.len()
    &&& forall|i: int| 0 <= i < prefix.len() ==> s[i] == #[trigger] prefix[i]
}

/// A serial line without a colon behind its path, and a string of another scheme, are
/// refused, each for its own reason.
pub proof fn law_other_strings_are_refused(rest: Seq<char>, string: Seq<char>)
    ensures
        !rest.contains(':') ==> target("rtu://"@ + rest) == Err::<Target, Seq<char>>(
            no_rate(quoted("rtu://"@ + rest)),
        ),
        !begins(string, "tcp://"@) && !begins(string, "tls+tcp://"@) && !begins(string, "rtu://"@)
            ==> target(string) == Err::<Target, Seq<char>>(bad_scheme(quoted(string))),
{
    reveal_strlit("tls+tcp://");
    reveal_strlit("tcp://");
    reveal_strlit("rtu://");
    let line = "rtu://"@ + rest;
    assert(line.take(6) =~= "rtu://"@);
    assert(line.skip(6) =~= rest);
    assert(line[0] == 'r');
    assert(line.take(6)[0] == 'r');
    if line.len() >= 10 {
        assert(line.take(10)[0] == 'r');
    }
    lemma_found_colon(rest);
    if !rest.contains(':') {
        if let Some(at) = last_colon(rest) {
            assert(rest[at] == ':');
        }
    }
    lemma_begins(string, "tcp://"@);
    lemma_begins(string, "tls+tcp://"@);
    lemma_begins(string, "rtu://"@);
}

proof fn lemma_begins(s: Seq<char>, prefix: Seq<char>)
    ensures
        begins(s, prefix) <==> stripped(s, prefix) is Some,
{
    if begins(s, prefix) {
        assert(s.take(prefix.len() as int) =~= prefix);
    }
    if stripped(s, prefix) is Some {
        assert forall|i: int| 0 <= i < prefix.len() implies s[i] == #[trigger] prefix[i] by {
            assert(s.take(prefix.len() as int)[i] == prefix[i]);
        }
    }
}

/// The host of an address is what stands before its last colon; an address without one is
/// a host.
pub proof fn law_host_stands_before_the_port(name: Seq<char>, port: Seq<char>)
    requires
        !port.contains(':'),
    ensures
        host(name + seq![':'] + port) == name,
        host(port) == port,
{
    lemma_last_colon(name, port);
    assert((name + seq![':'] + port).take(name.len() as int) =~= name);
    lemma_found_colon(port);
    if let Some(at) = last_colon(port) {
        assert(port[at] == ':');
    }
}

/// The messages hold what they are about.
pub proof fn law_messages_hold_what_they_are_about(given: Seq<char>, error: Seq<char>)
    ensures
        text::holds(no_rate(given), given),
        text::holds(bad_rate(given, error), given),
        text::holds(bad_rate(given, error), error),
        text::holds(bad_scheme(given), given),
{
    let empty = Seq::<char>::empty();
    let front = "rtu:// connection must be rtu://<path>:<baud-rate>, got "@;
    text::lemma_holds(front, given, empty);
    assert(no_rate(given) =~= front + given + empty);
    text::lemma_holds("invalid baud rate "@, given, ": "@ + error);
    assert(bad_rate(given, error) =~= "invalid baud rate "@ + given + (": "@ + error));
    text::lemma_holds("invalid baud rate "@ + given + ": "@, error, empty);
    assert(bad_rate(given, error) =~= "invalid baud rate "@ + given + ": "@ + error + empty);
    let start = "connection must start with tcp://, tls+tcp://, or rtu://, got "@;
    text::lemma_holds(start, given, empty);
    assert(bad_scheme(given) =~= start + given + empty);
}

} // verus!
