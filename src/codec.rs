//! Rendering of transport events as pretty-printed JSON records.
//!
//! A record is an object whose keys stand in sorted order, one per line with
//! a two-space indent, each string value quoted by `serde_json`.

use vstd::prelude::*;
use vstd::utf8::{decode_utf8, valid_utf8};

verus! {

/// An event reported by the transport endpoint.
pub enum EndpointEvent {
    /// A new address at which this endpoint can be reached.
    ListeningAddressOpen { local_url: String },
    /// An address at which this endpoint was reachable has been closed.
    ListeningAddressClosed { local_url: String },
    /// A connection to a remote peer was established.
    Connected { peer_url: String },
    /// A connection to a remote peer was closed.
    Disconnected { peer_url: String },
    /// A message arrived from a remote peer.
    Message { peer_url: String, message: Vec<u8> },
}

#[verifier::external_type_specification]
#[verifier::external_body]
pub struct ExJsonError(serde_json::Error);

/// Lowercase hexadecimal digit of `d`, for `d < 16`.
pub open spec fn hex_digit(d: u32) -> char {
    if d < 10 {
        ((d + 48) as u8) as char
    } else {
        ((d + 87) as u8) as char
    }
}

/// How a JSON string literal writes one character.
pub open spec fn escaped_char(c: char) -> Seq<char> {
    let u = c as u32;
    if c == '"' {
        seq!['\\', '"']
    } else if c == '\\' {
        seq!['\\', '\\']
    } else if u == 8 {
        seq!['\\', 'b']
    } else if u == 9 {
        seq!['\\', 't']
    } else if u == 10 {
        seq!['\\', 'n']
    } else if u == 12 {
        seq!['\\', 'f']
    } else if u == 13 {
        seq!['\\', 'r']
    } else if u < 32 {
        seq!['\\', 'u', '0', '0', hex_digit(u / 16), hex_digit(u % 16)]
    } else {
        seq![c]
    }
}

/// The body of a JSON string literal for `s`, without the quotes.
pub open spec fn escaped(s: Seq<char>) -> Seq<char>
    decreases s.len(),
{
    if s.len() == 0 {
        Seq::empty()
    } else {
        escaped(s.drop_last()) + escaped_char(s.last())
    }
}

/// The JSON string literal that stands for `s`.
pub open spec fn json_string(s: Seq<char>) -> Seq<char> {
    seq!['"'] + escaped(s) + seq!['"']
}

/// The text of a message payload: its UTF-8 decoding where the bytes are
/// valid UTF-8, the lossy rendering otherwise.
pub open spec fn payload_text(b: Seq<u8>) -> Seq<char> {
    if valid_utf8(b) {
        decode_utf8(b)
    } else {
        utf8_lossy_of(b)
    }
}

/// What `String::from_utf8_lossy` makes of bytes that are not valid UTF-8.
pub uninterp spec fn utf8_lossy_of(b: Seq<u8>) -> Seq<char>;

/// The record of an address event: its address field, then its type.
pub open spec fn address_record(key: Seq<char>, url: Seq<char>, kind: Seq<char>) -> Seq<char> {
    "{\n  \""@ + key + "\": "@ + json_string(url) + ",\n  \"type\": \""@ + kind + "\"\n}"@
}

/// The record of a message from `peer` whose text is `text`.
pub open spec fn message_record(peer: Seq<char>, text: Seq<char>) -> Seq<char> {
    "{\n  \"message\": "@ + json_string(text) + ",\n  \"peer_url\": "@ + json_string(peer)
        + ",\n  \"type\": \"Message\"\n}"@
}

/// The record that stands for `e`.
pub open spec fn record_of(e: EndpointEvent) -> Seq<char> {
    match e {
        EndpointEvent::ListeningAddressOpen { local_url } => address_record(
            "local_url"@,
            local_url@,
            "ListeningAddressOpen"@,
        ),
        EndpointEvent::ListeningAddressClosed { local_url } => address_record(
            "local_url"@,
            local_url@,
            "ListeningAddressClosed"@,
        ),
        EndpointEvent::Connected { peer_url } => address_record(
            "peer_url"@,
            peer_url@,
            "Connected"@,
        ),
        EndpointEvent::Disconnected { peer_url } => address_record(
            "peer_url"@,
            peer_url@,
            "Disconnected"@,
        ),
        EndpointEvent::Message { peer_url, message } => message_record(
            peer_url@,
            payload_text(message@),
        ),
    }
}

/// No line break stands in a JSON string literal.
pub proof fn lemma_json_string_one_line(s: Seq<char>)
    ensures
        !json_string(s).contains('\n'),
    decreases s.len(),
{
    if s.len() > 0 {
        lemma_json_string_one_line(s.drop_last());
        let c = s.last();
        let u = c as u32;
        assert(!escaped_char(c).contains('\n')) by {
            if u < 32 && u != 8 && u != 9 && u != 10 && u != 12 && u != 13 {
                assert(hex_digit(u / 16) != '\n');
                assert(hex_digit(u % 16) != '\n');
            }
        }
        assert(!escaped(s).contains('\n')) by {
            let a = escaped(s.drop_last());
            let b = escaped_char(c);
            assert(!(seq!['"'] + a + seq!['"']).contains('\n'));
            assert forall|i: int| 0 <= i < (a + b).len() implies (a + b)[i] != '\n' by {
                if i < a.len() {
                    assert((seq!['"'] + a + seq!['"'])[i + 1] == a[i]);
                } else {
                    assert(b[i - a.len()] == (a + b)[i]);
                }
            }
        }
    }
    let j = json_string(s);
    let e = escaped(s);
    if s.len() > 0 {
        assert forall|i: int| 0 <= i < j.len() implies j[i] != '\n' by {
            if 0 < i < j.len() - 1 {
                assert(j[i] == e[i - 1]);
            }
        }
    }
}

/// Relies on serde_json::to_string on a `str`: it writes the string literal
/// that `json_string` describes (serde_json's `format_escaped_str` with its
/// `ESCAPE` table), and it cannot fail, since it writes into a `Vec<u8>`.
#[verifier::external_body]
fn json_quote(s: &str) -> (r: Result<String, serde_json::Error>)
    ensures
        r is Ok,
        r matches Ok(q) ==> q@ == json_string(s@),
{
    serde_json::to_string(s)
}

/// `r` holds `t` whenever `s` is the string literal of `t`.
pub open spec fn reads_back(s: Seq<char>, r: Result<String, serde_json::Error>) -> bool {
    forall|t: Seq<char>| #[trigger] json_string(t) == s ==> (r matches Ok(u) && u@ == t)
}

/// Relies on serde_json::from_str into a `String`: it reads back the text of
/// any string literal that serde_json writes.
#[verifier::external_body]
fn json_unquote(s: &str) -> (r: Result<String, serde_json::Error>)
    ensures
        reads_back(s@, r),
{
    serde_json::from_str::<String>(s)
}

/// Relies on String::from_utf8_lossy: valid UTF-8 is decoded as it is.
#[verifier::external_body]
fn utf8_lossy(b: &[u8]) -> (r: String)
    ensures
        valid_utf8(b@) ==> r@ == decode_utf8(b@),
        !valid_utf8(b@) ==> r@ == utf8_lossy_of(b@),
{
    String::from_utf8_lossy(b).into_owned()
}

/// Relies on str::strip_prefix: what follows `p` in `s`, where `s` starts with it.
#[verifier::external_body]
fn strip_prefix<'a>(s: &'a str, p: &str) -> (r: Option<&'a str>)
    ensures
        r matches Some(t) ==> s@ == p@ + t@,
        p@.is_prefix_of(s@) ==> r is Some,
{
    s.strip_prefix(p)
}

/// Relies on str::strip_suffix: what precedes `p` in `s`, where `s` ends with it.
#[verifier::external_body]
fn strip_suffix<'a>(s: &'a str, p: &str) -> (r: Option<&'a str>)
    ensures
        r matches Some(t) ==> s@ == t@ + p@,
        p@.is_suffix_of(s@) ==> r is Some,
{
    s.strip_suffix(p)
}

/// Relies on str::split_once with a `char`: the text around the first
/// occurrence of `c`.
#[verifier::external_body]
fn split_once<'a>(s: &'a str, c: char) -> (r: Option<(&'a str, &'a str)>)
    ensures
        r matches Some((a, b)) ==> s@ == a@ + seq![c] + b@ && !a@.contains(c),
        s@.contains(c) ==> r is Some,
{
    s.split_once(c)
}

/// Quotes `s` as a JSON string literal.
fn quote(s: &str) -> (r: String)
    ensures
        r@ == json_string(s@),
{
    match json_quote(s) {
        Ok(q) => q,
        Err(_) => {
            proof {
                assert(false);
            }
            String::new()
        },
    }
}

fn render_address(key: &str, url: &str, kind: &str) -> (r: String)
    ensures
        r@ == address_record(key@, url@, kind@),
{
    let mut out = String::from_str("{\n  \"");
    out.append(key);
    out.append("\": ");
    let q = quote(url);
    out.append(q.as_str());
    out.append(",\n  \"type\": \"");
    out.append(kind);
    out.append("\"\n}");
    proof {
        assert(out@ =~= address_record(key@, url@, kind@));
    }
    out
}

/// Renders `evt` as its JSON record.
pub fn evt_to_json(evt: &EndpointEvent) -> (r: String)
    ensures
        r@ == record_of(*evt),
{
    match evt {
        EndpointEvent::ListeningAddressOpen { local_url } => render_address(
            "local_url",
            local_url.as_str(),
            "ListeningAddressOpen",
        ),
        EndpointEvent::ListeningAddressClosed { local_url } => render_address(
            "local_url",
            local_url.as_str(),
            "ListeningAddressClosed",
        ),
        EndpointEvent::Connected { peer_url } => render_address(
            "peer_url",
            peer_url.as_str(),
            "Connected",
        ),
        EndpointEvent::Disconnected { peer_url } => render_address(
            "peer_url",
            peer_url.as_str(),
            "Disconnected",
        ),
        EndpointEvent::Message { peer_url, message } => {
            let text = utf8_lossy(message.as_slice());
            let mut out = String::from_str("{\n  \"message\": ");
            let qt = quote(text.as_str());
            out.append(qt.as_str());
            out.append(",\n  \"peer_url\": ");
            let qp = quote(peer_url.as_str());
            out.append(qp.as_str());
            out.append(",\n  \"type\": \"Message\"\n}");
            proof {
                assert(out@ =~= message_record(peer_url@, payload_text(message@)));
            }
            out
        },
    }
}

/// Two texts split at their first line break split alike.
proof fn lemma_first_line_unique(a: Seq<char>, b: Seq<char>, x: Seq<char>, y: Seq<char>)
    requires
        a + seq!['\n'] + b == x + seq!['\n'] + y,
        !a.contains('\n'),
        !x.contains('\n'),
    ensures
        a == x,
        b == y,
{
    let l = a + seq!['\n'] + b;
    if a.len() < x.len() {
        assert(x[a.len() as int] == l[a.len() as int]);
    } else if x.len() < a.len() {
        assert(a[x.len() as int] == l[x.len() as int]);
    }
    assert(a =~= l.subrange(0, a.len() as int));
    assert(x =~= l.subrange(0, x.len() as int));
    assert(b =~= l.subrange(a.len() as int + 1, l.len() as int));
    assert(y =~= l.subrange(x.len() as int + 1, l.len() as int));
}

proof fn lemma_no_line_break_after_comma(s: Seq<char>)
    requires
        !s.contains('\n'),
    ensures
        !(s + ","@).contains('\n'),
{
    reveal_strlit(",");
    let t = s + ","@;
    assert forall|i: int| 0 <= i < t.len() implies t[i] != '\n' by {
        if i < s.len() {
            assert(t[i] == s[i]);
        }
    }
}

/// A message record, line by line: the first two lines after the opening
/// brace hold the quoted text and the quoted peer address.
proof fn lemma_message_lines(p: Seq<char>, t: Seq<char>)
    ensures
        message_record(p, t) == "{\n  \"message\": "@ + (json_string(t) + ","@) + seq!['\n']
            + ("  \"peer_url\": "@ + (json_string(p) + ","@) + seq!['\n']
            + "  \"type\": \"Message\"\n}"@),
        !(json_string(t) + ","@).contains('\n'),
        !(json_string(p) + ","@).contains('\n'),
{
    reveal_strlit(",\n  \"peer_url\": ");
    reveal_strlit(",\n  \"type\": \"Message\"\n}");
    reveal_strlit("  \"peer_url\": ");
    reveal_strlit("  \"type\": \"Message\"\n}");
    reveal_strlit(",");
    lemma_json_string_one_line(t);
    lemma_json_string_one_line(p);
    lemma_no_line_break_after_comma(json_string(t));
    lemma_no_line_break_after_comma(json_string(p));
    assert(message_record(p, t) =~= "{\n  \"message\": "@ + (json_string(t) + ","@) + seq!['\n']
        + ("  \"peer_url\": "@ + (json_string(p) + ","@) + seq!['\n']
        + "  \"type\": \"Message\"\n}"@));
}

/// Reads a message record back into its peer address and its text.
pub fn decode_message(record: &str) -> (r: Option<(String, String)>)
    ensures
        forall|p: Seq<char>, t: Seq<char>|
            #[trigger] message_record(p, t) == record@ ==> (r matches Some((rp, rt)) && rp@ == p
                && rt@ == t),
{
    let ghost head = "{\n  \"message\": "@;
    let ghost key = "  \"peer_url\": "@;
    let ghost tail = "  \"type\": \"Message\"\n}"@;
    let rest = match strip_prefix(record, "{\n  \"message\": ") {
        Some(rest) => rest,
        None => {
            proof {
                assert forall|p: Seq<char>, t: Seq<char>| message_record(p, t) != record@ by {
                    lemma_message_lines(p, t);
                    if message_record(p, t) == record@ {
                        assert(head.is_prefix_of(record@));
                    }
                }
            }
            return None;
        },
    };
    assert forall|p: Seq<char>, t: Seq<char>| #[trigger]
        message_record(p, t) == record@ implies rest@ == (json_string(t) + ","@) + seq!['\n']
        + (key + (json_string(p) + ","@) + seq!['\n'] + tail) by {
        lemma_message_lines(p, t);
        let m = (json_string(t) + ","@) + seq!['\n'] + (key + (json_string(p) + ","@)
            + seq!['\n'] + tail);
        assert(rest@ =~= record@.subrange(head.len() as int, record@.len() as int));
        assert(m =~= record@.subrange(head.len() as int, record@.len() as int));
    }
    let (line, rest) = match split_once(rest, '\n') {
        Some(parts) => parts,
        None => {
            proof {
                assert forall|p: Seq<char>, t: Seq<char>| message_record(p, t) != record@ by {
                    if message_record(p, t) == record@ {
                        let l = (json_string(t) + ","@);
                        assert(rest@[l.len() as int] == '\n');
                    }
                }
            }
            return None;
        },
    };
    assert forall|p: Seq<char>, t: Seq<char>| #[trigger]
        message_record(p, t) == record@ implies line@ == json_string(t) + ","@ && rest@ == key
        + (json_string(p) + ","@) + seq!['\n'] + tail by {
        lemma_message_lines(p, t);
        lemma_first_line_unique(
            line@,
            rest@,
            json_string(t) + ","@,
            key + (json_string(p) + ","@) + seq!['\n'] + tail,
        );
    }
    let qt = match strip_suffix(line, ",") {
        Some(qt) => qt,
        None => {
            proof {
                assert forall|p: Seq<char>, t: Seq<char>| message_record(p, t) != record@ by {
                    if message_record(p, t) == record@ {
                        assert(","@.is_suffix_of(line@));
                    }
                }
            }
            return None;
        },
    };
    assert forall|p: Seq<char>, t: Seq<char>| #[trigger]
        message_record(p, t) == record@ implies qt@ == json_string(t) by {
        reveal_strlit(",");
        assert(qt@ =~= line@.subrange(0, line@.len() - 1));
        assert(json_string(t) =~= line@.subrange(0, line@.len() - 1));
    }
    let rest = match strip_prefix(rest, "  \"peer_url\": ") {
        Some(rest) => rest,
        None => {
            proof {
                assert forall|p: Seq<char>, t: Seq<char>| message_record(p, t) != record@ by {
                    if message_record(p, t) == record@ {
                        assert(key.is_prefix_of(rest@));
                    }
                }
            }
            return None;
        },
    };
    assert forall|p: Seq<char>, t: Seq<char>| #[trigger]
        message_record(p, t) == record@ implies rest@ == (json_string(p) + ","@) + seq!['\n']
        + tail by {
        let m = (json_string(p) + ","@) + seq!['\n'] + tail;
        let whole = key + (json_string(p) + ","@) + seq!['\n'] + tail;
        assert(m =~= whole.subrange(key.len() as int, whole.len() as int));
    }
    let (line, rest) = match split_once(rest, '\n') {
        Some(parts) => parts,
        None => {
            proof {
                assert forall|p: Seq<char>, t: Seq<char>| message_record(p, t) != record@ by {
                    if message_record(p, t) == record@ {
                        let l = (json_string(p) + ","@);
                        assert(rest@[l.len() as int] == '\n');
                    }
                }
            }
            return None;
        },
    };
    assert forall|p: Seq<char>, t: Seq<char>| #[trigger]
        message_record(p, t) == record@ implies line@ == json_string(p) + ","@ && rest@ == tail by {
        lemma_message_lines(p, t);
        lemma_first_line_unique(line@, rest@, json_string(p) + ","@, tail);
    }
    let qp = match strip_suffix(line, ",") {
        Some(qp) => qp,
        None => {
            proof {
                assert forall|p: Seq<char>, t: Seq<char>| message_record(p, t) != record@ by {
                    if message_record(p, t) == record@ {
                        assert(","@.is_suffix_of(line@));
                    }
                }
            }
            return None;
        },
    };
    assert forall|p: Seq<char>, t: Seq<char>| #[trigger]
        message_record(p, t) == record@ implies qp@ == json_string(p) by {
        reveal_strlit(",");
        assert(qp@ =~= line@.subrange(0, line@.len() - 1));
        assert(json_string(p) =~= line@.subrange(0, line@.len() - 1));
    }
    let end = match strip_prefix(rest, "  \"type\": \"Message\"\n}") {
        Some(end) => end,
        None => {
            proof {
                assert forall|p: Seq<char>, t: Seq<char>| message_record(p, t) != record@ by {
                    if message_record(p, t) == record@ {
                        assert(tail.is_prefix_of(rest@));
                    }
                }
            }
            return None;
        },
    };
    if !end.is_empty() {
        proof {
            assert forall|p: Seq<char>, t: Seq<char>| message_record(p, t) != record@ by {
                if message_record(p, t) == record@ {
                    assert(end@ =~= rest@.subrange(tail.len() as int, rest@.len() as int));
                }
            }
        }
        return None;
    }
    let text = match json_unquote(qt) {
        Ok(text) => text,
        Err(_) => return None,
    };
    let peer = match json_unquote(qp) {
        Ok(peer) => peer,
        Err(_) => return None,
    };
    Some((peer, text))
}

/// Encoding a message whose payload is valid UTF-8 gives the record that
/// `decode_message` reads back as its peer address and the payload's text.
pub proof fn lemma_message_round_trip(peer_url: String, message: Vec<u8>)
    requires
        valid_utf8(message@),
    ensures
        record_of(EndpointEvent::Message { peer_url, message }) == message_record(
            peer_url@,
            decode_utf8(message@),
        ),
{
}

} // verus!
