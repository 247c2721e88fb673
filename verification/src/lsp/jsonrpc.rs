//! LSP messages: a parsed JSON value held as plain data, the JSON-RPC
//! message it is, and the `Content-Length` framing around its bytes.

use vstd::prelude::*;
use crate::text::{chars_of, same_text, spec_ascii_lower, ascii_lower, find_seq, lemma_find_seq, find_in, trim_ws, trim_range};
use crate::git::{parse_usize, parse_usize_spec};
use crate::json::{Json, JsonNumber, lookup, lemma_lookup_extend, json_of, json_bytes, parse_json, encode_json};
use crate::text::{concat, decimal, decimal_text, digit_char, occurs_at, trim_end_ws, trim_start_ws, spec_is_whitespace};
use crate::editcore::key::{all_digits, digits_value, is_digit};
use vstd::utf8::encode_utf8;

verus! {

/// A request or response id.
#[derive(Clone, Debug, PartialEq, Eq)]
pub enum Id {
    Number(u64),
    String(String),
}

/// A JSON-RPC message: a request, a response to one, or a notification.
#[derive(Debug, PartialEq, Eq)]
pub enum Message {
    Request { id: Id, method: String, params: Json },
    Response { id: Id, result: Option<Json>, error: Option<Json> },
    Notification { method: String, params: Json },
}

/// The id a value is: a non-negative integer or a string.
pub open spec fn id_of_json(v: Json) -> Option<Id> {
    match v {
        Json::Number(JsonNumber::PosInt(n)) => Some(Id::Number(n)),
        Json::String(s) => Some(Id::String(s)),
        _ => None,
    }
}

pub fn id_from_json(v: Json) -> (r: Option<Id>)
    ensures
        r == id_of_json(v),
{
    match v {
        Json::Number(JsonNumber::PosInt(n)) => Some(Id::Number(n)),
        Json::String(s) => Some(Id::String(s)),
        _ => None,
    }
}

/// The value an id is written as.
pub open spec fn json_of_id(id: Id) -> Json {
    match id {
        Id::Number(n) => Json::Number(JsonNumber::PosInt(n)),
        Id::String(s) => Json::String(s),
    }
}

pub fn id_to_json(id: Id) -> (v: Json)
    ensures
        v == json_of_id(id),
{
    match id {
        Id::Number(n) => Json::Number(JsonNumber::PosInt(n)),
        Id::String(s) => Json::String(s),
    }
}

/// A missing member read as `null`.
pub open spec fn or_null(v: Option<Json>) -> Json {
    match v {
        Some(j) => j,
        None => Json::Null,
    }
}

/// The message a value is: with an id and a string method a request, with
/// an id alone a response, with a method alone a notification; anything
/// else, and anything that is not an object, is none.
pub open spec fn message_of(v: Json) -> Option<Message> {
    match v {
        Json::Object(es) => {
            let e = es@;
            let method = match lookup(e, "method"@) {
                Some(Json::String(s)) => Some(s),
                _ => None,
            };
            let id = match lookup(e, "id"@) {
                Some(j) => id_of_json(j),
                None => None,
            };
            match (id, method) {
                (Some(i), Some(m)) => Some(Message::Request { id: i, method: m, params: or_null(lookup(e, "params"@)) }),
                (Some(i), None) => Some(Message::Response { id: i, result: lookup(e, "result"@), error: lookup(e, "error"@) }),
                (None, Some(m)) => Some(Message::Notification { method: m, params: or_null(lookup(e, "params"@)) }),
                (None, None) => None,
            }
        },
        _ => None,
    }
}

proof fn lemma_member_names_differ()
    ensures
        "method"@ != "id"@,
        "method"@ != "params"@,
        "method"@ != "result"@,
        "method"@ != "error"@,
        "id"@ != "params"@,
        "id"@ != "result"@,
        "id"@ != "error"@,
        "params"@ != "result"@,
        "params"@ != "error"@,
        "result"@ != "error"@,
{
    reveal_strlit("method");
    reveal_strlit("id");
    reveal_strlit("params");
    reveal_strlit("result");
    reveal_strlit("error");
    assert("method"@[0] != "params"@[0]);
    assert("method"@[0] != "result"@[0]);
    assert("params"@[0] != "result"@[0]);
    assert("id"@.len() != "method"@.len());
    assert("id"@.len() != "error"@.len());
    assert("error"@.len() != "method"@.len());
}

pub fn message_from_json(v: Json) -> (m: Option<Message>)
    ensures
        m == message_of(v),
{
    let ghost whole = v;
    let mut entries = match v {
        Json::Object(es) => es,
        _ => {
            return None;
        },
    };
    let ghost all = entries@;
    let mut method: Option<Json> = None;
    let mut id: Option<Json> = None;
    let mut params: Option<Json> = None;
    let mut result: Option<Json> = None;
    let mut error: Option<Json> = None;
    let mut i: usize = 0;
    assert(all.take(0) =~= Seq::<(String, Json)>::empty());
    proof {
        reveal_strlit("method");
        reveal_strlit("id");
        reveal_strlit("params");
        reveal_strlit("result");
        reveal_strlit("error");
    }
    assert(all.skip(0) =~= all);
    let _n = entries.len();
    while entries.len() > 0
        invariant
            all.len() == i + entries@.len(),
            i + entries@.len() <= usize::MAX,
            entries@ == all.skip(i as int),
            method == lookup(all.take(i as int), "method"@),
            id == lookup(all.take(i as int), "id"@),
            params == lookup(all.take(i as int), "params"@),
            result == lookup(all.take(i as int), "result"@),
            error == lookup(all.take(i as int), "error"@),
        decreases entries@.len(),
    {
        let ghost before = entries@;
        let (key, value) = entries.remove(0);
        proof {
            reveal_strlit("method");
            reveal_strlit("id");
            reveal_strlit("params");
            reveal_strlit("result");
            reveal_strlit("error");
            assert((key, value) == all[i as int]);
            assert(entries@ =~= all.skip(i + 1));
            lemma_lookup_extend(all, i as int, "method"@);
            lemma_lookup_extend(all, i as int, "id"@);
            lemma_lookup_extend(all, i as int, "params"@);
            lemma_lookup_extend(all, i as int, "result"@);
            lemma_lookup_extend(all, i as int, "error"@);
            lemma_member_names_differ();
        }
        let k = key.as_str();
        let is_method = same_text(k, "method");
        let is_id = same_text(k, "id");
        let is_params = same_text(k, "params");
        let is_result = same_text(k, "result");
        let is_error = same_text(k, "error");
        if is_method && method.is_none() {
            method = Some(value);
        } else if is_id && id.is_none() {
            id = Some(value);
        } else if is_params && params.is_none() {
            params = Some(value);
        } else if is_result && result.is_none() {
            result = Some(value);
        } else if is_error && error.is_none() {
            error = Some(value);
        }
        i = i + 1;
    }
    assert(all.take(i as int) =~= all);
    let method: Option<String> = match method {
        Some(Json::String(s)) => Some(s),
        _ => None,
    };
    let id: Option<Id> = match id {
        Some(j) => id_from_json(j),
        None => None,
    };
    let params = match params {
        Some(p) => p,
        None => Json::Null,
    };
    match (id, method) {
        (Some(i), Some(m)) => Some(Message::Request { id: i, method: m, params }),
        (Some(i), None) => Some(Message::Response { id: i, result, error }),
        (None, Some(m)) => Some(Message::Notification { method: m, params }),
        (None, None) => None,
    }
}

} // verus!

verus! {

/// Member `e` is `key` with `value`.
pub open spec fn member(e: (String, Json), key: Seq<char>, value: Json) -> bool {
    e.0@ == key && e.1 == value
}

/// Member `e` is the protocol version, `"jsonrpc": "2.0"`.
pub open spec fn version_member(e: (String, Json)) -> bool {
    &&& e.0@ == "jsonrpc"@
    &&& e.1 matches Json::String(s) && s@ == "2.0"@
}

/// `v` is the object that message `m` is written as: the members in the
/// order of their names, `params` left out when null, and a response with
/// an error carrying no result.
pub open spec fn encodes(v: Json, m: Message) -> bool {
    match v {
        Json::Object(es) => {
            let e = es@;
            match m {
                Message::Request { id, method, params } => {
                    &&& e.len() == if params == Json::Null { 3int } else { 4int }
                    &&& member(e[0], "id"@, json_of_id(id))
                    &&& version_member(e[1])
                    &&& member(e[2], "method"@, Json::String(method))
                    &&& params != Json::Null ==> member(e[3], "params"@, params)
                },
                Message::Response { id, result, error } => match error {
                    Some(err) => {
                        &&& e.len() == 3
                        &&& member(e[0], "error"@, err)
                        &&& member(e[1], "id"@, json_of_id(id))
                        &&& version_member(e[2])
                    },
                    None => {
                        &&& e.len() == 3
                        &&& member(e[0], "id"@, json_of_id(id))
                        &&& version_member(e[1])
                        &&& member(e[2], "result"@, or_null(result))
                    },
                },
                Message::Notification { method, params } => {
                    &&& e.len() == if params == Json::Null { 2int } else { 3int }
                    &&& version_member(e[0])
                    &&& member(e[1], "method"@, Json::String(method))
                    &&& params != Json::Null ==> member(e[2], "params"@, params)
                },
            }
        },
        _ => false,
    }
}

fn version_entry() -> (e: (String, Json))
    ensures
        version_member(e),
{
    ("jsonrpc".to_owned(), Json::String("2.0".to_owned()))
}

/// The object a message is written as.
pub fn message_to_json(m: Message) -> (v: Json)
    ensures
        encodes(v, m),
{
    let mut es: Vec<(String, Json)> = Vec::new();
    match m {
        Message::Request { id, method, params } => {
            es.push(("id".to_owned(), id_to_json(id)));
            es.push(version_entry());
            es.push(("method".to_owned(), Json::String(method)));
            match params {
                Json::Null => {},
                p => es.push(("params".to_owned(), p)),
            }
        },
        Message::Response { id, result, error } => match error {
            Some(err) => {
                es.push(("error".to_owned(), err));
                es.push(("id".to_owned(), id_to_json(id)));
                es.push(version_entry());
            },
            None => {
                es.push(("id".to_owned(), id_to_json(id)));
                es.push(version_entry());
                let r = match result {
                    Some(r) => r,
                    None => Json::Null,
                };
                es.push(("result".to_owned(), r));
            },
        },
        Message::Notification { method, params } => {
            es.push(version_entry());
            es.push(("method".to_owned(), Json::String(method)));
            match params {
                Json::Null => {},
                p => es.push(("params".to_owned(), p)),
            }
        },
    }
    Json::Object(es)
}

/// A message keeps its shape when written: a response names its result
/// (null where it has none) unless it carries an error, and then none.
pub open spec fn well_shaped(m: Message) -> bool {
    match m {
        Message::Response { result, error, .. } => match error {
            Some(_) => result is None,
            None => result is Some,
        },
        _ => true,
    }
}

/// Reading back the object a message is written as gives the message.
pub proof fn law_message_round_trip(v: Json, m: Message)
    requires
        encodes(v, m),
        well_shaped(m),
    ensures
        message_of(v) == Some(m),
{
    lemma_member_names_differ();
    reveal_strlit("jsonrpc");
    reveal_strlit("method");
    reveal_strlit("id");
    reveal_strlit("params");
    reveal_strlit("result");
    reveal_strlit("error");
    assert("jsonrpc"@.len() != "id"@.len());
    assert("jsonrpc"@.len() != "method"@.len());
    assert("jsonrpc"@.len() != "params"@.len());
    assert("jsonrpc"@.len() != "result"@.len());
    assert("jsonrpc"@.len() != "error"@.len());
    reveal_with_fuel(lookup, 5);
}

} // verus!

verus! {

/// A header line without the line break (any `\r` and `\n` at its end).
pub open spec fn trim_line_end(s: Seq<char>) -> Seq<char>
    decreases s.len(),
{
    if s.len() > 0 && (s.last() == '\r' || s.last() == '\n') {
        trim_line_end(s.drop_last())
    } else {
        s
    }
}

/// `s` with ASCII capitals made small.
pub open spec fn ascii_folded(s: Seq<char>) -> Seq<char> {
    s.map_values(|c: char| spec_ascii_lower(c))
}

/// What a header line says of the body's length: `None` when it is no
/// `Content-Length` header (name matched without regard to ASCII case),
/// otherwise its value as a number, or `Some(None)` when the value is none.
pub open spec fn header_length(line: Seq<char>) -> Option<Option<usize>> {
    let t = trim_line_end(line);
    let c = find_seq(t, seq![':'], 0);
    if c >= 0 && ascii_folded(t.take(c)) == "content-length"@ {
        Some(parse_usize_spec(trim_ws(t.skip(c + 1))))
    } else {
        None
    }
}

/// The length that the header block `lines` gives, where `found` is what
/// the lines before them gave: the block ends at the first empty line, and
/// the last `Content-Length` header in it wins.
pub open spec fn length_of_headers(lines: Seq<Seq<char>>, found: Option<usize>) -> Option<usize>
    decreases lines.len(),
{
    if lines.len() == 0 || trim_line_end(lines[0]).len() == 0 {
        found
    } else {
        let next = match header_length(lines[0]) {
            Some(n) => n,
            None => found,
        };
        length_of_headers(lines.drop_first(), next)
    }
}

pub open spec fn texts(v: Seq<String>) -> Seq<Seq<char>> {
    v.map_values(|s: String| s@)
}

/// Whether `v[..to]` is `content-length`, ASCII case aside.
fn is_length_name(v: &[char], to: usize) -> (r: bool)
    requires
        to <= v@.len(),
    ensures
        r == (ascii_folded(v@.take(to as int)) == "content-length"@),
{
    let name = chars_of("content-length");
    proof {
        reveal_strlit("content-length");
    }
    if to != name.len() {
        assert(ascii_folded(v@.take(to as int)).len() != "content-length"@.len());
        return false;
    }
    let mut k: usize = 0;
    while k < to
        invariant
            to == name@.len() <= v@.len(),
            name@ == "content-length"@,
            k <= to,
            forall|q: int| 0 <= q < k ==> spec_ascii_lower(v@[q]) == name@[q],
        decreases to - k,
    {
        if ascii_lower(v[k]) != name[k] {
            assert(ascii_folded(v@.take(to as int))[k as int] != "content-length"@[k as int]);
            return false;
        }
        k = k + 1;
    }
    assert(ascii_folded(v@.take(to as int)) =~= "content-length"@);
    true
}

/// The length a header line gives, as `header_length` says.
fn line_length(line: &str) -> (r: Option<Option<usize>>)
    ensures
        r == header_length(line@),
{
    let mut v = chars_of(line);
    let mut end = v.len();
    assert(v@.take(end as int) =~= v@);
    while end > 0 && (v[end - 1] == '\r' || v[end - 1] == '\n')
        invariant
            end <= v@.len(),
            trim_line_end(line@) == trim_line_end(v@.take(end as int)),
            v@ == line@,
        decreases end,
    {
        assert(v@.take(end as int).drop_last() =~= v@.take(end - 1));
        end = end - 1;
    }
    assert(trim_line_end(v@.take(end as int)) == v@.take(end as int));
    v.truncate(end);
    let ghost t = v@;
    assert(t == trim_line_end(line@));
    let colon = vec![':'];
    assert(colon@ =~= seq![':']);
    match find_in(v.as_slice(), colon.as_slice(), 0) {
        Some(c) => {
            proof {
                lemma_find_seq(t, seq![':'], 0);
            }
            if is_length_name(v.as_slice(), c) {
                let (a, b) = trim_range(v.as_slice(), c + 1, v.len());
                assert(t.subrange(c + 1, t.len() as int) =~= t.skip(c + 1));
                Some(parse_usize(v.as_slice(), a, b))
            } else {
                None
            }
        },
        None => None,
    }
}

/// The body length a block of header lines announces: the value of the
/// last `Content-Length` header before the first empty line, or `None`
/// when there is no such header or its value is no number.
pub fn frame_length(headers: &[String]) -> (r: Option<usize>)
    ensures
        r == length_of_headers(texts(headers@), None),
{
    let ghost all = texts(headers@);
    let mut found: Option<usize> = None;
    let mut i: usize = 0;
    assert(all.skip(0) =~= all);
    while i < headers.len()
        invariant
            i <= headers@.len(),
            all == texts(headers@),
            length_of_headers(all, None) == length_of_headers(all.skip(i as int), found),
        decreases headers@.len() - i,
    {
        let line = headers[i].as_str();
        assert(all.skip(i as int)[0] == line@);
        assert(all.skip(i as int).drop_first() =~= all.skip(i + 1));
        let n = line_length(line);
        let v = chars_of(line);
        let mut blank = true;
        let mut k: usize = 0;
        while k < v.len()
            invariant
                k <= v@.len(),
                v@ == line@,
                blank == (forall|q: int| 0 <= q < k ==> (v@[q] == '\r' || v@[q] == '\n')),
            decreases v@.len() - k,
        {
            if v[k] != '\r' && v[k] != '\n' {
                blank = false;
            }
            k = k + 1;
        }
        proof {
            lemma_blank_line(line@);
        }
        if blank {
            return found;
        }
        found = match n {
            Some(x) => x,
            None => found,
        };
        i = i + 1;
    }
    found
}

/// A line is blank once its line break is gone exactly when it holds
/// nothing but `\r` and `\n`.
proof fn lemma_blank_line(s: Seq<char>)
    ensures
        (trim_line_end(s).len() == 0) == (forall|q: int| 0 <= q < s.len() ==> (s[q] == '\r' || s[q] == '\n')),
    decreases s.len(),
{
    if s.len() > 0 {
        lemma_blank_line(s.drop_last());
        if s.last() == '\r' || s.last() == '\n' {
            assert forall|q: int| 0 <= q < s.len() - 1 implies s.drop_last()[q] == s[q] by {}
        } else {
            assert(!(s.last() == '\r' || s.last() == '\n'));
        }
    }
}

} // verus!

verus! {

/// The header line pair that announces a body of `n` bytes.
pub open spec fn frame_header(n: nat) -> Seq<char> {
    "Content-Length: "@ + decimal(n) + "\r\n\r\n"@
}

/// A body behind the header that announces its length.
pub open spec fn framed(body: Seq<u8>) -> Seq<u8> {
    encode_utf8(frame_header(body.len())) + body
}

/// `body` framed for the wire: `Content-Length: <len>\r\n\r\n`, then the body.
pub fn frame(body: &[u8]) -> (out: Vec<u8>)
    ensures
        out@ == framed(body@),
{
    let n = decimal_text(body.len());
    let head = concat(concat("Content-Length: ", n.as_str()).as_str(), "\r\n\r\n");
    let mut out: Vec<u8> = Vec::new();
    out.extend_from_slice(head.as_str().as_bytes());
    out.extend_from_slice(body);
    assert(out@ =~= framed(body@));
    out
}

/// A value written for the wire: its JSON bytes behind their header.
pub fn write_value(value: &Json) -> (out: Vec<u8>)
    ensures
        out@ == framed(json_bytes(*value)),
{
    let body = encode_json(value);
    frame(body.as_slice())
}

/// A message written for the wire: the object it is written as, framed.
pub fn write_message(message: Message) -> (out: (Json, Vec<u8>))
    ensures
        encodes(out.0, message),
        out.1@ == framed(json_bytes(out.0)),
{
    let v = message_to_json(message);
    let bytes = write_value(&v);
    (v, bytes)
}

/// The message a body holds, as `message_of` reads the value that the JSON
/// parser makes of it; `None` where the bytes are no JSON or the value no
/// message.
pub fn read_message(body: &[u8]) -> (m: Option<Message>)
    ensures
        m == match json_of(body@) {
            Some(v) => message_of(v),
            None => None,
        },
{
    match parse_json(body) {
        Some(v) => message_from_json(v),
        None => None,
    }
}

impl Id {
    /// The value an id is written as.
    pub fn to_value(&self) -> (v: Json)
        ensures
            match *self {
                Id::Number(n) => v == Json::Number(JsonNumber::PosInt(n)),
                Id::String(s) => v matches Json::String(t) && t@ == s@,
            },
    {
        match self {
            Id::Number(n) => Json::Number(JsonNumber::PosInt(*n)),
            Id::String(s) => Json::String(s.clone()),
        }
    }

    /// The id a value is, if it is a non-negative integer or a string.
    pub fn from_value(value: &Json) -> (r: Option<Id>)
        ensures
            match *value {
                Json::Number(JsonNumber::PosInt(n)) => r == Some(Id::Number(n)),
                Json::String(s) => r matches Some(Id::String(t)) && t@ == s@,
                _ => r is None,
            },
    {
        match value {
            Json::Number(JsonNumber::PosInt(n)) => Some(Id::Number(*n)),
            Json::String(s) => Some(Id::String(s.clone())),
            _ => None,
        }
    }
}

} // verus!

verus! {

/// The first header line `frame` writes for a body of `n` bytes.
pub open spec fn length_line(n: nat) -> Seq<char> {
    "Content-Length: "@ + decimal(n) + "\r\n"@
}

proof fn lemma_digit_char(d: nat)
    requires
        d < 10,
    ensures
        is_digit(digit_char(d)),
        digit_char(d) as int - '0' as int == d,
{
}

proof fn lemma_decimal_digits(n: nat)
    ensures
        decimal(n).len() > 0,
        all_digits(decimal(n)),
        digits_value(decimal(n)) == n,
    decreases n,
{
    if n < 10 {
        lemma_digit_char(n);
        assert(decimal(n).drop_last() =~= Seq::<char>::empty());
        assert(digits_value(decimal(n)) == digits_value(Seq::<char>::empty()) * 10 + (digit_char(n) as int - '0' as int));
    } else {
        lemma_decimal_digits(n / 10);
        lemma_digit_char(n % 10);
        assert((n / 10) * 10 + n % 10 == n) by (nonlinear_arith);
        let d = decimal(n / 10);
        assert(decimal(n).drop_last() =~= d);
        assert(decimal(n).last() == digit_char(n % 10));
        assert(digits_value(decimal(n)) == digits_value(d) * 10 + (digit_char(n % 10) as int - '0' as int));
        assert forall|i: int| 0 <= i < decimal(n).len() implies #[trigger] is_digit(decimal(n)[i]) by {
            if i < d.len() {
                assert(decimal(n)[i] == d[i]);
            }
        }
    }
}

proof fn lemma_find_first(s: Seq<char>, p: Seq<char>, i: int, k: int)
    requires
        0 <= i <= k,
        occurs_at(s, p, k),
        forall|j: int| i <= j < k ==> !occurs_at(s, p, j),
    ensures
        find_seq(s, p, i) == k,
    decreases k - i,
{
    if i < k {
        assert(!occurs_at(s, p, i));
        lemma_find_first(s, p, i + 1, k);
    }
}

/// The header `frame` writes is read back as the body's length: its
/// `Content-Length` line gives `n`, and the empty line ends the block.
pub proof fn law_frame_header_gives_the_length(n: usize)
    ensures
        frame_header(n as nat) == length_line(n as nat) + "\r\n"@,
        length_of_headers(seq![length_line(n as nat), "\r\n"@], None) == Some(n),
{
    reveal_strlit("Content-Length: ");
    reveal_strlit("\r\n");
    reveal_strlit("\r\n\r\n");
    reveal_strlit("content-length");
    let d = decimal(n as nat);
    lemma_decimal_digits(n as nat);
    assert(frame_header(n as nat) =~= length_line(n as nat) + "\r\n"@);
    let line = length_line(n as nat);
    let t = "Content-Length: "@ + d;
    assert(line.drop_last().drop_last() =~= t);
    assert(is_digit(d[d.len() - 1]));
    assert(t.last() == d[d.len() - 1]);
    assert(trim_line_end(t) == t);
    assert(trim_line_end(line.drop_last()) == trim_line_end(t));
    assert(trim_line_end(line) == t);
    assert(occurs_at(t, seq![':'], 14)) by {
        assert(t.subrange(14, 15) =~= seq![':']);
    }
    assert forall|j: int| 0 <= j < 14 implies !occurs_at(t, seq![':'], j) by {
        assert(t.subrange(j, j + 1)[0] == t[j]);
    }
    lemma_find_first(t, seq![':'], 0, 14);
    assert(ascii_folded(t.take(14)) =~= "content-length"@);
    let rest = t.skip(15);
    assert(rest =~= seq![' '] + d);
    assert(!spec_is_whitespace(d.last()));
    assert(trim_end_ws(rest) == rest);
    assert(rest.drop_first() =~= d);
    assert(is_digit(d[0]));
    assert(!spec_is_whitespace(d[0]));
    assert(trim_start_ws(d) == d);
    assert(trim_start_ws(rest) == d);
    assert(trim_ws(rest) == d);
    assert(d[0] != '+');
    assert(parse_usize_spec(d) == Some(n));
    assert(header_length(line) == Some(Some(n)));
    let lines = seq![line, "\r\n"@];
    assert(lines.drop_first() =~= seq!["\r\n"@]);
    assert(trim_line_end("\r\n"@) == Seq::<char>::empty()) by {
        assert(seq!['\r'].drop_last() =~= Seq::<char>::empty());
        assert(trim_line_end(Seq::<char>::empty()) == Seq::<char>::empty());
        assert(trim_line_end(seq!['\r']) == Seq::<char>::empty());
        assert("\r\n"@.drop_last() =~= seq!['\r']);
        assert("\r\n"@.last() == '\n');
    }
    assert(length_of_headers(seq!["\r\n"@], Some(n)) == Some(n));
}

} // verus!
