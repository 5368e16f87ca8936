//! Answers to HTTP requests.

use vstd::prelude::*;
use vstd::string::*;
use vstd::utf8::*;

use httparse::{Error, Request, EMPTY_HEADER};

verus! {

/// Number of headers that a request may have.
pub const MAX_HEADERS: usize = 64;

/// The port that is listened to.
pub const PORT: u16 = 1797;

/// Why a request could not be read.
#[derive(Copy, Clone, Debug, PartialEq, Eq, Structural)]
pub enum ParseFault {
    HeaderName,
    HeaderValue,
    NewLine,
    Status,
    Token,
    TooManyHeaders,
    Version,
}

/// The method that `httparse::Request::parse` finds in bytes, with room for so many
/// headers: none where the bytes end before it, a fault where they are no request.
pub uninterp spec fn request_method(headers: nat, bytes: Seq<u8>) -> Result<
    Option<Seq<char>>,
    ParseFault,
>;

/// A found method as a mathematical value.
pub open spec fn found(method: Result<Option<String>, ParseFault>) -> Result<
    Option<Seq<char>>,
    ParseFault,
> {
    match method {
        Ok(Some(method)) => Ok(Some(method@)),
        Ok(None) => Ok(None),
        Err(fault) => Err(fault),
    }
}

/// `httparse::Request::parse` on a request with room for `N` headers, and the method
/// that it leaves in the request. What it reads depends on the bytes and on the room
/// alone.
#[verifier::external_body]
fn parse_method<const N: usize>(bytes: &[u8]) -> (r: Result<Option<String>, ParseFault>)
    ensures
        found(r) == request_method(N as nat, bytes@),
{
    let mut headers = [EMPTY_HEADER; N];
    let mut request = Request::new(&mut headers);
    match request.parse(bytes) {
        Ok(_) => Ok(request.method.map(|method| method.to_owned())),
        Err(Error::HeaderName) => Err(ParseFault::HeaderName),
        Err(Error::HeaderValue) => Err(ParseFault::HeaderValue),
        Err(Error::NewLine) => Err(ParseFault::NewLine),
        Err(Error::Status) => Err(ParseFault::Status),
        Err(Error::Token) => Err(ParseFault::Token),
        Err(Error::TooManyHeaders) => Err(ParseFault::TooManyHeaders),
        Err(Error::Version) => Err(ParseFault::Version),
    }
}

/// The status of a response.
#[derive(Copy, Clone, Debug, PartialEq, Eq, Structural)]
pub enum StatusCode {
    Success,
    MethodNotAllowed,
}

/// The status as it is sent.
pub open spec fn status_text(status: StatusCode) -> Seq<char> {
    match status {
        StatusCode::Success => "200 OK"@,
        StatusCode::MethodNotAllowed => "405 Method Not Allowed"@,
    }
}

impl StatusCode {
    /// The status as it is sent.
    pub fn text(self) -> (r: &'static str)
        ensures
            r@ == status_text(self),
    {
        match self {
            StatusCode::Success => "200 OK",
            StatusCode::MethodNotAllowed => "405 Method Not Allowed",
        }
    }
}

/// The text comes before another one in the order of their characters.
pub open spec fn precedes(a: Seq<char>, b: Seq<char>) -> bool
    decreases a.len(),
{
    if b.len() == 0 {
        false
    } else if a.len() == 0 {
        true
    } else if a[0] == b[0] {
        precedes(a.skip(1), b.skip(1))
    } else {
        a[0] < b[0]
    }
}

/// A header: its name and its value.
pub type Field = (Seq<char>, Seq<char>);

/// The headers with one more, in the order of their names. A header of that name
/// gets the new value.
pub open spec fn with_field(fields: Seq<Field>, name: Seq<char>, value: Seq<char>) -> Seq<Field>
    decreases fields.len(),
{
    if fields.len() == 0 || precedes(name, fields[0].0) {
        seq![(name, value)] + fields
    } else if fields[0].0 == name {
        seq![(name, value)] + fields.skip(1)
    } else {
        seq![fields[0]] + with_field(fields.skip(1), name, value)
    }
}

/// The names are in order and none is there twice.
pub open spec fn in_order(fields: Seq<Field>) -> bool {
    forall|i: int, j: int|
        0 <= i < j < fields.len() ==> precedes((#[trigger] fields[i]).0, (#[trigger] fields[j]).0)
}

/// A response as a mathematical value.
#[verifier::ext_equal]
pub struct Answer {
    pub status: StatusCode,
    pub fields: Seq<Field>,
    pub body: Seq<u8>,
}

/// The headers that every response has.
pub open spec fn base_fields() -> Seq<Field> {
    with_field(with_field(Seq::empty(), "Server"@, "D3OS httpd"@), "Connection"@, "close"@)
}

/// The answer to a request with this method.
pub open spec fn answer_to(method: Seq<char>) -> Answer {
    if method == "GET"@ {
        Answer {
            status: StatusCode::Success,
            fields: with_field(base_fields(), "Content-Type"@, "text/plain; charset=UTF-8"@),
            body: encode_utf8("Hello from D3OS!"@),
        }
    } else {
        Answer {
            status: StatusCode::MethodNotAllowed,
            fields: with_field(base_fields(), "Allowed"@, "GET"@),
            body: encode_utf8("Method not allowed: "@ + method),
        }
    }
}

/// The line that a header is sent as.
pub open spec fn field_line(field: Field) -> Seq<u8> {
    encode_utf8(field.0 + ": "@ + field.1 + "\n"@)
}

impl Answer {
    /// What is sent, piece by piece: the status line, a line for each header, an
    /// empty line, the body, and two line ends.
    pub open spec fn pieces(self) -> Seq<Seq<u8>> {
        seq![encode_utf8("HTTP/1.1 "@ + status_text(self.status) + "\n"@)] + Seq::new(
            self.fields.len(),
            |i: int| field_line(self.fields[i]),
        ) + seq![encode_utf8("\n"@), self.body, encode_utf8("\n\n"@)]
    }
}

/// Pieces as mathematical values.
pub open spec fn piece_bytes(pieces: Seq<Vec<u8>>) -> Seq<Seq<u8>> {
    Seq::new(pieces.len(), |i: int| pieces[i]@)
}

/// Headers as mathematical values.
pub open spec fn field_texts(headers: Seq<(String, String)>) -> Seq<Field> {
    Seq::new(headers.len(), |i: int| (headers[i].0@, headers[i].1@))
}

/// A response.
pub struct Response {
    pub status: StatusCode,
    pub headers: Vec<(String, String)>,
    pub body: Vec<u8>,
}

impl View for Response {
    type V = Answer;

    open spec fn view(&self) -> Answer {
        Answer { status: self.status, fields: field_texts(self.headers@), body: self.body@ }
    }
}

/// Whether `a` comes before `b`.
fn text_precedes(a: &str, b: &str) -> (r: bool)
    ensures
        r == precedes(a@, b@),
{
    let len_a: usize = a.unicode_len();
    let len_b: usize = b.unicode_len();
    let mut i: usize = 0;
    proof {
        assert(a@.skip(0) =~= a@ && b@.skip(0) =~= b@);
    }
    while i < len_a && i < len_b
        invariant
            len_a == a@.len(),
            len_b == b@.len(),
            i <= len_a,
            i <= len_b,
            precedes(a@, b@) == precedes(a@.skip(i as int), b@.skip(i as int)),
        decreases len_a - i,
    {
        let x = a.get_char(i);
        let y = b.get_char(i);
        if x != y {
            return x < y;
        }
        proof {
            assert(a@.skip(i as int).skip(1) =~= a@.skip(i + 1));
            assert(b@.skip(i as int).skip(1) =~= b@.skip(i + 1));
        }
        i = i + 1;
    }
    i < len_b
}

impl Response {
    /// A response with the headers that every response has.
    pub fn new(status: StatusCode) -> (r: Response)
        ensures
            r@ == (Answer { status, fields: base_fields(), body: Seq::empty() }),
    {
        let mut r = Response { status, headers: Vec::new(), body: Vec::new() };
        proof {
            assert(field_texts(r.headers@) =~= Seq::<Field>::empty());
        }
        r.insert("Server", "D3OS httpd");
        r.insert("Connection", "close");
        r
    }

    /// Set a header.
    pub fn insert(&mut self, name: &str, value: &str)
        ensures
            final(self)@ == (Answer {
                fields: with_field(old(self)@.fields, name@, value@),
                ..old(self)@
            }),
    {
        let ghost fields = field_texts(self.headers@);
        let mut i: usize = 0;
        proof {
            assert(fields.skip(0) =~= fields);
            assert(fields.take(0) + with_field(fields.skip(0), name@, value@) =~= with_field(
                fields,
                name@,
                value@,
            ));
        }
        while i < self.headers.len() && !text_precedes(name, self.headers[i].0.as_str())
            invariant
                *self == *old(self),
                fields == field_texts(self.headers@),
                i <= self.headers@.len(),
                fields.take(i as int) + with_field(fields.skip(i as int), name@, value@)
                    == with_field(fields, name@, value@),
            decreases self.headers@.len() - i,
        {
            proof {
                assert(fields.skip(i as int)[0] == fields[i as int]);
                assert(fields.skip(i as int).skip(1) =~= fields.skip(i + 1));
            }
            if self.headers[i].0 == name.to_owned() {
                self.headers[i] = (name.to_owned(), value.to_owned());
                proof {
                    assert(self@.fields =~= fields.take(i as int) + (seq![(name@, value@)]
                        + fields.skip(i + 1)));
                }
                return ;
            }
            proof {
                assert(fields.take(i as int) + (seq![fields[i as int]] + with_field(
                    fields.skip(i + 1),
                    name@,
                    value@,
                )) =~= fields.take(i + 1) + with_field(fields.skip(i + 1), name@, value@));
            }
            i = i + 1;
        }
        self.headers.insert(i, (name.to_owned(), value.to_owned()));
        proof {
            if i < fields.len() {
                assert(fields.skip(i as int)[0] == fields[i as int]);
            }
            assert(self@.fields =~= fields.take(i as int) + (seq![(name@, value@)] + fields.skip(
                i as int,
            )));
        }
    }

    /// What is sent to the client, piece by piece.
    pub fn pieces(&self) -> (r: Vec<Vec<u8>>)
        ensures
            piece_bytes(r@) == self@.pieces(),
    {
        let mut pieces: Vec<Vec<u8>> = Vec::new();
        let mut line = "HTTP/1.1 ".to_owned();
        line.push_str(self.status.text());
        line.push_str("\n");
        let ghost head = encode_utf8("HTTP/1.1 "@ + status_text(self.status) + "\n"@);
        pieces.push(line.as_str().as_bytes_vec());
        let ghost fields = field_texts(self.headers@);
        proof {
            assert(piece_bytes(pieces@) =~= seq![head] + Seq::new(
                0,
                |k: int| field_line(fields[k]),
            ));
        }
        let mut i: usize = 0;
        while i < self.headers.len()
            invariant
                i <= self.headers@.len(),
                fields == field_texts(self.headers@),
                piece_bytes(pieces@) == seq![head] + Seq::new(
                    i as nat,
                    |k: int| field_line(fields[k]),
                ),
            decreases self.headers@.len() - i,
        {
            let ghost before = piece_bytes(pieces@);
            let mut line = String::new();
            line.push_str(self.headers[i].0.as_str());
            line.push_str(": ");
            line.push_str(self.headers[i].1.as_str());
            line.push_str("\n");
            pieces.push(line.as_str().as_bytes_vec());
            proof {
                assert(line@ =~= fields[i as int].0 + ": "@ + fields[i as int].1 + "\n"@);
                assert(piece_bytes(pieces@) =~= before.push(field_line(fields[i as int])));
                assert(piece_bytes(pieces@) =~= seq![head] + Seq::new(
                    (i + 1) as nat,
                    |k: int| field_line(fields[k]),
                ));
            }
            i = i + 1;
        }
        let ghost before = piece_bytes(pieces@);
        pieces.push("\n".as_bytes_vec());
        pieces.push(self.body.clone());
        pieces.push("\n\n".as_bytes_vec());
        proof {
            assert(piece_bytes(pieces@) =~= before + seq![
                encode_utf8("\n"@),
                self.body@,
                encode_utf8("\n\n"@),
            ]);
            assert(piece_bytes(pieces@) =~= self@.pieces());
        }
        pieces
    }
}

/// The response to a request with this method.
pub fn handle(method: &str) -> (r: Response)
    ensures
        r@ == answer_to(method@),
{
    if method.to_owned() == "GET".to_owned() {
        let mut r = Response::new(StatusCode::Success);
        r.insert("Content-Type", "text/plain; charset=UTF-8");
        r.body = "Hello from D3OS!".as_bytes_vec();
        r
    } else {
        let mut r = Response::new(StatusCode::MethodNotAllowed);
        r.insert("Allowed", "GET");
        let mut text = "Method not allowed: ".to_owned();
        text.push_str(method);
        r.body = text.as_str().as_bytes_vec();
        r
    }
}

/// The response to the bytes that a client sent: none where they end before the
/// method does.
pub fn respond(bytes: &[u8]) -> (r: Result<Option<Response>, ParseFault>)
    ensures
        match request_method(MAX_HEADERS as nat, bytes@) {
            Ok(Some(method)) => r matches Ok(Some(response)) && response@ == answer_to(method),
            Ok(None) => r matches Ok(None),
            Err(fault) => r matches Err(f) && f == fault,
        },
{
    match parse_method::<MAX_HEADERS>(bytes) {
        Ok(Some(method)) => Ok(Some(handle(method.as_str()))),
        Ok(None) => Ok(None),
        Err(fault) => Err(fault),
    }
}

proof fn lemma_precedes_transitive(a: Seq<char>, b: Seq<char>, c: Seq<char>)
    requires
        precedes(a, b),
        precedes(b, c),
    ensures
        precedes(a, c),
    decreases a.len(),
{
    if a.len() > 0 && b.len() > 0 && c.len() > 0 && a[0] == b[0] && b[0] == c[0] {
        lemma_precedes_transitive(a.skip(1), b.skip(1), c.skip(1));
    }
}

proof fn lemma_precedes_total(a: Seq<char>, b: Seq<char>)
    ensures
        precedes(a, b) || precedes(b, a) || a == b,
    decreases a.len(),
{
    if a.len() == 0 || b.len() == 0 {
        if a.len() == 0 && b.len() == 0 {
            assert(a =~= b);
        }
    } else if a[0] == b[0] {
        lemma_precedes_total(a.skip(1), b.skip(1));
        if a.skip(1) == b.skip(1) {
            assert(a =~= seq![a[0]] + a.skip(1));
            assert(b =~= seq![b[0]] + b.skip(1));
        }
    }
}

/// Setting a header keeps the headers in order, gives that header the new value and
/// leaves the others alone.
pub proof fn law_headers_stay_in_order(fields: Seq<Field>, name: Seq<char>, value: Seq<char>)
    requires
        in_order(fields),
    ensures
        in_order(with_field(fields, name, value)),
        with_field(fields, name, value).contains((name, value)),
        forall|field: Field|
            field.0 != name ==> (#[trigger] with_field(fields, name, value).contains(field)
                <==> fields.contains(field)),
        forall|i: int|
            0 <= i < with_field(fields, name, value).len() ==> (#[trigger] with_field(
                fields,
                name,
                value,
            )[i]).0 == name || fields.contains(with_field(fields, name, value)[i]),
    decreases fields.len(),
{
    let out = with_field(fields, name, value);
    let new: Field = (name, value);
    if fields.len() == 0 {
        assert(out =~= seq![new]);
        assert(out[0] == new);
    } else if precedes(name, fields[0].0) {
        assert(out =~= seq![new] + fields);
        assert(out[0] == new);
        assert forall|i: int, j: int| 0 <= i < j < out.len() implies precedes(
            (#[trigger] out[i]).0,
            (#[trigger] out[j]).0,
        ) by {
            assert(out[j] == fields[j - 1]);
            if i > 0 {
                assert(out[i] == fields[i - 1]);
            } else if j > 1 {
                lemma_precedes_transitive(name, fields[0].0, fields[j - 1].0);
            }
        }
        assert forall|field: Field| field.0 != name implies (#[trigger] out.contains(field)
            <==> fields.contains(field)) by {
            if fields.contains(field) {
                let k = choose|k: int| 0 <= k < fields.len() && fields[k] == field;
                assert(out[k + 1] == field);
            }
            if out.contains(field) {
                let k = choose|k: int| 0 <= k < out.len() && out[k] == field;
                assert(fields[k - 1] == field);
            }
        }
        assert forall|i: int| 0 <= i < out.len() implies (#[trigger] out[i]).0 == name
            || fields.contains(out[i]) by {
            if i > 0 {
                assert(out[i] == fields[i - 1]);
            }
        }
    } else if fields[0].0 == name {
        assert(out =~= fields.update(0, new));
        assert(out[0] == new);
        assert forall|i: int, j: int| 0 <= i < j < out.len() implies precedes(
            (#[trigger] out[i]).0,
            (#[trigger] out[j]).0,
        ) by {
            assert(out[i].0 == fields[i].0 && out[j].0 == fields[j].0);
        }
        assert forall|field: Field| field.0 != name implies (#[trigger] out.contains(field)
            <==> fields.contains(field)) by {
            if fields.contains(field) {
                let k = choose|k: int| 0 <= k < fields.len() && fields[k] == field;
                assert(out[k] == field);
            }
            if out.contains(field) {
                let k = choose|k: int| 0 <= k < out.len() && out[k] == field;
                assert(fields[k] == field);
            }
        }
        assert forall|i: int| 0 <= i < out.len() implies (#[trigger] out[i]).0 == name
            || fields.contains(out[i]) by {
            assert(i > 0 ==> out[i] == fields[i]);
        }
    } else {
        let rest = fields.skip(1);
        let later = with_field(rest, name, value);
        lemma_precedes_total(name, fields[0].0);
        assert(in_order(rest)) by {
            assert forall|i: int, j: int| 0 <= i < j < rest.len() implies precedes(
                (#[trigger] rest[i]).0,
                (#[trigger] rest[j]).0,
            ) by {
                assert(rest[i] == fields[i + 1] && rest[j] == fields[j + 1]);
            }
        }
        law_headers_stay_in_order(rest, name, value);
        assert(out =~= seq![fields[0]] + later);
        assert forall|i: int, j: int| 0 <= i < j < out.len() implies precedes(
            (#[trigger] out[i]).0,
            (#[trigger] out[j]).0,
        ) by {
            assert(out[j] == later[j - 1]);
            if i > 0 {
                assert(out[i] == later[i - 1]);
            } else if later[j - 1].0 != name {
                assert(rest.contains(later[j - 1]));
                let k = choose|k: int| 0 <= k < rest.len() && rest[k] == later[j - 1];
                assert(fields[k + 1] == later[j - 1]);
                assert(precedes(fields[0].0, fields[k + 1].0));
            }
        }
        let at = choose|k: int| 0 <= k < later.len() && later[k] == new;
        assert(out[at + 1] == new);
        assert forall|field: Field| field.0 != name implies (#[trigger] out.contains(field)
            <==> fields.contains(field)) by {
            assert(later.contains(field) <==> rest.contains(field));
            if fields.contains(field) {
                let k = choose|k: int| 0 <= k < fields.len() && fields[k] == field;
                if k > 0 {
                    assert(rest[k - 1] == field);
                    let m = choose|m: int| 0 <= m < later.len() && later[m] == field;
                    assert(out[m + 1] == field);
                } else {
                    assert(out[0] == field);
                }
            }
            if out.contains(field) {
                let k = choose|k: int| 0 <= k < out.len() && out[k] == field;
                if k > 0 {
                    assert(later[k - 1] == field);
                    let m = choose|m: int| 0 <= m < rest.len() && rest[m] == field;
                    assert(fields[m + 1] == field);
                } else {
                    assert(fields[0] == field);
                }
            }
        }
        assert forall|i: int| 0 <= i < out.len() implies (#[trigger] out[i]).0 == name
            || fields.contains(out[i]) by {
            if i > 0 {
                assert(out[i] == later[i - 1]);
                if later[i - 1].0 != name {
                    assert(rest.contains(later[i - 1]));
                    let m = choose|m: int| 0 <= m < rest.len() && rest[m] == later[i - 1];
                    assert(fields[m + 1] == out[i]);
                }
            } else {
                assert(out[0] == fields[0]);
            }
        }
    }
}

/// Every answer names the server, closes the connection, and lists its headers in
/// order; only GET is answered with success, any other method with what is allowed.
pub proof fn law_answers(method: Seq<char>)
    ensures
        answer_to(method).status == StatusCode::Success <==> method == "GET"@,
        in_order(answer_to(method).fields),
        answer_to(method).fields.contains(("Server"@, "D3OS httpd"@)),
        answer_to(method).fields.contains(("Connection"@, "close"@)),
        method != "GET"@ ==> answer_to(method).fields.contains(("Allowed"@, "GET"@)),
{
    reveal_strlit("Server");
    reveal_strlit("Connection");
    reveal_strlit("Content-Type");
    reveal_strlit("Allowed");
    let none = Seq::<Field>::empty();
    law_headers_stay_in_order(none, "Server"@, "D3OS httpd"@);
    let one = with_field(none, "Server"@, "D3OS httpd"@);
    law_headers_stay_in_order(one, "Connection"@, "close"@);
    assert("Server"@.len() != "Connection"@.len());
    let server: Field = ("Server"@, "D3OS httpd"@);
    let connection: Field = ("Connection"@, "close"@);
    assert(base_fields().contains(server));
    assert(base_fields().contains(connection));
    law_headers_stay_in_order(base_fields(), "Content-Type"@, "text/plain; charset=UTF-8"@);
    law_headers_stay_in_order(base_fields(), "Allowed"@, "GET"@);
    assert("Server"@.len() != "Content-Type"@.len() && "Connection"@.len()
        != "Content-Type"@.len());
    assert("Server"@.len() != "Allowed"@.len() && "Connection"@.len() != "Allowed"@.len());
    assert(with_field(
        base_fields(),
        "Content-Type"@,
        "text/plain; charset=UTF-8"@,
    ).contains(server));
    assert(with_field(
        base_fields(),
        "Content-Type"@,
        "text/plain; charset=UTF-8"@,
    ).contains(connection));
    assert(with_field(base_fields(), "Allowed"@, "GET"@).contains(server));
    assert(with_field(base_fields(), "Allowed"@, "GET"@).contains(connection));
}

/// The order of texts is that of a dictionary: the first character in which they differ
/// decides, and a text comes before those that it begins.
pub proof fn law_dictionary_order(a: Seq<char>, b: Seq<char>, n: int)
    requires
        0 <= n <= a.len(),
        n <= b.len(),
        forall|i: int| 0 <= i < n ==> #[trigger] a[i] == b[i],
    ensures
        n < a.len() && n < b.len() && a[n] < b[n] ==> precedes(a, b) && !precedes(b, a),
        n == a.len() && n < b.len() ==> precedes(a, b) && !precedes(b, a),
        n == a.len() && n == b.len() ==> !precedes(a, b) && !precedes(b, a),
    decreases n,
{
    if n > 0 {
        assert(a[0] == b[0]);
        assert forall|i: int| 0 <= i < n - 1 implies #[trigger] a.skip(1)[i] == b.skip(1)[i] by {
            assert(a[i + 1] == b[i + 1]);
        }
        law_dictionary_order(a.skip(1), b.skip(1), n - 1);
    }
}

/// Every response carries the same two headers and one of its own: to a request that is
/// allowed the kind of its body, which is a greeting; to any other the method that is
/// allowed, and a body that names the one that is not.
pub proof fn law_response_content(method: Seq<char>)
    ensures
        ({
            let answer = answer_to(method);
            let connection: Field = ("Connection"@, "close"@);
            let server: Field = ("Server"@, "D3OS httpd"@);
            &&& method == "GET"@ ==> {
                &&& answer.status == StatusCode::Success
                &&& answer.fields == seq![
                    connection,
                    ("Content-Type"@, "text/plain; charset=UTF-8"@),
                    server,
                ]
                &&& answer.body == encode_utf8("Hello from D3OS!"@)
            }
            &&& method != "GET"@ ==> {
                &&& answer.status == StatusCode::MethodNotAllowed
                &&& answer.fields == seq![("Allowed"@, "GET"@), connection, server]
                &&& answer.body == encode_utf8("Method not allowed: "@ + method)
            }
        }),
{
    reveal_strlit("Server");
    reveal_strlit("Connection");
    reveal_strlit("Content-Type");
    reveal_strlit("Allowed");
    let server: Field = ("Server"@, "D3OS httpd"@);
    let connection: Field = ("Connection"@, "close"@);
    let kind: Field = ("Content-Type"@, "text/plain; charset=UTF-8"@);
    let none = Seq::<Field>::empty();
    law_dictionary_order("Connection"@, "Server"@, 0);
    law_dictionary_order("Content-Type"@, "Server"@, 0);
    law_dictionary_order("Connection"@, "Content-Type"@, 3);
    law_dictionary_order("Allowed"@, "Connection"@, 0);
    assert(with_field(none, server.0, server.1) =~= seq![server]);
    assert(base_fields() =~= seq![connection, server]);
    assert("Content-Type"@ != "Connection"@);
    assert(seq![connection, server].skip(1) =~= seq![server]);
    assert(with_field(seq![server], kind.0, kind.1) =~= seq![kind, server]);
    assert(with_field(base_fields(), kind.0, kind.1) =~= seq![connection, kind, server]);
    assert(with_field(base_fields(), "Allowed"@, "GET"@) =~= seq![
        ("Allowed"@, "GET"@),
        connection,
        server,
    ]);
}

/// What is sent begins with the status line. Behind it comes one line for each header in
/// turn, then an empty line, the body as it is, and two line ends.
pub proof fn law_response_pieces(answer: Answer)
    ensures
        ({
            let sent = answer.pieces();
            let n = answer.fields.len() as int;
            &&& sent.len() == n + 4
            &&& answer.status == StatusCode::Success ==> sent[0] == encode_utf8(
                "HTTP/1.1 "@ + "200 OK"@ + "\n"@,
            )
            &&& answer.status == StatusCode::MethodNotAllowed ==> sent[0] == encode_utf8(
                "HTTP/1.1 "@ + "405 Method Not Allowed"@ + "\n"@,
            )
            &&& forall|i: int|
                0 <= i < n ==> sent[i + 1] == encode_utf8(
                    (#[trigger] answer.fields[i]).0 + ": "@ + answer.fields[i].1 + "\n"@,
                )
            &&& sent[n + 1] == encode_utf8("\n"@)
            &&& sent[n + 2] == answer.body
            &&& sent[n + 3] == encode_utf8("\n\n"@)
        }),
{
}

} // verus!
