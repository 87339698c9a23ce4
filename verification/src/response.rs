//! The response value: status, headers and body, and the bytes that go
//! over the wire for them.

use vstd::prelude::*;
use vstd::string::StrSliceExecFns;
use vstd::utf8::encode_utf8;

verus! {

/// A response as contracts see it.
pub struct ResponseView {
    pub status: nat,
    /// The headers, each name once, in the order in which the names were
    /// first set.
    pub headers: Seq<(Seq<char>, Seq<char>)>,
    pub body: Seq<u8>,
}

/// The first position at or after `from` whose header is named `name`, or
/// the number of headers if there is none.
pub open spec fn header_index(
    headers: Seq<(Seq<char>, Seq<char>)>,
    name: Seq<char>,
    from: int,
) -> int
    decreases headers.len() - from,
{
    if 0 <= from < headers.len() && headers[from].0 != name {
        header_index(headers, name, from + 1)
    } else {
        from
    }
}

/// `headers` with `name` set to `value`: in its old place if the name was
/// there, at the end if it was not.
pub open spec fn with_header(
    headers: Seq<(Seq<char>, Seq<char>)>,
    name: Seq<char>,
    value: Seq<char>,
) -> Seq<(Seq<char>, Seq<char>)> {
    let at = header_index(headers, name, 0);
    if at < headers.len() {
        headers.update(at, (name, value))
    } else {
        headers.push((name, value))
    }
}

/// Whether no two headers share a name.
pub open spec fn names_distinct(headers: Seq<(Seq<char>, Seq<char>)>) -> bool {
    forall|i: int, j: int|
        0 <= i < j < headers.len() ==> (#[trigger] headers[i]).0 != (#[trigger] headers[j]).0
}

/// The digits of `n` in base ten, as ASCII bytes, without leading zeros.
pub open spec fn decimal(n: nat) -> Seq<u8>
    decreases n,
{
    if n < 10 {
        seq![(48 + n) as u8]
    } else {
        decimal(n / 10).push((48 + n % 10) as u8)
    }
}

/// One header line: name, colon, space, value, line end.
pub open spec fn header_line(name: Seq<char>, value: Seq<char>) -> Seq<u8> {
    encode_utf8(name) + encode_utf8(": "@) + encode_utf8(value) + encode_utf8("\r\n"@)
}

/// The header lines of `headers`, in order.
pub open spec fn header_block(headers: Seq<(Seq<char>, Seq<char>)>) -> Seq<u8>
    decreases headers.len(),
{
    if headers.len() == 0 {
        Seq::empty()
    } else {
        header_block(headers.drop_last()) + header_line(headers.last().0, headers.last().1)
    }
}

/// The bytes of a response: status line, header lines, two empty lines,
/// the body and a line end.
pub open spec fn frame(response: ResponseView) -> Seq<u8> {
    encode_utf8("HTTP/1.1 "@) + decimal(response.status) + encode_utf8("\r\n"@) + header_block(
        response.headers,
    ) + encode_utf8("\r\n\r\n"@) + response.body + encode_utf8("\r\n"@)
}

/// Appends `bytes` to `out`.
fn append_bytes(out: &mut Vec<u8>, bytes: &[u8])
    ensures
        final(out)@ == old(out)@ + bytes@,
{
    let mut i: usize = 0;
    while i < bytes.len()
        invariant
            0 <= i <= bytes.len(),
            out@ == old(out)@ + bytes@.subrange(0, i as int),
        decreases bytes.len() - i,
    {
        out.push(bytes[i]);
        i += 1;
    }
    assert(bytes@.subrange(0, bytes.len() as int) =~= bytes@);
}

/// Appends the decimal digits of `n` to `out`.
fn append_decimal(out: &mut Vec<u8>, n: usize)
    ensures
        final(out)@ == old(out)@ + decimal(n as nat),
    decreases n,
{
    if n >= 10 {
        append_decimal(out, n / 10);
    }
    let digit: u8 = (n % 10) as u8;
    out.push(48 + digit);
}

/// A scan for a header stays within the list, stops at a header of that
/// name, and passes none.
pub proof fn lemma_header_index(headers: Seq<(Seq<char>, Seq<char>)>, name: Seq<char>, from: int)
    requires
        0 <= from <= headers.len(),
    ensures
        from <= header_index(headers, name, from) <= headers.len(),
        header_index(headers, name, from) < headers.len() ==> headers[header_index(
            headers,
            name,
            from,
        )].0 == name,
        forall|i: int| from <= i < header_index(headers, name, from) ==> headers[i].0 != name,
    decreases headers.len() - from,
{
    if from < headers.len() && headers[from].0 != name {
        lemma_header_index(headers, name, from + 1);
    }
}

/// Setting a header keeps every name single.
pub proof fn lemma_with_header_keeps_names_distinct(
    headers: Seq<(Seq<char>, Seq<char>)>,
    name: Seq<char>,
    value: Seq<char>,
)
    requires
        names_distinct(headers),
    ensures
        names_distinct(with_header(headers, name, value)),
{
    lemma_header_index(headers, name, 0);
    let at = header_index(headers, name, 0);
    let after = with_header(headers, name, value);
    assert forall|i: int, j: int| 0 <= i < j < after.len() implies (#[trigger] after[i]).0 != (
    #[trigger] after[j]).0 by {
        if at < headers.len() {
            assert(after[i].0 == headers[i].0);
            assert(after[j].0 == headers[j].0);
        } else if j < headers.len() {
            assert(after[i] == headers[i]);
            assert(after[j] == headers[j]);
        } else {
            assert(after[i] == headers[i]);
        }
    }
}

/// The views of a list of headers, in order.
pub open spec fn pair_views(pairs: Seq<(String, String)>) -> Seq<(Seq<char>, Seq<char>)> {
    pairs.map_values(|pair: (String, String)| (pair.0@, pair.1@))
}

/// The status, the headers and the body that answer one request.
#[derive(Debug)]
pub struct Response {
    status: usize,
    headers: Vec<(String, String)>,
    body: Vec<u8>,
}

impl View for Response {
    type V = ResponseView;

    closed spec fn view(&self) -> ResponseView {
        ResponseView {
            status: self.status as nat,
            headers: pair_views(self.headers@),
            body: self.body@,
        }
    }
}

impl Response {
    /// No header name is held twice.
    pub open spec fn wf(&self) -> bool {
        names_distinct(self@.headers)
    }

    /// A response with status 200, no header and an empty body.
    pub fn new() -> (response: Self)
        ensures
            response@ == (ResponseView { status: 200, headers: Seq::empty(), body: Seq::empty() }),
            response.wf(),
    {
        let response = Self { status: 200, headers: Vec::new(), body: Vec::new() };
        assert(pair_views(response.headers@) =~= Seq::empty());
        response
    }

    /// Where the header named `name` stands, or the number of headers.
    fn find_header(&self, name: &str) -> (at: usize)
        ensures
            at == header_index(self@.headers, name@, 0),
            at <= self.headers.len(),
    {
        let mut at: usize = 0;
        while at < self.headers.len()
            invariant
                0 <= at <= self.headers.len(),
                header_index(self@.headers, name@, at as int) == header_index(
                    self@.headers,
                    name@,
                    0,
                ),
            decreases self.headers.len() - at,
        {
            if self.headers[at].0.as_str().eq(name) {
                return at;
            }
            at += 1;
        }
        at
    }

    /// Sets the header `k` to `v`, in place of the value it had if it was
    /// set before.
    pub fn set_header(&mut self, k: &str, v: &str)
        ensures
            final(self)@ == (ResponseView {
                headers: with_header(old(self)@.headers, k@, v@),
                ..old(self)@
            }),
            old(self).wf() ==> final(self).wf(),
    {
        proof {
            if self.wf() {
                lemma_with_header_keeps_names_distinct(self@.headers, k@, v@);
            }
        }
        let at: usize = self.find_header(k);
        let entry = (k.to_owned(), v.to_owned());
        let ghost before = pair_views(self.headers@);
        if at < self.headers.len() {
            self.headers.set(at, entry);
            assert(pair_views(self.headers@) =~= before.update(at as int, (k@, v@)));
        } else {
            self.headers.push(entry);
            assert(pair_views(self.headers@) =~= before.push((k@, v@)));
        }
    }

    /// Sets the body to the bytes of `body`.
    pub fn set_body(&mut self, body: &str)
        ensures
            final(self)@ == (ResponseView { body: encode_utf8(body@), ..old(self)@ }),
    {
        self.body = body.as_bytes_vec();
    }

    /// Sets the status code.
    pub fn set_status(&mut self, status: usize)
        ensures
            final(self)@ == (ResponseView { status: status as nat, ..old(self)@ }),
    {
        self.status = status;
    }

    /// The bytes that go over the wire for the response.
    pub fn build_response(&self) -> (bytes: Vec<u8>)
        ensures
            bytes@ == frame(self@),
    {
        let mut out: Vec<u8> = Vec::new();
        append_bytes(&mut out, "HTTP/1.1 ".as_bytes());
        append_decimal(&mut out, self.status);
        append_bytes(&mut out, "\r\n".as_bytes());
        let ghost head = out@;
        let ghost views = pair_views(self.headers@);
        let mut i: usize = 0;
        while i < self.headers.len()
            invariant
                0 <= i <= self.headers.len(),
                views == pair_views(self.headers@),
                out@ == head + header_block(views.take(i as int)),
            decreases self.headers.len() - i,
        {
            append_bytes(&mut out, self.headers[i].0.as_str().as_bytes());
            append_bytes(&mut out, ": ".as_bytes());
            append_bytes(&mut out, self.headers[i].1.as_str().as_bytes());
            append_bytes(&mut out, "\r\n".as_bytes());
            proof {
                assert(views.take(i + 1).drop_last() =~= views.take(i as int));
                assert(views.take(i + 1).last() == views[i as int]);
                assert(out@ =~= head + header_block(views.take(i + 1)));
            }
            i += 1;
        }
        assert(views.take(i as int) =~= views);
        append_bytes(&mut out, "\r\n\r\n".as_bytes());
        append_bytes(&mut out, self.body.as_slice());
        append_bytes(&mut out, "\r\n".as_bytes());
        assert(out@ =~= frame(self@));
        out
    }
}

} // verus!
