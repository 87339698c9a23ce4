//! The request value: method, route, headers, parameters and body of one
//! incoming request.

use vstd::prelude::*;
use vstd::hash_map::StringHashMap;
use vstd::string::StrSliceExecFns;
use vstd::utf8::encode_utf8;
use crate::text::{
    after_space, after_word, chars_of, entries_map, first_piece, first_piece_of, index_of,
    join_from, joined, last_piece, last_piece_of, lines, lines_of, map_view, row_views, skip_space,
    skip_word, slice_of, split, split_at, string_from, string_of, trim, trimmed, find,
};

verus! {

/// The lowercase form of a string as `str::to_lowercase` gives it.
pub uninterp spec fn lowercase(s: Seq<char>) -> Seq<char>;

/// `str::to_lowercase` returns the lowercase equivalent of the slice: a
/// function of its characters alone.
pub assume_specification[ str::to_lowercase ](s: &str) -> (lower: String)
    ensures
        lower@ == lowercase(s@),
;

/// The verb of a request; `Error` stands for every verb that is not known.
#[derive(Debug, Clone, Copy, PartialEq, Eq, Hash, Structural)]
pub enum HttpMethod {
    Get,
    Post,
    Put,
    Patch,
    Delete,
    Options,
    Error,
}

/// The method that a verb in lowercase names.
pub open spec fn method_named(lower: Seq<char>) -> HttpMethod {
    if lower == "get"@ {
        HttpMethod::Get
    } else if lower == "post"@ {
        HttpMethod::Post
    } else if lower == "put"@ {
        HttpMethod::Put
    } else if lower == "patch"@ {
        HttpMethod::Patch
    } else if lower == "delete"@ {
        HttpMethod::Delete
    } else if lower == "options"@ {
        HttpMethod::Options
    } else {
        HttpMethod::Error
    }
}

impl HttpMethod {
    /// The method that `method` names, whatever the case of its letters.
    pub fn from(method: &str) -> (m: Self)
        ensures
            m == method_named(lowercase(method@)),
    {
        let lower = method.to_lowercase();
        Self::from_lowercase(lower.as_str())
    }

    /// The method that the lowercase verb `lower` names.
    pub fn from_lowercase(lower: &str) -> (m: Self)
        ensures
            m == method_named(lower@),
    {
        if lower.eq("get") {
            Self::Get
        } else if lower.eq("post") {
            Self::Post
        } else if lower.eq("put") {
            Self::Put
        } else if lower.eq("patch") {
            Self::Patch
        } else if lower.eq("delete") {
            Self::Delete
        } else if lower.eq("options") {
            Self::Options
        } else {
            Self::Error
        }
    }

    /// The name under which a method is printed.
    pub open spec fn name_spec(&self) -> Seq<char> {
        match self {
            HttpMethod::Get => "Get"@,
            HttpMethod::Post => "Post"@,
            HttpMethod::Put => "Put"@,
            HttpMethod::Patch => "Patch"@,
            HttpMethod::Delete => "Delete"@,
            HttpMethod::Options => "Options"@,
            HttpMethod::Error => "_"@,
        }
    }

    /// The name under which the method is printed.
    pub fn name(&self) -> (name: &'static str)
        ensures
            name@ == self.name_spec(),
    {
        match self {
            HttpMethod::Get => "Get",
            HttpMethod::Post => "Post",
            HttpMethod::Put => "Put",
            HttpMethod::Patch => "Patch",
            HttpMethod::Delete => "Delete",
            HttpMethod::Options => "Options",
            HttpMethod::Error => "_",
        }
    }

    /// The key under which a route table files the method.
    pub open spec fn code_spec(&self) -> u8 {
        match self {
            HttpMethod::Get => 0,
            HttpMethod::Post => 1,
            HttpMethod::Put => 2,
            HttpMethod::Patch => 3,
            HttpMethod::Delete => 4,
            HttpMethod::Options => 5,
            HttpMethod::Error => 6,
        }
    }

    /// The key under which a route table files the method; no two methods
    /// share one.
    #[verifier::when_used_as_spec(code_spec)]
    pub fn code(&self) -> (code: u8)
        ensures
            code == self.code_spec(),
    {
        match self {
            HttpMethod::Get => 0,
            HttpMethod::Post => 1,
            HttpMethod::Put => 2,
            HttpMethod::Patch => 3,
            HttpMethod::Delete => 4,
            HttpMethod::Options => 5,
            HttpMethod::Error => 6,
        }
    }
}

/// The text that `String::from_utf8_lossy` reads out of bytes.
pub uninterp spec fn lossy_text(bytes: Seq<u8>) -> Seq<char>;

/// `String::from_utf8_lossy` turns bytes into text, with the replacement
/// character in place of what is not UTF-8: a function of the bytes alone.
#[verifier::external_body]
fn decode_lossy(bytes: &[u8]) -> (text: String)
    ensures
        text@ == lossy_text(bytes@),
{
    String::from_utf8_lossy(bytes).into_owned()
}

/// A request as contracts see it.
pub struct RequestView {
    pub method: HttpMethod,
    /// The request target, with its query suffix if it has one.
    pub route: Seq<char>,
    pub headers: Map<Seq<char>, Seq<char>>,
    pub url_params: Map<Seq<char>, Seq<char>>,
    pub query_params: Map<Seq<char>, Seq<char>>,
    pub body: Seq<u8>,
}

/// Method and route of a status line: its first two words, the first read
/// as a verb; `GET /` where it has fewer than two.
pub open spec fn status_of(line: Seq<char>) -> (HttpMethod, Seq<char>) {
    let verb_from = skip_space(line, 0);
    let verb_to = skip_word(line, verb_from);
    let route_from = skip_space(line, verb_to);
    let route_to = skip_word(line, route_from);
    if route_from < line.len() {
        (method_named(lowercase(line.subrange(verb_from, verb_to))), line.subrange(
            route_from,
            route_to,
        ))
    } else {
        (HttpMethod::Get, "/"@)
    }
}

/// Name and value of a header line: what stands before its first colon and
/// what stands after its last, each without the white space around it.
pub open spec fn header_entry(line: Seq<char>) -> (Seq<char>, Seq<char>) {
    (trimmed(first_piece(line, ':')), trimmed(last_piece(line, ':')))
}

/// The header entries of `rows`, in order.
pub open spec fn header_entries(rows: Seq<Seq<char>>) -> Seq<(Seq<char>, Seq<char>)> {
    rows.map_values(|row: Seq<char>| header_entry(row))
}

/// Where the header lines that start at `from` stop: at the first empty
/// line, or at the end of `rows`.
pub open spec fn header_stop(rows: Seq<Seq<char>>, from: int) -> int
    decreases rows.len() - from,
{
    if 0 <= from < rows.len() && rows[from].len() > 0 {
        header_stop(rows, from + 1)
    } else {
        from
    }
}

/// Name and value of one query parameter: what stands before its first
/// colon and what stands after its last.
pub open spec fn query_entry(piece: Seq<char>) -> (Seq<char>, Seq<char>) {
    (first_piece(piece, ':'), last_piece(piece, ':'))
}

/// The query entries of `pieces`, in order.
pub open spec fn query_entries(pieces: Seq<Seq<char>>) -> Seq<(Seq<char>, Seq<char>)> {
    pieces.map_values(|piece: Seq<char>| query_entry(piece))
}

/// The query parameters of a route: none where it holds no `?`; otherwise
/// those of the text between its first `?` and its second, or its end, cut
/// at every `&`.
pub open spec fn query_of(route: Seq<char>) -> Map<Seq<char>, Seq<char>> {
    let mark = index_of(route, 0, '?');
    if mark < route.len() {
        entries_map(
            query_entries(split(route.subrange(mark + 1, index_of(route, mark + 1, '?')), '&')),
        )
    } else {
        Map::empty()
    }
}

/// The request that the text of a message holds.
///
/// The first line is the status line. The lines after it, up to the first
/// empty line, are headers. What follows that empty line is the body, its
/// lines joined by line feeds.
pub open spec fn parsed(text: Seq<char>) -> RequestView {
    let rows = lines(text);
    let first = if rows.len() > 0 {
        rows[0]
    } else {
        Seq::empty()
    };
    let from: int = if rows.len() > 0 {
        1
    } else {
        0
    };
    let stop = header_stop(rows, from);
    let body_from = if stop < rows.len() {
        stop + 1
    } else {
        stop
    };
    RequestView {
        method: status_of(first).0,
        route: status_of(first).1,
        headers: entries_map(header_entries(rows.subrange(from, stop))),
        url_params: Map::empty(),
        query_params: query_of(status_of(first).1),
        body: encode_utf8(joined(rows.subrange(body_from, rows.len() as int), '\n')),
    }
}

/// What parsing a message gives, before a request is made of it.
pub struct RequestData {
    pub headers: StringHashMap<String>,
    pub query_params: StringHashMap<String>,
    pub body: Vec<u8>,
    pub method: HttpMethod,
    pub route: String,
}

impl View for RequestData {
    type V = RequestView;

    open spec fn view(&self) -> RequestView {
        RequestView {
            method: self.method,
            route: self.route@,
            headers: map_view(self.headers),
            url_params: Map::empty(),
            query_params: map_view(self.query_params),
            body: self.body@,
        }
    }
}

impl RequestData {
    /// The parts of a parsed message, put together.
    pub fn new(
        headers: StringHashMap<String>,
        query_params: StringHashMap<String>,
        body: Vec<u8>,
        method: HttpMethod,
        route: String,
    ) -> (data: Self)
        ensures
            data == (RequestData { headers, query_params, body, method, route }),
    {
        Self { headers, query_params, body, method, route }
    }
}

/// One incoming request.
pub struct Request {
    method: HttpMethod,
    route: String,
    headers: StringHashMap<String>,
    url_params: StringHashMap<String>,
    query_params: StringHashMap<String>,
    body: Vec<u8>,
}

impl View for Request {
    type V = RequestView;

    closed spec fn view(&self) -> RequestView {
        RequestView {
            method: self.method,
            route: self.route@,
            headers: map_view(self.headers),
            url_params: map_view(self.url_params),
            query_params: map_view(self.query_params),
            body: self.body@,
        }
    }
}

/// What a lookup in a map of strings returned, against the map's view.
pub open spec fn looked_up(
    map: Map<Seq<char>, Seq<char>>,
    name: Seq<char>,
    found: Option<&String>,
) -> bool {
    match found {
        Some(value) => map.contains_key(name) && value@ == map[name],
        None => !map.contains_key(name),
    }
}

impl Request {
    /// The request in the bytes of `buffer`, read as text.
    pub fn new(buffer: [u8; 1024]) -> (request: Self)
        ensures
            request@ == parsed(lossy_text(buffer@)),
    {
        Self::from_data(Self::parse_request(buffer))
    }

    /// The request that the text of a message holds.
    pub fn from_text(text: &str) -> (request: Self)
        ensures
            request@ == parsed(text@),
    {
        Self::from_data(Self::parse_text(text))
    }

    /// A request of parsed parts, with no URL parameter yet.
    fn from_data(data: RequestData) -> (request: Self)
        ensures
            request@ == data@,
    {
        let url_params = StringHashMap::<String>::new();
        assert(map_view(url_params) =~= Map::empty());
        Self {
            headers: data.headers,
            body: data.body,
            method: data.method,
            route: data.route,
            query_params: data.query_params,
            url_params,
        }
    }

    /// The value of the header named `k`, if the request has it.
    pub fn get_header(&self, k: &str) -> (value: Option<&String>)
        ensures
            looked_up(self@.headers, k@, value),
    {
        self.headers.get(k)
    }

    /// The bytes of the body.
    pub fn body(&self) -> (body: &[u8])
        ensures
            body@ == self@.body,
    {
        self.body.as_slice()
    }

    /// The request target, with its query suffix if it has one.
    pub fn route(&self) -> (route: &String)
        ensures
            route@ == self@.route,
    {
        &self.route
    }

    /// The method of the request.
    pub fn method(&self) -> (method: &HttpMethod)
        ensures
            *method == self@.method,
    {
        &self.method
    }

    /// Puts `params` in place of the URL parameters; `None` changes
    /// nothing.
    pub fn set_url_params(&mut self, params: Option<StringHashMap<String>>)
        ensures
            final(self)@ == (RequestView {
                url_params: match params {
                    Some(p) => map_view(p),
                    None => old(self)@.url_params,
                },
                ..old(self)@
            }),
    {
        if let Some(params) = params {
            self.url_params = params;
        }
    }

    /// The value of the URL parameter named `param`, if there is one.
    pub fn get_url_param(&self, param: &str) -> (value: Option<&String>)
        ensures
            looked_up(self@.url_params, param@, value),
    {
        self.url_params.get(param)
    }

    /// Puts `params` in place of the query parameters; `None` changes
    /// nothing.
    pub fn set_query_params(&mut self, params: Option<StringHashMap<String>>)
        ensures
            final(self)@ == (RequestView {
                query_params: match params {
                    Some(p) => map_view(p),
                    None => old(self)@.query_params,
                },
                ..old(self)@
            }),
    {
        if let Some(params) = params {
            self.query_params = params;
        }
    }

    /// The value of the query parameter named `param`, if there is one.
    pub fn get_query_params(&self, param: &str) -> (value: Option<&String>)
        ensures
            looked_up(self@.query_params, param@, value),
    {
        self.query_params.get(param)
    }

    /// Parses the bytes of `buffer`, read as text.
    pub fn parse_request(buffer: [u8; 1024]) -> (data: RequestData)
        ensures
            data@ == parsed(lossy_text(buffer@)),
    {
        let text = decode_lossy(buffer.as_slice());
        Self::parse_text(text.as_str())
    }

    /// Parses the text of a message.
    pub fn parse_text(text: &str) -> (data: RequestData)
        ensures
            data@ == parsed(text@),
    {
        let chars = chars_of(text);
        let rows = lines_of(&chars);
        let blank: Vec<char> = Vec::new();
        let from: usize = if rows.len() > 0 {
            1
        } else {
            0
        };
        let (method, route) = if rows.len() > 0 {
            assert(row_views(rows@)[0] == rows[0]@);
            Self::parse_status_line(&rows[0])
        } else {
            Self::parse_status_line(&blank)
        };
        let (headers, body_from) = Self::parse_headers(&rows, from);
        let route_chars = chars_of(route.as_str());
        let query_params = Self::parse_query_params(&route_chars);
        let body = join_from(&rows, body_from, '\n').as_str().as_bytes_vec();
        RequestData::new(headers, query_params, body, method, route)
    }

    /// Method and route of a status line.
    pub fn parse_status_line(line: &Vec<char>) -> (status: (HttpMethod, String))
        ensures
            status.0 == status_of(line@).0,
            status.1@ == status_of(line@).1,
    {
        let verb_from: usize = after_space(line, 0);
        let verb_to: usize = after_word(line, verb_from);
        let route_from: usize = after_space(line, verb_to);
        let route_to: usize = after_word(line, route_from);
        if route_from < line.len() {
            let verb = string_of(line, verb_from, verb_to);
            (HttpMethod::from(verb.as_str()), string_of(line, route_from, route_to))
        } else {
            (HttpMethod::Get, "/".to_owned())
        }
    }

    /// The query parameters of a route.
    pub fn parse_query_params(route: &Vec<char>) -> (params: StringHashMap<String>)
        ensures
            map_view(params) == query_of(route@),
    {
        let mut params = StringHashMap::<String>::new();
        assert(map_view(params) =~= Map::empty());
        let mark: usize = find(route, 0, '?');
        if mark >= route.len() {
            return params;
        }
        let end: usize = find(route, mark + 1, '?');
        let text = slice_of(route, mark + 1, end);
        let pieces = split_at(&text, '&');
        let ghost entries = query_entries(row_views(pieces@));
        let mut i: usize = 0;
        assert(entries.take(0) =~= Seq::empty());
        while i < pieces.len()
            invariant
                0 <= i <= pieces.len(),
                entries == query_entries(row_views(pieces@)),
                map_view(params) == entries_map(entries.take(i as int)),
            decreases pieces.len() - i,
        {
            let name = string_from(&first_piece_of(&pieces[i], ':'));
            let value = string_from(&last_piece_of(&pieces[i], ':'));
            let ghost before = map_view(params);
            let ghost name_view = name@;
            let ghost value_view = value@;
            params.insert(name, value);
            proof {
                assert(map_view(params) =~= before.insert(name_view, value_view));
                assert(entries.take(i + 1).drop_last() =~= entries.take(i as int));
                assert(entries.take(i + 1).last() == query_entry(pieces[i as int]@));
            }
            i += 1;
        }
        assert(entries.take(i as int) =~= entries);
        params
    }

    /// The headers that start at line `from`, and the line at which the
    /// body starts.
    pub fn parse_headers(rows: &Vec<Vec<char>>, from: usize) -> (found: (
        StringHashMap<String>,
        usize,
    ))
        requires
            from <= rows.len(),
        ensures
            map_view(found.0) == entries_map(
                header_entries(
                    row_views(rows@).subrange(from as int, header_stop(row_views(rows@), from as int)),
                ),
            ),
            found.1 == if header_stop(row_views(rows@), from as int) < rows.len() {
                header_stop(row_views(rows@), from as int) + 1
            } else {
                header_stop(row_views(rows@), from as int)
            },
            from <= found.1 <= rows.len(),
    {
        let ghost views = row_views(rows@);
        let mut headers = StringHashMap::<String>::new();
        assert(map_view(headers) =~= Map::empty());
        assert(header_entries(views.subrange(from as int, from as int)) =~= Seq::empty());
        let mut i: usize = from;
        while i < rows.len() && rows[i].len() > 0
            invariant
                from <= i <= rows.len(),
                views == row_views(rows@),
                header_stop(views, i as int) == header_stop(views, from as int),
                map_view(headers) == entries_map(
                    header_entries(views.subrange(from as int, i as int)),
                ),
            decreases rows.len() - i,
        {
            let name = string_from(&trim(&first_piece_of(&rows[i], ':')));
            let value = string_from(&trim(&last_piece_of(&rows[i], ':')));
            let ghost before = map_view(headers);
            let ghost name_view = name@;
            let ghost value_view = value@;
            headers.insert(name, value);
            proof {
                let next = header_entries(views.subrange(from as int, i + 1));
                assert(map_view(headers) =~= before.insert(name_view, value_view));
                assert(next.drop_last() =~= header_entries(
                    views.subrange(from as int, i as int),
                ));
                assert(next.last() == header_entry(rows[i as int]@));
                assert(views[i as int].len() > 0);
            }
            i += 1;
        }
        assert(i < rows.len() ==> views[i as int].len() == 0);
        let next: usize = if i < rows.len() {
            i + 1
        } else {
            i
        };
        (headers, next)
    }
}

} // verus!
