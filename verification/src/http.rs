//! Plain values for what the proxy reads from a request and writes to a
//! response. Header names are lower-case, as they travel in HTTP/2. A
//! header line of a request may hold a value that is not text; such a line
//! is kept, without its value.

use crate::text::str_eq;
use vstd::prelude::*;

verus! {

/// One header line.
pub struct Header {
    pub name: String,
    /// The value, where it is text.
    pub value: Option<String>,
}

/// A header line as mathematical values.
pub struct HeaderView {
    pub name: Seq<char>,
    pub value: Option<Seq<char>>,
}

impl View for Header {
    type V = HeaderView;

    open spec fn view(&self) -> HeaderView {
        HeaderView {
            name: self.name@,
            value: match self.value {
                Some(text) => Some(text@),
                None => None,
            },
        }
    }
}

impl Clone for Header {
    fn clone(&self) -> (copy: Self)
        ensures
            copy == *self,
    {
        Header {
            name: self.name.clone(),
            value: match &self.value {
                Some(text) => Some(text.clone()),
                None => None,
            },
        }
    }
}

/// What the proxy reads from a request before it looks at the body.
pub struct HttpRequest {
    pub method: String,
    pub path: String,
    /// The part of the URI behind the question mark, if there is one.
    pub query: Option<String>,
    pub headers: Vec<Header>,
}

/// A response as the proxy hands it back.
pub struct HttpResponse {
    pub status: u16,
    pub headers: Vec<Header>,
    pub body: Vec<u8>,
}

/// The header lines of a list as mathematical values.
pub open spec fn lines_of(headers: Seq<Header>) -> Seq<HeaderView> {
    Seq::new(headers.len(), |i: int| headers[i]@)
}

/// The value of the first header called `name`; none where there is no
/// such header or the value of the first one is not text.
pub open spec fn first_value(headers: Seq<HeaderView>, name: Seq<char>) -> Option<Seq<char>>
    decreases headers.len(),
{
    if headers.len() == 0 {
        None
    } else if headers[0].name == name {
        headers[0].value
    } else {
        first_value(headers.drop_first(), name)
    }
}

/// The test that passes every header line but those called `name`.
pub open spec fn not_called(name: Seq<char>) -> spec_fn(HeaderView) -> bool {
    |h: HeaderView| h.name != name
}

/// `headers` with `name` set to `value`: lines of that name are dropped and
/// one new line goes to the end.
pub open spec fn with_header(headers: Seq<HeaderView>, name: Seq<char>, value: Seq<char>) -> Seq<
    HeaderView,
> {
    headers.filter(not_called(name)).push(HeaderView { name, value: Some(value) })
}

/// The value of the first header called `name`; none where there is no
/// such header or the value of the first one is not text.
pub fn header_value<'a>(headers: &'a Vec<Header>, name: &str) -> (found: Option<&'a str>)
    ensures
        match found {
            Some(value) => first_value(lines_of(headers@), name@) == Some(value@),
            None => first_value(lines_of(headers@), name@) is None,
        },
{
    let ghost lines = lines_of(headers@);
    let mut i: usize = 0;
    assert(lines.skip(0) =~= lines);
    while i < headers.len()
        invariant
            i <= headers@.len(),
            lines == lines_of(headers@),
            first_value(lines, name@) == first_value(lines.skip(i as int), name@),
        decreases headers@.len() - i,
    {
        proof {
            assert(lines.skip(i as int)[0] == headers@[i as int]@);
            assert(lines.skip(i as int).drop_first() =~= lines.skip(i + 1));
        }
        if str_eq(headers[i].name.as_str(), name) {
            return match &headers[i].value {
                Some(text) => Some(text.as_str()),
                None => None,
            };
        }
        i += 1;
    }
    None
}

/// Sets the header `name` to `value`, in place of any lines of that name.
pub fn set_header(headers: &mut Vec<Header>, name: &str, value: &str)
    ensures
        lines_of(final(headers)@) == with_header(lines_of(old(headers)@), name@, value@),
{
    let ghost lines = lines_of(headers@);
    let ghost keep = not_called(name@);
    let mut kept: Vec<Header> = Vec::new();
    let mut i: usize = 0;
    proof {
        reveal(Seq::filter);
        assert(lines_of(kept@) =~= lines.take(0).filter(keep));
    }
    while i < headers.len()
        invariant
            i <= headers@.len(),
            lines == lines_of(headers@),
            keep == not_called(name@),
            lines_of(kept@) == lines.take(i as int).filter(keep),
        decreases headers@.len() - i,
    {
        proof {
            reveal(Seq::filter);
            assert(lines.take(i + 1).drop_last() =~= lines.take(i as int));
            assert(lines.take(i + 1).last() == headers@[i as int]@);
        }
        if !str_eq(headers[i].name.as_str(), name) {
            kept.push(headers[i].clone());
            assert(lines_of(kept@) =~= lines.take(i as int).filter(keep).push(headers@[i as int]@));
        }
        assert(lines_of(kept@) == lines.take(i + 1).filter(keep));
        i += 1;
    }
    proof {
        assert(lines.take(lines.len() as int) =~= lines);
    }
    kept.push(Header { name: name.to_owned(), value: Some(value.to_owned()) });
    assert(lines_of(kept@) =~= with_header(lines, name@, value@));
    *headers = kept;
}

/// Whether a status code is in the 2xx range.
pub fn is_success(status: u16) -> (ok: bool)
    ensures
        ok == (200 <= status < 300),
{
    200 <= status && status < 300
}

/// Whether a status code is in the 4xx range.
pub fn is_client_error(status: u16) -> (is: bool)
    ensures
        is == (400 <= status < 500),
{
    400 <= status && status < 500
}

/// Whether a status code is in the 5xx range.
pub fn is_server_error(status: u16) -> (is: bool)
    ensures
        is == (500 <= status < 600),
{
    500 <= status && status < 600
}

} // verus!
