//! The fixed configuration of the HTTP client.
//!
//! Every probe of a run is sent by one client, set up once with a request
//! timeout and a set of headers that make the request look like a browser's.

use vstd::prelude::*;

verus! {

/// The time, in seconds, after which a request is given up.
pub const REQUEST_TIMEOUT_SECS: u64 = 3;

/// One request header.
#[derive(Debug)]
pub struct Header {
    pub name: String,
    pub value: String,
}

/// What the client is set up with.
#[derive(Debug)]
pub struct ClientConfig {
    /// The timeout of each request, in seconds.
    pub timeout_secs: u64,
    /// The headers sent with each request.
    pub headers: Vec<Header>,
}

/// The headers of every request, as pairs of name and value.
pub open spec fn standard_headers() -> Seq<(Seq<char>, Seq<char>)> {
    seq![
        (
            "User-Agent"@,
            "Mozilla/5.0 (Windows NT 6.1) AppleWebKit/537.36 (KHTML, like Gecko) Brave Chrome/85.0.4183.121 Safari/537.36"@,
        ),
        ("Accept"@, "text/html,application/xhtml+xml,application/xml;q=0.9,*/*;q=0.8"@),
        ("Accept-Language"@, "en-US,en;q=0.5"@),
        ("Accept-Encoding"@, "gzip, deflate, br"@),
        ("Connection"@, "keep-alive"@),
        ("Referer"@, "https://www.google.com/"@),
    ]
}

/// The pairs of name and value that a list of headers stands for.
pub open spec fn headers_view(headers: Seq<Header>) -> Seq<(Seq<char>, Seq<char>)> {
    Seq::new(headers.len(), |k: int| (headers[k].name@, headers[k].value@))
}

fn header(name: &str, value: &str) -> (h: Header)
    ensures
        h.name@ == name@,
        h.value@ == value@,
{
    Header { name: name.to_owned(), value: value.to_owned() }
}

impl ClientConfig {
    /// The configuration of every run: the fixed timeout and the fixed
    /// headers.
    pub fn standard() -> (config: ClientConfig)
        ensures
            config.timeout_secs == REQUEST_TIMEOUT_SECS,
            headers_view(config.headers@) == standard_headers(),
    {
        let mut headers: Vec<Header> = Vec::new();
        headers.push(
            header(
                "User-Agent",
                "Mozilla/5.0 (Windows NT 6.1) AppleWebKit/537.36 (KHTML, like Gecko) Brave Chrome/85.0.4183.121 Safari/537.36",
            ),
        );
        headers.push(
            header("Accept", "text/html,application/xhtml+xml,application/xml;q=0.9,*/*;q=0.8"),
        );
        headers.push(header("Accept-Language", "en-US,en;q=0.5"));
        headers.push(header("Accept-Encoding", "gzip, deflate, br"));
        headers.push(header("Connection", "keep-alive"));
        headers.push(header("Referer", "https://www.google.com/"));
        assert(headers_view(headers@) =~= standard_headers());
        ClientConfig { timeout_secs: REQUEST_TIMEOUT_SECS, headers }
    }
}

} // verus!
