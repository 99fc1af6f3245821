use vstd::prelude::*;
use vstd::string::*;

use crate::util::text::{decimal_text, eq_ignore_ascii_case, same_text, str_eq_ignore_ascii_case};

verus! {

// ---------------------------------------------------------------------------
// Protocol versions
// ---------------------------------------------------------------------------

/// The version of the protocol of a message.
#[derive(Debug, Clone, Copy, PartialEq, Eq, Structural)]
pub enum HttpVersion {
    Http10,
    Http11,
}

impl HttpVersion {
    /// How the version is written in a message.
    pub open spec fn text(&self) -> Seq<char> {
        match self {
            HttpVersion::Http10 => "HTTP/1.0"@,
            HttpVersion::Http11 => "HTTP/1.1"@,
        }
    }

    /// The version that `parse` reads from `s`.
    pub open spec fn parsed(s: Seq<char>) -> Option<HttpVersion> {
        if eq_ignore_ascii_case(s, "http/1.0"@) {
            Some(HttpVersion::Http10)
        } else if eq_ignore_ascii_case(s, "http/1.1"@) {
            Some(HttpVersion::Http11)
        } else {
            None
        }
    }

    /// Reads `http/1.0` or `http/1.1`, without regard to ASCII case.
    pub fn parse(str: &str) -> (r: Option<Self>)
        ensures
            r == Self::parsed(str@),
    {
        if str_eq_ignore_ascii_case(str, "http/1.0") {
            Some(HttpVersion::Http10)
        } else if str_eq_ignore_ascii_case(str, "http/1.1") {
            Some(HttpVersion::Http11)
        } else {
            None
        }
    }

    /// How the version is written in a message.
    pub fn as_str(&self) -> (r: &'static str)
        ensures
            r@ == self.text(),
    {
        match self {
            HttpVersion::Http10 => "HTTP/1.0",
            HttpVersion::Http11 => "HTTP/1.1",
        }
    }
}

impl Default for HttpVersion {
    fn default() -> (r: Self)
        ensures
            r == HttpVersion::Http10,
    {
        HttpVersion::Http10
    }
}

/// A version reads back from how it is written.
pub proof fn law_version_parse_text(v: HttpVersion)
    ensures
        HttpVersion::parsed(v.text()) == Some(v),
{
    reveal_strlit("HTTP/1.0");
    reveal_strlit("HTTP/1.1");
    reveal_strlit("http/1.0");
    reveal_strlit("http/1.1");
    match v {
        HttpVersion::Http10 => {
            assert(eq_ignore_ascii_case("HTTP/1.0"@, "http/1.0"@));
        },
        HttpVersion::Http11 => {
            assert(!eq_ignore_ascii_case("HTTP/1.1"@, "http/1.0"@)) by {
                assert(crate::util::text::ascii_lower("HTTP/1.1"@[7]) != crate::util::text::ascii_lower("http/1.0"@[7]));
            }
            assert(eq_ignore_ascii_case("HTTP/1.1"@, "http/1.1"@));
        },
    }
}

// ---------------------------------------------------------------------------
// Request methods
// ---------------------------------------------------------------------------

/// The method of a request.
#[derive(Debug, Clone, PartialEq, Eq)]
pub enum HttpMethod {
    GET,
    POST,
    HEAD,  // HTTP 1.0
    UNDEFINED(String),
}

/// A name for what `str::to_uppercase` gives for `s`: the Unicode upper-case mapping of
/// each of its characters (which can turn one character into several).
pub uninterp spec fn unicode_uppercase(s: Seq<char>) -> Seq<char>;

/// Calls `str::to_uppercase`. Its result is named, not stated: the Unicode mapping it
/// applies takes tables to write down, and depends on `s` alone.
#[verifier::external_body]
fn to_uppercase(s: &str) -> (r: String)
    ensures
        r@ == unicode_uppercase(s@),
{
    s.to_uppercase()
}

impl HttpMethod {
    /// The method named `upper` (an upper-cased name); any other name is kept as `given`.
    pub open spec fn named(r: HttpMethod, upper: Seq<char>, given: Seq<char>) -> bool {
        if upper == "GET"@ {
            r == HttpMethod::GET
        } else if upper == "POST"@ {
            r == HttpMethod::POST
        } else if upper == "HEAD"@ {
            r == HttpMethod::HEAD
        } else {
            r matches HttpMethod::UNDEFINED(s) && s@ == given
        }
    }

    /// The method of the name `given`, given `upper`, its upper-case form.
    pub fn from_uppercased(upper: &str, given: &str) -> (r: Self)
        ensures
            Self::named(r, upper@, given@),
    {
        if same_text(upper, "GET") {
            HttpMethod::GET
        } else if same_text(upper, "POST") {
            HttpMethod::POST
        } else if same_text(upper, "HEAD") {
            HttpMethod::HEAD
        } else {
            HttpMethod::UNDEFINED(given.to_owned())
        }
    }

    /// The method named `str` without regard to case; any other name is kept as it is.
    pub fn parse(str: &str) -> (r: Self)
        ensures
            Self::named(r, unicode_uppercase(str@), str@),
    {
        let upper = to_uppercase(str);
        Self::from_uppercased(upper.as_str(), str)
    }

    /// How the method is written in a request.
    pub open spec fn text(&self) -> Seq<char> {
        match self {
            HttpMethod::GET => "GET"@,
            HttpMethod::POST => "POST"@,
            HttpMethod::HEAD => "HEAD"@,
            HttpMethod::UNDEFINED(v) => v@,
        }
    }

    /// How the method is written in a request.
    pub fn as_str(&self) -> (r: &str)
        ensures
            r@ == self.text(),
    {
        match self {
            HttpMethod::GET => "GET",
            HttpMethod::POST => "POST",
            HttpMethod::HEAD => "HEAD",
            HttpMethod::UNDEFINED(v) => v.as_str(),
        }
    }
}

// ---------------------------------------------------------------------------
// Response codes
// ---------------------------------------------------------------------------

/// The status of a response.
#[derive(Debug, Clone, Copy, PartialEq, Eq, Structural)]
pub enum HttpResponseCode {
    OK,
    Created,
    Accepted,
    NoContent,
    MovedPermanetly,
    MovedTemporarily,
    NotModified,
    BadRequest,
    Unauthorized,
    Forbidden,
    NotFound,
    InternalServerError,
    NotImplemented,
    BadGateway,
    ServiceUnavailable,
}

impl HttpResponseCode {
    /// The number of the status.
    pub open spec fn code_number(&self) -> int {
        match self {
            HttpResponseCode::OK => 200,
            HttpResponseCode::Created => 201,
            HttpResponseCode::Accepted => 202,
            HttpResponseCode::NoContent => 204,
            HttpResponseCode::MovedPermanetly => 301,
            HttpResponseCode::MovedTemporarily => 302,
            HttpResponseCode::NotModified => 304,
            HttpResponseCode::BadRequest => 400,
            HttpResponseCode::Unauthorized => 401,
            HttpResponseCode::Forbidden => 403,
            HttpResponseCode::NotFound => 404,
            HttpResponseCode::InternalServerError => 500,
            HttpResponseCode::NotImplemented => 501,
            HttpResponseCode::BadGateway => 502,
            HttpResponseCode::ServiceUnavailable => 503,
        }
    }

    /// The reason phrase of the status.
    pub open spec fn reason_text(&self) -> Seq<char> {
        match self {
            HttpResponseCode::OK => "OK"@,
            HttpResponseCode::Created => "Created"@,
            HttpResponseCode::Accepted => "Accepted"@,
            HttpResponseCode::NoContent => "No Content"@,
            HttpResponseCode::MovedPermanetly => "Moved Permanently"@,
            HttpResponseCode::MovedTemporarily => "Moved Temporarily"@,
            HttpResponseCode::NotModified => "Not Modified"@,
            HttpResponseCode::BadRequest => "Bad Request"@,
            HttpResponseCode::Unauthorized => "Unauthorized"@,
            HttpResponseCode::Forbidden => "Forbidden"@,
            HttpResponseCode::NotFound => "Not Found"@,
            HttpResponseCode::InternalServerError => "Internal Server Error"@,
            HttpResponseCode::NotImplemented => "Not Implemented"@,
            HttpResponseCode::BadGateway => "Bad Gateway"@,
            HttpResponseCode::ServiceUnavailable => "Service Unavailable"@,
        }
    }

    /// The status as a status line writes it: the number, a space, the reason phrase.
    pub open spec fn text(&self) -> Seq<char> {
        decimal_text(self.code_number() as nat) + seq![' '] + self.reason_text()
    }

    pub fn code(&self) -> (r: i32)
        ensures
            r == self.code_number(),
    {
        match self {
            HttpResponseCode::OK => 200,
            HttpResponseCode::Created => 201,
            HttpResponseCode::Accepted => 202,
            HttpResponseCode::NoContent => 204,
            HttpResponseCode::MovedPermanetly => 301,
            HttpResponseCode::MovedTemporarily => 302,
            HttpResponseCode::NotModified => 304,
            HttpResponseCode::BadRequest => 400,
            HttpResponseCode::Unauthorized => 401,
            HttpResponseCode::Forbidden => 403,
            HttpResponseCode::NotFound => 404,
            HttpResponseCode::InternalServerError => 500,
            HttpResponseCode::NotImplemented => 501,
            HttpResponseCode::BadGateway => 502,
            HttpResponseCode::ServiceUnavailable => 503,
        }
    }

    pub fn reason(&self) -> (r: &'static str)
        ensures
            r@ == self.reason_text(),
    {
        match self {
            HttpResponseCode::OK => "OK",
            HttpResponseCode::Created => "Created",
            HttpResponseCode::Accepted => "Accepted",
            HttpResponseCode::NoContent => "No Content",
            HttpResponseCode::MovedPermanetly => "Moved Permanently",
            HttpResponseCode::MovedTemporarily => "Moved Temporarily",
            HttpResponseCode::NotModified => "Not Modified",
            HttpResponseCode::BadRequest => "Bad Request",
            HttpResponseCode::Unauthorized => "Unauthorized",
            HttpResponseCode::Forbidden => "Forbidden",
            HttpResponseCode::NotFound => "Not Found",
            HttpResponseCode::InternalServerError => "Internal Server Error",
            HttpResponseCode::NotImplemented => "Not Implemented",
            HttpResponseCode::BadGateway => "Bad Gateway",
            HttpResponseCode::ServiceUnavailable => "Service Unavailable",
        }
    }

    pub fn as_str(&self) -> (r: &'static str)
        ensures
            r@ == self.text(),
    {
        proof {
            reveal_with_fuel(decimal_text, 4);
        }
        let r = match self {
            HttpResponseCode::OK => {
                proof {
                    reveal_strlit("200 OK");
                    reveal_strlit("OK");
                }
                "200 OK"
            },
            HttpResponseCode::Created => {
                proof {
                    reveal_strlit("201 Created");
                    reveal_strlit("Created");
                }
                "201 Created"
            },
            HttpResponseCode::Accepted => {
                proof {
                    reveal_strlit("202 Accepted");
                    reveal_strlit("Accepted");
                }
                "202 Accepted"
            },
            HttpResponseCode::NoContent => {
                proof {
                    reveal_strlit("204 No Content");
                    reveal_strlit("No Content");
                }
                "204 No Content"
            },
            HttpResponseCode::MovedPermanetly => {
                proof {
                    reveal_strlit("301 Moved Permanently");
                    reveal_strlit("Moved Permanently");
                }
                "301 Moved Permanently"
            },
            HttpResponseCode::MovedTemporarily => {
                proof {
                    reveal_strlit("302 Moved Temporarily");
                    reveal_strlit("Moved Temporarily");
                }
                "302 Moved Temporarily"
            },
            HttpResponseCode::NotModified => {
                proof {
                    reveal_strlit("304 Not Modified");
                    reveal_strlit("Not Modified");
                }
                "304 Not Modified"
            },
            HttpResponseCode::BadRequest => {
                proof {
                    reveal_strlit("400 Bad Request");
                    reveal_strlit("Bad Request");
                }
                "400 Bad Request"
            },
            HttpResponseCode::Unauthorized => {
                proof {
                    reveal_strlit("401 Unauthorized");
                    reveal_strlit("Unauthorized");
                }
                "401 Unauthorized"
            },
            HttpResponseCode::Forbidden => {
                proof {
                    reveal_strlit("403 Forbidden");
                    reveal_strlit("Forbidden");
                }
                "403 Forbidden"
            },
            HttpResponseCode::NotFound => {
                proof {
                    reveal_strlit("404 Not Found");
                    reveal_strlit("Not Found");
                }
                "404 Not Found"
            },
            HttpResponseCode::InternalServerError => {
                proof {
                    reveal_strlit("500 Internal Server Error");
                    reveal_strlit("Internal Server Error");
                }
                "500 Internal Server Error"
            },
            HttpResponseCode::NotImplemented => {
                proof {
                    reveal_strlit("501 Not Implemented");
                    reveal_strlit("Not Implemented");
                }
                "501 Not Implemented"
            },
            HttpResponseCode::BadGateway => {
                proof {
                    reveal_strlit("502 Bad Gateway");
                    reveal_strlit("Bad Gateway");
                }
                "502 Bad Gateway"
            },
            HttpResponseCode::ServiceUnavailable => {
                proof {
                    reveal_strlit("503 Service Unavailable");
                    reveal_strlit("Service Unavailable");
                }
                "503 Service Unavailable"
            },
        };
        proof {
            assert(r@ =~= self.text());
        }
        r
    }
}

// ---------------------------------------------------------------------------
// Errors
// ---------------------------------------------------------------------------

/// Why a request could not be read.
#[derive(Debug, Clone)]
pub enum Error {
    ParseFail(String),
    ReadFail(String),
    WriteFail(String),
    BadRequest(&'static str),
}

/// Each status has its standard number, and no two statuses share one.
pub proof fn law_status_numbers()
    ensures
        HttpResponseCode::OK.code_number() == 200,
        HttpResponseCode::Created.code_number() == 201,
        HttpResponseCode::Accepted.code_number() == 202,
        HttpResponseCode::NoContent.code_number() == 204,
        HttpResponseCode::MovedPermanetly.code_number() == 301,
        HttpResponseCode::MovedTemporarily.code_number() == 302,
        HttpResponseCode::NotModified.code_number() == 304,
        HttpResponseCode::BadRequest.code_number() == 400,
        HttpResponseCode::Unauthorized.code_number() == 401,
        HttpResponseCode::Forbidden.code_number() == 403,
        HttpResponseCode::NotFound.code_number() == 404,
        HttpResponseCode::InternalServerError.code_number() == 500,
        HttpResponseCode::NotImplemented.code_number() == 501,
        HttpResponseCode::BadGateway.code_number() == 502,
        HttpResponseCode::ServiceUnavailable.code_number() == 503,
        forall|a: HttpResponseCode, b: HttpResponseCode|
            #[trigger] a.code_number() == #[trigger] b.code_number() ==> a == b,
{
}

/// Each status is written as its standard number and reason phrase.
pub proof fn law_status_texts()
    ensures
        HttpResponseCode::OK.text() == "200 OK"@,
        HttpResponseCode::Created.text() == "201 Created"@,
        HttpResponseCode::Accepted.text() == "202 Accepted"@,
        HttpResponseCode::NoContent.text() == "204 No Content"@,
        HttpResponseCode::MovedPermanetly.text() == "301 Moved Permanently"@,
        HttpResponseCode::MovedTemporarily.text() == "302 Moved Temporarily"@,
        HttpResponseCode::NotModified.text() == "304 Not Modified"@,
        HttpResponseCode::BadRequest.text() == "400 Bad Request"@,
        HttpResponseCode::Unauthorized.text() == "401 Unauthorized"@,
        HttpResponseCode::Forbidden.text() == "403 Forbidden"@,
        HttpResponseCode::NotFound.text() == "404 Not Found"@,
        HttpResponseCode::InternalServerError.text() == "500 Internal Server Error"@,
        HttpResponseCode::NotImplemented.text() == "501 Not Implemented"@,
        HttpResponseCode::BadGateway.text() == "502 Bad Gateway"@,
        HttpResponseCode::ServiceUnavailable.text() == "503 Service Unavailable"@,
{
    reveal_with_fuel(decimal_text, 4);
    reveal_strlit("200 OK");
    reveal_strlit("OK");
    reveal_strlit("201 Created");
    reveal_strlit("Created");
    reveal_strlit("202 Accepted");
    reveal_strlit("Accepted");
    reveal_strlit("204 No Content");
    reveal_strlit("No Content");
    reveal_strlit("301 Moved Permanently");
    reveal_strlit("Moved Permanently");
    reveal_strlit("302 Moved Temporarily");
    reveal_strlit("Moved Temporarily");
    reveal_strlit("304 Not Modified");
    reveal_strlit("Not Modified");
    reveal_strlit("400 Bad Request");
    reveal_strlit("Bad Request");
    reveal_strlit("401 Unauthorized");
    reveal_strlit("Unauthorized");
    reveal_strlit("403 Forbidden");
    reveal_strlit("Forbidden");
    reveal_strlit("404 Not Found");
    reveal_strlit("Not Found");
    reveal_strlit("500 Internal Server Error");
    reveal_strlit("Internal Server Error");
    reveal_strlit("501 Not Implemented");
    reveal_strlit("Not Implemented");
    reveal_strlit("502 Bad Gateway");
    reveal_strlit("Bad Gateway");
    reveal_strlit("503 Service Unavailable");
    reveal_strlit("Service Unavailable");
}

/// The methods are named GET, POST and HEAD, read in any case; any other name is kept as
/// it was given.
pub proof fn law_method_names(r: HttpMethod, given: Seq<char>)
    ensures
        HttpMethod::named(r, seq!['G', 'E', 'T'], given) <==> r == HttpMethod::GET,
        HttpMethod::named(r, seq!['P', 'O', 'S', 'T'], given) <==> r == HttpMethod::POST,
        HttpMethod::named(r, seq!['H', 'E', 'A', 'D'], given) <==> r == HttpMethod::HEAD,
        HttpMethod::GET.text() == seq!['G', 'E', 'T'],
        HttpMethod::POST.text() == seq!['P', 'O', 'S', 'T'],
        HttpMethod::HEAD.text() == seq!['H', 'E', 'A', 'D'],
{
    reveal_strlit("GET");
    reveal_strlit("POST");
    reveal_strlit("HEAD");
    assert("GET"@ =~= seq!['G', 'E', 'T']);
    assert("POST"@ =~= seq!['P', 'O', 'S', 'T']);
    assert("HEAD"@ =~= seq!['H', 'E', 'A', 'D']);
}

} // verus!
