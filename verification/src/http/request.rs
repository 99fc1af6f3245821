use vstd::prelude::*;

use crate::http::value::{HttpMethod, HttpVersion};
use crate::util::multimap::MultiMap;

verus! {

/// The head of a request: its method, version, path, header fields and query parameters.
#[derive(Debug)]
pub struct HttpRequest {
    method: HttpMethod,
    version: HttpVersion,
    path: String,
    header: MultiMap,
    param: MultiMap,
}

impl HttpRequest {
    pub closed spec fn method_spec(&self) -> HttpMethod {
        self.method
    }

    pub closed spec fn version_spec(&self) -> HttpVersion {
        self.version
    }

    pub closed spec fn path_spec(&self) -> Seq<char> {
        self.path@
    }

    /// The header fields: each name with its values in order.
    pub closed spec fn header_spec(&self) -> Map<Seq<char>, Seq<Seq<char>>> {
        self.header@
    }

    /// The query parameters: each name with its values in order.
    pub closed spec fn param_spec(&self) -> Map<Seq<char>, Seq<Seq<char>>> {
        self.param@
    }

    pub fn new(
        method: HttpMethod,
        version: HttpVersion,
        path: String,
        header: MultiMap,
        param: MultiMap,
    ) -> (r: Self)
        ensures
            r.method_spec() == method,
            r.version_spec() == version,
            r.path_spec() == path@,
            r.header_spec() == header@,
            r.param_spec() == param@,
    {
        HttpRequest { method, version, path, header, param }
    }

    pub fn method(&self) -> (r: &HttpMethod)
        ensures
            *r == self.method_spec(),
    {
        &self.method
    }

    pub fn version(&self) -> (r: HttpVersion)
        ensures
            r == self.version_spec(),
    {
        self.version
    }

    pub fn path(&self) -> (r: &str)
        ensures
            r@ == self.path_spec(),
    {
        self.path.as_str()
    }

    pub fn header(&self) -> (r: &MultiMap)
        ensures
            r@ == self.header_spec(),
    {
        &self.header
    }

    pub fn param(&self) -> (r: &MultiMap)
        ensures
            r@ == self.param_spec(),
    {
        &self.param
    }
}

} // verus!
