use vstd::prelude::*;
use vstd::string::*;
use vstd::utf8::encode_utf8;

use crate::http::header::{
    content_length, date_at, law_get_after_add, law_get_other_after_add, lemma_table_add_wf,
    table_add, table_get, table_headers, table_wf, HeaderTable, HttpHeader, HttpResponseHeader,
    ToStr,
};
use crate::http::request::HttpRequest;
use crate::http::value::{HttpMethod, HttpResponseCode, HttpVersion};
use crate::util::date::{date_of_secs, epoch_secs_of, epoch_secs_spec, rfc1123_text, system_now};
use crate::util::text::{
    decimal_text, eq_ignore_ascii_case, lemma_eq_ignore_ascii_case_equivalence, same_text,
};

verus! {

// ---------------------------------------------------------------------------
// Compression
// ---------------------------------------------------------------------------

#[verifier::external_type_specification]
#[verifier::external_body]
pub struct ExIoError(std::io::Error);

/// A name for the gzip stream that flate2 makes of `data` at the default level, with the
/// header that `GzEncoder::new` writes (no file name, no time stamp, OS byte 255).
pub uninterp spec fn gzip_compressed(data: Seq<u8>) -> Seq<u8>;

/// Compresses `data` into a gzip stream: calls flate2's `GzEncoder::new` over an empty
/// `Vec` at `Compression::default()`, then `write_all` and `finish`. The stream is named,
/// not stated: DEFLATE takes pages to write down, and the stream depends on `data` alone.
/// It always succeeds: the encoder's errors come only from writing into its `Vec`, which
/// never fails.
#[verifier::external_body]
fn gzip_compress(data: &[u8]) -> (r: Result<Vec<u8>, std::io::Error>)
    ensures
        r is Ok,
        r matches Ok(v) ==> v@ == gzip_compressed(data@),
{
    let mut encoder = flate2::write::GzEncoder::new(Vec::new(), flate2::Compression::default());
    std::io::Write::write_all(&mut encoder, data)?;
    encoder.finish()
}

// ---------------------------------------------------------------------------
// The bytes of a response
// ---------------------------------------------------------------------------

/// The line that writes header `h`: its name, `": "`, its value, CR LF.
pub open spec fn header_line(h: HttpHeader) -> Seq<u8> {
    encode_utf8(h.key_text()) + encode_utf8(": "@) + encode_utf8(h.header_value().text())
        + encode_utf8("\r\n"@)
}

/// The lines of the headers `hs`, in order.
pub open spec fn header_lines(hs: Seq<HttpHeader>) -> Seq<u8>
    decreases hs.len(),
{
    if hs.len() == 0 {
        Seq::empty()
    } else {
        header_lines(hs.drop_last()) + header_line(hs.last())
    }
}

/// The status line: the version, a space, the status, CR LF.
pub open spec fn status_line(version: HttpVersion, code: HttpResponseCode) -> Seq<u8> {
    encode_utf8(version.text()) + encode_utf8(" "@) + encode_utf8(code.text()) + encode_utf8(
        "\r\n"@,
    )
}

/// The bytes of a response: the status line, the header lines, an empty line, and the
/// body unless only the head is sent.
pub open spec fn message_bytes(
    version: HttpVersion,
    code: HttpResponseCode,
    headers: HeaderTable,
    body: Seq<u8>,
    header_only: bool,
) -> Seq<u8> {
    status_line(version, code) + header_lines(table_headers(headers)) + encode_utf8("\r\n"@) + (
    if header_only {
        Seq::empty()
    } else {
        body
    })
}

/// The headers ask for the body to be sent gzip-compressed.
pub open spec fn gzip_requested(headers: HeaderTable) -> bool {
    table_get(headers, "Content-Encoding"@) matches Some(v) && v.text() == "gzip"@
}

/// The body is compressed exactly when the value of `Content-Encoding` (its name read in
/// any case) is `gzip`, in lower case.
pub proof fn law_gzip_requested(headers: HeaderTable)
    ensures
        gzip_requested(headers) <==> (table_get(
            headers,
            seq!['C', 'o', 'n', 't', 'e', 'n', 't', '-', 'E', 'n', 'c', 'o', 'd', 'i', 'n', 'g'],
        ) matches Some(v) && v.text() == seq!['g', 'z', 'i', 'p']),
{
    reveal_strlit("Content-Encoding");
    reveal_strlit("gzip");
    assert("Content-Encoding"@ =~= seq!['C', 'o', 'n', 't', 'e', 'n', 't', '-', 'E', 'n', 'c', 'o', 'd', 'i', 'n', 'g']);
    assert("gzip"@ =~= seq!['g', 'z', 'i', 'p']);
}

fn append_bytes(out: &mut Vec<u8>, bytes: &[u8])
    ensures
        final(out)@ == old(out)@ + bytes@,
{
    let mut i: usize = 0;
    while i < bytes.len()
        invariant
            i <= bytes@.len(),
            out@ == old(out)@ + bytes@.take(i as int),
        decreases bytes@.len() - i,
    {
        out.push(bytes[i]);
        i = i + 1;
        proof {
            assert(bytes@.take(i as int) =~= bytes@.take(i - 1).push(bytes@[i - 1]));
        }
    }
    proof {
        assert(bytes@.take(i as int) =~= bytes@);
    }
}

fn append_str(out: &mut Vec<u8>, s: &str)
    ensures
        final(out)@ == old(out)@ + encode_utf8(s@),
{
    append_bytes(out, s.as_bytes());
}

// ---------------------------------------------------------------------------
// Responses
// ---------------------------------------------------------------------------

/// What finishing `before` with the body `body` at the moment `now_secs` gives:
/// `after` has that body, `Content-Length` set to its length and `Date` to the moment,
/// and `out` is the bytes of the whole response, which `after` counts.
pub open spec fn finish_outcome(
    before: HttpResponse,
    after: HttpResponse,
    body: Seq<u8>,
    out: Seq<u8>,
    now_secs: int,
) -> bool {
    &&& after.version_spec() == before.version_spec()
    &&& after.code_spec() == before.code_spec()
    &&& after.header_only_spec() == before.header_only_spec()
    &&& after.body() == body
    &&& exists|len_header: HttpHeader, date_header: HttpHeader|
        #![trigger table_add(table_add(before.headers(), len_header), date_header)]
        {
            &&& len_header.key_text() == "Content-Length"@
            &&& len_header.header_value().text() == decimal_text(body.len())
            &&& date_header.key_text() == "Date"@
            &&& date_header.header_value().text() == rfc1123_text(date_of_secs(now_secs))
            &&& after.headers() == table_add(table_add(before.headers(), len_header), date_header)
        }
    &&& out == message_bytes(
        after.version_spec(),
        after.code_spec(),
        after.headers(),
        after.body(),
        after.header_only_spec(),
    )
    &&& after.written_spec() == out.len()
}

/// What a flush at the moment `now_secs` does to `before`, giving `after` and `r`:
/// the body is compressed when the headers ask for gzip, which always succeeds, and the
/// response is finished with it (see `finish_outcome`).
pub open spec fn flush_outcome(
    before: HttpResponse,
    after: HttpResponse,
    r: Result<Vec<u8>, std::io::Error>,
    now_secs: int,
) -> bool {
    let gzip = gzip_requested(before.headers());
    match r {
        Err(_) => false,
        Ok(out) => finish_outcome(
            before,
            after,
            if gzip {
                gzip_compressed(before.body())
            } else {
                before.body()
            },
            out@,
            now_secs,
        ),
    }
}

/// A response being built: its status, its headers and its body, which `flush` turns
/// into the bytes to send.
pub struct HttpResponse {
    version: HttpVersion,
    code: HttpResponseCode,
    header: HttpResponseHeader,
    buffer: Vec<u8>,
    header_only: bool,
    written: usize,
}

impl HttpResponse {
    pub closed spec fn version_spec(&self) -> HttpVersion {
        self.version
    }

    pub closed spec fn code_spec(&self) -> HttpResponseCode {
        self.code
    }

    /// The headers set so far.
    pub closed spec fn headers(&self) -> HeaderTable {
        self.header@
    }

    /// The body written so far.
    pub closed spec fn body(&self) -> Seq<u8> {
        self.buffer@
    }

    /// Only the head of the response is sent (the answer to a `HEAD` request).
    pub closed spec fn header_only_spec(&self) -> bool {
        self.header_only
    }

    /// The number of bytes of the last flush.
    pub closed spec fn written_spec(&self) -> usize {
        self.written
    }

    pub open spec fn wf(&self) -> bool {
        table_wf(self.headers())
    }

    fn with_head(version: HttpVersion, header_only: bool) -> (r: Self)
        ensures
            r.wf(),
            r.version_spec() == version,
            r.code_spec() == HttpResponseCode::OK,
            r.headers() == HttpResponseHeader::new_table(),
            r.body() == Seq::<u8>::empty(),
            r.header_only_spec() == header_only,
            r.written_spec() == 0,
    {
        Self {
            version: version,
            code: HttpResponseCode::OK,
            header: HttpResponseHeader::new(),
            buffer: Vec::new(),
            header_only: header_only,
            written: 0,
        }
    }

    /// An empty `200 OK` response.
    pub fn new(version: HttpVersion) -> (r: Self)
        ensures
            r.wf(),
            r.version_spec() == version,
            r.code_spec() == HttpResponseCode::OK,
            r.headers() == HttpResponseHeader::new_table(),
            r.body() == Seq::<u8>::empty(),
            !r.header_only_spec(),
            r.written_spec() == 0,
    {
        Self::with_head(version, false)
    }

    /// An empty `200 OK` response to `request`, in its version; for a `HEAD` request only
    /// the head is sent.
    pub fn from_request(request: &HttpRequest) -> (r: Self)
        ensures
            r.wf(),
            r.version_spec() == request.version_spec(),
            r.code_spec() == HttpResponseCode::OK,
            r.headers() == HttpResponseHeader::new_table(),
            r.body() == Seq::<u8>::empty(),
            r.header_only_spec() == (request.method_spec() is HEAD),
            r.written_spec() == 0,
    {
        let header_only = match request.method() {
            HttpMethod::HEAD => true,
            _ => false,
        };
        Self::with_head(request.version(), header_only)
    }

    /// The number of bytes of the last flush.
    pub fn written(&self) -> (r: usize)
        ensures
            r == self.written_spec(),
    {
        self.written
    }

    /// Appends `buf` to the body.
    pub fn write(&mut self, buf: &[u8]) -> (r: usize)
        ensures
            r == buf@.len(),
            final(self).body() == old(self).body() + buf@,
            final(self).headers() == old(self).headers(),
            final(self).version_spec() == old(self).version_spec(),
            final(self).code_spec() == old(self).code_spec(),
            final(self).header_only_spec() == old(self).header_only_spec(),
            final(self).written_spec() == old(self).written_spec(),
    {
        append_bytes(&mut self.buffer, buf);
        buf.len()
    }

    pub fn set_response_code(&mut self, code: HttpResponseCode)
        ensures
            final(self).code_spec() == code,
            final(self).body() == old(self).body(),
            final(self).headers() == old(self).headers(),
            final(self).version_spec() == old(self).version_spec(),
            final(self).header_only_spec() == old(self).header_only_spec(),
            final(self).written_spec() == old(self).written_spec(),
    {
        self.code = code;
    }

    fn add_header(&mut self, header: HttpHeader)
        requires
            old(self).wf(),
        ensures
            final(self).wf(),
            final(self).headers() == table_add(old(self).headers(), header),
            final(self).body() == old(self).body(),
            final(self).version_spec() == old(self).version_spec(),
            final(self).code_spec() == old(self).code_spec(),
            final(self).header_only_spec() == old(self).header_only_spec(),
            final(self).written_spec() == old(self).written_spec(),
    {
        self.header.add(header);
    }

    /// Compresses the body when the headers ask for gzip, sets `Content-Length` to the
    /// length of the body and `Date` to the moment `now_secs` seconds after 1970-01-01
    /// 00:00:00 UTC, and gives the bytes of the whole response (see `flush_outcome`).
    pub fn flush_at(&mut self, now_secs: u64) -> (r: Result<Vec<u8>, std::io::Error>)
        requires
            old(self).wf(),
        ensures
            final(self).wf(),
            flush_outcome(*old(self), *final(self), r, now_secs as int),
            r is Ok,
            flushed_to(*old(self), *final(self), r->Ok_0@),
    {
        let gzip = match self.header.get("Content-Encoding") {
            Some(v) => same_text(v.to_str(), "gzip"),
            None => false,
        };
        let ghost before = *self;
        let r = if gzip {
            match gzip_compress(self.buffer.as_slice()) {
                Ok(compressed) => Ok(self.finish(compressed, now_secs)),
                Err(e) => Err(e),
            }
        } else {
            let mut body: Vec<u8> = Vec::new();
            std::mem::swap(&mut body, &mut self.buffer);
            Ok(self.finish(body, now_secs))
        };
        proof {
            reveal(flushed_to);
            assert(flush_outcome(before, *self, r, now_secs as int));
        }
        r
    }

    /// Makes `body` the body, sets `Content-Length` to its length and `Date` to the
    /// moment `now_secs` seconds after 1970-01-01 00:00:00 UTC, and gives the bytes of the
    /// whole response (see `finish_outcome`).
    pub fn finish(&mut self, body: Vec<u8>, now_secs: u64) -> (out: Vec<u8>)
        requires
            old(self).wf(),
        ensures
            final(self).wf(),
            finish_outcome(*old(self), *final(self), body@, out@, now_secs as int),
    {
        self.buffer = body;
        let ghost before = self.headers();
        let len_header = content_length(self.buffer.len());
        let ghost lh = len_header;
        self.add_header(len_header);
        let date_header = date_at(now_secs);
        let ghost dh = date_header;
        self.add_header(date_header);
        let out = self.render();
        self.written = out.len();
        proof {
            assert(self.headers() == table_add(table_add(before, lh), dh));
        }
        out
    }

    /// `flush_at` at the moment the system clock reads.
    pub fn flush(&mut self) -> (r: Result<Vec<u8>, std::io::Error>)
        requires
            old(self).wf(),
        ensures
            final(self).wf(),
            exists|now_secs: u64| flush_outcome(*old(self), *final(self), r, now_secs as int),
            exists|now: std::time::SystemTime|
                flush_outcome(*old(self), *final(self), r, #[trigger] epoch_secs_spec(now) as int),
            r is Ok,
            flushed_to(*old(self), *final(self), r->Ok_0@),
    {
        let now = system_now();
        let now_secs = epoch_secs_of(now);
        let r = self.flush_at(now_secs);
        proof {
            assert(flush_outcome(*old(self), *self, r, epoch_secs_spec(now) as int));
        }
        r
    }

    /// The bytes of the response as it stands.
    fn render(&self) -> (out: Vec<u8>)
        requires
            self.wf(),
        ensures
            out@ == message_bytes(
                self.version_spec(),
                self.code_spec(),
                self.headers(),
                self.body(),
                self.header_only_spec(),
            ),
    {
        let mut out: Vec<u8> = Vec::new();
        append_str(&mut out, self.version.as_str());
        append_str(&mut out, " ");
        append_str(&mut out, self.code.as_str());
        append_str(&mut out, "\r\n");
        let ghost status = out@;
        let ghost all = table_headers(self.headers());
        let mut it = self.header.into_iter();
        let ghost mut taken: Seq<HttpHeader> = Seq::empty();
        loop
            invariant
                it.wf(),
                taken + it.remaining() == all,
                out@ == status + header_lines(taken),
                all == table_headers(self.headers()),
                status == status_line(self.version_spec(), self.code_spec()),
            ensures
                out@ == status + header_lines(all),
            decreases it.remaining().len(),
        {
            let ghost before = it.remaining();
            match it.next() {
                Some(h) => {
                    append_str(&mut out, h.key_str());
                    append_str(&mut out, ": ");
                    append_str(&mut out, h.value().to_str());
                    append_str(&mut out, "\r\n");
                    proof {
                        let t2 = taken.push(*h);
                        assert(t2.drop_last() =~= taken);
                        assert(t2 + it.remaining() =~= taken + before);
                        assert(out@ =~= status + header_lines(t2));
                        taken = t2;
                    }
                },
                None => {
                    proof {
                        assert(taken =~= all);
                    }
                    break;
                },
            }
        }
        append_str(&mut out, "\r\n");
        if !self.header_only {
            append_bytes(&mut out, self.buffer.as_slice());
        }
        proof {
            assert(out@ =~= message_bytes(
                self.version_spec(),
                self.code_spec(),
                self.headers(),
                self.body(),
                self.header_only_spec(),
            ));
        }
        out
    }
}


/// A flushed response says what it sends: its `Content-Length` is the length of the body
/// that follows the head, and its `Date` is the moment of the flush.
pub proof fn law_flush_headers(
    before: HttpResponse,
    after: HttpResponse,
    r: Result<Vec<u8>, std::io::Error>,
    now_secs: int,
)
    requires
        before.wf(),
        flush_outcome(before, after, r, now_secs),
    ensures
        table_get(after.headers(), "Content-Length"@) matches Some(v)
            && v.text() == decimal_text(after.body().len()),
        table_get(after.headers(), "Date"@) matches Some(v)
            && v.text() == rfc1123_text(date_of_secs(now_secs)),
{
    let t = before.headers();
    let (lh, dh) = choose|lh: HttpHeader, dh: HttpHeader|
        {
            &&& lh.key_text() == "Content-Length"@
            &&& lh.header_value().text() == decimal_text(after.body().len())
            &&& dh.key_text() == "Date"@
            &&& dh.header_value().text() == rfc1123_text(date_of_secs(now_secs))
            &&& after.headers() == #[trigger] table_add(table_add(t, lh), dh)
        };
    lemma_eq_ignore_ascii_case_equivalence("Content-Length"@, "Content-Length"@, "Content-Length"@);
    lemma_eq_ignore_ascii_case_equivalence("Date"@, "Date"@, "Date"@);
    law_get_after_add(t, lh, "Content-Length"@);
    lemma_table_add_wf(t, lh);
    reveal_strlit("Content-Length");
    reveal_strlit("Date");
    assert(!eq_ignore_ascii_case("Content-Length"@, "Date"@));
    law_get_other_after_add(table_add(t, lh), dh, "Content-Length"@);
    law_get_after_add(table_add(t, lh), dh, "Date"@);
}

/// The length of the bytes of the last flush in a run of calls, 0 before any: `flushed[i]`
/// is what call `i` flushed, if it was a flush.
pub open spec fn last_flush_len(flushed: Seq<Option<Seq<u8>>>) -> nat
    decreases flushed.len(),
{
    if flushed.len() == 0 {
        0
    } else {
        match flushed.last() {
            Some(out) => out.len(),
            None => last_flush_len(flushed.drop_last()),
        }
    }
}

/// `after` is what a flush of `before` at some moment gave, with the bytes `out`.
#[verifier::opaque]
pub open spec fn flushed_to(before: HttpResponse, after: HttpResponse, out: Seq<u8>) -> bool {
    exists|r: Result<Vec<u8>, std::io::Error>, now_secs: int|
        #[trigger] flush_outcome(before, after, r, now_secs) && r->Ok_0@ == out
}

proof fn lemma_flushed_written(before: HttpResponse, after: HttpResponse, out: Seq<u8>)
    requires
        flushed_to(before, after, out),
    ensures
        after.written_spec() == out.len(),
{
    reveal(flushed_to);
    let (r, now_secs) = choose|r: Result<Vec<u8>, std::io::Error>, now_secs: int|
        #[trigger] flush_outcome(before, after, r, now_secs) && r->Ok_0@ == out;
}

/// `written` is 0 until the first flush, and then the number of bytes that the last flush
/// gave: in a run of calls from a new response (`new` or `from_request`), where each call
/// that is no flush keeps `written` (as `write`, `set_response_code` and `set_header` do)
/// and each flush `i` gives the bytes `flushed[i]` (see `flush_outcome`).
pub proof fn law_written(states: Seq<HttpResponse>, flushed: Seq<Option<Seq<u8>>>)
    requires
        states.len() == flushed.len() + 1,
        states[0].written_spec() == 0,
        forall|i: int| 0 <= i < flushed.len() && (#[trigger] flushed[i]) is None
            ==> states[i + 1].written_spec() == states[i].written_spec(),
        forall|i: int| 0 <= i < flushed.len() && (#[trigger] flushed[i]) is Some
            ==> flushed_to(states[i], states[i + 1], flushed[i]->0),
    ensures
        states.last().written_spec() == last_flush_len(flushed),
    decreases flushed.len(),
{
    if flushed.len() > 0 {
        let n = flushed.len() - 1;
        let s1 = states.drop_last();
        let f1 = flushed.drop_last();
        assert forall|i: int| 0 <= i < f1.len() && (#[trigger] f1[i]) is None
            implies s1[i + 1].written_spec() == s1[i].written_spec() by {
            assert(flushed[i] is None);
        }
        assert forall|i: int| 0 <= i < f1.len() && (#[trigger] f1[i]) is Some
            implies flushed_to(s1[i], s1[i + 1], f1[i]->0) by {
            assert(flushed[i] is Some);
        }
        law_written(s1, f1);
        if flushed[n] is Some {
            lemma_flushed_written(states[n], states[n + 1], flushed[n]->0);
        }
    }
}

/// Something that headers of type `T` can be set on.
pub trait HeaderSetter<T> {
    /// The state in which a header can be set.
    spec fn accepts_headers(&self) -> bool;

    fn set_header(&mut self, header: T)
        requires
            old(self).accepts_headers(),
    ;
}

impl HeaderSetter<HttpHeader> for HttpResponse {
    open spec fn accepts_headers(&self) -> bool {
        self.wf()
    }

    /// Adds `header`, replacing the header of the same name.
    fn set_header(&mut self, header: HttpHeader)
        ensures
            final(self).wf(),
            final(self).headers() == table_add(old(self).headers(), header),
            final(self).body() == old(self).body(),
            final(self).version_spec() == old(self).version_spec(),
            final(self).code_spec() == old(self).code_spec(),
            final(self).header_only_spec() == old(self).header_only_spec(),
            final(self).written_spec() == old(self).written_spec(),
    {
        self.add_header(header);
    }
}

} // verus!
