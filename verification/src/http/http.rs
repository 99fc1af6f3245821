use vstd::prelude::*;
use vstd::string::*;

use crate::http::header::{
    content_type, date, server, table_add, HeaderValue, HttpHeader, HttpHeaderValue,
    HttpResponseHeader, ToStr,
};
use crate::http::request::HttpRequest;
use crate::http::response::{HeaderSetter, HttpResponse};
use crate::http::value::{unicode_uppercase, Error, HttpMethod, HttpResponseCode, HttpVersion};
use crate::util::date::{date_of_secs, epoch_secs_spec, rfc1123_text};
use crate::util::multimap::{multimap_put, MultiMap};
use crate::util::text::{
    char_index, chars_of, find_char, lemma_char_index_first, lemma_split_first, same_text, split,
    split_str, str_trim, str_trim_start, trim, trim_start,
};

verus! {

// ---------------------------------------------------------------------------
// The target of a request: path and query parameters
// ---------------------------------------------------------------------------

/// The name and value of the query parameter `p`: split at the first `=`; a parameter
/// without `=` has the value `true`.
pub open spec fn query_pair(p: Seq<char>) -> (Seq<char>, Seq<char>) {
    let i = char_index(p, '=');
    if i < p.len() {
        (p.take(i as int), p.skip((i + 1) as int))
    } else {
        (p, "true"@)
    }
}

/// The parameters of the query pieces `pieces`, the empty pieces left out, each value
/// appended to the values of its name in order.
pub open spec fn query_params(pieces: Seq<Seq<char>>) -> Map<Seq<char>, Seq<Seq<char>>>
    decreases pieces.len(),
{
    if pieces.len() == 0 {
        Map::empty()
    } else {
        let m = query_params(pieces.drop_last());
        let p = pieces.last();
        if p.len() == 0 {
            m
        } else {
            multimap_put(m, query_pair(p).0, query_pair(p).1)
        }
    }
}

/// The path of the target `q`: everything before the first `?`.
pub open spec fn url_path(q: Seq<char>) -> Seq<char> {
    split(q, '?')[0]
}

/// The query parameters of the target `q`: those of the text between the first `?` and
/// the next one (or the end), separated by `&`; none when there is no `?`.
pub open spec fn url_params(q: Seq<char>) -> Map<Seq<char>, Seq<Seq<char>>> {
    let parts = split(q, '?');
    if parts.len() < 2 {
        Map::empty()
    } else {
        query_params(split(parts[1], '&'))
    }
}

proof fn lemma_split_nonempty(s: Seq<char>, sep: char)
    ensures
        split(s, sep).len() >= 1,
{
}

/// Splits the target of a request into its path and its query parameters.
pub fn parse_url(query: &str) -> (r: (String, MultiMap))
    ensures
        r.0@ == url_path(query@),
        r.1@ == url_params(query@),
{
    let path_param = split_str(query, '?');
    proof {
        lemma_split_nonempty(query@, '?');
    }
    let path = path_param[0].clone();
    if path_param.len() < 2 {
        return (path, MultiMap::new());
    }
    let pairs = split_str(path_param[1].as_str(), '&');
    let mut params = MultiMap::new();
    let mut i: usize = 0;
    proof {
        assert(pairs.deep_view().take(0) =~= Seq::<Seq<char>>::empty());
    }
    while i < pairs.len()
        invariant
            i <= pairs@.len(),
            params@ == query_params(pairs.deep_view().take(i as int)),
        decreases pairs@.len() - i,
    {
        let p = pairs[i].as_str();
        proof {
            let t = pairs.deep_view().take(i + 1);
            assert(t.drop_last() =~= pairs.deep_view().take(i as int));
            assert(t.last() == p@);
        }
        if !p.is_empty() {
            let idx = find_char(p, '=');
            let n = p.unicode_len();
            if idx < n {
                let key = p.substring_char(0, idx).to_owned();
                let value = p.substring_char(idx + 1, n).to_owned();
                proof {
                    assert(key@ =~= query_pair(p@).0);
                    assert(value@ =~= query_pair(p@).1);
                }
                params.put(key, value);
            } else {
                params.put(p.to_owned(), "true".to_owned());
            }
        }
        i = i + 1;
    }
    proof {
        assert(pairs.deep_view().take(i as int) =~= pairs.deep_view());
    }
    (path, params)
}

/// A query piece with `=` gives the name before its first `=` and all that follows as the
/// value, empty when nothing follows; only a piece without `=` is read as a name with the
/// value `true`.
pub proof fn law_query_pair(n: Seq<char>, v: Seq<char>)
    requires
        forall|k: int| 0 <= k < n.len() ==> n[k] != '=',
    ensures
        query_pair(n + seq!['='] + v) == (n, v),
        query_pair(n) == (n, "true"@),
{
    let p = n + seq!['='] + v;
    lemma_char_index_first(n, '=', v);
    assert(p.take(n.len() as int) =~= n);
    assert(p.skip((n.len() + 1) as int) =~= v);
}

/// A target with one query parameter `n=v` has the path before the `?` and maps `n` to
/// `v` alone, `v` empty or not, whatever `=` it holds.
pub proof fn law_parse_url_one_param(path: Seq<char>, n: Seq<char>, v: Seq<char>)
    requires
        forall|k: int| 0 <= k < path.len() ==> path[k] != '?',
        forall|k: int| 0 <= k < n.len() ==> n[k] != '=' && n[k] != '&' && n[k] != '?',
        forall|k: int| 0 <= k < v.len() ==> v[k] != '&' && v[k] != '?',
    ensures
        url_path(path + seq!['?'] + n + seq!['='] + v) == path,
        url_params(path + seq!['?'] + n + seq!['='] + v) == map![n => seq![v]],
{
    let q = n + seq!['='] + v;
    let s = path + seq!['?'] + n + seq!['='] + v;
    assert(s =~= path + seq!['?'] + q);
    assert forall|k: int| 0 <= k < q.len() implies q[k] != '?' && q[k] != '&' by {
        if k < n.len() {
            assert(q[k] == n[k]);
        } else if k > n.len() {
            assert(q[k] == v[k - n.len() - 1]);
        }
    }
    lemma_split_first(path, '?', q);
    lemma_split_first(q, '?', Seq::empty());
    lemma_split_first(q, '&', Seq::empty());
    assert(split(s, '?') =~= seq![path, q]);
    law_query_pair(n, v);
    let pieces = split(q, '&');
    assert(pieces =~= seq![q]);
    assert(pieces.drop_last() =~= Seq::<Seq<char>>::empty());
    assert(query_params(pieces.drop_last()) == Map::<Seq<char>, Seq<Seq<char>>>::empty());
    assert(url_params(s) =~= map![n => seq![v]]);
}

// ---------------------------------------------------------------------------
// Header fields of a request
// ---------------------------------------------------------------------------

/// The name and value of the header line `line`: split at the first `:`, both trimmed;
/// a line without `:` has none.
pub open spec fn header_field(line: Seq<char>) -> Option<(Seq<char>, Seq<char>)> {
    let i = char_index(line, ':');
    if i < line.len() {
        Some((trim(line.take(i as int)), trim(line.skip((i + 1) as int))))
    } else {
        None
    }
}

/// The header fields of the lines `lines`, each value appended to the values of its name
/// in order.
pub open spec fn header_fields(lines: Seq<Seq<char>>) -> Map<Seq<char>, Seq<Seq<char>>>
    decreases lines.len(),
{
    if lines.len() == 0 {
        Map::empty()
    } else {
        let m = header_fields(lines.drop_last());
        match header_field(lines.last()) {
            Some(f) => multimap_put(m, f.0, f.1),
            None => m,
        }
    }
}

/// A header line's name is what stands before its first `:` and its value all of the rest,
/// both trimmed, whatever `:` the value itself holds.
pub proof fn law_header_field_first_colon(k: Seq<char>, v: Seq<char>)
    requires
        forall|i: int| 0 <= i < k.len() ==> k[i] != ':',
    ensures
        header_field(k + seq![':'] + v) == Some((trim(k), trim(v))),
        header_fields(seq![k + seq![':'] + v]) == map![trim(k) => seq![trim(v)]],
        header_field(k) is None,
{
    let line = k + seq![':'] + v;
    lemma_char_index_first(k, ':', v);
    assert(line.take(k.len() as int) =~= k);
    assert(line.skip((k.len() + 1) as int) =~= v);
    let lines = seq![line];
    assert(lines.drop_last() =~= Seq::<Seq<char>>::empty());
    assert(header_fields(lines.drop_last()) == Map::<Seq<char>, Seq<Seq<char>>>::empty());
    assert(header_fields(lines) =~= map![trim(k) => seq![trim(v)]]);
}

/// The header fields of the lines of a request head after its request line.
pub fn init_header(lines: &Vec<String>) -> (r: MultiMap)
    ensures
        lines@.len() > 0 ==> r@ == header_fields(lines.deep_view().skip(1)),
        lines@.len() == 0 ==> r@ == Map::<Seq<char>, Seq<Seq<char>>>::empty(),
{
    let mut header_map = MultiMap::new();
    if lines.len() == 0 {
        return header_map;
    }
    let ghost fields = lines.deep_view().skip(1);
    let mut i: usize = 1;
    proof {
        assert(fields.take(0) =~= Seq::<Seq<char>>::empty());
    }
    while i < lines.len()
        invariant
            1 <= i <= lines@.len(),
            fields == lines.deep_view().skip(1),
            header_map@ == header_fields(fields.take(i - 1)),
        decreases lines@.len() - i,
    {
        let buf = lines[i].as_str();
        proof {
            let t = fields.take(i as int);
            assert(t.drop_last() =~= fields.take(i - 1));
            assert(t.last() == buf@);
        }
        let div_idx = find_char(buf, ':');
        let n = buf.unicode_len();
        if div_idx < n {
            let key = str_trim(buf.substring_char(0, div_idx));
            let value = str_trim(buf.substring_char(div_idx + 1, n));
            proof {
                assert(buf@.take(div_idx as int) =~= buf@.subrange(0, div_idx as int));
                assert(buf@.skip(div_idx + 1) =~= buf@.subrange(div_idx + 1, n as int));
            }
            header_map.put(key, value);
        }
        i = i + 1;
    }
    proof {
        assert(fields.take(i - 1) =~= fields);
    }
    header_map
}


// ---------------------------------------------------------------------------
// Reading the head of a request, line by line
// ---------------------------------------------------------------------------

/// `t` ends with CR LF.
pub open spec fn ends_with_crlf(t: Seq<char>) -> bool {
    t.len() >= 2 && t[t.len() - 2] == '\r' && t[t.len() - 1] == '\n'
}

/// What a line of the head leads to.
#[derive(Debug)]
pub enum HeaderLine {
    /// The line was kept; more are to come.
    More,
    /// The head ended, after the number of bytes given.
    End(usize),
    /// The head cannot be read.
    Failed(Error),
}

/// Reads the head of a request from the lines that come in: counts their bytes against
/// the limit, drops the leading whitespace of each, and keeps each line without its CR LF
/// until an empty one ends the head.
#[derive(Debug)]
pub struct HeaderReader {
    max_header_length: usize,
    readed: usize,
    lines: Vec<String>,
}

impl HeaderReader {
    pub closed spec fn max_spec(&self) -> usize {
        self.max_header_length
    }

    /// The number of bytes read so far.
    pub closed spec fn readed_spec(&self) -> usize {
        self.readed
    }

    /// The lines kept so far.
    pub closed spec fn lines_spec(&self) -> Seq<Seq<char>> {
        self.lines.deep_view()
    }

    pub fn new(max_header_length: usize) -> (r: Self)
        ensures
            r.max_spec() == max_header_length,
            r.readed_spec() == 0,
            r.lines_spec() == Seq::<Seq<char>>::empty(),
    {
        let r = HeaderReader { max_header_length, readed: 0, lines: Vec::new() };
        proof {
            assert(r.lines_spec() =~= Seq::<Seq<char>>::empty());
        }
        r
    }

    /// Takes the next line as it was read, with its line end; the empty string at the end
    /// of the input. `line.len()` counts its bytes.
    pub fn accept_line(&mut self, line: &str) -> (r: HeaderLine)
        ensures
            final(self).max_spec() == old(self).max_spec(),
            ({
                let total = old(self).readed_spec() + line.len();
                let t = trim_start(line@);
                if total > old(self).max_spec() {
                    &&& r matches HeaderLine::Failed(Error::BadRequest(m))
                    &&& m@ == "header size limit exceed"@
                } else {
                    &&& final(self).readed_spec() == total
                    &&& if t.len() == 0 {
                        &&& final(self).lines_spec() == old(self).lines_spec()
                        &&& if total == 0 {
                            r matches HeaderLine::Failed(Error::ReadFail(m)) && m@ == "EOF"@
                        } else {
                            r matches HeaderLine::End(n) && n == total
                        }
                    } else if !ends_with_crlf(t) {
                        r matches HeaderLine::Failed(Error::ParseFail(m)) && m@ == "Invalid heaader "@ + t
                    } else {
                        &&& r is More
                        &&& final(self).lines_spec() == old(self).lines_spec().push(t.take(t.len() - 2))
                    }
                }
            }),
    {
        let n = line.len();
        if n > self.max_header_length || self.readed > self.max_header_length - n {
            return HeaderLine::Failed(Error::BadRequest("header size limit exceed"));
        }
        self.readed = self.readed + n;
        let buf = str_trim_start(line);
        let v = chars_of(buf.as_str());
        let len = v.len();
        if len == 0 {
            if self.readed == 0 {
                return HeaderLine::Failed(Error::ReadFail("EOF".to_owned()));
            }
            return HeaderLine::End(self.readed);
        }
        if len < 2 || v[len - 2] != '\r' || v[len - 1] != '\n' {
            let mut msg = "Invalid heaader ".to_owned();
            msg.append(buf.as_str());
            return HeaderLine::Failed(Error::ParseFail(msg));
        }
        let kept = buf.as_str().substring_char(0, len - 2).to_owned();
        let ghost before = self.lines.deep_view();
        self.lines.push(kept);
        proof {
            assert(kept@ =~= buf@.take(len - 2));
            assert(self.lines.deep_view() =~= before.push(kept@));
        }
        HeaderLine::More
    }

    /// The number of bytes read so far.
    pub fn readed(&self) -> (r: usize)
        ensures
            r == self.readed_spec(),
    {
        self.readed
    }

    /// The lines kept.
    pub fn into_lines(self) -> (r: Vec<String>)
        ensures
            r.deep_view() == self.lines_spec(),
    {
        self.lines
    }
}

// ---------------------------------------------------------------------------
// The body of a request
// ---------------------------------------------------------------------------

/// How a read of the body goes on after the bytes left over from the head.
#[derive(Debug, PartialEq, Eq, Structural)]
pub enum BodyRead {
    /// The read is complete with this many bytes.
    Done(usize),
    /// The stream is to be read into the rest of the buffer, after `filled` bytes.
    /// When `partial` holds, a read that would block ends the read with `filled` bytes.
    ReadStream { filled: usize, partial: bool },
}

/// The number of bytes that a read of the leftovers put into the buffer.
pub open spec fn filled_of(r: BodyRead) -> int {
    match r {
        BodyRead::Done(k) => k as int,
        BodyRead::ReadStream { filled, .. } => filled as int,
    }
}

/// One read of the leftovers `before`: it delivers `taken`, their first bytes, and leaves
/// `after`; when it goes on to the stream, nothing is left.
pub open spec fn remain_step(before: Seq<u8>, r: BodyRead, taken: Seq<u8>, after: Seq<u8>) -> bool {
    &&& before == taken + after
    &&& taken.len() == filled_of(r)
    &&& (r is ReadStream ==> after.len() == 0)
}

/// What a run of reads delivers: each read's bytes from the leftovers, then its bytes from
/// the stream.
pub open spec fn delivered(taken: Seq<Seq<u8>>, streamed: Seq<Seq<u8>>) -> Seq<Seq<u8>> {
    Seq::new(taken.len(), |i: int| taken[i] + streamed[i])
}

/// Reading the body over several calls gives the bytes left over from the head first, each
/// once and in order, and then the stream: if call `i` of a run takes `taken[i]` from the
/// leftovers `pending[i]` (see `BodyReader::read_remain`) and then reads `streamed[i]` from
/// the stream (nothing when it was done with the leftovers alone), all the bytes delivered,
/// followed by what is still left over, are the leftovers, followed by all the bytes read
/// from the stream.
pub proof fn law_body_read_order(
    pending: Seq<Seq<u8>>,
    reads: Seq<BodyRead>,
    taken: Seq<Seq<u8>>,
    streamed: Seq<Seq<u8>>,
)
    requires
        pending.len() == reads.len() + 1,
        taken.len() == reads.len(),
        streamed.len() == reads.len(),
        forall|i: int| 0 <= i < reads.len() ==> #[trigger] remain_step(pending[i], reads[i], taken[i], pending[i + 1]),
        forall|i: int| 0 <= i < reads.len() && (#[trigger] reads[i]) is Done ==> streamed[i].len() == 0,
    ensures
        delivered(taken, streamed).flatten() + pending.last() == pending[0] + streamed.flatten(),
    decreases reads.len(),
{
    if reads.len() > 0 {
        let p1 = pending.drop_first();
        let r1 = reads.drop_first();
        let t1 = taken.drop_first();
        let s1 = streamed.drop_first();
        assert forall|i: int| 0 <= i < r1.len() implies #[trigger] remain_step(p1[i], r1[i], t1[i], p1[i + 1]) by {
            let j = i + 1;
            assert(remain_step(pending[j], reads[j], taken[j], pending[j + 1]));
            assert(p1[i + 1] == pending[j + 1]);
        }
        assert forall|i: int| 0 <= i < r1.len() && (#[trigger] r1[i]) is Done implies s1[i].len() == 0 by {
            assert(reads[i + 1] is Done);
        }
        law_body_read_order(p1, r1, t1, s1);
        let d = delivered(taken, streamed);
        assert(d.drop_first() =~= delivered(t1, s1));
        assert(remain_step(pending[0], reads[0], taken[0], pending[1]));
        assert(d.flatten() == d[0] + d.drop_first().flatten());
        assert(streamed.flatten() == streamed[0] + s1.flatten());
        assert(p1.last() == pending.last());
        let rest = delivered(t1, s1).flatten();
        assert(rest + pending.last() == pending[1] + s1.flatten());
        assert(d[0] == taken[0] + streamed[0]);
        assert(d.flatten() + pending.last() =~= taken[0] + (streamed[0] + (rest + pending.last())));
        if reads[0] is Done {
            assert(streamed[0] =~= Seq::<u8>::empty());
            assert(streamed[0] + (pending[1] + s1.flatten()) =~= pending[1] + (streamed[0] + s1.flatten()));
        } else {
            assert(pending[1] =~= Seq::<u8>::empty());
            assert(streamed[0] + (pending[1] + s1.flatten()) =~= pending[1] + (streamed[0] + s1.flatten()));
        }
        assert(taken[0] + (pending[1] + (streamed[0] + s1.flatten())) =~= pending[0] + streamed.flatten());
    } else {
        assert(delivered(taken, streamed) =~= Seq::<Seq<u8>>::empty());
        assert(streamed =~= Seq::<Seq<u8>>::empty());
        assert(delivered(taken, streamed).flatten() + pending.last() =~= pending[0] + streamed.flatten());
    }
}

/// Reads the body of a request: first the bytes that were read with the head, then the
/// stream.
#[derive(Debug)]
pub struct BodyReader {
    remain: Vec<u8>,
    position: usize,
}

impl BodyReader {
    /// The bytes left over from the head that are still to be read.
    pub closed spec fn pending(&self) -> Seq<u8> {
        self.remain@.skip(self.position as int)
    }

    pub closed spec fn wf(&self) -> bool {
        self.position <= self.remain@.len()
    }

    pub fn new(remain: Vec<u8>) -> (r: Self)
        ensures
            r.wf(),
            r.pending() == remain@,
    {
        let r = BodyReader { remain, position: 0 };
        proof {
            assert(r.pending() =~= remain@);
        }
        r
    }

    /// Fills `buf` from the bytes left over from the head, as far as they go, and says
    /// whether the stream is to be read for the rest.
    pub fn read_remain(&mut self, buf: &mut [u8]) -> (r: BodyRead)
        requires
            old(self).wf(),
        ensures
            final(self).wf(),
            ({
                let p = old(self).pending();
                let n = old(buf)@.len();
                let k = if n <= p.len() { n } else { p.len() };
                &&& final(buf)@.len() == old(buf)@.len()
                &&& final(buf)@.take(k as int) == p.take(k as int)
                &&& final(buf)@.skip(k as int) == old(buf)@.skip(k as int)
                &&& final(self).pending() == p.skip(k as int)
                &&& remain_step(p, r, final(buf)@.take(k as int), final(self).pending())
                &&& r == if p.len() > 0 && n <= p.len() {
                    BodyRead::Done(k as usize)
                } else {
                    BodyRead::ReadStream { filled: k as usize, partial: p.len() > 0 }
                }
            }),
    {
        let remain_len = self.remain.len() - self.position;
        let n = buf.len();
        let k = if n <= remain_len {
            n
        } else {
            remain_len
        };
        let ghost p = self.pending();
        let mut i: usize = 0;
        while i < k
            invariant
                self.wf(),
                i <= k,
                k <= buf@.len(),
                k <= p.len(),
                self.position + k <= self.remain.len(),
                p == self.remain@.skip(self.position as int),
                self.remain@ == old(self).remain@,
                self.position == old(self).position,
                buf@.len() == old(buf)@.len(),
                forall|j: int| 0 <= j < i ==> buf@[j] == p[j],
                forall|j: int| i <= j < buf@.len() ==> buf@[j] == old(buf)@[j],
            decreases k - i,
        {
            let idx = self.position + i;
            proof {
                assert(p[i as int] == self.remain@[idx as int]);
            }
            let byte = self.remain[idx];
            buf[i] = byte;
            i = i + 1;
        }
        self.position = self.position + k;
        proof {
            assert(buf@.take(k as int) =~= p.take(k as int));
            assert(buf@.skip(k as int) =~= old(buf)@.skip(k as int));
            assert(self.pending() =~= p.skip(k as int));
            assert(p =~= p.take(k as int) + p.skip(k as int));
        }
        if remain_len > 0 && n <= remain_len {
            BodyRead::Done(k)
        } else {
            BodyRead::ReadStream { filled: k, partial: remain_len > 0 }
        }
    }
}

// ---------------------------------------------------------------------------
// HTTP/1
// ---------------------------------------------------------------------------

/// A request line `m t rest` (`m` and `t` without spaces) gives the method `m` and the
/// target `t`, whatever follows; `m t` alone gives just those two.
pub proof fn law_request_line_pieces(m: Seq<char>, t: Seq<char>, rest: Seq<char>)
    requires
        forall|k: int| 0 <= k < m.len() ==> m[k] != ' ',
        forall|k: int| 0 <= k < t.len() ==> t[k] != ' ',
    ensures
        split(m + seq![' '] + t + seq![' '] + rest, ' ').len() >= 2,
        split(m + seq![' '] + t + seq![' '] + rest, ' ')[0] == m,
        split(m + seq![' '] + t + seq![' '] + rest, ' ')[1] == t,
        split(m + seq![' '] + t, ' ') == seq![m, t],
{
    let line = m + seq![' '] + t + seq![' '] + rest;
    assert(line =~= m + seq![' '] + (t + seq![' '] + rest));
    lemma_split_first(m, ' ', t + seq![' '] + rest);
    lemma_split_first(t, ' ', rest);
    lemma_split_first(m, ' ', t);
    assert(seq![m] + seq![t] =~= seq![m, t]);
}

/// The content coding of the body: the first value of `Content-Encoding` is `gzip`.
pub open spec fn body_is_gzip(header: Map<Seq<char>, Seq<Seq<char>>>) -> bool {
    &&& header.contains_key("Content-Encoding"@)
    &&& header["Content-Encoding"@].len() > 0
    &&& header["Content-Encoding"@][0] == "gzip"@
}

/// A request body is gzip-compressed exactly when the first value of its
/// `Content-Encoding` field is `gzip`, in lower case.
pub proof fn law_body_is_gzip(header: Map<Seq<char>, Seq<Seq<char>>>)
    ensures
        body_is_gzip(header) <==> {
            let name = seq!['C', 'o', 'n', 't', 'e', 'n', 't', '-', 'E', 'n', 'c', 'o', 'd', 'i', 'n', 'g'];
            &&& header.contains_key(name)
            &&& header[name].len() > 0
            &&& header[name][0] == seq!['g', 'z', 'i', 'p']
        },
{
    reveal_strlit("Content-Encoding");
    reveal_strlit("gzip");
    assert("Content-Encoding"@ =~= seq!['C', 'o', 'n', 't', 'e', 'n', 't', '-', 'E', 'n', 'c', 'o', 'd', 'i', 'n', 'g']);
    assert("gzip"@ =~= seq!['g', 'z', 'i', 'p']);
}

/// Serves HTTP/1 requests with `handler`, reading heads of at most `max_header_length` bytes.
pub struct Http1<T> {
    max_header_length: usize,
    handler: T,
}

impl<T> Http1<T> {
    pub closed spec fn max_header_length_spec(&self) -> usize {
        self.max_header_length
    }

    pub closed spec fn handler_spec(&self) -> T {
        self.handler
    }

    pub fn new(max_header_length: usize, handler: T) -> (r: Self)
        ensures
            r.max_header_length_spec() == max_header_length,
            r.handler_spec() == handler,
    {
        Http1 { max_header_length, handler }
    }

    pub fn handler(&self) -> (r: &T)
        ensures
            *r == self.handler_spec(),
    {
        &self.handler
    }

    /// A reader of a request head within the limit.
    pub fn header_reader(&self) -> (r: HeaderReader)
        ensures
            r.max_spec() == self.max_header_length_spec(),
            r.readed_spec() == 0,
            r.lines_spec() == Seq::<Seq<char>>::empty(),
    {
        HeaderReader::new(self.max_header_length)
    }

    /// The header fields of the lines of a request head after its request line.
    pub fn init_header(&self, lines: &Vec<String>) -> (r: MultiMap)
        ensures
            lines@.len() > 0 ==> r@ == header_fields(lines.deep_view().skip(1)),
            lines@.len() == 0 ==> r@ == Map::<Seq<char>, Seq<Seq<char>>>::empty(),
    {
        init_header(lines)
    }

    /// The request of the head `lines`, and whether its body is gzip-compressed. The
    /// request line gives the method (any case) and the target; the version is HTTP/1.0.
    pub fn init_request(&self, lines: &Vec<String>) -> (r: Result<(HttpRequest, bool), Error>)
        requires
            lines@.len() >= 1,
        ensures
            ({
                let line = lines.deep_view()[0];
                let pieces = split(line, ' ');
                if pieces.len() < 2 {
                    r matches Err(Error::ParseFail(m)) && m@ == "invalid request line: "@ + line
                } else {
                    &&& r matches Ok((request, gzip))
                    &&& HttpMethod::named(request.method_spec(), unicode_uppercase(pieces[0]), pieces[0])
                    &&& request.version_spec() == HttpVersion::Http10
                    &&& request.path_spec() == url_path(pieces[1])
                    &&& request.param_spec() == url_params(pieces[1])
                    &&& request.header_spec() == header_fields(lines.deep_view().skip(1))
                    &&& gzip == body_is_gzip(request.header_spec())
                }
            }),
    {
        let buf = lines[0].as_str();
        let req_line = split_str(buf, ' ');
        proof {
            lemma_split_nonempty(buf@, ' ');
        }
        if req_line.len() < 2 {
            let mut msg = "invalid request line: ".to_owned();
            msg.append(buf);
            return Err(Error::ParseFail(msg));
        }
        let method = req_line[0].as_str();
        let path_query = req_line[1].as_str();
        let version = HttpVersion::default();
        let (path, param) = parse_url(path_query);
        let header = self.init_header(lines);
        let gzip = match header.get("Content-Encoding") {
            Some(values) => values.len() > 0 && same_text(values[0].as_str(), "gzip"),
            None => false,
        };
        Ok((HttpRequest::new(HttpMethod::parse(method), version, path, header, param), gzip))
    }

    /// The `400 Bad Request` response to a request that cannot be read.
    pub fn error_response_for_invalid_request(&self) -> (r: HttpResponse)
        ensures
            r.wf(),
            r.version_spec() == HttpVersion::Http10,
            r.code_spec() == HttpResponseCode::BadRequest,
            r.body() == "Invalid request"@.map_values(|c: char| c as u8),
            !r.header_only_spec(),
            exists|date_header: HttpHeader|
                #![trigger table_add(table_add(table_add(HttpResponseHeader::new_table(),
                    HttpHeader::StrKey("Server", HeaderValue::Str("server_rs"))),
                    HttpHeader::StrKey("Content-Type", HeaderValue::Str("text/plain"))), date_header)]
                {
                    &&& date_header.key_text() == "Date"@
                    &&& exists|now: std::time::SystemTime| date_header.header_value().text()
                        == rfc1123_text(date_of_secs(#[trigger] epoch_secs_spec(now) as int))
                    &&& r.headers() == table_add(
                        table_add(
                            table_add(
                                HttpResponseHeader::new_table(),
                                HttpHeader::StrKey("Server", HeaderValue::Str("server_rs")),
                            ),
                            HttpHeader::StrKey("Content-Type", HeaderValue::Str("text/plain")),
                        ),
                        date_header,
                    )
                },
    {
        let mut response = HttpResponse::new(HttpVersion::default());
        response.set_response_code(HttpResponseCode::BadRequest);
        response.set_header(server(HttpHeaderValue::Str("server_rs")));
        response.set_header(content_type(HttpHeaderValue::Str("text/plain")));
        let now = crate::util::date::system_now();
        let date_header = date(now);
        let ghost dh = date_header;
        proof {
            assert(dh.header_value().text() == rfc1123_text(date_of_secs(epoch_secs_spec(now) as int)));
        }
        response.set_header(date_header);
        let body = "Invalid request";
        proof {
            reveal_strlit("Invalid request");
            assert(body.spec_bytes() =~= body@.map_values(|c: char| c as u8)) by {
                vstd::string::is_ascii_spec_bytes(body);
            }
        }
        response.write(body.as_bytes());
        response
    }
}

} // verus!
