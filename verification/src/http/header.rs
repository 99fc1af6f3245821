use vstd::prelude::*;
use vstd::string::*;

use crate::util::date::{Date, date_of_secs, epoch_secs_of, epoch_secs_spec, rfc1123_text};
use crate::util::text::{
    decimal_string, decimal_text, eq_ignore_ascii_case, lemma_eq_ignore_ascii_case_equivalence,
    str_eq_ignore_ascii_case,
};

verus! {

// ---------------------------------------------------------------------------
// Header values
// ---------------------------------------------------------------------------

/// A value that reads as text.
pub trait ToStr {
    /// The text that `to_str` gives.
    spec fn text(&self) -> Seq<char>;

    fn to_str(&self) -> (r: &str)
        ensures
            r@ == self.text(),
    ;
}

/// A header value given as an owned or a static string.
pub enum HttpHeaderValue {
    String(String),
    Str(&'static str),
}

/// The text of a date header: an RFC 1123 date.
#[derive(Debug)]
pub struct HeaderValueTime {
    string: String,
}

/// The value of a header as the table holds it.
#[derive(Debug)]
pub enum HeaderValue {
    Str(&'static str),
    String(String),
    Time(HeaderValueTime),
}

impl ToStr for HeaderValueTime {
    closed spec fn text(&self) -> Seq<char> {
        self.string@
    }

    fn to_str(&self) -> (r: &str) {
        self.string.as_str()
    }
}

impl Clone for HeaderValueTime {
    fn clone(&self) -> (r: Self)
        ensures
            r == *self,
    {
        HeaderValueTime { string: self.string.clone() }
    }
}

impl HeaderValueTime {
    /// The RFC 1123 text of the moment `secs` seconds after 1970-01-01 00:00:00 UTC.
    pub fn from_epoch_secs(secs: u64) -> (r: Self)
        ensures
            r.text() == rfc1123_text(date_of_secs(secs as int)),
    {
        let date = Date::from_epoch_secs(secs);
        HeaderValueTime { string: date.to_rfc1123() }
    }

    /// The RFC 1123 text of `time` (of 1970-01-01 00:00:00 UTC for a time before it).
    pub fn from_system_time(time: std::time::SystemTime) -> (r: Self)
        ensures
            r.text() == rfc1123_text(date_of_secs(epoch_secs_spec(time) as int)),
    {
        Self::from_epoch_secs(epoch_secs_of(time))
    }
}

impl ToStr for HeaderValue {
    open spec fn text(&self) -> Seq<char> {
        match self {
            HeaderValue::Str(s) => s@,
            HeaderValue::String(s) => s@,
            HeaderValue::Time(t) => t.text(),
        }
    }

    fn to_str(&self) -> (r: &str) {
        match self {
            HeaderValue::Str(s) => s,
            HeaderValue::String(s) => s.as_str(),
            HeaderValue::Time(t) => t.to_str(),
        }
    }
}

impl Clone for HeaderValue {
    fn clone(&self) -> (r: Self)
        ensures
            r == *self,
    {
        match self {
            HeaderValue::Str(s) => HeaderValue::Str(s),
            HeaderValue::String(s) => HeaderValue::String(s.clone()),
            HeaderValue::Time(t) => HeaderValue::Time(t.clone()),
        }
    }
}

impl HttpHeaderValue {
    /// The header value that `to_value` makes of `self`.
    pub open spec fn as_header_value(&self) -> HeaderValue {
        match self {
            HttpHeaderValue::String(s) => HeaderValue::String(*s),
            HttpHeaderValue::Str(s) => HeaderValue::Str(*s),
        }
    }

    pub fn to_value(&self) -> (r: HeaderValue)
        ensures
            r == self.as_header_value(),
            r.text() == self.as_header_value().text(),
    {
        match self {
            HttpHeaderValue::String(string) => HeaderValue::String(string.clone()),
            HttpHeaderValue::Str(str) => HeaderValue::Str(str),
        }
    }
}

// ---------------------------------------------------------------------------
// Headers
// ---------------------------------------------------------------------------

/// A header: its name and its value.
#[derive(Debug)]
pub enum HttpHeader {
    StrKey(&'static str, HeaderValue),
    StringKey(String, HeaderValue),
}

impl Clone for HttpHeader {
    fn clone(&self) -> (r: Self)
        ensures
            r == *self,
    {
        match self {
            HttpHeader::StrKey(k, v) => HttpHeader::StrKey(k, v.clone()),
            HttpHeader::StringKey(k, v) => HttpHeader::StringKey(k.clone(), v.clone()),
        }
    }
}

impl HttpHeader {
    /// The name of the header.
    pub open spec fn key_text(&self) -> Seq<char> {
        match self {
            HttpHeader::StrKey(key, _) => key@,
            HttpHeader::StringKey(key, _) => key@,
        }
    }

    /// The value of the header.
    pub open spec fn header_value(&self) -> HeaderValue {
        match self {
            HttpHeader::StrKey(_, value) => *value,
            HttpHeader::StringKey(_, value) => *value,
        }
    }

    pub fn key_str(&self) -> (r: &str)
        ensures
            r@ == self.key_text(),
    {
        match self {
            HttpHeader::StrKey(key, _) => key,
            HttpHeader::StringKey(key, _) => key.as_str(),
        }
    }

    pub fn value(&self) -> (r: &HeaderValue)
        ensures
            *r == self.header_value(),
    {
        match self {
            HttpHeader::StrKey(_, value) => value,
            HttpHeader::StringKey(_, value) => value,
        }
    }
}

fn from_str_key(key: &'static str, value: HeaderValue) -> (h: HttpHeader)
    ensures
        h == HttpHeader::StrKey(key, value),
{
    HttpHeader::StrKey(key, value)
}

fn from_string_key(key: String, value: HeaderValue) -> (h: HttpHeader)
    ensures
        h == HttpHeader::StringKey(key, value),
{
    HttpHeader::StringKey(key, value)
}

// common

/// The `Date` header of `time`.
pub fn date(time: std::time::SystemTime) -> (h: HttpHeader)
    ensures
        h.key_text() == "Date"@,
        h.header_value().text() == rfc1123_text(date_of_secs(epoch_secs_spec(time) as int)),
{
    from_str_key("Date", HeaderValue::Time(HeaderValueTime::from_system_time(time)))
}

/// The `Date` header of the moment `secs` seconds after 1970-01-01 00:00:00 UTC.
pub fn date_at(secs: u64) -> (h: HttpHeader)
    ensures
        h.key_text() == "Date"@,
        h.header_value().text() == rfc1123_text(date_of_secs(secs as int)),
{
    from_str_key("Date", HeaderValue::Time(HeaderValueTime::from_epoch_secs(secs)))
}

// entity

pub fn content_encoding(value: HttpHeaderValue) -> (h: HttpHeader)
    ensures
        h == HttpHeader::StrKey("Content-Encoding", value.as_header_value()),
{
    from_str_key("Content-Encoding", value.to_value())
}

/// The `Content-Length` header: `value` in decimal.
pub fn content_length(value: usize) -> (h: HttpHeader)
    ensures
        h.key_text() == "Content-Length"@,
        h.header_value().text() == decimal_text(value as nat),
{
    from_str_key("Content-Length", HeaderValue::String(decimal_string(value)))
}

pub fn content_type(value: HttpHeaderValue) -> (h: HttpHeader)
    ensures
        h == HttpHeader::StrKey("Content-Type", value.as_header_value()),
{
    from_str_key("Content-Type", value.to_value())
}

/// The `Expires` header of `time`.
pub fn expires(time: std::time::SystemTime) -> (h: HttpHeader)
    ensures
        h.key_text() == "Expires"@,
        h.header_value().text() == rfc1123_text(date_of_secs(epoch_secs_spec(time) as int)),
{
    from_str_key("Expires", HeaderValue::Time(HeaderValueTime::from_system_time(time)))
}

/// The `Last-Modified` header of `time`.
pub fn last_modified(time: std::time::SystemTime) -> (h: HttpHeader)
    ensures
        h.key_text() == "Last-Modified"@,
        h.header_value().text() == rfc1123_text(date_of_secs(epoch_secs_spec(time) as int)),
{
    from_str_key("Last-Modified", HeaderValue::Time(HeaderValueTime::from_system_time(time)))
}

/// A header of any name.
pub fn header(key: &'static str, value: HttpHeaderValue) -> (h: HttpHeader)
    ensures
        h == HttpHeader::StrKey(key, value.as_header_value()),
{
    from_str_key(key, value.to_value())
}

/// A header whose name is an owned string.
pub fn header_with_key(key: String, value: HttpHeaderValue) -> (h: HttpHeader)
    ensures
        h == HttpHeader::StringKey(key, value.as_header_value()),
{
    from_string_key(key, value.to_value())
}

pub fn location(value: HttpHeaderValue) -> (h: HttpHeader)
    ensures
        h == HttpHeader::StrKey("Location", value.as_header_value()),
{
    from_str_key("Location", value.to_value())
}

pub fn server(value: HttpHeaderValue) -> (h: HttpHeader)
    ensures
        h == HttpHeader::StrKey("Server", value.as_header_value()),
{
    from_str_key("Server", value.to_value())
}

pub fn www_authenticate(value: HttpHeaderValue) -> (h: HttpHeader)
    ensures
        h == HttpHeader::StrKey("WWW-Authenticate", value.as_header_value()),
{
    from_str_key("WWW-Authenticate", value.to_value())
}


// ---------------------------------------------------------------------------
// The header table of a response
// ---------------------------------------------------------------------------

/// Number of slots for the headers that HTTP/1.0 defines (and room for more).
pub const HEADER_SIZE: usize = 16;

/// Number of the slots that hold a defined header name; the rest are unnamed.
pub const HEADER_DEFINED_SIZE: usize = 10;

/// The name of slot `i` of the table; the slots from `HEADER_DEFINED_SIZE` on have the empty name.
pub open spec fn known_header_name(i: int) -> Seq<char> {
    if i == 0 {
        "Allow"@
    } else if i == 1 {
        "Content-Encoding"@
    } else if i == 2 {
        "Content-Length"@
    } else if i == 3 {
        "Content-Type"@
    } else if i == 4 {
        "Date"@
    } else if i == 5 {
        "Expires"@
    } else if i == 6 {
        "Last-Modified"@
    } else if i == 7 {
        "Location"@
    } else if i == 8 {
        "Server"@
    } else if i == 9 {
        "WWW-Authenticate"@
    } else {
        ""@
    }
}

fn known_header_name_str(i: usize) -> (r: &'static str)
    requires
        i < HEADER_SIZE,
    ensures
        r@ == known_header_name(i as int),
{
    match i {
        0 => "Allow",
        1 => "Content-Encoding",
        2 => "Content-Length",
        3 => "Content-Type",
        4 => "Date",
        5 => "Expires",
        6 => "Last-Modified",
        7 => "Location",
        8 => "Server",
        9 => "WWW-Authenticate",
        _ => "",
    }
}

/// `i` is the first slot whose name equals `key` without regard to ASCII case.
pub open spec fn is_first_known_match(key: Seq<char>, i: int) -> bool {
    &&& 0 <= i < HEADER_SIZE
    &&& eq_ignore_ascii_case(known_header_name(i), key)
    &&& forall|k: int| 0 <= k < i ==> !eq_ignore_ascii_case(#[trigger] known_header_name(k), key)
}

/// The slot that holds the header named `key`, when `key` is a name of a slot.
pub open spec fn known_slot(key: Seq<char>) -> Option<int> {
    if exists|i: int| is_first_known_match(key, i) {
        Some(choose|i: int| is_first_known_match(key, i))
    } else {
        None
    }
}

/// `j` is the first header of `hs` whose name equals `key` without regard to ASCII case.
pub open spec fn is_first_custom_match(hs: Seq<HttpHeader>, key: Seq<char>, j: int) -> bool {
    &&& 0 <= j < hs.len()
    &&& eq_ignore_ascii_case(hs[j].key_text(), key)
    &&& forall|k: int| 0 <= k < j ==> !eq_ignore_ascii_case(#[trigger] hs[k].key_text(), key)
}

/// The position in `hs` of the header named `key`, if there is one.
pub open spec fn custom_slot(hs: Seq<HttpHeader>, key: Seq<char>) -> Option<int> {
    if exists|j: int| is_first_custom_match(hs, key, j) {
        Some(choose|j: int| is_first_custom_match(hs, key, j))
    } else {
        None
    }
}

/// The contents of a header table: the slots of the named headers, and the other
/// headers in the order in which they were first added.
pub type HeaderTable = (Seq<Option<HttpHeader>>, Seq<HttpHeader>);

/// The table after `h` is added: it takes the slot of its name, or replaces the header
/// of the same name, or comes last.
pub open spec fn table_add(t: HeaderTable, h: HttpHeader) -> HeaderTable {
    match known_slot(h.key_text()) {
        Some(i) => (t.0.update(i, Some(h)), t.1),
        None => match custom_slot(t.1, h.key_text()) {
            Some(j) => (t.0, t.1.update(j, h)),
            None => (t.0, t.1.push(h)),
        },
    }
}

/// The value of the header named `key` (without regard to ASCII case), if there is one.
pub open spec fn table_get(t: HeaderTable, key: Seq<char>) -> Option<HeaderValue> {
    match known_slot(key) {
        Some(i) => match t.0[i] {
            Some(h) => Some(h.header_value()),
            None => None,
        },
        None => match custom_slot(t.1, key) {
            Some(j) => Some(t.1[j].header_value()),
            None => None,
        },
    }
}

/// The headers held in `slots`, in order.
pub open spec fn present(slots: Seq<Option<HttpHeader>>) -> Seq<HttpHeader>
    decreases slots.len(),
{
    if slots.len() == 0 {
        Seq::empty()
    } else {
        match slots[0] {
            Some(h) => seq![h] + present(slots.drop_first()),
            None => present(slots.drop_first()),
        }
    }
}

/// The headers of the table in the order in which they are written: the named ones in
/// the order of their slots, then the others.
pub open spec fn table_headers(t: HeaderTable) -> Seq<HttpHeader> {
    present(t.0.take(HEADER_DEFINED_SIZE as int)) + t.1
}

/// The table keeps each header where `table_add` puts it: in the slot of its name, or
/// among the others under a name that no slot and no other header has.
pub open spec fn table_wf(t: HeaderTable) -> bool {
    &&& t.0.len() == HEADER_SIZE
    &&& forall|i: int| 0 <= i < HEADER_SIZE && (#[trigger] t.0[i]) is Some
        ==> known_slot(t.0[i]->0.key_text()) == Some(i)
    &&& forall|j: int| 0 <= j < t.1.len() ==> known_slot((#[trigger] t.1[j]).key_text()) is None
    &&& forall|j: int, k: int| 0 <= j < t.1.len() && 0 <= k < t.1.len() && j != k
        ==> !eq_ignore_ascii_case((#[trigger] t.1[j]).key_text(), (#[trigger] t.1[k]).key_text())
}

/// The headers of a response: the ones that HTTP/1.0 names each have a fixed slot,
/// the others are kept in the order in which they were first added.
#[derive(Debug)]
pub struct HttpResponseHeader {
    defined: Vec<Option<HttpHeader>>,
    undefined: Vec<HttpHeader>,
}

impl View for HttpResponseHeader {
    type V = HeaderTable;

    closed spec fn view(&self) -> HeaderTable {
        (self.defined@, self.undefined@)
    }
}

impl HttpResponseHeader {
    /// The contents of an empty table.
    pub open spec fn new_table() -> HeaderTable {
        (Seq::new(HEADER_SIZE as nat, |i: int| None::<HttpHeader>), Seq::<HttpHeader>::empty())
    }

    /// An empty table.
    pub fn new() -> (r: Self)
        ensures
            r@ == Self::new_table(),
            table_wf(r@),
    {
        let mut defined: Vec<Option<HttpHeader>> = Vec::new();
        let mut i: usize = 0;
        while i < HEADER_SIZE
            invariant
                i <= HEADER_SIZE,
                defined@ == Seq::new(i as nat, |k: int| None::<HttpHeader>),
            decreases HEADER_SIZE - i,
        {
            defined.push(None);
            i = i + 1;
        }
        let r = Self { defined, undefined: Vec::new() };
        proof {
            assert(r@ =~= Self::new_table());
        }
        r
    }

    fn known_slot_of(key: &str) -> (r: Option<usize>)
        ensures
            match r {
                Some(i) => known_slot(key@) == Some(i as int),
                None => known_slot(key@) is None,
            },
    {
        let mut i: usize = 0;
        while i < HEADER_SIZE
            invariant
                i <= HEADER_SIZE,
                forall|k: int| 0 <= k < i ==> !eq_ignore_ascii_case(#[trigger] known_header_name(k), key@),
            decreases HEADER_SIZE - i,
        {
            if str_eq_ignore_ascii_case(known_header_name_str(i), key) {
                proof {
                    assert(is_first_known_match(key@, i as int));
                    let c = choose|c: int| is_first_known_match(key@, c);
                    assert(c == i) by {
                        if c < i {
                            assert(!eq_ignore_ascii_case(known_header_name(c), key@));
                        } else if c > i {
                            assert(!eq_ignore_ascii_case(known_header_name(i as int), key@));
                        }
                    }
                }
                return Some(i);
            }
            i = i + 1;
        }
        None
    }

    fn custom_slot_of(&self, key: &str) -> (r: Option<usize>)
        ensures
            match r {
                Some(j) => custom_slot(self@.1, key@) == Some(j as int) && j < self@.1.len(),
                None => custom_slot(self@.1, key@) is None,
            },
    {
        let mut j: usize = 0;
        while j < self.undefined.len()
            invariant
                j <= self@.1.len(),
                forall|k: int| 0 <= k < j ==> !eq_ignore_ascii_case(#[trigger] self@.1[k].key_text(), key@),
            decreases self@.1.len() - j,
        {
            if str_eq_ignore_ascii_case(self.undefined[j].key_str(), key) {
                proof {
                    assert(is_first_custom_match(self@.1, key@, j as int));
                    let c = choose|c: int| is_first_custom_match(self@.1, key@, c);
                    assert(c == j) by {
                        if c < j {
                            assert(!eq_ignore_ascii_case(self@.1[c].key_text(), key@));
                        } else if c > j {
                            assert(!eq_ignore_ascii_case(self@.1[j as int].key_text(), key@));
                        }
                    }
                }
                return Some(j);
            }
            j = j + 1;
        }
        None
    }

    /// Adds `header`, replacing the header of the same name (without regard to ASCII case).
    pub fn add(&mut self, header: HttpHeader)
        requires
            table_wf(old(self)@),
        ensures
            final(self)@ == table_add(old(self)@, header),
            table_wf(final(self)@),
    {
        proof {
            lemma_table_add_wf(self@, header);
        }
        if let Some(index) = Self::known_slot_of(header.key_str()) {
            self.defined.set(index, Some(header));
            return;
        }
        if let Some(idx) = self.custom_slot_of(header.key_str()) {
            self.undefined.set(idx, header);
            return;
        }
        self.undefined.push(header);
    }

    /// Sets the header named `key` to `value`, replacing the header of the same name
    /// (without regard to ASCII case).
    pub fn set(&mut self, key: &'static str, value: HeaderValue)
        requires
            table_wf(old(self)@),
        ensures
            final(self)@ == table_add(old(self)@, HttpHeader::StrKey(key, value)),
            table_wf(final(self)@),
    {
        self.add(HttpHeader::StrKey(key, value))
    }

    /// The value of the header named `key` (without regard to ASCII case).
    pub fn get(&self, key: &'static str) -> (r: Option<HeaderValue>)
        requires
            table_wf(self@),
        ensures
            r == table_get(self@, key@),
    {
        if let Some(index) = Self::known_slot_of(key) {
            return match &self.defined[index] {
                Some(h) => Some(h.value().clone()),
                None => None,
            };
        }
        if let Some(idx) = self.custom_slot_of(key) {
            return Some(self.undefined[idx].value().clone());
        }
        None
    }
}

proof fn lemma_known_slot_unique(key: Seq<char>, i: int)
    requires
        is_first_known_match(key, i),
    ensures
        known_slot(key) == Some(i),
{
    let c = choose|c: int| is_first_known_match(key, c);
    assert(c == i) by {
        if c < i {
            assert(!eq_ignore_ascii_case(known_header_name(c), key));
        } else if c > i {
            assert(!eq_ignore_ascii_case(known_header_name(i), key));
        }
    }
}

/// Adding a header keeps `table_wf`.
pub proof fn lemma_table_add_wf(t: HeaderTable, h: HttpHeader)
    requires
        table_wf(t),
    ensures
        table_wf(table_add(t, h)),
{
    let key = h.key_text();
    let r = table_add(t, h);
    match known_slot(key) {
        Some(i) => {
            assert(is_first_known_match(key, i));
        },
        None => match custom_slot(t.1, key) {
            Some(j) => {
                assert(is_first_custom_match(t.1, key, j));
                assert forall|a: int, b: int| 0 <= a < r.1.len() && 0 <= b < r.1.len() && a != b
                    implies !eq_ignore_ascii_case((#[trigger] r.1[a]).key_text(), (#[trigger] r.1[b]).key_text()) by {
                    if a == j {
                        lemma_eq_ignore_ascii_case_equivalence(key, t.1[j].key_text(), t.1[b].key_text());
                        lemma_eq_ignore_ascii_case_equivalence(t.1[j].key_text(), key, t.1[b].key_text());
                    } else if b == j {
                        lemma_eq_ignore_ascii_case_equivalence(t.1[a].key_text(), key, t.1[j].key_text());
                        lemma_eq_ignore_ascii_case_equivalence(t.1[j].key_text(), key, t.1[a].key_text());
                    }
                }
            },
            None => {
                assert forall|a: int, b: int| 0 <= a < r.1.len() && 0 <= b < r.1.len() && a != b
                    implies !eq_ignore_ascii_case((#[trigger] r.1[a]).key_text(), (#[trigger] r.1[b]).key_text()) by {
                    if a == t.1.len() {
                        lemma_eq_ignore_ascii_case_equivalence(key, t.1[b].key_text(), key);
                        if eq_ignore_ascii_case(key, t.1[b].key_text()) {
                            assert(is_first_custom_match(t.1, key, b) || exists|c: int| is_first_custom_match(t.1, key, c)) by {
                                lemma_first_custom_exists(t.1, key, b);
                            }
                        }
                    } else if b == t.1.len() {
                        if eq_ignore_ascii_case(t.1[a].key_text(), key) {
                            lemma_first_custom_exists(t.1, key, a);
                        }
                    }
                }
            },
        },
    }
}

proof fn lemma_first_custom_exists(hs: Seq<HttpHeader>, key: Seq<char>, j: int)
    requires
        0 <= j < hs.len(),
        eq_ignore_ascii_case(hs[j].key_text(), key),
    ensures
        exists|c: int| is_first_custom_match(hs, key, c),
    decreases j,
{
    if exists|k: int| 0 <= k < j && eq_ignore_ascii_case(#[trigger] hs[k].key_text(), key) {
        let k = choose|k: int| 0 <= k < j && eq_ignore_ascii_case(#[trigger] hs[k].key_text(), key);
        lemma_first_custom_exists(hs, key, k);
    } else {
        assert(is_first_custom_match(hs, key, j));
    }
}


proof fn lemma_custom_slot_is(hs: Seq<HttpHeader>, key: Seq<char>, j: int)
    requires
        is_first_custom_match(hs, key, j),
    ensures
        custom_slot(hs, key) == Some(j),
{
    let c = choose|c: int| is_first_custom_match(hs, key, c);
    assert(c == j) by {
        if c < j {
            assert(!eq_ignore_ascii_case(hs[c].key_text(), key));
        } else if c > j {
            assert(!eq_ignore_ascii_case(hs[j].key_text(), key));
        }
    }
}

/// Names that are equal without regard to ASCII case have the same slot.
proof fn lemma_same_known_slot(a: Seq<char>, b: Seq<char>)
    requires
        eq_ignore_ascii_case(a, b),
    ensures
        known_slot(a) == known_slot(b),
{
    assert forall|i: int| #[trigger] is_first_known_match(a, i) implies is_first_known_match(b, i) by {
        lemma_eq_ignore_ascii_case_equivalence(known_header_name(i), a, b);
        assert forall|k: int| 0 <= k < i implies !eq_ignore_ascii_case(#[trigger] known_header_name(k), b) by {
            lemma_eq_ignore_ascii_case_equivalence(b, a, known_header_name(k));
            lemma_eq_ignore_ascii_case_equivalence(known_header_name(k), b, a);
        }
    }
    assert forall|i: int| #[trigger] is_first_known_match(b, i) implies is_first_known_match(a, i) by {
        lemma_eq_ignore_ascii_case_equivalence(a, b, a);
        lemma_eq_ignore_ascii_case_equivalence(known_header_name(i), b, a);
        assert forall|k: int| 0 <= k < i implies !eq_ignore_ascii_case(#[trigger] known_header_name(k), a) by {
            lemma_eq_ignore_ascii_case_equivalence(known_header_name(k), a, b);
        }
    }
    if exists|i: int| is_first_known_match(a, i) {
        let i = choose|i: int| is_first_known_match(a, i);
        lemma_known_slot_unique(a, i);
        lemma_known_slot_unique(b, i);
    }
}

/// Names that are equal without regard to ASCII case find the same header among the others.
proof fn lemma_same_custom_slot(hs: Seq<HttpHeader>, a: Seq<char>, b: Seq<char>)
    requires
        eq_ignore_ascii_case(a, b),
    ensures
        custom_slot(hs, a) == custom_slot(hs, b),
{
    lemma_eq_ignore_ascii_case_equivalence(a, b, a);
    assert forall|j: int| #[trigger] is_first_custom_match(hs, a, j) implies is_first_custom_match(hs, b, j) by {
        lemma_eq_ignore_ascii_case_equivalence(hs[j].key_text(), a, b);
        assert forall|k: int| 0 <= k < j implies !eq_ignore_ascii_case(#[trigger] hs[k].key_text(), b) by {
            lemma_eq_ignore_ascii_case_equivalence(hs[k].key_text(), b, a);
        }
    }
    assert forall|j: int| #[trigger] is_first_custom_match(hs, b, j) implies is_first_custom_match(hs, a, j) by {
        lemma_eq_ignore_ascii_case_equivalence(hs[j].key_text(), b, a);
        assert forall|k: int| 0 <= k < j implies !eq_ignore_ascii_case(#[trigger] hs[k].key_text(), a) by {
            lemma_eq_ignore_ascii_case_equivalence(hs[k].key_text(), a, b);
        }
    }
    if exists|j: int| is_first_custom_match(hs, a, j) {
        let j = choose|j: int| is_first_custom_match(hs, a, j);
        lemma_custom_slot_is(hs, a, j);
        lemma_custom_slot_is(hs, b, j);
    }
}

/// A read gives back what a write wrote: after `h` is added, the value of any name
/// equal to its name without regard to ASCII case is the value of `h`.
pub proof fn law_get_after_add(t: HeaderTable, h: HttpHeader, key: Seq<char>)
    requires
        table_wf(t),
        eq_ignore_ascii_case(key, h.key_text()),
    ensures
        table_get(table_add(t, h), key) == Some(h.header_value()),
{
    let hk = h.key_text();
    lemma_same_known_slot(key, hk);
    let r = table_add(t, h);
    if known_slot(hk) is None {
        lemma_same_custom_slot(t.1, key, hk);
        match custom_slot(t.1, hk) {
            Some(j) => {
                assert(is_first_custom_match(t.1, hk, j));
                assert forall|k: int| 0 <= k < j implies !eq_ignore_ascii_case(#[trigger] r.1[k].key_text(), key) by {
                    lemma_eq_ignore_ascii_case_equivalence(r.1[k].key_text(), key, hk);
                }
                lemma_eq_ignore_ascii_case_equivalence(key, hk, key);
                assert(is_first_custom_match(r.1, key, j));
                lemma_custom_slot_is(r.1, key, j);
            },
            None => {
                let n = t.1.len() as int;
                assert forall|k: int| 0 <= k < n implies !eq_ignore_ascii_case(#[trigger] r.1[k].key_text(), key) by {
                    lemma_eq_ignore_ascii_case_equivalence(r.1[k].key_text(), key, hk);
                    if eq_ignore_ascii_case(r.1[k].key_text(), hk) {
                        lemma_first_custom_exists(t.1, hk, k);
                    }
                }
                lemma_eq_ignore_ascii_case_equivalence(key, hk, key);
                assert(is_first_custom_match(r.1, key, n));
                lemma_custom_slot_is(r.1, key, n);
            },
        }
    }
}

/// A write changes no other name: after `h` is added, the value of any name that differs
/// from its name (without regard to ASCII case) is what it was.
pub proof fn law_get_other_after_add(t: HeaderTable, h: HttpHeader, key: Seq<char>)
    requires
        table_wf(t),
        !eq_ignore_ascii_case(key, h.key_text()),
    ensures
        table_get(table_add(t, h), key) == table_get(t, key),
{
    let hk = h.key_text();
    let r = table_add(t, h);
    match (known_slot(key), known_slot(hk)) {
        (Some(i), Some(k)) => {
            assert(is_first_known_match(key, i));
            assert(is_first_known_match(hk, k));
            if i == k {
                lemma_eq_ignore_ascii_case_equivalence(known_header_name(i), key, hk);
                lemma_eq_ignore_ascii_case_equivalence(key, known_header_name(i), hk);
            }
        },
        (None, _) => {
            match known_slot(hk) {
                Some(_) => {},
                None => {
                    match custom_slot(t.1, hk) {
                        Some(j) => {
                            assert(is_first_custom_match(t.1, hk, j));
                            assert forall|k: int| 0 <= k < r.1.len() implies
                                eq_ignore_ascii_case(#[trigger] r.1[k].key_text(), key)
                                == eq_ignore_ascii_case(t.1[k].key_text(), key) by {
                                if k == j {
                                    lemma_eq_ignore_ascii_case_equivalence(key, hk, t.1[j].key_text());
                                    lemma_eq_ignore_ascii_case_equivalence(t.1[j].key_text(), hk, key);
                                    lemma_eq_ignore_ascii_case_equivalence(hk, t.1[j].key_text(), key);
                                    lemma_eq_ignore_ascii_case_equivalence(key, t.1[j].key_text(), hk);
                                }
                            }
                            lemma_custom_slot_agree(t.1, r.1, key);
                        },
                        None => {
                            assert forall|k: int| 0 <= k < t.1.len() implies
                                eq_ignore_ascii_case(#[trigger] r.1[k].key_text(), key)
                                == eq_ignore_ascii_case(t.1[k].key_text(), key) by {}
                            lemma_eq_ignore_ascii_case_equivalence(key, hk, key);
                            assert(!eq_ignore_ascii_case(r.1[t.1.len() as int].key_text(), key));
                            lemma_custom_slot_extend(t.1, r.1, key);
                        },
                    }
                },
            }
        },
        (Some(_), None) => {},
    }
}

proof fn lemma_custom_slot_agree(a: Seq<HttpHeader>, b: Seq<HttpHeader>, key: Seq<char>)
    requires
        a.len() == b.len(),
        forall|k: int| 0 <= k < b.len() ==>
            eq_ignore_ascii_case(#[trigger] b[k].key_text(), key) == eq_ignore_ascii_case(a[k].key_text(), key),
        forall|k: int| 0 <= k < b.len() && eq_ignore_ascii_case(#[trigger] b[k].key_text(), key)
            ==> b[k].header_value() == a[k].header_value(),
    ensures
        custom_slot(a, key) == custom_slot(b, key),
        custom_slot(a, key) matches Some(j) ==> b[j].header_value() == a[j].header_value(),
{
    assert forall|j: int| #[trigger] is_first_custom_match(a, key, j) <==> is_first_custom_match(b, key, j) by {
        if is_first_custom_match(a, key, j) {
            assert forall|k: int| 0 <= k < j implies !eq_ignore_ascii_case(#[trigger] b[k].key_text(), key) by {
                assert(!eq_ignore_ascii_case(a[k].key_text(), key));
            }
        }
        if is_first_custom_match(b, key, j) {
            assert forall|k: int| 0 <= k < j implies !eq_ignore_ascii_case(#[trigger] a[k].key_text(), key) by {
                assert(!eq_ignore_ascii_case(b[k].key_text(), key));
            }
        }
    }
    if exists|j: int| is_first_custom_match(a, key, j) {
        let j = choose|j: int| is_first_custom_match(a, key, j);
        lemma_custom_slot_is(a, key, j);
        lemma_custom_slot_is(b, key, j);
    } else if exists|j: int| is_first_custom_match(b, key, j) {
        let j = choose|j: int| is_first_custom_match(b, key, j);
        assert(is_first_custom_match(a, key, j));
    }
}

proof fn lemma_custom_slot_extend(a: Seq<HttpHeader>, b: Seq<HttpHeader>, key: Seq<char>)
    requires
        b.len() == a.len() + 1,
        forall|k: int| 0 <= k < a.len() ==> b[k] == a[k],
        !eq_ignore_ascii_case(b[a.len() as int].key_text(), key),
    ensures
        custom_slot(a, key) == custom_slot(b, key),
        custom_slot(a, key) matches Some(j) ==> b[j] == a[j],
{
    assert forall|j: int| #[trigger] is_first_custom_match(a, key, j) <==> is_first_custom_match(b, key, j) by {
        if is_first_custom_match(a, key, j) {
            assert forall|k: int| 0 <= k < j implies !eq_ignore_ascii_case(#[trigger] b[k].key_text(), key) by {
                assert(b[k] == a[k]);
            }
        }
        if is_first_custom_match(b, key, j) {
            assert forall|k: int| 0 <= k < j implies !eq_ignore_ascii_case(#[trigger] a[k].key_text(), key) by {
                assert(b[k] == a[k]);
            }
        }
    }
    if exists|j: int| is_first_custom_match(a, key, j) {
        let j = choose|j: int| is_first_custom_match(a, key, j);
        lemma_custom_slot_is(a, key, j);
        lemma_custom_slot_is(b, key, j);
    } else if exists|j: int| is_first_custom_match(b, key, j) {
        let j = choose|j: int| is_first_custom_match(b, key, j);
        assert(is_first_custom_match(a, key, j));
    }
}


// ---------------------------------------------------------------------------
// Going through the headers in the order in which they are written
// ---------------------------------------------------------------------------

/// Goes through the headers of a table: the named ones in the order of their slots,
/// then the others.
pub struct HttpResponseHeaderIterator<'a> {
    headers: &'a HttpResponseHeader,
    slot: usize,
    custom: usize,
}

/// The headers that the references of `s` point to.
pub open spec fn deref_all(s: Seq<&HttpHeader>) -> Seq<HttpHeader> {
    s.map_values(|h: &HttpHeader| *h)
}

impl<'a> HttpResponseHeaderIterator<'a> {
    /// The headers that are still to come.
    pub closed spec fn remaining(&self) -> Seq<HttpHeader> {
        present(self.headers@.0.subrange(self.slot as int, HEADER_DEFINED_SIZE as int))
            + self.headers@.1.skip(self.custom as int)
    }

    pub closed spec fn wf(&self) -> bool {
        &&& table_wf(self.headers@)
        &&& self.slot <= HEADER_DEFINED_SIZE
        &&& self.custom <= self.headers@.1.len()
        &&& self.slot < HEADER_DEFINED_SIZE ==> self.custom == 0
    }

    /// The next header, if any is left.
    pub fn next(&mut self) -> (r: Option<&'a HttpHeader>)
        requires
            old(self).wf(),
        ensures
            final(self).wf(),
            old(self).remaining().len() == 0 ==> r is None && final(self).remaining() == old(self).remaining(),
            old(self).remaining().len() > 0 ==> r is Some && *r->0 == old(self).remaining()[0]
                && final(self).remaining() == old(self).remaining().drop_first(),
    {
        let ghost rem = self.remaining();
        while self.slot < HEADER_DEFINED_SIZE
            invariant
                self.wf(),
                self.remaining() == rem,
                rem == old(self).remaining(),
                self.headers == old(self).headers,
            decreases HEADER_DEFINED_SIZE - self.slot,
        {
            let value = &self.headers.defined[self.slot];
            let ghost d = self.headers@.0;
            proof {
                let sub = d.subrange(self.slot as int, HEADER_DEFINED_SIZE as int);
                assert(sub.drop_first() =~= d.subrange(self.slot + 1, HEADER_DEFINED_SIZE as int));
                assert(sub[0] == d[self.slot as int]);
            }
            self.slot = self.slot + 1;
            if value.is_some() {
                let r = value.as_ref();
                proof {
                    assert(rem =~= seq![*r->0] + self.remaining());
                    assert(rem.drop_first() =~= self.remaining());
                }
                return r;
            }
        }
        proof {
            assert(self.headers@.0.subrange(self.slot as int, HEADER_DEFINED_SIZE as int).len() == 0);
        }
        if self.custom < self.headers.undefined.len() {
            let h = &self.headers.undefined[self.custom];
            self.custom = self.custom + 1;
            proof {
                assert(rem.drop_first() =~= self.remaining());
            }
            Some(h)
        } else {
            None
        }
    }

    /// The headers that are still to come, in order.
    pub fn collect(self) -> (v: Vec<&'a HttpHeader>)
        requires
            self.wf(),
        ensures
            deref_all(v@) == self.remaining(),
    {
        let ghost all = self.remaining();
        let mut it = self;
        let mut v: Vec<&'a HttpHeader> = Vec::new();
        loop
            invariant
                it.wf(),
                deref_all(v@) + it.remaining() == all,
                all == self.remaining(),
            decreases it.remaining().len(),
        {
            let ghost before = it.remaining();
            match it.next() {
                Some(h) => {
                    let ghost prev = deref_all(v@);
                    let ghost old_v = v@;
                    v.push(h);
                    proof {
                        assert(v@ == old_v.push(h));
                        assert(deref_all(v@) =~= prev.push(*h));
                        assert(prev.push(*h) + it.remaining() =~= prev + before);
                    }
                },
                None => {
                    proof {
                        assert(deref_all(v@) + it.remaining() =~= deref_all(v@));
                    }
                    return v;
                },
            }
        }
    }
}

impl HttpResponseHeader {
    /// Goes through the headers in the order in which they are written.
    pub fn into_iter(&self) -> (it: HttpResponseHeaderIterator<'_>)
        requires
            table_wf(self@),
        ensures
            it.wf(),
            it.remaining() == table_headers(self@),
    {
        let it = HttpResponseHeaderIterator { headers: self, slot: 0, custom: 0 };
        proof {
            assert(self@.0.subrange(0, HEADER_DEFINED_SIZE as int) =~= self@.0.take(HEADER_DEFINED_SIZE as int));
            assert(self@.1.skip(0) =~= self@.1);
        }
        it
    }
}


proof fn lemma_present_slots(s: Seq<Option<HttpHeader>>, base: int)
    requires
        forall|i: int| 0 <= i < s.len() && (#[trigger] s[i]) is Some
            ==> known_slot(s[i]->0.key_text()) == Some(base + i),
    ensures
        forall|a: int| 0 <= a < present(s).len() ==> {
            &&& (#[trigger] known_slot(present(s)[a].key_text())) is Some
            &&& base <= known_slot(present(s)[a].key_text())->0 < base + s.len()
        },
        forall|a: int, b: int| 0 <= a < b < present(s).len()
            ==> (#[trigger] known_slot(present(s)[a].key_text()))->0
                < (#[trigger] known_slot(present(s)[b].key_text()))->0,
    decreases s.len(),
{
    if s.len() > 0 {
        let rest = s.drop_first();
        assert forall|i: int| 0 <= i < rest.len() && (#[trigger] rest[i]) is Some
            implies known_slot(rest[i]->0.key_text()) == Some(base + 1 + i) by {
            assert(rest[i] == s[i + 1]);
        }
        lemma_present_slots(rest, base + 1);
        let p = present(s);
        let q = present(rest);
        match s[0] {
            Some(h) => {
                assert(p == seq![h] + q);
                assert forall|a: int| 0 <= a < p.len() implies {
                    &&& (#[trigger] known_slot(p[a].key_text())) is Some
                    &&& base <= known_slot(p[a].key_text())->0 < base + s.len()
                } by {
                    if a > 0 {
                        assert(p[a] == q[a - 1]);
                    }
                }
                assert forall|a: int, b: int| 0 <= a < b < p.len()
                    implies (#[trigger] known_slot(p[a].key_text()))->0
                        < (#[trigger] known_slot(p[b].key_text()))->0 by {
                    assert(p[b] == q[b - 1]);
                    if a > 0 {
                        assert(p[a] == q[a - 1]);
                    }
                }
            },
            None => {
                assert(p == q);
            },
        }
    }
}

proof fn lemma_present_append(a: Seq<Option<HttpHeader>>, b: Seq<Option<HttpHeader>>)
    ensures
        present(a + b) == present(a) + present(b),
    decreases a.len(),
{
    if a.len() == 0 {
        assert(a + b =~= b);
        assert(present(a) + present(b) =~= present(b));
    } else {
        lemma_present_append(a.drop_first(), b);
        assert((a + b).drop_first() =~= a.drop_first() + b);
        assert((a + b)[0] == a[0]);
        match a[0] {
            Some(h) => {
                assert(seq![h] + (present(a.drop_first()) + present(b))
                    =~= (seq![h] + present(a.drop_first())) + present(b));
            },
            None => {},
        }
    }
}

proof fn lemma_present_one(x: Option<HttpHeader>)
    ensures
        present(seq![x]) == match x {
            Some(h) => seq![h],
            None => Seq::<HttpHeader>::empty(),
        },
{
    assert(seq![x].drop_first() =~= Seq::<Option<HttpHeader>>::empty());
    assert(present(Seq::<Option<HttpHeader>>::empty()) == Seq::<HttpHeader>::empty());
    match x {
        Some(h) => {
            assert(seq![h] + Seq::<HttpHeader>::empty() =~= seq![h]);
        },
        None => {},
    }
}

/// Filling slot `i` with `h` replaces the header that it held in place, or puts `h`
/// among the others in the order of the slots.
proof fn lemma_present_update(s: Seq<Option<HttpHeader>>, i: int, h: HttpHeader)
    requires
        0 <= i < s.len(),
    ensures
        ({
            let p = present(s.take(i)).len() as int;
            &&& s[i] matches Some(g) ==> {
                &&& 0 <= p < present(s).len()
                &&& present(s)[p] == g
                &&& present(s.update(i, Some(h))) == present(s).update(p, h)
            }
            &&& s[i] is None ==> {
                &&& 0 <= p <= present(s).len()
                &&& present(s.update(i, Some(h))) == present(s).insert(p, h)
            }
        }),
{
    let a = s.take(i);
    let c = s.skip(i + 1);
    assert(s =~= a + seq![s[i]] + c);
    assert(s.update(i, Some(h)) =~= a + seq![Some(h)] + c);
    lemma_present_append(a + seq![s[i]], c);
    lemma_present_append(a, seq![s[i]]);
    lemma_present_append(a + seq![Some(h)], c);
    lemma_present_append(a, seq![Some(h)]);
    lemma_present_one(s[i]);
    lemma_present_one(Some(h));
    let pa = present(a);
    let pc = present(c);
    match s[i] {
        Some(g) => {
            assert(present(s) == pa + seq![g] + pc);
            assert(present(s.update(i, Some(h))) =~= present(s).update(pa.len() as int, h));
        },
        None => {
            assert(present(s) =~= pa + pc);
            assert(present(s.update(i, Some(h))) =~= present(s).insert(pa.len() as int, h));
        },
    }
}

/// Adding a header with a name adds one to the headers written only when no header of
/// that name (without regard to ASCII case) was there. A header of that name that was
/// there is replaced in its place; a new header takes the place of its slot among the
/// others, or comes last when its name has no slot.
pub proof fn law_headers_after_add(t: HeaderTable, h: HttpHeader)
    requires
        table_wf(t),
        h.key_text().len() > 0,
    ensures
        table_headers(table_add(t, h)).len() == table_headers(t).len() + if table_get(
            t,
            h.key_text(),
        ) is None {
            1int
        } else {
            0int
        },
        table_get(t, h.key_text()) is Some ==> exists|j: int|
            0 <= j < table_headers(t).len() && eq_ignore_ascii_case(
                (#[trigger] table_headers(t)[j]).key_text(),
                h.key_text(),
            ) && table_headers(table_add(t, h)) == table_headers(t).update(j, h),
        table_get(t, h.key_text()) is None ==> exists|j: int|
            0 <= j <= table_headers(t).len() && table_headers(table_add(t, h))
                == #[trigger] table_headers(t).insert(j, h),
        table_get(t, h.key_text()) is None && known_slot(h.key_text()) is None
            ==> table_headers(table_add(t, h)) == table_headers(t).push(h),
{
    let key = h.key_text();
    let d = t.0.take(HEADER_DEFINED_SIZE as int);
    let before = table_headers(t);
    let r = table_add(t, h);
    let after = table_headers(r);
    match known_slot(key) {
        Some(i) => {
            assert(is_first_known_match(key, i));
            if i >= HEADER_DEFINED_SIZE {
                reveal_strlit("");
                assert(known_header_name(i).len() == 0);
            }
            assert(r.0.take(HEADER_DEFINED_SIZE as int) =~= d.update(i, Some(h)));
            lemma_present_update(d, i, h);
            let p = present(d.take(i)).len() as int;
            assert(d[i] == t.0[i]);
            match t.0[i] {
                Some(g) => {
                    assert(known_slot(g.key_text()) == Some(i));
                    assert(is_first_known_match(g.key_text(), i));
                    lemma_eq_ignore_ascii_case_equivalence(known_header_name(i), g.key_text(), key);
                    lemma_eq_ignore_ascii_case_equivalence(g.key_text(), known_header_name(i), key);
                    assert(before[p] == g);
                    assert(after =~= before.update(p, h));
                },
                None => {
                    assert(after =~= before.insert(p, h));
                },
            }
        },
        None => {
            let pl = present(d).len() as int;
            assert(r.0 == t.0);
            match custom_slot(t.1, key) {
                Some(j) => {
                    assert(is_first_custom_match(t.1, key, j));
                    assert(before[pl + j] == t.1[j]);
                    assert(after =~= before.update(pl + j, h));
                },
                None => {
                    assert(after =~= before.push(h));
                    assert(after =~= before.insert(before.len() as int, h));
                },
            }
        },
    }
}

/// No name is written twice: the headers of a table, in the order in which they are
/// written, have names that differ pairwise without regard to ASCII case.
pub proof fn law_headers_distinct(t: HeaderTable)
    requires
        table_wf(t),
    ensures
        forall|a: int, b: int| 0 <= a < b < table_headers(t).len()
            ==> !eq_ignore_ascii_case(
                (#[trigger] table_headers(t)[a]).key_text(),
                (#[trigger] table_headers(t)[b]).key_text(),
            ),
{
    let d = t.0.take(HEADER_DEFINED_SIZE as int);
    assert forall|i: int| 0 <= i < d.len() && (#[trigger] d[i]) is Some
        implies known_slot(d[i]->0.key_text()) == Some(0 + i) by {
        assert(d[i] == t.0[i]);
    }
    lemma_present_slots(d, 0);
    let p = present(d);
    let hs = table_headers(t);
    assert forall|a: int, b: int| 0 <= a < b < hs.len()
        implies !eq_ignore_ascii_case((#[trigger] hs[a]).key_text(), (#[trigger] hs[b]).key_text()) by {
        if eq_ignore_ascii_case(hs[a].key_text(), hs[b].key_text()) {
            lemma_same_known_slot(hs[a].key_text(), hs[b].key_text());
            if b < p.len() {
                assert(hs[a] == p[a] && hs[b] == p[b]);
                assert(known_slot(p[a].key_text())->0 < known_slot(p[b].key_text())->0);
            } else if a < p.len() {
                assert(hs[a] == p[a]);
                assert(hs[b] == t.1[b - p.len()]);
                assert(known_slot(p[a].key_text()) is Some);
            } else {
                assert(hs[a] == t.1[a - p.len()]);
                assert(hs[b] == t.1[b - p.len()]);
            }
        }
    }
}

} // verus!
