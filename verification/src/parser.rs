//! The request parser: a typed cursor over one immutable input buffer.
//!
//! Parsing advances through the grammar of RFC 2616 section 5 — request
//! line, header block, blank line, body — one state type per grammar
//! position. Every transition consumes its parser and yields the parser
//! for the next position, so no position can be skipped or parsed twice.

use vstd::prelude::*;
use vstd::slice::{slice_subrange, slice_to_vec};
use crate::bytes::{
    bytes_eq, is_crlf, is_separator, is_valid_method, is_valid_version, is_valid_method_seq,
    is_valid_version_seq,
};
use crate::headers::{entries_map, insert_all, keys_unique, lemma_entries_map_absent,
    lemma_entries_map_covered, lemma_entries_map_dom_len, lemma_entries_map_last_occurrence,
    lemma_entries_map_push, lemma_entries_map_update};
use crate::scan::{
    find_byte_from, find_crlf_from, find_key_end_from, is_crlf_at, lemma_find_byte_from,
    lemma_find_crlf_from, lemma_find_key_end_from, lemma_skip_separator_from,
    skip_separator_from, skip_spaces_from, CR, LF, SPACE,
};
use crate::sealed::SealedRequestParserState;
use crate::span::{is_verbatim_slice, lemma_span_bytes_verbatim, span_bytes, span_in_bounds, Span};

verus! {

broadcast use crate::span::lemma_slice_len_bound;

/// A parsed HTTP request: the three request-line fields, the header
/// mapping and the body, all as spans into the input buffer.
///
/// The request borrows the buffer it was parsed from and stays valid only
/// as long as that buffer does; no input text is copied.
#[derive(Debug)]
pub struct Request<'a> {
    /// The buffer every span of this request resolves against.
    pub input: &'a [u8],
    /// The request method, one of the eight tokens of RFC 2616 section 5.1.1.
    pub method: Span,
    /// The request target, taken verbatim: no decoding, no normalization.
    pub request_uri: Span,
    /// The protocol version token.
    pub http_version: Span,
    /// The header pairs, with pairwise distinct key bytes.
    pub headers: Vec<(Span, Span)>,
    /// Whatever follows the blank line, unparsed; possibly empty.
    pub body: Span,
}

impl<'a> Request<'a> {
    /// All spans lie inside the buffer and header keys are unique.
    pub open spec fn wf(self) -> bool {
        let n = self.input@.len() as int;
        &&& span_in_bounds(self.method, n)
        &&& span_in_bounds(self.request_uri, n)
        &&& span_in_bounds(self.http_version, n)
        &&& span_in_bounds(self.body, n)
        &&& forall|i: int|
            0 <= i < self.headers@.len() ==> span_in_bounds(
                (#[trigger] self.headers@[i]).0,
                n,
            ) && span_in_bounds(self.headers@[i].1, n)
        &&& keys_unique(self.input@, self.headers@)
    }

    /// The bytes of the method field.
    pub open spec fn method_bytes(self) -> Seq<u8> {
        span_bytes(self.input@, self.method)
    }

    /// The bytes of the request-target field.
    pub open spec fn uri_bytes(self) -> Seq<u8> {
        span_bytes(self.input@, self.request_uri)
    }

    /// The bytes of the version field.
    pub open spec fn version_bytes(self) -> Seq<u8> {
        span_bytes(self.input@, self.http_version)
    }

    /// The bytes of the body.
    pub open spec fn body_bytes(self) -> Seq<u8> {
        span_bytes(self.input@, self.body)
    }

    /// The header mapping, from key bytes to value bytes.
    pub open spec fn headers_map(self) -> Map<Seq<u8>, Seq<u8>> {
        entries_map(self.input@, self.headers@)
    }

    /// An empty request over `input`: every span empty, no headers.
    pub fn new(input: &'a [u8]) -> (r: Request<'a>)
        ensures
            r.wf(),
            r.input@ == input@,
            r.method == (Span { start: 0, len: 0 }),
            r.request_uri == (Span { start: 0, len: 0 }),
            r.http_version == (Span { start: 0, len: 0 }),
            r.body == (Span { start: 0, len: 0 }),
            r.headers@ =~= Seq::<(Span, Span)>::empty(),
            r.headers_map() == Map::<Seq<u8>, Seq<u8>>::empty(),
    {
        Request {
            input,
            method: Span { start: 0, len: 0 },
            request_uri: Span { start: 0, len: 0 },
            http_version: Span { start: 0, len: 0 },
            headers: Vec::new(),
            body: Span { start: 0, len: 0 },
        }
    }

    /// The method field as a slice of the input buffer.
    pub fn method(&self) -> (r: &'a [u8])
        requires
            self.wf(),
        ensures
            r@ == self.method_bytes(),
    {
        slice_subrange(self.input, self.method.start, self.method.start + self.method.len)
    }

    /// The request-target field as a slice of the input buffer.
    pub fn request_uri(&self) -> (r: &'a [u8])
        requires
            self.wf(),
        ensures
            r@ == self.uri_bytes(),
    {
        slice_subrange(
            self.input,
            self.request_uri.start,
            self.request_uri.start + self.request_uri.len,
        )
    }

    /// The version field as a slice of the input buffer.
    pub fn http_version(&self) -> (r: &'a [u8])
        requires
            self.wf(),
        ensures
            r@ == self.version_bytes(),
    {
        slice_subrange(
            self.input,
            self.http_version.start,
            self.http_version.start + self.http_version.len,
        )
    }

    /// The body as a slice of the input buffer.
    pub fn body(&self) -> (r: &'a [u8])
        requires
            self.wf(),
        ensures
            r@ == self.body_bytes(),
    {
        slice_subrange(self.input, self.body.start, self.body.start + self.body.len)
    }

    /// The number of distinct header keys.
    pub fn header_count(&self) -> (r: usize)
        requires
            self.wf(),
        ensures
            r == self.headers_map().dom().len(),
    {
        proof {
            lemma_entries_map_dom_len(self.input@, self.headers@);
        }
        self.headers.len()
    }

    /// Looks a header up by its exact key bytes.
    pub fn header_value(&self, key: &[u8]) -> (r: Option<&'a [u8]>)
        requires
            self.wf(),
        ensures
            match r {
                Some(v) => self.headers_map().contains_key(key@) && v@
                    == self.headers_map()[key@],
                None => !self.headers_map().contains_key(key@),
            },
    {
        let n = self.headers.len();
        let mut i: usize = 0;
        while i < n
            invariant
                self.wf(),
                n == self.headers@.len(),
                0 <= i <= n,
                forall|j: int|
                    0 <= j < i ==> span_bytes(self.input@, (#[trigger] self.headers@[j]).0)
                        != key@,
            decreases n - i,
        {
            let e = self.headers[i];
            let ek = slice_subrange(self.input, e.0.start, e.0.start + e.0.len);
            if bytes_eq(ek, key) {
                let v = slice_subrange(self.input, e.1.start, e.1.start + e.1.len);
                proof {
                    lemma_entries_map_last_occurrence(self.input@, self.headers@, i as int);
                }
                return Some(v);
            }
            i = i + 1;
        }
        proof {
            lemma_entries_map_absent(self.input@, self.headers@, key@);
        }
        None
    }

    /// Binds `key` to `value` in the header mapping, overwriting the value
    /// of an existing pair with the same key bytes.
    fn insert_header(&mut self, key: Span, value: Span)
        requires
            old(self).wf(),
            span_in_bounds(key, old(self).input@.len() as int),
            span_in_bounds(value, old(self).input@.len() as int),
        ensures
            final(self).wf(),
            final(self).input@ == old(self).input@,
            final(self).method == old(self).method,
            final(self).request_uri == old(self).request_uri,
            final(self).http_version == old(self).http_version,
            final(self).body == old(self).body,
            final(self).headers_map() == old(self).headers_map().insert(
                span_bytes(old(self).input@, key),
                span_bytes(old(self).input@, value),
            ),
    {
        let kb = slice_subrange(self.input, key.start, key.start + key.len);
        let n = self.headers.len();
        let mut i: usize = 0;
        while i < n
            invariant
                self.wf(),
                self.input@ == old(self).input@,
                self.method == old(self).method,
                self.request_uri == old(self).request_uri,
                self.http_version == old(self).http_version,
                self.body == old(self).body,
                self.headers@ == old(self).headers@,
                span_in_bounds(key, self.input@.len() as int),
                span_in_bounds(value, self.input@.len() as int),
                n == self.headers@.len(),
                0 <= i <= n,
                kb@ == span_bytes(self.input@, key),
                forall|j: int|
                    0 <= j < i ==> span_bytes(self.input@, (#[trigger] self.headers@[j]).0)
                        != kb@,
            decreases n - i,
        {
            let e = self.headers[i];
            let ek = slice_subrange(self.input, e.0.start, e.0.start + e.0.len);
            if bytes_eq(ek, kb) {
                proof {
                    lemma_entries_map_update(self.input@, self.headers@, i as int, value);
                }
                let ghost before = self.headers@;
                self.headers.set(i, (e.0, value));
                proof {
                    assert(self.headers@ =~= before.update(i as int, (before[i as int].0, value)));
                    assert(keys_unique(self.input@, self.headers@)) by {
                        assert(forall|p: int|
                            0 <= p < self.headers@.len() ==> span_bytes(
                                self.input@,
                                (#[trigger] self.headers@[p]).0,
                            ) == span_bytes(self.input@, before[p].0));
                    }
                }
                return ;
            }
            i = i + 1;
        }
        proof {
            lemma_entries_map_push(self.input@, self.headers@, key, value);
        }
        self.headers.push((key, value));
    }
}

/// A state of the request parser. The trait is sealed: exactly the states
/// this crate declares exist, and no caller can add a sixth.
pub trait RequestParserState: SealedRequestParserState {

}

/// The request-line position, refined by which of its three fields comes
/// next. RFC 2616 section 5.1 defines the line as
/// `Method SP Request-URI SP HTTP-Version CRLF`.
#[derive(Debug)]
pub struct RequestLine<S> {
    /// Which request-line field the parser is positioned at.
    pub state: S,
}

/// The parser is at the method token.
#[derive(Debug)]
pub struct Method;

/// The parser is at the request-target.
#[derive(Debug)]
pub struct Uri;

/// The parser is at the version token.
#[derive(Debug)]
pub struct Version;

/// The parser is at the header block; reached after the request line.
#[derive(Debug)]
pub struct Header;

/// The parser is at the message body; reached after the header block.
#[derive(Debug)]
pub struct Body;

impl<S> SealedRequestParserState for RequestLine<S> {

}

impl SealedRequestParserState for Header {

}

impl SealedRequestParserState for Body {

}

impl<S> RequestParserState for RequestLine<S> {

}

impl RequestParserState for Header {

}

impl RequestParserState for Body {

}

/// The parser: the request built so far, a cursor into its input buffer,
/// and the grammar position as a type.
#[derive(Debug)]
pub struct HttpRequestParser<'a, S> where S: RequestParserState {
    /// The fields parsed so far; also carries the input buffer.
    pub request: Request<'a>,
    /// How many bytes of the input are consumed. Parsing only ever
    /// increases this: the cursor never rewinds.
    pub pos: usize,
    /// The grammar position tag.
    pub state: S,
}

impl<'a, S> HttpRequestParser<'a, S> where S: RequestParserState {
    /// The input buffer as a byte sequence.
    pub open spec fn input_seq(self) -> Seq<u8> {
        self.request.input@
    }

    /// The request is well formed and the cursor is inside the buffer.
    pub open spec fn wf(self) -> bool {
        &&& self.request.wf()
        &&& self.pos <= self.request.input@.len()
    }

    /// The built request and the state tag agree with `o`'s.
    pub open spec fn same_request(self, o: Self) -> bool {
        &&& self.request.input@ == o.request.input@
        &&& self.request.method == o.request.method
        &&& self.request.request_uri == o.request.request_uri
        &&& self.request.http_version == o.request.http_version
        &&& self.request.headers@ == o.request.headers@
        &&& self.request.body == o.request.body
        &&& self.state == o.state
    }

    /// Advances the cursor past zero or more ASCII spaces. Other
    /// whitespace is not skipped here.
    pub fn skip_spaces(&mut self)
        requires
            old(self).wf(),
        ensures
            final(self).wf(),
            final(self).same_request(*old(self)),
            final(self).pos as int == skip_spaces_from(old(self).input_seq(), old(self).pos as int),
    {
        let input = self.request.input;
        let ghost s = input@;
        let ghost p0 = self.pos as int;
        let mut curr = self.pos;
        while curr < input.len() && input[curr] == SPACE
            invariant
                0 <= p0 <= curr <= s.len(),
                input@ == s,
                skip_spaces_from(s, p0) == skip_spaces_from(s, curr as int),
            decreases s.len() - curr,
        {
            curr = curr + 1;
        }
        self.pos = curr;
    }

    /// If the next two bytes are exactly CR LF, advances past them;
    /// otherwise leaves the cursor unchanged.
    pub fn skip_crlf(&mut self)
        requires
            old(self).wf(),
        ensures
            final(self).wf(),
            final(self).same_request(*old(self)),
            final(self).pos as int == if is_crlf_at(old(self).input_seq(), old(self).pos as int) {
                old(self).pos + 2
            } else {
                old(self).pos as int
            },
    {
        let input = self.request.input;
        if input.len() - self.pos >= 2 {
            if is_crlf(input[self.pos], input[self.pos + 1]) {
                self.pos = self.pos + 2;
            }
        }
    }

    /// Scans to the first occurrence of `chr` — or to the end of the
    /// input when there is none — and returns the span it passed over.
    /// The cursor stops at the found byte and does not consume it.
    pub fn parse_until_char(&mut self, chr: u8) -> (r: Span)
        requires
            old(self).wf(),
        ensures
            final(self).wf(),
            final(self).same_request(*old(self)),
            ({
                let s = old(self).input_seq();
                let p0 = old(self).pos as int;
                let f = find_byte_from(s, p0, chr);
                &&& p0 <= f <= s.len()
                &&& final(self).pos as int == f
                &&& r == (Span { start: old(self).pos, len: (f - p0) as usize })
                &&& span_bytes(s, r) == s.subrange(p0, f)
                &&& f < s.len() ==> s[f] == chr
            }),
    {
        let input = self.request.input;
        let ghost s = input@;
        let ghost p0 = self.pos as int;
        let start = self.pos;
        let mut curr = self.pos;
        while curr < input.len() && input[curr] != chr
            invariant
                0 <= p0 <= curr <= s.len(),
                input@ == s,
                find_byte_from(s, p0, chr) == find_byte_from(s, curr as int, chr),
            decreases s.len() - curr,
        {
            curr = curr + 1;
        }
        proof {
            lemma_find_byte_from(s, p0, chr);
        }
        self.pos = curr;
        Span { start, len: curr - start }
    }

    /// Scans to the first CR LF pair and returns the span it passed over;
    /// the cursor stops at the CR and does not consume the terminator.
    /// When no CR LF remains the cursor stops where no room for one is
    /// left, with fewer than two bytes remaining.
    fn parse_until_crlf(&mut self) -> (r: Span)
        requires
            old(self).wf(),
        ensures
            final(self).wf(),
            final(self).same_request(*old(self)),
            ({
                let s = old(self).input_seq();
                let p0 = old(self).pos as int;
                let f = find_crlf_from(s, p0);
                &&& p0 <= f <= s.len()
                &&& p0 <= final(self).pos
                &&& r == (Span { start: old(self).pos, len: (final(self).pos - p0) as usize })
                &&& span_bytes(s, r) == s.subrange(p0, final(self).pos as int)
                &&& f < s.len() ==> final(self).pos as int == f && is_crlf_at(s, f)
                &&& f == s.len() ==> s.len() - final(self).pos < 2
            }),
    {
        let input = self.request.input;
        let ghost s = input@;
        let ghost p0 = self.pos as int;
        let start = self.pos;
        let mut curr = self.pos;
        while input.len() - curr >= 2 && !(input[curr] == CR && input[curr + 1] == LF)
            invariant
                0 <= p0 <= curr <= s.len(),
                input@ == s,
                find_crlf_from(s, p0) == find_crlf_from(s, curr as int),
            decreases s.len() - curr,
        {
            curr = curr + 1;
        }
        proof {
            if s.len() - curr < 2 {
                assert(find_crlf_from(s, curr as int) == s.len());
            }
            lemma_find_crlf_from(s, p0);
        }
        self.pos = curr;
        Span { start, len: curr - start }
    }
}

impl<'a, S> HttpRequestParser<'a, RequestLine<S>> {
    /// Begins a parse of `packet`: a parser positioned at the method
    /// token of the request line, with an empty request. Never fails.
    pub fn start(packet: &'a [u8]) -> (r: HttpRequestParser<'a, RequestLine<Method>>)
        ensures
            r.wf(),
            r.input_seq() == packet@,
            r.pos == 0,
            r.request.method == (Span { start: 0, len: 0 }),
            r.request.request_uri == (Span { start: 0, len: 0 }),
            r.request.http_version == (Span { start: 0, len: 0 }),
            r.request.body == (Span { start: 0, len: 0 }),
            r.request.headers@ =~= Seq::<(Span, Span)>::empty(),
            r.request.headers_map() == Map::<Seq<u8>, Seq<u8>>::empty(),
    {
        HttpRequestParser {
            request: Request::new(packet),
            pos: 0,
            state: RequestLine { state: Method },
        }
    }
}

/// The means of state transition: one `parse` per grammar position, which
/// consumes the parser and yields the next state (or an error). The
/// consumed state cannot be reused, so no position is parsed twice.
pub trait Parse: Sized {
    /// The outcome of the transition: the next parser state, possibly
    /// behind a `Result`, or the finished request.
    type NextState;

    /// What the transition assumes of the parser it consumes.
    spec fn parse_requires(self) -> bool;

    /// What the transition guarantees of its outcome.
    spec fn parse_ensures(self, r: Self::NextState) -> bool;

    /// Parses the input until the current grammar position is complete.
    fn parse(self) -> (r: Self::NextState)
        requires
            self.parse_requires(),
        ensures
            self.parse_ensures(r),
    ;
}

/// Errors of the parser. All are fatal to the parse attempt: no recovery,
/// no usable partial request.
#[derive(Debug)]
pub enum ParsingError {
    /// The request-line token before the first space is not one of the
    /// eight recognized methods; carries that token.
    InvalidMethod(Vec<u8>),
    /// The token before the request line's CR LF is not a recognized
    /// version; carries that token.
    InvalidVersion(Vec<u8>),
    /// A scan ran off the end of the input while a delimiter — space,
    /// colon or CR LF — was still required.
    TruncatedInput,
}

impl<'a> Parse for HttpRequestParser<'a, RequestLine<Method>> {
    type NextState = Result<HttpRequestParser<'a, RequestLine<Uri>>, ParsingError>;

    open spec fn parse_requires(self) -> bool {
        self.wf()
    }

    /// The transition succeeds exactly when a space follows the method
    /// token and the token is a recognized method; the stored span then
    /// equals the token, and the cursor rests on the request-target.
    open spec fn parse_ensures(self, r: Self::NextState) -> bool {
        let s = self.input_seq();
        let p0 = self.pos as int;
        let sp = find_byte_from(s, p0, SPACE);
        match r {
            Ok(p) => {
                &&& sp < s.len()
                &&& is_valid_method_seq(s.subrange(p0, sp))
                &&& p.wf()
                &&& p.input_seq() == s
                &&& p.request.method == (Span { start: self.pos, len: (sp - p0) as usize })
                &&& p.request.method_bytes() == s.subrange(p0, sp)
                &&& p.pos as int == skip_spaces_from(s, sp + 1)
                &&& p.request.request_uri == self.request.request_uri
                &&& p.request.http_version == self.request.http_version
                &&& p.request.headers@ == self.request.headers@
                &&& p.request.body == self.request.body
            },
            Err(ParsingError::TruncatedInput) => sp == s.len(),
            Err(ParsingError::InvalidMethod(tok)) => {
                &&& sp < s.len()
                &&& !is_valid_method_seq(s.subrange(p0, sp))
                &&& tok@ == s.subrange(p0, sp)
            },
            Err(_) => false,
        }
    }

    fn parse(self) -> (r: Self::NextState) {
        let mut p = self;
        let tok = p.parse_until_char(SPACE);
        let input = p.request.input;
        if p.pos == input.len() {
            return Err(ParsingError::TruncatedInput);
        }
        let mbytes = slice_subrange(input, tok.start, tok.start + tok.len);
        if !is_valid_method(mbytes) {
            return Err(ParsingError::InvalidMethod(slice_to_vec(mbytes)));
        }
        p.request.method = tok;
        p.pos = p.pos + 1;
        p.skip_spaces();
        Ok(
            HttpRequestParser {
                request: p.request,
                pos: p.pos,
                state: RequestLine { state: Uri },
            },
        )
    }
}

impl<'a> Parse for HttpRequestParser<'a, RequestLine<Uri>> {
    type NextState = Result<HttpRequestParser<'a, RequestLine<Version>>, ParsingError>;

    open spec fn parse_requires(self) -> bool {
        self.wf()
    }

    /// The transition never fails: the request-target is everything up to
    /// the next space (or the end of input), stored verbatim, and the
    /// cursor then rests on the version token.
    open spec fn parse_ensures(self, r: Self::NextState) -> bool {
        let s = self.input_seq();
        let p0 = self.pos as int;
        let t = find_byte_from(s, p0, SPACE);
        match r {
            Ok(p) => {
                &&& p.wf()
                &&& p.input_seq() == s
                &&& p.request.request_uri == (Span { start: self.pos, len: (t - p0) as usize })
                &&& p.request.uri_bytes() == s.subrange(p0, t)
                &&& p.pos as int == skip_spaces_from(s, t)
                &&& p.request.method == self.request.method
                &&& p.request.http_version == self.request.http_version
                &&& p.request.headers@ == self.request.headers@
                &&& p.request.body == self.request.body
            },
            Err(_) => false,
        }
    }

    fn parse(self) -> (r: Self::NextState) {
        let mut p = self;
        let tok = p.parse_until_char(SPACE);
        p.request.request_uri = tok;
        p.skip_spaces();
        Ok(
            HttpRequestParser {
                request: p.request,
                pos: p.pos,
                state: RequestLine { state: Version },
            },
        )
    }
}

impl<'a> Parse for HttpRequestParser<'a, RequestLine<Version>> {
    type NextState = Result<HttpRequestParser<'a, Header>, ParsingError>;

    open spec fn parse_requires(self) -> bool {
        self.wf()
    }

    /// The transition succeeds exactly when a CR LF terminates the
    /// request line and the token before it is a recognized version; the
    /// stored span then equals the token, and the cursor rests just past
    /// the CR LF, on the header block.
    open spec fn parse_ensures(self, r: Self::NextState) -> bool {
        let s = self.input_seq();
        let p0 = self.pos as int;
        let f = find_crlf_from(s, p0);
        match r {
            Ok(p) => {
                &&& f < s.len()
                &&& is_valid_version_seq(s.subrange(p0, f))
                &&& p.wf()
                &&& p.input_seq() == s
                &&& p.request.http_version == (Span { start: self.pos, len: (f - p0) as usize })
                &&& p.request.version_bytes() == s.subrange(p0, f)
                &&& p.pos as int == f + 2
                &&& p.request.method == self.request.method
                &&& p.request.request_uri == self.request.request_uri
                &&& p.request.headers@ == self.request.headers@
                &&& p.request.body == self.request.body
            },
            Err(ParsingError::TruncatedInput) => f == s.len(),
            Err(ParsingError::InvalidVersion(tok)) => {
                &&& f < s.len()
                &&& !is_valid_version_seq(s.subrange(p0, f))
                &&& tok@ == s.subrange(p0, f)
            },
            Err(_) => false,
        }
    }

    fn parse(self) -> (r: Self::NextState) {
        let mut p = self;
        let tok = p.parse_until_crlf();
        let input = p.request.input;
        if input.len() - p.pos < 2 {
            return Err(ParsingError::TruncatedInput);
        }
        let vbytes = slice_subrange(input, tok.start, tok.start + tok.len);
        if !is_valid_version(vbytes) {
            return Err(ParsingError::InvalidVersion(slice_to_vec(vbytes)));
        }
        p.request.http_version = tok;
        p.pos = p.pos + 2;
        Ok(HttpRequestParser { request: p.request, pos: p.pos, state: Header })
    }
}

/// The outcome of a header block beginning at `pos` of `s`: the resolved
/// `(key, value)` byte pairs of its lines, in order, and the cursor
/// position just past the block's terminating CR LF — or `None` when a
/// scan for a required delimiter would run off the end of the input.
///
/// A line's key runs to the first whitespace or colon; the separator is
/// zero or more whitespace or colon bytes, so `Key:Value`, `Key: Value`
/// and `Key :  Value` — and a key followed by bare whitespace — are all
/// taken alike; the value runs to the line's CR LF. The block ends at a
/// line starting with CR LF, or when fewer than two bytes remain.
pub open spec fn headers_stage(s: Seq<u8>, pos: int) -> Option<(Seq<(Seq<u8>, Seq<u8>)>, int)>
    decreases s.len() - pos
        when 0 <= pos <= s.len()
        via headers_stage_decreases
{
    if pos + 2 > s.len() || is_crlf_at(s, pos) {
        Some(
            (
                Seq::empty(),
                if is_crlf_at(s, pos) {
                    pos + 2
                } else {
                    pos
                },
            ),
        )
    } else {
        let ke = find_key_end_from(s, pos);
        let vs = skip_separator_from(s, ke);
        let ve = find_crlf_from(s, vs);
        if ke == s.len() || ve == s.len() {
            None
        } else {
            match headers_stage(s, ve + 2) {
                Some((pairs, end)) => Some(
                    (seq![(s.subrange(pos, ke), s.subrange(vs, ve))] + pairs, end),
                ),
                None => None,
            }
        }
    }
}

#[via_fn]
proof fn headers_stage_decreases(s: Seq<u8>, pos: int) {
    if !(pos + 2 > s.len() || is_crlf_at(s, pos)) {
        lemma_find_key_end_from(s, pos);
        let ke = find_key_end_from(s, pos);
        if ke < s.len() {
            lemma_skip_separator_from(s, ke);
            lemma_find_crlf_from(s, skip_separator_from(s, ke));
        }
    }
}

impl<'a> HttpRequestParser<'a, Header> {
    /// Parses one header line: the key up to the first whitespace or
    /// colon, then a separator of zero or more whitespace or colon bytes,
    /// then the value up to the line's CR LF; the pair is inserted into
    /// the header mapping, overwriting an existing equal key. Fails with
    /// `TruncatedInput` exactly when the key scan or the value scan runs
    /// off the end of the input.
    fn parse_line(&mut self) -> (r: Result<(), ParsingError>)
        requires
            old(self).wf(),
        ensures
            ({
                let s = old(self).input_seq();
                let pos = old(self).pos as int;
                let ke = find_key_end_from(s, pos);
                let vs = skip_separator_from(s, ke);
                let ve = find_crlf_from(s, vs);
                match r {
                    Ok(()) => {
                        &&& ke < s.len()
                        &&& ve < s.len()
                        &&& final(self).wf()
                        &&& final(self).input_seq() == s
                        &&& final(self).pos as int == ve + 2
                        &&& old(self).pos < final(self).pos
                        &&& final(self).request.headers_map() == old(
                            self,
                        ).request.headers_map().insert(s.subrange(pos, ke), s.subrange(vs, ve))
                        &&& final(self).request.method == old(self).request.method
                        &&& final(self).request.request_uri == old(self).request.request_uri
                        &&& final(self).request.http_version == old(self).request.http_version
                        &&& final(self).request.body == old(self).request.body
                        &&& final(self).state == old(self).state
                    },
                    Err(ParsingError::TruncatedInput) => ke == s.len() || ve == s.len(),
                    Err(_) => false,
                }
            }),
    {
        let input = self.request.input;
        let ghost s = input@;
        let ghost pos0 = self.pos as int;
        let mut curr = self.pos;
        while curr < input.len() && !is_separator(input[curr])
            invariant
                0 <= pos0 <= curr <= s.len(),
                input@ == s,
                find_key_end_from(s, pos0) == find_key_end_from(s, curr as int),
            decreases s.len() - curr,
        {
            curr = curr + 1;
        }
        if curr == input.len() {
            return Err(ParsingError::TruncatedInput);
        }
        let key = Span { start: self.pos, len: curr - self.pos };
        let ghost ke = curr as int;
        while curr < input.len() && is_separator(input[curr])
            invariant
                0 <= ke <= curr <= s.len(),
                input@ == s,
                skip_separator_from(s, ke) == skip_separator_from(s, curr as int),
            decreases s.len() - curr,
        {
            curr = curr + 1;
        }
        let vstart = curr;
        let ghost vs = curr as int;
        while input.len() - curr >= 2 && !(input[curr] == CR && input[curr + 1] == LF)
            invariant
                0 <= vs <= curr <= s.len(),
                input@ == s,
                find_crlf_from(s, vs) == find_crlf_from(s, curr as int),
            decreases s.len() - curr,
        {
            curr = curr + 1;
        }
        if input.len() - curr < 2 {
            return Err(ParsingError::TruncatedInput);
        }
        let value = Span { start: vstart, len: curr - vstart };
        self.pos = curr + 2;
        self.request.insert_header(key, value);
        Ok(())
    }
}

impl<'a> Parse for HttpRequestParser<'a, Header> {
    type NextState = Result<HttpRequestParser<'a, Body>, ParsingError>;

    open spec fn parse_requires(self) -> bool {
        self.wf()
    }

    /// The transition consumes header lines until the blank line — or
    /// until fewer than two bytes remain — writing each line's pair into
    /// the mapping in order, so that of two lines with one key the later
    /// wins; it then consumes the blank line's CR LF if present. It fails,
    /// with `TruncatedInput`, exactly when some line's scan for a required
    /// delimiter would run off the end of the input.
    open spec fn parse_ensures(self, r: Self::NextState) -> bool {
        let s = self.input_seq();
        let p0 = self.pos as int;
        match r {
            Ok(p) => {
                &&& headers_stage(s, p0) is Some
                &&& ({
                    let t = headers_stage(s, p0)->0;
                    &&& p.wf()
                    &&& p.input_seq() == s
                    &&& p.request.headers_map() == insert_all(self.request.headers_map(), t.0)
                    &&& p.pos as int == t.1
                    &&& p.request.method == self.request.method
                    &&& p.request.request_uri == self.request.request_uri
                    &&& p.request.http_version == self.request.http_version
                    &&& p.request.body == self.request.body
                })
            },
            Err(ParsingError::TruncatedInput) => headers_stage(s, p0) is None,
            Err(_) => false,
        }
    }

    #[verifier::loop_isolation(false)]
    fn parse(self) -> (r: Self::NextState) {
        let mut p = self;
        let input = p.request.input;
        let ghost s = p.input_seq();
        let ghost p00 = p.pos as int;
        let ghost m0 = p.request.headers_map();
        let ghost met0 = p.request.method;
        let ghost uri0 = p.request.request_uri;
        let ghost ver0 = p.request.http_version;
        let ghost body0 = p.request.body;
        while input.len() - p.pos >= 2 && !is_crlf(input[p.pos], input[p.pos + 1])
            invariant
                p.wf(),
                p.input_seq() == s,
                input@ == s,
                p.request.method == met0,
                p.request.request_uri == uri0,
                p.request.http_version == ver0,
                p.request.body == body0,
                match headers_stage(s, p00) {
                    Some(t0) => headers_stage(s, p.pos as int) is Some && ({
                        let t = headers_stage(s, p.pos as int)->0;
                        t.1 == t0.1 && insert_all(m0, t0.0) == insert_all(
                            p.request.headers_map(),
                            t.0,
                        )
                    }),
                    None => headers_stage(s, p.pos as int) is None,
                },
            decreases s.len() - p.pos,
        {
            let ghost pos_before = p.pos as int;
            let ghost m_before = p.request.headers_map();
            let res = p.parse_line();
            match res {
                Ok(()) => {
                    proof {
                        let ke = find_key_end_from(s, pos_before);
                        let vsep = skip_separator_from(s, ke);
                        let ve = find_crlf_from(s, vsep);
                        let pair = (s.subrange(pos_before, ke), s.subrange(vsep, ve));
                        match headers_stage(s, ve + 2) {
                            Some((pairs, end)) => {
                                assert(headers_stage(s, pos_before) == Some(
                                    (seq![pair] + pairs, end),
                                ));
                                assert((seq![pair] + pairs)[0] == pair);
                                assert((seq![pair] + pairs).drop_first() =~= pairs);
                                assert(insert_all(m_before, seq![pair] + pairs) == insert_all(
                                    m_before.insert(pair.0, pair.1),
                                    pairs,
                                ));
                            },
                            None => {
                                assert(headers_stage(s, pos_before) is None);
                            },
                        }
                    }
                },
                Err(e) => {
                    proof {
                        assert(!(pos_before + 2 > s.len() || is_crlf_at(s, pos_before)));
                        assert(headers_stage(s, pos_before) is None);
                    }
                    return Err(e);
                },
            }
        }
        let ghost pe = p.pos as int;
        proof {
            assert(headers_stage(s, pe) == Some(
                (
                    Seq::<(Seq<u8>, Seq<u8>)>::empty(),
                    if is_crlf_at(s, pe) {
                        pe + 2
                    } else {
                        pe
                    },
                ),
            ));
        }
        p.skip_crlf();
        Ok(HttpRequestParser { request: p.request, pos: p.pos, state: Body })
    }
}

impl<'a> Parse for HttpRequestParser<'a, Body> {
    type NextState = Request<'a>;

    open spec fn parse_requires(self) -> bool {
        self.wf()
    }

    /// The terminal transition cannot fail: everything after the header
    /// block — possibly nothing — becomes the body, verbatim and
    /// unvalidated, and the finished request is handed back. No parser
    /// state remains, so nothing can be parsed twice.
    open spec fn parse_ensures(self, r: Self::NextState) -> bool {
        let s = self.input_seq();
        &&& r.wf()
        &&& r.input@ == s
        &&& r.body == (Span { start: self.pos, len: (s.len() - self.pos) as usize })
        &&& r.body_bytes() == s.subrange(self.pos as int, s.len() as int)
        &&& r.method == self.request.method
        &&& r.request_uri == self.request.request_uri
        &&& r.http_version == self.request.http_version
        &&& r.headers@ == self.request.headers@
        &&& r.headers_map() == self.request.headers_map()
    }

    fn parse(self) -> (r: Self::NextState) {
        let mut req = self.request;
        let len = req.input.len();
        req.body = Span { start: self.pos, len: len - self.pos };
        req
    }
}

/// Every parsed field is the input, verbatim: the method, target,
/// version and body of a well-formed request, and each key and value of
/// its header mapping, are contiguous runs of the input buffer — no
/// transformation, case folding or decoding has touched them.
pub proof fn lemma_request_fields_verbatim(r: Request)
    requires
        r.wf(),
    ensures
        is_verbatim_slice(r.input@, r.method_bytes()),
        is_verbatim_slice(r.input@, r.uri_bytes()),
        is_verbatim_slice(r.input@, r.version_bytes()),
        is_verbatim_slice(r.input@, r.body_bytes()),
        forall|k: Seq<u8>|
            r.headers_map().contains_key(k) ==> is_verbatim_slice(r.input@, k)
                && is_verbatim_slice(r.input@, r.headers_map()[k]),
{
    lemma_span_bytes_verbatim(r.input@, r.method);
    lemma_span_bytes_verbatim(r.input@, r.request_uri);
    lemma_span_bytes_verbatim(r.input@, r.http_version);
    lemma_span_bytes_verbatim(r.input@, r.body);
    lemma_entries_map_covered(r.input@, r.headers@);
    assert forall|k: Seq<u8>| r.headers_map().contains_key(k) implies is_verbatim_slice(
        r.input@,
        k,
    ) && is_verbatim_slice(r.input@, r.headers_map()[k]) by {
        let i = choose|i: int|
            0 <= i < r.headers@.len() && span_bytes(r.input@, (#[trigger] r.headers@[i]).0) == k
                && r.headers_map()[k] == span_bytes(r.input@, r.headers@[i].1);
        lemma_span_bytes_verbatim(r.input@, r.headers@[i].0);
        lemma_span_bytes_verbatim(r.input@, r.headers@[i].1);
    }
}

} // verus!
