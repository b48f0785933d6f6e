//! Byte classification and token validation.

use vstd::prelude::*;
use crate::scan::{CR, LF, SPACE, TAB, COLON, is_whitespace_byte};

verus! {

/// The two bytes are exactly CR LF.
pub fn is_crlf(first: u8, second: u8) -> (r: bool)
    ensures
        r == (first == CR && second == LF),
{
    first == CR && second == LF
}

/// The byte counts as whitespace: space, tab, CR or LF.
pub fn is_whitespace(byte: u8) -> (r: bool)
    ensures
        r == is_whitespace_byte(byte),
{
    byte == SPACE || byte == LF || byte == CR || byte == TAB
}

/// The byte may appear in a header separator: whitespace or a colon.
pub fn is_separator(byte: u8) -> (r: bool)
    ensures
        r == crate::scan::is_separator_byte(byte),
{
    is_whitespace(byte) || byte == COLON
}

/// Two byte slices hold the same bytes.
pub fn bytes_eq(a: &[u8], b: &[u8]) -> (r: bool)
    ensures
        r == (a@ == b@),
{
    if a.len() != b.len() {
        return false;
    }
    let n = a.len();
    let mut i: usize = 0;
    while i < n
        invariant
            n == a@.len(),
            n == b@.len(),
            0 <= i <= n,
            forall|j: int| 0 <= j < i ==> a@[j] == b@[j],
        decreases n - i,
    {
        if a[i] != b[i] {
            return false;
        }
        i = i + 1;
    }
    proof {
        assert(a@ =~= b@);
    }
    true
}

/// The byte sequence of the method token `OPTIONS`.
pub open spec fn tok_options() -> Seq<u8> {
    seq!['O' as u8, 'P' as u8, 'T' as u8, 'I' as u8, 'O' as u8, 'N' as u8, 'S' as u8]
}

/// The byte sequence of the method token `GET`.
pub open spec fn tok_get() -> Seq<u8> {
    seq!['G' as u8, 'E' as u8, 'T' as u8]
}

/// The byte sequence of the method token `HEAD`.
pub open spec fn tok_head() -> Seq<u8> {
    seq!['H' as u8, 'E' as u8, 'A' as u8, 'D' as u8]
}

/// The byte sequence of the method token `POST`.
pub open spec fn tok_post() -> Seq<u8> {
    seq!['P' as u8, 'O' as u8, 'S' as u8, 'T' as u8]
}

/// The byte sequence of the method token `PUT`.
pub open spec fn tok_put() -> Seq<u8> {
    seq!['P' as u8, 'U' as u8, 'T' as u8]
}

/// The byte sequence of the method token `DELETE`.
pub open spec fn tok_delete() -> Seq<u8> {
    seq!['D' as u8, 'E' as u8, 'L' as u8, 'E' as u8, 'T' as u8, 'E' as u8]
}

/// The byte sequence of the method token `TRACE`.
pub open spec fn tok_trace() -> Seq<u8> {
    seq!['T' as u8, 'R' as u8, 'A' as u8, 'C' as u8, 'E' as u8]
}

/// The byte sequence of the method token `CONNECT`.
pub open spec fn tok_connect() -> Seq<u8> {
    seq!['C' as u8, 'O' as u8, 'N' as u8, 'N' as u8, 'E' as u8, 'C' as u8, 'T' as u8]
}

/// The token is one of the eight request methods of RFC 2616 section 5.1.1.
pub open spec fn is_valid_method_seq(s: Seq<u8>) -> bool {
    ||| s == tok_options()
    ||| s == tok_get()
    ||| s == tok_head()
    ||| s == tok_post()
    ||| s == tok_put()
    ||| s == tok_delete()
    ||| s == tok_trace()
    ||| s == tok_connect()
}

/// The byte sequence of the version token `HTTP/1`.
pub open spec fn tok_http_1() -> Seq<u8> {
    seq!['H' as u8, 'T' as u8, 'T' as u8, 'P' as u8, '/' as u8, '1' as u8]
}

/// The byte sequence of the version token `HTTP/1.0`.
pub open spec fn tok_http_1_0() -> Seq<u8> {
    seq!['H' as u8, 'T' as u8, 'T' as u8, 'P' as u8, '/' as u8, '1' as u8, '.' as u8, '0' as u8]
}

/// The byte sequence of the version token `HTTP/1.1`.
pub open spec fn tok_http_1_1() -> Seq<u8> {
    seq!['H' as u8, 'T' as u8, 'T' as u8, 'P' as u8, '/' as u8, '1' as u8, '.' as u8, '1' as u8]
}

/// The byte sequence of the version token `HTTP/2`.
pub open spec fn tok_http_2() -> Seq<u8> {
    seq!['H' as u8, 'T' as u8, 'T' as u8, 'P' as u8, '/' as u8, '2' as u8]
}

/// The token is one of the four recognized HTTP version tokens.
pub open spec fn is_valid_version_seq(s: Seq<u8>) -> bool {
    ||| s == tok_http_1()
    ||| s == tok_http_1_0()
    ||| s == tok_http_1_1()
    ||| s == tok_http_2()
}

/// Checks a request-line token against the eight methods of RFC 2616
/// section 5.1.1: `OPTIONS`, `GET`, `HEAD`, `POST`, `PUT`, `DELETE`,
/// `TRACE`, `CONNECT`.
pub fn is_valid_method(method: &[u8]) -> (r: bool)
    ensures
        r == is_valid_method_seq(method@),
{
    let r = if method.len() == 3 {
        (method[0] == 'G' as u8 && method[1] == 'E' as u8 && method[2] == 'T' as u8) || (method[0]
            == 'P' as u8 && method[1] == 'U' as u8 && method[2] == 'T' as u8)
    } else if method.len() == 4 {
        (method[0] == 'H' as u8 && method[1] == 'E' as u8 && method[2] == 'A' as u8 && method[3]
            == 'D' as u8) || (method[0] == 'P' as u8 && method[1] == 'O' as u8 && method[2]
            == 'S' as u8 && method[3] == 'T' as u8)
    } else if method.len() == 5 {
        method[0] == 'T' as u8 && method[1] == 'R' as u8 && method[2] == 'A' as u8 && method[3]
            == 'C' as u8 && method[4] == 'E' as u8
    } else if method.len() == 6 {
        method[0] == 'D' as u8 && method[1] == 'E' as u8 && method[2] == 'L' as u8 && method[3]
            == 'E' as u8 && method[4] == 'T' as u8 && method[5] == 'E' as u8
    } else if method.len() == 7 {
        (method[0] == 'O' as u8 && method[1] == 'P' as u8 && method[2] == 'T' as u8 && method[3]
            == 'I' as u8 && method[4] == 'O' as u8 && method[5] == 'N' as u8 && method[6]
            == 'S' as u8) || (method[0] == 'C' as u8 && method[1] == 'O' as u8 && method[2]
            == 'N' as u8 && method[3] == 'N' as u8 && method[4] == 'E' as u8 && method[5]
            == 'C' as u8 && method[6] == 'T' as u8)
    } else {
        false
    };
    proof {
        if r {
            assert(is_valid_method_seq(method@)) by {
                if method@.len() == 3 {
                    if method@[0] == 'G' as u8 {
                        assert(method@ =~= tok_get());
                    } else {
                        assert(method@ =~= tok_put());
                    }
                } else if method@.len() == 4 {
                    if method@[0] == 'H' as u8 {
                        assert(method@ =~= tok_head());
                    } else {
                        assert(method@ =~= tok_post());
                    }
                } else if method@.len() == 5 {
                    assert(method@ =~= tok_trace());
                } else if method@.len() == 6 {
                    assert(method@ =~= tok_delete());
                } else {
                    if method@[0] == 'O' as u8 {
                        assert(method@ =~= tok_options());
                    } else {
                        assert(method@ =~= tok_connect());
                    }
                }
            }
        }
    }
    r
}

/// Checks a request-line token against the recognized HTTP versions:
/// `HTTP/1`, `HTTP/1.0`, `HTTP/1.1`, `HTTP/2`.
pub fn is_valid_version(version: &[u8]) -> (r: bool)
    ensures
        r == is_valid_version_seq(version@),
{
    let prefix = version.len() >= 5 && version[0] == 'H' as u8 && version[1] == 'T' as u8
        && version[2] == 'T' as u8 && version[3] == 'P' as u8 && version[4] == '/' as u8;
    let r = if !prefix {
        false
    } else if version.len() == 6 {
        version[5] == '1' as u8 || version[5] == '2' as u8
    } else if version.len() == 8 {
        version[5] == '1' as u8 && version[6] == '.' as u8 && (version[7] == '0' as u8
            || version[7] == '1' as u8)
    } else {
        false
    };
    proof {
        if r {
            assert(is_valid_version_seq(version@)) by {
                if version@.len() == 6 {
                    if version@[5] == '1' as u8 {
                        assert(version@ =~= tok_http_1());
                    } else {
                        assert(version@ =~= tok_http_2());
                    }
                } else {
                    if version@[7] == '0' as u8 {
                        assert(version@ =~= tok_http_1_0());
                    } else {
                        assert(version@ =~= tok_http_1_1());
                    }
                }
            }
        }
    }
    r
}

} // verus!
