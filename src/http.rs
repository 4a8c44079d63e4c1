//! HTTP/1.1 over a TCP payload: a request parser that records byte ranges,
//! the same parser for responses, and the fixed responses this server sends.
use vstd::prelude::*;

use crate::proto::{NetworkBuffer, ProtocolBuffer, StackError};

verus! {

/// `needle` occurs in `h` at `i`.
pub open spec fn occurs_at(h: Seq<u8>, needle: Seq<u8>, i: int) -> bool {
    0 <= i && i + needle.len() <= h.len() && h.subrange(i, i + needle.len()) == needle
}

/// Relies on memchr::memmem::find: the first position at which `needle`
/// occurs in `haystack`, or `None` if it occurs nowhere.
#[verifier::external_body]
fn find_bytes(haystack: &[u8], needle: &[u8]) -> (r: Option<usize>)
    ensures
        match r {
            Some(i) => occurs_at(haystack@, needle@, i as int) && forall|j: int|
                0 <= j < i ==> !#[trigger] occurs_at(haystack@, needle@, j),
            None => forall|j: int| !#[trigger] occurs_at(haystack@, needle@, j),
        },
{
    memchr::memmem::find(haystack, needle)
}

/// Relies on memchr::memchr: the first position of the byte `needle` in
/// `haystack`, or `None` if it occurs nowhere.
#[verifier::external_body]
fn find_byte(needle: u8, haystack: &[u8]) -> (r: Option<usize>)
    ensures
        match r {
            Some(i) => i < haystack@.len() && haystack@[i as int] == needle && forall|j: int|
                0 <= j < i ==> #[trigger] haystack@[j] != needle,
            None => forall|j: int| 0 <= j < haystack@.len() ==> #[trigger] haystack@[j] != needle,
        },
{
    memchr::memchr(needle, haystack)
}

/// A line end ("\r\n") starts at `i`.
pub open spec fn crlf_at(b: Seq<u8>, i: int) -> bool {
    0 <= i && i + 1 < b.len() && b[i] == 13 && b[i + 1] == 10
}

/// `e` is the first line end at or after `from`.
pub open spec fn first_crlf(b: Seq<u8>, from: int, e: int) -> bool {
    from <= e && crlf_at(b, e) && forall|j: int| from <= j < e ==> !#[trigger] crlf_at(b, j)
}

/// No line end starts at or after `from`.
pub open spec fn no_crlf_from(b: Seq<u8>, from: int) -> bool {
    forall|j: int| from <= j ==> !#[trigger] crlf_at(b, j)
}

/// `s` is the first space in `[from, end)`, or `end` where there is none.
pub open spec fn first_space(b: Seq<u8>, from: int, end: int, s: int) -> bool {
    &&& from <= s <= end
    &&& s < end ==> b[s] == 32
    &&& forall|j: int| from <= j < s ==> #[trigger] b[j] != 32
}

/// A byte range of the parsed buffer.
#[derive(Clone, Copy, Debug, PartialEq, Eq, Structural)]
pub struct Ref {
    pub start: usize,
    pub length: usize,
}

/// The end of a range.
pub open spec fn end_of(r: Ref) -> int {
    r.start + r.length
}

/// The bytes of a range.
pub open spec fn slice_of(b: Seq<u8>, r: Ref) -> Seq<u8> {
    b.subrange(r.start as int, end_of(r))
}

/// Header line `k` starts where the previous one ended (or at `first`), is
/// non-empty and is ended by the first line end after its start.
pub open spec fn header_at(b: Seq<u8>, first: int, hs: Seq<Ref>, k: int) -> bool {
    &&& hs[k].start == (if k == 0 {
        first
    } else {
        end_of(hs[k - 1]) + 2
    })
    &&& hs[k].length > 0
    &&& first_crlf(b, hs[k].start as int, end_of(hs[k]))
}

/// Header lines, one after another from `first`.
pub open spec fn header_chain(b: Seq<u8>, first: int, hs: Seq<Ref>) -> bool {
    forall|k: int| 0 <= k < hs.len() ==> #[trigger] header_at(b, first, hs, k)
}

/// Where the line after the last header starts.
pub open spec fn chain_end(first: int, hs: Seq<Ref>) -> int {
    if hs.len() == 0 {
        first
    } else {
        end_of(hs.last()) + 2
    }
}

/// The layout of a request or response: a first line of three fields split
/// at spaces (the third runs to the next space or to the line end), header
/// lines, and a body that starts after the empty line (or, where no line end
/// follows the headers, right after them) and runs to the end of the buffer.
pub open spec fn message_layout(b: Seq<u8>, f1: Ref, f2: Ref, f3: Ref, hs: Seq<Ref>, body: Ref) -> bool {
    exists|e: int|
        {
            &&& #[trigger] first_crlf(b, 0, e)
            &&& f1.start == 0 && first_space(b, 0, e, end_of(f1)) && end_of(f1) < e
            &&& f2.start == end_of(f1) + 1 && first_space(b, f2.start as int, e, end_of(f2))
                && end_of(f2) < e
            &&& f3.start == end_of(f2) + 1 && first_space(b, f3.start as int, e, end_of(f3))
            &&& header_chain(b, e + 2, hs)
            &&& {
                let c = chain_end(e + 2, hs);
                ||| crlf_at(b, c) && body.start == c + 2
                ||| no_crlf_from(b, c) && body.start == c
            }
            &&& end_of(body) == b.len()
        }
}

/// The buffer has a line end, and two spaces before the first one.
pub open spec fn has_first_line(b: Seq<u8>) -> bool {
    exists|e: int, s1: int, s2: int|
        #![trigger first_crlf(b, 0, e), b[s1], b[s2]]
        first_crlf(b, 0, e) && 0 <= s1 < s2 < e && b[s1] == 32 && b[s2] == 32
}

/// Every range lies within the buffer.
pub open spec fn all_fit(b: Seq<u8>, f1: Ref, f2: Ref, f3: Ref, hs: Seq<Ref>, body: Ref) -> bool {
    &&& end_of(f1) <= b.len() && end_of(f2) <= b.len() && end_of(f3) <= b.len()
    &&& end_of(body) <= b.len() && body.start <= end_of(body)
    &&& f1.start <= end_of(f1) && f2.start <= end_of(f2) && f3.start <= end_of(f3)
    &&& forall|k: int| 0 <= k < hs.len() ==> end_of(#[trigger] hs[k]) <= b.len()
}

/// Ranges of a parsed message.
struct Layout {
    first: Ref,
    second: Ref,
    third: Ref,
    headers: Vec<Ref>,
    body: Ref,
}

/// The first line end at or after `from`.
fn find_crlf(b: &[u8], from: usize) -> (r: Option<usize>)
    requires
        from <= b@.len(),
    ensures
        match r {
            Some(e) => first_crlf(b@, from as int, e as int),
            None => no_crlf_from(b@, from as int),
        },
{
    let tail = vstd::slice::slice_subrange(b, from, b.len());
    let sep: [u8; 2] = [13, 10];
    let found = find_bytes(tail, sep.as_slice());
    proof {
        assert(sep@ =~= seq![13u8, 10u8]);
        assert forall|j: int| 0 <= j && j + 2 <= tail@.len() implies
            (occurs_at(tail@, sep@, j) <==> crlf_at(b@, from + j)) by {
            if crlf_at(b@, from + j) {
                assert(tail@.subrange(j, j + 2) =~= sep@);
            }
            if occurs_at(tail@, sep@, j) {
                assert(tail@.subrange(j, j + 2)[0] == tail@[j]);
                assert(tail@.subrange(j, j + 2)[1] == tail@[j + 1]);
            }
        }
    }
    match found {
        Some(i) => {
            proof {
                assert forall|j: int| from <= j < from + i implies !#[trigger] crlf_at(b@, j) by {
                    assert(!occurs_at(tail@, sep@, j - from));
                }
            }
            Some(from + i)
        },
        None => {
            proof {
                assert forall|j: int| from <= j implies !#[trigger] crlf_at(b@, j) by {
                    assert(!occurs_at(tail@, sep@, j - from));
                }
            }
            None
        },
    }
}

/// The first space in `[from, end)`, or `end`.
fn find_space(b: &[u8], from: usize, end: usize) -> (r: usize)
    requires
        from <= end <= b@.len(),
    ensures
        first_space(b@, from as int, end as int, r as int),
{
    let part = vstd::slice::slice_subrange(b, from, end);
    match find_byte(32, part) {
        Some(i) => {
            proof {
                assert forall|j: int| from <= j < from + i implies #[trigger] b@[j] != 32 by {
                    assert(part@[j - from] == b@[j]);
                }
                assert(part@[i as int] == b@[from + i]);
            }
            from + i
        },
        None => {
            proof {
                assert forall|j: int| from <= j < end implies #[trigger] b@[j] != 32 by {
                    assert(part@[j - from] == b@[j]);
                }
            }
            end
        },
    }
}

/// Header lines from `start` on, and where the body starts.
fn parse_headers(b: &[u8], start: usize) -> (r: (Vec<Ref>, usize))
    requires
        start <= b@.len(),
    ensures
        header_chain(b@, start as int, r.0@),
        ({
            let c = chain_end(start as int, r.0@);
            ||| crlf_at(b@, c) && r.1 == c + 2
            ||| no_crlf_from(b@, c) && r.1 == c
        }),
        r.1 <= b@.len(),
{
    let len: usize = b.len();
    let mut headers: Vec<Ref> = Vec::new();
    let mut line_index: usize = start;
    let mut body_start: usize = line_index;
    loop
        invariant
            len == b@.len(),
            start <= line_index <= b@.len(),
            header_chain(b@, start as int, headers@),
            line_index == chain_end(start as int, headers@),
        ensures
            header_chain(b@, start as int, headers@),
            line_index == chain_end(start as int, headers@),
            (crlf_at(b@, line_index as int) && body_start == line_index + 2) || (no_crlf_from(
                b@,
                line_index as int,
            ) && body_start == line_index),
            body_start <= b@.len(),
        decreases b@.len() - line_index,
    {
        match find_crlf(b, line_index) {
            None => {
                body_start = line_index;
                break;
            },
            Some(line) => {
                proof {
                    assert(crlf_at(b@, line as int));
                }
                if line == line_index {
                    body_start = line_index + 2;
                    break;
                }
                let r = Ref { start: line_index, length: line - line_index };
                let ghost old_headers = headers@;
                headers.push(r);
                proof {
                    lemma_chain_push(b@, start as int, old_headers, r);
                }
                line_index = line + 2;
            },
        }
    }
    (headers, body_start)
}

/// Appending a header that starts where the chain ends and runs to the next
/// line end keeps the chain.
proof fn lemma_chain_push(b: Seq<u8>, first: int, hs: Seq<Ref>, r: Ref)
    requires
        header_chain(b, first, hs),
        r.start == chain_end(first, hs),
        r.length > 0,
        first_crlf(b, r.start as int, end_of(r)),
    ensures
        header_chain(b, first, hs.push(r)),
{
    let ns = hs.push(r);
    assert forall|k: int| 0 <= k < ns.len() implies #[trigger] header_at(b, first, ns, k) by {
        if k < hs.len() {
            assert(header_at(b, first, hs, k));
            assert(ns[k] == hs[k]);
            if k > 0 {
                assert(ns[k - 1] == hs[k - 1]);
            }
        } else if k > 0 {
            assert(ns[k - 1] == hs.last());
        }
    }
}

/// Splits a message into its first line's three fields, its header lines
/// and its body.
fn parse_layout(b: &[u8]) -> (r: Result<Layout, StackError>)
    ensures
        match r {
            Ok(l) => {
                &&& message_layout(b@, l.first, l.second, l.third, l.headers@, l.body)
                &&& has_first_line(b@)
                &&& all_fit(b@, l.first, l.second, l.third, l.headers@, l.body)
            },
            Err(e) => !has_first_line(b@) && e == StackError::RequestLine,
        },
{
    let len: usize = b.len();
    let first_line_end: usize = match find_crlf(b, 0) {
        Some(e) => e,
        None => {
            proof {
                assert forall|e: int, s1: int, s2: int|
                    #![trigger first_crlf(b@, 0, e), b@[s1], b@[s2]]
                    !(first_crlf(b@, 0, e) && 0 <= s1 < s2 < e && b@[s1] == 32 && b@[s2] == 32) by {
                    if first_crlf(b@, 0, e) {
                        assert(crlf_at(b@, e));
                    }
                }
            }
            return Err(StackError::RequestLine);
        },
    };
    let ghost e = first_line_end as int;
    let s1: usize = find_space(b, 0, first_line_end);
    if s1 == first_line_end {
        proof {
            assert forall|e2: int, t1: int, t2: int|
                #![trigger first_crlf(b@, 0, e2), b@[t1], b@[t2]]
                !(first_crlf(b@, 0, e2) && 0 <= t1 < t2 < e2 && b@[t1] == 32 && b@[t2] == 32) by {
                if first_crlf(b@, 0, e2) && e2 != e {
                    if e2 < e {
                        assert(!crlf_at(b@, e2));
                    } else {
                        assert(!crlf_at(b@, e));
                    }
                }
            }
        }
        return Err(StackError::RequestLine);
    }
    let s2: usize = find_space(b, s1 + 1, first_line_end);
    if s2 == first_line_end {
        proof {
            assert forall|e2: int, t1: int, t2: int|
                #![trigger first_crlf(b@, 0, e2), b@[t1], b@[t2]]
                !(first_crlf(b@, 0, e2) && 0 <= t1 < t2 < e2 && b@[t1] == 32 && b@[t2] == 32) by {
                if first_crlf(b@, 0, e2) && e2 != e {
                    if e2 < e {
                        assert(!crlf_at(b@, e2));
                    } else {
                        assert(!crlf_at(b@, e));
                    }
                }
                if first_crlf(b@, 0, e2) && 0 <= t1 < t2 < e2 && b@[t1] == 32 {
                    assert(t1 >= s1);
                }
            }
        }
        return Err(StackError::RequestLine);
    }
    let s3: usize = find_space(b, s2 + 1, first_line_end);
    let first = Ref { start: 0, length: s1 };
    let second = Ref { start: s1 + 1, length: s2 - (s1 + 1) };
    let third = Ref { start: s2 + 1, length: s3 - (s2 + 1) };

    proof {
        assert(crlf_at(b@, e));
        assert(e + 2 <= b@.len());
    }
    let (headers, body_start) = parse_headers(b, first_line_end + 2);
    let body = Ref { start: body_start, length: b.len() - body_start };
    proof {
        assert(first_crlf(b@, 0, e));
        assert(b@[s1 as int] == 32 && b@[s2 as int] == 32);
        assert forall|k: int| 0 <= k < headers@.len() implies end_of(#[trigger] headers@[k]) <= b@.len() by {
            assert(header_at(b@, e + 2, headers@, k));
        }
    }
    Ok(Layout { first, second, third, headers, body })
}

/// The second field of the first line (the path of a request) of a message
/// that has a layout.
pub open spec fn parsed_second(b: Seq<u8>) -> Seq<u8> {
    let (f1, f2, f3, hs, body) = choose|f1: Ref, f2: Ref, f3: Ref, hs: Seq<Ref>, body: Ref|
        #[trigger] message_layout(b, f1, f2, f3, hs, body);
    slice_of(b, f2)
}

proof fn lemma_first_space_unique(b: Seq<u8>, from: int, end: int, s: int, t: int)
    requires
        first_space(b, from, end, s),
        first_space(b, from, end, t),
    ensures
        s == t,
{
    if s < t {
        assert(b[s] != 32);
    } else if t < s {
        assert(b[t] != 32);
    }
}

/// A message has one layout: its second field is the one `parsed_second` names.
pub proof fn lemma_second_field_unique(b: Seq<u8>, f1: Ref, f2: Ref, f3: Ref, hs: Seq<Ref>, body: Ref)
    requires
        message_layout(b, f1, f2, f3, hs, body),
    ensures
        parsed_second(b) == slice_of(b, f2),
{
    let (g1, g2, g3, gs, gb) = choose|g1: Ref, g2: Ref, g3: Ref, gs: Seq<Ref>, gb: Ref|
        #[trigger] message_layout(b, g1, g2, g3, gs, gb);
    let e = choose|e: int|
        {
            &&& #[trigger] first_crlf(b, 0, e)
            &&& f1.start == 0 && first_space(b, 0, e, end_of(f1)) && end_of(f1) < e
            &&& f2.start == end_of(f1) + 1 && first_space(b, f2.start as int, e, end_of(f2))
                && end_of(f2) < e
            &&& f3.start == end_of(f2) + 1 && first_space(b, f3.start as int, e, end_of(f3))
            &&& header_chain(b, e + 2, hs)
            &&& {
                let c = chain_end(e + 2, hs);
                ||| crlf_at(b, c) && body.start == c + 2
                ||| no_crlf_from(b, c) && body.start == c
            }
            &&& end_of(body) == b.len()
        };
    let e2 = choose|e: int|
        {
            &&& #[trigger] first_crlf(b, 0, e)
            &&& g1.start == 0 && first_space(b, 0, e, end_of(g1)) && end_of(g1) < e
            &&& g2.start == end_of(g1) + 1 && first_space(b, g2.start as int, e, end_of(g2))
                && end_of(g2) < e
            &&& g3.start == end_of(g2) + 1 && first_space(b, g3.start as int, e, end_of(g3))
            &&& header_chain(b, e + 2, gs)
            &&& {
                let c = chain_end(e + 2, gs);
                ||| crlf_at(b, c) && gb.start == c + 2
                ||| no_crlf_from(b, c) && gb.start == c
            }
            &&& end_of(gb) == b.len()
        };
    if e < e2 {
        assert(!crlf_at(b, e));
    } else if e2 < e {
        assert(!crlf_at(b, e2));
    }
    lemma_first_space_unique(b, 0, e, end_of(f1), end_of(g1));
    lemma_first_space_unique(b, f2.start as int, e, end_of(f2), end_of(g2));
}

/// Reads a range of a buffer.
fn read_ref(b: &[u8], r: Ref) -> (out: &[u8])
    requires
        r.start <= end_of(r) <= b@.len(),
    ensures
        out@ == slice_of(b@, r),
{
    let len: usize = b.len();
    vstd::slice::slice_subrange(b, r.start, r.start + r.length)
}

/// Reads each of the ranges.
fn read_refs<'a>(b: &'a [u8], refs: &Vec<Ref>) -> (out: Vec<&'a [u8]>)
    requires
        forall|k: int| 0 <= k < refs@.len() ==> end_of(#[trigger] refs@[k]) <= b@.len(),
    ensures
        out@.len() == refs@.len(),
        forall|k: int| 0 <= k < refs@.len() ==> (#[trigger] out@[k])@ == slice_of(b@, refs@[k]),
{
    let mut out: Vec<&'a [u8]> = Vec::new();
    let mut i: usize = 0;
    while i < refs.len()
        invariant
            i <= refs@.len(),
            out@.len() == i,
            forall|k: int| 0 <= k < refs@.len() ==> end_of(#[trigger] refs@[k]) <= b@.len(),
            forall|k: int| 0 <= k < i ==> (#[trigger] out@[k])@ == slice_of(b@, refs@[k]),
        decreases refs@.len() - i,
    {
        let r: Ref = refs[i];
        assert(end_of(refs@[i as int]) <= b@.len());
        out.push(read_ref(b, r));
        i = i + 1;
    }
    out
}

/// A parsed HTTP request over the payload of its parent.
pub struct HttpReq<P: ProtocolBuffer> {
    inner: P,
    data: Ref,
    method: Ref,
    path: Ref,
    version: Ref,
    headers: Vec<Ref>,
}

impl<P: ProtocolBuffer> HttpReq<P> {
    #[verifier::type_invariant]
    spec fn inv(&self) -> bool {
        &&& message_layout(self.inner.payload(), self.method, self.path, self.version, self.headers@, self.data)
        &&& all_fit(self.inner.payload(), self.method, self.path, self.version, self.headers@, self.data)
    }

    pub closed spec fn parent(&self) -> P {
        self.inner
    }

    pub closed spec fn method_ref(&self) -> Ref {
        self.method
    }

    pub closed spec fn path_ref(&self) -> Ref {
        self.path
    }

    pub closed spec fn version_ref(&self) -> Ref {
        self.version
    }

    pub closed spec fn header_refs(&self) -> Seq<Ref> {
        self.headers@
    }

    pub closed spec fn body_ref(&self) -> Ref {
        self.data
    }

    /// The bytes the request was parsed from.
    pub open spec fn text(&self) -> Seq<u8> {
        self.parent().payload()
    }

    pub fn into_inner(self) -> (r: P)
        ensures
            r == self.parent(),
    {
        self.inner
    }

    /// Parses the request line (method, path and version, split at spaces),
    /// the header lines and the body. Fails where there is no line end or
    /// the request line has fewer than two spaces.
    pub fn parse(p: P) -> (r: Result<HttpReq<P>, StackError>)
        ensures
            r is Ok <==> has_first_line(p.payload()),
            match r {
                Ok(req) => req.parent() == p && message_layout(
                    p.payload(),
                    req.method_ref(),
                    req.path_ref(),
                    req.version_ref(),
                    req.header_refs(),
                    req.body_ref(),
                ) && slice_of(p.payload(), req.path_ref()) == parsed_second(p.payload()),
                Err(e) => e == StackError::RequestLine,
            },
    {
        match parse_layout(p.buf()) {
            Ok(l) => {
                proof {
                    lemma_second_field_unique(p.payload(), l.first, l.second, l.third, l.headers@, l.body);
                }
                Ok(
                HttpReq {
                    inner: p,
                    data: l.body,
                    method: l.first,
                    path: l.second,
                    version: l.third,
                    headers: l.headers,
                },
            )
            },
            Err(e) => Err(e),
        }
    }

    pub fn method(&self) -> (r: &[u8])
        ensures
            r@ == slice_of(self.text(), self.method_ref()),
    {
        proof {
            use_type_invariant(self);
        }
        read_ref(self.inner.buf(), self.method)
    }

    pub fn path(&self) -> (r: &[u8])
        ensures
            r@ == slice_of(self.text(), self.path_ref()),
    {
        proof {
            use_type_invariant(self);
        }
        read_ref(self.inner.buf(), self.path)
    }

    pub fn version(&self) -> (r: &[u8])
        ensures
            r@ == slice_of(self.text(), self.version_ref()),
    {
        proof {
            use_type_invariant(self);
        }
        read_ref(self.inner.buf(), self.version)
    }

    /// Each header line, in order.
    pub fn headers(&self) -> (r: Vec<&[u8]>)
        ensures
            r@.len() == self.header_refs().len(),
            forall|k: int|
                0 <= k < r@.len() ==> (#[trigger] r@[k])@ == slice_of(self.text(), self.header_refs()[k]),
    {
        proof {
            use_type_invariant(self);
        }
        read_refs(self.inner.buf(), &self.headers)
    }

    /// The body.
    pub fn data(&self) -> (r: &[u8])
        ensures
            r@ == slice_of(self.text(), self.body_ref()),
    {
        proof {
            use_type_invariant(self);
        }
        read_ref(self.inner.buf(), self.data)
    }
}

/// A parsed HTTP response over the payload of its parent.
pub struct PackedHttpResp<P: ProtocolBuffer> {
    inner: P,
    data: Ref,
    version: Ref,
    code: Ref,
    code_status: Ref,
    headers: Vec<Ref>,
}

impl<P: ProtocolBuffer> PackedHttpResp<P> {
    #[verifier::type_invariant]
    spec fn inv(&self) -> bool {
        &&& message_layout(self.inner.payload(), self.version, self.code, self.code_status, self.headers@, self.data)
        &&& all_fit(self.inner.payload(), self.version, self.code, self.code_status, self.headers@, self.data)
    }

    pub closed spec fn parent(&self) -> P {
        self.inner
    }

    pub closed spec fn version_ref(&self) -> Ref {
        self.version
    }

    pub closed spec fn code_ref(&self) -> Ref {
        self.code
    }

    pub closed spec fn code_status_ref(&self) -> Ref {
        self.code_status
    }

    pub closed spec fn header_refs(&self) -> Seq<Ref> {
        self.headers@
    }

    pub closed spec fn body_ref(&self) -> Ref {
        self.data
    }

    /// The bytes the response was parsed from.
    pub open spec fn text(&self) -> Seq<u8> {
        self.parent().payload()
    }

    pub fn into_inner(self) -> (r: P)
        ensures
            r == self.parent(),
    {
        self.inner
    }

    /// Parses the status line (version, code and reason), the header lines
    /// and the body, as `HttpReq::parse` does.
    pub fn parse(p: P) -> (r: Result<PackedHttpResp<P>, StackError>)
        ensures
            r is Ok <==> has_first_line(p.payload()),
            match r {
                Ok(resp) => resp.parent() == p && message_layout(
                    p.payload(),
                    resp.version_ref(),
                    resp.code_ref(),
                    resp.code_status_ref(),
                    resp.header_refs(),
                    resp.body_ref(),
                ),
                Err(e) => e == StackError::RequestLine,
            },
    {
        match parse_layout(p.buf()) {
            Ok(l) => Ok(
                PackedHttpResp {
                    inner: p,
                    data: l.body,
                    version: l.first,
                    code: l.second,
                    code_status: l.third,
                    headers: l.headers,
                },
            ),
            Err(e) => Err(e),
        }
    }

    pub fn code(&self) -> (r: &[u8])
        ensures
            r@ == slice_of(self.text(), self.code_ref()),
    {
        proof {
            use_type_invariant(self);
        }
        read_ref(self.inner.buf(), self.code)
    }

    pub fn code_status(&self) -> (r: &[u8])
        ensures
            r@ == slice_of(self.text(), self.code_status_ref()),
    {
        proof {
            use_type_invariant(self);
        }
        read_ref(self.inner.buf(), self.code_status)
    }

    pub fn version(&self) -> (r: &[u8])
        ensures
            r@ == slice_of(self.text(), self.version_ref()),
    {
        proof {
            use_type_invariant(self);
        }
        read_ref(self.inner.buf(), self.version)
    }

    /// Each header line, in order.
    pub fn headers(&self) -> (r: Vec<&[u8]>)
        ensures
            r@.len() == self.header_refs().len(),
            forall|k: int|
                0 <= k < r@.len() ==> (#[trigger] r@[k])@ == slice_of(self.text(), self.header_refs()[k]),
    {
        proof {
            use_type_invariant(self);
        }
        read_refs(self.inner.buf(), &self.headers)
    }

    /// The body.
    pub fn data(&self) -> (r: &[u8])
        ensures
            r@ == slice_of(self.text(), self.body_ref()),
    {
        proof {
            use_type_invariant(self);
        }
        read_ref(self.inner.buf(), self.data)
    }
}

/// "HTTP/1.1 200 OK", no headers but a zero Content-Length, no body.
pub open spec fn ok_response() -> Seq<u8> {
    seq![72u8, 84, 84, 80, 47, 49, 46, 49, 32, 50, 48, 48, 32, 79, 75, 13, 10, 67, 111, 110, 116, 101, 110, 116, 45, 76, 101, 110, 103, 116, 104, 58, 32, 48, 13, 10, 13, 10]
}

/// "HTTP/1.1 400 Bad Request", a zero Content-Length, no body.
pub open spec fn bad_request_response() -> Seq<u8> {
    seq![72u8, 84, 84, 80, 47, 49, 46, 49, 32, 52, 48, 48, 32, 66, 97, 100, 32, 82, 101, 113, 117, 101, 115, 116, 13, 10, 67, 111, 110, 116, 101, 110, 116, 45, 76, 101, 110, 103, 116, 104, 58, 32, 48, 13, 10, 13, 10]
}

/// The bytes of a response to send.
pub struct HttpResp {
    buf: NetworkBuffer,
}

impl HttpResp {
    pub closed spec fn bytes(&self) -> Seq<u8> {
        self.buf@
    }

    pub fn ok() -> (r: HttpResp)
        ensures
            r.bytes() == ok_response(),
    {
        let response: [u8; 38] = [72u8, 84, 84, 80, 47, 49, 46, 49, 32, 50, 48, 48, 32, 79, 75, 13, 10, 67, 111, 110, 116, 101, 110, 116, 45, 76, 101, 110, 103, 116, 104, 58, 32, 48, 13, 10, 13, 10];
        proof {
            assert(response@ =~= ok_response());
        }
        HttpResp { buf: NetworkBuffer::from_slice(response.as_slice()) }
    }

    pub fn bad_request() -> (r: HttpResp)
        ensures
            r.bytes() == bad_request_response(),
    {
        let response: [u8; 47] = [72u8, 84, 84, 80, 47, 49, 46, 49, 32, 52, 48, 48, 32, 66, 97, 100, 32, 82, 101, 113, 117, 101, 115, 116, 13, 10, 67, 111, 110, 116, 101, 110, 116, 45, 76, 101, 110, 103, 116, 104, 58, 32, 48, 13, 10, 13, 10];
        proof {
            assert(response@ =~= bad_request_response());
        }
        HttpResp { buf: NetworkBuffer::from_slice(response.as_slice()) }
    }

    pub fn to_buf(self) -> (r: NetworkBuffer)
        ensures
            r@ == self.bytes(),
    {
        self.buf
    }
}

/// A line end.
pub open spec fn crlf() -> Seq<u8> {
    seq![13u8, 10u8]
}

/// Each header line followed by a line end.
pub open spec fn headers_text(b: Seq<u8>, hs: Seq<Ref>) -> Seq<u8>
    decreases hs.len(),
{
    if hs.len() == 0 {
        Seq::empty()
    } else {
        headers_text(b, hs.drop_last()) + slice_of(b, hs.last()) + crlf()
    }
}

/// A message written back from its parts: the three fields of the first
/// line with a space between each, a line end, each header with a line end,
/// the empty line, the body.
pub open spec fn reassemble(b: Seq<u8>, f1: Ref, f2: Ref, f3: Ref, hs: Seq<Ref>, body: Ref) -> Seq<u8> {
    slice_of(b, f1) + seq![32u8] + slice_of(b, f2) + seq![32u8] + slice_of(b, f3) + crlf()
        + headers_text(b, hs) + crlf() + slice_of(b, body)
}

proof fn lemma_headers_text(b: Seq<u8>, first: int, hs: Seq<Ref>)
    requires
        0 <= first,
        header_chain(b, first, hs),
    ensures
        first <= chain_end(first, hs) <= b.len() || hs.len() == 0,
        hs.len() == 0 || headers_text(b, hs) == b.subrange(first, chain_end(first, hs)),
    decreases hs.len(),
{
    if hs.len() > 0 {
        let init = hs.drop_last();
        let n = hs.len() - 1;
        assert forall|k: int| 0 <= k < init.len() implies #[trigger] header_at(b, first, init, k) by {
            assert(header_at(b, first, hs, k));
            assert(init[k] == hs[k]);
            if k > 0 {
                assert(init[k - 1] == hs[k - 1]);
            }
        }
        assert(header_at(b, first, hs, n));
        lemma_headers_text(b, first, init);
        let last = hs.last();
        assert(crlf_at(b, end_of(last)));
        if n > 0 {
            assert(chain_end(first, init) == end_of(hs[n - 1]) + 2);
            assert(b.subrange(first, chain_end(first, init)) + slice_of(b, last) + crlf() =~= b.subrange(
                first,
                chain_end(first, hs),
            ));
        } else {
            assert(headers_text(b, init) =~= Seq::<u8>::empty());
            assert(Seq::<u8>::empty() + slice_of(b, last) + crlf() =~= b.subrange(first, chain_end(first, hs)));
        }
    }
}

/// Round trip of the request parser: for a well-formed message (the third
/// field runs to the end of the first line, and the headers end with an
/// empty line), writing the parsed method, path, version, headers and body
/// back gives the input.
pub proof fn lemma_request_round_trip(b: Seq<u8>, f1: Ref, f2: Ref, f3: Ref, hs: Seq<Ref>, body: Ref)
    requires
        message_layout(b, f1, f2, f3, hs, body),
        first_crlf(b, 0, end_of(f3)),
        crlf_at(b, chain_end(end_of(f3) + 2, hs)),
    ensures
        reassemble(b, f1, f2, f3, hs, body) == b,
{
    let e = choose|e: int|
        {
            &&& #[trigger] first_crlf(b, 0, e)
            &&& f1.start == 0 && first_space(b, 0, e, end_of(f1)) && end_of(f1) < e
            &&& f2.start == end_of(f1) + 1 && first_space(b, f2.start as int, e, end_of(f2))
                && end_of(f2) < e
            &&& f3.start == end_of(f2) + 1 && first_space(b, f3.start as int, e, end_of(f3))
            &&& header_chain(b, e + 2, hs)
            &&& {
                let c = chain_end(e + 2, hs);
                ||| crlf_at(b, c) && body.start == c + 2
                ||| no_crlf_from(b, c) && body.start == c
            }
            &&& end_of(body) == b.len()
        };
    let v = end_of(f3);
    if e < v {
        assert(!crlf_at(b, e));
    } else if v < e {
        assert(!crlf_at(b, v));
    }
    assert(e == v);
    let c = chain_end(e + 2, hs);
    assert(body.start == c + 2);
    lemma_headers_text(b, e + 2, hs);
    assert(b[end_of(f1)] == 32);
    assert(b[end_of(f2)] == 32);
    let line = slice_of(b, f1) + seq![32u8] + slice_of(b, f2) + seq![32u8] + slice_of(b, f3) + crlf();
    assert(line =~= b.subrange(0, e + 2));
    if hs.len() == 0 {
        assert(headers_text(b, hs) =~= Seq::<u8>::empty());
        assert(line + headers_text(b, hs) + crlf() + slice_of(b, body) =~= b);
    } else {
        assert(line + headers_text(b, hs) + crlf() + slice_of(b, body) =~= b);
    }
}

} // verus!
