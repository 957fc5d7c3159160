//! Reading requests off the wire, one decision at a time on the bytes that
//! have come so far: the head, and a body sent with chunked transfer coding.
use vstd::prelude::*;
use crate::body::crlf;
use crate::bridge::{
    chunk_size_parse, fields_parse, parse_chunk_size, parse_fields, parse_request_head,
    request_head_parse, str_from_utf8,
};
use crate::headers::Headers;
use crate::request::{
    collect_fields, fields_utf8, head_is_usable, headers_from_fields, request_from_head, HeaderField,
    Request,
};
use crate::BUF_LEN;

verus! {

/// What the bytes that came so far give as a request head.
pub enum HeadStep {
    /// Read more bytes; the head is not complete yet.
    Fill,
    /// The head takes the first this many bytes; it describes the request,
    /// or `None` where it is incomplete or not understood.
    Head(usize, Option<Request>),
    /// The bytes do not begin with a request head.
    Invalid,
}

/// Reads the request head at the start of `pending`, where it is complete.
pub fn head_step(pending: &[u8]) -> (res: HeadStep)
    ensures
        match request_head_parse(pending@) {
            None => res is Invalid,
            Some(None) => res is Fill,
            Some(Some((used, head))) => res matches HeadStep::Head(n, r) && {
                &&& n == used
                &&& r is Some <==> head_is_usable(head)
                &&& r matches Some(q) ==> q@ == request_from_head(head)
            },
        },
        res matches HeadStep::Head(n, _) ==> n <= pending@.len(),
{
    match parse_request_head(pending) {
        Err(()) => HeadStep::Invalid,
        Ok(None) => HeadStep::Fill,
        Ok(Some((used, head))) => HeadStep::Head(used, Request::try_from_parser(head)),
    }
}

/// What comes next in a chunked body.
#[derive(Debug, PartialEq, Eq, Copy, Clone, Structural)]
pub enum Framing {
    /// A chunk-size line.
    SizeLine,
    /// This many bytes of chunk data.
    Data(u64),
    /// The line end after a chunk's data.
    DataEnd,
    /// The trailer section, after the chunk of size zero.
    Trailer,
}

/// What the connection does next, on the bytes pending.
pub enum Step {
    /// Read more bytes; nothing can be decided on those pending.
    Fill,
    /// Hand the first this many bytes on as body, then drop them.
    Forward(usize),
    /// Drop the first this many bytes.
    Skip(usize),
    /// The body ends after the first this many bytes, without trailers.
    Finish(usize),
    /// The body ends after the first `used` bytes, with these trailers.
    Trailers(Headers, usize),
    /// The bytes do not frame a chunked body.
    Invalid,
}

/// The smallest of three numbers.
pub open spec fn min3(a: int, b: int, c: int) -> int {
    if a <= b && a <= c {
        a
    } else if b <= c {
        b
    } else {
        c
    }
}

/// Law: the smallest of three numbers is one of them and no larger than any.
pub proof fn lemma_min3(a: int, b: int, c: int)
    ensures
        min3(a, b, c) <= a,
        min3(a, b, c) <= b,
        min3(a, b, c) <= c,
        min3(a, b, c) == a || min3(a, b, c) == b || min3(a, b, c) == c,
{
}

/// Whether every value of `fs` is UTF-8, checked.
fn values_utf8(fs: &Vec<HeaderField>) -> (res: bool)
    ensures
        res == fields_utf8(fs@),
{
    let mut i: usize = 0;
    while i < fs.len()
        invariant
            i <= fs@.len(),
            forall|j: int| 0 <= j < i ==> vstd::utf8::valid_utf8(#[trigger] fs@[j].value@),
        decreases fs@.len() - i,
    {
        if str_from_utf8(fs[i].value.as_slice()).is_err() {
            return false;
        }
        i = i + 1;
    }
    true
}

/// The next decision in reading a chunked body, where `framing` comes next
/// and `pending` holds the bytes that came and are not used yet: the framing
/// that comes after it, and what to do.
pub fn chunked_step(framing: Framing, pending: &[u8]) -> (res: (Framing, Step))
    ensures
        match framing {
            Framing::SizeLine => match chunk_size_parse(pending@) {
                None => res.1 is Invalid,
                Some(None) => res.0 == Framing::SizeLine && res.1 is Fill,
                Some(Some((used, size))) => {
                    &&& res.1 == Step::Skip(used)
                    &&& res.0 == if size == 0 {
                        Framing::Trailer
                    } else {
                        Framing::Data(size)
                    }
                },
            },
            Framing::Data(left) => if pending@.len() == 0 {
                res.0 == Framing::Data(left) && res.1 is Fill
            } else {
                let n = min3(left as int, pending@.len() as int, BUF_LEN as int);
                &&& res.1 == Step::Forward(n as usize)
                &&& res.0 == if n == left {
                    Framing::DataEnd
                } else {
                    Framing::Data((left - n) as u64)
                }
            },
            Framing::DataEnd => if pending@.len() < 2 {
                res.0 == Framing::DataEnd && res.1 is Fill
            } else if pending@.take(2) == crlf() {
                res.0 == Framing::SizeLine && res.1 == Step::Skip(2)
            } else {
                res.1 is Invalid
            },
            Framing::Trailer => match fields_parse(pending@) {
                None => res.1 is Invalid,
                Some(None) => res.0 == Framing::Trailer && res.1 is Fill,
                Some(Some((used, fs))) => if !fields_utf8(fs) {
                    res.1 is Invalid
                } else if fs.len() == 0 {
                    res.1 == Step::Finish(used)
                } else {
                    res.1 matches Step::Trailers(h, n) && n == used && h@ == collect_fields(fs)
                },
            },
        },
        res.1 matches Step::Forward(n) ==> n <= BUF_LEN && n <= pending@.len(),
        res.1 matches Step::Skip(n) ==> n <= pending@.len(),
        res.1 matches Step::Finish(n) ==> n <= pending@.len(),
        res.1 matches Step::Trailers(_, n) ==> n <= pending@.len(),
{
    match framing {
        Framing::SizeLine => match parse_chunk_size(pending) {
            Err(()) => (framing, Step::Invalid),
            Ok(None) => (framing, Step::Fill),
            Ok(Some((used, size))) => {
                if size == 0 {
                    (Framing::Trailer, Step::Skip(used))
                } else {
                    (Framing::Data(size), Step::Skip(used))
                }
            },
        },
        Framing::Data(left) => {
            if pending.len() == 0 {
                return (framing, Step::Fill);
            }
            let mut n: usize = pending.len();
            if n > BUF_LEN {
                n = BUF_LEN;
            }
            if left < n as u64 {
                n = left as usize;
            }
            if n as u64 == left {
                (Framing::DataEnd, Step::Forward(n))
            } else {
                (Framing::Data(left - n as u64), Step::Forward(n))
            }
        },
        Framing::DataEnd => {
            if pending.len() < 2 {
                (framing, Step::Fill)
            } else if pending[0] == 13u8 && pending[1] == 10u8 {
                assert(pending@.take(2) =~= crlf());
                (Framing::SizeLine, Step::Skip(2))
            } else {
                assert(pending@.take(2)[0] == pending@[0]);
                assert(pending@.take(2)[1] == pending@[1]);
                (framing, Step::Invalid)
            }
        },
        Framing::Trailer => match parse_fields(pending) {
            Err(()) => (framing, Step::Invalid),
            Ok(None) => (framing, Step::Fill),
            Ok(Some((used, fs))) => {
                if !values_utf8(&fs) {
                    (framing, Step::Invalid)
                } else if fs.len() == 0 {
                    (framing, Step::Finish(used))
                } else {
                    let h = headers_from_fields(&fs);
                    (framing, Step::Trailers(h, used))
                }
            },
        },
    }
}

} // verus!
