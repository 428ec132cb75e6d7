use vstd::prelude::*;
use vstd::string::StringSliceAdditionalSpecFns;

use crate::bytes::copy_range;
use crate::request::{header_views, Header};

verus! {

/// The statuses this server answers with.
#[derive(Debug, Clone, Copy, PartialEq, Eq, Structural)]
pub enum Status {
    Success,
    Created,
    BadRequest,
    NotFound,
    ServerError,
    NotImplemented,
}

pub open spec fn code_of(s: Status) -> u16 {
    match s {
        Status::Success => 200,
        Status::Created => 201,
        Status::BadRequest => 400,
        Status::NotFound => 404,
        Status::ServerError => 500,
        Status::NotImplemented => 501,
    }
}

/// The status line, line ending included.
pub open spec fn status_line(s: Status) -> Seq<u8> {
    match s {
        Status::Success => "HTTP/1.1 200 OK\r\n".spec_bytes(),
        Status::Created => "HTTP/1.1 201 Created\r\n".spec_bytes(),
        Status::BadRequest => "HTTP/1.1 400 Bad Request\r\n".spec_bytes(),
        Status::NotFound => "HTTP/1.1 404 Not Found\r\n".spec_bytes(),
        Status::ServerError => "HTTP/1.1 500 Internal Server Error\r\n".spec_bytes(),
        Status::NotImplemented => "HTTP/1.1 501 Not Implemented\r\n".spec_bytes(),
    }
}

impl Status {
    /// The numeric status code.
    pub fn code(&self) -> (r: u16)
        ensures
            r == code_of(*self),
    {
        match self {
            Status::Success => 200,
            Status::Created => 201,
            Status::BadRequest => 400,
            Status::NotFound => 404,
            Status::ServerError => 500,
            Status::NotImplemented => 501,
        }
    }

    fn line(&self) -> (r: &'static [u8])
        ensures
            r@ == status_line(*self),
    {
        match self {
            Status::Success => "HTTP/1.1 200 OK\r\n".as_bytes(),
            Status::Created => "HTTP/1.1 201 Created\r\n".as_bytes(),
            Status::BadRequest => "HTTP/1.1 400 Bad Request\r\n".as_bytes(),
            Status::NotFound => "HTTP/1.1 404 Not Found\r\n".as_bytes(),
            Status::ServerError => "HTTP/1.1 500 Internal Server Error\r\n".as_bytes(),
            Status::NotImplemented => "HTTP/1.1 501 Not Implemented\r\n".as_bytes(),
        }
    }
}

/// A response ready to be written.
pub struct Response {
    pub status: Status,
    /// Name and value of each header, in the order written.
    pub headers: Vec<Header>,
    pub body: Vec<u8>,
}

/// What a response holds, as plain sequences of bytes.
pub struct ResponseModel {
    pub status: Status,
    pub headers: Seq<(Seq<u8>, Seq<u8>)>,
    pub body: Seq<u8>,
}

impl View for Response {
    type V = ResponseModel;

    open spec fn view(&self) -> ResponseModel {
        ResponseModel {
            status: self.status,
            headers: header_views(self.headers@),
            body: self.body@,
        }
    }
}

pub open spec fn crlf() -> Seq<u8> {
    seq![13u8, 10u8]
}

/// `Name: Value` lines, one for each header.
pub open spec fn header_block(hs: Seq<(Seq<u8>, Seq<u8>)>) -> Seq<u8>
    decreases hs.len(),
{
    if hs.len() == 0 {
        seq![]
    } else {
        header_block(hs.drop_last()) + hs.last().0 + seq![58u8, 32u8] + hs.last().1 + crlf()
    }
}

/// What precedes the body on the wire: status line, headers, empty line.
pub open spec fn head_of(r: ResponseModel) -> Seq<u8> {
    status_line(r.status) + header_block(r.headers) + crlf()
}

/// The decimal digits of `n`, most significant first.
pub open spec fn decimal(n: nat) -> Seq<u8>
    decreases n,
{
    if n < 10 {
        seq![(48 + n) as u8]
    } else {
        decimal(n / 10).push((48 + n % 10) as u8)
    }
}

/// The decimal digits of `n`.
pub fn decimal_bytes(n: usize) -> (r: Vec<u8>)
    ensures
        r@ == decimal(n as nat),
    decreases n,
{
    if n < 10 {
        let mut v: Vec<u8> = Vec::new();
        v.push(48u8 + n as u8);
        assert(v@ =~= decimal(n as nat));
        v
    } else {
        let mut v = decimal_bytes(n / 10);
        v.push(48u8 + (n % 10) as u8);
        v
    }
}

/// `dst` with the bytes of `src` after it.
pub fn append_bytes(dst: &mut Vec<u8>, src: &[u8])
    ensures
        final(dst)@ == old(dst)@ + src@,
{
    let mut k: usize = 0;
    while k < src.len()
        invariant
            k <= src@.len(),
            dst@ == old(dst)@ + src@.subrange(0, k as int),
        decreases src@.len() - k,
    {
        dst.push(src[k]);
        k = k + 1;
        assert(dst@ =~= old(dst)@ + src@.subrange(0, k as int));
    }
    assert(src@.subrange(0, k as int) =~= src@);
}

/// A header of a literal name and the given value.
pub fn header_pair(name: &str, value: Vec<u8>) -> (r: Header)
    ensures
        r.0@ == name.spec_bytes(),
        r.1@ == value@,
{
    (vstd::slice::slice_to_vec(name.as_bytes()), value)
}

impl Response {
    /// A response with no header and an empty body.
    pub fn empty(status: Status) -> (r: Response)
        ensures
            r@ == (ResponseModel { status, headers: seq![], body: seq![] }),
    {
        let r = Response { status, headers: Vec::new(), body: Vec::new() };
        assert(r@.headers =~= seq![]);
        r
    }

    /// Status line, headers and the empty line that ends them; the body is
    /// written after these bytes, as it is.
    pub fn head(&self) -> (r: Vec<u8>)
        ensures
            r@ == head_of(self@),
    {
        let mut out: Vec<u8> = Vec::new();
        append_bytes(&mut out, self.status.line());
        let ghost hv = header_views(self.headers@);
        let ghost first = out@;
        let mut k: usize = 0;
        while k < self.headers.len()
            invariant
                hv == header_views(self.headers@),
                k <= self.headers@.len(),
                out@ == first + header_block(hv.subrange(0, k as int)),
            decreases self.headers@.len() - k,
        {
            let ghost prev = out@;
            assert(hv.subrange(0, k + 1).drop_last() =~= hv.subrange(0, k as int));
            append_bytes(&mut out, self.headers[k].0.as_slice());
            out.push(58u8);
            out.push(32u8);
            append_bytes(&mut out, self.headers[k].1.as_slice());
            out.push(13u8);
            out.push(10u8);
            k = k + 1;
            assert(out@ =~= first + header_block(hv.subrange(0, k as int)));
        }
        assert(hv.subrange(0, k as int) =~= hv);
        out.push(13u8);
        out.push(10u8);
        assert(out@ =~= head_of(self@));
        out
    }

    /// The whole response as it goes on the wire: head, then body.
    pub fn to_bytes(&self) -> (r: Vec<u8>)
        ensures
            r@ == head_of(self@) + self@.body,
    {
        let mut out = self.head();
        append_bytes(&mut out, self.body.as_slice());
        out
    }
}

/// A copy of `v`.
pub fn copy_bytes(v: &Vec<u8>) -> (r: Vec<u8>)
    ensures
        r@ == v@,
{
    let r = copy_range(v.as_slice(), 0, v.len());
    assert(r@ =~= v@);
    r
}

} // verus!
