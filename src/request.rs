use vstd::prelude::*;
use vstd::string::StringSliceAdditionalSpecFns;

use crate::response::copy_bytes;

use crate::bytes::{
    bytes_eq, copy_range, find_from, find_sep, lemma_find_sep_bounds, lemma_skip_space_bounds,
    lemma_word_end_bounds, skip_space, skip_space_from, split, split_at_sep, views, word_end,
    word_end_from,
};

verus! {

/// One header line, cut at its first `": "`.
pub type Header = (Vec<u8>, Vec<u8>);

/// A request as read from the connection.
pub struct Request {
    pub method: Vec<u8>,
    pub path: Vec<u8>,
    /// Name and value of each header line, in the order received.
    pub headers: Vec<Header>,
    pub body: Vec<u8>,
}

/// What a request holds, as plain sequences of bytes.
pub struct RequestModel {
    pub method: Seq<u8>,
    pub path: Seq<u8>,
    pub headers: Seq<(Seq<u8>, Seq<u8>)>,
    pub body: Seq<u8>,
}

pub open spec fn header_views(h: Seq<Header>) -> Seq<(Seq<u8>, Seq<u8>)> {
    h.map_values(|p: Header| (p.0@, p.1@))
}

impl View for Request {
    type V = RequestModel;

    open spec fn view(&self) -> RequestModel {
        RequestModel {
            method: self.method@,
            path: self.path@,
            headers: header_views(self.headers@),
            body: self.body@,
        }
    }
}

/// Why a request could not be read.
#[derive(Debug, Clone, Copy, PartialEq, Eq, Structural)]
pub enum ParseError {
    /// The request line holds fewer than two words.
    MalformedRequest,
}

pub open spec fn opt_view(o: Option<Vec<u8>>) -> Option<Seq<u8>> {
    match o {
        Some(v) => Some(v@),
        None => None,
    }
}

/// The value of the last header named `name`: a later line overrides an
/// earlier one.
pub open spec fn header_value(hs: Seq<(Seq<u8>, Seq<u8>)>, name: Seq<u8>) -> Option<Seq<u8>>
    decreases hs.len(),
{
    if hs.len() == 0 {
        None
    } else if hs.last().0 == name {
        Some(hs.last().1)
    } else {
        header_value(hs.drop_last(), name)
    }
}

pub open spec fn lf() -> Seq<u8> {
    seq![10u8]
}

pub open spec fn colon_space() -> Seq<u8> {
    seq![58u8, 32u8]
}

/// A line with its line ending's carriage return taken off.
pub open spec fn strip_cr(l: Seq<u8>) -> Seq<u8> {
    if l.len() > 0 && l.last() == 13u8 {
        l.drop_last()
    } else {
        l
    }
}

/// The lines of `buf`, as `str::lines` gives them: cut at each line feed, a
/// carriage return before it dropped, and no empty last line after a final
/// line feed.
pub open spec fn lines(buf: Seq<u8>) -> Seq<Seq<u8>> {
    let p = split(buf, lf());
    let ended = p.drop_last().map_values(|l: Seq<u8>| strip_cr(l));
    if p.last().len() == 0 {
        ended
    } else {
        ended.push(p.last())
    }
}

/// Where the first word of a line starts and ends, and where its second word
/// starts: the line's length where there is none.
pub open spec fn first_start(l: Seq<u8>) -> int {
    skip_space(l, 0)
}

pub open spec fn first_end(l: Seq<u8>) -> int {
    word_end(l, first_start(l))
}

pub open spec fn second_start(l: Seq<u8>) -> int {
    skip_space(l, first_end(l))
}

pub open spec fn has_two_words(l: Seq<u8>) -> bool {
    second_start(l) < l.len()
}

pub open spec fn first_word(l: Seq<u8>) -> Seq<u8> {
    l.subrange(first_start(l), first_end(l))
}

pub open spec fn second_word(l: Seq<u8>) -> Seq<u8> {
    l.subrange(second_start(l), word_end(l, second_start(l)))
}

/// The index of the first empty line at or after `i`, or the number of lines.
pub open spec fn blank_from(ls: Seq<Seq<u8>>, i: int) -> int
    decreases ls.len() - i,
{
    if i >= ls.len() {
        ls.len() as int
    } else if ls[i].len() == 0 {
        i
    } else {
        blank_from(ls, i + 1)
    }
}

/// The lines between the request line and the first empty line.
pub open spec fn header_lines(ls: Seq<Seq<u8>>) -> Seq<Seq<u8>> {
    if ls.len() == 0 {
        seq![]
    } else {
        ls.subrange(1, blank_from(ls, 1))
    }
}

/// A header line cut at its first `": "`; a line without one is no header.
pub open spec fn parse_header(l: Seq<u8>) -> Option<(Seq<u8>, Seq<u8>)> {
    let j = find_sep(l, 0, colon_space());
    if j < l.len() {
        Some((l.subrange(0, j), l.subrange(j + 2, l.len() as int)))
    } else {
        None
    }
}

/// The headers that a run of header lines holds, in order.
pub open spec fn headers_of(hl: Seq<Seq<u8>>) -> Seq<(Seq<u8>, Seq<u8>)>
    decreases hl.len(),
{
    if hl.len() == 0 {
        seq![]
    } else {
        let rest = headers_of(hl.drop_last());
        match parse_header(hl.last()) {
            Some(h) => rest.push(h),
            None => rest,
        }
    }
}

/// The request that `buf` holds; `None` where its request line has fewer than
/// two words. With no line at all it is a `GET` of `/`. The body is the last
/// line of the buffer.
pub open spec fn request_of(buf: Seq<u8>) -> Option<RequestModel> {
    let ls = lines(buf);
    if ls.len() == 0 {
        Some(
            RequestModel {
                method: "GET".spec_bytes(),
                path: "/".spec_bytes(),
                headers: seq![],
                body: seq![],
            },
        )
    } else if !has_two_words(ls[0]) {
        None
    } else {
        Some(
            RequestModel {
                method: first_word(ls[0]),
                path: second_word(ls[0]),
                headers: headers_of(header_lines(ls)),
                body: ls.last(),
            },
        )
    }
}

/// `l` without the carriage return at its end, if any.
fn strip_cr_exec(l: &[u8]) -> (r: Vec<u8>)
    ensures
        r@ == strip_cr(l@),
{
    let n = l.len();
    if n > 0 && l[n - 1] == 13u8 {
        copy_range(l, 0, n - 1)
    } else {
        copy_range(l, 0, n)
    }
}

/// The lines of `buf`.
pub fn split_lines(buf: &[u8]) -> (r: Vec<Vec<u8>>)
    ensures
        views(r@) == lines(buf@),
{
    let mut sep: Vec<u8> = Vec::new();
    sep.push(10u8);
    assert(sep@ =~= lf());
    let p = split_at_sep(buf, sep.as_slice());
    let ghost pv = views(p@);
    let last = p.len() - 1;
    let mut out: Vec<Vec<u8>> = Vec::new();
    let mut k: usize = 0;
    while k < last
        invariant
            last == p@.len() - 1,
            pv == views(p@),
            k <= last,
            views(out@) =~= pv.subrange(0, k as int).map_values(|l: Seq<u8>| strip_cr(l)),
        decreases last - k,
    {
        let l = strip_cr_exec(p[k].as_slice());
        assert(pv[k as int] == p@[k as int]@);
        let ghost before = out@;
        out.push(l);
        assert(views(out@) =~= views(before).push(strip_cr(pv[k as int])));
        k = k + 1;
        assert(views(out@) =~= pv.subrange(0, k as int).map_values(|l: Seq<u8>| strip_cr(l)));
    }
    assert(pv.drop_last() =~= pv.subrange(0, last as int));
    assert(pv.last() == p@[last as int]@);
    if p[last].len() > 0 {
        let l = copy_range(p[last].as_slice(), 0, p[last].len());
        assert(l@ =~= pv.last());
        let ghost before = out@;
        out.push(l);
        assert(views(out@) =~= views(before).push(pv.last()));
    }
    out
}

/// The index of the first empty line at or after `i`, or the number of lines.
fn blank_from_exec(ls: &Vec<Vec<u8>>, i: usize) -> (r: usize)
    requires
        i <= ls@.len(),
    ensures
        r == blank_from(views(ls@), i as int),
        i <= r <= ls@.len(),
{
    let mut k: usize = i;
    while k < ls.len()
        invariant
            i <= k <= ls@.len(),
            blank_from(views(ls@), i as int) == blank_from(views(ls@), k as int),
        decreases ls@.len() - k,
    {
        if ls[k].len() == 0 {
            return k;
        }
        k = k + 1;
    }
    k
}

/// A header line cut at its first `": "`.
fn parse_header_exec(l: &[u8]) -> (r: Option<Header>)
    ensures
        match r {
            Some(h) => parse_header(l@) == Some((h.0@, h.1@)),
            None => parse_header(l@) is None,
        },
{
    let mut sep: Vec<u8> = Vec::new();
    sep.push(58u8);
    sep.push(32u8);
    assert(sep@ =~= colon_space());
    let j = find_from(l, 0, sep.as_slice());
    proof {
        lemma_find_sep_bounds(l@, 0, colon_space());
    }
    if j < l.len() {
        Some((copy_range(l, 0, j), copy_range(l, j + 2, l.len())))
    } else {
        None
    }
}

/// The first two words of a request line, or `None` where it has fewer.
fn request_words(l: &[u8]) -> (r: Option<(Vec<u8>, Vec<u8>)>)
    ensures
        match r {
            Some(w) => has_two_words(l@) && w.0@ == first_word(l@) && w.1@ == second_word(l@),
            None => !has_two_words(l@),
        },
{
    let a = skip_space_from(l, 0);
    proof {
        lemma_skip_space_bounds(l@, 0);
    }
    let b = word_end_from(l, a);
    proof {
        lemma_word_end_bounds(l@, a as int);
    }
    let c = skip_space_from(l, b);
    proof {
        lemma_skip_space_bounds(l@, b as int);
    }
    if c >= l.len() {
        return None;
    }
    let d = word_end_from(l, c);
    proof {
        lemma_word_end_bounds(l@, c as int);
    }
    Some((copy_range(l, a, b), copy_range(l, c, d)))
}

/// Reads a request from the bytes received on a connection.
///
/// The request line gives the method and the path; the lines after it, up to
/// the first empty line, give the headers; the last line is the body. An empty
/// buffer reads as a `GET` of `/`.
pub fn parse_request(buf: &[u8]) -> (r: Result<Request, ParseError>)
    ensures
        match r {
            Ok(q) => request_of(buf@) == Some(q@),
            Err(e) => request_of(buf@) is None && e == ParseError::MalformedRequest,
        },
{
    let ls = split_lines(buf);
    if ls.len() == 0 {
        let method = vstd::slice::slice_to_vec("GET".as_bytes());
        let path = vstd::slice::slice_to_vec("/".as_bytes());
        let q = Request { method, path, headers: Vec::new(), body: Vec::new() };
        assert(header_views(q.headers@) =~= seq![]);
        return Ok(q);
    }
    let ghost lv = views(ls@);
    assert(lv[0] == ls@[0]@);
    let words = request_words(ls[0].as_slice());
    let (method, path) = match words {
        Some(w) => w,
        None => {
            return Err(ParseError::MalformedRequest);
        },
    };
    let end = blank_from_exec(&ls, 1);
    let ghost hl = lv.subrange(1, end as int);
    let mut headers: Vec<Header> = Vec::new();
    let mut k: usize = 1;
    while k < end
        invariant
            lv == views(ls@),
            hl == lv.subrange(1, end as int),
            1 <= k <= end <= ls@.len(),
            header_views(headers@) == headers_of(hl.subrange(0, k - 1)),
        decreases end - k,
    {
        let h = parse_header_exec(ls[k].as_slice());
        assert(lv[k as int] == ls@[k as int]@);
        let ghost before = headers@;
        assert(hl.subrange(0, k as int).drop_last() =~= hl.subrange(0, k - 1));
        assert(hl.subrange(0, k as int).last() == lv[k as int]);
        match h {
            Some(h) => {
                headers.push(h);
                assert(header_views(headers@) =~= header_views(before).push((h.0@, h.1@)));
            },
            None => {},
        }
        k = k + 1;
    }
    assert(hl.subrange(0, end - 1) =~= hl);
    let n = ls.len();
    let body = copy_range(ls[n - 1].as_slice(), 0, ls[n - 1].len());
    assert(lv.last() == ls@[n - 1]@);
    assert(body@ =~= lv.last());
    let q = Request { method, path, headers, body };
    assert(lines(buf@) == lv);
    assert(has_two_words(lv[0]));
    assert(q@.method == first_word(lv[0]));
    assert(q@.path == second_word(lv[0]));
    assert(q@.body == lv.last());
    assert(header_lines(lv) == hl);
    assert(q@.headers == headers_of(header_lines(lines(buf@))));
    Ok(q)
}

pub open spec fn is_digit(b: u8) -> bool {
    48u8 <= b <= 57u8
}

/// The number that a run of decimal digits writes.
pub open spec fn digits_value(s: Seq<u8>) -> nat
    decreases s.len(),
{
    if s.len() == 0 {
        0
    } else {
        digits_value(s.drop_last()) * 10 + (s.last() - 48u8) as nat
    }
}

/// The length that a `Content-Length` value declares: its number where it is
/// one or more decimal digits whose number fits in `usize`, else 0.
/// A number's digits: the value without the one `+` that may lead it.
pub open spec fn digits_part(s: Seq<u8>) -> Seq<u8> {
    if s.len() > 0 && s[0] == 43u8 {
        s.subrange(1, s.len() as int)
    } else {
        s
    }
}

pub open spec fn declared_length_of(value: Option<Seq<u8>>) -> nat {
    match value {
        Some(v) => if digits_part(v).len() > 0 && (forall|k: int|
            0 <= k < digits_part(v).len() ==> is_digit(#[trigger] digits_part(v)[k]))
            && digits_value(digits_part(v)) <= usize::MAX {
            digits_value(digits_part(v))
        } else {
            0
        },
        None => 0,
    }
}

proof fn lemma_digits_grow(s: Seq<u8>, i: int, j: int)
    requires
        0 <= i <= j <= s.len(),
        forall|k: int| 0 <= k < s.len() ==> is_digit(s[k]),
    ensures
        digits_value(s.subrange(0, i)) <= digits_value(s.subrange(0, j)),
    decreases j - i,
{
    if i < j {
        lemma_digits_grow(s, i, j - 1);
        assert(s.subrange(0, j).drop_last() =~= s.subrange(0, j - 1));
    }
}

impl Request {
    /// The length that the `Content-Length` header declares, 0 where it is
    /// absent or no number.
    pub fn declared_length(&self) -> (r: usize)
        ensures
            r == declared_length_of(header_value(self@.headers, "Content-Length".spec_bytes())),
    {
        let raw = match self.header("Content-Length".as_bytes()) {
            Some(v) => v,
            None => {
                return 0;
            },
        };
        let value = if raw.len() > 0 && raw[0] == 43u8 {
            copy_range(raw.as_slice(), 1, raw.len())
        } else {
            copy_bytes(&raw)
        };
        if value.len() == 0 {
            return 0;
        }
        let ghost declared = header_value(self@.headers, "Content-Length".spec_bytes());
        let mut acc: usize = 0;
        let mut k: usize = 0;
        while k < value.len()
            invariant
                declared == Some(raw@),
                value@ == digits_part(raw@),
                declared == header_value(self@.headers, "Content-Length".spec_bytes()),
                k <= value@.len(),
                acc == digits_value(value@.subrange(0, k as int)),
                forall|m: int| 0 <= m < k ==> is_digit(value@[m]),
            decreases value@.len() - k,
        {
            let b = value[k];
            if b < 48u8 || b > 57u8 {
                assert(!is_digit(value@[k as int]));
                return 0;
            }
            let d = (b - 48u8) as usize;
            assert(value@.subrange(0, k + 1).drop_last() =~= value@.subrange(0, k as int));
            assert(value@.subrange(0, k + 1).last() == b);
            assert(digits_value(value@.subrange(0, k + 1)) == acc * 10 + d);
            if acc > (usize::MAX - d) / 10 {
                proof {
                    assert(acc * 10 + d > usize::MAX) by (nonlinear_arith)
                        requires
                            acc > (usize::MAX - d) / 10,
                            d <= 9,
                    ;
                    let n = value@.len() as int;
                    if forall|q: int| 0 <= q < n ==> is_digit(value@[q]) {
                        lemma_digits_grow(value@, k + 1, n);
                        assert(value@.subrange(0, n) =~= value@);
                    }
                }
                return 0;
            }
            assert(acc * 10 + d <= usize::MAX) by (nonlinear_arith)
                requires
                    acc <= (usize::MAX - d) / 10,
                    d <= 9,
            ;
            acc = acc * 10 + d;
            k = k + 1;
        }
        assert(value@.subrange(0, k as int) =~= value@);
        acc
    }

    /// The value of the last header named `name`, if there is one.
    pub fn header(&self, name: &[u8]) -> (r: Option<Vec<u8>>)
        ensures
            opt_view(r) == header_value(self@.headers, name@),
    {
        let ghost hv = header_views(self.headers@);
        let mut found: Option<Vec<u8>> = None;
        let mut k: usize = 0;
        while k < self.headers.len()
            invariant
                hv == header_views(self.headers@),
                k <= self.headers@.len(),
                opt_view(found) == header_value(hv.subrange(0, k as int), name@),
            decreases self.headers@.len() - k,
        {
            assert(hv.subrange(0, k + 1).drop_last() =~= hv.subrange(0, k as int));
            if bytes_eq(self.headers[k].0.as_slice(), name) {
                let v = &self.headers[k].1;
                found = Some(copy_range(v.as_slice(), 0, v.len()));
            }
            k = k + 1;
        }
        assert(hv.subrange(0, k as int) =~= hv);
        found
    }
}

} // verus!
