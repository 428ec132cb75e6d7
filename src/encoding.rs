use vstd::prelude::*;
use vstd::string::StringSliceAdditionalSpecFns;

use flate2::write::GzEncoder;
use flate2::Compression;
use std::io::Write;

use crate::bytes::{bytes_eq, split, split_at_sep, views};
use crate::request::{header_value, opt_view};
use crate::response::append_bytes;

verus! {

/// The gzip member that flate2 writes for `data` at the default level.
pub uninterp spec fn gzip_of(data: Seq<u8>) -> Seq<u8>;

/// Relies on `flate2::write::GzEncoder` at `Compression::default()`: its header
/// carries no time stamp, file name or host system, so the member it writes
/// depends on the input bytes alone. Writing into a `Vec` cannot fail.
#[verifier::external_body]
pub(crate) fn gzip(data: &[u8]) -> (r: Vec<u8>)
    ensures
        r@ == gzip_of(data@),
{
    let mut encoder = GzEncoder::new(Vec::new(), Compression::default());
    encoder.write_all(data).unwrap();
    encoder.finish().unwrap()
}

pub open spec fn comma_space() -> Seq<u8> {
    seq![44u8, 32u8]
}

pub open spec fn accept_encoding() -> Seq<u8> {
    "Accept-Encoding".spec_bytes()
}

pub open spec fn gzip_token() -> Seq<u8> {
    "gzip".spec_bytes()
}

/// The encodings this server knows.
pub open spec fn is_supported(t: Seq<u8>) -> bool {
    t == gzip_token()
}

/// The supported tokens among `ts`, in the order offered.
pub open spec fn supported_of(ts: Seq<Seq<u8>>) -> Seq<Seq<u8>>
    decreases ts.len(),
{
    if ts.len() == 0 {
        seq![]
    } else if is_supported(ts.last()) {
        supported_of(ts.drop_last()).push(ts.last())
    } else {
        supported_of(ts.drop_last())
    }
}

/// The pieces `ts` with `sep` between each two.
pub open spec fn join(ts: Seq<Seq<u8>>, sep: Seq<u8>) -> Seq<u8>
    decreases ts.len(),
{
    if ts.len() == 0 {
        seq![]
    } else if ts.len() == 1 {
        ts[0]
    } else {
        join(ts.drop_last(), sep) + sep + ts.last()
    }
}

/// The supported encodings that an `Accept-Encoding` value offers.
pub open spec fn offered(accept: Option<Seq<u8>>) -> Seq<Seq<u8>> {
    match accept {
        Some(v) => supported_of(split(v, comma_space())),
        None => seq![],
    }
}

/// The supported encodings that a request's headers offer.
pub open spec fn offered_by(headers: Seq<(Seq<u8>, Seq<u8>)>) -> Seq<Seq<u8>> {
    offered(header_value(headers, accept_encoding()))
}

/// The encoding agreed on for a response.
pub struct Negotiated {
    /// The value of the `Content-Encoding` header.
    pub content_encoding: Vec<u8>,
    /// Whether the body is to be gzip-compressed.
    pub gzip: bool,
}

/// What negotiation gives for the offered supported encodings `ts`: nothing
/// where there are none, else their list and whether gzip is among them.
pub open spec fn negotiated_of(ts: Seq<Seq<u8>>) -> Option<(Seq<u8>, bool)> {
    if ts.len() == 0 {
        None
    } else {
        Some((join(ts, comma_space()), ts.contains(gzip_token())))
    }
}

pub open spec fn negotiated_view(n: Option<Negotiated>) -> Option<(Seq<u8>, bool)> {
    match n {
        Some(m) => Some((m.content_encoding@, m.gzip)),
        None => None,
    }
}

/// Picks the response encoding from the value of `Accept-Encoding`, if any:
/// the supported tokens of its comma-separated list, in the client's order.
pub fn negotiate(accept: &Option<Vec<u8>>) -> (r: Option<Negotiated>)
    ensures
        negotiated_view(r) == negotiated_of(offered(opt_view(*accept))),
{
    let value = match accept {
        Some(v) => v,
        None => {
            return None;
        },
    };
    let mut sep: Vec<u8> = Vec::new();
    sep.push(44u8);
    sep.push(32u8);
    assert(sep@ =~= comma_space());
    let tokens = split_at_sep(value.as_slice(), sep.as_slice());
    let ghost tv = views(tokens@);
    let gz = "gzip".as_bytes();
    let mut list: Vec<u8> = Vec::new();
    let mut count: usize = 0;
    let mut has_gzip = false;
    let mut k: usize = 0;
    while k < tokens.len()
        invariant
            tv == views(tokens@),
            gz@ == gzip_token(),
            sep@ == comma_space(),
            k <= tokens@.len(),
            count == supported_of(tv.subrange(0, k as int)).len(),
            list@ == join(supported_of(tv.subrange(0, k as int)), comma_space()),
            has_gzip == supported_of(tv.subrange(0, k as int)).contains(gzip_token()),
            count <= k,
        decreases tokens@.len() - k,
    {
        let ghost prev = supported_of(tv.subrange(0, k as int));
        assert(tv.subrange(0, k + 1).drop_last() =~= tv.subrange(0, k as int));
        assert(tv[k as int] == tokens@[k as int]@);
        if bytes_eq(tokens[k].as_slice(), gz) {
            let ghost next = prev.push(tv[k as int]);
            let ghost base = list@;
            if count > 0 {
                append_bytes(&mut list, sep.as_slice());
            }
            append_bytes(&mut list, tokens[k].as_slice());
            proof {
                assert(next.drop_last() =~= prev);
                if count == 0 {
                    assert(base =~= seq![]);
                    assert(list@ =~= next[0]);
                }
                assert(next.last() == gzip_token());
                assert(next.contains(gzip_token()) == true);
                if has_gzip {
                    let w = choose|w: int| 0 <= w < prev.len() && prev[w] == gzip_token();
                    assert(next[w] == gzip_token());
                }
            }
            count = count + 1;
            has_gzip = true;
        } else {
            assert(!is_supported(tv[k as int]));
        }
        k = k + 1;
    }
    assert(tv.subrange(0, k as int) =~= tv);
    if count == 0 {
        None
    } else {
        Some(Negotiated { content_encoding: list, gzip: has_gzip })
    }
}

} // verus!
