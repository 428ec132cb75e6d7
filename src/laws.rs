use vstd::prelude::*;
use vstd::string::StringSliceAdditionalSpecFns;

use crate::bytes::{lemma_last_piece, lemma_split_whole, occurs_at};
use crate::encoding::{
    accept_encoding, comma_space, gzip_of, gzip_token, join, negotiated_of, offered,
    supported_of,
};
use crate::request::{has_two_words, header_value, lines, RequestModel};
use crate::response::{decimal, ResponseModel, Status};
use crate::router::{
    action_of, answer_of, content_length, content_of, content_type, contains, echo_of, empty_of,
    encoded_of, file_path_of, file_read_of, file_write_of, last_segment, octet_stream, route_of,
    text_plain, ActionModel, Route,
};

verus! {

broadcast use vstd::string::is_ascii_spec_bytes;

/// `t` holds no `/`: it is a single path segment.
pub open spec fn is_segment(t: Seq<u8>) -> bool {
    forall|k: int| 0 <= k < t.len() ==> t[k] != 47u8
}

/// The plain-text answer to an echo of `text`.
pub open spec fn plain_echo(text: Seq<u8>) -> ResponseModel {
    ResponseModel {
        status: Status::Success,
        headers: seq![(content_type(), text_plain()), (content_length(), decimal(text.len()))],
        body: text,
    }
}

proof fn lemma_echo_path(text: Seq<u8>)
    requires
        is_segment(text),
    ensures
        route_of("/echo/".spec_bytes() + text) == Route::Echo,
        last_segment("/echo/".spec_bytes() + text) == text,
{
    reveal_strlit("/echo/");
    reveal_strlit("/");
    let prefix = "/echo/".spec_bytes();
    assert(vstd::string::is_ascii("/echo/"));
    assert(vstd::string::is_ascii("/"));
    assert(prefix =~= seq![47u8, 101u8, 99u8, 104u8, 111u8, 47u8]);
    let path = prefix + text;
    assert(path.len() != "/".spec_bytes().len());
    assert(path.subrange(0, 6) =~= prefix);
    assert(occurs_at(path, 0, prefix));
    assert(contains(path, prefix));
    let sep = seq![47u8];
    assert forall|k: int| 6 <= k < path.len() implies !occurs_at(path, k, sep) by {
        if occurs_at(path, k, sep) {
            assert(path.subrange(k, k + 1)[0] == path[k]);
            assert(text[k - 6] == path[k]);
        }
    }
    assert(path.subrange(5, 6)[0] == path[5]);
    assert(path.subrange(5, 6) =~= sep);
    lemma_last_piece(path, 0, 6, sep);
    assert(path.subrange(6, path.len() as int) =~= text);
}

/// What a single token offers: itself where it is supported, else nothing.
proof fn lemma_single_token(t: Seq<u8>)
    requires
        forall|k: int| 0 <= k < t.len() ==> t[k] != 44u8,
    ensures
        offered(Some(t)) == (if t == gzip_token() { seq![t] } else { Seq::<Seq<u8>>::empty() }),
{
    assert forall|k: int| 0 <= k < t.len() implies !occurs_at(t, k, comma_space()) by {
        if occurs_at(t, k, comma_space()) {
            assert(t.subrange(k, k + 2)[0] == t[k]);
        }
    }
    lemma_split_whole(t, comma_space());
    let ts = seq![t];
    assert(ts.drop_last() =~= Seq::<Seq<u8>>::empty());
    assert(ts.last() == t);
    assert(supported_of(Seq::<Seq<u8>>::empty()) =~= Seq::<Seq<u8>>::empty());
    assert(supported_of(ts.drop_last()) =~= Seq::<Seq<u8>>::empty());
    if t == gzip_token() {
        assert(supported_of(ts) =~= seq![t]);
    } else {
        assert(supported_of(ts) =~= Seq::<Seq<u8>>::empty());
    }
}

/// A `GET` of `/echo/<text>` without `Accept-Encoding` is answered with status
/// 200, `Content-Type: text/plain`, the length of `text`, and `text` itself.
pub proof fn law_echo_without_encoding(req: RequestModel, dir: Seq<u8>, text: Seq<u8>)
    requires
        req.method == "GET".spec_bytes(),
        req.path == "/echo/".spec_bytes() + text,
        is_segment(text),
        header_value(req.headers, accept_encoding()) is None,
    ensures
        action_of(req, dir) == ActionModel::Respond(plain_echo(text)),
{
    lemma_echo_path(text);
    assert(offered(None) =~= Seq::<Seq<u8>>::empty());
    assert(negotiated_of(offered(None)) is None);
}

/// A `GET` of `/echo/<text>` with `Accept-Encoding: gzip` is answered with
/// status 200, `Content-Encoding: gzip`, and the gzip form of `text` as the
/// body, its length as `Content-Length`.
pub proof fn law_echo_gzip(req: RequestModel, dir: Seq<u8>, text: Seq<u8>)
    requires
        req.method == "GET".spec_bytes(),
        req.path == "/echo/".spec_bytes() + text,
        is_segment(text),
        header_value(req.headers, accept_encoding()) == Some(gzip_token()),
    ensures
        action_of(req, dir) == ActionModel::Respond(
            encoded_of(gzip_token(), gzip_of(text).len(), gzip_of(text)),
        ),
{
    lemma_echo_path(text);
    reveal_strlit("gzip");
    assert(vstd::string::is_ascii("gzip"));
    let g = gzip_token();
    assert(g =~= seq![103u8, 122u8, 105u8, 112u8]);
    lemma_single_token(g);
    let ts = seq![g];
    assert(ts[0] == g);
    assert(ts.contains(g));
    assert(join(ts, comma_space()) == g);
    assert(echo_of(text, ts) == encoded_of(g, gzip_of(text).len(), gzip_of(text)));
}

/// A `GET` of `/echo/<text>` with `Accept-Encoding: identity`, which is not
/// supported, is answered as if no encoding were offered.
pub proof fn law_echo_identity(req: RequestModel, dir: Seq<u8>, text: Seq<u8>)
    requires
        req.method == "GET".spec_bytes(),
        req.path == "/echo/".spec_bytes() + text,
        is_segment(text),
        header_value(req.headers, accept_encoding()) == Some("identity".spec_bytes()),
    ensures
        action_of(req, dir) == ActionModel::Respond(plain_echo(text)),
{
    lemma_echo_path(text);
    reveal_strlit("identity");
    reveal_strlit("gzip");
    assert(vstd::string::is_ascii("identity"));
    assert(vstd::string::is_ascii("gzip"));
    let t = "identity".spec_bytes();
    assert(t =~= seq![105u8, 100u8, 101u8, 110u8, 116u8, 105u8, 116u8, 121u8]);
    assert(t.len() != gzip_token().len());
    lemma_single_token(t);
}

/// A request for `/` is answered with status 200 and an empty body, whatever
/// its method and headers.
pub proof fn law_root(req: RequestModel, dir: Seq<u8>)
    requires
        req.path == "/".spec_bytes(),
    ensures
        action_of(req, dir) == ActionModel::Respond(empty_of(Status::Success)),
{
}

/// A `POST` and a `GET` of the same `/files/` path name one file: the `POST`
/// writes its body there and is answered 201 once written, and the `GET` reads
/// it back and answers 200 with those bytes.
pub proof fn law_write_then_read(post: RequestModel, get: RequestModel, dir: Seq<u8>)
    requires
        post.method == "POST".spec_bytes(),
        get.method == "GET".spec_bytes(),
        post.path == get.path,
        route_of(post.path) == Route::Files,
    ensures
        action_of(post, dir) == ActionModel::WriteFile(
            file_path_of(dir, last_segment(post.path)),
            post.body,
        ),
        action_of(get, dir) == ActionModel::ReadFile(file_path_of(dir, last_segment(get.path))),
        file_write_of(true) == empty_of(Status::Created),
        file_read_of(Some(post.body)) == content_of(octet_stream(), post.body),
{
    reveal_strlit("GET");
    reveal_strlit("POST");
    assert(vstd::string::is_ascii("GET"));
    assert(vstd::string::is_ascii("POST"));
    assert("GET".spec_bytes().len() != "POST".spec_bytes().len());
}

/// The answers to `/` and to `/user-agent` need neither the file system nor the
/// base directory: the same request is answered the same way every time.
pub proof fn law_repeatable(req: RequestModel, dir1: Seq<u8>, dir2: Seq<u8>)
    requires
        req.path == "/".spec_bytes() || req.path == "/user-agent".spec_bytes(),
    ensures
        action_of(req, dir1) == action_of(req, dir2),
        action_of(req, dir1) is Respond,
{
    reveal_strlit("/");
    reveal_strlit("/user-agent");
    reveal_strlit("/echo/");
    assert(vstd::string::is_ascii("/user-agent"));
    assert(vstd::string::is_ascii("/echo/"));
    if req.path == "/user-agent".spec_bytes() && req.path != "/".spec_bytes() {
        let p = req.path;
        let e = "/echo/".spec_bytes();
        assert(p =~= seq![47u8, 117u8, 115u8, 101u8, 114u8, 45u8, 97u8, 103u8, 101u8, 110u8, 116u8]);
        assert(e =~= seq![47u8, 101u8, 99u8, 104u8, 111u8, 47u8]);
        assert forall|k: int| 0 <= k < p.len() implies !occurs_at(p, k, e) by {
            if occurs_at(p, k, e) {
                assert(p.subrange(k, k + 6)[5] == p[k + 5]);
                assert(p.subrange(k, k + 6)[0] == p[k]);
            }
        }
        crate::bytes::lemma_find_sep_none(p, 0, e);
        assert(route_of(p) == Route::UserAgent);
    }
}

/// Bytes that hold no line, or whose first line has at least two
/// whitespace-separated words, are never answered with 400: the answer is a
/// file to read or write, or a response of status 200, 404 or 501.
pub proof fn law_two_words_never_bad_request(buf: Seq<u8>, dir: Seq<u8>)
    requires
        lines(buf).len() == 0 || has_two_words(lines(buf)[0]),
    ensures
        match answer_of(buf, dir) {
            ActionModel::Respond(r) => r.status == Status::Success || r.status == Status::NotFound
                || r.status == Status::NotImplemented,
            _ => true,
        },
{
}

/// Empty bytes read as a `GET` of `/` and are answered with status 200 and an
/// empty body.
pub proof fn law_empty_buffer_is_root(dir: Seq<u8>)
    ensures
        answer_of(Seq::<u8>::empty(), dir) == ActionModel::Respond(empty_of(Status::Success)),
{
    let e = Seq::<u8>::empty();
    let p = crate::bytes::split(e, seq![10u8]);
    assert(e.subrange(0, 0) =~= e);
    assert(p == seq![e]);
    assert(p.drop_last() =~= Seq::<Seq<u8>>::empty());
    assert(lines(e) =~= Seq::<Seq<u8>>::empty());
}

} // verus!
