use vstd::prelude::*;
use vstd::string::StringSliceAdditionalSpecFns;

use crate::bytes::{bytes_eq, find_from, find_sep, split, split_at_sep, views};
use crate::encoding::{gzip, gzip_of, negotiate, negotiated_of, offered, offered_by, Negotiated};
use crate::request::{header_value, opt_view, parse_request, request_of, Request, RequestModel};
use crate::response::{
    append_bytes, copy_bytes, decimal, decimal_bytes, header_pair, Response, ResponseModel,
    Status,
};

verus! {

/// Where the files of `/files/` are kept.
pub struct Config {
    pub base_directory: Vec<u8>,
}

pub open spec fn default_directory() -> Seq<u8> {
    "/tmp".spec_bytes()
}

/// The base directory that command-line arguments ask for: the third of
/// exactly three arguments whose second is `--directory`, else `/tmp`.
pub open spec fn directory_of(args: Seq<Seq<u8>>) -> Seq<u8> {
    if args.len() == 3 && args[1] == "--directory".spec_bytes() {
        args[2]
    } else {
        default_directory()
    }
}

impl Config {
    /// The configuration that the command-line arguments ask for.
    pub fn from_args(args: &Vec<Vec<u8>>) -> (r: Config)
        ensures
            r.base_directory@ == directory_of(views(args@)),
    {
        if args.len() == 3 && bytes_eq(args[1].as_slice(), "--directory".as_bytes()) {
            assert(views(args@)[1] == args@[1]@ && views(args@)[2] == args@[2]@);
            Config { base_directory: copy_bytes(&args[2]) }
        } else {
            if args.len() == 3 {
                assert(views(args@)[1] == args@[1]@);
            }
            Config { base_directory: vstd::slice::slice_to_vec("/tmp".as_bytes()) }
        }
    }
}

/// The behaviours a path can lead to.
#[derive(Debug, Clone, Copy, PartialEq, Eq, Structural)]
pub enum Route {
    Root,
    Echo,
    UserAgent,
    Files,
    Unknown,
}

/// `pat` occurs somewhere in `s`.
pub open spec fn contains(s: Seq<u8>, pat: Seq<u8>) -> bool {
    find_sep(s, 0, pat) < s.len()
}

/// The part of `path` after its last `/`.
pub open spec fn last_segment(path: Seq<u8>) -> Seq<u8> {
    split(path, seq![47u8]).last()
}

/// The route of a path: `/` itself, then any path holding `/echo/`, then
/// `/user-agent` itself, then any path holding `/files/`.
pub open spec fn route_of(path: Seq<u8>) -> Route {
    if path == "/".spec_bytes() {
        Route::Root
    } else if contains(path, "/echo/".spec_bytes()) {
        Route::Echo
    } else if path == "/user-agent".spec_bytes() {
        Route::UserAgent
    } else if contains(path, "/files/".spec_bytes()) {
        Route::Files
    } else {
        Route::Unknown
    }
}

/// What the server does with a request: answer it at once, or first read or
/// write a file.
pub enum Action {
    Respond(Response),
    /// Read the file at this path and answer with `file_read_response`.
    ReadFile(Vec<u8>),
    /// Write these bytes to the file at this path and answer with
    /// `file_write_response`.
    WriteFile(Vec<u8>, Vec<u8>),
}

pub enum ActionModel {
    Respond(ResponseModel),
    ReadFile(Seq<u8>),
    WriteFile(Seq<u8>, Seq<u8>),
}

impl View for Action {
    type V = ActionModel;

    open spec fn view(&self) -> ActionModel {
        match self {
            Action::Respond(r) => ActionModel::Respond(r@),
            Action::ReadFile(p) => ActionModel::ReadFile(p@),
            Action::WriteFile(p, b) => ActionModel::WriteFile(p@, b@),
        }
    }
}

pub open spec fn empty_of(status: Status) -> ResponseModel {
    ResponseModel { status, headers: seq![], body: seq![] }
}

pub open spec fn content_type() -> Seq<u8> {
    "Content-Type".spec_bytes()
}

pub open spec fn content_length() -> Seq<u8> {
    "Content-Length".spec_bytes()
}

pub open spec fn content_encoding() -> Seq<u8> {
    "Content-Encoding".spec_bytes()
}

pub open spec fn text_plain() -> Seq<u8> {
    "text/plain".spec_bytes()
}

pub open spec fn octet_stream() -> Seq<u8> {
    "application/octet-stream".spec_bytes()
}

/// A 200 response carrying `body` as `ct`, with its length.
pub open spec fn content_of(ct: Seq<u8>, body: Seq<u8>) -> ResponseModel {
    ResponseModel {
        status: Status::Success,
        headers: seq![(content_type(), ct), (content_length(), decimal(body.len()))],
        body,
    }
}

/// A 200 `text/plain` response with `body`, its `Content-Length` set to
/// `length`, and a `Content-Encoding` of `encoding`.
pub open spec fn encoded_of(encoding: Seq<u8>, length: nat, body: Seq<u8>) -> ResponseModel {
    ResponseModel {
        status: Status::Success,
        headers: seq![
            (content_type(), text_plain()),
            (content_length(), decimal(length)),
            (content_encoding(), encoding),
        ],
        body,
    }
}

/// The answer to `/echo/` with `text`, for the supported encodings offered.
/// With gzip among them the body is compressed; another supported encoding is
/// only named in the headers.
pub open spec fn echo_of(text: Seq<u8>, offered: Seq<Seq<u8>>) -> ResponseModel {
    match negotiated_of(offered) {
        None => content_of(text_plain(), text),
        Some((list, true)) => encoded_of(list, gzip_of(text).len(), gzip_of(text)),
        Some((list, false)) => encoded_of(list, text.len(), text),
    }
}

pub open spec fn user_agent() -> Seq<u8> {
    "User-Agent".spec_bytes()
}

/// The value of `User-Agent`, empty where there is none.
pub open spec fn user_agent_of(req: RequestModel) -> Seq<u8> {
    match header_value(req.headers, user_agent()) {
        Some(v) => v,
        None => seq![],
    }
}

/// Where the file `name` lies under `dir`.
pub open spec fn file_path_of(dir: Seq<u8>, name: Seq<u8>) -> Seq<u8> {
    dir + seq![47u8] + name
}

/// The answer to a read of a file: its content, or 404 where it could not be
/// read.
pub open spec fn file_read_of(content: Option<Seq<u8>>) -> ResponseModel {
    match content {
        Some(c) => content_of(octet_stream(), c),
        None => empty_of(Status::NotFound),
    }
}

/// The answer to a write of a file: 201, or 500 where it failed.
pub open spec fn file_write_of(written: bool) -> ResponseModel {
    if written {
        empty_of(Status::Created)
    } else {
        empty_of(Status::ServerError)
    }
}

/// What the server does with a request, given its base directory.
pub open spec fn action_of(req: RequestModel, dir: Seq<u8>) -> ActionModel {
    match route_of(req.path) {
        Route::Root => ActionModel::Respond(empty_of(Status::Success)),
        Route::Echo => ActionModel::Respond(
            echo_of(last_segment(req.path), offered_by(req.headers)),
        ),
        Route::UserAgent => ActionModel::Respond(content_of(text_plain(), user_agent_of(req))),
        Route::Files => {
            let path = file_path_of(dir, last_segment(req.path));
            if req.method == "GET".spec_bytes() {
                ActionModel::ReadFile(path)
            } else if req.method == "POST".spec_bytes() {
                ActionModel::WriteFile(path, req.body)
            } else {
                ActionModel::Respond(empty_of(Status::NotImplemented))
            }
        },
        Route::Unknown => ActionModel::Respond(empty_of(Status::NotFound)),
    }
}

/// What the server does with the bytes received on a connection: 400 where
/// they hold no request.
pub open spec fn answer_of(buf: Seq<u8>, dir: Seq<u8>) -> ActionModel {
    match request_of(buf) {
        Some(q) => action_of(q, dir),
        None => ActionModel::Respond(empty_of(Status::BadRequest)),
    }
}

/// Whether `pat` occurs in `s`.
fn contains_exec(s: &[u8], pat: &[u8]) -> (r: bool)
    ensures
        r == contains(s@, pat@),
{
    find_from(s, 0, pat) < s.len()
}

/// The route of a path.
pub fn route(path: &[u8]) -> (r: Route)
    ensures
        r == route_of(path@),
{
    if bytes_eq(path, "/".as_bytes()) {
        Route::Root
    } else if contains_exec(path, "/echo/".as_bytes()) {
        Route::Echo
    } else if bytes_eq(path, "/user-agent".as_bytes()) {
        Route::UserAgent
    } else if contains_exec(path, "/files/".as_bytes()) {
        Route::Files
    } else {
        Route::Unknown
    }
}

/// The part of `path` after its last `/`.
pub fn last_segment_exec(path: &[u8]) -> (r: Vec<u8>)
    ensures
        r@ == last_segment(path@),
{
    let mut sep: Vec<u8> = Vec::new();
    sep.push(47u8);
    assert(sep@ =~= seq![47u8]);
    let pieces = split_at_sep(path, sep.as_slice());
    let n = pieces.len();
    assert(views(pieces@).last() == pieces@[n - 1]@);
    copy_bytes(&pieces[n - 1])
}

/// A 200 response carrying `body` as `ct`, with its length.
pub fn content_response(ct: &str, body: Vec<u8>) -> (r: Response)
    ensures
        r@ == content_of(ct.spec_bytes(), body@),
{
    let mut headers = Vec::new();
    headers.push(header_pair("Content-Type", vstd::slice::slice_to_vec(ct.as_bytes())));
    headers.push(header_pair("Content-Length", decimal_bytes(body.len())));
    let r = Response { status: Status::Success, headers, body };
    assert(r@.headers =~= content_of(ct.spec_bytes(), body@).headers);
    r
}

/// A 200 `text/plain` response with `body`, a `Content-Length` of `length`
/// and a `Content-Encoding` of `encoding`.
fn encoded_response(encoding: Vec<u8>, length: usize, body: Vec<u8>) -> (r: Response)
    ensures
        r@ == encoded_of(encoding@, length as nat, body@),
{
    let mut headers = Vec::new();
    headers.push(header_pair("Content-Type", vstd::slice::slice_to_vec("text/plain".as_bytes())));
    headers.push(header_pair("Content-Length", decimal_bytes(length)));
    headers.push(header_pair("Content-Encoding", encoding));
    let r = Response { status: Status::Success, headers, body };
    assert(r@.headers =~= encoded_of(encoding@, length as nat, body@).headers);
    r
}

/// The answer to `/echo/` once the body has been gzip-compressed: `compressed`
/// as the body, its length, and `encoding` as the `Content-Encoding`.
pub fn gzip_echo_response(encoding: Vec<u8>, compressed: Vec<u8>) -> (r: Response)
    ensures
        r@ == encoded_of(encoding@, compressed@.len(), compressed@),
{
    let n = compressed.len();
    encoded_response(encoding, n, compressed)
}

/// The answer to `/echo/` with `text`, for the value of `Accept-Encoding` if
/// there is one.
pub fn echo_response(text: &[u8], accept: &Option<Vec<u8>>) -> (r: Response)
    ensures
        r@ == echo_of(text@, offered(opt_view(*accept))),
{
    let body = vstd::slice::slice_to_vec(text);
    match negotiate(accept) {
        None => content_response("text/plain", body),
        Some(Negotiated { content_encoding, gzip: true }) => {
            let compressed = gzip(text);
            gzip_echo_response(content_encoding, compressed)
        },
        Some(Negotiated { content_encoding, gzip: false }) => {
            let n = body.len();
            encoded_response(content_encoding, n, body)
        },
    }
}

/// The answer to a read of a file: its content, or 404 where it could not be
/// read.
pub fn file_read_response(content: Option<Vec<u8>>) -> (r: Response)
    ensures
        r@ == file_read_of(opt_view(content)),
{
    match content {
        Some(c) => content_response("application/octet-stream", c),
        None => Response::empty(Status::NotFound),
    }
}

/// The answer to a write of a file: 201, or 500 where it failed.
pub fn file_write_response(written: bool) -> (r: Response)
    ensures
        r@ == file_write_of(written),
{
    if written {
        Response::empty(Status::Created)
    } else {
        Response::empty(Status::ServerError)
    }
}

/// Where the file `name` lies under `dir`.
pub fn file_path(dir: &[u8], name: &[u8]) -> (r: Vec<u8>)
    ensures
        r@ == file_path_of(dir@, name@),
{
    let mut out = vstd::slice::slice_to_vec(dir);
    out.push(47u8);
    append_bytes(&mut out, name);
    out
}

/// What the server does with a request.
pub fn dispatch(req: &Request, config: &Config) -> (r: Action)
    ensures
        r@ == action_of(req@, config.base_directory@),
{
    match route(req.path.as_slice()) {
        Route::Root => Action::Respond(Response::empty(Status::Success)),
        Route::Echo => {
            let text = last_segment_exec(req.path.as_slice());
            let accept = req.header("Accept-Encoding".as_bytes());
            Action::Respond(echo_response(text.as_slice(), &accept))
        },
        Route::UserAgent => {
            let agent = match req.header("User-Agent".as_bytes()) {
                Some(v) => v,
                None => Vec::new(),
            };
            assert(agent@ =~= user_agent_of(req@));
            Action::Respond(content_response("text/plain", agent))
        },
        Route::Files => {
            let name = last_segment_exec(req.path.as_slice());
            let path = file_path(config.base_directory.as_slice(), name.as_slice());
            if bytes_eq(req.method.as_slice(), "GET".as_bytes()) {
                Action::ReadFile(path)
            } else if bytes_eq(req.method.as_slice(), "POST".as_bytes()) {
                Action::WriteFile(path, copy_bytes(&req.body))
            } else {
                Action::Respond(Response::empty(Status::NotImplemented))
            }
        },
        Route::Unknown => Action::Respond(Response::empty(Status::NotFound)),
    }
}

/// What the server does with the bytes received on a connection.
pub fn answer(buf: &[u8], config: &Config) -> (r: Action)
    ensures
        r@ == answer_of(buf@, config.base_directory@),
{
    match parse_request(buf) {
        Ok(req) => dispatch(&req, config),
        Err(_) => Action::Respond(Response::empty(Status::BadRequest)),
    }
}

} // verus!
