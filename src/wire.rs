use crate::address::{
    COLON, CR, LF, check_no_line_break, no_line_break, starts_with_ci, starts_with_ci_at,
};
use crate::request::{HttpMethod, HttpVersion};
use vstd::prelude::*;
use vstd::utf8::*;

verus! {

pub const SPACE: u8 = 32;

pub open spec fn crlf() -> Seq<u8> {
    seq![CR, LF]
}

/// The blank line that ends the header block, with the line break before it.
pub open spec fn terminator() -> Seq<u8> {
    seq![CR, LF, CR, LF]
}

/// One line of the header block: its content and a line break.
pub open spec fn line(content: Seq<u8>) -> Seq<u8> {
    content + crlf()
}

/// `Host: `
pub open spec fn host_label() -> Seq<u8> {
    seq![72u8, 111, 115, 116, 58, 32]
}

/// `User-Agent: `
pub open spec fn agent_label() -> Seq<u8> {
    seq![85u8, 115, 101, 114, 45, 65, 103, 101, 110, 116, 58, 32]
}

/// `Connection: close`
pub open spec fn connection_close() -> Seq<u8> {
    seq![67u8, 111, 110, 110, 101, 99, 116, 105, 111, 110, 58, 32, 99, 108, 111, 115, 101]
}

/// `Content-Length: `
pub open spec fn length_label() -> Seq<u8> {
    seq![67u8, 111, 110, 116, 101, 110, 116, 45, 76, 101, 110, 103, 116, 104, 58, 32]
}

/// The decimal digits of `n`, without leading zeros.
pub open spec fn decimal(n: nat) -> Seq<u8>
    decreases n,
{
    if n < 10 {
        seq![(48 + n) as u8]
    } else {
        decimal(n / 10) + seq![(48 + n % 10) as u8]
    }
}

/// The UTF-8 bytes of each header name and value.
pub open spec fn header_bytes(hs: Seq<(String, String)>) -> Seq<(Seq<u8>, Seq<u8>)> {
    hs.map_values(|h: (String, String)| (encode_utf8(h.0@), encode_utf8(h.1@)))
}


/// `name: value` and a line break.
pub open spec fn header_line(h: (Seq<u8>, Seq<u8>)) -> Seq<u8> {
    line(h.0 + seq![COLON, SPACE] + h.1)
}

/// The caller's header lines, in the order given.
pub open spec fn header_lines(hs: Seq<(Seq<u8>, Seq<u8>)>) -> Seq<u8>
    decreases hs.len(),
{
    if hs.len() == 0 {
        seq![]
    } else {
        header_lines(hs.drop_last()) + header_line(hs.last())
    }
}

/// `<METHOD> <path> <VERSION>`
pub open spec fn request_line(method: HttpMethod, path: Seq<u8>, version: HttpVersion) -> Seq<u8> {
    encode_utf8(method.token()) + seq![SPACE] + path + seq![SPACE] + encode_utf8(version.token())
}

/// Everything before the body: request line, the fixed headers, the caller's headers,
/// the length of the body when there is one, and the blank line.
pub open spec fn header_block(
    method: HttpMethod,
    version: HttpVersion,
    host: Seq<u8>,
    path: Seq<u8>,
    agent: Seq<u8>,
    headers: Seq<(Seq<u8>, Seq<u8>)>,
    body: Option<Seq<u8>>,
) -> Seq<u8> {
    line(request_line(method, path, version)) + line(host_label() + host) + line(agent_label() + agent)
        + line(connection_close()) + header_lines(headers) + match body {
        Some(b) => line(length_label() + decimal(b.len())),
        None => seq![],
    } + crlf()
}

/// The whole request: the header block, then the body bytes if any.
pub open spec fn serialized(
    method: HttpMethod,
    version: HttpVersion,
    host: Seq<u8>,
    path: Seq<u8>,
    agent: Seq<u8>,
    headers: Seq<(Seq<u8>, Seq<u8>)>,
    body: Option<Seq<u8>>,
) -> Seq<u8> {
    header_block(method, version, host, path, agent, headers, body) + match body {
        Some(b) => b,
        None => seq![],
    }
}

/// The UTF-8 bytes of an optional body.
pub open spec fn body_bytes(body: Option<String>) -> Option<Seq<u8>> {
    match body {
        Some(b) => Some(encode_utf8(b@)),
        None => None,
    }
}

/// `s` equals `p` up to ASCII case in `s`.
pub open spec fn eq_ci(s: Seq<u8>, p: Seq<u8>) -> bool {
    s.len() == p.len() && starts_with_ci(s, p)
}

/// `host`
pub open spec fn host_name() -> Seq<u8> {
    seq![104u8, 111, 115, 116]
}

/// `user-agent`
pub open spec fn agent_name() -> Seq<u8> {
    seq![117u8, 115, 101, 114, 45, 97, 103, 101, 110, 116]
}

/// `connection`
pub open spec fn connection_name() -> Seq<u8> {
    seq![99u8, 111, 110, 110, 101, 99, 116, 105, 111, 110]
}

/// `content-length`
pub open spec fn length_name() -> Seq<u8> {
    seq![99u8, 111, 110, 116, 101, 110, 116, 45, 108, 101, 110, 103, 116, 104]
}

/// A header that the engine writes itself and a caller may not supply.
pub open spec fn is_reserved(n: Seq<u8>) -> bool {
    eq_ci(n, host_name()) || eq_ci(n, agent_name()) || eq_ci(n, connection_name()) || eq_ci(
        n,
        length_name(),
    )
}

/// A header name that fits on its line: not empty, no colon, no line break, not reserved.
pub open spec fn valid_name(n: Seq<u8>) -> bool {
    &&& n.len() > 0
    &&& no_line_break(n)
    &&& forall|i: int| 0 <= i < n.len() ==> #[trigger] n[i] != COLON
    &&& !is_reserved(n)
}

/// Every caller header has a valid name and a value without line breaks.
pub open spec fn headers_valid(hs: Seq<(Seq<u8>, Seq<u8>)>) -> bool {
    forall|i: int| 0 <= i < hs.len() ==> valid_name(#[trigger] hs[i].0) && no_line_break(hs[i].1)
}

/// Appends the decimal digits of `n`.
fn push_decimal(out: &mut Vec<u8>, n: usize)
    ensures
        final(out)@ == old(out)@ + decimal(n as nat),
    decreases n,
{
    if n >= 10 {
        push_decimal(out, n / 10);
    }
    out.push(48 + (n % 10) as u8);
    if n >= 10 {
        assert(final(out)@ =~= old(out)@ + decimal(n as nat));
    } else {
        assert(final(out)@ =~= old(out)@ + decimal(n as nat));
    }
}

fn push_bytes(out: &mut Vec<u8>, b: &[u8])
    ensures
        final(out)@ == old(out)@ + b@,
{
    let mut i: usize = 0;
    while i < b.len()
        invariant
            i <= b@.len(),
            out@ == old(out)@ + b@.take(i as int),
        decreases b@.len() - i,
    {
        out.push(b[i]);
        i = i + 1;
        assert(out@ =~= old(out)@ + b@.take(i as int));
    }
    assert(b@.take(i as int) =~= b@);
}

fn push_crlf(out: &mut Vec<u8>)
    ensures
        final(out)@ == old(out)@ + crlf(),
{
    out.push(CR);
    out.push(LF);
    assert(final(out)@ =~= old(out)@ + crlf());
}

/// Writes the request: request line, `Host`, `User-Agent`, `Connection: close`, the
/// caller's headers in order, `Content-Length` and the body when there is a body, and
/// the blank line that ends the header block.
pub fn serialize_request(
    method: HttpMethod,
    version: HttpVersion,
    host: &[u8],
    path: &[u8],
    user_agent: &str,
    headers: &Vec<(String, String)>,
    body: &Option<String>,
) -> (r: Vec<u8>)
    ensures
        r@ == serialized(
            method,
            version,
            host@,
            path@,
            encode_utf8(user_agent@),
            header_bytes(headers@),
            body_bytes(*body),
        ),
{
    let mut out: Vec<u8> = Vec::new();
    push_bytes(&mut out, method.token_bytes());
    out.push(SPACE);
    push_bytes(&mut out, path);
    out.push(SPACE);
    push_bytes(&mut out, version.token_bytes());
    push_crlf(&mut out);
    assert(out@ =~= line(request_line(method, path@, version)));
    let ghost l1 = out@;
    let host_label_v: Vec<u8> = vec![72u8, 111, 115, 116, 58, 32];
    push_bytes(&mut out, host_label_v.as_slice());
    push_bytes(&mut out, host);
    push_crlf(&mut out);
    assert(out@ =~= l1 + line(host_label() + host@));
    let ghost l2 = out@;
    let agent_label_v: Vec<u8> = vec![85u8, 115, 101, 114, 45, 65, 103, 101, 110, 116, 58, 32];
    push_bytes(&mut out, agent_label_v.as_slice());
    push_bytes(&mut out, user_agent.as_bytes());
    push_crlf(&mut out);
    assert(out@ =~= l2 + line(agent_label() + encode_utf8(user_agent@)));
    let ghost l3 = out@;
    let close_v: Vec<u8> = vec![
        67u8, 111, 110, 110, 101, 99, 116, 105, 111, 110, 58, 32, 99, 108, 111, 115, 101,
    ];
    push_bytes(&mut out, close_v.as_slice());
    push_crlf(&mut out);
    assert(out@ =~= l3 + line(connection_close()));
    let ghost l4 = out@;
    let ghost hb = header_bytes(headers@);
    let mut i: usize = 0;
    while i < headers.len()
        invariant
            i <= headers@.len(),
            hb == header_bytes(headers@),
            out@ == l4 + header_lines(hb.take(i as int)),
        decreases headers@.len() - i,
    {
        let ghost before = out@;
        push_bytes(&mut out, headers[i].0.as_str().as_bytes());
        out.push(COLON);
        out.push(SPACE);
        push_bytes(&mut out, headers[i].1.as_str().as_bytes());
        push_crlf(&mut out);
        proof {
            assert(hb.take(i + 1).drop_last() =~= hb.take(i as int));
            assert(hb[i as int] == (encode_utf8(headers@[i as int].0@), encode_utf8(headers@[i as int].1@)));
            assert(out@ =~= before + header_line(hb[i as int]));
        }
        i = i + 1;
    }
    assert(hb.take(i as int) =~= hb);
    let ghost l5 = out@;
    match body {
        Some(b) => {
            let bytes = b.as_str().as_bytes();
            let length_label_v: Vec<u8> = vec![
                67u8, 111, 110, 116, 101, 110, 116, 45, 76, 101, 110, 103, 116, 104, 58, 32,
            ];
            push_bytes(&mut out, length_label_v.as_slice());
            push_decimal(&mut out, bytes.len());
            push_crlf(&mut out);
            push_crlf(&mut out);
            push_bytes(&mut out, bytes);
            assert(out@ =~= l5 + line(length_label() + decimal(bytes@.len())) + crlf() + bytes@);
        },
        None => {
            push_crlf(&mut out);
        },
    }
    assert(out@ =~= serialized(
        method,
        version,
        host@,
        path@,
        encode_utf8(user_agent@),
        hb,
        body_bytes(*body),
    ));
    out
}


fn is_eq_ci(n: &[u8], p: &Vec<u8>) -> (r: bool)
    ensures
        r == eq_ci(n@, p@),
{
    assert(n@.subrange(0, n@.len() as int) =~= n@);
    n.len() == p.len() && starts_with_ci_at(n, 0, n.len(), p)
}

fn check_name(n: &[u8]) -> (r: bool)
    ensures
        r == valid_name(n@),
{
    if n.len() == 0 || !check_no_line_break(n) {
        return false;
    }
    let mut i: usize = 0;
    while i < n.len()
        invariant
            i <= n@.len(),
            forall|j: int| 0 <= j < i ==> #[trigger] n@[j] != COLON,
        decreases n@.len() - i,
    {
        if n[i] == COLON {
            return false;
        }
        i = i + 1;
    }
    let host: Vec<u8> = vec![104u8, 111, 115, 116];
    let agent: Vec<u8> = vec![117u8, 115, 101, 114, 45, 97, 103, 101, 110, 116];
    let connection: Vec<u8> = vec![99u8, 111, 110, 110, 101, 99, 116, 105, 111, 110];
    let length: Vec<u8> = vec![99u8, 111, 110, 116, 101, 110, 116, 45, 108, 101, 110, 103, 116, 104];
    assert(host@ =~= host_name());
    assert(agent@ =~= agent_name());
    assert(connection@ =~= connection_name());
    assert(length@ =~= length_name());
    !(is_eq_ci(n, &host) || is_eq_ci(n, &agent) || is_eq_ci(n, &connection) || is_eq_ci(n, &length))
}

/// Whether every header has a valid name and a value without line breaks.
pub fn check_headers(headers: &Vec<(String, String)>) -> (r: bool)
    ensures
        r == headers_valid(header_bytes(headers@)),
{
    let ghost hb = header_bytes(headers@);
    let mut i: usize = 0;
    while i < headers.len()
        invariant
            i <= headers@.len(),
            hb == header_bytes(headers@),
            forall|j: int| 0 <= j < i ==> valid_name(#[trigger] hb[j].0) && no_line_break(hb[j].1),
        decreases headers@.len() - i,
    {
        let name = headers[i].0.as_str().as_bytes();
        let value = headers[i].1.as_str().as_bytes();
        assert(hb[i as int] == (name@, value@));
        if !check_name(name) || !check_no_line_break(value) {
            assert(!headers_valid(hb)) by {
                if headers_valid(hb) {
                    assert(valid_name(hb[i as int].0) && no_line_break(hb[i as int].1));
                }
            }
            return false;
        }
        assert(hb[i as int].0 == name@ && hb[i as int].1 == value@);
        assert(valid_name(hb[i as int].0) && no_line_break(hb[i as int].1));
        assert(forall|j: int|
            0 <= j < i + 1 ==> valid_name(#[trigger] hb[j].0) && no_line_break(hb[j].1));
        i = i + 1;
    }
    true
}

} // verus!
