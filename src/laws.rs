use crate::address::{
    lemma_first_index, lemma_last_index,
    COLON, CR, LF, SLASH, after_scheme, all_digits, digits_value, http_scheme,
    https_scheme, is_digit, is_space, lower, no_line_break, resolve, scheme_len,
    starts_with_ci, trim_back, trim_front, trimmed,
};
use crate::exchange::prepared;
use crate::request::{HttpMethod, HttpRequest, HttpVersion};
use crate::wire::{
    SPACE, agent_label, body_bytes, connection_close, crlf, decimal, header_block, header_bytes,
    header_lines, headers_valid, host_label, length_label, line, request_line, serialized,
    terminator, valid_name,
};
use vstd::prelude::*;
use vstd::utf8::*;

verus! {

/// No line feed in `s` is directly followed by a carriage return.
pub open spec fn no_lf_cr(s: Seq<u8>) -> bool {
    forall|j: int| 0 <= j < s.len() - 1 ==> !(#[trigger] s[j] == LF && s[j + 1] == CR)
}

/// `s` is a run of whole lines with no blank line among them.
pub open spec fn lines_ok(s: Seq<u8>) -> bool {
    no_lf_cr(s) && (s.len() == 0 || s.last() == LF)
}

/// `content` can stand as a line of its own: not empty, not starting a blank line,
/// no line feed.
pub open spec fn line_safe(content: Seq<u8>) -> bool {
    &&& content.len() > 0
    &&& content[0] != CR
    &&& forall|i: int| 0 <= i < content.len() ==> #[trigger] content[i] != LF
}

/// `t` occurs in `s` starting at `i`.
pub open spec fn occurs_at(s: Seq<u8>, t: Seq<u8>, i: int) -> bool {
    0 <= i && i + t.len() <= s.len() && s.subrange(i, i + t.len()) == t
}

proof fn lemma_append_line(prefix: Seq<u8>, content: Seq<u8>)
    requires
        lines_ok(prefix),
        line_safe(content),
    ensures
        lines_ok(prefix + line(content)),
{
    let t = prefix + line(content);
    let p = prefix.len() as int;
    let c = content.len() as int;
    assert(t.len() == p + c + 2);
    assert forall|j: int| 0 <= j < t.len() - 1 implies !(#[trigger] t[j] == LF && t[j + 1] == CR) by {
        if j < p - 1 {
            assert(t[j] == prefix[j] && t[j + 1] == prefix[j + 1]);
        } else if j == p - 1 {
            assert(t[j + 1] == content[0]);
        } else if j < p + c {
            assert(t[j] == content[j - p]);
        } else {
            assert(t[j] == CR);
        }
    }
    assert(t.last() == LF);
}

proof fn lemma_header_lines(prefix: Seq<u8>, hs: Seq<(Seq<u8>, Seq<u8>)>)
    requires
        lines_ok(prefix),
        headers_valid(hs),
    ensures
        lines_ok(prefix + header_lines(hs)),
    decreases hs.len(),
{
    if hs.len() == 0 {
        assert(prefix + header_lines(hs) =~= prefix);
    } else {
        let init = hs.drop_last();
        assert(headers_valid(init)) by {
            assert forall|i: int| 0 <= i < init.len() implies valid_name(#[trigger] init[i].0)
                && no_line_break(init[i].1) by {
                assert(init[i] == hs[i]);
                assert(valid_name(hs[i].0));
            }
        }
        lemma_header_lines(prefix, init);
        let h = hs.last();
        assert(valid_name(hs[hs.len() - 1].0) && no_line_break(hs[hs.len() - 1].1));
        let content = h.0 + seq![COLON, SPACE] + h.1;
        assert(line_safe(content)) by {
            assert(content[0] == h.0[0]);
            assert forall|i: int| 0 <= i < content.len() implies #[trigger] content[i] != LF by {
                if i < h.0.len() {
                    assert(content[i] == h.0[i]);
                } else if i >= h.0.len() + 2 {
                    assert(content[i] == h.1[i - h.0.len() - 2]);
                }
            }
        }
        lemma_append_line(prefix + header_lines(init), content);
        assert(prefix + header_lines(hs) =~= prefix + header_lines(init) + line(content));
    }
}

proof fn lemma_decimal(n: nat)
    ensures
        decimal(n).len() > 0,
        all_digits(decimal(n)),
        digits_value(decimal(n)) == n,
    decreases n,
{
    if n >= 10 {
        lemma_decimal(n / 10);
        let d = decimal(n);
        assert(d.drop_last() =~= decimal(n / 10));
        assert(all_digits(d)) by {
            assert forall|i: int| 0 <= i < d.len() implies is_digit(#[trigger] d[i]) by {
                if i < d.len() - 1 {
                    assert(d[i] == decimal(n / 10)[i]);
                }
            }
        }
        assert(d.last() == (48 + n % 10) as u8);
        assert((d.last() - 48) as nat == n % 10);
        assert(digits_value(d) == digits_value(decimal(n / 10)) * 10 + (d.last() - 48) as nat);
        assert((n / 10) * 10 + n % 10 == n) by (nonlinear_arith);
    } else {
        let d = decimal(n);
        assert(d.drop_last() =~= Seq::<u8>::empty());
        assert(d.last() == (48 + n) as u8);
        assert(digits_value(d) == digits_value(d.drop_last()) * 10 + (d.last() - 48) as nat);
        assert(digits_value(Seq::<u8>::empty()) == 0);
    }
}

/// Every line of the header block but the blank one at its end is a line of content.
proof fn lemma_block_lines(
    method: HttpMethod,
    version: HttpVersion,
    host: Seq<u8>,
    path: Seq<u8>,
    agent: Seq<u8>,
    headers: Seq<(Seq<u8>, Seq<u8>)>,
    body: Option<Seq<u8>>,
) -> (lines: Seq<u8>)
    requires
        no_line_break(host),
        no_line_break(path),
        no_line_break(agent),
        headers_valid(headers),
    ensures
        lines.len() > 0,
        lines_ok(lines),
        header_block(method, version, host, path, agent, headers, body) == lines + crlf(),
{
    method.lemma_token_printable();
    version.lemma_token_printable();
    let m = encode_utf8(method.token());
    let v = encode_utf8(version.token());
    let rl = request_line(method, path, version);
    assert(line_safe(rl)) by {
        assert(rl[0] == m[0]);
        assert forall|i: int| 0 <= i < rl.len() implies #[trigger] rl[i] != LF by {
            if i < m.len() {
                assert(rl[i] == m[i]);
            } else if m.len() < i < m.len() + 1 + path.len() {
                assert(rl[i] == path[i - m.len() - 1]);
            } else if i > m.len() + 1 + path.len() {
                assert(rl[i] == v[i - m.len() - 2 - path.len()]);
            }
        }
    }
    let empty = Seq::<u8>::empty();
    lemma_append_line(empty, rl);
    assert(empty + line(rl) =~= line(rl));
    let hl = host_label() + host;
    assert(line_safe(hl)) by {
        assert forall|i: int| 0 <= i < hl.len() implies #[trigger] hl[i] != LF by {
            if i >= 6 {
                assert(hl[i] == host[i - 6]);
            }
        }
    }
    lemma_append_line(line(rl), hl);
    let al = agent_label() + agent;
    assert(line_safe(al)) by {
        assert forall|i: int| 0 <= i < al.len() implies #[trigger] al[i] != LF by {
            if i >= 12 {
                assert(al[i] == agent[i - 12]);
            }
        }
    }
    lemma_append_line(line(rl) + line(hl), al);
    let cc = connection_close();
    assert(line_safe(cc));
    let l4 = line(rl) + line(hl) + line(al) + line(cc);
    lemma_append_line(line(rl) + line(hl) + line(al), cc);
    lemma_header_lines(l4, headers);
    let l5 = l4 + header_lines(headers);
    match body {
        Some(b) => {
            lemma_decimal(b.len());
            let d = decimal(b.len());
            let cl = length_label() + d;
            assert(line_safe(cl)) by {
                assert forall|i: int| 0 <= i < cl.len() implies #[trigger] cl[i] != LF by {
                    if i >= 16 {
                        assert(cl[i] == d[i - 16]);
                        assert(is_digit(d[i - 16]));
                    }
                }
            }
            lemma_append_line(l5, cl);
            let lines = l5 + line(cl);
            assert(header_block(method, version, host, path, agent, headers, body) =~= lines
                + crlf());
            lines
        },
        None => {
            assert(header_block(method, version, host, path, agent, headers, body) =~= l5
                + seq![] + crlf());
            assert(l5 + seq![] =~= l5);
            l5
        },
    }
}


/// The body bytes of a request, none when it has no body.
pub open spec fn body_or_empty(body: Option<String>) -> Seq<u8> {
    match body_bytes(body) {
        Some(b) => b,
        None => seq![],
    }
}

/// In every request that the engine writes, the blank line that ends the header block
/// occurs exactly once before the body: at the very end of the header block, directly
/// followed by the body bytes.
pub proof fn law_terminator_once(request: HttpRequest)
    requires
        prepared(request) is Ok,
    ensures
        match prepared(request) {
            Ok(p) => {
                let body = body_or_empty(request.body);
                let n = p.2.len() - body.len();
                &&& occurs_at(p.2, terminator(), n - 4)
                &&& forall|i: int| #[trigger]
                    occurs_at(p.2, terminator(), i) && i + 4 <= n ==> i == n - 4
                &&& p.2.skip(n) == body
            },
            Err(_) => true,
        },
{
    let agent = encode_utf8(request.user_agent@);
    let hb = header_bytes(request.headers@);
    let body = body_or_empty(request.body);
    match resolve(encode_utf8(request.address@)) {
        Some(t) => {
            let lines = lemma_block_lines(
                request.method,
                request.version,
                t.0,
                t.2,
                agent,
                hb,
                body_bytes(request.body),
            );
            let block = header_block(
                request.method,
                request.version,
                t.0,
                t.2,
                agent,
                hb,
                body_bytes(request.body),
            );
            let r = block + body;
            assert(r =~= serialized(
                request.method,
                request.version,
                t.0,
                t.2,
                agent,
                hb,
                body_bytes(request.body),
            ));
            let n = block.len() as int;
            assert(r.subrange(n - 4, n) =~= terminator());
            assert(r.skip(n) =~= body);
            assert forall|i: int| #[trigger]
                occurs_at(r, terminator(), i) && i + 4 <= n implies i == n - 4 by {
                assert(r.subrange(i, i + 4)[1] == LF);
                assert(r.subrange(i, i + 4)[2] == CR);
                assert(r[i + 1] == LF && r[i + 2] == CR);
                if i + 2 < lines.len() {
                    assert(lines[i + 1] == LF && lines[i + 2] == CR);
                }
            }
        },
        None => {},
    }
}

/// When a request has a body, the `Content-Length` line just before the blank line
/// gives in decimal digits the number of bytes of the body (not of its characters).
pub proof fn law_content_length(request: HttpRequest)
    requires
        prepared(request) is Ok,
        request.body is Some,
    ensures
        match prepared(request) {
            Ok(p) => {
                let body = body_or_empty(request.body);
                let n = p.2.len() - body.len();
                let d = decimal(body.len());
                &&& p.2.skip(n) == body
                &&& p.2.subrange(n - 20 - d.len(), n - 2) == line(length_label() + d)
                &&& all_digits(d)
                &&& digits_value(d) == body.len()
            },
            Err(_) => true,
        },
{
    let agent = encode_utf8(request.user_agent@);
    let hb = header_bytes(request.headers@);
    let body = body_or_empty(request.body);
    lemma_decimal(body.len());
    match resolve(encode_utf8(request.address@)) {
        Some(t) => {
            let block = header_block(
                request.method,
                request.version,
                t.0,
                t.2,
                agent,
                hb,
                body_bytes(request.body),
            );
            let d = decimal(body.len());
            let before = line(request_line(request.method, t.2, request.version)) + line(
                host_label() + t.0,
            ) + line(agent_label() + agent) + line(connection_close()) + header_lines(hb);
            assert(block =~= before + line(length_label() + d) + crlf());
            let r = block + body;
            let n = block.len() as int;
            assert(r.skip(n) =~= body);
            assert(r.subrange(n - 20 - d.len(), n - 2) =~= line(length_label() + d));
        },
        None => {},
    }
}


proof fn lemma_trim_back_concat(p: Seq<u8>, a: Seq<u8>)
    requires
        p.len() > 0,
        !is_space(p.last()),
    ensures
        trim_back(p + a) == p + trim_back(a),
    decreases a.len(),
{
    if a.len() == 0 {
        assert(p + a =~= p);
        assert(p + trim_back(a) =~= p);
    } else {
        assert((p + a).last() == a.last());
        if is_space(a.last()) {
            assert((p + a).drop_last() =~= p + a.drop_last());
            lemma_trim_back_concat(p, a.drop_last());
        }
    }
}

proof fn lemma_trim_back_prefix(s: Seq<u8>)
    ensures
        trim_back(s).len() <= s.len(),
        trim_back(s) == s.take(trim_back(s).len() as int),
    decreases s.len(),
{
    if s.len() > 0 && is_space(s.last()) {
        lemma_trim_back_prefix(s.drop_last());
        assert(s.drop_last().take(trim_back(s).len() as int) =~= s.take(trim_back(s).len() as int));
    } else {
        assert(s.take(s.len() as int) =~= s);
    }
}

/// A prefix of `s` starts with `p` only where `s` does.
proof fn lemma_prefix_ci(t: Seq<u8>, s: Seq<u8>, p: Seq<u8>)
    requires
        t.len() <= s.len(),
        t == s.take(t.len() as int),
        starts_with_ci(t, p),
    ensures
        starts_with_ci(s, p),
{
    assert forall|i: int| 0 <= i < p.len() implies lower(#[trigger] s[i]) == p[i] by {
        assert(s[i] == t[i]);
    }
}

/// An `http://` or `https://` prefix, in any letter case, does not change where an
/// address leads: host, port and path are those of the address without it. This holds
/// for addresses that do not start with whitespace or carry a scheme of their own.
pub proof fn law_scheme_ignored(prefix: Seq<u8>, a: Seq<u8>)
    requires
        (prefix.len() == 7 && starts_with_ci(prefix, http_scheme())) || (prefix.len() == 8
            && starts_with_ci(prefix, https_scheme())),
        a.len() == 0 || !is_space(a[0]),
        scheme_len(a) == 0,
    ensures
        after_scheme(prefix + a) == after_scheme(a),
        resolve(prefix + a) == resolve(a),
{
    let s = prefix + a;
    assert(s[0] == prefix[0]);
    assert(lower(prefix[0]) == 104);
    assert(trim_front(s) == s);
    assert(lower(prefix.last()) == 47);
    lemma_trim_back_concat(prefix, a);
    let t = trim_back(a);
    assert(trim_front(a) == a);
    assert(trimmed(a) == t);
    assert(trimmed(s) == prefix + t);
    lemma_trim_back_prefix(a);
    if starts_with_ci(t, http_scheme()) {
        lemma_prefix_ci(t, a, http_scheme());
    }
    if starts_with_ci(t, https_scheme()) {
        lemma_prefix_ci(t, a, https_scheme());
    }
    assert(scheme_len(t) == 0);
    assert(t.skip(0) =~= t);
    let u = prefix + t;
    if prefix.len() == 7 {
        assert(starts_with_ci(u, http_scheme())) by {
            assert forall|i: int| 0 <= i < 7 implies lower(#[trigger] u[i]) == http_scheme()[i] by {
                assert(u[i] == prefix[i]);
            }
        }
    } else {
        assert(lower(u[4]) == 115) by {
            assert(u[4] == prefix[4]);
        }
        assert(!starts_with_ci(u, http_scheme()));
        assert(starts_with_ci(u, https_scheme())) by {
            assert forall|i: int| 0 <= i < 8 implies lower(#[trigger] u[i]) == https_scheme()[i] by {
                assert(u[i] == prefix[i]);
            }
        }
    }
    assert(u.skip(prefix.len() as int) =~= t);
}

/// When no slash follows the scheme, the path is exactly `/`.
pub proof fn law_root_path(s: Seq<u8>)
    requires
        forall|i: int| 0 <= i < after_scheme(s).len() ==> #[trigger] after_scheme(s)[i] != SLASH,
    ensures
        match resolve(s) {
            Some(t) => t.2 == seq![SLASH],
            None => true,
        },
{
    let r = after_scheme(s);
    lemma_first_index(r, SLASH, r.len() as int);
}

/// After a host, a `:` and a suffix, the port is the suffix read in decimal when it is
/// made of digits and is at most 65535; otherwise the address is invalid. The host is
/// taken to start with no whitespace and to hold no slash or line break, and the suffix
/// to hold no slash or colon and not to end in whitespace.
pub proof fn law_port_suffix(h: Seq<u8>, d: Seq<u8>)
    requires
        h.len() > 0,
        !is_space(h[0]),
        forall|i: int| 0 <= i < h.len() ==> #[trigger] h[i] != SLASH,
        no_line_break(h),
        d.len() > 0,
        forall|i: int| 0 <= i < d.len() ==> #[trigger] d[i] != SLASH && d[i] != COLON,
        !is_space(d.last()),
    ensures
        all_digits(d) && digits_value(d) <= 65535 ==> resolve(h + seq![COLON] + d) == Some(
            (h, digits_value(d) as u16, seq![SLASH]),
        ),
        !(all_digits(d) && digits_value(d) <= 65535) ==> resolve(h + seq![COLON] + d) is None,
{
    let s = h + seq![COLON] + d;
    let k = h.len() as int;
    assert(s[0] == h[0]);
    assert(trim_front(s) == s);
    assert(s.last() == d.last());
    assert(trim_back(s) == s);
    assert forall|i: int| 0 <= i < s.len() implies #[trigger] s[i] != SLASH by {
        if i < k {
            assert(s[i] == h[i]);
        } else if i > k {
            assert(s[i] == d[i - k - 1]);
        }
    }
    if s.len() >= 7 {
        assert(lower(s[6]) != 47);
    }
    if s.len() >= 8 {
        assert(lower(s[7]) != 47);
    }
    assert(scheme_len(s) == 0);
    assert(after_scheme(s) =~= s);
    lemma_first_index(s, SLASH, s.len() as int);
    assert(s.take(s.len() as int) =~= s);
    assert forall|j: int| k < j < s.len() implies #[trigger] s[j] != COLON by {
        assert(s[j] == d[j - k - 1]);
    }
    lemma_last_index(s, COLON, k);
    assert(s.take(k) =~= h);
    assert(s.skip(k + 1) =~= d);
}

} // verus!
