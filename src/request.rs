use vstd::prelude::*;
use vstd::utf8::*;

verus! {

/// Every byte of `s` is a printable ASCII character or a space.
pub open spec fn printable(s: Seq<u8>) -> bool {
    forall|i: int| 0 <= i < s.len() ==> 32 <= #[trigger] s[i] && s[i] <= 126
}

/// One request as a caller describes it.
#[derive(Debug)]
pub struct HttpRequest {
    pub method: HttpMethod,
    /// `host[:port][/path]`, optionally after an `http://` or `https://` prefix.
    pub address: String,
    pub version: HttpVersion,
    pub user_agent: String,
    /// Extra headers, written in this order after the fixed ones.
    pub headers: Vec<(String, String)>,
    pub body: Option<String>,
}

/// The request methods the engine can write.
#[derive(Debug, Clone, Copy, PartialEq, Eq)]
pub enum HttpMethod {
    Get,
    Post,
    Head,
    Trace,
    Options,
    Put,
    Delete,
}

/// The protocol versions a request can name.
#[derive(Debug, Clone, Copy, PartialEq, Eq)]
pub enum HttpVersion {
    Http10,
    Http11,
    Http20,
}


impl HttpMethod {
    /// The verb token of the request line.
    pub open spec fn token(self) -> Seq<char> {
        match self {
            HttpMethod::Get => seq!['G', 'E', 'T'],
            HttpMethod::Post => seq!['P', 'O', 'S', 'T'],
            HttpMethod::Head => seq!['H', 'E', 'A', 'D'],
            HttpMethod::Trace => seq!['T', 'R', 'A', 'C', 'E'],
            HttpMethod::Options => seq!['O', 'P', 'T', 'I', 'O', 'N', 'S'],
            HttpMethod::Put => seq!['P', 'U', 'T'],
            HttpMethod::Delete => seq!['D', 'E', 'L', 'E', 'T', 'E'],
        }
    }

    /// The token is written in printable ASCII, so it holds no line break.
    pub proof fn lemma_token_printable(self)
        ensures
            encode_utf8(self.token()).len() > 0,
            printable(encode_utf8(self.token())),
    {
        let t = self.token();
        assert(is_ascii_chars(t));
        is_ascii_chars_encode_utf8(t);
        let r = encode_utf8(t);
        assert forall|i: int| 0 <= i < r.len() implies 32 <= #[trigger] r[i] && r[i] <= 126 by {
            assert(t[i] as u8 == r[i]);
        }
    }

    /// The bytes of the verb token.
    pub fn token_bytes(&self) -> (r: &'static [u8])
        ensures
            r@ == encode_utf8(self.token()),
            r@.len() > 0,
            printable(r@),
    {
        let s = self.as_str();
        proof {
            self.lemma_token_printable();
        }
        s.as_bytes()
    }

    pub fn as_str(&self) -> (r: &'static str)
        ensures
            r@ == self.token(),
    {
        match self {
            HttpMethod::Get => {
                proof {
                    reveal_strlit("GET");
                }
                assert("GET"@ =~= self.token());
                "GET"
            },
            HttpMethod::Post => {
                proof {
                    reveal_strlit("POST");
                }
                assert("POST"@ =~= self.token());
                "POST"
            },
            HttpMethod::Head => {
                proof {
                    reveal_strlit("HEAD");
                }
                assert("HEAD"@ =~= self.token());
                "HEAD"
            },
            HttpMethod::Trace => {
                proof {
                    reveal_strlit("TRACE");
                }
                assert("TRACE"@ =~= self.token());
                "TRACE"
            },
            HttpMethod::Options => {
                proof {
                    reveal_strlit("OPTIONS");
                }
                assert("OPTIONS"@ =~= self.token());
                "OPTIONS"
            },
            HttpMethod::Put => {
                proof {
                    reveal_strlit("PUT");
                }
                assert("PUT"@ =~= self.token());
                "PUT"
            },
            HttpMethod::Delete => {
                proof {
                    reveal_strlit("DELETE");
                }
                assert("DELETE"@ =~= self.token());
                "DELETE"
            },
        }
    }
}

impl HttpVersion {
    /// The version token of the request line.
    pub open spec fn token(self) -> Seq<char> {
        match self {
            HttpVersion::Http10 => seq!['H', 'T', 'T', 'P', '/', '1', '.', '0'],
            HttpVersion::Http11 => seq!['H', 'T', 'T', 'P', '/', '1', '.', '1'],
            HttpVersion::Http20 => seq!['H', 'T', 'T', 'P', '/', '2', '.', '0'],
        }
    }

    /// Whether a text request line can honestly carry this version.
    pub open spec fn is_textual(self) -> bool {
        !(self is Http20)
    }

    /// The token is written in printable ASCII, so it holds no line break.
    pub proof fn lemma_token_printable(self)
        ensures
            encode_utf8(self.token()).len() > 0,
            printable(encode_utf8(self.token())),
    {
        let t = self.token();
        assert(is_ascii_chars(t));
        is_ascii_chars_encode_utf8(t);
        let r = encode_utf8(t);
        assert forall|i: int| 0 <= i < r.len() implies 32 <= #[trigger] r[i] && r[i] <= 126 by {
            assert(t[i] as u8 == r[i]);
        }
    }

    /// The bytes of the version token.
    pub fn token_bytes(&self) -> (r: &'static [u8])
        ensures
            r@ == encode_utf8(self.token()),
            r@.len() > 0,
            printable(r@),
    {
        let s = self.as_str();
        proof {
            self.lemma_token_printable();
        }
        s.as_bytes()
    }

    pub fn as_str(&self) -> (r: &'static str)
        ensures
            r@ == self.token(),
    {
        match self {
            HttpVersion::Http10 => {
                proof {
                    reveal_strlit("HTTP/1.0");
                }
                assert("HTTP/1.0"@ =~= self.token());
                "HTTP/1.0"
            },
            HttpVersion::Http11 => {
                proof {
                    reveal_strlit("HTTP/1.1");
                }
                assert("HTTP/1.1"@ =~= self.token());
                "HTTP/1.1"
            },
            HttpVersion::Http20 => {
                proof {
                    reveal_strlit("HTTP/2.0");
                }
                assert("HTTP/2.0"@ =~= self.token());
                "HTTP/2.0"
            },
        }
    }
}

} // verus!
