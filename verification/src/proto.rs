//! The wire protocol: requests and responses as self-delimiting text frames,
//! and the decisions the server and the client take on them.
//!
//! A request is one tagged frame followed by a newline; the server reads one
//! request per connection. A response is one tagged frame with no
//! terminator; the server closes the connection after sending it, and a
//! connection closed with no response at all signals a successful `Put`.
//! Fields are length-prefixed exactly as in the record codec, so keys and
//! values may contain any characters.

use vstd::prelude::*;

use crate::codec::{enc_str, parse_str_at, parse_str_field, push_str_field};

verus! {

/// One request from a client.
#[derive(Debug, Clone, PartialEq, Eq)]
pub enum ReqProto {
    /// Look a key up.
    Get(String),
    /// Remove a key.
    Remove(String),
    /// Bind a key to a value.
    Put(String, String),
}

/// The mathematical form of a request.
pub enum ReqProtoV {
    /// Look a key up.
    Get(Seq<char>),
    /// Remove a key.
    Remove(Seq<char>),
    /// Bind a key to a value.
    Put(Seq<char>, Seq<char>),
}

impl View for ReqProto {
    type V = ReqProtoV;

    open spec fn view(&self) -> ReqProtoV {
        match self {
            ReqProto::Get(k) => ReqProtoV::Get(k@),
            ReqProto::Remove(k) => ReqProtoV::Remove(k@),
            ReqProto::Put(k, v) => ReqProtoV::Put(k@, v@),
        }
    }
}

/// One response from the server.
#[derive(Debug, Clone, PartialEq, Eq)]
pub enum RespProto {
    /// A successful outcome, with the value where the request was a lookup.
    OK(Option<String>),
    /// A failure, with its message.
    Error(String),
}

/// The mathematical form of a response.
pub enum RespProtoV {
    /// A successful outcome.
    OK(Option<Seq<char>>),
    /// A failure, with its message.
    Error(Seq<char>),
}

impl View for RespProto {
    type V = RespProtoV;

    open spec fn view(&self) -> RespProtoV {
        match self {
            RespProto::OK(Some(v)) => RespProtoV::OK(Some(v@)),
            RespProto::OK(None) => RespProtoV::OK(None),
            RespProto::Error(m) => RespProtoV::Error(m@),
        }
    }
}

// ---------------------------------------------------------------------------
// Request frames
// ---------------------------------------------------------------------------

/// The frame of one request: tag, length-prefixed fields, newline.
pub open spec fn enc_req(r: ReqProtoV) -> Seq<char> {
    match r {
        ReqProtoV::Get(k) => seq!['G'] + enc_str(k) + seq!['\n'],
        ReqProtoV::Remove(k) => seq!['R'] + enc_str(k) + seq!['\n'],
        ReqProtoV::Put(k, v) => seq!['S'] + enc_str(k) + enc_str(v) + seq!['\n'],
    }
}

/// Whether a request's fields have encodable lengths. Every request built
/// from executable strings satisfies this.
pub open spec fn req_fits(r: ReqProtoV) -> bool {
    match r {
        ReqProtoV::Get(k) => k.len() <= u64::MAX,
        ReqProtoV::Remove(k) => k.len() <= u64::MAX,
        ReqProtoV::Put(k, v) => k.len() <= u64::MAX && v.len() <= u64::MAX,
    }
}

/// Read one whole request frame: the tag decides the variant, the fields
/// follow, and the frame must close with a newline that ends the buffer.
/// Anything else — an unknown tag, a malformed field, an unterminated line,
/// trailing bytes — is no request.
pub open spec fn parse_req(s: Seq<char>) -> Option<ReqProtoV> {
    if s.len() == 0 {
        None
    } else if s[0] == 'G' {
        match parse_str_at(s, 1) {
            None => None,
            Some((k, j)) => if j + 1 == s.len() && s[j] == '\n' {
                Some(ReqProtoV::Get(k))
            } else {
                None
            },
        }
    } else if s[0] == 'R' {
        match parse_str_at(s, 1) {
            None => None,
            Some((k, j)) => if j + 1 == s.len() && s[j] == '\n' {
                Some(ReqProtoV::Remove(k))
            } else {
                None
            },
        }
    } else if s[0] == 'S' {
        match parse_str_at(s, 1) {
            None => None,
            Some((k, j)) => match parse_str_at(s, j) {
                None => None,
                Some((v, j2)) => if j2 + 1 == s.len() && s[j2] == '\n' {
                    Some(ReqProtoV::Put(k, v))
                } else {
                    None
                },
            },
        }
    } else {
        None
    }
}

// ---------------------------------------------------------------------------
// Response frames
// ---------------------------------------------------------------------------

/// The frame of one response: a value, an absence mark, or an error message.
/// No terminator follows; the closed connection delimits it.
pub open spec fn enc_resp(r: RespProtoV) -> Seq<char> {
    match r {
        RespProtoV::OK(Some(v)) => seq!['V'] + enc_str(v),
        RespProtoV::OK(None) => seq!['N'],
        RespProtoV::Error(m) => seq!['E'] + enc_str(m),
    }
}

/// Whether a response's field has an encodable length.
pub open spec fn resp_fits(r: RespProtoV) -> bool {
    match r {
        RespProtoV::OK(Some(v)) => v.len() <= u64::MAX,
        RespProtoV::OK(None) => true,
        RespProtoV::Error(m) => m.len() <= u64::MAX,
    }
}

/// Read one whole response frame; it must fill the buffer exactly.
pub open spec fn parse_resp(s: Seq<char>) -> Option<RespProtoV> {
    if s.len() == 0 {
        None
    } else if s[0] == 'N' {
        if s.len() == 1 {
            Some(RespProtoV::OK(None))
        } else {
            None
        }
    } else if s[0] == 'V' {
        match parse_str_at(s, 1) {
            None => None,
            Some((v, j)) => if j == s.len() {
                Some(RespProtoV::OK(Some(v)))
            } else {
                None
            },
        }
    } else if s[0] == 'E' {
        match parse_str_at(s, 1) {
            None => None,
            Some((m, j)) => if j == s.len() {
                Some(RespProtoV::Error(m))
            } else {
                None
            },
        }
    } else {
        None
    }
}

// ---------------------------------------------------------------------------
// Executable encoders and parsers
// ---------------------------------------------------------------------------

/// Encode one request as its character frame.
pub fn encode_req(r: &ReqProto) -> (out: Vec<char>)
    ensures
        out@ == enc_req(r@),
{
    let mut out: Vec<char> = Vec::new();
    match r {
        ReqProto::Get(k) => {
            out.push('G');
            push_str_field(&mut out, k.as_str());
            out.push('\n');
            assert(out@ =~= enc_req(r@));
        },
        ReqProto::Remove(k) => {
            out.push('R');
            push_str_field(&mut out, k.as_str());
            out.push('\n');
            assert(out@ =~= enc_req(r@));
        },
        ReqProto::Put(k, v) => {
            out.push('S');
            push_str_field(&mut out, k.as_str());
            push_str_field(&mut out, v.as_str());
            out.push('\n');
            assert(out@ =~= enc_req(r@));
        },
    }
    out
}

/// Encode one response as its character frame.
pub fn encode_resp(r: &RespProto) -> (out: Vec<char>)
    ensures
        out@ == enc_resp(r@),
{
    let mut out: Vec<char> = Vec::new();
    match r {
        RespProto::OK(Some(v)) => {
            out.push('V');
            push_str_field(&mut out, v.as_str());
            assert(out@ =~= enc_resp(r@));
        },
        RespProto::OK(None) => {
            out.push('N');
            assert(out@ =~= enc_resp(r@));
        },
        RespProto::Error(m) => {
            out.push('E');
            push_str_field(&mut out, m.as_str());
            assert(out@ =~= enc_resp(r@));
        },
    }
    out
}

/// Decode one request line, as the server does with what it read up to the
/// newline. Answers `None` for anything that is not one whole request frame.
pub fn decode_req(s: &Vec<char>) -> (r: Option<ReqProto>)
    ensures
        match r {
            Some(req) => parse_req(s@) == Some(req@),
            None => parse_req(s@) is None,
        },
{
    if s.len() == 0 {
        return None;
    }
    let tag = s[0];
    if tag == 'G' {
        match parse_str_field(s, 1) {
            None => None,
            Some((k, j)) => {
                if j == s.len() - 1 && s[j] == '\n' {
                    Some(ReqProto::Get(k))
                } else {
                    None
                }
            },
        }
    } else if tag == 'R' {
        match parse_str_field(s, 1) {
            None => None,
            Some((k, j)) => {
                if j == s.len() - 1 && s[j] == '\n' {
                    Some(ReqProto::Remove(k))
                } else {
                    None
                }
            },
        }
    } else if tag == 'S' {
        match parse_str_field(s, 1) {
            None => None,
            Some((k, j)) => match parse_str_field(s, j) {
                None => None,
                Some((v, j2)) => {
                    if j2 == s.len() - 1 && s[j2] == '\n' {
                        Some(ReqProto::Put(k, v))
                    } else {
                        None
                    }
                },
            },
        }
    } else {
        None
    }
}

/// Decode one response buffer, as the client does with what it read up to
/// the connection's end.
pub fn decode_resp(s: &Vec<char>) -> (r: Option<RespProto>)
    ensures
        match r {
            Some(resp) => parse_resp(s@) == Some(resp@),
            None => parse_resp(s@) is None,
        },
{
    if s.len() == 0 {
        return None;
    }
    let tag = s[0];
    if tag == 'N' {
        if s.len() == 1 {
            Some(RespProto::OK(None))
        } else {
            None
        }
    } else if tag == 'V' {
        match parse_str_field(s, 1) {
            None => None,
            Some((v, j)) => {
                if j == s.len() {
                    Some(RespProto::OK(Some(v)))
                } else {
                    None
                }
            },
        }
    } else if tag == 'E' {
        match parse_str_field(s, 1) {
            None => None,
            Some((m, j)) => {
                if j == s.len() {
                    Some(RespProto::Error(m))
                } else {
                    None
                }
            },
        }
    } else {
        None
    }
}

// ---------------------------------------------------------------------------
// Round trips
// ---------------------------------------------------------------------------

/// Encode-then-decode of every request is the identity.
pub proof fn lemma_req_round_trip(r: ReqProtoV)
    requires
        req_fits(r),
    ensures
        parse_req(enc_req(r)) == Some(r),
{
    let s = enc_req(r);
    match r {
        ReqProtoV::Get(k) => {
            assert(s[0] == 'G');
            assert(s.subrange(1, 1 + enc_str(k).len() as int) =~= enc_str(k));
            crate::codec::lemma_parse_str_of_enc(s, 1, k);
            assert(s[s.len() - 1] == '\n');
        },
        ReqProtoV::Remove(k) => {
            assert(s[0] == 'R');
            assert(s.subrange(1, 1 + enc_str(k).len() as int) =~= enc_str(k));
            crate::codec::lemma_parse_str_of_enc(s, 1, k);
            assert(s[s.len() - 1] == '\n');
        },
        ReqProtoV::Put(k, v) => {
            let lk = enc_str(k).len() as int;
            let lv = enc_str(v).len() as int;
            assert(s[0] == 'S');
            assert(s.subrange(1, 1 + lk) =~= enc_str(k));
            crate::codec::lemma_parse_str_of_enc(s, 1, k);
            assert(s.subrange(1 + lk, 1 + lk + lv) =~= enc_str(v));
            crate::codec::lemma_parse_str_of_enc(s, 1 + lk, v);
            assert(s[1 + lk + lv] == '\n');
        },
    }
}

/// Encode-then-decode of every response is the identity.
pub proof fn lemma_resp_round_trip(r: RespProtoV)
    requires
        resp_fits(r),
    ensures
        parse_resp(enc_resp(r)) == Some(r),
{
    let s = enc_resp(r);
    match r {
        RespProtoV::OK(Some(v)) => {
            assert(s[0] == 'V');
            assert(s.subrange(1, 1 + enc_str(v).len() as int) =~= enc_str(v));
            crate::codec::lemma_parse_str_of_enc(s, 1, v);
        },
        RespProtoV::OK(None) => {
            assert(s[0] == 'N');
        },
        RespProtoV::Error(m) => {
            assert(s[0] == 'E');
            assert(s.subrange(1, 1 + enc_str(m).len() as int) =~= enc_str(m));
            crate::codec::lemma_parse_str_of_enc(s, 1, m);
        },
    }
}

/// A request line that does not end in a newline — in particular an empty
/// or truncated one — is no request: the reader treats it as end-of-input
/// and drops the connection.
pub proof fn lemma_req_needs_terminator(s: Seq<char>)
    requires
        s.len() == 0 || s[s.len() - 1] != '\n',
    ensures
        parse_req(s) is None,
{
    if s.len() > 0 && parse_req(s) is Some {
        if s[0] == 'G' || s[0] == 'R' {
            let (k, j) = parse_str_at(s, 1)->Some_0;
            assert(s[j] == '\n');
            assert(j == s.len() - 1);
        } else if s[0] == 'S' {
            let (k, j) = parse_str_at(s, 1)->Some_0;
            let (v, j2) = parse_str_at(s, j)->Some_0;
            assert(s[j2] == '\n');
            assert(j2 == s.len() - 1);
        }
        assert(false);
    }
}

} // verus!
