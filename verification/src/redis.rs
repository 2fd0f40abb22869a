//! The Redis driver's configuration and its RESP2 protocol: how a command is
//! written, and what each line of a reply means.
use vstd::prelude::*;
use vstd::utf8::encode_utf8;
use crate::text;

verus! {

/// Where a Redis server is and how long to wait for it.
#[derive(Debug, Clone)]
pub struct RedisCache {
    host: String,
    port: u16,
    prefix: String,
    timeout_secs: u64,
}

impl RedisCache {
    pub closed spec fn host_view(&self) -> Seq<char> {
        self.host@
    }

    pub closed spec fn port_view(&self) -> u16 {
        self.port
    }

    pub closed spec fn prefix_view(&self) -> Seq<char> {
        self.prefix@
    }

    pub closed spec fn timeout_view(&self) -> u64 {
        self.timeout_secs
    }

    /// A server at `host:port`, with no prefix and a timeout of 3 seconds.
    pub fn new(host: &str, port: u16) -> (r: RedisCache)
        ensures
            r.host_view() == host@,
            r.port_view() == port,
            r.prefix_view().len() == 0,
            r.timeout_view() == 3,
    {
        RedisCache { host: text::owned(host), port, prefix: String::new(), timeout_secs: 3 }
    }

    /// The server at 127.0.0.1:6379.
    pub fn localhost() -> (r: RedisCache)
        ensures
            r.host_view() == "127.0.0.1"@,
            r.port_view() == 6379,
            r.prefix_view().len() == 0,
            r.timeout_view() == 3,
    {
        Self::new("127.0.0.1", 6379)
    }

    /// Keys are written as `prefix:key`.
    pub fn prefix(self, prefix: &str) -> (r: RedisCache)
        ensures
            r.host_view() == self.host_view(),
            r.port_view() == self.port_view(),
            r.prefix_view() == prefix@ + seq![':'],
            r.timeout_view() == self.timeout_view(),
    {
        let p = text::cat(prefix, ":");
        proof {
            reveal_strlit(":");
        }
        RedisCache { host: self.host, port: self.port, prefix: p, timeout_secs: self.timeout_secs }
    }

    pub fn timeout_secs(self, secs: u64) -> (r: RedisCache)
        ensures
            r.host_view() == self.host_view(),
            r.port_view() == self.port_view(),
            r.prefix_view() == self.prefix_view(),
            r.timeout_view() == secs,
    {
        RedisCache { host: self.host, port: self.port, prefix: self.prefix, timeout_secs: secs }
    }

    /// The seconds to wait for the server.
    pub fn timeout(&self) -> (r: u64)
        ensures
            r == self.timeout_view(),
    {
        self.timeout_secs
    }

    /// The server's key for `k`.
    pub fn key(&self, k: &str) -> (r: String)
        ensures
            r@ == self.prefix_view() + k@,
    {
        text::cat(self.prefix.as_str(), k)
    }

    /// `host:port`.
    pub fn address(&self) -> (r: String)
        ensures
            r@ == self.host_view() + seq![':'] + text::decimal(self.port_view() as nat),
    {
        let port = text::u64_to_string(self.port as u64);
        proof {
            reveal_strlit(":");
        }
        text::cat3(self.host.as_str(), ":", port.as_str())
    }
}

/// The ASCII bytes of a decimal number.
pub open spec fn decimal_bytes(n: nat) -> Seq<u8> {
    encode_utf8(text::decimal(n))
}

/// `$len\r\n`, the argument, `\r\n`.
pub open spec fn resp_argument(a: Seq<u8>) -> Seq<u8> {
    seq![36u8] + decimal_bytes(a.len()) + seq![13u8, 10u8] + a + seq![13u8, 10u8]
}

pub open spec fn resp_arguments(args: Seq<Seq<u8>>) -> Seq<u8>
    decreases args.len(),
{
    if args.len() == 0 {
        Seq::empty()
    } else {
        resp_arguments(args.drop_last()) + resp_argument(args.last())
    }
}

/// A command in RESP2: `*count\r\n`, then each argument as a bulk string.
pub open spec fn resp_command(args: Seq<Seq<u8>>) -> Seq<u8> {
    seq![42u8] + decimal_bytes(args.len()) + seq![13u8, 10u8] + resp_arguments(args)
}

fn push_all(out: &mut Vec<u8>, b: &[u8])
    ensures
        final(out)@ == old(out)@ + b@,
{
    let mut i: usize = 0;
    let ghost start = out@;
    while i < b.len()
        invariant
            i <= b@.len(),
            out@ == start + b@.take(i as int),
        decreases b@.len() - i,
    {
        proof {
            assert(b@.take(i + 1) =~= b@.take(i as int).push(b@[i as int]));
        }
        out.push(b[i]);
        i += 1;
    }
    proof {
        assert(b@.take(i as int) =~= b@);
    }
}

fn number_bytes(n: usize) -> (r: Vec<u8>)
    ensures
        r@ == decimal_bytes(n as nat),
{
    let s = text::usize_to_string(n);
    let b = s.as_str().as_bytes();
    let mut out: Vec<u8> = Vec::new();
    push_all(&mut out, b);
    out
}

/// A command's bytes in RESP2.
pub fn encode_command(args: &[Vec<u8>]) -> (r: Vec<u8>)
    ensures
        r@ == resp_command(args@.map_values(|a: Vec<u8>| a@)),
{
    let ghost av = args@.map_values(|a: Vec<u8>| a@);
    let mut out: Vec<u8> = Vec::new();
    out.push(42u8);
    let n = number_bytes(args.len());
    push_all(&mut out, n.as_slice());
    out.push(13u8);
    out.push(10u8);
    let ghost head = out@;
    let mut i: usize = 0;
    proof {
        assert(av.take(0) =~= Seq::<Seq<u8>>::empty());
        assert(head + resp_arguments(av.take(0)) =~= head);
    }
    while i < args.len()
        invariant
            i <= args@.len(),
            av == args@.map_values(|a: Vec<u8>| a@),
            out@ == head + resp_arguments(av.take(i as int)),
        decreases args@.len() - i,
    {
        let a = args[i].as_slice();
        proof {
            assert(av.take(i + 1).drop_last() =~= av.take(i as int));
            assert(av.take(i + 1).last() == a@);
        }
        let ghost before = out@;
        out.push(36u8);
        let len = number_bytes(a.len());
        push_all(&mut out, len.as_slice());
        out.push(13u8);
        out.push(10u8);
        push_all(&mut out, a);
        out.push(13u8);
        out.push(10u8);
        proof {
            assert(out@ =~= before + resp_argument(a@));
        }
        i += 1;
    }
    proof {
        assert(av.take(args@.len() as int) =~= av);
        assert(out@ =~= resp_command(av));
    }
    out
}

/// What `str::parse::<i64>` reports, as text, for a string it refuses.
pub uninterp spec fn i64_parse_error(s: Seq<char>) -> Seq<char>;

/// What `str::parse::<usize>` reports, as text, for a string it refuses.
pub uninterp spec fn usize_parse_error(s: Seq<char>) -> Seq<char>;

/// `str::parse::<i64>`: accepts what `parse_i64_spec` describes; the error's text is
/// left to the name `i64_parse_error`.
#[verifier::external_body]
fn std_parse_i64(s: &str) -> (r: Result<i64, String>)
    ensures
        match r {
            Ok(v) => text::parse_i64_spec(s@) == Some(v as int),
            Err(e) => text::parse_i64_spec(s@) is None && e@ == i64_parse_error(s@),
        },
{
    s.parse::<i64>().map_err(|e| e.to_string())
}

/// What `str::parse::<usize>` accepts: an optional `+`, then one or more ASCII digits,
/// whose value fits in a `usize`.
pub open spec fn parse_usize_spec(s: Seq<char>) -> Option<nat> {
    let body = if s.len() > 0 && s[0] == '+' {
        s.skip(1)
    } else {
        s
    };
    if text::all_digits(body) && text::digits_value(body) <= usize::MAX {
        Some(text::digits_value(body))
    } else {
        None
    }
}

/// `str::parse::<usize>`: accepts what `parse_usize_spec` describes; the error's text
/// is left to the name `usize_parse_error`.
#[verifier::external_body]
fn std_parse_usize(s: &str) -> (r: Result<usize, String>)
    ensures
        match r {
            Ok(v) => parse_usize_spec(s@) == Some(v as nat),
            Err(e) => parse_usize_spec(s@) is None && e@ == usize_parse_error(s@),
        },
{
    s.parse::<usize>().map_err(|e| e.to_string())
}

/// What to do after a line of a reply.
#[derive(Debug, PartialEq, Eq)]
pub enum RespNext {
    /// The reply is complete.
    Done(Result<Vec<u8>, String>),
    /// Read that many bytes and the `\r\n` after them; the bytes are the reply.
    ReadBulk(u64),
    /// Read that many elements, each a line and perhaps its bulk bytes.
    ReadArray(usize),
}

/// What a reply's first line means (a ghost mirror of `RespNext`).
pub ghost enum RespNextView {
    Done(Result<Seq<u8>, Seq<char>>),
    ReadBulk(nat),
    ReadArray(nat),
}

impl View for RespNext {
    type V = RespNextView;

    open spec fn view(&self) -> RespNextView {
        match self {
            RespNext::Done(Ok(v)) => RespNextView::Done(Ok(v@)),
            RespNext::Done(Err(e)) => RespNextView::Done(Err(e@)),
            RespNext::ReadBulk(n) => RespNextView::ReadBulk(*n as nat),
            RespNext::ReadArray(n) => RespNextView::ReadArray(*n as nat),
        }
    }
}

/// The meaning of a reply's first line, trimmed: empty gives no bytes; `+` and `:`
/// give the rest; `-` an error; `$` a bulk string of that length (none if negative);
/// `*` an array of that many elements.
pub open spec fn first_reply(line: Seq<char>) -> RespNextView {
    let t = text::trim(line);
    if t.len() == 0 {
        RespNextView::Done(Ok(Seq::empty()))
    } else {
        let rest = t.skip(1);
        if t[0] == '+' || t[0] == ':' {
            RespNextView::Done(Ok(encode_utf8(rest)))
        } else if t[0] == '-' {
            RespNextView::Done(Err("Redis: "@ + rest))
        } else if t[0] == '$' {
            match text::parse_i64_spec(rest) {
                None => RespNextView::Done(Err(i64_parse_error(rest))),
                Some(n) => if n < 0 {
                    RespNextView::Done(Ok(Seq::empty()))
                } else {
                    RespNextView::ReadBulk(n as nat)
                },
            }
        } else if t[0] == '*' {
            match parse_usize_spec(rest) {
                None => RespNextView::Done(Err(usize_parse_error(rest))),
                Some(c) => RespNextView::ReadArray(c),
            }
        } else {
            RespNextView::Done(Err("Unexpected Redis response"@))
        }
    }
}

/// The meaning of a reply's first line.
pub fn read_first_line(line: &str) -> (r: RespNext)
    ensures
        r@ == first_reply(line@),
{
    let cs = text::chars_of(line);
    let t = text::trim_exec(cs.as_slice());
    if t.len() == 0 {
        return RespNext::Done(Ok(Vec::new()));
    }
    let rest = text::sub_string(t.as_slice(), 1, t.len());
    proof {
        assert(rest@ =~= t@.skip(1));
    }
    let c = t[0];
    if c == '+' || c == ':' {
        let b = rest.as_str().as_bytes();
        let mut out: Vec<u8> = Vec::new();
        push_all(&mut out, b);
        RespNext::Done(Ok(out))
    } else if c == '-' {
        RespNext::Done(Err(text::cat("Redis: ", rest.as_str())))
    } else if c == '$' {
        match std_parse_i64(rest.as_str()) {
            Err(e) => RespNext::Done(Err(e)),
            Ok(n) => {
                if n < 0 {
                    RespNext::Done(Ok(Vec::new()))
                } else {
                    RespNext::ReadBulk(n as u64)
                }
            },
        }
    } else if c == '*' {
        match std_parse_usize(rest.as_str()) {
            Err(e) => RespNext::Done(Err(e)),
            Ok(n) => RespNext::ReadArray(n),
        }
    } else {
        RespNext::Done(Err(text::owned("Unexpected Redis response")))
    }
}

/// The meaning of the line of an array element, trimmed and not empty: `$` and a
/// length gives a bulk string to read (none for a negative length); other lines are
/// passed over.
pub open spec fn element_line(line: Seq<char>) -> Result<Option<nat>, Seq<char>> {
    let t = text::trim(line);
    if t[0] == '$' {
        match text::parse_i64_spec(t.skip(1)) {
            None => Err(i64_parse_error(t.skip(1))),
            Some(n) => Ok(if n >= 0 {
                Some(n as nat)
            } else {
                None
            }),
        }
    } else {
        Ok(None)
    }
}

/// The meaning of the line of an array element.
pub fn read_element_line(line: &str) -> (r: Result<Option<u64>, String>)
    requires
        text::trim(line@).len() > 0,
    ensures
        match r {
            Ok(Some(n)) => element_line(line@) == Ok::<Option<nat>, Seq<char>>(Some(n as nat)),
            Ok(None) => element_line(line@) == Ok::<Option<nat>, Seq<char>>(None),
            Err(e) => element_line(line@) == Err::<Option<nat>, Seq<char>>(e@),
        },
{
    let cs = text::chars_of(line);
    let t = text::trim_exec(cs.as_slice());
    if t[0] == '$' {
        let rest = text::sub_string(t.as_slice(), 1, t.len());
        proof {
            assert(rest@ =~= t@.skip(1));
        }
        match std_parse_i64(rest.as_str()) {
            Err(e) => Err(e),
            Ok(n) => {
                if n >= 0 {
                    Ok(Some(n as u64))
                } else {
                    Ok(None)
                }
            },
        }
    } else {
        Ok(None)
    }
}

/// Whether a reply is the integer 1, as `EXISTS` answers for a key that exists.
pub fn reply_is_one(reply: &[u8]) -> (r: bool)
    ensures
        r == (reply@ == seq![49u8]),
{
    let r = reply.len() == 1 && reply[0] == 49u8;
    proof {
        if reply@.len() == 1 && reply@[0] == 49u8 {
            assert(reply@ =~= seq![49u8]);
        }
    }
    r
}

} // verus!
