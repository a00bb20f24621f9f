//! Parsing of I2P SAM v3 bridge replies.
//!
//! The SAM bridge answers each command with one line of whitespace separated
//! tokens, some of them `KEY=VALUE` pairs whose value may be double quoted.
//! These functions read such a line; the socket work that carries it lives
//! with the caller.
use vstd::prelude::*;
use vstd::string::*;
use crate::collections::{StrMap, string_views};
use crate::text::{
    is_white_space, is_white_space_char, parse_u16, parse_u16_spec, push_char,
    rsplit_once_char, split_first_spec, split_last_spec, split_once_char, trim_end, trim_end_spec,
    decimal_digits, push_decimal,
};

verus! {

/// Tokenizer state: finished tokens, the token being read, and whether a quote is open.
pub type TokState = (Seq<Seq<char>>, Seq<char>, bool);

/// One character of the tokenizer: a quote toggles quoting and is dropped,
/// white space outside quotes ends the current token, anything else is kept.
pub open spec fn tok_step(st: TokState, c: char) -> TokState {
    if c == '"' {
        (st.0, st.1, !st.2)
    } else if is_white_space(c) && !st.2 {
        if st.1.len() > 0 {
            (st.0.push(st.1), Seq::empty(), st.2)
        } else {
            st
        }
    } else {
        (st.0, st.1.push(c), st.2)
    }
}

/// The tokenizer state after reading `s`.
pub open spec fn tok_scan(s: Seq<char>) -> TokState
    decreases s.len(),
{
    if s.len() == 0 {
        (Seq::empty(), Seq::empty(), false)
    } else {
        tok_step(tok_scan(s.drop_last()), s.last())
    }
}

/// The tokens of a SAM line: white space separated, except inside double quotes.
pub open spec fn sam_token_spec(s: Seq<char>) -> Seq<Seq<char>> {
    let st = tok_scan(s);
    if st.1.len() > 0 {
        st.0.push(st.1)
    } else {
        st.0
    }
}

/// Splits a SAM reply into tokens on white space, except inside double quotes
/// (a `MESSAGE="no route to peer"` value may hold spaces). Quote characters are
/// dropped; the spaces they protect are kept.
pub fn sam_tokens(line: &str) -> (tokens: Vec<String>)
    ensures
        string_views(tokens@) == sam_token_spec(line@),
{
    let mut tokens: Vec<String> = Vec::new();
    let mut cur = String::new();
    let mut in_quotes = false;
    let n = line.unicode_len();
    let mut i: usize = 0;
    proof {
        assert(line@.take(0) =~= Seq::<char>::empty());
        assert(string_views(tokens@) =~= Seq::<Seq<char>>::empty());
    }
    while i < n
        invariant
            n == line@.len(),
            i <= n,
            (string_views(tokens@), cur@, in_quotes) == tok_scan(line@.take(i as int)),
        decreases n - i,
    {
        let c = line.get_char(i);
        proof {
            assert(line@.take(i + 1).drop_last() =~= line@.take(i as int));
            assert(line@.take(i + 1).last() == c);
        }
        if c == '"' {
            in_quotes = !in_quotes;
        } else if is_white_space_char(c) && !in_quotes {
            if !cur.as_str().is_empty() {
                let ghost before = tokens@;
                let t = cur;
                tokens.push(t);
                cur = String::new();
                proof {
                    assert(string_views(tokens@) =~= string_views(before).push(t@));
                }
            }
        } else {
            push_char(&mut cur, c);
        }
        i = i + 1;
    }
    proof {
        assert(line@.take(n as int) =~= line@);
    }
    if !cur.as_str().is_empty() {
        let ghost before = tokens@;
        let t = cur;
        tokens.push(t);
        proof {
            assert(string_views(tokens@) =~= string_views(before).push(t@));
        }
    }
    tokens
}

/// The `KEY=VALUE` pairs among `toks`, cut at the first `=`; a later pair
/// replaces an earlier one with the same key; tokens without `=` are ignored.
pub open spec fn kv_map(toks: Seq<Seq<char>>) -> Map<Seq<char>, Seq<char>>
    decreases toks.len(),
{
    if toks.len() == 0 {
        Map::empty()
    } else {
        let m = kv_map(toks.drop_last());
        match split_first_spec(toks.last(), '=') {
            Some(kv) => m.insert(kv.0, kv.1),
            None => m,
        }
    }
}

/// The key/value pairs of a SAM reply line.
#[derive(Debug)]
pub struct SamReply {
    pub fields: StrMap<String>,
}

/// The characters of each value of a string map.
pub open spec fn value_views(m: Map<Seq<char>, String>) -> Map<Seq<char>, Seq<char>> {
    Map::new(|k: Seq<char>| m.dom().contains(k), |k: Seq<char>| m[k]@)
}

impl SamReply {
    pub open spec fn wf(&self) -> bool {
        self.fields.wf()
    }

    pub open spec fn view(&self) -> Map<Seq<char>, Seq<char>> {
        value_views(self.fields@)
    }

    /// The value of `key`, if the reply carries it.
    pub fn get(&self, key: &str) -> (r: Option<&String>)
        requires
            self.wf(),
        ensures
            match r {
                Some(v) => self@.contains_key(key@) && v@ == self@[key@],
                None => !self@.contains_key(key@),
            },
    {
        let k = key.to_owned();
        self.fields.get(&k)
    }

    /// Whether the reply carries `key`.
    pub fn contains_key(&self, key: &str) -> (r: bool)
        requires
            self.wf(),
        ensures
            r == self@.contains_key(key@),
    {
        let k = key.to_owned();
        self.fields.contains_key(&k)
    }

    /// The number of distinct keys.
    pub fn len(&self) -> (n: usize)
        requires
            self.wf(),
        ensures
            n == self@.dom().len(),
    {
        proof {
            self.fields.lemma_len();
            assert(self@.dom() =~= self.fields@.dom());
        }
        self.fields.len()
    }
}

/// Tokenizes a SAM reply line's `KEY=VALUE` pairs. Bare command words (e.g.
/// `HELLO REPLY`) have no `=` and are ignored. Values may have been quoted.
pub fn sam_kv(line: &str) -> (kv: SamReply)
    ensures
        kv.wf(),
        kv@ == kv_map(sam_token_spec(line@)),
{
    let tokens = sam_tokens(line);
    let ghost toks = sam_token_spec(line@);
    let mut fields: StrMap<String> = StrMap::new();
    let mut i: usize = 0;
    proof {
        assert(value_views(fields@) =~= kv_map(toks.take(0)));
    }
    while i < tokens.len()
        invariant
            i <= tokens@.len(),
            string_views(tokens@) == toks,
            fields.wf(),
            value_views(fields@) == kv_map(toks.take(i as int)),
        decreases tokens@.len() - i,
    {
        proof {
            assert(toks.take(i + 1).drop_last() =~= toks.take(i as int));
            assert(toks.take(i + 1).last() == tokens@[i as int]@);
        }
        match split_once_char(tokens[i].as_str(), '=') {
            Some((k, v)) => {
                let ghost before = fields@;
                fields.insert(k.to_owned(), v.to_owned());
                proof {
                    assert(value_views(fields@) =~= value_views(before).insert(k@, v@));
                }
            },
            None => {},
        }
        i = i + 1;
    }
    proof {
        assert(toks.take(tokens@.len() as int) =~= toks);
    }
    SamReply { fields }
}

/// What `format!("{:?}", s)` gives for a string: the quoted, escaped form.
pub uninterp spec fn debug_quoted(s: Seq<char>) -> Seq<char>;

/// Quotes and escapes `s` as `Debug` formatting of a `str` does.
#[verifier::external_body]
fn debug_quote(s: &str) -> (r: String)
    ensures
        r@ == debug_quoted(s@),
{
    format!("{:?}", s)
}

/// Why a SAM reply was refused.
#[derive(Debug)]
pub enum SamError {
    /// The reply's `RESULT` was not `OK`; `message` is its `MESSAGE`, if any.
    Failed { result: String, message: Option<String> },
    /// The reply had no `RESULT` field; `line` is the reply without trailing white space.
    Malformed { line: String },
}

/// The text of a refusal.
pub open spec fn sam_error_text(e: SamError) -> Seq<char> {
    match e {
        SamError::Failed { result, message } => match message {
            Some(m) => "SAM error "@ + result@ + ": "@ + m@,
            None => "SAM error "@ + result@,
        },
        SamError::Malformed { line } => "malformed SAM reply: "@ + debug_quoted(line@),
    }
}

impl SamError {
    /// The refusal as text, naming the router's result code and message.
    pub fn to_string(&self) -> (s: String)
        ensures
            s@ == sam_error_text(*self),
    {
        match self {
            SamError::Failed { result, message } => {
                let mut s = "SAM error ".to_owned();
                s.append(result.as_str());
                match message {
                    Some(m) => {
                        s.append(": ");
                        s.append(m.as_str());
                    },
                    None => {},
                }
                s
            },
            SamError::Malformed { line } => {
                let mut s = "malformed SAM reply: ".to_owned();
                let q = debug_quote(line.as_str());
                s.append(q.as_str());
                s
            },
        }
    }
}

/// Parses a SAM reply and requires `RESULT=OK`, returning its key/value pairs.
/// Surfaces the router's `RESULT` code (and `MESSAGE`, if any) on failure.
pub fn sam_check_ok(line: &str) -> (r: Result<SamReply, SamError>)
    ensures
        ({
            let m = kv_map(sam_token_spec(line@));
            match r {
                Ok(kv) => kv.wf() && kv@ == m && m.contains_key("RESULT"@) && m["RESULT"@]
                    == "OK"@,
                Err(SamError::Failed { result, message }) => {
                    &&& m.contains_key("RESULT"@)
                    &&& m["RESULT"@] != "OK"@
                    &&& result@ == m["RESULT"@]
                    &&& match message {
                        Some(msg) => m.contains_key("MESSAGE"@) && msg@ == m["MESSAGE"@],
                        None => !m.contains_key("MESSAGE"@),
                    }
                },
                Err(SamError::Malformed { line: l }) => !m.contains_key("RESULT"@) && l@
                    == trim_end_spec(line@),
            }
        }),
{
    let kv = sam_kv(line);
    let ok = "OK".to_owned();
    match kv.get("RESULT") {
        Some(result) => {
            if *result == ok {
                Ok(kv)
            } else {
                let result = result.clone();
                match kv.get("MESSAGE") {
                    Some(msg) => Err(SamError::Failed { result, message: Some(msg.clone()) }),
                    None => Err(SamError::Failed { result, message: None }),
                }
            }
        },
        None => Err(SamError::Malformed { line: trim_end(line).to_owned() }),
    }
}

/// Split a `dest[:port]` address into the I2P destination and an optional
/// stream port. The split only fires when the suffix after the last `:` is a
/// valid `u16`; a bare base64 destination, `*.b32.i2p` name or hostname passes
/// through untouched.
pub open spec fn split_dest_port_spec(addr: Seq<char>) -> (Seq<char>, Option<u16>) {
    match split_last_spec(addr, ':') {
        Some(parts) => match parse_u16_spec(parts.1) {
            Some(p) => (parts.0, Some(p)),
            None => (addr, None),
        },
        None => (addr, None),
    }
}

/// Splits `addr` into destination and optional port.
pub fn split_dest_port(addr: &str) -> (r: (&str, Option<u16>))
    ensures
        (r.0@, r.1) == split_dest_port_spec(addr@),
{
    match rsplit_once_char(addr, ':') {
        Some((dest, port)) => match parse_u16(port) {
            Some(p) => (dest, Some(p)),
            None => (addr, None),
        },
        None => (addr, None),
    }
}

/// Default SAM bridge address (i2pd and Java I2P listen here when SAM is on).
pub const DEFAULT_SAM: &'static str = "127.0.0.1:7656";

/// The handshake every SAM socket opens with, offering protocol versions 3.0 to 3.3.
pub fn sam_hello_command() -> (c: String)
    ensures
        c@ == "HELLO VERSION MIN=3.0 MAX=3.3"@,
{
    "HELLO VERSION MIN=3.0 MAX=3.3".to_owned()
}

/// The session identifier used on the router for `nickname`.
pub fn session_id_for(nickname: &str) -> (id: String)
    ensures
        id@ == "simple-network-"@ + nickname@,
{
    let mut id = "simple-network-".to_owned();
    id.append(nickname);
    id
}

/// Opens a stream session under `session_id` with a fresh transient destination.
pub fn session_create_command(session_id: &str) -> (c: String)
    ensures
        c@ == "SESSION CREATE STYLE=STREAM ID="@ + session_id@ + " DESTINATION=TRANSIENT"@,
{
    let mut c = "SESSION CREATE STYLE=STREAM ID=".to_owned();
    c.append(session_id);
    c.append(" DESTINATION=TRANSIENT");
    c
}

/// Asks for the session's own public destination.
pub fn naming_lookup_me_command() -> (c: String)
    ensures
        c@ == "NAMING LOOKUP NAME=ME"@,
{
    "NAMING LOOKUP NAME=ME".to_owned()
}

/// Dials `addr` (a destination with an optional `:port`) on the session: the
/// destination goes in `DESTINATION`, a port in `TO_PORT`.
pub fn stream_connect_command(session_id: &str, addr: &str) -> (c: String)
    ensures
        ({
            let (dest, port) = split_dest_port_spec(addr@);
            let base = "STREAM CONNECT ID="@ + session_id@ + " DESTINATION="@ + dest
                + " SILENT=false"@;
            c@ == match port {
                Some(p) => base + " TO_PORT="@ + decimal_digits(p as nat),
                None => base,
            }
        }),
{
    let (dest, port) = split_dest_port(addr);
    let mut c = "STREAM CONNECT ID=".to_owned();
    c.append(session_id);
    c.append(" DESTINATION=");
    c.append(dest);
    c.append(" SILENT=false");
    match port {
        Some(p) => {
            c.append(" TO_PORT=");
            push_decimal(&mut c, p as u64);
        },
        None => {},
    }
    c
}

/// Waits on the session for one inbound stream.
pub fn stream_accept_command(session_id: &str) -> (c: String)
    ensures
        c@ == "STREAM ACCEPT ID="@ + session_id@ + " SILENT=false"@,
{
    let mut c = "STREAM ACCEPT ID=".to_owned();
    c.append(session_id);
    c.append(" SILENT=false");
    c
}

/// Inbound side of a SAM session: each accept issues a fresh `STREAM ACCEPT`
/// on the session through the bridge at `sam_addr`.
pub struct I2pListener {
    sam_addr: String,
    session_id: String,
}

impl View for I2pListener {
    type V = (Seq<char>, Seq<char>);

    closed spec fn view(&self) -> (Seq<char>, Seq<char>) {
        (self.sam_addr@, self.session_id@)
    }
}

impl I2pListener {
    /// A listener on session `session_id` of the bridge at `sam_addr`.
    pub fn new(sam_addr: String, session_id: String) -> (l: Self)
        ensures
            l@ == (sam_addr@, session_id@),
    {
        I2pListener { sam_addr, session_id }
    }

    /// The bridge address.
    pub fn sam_addr(&self) -> (a: &str)
        ensures
            a@ == self@.0,
    {
        self.sam_addr.as_str()
    }

    /// The command that accepts the next inbound stream.
    pub fn accept_command(&self) -> (c: String)
        ensures
            c@ == "STREAM ACCEPT ID="@ + self@.1 + " SILENT=false"@,
    {
        stream_accept_command(self.session_id.as_str())
    }
}

} // verus!
