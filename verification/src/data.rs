//! The wire codec: the message record exchanged between RORI points, its
//! fixed-field text encoding, and the strict decoder back to a record.
//!
//! A message is serialized as a fixed five-field quoted key/value block in a
//! fixed order (author, content, client, datatype, secret). Serialization
//! escapes only the double-quote character (`"` becomes `\"`) in the four
//! string fields; `datatype` is never escaped. Decoding reverses the escape
//! and fails with `DecodeError::MalformedInput` on any text that does not
//! match that exact shape.

use vstd::prelude::*;
use vstd::string::*;
use crate::text::push_char;

verus! {

/// A decoding failure: the text did not match the expected object shape.
#[derive(Clone, Copy, PartialEq, Eq, Structural, Debug)]
pub enum DecodeError {
    MalformedInput,
}

/// The mathematical value of a message: its five fields as character
/// sequences, before any escaping.
#[verifier::ext_equal]
pub ghost struct MsgModel {
    pub author: Seq<char>,
    pub content: Seq<char>,
    pub client: Seq<char>,
    pub datatype: Seq<char>,
    pub secret: Seq<char>,
}

/// How one character is serialized inside a quoted field.
pub open spec fn esc1(c: char) -> Seq<char> {
    if c == '"' {
        seq!['\\', '"']
    } else {
        seq![c]
    }
}

/// The escaped form of a field: every double quote gains a backslash.
pub open spec fn escape(s: Seq<char>) -> Seq<char>
    decreases s.len(),
{
    if s.len() == 0 {
        Seq::<char>::empty()
    } else {
        esc1(s[0]) + escape(s.subrange(1, s.len() as int))
    }
}

/// A field value that survives the grammar: it must not end in a backslash,
/// or its escaped form would swallow the closing quote.
pub open spec fn field_safe(s: Seq<char>) -> bool {
    s.len() == 0 || s[s.len() - 1] != '\\'
}

/// A datatype value that survives the grammar: it is written verbatim, so it
/// must hold no double quote at all besides not ending in a backslash.
pub open spec fn datatype_safe(s: Seq<char>) -> bool {
    field_safe(s) && (forall|i: int| 0 <= i < s.len() ==> s[i] != '"')
}

/// A message whose encoding decodes back to it: see `lemma_round_trip`.
pub open spec fn wire_safe(m: MsgModel) -> bool {
    &&& field_safe(m.author)
    &&& field_safe(m.content)
    &&& field_safe(m.client)
    &&& datatype_safe(m.datatype)
    &&& field_safe(m.secret)
}

pub open spec fn head_lit() -> Seq<char> {
    "{\n  \"author\":\""@
}

pub open spec fn sep_content() -> Seq<char> {
    ",\n  \"content\":\""@
}

pub open spec fn sep_client() -> Seq<char> {
    ",\n  \"client\":\""@
}

pub open spec fn sep_datatype() -> Seq<char> {
    ",\n  \"datatype\":\""@
}

pub open spec fn sep_secret() -> Seq<char> {
    ",\n  \"secret\":\""@
}

pub open spec fn tail_lit() -> Seq<char> {
    "\n}"@
}

pub open spec fn quote() -> Seq<char> {
    seq!['"']
}

/// The exact text that encoding a message produces.
pub open spec fn wire_of(m: MsgModel) -> Seq<char> {
    head_lit() + escape(m.author) + quote() + sep_content() + escape(m.content) + quote()
        + sep_client() + escape(m.client) + quote() + sep_datatype() + m.datatype + quote()
        + sep_secret() + escape(m.secret) + quote() + tail_lit()
}

/// The object used to communicate between RORI points.
#[derive(Debug)]
pub struct RoriData {
    pub author: String,
    pub content: String,
    pub client: String,
    pub datatype: String,
    pub secret: String,
}

impl View for RoriData {
    type V = MsgModel;

    open spec fn view(&self) -> MsgModel {
        MsgModel {
            author: self.author@,
            content: self.content@,
            client: self.client@,
            datatype: self.datatype@,
            secret: self.secret@,
        }
    }
}

impl PartialEq for RoriData {
    fn eq(&self, other: &RoriData) -> (r: bool) {
        self.author == other.author && self.content == other.content
            && self.client == other.client && self.datatype == other.datatype
            && self.secret == other.secret
    }
}

impl vstd::std_specs::cmp::PartialEqSpecImpl for RoriData {
    open spec fn obeys_eq_spec() -> bool {
        true
    }

    open spec fn eq_spec(&self, other: &RoriData) -> bool {
        self.author@ == other.author@ && self.content@ == other.content@
            && self.client@ == other.client@ && self.datatype@ == other.datatype@
            && self.secret@ == other.secret@
    }
}

impl RoriData {
    /// Builds a message from its five fields, held verbatim: escaping is the
    /// serializer's business, not the record's.
    pub fn new(author: String, content: String, client: String, datatype: String, secret: String) -> (r:
        RoriData)
        ensures
            r@ == (MsgModel {
                author: author@,
                content: content@,
                client: client@,
                datatype: datatype@,
                secret: secret@,
            }),
    {
        let r = RoriData { author, content, client, datatype, secret };
        proof {
            assert(r@ =~= (MsgModel {
                author: r.author@,
                content: r.content@,
                client: r.client@,
                datatype: r.datatype@,
                secret: r.secret@,
            }));
        }
        r
    }

    /// Serializes the message into the fixed five-field text block, escaping
    /// double quotes in every field but `datatype`.
    pub fn to_string(&self) -> (r: String)
        ensures
            r@ == wire_of(self@),
    {
        let mut out = String::new();
        out.append("{\n  \"author\":\"");
        escape_into(&mut out, self.author.as_str());
        out.append("\"");
        out.append(",\n  \"content\":\"");
        escape_into(&mut out, self.content.as_str());
        out.append("\"");
        out.append(",\n  \"client\":\"");
        escape_into(&mut out, self.client.as_str());
        out.append("\"");
        out.append(",\n  \"datatype\":\"");
        out.append(self.datatype.as_str());
        out.append("\"");
        out.append(",\n  \"secret\":\"");
        escape_into(&mut out, self.secret.as_str());
        out.append("\"");
        out.append("\n}");
        proof {
            reveal_strlit("\"");
            assert("\""@ =~= quote());
            assert(out@ =~= wire_of(self@));
        }
        out
    }

    /// Strictly decodes the fixed five-field text block back into a message.
    /// Any field missing, any deviation from the expected object shape, or
    /// trailing text fails with `DecodeError::MalformedInput`; a message is
    /// never partially populated.
    pub fn from_json(json: String) -> (r: Result<RoriData, DecodeError>)
        ensures
            match decode_spec(json@) {
                Some(v) => r matches Ok(d) && d@ == v,
                None => r matches Err(e) && e == DecodeError::MalformedInput,
            },
    {
        let s = json.as_str();
        proof {
            assert(suffix(s@, 0) =~= s@);
        }
        let p1 = match match_lit(s, 0, "{\n  \"author\":\"") {
            Some(p) => p,
            None => {
                return Err(DecodeError::MalformedInput);
            },
        };
        let (author, p2) = match scan_field(s, p1) {
            Some(v) => v,
            None => {
                return Err(DecodeError::MalformedInput);
            },
        };
        let p3 = match match_lit(s, p2, ",\n  \"content\":\"") {
            Some(p) => p,
            None => {
                return Err(DecodeError::MalformedInput);
            },
        };
        let (content, p4) = match scan_field(s, p3) {
            Some(v) => v,
            None => {
                return Err(DecodeError::MalformedInput);
            },
        };
        let p5 = match match_lit(s, p4, ",\n  \"client\":\"") {
            Some(p) => p,
            None => {
                return Err(DecodeError::MalformedInput);
            },
        };
        let (client, p6) = match scan_field(s, p5) {
            Some(v) => v,
            None => {
                return Err(DecodeError::MalformedInput);
            },
        };
        let p7 = match match_lit(s, p6, ",\n  \"datatype\":\"") {
            Some(p) => p,
            None => {
                return Err(DecodeError::MalformedInput);
            },
        };
        let (datatype, p8) = match scan_field(s, p7) {
            Some(v) => v,
            None => {
                return Err(DecodeError::MalformedInput);
            },
        };
        let p9 = match match_lit(s, p8, ",\n  \"secret\":\"") {
            Some(p) => p,
            None => {
                return Err(DecodeError::MalformedInput);
            },
        };
        let (secret, p10) = match scan_field(s, p9) {
            Some(v) => v,
            None => {
                return Err(DecodeError::MalformedInput);
            },
        };
        let p11 = match match_lit(s, p10, "\n}") {
            Some(p) => p,
            None => {
                return Err(DecodeError::MalformedInput);
            },
        };
        if p11 != s.unicode_len() {
            return Err(DecodeError::MalformedInput);
        }
        let d = RoriData { author, content, client, datatype, secret };
        proof {
            assert(suffix(s@, p11 as int).len() == 0);
            assert(decode_spec(json@) matches Some(v) && d@ =~= v);
        }
        Ok(d)
    }
}

/// Appends the escaped form of `field` to `out`.
fn escape_into(out: &mut String, field: &str)
    ensures
        final(out)@ == old(out)@ + escape(field@),
{
    let n = field.unicode_len();
    let mut i: usize = 0;
    while i < n
        invariant
            i <= n,
            n == field@.len(),
            out@ == old(out)@ + escape(field@.subrange(0, i as int)),
        decreases n - i,
    {
        let c = field.get_char(i);
        if c == '"' {
            push_char(out, '\\');
            push_char(out, '"');
        } else {
            push_char(out, c);
        }
        proof {
            lemma_escape_snoc(field@, i as int);
            assert(out@ =~= old(out)@ + escape(field@.subrange(0, i + 1 as int)));
        }
        i = i + 1;
    }
    proof {
        assert(field@.subrange(0, n as int) =~= field@);
    }
}

/// Escaping distributes over concatenation.
proof fn lemma_escape_concat(s1: Seq<char>, s2: Seq<char>)
    ensures
        escape(s1 + s2) == escape(s1) + escape(s2),
    decreases s1.len(),
{
    if s1.len() == 0 {
        assert(s1 + s2 =~= s2);
        assert(escape(s1) + escape(s2) =~= escape(s2));
    } else {
        let t1 = s1.subrange(1, s1.len() as int);
        lemma_escape_concat(t1, s2);
        assert((s1 + s2).subrange(1, (s1 + s2).len() as int) =~= t1 + s2);
        assert(escape(s1 + s2) =~= escape(s1) + escape(s2));
    }
}

/// Escaping one more character appends that character's escaped form.
proof fn lemma_escape_snoc(s: Seq<char>, i: int)
    requires
        0 <= i < s.len(),
    ensures
        escape(s.subrange(0, i + 1)) == escape(s.subrange(0, i)) + esc1(s[i]),
{
    let p = s.subrange(0, i);
    let c = seq![s[i]];
    assert(s.subrange(0, i + 1) =~= p + c);
    lemma_escape_concat(p, c);
    assert(c.subrange(1, 1) =~= Seq::<char>::empty());
    assert(escape(c.subrange(1, 1)) == Seq::<char>::empty());
    assert(c[0] == s[i]);
    assert(escape(c) == esc1(c[0]) + escape(c.subrange(1, 1)));
    assert(escape(c) =~= esc1(s[i]));
}

/// Reads one quoted field: consumes characters up to the first bare double
/// quote, turning each `\"` pair back into a double quote, and returns the
/// field value together with the text after the closing quote. Yields nothing
/// when the input ends before a bare closing quote.
pub open spec fn scan(s: Seq<char>) -> Option<(Seq<char>, Seq<char>)>
    decreases s.len(),
{
    if s.len() == 0 {
        None
    } else if s[0] == '"' {
        Some((Seq::<char>::empty(), s.subrange(1, s.len() as int)))
    } else if s[0] == '\\' && s.len() >= 2 && s[1] == '"' {
        match scan(s.subrange(2, s.len() as int)) {
            None => None,
            Some((v, r)) => Some((seq!['"'] + v, r)),
        }
    } else {
        match scan(s.subrange(1, s.len() as int)) {
            None => None,
            Some((v, r)) => Some((seq![s[0]] + v, r)),
        }
    }
}

/// Removes an expected literal from the front of the text.
pub open spec fn strip(s: Seq<char>, p: Seq<char>) -> Option<Seq<char>> {
    if p.len() <= s.len() && s.subrange(0, p.len() as int) == p {
        Some(s.subrange(p.len() as int, s.len() as int))
    } else {
        None
    }
}

/// The strict decoder: the exact field-by-field parse of the wire text, or
/// nothing when the text does not match the expected object shape.
pub open spec fn decode_spec(s: Seq<char>) -> Option<MsgModel> {
    match strip(s, head_lit()) {
        None => None,
        Some(s1) => match scan(s1) {
            None => None,
            Some((author, r1)) => match strip(r1, sep_content()) {
                None => None,
                Some(s2) => match scan(s2) {
                    None => None,
                    Some((content, r2)) => match strip(r2, sep_client()) {
                        None => None,
                        Some(s3) => match scan(s3) {
                            None => None,
                            Some((client, r3)) => match strip(r3, sep_datatype()) {
                                None => None,
                                Some(s4) => match scan(s4) {
                                    None => None,
                                    Some((datatype, r4)) => match strip(r4, sep_secret()) {
                                        None => None,
                                        Some(s5) => match scan(s5) {
                                            None => None,
                                            Some((secret, r5)) => match strip(r5, tail_lit()) {
                                                None => None,
                                                Some(s6) => if s6.len() == 0 {
                                                    Some(MsgModel {
                                                        author,
                                                        content,
                                                        client,
                                                        datatype,
                                                        secret,
                                                    })
                                                } else {
                                                    None
                                                },
                                            },
                                        },
                                    },
                                },
                            },
                        },
                    },
                },
            },
        },
    }
}

/// The text from position `i` on.
pub open spec fn suffix(s: Seq<char>, i: int) -> Seq<char> {
    s.subrange(i, s.len() as int)
}

/// Checks that `lit` stands at position `pos` of `s` and returns the position
/// after it.
fn match_lit(s: &str, pos: usize, lit: &str) -> (r: Option<usize>)
    requires
        pos <= s@.len(),
    ensures
        match r {
            Some(p) => pos <= p <= s@.len() && p == pos + lit@.len() && strip(
                suffix(s@, pos as int),
                lit@,
            ) == Some(suffix(s@, p as int)),
            None => strip(suffix(s@, pos as int), lit@) is None,
        },
{
    let n = s.unicode_len();
    let ln = lit.unicode_len();
    if ln > n - pos {
        return None;
    }
    let mut i: usize = 0;
    while i < ln
        invariant
            i <= ln,
            pos + ln <= n,
            n == s@.len(),
            ln == lit@.len(),
            forall|j: int| 0 <= j < i ==> s@[pos + j] == lit@[j],
        decreases ln - i,
    {
        if s.get_char(pos + i) != lit.get_char(i) {
            proof {
                let su = suffix(s@, pos as int);
                assert(su[i as int] != lit@[i as int]);
                assert(su.subrange(0, ln as int) != lit@);
            }
            return None;
        }
        i = i + 1;
    }
    proof {
        let su = suffix(s@, pos as int);
        assert(su.subrange(0, ln as int) =~= lit@);
        assert(su.subrange(ln as int, su.len() as int) =~= suffix(s@, (pos + ln) as int));
    }
    Some(pos + ln)
}

/// Reads one quoted field of `s` starting at `pos`, as `scan` describes it.
fn scan_field(s: &str, pos: usize) -> (r: Option<(String, usize)>)
    requires
        pos <= s@.len(),
    ensures
        match r {
            Some(v) => v.1 <= s@.len() && scan(suffix(s@, pos as int)) == Some(
                (v.0@, suffix(s@, v.1 as int)),
            ),
            None => scan(suffix(s@, pos as int)) is None,
        },
{
    let n = s.unicode_len();
    let mut i = pos;
    let mut out = String::new();
    loop
        invariant
            pos <= i <= n,
            n == s@.len(),
            match scan(suffix(s@, i as int)) {
                Some((v, r)) => scan(suffix(s@, pos as int)) == Some((out@ + v, r)),
                None => scan(suffix(s@, pos as int)) is None,
            },
        decreases n - i,
    {
        if i >= n {
            proof {
                assert(suffix(s@, i as int) =~= Seq::<char>::empty());
            }
            return None;
        }
        let c = s.get_char(i);
        proof {
            assert(suffix(s@, i as int)[0] == s@[i as int]);
        }
        if c == '"' {
            proof {
                assert(suffix(s@, i as int).subrange(1, suffix(s@, i as int).len() as int)
                    =~= suffix(s@, i + 1 as int));
                assert(out@ + Seq::<char>::empty() =~= out@);
            }
            return Some((out, i + 1));
        } else if c == '\\' && i + 1 < n && s.get_char(i + 1) == '"' {
            proof {
                let su = suffix(s@, i as int);
                assert(su.len() >= 2 && su[1] == s@[i + 1]);
                assert(su.subrange(2, su.len() as int) =~= suffix(s@, i + 2 as int));
            }
            let ghost prev = out@;
            push_char(&mut out, '"');
            proof {
                match scan(suffix(s@, i + 2 as int)) {
                    Some((v, r)) => {
                        assert(out@ + v =~= prev + (seq!['"'] + v));
                    },
                    None => {},
                }
            }
            i = i + 2;
        } else {
            proof {
                let su = suffix(s@, i as int);
                assert(!(su[0] == '\\' && su.len() >= 2 && su[1] == '"'));
                assert(su.subrange(1, su.len() as int) =~= suffix(s@, i + 1 as int));
            }
            let ghost prev = out@;
            push_char(&mut out, c);
            proof {
                match scan(suffix(s@, i + 1 as int)) {
                    Some((v, r)) => {
                        assert(out@ + v =~= prev + (seq![c] + v));
                    },
                    None => {},
                }
            }
            i = i + 1;
        }
    }
}

/// Stripping an expected prefix from a text that begins with it leaves the rest.
proof fn lemma_strip_prefix(p: Seq<char>, r: Seq<char>)
    ensures
        strip(p + r, p) == Some(r),
{
    assert((p + r).subrange(0, p.len() as int) =~= p);
    assert((p + r).subrange(p.len() as int, (p + r).len() as int) =~= r);
}

/// Scanning the escaped form of a safe field, followed by its closing quote,
/// recovers exactly the field and the text after the quote.
proof fn lemma_scan_escape(v: Seq<char>, rest: Seq<char>)
    requires
        field_safe(v),
    ensures
        scan(escape(v) + quote() + rest) == Some((v, rest)),
    decreases v.len(),
{
    let t = escape(v) + quote() + rest;
    if v.len() == 0 {
        assert(t =~= quote() + rest);
        assert(t[0] == '"');
        assert(t.subrange(1, t.len() as int) =~= rest);
        assert(Seq::<char>::empty() =~= v);
    } else {
        let c = v[0];
        let tail = v.subrange(1, v.len() as int);
        assert(field_safe(tail));
        assert(escape(v) == esc1(c) + escape(tail));
        lemma_scan_escape(tail, rest);
        if c == '"' {
            assert(esc1(c) == seq!['\\', '"']);
            assert(escape(v)[0] == '\\' && escape(v)[1] == '"');
            assert(t[0] == '\\' && t[1] == '"');
            assert(t.subrange(2, t.len() as int) =~= escape(tail) + quote() + rest);
            assert(seq!['"'] + tail =~= v);
        } else {
            assert(esc1(c) == seq![c]);
            assert(t[0] == c);
            if c == '\\' {
                assert(tail.len() > 0);
                assert(escape(tail) == esc1(tail[0]) + escape(tail.subrange(1, tail.len() as int)));
                assert(escape(tail)[0] == esc1(tail[0])[0]);
                assert(escape(tail)[0] != '"');
                assert(t[1] == escape(tail)[0]);
            }
            assert(!(t[0] == '\\' && t.len() >= 2 && t[1] == '"'));
            assert(t.subrange(1, t.len() as int) =~= escape(tail) + quote() + rest);
            assert(seq![c] + tail =~= v);
        }
    }
}

/// Scanning is insensitive to text after the consumed part: extending the
/// input extends only the returned remainder.
proof fn lemma_scan_extend(s: Seq<char>, t: Seq<char>)
    requires
        scan(s) is Some,
    ensures
        match scan(s) {
            Some((v, r)) => scan(s + t) == Some((v, r + t)),
            None => true,
        },
    decreases s.len(),
{
    let u = s + t;
    assert(s.len() > 0);
    assert(u[0] == s[0]);
    if s[0] == '"' {
        assert(u.subrange(1, u.len() as int) =~= s.subrange(1, s.len() as int) + t);
    } else if s[0] == '\\' && s.len() >= 2 && s[1] == '"' {
        assert(u.len() >= 2 && u[1] == s[1]);
        assert(scan(s.subrange(2, s.len() as int)) is Some);
        lemma_scan_extend(s.subrange(2, s.len() as int), t);
        assert(u.subrange(2, u.len() as int) =~= s.subrange(2, s.len() as int) + t);
    } else {
        assert(scan(s.subrange(1, s.len() as int)) is Some);
        if s[0] == '\\' {
            assert(s.len() >= 2);
            assert(u[1] == s[1]);
        }
        lemma_scan_extend(s.subrange(1, s.len() as int), t);
        assert(u.subrange(1, u.len() as int) =~= s.subrange(1, s.len() as int) + t);
    }
}

/// Stripping is insensitive to text after the prefix.
proof fn lemma_strip_extend(s: Seq<char>, p: Seq<char>, t: Seq<char>)
    requires
        strip(s, p) is Some,
    ensures
        match strip(s, p) {
            Some(r) => strip(s + t, p) == Some(r + t),
            None => true,
        },
{
    let u = s + t;
    assert(u.subrange(0, p.len() as int) =~= s.subrange(0, p.len() as int));
    assert(u.subrange(p.len() as int, u.len() as int) =~= s.subrange(
        p.len() as int,
        s.len() as int,
    ) + t);
}

/// The text after the author field of an encoded message.
spec fn rest_author(m: MsgModel) -> Seq<char> {
    sep_content() + seg_content(m)
}

/// The text from the content field on.
spec fn seg_content(m: MsgModel) -> Seq<char> {
    escape(m.content) + quote() + rest_content(m)
}

/// The text after the content field.
spec fn rest_content(m: MsgModel) -> Seq<char> {
    sep_client() + seg_client(m)
}

/// The text from the client field on.
spec fn seg_client(m: MsgModel) -> Seq<char> {
    escape(m.client) + quote() + rest_client(m)
}

/// The text after the client field.
spec fn rest_client(m: MsgModel) -> Seq<char> {
    sep_datatype() + seg_datatype(m)
}

/// The text from the datatype field on.
spec fn seg_datatype(m: MsgModel) -> Seq<char> {
    m.datatype + quote() + rest_datatype(m)
}

/// The text after the datatype field.
spec fn rest_datatype(m: MsgModel) -> Seq<char> {
    sep_secret() + seg_secret(m)
}

/// The text from the secret field on.
spec fn seg_secret(m: MsgModel) -> Seq<char> {
    escape(m.secret) + quote() + tail_lit()
}

/// The text from the author field on.
spec fn seg_author(m: MsgModel) -> Seq<char> {
    escape(m.author) + quote() + rest_author(m)
}

/// The step-by-step parse of an encoded safe message: each strip and scan of
/// the decoder meets the matching layer of the encoding.
proof fn lemma_wire_chain(m: MsgModel)
    requires
        wire_safe(m),
    ensures
        wire_of(m) == head_lit() + seg_author(m),
        strip(wire_of(m), head_lit()) == Some(seg_author(m)),
        scan(seg_author(m)) == Some((m.author, rest_author(m))),
        strip(rest_author(m), sep_content()) == Some(seg_content(m)),
        scan(seg_content(m)) == Some((m.content, rest_content(m))),
        strip(rest_content(m), sep_client()) == Some(seg_client(m)),
        scan(seg_client(m)) == Some((m.client, rest_client(m))),
        strip(rest_client(m), sep_datatype()) == Some(seg_datatype(m)),
        scan(seg_datatype(m)) == Some((m.datatype, rest_datatype(m))),
        strip(rest_datatype(m), sep_secret()) == Some(seg_secret(m)),
        scan(seg_secret(m)) == Some((m.secret, tail_lit())),
        strip(tail_lit(), tail_lit()) == Some(Seq::<char>::empty()),
{
    assert(wire_of(m) =~= head_lit() + seg_author(m));
    lemma_strip_prefix(head_lit(), seg_author(m));
    lemma_scan_escape(m.author, rest_author(m));
    lemma_strip_prefix(sep_content(), seg_content(m));
    lemma_scan_escape(m.content, rest_content(m));
    lemma_strip_prefix(sep_client(), seg_client(m));
    lemma_scan_escape(m.client, rest_client(m));
    lemma_strip_prefix(sep_datatype(), seg_datatype(m));
    lemma_escape_noop(m.datatype);
    lemma_scan_escape(m.datatype, rest_datatype(m));
    lemma_strip_prefix(sep_secret(), seg_secret(m));
    lemma_scan_escape(m.secret, tail_lit());
    lemma_strip_prefix(tail_lit(), Seq::<char>::empty());
    assert(tail_lit() + Seq::<char>::empty() =~= tail_lit());
}

/// Round trip: decoding an encoded message yields the message back, for every
/// message that respects the grammar (no field ends in a backslash, and the
/// datatype, which is written verbatim, holds no double quote).
pub proof fn lemma_round_trip(m: MsgModel)
    requires
        wire_safe(m),
    ensures
        decode_spec(wire_of(m)) == Some(m),
{
    lemma_wire_chain(m);
    assert(decode_spec(wire_of(m)) matches Some(v) && v =~= m);
}

/// Escaping: a message whose content holds a double quote still decodes back
/// from its encoding to the original, unescaped content.
pub proof fn lemma_escaping_round_trip(m: MsgModel)
    requires
        wire_safe(m),
        exists|i: int| 0 <= i < m.content.len() && m.content[i] == '"',
    ensures
        decode_spec(wire_of(m)) matches Some(v) && v.content == m.content,
{
    lemma_round_trip(m);
}

/// Malformed input: text that does not even open the object shape never decodes.
pub proof fn lemma_non_object_fails(s: Seq<char>)
    requires
        s.len() == 0 || s[0] != '{',
    ensures
        decode_spec(s) is None,
{
    reveal_strlit("{\n  \"author\":\"");
    if s.len() > 0 && strip(s, head_lit()) is Some {
        assert(s.subrange(0, head_lit().len() as int)[0] == s[0]);
        assert(head_lit()[0] == '{');
        assert(false);
    }
}

/// Malformed input: a strict prefix of an encoded message never decodes, so a
/// truncated wire text fails rather than yield a partial message.
pub proof fn lemma_truncated_wire_fails(m: MsgModel, n: int)
    requires
        wire_safe(m),
        0 <= n < wire_of(m).len(),
    ensures
        decode_spec(wire_of(m).subrange(0, n)) is None,
{
    let w = wire_of(m);
    let p = w.subrange(0, n);
    let t = w.subrange(n, w.len() as int);
    assert(w =~= p + t);
    assert(t.len() > 0);
    lemma_wire_chain(m);
    match strip(p, head_lit()) {
        None => {},
        Some(s1) => {
            lemma_strip_extend(p, head_lit(), t);
            assert(s1 + t == seg_author(m));
            match scan(s1) {
                None => {},
                Some((a1, r1)) => {
                    lemma_scan_extend(s1, t);
                    assert(r1 + t == rest_author(m));
                    match strip(r1, sep_content()) {
                        None => {},
                        Some(s2) => {
                            lemma_strip_extend(r1, sep_content(), t);
                            assert(s2 + t == seg_content(m));
                            match scan(s2) {
                                None => {},
                                Some((c1, r2)) => {
                                    lemma_scan_extend(s2, t);
                                    assert(r2 + t == rest_content(m));
                                    match strip(r2, sep_client()) {
                                        None => {},
                                        Some(s3) => {
                                            lemma_strip_extend(r2, sep_client(), t);
                                            assert(s3 + t == seg_client(m));
                                            match scan(s3) {
                                                None => {},
                                                Some((cl1, r3)) => {
                                                    lemma_scan_extend(s3, t);
                                                    assert(r3 + t == rest_client(m));
                                                    lemma_truncated_tail(m, t, r3);
                                                },
                                            }
                                        },
                                    }
                                },
                            }
                        },
                    }
                },
            }
        },
    }
}

/// The datatype-to-tail half of the truncation argument: a prefix parse that
/// has reached the datatype separator cannot finish before the whole wire text.
proof fn lemma_truncated_tail(m: MsgModel, t: Seq<char>, r3: Seq<char>)
    requires
        wire_safe(m),
        t.len() > 0,
        r3 + t == rest_client(m),
    ensures
        match strip(r3, sep_datatype()) {
            None => true,
            Some(s4) => match scan(s4) {
                None => true,
                Some(v4) => match strip(v4.1, sep_secret()) {
                    None => true,
                    Some(s5) => match scan(s5) {
                        None => true,
                        Some(v5) => match strip(v5.1, tail_lit()) {
                            None => true,
                            Some(s6) => s6.len() != 0,
                        },
                    },
                },
            },
        },
{
    lemma_wire_chain(m);
    match strip(r3, sep_datatype()) {
        None => {},
        Some(s4) => {
            lemma_strip_extend(r3, sep_datatype(), t);
            assert(s4 + t == seg_datatype(m));
            match scan(s4) {
                None => {},
                Some((d1, r4)) => {
                    lemma_scan_extend(s4, t);
                    assert(r4 + t == rest_datatype(m));
                    match strip(r4, sep_secret()) {
                        None => {},
                        Some(s5) => {
                            lemma_strip_extend(r4, sep_secret(), t);
                            assert(s5 + t == seg_secret(m));
                            match scan(s5) {
                                None => {},
                                Some((sec1, r5)) => {
                                    lemma_scan_extend(s5, t);
                                    assert(r5 + t == tail_lit());
                                    match strip(r5, tail_lit()) {
                                        None => {},
                                        Some(s6) => {
                                            lemma_strip_extend(r5, tail_lit(), t);
                                            assert(s6 + t == Seq::<char>::empty());
                                            assert(s6.len() + t.len() == 0);
                                            assert(false);
                                        },
                                    }
                                },
                            }
                        },
                    }
                },
            }
        },
    }
}

/// A field with no double quote is its own escaped form.
proof fn lemma_escape_noop(s: Seq<char>)
    requires
        forall|i: int| 0 <= i < s.len() ==> s[i] != '"',
    ensures
        escape(s) == s,
    decreases s.len(),
{
    if s.len() == 0 {
        assert(escape(s) =~= s);
    } else {
        lemma_escape_noop(s.subrange(1, s.len() as int));
        assert(escape(s) =~= s);
    }
}

} // verus!
