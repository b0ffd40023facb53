use vstd::prelude::*;

verus! {

#[verifier::external_type_specification]
#[verifier::external_body]
pub struct ExEncoderError(rustc_serialize::json::EncoderError);

/// Relies on std's `String::push`: it appends one character.
pub assume_specification[ String::push ](s: &mut String, ch: char)
    ensures
        final(s)@ == old(s)@.push(ch),
;

/// The reply sent for a message: a status word and a payload.
#[derive(Debug, Clone, PartialEq, Eq)]
pub struct ResponseRecord {
    pub status: String,
    pub data: String,
}

impl View for ResponseRecord {
    type V = (Seq<char>, Seq<char>);

    open spec fn view(&self) -> (Seq<char>, Seq<char>) {
        (self.status@, self.data@)
    }
}

/// The lower-case hexadecimal digit for `n`, `0 <= n < 16`.
pub open spec fn hex_digit(n: int) -> char {
    seq!['0', '1', '2', '3', '4', '5', '6', '7', '8', '9', 'a', 'b', 'c', 'd', 'e', 'f'][n]
}

/// The characters that stand for `c` inside a JSON string literal: quote,
/// backslash and control characters are escaped, all others stand as they are.
pub open spec fn escape_char(c: char) -> Seq<char> {
    if c == '"' {
        seq!['\\', '"']
    } else if c == '\\' {
        seq!['\\', '\\']
    } else if c == '\x08' {
        seq!['\\', 'b']
    } else if c == '\t' {
        seq!['\\', 't']
    } else if c == '\n' {
        seq!['\\', 'n']
    } else if c == '\x0c' {
        seq!['\\', 'f']
    } else if c == '\r' {
        seq!['\\', 'r']
    } else if (c as u32) < 0x20 || c == '\x7f' {
        seq!['\\', 'u', '0', '0', hex_digit((c as u32) as int / 16), hex_digit((c as u32) as int % 16)]
    } else {
        seq![c]
    }
}

/// Every character of `s` escaped, in order.
pub open spec fn escape_all(s: Seq<char>) -> Seq<char>
    decreases s.len(),
{
    if s.len() == 0 {
        Seq::empty()
    } else {
        escape_char(s[0]) + escape_all(s.drop_first())
    }
}

/// `s` as a JSON string literal.
pub open spec fn json_quote(s: Seq<char>) -> Seq<char> {
    seq!['"'] + escape_all(s) + seq!['"']
}

/// The text before the status literal.
pub open spec fn status_key() -> Seq<char> {
    seq!['{', '"', 's', 't', 'a', 't', 'u', 's', '"', ':']
}

/// The text between the two literals.
pub open spec fn data_key() -> Seq<char> {
    seq![',', '"', 'd', 'a', 't', 'a', '"', ':']
}

/// The wire form of a record: a JSON object with the string fields
/// `status` and `data`, in that order, without white space.
pub open spec fn encode_view(r: (Seq<char>, Seq<char>)) -> Seq<char> {
    status_key() + json_quote(r.0) + data_key() + json_quote(r.1) + seq!['}']
}

/// The record whose wire form is `t`, if there is one.
pub open spec fn decode_view(t: Seq<char>) -> Option<(Seq<char>, Seq<char>)> {
    if exists|r: (Seq<char>, Seq<char>)| encode_view(r) == t {
        Some(choose|r: (Seq<char>, Seq<char>)| encode_view(r) == t)
    } else {
        None
    }
}

/// The value of a lower-case hexadecimal digit.
pub open spec fn hex_value(c: char) -> Option<int> {
    if '0' <= c && c <= '9' {
        Some((c as u32) as int - ('0' as u32) as int)
    } else if 'a' <= c && c <= 'f' {
        Some((c as u32) as int - ('a' as u32) as int + 10)
    } else {
        None
    }
}

/// The character that the escape unit at the front of `t` stands for, with
/// the unit's length; `None` where `t` does not begin with a unit.
pub open spec fn unit_of(t: Seq<char>) -> Option<(char, int)> {
    if t.len() == 0 {
        None
    } else if t[0] != '\\' {
        Some((t[0], 1))
    } else if t.len() < 2 {
        None
    } else if t[1] == '"' {
        Some(('"', 2))
    } else if t[1] == '\\' {
        Some(('\\', 2))
    } else if t[1] == 'b' {
        Some(('\x08', 2))
    } else if t[1] == 't' {
        Some(('\t', 2))
    } else if t[1] == 'n' {
        Some(('\n', 2))
    } else if t[1] == 'f' {
        Some(('\x0c', 2))
    } else if t[1] == 'r' {
        Some(('\r', 2))
    } else if t[1] == 'u' && t.len() >= 6 && t[2] == '0' && t[3] == '0' && hex_value(t[4]) is Some
        && hex_value(t[4])->0 < 8 && hex_value(t[5]) is Some {
        Some(
            (((hex_value(t[4])->0 * 16 + hex_value(t[5])->0) as u8) as char, 6),
        )
    } else {
        None
    }
}

proof fn lemma_hex_round_trip(n: int)
    requires
        0 <= n < 16,
    ensures
        hex_value(hex_digit(n)) == Some(n),
{
    let d = seq!['0', '1', '2', '3', '4', '5', '6', '7', '8', '9', 'a', 'b', 'c', 'd', 'e', 'f'];
    assert(hex_digit(n) == d[n]);
}

/// Each escape unit reads back as the character it was written for.
proof fn lemma_unit_of_escape(c: char, m: Seq<char>)
    ensures
        unit_of(escape_char(c) + m) == Some((c, escape_char(c).len() as int)),
        1 <= escape_char(c).len() <= 6,
        escape_char(c)[0] != '"',
{
    let e = escape_char(c);
    let t = e + m;
    assert(forall|i: int| 0 <= i < e.len() ==> t[i] == e[i]);
    if (c as u32) < 0x20 && c != '\x08' && c != '\t' && c != '\n' && c != '\x0c' && c != '\r' {
        let v = (c as u32) as int;
        lemma_hex_round_trip(v / 16);
        lemma_hex_round_trip(v % 16);
        assert(v / 16 * 16 + v % 16 == v);
    } else if c == '\x7f' {
        lemma_hex_round_trip(7);
        lemma_hex_round_trip(15);
    }
}

proof fn lemma_escape_all_append(a: Seq<char>, b: Seq<char>)
    ensures
        escape_all(a + b) == escape_all(a) + escape_all(b),
    decreases a.len(),
{
    if a.len() == 0 {
        assert(a + b =~= b);
        assert(escape_all(a) + escape_all(b) =~= escape_all(b));
    } else {
        lemma_escape_all_append(a.drop_first(), b);
        assert((a + b).drop_first() =~= a.drop_first() + b);
        assert(escape_all(a + b) =~= escape_all(a) + escape_all(b));
    }
}

proof fn lemma_escape_one(c: char)
    ensures
        escape_all(seq![c]) == escape_char(c),
{
    let s = seq![c];
    assert(s.drop_first() =~= Seq::<char>::empty());
    assert(escape_all(s.drop_first()) == Seq::<char>::empty());
    assert(escape_all(s) == escape_char(s[0]) + escape_all(s.drop_first()));
    assert(escape_char(c) + Seq::<char>::empty() =~= escape_char(c));
}

/// A string literal's body ends at its first unescaped quote: the body and
/// what follows the quote are both determined by the text.
proof fn lemma_body_unique(a: Seq<char>, b: Seq<char>, ra: Seq<char>, rb: Seq<char>)
    requires
        escape_all(a) + seq!['"'] + ra == escape_all(b) + seq!['"'] + rb,
    ensures
        a == b,
        ra == rb,
    decreases a.len(),
{
    let ta = escape_all(a) + seq!['"'] + ra;
    let tb = escape_all(b) + seq!['"'] + rb;
    if a.len() == 0 {
        if b.len() > 0 {
            lemma_unit_of_escape(b[0], escape_all(b.drop_first()));
            assert(tb[0] == escape_char(b[0])[0]);
            assert(ta[0] == '"');
        }
        assert(a =~= b);
        assert(ra =~= ta.subrange(1, ta.len() as int));
        assert(rb =~= tb.subrange(1, tb.len() as int));
    } else if b.len() == 0 {
        lemma_unit_of_escape(a[0], escape_all(a.drop_first()));
        assert(ta[0] == escape_char(a[0])[0]);
        assert(tb[0] == '"');
    } else {
        let ma = escape_all(a.drop_first()) + seq!['"'] + ra;
        let mb = escape_all(b.drop_first()) + seq!['"'] + rb;
        assert(ta =~= escape_char(a[0]) + ma);
        assert(tb =~= escape_char(b[0]) + mb);
        lemma_unit_of_escape(a[0], ma);
        lemma_unit_of_escape(b[0], mb);
        let n = escape_char(a[0]).len() as int;
        assert(ma =~= ta.subrange(n, ta.len() as int));
        assert(mb =~= tb.subrange(n, tb.len() as int));
        lemma_body_unique(a.drop_first(), b.drop_first(), ra, rb);
        assert(a =~= seq![a[0]] + a.drop_first());
        assert(b =~= seq![b[0]] + b.drop_first());
    }
}

/// Two records with the same wire form are the same record.
proof fn lemma_encode_injective(a: (Seq<char>, Seq<char>), b: (Seq<char>, Seq<char>))
    requires
        encode_view(a) == encode_view(b),
    ensures
        a == b,
{
    let ta = encode_view(a);
    let tb = encode_view(b);
    let tail_a = data_key() + json_quote(a.1) + seq!['}'];
    let tail_b = data_key() + json_quote(b.1) + seq!['}'];
    assert(ta.subrange(11, ta.len() as int) =~= escape_all(a.0) + seq!['"'] + tail_a);
    assert(tb.subrange(11, tb.len() as int) =~= escape_all(b.0) + seq!['"'] + tail_b);
    lemma_body_unique(a.0, b.0, tail_a, tail_b);
    assert(tail_a.subrange(9, tail_a.len() as int) =~= escape_all(a.1) + seq!['"'] + seq!['}']);
    assert(tail_b.subrange(9, tail_b.len() as int) =~= escape_all(b.1) + seq!['"'] + seq!['}']);
    lemma_body_unique(a.1, b.1, seq!['}'], seq!['}']);
}

/// Decoding a record's wire form gives the record back.
pub proof fn lemma_decode_encode(r: (Seq<char>, Seq<char>))
    ensures
        decode_view(encode_view(r)) == Some(r),
{
    let t = encode_view(r);
    assert(exists|x: (Seq<char>, Seq<char>)| encode_view(x) == t);
    let c = choose|x: (Seq<char>, Seq<char>)| encode_view(x) == t;
    lemma_encode_injective(c, r);
}

/// Where a text decodes, encoding the record gives the text back.
pub proof fn lemma_encode_decode(t: Seq<char>)
    requires
        decode_view(t) is Some,
    ensures
        encode_view(decode_view(t)->0) == t,
{
}

/// Relies on rustc_serialize::json::encode on a string: it emits the string
/// through `escape_str`, which writes one JSON string literal with the
/// escapes of `escape_char`; writing into a `String` never fails.
#[verifier::external_body]
fn quote_json(s: &String) -> (r: Result<String, rustc_serialize::json::EncoderError>)
    ensures
        r is Ok,
        r is Ok ==> r->Ok_0@ == json_quote(s@),
{
    rustc_serialize::json::encode(s)
}

/// The string literal for `s`, as rustc_serialize writes it.
fn quoted(s: &String) -> (r: String)
    ensures
        r@ == json_quote(s@),
{
    match quote_json(s) {
        Ok(t) => t,
        Err(_) => String::new(),
    }
}

/// Serialises a record to its wire form.
pub fn encode(record: &ResponseRecord) -> (r: String)
    ensures
        r@ == encode_view(record@),
{
    let status = quoted(&record.status);
    let data = quoted(&record.data);
    let mut out = String::from_str("{\"status\":");
    out.append(status.as_str());
    out.append(",\"data\":");
    out.append(data.as_str());
    out.append("}");
    proof {
        reveal_strlit("{\"status\":");
        reveal_strlit(",\"data\":");
        reveal_strlit("}");
        assert("{\"status\":"@ =~= status_key());
        assert(",\"data\":"@ =~= data_key());
        assert("}"@ =~= seq!['}']);
    }
    out
}

/// The characters of `text`, in order.
fn chars_of(text: &str) -> (v: Vec<char>)
    ensures
        v@ == text@,
{
    let mut v: Vec<char> = Vec::new();
    for c in it: text.chars()
        invariant
            v@ == it.seq().take(it.index() as int),
    {
        v.push(c);
    }
    assert(v@ =~= text@);
    v
}

/// The value of a lower-case hexadecimal digit.
fn hex_value_of(c: char) -> (r: Option<u8>)
    ensures
        r matches Some(n) ==> hex_value(c) == Some(n as int),
        r is None ==> hex_value(c) is None,
{
    if '0' <= c && c <= '9' {
        Some(((c as u32) - ('0' as u32)) as u8)
    } else if 'a' <= c && c <= 'f' {
        Some(((c as u32) - ('a' as u32) + 10) as u8)
    } else {
        None
    }
}

/// Reads the escape unit that begins at `i`.
fn decode_unit(v: &Vec<char>, i: usize) -> (r: Option<(char, usize)>)
    requires
        i < v.len(),
    ensures
        r matches Some((c, n)) ==> unit_of(v@.subrange(i as int, v.len() as int)) == Some(
            (c, n as int),
        ),
        r is None ==> unit_of(v@.subrange(i as int, v.len() as int)) is None,
{
    let ghost t = v@.subrange(i as int, v.len() as int);
    let c = v[i];
    if c != '\\' {
        return Some((c, 1));
    }
    if v.len() - i < 2 {
        return None;
    }
    let e = v[i + 1];
    assert(t[1] == e);
    if e == '"' {
        Some(('"', 2))
    } else if e == '\\' {
        Some(('\\', 2))
    } else if e == 'b' {
        Some(('\x08', 2))
    } else if e == 't' {
        Some(('\t', 2))
    } else if e == 'n' {
        Some(('\n', 2))
    } else if e == 'f' {
        Some(('\x0c', 2))
    } else if e == 'r' {
        Some(('\r', 2))
    } else if e == 'u' && v.len() - i >= 6 && v[i + 2] == '0' && v[i + 3] == '0' {
        assert(t[2] == v[i + 2] && t[3] == v[i + 3] && t[4] == v[i + 4] && t[5] == v[i + 5]);
        match (hex_value_of(v[i + 4]), hex_value_of(v[i + 5])) {
            (Some(hi), Some(lo)) => {
                if hi < 8 {
                    Some(((hi * 16 + lo) as char, 6))
                } else {
                    None
                }
            },
            _ => None,
        }
    } else {
        None
    }
}

/// One step of reading a literal's body whose characters are known: after
/// `k` of them, the next unit is the next character's escape, or the
/// closing quote once all are read.
proof fn lemma_body_step(v: Seq<char>, start: int, s: Seq<char>, k: int)
    requires
        0 <= start,
        start + escape_all(s).len() + 1 <= v.len(),
        v.subrange(start, start + escape_all(s).len() + 1) == escape_all(s) + seq!['"'],
        0 <= k <= s.len(),
    ensures
        start + escape_all(s.take(k)).len() <= start + escape_all(s).len(),
        k == s.len() ==> v[start + escape_all(s.take(k)).len()] == '"',
        k < s.len() ==> {
            let i = start + escape_all(s.take(k)).len();
            let e = escape_char(s[k]);
            &&& v[i] != '"'
            &&& i + e.len() <= start + escape_all(s).len()
            &&& unit_of(v.subrange(i, v.len() as int)) == Some((s[k], e.len() as int))
            &&& escape_all(s.take(k + 1)) == escape_all(s.take(k)) + e
        },
{
    let whole = escape_all(s) + seq!['"'];
    let i = start + escape_all(s.take(k)).len();
    lemma_escape_all_append(s.take(k), s.skip(k));
    assert(s.take(k) + s.skip(k) =~= s);
    assert(v[i] == whole[i - start]);
    if k == s.len() {
        assert(s.take(k) =~= s);
    } else {
        let e = escape_char(s[k]);
        assert(s.skip(k).drop_first() =~= s.skip(k + 1));
        assert(escape_all(s.skip(k)) == e + escape_all(s.skip(k + 1)));
        assert(escape_all(s) =~= escape_all(s.take(k)) + e + escape_all(s.skip(k + 1)));
        let m = v.subrange(i + e.len(), v.len() as int);
        assert forall|j: int| 0 <= j < e.len() implies v[i + j] == e[j] by {
            assert(v[i + j] == v.subrange(start, start + whole.len())[i - start + j]);
            assert(whole[i - start + j] == e[j]);
        }
        assert(v.subrange(i, v.len() as int) =~= e + m);
        lemma_unit_of_escape(s[k], m);
        lemma_escape_all_append(s.take(k), seq![s[k]]);
        lemma_escape_one(s[k]);
        assert(s.take(k) + seq![s[k]] =~= s.take(k + 1));
    }
}

/// Reads a string literal's body from `start` up to its closing quote, and
/// gives the characters and the position after the quote. Where `want` is
/// given and the text there is its body, that is what is read.
fn parse_body(v: &Vec<char>, start: usize, Ghost(want): Ghost<Option<Seq<char>>>) -> (r: Option<
    (String, usize),
>)
    requires
        start <= v.len(),
        want matches Some(s) ==> start + escape_all(s).len() + 1 <= v.len() && v@.subrange(
            start as int,
            start + escape_all(s).len() + 1,
        ) == escape_all(s) + seq!['"'],
    ensures
        r matches Some((out, end)) ==> end <= v.len(),
        want matches Some(s) ==> r matches Some((out, end)) && out@ == s && end == start
            + escape_all(s).len() + 1,
{
    let mut out = String::new();
    let mut i: usize = start;
    while i < v.len()
        invariant
            start <= i <= v.len(),
            want matches Some(s) ==> {
                &&& start + escape_all(s).len() + 1 <= v.len()
                &&& v@.subrange(start as int, start + escape_all(s).len() + 1) == escape_all(s)
                    + seq!['"']
                &&& out@.len() <= s.len()
                &&& out@ == s.take(out@.len() as int)
                &&& i == start + escape_all(out@).len()
                &&& i <= start + escape_all(s).len()
            },
        decreases v.len() - i,
    {
        let ghost k = out@.len() as int;
        proof {
            if let Some(s) = want {
                lemma_body_step(v@, start as int, s, k);
            }
        }
        if v[i] == '"' {
            proof {
                if let Some(s) = want {
                    assert(out@ =~= s);
                }
            }
            return Some((out, i + 1));
        }
        match decode_unit(v, i) {
            Some((c, n)) => {
                proof {
                    if let Some(s) = want {
                        assert(out@.push(c) =~= s.take(k + 1));
                    }
                }
                out.push(c);
                i = i + n;
            },
            None => {
                return None;
            },
        }
    }
    None
}

/// Reads a record from its wire form; `None` where the text is not the wire
/// form of any record.
pub fn decode(text: &str) -> (r: Option<ResponseRecord>)
    ensures
        r matches Some(rec) ==> decode_view(text@) == Some(rec@),
        r is None ==> decode_view(text@) is None,
{
    let v = chars_of(text);
    let ghost target = decode_view(text@);
    let ghost want_status: Option<Seq<char>> = match target {
        Some(t) => Some(t.0),
        None => None,
    };
    let ghost want_data: Option<Seq<char>> = match target {
        Some(t) => Some(t.1),
        None => None,
    };
    proof {
        if let Some(t) = target {
            let e0 = escape_all(t.0);
            assert(e0.len() as int >= 0);
            let e1 = escape_all(t.1);
            assert(encode_view(t) == text@);
            assert(v@.subrange(11, 11 + e0.len() as int + 1) =~= e0 + seq!['"']);
            let after: int = 11 + e0.len() as int + 1;
            assert(v@.subrange(after + 9, after + 9 + e1.len() as int + 1) =~= e1 + seq!['"']);
        }
    }
    // The fixed text around the two literals is checked by the comparison
    // with the record's own wire form below.
    if v.len() < 11 {
        return None;
    }
    let (status, after) = match parse_body(&v, 11, Ghost(want_status)) {
        Some(p) => p,
        None => {
            return None;
        },
    };
    if v.len() - after < 9 {
        return None;
    }
    let (data, _end) = match parse_body(&v, after + 9, Ghost(want_data)) {
        Some(p) => p,
        None => {
            return None;
        },
    };
    let record = ResponseRecord { status, data };
    let wire = encode(&record);
    let given = String::from_str(text);
    if wire.eq(&given) {
        Some(record)
    } else {
        None
    }
}

} // verus!
