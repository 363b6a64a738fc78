//! The store's wire format: the whole record set as one structured text
//! document, `{"channels":{"<source>":{"title":"<title>"},...}}`, with `"`
//! and `\` escaped by a backslash inside the quoted strings.  Serializing
//! and parsing are both verified, and parsing a serialized record set is
//! proved to give the records back unchanged.

use vstd::prelude::*;
use vstd::string::StrSliceExecFns;

use crate::store::Channel;
use crate::store::Record;
use crate::store::RecordSet;
use crate::store::replay;
use crate::store::unique_keys;

verus! {

/// Relies on `String::push`: it appends exactly the one character.
#[verifier::external_body]
pub(crate) fn push_char(s: &mut String, c: char)
    ensures
        final(s)@ == old(s)@ + seq![c],
{
    s.push(c);
}

/// A `String` holding exactly the given characters.
pub(crate) fn chars_to_string(v: &[char]) -> (s: String)
    ensures
        s@ == v@,
{
    let mut s = String::new();
    let mut i: usize = 0;
    while i < v.len()
        invariant
            i <= v@.len(),
            s@ == v@.take(i as int),
        decreases v@.len() - i,
    {
        push_char(&mut s, v[i]);
        proof {
            assert(v@.take(i + 1) =~= v@.take(i as int) + seq![v@[i as int]]);
        }
        i = i + 1;
    }
    proof {
        assert(v@.take(v@.len() as int) =~= v@);
    }
    s
}

/// The characters of a string, in order.
pub(crate) fn chars_of(s: &str) -> (v: Vec<char>)
    ensures
        v@ == s@,
{
    let n = s.unicode_len();
    let mut v: Vec<char> = Vec::new();
    let mut i: usize = 0;
    while i < n
        invariant
            n == s@.len(),
            i <= n,
            v@ == s@.take(i as int),
        decreases n - i,
    {
        v.push(s.get_char(i));
        proof {
            assert(s@.take(i + 1) =~= s@.take(i as int) + seq![s@[i as int]]);
        }
        i = i + 1;
    }
    proof {
        assert(s@.take(n as int) =~= s@);
    }
    v
}

/// How one character is written inside a quoted string.
pub open spec fn esc_char(c: char) -> Seq<char> {
    if c == '"' || c == '\\' {
        seq!['\\', c]
    } else {
        seq![c]
    }
}

/// How a whole string is written between its quotes.
pub open spec fn esc(s: Seq<char>) -> Seq<char>
    decreases s.len(),
{
    if s.len() == 0 {
        Seq::empty()
    } else {
        esc_char(s[0]) + esc(s.drop_first())
    }
}

/// Escaping a concatenation escapes the parts.
pub proof fn lemma_esc_append(a: Seq<char>, b: Seq<char>)
    ensures
        esc(a + b) == esc(a) + esc(b),
    decreases a.len(),
{
    if a.len() == 0 {
        assert(a + b =~= b);
        assert(esc(a) + esc(b) =~= esc(b));
    } else {
        assert((a + b).drop_first() =~= a.drop_first() + b);
        lemma_esc_append(a.drop_first(), b);
        assert(esc(a + b) =~= esc_char(a[0]) + (esc(a.drop_first()) + esc(b)));
        assert(esc(a) + esc(b) =~= esc_char(a[0]) + (esc(a.drop_first()) + esc(b)));
    }
}

/// The document's fixed opening: the one top-level member's name.
pub open spec fn header_chars() -> Seq<char> {
    seq!['{', '"', 'c', 'h', 'a', 'n', 'n', 'e', 'l', 's', '"', ':', '{']
}

/// Between a record's source and its title, after the source's closing
/// quote: the title member's name inside the record's own object.
pub open spec fn key_sep_chars() -> Seq<char> {
    seq![':', '{', '"', 't', 'i', 't', 'l', 'e', '"', ':', '"']
}

/// The document's fixed closing.
pub open spec fn footer_chars() -> Seq<char> {
    seq!['}', '}']
}

/// One record on the wire.
pub open spec fn enc_entry(r: Record) -> Seq<char> {
    seq!['"'] + esc(r.0) + seq!['"'] + key_sep_chars() + esc(r.1) + seq!['"', '}']
}

/// One or more records, comma-separated.
pub open spec fn enc_entries(s: Seq<Record>) -> Seq<char>
    decreases s.len(),
{
    if s.len() == 0 {
        Seq::empty()
    } else if s.len() == 1 {
        enc_entry(s[0])
    } else {
        enc_entry(s[0]) + seq![','] + enc_entries(s.drop_first())
    }
}

/// The whole record set on the wire.
pub open spec fn encode(s: Seq<Record>) -> Seq<char> {
    header_chars() + enc_entries(s) + footer_chars()
}

/// Append a string's escaped form.
pub(crate) fn push_escaped(out: &mut String, s: &str)
    ensures
        final(out)@ == old(out)@ + esc(s@),
{
    let n = s.unicode_len();
    let mut i: usize = 0;
    while i < n
        invariant
            n == s@.len(),
            i <= n,
            out@ == old(out)@ + esc(s@.take(i as int)),
        decreases n - i,
    {
        let c = s.get_char(i);
        if c == '"' || c == '\\' {
            push_char(out, '\\');
            push_char(out, c);
        } else {
            push_char(out, c);
        }
        proof {
            assert(s@.take(i + 1) =~= s@.take(i as int) + seq![s@[i as int]]);
            lemma_esc_append(s@.take(i as int), seq![s@[i as int]]);
            assert(seq![s@[i as int]].drop_first() =~= Seq::<char>::empty());
            assert(esc(seq![s@[i as int]]) =~= esc_char(s@[i as int]) + esc(
                Seq::<char>::empty(),
            ));
            assert(esc_char(s@[i as int]) + Seq::<char>::empty() =~= esc_char(s@[i as int]));
            assert(out@ =~= old(out)@ + esc(s@.take(i + 1)));
        }
        i = i + 1;
    }
    proof {
        assert(s@.take(n as int) =~= s@);
    }
}

/// Serialize the complete record set into one document.
pub fn serialize_records(rs: &RecordSet) -> (out: String)
    ensures
        out@ == encode(rs@),
{
    let mut out = String::new();
    push_char(&mut out, '{');
    push_char(&mut out, '"');
    push_char(&mut out, 'c');
    push_char(&mut out, 'h');
    push_char(&mut out, 'a');
    push_char(&mut out, 'n');
    push_char(&mut out, 'n');
    push_char(&mut out, 'e');
    push_char(&mut out, 'l');
    push_char(&mut out, 's');
    push_char(&mut out, '"');
    push_char(&mut out, ':');
    push_char(&mut out, '{');
    proof {
        assert(out@ =~= header_chars());
    }
    let n = rs.len();
    let mut i: usize = 0;
    while i < n
        invariant
            n == rs@.len(),
            i <= n,
            out@ == header_chars() + enc_entries(rs@.take(i as int)),
        decreases n - i,
    {
        let ghost before = out@;
        if i > 0 {
            push_char(&mut out, ',');
        }
        let e = rs.entry_at(i);
        push_char(&mut out, '"');
        push_escaped(&mut out, e.0.as_str());
        push_char(&mut out, '"');
        push_char(&mut out, ':');
        push_char(&mut out, '{');
        push_char(&mut out, '"');
        push_char(&mut out, 't');
        push_char(&mut out, 'i');
        push_char(&mut out, 't');
        push_char(&mut out, 'l');
        push_char(&mut out, 'e');
        push_char(&mut out, '"');
        push_char(&mut out, ':');
        push_char(&mut out, '"');
        push_escaped(&mut out, e.1.title.as_str());
        push_char(&mut out, '"');
        push_char(&mut out, '}');
        proof {
            let entry = rs@[i as int];
            if i == 0 {
                assert(out@ =~= header_chars() + enc_entry(entry));
                assert(rs@.take(1) =~= seq![entry]);
                assert(enc_entries(rs@.take(1)) == enc_entry(entry));
            } else {
                assert(out@ =~= before + seq![','] + enc_entry(entry));
                lemma_enc_entries_snoc(rs@.take(i as int), entry);
                assert(rs@.take(i + 1) =~= rs@.take(i as int).push(entry));
                assert(out@ =~= header_chars() + enc_entries(rs@.take(i + 1)));
            }
        }
        i = i + 1;
    }
    proof {
        assert(rs@.take(n as int) =~= rs@);
    }
    push_char(&mut out, '}');
    push_char(&mut out, '}');
    proof {
        assert(out@ =~= encode(rs@));
    }
    out
}

/// Appending one record to a non-empty list appends a comma and its encoding.
proof fn lemma_enc_entries_snoc(s: Seq<Record>, r: Record)
    requires
        s.len() >= 1,
    ensures
        enc_entries(s.push(r)) == enc_entries(s) + seq![','] + enc_entry(r),
    decreases s.len(),
{
    if s.len() == 1 {
        assert(s.push(r).drop_first() =~= seq![r]);
        assert(enc_entries(s.push(r)) == enc_entry(s[0]) + seq![','] + enc_entries(seq![r]));
        assert(enc_entries(seq![r]) == enc_entry(r));
    } else {
        assert(s.push(r).drop_first() =~= s.drop_first().push(r));
        lemma_enc_entries_snoc(s.drop_first(), r);
        assert(enc_entries(s.push(r)) == enc_entry(s[0]) + seq![','] + enc_entries(
            s.drop_first().push(r),
        ));
        assert(enc_entry(s[0]) + seq![','] + (enc_entries(s.drop_first()) + seq![','] + enc_entry(
            r,
        )) =~= (enc_entry(s[0]) + seq![','] + enc_entries(s.drop_first())) + seq![','] + enc_entry(
            r,
        ));
    }
}

/// Parse a quoted string from after its opening quote: the characters up to
/// the unescaped closing quote, unescaped, and whatever follows that quote.
pub open spec fn dec_str(s: Seq<char>) -> Option<(Seq<char>, Seq<char>)>
    decreases s.len(),
{
    if s.len() == 0 {
        None
    } else if s[0] == '"' {
        Some((Seq::empty(), s.drop_first()))
    } else if s[0] == '\\' {
        if s.len() >= 2 && (s[1] == '"' || s[1] == '\\') {
            match dec_str(s.skip(2)) {
                Some(p) => Some((seq![s[1]] + p.0, p.1)),
                None => None,
            }
        } else {
            None
        }
    } else {
        match dec_str(s.drop_first()) {
            Some(p) => Some((seq![s[0]] + p.0, p.1)),
            None => None,
        }
    }
}

pub open spec fn starts_with(s: Seq<char>, lit: Seq<char>) -> bool {
    lit.len() <= s.len() && s.take(lit.len() as int) == lit
}

/// Consume an expected fixed text.
pub open spec fn dec_lit(s: Seq<char>, lit: Seq<char>) -> Option<Seq<char>> {
    if starts_with(s, lit) {
        Some(s.skip(lit.len() as int))
    } else {
        None
    }
}

/// Parse one record: a quoted source, the fixed text around the title
/// member, a quoted title, and the record's closing brace.
pub open spec fn dec_entry(s: Seq<char>) -> Option<(Record, Seq<char>)> {
    match dec_lit(s, seq!['"']) {
        None => None,
        Some(s1) => match dec_str(s1) {
            None => None,
            Some((k, s2)) => match dec_lit(s2, key_sep_chars()) {
                None => None,
                Some(s3) => match dec_str(s3) {
                    None => None,
                    Some((t, s4)) => match dec_lit(s4, seq!['}']) {
                        None => None,
                        Some(s5) => Some(((k, t), s5)),
                    },
                },
            },
        },
    }
}

/// A successful string parse consumes at least the closing quote.
proof fn lemma_dec_str_shrinks(s: Seq<char>)
    ensures
        dec_str(s) matches Some(p) ==> p.1.len() < s.len(),
    decreases s.len(),
{
    if s.len() == 0 {
    } else if s[0] == '"' {
    } else if s[0] == '\\' {
        if s.len() >= 2 && (s[1] == '"' || s[1] == '\\') {
            lemma_dec_str_shrinks(s.skip(2));
        }
    } else {
        lemma_dec_str_shrinks(s.drop_first());
    }
}

/// A successful record parse consumes at least one character.
proof fn lemma_dec_entry_shrinks(s: Seq<char>)
    ensures
        dec_entry(s) matches Some(p) ==> p.1.len() < s.len(),
{
    if dec_lit(s, seq!['"']) is Some {
        let s1 = dec_lit(s, seq!['"'])->Some_0;
        lemma_dec_str_shrinks(s1);
        if dec_str(s1) is Some {
            let s2 = dec_str(s1)->Some_0.1;
            if dec_lit(s2, key_sep_chars()) is Some {
                let s3 = dec_lit(s2, key_sep_chars())->Some_0;
                lemma_dec_str_shrinks(s3);
            }
        }
    }
}

/// Parse one or more comma-separated records.
pub open spec fn dec_entries(s: Seq<char>) -> Option<(Seq<Record>, Seq<char>)>
    decreases s.len(),
    via dec_entries_decreases
{
    match dec_entry(s) {
        None => None,
        Some((e, r)) => if r.len() > 0 && r[0] == ',' {
            match dec_entries(r.drop_first()) {
                None => None,
                Some((es, r2)) => Some((seq![e] + es, r2)),
            }
        } else {
            Some((seq![e], r))
        },
    }
}

#[via_fn]
proof fn dec_entries_decreases(s: Seq<char>) {
    lemma_dec_entry_shrinks(s);
}

/// Parse a whole document: header, no records or some, footer, nothing after.
pub open spec fn dec_records(s: Seq<char>) -> Option<Seq<Record>> {
    match dec_lit(s, header_chars()) {
        None => None,
        Some(s1) => if s1.len() > 0 && s1[0] == '}' {
            if s1 == footer_chars() {
                Some(Seq::empty())
            } else {
                None
            }
        } else {
            match dec_entries(s1) {
                None => None,
                Some((es, r)) => if r == footer_chars() {
                    Some(es)
                } else {
                    None
                },
            }
        },
    }
}

/// Consuming a fixed text it starts with leaves the rest.
proof fn lemma_dec_lit_of(lit: Seq<char>, rest: Seq<char>)
    ensures
        dec_lit(lit + rest, lit) == Some(rest),
{
    assert((lit + rest).take(lit.len() as int) =~= lit);
    assert((lit + rest).skip(lit.len() as int) =~= rest);
}

/// Parsing an escaped string up to its closing quote gives the string back.
proof fn lemma_dec_str_esc(k: Seq<char>, rest: Seq<char>)
    ensures
        dec_str(esc(k) + seq!['"'] + rest) == Some((k, rest)),
    decreases k.len(),
{
    let s = esc(k) + seq!['"'] + rest;
    if k.len() == 0 {
        assert(s =~= seq!['"'] + rest);
        assert(s[0] == '"');
        assert(s.drop_first() =~= rest);
        assert(k =~= Seq::<char>::empty());
    } else {
        let c = k[0];
        let k1 = k.drop_first();
        assert(esc(k) == esc_char(c) + esc(k1));
        lemma_dec_str_esc(k1, rest);
        if c == '"' || c == '\\' {
            assert(esc_char(c) =~= seq!['\\', c]);
            assert(s =~= seq!['\\', c] + (esc(k1) + seq!['"'] + rest));
            assert(s[0] == '\\');
            assert(s[1] == c);
            assert(s.len() >= 2);
            assert(s.skip(2) =~= esc(k1) + seq!['"'] + rest);
            assert(dec_str(s) == Some((seq![c] + k1, rest)));
            assert(seq![c] + k1 =~= k);
        } else {
            assert(esc_char(c) =~= seq![c]);
            assert(s =~= seq![c] + (esc(k1) + seq!['"'] + rest));
            assert(s[0] == c);
            assert(s.drop_first() =~= esc(k1) + seq!['"'] + rest);
            assert(dec_str(s) == Some((seq![c] + k1, rest)));
            assert(seq![c] + k1 =~= k);
        }
    }
}

/// Parsing an encoded record gives the record back.
proof fn lemma_dec_entry_enc(r: Record, rest: Seq<char>)
    ensures
        dec_entry(enc_entry(r) + rest) == Some((r, rest)),
{
    let s = enc_entry(r) + rest;
    let t4 = seq!['}'] + rest;
    let t3 = esc(r.1) + seq!['"'] + t4;
    let t2 = key_sep_chars() + t3;
    let t1 = esc(r.0) + seq!['"'] + t2;
    assert(s =~= seq!['"'] + t1);
    lemma_dec_lit_of(seq!['"'], t1);
    assert(dec_lit(s, seq!['"']) == Some(t1));
    lemma_dec_str_esc(r.0, t2);
    assert(dec_str(t1) == Some((r.0, t2)));
    lemma_dec_lit_of(key_sep_chars(), t3);
    assert(dec_lit(t2, key_sep_chars()) == Some(t3));
    lemma_dec_str_esc(r.1, t4);
    assert(dec_str(t3) == Some((r.1, t4)));
    lemma_dec_lit_of(seq!['}'], rest);
    assert(dec_lit(t4, seq!['}']) == Some(rest));
    assert((r.0, r.1) == r);
}

/// Parsing encoded records, followed by anything but a comma, gives the
/// records back.
proof fn lemma_dec_entries_enc(s: Seq<Record>, rest: Seq<char>)
    requires
        s.len() >= 1,
        !(rest.len() > 0 && rest[0] == ','),
    ensures
        dec_entries(enc_entries(s) + rest) == Some((s, rest)),
    decreases s.len(),
{
    if s.len() == 1 {
        assert(enc_entries(s) == enc_entry(s[0]));
        lemma_dec_entry_enc(s[0], rest);
        assert(dec_entries(enc_entries(s) + rest) == Some((seq![s[0]], rest)));
        assert(seq![s[0]] =~= s);
    } else {
        let tail = seq![','] + enc_entries(s.drop_first()) + rest;
        assert(enc_entries(s) + rest =~= enc_entry(s[0]) + tail);
        lemma_dec_entry_enc(s[0], tail);
        assert(tail[0] == ',');
        assert(tail.drop_first() =~= enc_entries(s.drop_first()) + rest);
        lemma_dec_entries_enc(s.drop_first(), rest);
        assert(dec_entries(enc_entries(s) + rest) == Some((seq![s[0]] + s.drop_first(), rest)));
        assert(seq![s[0]] + s.drop_first() =~= s);
    }
}

/// Parsing a serialized record set gives every record back, in order.
pub proof fn lemma_decode_encode(s: Seq<Record>)
    ensures
        dec_records(encode(s)) == Some(s),
{
    lemma_dec_lit_of(header_chars(), enc_entries(s) + footer_chars());
    assert(encode(s) =~= header_chars() + (enc_entries(s) + footer_chars()));
    let s1 = enc_entries(s) + footer_chars();
    assert(dec_lit(encode(s), header_chars()) == Some(s1));
    if s.len() == 0 {
        assert(s1 =~= footer_chars());
        assert(s1[0] == '}');
        assert(s =~= Seq::<Record>::empty());
    } else {
        assert(enc_entries(s)[0] == '"') by {
            assert(enc_entry(s[0])[0] == '"');
            if s.len() > 1 {
                assert(enc_entries(s)[0] == enc_entry(s[0])[0]);
            }
        }
        assert(s1[0] == '"');
        assert(!(s1.len() > 0 && s1[0] == '}'));
        assert(!(footer_chars().len() > 0 && footer_chars()[0] == ','));
        lemma_dec_entries_enc(s, footer_chars());
    }
}

/// Replaying records with pairwise distinct sources rebuilds them exactly.
pub proof fn lemma_replay_unique(s: Seq<Record>)
    requires
        unique_keys(s),
    ensures
        replay(s) == s,
    decreases s.len(),
{
    if s.len() > 0 {
        let s0 = s.drop_last();
        assert(unique_keys(s0)) by {
            assert(forall|a: int| 0 <= a < s0.len() ==> s0[a] == s[a]);
        }
        lemma_replay_unique(s0);
        assert(!crate::store::has_key(s0, s.last().0)) by {
            if crate::store::has_key(s0, s.last().0) {
                let w = crate::store::key_index(s0, s.last().0);
                assert(0 <= w < s0.len() && s0[w].0 == s.last().0);
                assert(s[w].0 != s[s.len() - 1].0);
            }
        }
        assert(replay(s) == s0.push(s.last()));
        assert(s0.push(s.last()) =~= s);
    }
}

/// Match a fixed text at a position; on success, the position after it.
fn expect_at(v: &Vec<char>, i: usize, lit: &Vec<char>) -> (r: Option<usize>)
    requires
        i <= v@.len(),
    ensures
        match r {
            Some(j) => {
                &&& i + lit@.len() == j
                &&& j <= v@.len()
                &&& dec_lit(v@.skip(i as int), lit@) == Some(v@.skip(j as int))
            },
            None => dec_lit(v@.skip(i as int), lit@) is None,
        },
{
    let s = Ghost(v@.skip(i as int));
    if v.len() - i < lit.len() {
        proof {
            assert(!starts_with(s@, lit@));
        }
        return None;
    }
    let n = v.len();
    let mut j: usize = 0;
    while j < lit.len()
        invariant
            n == v@.len(),
            i + lit@.len() <= n,
            j <= lit@.len(),
            s@ == v@.skip(i as int),
            forall|a: int| 0 <= a < j ==> v@[i + a] == lit@[a],
        decreases lit@.len() - j,
    {
        if v[i + j] != lit[j] {
            proof {
                assert(s@[j as int] == v@[i + j]);
                if starts_with(s@, lit@) {
                    assert(s@.take(lit@.len() as int)[j as int] == lit@[j as int]);
                }
            }
            return None;
        }
        j = j + 1;
    }
    proof {
        assert(s@.take(lit@.len() as int) =~= lit@) by {
            assert(forall|a: int|
                0 <= a < lit@.len() ==> s@.take(lit@.len() as int)[a] == v@[i + a]);
        }
        assert(s@.skip(lit@.len() as int) =~= v@.skip(i + lit@.len()));
    }
    Some(i + lit.len())
}

/// Parse a quoted string's remainder at a position, unescaping it.
fn parse_str_at(v: &Vec<char>, i: usize) -> (r: Option<(Vec<char>, usize)>)
    requires
        i <= v@.len(),
    ensures
        match r {
            Some(p) => {
                &&& i < p.1 <= v@.len()
                &&& dec_str(v@.skip(i as int)) == Some((p.0@, v@.skip(p.1 as int)))
            },
            None => dec_str(v@.skip(i as int)) is None,
        },
    decreases v@.len() - i,
{
    let s = Ghost(v@.skip(i as int));
    if i == v.len() {
        proof {
            assert(s@.len() == 0);
        }
        return None;
    }
    let c = v[i];
    proof {
        assert(s@[0] == c);
        assert(s@.drop_first() =~= v@.skip(i + 1));
    }
    if c == '"' {
        Some((Vec::new(), i + 1))
    } else if c == '\\' {
        if i + 1 < v.len() && (v[i + 1] == '"' || v[i + 1] == '\\') {
            proof {
                assert(s@[1] == v@[i + 1]);
                assert(s@.skip(2) =~= v@.skip(i + 2));
            }
            match parse_str_at(v, i + 2) {
                None => None,
                Some((mut content, j)) => {
                    let e = v[i + 1];
                    content.insert(0, e);
                    proof {
                        assert(content@ =~= seq![v@[i + 1]] + content@.drop_first());
                    }
                    Some((content, j))
                },
            }
        } else {
            proof {
                if s@.len() >= 2 && (s@[1] == '"' || s@[1] == '\\') {
                    assert(s@[1] == v@[i + 1]);
                    assert(i + 1 < v@.len());
                }
            }
            None
        }
    } else {
        match parse_str_at(v, i + 1) {
            None => None,
            Some((mut content, j)) => {
                content.insert(0, c);
                proof {
                    assert(content@ =~= seq![c] + content@.drop_first());
                }
                Some((content, j))
            },
        }
    }
}

/// Parse one record at a position.
fn parse_entry_at(v: &Vec<char>, i: usize, key_sep: &Vec<char>) -> (r: Option<
    ((String, Channel), usize),
>)
    requires
        i <= v@.len(),
        key_sep@ == key_sep_chars(),
    ensures
        match r {
            Some(p) => {
                &&& i < p.1 <= v@.len()
                &&& dec_entry(v@.skip(i as int)) == Some((
                    ((p.0).0@, (p.0).1@),
                    v@.skip(p.1 as int),
                ))
            },
            None => dec_entry(v@.skip(i as int)) is None,
        },
{
    let s = Ghost(v@.skip(i as int));
    if !(i < v.len() && v[i] == '"') {
        proof {
            if starts_with(s@, seq!['"']) {
                assert(s@.take(1)[0] == s@[0]);
                assert(s@[0] == v@[i as int]);
            }
        }
        return None;
    }
    proof {
        assert(s@[0] == '"');
        assert(s@.take(1) =~= seq![s@[0]]);
        assert(s@.skip(1) =~= v@.skip(i + 1));
        assert(dec_lit(s@, seq!['"']) == Some(v@.skip(i + 1)));
    }
    match parse_str_at(v, i + 1) {
        None => None,
        Some((key_chars, j1)) => {
            match expect_at(v, j1, key_sep) {
                None => None,
                Some(j2) => {
                    match parse_str_at(v, j2) {
                        None => None,
                        Some((title_chars, j3)) => {
                            let s4 = Ghost(v@.skip(j3 as int));
                            if j3 < v.len() && v[j3] == '}' {
                                proof {
                                    assert(s4@[0] == '}');
                                    assert(s4@.take(1) =~= seq![s4@[0]]);
                                    assert(s4@.skip(1) =~= v@.skip(j3 + 1));
                                    assert(dec_lit(s4@, seq!['}']) == Some(v@.skip(j3 + 1)));
                                }
                                let source = chars_to_string(key_chars.as_slice());
                                let title = chars_to_string(title_chars.as_slice());
                                Some(((source, Channel { title }), j3 + 1))
                            } else {
                                proof {
                                    if starts_with(s4@, seq!['}']) {
                                        assert(s4@.take(1)[0] == s4@[0]);
                                        assert(s4@[0] == v@[j3 as int]);
                                    }
                                }
                                None
                            }
                        },
                    }
                },
            }
        },
    }
}

/// The records a list of parsed pairs stands for.
pub open spec fn pairs_view(es: Seq<(String, Channel)>) -> Seq<Record> {
    es.map_values(|e: (String, Channel)| (e.0@, e.1@))
}

/// Parse one or more comma-separated records at a position.
fn parse_entries_at(v: &Vec<char>, i: usize, key_sep: &Vec<char>) -> (r: Option<
    (Vec<(String, Channel)>, usize),
>)
    requires
        i <= v@.len(),
        key_sep@ == key_sep_chars(),
    ensures
        match r {
            Some(p) => {
                &&& p.1 <= v@.len()
                &&& dec_entries(v@.skip(i as int)) == Some((pairs_view(p.0@), v@.skip(p.1 as int)))
            },
            None => dec_entries(v@.skip(i as int)) is None,
        },
    decreases v@.len() - i,
{
    match parse_entry_at(v, i, key_sep) {
        None => None,
        Some((e, j)) => {
            if j < v.len() && v[j] == ',' {
                proof {
                    assert(v@.skip(j as int)[0] == ',');
                    assert(v@.skip(j as int).drop_first() =~= v@.skip(j + 1));
                }
                match parse_entries_at(v, j + 1, key_sep) {
                    None => None,
                    Some((mut es, j2)) => {
                        let ghost tail_pairs = pairs_view(es@);
                        let ghost e_pair = (e.0@, e.1@);
                        es.insert(0, e);
                        proof {
                            assert(pairs_view(es@) =~= seq![e_pair] + tail_pairs);
                        }
                        Some((es, j2))
                    },
                }
            } else {
                proof {
                    let rest = v@.skip(j as int);
                    if rest.len() > 0 && rest[0] == ',' {
                        assert(rest[0] == v@[j as int]);
                    }
                }
                let mut es: Vec<(String, Channel)> = Vec::new();
                let ghost e_pair = (e.0@, e.1@);
                es.push(e);
                proof {
                    assert(pairs_view(es@) =~= seq![e_pair]);
                }
                Some((es, j))
            }
        },
    }
}

/// Parse a whole document back into a record set.  Should distinct records
/// name the same source, the later one wins, as with live upserts; on a
/// serialized record set the records come back exactly.
pub fn parse_records(s: &str) -> (r: Option<RecordSet>)
    ensures
        match r {
            Some(rs) => {
                &&& rs.wf()
                &&& dec_records(s@) is Some
                &&& rs@ == replay(dec_records(s@)->Some_0)
            },
            None => dec_records(s@) is None,
        },
{
    let v = chars_of(s);
    let header: Vec<char> = vec![
        '{',
        '"',
        'c',
        'h',
        'a',
        'n',
        'n',
        'e',
        'l',
        's',
        '"',
        ':',
        '{',
    ];
    let key_sep: Vec<char> = vec![':', '{', '"', 't', 'i', 't', 'l', 'e', '"', ':', '"'];
    let footer: Vec<char> = vec!['}', '}'];
    proof {
        assert(header@ =~= header_chars());
        assert(key_sep@ =~= key_sep_chars());
        assert(footer@ =~= footer_chars());
        assert(v@.skip(0) =~= s@);
    }
    match expect_at(&v, 0, &header) {
        None => None,
        Some(j0) => {
            let s1 = Ghost(v@.skip(j0 as int));
            if j0 < v.len() && v[j0] == '}' {
                proof {
                    assert(s1@[0] == '}');
                }
                match expect_at(&v, j0, &footer) {
                    None => {
                        proof {
                            if s1@ == footer_chars() {
                                lemma_dec_lit_of(footer_chars(), Seq::<char>::empty());
                                assert(footer_chars() + Seq::<char>::empty() =~= footer_chars());
                            }
                        }
                        None
                    },
                    Some(j1) => {
                        if j1 == v.len() {
                            proof {
                                assert(v@.skip(j1 as int).len() == 0);
                                assert(s1@.take(footer_chars().len() as int) == footer_chars());
                                assert(s1@ =~= footer_chars()) by {
                                    assert(s1@.len() == v@.len() - j0);
                                    assert(s1@.take(2)[0] == s1@[0]);
                                    assert(s1@.take(2)[1] == s1@[1]);
                                }
                                assert(replay(Seq::<Record>::empty()) == Seq::<Record>::empty());
                            }
                            Some(RecordSet::new())
                        } else {
                            proof {
                                if s1@ == footer_chars() {
                                    assert(s1@.len() == 2);
                                    assert(j0 + 2 == v@.len());
                                }
                            }
                            None
                        }
                    },
                }
            } else {
                proof {
                    if s1@.len() > 0 && s1@[0] == '}' {
                        assert(s1@[0] == v@[j0 as int]);
                    }
                }
                match parse_entries_at(&v, j0, &key_sep) {
                    None => None,
                    Some((es, j1)) => {
                        match expect_at(&v, j1, &footer) {
                            None => {
                                proof {
                                    let rest = v@.skip(j1 as int);
                                    if rest == footer_chars() {
                                        lemma_dec_lit_of(footer_chars(), Seq::<char>::empty());
                                        assert(footer_chars() + Seq::<char>::empty()
                                            =~= footer_chars());
                                    }
                                }
                                None
                            },
                            Some(j2) => {
                                if j2 == v.len() {
                                    proof {
                                        let rest = v@.skip(j1 as int);
                                        assert(v@.skip(j2 as int).len() == 0);
                                        assert(rest.take(footer_chars().len() as int)
                                            == footer_chars());
                                        assert(rest =~= footer_chars()) by {
                                            assert(rest.len() == v@.len() - j1);
                                            assert(rest.take(2)[0] == rest[0]);
                                            assert(rest.take(2)[1] == rest[1]);
                                        }
                                    }
                                    let ghost pairs = pairs_view(es@);
                                    let mut rs = RecordSet::new();
                                    let mut k: usize = 0;
                                    while k < es.len()
                                        invariant
                                            k <= es@.len(),
                                            pairs == pairs_view(es@),
                                            pairs.len() == es@.len(),
                                            rs.wf(),
                                            rs@ == replay(pairs.take(k as int)),
                                        decreases es@.len() - k,
                                    {
                                        proof {
                                            assert(pairs[k as int] == (
                                                es@[k as int].0@,
                                                es@[k as int].1@,
                                            ));
                                        }
                                        let source = es[k].0.clone();
                                        let channel = es[k].1.clone();
                                        rs.upsert(source, channel);
                                        proof {
                                            assert(pairs.take(k + 1).drop_last() =~= pairs.take(
                                                k as int,
                                            ));
                                            assert(pairs.take(k + 1).last() == pairs[k as int]);
                                        }
                                        k = k + 1;
                                    }
                                    proof {
                                        assert(pairs.take(es@.len() as int) =~= pairs);
                                    }
                                    Some(rs)
                                } else {
                                    proof {
                                        let rest = v@.skip(j1 as int);
                                        if rest == footer_chars() {
                                            assert(rest.len() == 2);
                                            assert(j1 + 2 == v@.len());
                                        }
                                    }
                                    None
                                }
                            },
                        }
                    },
                }
            }
        },
    }
}

/// Round-trip: a serialized record set parses back to records with the same
/// sources and equal documents, independent of insertion order; replaying
/// them into a fresh store changes nothing.
pub proof fn lemma_round_trip(s: Seq<Record>)
    requires
        unique_keys(s),
    ensures
        dec_records(encode(s)) == Some(s),
        replay(s) == s,
{
    lemma_decode_encode(s);
    lemma_replay_unique(s);
}

} // verus!
