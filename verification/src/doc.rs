//! The semi-structured event payload: a document of key/value entries, and
//! the serialized text form that carries it through the raw column, the
//! aggregate state and the merged output without loss.
//!
//! The codec writes one object with string-valued fields.  The two characters
//! that would be ambiguous inside a quoted string are escaped; control
//! characters cannot be serialized and make the document malformed, which the
//! encoder reports locally instead of sending anything.

use vstd::prelude::*;
use crate::text::str_eq;

verus! {

/// A character the codec refuses to serialize.
pub open spec fn is_ctrl_char(c: char) -> bool {
    (c as u32) < 32
}

/// Text free of control characters.
pub open spec fn no_ctrl(s: Seq<char>) -> bool {
    forall|k: int| 0 <= k < s.len() ==> !is_ctrl_char(s[k])
}

/// An entry whose key and value can both be serialized.
pub open spec fn entry_encodable(e: (Seq<char>, Seq<char>)) -> bool {
    no_ctrl(e.0) && no_ctrl(e.1)
}

/// A document whose every entry can be serialized.
pub open spec fn encodable(es: Seq<(Seq<char>, Seq<char>)>) -> bool {
    forall|i: int| 0 <= i < es.len() ==> entry_encodable(#[trigger] es[i])
}

/// No two entries share a key.
pub open spec fn unique_keys(es: Seq<(Seq<char>, Seq<char>)>) -> bool {
    forall|i: int, j: int| 0 <= i < j < es.len() ==> es[i].0 != es[j].0
}

/// Whether some entry has the given key.
pub open spec fn has_key(es: Seq<(Seq<char>, Seq<char>)>, k: Seq<char>) -> bool {
    exists|i: int| 0 <= i < es.len() && es[i].0 == k
}

/// Whether some entry is exactly the given key/value pair.
pub open spec fn has_pair(es: Seq<(Seq<char>, Seq<char>)>, k: Seq<char>, v: Seq<char>) -> bool {
    exists|i: int| 0 <= i < es.len() && es[i] == (k, v)
}

/// Document equality ignoring key order: the same number of entries, and
/// each entry of either document present in the other.
pub open spec fn doc_equiv(
    x: Seq<(Seq<char>, Seq<char>)>,
    y: Seq<(Seq<char>, Seq<char>)>,
) -> bool {
    x.len() == y.len() && (forall|i: int| 0 <= i < x.len() ==> has_pair(
        y,
        (#[trigger] x[i]).0,
        x[i].1,
    )) && (forall|i: int| 0 <= i < y.len() ==> has_pair(x, (#[trigger] y[i]).0, y[i].1))
}

/// The serialized form of one character inside a quoted string.
pub open spec fn esc_char(c: char) -> Seq<char> {
    if c == '"' || c == '\\' {
        seq!['\\', c]
    } else {
        seq![c]
    }
}

/// The serialized body of a quoted string.
pub open spec fn esc_str(s: Seq<char>) -> Seq<char>
    decreases s.len(),
{
    if s.len() == 0 {
        Seq::<char>::empty()
    } else {
        esc_char(s[0]) + esc_str(s.skip(1))
    }
}

/// A quoted string: the escaped body between two quotes.
pub open spec fn quoted(s: Seq<char>) -> Seq<char> {
    seq!['"'] + esc_str(s) + seq!['"']
}

/// The serialized form of one entry: quoted key, separator, quoted value.
pub open spec fn enc_entry(e: (Seq<char>, Seq<char>)) -> Seq<char> {
    quoted(e.0) + seq![':'] + quoted(e.1)
}

/// The serialized entry list, comma-separated.
pub open spec fn enc_entries(es: Seq<(Seq<char>, Seq<char>)>) -> Seq<char>
    decreases es.len(),
{
    if es.len() == 0 {
        Seq::<char>::empty()
    } else if es.len() == 1 {
        enc_entry(es[0])
    } else {
        enc_entry(es[0]) + seq![','] + enc_entries(es.skip(1))
    }
}

/// The serialized document: the entry list between braces.
pub open spec fn encode_doc_spec(es: Seq<(Seq<char>, Seq<char>)>) -> Seq<char> {
    seq!['{'] + enc_entries(es) + seq!['}']
}

/// Reads a quoted string's body.  The input starts right after the opening
/// quote; on success the result is the decoded body and the text after the
/// closing quote.
pub open spec fn dec_str(s: Seq<char>) -> Option<(Seq<char>, Seq<char>)>
    decreases s.len(),
{
    if s.len() == 0 {
        None
    } else if s[0] == '"' {
        Some((Seq::<char>::empty(), s.skip(1)))
    } else if s[0] == '\\' {
        if s.len() >= 2 && (s[1] == '"' || s[1] == '\\') {
            match dec_str(s.skip(2)) {
                Some(t) => Some((seq![s[1]] + t.0, t.1)),
                None => None,
            }
        } else {
            None
        }
    } else if is_ctrl_char(s[0]) {
        None
    } else {
        match dec_str(s.skip(1)) {
            Some(t) => Some((seq![s[0]] + t.0, t.1)),
            None => None,
        }
    }
}

/// A successful string decode consumes at least the closing quote.
pub proof fn lemma_dec_str_shrinks(s: Seq<char>)
    ensures
        (dec_str(s) matches Some(t) ==> t.1.len() < s.len()),
    decreases s.len(),
{
    if s.len() == 0 {
    } else if s[0] == '"' {
    } else if s[0] == '\\' {
        if s.len() >= 2 && (s[1] == '"' || s[1] == '\\') {
            lemma_dec_str_shrinks(s.skip(2));
        }
    } else if !is_ctrl_char(s[0]) {
        lemma_dec_str_shrinks(s.skip(1));
    }
}

/// Reads an entry list up to and including the closing brace.  The input
/// starts right after the opening brace; on success the result is the decoded
/// entries and the text after the closing brace.
pub open spec fn dec_entries(s: Seq<char>) -> Option<(Seq<(Seq<char>, Seq<char>)>, Seq<char>)>
    decreases s.len(),
{
    if s.len() == 0 {
        None
    } else if s[0] == '}' {
        Some((Seq::<(Seq<char>, Seq<char>)>::empty(), s.skip(1)))
    } else if s[0] == '"' {
        match dec_str(s.skip(1)) {
            Some(kt) => {
                if kt.1.len() >= 2 && kt.1[0] == ':' && kt.1[1] == '"' {
                    match dec_str(kt.1.skip(2)) {
                        Some(vt) => {
                            if vt.1.len() >= 1 && vt.1[0] == ',' {
                                proof {
                                    lemma_dec_str_shrinks(s.skip(1));
                                    lemma_dec_str_shrinks(kt.1.skip(2));
                                }
                                match dec_entries(vt.1.skip(1)) {
                                    Some(et) => Some((seq![(kt.0, vt.0)] + et.0, et.1)),
                                    None => None,
                                }
                            } else if vt.1.len() >= 1 && vt.1[0] == '}' {
                                Some((seq![(kt.0, vt.0)], vt.1.skip(1)))
                            } else {
                                None
                            }
                        },
                        None => None,
                    }
                } else {
                    None
                }
            },
            None => None,
        }
    } else {
        None
    }
}

/// Reads a whole serialized document.
pub open spec fn decode_doc(s: Seq<char>) -> Option<Seq<(Seq<char>, Seq<char>)>> {
    if s.len() >= 1 && s[0] == '{' {
        match dec_entries(s.skip(1)) {
            Some(et) => if et.1.len() == 0 {
                Some(et.0)
            } else {
                None
            },
            None => None,
        }
    } else {
        None
    }
}

/// Decoding undoes encoding for a quoted string, whatever follows it.
proof fn lemma_dec_str_of_esc(v: Seq<char>, rest: Seq<char>)
    requires
        no_ctrl(v),
    ensures
        dec_str(esc_str(v) + seq!['"'] + rest) == Some((v, rest)),
    decreases v.len(),
{
    let s = esc_str(v) + seq!['"'] + rest;
    if v.len() == 0 {
        assert(s =~= seq!['"'] + rest);
        assert(s[0] == '"');
        assert(s.skip(1) =~= rest);
    } else {
        let c = v[0];
        assert(!is_ctrl_char(c));
        assert(no_ctrl(v.skip(1)));
        lemma_dec_str_of_esc(v.skip(1), rest);
        let s1 = esc_str(v.skip(1)) + seq!['"'] + rest;
        if c == '"' || c == '\\' {
            assert(s =~= seq!['\\', c] + s1);
            assert(s[0] == '\\');
            assert(s.len() >= 2 && s[1] == c);
            assert(s.skip(2) =~= s1);
            assert(seq![c] + v.skip(1) =~= v);
        } else {
            assert(s =~= seq![c] + s1);
            assert(s[0] == c);
            assert(s.skip(1) =~= s1);
            assert(seq![c] + v.skip(1) =~= v);
        }
    }
}

/// Decoding undoes encoding for an entry list followed by the closing brace.
proof fn lemma_dec_entries_of_enc(es: Seq<(Seq<char>, Seq<char>)>)
    requires
        encodable(es),
    ensures
        dec_entries(enc_entries(es) + seq!['}']) == Some((es, Seq::<char>::empty())),
    decreases es.len(),
{
    let s = enc_entries(es) + seq!['}'];
    if es.len() == 0 {
        assert(s =~= seq!['}']);
        assert(s[0] == '}');
        assert(s.skip(1) =~= Seq::<char>::empty());
        assert(es =~= Seq::<(Seq<char>, Seq<char>)>::empty());
    } else {
        let k = es[0].0;
        let v = es[0].1;
        assert(entry_encodable(es[0]));
        if es.len() == 1 {
            let tail1 = seq![':'] + quoted(v) + seq!['}'];
            assert(s =~= seq!['"'] + (esc_str(k) + seq!['"'] + tail1));
            assert(s[0] == '"');
            assert(s[0] != '}');
            assert(s.skip(1) =~= esc_str(k) + seq!['"'] + tail1);
            lemma_dec_str_of_esc(k, tail1);
            assert(tail1.len() >= 2);
            assert(tail1[0] == ':');
            assert(tail1[1] == '"');
            assert(tail1.skip(2) =~= esc_str(v) + seq!['"'] + seq!['}']);
            lemma_dec_str_of_esc(v, seq!['}']);
            let r2 = seq!['}'];
            assert(r2[0] == '}');
            assert(r2[0] != ',');
            assert(r2.skip(1) =~= Seq::<char>::empty());
            assert(seq![(k, v)] =~= es);
        } else {
            assert(encodable(es.skip(1))) by {
                assert(forall|i: int| 0 <= i < es.skip(1).len() ==> #[trigger] es.skip(1)[i]
                    == es[i + 1]);
            }
            lemma_dec_entries_of_enc(es.skip(1));
            let tail2 = seq![','] + (enc_entries(es.skip(1)) + seq!['}']);
            let tail1 = seq![':'] + quoted(v) + tail2;
            assert(enc_entries(es) == enc_entry(es[0]) + seq![','] + enc_entries(es.skip(1)));
            assert(s =~= seq!['"'] + (esc_str(k) + seq!['"'] + tail1));
            assert(s[0] == '"');
            assert(s[0] != '}');
            assert(s.skip(1) =~= esc_str(k) + seq!['"'] + tail1);
            lemma_dec_str_of_esc(k, tail1);
            assert(tail1.len() >= 2);
            assert(tail1[0] == ':');
            assert(tail1[1] == '"');
            assert(tail1.skip(2) =~= esc_str(v) + seq!['"'] + tail2);
            lemma_dec_str_of_esc(v, tail2);
            assert(tail2[0] == ',');
            assert(tail2.skip(1) =~= enc_entries(es.skip(1)) + seq!['}']);
            assert(seq![(k, v)] + es.skip(1) =~= es);
        }
    }
}

/// Serialization round trip: decoding an encoded document yields exactly the
/// entries that were encoded, whatever their key order.
pub proof fn lemma_document_round_trip(es: Seq<(Seq<char>, Seq<char>)>)
    requires
        encodable(es),
    ensures
        decode_doc(encode_doc_spec(es)) == Some(es),
{
    let s = encode_doc_spec(es);
    assert(s[0] == '{');
    assert(s.skip(1) =~= enc_entries(es) + seq!['}']);
    lemma_dec_entries_of_enc(es);
}

/// Appending one character to a string appends its escaped form.
proof fn lemma_esc_str_push(p: Seq<char>, c: char)
    ensures
        esc_str(p.push(c)) == esc_str(p) + esc_char(c),
    decreases p.len(),
{
    if p.len() == 0 {
        assert(p.push(c)[0] == c);
        assert(p.push(c).skip(1) =~= Seq::<char>::empty());
        assert(esc_str(Seq::<char>::empty()) == Seq::<char>::empty());
        assert(esc_str(p.push(c)) =~= esc_char(c));
        assert(esc_str(p) + esc_char(c) =~= esc_char(c));
    } else {
        lemma_esc_str_push(p.skip(1), c);
        assert(p.push(c).skip(1) =~= p.skip(1).push(c));
        assert(p.push(c)[0] == p[0]);
        assert(esc_char(p[0]) + (esc_str(p.skip(1)) + esc_char(c)) =~= (esc_char(p[0]) + esc_str(
            p.skip(1),
        )) + esc_char(c));
    }
}

/// Appending one entry appends its serialized form, a comma before it when it
/// is not the first.
proof fn lemma_enc_entries_push(p: Seq<(Seq<char>, Seq<char>)>, e: (Seq<char>, Seq<char>))
    ensures
        p.len() == 0 ==> enc_entries(p.push(e)) == enc_entry(e),
        p.len() > 0 ==> enc_entries(p.push(e)) == enc_entries(p) + seq![','] + enc_entry(e),
    decreases p.len(),
{
    if p.len() == 0 {
        assert(p.push(e).len() == 1);
        assert(p.push(e)[0] == e);
    } else {
        lemma_enc_entries_push(p.skip(1), e);
        assert(p.push(e).skip(1) =~= p.skip(1).push(e));
        assert(p.push(e)[0] == p[0]);
        if p.len() == 1 {
            assert(p.skip(1).len() == 0);
            assert(enc_entries(p.push(e)) == enc_entry(p[0]) + seq![','] + enc_entry(e));
            assert(enc_entries(p) == enc_entry(p[0]));
        } else {
            assert(enc_entries(p.push(e)) == enc_entry(p[0]) + seq![','] + (enc_entries(p.skip(1))
                + seq![','] + enc_entry(e)));
            assert(enc_entries(p) == enc_entry(p[0]) + seq![','] + enc_entries(p.skip(1)));
            assert(enc_entry(p[0]) + seq![','] + (enc_entries(p.skip(1)) + seq![','] + enc_entry(e))
                =~= (enc_entry(p[0]) + seq![','] + enc_entries(p.skip(1))) + seq![','] + enc_entry(
                e,
            ));
        }
    }
}

/// A semi-structured document: ordered key/value entries with unique keys.
pub struct Document {
    entries: Vec<(String, String)>,
}

impl View for Document {
    type V = Seq<(Seq<char>, Seq<char>)>;

    closed spec fn view(&self) -> Self::V {
        self.entries@.map_values(|p: (String, String)| (p.0@, p.1@))
    }
}

/// The entries after setting a key to a value: the first entry with that key
/// is replaced, or a new entry is appended.
pub open spec fn spec_set(
    es: Seq<(Seq<char>, Seq<char>)>,
    k: Seq<char>,
    v: Seq<char>,
) -> Seq<(Seq<char>, Seq<char>)> {
    if has_key(es, k) {
        es.update(choose|i: int| 0 <= i < es.len() && es[i].0 == k, (k, v))
    } else {
        es.push((k, v))
    }
}

impl Document {
    /// Every key occurs once.
    pub open spec fn wf(&self) -> bool {
        unique_keys(self@)
    }

    /// A document with no entries.
    pub fn new() -> (r: Document)
        ensures
            r@ == Seq::<(Seq<char>, Seq<char>)>::empty(),
            r.wf(),
    {
        let r = Document { entries: Vec::new() };
        proof {
            assert(r@ =~= Seq::<(Seq<char>, Seq<char>)>::empty());
        }
        r
    }

    /// How many entries the document has.
    pub fn len(&self) -> (r: usize)
        ensures
            r == self@.len(),
    {
        self.entries.len()
    }

    /// The key of the entry at a position.
    pub fn key_at(&self, i: usize) -> (r: &String)
        requires
            i < self@.len(),
        ensures
            r@ == self@[i as int].0,
    {
        &self.entries[i].0
    }

    /// The value of the entry at a position.
    pub fn value_at(&self, i: usize) -> (r: &String)
        requires
            i < self@.len(),
        ensures
            r@ == self@[i as int].1,
    {
        &self.entries[i].1
    }

    /// Sets a field: replaces the value of an existing key, or appends a new
    /// entry.  Keys stay unique.
    pub fn set_field(&mut self, key: String, value: String)
        requires
            old(self).wf(),
        ensures
            final(self).wf(),
            final(self)@ == spec_set(old(self)@, key@, value@),
    {
        let ghost es0 = self@;
        let n = self.entries.len();
        let mut i: usize = 0;
        while i < n
            invariant
                i <= n,
                n == self@.len(),
                self@ == es0,
                es0 == old(self)@,
                unique_keys(es0),
                forall|j: int| 0 <= j < i ==> es0[j].0 != key@,
            decreases n - i,
        {
            if str_eq(self.entries[i].0.as_str(), key.as_str()) {
                proof {
                    assert(es0[i as int].0 == key@);
                    assert(has_key(es0, key@));
                    let w = choose|w: int| 0 <= w < es0.len() && es0[w].0 == key@;
                    assert(w == i as int);
                }
                self.entries.remove(i);
                self.entries.insert(i, (key, value));
                proof {
                    assert(self@ =~= es0.update(i as int, (key@, value@)));
                    assert(unique_keys(self@));
                }
                return ;
            }
            i = i + 1;
        }
        proof {
            assert(!has_key(es0, key@));
        }
        self.entries.push((key, value));
        proof {
            assert(self@ =~= es0.push((key@, value@)));
            assert(unique_keys(self@));
        }
    }

    /// Looks a key up: the value of the entry with that key, if any.
    pub fn lookup(&self, key: &str) -> (r: Option<String>)
        ensures
            (r matches Some(v) ==> exists|i: int|
                0 <= i < self@.len() && self@[i] == (key@, v@)),
            r is None ==> !has_key(self@, key@),
    {
        let n = self.entries.len();
        let mut i: usize = 0;
        while i < n
            invariant
                i <= n,
                n == self@.len(),
                forall|j: int| 0 <= j < i ==> self@[j].0 != key@,
            decreases n - i,
        {
            if str_eq(self.entries[i].0.as_str(), key) {
                let v = self.entries[i].1.clone();
                proof {
                    assert(self@[i as int] == (key@, v@));
                }
                return Some(v);
            }
            i = i + 1;
        }
        None
    }

    /// Whether some entry is exactly the given key/value pair.
    pub fn contains_pair(&self, key: &str, value: &str) -> (r: bool)
        ensures
            r == has_pair(self@, key@, value@),
    {
        let n = self.entries.len();
        let mut i: usize = 0;
        while i < n
            invariant
                i <= n,
                n == self@.len(),
                forall|j: int| 0 <= j < i ==> #[trigger] self@[j] != (key@, value@),
            decreases n - i,
        {
            if str_eq(self.entries[i].0.as_str(), key) && str_eq(
                self.entries[i].1.as_str(),
                value,
            ) {
                proof {
                    assert(self@[i as int] == (key@, value@));
                }
                return true;
            }
            i = i + 1;
        }
        false
    }

    /// Whether the two documents hold the same entries, whatever their key
    /// order.
    pub fn same_content(&self, other: &Document) -> (r: bool)
        ensures
            r == doc_equiv(self@, other@),
    {
        let n = self.entries.len();
        if n != other.entries.len() {
            return false;
        }
        let mut i: usize = 0;
        while i < n
            invariant
                i <= n,
                n == self@.len(),
                n == other@.len(),
                forall|j: int| 0 <= j < i ==> has_pair(other@, (#[trigger] self@[j]).0, self@[j].1),
            decreases n - i,
        {
            if !other.contains_pair(self.entries[i].0.as_str(), self.entries[i].1.as_str()) {
                proof {
                    assert(!has_pair(other@, self@[i as int].0, self@[i as int].1));
                }
                return false;
            }
            i = i + 1;
        }
        let mut i: usize = 0;
        while i < n
            invariant
                i <= n,
                n == self@.len(),
                n == other@.len(),
                forall|j: int| 0 <= j < n ==> has_pair(other@, (#[trigger] self@[j]).0, self@[j].1),
                forall|j: int| 0 <= j < i ==> has_pair(self@, (#[trigger] other@[j]).0, other@[j].1),
            decreases n - i,
        {
            if !self.contains_pair(other.entries[i].0.as_str(), other.entries[i].1.as_str()) {
                proof {
                    assert(!has_pair(self@, other@[i as int].0, other@[i as int].1));
                }
                return false;
            }
            i = i + 1;
        }
        true
    }

    /// Serializes the document, or reports it malformed: a key or value that
    /// holds a control character cannot be encoded for transport.
    pub fn to_json(&self) -> (r: Option<String>)
        ensures
            (r matches Some(t) ==> encodable(self@) && t@ == encode_doc_spec(self@)),
            r is None ==> !encodable(self@),
    {
        let n = self.entries.len();
        let mut i: usize = 0;
        while i < n
            invariant
                i <= n,
                n == self@.len(),
                forall|j: int| 0 <= j < i ==> entry_encodable(#[trigger] self@[j]),
            decreases n - i,
        {
            if !text_ok(self.entries[i].0.as_str()) {
                proof {
                    assert(!entry_encodable(self@[i as int]));
                }
                return None;
            }
            if !text_ok(self.entries[i].1.as_str()) {
                proof {
                    assert(!entry_encodable(self@[i as int]));
                }
                return None;
            }
            i = i + 1;
        }
        let mut out = String::new();
        out.push('{');
        proof {
            assert(out@ =~= seq!['{'] + enc_entries(self@.take(0)));
        }
        let mut i: usize = 0;
        while i < n
            invariant
                i <= n,
                n == self@.len(),
                encodable(self@),
                out@ == seq!['{'] + enc_entries(self@.take(i as int)),
            decreases n - i,
        {
            let ghost taken = self@.take(i as int);
            if i > 0 {
                out.push(',');
            }
            push_quoted(&mut out, self.entries[i].0.as_str());
            out.push(':');
            push_quoted(&mut out, self.entries[i].1.as_str());
            proof {
                let e = self@[i as int];
                assert(self@.take(i + 1) =~= taken.push(e));
                lemma_enc_entries_push(taken, e);
                if i == 0 {
                    assert(out@ =~= seq!['{'] + ((seq!['"'] + esc_str(e.0) + seq!['"'])
                        + seq![':'] + (seq!['"'] + esc_str(e.1) + seq!['"'])));
                    assert(out@ =~= seq!['{'] + enc_entries(taken.push(e)));
                } else {
                    assert(out@ =~= seq!['{'] + (enc_entries(taken) + seq![','] + ((seq!['"']
                        + esc_str(e.0) + seq!['"']) + seq![':'] + (seq!['"'] + esc_str(e.1)
                        + seq!['"']))));
                    assert(out@ =~= seq!['{'] + enc_entries(taken.push(e)));
                }
            }
            i = i + 1;
        }
        out.push('}');
        proof {
            assert(self@.take(n as int) =~= self@);
            assert(out@ =~= encode_doc_spec(self@));
        }
        Some(out)
    }
}

/// Reads a quoted string's body, starting right after the opening quote at
/// position `i`; returns the decoded body and the position after the closing
/// quote.
fn parse_string_at(s: &str, i: usize, n: usize) -> (r: Option<(String, usize)>)
    requires
        n == s@.len(),
        i <= n,
    ensures
        (r matches Some(p) ==> i < p.1 <= n && dec_str(s@.skip(i as int)) == Some((
            p.0@,
            s@.skip(p.1 as int),
        ))),
        r is None ==> dec_str(s@.skip(i as int)) is None,
    decreases n - i,
{
    if i >= n {
        proof {
            assert(s@.skip(i as int).len() == 0);
        }
        return None;
    }
    let c = s.get_char(i);
    proof {
        assert(s@.skip(i as int)[0] == s@[i as int]);
    }
    if c == '"' {
        proof {
            assert(s@.skip(i as int).skip(1) =~= s@.skip(i + 1));
        }
        return Some((String::new(), i + 1));
    }
    if c == '\\' {
        if i + 1 >= n {
            proof {
                assert(s@.skip(i as int).len() < 2);
            }
            return None;
        }
        let c2 = s.get_char(i + 1);
        proof {
            assert(s@.skip(i as int)[1] == s@[i + 1]);
        }
        if c2 == '"' || c2 == '\\' {
            proof {
                assert(s@.skip(i as int).skip(2) =~= s@.skip(i + 2));
            }
            match parse_string_at(s, i + 2, n) {
                Some(tail) => {
                    let j = tail.1;
                    let mut out = String::new();
                    out.push(c2);
                    out.append(tail.0.as_str());
                    proof {
                        assert(out@ =~= seq![c2] + tail.0@);
                    }
                    Some((out, j))
                },
                None => None,
            }
        } else {
            None
        }
    } else if (c as u32) < 32 {
        None
    } else {
        proof {
            assert(s@.skip(i as int).skip(1) =~= s@.skip(i + 1));
        }
        match parse_string_at(s, i + 1, n) {
            Some(tail) => {
                let j = tail.1;
                let mut out = String::new();
                out.push(c);
                out.append(tail.0.as_str());
                proof {
                    assert(out@ =~= seq![c] + tail.0@);
                }
                Some((out, j))
            },
            None => None,
        }
    }
}

/// Reads an entry list up to and including the closing brace, starting right
/// after the opening brace at position `i`.
fn parse_entries_at(s: &str, i: usize, n: usize) -> (r: Option<(Vec<(String, String)>, usize)>)
    requires
        n == s@.len(),
        i <= n,
    ensures
        (r matches Some(p) ==> i < p.1 <= n && dec_entries(s@.skip(i as int)) == Some((
            p.0@.map_values(|q: (String, String)| (q.0@, q.1@)),
            s@.skip(p.1 as int),
        ))),
        r is None ==> dec_entries(s@.skip(i as int)) is None,
    decreases n - i,
{
    if i >= n {
        proof {
            assert(s@.skip(i as int).len() == 0);
        }
        return None;
    }
    let c = s.get_char(i);
    proof {
        assert(s@.skip(i as int)[0] == s@[i as int]);
    }
    if c == '}' {
        let out: Vec<(String, String)> = Vec::new();
        proof {
            assert(s@.skip(i as int).skip(1) =~= s@.skip(i + 1));
            assert(out@.map_values(|q: (String, String)| (q.0@, q.1@)) =~= Seq::<
                (Seq<char>, Seq<char>),
            >::empty());
        }
        return Some((out, i + 1));
    }
    if c != '"' {
        return None;
    }
    proof {
        assert(s@.skip(i as int).skip(1) =~= s@.skip(i + 1));
    }
    match parse_string_at(s, i + 1, n) {
        None => None,
        Some(kp) => {
            let j1 = kp.1;
            if j1 >= n || j1 + 1 >= n {
                proof {
                    assert(s@.skip(j1 as int).len() < 2);
                }
                return None;
            }
            let c1 = s.get_char(j1);
            let c2 = s.get_char(j1 + 1);
            proof {
                assert(s@.skip(j1 as int)[0] == s@[j1 as int]);
                assert(s@.skip(j1 as int)[1] == s@[j1 + 1]);
            }
            if c1 != ':' || c2 != '"' {
                return None;
            }
            proof {
                assert(s@.skip(j1 as int).skip(2) =~= s@.skip(j1 + 2));
            }
            match parse_string_at(s, j1 + 2, n) {
                None => None,
                Some(vp) => {
                    let j2 = vp.1;
                    if j2 >= n {
                        proof {
                            assert(s@.skip(j2 as int).len() == 0);
                        }
                        return None;
                    }
                    let c3 = s.get_char(j2);
                    proof {
                        assert(s@.skip(j2 as int)[0] == s@[j2 as int]);
                    }
                    if c3 == ',' {
                        proof {
                            assert(s@.skip(j2 as int).skip(1) =~= s@.skip(j2 + 1));
                        }
                        match parse_entries_at(s, j2 + 1, n) {
                            None => None,
                            Some(ep) => {
                                let mut ev = ep.0;
                                let j3 = ep.1;
                                let ghost tail_map = ev@.map_values(
                                    |q: (String, String)| (q.0@, q.1@),
                                );
                                ev.insert(0, (kp.0, vp.0));
                                proof {
                                    assert(ev@.map_values(|q: (String, String)| (q.0@, q.1@))
                                        =~= seq![(kp.0@, vp.0@)] + tail_map);
                                }
                                Some((ev, j3))
                            },
                        }
                    } else if c3 == '}' {
                        let mut ev: Vec<(String, String)> = Vec::new();
                        ev.push((kp.0, vp.0));
                        proof {
                            assert(s@.skip(j2 as int).skip(1) =~= s@.skip(j2 + 1));
                            assert(ev@.map_values(|q: (String, String)| (q.0@, q.1@))
                                =~= seq![(kp.0@, vp.0@)]);
                        }
                        Some((ev, j2 + 1))
                    } else {
                        None
                    }
                },
            }
        },
    }
}

/// Parses a serialized document: the exact inverse of the encoder on its
/// own output, and a failure on any text the decoder does not accept.
pub fn parse_document(s: &str) -> (r: Option<Document>)
    ensures
        (r matches Some(d) ==> decode_doc(s@) == Some(d@)),
        r is None ==> decode_doc(s@) is None,
{
    let n = s.unicode_len();
    if n == 0 {
        return None;
    }
    if s.get_char(0) != '{' {
        return None;
    }
    match parse_entries_at(s, 1, n) {
        None => None,
        Some(p) => {
            let j = p.1;
            if j == n {
                proof {
                    assert(s@.skip(j as int).len() == 0);
                }
                Some(Document { entries: p.0 })
            } else {
                proof {
                    assert(s@.skip(j as int).len() != 0);
                }
                None
            }
        },
    }
}

/// Whether the text is free of control characters.
fn text_ok(s: &str) -> (r: bool)
    ensures
        r == no_ctrl(s@),
{
    let n = s.unicode_len();
    let mut i: usize = 0;
    while i < n
        invariant
            i <= n,
            n == s@.len(),
            forall|k: int| 0 <= k < i ==> !is_ctrl_char(s@[k]),
        decreases n - i,
    {
        let c = s.get_char(i);
        if (c as u32) < 32 {
            return false;
        }
        i = i + 1;
    }
    true
}

/// Appends the quoted, escaped form of the text.
fn push_quoted(out: &mut String, s: &str)
    ensures
        final(out)@ == old(out)@ + quoted(s@),
{
    let ghost base = out@;
    out.push('"');
    let n = s.unicode_len();
    let mut i: usize = 0;
    proof {
        assert(esc_str(s@.take(0)) =~= Seq::<char>::empty());
        assert(out@ =~= base + seq!['"'] + esc_str(s@.take(0)));
    }
    while i < n
        invariant
            i <= n,
            n == s@.len(),
            out@ == base + seq!['"'] + esc_str(s@.take(i as int)),
        decreases n - i,
    {
        let ghost taken = s@.take(i as int);
        let c = s.get_char(i);
        if c == '"' || c == '\\' {
            out.push('\\');
            out.push(c);
        } else {
            out.push(c);
        }
        proof {
            assert(s@.take(i + 1) =~= taken.push(c));
            lemma_esc_str_push(taken, c);
            assert(out@ =~= base + seq!['"'] + esc_str(taken.push(c)));
        }
        i = i + 1;
    }
    out.push('"');
    proof {
        assert(s@.take(n as int) =~= s@);
        assert(out@ =~= base + quoted(s@));
    }
}

} // verus!
