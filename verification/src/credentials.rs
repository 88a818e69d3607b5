//! The persisted credential map: a key-to-cookie mapping serialized as a
//! JSON object of strings. The codec here is exact: encoding escapes quotes
//! and backslashes, decoding inverts it, and decoding an encoded map gives
//! the map back unchanged.

use vstd::prelude::*;

verus! {

// ---------------------------------------------------------------------------
// Encoding, at the specification level.
// ---------------------------------------------------------------------------
/// The escape of one string character: quotes and backslashes get a
/// backslash prefix, everything else stands as it is.
pub open spec fn escape_char(c: char) -> Seq<char> {
    if c == '"' || c == '\\' {
        seq!['\\', c]
    } else {
        seq![c]
    }
}

/// The escape of a whole string.
pub open spec fn escape_seq(s: Seq<char>) -> Seq<char>
    decreases s.len(),
{
    if s.len() == 0 {
        Seq::empty()
    } else {
        escape_char(s[0]) + escape_seq(s.drop_first())
    }
}

/// A JSON string literal: the escaped text between quotes.
pub open spec fn encode_string(s: Seq<char>) -> Seq<char> {
    seq!['"'] + escape_seq(s) + seq!['"']
}

/// One `"key":"value"` member.
pub open spec fn encode_entry(k: Seq<char>, v: Seq<char>) -> Seq<char> {
    encode_string(k) + seq![':'] + encode_string(v)
}

/// The members of an object, separated by commas.
pub open spec fn encode_entries(es: Seq<(Seq<char>, Seq<char>)>) -> Seq<char>
    decreases es.len(),
{
    if es.len() == 0 {
        Seq::empty()
    } else if es.len() == 1 {
        encode_entry(es[0].0, es[0].1)
    } else {
        encode_entry(es[0].0, es[0].1) + seq![','] + encode_entries(es.drop_first())
    }
}

/// A whole credential map as a JSON object.
pub open spec fn json_encode(es: Seq<(Seq<char>, Seq<char>)>) -> Seq<char> {
    seq!['{'] + encode_entries(es) + seq!['}']
}

// ---------------------------------------------------------------------------
// Decoding, at the specification level.
// ---------------------------------------------------------------------------
/// Reads a string body up to its closing quote, undoing the escapes;
/// yields the string and the input that follows the closing quote.
pub open spec fn parse_string_body(s: Seq<char>) -> Option<(Seq<char>, Seq<char>)>
    decreases s.len(),
{
    if s.len() == 0 {
        None
    } else if s[0] == '"' {
        Some((Seq::empty(), s.drop_first()))
    } else if s[0] == '\\' {
        if s.len() >= 2 && (s[1] == '"' || s[1] == '\\') {
            match parse_string_body(s.skip(2)) {
                Some((v, rest)) => Some((seq![s[1]] + v, rest)),
                None => None,
            }
        } else {
            None
        }
    } else {
        match parse_string_body(s.drop_first()) {
            Some((v, rest)) => Some((seq![s[0]] + v, rest)),
            None => None,
        }
    }
}

/// Reads a quoted string, opening quote included.
pub open spec fn parse_quoted(s: Seq<char>) -> Option<(Seq<char>, Seq<char>)> {
    if s.len() > 0 && s[0] == '"' {
        parse_string_body(s.drop_first())
    } else {
        None
    }
}

/// What is left after a string body is shorter than the input: at least the
/// closing quote is consumed.
pub proof fn lemma_parse_string_body_consumes(s: Seq<char>)
    ensures
        parse_string_body(s) matches Some((v, rest)) ==> rest.len() < s.len(),
    decreases s.len(),
{
    if s.len() == 0 {
    } else if s[0] == '"' {
    } else if s[0] == '\\' {
        if s.len() >= 2 && (s[1] == '"' || s[1] == '\\') {
            lemma_parse_string_body_consumes(s.skip(2));
        }
    } else {
        lemma_parse_string_body_consumes(s.drop_first());
    }
}

/// Reads `"key":"value"` members up to and including the closing brace;
/// yields the members and the input that follows the brace.
pub open spec fn parse_entries(s: Seq<char>) -> Option<
    (Seq<(Seq<char>, Seq<char>)>, Seq<char>),
>
    decreases s.len(),
    via parse_entries_decreases
{
    match parse_quoted(s) {
        None => None,
        Some((k, r1)) => {
            if r1.len() > 0 && r1[0] == ':' {
                match parse_quoted(r1.drop_first()) {
                    None => None,
                    Some((v, r2)) => {
                        if r2.len() > 0 && r2[0] == ',' {
                            match parse_entries(r2.drop_first()) {
                                None => None,
                                Some((es, r3)) => Some((seq![(k, v)] + es, r3)),
                            }
                        } else if r2.len() > 0 && r2[0] == '}' {
                            Some((seq![(k, v)], r2.drop_first()))
                        } else {
                            None
                        }
                    },
                }
            } else {
                None
            }
        },
    }
}

#[via_fn]
proof fn parse_entries_decreases(s: Seq<char>) {
    if s.len() > 0 && s[0] == '"' {
        lemma_parse_string_body_consumes(s.drop_first());
        match parse_quoted(s) {
            Some((k, r1)) => {
                if r1.len() > 0 && r1[0] == ':' && r1.drop_first().len() > 0 && r1.drop_first()[0]
                    == '"' {
                    lemma_parse_string_body_consumes(r1.drop_first().drop_first());
                }
            },
            None => {},
        }
    }
}

/// Decodes a whole JSON object of strings; anything but one canonical
/// object is refused.
pub open spec fn json_decode(s: Seq<char>) -> Option<Seq<(Seq<char>, Seq<char>)>> {
    if s.len() >= 2 && s[0] == '{' {
        if s.len() == 2 && s[1] == '}' {
            Some(Seq::empty())
        } else {
            match parse_entries(s.drop_first()) {
                Some((es, rest)) => {
                    if rest.len() == 0 {
                        Some(es)
                    } else {
                        None
                    }
                },
                None => None,
            }
        }
    } else {
        None
    }
}

// ---------------------------------------------------------------------------
// The codec inverts itself.
// ---------------------------------------------------------------------------
/// Reading a string body out of an escaped string, its closing quote and a
/// tail gives the string back and leaves exactly the tail.
proof fn lemma_parse_escaped(s: Seq<char>, rest: Seq<char>)
    ensures
        parse_string_body(escape_seq(s) + seq!['"'] + rest) == Some((s, rest)),
    decreases s.len(),
{
    let input = escape_seq(s) + seq!['"'] + rest;
    if s.len() == 0 {
        assert(input =~= seq!['"'] + rest);
        assert(input[0] == '"');
        assert(input.drop_first() =~= rest);
    } else {
        let c = s[0];
        let s2 = s.drop_first();
        lemma_parse_escaped(s2, rest);
        if c == '"' || c == '\\' {
            assert(escape_seq(s) =~= seq!['\\', c] + escape_seq(s2));
            assert(input[0] == '\\');
            assert(input[1] == c);
            assert(input.len() >= 2);
            assert(input.skip(2) =~= escape_seq(s2) + seq!['"'] + rest);
            assert(seq![input[1]] + s2 =~= s);
        } else {
            assert(escape_seq(s) =~= seq![c] + escape_seq(s2));
            assert(input[0] == c);
            assert(input.drop_first() =~= escape_seq(s2) + seq!['"'] + rest);
            assert(seq![input[0]] + s2 =~= s);
        }
    }
}

/// Reading a quoted string out of an encoded string and a tail gives the
/// string back and leaves exactly the tail.
proof fn lemma_parse_encoded_string(s: Seq<char>, rest: Seq<char>)
    ensures
        parse_quoted(encode_string(s) + rest) == Some((s, rest)),
{
    let input = encode_string(s) + rest;
    assert(input[0] == '"');
    assert(input.len() > 0);
    assert(input.drop_first() =~= escape_seq(s) + seq!['"'] + rest);
    lemma_parse_escaped(s, rest);
}

/// Reading members out of encoded members, the closing brace and a tail
/// gives the members back and leaves exactly the tail.
proof fn lemma_parse_encoded_entries(es: Seq<(Seq<char>, Seq<char>)>, rest: Seq<char>)
    requires
        es.len() > 0,
    ensures
        parse_entries(encode_entries(es) + seq!['}'] + rest) == Some((es, rest)),
    decreases es.len(),
{
    let input = encode_entries(es) + seq!['}'] + rest;
    let k = es[0].0;
    let v = es[0].1;
    if es.len() == 1 {
        assert(input =~= encode_string(k) + (seq![':'] + encode_string(v) + seq!['}'] + rest));
        lemma_parse_encoded_string(k, seq![':'] + encode_string(v) + seq!['}'] + rest);
        let r1 = seq![':'] + encode_string(v) + seq!['}'] + rest;
        assert(r1[0] == ':');
        assert(r1.drop_first() =~= encode_string(v) + (seq!['}'] + rest));
        lemma_parse_encoded_string(v, seq!['}'] + rest);
        let r2 = seq!['}'] + rest;
        assert(r2[0] == '}');
        assert(r2[0] != ',');
        assert(r2.drop_first() =~= rest);
        assert(seq![(k, v)] =~= es);
    } else {
        let tail = es.drop_first();
        let tail_text = encode_entries(tail) + seq!['}'] + rest;
        assert(input =~= encode_string(k) + (seq![':'] + encode_string(v) + seq![','] + tail_text));
        lemma_parse_encoded_string(k, seq![':'] + encode_string(v) + seq![','] + tail_text);
        let r1 = seq![':'] + encode_string(v) + seq![','] + tail_text;
        assert(r1[0] == ':');
        assert(r1.drop_first() =~= encode_string(v) + (seq![','] + tail_text));
        lemma_parse_encoded_string(v, seq![','] + tail_text);
        let r2 = seq![','] + tail_text;
        assert(r2[0] == ',');
        assert(r2.drop_first() =~= tail_text);
        lemma_parse_encoded_entries(tail, rest);
        assert(seq![(k, v)] + tail =~= es);
    }
}

/// Decoding an encoded credential map gives exactly the encoded members.
pub proof fn lemma_json_round_trip(es: Seq<(Seq<char>, Seq<char>)>)
    ensures
        json_decode(json_encode(es)) == Some(es),
{
    let text = json_encode(es);
    assert(text[0] == '{');
    if es.len() == 0 {
        assert(text =~= seq!['{', '}']);
        assert(Some(Seq::<(Seq<char>, Seq<char>)>::empty()) == Some(es));
    } else {
        assert(text.len() > 2) by {
            assert(encode_entries(es).len() > 0) by {
                assert(encode_string(es[0].0).len() >= 2);
            }
        }
        assert(text[1] != '}' || text.len() != 2);
        assert(text.drop_first() =~= encode_entries(es) + seq!['}'] + Seq::<char>::empty());
        lemma_parse_encoded_entries(es, Seq::empty());
    }
}

// ---------------------------------------------------------------------------
// The map itself: unique keys, later insertions replacing earlier values.
// ---------------------------------------------------------------------------
/// Some entry carries key `k`.
pub open spec fn has_key(es: Seq<(Seq<char>, Seq<char>)>, k: Seq<char>) -> bool {
    exists|i: int| 0 <= i < es.len() && (#[trigger] es[i]).0 == k
}

/// No two entries carry the same key.
pub open spec fn unique_keys(es: Seq<(Seq<char>, Seq<char>)>) -> bool {
    forall|i: int, j: int| 0 <= i < j < es.len() ==> (#[trigger] es[i]).0 != (#[trigger] es[j]).0
}

/// An insertion: the first entry under `k` is replaced in place, or the new
/// entry is appended when none exists.
pub open spec fn upsert(es: Seq<(Seq<char>, Seq<char>)>, k: Seq<char>, v: Seq<char>) -> Seq<
    (Seq<char>, Seq<char>),
>
    decreases es.len(),
{
    if es.len() == 0 {
        seq![(k, v)]
    } else if es[0].0 == k {
        seq![(k, v)] + es.drop_first()
    } else {
        seq![es[0]] + upsert(es.drop_first(), k, v)
    }
}

/// A list of entries folded into a map, later keys replacing earlier ones,
/// as repeated insertion does.
pub open spec fn fold_entries(es: Seq<(Seq<char>, Seq<char>)>) -> Seq<(Seq<char>, Seq<char>)>
    decreases es.len(),
{
    if es.len() == 0 {
        Seq::empty()
    } else {
        upsert(fold_entries(es.drop_last()), es.last().0, es.last().1)
    }
}

/// What an insertion does to keys: the inserted key is present, every other
/// key keeps its standing, uniqueness is kept, and an absent key is
/// appended at the end.
pub proof fn lemma_upsert(es: Seq<(Seq<char>, Seq<char>)>, k: Seq<char>, v: Seq<char>)
    ensures
        has_key(upsert(es, k, v), k),
        forall|x: Seq<char>| x != k ==> has_key(upsert(es, k, v), x) == has_key(es, x),
        unique_keys(es) ==> unique_keys(upsert(es, k, v)),
        !has_key(es, k) ==> upsert(es, k, v) == es.push((k, v)),
    decreases es.len(),
{
    let u = upsert(es, k, v);
    if es.len() == 0 {
        assert(u[0].0 == k);
        assert forall|x: Seq<char>| x != k implies has_key(u, x) == has_key(es, x) by {
            if has_key(u, x) {
                let i = choose|i: int| 0 <= i < u.len() && (#[trigger] u[i]).0 == x;
                assert(i == 0);
                assert(false);
            }
        }
        assert(u =~= es.push((k, v)));
    } else if es[0].0 == k {
        assert(u[0].0 == k);
        assert(es[0].0 == k);
        assert(has_key(es, k));
        assert forall|x: Seq<char>| x != k implies has_key(u, x) == has_key(es, x) by {
            if has_key(u, x) {
                let i = choose|i: int| 0 <= i < u.len() && (#[trigger] u[i]).0 == x;
                assert(i > 0);
                assert(es[i] == u[i]);
            }
            if has_key(es, x) {
                let i = choose|i: int| 0 <= i < es.len() && (#[trigger] es[i]).0 == x;
                assert(i > 0);
                assert(u[i] == es[i]);
            }
        }
        if unique_keys(es) {
            assert forall|i: int, j: int| 0 <= i < j < u.len() implies (#[trigger] u[i]).0 != (
            #[trigger] u[j]).0 by {
                if i > 0 {
                    assert(u[i] == es[i] && u[j] == es[j]);
                } else {
                    assert(u[j] == es[j]);
                    assert(es[0].0 != es[j].0);
                }
            }
        }
    } else {
        lemma_upsert(es.drop_first(), k, v);
        let ut = upsert(es.drop_first(), k, v);
        assert(u =~= seq![es[0]] + ut);
        assert(u[0] == es[0]);
        assert(forall|i: int| 0 < i < u.len() ==> u[i] == ut[i - 1]);
        let iw = choose|i: int| 0 <= i < ut.len() && (#[trigger] ut[i]).0 == k;
        assert(u[iw + 1].0 == k);
        assert(has_key(u, k));
        assert forall|x: Seq<char>| x != k implies has_key(u, x) == has_key(es, x) by {
            if has_key(u, x) {
                let i = choose|i: int| 0 <= i < u.len() && (#[trigger] u[i]).0 == x;
                if i == 0 {
                    assert(es[0].0 == x);
                } else {
                    assert(ut[i - 1].0 == x);
                    assert(has_key(ut, x));
                    assert(has_key(es.drop_first(), x));
                    let j = choose|j: int|
                        0 <= j < es.drop_first().len() && (#[trigger] es.drop_first()[j]).0 == x;
                    assert(es[j + 1].0 == x);
                }
            }
            if has_key(es, x) {
                let i = choose|i: int| 0 <= i < es.len() && (#[trigger] es[i]).0 == x;
                if i == 0 {
                    assert(u[0].0 == x);
                } else {
                    assert(es.drop_first()[i - 1].0 == x);
                    assert(has_key(es.drop_first(), x));
                    assert(has_key(ut, x));
                    let j = choose|j: int| 0 <= j < ut.len() && (#[trigger] ut[j]).0 == x;
                    assert(u[j + 1].0 == x);
                }
            }
        }
        if unique_keys(es) {
            assert forall|i: int, j: int|
                0 <= i < j < es.drop_first().len() implies (#[trigger] es.drop_first()[i]).0 != (
            #[trigger] es.drop_first()[j]).0 by {
                assert(es.drop_first()[i] == es[i + 1]);
                assert(es.drop_first()[j] == es[j + 1]);
            }
            assert(unique_keys(es.drop_first()));
            assert(unique_keys(ut));
            assert forall|i: int, j: int| 0 <= i < j < u.len() implies (#[trigger] u[i]).0 != (
            #[trigger] u[j]).0 by {
                if i == 0 {
                    assert(u[j] == ut[j - 1]);
                    if ut[j - 1].0 == es[0].0 {
                        assert(es[0].0 != k);
                        assert(has_key(ut, es[0].0));
                        assert(has_key(es.drop_first(), es[0].0));
                        let m = choose|m: int|
                            0 <= m < es.drop_first().len() && (#[trigger] es.drop_first()[m]).0
                                == es[0].0;
                        assert(es[m + 1].0 == es[0].0);
                        assert(false);
                    }
                } else {
                    assert(u[i] == ut[i - 1] && u[j] == ut[j - 1]);
                }
            }
        }
        if !has_key(es, k) {
            assert(!has_key(es.drop_first(), k)) by {
                if has_key(es.drop_first(), k) {
                    let i = choose|i: int|
                        0 <= i < es.drop_first().len() && (#[trigger] es.drop_first()[i]).0 == k;
                    assert(es[i + 1].0 == k);
                }
            }
            assert(ut == es.drop_first().push((k, v)));
            assert(u =~= es.push((k, v)));
        }
    }
}

/// Folding a list whose keys are already unique changes nothing.
pub proof fn lemma_fold_identity(es: Seq<(Seq<char>, Seq<char>)>)
    requires
        unique_keys(es),
    ensures
        fold_entries(es) == es,
    decreases es.len(),
{
    if es.len() > 0 {
        let head = es.drop_last();
        assert forall|i: int, j: int| 0 <= i < j < head.len() implies (#[trigger] head[i]).0 != (
        #[trigger] head[j]).0 by {
            assert(head[i] == es[i] && head[j] == es[j]);
        }
        lemma_fold_identity(head);
        assert(!has_key(head, es.last().0)) by {
            if has_key(head, es.last().0) {
                let i = choose|i: int|
                    0 <= i < head.len() && (#[trigger] head[i]).0 == es.last().0;
                assert(es[i].0 == es[es.len() - 1].0);
            }
        }
        lemma_upsert(head, es.last().0, es.last().1);
        assert(head.push((es.last().0, es.last().1)) =~= es);
    }
}

// ---------------------------------------------------------------------------
// Bridging lemmas for the executable codec.
// ---------------------------------------------------------------------------
/// Escaping one more character appends its escape.
proof fn lemma_escape_push(s: Seq<char>, c: char)
    ensures
        escape_seq(s.push(c)) == escape_seq(s) + escape_char(c),
    decreases s.len(),
{
    if s.len() == 0 {
        let p = s.push(c);
        assert(p[0] == c);
        assert(p.drop_first() =~= Seq::<char>::empty());
        assert(escape_seq(p) == escape_char(c) + escape_seq(Seq::<char>::empty()));
        assert(escape_seq(p) =~= escape_char(c));
        assert(escape_seq(s) + escape_char(c) =~= escape_char(c));
    } else {
        assert(s.push(c)[0] == s[0]);
        assert(s.push(c).drop_first() =~= s.drop_first().push(c));
        lemma_escape_push(s.drop_first(), c);
        assert(escape_seq(s.push(c)) =~= escape_seq(s) + escape_char(c));
    }
}

/// Encoding one more member appends it, with a comma where members already
/// stand.
proof fn lemma_encode_entries_push(es: Seq<(Seq<char>, Seq<char>)>, e: (Seq<char>, Seq<char>))
    ensures
        es.len() == 0 ==> encode_entries(es.push(e)) == encode_entry(e.0, e.1),
        es.len() > 0 ==> encode_entries(es.push(e)) == encode_entries(es) + seq![',']
            + encode_entry(e.0, e.1),
    decreases es.len(),
{
    let p = es.push(e);
    if es.len() == 0 {
        assert(p.len() == 1);
        assert(p[0] == e);
    } else {
        assert(p[0] == es[0]);
        assert(p.drop_first() =~= es.drop_first().push(e));
        lemma_encode_entries_push(es.drop_first(), e);
        if es.len() == 1 {
            assert(es.drop_first().len() == 0);
            assert(encode_entries(p) == encode_entry(es[0].0, es[0].1) + seq![','] + encode_entry(
                e.0,
                e.1,
            ));
            assert(encode_entries(es) == encode_entry(es[0].0, es[0].1));
        } else {
            assert(encode_entries(p) =~= encode_entries(es) + seq![','] + encode_entry(e.0, e.1));
        }
    }
}

/// An insertion whose key first occurs at `i` replaces that entry in place.
proof fn lemma_upsert_found(es: Seq<(Seq<char>, Seq<char>)>, k: Seq<char>, v: Seq<char>, i: int)
    requires
        0 <= i < es.len(),
        es[i].0 == k,
        forall|j: int| 0 <= j < i ==> (#[trigger] es[j]).0 != k,
    ensures
        upsert(es, k, v) == es.update(i, (k, v)),
    decreases i,
{
    if i == 0 {
        assert(upsert(es, k, v) =~= es.update(0, (k, v)));
    } else {
        assert(es[0].0 != k);
        let t = es.drop_first();
        assert(t[i - 1] == es[i]);
        assert(forall|j: int| 0 <= j < i - 1 ==> (#[trigger] t[j]).0 != k);
        lemma_upsert_found(t, k, v, i - 1);
        assert(upsert(es, k, v) =~= es.update(i, (k, v)));
    }
}

// ---------------------------------------------------------------------------
// The executable map and codec.
// ---------------------------------------------------------------------------
/// The in-memory credential map: key-to-cookie entries with pairwise
/// distinct keys, in insertion order.
#[derive(Debug)]
pub struct CredentialMap {
    pub entries: Vec<(String, String)>,
}

impl View for CredentialMap {
    type V = Seq<(Seq<char>, Seq<char>)>;

    open spec fn view(&self) -> Seq<(Seq<char>, Seq<char>)> {
        self.entries@.map_values(|p: (String, String)| (p.0@, p.1@))
    }
}

impl Clone for CredentialMap {
    fn clone(&self) -> (r: Self)
        ensures
            r@ == self@,
    {
        let mut entries: Vec<(String, String)> = Vec::new();
        let mut i: usize = 0;
        while i < self.entries.len()
            invariant
                i <= self.entries@.len(),
                entries@.len() == i,
                forall|j: int|
                    0 <= j < i ==> (#[trigger] entries@[j]).0@ == self@[j].0 && entries@[j].1@
                        == self@[j].1,
            decreases self.entries@.len() - i,
        {
            let k = self.entries[i].0.clone();
            let v = self.entries[i].1.clone();
            entries.push((k, v));
            i = i + 1;
        }
        let r = CredentialMap { entries };
        proof {
            assert(r@ =~= self@);
        }
        r
    }
}

impl CredentialMap {
    /// The keys are pairwise distinct.
    pub open spec fn wf(&self) -> bool {
        unique_keys(self@)
    }

    /// An empty map.
    pub fn new() -> (r: Self)
        ensures
            r.wf(),
            r@.len() == 0,
    {
        let r = CredentialMap { entries: Vec::new() };
        proof {
            assert(r@ =~= Seq::<(Seq<char>, Seq<char>)>::empty());
        }
        r
    }

    /// How many entries the map holds.
    pub fn len(&self) -> (n: usize)
        ensures
            n == self@.len(),
    {
        self.entries.len()
    }

    /// Whether the map holds no entry.
    pub fn is_empty(&self) -> (r: bool)
        ensures
            r == (self@.len() == 0),
    {
        self.entries.len() == 0
    }

    /// The cookie stored under `key`, if any.
    pub fn get(&self, key: &String) -> (r: Option<&String>)
        requires
            self.wf(),
        ensures
            (match r {
                Some(v) => exists|i: int|
                    0 <= i < self@.len() && (#[trigger] self@[i]).0 == key@ && self@[i].1 == v@,
                None => !has_key(self@, key@),
            }),
    {
        let mut i: usize = 0;
        while i < self.entries.len()
            invariant
                i <= self.entries@.len(),
                forall|j: int| 0 <= j < i ==> (#[trigger] self@[j]).0 != key@,
            decreases self.entries@.len() - i,
        {
            if self.entries[i].0 == *key {
                proof {
                    assert((self@[i as int]).0 == key@);
                }
                return Some(&self.entries[i].1);
            }
            i = i + 1;
        }
        None
    }

    /// Inserts a cookie under a key: the first entry under that key is
    /// replaced in place, or a new entry is appended. Keys stay pairwise
    /// distinct.
    pub fn insert(&mut self, key: String, value: String)
        requires
            old(self).wf(),
        ensures
            final(self).wf(),
            final(self)@ == upsert(old(self)@, key@, value@),
    {
        let mut i: usize = 0;
        while i < self.entries.len()
            invariant
                old(self).wf(),
                *self == *old(self),
                i <= self.entries@.len(),
                forall|j: int| 0 <= j < i ==> (#[trigger] self@[j]).0 != key@,
            decreases self.entries@.len() - i,
        {
            if self.entries[i].0 == key {
                proof {
                    assert((self@[i as int]).0 == key@);
                    lemma_upsert(old(self)@, key@, value@);
                    lemma_upsert_found(old(self)@, key@, value@, i as int);
                }
                self.entries.set(i, (key, value));
                proof {
                    assert(self@ =~= old(self)@.update(i as int, (key@, value@)));
                    assert(self@ == upsert(old(self)@, key@, value@));
                }
                return ;
            }
            i = i + 1;
        }
        proof {
            lemma_upsert(old(self)@, key@, value@);
            assert(!has_key(self@, key@));
        }
        self.entries.push((key, value));
        proof {
            assert(self@ =~= old(self)@.push((key@, value@)));
            assert(self@ == upsert(old(self)@, key@, value@));
        }
    }

    /// Builds a map from a list of entries, later keys replacing earlier
    /// ones, as repeated insertion does.
    pub fn from_entries(list: Vec<(String, String)>) -> (r: Self)
        ensures
            r.wf(),
            r@ == fold_entries(list@.map_values(|p: (String, String)| (p.0@, p.1@))),
    {
        let ghost lv = list@.map_values(|p: (String, String)| (p.0@, p.1@));
        let mut r = CredentialMap::new();
        proof {
            assert(r@ =~= fold_entries(lv.take(0)));
        }
        let mut i: usize = 0;
        while i < list.len()
            invariant
                i <= list@.len(),
                lv == list@.map_values(|p: (String, String)| (p.0@, p.1@)),
                r.wf(),
                r@ == fold_entries(lv.take(i as int)),
            decreases list@.len() - i,
        {
            let k = list[i].0.clone();
            let v = list[i].1.clone();
            r.insert(k, v);
            proof {
                assert(lv.take(i + 1).drop_last() =~= lv.take(i as int));
                assert(lv.take(i + 1).last() == (list@[i as int].0@, list@[i as int].1@));
            }
            i = i + 1;
        }
        proof {
            assert(lv.take(lv.len() as int) =~= lv);
        }
        r
    }
}

/// Appends the escape of `s` to `out`.
fn append_escaped(out: &mut Vec<char>, s: &String)
    ensures
        final(out)@ == old(out)@ + escape_seq(s@),
{
    let chars = crate::text::to_chars(s.as_str());
    let mut i: usize = 0;
    proof {
        assert(out@ =~= old(out)@ + escape_seq(s@.take(0)));
    }
    while i < chars.len()
        invariant
            i <= chars@.len(),
            chars@ == s@,
            out@ == old(out)@ + escape_seq(s@.take(i as int)),
        decreases chars@.len() - i,
    {
        let c = chars[i];
        if c == '"' || c == '\\' {
            out.push('\\');
            out.push(c);
        } else {
            out.push(c);
        }
        proof {
            assert(s@.take(i + 1) =~= s@.take(i as int).push(s@[i as int]));
            lemma_escape_push(s@.take(i as int), s@[i as int]);
            assert(out@ =~= old(out)@ + escape_seq(s@.take(i + 1)));
        }
        i = i + 1;
    }
    proof {
        assert(s@.take(s@.len() as int) =~= s@);
    }
}

impl CredentialMap {
    /// The map as its canonical JSON text.
    pub fn encode(&self) -> (r: String)
        ensures
            r@ == json_encode(self@),
    {
        let mut out: Vec<char> = Vec::new();
        out.push('{');
        let mut i: usize = 0;
        proof {
            assert(out@ =~= seq!['{'] + encode_entries(self@.take(0)));
        }
        while i < self.entries.len()
            invariant
                i <= self.entries@.len(),
                out@ == seq!['{'] + encode_entries(self@.take(i as int)),
            decreases self.entries@.len() - i,
        {
            if i > 0 {
                out.push(',');
            }
            out.push('"');
            append_escaped(&mut out, &self.entries[i].0);
            out.push('"');
            out.push(':');
            out.push('"');
            append_escaped(&mut out, &self.entries[i].1);
            out.push('"');
            proof {
                let ev = self@;
                assert(ev.take(i + 1) =~= ev.take(i as int).push(ev[i as int]));
                lemma_encode_entries_push(ev.take(i as int), ev[i as int]);
                assert(ev[i as int] == (self.entries@[i as int].0@, self.entries@[i as int].1@));
                assert(out@ =~= seq!['{'] + encode_entries(ev.take(i + 1)));
            }
            i = i + 1;
        }
        out.push('}');
        proof {
            assert(self@.take(self@.len() as int) =~= self@);
            assert(out@ =~= json_encode(self@));
        }
        crate::text::chars_to_string(&out)
    }
}

/// The mathematical value of a parsed entry list.
pub open spec fn char_entries_view(s: Seq<(Vec<char>, Vec<char>)>) -> Seq<(Seq<char>, Seq<char>)> {
    s.map_values(|p: (Vec<char>, Vec<char>)| (p.0@, p.1@))
}

fn parse_string_body_exec(v: &Vec<char>, i: usize) -> (r: Option<(Vec<char>, usize)>)
    requires
        i <= v@.len(),
    ensures
        (match parse_string_body(v@.skip(i as int)) {
            Some((val, rest)) => r matches Some(p) && p.0@ == val && i < p.1 <= v@.len()
                && v@.skip(p.1 as int) == rest,
            None => r is None,
        }),
    decreases v@.len() - i,
{
    let ghost s = v@.skip(i as int);
    if i >= v.len() {
        return None;
    }
    let c = v[i];
    proof {
        assert(s[0] == v@[i as int]);
    }
    if c == '"' {
        proof {
            assert(s.drop_first() =~= v@.skip(i + 1));
        }
        return Some((Vec::new(), i + 1));
    }
    if c == '\\' {
        if i + 1 < v.len() {
            let c2 = v[i + 1];
            proof {
                assert(s[1] == v@[i + 1]);
                assert(s.len() >= 2);
            }
            if c2 == '"' || c2 == '\\' {
                proof {
                    assert(s.skip(2) =~= v@.skip(i + 2));
                }
                match parse_string_body_exec(v, i + 2) {
                    Some((val, j)) => {
                        let mut val = val;
                        val.insert(0, c2);
                        proof {
                            assert(val@ =~= seq![s[1]] + val@.drop_first());
                        }
                        return Some((val, j));
                    },
                    None => {
                        return None;
                    },
                }
            } else {
                return None;
            }
        } else {
            proof {
                assert(s.len() < 2);
            }
            return None;
        }
    }
    proof {
        assert(s.drop_first() =~= v@.skip(i + 1));
    }
    match parse_string_body_exec(v, i + 1) {
        Some((val, j)) => {
            let mut val = val;
            val.insert(0, c);
            proof {
                assert(val@ =~= seq![s[0]] + val@.drop_first());
            }
            Some((val, j))
        },
        None => None,
    }
}

fn parse_quoted_exec(v: &Vec<char>, i: usize) -> (r: Option<(Vec<char>, usize)>)
    requires
        i <= v@.len(),
    ensures
        (match parse_quoted(v@.skip(i as int)) {
            Some((val, rest)) => r matches Some(p) && p.0@ == val && i < p.1 <= v@.len()
                && v@.skip(p.1 as int) == rest,
            None => r is None,
        }),
{
    let ghost s = v@.skip(i as int);
    if i < v.len() {
        proof {
            assert(s[0] == v@[i as int]);
        }
        if v[i] == '"' {
            proof {
                assert(s.drop_first() =~= v@.skip(i + 1));
            }
            return parse_string_body_exec(v, i + 1);
        }
    }
    None
}

fn parse_entries_exec(v: &Vec<char>, i: usize) -> (r: Option<(Vec<(Vec<char>, Vec<char>)>, usize)>)
    requires
        i <= v@.len(),
    ensures
        (match parse_entries(v@.skip(i as int)) {
            Some((es, rest)) => r matches Some(p) && char_entries_view(p.0@) == es && i < p.1
                <= v@.len() && v@.skip(p.1 as int) == rest,
            None => r is None,
        }),
    decreases v@.len() - i,
{
    let ghost s = v@.skip(i as int);
    let k = match parse_quoted_exec(v, i) {
        Some(p) => p,
        None => {
            return None;
        },
    };
    let (kv, j1) = k;
    let ghost r1 = v@.skip(j1 as int);
    if j1 >= v.len() {
        return None;
    }
    proof {
        assert(r1[0] == v@[j1 as int]);
    }
    if v[j1] != ':' {
        return None;
    }
    proof {
        assert(r1.drop_first() =~= v@.skip(j1 + 1));
    }
    let vv = match parse_quoted_exec(v, j1 + 1) {
        Some(p) => p,
        None => {
            return None;
        },
    };
    let (vval, j2) = vv;
    let ghost r2 = v@.skip(j2 as int);
    if j2 >= v.len() {
        return None;
    }
    proof {
        assert(r2[0] == v@[j2 as int]);
    }
    if v[j2] == ',' {
        proof {
            assert(r2.drop_first() =~= v@.skip(j2 + 1));
        }
        match parse_entries_exec(v, j2 + 1) {
            Some((list, j3)) => {
                let mut list = list;
                list.insert(0, (kv, vval));
                proof {
                    assert(char_entries_view(list@) =~= seq![(kv@, vval@)] + char_entries_view(
                        list@.drop_first(),
                    ));
                }
                Some((list, j3))
            },
            None => None,
        }
    } else if v[j2] == '}' {
        proof {
            assert(r2.drop_first() =~= v@.skip(j2 + 1));
        }
        let mut list: Vec<(Vec<char>, Vec<char>)> = Vec::new();
        list.push((kv, vval));
        proof {
            assert(char_entries_view(list@) =~= seq![(kv@, vval@)]);
        }
        Some((list, j2 + 1))
    } else {
        None
    }
}

impl CredentialMap {
    /// Reads a map back from its JSON text. Exactly the canonical objects
    /// are accepted; duplicate keys fold as repeated insertion does.
    pub fn decode(s: &str) -> (r: Option<CredentialMap>)
        ensures
            (match json_decode(s@) {
                Some(es) => r matches Some(m) && m.wf() && m@ == fold_entries(es),
                None => r is None,
            }),
    {
        let chars = crate::text::to_chars(s);
        if chars.len() < 2 {
            return None;
        }
        if chars[0] != '{' {
            return None;
        }
        if chars.len() == 2 {
            if chars[1] == '}' {
                let m = CredentialMap::new();
                proof {
                    assert(m@ =~= fold_entries(Seq::<(Seq<char>, Seq<char>)>::empty()));
                }
                return Some(m);
            }
            proof {
                assert(s@[1] != '}');
                assert(parse_quoted(s@.skip(1)) is None ==> parse_entries(s@.skip(1)) is None);
            }
            return None;
        }
        proof {
            assert(s@.drop_first() =~= s@.skip(1));
        }
        match parse_entries_exec(&chars, 1) {
            Some((list, j)) => {
                if j != chars.len() {
                    return None;
                }
                let mut m = CredentialMap::new();
                let ghost lv = char_entries_view(list@);
                proof {
                    assert(m@ =~= fold_entries(lv.take(0)));
                }
                let mut i: usize = 0;
                while i < list.len()
                    invariant
                        i <= list@.len(),
                        lv == char_entries_view(list@),
                        m.wf(),
                        m@ == fold_entries(lv.take(i as int)),
                    decreases list@.len() - i,
                {
                    let key = crate::text::chars_to_string(&list[i].0);
                    let value = crate::text::chars_to_string(&list[i].1);
                    m.insert(key, value);
                    proof {
                        assert(lv.take(i + 1).drop_last() =~= lv.take(i as int));
                        assert(lv.take(i + 1).last() == (list@[i as int].0@, list@[i as int].1@));
                    }
                    i = i + 1;
                }
                proof {
                    assert(lv.take(lv.len() as int) =~= lv);
                }
                Some(m)
            },
            None => None,
        }
    }
}

/// A credential map, once encoded and decoded again, comes back unchanged:
/// the same keys, the same cookies, in the same standing.
pub proof fn lemma_credential_round_trip(m: &CredentialMap)
    requires
        m.wf(),
    ensures
        json_decode(json_encode(m@)) == Some(m@),
        fold_entries(m@) == m@,
{
    lemma_json_round_trip(m@);
    lemma_fold_identity(m@);
}

} // verus!
