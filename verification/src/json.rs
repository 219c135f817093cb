//! The container: a mapping from string keys to typed top-level values,
//! with whole-document deserialize/serialize through the external wire
//! parser and renderer.

use vstd::prelude::*;
use crate::dec::Dec;
use crate::entry::{
    Entry, EntryV, WireValue, WireV, Error, entry_pairs_view, wire_pairs_view, keys_unique,
    entry_pairs_wf, entry_members_wf, wire_pairs_wf, lemma_entry_pairs_view,
    lemma_entry_members_wf_index,
};
use crate::codec::{spec_classify, spec_encode, classify_pairs, encode_pairs};

verus! {

/// A JSON-like document: key-value pairs whose values are typed entries.
/// Keys are unique; their order carries no meaning.
#[derive(Debug)]
pub struct JSON {
    pub entries: Vec<(String, Entry)>,
}

/// The mapping a pair sequence stands for; were a key repeated, the later
/// pair would win, but well-formed containers never hold one twice.
pub open spec fn pairs_map(s: Seq<(Seq<char>, EntryV)>) -> Map<Seq<char>, EntryV>
    decreases s.len(),
{
    if s.len() == 0 {
        Map::empty()
    } else {
        pairs_map(s.drop_last()).insert(s.last().0, s.last().1)
    }
}

/// A key held by no pair is not in the mapping.
pub proof fn lemma_pairs_map_absent(s: Seq<(Seq<char>, EntryV)>, k: Seq<char>)
    requires
        forall|i: int| 0 <= i < s.len() ==> (#[trigger] s[i]).0 != k,
    ensures
        !pairs_map(s).contains_key(k),
    decreases s.len(),
{
    if s.len() > 0 {
        assert forall|i: int| 0 <= i < s.drop_last().len() implies (#[trigger] s.drop_last()[
            i
        ]).0 != k by {
            assert(s.drop_last()[i] == s[i]);
        }
        lemma_pairs_map_absent(s.drop_last(), k);
        assert(s.last().0 != k);
    }
}

/// With unique keys the mapping reads off at each index.
pub proof fn lemma_pairs_map_index(s: Seq<(Seq<char>, EntryV)>, i: int)
    requires
        keys_unique(s.map_values(|p: (Seq<char>, EntryV)| p.0)),
        0 <= i < s.len(),
    ensures
        pairs_map(s).contains_key(s[i].0),
        pairs_map(s)[s[i].0] == s[i].1,
    decreases s.len(),
{
    lemma_keys_unique_drop_last(s);
    if i == s.len() - 1 {
    } else {
        assert(s.map_values(|p: (Seq<char>, EntryV)| p.0)[i] == s[i].0);
        assert(s.map_values(|p: (Seq<char>, EntryV)| p.0)[s.len() - 1] == s.last().0);
        assert(s[i].0 != s.last().0);
        lemma_pairs_map_index(s.drop_last(), i);
        assert(s.drop_last()[i] == s[i]);
    }
}

/// Unique keys stay unique after dropping the last pair.
pub proof fn lemma_keys_unique_drop_last(s: Seq<(Seq<char>, EntryV)>)
    requires
        keys_unique(s.map_values(|p: (Seq<char>, EntryV)| p.0)),
        s.len() > 0,
    ensures
        keys_unique(s.drop_last().map_values(|p: (Seq<char>, EntryV)| p.0)),
{
    assert(s.drop_last().map_values(|p: (Seq<char>, EntryV)| p.0) =~= s.map_values(
        (|p: (Seq<char>, EntryV)| p.0),
    ).drop_last());
}

/// Removing the pair at one index removes exactly its key from the mapping.
pub proof fn lemma_pairs_map_remove(s: Seq<(Seq<char>, EntryV)>, i: int)
    requires
        keys_unique(s.map_values(|p: (Seq<char>, EntryV)| p.0)),
        0 <= i < s.len(),
    ensures
        pairs_map(s.remove(i)) =~= pairs_map(s).remove(s[i].0),
    decreases s.len(),
{
    lemma_keys_unique_drop_last(s);
    if i == s.len() - 1 {
        assert(s.remove(i) =~= s.drop_last());
        assert forall|j: int| 0 <= j < s.drop_last().len() implies (#[trigger] s.drop_last()[
            j
        ]).0 != s[i].0 by {
            assert(s.drop_last()[j] == s[j]);
            assert(s.map_values(|p: (Seq<char>, EntryV)| p.0)[j] == s[j].0);
            assert(s.map_values(|p: (Seq<char>, EntryV)| p.0)[i] == s[i].0);
        }
        lemma_pairs_map_absent(s.drop_last(), s[i].0);
    } else {
        assert(s.map_values(|p: (Seq<char>, EntryV)| p.0)[i] == s[i].0);
        assert(s.map_values(|p: (Seq<char>, EntryV)| p.0)[s.len() - 1] == s.last().0);
        assert(s[i].0 != s.last().0);
        lemma_pairs_map_remove(s.drop_last(), i);
        assert(s.remove(i).drop_last() =~= s.drop_last().remove(i));
        assert(s.remove(i).last() == s.last());
        assert(s.drop_last()[i] == s[i]);
    }
}

/// Every pair value well-formed, read off index-wise.
pub proof fn lemma_members_wf_from_index(s: Seq<(Seq<char>, EntryV)>)
    requires
        forall|i: int| 0 <= i < s.len() ==> (#[trigger] s[i]).1.wf(),
    ensures
        entry_members_wf(s),
    decreases s.len(),
{
    if s.len() > 0 {
        assert forall|i: int| 0 <= i < s.drop_first().len() implies (#[trigger] s.drop_first()[
            i
        ]).1.wf() by {
            assert(s.drop_first()[i] == s[i + 1]);
        }
        lemma_members_wf_from_index(s.drop_first());
    }
}

impl JSON {
    /// The pairs this container holds, as mathematical values.
    pub open spec fn spec_pairs(self) -> Seq<(Seq<char>, EntryV)> {
        entry_pairs_view(self.entries@)
    }

    /// The mapping this container stands for.
    pub open spec fn spec_map(self) -> Map<Seq<char>, EntryV> {
        pairs_map(self.spec_pairs())
    }

    /// Well-formed: unique keys, every stored value within its ranges.
    pub open spec fn wf(self) -> bool {
        entry_pairs_wf(self.spec_pairs())
    }

    /// An empty container.
    pub fn new() -> (r: JSON)
        ensures
            r.wf(),
            r.spec_map() == Map::<Seq<char>, EntryV>::empty(),
            r.spec_pairs() == Seq::<(Seq<char>, EntryV)>::empty(),
    {
        let r = JSON { entries: Vec::new() };
        proof {
            assert(r.spec_pairs() =~= Seq::<(Seq<char>, EntryV)>::empty());
        }
        r
    }

    /// Looks a key up; returns the stored entry exactly when the key is in
    /// the mapping.
    pub fn get(&self, key: &str) -> (r: Option<&Entry>)
        requires
            self.wf(),
        ensures
            match r {
                Some(e) => self.spec_map().contains_key(key@) && e.deep_view() == self.spec_map()[
                    key@
                ],
                None => !self.spec_map().contains_key(key@),
            },
    {
        proof {
            lemma_entry_pairs_view(self.entries@);
        }
        let k = key.to_owned();
        let n = self.entries.len();
        let mut i: usize = 0;
        while i < n
            invariant
                self.wf(),
                n == self.entries.len(),
                i <= n,
                k@ == key@,
                self.spec_pairs().len() == n,
                forall|j: int| 0 <= j < i ==> (#[trigger] self.spec_pairs()[j]).0 != key@,
                forall|j: int|
                    0 <= j < self.entries@.len() ==> #[trigger] self.spec_pairs()[j] == (
                    self.entries@[j].0@,
                    self.entries@[j].1.deep_view(),
                    ),
            decreases n - i,
        {
            if self.entries[i].0 == k {
                proof {
                    lemma_pairs_map_index(self.spec_pairs(), i as int);
                }
                let p = &self.entries[i];
                return Some(&p.1);
            }
            i += 1;
        }
        proof {
            lemma_pairs_map_absent(self.spec_pairs(), key@);
        }
        None
    }

    /// Removes a key: returns the prior entry exactly when the key was in
    /// the mapping, which afterwards no longer holds it.
    pub fn remove(&mut self, key: &str) -> (r: Option<Entry>)
        requires
            old(self).wf(),
        ensures
            final(self).wf(),
            final(self).spec_map() == old(self).spec_map().remove(key@),
            match r {
                Some(e) => old(self).spec_map().contains_key(key@) && e.deep_view() == old(
                    self,
                ).spec_map()[key@] && e.wf(),
                None => !old(self).spec_map().contains_key(key@),
            },
            forall|j: int|
                0 <= j < final(self).spec_pairs().len() ==> (#[trigger] final(self).spec_pairs()[
                j
                ]).0 != key@,
    {
        proof {
            lemma_entry_pairs_view(self.entries@);
        }
        let ghost s0 = self.spec_pairs();
        proof {
            assert(s0 == old(self).spec_pairs());
        }
        let k = key.to_owned();
        let n = self.entries.len();
        let mut i: usize = 0;
        while i < n
            invariant
                self.wf(),
                n == self.entries.len(),
                i <= n,
                k@ == key@,
                s0 == self.spec_pairs(),
                s0 == old(self).spec_pairs(),
                s0.len() == n,
                forall|j: int| 0 <= j < i ==> (#[trigger] self.spec_pairs()[j]).0 != key@,
                forall|j: int|
                    0 <= j < self.entries@.len() ==> #[trigger] self.spec_pairs()[j] == (
                    self.entries@[j].0@,
                    self.entries@[j].1.deep_view(),
                    ),
            decreases n - i,
        {
            if self.entries[i].0 == k {
                proof {
                    assert(s0[i as int].0 == key@);
                    lemma_pairs_map_index(s0, i as int);
                    lemma_pairs_map_remove(s0, i as int);
                    lemma_entry_members_wf_index(s0, i as int);
                }
                let pair = self.entries.remove(i);
                proof {
                    assert(pair.1.deep_view() == s0[i as int].1);
                    lemma_entry_pairs_view(self.entries@);
                    assert(self.spec_pairs() =~= s0.remove(i as int));
                    assert(pairs_map(s0.remove(i as int)) == pairs_map(s0).remove(key@));
                    assert(self.spec_map() == old(self).spec_map().remove(key@));
                    assert forall|j: int|
                        0 <= j < self.spec_pairs().len() implies (#[trigger] self.spec_pairs()[
                        j
                    ]).0 != key@ by {
                        assert(s0.map_values(|p: (Seq<char>, EntryV)| p.0)[j] == s0[j].0);
                        assert(s0.map_values(|p: (Seq<char>, EntryV)| p.0)[i as int] == s0[
                            i as int
                        ].0);
                        if j < i as int {
                            assert(self.spec_pairs()[j] == s0[j]);
                        } else {
                            assert(self.spec_pairs()[j] == s0[j + 1]);
                            assert(s0.map_values(|p: (Seq<char>, EntryV)| p.0)[j + 1] == s0[j
                                + 1].0);
                        }
                    }
                    let sp = self.spec_pairs();
                    assert forall|a: int, b: int|
                        0 <= a < b < sp.len() implies (#[trigger] sp[a]).0 != (
                    #[trigger] sp[b]).0 by {
                        let a0: int = if a < i as int { a } else { a + 1 };
                        let b0: int = if b < i as int { b } else { b + 1 };
                        assert(sp[a] == s0[a0] && sp[b] == s0[b0]);
                        assert(s0.map_values(|p: (Seq<char>, EntryV)| p.0)[a0] == s0[a0].0);
                        assert(s0.map_values(|p: (Seq<char>, EntryV)| p.0)[b0] == s0[b0].0);
                    }
                    assert(keys_unique(sp.map_values(|p: (Seq<char>, EntryV)| p.0)));
                    assert forall|j: int|
                        0 <= j < self.spec_pairs().len() implies (#[trigger] self.spec_pairs()[
                        j
                    ]).1.wf() by {
                        let j0: int = if j < i as int { j } else { j + 1 };
                        assert(self.spec_pairs()[j] == s0[j0]);
                        lemma_entry_members_wf_index(s0, j0);
                    }
                    lemma_members_wf_from_index(self.spec_pairs());
                }
                return Some(pair.1);
            }
            i += 1;
        }
        proof {
            lemma_pairs_map_absent(s0, key@);
            assert(self.spec_map() =~= old(self).spec_map().remove(key@));
        }
        None
    }

    /// Inserts or overwrites a key: last write wins, nothing merges.
    pub fn set(&mut self, key: String, entry: Entry)
        requires
            old(self).wf(),
            entry.wf(),
        ensures
            final(self).wf(),
            final(self).spec_map() == old(self).spec_map().insert(key@, entry.deep_view()),
    {
        let _ = self.remove(key.as_str());
        let ghost s1 = self.spec_pairs();
        proof {
            lemma_entry_pairs_view(self.entries@);
        }
        self.entries.push((key, entry));
        proof {
            lemma_entry_pairs_view(self.entries@);
            assert(self.spec_pairs() =~= s1.push((key@, entry.deep_view())));
            assert(self.spec_pairs().drop_last() =~= s1);
            assert(self.spec_map() == pairs_map(s1).insert(key@, entry.deep_view()));
            assert(self.spec_map() =~= old(self).spec_map().insert(key@, entry.deep_view()));
            let sp = self.spec_pairs();
            assert forall|a: int, b: int|
                0 <= a < b < sp.len() implies (#[trigger] sp[a]).0 != (#[trigger] sp[b]).0 by {
                if b < sp.len() - 1 {
                    assert(sp[a] == s1[a] && sp[b] == s1[b]);
                    assert(s1.map_values(|p: (Seq<char>, EntryV)| p.0)[a] == s1[a].0);
                    assert(s1.map_values(|p: (Seq<char>, EntryV)| p.0)[b] == s1[b].0);
                } else {
                    assert(sp[a] == s1[a]);
                    assert(sp[b].0 == key@);
                }
            }
            assert(keys_unique(sp.map_values(|p: (Seq<char>, EntryV)| p.0)));
            assert forall|j: int| 0 <= j < sp.len() implies (#[trigger] sp[j]).1.wf() by {
                if j < sp.len() - 1 {
                    assert(sp[j] == s1[j]);
                    lemma_entry_members_wf_index(s1, j);
                }
            }
            lemma_members_wf_from_index(sp);
        }
    }
}


impl JSON {
    /// Parses a wire document and classifies every member: the result is a
    /// well-formed container holding exactly the classification of the
    /// parsed wire tree. Fails with `Malformed` exactly when the text does
    /// not parse or its top level is not an object, and otherwise with the
    /// classification's own error — an unrepresentable number, or a null or
    /// array leaf.
    pub fn deserialize(json_str: &str) -> (r: Result<JSON, Error>)
        ensures
            match r {
                Ok(c) => c.wf() && (match parse_of(json_str@) {
                    Some(w) => w.wf() && (w matches WireV::Obj(_)) && spec_classify(w) == Ok::<
                        EntryV,
                        Error,
                    >(EntryV::Object(c.spec_pairs())),
                    None => false,
                }),
                Err(e) => match parse_of(json_str@) {
                    None => e == Error::Malformed,
                    Some(w) => if w matches WireV::Obj(_) {
                        spec_classify(w) == Err::<EntryV, Error>(e)
                    } else {
                        e == Error::Malformed
                    },
                },
            },
    {
        match parse_json(json_str) {
            None => Err(Error::Malformed),
            Some(w) => {
                let ghost wv = w.deep_view();
                match w {
                    WireValue::Obj(m) => {
                        let ghost mv = wire_pairs_view(m@);
                        match classify_pairs(m) {
                            Err(e) => {
                                proof {
                                    assert(wv == WireV::Obj(mv));
                                    assert(spec_classify(wv) == Err::<EntryV, Error>(e));
                                }
                                Err(e)
                            },
                            Ok(entries) => {
                                let c = JSON { entries };
                                proof {
                                    assert(wv == WireV::Obj(mv));
                                    assert(wire_pairs_wf(mv));
                                    assert(spec_classify(wv) == Ok::<EntryV, Error>(
                                        EntryV::Object(c.spec_pairs()),
                                    ));
                                }
                                Ok(c)
                            },
                        }
                    },
                    _ => Err(Error::Malformed),
                }
            },
        }
    }

    /// Canonically encodes every stored value and renders the wire document.
    /// Value-level encoding is total, and the renderer accepts every tree
    /// the encoder produces, so serialization always succeeds, with the
    /// renderer's text for the canonical encoding of this container.
    pub fn serialize(&self) -> (r: Result<String, Error>)
        requires
            self.wf(),
        ensures
            r matches Ok(s) && s@ == render_of(spec_encode(EntryV::Object(self.spec_pairs()))),
    {
        proof {
            assert(entry_pairs_view(self.entries@).skip(0) =~= self.spec_pairs());
        }
        let pairs = encode_pairs(&self.entries, 0);
        let ghost wv = WireValue::Obj(pairs).deep_view();
        proof {
            assert(wv == spec_encode(EntryV::Object(self.spec_pairs())));
        }
        match render_json(WireValue::Obj(pairs)) {
            Some(s) => Ok(s),
            None => Err(Error::Render),
        }
    }
}

} // verus!

verus! {

/// What the external parser (with the conversion into the wire model)
/// yields for a given text: a function of the text alone.
pub uninterp spec fn parse_of(s: Seq<char>) -> Option<WireV>;

/// What the external renderer emits for a given wire tree: a function of
/// the tree alone.
pub uninterp spec fn render_of(w: WireV) -> Seq<char>;

/// Declares serde_json's untyped tree type so the wrappers below can pass
/// it through; the library never looks inside a value of it.
#[verifier::external_type_specification]
#[verifier::external_body]
pub struct ExValue(serde_json::Value);

/// Declares serde_json's number type for the conversion wrapper below.
#[verifier::external_type_specification]
#[verifier::external_body]
pub struct ExNumber(serde_json::Number);

/// Relies on serde_json's number accessor and rust_decimal's conversion
/// from double: a wire number becomes a decimal when it is representable,
/// and every decimal the conversion yields is within the library's ranges.
#[verifier::external_body]
fn num_to_dec(n: &serde_json::Number) -> (r: Option<Dec>)
    ensures
        r matches Some(d) ==> d.wf(),
{
    match n.as_f64() {
        Some(f) => match rust_decimal::Decimal::try_from(f) {
            Ok(d) => Some(Dec { mantissa: d.mantissa(), scale: d.scale() }),
            Err(_) => None,
        },
        None => None,
    }
}

/// Relies on serde_json's tree model: each variant moves to the matching
/// wire variant, field for field; object keys stay unique because the
/// source map holds each key once.
#[verifier::external_body]
fn value_to_wire(v: serde_json::Value) -> (w: WireValue)
    ensures
        w.deep_view().wf(),
{
    match v {
        serde_json::Value::Null => WireValue::Null,
        serde_json::Value::Bool(b) => WireValue::Bool(b),
        serde_json::Value::Number(n) => WireValue::Num(num_to_dec(&n)),
        serde_json::Value::String(s) => WireValue::Text(s),
        serde_json::Value::Array(_) => WireValue::Arr,
        serde_json::Value::Object(m) => WireValue::Obj(
            m.into_iter().map(|(k, x)| (k, value_to_wire(x))).collect(),
        ),
    }
}

/// Relies on serde_json's parser, composed with the conversion above: the
/// outcome is a function of the text alone, and every tree it yields is
/// well-formed (its objects hold each key once).
#[verifier::external_body]
fn parse_json(s: &str) -> (r: Option<WireValue>)
    ensures
        match r {
            Some(w) => parse_of(s@) == Some(w.deep_view()) && w.deep_view().wf(),
            None => parse_of(s@) is None,
        },
{
    match serde_json::from_str::<serde_json::Value>(s) {
        Ok(v) => Some(value_to_wire(v)),
        Err(_) => None,
    }
}

/// Relies on serde_json's tree model, in the other direction; the trees the
/// encoder produces hold only booleans, text and objects.
#[verifier::external_body]
fn wire_to_value(w: WireValue) -> serde_json::Value
    requires
        w.deep_view().renderable(),
{
    match w {
        WireValue::Null => serde_json::Value::Null,
        WireValue::Bool(b) => serde_json::Value::Bool(b),
        WireValue::Num(_) => serde_json::Value::Null,
        WireValue::Text(s) => serde_json::Value::String(s),
        WireValue::Arr => serde_json::Value::Null,
        WireValue::Obj(m) => serde_json::Value::Object(
            m.into_iter().map(|(k, x)| (k, wire_to_value(x))).collect(),
        ),
    }
}

/// Relies on serde_json's renderer: the text is a function of the tree
/// alone, and on the trees the encoder produces — booleans, strings and
/// string-keyed objects — rendering writes into memory and cannot fail.
#[verifier::external_body]
fn render_json(w: WireValue) -> (r: Option<String>)
    requires
        w.deep_view().renderable(),
    ensures
        r is Some,
        r matches Some(s) ==> s@ == render_of(w.deep_view()),
{
    serde_json::to_string(&wire_to_value(w)).ok()
}

} // verus!

