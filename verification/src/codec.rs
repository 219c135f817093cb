//! The two tree transforms at the heart of the library: classifying an
//! untyped wire tree into typed entries, and canonically encoding typed
//! entries back into a wire tree, with classification stable under
//! round-trip.

use vstd::prelude::*;
use vstd::utf8::encode_utf8;
use crate::b64::{is_b64, is_b64_byte, b64_bytes, b64_decode, b64_encode, lemma_b64_roundtrip};
use crate::dec::{Dec, dec_to_string};
use crate::dt::{
    Date, Time, Timestamp, spec_date_parse, spec_time_parse, date_parse, time_parse, date_format,
    time_format, lemma_date_text_parses, lemma_time_text_parses, rfc3339_parse_of, rfc3339_text_of,
    rfc3339_shape, ts_parse, ts_format,
};
use crate::entry::{
    Entry, EntryV, WireValue, WireV, Error, entry_pairs_view, wire_pairs_view,
    lemma_entry_pairs_view, keys_unique, entry_pairs_wf, wire_pairs_wf, entry_members_wf,
    wire_members_wf, wire_pairs_renderable,
};

verus! {

broadcast use vstd::seq::axiom_seq_index_decreases, vstd::seq::axiom_seq_subrange_decreases,
    vstd::std_specs::vec::axiom_vec_decreases_to_view,
    vstd::std_specs::vec::axiom_vec_index_decreases;

/// The timestamp a parsed RFC 3339 field tuple stands for.
pub open spec fn ts_of_tuple(t: (int, int, int, int, int, int, int)) -> Timestamp {
    Timestamp {
        y: t.0 as i32,
        mo: t.1 as u8,
        d: t.2 as u8,
        h: t.3 as u8,
        mi: t.4 as u8,
        s: t.5 as u8,
        n: t.6 as u32,
    }
}

/// Classification of one wire string, by the fixed priority order: base64,
/// then `YYYY-MM-DD`, then `HH:MM:SS`, then an RFC 3339 timestamp with a
/// four-digit year, and finally the string itself. Only texts with the
/// fixed RFC 3339 skeleton can be timestamps, so a text without it that
/// fails the earlier rules is pinned to the string fallback.
pub open spec fn spec_classify_text(s: Seq<u8>) -> EntryV {
    if is_b64(s) {
        EntryV::Binary(b64_bytes(s))
    } else if spec_date_parse(s) is Some {
        EntryV::Date(spec_date_parse(s)->Some_0)
    } else if spec_time_parse(s) is Some {
        EntryV::Time(spec_time_parse(s)->Some_0)
    } else if rfc3339_shape(s) && (rfc3339_parse_of(s) matches Some(t) && ts_of_tuple(t).wf()) {
        EntryV::Timestamp(ts_of_tuple(rfc3339_parse_of(s)->Some_0))
    } else {
        EntryV::Str(s)
    }
}

/// Classification of one wire leaf or tree: booleans stay booleans,
/// representable numbers become decimals, strings classify by
/// `spec_classify_text`, objects classify member-wise, and nulls, arrays and
/// unrepresentable numbers are rejected.
pub open spec fn spec_classify(w: WireV) -> Result<EntryV, Error>
    decreases w,
{
    match w {
        WireV::Null => Err(Error::Unsupported),
        WireV::Bool(b) => Ok(EntryV::Boolean(b)),
        WireV::Num(od) => match od {
            Some(d) => Ok(EntryV::Decimal(d)),
            None => Err(Error::BadNumber),
        },
        WireV::Text(s) => Ok(spec_classify_text(s)),
        WireV::Arr => Err(Error::Unsupported),
        WireV::Obj(m) => match spec_classify_pairs(m) {
            Ok(ps) => Ok(EntryV::Object(ps)),
            Err(e) => Err(e),
        },
    }
}

/// Member-wise classification of an object's pairs; the first failure wins.
pub open spec fn spec_classify_pairs(m: Seq<(Seq<char>, WireV)>) -> Result<
    Seq<(Seq<char>, EntryV)>,
    Error,
>
    decreases m,
{
    if m.len() == 0 {
        Ok(Seq::empty())
    } else {
        match spec_classify(m[0].1) {
            Err(e) => Err(e),
            Ok(v) => match spec_classify_pairs(m.drop_first()) {
                Err(e) => Err(e),
                Ok(rest) => Ok(seq![(m[0].0, v)].add(rest)),
            },
        }
    }
}

/// Canonical encoding of one typed value into a wire tree: booleans stay
/// booleans, everything else becomes a wire string — a decimal its decimal
/// text, a date `YYYY-MM-DD`, a time `HH:MM:SS`, a timestamp its RFC 3339
/// form, binary its base64 — and objects encode member-wise.
pub open spec fn spec_encode(e: EntryV) -> WireV
    decreases e,
{
    match e {
        EntryV::Boolean(b) => WireV::Bool(b),
        EntryV::Decimal(d) => WireV::Text(d.spec_text()),
        EntryV::Date(d) => WireV::Text(d.spec_text()),
        EntryV::Time(t) => WireV::Text(t.spec_text()),
        EntryV::Timestamp(t) => WireV::Text(rfc3339_text_of(t.tuple())),
        EntryV::Str(s) => WireV::Text(s),
        EntryV::Object(m) => WireV::Obj(spec_encode_pairs(m)),
        EntryV::Binary(b) => WireV::Text(crate::b64::b64_text(b)),
    }
}

/// Member-wise canonical encoding of an object's pairs.
pub open spec fn spec_encode_pairs(m: Seq<(Seq<char>, EntryV)>) -> Seq<(Seq<char>, WireV)>
    decreases m,
{
    if m.len() == 0 {
        Seq::empty()
    } else {
        seq![(m[0].0, spec_encode(m[0].1))].add(spec_encode_pairs(m.drop_first()))
    }
}

/// The values whose classification is stable under one round trip: booleans,
/// valid dates, times and timestamps, binary, strings that classify back to
/// themselves, and objects of such. Decimals are not stable: they come back
/// as their text. Everything classification itself produces is stable (see
/// `lemma_classified_values_settle`), so after the first cycle every further
/// round trip is the identity on the values.
pub open spec fn stable(e: EntryV) -> bool
    decreases e,
{
    match e {
        EntryV::Boolean(_) => true,
        EntryV::Date(d) => d.wf(),
        EntryV::Time(t) => t.wf(),
        EntryV::Timestamp(t) => t.wf(),
        EntryV::Binary(_) => true,
        EntryV::Str(s) => spec_classify_text(s) == EntryV::Str(s),
        EntryV::Object(m) => stable_pairs(m),
        _ => false,
    }
}

/// Every member of an object's pairs is round-trip stable.
pub open spec fn stable_pairs(m: Seq<(Seq<char>, EntryV)>) -> bool
    decreases m,
{
    if m.len() == 0 {
        true
    } else {
        stable(m[0].1) && stable_pairs(m.drop_first())
    }
}

/// Classifies one wire string.
pub fn classify_text(s: String) -> (e: Entry)
    ensures
        e.deep_view() == spec_classify_text(encode_utf8(s@)),
        e.wf(),
{
    match b64_decode(s.as_str()) {
        Some(bytes) => Entry::Binary(bytes),
        None => {
            let bs = s.as_str().as_bytes();
            match date_parse(bs) {
                Some(d) => Entry::Date(d),
                None => match time_parse(bs) {
                    Some(t) => Entry::Time(t),
                    None => match ts_parse(s.as_str()) {
                        Some(ts) => {
                            proof {
                                assert(ts_of_tuple(ts.tuple()) == ts);
                            }
                            if ts.year_in_range() {
                                Entry::Timestamp(ts)
                            } else {
                                Entry::String(s)
                            }
                        },
                        None => Entry::String(s),
                    },
                },
            }
        },
    }
}

/// Classifies one wire leaf or tree into a typed entry, exactly as
/// `spec_classify` says; a well-formed wire tree yields a well-formed entry.
pub fn classify_value(w: WireValue) -> (r: Result<Entry, Error>)
    ensures
        match r {
            Ok(e) => spec_classify(w.deep_view()) == Ok::<EntryV, Error>(e.deep_view()) && (
            w.deep_view().wf() ==> e.wf()),
            Err(er) => spec_classify(w.deep_view()) == Err::<EntryV, Error>(er),
        },
    decreases w,
{
    match w {
        WireValue::Null => Err(Error::Unsupported),
        WireValue::Bool(b) => Ok(Entry::Boolean(b)),
        WireValue::Num(od) => match od {
            Some(d) => Ok(Entry::Decimal(d)),
            None => Err(Error::BadNumber),
        },
        WireValue::Text(s) => Ok(classify_text(s)),
        WireValue::Arr => Err(Error::Unsupported),
        WireValue::Obj(m) => match classify_pairs(m) {
            Ok(entries) => Ok(Entry::Object(entries)),
            Err(e) => Err(e),
        },
    }
}

/// Classifies an object's pairs member-wise, keeping keys and order.
pub fn classify_pairs(m: Vec<(String, WireValue)>) -> (r: Result<Vec<(String, Entry)>, Error>)
    ensures
        match r {
            Ok(out) => spec_classify_pairs(wire_pairs_view(m@)) == Ok::<
                Seq<(Seq<char>, EntryV)>,
                Error,
            >(entry_pairs_view(out@)) && (wire_pairs_wf(wire_pairs_view(m@)) ==> entry_pairs_wf(
                entry_pairs_view(out@),
            )),
            Err(er) => spec_classify_pairs(wire_pairs_view(m@)) == Err::<
                Seq<(Seq<char>, EntryV)>,
                Error,
            >(er),
        },
    decreases m@,
{
    let mut m = m;
    if m.len() == 0 {
        Ok(Vec::new())
    } else {
        let ghost m0 = m@;
        let (k, w) = m.remove(0);
        let ghost v0 = w;
        proof {
            assert(m@ =~= m0.drop_first());
            assert(wire_pairs_view(m0).drop_first() =~= wire_pairs_view(m@));
        }
        match classify_value(w) {
            Err(e) => Err(e),
            Ok(v) => match classify_pairs(m) {
                Err(e) => Err(e),
                Ok(mut rest) => {
                    let ghost restv = entry_pairs_view(rest@);
                    let ghost rest0 = rest@;
                    rest.insert(0, (k, v));
                    proof {
                        assert(rest@.drop_first() =~= rest0);
                        assert(entry_pairs_view(rest@) =~= seq![(k@, v.deep_view())].add(restv));
                        let mv = wire_pairs_view(m0);
                        let ov = entry_pairs_view(rest@);
                        if wire_pairs_wf(mv) {
                            assert(mv[0] == (k@, v0.deep_view()));
                            assert(mv[0].1.wf());
                            assert(wire_members_wf(mv.drop_first()));
                            assert(keys_unique(mv.drop_first().map_values(
                                (|p: (Seq<char>, WireV)| p.0),
                            ))) by {
                                assert(mv.drop_first().map_values(|p: (Seq<char>, WireV)| p.0)
                                    =~= mv.map_values(
                                    (|p: (Seq<char>, WireV)| p.0),
                                ).drop_first());
                            }
                            assert(wire_pairs_wf(mv.drop_first()));
                            assert(entry_pairs_wf(restv));
                            lemma_classify_pairs_keeps_keys(mv);
                            assert(keys_unique(ov.map_values(|p: (Seq<char>, EntryV)| p.0)));
                            assert(ov.drop_first() =~= restv);
                            assert(entry_members_wf(ov));
                            assert(entry_pairs_wf(ov));
                        }
                    }
                    Ok(rest)
                },
            },
        }
    }
}

/// Classifying an object's pairs keeps every key in place and in order.
pub proof fn lemma_classify_pairs_keeps_keys(m: Seq<(Seq<char>, WireV)>)
    requires
        spec_classify_pairs(m) is Ok,
    ensures
        (spec_classify_pairs(m)->Ok_0).map_values(|p: (Seq<char>, EntryV)| p.0) =~= m.map_values(
            (|p: (Seq<char>, WireV)| p.0),
        ),
        (spec_classify_pairs(m)->Ok_0).len() == m.len(),
    decreases m,
{
    if m.len() == 0 {
    } else {
        let rest = m.drop_first();
        lemma_classify_pairs_keeps_keys(rest);
        let out = spec_classify_pairs(m)->Ok_0;
        let routv = spec_classify_pairs(rest)->Ok_0;
        assert(out == seq![(m[0].0, spec_classify(m[0].1)->Ok_0)].add(routv));
        assert(out.drop_first() =~= routv);
        assert forall|i: int| 0 <= i < out.len() implies (#[trigger] out[i]).0 == m[i].0 by {
            if i > 0 {
                assert(out[i] == routv[i - 1]);
                assert(routv.map_values(|p: (Seq<char>, EntryV)| p.0)[i - 1] == routv[i - 1].0);
                assert(rest.map_values(|p: (Seq<char>, WireV)| p.0)[i - 1] == rest[i - 1].0);
                assert(rest[i - 1] == m[i]);
            }
        }
        assert(out.map_values(|p: (Seq<char>, EntryV)| p.0) =~= m.map_values(
            (|p: (Seq<char>, WireV)| p.0),
        ));
    }
}


/// Relies on `String::from_utf8`: ASCII bytes form the string of exactly
/// those bytes (ASCII is valid UTF-8, so the conversion cannot fail).
#[verifier::external_body]
fn string_from_ascii(b: Vec<u8>) -> (r: String)
    requires
        forall|j: int| 0 <= j < b@.len() ==> b@[j] < 128,
    ensures
        encode_utf8(r@) == b@,
{
    String::from_utf8(b).unwrap()
}

/// Canonically encodes one typed value into a wire tree, exactly as
/// `spec_encode` says. Law (round trip): classifying the encoding of any
/// stable value yields that value back.
pub fn encode_value(e: &Entry) -> (w: WireValue)
    requires
        e.wf(),
    ensures
        w.deep_view() == spec_encode(e.deep_view()),
        w.deep_view().renderable(),
        stable(e.deep_view()) ==> spec_classify(w.deep_view()) == Ok::<EntryV, Error>(
            e.deep_view(),
        ),
    decreases *e, 1int,
{
    match e {
        Entry::Boolean(b) => WireValue::Bool(*b),
        Entry::Decimal(d) => WireValue::Text(dec_to_string(d)),
        Entry::Date(d) => {
            let bytes = date_format(d);
            proof {
                lemma_date_text_parses(*d);
                assert(forall|j: int| 0 <= j < bytes@.len() ==> #[trigger] bytes@[j] < 128);
            }
            let s = string_from_ascii(bytes);
            proof {
                assert(encode_utf8(s@).len() % 4 != 0);
            }
            WireValue::Text(s)
        },
        Entry::Time(t) => {
            let bytes = time_format(t);
            proof {
                lemma_time_text_parses(*t);
                assert(forall|j: int| 0 <= j < bytes@.len() ==> #[trigger] bytes@[j] < 128);
            }
            let s = string_from_ascii(bytes);
            proof {
                let sb = encode_utf8(s@);
                assert(sb[7] != 61u8);
                assert(!is_b64(sb)) by {
                    if is_b64(sb) {
                        assert(is_b64_byte(sb[2]));
                    }
                }
            }
            WireValue::Text(s)
        },
        Entry::Timestamp(t) => {
            let s = ts_format(t);
            proof {
                let sb = encode_utf8(s@);
                assert(!is_b64(sb)) by {
                    if is_b64(sb) {
                        let n = sb.len() as int;
                        let pad: int = if sb[n - 1] == 61 {
                            if sb[n - 2] == 61 {
                                2
                            } else {
                                1
                            }
                        } else {
                            0
                        };
                        assert(4 < n - pad);
                        assert(is_b64_byte(sb[4]));
                    }
                }
                assert(spec_date_parse(sb) is None);
                assert(spec_time_parse(sb) is None);
                assert(ts_of_tuple(t.tuple()) == *t);
            }
            WireValue::Text(s)
        },
        Entry::String(s) => WireValue::Text(s.clone()),
        Entry::Object(m) => {
            proof {
                assert(entry_pairs_view(m@).skip(0) =~= entry_pairs_view(m@));
            }
            let pairs = encode_pairs(m, 0);
            proof {
                if stable(e.deep_view()) {
                    assert(stable_pairs(entry_pairs_view(m@)));
                }
            }
            WireValue::Obj(pairs)
        },
        Entry::Binary(b) => {
            proof {
                lemma_b64_roundtrip(b@);
            }
            WireValue::Text(b64_encode(b))
        },
    }
}

/// Canonically encodes an object's pairs from index `i` on, keeping keys and
/// order; classification maps the result back when every member is stable.
pub fn encode_pairs(m: &Vec<(String, Entry)>, i: usize) -> (out: Vec<(String, WireValue)>)
    requires
        i <= m.len(),
        entry_members_wf(entry_pairs_view(m@).skip(i as int)),
    ensures
        wire_pairs_view(out@) == spec_encode_pairs(entry_pairs_view(m@).skip(i as int)),
        wire_pairs_renderable(wire_pairs_view(out@)),
        stable_pairs(entry_pairs_view(m@).skip(i as int)) ==> spec_classify_pairs(
            wire_pairs_view(out@),
        ) == Ok::<Seq<(Seq<char>, EntryV)>, Error>(entry_pairs_view(m@).skip(i as int)),
    decreases *m, m@.len() - i,
{
    let ghost full = entry_pairs_view(m@);
    proof {
        lemma_entry_pairs_view(m@);
    }
    if i == m.len() {
        let out: Vec<(String, WireValue)> = Vec::new();
        proof {
            assert(full.skip(i as int) =~= Seq::<(Seq<char>, EntryV)>::empty());
            assert(wire_pairs_view(out@) =~= Seq::<(Seq<char>, WireV)>::empty());
            assert(wire_pairs_renderable(wire_pairs_view(out@)));
        }
        out
    } else {
        proof {
            assert(full.skip(i as int)[0] == full[i as int]);
            assert(full[i as int] == (m@[i as int].0@, m@[i as int].1.deep_view()));
            assert(full.skip(i as int).drop_first() =~= full.skip(i as int + 1));
        }
        let wv = encode_value(&m[i].1);
        let mut rest = encode_pairs(m, i + 1);
        let ghost rest0 = rest@;
        let key = m[i].0.clone();
        rest.insert(0, (key, wv));
        proof {
            assert(rest@.drop_first() =~= rest0);
            assert(wire_pairs_view(rest@) =~= seq![(m@[i as int].0@, wv.deep_view())].add(
                wire_pairs_view(rest0),
            ));
            assert(wire_pairs_view(rest@)[0].1 == wv.deep_view());
            assert(wire_pairs_view(rest@).drop_first() =~= wire_pairs_view(rest0));
            assert(wire_pairs_renderable(wire_pairs_view(rest@)));
            if stable_pairs(full.skip(i as int)) {
                assert(stable(full[i as int].1));
                assert(stable_pairs(full.skip(i as int + 1)));
                let wvv = wire_pairs_view(rest@);
                assert(wvv[0] == (full[i as int].0, wv.deep_view()));
                assert(spec_classify(wvv[0].1) == Ok::<EntryV, Error>(full[i as int].1));
                assert(spec_classify_pairs(wvv.drop_first()) == Ok::<
                    Seq<(Seq<char>, EntryV)>,
                    Error,
                >(full.skip(i as int + 1)));
                assert(seq![(full[i as int].0, full[i as int].1)].add(full.skip(i as int + 1))
                    =~= full.skip(i as int));
                assert(spec_classify_pairs(wvv) == Ok::<Seq<(Seq<char>, EntryV)>, Error>(
                    full.skip(i as int),
                ));
            }
        }
        rest
    }
}


/// Whether a value holds no timestamp anywhere. For these values the round
/// trip is provable from the textual grammars alone; a timestamp's round
/// trip rests on the external RFC 3339 pair and is stated as the encoder's
/// contract instead.
pub open spec fn timestamp_free(e: EntryV) -> bool
    decreases e, 1int,
{
    match e {
        EntryV::Timestamp(_) => false,
        EntryV::Object(m) => pairs_timestamp_free(m),
        _ => true,
    }
}

/// No member holds a timestamp.
pub open spec fn pairs_timestamp_free(m: Seq<(Seq<char>, EntryV)>) -> bool
    decreases m, 0int,
{
    if m.len() == 0 {
        true
    } else {
        timestamp_free(m[0].1) && pairs_timestamp_free(m.drop_first())
    }
}

/// Law (round trip for unambiguous variants): classifying the canonical
/// encoding of a stable, timestamp-free value yields exactly that value.
pub proof fn lemma_round_trip(e: EntryV)
    requires
        stable(e),
        timestamp_free(e),
    ensures
        spec_classify(spec_encode(e)) == Ok::<EntryV, Error>(e),
    decreases e, 1int,
{
    match e {
        EntryV::Date(d) => {
            lemma_date_text_parses(d);
            assert(d.spec_text().len() % 4 != 0);
        },
        EntryV::Time(t) => {
            lemma_time_text_parses(t);
            let s = t.spec_text();
            assert(s[7] != 61u8);
            assert(!is_b64(s)) by {
                if is_b64(s) {
                    assert(is_b64_byte(s[2]));
                }
            }
        },
        EntryV::Binary(b) => {
            lemma_b64_roundtrip(b);
        },
        EntryV::Object(m) => {
            lemma_round_trip_pairs(m);
        },
        _ => {},
    }
}

/// Member-wise round trip for an object's pairs.
pub proof fn lemma_round_trip_pairs(m: Seq<(Seq<char>, EntryV)>)
    requires
        stable_pairs(m),
        pairs_timestamp_free(m),
    ensures
        spec_classify_pairs(spec_encode_pairs(m)) == Ok::<Seq<(Seq<char>, EntryV)>, Error>(m),
    decreases m, 0int,
{
    if m.len() == 0 {
        assert(spec_encode_pairs(m).len() == 0);
        assert(Seq::<(Seq<char>, EntryV)>::empty() =~= m);
    } else {
        lemma_round_trip(m[0].1);
        lemma_round_trip_pairs(m.drop_first());
        let w = spec_encode_pairs(m);
        assert(w == seq![(m[0].0, spec_encode(m[0].1))].add(spec_encode_pairs(m.drop_first())));
        assert(w.drop_first() =~= spec_encode_pairs(m.drop_first()));
        assert(w[0] == (m[0].0, spec_encode(m[0].1)));
        assert(spec_classify(w[0].1) == Ok::<EntryV, Error>(m[0].1));
        assert(spec_classify_pairs(w.drop_first()) == Ok::<Seq<(Seq<char>, EntryV)>, Error>(
            m.drop_first(),
        ));
        assert(spec_classify_pairs(w) == Ok::<Seq<(Seq<char>, EntryV)>, Error>(
            seq![(m[0].0, m[0].1)].add(m.drop_first()),
        ));
        assert(seq![(m[0].0, m[0].1)].add(m.drop_first()) =~= m);
    }
}


/// Law (idempotence after the first cycle): every value that classification
/// itself produces from a renderable wire tree — one the canonical encoder
/// can emit, so free of nulls, arrays and numbers — is round-trip stable.
/// Together with the encoder's contract, a deserialized document whose text
/// came from `serialize` is a fixed point of every further cycle.
pub proof fn lemma_classified_values_settle(w: WireV)
    requires
        w.renderable(),
        spec_classify(w) is Ok,
    ensures
        stable(spec_classify(w)->Ok_0),
    decreases w, 1int,
{
    match w {
        WireV::Text(s) => {
            if !is_b64(s) && spec_date_parse(s) is Some {
                assert((spec_date_parse(s)->Some_0).wf());
            }
        },
        WireV::Obj(m) => {
            lemma_classified_pairs_settle(m);
        },
        _ => {},
    }
}

/// Member-wise form of `lemma_classified_values_settle`.
pub proof fn lemma_classified_pairs_settle(m: Seq<(Seq<char>, WireV)>)
    requires
        wire_pairs_renderable(m),
        spec_classify_pairs(m) is Ok,
    ensures
        stable_pairs(spec_classify_pairs(m)->Ok_0),
    decreases m, 0int,
{
    if m.len() > 0 {
        lemma_classified_values_settle(m[0].1);
        lemma_classified_pairs_settle(m.drop_first());
        let out = spec_classify_pairs(m)->Ok_0;
        assert(out == seq![(m[0].0, spec_classify(m[0].1)->Ok_0)].add(
            spec_classify_pairs(m.drop_first())->Ok_0,
        ));
        assert(out.drop_first() =~= spec_classify_pairs(m.drop_first())->Ok_0);
        assert(out[0].1 == spec_classify(m[0].1)->Ok_0);
    }
}

/// Law (nesting and member sets preserved): canonical encoding keeps every
/// key in place and in order, member for member; with
/// `lemma_classify_pairs_keeps_keys` on the other direction, a round trip
/// keeps an object's key set and nesting structure whatever its members
/// re-classify to.
pub proof fn lemma_encode_pairs_keeps_keys(m: Seq<(Seq<char>, EntryV)>)
    ensures
        spec_encode_pairs(m).len() == m.len(),
        spec_encode_pairs(m).map_values(|p: (Seq<char>, WireV)| p.0) =~= m.map_values(
            (|p: (Seq<char>, EntryV)| p.0),
        ),
    decreases m,
{
    if m.len() > 0 {
        lemma_encode_pairs_keeps_keys(m.drop_first());
        let out = spec_encode_pairs(m);
        let rout = spec_encode_pairs(m.drop_first());
        assert(out.drop_first() =~= rout);
        assert forall|i: int| 0 <= i < out.len() implies (#[trigger] out[i]).0 == m[i].0 by {
            if i > 0 {
                assert(out[i] == rout[i - 1]);
                assert(rout.map_values(|p: (Seq<char>, WireV)| p.0)[i - 1] == rout[i - 1].0);
                assert(m.drop_first().map_values(|p: (Seq<char>, EntryV)| p.0)[i - 1]
                    == m.drop_first()[i - 1].0);
                assert(m.drop_first()[i - 1] == m[i]);
            }
        }
        assert(out.map_values(|p: (Seq<char>, WireV)| p.0) =~= m.map_values(
            (|p: (Seq<char>, EntryV)| p.0),
        ));
    }
}

/// Law (priority order determinism): a wire string that is valid base64 is
/// always classified as binary, whatever other textual forms it may also
/// match.
pub proof fn lemma_base64_priority(s: Seq<u8>)
    requires
        is_b64(s),
    ensures
        spec_classify_text(s) == EntryV::Binary(b64_bytes(s)),
{
}

/// Law (decimals stay textual): a decimal always encodes to a wire string,
/// and no wire string ever classifies back into the decimal variant — so a
/// decimal is textually encoded on every round trip after the first.
pub proof fn lemma_decimal_stays_textual(d: Dec, s: Seq<u8>)
    ensures
        spec_encode(EntryV::Decimal(d)) matches WireV::Text(_),
        !(spec_classify_text(s) matches EntryV::Decimal(_)),
{
}

/// Whether a wire tree is classifiable: no nulls, no arrays, every number
/// representable.
pub open spec fn classifiable(w: WireV) -> bool
    decreases w, 1int,
{
    match w {
        WireV::Null => false,
        WireV::Bool(_) => true,
        WireV::Num(od) => od is Some,
        WireV::Text(_) => true,
        WireV::Arr => false,
        WireV::Obj(m) => members_classifiable(m),
    }
}

/// Every member of the pairs is classifiable.
pub open spec fn members_classifiable(m: Seq<(Seq<char>, WireV)>) -> bool
    decreases m, 0int,
{
    if m.len() == 0 {
        true
    } else {
        classifiable(m[0].1) && members_classifiable(m.drop_first())
    }
}

/// Law (total classification): classification succeeds on exactly the wire
/// trees built from booleans, representable numbers, strings and objects of
/// such; every string leaf yields some typed value.
pub proof fn lemma_classification_total(w: WireV)
    ensures
        spec_classify(w) is Ok <==> classifiable(w),
    decreases w, 1int,
{
    match w {
        WireV::Obj(m) => {
            lemma_classification_total_pairs(m);
        },
        _ => {},
    }
}

/// Member-wise totality of classification.
pub proof fn lemma_classification_total_pairs(m: Seq<(Seq<char>, WireV)>)
    ensures
        spec_classify_pairs(m) is Ok <==> members_classifiable(m),
    decreases m, 0int,
{
    if m.len() == 0 {
    } else {
        lemma_classification_total(m[0].1);
        lemma_classification_total_pairs(m.drop_first());
    }
}

} // verus!
