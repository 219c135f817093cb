//! The typed value model: the `Entry` variants, the untyped wire tree they
//! are classified from, and the mathematical views of both.

use vstd::prelude::*;
use vstd::utf8::encode_utf8;
use crate::dec::Dec;
use crate::dt::{Date, Time, Timestamp};

verus! {

broadcast use vstd::seq::axiom_seq_index_decreases, vstd::seq::axiom_seq_subrange_decreases, vstd::std_specs::vec::axiom_vec_decreases_to_view;

/// A typed value: one variant of the closed set that the container stores.
///
/// `Object` maps string keys to nested entries; the order of its pairs is
/// not part of the contract, only the key-to-value mapping is.
#[derive(Debug)]
pub enum Entry {
    Boolean(bool),
    Decimal(Dec),
    Date(Date),
    Time(Time),
    Timestamp(Timestamp),
    String(String),
    Object(Vec<(String, Entry)>),
    Binary(Vec<u8>),
}

/// The mathematical view of an `Entry`: text is seen as its UTF-8 bytes,
/// an object as a sequence of key/value pairs.
pub enum EntryV {
    Boolean(bool),
    Decimal(Dec),
    Date(Date),
    Time(Time),
    Timestamp(Timestamp),
    Str(Seq<u8>),
    Object(Seq<(Seq<char>, EntryV)>),
    Binary(Seq<u8>),
}

impl Entry {
    /// The mathematical value this entry stands for.
    pub open spec fn deep_view(self) -> EntryV
        decreases self,
    {
        match self {
            Entry::Boolean(b) => EntryV::Boolean(b),
            Entry::Decimal(d) => EntryV::Decimal(d),
            Entry::Date(d) => EntryV::Date(d),
            Entry::Time(t) => EntryV::Time(t),
            Entry::Timestamp(t) => EntryV::Timestamp(t),
            Entry::String(s) => EntryV::Str(encode_utf8(s@)),
            Entry::Object(m) => EntryV::Object(entry_pairs_view(m@)),
            Entry::Binary(b) => EntryV::Binary(b@),
        }
    }

    /// Well-formed: every numeric, date, time and timestamp payload is within
    /// its representable range, and every object maps each key at most once.
    pub open spec fn wf(self) -> bool {
        self.deep_view().wf()
    }
}

impl EntryV {
    pub open spec fn wf(self) -> bool
        decreases self, 2int,
    {
        match self {
            EntryV::Decimal(d) => d.wf(),
            EntryV::Date(d) => d.wf(),
            EntryV::Time(t) => t.wf(),
            EntryV::Timestamp(t) => t.wf(),
            EntryV::Object(m) => entry_pairs_wf(m),
            _ => true,
        }
    }
}

/// An object's pairs are well-formed: unique keys, well-formed members.
pub open spec fn entry_pairs_wf(m: Seq<(Seq<char>, EntryV)>) -> bool
    decreases m, 1int,
{
    keys_unique(m.map_values(|p: (Seq<char>, EntryV)| p.0)) && entry_members_wf(m)
}

/// Every member value in the pairs is well-formed.
pub open spec fn entry_members_wf(m: Seq<(Seq<char>, EntryV)>) -> bool
    decreases m, 0int,
{
    if m.len() == 0 {
        true
    } else {
        m[0].1.wf() && entry_members_wf(m.drop_first())
    }
}

/// Member well-formedness, read off at an index.
pub proof fn lemma_entry_members_wf_index(m: Seq<(Seq<char>, EntryV)>, i: int)
    requires
        entry_members_wf(m),
        0 <= i < m.len(),
    ensures
        m[i].1.wf(),
    decreases m.len(),
{
    if i > 0 {
        lemma_entry_members_wf_index(m.drop_first(), i - 1);
    }
}

/// The views of an object's pairs, in order.
pub open spec fn entry_pairs_view(s: Seq<(String, Entry)>) -> Seq<(Seq<char>, EntryV)>
    decreases s,
{
    if s.len() == 0 {
        Seq::empty()
    } else {
        seq![(s[0].0@, s[0].1.deep_view())].add(entry_pairs_view(s.drop_first()))
    }
}

/// Pair views keep length and pointwise content.
pub proof fn lemma_entry_pairs_view(s: Seq<(String, Entry)>)
    ensures
        entry_pairs_view(s).len() == s.len(),
        forall|i: int| 0 <= i < s.len() ==> #[trigger] entry_pairs_view(s)[i] == (
        s[i].0@,
        s[i].1.deep_view(),
        ),
    decreases s.len(),
{
    if s.len() > 0 {
        lemma_entry_pairs_view(s.drop_first());
    }
}

/// The views of a wire object's pairs, in order.
pub open spec fn wire_pairs_view(s: Seq<(String, WireValue)>) -> Seq<(Seq<char>, WireV)>
    decreases s,
{
    if s.len() == 0 {
        Seq::empty()
    } else {
        seq![(s[0].0@, s[0].1.deep_view())].add(wire_pairs_view(s.drop_first()))
    }
}

/// No key occurs twice.
pub open spec fn keys_unique(keys: Seq<Seq<char>>) -> bool {
    forall|i: int, j: int| 0 <= i < j < keys.len() ==> keys[i] != keys[j]
}

/// One untyped wire leaf or tree, as the external wire-format parser hands
/// it over: text is carried as the string itself, a wire number as the
/// outcome of its conversion to the decimal representation (`None` when the
/// number cannot be represented).
pub enum WireValue {
    Null,
    Bool(bool),
    Num(Option<Dec>),
    Text(String),
    Arr,
    Obj(Vec<(String, WireValue)>),
}

/// The mathematical view of a wire tree; text is seen as its UTF-8 bytes.
pub enum WireV {
    Null,
    Bool(bool),
    Num(Option<Dec>),
    Text(Seq<u8>),
    Arr,
    Obj(Seq<(Seq<char>, WireV)>),
}

impl WireValue {
    pub open spec fn deep_view(self) -> WireV
        decreases self,
    {
        match self {
            WireValue::Null => WireV::Null,
            WireValue::Bool(b) => WireV::Bool(b),
            WireValue::Num(d) => WireV::Num(d),
            WireValue::Text(s) => WireV::Text(encode_utf8(s@)),
            WireValue::Arr => WireV::Arr,
            WireValue::Obj(m) => WireV::Obj(wire_pairs_view(m@)),
        }
    }
}

impl WireV {
    /// Every object in the tree maps each key at most once, and every wire
    /// number was representable; what a parsed wire document always satisfies.
    pub open spec fn wf(self) -> bool
        decreases self, 2int,
    {
        match self {
            WireV::Obj(m) => wire_pairs_wf(m),
            WireV::Num(od) => (od matches Some(d) ==> d.wf()),
            _ => true,
        }
    }

    /// Whether the external renderer is ever handed this tree: canonical
    /// encoding emits only booleans, text, and objects of such.
    pub open spec fn renderable(self) -> bool
        decreases self,
    {
        match self {
            WireV::Bool(_) => true,
            WireV::Text(_) => true,
            WireV::Obj(m) => wire_pairs_renderable(m),
            _ => false,
        }
    }
}

/// A wire object's pairs are well-formed: unique keys, well-formed members.
pub open spec fn wire_pairs_wf(m: Seq<(Seq<char>, WireV)>) -> bool
    decreases m, 1int,
{
    keys_unique(m.map_values(|p: (Seq<char>, WireV)| p.0)) && wire_members_wf(m)
}

/// Every member value in the pairs is well-formed.
pub open spec fn wire_members_wf(m: Seq<(Seq<char>, WireV)>) -> bool
    decreases m, 0int,
{
    if m.len() == 0 {
        true
    } else {
        m[0].1.wf() && wire_members_wf(m.drop_first())
    }
}

/// Every member of a wire object's pairs is renderable.
pub open spec fn wire_pairs_renderable(m: Seq<(Seq<char>, WireV)>) -> bool
    decreases m,
{
    if m.len() == 0 {
        true
    } else {
        m[0].1.renderable() && wire_pairs_renderable(m.drop_first())
    }
}

/// Why a wire document was rejected.
#[derive(Debug, Clone, Copy, PartialEq, Eq, Structural)]
pub enum Error {
    /// The text is not well-formed wire syntax, or its top level is not an
    /// object.
    Malformed,
    /// A wire null or array appeared where only scalar or object leaves can
    /// be classified.
    Unsupported,
    /// A wire number cannot be represented as a decimal.
    BadNumber,
    /// The external wire-format renderer failed; the canonical encoder only
    /// builds trees the renderer accepts, so `serialize` never returns this.
    Render,
}

} // verus!
