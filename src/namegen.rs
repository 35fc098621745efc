use vstd::prelude::*;

use crate::builder::ReagentBuilder;
use crate::catalog::{Canonical, ReagentEffect, ReagentKind};
use crate::random::choose_one;

verus! {

/// Why a name could not be made.
#[derive(Clone, Copy, Debug, PartialEq, Eq)]
pub enum NameGenError {
    UnknownProperty,
    UninitializedKind,
    UninitializedEffect,
    EmptyNameList,
}

/// Why a name table could not be read.
#[derive(Clone, Copy, Debug, PartialEq, Eq)]
pub enum NameTableError {
    Malformed,
}

/// What a list of entries maps each key to: where a key occurs more than
/// once, the last entry for it wins.
pub open spec fn entries_map(s: Seq<(String, Vec<String>)>) -> Map<Seq<char>, Seq<Seq<char>>>
    decreases s.len(),
{
    if s.len() == 0 {
        Map::empty()
    } else {
        entries_map(s.drop_last()).insert(s.last().0@, s.last().1.deep_view())
    }
}

proof fn lemma_entries_map_absent(s: Seq<(String, Vec<String>)>, k: Seq<char>)
    requires
        forall|j: int| 0 <= j < s.len() ==> (#[trigger] s[j]).0@ != k,
    ensures
        !entries_map(s).contains_key(k),
    decreases s.len(),
{
    if s.len() > 0 {
        assert forall|j: int| 0 <= j < s.drop_last().len() implies (#[trigger] s.drop_last()[j]).0@
            != k by {
            assert(s.drop_last()[j] == s[j]);
        }
        lemma_entries_map_absent(s.drop_last(), k);
    }
}

proof fn lemma_entries_map_last(s: Seq<(String, Vec<String>)>, k: Seq<char>, i: int)
    requires
        0 <= i < s.len(),
        s[i].0@ == k,
        forall|j: int| i < j < s.len() ==> (#[trigger] s[j]).0@ != k,
    ensures
        entries_map(s).contains_key(k),
        entries_map(s)[k] == s[i].1.deep_view(),
    decreases s.len(),
{
    if i < s.len() - 1 {
        assert forall|j: int| i < j < s.drop_last().len() implies (#[trigger] s.drop_last()[j]).0@
            != k by {
            assert(s.drop_last()[j] == s[j]);
        }
        lemma_entries_map_last(s.drop_last(), k, i);
    }
}

/// What `str::to_lowercase` makes of a string.
pub uninterp spec fn lower_of(s: Seq<char>) -> Seq<char>;

/// What `str::to_uppercase` makes of a string.
pub uninterp spec fn upper_of(s: Seq<char>) -> Seq<char>;

/// The map that `ron::from_str` reads from a text, as a map from strings to
/// lists of strings, or `None` where the text is not such a map.
pub uninterp spec fn ron_names_of(text: Seq<char>) -> Option<Map<Seq<char>, Seq<Seq<char>>>>;

#[verifier::external_type_specification]
#[verifier::external_body]
pub struct ExSpannedError(ron::error::SpannedError);

/// Relies on `str::to_lowercase`: the lowercase form of each character.
#[verifier::external_body]
fn lowercase(s: &str) -> (r: String)
    ensures
        r@ == lower_of(s@),
{
    s.to_lowercase()
}

/// Relies on `str::to_uppercase`: the uppercase form of each character.
#[verifier::external_body]
fn uppercase(s: &str) -> (r: String)
    ensures
        r@ == upper_of(s@),
{
    s.to_uppercase()
}

/// Relies on `ron::from_str` read into a `HashMap<String, Vec<String>>`: it
/// fails exactly where the text is no such map, and otherwise each key of
/// the map comes out once, with its list.
#[verifier::external_body]
fn parse_ron_names(text: &str) -> (r: Result<Vec<(String, Vec<String>)>, ron::error::SpannedError>)
    ensures
        r is Ok <==> ron_names_of(text@) is Some,
        r is Ok ==> entries_map(r->Ok_0@) == ron_names_of(text@)->0,
{
    match ron::from_str::<std::collections::HashMap<String, Vec<String>>>(text) {
        Ok(m) => Ok(m.into_iter().collect()),
        Err(e) => Err(e),
    }
}

/// A string with its first character in upper case, as `str::to_uppercase`
/// writes it, and the rest as it stands.
pub open spec fn capitalized(s: Seq<char>) -> Seq<char> {
    if s.len() == 0 {
        s
    } else {
        upper_of(s.subrange(0, 1)) + s.subrange(1, s.len() as int)
    }
}

/// The name that a fragment for the effect and one for the kind make: the
/// two joined, effect first, and capitalised.
pub open spec fn name_of(effect_fragment: Seq<char>, kind_fragment: Seq<char>) -> Seq<char> {
    capitalized(effect_fragment + kind_fragment)
}

/// Fills the name template: the effect's fragment, then the kind's fragment,
/// with nothing between them, and the whole capitalised.
pub fn compose_name(effect_fragment: &str, kind_fragment: &str) -> (r: String)
    ensures
        r@ == name_of(effect_fragment@, kind_fragment@),
{
    let mut joined = String::from_str(effect_fragment);
    joined.append(kind_fragment);
    let n = joined.unicode_len();
    if n == 0 {
        return joined;
    }
    let mut r = uppercase(joined.as_str().substring_char(0, 1));
    r.append(joined.as_str().substring_char(1, n));
    r
}

/// Looks `prop` up in `names` after turning it to lower case, and draws one
/// of its fragments at random.
pub fn lookup_name_fragment(names: &NameTable, prop: &str) -> (r: Result<String, NameGenError>)
    ensures
        lookup_outcome(names@, lower_of(prop@), r),
{
    let key = lowercase(prop);
    names.lookup_key(key.as_str())
}

/// A table from lowercase attribute names to the name fragments that may
/// stand for them.
pub struct NameTable {
    entries: Vec<(String, Vec<String>)>,
}

impl View for NameTable {
    type V = Map<Seq<char>, Seq<Seq<char>>>;

    closed spec fn view(&self) -> Map<Seq<char>, Seq<Seq<char>>> {
        entries_map(self.entries@)
    }
}

/// The error, if any, that looking up `key` in `names` gives.
pub open spec fn fragment_error(names: Map<Seq<char>, Seq<Seq<char>>>, key: Seq<char>) -> Option<
    NameGenError,
> {
    if !names.contains_key(key) {
        Some(NameGenError::UnknownProperty)
    } else if names[key].len() == 0 {
        Some(NameGenError::EmptyNameList)
    } else {
        None
    }
}

/// What a lookup of `key` in `names` may give: one of the key's fragments,
/// or the error that `fragment_error` names.
pub open spec fn lookup_outcome(
    names: Map<Seq<char>, Seq<Seq<char>>>,
    key: Seq<char>,
    r: Result<String, NameGenError>,
) -> bool {
    match r {
        Ok(f) => fragment_error(names, key) is None && names[key].contains(f@),
        Err(e) => fragment_error(names, key) == Some(e),
    }
}

impl NameTable {
    /// A table of the given entries; a key given twice keeps its last list.
    pub fn from_entries(entries: Vec<(String, Vec<String>)>) -> (r: NameTable)
        ensures
            r@ == entries_map(entries@),
    {
        NameTable { entries }
    }

    /// Reads a table from RON text that holds a map from names to lists of
    /// fragments.
    pub fn from_ron(text: &str) -> (r: Result<NameTable, NameTableError>)
        ensures
            r is Ok <==> ron_names_of(text@) is Some,
            r is Ok ==> r->Ok_0@ == ron_names_of(text@)->0,
    {
        match parse_ron_names(text) {
            Ok(entries) => Ok(NameTable { entries }),
            Err(_) => Err(NameTableError::Malformed),
        }
    }

    /// The fragments listed under `key`, exactly as given.
    pub fn fragments(&self, key: &str) -> (r: Option<&Vec<String>>)
        ensures
            r is Some <==> self@.contains_key(key@),
            r is Some ==> r->0.deep_view() == self@[key@],
    {
        let k = String::from_str(key);
        let mut i: usize = self.entries.len();
        while i > 0
            invariant
                i <= self.entries@.len(),
                k@ == key@,
                forall|j: int| i <= j < self.entries@.len() ==> (#[trigger] self.entries@[j]).0@
                    != key@,
            decreases i,
        {
            i = i - 1;
            if self.entries[i].0 == k {
                proof {
                    lemma_entries_map_last(self.entries@, key@, i as int);
                }
                return Some(&self.entries[i].1);
            }
        }
        proof {
            lemma_entries_map_absent(self.entries@, key@);
        }
        None
    }

    /// One fragment listed under `key`, drawn at random; `key` is taken as
    /// it stands.
    pub fn lookup_key(&self, key: &str) -> (r: Result<String, NameGenError>)
        ensures
            lookup_outcome(self@, key@, r),
    {
        match self.fragments(key) {
            None => Err(NameGenError::UnknownProperty),
            Some(list) => match choose_one(list) {
                None => Err(NameGenError::EmptyNameList),
                Some(f) => {
                    proof {
                        let i = choose|i: int| 0 <= i < list@.len() && (#[trigger] list@[i])@ == f@;
                        assert(list.deep_view()[i] == f@);
                    }
                    Ok(f)
                },
            },
        }
    }
}

/// Every kind and every effect has a non-empty list of fragments in `names`.
pub open spec fn covers_catalog(names: Map<Seq<char>, Seq<Seq<char>>>) -> bool {
    &&& forall|k: ReagentKind| fragment_error(names, #[trigger] k.key_of()) is None
    &&& forall|e: ReagentEffect| fragment_error(names, #[trigger] e.key_of()) is None
}

fn push_entry(entries: &mut Vec<(String, Vec<String>)>, key: &str, fragments: Vec<String>)
    ensures
        entries_map(final(entries)@) == entries_map(old(entries)@).insert(
            key@,
            fragments.deep_view(),
        ),
{
    let ghost s = entries@;
    entries.push((String::from_str(key), fragments));
    assert(entries@.drop_last() == s);
}

impl NameTable {
    /// The built-in table: fragments for every kind and every effect.
    pub fn standard() -> (r: NameTable)
        ensures
            covers_catalog(r@),
    {
        let mut entries: Vec<(String, Vec<String>)> = Vec::new();
        push_entry(&mut entries, ReagentKind::Plant.key(), vec![String::from_str("fern"), String::from_str("root"), String::from_str("bloom"), String::from_str("thorn")]);
        push_entry(&mut entries, ReagentEffect::Healing.key(), vec![String::from_str("mend"), String::from_str("balm")]);
        push_entry(&mut entries, ReagentEffect::Strength.key(), vec![String::from_str("might"), String::from_str("iron")]);
        push_entry(&mut entries, ReagentEffect::Speed.key(), vec![String::from_str("swift"), String::from_str("quick")]);
        push_entry(&mut entries, ReagentEffect::Clairvoyance.key(), vec![String::from_str("seer"), String::from_str("omen")]);
        push_entry(&mut entries, ReagentEffect::StoneSkin.key(), vec![String::from_str("stone"), String::from_str("granite")]);
        push_entry(&mut entries, ReagentEffect::Flight.key(), vec![String::from_str("wing"), String::from_str("sky")]);
        push_entry(&mut entries, ReagentEffect::Invisibility.key(), vec![String::from_str("veil"), String::from_str("ghost")]);
        push_entry(&mut entries, ReagentEffect::Explosive.key(), vec![String::from_str("blast"), String::from_str("boom")]);
        push_entry(&mut entries, ReagentEffect::Toxic.key(), vec![String::from_str("bane"), String::from_str("venom")]);
        push_entry(&mut entries, ReagentEffect::Freezing.key(), vec![String::from_str("frost"), String::from_str("rime")]);
        push_entry(&mut entries, ReagentEffect::Burning.key(), vec![String::from_str("ember"), String::from_str("flame")]);
        push_entry(&mut entries, ReagentEffect::Confusion.key(), vec![String::from_str("muddle"), String::from_str("haze")]);
        push_entry(&mut entries, ReagentEffect::Paralysis.key(), vec![String::from_str("still"), String::from_str("numb")]);
        push_entry(&mut entries, ReagentEffect::Blinding.key(), vec![String::from_str("glare"), String::from_str("dark")]);
        push_entry(&mut entries, ReagentEffect::Flashing.key(), vec![String::from_str("flash"), String::from_str("spark")]);
        push_entry(&mut entries, ReagentEffect::Viscous.key(), vec![String::from_str("tar"), String::from_str("ooze")]);
        push_entry(&mut entries, ReagentEffect::Volatile.key(), vec![String::from_str("fume"), String::from_str("vapor")]);
        push_entry(&mut entries, ReagentEffect::Hallucination.key(), vec![String::from_str("dream"), String::from_str("mirage")]);
        NameTable { entries }
    }
}

/// The error, if any, that making a name for a builder in the given state
/// gives: the kind is looked up first, then the first effect.
pub open spec fn name_error(
    names: Map<Seq<char>, Seq<Seq<char>>>,
    kind: Option<ReagentKind>,
    effects: Option<Seq<ReagentEffect>>,
) -> Option<NameGenError> {
    match kind {
        None => Some(NameGenError::UninitializedKind),
        Some(k) => if fragment_error(names, k.key_of()) is Some {
            fragment_error(names, k.key_of())
        } else {
            match effects {
                None => Some(NameGenError::UninitializedEffect),
                Some(es) => fragment_error(names, es[0].key_of()),
            }
        },
    }
}

/// The table lists fragments for `effect` and for `kind`, and `name` is
/// made of one of each.
pub open spec fn is_name_for(
    names: Map<Seq<char>, Seq<Seq<char>>>,
    kind: ReagentKind,
    effect: ReagentEffect,
    name: Seq<char>,
) -> bool {
    &&& names.contains_key(effect.key_of())
    &&& names.contains_key(kind.key_of())
    &&& exists|i: int, j: int|
        0 <= i < names[effect.key_of()].len() && 0 <= j < names[kind.key_of()].len() && name
            == name_of(#[trigger] names[effect.key_of()][i], #[trigger] names[kind.key_of()][j])
}

/// Makes a name for the builder's kind and for the first of its effects in
/// canonical order.
pub fn new_name(names: &NameTable, builder: &ReagentBuilder) -> (r: Result<String, NameGenError>)
    ensures
        r is Err <==> name_error(names@, builder@.0, builder@.1) is Some,
        r is Err ==> r->Err_0 == name_error(names@, builder@.0, builder@.1)->0,
        r is Ok ==> is_name_for(names@, builder@.0->0, builder@.1->0[0], r->Ok_0@),
{
    let kind = match builder.kind() {
        Some(k) => names.lookup_key(k.key())?,
        None => return Err(NameGenError::UninitializedKind),
    };
    let eff = match builder.effects() {
        Some(es) => names.lookup_key(es[0].key())?,
        None => return Err(NameGenError::UninitializedEffect),
    };
    let r = compose_name(eff.as_str(), kind.as_str());
    proof {
        let ek = builder@.1->0[0].key_of();
        let kk = builder@.0->0.key_of();
        let i = choose|i: int| 0 <= i < names@[ek].len() && names@[ek][i] == eff@;
        let j = choose|j: int| 0 <= j < names@[kk].len() && names@[kk][j] == kind@;
        assert(r@ == name_of(names@[ek][i], names@[kk][j]));
    }
    Ok(r)
}

} // verus!
