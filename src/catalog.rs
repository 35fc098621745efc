use vstd::prelude::*;

verus! {

/// A closed enumeration whose variants are totally ordered by their
/// declaration order and which each carry a display name and a lowercase
/// lookup key.
pub trait Canonical: Sized + Copy {
    /// How many variants the enumeration has.
    const COUNT: usize;

    /// The variant's place in declaration order.
    spec fn rank(self) -> nat;

    /// The lowercase display name, used as a key into a name table.
    spec fn key_of(self) -> Seq<char>;

    /// The variant's place in declaration order.
    fn position(&self) -> (r: usize)
        ensures
            r as nat == self.rank(),
            r < Self::COUNT,
    ;

    /// The variant at place `i` in declaration order (the last variant
    /// past the end).
    spec fn at_rank(i: nat) -> Self;

    /// The variant at place `i` in declaration order.
    fn from_position(i: usize) -> (r: Self)
        requires
            i < Self::COUNT,
        ensures
            r.rank() == i as nat,
            r == Self::at_rank(i as nat),
    ;

    /// The variant's name as declared.
    spec fn display_of(self) -> Seq<char>;

    /// The variant's name as declared, for display.
    fn name(&self) -> (r: &'static str)
        ensures
            r@ == self.display_of(),
    ;

    /// The lowercase display name.
    fn key(&self) -> (r: &'static str)
        ensures
            r@ == self.key_of(),
    ;

    proof fn lemma_count_positive()
        ensures
            Self::COUNT > 0,
    ;

    proof fn lemma_at_rank(i: nat)
        requires
            i < Self::COUNT,
        ensures
            Self::at_rank(i).rank() == i,
    ;

    proof fn lemma_rank_injective(a: Self, b: Self)
        ensures
            a.rank() == b.rank() ==> a == b,
            a.rank() < Self::COUNT,
    ;
}

/// A sequence is canonical when it is strictly increasing by rank: sorted,
/// and so without duplicates.
pub open spec fn is_canonical<T: Canonical>(s: Seq<T>) -> bool {
    forall|i: int, j: int| 0 <= i < j < s.len() ==> #[trigger] s[i].rank() < #[trigger] s[j].rank()
}

/// The category of a reagent.
#[derive(Clone, Copy, Debug, PartialEq, Eq, PartialOrd, Ord, Hash)]
pub enum ReagentKind {
    Plant,
}

impl Canonical for ReagentKind {
    const COUNT: usize = 1;

    open spec fn at_rank(i: nat) -> Self {
        {
            ReagentKind::Plant
        }
    }

    open spec fn rank(self) -> nat {
        match self {
            ReagentKind::Plant => 0,
        }
    }

    open spec fn key_of(self) -> Seq<char> {
        match self {
            ReagentKind::Plant => "plant"@,
        }
    }

    fn position(&self) -> (r: usize) {
        match self {
            ReagentKind::Plant => 0,
        }
    }

    fn from_position(i: usize) -> (r: Self) {
        {
            ReagentKind::Plant
        }
    }

    open spec fn display_of(self) -> Seq<char> {
        match self {
            ReagentKind::Plant => "Plant"@,
        }
    }

    fn name(&self) -> (r: &'static str) {
        match self {
            ReagentKind::Plant => "Plant",
        }
    }

    fn key(&self) -> (r: &'static str) {
        match self {
            ReagentKind::Plant => "plant",
        }
    }

    proof fn lemma_count_positive() {
    }

    proof fn lemma_at_rank(i: nat) {
    }

    proof fn lemma_rank_injective(a: Self, b: Self) {
    }
}

/// A static trait that a reagent may carry.
#[derive(Clone, Copy, Debug, PartialEq, Eq, PartialOrd, Ord, Hash)]
pub enum ReagentProperty {
    Explosive,
    Volatile,
    Viscous,
}

impl Canonical for ReagentProperty {
    const COUNT: usize = 3;

    open spec fn at_rank(i: nat) -> Self {
        if i == 0 {
            ReagentProperty::Explosive
        } else if i == 1 {
            ReagentProperty::Volatile
        } else {
            ReagentProperty::Viscous
        }
    }

    open spec fn rank(self) -> nat {
        match self {
            ReagentProperty::Explosive => 0,
            ReagentProperty::Volatile => 1,
            ReagentProperty::Viscous => 2,
        }
    }

    open spec fn key_of(self) -> Seq<char> {
        match self {
            ReagentProperty::Explosive => "explosive"@,
            ReagentProperty::Volatile => "volatile"@,
            ReagentProperty::Viscous => "viscous"@,
        }
    }

    fn position(&self) -> (r: usize) {
        match self {
            ReagentProperty::Explosive => 0,
            ReagentProperty::Volatile => 1,
            ReagentProperty::Viscous => 2,
        }
    }

    fn from_position(i: usize) -> (r: Self) {
        if i == 0 {
            ReagentProperty::Explosive
        } else if i == 1 {
            ReagentProperty::Volatile
        } else {
            ReagentProperty::Viscous
        }
    }

    open spec fn display_of(self) -> Seq<char> {
        match self {
            ReagentProperty::Explosive => "Explosive"@,
            ReagentProperty::Volatile => "Volatile"@,
            ReagentProperty::Viscous => "Viscous"@,
        }
    }

    fn name(&self) -> (r: &'static str) {
        match self {
            ReagentProperty::Explosive => "Explosive",
            ReagentProperty::Volatile => "Volatile",
            ReagentProperty::Viscous => "Viscous",
        }
    }

    fn key(&self) -> (r: &'static str) {
        match self {
            ReagentProperty::Explosive => "explosive",
            ReagentProperty::Volatile => "volatile",
            ReagentProperty::Viscous => "viscous",
        }
    }

    proof fn lemma_count_positive() {
    }

    proof fn lemma_at_rank(i: nat) {
    }

    proof fn lemma_rank_injective(a: Self, b: Self) {
    }
}

/// A behavioural effect of a reagent.
#[derive(Clone, Copy, Debug, PartialEq, Eq, PartialOrd, Ord, Hash)]
pub enum ReagentEffect {
    Healing,
    Strength,
    Speed,
    Clairvoyance,
    StoneSkin,
    Flight,
    Invisibility,
    Explosive,
    Toxic,
    Freezing,
    Burning,
    Confusion,
    Paralysis,
    Blinding,
    Flashing,
    Viscous,
    Volatile,
    Hallucination,
}

impl Canonical for ReagentEffect {
    const COUNT: usize = 18;

    open spec fn at_rank(i: nat) -> Self {
        if i == 0 {
            ReagentEffect::Healing
        } else if i == 1 {
            ReagentEffect::Strength
        } else if i == 2 {
            ReagentEffect::Speed
        } else if i == 3 {
            ReagentEffect::Clairvoyance
        } else if i == 4 {
            ReagentEffect::StoneSkin
        } else if i == 5 {
            ReagentEffect::Flight
        } else if i == 6 {
            ReagentEffect::Invisibility
        } else if i == 7 {
            ReagentEffect::Explosive
        } else if i == 8 {
            ReagentEffect::Toxic
        } else if i == 9 {
            ReagentEffect::Freezing
        } else if i == 10 {
            ReagentEffect::Burning
        } else if i == 11 {
            ReagentEffect::Confusion
        } else if i == 12 {
            ReagentEffect::Paralysis
        } else if i == 13 {
            ReagentEffect::Blinding
        } else if i == 14 {
            ReagentEffect::Flashing
        } else if i == 15 {
            ReagentEffect::Viscous
        } else if i == 16 {
            ReagentEffect::Volatile
        } else {
            ReagentEffect::Hallucination
        }
    }

    open spec fn rank(self) -> nat {
        match self {
            ReagentEffect::Healing => 0,
            ReagentEffect::Strength => 1,
            ReagentEffect::Speed => 2,
            ReagentEffect::Clairvoyance => 3,
            ReagentEffect::StoneSkin => 4,
            ReagentEffect::Flight => 5,
            ReagentEffect::Invisibility => 6,
            ReagentEffect::Explosive => 7,
            ReagentEffect::Toxic => 8,
            ReagentEffect::Freezing => 9,
            ReagentEffect::Burning => 10,
            ReagentEffect::Confusion => 11,
            ReagentEffect::Paralysis => 12,
            ReagentEffect::Blinding => 13,
            ReagentEffect::Flashing => 14,
            ReagentEffect::Viscous => 15,
            ReagentEffect::Volatile => 16,
            ReagentEffect::Hallucination => 17,
        }
    }

    open spec fn key_of(self) -> Seq<char> {
        match self {
            ReagentEffect::Healing => "healing"@,
            ReagentEffect::Strength => "strength"@,
            ReagentEffect::Speed => "speed"@,
            ReagentEffect::Clairvoyance => "clairvoyance"@,
            ReagentEffect::StoneSkin => "stoneskin"@,
            ReagentEffect::Flight => "flight"@,
            ReagentEffect::Invisibility => "invisibility"@,
            ReagentEffect::Explosive => "explosive"@,
            ReagentEffect::Toxic => "toxic"@,
            ReagentEffect::Freezing => "freezing"@,
            ReagentEffect::Burning => "burning"@,
            ReagentEffect::Confusion => "confusion"@,
            ReagentEffect::Paralysis => "paralysis"@,
            ReagentEffect::Blinding => "blinding"@,
            ReagentEffect::Flashing => "flashing"@,
            ReagentEffect::Viscous => "viscous"@,
            ReagentEffect::Volatile => "volatile"@,
            ReagentEffect::Hallucination => "hallucination"@,
        }
    }

    fn position(&self) -> (r: usize) {
        match self {
            ReagentEffect::Healing => 0,
            ReagentEffect::Strength => 1,
            ReagentEffect::Speed => 2,
            ReagentEffect::Clairvoyance => 3,
            ReagentEffect::StoneSkin => 4,
            ReagentEffect::Flight => 5,
            ReagentEffect::Invisibility => 6,
            ReagentEffect::Explosive => 7,
            ReagentEffect::Toxic => 8,
            ReagentEffect::Freezing => 9,
            ReagentEffect::Burning => 10,
            ReagentEffect::Confusion => 11,
            ReagentEffect::Paralysis => 12,
            ReagentEffect::Blinding => 13,
            ReagentEffect::Flashing => 14,
            ReagentEffect::Viscous => 15,
            ReagentEffect::Volatile => 16,
            ReagentEffect::Hallucination => 17,
        }
    }

    fn from_position(i: usize) -> (r: Self) {
        if i == 0 {
            ReagentEffect::Healing
        } else if i == 1 {
            ReagentEffect::Strength
        } else if i == 2 {
            ReagentEffect::Speed
        } else if i == 3 {
            ReagentEffect::Clairvoyance
        } else if i == 4 {
            ReagentEffect::StoneSkin
        } else if i == 5 {
            ReagentEffect::Flight
        } else if i == 6 {
            ReagentEffect::Invisibility
        } else if i == 7 {
            ReagentEffect::Explosive
        } else if i == 8 {
            ReagentEffect::Toxic
        } else if i == 9 {
            ReagentEffect::Freezing
        } else if i == 10 {
            ReagentEffect::Burning
        } else if i == 11 {
            ReagentEffect::Confusion
        } else if i == 12 {
            ReagentEffect::Paralysis
        } else if i == 13 {
            ReagentEffect::Blinding
        } else if i == 14 {
            ReagentEffect::Flashing
        } else if i == 15 {
            ReagentEffect::Viscous
        } else if i == 16 {
            ReagentEffect::Volatile
        } else {
            ReagentEffect::Hallucination
        }
    }

    open spec fn display_of(self) -> Seq<char> {
        match self {
            ReagentEffect::Healing => "Healing"@,
            ReagentEffect::Strength => "Strength"@,
            ReagentEffect::Speed => "Speed"@,
            ReagentEffect::Clairvoyance => "Clairvoyance"@,
            ReagentEffect::StoneSkin => "StoneSkin"@,
            ReagentEffect::Flight => "Flight"@,
            ReagentEffect::Invisibility => "Invisibility"@,
            ReagentEffect::Explosive => "Explosive"@,
            ReagentEffect::Toxic => "Toxic"@,
            ReagentEffect::Freezing => "Freezing"@,
            ReagentEffect::Burning => "Burning"@,
            ReagentEffect::Confusion => "Confusion"@,
            ReagentEffect::Paralysis => "Paralysis"@,
            ReagentEffect::Blinding => "Blinding"@,
            ReagentEffect::Flashing => "Flashing"@,
            ReagentEffect::Viscous => "Viscous"@,
            ReagentEffect::Volatile => "Volatile"@,
            ReagentEffect::Hallucination => "Hallucination"@,
        }
    }

    fn name(&self) -> (r: &'static str) {
        match self {
            ReagentEffect::Healing => "Healing",
            ReagentEffect::Strength => "Strength",
            ReagentEffect::Speed => "Speed",
            ReagentEffect::Clairvoyance => "Clairvoyance",
            ReagentEffect::StoneSkin => "StoneSkin",
            ReagentEffect::Flight => "Flight",
            ReagentEffect::Invisibility => "Invisibility",
            ReagentEffect::Explosive => "Explosive",
            ReagentEffect::Toxic => "Toxic",
            ReagentEffect::Freezing => "Freezing",
            ReagentEffect::Burning => "Burning",
            ReagentEffect::Confusion => "Confusion",
            ReagentEffect::Paralysis => "Paralysis",
            ReagentEffect::Blinding => "Blinding",
            ReagentEffect::Flashing => "Flashing",
            ReagentEffect::Viscous => "Viscous",
            ReagentEffect::Volatile => "Volatile",
            ReagentEffect::Hallucination => "Hallucination",
        }
    }

    fn key(&self) -> (r: &'static str) {
        match self {
            ReagentEffect::Healing => "healing",
            ReagentEffect::Strength => "strength",
            ReagentEffect::Speed => "speed",
            ReagentEffect::Clairvoyance => "clairvoyance",
            ReagentEffect::StoneSkin => "stoneskin",
            ReagentEffect::Flight => "flight",
            ReagentEffect::Invisibility => "invisibility",
            ReagentEffect::Explosive => "explosive",
            ReagentEffect::Toxic => "toxic",
            ReagentEffect::Freezing => "freezing",
            ReagentEffect::Burning => "burning",
            ReagentEffect::Confusion => "confusion",
            ReagentEffect::Paralysis => "paralysis",
            ReagentEffect::Blinding => "blinding",
            ReagentEffect::Flashing => "flashing",
            ReagentEffect::Viscous => "viscous",
            ReagentEffect::Volatile => "volatile",
            ReagentEffect::Hallucination => "hallucination",
        }
    }

    proof fn lemma_count_positive() {
    }

    proof fn lemma_at_rank(i: nat) {
    }

    proof fn lemma_rank_injective(a: Self, b: Self) {
    }
}

/// Every variant of the enumeration, in canonical order.
pub fn variants<T: Canonical>() -> (r: Vec<T>)
    ensures
        r@.len() == T::COUNT,
        forall|i: int| 0 <= i < r@.len() ==> (#[trigger] r@[i]).rank() == i,
        is_canonical(r@),
        forall|x: T| r@.contains(x),
{
    let mut r: Vec<T> = Vec::new();
    let mut i: usize = 0;
    while i < T::COUNT
        invariant
            i <= T::COUNT,
            r@.len() == i,
            forall|k: int| 0 <= k < i ==> (#[trigger] r@[k]).rank() == k,
        decreases T::COUNT - i,
    {
        r.push(T::from_position(i));
        i = i + 1;
    }
    assert forall|x: T| r@.contains(x) by {
        T::lemma_rank_injective(x, r@[x.rank() as int]);
    }
    r
}

/// Adds `x` to the canonical sequence `v`, keeping it canonical: `x` goes
/// into its place by rank, unless it is already there.
pub fn insert_canonical<T: Canonical>(v: &mut Vec<T>, x: T)
    requires
        is_canonical(old(v)@),
    ensures
        is_canonical(final(v)@),
        final(v)@.to_set() == old(v)@.to_set().insert(x),
{
    let ghost s = v@;
    let xp = x.position();
    let mut i: usize = 0;
    while i < v.len()
        invariant
            v@ == s,
            xp as nat == x.rank(),
            i <= v@.len(),
            forall|k: int| 0 <= k < i ==> (#[trigger] s[k]).rank() < x.rank(),
        ensures
            v@ == s,
            i <= s.len(),
            forall|k: int| 0 <= k < i ==> (#[trigger] s[k]).rank() < x.rank(),
            i < s.len() ==> s[i as int].rank() >= x.rank(),
        decreases v@.len() - i,
    {
        if v[i].position() >= xp {
            break;
        }
        i = i + 1;
    }
    if i < v.len() && v[i].position() == xp {
        proof {
            T::lemma_rank_injective(s[i as int], x);
            assert(s.to_set().insert(x) =~= s.to_set());
        }
        return;
    }
    v.insert(i, x);
    proof {
        let t = v@;
        assert(t == s.insert(i as int, x));
        assert forall|a: int, b: int| 0 <= a < b < t.len() implies #[trigger] t[a].rank()
            < #[trigger] t[b].rank() by {
            if b < i {
            } else if b == i {
            } else if a < i {
                assert(t[b] == s[b - 1]);
            } else if a == i {
                assert(t[b] == s[b - 1]);
                assert(s[i as int].rank() >= x.rank());
                if b - 1 > i {
                    assert(s[i as int].rank() < s[b - 1].rank());
                }
            } else {
                assert(t[a] == s[a - 1]);
                assert(t[b] == s[b - 1]);
            }
        }
        assert forall|y: T| t.to_set().contains(y) <==> s.to_set().insert(x).contains(y) by {
            if s.contains(y) {
                let k = choose|k: int| 0 <= k < s.len() && s[k] == y;
                if k < i {
                    assert(t[k] == y);
                } else {
                    assert(t[k + 1] == y);
                }
            }
            if t.contains(y) {
                let k = choose|k: int| 0 <= k < t.len() && t[k] == y;
                if k < i {
                    assert(s[k] == y);
                } else if k > i {
                    assert(s[k - 1] == y);
                }
            }
            assert(t[i as int] == x);
        }
        assert(t.to_set() =~= s.to_set().insert(x));
    }
}

/// A canonical sequence holds each variant at most once.
pub proof fn lemma_canonical_no_duplicates<T: Canonical>(s: Seq<T>)
    requires
        is_canonical(s),
    ensures
        s.no_duplicates(),
{
    assert forall|i: int, j: int| 0 <= i < s.len() && 0 <= j < s.len() && i != j implies s[i]
        != s[j] by {
        if i < j {
            assert(s[i].rank() < s[j].rank());
        } else {
            assert(s[j].rank() < s[i].rank());
        }
    }
}

/// A canonical sequence is fixed by its members: whatever the order in which
/// items were inserted, and however often, the same members give the same
/// sequence.
pub proof fn lemma_canonical_unique<T: Canonical>(a: Seq<T>, b: Seq<T>)
    requires
        is_canonical(a),
        is_canonical(b),
        a.to_set() == b.to_set(),
    ensures
        a == b,
    decreases a.len(),
{
    if a.len() == 0 || b.len() == 0 {
        if a.len() > 0 {
            assert(a.to_set().contains(a[0]));
        }
        if b.len() > 0 {
            assert(b.to_set().contains(b[0]));
        }
        assert(a =~= b);
    } else {
        assert(a.to_set().contains(a[0]));
        assert(b.to_set().contains(b[0]));
        let j = choose|j: int| 0 <= j < b.len() && b[j] == a[0];
        let i = choose|i: int| 0 <= i < a.len() && a[i] == b[0];
        if j > 0 {
            assert(b[0].rank() < b[j].rank());
            if i > 0 {
                assert(a[0].rank() < a[i].rank());
            }
        }
        if i > 0 {
            assert(a[0].rank() < a[i].rank());
        }
        T::lemma_rank_injective(a[0], b[0]);
        let ra = a.drop_first();
        let rb = b.drop_first();
        lemma_canonical_no_duplicates(a);
        lemma_canonical_no_duplicates(b);
        assert forall|x: T| ra.to_set().contains(x) <==> rb.to_set().contains(x) by {
            if ra.to_set().contains(x) {
                let k = choose|k: int| 0 <= k < ra.len() && ra[k] == x;
                assert(a[k + 1] == x);
                assert(a.to_set().contains(x));
                let l = choose|l: int| 0 <= l < b.len() && b[l] == x;
                if l == 0 {
                    assert(a[0] == a[k + 1]);
                } else {
                    assert(rb[l - 1] == x);
                }
            }
            if rb.to_set().contains(x) {
                let k = choose|k: int| 0 <= k < rb.len() && rb[k] == x;
                assert(b[k + 1] == x);
                assert(b.to_set().contains(x));
                let l = choose|l: int| 0 <= l < a.len() && a[l] == x;
                if l == 0 {
                    assert(b[0] == b[k + 1]);
                } else {
                    assert(ra[l - 1] == x);
                }
            }
        }
        assert(ra.to_set() =~= rb.to_set());
        lemma_canonical_unique(ra, rb);
        assert(a =~= b) by {
            assert forall|k: int| 0 <= k < a.len() implies a[k] == b[k] by {
                if k > 0 {
                    assert(a[k] == ra[k - 1]);
                    assert(b[k] == rb[k - 1]);
                }
            }
        }
    }
}

/// Pairs of effects declared unable to share a reagent. Nothing in the
/// builder consults this relation: whether `build` should refuse such a
/// pair is left open.
pub fn incompatible_effects() -> (r: Vec<(ReagentEffect, ReagentEffect)>)
    ensures
        r@ == seq![(ReagentEffect::Healing, ReagentEffect::Toxic)],
{
    vec![(ReagentEffect::Healing, ReagentEffect::Toxic)]
}

/// The variants at the places `picks[0..upto]`.
pub open spec fn picked<T: Canonical>(picks: Seq<usize>, upto: int) -> Set<T> {
    Set::new(|x: T| exists|k: int| 0 <= k < upto && x == T::at_rank(#[trigger] picks[k] as nat))
}

pub proof fn lemma_picked_step<T: Canonical>(picks: Seq<usize>, upto: int)
    requires
        0 <= upto < picks.len(),
    ensures
        picked::<T>(picks, upto + 1) == picked::<T>(picks, upto).insert(
            T::at_rank(picks[upto] as nat),
        ),
{
    assert(picked::<T>(picks, upto + 1) =~= picked::<T>(picks, upto).insert(
        T::at_rank(picks[upto] as nat),
    ));
}

/// Distinct places below the variant count pick as many distinct variants.
pub proof fn lemma_picked_len<T: Canonical>(picks: Seq<usize>, upto: int)
    requires
        0 <= upto <= picks.len(),
        picks.no_duplicates(),
        forall|k: int| 0 <= k < picks.len() ==> #[trigger] picks[k] < T::COUNT,
    ensures
        picked::<T>(picks, upto).finite(),
        picked::<T>(picks, upto).len() == upto,
    decreases upto,
{
    if upto == 0 {
        assert(picked::<T>(picks, 0) =~= Set::empty());
    } else {
        lemma_picked_len::<T>(picks, upto - 1);
        lemma_picked_step::<T>(picks, upto - 1);
        let x = T::at_rank(picks[upto - 1] as nat);
        T::lemma_at_rank(picks[upto - 1] as nat);
        if picked::<T>(picks, upto - 1).contains(x) {
            let k = choose|k: int| 0 <= k < upto - 1 && x == T::at_rank(#[trigger] picks[k] as nat);
            T::lemma_at_rank(picks[k] as nat);
        }
    }
}

} // verus!
