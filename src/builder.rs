use vstd::prelude::*;

use crate::catalog::{
    insert_canonical, is_canonical, lemma_canonical_no_duplicates, lemma_picked_len,
    lemma_picked_step, picked, Canonical, ReagentEffect, ReagentKind, ReagentProperty,
};
use crate::namegen::{covers_catalog, fragment_error, is_name_for, name_error, new_name, NameTable};
use crate::random::{random_below, random_ratio, sample_distinct};

verus! {

/// Why `build` failed.
#[derive(Clone, Copy, Debug, PartialEq, Eq)]
pub enum BuilderError {
    IncompleteBuilder,
    NameGenFailed,
    UnknownError,
}

/// The members of an optional sequence: none where it is absent.
pub open spec fn members<T>(s: Option<Seq<T>>) -> Set<T> {
    match s {
        Some(s) => s.to_set(),
        None => Set::empty(),
    }
}

/// An optional attribute set is well formed when, if present, it is
/// non-empty and canonical.
pub open spec fn canonical_opt<T: Canonical>(s: Option<Seq<T>>) -> bool {
    match s {
        Some(s) => s.len() > 0 && is_canonical(s),
        None => true,
    }
}

/// A finished reagent: a name, one kind, a non-empty canonical set of
/// effects and a canonical, possibly empty, set of properties.
#[derive(Debug, PartialEq)]
pub struct Reagent {
    name: String,
    kind: ReagentKind,
    effects: Vec<ReagentEffect>,
    property: Vec<ReagentProperty>,
}

impl View for Reagent {
    /// The name, the kind, the effects and the properties.
    type V = (Seq<char>, ReagentKind, Seq<ReagentEffect>, Seq<ReagentProperty>);

    closed spec fn view(&self) -> Self::V {
        (self.name@, self.kind, self.effects@, self.property@)
    }
}

impl Reagent {
    /// What every reagent satisfies.
    pub open spec fn wf(&self) -> bool {
        &&& self@.2.len() > 0
        &&& is_canonical(self@.2)
        &&& is_canonical(self@.3)
    }

    #[verifier::type_invariant]
    spec fn inv(&self) -> bool {
        self.wf()
    }

    pub fn name(&self) -> (r: &str)
        ensures
            r@ == self@.0,
    {
        self.name.as_str()
    }

    pub fn kind(&self) -> (r: ReagentKind)
        ensures
            r == self@.1,
    {
        self.kind
    }

    pub fn effects(&self) -> (r: &Vec<ReagentEffect>)
        ensures
            r@ == self@.2,
            self.wf(),
    {
        proof {
            use_type_invariant(self);
        }
        &self.effects
    }

    pub fn properties(&self) -> (r: &Vec<ReagentProperty>)
        ensures
            r@ == self@.3,
            self.wf(),
    {
        proof {
            use_type_invariant(self);
        }
        &self.property
    }
}

/// Accumulates the attributes of a reagent until `build` makes one.
#[derive(Debug, PartialEq)]
pub struct ReagentBuilder {
    kind: Option<ReagentKind>,
    effects: Option<Vec<ReagentEffect>>,
    property: Option<Vec<ReagentProperty>>,
}

/// The state of a builder: its kind, its effects and its properties, each
/// absent until set.
pub type BuilderState = (Option<ReagentKind>, Option<Seq<ReagentEffect>>, Option<Seq<ReagentProperty>>);

pub open spec fn opt_view<T>(v: Option<Vec<T>>) -> Option<Seq<T>> {
    match v {
        Some(v) => Some(v@),
        None => None,
    }
}

impl View for ReagentBuilder {
    type V = BuilderState;

    closed spec fn view(&self) -> BuilderState {
        (self.kind, opt_view(self.effects), opt_view(self.property))
    }
}

/// The state after setting the kind to `kind`.
pub open spec fn state_with_kind(s: BuilderState, kind: ReagentKind) -> BuilderState {
    (Some(kind), s.1, s.2)
}

/// The number of trials that run before the first stop: the place of the
/// first `true`, or the length where there is none.
pub open spec fn first_stop(stops: Seq<bool>) -> int
    decreases stops.len(),
{
    if stops.len() == 0 {
        0
    } else if stops[0] {
        0
    } else {
        1 + first_stop(stops.drop_first())
    }
}

proof fn lemma_first_stop(stops: Seq<bool>, i: int)
    requires
        0 <= i <= stops.len(),
        forall|k: int| 0 <= k < i ==> !(#[trigger] stops[k]),
        i < stops.len() ==> stops[i],
    ensures
        first_stop(stops) == i,
    decreases i,
{
    if i > 0 {
        let rest = stops.drop_first();
        assert forall|k: int| 0 <= k < i - 1 implies !(#[trigger] rest[k]) by {
            assert(rest[k] == stops[k + 1]);
        }
        if i - 1 < rest.len() {
            assert(rest[i - 1] == stops[i]);
        }
        lemma_first_stop(rest, i - 1);
    }
}

/// The properties of a builder, or none where it has none.
pub open spec fn props_or_empty(p: Option<Seq<ReagentProperty>>) -> Seq<ReagentProperty> {
    match p {
        Some(p) => p,
        None => Seq::empty(),
    }
}

/// Whatever kind and effect `build` draws for what `s` leaves unset, the
/// table has fragments for the kind and for the first effect.
pub open spec fn build_ready(names: Map<Seq<char>, Seq<Seq<char>>>, s: BuilderState) -> bool {
    &&& match s.0 {
        Some(k) => fragment_error(names, k.key_of()) is None,
        None => forall|k: ReagentKind| fragment_error(names, #[trigger] k.key_of()) is None,
    }
    &&& match s.1 {
        Some(es) => fragment_error(names, es[0].key_of()) is None,
        None => forall|e: ReagentEffect| fragment_error(names, #[trigger] e.key_of()) is None,
    }
}

/// `kind` and `effect` may be the kind and the first effect once `build`
/// has filled what `s` leaves unset.
pub open spec fn fills(s: BuilderState, kind: ReagentKind, effect: ReagentEffect) -> bool {
    &&& s.0 is Some ==> kind == s.0->0
    &&& s.1 is Some ==> effect == s.1->0[0]
}

/// The kind or the first effect that `s` sets has no fragments in the table.
pub open spec fn build_doomed(names: Map<Seq<char>, Seq<Seq<char>>>, s: BuilderState) -> bool {
    ||| (s.0 is Some && fragment_error(names, s.0->0.key_of()) is Some)
    ||| (s.1 is Some && fragment_error(names, s.1->0[0].key_of()) is Some)
}

/// `g` is a reagent that `build` may make from a builder in state `s`: what
/// `s` sets is kept, a missing kind is any kind, missing effects are one
/// effect, missing properties are none, and the name comes from the table.
pub open spec fn built_from(names: Map<Seq<char>, Seq<Seq<char>>>, s: BuilderState, g: Reagent) -> bool {
    &&& g.wf()
    &&& s.0 is Some ==> g@.1 == s.0->0
    &&& s.1 is Some ==> g@.2 == s.1->0
    &&& s.1 is None ==> g@.2.len() == 1
    &&& g@.3 == props_or_empty(s.2)
    &&& is_name_for(names, g@.1, g@.2[0], g@.0)
}

impl ReagentBuilder {
    /// What every builder satisfies: its attribute sets, where present, are
    /// non-empty and canonical.
    pub open spec fn wf(&self) -> bool {
        &&& canonical_opt(self@.1)
        &&& canonical_opt(self@.2)
    }

    #[verifier::type_invariant]
    spec fn inv(&self) -> bool {
        self.wf()
    }

    pub fn new() -> (r: ReagentBuilder)
        ensures
            r@ == (None::<ReagentKind>, None::<Seq<ReagentEffect>>, None::<Seq<ReagentProperty>>),
            r.wf(),
    {
        ReagentBuilder { kind: None, effects: None, property: None }
    }

    pub fn kind(&self) -> (r: Option<ReagentKind>)
        ensures
            r == self@.0,
            self.wf(),
    {
        proof {
            use_type_invariant(self);
        }
        self.kind
    }

    pub fn effects(&self) -> (r: Option<&Vec<ReagentEffect>>)
        ensures
            r is Some <==> self@.1 is Some,
            r is Some ==> r->0@ == self@.1->0,
            self.wf(),
    {
        proof {
            use_type_invariant(self);
        }
        self.effects.as_ref()
    }

    pub fn properties(&self) -> (r: Option<&Vec<ReagentProperty>>)
        ensures
            r is Some <==> self@.2 is Some,
            r is Some ==> r->0@ == self@.2->0,
            self.wf(),
    {
        proof {
            use_type_invariant(self);
        }
        self.property.as_ref()
    }

    /// Sets the kind, replacing any kind set before.
    pub fn with_kind(self, kind: ReagentKind) -> (r: ReagentBuilder)
        ensures
            r@ == state_with_kind(self@, kind),
            r.wf(),
    {
        proof {
            use_type_invariant(&self);
        }
        ReagentBuilder { kind: Some(kind), effects: self.effects, property: self.property }
    }

    /// Adds a property; the properties stay sorted and without duplicates.
    pub fn with_property(self, prop: ReagentProperty) -> (r: ReagentBuilder)
        ensures
            r@.0 == self@.0,
            r@.1 == self@.1,
            r@.2 is Some,
            members(r@.2) == members(self@.2).insert(prop),
            r.wf(),
    {
        proof {
            use_type_invariant(&self);
        }
        let property = match self.property {
            None => vec![prop],
            Some(v) => {
                let mut v = v;
                insert_canonical(&mut v, prop);
                v
            },
        };
        proof {
            assert(property@.to_set().contains(prop));
        }
        ReagentBuilder { kind: self.kind, effects: self.effects, property: Some(property) }
    }

    /// Adds an effect; the effects stay sorted and without duplicates.
    pub fn with_effect(self, eff: ReagentEffect) -> (r: ReagentBuilder)
        ensures
            r@.0 == self@.0,
            r@.2 == self@.2,
            r@.1 is Some,
            members(r@.1) == members(self@.1).insert(eff),
            r.wf(),
    {
        proof {
            use_type_invariant(&self);
        }
        let effects = match self.effects {
            None => vec![eff],
            Some(v) => {
                let mut v = v;
                insert_canonical(&mut v, eff);
                v
            },
        };
        proof {
            assert(effects@.to_set().contains(eff));
        }
        ReagentBuilder { kind: self.kind, effects: Some(effects), property: self.property }
    }
    /// Sets the kind to one drawn at random.
    pub fn with_random_kind(self) -> (r: ReagentBuilder)
        ensures
            r@.0 is Some,
            r@.1 == self@.1,
            r@.2 == self@.2,
            r.wf(),
    {
        proof {
            ReagentKind::lemma_count_positive();
        }
        let k = ReagentKind::from_position(random_below(ReagentKind::COUNT));
        self.with_kind(k)
    }

    /// Adds the effects at the places `picks` lists.
    pub fn with_effects_at(self, picks: &Vec<usize>) -> (r: ReagentBuilder)
        requires
            forall|k: int| 0 <= k < picks@.len() ==> #[trigger] picks@[k] < ReagentEffect::COUNT,
        ensures
            r@.0 == self@.0,
            r@.2 == self@.2,
            r.wf(),
            members(r@.1) == members(self@.1).union(picked(picks@, picks@.len() as int)),
            picks@.len() > 0 ==> r@.1 is Some,
            picks@.len() == 0 ==> r@ == self@,
    {
        proof {
            use_type_invariant(&self);
        }
        let mut b = self;
        let mut i: usize = 0;
        while i < picks.len()
            invariant
                forall|k: int| 0 <= k < picks@.len() ==> #[trigger] picks@[k] < ReagentEffect::COUNT,
                i <= picks@.len(),
                b@.0 == self@.0,
                b@.2 == self@.2,
                b.wf(),
                members(b@.1) == members(self@.1).union(picked(picks@, i as int)),
                i > 0 ==> b@.1 is Some,
                i == 0 ==> b@ == self@,
            decreases picks@.len() - i,
        {
            let e = ReagentEffect::from_position(picks[i]);
            b = b.with_effect(e);
            proof {
                lemma_picked_step::<ReagentEffect>(picks@, i as int);
                assert(members(b@.1) =~= members(self@.1).union(picked(picks@, i + 1)));
            }
            i = i + 1;
        }
        b
    }

    /// Adds `n` distinct effects drawn at random, or every effect where `n`
    /// is larger than their number.
    pub fn with_random_effects(self, n: usize) -> (r: ReagentBuilder)
        ensures
            r@.0 == self@.0,
            r@.2 == self@.2,
            r.wf(),
            exists|picks: Seq<usize>|
                #![trigger picked::<ReagentEffect>(picks, picks.len() as int)]
                picks.len() == (if n < ReagentEffect::COUNT { n } else { ReagentEffect::COUNT })
                    && picks.no_duplicates() && (forall|k: int|
                    0 <= k < picks.len() ==> #[trigger] picks[k] < ReagentEffect::COUNT)
                    && picked::<ReagentEffect>(picks, picks.len() as int).len() == picks.len()
                    && members(r@.1) == members(self@.1).union(
                    picked(picks, picks.len() as int),
                ),
            self@.1 is None && n > 0 ==> r@.1 is Some && r@.1->0.len() == if n
                < ReagentEffect::COUNT {
                n
            } else {
                ReagentEffect::COUNT
            },
            n == 0 ==> r@ == self@,
    {
        let m = if n < ReagentEffect::COUNT {
            n
        } else {
            ReagentEffect::COUNT
        };
        proof {
            ReagentEffect::lemma_count_positive();
        }
        let picks = sample_distinct(ReagentEffect::COUNT, m);
        let b = self.with_effects_at(&picks);
        proof {
            lemma_picked_len::<ReagentEffect>(picks@, picks@.len() as int);
            if self@.1 is None && n > 0 {
                assert(members(self@.1).union(picked(picks@, picks@.len() as int)) =~= picked(
                    picks@,
                    picks@.len() as int,
                ));
                assert(canonical_opt(b@.1));
                lemma_canonical_no_duplicates(b@.1->0);
                b@.1->0.unique_seq_to_set();
            }
        }
        b
    }

    /// Runs the property trials on drawn values: trial `i` stops everything
    /// where `stops[i]` holds, and otherwise adds the property at place
    /// `picks[i]`.
    pub fn with_drawn_properties(self, stops: &Vec<bool>, picks: &Vec<usize>) -> (r:
        ReagentBuilder)
        requires
            stops@.len() == picks@.len(),
            forall|k: int| 0 <= k < picks@.len() ==> #[trigger] picks@[k] < ReagentProperty::COUNT,
        ensures
            r@.0 == self@.0,
            r@.1 == self@.1,
            r.wf(),
            members(r@.2) == members(self@.2).union(picked(picks@, first_stop(stops@))),
            first_stop(stops@) == 0 ==> r@ == self@,
    {
        proof {
            use_type_invariant(&self);
        }
        let mut b = self;
        let mut i: usize = 0;
        while i < stops.len()
            invariant
                stops@.len() == picks@.len(),
                forall|k: int| 0 <= k < picks@.len() ==> #[trigger] picks@[k] < ReagentProperty::COUNT,
                i <= stops@.len(),
                forall|k: int| 0 <= k < i ==> !(#[trigger] stops@[k]),
                b@.0 == self@.0,
                b@.1 == self@.1,
                b.wf(),
                members(b@.2) == members(self@.2).union(picked(picks@, i as int)),
                i == 0 ==> b@ == self@,
            ensures
                i <= stops@.len(),
                forall|k: int| 0 <= k < i ==> !(#[trigger] stops@[k]),
                i < stops@.len() ==> stops@[i as int],
                b@.0 == self@.0,
                b@.1 == self@.1,
                b.wf(),
                members(b@.2) == members(self@.2).union(picked(picks@, i as int)),
                i == 0 ==> b@ == self@,
            decreases stops@.len() - i,
        {
            if stops[i] {
                break;
            }
            let p = ReagentProperty::from_position(picks[i]);
            b = b.with_property(p);
            proof {
                lemma_picked_step::<ReagentProperty>(picks@, i as int);
                assert(members(b@.2) =~= members(self@.2).union(picked(picks@, i + 1)));
            }
            i = i + 1;
        }
        proof {
            lemma_first_stop(stops@, i as int);
        }
        b
    }

    /// Adds up to `n` properties drawn at random: before each draw, a fair
    /// coin decides whether to stop there.
    pub fn with_random_properties(self, n: usize) -> (r: ReagentBuilder)
        ensures
            exists|stops: Seq<bool>, picks: Seq<usize>|
                #![trigger picked::<ReagentProperty>(picks, first_stop(stops))]
                stops.len() == n && picks.len() == n && (forall|k: int|
                    0 <= k < picks.len() ==> #[trigger] picks[k] < ReagentProperty::COUNT) && {
                    &&& r@.0 == self@.0
                    &&& r@.1 == self@.1
                    &&& members(r@.2) == members(self@.2).union(
                        picked::<ReagentProperty>(picks, first_stop(stops)),
                    )
                    &&& first_stop(stops) == 0 ==> r@ == self@
                },
            r.wf(),
    {
        proof {
            ReagentProperty::lemma_count_positive();
        }
        let mut stops: Vec<bool> = Vec::new();
        let mut picks: Vec<usize> = Vec::new();
        let mut stopped = false;
        let mut i: usize = 0;
        while i < n
            invariant
                ReagentProperty::COUNT > 0,
                i <= n,
                stops@.len() == i,
                picks@.len() == i,
                forall|k: int| 0 <= k < picks@.len() ==> #[trigger] picks@[k] < ReagentProperty::COUNT,
            decreases n - i,
        {
            if stopped {
                // Trials after the stop are never run; their values are unused.
                stops.push(true);
                picks.push(0);
            } else {
                let stop = random_ratio(1, 2);
                stops.push(stop);
                if stop {
                    picks.push(0);
                    stopped = true;
                } else {
                    picks.push(random_below(ReagentProperty::COUNT));
                }
            }
            i = i + 1;
        }
        self.with_drawn_properties(&stops, &picks)
    }

    fn is_incomplete(&self) -> (r: Result<(), BuilderError>)
        ensures
            r is Err <==> (self@.0 is None || self@.1 is None),
            r is Err ==> r->Err_0 == BuilderError::IncompleteBuilder,
    {
        if self.kind.is_none() || self.effects.is_none() {
            return Err(BuilderError::IncompleteBuilder);
        }
        Ok(())
    }

    /// Makes the reagent from a builder whose kind and effects are set.
    fn finish(self, names: &NameTable) -> (r: Result<Reagent, BuilderError>)
        ensures
            (self@.0 is None || self@.1 is None) ==> r == Err::<Reagent, BuilderError>(
                BuilderError::IncompleteBuilder,
            ),
            (self@.0 is Some && self@.1 is Some) ==> (r is Err <==> name_error(
                names@,
                self@.0,
                self@.1,
            ) is Some),
            (self@.0 is Some && self@.1 is Some && r is Err) ==> r->Err_0
                == BuilderError::NameGenFailed,
            r is Ok ==> built_from(names@, self@, r->Ok_0),
    {
        proof {
            use_type_invariant(&self);
        }
        self.is_incomplete()?;
        match new_name(names, &self) {
            Ok(name) => {
                let property = match self.property {
                    Some(p) => p,
                    None => Vec::new(),
                };
                Ok(Reagent { name, kind: self.kind.unwrap(), effects: self.effects.unwrap(), property })
            },
            Err(_) => Err(BuilderError::NameGenFailed),
        }
    }

    /// Makes the reagent: a missing kind is drawn at random, missing effects
    /// are one effect drawn at random, missing properties are none, and the
    /// name comes from `names`.
    pub fn build(self, names: &NameTable) -> (r: Result<Reagent, BuilderError>)
        ensures
            r is Err ==> r->Err_0 == BuilderError::NameGenFailed,
            build_ready(names@, self@) ==> r is Ok,
            build_doomed(names@, self@) ==> r is Err,
            r is Ok ==> built_from(names@, self@, r->Ok_0),
            r is Err ==> exists|k: ReagentKind, e: ReagentEffect|
                #![trigger fills(self@, k, e)]
                fills(self@, k, e) && (fragment_error(names@, k.key_of()) is Some
                    || fragment_error(names@, e.key_of()) is Some),
    {
        proof {
            use_type_invariant(&self);
        }
        let b = if self.kind().is_none() {
            self.with_random_kind()
        } else {
            self
        };
        let b = if b.effects().is_none() {
            b.with_random_effects(1)
        } else {
            b
        };
        let ghost filled = b@;
        let r = b.finish(names);
        proof {
            if r is Err {
                assert(fills(self@, filled.0->0, filled.1->0[0]));
            }
        }
        r
    }
}

/// Setting the same kind twice leaves the builder as setting it once does.
pub proof fn lemma_with_kind_idempotent(s: BuilderState, kind: ReagentKind)
    ensures
        state_with_kind(state_with_kind(s, kind), kind) == state_with_kind(s, kind),
{
}

/// With a table that has fragments for every kind and every effect, `build`
/// succeeds on every builder, a fresh one included.
pub proof fn lemma_covering_table_builds(names: Map<Seq<char>, Seq<Seq<char>>>, s: BuilderState)
    requires
        covers_catalog(names),
        canonical_opt(s.1),
    ensures
        build_ready(names, s),
{
    if s.0 is Some {
        assert(fragment_error(names, s.0->0.key_of()) is None);
    }
    if s.1 is Some {
        assert(fragment_error(names, s.1->0[0].key_of()) is None);
    }
}

} // verus!