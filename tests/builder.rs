use reagent_gen::{
    BuilderError, NameTable, ReagentBuilder, ReagentEffect, ReagentKind, ReagentProperty,
};

fn names() -> NameTable {
    NameTable::standard()
}

#[test]
fn cant_build_from_new_builder() {
    // A fresh builder draws its kind and one effect, so building succeeds.
    let inc = ReagentBuilder::new();

    let r = inc.build(&names()).unwrap();
    assert_eq!(r.kind(), ReagentKind::Plant);
    assert_eq!(r.effects().len(), 1);
    assert!(r.properties().is_empty());
}

#[test]
fn cant_build_without_effects() {
    // Missing effects are filled with one drawn at random.
    let inc = ReagentBuilder::new().with_property(ReagentProperty::Explosive);

    let r = inc.build(&names()).unwrap();
    assert_eq!(r.effects().len(), 1);
    assert_eq!(r.properties(), &vec![ReagentProperty::Explosive]);
}

#[test]
fn can_build_without_properties() {
    let inc = ReagentBuilder::new()
        .with_effect(ReagentEffect::Healing)
        .with_kind(ReagentKind::Plant);

    assert!(inc.build(&names()).is_ok());
}

#[test]
fn adding_property() {
    let builder = ReagentBuilder::new().with_property(ReagentProperty::Explosive);

    assert_eq!(builder.properties(), Some(&vec![ReagentProperty::Explosive]))
}

#[test]
fn adding_property_appends() {
    let builder = ReagentBuilder::new()
        .with_property(ReagentProperty::Explosive)
        .with_property(ReagentProperty::Viscous);

    assert_eq!(
        builder.properties(),
        Some(&vec![ReagentProperty::Explosive, ReagentProperty::Viscous])
    )
}

#[test]
fn adding_dup_property_doesnt_append() {
    let builder = ReagentBuilder::new()
        .with_property(ReagentProperty::Explosive)
        .with_property(ReagentProperty::Explosive);

    assert_eq!(builder.properties(), Some(&vec![ReagentProperty::Explosive]))
}

#[test]
fn adding_effect() {
    let builder = ReagentBuilder::new().with_effect(ReagentEffect::Healing);

    assert_eq!(builder.effects(), Some(&vec![ReagentEffect::Healing]))
}

#[test]
fn adding_effect_appends() {
    let builder = ReagentBuilder::new()
        .with_effect(ReagentEffect::Healing)
        .with_effect(ReagentEffect::Speed);

    assert_eq!(
        builder.effects(),
        Some(&vec![ReagentEffect::Healing, ReagentEffect::Speed])
    )
}

#[test]
fn adding_dup_effect_doesnt_append() {
    let builder = ReagentBuilder::new()
        .with_effect(ReagentEffect::Healing)
        .with_effect(ReagentEffect::Healing);

    assert_eq!(builder.effects(), Some(&vec![ReagentEffect::Healing]))
}

#[test]
fn complete_build() {
    let builder = ReagentBuilder::new()
        .with_kind(ReagentKind::Plant)
        .with_effect(ReagentEffect::Healing)
        .with_property(ReagentProperty::Explosive);
    let end = builder.build(&names());
    assert!(end.is_ok());
}

#[test]
fn insertion_order_does_not_matter() {
    let a = ReagentBuilder::new()
        .with_effect(ReagentEffect::Hallucination)
        .with_effect(ReagentEffect::Healing)
        .with_effect(ReagentEffect::Burning)
        .with_property(ReagentProperty::Viscous)
        .with_property(ReagentProperty::Explosive);
    let b = ReagentBuilder::new()
        .with_property(ReagentProperty::Explosive)
        .with_effect(ReagentEffect::Burning)
        .with_effect(ReagentEffect::Healing)
        .with_effect(ReagentEffect::Burning)
        .with_property(ReagentProperty::Viscous)
        .with_effect(ReagentEffect::Hallucination)
        .with_property(ReagentProperty::Explosive);
    assert_eq!(a, b);
    assert_eq!(
        a.effects(),
        Some(&vec![
            ReagentEffect::Healing,
            ReagentEffect::Burning,
            ReagentEffect::Hallucination
        ])
    );
    assert_eq!(
        a.properties(),
        Some(&vec![ReagentProperty::Explosive, ReagentProperty::Viscous])
    );
}

#[test]
fn with_kind_twice_is_with_kind_once() {
    let base = ReagentBuilder::new().with_effect(ReagentEffect::Toxic);
    let once = ReagentBuilder::new()
        .with_effect(ReagentEffect::Toxic)
        .with_kind(ReagentKind::Plant);
    let twice = base.with_kind(ReagentKind::Plant).with_kind(ReagentKind::Plant);
    assert_eq!(once, twice);
    assert_eq!(twice.kind(), Some(ReagentKind::Plant));
}

#[test]
fn random_kind_is_set() {
    let b = ReagentBuilder::new().with_random_kind();
    assert_eq!(b.kind(), Some(ReagentKind::Plant));
    assert_eq!(b.effects(), None);
}

#[test]
fn random_effects_are_distinct_and_sorted() {
    for n in 1..=18usize {
        let b = ReagentBuilder::new().with_random_effects(n);
        let es = b.effects().unwrap();
        assert_eq!(es.len(), n);
        for w in es.windows(2) {
            assert!(w[0] < w[1]);
        }
    }
}

#[test]
fn random_effects_cap_at_variant_count() {
    let b = ReagentBuilder::new().with_random_effects(100);
    let es = b.effects().unwrap();
    assert_eq!(es.len(), 18);
}

#[test]
fn random_effects_zero_changes_nothing() {
    let b = ReagentBuilder::new().with_random_effects(0);
    assert_eq!(b, ReagentBuilder::new());
}

#[test]
fn random_effects_join_existing() {
    let b = ReagentBuilder::new()
        .with_effect(ReagentEffect::Healing)
        .with_random_effects(18);
    assert_eq!(b.effects().unwrap().len(), 18);
}

#[test]
fn random_properties_stay_canonical() {
    for _ in 0..50 {
        let b = ReagentBuilder::new().with_random_properties(10);
        if let Some(ps) = b.properties() {
            assert!(!ps.is_empty());
            assert!(ps.len() <= 3);
            for w in ps.windows(2) {
                assert!(w[0] < w[1]);
            }
        }
        assert_eq!(b.effects(), None);
        assert_eq!(b.kind(), None);
    }
}

#[test]
fn random_properties_zero_changes_nothing() {
    let b = ReagentBuilder::new().with_random_properties(0);
    assert_eq!(b, ReagentBuilder::new());
}

#[test]
fn random_properties_keep_existing() {
    let b = ReagentBuilder::new()
        .with_property(ReagentProperty::Volatile)
        .with_random_properties(5);
    assert!(b
        .properties()
        .unwrap()
        .contains(&ReagentProperty::Volatile));
}

#[test]
fn build_keeps_what_was_set() {
    let r = ReagentBuilder::new()
        .with_kind(ReagentKind::Plant)
        .with_effect(ReagentEffect::Speed)
        .with_effect(ReagentEffect::Healing)
        .with_property(ReagentProperty::Volatile)
        .build(&names())
        .unwrap();
    assert_eq!(r.kind(), ReagentKind::Plant);
    assert_eq!(r.effects(), &vec![ReagentEffect::Healing, ReagentEffect::Speed]);
    assert_eq!(r.properties(), &vec![ReagentProperty::Volatile]);
    assert!(r.name() == "Mendfern"
        || r.name() == "Mendroot"
        || r.name() == "Mendbloom"
        || r.name() == "Mendthorn"
        || r.name() == "Balmfern"
        || r.name() == "Balmroot"
        || r.name() == "Balmbloom"
        || r.name() == "Balmthorn");
}

#[test]
fn build_names_from_single_fragments() {
    let table = NameTable::from_ron(r#"{"plant": ["fern"], "burning": ["ember"]}"#).unwrap();
    let r = ReagentBuilder::new()
        .with_kind(ReagentKind::Plant)
        .with_effect(ReagentEffect::Burning)
        .build(&table)
        .unwrap();
    assert_eq!(r.name(), "Emberfern");
}

#[test]
fn build_fails_without_fragments() {
    let table = NameTable::from_ron(r#"{"plant": ["fern"]}"#).unwrap();
    let r = ReagentBuilder::new()
        .with_kind(ReagentKind::Plant)
        .with_effect(ReagentEffect::Burning)
        .build(&table);
    assert_eq!(r, Err(BuilderError::NameGenFailed));
}

#[test]
fn build_fails_on_empty_fragment_list() {
    let table = NameTable::from_ron(r#"{"plant": [], "burning": ["ember"]}"#).unwrap();
    let r = ReagentBuilder::new()
        .with_kind(ReagentKind::Plant)
        .with_effect(ReagentEffect::Burning)
        .build(&table);
    assert_eq!(r, Err(BuilderError::NameGenFailed));
}

#[test]
fn drawn_properties_stop_at_first_stop() {
    let b = ReagentBuilder::new().with_drawn_properties(
        &vec![false, false, true, false],
        &vec![2, 0, 1, 1],
    );
    assert_eq!(
        b.properties(),
        Some(&vec![ReagentProperty::Explosive, ReagentProperty::Viscous])
    );
    assert_eq!(b.kind(), None);
    assert_eq!(b.effects(), None);
}

#[test]
fn drawn_properties_stopping_at_once_change_nothing() {
    let b = ReagentBuilder::new().with_drawn_properties(&vec![true, false], &vec![1, 1]);
    assert_eq!(b, ReagentBuilder::new());
}

#[test]
fn drawn_properties_without_stop_run_every_trial() {
    let b = ReagentBuilder::new()
        .with_property(ReagentProperty::Viscous)
        .with_drawn_properties(&vec![false, false], &vec![1, 1]);
    assert_eq!(
        b.properties(),
        Some(&vec![ReagentProperty::Volatile, ReagentProperty::Viscous])
    );
}

#[test]
fn effects_at_places() {
    let b = ReagentBuilder::new()
        .with_effect(ReagentEffect::Toxic)
        .with_effects_at(&vec![10, 0, 10]);
    assert_eq!(
        b.effects(),
        Some(&vec![
            ReagentEffect::Healing,
            ReagentEffect::Toxic,
            ReagentEffect::Burning
        ])
    );
    let same = ReagentBuilder::new().with_effects_at(&vec![]);
    assert_eq!(same, ReagentBuilder::new());
}
