use reagent_gen::catalog::variants;
use reagent_gen::namegen::compose_name;
use reagent_gen::{
    lookup_name_fragment, new_name, Canonical, NameGenError, NameTable, NameTableError,
    ReagentBuilder, ReagentEffect, ReagentKind,
};

#[test]
fn unknown_property() {
    let names = NameTable::standard();
    assert!(lookup_name_fragment(&names, "tag doesn't exist").is_err());
}

#[test]
fn name_fragment_args_are_case_insensitive() {
    let names = NameTable::standard();
    assert!(lookup_name_fragment(&names, "Plant").is_ok());
    assert!(lookup_name_fragment(&names, "plant").is_ok());
}

#[test]
fn names_dict_is_complete() {
    //for all values of ReagentEffect and ReagentKind, there must be
    // a key in the table so that the lookup can work
    let names = NameTable::standard();
    for kind in variants::<ReagentKind>() {
        if names.fragments(&kind.name().to_lowercase()).is_none() {
            panic!("No entry found for {:?}", kind)
        };
    }

    for eff in variants::<ReagentEffect>() {
        if names.fragments(&eff.name().to_lowercase()).is_none() {
            panic!("No entry found for {:?}", eff)
        }
    }
}

#[test]
fn unknown_key_is_unknown_property() {
    let names = NameTable::standard();
    assert_eq!(
        lookup_name_fragment(&names, "tag doesn't exist"),
        Err(NameGenError::UnknownProperty)
    );
    assert_eq!(names.lookup_key("Plant"), Err(NameGenError::UnknownProperty));
}

#[test]
fn single_fragment_lookups_agree_across_case() {
    let names = NameTable::from_ron(r#"{"plant": ["fern"], "burning": ["ember"]}"#).unwrap();
    let a = lookup_name_fragment(&names, "Plant").unwrap();
    let b = lookup_name_fragment(&names, "plant").unwrap();
    assert_eq!(a, "fern");
    assert_eq!(a, b);
    assert_eq!(lookup_name_fragment(&names, "BURNING").unwrap(), "ember");
}

#[test]
fn empty_list_is_empty_name_list() {
    let names = NameTable::from_ron(r#"{"plant": []}"#).unwrap();
    assert_eq!(
        lookup_name_fragment(&names, "plant"),
        Err(NameGenError::EmptyNameList)
    );
}

#[test]
fn lookup_draws_a_listed_fragment() {
    let names = NameTable::standard();
    for _ in 0..20 {
        let f = lookup_name_fragment(&names, "Freezing").unwrap();
        assert!(f == "frost" || f == "rime");
    }
}

#[test]
fn malformed_table_is_refused() {
    assert_eq!(
        NameTable::from_ron("{\"plant\": [\"fern\"").err(),
        Some(NameTableError::Malformed)
    );
    assert_eq!(
        NameTable::from_ron("[1, 2]").err(),
        Some(NameTableError::Malformed)
    );
}

#[test]
fn table_from_ron_holds_its_entries() {
    let names =
        NameTable::from_ron(r#"{"plant": ["fern", "moss"], "toxic": ["bane"]}"#).unwrap();
    assert_eq!(
        names.fragments("plant"),
        Some(&vec!["fern".to_string(), "moss".to_string()])
    );
    assert_eq!(names.fragments("toxic"), Some(&vec!["bane".to_string()]));
    assert_eq!(names.fragments("healing"), None);
}

#[test]
fn later_entry_wins() {
    let names = NameTable::from_entries(vec![
        ("plant".to_string(), vec!["fern".to_string()]),
        ("plant".to_string(), vec!["moss".to_string()]),
    ]);
    assert_eq!(names.fragments("plant"), Some(&vec!["moss".to_string()]));
}

#[test]
fn template_puts_effect_first_and_capitalises() {
    assert_eq!(compose_name("ember", "fern"), "Emberfern");
    assert_eq!(compose_name("frost", "root"), "Frostroot");
    assert_eq!(compose_name("", "fern"), "Fern");
    assert_eq!(compose_name("", ""), "");
    assert_eq!(compose_name("élan", "moss"), "Élanmoss");
    assert_eq!(compose_name("Ember", "fern"), "Emberfern");
}

#[test]
fn new_name_from_single_fragments() {
    let names = NameTable::from_ron(r#"{"plant": ["fern"], "burning": ["ember"]}"#).unwrap();
    let b = ReagentBuilder::new()
        .with_kind(ReagentKind::Plant)
        .with_effect(ReagentEffect::Burning);
    assert_eq!(new_name(&names, &b), Ok("Emberfern".to_string()));
}

#[test]
fn new_name_uses_first_effect_in_order() {
    let names = NameTable::from_ron(
        r#"{"plant": ["fern"], "burning": ["ember"], "healing": ["mend"]}"#,
    )
    .unwrap();
    let b = ReagentBuilder::new()
        .with_kind(ReagentKind::Plant)
        .with_effect(ReagentEffect::Burning)
        .with_effect(ReagentEffect::Healing);
    assert_eq!(new_name(&names, &b), Ok("Mendfern".to_string()));
}

#[test]
fn new_name_needs_kind_and_effects() {
    let names = NameTable::standard();
    assert_eq!(
        new_name(&names, &ReagentBuilder::new()),
        Err(NameGenError::UninitializedKind)
    );
    let b = ReagentBuilder::new().with_kind(ReagentKind::Plant);
    assert_eq!(new_name(&names, &b), Err(NameGenError::UninitializedEffect));
}

#[test]
fn new_name_looks_up_kind_first() {
    let names = NameTable::from_ron(r#"{"burning": ["ember"]}"#).unwrap();
    let b = ReagentBuilder::new().with_kind(ReagentKind::Plant);
    assert_eq!(new_name(&names, &b), Err(NameGenError::UnknownProperty));
}

#[test]
fn catalog_keys_and_order() {
    let effects = variants::<ReagentEffect>();
    assert_eq!(effects.len(), 18);
    assert_eq!(effects[0], ReagentEffect::Healing);
    assert_eq!(effects[17], ReagentEffect::Hallucination);
    assert_eq!(ReagentEffect::StoneSkin.name(), "StoneSkin");
    assert_eq!(ReagentEffect::StoneSkin.key(), "stoneskin");
    assert_eq!(ReagentEffect::StoneSkin.position(), 4);
    assert_eq!(ReagentEffect::from_position(4), ReagentEffect::StoneSkin);
    assert_eq!(variants::<ReagentKind>(), vec![ReagentKind::Plant]);
}

#[test]
fn healing_and_toxic_are_declared_incompatible() {
    assert_eq!(
        reagent_gen::catalog::incompatible_effects(),
        vec![(ReagentEffect::Healing, ReagentEffect::Toxic)]
    );
    // The relation is not enforced by the builder.
    let r = ReagentBuilder::new()
        .with_kind(ReagentKind::Plant)
        .with_effect(ReagentEffect::Healing)
        .with_effect(ReagentEffect::Toxic)
        .build(&NameTable::standard());
    assert!(r.is_ok());
}
