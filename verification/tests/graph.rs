use personal_knowledge_os::error::ServiceError;
use personal_knowledge_os::graph::{
    check_entity_inserted, check_relation_references, check_relation_shape, normalize_aliases, prepare_entity,
    prepare_entity_query, prepare_relation, validate_nonempty, JsonShape,
};
use personal_knowledge_os::time::Timestamp;

fn bad(msg: &str) -> ServiceError {
    ServiceError::BadRequest(msg.to_string())
}

#[test]
fn aliases_are_trimmed_and_case_insensitively_deduplicated() {
    let aliases = vec![
        "  PKOS  ".to_string(),
        "pkos".to_string(),
        "Personal KB".to_string(),
        "".to_string(),
    ];
    let normalized = normalize_aliases(aliases, "Personal Knowledge OS").unwrap();
    assert_eq!(normalized, vec!["Personal KB", "PKOS"]);
}

#[test]
fn canonical_name_is_not_duplicated_as_alias() {
    let aliases = vec!["personal knowledge os".to_string()];
    let normalized = normalize_aliases(aliases, "Personal Knowledge OS").unwrap();
    assert!(normalized.is_empty());
}

#[test]
fn aliases_compare_by_full_unicode_lower_case() {
    let aliases = vec!["ÄPFEL".to_string(), "äpfel".to_string(), "Zebra".to_string(), "apple".to_string()];
    let normalized = normalize_aliases(aliases, "Fruit").unwrap();
    assert_eq!(normalized, vec!["apple", "Zebra", "ÄPFEL"]);
}

#[test]
fn too_many_aliases_are_refused() {
    let aliases: Vec<String> = (0..101).map(|i| format!("alias {i}")).collect();
    assert_eq!(
        normalize_aliases(aliases, "x"),
        Err(bad("aliases must contain at most 100 values"))
    );
}

#[test]
fn overlong_alias_is_refused() {
    let aliases = vec!["ok".to_string(), "a".repeat(257)];
    assert_eq!(
        normalize_aliases(aliases, "x"),
        Err(bad("each alias must be at most 256 characters"))
    );
    let fits = vec![format!("  {}  ", "b".repeat(256))];
    assert_eq!(normalize_aliases(fits, "x").unwrap(), vec!["b".repeat(256)]);
}

#[test]
fn nonempty_field_lengths_count_characters() {
    assert_eq!(validate_nonempty("predicate", "", 128), Err(bad("predicate must be 1..=128 characters")));
    assert_eq!(validate_nonempty("name", "ééé", 3), Ok(()));
    assert_eq!(validate_nonempty("name", "éééé", 3), Err(bad("name must be 1..=3 characters")));
}

#[test]
fn entity_request_is_trimmed_and_checked_in_order() {
    let draft = prepare_entity(
        "  project ",
        " Personal Knowledge OS ",
        JsonShape::Null,
        vec![" PKOS ".to_string()],
    )
    .unwrap();
    assert_eq!(draft.entity_type, "project");
    assert_eq!(draft.canonical_name, "Personal Knowledge OS");
    assert!(draft.empty_attributes);
    assert_eq!(draft.aliases, vec!["PKOS"]);

    let with_object = prepare_entity("project", "PKOS", JsonShape::Object, vec![]).unwrap();
    assert!(!with_object.empty_attributes);

    assert_eq!(
        prepare_entity("   ", "PKOS", JsonShape::Other, vec![]).unwrap_err(),
        bad("entity_type must be 1..=64 characters")
    );
    assert_eq!(
        prepare_entity("project", "  ", JsonShape::Other, vec![]).unwrap_err(),
        bad("canonical_name must be 1..=256 characters")
    );
    assert_eq!(
        prepare_entity("project", "PKOS", JsonShape::Other, vec![]).unwrap_err(),
        bad("attributes must be a JSON object")
    );
}

#[test]
fn entity_query_drops_blank_filters_and_clamps_limit() {
    let q = prepare_entity_query(Some(1000), Some("  "), Some(" bifrost ")).unwrap();
    assert_eq!(q.limit, 200);
    assert_eq!(q.entity_type, None);
    assert_eq!(q.search.as_deref(), Some("bifrost"));
    let q = prepare_entity_query(None, None, None).unwrap();
    assert_eq!(q.limit, 50);
    assert_eq!(
        prepare_entity_query(Some(0), None, Some(&"q".repeat(257))).unwrap_err(),
        bad("query must be at most 256 characters")
    );
    assert_eq!(
        prepare_entity_query(Some(0), Some(&"t".repeat(65)), None).unwrap_err(),
        bad("entity_type must be 1..=64 characters")
    );
}

#[test]
fn relation_shape_and_references_are_checked() {
    let t = |secs: i64| Some(Timestamp { secs, nanos: 0 });
    assert_eq!(
        check_relation_shape(7, 7, None, None),
        Err(bad("subject_entity_id and object_entity_id must differ"))
    );
    assert_eq!(
        check_relation_shape(1, 2, t(10), t(9)),
        Err(bad("valid_until must be greater than or equal to valid_from"))
    );
    assert_eq!(check_relation_shape(1, 2, t(10), t(10)), Ok(()));
    assert_eq!(
        prepare_relation("  works_on ", 1, 2, true, None, None),
        Ok("works_on".to_string())
    );
    assert_eq!(
        prepare_relation("works_on", 1, 2, false, None, None),
        Err(bad("confidence must be a finite number between 0 and 1"))
    );
    assert_eq!(
        check_relation_references(1, None),
        Err(bad("both relation entities must exist for the current owner"))
    );
    assert_eq!(
        check_relation_references(2, Some(false)),
        Err(bad("relation source_id must exist for the current owner"))
    );
    assert_eq!(check_relation_references(2, Some(true)), Ok(()));
}

#[test]
fn duplicate_entity_is_a_conflict() {
    assert_eq!(check_entity_inserted(true), Ok(()));
    assert_eq!(
        check_entity_inserted(false),
        Err(ServiceError::Conflict("entity with the same type and canonical_name already exists".to_string()))
    );
}
