use todo_fs::api::{created_item_response, created_relationship_response, expects_response, ClientRequest, ClientResponse, CreateItemRequest, CreateItemRelationshipRequest};
use todo_fs::db::{filter_query, Condition, ConditionSetId, ItemFilter, ItemId, ParseRelationshipSideError, RelationshipId, RelationshipSide};
use todo_fs::schema::{upgrade_plan, Migration, LATEST_VERSION};
use todo_fs::text::{i64_text, join_path, str_eq, u64_text, with_newline_as_vec};

#[test]
fn decimal_text() {
    assert_eq!(u64_text(0), "0");
    assert_eq!(u64_text(907), "907");
    assert_eq!(i64_text(-12), "-12");
    assert_eq!(i64_text(i64::MIN), "-9223372036854775808");
    assert_eq!(i64_text(i64::MAX), "9223372036854775807");
}

#[test]
fn newline_bytes_and_joins() {
    assert_eq!(with_newline_as_vec("bob".to_string()), b"bob\n".to_vec());
    assert_eq!(with_newline_as_vec(String::new()), b"\n".to_vec());
    assert_eq!(join_path("/store/items", "7"), "/store/items/7");
    assert!(str_eq("dest", "dest"));
    assert!(!str_eq("dest", "desk"));
}

#[test]
fn side_numbers_and_names() {
    assert_eq!(RelationshipSide::from_i64(0), Ok(RelationshipSide::Source));
    assert_eq!(RelationshipSide::from_i64(1), Ok(RelationshipSide::Dest));
    assert_eq!(RelationshipSide::from_i64(2), Err(ParseRelationshipSideError));
    assert_eq!(RelationshipSide::Dest.as_i64(), 1);
    assert_eq!(RelationshipSide::Source.as_str(), "source");
    assert_eq!(RelationshipSide::parse("dest"), Ok(RelationshipSide::Dest));
    assert_eq!(RelationshipSide::parse("source"), Ok(RelationshipSide::Source));
    assert_eq!(RelationshipSide::parse("Source"), Err(ParseRelationshipSideError));
}

#[test]
fn condition_sql_text() {
    let c = Condition::NoRelationship(RelationshipSide::Dest, RelationshipId(1));
    assert_eq!(
        c.sql(None),
        "files.id not in (SELECT files.id FROM files JOIN item_relationships ON item_relationships.to_id = files.id AND relationship_id = 1)"
    );
    let c = Condition::HasRelationshipWithVariableItem(RelationshipSide::Source, RelationshipId(4));
    assert_eq!(
        c.sql(Some(ItemId(9))),
        "files.id in (SELECT files.id FROM files JOIN item_relationships ON item_relationships.from_id = files.id AND relationship_id = 4 AND item_relationships.to_id = 9)"
    );
    let c = Condition::NoRelationshipWithSpecificItem(ItemId(3), RelationshipSide::Dest, RelationshipId(2));
    assert_eq!(
        c.sql(None),
        "files.id not in (SELECT files.id FROM files JOIN item_relationships ON item_relationships.to_id = files.id AND relationship_id = 2 AND item_relationships.from_id = 3)"
    );
}

#[test]
fn filter_query_text() {
    assert_eq!(filter_query(&vec![], None), "SELECT files.id FROM files ");
    let conditions = vec![
        Condition::NoRelationship(RelationshipSide::Dest, RelationshipId(1)),
        Condition::NoRelationship(RelationshipSide::Source, RelationshipId(2)),
    ];
    let q = filter_query(&conditions, None);
    assert!(q.starts_with("SELECT files.id FROM files WHERE (files.id not in "));
    assert!(q.contains(") AND (files.id not in "));
    assert!(q.ends_with("relationship_id = 2)) "));
}

#[test]
fn item_filter_accessors() {
    let f = ItemFilter {
        to_run: ConditionSetId(4),
        name: "kids".to_string(),
        conditions: vec![Condition::NoRelationship(RelationshipSide::Source, RelationshipId(1))],
    };
    assert_eq!(f.filter_to_run(), ConditionSetId(4));
    assert_eq!(f.name(), "kids");
    assert_eq!(f.conditions().len(), 1);
    assert!(f.matches(ItemId(2), &vec![ItemId(1), ItemId(2)]));
    assert!(!f.matches(ItemId(3), &vec![ItemId(1), ItemId(2)]));
}

#[test]
fn migration_plan() {
    assert_eq!(upgrade_plan(0), vec![Migration::GenerateV1, Migration::UpgradeV1ToV2]);
    assert_eq!(upgrade_plan(1), vec![Migration::UpgradeV1ToV2]);
    assert!(upgrade_plan(LATEST_VERSION).is_empty());
}

#[test]
fn responses_name_new_paths() {
    match created_item_response(ItemId(3)) {
        ClientResponse::CreateItem(r) => assert_eq!(r.path, "/items/3"),
        _ => panic!("wrong response kind"),
    }
    match created_relationship_response(RelationshipId(12)) {
        ClientResponse::CreateRelationship(r) => assert_eq!(r.path, "/relationships/12"),
        _ => panic!("wrong response kind"),
    }
    assert!(expects_response(&ClientRequest::CreateItem(CreateItemRequest { name: "carol".to_string() })));
    assert!(!expects_response(&ClientRequest::CreateItemRelationship(CreateItemRelationshipRequest {
        relationship_id: 1,
        from_id: 1,
        to_id: 2,
    })));
}
