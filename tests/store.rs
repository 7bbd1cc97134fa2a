use rusqlite::Connection;
use todo_fs::client::{
    list_dir_contents, parse_path, FuseClient, GetFiletypeError, PathPurpose, PathPurposeToFiletypeError, ReadDirError,
    RootFilter, Snapshot,
};
use todo_fs::db::{filter_query, Condition, ConditionSet, ConditionSetId, DbItem, ItemId, Relationship, RelationshipId, RelationshipSide};
use todo_fs::schema::{self, upgrade_plan, LATEST_VERSION};
use todo_fs::store::{
    check_new_relationship, condition_set_from_rows, ConditionKind, get_item_by_id, get_item_filters, get_relationship,
    get_root_filters, get_sibling_id, group_items, load_conditions, AddRelationshipError,
    GetConditionalFiltersError, GetFiltersError, ItemRow, LinkRow,
};

struct Fixture {
    conn: Connection,
}

fn version(conn: &Connection) -> usize {
    conn.query_row(schema::SELECT_VERSION, [], |r| r.get::<_, i64>(0)).unwrap() as usize
}

fn create_fixture() -> Fixture {
    let conn = Connection::open_in_memory().expect("failed to create db");
    conn.execute("PRAGMA foreign_keys = ON", []).unwrap();
    for m in upgrade_plan(version(&conn)) {
        conn.execute_batch(&m.sql()).unwrap();
    }
    assert_eq!(version(&conn), LATEST_VERSION);
    Fixture { conn }
}

impl Fixture {
    fn create_item(&self, name: &str) -> ItemId {
        self.conn.execute(schema::INSERT_ITEM, [name]).expect("failed to create item");
        ItemId(self.conn.last_insert_rowid())
    }

    fn relationships(&self) -> Vec<Relationship> {
        let mut st = self.conn.prepare(schema::SELECT_RELATIONSHIPS).unwrap();
        let rows = st
            .query_map([], |r| Ok(Relationship { id: RelationshipId(r.get(0)?), from_name: r.get(1)?, to_name: r.get(2)? }))
            .unwrap();
        rows.map(|r| r.unwrap()).collect()
    }

    fn add_relationship(&self, from: &str, to: &str) -> Result<RelationshipId, AddRelationshipError> {
        check_new_relationship(&self.relationships(), from, to)?;
        self.conn.execute(schema::INSERT_RELATIONSHIP, [from, to]).unwrap();
        Ok(RelationshipId(self.conn.last_insert_rowid()))
    }

    fn add_item_relationship(&self, from: ItemId, to: ItemId, rel: RelationshipId) -> rusqlite::Result<usize> {
        self.conn.execute(schema::INSERT_ITEM_RELATIONSHIP, [from.0, to.0, rel.0])
    }

    fn items(&self) -> Vec<DbItem> {
        let mut st = self.conn.prepare(schema::SELECT_ITEMS).unwrap();
        let rows: Vec<ItemRow> = st
            .query_map([], |r| Ok(ItemRow { id: ItemId(r.get(0)?), name: r.get(1)? }))
            .unwrap()
            .map(|r| r.unwrap())
            .collect();
        let mut st = self.conn.prepare(schema::SELECT_ITEM_RELATIONSHIPS).unwrap();
        let links: Vec<LinkRow> = st
            .query_map([], |r| {
                Ok(LinkRow { from_id: ItemId(r.get(0)?), to_id: ItemId(r.get(1)?), relationship_id: RelationshipId(r.get(2)?) })
            })
            .unwrap()
            .map(|r| r.unwrap())
            .collect();
        group_items(&rows, &links, "/store/items")
    }

    fn delete_item(&self, id: ItemId) {
        self.conn.execute(schema::DELETE_ITEM_RELATIONSHIPS, [id.0]).unwrap();
        self.conn.execute(schema::DELETE_ITEM, [id.0]).unwrap();
    }

    fn add_root_filter(&self, name: &str, conditions: &[Condition]) {
        self.conn.execute(schema::INSERT_CONDITION_SET, [name]).unwrap();
        let set = self.conn.last_insert_rowid();
        for c in conditions {
            match c {
                Condition::NoRelationship(s, r) => {
                    self.conn.execute(schema::INSERT_NO_RELATIONSHIP_CONDITION, [set, s.as_i64(), r.0]).unwrap();
                }
                Condition::HasRelationshipWithVariableItem(s, r) => {
                    self.conn.execute(schema::INSERT_VARIABLE_ITEM_CONDITION, [set, s.as_i64(), r.0]).unwrap();
                }
                Condition::NoRelationshipWithSpecificItem(i, s, r) => {
                    self.conn.execute(schema::INSERT_SPECIFIC_ITEM_CONDITION, [set, i.0, s.as_i64(), r.0]).unwrap();
                }
            }
        }
        self.conn.execute(schema::INSERT_ROOT_FILTER, [set]).unwrap();
    }

    fn condition_rows(&self, sql: &str, set: i64) -> Vec<(i64, i64, i64)> {
        let mut st = self.conn.prepare(sql).unwrap();
        let rows = st.query_map([set], |r| Ok((r.get(0)?, r.get(1)?, r.get(2)?))).unwrap();
        rows.map(|r| r.unwrap()).collect()
    }

    fn condition_sets(&self) -> Vec<ConditionSet> {
        let mut st = self.conn.prepare(schema::SELECT_CONDITION_SETS).unwrap();
        let heads: Vec<(i64, String)> = st.query_map([], |r| Ok((r.get(0)?, r.get(1)?))).unwrap().map(|r| r.unwrap()).collect();
        heads
            .into_iter()
            .map(|(id, name)| {
                condition_set_from_rows(
                    ConditionSetId(id),
                    name,
                    &self.condition_rows(schema::SELECT_NO_RELATIONSHIP_CONDITIONS, id),
                    &self.condition_rows(schema::SELECT_VARIABLE_ITEM_CONDITIONS, id),
                    &self.condition_rows(schema::SELECT_SPECIFIC_ITEM_CONDITIONS, id),
                )
                .unwrap()
            })
            .collect()
    }

    fn root_filters(&self) -> Vec<ConditionSet> {
        let mut st = self.conn.prepare(schema::SELECT_ROOT_FILTERS).unwrap();
        let ids: Vec<ConditionSetId> = st.query_map([], |r| Ok(ConditionSetId(r.get(0)?))).unwrap().map(|r| r.unwrap()).collect();
        get_root_filters(self.condition_sets(), &ids)
    }

    fn run_filter(&self, conditions: &Vec<Condition>, context: Option<ItemId>) -> Vec<ItemId> {
        let q = filter_query(conditions, context);
        let mut st = self.conn.prepare(&q).unwrap();
        let rows = st.query_map([], |r| Ok(ItemId(r.get(0)?))).unwrap();
        rows.map(|r| r.unwrap()).collect()
    }

    fn snapshot(&self) -> Snapshot {
        let root_filters = self
            .root_filters()
            .into_iter()
            .map(|f| RootFilter { id: f.id, matched: self.run_filter(&f.rules, None), name: f.name })
            .collect();
        Snapshot { items: self.items(), relationships: self.relationships(), root_filters, tool_dir: "/opt/tools".to_string() }
    }
}

fn comps(path: &str) -> Vec<String> {
    path.split('/').filter(|c| !c.is_empty()).map(|c| c.to_string()).collect()
}

fn names(entries: &[(PathPurpose, String)]) -> Vec<String> {
    entries.iter().map(|e| e.1.clone()).collect()
}

#[test]
fn open_empty_db() {
    let f = create_fixture();
    assert!(upgrade_plan(version(&f.conn)).is_empty());
    assert!(f.items().is_empty());
}

#[test]
fn create_new_item() {
    let f = create_fixture();
    let id = f.create_item("test");
    let item = get_item_by_id(f.items(), id).expect("item should be in db");
    assert_eq!(item.id, id);
    assert_eq!(item.name, "test");
    assert_eq!(item.path, format!("/store/items/{}", id.0));
    assert!(item.relationships.is_empty());
}

#[test]
fn add_relationship_already_exists() {
    let f = create_fixture();
    f.add_relationship("parents", "children").expect("failed to create relationship");
    for (from, to) in [("parents", "new_key"), ("new_key", "parents"), ("children", "new_key"), ("new_key", "children")] {
        let Err(AddRelationshipError::AlreadyExists(_)) = f.add_relationship(from, to) else {
            panic!("expected already exists");
        };
    }
    f.add_relationship("new_key", "new_key_2").expect("failed to create releationship with new key");
}

#[test]
fn duplicate_relationship_rejection() {
    let f = create_fixture();
    let first = f.add_relationship("parents", "children").unwrap();
    assert_eq!(f.add_relationship("parents", "cousins"), Err(AddRelationshipError::AlreadyExists(first)));
    assert_eq!(f.add_relationship("uncles", "children"), Err(AddRelationshipError::AlreadyExists(first)));
    assert!(f.add_relationship("siblings", "cousins").is_ok());
}

#[test]
fn get_relationship_by_id() {
    let f = create_fixture();
    let id = f.add_relationship("parents", "children").unwrap();
    let id2 = f.add_relationship("parents2", "children2").unwrap();
    let rels = f.relationships();
    let r = get_relationship(&rels, id2).expect("relationship does not exist");
    assert_eq!(r.from_name, "parents2");
    assert_eq!(r.to_name, "children2");
    assert!(get_relationship(&rels, id).is_some());
    assert!(get_relationship(&rels, RelationshipId(99)).is_none());
}

#[test]
fn add_item_relationship_already_exists() {
    let f = create_fixture();
    let rel = f.add_relationship("parents", "children").unwrap();
    let a = f.create_item("test");
    let b = f.create_item("test2");
    f.add_item_relationship(a, b, rel).unwrap();
    assert!(f.add_item_relationship(a, b, rel).is_err(), "expected insertion error");
    assert!(f.add_item_relationship(ItemId(99), b, rel).is_err(), "expected insertion error");
    assert!(f.add_item_relationship(a, ItemId(99), rel).is_err(), "expected insertion error");
    assert!(f.add_item_relationship(a, b, RelationshipId(99)).is_err(), "expected insertion error");
}

#[test]
fn item_relationships_grouped_on_both_items() {
    let f = create_fixture();
    let rel = f.add_relationship("parents", "children").unwrap();
    let a = f.create_item("test");
    let b = f.create_item("test2");
    f.add_item_relationship(a, b, rel).unwrap();
    let items = f.items();
    assert_eq!(items[0].relationships.len(), 1);
    assert_eq!(items[0].relationships[0].sibling, b);
    assert_eq!(items[0].relationships[0].side, RelationshipSide::Source);
    assert_eq!(items[1].relationships[0].sibling, a);
    assert_eq!(items[1].relationships[0].side, RelationshipSide::Dest);
}

#[test]
fn lookup_siblings() {
    let f = create_fixture();
    let rel = f.add_relationship("parents", "children").unwrap();
    let a = f.create_item("test");
    let b = f.create_item("test2");
    f.add_item_relationship(a, b, rel).unwrap();
    let items = f.items();
    assert_eq!(get_sibling_id(&items, a, RelationshipSide::Source, rel, "test2"), Some(b));
    assert_eq!(get_sibling_id(&items, b, RelationshipSide::Dest, rel, "test"), Some(a));
    assert_eq!(get_sibling_id(&items, a, RelationshipSide::Source, rel, "invalid"), None);
    assert_eq!(get_sibling_id(&items, a, RelationshipSide::Source, RelationshipId(99), "test2"), None);
    assert_eq!(get_sibling_id(&items, ItemId(99), RelationshipSide::Source, rel, "test2"), None);
    assert_eq!(get_sibling_id(&items, a, RelationshipSide::Dest, rel, "test2"), None);
    assert_eq!(get_sibling_id(&items, b, RelationshipSide::Source, rel, "test"), None);
    assert_eq!(get_sibling_id(&items, b, RelationshipSide::Dest, rel, "invalid"), None);
    assert_eq!(get_sibling_id(&items, b, RelationshipSide::Dest, RelationshipId(99), "test"), None);
    assert_eq!(get_sibling_id(&items, ItemId(99), RelationshipSide::Dest, rel, "test"), None);
}

#[test]
fn get_item_by_id_missing_id() {
    let f = create_fixture();
    f.add_relationship("parents", "children").expect("failed to create relationship");
    f.create_item("test");
    assert!(get_item_by_id(f.items(), ItemId(99)).is_none());
}

#[test]
fn add_filter_to_db() {
    let f = create_fixture();
    let rel = f.add_relationship("parents", "children").unwrap();
    f.add_root_filter("my_filter", &[Condition::NoRelationship(RelationshipSide::Dest, rel)]);
    let filters = f.root_filters();
    assert_eq!(filters.len(), 1);
    assert_eq!(filters[0].name, "my_filter");
    assert_eq!(filters[0].rules, vec![Condition::NoRelationship(RelationshipSide::Dest, rel)]);
}

#[test]
fn stored_conditions_with_bad_side() {
    let rows = vec![(0, 0, 1), (0, 5, 1)];
    let kind = ConditionKind::NoRelationship;
    assert_eq!(
        load_conditions(&rows, kind),
        Err(GetFiltersError::InvalidRelationshipSide(todo_fs::db::ParseRelationshipSideError))
    );
    let ok = load_conditions(&vec![(7, 1, 3)], ConditionKind::NoRelationshipWithSpecificItem);
    assert_eq!(ok, Ok(vec![Condition::NoRelationshipWithSpecificItem(ItemId(7), RelationshipSide::Dest, RelationshipId(3))]));
}

#[test]
fn item_filters_from_rows() {
    let sets = vec![
        ConditionSet { id: ConditionSetId(1), name: "when".to_string(), rules: vec![] },
        ConditionSet { id: ConditionSetId(2), name: "show".to_string(), rules: vec![] },
    ];
    let filters = get_item_filters(&vec![(ConditionSetId(1), ConditionSetId(2))], &sets).unwrap();
    assert_eq!(filters[0].name(), "when");
    assert_eq!(filters[0].filter_to_run(), ConditionSetId(2));
    assert_eq!(
        get_item_filters(&vec![(ConditionSetId(5), ConditionSetId(2))], &sets).err(),
        Some(GetConditionalFiltersError::MatchId)
    );
}

#[test]
fn run_filter_empty_and_no_relationship() {
    let f = create_fixture();
    let rel = f.add_relationship("parents", "children").unwrap();
    let a = f.create_item("alice");
    let b = f.create_item("bob");
    let c = f.create_item("carol");
    f.add_item_relationship(a, b, rel).unwrap();
    assert_eq!(f.run_filter(&vec![], None), vec![a, b, c]);
    assert_eq!(f.run_filter(&vec![Condition::NoRelationship(RelationshipSide::Dest, rel)], None), vec![a, c]);
    assert_eq!(f.run_filter(&vec![Condition::NoRelationship(RelationshipSide::Source, rel)], None), vec![b, c]);
    assert_eq!(f.run_filter(&vec![Condition::HasRelationshipWithVariableItem(RelationshipSide::Dest, rel)], Some(a)), vec![b]);
    assert_eq!(
        f.run_filter(&vec![Condition::NoRelationshipWithSpecificItem(a, RelationshipSide::Dest, rel)], None),
        vec![a, c]
    );
}

fn scenario_one() -> (Fixture, RelationshipId) {
    let f = create_fixture();
    let alice = f.create_item("alice");
    let bob = f.create_item("bob");
    assert_eq!((alice, bob), (ItemId(1), ItemId(2)));
    let rel = f.add_relationship("parents", "children").unwrap();
    f.add_item_relationship(alice, bob, rel).unwrap();
    (f, rel)
}

#[test]
fn create_and_browse() {
    let (f, _) = scenario_one();
    let snap = f.snapshot();
    let none = Vec::new();
    let item_dir = FuseClient::new().readdir(&snap, &comps("/items/1"), &none).unwrap();
    assert_eq!(names(&item_dir), vec!["children", "content", "id", "name"]);
    let children = FuseClient::new().readdir(&snap, &comps("/items/1/children"), &none).unwrap();
    assert_eq!(names(&children), vec!["bob"]);
    assert_eq!(FuseClient::new().readlink(&snap, &comps("/items/1/children/bob")).unwrap(), "../../../items/2");
    let parents = FuseClient::new().readdir(&snap, &comps("/items/2/parents"), &none).unwrap();
    assert_eq!(names(&parents), vec!["alice"]);
    assert_eq!(FuseClient::new().readlink(&snap, &comps("/items/2/parents/alice")).unwrap(), "../../../items/1");
}

#[test]
fn root_filter_orphans() {
    let (f, rel) = scenario_one();
    f.add_root_filter("orphans", &[Condition::NoRelationship(RelationshipSide::Dest, rel)]);
    let snap = f.snapshot();
    let none = Vec::new();
    let root = FuseClient::new().readdir(&snap, &vec![], &none).unwrap();
    assert_eq!(names(&root), vec!["items", "relationships", "bin", ".api_handle", "orphans"]);
    let orphans = FuseClient::new().readdir(&snap, &comps("/orphans"), &none).unwrap();
    assert_eq!(names(&orphans), vec!["alice"]);
    assert_eq!(FuseClient::new().readlink(&snap, &comps("/orphans/alice")).unwrap(), "../items/1");
    assert_eq!(FuseClient::new().readlink(&snap, &comps("/items/1/children/bob")).unwrap(), "../../../items/2");
}

#[test]
fn delete_item() {
    let (f, _) = scenario_one();
    let (parent, child) = (ItemId(1), ItemId(2));
    assert_eq!(get_item_by_id(f.items(), parent).expect("failed to get parent").relationships.len(), 1);
    f.delete_item(child);
    assert!(get_item_by_id(f.items(), child).is_none());
    assert_eq!(get_item_by_id(f.items(), parent).expect("failed to get parent").relationships.len(), 0);
    let snap = f.snapshot();
    let none = Vec::new();
    let parent_dir = FuseClient::new().readdir(&snap, &comps("/items/1"), &none).unwrap();
    assert_eq!(names(&parent_dir), vec!["content", "id", "name"]);
    assert!(matches!(parse_path(&snap, &comps("/items/1/children")), Ok(PathPurpose::Unknown)));
    assert!(matches!(parse_path(&snap, &comps("/items/2")), Ok(PathPurpose::Unknown)));
    assert_eq!(
        FuseClient::new().get_filetype(&snap, &comps("/items/2")),
        Err(GetFiletypeError::GetFileType(PathPurposeToFiletypeError::NotFound))
    );
    assert_eq!(FuseClient::new().readdir(&snap, &comps("/items/2"), &none).err(), Some(ReadDirError::NotFound));
    let items = list_dir_contents(&snap, &PathPurpose::Items, &none).unwrap();
    assert_eq!(names(&items), vec!["1"]);
}

#[test]
fn response_paths_resolve_to_new_entities() {
    let (f, _) = scenario_one();
    let carol = f.create_item("carol");
    let rel = f.add_relationship("mentors", "mentees").unwrap();
    let snap = f.snapshot();
    let todo_fs::api::ClientResponse::CreateItem(item) = todo_fs::api::created_item_response(carol) else {
        panic!("wrong response");
    };
    assert_eq!(item.path, "/items/3");
    assert!(matches!(parse_path(&snap, &comps(&item.path)), Ok(PathPurpose::Item(ItemId(3)))));
    let todo_fs::api::ClientResponse::CreateRelationship(r) = todo_fs::api::created_relationship_response(rel) else {
        panic!("wrong response");
    };
    assert!(matches!(parse_path(&snap, &comps(&r.path)), Ok(PathPurpose::Relationship(x)) if x == rel));
}
