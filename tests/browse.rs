use todo_fs::api::{created_item_response, ClientResponse};
use todo_fs::client::{
    dir_entry, parse_path, path_purpose_to_filetype, DirEntry, Filetype, FuseClient, GetFiletypeError, OpenError, OpenRet, ParsePathError, PathPurpose, PathPurposeToFiletypeError, ReadDirError, ReadError, ReadLinkError,
    Snapshot, WriteError, get_item_id_file_contents, get_item_name_file_contents,
    get_relationship_from_name_file_contents,
};
use todo_fs::db::{ItemId, Relationship, RelationshipId};
use todo_fs::store::{group_items, ItemRow, LinkRow};

fn comps(path: &str) -> Vec<String> {
    path.split('/').filter(|c| !c.is_empty()).map(|c| c.to_string()).collect()
}

fn snapshot() -> Snapshot {
    let rows = vec![
        ItemRow { id: ItemId(1), name: "alice".to_string() },
        ItemRow { id: ItemId(2), name: "bob".to_string() },
    ];
    let links = vec![LinkRow { from_id: ItemId(1), to_id: ItemId(2), relationship_id: RelationshipId(1) }];
    Snapshot {
        items: group_items(&rows, &links, "/data/items"),
        relationships: vec![Relationship { id: RelationshipId(1), from_name: "parents".to_string(), to_name: "children".to_string() }],
        root_filters: vec![],
        tool_dir: "/opt/tools".to_string(),
    }
}

#[test]
fn control_channel_round_trip() {
    let snap = snapshot();
    let mut client = FuseClient::new();
    let Ok(OpenRet::Socket(handle)) = client.open(&snap, &comps("/.api_handle")) else {
        panic!("expected a socket handle");
    };
    assert_eq!(handle, 0);
    assert_eq!(client.next_handle_id(), 1);
    let ClientResponse::CreateItem(resp) = created_item_response(ItemId(3)) else {
        panic!("wrong response");
    };
    let mut data = serde_json::Map::new();
    data.insert("path".to_string(), serde_json::Value::String(resp.path.clone()));
    let mut msg = serde_json::Map::new();
    msg.insert("type".to_string(), serde_json::Value::String("create_item".to_string()));
    msg.insert("data".to_string(), serde_json::Value::Object(data));
    let bytes = serde_json::to_vec(&serde_json::Value::Object(msg)).unwrap();
    client.write_response(handle, bytes.clone()).unwrap();
    let first = client.read(&snap, &comps("/.api_handle"), handle, 10).unwrap();
    let rest = client.read(&snap, &comps("/.api_handle"), handle, 4096).unwrap();
    assert_eq!(first.len(), 10);
    let mut all = first;
    all.extend(rest);
    assert_eq!(all, bytes);
    let back: serde_json::Value = serde_json::from_slice(&all).unwrap();
    assert_eq!(back["data"]["path"], "/items/3");
    assert!(client.read(&snap, &comps("/.api_handle"), handle, 10).unwrap().is_empty());
    client.release(handle);
    assert_eq!(client.write_response(handle, vec![1]), Err(WriteError::FindResponseHandle));
    assert_eq!(client.read(&snap, &comps("/.api_handle"), handle, 1), Err(ReadError::FindResponseHandle));
    assert_eq!(client.read(&snap, &comps("/.api_handle"), handle, 1), Err(ReadError::FindResponseHandle));
}

#[test]
fn open_kinds() {
    let snap = snapshot();
    let mut client = FuseClient::new();
    assert_eq!(client.open(&snap, &comps("/items/1/name")), Ok(OpenRet::Noop));
    assert_eq!(client.open(&snap, &comps("/items/1")), Ok(OpenRet::Unhandled));
    assert_eq!(client.open(&snap, &comps("/.api_handle")), Ok(OpenRet::Socket(0)));
    assert_eq!(client.open(&snap, &comps("/.api_handle")), Ok(OpenRet::Socket(1)));
    assert_eq!(
        client.open(&snap, &comps("/items/1/name/x")),
        Err(OpenError::ParsePath(ParsePathError::ReadDir(ReadDirError::NotADirectory)))
    );
    assert_eq!(client.open(&snap, &comps("/missing")), Err(OpenError::NotFound));
}

#[test]
fn metadata_files() {
    let snap = snapshot();
    let mut client = FuseClient::new();
    assert_eq!(client.read(&snap, &comps("/items/2/name"), 0, 64).unwrap(), b"bob\n".to_vec());
    assert_eq!(client.read(&snap, &comps("/items/2/id"), 0, 64).unwrap(), b"2\n".to_vec());
    assert_eq!(client.read(&snap, &comps("/relationships/1/to_name"), 0, 64).unwrap(), b"children\n".to_vec());
    assert_eq!(client.read(&snap, &comps("/relationships/1/from_name"), 0, 64).unwrap(), b"parents\n".to_vec());
    assert_eq!(client.read(&snap, &comps("/items"), 0, 64), Err(ReadError::UnhandledPath));
    assert_eq!(client.read(&snap, &comps("/items/9/name"), 0, 64), Err(ReadError::ParsePath(ParsePathError::ReadDir(ReadDirError::NotFound))));
    assert_eq!(client.read(&snap, &comps("/items/9"), 0, 64), Err(ReadError::NotFound));
    assert_eq!(get_item_id_file_contents(&ItemId(-4)), b"-4\n".to_vec());
    assert!(get_item_name_file_contents(&ItemId(9), &snap).is_empty());
    assert!(get_relationship_from_name_file_contents(&RelationshipId(9), &snap).is_empty());
}

#[test]
fn filetypes() {
    let snap = snapshot();
    assert_eq!(FuseClient::new().get_filetype(&snap, &comps("/items/1")), Ok(Some(Filetype::Dir)));
    assert_eq!(FuseClient::new().get_filetype(&snap, &comps("/items/1/name")), Ok(Some(Filetype::File(6))));
    assert_eq!(FuseClient::new().get_filetype(&snap, &comps("/relationships/1/id")), Ok(Some(Filetype::File(2))));
    assert_eq!(FuseClient::new().get_filetype(&snap, &comps("/items/1/children/bob")), Ok(Some(Filetype::Link)));
    assert_eq!(FuseClient::new().get_filetype(&snap, &comps("/.api_handle")), Ok(Some(Filetype::File(0))));
    assert_eq!(FuseClient::new().get_filetype(&snap, &comps("/items/1/content/notes.txt")), Ok(None));
    assert_eq!(
        FuseClient::new().get_filetype(&snap, &comps("/nothing")),
        Err(GetFiletypeError::GetFileType(PathPurposeToFiletypeError::NotFound))
    );
    assert_eq!(
        FuseClient::new().get_filetype(&snap, &comps("/nothing/below")),
        Err(GetFiletypeError::ParsePath(ParsePathError::ReadDir(ReadDirError::NotFound)))
    );
    assert_eq!(path_purpose_to_filetype(&PathPurpose::ItemLink(ItemId(2)), &snap), Ok(Some(Filetype::Link)));
    assert_eq!(path_purpose_to_filetype(&PathPurpose::Unknown, &snap), Err(PathPurposeToFiletypeError::NotFound));
    assert!(matches!(dir_entry(Filetype::Link, "bob".to_string()), DirEntry::Link(n) if n == "bob"));
}

#[test]
fn passthrough_paths() {
    let snap = snapshot();
    assert_eq!(FuseClient::new().get_passthrough_path(&snap, &comps("/items/1/content")), Ok(Some("/data/items/1".to_string())));
    assert_eq!(
        FuseClient::new().get_passthrough_path(&snap, &comps("/items/1/content/new/file.txt")),
        Ok(Some("/data/items/1/new/file.txt".to_string()))
    );
    assert_eq!(FuseClient::new().get_passthrough_path(&snap, &comps("/bin/create-item")), Ok(Some("/opt/tools/create-item".to_string())));
    assert_eq!(FuseClient::new().get_passthrough_path(&snap, &comps("/items/1/name")), Ok(None));
    let host = vec!["a.txt".to_string(), "b".to_string()];
    let listed = FuseClient::new().readdir(&snap, &comps("/items/1/content"), &host).unwrap();
    assert_eq!(listed.len(), 2);
    assert!(matches!(&listed[1].0, PathPurpose::PassthroughPath(p) if p == "/data/items/1/b"));
}

#[test]
fn resolution_and_errors() {
    let snap = snapshot();
    assert!(matches!(parse_path(&snap, &vec![]), Ok(PathPurpose::Root)));
    assert!(matches!(parse_path(&snap, &comps("/items/2")), Ok(PathPurpose::Item(ItemId(2)))));
    assert!(matches!(parse_path(&snap, &comps("/items/7")), Ok(PathPurpose::Unknown)));
    assert!(matches!(parse_path(&snap, &comps("/relationships/1")), Ok(PathPurpose::Relationship(RelationshipId(1)))));
    assert_eq!(FuseClient::new().readdir(&snap, &comps("/items/7"), &vec![]).err(), Some(ReadDirError::NotFound));
    assert_eq!(FuseClient::new().readdir(&snap, &comps("/items/1/id"), &vec![]).err(), Some(ReadDirError::NotADirectory));
    assert_eq!(FuseClient::new().readlink(&snap, &comps("/items/1")), Err(ReadLinkError::NotALink));
    assert_eq!(FuseClient::new().readlink(&snap, &comps("/items/1/children/carol")), Err(ReadLinkError::NotFound));
    let names: Vec<String> = FuseClient::new().readdir(&snap, &comps("/bin"), &vec![]).unwrap().into_iter().map(|e| e.1).collect();
    assert_eq!(names, vec!["create-item", "create-item-relationship", "create-relationship", "create-filter"]);
    let rel_dir: Vec<String> = FuseClient::new().readdir(&snap, &comps("/relationships/1"), &vec![]).unwrap().into_iter().map(|e| e.1).collect();
    assert_eq!(rel_dir, vec!["id", "from_name", "to_name"]);
}

#[test]
fn missing_relationship_is_an_error() {
    let mut snap = snapshot();
    snap.relationships.clear();
    assert!(matches!(
        FuseClient::new().readdir(&snap, &comps("/items/1"), &vec![]),
        Err(ReadDirError::CategorizeRelationships(_))
    ));
}
