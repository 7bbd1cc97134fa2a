//! Messages of the control channel: the requests a client writes to the
//! channel file and the responses it reads back on the same handle.
use crate::db::{Condition, ItemId, RelationshipId};
use crate::text::{i64_text, int_text};
use vstd::prelude::*;
use vstd::string::*;

verus! {

/// Path of the control-channel file below the root of the mount.
pub const API_HANDLE_PATH: &'static str = "/.api_handle";

#[derive(Clone, Debug)]
pub struct CreateItemRequest {
    pub name: String,
}

#[derive(Clone, Debug)]
pub struct CreateItemResponse {
    pub path: String,
}

#[derive(Clone, Debug)]
pub struct CreateRelationshipRequest {
    pub from_name: String,
    pub to_name: String,
}

#[derive(Clone, Debug)]
pub struct CreateRelationshipResponse {
    pub path: String,
}

#[derive(Clone, Copy, Debug, PartialEq, Eq, Structural)]
pub struct CreateItemRelationshipRequest {
    pub relationship_id: i64,
    pub from_id: i64,
    pub to_id: i64,
}

#[derive(Clone, Debug)]
pub struct CreateFilterRequest {
    pub name: String,
    pub filters: Vec<Condition>,
}

/// A request written to the control channel.
#[derive(Clone, Debug)]
pub enum ClientRequest {
    CreateItem(CreateItemRequest),
    CreateRelationship(CreateRelationshipRequest),
    CreateItemRelationship(CreateItemRelationshipRequest),
    CreateFilter(CreateFilterRequest),
}

/// A response read back from the control channel.
#[derive(Clone, Debug)]
pub enum ClientResponse {
    CreateItem(CreateItemResponse),
    CreateRelationship(CreateRelationshipResponse),
}

/// Path of an item's directory in the mount.
pub open spec fn item_path(id: ItemId) -> Seq<char> {
    "/items/"@ + int_text(id.0 as int)
}

/// Path of a relationship's directory in the mount.
pub open spec fn relationship_path(id: RelationshipId) -> Seq<char> {
    "/relationships/"@ + int_text(id.0 as int)
}

/// Whether a request gets a response: creating an item or a relationship
/// does, creating an item-relationship or a filter does not.
pub open spec fn has_response(req: ClientRequest) -> bool {
    req is CreateItem || req is CreateRelationship
}

/// Whether the client should read a response after writing this request.
pub fn expects_response(req: &ClientRequest) -> (r: bool)
    ensures
        r == has_response(*req),
{
    match req {
        ClientRequest::CreateItem(_) | ClientRequest::CreateRelationship(_) => true,
        ClientRequest::CreateItemRelationship(_) | ClientRequest::CreateFilter(_) => false,
    }
}

/// The response to creating an item: the path of its directory.
pub fn created_item_response(id: ItemId) -> (r: ClientResponse)
    ensures
        r matches ClientResponse::CreateItem(resp) && resp.path@ == item_path(id),
{
    let path = String::from_str("/items/");
    let digits = i64_text(id.0);
    ClientResponse::CreateItem(CreateItemResponse { path: path.concat(digits.as_str()) })
}

/// The response to creating a relationship: the path of its directory.
pub fn created_relationship_response(id: RelationshipId) -> (r: ClientResponse)
    ensures
        r matches ClientResponse::CreateRelationship(resp) && resp.path@ == relationship_path(id),
{
    let path = String::from_str("/relationships/");
    let digits = i64_text(id.0);
    ClientResponse::CreateRelationship(CreateRelationshipResponse { path: path.concat(digits.as_str()) })
}

} // verus!
