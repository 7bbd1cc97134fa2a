//! The path-resolution engine: every path of the mount is classified into a
//! `PathPurpose`, found by listing its parent directory and matching the last
//! name. Listings, file types, metadata-file bodies and link targets are
//! computed over a `Snapshot` of the store, read in one transaction.
use crate::db::{ConditionSetId, DbItem, ItemId, Relationship, RelationshipId, RelationshipSide};
use crate::store::{item_index, relationship_index};
use crate::text::{i64_text, int_text, join_path, join_spec, line_bytes, str_eq, with_newline_as_vec};
use vstd::prelude::*;
use std::collections::HashMap;
use vstd::string::*;

verus! {

/// A root filter with the ids of the items its conditions selected.
#[derive(Clone, Debug)]
pub struct RootFilter {
    pub id: ConditionSetId,
    pub name: String,
    pub matched: Vec<ItemId>,
}

/// What the resolver reads of the store: items grouped with their
/// item-relationships, relationships, root filters with their results, and
/// the host directory of the tool binaries.
#[derive(Clone, Debug)]
pub struct Snapshot {
    pub items: Vec<DbItem>,
    pub relationships: Vec<Relationship>,
    pub root_filters: Vec<RootFilter>,
    pub tool_dir: String,
}

/// The typed classification of a path of the mount.
#[derive(Clone, Debug)]
pub enum PathPurpose {
    /// The root of the mount.
    Root,
    /// Directory of the tool binaries.
    ToolBins,
    /// Listing of all items by id.
    Items,
    /// Listing of all relationships by id.
    Relationships,
    /// The control-channel file.
    Socket,
    /// Directory of an item.
    Item(ItemId),
    /// Metadata file with an item's id.
    ItemId(ItemId),
    /// Metadata file with an item's name.
    ItemName(ItemId),
    /// Directory of a relationship.
    Relationship(RelationshipId),
    RelationshipId(RelationshipId),
    RelationshipFromName(RelationshipId),
    RelationshipToName(RelationshipId),
    /// The items related to an item through one relationship, on one side.
    ItemRelationships(ItemId, RelationshipId, RelationshipSide),
    /// A link to an item, shown under the item's name.
    ItemLink(ItemId),
    /// A path forwarded to the host file system.
    PassthroughPath(String),
    /// Directory of a root filter.
    Filter(ConditionSetId),
    /// A path that names nothing.
    Unknown,
}

/// `PathPurpose` with its host path as characters.
pub enum Purpose {
    Root,
    ToolBins,
    Items,
    Relationships,
    Socket,
    Item(ItemId),
    ItemId(ItemId),
    ItemName(ItemId),
    Relationship(RelationshipId),
    RelationshipId(RelationshipId),
    RelationshipFromName(RelationshipId),
    RelationshipToName(RelationshipId),
    ItemRelationships(ItemId, RelationshipId, RelationshipSide),
    ItemLink(ItemId),
    PassthroughPath(Seq<char>),
    Filter(ConditionSetId),
    Unknown,
}

impl View for PathPurpose {
    type V = Purpose;

    open spec fn view(&self) -> Purpose {
        match self {
            PathPurpose::Root => Purpose::Root,
            PathPurpose::ToolBins => Purpose::ToolBins,
            PathPurpose::Items => Purpose::Items,
            PathPurpose::Relationships => Purpose::Relationships,
            PathPurpose::Socket => Purpose::Socket,
            PathPurpose::Item(i) => Purpose::Item(*i),
            PathPurpose::ItemId(i) => Purpose::ItemId(*i),
            PathPurpose::ItemName(i) => Purpose::ItemName(*i),
            PathPurpose::Relationship(r) => Purpose::Relationship(*r),
            PathPurpose::RelationshipId(r) => Purpose::RelationshipId(*r),
            PathPurpose::RelationshipFromName(r) => Purpose::RelationshipFromName(*r),
            PathPurpose::RelationshipToName(r) => Purpose::RelationshipToName(*r),
            PathPurpose::ItemRelationships(i, r, s) => Purpose::ItemRelationships(*i, *r, *s),
            PathPurpose::ItemLink(i) => Purpose::ItemLink(*i),
            PathPurpose::PassthroughPath(p) => Purpose::PassthroughPath(p@),
            PathPurpose::Filter(f) => Purpose::Filter(*f),
            PathPurpose::Unknown => Purpose::Unknown,
        }
    }
}

/// Why an item's side directories could not be labelled.
#[derive(Clone, Copy, Debug, PartialEq, Eq, Structural)]
pub enum CategorizeRelationshipsError {
    /// An item-relationship names a relationship that does not exist.
    RelationshipNonExistent(i64),
}

/// Why a directory could not be listed.
#[derive(Clone, Copy, Debug, PartialEq, Eq, Structural)]
pub enum ReadDirError {
    ItemIdNotInDatabase,
    CategorizeRelationships(CategorizeRelationshipsError),
    FindFilter,
    /// The path names a file or a link, not a directory.
    NotADirectory,
    /// The path names nothing.
    NotFound,
}

/// Why a path could not be classified.
#[derive(Clone, Copy, Debug, PartialEq, Eq, Structural)]
pub enum ParsePathError {
    /// Listing an ancestor directory failed.
    ReadDir(ReadDirError),
    /// A path component is not valid text.
    ParsePath,
}

/// A listed name with the purpose of the path it names.
pub type Entry = (PathPurpose, String);

/// The view of a listing.
pub open spec fn entries_view(v: Seq<Entry>) -> Seq<(Purpose, Seq<char>)> {
    Seq::new(v.len(), |k: int| (v[k].0@, v[k].1@))
}

/// The view of a list of names.
pub open spec fn names_view(v: Seq<String>) -> Seq<Seq<char>> {
    Seq::new(v.len(), |k: int| v[k]@)
}

/// Index of the first item with the given id.
pub open spec fn first_item(items: Seq<DbItem>, id: ItemId) -> Option<int> {
    if exists|k: int| 0 <= k < items.len() && items[k].id == id {
        Some(
            choose|k: int|
                0 <= k < items.len() && items[k].id == id && forall|j: int| 0 <= j < k ==> items[j].id != id,
        )
    } else {
        None
    }
}

/// Index of the first relationship with the given id.
pub open spec fn first_relationship(rels: Seq<Relationship>, id: RelationshipId) -> Option<int> {
    if exists|k: int| 0 <= k < rels.len() && rels[k].id == id {
        Some(
            choose|k: int|
                0 <= k < rels.len() && rels[k].id == id && forall|j: int| 0 <= j < k ==> rels[j].id != id,
        )
    } else {
        None
    }
}

/// Index of the first root filter with the given id.
pub open spec fn first_filter(filters: Seq<RootFilter>, id: ConditionSetId) -> Option<int> {
    if exists|k: int| 0 <= k < filters.len() && filters[k].id == id {
        Some(
            choose|k: int|
                0 <= k < filters.len() && filters[k].id == id && forall|j: int|
                    0 <= j < k ==> filters[j].id != id,
        )
    } else {
        None
    }
}

pub(crate) proof fn lemma_first_item(items: Seq<DbItem>, id: ItemId, k: int)
    requires
        0 <= k < items.len(),
        items[k].id == id,
        forall|j: int| 0 <= j < k ==> items[j].id != id,
    ensures
        first_item(items, id) == Some(k),
{
    let c = first_item(items, id)->Some_0;
    assert(!(c < k) && !(k < c));
}

pub(crate) proof fn lemma_first_relationship(rels: Seq<Relationship>, id: RelationshipId, k: int)
    requires
        0 <= k < rels.len(),
        rels[k].id == id,
        forall|j: int| 0 <= j < k ==> rels[j].id != id,
    ensures
        first_relationship(rels, id) == Some(k),
{
    let c = first_relationship(rels, id)->Some_0;
    assert(!(c < k) && !(k < c));
}

proof fn lemma_first_filter(filters: Seq<RootFilter>, id: ConditionSetId, k: int)
    requires
        0 <= k < filters.len(),
        filters[k].id == id,
        forall|j: int| 0 <= j < k ==> filters[j].id != id,
    ensures
        first_filter(filters, id) == Some(k),
{
    let c = first_filter(filters, id)->Some_0;
    assert(!(c < k) && !(k < c));
}

/// The entries of the root directory.
pub open spec fn root_entries(snap: Snapshot) -> Seq<(Purpose, Seq<char>)> {
    seq![
        (Purpose::Items, "items"@),
        (Purpose::Relationships, "relationships"@),
        (Purpose::ToolBins, "bin"@),
        (Purpose::Socket, ".api_handle"@),
    ] + Seq::new(
        snap.root_filters@.len(),
        |k: int| (Purpose::Filter(snap.root_filters@[k].id), snap.root_filters@[k].name@),
    )
}

/// One directory per item, named by its id.
pub open spec fn items_entries(items: Seq<DbItem>) -> Seq<(Purpose, Seq<char>)> {
    Seq::new(items.len(), |k: int| (Purpose::Item(items[k].id), int_text(items[k].id.0 as int)))
}

/// One directory per relationship, named by its id.
pub open spec fn relationships_entries(rels: Seq<Relationship>) -> Seq<(Purpose, Seq<char>)> {
    Seq::new(rels.len(), |k: int| (Purpose::Relationship(rels[k].id), int_text(rels[k].id.0 as int)))
}

/// The three metadata files of a relationship directory.
pub open spec fn relationship_entries(id: RelationshipId) -> Seq<(Purpose, Seq<char>)> {
    seq![
        (Purpose::RelationshipId(id), "id"@),
        (Purpose::RelationshipFromName(id), "from_name"@),
        (Purpose::RelationshipToName(id), "to_name"@),
    ]
}

/// The distinct `(relationship, side)` pairs of an item's relationships, in
/// order of first appearance.
pub open spec fn distinct_sides(rels: Seq<crate::db::ItemRelationship>) -> Seq<(RelationshipId, RelationshipSide)>
    decreases rels.len(),
{
    if rels.len() == 0 {
        Seq::empty()
    } else {
        let prev = distinct_sides(rels.drop_last());
        let pair = (rels.last().id, rels.last().side);
        if prev.contains(pair) {
            prev
        } else {
            prev.push(pair)
        }
    }
}

/// The label of a side directory: it names the other side.
pub open spec fn label_of(rel: Relationship, side: RelationshipSide) -> Seq<char> {
    match side {
        RelationshipSide::Dest => rel.from_name@,
        RelationshipSide::Source => rel.to_name@,
    }
}

/// The side directories of item `id` for the given pairs.
#[verifier::opaque]
pub open spec fn label_entries(
    rels: Seq<Relationship>,
    id: ItemId,
    pairs: Seq<(RelationshipId, RelationshipSide)>,
) -> Result<Seq<(Purpose, Seq<char>)>, ReadDirError>
    decreases pairs.len(),
{
    if pairs.len() == 0 {
        Ok(Seq::empty())
    } else {
        match label_entries(rels, id, pairs.drop_last()) {
            Err(e) => Err(e),
            Ok(prev) => {
                let (r, s) = pairs.last();
                match first_relationship(rels, r) {
                    None => Err(
                        ReadDirError::CategorizeRelationships(
                            CategorizeRelationshipsError::RelationshipNonExistent(r.0),
                        ),
                    ),
                    Some(k) => Ok(prev.push((Purpose::ItemRelationships(id, r, s), label_of(rels[k], s)))),
                }
            },
        }
    }
}

/// The entries of an item directory: its side directories, then `content`,
/// `id` and `name`.
pub open spec fn item_entries(snap: Snapshot, id: ItemId) -> Result<Seq<(Purpose, Seq<char>)>, ReadDirError> {
    match first_item(snap.items@, id) {
        None => Err(ReadDirError::ItemIdNotInDatabase),
        Some(u) => match label_entries(
            snap.relationships@,
            id,
            distinct_sides(snap.items@[u].relationships@),
        ) {
            Err(e) => Err(e),
            Ok(labels) => Ok(
                labels + seq![
                    (Purpose::PassthroughPath(snap.items@[u].path@), "content"@),
                    (Purpose::ItemId(id), "id"@),
                    (Purpose::ItemName(id), "name"@),
                ],
            ),
        },
    }
}

/// Links to the siblings reached through `r` on side `s`, in order; a
/// sibling missing from the store is left out.
pub open spec fn sibling_entries(
    items: Seq<DbItem>,
    rels: Seq<crate::db::ItemRelationship>,
    r: RelationshipId,
    s: RelationshipSide,
) -> Seq<(Purpose, Seq<char>)>
    decreases rels.len(),
{
    if rels.len() == 0 {
        Seq::empty()
    } else {
        let prev = sibling_entries(items, rels.drop_last(), r, s);
        let e = rels.last();
        if e.id == r && e.side == s {
            match first_item(items, e.sibling) {
                Some(t) => prev.push((Purpose::ItemLink(items[t].id), items[t].name@)),
                None => prev,
            }
        } else {
            prev
        }
    }
}

/// The entries of a side directory of an item.
pub open spec fn item_relationship_entries(
    snap: Snapshot,
    id: ItemId,
    r: RelationshipId,
    s: RelationshipSide,
) -> Result<Seq<(Purpose, Seq<char>)>, ReadDirError> {
    match first_item(snap.items@, id) {
        None => Err(ReadDirError::ItemIdNotInDatabase),
        Some(u) => Ok(sibling_entries(snap.items@, snap.items@[u].relationships@, r, s)),
    }
}

/// Links to the given items, under their names; an id missing from the
/// store is an error.
#[verifier::opaque]
pub open spec fn matched_entries(items: Seq<DbItem>, ids: Seq<ItemId>) -> Result<
    Seq<(Purpose, Seq<char>)>,
    ReadDirError,
>
    decreases ids.len(),
{
    if ids.len() == 0 {
        Ok(Seq::empty())
    } else {
        match matched_entries(items, ids.drop_last()) {
            Err(e) => Err(e),
            Ok(prev) => match first_item(items, ids.last()) {
                None => Err(ReadDirError::ItemIdNotInDatabase),
                Some(t) => Ok(prev.push((Purpose::ItemLink(ids.last()), items[t].name@))),
            },
        }
    }
}

/// The entries of a root filter directory.
pub open spec fn filter_entries(snap: Snapshot, f: ConditionSetId) -> Result<Seq<(Purpose, Seq<char>)>, ReadDirError> {
    match first_filter(snap.root_filters@, f) {
        None => Err(ReadDirError::FindFilter),
        Some(k) => matched_entries(snap.items@, snap.root_filters@[k].matched@),
    }
}

/// The tool binaries, forwarded to the host.
pub open spec fn tool_entries(dir: Seq<char>) -> Seq<(Purpose, Seq<char>)> {
    seq![
        (Purpose::PassthroughPath(join_spec(dir, "create-item"@)), "create-item"@),
        (Purpose::PassthroughPath(join_spec(dir, "create-item-relationship"@)), "create-item-relationship"@),
        (Purpose::PassthroughPath(join_spec(dir, "create-relationship"@)), "create-relationship"@),
        (Purpose::PassthroughPath(join_spec(dir, "create-filter"@)), "create-filter"@),
    ]
}

/// The entries of a host directory `p` whose names the host listed.
pub open spec fn host_entries(p: Seq<char>, names: Seq<Seq<char>>) -> Seq<(Purpose, Seq<char>)> {
    Seq::new(names.len(), |k: int| (Purpose::PassthroughPath(join_spec(p, names[k])), names[k]))
}

/// The children of a directory; `host` is what the host listed, used only
/// for a passthrough directory.
#[verifier::opaque]
pub open spec fn children(snap: Snapshot, p: Purpose, host: Seq<Seq<char>>) -> Result<
    Seq<(Purpose, Seq<char>)>,
    ReadDirError,
> {
    match p {
        Purpose::Root => Ok(root_entries(snap)),
        Purpose::Items => Ok(items_entries(snap.items@)),
        Purpose::Relationships => Ok(relationships_entries(snap.relationships@)),
        Purpose::Relationship(id) => Ok(relationship_entries(id)),
        Purpose::Item(id) => item_entries(snap, id),
        Purpose::ItemRelationships(i, r, s) => item_relationship_entries(snap, i, r, s),
        Purpose::Filter(f) => filter_entries(snap, f),
        Purpose::ToolBins => Ok(tool_entries(snap.tool_dir@)),
        Purpose::PassthroughPath(path) => Ok(host_entries(path, host)),
        Purpose::Unknown => Err(ReadDirError::NotFound),
        _ => Err(ReadDirError::NotADirectory),
    }
}

/// The view of a listing result.
pub open spec fn listing_view(r: Result<Vec<Entry>, ReadDirError>) -> Result<Seq<(Purpose, Seq<char>)>, ReadDirError> {
    match r {
        Ok(v) => Ok(entries_view(v@)),
        Err(e) => Err(e),
    }
}


proof fn lemma_push_entry(v: Seq<Entry>, e: Entry)
    ensures
        entries_view(v.push(e)) == entries_view(v).push((e.0@, e.1@)),
{
    assert(entries_view(v.push(e)) =~= entries_view(v).push((e.0@, e.1@)));
}

pub(crate) proof fn lemma_prefix_step<T>(v: Seq<T>, i: int)
    requires
        0 <= i < v.len(),
    ensures
        v.subrange(0, i + 1).drop_last() == v.subrange(0, i),
        v.subrange(0, i + 1).last() == v[i],
{
    assert(v.subrange(0, i + 1).drop_last() =~= v.subrange(0, i));
}

proof fn lemma_label_error_stays(
    rels: Seq<Relationship>,
    id: ItemId,
    pairs: Seq<(RelationshipId, RelationshipSide)>,
    i: int,
    j: int,
)
    requires
        0 <= i <= j <= pairs.len(),
        label_entries(rels, id, pairs.subrange(0, i)) is Err,
    ensures
        label_entries(rels, id, pairs.subrange(0, j)) == label_entries(rels, id, pairs.subrange(0, i)),
    decreases j - i,
{
    reveal(label_entries);
    if j > i {
        lemma_label_error_stays(rels, id, pairs, i, j - 1);
        lemma_prefix_step(pairs, j - 1);
    }
}

proof fn lemma_matched_error_stays(items: Seq<DbItem>, ids: Seq<ItemId>, i: int, j: int)
    requires
        0 <= i <= j <= ids.len(),
        matched_entries(items, ids.subrange(0, i)) is Err,
    ensures
        matched_entries(items, ids.subrange(0, j)) == matched_entries(items, ids.subrange(0, i)),
    decreases j - i,
{
    reveal(matched_entries);
    if j > i {
        lemma_matched_error_stays(items, ids, i, j - 1);
        lemma_prefix_step(ids, j - 1);
    }
}

proof fn lemma_label_step(
    rels: Seq<Relationship>,
    id: ItemId,
    pairs: Seq<(RelationshipId, RelationshipSide)>,
    i: int,
)
    requires
        0 <= i < pairs.len(),
        label_entries(rels, id, pairs.subrange(0, i)) is Ok,
    ensures
        label_entries(rels, id, pairs.subrange(0, i + 1)) == match first_relationship(rels, pairs[i].0) {
            None => Err(
                ReadDirError::CategorizeRelationships(
                    CategorizeRelationshipsError::RelationshipNonExistent(pairs[i].0.0),
                ),
            ),
            Some(k) => Ok(
                label_entries(rels, id, pairs.subrange(0, i))->Ok_0.push(
                    (Purpose::ItemRelationships(id, pairs[i].0, pairs[i].1), label_of(rels[k], pairs[i].1)),
                ),
            ),
        },
{
    reveal(label_entries);
    lemma_prefix_step(pairs, i);
}

proof fn lemma_matched_step(items: Seq<DbItem>, ids: Seq<ItemId>, i: int)
    requires
        0 <= i < ids.len(),
        matched_entries(items, ids.subrange(0, i)) is Ok,
    ensures
        matched_entries(items, ids.subrange(0, i + 1)) == match first_item(items, ids[i]) {
            None => Err(ReadDirError::ItemIdNotInDatabase),
            Some(t) => Ok(
                matched_entries(items, ids.subrange(0, i))->Ok_0.push((Purpose::ItemLink(ids[i]), items[t].name@)),
            ),
        },
{
    reveal(matched_entries);
    lemma_prefix_step(ids, i);
}

fn first_item_index(items: &Vec<DbItem>, id: ItemId) -> (r: Option<usize>)
    ensures
        r matches Some(k) ==> k < items@.len() && first_item(items@, id) == Some(k as int),
        r is None ==> first_item(items@, id) is None,
{
    let r = item_index(items, id);
    proof {
        if let Some(k) = r {
            lemma_first_item(items@, id, k as int);
        }
    }
    r
}

fn first_relationship_index(rels: &Vec<Relationship>, id: RelationshipId) -> (r: Option<usize>)
    ensures
        r matches Some(k) ==> k < rels@.len() && first_relationship(rels@, id) == Some(k as int),
        r is None ==> first_relationship(rels@, id) is None,
{
    let r = relationship_index(rels, id);
    proof {
        if let Some(k) = r {
            lemma_first_relationship(rels@, id, k as int);
        }
    }
    r
}

fn first_filter_index(filters: &Vec<RootFilter>, id: ConditionSetId) -> (r: Option<usize>)
    ensures
        r matches Some(k) ==> k < filters@.len() && first_filter(filters@, id) == Some(k as int),
        r is None ==> first_filter(filters@, id) is None,
{
    let mut i: usize = 0;
    while i < filters.len()
        invariant
            i <= filters@.len(),
            forall|j: int| 0 <= j < i ==> filters@[j].id != id,
        decreases filters@.len() - i,
    {
        if filters[i].id == id {
            proof {
                lemma_first_filter(filters@, id, i as int);
            }
            return Some(i);
        }
        i = i + 1;
    }
    None
}

fn push_entry(out: &mut Vec<Entry>, purpose: PathPurpose, name: String)
    ensures
        entries_view(final(out)@) == entries_view(old(out)@).push((purpose@, name@)),
{
    let ghost before = out@;
    out.push((purpose, name));
    proof {
        lemma_push_entry(before, (purpose, name));
    }
}

fn root_listing(snap: &Snapshot) -> (r: Vec<Entry>)
    ensures
        entries_view(r@) == root_entries(*snap),
{
    let mut out: Vec<Entry> = Vec::new();
    push_entry(&mut out, PathPurpose::Items, String::from_str("items"));
    push_entry(&mut out, PathPurpose::Relationships, String::from_str("relationships"));
    push_entry(&mut out, PathPurpose::ToolBins, String::from_str("bin"));
    push_entry(&mut out, PathPurpose::Socket, String::from_str(".api_handle"));
    let ghost fixed = entries_view(out@);
    let filters = &snap.root_filters;
    let mut i: usize = 0;
    while i < filters.len()
        invariant
            i <= filters@.len(),
            filters@ == snap.root_filters@,
            entries_view(out@) == fixed + Seq::new(
                i as nat,
                |k: int| (Purpose::Filter(filters@[k].id), filters@[k].name@),
            ),
        decreases filters@.len() - i,
    {
        push_entry(&mut out, PathPurpose::Filter(filters[i].id), filters[i].name.clone());
        i = i + 1;
        assert(entries_view(out@) =~= fixed + Seq::new(
            i as nat,
            |k: int| (Purpose::Filter(filters@[k].id), filters@[k].name@),
        ));
    }
    assert(entries_view(out@) =~= root_entries(*snap));
    out
}

fn items_listing(items: &Vec<DbItem>) -> (r: Vec<Entry>)
    ensures
        entries_view(r@) == items_entries(items@),
{
    let mut out: Vec<Entry> = Vec::new();
    let mut i: usize = 0;
    while i < items.len()
        invariant
            i <= items@.len(),
            entries_view(out@) == items_entries(items@.subrange(0, i as int)),
        decreases items@.len() - i,
    {
        let id = items[i].id;
        push_entry(&mut out, PathPurpose::Item(id), i64_text(id.0));
        i = i + 1;
        assert(entries_view(out@) =~= items_entries(items@.subrange(0, i as int)));
    }
    assert(items@.subrange(0, items@.len() as int) =~= items@);
    out
}

fn relationships_listing(rels: &Vec<Relationship>) -> (r: Vec<Entry>)
    ensures
        entries_view(r@) == relationships_entries(rels@),
{
    let mut out: Vec<Entry> = Vec::new();
    let mut i: usize = 0;
    while i < rels.len()
        invariant
            i <= rels@.len(),
            entries_view(out@) == relationships_entries(rels@.subrange(0, i as int)),
        decreases rels@.len() - i,
    {
        let id = rels[i].id;
        push_entry(&mut out, PathPurpose::Relationship(id), i64_text(id.0));
        i = i + 1;
        assert(entries_view(out@) =~= relationships_entries(rels@.subrange(0, i as int)));
    }
    assert(rels@.subrange(0, rels@.len() as int) =~= rels@);
    out
}

fn relationship_listing(id: RelationshipId) -> (r: Vec<Entry>)
    ensures
        entries_view(r@) == relationship_entries(id),
{
    let mut out: Vec<Entry> = Vec::new();
    push_entry(&mut out, PathPurpose::RelationshipId(id), String::from_str("id"));
    push_entry(&mut out, PathPurpose::RelationshipFromName(id), String::from_str("from_name"));
    push_entry(&mut out, PathPurpose::RelationshipToName(id), String::from_str("to_name"));
    assert(entries_view(out@) =~= relationship_entries(id));
    out
}

fn contains_pair(v: &Vec<(RelationshipId, RelationshipSide)>, pair: (RelationshipId, RelationshipSide)) -> (r:
    bool)
    ensures
        r == v@.contains(pair),
{
    let mut i: usize = 0;
    while i < v.len()
        invariant
            i <= v@.len(),
            forall|k: int| 0 <= k < i ==> v@[k] != pair,
        decreases v@.len() - i,
    {
        if v[i].0 == pair.0 && v[i].1 == pair.1 {
            assert(v@[i as int] == pair);
            return true;
        }
        i = i + 1;
    }
    false
}

/// The distinct `(relationship, side)` pairs of an item's relationships, in
/// order of first appearance.
pub fn distinct_pairs(relationships: &Vec<crate::db::ItemRelationship>) -> (r: Vec<(RelationshipId, RelationshipSide)>)
    ensures
        r@ == distinct_sides(relationships@),
{
    let mut out: Vec<(RelationshipId, RelationshipSide)> = Vec::new();
    let mut i: usize = 0;
    while i < relationships.len()
        invariant
            i <= relationships@.len(),
            out@ == distinct_sides(relationships@.subrange(0, i as int)),
        decreases relationships@.len() - i,
    {
        let pair = (relationships[i].id, relationships[i].side);
        proof {
            lemma_prefix_step(relationships@, i as int);
        }
        if !contains_pair(&out, pair) {
            out.push(pair);
        }
        i = i + 1;
    }
    assert(relationships@.subrange(0, relationships@.len() as int) =~= relationships@);
    out
}

/// The side directories of item `id`: one per distinct `(relationship,
/// side)` pair of its relationships, labelled with the name of the other
/// side; a pair whose relationship does not exist is an error.
pub fn categorize_relationships(
    relationships: &Vec<crate::db::ItemRelationship>,
    all_relationships: &Vec<Relationship>,
    id: ItemId,
) -> (r: Result<Vec<Entry>, ReadDirError>)
    ensures
        listing_view(r) == label_entries(all_relationships@, id, distinct_sides(relationships@)),
{
    let pairs = distinct_pairs(relationships);
    let mut out: Vec<Entry> = Vec::new();
    let mut i: usize = 0;
    assert(entries_view(out@) =~= Seq::empty());
    assert(pairs@.subrange(0, 0) =~= Seq::empty());
    assert(label_entries(all_relationships@, id, pairs@.subrange(0, 0)) == Ok::<
        Seq<(Purpose, Seq<char>)>,
        ReadDirError,
    >(Seq::empty())) by {
        reveal(label_entries);
    }
    while i < pairs.len()
        invariant
            i <= pairs@.len(),
            pairs@ == distinct_sides(relationships@),
            label_entries(all_relationships@, id, pairs@.subrange(0, i as int)) == Ok::<
                Seq<(Purpose, Seq<char>)>,
                ReadDirError,
            >(entries_view(out@)),
        decreases pairs@.len() - i,
    {
        let (rel_id, side) = pairs[i];
        proof {
            lemma_label_step(all_relationships@, id, pairs@, i as int);
        }
        match first_relationship_index(all_relationships, rel_id) {
            None => {
                proof {
                    assert(label_entries(all_relationships@, id, pairs@.subrange(0, i + 1)) == Err::<
                        Seq<(Purpose, Seq<char>)>,
                        ReadDirError,
                    >(
                        ReadDirError::CategorizeRelationships(
                            CategorizeRelationshipsError::RelationshipNonExistent(rel_id.0),
                        ),
                    ));
                    lemma_label_error_stays(all_relationships@, id, pairs@, i + 1, pairs@.len() as int);
                    assert(pairs@.subrange(0, pairs@.len() as int) =~= pairs@);
                    assert(label_entries(all_relationships@, id, pairs@) == label_entries(
                        all_relationships@,
                        id,
                        pairs@.subrange(0, i + 1),
                    ));
                }
                return Err(
                    ReadDirError::CategorizeRelationships(
                        CategorizeRelationshipsError::RelationshipNonExistent(rel_id.0),
                    ),
                );
            },
            Some(k) => {
                let rel = &all_relationships[k];
                let name = match side {
                    RelationshipSide::Dest => rel.from_name.clone(),
                    RelationshipSide::Source => rel.to_name.clone(),
                };
                push_entry(&mut out, PathPurpose::ItemRelationships(id, rel_id, side), name);
            },
        }
        i = i + 1;
    }
    assert(pairs@.subrange(0, pairs@.len() as int) =~= pairs@);
    Ok(out)
}

fn item_listing(snap: &Snapshot, id: ItemId) -> (r: Result<Vec<Entry>, ReadDirError>)
    ensures
        listing_view(r) == item_entries(*snap, id),
{
    match first_item_index(&snap.items, id) {
        None => Err(ReadDirError::ItemIdNotInDatabase),
        Some(u) => {
            let item = &snap.items[u];
            let mut out = categorize_relationships(&item.relationships, &snap.relationships, id)?;
            push_entry(&mut out, PathPurpose::PassthroughPath(item.path.clone()), String::from_str("content"));
            push_entry(&mut out, PathPurpose::ItemId(id), String::from_str("id"));
            push_entry(&mut out, PathPurpose::ItemName(id), String::from_str("name"));
            proof {
                let labels = label_entries(
                    snap.relationships@,
                    id,
                    distinct_sides(snap.items@[u as int].relationships@),
                )->Ok_0;
                assert(entries_view(out@) =~= labels + seq![
                    (Purpose::PassthroughPath(snap.items@[u as int].path@), "content"@),
                    (Purpose::ItemId(id), "id"@),
                    (Purpose::ItemName(id), "name"@),
                ]);
            }
            Ok(out)
        },
    }
}

fn sibling_listing(
    items: &Vec<DbItem>,
    relationships: &Vec<crate::db::ItemRelationship>,
    r: RelationshipId,
    s: RelationshipSide,
) -> (out: Vec<Entry>)
    ensures
        entries_view(out@) == sibling_entries(items@, relationships@, r, s),
{
    let mut out: Vec<Entry> = Vec::new();
    let mut k: usize = 0;
    while k < relationships.len()
        invariant
            k <= relationships@.len(),
            entries_view(out@) == sibling_entries(items@, relationships@.subrange(0, k as int), r, s),
        decreases relationships@.len() - k,
    {
        let e = relationships[k];
        proof {
            lemma_prefix_step(relationships@, k as int);
        }
        if e.id == r && e.side == s {
            match first_item_index(items, e.sibling) {
                Some(t) => {
                    push_entry(&mut out, PathPurpose::ItemLink(items[t].id), items[t].name.clone());
                },
                None => {},
            }
        }
        k = k + 1;
    }
    assert(relationships@.subrange(0, relationships@.len() as int) =~= relationships@);
    out
}

fn filter_listing(snap: &Snapshot, f: ConditionSetId) -> (r: Result<Vec<Entry>, ReadDirError>)
    ensures
        listing_view(r) == filter_entries(*snap, f),
{
    let k = match first_filter_index(&snap.root_filters, f) {
        None => {
            return Err(ReadDirError::FindFilter);
        },
        Some(k) => k,
    };
    let ids = &snap.root_filters[k].matched;
    let mut out: Vec<Entry> = Vec::new();
    let mut i: usize = 0;
    assert(entries_view(out@) =~= Seq::empty());
    assert(ids@.subrange(0, 0) =~= Seq::empty());
    assert(matched_entries(snap.items@, ids@.subrange(0, 0)) == Ok::<
        Seq<(Purpose, Seq<char>)>,
        ReadDirError,
    >(Seq::empty())) by {
        reveal(matched_entries);
    }
    while i < ids.len()
        invariant
            k < snap.root_filters@.len(),
            first_filter(snap.root_filters@, f) == Some(k as int),
            ids@ == snap.root_filters@[k as int].matched@,
            i <= ids@.len(),
            matched_entries(snap.items@, ids@.subrange(0, i as int)) == Ok::<
                Seq<(Purpose, Seq<char>)>,
                ReadDirError,
            >(entries_view(out@)),
        decreases ids@.len() - i,
    {
        let id = ids[i];
        proof {
            lemma_matched_step(snap.items@, ids@, i as int);
        }
        match first_item_index(&snap.items, id) {
            None => {
                proof {
                    assert(matched_entries(snap.items@, ids@.subrange(0, i + 1)) == Err::<
                        Seq<(Purpose, Seq<char>)>,
                        ReadDirError,
                    >(ReadDirError::ItemIdNotInDatabase));
                    lemma_matched_error_stays(snap.items@, ids@, i + 1, ids@.len() as int);
                    assert(ids@.subrange(0, ids@.len() as int) =~= ids@);
                    assert(matched_entries(snap.items@, ids@) == matched_entries(
                        snap.items@,
                        ids@.subrange(0, i + 1),
                    ));
                }
                return Err(ReadDirError::ItemIdNotInDatabase);
            },
            Some(t) => {
                push_entry(&mut out, PathPurpose::ItemLink(id), snap.items[t].name.clone());
            },
        }
        i = i + 1;
    }
    assert(ids@.subrange(0, ids@.len() as int) =~= ids@);
    Ok(out)
}

fn tool_listing(dir: &String) -> (r: Vec<Entry>)
    ensures
        entries_view(r@) == tool_entries(dir@),
{
    let mut out: Vec<Entry> = Vec::new();
    push_entry(&mut out, PathPurpose::PassthroughPath(join_path(dir.as_str(), "create-item")), String::from_str("create-item"));
    push_entry(
        &mut out,
        PathPurpose::PassthroughPath(join_path(dir.as_str(), "create-item-relationship")),
        String::from_str("create-item-relationship"),
    );
    push_entry(
        &mut out,
        PathPurpose::PassthroughPath(join_path(dir.as_str(), "create-relationship")),
        String::from_str("create-relationship"),
    );
    push_entry(&mut out, PathPurpose::PassthroughPath(join_path(dir.as_str(), "create-filter")), String::from_str("create-filter"));
    assert(entries_view(out@) =~= tool_entries(dir@));
    out
}

fn host_listing(p: &String, names: &Vec<String>) -> (r: Vec<Entry>)
    ensures
        entries_view(r@) == host_entries(p@, names_view(names@)),
{
    let mut out: Vec<Entry> = Vec::new();
    let mut i: usize = 0;
    while i < names.len()
        invariant
            i <= names@.len(),
            entries_view(out@) == host_entries(p@, names_view(names@.subrange(0, i as int))),
        decreases names@.len() - i,
    {
        push_entry(&mut out, PathPurpose::PassthroughPath(join_path(p.as_str(), names[i].as_str())), names[i].clone());
        i = i + 1;
        assert(entries_view(out@) =~= host_entries(p@, names_view(names@.subrange(0, i as int))));
    }
    assert(names@.subrange(0, names@.len() as int) =~= names@);
    out
}

/// Lists a directory: each child's purpose with its displayed name.
/// `host_names` is what the host listed for a passthrough directory and is
/// ignored for every other purpose.
pub fn list_dir_contents(snap: &Snapshot, path: &PathPurpose, host_names: &Vec<String>) -> (r: Result<
    Vec<Entry>,
    ReadDirError,
>)
    ensures
        listing_view(r) == children(*snap, path@, names_view(host_names@)),
{
    reveal(children);
    match path {
        PathPurpose::Root => Ok(root_listing(snap)),
        PathPurpose::Items => Ok(items_listing(&snap.items)),
        PathPurpose::Relationships => Ok(relationships_listing(&snap.relationships)),
        PathPurpose::Relationship(id) => Ok(relationship_listing(*id)),
        PathPurpose::Item(id) => item_listing(snap, *id),
        PathPurpose::ItemRelationships(i, r, s) => {
            match first_item_index(&snap.items, *i) {
                None => Err(ReadDirError::ItemIdNotInDatabase),
                Some(u) => Ok(sibling_listing(&snap.items, &snap.items[u].relationships, *r, *s)),
            }
        },
        PathPurpose::Filter(f) => filter_listing(snap, *f),
        PathPurpose::ToolBins => Ok(tool_listing(&snap.tool_dir)),
        PathPurpose::PassthroughPath(p) => Ok(host_listing(p, host_names)),
        PathPurpose::Unknown => Err(ReadDirError::NotFound),
        _ => Err(ReadDirError::NotADirectory),
    }
}


/// The purpose of the first entry named `name`, or `Unknown`.
#[verifier::opaque]
pub open spec fn find_named(entries: Seq<(Purpose, Seq<char>)>, name: Seq<char>) -> Purpose
    decreases entries.len(),
{
    if entries.len() == 0 {
        Purpose::Unknown
    } else if entries[0].1 == name {
        entries[0].0
    } else {
        find_named(entries.drop_first(), name)
    }
}

/// The purpose of the path with the given components below the root: the
/// root itself for no component; below a passthrough directory, the host path
/// extended by the name, whether or not it exists; elsewhere, the first
/// child of the parent with that name, or `Unknown`. Listing a parent that is
/// not a directory, or whose listing fails, is an error.
#[verifier::opaque]
pub open spec fn resolve(snap: Snapshot, names: Seq<Seq<char>>) -> Result<Purpose, ReadDirError>
    decreases names.len(),
{
    if names.len() == 0 {
        Ok(Purpose::Root)
    } else {
        match resolve(snap, names.drop_last()) {
            Err(e) => Err(e),
            Ok(parent) => match parent {
                Purpose::PassthroughPath(p) => Ok(Purpose::PassthroughPath(join_spec(p, names.last()))),
                _ => match children(snap, parent, Seq::empty()) {
                    Err(e) => Err(e),
                    Ok(entries) => Ok(find_named(entries, names.last())),
                },
            },
        }
    }
}

/// One more component resolves from its parent's purpose.
pub proof fn lemma_resolve_step(snap: Snapshot, names: Seq<Seq<char>>, i: int)
    requires
        0 <= i < names.len(),
    ensures
        resolve(snap, names.subrange(0, i + 1)) == match resolve(snap, names.subrange(0, i)) {
            Err(e) => Err(e),
            Ok(parent) => match parent {
                Purpose::PassthroughPath(p) => Ok(Purpose::PassthroughPath(join_spec(p, names[i]))),
                _ => match children(snap, parent, Seq::empty()) {
                    Err(e) => Err(e),
                    Ok(entries) => Ok(find_named(entries, names[i])),
                },
            },
        },
{
    reveal(resolve);
    lemma_prefix_step(names, i);
}

proof fn lemma_resolve_error_stays(snap: Snapshot, names: Seq<Seq<char>>, i: int, j: int)
    requires
        0 <= i <= j <= names.len(),
        resolve(snap, names.subrange(0, i)) is Err,
    ensures
        resolve(snap, names.subrange(0, j)) == resolve(snap, names.subrange(0, i)),
    decreases j - i,
{
    if j > i {
        lemma_resolve_error_stays(snap, names, i, j - 1);
        lemma_resolve_step(snap, names, j - 1);
    }
}

/// Takes the purpose of the first entry named `name` out of a listing.
pub fn find_child(listing: Vec<Entry>, name: &str) -> (r: PathPurpose)
    ensures
        r@ == find_named(entries_view(listing@), name@),
{
    reveal(find_named);
    let ghost all = entries_view(listing@);
    let mut entries = listing;
    let mut i: usize = 0;
    assert(all.subrange(0, all.len() as int) =~= all);
    while i < entries.len()
        invariant
            i <= entries@.len(),
            all == entries_view(entries@),
            all == entries_view(listing@),
            find_named(all, name@) == find_named(all.subrange(i as int, all.len() as int), name@),
        decreases entries@.len() - i,
    {
        let ghost rest = all.subrange(i as int, all.len() as int);
        proof {
            reveal(find_named);
        }
        if str_eq(entries[i].1.as_str(), name) {
            assert(rest[0] == all[i as int]);
            let (purpose, _shown) = entries.remove(i);
            return purpose;
        }
        assert(rest.drop_first() =~= all.subrange(i + 1, all.len() as int));
        i = i + 1;
    }
    assert(all.subrange(i as int, all.len() as int) =~= Seq::<(Purpose, Seq<char>)>::empty());
    PathPurpose::Unknown
}

fn no_names() -> (r: Vec<String>)
    ensures
        names_view(r@) == Seq::<Seq<char>>::empty(),
{
    let r: Vec<String> = Vec::new();
    assert(names_view(r@) =~= Seq::<Seq<char>>::empty());
    r
}

/// Classifies a path, given as its components below the root: enumerates each
/// ancestor and matches the next name, and below a passthrough directory
/// extends the host path.
pub fn parse_path(snap: &Snapshot, components: &Vec<String>) -> (r: Result<PathPurpose, ParsePathError>)
    ensures
        r matches Ok(p) ==> resolve(*snap, names_view(components@)) == Ok::<Purpose, ReadDirError>(p@),
        r matches Err(e) ==> resolve(*snap, names_view(components@)) matches Err(x) && e
            == ParsePathError::ReadDir(x),
        r is Ok <==> resolve(*snap, names_view(components@)) is Ok,
{
    let ghost names = names_view(components@);
    let mut current = PathPurpose::Root;
    let mut i: usize = 0;
    assert(names.subrange(0, 0) =~= Seq::<Seq<char>>::empty());
    assert(resolve(*snap, names.subrange(0, 0)) == Ok::<Purpose, ReadDirError>(Purpose::Root)) by {
        reveal(resolve);
    }
    while i < components.len()
        invariant
            i <= components@.len(),
            names == names_view(components@),
            resolve(*snap, names.subrange(0, i as int)) == Ok::<Purpose, ReadDirError>(current@),
        decreases components@.len() - i,
    {
        proof {
            lemma_resolve_step(*snap, names, i as int);
        }
        let name = components[i].as_str();
        let next = match &current {
            PathPurpose::PassthroughPath(p) => PathPurpose::PassthroughPath(join_path(p.as_str(), name)),
            _ => {
                let empty = no_names();
                match list_dir_contents(snap, &current, &empty) {
                    Err(e) => {
                        proof {
                            lemma_resolve_error_stays(*snap, names, i + 1, names.len() as int);
                            assert(names.subrange(0, names.len() as int) =~= names);
                        }
                        return Err(ParsePathError::ReadDir(e));
                    },
                    Ok(entries) => find_child(entries, name),
                }
            },
        };
        current = next;
        i = i + 1;
    }
    assert(names.subrange(0, names.len() as int) =~= names);
    Ok(current)
}

/// Why a link could not be read.
#[derive(Clone, Copy, Debug, PartialEq, Eq, Structural)]
pub enum ReadLinkError {
    ParsePath(ParsePathError),
    /// The path names something other than a link.
    NotALink,
    /// The path names nothing.
    NotFound,
}

/// `n` times `../`.
pub open spec fn climb(n: nat) -> Seq<char>
    decreases n,
{
    if n == 0 {
        Seq::empty()
    } else {
        climb((n - 1) as nat) + "../"@
    }
}

/// Where a link at the given depth below the root points: up to the root,
/// then down into the item's directory.
pub open spec fn link_target(depth: nat, id: ItemId) -> Seq<char> {
    climb((depth - 1) as nat) + "items/"@ + int_text(id.0 as int)
}

/// The kind of a node and, for a regular file, its length.
#[derive(Clone, Copy, Debug, PartialEq, Eq, Structural)]
pub enum Filetype {
    Dir,
    File(usize),
    Link,
}

/// What a handle to a path opened.
#[derive(Clone, Copy, Debug, PartialEq, Eq, Structural)]
pub enum OpenRet {
    /// The control channel, with a fresh handle id.
    Socket(u64),
    /// A metadata file, which needs no handle.
    Noop,
    /// Nothing that can be opened.
    Unhandled,
}

/// Why a path could not be opened.
#[derive(Clone, Copy, Debug, PartialEq, Eq, Structural)]
pub enum OpenError {
    ParsePath(ParsePathError),
    /// The path names nothing.
    NotFound,
}

/// Why a node has no type.
#[derive(Clone, Copy, Debug, PartialEq, Eq, Structural)]
pub enum PathPurposeToFiletypeError {
    /// The path names nothing.
    NotFound,
}

/// Why the type of the node at a path could not be given.
#[derive(Clone, Copy, Debug, PartialEq, Eq, Structural)]
pub enum GetFiletypeError {
    ParsePath(ParsePathError),
    GetFileType(PathPurposeToFiletypeError),
}

/// The body of a metadata file, recomputed on each read; empty when the item
/// or relationship is gone.
pub open spec fn file_contents(snap: Snapshot, p: Purpose) -> Seq<u8> {
    match p {
        Purpose::ItemId(id) => line_bytes(int_text(id.0 as int)),
        Purpose::ItemName(id) => match first_item(snap.items@, id) {
            None => Seq::empty(),
            Some(u) => line_bytes(snap.items@[u].name@),
        },
        Purpose::RelationshipId(id) => line_bytes(int_text(id.0 as int)),
        Purpose::RelationshipFromName(id) => match first_relationship(snap.relationships@, id) {
            None => Seq::empty(),
            Some(k) => line_bytes(snap.relationships@[k].from_name@),
        },
        Purpose::RelationshipToName(id) => match first_relationship(snap.relationships@, id) {
            None => Seq::empty(),
            Some(k) => line_bytes(snap.relationships@[k].to_name@),
        },
        _ => Seq::empty(),
    }
}

/// Whether a purpose is a metadata file.
pub open spec fn is_metadata(p: Purpose) -> bool {
    p is ItemId || p is ItemName || p is RelationshipId || p is RelationshipFromName || p is RelationshipToName
}

/// Body of an item's `id` file.
pub fn get_item_id_file_contents(id: &ItemId) -> (r: Vec<u8>)
    ensures
        r@ == line_bytes(int_text(id.0 as int)),
{
    with_newline_as_vec(i64_text(id.0))
}

/// Body of a relationship's `id` file.
pub fn get_relationship_id_file_contents(id: &RelationshipId) -> (r: Vec<u8>)
    ensures
        r@ == line_bytes(int_text(id.0 as int)),
{
    with_newline_as_vec(i64_text(id.0))
}

/// Body of an item's `name` file.
pub fn get_item_name_file_contents(id: &ItemId, snap: &Snapshot) -> (r: Vec<u8>)
    ensures
        r@ == file_contents(*snap, Purpose::ItemName(*id)),
{
    match first_item_index(&snap.items, *id) {
        None => Vec::new(),
        Some(u) => with_newline_as_vec(snap.items[u].name.clone()),
    }
}

/// Body of a relationship's `from_name` file.
pub fn get_relationship_from_name_file_contents(id: &RelationshipId, snap: &Snapshot) -> (r: Vec<u8>)
    ensures
        r@ == file_contents(*snap, Purpose::RelationshipFromName(*id)),
{
    match first_relationship_index(&snap.relationships, *id) {
        None => Vec::new(),
        Some(k) => with_newline_as_vec(snap.relationships[k].from_name.clone()),
    }
}

/// Body of a relationship's `to_name` file.
pub fn get_relationship_to_name_file_contents(id: &RelationshipId, snap: &Snapshot) -> (r: Vec<u8>)
    ensures
        r@ == file_contents(*snap, Purpose::RelationshipToName(*id)),
{
    match first_relationship_index(&snap.relationships, *id) {
        None => Vec::new(),
        Some(k) => with_newline_as_vec(snap.relationships[k].to_name.clone()),
    }
}

/// The body of a metadata file, or nothing for any other purpose.
pub fn metadata_file_contents(purpose: &PathPurpose, snap: &Snapshot) -> (r: Option<Vec<u8>>)
    ensures
        r is Some <==> is_metadata(purpose@),
        r matches Some(v) ==> v@ == file_contents(*snap, purpose@),
{
    match purpose {
        PathPurpose::ItemId(id) => Some(get_item_id_file_contents(id)),
        PathPurpose::ItemName(id) => Some(get_item_name_file_contents(id, snap)),
        PathPurpose::RelationshipId(id) => Some(get_relationship_id_file_contents(id)),
        PathPurpose::RelationshipFromName(id) => Some(get_relationship_from_name_file_contents(id, snap)),
        PathPurpose::RelationshipToName(id) => Some(get_relationship_to_name_file_contents(id, snap)),
        _ => None,
    }
}

/// The type of a node: directories for every container, a link for an item
/// link, a regular file as long as its body for the control channel (empty)
/// and the metadata files. A passthrough path's type is the host's, so it has
/// none here; an unknown path names nothing and has no type.
pub open spec fn filetype_of(snap: Snapshot, p: Purpose) -> Result<Option<Filetype>, PathPurposeToFiletypeError> {
    match p {
        Purpose::Unknown => Err(PathPurposeToFiletypeError::NotFound),
        Purpose::PassthroughPath(_) => Ok(None),
        Purpose::ItemLink(_) => Ok(Some(Filetype::Link)),
        Purpose::Socket => Ok(Some(Filetype::File(0))),
        Purpose::ItemId(_) | Purpose::ItemName(_) | Purpose::RelationshipId(_) | Purpose::RelationshipFromName(_)
        | Purpose::RelationshipToName(_) => Ok(Some(Filetype::File(file_contents(snap, p).len() as usize))),
        _ => Ok(Some(Filetype::Dir)),
    }
}

/// The type of a node of the given purpose; `None` for a passthrough path,
/// whose type the host knows; not found for an unknown path.
pub fn path_purpose_to_filetype(purpose: &PathPurpose, snap: &Snapshot) -> (r: Result<
    Option<Filetype>,
    PathPurposeToFiletypeError,
>)
    ensures
        r == filetype_of(*snap, purpose@),
{
    match purpose {
        PathPurpose::Unknown => Err(PathPurposeToFiletypeError::NotFound),
        PathPurpose::PassthroughPath(_) => Ok(None),
        PathPurpose::ItemLink(_) => Ok(Some(Filetype::Link)),
        PathPurpose::Socket => Ok(Some(Filetype::File(0))),
        PathPurpose::ItemId(_) | PathPurpose::ItemName(_) | PathPurpose::RelationshipId(_)
        | PathPurpose::RelationshipFromName(_) | PathPurpose::RelationshipToName(_) => {
            let body = metadata_file_contents(purpose, snap);
            match body {
                Some(v) => Ok(Some(Filetype::File(v.len()))),
                None => Ok(None),
            }
        },
        _ => Ok(Some(Filetype::Dir)),
    }
}

/// A listed name with the kind of node it names.
#[derive(Clone, Debug)]
pub enum DirEntry {
    Dir(String),
    File(String),
    Link(String),
}

/// The listing entry for a node of the given type.
pub fn dir_entry(filetype: Filetype, name: String) -> (r: DirEntry)
    ensures
        match filetype {
            Filetype::Dir => r matches DirEntry::Dir(n) && n == name,
            Filetype::File(_) => r matches DirEntry::File(n) && n == name,
            Filetype::Link => r matches DirEntry::Link(n) && n == name,
        },
{
    match filetype {
        Filetype::Dir => DirEntry::Dir(name),
        Filetype::File(_) => DirEntry::File(name),
        Filetype::Link => DirEntry::Link(name),
    }
}

/// Why a response could not be queued.
#[derive(Clone, Copy, Debug, PartialEq, Eq, Structural)]
pub enum WriteError {
    /// No open handle has the given id.
    FindResponseHandle,
}

/// Why a read failed.
#[derive(Clone, Copy, Debug, PartialEq, Eq, Structural)]
pub enum ReadError {
    /// No open handle has the given id.
    FindResponseHandle,
    /// The path is neither the control channel nor a metadata file.
    UnhandledPath,
    ParsePath(ParsePathError),
    /// The path names nothing.
    NotFound,
}

/// The control channel's open handles: each open of the channel gets a fresh
/// id and an empty response buffer, freed on release.
#[derive(Debug)]
pub struct FuseClient {
    latest_open_id: u64,
    open_files: HashMap<u64, Vec<u8>>,
}

impl FuseClient {
    /// The id that the next open of the control channel receives.
    pub closed spec fn next_handle(&self) -> u64 {
        self.latest_open_id
    }

    /// The response buffer of each open handle.
    pub closed spec fn buffers(&self) -> Map<u64, Seq<u8>> {
        self.open_files@.map_values(|v: Vec<u8>| v@)
    }

    /// Every open handle has an id below the next one.
    pub closed spec fn wf(&self) -> bool {
        forall|id: u64| #[trigger] self.open_files@.contains_key(id) ==> id < self.latest_open_id
    }

    /// No handles open; the first gets id 0.
    pub fn new() -> (r: FuseClient)
        ensures
            r.wf(),
            r.next_handle() == 0,
            r.buffers() == Map::<u64, Seq<u8>>::empty(),
    {
        broadcast use vstd::std_specs::hash::group_hash_axioms;

        let r = FuseClient { latest_open_id: 0, open_files: HashMap::new() };
        assert(r.buffers() =~= Map::<u64, Seq<u8>>::empty());
        r
    }

    /// The host path of a passthrough path, or nothing for a synthetic one.
    pub fn get_passthrough_path(&self, snap: &Snapshot, components: &Vec<String>) -> (r: Result<
        Option<String>,
        ParsePathError,
    >)
        ensures
            r is Ok <==> resolve(*snap, names_view(components@)) is Ok,
            r matches Ok(Some(p)) ==> resolve(*snap, names_view(components@)) == Ok::<Purpose, ReadDirError>(
                Purpose::PassthroughPath(p@),
            ),
            r matches Ok(None) ==> !(resolve(*snap, names_view(components@))->Ok_0 is PassthroughPath),
            r matches Err(e) ==> resolve(*snap, names_view(components@)) matches Err(x) && e
                == ParsePathError::ReadDir(x),
    {
        match parse_path(snap, components)? {
            PathPurpose::PassthroughPath(p) => Ok(Some(p)),
            _ => Ok(None),
        }
    }

    /// The target of a link: `../` once per directory above the link, then
    /// `items/<id>`.
    pub fn readlink(&self, snap: &Snapshot, components: &Vec<String>) -> (r: Result<String, ReadLinkError>)
        ensures
            r matches Ok(t) ==> exists|id: ItemId|
                resolve(*snap, names_view(components@)) == Ok::<Purpose, ReadDirError>(Purpose::ItemLink(id))
                    && t@ == link_target(components@.len(), id),
            r matches Err(ReadLinkError::NotALink) ==> resolve(*snap, names_view(components@)) matches Ok(p)
                && !(p is ItemLink) && !(p is Unknown),
            resolve(*snap, names_view(components@)) == Ok::<Purpose, ReadDirError>(Purpose::Unknown) ==> r
                == Err::<String, ReadLinkError>(ReadLinkError::NotFound),
            r matches Err(ReadLinkError::ParsePath(e)) ==> resolve(*snap, names_view(components@)) is Err,
            r is Ok <==> (resolve(*snap, names_view(components@)) matches Ok(p) && p is ItemLink),
    {
        let item_id = match parse_path(snap, components) {
            Err(e) => {
                return Err(ReadLinkError::ParsePath(e));
            },
            Ok(PathPurpose::ItemLink(id)) => id,
            Ok(PathPurpose::Unknown) => {
                return Err(ReadLinkError::NotFound);
            },
            Ok(_) => {
                return Err(ReadLinkError::NotALink);
            },
        };
        proof {
            reveal(resolve);
        }
        let ghost names = names_view(components@);
        assert(components@.len() > 0) by {
            if components@.len() == 0 {
                assert(names.len() == 0);
            }
        }
        let depth = components.len() - 1;
        let mut out = String::new();
        let mut i: usize = 0;
        assert(out@ =~= climb(0));
        while i < depth
            invariant
                i <= depth,
                out@ == climb(i as nat),
            decreases depth - i,
        {
            out.append("../");
            i = i + 1;
        }
        out.append("items/");
        let id_text = i64_text(item_id.0);
        out.append(id_text.as_str());
        assert(out@ =~= link_target(components@.len(), item_id));
        Ok(out)
    }

    /// The type of the node at a path.
    pub fn get_filetype(&self, snap: &Snapshot, components: &Vec<String>) -> (r: Result<
        Option<Filetype>,
        GetFiletypeError,
    >)
        ensures
            match resolve(*snap, names_view(components@)) {
                Err(x) => r == Err::<Option<Filetype>, GetFiletypeError>(
                    GetFiletypeError::ParsePath(ParsePathError::ReadDir(x)),
                ),
                Ok(p) => match filetype_of(*snap, p) {
                    Ok(t) => r == Ok::<Option<Filetype>, GetFiletypeError>(t),
                    Err(e) => r == Err::<Option<Filetype>, GetFiletypeError>(GetFiletypeError::GetFileType(e)),
                },
            },
    {
        let purpose = match parse_path(snap, components) {
            Ok(p) => p,
            Err(e) => {
                return Err(GetFiletypeError::ParsePath(e));
            },
        };
        match path_purpose_to_filetype(&purpose, snap) {
            Ok(t) => Ok(t),
            Err(e) => Err(GetFiletypeError::GetFileType(e)),
        }
    }

    /// Lists the directory at a path: each child's purpose with its displayed
    /// name. `host_names` is what the host listed, used when the path is a
    /// passthrough directory.
    pub fn readdir(&self, snap: &Snapshot, components: &Vec<String>, host_names: &Vec<String>) -> (r: Result<
        Vec<Entry>,
        ReadDirError,
    >)
        ensures
            match resolve(*snap, names_view(components@)) {
                Err(e) => r == Err::<Vec<Entry>, ReadDirError>(e),
                Ok(p) => listing_view(r) == children(*snap, p, names_view(host_names@)),
            },
    {
        let purpose = match parse_path(snap, components) {
            Ok(p) => p,
            Err(ParsePathError::ReadDir(e)) => {
                return Err(e);
            },
            Err(ParsePathError::ParsePath) => {
                return Err(ReadDirError::NotFound);
            },
        };
        list_dir_contents(snap, &purpose, host_names)
    }

    /// The id that the next open of the control channel receives.
    pub fn next_handle_id(&self) -> (r: u64)
        ensures
            r == self.next_handle(),
    {
        self.latest_open_id
    }

    /// Opens a path: the control channel gets a fresh handle with an empty
    /// buffer, a metadata file needs none, a path naming nothing is not found,
    /// anything else cannot be opened.
    pub fn open(&mut self, snap: &Snapshot, components: &Vec<String>) -> (r: Result<OpenRet, OpenError>)
        requires
            old(self).wf(),
            old(self).next_handle() < u64::MAX,
        ensures
            final(self).wf(),
            r is Ok <==> (resolve(*snap, names_view(components@)) matches Ok(p) && !(p is Unknown)),
            r matches Err(OpenError::ParsePath(e)) ==> resolve(*snap, names_view(components@)) matches Err(x)
                && e == ParsePathError::ReadDir(x),
            resolve(*snap, names_view(components@)) == Ok::<Purpose, ReadDirError>(Purpose::Unknown) ==> r
                == Err::<OpenRet, OpenError>(OpenError::NotFound),
            r matches Ok(OpenRet::Socket(id)) ==> {
                &&& resolve(*snap, names_view(components@)) == Ok::<Purpose, ReadDirError>(Purpose::Socket)
                &&& id == old(self).next_handle()
                &&& !old(self).buffers().contains_key(id)
                &&& final(self).next_handle() == old(self).next_handle() + 1
                &&& final(self).buffers() == old(self).buffers().insert(id, Seq::empty())
            },
            r matches Ok(OpenRet::Noop) ==> is_metadata(resolve(*snap, names_view(components@))->Ok_0),
            r matches Ok(OpenRet::Unhandled) ==> {
                let p = resolve(*snap, names_view(components@))->Ok_0;
                !is_metadata(p) && !(p is Socket) && !(p is Unknown)
            },
            !(r matches Ok(OpenRet::Socket(_))) ==> final(self).next_handle() == old(self).next_handle()
                && final(self).buffers() == old(self).buffers(),
    {
        broadcast use vstd::std_specs::hash::group_hash_axioms;

        let purpose = match parse_path(snap, components) {
            Ok(p) => p,
            Err(e) => {
                return Err(OpenError::ParsePath(e));
            },
        };
        match purpose {
            PathPurpose::Socket => {},
            PathPurpose::Unknown => {
                return Err(OpenError::NotFound);
            },
            PathPurpose::ItemId(_) | PathPurpose::ItemName(_) | PathPurpose::RelationshipId(_)
            | PathPurpose::RelationshipToName(_) | PathPurpose::RelationshipFromName(_) => {
                return Ok(OpenRet::Noop);
            },
            _ => {
                return Ok(OpenRet::Unhandled);
            },
        }
        let id = self.latest_open_id;
        self.open_files.insert(id, Vec::new());
        self.latest_open_id = id + 1;
        proof {
            assert(self.buffers() =~= old(self).buffers().insert(id, Seq::empty()));
        }
        Ok(OpenRet::Socket(id))
    }

    /// Queues response bytes on an open handle of the control channel.
    pub fn write_response(&mut self, id: u64, bytes: Vec<u8>) -> (r: Result<(), WriteError>)
        requires
            old(self).wf(),
        ensures
            final(self).wf(),
            final(self).next_handle() == old(self).next_handle(),
            r is Ok <==> old(self).buffers().contains_key(id),
            r is Ok ==> final(self).buffers() == old(self).buffers().insert(id, old(self).buffers()[id] + bytes@),
            r is Err ==> r == Err::<(), WriteError>(WriteError::FindResponseHandle) && final(self).buffers()
                == old(self).buffers(),
    {
        broadcast use vstd::std_specs::hash::group_hash_axioms;

        let ghost added = bytes@;
        let mut bytes = bytes;
        match self.open_files.remove(&id) {
            None => {
                proof {
                    assert(self.open_files@ =~= old(self).open_files@);
                }
                Err(WriteError::FindResponseHandle)
            },
            Some(mut buffer) => {
                buffer.append(&mut bytes);
                self.open_files.insert(id, buffer);
                proof {
                    assert(self.buffers() =~= old(self).buffers().insert(id, old(self).buffers()[id] + added));
                }
                Ok(())
            },
        }
    }

    /// Reads a path: for the control channel, takes up to `len` bytes from
    /// the front of the handle's buffer; for a metadata file, its body.
    pub fn read(&mut self, snap: &Snapshot, components: &Vec<String>, id: u64, len: usize) -> (r: Result<
        Vec<u8>,
        ReadError,
    >)
        requires
            old(self).wf(),
        ensures
            final(self).wf(),
            final(self).next_handle() == old(self).next_handle(),
            r is Ok <==> match resolve(*snap, names_view(components@)) {
                Ok(Purpose::Socket) => old(self).buffers().contains_key(id),
                Ok(p) => is_metadata(p),
                Err(_) => false,
            },
            r matches Ok(v) ==> match resolve(*snap, names_view(components@)) {
                Ok(Purpose::Socket) => {
                    let buf = old(self).buffers()[id];
                    let n = if len < buf.len() { len as int } else { buf.len() as int };
                    &&& v@ == buf.subrange(0, n)
                    &&& final(self).buffers() == old(self).buffers().insert(id, buf.subrange(n, buf.len() as int))
                },
                Ok(p) => v@ == file_contents(*snap, p) && final(self).buffers() == old(self).buffers(),
                Err(_) => false,
            },
            match resolve(*snap, names_view(components@)) {
                Err(x) => r == Err::<Vec<u8>, ReadError>(ReadError::ParsePath(ParsePathError::ReadDir(x))),
                Ok(Purpose::Unknown) => r == Err::<Vec<u8>, ReadError>(ReadError::NotFound),
                Ok(Purpose::Socket) => !old(self).buffers().contains_key(id) ==> r == Err::<Vec<u8>, ReadError>(
                    ReadError::FindResponseHandle,
                ),
                Ok(p) => !is_metadata(p) ==> r == Err::<Vec<u8>, ReadError>(ReadError::UnhandledPath),
            },
            r is Err ==> final(self).buffers() == old(self).buffers(),
    {
        broadcast use vstd::std_specs::hash::group_hash_axioms;

        let purpose = match parse_path(snap, components) {
            Ok(p) => p,
            Err(e) => {
                return Err(ReadError::ParsePath(e));
            },
        };
        match purpose {
            PathPurpose::Unknown => Err(ReadError::NotFound),
            PathPurpose::Socket => {
                match self.open_files.remove(&id) {
                    None => {
                        proof {
                            assert(self.open_files@ =~= old(self).open_files@);
                        }
                        Err(ReadError::FindResponseHandle)
                    },
                    Some(mut buffer) => {
                        let n = if len < buffer.len() {
                            len
                        } else {
                            buffer.len()
                        };
                        let rest = buffer.split_off(n);
                        self.open_files.insert(id, rest);
                        proof {
                            let buf = old(self).buffers()[id];
                            assert(self.buffers() =~= old(self).buffers().insert(
                                id,
                                buf.subrange(n as int, buf.len() as int),
                            ));
                        }
                        Ok(buffer)
                    },
                }
            },
            _ => match metadata_file_contents(&purpose, snap) {
                Some(v) => Ok(v),
                None => Err(ReadError::UnhandledPath),
            },
        }
    }

    /// Frees a handle and its buffer.
    pub fn release(&mut self, id: u64)
        requires
            old(self).wf(),
        ensures
            final(self).wf(),
            final(self).next_handle() == old(self).next_handle(),
            final(self).buffers() == old(self).buffers().remove(id),
    {
        broadcast use vstd::std_specs::hash::group_hash_axioms;

        self.open_files.remove(&id);
        proof {
            assert(self.buffers() =~= old(self).buffers().remove(id));
        }
    }
}

} // verus!
