//! What the store computes from the rows it reads: items grouped with their
//! item-relationships, lookups, the name-slot check for new relationships,
//! conditions rebuilt from their rows, and filter selection.
use crate::db::{
    Condition, ConditionSet, ConditionSetId, DbItem, ItemFilter, ItemId, ItemRelationship,
    ParseRelationshipSideError, Relationship, RelationshipId, RelationshipSide,
};
use crate::text::{i64_text, int_text, join_path, join_spec, str_eq};
use vstd::prelude::*;
use vstd::string::*;

verus! {

/// A row of `files`.
#[derive(Clone, Debug)]
pub struct ItemRow {
    pub id: ItemId,
    pub name: String,
}

/// A row of `item_relationships`.
#[derive(Clone, Copy, Debug, PartialEq, Eq, Structural)]
pub struct LinkRow {
    pub from_id: ItemId,
    pub to_id: ItemId,
    pub relationship_id: RelationshipId,
}

/// Reading the stored conditions of a condition set failed.
#[derive(Clone, Copy, Debug, PartialEq, Eq, Structural)]
pub enum GetFiltersError {
    InvalidRelationshipSide(ParseRelationshipSideError),
}

/// Assembling item filters failed.
#[derive(Clone, Copy, Debug, PartialEq, Eq, Structural)]
pub enum GetConditionalFiltersError {
    /// An item filter names a condition set that does not exist.
    MatchId,
}

/// A new relationship would reuse a name slot.
#[derive(Clone, Copy, Debug, PartialEq, Eq, Structural)]
pub enum AddRelationshipError {
    AlreadyExists(RelationshipId),
}

/// The item-relationships of `id` among `links`, in row order: a row where
/// `id` is the source gives a source entry, one where it is the dest gives a
/// dest entry (a row linking `id` to itself gives both).
pub open spec fn relationships_of(links: Seq<LinkRow>, id: ItemId) -> Seq<ItemRelationship>
    decreases links.len(),
{
    if links.len() == 0 {
        Seq::empty()
    } else {
        let prev = relationships_of(links.drop_last(), id);
        let l = links.last();
        let with_source = if l.from_id == id {
            prev.push(ItemRelationship { id: l.relationship_id, side: RelationshipSide::Source, sibling: l.to_id })
        } else {
            prev
        };
        if l.to_id == id {
            with_source.push(ItemRelationship { id: l.relationship_id, side: RelationshipSide::Dest, sibling: l.from_id })
        } else {
            with_source
        }
    }
}

/// Content directory of an item under the store's item directory.
pub open spec fn content_path(items_dir: Seq<char>, id: ItemId) -> Seq<char> {
    join_spec(items_dir, int_text(id.0 as int))
}

/// `item` is row `row` grouped with its item-relationships.
pub open spec fn grouped(item: DbItem, row: ItemRow, links: Seq<LinkRow>, items_dir: Seq<char>) -> bool {
    &&& item.id == row.id
    &&& item.name@ == row.name@
    &&& item.path@ == content_path(items_dir, row.id)
    &&& item.relationships@ == relationships_of(links, row.id)
}

fn relationships_for(links: &Vec<LinkRow>, id: ItemId) -> (r: Vec<ItemRelationship>)
    ensures
        r@ == relationships_of(links@, id),
{
    let mut out: Vec<ItemRelationship> = Vec::new();
    let mut j: usize = 0;
    while j < links.len()
        invariant
            j <= links@.len(),
            out@ == relationships_of(links@.subrange(0, j as int), id),
        decreases links@.len() - j,
    {
        let l = links[j];
        if l.from_id == id {
            out.push(ItemRelationship { id: l.relationship_id, side: RelationshipSide::Source, sibling: l.to_id });
        }
        if l.to_id == id {
            out.push(ItemRelationship { id: l.relationship_id, side: RelationshipSide::Dest, sibling: l.from_id });
        }
        proof {
            let next = links@.subrange(0, j + 1);
            assert(next.drop_last() =~= links@.subrange(0, j as int));
            assert(next.last() == l);
        }
        j = j + 1;
    }
    assert(links@.subrange(0, links@.len() as int) =~= links@);
    out
}

/// Groups item rows with the item-relationship rows that touch them; one
/// item per row, in row order.
pub fn group_items(items: &Vec<ItemRow>, links: &Vec<LinkRow>, items_dir: &str) -> (r: Vec<DbItem>)
    ensures
        r@.len() == items@.len(),
        forall|k: int| 0 <= k < items@.len() ==> grouped(#[trigger] r@[k], items@[k], links@, items_dir@),
{
    let mut out: Vec<DbItem> = Vec::new();
    let mut i: usize = 0;
    while i < items.len()
        invariant
            i <= items@.len(),
            out@.len() == i,
            forall|k: int| 0 <= k < i ==> grouped(#[trigger] out@[k], items@[k], links@, items_dir@),
        decreases items@.len() - i,
    {
        let row = &items[i];
        let id_text = i64_text(row.id.0);
        let path = join_path(items_dir, id_text.as_str());
        let relationships = relationships_for(links, row.id);
        out.push(DbItem { path, id: row.id, relationships, name: row.name.clone() });
        i = i + 1;
    }
    out
}

/// Index of the first item with the given id, if any.
pub fn item_index(items: &Vec<DbItem>, id: ItemId) -> (r: Option<usize>)
    ensures
        r matches Some(k) ==> k < items@.len() && items@[k as int].id == id
            && forall|j: int| 0 <= j < k ==> items@[j].id != id,
        r is None <==> forall|j: int| 0 <= j < items@.len() ==> items@[j].id != id,
{
    let mut i: usize = 0;
    while i < items.len()
        invariant
            i <= items@.len(),
            forall|j: int| 0 <= j < i ==> items@[j].id != id,
        decreases items@.len() - i,
    {
        if items[i].id == id {
            return Some(i);
        }
        i = i + 1;
    }
    None
}

/// The first item with the given id, taken out of the list.
pub fn get_item_by_id(items: Vec<DbItem>, id: ItemId) -> (r: Option<DbItem>)
    ensures
        r matches Some(item) ==> exists|k: int| 0 <= k < items@.len() && items@[k] == item
            && item.id == id && forall|j: int| 0 <= j < k ==> items@[j].id != id,
        r is None <==> forall|j: int| 0 <= j < items@.len() ==> items@[j].id != id,
{
    let mut items = items;
    match item_index(&items, id) {
        Some(k) => Some(items.remove(k)),
        None => None,
    }
}

/// Whether `name` is one of the relationship's two labels.
pub open spec fn uses_name(rel: Relationship, name: Seq<char>) -> bool {
    rel.from_name@ == name || rel.to_name@ == name
}

/// Whether a relationship shares a name slot with the pair `(from, to)`.
pub open spec fn clashes(rel: Relationship, from: Seq<char>, to: Seq<char>) -> bool {
    uses_name(rel, from) || uses_name(rel, to)
}

/// Every name slot of every relationship is distinct from every other.
pub open spec fn name_slots_unique(rels: Seq<Relationship>) -> bool {
    &&& forall|i: int| 0 <= i < rels.len() ==> (#[trigger] rels[i]).from_name@ != rels[i].to_name@
    &&& forall|i: int, j: int|
        0 <= i < rels.len() && 0 <= j < rels.len() && i != j ==> !clashes(
            #[trigger] rels[i],
            (#[trigger] rels[j]).from_name@,
            rels[j].to_name@,
        )
}

/// The first relationship that already uses `from_name` or `to_name` in
/// either of its slots.
pub fn find_relationship(relationships: &Vec<Relationship>, from_name: &str, to_name: &str) -> (r:
    Option<RelationshipId>)
    ensures
        r is None <==> forall|k: int| 0 <= k < relationships@.len() ==> !clashes(#[trigger] relationships@[k], from_name@, to_name@),
        r matches Some(id) ==> exists|k: int| 0 <= k < relationships@.len() && relationships@[k].id == id
            && clashes(relationships@[k], from_name@, to_name@),
{
    let mut i: usize = 0;
    while i < relationships.len()
        invariant
            i <= relationships@.len(),
            forall|k: int| 0 <= k < i ==> !clashes(#[trigger] relationships@[k], from_name@, to_name@),
        decreases relationships@.len() - i,
    {
        let rel = &relationships[i];
        let from_slot = rel.from_name.as_str();
        let to_slot = rel.to_name.as_str();
        if str_eq(from_slot, from_name) || str_eq(to_slot, from_name) || str_eq(from_slot, to_name)
            || str_eq(to_slot, to_name) {
            return Some(rel.id);
        }
        i = i + 1;
    }
    None
}

/// Decides whether a relationship `(from_name, to_name)` may be added: it is
/// refused with the clashing relationship's id when a slot is taken.
pub fn check_new_relationship(relationships: &Vec<Relationship>, from_name: &str, to_name: &str) -> (r:
    Result<(), AddRelationshipError>)
    ensures
        r is Ok <==> forall|k: int| 0 <= k < relationships@.len() ==> !clashes(#[trigger] relationships@[k], from_name@, to_name@),
        r matches Err(AddRelationshipError::AlreadyExists(id)) ==> exists|k: int|
            0 <= k < relationships@.len() && relationships@[k].id == id && clashes(relationships@[k], from_name@, to_name@),
{
    match find_relationship(relationships, from_name, to_name) {
        Some(id) => Err(AddRelationshipError::AlreadyExists(id)),
        None => Ok(()),
    }
}

/// A relationship accepted by the name-slot check keeps every name slot of
/// the store unique, provided its own two labels differ.
pub proof fn lemma_added_relationship_keeps_slots_unique(
    rels: Seq<Relationship>,
    added: Relationship,
)
    requires
        name_slots_unique(rels),
        added.from_name@ != added.to_name@,
        forall|k: int| 0 <= k < rels.len() ==> !clashes(#[trigger] rels[k], added.from_name@, added.to_name@),
    ensures
        name_slots_unique(rels.push(added)),
{
    let all = rels.push(added);
    assert forall|i: int, j: int|
        0 <= i < all.len() && 0 <= j < all.len() && i != j implies !clashes(
        #[trigger] all[i],
        (#[trigger] all[j]).from_name@,
        all[j].to_name@,
    ) by {
        if i == rels.len() {
            assert(!clashes(rels[j], added.from_name@, added.to_name@));
        } else if j == rels.len() {
            assert(!clashes(rels[i], added.from_name@, added.to_name@));
        } else {
            assert(all[i] == rels[i] && all[j] == rels[j]);
        }
    }
    assert forall|i: int| 0 <= i < all.len() implies (#[trigger] all[i]).from_name@ != all[i].to_name@ by {
        if i < rels.len() {
            assert(all[i] == rels[i]);
        }
    }
}

/// Index of the first relationship with the given id.
pub fn relationship_index(relationships: &Vec<Relationship>, id: RelationshipId) -> (r: Option<usize>)
    ensures
        r matches Some(k) ==> k < relationships@.len() && relationships@[k as int].id == id
            && forall|j: int| 0 <= j < k ==> relationships@[j].id != id,
        r is None <==> forall|j: int| 0 <= j < relationships@.len() ==> relationships@[j].id != id,
{
    let mut i: usize = 0;
    while i < relationships.len()
        invariant
            i <= relationships@.len(),
            forall|j: int| 0 <= j < i ==> relationships@[j].id != id,
        decreases relationships@.len() - i,
    {
        if relationships[i].id == id {
            return Some(i);
        }
        i = i + 1;
    }
    None
}

/// The relationship with the given id, if it exists.
pub fn get_relationship(relationships: &Vec<Relationship>, id: RelationshipId) -> (r: Option<Relationship>)
    ensures
        r matches Some(rel) ==> exists|k: int| 0 <= k < relationships@.len()
            && relationships@[k].id == id && rel.id == id
            && rel.from_name@ == relationships@[k].from_name@ && rel.to_name@ == relationships@[k].to_name@,
        r is None <==> forall|j: int| 0 <= j < relationships@.len() ==> relationships@[j].id != id,
{
    match relationship_index(relationships, id) {
        Some(k) => {
            let rel = &relationships[k];
            Some(Relationship { from_name: rel.from_name.clone(), to_name: rel.to_name.clone(), id: rel.id })
        },
        None => None,
    }
}

/// The three kinds of condition, each stored in a table of its own.
#[derive(Clone, Copy, Debug, PartialEq, Eq, Structural)]
pub enum ConditionKind {
    NoRelationship,
    HasRelationshipWithVariableItem,
    NoRelationshipWithSpecificItem,
}

/// The conditions of one kind stored for a condition set, in row order.
pub open spec fn stored_conditions(
    rows: Seq<(i64, i64, i64)>,
    kind: ConditionKind,
) -> Seq<Condition> {
    Seq::new(rows.len(), |k: int| rebuilt(rows[k], kind))
}

/// Whether a stored side is valid.
pub open spec fn valid_side(n: i64) -> bool {
    n == 0 || n == 1
}

/// The side stored as `n`.
pub open spec fn side_of(n: i64) -> RelationshipSide {
    if n == 0 {
        RelationshipSide::Source
    } else {
        RelationshipSide::Dest
    }
}

/// A condition of the given kind, rebuilt from a row holding
/// `(item_id, side, relationship_id)` (the item id is unused but for the
/// specific-item kind).
pub open spec fn rebuilt(row: (i64, i64, i64), kind: ConditionKind) -> Condition {
    match kind {
        ConditionKind::NoRelationship => Condition::NoRelationship(side_of(row.1), RelationshipId(row.2)),
        ConditionKind::HasRelationshipWithVariableItem => Condition::HasRelationshipWithVariableItem(
            side_of(row.1),
            RelationshipId(row.2),
        ),
        ConditionKind::NoRelationshipWithSpecificItem => Condition::NoRelationshipWithSpecificItem(
            ItemId(row.0),
            side_of(row.1),
            RelationshipId(row.2),
        ),
    }
}

/// Rebuilds the conditions of one kind from their rows
/// `(item_id, side, relationship_id)`; a row with a side other than 0 or 1
/// is an error.
pub fn load_conditions(rows: &Vec<(i64, i64, i64)>, kind: ConditionKind) -> (r: Result<
    Vec<Condition>,
    GetFiltersError,
>)
    ensures
        r is Ok <==> forall|k: int| 0 <= k < rows@.len() ==> valid_side(#[trigger] rows@[k].1),
        r matches Ok(v) ==> v@ == stored_conditions(rows@, kind),
        r matches Err(e) ==> e == GetFiltersError::InvalidRelationshipSide(ParseRelationshipSideError),
{
    let mut out: Vec<Condition> = Vec::new();
    let mut i: usize = 0;
    while i < rows.len()
        invariant
            i <= rows@.len(),
            out@.len() == i,
            forall|k: int| 0 <= k < i ==> valid_side(#[trigger] rows@[k].1),
            forall|k: int| 0 <= k < i ==> #[trigger] out@[k] == rebuilt(rows@[k], kind),
        decreases rows@.len() - i,
    {
        let (item, side_number, rel) = rows[i];
        let side = match RelationshipSide::from_i64(side_number) {
            Ok(s) => s,
            Err(e) => {
                return Err(GetFiltersError::InvalidRelationshipSide(e));
            },
        };
        let c = match kind {
            ConditionKind::NoRelationship => Condition::NoRelationship(side, RelationshipId(rel)),
            ConditionKind::HasRelationshipWithVariableItem => Condition::HasRelationshipWithVariableItem(
                side,
                RelationshipId(rel),
            ),
            ConditionKind::NoRelationshipWithSpecificItem => Condition::NoRelationshipWithSpecificItem(
                ItemId(item),
                side,
                RelationshipId(rel),
            ),
        };
        out.push(c);
        i = i + 1;
    }
    assert(out@ =~= stored_conditions(rows@, kind));
    Ok(out)
}


/// A condition set rebuilt from its row and the rows of its three kinds of
/// condition: no-relationship conditions first, then variable-item ones, then
/// specific-item ones.
pub fn condition_set_from_rows(
    id: ConditionSetId,
    name: String,
    no_relationship: &Vec<(i64, i64, i64)>,
    variable_item: &Vec<(i64, i64, i64)>,
    specific_item: &Vec<(i64, i64, i64)>,
) -> (r: Result<ConditionSet, GetFiltersError>)
    ensures
        r is Ok <==> {
            &&& forall|k: int| 0 <= k < no_relationship@.len() ==> valid_side(#[trigger] no_relationship@[k].1)
            &&& forall|k: int| 0 <= k < variable_item@.len() ==> valid_side(#[trigger] variable_item@[k].1)
            &&& forall|k: int| 0 <= k < specific_item@.len() ==> valid_side(#[trigger] specific_item@[k].1)
        },
        r matches Ok(set) ==> set.id == id && set.name == name && set.rules@ == stored_conditions(
            no_relationship@,
            ConditionKind::NoRelationship,
        ) + stored_conditions(variable_item@, ConditionKind::HasRelationshipWithVariableItem)
            + stored_conditions(specific_item@, ConditionKind::NoRelationshipWithSpecificItem),
{
    let mut rules = load_conditions(no_relationship, ConditionKind::NoRelationship)?;
    let mut variable = load_conditions(variable_item, ConditionKind::HasRelationshipWithVariableItem)?;
    let mut specific = load_conditions(specific_item, ConditionKind::NoRelationshipWithSpecificItem)?;
    rules.append(&mut variable);
    rules.append(&mut specific);
    Ok(ConditionSet { id, name, rules })
}

/// The condition sets whose id is among `ids`, in the order given.
pub open spec fn kept_sets(sets: Seq<ConditionSet>, ids: Seq<ConditionSetId>) -> Seq<ConditionSet>
    decreases sets.len(),
{
    if sets.len() == 0 {
        Seq::empty()
    } else {
        let prev = kept_sets(sets.drop_last(), ids);
        if ids.contains(sets.last().id) {
            prev.push(sets.last())
        } else {
            prev
        }
    }
}

fn contains_set_id(ids: &Vec<ConditionSetId>, id: ConditionSetId) -> (r: bool)
    ensures
        r == ids@.contains(id),
{
    let mut i: usize = 0;
    while i < ids.len()
        invariant
            i <= ids@.len(),
            forall|k: int| 0 <= k < i ==> ids@[k] != id,
        decreases ids@.len() - i,
    {
        if ids[i] == id {
            return true;
        }
        i = i + 1;
    }
    false
}

/// Keeps the condition sets that are root filters (their id is in
/// `root_filter_ids`), in order.
pub fn get_root_filters(sets: Vec<ConditionSet>, root_filter_ids: &Vec<ConditionSetId>) -> (r: Vec<
    ConditionSet,
>)
    ensures
        r@ == kept_sets(sets@, root_filter_ids@),
{
    let ghost all = sets@;
    let mut sets = sets;
    let mut out: Vec<ConditionSet> = Vec::new();
    let ghost mut taken: int = 0;
    while sets.len() > 0
        invariant
            0 <= taken <= all.len(),
            sets@ == all.subrange(taken, all.len() as int),
            out@ == kept_sets(all.subrange(0, taken), root_filter_ids@),
        decreases sets@.len(),
    {
        let set = sets.remove(0);
        let keep = contains_set_id(root_filter_ids, set.id);
        proof {
            let next = all.subrange(0, taken + 1);
            assert(next.drop_last() =~= all.subrange(0, taken));
            assert(next.last() == set);
            taken = taken + 1;
            assert(sets@ =~= all.subrange(taken, all.len() as int));
        }
        if keep {
            out.push(set);
        }
    }
    assert(all.subrange(0, all.len() as int) =~= all);
    out
}

fn copy_conditions(v: &Vec<Condition>) -> (r: Vec<Condition>)
    ensures
        r@ == v@,
{
    let mut out: Vec<Condition> = Vec::new();
    let mut i: usize = 0;
    while i < v.len()
        invariant
            i <= v@.len(),
            out@ == v@.subrange(0, i as int),
        decreases v@.len() - i,
    {
        out.push(v[i]);
        i = i + 1;
        assert(out@ =~= v@.subrange(0, i as int));
    }
    assert(v@.subrange(0, v@.len() as int) =~= v@);
    out
}

fn set_index(sets: &Vec<ConditionSet>, id: ConditionSetId) -> (r: Option<usize>)
    ensures
        r matches Some(k) ==> k < sets@.len() && sets@[k as int].id == id
            && forall|j: int| 0 <= j < k ==> sets@[j].id != id,
        r is None <==> forall|j: int| 0 <= j < sets@.len() ==> sets@[j].id != id,
{
    let mut i: usize = 0;
    while i < sets.len()
        invariant
            i <= sets@.len(),
            forall|j: int| 0 <= j < i ==> sets@[j].id != id,
        decreases sets@.len() - i,
    {
        if sets[i].id == id {
            return Some(i);
        }
        i = i + 1;
    }
    None
}

/// Some condition set has the given id.
pub open spec fn has_set(sets: Seq<ConditionSet>, id: ConditionSetId) -> bool {
    exists|j: int| 0 <= j < sets.len() && sets[j].id == id
}

/// `filter` is built from the pair `(condition, filter)` of an item-filter
/// row, with the name and conditions of the first condition set whose id is
/// `condition`.
pub open spec fn built_item_filter(
    filter: ItemFilter,
    pair: (ConditionSetId, ConditionSetId),
    sets: Seq<ConditionSet>,
) -> bool {
    exists|k: int|
        0 <= k < sets.len() && sets[k].id == pair.0 && (forall|j: int| 0 <= j < k ==> sets[j].id != pair.0)
            && filter.to_run == pair.1 && filter.name == sets[k].name
            && filter.conditions@ == sets[k].rules@
}

/// Builds the item filters from the `(condition, filter)` rows of
/// `item_filters`; a row whose condition set is missing is an error.
pub fn get_item_filters(pairs: &Vec<(ConditionSetId, ConditionSetId)>, sets: &Vec<ConditionSet>) -> (r:
    Result<Vec<ItemFilter>, GetConditionalFiltersError>)
    ensures
        r is Ok <==> forall|k: int| 0 <= k < pairs@.len() ==> has_set(sets@, (#[trigger] pairs@[k]).0),
        r matches Ok(v) ==> v@.len() == pairs@.len() && forall|k: int|
            0 <= k < pairs@.len() ==> built_item_filter(#[trigger] v@[k], pairs@[k], sets@),
        r matches Err(e) ==> e == GetConditionalFiltersError::MatchId,
{
    let mut out: Vec<ItemFilter> = Vec::new();
    let mut i: usize = 0;
    while i < pairs.len()
        invariant
            i <= pairs@.len(),
            out@.len() == i,
            forall|k: int| 0 <= k < i ==> has_set(sets@, (#[trigger] pairs@[k]).0),
            forall|k: int| 0 <= k < i ==> built_item_filter(#[trigger] out@[k], pairs@[k], sets@),
        decreases pairs@.len() - i,
    {
        let (condition_id, to_run) = pairs[i];
        match set_index(sets, condition_id) {
            None => {
                assert(!has_set(sets@, pairs@[i as int].0));
                return Err(GetConditionalFiltersError::MatchId);
            },
            Some(k) => {
                let set = &sets[k];
                let filter = ItemFilter {
                    to_run,
                    name: set.name.clone(),
                    conditions: copy_conditions(&set.rules),
                };
                assert(built_item_filter(filter, pairs@[i as int], sets@));
                out.push(filter);
            },
        }
        i = i + 1;
    }
    Ok(out)
}

/// Entry `e` of an item's relationships leads through `rel`, with the item on
/// `side`, to an item of `items` named `name`.
pub open spec fn leads_to_named(
    e: ItemRelationship,
    side: RelationshipSide,
    rel: RelationshipId,
    target: DbItem,
    name: Seq<char>,
) -> bool {
    e.id == rel && e.side == side && target.id == e.sibling && target.name@ == name
}

/// `x` is a sibling named `name` of item `id` through relationship `rel`,
/// with `id` on `side`.
pub open spec fn is_sibling(
    items: Seq<DbItem>,
    id: ItemId,
    side: RelationshipSide,
    rel: RelationshipId,
    name: Seq<char>,
    x: ItemId,
) -> bool {
    exists|u: int, k: int, t: int|
        0 <= u < items.len() && 0 <= k < items[u].relationships@.len() && 0 <= t < items.len()
            && items[u].id == id && leads_to_named(
            #[trigger] items[u].relationships@[k],
            side,
            rel,
            #[trigger] items[t],
            name,
        ) && items[t].id == x
}

fn item_named(items: &Vec<DbItem>, x: ItemId, name: &str) -> (r: bool)
    ensures
        r == exists|t: int| 0 <= t < items@.len() && #[trigger] items@[t].id == x && items@[t].name@ == name@,
{
    let mut i: usize = 0;
    while i < items.len()
        invariant
            i <= items@.len(),
            forall|t: int| 0 <= t < i ==> !(#[trigger] items@[t].id == x && items@[t].name@ == name@),
        decreases items@.len() - i,
    {
        if items[i].id == x && str_eq(items[i].name.as_str(), name) {
            return true;
        }
        i = i + 1;
    }
    false
}

/// Resolves a link name in a relationship directory: the sibling named
/// `sibling_name` of item `id` through relationship `relationship_id`, with
/// `id` on `side`. Two different siblings of one name would be a corrupt
/// store, and are excluded.
pub fn get_sibling_id(
    items: &Vec<DbItem>,
    id: ItemId,
    side: RelationshipSide,
    relationship_id: RelationshipId,
    sibling_name: &str,
) -> (r: Option<ItemId>)
    requires
        forall|x: ItemId, y: ItemId|
            is_sibling(items@, id, side, relationship_id, sibling_name@, x) && is_sibling(
                items@,
                id,
                side,
                relationship_id,
                sibling_name@,
                y,
            ) ==> x == y,
    ensures
        r is None <==> forall|x: ItemId| !is_sibling(items@, id, side, relationship_id, sibling_name@, x),
        r matches Some(x) ==> is_sibling(items@, id, side, relationship_id, sibling_name@, x),
{
    let mut u: usize = 0;
    while u < items.len()
        invariant
            u <= items@.len(),
            forall|uu: int, k: int, t: int|
                0 <= uu < u && 0 <= k < items@[uu].relationships@.len() && 0 <= t < items@.len()
                    && items@[uu].id == id ==> !leads_to_named(
                    #[trigger] items@[uu].relationships@[k],
                    side,
                    relationship_id,
                    #[trigger] items@[t],
                    sibling_name@,
                ),
        decreases items@.len() - u,
    {
        if items[u].id == id {
            let rels = &items[u].relationships;
            let mut k: usize = 0;
            while k < rels.len()
                invariant
                    u < items@.len(),
                    rels@ == items@[u as int].relationships@,
                    items@[u as int].id == id,
                    k <= rels@.len(),
                    forall|kk: int, t: int|
                        0 <= kk < k && 0 <= t < items@.len() ==> !leads_to_named(
                            #[trigger] rels@[kk],
                            side,
                            relationship_id,
                            #[trigger] items@[t],
                            sibling_name@,
                        ),
                decreases rels@.len() - k,
            {
                let entry = rels[k];
                if entry.id == relationship_id && entry.side == side && item_named(
                    items,
                    entry.sibling,
                    sibling_name,
                ) {
                    proof {
                        let t = choose|t: int|
                            0 <= t < items@.len() && #[trigger] items@[t].id == entry.sibling
                                && items@[t].name@ == sibling_name@;
                        assert(leads_to_named(
                            items@[u as int].relationships@[k as int],
                            side,
                            relationship_id,
                            items@[t],
                            sibling_name@,
                        ));
                        assert(is_sibling(items@, id, side, relationship_id, sibling_name@, entry.sibling));
                    }
                    return Some(entry.sibling);
                }
                k = k + 1;
            }
        }
        u = u + 1;
    }
    None
}


/// Every sibling named `sibling_name` of item `id` through `relationship_id`
/// with `id` on `side`, once per item-relationship that reaches it.
pub fn sibling_ids(
    items: &Vec<DbItem>,
    id: ItemId,
    side: RelationshipSide,
    relationship_id: RelationshipId,
    sibling_name: &str,
) -> (r: Vec<ItemId>)
    ensures
        forall|x: ItemId| r@.contains(x) <==> is_sibling(items@, id, side, relationship_id, sibling_name@, x),
{
    let mut out: Vec<ItemId> = Vec::new();
    let mut u: usize = 0;
    while u < items.len()
        invariant
            u <= items@.len(),
            forall|x: ItemId| out@.contains(x) ==> is_sibling(items@, id, side, relationship_id, sibling_name@, x),
            forall|uu: int, k: int, t: int|
                0 <= uu < u && 0 <= k < items@[uu].relationships@.len() && 0 <= t < items@.len()
                    && items@[uu].id == id && leads_to_named(
                    #[trigger] items@[uu].relationships@[k],
                    side,
                    relationship_id,
                    #[trigger] items@[t],
                    sibling_name@,
                ) ==> out@.contains(items@[t].id),
        decreases items@.len() - u,
    {
        if items[u].id == id {
            let rels = &items[u].relationships;
            let mut k: usize = 0;
            while k < rels.len()
                invariant
                    u < items@.len(),
                    rels@ == items@[u as int].relationships@,
                    items@[u as int].id == id,
                    k <= rels@.len(),
                    forall|x: ItemId| out@.contains(x) ==> is_sibling(items@, id, side, relationship_id, sibling_name@, x),
                    forall|uu: int, kk: int, t: int|
                        0 <= uu < u && 0 <= kk < items@[uu].relationships@.len() && 0 <= t < items@.len()
                            && items@[uu].id == id && leads_to_named(
                            #[trigger] items@[uu].relationships@[kk],
                            side,
                            relationship_id,
                            #[trigger] items@[t],
                            sibling_name@,
                        ) ==> out@.contains(items@[t].id),
                    forall|kk: int, t: int|
                        0 <= kk < k && 0 <= t < items@.len() && leads_to_named(
                            #[trigger] rels@[kk],
                            side,
                            relationship_id,
                            #[trigger] items@[t],
                            sibling_name@,
                        ) ==> out@.contains(items@[t].id),
                decreases rels@.len() - k,
            {
                let entry = rels[k];
                if entry.id == relationship_id && entry.side == side && item_named(items, entry.sibling, sibling_name) {
                    proof {
                        let t = choose|t: int|
                            0 <= t < items@.len() && #[trigger] items@[t].id == entry.sibling
                                && items@[t].name@ == sibling_name@;
                        assert(leads_to_named(rels@[k as int], side, relationship_id, items@[t], sibling_name@));
                        assert(is_sibling(items@, id, side, relationship_id, sibling_name@, entry.sibling));
                    }
                    let ghost before = out@;
                    out.push(entry.sibling);
                    proof {
                        assert(out@.last() == entry.sibling);
                        assert forall|x: ItemId| out@.contains(x) implies is_sibling(
                            items@,
                            id,
                            side,
                            relationship_id,
                            sibling_name@,
                            x,
                        ) by {
                            let i = choose|i: int| 0 <= i < out@.len() && out@[i] == x;
                            if i < before.len() {
                                assert(before[i] == x);
                                assert(before.contains(x));
                            }
                        }
                        assert forall|y: ItemId| before.contains(y) implies out@.contains(y) by {
                            let i = choose|i: int| 0 <= i < before.len() && before[i] == y;
                            assert(out@[i] == y);
                        }
                    }
                } else {
                    proof {
                        assert forall|t: int|
                            0 <= t < items@.len() && leads_to_named(
                                rels@[k as int],
                                side,
                                relationship_id,
                                #[trigger] items@[t],
                                sibling_name@,
                            ) implies false by {
                            assert(items@[t].id == entry.sibling && items@[t].name@ == sibling_name@);
                        }
                    }
                }
                k = k + 1;
            }
        }
        u = u + 1;
    }
    proof {
        assert forall|x: ItemId| is_sibling(items@, id, side, relationship_id, sibling_name@, x) implies out@.contains(
            x,
        ) by {
            let (uu, k, t) = choose|uu: int, k: int, t: int|
                0 <= uu < items@.len() && 0 <= k < items@[uu].relationships@.len() && 0 <= t < items@.len()
                    && items@[uu].id == id && leads_to_named(
                    #[trigger] items@[uu].relationships@[k],
                    side,
                    relationship_id,
                    #[trigger] items@[t],
                    sibling_name@,
                ) && items@[t].id == x;
        }
    }
    out
}

} // verus!
