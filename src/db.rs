//! The store's value objects: identifiers, relationships, conditions and
//! condition sets, and the SQL that a condition list compiles to.
use crate::text::{i64_text, int_text, str_eq};
use vstd::prelude::*;
use vstd::string::*;

verus! {

/// Identifier of an item (a row of `files`).
#[derive(Clone, Copy, Debug, PartialEq, Eq, Structural)]
pub struct ItemId(pub i64);

/// Identifier of a relationship type.
#[derive(Clone, Copy, Debug, PartialEq, Eq, Hash, Structural)]
pub struct RelationshipId(pub i64);

/// Which end of an item-relationship an item stands on.
#[derive(Clone, Copy, Debug, PartialEq, Eq, Hash, Structural)]
pub enum RelationshipSide {
    Source,
    Dest,
}

/// A stored or textual side that is neither source nor dest.
#[derive(Clone, Copy, Debug, PartialEq, Eq, Structural)]
pub struct ParseRelationshipSideError;

/// The integer under which a side is stored.
pub open spec fn side_number(side: RelationshipSide) -> i64 {
    match side {
        RelationshipSide::Source => 0,
        RelationshipSide::Dest => 1,
    }
}

/// The wire name of a side.
pub open spec fn side_name(side: RelationshipSide) -> Seq<char> {
    match side {
        RelationshipSide::Source => "source"@,
        RelationshipSide::Dest => "dest"@,
    }
}

impl RelationshipSide {
    /// Reads a stored side: 0 is source, 1 is dest, anything else is an error.
    pub fn from_i64(num: i64) -> (r: Result<RelationshipSide, ParseRelationshipSideError>)
        ensures
            num == 0 <==> r == Ok::<RelationshipSide, ParseRelationshipSideError>(RelationshipSide::Source),
            num == 1 <==> r == Ok::<RelationshipSide, ParseRelationshipSideError>(RelationshipSide::Dest),
            (num != 0 && num != 1) <==> r is Err,
            r matches Ok(s) ==> side_number(s) == num,
    {
        if num == 0 {
            Ok(RelationshipSide::Source)
        } else if num == 1 {
            Ok(RelationshipSide::Dest)
        } else {
            Err(ParseRelationshipSideError)
        }
    }

    /// The integer under which this side is stored.
    pub fn as_i64(&self) -> (r: i64)
        ensures
            r == side_number(*self),
    {
        match self {
            RelationshipSide::Source => 0,
            RelationshipSide::Dest => 1,
        }
    }

    /// The wire name of this side: `source` or `dest`.
    pub fn as_str(&self) -> (r: &'static str)
        ensures
            r@ == side_name(*self),
    {
        match self {
            RelationshipSide::Source => "source",
            RelationshipSide::Dest => "dest",
        }
    }

    /// Parses a wire name: `source` or `dest`.
    pub fn parse(s: &str) -> (r: Result<RelationshipSide, ParseRelationshipSideError>)
        ensures
            s@ == side_name(RelationshipSide::Source) <==> r == Ok::<RelationshipSide, ParseRelationshipSideError>(RelationshipSide::Source),
            s@ == side_name(RelationshipSide::Dest) <==> r == Ok::<RelationshipSide, ParseRelationshipSideError>(RelationshipSide::Dest),
            r matches Ok(side) ==> side_name(side) == s@,
    {
        proof {
            reveal_strlit("source");
            reveal_strlit("dest");
            assert("source"@.len() != "dest"@.len());
        }
        if str_eq(s, "source") {
            Ok(RelationshipSide::Source)
        } else if str_eq(s, "dest") {
            Ok(RelationshipSide::Dest)
        } else {
            Err(ParseRelationshipSideError)
        }
    }
}

/// A relationship type and the labels of its two sides.
#[derive(Clone, Debug)]
pub struct Relationship {
    pub from_name: String,
    pub to_name: String,
    pub id: RelationshipId,
}

/// One item-relationship seen from one of its items.
#[derive(Clone, Copy, Debug, PartialEq, Eq, Structural)]
pub struct ItemRelationship {
    pub id: RelationshipId,
    pub side: RelationshipSide,
    pub sibling: ItemId,
}

/// A predicate over items.
#[derive(Clone, Copy, Debug, PartialEq, Eq, Structural)]
pub enum Condition {
    NoRelationship(RelationshipSide, RelationshipId),
    HasRelationshipWithVariableItem(RelationshipSide, RelationshipId),
    NoRelationshipWithSpecificItem(ItemId, RelationshipSide, RelationshipId),
}

/// Identifier of a condition set.
#[derive(Clone, Copy, Debug, PartialEq, Eq, Structural)]
pub struct ConditionSetId(pub i64);

/// A named, ordered list of conditions, combined by AND.
#[derive(Clone, Debug)]
pub struct ConditionSet {
    pub id: ConditionSetId,
    pub name: String,
    pub rules: Vec<Condition>,
}

/// A filter that applies in the context of an item: when `conditions` hold
/// for the item, the condition set `to_run` lists items for it.
#[derive(Clone, Debug)]
pub struct ItemFilter {
    pub to_run: ConditionSetId,
    pub name: String,
    pub conditions: Vec<Condition>,
}

impl ItemFilter {
    pub fn filter_to_run(&self) -> (r: ConditionSetId)
        ensures
            r == self.to_run,
    {
        self.to_run
    }

    pub fn name(&self) -> (r: &str)
        ensures
            r@ == self.name@,
    {
        self.name.as_str()
    }

    pub fn conditions(&self) -> (r: &Vec<Condition>)
        ensures
            r@ == self.conditions@,
    {
        &self.conditions
    }

    /// Whether the item is among `selected`, the ids that running this
    /// filter's conditions in the item's context returned.
    pub fn matches(&self, item_id: ItemId, selected: &Vec<ItemId>) -> (r: bool)
        ensures
            r == selected@.contains(item_id),
    {
        let mut i: usize = 0;
        while i < selected.len()
            invariant
                i <= selected@.len(),
                forall|k: int| 0 <= k < i ==> selected@[k] != item_id,
            decreases selected@.len() - i,
        {
            if selected[i] == item_id {
                return true;
            }
            i = i + 1;
        }
        false
    }
}

/// An item with its item-relationships and content directory.
#[derive(Clone, Debug)]
pub struct DbItem {
    pub path: String,
    pub id: ItemId,
    pub relationships: Vec<ItemRelationship>,
    pub name: String,
}

/// The join condition that puts `files` on the given side.
pub open spec fn side_condition(side: RelationshipSide) -> Seq<char> {
    match side {
        RelationshipSide::Dest => "item_relationships.to_id = files.id"@,
        RelationshipSide::Source => "item_relationships.from_id = files.id"@,
    }
}

/// The column holding the item on the other side.
pub open spec fn other_side_column(side: RelationshipSide) -> Seq<char> {
    match side {
        RelationshipSide::Dest => "item_relationships.from_id"@,
        RelationshipSide::Source => "item_relationships.to_id"@,
    }
}

/// Items joined to an item-relationship of type `rel` on `side`.
pub open spec fn related_subquery(side: RelationshipSide, rel: RelationshipId) -> Seq<char> {
    "(SELECT files.id FROM files JOIN item_relationships ON "@ + side_condition(side)
        + " AND relationship_id = "@ + int_text(rel.0 as int)
}

/// Whether a condition can be rendered with the given context item.
pub open spec fn renderable(c: Condition, context: Option<ItemId>) -> bool {
    c is HasRelationshipWithVariableItem ==> context is Some
}

/// The SQL predicate on `files.id` of a condition.
pub open spec fn condition_sql(c: Condition, context: Option<ItemId>) -> Seq<char> {
    match c {
        Condition::NoRelationship(side, rel) => "files.id not in "@ + related_subquery(side, rel)
            + ")"@,
        Condition::HasRelationshipWithVariableItem(side, rel) => "files.id in "@
            + related_subquery(side, rel) + " AND "@ + other_side_column(side) + " = "@
            + int_text(context->Some_0.0 as int) + ")"@,
        Condition::NoRelationshipWithSpecificItem(item, side, rel) => "files.id not in "@
            + related_subquery(side, rel) + " AND "@ + other_side_column(side) + " = "@
            + int_text(item.0 as int) + ")"@,
    }
}

/// The query selecting the ids of all items that satisfy every condition.
pub open spec fn filter_query_spec(cs: Seq<Condition>, context: Option<ItemId>) -> Seq<char>
    decreases cs.len(),
{
    if cs.len() == 0 {
        "SELECT files.id FROM files "@
    } else {
        let joiner = if cs.len() == 1 {
            "WHERE ("@
        } else {
            "AND ("@
        };
        filter_query_spec(cs.drop_last(), context) + joiner + condition_sql(cs.last(), context)
            + ") "@
    }
}

/// An empty condition list compiles to the unfiltered select of every item
/// id; a single no-relationship condition compiles to one `WHERE` clause
/// that keeps the items absent from the matching item-relationship rows.
pub proof fn lemma_filter_query_shapes(side: RelationshipSide, rel: RelationshipId, context: Option<ItemId>)
    ensures
        filter_query_spec(Seq::empty(), context) == "SELECT files.id FROM files "@,
        filter_query_spec(seq![Condition::NoRelationship(side, rel)], context) == "SELECT files.id FROM files "@
            + "WHERE ("@ + "files.id not in "@ + related_subquery(side, rel) + ")"@ + ") "@,
{
    let one = seq![Condition::NoRelationship(side, rel)];
    assert(one.drop_last() =~= Seq::<Condition>::empty());
    assert(one.len() == 1);
    assert(one.last() == Condition::NoRelationship(side, rel));
    assert(filter_query_spec(one.drop_last(), context) == "SELECT files.id FROM files "@);
    assert(filter_query_spec(one, context) == "SELECT files.id FROM files "@ + "WHERE ("@ + condition_sql(
        Condition::NoRelationship(side, rel),
        context,
    ) + ") "@);
    assert(filter_query_spec(one, context) =~= "SELECT files.id FROM files "@ + "WHERE ("@
        + "files.id not in "@ + related_subquery(side, rel) + ")"@ + ") "@);
}

fn side_condition_str(side: RelationshipSide) -> (r: &'static str)
    ensures
        r@ == side_condition(side),
{
    match side {
        RelationshipSide::Dest => "item_relationships.to_id = files.id",
        RelationshipSide::Source => "item_relationships.from_id = files.id",
    }
}

fn other_side_column_str(side: RelationshipSide) -> (r: &'static str)
    ensures
        r@ == other_side_column(side),
{
    match side {
        RelationshipSide::Dest => "item_relationships.from_id",
        RelationshipSide::Source => "item_relationships.to_id",
    }
}

fn related_subquery_text(side: RelationshipSide, rel: RelationshipId) -> (r: String)
    ensures
        r@ == related_subquery(side, rel),
{
    let s = String::from_str("(SELECT files.id FROM files JOIN item_relationships ON ");
    let s = s.concat(side_condition_str(side));
    let s = s.concat(" AND relationship_id = ");
    let id = i64_text(rel.0);
    s.concat(id.as_str())
}

impl Condition {
    /// The SQL predicate on `files.id` that this condition renders to; a
    /// variable-item condition takes the context item's id.
    pub fn sql(&self, item_id: Option<ItemId>) -> (r: String)
        requires
            renderable(*self, item_id),
        ensures
            r@ == condition_sql(*self, item_id),
    {
        match self {
            Condition::NoRelationship(side, rel) => {
                let s = String::from_str("files.id not in ");
                let sub = related_subquery_text(*side, *rel);
                let s = s.concat(sub.as_str());
                s.concat(")")
            },
            Condition::HasRelationshipWithVariableItem(side, rel) => {
                let context = match item_id {
                    Some(id) => id,
                    None => ItemId(0),
                };
                let s = String::from_str("files.id in ");
                let sub = related_subquery_text(*side, *rel);
                let s = s.concat(sub.as_str());
                let s = s.concat(" AND ");
                let s = s.concat(other_side_column_str(*side));
                let s = s.concat(" = ");
                let id = i64_text(context.0);
                let s = s.concat(id.as_str());
                s.concat(")")
            },
            Condition::NoRelationshipWithSpecificItem(item, side, rel) => {
                let s = String::from_str("files.id not in ");
                let sub = related_subquery_text(*side, *rel);
                let s = s.concat(sub.as_str());
                let s = s.concat(" AND ");
                let s = s.concat(other_side_column_str(*side));
                let s = s.concat(" = ");
                let id = i64_text(item.0);
                let s = s.concat(id.as_str());
                s.concat(")")
            },
        }
    }
}

/// Compiles a condition list into one query over `files`: no `WHERE` clause
/// for an empty list, otherwise each condition in its own parentheses,
/// joined by `AND`.
pub fn filter_query(conditions: &Vec<Condition>, item_id: Option<ItemId>) -> (r: String)
    requires
        forall|k: int| 0 <= k < conditions@.len() ==> renderable(#[trigger] conditions@[k], item_id),
    ensures
        r@ == filter_query_spec(conditions@, item_id),
{
    let mut query = String::from_str("SELECT files.id FROM files ");
    let mut i: usize = 0;
    while i < conditions.len()
        invariant
            i <= conditions@.len(),
            forall|k: int| 0 <= k < conditions@.len() ==> renderable(#[trigger] conditions@[k], item_id),
            query@ == filter_query_spec(conditions@.subrange(0, i as int), item_id),
        decreases conditions@.len() - i,
    {
        let ghost before = conditions@.subrange(0, i as int);
        let joiner = if i == 0 {
            "WHERE ("
        } else {
            "AND ("
        };
        let sql = conditions[i].sql(item_id);
        query.append(joiner);
        query.append(sql.as_str());
        query.append(") ");
        proof {
            let next = conditions@.subrange(0, i + 1);
            assert(next.drop_last() =~= before);
            assert(next.last() == conditions@[i as int]);
        }
        i = i + 1;
    }
    assert(conditions@.subrange(0, conditions@.len() as int) =~= conditions@);
    query
}

} // verus!
