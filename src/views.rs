//! Facts about what browsing the mount shows: which paths name which
//! entities, and how item-relationships appear from both of their items.
use crate::api::{item_path, relationship_path};
use crate::client::{
    children, distinct_sides, filter_entries, find_named, first_filter, first_item, item_entries,
    host_entries, item_relationship_entries, relationship_entries, tool_entries, first_relationship, items_entries, label_entries,
    label_of, lemma_first_item, lemma_first_relationship, lemma_prefix_step, lemma_resolve_step,
    matched_entries, relationships_entries, resolve, root_entries, sibling_entries, Purpose,
    ReadDirError, Snapshot,
};
use crate::db::{DbItem, ItemId, ItemRelationship, Relationship, RelationshipId, RelationshipSide};
use crate::store::{relationships_of, LinkRow};
use crate::client::{climb, file_contents, link_target};
use crate::text::line_bytes;
use crate::text::{digit_char, int_text, lemma_int_text_ends_in_digit, lemma_int_text_injective};
use vstd::prelude::*;

verus! {

proof fn lemma_find_named_first(es: Seq<(Purpose, Seq<char>)>, name: Seq<char>, k: int)
    requires
        0 <= k < es.len(),
        es[k].1 == name,
        forall|j: int| 0 <= j < k ==> es[j].1 != name,
    ensures
        find_named(es, name) == es[k].0,
    decreases k,
{
    reveal(find_named);
    if k > 0 {
        lemma_find_named_first(es.drop_first(), name, k - 1);
    }
}

/// Where some item has the id, a first one does.
pub proof fn lemma_first_item_exists(items: Seq<DbItem>, id: ItemId, k: int)
    requires
        0 <= k < items.len(),
        items[k].id == id,
    ensures
        first_item(items, id) matches Some(u) && 0 <= u <= k && items[u].id == id && forall|j: int|
            0 <= j < u ==> items[j].id != id,
    decreases k,
{
    if exists|j: int| 0 <= j < k && items[j].id == id {
        let j = choose|j: int| 0 <= j < k && items[j].id == id;
        lemma_first_item_exists(items, id, j);
    } else {
        lemma_first_item(items, id, k);
    }
}

/// Where some relationship has the id, a first one does.
pub proof fn lemma_first_relationship_exists(rels: Seq<Relationship>, id: RelationshipId, k: int)
    requires
        0 <= k < rels.len(),
        rels[k].id == id,
    ensures
        first_relationship(rels, id) matches Some(u) && 0 <= u <= k && rels[u].id == id && forall|j: int|
            0 <= j < u ==> rels[j].id != id,
    decreases k,
{
    if exists|j: int| 0 <= j < k && rels[j].id == id {
        let j = choose|j: int| 0 <= j < k && rels[j].id == id;
        lemma_first_relationship_exists(rels, id, j);
    } else {
        lemma_first_relationship(rels, id, k);
    }
}

proof fn lemma_resolve_top(snap: Snapshot, name: Seq<char>)
    ensures
        resolve(snap, seq![name]) == Ok::<Purpose, ReadDirError>(find_named(root_entries(snap), name)),
{
    let names = seq![name];
    assert(names.subrange(0, 0) =~= Seq::<Seq<char>>::empty());
    assert(resolve(snap, names.subrange(0, 0)) == Ok::<Purpose, ReadDirError>(Purpose::Root)) by {
        reveal(resolve);
    }
    lemma_resolve_step(snap, names, 0);
    assert(children(snap, Purpose::Root, Seq::empty()) == Ok::<Seq<(Purpose, Seq<char>)>, ReadDirError>(root_entries(snap))) by {
        reveal(children);
    }
    assert(names.subrange(0, 1) =~= names);
}

proof fn lemma_resolve_below(snap: Snapshot, a: Seq<char>, b: Seq<char>, parent: Purpose)
    requires
        resolve(snap, seq![a]) == Ok::<Purpose, ReadDirError>(parent),
        !(parent is PassthroughPath),
        children(snap, parent, Seq::empty()) is Ok,
    ensures
        resolve(snap, seq![a, b]) == Ok::<Purpose, ReadDirError>(
            find_named(children(snap, parent, Seq::empty())->Ok_0, b),
        ),
{
    let names = seq![a, b];
    assert(names.subrange(0, 1) =~= seq![a]);
    lemma_resolve_step(snap, names, 1);
    assert(names.subrange(0, 2) =~= names);
}

proof fn lemma_items_dir_finds(items: Seq<DbItem>, id: ItemId)
    requires
        exists|k: int| 0 <= k < items.len() && items[k].id == id,
    ensures
        find_named(items_entries(items), int_text(id.0 as int)) == Purpose::Item(id),
{
    let w = choose|k: int| 0 <= k < items.len() && items[k].id == id;
    lemma_first_item_exists(items, id, w);
    let u = first_item(items, id)->Some_0;
    let es = items_entries(items);
    assert forall|j: int| 0 <= j < u implies es[j].1 != int_text(id.0 as int) by {
        if es[j].1 == int_text(id.0 as int) {
            lemma_int_text_injective(items[j].id.0 as int, id.0 as int);
        }
    }
    lemma_find_named_first(es, int_text(id.0 as int), u);
}

proof fn lemma_relationships_dir_finds(rels: Seq<Relationship>, id: RelationshipId)
    requires
        exists|k: int| 0 <= k < rels.len() && rels[k].id == id,
    ensures
        find_named(relationships_entries(rels), int_text(id.0 as int)) == Purpose::Relationship(id),
{
    let w = choose|k: int| 0 <= k < rels.len() && rels[k].id == id;
    lemma_first_relationship_exists(rels, id, w);
    let u = first_relationship(rels, id)->Some_0;
    let es = relationships_entries(rels);
    assert forall|j: int| 0 <= j < u implies es[j].1 != int_text(id.0 as int) by {
        if es[j].1 == int_text(id.0 as int) {
            lemma_int_text_injective(rels[j].id.0 as int, id.0 as int);
        }
    }
    lemma_find_named_first(es, int_text(id.0 as int), u);
}

/// An item's directory is `/items/<id>`: that path resolves to the item
/// whenever the store holds it.
pub proof fn lemma_item_path_resolves(snap: Snapshot, id: ItemId)
    requires
        exists|k: int| 0 <= k < snap.items@.len() && snap.items@[k].id == id,
    ensures
        item_path(id) == "/"@ + "items"@ + "/"@ + int_text(id.0 as int),
        resolve(snap, seq!["items"@, int_text(id.0 as int)]) == Ok::<Purpose, ReadDirError>(Purpose::Item(id)),
{
    assert(item_path(id) =~= "/"@ + "items"@ + "/"@ + int_text(id.0 as int)) by {
        reveal_strlit("/items/");
        reveal_strlit("/");
        reveal_strlit("items");
    }
    let root = root_entries(snap);
    assert(root[0] == (Purpose::Items, "items"@));
    lemma_find_named_first(root, "items"@, 0);
    lemma_resolve_top(snap, "items"@);
    lemma_items_dir_finds(snap.items@, id);
    assert(children(snap, Purpose::Items, Seq::empty()) == Ok::<Seq<(Purpose, Seq<char>)>, ReadDirError>(
        items_entries(snap.items@),
    )) by {
        reveal(children);
    }
    lemma_resolve_below(snap, "items"@, int_text(id.0 as int), Purpose::Items);
}

/// A relationship's directory is `/relationships/<id>`: that path resolves
/// to the relationship whenever the store holds it.
pub proof fn lemma_relationship_path_resolves(snap: Snapshot, id: RelationshipId)
    requires
        exists|k: int| 0 <= k < snap.relationships@.len() && snap.relationships@[k].id == id,
    ensures
        relationship_path(id) == "/"@ + "relationships"@ + "/"@ + int_text(id.0 as int),
        resolve(snap, seq!["relationships"@, int_text(id.0 as int)]) == Ok::<Purpose, ReadDirError>(
            Purpose::Relationship(id),
        ),
{
    assert(relationship_path(id) =~= "/"@ + "relationships"@ + "/"@ + int_text(id.0 as int)) by {
        reveal_strlit("/relationships/");
        reveal_strlit("/");
        reveal_strlit("relationships");
    }
    let root = root_entries(snap);
    assert(root[0].1 != "relationships"@) by {
        reveal_strlit("relationships");
        reveal_strlit("items");
    }
    assert(root[1] == (Purpose::Relationships, "relationships"@));
    lemma_find_named_first(root, "relationships"@, 1);
    lemma_resolve_top(snap, "relationships"@);
    lemma_relationships_dir_finds(snap.relationships@, id);
    let es = relationships_entries(snap.relationships@);
    assert(children(snap, Purpose::Relationships, Seq::empty()) == Ok::<Seq<(Purpose, Seq<char>)>, ReadDirError>(es)) by {
        reveal(children);
    }
    lemma_resolve_below(snap, "relationships"@, int_text(id.0 as int), Purpose::Relationships);
}


/// Every link among `es` points at an item of `items`.
pub open spec fn links_live(items: Seq<DbItem>, es: Seq<(Purpose, Seq<char>)>) -> bool {
    forall|k: int|
        0 <= k < es.len() && (#[trigger] es[k]).0 is ItemLink ==> exists|t: int|
            0 <= t < items.len() && items[t].id == es[k].0->ItemLink_0
}

proof fn lemma_find_named_member(es: Seq<(Purpose, Seq<char>)>, name: Seq<char>)
    ensures
        find_named(es, name) is Unknown || exists|k: int| 0 <= k < es.len() && es[k].0 == find_named(es, name),
    decreases es.len(),
{
    reveal(find_named);
    if es.len() > 0 && es[0].1 != name {
        lemma_find_named_member(es.drop_first(), name);
        if !(find_named(es, name) is Unknown) {
            let k = choose|k: int| 0 <= k < es.len() - 1 && es.drop_first()[k].0 == find_named(es, name);
            assert(es[k + 1].0 == find_named(es, name));
        }
    }
}

/// Position `k` of the side directories listed for `pairs`.
pub open spec fn label_at(
    rels: Seq<Relationship>,
    id: ItemId,
    pairs: Seq<(RelationshipId, RelationshipSide)>,
    k: int,
) -> bool {
    &&& first_relationship(rels, pairs[k].0) is Some
    &&& label_entries(rels, id, pairs)->Ok_0[k] == (
        Purpose::ItemRelationships(id, pairs[k].0, pairs[k].1),
        label_of(rels[first_relationship(rels, pairs[k].0)->Some_0], pairs[k].1),
    )
}

proof fn lemma_label_entries_shape(rels: Seq<Relationship>, id: ItemId, pairs: Seq<(RelationshipId, RelationshipSide)>)
    requires
        label_entries(rels, id, pairs) is Ok,
    ensures
        label_entries(rels, id, pairs)->Ok_0.len() == pairs.len(),
        forall|k: int| 0 <= k < pairs.len() ==> #[trigger] label_at(rels, id, pairs, k),
    decreases pairs.len(),
{
    reveal(label_entries);
    if pairs.len() > 0 {
        let short = pairs.drop_last();
        lemma_label_entries_shape(rels, id, short);
        assert forall|k: int| 0 <= k < pairs.len() implies #[trigger] label_at(rels, id, pairs, k) by {
            if k < pairs.len() - 1 {
                assert(label_at(rels, id, short, k));
                assert(short[k] == pairs[k]);
            }
        }
    }
}

proof fn lemma_label_entries_ok(rels: Seq<Relationship>, id: ItemId, pairs: Seq<(RelationshipId, RelationshipSide)>)
    requires
        forall|k: int| 0 <= k < pairs.len() ==> first_relationship(rels, (#[trigger] pairs[k]).0) is Some,
    ensures
        label_entries(rels, id, pairs) is Ok,
    decreases pairs.len(),
{
    reveal(label_entries);
    if pairs.len() > 0 {
        assert forall|k: int| 0 <= k < pairs.len() - 1 implies first_relationship(
            rels,
            (#[trigger] pairs.drop_last()[k]).0,
        ) is Some by {
            assert(pairs.drop_last()[k] == pairs[k]);
        }
        lemma_label_entries_ok(rels, id, pairs.drop_last());
        assert(first_relationship(rels, pairs[pairs.len() - 1].0) is Some);
    }
}

proof fn lemma_matched_entries_live(items: Seq<DbItem>, ids: Seq<ItemId>)
    requires
        matched_entries(items, ids) is Ok,
    ensures
        links_live(items, matched_entries(items, ids)->Ok_0),
    decreases ids.len(),
{
    reveal(matched_entries);
    if ids.len() > 0 {
        lemma_matched_entries_live(items, ids.drop_last());
        let ms = matched_entries(items, ids)->Ok_0;
        let prev = matched_entries(items, ids.drop_last())->Ok_0;
        let t = first_item(items, ids.last())->Some_0;
        assert forall|k: int| 0 <= k < ms.len() && (#[trigger] ms[k]).0 is ItemLink implies exists|t: int|
            0 <= t < items.len() && items[t].id == ms[k].0->ItemLink_0 by {
            if k < prev.len() {
                assert(ms[k] == prev[k]);
            } else {
                lemma_first_item_some(items, ids.last());
            }
        }
    }
}

proof fn lemma_first_item_some(items: Seq<DbItem>, id: ItemId)
    requires
        first_item(items, id) is Some,
    ensures
        0 <= first_item(items, id)->Some_0 < items.len(),
        items[first_item(items, id)->Some_0].id == id,
        forall|j: int| 0 <= j < first_item(items, id)->Some_0 ==> items[j].id != id,
{
    let w = choose|k: int| 0 <= k < items.len() && items[k].id == id;
    lemma_first_item_exists(items, id, w);
}

proof fn lemma_sibling_entries_live(
    items: Seq<DbItem>,
    rels: Seq<ItemRelationship>,
    r: RelationshipId,
    s: RelationshipSide,
)
    ensures
        links_live(items, sibling_entries(items, rels, r, s)),
    decreases rels.len(),
{
    if rels.len() > 0 {
        lemma_sibling_entries_live(items, rels.drop_last(), r, s);
        let es = sibling_entries(items, rels, r, s);
        let prev = sibling_entries(items, rels.drop_last(), r, s);
        assert forall|k: int| 0 <= k < es.len() && (#[trigger] es[k]).0 is ItemLink implies exists|t: int|
            0 <= t < items.len() && items[t].id == es[k].0->ItemLink_0 by {
            if k < prev.len() {
                assert(es[k] == prev[k]);
            } else {
                lemma_first_item_some(items, rels.last().sibling);
            }
        }
    }
}

proof fn lemma_item_entries_live(snap: Snapshot, id: ItemId)
    requires
        item_entries(snap, id) is Ok,
    ensures
        links_live(snap.items@, item_entries(snap, id)->Ok_0),
{
    let es = item_entries(snap, id)->Ok_0;
    let u = first_item(snap.items@, id)->Some_0;
    let pairs = distinct_sides(snap.items@[u].relationships@);
    lemma_label_entries_shape(snap.relationships@, id, pairs);
    let ls = label_entries(snap.relationships@, id, pairs)->Ok_0;
    assert forall|k: int| 0 <= k < es.len() implies !((#[trigger] es[k]).0 is ItemLink) by {
        if k < ls.len() {
            assert(label_at(snap.relationships@, id, pairs, k));
            assert(es[k] == ls[k]);
        }
    }
}

#[verifier::spinoff_prover]
#[verifier::rlimit(60)]
proof fn lemma_children_live(snap: Snapshot, p: Purpose)
    requires
        children(snap, p, Seq::empty()) is Ok,
    ensures
        links_live(snap.items@, children(snap, p, Seq::empty())->Ok_0),
{
    match p {
        Purpose::Item(id) => {
            assert(children(snap, p, Seq::empty()) == item_entries(snap, id)) by {
                reveal(children);
            }
            lemma_item_entries_live(snap, id);
        },
        Purpose::ItemRelationships(i, r, s) => {
            assert(children(snap, p, Seq::empty()) == item_relationship_entries(snap, i, r, s)) by {
                reveal(children);
            }
            let u = first_item(snap.items@, i)->Some_0;
            lemma_sibling_entries_live(snap.items@, snap.items@[u].relationships@, r, s);
        },
        Purpose::Filter(f) => {
            assert(children(snap, p, Seq::empty()) == filter_entries(snap, f)) by {
                reveal(children);
            }
            let k = first_filter(snap.root_filters@, f)->Some_0;
            lemma_matched_entries_live(snap.items@, snap.root_filters@[k].matched@);
        },
        Purpose::Root => {
            assert(children(snap, p, Seq::empty()) == Ok::<Seq<(Purpose, Seq<char>)>, ReadDirError>(
                root_entries(snap),
            )) by {
                reveal(children);
            }
            let es = root_entries(snap);
            assert forall|k: int| 0 <= k < es.len() implies !((#[trigger] es[k]).0 is ItemLink) by {}
        },
        Purpose::Items => {
            assert(children(snap, p, Seq::empty()) == Ok::<Seq<(Purpose, Seq<char>)>, ReadDirError>(
                items_entries(snap.items@),
            )) by {
                reveal(children);
            }
        },
        Purpose::Relationships => {
            assert(children(snap, p, Seq::empty()) == Ok::<Seq<(Purpose, Seq<char>)>, ReadDirError>(
                relationships_entries(snap.relationships@),
            )) by {
                reveal(children);
            }
        },
        Purpose::Relationship(id) => {
            assert(children(snap, p, Seq::empty()) == Ok::<Seq<(Purpose, Seq<char>)>, ReadDirError>(
                relationship_entries(id),
            )) by {
                reveal(children);
            }
            let es = relationship_entries(id);
            assert forall|k: int| 0 <= k < es.len() implies !((#[trigger] es[k]).0 is ItemLink) by {}
        },
        Purpose::ToolBins => {
            assert(children(snap, p, Seq::empty()) == Ok::<Seq<(Purpose, Seq<char>)>, ReadDirError>(
                tool_entries(snap.tool_dir@),
            )) by {
                reveal(children);
            }
            let es = tool_entries(snap.tool_dir@);
            assert forall|k: int| 0 <= k < es.len() implies !((#[trigger] es[k]).0 is ItemLink) by {}
        },
        Purpose::PassthroughPath(path) => {
            assert(children(snap, p, Seq::empty()) == Ok::<Seq<(Purpose, Seq<char>)>, ReadDirError>(
                host_entries(path, Seq::empty()),
            )) by {
                reveal(children);
            }
        },
        _ => {
            assert(children(snap, p, Seq::empty()) is Err) by {
                reveal(children);
            }
        },
    }
}

proof fn lemma_link_steps_land(names: Seq<Seq<char>>, id: ItemId)
    requires
        names.len() >= 1,
    ensures
        join_steps(link_steps(names.len(), id)) == link_target(names.len(), id),
        follow(names.drop_last(), link_steps(names.len(), id)) == seq!["items"@, int_text(id.0 as int)],
{
    let k = (names.len() - 1) as nat;
    let tail = seq!["items"@, int_text(id.0 as int)];
    lemma_join_link_steps(k, id);
    lemma_follow_dots(names.drop_last(), k, tail);
    let empty = names.drop_last().subrange(0, 0);
    assert(empty =~= Seq::<Seq<char>>::empty());
    assert("items"@ != ".."@) by {
        reveal_strlit("items");
        reveal_strlit("..");
    }
    assert(int_text(id.0 as int) != ".."@) by {
        reveal_strlit("..");
        lemma_int_text_ends_in_digit(id.0 as int);
        let i = id.0 as int;
        let d: int = if i < 0 { (-i) % 10 } else { i % 10 };
        assert(digit_char(d) != '.');
    }
    reveal(follow);
    let after_items = empty.push("items"@);
    assert(tail.drop_first() =~= seq![int_text(id.0 as int)]);
    assert(seq![int_text(id.0 as int)].drop_first() =~= Seq::<Seq<char>>::empty());
    assert(follow(empty, tail) == follow(after_items, seq![int_text(id.0 as int)]));
    assert(follow(after_items, seq![int_text(id.0 as int)]) == follow(
        after_items.push(int_text(id.0 as int)),
        Seq::empty(),
    ));
    assert(after_items.push(int_text(id.0 as int)) =~= tail);
}

/// Where a relative link with the given steps leads from directory `base`:
/// `..` goes up one level, any other name down into it.
#[verifier::opaque]
pub open spec fn follow(base: Seq<Seq<char>>, steps: Seq<Seq<char>>) -> Seq<Seq<char>>
    decreases steps.len(),
{
    if steps.len() == 0 {
        base
    } else {
        let next = if steps[0] == ".."@ {
            if base.len() > 0 {
                base.drop_last()
            } else {
                base
            }
        } else {
            base.push(steps[0])
        };
        follow(next, steps.drop_first())
    }
}

/// The steps of a link target: `k` times `..`.
pub open spec fn dots(k: nat) -> Seq<Seq<char>> {
    Seq::new(k, |_i: int| ".."@)
}

/// The steps of the target of a link whose path has `depth` components.
pub open spec fn link_steps(depth: nat, id: ItemId) -> Seq<Seq<char>> {
    dots((depth - 1) as nat) + seq!["items"@, int_text(id.0 as int)]
}

/// Steps written as a path, separated by `/`.
pub open spec fn join_steps(steps: Seq<Seq<char>>) -> Seq<char>
    decreases steps.len(),
{
    if steps.len() == 0 {
        Seq::empty()
    } else if steps.len() == 1 {
        steps[0]
    } else {
        steps[0] + "/"@ + join_steps(steps.drop_first())
    }
}

proof fn lemma_follow_dots(base: Seq<Seq<char>>, k: nat, rest: Seq<Seq<char>>)
    requires
        k <= base.len(),
    ensures
        follow(base, dots(k) + rest) == follow(base.subrange(0, base.len() - k), rest),
    decreases k,
{
    reveal(follow);
    if k == 0 {
        assert(dots(0) + rest =~= rest);
        assert(base.subrange(0, base.len() as int) =~= base);
    } else {
        let steps = dots(k) + rest;
        assert(steps[0] == ".."@);
        assert(steps.drop_first() =~= dots((k - 1) as nat) + rest);
        lemma_follow_dots(base.drop_last(), (k - 1) as nat, rest);
        assert(base.drop_last().subrange(0, base.len() - 1 - (k - 1)) =~= base.subrange(0, base.len() - k));
    }
}

proof fn lemma_climb_front(n: nat)
    requires
        n > 0,
    ensures
        climb(n) == "../"@ + climb((n - 1) as nat),
    decreases n,
{
    if n > 1 {
        lemma_climb_front((n - 1) as nat);
        assert(climb(n) =~= "../"@ + climb((n - 1) as nat));
    } else {
        assert(climb(1) =~= "../"@ + climb(0));
    }
}

proof fn lemma_join_link_steps(k: nat, id: ItemId)
    ensures
        join_steps(dots(k) + seq!["items"@, int_text(id.0 as int)]) == climb(k) + "items/"@ + int_text(id.0 as int),
    decreases k,
{
    reveal_strlit("items/");
    reveal_strlit("items");
    reveal_strlit("/");
    reveal_strlit("../");
    reveal_strlit("..");
    let tail = seq!["items"@, int_text(id.0 as int)];
    let steps = dots(k) + tail;
    if k == 0 {
        assert(steps =~= tail);
        assert(tail.drop_first() =~= seq![int_text(id.0 as int)]);
        assert(join_steps(seq![int_text(id.0 as int)]) == int_text(id.0 as int));
        assert(join_steps(tail) == "items"@ + "/"@ + int_text(id.0 as int));
        assert("items/"@ =~= "items"@ + "/"@);
        assert(climb(0) =~= Seq::<char>::empty());
        assert(join_steps(tail) =~= climb(0) + "items/"@ + int_text(id.0 as int));
    } else {
        assert(steps.drop_first() =~= dots((k - 1) as nat) + tail);
        lemma_join_link_steps((k - 1) as nat, id);
        lemma_climb_front(k);
        assert(steps[0] == ".."@);
        assert(join_steps(steps) =~= climb(k) + "items/"@ + int_text(id.0 as int));
    }
}

/// A link leads home: the target that reading a link at a path of `n`
/// components yields is `n - 1` steps `..`, then `items` and the item's id;
/// followed from the directory holding the link it climbs to the root and
/// ends at `/items/<id>`, which names the item's own directory, and the item
/// is in the store.
pub proof fn lemma_link_lands_on_item(snap: Snapshot, names: Seq<Seq<char>>, id: ItemId)
    requires
        resolve(snap, names) == Ok::<Purpose, ReadDirError>(Purpose::ItemLink(id)),
    ensures
        names.len() >= 1,
        join_steps(link_steps(names.len(), id)) == link_target(names.len(), id),
        follow(names.drop_last(), link_steps(names.len(), id)) == seq!["items"@, int_text(id.0 as int)],
        exists|t: int| 0 <= t < snap.items@.len() && snap.items@[t].id == id,
        resolve(snap, seq!["items"@, int_text(id.0 as int)]) == Ok::<Purpose, ReadDirError>(Purpose::Item(id)),
{
    if names.len() == 0 {
        reveal(resolve);
    }
    let n = names.len() - 1;
    lemma_resolve_step(snap, names, n);
    assert(names.subrange(0, n + 1) =~= names);
    let parent = resolve(snap, names.subrange(0, n))->Ok_0;
    let es = children(snap, parent, Seq::empty())->Ok_0;
    lemma_find_named_member(es, names[n]);
    lemma_children_live(snap, parent);
    let k = choose|k: int| 0 <= k < es.len() && es[k].0 == find_named(es, names[n]);
    assert(es[k].0 is ItemLink);
    lemma_item_path_resolves(snap, id);
    lemma_link_steps_land(names, id);
}


/// The pair `(relationship, side)` occurs among an item's relationships.
pub open spec fn appears(rels: Seq<ItemRelationship>, pair: (RelationshipId, RelationshipSide)) -> bool {
    exists|k: int| 0 <= k < rels.len() && (#[trigger] rels[k]).id == pair.0 && rels[k].side == pair.1
}

proof fn lemma_distinct_sides(rels: Seq<ItemRelationship>)
    ensures
        forall|pair: (RelationshipId, RelationshipSide)|
            #[trigger] distinct_sides(rels).contains(pair) <==> appears(rels, pair),
        forall|i: int, j: int|
            0 <= i < j < distinct_sides(rels).len() ==> #[trigger] distinct_sides(rels)[i]
                != #[trigger] distinct_sides(rels)[j],
    decreases rels.len(),
{
    if rels.len() > 0 {
        let short = rels.drop_last();
        lemma_distinct_sides(short);
        let prev = distinct_sides(short);
        let last = (rels.last().id, rels.last().side);
        let ds = distinct_sides(rels);
        assert forall|pair: (RelationshipId, RelationshipSide)| #[trigger] ds.contains(pair) <==> appears(rels, pair) by {
            if appears(rels, pair) {
                let k = choose|k: int| 0 <= k < rels.len() && (#[trigger] rels[k]).id == pair.0 && rels[k].side == pair.1;
                if k < rels.len() - 1 {
                    assert(short[k] == rels[k]);
                    assert(prev.contains(pair));
                    if !prev.contains(last) {
                        let i = choose|i: int| 0 <= i < prev.len() && prev[i] == pair;
                        assert(ds[i] == pair);
                    }
                } else {
                    assert(pair == last);
                    if !prev.contains(last) {
                        assert(ds[prev.len() as int] == pair);
                    }
                }
            }
            if ds.contains(pair) {
                let i = choose|i: int| 0 <= i < ds.len() && ds[i] == pair;
                if i < prev.len() {
                    assert(prev[i] == pair);
                    assert(prev.contains(pair));
                    let k = choose|k: int| 0 <= k < short.len() && (#[trigger] short[k]).id == pair.0 && short[k].side == pair.1;
                    assert(rels[k] == short[k]);
                } else {
                    assert(rels[rels.len() - 1].id == pair.0);
                }
            }
        }
        assert forall|i: int, j: int| 0 <= i < j < ds.len() implies #[trigger] ds[i] != #[trigger] ds[j] by {
            if j == prev.len() {
                assert(!prev.contains(last));
                assert(ds[j] == last);
                assert(ds[i] == prev[i]);
            } else {
                assert(ds[i] == prev[i] && ds[j] == prev[j]);
            }
        }
    }
}

/// The item-relationships of the first item with the given id.
pub open spec fn item_sides(snap: Snapshot, id: ItemId) -> Seq<ItemRelationship> {
    snap.items@[first_item(snap.items@, id)->Some_0].relationships@
}

/// Every item-relationship of the item names a relationship of the store.
pub open spec fn sides_reference_relationships(snap: Snapshot, id: ItemId) -> bool {
    forall|k: int|
        0 <= k < item_sides(snap, id).len() ==> first_relationship(
            snap.relationships@,
            (#[trigger] item_sides(snap, id)[k]).id,
        ) is Some
}

proof fn lemma_item_labels_ok(snap: Snapshot, id: ItemId)
    requires
        first_item(snap.items@, id) is Some,
        sides_reference_relationships(snap, id),
    ensures
        item_entries(snap, id) is Ok,
        label_entries(snap.relationships@, id, distinct_sides(item_sides(snap, id))) is Ok,
{
    let rels = item_sides(snap, id);
    let pairs = distinct_sides(rels);
    lemma_distinct_sides(rels);
    assert forall|k: int| 0 <= k < pairs.len() implies first_relationship(
        snap.relationships@,
        (#[trigger] pairs[k]).0,
    ) is Some by {
        assert(pairs.contains(pairs[k]));
        let j = choose|j: int| 0 <= j < rels.len() && (#[trigger] rels[j]).id == pairs[k].0 && rels[j].side == pairs[k].1;
        assert(first_relationship(snap.relationships@, rels[j].id) is Some);
    }
    lemma_label_entries_ok(snap.relationships@, id, pairs);
}

/// An item's directory holds exactly one side directory per distinct
/// `(relationship, side)` pair among the item's relationships, and no other.
#[verifier::spinoff_prover]
#[verifier::rlimit(60)]
pub proof fn lemma_item_dir_lists_each_side_once(snap: Snapshot, id: ItemId)
    requires
        exists|k: int| 0 <= k < snap.items@.len() && snap.items@[k].id == id,
        sides_reference_relationships(snap, id),
    ensures
        children(snap, Purpose::Item(id), Seq::empty()) is Ok,
        forall|r: RelationshipId, s: RelationshipSide|
            appears(item_sides(snap, id), (r, s)) <==> exists|j: int|
                0 <= j < children(snap, Purpose::Item(id), Seq::empty())->Ok_0.len()
                    && #[trigger] children(snap, Purpose::Item(id), Seq::empty())->Ok_0[j].0
                    == Purpose::ItemRelationships(id, r, s),
        forall|i: int, j: int|
            0 <= i < children(snap, Purpose::Item(id), Seq::empty())->Ok_0.len() && 0 <= j
                < children(snap, Purpose::Item(id), Seq::empty())->Ok_0.len() && (#[trigger] children(
                snap,
                Purpose::Item(id),
                Seq::empty(),
            )->Ok_0[i]).0 is ItemRelationships && children(snap, Purpose::Item(id), Seq::empty())->Ok_0[i].0
                == (#[trigger] children(snap, Purpose::Item(id), Seq::empty())->Ok_0[j]).0 ==> i == j,
{
    let w = choose|k: int| 0 <= k < snap.items@.len() && snap.items@[k].id == id;
    lemma_first_item_exists(snap.items@, id, w);
    lemma_item_labels_ok(snap, id);
    assert(children(snap, Purpose::Item(id), Seq::empty()) == item_entries(snap, id)) by {
        reveal(children);
    }
    let rels = item_sides(snap, id);
    let pairs = distinct_sides(rels);
    lemma_distinct_sides(rels);
    lemma_label_entries_shape(snap.relationships@, id, pairs);
    let ls = label_entries(snap.relationships@, id, pairs)->Ok_0;
    let es = item_entries(snap, id)->Ok_0;
    assert forall|j: int| 0 <= j < es.len() && (#[trigger] es[j]).0 is ItemRelationships implies j < ls.len()
        && es[j] == ls[j] && label_at(snap.relationships@, id, pairs, j) by {
        if j < ls.len() {
            assert(label_at(snap.relationships@, id, pairs, j));
        }
    }
    assert forall|r: RelationshipId, s: RelationshipSide|
        appears(rels, (r, s)) <==> exists|j: int| 0 <= j < es.len() && #[trigger] es[j].0 == Purpose::ItemRelationships(id, r, s) by {
        if appears(rels, (r, s)) {
            assert(pairs.contains((r, s)));
            let k = choose|k: int| 0 <= k < pairs.len() && pairs[k] == (r, s);
            assert(label_at(snap.relationships@, id, pairs, k));
            assert(es[k] == ls[k]);
            assert(es[k].0 == Purpose::ItemRelationships(id, r, s));
        }
        if exists|j: int| 0 <= j < es.len() && #[trigger] es[j].0 == Purpose::ItemRelationships(id, r, s) {
            let j = choose|j: int| 0 <= j < es.len() && #[trigger] es[j].0 == Purpose::ItemRelationships(id, r, s);
            assert(es[j].0 is ItemRelationships);
            assert(pairs[j] == (r, s));
            assert(pairs.contains((r, s)));
        }
    }
    assert forall|i: int, j: int|
        0 <= i < es.len() && 0 <= j < es.len() && (#[trigger] es[i]).0 is ItemRelationships && es[i].0
            == (#[trigger] es[j]).0 implies i == j by {
        assert(es[j].0 is ItemRelationships);
        assert(pairs[i] == pairs[j]);
        if i < j {
            assert(pairs[i] != pairs[j]);
        } else if j < i {
            assert(pairs[j] != pairs[i]);
        }
    }
}

proof fn lemma_sibling_entries_contain(
    items: Seq<DbItem>,
    rels: Seq<ItemRelationship>,
    k: int,
)
    requires
        0 <= k < rels.len(),
        first_item(items, rels[k].sibling) is Some,
    ensures
        sibling_entries(items, rels, rels[k].id, rels[k].side).contains(
            (
                Purpose::ItemLink(rels[k].sibling),
                items[first_item(items, rels[k].sibling)->Some_0].name@,
            ),
        ),
    decreases rels.len(),
{
    let (r, s) = (rels[k].id, rels[k].side);
    let entry = (Purpose::ItemLink(rels[k].sibling), items[first_item(items, rels[k].sibling)->Some_0].name@);
    lemma_first_item_some(items, rels[k].sibling);
    let es = sibling_entries(items, rels, r, s);
    if k == rels.len() - 1 {
        assert(es.last() == entry);
    } else {
        let short = rels.drop_last();
        assert(short[k] == rels[k]);
        lemma_sibling_entries_contain(items, short, k);
        let prev = sibling_entries(items, short, r, s);
        let i = choose|i: int| 0 <= i < prev.len() && prev[i] == entry;
        assert(es[i] == prev[i]);
    }
}

#[verifier::spinoff_prover]
#[verifier::rlimit(100)]
proof fn lemma_item_dir_contains_label(snap: Snapshot, a: ItemId, k: int)
    requires
        exists|u: int| 0 <= u < snap.items@.len() && snap.items@[u].id == a,
        sides_reference_relationships(snap, a),
        0 <= k < item_sides(snap, a).len(),
    ensures
        ({
            let e = item_sides(snap, a)[k];
            let rel = snap.relationships@[first_relationship(snap.relationships@, e.id)->Some_0];
            children(snap, Purpose::Item(a), Seq::empty()) matches Ok(es) && es.contains(
                (Purpose::ItemRelationships(a, e.id, e.side), label_of(rel, e.side)),
            )
        }),
{
    let w = choose|u: int| 0 <= u < snap.items@.len() && snap.items@[u].id == a;
    lemma_first_item_exists(snap.items@, a, w);
    let rels = item_sides(snap, a);
    let e = rels[k];
    let pairs = distinct_sides(rels);
    lemma_item_labels_ok(snap, a);
    assert(children(snap, Purpose::Item(a), Seq::empty()) == item_entries(snap, a)) by {
        reveal(children);
    }
    lemma_distinct_sides(rels);
    assert(appears(rels, (e.id, e.side)));
    assert(pairs.contains((e.id, e.side)));
    let j = choose|j: int| 0 <= j < pairs.len() && pairs[j] == (e.id, e.side);
    lemma_label_entries_shape(snap.relationships@, a, pairs);
    let ls = label_entries(snap.relationships@, a, pairs)->Ok_0;
    let es = item_entries(snap, a)->Ok_0;
    assert(label_at(snap.relationships@, a, pairs, j));
    assert(es[j] == ls[j]);
    assert(es.contains(es[j]));
}

proof fn lemma_side_dir_contains_link(snap: Snapshot, a: ItemId, k: int)
    requires
        exists|u: int| 0 <= u < snap.items@.len() && snap.items@[u].id == a,
        0 <= k < item_sides(snap, a).len(),
        exists|t: int| 0 <= t < snap.items@.len() && snap.items@[t].id == item_sides(snap, a)[k].sibling,
    ensures
        ({
            let e = item_sides(snap, a)[k];
            let sibling = snap.items@[first_item(snap.items@, e.sibling)->Some_0];
            &&& children(snap, Purpose::ItemRelationships(a, e.id, e.side), Seq::empty()) matches Ok(
                es,
            ) && es.contains((Purpose::ItemLink(e.sibling), sibling.name@))
            &&& sibling.id == e.sibling
        }),
{
    let w = choose|u: int| 0 <= u < snap.items@.len() && snap.items@[u].id == a;
    lemma_first_item_exists(snap.items@, a, w);
    let rels = item_sides(snap, a);
    let e = rels[k];
    let t0 = choose|t: int| 0 <= t < snap.items@.len() && snap.items@[t].id == e.sibling;
    lemma_first_item_exists(snap.items@, e.sibling, t0);
    assert(children(snap, Purpose::ItemRelationships(a, e.id, e.side), Seq::empty()) == item_relationship_entries(
        snap,
        a,
        e.id,
        e.side,
    )) by {
        reveal(children);
    }
    lemma_sibling_entries_contain(snap.items@, rels, k);
}

/// An item-relationship shows from its item: the item's directory holds a
/// side directory labelled with the other side's name (the relationship's
/// `to_name` for a source item, its `from_name` for a dest item); that
/// directory holds a link named after the sibling; and the sibling's
/// directory `/items/<sibling>` resolves to it.
pub proof fn lemma_related_item_is_listed(snap: Snapshot, a: ItemId, k: int)
    requires
        exists|u: int| 0 <= u < snap.items@.len() && snap.items@[u].id == a,
        sides_reference_relationships(snap, a),
        0 <= k < item_sides(snap, a).len(),
        exists|t: int| 0 <= t < snap.items@.len() && snap.items@[t].id == item_sides(snap, a)[k].sibling,
    ensures
        ({
            let e = item_sides(snap, a)[k];
            let rel = snap.relationships@[first_relationship(snap.relationships@, e.id)->Some_0];
            let sibling = snap.items@[first_item(snap.items@, e.sibling)->Some_0];
            &&& label_of(rel, RelationshipSide::Source) == rel.to_name@
            &&& label_of(rel, RelationshipSide::Dest) == rel.from_name@
            &&& children(snap, Purpose::Item(a), Seq::empty()) matches Ok(es) && es.contains(
                (Purpose::ItemRelationships(a, e.id, e.side), label_of(rel, e.side)),
            )
            &&& children(snap, Purpose::ItemRelationships(a, e.id, e.side), Seq::empty()) matches Ok(
                es,
            ) && es.contains((Purpose::ItemLink(e.sibling), sibling.name@))
            &&& sibling.id == e.sibling
            &&& resolve(snap, seq!["items"@, int_text(e.sibling.0 as int)]) == Ok::<Purpose, ReadDirError>(
                Purpose::Item(e.sibling),
            )
        }),
{
    lemma_item_dir_contains_label(snap, a, k);
    lemma_side_dir_contains_link(snap, a, k);
    lemma_item_path_resolves(snap, item_sides(snap, a)[k].sibling);
}

/// A row of `item_relationships` from `A` to `B` through `R` shows on both
/// items: `A` holds `(R, source, B)` and `B` holds `(R, dest, A)`.
pub proof fn lemma_link_row_on_both_items(links: Seq<LinkRow>, j: int)
    requires
        0 <= j < links.len(),
    ensures
        relationships_of(links, links[j].from_id).contains(
            ItemRelationship { id: links[j].relationship_id, side: RelationshipSide::Source, sibling: links[j].to_id },
        ),
        relationships_of(links, links[j].to_id).contains(
            ItemRelationship { id: links[j].relationship_id, side: RelationshipSide::Dest, sibling: links[j].from_id },
        ),
    decreases links.len(),
{
    let l = links[j];
    let src = ItemRelationship { id: l.relationship_id, side: RelationshipSide::Source, sibling: l.to_id };
    let dst = ItemRelationship { id: l.relationship_id, side: RelationshipSide::Dest, sibling: l.from_id };
    let short = links.drop_last();
    let (pa, pb) = (relationships_of(short, l.from_id), relationships_of(short, l.to_id));
    let (ra, rb) = (relationships_of(links, l.from_id), relationships_of(links, l.to_id));
    assert(forall|i: int| 0 <= i < pa.len() ==> ra[i] == pa[i]);
    assert(forall|i: int| 0 <= i < pb.len() ==> rb[i] == pb[i]);
    if j == links.len() - 1 {
        assert(ra[pa.len() as int] == src);
        assert(rb.last() == dst);
    } else {
        assert(short[j] == l);
        lemma_link_row_on_both_items(short, j);
        let i = choose|i: int| 0 <= i < pa.len() && pa[i] == src;
        assert(ra[i] == src);
        let i2 = choose|i: int| 0 <= i < pb.len() && pb[i] == dst;
        assert(rb[i2] == dst);
    }
}


/// At most one entry of a listing has the given name.
pub open spec fn name_unique(es: Seq<(Purpose, Seq<char>)>, name: Seq<char>) -> bool {
    forall|i: int, j: int|
        0 <= i < es.len() && 0 <= j < es.len() && (#[trigger] es[i]).1 == name && (#[trigger] es[j]).1 == name ==> i
            == j
}

proof fn lemma_resolve_child(snap: Snapshot, prefix: Seq<Seq<char>>, b: Seq<char>, parent: Purpose)
    requires
        resolve(snap, prefix) == Ok::<Purpose, ReadDirError>(parent),
        !(parent is PassthroughPath),
        children(snap, parent, Seq::empty()) is Ok,
    ensures
        resolve(snap, prefix.push(b)) == Ok::<Purpose, ReadDirError>(
            find_named(children(snap, parent, Seq::empty())->Ok_0, b),
        ),
{
    let names = prefix.push(b);
    assert(names.subrange(0, prefix.len() as int) =~= prefix);
    lemma_resolve_step(snap, names, prefix.len() as int);
    assert(names.subrange(0, names.len() as int) =~= names);
}

proof fn lemma_find_unique(es: Seq<(Purpose, Seq<char>)>, entry: (Purpose, Seq<char>))
    requires
        es.contains(entry),
        name_unique(es, entry.1),
    ensures
        find_named(es, entry.1) == entry.0,
{
    let k = choose|k: int| 0 <= k < es.len() && es[k] == entry;
    assert forall|j: int| 0 <= j < k implies es[j].1 != entry.1 by {
        if es[j].1 == entry.1 {
            assert(es[k].1 == entry.1);
        }
    }
    lemma_find_named_first(es, entry.1, k);
}

proof fn lemma_named_child(snap: Snapshot, prefix: Seq<Seq<char>>, parent: Purpose, entry: (Purpose, Seq<char>))
    requires
        resolve(snap, prefix) == Ok::<Purpose, ReadDirError>(parent),
        !(parent is PassthroughPath),
        children(snap, parent, Seq::empty()) matches Ok(es) && es.contains(entry) && name_unique(es, entry.1),
    ensures
        resolve(snap, prefix.push(entry.1)) == Ok::<Purpose, ReadDirError>(entry.0),
{
    lemma_find_unique(children(snap, parent, Seq::empty())->Ok_0, entry);
    lemma_resolve_child(snap, prefix, entry.1, parent);
}

/// An item-relationship shows at its paths: where no other entry of item
/// `a`'s directory carries the side directory's label, and no other link in
/// that side directory carries the sibling's name,
/// `/items/<a>/<label>` names the side directory and
/// `/items/<a>/<label>/<sibling name>` names the link to the sibling, whose
/// target, followed from that side directory, ends at `/items/<sibling>`,
/// the sibling's own directory.
#[verifier::spinoff_prover]
#[verifier::rlimit(60)]
pub proof fn lemma_related_item_paths(snap: Snapshot, a: ItemId, k: int)
    requires
        exists|u: int| 0 <= u < snap.items@.len() && snap.items@[u].id == a,
        sides_reference_relationships(snap, a),
        0 <= k < item_sides(snap, a).len(),
        exists|t: int| 0 <= t < snap.items@.len() && snap.items@[t].id == item_sides(snap, a)[k].sibling,
        ({
            let e = item_sides(snap, a)[k];
            let rel = snap.relationships@[first_relationship(snap.relationships@, e.id)->Some_0];
            name_unique(children(snap, Purpose::Item(a), Seq::empty())->Ok_0, label_of(rel, e.side))
        }),
        ({
            let e = item_sides(snap, a)[k];
            let sibling = snap.items@[first_item(snap.items@, e.sibling)->Some_0];
            name_unique(
                children(snap, Purpose::ItemRelationships(a, e.id, e.side), Seq::empty())->Ok_0,
                sibling.name@,
            )
        }),
    ensures
        ({
            let e = item_sides(snap, a)[k];
            let rel = snap.relationships@[first_relationship(snap.relationships@, e.id)->Some_0];
            let sibling = snap.items@[first_item(snap.items@, e.sibling)->Some_0];
            let dir = seq!["items"@, int_text(a.0 as int), label_of(rel, e.side)];
            &&& resolve(snap, dir) == Ok::<Purpose, ReadDirError>(Purpose::ItemRelationships(a, e.id, e.side))
            &&& resolve(snap, dir.push(sibling.name@)) == Ok::<Purpose, ReadDirError>(Purpose::ItemLink(e.sibling))
            &&& follow(dir, link_steps(4, e.sibling)) == seq!["items"@, int_text(e.sibling.0 as int)]
            &&& resolve(snap, seq!["items"@, int_text(e.sibling.0 as int)]) == Ok::<Purpose, ReadDirError>(
                Purpose::Item(e.sibling),
            )
        }),
{
    let e = item_sides(snap, a)[k];
    let rel = snap.relationships@[first_relationship(snap.relationships@, e.id)->Some_0];
    let sibling = snap.items@[first_item(snap.items@, e.sibling)->Some_0];
    let label = label_of(rel, e.side);
    let side = Purpose::ItemRelationships(a, e.id, e.side);
    lemma_item_dir_contains_label(snap, a, k);
    lemma_side_dir_contains_link(snap, a, k);
    lemma_item_path_resolves(snap, a);
    let top = seq!["items"@, int_text(a.0 as int)];
    let dir = top.push(label);
    assert(dir =~= seq!["items"@, int_text(a.0 as int), label]);
    lemma_named_child(snap, top, Purpose::Item(a), (side, label));
    lemma_named_child(snap, dir, side, (Purpose::ItemLink(e.sibling), sibling.name@));
    let link = dir.push(sibling.name@);
    lemma_link_lands_on_item(snap, link, e.sibling);
    assert(link.drop_last() =~= dir);
    assert(link.len() == 4);
}


/// A created item is reachable from its response: `/items/<id>` names the
/// item, and, where no side directory of the item is labelled `name`,
/// `/items/<id>/name` names its name file, whose body is the item's name and
/// a newline.
pub proof fn lemma_created_item_is_browsable(snap: Snapshot, id: ItemId)
    requires
        exists|u: int| 0 <= u < snap.items@.len() && snap.items@[u].id == id,
        sides_reference_relationships(snap, id),
        name_unique(children(snap, Purpose::Item(id), Seq::empty())->Ok_0, "name"@),
    ensures
        item_path(id) == "/"@ + "items"@ + "/"@ + int_text(id.0 as int),
        resolve(snap, seq!["items"@, int_text(id.0 as int)]) == Ok::<Purpose, ReadDirError>(Purpose::Item(id)),
        resolve(snap, seq!["items"@, int_text(id.0 as int), "name"@]) == Ok::<Purpose, ReadDirError>(
            Purpose::ItemName(id),
        ),
        file_contents(snap, Purpose::ItemName(id)) == line_bytes(
            snap.items@[first_item(snap.items@, id)->Some_0].name@,
        ),
{
    let w = choose|u: int| 0 <= u < snap.items@.len() && snap.items@[u].id == id;
    lemma_first_item_exists(snap.items@, id, w);
    lemma_item_path_resolves(snap, id);
    lemma_item_labels_ok(snap, id);
    assert(children(snap, Purpose::Item(id), Seq::empty()) == item_entries(snap, id)) by {
        reveal(children);
    }
    let es = item_entries(snap, id)->Ok_0;
    let ls = label_entries(snap.relationships@, id, distinct_sides(item_sides(snap, id)))->Ok_0;
    assert(es[ls.len() as int + 2] == (Purpose::ItemName(id), "name"@));
    assert(es.contains((Purpose::ItemName(id), "name"@)));
    let top = seq!["items"@, int_text(id.0 as int)];
    lemma_named_child(snap, top, Purpose::Item(id), (Purpose::ItemName(id), "name"@));
    assert(top.push("name"@) =~= seq!["items"@, int_text(id.0 as int), "name"@]);
}

/// A created relationship is reachable from its response:
/// `/relationships/<id>` names it, and its `from_name` and `to_name` files
/// hold its two labels, each followed by a newline.
pub proof fn lemma_created_relationship_is_browsable(snap: Snapshot, id: RelationshipId)
    requires
        exists|k: int| 0 <= k < snap.relationships@.len() && snap.relationships@[k].id == id,
    ensures
        relationship_path(id) == "/"@ + "relationships"@ + "/"@ + int_text(id.0 as int),
        resolve(snap, seq!["relationships"@, int_text(id.0 as int), "from_name"@]) == Ok::<Purpose, ReadDirError>(
            Purpose::RelationshipFromName(id),
        ),
        resolve(snap, seq!["relationships"@, int_text(id.0 as int), "to_name"@]) == Ok::<Purpose, ReadDirError>(
            Purpose::RelationshipToName(id),
        ),
        file_contents(snap, Purpose::RelationshipFromName(id)) == line_bytes(
            snap.relationships@[first_relationship(snap.relationships@, id)->Some_0].from_name@,
        ),
        file_contents(snap, Purpose::RelationshipToName(id)) == line_bytes(
            snap.relationships@[first_relationship(snap.relationships@, id)->Some_0].to_name@,
        ),
{
    let w = choose|k: int| 0 <= k < snap.relationships@.len() && snap.relationships@[k].id == id;
    lemma_first_relationship_exists(snap.relationships@, id, w);
    lemma_relationship_path_resolves(snap, id);
    let p = Purpose::Relationship(id);
    assert(children(snap, p, Seq::empty()) == Ok::<Seq<(Purpose, Seq<char>)>, ReadDirError>(
        relationship_entries(id),
    )) by {
        reveal(children);
    }
    let es = relationship_entries(id);
    assert("id"@ != "from_name"@ && "id"@ != "to_name"@ && "from_name"@ != "to_name"@) by {
        reveal_strlit("id");
        reveal_strlit("from_name");
        reveal_strlit("to_name");
        assert("id"@.len() == 2 && "to_name"@.len() == 7 && "from_name"@.len() == 9);
    }
    assert(es.contains(es[1]) && es.contains(es[2]));
    let top = seq!["relationships"@, int_text(id.0 as int)];
    lemma_named_child(snap, top, p, es[1]);
    lemma_named_child(snap, top, p, es[2]);
    assert(top.push("from_name"@) =~= seq!["relationships"@, int_text(id.0 as int), "from_name"@]);
    assert(top.push("to_name"@) =~= seq!["relationships"@, int_text(id.0 as int), "to_name"@]);
}

} // verus!
