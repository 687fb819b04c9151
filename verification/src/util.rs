//! From a recommended rune list to the perk array of a rune page.

use crate::rune::RuneExtended;
use std::collections::HashMap;
use vstd::prelude::*;

verus! {

/// Time between two looks at champion select, in milliseconds.
pub const AUTO_DETECT_INTERVAL_MS: u64 = 2000;

/// The style id that marks a page as not fit to publish.
pub const UNSET_STYLE: i64 = -1;

/// The runes of one style, in the order in which the recommendation lists them.
#[derive(Clone, Debug, PartialEq, Eq)]
pub struct RuneStyleGroup {
    pub style_id: i64,
    pub runes: Vec<(i64, RuneExtended)>,
}

/// A group as plain values.
pub struct StyleGroupView {
    pub style_id: i64,
    pub runes: Seq<(i64, RuneExtended)>,
}

impl View for RuneStyleGroup {
    type V = StyleGroupView;

    open spec fn view(&self) -> StyleGroupView {
        StyleGroupView { style_id: self.style_id, runes: self.runes@ }
    }
}

/// Each group as plain values.
pub open spec fn group_views(groups: Seq<RuneStyleGroup>) -> Seq<StyleGroupView> {
    Seq::new(groups.len(), |k: int| groups[k]@)
}

/// The styles of the known runes among `ids`, each once, by first appearance.
pub open spec fn known_styles(ids: Seq<i64>, meta: Map<i64, RuneExtended>) -> Seq<i64>
    decreases ids.len(),
{
    if ids.len() == 0 {
        Seq::empty()
    } else {
        let before = known_styles(ids.drop_last(), meta);
        let id = ids.last();
        if meta.contains_key(id) && !before.contains(meta[id].parent_id) {
            before.push(meta[id].parent_id)
        } else {
            before
        }
    }
}

/// The known runes among `ids` that belong to `style`, in the order of `ids`.
pub open spec fn style_members(
    ids: Seq<i64>,
    meta: Map<i64, RuneExtended>,
    style: i64,
) -> Seq<(i64, RuneExtended)>
    decreases ids.len(),
{
    if ids.len() == 0 {
        Seq::empty()
    } else {
        let before = style_members(ids.drop_last(), meta, style);
        let id = ids.last();
        if meta.contains_key(id) && meta[id].parent_id == style {
            before.push((id, meta[id]))
        } else {
            before
        }
    }
}

/// One group per style of `known_styles`, holding that style's members, in
/// the order in which the styles first appear.
pub open spec fn grouped(ids: Seq<i64>, meta: Map<i64, RuneExtended>) -> Seq<StyleGroupView> {
    Seq::new(
        known_styles(ids, meta).len(),
        |k: int|
            StyleGroupView {
                style_id: known_styles(ids, meta)[k],
                runes: style_members(ids, meta, known_styles(ids, meta)[k]),
            },
    )
}

/// Where a group of `size` runes goes into `sorted`: before the first group
/// with fewer runes, and behind all groups where there is none.
pub open spec fn place_by_size(sorted: Seq<StyleGroupView>, size: nat) -> int
    decreases sorted.len(),
{
    if sorted.len() == 0 || sorted[0].runes.len() < size {
        0
    } else {
        1 + place_by_size(sorted.skip(1), size)
    }
}

/// The groups with the larger before the smaller; groups with the same
/// number of runes keep the order in which they stand in `groups`.
pub open spec fn by_size(groups: Seq<StyleGroupView>) -> Seq<StyleGroupView>
    decreases groups.len(),
{
    if groups.len() == 0 {
        Seq::empty()
    } else {
        let sorted = by_size(groups.drop_last());
        sorted.insert(place_by_size(sorted, groups.last().runes.len()), groups.last())
    }
}

/// What `group_runes` returns, over the plain values of its arguments: one
/// group for each style, the larger before the smaller, and groups of one
/// size in the order in which their styles first appear.
pub open spec fn arranged(ids: Seq<i64>, meta: Map<i64, RuneExtended>) -> Seq<StyleGroupView> {
    by_size(grouped(ids, meta))
}

/// One of the runes sits in row 0.
pub open spec fn has_keystone(runes: Seq<(i64, RuneExtended)>) -> bool {
    exists|i: int| 0 <= i < runes.len() && (#[trigger] runes[i]).1.slot == 0
}

/// The ids of the runes, in their order.
pub open spec fn ids_of(runes: Seq<(i64, RuneExtended)>) -> Seq<i64> {
    Seq::new(runes.len(), |i: int| runes[i].0)
}

/// `primary` and `secondary` make a page: `primary` has four runes or more,
/// with a keystone among the first four, and `secondary` has two or more, of
/// another style and without a keystone.
pub open spec fn is_split(primary: StyleGroupView, secondary: StyleGroupView) -> bool {
    &&& primary.runes.len() >= 4
    &&& has_keystone(primary.runes.take(4))
    &&& secondary.runes.len() >= 2
    &&& !has_keystone(secondary.runes)
    &&& primary.style_id != secondary.style_id
}

/// Where the primary group stands, if the groups make a page.
pub open spec fn primary_index(groups: Seq<StyleGroupView>) -> Option<int> {
    if groups.len() != 2 {
        None
    } else if is_split(groups[0], groups[1]) {
        Some(0)
    } else if is_split(groups[1], groups[0]) {
        Some(1)
    } else {
        None
    }
}

/// The rune ids of all groups, group after group.
pub open spec fn collected(groups: Seq<StyleGroupView>) -> Seq<i64>
    decreases groups.len(),
{
    if groups.len() == 0 {
        Seq::empty()
    } else {
        collected(groups.drop_last()) + ids_of(groups.last().runes)
    }
}

/// Primary style, secondary style and perk ids of the page that the groups and
/// shards make: the first four runes of the primary group, the first two of
/// the secondary, then the shards. Groups that make no page give
/// `UNSET_STYLE` twice, with every collected rune id before the shards.
pub open spec fn perk_array(groups: Seq<StyleGroupView>, shards: Seq<i64>) -> (i64, i64, Seq<i64>) {
    match primary_index(groups) {
        Some(p) => (
            groups[p].style_id,
            groups[1 - p].style_id,
            ids_of(groups[p].runes).take(4) + ids_of(groups[1 - p].runes).take(2) + shards,
        ),
        None => (UNSET_STYLE, UNSET_STYLE, collected(groups) + shards),
    }
}

/// What `build_page` returns, over the plain values of its arguments.
pub open spec fn page_of(
    ids: Seq<i64>,
    shards: Seq<i64>,
    meta: Map<i64, RuneExtended>,
) -> (i64, i64, Seq<i64>) {
    perk_array(arranged(ids, meta), shards)
}

/// The place of a group lies within the list, behind groups that are not
/// smaller and, unless it is the end, before a smaller one.
pub proof fn lemma_place_by_size(sorted: Seq<StyleGroupView>, size: nat)
    ensures
        0 <= place_by_size(sorted, size) <= sorted.len(),
        forall|i: int|
            0 <= i < place_by_size(sorted, size) ==> (#[trigger] sorted[i]).runes.len() >= size,
        place_by_size(sorted, size) < sorted.len() ==> sorted[place_by_size(
            sorted,
            size,
        )].runes.len() < size,
    decreases sorted.len(),
{
    if !(sorted.len() == 0 || sorted[0].runes.len() < size) {
        let rest = sorted.skip(1);
        lemma_place_by_size(rest, size);
        let p = place_by_size(sorted, size);
        assert forall|i: int| 0 <= i < p implies (#[trigger] sorted[i]).runes.len() >= size by {
            if i > 0 {
                assert(rest[i - 1] == sorted[i]);
            }
        }
        if p < sorted.len() {
            assert(rest[p - 1] == sorted[p]);
        }
    }
}

/// `by_size` arranges: it keeps every group, adds none, and no group stands
/// before a larger one.
pub proof fn lemma_by_size_arranges(groups: Seq<StyleGroupView>)
    ensures
        by_size(groups).len() == groups.len(),
        forall|i: int, j: int|
            0 <= i < j < groups.len() ==> (#[trigger] by_size(groups)[i]).runes.len() >= (
            #[trigger] by_size(groups)[j]).runes.len(),
        forall|k: int| 0 <= k < groups.len() ==> by_size(groups).contains(#[trigger] groups[k]),
        forall|i: int| 0 <= i < groups.len() ==> groups.contains(#[trigger] by_size(groups)[i]),
    decreases groups.len(),
{
    if groups.len() > 0 {
        let init = groups.drop_last();
        let last = groups.last();
        let before = by_size(init);
        let p = place_by_size(before, last.runes.len());
        let now = by_size(groups);
        lemma_by_size_arranges(init);
        lemma_place_by_size(before, last.runes.len());
        lemma_inserted(before, p, last);
        assert forall|i: int, j: int| 0 <= i < j < groups.len() implies (#[trigger] now[i]).runes.len()
            >= (#[trigger] now[j]).runes.len() by {
            let from_i = source(p, i);
            let from_j = source(p, j);
            if i != p && j != p {
                assert(before[from_i].runes.len() >= before[from_j].runes.len());
            } else if i == p {
                if p < from_j {
                    assert(before[p].runes.len() >= before[from_j].runes.len());
                }
            } else {
                assert(before[from_i].runes.len() >= last.runes.len());
            }
        }
        assert forall|k: int| 0 <= k < groups.len() implies now.contains(#[trigger] groups[k]) by {
            if k == groups.len() - 1 {
                assert(now[p] == groups[k]);
            } else {
                assert(init[k] == groups[k]);
                assert(before.contains(init[k]));
                let i = choose|i: int| 0 <= i < before.len() && before[i] == init[k];
                if i < p {
                    assert(now[i] == groups[k]);
                } else {
                    assert(source(p, i + 1) == i);
                    assert(now[i + 1] == groups[k]);
                }
            }
        }
        assert forall|i: int| 0 <= i < groups.len() implies groups.contains(#[trigger] now[i]) by {
            if i == p {
                assert(groups[groups.len() - 1] == now[i]);
            } else {
                let at = source(p, i);
                assert(init.contains(before[at]));
                let k = choose|k: int| 0 <= k < init.len() && init[k] == before[at];
                assert(groups[k] == now[i]);
            }
        }
    }
}

/// Where the element at `i` stood before another was put in at `p`.
pub open spec fn source(p: int, i: int) -> int {
    if i < p {
        i
    } else {
        i - 1
    }
}

proof fn lemma_inserted(before: Seq<StyleGroupView>, p: int, group: StyleGroupView)
    requires
        0 <= p <= before.len(),
    ensures
        before.insert(p, group).len() == before.len() + 1,
        before.insert(p, group)[p] == group,
        forall|i: int|
            0 <= i <= before.len() && i != p ==> #[trigger] before.insert(p, group)[i]
                == before[source(p, i)],
{
    before.insert_ensures(p, group);
    assert forall|i: int| 0 <= i <= before.len() && i != p implies #[trigger] before.insert(
        p,
        group,
    )[i] == before[source(p, i)] by {
        if i > p {
            assert(before.insert(p, group)[(i - 1) + 1] == before[i - 1]);
        }
    }
}

/// Where the group of `style` stands in `groups`; the length of `groups`
/// where there is none.
pub open spec fn position(groups: Seq<StyleGroupView>, style: i64) -> int
    decreases groups.len(),
{
    if groups.len() == 0 {
        0
    } else if position(groups.drop_last(), style) < groups.len() - 1 {
        position(groups.drop_last(), style)
    } else if groups.last().style_id == style {
        groups.len() - 1
    } else {
        groups.len() as int
    }
}

proof fn lemma_position(groups: Seq<StyleGroupView>, style: i64)
    ensures
        0 <= position(groups, style) <= groups.len(),
        position(groups, style) < groups.len() ==> groups[position(groups, style)].style_id
            == style,
        forall|k: int|
            0 <= k < groups.len() && (#[trigger] groups[k]).style_id == style ==> position(
                groups,
                style,
            ) <= k,
    decreases groups.len(),
{
    if groups.len() > 0 {
        let init = groups.drop_last();
        lemma_position(init, style);
        assert forall|k: int|
            0 <= k < groups.len() && (#[trigger] groups[k]).style_id == style implies position(
            groups,
            style,
        ) <= k by {
            if k < init.len() {
                assert(init[k] == groups[k]);
            }
        }
        if position(groups, style) < groups.len() - 1 {
            assert(init[position(init, style)] == groups[position(init, style)]);
        }
    }
}

/// `by_size` keeps ties in order: of two groups with the same number of
/// runes, the one whose style stands first in `groups` stays first.
pub proof fn lemma_by_size_keeps_ties(groups: Seq<StyleGroupView>)
    requires
        forall|a: int, b: int|
            0 <= a < b < groups.len() ==> (#[trigger] groups[a]).style_id != (
            #[trigger] groups[b]).style_id,
    ensures
        forall|i: int, j: int|
            0 <= i < j < groups.len() && (#[trigger] by_size(groups)[i]).runes.len() == (
            #[trigger] by_size(groups)[j]).runes.len() ==> position(
                groups,
                by_size(groups)[i].style_id,
            ) < position(groups, by_size(groups)[j].style_id),
    decreases groups.len(),
{
    if groups.len() > 0 {
        let init = groups.drop_last();
        let last = groups.last();
        let before = by_size(init);
        let p = place_by_size(before, last.runes.len());
        let now = by_size(groups);
        let end = groups.len() - 1;
        assert forall|a: int, b: int| 0 <= a < b < init.len() implies (#[trigger] init[a]).style_id
            != (#[trigger] init[b]).style_id by {
            assert(init[a] == groups[a] && init[b] == groups[b]);
        }
        lemma_by_size_keeps_ties(init);
        lemma_by_size_arranges(init);
        lemma_place_by_size(before, last.runes.len());
        lemma_inserted(before, p, last);
        lemma_position(init, last.style_id);
        if position(init, last.style_id) < init.len() {
            let k = position(init, last.style_id);
            assert(groups[k] == init[k]);
            assert(groups[k].style_id != groups[end].style_id);
        }
        assert(position(groups, last.style_id) == end);
        assert forall|i: int, j: int|
            0 <= i < j < groups.len() && (#[trigger] now[i]).runes.len() == (
            #[trigger] now[j]).runes.len() implies position(groups, now[i].style_id) < position(
            groups,
            now[j].style_id,
        ) by {
            let from_i = source(p, i);
            let from_j = source(p, j);
            if i != p {
                let style = before[from_i].style_id;
                assert(init.contains(before[from_i]));
                let k = choose|k: int| 0 <= k < init.len() && init[k] == before[from_i];
                lemma_position(init, style);
                assert(position(groups, style) == position(init, style));
            }
            if j != p {
                let style = before[from_j].style_id;
                assert(init.contains(before[from_j]));
                let k = choose|k: int| 0 <= k < init.len() && init[k] == before[from_j];
                lemma_position(init, style);
                assert(position(groups, style) == position(init, style));
            }
            if i == p {
                if p < from_j {
                    assert(before[p].runes.len() >= before[from_j].runes.len());
                }
            } else if j != p {
                assert(before[from_i].runes.len() == before[from_j].runes.len());
            }
        }
    }
}

/// The groups of `arranged` are those of the listed styles: one for each
/// style, each holding the members of its style.
pub proof fn lemma_arranged_groups(ids: Seq<i64>, meta: Map<i64, RuneExtended>)
    ensures
        arranged(ids, meta).len() == known_styles(ids, meta).len(),
        forall|i: int|
            0 <= i < arranged(ids, meta).len() ==> {
                let group = #[trigger] arranged(ids, meta)[i];
                known_styles(ids, meta).contains(group.style_id) && group.runes == style_members(
                    ids,
                    meta,
                    group.style_id,
                )
            },
        forall|k: int|
            0 <= k < known_styles(ids, meta).len() ==> arranged(ids, meta).contains(
                StyleGroupView {
                    style_id: #[trigger] known_styles(ids, meta)[k],
                    runes: style_members(ids, meta, known_styles(ids, meta)[k]),
                },
            ),
{
    let first = grouped(ids, meta);
    let then = arranged(ids, meta);
    lemma_by_size_arranges(first);
    assert forall|i: int| 0 <= i < then.len() implies known_styles(ids, meta).contains(
        (#[trigger] then[i]).style_id,
    ) && then[i].runes == style_members(ids, meta, then[i].style_id) by {
        assert(first.contains(then[i]));
        let k = choose|k: int| 0 <= k < first.len() && first[k] == then[i];
        assert(known_styles(ids, meta)[k] == then[i].style_id);
    }
    assert forall|k: int| 0 <= k < known_styles(ids, meta).len() implies then.contains(
        StyleGroupView {
            style_id: #[trigger] known_styles(ids, meta)[k],
            runes: style_members(ids, meta, known_styles(ids, meta)[k]),
        },
    ) by {
        assert(then.contains(first[k]));
    }
}

/// The order of the groups: none stands before a larger one, and of two
/// groups of one size the one whose style appears first stands first.
pub proof fn lemma_arranged_order(ids: Seq<i64>, meta: Map<i64, RuneExtended>)
    ensures
        forall|i: int, j: int|
            0 <= i < j < arranged(ids, meta).len() ==> (#[trigger] arranged(
                ids,
                meta,
            )[i]).runes.len() >= (#[trigger] arranged(ids, meta)[j]).runes.len(),
        forall|i: int, j: int|
            0 <= i < j < arranged(ids, meta).len() && (#[trigger] arranged(
                ids,
                meta,
            )[i]).runes.len() == (#[trigger] arranged(ids, meta)[j]).runes.len() ==> position(
                grouped(ids, meta),
                arranged(ids, meta)[i].style_id,
            ) < position(grouped(ids, meta), arranged(ids, meta)[j].style_id),
{
    let first = grouped(ids, meta);
    lemma_known_styles_distinct(ids, meta);
    assert forall|a: int, b: int| 0 <= a < b < first.len() implies (#[trigger] first[a]).style_id
        != (#[trigger] first[b]).style_id by {
        assert(first[a].style_id == known_styles(ids, meta)[a]);
        assert(first[b].style_id == known_styles(ids, meta)[b]);
    }
    lemma_by_size_arranges(first);
    lemma_by_size_keeps_ties(first);
}

/// A style listed by `known_styles` is listed once.
pub proof fn lemma_known_styles_distinct(ids: Seq<i64>, meta: Map<i64, RuneExtended>)
    ensures
        forall|a: int, b: int|
            0 <= a < b < known_styles(ids, meta).len() ==> known_styles(ids, meta)[a]
                != known_styles(ids, meta)[b],
    decreases ids.len(),
{
    if ids.len() > 0 {
        lemma_known_styles_distinct(ids.drop_last(), meta);
        let before = known_styles(ids.drop_last(), meta);
        let now = known_styles(ids, meta);
        assert forall|a: int, b: int| 0 <= a < b < now.len() implies now[a] != now[b] by {
            if b == before.len() {
                assert(before[a] == now[a]);
            }
        }
    }
}

/// A style has members exactly if `known_styles` lists it.
pub proof fn lemma_members_of_listed_style(ids: Seq<i64>, meta: Map<i64, RuneExtended>, style: i64)
    ensures
        known_styles(ids, meta).contains(style) <==> style_members(ids, meta, style).len() > 0,
    decreases ids.len(),
{
    if ids.len() > 0 {
        lemma_members_of_listed_style(ids.drop_last(), meta, style);
        let before = known_styles(ids.drop_last(), meta);
        let id = ids.last();
        if meta.contains_key(id) && !before.contains(meta[id].parent_id) {
            let now = before.push(meta[id].parent_id);
            assert(now[before.len() as int] == meta[id].parent_id);
            if before.contains(style) {
                let k = choose|k: int| 0 <= k < before.len() && before[k] == style;
                assert(now[k] == style);
            }
        }
    }
}

/// Every member of a style is a rune that the metadata knows, with the
/// metadata's entry beside it, and belongs to that style.
pub proof fn lemma_members_belong(ids: Seq<i64>, meta: Map<i64, RuneExtended>, style: i64)
    ensures
        forall|k: int|
            0 <= k < style_members(ids, meta, style).len() ==> {
                let member = #[trigger] style_members(ids, meta, style)[k];
                &&& ids.contains(member.0)
                &&& meta.contains_key(member.0)
                &&& member.1 == meta[member.0]
                &&& member.1.parent_id == style
            },
    decreases ids.len(),
{
    if ids.len() > 0 {
        let init = ids.drop_last();
        lemma_members_belong(init, meta, style);
        assert forall|k: int| 0 <= k < style_members(ids, meta, style).len() implies ids.contains(
            (#[trigger] style_members(ids, meta, style)[k]).0,
        ) by {
            let member = style_members(ids, meta, style)[k];
            if k < style_members(init, meta, style).len() {
                assert(member == style_members(init, meta, style)[k]);
                let j = choose|j: int| 0 <= j < init.len() && init[j] == member.0;
                assert(ids[j] == member.0);
            } else {
                assert(ids[ids.len() - 1] == member.0);
            }
        }
    }
}

/// `part` can be had from `whole` by leaving elements out, without moving any.
pub open spec fn embeds(part: Seq<i64>, whole: Seq<i64>) -> bool
    decreases whole.len(),
{
    if part.len() == 0 {
        true
    } else if whole.len() == 0 {
        false
    } else {
        (part.last() == whole.last() && embeds(part.drop_last(), whole.drop_last())) || embeds(
            part,
            whole.drop_last(),
        )
    }
}

/// The members of a style stand in the order in which the input lists them.
pub proof fn lemma_members_keep_order(ids: Seq<i64>, meta: Map<i64, RuneExtended>, style: i64)
    ensures
        embeds(ids_of(style_members(ids, meta, style)), ids),
    decreases ids.len(),
{
    if ids.len() > 0 {
        let init = ids.drop_last();
        lemma_members_keep_order(init, meta, style);
        let id = ids.last();
        if meta.contains_key(id) && meta[id].parent_id == style {
            let now = ids_of(style_members(ids, meta, style));
            assert(now.drop_last() =~= ids_of(style_members(init, meta, style)));
            assert(now.last() == id);
        }
    }
}

/// The page depends on the metadata only through the entries of the listed
/// runes: two tables that agree on them give the same page.
pub proof fn lemma_page_reads_listed_runes(
    ids: Seq<i64>,
    shards: Seq<i64>,
    first: Map<i64, RuneExtended>,
    second: Map<i64, RuneExtended>,
)
    requires
        forall|i: int|
            0 <= i < ids.len() ==> first.contains_key(#[trigger] ids[i]) == second.contains_key(
                ids[i],
            ),
        forall|i: int|
            0 <= i < ids.len() && first.contains_key(#[trigger] ids[i]) ==> first[ids[i]]
                == second[ids[i]],
    ensures
        arranged(ids, first) == arranged(ids, second),
        page_of(ids, shards, first) == page_of(ids, shards, second),
{
    lemma_styles_read_listed_runes(ids, first, second);
    assert forall|k: int| 0 <= k < known_styles(ids, first).len() implies grouped(ids, first)[k]
        == grouped(ids, second)[k] by {
        lemma_members_read_listed_runes(ids, first, second, known_styles(ids, first)[k]);
    }
    assert(grouped(ids, first) =~= grouped(ids, second));
}

proof fn lemma_styles_read_listed_runes(
    ids: Seq<i64>,
    first: Map<i64, RuneExtended>,
    second: Map<i64, RuneExtended>,
)
    requires
        forall|i: int|
            0 <= i < ids.len() ==> first.contains_key(#[trigger] ids[i]) == second.contains_key(
                ids[i],
            ),
        forall|i: int|
            0 <= i < ids.len() && first.contains_key(#[trigger] ids[i]) ==> first[ids[i]]
                == second[ids[i]],
    ensures
        known_styles(ids, first) == known_styles(ids, second),
    decreases ids.len(),
{
    if ids.len() > 0 {
        let init = ids.drop_last();
        assert forall|i: int| 0 <= i < init.len() implies first.contains_key(#[trigger] init[i])
            == second.contains_key(init[i]) && (first.contains_key(init[i]) ==> first[init[i]]
            == second[init[i]]) by {
            assert(init[i] == ids[i]);
        }
        lemma_styles_read_listed_runes(init, first, second);
        assert(ids.last() == ids[ids.len() - 1]);
    }
}

proof fn lemma_members_read_listed_runes(
    ids: Seq<i64>,
    first: Map<i64, RuneExtended>,
    second: Map<i64, RuneExtended>,
    style: i64,
)
    requires
        forall|i: int|
            0 <= i < ids.len() ==> first.contains_key(#[trigger] ids[i]) == second.contains_key(
                ids[i],
            ),
        forall|i: int|
            0 <= i < ids.len() && first.contains_key(#[trigger] ids[i]) ==> first[ids[i]]
                == second[ids[i]],
    ensures
        style_members(ids, first, style) == style_members(ids, second, style),
    decreases ids.len(),
{
    if ids.len() > 0 {
        let init = ids.drop_last();
        assert forall|i: int| 0 <= i < init.len() implies first.contains_key(#[trigger] init[i])
            == second.contains_key(init[i]) && (first.contains_key(init[i]) ==> first[init[i]]
            == second[init[i]]) by {
            assert(init[i] == ids[i]);
        }
        lemma_members_read_listed_runes(init, first, second, style);
        assert(ids.last() == ids[ids.len() - 1]);
    }
}

/// What embeds, embeds with its end cut off.
pub proof fn lemma_embeds_prefix(part: Seq<i64>, whole: Seq<i64>, n: int)
    requires
        embeds(part, whole),
        0 <= n <= part.len(),
    ensures
        embeds(part.take(n), whole),
    decreases whole.len(),
{
    if n == part.len() {
        assert(part.take(n) =~= part);
    } else if n > 0 {
        if part.last() == whole.last() && embeds(part.drop_last(), whole.drop_last()) {
            lemma_embeds_prefix(part.drop_last(), whole.drop_last(), n);
            assert(part.drop_last().take(n) =~= part.take(n));
        } else {
            lemma_embeds_prefix(part, whole.drop_last(), n);
        }
    }
}

/// The runes that a style gives to a page stand in the order in which the
/// input lists them.
pub proof fn lemma_page_keeps_order(
    ids: Seq<i64>,
    meta: Map<i64, RuneExtended>,
    style: i64,
    n: int,
)
    requires
        0 <= n <= style_members(ids, meta, style).len(),
    ensures
        embeds(ids_of(style_members(ids, meta, style)).take(n), ids),
{
    lemma_members_keep_order(ids, meta, style);
    lemma_embeds_prefix(ids_of(style_members(ids, meta, style)), ids, n);
}

/// A page with both styles set has the full shape: the first four runes of
/// the keystone's style, in input order and with a keystone among them, then
/// the first two runes of the other style, in input order, then the shards.
/// With three shards that is nine perk ids.
pub proof fn lemma_set_styles_mean_full_page(
    ids: Seq<i64>,
    shards: Seq<i64>,
    meta: Map<i64, RuneExtended>,
)
    requires
        page_of(ids, shards, meta).0 != UNSET_STYLE,
        page_of(ids, shards, meta).1 != UNSET_STYLE,
    ensures
        ({
            let (primary, secondary, perks) = page_of(ids, shards, meta);
            &&& primary != secondary
            &&& perks.len() == 6 + shards.len()
            &&& shards.len() == 3 ==> perks.len() == 9
            &&& style_members(ids, meta, primary).len() >= 4
            &&& style_members(ids, meta, secondary).len() >= 2
            &&& perks.subrange(0, 4) == ids_of(style_members(ids, meta, primary)).take(4)
            &&& perks.subrange(4, 6) == ids_of(style_members(ids, meta, secondary)).take(2)
            &&& perks.subrange(6, perks.len() as int) == shards
            &&& forall|k: int| 0 <= k < 6 ==> meta.contains_key(#[trigger] perks[k])
            &&& exists|k: int| 0 <= k < 4 && meta[#[trigger] perks[k]].slot == 0
            &&& forall|k: int| 4 <= k < 6 ==> meta[#[trigger] perks[k]].slot != 0
            &&& forall|k: int| 0 <= k < 4 ==> meta[#[trigger] perks[k]].parent_id == primary
            &&& forall|k: int| 4 <= k < 6 ==> meta[#[trigger] perks[k]].parent_id == secondary
        }),
{
    let groups = arranged(ids, meta);
    let (primary, secondary, perks) = page_of(ids, shards, meta);
    let p = primary_index(groups)->0;
    let first = style_members(ids, meta, primary);
    let second = style_members(ids, meta, secondary);
    lemma_arranged_groups(ids, meta);
    assert(groups[p].runes == first);
    assert(groups[1 - p].runes == second);
    lemma_members_belong(ids, meta, primary);
    lemma_members_belong(ids, meta, secondary);
    assert(perks.subrange(0, 4) =~= ids_of(first).take(4));
    assert(perks.subrange(4, 6) =~= ids_of(second).take(2));
    assert(perks.subrange(6, perks.len() as int) =~= shards);
    let key = choose|i: int| 0 <= i < 4 && (#[trigger] first.take(4)[i]).1.slot == 0;
    assert(first.take(4)[key] == first[key]);
    assert(perks[key] == first[key].0);
    assert forall|k: int| 0 <= k < 6 implies meta.contains_key(#[trigger] perks[k]) by {
        if k < 4 {
            assert(perks[k] == first[k].0);
        } else {
            assert(perks[k] == second[k - 4].0);
        }
    }
    assert forall|k: int| 4 <= k < 6 implies meta[#[trigger] perks[k]].slot != 0 by {
        assert(perks[k] == second[k - 4].0);
    }
    assert forall|k: int| 0 <= k < 4 implies meta[#[trigger] perks[k]].parent_id == primary by {
        assert(perks[k] == first[k].0);
    }
    assert forall|k: int| 4 <= k < 6 implies meta[#[trigger] perks[k]].parent_id
        == secondary by {
        assert(perks[k] == second[k - 4].0);
    }
}

/// Runes of two styles make a page where one style has four runes or more,
/// with a keystone among its first four, and the other has two or more and
/// no keystone: the page takes the first four of the one and the first two
/// of the other, and leaves the rest out.
pub proof fn lemma_split_gives_page(
    ids: Seq<i64>,
    shards: Seq<i64>,
    meta: Map<i64, RuneExtended>,
    primary: i64,
    secondary: i64,
)
    requires
        known_styles(ids, meta).len() == 2,
        primary != secondary,
        style_members(ids, meta, primary).len() >= 4,
        style_members(ids, meta, secondary).len() >= 2,
        has_keystone(style_members(ids, meta, primary).take(4)),
        !has_keystone(style_members(ids, meta, secondary)),
    ensures
        page_of(ids, shards, meta) == (
            primary,
            secondary,
            ids_of(style_members(ids, meta, primary)).take(4) + ids_of(
                style_members(ids, meta, secondary),
            ).take(2) + shards,
        ),
        page_of(ids, shards, meta).2.len() == 6 + shards.len(),
        shards.len() == 3 ==> page_of(ids, shards, meta).2.len() == 9,
{
    let styles = known_styles(ids, meta);
    let groups = arranged(ids, meta);
    lemma_members_of_listed_style(ids, meta, primary);
    lemma_members_of_listed_style(ids, meta, secondary);
    lemma_arranged_groups(ids, meta);
    let a = choose|k: int| 0 <= k < styles.len() && styles[k] == primary;
    let b = choose|k: int| 0 <= k < styles.len() && styles[k] == secondary;
    let first = style_members(ids, meta, primary);
    let second = style_members(ids, meta, secondary);
    let one = StyleGroupView { style_id: styles[a], runes: first };
    let other = StyleGroupView { style_id: styles[b], runes: second };
    assert(groups.contains(one) && groups.contains(other));
    let i = choose|i: int| 0 <= i < groups.len() && groups[i] == one;
    let j = choose|j: int| 0 <= j < groups.len() && groups[j] == other;
    assert(i != j);
    assert(j == 1 - i);
    let key = choose|k: int| 0 <= k < 4 && (#[trigger] first.take(4)[k]).1.slot == 0;
    assert(first[key] == first.take(4)[key]);
    assert(has_keystone(first));
    assert(is_split(groups[i], groups[j]));
    assert(!is_split(groups[j], groups[i]));
}

/// Runes of fewer than two styles, or of more, make no page. That covers a
/// list whose runes all share one style, and one of which the metadata knows
/// no rune.
pub proof fn lemma_other_style_counts_give_no_page(
    ids: Seq<i64>,
    shards: Seq<i64>,
    meta: Map<i64, RuneExtended>,
)
    requires
        known_styles(ids, meta).len() != 2,
    ensures
        page_of(ids, shards, meta).0 == UNSET_STYLE,
        page_of(ids, shards, meta).1 == UNSET_STYLE,
        page_of(ids, shards, meta).2 == collected(arranged(ids, meta)) + shards,
{
    lemma_arranged_groups(ids, meta);
}

/// Where no style has four runes, or none has a keystone, there is no page.
pub proof fn lemma_short_or_keyless_gives_no_page(
    ids: Seq<i64>,
    shards: Seq<i64>,
    meta: Map<i64, RuneExtended>,
)
    requires
        (forall|style: i64| #[trigger] style_members(ids, meta, style).len() < 4) || (forall|
            i: int,
        |
            0 <= i < ids.len() && meta.contains_key(#[trigger] ids[i]) ==> meta[ids[i]].slot != 0),
    ensures
        page_of(ids, shards, meta).0 == UNSET_STYLE,
        page_of(ids, shards, meta).1 == UNSET_STYLE,
        page_of(ids, shards, meta).2 == collected(arranged(ids, meta)) + shards,
{
    let groups = arranged(ids, meta);
    lemma_arranged_groups(ids, meta);
    if primary_index(groups) is Some {
        let p = primary_index(groups)->0;
        let style = groups[p].style_id;
        let first = style_members(ids, meta, style);
        assert(groups[p].runes == first);
        lemma_members_belong(ids, meta, style);
        let key = choose|i: int| 0 <= i < 4 && (#[trigger] first.take(4)[i]).1.slot == 0;
        assert(first.take(4)[key] == first[key]);
        let at = choose|i: int| 0 <= i < ids.len() && ids[i] == first[key].0;
        assert(meta[ids[at]].slot == 0);
    }
}

/// Where every known rune is of `style`, no second style is listed.
pub proof fn lemma_single_style(ids: Seq<i64>, meta: Map<i64, RuneExtended>, style: i64)
    requires
        forall|i: int|
            0 <= i < ids.len() && meta.contains_key(#[trigger] ids[i]) ==> meta[ids[i]].parent_id
                == style,
    ensures
        known_styles(ids, meta).len() <= 1,
        forall|k: int| 0 <= k < known_styles(ids, meta).len() ==> known_styles(ids, meta)[k] == style,
    decreases ids.len(),
{
    if ids.len() > 0 {
        let init = ids.drop_last();
        assert forall|i: int| 0 <= i < init.len() && meta.contains_key(
            #[trigger] init[i],
        ) implies meta[init[i]].parent_id == style by {
            assert(init[i] == ids[i]);
        }
        lemma_single_style(init, meta, style);
        assert(ids.last() == ids[ids.len() - 1]);
        let before = known_styles(init, meta);
        if before.len() == 1 {
            assert(before[0] == style);
        }
    }
}

/// Where the metadata knows none of the runes, the page holds the shards alone.
pub proof fn lemma_unknown_runes_give_shards(
    ids: Seq<i64>,
    shards: Seq<i64>,
    meta: Map<i64, RuneExtended>,
)
    requires
        forall|i: int| 0 <= i < ids.len() ==> !meta.contains_key(#[trigger] ids[i]),
    ensures
        page_of(ids, shards, meta) == (UNSET_STYLE, UNSET_STYLE, shards),
{
    lemma_no_known_rune(ids, meta);
    lemma_arranged_groups(ids, meta);
    assert(arranged(ids, meta) =~= Seq::empty());
    assert(collected(arranged(ids, meta)) + shards =~= shards);
}

proof fn lemma_no_known_rune(ids: Seq<i64>, meta: Map<i64, RuneExtended>)
    requires
        forall|i: int| 0 <= i < ids.len() ==> !meta.contains_key(#[trigger] ids[i]),
    ensures
        known_styles(ids, meta).len() == 0,
    decreases ids.len(),
{
    if ids.len() > 0 {
        let init = ids.drop_last();
        assert forall|i: int| 0 <= i < init.len() implies !meta.contains_key(
            #[trigger] init[i],
        ) by {
            assert(init[i] == ids[i]);
        }
        lemma_no_known_rune(init, meta);
        assert(ids.last() == ids[ids.len() - 1]);
    }
}

fn style_position(groups: &Vec<RuneStyleGroup>, style: i64) -> (r: Option<usize>)
    ensures
        match r {
            Some(p) => p < groups.len() && groups[p as int].style_id == style,
            None => forall|k: int| 0 <= k < groups.len() ==> groups[k].style_id != style,
        },
{
    let mut k: usize = 0;
    while k < groups.len()
        invariant
            k <= groups.len(),
            forall|j: int| 0 <= j < k ==> groups[j].style_id != style,
        decreases groups.len() - k,
    {
        if groups[k].style_id == style {
            return Some(k);
        }
        k = k + 1;
    }
    None
}

fn place_of(sorted: &Vec<RuneStyleGroup>, size: usize) -> (place: usize)
    ensures
        place == place_by_size(group_views(sorted@), size as nat),
        place <= sorted.len(),
{
    let ghost views = group_views(sorted@);
    let mut place: usize = 0;
    assert(views.skip(0) =~= views);
    while place < sorted.len() && sorted[place].runes.len() >= size
        invariant
            place <= sorted.len(),
            views == group_views(sorted@),
            place_by_size(views, size as nat) == place + place_by_size(
                views.skip(place as int),
                size as nat,
            ),
        decreases sorted.len() - place,
    {
        assert(views.skip(place as int)[0] == sorted@[place as int]@);
        assert(views.skip(place as int).skip(1) =~= views.skip(place + 1));
        place = place + 1;
    }
    if place < sorted.len() {
        assert(views.skip(place as int)[0] == sorted@[place as int]@);
    }
    place
}

fn sort_by_size(groups: Vec<RuneStyleGroup>) -> (sorted: Vec<RuneStyleGroup>)
    ensures
        group_views(sorted@) == by_size(group_views(groups@)),
{
    let ghost all = group_views(groups@);
    let ghost mut done: int = 0;
    let mut rest = groups;
    let mut sorted: Vec<RuneStyleGroup> = Vec::new();
    assert(all.skip(0) =~= all);
    assert(group_views(sorted@) =~= by_size(all.take(0)));
    while rest.len() > 0
        invariant
            0 <= done <= all.len(),
            group_views(rest@) == all.skip(done),
            group_views(sorted@) == by_size(all.take(done)),
        decreases rest.len(),
    {
        let ghost before = group_views(sorted@);
        let ghost left = rest@;
        assert(group_views(left).len() == left.len());
        assert(group_views(left)[0] == left[0]@);
        let group = rest.remove(0);
        let place = place_of(&sorted, group.runes.len());
        sorted.insert(place, group);
        proof {
            assert(all[done] == group@);
            assert(all.take(done + 1).drop_last() =~= all.take(done));
            assert(all.take(done + 1).last() == group@);
            assert(group_views(sorted@) =~= before.insert(place as int, group@));
            assert(rest@ =~= left.subrange(1, left.len() as int));
            assert forall|k: int| 0 <= k < rest@.len() implies group_views(rest@)[k] == all.skip(
                done + 1,
            )[k] by {
                assert(group_views(left)[k + 1] == left[k + 1]@);
                assert(all.skip(done)[k + 1] == all[done + 1 + k]);
            }
            assert(group_views(rest@) =~= all.skip(done + 1));
            done = done + 1;
        }
    }
    assert(all.take(done) =~= all);
    sorted
}

/// Groups the rune ids by the style that the metadata gives them. Ids that
/// the metadata does not know are left out. A group keeps the order of
/// `rune_ids` inside. The groups stand with the larger before the smaller,
/// and groups of one size in the order in which their styles first appear.
pub fn group_runes(rune_ids: &[i64], rune_data: &HashMap<i64, RuneExtended>) -> (groups: Vec<
    RuneStyleGroup,
>)
    ensures
        group_views(groups@) == arranged(rune_ids@, rune_data@),
{
    sort_by_size(group_by_style(rune_ids, rune_data))
}

fn group_by_style(rune_ids: &[i64], rune_data: &HashMap<i64, RuneExtended>) -> (groups: Vec<
    RuneStyleGroup,
>)
    ensures
        group_views(groups@) == grouped(rune_ids@, rune_data@),
{
    let mut groups: Vec<RuneStyleGroup> = Vec::new();
    let mut i: usize = 0;
    assert(group_views(groups@) =~= grouped(rune_ids@.take(0), rune_data@));
    while i < rune_ids.len()
        invariant
            i <= rune_ids.len(),
            group_views(groups@) == grouped(rune_ids@.take(i as int), rune_data@),
        decreases rune_ids.len() - i,
    {
        let id = rune_ids[i];
        let ghost seen = rune_ids@.take(i as int);
        let ghost next = rune_ids@.take(i + 1);
        let ghost meta = rune_data@;
        let ghost styles = known_styles(seen, meta);
        let ghost old_views = group_views(groups@);
        proof {
            assert(next.drop_last() =~= seen);
            assert(next.last() == id);
            lemma_known_styles_distinct(seen, meta);
            assert(old_views.len() == groups.len());
            assert(grouped(seen, meta).len() == styles.len());
            assert forall|k: int| 0 <= k < groups.len() implies groups[k].style_id
                == styles[k] by {
                assert(old_views[k].style_id == styles[k]);
            }
        }
        match rune_data.get(&id) {
            Some(rune) => {
                let style = rune.parent_id;
                proof {
                    lemma_members_of_listed_style(seen, meta, style);
                }
                match style_position(&groups, style) {
                    Some(pos) => {
                        groups[pos].runes.push((id, *rune));
                        proof {
                            assert(styles[pos as int] == style);
                            assert(styles.contains(style));
                            assert(known_styles(next, meta) == styles);
                            assert forall|k: int| 0 <= k < groups.len() implies group_views(
                                groups@,
                            )[k] == grouped(next, meta)[k] by {
                                assert(old_views[k] == grouped(seen, meta)[k]);
                                if k != pos {
                                    assert(styles[k] != style);
                                }
                            }
                            assert(group_views(groups@) =~= grouped(next, meta));
                        }
                    },
                    None => {
                        let mut runes: Vec<(i64, RuneExtended)> = Vec::new();
                        runes.push((id, *rune));
                        groups.push(RuneStyleGroup { style_id: style, runes });
                        proof {
                            if styles.contains(style) {
                                let k = choose|k: int| 0 <= k < styles.len() && styles[k] == style;
                                assert(groups[k].style_id == style);
                            }
                            assert(known_styles(next, meta) == styles.push(style));
                            assert(style_members(seen, meta, style).len() == 0);
                            assert(runes@ =~= style_members(next, meta, style));
                            assert forall|k: int| 0 <= k < groups.len() implies group_views(
                                groups@,
                            )[k] == grouped(next, meta)[k] by {
                                if k < styles.len() {
                                    assert(old_views[k] == grouped(seen, meta)[k]);
                                    assert(styles[k] != style);
                                }
                            }
                            assert(group_views(groups@) =~= grouped(next, meta));
                        }
                    },
                }
            },
            None => {
                proof {
                    assert(known_styles(next, meta) == styles);
                    assert forall|k: int| 0 <= k < groups.len() implies group_views(groups@)[k]
                        == grouped(next, meta)[k] by {
                        assert(old_views[k] == grouped(seen, meta)[k]);
                    }
                    assert(group_views(groups@) =~= grouped(next, meta));
                }
            },
        }
        i = i + 1;
    }
    assert(rune_ids@.take(i as int) =~= rune_ids@);
    groups
}

fn keystone_among_first(group: &RuneStyleGroup, count: usize) -> (r: bool)
    requires
        count <= group.runes.len(),
    ensures
        r == has_keystone(group.runes@.take(count as int)),
{
    let mut k: usize = 0;
    while k < count
        invariant
            k <= count <= group.runes.len(),
            forall|j: int| 0 <= j < k ==> (#[trigger] group.runes@.take(count as int)[j]).1.slot != 0,
        decreases count - k,
    {
        assert(group.runes@.take(count as int)[k as int] == group.runes@[k as int]);
        if group.runes[k].1.slot == 0 {
            return true;
        }
        k = k + 1;
    }
    false
}

fn push_rune_ids(out: &mut Vec<i64>, group: &RuneStyleGroup, count: usize)
    requires
        count <= group.runes.len(),
    ensures
        final(out)@ == old(out)@ + ids_of(group.runes@).take(count as int),
{
    let mut k: usize = 0;
    while k < count
        invariant
            k <= count <= group.runes.len(),
            out@ == old(out)@ + ids_of(group.runes@).take(k as int),
        decreases count - k,
    {
        out.push(group.runes[k].0);
        k = k + 1;
        assert(ids_of(group.runes@).take(k as int) =~= ids_of(group.runes@).take(k - 1).push(
            group.runes@[k - 1].0,
        ));
    }
}

fn push_ids(out: &mut Vec<i64>, ids: &[i64])
    ensures
        final(out)@ == old(out)@ + ids@,
{
    let mut k: usize = 0;
    while k < ids.len()
        invariant
            k <= ids.len(),
            out@ == old(out)@ + ids@.take(k as int),
        decreases ids.len() - k,
    {
        out.push(ids[k]);
        k = k + 1;
        assert(ids@.take(k as int) =~= ids@.take(k - 1).push(ids@[k - 1]));
    }
    assert(ids@.take(k as int) =~= ids@);
}

fn makes_split(primary: &RuneStyleGroup, secondary: &RuneStyleGroup) -> (r: bool)
    ensures
        r == is_split(primary@, secondary@),
{
    assert(secondary.runes@.take(secondary.runes@.len() as int) =~= secondary.runes@);
    primary.runes.len() >= 4 && secondary.runes.len() >= 2 && primary.style_id
        != secondary.style_id && keystone_among_first(primary, 4) && !keystone_among_first(
        secondary,
        secondary.runes.len(),
    )
}

/// Builds the perk array of a page from grouped runes and shards.
///
/// Two groups of different styles make a page when one of them has four
/// runes or more, with a keystone (a rune of row 0) among the first four,
/// and the other has two or more and no keystone. The page then names the
/// keystone's style as primary and the other as secondary, and lists the
/// first four of the one, the first two of the other, then the shards; runes
/// beyond these are left out. Anything else gives `UNSET_STYLE` for both
/// styles, with all rune ids, group after group, before the shards: such a
/// page must not be published.
pub fn generate_perk_array(grouped_runes: &[RuneStyleGroup], shards: &[i64]) -> (page: (
    i64,
    i64,
    Vec<i64>,
))
    ensures
        page.0 == perk_array(group_views(grouped_runes@), shards@).0,
        page.1 == perk_array(group_views(grouped_runes@), shards@).1,
        page.2@ == perk_array(group_views(grouped_runes@), shards@).2,
{
    let ghost views = group_views(grouped_runes@);
    let mut selected_perk_ids: Vec<i64> = Vec::new();
    if grouped_runes.len() == 2 {
        let first = &grouped_runes[0];
        let second = &grouped_runes[1];
        assert(views[0] == first@ && views[1] == second@);
        if makes_split(first, second) {
            push_rune_ids(&mut selected_perk_ids, first, 4);
            push_rune_ids(&mut selected_perk_ids, second, 2);
            push_ids(&mut selected_perk_ids, shards);
            assert(selected_perk_ids@ =~= ids_of(first.runes@).take(4) + ids_of(
                second.runes@,
            ).take(2) + shards@);
            return (first.style_id, second.style_id, selected_perk_ids);
        }
        if makes_split(second, first) {
            push_rune_ids(&mut selected_perk_ids, second, 4);
            push_rune_ids(&mut selected_perk_ids, first, 2);
            push_ids(&mut selected_perk_ids, shards);
            assert(selected_perk_ids@ =~= ids_of(second.runes@).take(4) + ids_of(
                first.runes@,
            ).take(2) + shards@);
            return (second.style_id, first.style_id, selected_perk_ids);
        }
    }
    let mut k: usize = 0;
    assert(views.take(0) =~= Seq::empty());
    while k < grouped_runes.len()
        invariant
            k <= grouped_runes.len(),
            views == group_views(grouped_runes@),
            selected_perk_ids@ == collected(views.take(k as int)),
        decreases grouped_runes.len() - k,
    {
        let group = &grouped_runes[k];
        push_rune_ids(&mut selected_perk_ids, group, group.runes.len());
        assert(ids_of(group.runes@).take(group.runes@.len() as int) =~= ids_of(group.runes@));
        k = k + 1;
        assert(views.take(k as int).drop_last() =~= views.take(k - 1));
        assert(views.take(k as int).last() == grouped_runes@[k - 1]@);
    }
    assert(views.take(k as int) =~= views);
    push_ids(&mut selected_perk_ids, shards);
    (UNSET_STYLE, UNSET_STYLE, selected_perk_ids)
}

/// Maps a recommendation to a page: groups the runes by style, then builds
/// the perk array. `rune_data` is only ever looked up by rune id.
pub fn build_page(
    rune_ids: &[i64],
    shard_ids: &[i64],
    rune_data: &HashMap<i64, RuneExtended>,
) -> (page: (i64, i64, Vec<i64>))
    ensures
        page.0 == page_of(rune_ids@, shard_ids@, rune_data@).0,
        page.1 == page_of(rune_ids@, shard_ids@, rune_data@).1,
        page.2@ == page_of(rune_ids@, shard_ids@, rune_data@).2,
{
    let groups = group_runes(rune_ids, rune_data);
    generate_perk_array(groups.as_slice(), shard_ids)
}

} // verus!
