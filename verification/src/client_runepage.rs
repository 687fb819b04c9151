//! Rune pages as the client lists them and as it takes them.

use crate::text::is_prefix;
use vstd::prelude::*;

verus! {

/// A rune page that the client holds.
#[derive(Clone, Debug, PartialEq, Eq)]
pub struct RunePage {
    pub id: i64,
    pub name: String,
    /// The page is the one in use.
    pub current: bool,
    pub is_deletable: bool,
    pub primary_style_id: i64,
    pub sub_style_id: i64,
    pub selected_perk_ids: Vec<i64>,
}

/// A rune page to create.
#[derive(Clone, Debug, PartialEq, Eq)]
pub struct NewRunePage {
    pub name: String,
    pub primary_style_id: i64,
    pub sub_style_id: i64,
    pub selected_perk_ids: Vec<i64>,
}

/// A page to create as plain values.
pub struct NewRunePageView {
    pub name: Seq<char>,
    pub primary_style_id: i64,
    pub sub_style_id: i64,
    pub selected_perk_ids: Seq<i64>,
}

impl View for NewRunePage {
    type V = NewRunePageView;

    open spec fn view(&self) -> NewRunePageView {
        NewRunePageView {
            name: self.name@,
            primary_style_id: self.primary_style_id,
            sub_style_id: self.sub_style_id,
            selected_perk_ids: self.selected_perk_ids@,
        }
    }
}

/// The page is one that this library named and that may be deleted.
pub open spec fn is_tool_page(page: RunePage) -> bool {
    is_prefix("uggo:"@, page.name@) && page.is_deletable
}

/// The page is the one in use and may be deleted.
pub open spec fn is_active_page(page: RunePage) -> bool {
    page.current && page.is_deletable
}

/// The page can be replaced: as a page of this library's making where
/// `tool` is set, else as the page in use.
pub open spec fn eligible(page: RunePage, tool: bool) -> bool {
    if tool {
        is_tool_page(page)
    } else {
        is_active_page(page)
    }
}

/// The position of the first eligible page.
pub open spec fn first_page(pages: Seq<RunePage>, tool: bool) -> Option<int>
    decreases pages.len(),
{
    if pages.len() == 0 {
        None
    } else {
        match first_page(pages.drop_last(), tool) {
            Some(i) => Some(i),
            None => if eligible(pages.last(), tool) {
                Some(pages.len() - 1)
            } else {
                None
            },
        }
    }
}

/// The position of the page that a new page replaces: the first page of this
/// library's making that may be deleted; without one, the first page that is
/// in use and may be deleted.
pub open spec fn replace_target(pages: Seq<RunePage>) -> Option<int> {
    match first_page(pages, true) {
        Some(i) => Some(i),
        None => first_page(pages, false),
    }
}

/// `first_page` finds an eligible page that no eligible page precedes, and
/// finds nothing only where no page is eligible.
pub proof fn lemma_first_page(pages: Seq<RunePage>, tool: bool)
    ensures
        match first_page(pages, tool) {
            Some(i) => {
                &&& 0 <= i < pages.len()
                &&& eligible(pages[i], tool)
                &&& forall|j: int| 0 <= j < i ==> !eligible(#[trigger] pages[j], tool)
            },
            None => forall|j: int| 0 <= j < pages.len() ==> !eligible(#[trigger] pages[j], tool),
        },
    decreases pages.len(),
{
    if pages.len() > 0 {
        lemma_first_page(pages.drop_last(), tool);
        assert forall|j: int| 0 <= j < pages.len() - 1 implies pages.drop_last()[j]
            == pages[j] by {}
        match first_page(pages.drop_last(), tool) {
            Some(i) => {
                assert(pages.drop_last()[i] == pages[i]);
                assert forall|j: int| 0 <= j < i implies !eligible(#[trigger] pages[j], tool) by {
                    assert(pages.drop_last()[j] == pages[j]);
                }
            },
            None => {
                assert forall|j: int| 0 <= j < pages.len() - 1 implies !eligible(
                    #[trigger] pages[j],
                    tool,
                ) by {
                    assert(pages.drop_last()[j] == pages[j]);
                }
            },
        }
    }
}

/// How many of the pages are of this library's making and may be deleted.
pub open spec fn tool_pages(pages: Seq<RunePage>) -> nat
    decreases pages.len(),
{
    if pages.len() == 0 {
        0
    } else {
        tool_pages(pages.drop_last()) + if is_tool_page(pages.last()) {
            1nat
        } else {
            0nat
        }
    }
}

/// The client's pages once a new page has been published and the client has
/// done as asked: the page to replace is gone, and `created` has joined.
pub open spec fn replaced(pages: Seq<RunePage>, created: RunePage) -> Seq<RunePage> {
    match replace_target(pages) {
        Some(i) => pages.remove(i).push(created),
        None => pages.push(created),
    }
}

proof fn lemma_tool_pages_remove(pages: Seq<RunePage>, i: int)
    requires
        0 <= i < pages.len(),
    ensures
        tool_pages(pages.remove(i)) + (if is_tool_page(pages[i]) {
            1nat
        } else {
            0nat
        }) == tool_pages(pages),
    decreases pages.len(),
{
    if i == pages.len() - 1 {
        assert(pages.remove(i) =~= pages.drop_last());
    } else {
        lemma_tool_pages_remove(pages.drop_last(), i);
        assert(pages.remove(i).drop_last() =~= pages.drop_last().remove(i));
        assert(pages.remove(i).last() == pages.last());
    }
}

proof fn lemma_tool_pages_none(pages: Seq<RunePage>)
    ensures
        tool_pages(pages) == 0 <==> forall|j: int|
            0 <= j < pages.len() ==> !is_tool_page(#[trigger] pages[j]),
    decreases pages.len(),
{
    if pages.len() > 0 {
        lemma_tool_pages_none(pages.drop_last());
        if tool_pages(pages) == 0 {
            assert forall|j: int| 0 <= j < pages.len() implies !is_tool_page(
                #[trigger] pages[j],
            ) by {
                if j < pages.len() - 1 {
                    assert(pages.drop_last()[j] == pages[j]);
                }
            }
        } else if forall|j: int| 0 <= j < pages.len() ==> !is_tool_page(#[trigger] pages[j]) {
            assert forall|j: int| 0 <= j < pages.len() - 1 implies !is_tool_page(
                #[trigger] pages.drop_last()[j],
            ) by {
                assert(pages.drop_last()[j] == pages[j]);
            }
            assert(!is_tool_page(pages[pages.len() - 1]));
        }
    }
}

/// Publishing does not let pages of this library's making pile up: where
/// the client held at most one and does as asked, it holds exactly one
/// afterwards, and a replaced page leaves the number of pages as it was.
pub proof fn lemma_replace_keeps_one_tool_page(pages: Seq<RunePage>, created: RunePage)
    requires
        tool_pages(pages) <= 1,
        is_tool_page(created),
    ensures
        tool_pages(replaced(pages, created)) == 1,
        replace_target(pages) is Some ==> replaced(pages, created).len() == pages.len(),
        replace_target(pages) is None ==> replaced(pages, created).len() == pages.len() + 1,
{
    lemma_first_page(pages, true);
    lemma_first_page(pages, false);
    lemma_tool_pages_none(pages);
    match replace_target(pages) {
        Some(i) => {
            lemma_tool_pages_remove(pages, i);
            if first_page(pages, true) is None {
                assert(!eligible(pages[i], true));
            } else {
                assert(eligible(pages[i], true));
            }
            assert(pages.remove(i).push(created).drop_last() =~= pages.remove(i));
        },
        None => {
            assert(pages.push(created).drop_last() =~= pages);
            assert forall|j: int| 0 <= j < pages.len() implies !is_tool_page(
                #[trigger] pages[j],
            ) by {
                assert(!eligible(pages[j], true));
            }
        },
    }
}

} // verus!
