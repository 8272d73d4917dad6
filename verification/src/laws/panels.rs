//! The panels beside a document, its menu and its table of contents.

use vstd::prelude::*;

use crate::messages::Message;
use crate::outline::{row_of, rows_of, rows_upto, OutlineRowView};
use crate::page::{Coord, Outline, OutlineItem};
use crate::ready::ReadyView;
use crate::state::ActionView;

verus! {

/// Each panel opens where it was closed, and closes where it was open; the
/// others stay. The small bitmaps go with the panel that shows them, and one
/// that opens is scrolled to where it was.
pub proof fn law_panels_open_and_close(v: ReadyView)
    ensures
        v.handled(Message::ToggleSignatures).0 == (ReadyView {
            signatures_open: !v.signatures_open,
            ..v
        }),
        v.handled(Message::ToggleOverflow).0 == (ReadyView {
            overflow_open: !v.overflow_open,
            ..v
        }),
        ({
            let after = v.handled(Message::TogglePages);
            &&& after.0.pages_open == !v.pages_open
            &&& v.pages_open ==> after.0.thumbs.len() == 0
            &&& !v.pages_open ==> after.0.thumbs == v.thumbs && after.1.contains(
                ActionView::ScrollPages { y: v.pages_scroll_y },
            )
            &&& after.1.contains(ActionView::Schedule)
            &&& forall|key: crate::cache::RenderKey| !after.0.failed.contains(key)
            &&& after.0 == (ReadyView {
                pages_open: !v.pages_open,
                thumbs: after.0.thumbs,
                failed: after.0.failed,
                ..v
            })
        }),
{
    let after = v.handled(Message::TogglePages);
    assert(after.1[0] is Schedule);
    if !v.pages_open {
        assert(after.1[1] == (ActionView::ScrollPages { y: v.pages_scroll_y }));
    }
}

/// The table of contents is shown where there is one, and hidden where that is
/// asked for.
pub proof fn law_table_is_shown_where_there_is_one(v: ReadyView, shown: bool)
    ensures
        v.handled(Message::OutlineTab { shown }).0 == (ReadyView {
            outline_open: if shown {
                v.outline is Some
            } else {
                false
            },
            ..v
        }),
{
}

/// The panel of pages keeps where it was scrolled to.
pub proof fn law_panel_keeps_its_place(v: ReadyView, y: Coord)
    ensures
        v.handled(Message::PagesScrolled { y }).0 == (ReadyView { pages_scroll_y: y, ..v }),
        v.handled(Message::PagesScrolled { y }).1 == seq![ActionView::Schedule],
{
    assert(v.handled(Message::PagesScrolled { y }).1 =~= seq![ActionView::Schedule]);
}

/// An entry that is folded is collapsed, and one that is unfolded is not; the
/// others stay. The keyboard leaves an entry that was folded away.
pub proof fn law_entries_fold_and_unfold(v: ReadyView, path: Vec<usize>, other: Seq<usize>)
    ensures
        ({
            let after = v.handled(Message::OutlineFold { path }).0;
            &&& after.outline_collapsed.contains(path@) == !v.outline_collapsed.contains(path@)
            &&& other != path@ ==> after.outline_collapsed.contains(other)
                == v.outline_collapsed.contains(other)
            &&& after == (ReadyView {
                outline_collapsed: after.outline_collapsed,
                outline_cursor: after.outline_cursor,
                ..v
            })
            &&& match v.outline_cursor {
                Some(at) => if !v.outline_collapsed.contains(path@) && path@.len() < at.len()
                    && at.take(path@.len() as int) == path@ {
                    after.outline_cursor is None
                } else {
                    after.outline_cursor == Some(at)
                },
                None => after.outline_cursor is None,
            }
        }),
{
}

/// The row of an entry shows its title and its page, and stands as deep as the
/// entry does.
pub proof fn law_rows_show_their_entry(item: OutlineItem, path: Seq<usize>)
    requires
        path.len() > 0,
    ensures
        row_of(item, path).title == item.title@,
        row_of(item, path).page == item.page,
        row_of(item, path).path == path,
        row_of(item, path).depth == path.len() - 1,
        row_of(item, path).has_children <==> item.children@.len() > 0,
{
}

/// How many entries a level has together with all that is below it.
pub open spec fn entries_below(items: Vec<OutlineItem>, n: int) -> nat
    decreases items, n,
{
    if n <= 0 || n > items@.len() {
        0
    } else {
        entries_below(items, n - 1) + 1 + entries_below(
            items[n - 1].children,
            items[n - 1].children@.len() as int,
        )
    }
}

proof fn lemma_all_rows(
    items: Vec<OutlineItem>,
    n: int,
    path: Seq<usize>,
    collapsed: Set<Seq<usize>>,
)
    requires
        collapsed == Set::<Seq<usize>>::empty(),
    ensures
        rows_upto(items, n, path, collapsed).len() == entries_below(items, n),
    decreases items, n,
{
    if 0 < n <= items@.len() {
        let item = items[n - 1];
        let here = path.push((n - 1) as usize);
        lemma_all_rows(items, n - 1, path, collapsed);
        lemma_all_rows(item.children, item.children@.len() as int, here, collapsed);
    }
}

/// Where nothing is collapsed every entry has a row, and where there is no
/// table there is none.
pub proof fn law_every_entry_has_a_row(outline: Option<Outline>)
    ensures
        rows_of(outline, Set::<Seq<usize>>::empty()).len() == match outline {
            Some(table) => entries_below(table.items, table.items@.len() as int),
            None => 0,
        },
{
    if let Some(table) = outline {
        lemma_all_rows(
            table.items,
            table.items@.len() as int,
            Seq::empty(),
            Set::<Seq<usize>>::empty(),
        );
    }
}

/// Whether a row is that of the first entries of a level: of one of them, or of
/// one below it.
pub open spec fn at_top(rows: Seq<OutlineRowView>, items: Vec<OutlineItem>, k: int, i: int) -> bool {
    &&& 0 <= k < rows.len()
    &&& 0 <= i < items@.len()
    &&& rows[k] == row_of(items[i], seq![i as usize])
}

proof fn lemma_top_rows(items: Vec<OutlineItem>, n: int, collapsed: Set<Seq<usize>>, i: int)
    requires
        0 <= i < n <= items@.len(),
    ensures
        exists|k: int| #[trigger] at_top(rows_upto(items, n, Seq::empty(), collapsed), items, k, i),
    decreases n,
{
    let rows = rows_upto(items, n, Seq::empty(), collapsed);
    let front = rows_upto(items, n - 1, Seq::empty(), collapsed);
    let here = Seq::<usize>::empty().push((n - 1) as usize);
    if i == n - 1 {
        assert(here =~= seq![i as usize]);
        assert(at_top(rows, items, front.len() as int, i));
    } else {
        lemma_top_rows(items, n - 1, collapsed, i);
        let k = choose|k: int| #[trigger] at_top(front, items, k, i);
        assert(rows[k] == front[k]);
        assert(at_top(rows, items, k, i));
    }
}

/// The entries of the first level always have their rows.
pub proof fn law_first_level_is_always_shown(table: Outline, collapsed: Set<Seq<usize>>, i: int)
    requires
        0 <= i < table.items@.len(),
    ensures
        exists|k: int| #[trigger] at_top(rows_of(Some(table), collapsed), table.items, k, i),
{
    lemma_top_rows(table.items, table.items@.len() as int, collapsed, i);
    let rows = rows_upto(table.items, table.items@.len() as int, Seq::empty(), collapsed);
    let k = choose|k: int| #[trigger] at_top(rows, table.items, k, i);
    assert(at_top(rows_of(Some(table), collapsed), table.items, k, i));
}

/// The rows come entry by entry: what comes before an entry of a level is what
/// its neighbours before it have, its own row follows, and behind that the rows
/// of the entries below it, unless it is collapsed.
pub proof fn law_rows_come_in_order(
    items: Vec<OutlineItem>,
    n: int,
    path: Seq<usize>,
    collapsed: Set<Seq<usize>>,
)
    requires
        0 <= n < items@.len(),
    ensures
        ({
            let before = rows_upto(items, n, path, collapsed);
            let after = rows_upto(items, n + 1, path, collapsed);
            let here = path.push(n as usize);
            let below = items[n].children;
            &&& after.len() > before.len()
            &&& after.take(before.len() as int) == before
            &&& after[before.len() as int] == row_of(items[n], here)
            &&& collapsed.contains(here) ==> after.len() == before.len() + 1
            &&& !collapsed.contains(here) ==> after.skip((before.len() + 1) as int) == rows_upto(
                below,
                below@.len() as int,
                here,
                collapsed,
            )
        }),
{
    let before = rows_upto(items, n, path, collapsed);
    let after = rows_upto(items, n + 1, path, collapsed);
    let here = path.push(n as usize);
    let below = items[n].children;
    assert(after.take(before.len() as int) =~= before);
    if !collapsed.contains(here) {
        assert(after.skip((before.len() + 1) as int) =~= rows_upto(
            below,
            below@.len() as int,
            here,
            collapsed,
        ));
    }
}

} // verus!
