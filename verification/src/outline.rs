//! The table of contents as it is shown: one row to each entry that no
//! collapsed entry hides.

use vstd::prelude::*;

use crate::page::{Outline, OutlineItem, PageNo};

verus! {

/// A row of the table of contents. The path leads to the entry: a place
/// among the entries of each level.
#[derive(Debug)]
pub struct OutlineRow<'a> {
    pub path: Vec<usize>,
    pub depth: usize,
    pub title: &'a str,
    pub page: PageNo,
    pub has_children: bool,
}

/// What a row shows.
pub struct OutlineRowView {
    pub path: Seq<usize>,
    pub depth: nat,
    pub title: Seq<char>,
    pub page: PageNo,
    pub has_children: bool,
}

impl<'a> View for OutlineRow<'a> {
    type V = OutlineRowView;

    open spec fn view(&self) -> OutlineRowView {
        OutlineRowView {
            path: self.path@,
            depth: self.depth as nat,
            title: self.title@,
            page: self.page,
            has_children: self.has_children,
        }
    }
}

/// What each row shows.
pub open spec fn row_views(rows: Seq<OutlineRow<'_>>) -> Seq<OutlineRowView> {
    rows.map_values(|row: OutlineRow<'_>| row@)
}

/// The paths in a list.
pub open spec fn path_set(list: Seq<Vec<usize>>) -> Set<Seq<usize>> {
    Set::new(|path: Seq<usize>| exists|i: int| 0 <= i < list.len() && (#[trigger] list[i])@ == path)
}

/// The row of an entry.
pub open spec fn row_of(item: OutlineItem, path: Seq<usize>) -> OutlineRowView {
    OutlineRowView {
        path,
        depth: (path.len() - 1) as nat,
        title: item.title@,
        page: item.page,
        has_children: item.children@.len() > 0,
    }
}

/// The rows of the first `n` entries of a level and of what is below them.
pub open spec fn rows_upto(
    items: Vec<OutlineItem>,
    n: int,
    path: Seq<usize>,
    collapsed: Set<Seq<usize>>,
) -> Seq<OutlineRowView>
    decreases items, n,
{
    if n <= 0 || n > items@.len() {
        Seq::empty()
    } else {
        let item = items[n - 1];
        let here = path.push((n - 1) as usize);
        let above = rows_upto(items, n - 1, path, collapsed).push(row_of(item, here));
        if collapsed.contains(here) {
            above
        } else {
            above + rows_upto(item.children, item.children@.len() as int, here, collapsed)
        }
    }
}

/// The rows of a table of contents; none where there is no table.
pub open spec fn rows_of(outline: Option<Outline>, collapsed: Set<Seq<usize>>) -> Seq<
    OutlineRowView,
> {
    match outline {
        Some(table) => rows_upto(
            table.items,
            table.items@.len() as int,
            Seq::empty(),
            collapsed,
        ),
        None => Seq::empty(),
    }
}

/// Whether one path leads to an entry above that of another.
pub open spec fn above(upper: Seq<usize>, lower: Seq<usize>) -> bool {
    upper.len() < lower.len() && lower.take(upper.len() as int) == upper
}

/// Whether a collapsed entry hides the one that a path leads to. The empty
/// path leads to no entry, and hides none.
pub open spec fn hidden(path: Seq<usize>, collapsed: Set<Seq<usize>>) -> bool {
    exists|upper: Seq<usize>| #[trigger]
        collapsed.contains(upper) && upper.len() > 0 && above(upper, path)
}

/// The same path again.
pub fn copy_path(path: &Vec<usize>) -> (r: Vec<usize>)
    ensures
        r@ == path@,
{
    let mut r: Vec<usize> = Vec::new();
    let mut i: usize = 0;
    while i < path.len()
        invariant
            i <= path@.len(),
            r@ == path@.take(i as int),
        decreases path@.len() - i,
    {
        r.push(path[i]);
        i += 1;
        assert(r@ =~= path@.take(i as int));
    }
    assert(r@ =~= path@);
    r
}

/// Whether two paths are the same.
pub fn same_path(a: &Vec<usize>, b: &Vec<usize>) -> (r: bool)
    ensures
        r == (a@ == b@),
{
    if a.len() != b.len() {
        return false;
    }
    let r = begins_with(a, b);
    proof {
        if r {
            assert(a@ =~= b@);
        } else {
            assert(b@.take(b@.len() as int) =~= b@);
            assert(a@.take(b@.len() as int) =~= a@);
        }
    }
    r
}

/// Whether a path begins with another.
pub fn begins_with(path: &Vec<usize>, start: &Vec<usize>) -> (r: bool)
    ensures
        r == (start@.len() <= path@.len() && path@.take(start@.len() as int) == start@),
{
    if start.len() > path.len() {
        return false;
    }
    let mut i: usize = 0;
    while i < start.len()
        invariant
            i <= start@.len() <= path@.len(),
            forall|j: int| 0 <= j < i ==> path@[j] == start@[j],
        decreases start@.len() - i,
    {
        if path[i] != start[i] {
            assert(path@.take(start@.len() as int)[i as int] != start@[i as int]);
            return false;
        }
        i += 1;
    }
    assert(path@.take(start@.len() as int) =~= start@);
    true
}

/// Whether a list holds a path.
pub fn has_path(list: &Vec<Vec<usize>>, path: &Vec<usize>) -> (r: bool)
    ensures
        r == path_set(list@).contains(path@),
{
    let mut i: usize = 0;
    while i < list.len()
        invariant
            i <= list@.len(),
            forall|j: int| 0 <= j < i ==> (#[trigger] list@[j])@ != path@,
        decreases list@.len() - i,
    {
        if same_path(&list[i], path) {
            assert(list@[i as int]@ == path@);
            return true;
        }
        i += 1;
    }
    false
}

/// The list without a path.
pub fn without_path(list: &Vec<Vec<usize>>, path: &Vec<usize>) -> (r: Vec<Vec<usize>>)
    ensures
        path_set(r@) == path_set(list@).remove(path@),
{
    let mut r: Vec<Vec<usize>> = Vec::new();
    let mut i: usize = 0;
    proof {
        assert(path_set(r@) =~= path_set(list@.take(0)).remove(path@));
    }
    while i < list.len()
        invariant
            i <= list@.len(),
            path_set(r@) == path_set(list@.take(i as int)).remove(path@),
        decreases list@.len() - i,
    {
        let ghost before = r@;
        let ghost front = list@.take(i as int);
        proof {
            lemma_path_set_push(front, list@[i as int]);
            assert(front.push(list@[i as int]) =~= list@.take(i + 1));
        }
        if !same_path(&list[i], path) {
            let kept = copy_path(&list[i]);
            r.push(kept);
            proof {
                lemma_path_set_push(before, kept);
                assert(path_set(r@) =~= path_set(list@.take(i + 1)).remove(path@));
            }
        } else {
            assert(path_set(r@) =~= path_set(list@.take(i + 1)).remove(path@));
        }
        i += 1;
    }
    assert(list@.take(i as int) =~= list@);
    r
}

pub(crate) proof fn lemma_path_set_push(list: Seq<Vec<usize>>, path: Vec<usize>)
    ensures
        path_set(list.push(path)) == path_set(list).insert(path@),
{
    let more = list.push(path);
    assert forall|p: Seq<usize>| path_set(more).contains(p) <==> path_set(list).insert(
        path@,
    ).contains(p) by {
        if path_set(list).contains(p) {
            let i = choose|i: int| 0 <= i < list.len() && (#[trigger] list[i])@ == p;
            assert(more[i]@ == p);
        }
        if p == path@ {
            assert(more[list.len() as int]@ == p);
        }
        if path_set(more).contains(p) {
            let i = choose|i: int| 0 <= i < more.len() && (#[trigger] more[i])@ == p;
            if i < list.len() {
                assert(list[i]@ == p);
            }
        }
    }
    assert(path_set(more) =~= path_set(list).insert(path@));
}

fn walk<'a>(
    items: &'a Vec<OutlineItem>,
    path: &mut Vec<usize>,
    collapsed: &Vec<Vec<usize>>,
    rows: &mut Vec<OutlineRow<'a>>,
)
    ensures
        final(path)@ == old(path)@,
        row_views(final(rows)@) == row_views(old(rows)@) + rows_upto(
            *items,
            items@.len() as int,
            old(path)@,
            path_set(collapsed@),
        ),
    decreases *items,
{
    let ghost here = path@;
    let ghost start = row_views(rows@);
    let mut i: usize = 0;
    assert(start + rows_upto(*items, 0, here, path_set(collapsed@)) =~= start);
    while i < items.len()
        invariant
            i <= items@.len(),
            path@ == here,
            row_views(rows@) == start + rows_upto(
                *items,
                i as int,
                here,
                path_set(collapsed@),
            ),
        decreases items@.len() - i,
    {
        let item = &items[i];
        let ghost before = rows@;
        path.push(i);
        let row = OutlineRow {
            path: copy_path(path),
            depth: path.len() - 1,
            title: item.title.as_str(),
            page: item.page,
            has_children: item.children.len() > 0,
        };
        assert(row@ == row_of(*item, here.push(i)));
        rows.push(row);
        assert(row_views(rows@) =~= row_views(before).push(row@));
        let ghost middle = row_views(rows@);
        if !has_path(collapsed, path) {
            assert(decreases_to!(*items => items[i as int]));
            walk(&item.children, path, collapsed, rows);
        }
        path.pop();
        i += 1;
        assert(path@ =~= here);
        assert(row_views(rows@) =~= start + rows_upto(
            *items,
            i as int,
            here,
            path_set(collapsed@),
        ));
    }
}

/// The rows of a table of contents, from top to bottom.
pub fn outline_rows<'a>(outline: &'a Option<Outline>, collapsed: &Vec<Vec<usize>>) -> (rows: Vec<
    OutlineRow<'a>,
>)
    ensures
        row_views(rows@) == rows_of(*outline, path_set(collapsed@)),
{
    let mut rows: Vec<OutlineRow<'a>> = Vec::new();
    assert(row_views(rows@) =~= Seq::<OutlineRowView>::empty());
    if let Some(table) = outline {
        let mut path: Vec<usize> = Vec::new();
        assert(path@ =~= Seq::<usize>::empty());
        walk(&table.items, &mut path, collapsed, &mut rows);
        assert(row_views(rows@) =~= rows_of(*outline, path_set(collapsed@)));
    }
    rows
}

/// The place of the last of the first `n` rows that begins on the visible
/// page or before it.
pub open spec fn active_upto(rows: Seq<OutlineRowView>, visible: PageNo, n: int) -> Option<int>
    decreases n,
{
    if n <= 0 {
        None
    } else if rows[n - 1].page.0 <= visible.0 {
        Some(n - 1)
    } else {
        active_upto(rows, visible, n - 1)
    }
}

/// The path of the entry that the visible page belongs to.
pub open spec fn active_path(rows: Seq<OutlineRowView>, visible: PageNo) -> Option<Seq<usize>> {
    match active_upto(rows, visible, rows.len() as int) {
        Some(i) => Some(rows[i].path),
        None => None,
    }
}

/// The path of the entry that the visible page belongs to.
pub fn outline_active(rows: &Vec<OutlineRow<'_>>, visible: PageNo) -> (r: Option<Vec<usize>>)
    ensures
        match active_path(row_views(rows@), visible) {
            Some(path) => r is Some && r->0@ == path,
            None => r is None,
        },
{
    let mut n: usize = rows.len();
    while n > 0
        invariant
            n <= rows@.len(),
            active_upto(row_views(rows@), visible, rows@.len() as int) == active_upto(
                row_views(rows@),
                visible,
                n as int,
            ),
        decreases n,
    {
        assert(row_views(rows@)[n - 1] == rows@[n - 1]@);
        if rows[n - 1].page.0 <= visible.0 {
            return Some(copy_path(&rows[n - 1].path));
        }
        n -= 1;
    }
    None
}

/// The place of the first of the first `n` rows with a path.
pub open spec fn row_at(rows: Seq<OutlineRowView>, path: Seq<usize>, n: int) -> Option<int>
    decreases n,
{
    if n <= 0 {
        None
    } else {
        match row_at(rows, path, n - 1) {
            Some(i) => Some(i),
            None => if rows[n - 1].path == path {
                Some(n - 1)
            } else {
                None
            },
        }
    }
}

proof fn lemma_row_stays(rows: Seq<OutlineRowView>, path: Seq<usize>, m: int, n: int)
    requires
        m <= n,
        row_at(rows, path, m) is Some,
    ensures
        row_at(rows, path, n) == row_at(rows, path, m),
    decreases n,
{
    if m < n {
        lemma_row_stays(rows, path, m, n - 1);
    }
}

proof fn lemma_row_at(rows: Seq<OutlineRowView>, path: Seq<usize>, n: int)
    ensures
        row_at(rows, path, n) is Some ==> 0 <= row_at(rows, path, n)->0 < n && rows[row_at(
            rows,
            path,
            n,
        )->0].path == path,
    decreases n,
{
    if n > 0 {
        lemma_row_at(rows, path, n - 1);
    }
}

/// The place of the row with a path.
pub fn find_row(rows: &Vec<OutlineRow<'_>>, path: &Vec<usize>) -> (r: Option<usize>)
    ensures
        match row_at(row_views(rows@), path@, rows@.len() as int) {
            Some(i) => r is Some && r->0 == i && 0 <= i < rows@.len(),
            None => r is None,
        },
{
    let mut i: usize = 0;
    while i < rows.len()
        invariant
            i <= rows@.len(),
            row_at(row_views(rows@), path@, i as int) is None,
        decreases rows@.len() - i,
    {
        assert(row_views(rows@)[i as int] == rows@[i as int]@);
        if same_path(&rows[i].path, path) {
            proof {
                lemma_row_stays(row_views(rows@), path@, i + 1, rows@.len() as int);
            }
            return Some(i);
        }
        i += 1;
    }
    None
}

/// The row that the keyboard stands on: where it was moved to, else the entry
/// of the visible page.
pub open spec fn focus_of(
    rows: Seq<OutlineRowView>,
    cursor: Option<Seq<usize>>,
    visible: PageNo,
) -> Option<Seq<usize>> {
    match cursor {
        Some(path) => Some(path),
        None => active_path(rows, visible),
    }
}

/// The row that a step leads to; the ends hold, and from nowhere a step leads
/// to the first row or, backwards, to the last.
pub open spec fn step_target(
    rows: Seq<OutlineRowView>,
    cursor: Option<Seq<usize>>,
    visible: PageNo,
    next: bool,
) -> Option<int> {
    if rows.len() == 0 {
        None
    } else {
        let index = match focus_of(rows, cursor, visible) {
            Some(path) => row_at(rows, path, rows.len() as int),
            None => None,
        };
        match index {
            Some(i) => Some(
                if next {
                    if i + 1 < rows.len() {
                        i + 1
                    } else {
                        rows.len() - 1
                    }
                } else if i > 0 {
                    i - 1
                } else {
                    0
                },
            ),
            None => Some(
                if next {
                    0
                } else {
                    rows.len() - 1
                },
            ),
        }
    }
}

/// The page of the row that the keyboard stands on.
pub open spec fn focus_page(
    rows: Seq<OutlineRowView>,
    cursor: Option<Seq<usize>>,
    visible: PageNo,
) -> Option<PageNo> {
    match focus_of(rows, cursor, visible) {
        Some(path) => match row_at(rows, path, rows.len() as int) {
            Some(i) => Some(rows[i].page),
            None => None,
        },
        None => None,
    }
}

/// What a path holds that may be there.
pub open spec fn maybe_path(path: Option<Vec<usize>>) -> Option<Seq<usize>> {
    match path {
        Some(p) => Some(p@),
        None => None,
    }
}

/// The row that the keyboard stands on.
pub fn outline_focus(rows: &Vec<OutlineRow<'_>>, cursor: &Option<Vec<usize>>, visible: PageNo) -> (r:
    Option<Vec<usize>>)
    ensures
        maybe_path(r) == focus_of(row_views(rows@), maybe_path(*cursor), visible),
{
    match cursor {
        Some(path) => Some(copy_path(path)),
        None => outline_active(rows, visible),
    }
}

/// The row that a step of the keyboard leads to.
pub fn outline_target(
    rows: &Vec<OutlineRow<'_>>,
    cursor: &Option<Vec<usize>>,
    visible: PageNo,
    next: bool,
) -> (r: Option<usize>)
    ensures
        match step_target(row_views(rows@), maybe_path(*cursor), visible, next) {
            Some(i) => r is Some && r->0 == i && 0 <= i < rows@.len(),
            None => r is None,
        },
{
    let count: usize = rows.len();
    if count == 0 {
        return None;
    }
    let index: Option<usize> = match outline_focus(rows, cursor, visible) {
        Some(path) => find_row(rows, &path),
        None => None,
    };
    match index {
        Some(i) => Some(
            if next {
                if i < count - 1 {
                    i + 1
                } else {
                    count - 1
                }
            } else if i > 0 {
                i - 1
            } else {
                0
            },
        ),
        None => Some(
            if next {
                0
            } else {
                count - 1
            },
        ),
    }
}

/// The page of the row that the keyboard stands on.
pub fn outline_cursor_page(
    rows: &Vec<OutlineRow<'_>>,
    cursor: &Option<Vec<usize>>,
    visible: PageNo,
) -> (r: Option<PageNo>)
    ensures
        r == focus_page(row_views(rows@), maybe_path(*cursor), visible),
{
    match outline_focus(rows, cursor, visible) {
        Some(path) => match find_row(rows, &path) {
            Some(i) => {
                assert(row_views(rows@)[i as int] == rows@[i as int]@);
                Some(rows[i].page)
            },
            None => None,
        },
        None => None,
    }
}

/// What is collapsed once an entry was folded or unfolded.
pub open spec fn folded(collapsed: Set<Seq<usize>>, path: Seq<usize>) -> Set<Seq<usize>> {
    if collapsed.contains(path) {
        collapsed.remove(path)
    } else {
        collapsed.insert(path)
    }
}

/// Where the keyboard stands once an entry was folded: nowhere, if that hid
/// the row.
pub open spec fn cursor_after_fold(
    collapsed: Set<Seq<usize>>,
    cursor: Option<Seq<usize>>,
    path: Seq<usize>,
) -> Option<Seq<usize>> {
    match cursor {
        Some(at) => if !collapsed.contains(path) && above(path, at) {
            None
        } else {
            Some(at)
        },
        None => None,
    }
}

/// Folds an entry, or unfolds it.
pub fn fold(collapsed: &mut Vec<Vec<usize>>, cursor: &mut Option<Vec<usize>>, path: Vec<usize>)
    ensures
        path_set(final(collapsed)@) == folded(path_set(old(collapsed)@), path@),
        maybe_path(*final(cursor)) == cursor_after_fold(
            path_set(old(collapsed)@),
            maybe_path(*old(cursor)),
            path@,
        ),
{
    if has_path(collapsed, &path) {
        *collapsed = without_path(collapsed, &path);
    } else {
        let hides = match cursor {
            Some(at) => begins_with(at, &path) && at.len() != path.len(),
            None => false,
        };
        if hides {
            *cursor = None;
        }
        proof {
            lemma_path_set_push(collapsed@, path);
        }
        collapsed.push(path);
    }
}

/// Folding an entry and unfolding it leaves what is collapsed as it was.
pub proof fn law_fold_twice(collapsed: Set<Seq<usize>>, path: Seq<usize>)
    ensures
        folded(folded(collapsed, path), path) == collapsed,
{
    assert(folded(folded(collapsed, path), path) =~= collapsed);
}

proof fn lemma_rows_upto(
    items: Vec<OutlineItem>,
    n: int,
    path: Seq<usize>,
    collapsed: Set<Seq<usize>>,
)
    requires
        !hidden(path, collapsed),
        !collapsed.contains(path) || path.len() == 0,
    ensures
        forall|k: int|
            0 <= k < rows_upto(items, n, path, collapsed).len() ==> !hidden(
                (#[trigger] rows_upto(items, n, path, collapsed)[k]).path,
                collapsed,
            ),
    decreases items, n,
{
    if 0 < n <= items@.len() {
        let item = items[n - 1];
        let here = path.push((n - 1) as usize);
        let rows = rows_upto(items, n, path, collapsed);
        let front = rows_upto(items, n - 1, path, collapsed);
        lemma_rows_upto(items, n - 1, path, collapsed);
        assert(!hidden(here, collapsed)) by {
            if hidden(here, collapsed) {
                let upper = choose|upper: Seq<usize>| #[trigger]
                    collapsed.contains(upper) && upper.len() > 0 && above(upper, here);
                if upper.len() == path.len() {
                    assert(here.take(path.len() as int) =~= path);
                    assert(upper == path);
                } else {
                    assert(here.take(upper.len() as int) =~= path.take(upper.len() as int));
                    assert(above(upper, path));
                }
            }
        }
        if !collapsed.contains(here) {
            lemma_rows_upto(item.children, item.children@.len() as int, here, collapsed);
            let below = rows_upto(item.children, item.children@.len() as int, here, collapsed);
            assert(rows == front.push(row_of(item, here)) + below);
            assert forall|k: int| 0 <= k < rows.len() implies !hidden(
                (#[trigger] rows[k]).path,
                collapsed,
            ) by {
                if k < front.len() {
                    assert(rows[k] == front[k]);
                } else if k > front.len() {
                    assert(rows[k] == below[k - front.len() - 1]);
                }
            }
        } else {
            assert forall|k: int| 0 <= k < rows.len() implies !hidden(
                (#[trigger] rows[k]).path,
                collapsed,
            ) by {
                if k < front.len() {
                    assert(rows[k] == front[k]);
                }
            }
        }
    }
}

/// No row is shown that a collapsed entry hides.
pub proof fn law_rows_are_not_hidden(outline: Option<Outline>, collapsed: Set<Seq<usize>>)
    ensures
        forall|k: int|
            0 <= k < rows_of(outline, collapsed).len() ==> !hidden(
                (#[trigger] rows_of(outline, collapsed)[k]).path,
                collapsed,
            ),
{
    if let Some(table) = outline {
        lemma_rows_upto(table.items, table.items@.len() as int, Seq::empty(), collapsed);
    }
}

/// The keyboard never stands on a row that a collapsed entry hides: a fold
/// leaves it on one that is shown, or nowhere.
pub proof fn law_fold_frees_cursor(
    collapsed: Set<Seq<usize>>,
    cursor: Option<Seq<usize>>,
    path: Seq<usize>,
)
    requires
        cursor is Some ==> !hidden(cursor->0, collapsed),
    ensures
        cursor_after_fold(collapsed, cursor, path) is Some ==> !hidden(
            cursor_after_fold(collapsed, cursor, path)->0,
            folded(collapsed, path),
        ),
{
}

/// A step of the keyboard leads to a row that is there.
pub proof fn law_steps_stay_on_rows(
    rows: Seq<OutlineRowView>,
    cursor: Option<Seq<usize>>,
    visible: PageNo,
    next: bool,
)
    requires
        rows.len() > 0,
    ensures
        step_target(rows, cursor, visible, next) is Some,
        0 <= step_target(rows, cursor, visible, next)->0 < rows.len(),
{
    if let Some(path) = focus_of(rows, cursor, visible) {
        lemma_row_at(rows, path, rows.len() as int);
    }
}

} // verus!
