//! The window without a document: folders to look through, and the documents
//! that were read last.

use vstd::prelude::*;

use crate::native::{display, displayed};
use crate::page::Coord;
use crate::paths::{folder_of, is_same_place, parent_of, same_place};
use crate::text::maybe_text;

verus! {

/// The colours of the window.
#[derive(Debug, Clone, Copy, PartialEq, Eq, Structural)]
pub enum Theme {
    Dark,
    Light,
}

/// A folder or a document in a folder.
#[derive(Debug, Clone)]
pub struct FsEntry {
    pub name: String,
    pub path: String,
    pub is_dir: bool,
}

/// What each of some texts holds.
pub open spec fn texts(list: Seq<String>) -> Seq<Seq<char>> {
    list.map_values(|s: String| s@)
}

/// The same texts again.
pub fn copy_texts(list: &Vec<String>) -> (r: Vec<String>)
    ensures
        texts(r@) == texts(list@),
{
    let mut r: Vec<String> = Vec::new();
    let mut i: usize = 0;
    while i < list.len()
        invariant
            i <= list@.len(),
            r@ == list@.take(i as int),
        decreases list@.len() - i,
    {
        r.push(list[i].clone());
        i += 1;
        assert(r@ =~= list@.take(i as int));
    }
    assert(r@ =~= list@);
    r
}

/// Whether a path leads where one of some paths leads.
pub open spec fn known(list: Seq<Seq<char>>, path: Seq<char>) -> bool {
    exists|i: int| 0 <= i < list.len() && same_place(#[trigger] list[i], path)
}

/// Some paths without those that lead where one leads.
pub open spec fn without_path(list: Seq<Seq<char>>, path: Seq<char>) -> Seq<Seq<char>>
    decreases list.len(),
{
    if list.len() == 0 {
        Seq::empty()
    } else if same_place(list.last(), path) {
        without_path(list.drop_last(), path)
    } else {
        without_path(list.drop_last(), path).push(list.last())
    }
}

/// Paths, with one of them brought to the front.
pub open spec fn to_front(list: Seq<Seq<char>>, path: Seq<char>) -> Seq<Seq<char>> {
    seq![path] + without_path(list, path)
}

/// Paths, and behind them the first `n` others that are not among them yet.
pub open spec fn merged(list: Seq<Seq<char>>, others: Seq<Seq<char>>, n: int) -> Seq<Seq<char>>
    decreases n,
{
    if n <= 0 {
        list
    } else {
        let front = merged(list, others, n - 1);
        if known(front, others[n - 1]) {
            front
        } else {
            front.push(others[n - 1])
        }
    }
}

fn holds(list: &Vec<String>, path: &str) -> (r: bool)
    ensures
        r == known(texts(list@), path@),
{
    let mut i: usize = 0;
    while i < list.len()
        invariant
            i <= list@.len(),
            forall|j: int| 0 <= j < i ==> !same_place(#[trigger] texts(list@)[j], path@),
        decreases list@.len() - i,
    {
        assert(texts(list@)[i as int] == list@[i as int]@);
        if is_same_place(list[i].as_str(), path) {
            return true;
        }
        i += 1;
    }
    false
}

/// Drops a document that is not there any more.
pub fn drop_recent(recents: Vec<String>, path: &str) -> (r: Vec<String>)
    ensures
        texts(r@) == without_path(texts(recents@), path@),
{
    let mut r: Vec<String> = Vec::new();
    let mut i: usize = 0;
    assert(texts(r@) =~= Seq::<Seq<char>>::empty());
    while i < recents.len()
        invariant
            i <= recents@.len(),
            texts(r@) == without_path(texts(recents@).take(i as int), path@),
        decreases recents@.len() - i,
    {
        let ghost before = r@;
        assert(texts(recents@).take(i + 1).drop_last() =~= texts(recents@).take(i as int));
        assert(texts(recents@)[i as int] == recents@[i as int]@);
        if !is_same_place(recents[i].as_str(), path) {
            let kept = recents[i].clone();
            r.push(kept);
            assert(texts(r@) =~= texts(before).push(kept@));
        }
        i += 1;
    }
    assert(texts(recents@).take(i as int) =~= texts(recents@));
    r
}

/// Brings a document that was just read to the front.
pub fn push_recent(recents: Vec<String>, path: String) -> (r: Vec<String>)
    ensures
        texts(r@) == to_front(texts(recents@), path@),
{
    let mut r = drop_recent(recents, path.as_str());
    let ghost rest = r@;
    r.insert(0, path);
    assert(texts(r@) =~= seq![path@] + texts(rest));
    r
}

/// The documents that this window knows of, and behind them those that were
/// stored.
pub fn merge_recents(memory: Vec<String>, disk: Vec<String>) -> (r: Vec<String>)
    ensures
        texts(r@) == merged(texts(memory@), texts(disk@), disk@.len() as int),
{
    let mut r = memory;
    let mut i: usize = 0;
    while i < disk.len()
        invariant
            i <= disk@.len(),
            texts(r@) == merged(texts(memory@), texts(disk@), i as int),
        decreases disk@.len() - i,
    {
        let ghost before = r@;
        assert(texts(disk@)[i as int] == disk@[i as int]@);
        if !holds(&r, disk[i].as_str()) {
            let more = disk[i].clone();
            r.push(more);
            assert(texts(r@) =~= texts(before).push(more@));
        }
        i += 1;
    }
    r
}

pub(crate) proof fn lemma_without(list: Seq<Seq<char>>, path: Seq<char>)
    ensures
        !known(without_path(list, path), path),
        forall|p: Seq<char>| #[trigger]
            without_path(list, path).contains(p) <==> list.contains(p) && !same_place(p, path),
    decreases list.len(),
{
    let out = without_path(list, path);
    if list.len() > 0 {
        let front = list.drop_last();
        lemma_without(front, path);
        let rest = without_path(front, path);
        assert forall|p: Seq<char>| #[trigger] out.contains(p) implies !same_place(p, path)
            && list.contains(p) by {
            let k = choose|k: int| 0 <= k < out.len() && out[k] == p;
            if k < rest.len() {
                assert(rest[k] == p);
                assert(rest.contains(p));
                let m = choose|m: int| 0 <= m < front.len() && front[m] == p;
                assert(list[m] == p);
            } else {
                assert(list[list.len() - 1] == p);
            }
        }
        assert forall|p: Seq<char>| !same_place(p, path) && list.contains(p) implies #[trigger] out.contains(
            p,
        ) by {
            let m = choose|m: int| 0 <= m < list.len() && list[m] == p;
            if m < front.len() {
                assert(front[m] == p);
                assert(rest.contains(p));
                let k = choose|k: int| 0 <= k < rest.len() && rest[k] == p;
                assert(out[k] == p);
            } else {
                assert(out[out.len() - 1] == p);
            }
        }
    }
    assert forall|i: int| 0 <= i < out.len() implies !same_place(#[trigger] out[i], path) by {
        assert(out.contains(out[i]));
    }
}

/// A document that was just read is the first of the recent ones and occurs
/// there once, however its path is written; the others stay.
pub proof fn law_recent_comes_first(list: Seq<Seq<char>>, path: Seq<char>)
    ensures
        to_front(list, path).first() == path,
        !known(to_front(list, path).skip(1), path),
        forall|p: Seq<char>|
            list.contains(p) && !same_place(p, path) ==> #[trigger] to_front(
                list,
                path,
            ).contains(p),
{
    lemma_without(list, path);
    let out = to_front(list, path);
    assert(out.skip(1) =~= without_path(list, path));
    assert forall|p: Seq<char>| list.contains(p) && !same_place(p, path) implies #[trigger] out.contains(
        p,
    ) by {
        assert(without_path(list, path).contains(p));
        let k = choose|k: int|
            0 <= k < without_path(list, path).len() && without_path(list, path)[k] == p;
        assert(out[k + 1] == p);
    }
}

/// The window without a document.
#[derive(Debug)]
pub struct EmptyState {
    pub cwd: Option<String>,
    pub listing: Vec<FsEntry>,
    pub listing_error: Option<String>,
    pub recents: Vec<String>,
    pub theme: Theme,
    pub open_gen: u64,
    pub render_scale: Coord,
}

/// What the window without a document holds.
pub struct EmptyView {
    pub cwd: Option<Seq<char>>,
    pub listing: Seq<FsEntry>,
    pub listing_error: Option<Seq<char>>,
    pub recents: Seq<Seq<char>>,
    pub theme: Theme,
    pub open_gen: u64,
    pub render_scale: Coord,
}

impl View for EmptyState {
    type V = EmptyView;

    open spec fn view(&self) -> EmptyView {
        EmptyView {
            cwd: maybe_text(self.cwd),
            listing: self.listing@,
            listing_error: maybe_text(self.listing_error),
            recents: texts(self.recents@),
            theme: self.theme,
            open_gen: self.open_gen,
            render_scale: self.render_scale,
        }
    }
}

impl EmptyView {
    /// The window before anything was looked through.
    pub open spec fn start(
        recents: Seq<Seq<char>>,
        theme: Theme,
        open_gen: u64,
        render_scale: Coord,
    ) -> EmptyView {
        EmptyView {
            cwd: None,
            listing: Seq::empty(),
            listing_error: None,
            recents,
            theme,
            open_gen,
            render_scale,
        }
    }
}

impl EmptyState {
    /// The window before anything was looked through.
    pub fn start(recents: Vec<String>, theme: Theme, open_gen: u64, render_scale: Coord) -> (r:
        EmptyState)
        ensures
            r@ == EmptyView::start(texts(recents@), theme, open_gen, render_scale),
    {
        let r = EmptyState {
            cwd: None,
            listing: Vec::new(),
            listing_error: None,
            recents,
            theme,
            open_gen,
            render_scale,
        };
        assert(r@.listing =~= Seq::<FsEntry>::empty());
        r
    }

    /// The folder that is shown, in words; `top` names the place above all
    /// folders.
    pub fn path_label(&self, top: &str) -> (label: String)
        ensures
            label@ == (match self@.cwd {
                Some(path) => displayed(path),
                None => top@,
            }),
    {
        match &self.cwd {
            Some(path) => display(path.as_str()),
            None => top.to_owned(),
        }
    }

    /// Where the way up leads: nowhere from the place above all folders, and
    /// there from a root.
    pub fn parent(&self) -> (r: Option<Option<String>>)
        ensures
            match self@.cwd {
                None => r is None,
                Some(path) => r is Some && maybe_text(r->0) == folder_of(path),
            },
    {
        match &self.cwd {
            None => None,
            Some(path) => Some(parent_of(path.as_str())),
        }
    }
}

} // verus!
