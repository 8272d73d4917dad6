//! The documents of a window, one to a tab.

use vstd::prelude::*;

use crate::browse::{copy_texts, texts, Theme};
use crate::page::{Coord, Viewport};
use crate::ready::{Ready, ReadyView};
use crate::search::wrapped;
use crate::state::OpenSource;
use crate::text::maybe_text;

verus! {

/// The documents of a window. There is always one, and one of them is shown.
#[derive(Debug)]
pub struct Tabs {
    pub docs: Vec<Ready>,
    pub active: usize,
    /// A document that is being read for a tab of its own.
    pub pending: Option<(u64, OpenSource)>,
    /// Why the last one did not open.
    pub open_error: Option<String>,
    /// The highest generation that was ever given out.
    pub last_gen: u64,
}

/// What the tabs of a window hold.
pub struct TabsView {
    pub docs: Seq<ReadyView>,
    pub active: int,
    pub pending: Option<(u64, OpenSource)>,
    pub open_error: Option<Seq<char>>,
    pub last_gen: u64,
}

/// What each document holds.
pub open spec fn docs_of(docs: Seq<Ready>) -> Seq<ReadyView> {
    docs.map_values(|doc: Ready| doc@)
}

impl View for Tabs {
    type V = TabsView;

    open spec fn view(&self) -> TabsView {
        TabsView {
            docs: docs_of(self.docs@),
            active: self.active as int,
            pending: self.pending,
            open_error: maybe_text(self.open_error),
            last_gen: self.last_gen,
        }
    }
}

/// The place of the first of the first `n` documents of a generation.
pub open spec fn gen_upto(docs: Seq<ReadyView>, gen: u64, n: int) -> Option<int>
    decreases n,
{
    if n <= 0 {
        None
    } else {
        match gen_upto(docs, gen, n - 1) {
            Some(i) => Some(i),
            None => if docs[n - 1].open_gen == gen {
                Some(n - 1)
            } else {
                None
            },
        }
    }
}

/// Whether the documents are told apart by their generations.
pub open spec fn gens_apart(docs: Seq<ReadyView>) -> bool {
    forall|i: int, j: int|
        0 <= i < j < docs.len() ==> (#[trigger] docs[i]).open_gen != (#[trigger] docs[j]).open_gen
}

/// Whether two documents see the same window: its size, its colours and the
/// density of its pixels.
pub open spec fn same_window(a: ReadyView, b: ReadyView) -> bool {
    a.viewport == b.viewport && a.theme == b.theme && a.render_scale == b.render_scale
}

impl TabsView {
    /// There is a document, one is shown, each is sound, all see the same
    /// window, and no two answer to one generation, the one that is being read
    /// included. No generation is above the last that was given out.
    pub open spec fn settled(self) -> bool {
        &&& 0 <= self.active < self.docs.len()
        &&& forall|i: int| 0 <= i < self.docs.len() ==> (#[trigger] self.docs[i]).wf()
        &&& forall|i: int|
            0 <= i < self.docs.len() ==> same_window(#[trigger] self.docs[i], self.docs[0])
        &&& forall|i: int|
            0 <= i < self.docs.len() ==> (#[trigger] self.docs[i]).open_gen <= self.last_gen
        &&& gens_apart(self.docs)
        &&& match self.pending {
            Some((gen, _)) => gen <= self.last_gen && forall|i: int|
                0 <= i < self.docs.len() ==> (#[trigger] self.docs[i]).open_gen != gen,
            None => true,
        }
    }

    /// What the window holds is in order, and every document knows the same
    /// recent ones.
    pub open spec fn wf(self) -> bool {
        &&& self.settled()
        &&& forall|i: int|
            0 <= i < self.docs.len() ==> (#[trigger] self.docs[i]).recents == self.docs[0].recents
    }

    pub open spec fn shown(self) -> ReadyView {
        self.docs[self.active]
    }

    pub open spec fn single(doc: ReadyView) -> TabsView {
        TabsView {
            docs: seq![doc],
            active: 0,
            pending: None,
            open_error: None,
            last_gen: doc.open_gen,
        }
    }

    pub open spec fn with_doc(self, i: int, doc: ReadyView) -> TabsView {
        TabsView { docs: self.docs.update(i, doc), ..self }
    }

    /// The place of the document of a generation.
    pub open spec fn by_gen(self, gen: u64) -> Option<int> {
        gen_upto(self.docs, gen, self.docs.len() as int)
    }

    /// The highest generation that was ever given out, also to a document that
    /// was closed since or did not open.
    pub open spec fn max_gen(self) -> u64 {
        self.last_gen
    }

    pub open spec fn with_recents(self, recents: Seq<Seq<char>>) -> TabsView {
        TabsView {
            docs: self.docs.map_values(|doc: ReadyView| ReadyView { recents, ..doc }),
            ..self
        }
    }

    pub open spec fn with_viewport(self, viewport: Viewport) -> TabsView {
        TabsView {
            docs: self.docs.map_values(|doc: ReadyView| ReadyView { viewport, ..doc }),
            ..self
        }
    }

    pub open spec fn with_theme(self, theme: Theme) -> TabsView {
        TabsView {
            docs: self.docs.map_values(|doc: ReadyView| ReadyView { theme, ..doc }),
            ..self
        }
    }

    pub open spec fn with_render_scale(self, render_scale: Coord) -> TabsView {
        TabsView {
            docs: self.docs.map_values(|doc: ReadyView| ReadyView { render_scale, ..doc }),
            ..self
        }
    }

    /// A tab more, which is shown. It is as large as the one shown before.
    pub open spec fn pushed(self, doc: ReadyView) -> TabsView {
        TabsView {
            docs: self.docs.push(ReadyView { viewport: self.shown().viewport, ..doc }),
            active: self.docs.len() as int,
            pending: None,
            open_error: None,
            last_gen: if doc.open_gen > self.last_gen {
                doc.open_gen
            } else {
                self.last_gen
            },
        }
    }

    /// A tab less. What is shown stays, or is the neighbour on the right, or
    /// the last.
    pub open spec fn removed(self, index: int) -> TabsView {
        let active = if index < self.active {
            self.active - 1
        } else {
            self.active
        };
        TabsView {
            docs: self.docs.remove(index),
            active: if active <= self.docs.len() - 2 {
                active
            } else {
                self.docs.len() - 2
            },
            ..self
        }
    }

    pub open spec fn selected(self, index: int) -> TabsView {
        if index < self.docs.len() {
            TabsView { active: index, ..self }
        } else {
            self
        }
    }

    /// So many tabs on, round the ends.
    pub open spec fn cycled(self, step: int) -> TabsView {
        TabsView { active: (self.active + step) % (self.docs.len() as int), ..self }
    }
}

proof fn lemma_gen_stays(docs: Seq<ReadyView>, gen: u64, m: int, n: int)
    requires
        m <= n,
        gen_upto(docs, gen, m) is Some,
    ensures
        gen_upto(docs, gen, n) == gen_upto(docs, gen, m),
    decreases n,
{
    if m < n {
        lemma_gen_stays(docs, gen, m, n - 1);
    }
}

pub(crate) proof fn lemma_gen_upto(docs: Seq<ReadyView>, gen: u64, n: int)
    requires
        0 <= n <= docs.len(),
    ensures
        match gen_upto(docs, gen, n) {
            Some(i) => 0 <= i < n && docs[i].open_gen == gen,
            None => forall|i: int| 0 <= i < n ==> (#[trigger] docs[i]).open_gen != gen,
        },
    decreases n,
{
    if n > 0 {
        lemma_gen_upto(docs, gen, n - 1);
    }
}

impl Tabs {
    pub open spec fn wf(self) -> bool {
        self@.wf()
    }

    /// A window with one document.
    pub fn single(ready: Ready) -> (tabs: Tabs)
        requires
            ready.wf(),
        ensures
            tabs@ == TabsView::single(ready@),
            tabs.wf(),
    {
        let mut docs: Vec<Ready> = Vec::new();
        docs.push(ready);
        assert(docs_of(docs@) =~= seq![ready@]);
        let last_gen: u64 = docs[0].open_gen;
        Tabs { docs, active: 0, pending: None, open_error: None, last_gen }
    }

    pub fn len(&self) -> (n: usize)
        ensures
            n == self@.docs.len(),
    {
        self.docs.len()
    }

    pub fn active_index(&self) -> (i: usize)
        ensures
            i == self@.active,
    {
        self.active
    }

    /// The documents in the order of the tabs.
    pub fn docs(&self) -> (docs: &Vec<Ready>)
        ensures
            docs_of(docs@) == self@.docs,
    {
        &self.docs
    }

    pub fn open_error(&self) -> (error: &Option<String>)
        ensures
            maybe_text(*error) == self@.open_error,
    {
        &self.open_error
    }

    /// The document that is shown.
    pub fn active(&self) -> (doc: &Ready)
        requires
            self.wf(),
        ensures
            doc@ == self@.shown(),
            doc.wf(),
    {
        assert(self@.docs[self.active as int] == self.docs@[self.active as int]@);
        &self.docs[self.active]
    }

    /// The generation of the document that is being read.
    pub fn pending_gen(&self) -> (gen: Option<u64>)
        ensures
            match self@.pending {
                Some((g, _)) => gen == Some(g),
                None => gen is None,
            },
    {
        match &self.pending {
            Some((gen, _)) => Some(*gen),
            None => None,
        }
    }

    /// The place of the document of a generation.
    pub fn by_gen(&self, gen: u64) -> (r: Option<usize>)
        ensures
            match self@.by_gen(gen) {
                Some(i) => r is Some && r->0 == i && 0 <= i < self.docs@.len(),
                None => r is None,
            },
    {
        let ghost docs = self@.docs;
        let mut i: usize = 0;
        while i < self.docs.len()
            invariant
                docs == self@.docs,
                i <= self.docs@.len(),
                gen_upto(docs, gen, i as int) is None,
            decreases self.docs@.len() - i,
        {
            assert(docs[i as int] == self.docs@[i as int]@);
            if self.docs[i].open_gen == gen {
                proof {
                    lemma_gen_stays(docs, gen, i + 1, docs.len() as int);
                }
                return Some(i);
            }
            i += 1;
        }
        None
    }

    /// The highest generation that was ever given out, also to a document that
    /// was closed since or did not open.
    pub fn max_gen(&self) -> (gen: u64)
        ensures
            gen == self@.max_gen(),
    {
        self.last_gen
    }

    /// Every tab knows the same recent documents.
    pub fn set_recents(&mut self, recents: Vec<String>)
        requires
            old(self)@.settled(),
        ensures
            final(self)@ == old(self)@.with_recents(texts(recents@)),
            final(self).wf(),
    {
        let ghost before = self@.docs;
        let ghost change = |doc: ReadyView| ReadyView { recents: texts(recents@), ..doc };
        let mut i: usize = 0;
        while i < self.docs.len()
            invariant
                self.docs@.len() == before.len(),
                *self == (Tabs { docs: self.docs, ..*old(self) }),
                i <= self.docs@.len(),
                change == (|doc: ReadyView| ReadyView { recents: texts(recents@), ..doc }),
                forall|j: int| 0 <= j < i ==> (#[trigger] self.docs@[j])@ == change(before[j]),
                forall|j: int| i <= j < self.docs@.len() ==> (#[trigger] self.docs@[j])@ == before[j],
            decreases self.docs@.len() - i,
        {
            self.docs[i].recents = copy_texts(&recents);
            i += 1;
        }
        assert(self@.docs =~= old(self)@.with_recents(texts(recents@)).docs);
        proof {
            lemma_changed(old(self)@, self@, change);
        }
    }

    /// Every tab sees the same window.
    pub fn set_viewport(&mut self, viewport: Viewport)
        requires
            old(self).wf(),
        ensures
            final(self)@ == old(self)@.with_viewport(viewport),
            final(self).wf(),
    {
        let ghost before = self@.docs;
        let ghost change = |doc: ReadyView| ReadyView { viewport, ..doc };
        let mut i: usize = 0;
        while i < self.docs.len()
            invariant
                self.docs@.len() == before.len(),
                *self == (Tabs { docs: self.docs, ..*old(self) }),
                i <= self.docs@.len(),
                change == (|doc: ReadyView| ReadyView { viewport, ..doc }),
                forall|j: int| 0 <= j < i ==> (#[trigger] self.docs@[j])@ == change(before[j]),
                forall|j: int| i <= j < self.docs@.len() ==> (#[trigger] self.docs@[j])@ == before[j],
            decreases self.docs@.len() - i,
        {
            self.docs[i].viewport = viewport;
            i += 1;
        }
        assert(self@.docs =~= old(self)@.with_viewport(viewport).docs);
        proof {
            lemma_changed(old(self)@, self@, change);
        }
    }

    pub fn set_theme(&mut self, theme: Theme)
        requires
            old(self).wf(),
        ensures
            final(self)@ == old(self)@.with_theme(theme),
            final(self).wf(),
    {
        let ghost before = self@.docs;
        let ghost change = |doc: ReadyView| ReadyView { theme, ..doc };
        let mut i: usize = 0;
        while i < self.docs.len()
            invariant
                self.docs@.len() == before.len(),
                *self == (Tabs { docs: self.docs, ..*old(self) }),
                i <= self.docs@.len(),
                change == (|doc: ReadyView| ReadyView { theme, ..doc }),
                forall|j: int| 0 <= j < i ==> (#[trigger] self.docs@[j])@ == change(before[j]),
                forall|j: int| i <= j < self.docs@.len() ==> (#[trigger] self.docs@[j])@ == before[j],
            decreases self.docs@.len() - i,
        {
            self.docs[i].theme = theme;
            i += 1;
        }
        assert(self@.docs =~= old(self)@.with_theme(theme).docs);
        proof {
            lemma_changed(old(self)@, self@, change);
        }
    }

    pub fn set_render_scale(&mut self, scale: Coord)
        requires
            old(self).wf(),
        ensures
            final(self)@ == old(self)@.with_render_scale(scale),
            final(self).wf(),
    {
        let ghost before = self@.docs;
        let ghost change = |doc: ReadyView| ReadyView { render_scale: scale, ..doc };
        let mut i: usize = 0;
        while i < self.docs.len()
            invariant
                self.docs@.len() == before.len(),
                *self == (Tabs { docs: self.docs, ..*old(self) }),
                i <= self.docs@.len(),
                change == (|doc: ReadyView| ReadyView { render_scale: scale, ..doc }),
                forall|j: int| 0 <= j < i ==> (#[trigger] self.docs@[j])@ == change(before[j]),
                forall|j: int| i <= j < self.docs@.len() ==> (#[trigger] self.docs@[j])@ == before[j],
            decreases self.docs@.len() - i,
        {
            self.docs[i].render_scale = scale;
            i += 1;
        }
        assert(self@.docs =~= old(self)@.with_render_scale(scale).docs);
        proof {
            lemma_changed(old(self)@, self@, change);
        }
    }

    /// A tab more, which is shown.
    pub fn push(&mut self, ready: Ready)
        requires
            old(self).wf(),
            ready.wf(),
            forall|i: int|
                0 <= i < old(self)@.docs.len() ==> (#[trigger] old(self)@.docs[i]).open_gen
                    != ready.open_gen,
            ready.theme == old(self)@.shown().theme,
            ready.render_scale == old(self)@.shown().render_scale,
            ready@.recents == old(self)@.shown().recents,
        ensures
            final(self)@ == old(self)@.pushed(ready@),
            final(self).wf(),
    {
        let mut ready = ready;
        ready.viewport = self.active().viewport;
        self.pending = None;
        self.open_error = None;
        self.active = self.docs.len();
        if ready.open_gen > self.last_gen {
            self.last_gen = ready.open_gen;
        }
        self.docs.push(ready);
        assert(docs_of(self.docs@) =~= docs_of(old(self).docs@).push(ready@));
    }

    /// A tab less; the document that was in it.
    pub fn remove(&mut self, index: usize) -> (gone: Ready)
        requires
            old(self).wf(),
            index < old(self)@.docs.len(),
            old(self)@.docs.len() >= 2,
        ensures
            final(self)@ == old(self)@.removed(index as int),
            final(self).wf(),
            gone@ == old(self)@.docs[index as int],
    {
        let gone = self.docs.remove(index);
        if index < self.active {
            self.active = self.active - 1;
        }
        if self.active > self.docs.len() - 1 {
            self.active = self.docs.len() - 1;
        }
        assert(docs_of(self.docs@) =~= docs_of(old(self).docs@).remove(index as int));
        proof {
            let a = old(self)@.docs;
            let b = self@.docs;
            assert forall|i: int| 0 <= i < b.len() implies exists|k: int|
                0 <= k < a.len() && #[trigger] b[i] == a[k] by {
                if i < index {
                    assert(b[i] == a[i]);
                } else {
                    assert(b[i] == a[i + 1]);
                }
            }
            assert forall|i: int, j: int| 0 <= i < j < b.len() implies (#[trigger] b[i]).open_gen
                != (#[trigger] b[j]).open_gen by {
                let x = if i < index {
                    i
                } else {
                    i + 1
                };
                let y = if j < index {
                    j
                } else {
                    j + 1
                };
                assert(b[i] == a[x] && b[j] == a[y]);
            }
        }
        gone
    }

    pub fn select(&mut self, index: usize)
        requires
            old(self).wf(),
        ensures
            final(self)@ == old(self)@.selected(index as int),
            final(self).wf(),
    {
        if index < self.docs.len() {
            self.active = index;
        }
    }

    /// So many tabs on, round the ends.
    pub fn cycle(&mut self, step: i32)
        requires
            old(self).wf(),
            old(self)@.docs.len() <= i32::MAX,
        ensures
            final(self)@ == old(self)@.cycled(step as int),
            final(self).wf(),
    {
        let len: i64 = self.docs.len() as i64;
        let sum: i64 = self.active as i64 + step as i64;
        let next: i64 = wrapped(sum, len);
        self.active = next as usize;
    }

    /// The height of the documents, once the strip of tabs came or went.
    pub fn set_height(&mut self, height: Coord)
        requires
            old(self).wf(),
        ensures
            final(self).wf(),
            final(self)@ == old(self)@.with_viewport(
                Viewport { height, ..old(self)@.shown().viewport },
            ),
    {
        let width = self.active().viewport.width;
        self.set_viewport(Viewport { width, height });
    }
}

proof fn lemma_changed(a: TabsView, b: TabsView, change: spec_fn(ReadyView) -> ReadyView)
    requires
        a.settled(),
        b == (TabsView { docs: b.docs, ..a }),
        b.docs.len() == a.docs.len(),
        forall|i: int| 0 <= i < a.docs.len() ==> #[trigger] b.docs[i] == change(a.docs[i]),
        forall|doc: ReadyView|
            doc.wf() ==> (#[trigger] change(doc)).wf() && change(doc).open_gen == doc.open_gen,
        forall|x: ReadyView, y: ReadyView|
            same_window(x, y) ==> #[trigger] same_window(change(x), change(y)),
    ensures
        b.settled(),
{
    assert forall|i: int, j: int| 0 <= i < j < b.docs.len() implies (#[trigger] b.docs[i]).open_gen
        != (#[trigger] b.docs[j]).open_gen by {
        assert(a.docs[i].open_gen != a.docs[j].open_gen);
    }
    assert forall|i: int| 0 <= i < b.docs.len() implies same_window(
        #[trigger] b.docs[i],
        b.docs[0],
    ) by {
        assert(same_window(a.docs[i], a.docs[0]));
        assert(same_window(change(a.docs[i]), change(a.docs[0])));
    }
    assert forall|i: int| 0 <= i < b.docs.len() implies (#[trigger] b.docs[i]).open_gen
        <= b.last_gen by {
        assert(a.docs[i].open_gen <= a.last_gen);
    }
}

/// So many tabs on and as many back leads to the tab that was shown.
pub proof fn law_cycle_back(t: TabsView, step: int)
    requires
        t.wf(),
    ensures
        t.cycled(step).wf(),
        t.cycled(step).cycled(-step) == t,
{
    let n = t.docs.len() as int;
    vstd::arithmetic::div_mod::lemma_mod_bound(t.active + step, n);
    vstd::arithmetic::div_mod::lemma_add_mod_noop(t.active + step, -step, n);
    vstd::arithmetic::div_mod::lemma_add_mod_noop((t.active + step) % n, -step, n);
    vstd::arithmetic::div_mod::lemma_mod_twice(t.active + step, n);
    vstd::arithmetic::div_mod::lemma_small_mod(t.active as nat, n as nat);
}

/// A tab that was just opened and is closed again leaves the other tabs as
/// they were, with the last of them shown.
pub proof fn law_close_undoes_open(t: TabsView, doc: ReadyView)
    requires
        t.wf(),
    ensures
        t.pushed(doc).removed(t.docs.len() as int).docs == t.docs,
        t.pushed(doc).removed(t.docs.len() as int).active == t.docs.len() - 1,
{
    assert(t.pushed(doc).removed(t.docs.len() as int).docs =~= t.docs);
}

/// Closing another tab leaves the document that is shown.
pub proof fn law_close_keeps_shown(t: TabsView, index: int)
    requires
        t.wf(),
        t.docs.len() >= 2,
        0 <= index < t.docs.len(),
        index != t.active,
    ensures
        t.removed(index).shown() == t.shown(),
{
}

/// The generation that follows the last that was given out is neither that of
/// a document nor that of one that is being read.
pub proof fn law_next_gen_is_free(t: TabsView)
    requires
        t.wf(),
        t.max_gen() < u64::MAX,
    ensures
        t.by_gen((t.max_gen() + 1) as u64) is None,
        t.pending is Some ==> (t.pending->0).0 != t.max_gen() + 1,
{
    lemma_gen_upto(t.docs, (t.max_gen() + 1) as u64, t.docs.len() as int);
}

/// A tab that closes does not give its generation back.
pub proof fn law_closed_gen_stays_used(t: TabsView, index: int)
    requires
        t.wf(),
        t.docs.len() >= 2,
        0 <= index < t.docs.len(),
    ensures
        t.removed(index).max_gen() == t.max_gen(),
        t.docs[index].open_gen <= t.removed(index).max_gen(),
{
}

/// Every tab sees the same window and knows the same recent documents.
pub proof fn law_tabs_share_window(t: TabsView, i: int, j: int)
    requires
        t.wf(),
        0 <= i < t.docs.len(),
        0 <= j < t.docs.len(),
    ensures
        t.docs[i].viewport == t.docs[j].viewport,
        t.docs[i].theme == t.docs[j].theme,
        t.docs[i].render_scale == t.docs[j].render_scale,
        t.docs[i].recents == t.docs[j].recents,
{
    assert(same_window(t.docs[i], t.docs[0]) && same_window(t.docs[j], t.docs[0]));
}

} // verus!
