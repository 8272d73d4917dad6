//! The window: its tabs, the documents that it opens and closes, and its
//! looks.

use vstd::prelude::*;

use crate::browse::{known, merged, texts, EmptyView, FsEntry, Theme};
use crate::messages::Message;
use crate::page::{Coord, MediaBox, Outline, PageNo, Scale, TextLayer, Viewport, FOUR, ONE};
use crate::paths::{pdf_name, same_place};
use crate::positions::DocPosition;
use crate::ready::{Ready, ReadyView};
use crate::session::SessionView;
use crate::state::{ActionView, Geometry, OpenError, OpenSource};
use crate::tabs::{lemma_gen_upto, TabsView};
use crate::text::maybe_text;

verus! {

/// Whether a message is about the document that is shown, and not about the
/// window or in answer to something that was asked for.
pub open spec fn for_document(message: Message) -> bool {
    match message {
        Message::PickFile { .. } => false,
        Message::FileDropped { .. } => false,
        Message::OpenRecent { .. } => false,
        Message::Opened { .. } => false,
        Message::LoadingTick => false,
        Message::PageData { .. } => false,
        Message::Close => false,
        Message::CloseTabActive => false,
        Message::CloseTab { .. } => false,
        Message::SelectTab { .. } => false,
        Message::CycleTab { .. } => false,
        Message::SetViewport { .. } => false,
        Message::Rendered { .. } => false,
        Message::OutlineLoaded { .. } => false,
        Message::PrintSubmitted { .. } => false,
        Message::PrintPdfOpened { .. } => false,
        Message::SaveCopyDone { .. } => false,
        Message::SetTheme { .. } => false,
        Message::WindowMetrics { .. } => false,
        Message::WindowScale { .. } => false,
        Message::BrowseTo { .. } => false,
        Message::ListingReady { .. } => false,
        Message::RecentsReady { .. } => false,
        _ => true,
    }
}

/// A message about the document reaches the one that is shown, and no other;
/// without a document it does nothing.
pub proof fn law_messages_reach_the_shown_document(s: SessionView, message: Message)
    requires
        s.wf(),
        for_document(message),
    ensures
        match s {
            SessionView::Ready(tabs) => {
                let done = tabs.docs[tabs.active].handled(message);
                &&& s.updated(message).0 is Ready
                &&& s.updated(message).0->Ready_0 == (TabsView {
                    docs: tabs.docs.update(tabs.active, done.0),
                    ..tabs
                })
                &&& s.updated(message).1 == done.1
            },
            _ => s.updated(message) == (s, Seq::<ActionView>::empty()),
        },
{
}

/// Whether a dialog, a note or a warning lies over the document that is shown.
pub open spec fn covered(tabs: TabsView) -> bool {
    let doc = tabs.docs[tabs.active];
    doc.print_dialog is Some || doc.note_draft is Some || doc.save_warning
}

/// The tab that was chosen is shown, and the tabs stay as they are; one that is
/// not there is not.
pub proof fn law_chosen_tab_is_shown(tabs: TabsView, index: usize)
    requires
        tabs.wf(),
        !covered(tabs),
    ensures
        ({
            let after = SessionView::Ready(tabs).updated(Message::SelectTab { index }).0;
            after == SessionView::Ready(
                TabsView {
                    active: if index < tabs.docs.len() {
                        index as int
                    } else {
                        tabs.active
                    },
                    ..tabs
                },
            )
        }),
{
}

/// The tabs go round: the next one behind the last is the first, and the one
/// before the first is the last.
pub proof fn law_tabs_go_round(tabs: TabsView)
    requires
        tabs.wf(),
        tabs.docs.len() >= 2,
        !covered(tabs),
    ensures
        ({
            let on = SessionView::Ready(tabs).updated(Message::CycleTab { step: 1 }).0;
            let back = SessionView::Ready(tabs).updated(Message::CycleTab { step: (-1) as i32 }).0;
            let n = tabs.docs.len() as int;
            &&& on == SessionView::Ready(
                TabsView {
                    active: if tabs.active + 1 < n {
                        tabs.active + 1
                    } else {
                        0
                    },
                    ..tabs
                },
            )
            &&& back == SessionView::Ready(
                TabsView {
                    active: if tabs.active > 0 {
                        tabs.active - 1
                    } else {
                        n - 1
                    },
                    ..tabs
                },
            )
        }),
{
    let n = tabs.docs.len() as int;
    if tabs.active + 1 < n {
        vstd::arithmetic::div_mod::lemma_small_mod((tabs.active + 1) as nat, n as nat);
    } else {
        vstd::arithmetic::div_mod::lemma_mod_self_0(n);
    }
    if tabs.active > 0 {
        vstd::arithmetic::div_mod::lemma_small_mod((tabs.active - 1) as nat, n as nat);
    } else {
        vstd::arithmetic::div_mod::lemma_fundamental_div_mod_converse(-1, n, -1, n - 1);
    }
}

/// A tab that is closed is gone and its document is let go of; the others stay
/// in their order. What was shown stays shown; where that was closed, its
/// neighbour on the right is, or the last.
pub proof fn law_closed_tab_is_gone(tabs: TabsView, index: usize)
    requires
        tabs.wf(),
        tabs.docs.len() >= 2,
        index < tabs.docs.len(),
        !covered(tabs),
    ensures
        ({
            let after = SessionView::Ready(tabs).updated(Message::CloseTab { index });
            let left = after.0->Ready_0;
            &&& after.0 is Ready
            &&& left.docs == tabs.docs.remove(index as int)
            &&& 0 <= left.active < left.docs.len()
            &&& index != tabs.active ==> left.docs[left.active] == tabs.docs[tabs.active]
            &&& index == tabs.active && index + 1 < tabs.docs.len() ==> left.docs[left.active]
                == tabs.docs[index + 1]
            &&& index == tabs.active && index + 1 == tabs.docs.len() ==> left.docs[left.active]
                == tabs.docs[index - 1]
            &&& left == (TabsView { docs: left.docs, active: left.active, ..tabs })
            &&& after.1.contains(
                ActionView::CloseEngine { engine: tabs.docs[index as int].engine },
            )
            &&& forall|k: int|
                0 <= k < after.1.len() && (#[trigger] after.1[k]) is CloseEngine ==> after.1[k] == (
                ActionView::CloseEngine { engine: tabs.docs[index as int].engine })
        }),
        index == tabs.active ==> SessionView::Ready(tabs).updated(Message::CloseTabActive)
            == SessionView::Ready(tabs).updated(Message::CloseTab { index }),
{
    let after = SessionView::Ready(tabs).updated(Message::CloseTab { index });
    assert(after.1[0] == (ActionView::CloseEngine { engine: tabs.docs[index as int].engine }));
}

/// While something lies over the document, tabs are neither changed nor closed;
/// a tab that is not there is not closed.
pub proof fn law_covered_tabs_stay(tabs: TabsView, index: usize, step: i32)
    requires
        tabs.wf(),
    ensures
        ({
            let s = SessionView::Ready(tabs);
            &&& covered(tabs) ==> s.updated(Message::SelectTab { index }).0 == s
                && s.updated(Message::CycleTab { step }).0 == s && s.updated(
                Message::CloseTab { index },
            ).0 == s && s.updated(Message::CloseTabActive).0 == s
            &&& tabs.docs.len() >= 2 && index >= tabs.docs.len() ==> s.updated(
                Message::CloseTab { index },
            ).0 == s
            &&& tabs.docs.len() == 1 ==> s.updated(Message::CycleTab { step }).0 == s
        }),
{
}

/// A window that is closed holds no document and asks for the recent ones and
/// the places to begin; it keeps its looks, and what it knew of recent
/// documents. The last tab closes it.
pub proof fn law_closed_window_is_empty(s: SessionView)
    requires
        s.wf(),
    ensures
        ({
            let after = s.updated(Message::Close);
            &&& after.0 is Empty
            &&& after.0->Empty_0.cwd is None
            &&& after.0->Empty_0.listing.len() == 0
            &&& after.0->Empty_0.listing_error is None
            &&& after.1.contains(ActionView::LoadRecents)
            &&& after.1.contains(ActionView::List { path: None })
            &&& match s {
                SessionView::Ready(tabs) => {
                    let doc = tabs.docs[tabs.active];
                    &&& after.0->Empty_0.recents == doc.recents
                    &&& after.0->Empty_0.theme == doc.theme
                    &&& after.0->Empty_0.render_scale == doc.render_scale
                    &&& tabs.docs.len() == 1 && !covered(tabs) ==> s.updated(
                        Message::CloseTab { index: 0 },
                    ) == after
                },
                SessionView::Empty(empty) => {
                    &&& after.0->Empty_0.recents == empty.recents
                    &&& after.0->Empty_0.theme == empty.theme
                },
                SessionView::Loading { recents, theme, .. } => {
                    &&& after.0->Empty_0.recents == recents
                    &&& after.0->Empty_0.theme == theme
                },
                SessionView::Failed { recents, theme, .. } => {
                    &&& after.0->Empty_0.recents == recents
                    &&& after.0->Empty_0.theme == theme
                },
            }
        }),
{
    let after = s.updated(Message::Close);
    let n = after.1.len() as int;
    assert(after.1[n - 2] == ActionView::LoadRecents);
    assert(after.1[n - 1] == (ActionView::List { path: None }));
}

/// A document that was picked, dropped or chosen among the recent ones is read:
/// beside the others where there are some, else in the whole window. What is no
/// document is not.
pub proof fn law_chosen_document_is_read(s: SessionView, source: OpenSource, file: String)
    requires
        s.wf(),
        s.open_gen() < u64::MAX,
    ensures
        ({
            let after = s.updated(Message::PickFile { chosen: Some(source) });
            &&& after.1.len() == 1
            &&& after.1[0] is Open
            &&& after.1[0]->Open_source == source
            &&& after.1[0]->Open_gen > s.open_gen()
            &&& match s {
                SessionView::Ready(tabs) => after.0 == SessionView::Ready(
                    TabsView {
                        pending: Some((after.1[0]->Open_gen, source)),
                        open_error: None,
                        last_gen: after.1[0]->Open_gen,
                        ..tabs
                    },
                ),
                _ => {
                    &&& after.0 is Loading
                    &&& after.0->Loading_source == source
                    &&& after.0->Loading_gen == after.1[0]->Open_gen
                    &&& after.0->Loading_phase == 0
                },
            }
            &&& s.updated(Message::PickFile { chosen: None }) == (s, Seq::<ActionView>::empty())
            &&& pdf_name(file@) ==> s.updated(Message::FileDropped { file }) == s.updated(
                Message::PickFile { chosen: Some(OpenSource::Dropped(file)) },
            )
            &&& pdf_name(file@) ==> s.updated(Message::OpenRecent { file }) == s.updated(
                Message::PickFile { chosen: Some(OpenSource::Path(file)) },
            )
            &&& !pdf_name(file@) ==> s.updated(Message::FileDropped { file }) == (
                s,
                Seq::<ActionView>::empty(),
            )
            &&& !pdf_name(file@) ==> s.updated(Message::OpenRecent { file }) == (
                s,
                Seq::<ActionView>::empty(),
            )
        }),
{
}

proof fn lemma_merged(list: Seq<Seq<char>>, others: Seq<Seq<char>>, n: int)
    requires
        0 <= n <= others.len(),
    ensures
        merged(list, others, n).len() >= list.len(),
        forall|i: int| 0 <= i < list.len() ==> #[trigger] merged(list, others, n)[i] == list[i],
        forall|i: int| 0 <= i < n ==> known(merged(list, others, n), #[trigger] others[i]),
        forall|i: int|
            list.len() <= i < merged(list, others, n).len() ==> exists|j: int|
                0 <= j < n && others[j] == #[trigger] merged(list, others, n)[i],
    decreases n,
{
    if n > 0 {
        lemma_merged(list, others, n - 1);
        let front = merged(list, others, n - 1);
        let all = merged(list, others, n);
        assert forall|i: int| 0 <= i < n implies known(all, #[trigger] others[i]) by {
            if i < n - 1 {
                assert(known(front, others[i]));
                let k = choose|k: int|
                    0 <= k < front.len() && same_place(#[trigger] front[k], others[i]);
                assert(all[k] == front[k]);
            } else if !known(front, others[n - 1]) {
                assert(all[front.len() as int] == others[n - 1]);
                crate::paths::law_same_place_is_mutual(others[n - 1], others[n - 1]);
            }
        }
        assert forall|i: int| list.len() <= i < all.len() implies exists|j: int|
            0 <= j < n && others[j] == #[trigger] all[i] by {
            if i < front.len() {
                assert(all[i] == front[i]);
                let j = choose|j: int| 0 <= j < n - 1 && others[j] == front[i];
                assert(others[j] == all[i]);
            } else {
                assert(others[n - 1] == all[i]);
            }
        }
    }
}

/// The documents that the window knows of come before those that were stored;
/// all of both are known, and no others.
pub proof fn law_recent_documents_are_brought_together(
    list: Seq<Seq<char>>,
    others: Seq<Seq<char>>,
    i: int,
)
    ensures
        ({
            let all = merged(list, others, others.len() as int);
            &&& all.len() >= list.len()
            &&& 0 <= i < list.len() ==> all[i] == list[i]
            &&& 0 <= i < others.len() ==> known(all, others[i])
            &&& list.len() <= i < all.len() ==> others.contains(all[i])
        }),
{
    lemma_merged(list, others, others.len() as int);
    let all = merged(list, others, others.len() as int);
    if list.len() <= i < all.len() {
        let j = choose|j: int| 0 <= j < others.len() && others[j] == all[i];
        assert(others.contains(all[i]));
    }
}

/// A document that was read is shown, with its own pages and engine and without
/// what the last one had; its path comes first among the recent ones, which are
/// stored.
pub proof fn law_read_document_is_shown(
    s: SessionView,
    gen: u64,
    ready: Ready,
    stored: Vec<String>,
    left_at: Option<DocPosition>,
)
    requires
        s.wf(),
        s is Loading,
        s->Loading_gen == gen,
    ensures
        ({
            let after = s.updated(Message::Opened { gen, result: Ok(ready), stored, left_at });
            let tabs = after.0->Ready_0;
            let doc = tabs.docs[0];
            &&& after.0 is Ready
            &&& tabs.docs.len() == 1
            &&& tabs.active == 0
            &&& tabs.pending is None
            &&& doc.source == ready.source
            &&& doc.engine == ready.engine
            &&& doc.pages == ready@.pages
            &&& doc.signatures == ready.signatures
            &&& doc.open_gen == gen
            &&& doc.theme == s->Loading_theme
            &&& doc.render_scale == s->Loading_render_scale
            &&& doc.recents.len() > 0
            &&& doc.recents[0] == ready.source.place()
            &&& left_at is None ==> doc.visible == ready.visible && doc.zoom == ready.zoom
                && doc.view_mode == ready.view_mode
            &&& after.1.contains(ActionView::SaveRecents { recents: doc.recents })
            &&& after.1.contains(ActionView::Schedule)
        }),
{
    let after = s.updated(Message::Opened { gen, result: Ok(ready), stored, left_at });
    assert(after.1[0] is SaveRecents);
    let show = after.0.show();
    let n = after.1.len() - show.len();
    assert(show[0] == ActionView::Schedule);
    assert(after.1[n as int] == show[0]);
}

/// A document that could not be read leaves a window that names it and says
/// why; beside others, it leaves those, and a line that says why.
pub proof fn law_failure_is_told(
    s: SessionView,
    gen: u64,
    error: OpenError,
    stored: Vec<String>,
    left_at: Option<DocPosition>,
)
    requires
        s.wf(),
        s.loading_gen() == Some(gen),
    ensures
        ({
            let after = s.updated(Message::Opened { gen, result: Err(error), stored, left_at }).0;
            &&& s is Loading ==> {
                &&& after is Failed
                &&& after->Failed_source == s->Loading_source
                &&& after->Failed_message == error.words()
                &&& after->Failed_theme == s->Loading_theme
            }
            &&& s is Ready ==> {
                &&& after is Ready
                &&& after->Ready_0.docs == s->Ready_0.docs
                &&& after->Ready_0.active == s->Ready_0.active
                &&& after->Ready_0.pending is None
                &&& after->Ready_0.open_error is Some
            }
        }),
{
}

/// A document that is not waited for any more, because the window was closed or
/// another was asked for, is let go of and changes nothing.
pub proof fn law_late_document_changes_nothing(
    s: SessionView,
    gen: u64,
    ready: Ready,
    stored: Vec<String>,
    left_at: Option<DocPosition>,
)
    requires
        s.wf(),
        match s {
            SessionView::Loading { gen: waited, .. } => waited != gen,
            SessionView::Ready(tabs) => match tabs.pending {
                Some((waited, _)) => waited != gen,
                None => true,
            },
            _ => true,
        },
    ensures
        s.updated(Message::Opened { gen, result: Ok(ready), stored, left_at }).0 == s,
        s.updated(Message::Opened { gen, result: Ok(ready), stored, left_at }).1.contains(
            ActionView::CloseEngine { engine: ready.engine },
        ),
{
    let after = s.updated(Message::Opened { gen, result: Ok(ready), stored, left_at });
    assert(after.1[0] == (ActionView::CloseEngine { engine: ready.engine }));
}

/// The colours are the chosen ones, in the window and in every document, and
/// they are stored; nothing else changes but that the menu closes.
pub proof fn law_colours_are_the_chosen_ones(s: SessionView, theme: Theme, i: int)
    requires
        s.wf(),
    ensures
        ({
            let after = s.updated(Message::SetTheme { theme });
            &&& after.1 == seq![ActionView::SaveTheme { theme }]
            &&& match s {
                SessionView::Ready(tabs) => {
                    &&& after.0 is Ready
                    &&& after.0->Ready_0 == (TabsView { docs: after.0->Ready_0.docs, ..tabs })
                    &&& after.0->Ready_0.docs.len() == tabs.docs.len()
                    &&& 0 <= i < tabs.docs.len() ==> after.0->Ready_0.docs[i] == (ReadyView {
                        theme,
                        overflow_open: tabs.docs[i].overflow_open && i != tabs.active,
                        ..tabs.docs[i]
                    })
                },
                SessionView::Empty(empty) => after.0 == SessionView::Empty(
                    EmptyView { theme, ..empty },
                ),
                SessionView::Loading { source, recents, gen, render_scale, phase, .. } => after.0
                    == (SessionView::Loading { source, recents, gen, theme, render_scale, phase }),
                SessionView::Failed { source, message, recents, gen, render_scale, .. } => after.0
                    == (SessionView::Failed { source, message, recents, gen, theme, render_scale }),
            }
        }),
{
}

/// A window of another size is known to every document; bitmaps for the old
/// size are not waited for in the one that is shown.
pub proof fn law_every_document_knows_the_size(tabs: TabsView, viewport: Viewport, i: int)
    requires
        tabs.wf(),
        0 <= i < tabs.docs.len(),
    ensures
        ({
            let s = SessionView::Ready(tabs);
            let a = s.updated(Message::WindowMetrics { viewport });
            let b = s.updated(Message::SetViewport { viewport });
            &&& a.0 is Ready
            &&& a.0 == b.0
            &&& a.0->Ready_0 == (TabsView { docs: a.0->Ready_0.docs, ..tabs })
            &&& a.0->Ready_0.docs.len() == tabs.docs.len()
            &&& a.0->Ready_0.docs[i] == (ReadyView {
                viewport,
                render_gen: a.0->Ready_0.docs[i].render_gen,
                ..tabs.docs[i]
            })
            &&& i == tabs.active <==> a.0->Ready_0.docs[i].render_gen != tabs.docs[i].render_gen
            &&& a.1.contains(ActionView::Schedule)
            &&& a.1.contains(ActionView::QueryScale)
        }),
{
    let a = SessionView::Ready(tabs).updated(Message::WindowMetrics { viewport });
    assert(a.1[0] is Schedule);
    assert(a.1[a.1.len() - 1] is QueryScale);
}

/// The density of the window is taken over where it is one or more, four at
/// most, in every document; what is no number, what is below one and what is
/// as before changes nothing.
pub proof fn law_density_is_taken_over(s: SessionView, density: Coord, near: bool, i: int)
    requires
        s.wf(),
    ensures
        ({
            let after = s.updated(Message::WindowScale { density, near });
            let usable = density.finite() && density.0 >= ONE && !near;
            let scale = if density.0 <= FOUR { density } else { Coord(FOUR) };
            &&& !usable ==> after == (s, Seq::<ActionView>::empty())
            &&& usable ==> match s {
                SessionView::Ready(tabs) => {
                    &&& after.0 is Ready
                    &&& after.0->Ready_0 == (TabsView { docs: after.0->Ready_0.docs, ..tabs })
                    &&& after.0->Ready_0.docs.len() == tabs.docs.len()
                    &&& 0 <= i < tabs.docs.len() ==> after.0->Ready_0.docs[i] == (ReadyView {
                        render_scale: scale,
                        render_gen: after.0->Ready_0.docs[i].render_gen,
                        ..tabs.docs[i]
                    })
                    &&& after.1 == seq![ActionView::Schedule]
                },
                SessionView::Empty(empty) => after.0 == SessionView::Empty(
                    EmptyView { render_scale: scale, ..empty },
                ),
                SessionView::Loading { source, recents, gen, theme, phase, .. } => after.0 == (
                SessionView::Loading { source, recents, gen, theme, render_scale: scale, phase }),
                SessionView::Failed { source, message, recents, gen, theme, .. } => after.0 == (
                SessionView::Failed { source, message, recents, gen, theme, render_scale: scale }),
            }
        }),
{
}

/// The folder that was chosen is looked at and listed; what was listed is shown
/// if it is that folder still, or why it could not be.
pub proof fn law_chosen_folder_is_listed(
    empty: EmptyView,
    folder: Option<String>,
    other: Option<String>,
    listing: Vec<FsEntry>,
    reason: String,
)
    ensures
        ({
            let there = SessionView::Empty(empty).updated(Message::BrowseTo { folder });
            let listed = there.0.updated(
                Message::ListingReady { folder: other, listed: Ok(listing) },
            ).0;
            let failed = there.0.updated(
                Message::ListingReady { folder: other, listed: Err(reason) },
            ).0;
            let same = match (folder, other) {
                (Some(a), Some(b)) => same_place(a@, b@),
                (None, None) => true,
                _ => false,
            };
            &&& there.0 == SessionView::Empty(
                EmptyView { cwd: maybe_text(folder), listing_error: None, ..empty },
            )
            &&& there.1 == seq![ActionView::List { path: maybe_text(folder) }]
            &&& !same ==> listed == there.0 && failed == there.0
            &&& same ==> listed is Empty && listed->Empty_0 == (EmptyView {
                listing: listing@,
                listing_error: None,
                ..there.0->Empty_0
            })
            &&& same ==> failed is Empty && failed->Empty_0 == (EmptyView {
                listing: Seq::empty(),
                listing_error: Some(reason@),
                ..there.0->Empty_0
            })
        }),
{
}

/// The recent documents that were stored are offered where no document is open.
pub proof fn law_stored_documents_are_offered(s: SessionView, stored: Vec<String>)
    ensures
        ({
            let after = s.updated(Message::RecentsReady { stored });
            &&& s is Empty ==> after.0 is Empty && after.0->Empty_0 == (EmptyView {
                recents: texts(stored@),
                ..s->Empty_0
            })
            &&& s is Loading ==> after.0 is Loading && after.0->Loading_recents == texts(stored@)
                && after.0->Loading_source == s->Loading_source && after.0->Loading_gen
                == s->Loading_gen
            &&& s is Ready || s is Failed ==> after.0 == s
            &&& after.1.len() == 0
        }),
{
}

/// While a document is being read the window counts, and nothing else changes.
pub proof fn law_waiting_counts(s: SessionView)
    ensures
        match s {
            SessionView::Loading { source, recents, gen, theme, render_scale, phase } => s.updated(
                Message::LoadingTick,
            ).0 == (SessionView::Loading {
                source,
                recents,
                gen,
                theme,
                render_scale,
                phase: ((phase + 1) % 65536) as u16,
            }),
            _ => s.updated(Message::LoadingTick).0 == s,
        },
{
}

proof fn lemma_gen(tabs: TabsView, i: int, n: int)
    requires
        tabs.wf(),
        0 <= i < n <= tabs.docs.len(),
    ensures
        crate::tabs::gen_upto(tabs.docs, tabs.docs[i].open_gen, n) == Some(i),
{
    lemma_gen_upto(tabs.docs, tabs.docs[i].open_gen, n);
    let k = crate::tabs::gen_upto(tabs.docs, tabs.docs[i].open_gen, n);
    if k is None {
        assert(tabs.docs[i].open_gen != tabs.docs[i].open_gen);
    } else if k->0 < i {
        assert(tabs.docs[k->0].open_gen != tabs.docs[i].open_gen);
    } else if i < k->0 {
        assert(tabs.docs[i].open_gen != tabs.docs[k->0].open_gen);
    }
}

/// The text of a page that was read becomes that page's, in the document that
/// asked for it, whichever tab it is in; the other pages and the other
/// documents stay.
pub proof fn law_read_page_reaches_its_document(
    tabs: TabsView,
    i: int,
    page: PageNo,
    media: MediaBox,
    text: TextLayer,
)
    requires
        tabs.wf(),
        0 <= i < tabs.docs.len(),
        page.0 < tabs.docs[i].pages.total,
    ensures
        ({
            let doc_gen = tabs.docs[i].open_gen;
            let after = SessionView::Ready(tabs).updated(
                Message::PageData { page, doc_gen, read: Ok((media, text)) },
            );
            let doc = after.0->Ready_0.docs[i];
            &&& after.0 is Ready
            &&& after.0->Ready_0 == (TabsView { docs: tabs.docs.update(i, doc), ..tabs })
            &&& doc.pages.total == tabs.docs[i].pages.total
            &&& doc.pages.text == tabs.docs[i].pages.text.update(page.0 as int, Some(text))
            &&& doc.pages.media == tabs.docs[i].pages.media.update(page.0 as int, Some(media))
            &&& !doc.page_data_inflight.contains(page.0)
            &&& !doc.page_data_failed.contains(page.0)
            &&& doc.search.query == tabs.docs[i].search.query
            &&& doc == (ReadyView {
                pages: doc.pages,
                search: doc.search,
                page_data_inflight: tabs.docs[i].page_data_inflight.remove(page.0),
                page_data_failed: tabs.docs[i].page_data_failed.remove(page.0),
                ..tabs.docs[i]
            })
            &&& after.1.contains(ActionView::Schedule)
        }),
{
    lemma_gen(tabs, i, tabs.docs.len() as int);
    let doc_gen = tabs.docs[i].open_gen;
    let after = SessionView::Ready(tabs).updated(
        Message::PageData { page, doc_gen, read: Ok((media, text)) },
    );
    assert(after.1[0] is Schedule);
}

/// A page that could not be read is not waited for any more, and is known to
/// have failed.
pub proof fn law_unread_page_is_remembered(tabs: TabsView, i: int, page: PageNo, reason: String)
    requires
        tabs.wf(),
        0 <= i < tabs.docs.len(),
    ensures
        ({
            let doc_gen = tabs.docs[i].open_gen;
            let after = SessionView::Ready(tabs).updated(
                Message::PageData { page, doc_gen, read: Err(reason) },
            ).0;
            &&& after is Ready
            &&& after->Ready_0.docs[i] == (ReadyView {
                page_data_inflight: tabs.docs[i].page_data_inflight.remove(page.0),
                page_data_failed: tabs.docs[i].page_data_failed.insert(page.0),
                ..tabs.docs[i]
            })
        }),
{
    lemma_gen(tabs, i, tabs.docs.len() as int);
}

/// The table of contents that was read becomes that of the document that asked
/// for it.
pub proof fn law_table_reaches_its_document(tabs: TabsView, i: int, outline: Option<Outline>)
    requires
        tabs.wf(),
        0 <= i < tabs.docs.len(),
    ensures
        SessionView::Ready(tabs).updated(
            Message::OutlineLoaded { doc_gen: tabs.docs[i].open_gen, outline },
        ).0 == SessionView::Ready(
            TabsView {
                docs: tabs.docs.update(i, ReadyView { outline, ..tabs.docs[i] }),
                ..tabs
            },
        ),
{
    lemma_gen(tabs, i, tabs.docs.len() as int);
}

/// What became of a print job reaches the document that it was of.
pub proof fn law_job_reaches_its_document(
    tabs: TabsView,
    i: int,
    printer: String,
    sent: Result<u64, String>,
)
    requires
        tabs.wf(),
        0 <= i < tabs.docs.len(),
    ensures
        SessionView::Ready(tabs).updated(
            Message::PrintSubmitted { doc_gen: tabs.docs[i].open_gen, printer, sent },
        ).0 == SessionView::Ready(
            TabsView {
                docs: tabs.docs.update(i, tabs.docs[i].print_answered(printer@, sent)),
                ..tabs
            },
        ),
{
    lemma_gen(tabs, i, tabs.docs.len() as int);
}

/// A copy that was saved is said to be, and is a recent document in every tab,
/// which is stored; one that was not says why, and the recent documents stay.
pub proof fn law_saved_copy_is_told(
    tabs: TabsView,
    i: int,
    dest: String,
    reason: String,
    stored: Vec<String>,
    j: int,
)
    requires
        tabs.wf(),
        0 <= i < tabs.docs.len(),
        0 <= j < tabs.docs.len(),
    ensures
        ({
            let doc_gen = tabs.docs[i].open_gen;
            let s = SessionView::Ready(tabs);
            let saved = s.updated(
                Message::SaveCopyDone { doc_gen, dest, saved: Ok(()), stored },
            );
            let failed = s.updated(
                Message::SaveCopyDone { doc_gen, dest, saved: Err(reason), stored },
            );
            &&& saved.0 is Ready
            &&& saved.0->Ready_0.docs[j].recents.len() > 0
            &&& saved.0->Ready_0.docs[j].recents[0] == dest@
            &&& saved.0->Ready_0.docs[j].recents == saved.0->Ready_0.docs[i].recents
            &&& saved.0->Ready_0.docs[i].save_status is Some
            &&& saved.0->Ready_0.docs[i].marks == tabs.docs[i].marks
            &&& saved.0->Ready_0.active == tabs.active
            &&& saved.1 == seq![
                ActionView::SaveRecents { recents: saved.0->Ready_0.docs[i].recents },
            ]
            &&& failed.0 is Ready
            &&& failed.0->Ready_0.docs[j].recents == tabs.docs[j].recents
            &&& failed.0->Ready_0.docs[i].save_status == Some("Falha ao salvar: "@ + reason@)
            &&& failed.1.len() == 0
        }),
{
    lemma_gen(tabs, i, tabs.docs.len() as int);
    assert(tabs.docs[i].recents == tabs.docs[0].recents);
    assert(tabs.docs[j].recents == tabs.docs[0].recents);
}

/// What kept a document from being read is said in words that tell whether the
/// file, the document or its signatures were at fault; beside other documents
/// the line names the file.
pub proof fn law_failures_are_told_in_words(
    tabs: TabsView,
    gen: u64,
    source: OpenSource,
    error: OpenError,
    stored: Vec<String>,
)
    requires
        tabs.wf(),
        tabs.pending == Some((gen, source)),
        !source.place().contains(crate::native::ESCAPE),
    ensures
        ({
            let said = match error {
                OpenError::Io(e) => "não foi possível ler o arquivo: "@ + e@,
                OpenError::Engine(e) => "não foi possível abrir o PDF: "@ + e@,
                OpenError::Sign(e) => "assinaturas: "@ + e@,
            };
            let after = SessionView::Ready(tabs).updated(
                Message::Opened { gen, result: Err(error), stored, left_at: None },
            ).0;
            &&& error.words() == said
            &&& after is Ready
            &&& after->Ready_0.open_error == Some(
                "Falha ao abrir "@ + source.place() + ": "@ + said,
            )
        }),
{
}

/// What became of the document for print reaches the dialog of the document
/// that it was of: the dialog waits no more, and a failure is told there.
pub proof fn law_document_for_print_reaches_its_dialog(
    tabs: TabsView,
    i: int,
    written: Result<String, String>,
)
    requires
        tabs.wf(),
        0 <= i < tabs.docs.len(),
        tabs.docs[i].print_dialog is Some,
    ensures
        ({
            let after = SessionView::Ready(tabs).updated(
                Message::PrintPdfOpened { doc_gen: tabs.docs[i].open_gen, written },
            );
            let doc = after.0->Ready_0.docs[i];
            let before = tabs.docs[i].print_dialog->0;
            &&& after.0 is Ready
            &&& after.0->Ready_0 == (TabsView { docs: tabs.docs.update(i, doc), ..tabs })
            &&& doc.print_dialog is Some
            &&& !doc.print_dialog->0.busy
            &&& doc.print_dialog->0.error == if written is Err {
                Some(written->Err_0@)
            } else {
                before.error
            }
            &&& doc == (ReadyView { print_dialog: doc.print_dialog, ..tabs.docs[i] })
            &&& after.1.len() == 0
        }),
{
    lemma_gen(tabs, i, tabs.docs.len() as int);
}

/// A rendered page reaches the document that asked for it: it is not waited for
/// any more, what could not be rendered is known to have failed, and the other
/// documents stay.
pub proof fn law_rendered_page_reaches_its_document(
    tabs: TabsView,
    i: int,
    page: PageNo,
    scale: Scale,
    rotation: u8,
    geometry: Geometry,
)
    requires
        tabs.wf(),
        0 <= i < tabs.docs.len(),
    ensures
        ({
            let old_doc = tabs.docs[i];
            let after = SessionView::Ready(tabs).updated(
                Message::Rendered {
                    page,
                    scale,
                    rotation,
                    doc_gen: old_doc.open_gen,
                    render_gen: old_doc.render_gen,
                    surface: None,
                    geometry,
                },
            );
            let doc = after.0->Ready_0.docs[i];
            let key = crate::cache::key_of(page, scale, rotation);
            &&& after.0 is Ready
            &&& after.0->Ready_0 == (TabsView { docs: tabs.docs.update(i, doc), ..tabs })
            &&& doc == (ReadyView {
                render_inflight: old_doc.render_inflight.remove(key),
                failed: old_doc.failed.insert(key),
                surfaces: doc.surfaces,
                thumbs: doc.thumbs,
                ..old_doc
            })
            &&& after.1.contains(ActionView::Schedule)
        }),
{
    lemma_gen(tabs, i, tabs.docs.len() as int);
    let after = SessionView::Ready(tabs).updated(
        Message::Rendered {
            page,
            scale,
            rotation,
            doc_gen: tabs.docs[i].open_gen,
            render_gen: tabs.docs[i].render_gen,
            surface: None,
            geometry,
        },
    );
    assert(after.1[0] is Schedule);
}

} // verus!
