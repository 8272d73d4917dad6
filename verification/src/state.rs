//! What a document in the window is made of, and what the window asks to be
//! done outside of it.

use vstd::prelude::*;

use crate::annot::{copy_quads, Annotation, AnnotationView};
use crate::browse::{texts, Theme};
use crate::page::{
    Coord, MediaBox, PageNo, Point, Quad, Scale, TextLayer, TextRange, Viewport, EIGHT,
    QUARTER,
};
use crate::print::PrintSelection;
use crate::text::joined;

verus! {

/// Where a document came from.
#[derive(Debug)]
pub enum OpenSource {
    Path(String),
    Dropped(String),
}

impl Clone for OpenSource {
    fn clone(&self) -> (r: OpenSource)
        ensures
            r == *self,
    {
        match self {
            OpenSource::Path(p) => OpenSource::Path(p.clone()),
            OpenSource::Dropped(p) => OpenSource::Dropped(p.clone()),
        }
    }
}

impl OpenSource {
    pub open spec fn place(self) -> Seq<char> {
        match self {
            OpenSource::Path(p) => p@,
            OpenSource::Dropped(p) => p@,
        }
    }

    pub fn path(&self) -> (path: &str)
        ensures
            path@ == self.place(),
    {
        match self {
            OpenSource::Path(p) => p.as_str(),
            OpenSource::Dropped(p) => p.as_str(),
        }
    }
}

/// A zoom between a quarter and eight times.
#[derive(Debug, Clone, Copy, PartialEq, Eq, Structural)]
pub struct ZoomFactor(pub Coord);

impl ZoomFactor {
    /// A factor brought into what is allowed; what is no number stays.
    pub open spec fn of(raw: Coord) -> ZoomFactor {
        if raw.below(Coord(QUARTER)) {
            ZoomFactor(Coord(QUARTER))
        } else if Coord(EIGHT).below(raw) {
            ZoomFactor(Coord(EIGHT))
        } else {
            ZoomFactor(raw)
        }
    }

    pub fn new(raw: Coord) -> (factor: ZoomFactor)
        ensures
            factor == ZoomFactor::of(raw),
            raw.number() ==> QUARTER <= factor.0.0 <= EIGHT,
    {
        if raw.is_below(Coord(QUARTER)) {
            ZoomFactor(Coord(QUARTER))
        } else if Coord(EIGHT).is_below(raw) {
            ZoomFactor(Coord(EIGHT))
        } else {
            ZoomFactor(raw)
        }
    }

    pub fn get(self) -> (raw: Coord)
        ensures
            raw == self.0,
    {
        self.0
    }
}

/// How large a page is shown.
#[derive(Debug, Clone, Copy, PartialEq, Eq, Structural)]
pub enum Zoom {
    Width,
    Page,
    Manual(ZoomFactor),
}

/// One page at a time, or all of them one below the other.
#[derive(Debug, Clone, Copy, PartialEq, Eq, Structural)]
pub enum ViewMode {
    Single,
    Continuous,
}

/// A piece of text that is selected.
#[derive(Debug, Clone, Copy, PartialEq, Eq, Structural)]
pub struct Selection {
    pub page: PageNo,
    pub range: TextRange,
}

/// Where the pointer was pressed; `exact` if it was on a glyph and not only
/// near one.
#[derive(Debug, Clone, Copy, PartialEq, Eq, Structural)]
pub struct PressAnchor {
    pub sel: Selection,
    pub exact: bool,
}

/// A note that is being written: a new one, or one that is there already.
#[derive(Debug)]
pub struct NoteDraft {
    pub page: PageNo,
    pub range: TextRange,
    pub quads: Vec<Quad>,
    pub content: String,
    pub editing: Option<u64>,
    /// The corner of the note's marker on the page.
    pub marker: Point,
    /// Where the note was opened in the window, and how far the document was
    /// scrolled then.
    pub anchor: Point,
    pub anchor_scroll: Coord,
}

/// What a note that is being written holds.
pub struct NoteDraftView {
    pub page: PageNo,
    pub range: TextRange,
    pub quads: Seq<Quad>,
    pub content: Seq<char>,
    pub editing: Option<u64>,
    pub marker: Point,
    pub anchor: Point,
    pub anchor_scroll: Coord,
}

impl View for NoteDraft {
    type V = NoteDraftView;

    open spec fn view(&self) -> NoteDraftView {
        NoteDraftView {
            page: self.page,
            range: self.range,
            quads: self.quads@,
            content: self.content@,
            editing: self.editing,
            marker: self.marker,
            anchor: self.anchor,
            anchor_scroll: self.anchor_scroll,
        }
    }
}

impl Clone for NoteDraft {
    fn clone(&self) -> (r: NoteDraft)
        ensures
            r@ == self@,
    {
        NoteDraft {
            page: self.page,
            range: self.range,
            quads: copy_quads(&self.quads),
            content: self.content.clone(),
            editing: self.editing,
            marker: self.marker,
            anchor: self.anchor,
            anchor_scroll: self.anchor_scroll,
        }
    }
}

/// A note's marker that is being dragged: where the pointer was pressed, where
/// the marker stood then, and where the pointer is now.
#[derive(Debug, Clone, Copy, PartialEq, Eq, Structural)]
pub struct NoteDrag {
    pub id: u64,
    pub page: PageNo,
    pub from: Point,
    pub marker0: Point,
    pub at: Point,
}

/// A way to another page.
#[derive(Debug, Clone, Copy, PartialEq, Eq, Structural)]
pub enum NavCmd {
    Previous,
    Next,
    First,
    Last,
    GoTo(PageNo),
}

/// A key for the table of contents.
#[derive(Debug, Clone, Copy, PartialEq, Eq, Structural)]
pub enum OutlineKey {
    Prev,
    Next,
    Activate,
}

/// What a signature turned out to be.
#[derive(Debug, Clone, Copy, PartialEq, Eq, Structural)]
pub enum SignatureStatus {
    Valid,
    IntactButUntrusted,
    DocumentModified,
    Invalid,
    Unsupported,
    CertificateExpired,
    CertificateNotYetValid,
}

/// A signature of a document.
#[derive(Debug, Clone)]
pub struct SignatureInfo {
    pub signer_name: Option<String>,
    /// The name in the certificate, if there is one.
    pub common_name: Option<String>,
    pub status: SignatureStatus,
    pub status_detail: String,
}

/// The signatures of a document.
#[derive(Debug, Clone)]
pub struct PdfAnalysis {
    pub signatures: Vec<SignatureInfo>,
}

/// Whether a marked copy would break a signature of the document.
pub fn needs_sign_warning(signatures: &PdfAnalysis) -> (r: bool)
    ensures
        r == (signatures.signatures@.len() > 0),
{
    signatures.signatures.len() > 0
}

/// Why a document did not open.
#[derive(Debug)]
pub enum OpenError {
    Io(String),
    Engine(String),
    Sign(String),
}

impl OpenError {
    /// The failure in words.
    pub open spec fn words(self) -> Seq<char> {
        match self {
            OpenError::Io(e) => "não foi possível ler o arquivo: "@ + e@,
            OpenError::Engine(e) => "não foi possível abrir o PDF: "@ + e@,
            OpenError::Sign(e) => "assinaturas: "@ + e@,
        }
    }

    /// The failure in words.
    pub fn message(&self) -> (text: String)
        ensures
            text@ == self.words(),
    {
        match self {
            OpenError::Io(e) => joined("não foi possível ler o arquivo: ", e.as_str()),
            OpenError::Engine(e) => joined("não foi possível abrir o PDF: ", e.as_str()),
            OpenError::Sign(e) => joined("assinaturas: ", e.as_str()),
        }
    }
}

/// The pages of a document, as far as they were read.
#[derive(Debug)]
pub struct PageCatalog {
    pub total: u32,
    pub media: Vec<Option<MediaBox>>,
    pub text: Vec<Option<TextLayer>>,
}

/// What is known of the pages of a document.
pub struct CatalogView {
    pub total: u32,
    pub media: Seq<Option<MediaBox>>,
    pub text: Seq<Option<TextLayer>>,
}

impl View for PageCatalog {
    type V = CatalogView;

    open spec fn view(&self) -> CatalogView {
        CatalogView { total: self.total, media: self.media@, text: self.text@ }
    }
}

impl CatalogView {
    pub open spec fn wf(self) -> bool {
        self.media.len() == self.total && self.text.len() == self.total
    }

    /// A document of which the first page was read.
    pub open spec fn opened(total: u32, first: Option<(MediaBox, TextLayer)>) -> CatalogView {
        CatalogView {
            total,
            media: Seq::new(
                total as nat,
                |i: int|
                    if i == 0 && first is Some {
                        Some((first->0).0)
                    } else {
                        None
                    },
            ),
            text: Seq::new(
                total as nat,
                |i: int|
                    if i == 0 && first is Some {
                        Some((first->0).1)
                    } else {
                        None
                    },
            ),
        }
    }

    /// A page that was read.
    pub open spec fn with_page(self, page: PageNo, media: MediaBox, text: TextLayer) -> CatalogView {
        if page.0 < self.total {
            CatalogView {
                media: self.media.update(page.0 as int, Some(media)),
                text: self.text.update(page.0 as int, Some(text)),
                ..self
            }
        } else {
            self
        }
    }

    pub open spec fn media_of(self, page: PageNo) -> Option<MediaBox> {
        if page.0 < self.media.len() {
            self.media[page.0 as int]
        } else {
            None
        }
    }

    pub open spec fn layer_of(self, page: PageNo) -> Option<TextLayer> {
        if page.0 < self.text.len() {
            self.text[page.0 as int]
        } else {
            None
        }
    }

    /// Whether a page was read.
    pub open spec fn has(self, page: PageNo) -> bool {
        self.media_of(page) is Some && self.layer_of(page) is Some
    }
}

impl PageCatalog {
    /// A document of which the first page was read, if it has one.
    pub fn extract_first(total: u32, first: Option<(MediaBox, TextLayer)>) -> (pages: PageCatalog)
        ensures
            pages@ == CatalogView::opened(total, first),
            pages@.wf(),
    {
        let mut media: Vec<Option<MediaBox>> = Vec::new();
        let mut text: Vec<Option<TextLayer>> = Vec::new();
        let ghost all = CatalogView::opened(total, first);
        let mut i: u32 = 0;
        let mut first = first;
        let ghost whole = first;
        while i < total
            invariant
                i <= total,
                all == CatalogView::opened(total, whole),
                i == 0 ==> first == whole,
                media@ == all.media.take(i as int),
                text@ == all.text.take(i as int),
            decreases total - i,
        {
            if i == 0 {
                match first {
                    Some((m, t)) => {
                        media.push(Some(m));
                        text.push(Some(t));
                    },
                    None => {
                        media.push(None);
                        text.push(None);
                    },
                }
                first = None;
            } else {
                media.push(None);
                text.push(None);
            }
            i += 1;
            assert(media@ =~= all.media.take(i as int));
            assert(text@ =~= all.text.take(i as int));
        }
        assert(media@ =~= all.media);
        assert(text@ =~= all.text);
        PageCatalog { total, media, text }
    }

    /// The text of a page that was read.
    pub fn layer(&self, page: PageNo) -> (r: Option<&TextLayer>)
        ensures
            match self@.layer_of(page) {
                Some(layer) => r == Some(&layer),
                None => r is None,
            },
    {
        let i: usize = page.index() as usize;
        if i < self.text.len() {
            match &self.text[i] {
                Some(layer) => Some(layer),
                None => None,
            }
        } else {
            None
        }
    }

    /// The size of a page that was read.
    pub fn loaded_media(&self, page: PageNo) -> (r: Option<MediaBox>)
        ensures
            r == self@.media_of(page),
    {
        let i: usize = page.index() as usize;
        if i < self.media.len() {
            self.media[i]
        } else {
            None
        }
    }

    /// Whether a page was read.
    pub fn has_page_data(&self, page: PageNo) -> (r: bool)
        ensures
            r == self@.has(page),
    {
        self.loaded_media(page).is_some() && self.layer(page).is_some()
    }

    /// Takes in a page that was read.
    pub fn set_page(&mut self, page: PageNo, media: MediaBox, text: TextLayer)
        requires
            old(self)@.wf(),
        ensures
            final(self)@ == old(self)@.with_page(page, media, text),
            final(self)@.wf(),
    {
        let i: usize = page.index() as usize;
        if page.index() < self.total {
            self.media.set(i, Some(media));
            self.text.set(i, Some(text));
        }
    }
}

/// What follows from the sizes of the pages, the window and the zoom, worked
/// out for a document as it stands: the scale that each page is rendered in,
/// the scale of its small bitmap, its size in pixels, the scale of a page that
/// is not there, the pages at the two ends of the scrolled region, and the
/// first row of the pages panel.
#[derive(Debug)]
pub struct Geometry {
    pub scales: Vec<Scale>,
    pub thumb_scales: Vec<Scale>,
    pub pixels: Vec<(u64, u64)>,
    pub blank: Scale,
    pub window_first: u32,
    pub window_last: u32,
    pub thumb_first: u32,
}

impl Geometry {
    pub open spec fn scale_of(self, page: PageNo) -> Scale {
        if page.0 < self.scales@.len() {
            self.scales@[page.0 as int]
        } else {
            self.blank
        }
    }

    pub open spec fn thumb_scale_of(self, page: PageNo) -> Scale {
        if page.0 < self.thumb_scales@.len() {
            self.thumb_scales@[page.0 as int]
        } else {
            self.blank
        }
    }

    /// The bytes that the bitmap of a page will take, four to the pixel.
    pub open spec fn estimate_of(self, page: PageNo) -> nat {
        if page.0 < self.pixels@.len() {
            crate::page::capped(
                (self.pixels@[page.0 as int].0 * self.pixels@[page.0 as int].1 * 4) as nat,
            )
        } else {
            0
        }
    }

    pub fn page_scale(&self, page: PageNo) -> (scale: Scale)
        ensures
            scale == self.scale_of(page),
    {
        let i: usize = page.index() as usize;
        if i < self.scales.len() {
            self.scales[i]
        } else {
            self.blank
        }
    }

    pub fn thumb_scale(&self, page: PageNo) -> (scale: Scale)
        ensures
            scale == self.thumb_scale_of(page),
    {
        let i: usize = page.index() as usize;
        if i < self.thumb_scales.len() {
            self.thumb_scales[i]
        } else {
            self.blank
        }
    }

    /// The bytes that the bitmap of a page will take.
    pub fn estimated_rgba_bytes(&self, page: PageNo) -> (n: usize)
        ensures
            n == self.estimate_of(page),
    {
        let i: usize = page.index() as usize;
        if i < self.pixels.len() {
            let (w, h) = self.pixels[i];
            rgba_bytes(w, h)
        } else {
            0
        }
    }
}

/// The bytes of a bitmap, four to the pixel.
pub fn rgba_bytes(width: u64, height: u64) -> (n: usize)
    ensures
        n == crate::page::capped((width * height * 4) as nat),
{
    assert(width * height <= 0xffff_ffff_ffff_ffff * 0xffff_ffff_ffff_ffff) by (nonlinear_arith)
        requires
            width <= 0xffff_ffff_ffff_ffff,
            height <= 0xffff_ffff_ffff_ffff,
    ;
    assert(width * height >= 0) by (nonlinear_arith)
        requires
            width >= 0,
            height >= 0,
    ;
    let pixels: u128 = (width as u128) * (height as u128);
    let most: u128 = usize::MAX as u128;
    if pixels > most / 4 {
        usize::MAX
    } else {
        (pixels * 4) as usize
    }
}

/// What the window asks to be done outside of it.
#[derive(Debug)]
pub enum Action {
    /// Read a document, and report it as opened under this generation.
    Open { source: OpenSource, gen: u64 },
    /// Look up the documents that were read last.
    LoadRecents,
    /// List a folder.
    List { path: Option<String> },
    /// Work out the geometry of the document that is shown, and let the next
    /// piece of work be chosen.
    Schedule,
    /// Scroll the document to a page.
    ScrollTo { page: PageNo },
    /// Scroll the pages panel.
    ScrollPages { y: Coord },
    /// Scroll the table of contents to a row.
    ScrollOutline { row: usize },
    /// Take the document that was just opened to the page that it was left
    /// on, scrolled as in a window of this size.
    Align { viewport: Viewport },
    /// The strip of tabs came or went: every document's height changes.
    Strip { shown: bool },
    Copy { text: String },
    /// Place the note that was just opened, and give it the keyboard.
    FocusPostit,
    LoadOutline { engine: u64, doc_gen: u64 },
    LoadPage { engine: u64, page: PageNo, doc_gen: u64 },
    Render {
        engine: u64,
        page: PageNo,
        scale: Scale,
        rotation: u8,
        doc_gen: u64,
        render_gen: u64,
    },
    ListPrinters,
    Spool {
        engine: u64,
        selection: PrintSelection,
        printer: String,
        title: String,
        doc_gen: u64,
    },
    OpenPrintPdf { engine: u64, selection: PrintSelection, source: String, doc_gen: u64 },
    /// Ask where a marked copy goes, and propose a name.
    AskSave { source: String, name: String },
    SaveCopy { engine: u64, marks: Vec<Annotation>, dest: String, doc_gen: u64 },
    SaveRecents { recents: Vec<String> },
    SaveTheme { theme: Theme },
    /// Store where a document was left.
    SavePosition { path: String, page: u32, zoom: Zoom, mode: ViewMode },
    /// Let go of a document.
    CloseEngine { engine: u64 },
    /// Ask how dense the window's pixels are.
    QueryScale,
}

/// What is asked for.
pub enum ActionView {
    Open { source: OpenSource, gen: u64 },
    LoadRecents,
    List { path: Option<Seq<char>> },
    Schedule,
    ScrollTo { page: PageNo },
    ScrollPages { y: Coord },
    ScrollOutline { row: usize },
    Align { viewport: Viewport },
    Strip { shown: bool },
    Copy { text: Seq<char> },
    FocusPostit,
    LoadOutline { engine: u64, doc_gen: u64 },
    LoadPage { engine: u64, page: PageNo, doc_gen: u64 },
    Render {
        engine: u64,
        page: PageNo,
        scale: Scale,
        rotation: u8,
        doc_gen: u64,
        render_gen: u64,
    },
    ListPrinters,
    Spool {
        engine: u64,
        selection: PrintSelection,
        printer: Seq<char>,
        title: Seq<char>,
        doc_gen: u64,
    },
    OpenPrintPdf { engine: u64, selection: PrintSelection, source: Seq<char>, doc_gen: u64 },
    AskSave { source: Seq<char>, name: Seq<char> },
    SaveCopy { engine: u64, marks: Seq<AnnotationView>, dest: Seq<char>, doc_gen: u64 },
    SaveRecents { recents: Seq<Seq<char>> },
    SaveTheme { theme: Theme },
    SavePosition { path: Seq<char>, page: u32, zoom: Zoom, mode: ViewMode },
    CloseEngine { engine: u64 },
    QueryScale,
}

impl View for Action {
    type V = ActionView;

    open spec fn view(&self) -> ActionView {
        match self {
            Action::Open { source, gen } => ActionView::Open { source: *source, gen: *gen },
            Action::LoadRecents => ActionView::LoadRecents,
            Action::List { path } => ActionView::List { path: crate::text::maybe_text(*path) },
            Action::Schedule => ActionView::Schedule,
            Action::ScrollTo { page } => ActionView::ScrollTo { page: *page },
            Action::ScrollPages { y } => ActionView::ScrollPages { y: *y },
            Action::ScrollOutline { row } => ActionView::ScrollOutline { row: *row },
            Action::Align { viewport } => ActionView::Align { viewport: *viewport },
            Action::Strip { shown } => ActionView::Strip { shown: *shown },
            Action::Copy { text } => ActionView::Copy { text: text@ },
            Action::FocusPostit => ActionView::FocusPostit,
            Action::LoadOutline { engine, doc_gen } => ActionView::LoadOutline {
                engine: *engine,
                doc_gen: *doc_gen,
            },
            Action::LoadPage { engine, page, doc_gen } => ActionView::LoadPage {
                engine: *engine,
                page: *page,
                doc_gen: *doc_gen,
            },
            Action::Render { engine, page, scale, rotation, doc_gen, render_gen } => ActionView::Render {
                engine: *engine,
                page: *page,
                scale: *scale,
                rotation: *rotation,
                doc_gen: *doc_gen,
                render_gen: *render_gen,
            },
            Action::ListPrinters => ActionView::ListPrinters,
            Action::Spool { engine, selection, printer, title, doc_gen } => ActionView::Spool {
                engine: *engine,
                selection: *selection,
                printer: printer@,
                title: title@,
                doc_gen: *doc_gen,
            },
            Action::OpenPrintPdf { engine, selection, source, doc_gen } => ActionView::OpenPrintPdf {
                engine: *engine,
                selection: *selection,
                source: source@,
                doc_gen: *doc_gen,
            },
            Action::AskSave { source, name } => ActionView::AskSave {
                source: source@,
                name: name@,
            },
            Action::SaveCopy { engine, marks, dest, doc_gen } => ActionView::SaveCopy {
                engine: *engine,
                marks: crate::annot::annots(marks@),
                dest: dest@,
                doc_gen: *doc_gen,
            },
            Action::SaveRecents { recents } => ActionView::SaveRecents { recents: texts(recents@) },
            Action::SaveTheme { theme } => ActionView::SaveTheme { theme: *theme },
            Action::SavePosition { path, page, zoom, mode } => ActionView::SavePosition {
                path: path@,
                page: *page,
                zoom: *zoom,
                mode: *mode,
            },
            Action::CloseEngine { engine } => ActionView::CloseEngine { engine: *engine },
            Action::QueryScale => ActionView::QueryScale,
        }
    }
}

/// What each action asks for.
pub open spec fn asked(actions: Seq<Action>) -> Seq<ActionView> {
    actions.map_values(|a: Action| a@)
}

/// No action at all.
pub fn nothing() -> (actions: Vec<Action>)
    ensures
        asked(actions@) == Seq::<ActionView>::empty(),
{
    let actions: Vec<Action> = Vec::new();
    assert(asked(actions@) =~= Seq::<ActionView>::empty());
    actions
}

/// One action.
pub fn only(action: Action) -> (actions: Vec<Action>)
    ensures
        asked(actions@) == seq![action@],
{
    let mut actions: Vec<Action> = Vec::new();
    actions.push(action);
    assert(asked(actions@) =~= seq![action@]);
    actions
}

/// One more action.
pub fn ask(actions: &mut Vec<Action>, action: Action)
    ensures
        asked(final(actions)@) == asked(old(actions)@).push(action@),
{
    actions.push(action);
    assert(asked(actions@) =~= asked(old(actions)@).push(action@));
}

} // verus!
