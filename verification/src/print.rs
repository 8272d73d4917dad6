//! What is printed: printers, ranges of pages and the dialog that chooses
//! among them.

use vstd::prelude::*;

use crate::numbers::{decimal_upto, number_text, parse_u32, push_number, shown, trim, trimmed};
use crate::page::{PageNo, Scale};
use crate::text::maybe_text;

verus! {

/// The most copies that can be asked for.
pub const MAX_COPIES: u32 = 99;

/// The resolution of a printed page, in dots per inch.
pub const PRINT_DPI: u32 = 200;

/// The points of a page per inch.
pub const POINTS_PER_INCH: u32 = 72;

/// The scale at which pages are rendered for print: to the nearest thousandth,
/// as many pixels to a point as the resolution asks for.
pub fn print_scale() -> (scale: Scale)
    ensures
        scale.0 == (PRINT_DPI * 1000 + POINTS_PER_INCH / 2) / POINTS_PER_INCH as int,
{
    Scale(2778)
}

/// How pages lie on the paper.
#[derive(Debug, Clone, Copy, PartialEq, Eq, Structural)]
pub enum PrintOrientation {
    Auto,
    Portrait,
    Landscape,
}

/// Whether a page is turned by a quarter to lie as it was chosen; `wide` if it
/// is wider than high.
pub fn is_turned(orientation: PrintOrientation, wide: bool) -> (r: bool)
    ensures
        r == (match orientation {
            PrintOrientation::Auto => false,
            PrintOrientation::Portrait => wide,
            PrintOrientation::Landscape => !wide,
        }),
{
    match orientation {
        PrintOrientation::Auto => false,
        PrintOrientation::Portrait => wide,
        PrintOrientation::Landscape => !wide,
    }
}

/// Which pages are printed.
#[derive(Debug, Clone, Copy, PartialEq, Eq, Structural)]
pub enum PrintRange {
    All,
    Current(PageNo),
    FromTo { from: PageNo, to: PageNo },
}

/// What is printed, and how.
#[derive(Debug, Clone, Copy, PartialEq, Eq, Structural)]
pub struct PrintSelection {
    pub range: PrintRange,
    pub copies: u32,
    pub orientation: PrintOrientation,
}

/// A printer of the system.
#[derive(Debug, Clone)]
pub struct PrinterInfo {
    pub name: String,
    pub is_default: bool,
}

/// How the range of pages is chosen.
#[derive(Debug, Clone, Copy, PartialEq, Eq, Structural)]
pub enum RangeMode {
    All,
    Current,
    Custom,
}

/// The pages from one up to another.
pub open spec fn pages_between(from: int, to: int) -> Seq<PageNo> {
    Seq::new((if from <= to { to - from } else { 0 }) as nat, |i: int| PageNo((from + i) as u32))
}

/// The pages of a range in a document; nothing where the range does not lie
/// in it.
pub open spec fn resolved(range: PrintRange, page_count: u32) -> Option<Seq<PageNo>> {
    match range {
        PrintRange::All => Some(pages_between(0, page_count as int)),
        PrintRange::Current(page) => if page.0 < page_count {
            Some(seq![page])
        } else {
            None
        },
        PrintRange::FromTo { from, to } => if from.0 <= to.0 && to.0 < page_count {
            Some(pages_between(from.0 as int, to.0 + 1))
        } else {
            None
        },
    }
}

pub(crate) fn list_pages(from: u32, to: u32) -> (pages: Vec<PageNo>)
    ensures
        pages@ == pages_between(from as int, to as int),
{
    let mut pages: Vec<PageNo> = Vec::new();
    let mut i: u32 = from;
    while i < to
        invariant
            from <= to ==> from <= i <= to,
            from > to ==> i == from,
            pages@ == pages_between(from as int, i as int),
        decreases to - i,
    {
        pages.push(PageNo::from_index(i));
        i += 1;
        assert(pages@ =~= pages_between(from as int, i as int));
    }
    assert(pages@ =~= pages_between(from as int, to as int));
    pages
}

/// The pages of a range in a document; nothing where the range does not lie
/// in it.
pub fn resolve_range(range: PrintRange, page_count: u32) -> (pages: Option<Vec<PageNo>>)
    ensures
        match resolved(range, page_count) {
            Some(list) => pages is Some && pages->0@ == list,
            None => pages is None,
        },
{
    match range {
        PrintRange::All => Some(list_pages(0, page_count)),
        PrintRange::Current(page) => if page.0 < page_count {
            let mut pages: Vec<PageNo> = Vec::new();
            pages.push(page);
            assert(pages@ =~= seq![page]);
            Some(pages)
        } else {
            None
        },
        PrintRange::FromTo { from, to } => if from.0 <= to.0 && to.0 < page_count {
            Some(list_pages(from.0, to.0 + 1))
        } else {
            None
        },
    }
}

/// The number of the last page, as readers count, of a document that is
/// taken to have one at least.
pub open spec fn last_page(page_count: u32) -> u32 {
    if page_count >= 1 {
        page_count
    } else {
        1
    }
}

/// What is said where a page number is not one of the document's.
pub open spec fn range_hint(page_count: u32) -> Seq<char> {
    "use páginas de 1 até "@ + shown(last_page(page_count) as nat)
}

/// What is said where the first page comes after the last.
pub open spec fn order_hint() -> Seq<char> {
    "«De» maior que «Até»"@
}

/// A page number, as readers count, that someone typed.
pub open spec fn page_typed(input: Seq<char>, page_count: u32) -> Result<u32, Seq<char>> {
    match decimal_upto(trimmed(input), u32::MAX as nat) {
        Some(n) if 1 <= n <= last_page(page_count) => Ok(n as u32),
        _ => Err(range_hint(page_count)),
    }
}

/// Reads a page number, as readers count, that someone typed.
pub fn parse_1based(input: &str, page_count: u32) -> (r: Result<u32, String>)
    ensures
        match page_typed(input@, page_count) {
            Ok(n) => r is Ok && r->Ok_0 == n,
            Err(hint) => r is Err && r->Err_0@ == hint,
        },
{
    let last: u32 = if page_count >= 1 {
        page_count
    } else {
        1
    };
    let typed = trim(input);
    if let Some(n) = parse_u32(typed.as_str()) {
        if 1 <= n && n <= last {
            return Ok(n);
        }
    }
    let mut hint = "use páginas de 1 até ".to_owned();
    push_number(&mut hint, last as u64);
    Err(hint)
}

/// The state of the print dialog.
#[derive(Debug, Clone)]
pub struct PrintDialog {
    pub printers: Vec<PrinterInfo>,
    pub printers_loading: bool,
    pub selected: Option<usize>,
    pub range_mode: RangeMode,
    /// The first and the last page as they were typed, counted from one.
    pub from_input: String,
    pub to_input: String,
    pub copies: u32,
    pub orientation: PrintOrientation,
    /// Which of the pages to print the preview shows.
    pub preview: usize,
    pub busy: bool,
    pub error: Option<String>,
}

/// What the print dialog holds.
pub struct PrintDialogView {
    pub printers: Seq<PrinterInfo>,
    pub printers_loading: bool,
    pub selected: Option<usize>,
    pub range_mode: RangeMode,
    pub from_input: Seq<char>,
    pub to_input: Seq<char>,
    pub copies: u32,
    pub orientation: PrintOrientation,
    pub preview: usize,
    pub busy: bool,
    pub error: Option<Seq<char>>,
}

impl View for PrintDialog {
    type V = PrintDialogView;

    open spec fn view(&self) -> PrintDialogView {
        PrintDialogView {
            printers: self.printers@,
            printers_loading: self.printers_loading,
            selected: self.selected,
            range_mode: self.range_mode,
            from_input: self.from_input@,
            to_input: self.to_input@,
            copies: self.copies,
            orientation: self.orientation,
            preview: self.preview,
            busy: self.busy,
            error: maybe_text(self.error),
        }
    }
}

/// The first of the first `n` printers that is the system's own choice.
pub open spec fn default_printer(printers: Seq<PrinterInfo>, n: int) -> Option<int>
    decreases n,
{
    if n <= 0 {
        None
    } else {
        match default_printer(printers, n - 1) {
            Some(i) => Some(i),
            None => if printers[n - 1].is_default {
                Some(n - 1)
            } else {
                None
            },
        }
    }
}

/// The printer chosen at first: the system's own choice, else the first.
pub open spec fn first_choice(printers: Seq<PrinterInfo>) -> Option<usize> {
    match default_printer(printers, printers.len() as int) {
        Some(i) => Some(i as usize),
        None => if printers.len() == 0 {
            None
        } else {
            Some(0usize)
        },
    }
}

proof fn lemma_default_stays(printers: Seq<PrinterInfo>, m: int, n: int)
    requires
        m <= n,
        default_printer(printers, m) is Some,
    ensures
        default_printer(printers, n) == default_printer(printers, m),
    decreases n,
{
    if m < n {
        lemma_default_stays(printers, m, n - 1);
    }
}

/// The printer chosen at first: the system's own choice, else the first.
pub fn choose_printer(printers: &Vec<PrinterInfo>) -> (r: Option<usize>)
    ensures
        r == first_choice(printers@),
        r is Some ==> r->0 < printers@.len(),
        r is None <==> printers@.len() == 0,
{
    let mut i: usize = 0;
    while i < printers.len()
        invariant
            i <= printers@.len(),
            default_printer(printers@, i as int) is None,
        decreases printers@.len() - i,
    {
        if printers[i].is_default {
            proof {
                lemma_default_stays(printers@, i + 1, printers@.len() as int);
            }
            return Some(i);
        }
        i += 1;
    }
    if printers.len() == 0 {
        None
    } else {
        Some(0)
    }
}

impl PrintDialogView {
    /// The dialog as it opens.
    pub open spec fn fresh(page_count: u32, current: PageNo) -> PrintDialogView {
        let number = if current.0 + 1 <= last_page(page_count) {
            (current.0 + 1) as nat
        } else {
            last_page(page_count) as nat
        };
        PrintDialogView {
            printers: Seq::empty(),
            printers_loading: true,
            selected: None,
            range_mode: RangeMode::All,
            from_input: shown(number),
            to_input: shown(number),
            copies: 1,
            orientation: PrintOrientation::Auto,
            preview: 0,
            busy: false,
            error: None,
        }
    }

    /// The number of copies, brought into what is allowed.
    pub open spec fn copies_allowed(self) -> u32 {
        if self.copies < 1 {
            1
        } else if self.copies > MAX_COPIES {
            MAX_COPIES
        } else {
            self.copies
        }
    }

    pub open spec fn chosen_range(self, page_count: u32, current: PageNo) -> Result<
        PrintRange,
        Seq<char>,
    > {
        match self.range_mode {
            RangeMode::All => Ok(PrintRange::All),
            RangeMode::Current => Ok(PrintRange::Current(current)),
            RangeMode::Custom => match page_typed(self.from_input, page_count) {
                Err(hint) => Err(hint),
                Ok(from) => match page_typed(self.to_input, page_count) {
                    Err(hint) => Err(hint),
                    Ok(to) => if from > to {
                        Err(order_hint())
                    } else {
                        Ok(
                            PrintRange::FromTo {
                                from: PageNo((from - 1) as u32),
                                to: PageNo((to - 1) as u32),
                            },
                        )
                    },
                },
            },
        }
    }

    /// What is to be printed, or why that cannot be said.
    pub open spec fn chosen(self, page_count: u32, current: PageNo) -> Result<
        PrintSelection,
        Seq<char>,
    > {
        match self.chosen_range(page_count, current) {
            Ok(range) => Ok(
                PrintSelection {
                    range,
                    copies: self.copies_allowed(),
                    orientation: self.orientation,
                },
            ),
            Err(hint) => Err(hint),
        }
    }

    /// The pages of the preview: those to be printed, else the current one.
    pub open spec fn previewed(self, page_count: u32, current: PageNo) -> Seq<PageNo> {
        match self.chosen_range(page_count, current) {
            Ok(range) => match resolved(range, page_count) {
                Some(pages) => if pages.len() > 0 {
                    pages
                } else {
                    seq![current]
                },
                None => seq![current],
            },
            Err(_) => seq![current],
        }
    }

    /// The place of the last page of the preview.
    pub open spec fn last_preview(self, page_count: u32, current: PageNo) -> usize {
        (self.previewed(page_count, current).len() - 1) as usize
    }

    /// The page that the preview shows.
    pub open spec fn preview_page(self, page_count: u32, current: PageNo) -> PageNo {
        let pages = self.previewed(page_count, current);
        if self.preview < pages.len() {
            pages[self.preview as int]
        } else {
            pages.last()
        }
    }

    pub open spec fn with_error(self, error: Seq<char>) -> PrintDialogView {
        PrintDialogView { error: Some(error), ..self }
    }
}

/// The preview always shows a page, and what can be printed is a number of
/// copies that is allowed.
pub proof fn law_dialog_always_previews(d: PrintDialogView, page_count: u32, current: PageNo)
    ensures
        d.previewed(page_count, current).len() > 0,
        d.chosen(page_count, current) is Ok ==> 1 <= d.chosen(page_count, current)->Ok_0.copies
            <= MAX_COPIES,
{
}

/// The pages of the preview lie in the document, if the current one does.
pub proof fn law_preview_lies_in_document(d: PrintDialogView, page_count: u32, current: PageNo)
    requires
        current.0 < page_count,
    ensures
        forall|i: int|
            0 <= i < d.previewed(page_count, current).len() ==> (#[trigger] d.previewed(
                page_count,
                current,
            )[i]).0 < page_count,
{
}

impl PrintDialog {
    /// The dialog as it opens.
    pub fn fresh(page_count: u32, current: PageNo) -> (dialog: PrintDialog)
        ensures
            dialog@ == PrintDialogView::fresh(page_count, current),
    {
        let last: u32 = if page_count >= 1 {
            page_count
        } else {
            1
        };
        let number: u32 = if current.0 < last {
            current.0 + 1
        } else {
            last
        };
        let dialog = PrintDialog {
            printers: Vec::new(),
            printers_loading: true,
            selected: None,
            range_mode: RangeMode::All,
            from_input: number_text(number as u64),
            to_input: number_text(number as u64),
            copies: 1,
            orientation: PrintOrientation::Auto,
            preview: 0,
            busy: false,
            error: None,
        };
        assert(dialog@.printers =~= Seq::<PrinterInfo>::empty());
        dialog
    }

    pub fn selected_printer(&self) -> (printer: Option<&PrinterInfo>)
        ensures
            match self.selected {
                Some(i) if i < self.printers@.len() => printer == Some(&self.printers@[i as int]),
                _ => printer is None,
            },
    {
        match self.selected {
            Some(i) => if i < self.printers.len() {
                Some(&self.printers[i])
            } else {
                None
            },
            None => None,
        }
    }

    fn range(&self, page_count: u32, current: PageNo) -> (r: Result<PrintRange, String>)
        ensures
            match self@.chosen_range(page_count, current) {
                Ok(range) => r is Ok && r->Ok_0 == range,
                Err(hint) => r is Err && r->Err_0@ == hint,
            },
    {
        match self.range_mode {
            RangeMode::All => Ok(PrintRange::All),
            RangeMode::Current => Ok(PrintRange::Current(current)),
            RangeMode::Custom => {
                let from: u32 = match parse_1based(self.from_input.as_str(), page_count) {
                    Ok(n) => n,
                    Err(hint) => {
                        return Err(hint);
                    },
                };
                let to: u32 = match parse_1based(self.to_input.as_str(), page_count) {
                    Ok(n) => n,
                    Err(hint) => {
                        return Err(hint);
                    },
                };
                if from > to {
                    return Err("«De» maior que «Até»".to_owned());
                }
                Ok(
                    PrintRange::FromTo {
                        from: PageNo::from_index(from - 1),
                        to: PageNo::from_index(to - 1),
                    },
                )
            },
        }
    }

    /// What is to be printed, or why that cannot be said.
    pub fn selection(&self, page_count: u32, current: PageNo) -> (r: Result<PrintSelection, String>)
        ensures
            match self@.chosen(page_count, current) {
                Ok(selection) => r is Ok && r->Ok_0 == selection,
                Err(hint) => r is Err && r->Err_0@ == hint,
            },
    {
        match self.range(page_count, current) {
            Ok(range) => {
                let copies: u32 = if self.copies < 1 {
                    1
                } else if self.copies > MAX_COPIES {
                    MAX_COPIES
                } else {
                    self.copies
                };
                Ok(PrintSelection { range, copies, orientation: self.orientation })
            },
            Err(hint) => Err(hint),
        }
    }

    /// The pages of the preview: those to be printed, else the current one.
    pub fn preview_pages(&self, page_count: u32, current: PageNo) -> (pages: Vec<PageNo>)
        ensures
            pages@ == self@.previewed(page_count, current),
    {
        if let Ok(selection) = self.selection(page_count, current) {
            if let Some(pages) = resolve_range(selection.range, page_count) {
                if pages.len() > 0 {
                    return pages;
                }
            }
        }
        let mut pages: Vec<PageNo> = Vec::new();
        pages.push(current);
        assert(pages@ =~= seq![current]);
        pages
    }

    /// The place of the last page of the preview.
    pub fn last_preview(&self, page_count: u32, current: PageNo) -> (last: usize)
        ensures
            last == self@.last_preview(page_count, current),
            last + 1 == self@.previewed(page_count, current).len(),
    {
        self.preview_pages(page_count, current).len() - 1
    }

    /// The page that the preview shows.
    pub fn preview_page(&self, page_count: u32, current: PageNo) -> (page: PageNo)
        ensures
            page == self@.preview_page(page_count, current),
    {
        let pages = self.preview_pages(page_count, current);
        if self.preview < pages.len() {
            pages[self.preview]
        } else {
            pages[pages.len() - 1]
        }
    }
}

} // verus!
