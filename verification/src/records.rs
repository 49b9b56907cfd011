//! The record types shared by the parsers and the renderer, together with
//! their ghost models over sequences of characters.

use vstd::prelude::*;

verus! {

/// Item that a parser emits.
#[derive(Debug, Clone, PartialEq)]
pub enum ParsedItem {
    /// The file which was annotated.
    File(String),
    /// A page number indicator; first element is the printed (logical) page
    /// number, second is the physical page in the file.
    PageNumber(u32, u32),
    /// A page indicator for front matter labeled with roman numerals.
    PageRoman(String),
    /// A highlighted passage.
    Highlight(String),
    /// An underlined passage.
    Underline(String),
}

/// Mathematical model of a [`ParsedItem`]: the same shape, with each owned
/// string replaced by its sequence of characters. Contracts are stated over
/// this type.
pub enum ItemModel {
    File(Seq<char>),
    PageNumber(u32, u32),
    PageRoman(Seq<char>),
    Highlight(Seq<char>),
    Underline(Seq<char>),
}

impl View for ParsedItem {
    type V = ItemModel;

    open spec fn view(&self) -> ItemModel {
        match self {
            ParsedItem::File(s) => ItemModel::File(s@),
            ParsedItem::PageNumber(n, p) => ItemModel::PageNumber(*n, *p),
            ParsedItem::PageRoman(s) => ItemModel::PageRoman(s@),
            ParsedItem::Highlight(s) => ItemModel::Highlight(s@),
            ParsedItem::Underline(s) => ItemModel::Underline(s@),
        }
    }
}

impl DeepView for ParsedItem {
    type V = ItemModel;

    open spec fn deep_view(&self) -> ItemModel {
        self.view()
    }
}

/// The configuration provided to the parser.
#[derive(Debug, Clone, Copy)]
pub struct ParseConfig {
    /// The offset of the first numbered page.
    /// Zero means annotated page numbers match physical pages. A positive
    /// value means the annotations carry logical page numbers and the offset
    /// is added to obtain the physical page. A negative value means the
    /// annotations carry physical pages and the (negative) offset is added
    /// to obtain the logical page number.
    pub page_offset: i32,
    /// If `true`, page indicators are emitted.
    pub page_numbers: bool,
}

impl Default for ParseConfig {
    fn default() -> (c: Self)
        ensures
            c.page_offset == 0,
            c.page_numbers == false,
    {
        Self { page_offset: 0, page_numbers: false }
    }
}

/// Why a parse was aborted.
#[derive(Debug, Clone, Copy, PartialEq, Eq, Structural)]
pub enum ParseError {
    /// A numeric page indicator carries a value that does not fit in `u32`.
    PageNumberTooLarge,
    /// Adding the positive offset to the annotated page number exceeds `u32`.
    PhysicalPageTooLarge { page: u32, offset: i32 },
    /// The magnitude of the negative offset reaches the annotated physical
    /// page, so the logical page number would not be positive.
    NonPositiveLogicalPage { page: u32, offset: i32 },
}

/// The pending-continuation state of the line classifier: highlight and
/// underline annotations are two-line records, so after their header line the
/// classifier awaits the body line.
#[derive(Debug, Clone, Copy, PartialEq, Eq, Structural)]
pub enum Pending {
    Idle,
    AwaitingHighlightBody,
    AwaitingUnderlineBody,
}

} // verus!
