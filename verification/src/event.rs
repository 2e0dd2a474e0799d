//! The structural events of a document, and their mathematical models.

use vstd::prelude::*;

verus! {

/// The level of the heading that opens a release block.
pub const RELEASE_LEVEL: u32 = 2;

/// The level of the heading that opens a category block.
pub const CATEGORY_LEVEL: u32 = 3;

/// Text alignment of a table column.
#[derive(Clone, Copy, Debug, PartialEq, Eq)]
pub enum Alignment {
    /// No alignment was asked for.
    Unaligned,
    Left,
    Center,
    Right,
}

/// How a link or an image was written in the source text.
#[derive(Clone, Copy, Debug, PartialEq, Eq)]
pub enum LinkType {
    Inline,
    Reference,
    ReferenceUnknown,
    Collapsed,
    CollapsedUnknown,
    Shortcut,
    ShortcutUnknown,
    Autolink,
    Email,
}

/// What a `Start` or an `End` event opens or closes.
#[derive(Clone, Debug, PartialEq, Eq)]
pub enum Kind {
    Paragraph,
    /// A heading with its level.
    Heading(u32),
    BlockQuote,
    /// A code block; the field is the language of a fenced block, `None` for
    /// an indented one.
    CodeBlock(Option<String>),
    /// A list; the field is the number of the first item of an ordered list.
    List(Option<u64>),
    Item,
    FootnoteDefinition(String),
    Table(Vec<Alignment>),
    TableHead,
    TableRow,
    TableCell,
    Emphasis,
    Strong,
    Strikethrough,
    /// A link: how it was written, its target and its title.
    Link(LinkType, String, String),
    /// An image: how it was written, its source and its title.
    Image(LinkType, String, String),
}

/// One structural event of a document.
#[derive(Clone, Debug, PartialEq, Eq)]
pub enum Event {
    Start(Kind),
    End(Kind),
    Text(String),
    Code(String),
    Html(String),
    FootnoteReference(String),
    SoftBreak,
    HardBreak,
    Rule,
    TaskListMarker(bool),
}

/// The model of a `Kind`: the same shape, with texts as sequences of characters.
pub ghost enum KindModel {
    Paragraph,
    Heading(u32),
    BlockQuote,
    CodeBlock(Option<Seq<char>>),
    List(Option<u64>),
    Item,
    FootnoteDefinition(Seq<char>),
    Table(Seq<Alignment>),
    TableHead,
    TableRow,
    TableCell,
    Emphasis,
    Strong,
    Strikethrough,
    Link(LinkType, Seq<char>, Seq<char>),
    Image(LinkType, Seq<char>, Seq<char>),
}

/// The model of an `Event`.
pub ghost enum EventModel {
    Start(KindModel),
    End(KindModel),
    Text(Seq<char>),
    Code(Seq<char>),
    Html(Seq<char>),
    FootnoteReference(Seq<char>),
    SoftBreak,
    HardBreak,
    Rule,
    TaskListMarker(bool),
}

impl View for Kind {
    type V = KindModel;

    open spec fn view(&self) -> KindModel {
        match *self {
            Kind::Paragraph => KindModel::Paragraph,
            Kind::Heading(level) => KindModel::Heading(level),
            Kind::BlockQuote => KindModel::BlockQuote,
            Kind::CodeBlock(None) => KindModel::CodeBlock(None),
            Kind::CodeBlock(Some(language)) => KindModel::CodeBlock(Some(language@)),
            Kind::List(first) => KindModel::List(first),
            Kind::Item => KindModel::Item,
            Kind::FootnoteDefinition(label) => KindModel::FootnoteDefinition(label@),
            Kind::Table(columns) => KindModel::Table(columns@),
            Kind::TableHead => KindModel::TableHead,
            Kind::TableRow => KindModel::TableRow,
            Kind::TableCell => KindModel::TableCell,
            Kind::Emphasis => KindModel::Emphasis,
            Kind::Strong => KindModel::Strong,
            Kind::Strikethrough => KindModel::Strikethrough,
            Kind::Link(how, target, title) => KindModel::Link(how, target@, title@),
            Kind::Image(how, source, title) => KindModel::Image(how, source@, title@),
        }
    }
}

impl View for Event {
    type V = EventModel;

    open spec fn view(&self) -> EventModel {
        match *self {
            Event::Start(kind) => EventModel::Start(kind@),
            Event::End(kind) => EventModel::End(kind@),
            Event::Text(text) => EventModel::Text(text@),
            Event::Code(text) => EventModel::Code(text@),
            Event::Html(text) => EventModel::Html(text@),
            Event::FootnoteReference(label) => EventModel::FootnoteReference(label@),
            Event::SoftBreak => EventModel::SoftBreak,
            Event::HardBreak => EventModel::HardBreak,
            Event::Rule => EventModel::Rule,
            Event::TaskListMarker(checked) => EventModel::TaskListMarker(checked),
        }
    }
}

/// The models of a sequence of events, in the same order.
pub open spec fn views(events: Seq<Event>) -> Seq<EventModel> {
    events.map_values(|e: Event| e@)
}

/// Whether an event opens a heading of the given level.
pub open spec fn opens_heading(e: EventModel, level: u32) -> bool {
    e == EventModel::Start(KindModel::Heading(level))
}

/// Whether an event closes a heading of the given level.
pub open spec fn closes_heading(e: EventModel, level: u32) -> bool {
    e == EventModel::End(KindModel::Heading(level))
}

/// Whether an event opens a list, ordered or not.
pub open spec fn opens_list(e: EventModel) -> bool {
    e matches EventModel::Start(KindModel::List(_))
}

impl Event {
    /// Tells whether this event opens a heading of the given level.
    pub fn is_heading_start(&self, level: u32) -> (r: bool)
        ensures
            r == opens_heading(self@, level),
    {
        match self {
            Event::Start(Kind::Heading(l)) => *l == level,
            _ => false,
        }
    }

    /// Tells whether this event closes a heading of the given level.
    pub fn is_heading_end(&self, level: u32) -> (r: bool)
        ensures
            r == closes_heading(self@, level),
    {
        match self {
            Event::End(Kind::Heading(l)) => *l == level,
            _ => false,
        }
    }

    /// Tells whether this event opens a list.
    pub fn is_list_start(&self) -> (r: bool)
        ensures
            r == opens_list(self@),
    {
        match self {
            Event::Start(Kind::List(_)) => true,
            _ => false,
        }
    }

    /// Tells whether this event is a run of text.
    pub fn is_text(&self) -> (r: bool)
        ensures
            r == (self@ is Text),
    {
        match self {
            Event::Text(_) => true,
            _ => false,
        }
    }
}

} // verus!
