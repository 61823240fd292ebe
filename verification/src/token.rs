//! The token alphabet of a parsed Markdown document, with a mathematical view
//! of every token.

use vstd::prelude::*;

verus! {

/// Level of a heading, `H1` being the top level.
#[derive(Clone, Copy, Debug, PartialEq, Eq)]
pub enum HeadingLevel {
    H1,
    H2,
    H3,
    H4,
    H5,
    H6,
}

/// Flavour of a block quote that opens with a `[!NOTE]`-like marker.
#[derive(Clone, Copy, Debug, PartialEq, Eq)]
pub enum BlockQuoteKind {
    Note,
    Tip,
    Important,
    Warning,
    Caution,
}

/// Delimiter family of a metadata block.
#[derive(Clone, Copy, Debug, PartialEq, Eq)]
pub enum MetadataBlockKind {
    /// Delimited by `---`.
    YamlStyle,
    /// Delimited by `+++`.
    PlusesStyle,
}

/// How a link or an image was written in the source.
#[derive(Clone, Copy, Debug, PartialEq, Eq)]
pub enum LinkType {
    Inline,
    Reference,
    ReferenceUnknown,
    Collapsed,
    CollapsedUnknown,
    Shortcut,
    ShortcutUnknown,
    Autolink,
    Email,
}

/// Alignment of a table column.
#[derive(Clone, Copy, Debug, PartialEq, Eq)]
pub enum Alignment {
    /// No alignment was given for the column.
    Unset,
    Left,
    Center,
    Right,
}

/// Kind of a code block.
#[derive(Debug, PartialEq, Eq)]
pub enum CodeBlockKind {
    Indented,
    /// A fenced block with its language tag, which may be empty.
    Fenced(String),
}

/// Opening tag of an element.
#[allow(inconsistent_fields)]
#[derive(Debug, PartialEq, Eq)]
pub enum Tag {
    Paragraph,
    Heading {
        level: HeadingLevel,
        id: Option<String>,
        classes: Vec<String>,
        attrs: Vec<(String, Option<String>)>,
    },
    BlockQuote(Option<BlockQuoteKind>),
    CodeBlock(CodeBlockKind),
    HtmlBlock,
    /// A list; for an ordered list, the number of its first item.
    List(Option<u64>),
    Item,
    /// A footnote definition with the label it is referred to by.
    FootnoteDefinition(String),
    DefinitionList,
    DefinitionListTitle,
    DefinitionListDefinition,
    Table(Vec<Alignment>),
    TableHead,
    TableRow,
    TableCell,
    Emphasis,
    Strong,
    Strikethrough,
    Link { link_type: LinkType, dest_url: String, title: String, id: String },
    Image { link_type: LinkType, dest_url: String, title: String, id: String },
    MetadataBlock(MetadataBlockKind),
}

/// Closing tag of an element.
#[derive(Clone, Copy, Debug, PartialEq, Eq)]
pub enum TagEnd {
    Paragraph,
    Heading(HeadingLevel),
    BlockQuote(Option<BlockQuoteKind>),
    CodeBlock,
    HtmlBlock,
    /// End of a list, `true` for an ordered one.
    List(bool),
    Item,
    FootnoteDefinition,
    DefinitionList,
    DefinitionListTitle,
    DefinitionListDefinition,
    Table,
    TableHead,
    TableRow,
    TableCell,
    Emphasis,
    Strong,
    Strikethrough,
    Link,
    Image,
    MetadataBlock(MetadataBlockKind),
}

/// One element of the flat event stream of a parsed document.
#[derive(Debug, PartialEq, Eq)]
pub enum Token {
    Start(Tag),
    End(TagEnd),
    Text(String),
    Code(String),
    InlineMath(String),
    DisplayMath(String),
    Html(String),
    InlineHtml(String),
    FootnoteReference(String),
    SoftBreak,
    HardBreak,
    Rule,
    TaskListMarker(bool),
}

/// Mathematical value of a [`CodeBlockKind`].
pub enum CodeBlockKindView {
    Indented,
    Fenced(Seq<char>),
}

/// Mathematical value of a [`Tag`].
#[allow(inconsistent_fields)]
pub enum TagView {
    Paragraph,
    Heading {
        level: HeadingLevel,
        id: Option<Seq<char>>,
        classes: Seq<Seq<char>>,
        attrs: Seq<(Seq<char>, Option<Seq<char>>)>,
    },
    BlockQuote(Option<BlockQuoteKind>),
    CodeBlock(CodeBlockKindView),
    HtmlBlock,
    List(Option<u64>),
    Item,
    FootnoteDefinition(Seq<char>),
    DefinitionList,
    DefinitionListTitle,
    DefinitionListDefinition,
    Table(Seq<Alignment>),
    TableHead,
    TableRow,
    TableCell,
    Emphasis,
    Strong,
    Strikethrough,
    Link { link_type: LinkType, dest_url: Seq<char>, title: Seq<char>, id: Seq<char> },
    Image { link_type: LinkType, dest_url: Seq<char>, title: Seq<char>, id: Seq<char> },
    MetadataBlock(MetadataBlockKind),
}

/// Mathematical value of a [`Token`].
pub enum TokenView {
    Start(TagView),
    End(TagEnd),
    Text(Seq<char>),
    Code(Seq<char>),
    InlineMath(Seq<char>),
    DisplayMath(Seq<char>),
    Html(Seq<char>),
    InlineHtml(Seq<char>),
    FootnoteReference(Seq<char>),
    SoftBreak,
    HardBreak,
    Rule,
    TaskListMarker(bool),
}

impl DeepView for CodeBlockKind {
    type V = CodeBlockKindView;

    open spec fn deep_view(&self) -> CodeBlockKindView {
        match self {
            CodeBlockKind::Indented => CodeBlockKindView::Indented,
            CodeBlockKind::Fenced(tag) => CodeBlockKindView::Fenced(tag@),
        }
    }
}

impl DeepView for Tag {
    type V = TagView;

    open spec fn deep_view(&self) -> TagView {
        match self {
            Tag::Paragraph => TagView::Paragraph,
            Tag::Heading { level, id, classes, attrs } => TagView::Heading {
                level: *level,
                id: id.deep_view(),
                classes: classes.deep_view(),
                attrs: attrs.deep_view(),
            },
            Tag::BlockQuote(kind) => TagView::BlockQuote(*kind),
            Tag::CodeBlock(kind) => TagView::CodeBlock(kind.deep_view()),
            Tag::HtmlBlock => TagView::HtmlBlock,
            Tag::List(first) => TagView::List(*first),
            Tag::Item => TagView::Item,
            Tag::FootnoteDefinition(label) => TagView::FootnoteDefinition(label@),
            Tag::DefinitionList => TagView::DefinitionList,
            Tag::DefinitionListTitle => TagView::DefinitionListTitle,
            Tag::DefinitionListDefinition => TagView::DefinitionListDefinition,
            Tag::Table(alignments) => TagView::Table(alignments@),
            Tag::TableHead => TagView::TableHead,
            Tag::TableRow => TagView::TableRow,
            Tag::TableCell => TagView::TableCell,
            Tag::Emphasis => TagView::Emphasis,
            Tag::Strong => TagView::Strong,
            Tag::Strikethrough => TagView::Strikethrough,
            Tag::Link { link_type, dest_url, title, id } => TagView::Link {
                link_type: *link_type,
                dest_url: dest_url@,
                title: title@,
                id: id@,
            },
            Tag::Image { link_type, dest_url, title, id } => TagView::Image {
                link_type: *link_type,
                dest_url: dest_url@,
                title: title@,
                id: id@,
            },
            Tag::MetadataBlock(kind) => TagView::MetadataBlock(*kind),
        }
    }
}

impl DeepView for Token {
    type V = TokenView;

    open spec fn deep_view(&self) -> TokenView {
        match self {
            Token::Start(tag) => TokenView::Start(tag.deep_view()),
            Token::End(tag) => TokenView::End(*tag),
            Token::Text(text) => TokenView::Text(text@),
            Token::Code(text) => TokenView::Code(text@),
            Token::InlineMath(text) => TokenView::InlineMath(text@),
            Token::DisplayMath(text) => TokenView::DisplayMath(text@),
            Token::Html(text) => TokenView::Html(text@),
            Token::InlineHtml(text) => TokenView::InlineHtml(text@),
            Token::FootnoteReference(label) => TokenView::FootnoteReference(label@),
            Token::SoftBreak => TokenView::SoftBreak,
            Token::HardBreak => TokenView::HardBreak,
            Token::Rule => TokenView::Rule,
            Token::TaskListMarker(checked) => TokenView::TaskListMarker(*checked),
        }
    }
}

impl View for Token {
    type V = TokenView;

    open spec fn view(&self) -> TokenView {
        self.deep_view()
    }
}

/// Copies a list of heading attributes.
fn clone_attrs(attrs: &Vec<(String, Option<String>)>) -> (r: Vec<(String, Option<String>)>)
    ensures
        r.deep_view() == attrs.deep_view(),
{
    let mut copy: Vec<(String, Option<String>)> = Vec::new();
    let mut i: usize = 0;
    while i < attrs.len()
        invariant
            i <= attrs.len(),
            copy.len() == i,
            forall|k: int| 0 <= k < i ==> copy[k].deep_view() == attrs[k].deep_view(),
        decreases attrs.len() - i,
    {
        let value = match &attrs[i].1 {
            Some(v) => Some(v.clone()),
            None => None,
        };
        copy.push((attrs[i].0.clone(), value));
        i = i + 1;
    }
    assert(copy.deep_view() =~= attrs.deep_view());
    copy
}

/// Copies a list of strings.
fn clone_strings(strings: &Vec<String>) -> (r: Vec<String>)
    ensures
        r.deep_view() == strings.deep_view(),
{
    let mut copy: Vec<String> = Vec::new();
    let mut i: usize = 0;
    while i < strings.len()
        invariant
            i <= strings.len(),
            copy.len() == i,
            forall|k: int| 0 <= k < i ==> copy[k]@ == strings[k]@,
        decreases strings.len() - i,
    {
        copy.push(strings[i].clone());
        i = i + 1;
    }
    assert(copy.deep_view() =~= strings.deep_view());
    copy
}

/// Copies a list of column alignments.
fn clone_alignments(alignments: &Vec<Alignment>) -> (r: Vec<Alignment>)
    ensures
        r@ == alignments@,
{
    let mut copy: Vec<Alignment> = Vec::new();
    let mut i: usize = 0;
    while i < alignments.len()
        invariant
            i <= alignments.len(),
            copy.len() == i,
            forall|k: int| 0 <= k < i ==> copy[k] == alignments[k],
        decreases alignments.len() - i,
    {
        copy.push(alignments[i]);
        i = i + 1;
    }
    assert(copy@ =~= alignments@);
    copy
}

impl Clone for CodeBlockKind {
    fn clone(&self) -> (r: Self)
        ensures
            r.deep_view() == self.deep_view(),
    {
        match self {
            CodeBlockKind::Indented => CodeBlockKind::Indented,
            CodeBlockKind::Fenced(tag) => CodeBlockKind::Fenced(tag.clone()),
        }
    }
}

impl Clone for Tag {
    fn clone(&self) -> (r: Self)
        ensures
            r.deep_view() == self.deep_view(),
    {
        match self {
            Tag::Paragraph => Tag::Paragraph,
            Tag::Heading { level, id, classes, attrs } => {
                let id_copy = match id {
                    Some(s) => Some(s.clone()),
                    None => None,
                };
                Tag::Heading {
                    level: *level,
                    id: id_copy,
                    classes: clone_strings(classes),
                    attrs: clone_attrs(attrs),
                }
            },
            Tag::BlockQuote(kind) => Tag::BlockQuote(*kind),
            Tag::CodeBlock(kind) => Tag::CodeBlock(kind.clone()),
            Tag::HtmlBlock => Tag::HtmlBlock,
            Tag::List(first) => Tag::List(*first),
            Tag::Item => Tag::Item,
            Tag::FootnoteDefinition(label) => Tag::FootnoteDefinition(label.clone()),
            Tag::DefinitionList => Tag::DefinitionList,
            Tag::DefinitionListTitle => Tag::DefinitionListTitle,
            Tag::DefinitionListDefinition => Tag::DefinitionListDefinition,
            Tag::Table(alignments) => Tag::Table(clone_alignments(alignments)),
            Tag::TableHead => Tag::TableHead,
            Tag::TableRow => Tag::TableRow,
            Tag::TableCell => Tag::TableCell,
            Tag::Emphasis => Tag::Emphasis,
            Tag::Strong => Tag::Strong,
            Tag::Strikethrough => Tag::Strikethrough,
            Tag::Link { link_type, dest_url, title, id } => Tag::Link {
                link_type: *link_type,
                dest_url: dest_url.clone(),
                title: title.clone(),
                id: id.clone(),
            },
            Tag::Image { link_type, dest_url, title, id } => Tag::Image {
                link_type: *link_type,
                dest_url: dest_url.clone(),
                title: title.clone(),
                id: id.clone(),
            },
            Tag::MetadataBlock(kind) => Tag::MetadataBlock(*kind),
        }
    }
}

impl Clone for Token {
    fn clone(&self) -> (r: Self)
        ensures
            r@ == self@,
    {
        match self {
            Token::Start(tag) => Token::Start(tag.clone()),
            Token::End(tag) => Token::End(*tag),
            Token::Text(text) => Token::Text(text.clone()),
            Token::Code(text) => Token::Code(text.clone()),
            Token::InlineMath(text) => Token::InlineMath(text.clone()),
            Token::DisplayMath(text) => Token::DisplayMath(text.clone()),
            Token::Html(text) => Token::Html(text.clone()),
            Token::InlineHtml(text) => Token::InlineHtml(text.clone()),
            Token::FootnoteReference(label) => Token::FootnoteReference(label.clone()),
            Token::SoftBreak => Token::SoftBreak,
            Token::HardBreak => Token::HardBreak,
            Token::Rule => Token::Rule,
            Token::TaskListMarker(checked) => Token::TaskListMarker(*checked),
        }
    }
}

} // verus!
