//! The preprocessor: a state machine that reads the tokens of one document
//! in order and rewrites the stream.

use vstd::prelude::*;
use vstd::string::StringExecFns;
use crate::footnote::{
    append_relocated, mention, register, relocated, FootnoteDefinition, FootnoteView,
};
use crate::frontmatter::{parse_toml, toml_document, PreprocessError};
use crate::token::{
    CodeBlockKind, CodeBlockKindView, HeadingLevel, MetadataBlockKind, Tag, TagEnd, TagView, Token,
    TokenView,
};

verus! {

/// What the machine is collecting at the moment.
#[derive(Debug)]
pub enum Capture {
    /// Nothing: tokens pass through to the output.
    Passthrough,
    /// The content of the title heading.
    Title,
    /// A footnote definition, from its opening tag on.
    Footnote { label: String, tokens: Vec<Token> },
    /// The text of a `+++` metadata block.
    Frontmatter { text: String },
    /// The text of a fenced code block that is to be highlighted.
    CodeBlock { code: String, tag: String },
}

/// Mathematical value of a [`Capture`].
pub enum CaptureValue {
    Passthrough,
    Title,
    Footnote { label: Seq<char>, tokens: Seq<TokenView> },
    Frontmatter { text: Seq<char> },
    CodeBlock { code: Seq<char>, tag: Seq<char> },
}

impl DeepView for Capture {
    type V = CaptureValue;

    open spec fn deep_view(&self) -> CaptureValue {
        match self {
            Capture::Passthrough => CaptureValue::Passthrough,
            Capture::Title => CaptureValue::Title,
            Capture::Footnote { label, tokens } => CaptureValue::Footnote {
                label: label@,
                tokens: tokens.deep_view(),
            },
            Capture::Frontmatter { text } => CaptureValue::Frontmatter { text: text@ },
            Capture::CodeBlock { code, tag } => CaptureValue::CodeBlock { code: code@, tag: tag@ },
        }
    }
}

/// A code block that waits for its highlighted form.
#[derive(Debug, PartialEq, Eq)]
pub struct HighlightRequest {
    /// The language tag of the block; never empty.
    pub tag: String,
    /// The text of the block.
    pub code: String,
}

/// What the caller has to do after a token was fed.
#[derive(Debug, PartialEq, Eq)]
pub enum Outcome {
    /// Nothing.
    Continue,
    /// Highlight the code and hand the fragment to
    /// [`Preprocessor::highlighted`] before the next token.
    Highlight(HighlightRequest),
    /// The token was dropped: it is none that a metadata block may hold.
    UnexpectedInFrontmatter(Token),
    /// The token was dropped: it is none that a code block may hold.
    UnexpectedInCodeBlock(Token),
}

/// Mathematical value of what a step asks of the caller.
pub enum OutcomeView {
    Continue,
    Highlight { tag: Seq<char>, code: Seq<char> },
    UnexpectedInFrontmatter(TokenView),
    UnexpectedInCodeBlock(TokenView),
    /// The metadata block is not valid TOML: the pass is over.
    FrontmatterRejected,
}

impl DeepView for Outcome {
    type V = OutcomeView;

    open spec fn deep_view(&self) -> OutcomeView {
        match self {
            Outcome::Continue => OutcomeView::Continue,
            Outcome::Highlight(request) => OutcomeView::Highlight {
                tag: request.tag@,
                code: request.code@,
            },
            Outcome::UnexpectedInFrontmatter(token) => OutcomeView::UnexpectedInFrontmatter(
                token@,
            ),
            Outcome::UnexpectedInCodeBlock(token) => OutcomeView::UnexpectedInCodeBlock(token@),
        }
    }
}

/// Mathematical value of the machine in the middle of a pass.
pub struct PassState {
    /// Whether fenced code blocks are handed out for highlighting.
    pub highlight: bool,
    pub capture: CaptureValue,
    /// The output so far.
    pub events: Seq<TokenView>,
    /// The content of the title heading, once its opening tag was seen.
    pub title: Option<Seq<TokenView>>,
    /// The footnote definitions closed so far, in closure order.
    pub footnotes: Seq<FootnoteView>,
    pub has_math: bool,
    pub has_highlighted_code: bool,
    /// The footnote labels mentioned so far, in order of first mention.
    pub labels: Seq<Seq<char>>,
    pub metadata: Option<serde_json::Value>,
}

/// Mathematical value of a [`PreprocessedMarkdown`].
pub struct DocumentView {
    pub events: Seq<TokenView>,
    pub title: Option<Seq<TokenView>>,
    pub has_math: bool,
    pub has_highlighted_code: bool,
    pub metadata: Option<serde_json::Value>,
}

/// The state before the first token.
pub open spec fn initial(highlight: bool) -> PassState {
    PassState {
        highlight,
        capture: CaptureValue::Passthrough,
        events: Seq::empty(),
        title: None,
        footnotes: Seq::empty(),
        has_math: false,
        has_highlighted_code: false,
        labels: Seq::empty(),
        metadata: None,
    }
}

pub open spec fn is_math(t: TokenView) -> bool {
    t is InlineMath || t is DisplayMath
}

/// The footnote label that a token mentions, as a reference to it or as the
/// opening tag of its definition.
pub open spec fn mentioned_label(t: TokenView) -> Option<Seq<char>> {
    match t {
        TokenView::FootnoteReference(label) => Some(label),
        TokenView::Start(TagView::FootnoteDefinition(label)) => Some(label),
        _ => None,
    }
}

/// The opening tag of a top-level heading.
pub open spec fn is_title_start(t: TokenView) -> bool {
    t matches TokenView::Start(TagView::Heading { level, .. }) && level == HeadingLevel::H1
}

/// The closing tag of a top-level heading.
pub open spec fn is_title_end(t: TokenView) -> bool {
    t == TokenView::End(TagEnd::Heading(HeadingLevel::H1))
}

/// The opening tag of a `+++` metadata block.
pub open spec fn is_frontmatter_start(t: TokenView) -> bool {
    t == TokenView::Start(TagView::MetadataBlock(MetadataBlockKind::PlusesStyle))
}

/// The closing tag of a `+++` metadata block.
pub open spec fn is_frontmatter_end(t: TokenView) -> bool {
    t == TokenView::End(TagEnd::MetadataBlock(MetadataBlockKind::PlusesStyle))
}

/// The language tag of a token that opens a fenced code block with a
/// language tag that is not empty.
pub open spec fn tagged_fence(t: TokenView) -> Option<Seq<char>> {
    match t {
        TokenView::Start(TagView::CodeBlock(CodeBlockKindView::Fenced(tag))) => if tag.len() > 0 {
            Some(tag)
        } else {
            None
        },
        _ => None,
    }
}

/// The three tokens that stand for a highlighted code block.
pub open spec fn html_block(html: Seq<char>) -> Seq<TokenView> {
    seq![
        TokenView::Start(TagView::HtmlBlock),
        TokenView::Html(html),
        TokenView::End(TagEnd::HtmlBlock),
    ]
}

/// What holds after any token, whatever is being captured: a math token sets
/// the math flag, and a footnote label is registered at its first mention.
pub open spec fn noted(s: PassState, t: TokenView) -> PassState {
    PassState {
        has_math: s.has_math || is_math(t),
        labels: match mentioned_label(t) {
            Some(label) => register(s.labels, label),
            None => s.labels,
        },
        ..s
    }
}

/// The state `s` with `capture` as what is being captured.
pub open spec fn capturing(s: PassState, capture: CaptureValue) -> PassState {
    PassState { capture, ..s }
}

/// A token that arrives while nothing is captured opens a capture or goes to
/// the output.
pub open spec fn step_passthrough(s: PassState, t: TokenView) -> PassState {
    if is_title_start(t) && s.title is None {
        PassState {
            capture: CaptureValue::Title,
            title: Some(Seq::empty()),
            events: s.events.push(t),
            ..s
        }
    } else if let TokenView::Start(TagView::FootnoteDefinition(label)) = t {
        PassState { capture: CaptureValue::Footnote { label, tokens: seq![t] }, ..s }
    } else if is_frontmatter_start(t) {
        PassState { capture: CaptureValue::Frontmatter { text: Seq::empty() }, ..s }
    } else if s.highlight && tagged_fence(t) is Some {
        PassState {
            capture: CaptureValue::CodeBlock { code: Seq::empty(), tag: tagged_fence(t).unwrap() },
            ..s
        }
    } else {
        PassState { events: s.events.push(t), ..s }
    }
}

/// A token inside the title heading goes to the output, and to the title
/// unless it closes the heading.
pub open spec fn step_title(s: PassState, t: TokenView) -> PassState {
    if is_title_end(t) {
        PassState { capture: CaptureValue::Passthrough, events: s.events.push(t), ..s }
    } else {
        PassState {
            title: match s.title {
                Some(content) => Some(content.push(t)),
                None => None,
            },
            events: s.events.push(t),
            ..s
        }
    }
}

/// A token inside a footnote definition is buffered; the closing tag moves
/// the buffer to the closed definitions.
pub open spec fn step_footnote(
    s: PassState,
    label: Seq<char>,
    tokens: Seq<TokenView>,
    t: TokenView,
) -> PassState {
    if t == TokenView::End(TagEnd::FootnoteDefinition) {
        PassState {
            capture: CaptureValue::Passthrough,
            footnotes: s.footnotes.push(FootnoteView { label, tokens: tokens.push(t) }),
            ..s
        }
    } else {
        PassState { capture: CaptureValue::Footnote { label, tokens: tokens.push(t) }, ..s }
    }
}

/// A token inside a metadata block: text is collected, the closing tag has
/// the text parsed, anything else is dropped.
pub open spec fn step_frontmatter(s: PassState, text: Seq<char>, t: TokenView) -> (
    PassState,
    OutcomeView,
) {
    if is_frontmatter_end(t) {
        match toml_document(text) {
            Some(value) => (
                PassState { capture: CaptureValue::Passthrough, metadata: Some(value), ..s },
                OutcomeView::Continue,
            ),
            None => (
                PassState { capture: CaptureValue::Passthrough, ..s },
                OutcomeView::FrontmatterRejected,
            ),
        }
    } else if let TokenView::Text(more) = t {
        (
            PassState { capture: CaptureValue::Frontmatter { text: text + more }, ..s },
            OutcomeView::Continue,
        )
    } else {
        (s, OutcomeView::UnexpectedInFrontmatter(t))
    }
}

/// A token inside a code block that is to be highlighted: text is collected,
/// the closing tag hands the block out, anything else is dropped.
pub open spec fn step_code(s: PassState, code: Seq<char>, tag: Seq<char>, t: TokenView) -> (
    PassState,
    OutcomeView,
) {
    if t == TokenView::End(TagEnd::CodeBlock) {
        (
            PassState { capture: CaptureValue::Passthrough, ..s },
            OutcomeView::Highlight { tag, code },
        )
    } else if let TokenView::Text(more) = t {
        (
            PassState { capture: CaptureValue::CodeBlock { code: code + more, tag }, ..s },
            OutcomeView::Continue,
        )
    } else {
        (s, OutcomeView::UnexpectedInCodeBlock(t))
    }
}

/// The transition of the machine: the state after the token `t`, and what
/// the caller has to do.
pub open spec fn step(s: PassState, t: TokenView) -> (PassState, OutcomeView) {
    let n = noted(s, t);
    match s.capture {
        CaptureValue::Passthrough => (step_passthrough(n, t), OutcomeView::Continue),
        CaptureValue::Title => (step_title(n, t), OutcomeView::Continue),
        CaptureValue::Footnote { label, tokens } => (
            step_footnote(n, label, tokens, t),
            OutcomeView::Continue,
        ),
        CaptureValue::Frontmatter { text } => step_frontmatter(n, text, t),
        CaptureValue::CodeBlock { code, tag } => step_code(n, code, tag, t),
    }
}

/// The state after a highlighted code block was handed back: the fragment
/// goes to the output as a raw HTML block.
pub open spec fn with_highlighted(s: PassState, html: Seq<char>) -> PassState {
    PassState { events: s.events + html_block(html), has_highlighted_code: true, ..s }
}

/// The state after the metadata of a document was parsed.
pub open spec fn with_metadata(s: PassState, value: serde_json::Value) -> PassState {
    PassState { metadata: Some(value), ..s }
}

/// The document that a pass ending in state `s` gives: the output, then the
/// footnote definitions in the order of the first mention of their labels.
/// What an unfinished capture holds is dropped.
pub open spec fn finished(s: PassState) -> DocumentView {
    DocumentView {
        events: s.events + relocated(s.labels, s.footnotes),
        title: s.title,
        has_math: s.has_math,
        has_highlighted_code: s.has_highlighted_code,
        metadata: s.metadata,
    }
}

/// One thing that happens to the machine during a pass.
pub enum PassInput {
    /// The next token of the document.
    Token(TokenView),
    /// The highlighted form of the code block that was handed out last.
    Highlighted(Seq<char>),
}

/// The state after one input, `None` where the input ends the pass with an
/// error.
pub open spec fn advance(s: PassState, input: PassInput) -> Option<PassState> {
    match input {
        PassInput::Token(t) => if step(s, t).1 is FrontmatterRejected {
            None
        } else {
            Some(step(s, t).0)
        },
        PassInput::Highlighted(html) => Some(with_highlighted(s, html)),
    }
}

/// The state after the inputs `inputs`, taken in order from the state `s`;
/// `None` where one of them ends the pass with an error.
pub open spec fn run(s: PassState, inputs: Seq<PassInput>) -> Option<PassState>
    decreases inputs.len(),
{
    if inputs.len() == 0 {
        Some(s)
    } else {
        match run(s, inputs.drop_last()) {
            Some(before) => advance(before, inputs.last()),
            None => None,
        }
    }
}

/// The tokens of a document as inputs of a pass in which nothing is
/// highlighted.
pub open spec fn as_inputs(tokens: Seq<TokenView>) -> Seq<PassInput> {
    Seq::new(tokens.len(), |i: int| PassInput::Token(tokens[i]))
}

/// The result of a pass.
#[derive(Debug)]
pub struct PreprocessedMarkdown {
    /// The body, with the footnote definitions at its end.
    pub events: Vec<Token>,
    /// The content of the first top-level heading, if there is one.
    pub title_events: Option<Vec<Token>>,
    /// Whether the document holds inline or display math.
    pub has_math: bool,
    /// Whether a code block was replaced by its highlighted form.
    pub has_highlighted_code: bool,
    /// The parsed frontmatter, if there is a `+++` metadata block.
    pub metadata: Option<serde_json::Value>,
}

impl DeepView for PreprocessedMarkdown {
    type V = DocumentView;

    open spec fn deep_view(&self) -> DocumentView {
        DocumentView {
            events: self.events.deep_view(),
            title: self.title_events.deep_view(),
            has_math: self.has_math,
            has_highlighted_code: self.has_highlighted_code,
            metadata: self.metadata,
        }
    }
}

/// The machine that makes one pass over one document.
#[derive(Debug)]
pub struct Preprocessor {
    highlight: bool,
    state: Capture,
    events: Vec<Token>,
    title_events: Option<Vec<Token>>,
    footnote_definitions: Vec<FootnoteDefinition>,
    has_math: bool,
    has_highlighted_code: bool,
    labels: Vec<String>,
    metadata: Option<serde_json::Value>,
}

impl View for Preprocessor {
    type V = PassState;

    closed spec fn view(&self) -> PassState {
        PassState {
            highlight: self.highlight,
            capture: self.state.deep_view(),
            events: self.events.deep_view(),
            title: self.title_events.deep_view(),
            footnotes: self.footnote_definitions.deep_view(),
            has_math: self.has_math,
            has_highlighted_code: self.has_highlighted_code,
            labels: self.labels.deep_view(),
            metadata: self.metadata,
        }
    }
}

fn push_token(tokens: &mut Vec<Token>, token: Token)
    ensures
        final(tokens).deep_view() == old(tokens).deep_view().push(token@),
{
    tokens.push(token);
    assert(tokens.deep_view() =~= old(tokens).deep_view().push(token@));
}

fn opens_title(token: &Token) -> (r: bool)
    ensures
        r == is_title_start(token@),
{
    match token {
        Token::Start(Tag::Heading { level: HeadingLevel::H1, .. }) => true,
        _ => false,
    }
}

fn closes_title(token: &Token) -> (r: bool)
    ensures
        r == is_title_end(token@),
{
    match token {
        Token::End(TagEnd::Heading(HeadingLevel::H1)) => true,
        _ => false,
    }
}

fn closes_footnote(token: &Token) -> (r: bool)
    ensures
        r == (token@ == TokenView::End(TagEnd::FootnoteDefinition)),
{
    match token {
        Token::End(TagEnd::FootnoteDefinition) => true,
        _ => false,
    }
}

impl Preprocessor {
    /// A machine that has read nothing yet. With `highlight`, fenced code
    /// blocks that name a language are handed out for highlighting.
    pub fn new(highlight: bool) -> (r: Self)
        ensures
            r@ == initial(highlight),
    {
        let r = Preprocessor {
            highlight,
            state: Capture::Passthrough,
            events: Vec::new(),
            title_events: None,
            footnote_definitions: Vec::new(),
            has_math: false,
            has_highlighted_code: false,
            labels: Vec::new(),
            metadata: None,
        };
        assert(r.events.deep_view() =~= Seq::empty());
        assert(r.footnote_definitions.deep_view() =~= Seq::empty());
        assert(r.labels.deep_view() =~= Seq::empty());
        r
    }

    /// Sets the math flag and registers the footnote label, as the token asks.
    fn note(&mut self, token: &Token)
        ensures
            final(self)@ == noted(old(self)@, token@),
    {
        match token {
            Token::InlineMath(_) => {
                self.has_math = true;
            },
            Token::DisplayMath(_) => {
                self.has_math = true;
            },
            Token::FootnoteReference(label) => {
                mention(&mut self.labels, label);
            },
            Token::Start(Tag::FootnoteDefinition(label)) => {
                mention(&mut self.labels, label);
            },
            _ => {},
        }
    }

    fn feed_passthrough(&mut self, token: Token)
        requires
            old(self)@.capture is Passthrough,
        ensures
            final(self)@ == step_passthrough(old(self)@, token@),
    {
        if self.title_events.is_none() && opens_title(&token) {
            let content: Vec<Token> = Vec::new();
            assert(content.deep_view() =~= Seq::empty());
            self.title_events = Some(content);
            push_token(&mut self.events, token);
            self.state = Capture::Title;
        } else {
            match token {
                Token::Start(Tag::FootnoteDefinition(label)) => {
                    let copy = label.clone();
                    let mut tokens: Vec<Token> = Vec::new();
                    tokens.push(Token::Start(Tag::FootnoteDefinition(label)));
                    assert(tokens.deep_view() =~= seq![token@]);
                    self.state = Capture::Footnote { label: copy, tokens };
                },
                Token::Start(Tag::MetadataBlock(MetadataBlockKind::PlusesStyle)) => {
                    self.state = Capture::Frontmatter { text: String::new() };
                },
                Token::Start(Tag::CodeBlock(CodeBlockKind::Fenced(tag))) => {
                    if self.highlight && !tag.as_str().is_empty() {
                        self.state = Capture::CodeBlock { code: String::new(), tag };
                    } else {
                        push_token(
                            &mut self.events,
                            Token::Start(Tag::CodeBlock(CodeBlockKind::Fenced(tag))),
                        );
                    }
                },
                other => {
                    push_token(&mut self.events, other);
                },
            }
        }
    }

    fn feed_title(&mut self, token: Token)
        requires
            old(self)@.capture is Passthrough,
        ensures
            final(self)@ == step_title(capturing(old(self)@, CaptureValue::Title), token@),
    {
        if closes_title(&token) {
            push_token(&mut self.events, token);
        } else {
            let copy = token.clone();
            match self.title_events.take() {
                Some(content) => {
                    let mut content = content;
                    push_token(&mut content, copy);
                    self.title_events = Some(content);
                },
                None => {},
            }
            push_token(&mut self.events, token);
            self.state = Capture::Title;
        }
    }

    fn feed_footnote(&mut self, label: String, tokens: Vec<Token>, token: Token)
        requires
            old(self)@.capture is Passthrough,
        ensures
            final(self)@ == step_footnote(old(self)@, label@, tokens.deep_view(), token@),
    {
        let closes = closes_footnote(&token);
        let mut tokens = tokens;
        push_token(&mut tokens, token);
        if closes {
            let ghost before = self.footnote_definitions.deep_view();
            let definition = FootnoteDefinition { label, tokens };
            self.footnote_definitions.push(definition);
            assert(self.footnote_definitions.deep_view() =~= before.push(definition.deep_view()));
        } else {
            self.state = Capture::Footnote { label, tokens };
        }
    }

    /// Takes the outcome of parsing the text of a metadata block: the value
    /// becomes the document's metadata, an error ends the pass.
    pub fn store_frontmatter(&mut self, parsed: Result<serde_json::Value, toml::de::Error>) -> (r:
        Result<Outcome, PreprocessError>)
        ensures
            match parsed {
                Ok(value) => final(self)@ == with_metadata(old(self)@, value) && r is Ok
                    && r->Ok_0 is Continue,
                Err(cause) => final(self)@ == old(self)@ && r is Err && r->Err_0
                    == PreprocessError::Frontmatter(cause),
            },
    {
        match parsed {
            Ok(value) => {
                self.metadata = Some(value);
                Ok(Outcome::Continue)
            },
            Err(cause) => Err(PreprocessError::Frontmatter(cause)),
        }
    }

    fn feed_frontmatter(&mut self, text: String, token: Token) -> (r: Result<
        Outcome,
        PreprocessError,
    >)
        requires
            old(self)@.capture is Passthrough,
        ensures
            final(self)@ == step_frontmatter(
                capturing(old(self)@, CaptureValue::Frontmatter { text: text@ }),
                text@,
                token@,
            ).0,
            match r {
                Ok(outcome) => outcome.deep_view() == step_frontmatter(old(self)@, text@, token@).1,
                Err(_) => step_frontmatter(old(self)@, text@, token@).1 is FrontmatterRejected,
            },
    {
        match token {
            Token::End(TagEnd::MetadataBlock(MetadataBlockKind::PlusesStyle)) => {
                let parsed = parse_toml(text.as_str());
                self.store_frontmatter(parsed)
            },
            Token::Text(more) => {
                let mut text = text;
                text.append(more.as_str());
                self.state = Capture::Frontmatter { text };
                Ok(Outcome::Continue)
            },
            other => {
                self.state = Capture::Frontmatter { text };
                Ok(Outcome::UnexpectedInFrontmatter(other))
            },
        }
    }

    fn feed_code(&mut self, code: String, tag: String, token: Token) -> (r: Outcome)
        requires
            old(self)@.capture is Passthrough,
        ensures
            final(self)@ == step_code(
                capturing(old(self)@, CaptureValue::CodeBlock { code: code@, tag: tag@ }),
                code@,
                tag@,
                token@,
            ).0,
            r.deep_view() == step_code(old(self)@, code@, tag@, token@).1,
    {
        match token {
            Token::End(TagEnd::CodeBlock) => Outcome::Highlight(HighlightRequest { tag, code }),
            Token::Text(more) => {
                let mut code = code;
                code.append(more.as_str());
                self.state = Capture::CodeBlock { code, tag };
                Outcome::Continue
            },
            other => {
                self.state = Capture::CodeBlock { code, tag };
                Outcome::UnexpectedInCodeBlock(other)
            },
        }
    }

    /// Reads the next token of the document. The machine moves as [`step`]
    /// says; the result tells the caller what to do, and is an error exactly
    /// where the token closes a metadata block whose text is not valid TOML.
    pub fn feed(&mut self, token: Token) -> (r: Result<Outcome, PreprocessError>)
        ensures
            final(self)@ == step(old(self)@, token@).0,
            match r {
                Ok(outcome) => outcome.deep_view() == step(old(self)@, token@).1,
                Err(_) => step(old(self)@, token@).1 is FrontmatterRejected,
            },
    {
        self.note(&token);
        let mut state = Capture::Passthrough;
        core::mem::swap(&mut self.state, &mut state);
        match state {
            Capture::Passthrough => {
                self.feed_passthrough(token);
                Ok(Outcome::Continue)
            },
            Capture::Title => {
                self.feed_title(token);
                Ok(Outcome::Continue)
            },
            Capture::Footnote { label, tokens } => {
                self.feed_footnote(label, tokens, token);
                Ok(Outcome::Continue)
            },
            Capture::Frontmatter { text } => self.feed_frontmatter(text, token),
            Capture::CodeBlock { code, tag } => Ok(self.feed_code(code, tag, token)),
        }
    }

    /// Takes the highlighted form of the code block that was handed out
    /// last: it goes to the output as a raw HTML block.
    pub fn highlighted(&mut self, html: String)
        ensures
            final(self)@ == with_highlighted(old(self)@, html@),
    {
        let ghost before = self.events.deep_view();
        self.has_highlighted_code = true;
        self.events.push(Token::Start(Tag::HtmlBlock));
        self.events.push(Token::Html(html));
        self.events.push(Token::End(TagEnd::HtmlBlock));
        assert(self.events.deep_view() =~= before + html_block(html@));
    }

    /// Ends the pass: the footnote definitions follow the output, stably
    /// sorted by the rank of their label.
    pub fn finish(self) -> (r: PreprocessedMarkdown)
        ensures
            r.deep_view() == finished(self@),
    {
        let mut events = self.events;
        append_relocated(&mut events, &self.labels, self.footnote_definitions);
        PreprocessedMarkdown {
            events,
            title_events: self.title_events,
            has_math: self.has_math,
            has_highlighted_code: self.has_highlighted_code,
            metadata: self.metadata,
        }
    }
}

/// Makes a whole pass over `tokens` in which no code block is highlighted.
/// The result is the document that [`run`] and [`finished`] describe, or the
/// error of the first metadata block whose text is not valid TOML.
pub fn preprocess(tokens: Vec<Token>) -> (r: Result<PreprocessedMarkdown, PreprocessError>)
    ensures
        match run(initial(false), as_inputs(tokens.deep_view())) {
            Some(end) => r matches Ok(document) && document.deep_view() == finished(end),
            None => r is Err,
        },
{
    let ghost all = as_inputs(tokens.deep_view());
    let mut pass = Preprocessor::new(false);
    for token in it: tokens
        invariant
            it.seq() == tokens@,
            all == as_inputs(tokens.deep_view()),
            run(initial(false), all.take(it.index())) == Some(pass@),
    {
        let ghost i = it.index();
        proof {
            assert(all.take(i + 1).drop_last() == all.take(i));
            assert(all.take(i + 1).last() == PassInput::Token(token@));
        }
        match pass.feed(token) {
            Ok(_) => {},
            Err(error) => {
                proof {
                    lemma_run_fails_later(initial(false), all, i + 1);
                }
                return Err(error);
            },
        }
    }
    proof {
        assert(all.take(all.len() as int) == all);
    }
    Ok(pass.finish())
}

/// A pass that has failed stays failed, whatever follows.
pub proof fn lemma_run_fails_later(s: PassState, inputs: Seq<PassInput>, n: int)
    requires
        0 <= n <= inputs.len(),
        run(s, inputs.take(n)) is None,
    ensures
        run(s, inputs) is None,
    decreases inputs.len() - n,
{
    if n < inputs.len() {
        assert(inputs.take(n + 1).drop_last() == inputs.take(n));
        lemma_run_fails_later(s, inputs, n + 1);
    } else {
        assert(inputs.take(n) == inputs);
    }
}

} // verus!
