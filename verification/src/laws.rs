//! What holds of every pass, proved from the transition function.

use vstd::prelude::*;
use crate::footnote::{
    bucket, distinct, gather, lemma_rank_of, lemma_register, lemma_stable_order, rank_of,
    ranks_of, register, relocated, stable_order, FootnoteView,
};
use crate::preprocess::{
    advance, as_inputs, finished, initial, is_frontmatter_start, is_math, is_title_end,
    is_title_start, mentioned_label, run, step, tagged_fence, CaptureValue, PassInput, PassState,
};
use crate::text::plain_text;
use crate::token::{TagView, TokenView};

verus! {

/// A pass over `first` and then `second` is a pass over `first` followed by
/// a pass over `second` from where the first one ended.
pub proof fn lemma_run_concat(s: PassState, first: Seq<PassInput>, second: Seq<PassInput>)
    ensures
        run(s, first + second) == match run(s, first) {
            Some(middle) => run(middle, second),
            None => None,
        },
    decreases second.len(),
{
    if second.len() == 0 {
        assert(first + second == first);
    } else {
        lemma_run_concat(s, first, second.drop_last());
        assert((first + second).drop_last() == first + second.drop_last());
        assert((first + second).last() == second.last());
    }
}

/// A pass over one input is one step.
pub proof fn lemma_run_one(s: PassState, input: PassInput)
    ensures
        run(s, seq![input]) == advance(s, input),
{
    assert(seq![input].drop_last() == Seq::<PassInput>::empty());
    assert(run(s, Seq::<PassInput>::empty()) == Some(s));
}

/// The input is a math token.
pub open spec fn is_math_input(input: PassInput) -> bool {
    input matches PassInput::Token(t) && is_math(t)
}

/// Some input is a math token.
pub open spec fn holds_math(inputs: Seq<PassInput>) -> bool {
    exists|i: int| 0 <= i < inputs.len() && is_math_input(#[trigger] inputs[i])
}

/// The math flag after a pass is set exactly if it was set before or the
/// pass read a math token, whatever was being captured when the token came.
pub proof fn lemma_math_flag_from(s: PassState, inputs: Seq<PassInput>)
    requires
        run(s, inputs) is Some,
    ensures
        run(s, inputs).unwrap().has_math <==> s.has_math || holds_math(inputs),
    decreases inputs.len(),
{
    if inputs.len() > 0 {
        let front = inputs.drop_last();
        lemma_math_flag_from(s, front);
        let before = run(s, front).unwrap();
        if holds_math(inputs) {
            let i = choose|i: int| 0 <= i < inputs.len() && is_math_input(#[trigger] inputs[i]);
            if i < front.len() {
                assert(is_math_input(front[i]));
            }
        }
        if holds_math(front) {
            let i = choose|i: int| 0 <= i < front.len() && is_math_input(#[trigger] front[i]);
            assert(is_math_input(inputs[i]));
        }
        if is_math_input(inputs.last()) {
            assert(is_math_input(inputs[inputs.len() - 1]));
        }
    }
}

/// The document of a whole pass holds math exactly if some token of the
/// input is inline or display math.
pub proof fn lemma_math_flag(highlight: bool, inputs: Seq<PassInput>)
    requires
        run(initial(highlight), inputs) is Some,
    ensures
        finished(run(initial(highlight), inputs).unwrap()).has_math <==> holds_math(inputs),
{
    lemma_math_flag_from(initial(highlight), inputs);
}

/// A token that opens no capture but that of the title: no footnote
/// definition, no `+++` metadata block and, where code is highlighted, no
/// fenced code block that names a language.
pub open spec fn is_plain(highlight: bool, t: TokenView) -> bool {
    &&& !(t matches TokenView::Start(TagView::FootnoteDefinition(_)))
    &&& !is_frontmatter_start(t)
    &&& !(highlight && tagged_fence(t) is Some)
}

proof fn lemma_stable_order_of_nothing(bound: nat)
    ensures
        stable_order(Seq::<int>::empty(), bound) == Seq::<int>::empty(),
    decreases bound,
{
    if bound > 0 {
        lemma_stable_order_of_nothing((bound - 1) as nat);
        assert(bucket(Seq::<int>::empty(), bound - 1) == Seq::<int>::empty());
        assert(Seq::<int>::empty() + Seq::<int>::empty() =~= Seq::<int>::empty());
    }
}

/// Without buffered definitions there is no footnote block.
pub proof fn lemma_nothing_to_relocate(labels: Seq<Seq<char>>)
    ensures
        relocated(labels, Seq::<FootnoteView>::empty()) == Seq::<TokenView>::empty(),
{
    let ranks = ranks_of(labels, Seq::<FootnoteView>::empty());
    assert(ranks =~= Seq::<int>::empty());
    lemma_stable_order_of_nothing(labels.len() + 1);
}

proof fn lemma_plain_pass(highlight: bool, tokens: Seq<TokenView>)
    requires
        forall|i: int| 0 <= i < tokens.len() ==> is_plain(highlight, #[trigger] tokens[i]),
    ensures
        run(initial(highlight), as_inputs(tokens)) is Some,
        ({
            let end = run(initial(highlight), as_inputs(tokens)).unwrap();
            &&& end.capture is Passthrough || end.capture is Title
            &&& end.events == tokens
            &&& end.footnotes == Seq::<FootnoteView>::empty()
            &&& end.metadata is None
            &&& !end.has_highlighted_code
            &&& end.highlight == highlight
        }),
    decreases tokens.len(),
{
    if tokens.len() > 0 {
        let front = tokens.drop_last();
        assert forall|i: int| 0 <= i < front.len() implies is_plain(
            highlight,
            #[trigger] front[i],
        ) by {
            assert(front[i] == tokens[i]);
        }
        lemma_plain_pass(highlight, front);
        assert(as_inputs(tokens).drop_last() == as_inputs(front));
        assert(as_inputs(tokens).last() == PassInput::Token(tokens.last()));
        assert(is_plain(highlight, tokens[tokens.len() - 1]));
        let before = run(initial(highlight), as_inputs(front)).unwrap();
        let after = step(before, tokens.last()).0;
        assert(after.events == tokens) by {
            assert(front.push(tokens.last()) == tokens);
        }
    } else {
        assert(as_inputs(tokens) == Seq::<PassInput>::empty());
    }
}

/// A document without footnote definitions and `+++` metadata blocks, and
/// without fenced code blocks that name a language where code is
/// highlighted, comes out as it went in: the pass succeeds and its output
/// is the input, token for token.
pub proof fn lemma_plain_document_unchanged(highlight: bool, tokens: Seq<TokenView>)
    requires
        forall|i: int| 0 <= i < tokens.len() ==> is_plain(highlight, #[trigger] tokens[i]),
    ensures
        run(initial(highlight), as_inputs(tokens)) is Some,
        finished(run(initial(highlight), as_inputs(tokens)).unwrap()).events == tokens,
        finished(run(initial(highlight), as_inputs(tokens)).unwrap()).metadata is None,
        !finished(run(initial(highlight), as_inputs(tokens)).unwrap()).has_highlighted_code,
{
    lemma_plain_pass(highlight, tokens);
    let end = run(initial(highlight), as_inputs(tokens)).unwrap();
    lemma_nothing_to_relocate(end.labels);
    assert(end.events + Seq::<TokenView>::empty() =~= end.events);
}

/// The tokens among `inputs`, in order.
pub open spec fn tokens_in(inputs: Seq<PassInput>) -> Seq<TokenView>
    decreases inputs.len(),
{
    if inputs.len() == 0 {
        Seq::empty()
    } else {
        match inputs.last() {
            PassInput::Token(t) => tokens_in(inputs.drop_last()).push(t),
            PassInput::Highlighted(_) => tokens_in(inputs.drop_last()),
        }
    }
}

/// The input is the opening tag of a top-level heading.
pub open spec fn is_title_start_input(input: PassInput) -> bool {
    input matches PassInput::Token(t) && is_title_start(t)
}

/// The input is the closing tag of a top-level heading.
pub open spec fn is_title_end_input(input: PassInput) -> bool {
    input matches PassInput::Token(t) && is_title_end(t)
}

/// While the title is captured, every token up to the heading's closing tag
/// is added to it.
proof fn lemma_title_grows(s: PassState, inputs: Seq<PassInput>)
    requires
        s.capture is Title,
        s.title is Some,
        forall|k: int| 0 <= k < inputs.len() ==> !is_title_end_input(#[trigger] inputs[k]),
    ensures
        run(s, inputs) is Some,
        run(s, inputs).unwrap().capture is Title,
        run(s, inputs).unwrap().title == Some(s.title.unwrap() + tokens_in(inputs)),
    decreases inputs.len(),
{
    if inputs.len() == 0 {
        assert(s.title.unwrap() + tokens_in(inputs) =~= s.title.unwrap());
    } else {
        let front = inputs.drop_last();
        assert forall|k: int| 0 <= k < front.len() implies !is_title_end_input(
            #[trigger] front[k],
        ) by {
            assert(front[k] == inputs[k]);
        }
        lemma_title_grows(s, front);
        assert(!is_title_end_input(inputs[inputs.len() - 1]));
        let before = run(s, front).unwrap();
        match inputs.last() {
            PassInput::Token(t) => {
                assert((s.title.unwrap() + tokens_in(front)).push(t) =~= s.title.unwrap()
                    + tokens_in(inputs));
            },
            PassInput::Highlighted(_) => {},
        }
    }
}

/// Once the title heading is closed, the title stays as it is.
proof fn lemma_title_kept(s: PassState, inputs: Seq<PassInput>)
    requires
        s.title is Some,
        !(s.capture is Title),
        run(s, inputs) is Some,
    ensures
        run(s, inputs).unwrap().title == s.title,
        !(run(s, inputs).unwrap().capture is Title),
    decreases inputs.len(),
{
    if inputs.len() > 0 {
        lemma_title_kept(s, inputs.drop_last());
    }
}

/// The title of a document is the content of its first top-level heading.
///
/// Let the input at `i` be the opening tag of a top-level heading that comes
/// while nothing is captured and no title was seen before, and let `j` be
/// the place of the first closing tag of a top-level heading after it (the
/// end of the input if there is none). Then the title of the document is the
/// sequence of the tokens strictly between the two, so its plain text is the
/// concatenation of the text tokens between them.
pub proof fn lemma_title_isolation(highlight: bool, inputs: Seq<PassInput>, i: int, j: int)
    requires
        0 <= i < j <= inputs.len(),
        run(initial(highlight), inputs.take(i)) is Some,
        run(initial(highlight), inputs.take(i)).unwrap().capture is Passthrough,
        run(initial(highlight), inputs.take(i)).unwrap().title is None,
        is_title_start_input(inputs[i]),
        forall|k: int| i < k < j ==> !is_title_end_input(#[trigger] inputs[k]),
        j < inputs.len() ==> is_title_end_input(inputs[j]),
        run(initial(highlight), inputs) is Some,
    ensures
        finished(run(initial(highlight), inputs).unwrap()).title == Some(
            tokens_in(inputs.subrange(i + 1, j)),
        ),
        plain_text(finished(run(initial(highlight), inputs).unwrap()).title.unwrap())
            == plain_text(tokens_in(inputs.subrange(i + 1, j))),
{
    let start = initial(highlight);
    let head = inputs.take(i);
    let content = inputs.subrange(i + 1, j);
    let rest = inputs.subrange(j, inputs.len() as int);
    let before = run(start, head).unwrap();
    let opened = advance(before, inputs[i]).unwrap();
    lemma_run_one(before, inputs[i]);
    lemma_run_concat(start, head, seq![inputs[i]]);
    assert(head + seq![inputs[i]] =~= inputs.take(i + 1));
    assert(run(start, inputs.take(i + 1)) == Some(opened));
    assert(opened.title == Some(Seq::<TokenView>::empty()));
    assert forall|k: int| 0 <= k < content.len() implies !is_title_end_input(
        #[trigger] content[k],
    ) by {
        assert(content[k] == inputs[i + 1 + k]);
    }
    lemma_title_grows(opened, content);
    lemma_run_concat(start, inputs.take(i + 1), content);
    assert(inputs.take(i + 1) + content =~= inputs.take(j));
    let captured = run(start, inputs.take(j)).unwrap();
    assert(captured.title == Some(tokens_in(content))) by {
        assert(Seq::<TokenView>::empty() + tokens_in(content) =~= tokens_in(content));
    }
    lemma_run_concat(start, inputs.take(j), rest);
    assert(inputs.take(j) + rest =~= inputs);
    if j < inputs.len() {
        let tail = inputs.subrange(j + 1, inputs.len() as int);
        assert(seq![inputs[j]] + tail =~= rest);
        lemma_run_concat(captured, seq![inputs[j]], tail);
        lemma_run_one(captured, inputs[j]);
        let closed = advance(captured, inputs[j]).unwrap();
        lemma_title_kept(closed, tail);
    } else {
        assert(rest =~= Seq::<PassInput>::empty());
    }
}

/// A pass that starts without a title and reads no opening tag of a
/// top-level heading ends without a title.
pub proof fn lemma_no_heading_no_title_from(s: PassState, inputs: Seq<PassInput>)
    requires
        s.title is None,
        !(s.capture is Title),
        forall|k: int| 0 <= k < inputs.len() ==> !is_title_start_input(#[trigger] inputs[k]),
        run(s, inputs) is Some,
    ensures
        run(s, inputs).unwrap().title is None,
        !(run(s, inputs).unwrap().capture is Title),
    decreases inputs.len(),
{
    if inputs.len() > 0 {
        let front = inputs.drop_last();
        assert forall|k: int| 0 <= k < front.len() implies !is_title_start_input(
            #[trigger] front[k],
        ) by {
            assert(front[k] == inputs[k]);
        }
        lemma_no_heading_no_title_from(s, front);
        assert(!is_title_start_input(inputs[inputs.len() - 1]));
    }
}

/// A document without a top-level heading has no title.
pub proof fn lemma_no_heading_no_title(highlight: bool, inputs: Seq<PassInput>)
    requires
        forall|k: int| 0 <= k < inputs.len() ==> !is_title_start_input(#[trigger] inputs[k]),
        run(initial(highlight), inputs) is Some,
    ensures
        finished(run(initial(highlight), inputs).unwrap()).title is None,
{
    lemma_no_heading_no_title_from(initial(highlight), inputs);
}

/// The input mentions the footnote `label`, as a reference to it or as the
/// opening tag of its definition.
pub open spec fn mentions(input: PassInput, label: Seq<char>) -> bool {
    input matches PassInput::Token(t) && mentioned_label(t) == Some(label)
}

/// The input is a reference to the footnote `label`.
pub open spec fn refers_to(input: PassInput, label: Seq<char>) -> bool {
    input == PassInput::Token(TokenView::FootnoteReference(label))
}

/// Some input is a reference to the footnote `label`.
pub open spec fn is_referenced(inputs: Seq<PassInput>, label: Seq<char>) -> bool {
    exists|i: int| 0 <= i < inputs.len() && refers_to(#[trigger] inputs[i], label)
}

/// The place of the first input that mentions `label`, and the number of
/// inputs if none does.
pub open spec fn first_mention(inputs: Seq<PassInput>, label: Seq<char>) -> int
    decreases inputs.len(),
{
    if inputs.len() == 0 {
        0
    } else {
        let before = first_mention(inputs.drop_last(), label);
        if before < inputs.len() - 1 {
            before
        } else if mentions(inputs.last(), label) {
            inputs.len() - 1
        } else {
            inputs.len() as int
        }
    }
}

/// `first_mention` is the least place at which the label is mentioned.
pub proof fn lemma_first_mention(inputs: Seq<PassInput>, label: Seq<char>)
    ensures
        0 <= first_mention(inputs, label) <= inputs.len(),
        first_mention(inputs, label) < inputs.len() ==> mentions(
            inputs[first_mention(inputs, label)],
            label,
        ),
        forall|k: int| 0 <= k < first_mention(inputs, label) ==> !mentions(inputs[k], label),
    decreases inputs.len(),
{
    if inputs.len() > 0 {
        lemma_first_mention(inputs.drop_last(), label);
        assert forall|k: int| 0 <= k < inputs.len() - 1 implies inputs.drop_last()[k]
            == inputs[k] by {}
    }
}

/// What holds of the footnote bookkeeping in every state that a pass
/// reaches: no label is registered twice, and the label of every definition,
/// closed or still open, is registered.
pub open spec fn registered(s: PassState) -> bool {
    &&& distinct(s.labels)
    &&& forall|i: int|
        0 <= i < s.footnotes.len() ==> s.labels.contains(#[trigger] s.footnotes[i].label)
    &&& s.capture matches CaptureValue::Footnote { label, .. } ==> s.labels.contains(label)
}

proof fn lemma_advance_registered(s: PassState, input: PassInput)
    requires
        registered(s),
        advance(s, input) is Some,
    ensures
        registered(advance(s, input).unwrap()),
        forall|i: int|
            0 <= i < s.labels.len() ==> i < advance(s, input).unwrap().labels.len()
                && advance(s, input).unwrap().labels[i] == s.labels[i],
        advance(s, input).unwrap().labels == match input {
            PassInput::Token(t) => match mentioned_label(t) {
                Some(label) => register(s.labels, label),
                None => s.labels,
            },
            PassInput::Highlighted(_) => s.labels,
        },
{
    let after = advance(s, input).unwrap();
    match input {
        PassInput::Token(t) => {
            match mentioned_label(t) {
                Some(label) => {
                    lemma_register(s.labels, label, label);
                    assert forall|i: int| 0 <= i < s.footnotes.len() implies after.labels.contains(
                        #[trigger] s.footnotes[i].label,
                    ) by {
                        lemma_register(s.labels, label, s.footnotes[i].label);
                    }
                    if let CaptureValue::Footnote { label: open, .. } = s.capture {
                        lemma_register(s.labels, label, open);
                    }
                },
                None => {},
            }
            assert forall|i: int| 0 <= i < after.footnotes.len() implies after.labels.contains(
                #[trigger] after.footnotes[i].label,
            ) by {
                if i < s.footnotes.len() {
                    assert(after.footnotes[i] == s.footnotes[i]);
                }
            }
        },
        PassInput::Highlighted(_) => {},
    }
}

/// The registry after a pass holds the labels that the input mentions, each
/// once, in the order of their first mention.
pub proof fn lemma_registry(highlight: bool, inputs: Seq<PassInput>)
    requires
        run(initial(highlight), inputs) is Some,
    ensures
        registered(run(initial(highlight), inputs).unwrap()),
        forall|label: Seq<char>|
            run(initial(highlight), inputs).unwrap().labels.contains(label) <==> (
            #[trigger] first_mention(inputs, label)) < inputs.len(),
        forall|a: int, b: int|
            0 <= a < b < run(initial(highlight), inputs).unwrap().labels.len() ==> first_mention(
                inputs,
                #[trigger] run(initial(highlight), inputs).unwrap().labels[a],
            ) < first_mention(inputs, #[trigger] run(initial(highlight), inputs).unwrap().labels[b]),
    decreases inputs.len(),
{
    let end = run(initial(highlight), inputs).unwrap();
    if inputs.len() == 0 {
        assert forall|label: Seq<char>| !end.labels.contains(label) by {}
    } else {
        let front = inputs.drop_last();
        let last = inputs.last();
        lemma_registry(highlight, front);
        let before = run(initial(highlight), front).unwrap();
        lemma_advance_registered(before, last);
        assert forall|label: Seq<char>| end.labels.contains(label) <==> (#[trigger] first_mention(
            inputs,
            label,
        )) < inputs.len() by {
            lemma_first_mention(front, label);
            if mentions(last, label) {
                lemma_register(before.labels, label, label);
            }
            if before.labels.contains(label) {
                let t = last->Token_0;
                if last is Token && mentioned_label(t) is Some {
                    lemma_register(before.labels, mentioned_label(t).unwrap(), label);
                }
            }
            if end.labels.contains(label) && !before.labels.contains(label) {
                let i = choose|i: int| 0 <= i < end.labels.len() && end.labels[i] == label;
                if i < before.labels.len() {
                    assert(before.labels[i] == label);
                }
            }
        }
        assert forall|a: int, b: int| 0 <= a < b < end.labels.len() implies first_mention(
            inputs,
            #[trigger] end.labels[a],
        ) < first_mention(inputs, #[trigger] end.labels[b]) by {
            lemma_first_mention(front, end.labels[a]);
            lemma_first_mention(front, end.labels[b]);
            assert(before.labels[a] == end.labels[a]);
            assert(before.labels.contains(end.labels[a]));
            if b < before.labels.len() {
                assert(before.labels[b] == end.labels[b]);
            } else {
                assert(end.labels.len() == before.labels.len() + 1);
                assert(!before.labels.contains(end.labels[b]));
            }
        }
    }
}

/// The order in which the closed definitions of the state `s` are emitted:
/// their positions in closure order, stably sorted by the rank of the label.
pub open spec fn footnote_order(s: PassState) -> Seq<int> {
    stable_order(ranks_of(s.labels, s.footnotes), s.labels.len() + 1)
}

/// The definition at position `i` of `definitions` belongs before the one
/// at position `j`: its label was mentioned first in `inputs`, or the two
/// have one label and `i` was closed first.
pub open spec fn belongs_before(
    inputs: Seq<PassInput>,
    definitions: Seq<FootnoteView>,
    i: int,
    j: int,
) -> bool {
    first_mention(inputs, definitions[i].label) < first_mention(inputs, definitions[j].label) || (
    definitions[i].label == definitions[j].label && i < j)
}

/// Footnote definitions are emitted in the order of the first mention of
/// their labels.
///
/// The document ends with the footnote block, which holds every definition
/// that was closed during the pass, each once. Of two definitions in the
/// block, the one whose label was mentioned first (by a reference or by the
/// opening tag of a definition) comes first; definitions of one label keep
/// the order in which they were closed. Where they stood in the source does
/// not matter otherwise.
pub proof fn lemma_footnote_order(highlight: bool, inputs: Seq<PassInput>)
    requires
        run(initial(highlight), inputs) is Some,
    ensures
        ({
            let end = run(initial(highlight), inputs).unwrap();
            let order = footnote_order(end);
            &&& finished(end).events == end.events + gather(end.footnotes, order)
            &&& forall|i: int| 0 <= i < end.footnotes.len() ==> order.contains(i)
            &&& forall|a: int| 0 <= a < order.len() ==> 0 <= #[trigger] order[a] < end.footnotes.len()
            &&& forall|a: int, b: int|
                0 <= a < b < order.len() ==> belongs_before(
                    inputs,
                    end.footnotes,
                    #[trigger] order[a],
                    #[trigger] order[b],
                )
        }),
{
    let end = run(initial(highlight), inputs).unwrap();
    let order = footnote_order(end);
    let ranks = ranks_of(end.labels, end.footnotes);
    lemma_registry(highlight, inputs);
    lemma_stable_order(ranks, end.labels.len() + 1);
    assert forall|i: int| 0 <= i < end.footnotes.len() implies order.contains(i) by {
        lemma_rank_of(end.labels, end.footnotes[i].label);
        assert(0 <= ranks[i] < end.labels.len() + 1);
    }
    assert forall|a: int, b: int| 0 <= a < b < order.len() implies belongs_before(
        inputs,
        end.footnotes,
        #[trigger] order[a],
        #[trigger] order[b],
    ) by {
        let i = order[a];
        let j = order[b];
        let x = end.footnotes[i].label;
        let y = end.footnotes[j].label;
        lemma_rank_of(end.labels, x);
        lemma_rank_of(end.labels, y);
        assert(end.labels.contains(x) && end.labels.contains(y));
        let rx = rank_of(end.labels, x);
        let ry = rank_of(end.labels, y);
        assert(ranks[i] == rx && ranks[j] == ry);
        if rx < ry {
            assert(first_mention(inputs, end.labels[rx]) < first_mention(inputs, end.labels[ry]));
        }
    }
}

/// Definitions that nothing refers to come last, in the order in which they
/// were closed, in every document in which no such definition is mentioned
/// before a label that is referred to, and in which these definitions are
/// mentioned in the order in which they are closed.
///
/// A label's rank is the place of its first mention, be it a reference or
/// the opening tag of its definition. A definition that nothing refers to
/// and that stands before the first mention of a footnote that is referred
/// to is therefore emitted before that footnote: the two conditions leave
/// out exactly the documents in which that happens.
pub proof fn lemma_unreferenced_definitions_last(highlight: bool, inputs: Seq<PassInput>)
    requires
        run(initial(highlight), inputs) is Some,
        ({
            let end = run(initial(highlight), inputs).unwrap();
            &&& forall|i: int, j: int|
                0 <= i < end.footnotes.len() && 0 <= j < end.footnotes.len() && is_referenced(
                    inputs,
                    #[trigger] end.footnotes[i].label,
                ) && !is_referenced(inputs, #[trigger] end.footnotes[j].label) ==> first_mention(
                    inputs,
                    end.footnotes[i].label,
                ) < first_mention(inputs, end.footnotes[j].label)
            &&& forall|i: int, j: int|
                0 <= i < j < end.footnotes.len() && !is_referenced(
                    inputs,
                    #[trigger] end.footnotes[i].label,
                ) && !is_referenced(inputs, #[trigger] end.footnotes[j].label) ==> first_mention(
                    inputs,
                    end.footnotes[i].label,
                ) <= first_mention(inputs, end.footnotes[j].label)
        }),
    ensures
        ({
            let end = run(initial(highlight), inputs).unwrap();
            let order = footnote_order(end);
            forall|a: int, b: int|
                0 <= a < b < order.len() && !is_referenced(
                    inputs,
                    end.footnotes[#[trigger] order[a]].label,
                ) ==> !is_referenced(inputs, end.footnotes[#[trigger] order[b]].label) && order[a]
                    < order[b]
        }),
{
    let end = run(initial(highlight), inputs).unwrap();
    let order = footnote_order(end);
    lemma_footnote_order(highlight, inputs);
    assert forall|a: int, b: int|
        0 <= a < b < order.len() && !is_referenced(
            inputs,
            end.footnotes[#[trigger] order[a]].label,
        ) implies !is_referenced(inputs, end.footnotes[#[trigger] order[b]].label) && order[a]
        < order[b] by {
        let i = order[a];
        let j = order[b];
        assert(belongs_before(inputs, end.footnotes, i, j));
        assert(0 <= i < end.footnotes.len() && 0 <= j < end.footnotes.len());
        let x = end.footnotes[i].label;
        let y = end.footnotes[j].label;
        if is_referenced(inputs, y) {
            assert(first_mention(inputs, y) < first_mention(inputs, x));
        } else if j < i {
            assert(first_mention(inputs, y) <= first_mention(inputs, x));
        } else if j == i {
            assert(x == y);
        }
    }
}

} // verus!
