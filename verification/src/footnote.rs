//! Footnote bookkeeping: the registry that ranks labels by first mention, and
//! the relocation of buffered definitions in rank order.

use vstd::prelude::*;
use crate::token::{Token, TokenView};

verus! {

/// A footnote definition whose closing tag has been seen, with every token
/// from its opening tag to its closing tag.
#[derive(Debug, PartialEq, Eq)]
pub struct FootnoteDefinition {
    pub label: String,
    pub tokens: Vec<Token>,
}

/// Mathematical value of a [`FootnoteDefinition`].
pub struct FootnoteView {
    pub label: Seq<char>,
    pub tokens: Seq<TokenView>,
}

impl DeepView for FootnoteDefinition {
    type V = FootnoteView;

    open spec fn deep_view(&self) -> FootnoteView {
        FootnoteView { label: self.label@, tokens: self.tokens.deep_view() }
    }
}

/// Rank of `label` in the registry `labels`: the first position at which it
/// stands, or `labels.len()` if it stands nowhere.
pub open spec fn rank_of(labels: Seq<Seq<char>>, label: Seq<char>) -> int
    decreases labels.len(),
{
    if labels.len() == 0 {
        0
    } else {
        let before = rank_of(labels.drop_last(), label);
        if before < labels.len() - 1 {
            before
        } else if labels.last() == label {
            labels.len() - 1
        } else {
            labels.len() as int
        }
    }
}

/// The registry after `label` has been mentioned: a label that is already
/// there keeps its rank, a new one gets the next rank.
pub open spec fn register(labels: Seq<Seq<char>>, label: Seq<char>) -> Seq<Seq<char>> {
    if labels.contains(label) {
        labels
    } else {
        labels.push(label)
    }
}

/// No label stands twice in the registry.
pub open spec fn distinct(labels: Seq<Seq<char>>) -> bool {
    forall|a: int, b: int| 0 <= a < b < labels.len() ==> labels[a] != labels[b]
}

/// `rank_of` is the first position of the label, and the length if there is none.
pub proof fn lemma_rank_of(labels: Seq<Seq<char>>, label: Seq<char>)
    ensures
        0 <= rank_of(labels, label) <= labels.len(),
        rank_of(labels, label) < labels.len() ==> labels[rank_of(labels, label)] == label,
        forall|k: int| 0 <= k < rank_of(labels, label) ==> labels[k] != label,
        labels.contains(label) <==> rank_of(labels, label) < labels.len(),
    decreases labels.len(),
{
    if labels.len() > 0 {
        lemma_rank_of(labels.drop_last(), label);
        assert forall|k: int| 0 <= k < labels.len() - 1 implies labels.drop_last()[k]
            == labels[k] by {}
        if labels.contains(label) {
            let i = choose|i: int| 0 <= i < labels.len() && labels[i] == label;
            if i < labels.len() - 1 {
                assert(labels.drop_last()[i] == label);
            }
        }
    }
}

/// A position before which the label does not stand, and at which it stands
/// unless the position is the length, is the label's rank.
pub proof fn lemma_rank_is(labels: Seq<Seq<char>>, label: Seq<char>, r: int)
    requires
        0 <= r <= labels.len(),
        forall|k: int| 0 <= k < r ==> labels[k] != label,
        r < labels.len() ==> labels[r] == label,
    ensures
        rank_of(labels, label) == r,
{
    lemma_rank_of(labels, label);
}

/// Registering keeps the registry free of repetitions and keeps every rank
/// that was assigned before.
pub proof fn lemma_register(labels: Seq<Seq<char>>, label: Seq<char>, other: Seq<char>)
    requires
        distinct(labels),
    ensures
        distinct(register(labels, label)),
        register(labels, label).contains(label),
        labels.contains(other) ==> register(labels, label).contains(other) && rank_of(
            register(labels, label),
            other,
        ) == rank_of(labels, other),
        !labels.contains(label) ==> rank_of(register(labels, label), label) == labels.len(),
{
    lemma_rank_of(labels, label);
    lemma_rank_of(labels, other);
    let grown = labels.push(label);
    assert(grown.drop_last() == labels);
    if !labels.contains(label) {
        assert(grown[labels.len() as int] == label);
        assert forall|a: int, b: int| 0 <= a < b < grown.len() implies grown[a] != grown[b] by {
            if b == labels.len() {
                assert(labels[a] == grown[a]);
                assert(labels.contains(grown[a]));
            }
        }
        if labels.contains(other) {
            let i = choose|i: int| 0 <= i < labels.len() && labels[i] == other;
            assert(grown[i] == other);
        }
    }
}

/// Rank of `label` in the registry `labels`.
pub fn rank(labels: &Vec<String>, label: &String) -> (r: usize)
    ensures
        r == rank_of(labels.deep_view(), label@),
{
    let mut i: usize = 0;
    while i < labels.len()
        invariant
            i <= labels.len(),
            forall|k: int| 0 <= k < i ==> labels.deep_view()[k] != label@,
        decreases labels.len() - i,
    {
        if labels[i] == *label {
            proof {
                lemma_rank_is(labels.deep_view(), label@, i as int);
            }
            return i;
        }
        i = i + 1;
    }
    proof {
        lemma_rank_is(labels.deep_view(), label@, i as int);
    }
    i
}

/// Records a mention of `label`: it is added at the end of the registry
/// unless it is there already.
pub fn mention(labels: &mut Vec<String>, label: &String)
    ensures
        final(labels).deep_view() == register(old(labels).deep_view(), label@),
{
    let r = rank(labels, label);
    proof {
        lemma_rank_of(labels.deep_view(), label@);
    }
    if r == labels.len() {
        let ghost before = labels.deep_view();
        labels.push(label.clone());
        assert(labels.deep_view() =~= before.push(label@));
    }
}

/// Ranks of the definitions in `definitions`, in closure order.
pub open spec fn ranks_of(labels: Seq<Seq<char>>, definitions: Seq<FootnoteView>) -> Seq<int> {
    Seq::new(definitions.len(), |i: int| rank_of(labels, definitions[i].label))
}

/// Positions of the value `k` in `ranks`, in increasing order.
pub open spec fn bucket(ranks: Seq<int>, k: int) -> Seq<int>
    decreases ranks.len(),
{
    if ranks.len() == 0 {
        Seq::empty()
    } else if ranks.last() == k {
        bucket(ranks.drop_last(), k).push(ranks.len() - 1)
    } else {
        bucket(ranks.drop_last(), k)
    }
}

/// Positions of `ranks` whose value is at least 0 and below `bound`, ordered
/// by value and, among equal values, by position: the order in which a stable
/// sort by rank leaves them.
pub open spec fn stable_order(ranks: Seq<int>, bound: nat) -> Seq<int>
    decreases bound,
{
    if bound == 0 {
        Seq::empty()
    } else {
        stable_order(ranks, (bound - 1) as nat) + bucket(ranks, bound - 1)
    }
}

/// The token sequences of `definitions` at the positions `order`, one after
/// the other.
pub open spec fn gather(definitions: Seq<FootnoteView>, order: Seq<int>) -> Seq<TokenView>
    decreases order.len(),
{
    if order.len() == 0 {
        Seq::empty()
    } else {
        gather(definitions, order.drop_last()) + definitions[order.last()].tokens
    }
}

/// The footnote block at the end of a document: the buffered definitions
/// stably sorted by the rank of their label.
pub open spec fn relocated(labels: Seq<Seq<char>>, definitions: Seq<FootnoteView>) -> Seq<
    TokenView,
> {
    gather(definitions, stable_order(ranks_of(labels, definitions), labels.len() + 1))
}

proof fn lemma_gather_push(definitions: Seq<FootnoteView>, order: Seq<int>, i: int)
    ensures
        gather(definitions, order.push(i)) == gather(definitions, order) + definitions[i].tokens,
{
    assert(order.push(i).drop_last() == order);
}

proof fn lemma_bucket_step(ranks: Seq<int>, k: int, i: int)
    requires
        0 <= i < ranks.len(),
    ensures
        bucket(ranks.take(i + 1), k) == if ranks[i] == k {
            bucket(ranks.take(i), k).push(i)
        } else {
            bucket(ranks.take(i), k)
        },
{
    assert(ranks.take(i + 1).drop_last() == ranks.take(i));
}

proof fn lemma_gather_concat(definitions: Seq<FootnoteView>, a: Seq<int>, b: Seq<int>)
    ensures
        gather(definitions, a + b) == gather(definitions, a) + gather(definitions, b),
    decreases b.len(),
{
    if b.len() == 0 {
        assert(a + b == a);
    } else {
        lemma_gather_concat(definitions, a, b.drop_last());
        assert((a + b).drop_last() == a + b.drop_last());
    }
}

/// Appends to `events` the tokens of the definitions of rank `k`, in closure
/// order, and leaves the other definitions as they are.
fn append_rank(
    events: &mut Vec<Token>,
    definitions: &mut Vec<FootnoteDefinition>,
    ranks: &Vec<usize>,
    k: usize,
    Ghost(defs): Ghost<Seq<FootnoteView>>,
    Ghost(rks): Ghost<Seq<int>>,
)
    requires
        old(definitions).len() == defs.len(),
        ranks.len() == defs.len(),
        rks.len() == defs.len(),
        forall|j: int| 0 <= j < defs.len() ==> ranks[j] == rks[j],
        forall|j: int|
            0 <= j < defs.len() && rks[j] >= k ==> old(definitions)[j].tokens.deep_view()
                == defs[j].tokens,
    ensures
        final(definitions).len() == defs.len(),
        forall|j: int|
            0 <= j < defs.len() && rks[j] > k ==> final(definitions)[j].tokens.deep_view()
                == defs[j].tokens,
        final(events).deep_view() == old(events).deep_view() + gather(defs, bucket(rks, k as int)),
{
    let ghost body = events.deep_view();
    let count = definitions.len();
    let mut i: usize = 0;
    while i < count
        invariant
            count == definitions.len(),
            defs.len() == count,
            ranks.len() == count,
            rks.len() == count,
            forall|j: int| 0 <= j < count ==> ranks[j] == rks[j],
            forall|j: int|
                0 <= j < count && (rks[j] > k || (rks[j] == k && j >= i))
                    ==> definitions[j].tokens.deep_view() == defs[j].tokens,
            i <= count,
            events.deep_view() == body + gather(defs, bucket(rks.take(i as int), k as int)),
        decreases count - i,
    {
        proof {
            lemma_bucket_step(rks, k as int, i as int);
        }
        if ranks[i] == k {
            let ghost before = events.deep_view();
            events.append(&mut definitions[i].tokens);
            proof {
                assert(events.deep_view() =~= before + defs[i as int].tokens);
                lemma_gather_push(defs, bucket(rks.take(i as int), k as int), i as int);
            }
        }
        i = i + 1;
    }
    proof {
        assert(rks.take(count as int) == rks);
    }
}

/// Appends to `events` the footnote block: the tokens of `definitions`,
/// stably sorted by the rank of their label in `labels`.
pub fn append_relocated(
    events: &mut Vec<Token>,
    labels: &Vec<String>,
    definitions: Vec<FootnoteDefinition>,
)
    ensures
        final(events).deep_view() == old(events).deep_view() + relocated(
            labels.deep_view(),
            definitions.deep_view(),
        ),
{
    let ghost body = events.deep_view();
    let ghost defs = definitions.deep_view();
    let ghost rks = ranks_of(labels.deep_view(), defs);
    let mut definitions = definitions;
    let count = definitions.len();
    let mut ranks: Vec<usize> = Vec::new();
    let mut i: usize = 0;
    while i < count
        invariant
            count == definitions.len(),
            definitions.deep_view() == defs,
            rks == ranks_of(labels.deep_view(), defs),
            i <= count,
            ranks.len() == i,
            forall|j: int| 0 <= j < i ==> ranks[j] == rks[j],
        decreases count - i,
    {
        let r = rank(labels, &definitions[i].label);
        assert(defs[i as int].label == definitions[i as int].label@);
        ranks.push(r);
        i = i + 1;
    }
    assert forall|j: int| 0 <= j < count implies definitions[j].tokens.deep_view()
        == defs[j].tokens by {
        assert(definitions.deep_view()[j] == defs[j]);
    }
    let mut k: usize = 0;
    while k < labels.len()
        invariant
            count == definitions.len(),
            defs.len() == count,
            ranks.len() == count,
            rks.len() == count,
            forall|j: int| 0 <= j < count ==> ranks[j] == rks[j],
            forall|j: int|
                0 <= j < count && rks[j] >= k ==> definitions[j].tokens.deep_view()
                    == defs[j].tokens,
            k <= labels.len(),
            events.deep_view() == body + gather(defs, stable_order(rks, k as nat)),
        decreases labels.len() - k,
    {
        append_rank(events, &mut definitions, &ranks, k, Ghost(defs), Ghost(rks));
        proof {
            lemma_gather_concat(defs, stable_order(rks, k as nat), bucket(rks, k as int));
        }
        k = k + 1;
    }
    append_rank(events, &mut definitions, &ranks, k, Ghost(defs), Ghost(rks));
    proof {
        lemma_gather_concat(defs, stable_order(rks, k as nat), bucket(rks, k as int));
    }
}

/// Position `i` comes before position `j` in a stable sort by rank: its rank
/// is lower, or the ranks are equal and `i` is the earlier position.
pub open spec fn precedes(ranks: Seq<int>, i: int, j: int) -> bool {
    ranks[i] < ranks[j] || (ranks[i] == ranks[j] && i < j)
}

/// `bucket(ranks, k)` holds exactly the positions of `k`, in increasing order.
pub proof fn lemma_bucket(ranks: Seq<int>, k: int)
    ensures
        forall|a: int|
            0 <= a < bucket(ranks, k).len() ==> 0 <= #[trigger] bucket(ranks, k)[a] < ranks.len()
                && ranks[bucket(ranks, k)[a]] == k,
        forall|a: int, b: int|
            0 <= a < b < bucket(ranks, k).len() ==> #[trigger] bucket(ranks, k)[a]
                < #[trigger] bucket(ranks, k)[b],
        forall|i: int|
            0 <= i < ranks.len() && #[trigger] ranks[i] == k ==> bucket(ranks, k).contains(i),
    decreases ranks.len(),
{
    if ranks.len() > 0 {
        let front = ranks.drop_last();
        let inner = bucket(front, k);
        let whole = bucket(ranks, k);
        lemma_bucket(front, k);
        assert forall|a: int| 0 <= a < inner.len() implies ranks[inner[a]] == k by {
            assert(front[inner[a]] == ranks[inner[a]]);
        }
        assert forall|i: int| 0 <= i < ranks.len() && #[trigger] ranks[i] == k implies whole.contains(
            i,
        ) by {
            if i < front.len() {
                assert(front[i] == k);
                let a = choose|a: int| 0 <= a < inner.len() && inner[a] == i;
                assert(whole[a] == i);
            } else {
                assert(whole[whole.len() - 1] == i);
            }
        }
    }
}

/// `stable_order(ranks, bound)` is the result of a stable sort by rank: it
/// holds each position whose rank is below `bound`, and of two of its
/// entries the earlier one precedes the later one. So no position stands
/// in it twice.
pub proof fn lemma_stable_order(ranks: Seq<int>, bound: nat)
    ensures
        forall|a: int|
            0 <= a < stable_order(ranks, bound).len() ==> 0 <= #[trigger] stable_order(
                ranks,
                bound,
            )[a] < ranks.len() && 0 <= ranks[stable_order(ranks, bound)[a]] < bound,
        forall|a: int, b: int|
            0 <= a < b < stable_order(ranks, bound).len() ==> precedes(
                ranks,
                #[trigger] stable_order(ranks, bound)[a],
                #[trigger] stable_order(ranks, bound)[b],
            ),
        forall|i: int|
            0 <= i < ranks.len() && 0 <= #[trigger] ranks[i] < bound ==> stable_order(
                ranks,
                bound,
            ).contains(i),
    decreases bound,
{
    if bound > 0 {
        let lower = stable_order(ranks, (bound - 1) as nat);
        let top = bucket(ranks, bound - 1);
        let whole = stable_order(ranks, bound);
        lemma_stable_order(ranks, (bound - 1) as nat);
        lemma_bucket(ranks, bound - 1);
        assert(whole == lower + top);
        assert forall|a: int| 0 <= a < whole.len() implies 0 <= #[trigger] whole[a] < ranks.len()
            && 0 <= ranks[whole[a]] < bound by {
            if a < lower.len() {
                assert(whole[a] == lower[a]);
            } else {
                assert(whole[a] == top[a - lower.len()]);
            }
        }
        assert forall|a: int, b: int| 0 <= a < b < whole.len() implies precedes(
            ranks,
            #[trigger] whole[a],
            #[trigger] whole[b],
        ) by {
            if b < lower.len() {
                assert(whole[a] == lower[a] && whole[b] == lower[b]);
            } else if a < lower.len() {
                assert(whole[a] == lower[a]);
                assert(whole[b] == top[b - lower.len()]);
            } else {
                assert(whole[a] == top[a - lower.len()]);
                assert(whole[b] == top[b - lower.len()]);
            }
        }
        assert forall|i: int| 0 <= i < ranks.len() && 0 <= #[trigger] ranks[i] < bound implies whole.contains(
            i,
        ) by {
            if ranks[i] < bound - 1 {
                let a = choose|a: int| 0 <= a < lower.len() && lower[a] == i;
                assert(whole[a] == i);
            } else {
                let a = choose|a: int| 0 <= a < top.len() && top[a] == i;
                assert(whole[lower.len() + a] == i);
            }
        }
    }
}

} // verus!
