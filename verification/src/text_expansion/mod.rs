//! Trigger detection and snippet expansion.

pub mod buffer;
pub mod injector;
pub mod listener;
pub mod placeholder;

use vstd::prelude::*;
use crate::text::same_text;
use crate::text_expansion::buffer::{has_suffix, KeyBuffer};

verus! {

/// The trigger index: each trigger with the snippet template it expands
/// to, no trigger twice.
pub struct TriggerMap {
    pairs: Vec<(String, String)>,
}

/// A trigger and its template, as plain values.
pub type Pair = (Seq<char>, Seq<char>);

/// Whether no two of `pairs` have the same trigger.
pub open spec fn triggers_distinct(pairs: Seq<Pair>) -> bool {
    forall|i: int, j: int| 0 <= i < j < pairs.len() ==> (#[trigger] pairs[i]).0 != (#[trigger] pairs[j]).0
}

/// The index of the pair of `pairs` whose trigger is `trigger`, or their
/// number where there is none.
pub open spec fn position_of(pairs: Seq<Pair>, trigger: Seq<char>) -> int
    decreases pairs.len(),
{
    if pairs.len() == 0 {
        0
    } else if pairs[0].0 == trigger {
        0
    } else {
        1 + position_of(pairs.skip(1), trigger)
    }
}

/// `pairs` with `trigger` expanding to `template`: in the place the
/// trigger had, or at the end where it is new.
pub open spec fn with_pair(pairs: Seq<Pair>, trigger: Seq<char>, template: Seq<char>) -> Seq<Pair> {
    let at = position_of(pairs, trigger);
    if at < pairs.len() {
        pairs.update(at, (trigger, template))
    } else {
        pairs.push((trigger, template))
    }
}

/// The index made of `given` alone, each pair put in in turn, so that of
/// two templates for one trigger the later stays.
pub open spec fn synced(given: Seq<Pair>) -> Seq<Pair>
    decreases given.len(),
{
    if given.len() == 0 {
        Seq::empty()
    } else {
        with_pair(synced(given.drop_last()), given.last().0, given.last().1)
    }
}

/// The index of the first pair of `pairs` whose trigger ends `held`, or
/// their number where none does.
pub open spec fn first_match(pairs: Seq<Pair>, held: Seq<char>) -> int
    decreases pairs.len(),
{
    if pairs.len() == 0 {
        0
    } else if has_suffix(held, pairs[0].0) {
        0
    } else {
        1 + first_match(pairs.skip(1), held)
    }
}

/// The plain values of a list of pairs of strings.
pub open spec fn pair_views(pairs: Seq<(String, String)>) -> Seq<Pair> {
    pairs.map_values(|p: (String, String)| (p.0@, p.1@))
}

/// In an index that lists no trigger twice, a trigger stands at the place
/// that looking it up gives, and nowhere else.
pub proof fn lemma_position_of(pairs: Seq<Pair>, trigger: Seq<char>)
    ensures
        0 <= position_of(pairs, trigger) <= pairs.len(),
        position_of(pairs, trigger) < pairs.len() ==> pairs[position_of(pairs, trigger)].0
            == trigger,
        forall|i: int| 0 <= i < position_of(pairs, trigger) ==> (#[trigger] pairs[i]).0 != trigger,
    decreases pairs.len(),
{
    if pairs.len() > 0 && pairs[0].0 != trigger {
        let rest = pairs.skip(1);
        lemma_position_of(rest, trigger);
        assert forall|i: int| 0 <= i < position_of(pairs, trigger) implies (#[trigger] pairs[i]).0
            != trigger by {
            if i > 0 {
                assert(rest[i - 1] == pairs[i]);
            }
        }
    }
}

/// Putting a pair into an index that lists no trigger twice gives one that
/// lists none twice.
pub proof fn lemma_with_pair_distinct(pairs: Seq<Pair>, trigger: Seq<char>, template: Seq<char>)
    requires
        triggers_distinct(pairs),
    ensures
        triggers_distinct(with_pair(pairs, trigger, template)),
{
    lemma_position_of(pairs, trigger);
    let at = position_of(pairs, trigger);
    let out = with_pair(pairs, trigger, template);
    assert forall|i: int, j: int| 0 <= i < j < out.len() implies (#[trigger] out[i]).0 != (
    #[trigger] out[j]).0 by {
        if at < pairs.len() {
            assert(out[i].0 == pairs[i].0);
            assert(out[j].0 == pairs[j].0);
        } else {
            if j < pairs.len() {
                assert(out[i] == pairs[i] && out[j] == pairs[j]);
            } else {
                assert(out[i] == pairs[i]);
            }
        }
    }
}

/// An index made by a sync lists no trigger twice.
pub proof fn lemma_synced_distinct(given: Seq<Pair>)
    ensures
        triggers_distinct(synced(given)),
    decreases given.len(),
{
    if given.len() > 0 {
        lemma_synced_distinct(given.drop_last());
        lemma_with_pair_distinct(synced(given.drop_last()), given.last().0, given.last().1);
    }
}

/// The first match is in range or the length, its trigger ends the text,
/// and none before it does.
pub proof fn lemma_first_match(pairs: Seq<Pair>, held: Seq<char>)
    ensures
        0 <= first_match(pairs, held) <= pairs.len(),
        first_match(pairs, held) < pairs.len() ==> has_suffix(
            held,
            pairs[first_match(pairs, held)].0,
        ),
        forall|i: int|
            0 <= i < first_match(pairs, held) ==> !has_suffix(held, (#[trigger] pairs[i]).0),
    decreases pairs.len(),
{
    if pairs.len() > 0 && !has_suffix(held, pairs[0].0) {
        let rest = pairs.skip(1);
        lemma_first_match(rest, held);
        assert forall|i: int| 0 <= i < first_match(pairs, held) implies !has_suffix(
            held,
            (#[trigger] pairs[i]).0,
        ) by {
            if i > 0 {
                assert(rest[i - 1] == pairs[i]);
            }
        }
    }
}

impl TriggerMap {
    /// The pairs held, in the order in which lookups try them.
    pub closed spec fn view(&self) -> Seq<Pair> {
        pair_views(self.pairs@)
    }

    /// An index without triggers.
    pub fn new() -> (index: TriggerMap)
        ensures
            index@ == Seq::<Pair>::empty(),
    {
        let index = TriggerMap { pairs: Vec::new() };
        assert(index@ =~= Seq::<Pair>::empty());
        index
    }

    /// The number of triggers.
    pub fn len(&self) -> (n: usize)
        ensures
            n == self@.len(),
    {
        self.pairs.len()
    }

    /// Makes `trigger` expand to `template`.
    fn put(&mut self, trigger: String, template: String)
        ensures
            final(self)@ == with_pair(old(self)@, trigger@, template@),
    {
        let ghost before = self@;
        let mut i: usize = 0;
        assert(before.skip(0) =~= before);
        while i < self.pairs.len()
            invariant
                i <= self.pairs@.len(),
                self.pairs@ == old(self).pairs@,
                before == pair_views(self.pairs@),
                position_of(before, trigger@) == i + position_of(before.skip(i as int), trigger@),
            decreases self.pairs@.len() - i,
        {
            let ghost rest = before.skip(i as int);
            assert(rest[0] == before[i as int]);
            if same_text(self.pairs[i].0.as_str(), trigger.as_str()) {
                self.pairs.remove(i);
                self.pairs.insert(i, (trigger, template));
                assert(self@ =~= with_pair(before, trigger@, template@));
                return ;
            }
            assert(before.skip(i + 1) =~= rest.skip(1));
            i += 1;
        }
        assert(before.skip(before.len() as int).len() == 0);
        self.pairs.push((trigger, template));
        assert(self@ =~= with_pair(before, trigger@, template@));
    }

    /// Replaces the whole index by `triggers`: what was held is dropped,
    /// then each pair is put in.
    pub fn sync(&mut self, triggers: Vec<(String, String)>)
        ensures
            final(self)@ == synced(pair_views(triggers@)),
            triggers_distinct(final(self)@),
    {
        self.pairs.clear();
        let ghost given = pair_views(triggers@);
        assert(self@ =~= synced(given.take(0)));
        let mut queue = triggers;
        let mut done: usize = 0;
        let total: usize = queue.len();
        while queue.len() > 0
            invariant
                done + queue@.len() == total,
                total == given.len(),
                pair_views(queue@) == given.skip(done as int),
                self@ == synced(given.take(done as int)),
            decreases queue@.len(),
        {
            let ghost waiting = pair_views(queue@);
            let ghost queued = queue@;
            let (trigger, template) = queue.remove(0);
            proof {
                assert(waiting[0] == given[done as int]);
                assert(queue@ =~= queued.skip(1));
                assert forall|k: int| 0 <= k < queue@.len() implies pair_views(queue@)[k]
                    == given.skip(done + 1)[k] by {
                    assert(queue@[k] == queued[k + 1]);
                    assert(waiting[k + 1] == given.skip(done as int)[k + 1]);
                }
                assert(pair_views(queue@) =~= given.skip(done + 1));
                assert(given.take(done + 1).drop_last() =~= given.take(done as int));
            }
            self.put(trigger, template);
            done += 1;
        }
        proof {
            assert(given.take(done as int) =~= given);
            lemma_synced_distinct(given);
        }
    }

    /// The first trigger that ends what `buffer` holds: its length in
    /// characters and a copy of its template.
    pub fn lookup(&self, buffer: &KeyBuffer) -> (found: Option<(usize, String)>)
        ensures
            ({
                let at = first_match(self@, buffer@);
                match found {
                    Some((length, template)) => at < self@.len() && length == self@[at].0.len()
                        && template@ == self@[at].1,
                    None => at == self@.len(),
                }
            }),
    {
        let ghost pairs = self@;
        let mut i: usize = 0;
        assert(pairs.skip(0) =~= pairs);
        while i < self.pairs.len()
            invariant
                i <= self.pairs@.len(),
                pairs == pair_views(self.pairs@),
                first_match(pairs, buffer@) == i + first_match(pairs.skip(i as int), buffer@),
            decreases self.pairs@.len() - i,
        {
            let ghost rest = pairs.skip(i as int);
            assert(rest[0] == pairs[i as int]);
            if buffer.ends_with(self.pairs[i].0.as_str()) {
                let length = self.pairs[i].0.as_str().unicode_len();
                return Some((length, self.pairs[i].1.clone()));
            }
            assert(pairs.skip(i + 1) =~= rest.skip(1));
            i += 1;
        }
        assert(pairs.skip(pairs.len() as int).len() == 0);
        None
    }
}

} // verus!
