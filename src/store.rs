//! Per-conversation message history.
use vstd::prelude::*;
use crate::message::{copy_turns, turns_view, Message, MessageView};

verus! {

/// The turns of one conversation.
pub struct Conversation {
    pub id: String,
    pub turns: Vec<Message>,
}

/// All conversations of the process, each found by its id.
pub struct ConversationStore {
    entries: Vec<Conversation>,
}

/// The index of the first conversation from `k` on whose id is `id`, or -1.
pub open spec fn find_from(entries: Seq<Conversation>, id: Seq<char>, k: int) -> int
    decreases entries.len() - k,
{
    if k < 0 || k >= entries.len() {
        -1
    } else if entries[k].id@ == id {
        k
    } else {
        find_from(entries, id, k + 1)
    }
}

/// `h` with its oldest turns dropped so that at most `max` remain.
pub open spec fn windowed(h: Seq<MessageView>, max: nat) -> Seq<MessageView> {
    if h.len() > max {
        h.subrange(h.len() - max, h.len() as int)
    } else {
        h
    }
}

/// `after` is `before` with `turn` appended to conversation `id`.
pub open spec fn appended(
    before: &ConversationStore,
    after: &ConversationStore,
    id: Seq<char>,
    turn: MessageView,
) -> bool {
    forall|x: Seq<char>|
        #[trigger] after.history(x) == if x == id {
            before.history(x).push(turn)
        } else {
            before.history(x)
        }
}

/// `after` is `before` with the latest turn of conversation `id`, if any, removed.
pub open spec fn rolled_back(before: &ConversationStore, after: &ConversationStore, id: Seq<char>) -> bool {
    forall|x: Seq<char>|
        #[trigger] after.history(x) == if x == id && before.history(x).len() > 0 {
            before.history(x).drop_last()
        } else {
            before.history(x)
        }
}

/// `after` is `before` with conversation `id` cut to its latest `max` turns.
pub open spec fn trimmed(
    before: &ConversationStore,
    after: &ConversationStore,
    id: Seq<char>,
    max: nat,
) -> bool {
    forall|x: Seq<char>|
        #[trigger] after.history(x) == if x == id {
            windowed(before.history(x), max)
        } else {
            before.history(x)
        }
}

proof fn lemma_find_same_ids(a: Seq<Conversation>, b: Seq<Conversation>, id: Seq<char>, k: int)
    requires
        a.len() == b.len(),
        forall|i: int| 0 <= i < a.len() ==> #[trigger] a[i].id@ == b[i].id@,
    ensures
        find_from(a, id, k) == find_from(b, id, k),
    decreases a.len() - k,
{
    if 0 <= k < a.len() {
        lemma_find_same_ids(a, b, id, k + 1);
    }
}

proof fn lemma_find_bounds(a: Seq<Conversation>, id: Seq<char>, k: int)
    ensures
        find_from(a, id, k) == -1 || (k <= find_from(a, id, k) < a.len() && a[find_from(
            a,
            id,
            k,
        )].id@ == id),
        0 <= k ==> (find_from(a, id, k) == -1 <==> forall|i: int|
            k <= i < a.len() ==> #[trigger] a[i].id@ != id),
    decreases a.len() - k,
{
    if 0 <= k < a.len() {
        lemma_find_bounds(a, id, k + 1);
        if a[k].id@ != id && find_from(a, id, k + 1) != -1 {
            let j = find_from(a, id, k + 1);
            assert(a[j].id@ == id);
        }
    }
}

proof fn lemma_find_push(a: Seq<Conversation>, c: Conversation, id: Seq<char>)
    ensures
        find_from(a.push(c), id, 0) == if find_from(a, id, 0) == -1 && c.id@ == id {
            a.len() as int
        } else {
            find_from(a, id, 0)
        },
{
    lemma_find_push_from(a, c, id, 0);
}

proof fn lemma_find_push_from(a: Seq<Conversation>, c: Conversation, id: Seq<char>, k: int)
    requires
        0 <= k <= a.len(),
    ensures
        find_from(a.push(c), id, k) == if find_from(a, id, k) == -1 && c.id@ == id {
            a.len() as int
        } else {
            find_from(a, id, k)
        },
    decreases a.len() - k,
{
    if k < a.len() {
        assert(a.push(c)[k] == a[k]);
        lemma_find_push_from(a, c, id, k + 1);
    } else {
        assert(a.push(c)[k] == c);
        assert(find_from(a.push(c), id, k + 1) == -1);
    }
}

proof fn lemma_update_entry(before: Seq<Conversation>, k: int, c: Conversation, id: Seq<char>, x: Seq<char>)
    requires
        0 <= k < before.len(),
        find_from(before, id, 0) == k,
        c.id@ == id,
    ensures
        find_from(before.update(k, c), x, 0) == find_from(before, x, 0),
        x != id ==> find_from(before, x, 0) != k,
{
    let after = before.update(k, c);
    lemma_find_bounds(before, id, 0);
    lemma_find_bounds(before, x, 0);
    assert forall|i: int| 0 <= i < before.len() implies #[trigger] before[i].id@ == after[i].id@ by {}
    lemma_find_same_ids(before, after, x, 0);
}

impl ConversationStore {
    /// The turns of conversation `id`; empty for an unknown id.
    pub closed spec fn history(&self, id: Seq<char>) -> Seq<MessageView> {
        let k = find_from(self.entries@, id, 0);
        if k >= 0 {
            turns_view(self.entries@[k].turns@)
        } else {
            seq![]
        }
    }

    /// A store with no conversations.
    pub fn new() -> (r: ConversationStore)
        ensures
            forall|x: Seq<char>| #[trigger] r.history(x) == Seq::<MessageView>::empty(),
    {
        ConversationStore { entries: Vec::new() }
    }

    fn find(&self, id: &String) -> (r: Option<usize>)
        ensures
            match r {
                Some(k) => find_from(self.entries@, id@, 0) == k as int && k < self.entries@.len(),
                None => find_from(self.entries@, id@, 0) == -1,
            },
    {
        let mut k: usize = 0;
        while k < self.entries.len()
            invariant
                k <= self.entries@.len(),
                find_from(self.entries@, id@, k as int) == find_from(self.entries@, id@, 0),
            decreases self.entries@.len() - k,
        {
            if self.entries[k].id == *id {
                return Some(k);
            }
            k = k + 1;
        }
        None
    }

    /// Appends `turn` to conversation `id`, which is created when absent.
    pub fn append(&mut self, id: &str, turn: Message)
        ensures
            appended(old(self), final(self), id@, turn@),
    {
        let ghost before = self.entries@;
        let key = String::from_str(id);
        match self.find(&key) {
            Some(k) => {
                let mut conversation = self.entries.remove(k);
                conversation.turns.push(turn);
                let ghost changed = conversation;
                self.entries.insert(k, conversation);
                proof {
                    assert(self.entries@ =~= before.update(k as int, changed));
                    lemma_find_bounds(before, id@, 0);
                    assert forall|i: int| 0 <= i < before.len() implies #[trigger] before[i].id@
                        == self.entries@[i].id@ by {}
                    assert forall|x: Seq<char>|
                        #[trigger] self.history(x) == if x == id@ {
                            (*old(self)).history(x).push(turn@)
                        } else {
                            (*old(self)).history(x)
                        } by {
                        lemma_find_same_ids(before, self.entries@, x, 0);
                        lemma_find_bounds(before, x, 0);
                        if x == id@ {
                            assert(turns_view(changed.turns@) =~= turns_view(
                                before[k as int].turns@,
                            ).push(turn@));
                        }
                    }
                }
            },
            None => {
                let mut turns: Vec<Message> = Vec::new();
                turns.push(turn);
                let conversation = Conversation { id: key, turns };
                self.entries.push(conversation);
                proof {
                    assert forall|x: Seq<char>|
                        #[trigger] self.history(x) == if x == id@ {
                            (*old(self)).history(x).push(turn@)
                        } else {
                            (*old(self)).history(x)
                        } by {
                        lemma_find_push(before, conversation, x);
                        lemma_find_bounds(before, x, 0);
                        if x == id@ {
                            assert(turns_view(conversation.turns@) =~= seq![turn@]);
                            assert((*old(self)).history(x) =~= seq![]);
                        } else if find_from(before, x, 0) >= 0 {
                            assert(self.entries@[find_from(before, x, 0)] == before[find_from(
                                before,
                                x,
                                0,
                            )]);
                        }
                    }
                }
            },
        }
    }

    /// Removes the latest turn of conversation `id`, if it has any, and
    /// returns it.
    pub fn rollback_last(&mut self, id: &str) -> (r: Option<Message>)
        ensures
            rolled_back(old(self), final(self), id@),
            match r {
                Some(m) => old(self).history(id@).len() > 0 && m@ == old(self).history(id@).last(),
                None => old(self).history(id@).len() == 0,
            },
    {
        let ghost before = self.entries@;
        let key = String::from_str(id);
        match self.find(&key) {
            Some(k) => {
                let mut conversation = self.entries.remove(k);
                let last = conversation.turns.pop();
                let ghost changed = conversation;
                self.entries.insert(k, conversation);
                proof {
                    assert(self.entries@ =~= before.update(k as int, changed));
                    lemma_find_bounds(before, id@, 0);
                    assert forall|x: Seq<char>|
                        #[trigger] self.history(x) == if x == id@ && (*old(self)).history(x).len()
                            > 0 {
                            (*old(self)).history(x).drop_last()
                        } else {
                            (*old(self)).history(x)
                        } by {
                        lemma_update_entry(before, k as int, changed, id@, x);
                        lemma_find_bounds(before, x, 0);
                        let f = find_from(before, x, 0);
                        if x != id@ && f >= 0 {
                            assert(self.entries@[f] == before[f]);
                        }
                        if x == id@ {
                            assert(turns_view(changed.turns@) =~= if before[k as int].turns@.len()
                                > 0 {
                                turns_view(before[k as int].turns@).drop_last()
                            } else {
                                turns_view(before[k as int].turns@)
                            });
                        }
                    }
                }
                last
            },
            None => None,
        }
    }

    /// Keeps only the latest `max_turns` turns of conversation `id`,
    /// dropping the oldest ones.
    pub fn trim_to_window(&mut self, id: &str, max_turns: usize)
        ensures
            trimmed(old(self), final(self), id@, max_turns as nat),
    {
        let ghost before = self.entries@;
        let key = String::from_str(id);
        match self.find(&key) {
            Some(k) => {
                let mut conversation = self.entries.remove(k);
                let n = conversation.turns.len();
                if n > max_turns {
                    let kept = conversation.turns.split_off(n - max_turns);
                    conversation.turns = kept;
                }
                let ghost changed = conversation;
                self.entries.insert(k, conversation);
                proof {
                    assert(self.entries@ =~= before.update(k as int, changed));
                    lemma_find_bounds(before, id@, 0);
                    assert forall|x: Seq<char>|
                        #[trigger] self.history(x) == if x == id@ {
                            windowed((*old(self)).history(x), max_turns as nat)
                        } else {
                            (*old(self)).history(x)
                        } by {
                        lemma_update_entry(before, k as int, changed, id@, x);
                        lemma_find_bounds(before, x, 0);
                        let f = find_from(before, x, 0);
                        if x != id@ && f >= 0 {
                            assert(self.entries@[f] == before[f]);
                        }
                        if x == id@ {
                            assert(turns_view(changed.turns@) =~= windowed(
                                turns_view(before[k as int].turns@),
                                max_turns as nat,
                            ));
                        }
                    }
                }
            },
            None => {
                proof {
                    assert((*old(self)).history(id@) =~= seq![]);
                    assert(windowed((*old(self)).history(id@), max_turns as nat) =~= seq![]);
                }
            },
        }
    }

    /// A copy of the turns of conversation `id`, oldest first.
    pub fn snapshot(&self, id: &str) -> (r: Vec<Message>)
        ensures
            turns_view(r@) == self.history(id@),
    {
        let key = String::from_str(id);
        match self.find(&key) {
            Some(k) => copy_turns(&self.entries[k].turns),
            None => {
                let r: Vec<Message> = Vec::new();
                assert(turns_view(r@) =~= seq![]);
                r
            },
        }
    }

    /// How many turns conversation `id` holds.
    pub fn turn_count(&self, id: &str) -> (r: usize)
        ensures
            r == self.history(id@).len(),
    {
        let key = String::from_str(id);
        match self.find(&key) {
            Some(k) => self.entries[k].turns.len(),
            None => 0,
        }
    }
}


/// Rolling back right after an append leaves every conversation exactly as it
/// was before the append.
pub proof fn rollback_undoes_append(
    s0: &ConversationStore,
    s1: &ConversationStore,
    s2: &ConversationStore,
    id: Seq<char>,
    turn: MessageView,
)
    requires
        appended(s0, s1, id, turn),
        rolled_back(s1, s2, id),
    ensures
        forall|x: Seq<char>| #[trigger] s2.history(x) == s0.history(x),
{
    assert forall|x: Seq<char>| #[trigger] s2.history(x) == s0.history(x) by {
        assert(s1.history(x) == if x == id {
            s0.history(x).push(turn)
        } else {
            s0.history(x)
        });
        assert(s2.history(x) == if x == id && s1.history(x).len() > 0 {
            s1.history(x).drop_last()
        } else {
            s1.history(x)
        });
        if x == id {
            assert(s0.history(x).push(turn).drop_last() =~= s0.history(x));
        }
    }
}

/// After trimming to a window of `max` turns, a conversation holds at most
/// `max` turns, exactly `max` when it held that many, and they are its latest
/// ones in order.
pub proof fn window_keeps_latest(
    before: &ConversationStore,
    after: &ConversationStore,
    id: Seq<char>,
    max: nat,
)
    requires
        trimmed(before, after, id, max),
    ensures
        after.history(id).len() <= max,
        before.history(id).len() >= max ==> after.history(id).len() == max,
        after.history(id) == before.history(id).subrange(
            before.history(id).len() - after.history(id).len(),
            before.history(id).len() as int,
        ),
{
    assert(after.history(id) == windowed(before.history(id), max));
    if before.history(id).len() <= max {
        assert(before.history(id).subrange(0, before.history(id).len() as int) =~= before.history(
            id,
        ));
    }
}

/// Appending one turn per step and then trimming to `max` keeps the last
/// `max` of all the turns, in the order they were appended.
pub proof fn window_after_appends(h: Seq<MessageView>, appended_turns: Seq<MessageView>, max: nat)
    ensures
        windowed(h + appended_turns, max) == (h + appended_turns).subrange(
            (h + appended_turns).len() - windowed(h + appended_turns, max).len(),
            (h + appended_turns).len() as int,
        ),
        appended_turns.len() >= max ==> windowed(h + appended_turns, max) == appended_turns.subrange(
            appended_turns.len() - max,
            appended_turns.len() as int,
        ),
{
    let all = h + appended_turns;
    if all.len() <= max {
        assert(all.subrange(0, all.len() as int) =~= all);
    }
    if appended_turns.len() >= max {
        assert(all.subrange(all.len() - max, all.len() as int) =~= appended_turns.subrange(
            appended_turns.len() - max,
            appended_turns.len() as int,
        ));
    }
}

} // verus!
