//! The persistence abstraction: an append-only collection of messages with
//! store-assigned unique ids, kept ordered by `(created_at, id)`, and a
//! read operation filtered by a [`TimeRange`].

use vstd::prelude::*;
use crate::message::Message;
use crate::message::MessageView;
use crate::message::views_of;
use crate::time_range::TimeRange;

verus! {

/// Strict order on stored messages: by `created_at` ascending, ties broken
/// by `id` ascending.
pub open spec fn view_lt(a: MessageView, b: MessageView) -> bool {
    ||| a.created_at < b.created_at
    ||| (a.created_at == b.created_at && a.id < b.id)
}

/// The sequence is strictly ascending under [`view_lt`].
pub open spec fn sorted(ms: Seq<MessageView>) -> bool {
    forall|i: int, j: int| 0 <= i < j < ms.len() ==> view_lt(ms[i], ms[j])
}

/// The messages a range lets through, in stored order.
pub open spec fn admitted(ms: Seq<MessageView>, r: TimeRange) -> Seq<MessageView> {
    ms.filter(|mv: MessageView| r.admits(mv.created_at))
}

/// The number of leading elements strictly below `m`: where an insert of
/// `m` lands in a sorted sequence.
pub open spec fn insert_cut(ms: Seq<MessageView>, m: MessageView) -> int
    decreases ms.len(),
{
    if ms.len() > 0 && view_lt(ms[0], m) {
        1 + insert_cut(ms.drop_first(), m)
    } else {
        0
    }
}

/// The view of the message an insert would create.
pub open spec fn fresh_view(s: MessageStore, username: Seq<char>, body: Seq<char>, now: i64) -> MessageView {
    MessageView { id: s.next_id_spec(), username, body, created_at: now }
}

/// An in-memory message store. `insert` is the only mutator; ids are
/// assigned from a monotonic counter and never reused.
pub struct MessageStore {
    messages: Vec<Message>,
    next_id: u64,
}

impl MessageStore {
    /// The stored messages, by value.
    pub closed spec fn contents(self) -> Seq<MessageView> {
        views_of(self.messages@)
    }

    /// The id the next insert will assign.
    pub closed spec fn next_id_spec(self) -> u64 {
        self.next_id
    }

    /// Store invariant: contents ordered by `(created_at, id)`, ids unique
    /// and below the counter, and no message with an empty username or an
    /// empty body.
    pub open spec fn wf(self) -> bool {
        &&& sorted(self.contents())
        &&& (forall|i: int|
            0 <= i < self.contents().len() ==> (#[trigger] self.contents()[i]).id
                < self.next_id_spec())
        &&& (forall|i: int, j: int|
            0 <= i < j < self.contents().len() ==> self.contents()[i].id
                != self.contents()[j].id)
        &&& (forall|i: int|
            0 <= i < self.contents().len() ==> (#[trigger] self.contents()[i]).username.len() > 0
                && self.contents()[i].body.len() > 0)
    }

    /// A fresh, empty store.
    pub fn new() -> (s: Self)
        ensures
            s.wf(),
            s.contents() =~= Seq::<MessageView>::empty(),
            s.next_id_spec() == 0,
    {
        MessageStore { messages: Vec::new(), next_id: 0 }
    }

    /// Persist one message. Assigns the next id and the given creation
    /// time, keeps the contents ordered, and returns the fully populated
    /// message.
    pub fn insert(&mut self, username: String, body: String, now: i64) -> (m: Message)
        requires
            old(self).wf(),
            old(self).next_id_spec() < u64::MAX,
            username@.len() > 0,
            body@.len() > 0,
        ensures
            final(self).wf(),
            m@ == fresh_view(*old(self), username@, body@, now),
            final(self).contents() == old(self).contents().insert(
                insert_cut(old(self).contents(), m@),
                m@,
            ),
            final(self).next_id_spec() == old(self).next_id_spec() + 1,
    {
        let ghost c = self.contents();
        let msg = Message { id: self.next_id, username, body, created_at: now };
        let ghost mv = msg@;
        let m = msg.clone();
        let len = self.messages.len();
        let mut i: usize = 0;
        proof {
            assert(c.skip(0) =~= c);
        }
        while i < len && self.messages[i].created_at <= now
            invariant
                len == self.messages@.len(),
                i <= len,
                c == self.contents(),
                self.wf(),
                mv.id == self.next_id_spec(),
                mv.created_at == now,
                insert_cut(c, mv) == i + insert_cut(c.skip(i as int), mv),
                forall|k: int| 0 <= k < i ==> view_lt(c[k], mv),
            decreases len - i,
        {
            proof {
                assert(c[i as int] == self.messages@[i as int]@);
                assert(c[i as int].id < mv.id);
                assert(view_lt(c[i as int], mv));
                assert(c.skip(i as int)[0] == c[i as int]);
                assert(c.skip(i as int).drop_first() =~= c.skip(i as int + 1));
            }
            i = i + 1;
        }
        proof {
            if i < len {
                assert(c[i as int] == self.messages@[i as int]@);
                assert(c.skip(i as int)[0] == c[i as int]);
                assert(!view_lt(c[i as int], mv));
            } else {
                assert(c.skip(i as int).len() == 0);
            }
            assert(insert_cut(c, mv) == i as int);
            // every element at or past the cut lies strictly above the new
            // message: its id is smaller, so equal timestamps still order it
            // below, and the sequence is sorted
            assert forall|k: int| i <= k < len implies view_lt(mv, c[k]) by {
                assert(c[k].id < mv.id);
                if k > i {
                    assert(view_lt(c[i as int], c[k]));
                }
            }
        }
        self.messages.insert(i, msg);
        self.next_id = self.next_id + 1;
        proof {
            let c2 = self.contents();
            assert(c2 =~= c.insert(i as int, mv)) by {
                assert forall|k: int| 0 <= k < c2.len() implies c2[k] == c.insert(i as int, mv)[k] by {
                    assert(c2[k] == self.messages@[k]@);
                }
            }
            assert forall|p: int, q: int| 0 <= p < q < c2.len() implies view_lt(c2[p], c2[q]) by {
                if q < i {
                    assert(c2[p] == c[p] && c2[q] == c[q]);
                } else if p > i {
                    assert(c2[p] == c[p - 1] && c2[q] == c[q - 1]);
                } else if p < i && q == i {
                    assert(c2[p] == c[p] && c2[q] == mv);
                } else if p < i && q > i {
                    assert(c2[p] == c[p] && c2[q] == c[q - 1]);
                } else if p == i {
                    assert(c2[p] == mv && c2[q] == c[q - 1]);
                }
            }
        }
        m
    }

    /// Read the stored messages that fall inside the range, in stored
    /// order. Read-only: an unbounded range returns everything.
    pub fn list(&self, range: &TimeRange) -> (r: Vec<Message>)
        requires
            self.wf(),
        ensures
            views_of(r@) == admitted(self.contents(), *range),
    {
        filter_messages(&self.messages, range)
    }
}

/// A range with both bounds absent admits every stored message: the read
/// returns them all, in stored order.
pub proof fn lemma_admits_all(ms: Seq<MessageView>, r: TimeRange)
    requires
        r.after is None,
        r.before is None,
    ensures
        admitted(ms, r) == ms,
    decreases ms.len(),
{
    reveal(Seq::filter);
    if ms.len() == 0 {
        assert(admitted(ms, r) =~= ms);
    } else {
        lemma_admits_all(ms.drop_last(), r);
        assert(r.admits(ms.last().created_at));
        assert(admitted(ms, r) =~= ms.drop_last().push(ms.last()));
        assert(ms.drop_last().push(ms.last()) =~= ms);
    }
}

/// A read over an unbounded range returns every stored message, in
/// ascending `created_at` order.
pub proof fn lemma_unbounded_read_in_order(s: MessageStore, r: TimeRange)
    requires
        s.wf(),
        r.after is None,
        r.before is None,
    ensures
        admitted(s.contents(), r) == s.contents(),
        forall|i: int, j: int|
            0 <= i < j < admitted(s.contents(), r).len() ==> admitted(s.contents(), r)[i].created_at
                <= admitted(s.contents(), r)[j].created_at,
{
    lemma_admits_all(s.contents(), r);
    let c = s.contents();
    assert forall|i: int, j: int| 0 <= i < j < c.len() implies c[i].created_at
        <= c[j].created_at by {
        assert(view_lt(c[i], c[j]));
    }
}

/// Every message a range lets through was stored.
pub proof fn lemma_admitted_in_contents(ms: Seq<MessageView>, r: TimeRange)
    ensures
        forall|j: int|
            0 <= j < admitted(ms, r).len() ==> ms.contains(#[trigger] admitted(ms, r)[j]),
    decreases ms.len(),
{
    reveal(Seq::filter);
    if ms.len() > 0 {
        lemma_admitted_in_contents(ms.drop_last(), r);
        assert forall|j: int| 0 <= j < admitted(ms, r).len() implies ms.contains(
            #[trigger] admitted(ms, r)[j],
        ) by {
            let sub = admitted(ms.drop_last(), r);
            if j < sub.len() {
                let k = choose|k: int|
                    0 <= k < ms.drop_last().len() && ms.drop_last()[k] == sub[j];
                assert(ms[k] == sub[j]);
            } else {
                assert(admitted(ms, r)[j] == ms.last());
                assert(ms[ms.len() - 1] == ms.last());
            }
        }
    }
}

/// Filtering by a range keeps the stored order.
pub proof fn lemma_admitted_sorted(ms: Seq<MessageView>, r: TimeRange)
    requires
        sorted(ms),
    ensures
        sorted(admitted(ms, r)),
    decreases ms.len(),
{
    reveal(Seq::filter);
    if ms.len() > 0 {
        assert(sorted(ms.drop_last())) by {
            assert(forall|i: int|
                0 <= i < ms.drop_last().len() ==> ms.drop_last()[i] == #[trigger] ms[i]);
        }
        lemma_admitted_sorted(ms.drop_last(), r);
        if r.admits(ms.last().created_at) {
            let sub = admitted(ms.drop_last(), r);
            lemma_admitted_in_contents(ms.drop_last(), r);
            assert forall|i: int, j: int|
                0 <= i < j < admitted(ms, r).len() implies view_lt(
                admitted(ms, r)[i],
                admitted(ms, r)[j],
            ) by {
                if j < sub.len() {
                    assert(view_lt(sub[i], sub[j]));
                } else {
                    assert(admitted(ms, r)[j] == ms.last());
                    let k = choose|k: int|
                        0 <= k < ms.drop_last().len() && ms.drop_last()[k] == sub[i];
                    assert(ms[k] == sub[i]);
                    assert(view_lt(ms[k], ms[ms.len() - 1]));
                }
            }
        }
    }
}

/// A message at or outside a set bound is excluded from the read's
/// result.
pub proof fn lemma_bounds_exclude(ms: Seq<MessageView>, r: TimeRange, mv: MessageView)
    requires
        (r.after matches Some(a) && mv.created_at <= a) || (r.before matches Some(b)
            && mv.created_at >= b),
    ensures
        !admitted(ms, r).contains(mv),
{
    broadcast use vstd::seq_lib::group_filter_ensures;

    assert(!r.admits(mv.created_at));
    if admitted(ms, r).contains(mv) {
        let j = choose|j: int| 0 <= j < admitted(ms, r).len() && admitted(ms, r)[j] == mv;
        assert(r.admits(admitted(ms, r)[j].created_at));
    }
}

/// A freshly assigned id differs from every id already stored.
pub proof fn lemma_fresh_id_unique(s: MessageStore, mv: MessageView)
    requires
        s.wf(),
        mv.id == s.next_id_spec(),
    ensures
        forall|i: int| 0 <= i < s.contents().len() ==> (#[trigger] s.contents()[i]).id != mv.id,
{
}

/// An insert followed by a read over an unbounded range shows the
/// inserted message exactly once: the store before and after are related
/// as `insert` leaves them, the range has no bounds, and the message's id
/// is the one the insert assigned.
#[verifier::rlimit(50)]
pub proof fn lemma_insert_then_list_once(
    s: MessageStore,
    s2: MessageStore,
    mv: MessageView,
    p: int,
    r: TimeRange,
)
    requires
        s.wf(),
        mv.id == s.next_id_spec(),
        0 <= p <= s.contents().len(),
        s2.contents() == s.contents().insert(p, mv),
        r.after is None,
        r.before is None,
    ensures
        admitted(s2.contents(), r) == s2.contents(),
        admitted(s2.contents(), r).contains(mv),
        forall|i: int, j: int|
            0 <= i < j < admitted(s2.contents(), r).len() ==> !(admitted(s2.contents(), r)[i]
                == mv && admitted(s2.contents(), r)[j] == mv),
{
    lemma_admits_all(s2.contents(), r);
    let c2 = s2.contents();
    assert(c2[p] == mv);
    assert(c2.contains(mv));
    // apart from the inserted position, every element keeps an id below
    // the fresh one, so no second element can equal the inserted view
    assert forall|k: int| 0 <= k < c2.len() && k != p implies (#[trigger] c2[k]).id < mv.id by {
        if k < p {
            assert(c2[k] == s.contents()[k]);
        } else {
            assert(c2[k] == s.contents()[k - 1]);
        }
    }
    assert forall|i: int, j: int| 0 <= i < j < c2.len() implies !(c2[i] == mv && c2[j] == mv) by {
        if c2[i] == mv && c2[j] == mv {
            if i != p {
                assert(c2[i].id < mv.id);
            } else {
                assert(c2[j].id < mv.id);
            }
        }
    }
}

/// No message with an empty username or body is ever visible to a read.
pub proof fn lemma_no_empty_listed(s: MessageStore, r: TimeRange)
    requires
        s.wf(),
    ensures
        forall|j: int|
            0 <= j < admitted(s.contents(), r).len() ==> (#[trigger] admitted(s.contents(), r)[j]).username.len()
                > 0 && admitted(s.contents(), r)[j].body.len() > 0,
{
    lemma_admitted_in_contents(s.contents(), r);
    assert forall|j: int| 0 <= j < admitted(s.contents(), r).len() implies (#[trigger] admitted(
        s.contents(),
        r,
    )[j]).username.len() > 0 && admitted(s.contents(), r)[j].body.len() > 0 by {
        let mv = admitted(s.contents(), r)[j];
        let k = choose|k: int| 0 <= k < s.contents().len() && s.contents()[k] == mv;
        assert(s.contents()[k].username.len() > 0 && s.contents()[k].body.len() > 0);
    }
}

/// Keep the messages a range admits, in order: the pure filtering step a
/// read delegates to.
pub fn filter_messages(msgs: &Vec<Message>, range: &TimeRange) -> (r: Vec<Message>)
    ensures
        views_of(r@) == admitted(views_of(msgs@), *range),
{
    let ghost c = views_of(msgs@);
    let mut out: Vec<Message> = Vec::new();
    let mut i: usize = 0;
    proof {
        assert(c.take(0) =~= Seq::<MessageView>::empty());
        assert(admitted(c.take(0), *range) =~= Seq::<MessageView>::empty()) by {
            reveal(Seq::filter);
        }
        assert(views_of(out@) =~= Seq::<MessageView>::empty());
    }
    while i < msgs.len()
        invariant
            i <= msgs.len(),
            c == views_of(msgs@),
            views_of(out@) == admitted(c.take(i as int), *range),
        decreases msgs.len() - i,
    {
        let ghost pre = out@;
        proof {
            assert(c[i as int] == msgs@[i as int]@);
            assert(c.take(i as int + 1).drop_last() =~= c.take(i as int));
            assert(c.take(i as int + 1).last() == c[i as int]);
            reveal(Seq::filter);
        }
        if range.admits_at(msgs[i].created_at) {
            out.push(msgs[i].clone());
            proof {
                assert(views_of(out@) =~= views_of(pre).push(c[i as int]));
            }
        }
        i = i + 1;
    }
    proof {
        assert(c.take(msgs@.len() as int) =~= c);
    }
    out
}

} // verus!
