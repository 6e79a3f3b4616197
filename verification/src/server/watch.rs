//! The watch stream: replay stored history from a sequence number, then
//! follow newly appended entries without sending any entry twice.
//!
//! The subscription to new entries is taken before history is read, so an
//! entry appended during the replay may arrive both ways; the cursor drops
//! every live entry at or below the last one sent.
use vstd::prelude::*;
use crate::server::errors::{Code, Status};
use crate::text::{decimal_text, push_decimal, push_text};

verus! {

/// Entries read per page while replaying history.
pub const REPLAY_PAGE: usize = 200;

/// The last sequence number sent on a watch stream, if any.
pub struct WatchCursor {
    pub last_sent: Option<u64>,
}

/// Whether a live entry with sequence number `seq` is sent after `last`.
pub open spec fn forwards(last: Option<u64>, seq: u64) -> bool {
    match last {
        None => true,
        Some(l) => seq > l,
    }
}

/// The cursor after a live entry `seq` was offered.
pub open spec fn after_live(last: Option<u64>, seq: u64) -> Option<u64> {
    if forwards(last, seq) {
        Some(seq)
    } else {
        last
    }
}

/// The live entries, out of `seqs` offered in turn, that are sent after
/// `last`, in the order they are sent.
pub open spec fn forwarded(last: Option<u64>, seqs: Seq<u64>) -> Seq<u64>
    decreases seqs.len(),
{
    if seqs.len() == 0 {
        Seq::empty()
    } else {
        let rest = forwarded(after_live(last, seqs[0]), seqs.drop_first());
        if forwards(last, seqs[0]) {
            seq![seqs[0]] + rest
        } else {
            rest
        }
    }
}

/// A strictly increasing sequence.
pub open spec fn strictly_increasing(s: Seq<u64>) -> bool {
    forall|i: int, j: int| 0 <= i < j < s.len() ==> s[i] < s[j]
}

impl WatchCursor {
    /// A stream that has sent nothing yet.
    pub fn new() -> (c: WatchCursor)
        ensures
            c.last_sent is None,
    {
        WatchCursor { last_sent: None }
    }

    /// Records an entry sent while replaying history.
    pub fn replayed(&mut self, seq: u64)
        ensures
            final(self).last_sent == Some(seq),
    {
        self.last_sent = Some(seq);
    }

    /// Whether a newly appended entry is sent: only when it comes after the
    /// last one sent.  The cursor moves to it when it is.
    pub fn admit_live(&mut self, seq: u64) -> (send: bool)
        ensures
            send == forwards(old(self).last_sent, seq),
            final(self).last_sent == after_live(old(self).last_sent, seq),
    {
        let send = match self.last_sent {
            None => true,
            Some(l) => seq > l,
        };
        if send {
            self.last_sent = Some(seq);
        }
        send
    }
}

/// Where the replay continues after a page: at the returned cursor, or
/// nowhere when the page was the last one (a next cursor of 0).
pub fn replay_next(next_cursor: u64) -> (r: Option<u64>)
    ensures
        r == if next_cursor == 0 {
            None::<u64>
        } else {
            Some(next_cursor)
        },
{
    if next_cursor == 0 {
        None
    } else {
        Some(next_cursor)
    }
}

/// The message a stream that fell `n` entries behind is closed with.
pub fn lagged_message(n: u64) -> (m: String)
    ensures
        m@ == "stream lagged by "@ + decimal_text(n as nat)
            + " entries; reconnect with last seen seq"@,
{
    let mut m = String::new();
    push_text(&mut m, "stream lagged by ");
    push_decimal(&mut m, n);
    push_text(&mut m, " entries; reconnect with last seen seq");
    assert(m@ =~= "stream lagged by "@ + decimal_text(n as nat)
        + " entries; reconnect with last seen seq"@);
    m
}

/// The status a stream that fell `n` entries behind is closed with.
pub fn lagged_status(n: u64) -> (s: Status)
    ensures
        s.code == Code::ResourceExhausted,
        s.message@ == "stream lagged by "@ + decimal_text(n as nat)
            + " entries; reconnect with last seen seq"@,
{
    Status { code: Code::ResourceExhausted, message: lagged_message(n) }
}

/// No entry is sent twice and none out of order: whatever live entries are
/// offered after `last`, those sent are strictly increasing and all come
/// after `last`.
pub proof fn lemma_watch_sends_increasing(last: Option<u64>, seqs: Seq<u64>)
    ensures
        strictly_increasing(forwarded(last, seqs)),
        forall|i: int|
            0 <= i < forwarded(last, seqs).len() ==> forwards(last, #[trigger] forwarded(
                last,
                seqs,
            )[i]),
    decreases seqs.len(),
{
    if seqs.len() > 0 {
        let next = after_live(last, seqs[0]);
        let rest = forwarded(next, seqs.drop_first());
        lemma_watch_sends_increasing(next, seqs.drop_first());
        let out = forwarded(last, seqs);
        if forwards(last, seqs[0]) {
            assert(out == seq![seqs[0]] + rest);
            assert forall|i: int| 0 <= i < out.len() implies forwards(last, #[trigger] out[i]) by {
                if i > 0 {
                    assert(out[i] == rest[i - 1]);
                    assert(forwards(next, rest[i - 1]));
                }
            }
            assert forall|i: int, j: int| 0 <= i < j < out.len() implies out[i] < out[j] by {
                assert(out[j] == rest[j - 1]);
                assert(forwards(next, rest[j - 1]));
                if i > 0 {
                    assert(out[i] == rest[i - 1]);
                }
            }
        } else {
            assert(out == rest);
        }
    }
}

/// When new entries arrive in order, each one after the last entry sent
/// (the last one replayed, if any) is sent, and only those: the entries
/// sent are exactly the offered ones that come after `last`, in the order
/// offered.
pub proof fn lemma_watch_sends_all_later(last: Option<u64>, seqs: Seq<u64>)
    requires
        strictly_increasing(seqs),
    ensures
        forwarded(last, seqs) == seqs.filter(|s: u64| forwards(last, s)),
    decreases seqs.len(),
{
    reveal(Seq::filter);
    if seqs.len() > 0 {
        let rest = seqs.drop_first();
        assert(strictly_increasing(rest)) by {
            assert forall|i: int, j: int| 0 <= i < j < rest.len() implies rest[i] < rest[j] by {
                assert(rest[i] == seqs[i + 1] && rest[j] == seqs[j + 1]);
            }
        }
        let next = after_live(last, seqs[0]);
        lemma_watch_sends_all_later(next, rest);
        // Every later entry comes after the first, so it is sent after `next`
        // exactly when it is sent after `last`.
        assert forall|i: int| 0 <= i < rest.len() implies forwards(next, rest[i]) == forwards(
            last,
            rest[i],
        ) by {
            assert(rest[i] == seqs[i + 1]);
            assert(seqs[0] < seqs[i + 1]);
        }
        assert(rest.filter(|s: u64| forwards(next, s)) =~= rest.filter(|s: u64| forwards(last, s)))
            by {
            lemma_filter_same(rest, |s: u64| forwards(next, s), |s: u64| forwards(last, s));
        }
        assert(seqs == seq![seqs[0]] + rest);
        lemma_filter_front(seqs, |s: u64| forwards(last, s));
    }
}

/// Filtering by two predicates that agree on a sequence gives the same
/// result.
proof fn lemma_filter_same(s: Seq<u64>, p: spec_fn(u64) -> bool, q: spec_fn(u64) -> bool)
    requires
        forall|i: int| 0 <= i < s.len() ==> p(s[i]) == q(s[i]),
    ensures
        s.filter(p) == s.filter(q),
    decreases s.len(),
{
    reveal(Seq::filter);
    if s.len() > 0 {
        lemma_filter_same(s.drop_last(), p, q);
        assert(s.drop_last().filter(p) == s.drop_last().filter(q));
    }
}

/// Filtering a non-empty sequence: its first element, if it passes, then
/// the filtered rest.
proof fn lemma_filter_front(s: Seq<u64>, p: spec_fn(u64) -> bool)
    requires
        s.len() > 0,
    ensures
        s.filter(p) == if p(s[0]) {
            seq![s[0]] + s.drop_first().filter(p)
        } else {
            s.drop_first().filter(p)
        },
    decreases s.len(),
{
    reveal(Seq::filter);
    if s.len() == 1 {
        assert(s.drop_first() =~= Seq::<u64>::empty());
        assert(s.drop_last() =~= Seq::<u64>::empty());
        assert(Seq::<u64>::empty().filter(p) =~= Seq::<u64>::empty());
    } else {
        lemma_filter_front(s.drop_last(), p);
        assert(s.drop_last().drop_first() =~= s.drop_first().drop_last());
        assert(s.drop_first().last() == s.last());
        if p(s[0]) {
            assert(s.filter(p) =~= seq![s[0]] + s.drop_first().filter(p));
        } else {
            assert(s.filter(p) =~= s.drop_first().filter(p));
        }
    }
}

} // verus!
