//! The dated message store: an in-memory list of `(date, text)` entries,
//! loaded from and saved to a JSON document, with lookup by offset from
//! "today", insert-or-replace by date, and retention pruning.
//!
//! The offset convention is: a positive offset lies in the future, a
//! negative one in the past. A caller that counts days backwards negates
//! its count before the lookup.

use vstd::prelude::*;
use crate::dates::{Date, add_days, date_le, spec_add_days, spec_date_le};
use crate::document::{
    lemma_parse_document_wf, parse_document, render_document, spec_parse_document,
    spec_render_document,
};

verus! {

/// One scheduled message: a calendar date and its text.
pub struct Message {
    pub date: Date,
    pub text: String,
}

/// The mathematical value of a `Message`: its date and its text as a
/// sequence of characters.
#[verifier::ext_equal]
pub struct MessageView {
    pub date: Date,
    pub text: Seq<char>,
}

impl View for Message {
    type V = MessageView;

    open spec fn view(&self) -> MessageView {
        MessageView { date: self.date, text: self.text@ }
    }
}

/// The mathematical value of a list of messages.
pub open spec fn msgs_view(ms: Seq<Message>) -> Seq<MessageView> {
    ms.map_values(|m: Message| m@)
}

/// What can go wrong around the store: an unreadable or unparseable
/// document, an aborted external edit, or a failed write of the document.
/// A missing document is not an error; it reads as an empty store.
#[derive(Clone, Copy, Debug, PartialEq, Eq)]
pub enum HistoryError {
    CorruptStore,
    EditorFailure,
    WriteFailure,
}

/// The text of the first entry with the given date, in the store's own
/// order; duplicate dates (possible only in an externally edited document)
/// favour the first occurrence.
pub open spec fn spec_first_match(ms: Seq<MessageView>, d: Date) -> Option<Seq<char>>
    decreases ms.len(),
{
    if ms.len() == 0 {
        None
    } else if ms[0].date == d {
        Some(ms[0].text)
    } else {
        spec_first_match(ms.drop_first(), d)
    }
}

/// The entries that remain when every entry dated `d` is removed.
pub open spec fn spec_drop_date(ms: Seq<MessageView>, d: Date) -> Seq<MessageView>
    decreases ms.len(),
{
    if ms.len() == 0 {
        Seq::empty()
    } else if ms[0].date == d {
        spec_drop_date(ms.drop_first(), d)
    } else {
        seq![ms[0]] + spec_drop_date(ms.drop_first(), d)
    }
}

/// How many entries carry the given date.
pub open spec fn spec_count_date(ms: Seq<MessageView>, d: Date) -> int
    decreases ms.len(),
{
    if ms.len() == 0 {
        0int
    } else {
        (if ms[0].date == d {
            1int
        } else {
            0int
        }) + spec_count_date(ms.drop_first(), d)
    }
}

/// Whether retention keeps an entry: it stays unless it is strictly
/// earlier than `today` moved back by the retention window. When that
/// cutoff lies outside the supported years, nothing can be earlier than
/// it, so everything stays.
pub open spec fn spec_keep(m: MessageView, today: Date, retention: int) -> bool {
    match spec_add_days(today, -retention) {
        None => true,
        Some(cutoff) => spec_date_le(cutoff, m.date),
    }
}

/// The entries that survive retention pruning, in their original order.
pub open spec fn spec_prune(ms: Seq<MessageView>, today: Date, retention: int) -> Seq<MessageView>
    decreases ms.len(),
{
    if ms.len() == 0 {
        Seq::empty()
    } else if spec_keep(ms[0], today, retention) {
        seq![ms[0]] + spec_prune(ms.drop_first(), today, retention)
    } else {
        spec_prune(ms.drop_first(), today, retention)
    }
}

// ---------------------------------------------------------------------------
// Laws of the spec-level operations
// ---------------------------------------------------------------------------

proof fn lemma_drop_date_snoc(ms: Seq<MessageView>, d: Date, x: MessageView)
    ensures
        spec_drop_date(ms.push(x), d) == (if x.date == d {
            spec_drop_date(ms, d)
        } else {
            spec_drop_date(ms, d).push(x)
        }),
    decreases ms.len(),
{
    let p = ms.push(x);
    if ms.len() == 0 {
        assert(p.drop_first() =~= Seq::<MessageView>::empty());
        assert(spec_drop_date(p.drop_first(), d) == Seq::<MessageView>::empty());
        assert(p[0] == x);
        if x.date != d {
            assert(seq![x] + Seq::<MessageView>::empty() =~= spec_drop_date(ms, d).push(x));
        }
    } else {
        lemma_drop_date_snoc(ms.drop_first(), d, x);
        assert(p.drop_first() =~= ms.drop_first().push(x));
        assert(p[0] == ms[0]);
        if ms[0].date != d {
            if x.date != d {
                assert(seq![ms[0]] + spec_drop_date(ms.drop_first(), d).push(x) =~= (seq![ms[0]]
                    + spec_drop_date(ms.drop_first(), d)).push(x));
            }
        }
    }
}

proof fn lemma_count_date_snoc(ms: Seq<MessageView>, d: Date, x: MessageView)
    ensures
        spec_count_date(ms.push(x), d) == spec_count_date(ms, d) + (if x.date == d {
            1int
        } else {
            0int
        }),
    decreases ms.len(),
{
    let p = ms.push(x);
    if ms.len() == 0 {
        assert(p.drop_first() =~= Seq::<MessageView>::empty());
        assert(spec_count_date(p.drop_first(), d) == 0);
        assert(p[0] == x);
    } else {
        lemma_count_date_snoc(ms.drop_first(), d, x);
        assert(p.drop_first() =~= ms.drop_first().push(x));
        assert(p[0] == ms[0]);
    }
}

proof fn lemma_prune_snoc(ms: Seq<MessageView>, today: Date, retention: int, x: MessageView)
    ensures
        spec_prune(ms.push(x), today, retention) == (if spec_keep(x, today, retention) {
            spec_prune(ms, today, retention).push(x)
        } else {
            spec_prune(ms, today, retention)
        }),
    decreases ms.len(),
{
    let p = ms.push(x);
    if ms.len() == 0 {
        assert(p.drop_first() =~= Seq::<MessageView>::empty());
        assert(spec_prune(p.drop_first(), today, retention) == Seq::<MessageView>::empty());
        assert(p[0] == x);
        if spec_keep(x, today, retention) {
            assert(seq![x] + Seq::<MessageView>::empty() =~= spec_prune(
                ms,
                today,
                retention,
            ).push(x));
        }
    } else {
        lemma_prune_snoc(ms.drop_first(), today, retention, x);
        assert(p.drop_first() =~= ms.drop_first().push(x));
        assert(p[0] == ms[0]);
        if spec_keep(ms[0], today, retention) {
            if spec_keep(x, today, retention) {
                assert(seq![ms[0]] + spec_prune(ms.drop_first(), today, retention).push(x) =~= (
                seq![ms[0]] + spec_prune(ms.drop_first(), today, retention)).push(x));
            }
        }
    }
}

/// Removing a date removes every entry with it.
proof fn lemma_count_drop_date(ms: Seq<MessageView>, d: Date)
    ensures
        spec_count_date(spec_drop_date(ms, d), d) == 0,
    decreases ms.len(),
{
    if ms.len() > 0 {
        lemma_count_drop_date(ms.drop_first(), d);
        if ms[0].date != d {
            let rest = spec_drop_date(ms.drop_first(), d);
            assert((seq![ms[0]] + rest)[0] == ms[0]);
            assert((seq![ms[0]] + rest).drop_first() =~= rest);
        }
    }
}

/// Replacing by date leaves exactly one entry with that date: the entries
/// without the date, plus the one fresh entry.
pub proof fn lemma_upsert_unique(ms: Seq<MessageView>, d: Date, t: Seq<char>)
    ensures
        spec_count_date(spec_drop_date(ms, d).push(MessageView { date: d, text: t }), d) == 1,
{
    lemma_count_drop_date(ms, d);
    lemma_count_date_snoc(spec_drop_date(ms, d), d, MessageView { date: d, text: t });
}

/// Retention keeps every entry dated today or later, whatever the window:
/// the cutoff lies on or before today, and the entry on or after it.
pub proof fn lemma_prune_keeps_future(m: MessageView, today: Date, retention: int)
    requires
        0 <= retention,
        spec_date_le(today, m.date),
    ensures
        spec_keep(m, today, retention),
{
    crate::dates::lemma_add_days_nonpos_le(today, -retention);
}

/// Retention never drops an entry dated today or later: such an entry is
/// still in the pruned store.
pub proof fn lemma_prune_never_drops_future(
    ms: Seq<MessageView>,
    today: Date,
    retention: int,
    i: int,
)
    requires
        0 <= retention,
        0 <= i < ms.len(),
        spec_date_le(today, ms[i].date),
    ensures
        spec_prune(ms, today, retention).contains(ms[i]),
    decreases ms.len(),
{
    if i == 0 {
        lemma_prune_keeps_future(ms[0], today, retention);
        let out = seq![ms[0]] + spec_prune(ms.drop_first(), today, retention);
        assert(out[0] == ms[0]);
    } else {
        lemma_prune_never_drops_future(ms.drop_first(), today, retention, i - 1);
        let rest = spec_prune(ms.drop_first(), today, retention);
        let j = choose|j: int| 0 <= j < rest.len() && rest[j] == ms.drop_first()[i - 1];
        assert(ms.drop_first()[i - 1] == ms[i]);
        if spec_keep(ms[0], today, retention) {
            let out = seq![ms[0]] + rest;
            assert(out[j + 1] == ms[i]);
        }
    }
}

/// Saving then loading loses nothing: the document that `write_history`
/// renders parses back, by `load_history`, to exactly the entries that
/// were saved, for any store of well-formed entries.
pub proof fn lemma_save_load_round_trip(ms: Seq<MessageView>)
    requires
        forall|i: int| 0 <= i < ms.len() ==> (#[trigger] ms[i]).date.wf(),
    ensures
        spec_parse_document(spec_render_document(ms)) == Some(ms),
{
    crate::document::lemma_document_round_trip(ms);
}

// ---------------------------------------------------------------------------
// The store
// ---------------------------------------------------------------------------

/// The store itself: constructed empty, filled by `load_history`, mutated
/// by the add and prune operations, exported by `write_history`.
pub struct History {
    list: Vec<Message>,
}

impl View for History {
    type V = Seq<MessageView>;

    closed spec fn view(&self) -> Seq<MessageView> {
        msgs_view(self.list@)
    }
}

impl History {
    /// Every entry's date is a well-formed calendar date; load and the add
    /// operations keep it that way.
    pub open spec fn inv(self) -> bool {
        forall|i: int| 0 <= i < self@.len() ==> (#[trigger] self@[i]).date.wf()
    }

    /// A fresh, empty store.
    pub fn new() -> (h: History)
        ensures
            h@ == Seq::<MessageView>::empty(),
            h.inv(),
    {
        let h = History { list: Vec::new() };
        proof {
            assert(h@ =~= Seq::<MessageView>::empty());
        }
        h
    }

    /// Replaces the store's contents from the document's text, handed in by
    /// the caller: no text (a missing document) is the documented empty
    /// first-run state, not an error; text that is not a well-formed
    /// document is `CorruptStore`, and the whole load is rejected, leaving
    /// the store empty.
    pub fn load_history(&mut self, content: Option<&str>) -> (r: Result<(), HistoryError>)
        ensures
            final(self).inv(),
            match content {
                None => r is Ok && final(self)@ == Seq::<MessageView>::empty(),
                Some(s) => match spec_parse_document(s@) {
                    Some(ms) => r is Ok && final(self)@ == ms,
                    None => r == Err::<(), HistoryError>(HistoryError::CorruptStore)
                        && final(self)@ == Seq::<MessageView>::empty(),
                },
            },
    {
        match content {
            None => {
                self.list = Vec::new();
                proof {
                    assert(self@ =~= Seq::<MessageView>::empty());
                }
                Ok(())
            },
            Some(s) => {
                match parse_document(s) {
                    Some(ms) => {
                        self.list = ms;
                        proof {
                            lemma_parse_document_wf(s@);
                            assert(spec_parse_document(s@) == Some(self@));
                            let parsed = spec_parse_document(s@)->Some_0;
                            assert(parsed == self@);
                            assert forall|i: int|
                                0 <= i < self@.len() implies (#[trigger] self@[i]).date.wf() by {
                                assert(parsed[i].date.wf());
                            }
                        }
                        Ok(())
                    },
                    None => {
                        self.list = Vec::new();
                        proof {
                            assert(self@ =~= Seq::<MessageView>::empty());
                        }
                        Err(HistoryError::CorruptStore)
                    },
                }
            },
        }
    }

    /// The text of the first entry with the given date, if any.
    pub fn find_message_by_date(&self, date: &Date) -> (r: Option<&String>)
        ensures
            match r {
                Some(t) => spec_first_match(self@, *date) == Some(t@),
                None => spec_first_match(self@, *date) is None,
            },
    {
        let n = self.list.len();
        let mut i: usize = 0;
        proof {
            assert(self@.skip(0) =~= self@);
        }
        while i < n
            invariant
                n == self.list.len(),
                i <= n,
                spec_first_match(self@, *date) == spec_first_match(self@.skip(i as int), *date),
            decreases n - i,
        {
            proof {
                assert(self@.skip(i as int)[0] == self@[i as int]);
                assert(self@.skip(i as int).drop_first() =~= self@.skip(i as int + 1));
            }
            if self.list[i].date == *date {
                return Some(&self.list[i].text);
            }
            i = i + 1;
        }
        proof {
            assert(self@.skip(n as int).len() == 0);
        }
        None
    }

    /// The text of the first entry dated `today + nb_days` (`nb_days` may
    /// be negative for the past), or nothing when no entry carries that
    /// date — in particular when the target date falls outside the
    /// supported years.
    pub fn find_message_by_nb_day(&self, nb_days: i64, today: &Date) -> (r: Option<&String>)
        requires
            today.wf(),
        ensures
            match spec_add_days(*today, nb_days as int) {
                Some(target) => match r {
                    Some(t) => spec_first_match(self@, target) == Some(t@),
                    None => spec_first_match(self@, target) is None,
                },
                None => r is None,
            },
    {
        match add_days(today, nb_days) {
            Some(target) => self.find_message_by_date(&target),
            None => None,
        }
    }

    /// Insert-or-replace for one date, from the outcome of the external
    /// edit: with fresh text, every entry with the date gives way to one
    /// new entry; with no text (the edit failed or was aborted), the store
    /// is left exactly as it was and the failure is surfaced.
    pub fn add_message(&mut self, date: &Date, new_text: Option<String>) -> (r: Result<
        (),
        HistoryError,
    >)
        requires
            old(self).inv(),
            date.wf(),
        ensures
            final(self).inv(),
            match new_text {
                None => r == Err::<(), HistoryError>(HistoryError::EditorFailure) && final(self)@
                    == old(self)@,
                Some(t) => r is Ok && final(self)@ == spec_drop_date(old(self)@, *date).push(
                    MessageView { date: *date, text: t@ },
                ) && spec_count_date(final(self)@, *date) == 1,
            },
    {
        let text = match new_text {
            Some(t) => t,
            None => {
                return Err(HistoryError::EditorFailure);
            },
        };
        proof {
            assert(new_text == Some(text));
        }
        let n = self.list.len();
        let mut kept: Vec<Message> = Vec::new();
        let mut i: usize = 0;
        while i < n
            invariant
                n == self.list.len(),
                i <= n,
                old(self).inv(),
                self@ == old(self)@,
                msgs_view(kept@) == spec_drop_date(self@.subrange(0, i as int), *date),
                forall|k: int| 0 <= k < kept@.len() ==> (#[trigger] kept@[k]).date.wf(),
            decreases n - i,
        {
            proof {
                assert(self@.subrange(0, i as int).push(self@[i as int]) =~= self@.subrange(
                    0,
                    i + 1,
                ));
                lemma_drop_date_snoc(self@.subrange(0, i as int), *date, self@[i as int]);
            }
            if !(self.list[i].date == *date) {
                let m = Message { date: self.list[i].date, text: self.list[i].text.clone() };
                proof {
                    assert(m@ == self@[i as int]);
                }
                kept.push(m);
                proof {
                    assert(msgs_view(kept@) =~= msgs_view(kept@.drop_last()).push(m@));
                }
            }
            i = i + 1;
        }
        proof {
            assert(self@.subrange(0, n as int) =~= self@);
        }
        let mv = Message { date: *date, text };
        kept.push(mv);
        proof {
            assert(msgs_view(kept@) =~= msgs_view(kept@.drop_last()).push(mv@));
            lemma_upsert_unique(old(self)@, *date, mv@.text);
        }
        self.list = kept;
        proof {
            assert(self@ =~= spec_drop_date(old(self)@, *date).push(
                (MessageView { date: *date, text: new_text->Some_0@ }),
            ));
            assert(self@ == spec_drop_date(old(self)@, *date).push(
                (MessageView { date: *date, text: new_text->Some_0@ }),
            ));
        }
        Ok(())
    }

    /// Insert-or-replace for the date `nb_days` from today. The caller
    /// keeps the target date inside the supported years; `add_days` tells
    /// it whether that holds.
    pub fn add_delayed_message(&mut self, nb_days: i64, today: &Date, new_text: Option<String>)
        -> (r: Result<(), HistoryError>)
        requires
            old(self).inv(),
            today.wf(),
            spec_add_days(*today, nb_days as int) is Some,
        ensures
            final(self).inv(),
            ({
                let target = spec_add_days(*today, nb_days as int)->Some_0;
                match new_text {
                    None => r == Err::<(), HistoryError>(HistoryError::EditorFailure)
                        && final(self)@ == old(self)@,
                    Some(t) => r is Ok && final(self)@ == spec_drop_date(old(self)@, target).push(
                        MessageView { date: target, text: t@ },
                    ) && spec_count_date(final(self)@, target) == 1,
                }
            }),
    {
        let target = match add_days(today, nb_days) {
            Some(d) => d,
            None => {
                proof {
                    assert(false);
                }
                Date { year: 0, month: 1, day: 1 }
            },
        };
        self.add_message(&target, new_text)
    }

    /// Removes every entry strictly earlier than `today` moved back by the
    /// retention window; entries dated today or later, or inside the
    /// window, all stay.
    pub fn prune_expired(&mut self, today: &Date, retention_days: u32)
        requires
            old(self).inv(),
            today.wf(),
        ensures
            final(self).inv(),
            final(self)@ == spec_prune(old(self)@, *today, retention_days as int),
    {
        let cutoff = add_days(today, -(retention_days as i64));
        let n = self.list.len();
        let mut kept: Vec<Message> = Vec::new();
        let mut i: usize = 0;
        while i < n
            invariant
                n == self.list.len(),
                i <= n,
                old(self).inv(),
                self@ == old(self)@,
                cutoff == spec_add_days(*today, -(retention_days as int)),
                msgs_view(kept@) == spec_prune(
                    self@.subrange(0, i as int),
                    *today,
                    retention_days as int,
                ),
                forall|k: int| 0 <= k < kept@.len() ==> (#[trigger] kept@[k]).date.wf(),
            decreases n - i,
        {
            proof {
                assert(self@.subrange(0, i as int).push(self@[i as int]) =~= self@.subrange(
                    0,
                    i + 1,
                ));
                lemma_prune_snoc(
                    self@.subrange(0, i as int),
                    *today,
                    retention_days as int,
                    self@[i as int],
                );
            }
            let keep = match &cutoff {
                Some(c) => date_le(c, &self.list[i].date),
                None => true,
            };
            if keep {
                let m = Message { date: self.list[i].date, text: self.list[i].text.clone() };
                proof {
                    assert(m@ == self@[i as int]);
                }
                kept.push(m);
                proof {
                    assert(msgs_view(kept@) =~= msgs_view(kept@.drop_last()).push(m@));
                }
            }
            i = i + 1;
        }
        proof {
            assert(self@.subrange(0, n as int) =~= self@);
        }
        self.list = kept;
    }

    /// Prunes expired entries, then renders the whole remaining store as
    /// the document to persist. The caller writes the text out; view then
    /// prune on write is the intended order.
    pub fn write_history(&mut self, today: &Date, history_length: u32) -> (doc: String)
        requires
            old(self).inv(),
            today.wf(),
        ensures
            final(self).inv(),
            final(self)@ == spec_prune(old(self)@, *today, history_length as int),
            doc@ == spec_render_document(final(self)@),
    {
        self.prune_expired(today, history_length);
        proof {
            assert forall|i: int|
                0 <= i < self.list@.len() implies (#[trigger] self.list@[i]).date.wf() by {
                assert(self@[i] == self.list@[i]@);
            }
        }
        render_document(&self.list)
    }

    /// The entries, in the store's own order.
    pub fn messages(&self) -> (r: &Vec<Message>)
        ensures
            msgs_view(r@) == self@,
    {
        &self.list
    }
}

} // verus!
