//! A forward-only cursor over the events of a document.

use vstd::prelude::*;
use crate::error::{Fault, TranslationError, TranslationErrorView};
use crate::event::{EventLog, EventLogView, ParseEvent, ParseEventView};

verus! {

/// What a pull at `position` yields: the event there; past the last event,
/// the complaint of the log, or the end of the document where it has none.
pub open spec fn pull(log: EventLogView, position: nat) -> Result<
    ParseEventView,
    TranslationErrorView,
> {
    if position < log.events.len() {
        Ok(log.events[position as int])
    } else {
        match log.failure {
            Some(message) => Err(TranslationErrorView::SyntaxError(message)),
            None => Ok(ParseEventView::EndDocument),
        }
    }
}

/// Where a cursor stands after a pull at `position`: one event further,
/// unless it is past the last event already.
pub open spec fn advance(log: EventLogView, position: nat) -> nat {
    if position < log.events.len() {
        position + 1
    } else {
        position
    }
}

/// Where a cursor stands after `count` pulls from `position` on, or the
/// complaint of the first pull that fails.
pub open spec fn skipped(log: EventLogView, position: nat, count: nat) -> Result<
    nat,
    TranslationErrorView,
>
    decreases count,
{
    if count == 0 {
        Ok(position)
    } else {
        match pull(log, position) {
            Ok(_) => skipped(log, advance(log, position), (count - 1) as nat),
            Err(error) => Err(error),
        }
    }
}

/// The text that a pull at `position` yields; `MissingText` where it yields
/// another event.
pub open spec fn text_at(log: EventLogView, position: nat) -> Result<
    Seq<char>,
    TranslationErrorView,
> {
    match pull(log, position) {
        Ok(ParseEventView::Text(text)) => Ok(text),
        Ok(_) => Err(TranslationErrorView::StructuralError(Fault::MissingText)),
        Err(error) => Err(error),
    }
}

/// The text of `event`, or the empty text where it is no text.
pub open spec fn text_or_empty(event: ParseEventView) -> Seq<char> {
    match event {
        ParseEventView::Text(text) => text,
        _ => Seq::empty(),
    }
}

/// The view of what a pull yields: no event stands for the end of the
/// document.
pub open spec fn pulled_view(pulled: Result<Option<&ParseEvent>, TranslationError>) -> Result<
    ParseEventView,
    TranslationErrorView,
> {
    match pulled {
        Ok(Some(event)) => Ok(event@),
        Ok(None) => Ok(ParseEventView::EndDocument),
        Err(error) => Err(error@),
    }
}

/// The view of a text that was asked for.
pub open spec fn text_view(text: Result<&str, TranslationError>) -> Result<
    Seq<char>,
    TranslationErrorView,
> {
    match text {
        Ok(t) => Ok(t@),
        Err(error) => Err(error@),
    }
}

/// The view of the outcome of skipping events, given where the cursor
/// stands afterwards.
pub open spec fn skip_view(outcome: Result<(), TranslationError>, position: nat) -> Result<
    nat,
    TranslationErrorView,
> {
    match outcome {
        Ok(_) => Ok(position),
        Err(error) => Err(error@),
    }
}

/// A cursor over the events of one document: it hands them out one by one,
/// in document order, and never goes back.
pub struct EventCursor<'a> {
    log: &'a EventLog,
    position: usize,
}

impl<'a> EventCursor<'a> {
    /// The log that the cursor reads.
    pub closed spec fn log(&self) -> EventLogView {
        self.log@
    }

    /// How many events the cursor has handed out.
    pub closed spec fn position(&self) -> nat {
        self.position as nat
    }

    /// A cursor before the first event of `log`.
    pub fn new(log: &'a EventLog) -> (cursor: Self)
        ensures
            cursor.log() == log@,
            cursor.position() == 0,
    {
        EventCursor { log, position: 0 }
    }

    /// Hands out the next event; `None` stands for the end of the document,
    /// where the log has run out without a complaint.
    ///
    /// Fails, with the complaint of the log as a `SyntaxError`, where the
    /// log has run out and has one.
    pub fn next(&mut self) -> (pulled: Result<Option<&'a ParseEvent>, TranslationError>)
        ensures
            final(self).log() == old(self).log(),
            final(self).position() == advance(old(self).log(), old(self).position()),
            pulled_view(pulled) == pull(old(self).log(), old(self).position()),
    {
        let log: &'a EventLog = self.log;
        if self.position < log.events.len() {
            let event = &log.events[self.position];
            self.position = self.position + 1;
            Ok(Some(event))
        } else {
            match &log.failure {
                Some(message) => Err(TranslationError::SyntaxError(message.clone())),
                None => Ok(None),
            }
        }
    }

    /// Passes over the next `count` events, whatever they are.
    pub fn skip(&mut self, count: usize) -> (outcome: Result<(), TranslationError>)
        ensures
            final(self).log() == old(self).log(),
            skip_view(outcome, final(self).position()) == skipped(
                old(self).log(),
                old(self).position(),
                count as nat,
            ),
    {
        let mut done: usize = 0;
        while done < count
            invariant
                done <= count,
                self.log() == old(self).log(),
                skipped(old(self).log(), old(self).position(), count as nat) == skipped(
                    self.log(),
                    self.position(),
                    (count - done) as nat,
                ),
            decreases count - done,
        {
            match self.next() {
                Ok(_) => {},
                Err(error) => {
                    return Err(error);
                },
            }
            done = done + 1;
        }
        Ok(())
    }

    /// Hands out the text that the next event holds.
    ///
    /// Fails, with `MissingText`, where the next event is no text.
    pub fn next_text(&mut self) -> (text: Result<&'a str, TranslationError>)
        ensures
            final(self).log() == old(self).log(),
            final(self).position() == advance(old(self).log(), old(self).position()),
            text_view(text) == text_at(old(self).log(), old(self).position()),
    {
        match self.next() {
            Ok(Some(ParseEvent::Text(text))) => Ok(text.as_str()),
            Ok(_) => Err(TranslationError::StructuralError(Fault::MissingText)),
            Err(error) => Err(error),
        }
    }
}

} // verus!
