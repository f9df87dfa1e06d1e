//! What holds of every translation.

use vstd::prelude::*;
use crate::cursor::{advance, pull, skipped, text_or_empty};
use crate::date::{build_date, entry_date};
use crate::error::TranslationErrorView;
use crate::event::{
    first_value, AttributeView, EventLogView, OutputAttributeView, ParseEventView,
    QualifiedNameView, WriteEventView,
};
use crate::html::{canonical_url, video_id, ThumbnailInfoView};
use crate::rss::{
    bare_start, channel_head, channel_title, document_head, document_tail, item_head, item_tail,
    self_link, text_element,
};
use crate::shape::{
    channel_part, entries_from, entries_in, entries_part, entry_dates, entry_dates_from,
    entry_part, feed_title, header_part, is_entry_start, is_feed, is_self_link, is_start_of,
    is_whole_document, published_date, self_address, self_address_from, starts_named,
    texts_behind, title_from,
};
use crate::sink::{accepted, accepts, balanced, open_elements};
use crate::source::{stream_log, well_terminated};
use crate::text::{
    lemma_prefix_before_separator, lemma_prefix_without, lemma_suffix_after_separator,
    suffix_after_last,
};
use crate::transcoder::{
    channel_link, content_step, entry_step, prepend, run, silent, step,
    thumbnail_of, transcript, StepView, TranscoderState,
};

verus! {

/// The feed of a channel links to itself under the identifier of the
/// channel: what follows the last `=` in the address of its Atom feed.
pub proof fn self_link_names_the_channel(base_url: Seq<char>, address: Seq<char>, id: Seq<char>)
    requires
        !id.contains('='),
    ensures
        self_link(base_url, address.push('=') + id) == base_url + "/channel/"@ + id,
{
    lemma_suffix_after_separator(address, '=', id);
}

/// What stands behind the last `c` of a text stays behind it when a text
/// without `c` is added.
proof fn lemma_suffix_grows(s: Seq<char>, c: char, more: Seq<char>)
    requires
        !more.contains(c),
    ensures
        suffix_after_last(s + more, c) == suffix_after_last(s, c) + more,
    decreases more.len(),
{
    if more.len() == 0 {
        assert(s + more == s);
        assert(suffix_after_last(s, c) + more == suffix_after_last(s, c));
    } else {
        let shorter = more.drop_last();
        assert(more.contains(more.last())) by {
            assert(more[more.len() - 1] == more.last());
        }
        assert forall|x: char| shorter.contains(x) implies more.contains(x) by {
            let i = choose|i: int| 0 <= i < shorter.len() && shorter[i] == x;
            assert(more[i] == x);
        }
        lemma_suffix_grows(s, c, shorter);
        assert((s + more).drop_last() == s + shorter);
        assert((s + more).last() == more.last());
        assert((suffix_after_last(s, c) + shorter).push(more.last()) == suffix_after_last(s, c)
            + more);
    }
}

/// What stands behind the last `c` of a text holds only characters of the
/// text.
proof fn lemma_suffix_is_part(s: Seq<char>, c: char, x: char)
    requires
        !s.contains(x),
    ensures
        !suffix_after_last(s, c).contains(x),
    decreases s.len(),
{
    if s.len() == 0 || s.last() == c {
    } else {
        assert forall|y: char| s.drop_last().contains(y) implies s.contains(y) by {
            let i = choose|i: int| 0 <= i < s.drop_last().len() && s.drop_last()[i] == y;
            assert(s[i] == y);
        }
        lemma_suffix_is_part(s.drop_last(), c, x);
        let inner = suffix_after_last(s.drop_last(), c);
        let whole = inner.push(s.last());
        assert(s.contains(s.last())) by {
            assert(s[s.len() - 1] == s.last());
        }
        assert forall|i: int| 0 <= i < whole.len() implies whole[i] != x by {
            if i < inner.len() {
                assert(inner.contains(inner[i]));
            }
        }
    }
}

/// A query behind the address of a video changes neither the identifier of
/// the video nor its canonical address, as long as the query holds no `/`.
pub proof fn query_does_not_change_the_video(url: Seq<char>, query: Seq<char>)
    requires
        !url.contains('?'),
        !query.contains('/'),
    ensures
        video_id(url.push('?') + query) == video_id(url),
        canonical_url(url.push('?') + query) == url,
        canonical_url(url) == url,
{
    let name = suffix_after_last(url, '/');
    let tail = seq!['?'] + query;
    assert(url.push('?') + query == url + tail);
    assert forall|i: int| 0 <= i < tail.len() implies tail[i] != '/' by {
        if i > 0 {
            assert(query.contains(query[i - 1]));
        }
    }
    lemma_suffix_grows(url, '/', tail);
    lemma_suffix_is_part(url, '/', '?');
    assert(name + tail == name.push('?') + query);
    lemma_prefix_before_separator(name, '?', query);
    lemma_prefix_without(name, '?');
    lemma_prefix_before_separator(url, '?', query);
    lemma_prefix_without(url, '?');
}

/// The title of the channel is written twice, letter for letter: as the
/// title of the RSS channel and as its description.
pub proof fn channel_title_is_kept(title: Seq<char>)
    ensures
        channel_title(title).len() == 8,
        channel_title(title)[0] == bare_start("title"@),
        channel_title(title)[1] == WriteEventView::Text(title),
        channel_title(title)[4] == bare_start("description"@),
        channel_title(title)[5] == WriteEventView::Text(title),
{
}

/// A `media:title` inside an entry writes nothing and reads nothing more:
/// the title of an item comes from the `title` of the entry alone.
pub proof fn media_title_writes_nothing(
    log: EventLogView,
    at: nat,
    name: QualifiedNameView,
    attributes: Seq<AttributeView>,
)
    requires
        name.local_name == "title"@,
        name.prefix == Some("media"@),
    ensures
        entry_step(log, at, name, attributes) == silent(TranscoderState::VideoEntry, at),
{
}

/// A document that declares another encoding than UTF-8 is refused with an
/// `EncodingError` at its very start: nothing of it is translated.
pub proof fn other_encoding_is_refused(
    log: EventLogView,
    base_url: Seq<char>,
    now: int,
    version: Seq<char>,
    encoding: Seq<char>,
)
    requires
        log.events.len() > 0,
        log.events[0] == (ParseEventView::StartDocument { version, encoding }),
        encoding != "UTF-8"@,
    ensures
        transcript(log, base_url, now) == Err::<Seq<WriteEventView>, TranslationErrorView>(
            TranslationErrorView::EncodingError(encoding),
        ),
{
}

/// The states of the transcoder follow the order in which a feed is read:
/// a step keeps the state or leads to a later one, but for the step that
/// closes an entry, which leads back between the entries.
pub proof fn states_follow_the_feed(
    log: EventLogView,
    at: nat,
    state: TranscoderState,
    event: ParseEventView,
    base_url: Seq<char>,
    now: int,
)
    ensures
        step(log, at, state, event, base_url, now) matches Ok(next) ==> {
            ||| state.rank() <= next.state.rank()
            ||| (state == TranscoderState::VideoEntry && next.state
                == TranscoderState::VideoEntries)
        },
{
}

/// Whether the transcoder, from `position` in `state` on, takes every step
/// on the events of the log without an error.
pub open spec fn steps_succeed(
    log: EventLogView,
    position: nat,
    state: TranscoderState,
    base_url: Seq<char>,
    now: int,
) -> bool
    decreases log.events.len() - position,
{
    if position >= log.events.len() {
        true
    } else {
        match step(log, advance(log, position), state, log.events[position as int], base_url, now) {
            Ok(next) => {
                &&& position < next.position <= log.events.len()
                &&& steps_succeed(log, next.position, next.state, base_url, now)
            },
            Err(_) => false,
        }
    }
}

/// Whether an outcome is an error, and the complaint `message` of the
/// parser where it is a `SyntaxError`.
pub open spec fn is_refused_with(
    outcome: Result<Seq<WriteEventView>, TranslationErrorView>,
    message: Seq<char>,
) -> bool {
    &&& outcome matches Err(error)
    &&& error is SyntaxError ==> error == TranslationErrorView::SyntaxError(message)
}

/// From a log that the parser closed with a complaint, nothing is
/// translated, from whatever place and state; where no step fails, the
/// error is the complaint.
proof fn lemma_complaint_ends_run(
    log: EventLogView,
    position: nat,
    state: TranscoderState,
    base_url: Seq<char>,
    now: int,
)
    requires
        log.failure is Some,
        position <= log.events.len(),
        forall|i: int| 0 <= i < log.events.len() ==> !(#[trigger] log.events[i] is EndDocument),
    ensures
        is_refused_with(run(log, position, state, base_url, now), log.failure->0),
        steps_succeed(log, position, state, base_url, now) ==> run(
            log,
            position,
            state,
            base_url,
            now,
        ) == Err::<Seq<WriteEventView>, TranslationErrorView>(
            TranslationErrorView::SyntaxError(log.failure->0),
        ),
    decreases log.events.len() - position,
{
    if position < log.events.len() {
        let event = log.events[position as int];
        let at = advance(log, position);
        match step(log, at, state, event, base_url, now) {
            Ok(next) => {
                if position < next.position <= log.events.len() {
                    lemma_complaint_ends_run(log, next.position, next.state, base_url, now);
                }
            },
            Err(error) => {
                lemma_skipped_complaint(log, at, 2);
                match skipped(log, at, 2) {
                    Ok(third_at) => {
                        lemma_skipped_complaint(log, advance(log, third_at), 3);
                    },
                    Err(_) => {},
                }
            },
        }
    }
}

/// The only `SyntaxError` that passing over events yields is the complaint
/// of the log.
proof fn lemma_skipped_complaint(log: EventLogView, position: nat, count: nat)
    ensures
        skipped(log, position, count) matches Err(error) ==> log.failure matches Some(message)
            && error == TranslationErrorView::SyntaxError(message),
    decreases count,
{
    if count > 0 {
        lemma_skipped_complaint(log, advance(log, position), (count - 1) as nat);
    }
}

/// A document that is not well-formed XML yields an error and no part of a
/// translation: where the parser ends its report with a complaint, the
/// transcoder writes no events at all. The error is a `SyntaxError` with
/// the complaint, unless a step on an event before the complaint fails; no
/// other `SyntaxError` comes.
pub proof fn malformed_document_is_not_translated(
    stream: Seq<Result<crate::source::ReportedView, Seq<char>>>,
    base_url: Seq<char>,
    now: int,
)
    requires
        well_terminated(stream),
        stream.last() is Err,
    ensures
        is_refused_with(transcript(stream_log(stream), base_url, now), stream.last()->Err_0),
        steps_succeed(stream_log(stream), 0, TranscoderState::Initial, base_url, now)
            ==> transcript(stream_log(stream), base_url, now) == Err::<
            Seq<WriteEventView>,
            TranslationErrorView,
        >(TranslationErrorView::SyntaxError(stream.last()->Err_0)),
{
    let log = stream_log(stream);
    assert forall|i: int| 0 <= i < log.events.len() implies !(#[trigger] log.events[i]
        is EndDocument) by {
        assert(!crate::source::is_final(stream[i]));
    }
    lemma_complaint_ends_run(log, 0, TranscoderState::Initial, base_url, now);
}

/// A text that is not well-formed XML has no translation: the outcome is an
/// error, and it is a `SyntaxError` with the complaint of the parser unless
/// a step on an event before the complaint fails.
pub proof fn malformed_text_has_no_translation(text: Seq<char>, base_url: Seq<char>, now: int)
    requires
        well_terminated(crate::source::document_events(text)),
        crate::source::document_events(text).last() is Err,
    ensures
        crate::translation(text, base_url, now) matches Err(error) && (error is SyntaxError
            ==> error == TranslationErrorView::SyntaxError(
            crate::source::document_events(text).last()->Err_0,
        )),
        steps_succeed(
            stream_log(crate::source::document_events(text)),
            0,
            TranscoderState::Initial,
            base_url,
            now,
        ) ==> crate::translation(text, base_url, now) == Err::<Seq<char>, TranslationErrorView>(
            TranslationErrorView::SyntaxError(crate::source::document_events(text).last()->Err_0),
        ),
{
    malformed_document_is_not_translated(crate::source::document_events(text), base_url, now);
}

/// Whether two runs of events differ at `i` as two translations of one
/// feed at two build times may: in the text of the build date.
pub open spec fn differ_in_build_date(
    first: Seq<WriteEventView>,
    second: Seq<WriteEventView>,
    first_date: Seq<char>,
    second_date: Seq<char>,
    i: int,
) -> bool {
    &&& 1 <= i < first.len()
    &&& first[i - 1] == bare_start("lastBuildDate"@)
    &&& second[i - 1] == bare_start("lastBuildDate"@)
    &&& first[i] == WriteEventView::Text(first_date)
    &&& second[i] == WriteEventView::Text(second_date)
}

/// Whether two runs of events are the same but for the text of the build
/// date.
pub open spec fn same_but_build_date(
    first: Seq<WriteEventView>,
    second: Seq<WriteEventView>,
    first_date: Seq<char>,
    second_date: Seq<char>,
) -> bool {
    &&& first.len() == second.len()
    &&& forall|i: int|
        0 <= i < first.len() ==> #[trigger] first[i] == second[i] || differ_in_build_date(
            first,
            second,
            first_date,
            second_date,
            i,
        )
}

/// Whether two outcomes are the same but for the text of the build date.
pub open spec fn same_outcome_but_build_date(
    first: Result<Seq<WriteEventView>, TranslationErrorView>,
    second: Result<Seq<WriteEventView>, TranslationErrorView>,
    first_date: Seq<char>,
    second_date: Seq<char>,
) -> bool {
    match (first, second) {
        (Ok(a), Ok(b)) => same_but_build_date(a, b, first_date, second_date),
        (Err(e), Err(f)) => e == f,
        _ => false,
    }
}

/// Runs that are the same but for the build date stay so when they are
/// joined.
proof fn lemma_same_joined(
    a: Seq<WriteEventView>,
    b: Seq<WriteEventView>,
    c: Seq<WriteEventView>,
    d: Seq<WriteEventView>,
    first_date: Seq<char>,
    second_date: Seq<char>,
)
    requires
        same_but_build_date(a, b, first_date, second_date),
        same_but_build_date(c, d, first_date, second_date),
    ensures
        same_but_build_date(a + c, b + d, first_date, second_date),
{
    let first = a + c;
    let second = b + d;
    assert forall|i: int| 0 <= i < first.len() implies #[trigger] first[i] == second[i]
        || differ_in_build_date(first, second, first_date, second_date, i) by {
        if i < a.len() {
            assert(first[i] == a[i]);
            assert(second[i] == b[i]);
            if a[i] != b[i] {
                assert(differ_in_build_date(a, b, first_date, second_date, i));
                assert(first[i - 1] == a[i - 1]);
                assert(second[i - 1] == b[i - 1]);
            }
        } else {
            let j = i - a.len();
            assert(first[i] == c[j]);
            assert(second[i] == d[j]);
            if c[j] != d[j] {
                assert(differ_in_build_date(c, d, first_date, second_date, j));
                assert(first[i - 1] == c[j - 1]);
                assert(second[i - 1] == d[j - 1]);
            }
        }
    }
}

/// From any place and state on, the build time shows in the build date
/// only.
proof fn lemma_build_time_in_run(
    log: EventLogView,
    position: nat,
    state: TranscoderState,
    base_url: Seq<char>,
    first_time: int,
    second_time: int,
)
    requires
        build_date(first_time) is Ok,
        build_date(second_time) is Ok,
    ensures
        same_outcome_but_build_date(
            run(log, position, state, base_url, first_time),
            run(log, position, state, base_url, second_time),
            build_date(first_time)->Ok_0,
            build_date(second_time)->Ok_0,
        ),
    decreases log.events.len() - position,
{
    let first_date = build_date(first_time)->Ok_0;
    let second_date = build_date(second_time)->Ok_0;
    let first = run(log, position, state, base_url, first_time);
    let second = run(log, position, state, base_url, second_time);
    match pull(log, position) {
        Ok(event) => {
            if event is EndDocument {
                match first {
                    Ok(a) => {
                        assert(same_but_build_date(a, a, first_date, second_date));
                    },
                    Err(_) => {},
                }
            } else {
                let at = advance(log, position);
                let one = step(log, at, state, event, base_url, first_time);
                let two = step(log, at, state, event, base_url, second_time);
                match (one, two) {
                    (Ok(s), Ok(t)) => {
                        assert(s.state == t.state && s.position == t.position);
                        assert(same_but_build_date(s.emitted, t.emitted, first_date, second_date))
                            by {
                            if s.emitted != t.emitted {
                                assert(s.emitted == text_element("lastBuildDate"@, first_date));
                                assert(t.emitted == text_element("lastBuildDate"@, second_date));
                                assert forall|i: int| 0 <= i < s.emitted.len() implies
                                    #[trigger] s.emitted[i] == t.emitted[i]
                                    || differ_in_build_date(
                                    s.emitted,
                                    t.emitted,
                                    first_date,
                                    second_date,
                                    i,
                                ) by {}
                            }
                        }
                        if position < s.position <= log.events.len() {
                            lemma_build_time_in_run(
                                log,
                                s.position,
                                s.state,
                                base_url,
                                first_time,
                                second_time,
                            );
                            let rest_one = run(log, s.position, s.state, base_url, first_time);
                            let rest_two = run(log, s.position, s.state, base_url, second_time);
                            match (rest_one, rest_two) {
                                (Ok(c), Ok(d)) => {
                                    lemma_same_joined(
                                        s.emitted,
                                        t.emitted,
                                        c,
                                        d,
                                        first_date,
                                        second_date,
                                    );
                                },
                                _ => {},
                            }
                        }
                    },
                    (Err(e), Err(f)) => {
                        assert(e == f);
                    },
                    _ => {
                        assert(false);
                    },
                }
            }
        },
        Err(_) => {},
    }
}

/// Two translations of one feed at two build times are the same but for the
/// text of `lastBuildDate`, which is the date of each build time: the build
/// date comes from the clock, and nothing else does.
pub proof fn build_time_shows_in_build_date_only(
    log: EventLogView,
    base_url: Seq<char>,
    first_time: int,
    second_time: int,
)
    requires
        build_date(first_time) is Ok,
        build_date(second_time) is Ok,
    ensures
        same_outcome_but_build_date(
            transcript(log, base_url, first_time),
            transcript(log, base_url, second_time),
            build_date(first_time)->Ok_0,
            build_date(second_time)->Ok_0,
        ),
{
    lemma_build_time_in_run(
        log,
        0,
        TranscoderState::Initial,
        base_url,
        first_time,
        second_time,
    );
}

/// How many elements are open behind `events`, written with `depth`
/// elements open before them; `None` where a closing tag among them has
/// nothing to close, or where they hold a declaration.
spec fn balance(events: Seq<WriteEventView>, depth: int) -> Option<int>
    decreases events.len(),
{
    if events.len() == 0 {
        Some(depth)
    } else {
        match events[0] {
            WriteEventView::StartDocument { .. } => None,
            WriteEventView::StartElement { .. } => balance(events.drop_first(), depth + 1),
            WriteEventView::EndElement => if depth > 0 {
                balance(events.drop_first(), depth - 1)
            } else {
                None
            },
            _ => balance(events.drop_first(), depth),
        }
    }
}

/// The balance of two runs of events is that of the second behind the
/// first.
proof fn lemma_balance_join(a: Seq<WriteEventView>, b: Seq<WriteEventView>, depth: int)
    ensures
        balance(a + b, depth) == match balance(a, depth) {
            Some(d) => balance(b, d),
            None => None,
        },
    decreases a.len(),
{
    if a.len() == 0 {
        assert(a + b == b);
    } else {
        assert((a + b)[0] == a[0]);
        assert((a + b).drop_first() == a.drop_first() + b);
        match a[0] {
            WriteEventView::StartDocument { .. } => {},
            WriteEventView::StartElement { .. } => {
                lemma_balance_join(a.drop_first(), b, depth + 1);
            },
            WriteEventView::EndElement => {
                if depth > 0 {
                    lemma_balance_join(a.drop_first(), b, depth - 1);
                }
            },
            _ => {
                lemma_balance_join(a.drop_first(), b, depth);
            },
        }
    }
}

/// Events that balance behind events that a writer takes are taken too,
/// and leave open what their balance says.
proof fn lemma_balance_accepted(prior: Seq<WriteEventView>, events: Seq<WriteEventView>)
    requires
        prior.len() > 0,
        accepted(prior),
        balance(events, open_elements(prior)) is Some,
    ensures
        accepted(prior + events),
        open_elements(prior + events) == balance(events, open_elements(prior))->0,
    decreases events.len(),
{
    if events.len() == 0 {
        assert(prior + events == prior);
    } else {
        let next = prior.push(events[0]);
        assert(next.drop_last() == prior);
        assert forall|i: int| 0 <= i < next.len() implies accepts(
            #[trigger] next.take(i),
            next[i],
        ) by {
            if i < prior.len() {
                assert(next.take(i) == prior.take(i));
            } else {
                assert(next.take(i) == prior);
            }
        }
        assert(prior + events == next + events.drop_first());
        lemma_balance_accepted(next, events.drop_first());
    }
}

/// The elements that two runs of events open are those of the one and
/// those of the other.
proof fn lemma_starts_join(a: Seq<WriteEventView>, b: Seq<WriteEventView>, name: Seq<char>)
    ensures
        starts_named(a + b, name) == starts_named(a, name) + starts_named(b, name),
    decreases a.len(),
{
    if a.len() == 0 {
        assert(a + b == b);
    } else {
        assert((a + b)[0] == a[0]);
        assert((a + b).drop_first() == a.drop_first() + b);
        lemma_starts_join(a.drop_first(), b, name);
    }
}

/// The names that the transcoder reads and writes differ from those that
/// count.
proof fn lemma_names()
    ensures
        "item"@ != "channel"@,
        "rss"@ != "item"@,
        "rss"@ != "channel"@,
        "atom:link"@ != "item"@,
        "atom:link"@ != "channel"@,
        "link"@ != "item"@,
        "link"@ != "channel"@,
        "title"@ != "item"@,
        "title"@ != "channel"@,
        "description"@ != "item"@,
        "description"@ != "channel"@,
        "lastBuildDate"@ != "item"@,
        "lastBuildDate"@ != "channel"@,
        "pubDate"@ != "item"@,
        "pubDate"@ != "channel"@,
        "guid"@ != "item"@,
        "guid"@ != "channel"@,
        "feed"@ != "entry"@,
        "link"@ != "entry"@,
        "title"@ != "entry"@,
        "published"@ != "entry"@,
        "content"@ != "entry"@,
{
    reveal_strlit("item");
    reveal_strlit("channel");
    reveal_strlit("rss");
    reveal_strlit("atom:link");
    reveal_strlit("link");
    reveal_strlit("title");
    reveal_strlit("description");
    reveal_strlit("lastBuildDate");
    reveal_strlit("pubDate");
    reveal_strlit("guid");
    reveal_strlit("feed");
    reveal_strlit("entry");
    reveal_strlit("published");
    reveal_strlit("content");
    assert("link"@[0] != "item"@[0]);
    assert("guid"@[0] != "item"@[0]);
    assert("pubDate"@[0] != "channel"@[0]);
    assert("title"@[0] != "entry"@[0]);
}

/// What an element that holds text opens and leaves open.
proof fn lemma_text_element(name: Seq<char>, text: Seq<char>, depth: int)
    requires
        depth >= 0,
    ensures
        balance(text_element(name, text), depth) == Some(depth),
        name != "item"@ ==> starts_named(text_element(name, text), "item"@) == 0,
        name != "channel"@ ==> starts_named(text_element(name, text), "channel"@) == 0,
{
    let e0 = text_element(name, text);
    let e1 = e0.drop_first();
    let e2 = e1.drop_first();
    let e3 = e2.drop_first();
    let e4 = e3.drop_first();
    assert(e1[0] == e0[1] && e2[0] == e0[2] && e3[0] == e0[3] && e4.len() == 0);
    reveal_with_fuel(balance, 6);
    reveal_with_fuel(starts_named, 6);
}

/// What the opening of the channel opens and leaves open.
proof fn lemma_channel_head(base_url: Seq<char>, href: Seq<char>, depth: int)
    requires
        depth >= 0,
    ensures
        balance(channel_head(base_url, href), depth) == Some(depth + 1),
        starts_named(channel_head(base_url, href), "item"@) == 0,
        starts_named(channel_head(base_url, href), "channel"@) == 1,
{
    lemma_names();
    let e0 = channel_head(base_url, href);
    let e1 = e0.drop_first();
    let e2 = e1.drop_first();
    let e3 = e2.drop_first();
    let e4 = e3.drop_first();
    let e5 = e4.drop_first();
    assert(e1[0] == e0[1] && e2[0] == e0[2] && e3[0] == e0[3] && e4[0] == e0[4] && e5.len()
        == 0);
    reveal_with_fuel(balance, 7);
    reveal_with_fuel(starts_named, 7);
}

/// What the pieces of a document open and leave open.
proof fn lemma_pieces(depth: int)
    requires
        depth >= 0,
    ensures
        forall|name: Seq<char>, text: Seq<char>|
            #![trigger text_element(name, text)]
            balance(text_element(name, text), depth) == Some(depth) && (name != "item"@
                ==> starts_named(text_element(name, text), "item"@) == 0) && (name != "channel"@
                ==> starts_named(text_element(name, text), "channel"@) == 0),
        balance(item_head(), depth) == Some(depth + 1),
        starts_named(item_head(), "item"@) == 1,
        starts_named(item_head(), "channel"@) == 0,
        balance(Seq::<WriteEventView>::empty(), depth) == Some(depth),
        starts_named(Seq::<WriteEventView>::empty(), "item"@) == 0,
        starts_named(Seq::<WriteEventView>::empty(), "channel"@) == 0,
        depth >= 2 ==> balance(document_tail(), depth) == Some(depth - 2),
        depth < 2 ==> balance(document_tail(), depth) is None,
        starts_named(document_tail(), "item"@) == 0,
        starts_named(document_tail(), "channel"@) == 0,
        forall|base_url: Seq<char>, href: Seq<char>|
            #![trigger channel_head(base_url, href)]
            balance(channel_head(base_url, href), depth) == Some(depth + 1) && starts_named(
                channel_head(base_url, href),
                "item"@,
            ) == 0 && starts_named(channel_head(base_url, href), "channel"@) == 1,
{
    lemma_names();
    assert forall|name: Seq<char>, text: Seq<char>| #![trigger text_element(name, text)]
        balance(text_element(name, text), depth) == Some(depth) && (name != "item"@
            ==> starts_named(text_element(name, text), "item"@) == 0) && (name != "channel"@
            ==> starts_named(text_element(name, text), "channel"@) == 0) by {
        lemma_text_element(name, text, depth);
    }
    assert forall|base_url: Seq<char>, href: Seq<char>| #![trigger channel_head(base_url, href)]
        balance(channel_head(base_url, href), depth) == Some(depth + 1) && starts_named(
            channel_head(base_url, href),
            "item"@,
        ) == 0 && starts_named(channel_head(base_url, href), "channel"@) == 1 by {
        lemma_channel_head(base_url, href, depth);
    }
    let head = item_head();
    assert(head.drop_first()[0] == head[1] && head.drop_first().drop_first().len() == 0);
    let tail = document_tail();
    assert(tail.drop_first()[0] == tail[1] && tail.drop_first().drop_first().len() == 0);
    reveal_with_fuel(balance, 4);
    reveal_with_fuel(starts_named, 4);
}

/// What the pieces that are made of pieces open and leave open.
proof fn lemma_joined_pieces(depth: int)
    requires
        depth >= 0,
    ensures
        forall|title: Seq<char>|
            #![trigger channel_title(title)]
            balance(channel_title(title), depth) == Some(depth) && starts_named(
                channel_title(title),
                "item"@,
            ) == 0 && starts_named(channel_title(title), "channel"@) == 0,
        forall|url: Seq<char>, thumbnail: ThumbnailInfoView, description: Seq<char>|
            #![trigger item_tail(url, thumbnail, description)]
            (depth >= 1 ==> balance(item_tail(url, thumbnail, description), depth) == Some(
                depth - 1,
            )) && (depth == 0 ==> balance(item_tail(url, thumbnail, description), depth)
                is None) && starts_named(item_tail(url, thumbnail, description), "item"@) == 0
                && starts_named(item_tail(url, thumbnail, description), "channel"@) == 0,
{
    lemma_names();
    lemma_pieces(depth);
    assert forall|title: Seq<char>| #![trigger channel_title(title)]
        balance(channel_title(title), depth) == Some(depth) && starts_named(
            channel_title(title),
            "item"@,
        ) == 0 && starts_named(channel_title(title), "channel"@) == 0 by {
        let a = text_element("title"@, title);
        let b = text_element("description"@, title);
        lemma_balance_join(a, b, depth);
        lemma_starts_join(a, b, "item"@);
        lemma_starts_join(a, b, "channel"@);
    }
    assert forall|url: Seq<char>, thumbnail: ThumbnailInfoView, description: Seq<char>|
        #![trigger item_tail(url, thumbnail, description)]
        (depth >= 1 ==> balance(item_tail(url, thumbnail, description), depth) == Some(
            depth - 1,
        )) && (depth == 0 ==> balance(item_tail(url, thumbnail, description), depth) is None)
            && starts_named(item_tail(url, thumbnail, description), "item"@) == 0
            && starts_named(item_tail(url, thumbnail, description), "channel"@) == 0 by {
        let a = text_element("guid"@, canonical_url(url));
        let b = text_element(
            "description"@,
            crate::html::description_html(thumbnail, description, video_id(url)),
        );
        let c = seq![WriteEventView::EndElement];
        reveal_with_fuel(balance, 2);
        reveal_with_fuel(starts_named, 2);
        lemma_balance_join(a, b, depth);
        lemma_balance_join(a + b, c, depth);
        lemma_starts_join(a, b, "item"@);
        lemma_starts_join(a + b, c, "item"@);
        lemma_starts_join(a, b, "channel"@);
        lemma_starts_join(a + b, c, "channel"@);
    }
}

/// Whether an outcome is a run of events that closes what is open at
/// `depth` and opens so many channels and items.
spec fn translated(
    outcome: Result<Seq<WriteEventView>, TranslationErrorView>,
    depth: int,
    channels: int,
    items: int,
) -> bool {
    &&& outcome matches Ok(events)
    &&& balance(events, depth) == Some(0int)
    &&& starts_named(events, "channel"@) == channels
    &&& starts_named(events, "item"@) == items
}

/// What is translated behind a piece is translated with the piece before
/// it.
proof fn lemma_piece_then(
    piece: Seq<WriteEventView>,
    rest: Result<Seq<WriteEventView>, TranslationErrorView>,
    depth: int,
    after: int,
    channels: int,
    items: int,
)
    requires
        balance(piece, depth) == Some(after),
        translated(rest, after, channels, items),
    ensures
        translated(
            prepend(piece, rest),
            depth,
            channels + starts_named(piece, "channel"@),
            items + starts_named(piece, "item"@),
        ),
{
    let events = rest->Ok_0;
    lemma_balance_join(piece, events, depth);
    lemma_starts_join(piece, events, "channel"@);
    lemma_starts_join(piece, events, "item"@);
}

/// Between entries, a feed of the right shape is translated to its end,
/// item by item.
proof fn lemma_entries_translated(log: EventLogView, position: nat, base_url: Seq<char>, now: int)
    requires
        entries_part(log, position),
        position <= log.events.len(),
    ensures
        translated(
            run(log, position, TranscoderState::VideoEntries, base_url, now),
            2,
            0,
            entries_from(log.events, position) as int,
        ),
    decreases log.events.len() - position, 1nat,
{
    lemma_names();
    lemma_pieces(2);
    let state = TranscoderState::VideoEntries;
    if position < log.events.len() {
        match log.events[position as int] {
            ParseEventView::StartDocument { .. } => {},
            ParseEventView::EndDocument => {
                assert(entries_from(log.events, position + 1) == 0);
            },
            ParseEventView::StartElement { name, .. } => {
                if name.local_name == "entry"@ {
                    lemma_entry_translated(log, position + 1, base_url, now);
                    lemma_piece_then(
                        item_head(),
                        run(log, position + 1, TranscoderState::VideoEntry, base_url, now),
                        2,
                        3,
                        0,
                        entries_from(log.events, position + 1) as int,
                    );
                } else {
                    lemma_entries_translated(log, position + 1, base_url, now);
                    lemma_piece_then(
                        Seq::empty(),
                        run(log, position + 1, state, base_url, now),
                        2,
                        2,
                        0,
                        entries_from(log.events, position + 1) as int,
                    );
                }
            },
            _ => {
                lemma_entries_translated(log, position + 1, base_url, now);
                lemma_piece_then(
                    Seq::empty(),
                    run(log, position + 1, state, base_url, now),
                    2,
                    2,
                    0,
                    entries_from(log.events, position + 1) as int,
                );
            },
        }
    }
}

/// Inside an entry, a feed of the right shape is translated to its end,
/// item by item.
proof fn lemma_entry_translated(log: EventLogView, position: nat, base_url: Seq<char>, now: int)
    requires
        entry_part(log, position),
        position <= log.events.len(),
    ensures
        translated(
            run(log, position, TranscoderState::VideoEntry, base_url, now),
            3,
            0,
            entries_from(log.events, position) as int,
        ),
    decreases log.events.len() - position, 0nat,
{
    lemma_names();
    lemma_pieces(3);
    lemma_joined_pieces(3);
    let state = TranscoderState::VideoEntry;
    let one = (position + 1) as nat;
    let two = (position + 2) as nat;
    match log.events[position as int] {
        ParseEventView::StartElement { name, attributes } => {
            if name.local_name == "title"@ {
                if name.prefix == Some("media"@) {
                    lemma_entry_translated(log, one, base_url, now);
                    lemma_piece_then(
                        Seq::empty(),
                        run(log, one, state, base_url, now),
                        3,
                        3,
                        0,
                        entries_from(log.events, one) as int,
                    );
                } else {
                    let title = log.events[position as int + 1]->Text_0;
                    assert(!is_entry_start(log.events[position as int + 1]));
                    assert(entries_from(log.events, one) == entries_from(log.events, two));
                    lemma_entry_translated(log, two, base_url, now);
                    lemma_piece_then(
                        text_element("title"@, title),
                        run(log, two, state, base_url, now),
                        3,
                        3,
                        0,
                        entries_from(log.events, two) as int,
                    );
                }
            } else if name.local_name == "link"@ {
                let href = first_value(attributes, "href"@)->0;
                lemma_entry_translated(log, one, base_url, now);
                lemma_piece_then(
                    text_element("link"@, href),
                    run(log, one, state, base_url, now),
                    3,
                    3,
                    0,
                    entries_from(log.events, one) as int,
                );
            } else if name.local_name == "published"@ {
                let text = log.events[position as int + 1]->Text_0;
                let date = entry_date(text)->Ok_0;
                assert(!is_entry_start(log.events[position as int + 1]));
                assert(entries_from(log.events, one) == entries_from(log.events, two));
                lemma_entry_translated(log, two, base_url, now);
                lemma_piece_then(
                    text_element("pubDate"@, date),
                    run(log, two, state, base_url, now),
                    3,
                    3,
                    0,
                    entries_from(log.events, two) as int,
                );
            } else if name.local_name == "content"@ {
                let behind = (position + 8) as nat;
                let url = first_value(attributes, "url"@)->0;
                let thumbnail = thumbnail_of(log.events[position as int + 3])->0;
                let description = text_or_empty(log.events[position as int + 7]);
                assert(skipped(log, one, 2) == Ok::<nat, TranslationErrorView>(
                    (position + 3) as nat,
                )) by {
                    reveal_with_fuel(skipped, 3);
                }
                assert(skipped(log, (position + 4) as nat, 3) == Ok::<nat, TranslationErrorView>(
                    (position + 7) as nat,
                )) by {
                    reveal_with_fuel(skipped, 4);
                }
                assert(content_step(log, one, attributes) == Ok::<StepView, TranslationErrorView>(
                    StepView {
                        state: TranscoderState::VideoEntries,
                        emitted: item_tail(url, thumbnail, description),
                        position: behind,
                    },
                ));
                assert(entries_from(log.events, one) == entries_from(log.events, behind)) by {
                    lemma_no_entries_between(log.events, one, behind);
                }
                lemma_entries_translated(log, behind, base_url, now);
                lemma_piece_then(
                    item_tail(url, thumbnail, description),
                    run(log, behind, TranscoderState::VideoEntries, base_url, now),
                    3,
                    2,
                    0,
                    entries_from(log.events, behind) as int,
                );
            } else {
                lemma_entry_translated(log, one, base_url, now);
                lemma_piece_then(
                    Seq::empty(),
                    run(log, one, state, base_url, now),
                    3,
                    3,
                    0,
                    entries_from(log.events, one) as int,
                );
            }
        },
        ParseEventView::StartDocument { .. } => {},
        ParseEventView::EndDocument => {},
        _ => {
            lemma_entry_translated(log, one, base_url, now);
            lemma_piece_then(
                Seq::empty(),
                run(log, one, state, base_url, now),
                3,
                3,
                0,
                entries_from(log.events, one) as int,
            );
        },
    }
}

/// Where no event between two places opens an entry, as many entries
/// follow from the one as from the other.
proof fn lemma_no_entries_between(events: Seq<ParseEventView>, from: nat, to: nat)
    requires
        from <= to <= events.len(),
        forall|k: int| from <= k < to ==> !is_entry_start(#[trigger] events[k]),
    ensures
        entries_from(events, from) == entries_from(events, to),
    decreases to - from,
{
    if from < to {
        assert(!is_entry_start(events[from as int]));
        lemma_no_entries_between(events, from + 1, to);
    }
}

/// In the part of the channel, a feed of the right shape is translated to
/// its end, with one channel.
proof fn lemma_channel_translated(
    log: EventLogView,
    position: nat,
    links: nat,
    base_url: Seq<char>,
    now: int,
)
    requires
        channel_part(log, position, links),
        build_date(now) is Ok,
        position <= log.events.len(),
        links <= 1,
    ensures
        translated(
            run(log, position, TranscoderState::ChannelInfo, base_url, now),
            1 + links as int,
            1 - links as int,
            entries_from(log.events, position) as int,
        ),
    decreases log.events.len() - position,
{
    lemma_names();
    let depth: int = 1 + links as int;
    lemma_pieces(depth);
    lemma_joined_pieces(depth);
    let state = TranscoderState::ChannelInfo;
    let one = (position + 1) as nat;
    let two = (position + 2) as nat;
    match log.events[position as int] {
        ParseEventView::StartElement { name, attributes } => {
            if name.local_name == "link"@ {
                let rel = first_value(attributes, "rel"@)->0;
                let href = first_value(attributes, "href"@)->0;
                if rel == "self"@ {
                    lemma_channel_translated(log, one, 1, base_url, now);
                    lemma_piece_then(
                        channel_head(base_url, href),
                        run(log, one, state, base_url, now),
                        1,
                        2,
                        0,
                        entries_from(log.events, one) as int,
                    );
                } else {
                    lemma_channel_translated(log, one, links, base_url, now);
                    lemma_piece_then(
                        crate::transcoder::channel_link(rel, href, base_url),
                        run(log, one, state, base_url, now),
                        depth,
                        depth,
                        1 - links,
                        entries_from(log.events, one) as int,
                    );
                }
            } else if name.local_name == "title"@ {
                let title = log.events[position as int + 1]->Text_0;
                assert(!is_entry_start(log.events[position as int + 1]));
                assert(entries_from(log.events, one) == entries_from(log.events, two));
                lemma_channel_translated(log, two, links, base_url, now);
                lemma_piece_then(
                    channel_title(title),
                    run(log, two, state, base_url, now),
                    depth,
                    depth,
                    1 - links,
                    entries_from(log.events, two) as int,
                );
            } else if name.local_name == "published"@ {
                let date = build_date(now)->Ok_0;
                assert(!is_entry_start(log.events[position as int + 1]));
                assert(entries_from(log.events, one) == entries_from(log.events, two));
                lemma_entries_translated(log, two, base_url, now);
                lemma_piece_then(
                    text_element("lastBuildDate"@, date),
                    run(log, two, TranscoderState::VideoEntries, base_url, now),
                    2,
                    2,
                    0,
                    entries_from(log.events, two) as int,
                );
            } else {
                lemma_channel_translated(log, one, links, base_url, now);
                lemma_piece_then(
                    Seq::empty(),
                    run(log, one, state, base_url, now),
                    depth,
                    depth,
                    1 - links,
                    entries_from(log.events, one) as int,
                );
            }
        },
        ParseEventView::StartDocument { .. } => {},
        ParseEventView::EndDocument => {},
        _ => {
            lemma_channel_translated(log, one, links, base_url, now);
            lemma_piece_then(
                Seq::empty(),
                run(log, one, state, base_url, now),
                depth,
                depth,
                1 - links,
                entries_from(log.events, one) as int,
            );
        },
    }
}

/// Whether an outcome is a whole document with one channel and so many
/// items.
pub open spec fn is_whole_feed(
    outcome: Result<Seq<WriteEventView>, TranslationErrorView>,
    items: nat,
) -> bool {
    &&& outcome matches Ok(events)
    &&& is_whole_document(events)
    &&& starts_named(events, "channel"@) == 1
    &&& starts_named(events, "item"@) == items
}

/// Before the root element, a feed of the right shape is translated into a
/// whole document.
proof fn lemma_header_translated(log: EventLogView, position: nat, base_url: Seq<char>, now: int)
    requires
        header_part(log, position),
        build_date(now) is Ok,
        position <= log.events.len(),
    ensures
        is_whole_feed(
            run(log, position, TranscoderState::Header, base_url, now),
            entries_from(log.events, position),
        ),
    decreases log.events.len() - position,
{
    lemma_names();
    let state = TranscoderState::Header;
    let one = (position + 1) as nat;
    match log.events[position as int] {
        ParseEventView::StartElement { name, .. } => {
            lemma_channel_translated(log, one, 0, base_url, now);
            let rest = run(log, one, TranscoderState::ChannelInfo, base_url, now)->Ok_0;
            let head = document_head();
            let whole = head + rest;
            assert(accepted(head)) by {
                assert forall|i: int| 0 <= i < head.len() implies accepts(
                    #[trigger] head.take(i),
                    head[i],
                ) by {
                    if i == 0 {
                        assert(head.take(0).len() == 0);
                    }
                }
            }
            assert(open_elements(head) == 1) by {
                reveal_with_fuel(open_elements, 6);
                assert(head.drop_last().drop_last().drop_last().drop_last().len() == 0);
            }
            lemma_balance_accepted(head, rest);
            assert(whole[0] == head[0]);
            assert(starts_named(head, "channel"@) == 0 && starts_named(head, "item"@) == 0) by {
                reveal_with_fuel(starts_named, 6);
            }
            lemma_starts_join(head, rest, "channel"@);
            lemma_starts_join(head, rest, "item"@);
        },
        ParseEventView::StartDocument { .. } => {},
        ParseEventView::EndDocument => {},
        _ => {
            lemma_header_translated(log, one, base_url, now);
            let rest = run(log, one, state, base_url, now)->Ok_0;
            assert(Seq::<WriteEventView>::empty() + rest == rest);
        },
    }
}

/// A feed of the shape that the transcoder is made for, built at a time
/// that has a date, is translated into a whole document: one declaration,
/// every element closed, one channel, and as many items as the feed has
/// entries.
pub proof fn feed_is_translated_entry_by_entry(log: EventLogView, base_url: Seq<char>, now: int)
    requires
        is_feed(log),
        build_date(now) is Ok,
    ensures
        is_whole_feed(transcript(log, base_url, now), entries_in(log)),
{
    lemma_header_translated(log, 1, base_url, now);
    let rest = run(log, 1, TranscoderState::Header, base_url, now)->Ok_0;
    assert(Seq::<WriteEventView>::empty() + rest == rest);
    assert(!is_entry_start(log.events[0]));
}

/// The text of a feed of the shape that the transcoder is made for has a
/// translation at every build time that has a date: the document that the
/// writer makes of the events of a whole feed.
pub proof fn feed_text_has_a_translation(text: Seq<char>, base_url: Seq<char>, now: int)
    requires
        is_feed(stream_log(crate::source::document_events(text))),
        build_date(now) is Ok,
    ensures
        crate::translation(text, base_url, now) is Ok,
        is_whole_feed(
            transcript(stream_log(crate::source::document_events(text)), base_url, now),
            entries_in(stream_log(crate::source::document_events(text))),
        ),
{
    feed_is_translated_entry_by_entry(
        stream_log(crate::source::document_events(text)),
        base_url,
        now,
    );
}

/// The events of `events` from `offset` on, `length` of them.
pub open spec fn part_at(events: Seq<WriteEventView>, offset: int, length: nat) -> Seq<
    WriteEventView,
> {
    events.subrange(offset, offset + length)
}

/// Whether `piece` stands in `events`, whole and in one run.
pub open spec fn holds_run(events: Seq<WriteEventView>, piece: Seq<WriteEventView>) -> bool {
    exists|offset: int|
        0 <= offset <= events.len() - piece.len() && #[trigger] part_at(
            events,
            offset,
            piece.len(),
        ) == piece
}

/// The link of a translated feed to itself, at `address`.
pub open spec fn link_to_self(address: Seq<char>) -> WriteEventView {
    WriteEventView::StartElement {
        name: "atom:link"@,
        attributes: seq![
            OutputAttributeView { name: "href"@, value: address },
            OutputAttributeView { name: "rel"@, value: "self"@ },
            OutputAttributeView { name: "type"@, value: "application/rss+xml"@ },
        ],
    }
}

/// A piece stands in what begins with it.
proof fn lemma_holds_first(piece: Seq<WriteEventView>, rest: Seq<WriteEventView>)
    ensures
        holds_run(piece + rest, piece),
{
    assert(part_at(piece + rest, 0, piece.len()) =~= piece);
}

/// A piece that stands in events stands in them behind others too.
proof fn lemma_holds_later(
    before: Seq<WriteEventView>,
    rest: Seq<WriteEventView>,
    piece: Seq<WriteEventView>,
)
    requires
        holds_run(rest, piece),
    ensures
        holds_run(before + rest, piece),
{
    let offset = choose|offset: int|
        0 <= offset <= rest.len() - piece.len() && #[trigger] part_at(rest, offset, piece.len())
            == piece;
    assert(part_at(before + rest, before.len() + offset, piece.len()) =~= part_at(
        rest,
        offset,
        piece.len(),
    ));
}

/// The names of the elements of the channel differ from each other and
/// from that of the root.
proof fn lemma_channel_names()
    ensures
        "feed"@ != "link"@,
        "feed"@ != "title"@,
        "feed"@ != "published"@,
        "link"@ != "title"@,
        "link"@ != "published"@,
        "title"@ != "published"@,
{
    reveal_strlit("feed");
    reveal_strlit("link");
    reveal_strlit("title");
    reveal_strlit("published");
    assert("feed"@[0] != "link"@[0]);
    assert("title"@[0] != "published"@[0]);
}

/// In the part of the channel before its link to itself, a feed of the
/// right shape has such a link, and its translation holds the opening of
/// the channel with it.
proof fn lemma_channel_links(log: EventLogView, position: nat, base_url: Seq<char>, now: int)
    requires
        channel_part(log, position, 0),
        build_date(now) is Ok,
        position <= log.events.len(),
    ensures
        self_address_from(log.events, position) matches Some(address) && run(
            log,
            position,
            TranscoderState::ChannelInfo,
            base_url,
            now,
        ) matches Ok(events) && holds_run(events, channel_head(base_url, address)),
    decreases log.events.len() - position,
{
    lemma_channel_names();
    lemma_channel_translated(log, position, 0, base_url, now);
    let state = TranscoderState::ChannelInfo;
    let one = (position + 1) as nat;
    let two = (position + 2) as nat;
    match log.events[position as int] {
        ParseEventView::StartElement { name, attributes } => {
            if name.local_name == "link"@ {
                let rel = first_value(attributes, "rel"@)->0;
                let href = first_value(attributes, "href"@)->0;
                if rel == "self"@ {
                    lemma_channel_translated(log, one, 1, base_url, now);
                    let rest = run(log, one, state, base_url, now)->Ok_0;
                    lemma_holds_first(channel_head(base_url, href), rest);
                } else {
                    lemma_channel_links(log, one, base_url, now);
                    let rest = run(log, one, state, base_url, now)->Ok_0;
                    let address = self_address_from(log.events, one)->0;
                    lemma_holds_later(
                        channel_link(rel, href, base_url),
                        rest,
                        channel_head(base_url, address),
                    );
                }
            } else if name.local_name == "title"@ {
                let title = log.events[position as int + 1]->Text_0;
                assert(!is_self_link(log.events[position as int + 1]));
                assert(self_address_from(log.events, one) == self_address_from(log.events, two));
                lemma_channel_links(log, two, base_url, now);
                let rest = run(log, two, state, base_url, now)->Ok_0;
                let address = self_address_from(log.events, two)->0;
                lemma_holds_later(channel_title(title), rest, channel_head(base_url, address));
            } else if name.local_name == "published"@ {
            } else {
                lemma_channel_links(log, one, base_url, now);
                let rest = run(log, one, state, base_url, now)->Ok_0;
                let address = self_address_from(log.events, one)->0;
                lemma_holds_later(Seq::empty(), rest, channel_head(base_url, address));
            }
        },
        ParseEventView::StartDocument { .. } => {},
        ParseEventView::EndDocument => {},
        _ => {
            lemma_channel_links(log, one, base_url, now);
            let rest = run(log, one, state, base_url, now)->Ok_0;
            let address = self_address_from(log.events, one)->0;
            lemma_holds_later(Seq::empty(), rest, channel_head(base_url, address));
        },
    }
}

/// In the part of the channel, the translation of a feed of the right shape
/// holds the title that the feed gives from there on.
proof fn lemma_channel_titled(
    log: EventLogView,
    position: nat,
    links: nat,
    base_url: Seq<char>,
    now: int,
)
    requires
        channel_part(log, position, links),
        build_date(now) is Ok,
        position <= log.events.len(),
        links <= 1,
        title_from(log.events, position) is Some,
    ensures
        run(log, position, TranscoderState::ChannelInfo, base_url, now) matches Ok(events)
            && holds_run(events, channel_title(title_from(log.events, position)->0)),
    decreases log.events.len() - position,
{
    lemma_channel_names();
    lemma_channel_translated(log, position, links, base_url, now);
    let state = TranscoderState::ChannelInfo;
    let one = (position + 1) as nat;
    let two = (position + 2) as nat;
    let wanted = channel_title(title_from(log.events, position)->0);
    match log.events[position as int] {
        ParseEventView::StartElement { name, attributes } => {
            if name.local_name == "link"@ {
                let rel = first_value(attributes, "rel"@)->0;
                let href = first_value(attributes, "href"@)->0;
                let after: nat = if rel == "self"@ {
                    1
                } else {
                    links
                };
                lemma_channel_titled(log, one, after, base_url, now);
                let rest = run(log, one, state, base_url, now)->Ok_0;
                lemma_holds_later(channel_link(rel, href, base_url), rest, wanted);
            } else if name.local_name == "title"@ {
                lemma_channel_translated(log, two, links, base_url, now);
                let rest = run(log, two, state, base_url, now)->Ok_0;
                lemma_holds_first(wanted, rest);
            } else if name.local_name == "published"@ {
            } else {
                lemma_channel_titled(log, one, links, base_url, now);
                let rest = run(log, one, state, base_url, now)->Ok_0;
                lemma_holds_later(Seq::empty(), rest, wanted);
            }
        },
        ParseEventView::StartDocument { .. } => {},
        ParseEventView::EndDocument => {},
        _ => {
            lemma_channel_titled(log, one, links, base_url, now);
            let rest = run(log, one, state, base_url, now)->Ok_0;
            lemma_holds_later(Seq::empty(), rest, wanted);
        },
    }
}

/// Before the root element, a feed of the right shape has a link to itself
/// further on, and its translation holds the opening of the channel with
/// it; and the title that the feed gives, if it gives one.
proof fn lemma_header_shows(log: EventLogView, position: nat, base_url: Seq<char>, now: int)
    requires
        header_part(log, position),
        build_date(now) is Ok,
        position <= log.events.len(),
    ensures
        self_address_from(log.events, position) matches Some(address) && run(
            log,
            position,
            TranscoderState::Header,
            base_url,
            now,
        ) matches Ok(events) && holds_run(events, channel_head(base_url, address)) && (title_from(
            log.events,
            position,
        ) matches Some(title) ==> holds_run(events, channel_title(title))),
    decreases log.events.len() - position,
{
    lemma_channel_names();
    lemma_header_translated(log, position, base_url, now);
    let one = (position + 1) as nat;
    match log.events[position as int] {
        ParseEventView::StartElement { name, .. } => {
            lemma_channel_links(log, one, base_url, now);
            let rest = run(log, one, TranscoderState::ChannelInfo, base_url, now)->Ok_0;
            let address = self_address_from(log.events, one)->0;
            lemma_holds_later(document_head(), rest, channel_head(base_url, address));
            if title_from(log.events, position) is Some {
                lemma_channel_titled(log, one, 0, base_url, now);
                lemma_holds_later(
                    document_head(),
                    rest,
                    channel_title(title_from(log.events, one)->0),
                );
            }
        },
        ParseEventView::StartDocument { .. } => {},
        ParseEventView::EndDocument => {},
        _ => {
            lemma_header_shows(log, one, base_url, now);
            let rest = run(log, one, TranscoderState::Header, base_url, now)->Ok_0;
            assert(Seq::<WriteEventView>::empty() + rest == rest);
        },
    }
}

/// The translation of a feed links to itself under the identifier of the
/// channel. It has one channel and holds the opening of the channel, and
/// in it the `atom:link` whose `href` is `base_url`, then `/channel/`, then
/// what follows the last `=` in the address of the feed's own link to
/// itself.
pub proof fn feed_links_to_itself(log: EventLogView, base_url: Seq<char>, now: int)
    requires
        is_feed(log),
        build_date(now) is Ok,
    ensures
        is_whole_feed(transcript(log, base_url, now), entries_in(log)),
        self_address(log) matches Some(address) && transcript(log, base_url, now) matches Ok(
            events,
        ) && holds_run(events, channel_head(base_url, address)) && channel_head(
            base_url,
            address,
        )[2] == link_to_self(base_url + "/channel/"@ + suffix_after_last(address, '=')),
{
    feed_is_translated_entry_by_entry(log, base_url, now);
    lemma_header_shows(log, 1, base_url, now);
    let rest = run(log, 1, TranscoderState::Header, base_url, now)->Ok_0;
    assert(Seq::<WriteEventView>::empty() + rest == rest);
    assert(!is_self_link(log.events[0]));
}

/// The translation of a feed keeps the title of the channel, letter for
/// letter, as the title of the RSS channel and as its description: it holds
/// the two elements, one behind the other, with the text of the feed's
/// title.
pub proof fn feed_title_is_kept(log: EventLogView, base_url: Seq<char>, now: int)
    requires
        is_feed(log),
        build_date(now) is Ok,
        feed_title(log) is Some,
    ensures
        transcript(log, base_url, now) matches Ok(events) && holds_run(
            events,
            text_element("title"@, feed_title(log)->0) + text_element(
                "description"@,
                feed_title(log)->0,
            ),
        ),
{
    lemma_header_shows(log, 1, base_url, now);
    let rest = run(log, 1, TranscoderState::Header, base_url, now)->Ok_0;
    assert(Seq::<WriteEventView>::empty() + rest == rest);
}

/// The address that `event` names, where it opens a `content` element.
pub open spec fn content_address(event: ParseEventView) -> Option<Seq<char>> {
    match event {
        ParseEventView::StartElement { name, attributes } => if name.local_name == "content"@ {
            first_value(attributes, "url"@)
        } else {
            None
        },
        _ => None,
    }
}

/// Whether `event` is the description of an item with the player of the
/// video `id`.
pub open spec fn is_player_of(event: WriteEventView, id: Seq<char>) -> bool {
    exists|thumbnail: ThumbnailInfoView, description: Seq<char>|
        event == WriteEventView::Text(
            #[trigger] crate::html::description_html(thumbnail, description, id),
        )
}

/// Whether the `guid` at `i` and the description behind it are those of the
/// video at the address `url`: the `guid` holds the address cut before its
/// query, and so no `?`, and the description the player of the video that
/// the address names.
pub open spec fn is_item_of(events: Seq<WriteEventView>, i: int, url: Seq<char>) -> bool {
    &&& i + 5 < events.len()
    &&& events[i + 1] == WriteEventView::Text(canonical_url(url))
    &&& !canonical_url(url).contains('?')
    &&& is_start_of(events[i + 4], "description"@)
    &&& is_player_of(events[i + 5], video_id(url))
}

/// Whether the `guid` at `i` and the description behind it are those of
/// the video at the address that a `content` element of the log names.
pub open spec fn is_item_of_feed(log: EventLogView, events: Seq<WriteEventView>, i: int) -> bool {
    exists|k: int|
        0 <= k < log.events.len() && (#[trigger] content_address(log.events[k])) is Some
            && is_item_of(events, i, content_address(log.events[k])->0)
}

/// Whether every `guid` among `events`, with the description behind it, is
/// that of the video at the address that a `content` element of the log
/// names.
pub open spec fn guids_are_addresses(log: EventLogView, events: Seq<WriteEventView>) -> bool {
    forall|i: int|
        0 <= i < events.len() && is_start_of(#[trigger] events[i], "guid"@) ==> is_item_of_feed(
            log,
            events,
            i,
        )
}

/// The text of the `title` that opens at `k`, where it is not in the
/// namespace `media`.
pub open spec fn plain_title_at(events: Seq<ParseEventView>, k: int) -> Option<Seq<char>> {
    if 0 <= k && k + 1 < events.len() {
        match (events[k], events[k + 1]) {
            (ParseEventView::StartElement { name, .. }, ParseEventView::Text(text)) => if name.local_name
                == "title"@ && name.prefix != Some("media"@) {
                Some(text)
            } else {
                None
            },
            _ => None,
        }
    } else {
        None
    }
}

/// Whether `event` is the text of a `title` of the log that is not in the
/// namespace `media`.
pub open spec fn is_title_text(log: EventLogView, event: WriteEventView) -> bool {
    event matches WriteEventView::Text(text) && exists|k: int| #[trigger]
        plain_title_at(log.events, k) == Some(text)
}

/// Whether every `title` among `events` holds the text of a `title` of the
/// log that is not in the namespace `media`.
pub open spec fn titles_are_plain(log: EventLogView, events: Seq<WriteEventView>) -> bool {
    forall|i: int|
        0 <= i < events.len() && is_start_of(#[trigger] events[i], "title"@) ==> i + 1
            < events.len() && is_title_text(log, events[i + 1])
}

/// Whether every `title` of an item, which is every `title` behind the
/// opening tag of an item, holds the text of a `title` of the log that is
/// not in the namespace `media`.
pub open spec fn item_titles_are_plain(log: EventLogView, events: Seq<WriteEventView>) -> bool {
    forall|j: int, i: int|
        0 <= j < i < events.len() && is_start_of(#[trigger] events[j], "item"@) && is_start_of(
            #[trigger] events[i],
            "title"@,
        ) ==> i + 1 < events.len() && is_title_text(log, events[i + 1])
}

/// Whether no event of `events` opens an element called `name`.
spec fn opens_no(events: Seq<WriteEventView>, name: Seq<char>) -> bool {
    forall|i: int| 0 <= i < events.len() ==> !is_start_of(#[trigger] events[i], name)
}

/// Guids that are addresses stay so when events are joined.
proof fn lemma_guids_join(log: EventLogView, a: Seq<WriteEventView>, b: Seq<WriteEventView>)
    requires
        guids_are_addresses(log, a),
        guids_are_addresses(log, b),
    ensures
        guids_are_addresses(log, a + b),
{
    let whole = a + b;
    assert forall|i: int|
        0 <= i < whole.len() && is_start_of(#[trigger] whole[i], "guid"@) implies is_item_of_feed(
        log,
        whole,
        i,
    ) by {
        if i < a.len() {
            assert(whole[i] == a[i]);
            let k = choose|k: int|
                0 <= k < log.events.len() && (#[trigger] content_address(log.events[k])) is Some
                    && is_item_of(a, i, content_address(log.events[k])->0);
            assert(whole[i + 1] == a[i + 1]);
            assert(whole[i + 4] == a[i + 4]);
            assert(whole[i + 5] == a[i + 5]);
            assert(is_item_of(whole, i, content_address(log.events[k])->0));
        } else {
            let j = i - a.len();
            assert(whole[i] == b[j]);
            let k = choose|k: int|
                0 <= k < log.events.len() && (#[trigger] content_address(log.events[k])) is Some
                    && is_item_of(b, j, content_address(log.events[k])->0);
            assert(whole[i + 1] == b[j + 1]);
            assert(whole[i + 4] == b[j + 4]);
            assert(whole[i + 5] == b[j + 5]);
            assert(is_item_of(whole, i, content_address(log.events[k])->0));
        }
    }
}

/// Titles that are plain stay so when events are joined.
proof fn lemma_titles_join(log: EventLogView, a: Seq<WriteEventView>, b: Seq<WriteEventView>)
    requires
        titles_are_plain(log, a),
        titles_are_plain(log, b),
    ensures
        titles_are_plain(log, a + b),
        item_titles_are_plain(log, a + b),
{
    let whole = a + b;
    assert forall|i: int|
        0 <= i < whole.len() && is_start_of(#[trigger] whole[i], "title"@) implies i + 1
        < whole.len() && is_title_text(log, whole[i + 1]) by {
        if i < a.len() {
            assert(whole[i] == a[i]);
            assert(whole[i + 1] == a[i + 1]);
        } else {
            assert(whole[i] == b[i - a.len()]);
            assert(whole[i + 1] == b[i - a.len() + 1]);
        }
    }
}

/// Behind events that open no item, the titles of items are those of the
/// events that follow.
proof fn lemma_item_titles_join(
    log: EventLogView,
    a: Seq<WriteEventView>,
    b: Seq<WriteEventView>,
)
    requires
        opens_no(a, "item"@),
        item_titles_are_plain(log, b),
    ensures
        item_titles_are_plain(log, a + b),
{
    let whole = a + b;
    assert forall|j: int, i: int|
        0 <= j < i < whole.len() && is_start_of(#[trigger] whole[j], "item"@) && is_start_of(
            #[trigger] whole[i],
            "title"@,
        ) implies i + 1 < whole.len() && is_title_text(log, whole[i + 1]) by {
        if j < a.len() {
            assert(whole[j] == a[j]);
        } else {
            assert(whole[j] == b[j - a.len()]);
            assert(whole[i] == b[i - a.len()]);
            assert(whole[i + 1] == b[i - a.len() + 1]);
        }
    }
}

/// What stands before the first `c` of a text holds no `c`.
proof fn lemma_prefix_holds_no(s: Seq<char>, c: char)
    ensures
        !crate::text::prefix_before_first(s, c).contains(c),
    decreases s.len(),
{
    if s.len() == 0 || s[0] == c {
    } else {
        lemma_prefix_holds_no(s.drop_first(), c);
        let inner = crate::text::prefix_before_first(s.drop_first(), c);
        let whole = seq![s[0]] + inner;
        assert forall|i: int| 0 <= i < whole.len() implies whole[i] != c by {
            if i > 0 {
                assert(inner.contains(inner[i - 1]));
            }
        }
    }
}

/// The names of the elements that are written differ from `guid`, from
/// `title` and from `item` where they are other names.
proof fn lemma_written_names()
    ensures
        "rss"@ != "guid"@,
        "channel"@ != "guid"@,
        "atom:link"@ != "guid"@,
        "link"@ != "guid"@,
        "title"@ != "guid"@,
        "description"@ != "guid"@,
        "lastBuildDate"@ != "guid"@,
        "item"@ != "guid"@,
        "pubDate"@ != "guid"@,
        "rss"@ != "title"@,
        "channel"@ != "title"@,
        "atom:link"@ != "title"@,
        "link"@ != "title"@,
        "description"@ != "title"@,
        "lastBuildDate"@ != "title"@,
        "item"@ != "title"@,
        "pubDate"@ != "title"@,
        "rss"@ != "item"@,
        "channel"@ != "item"@,
        "atom:link"@ != "item"@,
        "link"@ != "item"@,
        "description"@ != "item"@,
        "lastBuildDate"@ != "item"@,
{
    reveal_strlit("rss");
    reveal_strlit("channel");
    reveal_strlit("atom:link");
    reveal_strlit("link");
    reveal_strlit("title");
    reveal_strlit("description");
    reveal_strlit("lastBuildDate");
    reveal_strlit("item");
    reveal_strlit("pubDate");
    reveal_strlit("guid");
    assert("link"@[0] != "guid"@[0]);
    assert("item"@[0] != "guid"@[0]);
    assert("link"@[0] != "item"@[0]);
    assert("rss"@[0] != "guid"@[0]);
    assert("channel"@[0] != "guid"@[0]);
    assert("atom:link"@[0] != "guid"@[0]);
    assert("description"@[0] != "guid"@[0]);
    assert("lastBuildDate"@[0] != "guid"@[0]);
    assert("pubDate"@[0] != "guid"@[0]);
    assert("title"@[0] != "guid"@[0]);
    assert("rss"@[0] != "title"@[0]);
    assert("channel"@[0] != "title"@[0]);
    assert("atom:link"@[0] != "title"@[0]);
    assert("link"@[0] != "title"@[0]);
    assert("description"@[0] != "title"@[0]);
    assert("lastBuildDate"@[0] != "title"@[0]);
    assert("item"@[0] != "title"@[0]);
    assert("pubDate"@[0] != "title"@[0]);
    assert("rss"@[0] != "item"@[0]);
    assert("channel"@[0] != "item"@[0]);
    assert("atom:link"@[0] != "item"@[0]);
    assert("description"@[0] != "item"@[0]);
    assert("lastBuildDate"@[0] != "item"@[0]);
}

/// Whether the transcoder is between entries or inside one.
spec fn among_entries(state: TranscoderState) -> bool {
    state == TranscoderState::VideoEntries || state == TranscoderState::VideoEntry
}

/// What one step writes: guids that are addresses of the feed, and among
/// the entries titles that are plain, before them no item.
proof fn lemma_step_explained(
    log: EventLogView,
    position: nat,
    state: TranscoderState,
    base_url: Seq<char>,
    now: int,
)
    requires
        position < log.events.len(),
        step(
            log,
            advance(log, position),
            state,
            log.events[position as int],
            base_url,
            now,
        ) is Ok,
    ensures
        ({
            let next = step(
                log,
                advance(log, position),
                state,
                log.events[position as int],
                base_url,
                now,
            )->Ok_0;
            &&& guids_are_addresses(log, next.emitted)
            &&& among_entries(state) ==> titles_are_plain(log, next.emitted) && among_entries(
                next.state,
            )
            &&& !among_entries(state) ==> opens_no(next.emitted, "item"@)
        }),
{
    lemma_written_names();
    let event = log.events[position as int];
    let at = advance(log, position);
    let next = step(log, at, state, event, base_url, now)->Ok_0;
    match event {
        ParseEventView::StartElement { name, attributes } => {
            if state == TranscoderState::VideoEntry {
                if name.local_name == "title"@ {
                    if name.prefix != Some("media"@) {
                        let title = log.events[position as int + 1]->Text_0;
                        assert(plain_title_at(log.events, position as int) == Some(title));
                        assert(next.emitted == text_element("title"@, title));
                    }
                } else if name.local_name == "link"@ {
                } else if name.local_name == "published"@ {
                } else if name.local_name == "content"@ {
                    let url = first_value(attributes, "url"@)->0;
                    assert(content_address(log.events[position as int]) == Some(url));
                    lemma_prefix_holds_no(url, '?');
                    assert forall|thumbnail: ThumbnailInfoView, description: Seq<char>|
                        guids_are_addresses(
                            log,
                            #[trigger] item_tail(url, thumbnail, description),
                        ) && titles_are_plain(log, item_tail(url, thumbnail, description)) by {
                        let guid = text_element("guid"@, canonical_url(url));
                        let text = crate::html::description_html(
                            thumbnail,
                            description,
                            video_id(url),
                        );
                        let html = text_element("description"@, text);
                        let end = seq![WriteEventView::EndElement];
                        let tail = item_tail(url, thumbnail, description);
                        assert(tail == guid + html + end);
                        assert(tail.len() == 9);
                        assert(tail[0] == guid[0]);
                        assert(tail[1] == guid[1]);
                        assert(tail[2] == guid[2]);
                        assert(tail[3] == guid[3]);
                        assert(tail[4] == html[0]);
                        assert(tail[5] == html[1]);
                        assert(tail[6] == html[2]);
                        assert(tail[7] == html[3]);
                        assert(tail[8] == end[0]);
                        assert(is_player_of(tail[5], video_id(url)));
                        assert(is_item_of(tail, 0, url));
                        assert(is_item_of_feed(log, tail, 0));
                    }
                }
            } else if state == TranscoderState::ChannelInfo {
                if name.local_name == "title"@ {
                    let title = log.events[position as int + 1]->Text_0;
                    let a = text_element("title"@, title);
                    let b = text_element("description"@, title);
                    assert(guids_are_addresses(log, a));
                    assert(guids_are_addresses(log, b));
                    lemma_guids_join(log, a, b);
                    assert(opens_no(a + b, "item"@)) by {
                        assert forall|i: int| 0 <= i < (a + b).len() implies !is_start_of(
                            #[trigger] (a + b)[i],
                            "item"@,
                        ) by {
                            if i < a.len() {
                                assert((a + b)[i] == a[i]);
                            } else {
                                assert((a + b)[i] == b[i - a.len()]);
                            }
                        }
                    }
                }
            }
        },
        _ => {},
    }
}

/// From any place and state on, what is translated holds guids that are
/// addresses of the feed and, in its items, titles that are plain.
proof fn lemma_run_explained(
    log: EventLogView,
    position: nat,
    state: TranscoderState,
    base_url: Seq<char>,
    now: int,
)
    requires
        position <= log.events.len(),
        run(log, position, state, base_url, now) is Ok,
    ensures
        guids_are_addresses(log, run(log, position, state, base_url, now)->Ok_0),
        item_titles_are_plain(log, run(log, position, state, base_url, now)->Ok_0),
        among_entries(state) ==> titles_are_plain(
            log,
            run(log, position, state, base_url, now)->Ok_0,
        ),
    decreases log.events.len() - position,
{
    let whole = run(log, position, state, base_url, now)->Ok_0;
    if position < log.events.len() && !(log.events[position as int] is EndDocument) {
        let event = log.events[position as int];
        let at = advance(log, position);
        let next = step(log, at, state, event, base_url, now)->Ok_0;
        let rest = run(log, next.position, next.state, base_url, now)->Ok_0;
        assert(whole == next.emitted + rest);
        lemma_step_explained(log, position, state, base_url, now);
        lemma_run_explained(log, next.position, next.state, base_url, now);
        lemma_guids_join(log, next.emitted, rest);
        if among_entries(state) {
            lemma_titles_join(log, next.emitted, rest);
        } else {
            lemma_item_titles_join(log, next.emitted, rest);
        }
    } else {
        assert(whole == document_tail());
    }
}

/// In every translation, the `guid` of an item is the address that a
/// `content` element of the feed names, cut before its query, and the
/// description behind it holds the player of the video that this address
/// names: no `guid` holds a `?`, whatever query stands behind the address
/// of the video.
pub proof fn guid_is_the_address_without_query(log: EventLogView, base_url: Seq<char>, now: int)
    requires
        transcript(log, base_url, now) is Ok,
    ensures
        guids_are_addresses(log, transcript(log, base_url, now)->Ok_0),
{
    lemma_run_explained(log, 0, TranscoderState::Initial, base_url, now);
}

/// In every translation, the title of an item is the text of a `title` of
/// the feed that is not in the namespace `media`: a `media:title` shows
/// neither as the title of an item nor as a second one.
pub proof fn item_title_is_no_media_title(log: EventLogView, base_url: Seq<char>, now: int)
    requires
        transcript(log, base_url, now) is Ok,
    ensures
        item_titles_are_plain(log, transcript(log, base_url, now)->Ok_0),
{
    lemma_run_explained(log, 0, TranscoderState::Initial, base_url, now);
}

/// Whether `event` opens a `title` in the namespace `media`.
pub open spec fn is_media_title(event: ParseEventView) -> bool {
    match event {
        ParseEventView::StartElement { name, .. } => name.local_name == "title"@ && name.prefix
            == Some("media"@),
        _ => false,
    }
}

/// The log with the event at `place` struck out: an event that says nothing
/// stands in its place.
pub open spec fn struck_out(log: EventLogView, place: int) -> EventLogView {
    EventLogView { events: log.events.update(place, ParseEventView::Other), failure: log.failure }
}

/// Passing over events goes by their number alone.
proof fn lemma_skipped_alike(log: EventLogView, other: EventLogView, position: nat, count: nat)
    requires
        other.events.len() == log.events.len(),
        other.failure == log.failure,
    ensures
        skipped(other, position, count) == skipped(log, position, count),
    decreases count,
{
    if count > 0 {
        lemma_skipped_alike(log, other, advance(log, position), (count - 1) as nat);
    }
}

/// A step among the entries is the same with a `media:title` struck out.
proof fn lemma_step_struck(
    log: EventLogView,
    place: int,
    position: nat,
    state: TranscoderState,
    base_url: Seq<char>,
    now: int,
)
    requires
        0 <= place < log.events.len(),
        is_media_title(log.events[place]),
        position < log.events.len(),
        among_entries(state),
    ensures
        step(
            struck_out(log, place),
            advance(log, position),
            state,
            struck_out(log, place).events[position as int],
            base_url,
            now,
        ) == step(log, advance(log, position), state, log.events[position as int], base_url, now),
{
    lemma_names();
    let other = struck_out(log, place);
    let at = advance(log, position);
    lemma_skipped_alike(log, other, at, 2);
    match skipped(log, at, 2) {
        Ok(third_at) => {
            lemma_skipped_alike(log, other, advance(log, third_at), 3);
        },
        Err(_) => {},
    }
}

/// From among the entries on, the translation is the same with a
/// `media:title` struck out.
proof fn lemma_struck_among_entries(
    log: EventLogView,
    place: int,
    position: nat,
    state: TranscoderState,
    base_url: Seq<char>,
    now: int,
)
    requires
        0 <= place < log.events.len(),
        is_media_title(log.events[place]),
        position <= log.events.len(),
        among_entries(state),
    ensures
        run(struck_out(log, place), position, state, base_url, now) == run(
            log,
            position,
            state,
            base_url,
            now,
        ),
    decreases log.events.len() - position,
{
    let other = struck_out(log, place);
    if position < log.events.len() {
        lemma_step_struck(log, place, position, state, base_url, now);
        let at = advance(log, position);
        match step(log, at, state, log.events[position as int], base_url, now) {
            Ok(next) => {
                if position < next.position <= log.events.len() {
                    lemma_struck_among_entries(
                        log,
                        place,
                        next.position,
                        next.state,
                        base_url,
                        now,
                    );
                }
            },
            Err(_) => {},
        }
    }
}

/// In the part of the channel, the translation of a feed of the right
/// shape is the same with a `media:title` behind the first entry struck
/// out.
proof fn lemma_struck_behind_channel(
    log: EventLogView,
    place: int,
    entry: int,
    position: nat,
    links: nat,
    base_url: Seq<char>,
    now: int,
)
    requires
        channel_part(log, position, links),
        position <= entry < place < log.events.len(),
        is_entry_start(log.events[entry]),
        is_media_title(log.events[place]),
    ensures
        run(struck_out(log, place), position, TranscoderState::ChannelInfo, base_url, now) == run(
            log,
            position,
            TranscoderState::ChannelInfo,
            base_url,
            now,
        ),
    decreases log.events.len() - position,
{
    lemma_names();
    lemma_channel_names();
    let other = struck_out(log, place);
    let one = (position + 1) as nat;
    let two = (position + 2) as nat;
    assert(other.events[position as int] == log.events[position as int]);
    match log.events[position as int] {
        ParseEventView::StartElement { name, attributes } => {
            if name.local_name == "link"@ {
                let after: nat = if first_value(attributes, "rel"@) == Some("self"@) {
                    1
                } else {
                    links
                };
                lemma_struck_behind_channel(log, place, entry, one, after, base_url, now);
            } else if name.local_name == "title"@ {
                assert(other.events[position as int + 1] == log.events[position as int + 1]);
                lemma_struck_behind_channel(log, place, entry, two, links, base_url, now);
            } else if name.local_name == "published"@ {
                assert(other.events[position as int + 1] == log.events[position as int + 1]);
                lemma_struck_among_entries(
                    log,
                    place,
                    two,
                    TranscoderState::VideoEntries,
                    base_url,
                    now,
                );
            } else {
                lemma_struck_behind_channel(log, place, entry, one, links, base_url, now);
            }
        },
        ParseEventView::StartDocument { .. } => {},
        ParseEventView::EndDocument => {},
        _ => {
            lemma_struck_behind_channel(log, place, entry, one, links, base_url, now);
        },
    }
}

/// Before the root element, the translation of a feed of the right shape
/// is the same with a `media:title` behind the first entry struck out.
proof fn lemma_struck_behind_header(
    log: EventLogView,
    place: int,
    entry: int,
    position: nat,
    base_url: Seq<char>,
    now: int,
)
    requires
        header_part(log, position),
        position <= entry < place < log.events.len(),
        is_entry_start(log.events[entry]),
        is_media_title(log.events[place]),
    ensures
        run(struck_out(log, place), position, TranscoderState::Header, base_url, now) == run(
            log,
            position,
            TranscoderState::Header,
            base_url,
            now,
        ),
    decreases log.events.len() - position,
{
    lemma_names();
    let other = struck_out(log, place);
    let one = (position + 1) as nat;
    assert(other.events[position as int] == log.events[position as int]);
    match log.events[position as int] {
        ParseEventView::StartElement { .. } => {
            lemma_struck_behind_channel(log, place, entry, one, 0, base_url, now);
        },
        ParseEventView::StartDocument { .. } => {},
        ParseEventView::EndDocument => {},
        _ => {
            lemma_struck_behind_header(log, place, entry, one, base_url, now);
        },
    }
}

/// A `media:title` leaves no trace in the translation of a feed: with the
/// opening tag of any `media:title` behind the opening of the first entry
/// struck out, the feed is translated into the same events, or refused with
/// the same error.
pub proof fn media_title_leaves_no_trace(
    log: EventLogView,
    base_url: Seq<char>,
    now: int,
    entry: int,
    place: int,
)
    requires
        is_feed(log),
        0 <= entry < place < log.events.len(),
        is_entry_start(log.events[entry]),
        is_media_title(log.events[place]),
    ensures
        transcript(struck_out(log, place), base_url, now) == transcript(log, base_url, now),
{
    let other = struck_out(log, place);
    assert(other.events[0] == log.events[0]);
    assert(!is_entry_start(log.events[0]));
    lemma_struck_behind_header(log, place, entry, 1, base_url, now);
}

/// Whether `event` opens a `content` element.
pub open spec fn opens_content(event: ParseEventView) -> bool {
    match event {
        ParseEventView::StartElement { name, .. } => name.local_name == "content"@,
        _ => false,
    }
}

/// Whether `other` is `log` but for the event at `place`.
pub open spec fn differs_at(log: EventLogView, other: EventLogView, place: int) -> bool {
    &&& other.failure == log.failure
    &&& other.events.len() == log.events.len()
    &&& forall|i: int|
        0 <= i < log.events.len() && i != place ==> #[trigger] other.events[i] == log.events[i]
}

/// The address of a video names the video behind its last `/`: where that
/// name holds neither `/` nor `?`, it is the identifier of the video, with
/// or without a query behind it.
pub proof fn address_names_the_video(head: Seq<char>, id: Seq<char>, query: Seq<char>)
    requires
        !id.contains('/'),
        !id.contains('?'),
        !query.contains('/'),
    ensures
        video_id(head.push('/') + id) == id,
        video_id((head.push('/') + id).push('?') + query) == id,
{
    let url = head.push('/') + id;
    lemma_suffix_after_separator(head, '/', id);
    lemma_prefix_without(id, '?');
    let tail = id.push('?') + query;
    assert(url.push('?') + query == head.push('/') + tail);
    assert forall|i: int| 0 <= i < tail.len() implies tail[i] != '/' by {
        if i < id.len() {
            assert(id.contains(id[i]));
        } else if i > id.len() {
            assert(query.contains(query[i - id.len() - 1]));
        }
    }
    lemma_suffix_after_separator(head, '/', tail);
    lemma_prefix_before_separator(id, '?', query);
}

/// A step is the same with a query behind the address of a `content`.
proof fn lemma_step_with_query(
    log: EventLogView,
    other: EventLogView,
    place: int,
    url: Seq<char>,
    query: Seq<char>,
    position: nat,
    state: TranscoderState,
    base_url: Seq<char>,
    now: int,
)
    requires
        0 <= place < log.events.len(),
        differs_at(log, other, place),
        content_address(log.events[place]) == Some(url),
        content_address(other.events[place]) == Some(url.push('?') + query),
        !url.contains('?'),
        !query.contains('/'),
        place >= 3 ==> !opens_content(log.events[place - 3]),
        position < log.events.len(),
    ensures
        step(other, advance(log, position), state, other.events[position as int], base_url, now)
            == step(log, advance(log, position), state, log.events[position as int], base_url, now),
{
    lemma_names();
    lemma_channel_names();
    reveal_strlit("content");
    reveal_strlit("feed");
    reveal_strlit("link");
    reveal_strlit("title");
    reveal_strlit("published");
    assert("content"@[0] != "feed"@[0]);
    assert("content"@[0] != "link"@[0]);
    assert("content"@[0] != "title"@[0]);
    assert("content"@[0] != "published"@[0]);
    query_does_not_change_the_video(url, query);
    let at = advance(log, position);
    lemma_skipped_alike(log, other, at, 2);
    match skipped(log, at, 2) {
        Ok(third_at) => {
            lemma_skipped_alike(log, other, advance(log, third_at), 3);
            assert(skipped(log, at, 2) == Ok::<nat, TranslationErrorView>((position + 3) as nat)
                || third_at >= log.events.len()) by {
                reveal_with_fuel(skipped, 3);
            }
            if third_at < log.events.len() && opens_content(log.events[position as int]) {
                assert(third_at != place);
                assert(other.events[third_at as int] == log.events[third_at as int]);
            }
        },
        Err(_) => {},
    }
}

/// From any place and state on, the translation is the same with a query
/// behind the address of a `content`.
proof fn lemma_run_with_query(
    log: EventLogView,
    other: EventLogView,
    place: int,
    url: Seq<char>,
    query: Seq<char>,
    position: nat,
    state: TranscoderState,
    base_url: Seq<char>,
    now: int,
)
    requires
        0 <= place < log.events.len(),
        differs_at(log, other, place),
        content_address(log.events[place]) == Some(url),
        content_address(other.events[place]) == Some(url.push('?') + query),
        !url.contains('?'),
        !query.contains('/'),
        place >= 3 ==> !opens_content(log.events[place - 3]),
        position <= log.events.len(),
    ensures
        run(other, position, state, base_url, now) == run(log, position, state, base_url, now),
    decreases log.events.len() - position,
{
    if position < log.events.len() {
        lemma_step_with_query(log, other, place, url, query, position, state, base_url, now);
        if position != place {
            assert(other.events[position as int] == log.events[position as int]);
        }
        let at = advance(log, position);
        match step(log, at, state, log.events[position as int], base_url, now) {
            Ok(next) => {
                if position < next.position <= log.events.len() {
                    lemma_run_with_query(
                        log,
                        other,
                        place,
                        url,
                        query,
                        next.position,
                        next.state,
                        base_url,
                        now,
                    );
                }
            },
            Err(_) => {},
        }
    }
}

/// A query behind the address of a video changes nothing in a translation.
/// Two documents that are the same but for one `content`, which names the
/// address `url` in the one and `url`, `?` and a query in the other, are
/// translated into the same events, or refused with the same error; where
/// the one is a feed of the right shape, both are translated. The `guid`
/// that the `content` gives is `url` in both, and the player is that of the
/// same video. This holds of a `url` without `?`, of a query without `/`,
/// and of a `content` that does not stand third behind another, where it
/// would be read as a thumbnail.
pub proof fn query_leaves_the_translation_alone(
    log: EventLogView,
    other: EventLogView,
    base_url: Seq<char>,
    now: int,
    place: int,
    url: Seq<char>,
    query: Seq<char>,
)
    requires
        0 <= place < log.events.len(),
        differs_at(log, other, place),
        content_address(log.events[place]) == Some(url),
        content_address(other.events[place]) == Some(url.push('?') + query),
        !url.contains('?'),
        !query.contains('/'),
        place >= 3 ==> !opens_content(log.events[place - 3]),
    ensures
        transcript(other, base_url, now) == transcript(log, base_url, now),
        is_feed(log) && build_date(now) is Ok ==> transcript(other, base_url, now) is Ok,
        canonical_url(url.push('?') + query) == url,
        canonical_url(url) == url,
        video_id(url.push('?') + query) == video_id(url),
{
    query_does_not_change_the_video(url, query);
    if is_feed(log) && build_date(now) is Ok {
        feed_is_translated_entry_by_entry(log, base_url, now);
    }
    lemma_run_with_query(
        log,
        other,
        place,
        url,
        query,
        0,
        TranscoderState::Initial,
        base_url,
        now,
    );
}

/// Events that open no element called `name` hold no text behind one.
proof fn lemma_quiet(piece: Seq<WriteEventView>, name: Seq<char>)
    requires
        opens_no(piece, name),
    ensures
        texts_behind(piece, name) == Seq::<Seq<char>>::empty(),
    decreases piece.len(),
{
    if piece.len() >= 2 {
        assert(!is_start_of(piece[0], name));
        assert forall|i: int| 0 <= i < piece.drop_first().len() implies !is_start_of(
            #[trigger] piece.drop_first()[i],
            name,
        ) by {
            assert(piece.drop_first()[i] == piece[i + 1]);
        }
        lemma_quiet(piece.drop_first(), name);
        assert(Seq::<Seq<char>>::empty() + Seq::<Seq<char>>::empty() =~= Seq::<
            Seq<char>,
        >::empty());
    }
}

/// The texts behind the opening tags of two runs of events are those of
/// the one and those of the other, where the first run does not end in
/// such a tag.
proof fn lemma_texts_join(a: Seq<WriteEventView>, b: Seq<WriteEventView>, name: Seq<char>)
    requires
        a.len() == 0 || !is_start_of(a.last(), name),
    ensures
        texts_behind(a + b, name) == texts_behind(a, name) + texts_behind(b, name),
    decreases a.len(),
{
    let none = Seq::<Seq<char>>::empty();
    if a.len() == 0 {
        assert(a + b == b);
        assert(none + texts_behind(b, name) =~= texts_behind(b, name));
    } else if a.len() == 1 {
        assert((a + b)[0] == a[0]);
        assert((a + b).drop_first() == b);
        assert(none + texts_behind(b, name) =~= texts_behind(b, name));
        if b.len() == 0 {
            assert(texts_behind(b, name) == none);
        }
    } else {
        assert((a + b)[0] == a[0]);
        assert((a + b)[1] == a[1]);
        assert((a + b).drop_first() == a.drop_first() + b);
        assert(a.drop_first().last() == a.last());
        lemma_texts_join(a.drop_first(), b, name);
        assert(texts_behind(a + b, name) =~= texts_behind(a, name) + texts_behind(b, name));
    }
}

/// Behind a piece that opens no element called `name`, the texts behind
/// such elements are those of what follows.
proof fn lemma_texts_then(piece: Seq<WriteEventView>, more: Seq<WriteEventView>, name: Seq<char>)
    requires
        opens_no(piece, name),
    ensures
        texts_behind(piece + more, name) == texts_behind(more, name),
{
    lemma_quiet(piece, name);
    if piece.len() > 0 {
        assert(piece.last() == piece[piece.len() - 1]);
    }
    lemma_texts_join(piece, more, name);
    assert(Seq::<Seq<char>>::empty() + texts_behind(more, name) =~= texts_behind(more, name));
}

/// Behind an element called `name` that holds `text`, the texts behind
/// such elements are `text` and those of what follows.
proof fn lemma_text_then(name: Seq<char>, text: Seq<char>, more: Seq<WriteEventView>)
    ensures
        texts_behind(text_element(name, text) + more, name) == seq![text] + texts_behind(
            more,
            name,
        ),
{
    let piece = text_element(name, text);
    let rest = piece.drop_first();
    assert(rest.len() == 3 && rest[0] == piece[1] && rest[1] == piece[2] && rest[2] == piece[3]);
    assert(opens_no(rest, name));
    lemma_quiet(rest, name);
    assert(texts_behind(piece, name) =~= seq![text]);
    assert(piece.last() == piece[3]);
    lemma_texts_join(piece, more, name);
}

/// What closes an item opens no element but `guid` and `description`.
proof fn lemma_item_tail_quiet(
    url: Seq<char>,
    thumbnail: ThumbnailInfoView,
    description: Seq<char>,
    name: Seq<char>,
)
    requires
        name != "guid"@,
        name != "description"@,
    ensures
        opens_no(item_tail(url, thumbnail, description), name),
{
    let guid = text_element("guid"@, canonical_url(url));
    let html = text_element(
        "description"@,
        crate::html::description_html(thumbnail, description, video_id(url)),
    );
    let end = seq![WriteEventView::EndElement];
    let tail = item_tail(url, thumbnail, description);
    assert(tail == guid + html + end);
    assert forall|i: int| 0 <= i < tail.len() implies !is_start_of(#[trigger] tail[i], name) by {
        if i < 4 {
            assert(tail[i] == guid[i]);
        } else if i < 8 {
            assert(tail[i] == html[i - 4]);
        } else {
            assert(tail[i] == end[i - 8]);
        }
    }
}

/// The names of the elements that hold dates differ from the others.
proof fn lemma_date_names()
    ensures
        "pubDate"@ != "lastBuildDate"@,
        "rss"@ != "pubDate"@,
        "channel"@ != "pubDate"@,
        "atom:link"@ != "pubDate"@,
        "link"@ != "pubDate"@,
        "title"@ != "pubDate"@,
        "description"@ != "pubDate"@,
        "item"@ != "pubDate"@,
        "guid"@ != "pubDate"@,
        "rss"@ != "lastBuildDate"@,
        "channel"@ != "lastBuildDate"@,
        "atom:link"@ != "lastBuildDate"@,
        "link"@ != "lastBuildDate"@,
        "title"@ != "lastBuildDate"@,
        "description"@ != "lastBuildDate"@,
        "item"@ != "lastBuildDate"@,
        "guid"@ != "lastBuildDate"@,
        "content"@ != "published"@,
        "content"@ != "title"@,
        "content"@ != "link"@,
{
    reveal_strlit("rss");
    reveal_strlit("channel");
    reveal_strlit("atom:link");
    reveal_strlit("link");
    reveal_strlit("title");
    reveal_strlit("description");
    reveal_strlit("lastBuildDate");
    reveal_strlit("item");
    reveal_strlit("pubDate");
    reveal_strlit("guid");
    reveal_strlit("content");
    reveal_strlit("published");
    assert("pubDate"@[0] != "lastBuildDate"@[0]);
    assert("rss"@[0] != "pubDate"@[0]);
    assert("channel"@[0] != "pubDate"@[0]);
    assert("atom:link"@[0] != "pubDate"@[0]);
    assert("link"@[0] != "pubDate"@[0]);
    assert("title"@[0] != "pubDate"@[0]);
    assert("description"@[0] != "pubDate"@[0]);
    assert("item"@[0] != "pubDate"@[0]);
    assert("guid"@[0] != "pubDate"@[0]);
    assert("rss"@[0] != "lastBuildDate"@[0]);
    assert("channel"@[0] != "lastBuildDate"@[0]);
    assert("atom:link"@[0] != "lastBuildDate"@[0]);
    assert("link"@[1] != "lastBuildDate"@[1]);
    assert("title"@[0] != "lastBuildDate"@[0]);
    assert("description"@[0] != "lastBuildDate"@[0]);
    assert("item"@[0] != "lastBuildDate"@[0]);
    assert("guid"@[0] != "lastBuildDate"@[0]);
    assert("content"@[0] != "published"@[0]);
    assert("content"@[0] != "title"@[0]);
    assert("content"@[0] != "link"@[0]);
}

/// Where passing over events comes to stand: so many events further, or at
/// the end of the log.
proof fn lemma_skipped_place(log: EventLogView, position: nat, count: nat)
    requires
        position <= log.events.len(),
    ensures
        skipped(log, position, count) matches Ok(p) ==> p == if position + count
            <= log.events.len() {
            position + count
        } else {
            log.events.len()
        },
    decreases count,
{
    if count > 0 {
        lemma_skipped_place(log, advance(log, position), (count - 1) as nat);
    }
}

/// From among the entries on, what is translated holds the dates of the
/// entries that follow, in order, and no build date.
proof fn lemma_entries_dated(
    log: EventLogView,
    position: nat,
    state: TranscoderState,
    base_url: Seq<char>,
    now: int,
)
    requires
        among_entries(state),
        position <= log.events.len(),
        run(log, position, state, base_url, now) is Ok,
    ensures
        texts_behind(run(log, position, state, base_url, now)->Ok_0, "pubDate"@)
            == entry_dates_from(log.events, position, state == TranscoderState::VideoEntry),
        texts_behind(run(log, position, state, base_url, now)->Ok_0, "lastBuildDate"@) == Seq::<
            Seq<char>,
        >::empty(),
    decreases log.events.len() - position,
{
    lemma_names();
    lemma_channel_names();
    lemma_date_names();
    let none = Seq::<Seq<char>>::empty();
    let inside = state == TranscoderState::VideoEntry;
    let whole = run(log, position, state, base_url, now)->Ok_0;
    if position < log.events.len() && !(log.events[position as int] is EndDocument) {
        let event = log.events[position as int];
        let at = advance(log, position);
        let next = step(log, at, state, event, base_url, now)->Ok_0;
        let rest = run(log, next.position, next.state, base_url, now)->Ok_0;
        assert(whole == next.emitted + rest);
        lemma_entries_dated(log, next.position, next.state, base_url, now);
        let after = next.state == TranscoderState::VideoEntry;
        let dated = inside && (event matches ParseEventView::StartElement { name, .. }
            && name.local_name == "published"@);
        if dated {
            let text = log.events[position as int + 1]->Text_0;
            let date = entry_date(text)->Ok_0;
            assert(next.emitted == text_element("pubDate"@, date));
            lemma_text_then("pubDate"@, date, rest);
            assert(opens_no(next.emitted, "lastBuildDate"@));
            lemma_texts_then(next.emitted, rest, "lastBuildDate"@);
            assert(published_date(log.events, position) == seq![date]);
            assert(entry_dates_from(log.events, position + 1, true) == entry_dates_from(
                log.events,
                position + 2,
                true,
            ));
        } else {
            match event {
                ParseEventView::StartElement { name, attributes } => {
                    if inside && name.local_name == "content"@ {
                        let url = first_value(attributes, "url"@)->0;
                        lemma_skipped_place(log, at, 2);
                        let third_at = skipped(log, at, 2)->Ok_0;
                        lemma_skipped_place(log, advance(log, third_at), 3);
                        assert forall|thumbnail: ThumbnailInfoView, description: Seq<char>|
                            opens_no(
                                #[trigger] item_tail(url, thumbnail, description),
                                "pubDate"@,
                            ) && opens_no(
                                item_tail(url, thumbnail, description),
                                "lastBuildDate"@,
                            ) by {
                            lemma_item_tail_quiet(url, thumbnail, description, "pubDate"@);
                            lemma_item_tail_quiet(url, thumbnail, description, "lastBuildDate"@);
                        }
                        let behind = (position + 8) as nat;
                        if next.position == behind {
                            assert(entry_dates_from(log.events, position, true)
                                == entry_dates_from(log.events, behind, false));
                        } else {
                            assert(next.position == log.events.len());
                            assert(entry_dates_from(log.events, position, true) == none);
                            assert(entry_dates_from(log.events, next.position, false) == none);
                        }
                    } else if inside && name.local_name == "title"@ && name.prefix != Some(
                        "media"@,
                    ) {
                        assert(entry_dates_from(log.events, position + 1, true)
                            == entry_dates_from(log.events, position + 2, true));
                    }
                },
                _ => {},
            }
            assert(opens_no(next.emitted, "pubDate"@));
            assert(opens_no(next.emitted, "lastBuildDate"@));
            lemma_texts_then(next.emitted, rest, "pubDate"@);
            lemma_texts_then(next.emitted, rest, "lastBuildDate"@);
        }
    } else {
        assert(whole == document_tail());
        assert(opens_no(whole, "pubDate"@));
        assert(opens_no(whole, "lastBuildDate"@));
        lemma_quiet(whole, "pubDate"@);
        lemma_quiet(whole, "lastBuildDate"@);
    }
}

/// In the part of the channel, the translation of a feed of the right shape
/// holds the build date once, and the dates of the entries that follow.
proof fn lemma_channel_dated(
    log: EventLogView,
    position: nat,
    links: nat,
    base_url: Seq<char>,
    now: int,
)
    requires
        channel_part(log, position, links),
        build_date(now) is Ok,
        position <= log.events.len(),
        links <= 1,
    ensures
        run(log, position, TranscoderState::ChannelInfo, base_url, now) matches Ok(events)
            && texts_behind(events, "pubDate"@) == entry_dates_from(log.events, position, false)
            && texts_behind(events, "lastBuildDate"@) == seq![build_date(now)->Ok_0],
    decreases log.events.len() - position,
{
    lemma_names();
    lemma_channel_names();
    lemma_date_names();
    lemma_channel_translated(log, position, links, base_url, now);
    let state = TranscoderState::ChannelInfo;
    let one = (position + 1) as nat;
    let two = (position + 2) as nat;
    let date = build_date(now)->Ok_0;
    match log.events[position as int] {
        ParseEventView::StartElement { name, attributes } => {
            if name.local_name == "link"@ {
                let rel = first_value(attributes, "rel"@)->0;
                let href = first_value(attributes, "href"@)->0;
                let after: nat = if rel == "self"@ {
                    1
                } else {
                    links
                };
                lemma_channel_dated(log, one, after, base_url, now);
                let rest = run(log, one, state, base_url, now)->Ok_0;
                let piece = channel_link(rel, href, base_url);
                assert(opens_no(piece, "pubDate"@));
                assert(opens_no(piece, "lastBuildDate"@));
                lemma_texts_then(piece, rest, "pubDate"@);
                lemma_texts_then(piece, rest, "lastBuildDate"@);
            } else if name.local_name == "title"@ {
                let title = log.events[position as int + 1]->Text_0;
                lemma_channel_dated(log, two, links, base_url, now);
                let rest = run(log, two, state, base_url, now)->Ok_0;
                let a = text_element("title"@, title);
                let b = text_element("description"@, title);
                assert(opens_no(a, "pubDate"@) && opens_no(b, "pubDate"@));
                assert(opens_no(a, "lastBuildDate"@) && opens_no(b, "lastBuildDate"@));
                assert(a + b + rest == a + (b + rest));
                lemma_texts_then(b, rest, "pubDate"@);
                lemma_texts_then(a, b + rest, "pubDate"@);
                lemma_texts_then(b, rest, "lastBuildDate"@);
                lemma_texts_then(a, b + rest, "lastBuildDate"@);
                assert(entry_dates_from(log.events, one, false) == entry_dates_from(
                    log.events,
                    two,
                    false,
                ));
            } else if name.local_name == "published"@ {
                lemma_entries_translated(log, two, base_url, now);
                lemma_entries_dated(log, two, TranscoderState::VideoEntries, base_url, now);
                let rest = run(log, two, TranscoderState::VideoEntries, base_url, now)->Ok_0;
                let piece = text_element("lastBuildDate"@, date);
                lemma_text_then("lastBuildDate"@, date, rest);
                assert(opens_no(piece, "pubDate"@));
                lemma_texts_then(piece, rest, "pubDate"@);
                assert(entry_dates_from(log.events, one, false) == entry_dates_from(
                    log.events,
                    two,
                    false,
                ));
            } else {
                lemma_channel_dated(log, one, links, base_url, now);
                let rest = run(log, one, state, base_url, now)->Ok_0;
                assert(Seq::<WriteEventView>::empty() + rest == rest);
            }
        },
        ParseEventView::StartDocument { .. } => {},
        ParseEventView::EndDocument => {},
        _ => {
            lemma_channel_dated(log, one, links, base_url, now);
            let rest = run(log, one, state, base_url, now)->Ok_0;
            assert(Seq::<WriteEventView>::empty() + rest == rest);
        },
    }
}

/// Before the root element, the translation of a feed of the right shape
/// holds the build date once, and the dates of the entries that follow.
proof fn lemma_header_dated(log: EventLogView, position: nat, base_url: Seq<char>, now: int)
    requires
        header_part(log, position),
        build_date(now) is Ok,
        position <= log.events.len(),
    ensures
        run(log, position, TranscoderState::Header, base_url, now) matches Ok(events)
            && texts_behind(events, "pubDate"@) == entry_dates_from(log.events, position, false)
            && texts_behind(events, "lastBuildDate"@) == seq![build_date(now)->Ok_0],
    decreases log.events.len() - position,
{
    lemma_names();
    lemma_date_names();
    lemma_header_translated(log, position, base_url, now);
    let one = (position + 1) as nat;
    match log.events[position as int] {
        ParseEventView::StartElement { .. } => {
            lemma_channel_dated(log, one, 0, base_url, now);
            let rest = run(log, one, TranscoderState::ChannelInfo, base_url, now)->Ok_0;
            let head = document_head();
            assert(opens_no(head, "pubDate"@));
            assert(opens_no(head, "lastBuildDate"@));
            lemma_texts_then(head, rest, "pubDate"@);
            lemma_texts_then(head, rest, "lastBuildDate"@);
        },
        ParseEventView::StartDocument { .. } => {},
        ParseEventView::EndDocument => {},
        _ => {
            lemma_header_dated(log, one, base_url, now);
            let rest = run(log, one, TranscoderState::Header, base_url, now)->Ok_0;
            assert(Seq::<WriteEventView>::empty() + rest == rest);
        },
    }
}

/// The dates of the translation of a feed: it holds one `lastBuildDate`,
/// with the date of the build time, whatever the feed holds; and one
/// `pubDate` for each `published` of an entry, in the order of the feed,
/// each with the date that is made of the text of that `published`.
pub proof fn feed_dates_are_rendered(log: EventLogView, base_url: Seq<char>, now: int)
    requires
        is_feed(log),
        build_date(now) is Ok,
    ensures
        transcript(log, base_url, now) matches Ok(events) && texts_behind(events, "pubDate"@)
            == entry_dates(log) && texts_behind(events, "lastBuildDate"@) == seq![
            build_date(now)->Ok_0,
        ],
{
    lemma_header_dated(log, 1, base_url, now);
    let rest = run(log, 1, TranscoderState::Header, base_url, now)->Ok_0;
    assert(Seq::<WriteEventView>::empty() + rest == rest);
}

/// Events that a writer takes behind others balance behind them.
proof fn lemma_accepted_balance(prior: Seq<WriteEventView>, events: Seq<WriteEventView>)
    requires
        prior.len() > 0,
        accepted(prior + events),
    ensures
        accepted(prior),
        balance(events, open_elements(prior)) == Some(open_elements(prior + events)),
    decreases events.len(),
{
    let whole = prior + events;
    if events.len() == 0 {
        assert(whole == prior);
    } else {
        let next = prior.push(events[0]);
        assert(next.drop_last() == prior);
        assert(whole == next + events.drop_first());
        lemma_accepted_balance(next, events.drop_first());
        assert forall|i: int| 0 <= i < prior.len() implies accepts(
            #[trigger] prior.take(i),
            prior[i],
        ) by {
            assert(next.take(i) == prior.take(i));
            assert(accepts(next.take(i), next[i]));
        }
        assert(next.take(prior.len() as int) == prior);
        assert(accepts(next.take(prior.len() as int), next[prior.len() as int]));
    }
}

/// No more entries follow from a later place than from an earlier one.
proof fn lemma_entries_left(events: Seq<ParseEventView>, from: nat, to: nat)
    requires
        from <= to,
    ensures
        entries_from(events, to) <= entries_from(events, from),
    decreases to - from,
{
    if from < to {
        lemma_entries_left(events, from + 1, to);
    }
}

/// How many channels a run of events that balances at `depth` has still to
/// open, by the state that it is written from.
spec fn channels_to_come(state: TranscoderState, depth: int) -> int {
    if state == TranscoderState::ChannelInfo {
        2 - depth
    } else {
        0
    }
}

/// Whether `depth` elements may be open in `state` for the rest to
/// balance: the document and the channel between entries, an item too
/// inside an entry.
spec fn depth_fits(state: TranscoderState, depth: int) -> bool {
    match state {
        TranscoderState::VideoEntries => depth == 2,
        TranscoderState::VideoEntry => depth == 3,
        _ => true,
    }
}

/// What balances from inside the feed on opens the channels that are
/// missing, and no more items than entries follow.
proof fn lemma_run_balances(
    log: EventLogView,
    position: nat,
    state: TranscoderState,
    base_url: Seq<char>,
    now: int,
    depth: int,
)
    requires
        position <= log.events.len(),
        depth >= 0,
        state != TranscoderState::Initial,
        state != TranscoderState::Header,
        run(log, position, state, base_url, now) is Ok,
        balance(run(log, position, state, base_url, now)->Ok_0, depth) == Some(0int),
    ensures
        depth_fits(state, depth),
        starts_named(run(log, position, state, base_url, now)->Ok_0, "channel"@)
            == channels_to_come(state, depth),
        starts_named(run(log, position, state, base_url, now)->Ok_0, "item"@) <= entries_from(
            log.events,
            position,
        ),
    decreases log.events.len() - position,
{
    lemma_names();
    lemma_pieces(depth);
    lemma_joined_pieces(depth);
    let whole = run(log, position, state, base_url, now)->Ok_0;
    if position < log.events.len() && !(log.events[position as int] is EndDocument) {
        let event = log.events[position as int];
        let at = advance(log, position);
        let next = step(log, at, state, event, base_url, now)->Ok_0;
        let rest = run(log, next.position, next.state, base_url, now)->Ok_0;
        assert(whole == next.emitted + rest);
        lemma_balance_join(next.emitted, rest, depth);
        lemma_starts_join(next.emitted, rest, "channel"@);
        lemma_starts_join(next.emitted, rest, "item"@);
        let after = balance(next.emitted, depth)->0;
        assert(after >= 0);
        assert(next.state != TranscoderState::Initial && next.state != TranscoderState::Header);
        lemma_run_balances(log, next.position, next.state, base_url, now, after);
        lemma_entries_left(log.events, position + 1, next.position);
        assert(starts_named(next.emitted, "item"@) > 0 ==> is_entry_start(event));
    }
}

/// What is written from before the root element on, if a writer takes it
/// and it leaves nothing open, is a whole document with one channel.
proof fn lemma_header_balances(
    log: EventLogView,
    position: nat,
    base_url: Seq<char>,
    now: int,
)
    requires
        position <= log.events.len(),
        run(log, position, TranscoderState::Header, base_url, now) is Ok,
        balanced(run(log, position, TranscoderState::Header, base_url, now)->Ok_0),
    ensures
        is_whole_feed_at_most(
            run(log, position, TranscoderState::Header, base_url, now),
            entries_from(log.events, position),
        ),
    decreases log.events.len() - position,
{
    lemma_names();
    let state = TranscoderState::Header;
    let whole = run(log, position, state, base_url, now)->Ok_0;
    if position < log.events.len() && !(log.events[position as int] is EndDocument) {
        let event = log.events[position as int];
        let at = advance(log, position);
        let next = step(log, at, state, event, base_url, now)->Ok_0;
        let rest = run(log, next.position, next.state, base_url, now)->Ok_0;
        assert(whole == next.emitted + rest);
        lemma_entries_left(log.events, position + 1, next.position);
        if event is StartElement {
            let head = document_head();
            lemma_accepted_balance(head, rest);
            assert(open_elements(head) == 1) by {
                reveal_with_fuel(open_elements, 6);
                assert(head.drop_last().drop_last().drop_last().drop_last().len() == 0);
            }
            lemma_run_balances(log, next.position, next.state, base_url, now, 1);
            assert(starts_named(head, "channel"@) == 0 && starts_named(head, "item"@) == 0) by {
                reveal_with_fuel(starts_named, 6);
            }
            lemma_starts_join(head, rest, "channel"@);
            lemma_starts_join(head, rest, "item"@);
            assert(whole[0] == head[0]);
        } else {
            assert(whole == rest);
            lemma_header_balances(log, next.position, base_url, now);
        }
    } else {
        let tail = document_tail();
        assert(whole == tail);
        assert(tail.take(0).len() == 0);
        assert(!accepts(tail.take(0), tail[0])) by {
            assert(open_elements(tail.take(0)) == 0);
        }
    }
}

/// Whether an outcome is a whole document with one channel and at most so
/// many items.
pub open spec fn is_whole_feed_at_most(
    outcome: Result<Seq<WriteEventView>, TranslationErrorView>,
    entries: nat,
) -> bool {
    &&& outcome matches Ok(events)
    &&& is_whole_document(events)
    &&& starts_named(events, "channel"@) == 1
    &&& starts_named(events, "item"@) <= entries
}

/// What is translated is a whole document: whatever the feed, the events
/// that make a document start with its declaration, close every element
/// that they open, and hold one channel and no more items than the feed
/// has entries.
pub proof fn translation_is_a_whole_document(log: EventLogView, base_url: Seq<char>, now: int)
    requires
        transcript(log, base_url, now) is Ok,
        crate::sink::document(transcript(log, base_url, now)->Ok_0) is Ok,
    ensures
        is_whole_feed_at_most(transcript(log, base_url, now), entries_in(log)),
{
    let whole = transcript(log, base_url, now)->Ok_0;
    let rest = run(log, 1, TranscoderState::Header, base_url, now)->Ok_0;
    assert(whole == Seq::<WriteEventView>::empty() + rest);
    assert(whole == rest);
    lemma_header_balances(log, 1, base_url, now);
    lemma_entries_left(log.events, 0, 1);
}

} // verus!
