use pulldown_cmark::{Event, TagEnd};
use vstd::prelude::*;

use crate::text::{chars_of, push_char, push_chars, string_of, trim, trimmed};

verus! {

/// The parts of a markdown event that excerpting reads.
#[derive(Debug)]
pub enum MdEvent {
    Text(String),
    Code(String),
    SoftBreak,
    HardBreak,
    ParagraphEnd,
    Other,
}

/// What an [`MdEvent`] holds, as mathematical values.
pub enum MdEventView {
    Text(Seq<char>),
    Code(Seq<char>),
    SoftBreak,
    HardBreak,
    ParagraphEnd,
    Other,
}

impl View for MdEvent {
    type V = MdEventView;

    open spec fn view(&self) -> MdEventView {
        match self {
            MdEvent::Text(t) => MdEventView::Text(t@),
            MdEvent::Code(t) => MdEventView::Code(t@),
            MdEvent::SoftBreak => MdEventView::SoftBreak,
            MdEvent::HardBreak => MdEventView::HardBreak,
            MdEvent::ParagraphEnd => MdEventView::ParagraphEnd,
            MdEvent::Other => MdEventView::Other,
        }
    }
}

/// The events of `events`, as mathematical values.
pub open spec fn events_view(events: Seq<MdEvent>) -> Seq<MdEventView> {
    events.map_values(|e: MdEvent| e@)
}

/// The HTML that pulldown-cmark renders for a markdown text, with
/// strikethrough enabled.
pub uninterp spec fn markdown_html(body: Seq<char>) -> Seq<char>;

/// The event stream that pulldown-cmark's parser, with no options, yields for
/// a markdown text (text, inline code, line breaks, paragraph ends; every
/// other event as `Other`).
pub uninterp spec fn markdown_event_stream(body: Seq<char>) -> Seq<MdEventView>;

/// Trusted: `pulldown_cmark::Parser::new_ext` with `Options::ENABLE_STRIKETHROUGH`,
/// fed to `pulldown_cmark::html::push_html` on an empty `String`. The result is
/// the name `markdown_html(body@)`; nothing is claimed about the HTML itself.
#[verifier::external_body]
fn markdown_to_html(body: &str) -> (html: String)
    ensures
        html@ == markdown_html(body@),
{
    let parser = pulldown_cmark::Parser::new_ext(body, pulldown_cmark::Options::ENABLE_STRIKETHROUGH);
    let mut html = String::new();
    pulldown_cmark::html::push_html(&mut html, parser);
    html
}

/// Trusted: the events of `pulldown_cmark::Parser::new(body)`, each turned into
/// an [`MdEvent`] one for one. The result is the name `markdown_event_stream(body@)`.
#[verifier::external_body]
fn markdown_events(body: &str) -> (events: Vec<MdEvent>)
    ensures
        events_view(events@) == markdown_event_stream(body@),
{
    let mut events = Vec::new();
    for event in pulldown_cmark::Parser::new(body) {
        events.push(match event {
            Event::Text(t) => MdEvent::Text(t.into_string()),
            Event::Code(t) => MdEvent::Code(t.into_string()),
            Event::SoftBreak => MdEvent::SoftBreak,
            Event::HardBreak => MdEvent::HardBreak,
            Event::End(TagEnd::Paragraph) => MdEvent::ParagraphEnd,
            _ => MdEvent::Other,
        });
    }
    events
}

/// Renders a markdown body to HTML (strikethrough enabled).
pub fn render_markdown(body: &str) -> (html: String)
    ensures
        html@ == markdown_html(body@),
{
    markdown_to_html(body)
}

/// The plain text gathered from `events` after `acc` has been gathered:
/// text and inline code verbatim, a space for each line break, stopping at
/// the end of the first paragraph that produced any text.
pub open spec fn gather_text_from(acc: Seq<char>, events: Seq<MdEventView>) -> Seq<char>
    decreases events.len(),
{
    if events.len() == 0 {
        acc
    } else {
        let rest = events.drop_first();
        match events[0] {
            MdEventView::Text(t) => gather_text_from(acc + t, rest),
            MdEventView::Code(t) => gather_text_from(acc + t, rest),
            MdEventView::SoftBreak => gather_text_from(acc.push(' '), rest),
            MdEventView::HardBreak => gather_text_from(acc.push(' '), rest),
            MdEventView::ParagraphEnd => if acc.len() > 0 {
                acc
            } else {
                gather_text_from(acc, rest)
            },
            MdEventView::Other => gather_text_from(acc, rest),
        }
    }
}

/// The plain text of the first paragraph that has any, taken from `events`.
pub open spec fn gathered_text(events: Seq<MdEventView>) -> Seq<char> {
    gather_text_from(Seq::empty(), events)
}

/// The last index of `c` in `s`.
pub open spec fn last_index_of(s: Seq<char>, c: char) -> Option<int>
    decreases s.len(),
{
    if s.len() == 0 {
        None
    } else if s.last() == c {
        Some(s.len() - 1)
    } else {
        last_index_of(s.drop_last(), c)
    }
}

/// A found last index is in bounds, holds `c`, and no later index holds `c`.
pub proof fn lemma_last_index_of(s: Seq<char>, c: char)
    ensures
        match last_index_of(s, c) {
            Some(i) => 0 <= i < s.len() && s[i] == c && forall|k: int| i < k < s.len() ==> s[k] != c,
            None => forall|k: int| 0 <= k < s.len() ==> s[k] != c,
        },
    decreases s.len(),
{
    if s.len() > 0 && s.last() != c {
        let t = s.drop_last();
        lemma_last_index_of(t, c);
        assert forall|k: int| 0 <= k < t.len() implies t[k] == s[k] by {}
    }
}

/// The ellipsis that marks a cut excerpt.
pub open spec fn ellipsis() -> char {
    '\u{2026}'
}

/// `text` trimmed, and, when longer than `max_chars` characters, cut to its
/// first `max_chars` characters, then back to the last space in them (when
/// there is one), with an ellipsis appended.
pub open spec fn shortened(text: Seq<char>, max_chars: nat) -> Seq<char> {
    let t = trimmed(text);
    if t.len() <= max_chars {
        t
    } else {
        let cut = t.take(max_chars as int);
        match last_index_of(cut, ' ') {
            Some(i) => cut.take(i).push(ellipsis()),
            None => cut.push(ellipsis()),
        }
    }
}

/// The plain-text excerpt of a markdown body.
pub open spec fn excerpt_of(body: Seq<char>, max_chars: nat) -> Seq<char> {
    shortened(gathered_text(markdown_event_stream(body)), max_chars)
}

proof fn lemma_gather_step(acc: Seq<char>, events: Seq<MdEventView>, i: int)
    requires
        0 <= i < events.len(),
    ensures
        gather_text_from(acc, events.skip(i)) == ({
            let rest = events.skip(i + 1);
            match events[i] {
                MdEventView::Text(t) => gather_text_from(acc + t, rest),
                MdEventView::Code(t) => gather_text_from(acc + t, rest),
                MdEventView::SoftBreak => gather_text_from(acc.push(' '), rest),
                MdEventView::HardBreak => gather_text_from(acc.push(' '), rest),
                MdEventView::ParagraphEnd => if acc.len() > 0 {
                    acc
                } else {
                    gather_text_from(acc, rest)
                },
                MdEventView::Other => gather_text_from(acc, rest),
            }
        }),
{
    assert(events.skip(i).drop_first() =~= events.skip(i + 1));
    assert(events.skip(i)[0] == events[i]);
}

/// The plain text of the first paragraph that has any: text and inline code
/// verbatim, a space for each soft or hard line break.
pub fn gather_text(events: &Vec<MdEvent>) -> (text: String)
    ensures
        text@ == gathered_text(events_view(events@)),
{
    let ghost evs = events_view(events@);
    let mut text = String::new();
    let mut i: usize = 0;
    assert(evs.skip(0) =~= evs);
    while i < events.len()
        invariant
            i <= events.len(),
            evs == events_view(events@),
            gathered_text(evs) == gather_text_from(text@, evs.skip(i as int)),
        decreases events.len() - i,
    {
        proof {
            lemma_gather_step(text@, evs, i as int);
        }
        match &events[i] {
            MdEvent::Text(t) => {
                text.append(t.as_str());
            },
            MdEvent::Code(t) => {
                text.append(t.as_str());
            },
            MdEvent::SoftBreak => {
                push_char(&mut text, ' ');
            },
            MdEvent::HardBreak => {
                push_char(&mut text, ' ');
            },
            MdEvent::ParagraphEnd => {
                if text.as_str().unicode_len() > 0 {
                    return text;
                }
            },
            MdEvent::Other => {},
        }
        i += 1;
    }
    assert(evs.skip(i as int) =~= Seq::<MdEventView>::empty());
    text
}

/// The last index of `c` among the first `end` characters of `chars`.
fn last_index_in(chars: &Vec<char>, end: usize, c: char) -> (r: Option<usize>)
    requires
        end <= chars.len(),
    ensures
        match r {
            Some(i) => last_index_of(chars@.take(end as int), c) == Some(i as int),
            None => last_index_of(chars@.take(end as int), c) is None,
        },
{
    let mut j: usize = end;
    while j > 0
        invariant
            j <= end <= chars.len(),
            last_index_of(chars@.take(end as int), c) == last_index_of(chars@.take(j as int), c),
        decreases j,
    {
        assert(chars@.take(j as int).last() == chars@[j - 1]);
        assert(chars@.take(j as int).drop_last() =~= chars@.take(j - 1));
        if chars[j - 1] == c {
            return Some(j - 1);
        }
        j -= 1;
    }
    None
}

/// `text` trimmed and cut to at most `max_chars` characters on a word
/// boundary, with an ellipsis when anything was cut.
pub fn shorten(text: &str, max_chars: usize) -> (short: String)
    ensures
        short@ == shortened(text@, max_chars as nat),
{
    let t = trim(text);
    let chars = chars_of(t);
    if chars.len() <= max_chars {
        return string_of(&chars);
    }
    let ghost cut = t@.take(max_chars as int);
    let mut out = String::new();
    match last_index_in(&chars, max_chars, ' ') {
        Some(i) => {
            proof {
                lemma_last_index_of(cut, ' ');
            }
            let mut head: Vec<char> = Vec::new();
            let mut k: usize = 0;
            while k < i
                invariant
                    k <= i < max_chars < chars.len(),
                    head@ == chars@.take(k as int),
                decreases i - k,
            {
                head.push(chars[k]);
                k += 1;
                assert(head@ =~= chars@.take(k as int));
            }
            push_chars(&mut out, &head);
            push_char(&mut out, '\u{2026}');
            assert(out@ =~= cut.take(i as int).push(ellipsis()));
        },
        None => {
            let mut head: Vec<char> = Vec::new();
            let mut k: usize = 0;
            while k < max_chars
                invariant
                    k <= max_chars < chars.len(),
                    head@ == chars@.take(k as int),
                decreases max_chars - k,
            {
                head.push(chars[k]);
                k += 1;
                assert(head@ =~= chars@.take(k as int));
            }
            push_chars(&mut out, &head);
            push_char(&mut out, '\u{2026}');
            assert(out@ =~= cut.push(ellipsis()));
        },
    }
    out
}

/// Plain-text excerpt for list views: markdown stripped, truncated to roughly
/// `max_chars` characters, cut on a word boundary.
pub fn plain_excerpt(body: &str, max_chars: usize) -> (excerpt: String)
    ensures
        excerpt@ == excerpt_of(body@, max_chars as nat),
{
    let events = markdown_events(body);
    let text = gather_text(&events);
    shorten(text.as_str(), max_chars)
}

/// An excerpt is at most one character (the ellipsis) longer than asked
/// for, and text that already fits comes back only trimmed.
pub proof fn lemma_excerpt_bounded(text: Seq<char>, max_chars: nat)
    ensures
        shortened(text, max_chars).len() <= max_chars + 1,
        trimmed(text).len() <= max_chars ==> shortened(text, max_chars) == trimmed(text),
{
    let t = trimmed(text);
    if t.len() > max_chars {
        let cut = t.take(max_chars as int);
        lemma_last_index_of(cut, ' ');
    }
}

/// The plain text one event contributes: text and inline code verbatim, a
/// space for a soft or hard line break, nothing otherwise.
pub open spec fn event_text(e: MdEventView) -> Seq<char> {
    match e {
        MdEventView::Text(t) => t,
        MdEventView::Code(t) => t,
        MdEventView::SoftBreak => seq![' '],
        MdEventView::HardBreak => seq![' '],
        _ => Seq::empty(),
    }
}

/// The plain text of all of `events`, one after the other.
pub open spec fn all_text(events: Seq<MdEventView>) -> Seq<char>
    decreases events.len(),
{
    if events.len() == 0 {
        Seq::empty()
    } else {
        event_text(events[0]) + all_text(events.drop_first())
    }
}

/// Running out of events keeps what was gathered: with no paragraph end
/// among `events` (a body that is only a heading, a list or a code block),
/// gathering appends the plain text of every event to what came before.
pub proof fn lemma_gather_keeps_text_without_paragraph_end(acc: Seq<char>, events: Seq<MdEventView>)
    requires
        forall|i: int| 0 <= i < events.len() ==> !(#[trigger] events[i] is ParagraphEnd),
    ensures
        gather_text_from(acc, events) == acc + all_text(events),
    decreases events.len(),
{
    if events.len() == 0 {
        assert(acc + all_text(events) =~= acc);
    } else {
        let rest = events.drop_first();
        assert forall|i: int| 0 <= i < rest.len() implies !(#[trigger] rest[i] is ParagraphEnd) by {
            assert(rest[i] == events[i + 1]);
        }
        assert(!(events[0] is ParagraphEnd));
        let e = events[0];
        let next = acc + event_text(e);
        lemma_gather_keeps_text_without_paragraph_end(next, rest);
        assert(acc.push(' ') =~= acc + seq![' ']);
        assert(next + all_text(rest) =~= acc + (event_text(e) + all_text(rest)));
    }
}

/// The excerpt text stops at the first paragraph end once some text was
/// gathered: for events `pre`, a paragraph end, then anything, where `pre`
/// holds no paragraph end and gives some text, the text is that of `pre`.
pub proof fn lemma_gather_stops_at_first_paragraph(pre: Seq<MdEventView>, post: Seq<MdEventView>)
    requires
        forall|i: int| 0 <= i < pre.len() ==> !(#[trigger] pre[i] is ParagraphEnd),
        all_text(pre).len() > 0,
    ensures
        gathered_text(pre + seq![MdEventView::ParagraphEnd] + post) == all_text(pre),
{
    lemma_gather_prefix(Seq::empty(), pre, seq![MdEventView::ParagraphEnd] + post);
    assert(pre + seq![MdEventView::ParagraphEnd] + post =~= pre + (seq![MdEventView::ParagraphEnd] + post));
    assert(Seq::<char>::empty() + all_text(pre) =~= all_text(pre));
    let tail = seq![MdEventView::ParagraphEnd] + post;
    assert(tail[0] is ParagraphEnd);
}

/// Gathering over events without a paragraph end, then more events, is
/// gathering the more events after the text of the first ones.
proof fn lemma_gather_prefix(acc: Seq<char>, pre: Seq<MdEventView>, more: Seq<MdEventView>)
    requires
        forall|i: int| 0 <= i < pre.len() ==> !(#[trigger] pre[i] is ParagraphEnd),
    ensures
        gather_text_from(acc, pre + more) == gather_text_from(acc + all_text(pre), more),
    decreases pre.len(),
{
    if pre.len() == 0 {
        assert(pre + more =~= more);
        assert(acc + all_text(pre) =~= acc);
    } else {
        let rest = pre.drop_first();
        assert forall|i: int| 0 <= i < rest.len() implies !(#[trigger] rest[i] is ParagraphEnd) by {
            assert(rest[i] == pre[i + 1]);
        }
        assert(!(pre[0] is ParagraphEnd));
        let e = pre[0];
        lemma_gather_prefix(acc + event_text(e), rest, more);
        assert((pre + more).drop_first() =~= rest + more);
        assert((pre + more)[0] == e);
        assert(acc.push(' ') =~= acc + seq![' ']);
        assert(acc + event_text(e) + all_text(rest) =~= acc + all_text(pre));
    }
}

} // verus!
