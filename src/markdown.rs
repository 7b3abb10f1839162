//! The Markdown path: a walk over the parser's flat event stream that
//! suppresses headings and routes text, code, breaks and raw HTML.

use vstd::prelude::*;
use crate::html::{clean_text_with_html, code_masked, fragments, html_tree_of, join, MAX_HTML_CHARS};
use crate::normalize::{clean_spec, clean_text};
use crate::tokens::{
    code_string, code_token, push_cleaned_text, push_kept, push_spec, push_structural, sep_string,
    sep_token, texts,
};
use pulldown_cmark::{Event, Parser, Tag};

verus! {

/// One event of a Markdown parse, with the content that the walk reads.
pub enum MdEvent {
    StartHeading,
    Start,
    EndHeading,
    End,
    Text(String),
    Code(String),
    Html(String),
    FootnoteReference(String),
    SoftBreak,
    HardBreak,
    Rule,
    TaskListMarker(bool),
}

/// The events that pulldown-cmark produces for `s`.
pub uninterp spec fn markdown_events_of(s: Seq<char>) -> Seq<MdEvent>;

/// Relies on `pulldown_cmark::Parser::new`: the document's events in order,
/// each converted variant for variant.
#[verifier::external_body]
pub(crate) fn markdown_events(s: &str) -> (r: Vec<MdEvent>)
    ensures
        r@ == markdown_events_of(s@),
{
    Parser::new(s).map(|e| match e {
        Event::Start(Tag::Heading(..)) => MdEvent::StartHeading,
        Event::Start(_) => MdEvent::Start,
        Event::End(Tag::Heading(..)) => MdEvent::EndHeading,
        Event::End(_) => MdEvent::End,
        Event::Text(t) => MdEvent::Text(t.to_string()),
        Event::Code(t) => MdEvent::Code(t.to_string()),
        Event::Html(t) => MdEvent::Html(t.to_string()),
        Event::FootnoteReference(t) => MdEvent::FootnoteReference(t.to_string()),
        Event::SoftBreak => MdEvent::SoftBreak,
        Event::HardBreak => MdEvent::HardBreak,
        Event::Rule => MdEvent::Rule,
        Event::TaskListMarker(b) => MdEvent::TaskListMarker(b),
    }).collect()
}

/// The walk's state: the stream so far, the summed counters, and whether the
/// walk is inside a heading.
pub struct MdState {
    pub out: Seq<Seq<char>>,
    pub added: nat,
    pub ignored: nat,
    pub ignore: bool,
}

/// Appends `toks` to `out`, skipping each token equal to the one before it,
/// through the post-processor.
pub open spec fn merge(out: Seq<Seq<char>>, toks: Seq<Seq<char>>) -> Seq<Seq<char>>
    decreases toks.len(),
{
    if toks.len() == 0 {
        out
    } else {
        let o = merge(out, toks.drop_last());
        if o.len() > 0 && o.last() == toks.last() {
            o
        } else {
            push_spec(o, toks.last()).0
        }
    }
}

/// The state after a normaliser outcome `c` is merged and closed by `[SEP]`.
pub open spec fn absorb(st: MdState, c: (Seq<Seq<char>>, nat, nat)) -> MdState {
    MdState {
        out: push_spec(merge(st.out, c.0), sep_token()).0,
        added: st.added + c.1,
        ignored: st.ignored + c.2,
        ignore: st.ignore,
    }
}

/// The effect of one event.
pub open spec fn md_step(st: MdState, e: MdEvent) -> MdState {
    match e {
        MdEvent::StartHeading => MdState { ignore: true, ..st },
        MdEvent::EndHeading => MdState { ignore: false, ..st },
        MdEvent::Text(t) => if st.ignore {
            st
        } else {
            absorb(st, clean_spec(t@))
        },
        MdEvent::Code(_) => if st.ignore {
            st
        } else {
            MdState { out: push_kept(st.out, code_token()), ..st }
        },
        MdEvent::SoftBreak | MdEvent::HardBreak => if st.ignore {
            st
        } else {
            MdState { out: push_spec(st.out, sep_token()).0, ..st }
        },
        MdEvent::Html(h) => if st.ignore || h@.len() > MAX_HTML_CHARS {
            st
        } else {
            absorb(st, clean_spec(code_masked(join(fragments(html_tree_of(h@), 0)))))
        },
        _ => st,
    }
}

/// The state after walking `es`.
pub open spec fn md_walk(es: Seq<MdEvent>) -> MdState
    decreases es.len(),
{
    if es.len() == 0 {
        MdState { out: seq![], added: 0, ignored: 0, ignore: false }
    } else {
        md_step(md_walk(es.drop_last()), es.last())
    }
}

/// `n`, or `usize::MAX` where it does not fit.
pub open spec fn capped(n: nat) -> nat {
    if n > usize::MAX {
        usize::MAX as nat
    } else {
        n
    }
}

/// Appends `toks` to `out` as `merge` says.
fn merge_tokens(out: &mut Vec<String>, toks: &Vec<String>)
    ensures
        texts(final(out)@) == merge(texts(old(out)@), texts(toks@)),
{
    let ghost start = texts(out@);
    let ghost ts = texts(toks@);
    let mut i: usize = 0;
    assert(ts.subrange(0, 0) =~= seq![]);
    while i < toks.len()
        invariant
            i <= toks@.len(),
            ts == texts(toks@),
            texts(out@) == merge(start, ts.subrange(0, i as int)),
        decreases toks@.len() - i,
    {
        assert(ts.subrange(0, i + 1).drop_last() =~= ts.subrange(0, i as int));
        assert(ts[i as int] == toks@[i as int]@);
        let n = out.len();
        if n > 0 && out[n - 1] == toks[i] {
            assert(texts(out@).last() == out@[n - 1]@);
        } else {
            let _ = push_cleaned_text(out, toks[i].as_str());
        }
        i += 1;
    }
    assert(ts.subrange(0, ts.len() as int) =~= ts);
}

/// Walks the events `es` of a Markdown document: everything from a heading's
/// start to its end is dropped; each text run is normalised and merged, then
/// closed by `[SEP]`; a code span gives `code`; a line break gives `[SEP]`; raw
/// HTML goes the HTML path and is merged like text, where it is short enough
/// for the HTML parser (`MAX_HTML_CHARS`), and is dropped where it is not. The counters are the normaliser's, summed, capped at
/// `usize::MAX`.
pub fn clean_markdown_events(es: &Vec<MdEvent>) -> (r: (Vec<String>, usize, usize))
    ensures
        texts(r.0@) == md_walk(es@).out,
        r.1 as nat == capped(md_walk(es@).added),
        r.2 as nat == capped(md_walk(es@).ignored),
{
    let mut out: Vec<String> = Vec::new();
    let mut added: usize = 0;
    let mut ignored: usize = 0;
    let mut ignore = false;
    let mut i: usize = 0;
    assert(texts(out@) =~= seq![]);
    assert(es@.subrange(0, 0) =~= seq![]);
    while i < es.len()
        invariant
            i <= es@.len(),
            texts(out@) == md_walk(es@.subrange(0, i as int)).out,
            added as nat == capped(md_walk(es@.subrange(0, i as int)).added),
            ignored as nat == capped(md_walk(es@.subrange(0, i as int)).ignored),
            ignore == md_walk(es@.subrange(0, i as int)).ignore,
        decreases es@.len() - i,
    {
        assert(es@.subrange(0, i + 1).drop_last() =~= es@.subrange(0, i as int));
        let e = &es[i];
        match e {
            MdEvent::StartHeading => {
                ignore = true;
            },
            MdEvent::EndHeading => {
                ignore = false;
            },
            MdEvent::Text(t) => {
                if !ignore {
                    let (toks, a, g) = clean_text(t.as_str());
                    merge_tokens(&mut out, &toks);
                    let _ = push_cleaned_text(&mut out, sep_string().as_str());
                    added = added.saturating_add(a);
                    ignored = ignored.saturating_add(g);
                }
            },
            MdEvent::Code(_) => {
                if !ignore {
                    push_structural(&mut out, code_string());
                }
            },
            MdEvent::SoftBreak | MdEvent::HardBreak => {
                if !ignore {
                    let _ = push_cleaned_text(&mut out, sep_string().as_str());
                }
            },
            MdEvent::Html(h) => {
                if !ignore && h.unicode_len() <= MAX_HTML_CHARS {
                    let (toks, a, g) = clean_text_with_html(h.as_str());
                    merge_tokens(&mut out, &toks);
                    let _ = push_cleaned_text(&mut out, sep_string().as_str());
                    added = added.saturating_add(a);
                    ignored = ignored.saturating_add(g);
                }
            },
            _ => {},
        }
        i += 1;
    }
    assert(es@.subrange(0, es@.len() as int) =~= es@);
    (out, added, ignored)
}

/// Parses `text` as Markdown and walks its events as `clean_markdown_events`
/// does.
pub fn clean_text_with_markdown(text: &str) -> (r: (Vec<String>, usize, usize))
    ensures
        texts(r.0@) == md_walk(markdown_events_of(text@)).out,
        r.1 as nat == capped(md_walk(markdown_events_of(text@)).added),
        r.2 as nat == capped(md_walk(markdown_events_of(text@)).ignored),
{
    let es = markdown_events(text);
    clean_markdown_events(&es)
}

} // verus!
