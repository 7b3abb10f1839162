//! Properties that every output of the normaliser has.

use vstd::prelude::*;
use crate::chars::{is_ascii_punct, is_split_char, is_ws, starts_with, trim, trim_end, trim_start};
use crate::html::{code_masked, fragments, html_tree_of, join};
use crate::language::{detection_of, refuses};
use crate::markdown::{md_step, md_walk, merge, MdEvent, MdState};
use crate::normalize::{clean_spec, flush, http_start, scan, scan_init, step, tally, ScanState};
use crate::tokens::{
    code_token, http_prefix, https_prefix, link_token, push_spec, push_kept, random_word_token,
    sep_token, suppressed, MAX_TOKEN_CHARS,
};

verus! {

/// The tokens that a substitution puts in the stream.
pub open spec fn is_placeholder(t: Seq<char>) -> bool {
    t == link_token() || t == random_word_token()
}

/// No two neighbouring tokens are equal, unless the second is a placeholder.
pub open spec fn no_adjacent_repeats(out: Seq<Seq<char>>) -> bool {
    forall|i: int, j: int|
        0 <= i && j == i + 1 && j < out.len() && #[trigger] out[i] == #[trigger] out[j]
            ==> is_placeholder(out[j])
}

/// No token begins with `http:/` or `https:/`.
pub open spec fn no_raw_links(out: Seq<Seq<char>>) -> bool {
    forall|i: int|
        0 <= i < out.len() ==> !starts_with(#[trigger] out[i], http_prefix()) && !starts_with(
            out[i],
            https_prefix(),
        )
}

/// No token is longer than `MAX_TOKEN_CHARS`.
pub open spec fn tokens_capped(out: Seq<Seq<char>>) -> bool {
    forall|i: int| 0 <= i < out.len() ==> (#[trigger] out[i]).len() <= MAX_TOKEN_CHARS
}

pub open spec fn stream_ok(out: Seq<Seq<char>>) -> bool {
    no_adjacent_repeats(out) && no_raw_links(out) && tokens_capped(out)
}

proof fn lemma_placeholders_plain()
    ensures
        !starts_with(link_token(), http_prefix()),
        !starts_with(link_token(), https_prefix()),
        !starts_with(random_word_token(), http_prefix()),
        !starts_with(random_word_token(), https_prefix()),
{
    assert(random_word_token().subrange(0, 6)[0] != http_prefix()[0]);
    assert(random_word_token().subrange(0, 7)[0] != https_prefix()[0]);
}

proof fn lemma_push_one_keeps(out: Seq<Seq<char>>, x: Seq<char>)
    requires
        stream_ok(out),
        out.len() > 0 ==> out.last() == x ==> is_placeholder(x),
        !starts_with(x, http_prefix()),
        !starts_with(x, https_prefix()),
        x.len() <= MAX_TOKEN_CHARS,
    ensures
        stream_ok(out.push(x)),
{
    let n = out.push(x);
    assert forall|i: int, j: int|
        0 <= i && j == i + 1 && j < n.len() && #[trigger] n[i] == #[trigger] n[j] implies is_placeholder(
        n[j]) by {
        if j < out.len() {
            assert(n[i] == out[i] && n[j] == out[j]);
        } else {
            assert(n[i] == out.last());
        }
    }
    assert forall|i: int| 0 <= i < n.len() implies !starts_with(#[trigger] n[i], http_prefix())
        && !starts_with(n[i], https_prefix()) by {
        if i < out.len() {
            assert(n[i] == out[i]);
        }
    }
    assert forall|i: int| 0 <= i < n.len() implies (#[trigger] n[i]).len() <= MAX_TOKEN_CHARS by {
        if i < out.len() {
            assert(n[i] == out[i]);
        }
    }
}

/// The post-processor keeps the stream's properties.
proof fn lemma_push_keeps(out: Seq<Seq<char>>, txt: Seq<char>)
    requires
        stream_ok(out),
    ensures
        stream_ok(push_spec(out, txt).0),
{
    lemma_placeholders_plain();
    let t = trim(txt);
    if starts_with(t, http_prefix()) || starts_with(t, https_prefix()) {
        lemma_push_one_keeps(out, link_token());
    } else if suppressed(out, t) {
    } else if t.len() > 1 && refuses(detection_of(t)) {
    } else if t.len() > MAX_TOKEN_CHARS {
        lemma_push_one_keeps(out, random_word_token());
    } else {
        lemma_push_one_keeps(out, t);
    }
}

proof fn lemma_flush_keeps(st: ScanState)
    requires
        stream_ok(st.out),
    ensures
        stream_ok(flush(st).out),
{
    if st.buf.len() > 0 {
        lemma_push_keeps(st.out, trim(st.buf));
        let (o, r) = push_spec(st.out, trim(st.buf));
        assert(tally(ScanState { out: o, buf: seq![], ..st }, r).out == o);
    }
}

proof fn lemma_step_keeps(st: ScanState, c: char)
    requires
        stream_ok(st.out),
    ensures
        stream_ok(step(st, c).out),
{
    let s1 = ScanState { last: c, ..st };
    lemma_flush_keeps(s1);
    lemma_push_keeps(flush(s1).out, sep_token());
    let s2 = ScanState { escaped: false, ..s1 };
    lemma_flush_keeps(s2);
    lemma_push_keeps(flush(s2).out, seq![c]);
}

proof fn lemma_scan_keeps(s: Seq<char>)
    ensures
        stream_ok(scan(s).out),
    decreases s.len(),
{
    if s.len() > 0 {
        lemma_scan_keeps(s.drop_last());
        lemma_step_keeps(scan(s.drop_last()), s.last());
    }
}

proof fn lemma_clean_keeps(s: Seq<char>)
    ensures
        stream_ok(clean_spec(s).0),
{
    lemma_scan_keeps(s);
    lemma_flush_keeps(scan(s));
}

proof fn lemma_merge_keeps(out: Seq<Seq<char>>, toks: Seq<Seq<char>>)
    requires
        stream_ok(out),
    ensures
        stream_ok(merge(out, toks)),
    decreases toks.len(),
{
    if toks.len() > 0 {
        lemma_merge_keeps(out, toks.drop_last());
        lemma_push_keeps(merge(out, toks.drop_last()), toks.last());
    }
}

proof fn lemma_md_step_keeps(st: MdState, e: MdEvent)
    requires
        stream_ok(st.out),
    ensures
        stream_ok(md_step(st, e).out),
{
    lemma_push_keeps(st.out, code_token());
    lemma_push_keeps(st.out, sep_token());
    match e {
        MdEvent::Text(t) => {
            let c = clean_spec(t@);
            lemma_merge_keeps(st.out, c.0);
            lemma_push_keeps(merge(st.out, c.0), sep_token());
        },
        MdEvent::Html(h) => {
            let c = clean_spec(code_masked(join(fragments(html_tree_of(h@), 0))));
            lemma_merge_keeps(st.out, c.0);
            lemma_push_keeps(merge(st.out, c.0), sep_token());
        },
        _ => {},
    }
}

proof fn lemma_md_walk_keeps(es: Seq<MdEvent>)
    ensures
        stream_ok(md_walk(es).out),
    decreases es.len(),
{
    if es.len() > 0 {
        lemma_md_walk_keeps(es.drop_last());
        lemma_md_step_keeps(md_walk(es.drop_last()), es.last());
    }
}

/// Of the tokens of any fragment, no two neighbours are equal, unless the
/// second is a placeholder (`link` or `random-word`).
pub proof fn lemma_no_adjacent_repeats(s: Seq<char>)
    ensures
        no_adjacent_repeats(clean_spec(s).0),
{
    lemma_clean_keeps(s);
}

/// Of the tokens that the HTML path gives for any text, no two neighbours are
/// equal, unless the second is a placeholder (`link` or `random-word`).
pub proof fn lemma_html_no_adjacent_repeats(s: Seq<char>)
    ensures
        no_adjacent_repeats(clean_spec(code_masked(join(fragments(html_tree_of(s), 0)))).0),
{
    lemma_clean_keeps(code_masked(join(fragments(html_tree_of(s), 0))));
}

/// Of the tokens of any Markdown event stream, no two neighbours are equal,
/// unless the second is a placeholder (`link` or `random-word`).
pub proof fn lemma_markdown_no_adjacent_repeats(es: Seq<MdEvent>)
    ensures
        no_adjacent_repeats(md_walk(es).out),
{
    lemma_md_walk_keeps(es);
}

/// No token of any fragment is a raw URL: whatever began with `http:/` or
/// `https:/` became `link`.
pub proof fn lemma_no_raw_links(s: Seq<char>)
    ensures
        no_raw_links(clean_spec(s).0),
{
    lemma_clean_keeps(s);
}

/// No token of any Markdown event stream is a raw URL.
pub proof fn lemma_markdown_no_raw_links(es: Seq<MdEvent>)
    ensures
        no_raw_links(md_walk(es).out),
{
    lemma_md_walk_keeps(es);
}

/// Inside a word that begins with `http`, a `:` or `.` stays in the word and
/// emits nothing, so a URL is never split at them.
pub proof fn lemma_url_punctuation_stays(st: ScanState, c: char)
    requires
        starts_with(st.buf, http_start()),
        c == ':' || c == '.',
        c != st.last,
    ensures
        step(st, c).buf == st.buf.push(c),
        step(st, c).out == st.out,
{
}

/// No token of any fragment is longer than 32 characters.
pub proof fn lemma_tokens_capped(s: Seq<char>)
    ensures
        tokens_capped(clean_spec(s).0),
{
    lemma_clean_keeps(s);
}

/// No token of any Markdown event stream is longer than 32 characters.
pub proof fn lemma_markdown_tokens_capped(es: Seq<MdEvent>)
    ensures
        tokens_capped(md_walk(es).out),
{
    lemma_md_walk_keeps(es);
}

/// A candidate longer than 32 characters that the policy accepts joins the
/// stream as `random-word`, and is counted as accepted.
pub proof fn lemma_long_candidate_capped(out: Seq<Seq<char>>, txt: Seq<char>)
    requires
        trim(txt).len() > MAX_TOKEN_CHARS,
        !starts_with(trim(txt), http_prefix()),
        !starts_with(trim(txt), https_prefix()),
        !suppressed(out, trim(txt)),
        !refuses(detection_of(trim(txt))),
    ensures
        push_spec(out, txt) == (out.push(random_word_token()), Some(true)),
{
}

/// An escaped `n`, `t` or `r` ends the word being accumulated and emits no
/// `[SEP]`: the stream grows by that word alone.
pub proof fn lemma_escape_flushes(st: ScanState, c: char)
    requires
        st.escaped,
        c == 'n' || c == 't' || c == 'r',
    ensures
        step(st, c) == flush(ScanState { last: c, escaped: false, ..st }),
{
}

/// Inside a heading, every event but the heading's end leaves the stream and
/// the counters as they were.
pub proof fn lemma_heading_suppresses(st: MdState, e: MdEvent)
    requires
        st.ignore,
        !(e is EndHeading),
    ensures
        md_step(st, e) == st,
{
}

/// Everything between the start of a heading and its end leaves no token and
/// no count behind, whatever inline tags stand inside.
pub proof fn lemma_heading_content_dropped(pre: Seq<MdEvent>, body: Seq<MdEvent>)
    requires
        forall|i: int| 0 <= i < body.len() ==> !(#[trigger] body[i] is EndHeading),
    ensures
        md_walk(pre.push(MdEvent::StartHeading) + body).out == md_walk(pre).out,
        md_walk(pre.push(MdEvent::StartHeading) + body).added == md_walk(pre).added,
        md_walk(pre.push(MdEvent::StartHeading) + body).ignored == md_walk(pre).ignored,
        md_walk(pre.push(MdEvent::StartHeading) + body).ignore,
    decreases body.len(),
{
    let all = pre.push(MdEvent::StartHeading) + body;
    if body.len() == 0 {
        assert(all =~= pre.push(MdEvent::StartHeading));
        assert(all.drop_last() =~= pre);
    } else {
        let shorter = body.drop_last();
        lemma_heading_content_dropped(pre, shorter);
        assert(all.drop_last() =~= pre.push(MdEvent::StartHeading) + shorter);
        assert(all.last() == body.last());
        assert(!(body[body.len() - 1] is EndHeading));
    }
}

/// A code span gives the one token `code`, whatever its content, past the
/// language filter and uncounted; only a `code` right before it absorbs it.
pub proof fn lemma_code_span(st: MdState, c: String)
    requires
        !st.ignore,
    ensures
        md_step(st, MdEvent::Code(c)) == (MdState { out: push_kept(st.out, code_token()), ..st }),
        st.out.len() == 0 || st.out.last() != code_token() ==> push_kept(st.out, code_token())
            == st.out.push(code_token()),
{
}

/// A word character: neither whitespace nor ASCII punctuation.
pub open spec fn is_word_char(c: char) -> bool {
    !is_ws(c) && !is_ascii_punct(c)
}

/// A word that the scanner takes whole: two or more word characters.
pub open spec fn is_plain_word(w: Seq<char>) -> bool {
    w.len() > 1 && forall|i: int| 0 <= i < w.len() ==> is_word_char(#[trigger] w[i])
}

proof fn lemma_split_chars_are_punct(c: char)
    ensures
        is_split_char(c) ==> is_ascii_punct(c),
{
}

proof fn lemma_plain_trim(w: Seq<char>)
    requires
        is_plain_word(w),
    ensures
        trim(w) == w,
        !starts_with(w, http_prefix()),
        !starts_with(w, https_prefix()),
{
    assert(!is_ws(w[0]));
    assert(trim_start(w) == w);
    assert(!is_ws(w.last()));
    assert(trim_end(w) == w);
    if starts_with(w, http_prefix()) {
        assert(w.subrange(0, 6)[4] == ':');
        assert(is_word_char(w[4]));
    }
    if starts_with(w, https_prefix()) {
        assert(w.subrange(0, 7)[5] == ':');
        assert(is_word_char(w[5]));
    }
}

/// Word characters only grow the word being accumulated.
proof fn lemma_scan_word(p: Seq<char>, w: Seq<char>)
    requires
        !scan(p).escaped,
        forall|i: int| 0 <= i < w.len() ==> is_word_char(#[trigger] w[i]),
    ensures
        scan(p + w) == (ScanState {
            buf: scan(p).buf + w,
            last: if w.len() > 0 {
                w.last()
            } else {
                scan(p).last
            },
            ..scan(p)
        }),
    decreases w.len(),
{
    if w.len() == 0 {
        assert(p + w =~= p);
        assert(scan(p).buf + w =~= scan(p).buf);
    } else {
        let v = w.drop_last();
        lemma_scan_word(p, v);
        assert((p + w).drop_last() =~= p + v);
        let c = w.last();
        assert(is_word_char(w[w.len() - 1]));
        lemma_split_chars_are_punct(c);
        assert(scan(p).buf + v.push(c) =~= scan(p).buf + w);
        assert(scan(p).buf + w =~= (scan(p).buf + v).push(c));
    }
}

/// A fragment of one word that the language filter accepts and one that it
/// refuses counts one acceptance and one rejection, and keeps the first word
/// (or its placeholder) alone.
pub proof fn lemma_language_accounting(w1: Seq<char>, w2: Seq<char>)
    requires
        is_plain_word(w1),
        is_plain_word(w2),
        !refuses(detection_of(w1)),
        refuses(detection_of(w2)),
    ensures
        clean_spec(w1 + seq![' '] + w2).1 == 1,
        clean_spec(w1 + seq![' '] + w2).2 == 1,
        clean_spec(w1 + seq![' '] + w2).0 == seq![
            if w1.len() > MAX_TOKEN_CHARS {
                random_word_token()
            } else {
                w1
            },
        ],
{
    let e: Seq<char> = seq![];
    assert(scan(e) == scan_init());
    lemma_scan_word(e, w1);
    assert(e + w1 =~= w1);
    assert(seq![] + w1 =~= w1);
    let s1 = w1.push(' ');
    assert(s1.drop_last() =~= w1);
    lemma_plain_trim(w1);
    lemma_plain_trim(w2);
    assert(!is_ascii_punct(' '));
    let first = if w1.len() > MAX_TOKEN_CHARS {
        random_word_token()
    } else {
        w1
    };
    assert(scan(s1).out == seq![first]);
    assert(scan(s1).buf.len() == 0);
    assert(scan(s1).added == 1 && scan(s1).ignored == 0);
    lemma_scan_word(s1, w2);
    assert(w1 + seq![' '] + w2 =~= s1 + w2);
    assert(scan(s1).buf + w2 =~= w2);
    let st = scan(s1 + w2);
    assert(st.buf == w2);
    assert(w1 != w2);
    if w1.len() > MAX_TOKEN_CHARS {
        if w2 == random_word_token() {
            assert(w2[6] == '-');
            assert(is_word_char(w2[6]));
        }
    }
}

proof fn lemma_trim_no_ws(w: Seq<char>)
    requires
        forall|i: int| 0 <= i < w.len() ==> !is_ws(#[trigger] w[i]),
    ensures
        trim(w) == w,
{
    if w.len() > 0 {
        assert(!is_ws(w[0]));
        assert(!is_ws(w[w.len() - 1]));
    }
}

/// Inside a word that begins with `http`, any character but whitespace, a
/// backslash or a split character only extends the word (or is dropped as a
/// repeat): nothing is emitted or counted.
proof fn lemma_scan_url_tail(p: Seq<char>, w: Seq<char>)
    requires
        scan(p).out == Seq::<Seq<char>>::empty(),
        scan(p).added == 0,
        scan(p).ignored == 0,
        !scan(p).escaped,
        starts_with(scan(p).buf, http_start()),
        forall|i: int| 0 <= i < scan(p).buf.len() ==> !is_ws(#[trigger] scan(p).buf[i]),
        forall|i: int|
            0 <= i < w.len() ==> !is_ws(#[trigger] w[i]) && w[i] != '\\' && !is_split_char(w[i]),
    ensures
        scan(p + w).out == Seq::<Seq<char>>::empty(),
        scan(p + w).added == 0,
        scan(p + w).ignored == 0,
        !scan(p + w).escaped,
        starts_with(scan(p + w).buf, scan(p).buf),
        forall|i: int| 0 <= i < scan(p + w).buf.len() ==> !is_ws(#[trigger] scan(p + w).buf[i]),
    decreases w.len(),
{
    let b0 = scan(p).buf;
    if w.len() == 0 {
        assert(p + w =~= p);
        assert(b0.subrange(0, b0.len() as int) =~= b0);
    } else {
        let v = w.drop_last();
        lemma_scan_url_tail(p, v);
        assert((p + w).drop_last() =~= p + v);
        let st = scan(p + v);
        let c = w.last();
        assert(!is_ws(w[w.len() - 1]) && w[w.len() - 1] != '\\' && !is_split_char(w[w.len() - 1]));
        let b = st.buf;
        assert(b.subrange(0, 4) =~= b0.subrange(0, 4)) by {
            assert(b.subrange(0, b0.len() as int) == b0);
        }
        assert(starts_with(b, http_start()));
        let nb = b.push(c);
        assert(nb.subrange(0, b0.len() as int) =~= b.subrange(0, b0.len() as int));
    }
}

pub open spec fn http_scheme() -> Seq<char> {
    seq!['h', 't', 't', 'p', ':', '/', '/']
}

pub open spec fn https_scheme() -> Seq<char> {
    seq!['h', 't', 't', 'p', 's', ':', '/', '/']
}

/// A fragment that is one URL, `http://` or `https://` followed by characters
/// other than whitespace, backslashes and split characters, gives the single
/// token `link`, counted once as accepted: its `.` and `:` never split it.
pub proof fn lemma_url_becomes_link(rest: Seq<char>, secure: bool)
    requires
        forall|i: int|
            0 <= i < rest.len() ==> !is_ws(#[trigger] rest[i]) && rest[i] != '\\'
                && !is_split_char(rest[i]),
    ensures
        clean_spec((if secure { https_scheme() } else { http_scheme() }) + rest) == (
            seq![link_token()],
            1nat,
            0nat,
        ),
{
    let word: Seq<char> = if secure {
        seq!['h', 't', 't', 'p', 's']
    } else {
        seq!['h', 't', 't', 'p']
    };
    let e: Seq<char> = seq![];
    assert(scan(e) == scan_init());
    assert forall|i: int| 0 <= i < word.len() implies is_word_char(#[trigger] word[i]) by {}
    lemma_scan_word(e, word);
    assert(e + word =~= word);
    assert(seq![] + word =~= word);
    let s1 = word.push(':');
    let s2 = s1.push('/');
    let s3 = s2.push('/');
    assert(s1.drop_last() =~= word);
    assert(s2.drop_last() =~= s1);
    assert(s3.drop_last() =~= s2);
    assert(word.subrange(0, 4) =~= http_start());
    assert(starts_with(word, http_start()));
    assert(scan(s1).buf =~= word.push(':'));
    assert(scan(s2).buf =~= word.push(':').push('/'));
    assert(scan(s3) == scan(s2));
    let head = if secure { https_scheme() } else { http_scheme() };
    assert(s3 =~= head);
    let b0 = scan(s3).buf;
    assert(b0.subrange(0, 4) =~= http_start());
    assert(forall|i: int| 0 <= i < b0.len() ==> !is_ws(#[trigger] b0[i]));
    lemma_scan_url_tail(s3, rest);
    let b = scan(s3 + rest).buf;
    lemma_trim_no_ws(b);
    if secure {
        assert(b0 =~= https_prefix());
    } else {
        assert(b0 =~= http_prefix());
    }
    assert(b.len() > 0);
}

} // verus!
