//! The token post-processor: the policy that decides whether and how a
//! candidate token joins the stream, and how it is counted.

use vstd::prelude::*;
use crate::chars::{
    chars_of, has_prefix, is_special_punctuation, is_special_token, starts_with, trim, trimmed,
};
use crate::language::{detect_language, detection_of, is_refused, refuses};

verus! {

/// Longest token kept as it is; longer ones are replaced by a placeholder.
pub const MAX_TOKEN_CHARS: usize = 32;

pub open spec fn link_token() -> Seq<char> {
    seq!['l', 'i', 'n', 'k']
}

pub open spec fn sep_token() -> Seq<char> {
    seq!['[', 'S', 'E', 'P', ']']
}

pub open spec fn cls_token() -> Seq<char> {
    seq!['[', 'C', 'L', 'S', ']']
}

pub open spec fn code_token() -> Seq<char> {
    seq!['c', 'o', 'd', 'e']
}

pub open spec fn random_word_token() -> Seq<char> {
    seq!['r', 'a', 'n', 'd', 'o', 'm', '-', 'w', 'o', 'r', 'd']
}

pub open spec fn http_prefix() -> Seq<char> {
    seq!['h', 't', 't', 'p', ':', '/']
}

pub open spec fn https_prefix() -> Seq<char> {
    seq!['h', 't', 't', 'p', 's', ':', '/']
}

/// The texts of a token list.
pub open spec fn texts(v: Seq<String>) -> Seq<Seq<char>> {
    v.map_values(|s: String| s@)
}

/// A structural marker.
pub open spec fn is_marker(t: Seq<char>) -> bool {
    t == sep_token() || t == cls_token()
}

/// Whether `t` is suppressed after the stream `out`: it repeats the last token,
/// or it is a marker right after a special punctuation token.
pub open spec fn suppressed(out: Seq<Seq<char>>, t: Seq<char>) -> bool {
    out.len() > 0 && (out.last() == t || (is_special_token(out.last()) && is_marker(t)))
}

/// The post-processing of one candidate `txt` after the stream `out`: the new
/// stream, and `Some(true)` for a counted acceptance, `Some(false)` for a
/// rejection by the language filter, `None` for a token that is not counted.
pub open spec fn push_spec(out: Seq<Seq<char>>, txt: Seq<char>) -> (Seq<Seq<char>>, Option<bool>) {
    let t = trim(txt);
    if starts_with(t, http_prefix()) || starts_with(t, https_prefix()) {
        (out.push(link_token()), Some(true))
    } else if suppressed(out, t) {
        (out, Some(true))
    } else if counted(t) && refuses(detection_of(t)) {
        (out, Some(false))
    } else {
        (
            out.push(
                if t.len() > MAX_TOKEN_CHARS {
                    random_word_token()
                } else {
                    t
                },
            ),
            if counted(t) {
                Some(true)
            } else {
                None
            },
        )
    }
}

/// A candidate that the language filter judges and the statistics count:
/// one of more than one character.
pub open spec fn counted(t: Seq<char>) -> bool {
    t.len() > 1
}

/// A structural token appended as it is, unless it repeats the last token or
/// is a marker right after special punctuation.
pub open spec fn push_kept(out: Seq<Seq<char>>, t: Seq<char>) -> Seq<Seq<char>> {
    if suppressed(out, t) {
        out
    } else {
        out.push(t)
    }
}

pub(crate) fn link_string() -> (r: String)
    ensures
        r@ == link_token(),
{
    let r = String::from_str("link");
    proof {
        reveal_strlit("link");
        assert(r@ =~= link_token());
    }
    r
}

pub(crate) fn sep_string() -> (r: String)
    ensures
        r@ == sep_token(),
{
    let r = String::from_str("[SEP]");
    proof {
        reveal_strlit("[SEP]");
        assert(r@ =~= sep_token());
    }
    r
}

pub(crate) fn code_string() -> (r: String)
    ensures
        r@ == code_token(),
{
    let r = String::from_str("code");
    proof {
        reveal_strlit("code");
        assert(r@ =~= code_token());
    }
    r
}

fn random_word_string() -> (r: String)
    ensures
        r@ == random_word_token(),
{
    let r = String::from_str("random-word");
    proof {
        reveal_strlit("random-word");
        assert(r@ =~= random_word_token());
    }
    r
}

/// Whether `t` is a structural marker.
fn is_marker_text(t: &Vec<char>) -> (r: bool)
    ensures
        r == is_marker(t@),
{
    if t.len() != 5 {
        return false;
    }
    let sep = t[0] == '[' && t[1] == 'S' && t[2] == 'E' && t[3] == 'P' && t[4] == ']';
    let cls = t[0] == '[' && t[1] == 'C' && t[2] == 'L' && t[3] == 'S' && t[4] == ']';
    assert(sep ==> t@ =~= sep_token());
    assert(cls ==> t@ =~= cls_token());
    sep || cls
}

/// Applies the acceptance policy to the candidate `txt`: a link becomes `link`;
/// a repeat of the last token, or a marker after special punctuation, is
/// dropped and reported `Some(true)`; a multi-character token that the
/// language filter refuses is dropped and reported `Some(false)`; a token over
/// 32 characters becomes `random-word`. Other multi-character candidates
/// report `Some(true)`; single characters report `None`.
pub fn push_cleaned_text(d: &mut Vec<String>, txt: &str) -> (r: Option<bool>)
    ensures
        (texts(final(d)@), r) == push_spec(texts(old(d)@), txt@),
{
    let t = trimmed(txt);
    let cs = chars_of(t.as_str());
    let ghost out = texts(d@);
    if has_prefix(&cs, &['h', 't', 't', 'p', ':', '/']) || has_prefix(
        &cs,
        &['h', 't', 't', 'p', 's', ':', '/'],
    ) {
        assert(['h', 't', 't', 'p', ':', '/']@ =~= http_prefix());
        assert(['h', 't', 't', 'p', 's', ':', '/']@ =~= https_prefix());
        d.push(link_string());
        assert(texts(d@) =~= out.push(link_token()));
        return Some(true);
    }
    assert(['h', 't', 't', 'p', ':', '/']@ =~= http_prefix());
    assert(['h', 't', 't', 'p', 's', ':', '/']@ =~= https_prefix());
    let n = d.len();
    if n > 0 {
        let last = &d[n - 1];
        assert(out.last() == last@);
        if *last == t || (is_special_punctuation(last.as_str()) && is_marker_text(&cs)) {
            return Some(true);
        }
    }
    let count = cs.len();
    let judged = count > 1;
    if judged {
        let det = detect_language(t.as_str());
        if is_refused(&det) {
            return Some(false);
        }
    }
    if count > MAX_TOKEN_CHARS {
        d.push(random_word_string());
    } else {
        d.push(t);
    }
    assert(texts(d@) =~= push_spec(out, txt@).0);
    if judged {
        Some(true)
    } else {
        None
    }
}

/// Appends a placeholder token `t` such as `code`, which the language filter
/// never judges and the statistics never count, unless it repeats the last
/// token or is a marker after special punctuation.
pub fn push_structural(d: &mut Vec<String>, t: String)
    ensures
        texts(final(d)@) == push_kept(texts(old(d)@), t@),
{
    let ghost out = texts(d@);
    let cs = chars_of(t.as_str());
    let n = d.len();
    if n > 0 {
        let last = &d[n - 1];
        assert(out.last() == last@);
        if *last == t || (is_special_punctuation(last.as_str()) && is_marker_text(&cs)) {
            return;
        }
    }
    d.push(t);
    assert(texts(d@) =~= out.push(t@));
}

} // verus!
