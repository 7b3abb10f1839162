//! The lexical normaliser: a character-by-character scanner that turns one
//! fragment of markup-free text into tokens.

use vstd::prelude::*;
use crate::chars::{
    char_string, chars_of, has_prefix, is_ascii_punct, is_ascii_punctuation, is_split_char,
    is_split_character, is_whitespace, is_ws, push_char, starts_with, trim, trimmed,
};
use crate::tokens::{push_cleaned_text, push_spec, sep_string, sep_token, texts};

verus! {

/// The scanner's state between two characters.
pub struct ScanState {
    /// Tokens emitted so far.
    pub out: Seq<Seq<char>>,
    pub added: nat,
    pub ignored: nat,
    /// The word being accumulated.
    pub buf: Seq<char>,
    /// The previous character, to collapse runs of one punctuation character.
    pub last: char,
    /// Whether the previous non-whitespace character was a backslash.
    pub escaped: bool,
}

pub open spec fn scan_init() -> ScanState {
    ScanState { out: seq![], added: 0, ignored: 0, buf: seq![], last: ' ', escaped: false }
}

pub open spec fn http_start() -> Seq<char> {
    seq!['h', 't', 't', 'p']
}

/// The counters after a counted push that reported `r`.
pub open spec fn tally(st: ScanState, r: Option<bool>) -> ScanState {
    match r {
        Some(true) => ScanState { added: st.added + 1, ..st },
        Some(false) => ScanState { ignored: st.ignored + 1, ..st },
        None => st,
    }
}

/// Emits the word being accumulated, if there is one, and counts the outcome.
pub open spec fn flush(st: ScanState) -> ScanState {
    if st.buf.len() > 0 {
        let (o, r) = push_spec(st.out, trim(st.buf));
        tally(ScanState { out: o, buf: seq![], ..st }, r)
    } else {
        st
    }
}

/// Emits `t` without counting it.
pub open spec fn emit(st: ScanState, t: Seq<char>) -> ScanState {
    ScanState { out: push_spec(st.out, t).0, ..st }
}

/// The effect of one character `c`.
pub open spec fn step(st: ScanState, c: char) -> ScanState {
    if is_ascii_punct(c) && c == st.last {
        st
    } else {
        let st = ScanState { last: c, ..st };
        if is_ws(c) {
            if st.buf.len() > 0 {
                if c != ' ' {
                    emit(flush(st), sep_token())
                } else {
                    flush(st)
                }
            } else {
                st
            }
        } else if c == '\\' {
            ScanState { escaped: true, ..st }
        } else if st.escaped && (c == 'n' || c == 't' || c == 'r') {
            flush(ScanState { escaped: false, ..st })
        } else {
            let st = ScanState { escaped: false, ..st };
            if is_split_char(c) || ((c == ':' || c == '.') && !starts_with(st.buf, http_start())) {
                emit(flush(st), seq![c])
            } else {
                ScanState { buf: st.buf.push(c), ..st }
            }
        }
    }
}

/// The state after scanning all of `s`.
pub open spec fn scan(s: Seq<char>) -> ScanState
    decreases s.len(),
{
    if s.len() == 0 {
        scan_init()
    } else {
        step(scan(s.drop_last()), s.last())
    }
}

/// The tokens of `s` and the numbers of accepted and rejected multi-character
/// candidates.
pub open spec fn clean_spec(s: Seq<char>) -> (Seq<Seq<char>>, nat, nat) {
    let f = flush(scan(s));
    (f.out, f.added, f.ignored)
}

struct Scanner {
    out: Vec<String>,
    buf: String,
    last: char,
    escaped: bool,
    added: usize,
    ignored: usize,
}

impl Scanner {
    spec fn model(&self) -> ScanState {
        ScanState {
            out: texts(self.out@),
            added: self.added as nat,
            ignored: self.ignored as nat,
            buf: self.buf@,
            last: self.last,
            escaped: self.escaped,
        }
    }

    /// Room left in the counters for flushes still to come.
    spec fn room(&self, n: nat) -> bool {
        self.added + self.ignored + (if self.buf@.len() > 0 { 1nat } else { 0nat }) <= n
    }

    fn flush(&mut self)
        requires
            old(self).room(usize::MAX as nat),
        ensures
            final(self).model() == flush(old(self).model()),
            final(self).buf@.len() == 0,
            final(self).added + final(self).ignored <= old(self).added + old(self).ignored + (
            if old(self).buf@.len() > 0 { 1nat } else { 0nat }),
    {
        if self.buf.unicode_len() > 0 {
            let t = trimmed(self.buf.as_str());
            let r = push_cleaned_text(&mut self.out, t.as_str());
            match r {
                Some(true) => { self.added = self.added + 1; },
                Some(false) => { self.ignored = self.ignored + 1; },
                None => {},
            }
            self.buf = String::new();
        }
    }

    fn emit(&mut self, t: String)
        ensures
            final(self).model() == emit(old(self).model(), t@),
            final(self).buf == old(self).buf,
            final(self).added == old(self).added,
            final(self).ignored == old(self).ignored,
    {
        let _ = push_cleaned_text(&mut self.out, t.as_str());
    }

    fn step(&mut self, c: char, Ghost(i): Ghost<nat>)
        requires
            old(self).room(i),
            i < usize::MAX,
        ensures
            final(self).model() == step(old(self).model(), c),
            final(self).room(i + 1),
    {
        if is_ascii_punctuation(c) && c == self.last {
            return;
        }
        self.last = c;
        if is_whitespace(c) {
            if self.buf.unicode_len() > 0 {
                self.flush();
                if c != ' ' {
                    self.emit(sep_string());
                }
            }
            return;
        }
        if c == '\\' {
            self.escaped = true;
            return;
        }
        if self.escaped {
            self.escaped = false;
            if c == 'n' || c == 't' || c == 'r' {
                self.flush();
                return;
            }
        }
        let splits = is_split_character(c) || ((c == ':' || c == '.') && !has_prefix(
            &chars_of(self.buf.as_str()),
            &['h', 't', 't', 'p'],
        ));
        assert(['h', 't', 't', 'p']@ =~= http_start());
        if splits {
            self.flush();
            self.emit(char_string(c));
        } else {
            push_char(&mut self.buf, c);
        }
    }
}

/// Scans `input` character by character into word, punctuation and `[SEP]`
/// tokens, passing each through the post-processor. Returns the tokens and
/// the numbers of accepted and rejected multi-character words.
pub fn clean_text(input: &str) -> (r: (Vec<String>, usize, usize))
    ensures
        (texts(r.0@), r.1 as nat, r.2 as nat) == clean_spec(input@),
{
    let cs = chars_of(input);
    let mut sc = Scanner {
        out: Vec::new(),
        buf: String::new(),
        last: ' ',
        escaped: false,
        added: 0,
        ignored: 0,
    };
    assert(texts(sc.out@) =~= seq![]);
    assert(cs@.subrange(0, 0) =~= seq![]);
    let mut i: usize = 0;
    while i < cs.len()
        invariant
            i <= cs@.len(),
            sc.model() == scan(cs@.subrange(0, i as int)),
            sc.room(i as nat),
        decreases cs@.len() - i,
    {
        assert(cs@.subrange(0, i + 1).drop_last() =~= cs@.subrange(0, i as int));
        sc.step(cs[i], Ghost(i as nat));
        i += 1;
    }
    assert(cs@.subrange(0, cs@.len() as int) =~= input@);
    sc.flush();
    (sc.out, sc.added, sc.ignored)
}

} // verus!
