//! Splitting a command line into words: whitespace separates words; `"..."` and `'...'` quote
//! them; a backslash inside a word takes the rest of the line literally.
use vstd::prelude::*;

use crate::text;
use crate::text::is_white_space;

verus! {

/// The state of the word scanner: the finished words (each with whether it is to have its
/// variable references substituted), the word being read, its quote, and whether a backslash
/// has been seen in it
pub struct ScanState {
    pub words: Seq<(Seq<char>, bool)>,
    pub word: Option<Seq<char>>,
    pub quote: Option<char>,
    pub escape: bool,
}

pub open spec fn scan_start() -> ScanState {
    ScanState { words: Seq::empty(), word: None, quote: None, escape: false }
}

/// One character read by the scanner
pub open spec fn scan_step(st: ScanState, c: char) -> ScanState {
    match st.word {
        None => if is_white_space(c) {
            st
        } else if c == '"' || c == '\'' {
            ScanState { word: Some(Seq::empty()), quote: Some(c), ..st }
        } else {
            ScanState { word: Some(seq![c]), ..st }
        },
        Some(w) => if st.escape {
            ScanState { word: Some(w.push(c)), ..st }
        } else {
            match st.quote {
                Some(q) => if c == q {
                    ScanState {
                        words: st.words.push((w, q == '"')),
                        word: None,
                        quote: None,
                        ..st
                    }
                } else if c == '\\' {
                    ScanState { escape: true, ..st }
                } else {
                    ScanState { word: Some(w.push(c)), ..st }
                },
                None => if c == '\\' {
                    ScanState { escape: true, ..st }
                } else if is_white_space(c) {
                    ScanState { words: st.words.push((w, true)), word: None, ..st }
                } else {
                    ScanState { word: Some(w.push(c)), ..st }
                },
            }
        },
    }
}

/// The scanner's state after reading all of `l`
pub open spec fn scan(l: Seq<char>) -> ScanState
    decreases l.len(),
{
    if l.len() == 0 {
        scan_start()
    } else {
        scan_step(scan(l.drop_last()), l.last())
    }
}

/// The words of a line: the finished words, then the word being read at the end of the line,
/// substituted unless it was opened by a single quote
pub open spec fn words_of(l: Seq<char>) -> Seq<(Seq<char>, bool)> {
    let st = scan(l);
    match st.word {
        Some(w) => st.words.push((w, st.quote != Some('\''))),
        None => st.words,
    }
}

/// A text with no quotes and no backslash
pub open spec fn plain_text(a: Seq<char>) -> bool {
    forall|i: int| 0 <= i < a.len() ==> a[i] != '"' && a[i] != '\'' && a[i] != '\\'
}

/// Scanning a plain text leaves no quote open and no backslash pending
proof fn lemma_scan_plain(a: Seq<char>)
    requires
        plain_text(a),
    ensures
        (scan(a).quote is None),
        !scan(a).escape,
    decreases a.len(),
{
    if a.len() > 0 {
        assert(plain_text(a.drop_last()));
        lemma_scan_plain(a.drop_last());
    }
}

/// Finished words before the scanner's state are carried along by a step
proof fn lemma_step_shift(w: Seq<(Seq<char>, bool)>, st: ScanState, c: char)
    ensures
        (scan_step(ScanState { words: w + st.words, ..st }, c) == ScanState {
            words: w + scan_step(st, c).words,
            ..scan_step(st, c)
        }),
{
    let st2 = ScanState { words: w + st.words, ..st };
    match st.word {
        Some(wd) => {
            assert((w + st.words).push((wd, true)) =~= w + st.words.push((wd, true)));
            assert((w + st.words).push((wd, st.quote == Some('"'))) =~= w + st.words.push(
                (wd, st.quote == Some('"')),
            ));
            match st.quote {
                Some(q) => {
                    assert((w + st.words).push((wd, q == '"')) =~= w + st.words.push((wd, q == '"')));
                },
                None => {},
            }
        },
        None => {},
    }
}

/// After a plain text and a white-space character, the scanner is in the state that a fresh
/// scan of the rest of the line reaches, with the words of the plain text before its words
proof fn lemma_scan_after_space(a: Seq<char>, c: char, b: Seq<char>)
    requires
        plain_text(a),
        is_white_space(c),
    ensures
        (scan(a + seq![c] + b) == ScanState { words: words_of(a) + scan(b).words, ..scan(b) }),
    decreases b.len(),
{
    lemma_scan_plain(a);
    if b.len() == 0 {
        assert(a + seq![c] + b =~= a + seq![c]);
        assert((a + seq![c]).drop_last() =~= a);
        assert(words_of(a) + Seq::<(Seq<char>, bool)>::empty() =~= words_of(a));
    } else {
        assert((a + seq![c] + b).drop_last() =~= a + seq![c] + b.drop_last());
        assert((a + seq![c] + b).last() == b.last());
        lemma_scan_after_space(a, c, b.drop_last());
        lemma_step_shift(words_of(a), scan(b.drop_last()), b.last());
    }
}

/// White space separates words: after a text with no quotes and no backslash, a white-space
/// character (any that `char::is_whitespace` accepts, a tab as well as a space) ends its last
/// word, and the words of the rest of the line follow those of the text
pub proof fn lemma_white_space_separates(a: Seq<char>, c: char, b: Seq<char>)
    requires
        plain_text(a),
        is_white_space(c),
    ensures
        words_of(a + seq![c] + b) == words_of(a) + words_of(b),
{
    lemma_scan_after_space(a, c, b);
    match scan(b).word {
        Some(w) => {
            assert((words_of(a) + scan(b).words).push((w, scan(b).quote != Some('\''))) =~= words_of(a)
                + scan(b).words.push((w, scan(b).quote != Some('\''))));
        },
        None => {},
    }
}

/// A word of ordinary characters (no white space, quotes or backslash) is one word, to be
/// substituted
pub proof fn lemma_plain_word(w: Seq<char>)
    requires
        w.len() > 0,
        plain_text(w),
        forall|i: int| 0 <= i < w.len() ==> !is_white_space(#[trigger] w[i]),
    ensures
        words_of(w) == seq![(w, true)],
{
    lemma_plain_word_scan(w);
}

proof fn lemma_plain_word_scan(w: Seq<char>)
    requires
        w.len() > 0,
        plain_text(w),
        forall|i: int| 0 <= i < w.len() ==> !is_white_space(#[trigger] w[i]),
    ensures
        scan(w) == (ScanState { words: Seq::empty(), word: Some(w), quote: None, escape: false }),
    decreases w.len(),
{
    if w.len() == 1 {
        assert(w.drop_last().len() == 0);
        assert(w.drop_last() =~= Seq::<char>::empty());
        assert(seq![w[0]] =~= w);
        assert(!is_white_space(w[0]));
    } else {
        let p = w.drop_last();
        assert(plain_text(p));
        assert forall|i: int| 0 <= i < p.len() implies !is_white_space(#[trigger] p[i]) by {
            assert(p[i] == w[i]);
        }
        lemma_plain_word_scan(p);
        assert(p.push(w.last()) =~= w);
        assert(!is_white_space(w[w.len() - 1]));
    }
}

/// Scanning a quote and then text with no closing quote and no backslash reads that text as
/// the word within the quote
proof fn lemma_scan_quoted(q: char, w: Seq<char>)
    requires
        q == '"' || q == '\'',
        forall|i: int| 0 <= i < w.len() ==> w[i] != q && w[i] != '\\',
    ensures
        (scan(seq![q] + w) == ScanState { words: Seq::empty(), word: Some(w), quote: Some(q), escape: false }),
    decreases w.len(),
{
    if w.len() == 0 {
        assert(w =~= Seq::<char>::empty());
        assert(seq![q] + w =~= seq![q]);
        assert(seq![q].drop_last() =~= Seq::<char>::empty());
        assert(seq![q].last() == q);
        assert(!is_white_space(q));
        assert(scan(seq![q].drop_last()) == scan_start());
        assert(scan(seq![q]) == scan_step(scan_start(), q));
    } else {
        let p = w.drop_last();
        assert forall|i: int| 0 <= i < p.len() implies p[i] != q && p[i] != '\\' by {
            assert(p[i] == w[i]);
        }
        lemma_scan_quoted(q, p);
        assert((seq![q] + w).drop_last() =~= seq![q] + p);
        assert((seq![q] + w).last() == w[w.len() - 1]);
        assert(p.push(w[w.len() - 1]) =~= w);
        assert(scan(seq![q] + w) == scan_step(scan(seq![q] + p), w[w.len() - 1]));
    }
}

/// A quoted word is one word: its text is what stands between the quotes, and it is to be
/// substituted when the quotes are double and not when they are single
pub proof fn lemma_quoted_word(q: char, w: Seq<char>)
    requires
        q == '"' || q == '\'',
        forall|i: int| 0 <= i < w.len() ==> w[i] != q && w[i] != '\\',
    ensures
        words_of(seq![q] + w + seq![q]) == seq![(w, q == '"')],
{
    lemma_scan_quoted(q, w);
    assert((seq![q] + w + seq![q]).drop_last() =~= seq![q] + w);
    assert(Seq::<(Seq<char>, bool)>::empty().push((w, q == '"')) =~= seq![(w, q == '"')]);
}

/// The characters and substitution flags of words
pub open spec fn words_view(v: Seq<(String, bool)>) -> Seq<(Seq<char>, bool)> {
    Seq::new(v.len(), |i: int| (v[i].0@, v[i].1))
}

/// The words of a line, each with whether it is to be substituted
pub fn split_words(l: &str) -> (r: Vec<(String, bool)>)
    ensures
        words_view(r@) == words_of(l@),
{
    let v = text::chars_of(l);
    let mut words: Vec<(String, bool)> = Vec::new();
    let mut word: Option<String> = None;
    let mut quote: Option<char> = None;
    let mut escape = false;
    let mut i: usize = 0;
    assert(v@.take(0) =~= Seq::<char>::empty());
    assert(words_view(words@) =~= Seq::<(Seq<char>, bool)>::empty());
    while i < v.len()
        invariant
            v@ == l@,
            i <= v@.len(),
            scan(v@.take(i as int)) == (ScanState {
                words: words_view(words@),
                word: match word {
                    Some(w) => Some(w@),
                    None => None,
                },
                quote: quote,
                escape: escape,
            }),
        decreases v@.len() - i,
    {
        let c = v[i];
        assert(v@.take(i + 1).drop_last() =~= v@.take(i as int));
        let ghost ws = words@;
        match word {
            None => {
                if text::is_whitespace(c) {
                } else if c == '"' || c == '\'' {
                    quote = Some(c);
                    word = Some(String::new());
                } else {
                    let mut w = String::new();
                    text::string_push(&mut w, c);
                    word = Some(w);
                }
            },
            Some(mut w) => {
                if escape {
                    text::string_push(&mut w, c);
                    word = Some(w);
                } else {
                    match quote {
                        Some(q) => {
                            if c == q {
                                words.push((w, q == '"'));
                                assert(words_view(words@) =~= words_view(ws).push(
                                    (words@.last().0@, q == '"'),
                                ));
                                word = None;
                                quote = None;
                            } else if c == '\\' {
                                escape = true;
                                word = Some(w);
                            } else {
                                text::string_push(&mut w, c);
                                word = Some(w);
                            }
                        },
                        None => {
                            if c == '\\' {
                                escape = true;
                                word = Some(w);
                            } else if text::is_whitespace(c) {
                                words.push((w, true));
                                assert(words_view(words@) =~= words_view(ws).push(
                                    (words@.last().0@, true),
                                ));
                                word = None;
                            } else {
                                text::string_push(&mut w, c);
                                word = Some(w);
                            }
                        },
                    }
                }
            },
        }
        i += 1;
    }
    assert(v@.take(v@.len() as int) =~= v@);
    match word {
        Some(w) => {
            let ghost ws = words@;
            let keep = match quote {
                Some(q) => q != '\'',
                None => true,
            };
            words.push((w, keep));
            assert(words_view(words@) =~= words_view(ws).push((words@.last().0@, keep)));
        },
        None => {},
    }
    words
}

} // verus!
