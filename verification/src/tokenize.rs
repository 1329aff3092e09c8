//! The tokenizer: splits an expanded line on runs of whitespace into an
//! executable name and an ordered argument list.

use vstd::prelude::*;

use crate::text::{chars_to_string, is_space, space_char, str_to_chars};

verus! {

/// The views of a sequence of strings.
pub open spec fn views_of(ws: Seq<String>) -> Seq<Seq<char>> {
    ws.map_values(|w: String| w@)
}

/// Index just past the run of non-whitespace characters that starts at `i`.
pub open spec fn word_end(s: Seq<char>, i: int) -> int
    decreases s.len() - i,
{
    if i < 0 || i >= s.len() || is_space(s[i]) {
        i
    } else {
        word_end(s, i + 1)
    }
}

/// Bounds and characterization of [`word_end`].
pub proof fn lemma_word_end(s: Seq<char>, i: int)
    requires
        0 <= i <= s.len(),
    ensures
        i <= word_end(s, i) <= s.len(),
        forall|j: int| i <= j < word_end(s, i) ==> !is_space(#[trigger] s[j]),
        word_end(s, i) < s.len() ==> is_space(s[word_end(s, i)]),
    decreases s.len() - i,
{
    if i < s.len() && !is_space(s[i]) {
        lemma_word_end(s, i + 1);
    }
}

/// `word_end` lands exactly at the end of a run of non-whitespace characters.
pub proof fn lemma_word_end_run(s: Seq<char>, i: int, j: int)
    requires
        0 <= i <= j <= s.len(),
        forall|t: int| i <= t < j ==> !is_space(#[trigger] s[t]),
        j == s.len() || is_space(s[j]),
    ensures
        word_end(s, i) == j,
    decreases j - i,
{
    if i < j {
        lemma_word_end_run(s, i + 1, j);
    }
}

/// The words of `s` from position `i` on: maximal runs of non-whitespace
/// characters, in order.
pub open spec fn tokens_from(s: Seq<char>, i: int) -> Seq<Seq<char>>
    decreases s.len() - i,
    via tokens_from_dec
{
    if i < 0 || i >= s.len() {
        Seq::empty()
    } else if is_space(s[i]) {
        tokens_from(s, i + 1)
    } else {
        seq![s.subrange(i, word_end(s, i))] + tokens_from(s, word_end(s, i))
    }
}

#[via_fn]
proof fn tokens_from_dec(s: Seq<char>, i: int) {
    if 0 <= i < s.len() && !is_space(s[i]) {
        lemma_word_end(s, i);
    }
}

/// All words of `s`, in order.
pub open spec fn tokens(s: Seq<char>) -> Seq<Seq<char>> {
    tokens_from(s, 0)
}

/// One parsed command: the executable name and its arguments, derived fresh
/// from each input line.
pub struct ParsedCommand {
    pub exe: String,
    pub args: Vec<String>,
}

impl ParsedCommand {
    /// The command as its sequence of words, executable name first.
    pub open spec fn words(&self) -> Seq<Seq<char>> {
        seq![self.exe@] + views_of(self.args@)
    }
}

/// Split `line` on runs of whitespace. The first word names the executable,
/// the rest are its arguments; a line that is all whitespace yields `None`.
pub fn tokenize(line: &str) -> (r: Option<ParsedCommand>)
    ensures
        (match r {
            Some(cmd) => tokens(line@).len() > 0 && cmd.words() == tokens(line@),
            None => tokens(line@).len() == 0,
        }),
{
    let chars = str_to_chars(line);
    let n = chars.len();
    let mut words: Vec<String> = Vec::new();
    let mut i: usize = 0;
    while i < n
        invariant
            chars@ == line@,
            n == chars@.len(),
            i <= n,
            tokens(line@) == views_of(words@) + tokens_from(chars@, i as int),
        decreases n - i,
    {
        let ghost words0: Seq<Seq<char>> = views_of(words@);
        if space_char(chars[i]) {
            i = i + 1;
        } else {
            let start = i;
            let mut w: Vec<char> = Vec::new();
            while i < n && !space_char(chars[i])
                invariant
                    start <= i <= n,
                    n == chars@.len(),
                    w@ == chars@.subrange(start as int, i as int),
                    forall|t: int| start <= t < i ==> !is_space(#[trigger] chars@[t]),
                decreases n - i,
            {
                w.push(chars[i]);
                assert(w@ =~= chars@.subrange(start as int, i + 1));
                i = i + 1;
            }
            proof {
                lemma_word_end_run(chars@, start as int, i as int);
            }
            let word = chars_to_string(&w);
            words.push(word);
            proof {
                let tail = tokens_from(chars@, i as int);
                assert(tokens_from(chars@, start as int) == seq![w@] + tail);
                assert(views_of(words@) =~= words0.push(w@));
                assert(words0 + (seq![w@] + tail) =~= (words0.push(w@)) + tail);
            }
        }
    }
    if words.len() == 0 {
        None
    } else {
        let ghost all: Seq<Seq<char>> = views_of(words@);
        let mut rest = words;
        let exe = rest.remove(0);
        let cmd = ParsedCommand { exe, args: rest };
        proof {
            assert(cmd.words() =~= all);
        }
        Some(cmd)
    }
}

} // verus!
