use vstd::prelude::*;
use vstd::string::*;

verus! {

/// Whether `c` is white space in the sense of Unicode (`White_Space`), which is what
/// `char::is_whitespace` answers.
pub uninterp spec fn is_whitespace(c: char) -> bool;

/// Asks `char::is_whitespace` about `c`. The answer depends on `c` alone, so
/// it is named by [`is_whitespace`]; nothing more is claimed of it.
#[verifier::external_body]
pub(crate) fn char_is_whitespace(c: char) -> (b: bool)
    ensures
        b == is_whitespace(c),
{
    c.is_whitespace()
}

/// The predicate that holds of the line feed and of nothing else.
pub open spec fn line_feed() -> spec_fn(char) -> bool {
    |c: char| c == '\n'
}

/// The predicate that holds of the white space characters.
pub open spec fn white_space() -> spec_fn(char) -> bool {
    |c: char| is_whitespace(c)
}

/// The length of the longest prefix of `s` in which `stop` holds of no
/// character.
pub open spec fn run_len(s: Seq<char>, stop: spec_fn(char) -> bool) -> int
    decreases s.len(),
{
    if s.len() == 0 || stop(s[0]) {
        0
    } else {
        1 + run_len(s.drop_first(), stop)
    }
}

/// `run_len` lies within the text, `stop` holds of nothing before it and,
/// where the run ends inside the text, `stop` holds of the character that
/// ends it.
pub proof fn lemma_run_len(s: Seq<char>, stop: spec_fn(char) -> bool)
    ensures
        0 <= run_len(s, stop) <= s.len(),
        forall|i: int| 0 <= i < run_len(s, stop) ==> !stop(#[trigger] s[i]),
        run_len(s, stop) < s.len() ==> stop(s[run_len(s, stop)]),
    decreases s.len(),
{
    if s.len() > 0 && !stop(s[0]) {
        let rest = s.drop_first();
        lemma_run_len(rest, stop);
        assert forall|i: int| 0 <= i < run_len(s, stop) implies !stop(#[trigger] s[i]) by {
            if i > 0 {
                assert(s[i] == rest[i - 1]);
            }
        }
    }
}

/// The three facts of [`lemma_run_len`] hold of one number only.
pub proof fn lemma_run_len_is(s: Seq<char>, stop: spec_fn(char) -> bool, n: int)
    requires
        0 <= n <= s.len(),
        forall|i: int| 0 <= i < n ==> !stop(#[trigger] s[i]),
        n < s.len() ==> stop(s[n]),
    ensures
        run_len(s, stop) == n,
    decreases s.len(),
{
    if s.len() > 0 && !stop(s[0]) {
        lemma_run_len_is(s.drop_first(), stop, n - 1);
    }
}

/// The words of a text: its maximal runs of characters that are not white
/// space, in order.
pub open spec fn words_of(s: Seq<char>) -> Seq<Seq<char>>
    decreases s.len(),
{
    if s.len() == 0 {
        Seq::empty()
    } else if is_whitespace(s[0]) {
        words_of(s.drop_first())
    } else {
        proof {
            lemma_run_len(s, white_space());
        }
        let n = run_len(s, white_space());
        seq![s.take(n)] + words_of(s.skip(n))
    }
}

/// What makes a text a word: it holds at least one character, and none that
/// is white space.
pub open spec fn is_word(w: Seq<char>) -> bool {
    &&& w.len() > 0
    &&& forall|i: int| 0 <= i < w.len() ==> !is_whitespace(#[trigger] w[i])
}

/// Every text that `words_of` yields is a word.
pub proof fn lemma_words_of_solid(s: Seq<char>)
    ensures
        forall|k: int| 0 <= k < words_of(s).len() ==> is_word(#[trigger] words_of(s)[k]),
    decreases s.len(),
{
    if s.len() > 0 {
        if is_whitespace(s[0]) {
            lemma_words_of_solid(s.drop_first());
            assert(words_of(s) == words_of(s.drop_first()));
        } else {
            lemma_run_len(s, white_space());
            let rest = words_of(s.skip(run_len(s, white_space())));
            lemma_words_of_solid(s.skip(run_len(s, white_space())));
            assert forall|k: int| 0 <= k < words_of(s).len() implies is_word(
                #[trigger] words_of(s)[k],
            ) by {
                if k > 0 {
                    assert(words_of(s)[k] == rest[k - 1]);
                }
            }
        }
    }
}

/// The characters of a text that are not white space, in order.
pub open spec fn solid_chars(s: Seq<char>) -> Seq<char> {
    s.filter(|c: char| !is_whitespace(c))
}

/// Splitting a text into words loses white space and nothing else: the
/// words, written one after another, are the text without its white space.
pub proof fn lemma_words_of_keeps_text(s: Seq<char>)
    ensures
        words_of(s).flatten() == solid_chars(s),
    decreases s.len(),
{
    let keep = |c: char| !is_whitespace(c);
    if s.len() == 0 {
        assert(solid_chars(s) =~= Seq::<char>::empty()) by {
            reveal(Seq::filter);
        }
    } else if is_whitespace(s[0]) {
        let rest = s.drop_first();
        lemma_words_of_keeps_text(rest);
        assert(s =~= seq![s[0]] + rest);
        Seq::filter_distributes_over_add(seq![s[0]], rest, keep);
        lemma_filter_one(s[0], keep);
    } else {
        lemma_run_len(s, white_space());
        let n = run_len(s, white_space());
        let head = s.take(n);
        let rest = s.skip(n);
        lemma_words_of_keeps_text(rest);
        assert(s =~= head + rest);
        Seq::filter_distributes_over_add(head, rest, keep);
        assert(head.filter(keep) == head) by {
            lemma_filter_all(head, keep);
        }
        assert((seq![head] + words_of(rest)).flatten() =~= head + words_of(rest).flatten()) by {
            let all = seq![head] + words_of(rest);
            assert(all.drop_first() =~= words_of(rest));
        }
    }
}

/// Filtering a text of one character keeps it or drops it.
proof fn lemma_filter_one(c: char, keep: spec_fn(char) -> bool)
    ensures
        seq![c].filter(keep) == if keep(c) {
            seq![c]
        } else {
            Seq::<char>::empty()
        },
{
    reveal(Seq::filter);
    assert(seq![c].drop_last().filter(keep) =~= Seq::<char>::empty());
}

/// A filter that accepts every character of a text changes nothing.
proof fn lemma_filter_all(s: Seq<char>, keep: spec_fn(char) -> bool)
    requires
        forall|i: int| 0 <= i < s.len() ==> keep(#[trigger] s[i]),
    ensures
        s.filter(keep) == s,
    decreases s.len(),
{
    reveal(Seq::filter);
    if s.len() > 0 {
        lemma_filter_all(s.drop_last(), keep);
    }
}

/// The view of each text of a list.
pub open spec fn texts_view(texts: Seq<String>) -> Seq<Seq<char>> {
    texts.map_values(|t: String| t@)
}

/// Collects the characters of `text`, in order.
pub fn chars_of(text: &str) -> (chars: Vec<char>)
    ensures
        chars@ == text@,
{
    let mut chars: Vec<char> = Vec::new();
    for c in it: text.chars()
        invariant
            it.seq() == text@,
            chars@ == text@.take(it.index() as int),
    {
        chars.push(c);
    }
    chars
}

/// The end of the run that starts at `from` and stops before the first line
/// feed, or at the end of the text.
pub(crate) fn line_end(chars: &Vec<char>, from: usize) -> (end: usize)
    requires
        from <= chars.len(),
    ensures
        from <= end <= chars.len(),
        end - from == run_len(chars@.skip(from as int), line_feed()),
{
    let mut end: usize = from;
    while end < chars.len() && chars[end] != '\n'
        invariant
            from <= end <= chars.len(),
            forall|i: int| from <= i < end ==> chars@[i] != '\n',
        decreases chars.len() - end,
    {
        end += 1;
    }
    proof {
        lemma_run_len_is(chars@.skip(from as int), line_feed(), end - from);
    }
    end
}

/// The end of the run that starts at `from` and stops before the first white
/// space character, or at the end of the text.
pub(crate) fn word_end(chars: &Vec<char>, from: usize) -> (end: usize)
    requires
        from <= chars.len(),
    ensures
        from <= end <= chars.len(),
        end - from == run_len(chars@.skip(from as int), white_space()),
{
    let mut end: usize = from;
    while end < chars.len() && !char_is_whitespace(chars[end])
        invariant
            from <= end <= chars.len(),
            forall|i: int| from <= i < end ==> !is_whitespace(chars@[i]),
        decreases chars.len() - end,
    {
        end += 1;
    }
    proof {
        lemma_run_len_is(chars@.skip(from as int), white_space(), end - from);
    }
    end
}

/// Splits `text` at white space into its words.
pub fn split_words(text: &str) -> (words: Vec<String>)
    ensures
        texts_view(words@) == words_of(text@),
{
    let chars = chars_of(text);
    let mut words: Vec<String> = Vec::new();
    let mut at: usize = 0;
    assert(text@.skip(0) =~= text@);
    while at < chars.len()
        invariant
            at <= chars.len(),
            chars@ == text@,
            texts_view(words@) + words_of(text@.skip(at as int)) == words_of(text@),
        decreases chars.len() - at,
    {
        let ghost rest = text@.skip(at as int);
        if char_is_whitespace(chars[at]) {
            assert(rest.drop_first() =~= text@.skip(at + 1));
            at += 1;
        } else {
            let end = word_end(&chars, at);
            let word = String::from_str(text.substring_char(at, end));
            proof {
                lemma_run_len(rest, white_space());
                assert(rest.take(end - at) =~= text@.subrange(at as int, end as int));
                assert(rest.skip(end - at) =~= text@.skip(end as int));
            }
            words.push(word);
            at = end;
        }
    }
    words
}

} // verus!
