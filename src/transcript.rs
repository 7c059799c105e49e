use vstd::prelude::*;
use vstd::string::*;

use crate::text::{
    chars_of, contains, contains_exec, ends_with, ends_with_exec, occurs_at_exec, starts_with,
};

verus! {

/// What Unicode lowercasing makes of a string.
pub uninterp spec fn lower_of(s: Seq<char>) -> Seq<char>;

/// The whitespace-separated words of a string, in order.
pub uninterp spec fn words_of(s: Seq<char>) -> Seq<Seq<char>>;

/// Relies on `str::to_lowercase`: the lowercase mapping of each character,
/// which depends on the characters alone.
#[verifier::external_body]
fn lowercase(s: &str) -> (r: String)
    ensures
        r@ == lower_of(s@),
{
    s.to_lowercase()
}

/// Relies on `str::split_whitespace`: the maximal runs of non-whitespace
/// characters, in order.
#[verifier::external_body]
fn split_words(s: &str) -> (r: Vec<String>)
    ensures
        r@.len() == words_of(s@).len(),
        forall|i: int| 0 <= i < r@.len() ==> (#[trigger] r@[i])@ == words_of(s@)[i],
{
    s.split_whitespace().map(str::to_string).collect()
}

/// Each word lowercased.
pub open spec fn lower_words(ws: Seq<Seq<char>>) -> Seq<Seq<char>> {
    ws.map_values(|w: Seq<char>| lower_of(w))
}

/// The last `k` trailing words equal the first `k` new ones.
pub open spec fn overlap_matches(trailing: Seq<Seq<char>>, lowered: Seq<Seq<char>>, k: int) -> bool {
    0 <= k <= trailing.len() && k <= lowered.len() && trailing.subrange(
        trailing.len() - k,
        trailing.len() as int,
    ) == lowered.subrange(0, k)
}

/// The largest `k` in `1..=m` at which the trailing words overlap the new ones,
/// or 0.
pub open spec fn best_overlap(trailing: Seq<Seq<char>>, lowered: Seq<Seq<char>>, m: int) -> int
    decreases m,
{
    if m <= 0 {
        0
    } else if overlap_matches(trailing, lowered, m) {
        m
    } else {
        best_overlap(trailing, lowered, m - 1)
    }
}

/// Words joined by single spaces.
pub open spec fn join_words(ws: Seq<Seq<char>>) -> Seq<char>
    decreases ws.len(),
{
    if ws.len() == 0 {
        Seq::empty()
    } else if ws.len() == 1 {
        ws[0]
    } else {
        join_words(ws.drop_last()) + seq![' '] + ws.last()
    }
}

pub open spec fn min(a: int, b: int) -> int {
    if a <= b {
        a
    } else {
        b
    }
}

/// `text` with the words that repeat the end of the previous segment removed,
/// given its words and their lowercase forms.
pub open spec fn dedup_words(
    trailing: Seq<Seq<char>>,
    words: Seq<Seq<char>>,
    lowered: Seq<Seq<char>>,
    text: Seq<char>,
) -> Seq<char> {
    if trailing.len() == 0 {
        text
    } else if words.len() == 0 {
        Seq::empty()
    } else {
        let k = best_overlap(trailing, lowered, min(trailing.len() as int, words.len() as int));
        if k > 0 {
            join_words(words.subrange(k, words.len() as int))
        } else {
            text
        }
    }
}

/// `text` with the words that repeat the end of the previous segment removed.
pub open spec fn deduplicated(trailing: Seq<Seq<char>>, text: Seq<char>) -> Seq<char> {
    dedup_words(trailing, words_of(text), lower_words(words_of(text)), text)
}

/// The view of each string.
pub open spec fn views(v: Seq<String>) -> Seq<Seq<char>> {
    v.map_values(|s: String| s@)
}

/// The words of `text`, lowercased, keeping at most the last `n`.
pub open spec fn trailing_words(text: Seq<char>, n: int) -> Seq<Seq<char>> {
    let ws = lower_words(words_of(text));
    if ws.len() <= n {
        ws
    } else {
        ws.subrange(ws.len() - n, ws.len() as int)
    }
}

proof fn lemma_best_overlap(trailing: Seq<Seq<char>>, lowered: Seq<Seq<char>>, m: int)
    ensures
        0 <= best_overlap(trailing, lowered, m) <= if m < 0 {
            0
        } else {
            m
        },
        best_overlap(trailing, lowered, m) > 0 ==> overlap_matches(
            trailing,
            lowered,
            best_overlap(trailing, lowered, m),
        ),
    decreases m,
{
    if m > 0 && !overlap_matches(trailing, lowered, m) {
        lemma_best_overlap(trailing, lowered, m - 1);
    }
}

/// Whether the last `k` trailing words equal the first `k` lowered words.
fn overlap_matches_exec(trailing: &Vec<String>, lowered: &Vec<String>, k: usize) -> (r: bool)
    requires
        k <= trailing@.len(),
        k <= lowered@.len(),
    ensures
        r == overlap_matches(views(trailing@), views(lowered@), k as int),
{
    let base = trailing.len() - k;
    let mut i: usize = 0;
    while i < k
        invariant
            k <= trailing@.len(),
            k <= lowered@.len(),
            base == trailing@.len() - k,
            i <= k,
            forall|j: int| 0 <= j < i ==> trailing@[base + j]@ == lowered@[j]@,
        decreases k - i,
    {
        assert(base + i < trailing.len());
        let same = trailing[base + i] == lowered[i];
        if !same {
            proof {
                assert(views(trailing@)[base + i] == trailing@[base + i]@);
                assert(views(trailing@).subrange(base as int, trailing@.len() as int)[i as int]
                    != views(lowered@).subrange(0, k as int)[i as int]);
            }
            return false;
        }
        i = i + 1;
    }
    assert(views(trailing@).subrange(base as int, trailing@.len() as int) =~= views(
        lowered@,
    ).subrange(0, k as int));
    true
}

/// Join `words[from..]` with single spaces.
fn join_from(words: &Vec<String>, from: usize) -> (r: String)
    requires
        from <= words@.len(),
    ensures
        r@ == join_words(views(words@).subrange(from as int, words@.len() as int)),
{
    let mut out = String::new();
    let mut i = from;
    while i < words.len()
        invariant
            from <= i <= words@.len(),
            out@ == join_words(views(words@).subrange(from as int, i as int)),
        decreases words@.len() - i,
    {
        let ghost before = views(words@).subrange(from as int, i as int);
        if i > from {
            out.append(" ");
        }
        out.append(words[i].as_str());
        i = i + 1;
        proof {
            let after = views(words@).subrange(from as int, i as int);
            assert(after.drop_last() =~= before);
            if before.len() == 0 {
                assert(after.len() == 1);
                assert(out@ =~= after[0]);
            } else {
                reveal_strlit(" ");
                assert(out@ =~= join_words(before) + seq![' '] + after.last());
            }
        }
    }
    out
}

/// Remove from `text` the leading words that repeat the trailing words of the
/// previous segment: the largest `k` for which the last `k` trailing words equal
/// the first `k` words lowercased. `words` are the words of `text` and
/// `lowered` their lowercase forms.
pub fn deduplicate_words(
    trailing: &Vec<String>,
    words: &Vec<String>,
    lowered: &Vec<String>,
    text: &str,
) -> (r: String)
    requires
        lowered@.len() == words@.len(),
    ensures
        r@ == dedup_words(views(trailing@), views(words@), views(lowered@), text@),
{
    if trailing.len() == 0 {
        return String::from_str(text);
    }
    if words.len() == 0 {
        return String::new();
    }
    let max_overlap = if trailing.len() <= words.len() {
        trailing.len()
    } else {
        words.len()
    };
    let mut k = max_overlap;
    while k > 0
        invariant
            k <= max_overlap,
            max_overlap <= trailing@.len(),
            max_overlap <= words@.len(),
            lowered@.len() == words@.len(),
            best_overlap(views(trailing@), views(lowered@), max_overlap as int) == best_overlap(
                views(trailing@),
                views(lowered@),
                k as int,
            ),
        ensures
            k == 0 || overlap_matches(views(trailing@), views(lowered@), k as int),
            best_overlap(views(trailing@), views(lowered@), max_overlap as int) == best_overlap(
                views(trailing@),
                views(lowered@),
                k as int,
            ),
        decreases k,
    {
        if overlap_matches_exec(trailing, lowered, k) {
            break;
        }
        k = k - 1;
    }
    if k > 0 {
        join_from(words, k)
    } else {
        String::from_str(text)
    }
}

/// The lowercase forms of `words`.
fn lower_all(words: &Vec<String>) -> (r: Vec<String>)
    ensures
        r@.len() == words@.len(),
        views(r@) == lower_words(views(words@)),
{
    let mut out: Vec<String> = Vec::new();
    let mut i: usize = 0;
    while i < words.len()
        invariant
            i <= words@.len(),
            out@.len() == i,
            forall|j: int| 0 <= j < i ==> (#[trigger] out@[j])@ == lower_of(words@[j]@),
        decreases words@.len() - i,
    {
        out.push(lowercase(words[i].as_str()));
        i = i + 1;
    }
    assert(views(out@) =~= lower_words(views(words@)));
    out
}

/// The words of `text`.
pub fn words(text: &str) -> (r: Vec<String>)
    ensures
        views(r@) == words_of(text@),
{
    let r = split_words(text);
    assert(views(r@) =~= words_of(text@));
    r
}

/// Remove from `text` the leading words that repeat `trailing`, the lowercase
/// trailing words of the previous segment.
pub fn deduplicate_overlap(trailing: &Vec<String>, text: &str) -> (r: String)
    ensures
        r@ == deduplicated(views(trailing@), text@),
{
    let ws = words(text);
    let lowered = lower_all(&ws);
    deduplicate_words(trailing, &ws, &lowered, text)
}

/// The lowercase words of `text`, keeping at most the last `n`.
pub fn last_words_lowered(text: &str, n: usize) -> (r: Vec<String>)
    ensures
        views(r@) == trailing_words(text@, n as int),
{
    let ws = words(text);
    let lowered = lower_all(&ws);
    if lowered.len() <= n {
        return lowered;
    }
    let mut lowered = lowered;
    let tail = lowered.split_off(lowered.len() - n);
    assert(views(tail@) =~= views(lowered@ + tail@).subrange(
        (lowered@.len() + tail@.len()) - n,
        (lowered@.len() + tail@.len()) as int,
    ));
    tail
}

/// A segment whose words, lowercased, are exactly the last words of the previous
/// segment deduplicates to nothing, so nothing is written for it.
pub proof fn lemma_repeated_tail_vanishes(trailing: Seq<Seq<char>>, text: Seq<char>)
    requires
        0 < words_of(text).len() <= trailing.len(),
        lower_words(words_of(text)) == trailing.subrange(
            trailing.len() - words_of(text).len(),
            trailing.len() as int,
        ),
    ensures
        deduplicated(trailing, text).len() == 0,
{
    let ws = words_of(text);
    let lw = lower_words(ws);
    let n = ws.len() as int;
    assert(lw.subrange(0, n) =~= lw);
    assert(overlap_matches(trailing, lw, n));
    assert(min(trailing.len() as int, n) == n);
    assert(best_overlap(trailing, lw, n) == n);
    assert(ws.subrange(n, n).len() == 0);
}

/// Bytes that UTF-8 takes for a character.
pub open spec fn utf8_width(c: char) -> nat {
    if (c as u32) < 0x80 {
        1
    } else if (c as u32) < 0x800 {
        2
    } else if (c as u32) < 0x10000 {
        3
    } else {
        4
    }
}

/// Bytes that UTF-8 takes for a string.
pub open spec fn utf8_len(s: Seq<char>) -> nat
    decreases s.len(),
{
    if s.len() == 0 {
        0
    } else {
        utf8_len(s.drop_last()) + utf8_width(s.last())
    }
}

/// Text that speech recognition commonly makes up from non-speech sound, given
/// lowercased: wholly in brackets or parentheses, a short "thank you", or a
/// sign-off.
pub open spec fn is_noise(lower: Seq<char>) -> bool {
    (starts_with(lower, seq!['[']) && ends_with(lower, seq![']'])) || (starts_with(
        lower,
        seq!['('],
    ) && ends_with(lower, seq![')'])) || (contains(lower, "thank you"@) && utf8_len(lower) < 30)
        || contains(lower, "thanks for watching"@) || contains(lower, "subscribe"@)
}

/// Whether `text`, lowercased, is made-up noise.
pub fn is_hallucinated_noise(text: &str) -> (r: bool)
    ensures
        r == is_noise(lower_of(text@)),
{
    let lower = lowercase(text);
    is_noise_lowered(lower.as_str())
}

/// Whether already-lowercased text is made-up noise.
pub fn is_noise_lowered(lower: &str) -> (r: bool)
    ensures
        r == is_noise(lower@),
{
    let s = chars_of(lower);
    let open_sq = vec!['['];
    let close_sq = vec![']'];
    let open_par = vec!['('];
    let close_par = vec![')'];
    let thank_you = chars_of("thank you");
    let thanks = chars_of("thanks for watching");
    let subscribe = chars_of("subscribe");
    proof {
        assert(open_sq@ =~= seq!['[']);
        assert(close_sq@ =~= seq![']']);
        assert(open_par@ =~= seq!['(']);
        assert(close_par@ =~= seq![')']);
    }
    (occurs_at_exec(&s, &open_sq, 0) && ends_with_exec(&s, &close_sq)) || (occurs_at_exec(
        &s,
        &open_par,
        0,
    ) && ends_with_exec(&s, &close_par)) || (contains_exec(&s, &thank_you) && utf8_len_lt(
        &s,
        30,
    )) || contains_exec(&s, &thanks) || contains_exec(&s, &subscribe)
}

/// Whether the UTF-8 length of `s` is below `bound`.
fn utf8_len_lt(s: &Vec<char>, bound: usize) -> (r: bool)
    ensures
        r == (utf8_len(s@) < bound),
{
    if bound == 0 {
        return false;
    }
    let mut total: usize = 0;
    let mut i: usize = 0;
    while i < s.len()
        invariant
            i <= s@.len(),
            total == utf8_len(s@.subrange(0, i as int)),
            total < bound,
        decreases s@.len() - i,
    {
        let c = s[i] as u32;
        let w: usize = if c < 0x80 {
            1
        } else if c < 0x800 {
            2
        } else if c < 0x10000 {
            3
        } else {
            4
        };
        proof {
            assert(s@.subrange(0, i + 1).drop_last() =~= s@.subrange(0, i as int));
        }
        if w >= bound - total {
            proof {
                lemma_utf8_len_prefix(s@, i + 1);
            }
            return false;
        }
        total = total + w;
        i = i + 1;
    }
    assert(s@.subrange(0, i as int) =~= s@);
    true
}

proof fn lemma_utf8_len_prefix(s: Seq<char>, i: int)
    requires
        0 <= i <= s.len(),
    ensures
        utf8_len(s.subrange(0, i)) <= utf8_len(s),
    decreases s.len() - i,
{
    if i < s.len() {
        lemma_utf8_len_prefix(s, i + 1);
        assert(s.subrange(0, i + 1).drop_last() =~= s.subrange(0, i));
    } else {
        assert(s.subrange(0, i) =~= s);
    }
}

} // verus!
