//! Text as sequences of characters: case folding, trimming, and the two
//! containment relations used for matching.

use vstd::prelude::*;

verus! {

/// The ASCII lower-case form of a character: `A`..`Z` become `a`..`z`, every
/// other character stays as it is.
pub open spec fn lower_char(c: char) -> char {
    if 'A' <= c && c <= 'Z' {
        ((c as u32) + 32) as char
    } else {
        c
    }
}

/// The text with every character in its ASCII lower-case form.
pub open spec fn ascii_lowercase(text: Seq<char>) -> Seq<char> {
    text.map_values(|c: char| lower_char(c))
}

/// Whether the text holds one of the letters `A`..`Z`.
pub open spec fn has_ascii_uppercase(text: Seq<char>) -> bool {
    exists|i: int| 0 <= i < text.len() && 'A' <= #[trigger] text[i] && text[i] <= 'Z'
}

/// Whether `at` places the characters of `pattern`, in order, on positions of
/// `text` that hold the same characters.
pub open spec fn is_embedding(pattern: Seq<char>, text: Seq<char>, at: Seq<int>) -> bool {
    &&& at.len() == pattern.len()
    &&& forall|k: int|
        0 <= k < at.len() ==> 0 <= #[trigger] at[k] < text.len() && text[at[k]] == pattern[k]
    &&& forall|k: int, l: int| 0 <= k < l < at.len() ==> #[trigger] at[k] < #[trigger] at[l]
}

/// Whether the characters of `pattern` occur in `text` in the same order, not
/// necessarily next to each other.
pub open spec fn is_subsequence(pattern: Seq<char>, text: Seq<char>) -> bool {
    exists|at: Seq<int>| is_embedding(pattern, text, at)
}

/// Whether `pattern` stands in `text` at position `start`.
pub open spec fn occurs_at(pattern: Seq<char>, text: Seq<char>, start: int) -> bool {
    &&& 0 <= start
    &&& start + pattern.len() <= text.len()
    &&& text.subrange(start, start + pattern.len()) == pattern
}

/// Whether `pattern` occurs in `text` as one contiguous run.
pub open spec fn is_substring(pattern: Seq<char>, text: Seq<char>) -> bool {
    exists|start: int| occurs_at(pattern, text, start)
}

/// Whether `part` is a contiguous run of `text`.
pub open spec fn is_slice_of(part: Seq<char>, text: Seq<char>) -> bool {
    exists|from: int, to: int|
        0 <= from <= to <= text.len() && part == #[trigger] text.subrange(from, to)
}

/// A text holds no pattern that is longer than itself.
pub proof fn lemma_subsequence_is_no_longer(pattern: Seq<char>, text: Seq<char>)
    requires
        is_subsequence(pattern, text),
    ensures
        pattern.len() <= text.len(),
{
    let at = choose|at: Seq<int>| is_embedding(pattern, text, at);
    if at.len() > 0 {
        lemma_embedding_advances(pattern, text, at, at.len() - 1);
    }
}

/// The place of the `k`-th character of an embedded pattern is at least `k`.
proof fn lemma_embedding_advances(pattern: Seq<char>, text: Seq<char>, at: Seq<int>, k: int)
    requires
        is_embedding(pattern, text, at),
        0 <= k < at.len(),
    ensures
        k <= at[k],
    decreases k,
{
    if k > 0 {
        lemma_embedding_advances(pattern, text, at, k - 1);
        assert(at[k - 1] < at[k]);
    }
}

/// Folding is idempotent: a folded text folds to itself.
pub proof fn lemma_ascii_lowercase_idempotent(text: Seq<char>)
    ensures
        ascii_lowercase(ascii_lowercase(text)) == ascii_lowercase(text),
        !has_ascii_uppercase(ascii_lowercase(text)),
        ascii_lowercase(text).len() == text.len(),
{
    let folded = ascii_lowercase(text);
    assert forall|i: int| 0 <= i < folded.len() implies !('A' <= #[trigger] folded[i]
        && folded[i] <= 'Z') by {
        let c = text[i];
        if 'A' <= c && c <= 'Z' {
            assert(((c as u32) + 32) as char as u32 == (c as u32) + 32);
        }
    }
    assert(ascii_lowercase(folded) =~= folded);
}

/// What `str::to_lowercase` returns for a text: its lower-case form under
/// the Unicode case mapping.
pub uninterp spec fn unicode_lowercase(text: Seq<char>) -> Seq<char>;

/// Whether `str::trim` takes a character for white space, that is, whether
/// the character has the Unicode property `White_Space`.
pub uninterp spec fn is_white_space(c: char) -> bool;

/// The text without the white space at its start.
pub open spec fn trim_start(text: Seq<char>) -> Seq<char>
    decreases text.len(),
{
    if text.len() > 0 && is_white_space(text.first()) {
        trim_start(text.drop_first())
    } else {
        text
    }
}

/// The text without the white space at its end.
pub open spec fn trim_end(text: Seq<char>) -> Seq<char>
    decreases text.len(),
{
    if text.len() > 0 && is_white_space(text.last()) {
        trim_end(text.drop_last())
    } else {
        text
    }
}

/// The text without the white space at its start and at its end.
pub open spec fn trimmed(text: Seq<char>) -> Seq<char> {
    trim_end(trim_start(text))
}

/// Whether every character of the text is white space.
pub open spec fn is_blank(text: Seq<char>) -> bool {
    forall|i: int| 0 <= i < text.len() ==> is_white_space(#[trigger] text[i])
}

/// `str::to_ascii_lowercase` maps each of `A`..`Z` to its lower-case letter
/// and copies every other character.
pub assume_specification[ str::to_ascii_lowercase ](text: &str) -> (folded: String)
    ensures
        folded@ == ascii_lowercase(text@),
;

/// `str::to_lowercase` is a function of the text alone; its result carries
/// the name `unicode_lowercase`.
pub assume_specification[ str::to_lowercase ](text: &str) -> (lowered: String)
    ensures
        lowered@ == unicode_lowercase(text@),
;

/// `str::trim` returns the slice of the text that is left when the leading
/// and the trailing white space are removed; what is left begins and ends
/// with a character that is not white space.
pub assume_specification[ str::trim ](text: &str) -> (kept: &str)
    ensures
        kept@ == trimmed(text@),
        kept@.len() > 0 ==> !is_white_space(kept@.first()) && !is_white_space(kept@.last()),
;

/// Trimming at the start leaves a final part of the text, which is empty
/// exactly when the text is blank.
pub proof fn lemma_trim_start(text: Seq<char>)
    ensures
        trim_start(text).len() <= text.len(),
        trim_start(text) == text.subrange(text.len() - trim_start(text).len(), text.len() as int),
        trim_start(text).len() == 0 <==> is_blank(text),
        trim_start(text).len() > 0 ==> !is_white_space(trim_start(text).first()),
    decreases text.len(),
{
    if text.len() > 0 && is_white_space(text.first()) {
        let rest = text.drop_first();
        lemma_trim_start(rest);
        let kept = trim_start(rest);
        assert(kept =~= text.subrange(text.len() - kept.len(), text.len() as int));
        if is_blank(rest) {
            assert forall|i: int| 0 <= i < text.len() implies is_white_space(
                #[trigger] text[i],
            ) by {
                if i > 0 {
                    assert(text[i] == rest[i - 1]);
                }
            }
        }
        if is_blank(text) {
            assert forall|i: int| 0 <= i < rest.len() implies is_white_space(
                #[trigger] rest[i],
            ) by {
                assert(rest[i] == text[i + 1]);
            }
        }
    } else {
        assert(text =~= text.subrange(0, text.len() as int));
        if text.len() > 0 {
            assert(!is_white_space(text[0]));
        }
    }
}

/// Trimming at the end leaves an initial part of the text, which is empty
/// exactly when the text is blank.
pub proof fn lemma_trim_end(text: Seq<char>)
    ensures
        trim_end(text).len() <= text.len(),
        trim_end(text) == text.subrange(0, trim_end(text).len() as int),
        trim_end(text).len() == 0 <==> is_blank(text),
        trim_end(text).len() > 0 ==> !is_white_space(trim_end(text).last()),
    decreases text.len(),
{
    if text.len() > 0 && is_white_space(text.last()) {
        let rest = text.drop_last();
        lemma_trim_end(rest);
        let kept = trim_end(rest);
        assert(kept =~= text.subrange(0, kept.len() as int));
        if is_blank(rest) {
            assert forall|i: int| 0 <= i < text.len() implies is_white_space(
                #[trigger] text[i],
            ) by {
                if i < rest.len() {
                    assert(text[i] == rest[i]);
                }
            }
        }
        if is_blank(text) {
            assert forall|i: int| 0 <= i < rest.len() implies is_white_space(
                #[trigger] rest[i],
            ) by {
                assert(rest[i] == text[i]);
            }
        }
    } else {
        assert(text =~= text.subrange(0, text.len() as int));
        if text.len() > 0 {
            assert(!is_white_space(text[text.len() - 1]));
        }
    }
}

/// The trimmed text is a contiguous run of the text. It is empty exactly
/// when the text is blank; otherwise it begins and ends with a character
/// that is not white space.
pub proof fn lemma_trimmed(text: Seq<char>)
    ensures
        is_slice_of(trimmed(text), text),
        trimmed(text).len() <= text.len(),
        trimmed(text).len() == 0 <==> is_blank(text),
        trimmed(text).len() > 0 ==> !is_white_space(trimmed(text).first()) && !is_white_space(
            trimmed(text).last(),
        ),
{
    let inner = trim_start(text);
    let kept = trimmed(text);
    lemma_trim_start(text);
    lemma_trim_end(inner);
    let from = text.len() - inner.len();
    assert(kept =~= text.subrange(from, from + kept.len()));
    if inner.len() > 0 {
        assert(!is_white_space(inner[0]));
        assert(kept.first() == inner.first());
    }
}

/// The characters of a text, one element each.
pub fn chars_of(text: &str) -> (chars: Vec<char>)
    ensures
        chars@ == text@,
{
    let mut chars: Vec<char> = Vec::new();
    for c in it: text.chars()
        invariant
            it.seq() == text@,
            chars@ == it.seq().take(it.index()),
    {
        chars.push(c);
    }
    chars
}

/// Whether `pattern` stands in `text` at position `start`.
fn matches_at(text: &Vec<char>, pattern: &Vec<char>, start: usize) -> (same: bool)
    requires
        start + pattern.len() <= text.len(),
    ensures
        same == occurs_at(pattern@, text@, start as int),
{
    let mut k: usize = 0;
    while k < pattern.len()
        invariant
            k <= pattern.len(),
            start + pattern.len() <= text.len(),
            forall|j: int| 0 <= j < k ==> text[start + j] == pattern[j],
        decreases pattern.len() - k,
    {
        if text[start + k] != pattern[k] {
            proof {
                let window = text@.subrange(start as int, start + pattern.len());
                assert(window[k as int] == text[start + k]);
            }
            return false;
        }
        k += 1;
    }
    assert(text@.subrange(start as int, start + pattern.len()) =~= pattern@);
    true
}

/// Whether `pattern` occurs in `text` as one contiguous run. The empty
/// pattern occurs in every text.
pub fn contains(text: &Vec<char>, pattern: &Vec<char>) -> (found: bool)
    ensures
        found == is_substring(pattern@, text@),
{
    if pattern.len() > text.len() {
        return false;
    }
    let last: usize = text.len() - pattern.len();
    let mut start: usize = 0;
    loop
        invariant
            start <= last,
            last == text.len() - pattern.len(),
            forall|s: int| 0 <= s < start ==> !occurs_at(pattern@, text@, s),
        decreases last - start,
    {
        if matches_at(text, pattern, start) {
            return true;
        }
        if start == last {
            return false;
        }
        start += 1;
    }
}

} // verus!
