//! Character-level helpers on text: conversions, white space, prefixes and
//! case-insensitive comparison.

use vstd::prelude::*;
use vstd::slice::*;
use vstd::string::*;

verus! {

broadcast use vstd::string::group_string_axioms;

/// Whether `c` is white space: one of the characters with the Unicode
/// property White_Space.
pub open spec fn white_space(c: char) -> bool {
    let code = c as u32;
    ||| 0x09 <= code <= 0x0D
    ||| code == 0x20
    ||| code == 0x85
    ||| code == 0xA0
    ||| code == 0x1680
    ||| 0x2000 <= code <= 0x200A
    ||| code == 0x2028
    ||| code == 0x2029
    ||| code == 0x202F
    ||| code == 0x205F
    ||| code == 0x3000
}

/// The lower-case form of a text, as `str::to_lowercase` gives it.
pub uninterp spec fn lowercase(text: Seq<char>) -> Seq<char>;

/// `str::to_lowercase` of the standard library: what it gives depends on
/// the text alone, and is what `lowercase` stands for.
pub assume_specification[ str::to_lowercase ](text: &str) -> (lower: String)
    ensures
        lower@ == lowercase(text@),
;

/// `String::push` of the standard library appends one character.
pub assume_specification[ String::push ](s: &mut String, ch: char)
    ensures
        final(s)@ == old(s)@.push(ch),
;

/// A text that may be there, as plain values.
pub open spec fn text_option(text: Option<String>) -> Option<Seq<char>> {
    match text {
        Some(text) => Some(text@),
        None => None,
    }
}

/// `s` without its leading white space.
pub open spec fn trim_start(s: Seq<char>) -> Seq<char>
    decreases s.len(),
{
    if s.len() > 0 && white_space(s[0]) {
        trim_start(s.drop_first())
    } else {
        s
    }
}

/// `s` without its trailing white space.
pub open spec fn trim_end(s: Seq<char>) -> Seq<char>
    decreases s.len(),
{
    if s.len() > 0 && white_space(s.last()) {
        trim_end(s.drop_last())
    } else {
        s
    }
}

/// `s` without leading and trailing white space.
pub open spec fn trim(s: Seq<char>) -> Seq<char> {
    trim_end(trim_start(s))
}

/// The longest prefix of `s` that holds no white space.
pub open spec fn leading_word(s: Seq<char>) -> Seq<char>
    decreases s.len(),
{
    if s.len() > 0 && !white_space(s[0]) {
        seq![s[0]] + leading_word(s.drop_first())
    } else {
        Seq::empty()
    }
}

/// The first white-space-delimited token of `s`; empty when `s` holds
/// nothing but white space.
pub open spec fn first_token(s: Seq<char>) -> Seq<char> {
    leading_word(trim_start(s))
}

/// The position of the first `c` in `s`, if there is one.
pub open spec fn first_index_of(s: Seq<char>, c: char) -> Option<int>
    decreases s.len(),
{
    if s.len() == 0 {
        None
    } else if s[0] == c {
        Some(0)
    } else {
        match first_index_of(s.drop_first(), c) {
            Some(i) => Some(i + 1),
            None => None,
        }
    }
}

/// The code of `c`, with the upper-case ASCII letters mapped to lower case.
pub open spec fn ascii_lower(c: char) -> u32 {
    if 'A' <= c && c <= 'Z' {
        (c as u32 + 32) as u32
    } else {
        c as u32
    }
}

/// Equality that ignores the case of ASCII letters.
pub open spec fn same_ignoring_ascii_case(a: Seq<char>, b: Seq<char>) -> bool {
    &&& a.len() == b.len()
    &&& forall|i: int| 0 <= i < a.len() ==> ascii_lower(#[trigger] a[i]) == ascii_lower(b[i])
}

/// Leading white space ends at the first character that is none.
pub proof fn lemma_trim_start(s: Seq<char>, n: int)
    requires
        0 <= n <= s.len(),
        forall|j: int| 0 <= j < n ==> white_space(#[trigger] s[j]),
        n < s.len() ==> !white_space(s[n]),
    ensures
        trim_start(s) == s.skip(n),
    decreases n,
{
    if n == 0 {
        assert(s.skip(0) =~= s);
    } else {
        let rest = s.drop_first();
        assert forall|j: int| 0 <= j < n - 1 implies white_space(#[trigger] rest[j]) by {
            assert(rest[j] == s[j + 1]);
        }
        lemma_trim_start(rest, n - 1);
        assert(rest.skip(n - 1) =~= s.skip(n));
    }
}

/// Trailing white space begins behind the last character that is none.
pub proof fn lemma_trim_end(s: Seq<char>, n: int)
    requires
        0 <= n <= s.len(),
        forall|j: int| n <= j < s.len() ==> white_space(#[trigger] s[j]),
        0 < n ==> !white_space(s[n - 1]),
    ensures
        trim_end(s) == s.take(n),
    decreases s.len() - n,
{
    if n == s.len() {
        assert(s.take(n) =~= s);
    } else {
        let rest = s.drop_last();
        lemma_trim_end(rest, n);
        assert(rest.take(n) =~= s.take(n));
    }
}

/// The leading word ends at the first white space.
pub proof fn lemma_leading_word(s: Seq<char>, n: int)
    requires
        0 <= n <= s.len(),
        forall|j: int| 0 <= j < n ==> !white_space(#[trigger] s[j]),
        n < s.len() ==> white_space(s[n]),
    ensures
        leading_word(s) == s.take(n),
    decreases n,
{
    if n == 0 {
        assert(s.take(0) =~= Seq::<char>::empty());
    } else {
        let rest = s.drop_first();
        assert forall|j: int| 0 <= j < n - 1 implies !white_space(#[trigger] rest[j]) by {
            assert(rest[j] == s[j + 1]);
        }
        lemma_leading_word(rest, n - 1);
        assert(seq![s[0]] + rest.take(n - 1) =~= s.take(n));
    }
}

/// The first `c` stands where no `c` stands before it.
pub proof fn lemma_first_index_of(s: Seq<char>, c: char, n: int)
    requires
        0 <= n <= s.len(),
        forall|j: int| 0 <= j < n ==> #[trigger] s[j] != c,
        n < s.len() ==> s[n] == c,
    ensures
        first_index_of(s, c) == (if n < s.len() { Some(n) } else { None::<int> }),
    decreases n,
{
    if n > 0 {
        let rest = s.drop_first();
        assert forall|j: int| 0 <= j < n - 1 implies #[trigger] rest[j] != c by {
            assert(rest[j] == s[j + 1]);
        }
        lemma_first_index_of(rest, c, n - 1);
    }
}

/// Whether `c` is white space.
pub fn is_white_space(c: char) -> (yes: bool)
    ensures
        yes == white_space(c),
{
    let code = c as u32;
    (0x09 <= code && code <= 0x0D) || code == 0x20 || code == 0x85 || code == 0xA0 || code
        == 0x1680 || (0x2000 <= code && code <= 0x200A) || code == 0x2028 || code == 0x2029
        || code == 0x202F || code == 0x205F || code == 0x3000
}

/// The characters of `s`, in order.
pub fn chars_of(s: &str) -> (out: Vec<char>)
    ensures
        out@ == s@,
{
    let mut out: Vec<char> = Vec::new();
    for c in it: s.chars()
        invariant
            it.seq() == s@,
            out@ == it.seq().take(it.index()),
    {
        out.push(c);
    }
    assert(out@ =~= s@);
    out
}

/// The text made of the characters `cs`.
pub fn string_of(cs: &[char]) -> (out: String)
    ensures
        out@ == cs@,
{
    let mut out = String::new();
    push_chars(&mut out, cs);
    out
}

/// Appends the characters `cs` to `out`.
pub fn push_chars(out: &mut String, cs: &[char])
    ensures
        final(out)@ == old(out)@ + cs@,
{
    let mut i: usize = 0;
    while i < cs.len()
        invariant
            i <= cs.len(),
            out@ == old(out)@ + cs@.take(i as int),
        decreases cs.len() - i,
    {
        out.push(cs[i]);
        i += 1;
        assert(cs@.take(i as int) =~= cs@.take(i - 1).push(cs@[i - 1]));
    }
    assert(cs@.take(cs.len() as int) =~= cs@);
}

/// The part of `cs` behind its leading white space.
pub fn trimmed_start(cs: &[char]) -> (out: &[char])
    ensures
        out@ == trim_start(cs@),
{
    let mut lo: usize = 0;
    while lo < cs.len() && is_white_space(cs[lo])
        invariant
            lo <= cs.len(),
            forall|j: int| 0 <= j < lo ==> white_space(#[trigger] cs@[j]),
        decreases cs.len() - lo,
    {
        lo += 1;
    }
    proof {
        lemma_trim_start(cs@, lo as int);
    }
    slice_subrange(cs, lo, cs.len())
}

/// The part of `cs` between its leading and its trailing white space.
pub fn trimmed(cs: &[char]) -> (out: &[char])
    ensures
        out@ == trim(cs@),
{
    let head = trimmed_start(cs);
    let mut hi: usize = head.len();
    while hi > 0 && is_white_space(head[hi - 1])
        invariant
            hi <= head.len(),
            forall|j: int| hi <= j < head.len() ==> white_space(#[trigger] head@[j]),
        decreases hi,
    {
        hi -= 1;
    }
    proof {
        lemma_trim_end(head@, hi as int);
    }
    slice_subrange(head, 0, hi)
}

/// The first white-space-delimited token of `cs`.
pub fn first_token_of(cs: &[char]) -> (out: &[char])
    ensures
        out@ == first_token(cs@),
{
    let head = trimmed_start(cs);
    let mut n: usize = 0;
    while n < head.len() && !is_white_space(head[n])
        invariant
            n <= head.len(),
            forall|j: int| 0 <= j < n ==> !white_space(#[trigger] head@[j]),
        decreases head.len() - n,
    {
        n += 1;
    }
    proof {
        lemma_leading_word(head@, n as int);
    }
    slice_subrange(head, 0, n)
}

/// Where the first `c` stands in `cs`.
pub fn find_char(cs: &[char], c: char) -> (found: Option<usize>)
    ensures
        match found {
            Some(i) => i < cs@.len() && first_index_of(cs@, c) == Some(i as int),
            None => first_index_of(cs@, c) is None,
        },
{
    let mut n: usize = 0;
    while n < cs.len() && cs[n] != c
        invariant
            n <= cs.len(),
            forall|j: int| 0 <= j < n ==> #[trigger] cs@[j] != c,
        decreases cs.len() - n,
    {
        n += 1;
    }
    proof {
        lemma_first_index_of(cs@, c, n as int);
    }
    if n < cs.len() {
        Some(n)
    } else {
        None
    }
}

/// Whether `cs` and `other` hold the same characters.
pub fn same_chars(cs: &[char], other: &[char]) -> (same: bool)
    ensures
        same == (cs@ == other@),
{
    if cs.len() != other.len() {
        return false;
    }
    let mut i: usize = 0;
    while i < cs.len()
        invariant
            i <= cs.len(),
            cs.len() == other.len(),
            forall|j: int| 0 <= j < i ==> cs@[j] == other@[j],
        decreases cs.len() - i,
    {
        if cs[i] != other[i] {
            return false;
        }
        i += 1;
    }
    assert(cs@ =~= other@);
    true
}

/// Whether `cs` spells the text `word`.
pub fn spells(cs: &[char], word: &str) -> (same: bool)
    ensures
        same == (cs@ == word@),
{
    let other = chars_of(word);
    same_chars(cs, other.as_slice())
}

/// Whether `cs` begins with the text `prefix`.
pub fn starts_with(cs: &[char], prefix: &str) -> (yes: bool)
    ensures
        yes == prefix@.is_prefix_of(cs@),
{
    let head = chars_of(prefix);
    if head.len() > cs.len() {
        return false;
    }
    let front = slice_subrange(cs, 0, head.len());
    same_chars(front, head.as_slice())
}

/// The code of `c`, folded to lower case if it is an ASCII letter.
pub fn ascii_lower_code(c: char) -> (code: u32)
    ensures
        code == ascii_lower(c),
{
    if 'A' <= c && c <= 'Z' {
        c as u32 + 32
    } else {
        c as u32
    }
}

/// Whether `cs` spells `word` when the case of ASCII letters is ignored.
pub fn spells_ignoring_ascii_case(cs: &[char], word: &str) -> (same: bool)
    ensures
        same == same_ignoring_ascii_case(cs@, word@),
{
    let other = chars_of(word);
    if cs.len() != other.len() {
        return false;
    }
    let mut i: usize = 0;
    while i < cs.len()
        invariant
            i <= cs.len(),
            cs.len() == other.len(),
            other@ == word@,
            forall|j: int| 0 <= j < i ==> ascii_lower(#[trigger] cs@[j]) == ascii_lower(other@[j]),
        decreases cs.len() - i,
    {
        if ascii_lower_code(cs[i]) != ascii_lower_code(other[i]) {
            return false;
        }
        i += 1;
    }
    true
}

} // verus!
