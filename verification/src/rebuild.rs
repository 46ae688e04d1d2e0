//! The segment reconstructor: from the timed words of a QRC or LYS line to
//! a text with karaoke tags, with a tag of its own for every silence.

use crate::dialogue::{lemma_sum_ms_prefix, sum_ms, DialogueView};
use crate::matcher::{
    group_str, group_text, groups_fit, matches_fit, span_str, span_text, spans_of, Groups,
};
use crate::number::{decimal, lemma_decimal_begins, parse_number, parsed_number, push_decimal};
use crate::text::chars_of;
use crate::time::{k_value, k_value_of};
use vstd::prelude::*;
use vstd::string::*;
use vstd::utf8::*;

verus! {

/// One timed word of a line: the text that stands before its time, when it
/// begins and how long it lasts, in milliseconds.
#[derive(Debug, Clone, PartialEq, Eq)]
pub struct WordToken {
    pub text_before: String,
    pub start_ms: usize,
    pub duration_ms: usize,
}

/// What a `WordToken` holds, as plain values.
pub struct TokenView {
    pub text_before: Seq<char>,
    pub start_ms: usize,
    pub duration_ms: usize,
}

impl View for WordToken {
    type V = TokenView;

    open spec fn view(&self) -> TokenView {
        TokenView {
            text_before: self.text_before@,
            start_ms: self.start_ms,
            duration_ms: self.duration_ms,
        }
    }
}

/// The tokens of a line as plain values.
pub open spec fn tokens_view(tokens: Seq<WordToken>) -> Seq<TokenView> {
    tokens.map_values(|token: WordToken| token@)
}

/// `a + b`, or the largest `usize` where the sum is beyond it.
pub open spec fn saturating_sum(a: usize, b: usize) -> usize {
    if a + b > usize::MAX {
        usize::MAX
    } else {
        (a + b) as usize
    }
}

/// When a token ends.
pub open spec fn token_end(token: TokenView) -> usize {
    saturating_sum(token.start_ms, token.duration_ms)
}

/// Where the last of `tokens` ends; the start of the line where there is
/// none.
pub open spec fn end_after(tokens: Seq<TokenView>, line_start: usize) -> usize {
    if tokens.len() == 0 {
        line_start
    } else {
        token_end(tokens.last())
    }
}

/// The K-value of the silence from `last_end` to `start`: zero where
/// `start` is not behind `last_end`.
pub open spec fn gap_k(last_end: usize, start: usize) -> nat {
    if start > last_end {
        k_value_of((start - last_end) as nat)
    } else {
        0
    }
}

/// A karaoke tag, `{\kN}`.
pub open spec fn k_tag(k: nat) -> Seq<char> {
    seq!['{', '\\', 'k'] + decimal(k) + seq!['}']
}

/// A text behind its karaoke tag; the text alone where the K-value is
/// zero, so that no tag of zero is ever written.
pub open spec fn tagged(k: nat, text: Seq<char>) -> Seq<char> {
    if k > 0 {
        k_tag(k) + text
    } else {
        text
    }
}

/// The text for `tokens` on a line that begins at `line_start`: for each
/// token a tag for the silence before it, if there is one, then its own
/// tag and text.
pub open spec fn rebuilt_tokens(tokens: Seq<TokenView>, line_start: usize) -> Seq<char>
    decreases tokens.len(),
{
    if tokens.len() == 0 {
        Seq::empty()
    } else {
        let before = tokens.drop_last();
        let token = tokens.last();
        rebuilt_tokens(before, line_start) + tagged(
            gap_k(end_after(before, line_start), token.start_ms),
            Seq::empty(),
        ) + tagged(k_value_of(token.duration_ms as nat), token.text_before)
    }
}

/// The text of a whole line: that of its tokens, then what stands behind
/// the last token, tagged with the silence up to the end of the line.
pub open spec fn rebuilt_text(
    tokens: Seq<TokenView>,
    line_start: usize,
    line_end: usize,
    trailing: Seq<char>,
) -> Seq<char> {
    rebuilt_tokens(tokens, line_start) + tagged(
        gap_k(end_after(tokens, line_start), line_end),
        trailing,
    )
}

/// Where the text before match `i` begins: behind the match before it.
pub open spec fn text_start(found: Seq<Seq<Option<(usize, usize)>>>, i: int) -> int {
    if i <= 0 {
        0
    } else {
        found[i - 1][0].unwrap().1 as int
    }
}

/// The token of one timed word, from the text that stands before its time
/// and the texts of its two numbers; none where a number cannot be read.
pub open spec fn token_from(text_before: Seq<char>, start: Seq<char>, duration: Seq<char>) -> Option<
    TokenView,
> {
    match (parsed_number(start), parsed_number(duration)) {
        (Ok(start_ms), Ok(duration_ms)) => Some(TokenView { text_before, start_ms, duration_ms }),
        _ => None,
    }
}

/// The token of match `i` of the word-time pattern in `content`: its text
/// is what stands between the match before it and itself.
pub open spec fn token_at(content: Seq<char>, found: Seq<Seq<Option<(usize, usize)>>>, i: int) -> Option<
    TokenView,
> {
    token_from(
        span_text(content, text_start(found, i), found[i][0].unwrap().0 as int),
        group_text(content, found[i], 1),
        group_text(content, found[i], 2),
    )
}

/// Whether the numbers of every match can be read.
pub open spec fn tokens_readable(content: Seq<char>, found: Seq<Seq<Option<(usize, usize)>>>) -> bool {
    forall|i: int| 0 <= i < found.len() ==> (#[trigger] token_at(content, found, i)) is Some
}

/// The tokens of the matches `found` in `content`, in their order.
pub open spec fn tokens_of(content: Seq<char>, found: Seq<Seq<Option<(usize, usize)>>>) -> Seq<
    TokenView,
> {
    Seq::new(found.len(), |i: int| token_at(content, found, i).unwrap())
}

/// What stands in `content` behind the last match.
pub open spec fn trailing_text(content: Seq<char>, found: Seq<Seq<Option<(usize, usize)>>>) -> Seq<
    char,
> {
    span_text(content, text_start(found, found.len() as int), encode_utf8(content).len() as int)
}

/// The timed words of a line and the text behind the last of them, where
/// the numbers of every word can be read.
pub open spec fn words_of(content: Seq<char>, found: Seq<Seq<Option<(usize, usize)>>>) -> Option<
    (Seq<TokenView>, Seq<char>),
> {
    if tokens_readable(content, found) {
        Some((tokens_of(content, found), trailing_text(content, found)))
    } else {
        None
    }
}

/// The timed words of a line and the text behind them, as plain values.
pub open spec fn words_view(words: Option<(Vec<WordToken>, &str)>) -> Option<
    (Seq<TokenView>, Seq<char>),
> {
    match words {
        Some((tokens, trailing)) => Some((tokens_view(tokens@), trailing@)),
        None => None,
    }
}

/// The tokens that a record is written as, in a line of QRC or LYS: one for
/// each segment that has a text or a duration, each beginning where the
/// segment before it ended.
pub open spec fn tokens_written(segments: Seq<(Seq<char>, usize)>, start: usize) -> Seq<TokenView>
    decreases segments.len(),
{
    if segments.len() == 0 {
        Seq::empty()
    } else {
        let before = segments.drop_last();
        let segment = segments.last();
        if segment.0.len() > 0 || segment.1 > 0 {
            tokens_written(before, start).push(
                TokenView {
                    text_before: segment.0,
                    start_ms: (start + sum_ms(before)) as usize,
                    duration_ms: segment.1,
                },
            )
        } else {
            tokens_written(before, start)
        }
    }
}

/// The karaoke text of segments: each text behind the tag of its duration.
pub open spec fn karaoke_text(segments: Seq<(Seq<char>, usize)>) -> Seq<char>
    decreases segments.len(),
{
    if segments.len() == 0 {
        Seq::empty()
    } else {
        karaoke_text(segments.drop_last()) + tagged(
            k_value_of(segments.last().1 as nat),
            segments.last().0,
        )
    }
}

/// A duration of nothing has the K-value zero, and a K-value of zero writes
/// no tag: the text stands alone, and an empty text leaves nothing.
pub proof fn lemma_zero_writes_no_tag(text: Seq<char>)
    ensures
        k_value_of(0) == 0,
        tagged(k_value_of(0), text) == text,
        tagged(0, Seq::<char>::empty()).len() == 0,
{
}

/// No tag of zero is ever written: where a tag is written, the number in it
/// begins with a digit that is not zero.
pub proof fn lemma_no_tag_of_zero(k: nat, text: Seq<char>)
    requires
        k > 0,
    ensures
        tagged(k, text) == k_tag(k) + text,
        k_tag(k).len() >= 5,
        k_tag(k)[0] == '{',
        k_tag(k)[1] == '\\',
        k_tag(k)[2] == 'k',
        k_tag(k)[3] != '0',
{
    lemma_decimal_begins(k);
    assert(k_tag(k)[3] == decimal(k)[0]);
}

/// A K-value is within half a unit of the duration it stands for, and is
/// exact for a duration of whole centiseconds.
pub proof fn lemma_k_value_rounds(duration_ms: nat)
    ensures
        k_value_of(duration_ms) * 10 - 5 <= duration_ms <= k_value_of(duration_ms) * 10 + 4,
        duration_ms % 10 == 0 ==> k_value_of(duration_ms) * 10 == duration_ms,
{
}

/// The tokens that a record is written as follow each other without a
/// silence, and the last of them ends where the segments end.
pub proof fn lemma_tokens_written_end(segments: Seq<(Seq<char>, usize)>, start: usize)
    requires
        start + sum_ms(segments) <= usize::MAX,
    ensures
        end_after(tokens_written(segments, start), start) == start + sum_ms(segments),
    decreases segments.len(),
{
    if segments.len() > 0 {
        lemma_sum_ms_prefix(segments, segments.len() - 1);
        assert(segments.take(segments.len() - 1) =~= segments.drop_last());
        lemma_tokens_written_end(segments.drop_last(), start);
    }
}

/// Writing the segments of a record as timed words and reconstructing a
/// text from those words gives the karaoke text of the segments, with no
/// tag for a silence in it.
pub proof fn lemma_written_tokens_rebuild(segments: Seq<(Seq<char>, usize)>, start: usize)
    requires
        start + sum_ms(segments) <= usize::MAX,
    ensures
        rebuilt_tokens(tokens_written(segments, start), start) == karaoke_text(segments),
    decreases segments.len(),
{
    if segments.len() > 0 {
        let before = segments.drop_last();
        let segment = segments.last();
        lemma_sum_ms_prefix(segments, segments.len() - 1);
        assert(segments.take(segments.len() - 1) =~= before);
        lemma_written_tokens_rebuild(before, start);
        lemma_tokens_written_end(before, start);
        if segment.0.len() > 0 || segment.1 > 0 {
            let tokens = tokens_written(segments, start);
            assert(tokens.drop_last() =~= tokens_written(before, start));
            assert(gap_k(end_after(tokens_written(before, start), start), tokens.last().start_ms)
                == 0);
            assert(rebuilt_tokens(tokens, start) =~= karaoke_text(segments));
        } else {
            assert(karaoke_text(segments) =~= karaoke_text(before));
        }
    }
}

/// The round trip of a line without silences. A record whose karaoke
/// durations add up to the duration of its line, written as a QRC line and
/// reconstructed from the header and the timed words of that line, gives
/// the karaoke text of its segments: each text behind the tag of its
/// duration, in the same order, with nothing added. The line keeps its
/// start and its end. A duration of whole centiseconds, as every parsed one
/// is, comes back as the same K-value; any other is rounded to the nearest.
pub proof fn lemma_round_trip(d: DialogueView)
    requires
        d.wf(),
        d.end_ms >= d.start_ms,
        d.duration_ms() == d.sum_k_ms,
    ensures
        saturating_sum(d.start_ms, d.duration_ms() as usize) == d.end_ms,
        rebuilt_text(
            tokens_written(d.segments, d.start_ms),
            d.start_ms,
            saturating_sum(d.start_ms, d.duration_ms() as usize),
            Seq::empty(),
        ) == karaoke_text(d.segments),
        forall|i: int|
            0 <= i < d.segments.len() && (#[trigger] d.segments[i]).1 % 10 == 0 ==> k_value_of(
                d.segments[i].1 as nat,
            ) * 10 == d.segments[i].1,
{
    lemma_written_tokens_rebuild(d.segments, d.start_ms);
    lemma_tokens_written_end(d.segments, d.start_ms);
    assert(rebuilt_text(
        tokens_written(d.segments, d.start_ms),
        d.start_ms,
        d.end_ms,
        Seq::empty(),
    ) =~= karaoke_text(d.segments));
}

/// `a + b`, or the largest `usize` where the sum is beyond it.
pub fn saturating(a: usize, b: usize) -> (sum: usize)
    ensures
        sum == saturating_sum(a, b),
{
    a.saturating_add(b)
}

/// Appends `text` behind the tag for `k` to `out`, or alone where `k` is
/// zero.
pub fn push_tagged(out: &mut String, k: usize, text: &str)
    ensures
        final(out)@ == old(out)@ + tagged(k as nat, text@),
{
    if k > 0 {
        out.push('{');
        out.push('\\');
        out.push('k');
        push_decimal(out, k);
        out.push('}');
    }
    out.append(text);
    assert(out@ =~= old(out)@ + tagged(k as nat, text@));
}

/// The K-value of the silence from `last_end` to `start`.
pub fn gap_k_value(last_end: usize, start: usize) -> (k: usize)
    ensures
        k == gap_k(last_end, start),
{
    if start > last_end {
        k_value(start - last_end)
    } else {
        0
    }
}

/// Reconstructs the karaoke text of a line from its start, its end, its
/// timed words and the text behind the last of them.
pub fn rebuild_text(line_start: usize, line_end: usize, tokens: &Vec<WordToken>, trailing: &str) -> (text:
    String)
    ensures
        text@ == rebuilt_text(tokens_view(tokens@), line_start, line_end, trailing@),
{
    let ghost all = tokens_view(tokens@);
    let mut text = String::new();
    let mut last_segment_end_ms = line_start;
    let mut i: usize = 0;
    assert(all.take(0) =~= Seq::empty());
    while i < tokens.len()
        invariant
            i <= tokens.len(),
            all == tokens_view(tokens@),
            last_segment_end_ms == end_after(all.take(i as int), line_start),
            text@ == rebuilt_tokens(all.take(i as int), line_start),
        decreases tokens.len() - i,
    {
        let ghost next = all.take(i + 1);
        assert(next.drop_last() =~= all.take(i as int));
        assert(next.last() == all[i as int]);
        assert(all[i as int] == tokens@[i as int]@);
        let token = &tokens[i];
        push_tagged(&mut text, gap_k_value(last_segment_end_ms, token.start_ms), "");
        push_tagged(&mut text, k_value(token.duration_ms), token.text_before.as_str());
        last_segment_end_ms = saturating(token.start_ms, token.duration_ms);
        i += 1;
        proof {
            reveal_strlit("");
            assert(""@ =~= Seq::<char>::empty());
        }
        assert(text@ =~= rebuilt_tokens(next, line_start));
    }
    assert(all.take(i as int) =~= all);
    push_tagged(&mut text, gap_k_value(last_segment_end_ms, line_end), trailing);
    text
}

/// Reads the token of one timed word from the text that stands before its
/// time and the texts of its two numbers.
pub fn read_word_token(text_before: &str, start: &str, duration: &str) -> (r: Option<WordToken>)
    ensures
        match r {
            Some(token) => token_from(text_before@, start@, duration@) == Some(token@),
            None => token_from(text_before@, start@, duration@) is None,
        },
{
    let start_chars = chars_of(start);
    let duration_chars = chars_of(duration);
    let start_ms = match parse_number(start_chars.as_slice()) {
        Ok(n) => n,
        Err(_) => {
            return None;
        },
    };
    let duration_ms = match parse_number(duration_chars.as_slice()) {
        Ok(n) => n,
        Err(_) => {
            return None;
        },
    };
    Some(WordToken { text_before: text_before.to_owned(), start_ms, duration_ms })
}

/// Reads the tokens of the matches `found` of the word-time pattern in
/// `content`, and what stands behind the last match; nothing where a number
/// cannot be read.
pub fn read_tokens<'a>(content: &'a str, found: &Vec<Groups>) -> (r: Option<
    (Vec<WordToken>, &'a str),
>)
    requires
        matches_fit(spans_of(found@), content@),
    ensures
        words_view(r) == words_of(content@, spans_of(found@)),
{
    let ghost spans = spans_of(found@);
    let ghost bytes = encode_utf8(content@);
    let mut tokens: Vec<WordToken> = Vec::new();
    let mut from: usize = 0;
    let mut i: usize = 0;
    proof {
        encode_utf8_valid_utf8(content@);
        is_char_boundary_start_end_of_seq(bytes);
    }
    while i < found.len()
        invariant
            i <= found.len(),
            spans == spans_of(found@),
            bytes == encode_utf8(content@),
            valid_utf8(bytes),
            matches_fit(spans, content@),
            from == text_start(spans, i as int),
            from <= bytes.len(),
            is_char_boundary(bytes, from as int),
            is_char_boundary(bytes, bytes.len() as int),
            tokens@.len() == i,
            forall|j: int|
                0 <= j < i ==> (#[trigger] token_at(content@, spans, j)) == Some(tokens@[j]@),
        decreases found.len() - i,
    {
        let groups = &found[i];
        assert(spans[i as int] == groups@);
        assert(groups_fit(spans[i as int], content@));
        assert(from <= groups@[0].unwrap().0) by {
            if i > 0 {
                assert(spans[i - 1][0].unwrap().1 <= spans[i as int][0].unwrap().0);
            }
        }
        let whole = match groups[0] {
            Some(span) => span,
            None => (from, from),
        };
        let token = match read_word_token(
            span_str(content, from, whole.0),
            group_str(content, groups, 1),
            group_str(content, groups, 2),
        ) {
            Some(token) => token,
            None => {
                assert(token_at(content@, spans, i as int) is None);
                return None;
            },
        };
        assert(token_at(content@, spans, i as int) == Some(token@));
        from = whole.1;
        tokens.push(token);
        i += 1;
    }
    let trailing = span_str(content, from, content.as_bytes().len());
    assert(tokens_readable(content@, spans));
    assert forall|j: int| 0 <= j < tokens@.len() implies tokens_view(tokens@)[j] == tokens_of(
        content@,
        spans,
    )[j] by {
        assert(token_at(content@, spans, j) == Some(tokens@[j]@));
    }
    assert(tokens_view(tokens@) =~= tokens_of(content@, spans));
    Some((tokens, trailing))
}

/// The tag of zero, `{\k0}`.
pub open spec fn zero_tag() -> Seq<char> {
    seq!['{', '\\', 'k', '0', '}']
}

/// Whether a tag of zero stands at `i` in `s`.
pub open spec fn zero_tag_at(s: Seq<char>, i: int) -> bool {
    &&& 0 <= i
    &&& i + 5 <= s.len()
    &&& s[i] == '{'
    &&& s[i + 1] == '\\'
    &&& s[i + 2] == 'k'
    &&& s[i + 3] == '0'
    &&& s[i + 4] == '}'
}

/// `s` with every tag of zero cut out, from the left; what two cut tags
/// leave behind is not looked at again.
pub open spec fn without_zero_tags(s: Seq<char>) -> Seq<char>
    decreases s.len(),
{
    if s.len() == 0 {
        Seq::empty()
    } else if zero_tag_at(s, 0) {
        without_zero_tags(s.skip(5))
    } else {
        seq![s[0]] + without_zero_tags(s.skip(1))
    }
}

/// Whether every `{` in `s` begins a tag whose number does not begin with
/// zero, as far as three characters on.
pub open spec fn braces_open_tags(s: Seq<char>) -> bool {
    forall|i: int| 0 <= i < s.len() && #[trigger] s[i] == '{' ==> i + 3 < s.len() && s[i + 3] != '0'
}

/// Whether no text of the segments holds a `{`.
pub open spec fn texts_without_braces(segments: Seq<(Seq<char>, usize)>) -> bool {
    forall|k: int, i: int|
        0 <= k < segments.len() && 0 <= i < segments[k].0.len() ==> (#[trigger] segments[k].0[i])
            != '{'
}

/// A text without a tag of zero is left as it is.
pub proof fn lemma_without_zero_tags_same(s: Seq<char>)
    requires
        forall|i: int| !zero_tag_at(s, i),
    ensures
        without_zero_tags(s) == s,
    decreases s.len(),
{
    if s.len() > 0 {
        let rest = s.skip(1);
        assert(!zero_tag_at(s, 0));
        assert forall|i: int| !zero_tag_at(rest, i) by {
            if zero_tag_at(rest, i) {
                assert(zero_tag_at(s, i + 1));
            }
        }
        lemma_without_zero_tags_same(rest);
        assert(seq![s[0]] + rest =~= s);
    }
}

/// The karaoke text of segments whose texts hold no `{` holds no tag of
/// zero: cutting the tags of zero out of it leaves it as it is.
pub proof fn lemma_karaoke_text_has_no_zero_tag(segments: Seq<(Seq<char>, usize)>)
    requires
        texts_without_braces(segments),
    ensures
        braces_open_tags(karaoke_text(segments)),
        without_zero_tags(karaoke_text(segments)) == karaoke_text(segments),
    decreases segments.len(),
{
    let whole = karaoke_text(segments);
    if segments.len() > 0 {
        let before = segments.drop_last();
        let text = segments.last().0;
        let k = k_value_of(segments.last().1 as nat);
        let a = karaoke_text(before);
        let b = tagged(k, text);
        assert forall|j: int, i: int| 0 <= j < before.len() && 0 <= i < before[j].0.len() implies (
        #[trigger] before[j].0[i]) != '{' by {
            assert(before[j] == segments[j]);
            assert(segments[j].0[i] != '{');
        }
        lemma_karaoke_text_has_no_zero_tag(before);
        assert forall|i: int| 0 <= i < text.len() implies text[i] != '{' by {
            assert(segments[segments.len() - 1].0[i] != '{');
        }
        assert(braces_open_tags(b)) by {
            if k > 0 {
                let digits = decimal(k);
                lemma_decimal_begins(k);
                crate::number::lemma_decimal_reads_back(k);
                assert forall|i: int| 0 <= i < b.len() && #[trigger] b[i] == '{' implies i + 3
                    < b.len() && b[i + 3] != '0' by {
                    if i >= 3 && i < 3 + digits.len() {
                        assert(b[i] == digits[i - 3]);
                        assert(crate::number::is_digit(digits[i - 3]));
                    } else if i > 3 + digits.len() {
                        assert(b[i] == text[i - 4 - digits.len()]);
                    }
                    assert(b[3] == digits[0]);
                }
            }
        }
        assert forall|i: int| 0 <= i < whole.len() && #[trigger] whole[i] == '{' implies i + 3
            < whole.len() && whole[i + 3] != '0' by {
            if i < a.len() {
                assert(a[i] == '{');
                assert(whole[i + 3] == a[i + 3]);
            } else {
                assert(b[i - a.len()] == '{');
                assert(whole[i + 3] == b[i - a.len() + 3]);
            }
        }
    }
    assert forall|i: int| !zero_tag_at(whole, i) by {
        if zero_tag_at(whole, i) {
            assert(whole[i] == '{');
        }
    }
    lemma_without_zero_tags_same(whole);
}

/// Cuts every tag of zero, `{\k0}`, out of a text.
pub fn remove_zero_tags(text: &str) -> (out: String)
    ensures
        out@ == without_zero_tags(text@),
{
    let cs = chars_of(text);
    let len = cs.len();
    let mut out = String::new();
    let mut i: usize = 0;
    assert(cs@.skip(0) =~= cs@);
    while i < len
        invariant
            i <= len,
            len == cs@.len(),
            without_zero_tags(cs@) == out@ + without_zero_tags(cs@.skip(i as int)),
        decreases len - i,
    {
        let ghost rest = cs@.skip(i as int);
        let ghost written = out@;
        if len - i >= 5 && cs[i] == '{' && cs[i + 1] == '\\' && cs[i + 2] == 'k' && cs[i + 3] == '0'
            && cs[i + 4] == '}' {
            assert(zero_tag_at(rest, 0));
            assert(rest.skip(5) =~= cs@.skip(i + 5));
            i += 5;
        } else {
            assert(!zero_tag_at(rest, 0));
            assert(rest.skip(1) =~= cs@.skip(i + 1));
            out.push(cs[i]);
            i += 1;
            assert(out@ + without_zero_tags(rest.skip(1)) =~= written + (seq![rest[0]]
                + without_zero_tags(rest.skip(1))));
        }
    }
    assert(cs@.skip(len as int) =~= Seq::<char>::empty());
    assert(out@ + Seq::<char>::empty() =~= out@);
    out
}

} // verus!
