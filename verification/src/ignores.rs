//! Spans of a document that `extend-ignore-re` patterns cover, and whether a typo
//! falls inside one of them.

use std::ops::Range;
use vstd::prelude::*;
use vstd::string::StringSliceAdditionalSpecFns;

verus! {

/// The byte spans `(start, end)` of the successive non-overlapping matches of the
/// regular expression `pattern` in `haystack`, as `regex::Regex::find_iter` reports
/// them, or `None` when `regex::Regex::new` refuses the pattern.
pub uninterp spec fn regex_find_spans(pattern: Seq<char>, haystack: Seq<char>) -> Option<
    Seq<(int, int)>,
>;

/// Compiles `pattern` with `regex::Regex::new` and collects the byte ranges of the
/// matches of `regex::Regex::find_iter` on `haystack`. The result is named by
/// `regex_find_spans`; regex documents each match as a byte range of the haystack.
#[verifier::external_body]
fn find_spans(pattern: &str, haystack: &str) -> (r: Option<Vec<(usize, usize)>>)
    ensures
        match r {
            Some(v) => regex_find_spans(pattern@, haystack@) == Some(spans_view(v@)) && forall|
                k: int,
            |
                0 <= k < v@.len() ==> (#[trigger] v@[k]).0 <= v@[k].1 <= haystack.spec_bytes().len(),
            None => regex_find_spans(pattern@, haystack@) is None,
        },
{
    match regex::Regex::new(pattern) {
        Ok(re) => Some(re.find_iter(haystack).map(|m| (m.start(), m.end())).collect()),
        Err(_) => None,
    }
}

/// Calls `std::str::from_utf8`, which succeeds exactly on valid UTF-8 and then
/// yields the decoded text.
#[verifier::external_body]
fn utf8_text(bytes: &[u8]) -> (r: Option<&str>)
    ensures
        r is Some <==> vstd::utf8::valid_utf8(bytes@),
        r matches Some(t) ==> t.spec_bytes() == bytes@,
{
    std::str::from_utf8(bytes).ok()
}

/// The text of each string.
pub open spec fn texts_of(v: Seq<String>) -> Seq<Seq<char>> {
    v.map_values(|p: String| p@)
}

pub open spec fn ranges_view(v: Seq<Range<usize>>) -> Seq<(int, int)> {
    v.map_values(|r: Range<usize>| (r.start as int, r.end as int))
}

pub open spec fn spans_view(v: Seq<(usize, usize)>) -> Seq<(int, int)> {
    v.map_values(|p: (usize, usize)| (p.0 as int, p.1 as int))
}

/// The spans that all `patterns` match in `text`, pattern by pattern; a pattern that
/// does not compile matches nothing.
pub open spec fn pattern_blocks(patterns: Seq<Seq<char>>, text: Seq<char>) -> Seq<(int, int)>
    decreases patterns.len(),
{
    if patterns.len() == 0 {
        Seq::empty()
    } else {
        pattern_blocks(patterns.drop_last(), text) + match regex_find_spans(
            patterns.last(),
            text,
        ) {
            Some(s) => s,
            None => Seq::empty(),
        }
    }
}

/// The spans that the patterns `ignore` cover in `content` (none when `content` is
/// not valid UTF-8).
pub open spec fn ignore_blocks(content: Seq<u8>, ignore: Seq<Seq<char>>) -> Seq<(int, int)> {
    if vstd::utf8::valid_utf8(content) {
        pattern_blocks(ignore, vstd::utf8::decode_utf8(content))
    } else {
        Seq::empty()
    }
}

/// Whether position `x` lies in the half-open span `b`.
pub open spec fn in_span(b: (int, int), x: int) -> bool {
    b.0 <= x < b.1
}

/// Whether the span `[start, end)` of a typo is ignored: its first byte or the byte
/// before `end` (`end - 1`, saturating at 0) lies in one of the `blocks`.
pub open spec fn span_ignored(blocks: Seq<(int, int)>, start: int, end: int) -> bool {
    let last = if end >= 1 { end - 1 } else { 0 };
    exists|k: int|
        #![trigger blocks[k]]
        0 <= k < blocks.len() && (in_span(blocks[k], start) || in_span(blocks[k], last))
}

/// The spans of a document that ignore patterns cover.
#[derive(Debug)]
pub struct Ignores {
    blocks: Vec<Range<usize>>,
}

impl Ignores {
    /// The covered spans, in the order they were found.
    pub closed spec fn blocks(self) -> Seq<(int, int)> {
        ranges_view(self.blocks@)
    }

    /// The spans that the regular expressions `ignores` match in `content`, pattern by
    /// pattern; none when `content` is not valid UTF-8.
    pub fn new(content: &[u8], ignores: &[String]) -> (r: Self)
        ensures
            r.blocks() == ignore_blocks(content@, texts_of(ignores@)),
    {
        let mut blocks: Vec<Range<usize>> = Vec::new();
        let ghost pats = texts_of(ignores@);
        match utf8_text(content) {
            Some(text) => {
                proof {
                    vstd::utf8::encode_utf8_decode_utf8(text@);
                    assert(text@ == vstd::utf8::decode_utf8(content@));
                }
                let mut i: usize = 0;
                while i < ignores.len()
                    invariant
                        i <= ignores@.len(),
                        pats == texts_of(ignores@),
                        ranges_view(blocks@) == pattern_blocks(pats.take(i as int), text@),
                    decreases ignores@.len() - i,
                {
                    let ghost before = blocks@;
                    let spans = find_spans(ignores[i].as_str(), text);
                    proof {
                        assert(pats.take(i + 1).drop_last() =~= pats.take(i as int));
                        assert(pats.take(i + 1).last() == ignores@[i as int]@);
                    }
                    match spans {
                        Some(v) => {
                            let mut j: usize = 0;
                            while j < v.len()
                                invariant
                                    j <= v@.len(),
                                    ranges_view(blocks@) == ranges_view(before) + spans_view(
                                        v@,
                                    ).take(j as int),
                                decreases v@.len() - j,
                            {
                                let (s, e) = v[j];
                                let ghost prev = blocks@;
                                blocks.push(Range { start: s, end: e });
                                proof {
                                    assert(ranges_view(blocks@) =~= ranges_view(prev).push(
                                        (s as int, e as int),
                                    ));
                                    assert(spans_view(v@).take(j + 1) =~= spans_view(v@).take(
                                        j as int,
                                    ).push(spans_view(v@)[j as int]));
                                }
                                j = j + 1;
                            }
                            proof {
                                assert(spans_view(v@).take(v@.len() as int) =~= spans_view(v@));
                            }
                        },
                        None => {
                            proof {
                                assert(pattern_blocks(pats.take(i + 1), text@) =~= pattern_blocks(
                                    pats.take(i as int),
                                    text@,
                                ) + Seq::empty());
                            }
                        },
                    }
                    i = i + 1;
                }
                proof {
                    assert(pats.take(ignores@.len() as int) =~= pats);
                }
            },
            None => {
                assert(ranges_view(blocks@) =~= Seq::empty());
            },
        }
        Ignores { blocks }
    }

    /// Whether the typo spanning `span` is ignored: its first byte or its last byte
    /// (`span.end - 1`, saturating at 0) lies in a covered span.
    pub fn is_ignored(&self, span: Range<usize>) -> (r: bool)
        ensures
            r == span_ignored(self.blocks(), span.start as int, span.end as int),
    {
        let start = span.start;
        let end = span.end.saturating_sub(1);
        let mut k: usize = 0;
        while k < self.blocks.len()
            invariant
                k <= self.blocks@.len(),
                start == span.start,
                end == (if span.end >= 1 { span.end - 1 } else { 0 }),
                forall|m: int|
                    0 <= m < k ==> !(in_span(self.blocks()[m], start as int) || in_span(
                        self.blocks()[m],
                        end as int,
                    )),
            decreases self.blocks@.len() - k,
        {
            let b = &self.blocks[k];
            assert(self.blocks()[k as int] == (b.start as int, b.end as int));
            if (b.start <= start && start < b.end) || (b.start <= end && end < b.end) {
                assert(in_span(self.blocks()[k as int], start as int) || in_span(
                    self.blocks()[k as int],
                    end as int,
                ));
                assert(self.blocks().len() == self.blocks@.len());
                return true;
            }
            k = k + 1;
        }
        false
    }
}

proof fn lemma_match_in_blocks(patterns: Seq<Seq<char>>, text: Seq<char>, k: int, spans: Seq<(int, int)>, j: int)
    requires
        0 <= k < patterns.len(),
        regex_find_spans(patterns[k], text) == Some(spans),
        0 <= j < spans.len(),
    ensures
        pattern_blocks(patterns, text).contains(spans[j]),
    decreases patterns.len(),
{
    let init = patterns.drop_last();
    let head = pattern_blocks(init, text);
    if k == patterns.len() - 1 {
        assert(pattern_blocks(patterns, text) == head + spans);
        assert(pattern_blocks(patterns, text)[head.len() + j] == spans[j]);
    } else {
        assert(init[k] == patterns[k]);
        lemma_match_in_blocks(init, text, k, spans, j);
        let m = choose|m: int| 0 <= m < head.len() && head[m] == spans[j];
        assert(pattern_blocks(patterns, text)[m] == spans[j]);
    }
}

/// Whether `b` is among the spans `found`, when there are any.
pub open spec fn among(found: Option<Seq<(int, int)>>, b: (int, int)) -> bool {
    match found {
        Some(s) => s.contains(b),
        None => false,
    }
}

/// Whether `b` is a span that one of `patterns` matches in `text`.
pub open spec fn matched_by_some(patterns: Seq<Seq<char>>, text: Seq<char>, b: (int, int)) -> bool {
    exists|k: int| 0 <= k < patterns.len() && among(#[trigger] regex_find_spans(patterns[k], text), b)
}

proof fn lemma_blocks_from_matches(patterns: Seq<Seq<char>>, text: Seq<char>, m: int)
    requires
        0 <= m < pattern_blocks(patterns, text).len(),
    ensures
        matched_by_some(patterns, text, pattern_blocks(patterns, text)[m]),
    decreases patterns.len(),
{
    let init = patterns.drop_last();
    let head = pattern_blocks(init, text);
    let b = pattern_blocks(patterns, text)[m];
    if m < head.len() {
        assert(b == head[m]);
        lemma_blocks_from_matches(init, text, m);
        let k = choose|k: int|
            0 <= k < init.len() && among(#[trigger] regex_find_spans(init[k], text), head[m]);
        assert(patterns[k] == init[k]);
        assert(regex_find_spans(patterns[k], text) == regex_find_spans(init[k], text));
    } else {
        let k = patterns.len() - 1;
        match regex_find_spans(patterns.last(), text) {
            Some(spans) => {
                assert(b == spans[m - head.len()]);
                assert(spans.contains(b));
                assert(regex_find_spans(patterns[k], text) == Some(spans));
            },
            None => {
                assert(pattern_blocks(patterns, text) =~= head);
            },
        }
    }
}

/// Every pattern counts: each span that any one of the patterns matches in a valid
/// UTF-8 document is an ignored span, and every ignored span is a match of one of the
/// patterns. So a typo whose first byte lies in such a match is ignored.
pub proof fn law_every_match_ignored(
    content: Seq<u8>,
    patterns: Seq<Seq<char>>,
    k: int,
    spans: Seq<(int, int)>,
    j: int,
    end: int,
)
    requires
        vstd::utf8::valid_utf8(content),
        0 <= k < patterns.len(),
        regex_find_spans(patterns[k], vstd::utf8::decode_utf8(content)) == Some(spans),
        0 <= j < spans.len(),
    ensures
        ignore_blocks(content, patterns).contains(spans[j]),
        in_span(spans[j], spans[j].0) ==> span_ignored(ignore_blocks(content, patterns), spans[j].0, end),
        forall|m: int|
            0 <= m < ignore_blocks(content, patterns).len() ==> matched_by_some(
                patterns,
                vstd::utf8::decode_utf8(content),
                #[trigger] ignore_blocks(content, patterns)[m],
            ),
{
    let text = vstd::utf8::decode_utf8(content);
    lemma_match_in_blocks(patterns, text, k, spans, j);
    let blocks = ignore_blocks(content, patterns);
    let m = choose|m: int| 0 <= m < blocks.len() && blocks[m] == spans[j];
    assert(blocks[m] == spans[j]);
    assert forall|m: int| 0 <= m < blocks.len() implies matched_by_some(patterns, text, #[trigger] blocks[m]) by {
        lemma_blocks_from_matches(patterns, text, m);
    }
}

/// A typo inside a covered span is ignored, and one that shares no byte with any
/// covered span is not.
pub proof fn law_span_inside_or_apart(blocks: Seq<(int, int)>, start: int, end: int)
    requires
        0 <= start < end,
    ensures
        (exists|k: int| 0 <= k < blocks.len() && blocks[k].0 <= start && end <= #[trigger] blocks[k].1)
            ==> span_ignored(blocks, start, end),
        (forall|k: int| 0 <= k < blocks.len() ==> (#[trigger] blocks[k]).1 <= start || end <= blocks[k].0)
            ==> !span_ignored(blocks, start, end),
{
    if exists|k: int| 0 <= k < blocks.len() && blocks[k].0 <= start && end <= #[trigger] blocks[k].1 {
        let k = choose|k: int| 0 <= k < blocks.len() && blocks[k].0 <= start && end <= #[trigger] blocks[k].1;
        assert(in_span(blocks[k], start));
    }
    if span_ignored(blocks, start, end) {
        let last = if end >= 1 { end - 1 } else { 0 };
        let k = choose|k: int|
            #![trigger blocks[k]]
            0 <= k < blocks.len() && (in_span(blocks[k], start) || in_span(blocks[k], last));
        assert(0 <= k < blocks.len());
    }
}

} // verus!
