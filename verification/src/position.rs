//! Turning byte offsets into LSP positions: a 0-based line number and a column counted
//! in UTF-16 code units of the text between the start of the line and the offset, where
//! the bytes of that text are decoded lossily (each invalid sequence becomes one U+FFFD).

use bstr::ByteSlice;
use vstd::prelude::*;

verus! {

/// The byte `\n`.
pub const NEWLINE: u8 = 10;

/// Number of bytes in `s` equal to `b`.
pub open spec fn count_byte(s: Seq<u8>, b: u8) -> nat
    decreases s.len(),
{
    if s.len() == 0 {
        0
    } else {
        count_byte(s.drop_last(), b) + if s.last() == b { 1nat } else { 0nat }
    }
}

/// Number of line breaks in `s`.
pub open spec fn newline_count(s: Seq<u8>) -> nat {
    count_byte(s, NEWLINE)
}

/// Index in `s` at which its last line starts: one past the last `\n`, or 0 when `s`
/// holds no `\n`.
pub open spec fn line_start(s: Seq<u8>) -> nat
    decreases s.len(),
{
    if s.len() == 0 {
        0
    } else if s.last() == NEWLINE {
        s.len()
    } else {
        line_start(s.drop_last())
    }
}

/// A continuation byte of UTF-8: `10xxxxxx`.
pub open spec fn is_continuation(b: u8) -> bool {
    0x80 <= b <= 0xBF
}

/// Whether `b` may follow the leading byte `lead` as the second byte of a well-formed
/// UTF-8 sequence (this excludes overlong forms, surrogates and code points past U+10FFFF).
pub open spec fn second_byte_fits(lead: u8, b: u8) -> bool {
    if lead == 0xE0 {
        0xA0 <= b <= 0xBF
    } else if lead == 0xED {
        0x80 <= b <= 0x9F
    } else if lead == 0xF0 {
        0x90 <= b <= 0xBF
    } else if lead == 0xF4 {
        0x80 <= b <= 0x8F
    } else {
        is_continuation(b)
    }
}

/// Number of bytes at the front of the non-empty `s` that lossy UTF-8 decoding turns
/// into one character: the whole sequence when it is well formed, else the maximal
/// prefix of a well-formed sequence (at least one byte), which becomes one U+FFFD.
pub open spec fn lossy_width(s: Seq<u8>) -> nat {
    let b = s[0];
    if b < 0x80 {
        1
    } else if 0xC2 <= b <= 0xDF {
        if s.len() > 1 && is_continuation(s[1]) { 2 } else { 1 }
    } else if 0xE0 <= b <= 0xEF {
        if s.len() > 1 && second_byte_fits(b, s[1]) {
            if s.len() > 2 && is_continuation(s[2]) { 3 } else { 2 }
        } else {
            1
        }
    } else if 0xF0 <= b <= 0xF4 {
        if s.len() > 1 && second_byte_fits(b, s[1]) {
            if s.len() > 2 && is_continuation(s[2]) {
                if s.len() > 3 && is_continuation(s[3]) { 4 } else { 3 }
            } else {
                2
            }
        } else {
            1
        }
    } else {
        1
    }
}

/// UTF-16 code units of the character that the front of the non-empty `s` decodes to:
/// two for a four-byte sequence (a code point past U+FFFF), one otherwise.
pub open spec fn lossy_units(s: Seq<u8>) -> nat {
    if lossy_width(s) == 4 { 2 } else { 1 }
}

/// Length in UTF-16 code units of the lossy UTF-8 decoding of `s`.
pub open spec fn lossy_utf16_len(s: Seq<u8>) -> nat
    decreases s.len(),
{
    if s.len() == 0 {
        0
    } else {
        lossy_units(s) + lossy_utf16_len(s.skip(lossy_width(s) as int))
    }
}

/// The LSP position of byte `offset` in `buffer`: its line and its UTF-16 column.
pub open spec fn lsp_position(buffer: Seq<u8>, offset: int) -> (nat, nat) {
    let prefix = buffer.take(offset);
    (newline_count(prefix), lossy_utf16_len(prefix.skip(line_start(prefix) as int)))
}

pub proof fn lemma_lossy_width_bounds(s: Seq<u8>)
    requires
        s.len() > 0,
    ensures
        1 <= lossy_width(s) <= 4,
        lossy_width(s) <= s.len(),
        lossy_units(s) <= lossy_width(s),
{
}

pub proof fn lemma_lossy_len_bound(s: Seq<u8>)
    ensures
        lossy_utf16_len(s) <= s.len(),
    decreases s.len(),
{
    if s.len() > 0 {
        lemma_lossy_width_bounds(s);
        lemma_lossy_len_bound(s.skip(lossy_width(s) as int));
    }
}

pub proof fn lemma_count_byte_bound(s: Seq<u8>, b: u8)
    ensures
        count_byte(s, b) <= s.len(),
    decreases s.len(),
{
    if s.len() > 0 {
        lemma_count_byte_bound(s.drop_last(), b);
    }
}

/// Counting splits over concatenation.
pub proof fn lemma_count_byte_concat(x: Seq<u8>, y: Seq<u8>, b: u8)
    ensures
        count_byte(x + y, b) == count_byte(x, b) + count_byte(y, b),
    decreases y.len(),
{
    if y.len() == 0 {
        assert(x + y =~= x);
    } else {
        assert((x + y).drop_last() =~= x + y.drop_last());
        lemma_count_byte_concat(x, y.drop_last(), b);
    }
}

proof fn lemma_line_start_at_last(s: Seq<u8>, i: int)
    requires
        0 <= i < s.len(),
        s[i] == NEWLINE,
        forall|j: int| i < j < s.len() ==> s[j] != NEWLINE,
    ensures
        line_start(s) == i + 1,
    decreases s.len(),
{
    if i < s.len() - 1 {
        lemma_line_start_at_last(s.drop_last(), i);
    }
}

proof fn lemma_line_start_none(s: Seq<u8>)
    requires
        forall|j: int| 0 <= j < s.len() ==> s[j] != NEWLINE,
    ensures
        line_start(s) == 0,
    decreases s.len(),
{
    if s.len() > 0 {
        lemma_line_start_none(s.drop_last());
    }
}

pub proof fn lemma_line_start_bound(s: Seq<u8>)
    ensures
        line_start(s) <= s.len(),
    decreases s.len(),
{
    if s.len() > 0 {
        lemma_line_start_bound(s.drop_last());
    }
}

/// Number of UTF-16 code units of `cs`: two for a character past U+FFFF, one for any
/// other (`char::len_utf16` summed).
pub open spec fn utf16_len(cs: Seq<char>) -> nat
    decreases cs.len(),
{
    if cs.len() == 0 {
        0
    } else {
        (if cs[0] as u32 >= 0x10000 { 2nat } else { 1nat }) + utf16_len(cs.drop_first())
    }
}

proof fn lemma_encoded_scalar_bytes(v: u32)
    by (bit_vector)
    requires
        vstd::utf8::is_scalar(v),
    ensures
        vstd::utf8::has_width_1_encoding(v) ==> vstd::utf8::leading_byte_width_1(v) < 0x80,
        vstd::utf8::has_width_2_encoding(v) ==> 0xC2 <= vstd::utf8::leading_byte_width_2(v) <= 0xDF,
        vstd::utf8::has_width_3_encoding(v) ==> 0xE0 <= vstd::utf8::leading_byte_width_3(v) <= 0xEF,
        vstd::utf8::has_width_4_encoding(v) ==> 0xF0 <= vstd::utf8::leading_byte_width_4(v) <= 0xF4,
        0x80 <= vstd::utf8::last_continuation_byte(v) <= 0xBF,
        0x80 <= vstd::utf8::second_last_continuation_byte(v) <= 0xBF,
        0x80 <= vstd::utf8::third_last_continuation_byte(v) <= 0xBF,
        vstd::utf8::has_width_3_encoding(v) && vstd::utf8::leading_byte_width_3(v) == 0xE0
            ==> vstd::utf8::second_last_continuation_byte(v) >= 0xA0,
        vstd::utf8::has_width_3_encoding(v) && vstd::utf8::leading_byte_width_3(v) == 0xED
            ==> vstd::utf8::second_last_continuation_byte(v) <= 0x9F,
        vstd::utf8::has_width_4_encoding(v) && vstd::utf8::leading_byte_width_4(v) == 0xF0
            ==> vstd::utf8::third_last_continuation_byte(v) >= 0x90,
        vstd::utf8::has_width_4_encoding(v) && vstd::utf8::leading_byte_width_4(v) == 0xF4
            ==> vstd::utf8::third_last_continuation_byte(v) <= 0x8F,
{
}

/// Lossy decoding takes the encoding of a scalar at the front of a byte sequence as one
/// character, of two UTF-16 code units exactly when the scalar is past U+FFFF.
proof fn lemma_lossy_front_scalar(v: u32, tail: Seq<u8>)
    requires
        vstd::utf8::is_scalar(v),
    ensures
        lossy_width(vstd::utf8::encode_scalar(v) + tail) == vstd::utf8::encode_scalar(v).len(),
        lossy_units(vstd::utf8::encode_scalar(v) + tail) == if v >= 0x10000 { 2nat } else { 1nat },
{
    lemma_encoded_scalar_bytes(v);
    let e = vstd::utf8::encode_scalar(v);
    let s = e + tail;
    assert(s[0] == e[0]);
    if e.len() > 1 {
        assert(s[1] == e[1]);
    }
    if e.len() > 2 {
        assert(s[2] == e[2]);
    }
    if e.len() > 3 {
        assert(s[3] == e[3]);
    }
}

/// On valid UTF-8 the column is the number of UTF-16 code units of the characters
/// before the offset: lossy decoding of the encoding of `cs` counts exactly the UTF-16
/// length of `cs`.
pub proof fn law_column_of_valid_text(cs: Seq<char>)
    ensures
        lossy_utf16_len(vstd::utf8::encode_utf8(cs)) == utf16_len(cs),
    decreases cs.len(),
{
    if cs.len() > 0 {
        let v = cs[0] as u32;
        vstd::utf8::char_is_scalar(cs[0]);
        let rest = vstd::utf8::encode_utf8(cs.drop_first());
        let e = vstd::utf8::encode_scalar(v);
        lemma_lossy_front_scalar(v, rest);
        assert(vstd::utf8::encode_utf8(cs) == e + rest);
        assert((e + rest).skip(e.len() as int) =~= rest);
        law_column_of_valid_text(cs.drop_first());
    } else {
        assert(vstd::utf8::encode_utf8(cs) =~= Seq::<u8>::empty());
    }
}

/// Calls `bstr::ByteSlice::find_iter` with a one-byte needle on `haystack[start..end]`
/// and counts the matches. bstr documents the iterator as yielding every
/// non-overlapping occurrence of the needle; for a single byte these are all the
/// positions that hold that byte.
#[verifier::external_body]
fn count_byte_matches(haystack: &[u8], start: usize, end: usize, byte: u8) -> (n: usize)
    requires
        start <= end <= haystack@.len(),
    ensures
        n == count_byte(haystack@.subrange(start as int, end as int), byte),
{
    haystack[start..end].find_iter(&[byte]).count()
}

/// Calls `bstr::ByteSlice::rfind_byte` on `haystack[..end]`: the index of the last
/// occurrence of `byte` there, or `None` when it does not occur.
#[verifier::external_body]
fn last_index_of_byte(haystack: &[u8], end: usize, byte: u8) -> (r: Option<usize>)
    requires
        end <= haystack@.len(),
    ensures
        match r {
            Some(i) => i < end && haystack@[i as int] == byte && forall|j: int|
                i < j < end ==> haystack@[j] != byte,
            None => forall|j: int| 0 <= j < end ==> haystack@[j] != byte,
        },
{
    haystack[..end].rfind_byte(byte)
}

/// Number of bytes at `bytes[i..end]` that lossy decoding takes as one character.
fn lossy_width_at(bytes: &[u8], i: usize, end: usize) -> (w: usize)
    requires
        i < end <= bytes@.len(),
    ensures
        w == lossy_width(bytes@.subrange(i as int, end as int)),
{
    let ghost s = bytes@.subrange(i as int, end as int);
    let b = bytes[i];
    let has2 = end - i > 1;
    let has3 = end - i > 2;
    let has4 = end - i > 3;
    if b < 0x80 {
        1
    } else if 0xC2 <= b && b <= 0xDF {
        if has2 && 0x80 <= bytes[i + 1] && bytes[i + 1] <= 0xBF {
            2
        } else {
            1
        }
    } else if 0xE0 <= b && b <= 0xF4 {
        if !has2 {
            return 1;
        }
        let b2 = bytes[i + 1];
        let fits = if b == 0xE0 {
            0xA0 <= b2 && b2 <= 0xBF
        } else if b == 0xED {
            0x80 <= b2 && b2 <= 0x9F
        } else if b == 0xF0 {
            0x90 <= b2 && b2 <= 0xBF
        } else if b == 0xF4 {
            0x80 <= b2 && b2 <= 0x8F
        } else {
            0x80 <= b2 && b2 <= 0xBF
        };
        assert(fits == second_byte_fits(s[0], s[1]));
        if !fits {
            return 1;
        }
        if !(has3 && 0x80 <= bytes[i + 2] && bytes[i + 2] <= 0xBF) {
            return 2;
        }
        if b <= 0xEF {
            return 3;
        }
        if has4 && 0x80 <= bytes[i + 3] && bytes[i + 3] <= 0xBF {
            4
        } else {
            3
        }
    } else {
        1
    }
}

/// Length in UTF-16 code units of the lossy UTF-8 decoding of `bytes[start..end]`.
pub(crate) fn lossy_utf16_len_of(bytes: &[u8], start: usize, end: usize) -> (n: usize)
    requires
        start <= end <= bytes@.len(),
    ensures
        n == lossy_utf16_len(bytes@.subrange(start as int, end as int)),
{
    let mut i = start;
    let mut n: usize = 0;
    while i < end
        invariant
            start <= i <= end <= bytes@.len(),
            n <= i - start,
            n + lossy_utf16_len(bytes@.subrange(i as int, end as int)) == lossy_utf16_len(
                bytes@.subrange(start as int, end as int),
            ),
        decreases end - i,
    {
        let w = lossy_width_at(bytes, i, end);
        proof {
            let s = bytes@.subrange(i as int, end as int);
            lemma_lossy_width_bounds(s);
            assert(s.skip(w as int) =~= bytes@.subrange(i + w, end as int));
        }
        if w == 4 {
            n = n + 2;
        } else {
            n = n + 1;
        }
        i = i + w;
    }
    n
}

/// Computes positions of increasing byte offsets in one buffer, counting the line
/// breaks only between the previous offset and the next one.
pub struct AccumulatePosition {
    line_num: usize,
    line_pos: usize,
    last_offset: usize,
}

impl AccumulatePosition {
    #[verifier::type_invariant]
    spec fn bounded(self) -> bool {
        &&& self.line_num <= self.last_offset
        &&& self.line_pos <= self.last_offset
    }

    /// The line of the last position computed.
    pub closed spec fn line_num(self) -> nat {
        self.line_num as nat
    }

    /// The UTF-16 column of the last position computed.
    pub closed spec fn line_pos(self) -> nat {
        self.line_pos as nat
    }

    /// The byte offset of the last position computed.
    pub closed spec fn last_offset(self) -> nat {
        self.last_offset as nat
    }

    /// Whether the line kept is the true line of the last offset in `buffer`.
    pub open spec fn tracks(self, buffer: Seq<u8>) -> bool {
        &&& self.last_offset() <= buffer.len()
        &&& self.line_num() == newline_count(buffer.take(self.last_offset() as int))
    }

    /// The byte offset of the last position computed.
    pub(crate) fn offset(&self) -> (r: usize)
        ensures
            r == self.last_offset(),
    {
        self.last_offset
    }

    /// An accumulator at offset 0 of line 0, column 0.
    pub fn new() -> (r: Self)
        ensures
            r.line_num() == 0,
            r.line_pos() == 0,
            r.last_offset() == 0,
            forall|buffer: Seq<u8>| #[trigger] r.tracks(buffer),
    {
        let r = AccumulatePosition { line_num: 0, line_pos: 0, last_offset: 0 };
        assert forall|buffer: Seq<u8>| #[trigger] r.tracks(buffer) by {
            assert(buffer.take(0).len() == 0);
        }
        r
    }

    /// The line and UTF-16 column of `byte_offset` in `buffer`, which must not precede
    /// the offset of the previous call. The line adds the line breaks between the two
    /// offsets to the previous line; the column counts the UTF-16 code units of the
    /// lossily decoded bytes from the start of the line up to `byte_offset`.
    pub fn pos(&mut self, buffer: &[u8], byte_offset: usize) -> (r: (usize, usize))
        requires
            old(self).last_offset() <= byte_offset <= buffer@.len(),
        ensures
            r.0 == old(self).line_num() + newline_count(
                buffer@.subrange(old(self).last_offset() as int, byte_offset as int),
            ),
            r.1 == lsp_position(buffer@, byte_offset as int).1,
            final(self).line_num() == r.0,
            final(self).line_pos() == r.1,
            final(self).last_offset() == byte_offset,
            old(self).tracks(buffer@) ==> final(self).tracks(buffer@) && r.0 == lsp_position(
                buffer@,
                byte_offset as int,
            ).0,
            pos_step(*old(self), buffer@, byte_offset as int, *final(self), r),
    {
        proof {
            use_type_invariant(&*self);
        }
        let last = self.last_offset;
        let newlines = count_byte_matches(buffer, last, byte_offset, NEWLINE);
        proof {
            lemma_count_byte_bound(buffer@.subrange(last as int, byte_offset as int), NEWLINE);
        }
        let line_num = self.line_num + newlines;
        let ghost prefix = buffer@.take(byte_offset as int);
        let line_begin = match last_index_of_byte(buffer, byte_offset, NEWLINE) {
            Some(i) => {
                proof {
                    lemma_line_start_at_last(prefix, i as int);
                }
                i + 1
            },
            None => {
                proof {
                    lemma_line_start_none(prefix);
                }
                0
            },
        };
        let line_pos = lossy_utf16_len_of(buffer, line_begin, byte_offset);
        proof {
            assert(prefix.skip(line_begin as int) =~= buffer@.subrange(
                line_begin as int,
                byte_offset as int,
            ));
            lemma_lossy_len_bound(buffer@.subrange(line_begin as int, byte_offset as int));
            let old_prefix = buffer@.take(last as int);
            let between = buffer@.subrange(last as int, byte_offset as int);
            assert(prefix =~= old_prefix + between);
            lemma_count_byte_concat(old_prefix, between, NEWLINE);
        }
        *self = AccumulatePosition { line_num, line_pos, last_offset: byte_offset };
        (line_num, line_pos)
    }
}

/// Whether `after` and `r` are what `pos` gives from `before` for `offset` in
/// `buffer` (see `AccumulatePosition::pos`).
pub open spec fn pos_step(
    before: AccumulatePosition,
    buffer: Seq<u8>,
    offset: int,
    after: AccumulatePosition,
    r: (usize, usize),
) -> bool {
    &&& before.last_offset() <= offset <= buffer.len()
    &&& r.0 == before.line_num() + newline_count(
        buffer.subrange(before.last_offset() as int, offset),
    )
    &&& r.1 == lsp_position(buffer, offset).1
    &&& after.line_num() == r.0
    &&& after.line_pos() == r.1
    &&& after.last_offset() == offset
}

proof fn lemma_steps_track(
    buffer: Seq<u8>,
    offsets: Seq<int>,
    states: Seq<AccumulatePosition>,
    results: Seq<(usize, usize)>,
    j: int,
)
    requires
        states.len() == offsets.len() + 1,
        results.len() == offsets.len(),
        states[0].line_num() == 0,
        states[0].last_offset() == 0,
        forall|i: int|
            0 <= i < offsets.len() ==> pos_step(
                #[trigger] states[i],
                buffer,
                offsets[i],
                states[i + 1],
                results[i],
            ),
        0 <= j <= offsets.len(),
    ensures
        states[j].tracks(buffer),
    decreases j,
{
    if j == 0 {
        assert(buffer.take(0) =~= Seq::<u8>::empty());
    } else {
        lemma_steps_track(buffer, offsets, states, results, j - 1);
        assert(pos_step(states[j - 1], buffer, offsets[j - 1], states[j], results[j - 1]));
        law_lines_accumulate(buffer, states[j - 1].last_offset() as int, offsets[j - 1]);
    }
}

/// Positions accumulate over successive calls: from a new accumulator, calls of `pos`
/// on one buffer with offsets that never go back each give the LSP line and column of
/// their offset.
pub proof fn law_successive_positions(
    buffer: Seq<u8>,
    offsets: Seq<int>,
    states: Seq<AccumulatePosition>,
    results: Seq<(usize, usize)>,
)
    requires
        states.len() == offsets.len() + 1,
        results.len() == offsets.len(),
        states[0].line_num() == 0,
        states[0].last_offset() == 0,
        forall|i: int|
            0 <= i < offsets.len() ==> pos_step(
                #[trigger] states[i],
                buffer,
                offsets[i],
                states[i + 1],
                results[i],
            ),
    ensures
        forall|j: int|
            0 <= j < offsets.len() ==> (#[trigger] results[j]).0 == lsp_position(buffer, offsets[j]).0
                && results[j].1 == lsp_position(buffer, offsets[j]).1,
{
    assert forall|j: int| 0 <= j < offsets.len() implies (#[trigger] results[j]).0 == lsp_position(
        buffer,
        offsets[j],
    ).0 && results[j].1 == lsp_position(buffer, offsets[j]).1 by {
        lemma_steps_track(buffer, offsets, states, results, j);
        assert(pos_step(states[j], buffer, offsets[j], states[j + 1], results[j]));
        law_lines_accumulate(buffer, states[j].last_offset() as int, offsets[j]);
    }
}

/// Lines accumulate: the line breaks before `y` are those before `x` and those between
/// `x` and `y`, which is what lets `pos` count only the bytes since its last offset.
pub proof fn law_lines_accumulate(buffer: Seq<u8>, x: int, y: int)
    requires
        0 <= x <= y <= buffer.len(),
    ensures
        newline_count(buffer.take(y)) == newline_count(buffer.take(x)) + newline_count(
            buffer.subrange(x, y),
        ),
{
    assert(buffer.take(y) =~= buffer.take(x) + buffer.subrange(x, y));
    lemma_count_byte_concat(buffer.take(x), buffer.subrange(x, y), NEWLINE);
}

/// Right after a line break the column is 0, and the line is one more than the line of
/// the break itself.
pub proof fn law_position_after_newline(buffer: Seq<u8>, offset: int)
    requires
        0 < offset <= buffer.len(),
        buffer[offset - 1] == NEWLINE,
    ensures
        lsp_position(buffer, offset).1 == 0,
        lsp_position(buffer, offset).0 == lsp_position(buffer, offset - 1).0 + 1,
{
    let prefix = buffer.take(offset);
    assert(prefix.drop_last() =~= buffer.take(offset - 1));
    assert(prefix.skip(prefix.len() as int) =~= Seq::<u8>::empty());
}

} // verus!
