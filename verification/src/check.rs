//! Finding the typos of a document with `typos`, dropping those that an ignore
//! pattern covers and placing the others at their LSP positions.

use crate::ignores::{ignore_blocks, texts_of, span_ignored, Ignores};
use crate::position::{
    lemma_line_start_bound, lemma_lossy_len_bound, line_start, lsp_position, AccumulatePosition,
};
use typos_cli::policy::Policy;
use vstd::prelude::*;
use vstd::string::StringSliceAdditionalSpecFns;
use vstd::utf8::encode_utf8;

verus! {

#[verifier::external_type_specification]
#[verifier::external_body]
pub struct ExPolicy<'t, 'd, 'i>(Policy<'t, 'd, 'i>);

/// What a dictionary says of a term.
pub enum TypoStatus {
    Valid,
    Invalid,
    Corrections(Vec<String>),
}

/// A term of a document that the dictionary does not accept.
pub struct FoundTypo {
    /// Offset in bytes of the term in the document.
    pub byte_offset: usize,
    /// The term as it stands in the document.
    pub typo: String,
    pub corrections: TypoStatus,
}

/// A typo with the LSP position of its first byte.
pub struct LocatedTypo {
    pub typo: FoundTypo,
    /// 0-based line.
    pub line_num: usize,
    /// Column in UTF-16 code units.
    pub line_pos: usize,
}

/// Length in bytes of the term of `t`.
pub open spec fn typo_byte_len(t: FoundTypo) -> nat {
    encode_utf8(t.typo@).len()
}

/// Whether `t` can be what `typos` reports for `buffer`: a term other than a valid
/// one, made of the bytes of `buffer` at its offset.
pub open spec fn found_in(buffer: Seq<u8>, t: FoundTypo) -> bool {
    &&& !(t.corrections is Valid)
    &&& t.byte_offset + typo_byte_len(t) <= buffer.len()
    &&& buffer.subrange(t.byte_offset as int, t.byte_offset + typo_byte_len(t)) == encode_utf8(
        t.typo@,
    )
}

/// Whether every typo of `found` can be what `typos` reports for `buffer`.
pub open spec fn all_found_in(buffer: Seq<u8>, found: Seq<FoundTypo>) -> bool {
    forall|k: int| 0 <= k < found.len() ==> found_in(buffer, #[trigger] found[k])
}

/// The typos of `found`, in order, that the `blocks` do not cover, each at its LSP
/// position in `buffer`.
pub open spec fn located(buffer: Seq<u8>, found: Seq<FoundTypo>, blocks: Seq<(int, int)>) -> Seq<
    LocatedTypo,
>
    decreases found.len(),
{
    if found.len() == 0 {
        Seq::empty()
    } else {
        let rest = located(buffer, found.drop_last(), blocks);
        let t = found.last();
        let start = t.byte_offset as int;
        if span_ignored(blocks, start, start + typo_byte_len(t)) {
            rest
        } else {
            let p = lsp_position(buffer, start);
            rest.push(LocatedTypo { typo: t, line_num: p.0 as usize, line_pos: p.1 as usize })
        }
    }
}

/// What `typos::check_str` yields for `buffer` with the tokenizer and the dictionary of
/// `policy`, converted field by field: a function of the buffer and the policy alone.
pub uninterp spec fn typos_reported(buffer: Seq<u8>, policy: Policy) -> Seq<FoundTypo>;

/// Calls `typos::check_str` with the tokenizer and the dictionary of `policy`. It
/// tokenizes `buffer` and asks the dictionary about each identifier and, where it has
/// no answer, about each word of the identifier. Its result is named `typos_reported`;
/// the source shows that it yields only terms whose status is not `Valid`, each with
/// the offset of its token, a sub-slice of `buffer`. Each typo is converted field by
/// field to the library's type.
#[verifier::external_body]
fn find_typos(buffer: &str, policy: &Policy) -> (r: Vec<FoundTypo>)
    ensures
        r@ == typos_reported(buffer.spec_bytes(), *policy),
        forall|k: int| 0 <= k < r@.len() ==> found_in(buffer.spec_bytes(), #[trigger] r@[k]),
{
    typos::check_str(buffer, policy.tokenizer, policy.dict).map(|t| FoundTypo {
        byte_offset: t.byte_offset,
        typo: t.typo.into_owned(),
        corrections: match t.corrections {
            typos::Status::Valid => TypoStatus::Valid,
            typos::Status::Invalid => TypoStatus::Invalid,
            typos::Status::Corrections(c) => TypoStatus::Corrections(
                c.into_iter().map(|s| s.into_owned()).collect(),
            ),
        },
    }).collect()
}

proof fn lemma_position_bound(buffer: Seq<u8>, offset: int)
    requires
        0 <= offset <= buffer.len(),
    ensures
        lsp_position(buffer, offset).1 <= offset,
{
    let prefix = buffer.take(offset);
    lemma_line_start_bound(prefix);
    lemma_lossy_len_bound(prefix.skip(line_start(prefix) as int));
}

/// Drops from `found` the typos that `ignores` covers and gives each of the others
/// its LSP position in `buffer`, keeping their order.
pub fn locate_typos(buffer: &[u8], found: Vec<FoundTypo>, ignores: &Ignores) -> (r: Vec<
    LocatedTypo,
>)
    requires
        forall|k: int|
            0 <= k < found@.len() ==> (#[trigger] found@[k]).byte_offset + typo_byte_len(found@[k])
                <= buffer@.len(),
    ensures
        r@ == located(buffer@, found@, ignores.blocks()),
{
    let ghost all = found@;
    let n = found.len();
    let mut found = found;
    let mut rev: Vec<FoundTypo> = Vec::new();
    while found.len() > 0
        invariant
            found@.len() + rev@.len() == n,
            n == all.len(),
            found@ == all.take(found@.len() as int),
            forall|j: int| 0 <= j < rev@.len() ==> #[trigger] rev@[j] == all[n - 1 - j],
        decreases found@.len(),
    {
        let t = found.pop().unwrap();
        rev.push(t);
        assert(found@ =~= all.take(found@.len() as int));
    }
    let blen = buffer.len();
    let mut out: Vec<LocatedTypo> = Vec::new();
    let mut accum = AccumulatePosition::new();
    let mut i: usize = 0;
    while i < n
        invariant
            i <= n,
            n == all.len(),
            rev@.len() == n - i,
            forall|j: int| 0 <= j < rev@.len() ==> #[trigger] rev@[j] == all[n - 1 - j],
            forall|k: int|
                0 <= k < all.len() ==> (#[trigger] all[k]).byte_offset + typo_byte_len(all[k])
                    <= buffer@.len(),
            accum.tracks(buffer@),
            blen == buffer@.len(),
            out@ == located(buffer@, all.take(i as int), ignores.blocks()),
        decreases n - i,
    {
        let t = rev.pop().unwrap();
        assert(t == all[i as int]);
        let start = t.byte_offset;
        let text = t.typo.as_str();
        assert(text.spec_bytes() == encode_utf8(t.typo@));
        let len = text.len();
        assert(all[i as int].byte_offset + typo_byte_len(all[i as int]) <= buffer@.len());
        assert(len == typo_byte_len(t));
        let end = start + len;
        proof {
            assert(all.take(i + 1).drop_last() =~= all.take(i as int));
            assert(all.take(i + 1).last() == t);
        }
        let ignored = ignores.is_ignored(start..end);
        assert(ignored == span_ignored(ignores.blocks(), start as int, start + typo_byte_len(t)));
        if !ignored {
            if start < accum.offset() {
                accum = AccumulatePosition::new();
                assert(accum.tracks(buffer@));
            }
            let (line_num, line_pos) = accum.pos(buffer, start);
            proof {
                lemma_position_bound(buffer@, start as int);
            }
            let ghost p = lsp_position(buffer@, start as int);
            assert(line_num == p.0 as usize && line_pos == p.1 as usize);
            out.push(LocatedTypo { typo: t, line_num, line_pos });
        }
        i = i + 1;
    }
    assert(all.take(n as int) =~= all);
    out
}

/// The typos that the dictionary of `policy` finds in `buffer` with its tokenizer
/// (`typos_reported`), except those that the regular expressions `ignore` cover, each
/// at its LSP position, in the order found.
pub fn check_str(
    buffer: &str,
    policy: &Policy,
    ignore: &[String],
) -> (r: Vec<LocatedTypo>)
    ensures
        all_found_in(buffer.spec_bytes(), typos_reported(buffer.spec_bytes(), *policy)),
        r@ == located(
            buffer.spec_bytes(),
            typos_reported(buffer.spec_bytes(), *policy),
            ignore_blocks(buffer.spec_bytes(), texts_of(ignore@)),
        ),
{
    let bytes = buffer.as_bytes();
    let found = find_typos(buffer, policy);
    let ghost found_view = found@;
    let ignores = Ignores::new(bytes, ignore);
    let r = locate_typos(bytes, found, &ignores);
    assert(all_found_in(buffer.spec_bytes(), found_view));
    assert(r@ == located(
        buffer.spec_bytes(),
        found_view,
        ignore_blocks(buffer.spec_bytes(), texts_of(ignore@)),
    ));
    r
}

/// Every typo that `check_str` reports lies outside the ignored spans and stands at the
/// LSP position of its offset; every typo found that lies outside them is reported.
pub proof fn law_located(buffer: Seq<u8>, found: Seq<FoundTypo>, blocks: Seq<(int, int)>)
    ensures
        forall|k: int|
            0 <= k < located(buffer, found, blocks).len() ==> {
                let l = #[trigger] located(buffer, found, blocks)[k];
                let start = l.typo.byte_offset as int;
                &&& !span_ignored(blocks, start, start + typo_byte_len(l.typo))
                &&& found.contains(l.typo)
                &&& l.line_num as int == lsp_position(buffer, start).0 as usize as int
                &&& l.line_pos as int == lsp_position(buffer, start).1 as usize as int
            },
        forall|j: int|
            0 <= j < found.len() && !span_ignored(
                blocks,
                found[j].byte_offset as int,
                found[j].byte_offset + typo_byte_len(found[j]),
            ) ==> exists|k: int|
                0 <= k < located(buffer, found, blocks).len() && (#[trigger] located(
                    buffer,
                    found,
                    blocks,
                )[k]).typo == found[j],
    decreases found.len(),
{
    if found.len() > 0 {
        let init = found.drop_last();
        law_located(buffer, init, blocks);
        let rest = located(buffer, init, blocks);
        let all = located(buffer, found, blocks);
        assert forall|k: int| 0 <= k < all.len() implies ({
            let l = #[trigger] all[k];
            let start = l.typo.byte_offset as int;
            &&& !span_ignored(blocks, start, start + typo_byte_len(l.typo))
            &&& found.contains(l.typo)
            &&& l.line_num as int == lsp_position(buffer, start).0 as usize as int
            &&& l.line_pos as int == lsp_position(buffer, start).1 as usize as int
        }) by {
            if k < rest.len() {
                assert(all[k] == rest[k]);
                let j = choose|j: int| 0 <= j < init.len() && init[j] == rest[k].typo;
                assert(found[j] == init[j]);
            } else {
                assert(found[found.len() - 1] == found.last());
            }
        }
        assert forall|j: int|
            0 <= j < found.len() && !span_ignored(
                blocks,
                found[j].byte_offset as int,
                found[j].byte_offset + typo_byte_len(found[j]),
            ) implies exists|k: int| 0 <= k < all.len() && (#[trigger] all[k]).typo == found[j] by {
            if j < init.len() {
                assert(init[j] == found[j]);
                let k = choose|k: int| 0 <= k < rest.len() && (#[trigger] rest[k]).typo == init[j];
                assert(all[k] == rest[k]);
            } else {
                assert(all[rest.len() as int].typo == found[j]);
            }
        }
    }
}

} // verus!
