//! The diagnostics published for the typos of a document: where each typo stands,
//! what message it gets and which corrections it carries for the quick fixes.

use crate::check::{
    all_found_in, check_str, found_in, located, typo_byte_len, typos_reported, FoundTypo,
    LocatedTypo, TypoStatus,
};
use crate::ignores::{ignore_blocks, texts_of};
use crate::position::{
    law_column_of_valid_text, lemma_line_start_bound, lemma_lossy_len_bound, line_start,
    lossy_utf16_len_of, lsp_position, utf16_len,
};
use typos_cli::policy::Policy;
use vstd::prelude::*;
use vstd::string::{StringExecFns, StringSliceAdditionalSpecFns};

verus! {

/// How prominently a client shows the diagnostics.
#[derive(PartialEq, Eq, Structural, Clone, Copy, Debug)]
pub enum Severity {
    Error,
    Warning,
    Information,
    Hint,
}

/// What a diagnostic carries for the quick fixes of its typo: the corrections, and the
/// typo itself when the data names it. The diagnostics this server publishes carry the
/// corrections alone.
pub struct DiagnosticData {
    pub corrections: Vec<String>,
    pub typo: Option<String>,
}

/// A diagnostic for one typo, on one line, between two UTF-16 columns.
pub struct TypoDiagnostic {
    pub line: u32,
    pub start_character: u32,
    pub end_character: u32,
    pub severity: Option<Severity>,
    pub message: String,
    pub data: Option<DiagnosticData>,
}

/// `s` between backquotes.
pub open spec fn quoted(s: Seq<char>) -> Seq<char> {
    "`"@ + s + "`"@
}

/// Each of `cs` between backquotes, separated by `, `.
pub open spec fn quoted_list(cs: Seq<Seq<char>>) -> Seq<char>
    decreases cs.len(),
{
    if cs.len() == 0 {
        Seq::empty()
    } else if cs.len() == 1 {
        quoted(cs[0])
    } else {
        quoted_list(cs.drop_last()) + ", "@ + quoted(cs.last())
    }
}

/// The message of a typo: "`typo` should be `a`, `b`" when there are corrections,
/// "`typo` is disallowed" otherwise.
pub open spec fn typo_message(typo: Seq<char>, status: TypoStatus) -> Seq<char> {
    match status {
        TypoStatus::Corrections(cs) => quoted(typo) + " should be "@ + quoted_list(texts_of(cs@)),
        _ => quoted(typo) + " is disallowed"@,
    }
}

/// Whether `d` is the diagnostic of the located typo `l` with `severity`: the range runs
/// from its column to that column plus the typo's length in UTF-16 code units, and the
/// corrections are kept as data when there are corrections.
pub open spec fn is_diagnostic_of(d: TypoDiagnostic, l: LocatedTypo, severity: Option<Severity>) -> bool {
    &&& d.line == l.line_num as u32
    &&& d.start_character == l.line_pos as u32
    &&& d.end_character == (l.line_pos + utf16_len(l.typo.typo@)) as u32
    &&& d.severity == severity
    &&& d.message@ == typo_message(l.typo.typo@, l.typo.corrections)
    &&& d.data == match l.typo.corrections {
        TypoStatus::Corrections(cs) => Some(DiagnosticData { corrections: cs, typo: None }),
        _ => None,
    }
}

fn push_quoted(out: &mut String, s: &str)
    ensures
        final(out)@ == old(out)@ + quoted(s@),
{
    out.append("`");
    out.append(s);
    out.append("`");
}

/// The message of a typo with the given corrections (see `typo_message`).
pub fn message_for(typo: &str, corrections: &TypoStatus) -> (r: String)
    ensures
        r@ == typo_message(typo@, *corrections),
{
    let mut out = String::new();
    push_quoted(&mut out, typo);
    match corrections {
        TypoStatus::Corrections(cs) => {
            out.append(" should be ");
            let ghost head = out@;
            let mut i: usize = 0;
            while i < cs.len()
                invariant
                    i <= cs@.len(),
                    out@ == head + quoted_list(texts_of(cs@).take(i as int)),
                decreases cs@.len() - i,
            {
                proof {
                    assert(texts_of(cs@).take(i + 1).drop_last() =~= texts_of(cs@).take(i as int));
                    assert(texts_of(cs@).take(i + 1).last() == cs@[i as int]@);
                }
                if i > 0 {
                    out.append(", ");
                }
                push_quoted(&mut out, cs[i].as_str());
                proof {
                    if i == 0 {
                        assert(texts_of(cs@).take(1)[0] == cs@[0]@);
                    }
                }
                i = i + 1;
            }
            assert(texts_of(cs@).take(cs@.len() as int) =~= texts_of(cs@));
        },
        _ => {
            out.append(" is disallowed");
        },
    }
    out
}

/// The diagnostic of the located typo `l` (see `is_diagnostic_of`).
pub fn to_diagnostic(l: LocatedTypo, severity: Option<Severity>) -> (d: TypoDiagnostic)
    requires
        !(l.typo.corrections is Valid),
        l.line_pos + utf16_len(l.typo.typo@) <= usize::MAX,
    ensures
        is_diagnostic_of(d, l, severity),
{
    let ghost l0 = l;
    let LocatedTypo { typo, line_num, line_pos } = l;
    let FoundTypo { byte_offset: _, typo: text, corrections } = typo;
    let message = message_for(text.as_str(), &corrections);
    let text_bytes = text.as_str().as_bytes();
    assert(text_bytes@ == vstd::utf8::encode_utf8(text@));
    assert(text_bytes@.subrange(0, text_bytes@.len() as int) =~= text_bytes@);
    let len = lossy_utf16_len_of(text_bytes, 0, text_bytes.len());
    proof {
        law_column_of_valid_text(text@);
    }
    let data = match corrections {
        TypoStatus::Corrections(cs) => Some(DiagnosticData { corrections: cs, typo: None }),
        _ => None,
    };
    TypoDiagnostic {
        line: line_num as u32,
        start_character: line_pos as u32,
        end_character: (line_pos + len) as u32,
        severity,
        message,
        data,
    }
}

/// Every typo located in `buffer` comes from `found`, is not valid, and its column does
/// not pass its offset.
proof fn lemma_located_facts(buffer: Seq<u8>, found: Seq<FoundTypo>, blocks: Seq<(int, int)>)
    requires
        all_found_in(buffer, found),
    ensures
        forall|k: int|
            0 <= k < located(buffer, found, blocks).len() ==> {
                let l = #[trigger] located(buffer, found, blocks)[k];
                &&& found_in(buffer, l.typo)
                &&& l.line_pos <= l.typo.byte_offset
            },
    decreases found.len(),
{
    if found.len() > 0 {
        let rest = found.drop_last();
        assert(all_found_in(buffer, rest)) by {
            assert forall|k: int| 0 <= k < rest.len() implies found_in(buffer, #[trigger] rest[k]) by {
                assert(rest[k] == found[k]);
            }
        }
        lemma_located_facts(buffer, rest, blocks);
        let t = found.last();
        assert(found_in(buffer, found[found.len() - 1]));
        let offset = t.byte_offset as int;
        let prefix = buffer.take(offset);
        lemma_line_start_bound(prefix);
        lemma_lossy_len_bound(prefix.skip(line_start(prefix) as int));
    }
}

/// The diagnostics, with `severity`, of the typos that the dictionary of `policy` finds
/// in `buffer` and that the patterns `ignore` do not cover: one per located typo, in
/// order, as `check_str` locates them.
pub fn typo_diagnostics(
    buffer: &str,
    policy: &Policy,
    ignore: &[String],
    severity: Option<Severity>,
) -> (r: Vec<TypoDiagnostic>)
    ensures
        r@.len() == located(
            buffer.spec_bytes(),
            typos_reported(buffer.spec_bytes(), *policy),
            ignore_blocks(buffer.spec_bytes(), texts_of(ignore@)),
        ).len(),
        forall|k: int|
            0 <= k < r@.len() ==> is_diagnostic_of(
                #[trigger] r@[k],
                located(
                    buffer.spec_bytes(),
                    typos_reported(buffer.spec_bytes(), *policy),
                    ignore_blocks(buffer.spec_bytes(), texts_of(ignore@)),
                )[k],
                severity,
            ),
{
    let located_typos = check_str(buffer, policy, ignore);
    let ghost blocks = ignore_blocks(buffer.spec_bytes(), texts_of(ignore@));
    let ghost found = typos_reported(buffer.spec_bytes(), *policy);
    proof {
        lemma_located_facts(buffer.spec_bytes(), found, blocks);
    }
    let ghost all = located_typos@;
    let blen = buffer.as_bytes().len();
    let n = located_typos.len();
    let mut rest = located_typos;
    let mut rev: Vec<LocatedTypo> = Vec::new();
    while rest.len() > 0
        invariant
            rest@.len() + rev@.len() == n,
            n == all.len(),
            rest@ == all.take(rest@.len() as int),
            forall|j: int| 0 <= j < rev@.len() ==> #[trigger] rev@[j] == all[n - 1 - j],
        decreases rest@.len(),
    {
        let l = rest.pop().unwrap();
        rev.push(l);
        assert(rest@ =~= all.take(rest@.len() as int));
    }
    let mut out: Vec<TypoDiagnostic> = Vec::new();
    let mut i: usize = 0;
    while i < n
        invariant
            i <= n,
            n == all.len(),
            blen == buffer.spec_bytes().len(),
            all == located(buffer.spec_bytes(), found, blocks),
            rev@.len() == n - i,
            forall|j: int| 0 <= j < rev@.len() ==> #[trigger] rev@[j] == all[n - 1 - j],
            forall|k: int|
                0 <= k < all.len() ==> {
                    let l = #[trigger] all[k];
                    &&& found_in(buffer.spec_bytes(), l.typo)
                    &&& l.line_pos <= l.typo.byte_offset
                },
            out@.len() == i,
            forall|k: int| 0 <= k < i ==> is_diagnostic_of(#[trigger] out@[k], all[k], severity),
        decreases n - i,
    {
        let l = rev.pop().unwrap();
        assert(l == all[i as int]);
        proof {
            law_column_of_valid_text(l.typo.typo@);
            lemma_lossy_len_bound(vstd::utf8::encode_utf8(l.typo.typo@));
        }
        let d = to_diagnostic(l, severity);
        out.push(d);
        i = i + 1;
    }
    out
}

/// A diagnostic keeps every correction of its typo for the quick fixes, however many
/// there are, and carries no data when the typo has none.
pub proof fn law_corrections_kept(d: TypoDiagnostic, l: LocatedTypo, severity: Option<Severity>)
    requires
        is_diagnostic_of(d, l, severity),
    ensures
        l.typo.corrections matches TypoStatus::Corrections(cs) ==> (d.data is Some
            && d.data->Some_0.corrections@ == cs@),
        !(l.typo.corrections is Corrections) ==> d.data is None,
        d.line == l.line_num as u32,
        d.start_character == l.line_pos as u32,
        d.severity == severity,
{
}

/// Every diagnostic published for a typo with corrections carries all of them: the
/// `k`-th diagnostic of `typo_diagnostics` keeps the corrections of the `k`-th typo
/// located in the buffer.
pub proof fn law_published_corrections(
    buffer: Seq<u8>,
    policy: Policy,
    ignore: Seq<Seq<char>>,
    severity: Option<Severity>,
    r: Seq<TypoDiagnostic>,
    k: int,
)
    requires
        r.len() == located(buffer, typos_reported(buffer, policy), ignore_blocks(buffer, ignore)).len(),
        forall|j: int|
            0 <= j < r.len() ==> is_diagnostic_of(
                #[trigger] r[j],
                located(buffer, typos_reported(buffer, policy), ignore_blocks(buffer, ignore))[j],
                severity,
            ),
        0 <= k < r.len(),
        located(buffer, typos_reported(buffer, policy), ignore_blocks(buffer, ignore))[k].typo.corrections
            is Corrections,
    ensures
        r[k].data is Some,
        r[k].data->Some_0.corrections@ == located(
            buffer,
            typos_reported(buffer, policy),
            ignore_blocks(buffer, ignore),
        )[k].typo.corrections->Corrections_0@,
{
    law_corrections_kept(
        r[k],
        located(buffer, typos_reported(buffer, policy), ignore_blocks(buffer, ignore))[k],
        severity,
    );
}

} // verus!
