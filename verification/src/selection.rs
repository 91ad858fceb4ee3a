//! Converter selection: narrow the catalog to candidate formats, then walk
//! the user's answers through the three choices — format, converter,
//! version — each offering back and exit.
//!
//! The whole protocol is a pure function of the catalog and the answer
//! list, so two runs over identical catalogs and identical answers cannot
//! differ.  Versions are displayed newest first, the reverse of storage
//! order; the index a selection reports is in storage order.

use vstd::prelude::*;
use crate::catalog::{ConverterId, FormatId, Galaxy};
use crate::container::FileType;
use crate::errors::HostError;

verus! {

/// One user answer to one menu.
#[derive(Clone, Copy, Debug, PartialEq, Eq, Structural)]
pub enum Answer {
    /// The n-th entry of the menu as displayed, counting from zero.
    Pick(usize),
    /// Return to the previous level.
    Back,
    /// Abort the selection.
    Exit,
}

/// The outcome of a completed selection.
#[derive(Clone, Copy, Debug, PartialEq, Eq, Structural)]
pub struct ConverterSelection {
    pub format_id: FormatId,
    pub converter_id: ConverterId,
    /// Index into the converter's stored version sequence.
    pub version_idx: usize,
}

/// Where the dialogue stands: about to choose a format, a converter for the
/// chosen format, or a version of the chosen converter.  Back transitions
/// drop the last component; forward transitions append one.
#[derive(Clone, Copy, Debug, PartialEq, Eq, Structural)]
pub enum Stage {
    Format,
    Converter(usize),
    Version(usize, usize),
}

/// Does a format claim this extension?
pub open spec fn spec_format_matches(g: Galaxy, idx: int, ext: Seq<char>) -> bool {
    exists|j: int|
        0 <= j < g.formats@[idx].1.extensions@.len() && (#[trigger] g.formats@[idx].1.extensions@[j])@
            == ext
}

/// The first `n` format indices whose format claims the extension, in
/// catalog order.
pub open spec fn spec_matching(g: Galaxy, ext: Seq<char>, n: int) -> Seq<usize>
    decreases n,
{
    if n <= 0 {
        Seq::empty()
    } else {
        let p = spec_matching(g, ext, n - 1);
        if spec_format_matches(g, n - 1, ext) {
            p.push((n - 1) as usize)
        } else {
            p
        }
    }
}

/// All format indices, in catalog order.
pub open spec fn spec_all_formats(g: Galaxy, n: int) -> Seq<usize>
    decreases n,
{
    if n <= 0 {
        Seq::empty()
    } else {
        spec_all_formats(g, n - 1).push((n - 1) as usize)
    }
}

/// Candidate positions produced by the extension filter lie in the catalog.
pub proof fn lemma_matching_bounds(g: Galaxy, ext: Seq<char>, n: int)
    ensures
        forall|i: int|
            0 <= i < spec_matching(g, ext, n).len() ==> (#[trigger] spec_matching(g, ext, n)[i])
                < n,
    decreases n,
{
    if n > 0 {
        lemma_matching_bounds(g, ext, n - 1);
        let prev = spec_matching(g, ext, n - 1);
        let cur = spec_matching(g, ext, n);
        assert forall|i: int| 0 <= i < cur.len() implies cur[i] < n by {
            if i < prev.len() {
                assert(cur[i] == prev[i]);
            } else {
                assert(cur[i] == (n - 1) as usize);
            }
        }
    }
}

/// Candidate positions produced by the full listing lie in the catalog.
pub proof fn lemma_all_formats_bounds(g: Galaxy, n: int)
    ensures
        forall|i: int|
            0 <= i < spec_all_formats(g, n).len() ==> (#[trigger] spec_all_formats(g, n)[i]) < n,
    decreases n,
{
    if n > 0 {
        lemma_all_formats_bounds(g, n - 1);
        let prev = spec_all_formats(g, n - 1);
        let cur = spec_all_formats(g, n);
        assert forall|i: int| 0 <= i < cur.len() implies cur[i] < n by {
            if i < prev.len() {
                assert(cur[i] == prev[i]);
            } else {
                assert(cur[i] == (n - 1) as usize);
            }
        }
    }
}

/// The stage a dialogue opens in: a singleton candidate set seats its format
/// at once, otherwise the format is asked first.
pub open spec fn spec_initial_stage(cands: Seq<usize>) -> Stage {
    if cands.len() == 1 {
        Stage::Converter(0)
    } else {
        Stage::Format
    }
}

/// The selection protocol, one answer at a time.  A pick out of range of
/// the menu re-asks the same menu; back from the first open level stays
/// there; running out of answers abandons the dialogue.  The result is
/// `(candidate position, converter position, version storage index)`.
pub open spec fn spec_ask(
    g: Galaxy,
    cands: Seq<usize>,
    allow_format_selection: bool,
    stage: Stage,
    answers: Seq<Answer>,
) -> Option<(usize, usize, usize)>
    decreases answers.len(),
{
    if answers.len() == 0 {
        None
    } else {
        let a = answers[0];
        let rest = answers.drop_first();
        match stage {
            Stage::Format => match a {
                Answer::Pick(i) => if i < cands.len() {
                    spec_ask(g, cands, allow_format_selection, Stage::Converter(i as usize), rest)
                } else {
                    spec_ask(g, cands, allow_format_selection, Stage::Format, rest)
                },
                Answer::Back => spec_ask(g, cands, allow_format_selection, Stage::Format, rest),
                Answer::Exit => None,
            },
            Stage::Converter(fi) => {
                let nconv = g.formats@[cands[fi as int] as int].1.converters@.len();
                match a {
                    Answer::Pick(i) => if i < nconv {
                        spec_ask(
                            g,
                            cands,
                            allow_format_selection,
                            Stage::Version(fi, i as usize),
                            rest,
                        )
                    } else {
                        spec_ask(g, cands, allow_format_selection, Stage::Converter(fi), rest)
                    },
                    Answer::Back => if allow_format_selection && cands.len() > 1 {
                        spec_ask(g, cands, allow_format_selection, Stage::Format, rest)
                    } else {
                        spec_ask(g, cands, allow_format_selection, Stage::Converter(fi), rest)
                    },
                    Answer::Exit => None,
                }
            },
            Stage::Version(fi, ci) => {
                let nver =
                    g.formats@[cands[fi as int] as int].1.converters@[ci as int].1.versions@.len();
                match a {
                    Answer::Pick(i) => if i < nver {
                        // Versions are displayed newest first; the stored
                        // sequence is oldest first, so displayed entry `i`
                        // is storage index `nver - 1 - i`.
                        Some((cands[fi as int], ci, (nver - 1 - i) as usize))
                    } else {
                        spec_ask(g, cands, allow_format_selection, Stage::Version(fi, ci), rest)
                    },
                    Answer::Back => spec_ask(
                        g,
                        cands,
                        allow_format_selection,
                        Stage::Converter(fi),
                        rest,
                    ),
                    Answer::Exit => None,
                }
            },
        }
    }
}

/// What `select_plugin` returns, as positions instead of identifiers.
pub open spec fn spec_select_plugin(g: Galaxy, ft: FileType, answers: Seq<Answer>) -> Result<
    Option<(usize, usize, usize)>,
    HostError,
> {
    match ft {
        FileType::FormatId(fid) => match g.spec_format_index(fid) {
            Some(i) => Ok(
                spec_ask(
                    g,
                    seq![i as usize],
                    false,
                    spec_initial_stage(seq![i as usize]),
                    answers,
                ),
            ),
            None => Err(HostError::UnknownFormat),
        },
        FileType::Ext(opt) => {
            let n = g.formats@.len() as int;
            let cands = match opt {
                Some(e) => {
                    let m = spec_matching(g, e@, n);
                    if m.len() > 0 {
                        m
                    } else {
                        spec_all_formats(g, n)
                    }
                },
                None => spec_all_formats(g, n),
            };
            if cands.len() == 0 {
                Err(HostError::NoCandidateConverter)
            } else {
                Ok(spec_ask(g, cands, true, spec_initial_stage(cands), answers))
            }
        },
    }
}

/// Identical catalogs, file types and answers select identically: the
/// selection is a function of its inputs and of nothing else.
pub proof fn lemma_selection_deterministic(
    g: Galaxy,
    ft: FileType,
    answers: Seq<Answer>,
    r1: Result<Option<(usize, usize, usize)>, HostError>,
    r2: Result<Option<(usize, usize, usize)>, HostError>,
)
    requires
        r1 == spec_select_plugin(g, ft, answers),
        r2 == spec_select_plugin(g, ft, answers),
    ensures
        r1 == r2,
{
}

/// The version index a selection reports addresses the stored sequence:
/// entry `i` of the newest-first display is storage index `len - 1 - i`,
/// and the stored version there is the displayed one the user picked.
pub proof fn lemma_version_index_semantics<T>(versions: Seq<T>, i: int)
    requires
        0 <= i < versions.len(),
    ensures
        versions[versions.len() - 1 - i] == versions.reverse()[i],
{
}

/// The candidate formats for a classified input, and whether the empty
/// extension match fell back to offering every format (an advisory the
/// caller should surface).
pub fn candidate_formats(galaxy: &Galaxy, file_type: &FileType) -> (r: (Vec<usize>, bool))
    requires
        galaxy.wf(),
    ensures
        match *file_type {
            FileType::FormatId(fid) => {
                &&& r.1 == false
                &&& match galaxy.spec_format_index(fid) {
                    Some(i) => r.0@ == seq![i as usize],
                    None => r.0@.len() == 0,
                }
            },
            FileType::Ext(ref opt) => {
                let n = galaxy.formats@.len() as int;
                match opt {
                    Some(e) => {
                        let m = spec_matching(*galaxy, e@, n);
                        if m.len() > 0 {
                            r.0@ == m && r.1 == false
                        } else {
                            r.0@ == spec_all_formats(*galaxy, n) && r.1 == true
                        }
                    },
                    None => r.0@ == spec_all_formats(*galaxy, n) && r.1 == false,
                }
            },
        },
{
    match file_type {
        FileType::FormatId(fid) => {
            let mut v: Vec<usize> = Vec::new();
            match galaxy.format_position(*fid) {
                Some(i) => {
                    v.push(i);
                },
                None => {},
            }
            proof {
                if galaxy.spec_format_index(*fid) is Some {
                    assert(v@ =~= seq![galaxy.spec_format_index(*fid)->Some_0 as usize]);
                }
            }
            (v, false)
        },
        FileType::Ext(opt) => match opt {
            Some(e) => {
                let m = matching_formats(galaxy, e);
                if m.len() > 0 {
                    (m, false)
                } else {
                    (all_formats(galaxy), true)
                }
            },
            None => (all_formats(galaxy), false),
        },
    }
}

/// The positions of the formats that claim the extension, in catalog order.
fn matching_formats(galaxy: &Galaxy, ext: &String) -> (r: Vec<usize>)
    ensures
        r@ == spec_matching(*galaxy, ext@, galaxy.formats@.len() as int),
{
    let n = galaxy.formats.len();
    let mut out: Vec<usize> = Vec::new();
    let mut k: usize = 0;
    while k < n
        invariant
            n == galaxy.formats@.len(),
            0 <= k <= n,
            out@ == spec_matching(*galaxy, ext@, k as int),
        decreases n - k,
    {
        if format_claims_ext(galaxy, k, ext) {
            out.push(k);
        }
        k += 1;
    }
    out
}

/// Does the format at this position claim the extension?
fn format_claims_ext(galaxy: &Galaxy, idx: usize, ext: &String) -> (r: bool)
    requires
        idx < galaxy.formats@.len(),
    ensures
        r == spec_format_matches(*galaxy, idx as int, ext@),
{
    let exts = &galaxy.formats[idx].1.extensions;
    let n = exts.len();
    let mut k: usize = 0;
    while k < n
        invariant
            n == exts@.len(),
            idx < galaxy.formats@.len(),
            exts == &galaxy.formats@[idx as int].1.extensions,
            0 <= k <= n,
            forall|j: int| 0 <= j < k ==> (#[trigger] exts@[j])@ != ext@,
        decreases n - k,
    {
        if exts[k].eq(ext) {
            return true;
        }
        k += 1;
    }
    false
}

/// Every format position, in catalog order.
fn all_formats(galaxy: &Galaxy) -> (r: Vec<usize>)
    ensures
        r@ == spec_all_formats(*galaxy, galaxy.formats@.len() as int),
{
    let n = galaxy.formats.len();
    let mut out: Vec<usize> = Vec::new();
    let mut k: usize = 0;
    while k < n
        invariant
            n == galaxy.formats@.len(),
            0 <= k <= n,
            out@ == spec_all_formats(*galaxy, k as int),
        decreases n - k,
    {
        out.push(k);
        k += 1;
    }
    out
}

/// Drive the selection with a list of answers.  `Ok(None)` is an abandoned
/// dialogue (exit, or answers ran out); an unknown tagged format and an
/// empty catalog are errors.
pub fn select_plugin(galaxy: &Galaxy, file_type: &FileType, answers: &Vec<Answer>) -> (r: Result<
    Option<ConverterSelection>,
    HostError,
>)
    requires
        galaxy.wf(),
    ensures
        match spec_select_plugin(*galaxy, *file_type, answers@) {
            Err(e) => r == Err::<Option<ConverterSelection>, HostError>(e),
            Ok(None) => r == Ok::<Option<ConverterSelection>, HostError>(None),
            Ok(Some((fi, ci, vi))) => r matches Ok(Some(sel))
                && sel.format_id == galaxy.formats@[fi as int].0
                && sel.converter_id == galaxy.formats@[fi as int].1.converters@[ci as int].0
                && sel.version_idx == vi,
        },
{
    let (cands, _advisory) = candidate_formats(galaxy, file_type);
    match file_type {
        FileType::FormatId(fid) => {
            if cands.len() == 0 {
                return Err(HostError::UnknownFormat);
            }
            proof {
                let i = galaxy.spec_format_index(*fid)->Some_0;
                assert(0 <= i < galaxy.formats@.len());
                assert(cands@ =~= seq![i as usize]);
                assert(answers@.skip(0) =~= answers@);
            }
            let stage = initial_stage(&cands);
            Ok(ask(galaxy, &cands, false, stage, answers, 0))
        },
        FileType::Ext(opt) => {
            if cands.len() == 0 {
                return Err(HostError::NoCandidateConverter);
            }
            proof {
                let n = galaxy.formats@.len() as int;
                match opt {
                    Some(e) => lemma_matching_bounds(*galaxy, e@, n),
                    None => {},
                }
                lemma_all_formats_bounds(*galaxy, n);
                assert(answers@.skip(0) =~= answers@);
            }
            let stage = initial_stage(&cands);
            Ok(ask(galaxy, &cands, true, stage, answers, 0))
        },
    }
}

/// The opening stage for a candidate list.
fn initial_stage(cands: &Vec<usize>) -> (r: Stage)
    ensures
        r == spec_initial_stage(cands@),
{
    if cands.len() == 1 {
        Stage::Converter(0)
    } else {
        Stage::Format
    }
}

/// Walk the remaining answers from `k` on, mirroring `spec_ask`.
fn ask(
    galaxy: &Galaxy,
    cands: &Vec<usize>,
    allow_format_selection: bool,
    stage: Stage,
    answers: &Vec<Answer>,
    k: usize,
) -> (r: Option<ConverterSelection>)
    requires
        galaxy.wf(),
        k <= answers@.len(),
        forall|i: int| 0 <= i < cands@.len() ==> (#[trigger] cands@[i]) < galaxy.formats@.len(),
        stage matches Stage::Converter(fi) ==> fi < cands@.len(),
        stage matches Stage::Version(fi, ci) ==> fi < cands@.len()
            && ci < galaxy.formats@[cands@[fi as int] as int].1.converters@.len(),
    ensures
        match spec_ask(*galaxy, cands@, allow_format_selection, stage, answers@.skip(k as int)) {
            None => r is None,
            Some((fi, ci, vi)) => r matches Some(sel)
                && sel.format_id == galaxy.formats@[fi as int].0
                && sel.converter_id == galaxy.formats@[fi as int].1.converters@[ci as int].0
                && sel.version_idx == vi,
        },
    decreases answers@.len() - k,
{
    proof {
        assert(answers@.skip(k as int).len() == answers@.len() - k);
    }
    if k == answers.len() {
        return None;
    }
    let a = answers[k];
    proof {
        assert(answers@.skip(k as int)[0] == answers@[k as int]);
        assert(answers@.skip(k as int).drop_first() =~= answers@.skip(k as int + 1));
    }
    match stage {
        Stage::Format => match a {
            Answer::Pick(i) => {
                if i < cands.len() {
                    ask(galaxy, cands, allow_format_selection, Stage::Converter(i), answers, k + 1)
                } else {
                    ask(galaxy, cands, allow_format_selection, Stage::Format, answers, k + 1)
                }
            },
            Answer::Back => ask(
                galaxy,
                cands,
                allow_format_selection,
                Stage::Format,
                answers,
                k + 1,
            ),
            Answer::Exit => None,
        },
        Stage::Converter(fi) => {
            let nconv = galaxy.formats[cands[fi]].1.converters.len();
            match a {
                Answer::Pick(i) => {
                    if i < nconv {
                        ask(
                            galaxy,
                            cands,
                            allow_format_selection,
                            Stage::Version(fi, i),
                            answers,
                            k + 1,
                        )
                    } else {
                        ask(
                            galaxy,
                            cands,
                            allow_format_selection,
                            Stage::Converter(fi),
                            answers,
                            k + 1,
                        )
                    }
                },
                Answer::Back => {
                    if allow_format_selection && cands.len() > 1 {
                        ask(galaxy, cands, allow_format_selection, Stage::Format, answers, k + 1)
                    } else {
                        ask(
                            galaxy,
                            cands,
                            allow_format_selection,
                            Stage::Converter(fi),
                            answers,
                            k + 1,
                        )
                    }
                },
                Answer::Exit => None,
            }
        },
        Stage::Version(fi, ci) => {
            let nver = galaxy.formats[cands[fi]].1.converters[ci].1.versions.len();
            match a {
                Answer::Pick(i) => {
                    if i < nver {
                        Some(
                            ConverterSelection {
                                format_id: galaxy.formats[cands[fi]].0,
                                converter_id: galaxy.formats[cands[fi]].1.converters[ci].0,
                                version_idx: nver - 1 - i,
                            },
                        )
                    } else {
                        ask(
                            galaxy,
                            cands,
                            allow_format_selection,
                            Stage::Version(fi, ci),
                            answers,
                            k + 1,
                        )
                    }
                },
                Answer::Back => ask(
                    galaxy,
                    cands,
                    allow_format_selection,
                    Stage::Converter(fi),
                    answers,
                    k + 1,
                ),
                Answer::Exit => None,
            }
        },
    }
}

} // verus!
