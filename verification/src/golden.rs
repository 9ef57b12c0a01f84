//! The shared contract's golden data: vectors for [`resolve`] over a fixed grid of answers
//! and thresholds, and the rubric rendering cases, read off real declarations. Other SDKs
//! check themselves against these.

use vstd::prelude::*;
use vstd::string::StringExecFns;

use crate::api::Answer;
use crate::declare::{
    ChoiceTable, Derive, EnumDecl, GuideAttr, VariantDecl, choice_expansion, choice_ok, counterexamples_of, declaration_ok, doc_rubric, examples_clash,
    decl_rendered, examples_of, expand_choice, expand_levels, has_fallback, key_of, keys_distinct, levels_ok, rubric_of,
    snake_case, two_fallbacks, variant_ok, variant_rubric,
};
use crate::error::Error;
use crate::policy::{HALF_BITS, Outcome, Thresholds, has_key, resolution, resolve, score_in_range, well_shaped};
use crate::rubric::{
    Rubric, RubricView, fault_message, first_bad_from, first_break_from, first_contradiction_from, rendered, rubric_fault,
};
use crate::scalars::{Confidence, ONE_BITS, Probability, in_unit_interval};
use crate::text::{debug_quoted, decimal, has_line_break, is_blank, is_white, lead, owned, quoted, trail, texts, trim};

verus! {

/// How many vectors [`vectors`] produces: the contract cannot silently shrink.
pub const EXPECTED_VECTORS: usize = 42;

/// How many answers the grid holds: seven nouls, three choices, three scores.
pub const GRID_ANSWERS: usize = 13;

/// How many threshold settings the grid holds.
pub const GRID_THRESHOLDS: usize = 3;

/// One golden case: the answer, the thresholds, and either the outcome or the error kind.
#[derive(Debug)]
pub struct Vector {
    pub answer: Answer,
    pub thresholds: Thresholds,
    pub outcome: Option<Outcome>,
    pub error: Option<&'static str>,
}

/// The vector records what [`resolve`] gives: its outcome, or `protocol` for an answer it
/// refuses.
pub open spec fn records(v: Vector) -> bool {
    match v.outcome {
        Some(o) => v.error is None && resolution(v.answer, v.thresholds, Ok(o)),
        None => v.error matches Some(k) && k@ == "protocol"@ && exists|e: Error|
            resolution(v.answer, v.thresholds, Err(e)),
    }
}

/// A probability from its bit pattern.
fn prob(bits: u64) -> (r: Result<Probability, Error>)
    ensures
        in_unit_interval(bits) <==> r is Ok,
        r matches Ok(p) ==> p.bits() == bits,
        r matches Err(e) ==> e is Protocol,
{
    Probability::from_bits(bits)
}

/// A confidence from its bit pattern.
fn conf(bits: u64) -> (r: Result<Confidence, Error>)
    ensures
        in_unit_interval(bits) <==> r is Ok,
        r matches Ok(c) ==> c.bits() == bits,
        r matches Err(e) ==> e is Protocol,
{
    Confidence::from_bits(bits)
}

/// `a` is the choice among `billing`, `technical` and `sales` that picks `billing`, with
/// these probabilities and confidence, its distribution held in key order.
pub open spec fn grid_choice(a: Answer, billing: u64, technical: u64, sales: u64, confidence: u64) -> bool {
    match a {
        Answer::Choice { choice, probabilities, confidence: c } => {
            &&& choice@ == "billing"@
            &&& probabilities@.len() == 3
            &&& probabilities@[0].0@ == "billing"@
            &&& probabilities@[0].1.bits() == billing
            &&& probabilities@[1].0@ == "sales"@
            &&& probabilities@[1].1.bits() == sales
            &&& probabilities@[2].0@ == "technical"@
            &&& probabilities@[2].1.bits() == technical
            &&& c.bits() == confidence
        },
        _ => false,
    }
}

/// `a` is the score over `Calm`, `Frustrated`, `Very angry` with these probabilities, value
/// and confidence.
pub open spec fn grid_score(a: Answer, calm: u64, frustrated: u64, angry: u64, value: u64, confidence: u64) -> bool {
    match a {
        Answer::Score { score, legend, probabilities, confidence: c } => {
            &&& score == value
            &&& legend@.len() == 3
            &&& legend@[0].0 == 0 && legend@[0].1@ == "Calm"@
            &&& legend@[1].0 == 1 && legend@[1].1@ == "Frustrated"@
            &&& legend@[2].0 == 2 && legend@[2].1@ == "Very angry"@
            &&& probabilities@.len() == 3
            &&& probabilities@[0].0 == 0 && probabilities@[0].1.bits() == calm
            &&& probabilities@[1].0 == 1 && probabilities@[1].1.bits() == frustrated
            &&& probabilities@[2].0 == 2 && probabilities@[2].1.bits() == angry
            &&& c.bits() == confidence
        },
        _ => false,
    }
}

/// A choice among `billing`, `technical` and `sales` that picks `billing`, with these
/// probabilities (in that order) and confidence. The distribution is held in key order.
fn choice(p: [u64; 3], confidence: u64) -> (r: Result<Answer, Error>)
    ensures
        (in_unit_interval(p[0]) && in_unit_interval(p[1]) && in_unit_interval(p[2]) && in_unit_interval(confidence))
            <==> r is Ok,
        r matches Ok(a) ==> grid_choice(a, p[0], p[1], p[2], confidence),
        r matches Err(e) ==> e is Protocol,
{
    let billing = prob(p[0])?;
    let technical = prob(p[1])?;
    let sales = prob(p[2])?;
    let mut probabilities: Vec<(String, Probability)> = Vec::new();
    probabilities.push((owned("billing"), billing));
    probabilities.push((owned("sales"), sales));
    probabilities.push((owned("technical"), technical));
    Ok(Answer::Choice { choice: owned("billing"), probabilities, confidence: conf(confidence)? })
}

/// A score over `Calm`, `Frustrated`, `Very angry` with these probabilities, expected value
/// and confidence.
fn score(p: [u64; 3], value: u64, confidence: u64) -> (r: Result<Answer, Error>)
    ensures
        (in_unit_interval(p[0]) && in_unit_interval(p[1]) && in_unit_interval(p[2]) && in_unit_interval(confidence))
            <==> r is Ok,
        r matches Ok(a) ==> grid_score(a, p[0], p[1], p[2], value, confidence),
        r matches Err(e) ==> e is Protocol,
{
    let mut probabilities: Vec<(u8, Probability)> = Vec::new();
    probabilities.push((0, prob(p[0])?));
    probabilities.push((1, prob(p[1])?));
    probabilities.push((2, prob(p[2])?));
    let mut legend: Vec<(u8, String)> = Vec::new();
    legend.push((0, owned("Calm")));
    legend.push((1, owned("Frustrated")));
    legend.push((2, owned("Very angry")));
    Ok(Answer::Score { score: value, legend, probabilities, confidence: conf(confidence)? })
}

/// The probability of noul `k` of the grid: 0, 0.25, 0.3, 0.5, 0.7, 0.75 and 1.
pub open spec fn grid_noul_bits(k: int) -> u64 {
    if k == 0 {
        0
    } else if k == 1 {
        0x3fd0_0000_0000_0000
    } else if k == 2 {
        0x3fd3_3333_3333_3333
    } else if k == 3 {
        0x3fe0_0000_0000_0000
    } else if k == 4 {
        0x3fe6_6666_6666_6666
    } else if k == 5 {
        0x3fe8_0000_0000_0000
    } else {
        0x3ff0_0000_0000_0000
    }
}

/// `a` is answer `k` of the grid.
pub open spec fn grid_answer_is(a: Answer, k: int) -> bool {
    if k < 7 {
        a matches Answer::Noul { noul } && noul.bits() == grid_noul_bits(k)
    } else if k == 7 {
        grid_choice(a, 0x3fec_28f5_c28f_5c29, 0x3fbe_b851_eb85_1eb8, 0, 0x3fe9_eb85_1eb8_51ec)
    } else if k == 8 {
        grid_choice(a, 0x3fd9_9999_9999_999a, 0x3fd6_6666_6666_6666, 0x3fd0_0000_0000_0000, 0x3fc9_9999_9999_999a)
    } else if k == 9 {
        grid_choice(a, 0x3ff0_0000_0000_0000, 0, 0, 0x3ff0_0000_0000_0000)
    } else if k == 10 {
        grid_score(a, 0, 0x3fee_6666_6666_6666, 0x3fa9_9999_9999_999a, 0x3ff0_cccc_cccc_cccd, 0x3fed_70a3_d70a_3d71)
    } else if k == 11 {
        grid_score(a, 0x3fe2_3d70_a3d7_0a3d, 0x3fdb_851e_b851_eb85, 0, 0x3fdb_851e_b851_eb85, 0x3fd6_6666_6666_6666)
    } else {
        grid_score(
            a,
            0x3fc9_9999_9999_999a,
            0x3fd3_3333_3333_3333,
            0x3fe0_0000_0000_0000,
            0x3ff4_cccc_cccc_cccd,
            0x3fe0_0000_0000_0000,
        )
    }
}

/// Answer `k` of the grid: nouls of 0, 0.25, 0.3, 0.5, 0.7, 0.75 and 1; then three choices;
/// then three scores.
fn grid_answer(k: usize) -> (r: Result<Answer, Error>)
    requires
        k < GRID_ANSWERS,
    ensures
        r matches Ok(a) && grid_answer_is(a, k as int),
{
    if k < 7 {
        let bits: u64 = if k == 0 {
            0
        } else if k == 1 {
            0x3fd0_0000_0000_0000
        } else if k == 2 {
            0x3fd3_3333_3333_3333
        } else if k == 3 {
            0x3fe0_0000_0000_0000
        } else if k == 4 {
            0x3fe6_6666_6666_6666
        } else if k == 5 {
            0x3fe8_0000_0000_0000
        } else {
            0x3ff0_0000_0000_0000
        };
        Ok(Answer::Noul { noul: prob(bits)? })
    } else if k == 7 {
        choice([0x3fec_28f5_c28f_5c29, 0x3fbe_b851_eb85_1eb8, 0], 0x3fe9_eb85_1eb8_51ec)
    } else if k == 8 {
        choice([0x3fd9_9999_9999_999a, 0x3fd6_6666_6666_6666, 0x3fd0_0000_0000_0000], 0x3fc9_9999_9999_999a)
    } else if k == 9 {
        choice([0x3ff0_0000_0000_0000, 0, 0], 0x3ff0_0000_0000_0000)
    } else if k == 10 {
        score([0, 0x3fee_6666_6666_6666, 0x3fa9_9999_9999_999a], 0x3ff0_cccc_cccc_cccd, 0x3fed_70a3_d70a_3d71)
    } else if k == 11 {
        score([0x3fe2_3d70_a3d7_0a3d, 0x3fdb_851e_b851_eb85, 0], 0x3fdb_851e_b851_eb85, 0x3fd6_6666_6666_6666)
    } else {
        score(
            [0x3fc9_9999_9999_999a, 0x3fd3_3333_3333_3333, 0x3fe0_0000_0000_0000],
            0x3ff4_cccc_cccc_cccd,
            0x3fe0_0000_0000_0000,
        )
    }
}

/// The `(yes_above, no_below, min_confidence)` patterns of threshold setting `j` of the grid.
pub open spec fn grid_threshold_bits(j: int) -> (u64, u64, u64) {
    if j == 0 {
        (0x3fe0_0000_0000_0000, 0x3fe0_0000_0000_0000, 0)
    } else if j == 1 {
        (0x3fe6_6666_6666_6666, 0x3fd3_3333_3333_3333, 0)
    } else {
        (0x3fe0_0000_0000_0000, 0x3fe0_0000_0000_0000, 0x3fe9_9999_9999_999a)
    }
}

/// Threshold setting `j` of the grid: `(0.5, 0.5, 0)`, `(0.7, 0.3, 0)`, `(0.5, 0.5, 0.8)`.
fn grid_thresholds(j: usize) -> (r: Result<Thresholds, Error>)
    requires
        j < GRID_THRESHOLDS,
    ensures
        r matches Ok(t) && t.yes_bits() == grid_threshold_bits(j as int).0 && t.no_bits()
            == grid_threshold_bits(j as int).1 && t.min_bits() == grid_threshold_bits(j as int).2,
{
    if j == 0 {
        Thresholds::new(0x3fe0_0000_0000_0000, 0x3fe0_0000_0000_0000, 0)
    } else if j == 1 {
        Thresholds::new(0x3fe6_6666_6666_6666, 0x3fd3_3333_3333_3333, 0)
    } else {
        Thresholds::new(0x3fe0_0000_0000_0000, 0x3fe0_0000_0000_0000, 0x3fe9_9999_9999_999a)
    }
}

/// `a` is rejected answer `k`: a choice of `ghost` over a distribution of `billing` alone;
/// a score whose levels are 0 and 2; a score with eleven levels `L0`..`L10`, all certain of
/// the first.
pub open spec fn rejected_answer_is(a: Answer, k: int) -> bool {
    if k == 0 {
        match a {
            Answer::Choice { choice, probabilities, confidence } => {
                &&& choice@ == "ghost"@
                &&& probabilities@.len() == 1
                &&& probabilities@[0].0@ == "billing"@
                &&& probabilities@[0].1.bits() == ONE_BITS
                &&& confidence.bits() == ONE_BITS
            },
            _ => false,
        }
    } else if k == 1 {
        match a {
            Answer::Score { score, legend, probabilities, confidence } => {
                &&& score == 0
                &&& legend@.len() == 2
                &&& legend@[0].0 == 0 && legend@[0].1@ == "a"@
                &&& legend@[1].0 == 2 && legend@[1].1@ == "c"@
                &&& probabilities@.len() == 2
                &&& probabilities@[0].0 == 0 && probabilities@[0].1.bits() == ONE_BITS
                &&& probabilities@[1].0 == 2 && probabilities@[1].1.bits() == 0
                &&& confidence.bits() == ONE_BITS
            },
            _ => false,
        }
    } else {
        match a {
            Answer::Score { score, legend, probabilities, confidence } => {
                &&& score == 0
                &&& legend@.len() == 11
                &&& probabilities@.len() == 11
                &&& forall|i: int| 0 <= i < 11 ==> (#[trigger] legend@[i]).0 == i && legend@[i].1@ == "L"@ + decimal(i as nat)
                &&& forall|i: int|
                    0 <= i < 11 ==> (#[trigger] probabilities@[i]).0 == i && probabilities@[i].1.bits() == if i == 0 {
                        ONE_BITS
                    } else {
                        0
                    }
                &&& confidence.bits() == ONE_BITS
            },
            _ => false,
        }
    }
}

/// Rejected answer `k`: a choice of a key outside its distribution; a score whose levels
/// skip one; a score with eleven levels.
fn rejected_answer(k: usize) -> (r: Result<Answer, Error>)
    requires
        k < 3,
    ensures
        r matches Ok(a) && rejected_answer_is(a, k as int),
{
    let one = prob(0x3ff0_0000_0000_0000)?;
    let zero = prob(0)?;
    let full = conf(0x3ff0_0000_0000_0000)?;
    if k == 0 {
        let mut probabilities: Vec<(String, Probability)> = Vec::new();
        probabilities.push((owned("billing"), one));
        Ok(Answer::Choice { choice: owned("ghost"), probabilities, confidence: full })
    } else if k == 1 {
        let mut legend: Vec<(u8, String)> = Vec::new();
        legend.push((0, owned("a")));
        legend.push((2, owned("c")));
        let mut probabilities: Vec<(u8, Probability)> = Vec::new();
        probabilities.push((0, one));
        probabilities.push((2, zero));
        Ok(Answer::Score { score: 0, legend, probabilities, confidence: full })
    } else {
        let mut legend: Vec<(u8, String)> = Vec::new();
        let mut probabilities: Vec<(u8, Probability)> = Vec::new();
        let mut i: u8 = 0;
        while i < 11
            invariant
                i <= 11,
                one.bits() == ONE_BITS,
                zero.bits() == 0,
                legend@.len() == i,
                probabilities@.len() == i,
                forall|x: int| 0 <= x < i ==> (#[trigger] legend@[x]).0 == x && legend@[x].1@ == "L"@ + decimal(x as nat),
                forall|x: int|
                    0 <= x < i ==> (#[trigger] probabilities@[x]).0 == x && probabilities@[x].1.bits() == if x == 0 {
                        ONE_BITS
                    } else {
                        0
                    },
            decreases 11 - i,
        {
            let mut label = owned("L");
            crate::text::push_decimal(&mut label, i as usize);
            legend.push((i, label));
            probabilities.push((i, if i == 0 { one } else { zero }));
            i = i + 1;
        }
        Ok(Answer::Score { score: 0, legend, probabilities, confidence: full })
    }
}

/// Every answer of the grid resolves, under any thresholds.
proof fn lemma_grid_resolves(a: Answer, k: int, t: Thresholds, r: Result<Outcome, Error>)
    requires
        0 <= k < GRID_ANSWERS,
        grid_answer_is(a, k),
        resolution(a, t, r),
    ensures
        r is Ok,
{
    reveal_strlit("billing");
    match a {
        Answer::Choice { choice, probabilities, confidence } => {
            assert(probabilities@[0].0@ == choice@);
            assert(has_key(probabilities@, choice@));
        },
        Answer::Score { score, legend, probabilities, confidence } => {
            assert(well_shaped(legend@, probabilities@));
            assert(score_in_range(score, legend@.len() - 1));
        },
        _ => {},
    }
}

/// Every rejected answer is refused, under any thresholds.
proof fn lemma_rejected_refused(a: Answer, k: int, t: Thresholds, r: Result<Outcome, Error>)
    requires
        0 <= k < 3,
        rejected_answer_is(a, k),
        resolution(a, t, r),
    ensures
        r is Err,
{
    reveal_strlit("billing");
    reveal_strlit("ghost");
    match a {
        Answer::Choice { choice, probabilities, confidence } => {
            assert("billing"@.len() == 7 && "ghost"@.len() == 5);
            assert(probabilities@[0].0@ != choice@);
            assert(!has_key(probabilities@, choice@));
        },
        Answer::Score { score, legend, probabilities, confidence } => {
            if k == 1 {
                assert(legend@[1].0 != 1);
            }
            assert(!well_shaped(legend@, probabilities@));
        },
        _ => {},
    }
}

/// The thresholds hold these `(yes_above, no_below, min_confidence)` patterns.
pub open spec fn thresholds_are(t: Thresholds, bits: (u64, u64, u64)) -> bool {
    t.yes_bits() == bits.0 && t.no_bits() == bits.1 && t.min_bits() == bits.2
}

/// Vector `i` of the golden set: for the first thirty-nine, grid answer `i / 3` under
/// threshold setting `i % 3`, with its outcome; then rejected answer `i - 39` under the
/// default thresholds, recorded as refused.
pub open spec fn vector_at(v: Vector, i: int) -> bool {
    if i < 39 {
        &&& grid_answer_is(v.answer, i / 3)
        &&& thresholds_are(v.thresholds, grid_threshold_bits(i % 3))
        &&& v.outcome is Some
    } else {
        &&& rejected_answer_is(v.answer, i - 39)
        &&& thresholds_are(v.thresholds, (HALF_BITS, HALF_BITS, 0))
        &&& v.outcome is None
    }
}

/// Every golden vector: each grid answer under each grid threshold setting, with its
/// outcome; then the rejected answers under the default thresholds, each recorded as
/// `protocol`. An answer of the grid that does not resolve, or a rejected one that does,
/// is [`Error`], so a vector that states something false is never published.
pub fn vectors() -> (r: Result<Vec<Vector>, Error>)
    ensures
        r is Ok,
        r matches Ok(v) ==> v@.len() == EXPECTED_VECTORS && forall|i: int|
            0 <= i < v@.len() ==> records(#[trigger] v@[i]) && vector_at(v@[i], i),
{
    proof {
        reveal_strlit("protocol");
    }
    let mut out: Vec<Vector> = Vec::new();
    let mut k: usize = 0;
    while k < GRID_ANSWERS
        invariant
            k <= GRID_ANSWERS,
            out@.len() == k * GRID_THRESHOLDS,
            forall|i: int| 0 <= i < out@.len() ==> records(#[trigger] out@[i]) && vector_at(out@[i], i),
        decreases GRID_ANSWERS - k,
    {
        let mut j: usize = 0;
        while j < GRID_THRESHOLDS
            invariant
                k < GRID_ANSWERS,
                j <= GRID_THRESHOLDS,
                out@.len() == k * GRID_THRESHOLDS + j,
                forall|i: int| 0 <= i < out@.len() ==> records(#[trigger] out@[i]) && vector_at(out@[i], i),
            decreases GRID_THRESHOLDS - j,
        {
            let answer = grid_answer(k)?;
            let thresholds = grid_thresholds(j)?;
            let resolved = resolve(&answer, thresholds);
            proof {
                lemma_grid_resolves(answer, k as int, thresholds, resolved);
            }
            let outcome = resolved?;
            let v = Vector { answer, thresholds, outcome: Some(outcome), error: None };
            assert(records(v));
            let ghost at = out@.len() as int;
            assert(at / 3 == k && at % 3 == j && at < 39);
            assert(vector_at(v, at));
            out.push(v);
            j = j + 1;
        }
        k = k + 1;
    }
    let mut n: usize = 0;
    while n < 3
        invariant
            n <= 3,
            out@.len() == GRID_ANSWERS * GRID_THRESHOLDS + n,
            forall|i: int| 0 <= i < out@.len() ==> records(#[trigger] out@[i]) && vector_at(out@[i], i),
        decreases 3 - n,
    {
        let answer = rejected_answer(n)?;
        let thresholds = Thresholds::defaults();
        let resolved = resolve(&answer, thresholds);
        proof {
            lemma_rejected_refused(answer, n as int, thresholds, resolved);
        }
        match resolved {
            Ok(_) => {
                return Err(Error::Config { detail: owned("a negative vector unexpectedly resolved") });
            },
            Err(e) => {
                let v = Vector { answer, thresholds, outcome: None, error: Some("protocol") };
                assert(resolution(v.answer, v.thresholds, Err(e)));
                assert(records(v));
                assert(vector_at(v, out@.len() as int));
                out.push(v);
            },
        }
        n = n + 1;
    }
    Ok(out)
}

/// The parts one rubric case was written from.
#[derive(Debug)]
pub struct CaseParts {
    pub what: String,
    pub examples: Vec<String>,
    pub counterexamples: Vec<String>,
}

/// The rubric the parts describe.
pub open spec fn parts_view(p: CaseParts) -> RubricView {
    RubricView { what: p.what@, examples: texts(p.examples@), counterexamples: texts(p.counterexamples@) }
}

/// One rubric case: what the caller wrote, and what was rendered from it. `kind` is
/// `choice`, `levels` or `noul`: which question kind the rubric sits in.
#[derive(Debug)]
pub struct RubricCase {
    pub kind: &'static str,
    pub what: String,
    pub examples: Vec<String>,
    pub counterexamples: Vec<String>,
    pub rendered: String,
}

/// The case holds these parts, and what they render to, under this kind.
pub open spec fn case_of(c: RubricCase, kind: Seq<char>, p: CaseParts) -> bool {
    &&& c.kind@ == kind
    &&& c.what@ == p.what@
    &&& texts(c.examples@) == texts(p.examples@)
    &&& texts(c.counterexamples@) == texts(p.counterexamples@)
    &&& c.rendered@ == rendered(parts_view(p))
    &&& rubric_fault(parts_view(p)) is None
}

/// A case of some parts renders to what it records.
proof fn lemma_case_holds(c: RubricCase, kind: Seq<char>, p: CaseParts)
    requires
        case_of(c, kind, p),
    ensures
        case_holds(c),
{
    let v = RubricView { what: c.what@, examples: texts(c.examples@), counterexamples: texts(c.counterexamples@) };
    assert(v == parts_view(p));
}

/// The case renders to what it records, and breaks no rubric rule.
pub open spec fn case_holds(c: RubricCase) -> bool {
    let v = RubricView { what: c.what@, examples: texts(c.examples@), counterexamples: texts(c.counterexamples@) };
    &&& c.rendered@ == rendered(v)
    &&& rubric_fault(v) is None
}

/// Build the runtime rubric a case describes: the description, then each example, then each
/// counterexample, in order.
pub fn rubric(what: &str, examples: &Vec<String>, counterexamples: &Vec<String>) -> (r: Rubric)
    ensures
        r@ == (RubricView { what: what@, examples: texts(examples@), counterexamples: texts(counterexamples@) }),
{
    let mut rubric = Rubric::new(what);
    let mut i: usize = 0;
    while i < examples.len()
        invariant
            i <= examples@.len(),
            rubric@.what == what@,
            rubric@.examples == texts(examples@).take(i as int),
            rubric@.counterexamples.len() == 0,
        decreases examples@.len() - i,
    {
        rubric = rubric.example(examples[i].as_str());
        assert(texts(examples@).take(i + 1) =~= texts(examples@).take(i as int).push(examples@[i as int]@));
        i = i + 1;
    }
    let mut j: usize = 0;
    while j < counterexamples.len()
        invariant
            j <= counterexamples@.len(),
            rubric@.what == what@,
            rubric@.examples == texts(examples@),
            rubric@.counterexamples == texts(counterexamples@).take(j as int),
        decreases counterexamples@.len() - j,
    {
        rubric = rubric.counterexample(counterexamples[j].as_str());
        assert(texts(counterexamples@).take(j + 1) =~= texts(counterexamples@).take(j as int).push(
            counterexamples@[j as int]@,
        ));
        j = j + 1;
    }
    assert(texts(examples@).take(examples@.len() as int) =~= texts(examples@));
    assert(texts(counterexamples@).take(counterexamples@.len() as int) =~= texts(counterexamples@));
    rubric
}

/// The complaint that a declaration and the runtime rubric rendered the same parts
/// differently.
pub open spec fn drift_message(what: Seq<char>, declared: Seq<char>, runtime: Seq<char>) -> Seq<char> {
    "rubric case "@ + debug_quoted(what) + ": the derive rendered "@ + debug_quoted(declared)
        + ", Rubric rendered "@ + debug_quoted(runtime)
}

/// Pair one case with what its declaration rendered, refusing to publish a case that the
/// runtime rubric does not render the same way, or that breaks a rubric rule.
pub fn rubric_case(kind: &'static str, parts: CaseParts, declared: &str) -> (r: Result<RubricCase, Error>)
    ensures
        match rubric_fault(parts_view(parts)) {
            Some(f) => r matches Err(Error::Config { detail }) && detail@ == fault_message(f),
            None => if rendered(parts_view(parts)) == declared@ {
                r matches Ok(c) && case_of(c, kind@, parts)
            } else {
                r matches Err(Error::Config { detail }) && detail@ == drift_message(
                    parts.what@,
                    declared@,
                    rendered(parts_view(parts)),
                )
            },
        },
{
    let from_rubric = rubric(parts.what.as_str(), &parts.examples, &parts.counterexamples).render()?;
    let expected = owned(declared);
    if from_rubric != expected {
        let mut m = owned("rubric case ");
        let q = quoted(parts.what.as_str());
        m.append(q.as_str());
        m.append(": the derive rendered ");
        let q = quoted(declared);
        m.append(q.as_str());
        m.append(", Rubric rendered ");
        let q = quoted(from_rubric.as_str());
        m.append(q.as_str());
        return Err(Error::Config { detail: m });
    }
    Ok(RubricCase {
        kind,
        what: parts.what,
        examples: parts.examples,
        counterexamples: parts.counterexamples,
        rendered: from_rubric,
    })
}

/// The case at `base + k` of `out` was written from `parts[k]`, and the declared rubric at
/// `k` is what those parts render to.
pub open spec fn choice_case_at(
    out: Seq<RubricCase>,
    base: int,
    k: int,
    parts: Seq<CaseParts>,
    rubric: Seq<(String, Option<String>)>,
) -> bool {
    &&& case_of(out[base + k], "choice"@, parts[k])
    &&& rubric[k].1 matches Some(s) && s@ == rendered(parts_view(parts[k]))
}

/// Each option's declared rubric is what its parts render to, and the parts break no rubric
/// rule.
pub open spec fn declared_as_parts(rubric: Seq<(String, Option<String>)>, parts: Seq<CaseParts>) -> bool {
    &&& rubric.len() == parts.len()
    &&& forall|i: int|
        0 <= i < parts.len() ==> ((#[trigger] rubric[i]).1 matches Some(s) && s@ == rendered(parts_view(parts[i]))
            && rubric_fault(parts_view(parts[i])) is None)
}

/// Append one declared choice's cases, pairing each option's rendered rubric with the parts
/// it was written from.
pub fn push_choice(out: &mut Vec<RubricCase>, rubric: &Vec<(String, Option<String>)>, parts: Vec<CaseParts>) -> (r: Result<(), Error>)
    ensures
        rubric@.len() != parts@.len() ==> (r matches Err(Error::Config { detail }) && detail@
            == "the rubric grid and its enum disagree on length"@),
        r is Ok ==> {
            &&& rubric@.len() == parts@.len()
            &&& final(out)@.len() == old(out)@.len() + parts@.len()
            &&& forall|i: int| 0 <= i < old(out)@.len() ==> #[trigger] final(out)@[i] == old(out)@[i]
            &&& forall|i: int|
                0 <= i < parts@.len() ==> #[trigger] choice_case_at(final(out)@, old(out)@.len() as int, i, parts@, rubric@)
        },
        declared_as_parts(rubric@, parts@) ==> r is Ok,
        r matches Err(e) ==> e is Config,
{
    proof {
        reveal_strlit("the rubric grid and its enum disagree on length");
        reveal_strlit("choice");
    }
    if rubric.len() != parts.len() {
        return Err(Error::Config { detail: owned("the rubric grid and its enum disagree on length") });
    }
    let ghost start = out@;
    let ghost all = parts@;
    let mut rest = parts;
    let mut i: usize = 0;
    while i < rubric.len()
        invariant
            rubric@.len() == all.len(),
            all == parts@,
            i <= all.len(),
            rest@ == all.subrange(i as int, all.len() as int),
            out@.len() == start.len() + i,
            forall|k: int| 0 <= k < start.len() ==> #[trigger] out@[k] == start[k],
            forall|k: int| 0 <= k < i ==> #[trigger] choice_case_at(out@, start.len() as int, k, all, rubric@),
        decreases all.len() - i,
    {
        let p = rest.remove(0);
        assert(p == all[i as int]);
        let declared = match &rubric[i].1 {
            Some(text) => text,
            None => {
                let mut m = owned("rubric case ");
                let q = quoted(p.what.as_str());
                m.append(q.as_str());
                m.append(" lost its rubric");
                return Err(Error::Config { detail: m });
            },
        };
        let ghost pv = p;
        let case = rubric_case("choice", p, declared.as_str())?;
        assert(rendered(parts_view(pv)) == declared@);
        assert(rubric@[i as int].1 == Some(*declared));
        let ghost prior = out@;
        out.push(case);
        proof {
            assert(out@[start.len() + i] == case);
            assert(choice_case_at(out@, start.len() as int, i as int, all, rubric@));
            assert forall|k: int| 0 <= k < i + 1 implies #[trigger] choice_case_at(out@, start.len() as int, k, all, rubric@) by {
                if k < i {
                    assert(choice_case_at(prior, start.len() as int, k, all, rubric@));
                    assert(out@[start.len() + k] == prior[start.len() + k]);
                }
            }
            assert forall|k: int| 0 <= k < start.len() implies #[trigger] out@[k] == start[k] by {
                assert(out@[k] == prior[k]);
            }
            assert(rest@ =~= all.subrange(i + 1, all.len() as int));
        }
        i = i + 1;
    }
    Ok(())
}

/// A string from text.
fn text(s: &str) -> (r: String)
    ensures
        r@ == s@,
{
    owned(s)
}

/// `v` is the unit variant `ident` with the one `///` line `doc`.
pub open spec fn documented_as(v: VariantDecl, ident: Seq<char>, doc: Seq<char>) -> bool {
    &&& v.ident@ == ident
    &&& v.unit
    &&& v.docs@.len() == 1
    &&& v.docs@[0]@ == doc
}

/// `a` is `example = "text"`.
pub open spec fn example_is(a: GuideAttr, text: Seq<char>) -> bool {
    a matches GuideAttr::Example(s) && s@ == text
}

/// `a` is `counterexample = "text"`.
pub open spec fn counterexample_is(a: GuideAttr, text: Seq<char>) -> bool {
    a matches GuideAttr::Counterexample(s) && s@ == text
}

/// `p` holds this description, these examples and these counterexamples, in order.
pub open spec fn parts_are(p: CaseParts, what: Seq<char>, examples: Seq<Seq<char>>, counterexamples: Seq<Seq<char>>) -> bool {
    &&& p.what@ == what
    &&& texts(p.examples@) =~= examples
    &&& texts(p.counterexamples@) =~= counterexamples
}

/// A unit variant with one `///` line and these `#[guide(..)]` items.
fn documented(ident: &str, doc: &str, attrs: Vec<GuideAttr>) -> (r: VariantDecl)
    ensures
        documented_as(r, ident@, doc@),
        r.attrs == attrs,
{
    VariantDecl { ident: text(ident), unit: true, docs: vec![text(doc)], attrs }
}

/// Parts from text.
fn parts(what: &str, examples: Vec<String>, counterexamples: Vec<String>) -> (r: CaseParts)
    ensures
        r.what@ == what@,
        r.examples == examples,
        r.counterexamples == counterexamples,
{
    CaseParts { what: text(what), examples, counterexamples }
}

/// `d` is the golden choice declaration whose rows carry counterexamples.
pub open spec fn spec_choice_counter_is(d: EnumDecl) -> bool {
    &&& d.is_enum
    &&& d.variants@.len() == 3
    &&& documented_as(d.variants@[0], "Both"@, " Payments, invoicing, refunds"@)
    &&& d.variants@[0].attrs@.len() == 2
    &&& example_is(d.variants@[0].attrs@[0], "My card was charged twice"@)
    &&& counterexample_is(d.variants@[0].attrs@[1], "The dashboard is down"@)
    &&& documented_as(d.variants@[1], "OnlyCounterexample"@, " Payments, invoicing, refunds"@)
    &&& d.variants@[1].attrs@.len() == 1
    &&& counterexample_is(d.variants@[1].attrs@[0], "The dashboard is down"@)
    &&& documented_as(d.variants@[2], "DeclarationOrder"@, " Payments, invoicing, refunds"@)
    &&& d.variants@[2].attrs@.len() == 4
    &&& example_is(d.variants@[2].attrs@[0], "Why was I billed twice?"@)
    &&& example_is(d.variants@[2].attrs@[1], "Cancel and refund me"@)
    &&& counterexample_is(d.variants@[2].attrs@[2], "The status page is red"@)
    &&& counterexample_is(d.variants@[2].attrs@[3], "Are you hiring?"@)
}

/// `d` is the golden levels declaration.
pub open spec fn spec_level_is(d: EnumDecl) -> bool {
    &&& d.is_enum
    &&& d.variants@.len() == 2
    &&& documented_as(d.variants@[0], "Cosmetic"@, " No impact to functionality"@)
    &&& d.variants@[0].attrs@.len() == 2
    &&& example_is(d.variants@[0].attrs@[0], "typo in a label"@)
    &&& example_is(d.variants@[0].attrs@[1], "misaligned icon"@)
    &&& documented_as(d.variants@[1], "Blocking"@, " No workaround exists"@)
    &&& d.variants@[1].attrs@.len() == 0
}

/// `ps` are the parts of the counterexample declaration's variants.
pub open spec fn counter_parts_is(ps: Seq<CaseParts>) -> bool {
    &&& ps.len() == 3
    &&& parts_are(ps[0], "Payments, invoicing, refunds"@, seq!["My card was charged twice"@], seq!["The dashboard is down"@])
    &&& parts_are(ps[1], "Payments, invoicing, refunds"@, seq![], seq!["The dashboard is down"@])
    &&& parts_are(
        ps[2],
        "Payments, invoicing, refunds"@,
        seq!["Why was I billed twice?"@, "Cancel and refund me"@],
        seq!["The status page is red"@, "Are you hiring?"@]
    )
}

/// `ps` are the parts of the golden levels, low to high.
pub open spec fn level_parts_is(ps: Seq<CaseParts>) -> bool {
    &&& ps.len() == 2
    &&& parts_are(ps[0], "No impact to functionality"@, seq!["typo in a label"@, "misaligned icon"@], seq![])
    &&& parts_are(ps[1], "No workaround exists"@, seq![], seq![])
}

/// `ps` are the parts of the golden noul rubrics.
pub open spec fn noul_parts_is(ps: Seq<CaseParts>) -> bool {
    &&& ps.len() == 2
    &&& parts_are(
        ps[0],
        "Something is broken now and nobody can work around it"@,
        seq!["the checkout page is down"@],
        seq!["a nightly job failed and the numbers are pulled by hand for now"@]
    )
    &&& parts_are(ps[1], "It can wait for the next working day"@, seq![], seq![])
}

/// The rows that carry a counterexample, plus the case that pins declaration order: neither
/// clause is in sorted order, so a renderer that sorted would not reproduce it.
fn spec_choice_counter() -> (r: EnumDecl)
    ensures
        spec_choice_counter_is(r),
{
    EnumDecl {
        is_enum: true,
        variants: vec![
            documented(
                "Both",
                " Payments, invoicing, refunds",
                vec![
                    GuideAttr::Example(text("My card was charged twice")),
                    GuideAttr::Counterexample(text("The dashboard is down")),
                ],
            ),
            documented(
                "OnlyCounterexample",
                " Payments, invoicing, refunds",
                vec![GuideAttr::Counterexample(text("The dashboard is down"))],
            ),
            documented(
                "DeclarationOrder",
                " Payments, invoicing, refunds",
                vec![
                    GuideAttr::Example(text("Why was I billed twice?")),
                    GuideAttr::Example(text("Cancel and refund me")),
                    GuideAttr::Counterexample(text("The status page is red")),
                    GuideAttr::Counterexample(text("Are you hiring?")),
                ],
            ),
        ],
    }
}

/// The score half. A level never carries a counterexample.
fn spec_level() -> (r: EnumDecl)
    ensures
        spec_level_is(r),
{
    EnumDecl {
        is_enum: true,
        variants: vec![
            documented(
                "Cosmetic",
                " No impact to functionality",
                vec![GuideAttr::Example(text("typo in a label")), GuideAttr::Example(text("misaligned icon"))],
            ),
            documented("Blocking", " No workaround exists", vec![]),
        ],
    }
}

/// The parts of each [`spec_choice_counter`] variant, in declaration order.
fn counter_parts() -> (r: Vec<CaseParts>)
    ensures
        counter_parts_is(r@),
{
    vec![
        parts("Payments, invoicing, refunds", vec![text("My card was charged twice")], vec![text("The dashboard is down")]),
        parts("Payments, invoicing, refunds", vec![], vec![text("The dashboard is down")]),
        parts(
            "Payments, invoicing, refunds",
            vec![text("Why was I billed twice?"), text("Cancel and refund me")],
            vec![text("The status page is red"), text("Are you hiring?")],
        ),
    ]
}

/// The parts of each [`spec_level`] variant, low to high.
fn level_parts() -> (r: Vec<CaseParts>)
    ensures
        level_parts_is(r@),
{
    vec![
        parts("No impact to functionality", vec![text("typo in a label"), text("misaligned icon")], vec![]),
        parts("No workaround exists", vec![], vec![]),
    ]
}

/// The noul half: a noul has no declaration, so these come straight from a [`Rubric`].
fn noul_parts() -> (r: Vec<CaseParts>)
    ensures
        noul_parts_is(r@),
{
    vec![
        parts(
            "Something is broken now and nobody can work around it",
            vec![text("the checkout page is down")],
            vec![text("a nightly job failed and the numbers are pulled by hand for now")],
        ),
        parts("It can wait for the next working day", vec![], vec![]),
    ]
}

/// A refused declaration as the library's error.
fn declared<T>(r: Result<T, String>) -> (out: Result<T, Error>)
    ensures
        match r {
            Ok(t) => out == Ok::<T, Error>(t),
            Err(m) => out matches Err(Error::Config { detail }) && detail@ == m@,
        },
{
    match r {
        Ok(t) => Ok(t),
        Err(m) => Err(Error::Config { detail: m }),
    }
}

/// The option keys `heck` gives the variant names of the golden choice declaration are apart
/// from one another.
pub open spec fn golden_keys_apart() -> bool {
    &&& snake_case("Both"@) != snake_case("OnlyCounterexample"@)
    &&& snake_case("Both"@) != snake_case("DeclarationOrder"@)
    &&& snake_case("OnlyCounterexample"@) != snake_case("DeclarationOrder"@)
}

/// Every item is an example or a counterexample.
pub open spec fn only_clauses(attrs: Seq<GuideAttr>) -> bool {
    forall|k: int| 0 <= k < attrs.len() ==> (#[trigger] attrs[k] is Example || attrs[k] is Counterexample)
}

proof fn lemma_only_clauses(attrs: Seq<GuideAttr>, key: Seq<char>, rubric: Option<Seq<char>>)
    requires
        only_clauses(attrs),
    ensures
        key_of(attrs, key) == key,
        rubric_of(attrs, rubric) == rubric,
        !has_fallback(attrs),
    decreases attrs.len(),
{
    if attrs.len() > 0 {
        assert(only_clauses(attrs.drop_last()));
        lemma_only_clauses(attrs.drop_last(), key, rubric);
        assert(attrs.last() == attrs[attrs.len() - 1]);
    }
}

/// A documented variant with clauses only has its trimmed doc line as its rubric.
proof fn lemma_documented_rubric(v: VariantDecl, ident: Seq<char>, doc: Seq<char>)
    requires
        documented_as(v, ident, doc),
        only_clauses(v.attrs@),
    ensures
        variant_rubric(v) == Some(trim(doc)),
        key_of(v.attrs@, snake_case(v.ident@)) == snake_case(ident),
        !has_fallback(v.attrs@),
{
    lemma_only_clauses(v.attrs@, snake_case(v.ident@), doc_rubric(v.docs@));
    let lines = v.docs@.map_values(|d: String| trim(d@));
    assert(lines.len() == 1);
    assert(lines[0] == trim(doc));
}

/// `" Payments, invoicing, refunds"` trims to its words.
proof fn lemma_trim_payments()
    ensures
        trim(" Payments, invoicing, refunds"@) == "Payments, invoicing, refunds"@,
{
    reveal_strlit(" Payments, invoicing, refunds");
    reveal_strlit("Payments, invoicing, refunds");
    assert(lead(" Payments, invoicing, refunds"@, 0) == 1) by {
        reveal_with_fuel(lead, 3);
    }
    assert(trail(" Payments, invoicing, refunds"@, 29) == 29);
    assert(trim(" Payments, invoicing, refunds"@) =~= "Payments, invoicing, refunds"@);
}

/// The rubrics the counterexample declaration's variants describe.
pub open spec fn counter_choice_views() -> Seq<RubricView> {
    seq![
        RubricView {
            what: "Payments, invoicing, refunds"@,
            examples: seq!["My card was charged twice"@],
            counterexamples: seq!["The dashboard is down"@],
        },
        RubricView { what: "Payments, invoicing, refunds"@, examples: seq![], counterexamples: seq!["The dashboard is down"@] },
        RubricView {
            what: "Payments, invoicing, refunds"@,
            examples: seq!["Why was I billed twice?"@, "Cancel and refund me"@],
            counterexamples: seq!["The status page is red"@, "Are you hiring?"@],
        },
    ]
}

/// A text that starts with a char other than whitespace, and holds no line break.
pub open spec fn fine_item(s: Seq<char>) -> bool {
    s.len() > 0 && !is_white(s[0]) && !has_line_break(s)
}

/// A fine item is not blank.
proof fn lemma_item_fine(s: Seq<char>)
    requires
        fine_item(s),
    ensures
        !is_blank(s),
        !has_line_break(s),
{
}

/// Fine items, no two alike, break no clause rule.
proof fn lemma_items_fine(items: Seq<Seq<char>>)
    requires
        forall|k: int| 0 <= k < items.len() ==> fine_item(#[trigger] items[k]),
        forall|j: int, k: int| 0 <= j < k < items.len() ==> #[trigger] items[j] != #[trigger] items[k],
    ensures
        first_bad_from(items, 0) is None,
        first_break_from(items, 0) is None,
{
    lemma_items_fine_from(items, 0);
}

proof fn lemma_items_fine_from(items: Seq<Seq<char>>, i: int)
    requires
        0 <= i <= items.len(),
        forall|k: int| 0 <= k < items.len() ==> fine_item(#[trigger] items[k]),
        forall|j: int, k: int| 0 <= j < k < items.len() ==> #[trigger] items[j] != #[trigger] items[k],
    ensures
        first_bad_from(items, i) is None,
        first_break_from(items, i) is None,
    decreases items.len() - i,
{
    if i < items.len() {
        lemma_items_fine_from(items, i + 1);
        assert(fine_item(items[i]));
        assert(!items.take(i).contains(items[i])) by {
            if items.take(i).contains(items[i]) {
                let j = choose|j: int| 0 <= j < i && items.take(i)[j] == items[i];
                assert(items[j] == items[i]);
            }
        }
    }
}

/// The clause rules hold of items that are fine and no two alike.
pub open spec fn fine_items(items: Seq<Seq<char>>) -> bool {
    &&& forall|k: int| 0 <= k < items.len() ==> fine_item(#[trigger] items[k])
    &&& forall|j: int, k: int| 0 <= j < k < items.len() ==> #[trigger] items[j] != #[trigger] items[k]
}

proof fn lemma_no_contradiction_from(examples: Seq<Seq<char>>, counterexamples: Seq<Seq<char>>, i: int)
    requires
        0 <= i <= examples.len(),
        forall|k: int| 0 <= k < examples.len() ==> !counterexamples.contains(#[trigger] examples[k]),
    ensures
        first_contradiction_from(examples, counterexamples, i) is None,
    decreases examples.len() - i,
{
    if i < examples.len() {
        lemma_no_contradiction_from(examples, counterexamples, i + 1);
    }
}

/// A rubric with a fine description, fine clauses and no example among its counterexamples
/// breaks no rule.
proof fn lemma_fault_free(v: RubricView)
    requires
        fine_item(v.what),
        fine_items(v.examples),
        fine_items(v.counterexamples),
        forall|k: int| 0 <= k < v.examples.len() ==> !v.counterexamples.contains(#[trigger] v.examples[k]),
    ensures
        rubric_fault(v) is None,
{
    lemma_item_fine(v.what);
    lemma_items_fine(v.examples);
    lemma_items_fine(v.counterexamples);
    lemma_no_contradiction_from(v.examples, v.counterexamples, 0);
}

/// The counterexample declaration keeps every rule, given keys apart.
proof fn lemma_counter_choice_ok(d: EnumDecl)
    requires
        spec_choice_counter_is(d),
        golden_keys_apart(),
    ensures
        choice_ok(d),
{
    lemma_counter_choice_rows(d);
}

/// What the counterexample declaration's variants render to.
proof fn lemma_counter_choice_rows(d: EnumDecl)
    requires
        spec_choice_counter_is(d),
    ensures
        forall|i: int| 0 <= i < 3 ==> #[trigger] decl_rendered(d.variants@[i]) == Some(rendered(counter_choice_views()[i])),
        forall|i: int| 0 <= i < 3 ==> #[trigger] variant_ok(d.variants@[i], Derive::Choice),
        !examples_clash(d.variants@),
        declaration_ok(d, Derive::Choice),
        golden_keys_apart() ==> keys_distinct(d.variants@),
        !two_fallbacks(d.variants@),
{
    let vs = d.variants@;
    reveal_strlit("Payments, invoicing, refunds");
    reveal_strlit("My card was charged twice");
    reveal_strlit("The dashboard is down");
    reveal_strlit("Why was I billed twice?");
    reveal_strlit("Cancel and refund me");
    reveal_strlit("The status page is red");
    reveal_strlit("Are you hiring?");
    lemma_trim_payments();
    assert(only_clauses(vs[0].attrs@));
    assert(only_clauses(vs[1].attrs@));
    assert(only_clauses(vs[2].attrs@));
    lemma_documented_rubric(vs[0], "Both"@, " Payments, invoicing, refunds"@);
    lemma_documented_rubric(vs[1], "OnlyCounterexample"@, " Payments, invoicing, refunds"@);
    lemma_documented_rubric(vs[2], "DeclarationOrder"@, " Payments, invoicing, refunds"@);
    reveal_with_fuel(examples_of, 5);
    reveal_with_fuel(counterexamples_of, 5);
    assert(examples_of(vs[0].attrs@) =~= seq!["My card was charged twice"@]);
    assert(examples_of(vs[1].attrs@) =~= seq![]);
    assert(examples_of(vs[2].attrs@) =~= seq!["Why was I billed twice?"@, "Cancel and refund me"@]);
    assert(counterexamples_of(vs[0].attrs@) =~= seq!["The dashboard is down"@]);
    assert(counterexamples_of(vs[1].attrs@) =~= seq!["The dashboard is down"@]);
    assert(counterexamples_of(vs[2].attrs@) =~= seq!["The status page is red"@, "Are you hiring?"@]);
    lemma_item_fine("Payments, invoicing, refunds"@);
    lemma_item_fine("My card was charged twice"@);
    lemma_item_fine("The dashboard is down"@);
    lemma_item_fine("Why was I billed twice?"@);
    lemma_item_fine("Cancel and refund me"@);
    lemma_item_fine("The status page is red"@);
    lemma_item_fine("Are you hiring?"@);
    lemma_items_fine(seq!["My card was charged twice"@]);
    lemma_items_fine(seq!["The dashboard is down"@]);
    lemma_items_fine(seq!["Why was I billed twice?"@, "Cancel and refund me"@]);
    lemma_items_fine(seq!["The status page is red"@, "Are you hiring?"@]);
    lemma_items_fine(seq![]);
    assert(variant_ok(vs[0], Derive::Choice));
    assert(variant_ok(vs[1], Derive::Choice));
    assert(variant_ok(vs[2], Derive::Choice));
    assert(!examples_clash(vs));
    assert(declaration_ok(d, Derive::Choice));
    if golden_keys_apart() {
        assert(keys_distinct(vs));
    }
    assert(!two_fallbacks(vs));
    assert forall|i: int| 0 <= i < 3 implies #[trigger] variant_ok(d.variants@[i], Derive::Choice) by {}
    assert forall|i: int| 0 <= i < 3 implies #[trigger] decl_rendered(d.variants@[i]) == Some(rendered(counter_choice_views()[i])) by {
        assert(counter_choice_views()[i] == (RubricView {
            what: variant_rubric(vs[i])->Some_0,
            examples: examples_of(vs[i].attrs@),
            counterexamples: counterexamples_of(vs[i].attrs@),
        }));
    }
}

/// The golden levels declaration keeps every rule.
proof fn lemma_levels_ok(d: EnumDecl)
    requires
        spec_level_is(d),
    ensures
        levels_ok(d),
        decl_rendered(d.variants@[0]) == Some(
            rendered(RubricView {
                what: "No impact to functionality"@,
                examples: seq!["typo in a label"@, "misaligned icon"@],
                counterexamples: seq![],
            }),
        ),
        decl_rendered(d.variants@[1]) == Some(
            rendered(RubricView { what: "No workaround exists"@, examples: seq![], counterexamples: seq![] }),
        ),
{
    let vs = d.variants@;
    reveal_strlit(" No impact to functionality");
    reveal_strlit("No impact to functionality");
    reveal_strlit(" No workaround exists");
    reveal_strlit("No workaround exists");
    reveal_strlit("typo in a label");
    reveal_strlit("misaligned icon");
    assert(trim(" No impact to functionality"@) == "No impact to functionality"@) by {
        assert(lead(" No impact to functionality"@, 0) == 1) by {
            reveal_with_fuel(lead, 3);
        }
        assert(trail(" No impact to functionality"@, 27) == 27);
        assert(trim(" No impact to functionality"@) =~= "No impact to functionality"@);
    }
    assert(trim(" No workaround exists"@) == "No workaround exists"@) by {
        assert(lead(" No workaround exists"@, 0) == 1) by {
            reveal_with_fuel(lead, 3);
        }
        assert(trail(" No workaround exists"@, 21) == 21);
        assert(trim(" No workaround exists"@) =~= "No workaround exists"@);
    }
    assert(only_clauses(vs[0].attrs@));
    assert(only_clauses(vs[1].attrs@));
    lemma_documented_rubric(vs[0], "Cosmetic"@, " No impact to functionality"@);
    lemma_documented_rubric(vs[1], "Blocking"@, " No workaround exists"@);
    reveal_with_fuel(examples_of, 3);
    reveal_with_fuel(counterexamples_of, 3);
    assert(examples_of(vs[0].attrs@) =~= seq!["typo in a label"@, "misaligned icon"@]);
    assert(examples_of(vs[1].attrs@) =~= seq![]);
    assert(counterexamples_of(vs[0].attrs@) =~= seq![]);
    assert(counterexamples_of(vs[1].attrs@) =~= seq![]);
    lemma_item_fine("No impact to functionality"@);
    lemma_item_fine("No workaround exists"@);
    lemma_item_fine("typo in a label"@);
    lemma_item_fine("misaligned icon"@);
    lemma_items_fine(seq!["typo in a label"@, "misaligned icon"@]);
    lemma_items_fine(seq![]);
    assert(variant_ok(vs[0], Derive::Levels));
    assert(variant_ok(vs[1], Derive::Levels));
    assert(!examples_clash(vs));
    assert(declaration_ok(d, Derive::Levels));
}

/// Each view breaks no rubric rule.
proof fn lemma_views_fault_free()
    ensures
        forall|i: int| 0 <= i < 3 ==> rubric_fault(#[trigger] counter_choice_views()[i]) is None,
{
    reveal_strlit("Payments, invoicing, refunds");
    reveal_strlit("My card was charged twice");
    reveal_strlit("The dashboard is down");
    reveal_strlit("Why was I billed twice?");
    reveal_strlit("Cancel and refund me");
    reveal_strlit("The status page is red");
    reveal_strlit("Are you hiring?");
    assert forall|i: int| 0 <= i < 3 implies rubric_fault(#[trigger] counter_choice_views()[i]) is None by {
        lemma_fault_free(counter_choice_views()[i]);
    }
}

/// Declared rubrics that render these views, beside parts that describe them.
proof fn lemma_declared_as_parts(rubric: Seq<(String, Option<String>)>, ps: Seq<CaseParts>, views: Seq<RubricView>)
    requires
        rubric.len() == ps.len(),
        views.len() == ps.len(),
        forall|i: int| 0 <= i < ps.len() ==> ((#[trigger] rubric[i]).1 matches Some(s) && s@ == rendered(views[i])),
        forall|i: int| 0 <= i < ps.len() ==> parts_view(#[trigger] ps[i]) == views[i],
        forall|i: int| 0 <= i < ps.len() ==> rubric_fault(#[trigger] views[i]) is None,
    ensures
        declared_as_parts(rubric, ps),
{
    assert forall|i: int| 0 <= i < ps.len() implies ((#[trigger] rubric[i]).1 matches Some(s) && s@ == rendered(
        parts_view(ps[i]),
    ) && rubric_fault(parts_view(ps[i])) is None) by {
        assert(parts_view(ps[i]) == views[i]);
    }
}

/// The counterexample declaration's parts describe its views.
proof fn lemma_counter_views(ps: Seq<CaseParts>)
    requires
        counter_parts_is(ps),
    ensures
        forall|i: int| 0 <= i < 3 ==> parts_view(#[trigger] ps[i]) == counter_choice_views()[i],
{
    assert forall|i: int| 0 <= i < 3 implies parts_view(#[trigger] ps[i]) == counter_choice_views()[i] by {
        assert(parts_view(ps[i]).examples =~= counter_choice_views()[i].examples);
        assert(parts_view(ps[i]).counterexamples =~= counter_choice_views()[i].counterexamples);
    }
}

/// The counterexample choice's option table is what its parts render to.
proof fn lemma_counter_choice_declared(d: EnumDecl, t: ChoiceTable, ps: Seq<CaseParts>)
    requires
        spec_choice_counter_is(d),
        choice_expansion(d, Ok(t)),
        counter_parts_is(ps),
    ensures
        declared_as_parts(t.rubric@, ps),
{
    lemma_counter_choice_rows(d);
    lemma_views_fault_free();
    let views = counter_choice_views();
    assert forall|i: int| 0 <= i < ps.len() implies parts_view(#[trigger] ps[i]) == views[i] by {
        assert(parts_view(ps[i]).examples =~= views[i].examples);
        assert(parts_view(ps[i]).counterexamples =~= views[i].counterexamples);
    }
    assert forall|i: int| 0 <= i < ps.len() implies ((#[trigger] t.rubric@[i]).1 matches Some(s) && s@ == rendered(views[i])) by {
        assert(decl_rendered(d.variants@[i]) == Some(rendered(views[i])));
    }
    lemma_declared_as_parts(t.rubric@, ps, views);
}

/// The rubrics of the golden levels, low to high.
pub open spec fn level_views() -> Seq<RubricView> {
    seq![
        RubricView {
            what: "No impact to functionality"@,
            examples: seq!["typo in a label"@, "misaligned icon"@],
            counterexamples: seq![],
        },
        RubricView { what: "No workaround exists"@, examples: seq![], counterexamples: seq![] },
    ]
}

/// The rubrics of the golden nouls.
pub open spec fn noul_views() -> Seq<RubricView> {
    seq![
        RubricView {
            what: "Something is broken now and nobody can work around it"@,
            examples: seq!["the checkout page is down"@],
            counterexamples: seq!["a nightly job failed and the numbers are pulled by hand for now"@],
        },
        RubricView { what: "It can wait for the next working day"@, examples: seq![], counterexamples: seq![] },
    ]
}

/// The level and noul rubrics break no rule, and the parts describe them.
proof fn lemma_level_and_noul_rows(lps: Seq<CaseParts>, nps: Seq<CaseParts>)
    requires
        level_parts_is(lps),
        noul_parts_is(nps),
    ensures
        forall|i: int| 0 <= i < 2 ==> rubric_fault(#[trigger] level_views()[i]) is None,
        forall|i: int| 0 <= i < 2 ==> rubric_fault(#[trigger] noul_views()[i]) is None,
        forall|i: int| 0 <= i < 2 ==> parts_view(#[trigger] lps[i]) == level_views()[i],
        forall|i: int| 0 <= i < 2 ==> parts_view(#[trigger] nps[i]) == noul_views()[i],
{
    reveal_strlit("No impact to functionality");
    reveal_strlit("No workaround exists");
    reveal_strlit("typo in a label");
    reveal_strlit("misaligned icon");
    reveal_strlit("Something is broken now and nobody can work around it");
    reveal_strlit("the checkout page is down");
    reveal_strlit("a nightly job failed and the numbers are pulled by hand for now");
    reveal_strlit("It can wait for the next working day");
    assert("typo in a label"@[0] != "misaligned icon"@[0]);
    assert forall|i: int| 0 <= i < 2 implies rubric_fault(#[trigger] level_views()[i]) is None by {
        lemma_fault_free(level_views()[i]);
    }
    assert forall|i: int| 0 <= i < 2 implies rubric_fault(#[trigger] noul_views()[i]) is None by {
        lemma_fault_free(noul_views()[i]);
    }
    assert forall|i: int| 0 <= i < 2 implies parts_view(#[trigger] lps[i]) == level_views()[i] by {
        assert(parts_view(lps[i]).examples =~= level_views()[i].examples);
        assert(parts_view(lps[i]).counterexamples =~= level_views()[i].counterexamples);
    }
    assert forall|i: int| 0 <= i < 2 implies parts_view(#[trigger] nps[i]) == noul_views()[i] by {
        assert(parts_view(nps[i]).examples =~= noul_views()[i].examples);
        assert(parts_view(nps[i]).counterexamples =~= noul_views()[i].counterexamples);
    }
}

/// Golden case `c`: of this kind, written as this rubric, and rendered from it.
pub open spec fn golden_case(c: RubricCase, kind: Seq<char>, v: RubricView) -> bool {
    &&& c.kind@ == kind
    &&& c.what@ == v.what
    &&& texts(c.examples@) == v.examples
    &&& texts(c.counterexamples@) == v.counterexamples
    &&& c.rendered@ == rendered(v)
}

/// Golden case `i`: the three options of the counterexample declaration, then the two
/// levels, low to high, then the two noul rubrics.
pub open spec fn golden_case_at(c: RubricCase, i: int) -> bool {
    if i < 3 {
        golden_case(c, "choice"@, counter_choice_views()[i])
    } else if i < 5 {
        golden_case(c, "levels"@, level_views()[i - 3])
    } else {
        golden_case(c, "noul"@, noul_views()[i - 5])
    }
}

/// How many rubric cases [`rubric_cases`] publishes.
pub const EXPECTED_RUBRIC_CASES: usize = 7;

/// The rubric vector: every case rendered from a real declaration (or, for nouls, a runtime
/// rubric), each checked against the runtime rubric built from the same parts. The cases
/// are the counterexample choice's three options, the two levels and the two nouls, in that
/// order; a case with no examples and no counterexamples renders to its description.
pub fn rubric_cases() -> (r: Result<Vec<RubricCase>, Error>)
    ensures
        golden_keys_apart() ==> r is Ok,
        r matches Ok(cases) ==> {
            &&& cases@.len() == EXPECTED_RUBRIC_CASES
            &&& forall|i: int| 0 <= i < cases@.len() ==> golden_case_at(#[trigger] cases@[i], i) && case_holds(cases@[i])
            &&& forall|i: int|
                0 <= i < cases@.len() && (#[trigger] cases@[i]).examples@.len() == 0 && cases@[i].counterexamples@.len()
                    == 0 ==> cases@[i].rendered@ == cases@[i].what@
        },
{
    proof {
        reveal_strlit("choice");
        reveal_strlit("levels");
    }
    let mut out: Vec<RubricCase> = Vec::new();
    let counter_decl = spec_choice_counter();
    let counter_table = expand_choice(&counter_decl);
    proof {
        if golden_keys_apart() {
            lemma_counter_choice_ok(counter_decl);
        }
    }
    let counters = declared(counter_table)?;
    let second = counter_parts();
    let ghost second_parts = second@;
    proof {
        lemma_counter_choice_declared(counter_decl, counters, second_parts);
        lemma_counter_views(second_parts);
    }
    push_choice(&mut out, &counters.rubric, second)?;
    assert forall|i: int| 0 <= i < out@.len() implies golden_case_at(#[trigger] out@[i], i) && case_holds(out@[i]) by {
        assert(choice_case_at(out@, 0, i, second_parts, counters.rubric@));
        assert(out@[0 + i] == out@[i]);
        lemma_case_holds(out@[i], "choice"@, second_parts[i]);
        assert(parts_view(second_parts[i]) == counter_choice_views()[i]);
    }
    let level_decl = spec_level();
    proof {
        lemma_levels_ok(level_decl);
    }
    let levels = declared(expand_levels(&level_decl))?;
    let mut lparts = level_parts();
    let nparts_all = noul_parts();
    let ghost all_levels = lparts@;
    let ghost all_nouls = nparts_all@;
    proof {
        lemma_level_and_noul_rows(all_levels, all_nouls);
        assert(levels.levels@[0]@ == rendered(level_views()[0]));
        assert(levels.levels@[1]@ == rendered(level_views()[1]));
    }
    if levels.levels.len() != lparts.len() {
        return Err(Error::Config { detail: owned("the level grid and its enum disagree on length") });
    }
    let mut i: usize = 0;
    while i < levels.levels.len()
        invariant
            i <= levels.levels@.len(),
            lparts@.len() == levels.levels@.len() - i,
            levels.levels@.len() == 2,
            all_levels.len() == 2,
            lparts@ == all_levels.subrange(i as int, 2),
            out@.len() == 3 + i,
            forall|k: int| 0 <= k < 2 ==> rubric_fault(#[trigger] level_views()[k]) is None,
            forall|k: int| 0 <= k < 2 ==> parts_view(#[trigger] all_levels[k]) == level_views()[k],
            forall|k: int| 0 <= k < 2 ==> (#[trigger] levels.levels@[k])@ == rendered(level_views()[k]),
            forall|k: int| 0 <= k < out@.len() ==> golden_case_at(#[trigger] out@[k], k) && case_holds(out@[k]),
        decreases levels.levels@.len() - i,
    {
        let p = lparts.remove(0);
        assert(p == all_levels[i as int]);
        assert(lparts@ =~= all_levels.subrange(i + 1, 2));
        let ghost pv = p;
        let case = rubric_case("levels", p, levels.levels[i].as_str())?;
        proof {
            lemma_case_holds(case, "levels"@, pv);
            assert(golden_case_at(case, 3 + i));
        }
        out.push(case);
        i = i + 1;
    }
    let mut nparts = nparts_all;
    while nparts.len() > 0
        invariant
            nparts@.len() <= 2,
            all_nouls.len() == 2,
            nparts@ == all_nouls.subrange(2 - nparts@.len(), 2),
            out@.len() == 7 - nparts@.len(),
            forall|k: int| 0 <= k < 2 ==> rubric_fault(#[trigger] noul_views()[k]) is None,
            forall|k: int| 0 <= k < 2 ==> parts_view(#[trigger] all_nouls[k]) == noul_views()[k],
            forall|k: int| 0 <= k < out@.len() ==> golden_case_at(#[trigger] out@[k], k) && case_holds(out@[k]),
        decreases nparts@.len(),
    {
        let ghost at = 2 - nparts@.len();
        let p = nparts.remove(0);
        assert(p == all_nouls[at]);
        assert(nparts@ =~= all_nouls.subrange(at + 1, 2));
        let rendered_text = rubric(p.what.as_str(), &p.examples, &p.counterexamples).render()?;
        let case = RubricCase {
            kind: "noul",
            what: p.what,
            examples: p.examples,
            counterexamples: p.counterexamples,
            rendered: rendered_text,
        };
        assert(case_holds(case));
        assert(golden_case_at(case, 5 + at));
        out.push(case);
    }
    proof {
        assert forall|i: int|
            0 <= i < out@.len() && (#[trigger] out@[i]).examples@.len() == 0 && out@[i].counterexamples@.len() == 0
                implies out@[i].rendered@ == out@[i].what@ by {
            let v = RubricView {
                what: out@[i].what@,
                examples: texts(out@[i].examples@),
                counterexamples: texts(out@[i].counterexamples@),
            };
            assert(v.examples.len() == 0 && v.counterexamples.len() == 0);
            crate::rubric::law_a_rubric_with_no_parts_renders_to_itself(v);
        }
    }
    Ok(out)
}

} // verus!
