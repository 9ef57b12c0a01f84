//! What holds of the decision layer across inputs and across calls.

use vstd::prelude::*;

use crate::policy::{
    Outcome, Policy, Thresholds, Verdict, is_first_argmax, is_ranking, key_below, lemma_key_order, noul_verdict,
    or_default, ranked_before, ranking_witness, resolution, settled_min, settled_no, settled_yes, spec_over,
    valid_thresholds, well_shaped, whole_bits,
};
use crate::scalars::{Confidence, NEG_ZERO_BITS, Probability, magnitude, total_key};
use crate::client::{
    Attempt, ClientView, DEFAULT_BACKOFF, DEFAULT_RETRIES, MAX_RETRY_AFTER_SECS, NANOS_PER_SEC, Next, decides,
    header_text, throttled,
    JITTER_MS, MAX_BACKOFF, NANOS_PER_MILLI, all_digits, backoff_wait, delay, digits_value, is_digit,
    jitter_ms, retry_after_secs, unsigned_part, without_trailing_slashes,
};
use crate::declare::{
    ChoiceTable, Derive, EnumDecl, choice_expansion, counterexamples_of, decl_rendered, declaration_ok, examples_clash, examples_of,
    variant_ok, variant_rubric,
};
use crate::api::{Answer, QuestionId, id_text};
use crate::ask::{Ask, Plan, Reply, chained, extends, read_in_turn, settles};
use crate::error::{Error, Threshold};
use crate::guide::{Guide, GuideBuilderView, guide_builds, settled_reply};
use crate::question::{
    Choose, Fallible, Kind, Levels, Noul, Options, Question, Rank, Ranked, Score, Scored, band, is_unsure_error,
    keyed, keys_known, levels_known,
};
use crate::rubric::{RubricView, first_break_from, first_contradiction_from, rendered, rubric_fault};
use crate::text::{decimal, digit, has_line_break, is_white, lead, trail, trim};

verus! {

/// A verdict's place on the scale no < unsure < yes.
pub open spec fn verdict_rank(v: Verdict) -> int {
    match v {
        Verdict::No(_) => 0,
        Verdict::Unsure(_) => 1,
        Verdict::Yes(_) => 2,
    }
}

/// The empty patch.
pub open spec fn empty_policy() -> Policy {
    Policy { yes_above: None, no_below: None, min_confidence: None }
}

/// A noul answer is unsure exactly inside the open band between `no_below` and `yes_above`.
pub proof fn law_noul_unsure_exactly_inside_the_open_band(p: Probability, t: Thresholds)
    requires
        valid_thresholds(t.yes_bits(), t.no_bits(), t.min_bits()),
    ensures
        noul_verdict(p, t) is Unsure <==> magnitude(t.no_bits()) < magnitude(p.bits())
            < magnitude(t.yes_bits()),
        noul_verdict(p, t) is Yes <==> magnitude(p.bits()) >= magnitude(t.yes_bits()),
        noul_verdict(p, t) is No <==> magnitude(p.bits()) <= magnitude(t.no_bits())
            && magnitude(p.bits()) < magnitude(t.yes_bits()),
{
}

/// A higher probability never gets a lower verdict.
pub proof fn law_noul_verdict_is_monotone_in_probability(
    p1: Probability,
    p2: Probability,
    t: Thresholds,
)
    requires
        magnitude(p1.bits()) <= magnitude(p2.bits()),
    ensures
        verdict_rank(noul_verdict(p1, t)) <= verdict_rank(noul_verdict(p2, t)),
{
}

/// Raising either threshold never raises the verdict.
pub proof fn law_noul_verdict_is_antitone_in_thresholds(
    p: Probability,
    t1: Thresholds,
    t2: Thresholds,
)
    requires
        magnitude(t1.yes_bits()) <= magnitude(t2.yes_bits()),
        magnitude(t1.no_bits()) <= magnitude(t2.no_bits()),
        valid_thresholds(t1.yes_bits(), t1.no_bits(), t1.min_bits()),
        valid_thresholds(t2.yes_bits(), t2.no_bits(), t2.min_bits()),
    ensures
        verdict_rank(noul_verdict(p, t1)) >= verdict_rank(noul_verdict(p, t2)),
{
}

/// A ranking lists every entry once, by descending probability, and entries of equal
/// probability in key order.
pub proof fn law_ranking_is_descending_and_complete(
    ranked: Seq<(String, Probability)>,
    entries: Seq<(String, Probability)>,
)
    requires
        is_ranking(ranked, entries),
    ensures
        ranked.len() == entries.len(),
        forall|k: int, l: int|
            0 <= k < l < ranked.len() ==> total_key((#[trigger] ranked[k]).1.bits()) >= total_key(
                (#[trigger] ranked[l]).1.bits(),
            ),
        forall|k: int, l: int|
            0 <= k < l < ranked.len() && total_key((#[trigger] ranked[k]).1.bits()) == total_key(
                (#[trigger] ranked[l]).1.bits(),
            ) ==> !key_below(ranked[l].0@, ranked[k].0@),
        forall|k: int| 0 <= k < ranked.len() ==> entries.contains(#[trigger] ranked[k]),
{
    let pi = choose|pi: Seq<int>| ranking_witness(ranked, entries, pi);
    assert forall|k: int, l: int| 0 <= k < l < ranked.len() implies total_key(
        (#[trigger] ranked[k]).1.bits(),
    ) >= total_key((#[trigger] ranked[l]).1.bits()) && (total_key(ranked[k].1.bits()) == total_key(
        ranked[l].1.bits(),
    ) ==> !key_below(ranked[l].0@, ranked[k].0@)) by {
        assert(ranked_before(ranked[k], ranked[l], pi[k], pi[l]));
        lemma_key_order(ranked[k].0@, ranked[l].0@, ranked[k].0@);
    }
    assert forall|k: int| 0 <= k < ranked.len() implies entries.contains(#[trigger] ranked[k]) by {
        assert(0 <= pi[k] < entries.len() && ranked[k] == entries[pi[k]]);
    }
}

/// The empty patch changes nothing, on either side of `over`.
pub proof fn law_empty_patch_is_neutral(p: Policy)
    ensures
        spec_over(p, empty_policy()) == p,
        spec_over(empty_policy(), p) == p,
{
}

/// Patching is associative: a question over (a guide over a house policy) is (a question over
/// a guide) over the house policy.
pub proof fn law_patching_is_associative(a: Policy, b: Policy, c: Policy)
    ensures
        spec_over(a, spec_over(b, c)) == spec_over(spec_over(a, b), c),
{
}

/// Precedence: a setting on the question wins over the guide's, which wins over the default.
pub proof fn law_question_over_guide_over_defaults(question: Policy, guide: Policy)
    ensures
        settled_yes(spec_over(question, guide)) == or_default(
            question.yes_above,
            or_default(guide.yes_above, settled_yes(empty_policy())),
        ),
        settled_no(spec_over(question, guide)) == or_default(
            question.no_below,
            or_default(guide.no_below, settled_no(empty_policy())),
        ),
        settled_min(spec_over(question, guide)) == or_default(
            question.min_confidence,
            or_default(guide.min_confidence, settled_min(empty_policy())),
        ),
{
}

/// The unsure ladder of a choice: the question's `.or` value wins; without one, the enum's
/// fallback; without either, [`Error::Unsure`] naming the question, the confidence and
/// `min_confidence`.
pub proof fn law_an_unsure_choice_takes_or_then_fallback_then_fails<C: Options>(
    q: Choose<C>,
    id: Seq<char>,
    key: String,
    confidence: Confidence,
    ranked: Vec<(String, Probability)>,
    t: Thresholds,
    or: Option<C>,
    r: Result<C, Error>,
)
    requires
        q.reads(id, Outcome::Choice { key, confidence, unsure: true, ranked }, t, or, r),
        ranked@.len() == q.option_list().len(),
        keys_known::<C>(q.option_list(), key@, ranked@),
    ensures
        or matches Some(v) ==> r == Ok::<C, Error>(v),
        or is None && C::fallback_variant() is Some ==> r == Ok::<C, Error>(C::fallback_variant()->Some_0),
        or is None && C::fallback_variant() is None ==> (r matches Err(e) && is_unsure_error(
            e,
            id,
            confidence.bits(),
            Threshold::Floor(t.min_bits()),
        )),
{
}

/// The unsure ladder of a score: the question's `.or` value wins; without one,
/// [`Error::Unsure`]. Levels have no fallback.
pub proof fn law_an_unsure_score_takes_or_then_fails<L: Levels>(
    q: Score<L>,
    id: Seq<char>,
    index: usize,
    value: u64,
    confidence: Confidence,
    distribution: Vec<Probability>,
    legend: Vec<String>,
    t: Thresholds,
    or: Option<L>,
    r: Result<L, Error>,
)
    requires
        q.reads(id, Outcome::Score { index, value, confidence, unsure: true, distribution, legend }, t, or, r),
        distribution@.len() == q.level_list().len(),
        levels_known::<L>(index as int, distribution@.len() as int),
    ensures
        or matches Some(v) ==> r == Ok::<L, Error>(v),
        or is None ==> (r matches Err(e) && is_unsure_error(
            e,
            id,
            confidence.bits(),
            Threshold::Floor(t.min_bits()),
        )),
{
}

/// The unsure ladder of a noul: the question's `.or` value wins; without one,
/// [`Error::Unsure`] naming the probability and the band it fell inside.
pub proof fn law_an_unsure_noul_takes_or_then_fails(
    q: Noul,
    id: Seq<char>,
    p: Probability,
    t: Thresholds,
    or: Option<bool>,
    r: Result<bool, Error>,
)
    requires
        q.reads(id, Outcome::Noul(Verdict::Unsure(p)), t, or, r),
    ensures
        or matches Some(v) ==> r == Ok::<bool, Error>(v),
        or is None ==> (r matches Err(e) && is_unsure_error(e, id, p.bits(), band(t))),
{
}

/// `.detail()` never fails on an unsure answer: a well-formed choice outcome reads in full
/// whatever its confidence, and reports whether it was unsure.
pub proof fn law_a_detailed_choice_never_fails_for_being_unsure<C: Options>(
    q: Choose<C>,
    id: Seq<char>,
    key: String,
    confidence: Confidence,
    unsure: bool,
    ranked: Vec<(String, Probability)>,
    t: Thresholds,
    r: Result<Ranked<C>, Error>,
)
    requires
        q.reads_detail(id, Outcome::Choice { key, confidence, unsure, ranked }, t, r),
        ranked@.len() == q.option_list().len(),
        keys_known::<C>(q.option_list(), key@, ranked@),
    ensures
        r matches Ok(rk) && rk.unsure == unsure && rk.confidence == confidence && keyed::<C>(key@, rk.choice),
{
}

/// `.detail()` never fails on an unsure answer: a well-formed score outcome reads in full
/// whatever its confidence, and reports whether it was unsure.
pub proof fn law_a_detailed_score_never_fails_for_being_unsure<L: Levels>(
    q: Score<L>,
    id: Seq<char>,
    index: usize,
    value: u64,
    confidence: Confidence,
    unsure: bool,
    distribution: Vec<Probability>,
    legend: Vec<String>,
    t: Thresholds,
    r: Result<Scored<L>, Error>,
)
    requires
        q.reads_detail(id, Outcome::Score { index, value, confidence, unsure, distribution, legend }, t, r),
        distribution@.len() == q.level_list().len(),
        levels_known::<L>(index as int, distribution@.len() as int),
    ensures
        r matches Ok(sc) && sc.unsure == unsure && sc.confidence == confidence && sc.value == value,
{
}

/// `.detail()` never fails on a noul: every verdict, unsure included, reads as itself.
pub proof fn law_a_detailed_noul_never_fails(q: Noul, id: Seq<char>, v: Verdict, t: Thresholds, r: Result<Verdict, Error>)
    requires
        q.reads_detail(id, Outcome::Noul(v), t, r),
    ensures
        r == Ok::<Verdict, Error>(v),
{
}

/// No item from `i` on holds a line break, so there is no first one.
proof fn lemma_no_break_from(items: Seq<Seq<char>>, i: int)
    requires
        0 <= i,
        forall|k: int| i <= k < items.len() ==> !has_line_break(#[trigger] items[k]),
    ensures
        first_break_from(items, i) is None,
    decreases items.len() - i,
{
    if i < items.len() {
        lemma_no_break_from(items, i + 1);
    }
}

/// No example from `i` on is a counterexample, so there is no first one.
proof fn lemma_no_contradiction_from(examples: Seq<Seq<char>>, counterexamples: Seq<Seq<char>>, i: int)
    requires
        0 <= i,
        forall|k: int| i <= k < examples.len() ==> !counterexamples.contains(#[trigger] examples[k]),
    ensures
        first_contradiction_from(examples, counterexamples, i) is None,
    decreases examples.len() - i,
{
    if i < examples.len() {
        lemma_no_contradiction_from(examples, counterexamples, i + 1);
    }
}

/// A declaration the derives accept gives rubrics the runtime accepts: every variant with a
/// rubric breaks no rubric rule, and renders exactly as a runtime rubric of the same parts.
pub proof fn law_an_accepted_declaration_breaks_no_rubric_rule(decl: EnumDecl, d: Derive, i: int)
    requires
        declaration_ok(decl, d),
        0 <= i < decl.variants@.len(),
        variant_rubric(decl.variants@[i]) is Some,
    ensures
        ({
            let dv = decl.variants@[i];
            let view = RubricView {
                what: variant_rubric(dv)->Some_0,
                examples: examples_of(dv.attrs@),
                counterexamples: counterexamples_of(dv.attrs@),
            };
            rubric_fault(view) is None && decl_rendered(dv) == Some(rendered(view))
        }),
{
    let dv = decl.variants@[i];
    assert(variant_ok(dv, d));
    let ex = examples_of(dv.attrs@);
    let cx = counterexamples_of(dv.attrs@);
    lemma_no_break_from(ex, 0);
    lemma_no_break_from(cx, 0);
    assert forall|k: int| 0 <= k < ex.len() implies !cx.contains(#[trigger] ex[k]) by {
        if cx.contains(ex[k]) {
            assert(ex.contains(ex[k]));
            assert(examples_of(decl.variants@[i].attrs@).contains(ex[k]));
            assert(examples_clash(decl.variants@));
        }
    }
    lemma_no_contradiction_from(ex, cx, 0);
}

/// Dropping trailing slashes twice is dropping them once: a base URL is normalised once.
pub proof fn law_a_normalised_base_url_stays_normalised(url: Seq<char>)
    ensures
        without_trailing_slashes(without_trailing_slashes(url)) == without_trailing_slashes(url),
        without_trailing_slashes(url).len() == 0 || without_trailing_slashes(url).last() != '/',
    decreases url.len(),
{
    if url.len() > 0 && url.last() == '/' {
        law_a_normalised_base_url_stays_normalised(url.drop_last());
    }
}

/// The wait before a retry is never more than 30 s plus 250 ms of jitter, and never less
/// than the exponential part.
pub proof fn law_a_backoff_wait_is_capped(backoff: u128, attempt: u32, entropy: u64)
    ensures
        backoff_wait(backoff, attempt) <= delay(backoff, attempt, entropy),
        delay(backoff, attempt, entropy) <= MAX_BACKOFF + JITTER_MS * NANOS_PER_MILLI,
        0 <= jitter_ms(entropy) <= JITTER_MS,
{
    assert(0 <= (entropy as int) % (JITTER_MS as int + 1) <= JITTER_MS as int);
}

/// A decimal digit is a digit, worth its value.
proof fn lemma_digit(d: nat)
    requires
        d < 10,
    ensures
        is_digit(digit(d)),
        !is_white(digit(d)),
        digit(d) != '+',
        (digit(d) as int) - ('0' as int) == d,
{
}

/// The decimal text of `n` is a non-empty run of digits worth `n`.
proof fn lemma_decimal_digits(n: nat)
    ensures
        decimal(n).len() > 0,
        all_digits(decimal(n)),
        digits_value(decimal(n)) == n,
        forall|i: int| 0 <= i < decimal(n).len() ==> !is_white(#[trigger] decimal(n)[i]) && decimal(n)[i] != '+',
    decreases n,
{
    if n < 10 {
        lemma_digit(n);
        assert(decimal(n) == seq![digit(n)]);
        assert(decimal(n).drop_last() =~= Seq::<char>::empty());
        assert(digits_value(Seq::<char>::empty()) == 0);
    } else {
        lemma_decimal_digits(n / 10);
        lemma_digit(n % 10);
        let s = decimal(n);
        assert(s == decimal(n / 10) + seq![digit(n % 10)]);
        assert(s.drop_last() =~= decimal(n / 10));
        assert(s.last() == digit(n % 10));
        assert((n / 10) * 10 + n % 10 == n) by (nonlinear_arith);
        assert forall|i: int| 0 <= i < s.len() implies is_digit(#[trigger] s[i]) && !is_white(s[i]) && s[i] != '+' by {
            if i < s.len() - 1 {
                assert(s[i] == decimal(n / 10)[i]);
            }
        }
    }
}

/// Text that neither starts nor ends with whitespace trims to itself.
proof fn lemma_trim_nothing(s: Seq<char>)
    requires
        s.len() > 0,
        !is_white(s[0]),
        !is_white(s[s.len() - 1]),
    ensures
        trim(s) == s,
{
    assert(lead(s, 0) == 0);
    assert(trail(s, s.len() as int) == s.len());
    assert(s.subrange(0, s.len() as int) =~= s);
}

/// A `retry-after` of whole seconds, written in decimal, reads back as exactly those seconds.
pub proof fn law_a_decimal_retry_after_reads_back(n: u64)
    ensures
        retry_after_secs(Some(decimal(n as nat))) == Some(n),
{
    let s = decimal(n as nat);
    lemma_decimal_digits(n as nat);
    lemma_trim_nothing(s);
    assert(unsigned_part(s) == s);
}

/// `plan` holds question `q` at position `at`: its wire form, under thresholds settled from
/// the question's own policy over the guide policy `base`.
pub open spec fn holds_question<K: Kind>(plan: Plan, at: int, q: Question<K>, base: Policy) -> bool {
    let p = spec_over(q.policy_of(), base);
    &&& 0 <= at < plan.len()
    &&& q.kind_of().wires(q.instructions_of(), Ok(plan.question_at(at)))
    &&& plan.thresholds_at(at).yes_bits() == settled_yes(p)
    &&& plan.thresholds_at(at).no_bits() == settled_no(p)
    &&& plan.thresholds_at(at).min_bits() == settled_min(p)
}

proof fn lemma_planned_prefix<K: Kind>(
    qs: Seq<Question<K>>,
    plans: Seq<Plan>,
    claims: Seq<(usize, K, Option<K::Out>)>,
    m: int,
)
    requires
        chained(qs, plans, claims),
        0 <= m <= qs.len(),
    ensures
        plans[m].len() == plans[0].len() + m,
        extends(plans[m], plans[0]),
        forall|i: int| 0 <= i < m ==> #[trigger] claims[i].0 == plans[0].len() + i,
        forall|i: int| 0 <= i < m ==> holds_question(plans[m], plans[0].len() + i, #[trigger] qs[i], plans[0].base()),
    decreases m,
{
    if m > 0 {
        lemma_planned_prefix(qs, plans, claims, m - 1);
        let prev = plans[m - 1];
        let next = plans[m];
        assert(qs[m - 1].encoded(prev, next, Ok(claims[m - 1])));
        assert forall|i: int| 0 <= i < m implies holds_question(next, plans[0].len() + i, #[trigger] qs[i], plans[0].base()) by {
            if i < m - 1 {
                assert(holds_question(prev, plans[0].len() + i, qs[i], plans[0].base()));
            }
        }
    }
}

/// A batch of questions is planned in order: question `i` of the batch takes the `i`-th free
/// position of the plan, in its wire form, under thresholds settled from its own policy over
/// the guide's, and what was planned before stays.
pub proof fn law_a_batch_plans_its_questions_in_order<K: Kind>(
    qs: Vec<Question<K>>,
    before: Plan,
    after: Plan,
    claims: Vec<(usize, K, Option<K::Out>)>,
)
    requires
        qs.encoded(before, after, Ok(claims)),
    ensures
        after.len() == before.len() + qs@.len(),
        extends(after, before),
        claims@.len() == qs@.len(),
        forall|i: int| 0 <= i < qs@.len() ==> #[trigger] claims@[i].0 == before.len() + i,
        forall|i: int| 0 <= i < qs@.len() ==> holds_question(after, before.len() + i, #[trigger] qs@[i], before.base()),
{
    let plans = choose|plans: Seq<Plan>|
        #[trigger] chained(qs@, plans, claims@) && plans[0] == before && plans[qs@.len() as int] == after;
    lemma_planned_prefix(qs@, plans, claims@, qs@.len() as int);
}

/// Question `i`'s claim in a batch read from the settled answers: what settling the answer
/// with id `q{i}` gave, read by the question's kind.
pub open spec fn reads_answer<K: Kind>(
    claim: (usize, K, Option<K::Out>),
    i: int,
    thresholds: Seq<Thresholds>,
    answers: Seq<(QuestionId, Answer)>,
    out: K::Out,
) -> bool {
    exists|o: Outcome, t: Thresholds|
        settles(thresholds, i, answers, Ok((o, t))) && #[trigger] claim.1.reads(id_text(i as nat), o, t, claim.2, Ok(out))
}

proof fn lemma_untaken<K: Kind>(
    claims: Seq<(usize, K, Option<K::Out>)>,
    replies: Seq<Reply>,
    outs: Seq<K::Out>,
    j: int,
)
    requires
        read_in_turn::<Question<K>>(claims, replies, outs),
        forall|i: int| 0 <= i < claims.len() ==> #[trigger] claims[i].0 == i,
        0 <= j <= claims.len(),
    ensures
        forall|i: int| j <= i ==> #[trigger] replies[j].slot(i) == replies[0].slot(i),
    decreases j,
{
    if j > 0 {
        lemma_untaken(claims, replies, outs, j - 1);
        assert(Question::<K>::decoded(claims[j - 1], replies[j - 1], replies[j], Ok(outs[j - 1])));
        assert(claims[j - 1].0 == j - 1);
    }
}

/// The answers of a batch go back in the order its questions went out: when question `i`
/// was asked as `q{i}`, it reads what settling the answer with id `q{i}` gave, under its own
/// thresholds, and nothing else.
pub proof fn law_question_i_of_a_batch_reads_the_answer_qi<K: Kind>(
    claims: Vec<(usize, K, Option<K::Out>)>,
    full: Reply,
    after: Reply,
    outs: Vec<K::Out>,
    thresholds: Seq<Thresholds>,
    answers: Seq<(QuestionId, Answer)>,
)
    requires
        forall|i: int| 0 <= i < claims@.len() ==> #[trigger] claims@[i].0 == i,
        settled_reply(full, thresholds, answers),
        Vec::<Question<K>>::decoded(claims, full, after, Ok(outs)),
    ensures
        outs@.len() == claims@.len(),
        forall|i: int|
            0 <= i < claims@.len() ==> #[trigger] reads_answer(claims@[i], i, thresholds, answers, outs@[i]),
{
    let replies = choose|replies: Seq<Reply>|
        #[trigger] read_in_turn::<Question<K>>(claims@, replies, outs@) && replies[0] == full
            && replies[claims@.len() as int] == after;
    assert forall|i: int| 0 <= i < claims@.len() implies #[trigger] reads_answer(
        claims@[i],
        i,
        thresholds,
        answers,
        outs@[i],
    ) by {
        lemma_untaken(claims@, replies, outs@, i);
        assert(replies[i].slot(i) == full.slot(i));
        assert(Question::<K>::decoded(claims@[i], replies[i], replies[i + 1], Ok(outs@[i])));
        assert(claims@[i].0 == i);
        full.lemma_slot_in_range(i);
        let (o, t) = full.slot(i)->Some_0;
        assert(settles(thresholds, i, answers, Ok((o, t))));
        assert(claims@[i].1.reads(id_text(i as nat), o, t, claims@[i].2, Ok(outs@[i])));
    }
}

/// One batch, out and back: in a batch planned from an empty plan, question `i` goes out at
/// position `i` (the request names it `q{i}`) and reads what settling the answer with id
/// `q{i}` gave under its own thresholds.
pub proof fn law_question_i_of_a_batch_goes_out_and_comes_back_as_qi<K: Kind>(
    qs: Vec<Question<K>>,
    start: Plan,
    planned: Plan,
    claims: Vec<(usize, K, Option<K::Out>)>,
    full: Reply,
    after: Reply,
    outs: Vec<K::Out>,
    thresholds: Seq<Thresholds>,
    answers: Seq<(QuestionId, Answer)>,
)
    requires
        start.len() == 0,
        qs.encoded(start, planned, Ok(claims)),
        settled_reply(full, thresholds, answers),
        Vec::<Question<K>>::decoded(claims, full, after, Ok(outs)),
    ensures
        planned.len() == qs@.len(),
        outs@.len() == qs@.len(),
        forall|i: int| 0 <= i < qs@.len() ==> holds_question(planned, i, #[trigger] qs@[i], start.base()),
        forall|i: int| 0 <= i < qs@.len() ==> #[trigger] reads_answer(claims@[i], i, thresholds, answers, outs@[i]),
{
    law_a_batch_plans_its_questions_in_order(qs, start, planned, claims);
    law_question_i_of_a_batch_reads_the_answer_qi(claims, full, after, outs, thresholds, answers);
}

/// The option keys of an accepted `Choice` declaration tell its options apart: a key names
/// one option, so reading an option back by its key finds the same option.
pub proof fn law_each_option_key_of_an_accepted_choice_names_one_option(decl: EnumDecl, table: ChoiceTable)
    requires
        choice_expansion(decl, Ok(table)),
    ensures
        forall|i: int, j: int|
            0 <= i < table.rubric@.len() && 0 <= j < table.rubric@.len() && (#[trigger] table.rubric@[i]).0@
                == (#[trigger] table.rubric@[j]).0@ ==> i == j,
{
    let vs = decl.variants@;
    assert forall|i: int, j: int|
        0 <= i < table.rubric@.len() && 0 <= j < table.rubric@.len() && (#[trigger] table.rubric@[i]).0@
            == (#[trigger] table.rubric@[j]).0@ implies i == j by {
        if i < j {
            assert(crate::declare::decl_key(vs[i]) != crate::declare::decl_key(vs[j]));
        } else if j < i {
            assert(crate::declare::decl_key(vs[j]) != crate::declare::decl_key(vs[i]));
        }
    }
}

/// `max_retries` counts retries: while every attempt is throttled (with no `retry-after`
/// over 30 s), attempts `0` to `max_retries - 1` are each followed by another, and attempt
/// `max_retries` fails, so a call sends `max_retries + 1` requests; `0` sends one.
pub proof fn law_a_throttled_call_sends_max_retries_plus_one_requests(
    c: ClientView,
    attempt: u32,
    got: Attempt,
    entropy: u64,
    r: Next,
)
    requires
        attempt <= c.max_retries,
        got matches Attempt::Response { status, retry_after } && throttled(status) && !(retry_after_secs(
            header_text(retry_after),
        ) matches Some(s) && s > MAX_RETRY_AFTER_SECS),
        decides(c, attempt, got, entropy, r),
    ensures
        r is Retry <==> attempt < c.max_retries,
        attempt == c.max_retries ==> r is Fail,
{
}

/// 2 to the power `e`.
pub open spec fn two_to(e: nat) -> nat
    decreases e,
{
    if e == 0 {
        1
    } else {
        2 * two_to((e - 1) as nat)
    }
}

/// The position of the highest set bit of a positive whole number.
pub open spec fn top_bit(k: nat) -> nat
    decreases k,
{
    if k <= 1 {
        0
    } else {
        1 + top_bit(k / 2)
    }
}

/// The IEEE 754 binary64 pattern of a positive whole number below 2^53: sign 0, biased
/// exponent `1023 + e` where `2^e` is its top bit, and the bits below the top bit, shifted up
/// to fill the 52-bit fraction.
pub open spec fn binary64_of(k: nat) -> int {
    let e = top_bit(k);
    (1023 + e) * two_to(52) + (k - two_to(e)) * two_to((52 - e) as nat)
}

proof fn lemma_two_to_52()
    ensures
        two_to(52) == 0x10_0000_0000_0000,
        two_to(51) == 0x8_0000_0000_0000,
        two_to(50) == 0x4_0000_0000_0000,
        two_to(49) == 0x2_0000_0000_0000,
        two_to(0) == 1,
        two_to(1) == 2,
        two_to(2) == 4,
        two_to(3) == 8,
{
    reveal_with_fuel(two_to, 53);
}

/// The top of a score's range is the number it says: the pattern of level `k` is the binary64
/// pattern of the whole number `k`, for every `k` a score can reach.
pub proof fn law_a_whole_level_has_the_binary64_pattern_of_its_number(k: int)
    requires
        1 <= k <= 9,
    ensures
        whole_bits(k) == binary64_of(k as nat),
{
    lemma_two_to_52();
    reveal_with_fuel(top_bit, 5);
    assert(top_bit(1) == 0);
    assert(top_bit(2) == 1);
    assert(top_bit(3) == 1);
    assert(top_bit(4) == 2);
    assert(top_bit(5) == 2);
    assert(top_bit(6) == 2);
    assert(top_bit(7) == 2);
    assert(top_bit(8) == 3);
    assert(top_bit(9) == 3);
    if k == 1 {
        assert(top_bit(1) == 0);
        assert(binary64_of(1) == (1023 + 0) * 0x10_0000_0000_0000 + (1 - 1) * two_to(52));
    } else if k == 2 {
        assert(top_bit(2) == 1);
        assert(binary64_of(2) == (1023 + 1) * 0x10_0000_0000_0000 + (2 - 2) * two_to(51));
    } else if k == 3 {
        assert(top_bit(3) == 1);
        assert(binary64_of(3) == (1023 + 1) * 0x10_0000_0000_0000 + (3 - 2) * two_to(51));
    } else if k == 4 {
        assert(top_bit(4) == 2);
        assert(binary64_of(4) == (1023 + 2) * 0x10_0000_0000_0000 + (4 - 4) * two_to(50));
    } else if k == 5 {
        assert(top_bit(5) == 2);
        assert(binary64_of(5) == (1023 + 2) * 0x10_0000_0000_0000 + (5 - 4) * two_to(50));
    } else if k == 6 {
        assert(top_bit(6) == 2);
        assert(binary64_of(6) == (1023 + 2) * 0x10_0000_0000_0000 + (6 - 4) * two_to(50));
    } else if k == 7 {
        assert(top_bit(7) == 2);
        assert(binary64_of(7) == (1023 + 2) * 0x10_0000_0000_0000 + (7 - 4) * two_to(50));
    } else if k == 8 {
        assert(top_bit(8) == 3);
        assert(binary64_of(8) == (1023 + 3) * 0x10_0000_0000_0000 + (8 - 8) * two_to(49));
    } else if k == 9 {
        assert(top_bit(9) == 3);
        assert(binary64_of(9) == (1023 + 3) * 0x10_0000_0000_0000 + (9 - 8) * two_to(49));
    }
}

/// A score answer whose levels are well formed is accepted whenever its expected value lies
/// in `0..=n-1` for its `n` levels: a non-negative binary64 number is at most another exactly
/// when its pattern is, so the test is on the pattern of the whole number `n - 1`.
pub proof fn law_a_score_inside_its_levels_resolves(answer: Answer, t: Thresholds, r: Result<Outcome, Error>)
    requires
        answer matches Answer::Score { score, legend, probabilities, .. } && well_shaped(legend@, probabilities@)
            && (score == NEG_ZERO_BITS || score <= binary64_of((legend@.len() - 1) as nat)),
        resolution(answer, t, r),
    ensures
        r is Ok,
{
    if let Answer::Score { score, legend, probabilities, .. } = answer {
        law_a_whole_level_has_the_binary64_pattern_of_its_number(legend@.len() - 1);
    }
}

/// A score over runtime levels reads back as the position of the level the answer finds most
/// likely (the first of equals), counting from 0, when it is not unsure.
pub proof fn law_a_runtime_score_reads_the_first_most_likely_position(
    k: Score<Rank>,
    id: Seq<char>,
    answer: Answer,
    t: Thresholds,
    o: Outcome,
    or: Option<Rank>,
    rank: Rank,
)
    requires
        resolution(answer, t, Ok(o)),
        o matches Outcome::Score { unsure, .. } && !unsure,
        k.reads(id, o, t, or, Ok(rank)),
    ensures
        answer matches Answer::Score { probabilities, .. } && is_first_argmax(probabilities@, rank.0 as int),
{
}

/// A guide built from its own settings hands them to its client: `max_retries`, `backoff`
/// and the API key as given, and the defaults (3 retries, 500 ms) where none was given.
pub proof fn law_a_guide_client_keeps_the_retry_settings(b: GuideBuilderView, g: Guide)
    requires
        b.client is None,
        guide_builds(b, Ok(g)),
    ensures
        g@.client.max_retries == match b.max_retries {
            Some(n) => n,
            None => DEFAULT_RETRIES,
        },
        g@.client.backoff == match b.backoff {
            Some(d) => d,
            None => DEFAULT_BACKOFF,
        },
        b.api_key matches Some(key) && g@.client.api_key == key,
{
}

/// A throttle that says how long to wait is waited out: for `429` and `529` alike, a
/// `retry-after` of `s` seconds, `s` at most 30, on an attempt with retries left is retried
/// after exactly `s` seconds.
pub proof fn law_a_throttle_waits_the_retry_after_it_names(
    c: ClientView,
    attempt: u32,
    status: u16,
    header: String,
    s: u64,
    entropy: u64,
    r: Next,
)
    requires
        status == 429 || status == 529,
        header@ == decimal(s as nat),
        s <= 30,
        attempt < c.max_retries,
        decides(c, attempt, (Attempt::Response { status, retry_after: Some(header) }), entropy, r),
    ensures
        r matches Next::Retry { wait } && wait == s * 1_000_000_000,
{
    law_a_decimal_retry_after_reads_back(s);
}

} // verus!
