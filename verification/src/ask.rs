//! A question *shape* is anything a guide can answer in one request: a single question, a
//! tuple of shapes, or a `Vec` of shapes. Questions get the ids `q0`, `q1`, ... in the order
//! the shape is read.

use vstd::prelude::*;

use crate::api::{self, Answer, QuestionId, id_text};
use crate::error::Error;
use crate::policy::{
    Outcome, Policy, Thresholds, resolution, resolve, settled_min, settled_no, settled_yes,
    spec_over, valid_thresholds,
};
use crate::question::{Kind, Question};
use crate::sealed::Sealed;
use crate::text::owned;
use vstd::string::StringExecFns;

verus! {

/// Questions accumulated for one request, with each one's settled thresholds. The `i`-th
/// question added has the id `q{i}`.
pub struct Plan {
    base: Policy,
    entries: Vec<(api::Question, Thresholds)>,
}

impl Plan {
    /// The guide's policy, under every question's own patch.
    pub closed spec fn base(&self) -> Policy {
        self.base
    }

    /// How many questions the plan holds.
    pub closed spec fn len(&self) -> nat {
        self.entries@.len()
    }

    /// The wire form of question `i`.
    pub closed spec fn question_at(&self, i: int) -> api::Question {
        self.entries@[i].0
    }

    /// The settled thresholds of question `i`.
    pub closed spec fn thresholds_at(&self, i: int) -> Thresholds {
        self.entries@[i].1
    }

    /// An empty plan under a guide policy.
    pub fn new(base: Policy) -> (p: Plan)
        ensures
            p.len() == 0,
            p.base() == base,
    {
        Plan { base, entries: Vec::new() }
    }

    /// How many questions the plan holds.
    pub fn count(&self) -> (n: usize)
        ensures
            n == self.len(),
    {
        self.entries.len()
    }

    /// Add a question with its own policy patch, settled over the guide's. Returns its
    /// position; a patch that does not settle is [`Error::Config`] and leaves the plan as it
    /// was.
    pub fn push(&mut self, question: api::Question, policy: Policy) -> (r: Result<usize, Error>)
        ensures
            extends(*final(self), *old(self)),
            match r {
                Ok(n) => {
                    let p = spec_over(policy, old(self).base());
                    &&& n == old(self).len()
                    &&& final(self).len() == old(self).len() + 1
                    &&& final(self).question_at(n as int) == question
                    &&& final(self).thresholds_at(n as int).yes_bits() == settled_yes(p)
                    &&& final(self).thresholds_at(n as int).no_bits() == settled_no(p)
                    &&& final(self).thresholds_at(n as int).min_bits() == settled_min(p)
                },
                Err(e) => {
                    let p = spec_over(policy, old(self).base());
                    &&& e is Config
                    &&& !valid_thresholds(settled_yes(p), settled_no(p), settled_min(p))
                    &&& *final(self) == *old(self)
                },
            },
    {
        let t = match policy.over(self.base).settle() {
            Ok(t) => t,
            Err(e) => return Err(e),
        };
        let n = self.entries.len();
        self.entries.push((question, t));
        Ok(n)
    }

    /// The questions with their ids, `q0`, `q1`, ... in the order they were added, and the
    /// settled thresholds, in the same order.
    pub fn into_parts(self) -> (r: (Vec<(QuestionId, api::Question)>, Vec<Thresholds>))
        ensures
            r.0@.len() == self.len(),
            r.1@.len() == self.len(),
            forall|i: int|
                0 <= i < r.0@.len() ==> (#[trigger] r.0@[i]).0@ == id_text(i as nat) && r.0@[i].1
                    == self.question_at(i),
            forall|i: int| 0 <= i < r.1@.len() ==> #[trigger] r.1@[i] == self.thresholds_at(i),
    {
        let mut thresholds: Vec<Thresholds> = Vec::new();
        let mut j: usize = 0;
        while j < self.entries.len()
            invariant
                j <= self.entries@.len(),
                thresholds@.len() == j,
                forall|i: int| 0 <= i < j ==> #[trigger] thresholds@[i] == self.entries@[i].1,
            decreases self.entries@.len() - j,
        {
            thresholds.push(self.entries[j].1);
            j = j + 1;
        }
        let ghost all = self.entries@.map_values(|e: (api::Question, Thresholds)| e.0);
        let n = self.entries.len();
        let mut entries = self.entries;
        let mut backwards: Vec<api::Question> = Vec::new();
        let ghost src = entries@;
        while entries.len() > 0
            invariant
                entries@.len() + backwards@.len() == n,
                n == src.len(),
                all == src.map_values(|e: (api::Question, Thresholds)| e.0),
                forall|k: int| 0 <= k < entries@.len() ==> #[trigger] entries@[k] == src[k],
                forall|k: int| 0 <= k < backwards@.len() ==> #[trigger] backwards@[k] == src[n - 1 - k].0,
            decreases entries@.len(),
        {
            let (q, _) = entries.pop().unwrap();
            backwards.push(q);
        }
        let mut out: Vec<(QuestionId, api::Question)> = Vec::new();
        while backwards.len() > 0
            invariant
                out@.len() + backwards@.len() == n,
                n == all.len(),
                forall|k: int| 0 <= k < backwards@.len() ==> #[trigger] backwards@[k] == all[n - 1 - k],
                forall|k: int|
                    0 <= k < out@.len() ==> (#[trigger] out@[k]).0@ == id_text(k as nat) && out@[k].1
                        == all[k],
            decreases backwards@.len(),
        {
            let q = backwards.pop().unwrap();
            let id = QuestionId::nth(out.len());
            out.push((id, q));
        }
        (out, thresholds)
    }
}

/// `new` holds everything `old` held, under the same guide policy, and maybe more.
pub open spec fn extends(new: Plan, old: Plan) -> bool {
    &&& new.base() == old.base()
    &&& new.len() >= old.len()
    &&& forall|i: int|
        0 <= i < old.len() ==> new.question_at(i) == old.question_at(i) && new.thresholds_at(i)
            == old.thresholds_at(i)
}

/// Resolved outcomes, by question position.
pub struct Reply {
    outcomes: Vec<Option<(Outcome, Thresholds)>>,
}

impl Reply {
    /// The outcome of question `i`, if it is (still) there.
    pub closed spec fn slot(&self, i: int) -> Option<(Outcome, Thresholds)> {
        if 0 <= i < self.outcomes@.len() {
            self.outcomes@[i]
        } else {
            None
        }
    }

    /// How many outcomes were recorded.
    pub closed spec fn len(&self) -> nat {
        self.outcomes@.len()
    }

    /// Only a recorded position holds an outcome.
    pub proof fn lemma_slot_in_range(&self, i: int)
        ensures
            self.slot(i) is Some ==> 0 <= i < self.len(),
    {
    }

    /// No outcomes yet.
    pub fn new() -> (r: Reply)
        ensures
            r.len() == 0,
    {
        Reply { outcomes: Vec::new() }
    }

    /// Record the outcome of the next question.
    pub fn push(&mut self, outcome: Outcome, t: Thresholds)
        ensures
            final(self).len() == old(self).len() + 1,
            final(self).slot(old(self).len() as int) == Some((outcome, t)),
            forall|i: int| 0 <= i < old(self).len() ==> final(self).slot(i) == old(self).slot(i),
    {
        self.outcomes.push(Some((outcome, t)));
    }

    /// The outcome of question `n`, taken out of the reply.
    pub fn take(&mut self, n: usize) -> (r: Option<(Outcome, Thresholds)>)
        ensures
            r == old(self).slot(n as int),
            final(self).len() == old(self).len(),
            final(self).slot(n as int) is None,
            forall|i: int| i != n ==> final(self).slot(i) == old(self).slot(i),
    {
        if n < self.outcomes.len() {
            let slot = self.outcomes.remove(n);
            self.outcomes.insert(n, None);
            slot
        } else {
            None
        }
    }
}

/// `after` is `before` with the outcome of question `n` taken out.
pub open spec fn taken(after: Reply, before: Reply, n: int) -> bool {
    &&& after.len() == before.len()
    &&& after.slot(n) is None
    &&& forall|i: int| i != n ==> after.slot(i) == before.slot(i)
}

/// The first answer at or after `i` with this id.
pub open spec fn find_answer(answers: Seq<(QuestionId, Answer)>, id: Seq<char>, i: int) -> Option<int>
    decreases answers.len() - i,
{
    if i < 0 || i >= answers.len() {
        None
    } else if answers[i].0@ == id {
        Some(i)
    } else {
        find_answer(answers, id, i + 1)
    }
}

proof fn lemma_find_answer_in_range(answers: Seq<(QuestionId, Answer)>, id: Seq<char>, i: int)
    ensures
        find_answer(answers, id, i) matches Some(j) ==> 0 <= j < answers.len() && answers[j].0@ == id,
    decreases answers.len() - i,
{
    if 0 <= i < answers.len() && answers[i].0@ != id {
        lemma_find_answer_in_range(answers, id, i + 1);
    }
}

/// What settling question `n`'s answer gives: the answer with id `q{n}` resolved under the
/// question's thresholds; no such answer is [`Error::Protocol`].
pub open spec fn settles(
    thresholds: Seq<Thresholds>,
    n: int,
    answers: Seq<(QuestionId, Answer)>,
    r: Result<(Outcome, Thresholds), Error>,
) -> bool {
    match find_answer(answers, id_text(n as nat), 0) {
        None => r matches Err(Error::Protocol { .. }),
        Some(j) => match r {
            Ok((o, t)) => t == thresholds[n] && resolution(answers[j].1, thresholds[n], Ok(o)),
            Err(e) => resolution(answers[j].1, thresholds[n], Err(e)),
        },
    }
}

/// Resolve the answer to question `n` under its thresholds.
pub fn settle_answer(thresholds: &Vec<Thresholds>, n: usize, answers: &Vec<(QuestionId, Answer)>) -> (r: Result<
    (Outcome, Thresholds),
    Error,
>)
    requires
        n < thresholds@.len(),
    ensures
        settles(thresholds@, n as int, answers@, r),
{
    let id = QuestionId::nth(n);
    let mut i: usize = 0;
    while i < answers.len()
        invariant
            n < thresholds@.len(),
            i <= answers@.len(),
            id@ == id_text(n as nat),
            find_answer(answers@, id@, 0) == find_answer(answers@, id@, i as int),
        decreases answers@.len() - i,
    {
        if answers[i].0.same(&id) {
            let t = thresholds[n];
            return match resolve(&answers[i].1, t) {
                Ok(o) => Ok((o, t)),
                Err(e) => Err(e),
            };
        }
        i = i + 1;
    }
    let mut m = owned("no answer for question ");
    m.append(id.as_str());
    Err(Error::Protocol { detail: m })
}

/// Resolve every answer, in question order; the first failure fails the whole.
pub fn settle_all(thresholds: &Vec<Thresholds>, answers: &Vec<(QuestionId, Answer)>) -> (r: Result<Reply, Error>)
    ensures
        match r {
            Ok(reply) => reply.len() == thresholds@.len() && forall|i: int|
                0 <= i < thresholds@.len() ==> (#[trigger] reply.slot(i) matches Some(s) && settles(
                    thresholds@,
                    i,
                    answers@,
                    Ok(s),
                )),
            Err(e) => exists|i: int| 0 <= i < thresholds@.len() && settles(thresholds@, i, answers@, Err(e)),
        },
{
    let mut reply = Reply::new();
    let n = thresholds.len();
    let mut i: usize = 0;
    while i < n
        invariant
            n == thresholds@.len(),
            i <= n,
            reply.len() == i,
            forall|k: int|
                0 <= k < i ==> (#[trigger] reply.slot(k) matches Some(s) && settles(
                    thresholds@,
                    k,
                    answers@,
                    Ok(s),
                )),
        decreases n - i,
    {
        match settle_answer(thresholds, i, answers) {
            Ok((o, t)) => {
                let ghost s = (o, t);
                reply.push(o, t);
                assert(reply.slot(i as int) == Some(s));
            },
            Err(e) => return Err(e),
        }
        i = i + 1;
    }
    Ok(reply)
}

/// A shape of questions: encoded into a plan in reading order, decoded from the reply into
/// the same shape.
pub trait Ask: Sized + Sealed {
    /// The answer shape.
    type Out;

    /// What encoding keeps for decoding.
    type Claim;

    /// What encoding this shape into a plan gives: the plan after, from the plan before,
    /// and the claim or the failure.
    spec fn encoded(&self, before: Plan, after: Plan, r: Result<Self::Claim, Error>) -> bool;

    /// Add this shape's questions to the plan.
    fn encode(self, plan: &mut Plan) -> (r: Result<Self::Claim, Error>)
        ensures
            extends(*final(plan), *old(plan)),
            self.encoded(*old(plan), *final(plan), r),
    ;

    /// What decoding a claim gives: the answer read from the reply before, and the reply
    /// after, with what was read taken out.
    spec fn decoded(claim: Self::Claim, before: Reply, after: Reply, r: Result<Self::Out, Error>) -> bool;

    /// Read this shape's answers back from the reply.
    fn decode(claim: Self::Claim, reply: &mut Reply) -> (r: Result<Self::Out, Error>)
        ensures
            Self::decoded(claim, *old(reply), *final(reply), r),
    ;
}

impl<K: Kind> Question<K> {
    /// What encoding this question gives: its wire form, added at the next position with its
    /// policy settled over the guide's.
    pub open spec fn encodes(
        self,
        old_plan: Plan,
        new_plan: Plan,
        r: Result<(usize, K, Option<K::Out>), Error>,
    ) -> bool {
        match r {
            Ok(c) => {
                let p = spec_over(self.policy_of(), old_plan.base());
                &&& extends(new_plan, old_plan)
                &&& c.0 == old_plan.len()
                &&& c.1 == self.kind_of()
                &&& c.2 == self.or_of()
                &&& new_plan.len() == old_plan.len() + 1
                &&& self.kind_of().wires(self.instructions_of(), Ok(new_plan.question_at(c.0 as int)))
                &&& new_plan.thresholds_at(c.0 as int).yes_bits() == settled_yes(p)
                &&& new_plan.thresholds_at(c.0 as int).no_bits() == settled_no(p)
                &&& new_plan.thresholds_at(c.0 as int).min_bits() == settled_min(p)
            },
            Err(e) => {
                let p = spec_over(self.policy_of(), old_plan.base());
                &&& new_plan == old_plan
                &&& {
                    ||| self.kind_of().wires(self.instructions_of(), Err(e))
                    ||| {
                        &&& exists|w: api::Question| #[trigger] self.kind_of().wires(self.instructions_of(), Ok(w))
                        &&& e is Config
                        &&& !valid_thresholds(settled_yes(p), settled_no(p), settled_min(p))
                    }
                }
            },
        }
    }

    /// What decoding this question gives: its outcome read by its kind, under the id `q{n}`.
    pub open spec fn decodes(
        claim: (usize, K, Option<K::Out>),
        old_reply: Reply,
        r: Result<K::Out, Error>,
    ) -> bool {
        match old_reply.slot(claim.0 as int) {
            None => r matches Err(Error::Protocol { .. }),
            Some((o, t)) => claim.1.reads(id_text(claim.0 as nat), o, t, claim.2, r),
        }
    }
}

impl<K: Kind> Sealed for Question<K> {}

impl<Q: Ask> Sealed for Vec<Q> {}

impl<K, Q: Ask> Sealed for Keyed<K, Q> {}

impl<A: Ask> Sealed for (A,) {}

impl<A: Ask, B: Ask> Sealed for (A, B) {}

impl<A: Ask, B: Ask, C: Ask> Sealed for (A, B, C) {}

impl<A: Ask, B: Ask, C: Ask, D: Ask> Sealed for (A, B, C, D) {}

impl<A: Ask, B: Ask, C: Ask, D: Ask, E: Ask> Sealed for (A, B, C, D, E) {}

impl<A: Ask, B: Ask, C: Ask, D: Ask, E: Ask, F: Ask> Sealed for (A, B, C, D, E, F) {}

impl<A: Ask, B: Ask, C: Ask, D: Ask, E: Ask, F: Ask, G: Ask> Sealed for (A, B, C, D, E, F, G) {}

impl<A: Ask, B: Ask, C: Ask, D: Ask, E: Ask, F: Ask, G: Ask, H: Ask> Sealed for (A, B, C, D, E, F, G, H) {}

impl<K: Kind> Ask for Question<K> {
    type Out = K::Out;

    type Claim = (usize, K, Option<K::Out>);

    open spec fn encoded(&self, before: Plan, after: Plan, r: Result<(usize, K, Option<K::Out>), Error>) -> bool {
        self.encodes(before, after, r)
    }

    fn encode(self, plan: &mut Plan) -> (r: Result<(usize, K, Option<K::Out>), Error>) {
        let Question { instructions, kind, policy, or } = self;
        let wire = match kind.wire(instructions) {
            Ok(w) => w,
            Err(e) => return Err(e),
        };
        let ghost w = wire;
        match plan.push(wire, policy) {
            Ok(n) => Ok((n, kind, or)),
            Err(e) => Err(e),
        }
    }

    open spec fn decoded(claim: (usize, K, Option<K::Out>), before: Reply, after: Reply, r: Result<K::Out, Error>) -> bool {
        Self::decodes(claim, before, r) && taken(after, before, claim.0 as int)
    }

    fn decode(claim: (usize, K, Option<K::Out>), reply: &mut Reply) -> (r: Result<K::Out, Error>) {
        let (n, kind, or) = claim;
        let id = QuestionId::nth(n);
        match reply.take(n) {
            None => {
                let mut m = owned("no answer for question ");
                m.append(id.as_str());
                Err(Error::Protocol { detail: m })
            },
            Some((outcome, t)) => kind.read(id.as_str(), outcome, t, or),
        }
    }
}

/// Each shape of `shapes` encodes from one plan of `plans` to the next, giving its claim in
/// `claims`.
pub open spec fn chained<Q: Ask>(shapes: Seq<Q>, plans: Seq<Plan>, claims: Seq<Q::Claim>) -> bool {
    &&& plans.len() == shapes.len() + 1
    &&& claims.len() == shapes.len()
    &&& forall|i: int|
        #![trigger shapes[i]]
        0 <= i < shapes.len() ==> shapes[i].encoded(plans[i], plans[i + 1], Ok(claims[i]))
}

/// Each claim of `claims` reads its answer of `outs` from one reply of `replies`, leaving the
/// next.
pub open spec fn read_in_turn<Q: Ask>(claims: Seq<Q::Claim>, replies: Seq<Reply>, outs: Seq<Q::Out>) -> bool {
    &&& replies.len() == claims.len() + 1
    &&& outs.len() == claims.len()
    &&& forall|i: int|
        #![trigger claims[i]]
        0 <= i < claims.len() ==> Q::decoded(claims[i], replies[i], replies[i + 1], Ok(outs[i]))
}

impl<Q: Ask> Ask for Vec<Q> {
    type Out = Vec<Q::Out>;

    type Claim = Vec<Q::Claim>;

    open spec fn encoded(&self, before: Plan, after: Plan, r: Result<Vec<Q::Claim>, Error>) -> bool {
        match r {
            Ok(c) => c@.len() == self@.len() && exists|plans: Seq<Plan>|
                #[trigger] chained(self@, plans, c@) && plans[0] == before && plans[self@.len() as int] == after,
            Err(err) => exists|k: int, plans: Seq<Plan>, claims: Seq<Q::Claim>|
                #![trigger chained(self@.take(k), plans, claims)]
                0 <= k < self@.len() && chained(self@.take(k), plans, claims) && plans[0] == before
                    && self@[k].encoded(plans[k], after, Err(err)),
        }
    }

    fn encode(self, plan: &mut Plan) -> (r: Result<Vec<Q::Claim>, Error>) {
        let ghost all = self@;
        let n = self.len();
        let mut rest = self;
        let mut reversed: Vec<Q> = Vec::new();
        while rest.len() > 0
            invariant
                rest@.len() + reversed@.len() == n,
                n == all.len(),
                forall|k: int| 0 <= k < rest@.len() ==> #[trigger] rest@[k] == all[k],
                forall|k: int| 0 <= k < reversed@.len() ==> #[trigger] reversed@[k] == all[n - 1 - k],
            decreases rest@.len(),
        {
            let q = rest.pop().unwrap();
            reversed.push(q);
        }
        let mut claims: Vec<Q::Claim> = Vec::new();
        let ghost start = *plan;
        let ghost mut plans: Seq<Plan> = seq![start];
        while reversed.len() > 0
            invariant
                claims@.len() + reversed@.len() == n,
                n == all.len(),
                start == *old(plan),
                all == self@,
                extends(*plan, start),
                forall|k: int| 0 <= k < reversed@.len() ==> #[trigger] reversed@[k] == all[n - 1 - k],
                chained(all.take(claims@.len() as int), plans, claims@),
                plans[0] == start,
                plans[claims@.len() as int] == *plan,
            decreases reversed@.len(),
        {
            let ghost k = claims@.len() as int;
            let q = reversed.pop().unwrap();
            assert(q == all[k]);
            let ghost before = *plan;
            match q.encode(plan) {
                Ok(c) => {
                    proof {
                        lemma_extends_trans(start, before, *plan);
                        plans = plans.push(*plan);
                    }
                    claims.push(c);
                    proof {
                        assert(all.take(k + 1) =~= all.take(k).push(all[k]));
                        assert forall|i: int| 0 <= i < k + 1 implies #[trigger] all.take(k + 1)[i].encoded(
                            plans[i],
                            plans[i + 1],
                            Ok(claims@[i]),
                        ) by {
                            if i < k {
                                assert(all.take(k + 1)[i] == all.take(k)[i]);
                            }
                        }
                    }
                },
                Err(err) => {
                    proof {
                        assert(chained(all.take(k), plans, claims@));
                    }
                    return Err(err);
                },
            }
        }
        proof {
            assert(all.take(n as int) =~= all);
            let ghost r: Result<Vec<Q::Claim>, Error> = Ok(claims);
            assert(r matches Ok(c) && c@ == claims@);
        }
        Ok(claims)
    }

    open spec fn decoded(claims: Vec<Q::Claim>, before: Reply, after: Reply, r: Result<Vec<Q::Out>, Error>) -> bool {
        match r {
            Ok(v) => v@.len() == claims@.len() && exists|replies: Seq<Reply>|
                #[trigger] read_in_turn::<Q>(claims@, replies, v@) && replies[0] == before
                    && replies[claims@.len() as int] == after,
            Err(err) => exists|k: int, replies: Seq<Reply>, outs: Seq<Q::Out>|
                #![trigger read_in_turn::<Q>(claims@.take(k), replies, outs)]
                0 <= k < claims@.len() && read_in_turn::<Q>(claims@.take(k), replies, outs) && replies[0]
                    == before && Q::decoded(claims@[k], replies[k], after, Err(err)),
        }
    }

    fn decode(claims: Vec<Q::Claim>, reply: &mut Reply) -> (r: Result<Vec<Q::Out>, Error>) {
        let ghost all = claims@;
        let n = claims.len();
        let mut rest = claims;
        let mut reversed: Vec<Q::Claim> = Vec::new();
        while rest.len() > 0
            invariant
                rest@.len() + reversed@.len() == n,
                n == all.len(),
                forall|k: int| 0 <= k < rest@.len() ==> #[trigger] rest@[k] == all[k],
                forall|k: int| 0 <= k < reversed@.len() ==> #[trigger] reversed@[k] == all[n - 1 - k],
            decreases rest@.len(),
        {
            let c = rest.pop().unwrap();
            reversed.push(c);
        }
        let mut out: Vec<Q::Out> = Vec::new();
        let ghost start = *reply;
        let ghost mut replies: Seq<Reply> = seq![start];
        while reversed.len() > 0
            invariant
                out@.len() + reversed@.len() == n,
                n == all.len(),
                start == *old(reply),
                all == claims@,
                forall|k: int| 0 <= k < reversed@.len() ==> #[trigger] reversed@[k] == all[n - 1 - k],
                read_in_turn::<Q>(all.take(out@.len() as int), replies, out@),
                replies[0] == start,
                replies[out@.len() as int] == *reply,
            decreases reversed@.len(),
        {
            let ghost k = out@.len() as int;
            let c = reversed.pop().unwrap();
            assert(c == all[k]);
            let ghost before = *reply;
            match Q::decode(c, reply) {
                Ok(v) => {
                    proof {
                        replies = replies.push(*reply);
                    }
                    out.push(v);
                    proof {
                        assert(all.take(k + 1) =~= all.take(k).push(all[k]));
                        assert forall|i: int| 0 <= i < k + 1 implies #[trigger] Q::decoded(
                            all.take(k + 1)[i],
                            replies[i],
                            replies[i + 1],
                            Ok(out@[i]),
                        ) by {
                            if i < k {
                                assert(all.take(k + 1)[i] == all.take(k)[i]);
                            }
                        }
                    }
                },
                Err(err) => {
                    proof {
                        assert(read_in_turn::<Q>(all.take(k), replies, out@));
                    }
                    return Err(err);
                },
            }
        }
        proof {
            assert(all.take(n as int) =~= all);
            let ghost r: Result<Vec<Q::Out>, Error> = Ok(out);
            assert(r matches Ok(v) && v@ == out@);
        }
        Ok(out)
    }
}

/// Shapes under keys, asked in the order of the entries: what a map of questions becomes
/// once its entries are listed in key order. The answer keeps each key beside its answer.
pub struct Keyed<K, Q>(pub Vec<(K, Q)>);

/// The keys of entries, in order.
pub open spec fn keys_of<K, V>(entries: Seq<(K, V)>) -> Seq<K> {
    entries.map_values(|e: (K, V)| e.0)
}

/// The values of entries, in order.
pub open spec fn values_of<K, V>(entries: Seq<(K, V)>) -> Seq<V> {
    entries.map_values(|e: (K, V)| e.1)
}

/// Split entries into their keys and their values, both in order.
fn unzip<K, V>(entries: Vec<(K, V)>) -> (r: (Vec<K>, Vec<V>))
    ensures
        r.0@ == keys_of(entries@),
        r.1@ == values_of(entries@),
{
    let ghost all = entries@;
    let n = entries.len();
    let mut rest = entries;
    let mut back_keys: Vec<K> = Vec::new();
    let mut back_values: Vec<V> = Vec::new();
    while rest.len() > 0
        invariant
            rest@.len() + back_keys@.len() == n,
            back_values@.len() == back_keys@.len(),
            n == all.len(),
            forall|i: int| 0 <= i < rest@.len() ==> #[trigger] rest@[i] == all[i],
            forall|i: int| 0 <= i < back_keys@.len() ==> #[trigger] back_keys@[i] == all[n - 1 - i].0,
            forall|i: int| 0 <= i < back_values@.len() ==> #[trigger] back_values@[i] == all[n - 1 - i].1,
        decreases rest@.len(),
    {
        let (k, v) = rest.pop().unwrap();
        back_keys.push(k);
        back_values.push(v);
    }
    let mut keys: Vec<K> = Vec::new();
    let mut values: Vec<V> = Vec::new();
    while back_keys.len() > 0
        invariant
            keys@.len() + back_keys@.len() == n,
            values@.len() == keys@.len(),
            back_values@.len() == back_keys@.len(),
            n == all.len(),
            forall|i: int| 0 <= i < back_keys@.len() ==> #[trigger] back_keys@[i] == all[n - 1 - i].0,
            forall|i: int| 0 <= i < back_values@.len() ==> #[trigger] back_values@[i] == all[n - 1 - i].1,
            forall|i: int| 0 <= i < keys@.len() ==> #[trigger] keys@[i] == all[i].0,
            forall|i: int| 0 <= i < values@.len() ==> #[trigger] values@[i] == all[i].1,
        decreases back_keys@.len(),
    {
        let k = back_keys.pop().unwrap();
        let v = back_values.pop().unwrap();
        keys.push(k);
        values.push(v);
    }
    proof {
        assert(keys@ =~= keys_of(all));
        assert(values@ =~= values_of(all));
    }
    (keys, values)
}

/// Pair keys with values, position by position.
fn zip<K, V>(keys: Vec<K>, values: Vec<V>) -> (r: Vec<(K, V)>)
    requires
        keys@.len() == values@.len(),
    ensures
        keys_of(r@) == keys@,
        values_of(r@) == values@,
{
    let ghost all_keys = keys@;
    let ghost all_values = values@;
    let n = keys.len();
    let mut keys = keys;
    let mut values = values;
    let mut backwards: Vec<(K, V)> = Vec::new();
    while keys.len() > 0
        invariant
            keys@.len() == values@.len(),
            keys@.len() + backwards@.len() == n,
            n == all_keys.len(),
            n == all_values.len(),
            forall|i: int| 0 <= i < keys@.len() ==> #[trigger] keys@[i] == all_keys[i],
            forall|i: int| 0 <= i < values@.len() ==> #[trigger] values@[i] == all_values[i],
            forall|i: int| 0 <= i < backwards@.len() ==> #[trigger] backwards@[i] == (all_keys[n - 1 - i], all_values[n - 1 - i]),
        decreases keys@.len(),
    {
        let k = keys.pop().unwrap();
        let v = values.pop().unwrap();
        backwards.push((k, v));
    }
    let mut out: Vec<(K, V)> = Vec::new();
    while backwards.len() > 0
        invariant
            out@.len() + backwards@.len() == n,
            n == all_keys.len(),
            n == all_values.len(),
            forall|i: int| 0 <= i < backwards@.len() ==> #[trigger] backwards@[i] == (all_keys[n - 1 - i], all_values[n - 1 - i]),
            forall|i: int| 0 <= i < out@.len() ==> #[trigger] out@[i] == (all_keys[i], all_values[i]),
        decreases backwards@.len(),
    {
        let e = backwards.pop().unwrap();
        out.push(e);
    }
    proof {
        assert(keys_of(out@) =~= all_keys);
        assert(values_of(out@) =~= all_values);
    }
    out
}

impl<K, Q: Ask> Ask for Keyed<K, Q> {
    type Out = Vec<(K, Q::Out)>;

    type Claim = Vec<(K, Q::Claim)>;

    open spec fn encoded(&self, before: Plan, after: Plan, r: Result<Vec<(K, Q::Claim)>, Error>) -> bool {
        let shapes = values_of(self.0@);
        match r {
            Ok(c) => keys_of(c@) == keys_of(self.0@) && exists|plans: Seq<Plan>|
                #[trigger] chained(shapes, plans, values_of(c@)) && plans[0] == before && plans[shapes.len() as int]
                    == after,
            Err(err) => exists|k: int, plans: Seq<Plan>, claims: Seq<Q::Claim>|
                #![trigger chained(shapes.take(k), plans, claims)]
                0 <= k < shapes.len() && chained(shapes.take(k), plans, claims) && plans[0] == before
                    && shapes[k].encoded(plans[k], after, Err(err)),
        }
    }

    fn encode(self, plan: &mut Plan) -> (r: Result<Vec<(K, Q::Claim)>, Error>) {
        let (keys, shapes) = unzip(self.0);
        match shapes.encode(plan) {
            Ok(claims) => {
                let c = zip(keys, claims);
                let ghost r: Result<Vec<(K, Q::Claim)>, Error> = Ok(c);
                assert(r matches Ok(x) && x@ == c@);
                Ok(c)
            },
            Err(err) => Err(err),
        }
    }

    open spec fn decoded(claim: Vec<(K, Q::Claim)>, before: Reply, after: Reply, r: Result<Vec<(K, Q::Out)>, Error>) -> bool {
        let claims = values_of(claim@);
        match r {
            Ok(v) => keys_of(v@) == keys_of(claim@) && exists|replies: Seq<Reply>|
                #[trigger] read_in_turn::<Q>(claims, replies, values_of(v@)) && replies[0] == before
                    && replies[claims.len() as int] == after,
            Err(err) => exists|k: int, replies: Seq<Reply>, outs: Seq<Q::Out>|
                #![trigger read_in_turn::<Q>(claims.take(k), replies, outs)]
                0 <= k < claims.len() && read_in_turn::<Q>(claims.take(k), replies, outs) && replies[0] == before
                    && Q::decoded(claims[k], replies[k], after, Err(err)),
        }
    }

    fn decode(claim: Vec<(K, Q::Claim)>, reply: &mut Reply) -> (r: Result<Vec<(K, Q::Out)>, Error>) {
        let (keys, claims) = unzip(claim);
        match Vec::<Q>::decode(claims, reply) {
            Ok(answers) => {
                let v = zip(keys, answers);
                let ghost r: Result<Vec<(K, Q::Out)>, Error> = Ok(v);
                assert(r matches Ok(x) && x@ == v@);
                Ok(v)
            },
            Err(err) => Err(err),
        }
    }
}

proof fn lemma_extends_trans(a: Plan, b: Plan, c: Plan)
    requires
        extends(b, a),
        extends(c, b),
    ensures
        extends(c, a),
{
}

impl<A: Ask> Ask for (A,) {
    type Out = (A::Out,);

    type Claim = (A::Claim,);

    open spec fn encoded(&self, before: Plan, after: Plan, r: Result<(A::Claim,), Error>) -> bool {
        match r {
            Ok(c) => self.0.encoded(before, after, Ok(c.0)),
            Err(err) => {
                ||| self.0.encoded(before, after, Err(err))
            },
        }
    }

    fn encode(self, plan: &mut Plan) -> (r: Result<(A::Claim,), Error>) {
        let (s0,) = self;
        let ghost p0 = *plan;
        let c0 = match s0.encode(plan) {
            Ok(x) => x,
            Err(err) => return Err(err),
        };
        proof {
            lemma_extends_trans(p0, p0, *plan);
        }
        proof {
            let r: Result<(A::Claim,), Error> = Ok((c0,));
            assert(r matches Ok(c) && c.0 == c0);
        }
        Ok((c0,))
    }

    open spec fn decoded(claim: (A::Claim,), before: Reply, after: Reply, r: Result<(A::Out,), Error>) -> bool {
        match r {
            Ok(v) => A::decoded(claim.0, before, after, Ok(v.0)),
            Err(err) => {
                ||| A::decoded(claim.0, before, after, Err(err))
            },
        }
    }

    fn decode(claim: (A::Claim,), reply: &mut Reply) -> (r: Result<(A::Out,), Error>) {
        let (c0,) = claim;
        let v0 = match A::decode(c0, reply) {
            Ok(v) => v,
            Err(err) => return Err(err),
        };
        proof {
            let r: Result<(A::Out,), Error> = Ok((v0,));
            assert(r matches Ok(v) && v.0 == v0);
        }
        Ok((v0,))
    }
}

impl<A: Ask, B: Ask> Ask for (A, B) {
    type Out = (A::Out, B::Out);

    type Claim = (A::Claim, B::Claim);

    open spec fn encoded(&self, before: Plan, after: Plan, r: Result<(A::Claim, B::Claim), Error>) -> bool {
        match r {
            Ok(c) => exists|p1: Plan|
                #![trigger self.0.encoded(before, p1, Ok(c.0)), self.1.encoded(p1, after, Ok(c.1))]
                self.0.encoded(before, p1, Ok(c.0)) && self.1.encoded(p1, after, Ok(c.1)),
            Err(err) => {
                ||| self.0.encoded(before, after, Err(err))
                ||| exists|p1: Plan, d0: A::Claim|
                    #![trigger self.0.encoded(before, p1, Ok(d0)), self.1.encoded(p1, after, Err(err))]
                    self.0.encoded(before, p1, Ok(d0)) && self.1.encoded(p1, after, Err(err))
            },
        }
    }

    fn encode(self, plan: &mut Plan) -> (r: Result<(A::Claim, B::Claim), Error>) {
        let (s0, s1) = self;
        let ghost p0 = *plan;
        let c0 = match s0.encode(plan) {
            Ok(x) => x,
            Err(err) => return Err(err),
        };
        proof {
            lemma_extends_trans(p0, p0, *plan);
        }
        let ghost p1 = *plan;
        let c1 = match s1.encode(plan) {
            Ok(x) => x,
            Err(err) => return Err(err),
        };
        proof {
            lemma_extends_trans(p0, p1, *plan);
        }
        proof {
            let r: Result<(A::Claim, B::Claim), Error> = Ok((c0, c1));
            assert(r matches Ok(c) && c.0 == c0 && c.1 == c1);
        }
        Ok((c0, c1))
    }

    open spec fn decoded(claim: (A::Claim, B::Claim), before: Reply, after: Reply, r: Result<(A::Out, B::Out), Error>) -> bool {
        match r {
            Ok(v) => exists|q1: Reply|
                #![trigger A::decoded(claim.0, before, q1, Ok(v.0)), B::decoded(claim.1, q1, after, Ok(v.1))]
                A::decoded(claim.0, before, q1, Ok(v.0)) && B::decoded(claim.1, q1, after, Ok(v.1)),
            Err(err) => {
                ||| A::decoded(claim.0, before, after, Err(err))
                ||| exists|q1: Reply, w0: A::Out|
                    #![trigger A::decoded(claim.0, before, q1, Ok(w0)), B::decoded(claim.1, q1, after, Err(err))]
                    A::decoded(claim.0, before, q1, Ok(w0)) && B::decoded(claim.1, q1, after, Err(err))
            },
        }
    }

    fn decode(claim: (A::Claim, B::Claim), reply: &mut Reply) -> (r: Result<(A::Out, B::Out), Error>) {
        let (c0, c1) = claim;
        let v0 = match A::decode(c0, reply) {
            Ok(v) => v,
            Err(err) => return Err(err),
        };
        let v1 = match B::decode(c1, reply) {
            Ok(v) => v,
            Err(err) => return Err(err),
        };
        proof {
            let r: Result<(A::Out, B::Out), Error> = Ok((v0, v1));
            assert(r matches Ok(v) && v.0 == v0 && v.1 == v1);
        }
        Ok((v0, v1))
    }
}

impl<A: Ask, B: Ask, C: Ask> Ask for (A, B, C) {
    type Out = (A::Out, B::Out, C::Out);

    type Claim = (A::Claim, B::Claim, C::Claim);

    open spec fn encoded(&self, before: Plan, after: Plan, r: Result<(A::Claim, B::Claim, C::Claim), Error>) -> bool {
        match r {
            Ok(c) => exists|p1: Plan, p2: Plan|
                #![trigger self.0.encoded(before, p1, Ok(c.0)), self.1.encoded(p1, p2, Ok(c.1)), self.2.encoded(p2, after, Ok(c.2))]
                self.0.encoded(before, p1, Ok(c.0)) && self.1.encoded(p1, p2, Ok(c.1)) && self.2.encoded(p2, after, Ok(c.2)),
            Err(err) => {
                ||| self.0.encoded(before, after, Err(err))
                ||| exists|p1: Plan, d0: A::Claim|
                    #![trigger self.0.encoded(before, p1, Ok(d0)), self.1.encoded(p1, after, Err(err))]
                    self.0.encoded(before, p1, Ok(d0)) && self.1.encoded(p1, after, Err(err))
                ||| exists|p1: Plan, p2: Plan, d0: A::Claim, d1: B::Claim|
                    #![trigger self.0.encoded(before, p1, Ok(d0)), self.1.encoded(p1, p2, Ok(d1)), self.2.encoded(p2, after, Err(err))]
                    self.0.encoded(before, p1, Ok(d0)) && self.1.encoded(p1, p2, Ok(d1)) && self.2.encoded(p2, after, Err(err))
            },
        }
    }

    fn encode(self, plan: &mut Plan) -> (r: Result<(A::Claim, B::Claim, C::Claim), Error>) {
        let (s0, s1, s2) = self;
        let ghost p0 = *plan;
        let c0 = match s0.encode(plan) {
            Ok(x) => x,
            Err(err) => return Err(err),
        };
        proof {
            lemma_extends_trans(p0, p0, *plan);
        }
        let ghost p1 = *plan;
        let c1 = match s1.encode(plan) {
            Ok(x) => x,
            Err(err) => return Err(err),
        };
        proof {
            lemma_extends_trans(p0, p1, *plan);
        }
        let ghost p2 = *plan;
        let c2 = match s2.encode(plan) {
            Ok(x) => x,
            Err(err) => return Err(err),
        };
        proof {
            lemma_extends_trans(p0, p2, *plan);
        }
        proof {
            let r: Result<(A::Claim, B::Claim, C::Claim), Error> = Ok((c0, c1, c2));
            assert(r matches Ok(c) && c.0 == c0 && c.1 == c1 && c.2 == c2);
        }
        Ok((c0, c1, c2))
    }

    open spec fn decoded(claim: (A::Claim, B::Claim, C::Claim), before: Reply, after: Reply, r: Result<(A::Out, B::Out, C::Out), Error>) -> bool {
        match r {
            Ok(v) => exists|q1: Reply, q2: Reply|
                #![trigger A::decoded(claim.0, before, q1, Ok(v.0)), B::decoded(claim.1, q1, q2, Ok(v.1)), C::decoded(claim.2, q2, after, Ok(v.2))]
                A::decoded(claim.0, before, q1, Ok(v.0)) && B::decoded(claim.1, q1, q2, Ok(v.1)) && C::decoded(claim.2, q2, after, Ok(v.2)),
            Err(err) => {
                ||| A::decoded(claim.0, before, after, Err(err))
                ||| exists|q1: Reply, w0: A::Out|
                    #![trigger A::decoded(claim.0, before, q1, Ok(w0)), B::decoded(claim.1, q1, after, Err(err))]
                    A::decoded(claim.0, before, q1, Ok(w0)) && B::decoded(claim.1, q1, after, Err(err))
                ||| exists|q1: Reply, q2: Reply, w0: A::Out, w1: B::Out|
                    #![trigger A::decoded(claim.0, before, q1, Ok(w0)), B::decoded(claim.1, q1, q2, Ok(w1)), C::decoded(claim.2, q2, after, Err(err))]
                    A::decoded(claim.0, before, q1, Ok(w0)) && B::decoded(claim.1, q1, q2, Ok(w1)) && C::decoded(claim.2, q2, after, Err(err))
            },
        }
    }

    fn decode(claim: (A::Claim, B::Claim, C::Claim), reply: &mut Reply) -> (r: Result<(A::Out, B::Out, C::Out), Error>) {
        let (c0, c1, c2) = claim;
        let v0 = match A::decode(c0, reply) {
            Ok(v) => v,
            Err(err) => return Err(err),
        };
        let v1 = match B::decode(c1, reply) {
            Ok(v) => v,
            Err(err) => return Err(err),
        };
        let v2 = match C::decode(c2, reply) {
            Ok(v) => v,
            Err(err) => return Err(err),
        };
        proof {
            let r: Result<(A::Out, B::Out, C::Out), Error> = Ok((v0, v1, v2));
            assert(r matches Ok(v) && v.0 == v0 && v.1 == v1 && v.2 == v2);
        }
        Ok((v0, v1, v2))
    }
}

impl<A: Ask, B: Ask, C: Ask, D: Ask> Ask for (A, B, C, D) {
    type Out = (A::Out, B::Out, C::Out, D::Out);

    type Claim = (A::Claim, B::Claim, C::Claim, D::Claim);

    open spec fn encoded(&self, before: Plan, after: Plan, r: Result<(A::Claim, B::Claim, C::Claim, D::Claim), Error>) -> bool {
        match r {
            Ok(c) => exists|p1: Plan, p2: Plan, p3: Plan|
                #![trigger self.0.encoded(before, p1, Ok(c.0)), self.1.encoded(p1, p2, Ok(c.1)), self.2.encoded(p2, p3, Ok(c.2)), self.3.encoded(p3, after, Ok(c.3))]
                self.0.encoded(before, p1, Ok(c.0)) && self.1.encoded(p1, p2, Ok(c.1)) && self.2.encoded(p2, p3, Ok(c.2)) && self.3.encoded(p3, after, Ok(c.3)),
            Err(err) => {
                ||| self.0.encoded(before, after, Err(err))
                ||| exists|p1: Plan, d0: A::Claim|
                    #![trigger self.0.encoded(before, p1, Ok(d0)), self.1.encoded(p1, after, Err(err))]
                    self.0.encoded(before, p1, Ok(d0)) && self.1.encoded(p1, after, Err(err))
                ||| exists|p1: Plan, p2: Plan, d0: A::Claim, d1: B::Claim|
                    #![trigger self.0.encoded(before, p1, Ok(d0)), self.1.encoded(p1, p2, Ok(d1)), self.2.encoded(p2, after, Err(err))]
                    self.0.encoded(before, p1, Ok(d0)) && self.1.encoded(p1, p2, Ok(d1)) && self.2.encoded(p2, after, Err(err))
                ||| exists|p1: Plan, p2: Plan, p3: Plan, d0: A::Claim, d1: B::Claim, d2: C::Claim|
                    #![trigger self.0.encoded(before, p1, Ok(d0)), self.1.encoded(p1, p2, Ok(d1)), self.2.encoded(p2, p3, Ok(d2)), self.3.encoded(p3, after, Err(err))]
                    self.0.encoded(before, p1, Ok(d0)) && self.1.encoded(p1, p2, Ok(d1)) && self.2.encoded(p2, p3, Ok(d2)) && self.3.encoded(p3, after, Err(err))
            },
        }
    }

    fn encode(self, plan: &mut Plan) -> (r: Result<(A::Claim, B::Claim, C::Claim, D::Claim), Error>) {
        let (s0, s1, s2, s3) = self;
        let ghost p0 = *plan;
        let c0 = match s0.encode(plan) {
            Ok(x) => x,
            Err(err) => return Err(err),
        };
        proof {
            lemma_extends_trans(p0, p0, *plan);
        }
        let ghost p1 = *plan;
        let c1 = match s1.encode(plan) {
            Ok(x) => x,
            Err(err) => return Err(err),
        };
        proof {
            lemma_extends_trans(p0, p1, *plan);
        }
        let ghost p2 = *plan;
        let c2 = match s2.encode(plan) {
            Ok(x) => x,
            Err(err) => return Err(err),
        };
        proof {
            lemma_extends_trans(p0, p2, *plan);
        }
        let ghost p3 = *plan;
        let c3 = match s3.encode(plan) {
            Ok(x) => x,
            Err(err) => return Err(err),
        };
        proof {
            lemma_extends_trans(p0, p3, *plan);
        }
        proof {
            let r: Result<(A::Claim, B::Claim, C::Claim, D::Claim), Error> = Ok((c0, c1, c2, c3));
            assert(r matches Ok(c) && c.0 == c0 && c.1 == c1 && c.2 == c2 && c.3 == c3);
        }
        Ok((c0, c1, c2, c3))
    }

    open spec fn decoded(claim: (A::Claim, B::Claim, C::Claim, D::Claim), before: Reply, after: Reply, r: Result<(A::Out, B::Out, C::Out, D::Out), Error>) -> bool {
        match r {
            Ok(v) => exists|q1: Reply, q2: Reply, q3: Reply|
                #![trigger A::decoded(claim.0, before, q1, Ok(v.0)), B::decoded(claim.1, q1, q2, Ok(v.1)), C::decoded(claim.2, q2, q3, Ok(v.2)), D::decoded(claim.3, q3, after, Ok(v.3))]
                A::decoded(claim.0, before, q1, Ok(v.0)) && B::decoded(claim.1, q1, q2, Ok(v.1)) && C::decoded(claim.2, q2, q3, Ok(v.2)) && D::decoded(claim.3, q3, after, Ok(v.3)),
            Err(err) => {
                ||| A::decoded(claim.0, before, after, Err(err))
                ||| exists|q1: Reply, w0: A::Out|
                    #![trigger A::decoded(claim.0, before, q1, Ok(w0)), B::decoded(claim.1, q1, after, Err(err))]
                    A::decoded(claim.0, before, q1, Ok(w0)) && B::decoded(claim.1, q1, after, Err(err))
                ||| exists|q1: Reply, q2: Reply, w0: A::Out, w1: B::Out|
                    #![trigger A::decoded(claim.0, before, q1, Ok(w0)), B::decoded(claim.1, q1, q2, Ok(w1)), C::decoded(claim.2, q2, after, Err(err))]
                    A::decoded(claim.0, before, q1, Ok(w0)) && B::decoded(claim.1, q1, q2, Ok(w1)) && C::decoded(claim.2, q2, after, Err(err))
                ||| exists|q1: Reply, q2: Reply, q3: Reply, w0: A::Out, w1: B::Out, w2: C::Out|
                    #![trigger A::decoded(claim.0, before, q1, Ok(w0)), B::decoded(claim.1, q1, q2, Ok(w1)), C::decoded(claim.2, q2, q3, Ok(w2)), D::decoded(claim.3, q3, after, Err(err))]
                    A::decoded(claim.0, before, q1, Ok(w0)) && B::decoded(claim.1, q1, q2, Ok(w1)) && C::decoded(claim.2, q2, q3, Ok(w2)) && D::decoded(claim.3, q3, after, Err(err))
            },
        }
    }

    fn decode(claim: (A::Claim, B::Claim, C::Claim, D::Claim), reply: &mut Reply) -> (r: Result<(A::Out, B::Out, C::Out, D::Out), Error>) {
        let (c0, c1, c2, c3) = claim;
        let v0 = match A::decode(c0, reply) {
            Ok(v) => v,
            Err(err) => return Err(err),
        };
        let v1 = match B::decode(c1, reply) {
            Ok(v) => v,
            Err(err) => return Err(err),
        };
        let v2 = match C::decode(c2, reply) {
            Ok(v) => v,
            Err(err) => return Err(err),
        };
        let v3 = match D::decode(c3, reply) {
            Ok(v) => v,
            Err(err) => return Err(err),
        };
        proof {
            let r: Result<(A::Out, B::Out, C::Out, D::Out), Error> = Ok((v0, v1, v2, v3));
            assert(r matches Ok(v) && v.0 == v0 && v.1 == v1 && v.2 == v2 && v.3 == v3);
        }
        Ok((v0, v1, v2, v3))
    }
}

impl<A: Ask, B: Ask, C: Ask, D: Ask, E: Ask> Ask for (A, B, C, D, E) {
    type Out = (A::Out, B::Out, C::Out, D::Out, E::Out);

    type Claim = (A::Claim, B::Claim, C::Claim, D::Claim, E::Claim);

    open spec fn encoded(&self, before: Plan, after: Plan, r: Result<(A::Claim, B::Claim, C::Claim, D::Claim, E::Claim), Error>) -> bool {
        match r {
            Ok(c) => exists|p1: Plan, p2: Plan, p3: Plan, p4: Plan|
                #![trigger self.0.encoded(before, p1, Ok(c.0)), self.1.encoded(p1, p2, Ok(c.1)), self.2.encoded(p2, p3, Ok(c.2)), self.3.encoded(p3, p4, Ok(c.3)), self.4.encoded(p4, after, Ok(c.4))]
                self.0.encoded(before, p1, Ok(c.0)) && self.1.encoded(p1, p2, Ok(c.1)) && self.2.encoded(p2, p3, Ok(c.2)) && self.3.encoded(p3, p4, Ok(c.3)) && self.4.encoded(p4, after, Ok(c.4)),
            Err(err) => {
                ||| self.0.encoded(before, after, Err(err))
                ||| exists|p1: Plan, d0: A::Claim|
                    #![trigger self.0.encoded(before, p1, Ok(d0)), self.1.encoded(p1, after, Err(err))]
                    self.0.encoded(before, p1, Ok(d0)) && self.1.encoded(p1, after, Err(err))
                ||| exists|p1: Plan, p2: Plan, d0: A::Claim, d1: B::Claim|
                    #![trigger self.0.encoded(before, p1, Ok(d0)), self.1.encoded(p1, p2, Ok(d1)), self.2.encoded(p2, after, Err(err))]
                    self.0.encoded(before, p1, Ok(d0)) && self.1.encoded(p1, p2, Ok(d1)) && self.2.encoded(p2, after, Err(err))
                ||| exists|p1: Plan, p2: Plan, p3: Plan, d0: A::Claim, d1: B::Claim, d2: C::Claim|
                    #![trigger self.0.encoded(before, p1, Ok(d0)), self.1.encoded(p1, p2, Ok(d1)), self.2.encoded(p2, p3, Ok(d2)), self.3.encoded(p3, after, Err(err))]
                    self.0.encoded(before, p1, Ok(d0)) && self.1.encoded(p1, p2, Ok(d1)) && self.2.encoded(p2, p3, Ok(d2)) && self.3.encoded(p3, after, Err(err))
                ||| exists|p1: Plan, p2: Plan, p3: Plan, p4: Plan, d0: A::Claim, d1: B::Claim, d2: C::Claim, d3: D::Claim|
                    #![trigger self.0.encoded(before, p1, Ok(d0)), self.1.encoded(p1, p2, Ok(d1)), self.2.encoded(p2, p3, Ok(d2)), self.3.encoded(p3, p4, Ok(d3)), self.4.encoded(p4, after, Err(err))]
                    self.0.encoded(before, p1, Ok(d0)) && self.1.encoded(p1, p2, Ok(d1)) && self.2.encoded(p2, p3, Ok(d2)) && self.3.encoded(p3, p4, Ok(d3)) && self.4.encoded(p4, after, Err(err))
            },
        }
    }

    fn encode(self, plan: &mut Plan) -> (r: Result<(A::Claim, B::Claim, C::Claim, D::Claim, E::Claim), Error>) {
        let (s0, s1, s2, s3, s4) = self;
        let ghost p0 = *plan;
        let c0 = match s0.encode(plan) {
            Ok(x) => x,
            Err(err) => return Err(err),
        };
        proof {
            lemma_extends_trans(p0, p0, *plan);
        }
        let ghost p1 = *plan;
        let c1 = match s1.encode(plan) {
            Ok(x) => x,
            Err(err) => return Err(err),
        };
        proof {
            lemma_extends_trans(p0, p1, *plan);
        }
        let ghost p2 = *plan;
        let c2 = match s2.encode(plan) {
            Ok(x) => x,
            Err(err) => return Err(err),
        };
        proof {
            lemma_extends_trans(p0, p2, *plan);
        }
        let ghost p3 = *plan;
        let c3 = match s3.encode(plan) {
            Ok(x) => x,
            Err(err) => return Err(err),
        };
        proof {
            lemma_extends_trans(p0, p3, *plan);
        }
        let ghost p4 = *plan;
        let c4 = match s4.encode(plan) {
            Ok(x) => x,
            Err(err) => return Err(err),
        };
        proof {
            lemma_extends_trans(p0, p4, *plan);
        }
        proof {
            let r: Result<(A::Claim, B::Claim, C::Claim, D::Claim, E::Claim), Error> = Ok((c0, c1, c2, c3, c4));
            assert(r matches Ok(c) && c.0 == c0 && c.1 == c1 && c.2 == c2 && c.3 == c3 && c.4 == c4);
        }
        Ok((c0, c1, c2, c3, c4))
    }

    open spec fn decoded(claim: (A::Claim, B::Claim, C::Claim, D::Claim, E::Claim), before: Reply, after: Reply, r: Result<(A::Out, B::Out, C::Out, D::Out, E::Out), Error>) -> bool {
        match r {
            Ok(v) => exists|q1: Reply, q2: Reply, q3: Reply, q4: Reply|
                #![trigger A::decoded(claim.0, before, q1, Ok(v.0)), B::decoded(claim.1, q1, q2, Ok(v.1)), C::decoded(claim.2, q2, q3, Ok(v.2)), D::decoded(claim.3, q3, q4, Ok(v.3)), E::decoded(claim.4, q4, after, Ok(v.4))]
                A::decoded(claim.0, before, q1, Ok(v.0)) && B::decoded(claim.1, q1, q2, Ok(v.1)) && C::decoded(claim.2, q2, q3, Ok(v.2)) && D::decoded(claim.3, q3, q4, Ok(v.3)) && E::decoded(claim.4, q4, after, Ok(v.4)),
            Err(err) => {
                ||| A::decoded(claim.0, before, after, Err(err))
                ||| exists|q1: Reply, w0: A::Out|
                    #![trigger A::decoded(claim.0, before, q1, Ok(w0)), B::decoded(claim.1, q1, after, Err(err))]
                    A::decoded(claim.0, before, q1, Ok(w0)) && B::decoded(claim.1, q1, after, Err(err))
                ||| exists|q1: Reply, q2: Reply, w0: A::Out, w1: B::Out|
                    #![trigger A::decoded(claim.0, before, q1, Ok(w0)), B::decoded(claim.1, q1, q2, Ok(w1)), C::decoded(claim.2, q2, after, Err(err))]
                    A::decoded(claim.0, before, q1, Ok(w0)) && B::decoded(claim.1, q1, q2, Ok(w1)) && C::decoded(claim.2, q2, after, Err(err))
                ||| exists|q1: Reply, q2: Reply, q3: Reply, w0: A::Out, w1: B::Out, w2: C::Out|
                    #![trigger A::decoded(claim.0, before, q1, Ok(w0)), B::decoded(claim.1, q1, q2, Ok(w1)), C::decoded(claim.2, q2, q3, Ok(w2)), D::decoded(claim.3, q3, after, Err(err))]
                    A::decoded(claim.0, before, q1, Ok(w0)) && B::decoded(claim.1, q1, q2, Ok(w1)) && C::decoded(claim.2, q2, q3, Ok(w2)) && D::decoded(claim.3, q3, after, Err(err))
                ||| exists|q1: Reply, q2: Reply, q3: Reply, q4: Reply, w0: A::Out, w1: B::Out, w2: C::Out, w3: D::Out|
                    #![trigger A::decoded(claim.0, before, q1, Ok(w0)), B::decoded(claim.1, q1, q2, Ok(w1)), C::decoded(claim.2, q2, q3, Ok(w2)), D::decoded(claim.3, q3, q4, Ok(w3)), E::decoded(claim.4, q4, after, Err(err))]
                    A::decoded(claim.0, before, q1, Ok(w0)) && B::decoded(claim.1, q1, q2, Ok(w1)) && C::decoded(claim.2, q2, q3, Ok(w2)) && D::decoded(claim.3, q3, q4, Ok(w3)) && E::decoded(claim.4, q4, after, Err(err))
            },
        }
    }

    fn decode(claim: (A::Claim, B::Claim, C::Claim, D::Claim, E::Claim), reply: &mut Reply) -> (r: Result<(A::Out, B::Out, C::Out, D::Out, E::Out), Error>) {
        let (c0, c1, c2, c3, c4) = claim;
        let v0 = match A::decode(c0, reply) {
            Ok(v) => v,
            Err(err) => return Err(err),
        };
        let v1 = match B::decode(c1, reply) {
            Ok(v) => v,
            Err(err) => return Err(err),
        };
        let v2 = match C::decode(c2, reply) {
            Ok(v) => v,
            Err(err) => return Err(err),
        };
        let v3 = match D::decode(c3, reply) {
            Ok(v) => v,
            Err(err) => return Err(err),
        };
        let v4 = match E::decode(c4, reply) {
            Ok(v) => v,
            Err(err) => return Err(err),
        };
        proof {
            let r: Result<(A::Out, B::Out, C::Out, D::Out, E::Out), Error> = Ok((v0, v1, v2, v3, v4));
            assert(r matches Ok(v) && v.0 == v0 && v.1 == v1 && v.2 == v2 && v.3 == v3 && v.4 == v4);
        }
        Ok((v0, v1, v2, v3, v4))
    }
}

impl<A: Ask, B: Ask, C: Ask, D: Ask, E: Ask, F: Ask> Ask for (A, B, C, D, E, F) {
    type Out = (A::Out, B::Out, C::Out, D::Out, E::Out, F::Out);

    type Claim = (A::Claim, B::Claim, C::Claim, D::Claim, E::Claim, F::Claim);

    open spec fn encoded(&self, before: Plan, after: Plan, r: Result<(A::Claim, B::Claim, C::Claim, D::Claim, E::Claim, F::Claim), Error>) -> bool {
        match r {
            Ok(c) => exists|p1: Plan, p2: Plan, p3: Plan, p4: Plan, p5: Plan|
                #![trigger self.0.encoded(before, p1, Ok(c.0)), self.1.encoded(p1, p2, Ok(c.1)), self.2.encoded(p2, p3, Ok(c.2)), self.3.encoded(p3, p4, Ok(c.3)), self.4.encoded(p4, p5, Ok(c.4)), self.5.encoded(p5, after, Ok(c.5))]
                self.0.encoded(before, p1, Ok(c.0)) && self.1.encoded(p1, p2, Ok(c.1)) && self.2.encoded(p2, p3, Ok(c.2)) && self.3.encoded(p3, p4, Ok(c.3)) && self.4.encoded(p4, p5, Ok(c.4)) && self.5.encoded(p5, after, Ok(c.5)),
            Err(err) => {
                ||| self.0.encoded(before, after, Err(err))
                ||| exists|p1: Plan, d0: A::Claim|
                    #![trigger self.0.encoded(before, p1, Ok(d0)), self.1.encoded(p1, after, Err(err))]
                    self.0.encoded(before, p1, Ok(d0)) && self.1.encoded(p1, after, Err(err))
                ||| exists|p1: Plan, p2: Plan, d0: A::Claim, d1: B::Claim|
                    #![trigger self.0.encoded(before, p1, Ok(d0)), self.1.encoded(p1, p2, Ok(d1)), self.2.encoded(p2, after, Err(err))]
                    self.0.encoded(before, p1, Ok(d0)) && self.1.encoded(p1, p2, Ok(d1)) && self.2.encoded(p2, after, Err(err))
                ||| exists|p1: Plan, p2: Plan, p3: Plan, d0: A::Claim, d1: B::Claim, d2: C::Claim|
                    #![trigger self.0.encoded(before, p1, Ok(d0)), self.1.encoded(p1, p2, Ok(d1)), self.2.encoded(p2, p3, Ok(d2)), self.3.encoded(p3, after, Err(err))]
                    self.0.encoded(before, p1, Ok(d0)) && self.1.encoded(p1, p2, Ok(d1)) && self.2.encoded(p2, p3, Ok(d2)) && self.3.encoded(p3, after, Err(err))
                ||| exists|p1: Plan, p2: Plan, p3: Plan, p4: Plan, d0: A::Claim, d1: B::Claim, d2: C::Claim, d3: D::Claim|
                    #![trigger self.0.encoded(before, p1, Ok(d0)), self.1.encoded(p1, p2, Ok(d1)), self.2.encoded(p2, p3, Ok(d2)), self.3.encoded(p3, p4, Ok(d3)), self.4.encoded(p4, after, Err(err))]
                    self.0.encoded(before, p1, Ok(d0)) && self.1.encoded(p1, p2, Ok(d1)) && self.2.encoded(p2, p3, Ok(d2)) && self.3.encoded(p3, p4, Ok(d3)) && self.4.encoded(p4, after, Err(err))
                ||| exists|p1: Plan, p2: Plan, p3: Plan, p4: Plan, p5: Plan, d0: A::Claim, d1: B::Claim, d2: C::Claim, d3: D::Claim, d4: E::Claim|
                    #![trigger self.0.encoded(before, p1, Ok(d0)), self.1.encoded(p1, p2, Ok(d1)), self.2.encoded(p2, p3, Ok(d2)), self.3.encoded(p3, p4, Ok(d3)), self.4.encoded(p4, p5, Ok(d4)), self.5.encoded(p5, after, Err(err))]
                    self.0.encoded(before, p1, Ok(d0)) && self.1.encoded(p1, p2, Ok(d1)) && self.2.encoded(p2, p3, Ok(d2)) && self.3.encoded(p3, p4, Ok(d3)) && self.4.encoded(p4, p5, Ok(d4)) && self.5.encoded(p5, after, Err(err))
            },
        }
    }

    fn encode(self, plan: &mut Plan) -> (r: Result<(A::Claim, B::Claim, C::Claim, D::Claim, E::Claim, F::Claim), Error>) {
        let (s0, s1, s2, s3, s4, s5) = self;
        let ghost p0 = *plan;
        let c0 = match s0.encode(plan) {
            Ok(x) => x,
            Err(err) => return Err(err),
        };
        proof {
            lemma_extends_trans(p0, p0, *plan);
        }
        let ghost p1 = *plan;
        let c1 = match s1.encode(plan) {
            Ok(x) => x,
            Err(err) => return Err(err),
        };
        proof {
            lemma_extends_trans(p0, p1, *plan);
        }
        let ghost p2 = *plan;
        let c2 = match s2.encode(plan) {
            Ok(x) => x,
            Err(err) => return Err(err),
        };
        proof {
            lemma_extends_trans(p0, p2, *plan);
        }
        let ghost p3 = *plan;
        let c3 = match s3.encode(plan) {
            Ok(x) => x,
            Err(err) => return Err(err),
        };
        proof {
            lemma_extends_trans(p0, p3, *plan);
        }
        let ghost p4 = *plan;
        let c4 = match s4.encode(plan) {
            Ok(x) => x,
            Err(err) => return Err(err),
        };
        proof {
            lemma_extends_trans(p0, p4, *plan);
        }
        let ghost p5 = *plan;
        let c5 = match s5.encode(plan) {
            Ok(x) => x,
            Err(err) => return Err(err),
        };
        proof {
            lemma_extends_trans(p0, p5, *plan);
        }
        proof {
            let r: Result<(A::Claim, B::Claim, C::Claim, D::Claim, E::Claim, F::Claim), Error> = Ok((c0, c1, c2, c3, c4, c5));
            assert(r matches Ok(c) && c.0 == c0 && c.1 == c1 && c.2 == c2 && c.3 == c3 && c.4 == c4 && c.5 == c5);
        }
        Ok((c0, c1, c2, c3, c4, c5))
    }

    open spec fn decoded(claim: (A::Claim, B::Claim, C::Claim, D::Claim, E::Claim, F::Claim), before: Reply, after: Reply, r: Result<(A::Out, B::Out, C::Out, D::Out, E::Out, F::Out), Error>) -> bool {
        match r {
            Ok(v) => exists|q1: Reply, q2: Reply, q3: Reply, q4: Reply, q5: Reply|
                #![trigger A::decoded(claim.0, before, q1, Ok(v.0)), B::decoded(claim.1, q1, q2, Ok(v.1)), C::decoded(claim.2, q2, q3, Ok(v.2)), D::decoded(claim.3, q3, q4, Ok(v.3)), E::decoded(claim.4, q4, q5, Ok(v.4)), F::decoded(claim.5, q5, after, Ok(v.5))]
                A::decoded(claim.0, before, q1, Ok(v.0)) && B::decoded(claim.1, q1, q2, Ok(v.1)) && C::decoded(claim.2, q2, q3, Ok(v.2)) && D::decoded(claim.3, q3, q4, Ok(v.3)) && E::decoded(claim.4, q4, q5, Ok(v.4)) && F::decoded(claim.5, q5, after, Ok(v.5)),
            Err(err) => {
                ||| A::decoded(claim.0, before, after, Err(err))
                ||| exists|q1: Reply, w0: A::Out|
                    #![trigger A::decoded(claim.0, before, q1, Ok(w0)), B::decoded(claim.1, q1, after, Err(err))]
                    A::decoded(claim.0, before, q1, Ok(w0)) && B::decoded(claim.1, q1, after, Err(err))
                ||| exists|q1: Reply, q2: Reply, w0: A::Out, w1: B::Out|
                    #![trigger A::decoded(claim.0, before, q1, Ok(w0)), B::decoded(claim.1, q1, q2, Ok(w1)), C::decoded(claim.2, q2, after, Err(err))]
                    A::decoded(claim.0, before, q1, Ok(w0)) && B::decoded(claim.1, q1, q2, Ok(w1)) && C::decoded(claim.2, q2, after, Err(err))
                ||| exists|q1: Reply, q2: Reply, q3: Reply, w0: A::Out, w1: B::Out, w2: C::Out|
                    #![trigger A::decoded(claim.0, before, q1, Ok(w0)), B::decoded(claim.1, q1, q2, Ok(w1)), C::decoded(claim.2, q2, q3, Ok(w2)), D::decoded(claim.3, q3, after, Err(err))]
                    A::decoded(claim.0, before, q1, Ok(w0)) && B::decoded(claim.1, q1, q2, Ok(w1)) && C::decoded(claim.2, q2, q3, Ok(w2)) && D::decoded(claim.3, q3, after, Err(err))
                ||| exists|q1: Reply, q2: Reply, q3: Reply, q4: Reply, w0: A::Out, w1: B::Out, w2: C::Out, w3: D::Out|
                    #![trigger A::decoded(claim.0, before, q1, Ok(w0)), B::decoded(claim.1, q1, q2, Ok(w1)), C::decoded(claim.2, q2, q3, Ok(w2)), D::decoded(claim.3, q3, q4, Ok(w3)), E::decoded(claim.4, q4, after, Err(err))]
                    A::decoded(claim.0, before, q1, Ok(w0)) && B::decoded(claim.1, q1, q2, Ok(w1)) && C::decoded(claim.2, q2, q3, Ok(w2)) && D::decoded(claim.3, q3, q4, Ok(w3)) && E::decoded(claim.4, q4, after, Err(err))
                ||| exists|q1: Reply, q2: Reply, q3: Reply, q4: Reply, q5: Reply, w0: A::Out, w1: B::Out, w2: C::Out, w3: D::Out, w4: E::Out|
                    #![trigger A::decoded(claim.0, before, q1, Ok(w0)), B::decoded(claim.1, q1, q2, Ok(w1)), C::decoded(claim.2, q2, q3, Ok(w2)), D::decoded(claim.3, q3, q4, Ok(w3)), E::decoded(claim.4, q4, q5, Ok(w4)), F::decoded(claim.5, q5, after, Err(err))]
                    A::decoded(claim.0, before, q1, Ok(w0)) && B::decoded(claim.1, q1, q2, Ok(w1)) && C::decoded(claim.2, q2, q3, Ok(w2)) && D::decoded(claim.3, q3, q4, Ok(w3)) && E::decoded(claim.4, q4, q5, Ok(w4)) && F::decoded(claim.5, q5, after, Err(err))
            },
        }
    }

    fn decode(claim: (A::Claim, B::Claim, C::Claim, D::Claim, E::Claim, F::Claim), reply: &mut Reply) -> (r: Result<(A::Out, B::Out, C::Out, D::Out, E::Out, F::Out), Error>) {
        let (c0, c1, c2, c3, c4, c5) = claim;
        let v0 = match A::decode(c0, reply) {
            Ok(v) => v,
            Err(err) => return Err(err),
        };
        let v1 = match B::decode(c1, reply) {
            Ok(v) => v,
            Err(err) => return Err(err),
        };
        let v2 = match C::decode(c2, reply) {
            Ok(v) => v,
            Err(err) => return Err(err),
        };
        let v3 = match D::decode(c3, reply) {
            Ok(v) => v,
            Err(err) => return Err(err),
        };
        let v4 = match E::decode(c4, reply) {
            Ok(v) => v,
            Err(err) => return Err(err),
        };
        let v5 = match F::decode(c5, reply) {
            Ok(v) => v,
            Err(err) => return Err(err),
        };
        proof {
            let r: Result<(A::Out, B::Out, C::Out, D::Out, E::Out, F::Out), Error> = Ok((v0, v1, v2, v3, v4, v5));
            assert(r matches Ok(v) && v.0 == v0 && v.1 == v1 && v.2 == v2 && v.3 == v3 && v.4 == v4 && v.5 == v5);
        }
        Ok((v0, v1, v2, v3, v4, v5))
    }
}

impl<A: Ask, B: Ask, C: Ask, D: Ask, E: Ask, F: Ask, G: Ask> Ask for (A, B, C, D, E, F, G) {
    type Out = (A::Out, B::Out, C::Out, D::Out, E::Out, F::Out, G::Out);

    type Claim = (A::Claim, B::Claim, C::Claim, D::Claim, E::Claim, F::Claim, G::Claim);

    open spec fn encoded(&self, before: Plan, after: Plan, r: Result<(A::Claim, B::Claim, C::Claim, D::Claim, E::Claim, F::Claim, G::Claim), Error>) -> bool {
        match r {
            Ok(c) => exists|p1: Plan, p2: Plan, p3: Plan, p4: Plan, p5: Plan, p6: Plan|
                #![trigger self.0.encoded(before, p1, Ok(c.0)), self.1.encoded(p1, p2, Ok(c.1)), self.2.encoded(p2, p3, Ok(c.2)), self.3.encoded(p3, p4, Ok(c.3)), self.4.encoded(p4, p5, Ok(c.4)), self.5.encoded(p5, p6, Ok(c.5)), self.6.encoded(p6, after, Ok(c.6))]
                self.0.encoded(before, p1, Ok(c.0)) && self.1.encoded(p1, p2, Ok(c.1)) && self.2.encoded(p2, p3, Ok(c.2)) && self.3.encoded(p3, p4, Ok(c.3)) && self.4.encoded(p4, p5, Ok(c.4)) && self.5.encoded(p5, p6, Ok(c.5)) && self.6.encoded(p6, after, Ok(c.6)),
            Err(err) => {
                ||| self.0.encoded(before, after, Err(err))
                ||| exists|p1: Plan, d0: A::Claim|
                    #![trigger self.0.encoded(before, p1, Ok(d0)), self.1.encoded(p1, after, Err(err))]
                    self.0.encoded(before, p1, Ok(d0)) && self.1.encoded(p1, after, Err(err))
                ||| exists|p1: Plan, p2: Plan, d0: A::Claim, d1: B::Claim|
                    #![trigger self.0.encoded(before, p1, Ok(d0)), self.1.encoded(p1, p2, Ok(d1)), self.2.encoded(p2, after, Err(err))]
                    self.0.encoded(before, p1, Ok(d0)) && self.1.encoded(p1, p2, Ok(d1)) && self.2.encoded(p2, after, Err(err))
                ||| exists|p1: Plan, p2: Plan, p3: Plan, d0: A::Claim, d1: B::Claim, d2: C::Claim|
                    #![trigger self.0.encoded(before, p1, Ok(d0)), self.1.encoded(p1, p2, Ok(d1)), self.2.encoded(p2, p3, Ok(d2)), self.3.encoded(p3, after, Err(err))]
                    self.0.encoded(before, p1, Ok(d0)) && self.1.encoded(p1, p2, Ok(d1)) && self.2.encoded(p2, p3, Ok(d2)) && self.3.encoded(p3, after, Err(err))
                ||| exists|p1: Plan, p2: Plan, p3: Plan, p4: Plan, d0: A::Claim, d1: B::Claim, d2: C::Claim, d3: D::Claim|
                    #![trigger self.0.encoded(before, p1, Ok(d0)), self.1.encoded(p1, p2, Ok(d1)), self.2.encoded(p2, p3, Ok(d2)), self.3.encoded(p3, p4, Ok(d3)), self.4.encoded(p4, after, Err(err))]
                    self.0.encoded(before, p1, Ok(d0)) && self.1.encoded(p1, p2, Ok(d1)) && self.2.encoded(p2, p3, Ok(d2)) && self.3.encoded(p3, p4, Ok(d3)) && self.4.encoded(p4, after, Err(err))
                ||| exists|p1: Plan, p2: Plan, p3: Plan, p4: Plan, p5: Plan, d0: A::Claim, d1: B::Claim, d2: C::Claim, d3: D::Claim, d4: E::Claim|
                    #![trigger self.0.encoded(before, p1, Ok(d0)), self.1.encoded(p1, p2, Ok(d1)), self.2.encoded(p2, p3, Ok(d2)), self.3.encoded(p3, p4, Ok(d3)), self.4.encoded(p4, p5, Ok(d4)), self.5.encoded(p5, after, Err(err))]
                    self.0.encoded(before, p1, Ok(d0)) && self.1.encoded(p1, p2, Ok(d1)) && self.2.encoded(p2, p3, Ok(d2)) && self.3.encoded(p3, p4, Ok(d3)) && self.4.encoded(p4, p5, Ok(d4)) && self.5.encoded(p5, after, Err(err))
                ||| exists|p1: Plan, p2: Plan, p3: Plan, p4: Plan, p5: Plan, p6: Plan, d0: A::Claim, d1: B::Claim, d2: C::Claim, d3: D::Claim, d4: E::Claim, d5: F::Claim|
                    #![trigger self.0.encoded(before, p1, Ok(d0)), self.1.encoded(p1, p2, Ok(d1)), self.2.encoded(p2, p3, Ok(d2)), self.3.encoded(p3, p4, Ok(d3)), self.4.encoded(p4, p5, Ok(d4)), self.5.encoded(p5, p6, Ok(d5)), self.6.encoded(p6, after, Err(err))]
                    self.0.encoded(before, p1, Ok(d0)) && self.1.encoded(p1, p2, Ok(d1)) && self.2.encoded(p2, p3, Ok(d2)) && self.3.encoded(p3, p4, Ok(d3)) && self.4.encoded(p4, p5, Ok(d4)) && self.5.encoded(p5, p6, Ok(d5)) && self.6.encoded(p6, after, Err(err))
            },
        }
    }

    fn encode(self, plan: &mut Plan) -> (r: Result<(A::Claim, B::Claim, C::Claim, D::Claim, E::Claim, F::Claim, G::Claim), Error>) {
        let (s0, s1, s2, s3, s4, s5, s6) = self;
        let ghost p0 = *plan;
        let c0 = match s0.encode(plan) {
            Ok(x) => x,
            Err(err) => return Err(err),
        };
        proof {
            lemma_extends_trans(p0, p0, *plan);
        }
        let ghost p1 = *plan;
        let c1 = match s1.encode(plan) {
            Ok(x) => x,
            Err(err) => return Err(err),
        };
        proof {
            lemma_extends_trans(p0, p1, *plan);
        }
        let ghost p2 = *plan;
        let c2 = match s2.encode(plan) {
            Ok(x) => x,
            Err(err) => return Err(err),
        };
        proof {
            lemma_extends_trans(p0, p2, *plan);
        }
        let ghost p3 = *plan;
        let c3 = match s3.encode(plan) {
            Ok(x) => x,
            Err(err) => return Err(err),
        };
        proof {
            lemma_extends_trans(p0, p3, *plan);
        }
        let ghost p4 = *plan;
        let c4 = match s4.encode(plan) {
            Ok(x) => x,
            Err(err) => return Err(err),
        };
        proof {
            lemma_extends_trans(p0, p4, *plan);
        }
        let ghost p5 = *plan;
        let c5 = match s5.encode(plan) {
            Ok(x) => x,
            Err(err) => return Err(err),
        };
        proof {
            lemma_extends_trans(p0, p5, *plan);
        }
        let ghost p6 = *plan;
        let c6 = match s6.encode(plan) {
            Ok(x) => x,
            Err(err) => return Err(err),
        };
        proof {
            lemma_extends_trans(p0, p6, *plan);
        }
        proof {
            let r: Result<(A::Claim, B::Claim, C::Claim, D::Claim, E::Claim, F::Claim, G::Claim), Error> = Ok((c0, c1, c2, c3, c4, c5, c6));
            assert(r matches Ok(c) && c.0 == c0 && c.1 == c1 && c.2 == c2 && c.3 == c3 && c.4 == c4 && c.5 == c5 && c.6 == c6);
        }
        Ok((c0, c1, c2, c3, c4, c5, c6))
    }

    open spec fn decoded(claim: (A::Claim, B::Claim, C::Claim, D::Claim, E::Claim, F::Claim, G::Claim), before: Reply, after: Reply, r: Result<(A::Out, B::Out, C::Out, D::Out, E::Out, F::Out, G::Out), Error>) -> bool {
        match r {
            Ok(v) => exists|q1: Reply, q2: Reply, q3: Reply, q4: Reply, q5: Reply, q6: Reply|
                #![trigger A::decoded(claim.0, before, q1, Ok(v.0)), B::decoded(claim.1, q1, q2, Ok(v.1)), C::decoded(claim.2, q2, q3, Ok(v.2)), D::decoded(claim.3, q3, q4, Ok(v.3)), E::decoded(claim.4, q4, q5, Ok(v.4)), F::decoded(claim.5, q5, q6, Ok(v.5)), G::decoded(claim.6, q6, after, Ok(v.6))]
                A::decoded(claim.0, before, q1, Ok(v.0)) && B::decoded(claim.1, q1, q2, Ok(v.1)) && C::decoded(claim.2, q2, q3, Ok(v.2)) && D::decoded(claim.3, q3, q4, Ok(v.3)) && E::decoded(claim.4, q4, q5, Ok(v.4)) && F::decoded(claim.5, q5, q6, Ok(v.5)) && G::decoded(claim.6, q6, after, Ok(v.6)),
            Err(err) => {
                ||| A::decoded(claim.0, before, after, Err(err))
                ||| exists|q1: Reply, w0: A::Out|
                    #![trigger A::decoded(claim.0, before, q1, Ok(w0)), B::decoded(claim.1, q1, after, Err(err))]
                    A::decoded(claim.0, before, q1, Ok(w0)) && B::decoded(claim.1, q1, after, Err(err))
                ||| exists|q1: Reply, q2: Reply, w0: A::Out, w1: B::Out|
                    #![trigger A::decoded(claim.0, before, q1, Ok(w0)), B::decoded(claim.1, q1, q2, Ok(w1)), C::decoded(claim.2, q2, after, Err(err))]
                    A::decoded(claim.0, before, q1, Ok(w0)) && B::decoded(claim.1, q1, q2, Ok(w1)) && C::decoded(claim.2, q2, after, Err(err))
                ||| exists|q1: Reply, q2: Reply, q3: Reply, w0: A::Out, w1: B::Out, w2: C::Out|
                    #![trigger A::decoded(claim.0, before, q1, Ok(w0)), B::decoded(claim.1, q1, q2, Ok(w1)), C::decoded(claim.2, q2, q3, Ok(w2)), D::decoded(claim.3, q3, after, Err(err))]
                    A::decoded(claim.0, before, q1, Ok(w0)) && B::decoded(claim.1, q1, q2, Ok(w1)) && C::decoded(claim.2, q2, q3, Ok(w2)) && D::decoded(claim.3, q3, after, Err(err))
                ||| exists|q1: Reply, q2: Reply, q3: Reply, q4: Reply, w0: A::Out, w1: B::Out, w2: C::Out, w3: D::Out|
                    #![trigger A::decoded(claim.0, before, q1, Ok(w0)), B::decoded(claim.1, q1, q2, Ok(w1)), C::decoded(claim.2, q2, q3, Ok(w2)), D::decoded(claim.3, q3, q4, Ok(w3)), E::decoded(claim.4, q4, after, Err(err))]
                    A::decoded(claim.0, before, q1, Ok(w0)) && B::decoded(claim.1, q1, q2, Ok(w1)) && C::decoded(claim.2, q2, q3, Ok(w2)) && D::decoded(claim.3, q3, q4, Ok(w3)) && E::decoded(claim.4, q4, after, Err(err))
                ||| exists|q1: Reply, q2: Reply, q3: Reply, q4: Reply, q5: Reply, w0: A::Out, w1: B::Out, w2: C::Out, w3: D::Out, w4: E::Out|
                    #![trigger A::decoded(claim.0, before, q1, Ok(w0)), B::decoded(claim.1, q1, q2, Ok(w1)), C::decoded(claim.2, q2, q3, Ok(w2)), D::decoded(claim.3, q3, q4, Ok(w3)), E::decoded(claim.4, q4, q5, Ok(w4)), F::decoded(claim.5, q5, after, Err(err))]
                    A::decoded(claim.0, before, q1, Ok(w0)) && B::decoded(claim.1, q1, q2, Ok(w1)) && C::decoded(claim.2, q2, q3, Ok(w2)) && D::decoded(claim.3, q3, q4, Ok(w3)) && E::decoded(claim.4, q4, q5, Ok(w4)) && F::decoded(claim.5, q5, after, Err(err))
                ||| exists|q1: Reply, q2: Reply, q3: Reply, q4: Reply, q5: Reply, q6: Reply, w0: A::Out, w1: B::Out, w2: C::Out, w3: D::Out, w4: E::Out, w5: F::Out|
                    #![trigger A::decoded(claim.0, before, q1, Ok(w0)), B::decoded(claim.1, q1, q2, Ok(w1)), C::decoded(claim.2, q2, q3, Ok(w2)), D::decoded(claim.3, q3, q4, Ok(w3)), E::decoded(claim.4, q4, q5, Ok(w4)), F::decoded(claim.5, q5, q6, Ok(w5)), G::decoded(claim.6, q6, after, Err(err))]
                    A::decoded(claim.0, before, q1, Ok(w0)) && B::decoded(claim.1, q1, q2, Ok(w1)) && C::decoded(claim.2, q2, q3, Ok(w2)) && D::decoded(claim.3, q3, q4, Ok(w3)) && E::decoded(claim.4, q4, q5, Ok(w4)) && F::decoded(claim.5, q5, q6, Ok(w5)) && G::decoded(claim.6, q6, after, Err(err))
            },
        }
    }

    fn decode(claim: (A::Claim, B::Claim, C::Claim, D::Claim, E::Claim, F::Claim, G::Claim), reply: &mut Reply) -> (r: Result<(A::Out, B::Out, C::Out, D::Out, E::Out, F::Out, G::Out), Error>) {
        let (c0, c1, c2, c3, c4, c5, c6) = claim;
        let v0 = match A::decode(c0, reply) {
            Ok(v) => v,
            Err(err) => return Err(err),
        };
        let v1 = match B::decode(c1, reply) {
            Ok(v) => v,
            Err(err) => return Err(err),
        };
        let v2 = match C::decode(c2, reply) {
            Ok(v) => v,
            Err(err) => return Err(err),
        };
        let v3 = match D::decode(c3, reply) {
            Ok(v) => v,
            Err(err) => return Err(err),
        };
        let v4 = match E::decode(c4, reply) {
            Ok(v) => v,
            Err(err) => return Err(err),
        };
        let v5 = match F::decode(c5, reply) {
            Ok(v) => v,
            Err(err) => return Err(err),
        };
        let v6 = match G::decode(c6, reply) {
            Ok(v) => v,
            Err(err) => return Err(err),
        };
        proof {
            let r: Result<(A::Out, B::Out, C::Out, D::Out, E::Out, F::Out, G::Out), Error> = Ok((v0, v1, v2, v3, v4, v5, v6));
            assert(r matches Ok(v) && v.0 == v0 && v.1 == v1 && v.2 == v2 && v.3 == v3 && v.4 == v4 && v.5 == v5 && v.6 == v6);
        }
        Ok((v0, v1, v2, v3, v4, v5, v6))
    }
}

impl<A: Ask, B: Ask, C: Ask, D: Ask, E: Ask, F: Ask, G: Ask, H: Ask> Ask for (A, B, C, D, E, F, G, H) {
    type Out = (A::Out, B::Out, C::Out, D::Out, E::Out, F::Out, G::Out, H::Out);

    type Claim = (A::Claim, B::Claim, C::Claim, D::Claim, E::Claim, F::Claim, G::Claim, H::Claim);

    open spec fn encoded(&self, before: Plan, after: Plan, r: Result<(A::Claim, B::Claim, C::Claim, D::Claim, E::Claim, F::Claim, G::Claim, H::Claim), Error>) -> bool {
        match r {
            Ok(c) => exists|p1: Plan, p2: Plan, p3: Plan, p4: Plan, p5: Plan, p6: Plan, p7: Plan|
                #![trigger self.0.encoded(before, p1, Ok(c.0)), self.1.encoded(p1, p2, Ok(c.1)), self.2.encoded(p2, p3, Ok(c.2)), self.3.encoded(p3, p4, Ok(c.3)), self.4.encoded(p4, p5, Ok(c.4)), self.5.encoded(p5, p6, Ok(c.5)), self.6.encoded(p6, p7, Ok(c.6)), self.7.encoded(p7, after, Ok(c.7))]
                self.0.encoded(before, p1, Ok(c.0)) && self.1.encoded(p1, p2, Ok(c.1)) && self.2.encoded(p2, p3, Ok(c.2)) && self.3.encoded(p3, p4, Ok(c.3)) && self.4.encoded(p4, p5, Ok(c.4)) && self.5.encoded(p5, p6, Ok(c.5)) && self.6.encoded(p6, p7, Ok(c.6)) && self.7.encoded(p7, after, Ok(c.7)),
            Err(err) => {
                ||| self.0.encoded(before, after, Err(err))
                ||| exists|p1: Plan, d0: A::Claim|
                    #![trigger self.0.encoded(before, p1, Ok(d0)), self.1.encoded(p1, after, Err(err))]
                    self.0.encoded(before, p1, Ok(d0)) && self.1.encoded(p1, after, Err(err))
                ||| exists|p1: Plan, p2: Plan, d0: A::Claim, d1: B::Claim|
                    #![trigger self.0.encoded(before, p1, Ok(d0)), self.1.encoded(p1, p2, Ok(d1)), self.2.encoded(p2, after, Err(err))]
                    self.0.encoded(before, p1, Ok(d0)) && self.1.encoded(p1, p2, Ok(d1)) && self.2.encoded(p2, after, Err(err))
                ||| exists|p1: Plan, p2: Plan, p3: Plan, d0: A::Claim, d1: B::Claim, d2: C::Claim|
                    #![trigger self.0.encoded(before, p1, Ok(d0)), self.1.encoded(p1, p2, Ok(d1)), self.2.encoded(p2, p3, Ok(d2)), self.3.encoded(p3, after, Err(err))]
                    self.0.encoded(before, p1, Ok(d0)) && self.1.encoded(p1, p2, Ok(d1)) && self.2.encoded(p2, p3, Ok(d2)) && self.3.encoded(p3, after, Err(err))
                ||| exists|p1: Plan, p2: Plan, p3: Plan, p4: Plan, d0: A::Claim, d1: B::Claim, d2: C::Claim, d3: D::Claim|
                    #![trigger self.0.encoded(before, p1, Ok(d0)), self.1.encoded(p1, p2, Ok(d1)), self.2.encoded(p2, p3, Ok(d2)), self.3.encoded(p3, p4, Ok(d3)), self.4.encoded(p4, after, Err(err))]
                    self.0.encoded(before, p1, Ok(d0)) && self.1.encoded(p1, p2, Ok(d1)) && self.2.encoded(p2, p3, Ok(d2)) && self.3.encoded(p3, p4, Ok(d3)) && self.4.encoded(p4, after, Err(err))
                ||| exists|p1: Plan, p2: Plan, p3: Plan, p4: Plan, p5: Plan, d0: A::Claim, d1: B::Claim, d2: C::Claim, d3: D::Claim, d4: E::Claim|
                    #![trigger self.0.encoded(before, p1, Ok(d0)), self.1.encoded(p1, p2, Ok(d1)), self.2.encoded(p2, p3, Ok(d2)), self.3.encoded(p3, p4, Ok(d3)), self.4.encoded(p4, p5, Ok(d4)), self.5.encoded(p5, after, Err(err))]
                    self.0.encoded(before, p1, Ok(d0)) && self.1.encoded(p1, p2, Ok(d1)) && self.2.encoded(p2, p3, Ok(d2)) && self.3.encoded(p3, p4, Ok(d3)) && self.4.encoded(p4, p5, Ok(d4)) && self.5.encoded(p5, after, Err(err))
                ||| exists|p1: Plan, p2: Plan, p3: Plan, p4: Plan, p5: Plan, p6: Plan, d0: A::Claim, d1: B::Claim, d2: C::Claim, d3: D::Claim, d4: E::Claim, d5: F::Claim|
                    #![trigger self.0.encoded(before, p1, Ok(d0)), self.1.encoded(p1, p2, Ok(d1)), self.2.encoded(p2, p3, Ok(d2)), self.3.encoded(p3, p4, Ok(d3)), self.4.encoded(p4, p5, Ok(d4)), self.5.encoded(p5, p6, Ok(d5)), self.6.encoded(p6, after, Err(err))]
                    self.0.encoded(before, p1, Ok(d0)) && self.1.encoded(p1, p2, Ok(d1)) && self.2.encoded(p2, p3, Ok(d2)) && self.3.encoded(p3, p4, Ok(d3)) && self.4.encoded(p4, p5, Ok(d4)) && self.5.encoded(p5, p6, Ok(d5)) && self.6.encoded(p6, after, Err(err))
                ||| exists|p1: Plan, p2: Plan, p3: Plan, p4: Plan, p5: Plan, p6: Plan, p7: Plan, d0: A::Claim, d1: B::Claim, d2: C::Claim, d3: D::Claim, d4: E::Claim, d5: F::Claim, d6: G::Claim|
                    #![trigger self.0.encoded(before, p1, Ok(d0)), self.1.encoded(p1, p2, Ok(d1)), self.2.encoded(p2, p3, Ok(d2)), self.3.encoded(p3, p4, Ok(d3)), self.4.encoded(p4, p5, Ok(d4)), self.5.encoded(p5, p6, Ok(d5)), self.6.encoded(p6, p7, Ok(d6)), self.7.encoded(p7, after, Err(err))]
                    self.0.encoded(before, p1, Ok(d0)) && self.1.encoded(p1, p2, Ok(d1)) && self.2.encoded(p2, p3, Ok(d2)) && self.3.encoded(p3, p4, Ok(d3)) && self.4.encoded(p4, p5, Ok(d4)) && self.5.encoded(p5, p6, Ok(d5)) && self.6.encoded(p6, p7, Ok(d6)) && self.7.encoded(p7, after, Err(err))
            },
        }
    }

    fn encode(self, plan: &mut Plan) -> (r: Result<(A::Claim, B::Claim, C::Claim, D::Claim, E::Claim, F::Claim, G::Claim, H::Claim), Error>) {
        let (s0, s1, s2, s3, s4, s5, s6, s7) = self;
        let ghost p0 = *plan;
        let c0 = match s0.encode(plan) {
            Ok(x) => x,
            Err(err) => return Err(err),
        };
        proof {
            lemma_extends_trans(p0, p0, *plan);
        }
        let ghost p1 = *plan;
        let c1 = match s1.encode(plan) {
            Ok(x) => x,
            Err(err) => return Err(err),
        };
        proof {
            lemma_extends_trans(p0, p1, *plan);
        }
        let ghost p2 = *plan;
        let c2 = match s2.encode(plan) {
            Ok(x) => x,
            Err(err) => return Err(err),
        };
        proof {
            lemma_extends_trans(p0, p2, *plan);
        }
        let ghost p3 = *plan;
        let c3 = match s3.encode(plan) {
            Ok(x) => x,
            Err(err) => return Err(err),
        };
        proof {
            lemma_extends_trans(p0, p3, *plan);
        }
        let ghost p4 = *plan;
        let c4 = match s4.encode(plan) {
            Ok(x) => x,
            Err(err) => return Err(err),
        };
        proof {
            lemma_extends_trans(p0, p4, *plan);
        }
        let ghost p5 = *plan;
        let c5 = match s5.encode(plan) {
            Ok(x) => x,
            Err(err) => return Err(err),
        };
        proof {
            lemma_extends_trans(p0, p5, *plan);
        }
        let ghost p6 = *plan;
        let c6 = match s6.encode(plan) {
            Ok(x) => x,
            Err(err) => return Err(err),
        };
        proof {
            lemma_extends_trans(p0, p6, *plan);
        }
        let ghost p7 = *plan;
        let c7 = match s7.encode(plan) {
            Ok(x) => x,
            Err(err) => return Err(err),
        };
        proof {
            lemma_extends_trans(p0, p7, *plan);
        }
        proof {
            let r: Result<(A::Claim, B::Claim, C::Claim, D::Claim, E::Claim, F::Claim, G::Claim, H::Claim), Error> = Ok((c0, c1, c2, c3, c4, c5, c6, c7));
            assert(r matches Ok(c) && c.0 == c0 && c.1 == c1 && c.2 == c2 && c.3 == c3 && c.4 == c4 && c.5 == c5 && c.6 == c6 && c.7 == c7);
        }
        Ok((c0, c1, c2, c3, c4, c5, c6, c7))
    }

    open spec fn decoded(claim: (A::Claim, B::Claim, C::Claim, D::Claim, E::Claim, F::Claim, G::Claim, H::Claim), before: Reply, after: Reply, r: Result<(A::Out, B::Out, C::Out, D::Out, E::Out, F::Out, G::Out, H::Out), Error>) -> bool {
        match r {
            Ok(v) => exists|q1: Reply, q2: Reply, q3: Reply, q4: Reply, q5: Reply, q6: Reply, q7: Reply|
                #![trigger A::decoded(claim.0, before, q1, Ok(v.0)), B::decoded(claim.1, q1, q2, Ok(v.1)), C::decoded(claim.2, q2, q3, Ok(v.2)), D::decoded(claim.3, q3, q4, Ok(v.3)), E::decoded(claim.4, q4, q5, Ok(v.4)), F::decoded(claim.5, q5, q6, Ok(v.5)), G::decoded(claim.6, q6, q7, Ok(v.6)), H::decoded(claim.7, q7, after, Ok(v.7))]
                A::decoded(claim.0, before, q1, Ok(v.0)) && B::decoded(claim.1, q1, q2, Ok(v.1)) && C::decoded(claim.2, q2, q3, Ok(v.2)) && D::decoded(claim.3, q3, q4, Ok(v.3)) && E::decoded(claim.4, q4, q5, Ok(v.4)) && F::decoded(claim.5, q5, q6, Ok(v.5)) && G::decoded(claim.6, q6, q7, Ok(v.6)) && H::decoded(claim.7, q7, after, Ok(v.7)),
            Err(err) => {
                ||| A::decoded(claim.0, before, after, Err(err))
                ||| exists|q1: Reply, w0: A::Out|
                    #![trigger A::decoded(claim.0, before, q1, Ok(w0)), B::decoded(claim.1, q1, after, Err(err))]
                    A::decoded(claim.0, before, q1, Ok(w0)) && B::decoded(claim.1, q1, after, Err(err))
                ||| exists|q1: Reply, q2: Reply, w0: A::Out, w1: B::Out|
                    #![trigger A::decoded(claim.0, before, q1, Ok(w0)), B::decoded(claim.1, q1, q2, Ok(w1)), C::decoded(claim.2, q2, after, Err(err))]
                    A::decoded(claim.0, before, q1, Ok(w0)) && B::decoded(claim.1, q1, q2, Ok(w1)) && C::decoded(claim.2, q2, after, Err(err))
                ||| exists|q1: Reply, q2: Reply, q3: Reply, w0: A::Out, w1: B::Out, w2: C::Out|
                    #![trigger A::decoded(claim.0, before, q1, Ok(w0)), B::decoded(claim.1, q1, q2, Ok(w1)), C::decoded(claim.2, q2, q3, Ok(w2)), D::decoded(claim.3, q3, after, Err(err))]
                    A::decoded(claim.0, before, q1, Ok(w0)) && B::decoded(claim.1, q1, q2, Ok(w1)) && C::decoded(claim.2, q2, q3, Ok(w2)) && D::decoded(claim.3, q3, after, Err(err))
                ||| exists|q1: Reply, q2: Reply, q3: Reply, q4: Reply, w0: A::Out, w1: B::Out, w2: C::Out, w3: D::Out|
                    #![trigger A::decoded(claim.0, before, q1, Ok(w0)), B::decoded(claim.1, q1, q2, Ok(w1)), C::decoded(claim.2, q2, q3, Ok(w2)), D::decoded(claim.3, q3, q4, Ok(w3)), E::decoded(claim.4, q4, after, Err(err))]
                    A::decoded(claim.0, before, q1, Ok(w0)) && B::decoded(claim.1, q1, q2, Ok(w1)) && C::decoded(claim.2, q2, q3, Ok(w2)) && D::decoded(claim.3, q3, q4, Ok(w3)) && E::decoded(claim.4, q4, after, Err(err))
                ||| exists|q1: Reply, q2: Reply, q3: Reply, q4: Reply, q5: Reply, w0: A::Out, w1: B::Out, w2: C::Out, w3: D::Out, w4: E::Out|
                    #![trigger A::decoded(claim.0, before, q1, Ok(w0)), B::decoded(claim.1, q1, q2, Ok(w1)), C::decoded(claim.2, q2, q3, Ok(w2)), D::decoded(claim.3, q3, q4, Ok(w3)), E::decoded(claim.4, q4, q5, Ok(w4)), F::decoded(claim.5, q5, after, Err(err))]
                    A::decoded(claim.0, before, q1, Ok(w0)) && B::decoded(claim.1, q1, q2, Ok(w1)) && C::decoded(claim.2, q2, q3, Ok(w2)) && D::decoded(claim.3, q3, q4, Ok(w3)) && E::decoded(claim.4, q4, q5, Ok(w4)) && F::decoded(claim.5, q5, after, Err(err))
                ||| exists|q1: Reply, q2: Reply, q3: Reply, q4: Reply, q5: Reply, q6: Reply, w0: A::Out, w1: B::Out, w2: C::Out, w3: D::Out, w4: E::Out, w5: F::Out|
                    #![trigger A::decoded(claim.0, before, q1, Ok(w0)), B::decoded(claim.1, q1, q2, Ok(w1)), C::decoded(claim.2, q2, q3, Ok(w2)), D::decoded(claim.3, q3, q4, Ok(w3)), E::decoded(claim.4, q4, q5, Ok(w4)), F::decoded(claim.5, q5, q6, Ok(w5)), G::decoded(claim.6, q6, after, Err(err))]
                    A::decoded(claim.0, before, q1, Ok(w0)) && B::decoded(claim.1, q1, q2, Ok(w1)) && C::decoded(claim.2, q2, q3, Ok(w2)) && D::decoded(claim.3, q3, q4, Ok(w3)) && E::decoded(claim.4, q4, q5, Ok(w4)) && F::decoded(claim.5, q5, q6, Ok(w5)) && G::decoded(claim.6, q6, after, Err(err))
                ||| exists|q1: Reply, q2: Reply, q3: Reply, q4: Reply, q5: Reply, q6: Reply, q7: Reply, w0: A::Out, w1: B::Out, w2: C::Out, w3: D::Out, w4: E::Out, w5: F::Out, w6: G::Out|
                    #![trigger A::decoded(claim.0, before, q1, Ok(w0)), B::decoded(claim.1, q1, q2, Ok(w1)), C::decoded(claim.2, q2, q3, Ok(w2)), D::decoded(claim.3, q3, q4, Ok(w3)), E::decoded(claim.4, q4, q5, Ok(w4)), F::decoded(claim.5, q5, q6, Ok(w5)), G::decoded(claim.6, q6, q7, Ok(w6)), H::decoded(claim.7, q7, after, Err(err))]
                    A::decoded(claim.0, before, q1, Ok(w0)) && B::decoded(claim.1, q1, q2, Ok(w1)) && C::decoded(claim.2, q2, q3, Ok(w2)) && D::decoded(claim.3, q3, q4, Ok(w3)) && E::decoded(claim.4, q4, q5, Ok(w4)) && F::decoded(claim.5, q5, q6, Ok(w5)) && G::decoded(claim.6, q6, q7, Ok(w6)) && H::decoded(claim.7, q7, after, Err(err))
            },
        }
    }

    fn decode(claim: (A::Claim, B::Claim, C::Claim, D::Claim, E::Claim, F::Claim, G::Claim, H::Claim), reply: &mut Reply) -> (r: Result<(A::Out, B::Out, C::Out, D::Out, E::Out, F::Out, G::Out, H::Out), Error>) {
        let (c0, c1, c2, c3, c4, c5, c6, c7) = claim;
        let v0 = match A::decode(c0, reply) {
            Ok(v) => v,
            Err(err) => return Err(err),
        };
        let v1 = match B::decode(c1, reply) {
            Ok(v) => v,
            Err(err) => return Err(err),
        };
        let v2 = match C::decode(c2, reply) {
            Ok(v) => v,
            Err(err) => return Err(err),
        };
        let v3 = match D::decode(c3, reply) {
            Ok(v) => v,
            Err(err) => return Err(err),
        };
        let v4 = match E::decode(c4, reply) {
            Ok(v) => v,
            Err(err) => return Err(err),
        };
        let v5 = match F::decode(c5, reply) {
            Ok(v) => v,
            Err(err) => return Err(err),
        };
        let v6 = match G::decode(c6, reply) {
            Ok(v) => v,
            Err(err) => return Err(err),
        };
        let v7 = match H::decode(c7, reply) {
            Ok(v) => v,
            Err(err) => return Err(err),
        };
        proof {
            let r: Result<(A::Out, B::Out, C::Out, D::Out, E::Out, F::Out, G::Out, H::Out), Error> = Ok((v0, v1, v2, v3, v4, v5, v6, v7));
            assert(r matches Ok(v) && v.0 == v0 && v.1 == v1 && v.2 == v2 && v.3 == v3 && v.4 == v4 && v.5 == v5 && v.6 == v6 && v.7 == v7);
        }
        Ok((v0, v1, v2, v3, v4, v5, v6, v7))
    }
}

} // verus!
