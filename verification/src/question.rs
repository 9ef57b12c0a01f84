//! Questions as values: build them anywhere, ask them through a guide.

use core::marker::PhantomData;

use vstd::prelude::*;
use vstd::string::StringExecFns;

use crate::api::{self, MAX_LEVELS, MAX_OPTIONS, MIN_LEVELS, NoulCriteria};
use crate::error::{Error, Threshold};
use crate::policy::{Outcome, Policy, Thresholds, Verdict, spec_over};
use crate::rubric::{IntoRubric, Rubric, RubricView, fault_message, rendered, rubric_fault};
use crate::scalars::{Confidence, Instructions, Probability};
use crate::sealed::Sealed;
use crate::text::{debug_quoted, decimal, owned, push_decimal, quoted, texts};

verus! {

/// Implemented for an enum whose variants are the options of a choice (what
/// `#[derive(Choice)]` generates), and by [`Key`] for options given at run time.
pub trait Options: Sized {
    /// The wire key of a variant.
    spec fn key_of(v: Self) -> String;

    /// The variant to use when an answer is unsure and the question gives none, if any.
    spec fn fallback_variant() -> Option<Self>;

    /// The `(key, rubric)` pair of the option at a position in declaration order, if any.
    spec fn option_entry(index: usize) -> Option<(&'static str, Option<&'static str>)>;

    /// `(key, rubric)` pairs in declaration order. Every key names a variant, so
    /// [`Options::from_key`] reads each one back.
    fn rubric() -> (r: Vec<(&'static str, Option<&'static str>)>)
        ensures
            forall|i: usize| #[trigger] Self::option_entry(i) == if i < r@.len() {
                Some(r@[i as int])
            } else {
                None
            },
            forall|i: int| 0 <= i < r@.len() ==> exists|v: Self| #[trigger] Self::key_of(v)@ == (#[trigger] r@[i]).0@,
    ;

    /// Map a wire key back to a variant.
    fn from_key(key: &str) -> (r: Option<Self>)
        ensures
            match r {
                Some(v) => Self::key_of(v)@ == key@,
                None => forall|w: Self| #[trigger] Self::key_of(w)@ != key@,
            },
    ;

    /// The `#[guide(fallback)]` variant, if any.
    fn fallback() -> (r: Option<Self>)
        ensures
            r == Self::fallback_variant(),
    ;
}

/// Implemented for an ordered enum whose variants are the levels of a score, low to high
/// (what `#[derive(Levels)]` generates), and by [`Rank`] for levels given at run time.
pub trait Levels: Sized {
    /// The level at a position, if any.
    spec fn index_variant(index: usize) -> Option<Self>;

    /// The position of a level.
    spec fn variant_index(&self) -> usize;

    /// The description of the level at a position, low to high, if any.
    spec fn level_entry(index: usize) -> Option<&'static str>;

    /// Level descriptions, low to high. Each position below their count is a level whose
    /// index is that position.
    fn levels() -> (r: Vec<&'static str>)
        ensures
            forall|i: usize| #[trigger] Self::level_entry(i) == if i < r@.len() {
                Some(r@[i as int])
            } else {
                None
            },
            forall|i: usize|
                i < r@.len() ==> (#[trigger] Self::index_variant(i) matches Some(v) && v.variant_index() == i),
    ;

    /// Map a level index back to a variant.
    fn from_index(index: usize) -> (r: Option<Self>)
        ensures
            r == Self::index_variant(index),
    ;

    /// This variant's index.
    fn index(&self) -> (r: usize)
        ensures
            r == self.variant_index(),
    ;
}

/// `key` is the wire key of `v`.
pub open spec fn keyed<C: Options>(key: Seq<char>, v: C) -> bool {
    C::key_of(v)@ == key
}

/// Some variant has the wire key `key`.
pub open spec fn has_variant<C: Options>(key: Seq<char>) -> bool {
    exists|v: C| #[trigger] C::key_of(v)@ == key
}

/// A runtime option key. Only meaningful through [`choose_among`]: its rubric is empty, so
/// `choose::<Key>(..)` is refused with [`Error::Config`] when asked.
#[derive(Clone, Debug, PartialEq, Eq, PartialOrd, Ord)]
pub struct Key(pub String);

impl Options for Key {
    open spec fn key_of(v: Key) -> String {
        v.0
    }

    open spec fn fallback_variant() -> Option<Key> {
        None
    }

    open spec fn option_entry(index: usize) -> Option<(&'static str, Option<&'static str>)> {
        None
    }

    fn rubric() -> (r: Vec<(&'static str, Option<&'static str>)>) {
        Vec::new()
    }

    fn from_key(key: &str) -> (r: Option<Key>) {
        Some(Key(owned(key)))
    }

    fn fallback() -> (r: Option<Key>) {
        None
    }
}

/// A runtime level index. Only meaningful through [`score_levels`]: its levels are empty, so
/// `score::<Rank>(..)` is refused with [`Error::Config`] when asked.
#[derive(Clone, Copy, Debug, PartialEq, Eq, PartialOrd, Ord, Structural)]
pub struct Rank(pub usize);

impl Levels for Rank {
    open spec fn index_variant(index: usize) -> Option<Rank> {
        Some(Rank(index))
    }

    open spec fn variant_index(&self) -> usize {
        self.0
    }

    open spec fn level_entry(index: usize) -> Option<&'static str> {
        None
    }

    fn levels() -> (r: Vec<&'static str>) {
        Vec::new()
    }

    fn from_index(index: usize) -> (r: Option<Rank>) {
        Some(Rank(index))
    }

    fn index(&self) -> (r: usize) {
        self.0
    }
}

/// A choice answer in full: the pick, its confidence, and the whole distribution.
#[derive(Debug)]
pub struct Ranked<C> {
    /// The chosen option.
    pub choice: C,
    /// Reported confidence.
    pub confidence: Confidence,
    /// `confidence < min_confidence`.
    pub unsure: bool,
    /// Options by descending probability.
    pub probabilities: Vec<(C, Probability)>,
}

/// A score answer in full: expected value (bit pattern), argmax level, confidence,
/// distribution.
#[derive(Debug)]
pub struct Scored<L> {
    /// The API's probability-weighted value; may lie between levels.
    pub value: u64,
    /// Argmax of the distribution.
    pub level: L,
    /// Reported confidence.
    pub confidence: Confidence,
    /// `confidence < min_confidence`.
    pub unsure: bool,
    /// Probabilities in level order.
    pub distribution: Vec<(L, Probability)>,
}

/// A question kind: how to put it on the wire and how to read the outcome back.
pub trait Kind: Sized + Sealed {
    /// The plain output: `bool`, `C`, `L`, or a detail type.
    type Out;

    /// What [`Kind::wire`] gives for these instructions.
    spec fn wires(&self, instructions: Instructions, r: Result<api::Question, Error>) -> bool;

    /// What [`Kind::read`] gives for an outcome.
    spec fn reads(
        &self,
        id: Seq<char>,
        outcome: Outcome,
        t: Thresholds,
        or: Option<Self::Out>,
        r: Result<Self::Out, Error>,
    ) -> bool;

    /// The wire form of this question.
    fn wire(&self, instructions: Instructions) -> (r: Result<api::Question, Error>)
        ensures
            self.wires(instructions, r),
    ;

    /// Read the outcome back as this kind's output.
    fn read(&self, id: &str, outcome: Outcome, t: Thresholds, or: Option<Self::Out>) -> (r: Result<
        Self::Out,
        Error,
    >)
        ensures
            self.reads(id@, outcome, t, or, r),
    ;
}

/// Kinds whose plain output can fail with [`Error::Unsure`] and therefore accept `.or()` /
/// `.detail()`.
pub trait Fallible: Kind {
    /// The detail type `.detail()` switches to.
    type Detail;

    /// What [`Fallible::read_detail`] gives for an outcome.
    spec fn reads_detail(
        &self,
        id: Seq<char>,
        outcome: Outcome,
        t: Thresholds,
        r: Result<Self::Detail, Error>,
    ) -> bool;

    /// Read the outcome in full; never fails on unsure.
    fn read_detail(&self, id: &str, outcome: Outcome, t: Thresholds) -> (r: Result<
        Self::Detail,
        Error,
    >)
        ensures
            self.reads_detail(id@, outcome, t, r),
    ;
}

/// Kinds judged by a yes/no probability: `yes_above` / `no_below` apply.
pub trait Binary: Kind {

}

/// Kinds judged by a reported confidence: `min_confidence` applies.
pub trait Confident: Kind {

}

/// Yes/no.
#[derive(Debug)]
pub struct Noul {
    criteria: Option<(Rubric, Rubric)>,
}

impl Noul {
    /// What a yes and a no mean, if the question says.
    pub closed spec fn criteria_view(&self) -> Option<(RubricView, RubricView)> {
        match self.criteria {
            Some((y, n)) => Some((y@, n@)),
            None => None,
        }
    }
}

/// One of `C`'s options.
#[derive(Debug)]
pub struct Choose<C> {
    options: Vec<(String, Option<Rubric>)>,
    _c: PhantomData<C>,
}

/// A level of `L`.
#[derive(Debug)]
pub struct Score<L> {
    levels: Vec<Rubric>,
    _l: PhantomData<L>,
}

impl<C> Choose<C> {
    /// The options, `(key, rubric)` in declaration order.
    pub closed spec fn option_list(&self) -> Seq<(String, Option<Rubric>)> {
        self.options@
    }
}

impl<L> Score<L> {
    /// The level rubrics, low to high.
    pub closed spec fn level_list(&self) -> Seq<Rubric> {
        self.levels@
    }
}

/// `K` with the detailed output. Never fails on unsure.
#[derive(Debug)]
pub struct Detailed<K>(pub K);

impl Binary for Noul {

}

impl Binary for Detailed<Noul> {

}

impl<C: Options> Confident for Choose<C> {

}

impl<L: Levels> Confident for Score<L> {

}

impl<C: Options> Confident for Detailed<Choose<C>> {

}

impl<L: Levels> Confident for Detailed<Score<L>> {

}

/// The answer kind an outcome has.
pub open spec fn outcome_is_noul(o: Outcome) -> bool {
    o is Noul
}

/// The unsure error: the question, the judged value, and the bound it fell short of.
pub open spec fn is_unsure_error(r: Error, id: Seq<char>, value: u64, threshold: Threshold) -> bool {
    &&& r matches Error::Unsure { question, value: v, threshold: b }
    &&& r->Unsure_question@ == id
    &&& r->Unsure_value == value
    &&& r->Unsure_threshold == threshold
}

fn unsure_error(id: &str, value: u64, threshold: Threshold) -> (e: Error)
    ensures
        is_unsure_error(e, id@, value, threshold),
{
    Error::Unsure { question: owned(id), value, threshold }
}

/// The kind of answer an outcome was read from.
fn outcome_kind(o: &Outcome) -> (r: &'static str)
    ensures
        match *o {
            Outcome::Noul(_) => r@ == "noul"@,
            Outcome::Choice { .. } => r@ == "choice"@,
            Outcome::Score { .. } => r@ == "score"@,
        },
{
    match o {
        Outcome::Noul(_) => "noul",
        Outcome::Choice { .. } => "choice",
        Outcome::Score { .. } => "score",
    }
}

/// The answer to question `id` is not of the kind the question asked for.
fn mismatch(id: &str, want: &str, got: &str) -> (e: Error)
    ensures
        e is Protocol,
{
    let mut m = owned("question ");
    m.append(id);
    m.append(" asked for ");
    m.append(want);
    m.append(", answer is ");
    m.append(got);
    Error::Protocol { detail: m }
}

/// The spec of an unsure yes/no answer's bound: the band it fell inside.
pub open spec fn band(t: Thresholds) -> Threshold {
    Threshold::Band { yes_above: t.yes_bits(), no_below: t.no_bits() }
}

impl Sealed for Noul {}

impl<C: Options> Sealed for Choose<C> {}

impl<L: Levels> Sealed for Score<L> {}

impl<K: Fallible> Sealed for Detailed<K> {}

impl Kind for Noul {
    type Out = bool;

    open spec fn wires(&self, instructions: Instructions, r: Result<api::Question, Error>) -> bool {
        match self.criteria_view() {
            None => r matches Ok(api::Question::Noul { instructions: i, criteria: None })
                && r->Ok_0->Noul_instructions == instructions,
            Some((yes, no)) => noul_wire_spec(yes, no, instructions, r),
        }
    }

    open spec fn reads(
        &self,
        id: Seq<char>,
        outcome: Outcome,
        t: Thresholds,
        or: Option<bool>,
        r: Result<bool, Error>,
    ) -> bool {
        match outcome {
            Outcome::Noul(Verdict::Yes(_)) => r == Ok::<bool, Error>(true),
            Outcome::Noul(Verdict::No(_)) => r == Ok::<bool, Error>(false),
            Outcome::Noul(Verdict::Unsure(p)) => match or {
                Some(v) => r == Ok::<bool, Error>(v),
                None => r matches Err(e) && is_unsure_error(e, id, p.bits(), band(t)),
            },
            _ => r matches Err(Error::Protocol { .. }),
        }
    }

    fn wire(&self, instructions: Instructions) -> (r: Result<api::Question, Error>) {
        match &self.criteria {
            None => Ok(api::Question::Noul { instructions, criteria: None }),
            Some((yes, no)) => noul_wire(yes, no, instructions),
        }
    }

    fn read(&self, id: &str, outcome: Outcome, t: Thresholds, or: Option<bool>) -> (r: Result<
        bool,
        Error,
    >) {
        let got = outcome_kind(&outcome);
        match outcome {
            Outcome::Noul(Verdict::Yes(_)) => Ok(true),
            Outcome::Noul(Verdict::No(_)) => Ok(false),
            Outcome::Noul(Verdict::Unsure(p)) => match or {
                Some(v) => Ok(v),
                None => Err(
                    unsure_error(
                        id,
                        p.get(),
                        Threshold::Band { yes_above: t.yes_above(), no_below: t.no_below() },
                    ),
                ),
            },
            _ => Err(mismatch(id, "noul", got)),
        }
    }
}

impl Fallible for Noul {
    type Detail = Verdict;

    open spec fn reads_detail(
        &self,
        id: Seq<char>,
        outcome: Outcome,
        t: Thresholds,
        r: Result<Verdict, Error>,
    ) -> bool {
        match outcome {
            Outcome::Noul(v) => r == Ok::<Verdict, Error>(v),
            _ => r matches Err(Error::Protocol { .. }),
        }
    }

    fn read_detail(&self, id: &str, outcome: Outcome, t: Thresholds) -> (r: Result<
        Verdict,
        Error,
    >) {
        let got = outcome_kind(&outcome);
        match outcome {
            Outcome::Noul(v) => Ok(v),
            _ => Err(mismatch(id, "noul", got)),
        }
    }
}

/// Some example of `a` is also an example of `b`.
pub open spec fn shares_example(a: RubricView, b: RubricView) -> bool {
    exists|e: Seq<char>| a.examples.contains(e) && b.examples.contains(e)
}

/// What a noul with criteria puts on the wire: each rubric checked (yes first), then no input
/// may be an example of both; each rubric rendered.
pub open spec fn noul_wire_spec(
    yes: RubricView,
    no: RubricView,
    instructions: Instructions,
    r: Result<api::Question, Error>,
) -> bool {
    match rubric_fault(yes) {
        Some(f) => r matches Err(Error::Config { detail }) && detail@ == fault_message(f),
        None => match rubric_fault(no) {
            Some(f) => r matches Err(Error::Config { detail }) && detail@ == fault_message(f),
            None => if shares_example(yes, no) {
                &&& r matches Err(Error::Config { detail })
                &&& exists|e: Seq<char>|
                    yes.examples.contains(e) && no.examples.contains(e) && r->Err_0->Config_detail@
                        == debug_quoted(e)
                        + " is an example of both yes and no; an input belongs to one answer"@
            } else {
                &&& r matches Ok(api::Question::Noul { instructions: i, criteria: Some(c) })
                &&& r->Ok_0->Noul_instructions == instructions
                &&& r->Ok_0->Noul_criteria->Some_0.yes@ == rendered(yes)
                &&& r->Ok_0->Noul_criteria->Some_0.no@ == rendered(no)
            },
        },
    }
}

/// The position of the first item of `a` that `b` also holds.
fn first_shared(a: &Vec<String>, b: &Vec<String>) -> (r: Option<usize>)
    ensures
        match r {
            Some(i) => i < a@.len() && texts(b@).contains(a@[i as int]@),
            None => forall|e: Seq<char>| !(texts(a@).contains(e) && texts(b@).contains(e)),
        },
{
    let mut i: usize = 0;
    while i < a.len()
        invariant
            i <= a@.len(),
            forall|k: int| 0 <= k < i ==> !texts(b@).contains(#[trigger] texts(a@)[k]),
        decreases a@.len() - i,
    {
        let found = crate::text::position(b, &a[i]);
        proof {
            assert(texts(a@)[i as int] == a@[i as int]@);
            if found is Some {
                assert(texts(b@)[found->0 as int] == a@[i as int]@);
            } else {
                if texts(b@).contains(a@[i as int]@) {
                    let k = choose|k: int| 0 <= k < texts(b@).len() && texts(b@)[k] == a@[i as int]@;
                    assert(b@[k]@ == a@[i as int]@);
                }
            }
        }
        if found.is_some() {
            return Some(i);
        }
        i = i + 1;
    }
    proof {
        assert forall|e: Seq<char>| !(texts(a@).contains(e) && texts(b@).contains(e)) by {
            if texts(a@).contains(e) {
                let k = choose|k: int| 0 <= k < texts(a@).len() && texts(a@)[k] == e;
            }
        }
    }
    None
}

fn noul_wire(yes: &Rubric, no: &Rubric, instructions: Instructions) -> (r: Result<
    api::Question,
    Error,
>)
    ensures
        noul_wire_spec(yes@, no@, instructions, r),
{
    let y = match yes.render() {
        Ok(s) => s,
        Err(e) => return Err(e),
    };
    let n = match no.render() {
        Ok(s) => s,
        Err(e) => return Err(e),
    };
    let ye = yes.examples();
    if let Some(i) = first_shared(ye, no.examples()) {
        let mut m = quoted(ye[i].as_str());
        m.append(" is an example of both yes and no; an input belongs to one answer");
        proof {
            let e = ye@[i as int]@;
            assert(texts(ye@)[i as int] == e);
            assert(yes@.examples.contains(e));
        }
        return Err(Error::Config { detail: m });
    }
    Ok(api::Question::Noul { instructions, criteria: Some(NoulCriteria { yes: y, no: n }) })
}

/// The wire keys of the options.
pub open spec fn option_keys(options: Seq<(String, Option<Rubric>)>) -> Seq<Seq<char>> {
    options.map_values(|o: (String, Option<Rubric>)| o.0@)
}

/// No two options share a key.
pub open spec fn distinct_keys(options: Seq<(String, Option<Rubric>)>) -> bool {
    forall|i: int, j: int|
        0 <= i < j < options.len() ==> (#[trigger] options[i]).0@ != (#[trigger] options[j]).0@
}

/// Option `i` has a rubric that breaks a rule.
pub open spec fn option_faulty(options: Seq<(String, Option<Rubric>)>, i: int) -> bool {
    0 <= i < options.len() && options[i].1 is Some && rubric_fault(options[i].1->Some_0@) is Some
}

/// Options `j < i` both have `e` among their examples.
pub open spec fn options_share(options: Seq<(String, Option<Rubric>)>, j: int, i: int, e: Seq<char>) -> bool {
    &&& 0 <= j < i < options.len()
    &&& options[i].1 is Some
    &&& options[j].1 is Some
    &&& options[i].1->Some_0@.examples.contains(e)
    &&& options[j].1->Some_0@.examples.contains(e)
}

/// What a choice puts on the wire: 1 to 255 options with distinct keys, each rubric valid,
/// no input an example of two options; each rubric rendered, in declaration order.
pub open spec fn choice_wire_spec(
    options: Seq<(String, Option<Rubric>)>,
    instructions: Instructions,
    r: Result<api::Question, Error>,
) -> bool {
    if options.len() == 0 {
        r matches Err(Error::Config { detail }) && detail@ == "a choice needs at least one option"@
    } else if options.len() > MAX_OPTIONS {
        r matches Err(Error::Config { detail }) && detail@ == "a choice may have at most 255 options"@
    } else if !distinct_keys(options) {
        r matches Err(Error::Config { detail }) && detail@ == "duplicate option keys"@
    } else if exists|i: int| option_faulty(options, i) {
        &&& r matches Err(Error::Config { detail })
        &&& exists|i: int|
            option_faulty(options, i) && r->Err_0->Config_detail@ == fault_message(
                rubric_fault(options[i].1->Some_0@)->Some_0,
            )
    } else if exists|j: int, i: int, e: Seq<char>| options_share(options, j, i, e) {
        &&& r matches Err(Error::Config { detail })
        &&& exists|j: int, i: int, e: Seq<char>|
            options_share(options, j, i, e) && r->Err_0->Config_detail@ == debug_quoted(e)
                + " is an example of both "@ + debug_quoted(options[j].0@) + " and "@
                + debug_quoted(options[i].0@) + "; an input belongs to one option"@
    } else {
        &&& r matches Ok(api::Question::Choice { instructions: ins, criteria })
        &&& r->Ok_0->Choice_instructions == instructions
        &&& r->Ok_0->Choice_criteria@.len() == options.len()
        &&& forall|i: int|
            0 <= i < options.len() ==> {
                let c = #[trigger] r->Ok_0->Choice_criteria@[i];
                &&& c.0@ == options[i].0@
                &&& (c.1 is Some <==> options[i].1 is Some)
                &&& options[i].1 is Some ==> c.1->Some_0@ == rendered(options[i].1->Some_0@)
            }
    }
}

fn keys_distinct(options: &Vec<(String, Option<Rubric>)>) -> (r: bool)
    ensures
        r == distinct_keys(options@),
{
    let mut i: usize = 0;
    while i < options.len()
        invariant
            i <= options@.len(),
            forall|a: int, b: int|
                0 <= a < b < options@.len() && a < i ==> (#[trigger] options@[a]).0@ != (
                #[trigger] options@[b]).0@,
        decreases options@.len() - i,
    {
        let mut j: usize = i + 1;
        while j < options.len()
            invariant
                i < options@.len(),
                i < j <= options@.len(),
                forall|a: int, b: int|
                    0 <= a < b < options@.len() && a < i ==> (#[trigger] options@[a]).0@ != (
                    #[trigger] options@[b]).0@,
                forall|b: int| i < b < j ==> options@[i as int].0@ != (#[trigger] options@[b]).0@,
            decreases options@.len() - j,
        {
            if options[i].0 == options[j].0 {
                return false;
            }
            j = j + 1;
        }
        i = i + 1;
    }
    true
}

fn choice_wire(options: &Vec<(String, Option<Rubric>)>, instructions: Instructions) -> (r: Result<
    api::Question,
    Error,
>)
    ensures
        choice_wire_spec(options@, instructions, r),
{
    if options.len() == 0 {
        return Err(Error::Config { detail: owned("a choice needs at least one option") });
    }
    if options.len() > MAX_OPTIONS {
        return Err(Error::Config { detail: owned("a choice may have at most 255 options") });
    }
    if !keys_distinct(options) {
        return Err(Error::Config { detail: owned("duplicate option keys") });
    }
    let mut criteria: Vec<(String, Option<String>)> = Vec::new();
    let mut i: usize = 0;
    while i < options.len()
        invariant
            0 < options@.len() <= MAX_OPTIONS,
            distinct_keys(options@),
            i <= options@.len(),
            criteria@.len() == i,
            forall|k: int| 0 <= k < i ==> !option_faulty(options@, k),
            forall|k: int|
                0 <= k < i ==> {
                    let c = #[trigger] criteria@[k];
                    &&& c.0@ == options@[k].0@
                    &&& (c.1 is Some <==> options@[k].1 is Some)
                    &&& options@[k].1 is Some ==> c.1->Some_0@ == rendered(options@[k].1->Some_0@)
                },
        decreases options@.len() - i,
    {
        let text = match &options[i].1 {
            Some(rubric) => match rubric.render() {
                Ok(s) => Some(s),
                Err(e) => {
                    assert(options@[i as int].1 == Some(*rubric));
                    assert(option_faulty(options@, i as int));
                    assert(e->Config_detail@ == fault_message(
                        rubric_fault(options@[i as int].1->Some_0@)->Some_0,
                    ));
                    return Err(e);
                },
            },
            None => None,
        };
        criteria.push((options[i].0.clone(), text));
        i = i + 1;
    }
    assert(!(exists|k: int| option_faulty(options@, k)));
    let mut i: usize = 0;
    while i < options.len()
        invariant
            0 < options@.len() <= MAX_OPTIONS,
            distinct_keys(options@),
            !(exists|k: int| option_faulty(options@, k)),
            criteria@.len() == options@.len(),
            forall|k: int|
                0 <= k < options@.len() ==> {
                    let c = #[trigger] criteria@[k];
                    &&& c.0@ == options@[k].0@
                    &&& (c.1 is Some <==> options@[k].1 is Some)
                    &&& options@[k].1 is Some ==> c.1->Some_0@ == rendered(options@[k].1->Some_0@)
                },
            i <= options@.len(),
            forall|j: int, k: int, e: Seq<char>| k < i ==> !options_share(options@, j, k, e),
        decreases options@.len() - i,
    {
        if let Some(later) = &options[i].1 {
            let mut j: usize = 0;
            while j < i
                invariant
                    0 < options@.len() <= MAX_OPTIONS,
                    distinct_keys(options@),
                    !(exists|k: int| option_faulty(options@, k)),
                    i < options@.len(),
                    j <= i,
                    options@[i as int].1 == Some(*later),
                    forall|jj: int, k: int, e: Seq<char>| k < i ==> !options_share(options@, jj, k, e),
                    forall|jj: int, e: Seq<char>| jj < j ==> !options_share(options@, jj, i as int, e),
                decreases i - j,
            {
                if let Some(earlier) = &options[j].1 {
                    let le = later.examples();
                    if let Some(x) = first_shared(le, earlier.examples()) {
                        let mut m = quoted(le[x].as_str());
                        m.append(" is an example of both ");
                        let qa = quoted(options[j].0.as_str());
                        m.append(qa.as_str());
                        m.append(" and ");
                        let qb = quoted(options[i].0.as_str());
                        m.append(qb.as_str());
                        m.append("; an input belongs to one option");
                        proof {
                            let e = le@[x as int]@;
                            assert(texts(le@)[x as int] == e);
                            assert(later@.examples[x as int] == e);
                            assert(options@[j as int].1 == Some(*earlier));
                            assert(options_share(options@, j as int, i as int, e));
                            assert(m@ == debug_quoted(e) + " is an example of both "@
                                + debug_quoted(options@[j as int].0@) + " and "@
                                + debug_quoted(options@[i as int].0@) + "; an input belongs to one option"@);
                        }
                        return Err(Error::Config { detail: m });
                    }
                }
                j = j + 1;
            }
        }
        i = i + 1;
    }
    Ok(api::Question::Choice { instructions, criteria })
}

/// Level `i` carries a counterexample.
pub open spec fn level_ruled_out(levels: Seq<Rubric>, i: int) -> bool {
    0 <= i < levels.len() && levels[i]@.counterexamples.len() > 0
}

/// Level `i` has a rubric that breaks a rule.
pub open spec fn level_faulty(levels: Seq<Rubric>, i: int) -> bool {
    0 <= i < levels.len() && rubric_fault(levels[i]@) is Some
}

/// Levels `j < i` both have `e` among their examples.
pub open spec fn levels_share(levels: Seq<Rubric>, j: int, i: int, e: Seq<char>) -> bool {
    &&& 0 <= j < i < levels.len()
    &&& levels[i]@.examples.contains(e)
    &&& levels[j]@.examples.contains(e)
}

/// What a score puts on the wire: 2 to 10 levels, none with a counterexample, each rubric
/// valid, no input an example of two levels; each rubric rendered, low to high.
pub open spec fn score_wire_spec(
    levels: Seq<Rubric>,
    instructions: Instructions,
    r: Result<api::Question, Error>,
) -> bool {
    if !(MIN_LEVELS <= levels.len() <= MAX_LEVELS) {
        r matches Err(Error::Config { detail }) && detail@ == "a score needs 2..=10 levels, got "@
            + decimal(levels.len())
    } else if exists|i: int| level_ruled_out(levels, i) {
        &&& r matches Err(Error::Config { detail })
        &&& exists|i: int|
            level_ruled_out(levels, i) && r->Err_0->Config_detail@ == "level "@ + decimal(i as nat)
                + " has a counterexample; a level is a position on a scale, not an option to rule out"@
    } else if exists|i: int| level_faulty(levels, i) {
        &&& r matches Err(Error::Config { detail })
        &&& exists|i: int|
            level_faulty(levels, i) && r->Err_0->Config_detail@ == fault_message(
                rubric_fault(levels[i]@)->Some_0,
            )
    } else if exists|j: int, i: int, e: Seq<char>| levels_share(levels, j, i, e) {
        &&& r matches Err(Error::Config { detail })
        &&& exists|j: int, i: int, e: Seq<char>|
            levels_share(levels, j, i, e) && r->Err_0->Config_detail@ == debug_quoted(e)
                + " is an example of both level "@ + decimal(j as nat) + " and level "@ + decimal(
                i as nat,
            ) + "; an input belongs to one level"@
    } else {
        &&& r matches Ok(api::Question::Score { instructions: ins, criteria })
        &&& r->Ok_0->Score_instructions == instructions
        &&& r->Ok_0->Score_criteria@.len() == levels.len()
        &&& forall|i: int|
            0 <= i < levels.len() ==> (#[trigger] r->Ok_0->Score_criteria@[i])@ == rendered(
                levels[i]@,
            )
    }
}

fn score_wire(levels: &Vec<Rubric>, instructions: Instructions) -> (r: Result<
    api::Question,
    Error,
>)
    ensures
        score_wire_spec(levels@, instructions, r),
{
    let n = levels.len();
    if n < MIN_LEVELS || n > MAX_LEVELS {
        let mut m = owned("a score needs 2..=10 levels, got ");
        push_decimal(&mut m, n);
        return Err(Error::Config { detail: m });
    }
    let mut i: usize = 0;
    while i < n
        invariant
            MIN_LEVELS <= n <= MAX_LEVELS,
            n == levels@.len(),
            i <= n,
            forall|k: int| 0 <= k < i ==> !level_ruled_out(levels@, k),
        decreases n - i,
    {
        if levels[i].has_counterexamples() {
            let mut m = owned("level ");
            push_decimal(&mut m, i);
            m.append(" has a counterexample; a level is a position on a scale, not an option to rule out");
            assert(level_ruled_out(levels@, i as int));
            return Err(Error::Config { detail: m });
        }
        i = i + 1;
    }
    let mut criteria: Vec<String> = Vec::new();
    let mut i: usize = 0;
    while i < n
        invariant
            MIN_LEVELS <= n <= MAX_LEVELS,
            !(exists|k: int| level_ruled_out(levels@, k)),
            n == levels@.len(),
            i <= n,
            criteria@.len() == i,
            forall|k: int| 0 <= k < i ==> !level_faulty(levels@, k),
            forall|k: int| 0 <= k < i ==> (#[trigger] criteria@[k])@ == rendered(levels@[k]@),
        decreases n - i,
    {
        match levels[i].render() {
            Ok(s) => criteria.push(s),
            Err(e) => {
                assert(level_faulty(levels@, i as int));
                assert(e->Config_detail@ == fault_message(rubric_fault(levels@[i as int]@)->Some_0));
                return Err(e);
            },
        }
        i = i + 1;
    }
    let mut i: usize = 0;
    while i < n
        invariant
            MIN_LEVELS <= n <= MAX_LEVELS,
            !(exists|k: int| level_ruled_out(levels@, k)),
            !(exists|k: int| level_faulty(levels@, k)),
            criteria@.len() == n,
            forall|k: int| 0 <= k < n ==> (#[trigger] criteria@[k])@ == rendered(levels@[k]@),
            n == levels@.len(),
            i <= n,
            forall|j: int, k: int, e: Seq<char>| k < i ==> !levels_share(levels@, j, k, e),
        decreases n - i,
    {
        let mut j: usize = 0;
        while j < i
            invariant
                MIN_LEVELS <= n <= MAX_LEVELS,
                !(exists|k: int| level_ruled_out(levels@, k)),
                !(exists|k: int| level_faulty(levels@, k)),
                n == levels@.len(),
                i < n,
                j <= i,
                forall|jj: int, k: int, e: Seq<char>| k < i ==> !levels_share(levels@, jj, k, e),
                forall|jj: int, e: Seq<char>| jj < j ==> !levels_share(levels@, jj, i as int, e),
            decreases i - j,
        {
            let le = levels[i].examples();
            if let Some(x) = first_shared(le, levels[j].examples()) {
                let mut m = quoted(le[x].as_str());
                m.append(" is an example of both level ");
                push_decimal(&mut m, j);
                m.append(" and level ");
                push_decimal(&mut m, i);
                m.append("; an input belongs to one level");
                proof {
                    let e = le@[x as int]@;
                    assert(texts(le@)[x as int] == e);
                    assert(levels@[i as int]@.examples[x as int] == e);
                    assert(levels_share(levels@, j as int, i as int, e));
                }
                return Err(Error::Config { detail: m });
            }
            j = j + 1;
        }
        i = i + 1;
    }
    Ok(api::Question::Score { instructions, criteria })
}

/// The key is among the question's options and names a variant of `C`.
pub open spec fn known_key<C: Options>(options: Seq<(String, Option<Rubric>)>, key: Seq<char>) -> bool {
    option_keys(options).contains(key) && has_variant::<C>(key)
}

/// Every key the outcome names is known.
pub open spec fn keys_known<C: Options>(
    options: Seq<(String, Option<Rubric>)>,
    key: Seq<char>,
    ranked: Seq<(String, Probability)>,
) -> bool {
    &&& known_key::<C>(options, key)
    &&& forall|i: int| 0 <= i < ranked.len() ==> known_key::<C>(options, (#[trigger] ranked[i]).0@)
}

/// What reading a choice outcome in full gives: the outcome's option count must match the
/// question's, and every key it names must be an option of the question with a variant.
pub open spec fn choice_detail_spec<C: Options>(
    options: Seq<(String, Option<Rubric>)>,
    outcome: Outcome,
    r: Result<Ranked<C>, Error>,
) -> bool {
    match outcome {
        Outcome::Choice { key, confidence, unsure, ranked } => if ranked@.len() != options.len()
            || !keys_known::<C>(options, key@, ranked@) {
            r matches Err(Error::Protocol { .. })
        } else {
            &&& r matches Ok(rk)
            &&& keyed::<C>(key@, r->Ok_0.choice)
            &&& r->Ok_0.confidence == confidence
            &&& r->Ok_0.unsure == unsure
            &&& r->Ok_0.probabilities@.len() == ranked@.len()
            &&& forall|i: int|
                0 <= i < ranked@.len() ==> keyed::<C>(
                    ranked@[i].0@,
                    (#[trigger] r->Ok_0.probabilities@[i]).0,
                ) && r->Ok_0.probabilities@[i].1 == ranked@[i].1
        },
        _ => r matches Err(Error::Protocol { .. }),
    }
}

/// The unsure ladder for a choice: the question's `.or` value, else the enum's fallback,
/// else [`Error::Unsure`] naming the question, the confidence and `min_confidence`.
pub open spec fn choice_ladder<C: Options>(
    id: Seq<char>,
    confidence: Confidence,
    t: Thresholds,
    or: Option<C>,
    r: Result<C, Error>,
) -> bool {
    match or {
        Some(v) => r == Ok::<C, Error>(v),
        None => match C::fallback_variant() {
            Some(f) => r == Ok::<C, Error>(f),
            None => r matches Err(e) && is_unsure_error(
                e,
                id,
                confidence.bits(),
                Threshold::Floor(t.min_bits()),
            ),
        },
    }
}

fn option_position(options: &Vec<(String, Option<Rubric>)>, key: &String) -> (r: bool)
    ensures
        r == option_keys(options@).contains(key@),
{
    let mut i: usize = 0;
    while i < options.len()
        invariant
            i <= options@.len(),
            forall|k: int| 0 <= k < i ==> (#[trigger] options@[k]).0@ != key@,
        decreases options@.len() - i,
    {
        if options[i].0 == *key {
            assert(option_keys(options@)[i as int] == key@);
            return true;
        }
        i = i + 1;
    }
    proof {
        if option_keys(options@).contains(key@) {
            let k = choose|k: int| 0 <= k < option_keys(options@).len() && option_keys(options@)[k] == key@;
            assert(options@[k].0@ == key@);
        }
    }
    false
}

impl<C: Options> Choose<C> {
    /// Map a key of the outcome to a variant.
    fn variant(&self, id: &str, key: &String) -> (r: Result<C, Error>)
        ensures
            match r {
                Ok(v) => known_key::<C>(self.options@, key@) && keyed::<C>(key@, v),
                Err(e) => !known_key::<C>(self.options@, key@) && e is Protocol,
            },
    {
        if !option_position(&self.options, key) {
            let mut m = owned("question ");
            m.append(id);
            m.append(": option ");
            let q = quoted(key.as_str());
            m.append(q.as_str());
            m.append(" is not in the rubric");
            return Err(Error::Protocol { detail: m });
        }
        match C::from_key(key.as_str()) {
            Some(v) => Ok(v),
            None => {
                let mut m = owned("question ");
                m.append(id);
                m.append(": option ");
                let q = quoted(key.as_str());
                m.append(q.as_str());
                m.append(" has no variant");
                Err(Error::Protocol { detail: m })
            },
        }
    }
}

impl<C: Options> Kind for Choose<C> {
    type Out = C;

    open spec fn wires(&self, instructions: Instructions, r: Result<api::Question, Error>) -> bool {
        choice_wire_spec(self.option_list(), instructions, r)
    }

    open spec fn reads(
        &self,
        id: Seq<char>,
        outcome: Outcome,
        t: Thresholds,
        or: Option<C>,
        r: Result<C, Error>,
    ) -> bool {
        match outcome {
            Outcome::Choice { key, confidence, unsure, ranked } => if ranked@.len()
                != self.option_list().len() || !keys_known::<C>(self.option_list(), key@, ranked@) {
                r matches Err(Error::Protocol { .. })
            } else if unsure {
                choice_ladder(id, confidence, t, or, r)
            } else {
                r matches Ok(v) && keyed::<C>(key@, v)
            },
            _ => r matches Err(Error::Protocol { .. }),
        }
    }

    fn wire(&self, instructions: Instructions) -> (r: Result<api::Question, Error>) {
        choice_wire(&self.options, instructions)
    }

    fn read(&self, id: &str, outcome: Outcome, t: Thresholds, or: Option<C>) -> (r: Result<
        C,
        Error,
    >) {
        let ghost o = outcome;
        let rk = match self.read_detail(id, outcome, t) {
            Ok(rk) => rk,
            Err(e) => return Err(e),
        };
        if rk.unsure {
            match or {
                Some(v) => Ok(v),
                None => match C::fallback() {
                    Some(f) => Ok(f),
                    None => Err(
                        unsure_error(id, rk.confidence.get(), Threshold::Floor(t.min_confidence())),
                    ),
                },
            }
        } else {
            Ok(rk.choice)
        }
    }
}

impl<C: Options> Fallible for Choose<C> {
    type Detail = Ranked<C>;

    open spec fn reads_detail(
        &self,
        id: Seq<char>,
        outcome: Outcome,
        t: Thresholds,
        r: Result<Ranked<C>, Error>,
    ) -> bool {
        choice_detail_spec(self.option_list(), outcome, r)
    }

    fn read_detail(&self, id: &str, outcome: Outcome, t: Thresholds) -> (r: Result<
        Ranked<C>,
        Error,
    >) {
        let ghost o = outcome;
        let got = outcome_kind(&outcome);
        match outcome {
            Outcome::Choice { key, confidence, unsure, ranked } => {
                if ranked.len() != self.options.len() {
                    let mut m = owned("question ");
                    m.append(id);
                    m.append(": answer has ");
                    push_decimal(&mut m, ranked.len());
                    m.append(" options, rubric has ");
                    push_decimal(&mut m, self.options.len());
                    return Err(Error::Protocol { detail: m });
                }
                let choice = match self.variant(id, &key) {
                    Ok(v) => v,
                    Err(e) => return Err(e),
                };
                let mut probabilities: Vec<(C, Probability)> = Vec::new();
                let mut i: usize = 0;
                while i < ranked.len()
                    invariant
                        o == outcome,
                        o == (Outcome::Choice { key, confidence, unsure, ranked }),
                        ranked@.len() == self.option_list().len(),
                        i <= ranked@.len(),
                        probabilities@.len() == i,
                        forall|k: int| 0 <= k < i ==> known_key::<C>(self.options@, (#[trigger] ranked@[k]).0@),
                        forall|k: int|
                            0 <= k < i ==> keyed::<C>(
                                ranked@[k].0@,
                                (#[trigger] probabilities@[k]).0,
                            ) && probabilities@[k].1 == ranked@[k].1,
                    decreases ranked@.len() - i,
                {
                    let v = match self.variant(id, &ranked[i].0) {
                        Ok(v) => v,
                        Err(e) => {
                            assert(!known_key::<C>(self.option_list(), ranked@[i as int].0@));
                            return Err(e);
                        },
                    };
                    probabilities.push((v, ranked[i].1));
                    i = i + 1;
                }
                Ok(Ranked { choice, confidence, unsure, probabilities })
            },
            _ => Err(mismatch(id, "choice", got)),
        }
    }
}

/// Every level position the outcome names has a variant.
pub open spec fn levels_known<L: Levels>(index: int, n: int) -> bool {
    &&& L::index_variant(index as usize) is Some
    &&& forall|i: int| 0 <= i < n ==> (#[trigger] L::index_variant(i as usize)) is Some
}

/// What reading a score outcome in full gives: the outcome's level count must match the
/// question's, and each level position must have a variant.
pub open spec fn score_detail_spec<L: Levels>(
    levels: Seq<Rubric>,
    outcome: Outcome,
    r: Result<Scored<L>, Error>,
) -> bool {
    match outcome {
        Outcome::Score { index, value, confidence, unsure, distribution, legend } => if distribution@.len()
            != levels.len() || !levels_known::<L>(index as int, distribution@.len() as int) {
            r matches Err(Error::Protocol { .. })
        } else {
            &&& r matches Ok(sc)
            &&& r->Ok_0.value == value
            &&& Some(r->Ok_0.level) == L::index_variant(index)
            &&& r->Ok_0.confidence == confidence
            &&& r->Ok_0.unsure == unsure
            &&& r->Ok_0.distribution@.len() == distribution@.len()
            &&& forall|i: int|
                0 <= i < distribution@.len() ==> Some(
                    (#[trigger] r->Ok_0.distribution@[i]).0,
                ) == L::index_variant(i as usize) && r->Ok_0.distribution@[i].1 == distribution@[i]
        },
        _ => r matches Err(Error::Protocol { .. }),
    }
}

fn level_variant<L: Levels>(id: &str, i: usize) -> (r: Result<L, Error>)
    ensures
        match r {
            Ok(v) => L::index_variant(i) == Some(v),
            Err(e) => L::index_variant(i) is None && e is Protocol,
        },
{
    match L::from_index(i) {
        Some(v) => Ok(v),
        None => {
            let mut m = owned("question ");
            m.append(id);
            m.append(": level ");
            push_decimal(&mut m, i);
            m.append(" is not in the rubric");
            Err(Error::Protocol { detail: m })
        },
    }
}

impl<L: Levels> Kind for Score<L> {
    type Out = L;

    open spec fn wires(&self, instructions: Instructions, r: Result<api::Question, Error>) -> bool {
        score_wire_spec(self.level_list(), instructions, r)
    }

    open spec fn reads(
        &self,
        id: Seq<char>,
        outcome: Outcome,
        t: Thresholds,
        or: Option<L>,
        r: Result<L, Error>,
    ) -> bool {
        match outcome {
            Outcome::Score { index, value, confidence, unsure, distribution, legend } => if distribution@.len()
                != self.level_list().len() || !levels_known::<L>(index as int, distribution@.len() as int) {
                r matches Err(Error::Protocol { .. })
            } else if unsure {
                match or {
                    Some(v) => r == Ok::<L, Error>(v),
                    None => r matches Err(e) && is_unsure_error(
                        e,
                        id,
                        confidence.bits(),
                        Threshold::Floor(t.min_bits()),
                    ),
                }
            } else {
                r matches Ok(v) && L::index_variant(index) == Some(v)
            },
            _ => r matches Err(Error::Protocol { .. }),
        }
    }

    fn wire(&self, instructions: Instructions) -> (r: Result<api::Question, Error>) {
        score_wire(&self.levels, instructions)
    }

    fn read(&self, id: &str, outcome: Outcome, t: Thresholds, or: Option<L>) -> (r: Result<
        L,
        Error,
    >) {
        let sc = match self.read_detail(id, outcome, t) {
            Ok(sc) => sc,
            Err(e) => return Err(e),
        };
        if sc.unsure {
            match or {
                Some(v) => Ok(v),
                None => Err(
                    unsure_error(id, sc.confidence.get(), Threshold::Floor(t.min_confidence())),
                ),
            }
        } else {
            Ok(sc.level)
        }
    }
}

impl<L: Levels> Fallible for Score<L> {
    type Detail = Scored<L>;

    open spec fn reads_detail(
        &self,
        id: Seq<char>,
        outcome: Outcome,
        t: Thresholds,
        r: Result<Scored<L>, Error>,
    ) -> bool {
        score_detail_spec(self.level_list(), outcome, r)
    }

    fn read_detail(&self, id: &str, outcome: Outcome, t: Thresholds) -> (r: Result<
        Scored<L>,
        Error,
    >) {
        let ghost o = outcome;
        let got = outcome_kind(&outcome);
        match outcome {
            Outcome::Score { index, value, confidence, unsure, distribution, legend } => {
                if distribution.len() != self.levels.len() {
                    let mut m = owned("question ");
                    m.append(id);
                    m.append(": answer has ");
                    push_decimal(&mut m, distribution.len());
                    m.append(" levels, question has ");
                    push_decimal(&mut m, self.levels.len());
                    return Err(Error::Protocol { detail: m });
                }
                let level = match level_variant::<L>(id, index) {
                    Ok(v) => v,
                    Err(e) => return Err(e),
                };
                let mut out: Vec<(L, Probability)> = Vec::new();
                let mut i: usize = 0;
                while i < distribution.len()
                    invariant
                        o == outcome,
                        o == (Outcome::Score { index, value, confidence, unsure, distribution, legend }),
                        distribution@.len() == self.level_list().len(),
                        i <= distribution@.len(),
                        out@.len() == i,
                        forall|k: int| 0 <= k < i ==> (#[trigger] L::index_variant(k as usize)) is Some,
                        forall|k: int|
                            0 <= k < i ==> Some((#[trigger] out@[k]).0) == L::index_variant(k as usize)
                                && out@[k].1 == distribution@[k],
                    decreases distribution@.len() - i,
                {
                    let v = match level_variant::<L>(id, i) {
                        Ok(v) => v,
                        Err(e) => {
                            assert(L::index_variant(i) is None);
                            assert(L::index_variant((i as int) as usize) is None);
                            return Err(e);
                        },
                    };
                    out.push((v, distribution[i]));
                    i = i + 1;
                }
                Ok(Scored { value, level, confidence, unsure, distribution: out })
            },
            _ => Err(mismatch(id, "score", got)),
        }
    }
}

impl<K: Fallible> Kind for Detailed<K> {
    type Out = K::Detail;

    open spec fn wires(&self, instructions: Instructions, r: Result<api::Question, Error>) -> bool {
        self.0.wires(instructions, r)
    }

    open spec fn reads(
        &self,
        id: Seq<char>,
        outcome: Outcome,
        t: Thresholds,
        or: Option<K::Detail>,
        r: Result<K::Detail, Error>,
    ) -> bool {
        self.0.reads_detail(id, outcome, t, r)
    }

    fn wire(&self, instructions: Instructions) -> (r: Result<api::Question, Error>) {
        self.0.wire(instructions)
    }

    fn read(&self, id: &str, outcome: Outcome, t: Thresholds, or: Option<K::Detail>) -> (r: Result<
        K::Detail,
        Error,
    >) {
        self.0.read_detail(id, outcome, t)
    }
}

/// A question plus its local policy patch. Inert until a guide asks it.
#[derive(Debug)]
pub struct Question<K: Kind> {
    pub(crate) instructions: Instructions,
    pub(crate) kind: K,
    pub(crate) policy: Policy,
    pub(crate) or: Option<K::Out>,
}

impl<K: Kind> Question<K> {
    /// The question's kind.
    pub open(crate) spec fn kind_of(&self) -> K {
        self.kind
    }

    /// The question's policy patch.
    pub open(crate) spec fn policy_of(&self) -> Policy {
        self.policy
    }

    /// The question's instructions.
    pub open(crate) spec fn instructions_of(&self) -> Instructions {
        self.instructions
    }

    /// The question's `.or` value.
    pub open(crate) spec fn or_of(&self) -> Option<K::Out> {
        self.or
    }

    /// Merge a policy patch over this question's. Precedence: question > guide > defaults.
    pub fn with(self, policy: Policy) -> (r: Question<K>)
        ensures
            r.instructions_of() == self.instructions_of(),
            r.policy_of() == spec_over(policy, self.policy_of()),
            r.kind_of() == self.kind_of(),
            r.or_of() == self.or_of(),
    {
        Question {
            instructions: self.instructions,
            kind: self.kind,
            policy: policy.over(self.policy),
            or: self.or,
        }
    }
}

impl<K: Binary> Question<K> {
    /// `p >= yes_above` is yes.
    pub fn yes_above(self, p: u64) -> (r: Question<K>)
        ensures
            r.instructions_of() == self.instructions_of(),
            r.policy_of() == (Policy { yes_above: Some(p), ..self.policy_of() }),
            r.kind_of() == self.kind_of(),
            r.or_of() == self.or_of(),
    {
        self.with(Policy::new().yes_above(p))
    }

    /// `p <= no_below` is no.
    pub fn no_below(self, p: u64) -> (r: Question<K>)
        ensures
            r.instructions_of() == self.instructions_of(),
            r.policy_of() == (Policy { no_below: Some(p), ..self.policy_of() }),
            r.kind_of() == self.kind_of(),
            r.or_of() == self.or_of(),
    {
        self.with(Policy::new().no_below(p))
    }
}

impl<K: Confident> Question<K> {
    /// `confidence < min_confidence` is unsure.
    pub fn min_confidence(self, c: u64) -> (r: Question<K>)
        ensures
            r.instructions_of() == self.instructions_of(),
            r.policy_of() == (Policy { min_confidence: Some(c), ..self.policy_of() }),
            r.kind_of() == self.kind_of(),
            r.or_of() == self.or_of(),
    {
        self.with(Policy::new().min_confidence(c))
    }
}

impl<K: Fallible> Question<K> {
    /// Value to use when the policy says unsure. Beats the enum's fallback.
    pub fn or(self, value: K::Out) -> (r: Question<K>)
        ensures
            r.instructions_of() == self.instructions_of(),
            r.or_of() == Some(value),
            r.kind_of() == self.kind_of(),
            r.policy_of() == self.policy_of(),
    {
        Question { instructions: self.instructions, kind: self.kind, policy: self.policy, or: Some(value) }
    }

    /// Ask for the full reading; never fails on unsure. Any `.or(..)` set before is dropped.
    pub fn detail(self) -> (r: Question<Detailed<K>>)
        ensures
            r.instructions_of() == self.instructions_of(),
            r.kind_of() == Detailed(self.kind_of()),
            r.policy_of() == self.policy_of(),
            r.or_of() is None,
    {
        Question { instructions: self.instructions, kind: Detailed(self.kind), policy: self.policy, or: None }
    }
}

impl Question<Noul> {
    /// Describe what a yes and a no mean. Takes a description or a [`Rubric`].
    pub fn criteria<Y: IntoRubric, N: IntoRubric>(self, yes: Y, no: N) -> (r: Question<Noul>)
        ensures
            r.instructions_of() == self.instructions_of(),
            r.kind_of().criteria_view() == Some((yes.rubric_view(), no.rubric_view())),
            r.policy_of() == self.policy_of(),
            r.or_of() == self.or_of(),
    {
        let y = yes.into_rubric();
        let n = no.into_rubric();
        Question {
            instructions: self.instructions,
            kind: Noul { criteria: Some((y, n)) },
            policy: self.policy,
            or: self.or,
        }
    }
}

/// A yes/no question. Plain output: `bool`.
pub fn noul(instructions: Instructions) -> (q: Question<Noul>)
    ensures
        q.instructions_of() == instructions,
        q.kind_of().criteria_view() is None,
        q.policy_of() == (Policy { yes_above: None, no_below: None, min_confidence: None }),
        q.or_of() is None,
{
    Question { instructions, kind: Noul { criteria: None }, policy: Policy::new(), or: None }
}

/// Pick one of `C`'s options. Plain output: `C`. (`choose` is a word of the verifier.)
pub fn choose_one<C: Options>(instructions: Instructions) -> (q: Question<Choose<C>>)
    ensures
        q.instructions_of() == instructions,
        C::option_entry(q.kind_of().option_list().len() as usize) is None,
        forall|i: int|
            0 <= i < q.kind_of().option_list().len() ==> {
                let o = #[trigger] q.kind_of().option_list()[i];
                &&& C::option_entry(i as usize) matches Some(e)
                &&& o.0@ == e.0@
                &&& (o.1 is Some <==> e.1 is Some)
                &&& e.1 is Some ==> o.1->Some_0@ == (RubricView {
                    what: e.1->Some_0@,
                    examples: Seq::empty(),
                    counterexamples: Seq::empty(),
                })
            },
        q.policy_of() == (Policy { yes_above: None, no_below: None, min_confidence: None }),
        q.or_of() is None,
{
    let table = C::rubric();
    let mut options: Vec<(String, Option<Rubric>)> = Vec::new();
    let mut i: usize = 0;
    while i < table.len()
        invariant
            i <= table@.len(),
            options@.len() == i,
            forall|k: int|
                0 <= k < i ==> {
                    let o = #[trigger] options@[k];
                    &&& o.0@ == table@[k].0@
                    &&& (o.1 is Some <==> table@[k].1 is Some)
                    &&& table@[k].1 is Some ==> o.1->Some_0@ == (RubricView {
                        what: table@[k].1->Some_0@,
                        examples: Seq::empty(),
                        counterexamples: Seq::empty(),
                    })
                },
        decreases table@.len() - i,
    {
        let (key, rubric) = table[i];
        let r = match rubric {
            Some(text) => Some(Rubric::new(text)),
            None => None,
        };
        options.push((owned(key), r));
        proof {
            if r is Some {
                assert(r->Some_0@.examples =~= Seq::empty());
                assert(r->Some_0@.counterexamples =~= Seq::empty());
            }
        }
        i = i + 1;
    }
    proof {
        assert(C::option_entry(table@.len() as usize) is None);
        assert forall|k: int| 0 <= k < options@.len() implies #[trigger] C::option_entry(k as usize) == Some(table@[k]) by {}
    }
    Question { instructions, kind: Choose { options, _c: PhantomData }, policy: Policy::new(), or: None }
}

/// Pick one of runtime options `(key, rubric)`. Plain output: [`Key`].
pub fn choose_among<R: IntoRubric>(instructions: Instructions, options: Vec<(&str, Option<R>)>) -> (q: Question<
    Choose<Key>,
>)
    ensures
        q.instructions_of() == instructions,
        q.kind_of().option_list().len() == options@.len(),
        forall|i: int|
            0 <= i < options@.len() ==> {
                let o = #[trigger] q.kind_of().option_list()[i];
                &&& o.0@ == options@[i].0@
                &&& (o.1 is Some <==> options@[i].1 is Some)
                &&& options@[i].1 is Some ==> o.1->Some_0@ == options@[i].1->Some_0.rubric_view()
            },
        q.policy_of() == (Policy { yes_above: None, no_below: None, min_confidence: None }),
        q.or_of() is None,
{
    let ghost given = options@;
    let mut out: Vec<(String, Option<Rubric>)> = Vec::new();
    let mut rest = options;
    let n = rest.len();
    // Walk the options front to back, moving each rubric out.
    let mut reversed: Vec<(&str, Option<R>)> = Vec::new();
    while rest.len() > 0
        invariant
            rest@.len() + reversed@.len() == n,
            n == given.len(),
            forall|k: int| 0 <= k < rest@.len() ==> #[trigger] rest@[k] == given[k],
            forall|k: int| 0 <= k < reversed@.len() ==> #[trigger] reversed@[k] == given[n - 1 - k],
        decreases rest@.len(),
    {
        let last = rest.pop().unwrap();
        reversed.push(last);
    }
    while reversed.len() > 0
        invariant
            out@.len() + reversed@.len() == n,
            n == given.len(),
            forall|k: int| 0 <= k < reversed@.len() ==> #[trigger] reversed@[k] == given[n - 1 - k],
            forall|k: int|
                0 <= k < out@.len() ==> {
                    let o = #[trigger] out@[k];
                    &&& o.0@ == given[k].0@
                    &&& (o.1 is Some <==> given[k].1 is Some)
                    &&& given[k].1 is Some ==> o.1->Some_0@ == given[k].1->Some_0.rubric_view()
                },
        decreases reversed@.len(),
    {
        let (key, rubric) = reversed.pop().unwrap();
        let r = match rubric {
            Some(x) => Some(x.into_rubric()),
            None => None,
        };
        out.push((owned(key), r));
    }
    Question { instructions, kind: Choose { options: out, _c: PhantomData }, policy: Policy::new(), or: None }
}

/// Rate on `L`'s levels. Plain output: the argmax level `L`.
pub fn score<L: Levels>(instructions: Instructions) -> (q: Question<Score<L>>)
    ensures
        q.instructions_of() == instructions,
        L::level_entry(q.kind_of().level_list().len() as usize) is None,
        forall|i: int|
            0 <= i < q.kind_of().level_list().len() ==> (L::level_entry(i as usize) matches Some(e)
                && (#[trigger] q.kind_of().level_list()[i])@ == (RubricView {
                what: e@,
                examples: Seq::empty(),
                counterexamples: Seq::empty(),
            })),
        q.policy_of() == (Policy { yes_above: None, no_below: None, min_confidence: None }),
        q.or_of() is None,
{
    let table = L::levels();
    let mut levels: Vec<Rubric> = Vec::new();
    let mut i: usize = 0;
    while i < table.len()
        invariant
            i <= table@.len(),
            levels@.len() == i,
            forall|k: int| 0 <= k < i ==> (#[trigger] levels@[k])@ == (RubricView {
                what: table@[k]@,
                examples: Seq::empty(),
                counterexamples: Seq::empty(),
            }),
        decreases table@.len() - i,
    {
        let r = Rubric::new(table[i]);
        assert(r@.examples =~= Seq::empty() && r@.counterexamples =~= Seq::empty());
        levels.push(r);
        i = i + 1;
    }
    proof {
        assert(L::level_entry(table@.len() as usize) is None);
        assert forall|k: int| 0 <= k < levels@.len() implies #[trigger] L::level_entry(k as usize) == Some(table@[k]) by {}
    }
    Question { instructions, kind: Score { levels, _l: PhantomData }, policy: Policy::new(), or: None }
}

/// Rate on runtime levels, low to high. Plain output: [`Rank`].
pub fn score_levels<R: IntoRubric>(instructions: Instructions, levels: Vec<R>) -> (q: Question<Score<Rank>>)
    ensures
        q.instructions_of() == instructions,
        q.kind_of().level_list().len() == levels@.len(),
        forall|i: int| 0 <= i < levels@.len() ==> (#[trigger] q.kind_of().level_list()[i])@ == levels@[i].rubric_view(),
        q.policy_of() == (Policy { yes_above: None, no_below: None, min_confidence: None }),
        q.or_of() is None,
{
    let ghost given = levels@;
    let n = levels.len();
    let mut rest = levels;
    let mut reversed: Vec<R> = Vec::new();
    while rest.len() > 0
        invariant
            rest@.len() + reversed@.len() == n,
            n == given.len(),
            forall|k: int| 0 <= k < rest@.len() ==> #[trigger] rest@[k] == given[k],
            forall|k: int| 0 <= k < reversed@.len() ==> #[trigger] reversed@[k] == given[n - 1 - k],
        decreases rest@.len(),
    {
        let last = rest.pop().unwrap();
        reversed.push(last);
    }
    let mut out: Vec<Rubric> = Vec::new();
    while reversed.len() > 0
        invariant
            out@.len() + reversed@.len() == n,
            n == given.len(),
            forall|k: int| 0 <= k < reversed@.len() ==> #[trigger] reversed@[k] == given[n - 1 - k],
            forall|k: int| 0 <= k < out@.len() ==> (#[trigger] out@[k])@ == given[k].rubric_view(),
        decreases reversed@.len(),
    {
        let x = reversed.pop().unwrap();
        out.push(x.into_rubric());
    }
    Question { instructions, kind: Score { levels: out, _l: PhantomData }, policy: Policy::new(), or: None }
}

} // verus!
