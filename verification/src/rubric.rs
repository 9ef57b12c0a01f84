//! A rubric as a value: what something means, plus the inputs that belong to it.

use vstd::prelude::*;
use vstd::string::StringExecFns;

use crate::error::Error;
use crate::sealed::Sealed;
use crate::text::{
    blank, debug_quoted, has_line_break, is_blank, join, line_break, owned, position,
    push_joined, quoted, texts,
};

verus! {

/// A description with examples (inputs that belong here) and counterexamples (inputs that do
/// not). Examples and counterexamples render in the order they were added; a rubric with
/// neither renders to its description, byte for byte.
#[derive(Clone, Debug, PartialEq, Eq)]
pub struct Rubric {
    what: String,
    examples: Vec<String>,
    counterexamples: Vec<String>,
}

/// A rubric's text: the description and both clauses.
pub struct RubricView {
    pub what: Seq<char>,
    pub examples: Seq<Seq<char>>,
    pub counterexamples: Seq<Seq<char>>,
}

impl View for Rubric {
    type V = RubricView;

    closed spec fn view(&self) -> RubricView {
        RubricView {
            what: self.what@,
            examples: texts(self.examples@),
            counterexamples: texts(self.counterexamples@),
        }
    }
}

/// The first rule a rubric breaks. `counter` tells a counterexample from an example.
pub enum RubricFault {
    /// Examples or counterexamples attached to a blank description.
    Blank { counter: bool },
    /// An empty or whitespace-only item.
    EmptyItem { counter: bool },
    /// An item repeated within its clause.
    Duplicate { counter: bool, item: Seq<char> },
    /// An item holding a line break, which would render as a clause of its own.
    LineBreak { counter: bool, item: Seq<char> },
    /// The same input as both an example and a counterexample.
    Contradiction { item: Seq<char> },
}

/// Item `i` is empty, or repeats an earlier one.
pub open spec fn bad_item(items: Seq<Seq<char>>, i: int) -> bool {
    is_blank(items[i]) || items.take(i).contains(items[i])
}

/// The first bad item at or after `i`.
pub open spec fn first_bad_from(items: Seq<Seq<char>>, i: int) -> Option<int>
    decreases items.len() - i,
{
    if i < 0 || i >= items.len() {
        None
    } else if bad_item(items, i) {
        Some(i)
    } else {
        first_bad_from(items, i + 1)
    }
}

/// The first item at or after `i` that holds a line break.
pub open spec fn first_break_from(items: Seq<Seq<char>>, i: int) -> Option<int>
    decreases items.len() - i,
{
    if i < 0 || i >= items.len() {
        None
    } else if has_line_break(items[i]) {
        Some(i)
    } else {
        first_break_from(items, i + 1)
    }
}

/// The first example at or after `i` that is also a counterexample.
pub open spec fn first_contradiction_from(
    examples: Seq<Seq<char>>,
    counterexamples: Seq<Seq<char>>,
    i: int,
) -> Option<int>
    decreases examples.len() - i,
{
    if i < 0 || i >= examples.len() {
        None
    } else if counterexamples.contains(examples[i]) {
        Some(i)
    } else {
        first_contradiction_from(examples, counterexamples, i + 1)
    }
}

/// What is wrong with a clause, if anything.
pub open spec fn clause_fault(items: Seq<Seq<char>>, counter: bool) -> Option<RubricFault> {
    match first_bad_from(items, 0) {
        Some(i) => Some(
            if is_blank(items[i]) {
                RubricFault::EmptyItem { counter }
            } else {
                RubricFault::Duplicate { counter, item: items[i] }
            },
        ),
        None => None,
    }
}

/// The first item of a clause holding a line break, if any.
pub open spec fn break_fault(items: Seq<Seq<char>>, counter: bool) -> Option<RubricFault> {
    match first_break_from(items, 0) {
        Some(i) => Some(RubricFault::LineBreak { counter, item: items[i] }),
        None => None,
    }
}

/// The rubric has examples or counterexamples.
pub open spec fn has_parts(r: RubricView) -> bool {
    r.examples.len() > 0 || r.counterexamples.len() > 0
}

/// The first rule the rubric breaks, checked in this order: a blank description carrying
/// parts; an empty or repeated example; the same for counterexamples; a line break in an
/// example, then in a counterexample; an example that is also a counterexample.
pub open spec fn rubric_fault(r: RubricView) -> Option<RubricFault> {
    if is_blank(r.what) && has_parts(r) {
        Some(RubricFault::Blank { counter: r.examples.len() == 0 })
    } else if clause_fault(r.examples, false) is Some {
        clause_fault(r.examples, false)
    } else if clause_fault(r.counterexamples, true) is Some {
        clause_fault(r.counterexamples, true)
    } else if break_fault(r.examples, false) is Some {
        break_fault(r.examples, false)
    } else if break_fault(r.counterexamples, true) is Some {
        break_fault(r.counterexamples, true)
    } else {
        match first_contradiction_from(r.examples, r.counterexamples, 0) {
            Some(i) => Some(RubricFault::Contradiction { item: r.examples[i] }),
            None => None,
        }
    }
}

/// `an example` or `a counterexample`.
pub open spec fn item_noun(counter: bool) -> Seq<char> {
    if counter {
        "a counterexample"@
    } else {
        "an example"@
    }
}

/// `example` or `counterexample`.
pub open spec fn item_word(counter: bool) -> Seq<char> {
    if counter {
        "counterexample"@
    } else {
        "example"@
    }
}

/// The `Error::Config` detail for each fault.
pub open spec fn fault_message(f: RubricFault) -> Seq<char> {
    match f {
        RubricFault::Blank { counter } => item_noun(counter)
            + " needs a non-empty rubric to attach to"@,
        RubricFault::EmptyItem { counter } => item_noun(counter) + " must not be empty"@,
        RubricFault::Duplicate { counter, item } => "duplicate "@ + item_word(counter) + " "@
            + debug_quoted(item),
        RubricFault::LineBreak { counter, item } => item_noun(counter)
            + " may not contain a line break (U+000A or U+000D): "@ + debug_quoted(item),
        RubricFault::Contradiction { item } => debug_quoted(item)
            + " is both an example and a counterexample; it cannot be in and out of the same option"@,
    }
}

/// The wire text of a rubric:
/// `what`, then `\nExamples: ` and the examples joined by `; ` if there are any, then
/// `\nNot this option: ` and the counterexamples joined by `; ` if there are any.
pub open spec fn rendered(r: RubricView) -> Seq<char> {
    r.what + (if r.examples.len() > 0 {
        "\nExamples: "@ + join(r.examples, "; "@)
    } else {
        Seq::empty()
    }) + (if r.counterexamples.len() > 0 {
        "\nNot this option: "@ + join(r.counterexamples, "; "@)
    } else {
        Seq::empty()
    })
}

fn noun(counter: bool) -> (r: &'static str)
    ensures
        r@ == item_noun(counter),
{
    if counter {
        "a counterexample"
    } else {
        "an example"
    }
}

fn word(counter: bool) -> (r: &'static str)
    ensures
        r@ == item_word(counter),
{
    if counter {
        "counterexample"
    } else {
        "example"
    }
}

/// The first empty or repeated item.
fn first_bad(items: &Vec<String>) -> (r: Option<usize>)
    ensures
        match r {
            Some(i) => first_bad_from(texts(items@), 0) == Some(i as int),
            None => first_bad_from(texts(items@), 0) is None,
        },
{
    let ghost all = texts(items@);
    let mut i: usize = 0;
    while i < items.len()
        invariant
            i <= items@.len(),
            all == texts(items@),
            first_bad_from(all, 0) == first_bad_from(all, i as int),
        decreases items@.len() - i,
    {
        let is_empty = blank(items[i].as_str());
        let first = position(items, &items[i]);
        proof {
            assert(all[i as int] == items@[i as int]@);
            let j = first->0;
            assert(j <= i);
            assert(all.take(i as int).contains(all[i as int]) <==> j < i) by {
                if j < i {
                    assert(all.take(i as int)[j as int] == all[i as int]);
                }
                if all.take(i as int).contains(all[i as int]) {
                    let k = choose|k: int| 0 <= k < i && all.take(i as int)[k] == all[i as int];
                    assert(items@[k]@ == items@[i as int]@);
                }
            }
        }
        if is_empty || first.unwrap() < i {
            return Some(i);
        }
        i = i + 1;
    }
    None
}

/// The first item holding a line break.
fn first_break(items: &Vec<String>) -> (r: Option<usize>)
    ensures
        match r {
            Some(i) => first_break_from(texts(items@), 0) == Some(i as int),
            None => first_break_from(texts(items@), 0) is None,
        },
{
    let ghost all = texts(items@);
    let mut i: usize = 0;
    while i < items.len()
        invariant
            i <= items@.len(),
            all == texts(items@),
            first_break_from(all, 0) == first_break_from(all, i as int),
        decreases items@.len() - i,
    {
        assert(all[i as int] == items@[i as int]@);
        if line_break(items[i].as_str()) {
            return Some(i);
        }
        i = i + 1;
    }
    None
}

/// The first example that is also a counterexample.
fn first_contradiction(examples: &Vec<String>, counterexamples: &Vec<String>) -> (r: Option<
    usize,
>)
    ensures
        match r {
            Some(i) => first_contradiction_from(texts(examples@), texts(counterexamples@), 0)
                == Some(i as int),
            None => first_contradiction_from(texts(examples@), texts(counterexamples@), 0) is None,
        },
{
    let ghost ex = texts(examples@);
    let ghost cx = texts(counterexamples@);
    let mut i: usize = 0;
    while i < examples.len()
        invariant
            i <= examples@.len(),
            ex == texts(examples@),
            cx == texts(counterexamples@),
            first_contradiction_from(ex, cx, 0) == first_contradiction_from(ex, cx, i as int),
        decreases examples@.len() - i,
    {
        let found = position(counterexamples, &examples[i]);
        proof {
            assert(ex[i as int] == examples@[i as int]@);
            if found is Some {
                assert(cx[found->0 as int] == ex[i as int]);
            }
            if cx.contains(ex[i as int]) {
                let k = choose|k: int| 0 <= k < cx.len() && cx[k] == ex[i as int];
                assert(counterexamples@[k]@ == examples@[i as int]@);
            }
        }
        if found.is_some() {
            return Some(i);
        }
        i = i + 1;
    }
    None
}

/// Compose a rubric: the description, then the example clauses, one per line. With no
/// examples and no counterexamples the result is `what` itself, byte for byte; `what` is
/// used verbatim, never trimmed or re-punctuated.
pub fn render(what: &str, examples: &Vec<String>, counterexamples: &Vec<String>) -> (r: String)
    ensures
        r@ == rendered(RubricView { what: what@, examples: texts(examples@), counterexamples: texts(counterexamples@) }),
{
    let mut out = owned(what);
    if examples.len() > 0 {
        out.append("\nExamples: ");
        push_joined(&mut out, examples, "; ");
    }
    let ghost middle = out@;
    if counterexamples.len() > 0 {
        out.append("\nNot this option: ");
        push_joined(&mut out, counterexamples, "; ");
    }
    proof {
        let v = RubricView { what: what@, examples: texts(examples@), counterexamples: texts(counterexamples@) };
        let ex: Seq<char> = if v.examples.len() > 0 {
            "\nExamples: "@ + join(v.examples, "; "@)
        } else {
            Seq::empty()
        };
        assert(middle =~= v.what + ex);
        let cx: Seq<char> = if v.counterexamples.len() > 0 {
            "\nNot this option: "@ + join(v.counterexamples, "; "@)
        } else {
            Seq::empty()
        };
        assert(out@ =~= middle + cx);
    }
    out
}

impl Rubric {
    /// Start from what this option or criterion means.
    pub fn new(what: &str) -> (r: Rubric)
        ensures
            r@.what == what@,
            r@.examples.len() == 0,
            r@.counterexamples.len() == 0,
    {
        Rubric { what: owned(what), examples: Vec::new(), counterexamples: Vec::new() }
    }

    /// A rubric from its parts, as they were declared.
    pub fn from_parts(what: String, examples: Vec<String>, counterexamples: Vec<String>) -> (r: Rubric)
        ensures
            r@.what == what@,
            r@.examples == texts(examples@),
            r@.counterexamples == texts(counterexamples@),
    {
        Rubric { what, examples, counterexamples }
    }

    /// A rubric whose description is this string.
    pub fn from_string(what: String) -> (r: Rubric)
        ensures
            r@.what == what@,
            r@.examples.len() == 0,
            r@.counterexamples.len() == 0,
    {
        Rubric { what, examples: Vec::new(), counterexamples: Vec::new() }
    }

    /// Add an input that belongs here. Repeatable.
    pub fn example(self, example: &str) -> (r: Rubric)
        ensures
            r@.what == self@.what,
            r@.examples == self@.examples.push(example@),
            r@.counterexamples == self@.counterexamples,
    {
        let mut examples = self.examples;
        examples.push(owned(example));
        let r = Rubric { what: self.what, examples, counterexamples: self.counterexamples };
        assert(r@.examples =~= self@.examples.push(example@));
        r
    }

    /// Add an input that does not belong here. Repeatable.
    pub fn counterexample(self, counterexample: &str) -> (r: Rubric)
        ensures
            r@.what == self@.what,
            r@.examples == self@.examples,
            r@.counterexamples == self@.counterexamples.push(counterexample@),
    {
        let mut counterexamples = self.counterexamples;
        counterexamples.push(owned(counterexample));
        let r = Rubric { what: self.what, examples: self.examples, counterexamples };
        assert(r@.counterexamples =~= self@.counterexamples.push(counterexample@));
        r
    }

    /// The rubric carries examples or counterexamples.
    pub fn has_counterexamples(&self) -> (r: bool)
        ensures
            r == (self@.counterexamples.len() > 0),
    {
        self.counterexamples.len() > 0
    }

    /// The examples, in the order they were added.
    pub fn examples(&self) -> (r: &Vec<String>)
        ensures
            texts(r@) == self@.examples,
    {
        &self.examples
    }

    /// Compose the parts into the one string the API takes, without checking anything.
    pub fn to_string(&self) -> (r: String)
        ensures
            r@ == rendered(self@),
    {
        render(self.what.as_str(), &self.examples, &self.counterexamples)
    }

    /// The first rule this rubric breaks, if any.
    pub fn fault(&self) -> (r: Option<String>)
        ensures
            match rubric_fault(self@) {
                Some(f) => r matches Some(m) && m@ == fault_message(f),
                None => r is None,
            },
    {
        let ghost v = self@;
        if blank(self.what.as_str()) && (self.examples.len() > 0 || self.counterexamples.len() > 0) {
            let counter = self.examples.len() == 0;
            let mut m = owned(noun(counter));
            m.append(" needs a non-empty rubric to attach to");
            return Some(m);
        }
        if let Some(i) = first_bad(&self.examples) {
            return Some(self::item_message(&self.examples, i, false));
        }
        if let Some(i) = first_bad(&self.counterexamples) {
            return Some(self::item_message(&self.counterexamples, i, true));
        }
        if let Some(i) = first_break(&self.examples) {
            return Some(self::break_message(&self.examples, i, false));
        }
        if let Some(i) = first_break(&self.counterexamples) {
            return Some(self::break_message(&self.counterexamples, i, true));
        }
        if let Some(i) = first_contradiction(&self.examples, &self.counterexamples) {
            proof {
                lemma_first_contradiction_in_range(v.examples, v.counterexamples, 0);
            }
            let mut m = quoted(self.examples[i].as_str());
            m.append(
                " is both an example and a counterexample; it cannot be in and out of the same option",
            );
            assert(v.examples[i as int] == self.examples@[i as int]@);
            return Some(m);
        }
        None
    }

    /// Check, then render for the wire. A rule broken is [`Error::Config`] naming it.
    pub fn render(&self) -> (r: Result<String, Error>)
        ensures
            match rubric_fault(self@) {
                Some(f) => r matches Err(Error::Config { detail }) && detail@ == fault_message(f),
                None => r matches Ok(s) && s@ == rendered(self@),
            },
    {
        match self.fault() {
            Some(detail) => Err(Error::Config { detail }),
            None => Ok(self.to_string()),
        }
    }
}

/// The message for the first empty or repeated item of a clause.
fn item_message(items: &Vec<String>, i: usize, counter: bool) -> (m: String)
    requires
        first_bad_from(texts(items@), 0) == Some(i as int),
    ensures
        clause_fault(texts(items@), counter) matches Some(f) && m@ == fault_message(f),
{
    proof {
        lemma_first_bad_in_range(texts(items@), 0);
    }
    assert(texts(items@)[i as int] == items@[i as int]@);
    if blank(items[i].as_str()) {
        let mut m = owned(noun(counter));
        m.append(" must not be empty");
        m
    } else {
        let mut m = owned("duplicate ");
        m.append(word(counter));
        m.append(" ");
        let q = quoted(items[i].as_str());
        m.append(q.as_str());
        m
    }
}

/// The message for the first item of a clause holding a line break.
fn break_message(items: &Vec<String>, i: usize, counter: bool) -> (m: String)
    requires
        first_break_from(texts(items@), 0) == Some(i as int),
    ensures
        break_fault(texts(items@), counter) matches Some(f) && m@ == fault_message(f),
{
    proof {
        lemma_first_break_in_range(texts(items@), 0);
    }
    assert(texts(items@)[i as int] == items@[i as int]@);
    let mut m = owned(noun(counter));
    m.append(" may not contain a line break (U+000A or U+000D): ");
    let q = quoted(items[i].as_str());
    m.append(q.as_str());
    m
}

/// No bad item at or after `i` is what "no first bad item" means.
pub proof fn lemma_first_bad_none(items: Seq<Seq<char>>, i: int)
    requires
        0 <= i <= items.len(),
    ensures
        first_bad_from(items, i) is None <==> forall|k: int| i <= k < items.len() ==> !bad_item(items, k),
    decreases items.len() - i,
{
    if i < items.len() {
        lemma_first_bad_none(items, i + 1);
    }
}

/// Adding an item that is not blank and not already there keeps a clause free of bad items.
pub proof fn lemma_first_bad_push(items: Seq<Seq<char>>, x: Seq<char>)
    requires
        first_bad_from(items, 0) is None,
        !is_blank(x),
        !items.contains(x),
    ensures
        first_bad_from(items.push(x), 0) is None,
{
    let s = items.push(x);
    lemma_first_bad_none(items, 0);
    assert forall|k: int| 0 <= k < s.len() implies !bad_item(s, k) by {
        if k < items.len() {
            assert(s.take(k) =~= items.take(k));
            assert(!bad_item(items, k));
        } else {
            assert(s.take(k) =~= items);
        }
    }
    lemma_first_bad_none(s, 0);
}

proof fn lemma_first_bad_in_range(items: Seq<Seq<char>>, i: int)
    ensures
        first_bad_from(items, i) matches Some(j) ==> 0 <= j < items.len(),
    decreases items.len() - i,
{
    if 0 <= i < items.len() && !bad_item(items, i) {
        lemma_first_bad_in_range(items, i + 1);
    }
}

proof fn lemma_first_break_in_range(items: Seq<Seq<char>>, i: int)
    ensures
        first_break_from(items, i) matches Some(j) ==> 0 <= j < items.len(),
    decreases items.len() - i,
{
    if 0 <= i < items.len() && !has_line_break(items[i]) {
        lemma_first_break_in_range(items, i + 1);
    }
}

proof fn lemma_first_contradiction_in_range(
    examples: Seq<Seq<char>>,
    counterexamples: Seq<Seq<char>>,
    i: int,
)
    ensures
        first_contradiction_from(examples, counterexamples, i) matches Some(j) ==> 0 <= j
            < examples.len(),
    decreases examples.len() - i,
{
    if 0 <= i < examples.len() && !counterexamples.contains(examples[i]) {
        lemma_first_contradiction_in_range(examples, counterexamples, i + 1);
    }
}

/// A rubric with no examples and no counterexamples renders to its description, byte for
/// byte, and breaks no rule.
pub proof fn law_a_rubric_with_no_parts_renders_to_itself(r: RubricView)
    requires
        r.examples.len() == 0,
        r.counterexamples.len() == 0,
    ensures
        rendered(r) == r.what,
        rubric_fault(r) is None,
{
    assert(rendered(r) =~= r.what);
    assert(first_bad_from(r.examples, 0) is None);
    assert(first_bad_from(r.counterexamples, 0) is None);
    assert(first_break_from(r.examples, 0) is None);
    assert(first_break_from(r.counterexamples, 0) is None);
    assert(first_contradiction_from(r.examples, r.counterexamples, 0) is None);
}

/// What a rubric position accepts: a description, or a [`Rubric`] carrying examples.
pub trait IntoRubric: Sized + Sealed {
    /// The rubric this value stands for.
    spec fn rubric_view(&self) -> RubricView;

    /// Convert into a [`Rubric`].
    fn into_rubric(self) -> (r: Rubric)
        ensures
            r@ == self.rubric_view(),
    ;
}

impl Sealed for Rubric {}

impl<'a> Sealed for &'a str {}

impl Sealed for String {}

impl IntoRubric for Rubric {
    open spec fn rubric_view(&self) -> RubricView {
        self@
    }

    fn into_rubric(self) -> (r: Rubric) {
        self
    }
}

impl<'a> IntoRubric for &'a str {
    open spec fn rubric_view(&self) -> RubricView {
        RubricView { what: (*self)@, examples: Seq::empty(), counterexamples: Seq::empty() }
    }

    fn into_rubric(self) -> (r: Rubric) {
        let r = Rubric::new(self);
        assert(r@.examples =~= Seq::<Seq<char>>::empty());
        assert(r@.counterexamples =~= Seq::<Seq<char>>::empty());
        r
    }
}

impl IntoRubric for String {
    open spec fn rubric_view(&self) -> RubricView {
        RubricView { what: self@, examples: Seq::empty(), counterexamples: Seq::empty() }
    }

    fn into_rubric(self) -> (r: Rubric) {
        let r = Rubric::from_string(self);
        assert(r@.examples =~= Seq::<Seq<char>>::empty());
        assert(r@.counterexamples =~= Seq::<Seq<char>>::empty());
        r
    }
}

} // verus!
