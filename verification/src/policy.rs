//! The pure decision layer: thresholds in, labelled outcome out. No I/O, no generics.

use vstd::prelude::*;

use crate::api::{Answer, MAX_LEVELS, MIN_LEVELS};
use crate::error::Error;
use crate::text::{concat, debug_quoted, decimal, owned, push_decimal, quoted};
use crate::scalars::{
    Confidence, Probability, below, in_unit_interval, is_unit, magnitude, total_below, total_key,
    NEG_ZERO_BITS,
};

verus! {

/// The bit pattern of `0.5_f64`, the default of both noul thresholds.
pub const HALF_BITS: u64 = 0x3fe0_0000_0000_0000;

/// Fully settled, validated thresholds: the input of [`resolve`].
#[derive(Clone, Copy, Debug, PartialEq, Eq, Structural)]
pub struct Thresholds {
    yes_above: u64,
    no_below: u64,
    min_confidence: u64,
}

/// What invalid thresholds are told: the first field outside `0..=1`, in the order
/// `yes_above`, `no_below`, `min_confidence`; else that `no_below` is above `yes_above`.
pub open spec fn threshold_complaint(yes_above: u64, no_below: u64, min_confidence: u64) -> Seq<char> {
    if !in_unit_interval(yes_above) {
        "yes_above is outside 0..=1"@
    } else if !in_unit_interval(no_below) {
        "no_below is outside 0..=1"@
    } else if !in_unit_interval(min_confidence) {
        "min_confidence is outside 0..=1"@
    } else {
        "no_below is greater than yes_above"@
    }
}

/// Thresholds are valid when each lies in `0..=1` and `no_below <= yes_above`.
pub open spec fn valid_thresholds(yes_above: u64, no_below: u64, min_confidence: u64) -> bool {
    &&& in_unit_interval(yes_above)
    &&& in_unit_interval(no_below)
    &&& in_unit_interval(min_confidence)
    &&& magnitude(no_below) <= magnitude(yes_above)
}

impl Thresholds {
    /// Noul yes boundary (inclusive), as a bit pattern.
    pub closed spec fn yes_bits(self) -> u64 {
        self.yes_above
    }

    /// Noul no boundary (inclusive), as a bit pattern.
    pub closed spec fn no_bits(self) -> u64 {
        self.no_below
    }

    /// Choice/score confidence floor, as a bit pattern.
    pub closed spec fn min_bits(self) -> u64 {
        self.min_confidence
    }

    #[verifier::type_invariant]
    closed spec fn wf(self) -> bool {
        valid_thresholds(self.yes_above, self.no_below, self.min_confidence)
    }

    /// Validate: every field in `0..=1` (checked in the order `yes_above`, `no_below`,
    /// `min_confidence`), then `no_below <= yes_above`. Each failure is [`Error::Config`].
    pub fn new(yes_above: u64, no_below: u64, min_confidence: u64) -> (r: Result<Thresholds, Error>)
        ensures
            valid_thresholds(yes_above, no_below, min_confidence) <==> r is Ok,
            r matches Ok(t) ==> t.yes_bits() == yes_above && t.no_bits() == no_below
                && t.min_bits() == min_confidence,
            r matches Err(e) ==> e matches Error::Config { detail } && detail@ == threshold_complaint(
                yes_above,
                no_below,
                min_confidence,
            ),
    {
        if !is_unit(yes_above) {
            return Err(Error::Config { detail: owned("yes_above is outside 0..=1") });
        }
        if !is_unit(no_below) {
            return Err(Error::Config { detail: owned("no_below is outside 0..=1") });
        }
        if !is_unit(min_confidence) {
            return Err(Error::Config { detail: owned("min_confidence is outside 0..=1") });
        }
        if below(yes_above, no_below) {
            return Err(Error::Config { detail: owned("no_below is greater than yes_above") });
        }
        Ok(Thresholds { yes_above, no_below, min_confidence })
    }

    /// The crate defaults, `0.5 / 0.5 / 0.0`: no unsure band, never unsure on confidence.
    pub fn defaults() -> (t: Thresholds)
        ensures
            t.yes_bits() == HALF_BITS,
            t.no_bits() == HALF_BITS,
            t.min_bits() == 0,
    {
        Thresholds { yes_above: HALF_BITS, no_below: HALF_BITS, min_confidence: 0 }
    }

    /// Noul yes boundary (inclusive).
    pub fn yes_above(self) -> (r: u64)
        ensures
            r == self.yes_bits(),
    {
        self.yes_above
    }

    /// Noul no boundary (inclusive).
    pub fn no_below(self) -> (r: u64)
        ensures
            r == self.no_bits(),
    {
        self.no_below
    }

    /// Choice/score confidence floor.
    pub fn min_confidence(self) -> (r: u64)
        ensures
            r == self.min_bits(),
    {
        self.min_confidence
    }
}

impl Default for Thresholds {
    fn default() -> (t: Thresholds)
        ensures
            t.yes_bits() == HALF_BITS,
            t.no_bits() == HALF_BITS,
            t.min_bits() == 0,
    {
        Thresholds::defaults()
    }
}

/// A policy patch. Unset fields defer to the next layer (guide, then crate defaults).
#[derive(Clone, Copy, Debug, PartialEq, Eq, Structural)]
pub struct Policy {
    /// Noul: `p >= yes_above` is yes.
    pub yes_above: Option<u64>,
    /// Noul: `p <= no_below` is no.
    pub no_below: Option<u64>,
    /// Choice/score: `confidence < min_confidence` is unsure.
    pub min_confidence: Option<u64>,
}

/// `first` if it is set, else `second`.
pub open spec fn or_else(first: Option<u64>, second: Option<u64>) -> Option<u64> {
    if first is Some { first } else { second }
}

/// The value of a setting: what is set, else the default.
pub open spec fn or_default(setting: Option<u64>, default: u64) -> u64 {
    match setting {
        Some(v) => v,
        None => default,
    }
}

/// `a` patched over `b`, field by field.
pub open spec fn spec_over(a: Policy, b: Policy) -> Policy {
    Policy {
        yes_above: or_else(a.yes_above, b.yes_above),
        no_below: or_else(a.no_below, b.no_below),
        min_confidence: or_else(a.min_confidence, b.min_confidence),
    }
}

/// The thresholds a policy settles to, before validation: each unset field takes its default.
pub open spec fn settled_yes(p: Policy) -> u64 {
    or_default(p.yes_above, HALF_BITS)
}

pub open spec fn settled_no(p: Policy) -> u64 {
    or_default(p.no_below, HALF_BITS)
}

pub open spec fn settled_min(p: Policy) -> u64 {
    or_default(p.min_confidence, 0)
}

fn pick(first: Option<u64>, second: Option<u64>) -> (r: Option<u64>)
    ensures
        r == or_else(first, second),
{
    match first {
        Some(v) => Some(v),
        None => second,
    }
}

impl Policy {
    /// An empty patch.
    pub fn new() -> (p: Policy)
        ensures
            p.yes_above is None,
            p.no_below is None,
            p.min_confidence is None,
    {
        Policy { yes_above: None, no_below: None, min_confidence: None }
    }

    /// Set `yes_above`.
    pub fn yes_above(self, p: u64) -> (r: Policy)
        ensures
            r == (Policy { yes_above: Some(p), ..self }),
    {
        Policy { yes_above: Some(p), ..self }
    }

    /// Set `no_below`.
    pub fn no_below(self, p: u64) -> (r: Policy)
        ensures
            r == (Policy { no_below: Some(p), ..self }),
    {
        Policy { no_below: Some(p), ..self }
    }

    /// Set `min_confidence`.
    pub fn min_confidence(self, c: u64) -> (r: Policy)
        ensures
            r == (Policy { min_confidence: Some(c), ..self }),
    {
        Policy { min_confidence: Some(c), ..self }
    }

    /// `self` wins over `base`, field by field.
    pub fn over(self, base: Policy) -> (r: Policy)
        ensures
            r == spec_over(self, base),
    {
        Policy {
            yes_above: pick(self.yes_above, base.yes_above),
            no_below: pick(self.no_below, base.no_below),
            min_confidence: pick(self.min_confidence, base.min_confidence),
        }
    }

    /// Fill unset fields with the crate defaults and validate.
    pub fn settle(self) -> (r: Result<Thresholds, Error>)
        ensures
            valid_thresholds(settled_yes(self), settled_no(self), settled_min(self)) <==> r is Ok,
            r matches Ok(t) ==> t.yes_bits() == settled_yes(self) && t.no_bits() == settled_no(
                self,
            ) && t.min_bits() == settled_min(self),
            r matches Err(e) ==> e matches Error::Config { detail } && detail@ == threshold_complaint(
                settled_yes(self),
                settled_no(self),
                settled_min(self),
            ),
    {
        let d = Thresholds::defaults();
        let y = match self.yes_above {
            Some(v) => v,
            None => d.yes_above(),
        };
        let n = match self.no_below {
            Some(v) => v,
            None => d.no_below(),
        };
        let m = match self.min_confidence {
            Some(v) => v,
            None => d.min_confidence(),
        };
        Thresholds::new(y, n, m)
    }
}

impl Default for Policy {
    fn default() -> (p: Policy)
        ensures
            p.yes_above is None,
            p.no_below is None,
            p.min_confidence is None,
    {
        Policy::new()
    }
}

/// The three-way reading of a noul answer.
#[derive(Clone, Copy, Debug, PartialEq, Eq, Structural)]
pub enum Verdict {
    /// `p >= yes_above`.
    Yes(Probability),
    /// `p <= no_below`.
    No(Probability),
    /// Strictly between the two.
    Unsure(Probability),
}

/// What the policy concludes about one answer. Untyped: keys and indices, not Rust enums.
#[derive(Debug)]
pub enum Outcome {
    /// Noul.
    Noul(Verdict),
    /// Choice: the API's chosen key, its confidence, `confidence < min_confidence`, and the
    /// options by descending probability.
    Choice { key: String, confidence: Confidence, unsure: bool, ranked: Vec<(String, Probability)> },
    /// Score: the argmax level (ties to the lowest), the API's expected value (bit pattern),
    /// confidence, `confidence < min_confidence`, and each level's probability and
    /// description in level order.
    Score {
        index: usize,
        value: u64,
        confidence: Confidence,
        unsure: bool,
        distribution: Vec<Probability>,
        legend: Vec<String>,
    },
}

/// The reading of a noul probability under thresholds.
pub open spec fn noul_verdict(p: Probability, t: Thresholds) -> Verdict {
    if magnitude(p.bits()) >= magnitude(t.yes_bits()) {
        Verdict::Yes(p)
    } else if magnitude(p.bits()) <= magnitude(t.no_bits()) {
        Verdict::No(p)
    } else {
        Verdict::Unsure(p)
    }
}

/// A confidence is unsure when it is below the floor.
pub open spec fn is_unsure(c: Confidence, t: Thresholds) -> bool {
    magnitude(c.bits()) < magnitude(t.min_bits())
}

/// Some entry of the distribution has this key.
pub open spec fn has_key(entries: Seq<(String, Probability)>, key: Seq<char>) -> bool {
    exists|i: int| 0 <= i < entries.len() && (#[trigger] entries[i]).0@ == key
}

/// From position `i` on, `a` comes before `b` in the order of `str`: at the first position
/// where they differ, `a` has the lower char, or `a` ends there and `b` goes on.
pub open spec fn below_from(a: Seq<char>, b: Seq<char>, i: int) -> bool
    decreases a.len() - i,
{
    if i < 0 || i >= a.len() {
        0 <= i < b.len()
    } else if i >= b.len() {
        false
    } else if a[i] != b[i] {
        (a[i] as int) < (b[i] as int)
    } else {
        below_from(a, b, i + 1)
    }
}

/// Key `a` sorts before key `b` (the order of a `BTreeMap<String, _>`).
pub open spec fn key_below(a: Seq<char>, b: Seq<char>) -> bool {
    below_from(a, b, 0)
}

/// Entry `a` ranks strictly ahead of entry `b`: a higher probability (in `total_cmp`
/// order), or the same probability and a key that sorts first.
pub open spec fn entry_before(a: (String, Probability), b: (String, Probability)) -> bool {
    ||| total_key(a.1.bits()) > total_key(b.1.bits())
    ||| total_key(a.1.bits()) == total_key(b.1.bits()) && key_below(a.0@, b.0@)
}

/// Entry `a` (from position `ia` of the input) may come before entry `b` (from `ib`):
/// higher probability first, then the key in key order; entries that tie on both keep the
/// input order.
pub open spec fn ranked_before(a: (String, Probability), b: (String, Probability), ia: int, ib: int) -> bool {
    ||| entry_before(a, b)
    ||| !entry_before(b, a) && ia < ib
}

proof fn lemma_below_trans(a: Seq<char>, b: Seq<char>, c: Seq<char>, i: int)
    requires
        0 <= i,
        below_from(a, b, i),
        below_from(b, c, i),
    ensures
        below_from(a, c, i),
    decreases a.len() - i,
{
    if i < a.len() && i < b.len() && i < c.len() && a[i] == b[i] && b[i] == c[i] {
        lemma_below_trans(a, b, c, i + 1);
    }
}

proof fn lemma_below_total(a: Seq<char>, b: Seq<char>, i: int)
    requires
        0 <= i <= a.len(),
        i <= b.len(),
        !below_from(a, b, i),
        !below_from(b, a, i),
    ensures
        a.len() == b.len(),
        forall|j: int| i <= j < a.len() ==> a[j] == b[j],
    decreases a.len() - i,
{
    if i < a.len() && i < b.len() {
        if a[i] == b[i] {
            lemma_below_total(a, b, i + 1);
        } else {
            assert((a[i] as int) != (b[i] as int));
        }
    }
}

/// The key order is transitive, and any two keys that differ are ordered one way or the
/// other.
pub proof fn lemma_key_order(a: Seq<char>, b: Seq<char>, c: Seq<char>)
    ensures
        key_below(a, b) && key_below(b, c) ==> key_below(a, c),
        !key_below(a, b) && !key_below(b, a) ==> a == b,
        !key_below(a, a),
{
    if key_below(a, b) && key_below(b, c) {
        lemma_below_trans(a, b, c, 0);
    }
    if !key_below(a, b) && !key_below(b, a) {
        lemma_below_total(a, b, 0);
        assert(a =~= b);
    }
    if key_below(a, a) {
        lemma_below_irreflexive(a, 0);
    }
}

proof fn lemma_below_irreflexive(a: Seq<char>, i: int)
    requires
        0 <= i,
    ensures
        !below_from(a, a, i),
    decreases a.len() - i,
{
    if i < a.len() {
        lemma_below_irreflexive(a, i + 1);
    }
}

/// Being ahead is transitive.
proof fn lemma_entry_trans(a: (String, Probability), b: (String, Probability), c: (String, Probability))
    requires
        entry_before(a, b),
        entry_before(b, c),
    ensures
        entry_before(a, c),
{
    lemma_key_order(a.0@, b.0@, c.0@);
}

/// An entry ahead of `b` is ahead of anything `b` is not behind.
proof fn lemma_entry_ahead(a: (String, Probability), b: (String, Probability), c: (String, Probability))
    requires
        entry_before(a, b),
        !entry_before(c, b),
    ensures
        entry_before(a, c),
{
    lemma_key_order(a.0@, b.0@, c.0@);
    lemma_key_order(c.0@, b.0@, c.0@);
    lemma_key_order(b.0@, c.0@, b.0@);
}

/// `pi` maps each position of `ranked` to the position of the same entry in `entries`,
/// one to one, and `ranked` is in ranking order.
pub open spec fn ranking_witness(
    ranked: Seq<(String, Probability)>,
    entries: Seq<(String, Probability)>,
    pi: Seq<int>,
) -> bool {
    &&& pi.len() == ranked.len()
    &&& forall|k: int|
        0 <= k < pi.len() ==> 0 <= #[trigger] pi[k] < entries.len() && ranked[k] == entries[pi[k]]
    &&& forall|k: int, l: int| 0 <= k < l < pi.len() ==> #[trigger] pi[k] != #[trigger] pi[l]
    &&& forall|k: int, l: int|
        0 <= k < l < pi.len() ==> ranked_before(#[trigger] ranked[k], #[trigger] ranked[l], pi[k], pi[l])
}

/// `ranked` is `entries` sorted by descending probability (in `total_cmp` order), entries of
/// equal probability by key, entries equal in both keeping their order.
pub open spec fn is_ranking(
    ranked: Seq<(String, Probability)>,
    entries: Seq<(String, Probability)>,
) -> bool {
    &&& ranked.len() == entries.len()
    &&& exists|pi: Seq<int>| ranking_witness(ranked, entries, pi)
}

/// The binary64 pattern of the whole number `n`, for `1 <= n <= 9`.
pub open spec fn whole_bits(n: int) -> u64 {
    if n == 1 {
        0x3ff0_0000_0000_0000
    } else if n == 2 {
        0x4000_0000_0000_0000
    } else if n == 3 {
        0x4008_0000_0000_0000
    } else if n == 4 {
        0x4010_0000_0000_0000
    } else if n == 5 {
        0x4014_0000_0000_0000
    } else if n == 6 {
        0x4018_0000_0000_0000
    } else if n == 7 {
        0x401c_0000_0000_0000
    } else if n == 8 {
        0x4020_0000_0000_0000
    } else {
        0x4022_0000_0000_0000
    }
}

fn whole(n: usize) -> (r: u64)
    requires
        1 <= n <= 9,
    ensures
        r == whole_bits(n as int),
{
    if n == 1 {
        0x3ff0_0000_0000_0000
    } else if n == 2 {
        0x4000_0000_0000_0000
    } else if n == 3 {
        0x4008_0000_0000_0000
    } else if n == 4 {
        0x4010_0000_0000_0000
    } else if n == 5 {
        0x4014_0000_0000_0000
    } else if n == 6 {
        0x4018_0000_0000_0000
    } else if n == 7 {
        0x401c_0000_0000_0000
    } else if n == 8 {
        0x4020_0000_0000_0000
    } else {
        0x4022_0000_0000_0000
    }
}

/// The pattern is that of a number in `0.0..=top` (`top` a whole number of levels).
pub open spec fn score_in_range(score: u64, top: int) -> bool {
    score == NEG_ZERO_BITS || score <= whole_bits(top)
}

/// The legend and the distribution are the same contiguous levels `0..n`, `2 <= n <= 10`.
pub open spec fn well_shaped(legend: Seq<(u8, String)>, probs: Seq<(u8, Probability)>) -> bool {
    &&& MIN_LEVELS <= legend.len() <= MAX_LEVELS
    &&& probs.len() == legend.len()
    &&& forall|i: int| 0 <= i < legend.len() ==> (#[trigger] legend[i]).0 == i
    &&& forall|i: int| 0 <= i < probs.len() ==> (#[trigger] probs[i]).0 == i
}

/// What a score answer whose legend and distribution are not `0..n` is told, `n` being the
/// number of legend entries.
pub open spec fn shape_complaint(n: nat) -> Seq<char> {
    "score legend/probabilities must be contiguous levels 0..n with 2 <= n <= 10, got "@
        + decimal(n)
}

/// `index` is the first position of greatest probability.
pub open spec fn is_first_argmax(probs: Seq<(u8, Probability)>, index: int) -> bool {
    &&& 0 <= index < probs.len()
    &&& forall|j: int|
        0 <= j < probs.len() ==> magnitude((#[trigger] probs[j]).1.bits()) <= magnitude(
            probs[index].1.bits(),
        )
    &&& forall|j: int|
        0 <= j < index ==> magnitude((#[trigger] probs[j]).1.bits()) < magnitude(
            probs[index].1.bits(),
        )
}

/// What [`resolve`] returns for an answer under thresholds.
pub open spec fn resolution(answer: Answer, t: Thresholds, r: Result<Outcome, Error>) -> bool {
    match answer {
        Answer::Noul { noul } => r == Ok::<Outcome, Error>(Outcome::Noul(noul_verdict(noul, t))),
        Answer::Choice { choice, probabilities, confidence } => if has_key(
            probabilities@,
            choice@,
        ) {
            &&& r matches Ok(Outcome::Choice { key, confidence: c, unsure, ranked })
            &&& r->Ok_0->key == choice
            &&& r->Ok_0->Choice_confidence == confidence
            &&& r->Ok_0->Choice_unsure == is_unsure(confidence, t)
            &&& is_ranking(r->Ok_0->ranked@, probabilities@)
        } else {
            &&& r matches Err(Error::Protocol { .. })
            &&& r->Err_0->Protocol_detail@ == "choice "@ + debug_quoted(choice@)
                + " is not in the distribution"@
        },
        Answer::Score { score, legend, probabilities, confidence } => if well_shaped(
            legend@,
            probabilities@,
        ) && score_in_range(score, legend@.len() - 1) {
            &&& r matches Ok(Outcome::Score { .. })
            &&& is_first_argmax(probabilities@, r->Ok_0->index as int)
            &&& r->Ok_0->value == score
            &&& r->Ok_0->Score_confidence == confidence
            &&& r->Ok_0->Score_unsure == is_unsure(confidence, t)
            &&& r->Ok_0->distribution@ == probabilities@.map_values(
                |e: (u8, Probability)| e.1,
            )
            &&& r->Ok_0->legend@ == legend@.map_values(|e: (u8, String)| e.1)
        } else if !well_shaped(legend@, probabilities@) {
            &&& r matches Err(Error::Protocol { .. })
            &&& r->Err_0->Protocol_detail@ == shape_complaint(legend@.len())
        } else {
            &&& r matches Err(Error::Protocol { .. })
            &&& r->Err_0->Protocol_detail@ == "the score is outside 0..="@ + decimal(
                (legend@.len() - 1) as nat,
            )
        },
    }
}

/// Where an entry that comes after every ranked one in the input goes: after every ranked
/// entry it is not strictly ahead of.
fn insertion_point(ranked: &Vec<(String, Probability)>, e: &(String, Probability)) -> (pos: usize)
    ensures
        pos <= ranked@.len(),
        forall|k: int| 0 <= k < pos ==> !entry_before(*e, #[trigger] ranked@[k]),
        pos < ranked@.len() ==> entry_before(*e, ranked@[pos as int]),
{
    let mut pos: usize = 0;
    while pos < ranked.len() && !ahead(e, &ranked[pos])
        invariant
            pos <= ranked@.len(),
            forall|k: int| 0 <= k < pos ==> !entry_before(*e, #[trigger] ranked@[k]),
        decreases ranked@.len() - pos,
    {
        pos = pos + 1;
    }
    pos
}

/// `key_below`, computed.
fn key_sorts_before(a: &str, b: &str) -> (r: bool)
    ensures
        r == key_below(a@, b@),
{
    let na = a.unicode_len();
    let nb = b.unicode_len();
    let mut i: usize = 0;
    while i < na && i < nb
        invariant
            i <= na,
            i <= nb,
            na == a@.len(),
            nb == b@.len(),
            below_from(a@, b@, 0) == below_from(a@, b@, i as int),
        decreases na - i,
    {
        let ca = a.get_char(i);
        let cb = b.get_char(i);
        if ca != cb {
            return (ca as u32) < (cb as u32);
        }
        proof {
            lemma_below_step(a@, b@, 0, i as int);
        }
        i = i + 1;
    }
    i < nb
}

proof fn lemma_below_step(a: Seq<char>, b: Seq<char>, from: int, i: int)
    requires
        0 <= from <= i < a.len(),
        i < b.len(),
        a[i] == b[i],
        below_from(a, b, from) == below_from(a, b, i),
    ensures
        below_from(a, b, from) == below_from(a, b, i + 1),
{
}

/// `entry_before(*a, *b)`, computed.
fn ahead(a: &(String, Probability), b: &(String, Probability)) -> (r: bool)
    ensures
        r == entry_before(*a, *b),
{
    let pa = a.1.get();
    let pb = b.1.get();
    if total_below(pb, pa) {
        true
    } else if total_below(pa, pb) {
        false
    } else {
        key_sorts_before(a.0.as_str(), b.0.as_str())
    }
}

/// Sort the entries by descending probability, keeping the order of equal ones.
fn rank_entries(entries: &Vec<(String, Probability)>) -> (ranked: Vec<(String, Probability)>)
    ensures
        is_ranking(ranked@, entries@),
{
    let mut ranked: Vec<(String, Probability)> = Vec::new();
    let ghost mut pi: Seq<int> = Seq::empty();
    let mut i: usize = 0;
    while i < entries.len()
        invariant
            i <= entries@.len(),
            ranked@.len() == i,
            pi.len() == i,
            forall|k: int| 0 <= k < i ==> 0 <= #[trigger] pi[k] < i && ranked@[k] == entries@[pi[k]],
            forall|k: int, l: int| 0 <= k < l < i ==> #[trigger] pi[k] != #[trigger] pi[l],
            forall|k: int, l: int|
                0 <= k < l < i ==> ranked_before(#[trigger] ranked@[k], #[trigger] ranked@[l], pi[k], pi[l]),
        decreases entries@.len() - i,
    {
        let entry = (entries[i].0.clone(), entries[i].1);
        assert(entry == entries@[i as int]);
        let pos = insertion_point(&ranked, &entry);
        let ghost old_ranked = ranked@;
        let ghost old_pi = pi;
        ranked.insert(pos, entry);
        proof {
            pi = old_pi.insert(pos as int, i as int);
            assert(ranked@ == old_ranked.insert(pos as int, entry));
            assert(entry == entries@[i as int]);
            assert forall|k: int| 0 <= k < i + 1 implies 0 <= #[trigger] pi[k] < i + 1 && ranked@[k] == entries@[pi[k]] by {
                if k < pos {
                    assert(pi[k] == old_pi[k]);
                } else if k == pos {
                } else {
                    assert(pi[k] == old_pi[k - 1]);
                }
            }
            assert forall|k: int, l: int| 0 <= k < l < i + 1 implies #[trigger] pi[k] != #[trigger] pi[l] by {
                if k < pos && l < pos {
                } else if k < pos && l == pos {
                } else if k < pos {
                    assert(pi[l] == old_pi[l - 1]);
                } else if k == pos {
                    assert(pi[l] == old_pi[l - 1]);
                } else {
                    assert(pi[k] == old_pi[k - 1]);
                    assert(pi[l] == old_pi[l - 1]);
                }
            }
            assert forall|k: int, l: int| 0 <= k < l < i + 1 implies ranked_before(
                #[trigger] ranked@[k],
                #[trigger] ranked@[l],
                pi[k],
                pi[l],
            ) by {
                if k < pos && l < pos {
                    assert(ranked@[k] == old_ranked[k] && ranked@[l] == old_ranked[l]);
                } else if k < pos && l == pos {
                    assert(ranked@[k] == old_ranked[k]);
                    assert(!entry_before(entry, old_ranked[k]));
                } else if k < pos {
                    assert(ranked@[k] == old_ranked[k] && ranked@[l] == old_ranked[l - 1]);
                    assert(ranked_before(old_ranked[k], old_ranked[l - 1], old_pi[k], old_pi[l - 1]));
                } else if k == pos {
                    assert(ranked@[l] == old_ranked[l - 1]);
                    assert(entry_before(entry, old_ranked[pos as int]));
                    if l - 1 > pos {
                        let r0 = old_ranked[pos as int];
                        let r1 = old_ranked[l - 1];
                        assert(ranked_before(r0, r1, old_pi[pos as int], old_pi[l - 1]));
                        if entry_before(r0, r1) {
                            lemma_entry_trans(entry, r0, r1);
                        } else {
                            lemma_entry_ahead(entry, r0, r1);
                        }
                    }
                } else {
                    assert(ranked@[k] == old_ranked[k - 1] && ranked@[l] == old_ranked[l - 1]);
                    assert(ranked_before(old_ranked[k - 1], old_ranked[l - 1], old_pi[k - 1], old_pi[l - 1]));
                }
            }
        }
        i = i + 1;
    }
    proof {
        assert(ranking_witness(ranked@, entries@, pi));
    }
    ranked
}

/// The first position of greatest probability in a non-empty distribution.
fn first_argmax(probs: &Vec<(u8, Probability)>) -> (index: usize)
    requires
        probs@.len() > 0,
    ensures
        is_first_argmax(probs@, index as int),
{
    let mut best: usize = 0;
    let mut i: usize = 1;
    while i < probs.len()
        invariant
            0 < i <= probs@.len(),
            best < i,
            forall|j: int| 0 <= j < i ==> magnitude((#[trigger] probs@[j]).1.bits()) <= magnitude(probs@[best as int].1.bits()),
            forall|j: int| 0 <= j < best ==> magnitude((#[trigger] probs@[j]).1.bits()) < magnitude(probs@[best as int].1.bits()),
        decreases probs@.len() - i,
    {
        if below(probs[best].1.get(), probs[i].1.get()) {
            best = i;
        }
        i = i + 1;
    }
    best
}

/// Some entry has this key, computed.
fn contains_key(entries: &Vec<(String, Probability)>, key: &String) -> (r: bool)
    ensures
        r == has_key(entries@, key@),
{
    let mut i: usize = 0;
    while i < entries.len()
        invariant
            i <= entries@.len(),
            forall|j: int| 0 <= j < i ==> (#[trigger] entries@[j]).0@ != key@,
        decreases entries@.len() - i,
    {
        if entries[i].0 == *key {
            assert(entries@[i as int].0@ == key@);
            return true;
        }
        i = i + 1;
    }
    false
}

/// The legend and distribution are the same contiguous levels in the allowed range, computed.
fn shaped(legend: &Vec<(u8, String)>, probs: &Vec<(u8, Probability)>) -> (r: bool)
    ensures
        r == well_shaped(legend@, probs@),
{
    let n = legend.len();
    if n < MIN_LEVELS || n > MAX_LEVELS || probs.len() != n {
        return false;
    }
    let mut i: usize = 0;
    while i < n
        invariant
            n == legend@.len(),
            n == probs@.len(),
            n <= MAX_LEVELS,
            i <= n,
            forall|j: int| 0 <= j < i ==> (#[trigger] legend@[j]).0 == j,
            forall|j: int| 0 <= j < i ==> (#[trigger] probs@[j]).0 == j,
        decreases n - i,
    {
        if legend[i].0 as usize != i || probs[i].0 as usize != i {
            return false;
        }
        i = i + 1;
    }
    true
}

/// Apply thresholds to one answer. Pure and total except for malformed answers, which are
/// [`Error::Protocol`]: a chosen key absent from the distribution; a legend and distribution
/// that are not the same contiguous levels `0..n` with `2 <= n <= 10`; a score outside
/// `0..=n-1`.
pub fn resolve(answer: &Answer, t: Thresholds) -> (r: Result<Outcome, Error>)
    ensures
        resolution(*answer, t, r),
{
    match answer {
        Answer::Noul { noul } => {
            let p = noul.get();
            let v = if !below(p, t.yes_above()) {
                Verdict::Yes(*noul)
            } else if !below(t.no_below(), p) {
                Verdict::No(*noul)
            } else {
                Verdict::Unsure(*noul)
            };
            Ok(Outcome::Noul(v))
        },
        Answer::Choice { choice, probabilities, confidence } => {
            if !contains_key(probabilities, choice) {
                proof {
                    reveal_strlit("choice ");
                    reveal_strlit(" is not in the distribution");
                }
                let mut detail = concat("choice ", quoted(choice.as_str()).as_str());
                detail.append(" is not in the distribution");
                return Err(Error::Protocol { detail });
            }
            let ranked = rank_entries(probabilities);
            Ok(Outcome::Choice {
                key: choice.clone(),
                confidence: *confidence,
                unsure: below(confidence.get(), t.min_confidence()),
                ranked,
            })
        },
        Answer::Score { score, legend, probabilities, confidence } => {
            if !shaped(legend, probabilities) {
                proof {
                    reveal_strlit("score legend/probabilities must be contiguous levels 0..n with 2 <= n <= 10, got ");
                }
                let mut detail = owned(
                    "score legend/probabilities must be contiguous levels 0..n with 2 <= n <= 10, got ",
                );
                push_decimal(&mut detail, legend.len());
                return Err(Error::Protocol { detail });
            }
            let top = whole(legend.len() - 1);
            if !(*score == NEG_ZERO_BITS || *score <= top) {
                proof {
                    reveal_strlit("the score is outside 0..=");
                }
                let mut detail = owned("the score is outside 0..=");
                push_decimal(&mut detail, legend.len() - 1);
                return Err(Error::Protocol { detail });
            }
            let index = first_argmax(probabilities);
            let mut distribution: Vec<Probability> = Vec::new();
            let mut names: Vec<String> = Vec::new();
            let mut i: usize = 0;
            while i < probabilities.len()
                invariant
                    i <= probabilities@.len(),
                    probabilities@.len() == legend@.len(),
                    distribution@.len() == i,
                    names@.len() == i,
                    forall|j: int| 0 <= j < i ==> #[trigger] distribution@[j] == probabilities@[j].1,
                    forall|j: int| 0 <= j < i ==> #[trigger] names@[j] == legend@[j].1,
                decreases probabilities@.len() - i,
            {
                distribution.push(probabilities[i].1);
                names.push(legend[i].1.clone());
                i = i + 1;
            }
            assert(distribution@ == probabilities@.map_values(|e: (u8, Probability)| e.1));
            assert(names@ == legend@.map_values(|e: (u8, String)| e.1));
            Ok(Outcome::Score {
                index,
                value: *score,
                confidence: *confidence,
                unsure: below(confidence.get(), t.min_confidence()),
                distribution,
                legend: names,
            })
        },
    }
}

} // verus!
