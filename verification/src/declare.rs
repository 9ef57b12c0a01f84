//! The rules of a `Choice` or `Levels` declaration: an enum whose unit variants are the
//! options of a choice or the levels of a score, described by doc comments and
//! `#[guide(..)]` attributes. Given the declaration as plain values, this checks it and
//! produces the option table or the level list.

use vstd::prelude::*;
use vstd::string::StringExecFns;

use crate::rubric::{
    RubricView, bad_item, first_bad_from, lemma_first_bad_none, lemma_first_bad_push, render, rendered,
};
use crate::text::{
    blank, debug_quoted, has_line_break, is_blank, join, line_break, owned, position, quoted,
    texts, trim, trimmed,
};

verus! {

/// The name `heck::ToSnakeCase::to_snake_case` gives an identifier.
pub uninterp spec fn snake_case(name: Seq<char>) -> Seq<char>;

/// `heck::ToSnakeCase::to_snake_case`: the identifier in `snake_case`.
#[verifier::external_body]
fn to_snake_case(name: &str) -> (r: String)
    ensures
        r@ == snake_case(name@),
{
    heck::ToSnakeCase::to_snake_case(name)
}

/// Which derive reads the declaration.
#[derive(Clone, Copy, Debug, PartialEq, Eq, Structural)]
pub enum Derive {
    /// `#[derive(Choice)]`: the variants are options.
    Choice,
    /// `#[derive(Levels)]`: the variants are levels, low to high.
    Levels,
}

/// One item of a `#[guide(..)]` attribute.
#[derive(Debug)]
pub enum GuideAttr {
    /// `key = "…"`: the wire key (choices only).
    Key(String),
    /// `rubric = "…"`: replaces the doc comment.
    Rubric(String),
    /// `fallback`: the answer when unsure (choices only).
    Fallback,
    /// `example = "…"`: an input that belongs here.
    Example(String),
    /// `counterexample = "…"`: an input that does not (choices only).
    Counterexample(String),
    /// Anything else, by its name.
    Unknown(String),
}

/// One variant as declared.
#[derive(Debug)]
pub struct VariantDecl {
    /// Its name.
    pub ident: String,
    /// It has no fields.
    pub unit: bool,
    /// Its `///` lines, as written.
    pub docs: Vec<String>,
    /// The items of its `#[guide(..)]` attributes, in order.
    pub attrs: Vec<GuideAttr>,
}

/// A declaration as the derive sees it.
#[derive(Debug)]
pub struct EnumDecl {
    /// It is an enum (a derive on a struct or union is refused).
    pub is_enum: bool,
    /// Its variants, in declaration order.
    pub variants: Vec<VariantDecl>,
}

/// One variant with its wire key, rubric, examples and fallback flag resolved.
#[derive(Debug)]
pub struct Variant {
    pub ident: String,
    pub key: String,
    pub rubric: Option<String>,
    pub examples: Vec<String>,
    pub counterexamples: Vec<String>,
    pub fallback: bool,
}

/// The examples among the attributes, in order.
pub open spec fn examples_of(attrs: Seq<GuideAttr>) -> Seq<Seq<char>>
    decreases attrs.len(),
{
    if attrs.len() == 0 {
        Seq::empty()
    } else {
        let rest = examples_of(attrs.drop_last());
        match attrs.last() {
            GuideAttr::Example(s) => rest.push(s@),
            _ => rest,
        }
    }
}

/// The counterexamples among the attributes, in order.
pub open spec fn counterexamples_of(attrs: Seq<GuideAttr>) -> Seq<Seq<char>>
    decreases attrs.len(),
{
    if attrs.len() == 0 {
        Seq::empty()
    } else {
        let rest = counterexamples_of(attrs.drop_last());
        match attrs.last() {
            GuideAttr::Counterexample(s) => rest.push(s@),
            _ => rest,
        }
    }
}

/// The last `key = …`, else `default`.
pub open spec fn key_of(attrs: Seq<GuideAttr>, default: Seq<char>) -> Seq<char>
    decreases attrs.len(),
{
    if attrs.len() == 0 {
        default
    } else {
        match attrs.last() {
            GuideAttr::Key(s) => s@,
            _ => key_of(attrs.drop_last(), default),
        }
    }
}

/// The last `rubric = …`, else `default`.
pub open spec fn rubric_of(attrs: Seq<GuideAttr>, default: Option<Seq<char>>) -> Option<Seq<char>>
    decreases attrs.len(),
{
    if attrs.len() == 0 {
        default
    } else {
        match attrs.last() {
            GuideAttr::Rubric(s) => Some(s@),
            _ => rubric_of(attrs.drop_last(), default),
        }
    }
}

/// Some attribute is `fallback`.
pub open spec fn has_fallback(attrs: Seq<GuideAttr>) -> bool {
    exists|i: int| 0 <= i < attrs.len() && attrs[i] is Fallback
}

/// The doc comment as one rubric: each line trimmed, joined by a space; none without lines.
pub open spec fn doc_rubric(docs: Seq<String>) -> Option<Seq<char>> {
    if docs.len() == 0 {
        None
    } else {
        Some(join(docs.map_values(|d: String| trim(d@)), " "@))
    }
}

/// The variant's rubric: `rubric = …` over the doc comment.
pub open spec fn variant_rubric(v: VariantDecl) -> Option<Seq<char>> {
    rubric_of(v.attrs@, doc_rubric(v.docs@))
}

/// The variant has examples or counterexamples.
pub open spec fn variant_has_parts(v: VariantDecl) -> bool {
    examples_of(v.attrs@).len() > 0 || counterexamples_of(v.attrs@).len() > 0
}

/// The rules one variant must keep.
pub open spec fn variant_ok(v: VariantDecl, d: Derive) -> bool {
    let ex = examples_of(v.attrs@);
    let cx = counterexamples_of(v.attrs@);
    let rubric = variant_rubric(v);
    &&& v.unit
    &&& forall|k: int| 0 <= k < v.attrs@.len() ==> !(#[trigger] v.attrs@[k] is Unknown)
    &&& d is Levels ==> forall|k: int|
        0 <= k < v.attrs@.len() ==> !(#[trigger] v.attrs@[k] is Key) && !(v.attrs@[k] is Counterexample)
    &&& first_bad_from(ex, 0) is None
    &&& first_bad_from(cx, 0) is None
    &&& variant_has_parts(v) ==> rubric is Some && !is_blank(rubric->Some_0)
    &&& forall|k: int| 0 <= k < ex.len() ==> !has_line_break(#[trigger] ex[k])
    &&& forall|k: int| 0 <= k < cx.len() ==> !has_line_break(#[trigger] cx[k])
}

/// An input is both an example and a counterexample of variant `i`, or an example of `i`
/// and of an earlier variant `j`.
pub open spec fn examples_clash(vs: Seq<VariantDecl>) -> bool {
    ||| exists|i: int, e: Seq<char>|
        0 <= i < vs.len() && #[trigger] examples_of(vs[i].attrs@).contains(e) && counterexamples_of(
            vs[i].attrs@,
        ).contains(e)
    ||| exists|j: int, i: int, e: Seq<char>|
        0 <= j < i < vs.len() && #[trigger] examples_of(vs[i].attrs@).contains(e) && #[trigger] examples_of(
            vs[j].attrs@,
        ).contains(e)
}

/// The rules a whole declaration must keep.
pub open spec fn declaration_ok(decl: EnumDecl, d: Derive) -> bool {
    &&& decl.is_enum
    &&& forall|i: int| 0 <= i < decl.variants@.len() ==> variant_ok(#[trigger] decl.variants@[i], d)
    &&& decl.variants@.len() >= 2
    &&& !examples_clash(decl.variants@)
}

/// `Variant` `v` is what declaration `dv` resolves to.
pub open spec fn resolves(v: Variant, dv: VariantDecl) -> bool {
    &&& v.ident@ == dv.ident@
    &&& v.key@ == key_of(dv.attrs@, snake_case(dv.ident@))
    &&& (v.rubric is Some <==> variant_rubric(dv) is Some)
    &&& v.rubric is Some ==> v.rubric->Some_0@ == variant_rubric(dv)->Some_0
    &&& texts(v.examples@) == examples_of(dv.attrs@)
    &&& texts(v.counterexamples@) == counterexamples_of(dv.attrs@)
    &&& v.fallback == has_fallback(dv.attrs@)
}

/// The name of the derive, as in `#[derive(Choice)]`.
pub open spec fn derive_name(d: Derive) -> Seq<char> {
    match d {
        Derive::Choice => "Choice"@,
        Derive::Levels => "Levels"@,
    }
}

/// The complaint that variant `v` has examples or counterexamples but no rubric to attach
/// them to.
pub open spec fn rubricless_text(v: VariantDecl) -> Seq<char> {
    "guideme: #[guide("@ + (if examples_of(v.attrs@).len() == 0 {
        "counterexample"@
    } else {
        "example"@
    }) + ")] on `"@ + v.ident@
        + "` needs a non-empty rubric to attach to (a /// doc comment or #[guide(rubric = \"…\")])"@
}

/// The complaint that variant `v` has fields.
pub open spec fn fields_text(v: VariantDecl, d: Derive) -> Seq<char> {
    "guideme: #[derive("@ + derive_name(d) + ")] needs unit variants; `"@ + v.ident@ + "` has fields"@
}

/// The rules checked item by item as a variant is read all hold: it has no fields, no item is
/// unknown or (on levels) a key or a counterexample, and no clause holds an empty or repeated
/// item.
pub open spec fn items_pass(v: VariantDecl, d: Derive) -> bool {
    &&& v.unit
    &&& forall|k: int| 0 <= k < v.attrs@.len() ==> !(#[trigger] v.attrs@[k] is Unknown)
    &&& d is Levels ==> forall|k: int|
        0 <= k < v.attrs@.len() ==> !(#[trigger] v.attrs@[k] is Key) && !(v.attrs@[k] is Counterexample)
    &&& first_bad_from(examples_of(v.attrs@), 0) is None
    &&& first_bad_from(counterexamples_of(v.attrs@), 0) is None
}

/// Item `k` is the first of the clause that holds a line break.
pub open spec fn first_breaking(items: Seq<Seq<char>>, k: int) -> bool {
    &&& 0 <= k < items.len()
    &&& has_line_break(items[k])
    &&& forall|j: int| 0 <= j < k ==> !has_line_break(#[trigger] items[j])
}

/// No item of the clause holds a line break.
pub open spec fn no_breaks(items: Seq<Seq<char>>) -> bool {
    forall|j: int| 0 <= j < items.len() ==> !has_line_break(#[trigger] items[j])
}

/// The complaint about a variant whose items pass, checked in this order: examples or
/// counterexamples with no rubric to attach to; the first example with a line break; the
/// first counterexample with one.
pub open spec fn late_complaint(v: VariantDecl, d: Derive, m: Seq<char>) -> bool {
    let ex = examples_of(v.attrs@);
    let cx = counterexamples_of(v.attrs@);
    if variant_has_parts(v) && (variant_rubric(v) is None || is_blank(variant_rubric(v)->Some_0)) {
        m == rubricless_text(v)
    } else if !no_breaks(ex) {
        exists|k: int| first_breaking(ex, k) && #[trigger] break_complaint(ex, k, false, m)
    } else {
        exists|k: int| first_breaking(cx, k) && #[trigger] break_complaint(cx, k, true, m)
    }
}

/// The complaint a broken variant gives: one of its complaints; the fields first; and, once
/// its items pass, in the order of [`late_complaint`].
pub open spec fn variant_error(v: VariantDecl, d: Derive, m: Seq<char>) -> bool {
    &&& variant_complaint(v, d, m)
    &&& !v.unit ==> m == fields_text(v, d)
    &&& items_pass(v, d) ==> late_complaint(v, d, m)
}

/// Variant `i` is the first that breaks a rule of its own.
pub open spec fn first_broken(vs: Seq<VariantDecl>, d: Derive, i: int) -> bool {
    &&& 0 <= i < vs.len()
    &&& !variant_ok(vs[i], d)
    &&& forall|k: int| 0 <= k < i ==> variant_ok(#[trigger] vs[k], d)
}

/// One of the complaints a broken rule of one variant gives.
pub open spec fn variant_complaint(v: VariantDecl, d: Derive, m: Seq<char>) -> bool {
    let ex = examples_of(v.attrs@);
    let cx = counterexamples_of(v.attrs@);
    ||| !v.unit && m == "guideme: #[derive("@ + derive_name(d) + ")] needs unit variants; `"@
        + v.ident@ + "` has fields"@
    ||| (exists|k: int| 0 <= k < v.attrs@.len() && #[trigger] v.attrs@[k] is Unknown) && m
        == "guideme: unknown #[guide(..)] option; expected key, rubric, fallback, example, or counterexample"@
    ||| d is Levels && (exists|k: int| 0 <= k < v.attrs@.len() && #[trigger] v.attrs@[k] is Key)
        && m == "guideme: #[guide(key)] is not allowed on Levels; levels are positional"@
    ||| d is Levels && (exists|k: int|
        0 <= k < v.attrs@.len() && #[trigger] v.attrs@[k] is Counterexample) && m
        == "guideme: #[guide(counterexample)] is not allowed on Levels; a level is a position on a scale, not an option to rule out"@
    ||| exists|k: int| #[trigger] item_complaint(ex, k, false, m)
    ||| exists|k: int| #[trigger] item_complaint(cx, k, true, m)
    ||| variant_has_parts(v) && (variant_rubric(v) is None || is_blank(variant_rubric(v)->Some_0))
        && m == "guideme: #[guide("@ + (if ex.len() == 0 {
        "counterexample"@
    } else {
        "example"@
    }) + ")] on `"@ + v.ident@
        + "` needs a non-empty rubric to attach to (a /// doc comment or #[guide(rubric = \"…\")])"@
    ||| exists|k: int| #[trigger] break_complaint(ex, k, false, m)
    ||| exists|k: int| #[trigger] break_complaint(cx, k, true, m)
}

/// The complaint that `e` is both an example and a counterexample of the variant `ident`.
pub open spec fn contradiction_text(ident: Seq<char>, d: Derive, e: Seq<char>) -> Seq<char> {
    "guideme: "@ + debug_quoted(e) + " is both an example and a counterexample of `"@ + ident
        + "`; it cannot be in and out of the same "@ + noun_of(d)
}

/// The complaint that `e` is an example of both the variants `earlier` and `later`.
pub open spec fn shared_text(earlier: Seq<char>, later: Seq<char>, d: Derive, e: Seq<char>) -> Seq<char> {
    "guideme: "@ + debug_quoted(e) + " is an example of both `"@ + earlier + "` and `"@ + later
        + "`; an input belongs to one "@ + noun_of(d)
}

/// Input `e` is both an example and a counterexample of `v`, and `m` says so.
pub open spec fn contradiction_complaint(v: VariantDecl, d: Derive, e: Seq<char>, m: Seq<char>) -> bool {
    &&& examples_of(v.attrs@).contains(e)
    &&& counterexamples_of(v.attrs@).contains(e)
    &&& m == contradiction_text(v.ident@, d, e)
}

/// Input `e` is an example of both `earlier` and `later`, and `m` says so.
pub open spec fn shared_complaint(
    earlier: VariantDecl,
    later: VariantDecl,
    d: Derive,
    e: Seq<char>,
    m: Seq<char>,
) -> bool {
    &&& examples_of(later.attrs@).contains(e)
    &&& examples_of(earlier.attrs@).contains(e)
    &&& m == shared_text(earlier.ident@, later.ident@, d, e)
}

/// One of the complaints a broken rule of the declaration gives.
pub open spec fn complaint(decl: EnumDecl, d: Derive, m: Seq<char>) -> bool {
    let vs = decl.variants@;
    ||| !decl.is_enum && m == "guideme: #[derive("@ + derive_name(d) + ")] only supports enums"@
    ||| exists|i: int| 0 <= i < vs.len() && variant_complaint(#[trigger] vs[i], d, m)
    ||| vs.len() < 2 && m == "guideme: #[derive("@ + derive_name(d) + ")] needs at least two variants"@
    ||| exists|i: int, e: Seq<char>| 0 <= i < vs.len() && #[trigger] contradiction_complaint(vs[i], d, e, m)
    ||| exists|j: int, i: int, e: Seq<char>|
        0 <= j < i < vs.len() && #[trigger] shared_complaint(vs[j], vs[i], d, e, m)
}

/// `option` or `level`.
pub open spec fn noun_of(d: Derive) -> Seq<char> {
    match d {
        Derive::Choice => "option"@,
        Derive::Levels => "level"@,
    }
}

/// Item `k` of a clause holds a line break, and `m` says so.
pub open spec fn break_complaint(items: Seq<Seq<char>>, k: int, counter: bool, m: Seq<char>) -> bool {
    &&& 0 <= k < items.len()
    &&& has_line_break(items[k])
    &&& m == "guideme: #[guide("@ + (if counter {
        "counterexample"@
    } else {
        "example"@
    }) + ")] may not contain a line break (U+000A or U+000D): "@ + debug_quoted(items[k])
}

/// Item `k` of a clause is blank, or repeats an earlier one, and `m` says so.
pub open spec fn item_complaint(items: Seq<Seq<char>>, k: int, counter: bool, m: Seq<char>) -> bool {
    let word = if counter {
        "counterexample"@
    } else {
        "example"@
    };
    &&& 0 <= k < items.len()
    &&& {
        ||| is_blank(items[k]) && m == "guideme: #[guide("@ + word + ")] must not be empty"@
        ||| items.take(k).contains(items[k]) && m == "guideme: duplicate #[guide("@ + word + " = "@
            + debug_quoted(items[k]) + ")] on this variant"@
    }
}

/// The name of the derive, computed.
fn name_of(d: Derive) -> (r: &'static str)
    ensures
        r@ == derive_name(d),
{
    match d {
        Derive::Choice => "Choice",
        Derive::Levels => "Levels",
    }
}

/// The doc comment as one rubric, computed.
fn doc_comment(docs: &Vec<String>) -> (r: Option<String>)
    ensures
        match doc_rubric(docs@) {
            Some(s) => r matches Some(t) && t@ == s,
            None => r is None,
        },
{
    if docs.len() == 0 {
        return None;
    }
    let mut lines: Vec<String> = Vec::new();
    let mut i: usize = 0;
    while i < docs.len()
        invariant
            i <= docs@.len(),
            lines@.len() == i,
            forall|k: int| 0 <= k < i ==> (#[trigger] lines@[k])@ == trim(docs@[k]@),
        decreases docs@.len() - i,
    {
        lines.push(trimmed(docs[i].as_str()));
        i = i + 1;
    }
    let mut out = String::new();
    crate::text::push_joined(&mut out, &lines, " ");
    assert(texts(lines@) =~= docs@.map_values(|d: String| trim(d@)));
    assert(out@ =~= join(docs@.map_values(|d: String| trim(d@)), " "@));
    Some(out)
}

/// `texts(s)` grows by one item when `s` does.
proof fn lemma_texts_push(s: Seq<String>, x: String)
    ensures
        texts(s.push(x)) == texts(s).push(x@),
{
    assert(texts(s.push(x)) =~= texts(s).push(x@));
}

/// The attributes up to `k + 1` are those up to `k` and one more.
proof fn lemma_take_step(attrs: Seq<GuideAttr>, k: int)
    requires
        0 <= k < attrs.len(),
    ensures
        attrs.take(k + 1).drop_last() == attrs.take(k),
        attrs.take(k + 1).last() == attrs[k],
{
    assert(attrs.take(k + 1).drop_last() =~= attrs.take(k));
}

/// Add a declared example or counterexample to its clause, refusing a blank one or a
/// repeat.
fn push_item(items: &mut Vec<String>, value: &String, counter: bool) -> (r: Result<(), String>)
    requires
        first_bad_from(texts(old(items)@), 0) is None,
    ensures
        match r {
            Ok(()) => final(items)@ == old(items)@.push(*value) && first_bad_from(texts(final(items)@), 0) is None,
            Err(m) => item_complaint(texts(old(items)@.push(*value)), old(items)@.len() as int, counter, m@),
        },
{
    let ghost before = texts(items@);
    proof {
        lemma_texts_push(items@, *value);
    }
    let word = clause_word(counter);
    if blank(value.as_str()) {
        let mut m = owned("guideme: #[guide(");
        m.append(word);
        m.append(")] must not be empty");
        proof {
            assert(texts(items@.push(*value))[before.len() as int] == value@);
        }
        return Err(m);
    }
    let found = position(items, value);
    if found.is_some() {
        let mut m = owned("guideme: duplicate #[guide(");
        m.append(word);
        m.append(" = ");
        let q = quoted(value.as_str());
        m.append(q.as_str());
        m.append(")] on this variant");
        proof {
            let s = texts(items@.push(*value));
            let j = found->0 as int;
            assert(s.take(before.len() as int) =~= before);
            assert(before[j] == value@);
            assert(s[before.len() as int] == value@);
            assert(s.take(before.len() as int).contains(s[before.len() as int]));
        }
        return Err(m);
    }
    proof {
        if before.contains(value@) {
            let j = choose|j: int| 0 <= j < before.len() && before[j] == value@;
            assert(items@[j]@ == value@);
        }
        lemma_first_bad_push(before, value@);
    }
    items.push(value.clone());
    Ok(())
}

/// `example` or `counterexample`.
fn clause_word(counter: bool) -> (r: &'static str)
    ensures
        r@ == (if counter {
            "counterexample"@
        } else {
            "example"@
        }),
{
    if counter {
        "counterexample"
    } else {
        "example"
    }
}

/// The first item of a clause holding a line break, if any.
fn first_break(items: &Vec<String>) -> (r: Option<usize>)
    ensures
        match r {
            None => forall|k: int| 0 <= k < items@.len() ==> !has_line_break(#[trigger] texts(items@)[k]),
            Some(i) => i < items@.len() && has_line_break(texts(items@)[i as int]) && forall|k: int|
                0 <= k < i ==> !has_line_break(#[trigger] texts(items@)[k]),
        },
{
    let mut i: usize = 0;
    while i < items.len()
        invariant
            i <= items@.len(),
            forall|k: int| 0 <= k < i ==> !has_line_break(#[trigger] texts(items@)[k]),
        decreases items@.len() - i,
    {
        assert(texts(items@)[i as int] == items@[i as int]@);
        if line_break(items[i].as_str()) {
            return Some(i);
        }
        i = i + 1;
    }
    None
}

/// The complaint about item `i` of a clause, which holds a line break.
fn break_message(items: &Vec<String>, i: usize, counter: bool) -> (m: String)
    requires
        i < items@.len(),
        has_line_break(texts(items@)[i as int]),
    ensures
        break_complaint(texts(items@), i as int, counter, m@),
{
    let mut m = owned("guideme: #[guide(");
    m.append(clause_word(counter));
    m.append(")] may not contain a line break (U+000A or U+000D): ");
    let q = quoted(items[i].as_str());
    m.append(q.as_str());
    assert(texts(items@)[i as int] == items@[i as int]@);
    m
}

/// Read one variant: apply its `#[guide(..)]` items in order to the key, the rubric, the
/// clauses and the fallback flag, then check what needs the whole variant.
pub fn variant(v: &VariantDecl, d: Derive) -> (r: Result<Variant, String>)
    ensures
        match r {
            Ok(out) => variant_ok(*v, d) && resolves(out, *v),
            Err(m) => !variant_ok(*v, d) && variant_error(*v, d, m@),
        },
{
    let ghost attrs = v.attrs@;
    if !v.unit {
        let mut m = owned("guideme: #[derive(");
        m.append(name_of(d));
        m.append(")] needs unit variants; `");
        m.append(v.ident.as_str());
        m.append("` has fields");
        return Err(m);
    }
    let ghost snake = snake_case(v.ident@);
    let ghost doc = doc_rubric(v.docs@);
    let mut key = to_snake_case(v.ident.as_str());
    let mut rubric = doc_comment(&v.docs);
    let mut examples: Vec<String> = Vec::new();
    let mut counterexamples: Vec<String> = Vec::new();
    let mut fallback = false;
    let mut k: usize = 0;
    while k < v.attrs.len()
        invariant
            attrs == v.attrs@,
            v.unit,
            k <= attrs.len(),
            key@ == key_of(attrs.take(k as int), snake),
            match rubric_of(attrs.take(k as int), doc) {
                Some(s) => rubric matches Some(t) && t@ == s,
                None => rubric is None,
            },
            texts(examples@) == examples_of(attrs.take(k as int)),
            texts(counterexamples@) == counterexamples_of(attrs.take(k as int)),
            fallback == (exists|j: int| 0 <= j < k && attrs[j] is Fallback),
            forall|j: int| 0 <= j < k ==> !(#[trigger] attrs[j] is Unknown),
            d is Levels ==> forall|j: int| 0 <= j < k ==> !(#[trigger] attrs[j] is Key) && !(attrs[j] is Counterexample),
            first_bad_from(texts(examples@), 0) is None,
            first_bad_from(texts(counterexamples@), 0) is None,
        decreases attrs.len() - k,
    {
        proof {
            lemma_take_step(attrs, k as int);
        }
        match &v.attrs[k] {
            GuideAttr::Key(s) => {
                if d == Derive::Levels {
                    proof {
                        assert(attrs[k as int] is Key);
                    }
                    return Err(owned("guideme: #[guide(key)] is not allowed on Levels; levels are positional"));
                }
                key = s.clone();
            },
            GuideAttr::Rubric(s) => {
                rubric = Some(s.clone());
            },
            GuideAttr::Fallback => {
                fallback = true;
            },
            GuideAttr::Example(s) => {
                let ghost before = examples@;
                match push_item(&mut examples, s, false) {
                    Ok(()) => {
                        proof {
                            lemma_texts_push(before, *s);
                        }
                    },
                    Err(m) => {
                        proof {
                            lemma_texts_push(before, *s);
                            let ex = examples_of(attrs);
                            assert(examples_of(attrs.take(k as int + 1)) == texts(before.push(*s)));
                            lemma_examples_prefix(attrs, k as int + 1);
                            let n = before.len() as int;
                            assert(texts(before.push(*s)) == ex.take(n + 1));
                            assert(ex.take(n + 1)[n] == ex[n]);
                            assert(ex.take(n + 1).take(n) =~= ex.take(n));
                            assert(item_complaint(ex, n, false, m@));
                            assert(bad_item(ex, n));
                            lemma_first_bad_none(ex, 0);
                        }
                        return Err(m);
                    },
                }
            },
            GuideAttr::Counterexample(s) => {
                if d == Derive::Levels {
                    proof {
                        assert(attrs[k as int] is Counterexample);
                    }
                    return Err(owned(
                        "guideme: #[guide(counterexample)] is not allowed on Levels; a level is a position on a scale, not an option to rule out",
                    ));
                }
                let ghost before = counterexamples@;
                match push_item(&mut counterexamples, s, true) {
                    Ok(()) => {
                        proof {
                            lemma_texts_push(before, *s);
                        }
                    },
                    Err(m) => {
                        proof {
                            lemma_texts_push(before, *s);
                            let cx = counterexamples_of(attrs);
                            lemma_counterexamples_prefix(attrs, k as int + 1);
                            let n = before.len() as int;
                            assert(texts(before.push(*s)) == cx.take(n + 1));
                            lemma_take_prefix(cx, n);
                            assert(item_complaint(cx, n, true, m@));
                            assert(bad_item(cx, n));
                            lemma_first_bad_none(cx, 0);
                        }
                        return Err(m);
                    },
                }
            },
            GuideAttr::Unknown(_) => {
                proof {
                    assert(attrs[k as int] is Unknown);
                }
                return Err(owned(
                    "guideme: unknown #[guide(..)] option; expected key, rubric, fallback, example, or counterexample",
                ));
            },
        }
        k = k + 1;
    }
    proof {
        assert(attrs.take(attrs.len() as int) =~= attrs);
    }
    let has_parts = examples.len() > 0 || counterexamples.len() > 0;
    let rubric_blank = match &rubric {
        Some(s) => blank(s.as_str()),
        None => true,
    };
    if has_parts && rubric_blank {
        let mut m = owned("guideme: #[guide(");
        m.append(clause_word(examples.len() == 0));
        m.append(")] on `");
        m.append(v.ident.as_str());
        m.append("` needs a non-empty rubric to attach to (a /// doc comment or #[guide(rubric = \"…\")])");
        return Err(m);
    }
    if let Some(i) = first_break(&examples) {
        let m = break_message(&examples, i, false);
        return Err(m);
    }
    if let Some(i) = first_break(&counterexamples) {
        let m = break_message(&counterexamples, i, true);
        return Err(m);
    }
    Ok(Variant { ident: v.ident.clone(), key, rubric, examples, counterexamples, fallback })
}

/// The first `n + 1` items, cut to `n`, are the first `n`; their last is item `n`.
proof fn lemma_take_prefix(s: Seq<Seq<char>>, n: int)
    requires
        0 <= n < s.len(),
    ensures
        s.take(n + 1).take(n) == s.take(n),
        s.take(n + 1)[n] == s[n],
{
    assert(s.take(n + 1).take(n) =~= s.take(n));
}

/// The examples of a prefix of the attributes are a prefix of the examples.
proof fn lemma_examples_prefix(attrs: Seq<GuideAttr>, k: int)
    requires
        0 <= k <= attrs.len(),
    ensures
        examples_of(attrs.take(k)) == examples_of(attrs).take(examples_of(attrs.take(k)).len() as int),
        examples_of(attrs.take(k)).len() <= examples_of(attrs).len(),
    decreases attrs.len() - k,
{
    if k < attrs.len() {
        lemma_examples_prefix(attrs, k + 1);
        assert(attrs.take(k + 1).drop_last() =~= attrs.take(k));
    } else {
        assert(attrs.take(k) =~= attrs);
    }
}

/// The counterexamples of a prefix of the attributes are a prefix of the counterexamples.
proof fn lemma_counterexamples_prefix(attrs: Seq<GuideAttr>, k: int)
    requires
        0 <= k <= attrs.len(),
    ensures
        counterexamples_of(attrs.take(k)) == counterexamples_of(attrs).take(
            counterexamples_of(attrs.take(k)).len() as int,
        ),
        counterexamples_of(attrs.take(k)).len() <= counterexamples_of(attrs).len(),
    decreases attrs.len() - k,
{
    if k < attrs.len() {
        lemma_counterexamples_prefix(attrs, k + 1);
        assert(attrs.take(k + 1).drop_last() =~= attrs.take(k));
    } else {
        assert(attrs.take(k) =~= attrs);
    }
}

/// The examples of a resolved variant.
pub open spec fn examples_view(v: Variant) -> Seq<Seq<char>> {
    texts(v.examples@)
}

/// The counterexamples of a resolved variant.
pub open spec fn counterexamples_view(v: Variant) -> Seq<Seq<char>> {
    texts(v.counterexamples@)
}

/// Among resolved variants: an input is both an example and a counterexample of variant
/// `i`, or an example of `i` and of an earlier variant `j`.
pub open spec fn resolved_clash(vs: Seq<Variant>) -> bool {
    ||| exists|i: int, e: Seq<char>|
        0 <= i < vs.len() && #[trigger] examples_view(vs[i]).contains(e) && counterexamples_view(
            vs[i],
        ).contains(e)
    ||| exists|j: int, i: int, e: Seq<char>|
        0 <= j < i < vs.len() && #[trigger] examples_view(vs[i]).contains(e) && #[trigger] examples_view(
            vs[j],
        ).contains(e)
}

/// Among resolved variants, `m` is the complaint about one such clash.
pub open spec fn resolved_complaint(vs: Seq<Variant>, d: Derive, m: Seq<char>) -> bool {
    ||| exists|i: int, e: Seq<char>|
        0 <= i < vs.len() && #[trigger] examples_view(vs[i]).contains(e) && counterexamples_view(
            vs[i],
        ).contains(e) && m == contradiction_text(vs[i].ident@, d, e)
    ||| exists|j: int, i: int, e: Seq<char>|
        0 <= j < i < vs.len() && #[trigger] examples_view(vs[i]).contains(e) && #[trigger] examples_view(
            vs[j],
        ).contains(e) && m == shared_text(vs[j].ident@, vs[i].ident@, d, e)
}

/// An example asserts that an input belongs to its variant, so it cannot also say it does
/// not, and it cannot say so of two variants at once. The same string as an example of one
/// variant and a counterexample of another is allowed.
fn check_examples(vs: &Vec<Variant>, d: Derive) -> (r: Result<(), String>)
    ensures
        match r {
            Ok(()) => !resolved_clash(vs@),
            Err(m) => resolved_clash(vs@) && resolved_complaint(vs@, d, m@),
        },
{
    let mut i: usize = 0;
    while i < vs.len()
        invariant
            i <= vs@.len(),
            forall|i2: int, a: int|
                0 <= i2 < i && 0 <= a < examples_view(vs@[i2]).len() ==> !counterexamples_view(vs@[i2]).contains(
                    #[trigger] examples_view(vs@[i2])[a],
                ) && forall|j: int| 0 <= j < i2 ==> !(#[trigger] examples_view(vs@[j])).contains(examples_view(vs@[i2])[a]),
        decreases vs@.len() - i,
    {
        let v = &vs[i];
        let mut a: usize = 0;
        while a < v.examples.len()
            invariant
                i < vs@.len(),
                *v == vs@[i as int],
                a <= examples_view(*v).len(),
                forall|i2: int, a2: int|
                    0 <= i2 < i && 0 <= a2 < examples_view(vs@[i2]).len() ==> !counterexamples_view(vs@[i2]).contains(
                        #[trigger] examples_view(vs@[i2])[a2],
                    ) && forall|j: int| 0 <= j < i2 ==> !(#[trigger] examples_view(vs@[j])).contains(examples_view(vs@[i2])[a2]),
                forall|a2: int|
                    0 <= a2 < a ==> !counterexamples_view(*v).contains(#[trigger] examples_view(*v)[a2]) && forall|j: int|
                        0 <= j < i ==> !(#[trigger] examples_view(vs@[j])).contains(examples_view(*v)[a2]),
            decreases examples_view(*v).len() - a,
        {
            let example = &v.examples[a];
            proof {
                assert(examples_view(*v)[a as int] == example@);
            }
            let found = position(&v.counterexamples, example);
            if let Some(c) = found {
                let mut m = owned("guideme: ");
                let q = quoted(example.as_str());
                m.append(q.as_str());
                m.append(" is both an example and a counterexample of `");
                m.append(v.ident.as_str());
                m.append("`; it cannot be in and out of the same ");
                m.append(noun(d));
                proof {
                    let e = example@;
                    assert(counterexamples_view(*v)[c as int] == e);
                    assert(examples_view(vs@[i as int]).contains(e));
                    assert(counterexamples_view(vs@[i as int]).contains(e));
                    assert(m@ == contradiction_text(vs@[i as int].ident@, d, e));
                }
                return Err(m);
            }
            let mut j: usize = 0;
            while j < i
                invariant
                    i < vs@.len(),
                    *v == vs@[i as int],
                    a < examples_view(*v).len(),
                    examples_view(*v)[a as int] == example@,
                    j <= i,
                    forall|j2: int| 0 <= j2 < j ==> !(#[trigger] examples_view(vs@[j2])).contains(example@),
                decreases i - j,
            {
                let other = &vs[j];
                let hit = position(&other.examples, example);
                if let Some(b) = hit {
                    let mut m = owned("guideme: ");
                    let q = quoted(example.as_str());
                    m.append(q.as_str());
                    m.append(" is an example of both `");
                    m.append(other.ident.as_str());
                    m.append("` and `");
                    m.append(v.ident.as_str());
                    m.append("`; an input belongs to one ");
                    m.append(noun(d));
                    proof {
                        let e = example@;
                        assert(examples_view(vs@[j as int])[b as int] == e);
                        assert(examples_view(vs@[j as int]).contains(e));
                        assert(examples_view(vs@[i as int]).contains(e));
                        assert(m@ == shared_text(vs@[j as int].ident@, vs@[i as int].ident@, d, e));
                    }
                    return Err(m);
                }
                proof {
                    if examples_view(vs@[j as int]).contains(example@) {
                        let b = choose|b: int| 0 <= b < examples_view(vs@[j as int]).len() && examples_view(vs@[j as int])[b] == example@;
                        assert(other.examples@[b]@ == example@);
                    }
                }
                j = j + 1;
            }
            proof {
                if counterexamples_view(*v).contains(example@) {
                    let c = choose|c: int| 0 <= c < counterexamples_view(*v).len() && counterexamples_view(*v)[c] == example@;
                    assert(v.counterexamples@[c]@ == example@);
                }
            }
            a = a + 1;
        }
        i = i + 1;
    }
    proof {
        assert forall|i2: int, e: Seq<char>|
            0 <= i2 < vs@.len() && #[trigger] examples_view(vs@[i2]).contains(e) implies !counterexamples_view(vs@[i2]).contains(e) by {
            let a = choose|a: int| 0 <= a < examples_view(vs@[i2]).len() && examples_view(vs@[i2])[a] == e;
            assert(!counterexamples_view(vs@[i2]).contains(examples_view(vs@[i2])[a]));
        }
        assert forall|j: int, i2: int, e: Seq<char>|
            0 <= j < i2 < vs@.len() && #[trigger] examples_view(vs@[i2]).contains(e) implies !(#[trigger] examples_view(vs@[j])).contains(e) by {
            let a = choose|a: int| 0 <= a < examples_view(vs@[i2]).len() && examples_view(vs@[i2])[a] == e;
            assert(!examples_view(vs@[j]).contains(examples_view(vs@[i2])[a]));
        }
    }
    Ok(())
}

/// `option` or `level`, computed.
fn noun(d: Derive) -> (r: &'static str)
    ensures
        r@ == noun_of(d),
{
    match d {
        Derive::Choice => "option",
        Derive::Levels => "level",
    }
}

/// Clashes among resolved variants are the clashes of their declarations, and so are the
/// complaints about them.
proof fn lemma_clash_resolved(vs: Seq<Variant>, dvs: Seq<VariantDecl>, d: Derive, m: Seq<char>)
    requires
        vs.len() == dvs.len(),
        forall|i: int| 0 <= i < vs.len() ==> resolves(#[trigger] vs[i], dvs[i]),
    ensures
        resolved_clash(vs) == examples_clash(dvs),
        resolved_complaint(vs, d, m) ==> {
            ||| exists|i: int, e: Seq<char>| 0 <= i < dvs.len() && #[trigger] contradiction_complaint(dvs[i], d, e, m)
            ||| exists|j: int, i: int, e: Seq<char>|
                0 <= j < i < dvs.len() && #[trigger] shared_complaint(dvs[j], dvs[i], d, e, m)
        },
{
    assert forall|i: int| 0 <= i < vs.len() implies examples_view(#[trigger] vs[i]) == examples_of(dvs[i].attrs@)
        && counterexamples_view(vs[i]) == counterexamples_of(dvs[i].attrs@) && vs[i].ident@ == dvs[i].ident@ by {
        assert(resolves(vs[i], dvs[i]));
    }
    if resolved_clash(vs) {
        if exists|i: int, e: Seq<char>|
            0 <= i < vs.len() && #[trigger] examples_view(vs[i]).contains(e) && counterexamples_view(vs[i]).contains(e) {
            let (i, e) = choose|i: int, e: Seq<char>|
                0 <= i < vs.len() && #[trigger] examples_view(vs[i]).contains(e) && counterexamples_view(vs[i]).contains(e);
            assert(examples_of(dvs[i].attrs@).contains(e));
        } else {
            let (j, i, e) = choose|j: int, i: int, e: Seq<char>|
                0 <= j < i < vs.len() && #[trigger] examples_view(vs[i]).contains(e) && #[trigger] examples_view(vs[j]).contains(e);
            assert(examples_of(dvs[i].attrs@).contains(e) && examples_of(dvs[j].attrs@).contains(e));
        }
    }
    if examples_clash(dvs) {
        if exists|i: int, e: Seq<char>|
            0 <= i < dvs.len() && #[trigger] examples_of(dvs[i].attrs@).contains(e) && counterexamples_of(dvs[i].attrs@).contains(e) {
            let (i, e) = choose|i: int, e: Seq<char>|
                0 <= i < dvs.len() && #[trigger] examples_of(dvs[i].attrs@).contains(e) && counterexamples_of(dvs[i].attrs@).contains(e);
            assert(examples_view(vs[i]).contains(e));
        } else {
            let (j, i, e) = choose|j: int, i: int, e: Seq<char>|
                0 <= j < i < dvs.len() && #[trigger] examples_of(dvs[i].attrs@).contains(e) && #[trigger] examples_of(dvs[j].attrs@).contains(e);
            assert(examples_view(vs[i]).contains(e) && examples_view(vs[j]).contains(e));
        }
    }
    if resolved_complaint(vs, d, m) {
        if exists|i: int, e: Seq<char>|
            0 <= i < vs.len() && #[trigger] examples_view(vs[i]).contains(e) && counterexamples_view(vs[i]).contains(e)
                && m == contradiction_text(vs[i].ident@, d, e) {
            let (i, e) = choose|i: int, e: Seq<char>|
                0 <= i < vs.len() && #[trigger] examples_view(vs[i]).contains(e) && counterexamples_view(vs[i]).contains(e)
                    && m == contradiction_text(vs[i].ident@, d, e);
            assert(contradiction_complaint(dvs[i], d, e, m));
        } else {
            let (j, i, e) = choose|j: int, i: int, e: Seq<char>|
                0 <= j < i < vs.len() && #[trigger] examples_view(vs[i]).contains(e) && #[trigger] examples_view(vs[j]).contains(e)
                    && m == shared_text(vs[j].ident@, vs[i].ident@, d, e);
            assert(shared_complaint(dvs[j], dvs[i], d, e, m));
        }
    }
}

/// Read the enum's variants, applying `#[guide(..)]` items to key, rubric and fallback, and
/// check the rules that span variants.
pub fn variants(decl: &EnumDecl, d: Derive) -> (r: Result<Vec<Variant>, String>)
    ensures
        match r {
            Ok(vs) => declaration_ok(*decl, d) && vs@.len() == decl.variants@.len() && forall|i: int|
                0 <= i < vs@.len() ==> resolves(#[trigger] vs@[i], decl.variants@[i]),
            Err(m) => {
                &&& !declaration_ok(*decl, d)
                &&& complaint(*decl, d, m@)
                &&& !decl.is_enum ==> m@ == "guideme: #[derive("@ + derive_name(d) + ")] only supports enums"@
                &&& decl.is_enum && (exists|i: int|
                    0 <= i < decl.variants@.len() && !variant_ok(#[trigger] decl.variants@[i], d)) ==> exists|i: int|
                    first_broken(decl.variants@, d, i) && variant_error(#[trigger] decl.variants@[i], d, m@)
            },
        },
{
    proof {
        reveal_strlit(")] only supports enums");
        reveal_strlit("guideme: #[derive(");
    }
    if !decl.is_enum {
        let mut m = owned("guideme: #[derive(");
        m.append(name_of(d));
        m.append(")] only supports enums");
        return Err(m);
    }
    let ghost dvs = decl.variants@;
    let mut out: Vec<Variant> = Vec::new();
    let mut i: usize = 0;
    while i < decl.variants.len()
        invariant
            dvs == decl.variants@,
            decl.is_enum,
            i <= dvs.len(),
            out@.len() == i,
            forall|k: int| 0 <= k < i ==> resolves(#[trigger] out@[k], dvs[k]),
            forall|k: int| 0 <= k < i ==> variant_ok(#[trigger] dvs[k], d),
        decreases dvs.len() - i,
    {
        match variant(&decl.variants[i], d) {
            Ok(v) => {
                out.push(v);
            },
            Err(m) => {
                proof {
                    assert(variant_complaint(dvs[i as int], d, m@));
                    assert(first_broken(dvs, d, i as int));
                }
                return Err(m);
            },
        }
        i = i + 1;
    }
    if out.len() < 2 {
        let mut m = owned("guideme: #[derive(");
        m.append(name_of(d));
        m.append(")] needs at least two variants");
        return Err(m);
    }
    match check_examples(&out, d) {
        Ok(()) => {
            proof {
                lemma_clash_resolved(out@, dvs, d, Seq::empty());
            }
            Ok(out)
        },
        Err(m) => {
            proof {
                lemma_clash_resolved(out@, dvs, d, m@);
            }
            Err(m)
        },
    }
}

/// A variant's wire key: `key = …`, else its name in `snake_case`.
pub open spec fn decl_key(dv: VariantDecl) -> Seq<char> {
    key_of(dv.attrs@, snake_case(dv.ident@))
}

/// A variant's rubric as the model reads it, examples and counterexamples composed in, or
/// none when the variant has no rubric.
pub open spec fn decl_rendered(dv: VariantDecl) -> Option<Seq<char>> {
    match variant_rubric(dv) {
        Some(what) => Some(
            rendered(
                RubricView {
                    what,
                    examples: examples_of(dv.attrs@),
                    counterexamples: counterexamples_of(dv.attrs@),
                },
            ),
        ),
        None => None,
    }
}

/// No two variants share a wire key.
pub open spec fn keys_distinct(vs: Seq<VariantDecl>) -> bool {
    forall|j: int, i: int| 0 <= j < i < vs.len() ==> decl_key(#[trigger] vs[j]) != decl_key(#[trigger] vs[i])
}

/// Two variants are marked `fallback`.
pub open spec fn two_fallbacks(vs: Seq<VariantDecl>) -> bool {
    exists|j: int, i: int|
        0 <= j < i < vs.len() && has_fallback(#[trigger] vs[j].attrs@) && has_fallback(#[trigger] vs[i].attrs@)
}

/// The rules a `Choice` declaration must keep.
pub open spec fn choice_ok(decl: EnumDecl) -> bool {
    let vs = decl.variants@;
    &&& declaration_ok(decl, Derive::Choice)
    &&& vs.len() <= 255
    &&& keys_distinct(vs)
    &&& !two_fallbacks(vs)
}

/// The complaint that two variants share the key of the later one, `later`; `first` names
/// the earlier.
pub open spec fn duplicate_text(key: Seq<char>, first: Seq<char>) -> Seq<char> {
    "guideme: duplicate key "@ + debug_quoted(key) + " (also on `"@ + first + "`)"@
}

/// One of the complaints a broken rule of a `Choice` declaration gives, the rules taken in
/// order: those of every declaration, then the number of options, then distinct keys, then
/// one fallback.
pub open spec fn choice_complaint(decl: EnumDecl, m: Seq<char>) -> bool {
    let vs = decl.variants@;
    ||| !declaration_ok(decl, Derive::Choice) && complaint(decl, Derive::Choice, m)
    ||| declaration_ok(decl, Derive::Choice) && vs.len() > 255 && m == "guideme: a Choice may have at most 255 options"@
    ||| declaration_ok(decl, Derive::Choice) && vs.len() <= 255 && exists|j: int, i: int|
        0 <= j < i < vs.len() && decl_key(#[trigger] vs[j]) == decl_key(#[trigger] vs[i]) && m == duplicate_text(
            decl_key(vs[i]),
            vs[j].ident@,
        )
    ||| declaration_ok(decl, Derive::Choice) && vs.len() <= 255 && keys_distinct(vs) && two_fallbacks(vs) && m
        == "guideme: only one variant may be #[guide(fallback)]"@
}

/// What `#[derive(Choice)]` generates, as values: for each variant in declaration order its
/// name, its wire key and its rendered rubric, and the fallback variant's position.
#[derive(Debug)]
pub struct ChoiceTable {
    /// Variant names, in declaration order.
    pub idents: Vec<String>,
    /// `(key, rubric)` pairs, in declaration order.
    pub rubric: Vec<(String, Option<String>)>,
    /// The position of the `#[guide(fallback)]` variant, if any.
    pub fallback: Option<usize>,
}

/// The composed rubric of a resolved variant, if it has one.
fn variant_rendered(v: &Variant) -> (r: Option<String>)
    ensures
        match v.rubric {
            Some(what) => r matches Some(t) && t@ == rendered(
                RubricView { what: what@, examples: texts(v.examples@), counterexamples: texts(v.counterexamples@) },
            ),
            None => r is None,
        },
{
    match &v.rubric {
        Some(what) => Some(render(what.as_str(), &v.examples, &v.counterexamples)),
        None => None,
    }
}

/// What expanding a `Choice` declaration gives: its option table when it keeps every rule,
/// else the complaint of the first rule it breaks.
pub open spec fn choice_expansion(decl: EnumDecl, r: Result<ChoiceTable, String>) -> bool {
    match r {
        Ok(t) => {
            let vs = decl.variants@;
            &&& choice_ok(decl)
            &&& t.idents@.len() == vs.len()
            &&& t.rubric@.len() == vs.len()
            &&& forall|i: int| 0 <= i < vs.len() ==> (#[trigger] t.idents@[i])@ == vs[i].ident@
            &&& forall|i: int|
                0 <= i < vs.len() ==> (#[trigger] t.rubric@[i]).0@ == decl_key(vs[i]) && match decl_rendered(
                    vs[i],
                ) {
                    Some(text) => t.rubric@[i].1 matches Some(s) && s@ == text,
                    None => t.rubric@[i].1 is None,
                }
            &&& match t.fallback {
                Some(f) => f < vs.len() && has_fallback(vs[f as int].attrs@),
                None => forall|i: int| 0 <= i < vs.len() ==> !has_fallback(#[trigger] vs[i].attrs@),
            }
        },
        Err(m) => !choice_ok(decl) && choice_complaint(decl, m@),
    }
}

/// Check a `Choice` declaration and build its option table.
pub fn expand_choice(decl: &EnumDecl) -> (r: Result<ChoiceTable, String>)
    ensures
        choice_expansion(*decl, r),
{
    let ghost dvs = decl.variants@;
    let vs = match variants(decl, Derive::Choice) {
        Ok(vs) => vs,
        Err(m) => return Err(m),
    };
    if vs.len() > 255 {
        return Err(owned("guideme: a Choice may have at most 255 options"));
    }
    let mut i: usize = 0;
    while i < vs.len()
        invariant
            i <= vs@.len(),
            vs@.len() == dvs.len(),
            dvs == decl.variants@,
            declaration_ok(*decl, Derive::Choice),
            vs@.len() <= 255,
            forall|x: int| 0 <= x < vs@.len() ==> resolves(#[trigger] vs@[x], dvs[x]),
            forall|j: int, k: int| 0 <= j < k < i ==> decl_key(#[trigger] dvs[j]) != decl_key(#[trigger] dvs[k]),
        decreases vs@.len() - i,
    {
        let mut j: usize = 0;
        while j < i
            invariant
                i < vs@.len(),
                j <= i,
                vs@.len() == dvs.len(),
                dvs == decl.variants@,
                declaration_ok(*decl, Derive::Choice),
                vs@.len() <= 255,
            dvs == decl.variants@,
            declaration_ok(*decl, Derive::Choice),
            vs@.len() <= 255,
                forall|x: int| 0 <= x < vs@.len() ==> resolves(#[trigger] vs@[x], dvs[x]),
                forall|j2: int| 0 <= j2 < j ==> decl_key(#[trigger] dvs[j2]) != decl_key(dvs[i as int]),
            decreases i - j,
        {
            if vs[j].key == vs[i].key {
                let mut m = owned("guideme: duplicate key ");
                let q = quoted(vs[i].key.as_str());
                m.append(q.as_str());
                m.append(" (also on `");
                m.append(vs[j].ident.as_str());
                m.append("`)");
                proof {
                    assert(resolves(vs@[j as int], dvs[j as int]));
                    assert(resolves(vs@[i as int], dvs[i as int]));
                    assert(decl_key(dvs[j as int]) == decl_key(dvs[i as int]));
                    assert(m@ == duplicate_text(decl_key(dvs[i as int]), dvs[j as int].ident@));
                }
                return Err(m);
            }
            proof {
                assert(resolves(vs@[j as int], dvs[j as int]));
                assert(resolves(vs@[i as int], dvs[i as int]));
            }
            j = j + 1;
        }
        i = i + 1;
    }
    let mut fallback: Option<usize> = None;
    let mut k: usize = 0;
    while k < vs.len()
        invariant
            k <= vs@.len(),
            vs@.len() == dvs.len(),
            dvs == decl.variants@,
            declaration_ok(*decl, Derive::Choice),
            vs@.len() <= 255,
            forall|x: int| 0 <= x < vs@.len() ==> resolves(#[trigger] vs@[x], dvs[x]),
            keys_distinct(dvs),
            match fallback {
                Some(f) => f < k && has_fallback(dvs[f as int].attrs@) && forall|x: int|
                    0 <= x < k && x != f ==> !has_fallback(#[trigger] dvs[x].attrs@),
                None => forall|x: int| 0 <= x < k ==> !has_fallback(#[trigger] dvs[x].attrs@),
            },
        decreases vs@.len() - k,
    {
        proof {
            assert(resolves(vs@[k as int], dvs[k as int]));
        }
        if vs[k].fallback {
            if let Some(f) = fallback {
                proof {
                    assert(vs@[k as int].fallback);
                    assert(has_fallback(dvs[f as int].attrs@) && has_fallback(dvs[k as int].attrs@));
                    assert(two_fallbacks(dvs));
                }
                return Err(owned("guideme: only one variant may be #[guide(fallback)]"));
            }
            fallback = Some(k);
        } else {
            proof {
                assert(!vs@[k as int].fallback);
            }
        }
        k = k + 1;
    }
    proof {
        if two_fallbacks(dvs) {
            let (j, i) = choose|j: int, i: int|
                0 <= j < i < dvs.len() && has_fallback(#[trigger] dvs[j].attrs@) && has_fallback(#[trigger] dvs[i].attrs@);
            assert(false);
        }
    }
    let mut idents: Vec<String> = Vec::new();
    let mut rubric: Vec<(String, Option<String>)> = Vec::new();
    let mut n: usize = 0;
    while n < vs.len()
        invariant
            n <= vs@.len(),
            vs@.len() == dvs.len(),
            dvs == decl.variants@,
            declaration_ok(*decl, Derive::Choice),
            vs@.len() <= 255,
            forall|x: int| 0 <= x < vs@.len() ==> resolves(#[trigger] vs@[x], dvs[x]),
            idents@.len() == n,
            rubric@.len() == n,
            forall|x: int| 0 <= x < n ==> (#[trigger] idents@[x])@ == dvs[x].ident@,
            forall|x: int|
                0 <= x < n ==> (#[trigger] rubric@[x]).0@ == decl_key(dvs[x]) && match decl_rendered(dvs[x]) {
                    Some(text) => rubric@[x].1 matches Some(s) && s@ == text,
                    None => rubric@[x].1 is None,
                },
        decreases vs@.len() - n,
    {
        let v = &vs[n];
        proof {
            assert(resolves(vs@[n as int], dvs[n as int]));
        }
        let text = variant_rendered(v);
        idents.push(v.ident.clone());
        rubric.push((v.key.clone(), text));
        n = n + 1;
    }
    Ok(ChoiceTable { idents, rubric, fallback })
}

/// The rules a `Levels` declaration must keep.
pub open spec fn levels_ok(decl: EnumDecl) -> bool {
    let vs = decl.variants@;
    &&& declaration_ok(decl, Derive::Levels)
    &&& vs.len() <= 10
    &&& forall|i: int| 0 <= i < vs.len() ==> !has_fallback(#[trigger] vs[i].attrs@)
    &&& forall|i: int| 0 <= i < vs.len() ==> (#[trigger] variant_rubric(vs[i])) is Some
}

/// The complaint that level `ident` has no rubric.
pub open spec fn no_rubric_text(ident: Seq<char>) -> Seq<char> {
    "guideme: level `"@ + ident + "` needs a rubric (a /// doc comment or #[guide(rubric = \"…\")])"@
}

/// One of the complaints a broken rule of a `Levels` declaration gives, the rules taken in
/// order: those of every declaration, then the number of levels, then no fallback, then a
/// rubric on every level.
pub open spec fn levels_complaint(decl: EnumDecl, m: Seq<char>) -> bool {
    let vs = decl.variants@;
    ||| !declaration_ok(decl, Derive::Levels) && complaint(decl, Derive::Levels, m)
    ||| declaration_ok(decl, Derive::Levels) && vs.len() > 10 && m == "guideme: a Score may have at most 10 levels"@
    ||| declaration_ok(decl, Derive::Levels) && vs.len() <= 10 && (exists|i: int|
        0 <= i < vs.len() && has_fallback(#[trigger] vs[i].attrs@)) && m
        == "guideme: #[guide(fallback)] is not allowed on Levels; use `.or(level)` at the call site"@
    ||| declaration_ok(decl, Derive::Levels) && vs.len() <= 10 && (forall|i: int|
        0 <= i < vs.len() ==> !has_fallback(#[trigger] vs[i].attrs@)) && exists|i: int|
        0 <= i < vs.len() && (#[trigger] variant_rubric(vs[i])) is None && m == no_rubric_text(vs[i].ident@)
}

/// What `#[derive(Levels)]` generates, as values: the variant names and their rendered
/// rubrics, low to high.
#[derive(Debug)]
pub struct LevelsTable {
    /// Variant names, low to high.
    pub idents: Vec<String>,
    /// Level rubrics, low to high.
    pub levels: Vec<String>,
}

/// Check a `Levels` declaration and build its level list.
pub fn expand_levels(decl: &EnumDecl) -> (r: Result<LevelsTable, String>)
    ensures
        match r {
            Ok(t) => {
                let vs = decl.variants@;
                &&& levels_ok(*decl)
                &&& t.idents@.len() == vs.len()
                &&& t.levels@.len() == vs.len()
                &&& forall|i: int| 0 <= i < vs.len() ==> (#[trigger] t.idents@[i])@ == vs[i].ident@
                &&& forall|i: int| 0 <= i < vs.len() ==> decl_rendered(vs[i]) == Some((#[trigger] t.levels@[i])@)
            },
            Err(m) => !levels_ok(*decl) && levels_complaint(*decl, m@),
        },
{
    let ghost dvs = decl.variants@;
    let vs = match variants(decl, Derive::Levels) {
        Ok(vs) => vs,
        Err(m) => return Err(m),
    };
    if vs.len() > 10 {
        return Err(owned("guideme: a Score may have at most 10 levels"));
    }
    let mut k: usize = 0;
    while k < vs.len()
        invariant
            k <= vs@.len(),
            vs@.len() == dvs.len(),
            dvs == decl.variants@,
            declaration_ok(*decl, Derive::Levels),
            vs@.len() <= 10,
            forall|x: int| 0 <= x < vs@.len() ==> resolves(#[trigger] vs@[x], dvs[x]),
            forall|x: int| 0 <= x < k ==> !has_fallback(#[trigger] dvs[x].attrs@),
        decreases vs@.len() - k,
    {
        proof {
            assert(resolves(vs@[k as int], dvs[k as int]));
        }
        if vs[k].fallback {
            return Err(owned("guideme: #[guide(fallback)] is not allowed on Levels; use `.or(level)` at the call site"));
        }
        k = k + 1;
    }
    let mut idents: Vec<String> = Vec::new();
    let mut levels: Vec<String> = Vec::new();
    let mut n: usize = 0;
    while n < vs.len()
        invariant
            n <= vs@.len(),
            vs@.len() == dvs.len(),
            dvs == decl.variants@,
            declaration_ok(*decl, Derive::Levels),
            vs@.len() <= 10,
            forall|x: int| 0 <= x < vs@.len() ==> resolves(#[trigger] vs@[x], dvs[x]),
            forall|x: int| 0 <= x < vs@.len() ==> !has_fallback(#[trigger] dvs[x].attrs@),
            idents@.len() == n,
            levels@.len() == n,
            forall|x: int| 0 <= x < n ==> (#[trigger] idents@[x])@ == dvs[x].ident@,
            forall|x: int| 0 <= x < n ==> decl_rendered(dvs[x]) == Some((#[trigger] levels@[x])@),
            forall|x: int| 0 <= x < n ==> (#[trigger] variant_rubric(dvs[x])) is Some,
        decreases vs@.len() - n,
    {
        let v = &vs[n];
        proof {
            assert(resolves(vs@[n as int], dvs[n as int]));
        }
        match variant_rendered(v) {
            Some(text) => {
                idents.push(v.ident.clone());
                levels.push(text);
            },
            None => {
                let mut m = owned("guideme: level `");
                m.append(v.ident.as_str());
                m.append("` needs a rubric (a /// doc comment or #[guide(rubric = \"…\")])");
                proof {
                    assert(variant_rubric(dvs[n as int]) is None);
                }
                return Err(m);
            },
        }
        n = n + 1;
    }
    Ok(LevelsTable { idents, levels })
}

} // verus!
