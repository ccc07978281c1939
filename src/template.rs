use vstd::prelude::*;
use vstd::string::*;
use regex::Regex;

verus! {

#[verifier::external_type_specification]
#[verifier::external_body]
pub struct ExRegex(Regex);

/// Whether the regex source `source` compiles with the default settings.
pub uninterp spec fn regex_compiles(source: Seq<char>) -> bool;

/// Whether the regex compiled from `source` matches somewhere in `text`.
pub uninterp spec fn regex_finds(source: Seq<char>, text: Seq<char>) -> bool;

/// The spans (byte offsets) of the capture groups, group 0 first, of the
/// leftmost match of the regex compiled from `source` in `text`.
pub uninterp spec fn regex_groups(source: Seq<char>, text: Seq<char>) -> Seq<Option<(usize, usize)>>;

/// Every span that took part lies within `n` bytes and starts before it ends.
pub open spec fn spans_within(groups: Seq<Option<(usize, usize)>>, n: nat) -> bool {
    forall|g: int|
        0 <= g < groups.len() && (#[trigger] groups[g]) is Some ==> {
            let (start, end) = groups[g]->0;
            start <= end <= n
        }
}

/// The full-string form of a pattern: `^(?:pattern)$`. The group keeps a
/// top-level alternation inside both anchors.
pub open spec fn anchored(pattern: Seq<char>) -> Seq<char> {
    seq!['^', '(', '?', ':'] + pattern + seq![')', '$']
}

/// A compiled pattern together with the source it was compiled from.
/// Values are made only by `compile_source`, so `regex` is always the
/// compiled form of `source`.
pub struct Template {
    source: String,
    regex: Regex,
}

impl View for Template {
    type V = Seq<char>;

    closed spec fn view(&self) -> Seq<char> {
        self.source@
    }
}

/// Relies on `regex::Regex::new`: it returns `Ok` exactly when the source
/// compiles, and the regex is stored beside the source it came from.
#[verifier::external_body]
fn compile_source(source: String) -> (r: Option<Template>)
    ensures
        r is Some <==> regex_compiles(source@),
        r is Some ==> r->0@ == source@,
{
    match Regex::new(&source) {
        Ok(regex) => Some(Template { source, regex }),
        Err(_) => None,
    }
}

/// Relies on `regex::Regex::is_match`: whether the regex matches anywhere in
/// the text.
#[verifier::external_body]
fn regex_is_match(t: &Template, text: &str) -> (r: bool)
    ensures
        r == regex_finds(t@, text@),
{
    t.regex.is_match(text)
}

/// Relies on `regex::Regex::captures` and `Captures::iter`: `None` exactly when
/// there is no match; otherwise each group's byte span, or `None` for a group
/// that did not take part. Spans are ordered and lie within the text.
#[verifier::external_body]
fn regex_captures(t: &Template, text: &str) -> (r: Option<Vec<Option<(usize, usize)>>>)
    ensures
        r is Some <==> regex_finds(t@, text@),
        r is Some ==> r->0@ == regex_groups(t@, text@),
        r is Some ==> spans_within(r->0@, text.spec_bytes().len()),
{
    t.regex.captures(text).map(|caps| caps.iter().map(|m| m.map(|m| (m.start(), m.end()))).collect())
}

impl Template {
    /// Anchors `pattern` to the whole string and compiles it; `None` when the
    /// anchored form does not compile.
    pub fn compile(pattern: &str) -> (r: Option<Template>)
        ensures
            r is Some <==> regex_compiles(anchored(pattern@)),
            r is Some ==> r->0@ == anchored(pattern@),
    {
        let mut source = String::from_str("^(?:");
        source.append(pattern);
        source.append(")$");
        proof {
            reveal_strlit("^(?:");
            reveal_strlit(")$");
            assert(source@ =~= anchored(pattern@));
        }
        compile_source(source)
    }

    /// The anchored source this template was compiled from.
    pub fn source(&self) -> (r: &str)
        ensures
            r@ == self@,
    {
        self.source.as_str()
    }

    /// Whether the template matches the whole of `text`.
    pub fn is_match(&self, text: &str) -> (r: bool)
        ensures
            r == regex_finds(self@, text@),
    {
        regex_is_match(self, text)
    }

    /// The byte spans of the capture groups of the match in `text`, group 0
    /// first; `None` when the template does not match.
    pub fn capture_spans(&self, text: &str) -> (r: Option<Vec<Option<(usize, usize)>>>)
        ensures
            r is Some <==> regex_finds(self@, text@),
            r is Some ==> r->0@ == regex_groups(self@, text@),
            r is Some ==> spans_within(r->0@, text.spec_bytes().len()),
    {
        regex_captures(self, text)
    }
}

/// The anchored sources of a bank of templates, in order.
pub open spec fn bank_view(bank: Seq<Template>) -> Seq<Seq<char>> {
    bank.map_values(|t: Template| t@)
}

/// Compiles every pattern, anchored, in order. Fails with the index of the
/// first pattern whose anchored form does not compile.
pub fn compile_bank(patterns: &Vec<String>) -> (r: Result<Vec<Template>, usize>)
    ensures
        r is Ok <==> forall|i: int|
            0 <= i < patterns@.len() ==> regex_compiles(anchored(#[trigger] patterns@[i]@)),
        r is Ok ==> bank_view(r->Ok_0@) == patterns@.map_values(|p: String| anchored(p@)),
        r is Err ==> {
            let i = r->Err_0 as int;
            &&& 0 <= i < patterns@.len()
            &&& !regex_compiles(anchored(patterns@[i]@))
            &&& forall|j: int| 0 <= j < i ==> regex_compiles(anchored(#[trigger] patterns@[j]@))
        },
{
    let mut bank: Vec<Template> = Vec::new();
    let mut i: usize = 0;
    while i < patterns.len()
        invariant
            i <= patterns@.len(),
            bank@.len() == i,
            forall|j: int| 0 <= j < i ==> regex_compiles(anchored(#[trigger] patterns@[j]@)),
            forall|j: int| 0 <= j < i ==> (#[trigger] bank@[j])@ == anchored(patterns@[j]@),
        decreases patterns@.len() - i,
    {
        match Template::compile(patterns[i].as_str()) {
            Some(t) => bank.push(t),
            None => return Err(i),
        }
        i = i + 1;
    }
    assert(bank_view(bank@) =~= patterns@.map_values(|p: String| anchored(p@)));
    Ok(bank)
}

} // verus!
