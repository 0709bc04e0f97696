//! The two supplied capabilities the action engine calls into: pattern
//! substitution on attribute values (the `regex` crate) and template
//! rendering for inner-content replacement (the `minijinja` crate). Each
//! call sits behind a trusted wrapper whose contract names its result; the
//! engine's own contracts are proved from those names.

use vstd::prelude::*;

use crate::element::Element;

verus! {

/// Whether `regex::Regex::new` accepts the pattern. A pure function of the
/// pattern text.
pub uninterp spec fn regex_valid(pattern: Seq<char>) -> bool;

/// Whether the compiled pattern matches anywhere in `input`. A pure function
/// of the pattern and the input.
pub uninterp spec fn regex_found(pattern: Seq<char>, input: Seq<char>) -> bool;

/// What `regex::Regex::replace_all` returns on `input` with `replacement`
/// (capture-group references in the replacement included). A pure function
/// of the three texts.
pub uninterp spec fn regex_replaced(
    pattern: Seq<char>,
    input: Seq<char>,
    replacement: Seq<char>,
) -> Seq<char>;

/// What rendering `source` against an element context gives: the context
/// holds the tag name under the key `tag` and the attributes, as a string
/// map, under the key `attributes`; the source is treated as an HTML
/// template (HTML auto-escaping on). `Err(())` stands for a template that
/// does not parse or does not render. A pure function of the three
/// arguments.
pub uninterp spec fn rendered(
    source: Seq<char>,
    tag: Seq<char>,
    attrs: Seq<(String, String)>,
) -> Result<Seq<char>, ()>;

/// Relies on `regex::Regex::new`: it returns `Ok` exactly when the pattern
/// is valid pattern syntax, and that depends on the pattern text alone.
#[verifier::external_body]
pub(crate) fn regex_is_valid(pattern: &str) -> (r: bool)
    ensures
        r == regex_valid(pattern@),
{
    regex::Regex::new(pattern).is_ok()
}

/// Relies on `regex::Regex::replace_all`: it replaces every non-overlapping
/// match of the pattern in `input` with the expansion of `replacement`, and
/// its documentation states that an input with no match comes back
/// unchanged.
#[verifier::external_body]
pub(crate) fn regex_replace_all(pattern: &str, input: &str, replacement: &str) -> (r: String)
    requires
        regex_valid(pattern@),
    ensures
        r@ == regex_replaced(pattern@, input@, replacement@),
        !regex_found(pattern@, input@) ==> r@ == input@,
{
    let re = regex::Regex::new(pattern).unwrap();
    re.replace_all(input, replacement).into_owned()
}

#[verifier::external_type_specification]
#[verifier::external_body]
pub struct ExMiniJinjaError(minijinja::Error);

/// Relies on `minijinja::Environment::add_template` and `Template::render`
/// on a fresh default environment: the template is registered under a name
/// with an `.html` suffix, so the default auto-escape rule escapes rendered
/// values as HTML; the context maps `tag` to the element's tag name and
/// `attributes` to its attributes as a string map. With the default
/// environment the result depends on the template source and that context
/// alone.
#[verifier::external_body]
pub(crate) fn render_template_raw(source: &str, ctx: &Element) -> (r: Result<
    String,
    minijinja::Error,
>)
    ensures
        r.is_ok() == rendered(source@, ctx.tag@, ctx.attrs@).is_ok(),
        r matches Ok(s) ==> s@ == rendered(source@, ctx.tag@, ctx.attrs@)->Ok_0,
{
    let mut env = minijinja::Environment::new();
    if let Err(e) = env.add_template("tmpl.html", source) {
        return Err(e);
    }
    let tmpl = env.get_template("tmpl.html").unwrap();
    let attributes: std::collections::BTreeMap<&str, &str> =
        ctx.attrs.iter().map(|kv| (kv.0.as_str(), kv.1.as_str())).collect();
    let mut vals = std::collections::BTreeMap::new();
    vals.insert("tag", minijinja::value::Value::from(ctx.tag.as_str()));
    vals.insert("attributes", minijinja::value::Value::from_serialize(&attributes));
    tmpl.render(&vals)
}

} // verus!
