//! Rendering with the minijinja template engine.
//!
//! Values handed to the engine are built one constructor at a time; each
//! carries a ghost model of the value it holds, so that a rendering can be
//! specified over plain data.

use vstd::prelude::*;

verus! {

/// The plain data a template is rendered with.
pub enum TemplateData {
    /// The none value.
    Nothing,
    Bool(bool),
    Int(u32),
    Str(Seq<char>),
    List(Seq<TemplateData>),
    Dict(Seq<(Seq<char>, TemplateData)>),
}

#[verifier::external_type_specification]
#[verifier::external_body]
pub struct ExJinjaValue(minijinja::Value);

/// A minijinja value together with the plain data it was built from.
pub struct JinjaValue {
    value: minijinja::Value,
    model: Ghost<TemplateData>,
}

impl JinjaValue {
    /// The plain data this value holds.
    pub closed spec fn data(&self) -> TemplateData {
        self.model@
    }
}

/// What minijinja yields when the template `source`, registered under
/// `name` in a fresh environment, is rendered with `ctx`: the output, or the
/// message of the error that parsing or rendering raised.
pub uninterp spec fn jinja_output(name: Seq<char>, source: Seq<char>, ctx: TemplateData) -> Result<
    Seq<char>,
    Seq<char>,
>;

pub open spec fn string_result_view(r: Result<String, String>) -> Result<Seq<char>, Seq<char>> {
    match r {
        Ok(s) => Ok(s@),
        Err(e) => Err(e@),
    }
}

/// A string value, made by `minijinja::Value::from`.
#[verifier::external_body]
pub(crate) fn jv_str(s: &str) -> (r: JinjaValue)
    ensures
        r.data() == TemplateData::Str(s@),
{
    JinjaValue { value: minijinja::Value::from(s), model: Ghost(TemplateData::Str(s@)) }
}

/// An integer value, made by `minijinja::Value::from`.
#[verifier::external_body]
pub(crate) fn jv_u32(n: u32) -> (r: JinjaValue)
    ensures
        r.data() == TemplateData::Int(n),
{
    JinjaValue { value: minijinja::Value::from(n), model: Ghost(TemplateData::Int(n)) }
}

/// A boolean value, made by `minijinja::Value::from`.
#[verifier::external_body]
pub(crate) fn jv_bool(b: bool) -> (r: JinjaValue)
    ensures
        r.data() == TemplateData::Bool(b),
{
    JinjaValue { value: minijinja::Value::from(b), model: Ghost(TemplateData::Bool(b)) }
}

/// The none value, made by `minijinja::Value::from(())`.
#[verifier::external_body]
pub(crate) fn jv_none() -> (r: JinjaValue)
    ensures
        r.data() == TemplateData::Nothing,
{
    JinjaValue { value: minijinja::Value::from(()), model: Ghost(TemplateData::Nothing) }
}

pub open spec fn data_of_values(items: Seq<JinjaValue>) -> Seq<TemplateData> {
    items.map_values(|j: JinjaValue| j.data())
}

pub open spec fn data_of_entries(entries: Seq<(String, JinjaValue)>) -> Seq<(Seq<char>, TemplateData)> {
    entries.map_values(|e: (String, JinjaValue)| (e.0@, e.1.data()))
}

/// A sequence value, made by `minijinja::Value::from` on a vector of values.
#[verifier::external_body]
pub(crate) fn jv_list(items: Vec<JinjaValue>) -> (r: JinjaValue)
    ensures
        r.data() == TemplateData::List(data_of_values(items@)),
{
    let model = Ghost(TemplateData::List(data_of_values(items@)));
    JinjaValue {
        value: minijinja::Value::from(items.into_iter().map(|j| j.value).collect::<Vec<_>>()),
        model,
    }
}

/// A map value, made by `minijinja::Value::from_iter` on key/value pairs.
#[verifier::external_body]
pub(crate) fn jv_map(entries: Vec<(String, JinjaValue)>) -> (r: JinjaValue)
    ensures
        r.data() == TemplateData::Dict(data_of_entries(entries@)),
{
    let model = Ghost(TemplateData::Dict(data_of_entries(entries@)));
    JinjaValue {
        value: minijinja::Value::from_iter(entries.into_iter().map(|e| (e.0, e.1.value))),
        model,
    }
}

/// Registers `source` under `name` in a fresh `minijinja::Environment`
/// (`add_template`), looks it up (`get_template`) and renders it with `ctx`
/// (`render`); an error of any step is turned into its message. The outcome is
/// the one `jinja_output` names.
#[verifier::external_body]
pub(crate) fn jinja_render(name: &str, source: &str, ctx: &JinjaValue) -> (r: Result<String, String>)
    ensures
        string_result_view(r) == jinja_output(name@, source@, ctx.data()),
{
    let mut env = minijinja::Environment::new();
    env.add_template(name, source).map_err(|e| e.to_string())?;
    let template = env.get_template(name).map_err(|e| e.to_string())?;
    template.render(&ctx.value).map_err(|e| e.to_string())
}

} // verus!
