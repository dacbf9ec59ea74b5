//! Rendering a Handlebars template against a JSON context.

use vstd::prelude::*;
use crate::error::DocError;

verus! {

/// Why a template could not be rendered: the context is not JSON, or the
/// template failed to render; each with the outside crate's message.
pub enum TemplateFailure {
    InvalidContext(String),
    Render(String),
}

/// The message of the error serde_json gives when it reads the text as a JSON value;
/// `None` when it reads it.
pub uninterp spec fn spec_context_error(context_json: Seq<char>) -> Option<Seq<char>>;

/// What Handlebars (HTML escaping off) renders from the template with the JSON value
/// of the context: the text, or the message of its render error.
pub uninterp spec fn spec_rendered_template(template: Seq<char>, context_json: Seq<char>) -> Result<
    Seq<char>,
    Seq<char>,
>;

/// Parses the context with `serde_json::from_str` and renders the template with
/// `Handlebars::render_template`, escaping switched off (`handlebars::no_escape`).
///
/// Trusted: a context that serde_json does not read gives its error message
/// ([`spec_context_error`]); otherwise the result is [`spec_rendered_template`], the
/// rendered text or the render error's message. Both messages are the errors' `Display`
/// texts, which depend on the template and the context alone.
#[verifier::external_body]
fn handlebars_render(template: &str, context_json: &str) -> (r: Result<String, TemplateFailure>)
    ensures
        match spec_context_error(context_json@) {
            Some(m) => r matches Err(TemplateFailure::InvalidContext(x)) && x@ == m,
            None => match spec_rendered_template(template@, context_json@) {
                Ok(s) => r matches Ok(out) && out@ == s,
                Err(m) => r matches Err(TemplateFailure::Render(x)) && x@ == m,
            },
        },
{
    let ctx: serde_json::Value = serde_json::from_str(context_json)
        .map_err(|e| TemplateFailure::InvalidContext(e.to_string()))?;
    let mut hbs = handlebars::Handlebars::new();
    hbs.register_escape_fn(handlebars::no_escape);
    hbs.render_template(template, &ctx).map_err(|e| TemplateFailure::Render(e.to_string()))
}

/// Renders a Markdown template with a JSON context (no HTML escaping).
pub fn render_template_to_markdown(template_md: &str, context_json: &str) -> (r: Result<String, DocError>)
    ensures
        match spec_context_error(context_json@) {
            Some(m) => r matches Err(DocError::InvalidContext(x)) && x@ == m,
            None => match spec_rendered_template(template_md@, context_json@) {
                Ok(s) => r matches Ok(out) && out@ == s,
                Err(m) => r matches Err(DocError::Template(x)) && x@ == m,
            },
        },
{
    match handlebars_render(template_md, context_json) {
        Ok(s) => Ok(s),
        Err(TemplateFailure::InvalidContext(m)) => Err(DocError::InvalidContext(m)),
        Err(TemplateFailure::Render(m)) => Err(DocError::Template(m)),
    }
}

} // verus!
