//! Quick questions that can be asked with a key press.

use crate::text::owned;
use vstd::prelude::*;

verus! {

broadcast use vstd::string::group_string_axioms;

/// A quick question: the name that is shown, and the prompt that is sent.
#[derive(Debug)]
pub struct Template {
    pub name: String,
    pub prompt: String,
}

/// The contents of a [`Template`].
pub struct TemplateView {
    pub name: Seq<char>,
    pub prompt: Seq<char>,
}

impl View for Template {
    type V = TemplateView;

    open spec fn view(&self) -> TemplateView {
        TemplateView { name: self.name@, prompt: self.prompt@ }
    }
}

/// The contents of a list of templates.
pub open spec fn template_views(v: Seq<Template>) -> Seq<TemplateView> {
    v.map_values(|t: Template| t@)
}

/// The quick questions that are offered at first.
pub open spec fn first_templates() -> Seq<TemplateView> {
    seq![
        TemplateView {
            name: "TL;DR"@,
            prompt: "Give me a brief summary (tl;dr) of this recording in 2-3 sentences."@,
        },
        TemplateView {
            name: "What did I miss?"@,
            prompt: "What were the most important points discussed? List the key decisions, action items, or insights I should know about."@,
        },
        TemplateView {
            name: "Action items"@,
            prompt: "List all action items, tasks, or commitments mentioned in this recording. Include who is responsible if mentioned."@,
        },
        TemplateView {
            name: "Key decisions"@,
            prompt: "What decisions were made during this meeting or conversation? List them clearly."@,
        },
        TemplateView {
            name: "Open questions"@,
            prompt: "What questions were raised but not resolved? List any unresolved topics or follow-up items."@,
        },
    ]
}

fn template(name: &str, prompt: &str) -> (r: Template)
    ensures
        r@ == (TemplateView { name: name@, prompt: prompt@ }),
{
    Template { name: owned(name), prompt: owned(prompt) }
}

/// The quick questions that are offered at first.
pub fn default_templates() -> (r: Vec<Template>)
    ensures
        template_views(r@) == first_templates(),
{
    let mut out: Vec<Template> = Vec::new();
    out.push(
        template(
            "TL;DR",
            "Give me a brief summary (tl;dr) of this recording in 2-3 sentences.",
        ),
    );
    out.push(
        template(
            "What did I miss?",
            "What were the most important points discussed? List the key decisions, action items, or insights I should know about.",
        ),
    );
    out.push(
        template(
            "Action items",
            "List all action items, tasks, or commitments mentioned in this recording. Include who is responsible if mentioned.",
        ),
    );
    out.push(
        template(
            "Key decisions",
            "What decisions were made during this meeting or conversation? List them clearly.",
        ),
    );
    out.push(
        template(
            "Open questions",
            "What questions were raised but not resolved? List any unresolved topics or follow-up items.",
        ),
    );
    assert(template_views(out@) =~= first_templates());
    out
}

/// The templates to offer: those of the user's file, or the first ones where it
/// could not be read. The flag tells whether the file is to be written.
pub fn choose_templates(loaded: Option<Vec<Template>>) -> (r: (Vec<Template>, bool))
    ensures
        r.1 == (loaded is None),
        loaded matches Some(v) ==> r.0 == v,
        loaded is None ==> template_views(r.0@) == first_templates(),
{
    match loaded {
        Some(v) => (v, false),
        None => (default_templates(), true),
    }
}

} // verus!
