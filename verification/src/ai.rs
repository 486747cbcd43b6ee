//! The structured rewrite of an activity title, and the tally of rewrites.
use vstd::prelude::*;
use crate::text::{chars_of, trim, trim_exec};

verus! {

/// A rewritten timesheet description with its work category and technical area.
#[derive(Clone, Debug)]
pub struct AiEnrichment {
    pub description: String,
    pub category: String,
    pub technical_area: String,
}

/// Why a chat completion gave no usable rewrite.
#[derive(Clone, Copy, Debug, PartialEq, Eq, Structural)]
pub enum CompletionProblem {
    /// "Groq returned no completion choices"
    EmptyChoices,
    /// "Groq returned an empty completion"
    EmptyContent,
}

/// The content of the first choice of a completion, given the content of each choice in
/// order: no choice, or a first choice without content, is a problem.
pub fn first_choice_content(contents: Vec<Option<String>>) -> (r: Result<String, CompletionProblem>)
    ensures
        contents@.len() == 0 ==> r == Err::<String, CompletionProblem>(CompletionProblem::EmptyChoices),
        contents@.len() > 0 ==> match contents@[0] {
            Some(c) => (r matches Ok(t) && t@ == c@),
            None => r == Err::<String, CompletionProblem>(CompletionProblem::EmptyContent),
        },
{
    let mut contents = contents;
    if contents.len() == 0 {
        return Err(CompletionProblem::EmptyChoices);
    }
    match contents.remove(0) {
        Some(c) => Ok(c),
        None => Err(CompletionProblem::EmptyContent),
    }
}

impl AiEnrichment {
    /// The rewrite, where its description is not blank; a blank one counts as an empty
    /// completion.
    pub fn usable(self) -> (r: Result<AiEnrichment, CompletionProblem>)
        ensures
            trim(self.description@).len() > 0 ==> (r matches Ok(e) && e.description@ == self.description@
                && e.category@ == self.category@ && e.technical_area@ == self.technical_area@),
            trim(self.description@).len() == 0 ==> r == Err::<AiEnrichment, CompletionProblem>(CompletionProblem::EmptyContent),
    {
        if trim_exec(&chars_of(self.description.as_str())).len() == 0 {
            Err(CompletionProblem::EmptyContent)
        } else {
            Ok(self)
        }
    }
}

/// The API key read from the environment, where it is set to something other than blanks.
pub fn usable_api_key(value: Option<String>) -> (r: Option<String>)
    ensures
        match value {
            Some(v) => if trim(v@).len() > 0 {
                r matches Some(k) && k@ == v@
            } else {
                r is None
            },
            None => r is None,
        },
{
    match value {
        Some(v) => {
            if trim_exec(&chars_of(v.as_str())).len() == 0 {
                None
            } else {
                Some(v)
            }
        },
        None => None,
    }
}

/// How many entries were rewritten, and how many kept their title because the rewrite failed.
#[derive(Clone, Copy, Debug, PartialEq, Eq, Structural)]
pub struct EnrichmentStats {
    pub enriched: usize,
    pub failed: usize,
}

impl Default for EnrichmentStats {
    fn default() -> (r: EnrichmentStats)
        ensures
            r.enriched == 0 && r.failed == 0,
    {
        EnrichmentStats { enriched: 0, failed: 0 }
    }
}

impl EnrichmentStats {
    /// Counts one entry: rewritten, or kept because its rewrite failed.
    pub fn record(&mut self, enriched: bool)
        requires
            enriched ==> old(self).enriched < usize::MAX,
            !enriched ==> old(self).failed < usize::MAX,
        ensures
            enriched ==> final(self).enriched == old(self).enriched + 1 && final(self).failed == old(self).failed,
            !enriched ==> final(self).failed == old(self).failed + 1 && final(self).enriched == old(self).enriched,
    {
        if enriched {
            self.enriched += 1;
        } else {
            self.failed += 1;
        }
    }
}

} // verus!
