//! The mapping file's contents for one environment.

use vstd::prelude::*;

use crate::replace::ReplaceRule;
use crate::strmap::StrMap;

verus! {

/// What the mapping file holds for one environment: the application id of
/// each DSL file (by its path relative to the DSL directory), and the replace
/// rules applied to the files imported into it.
pub struct EnvConfig {
    pub apps: StrMap<String>,
    pub replace_rules: Option<Vec<ReplaceRule>>,
}

impl EnvConfig {
    /// The configuration of an environment the mapping file does not name:
    /// no applications and no rules.
    pub fn empty() -> (res: Self)
        ensures
            res.apps.wf(),
            res.apps@ == Map::<Seq<char>, Seq<char>>::empty(),
            res.replace_rules is None,
    {
        EnvConfig { apps: StrMap::new(), replace_rules: None }
    }

    /// The rules to apply, where there are any.
    pub fn rules_to_apply(&self) -> (res: Option<&Vec<ReplaceRule>>)
        ensures
            match res {
                Some(r) => self.replace_rules == Some(*r) && r@.len() > 0,
                None => match self.replace_rules {
                    Some(r) => r@.len() == 0,
                    None => true,
                },
            },
    {
        match &self.replace_rules {
            Some(r) => {
                if r.len() > 0 {
                    Some(r)
                } else {
                    None
                }
            },
            None => None,
        }
    }
}

} // verus!
