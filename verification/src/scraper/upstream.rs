//! The checkout of the upstream repository.

use crate::scraper::json;
use crate::scraper::json::{read_member, MemberView};
use vstd::prelude::*;
use vstd::string::*;

verus! {

/// A checkout of the upstream repository.
#[derive(Debug)]
pub struct Upstream {
    pub root: String,
    pub commit: String,
    /// Whether the directory was made for this run and may be deleted.
    pub owned_temp: bool,
}

/// What is found out of a directory that may be a checkout.
#[derive(Debug)]
pub struct CheckoutFacts {
    pub has_git: bool,
    pub has_package_json: bool,
    /// The commit at its head, where it could be told.
    pub head: Option<String>,
}

impl Upstream {
    /// Takes a directory that is there already for a checkout. It has to look
    /// like one; a commit that cannot be told reads as unknown.
    pub fn from_existing(path: &str, facts: CheckoutFacts) -> (r: Result<Self, String>)
        ensures
            match r {
                Ok(u) => {
                    &&& facts.has_git || facts.has_package_json
                    &&& u.root@ == path@
                    &&& u.commit@ == match facts.head {
                        Some(h) => h@,
                        None => "unknown"@,
                    }
                    &&& !u.owned_temp
                },
                Err(e) => {
                    &&& !facts.has_git
                    &&& !facts.has_package_json
                    &&& e@ == path@ + " does not look like a checkout of exfil-zone-assistant"@
                },
            },
    {
        if !facts.has_git && !facts.has_package_json {
            let mut e: String = path.to_owned();
            e.append(" does not look like a checkout of exfil-zone-assistant");
            return Err(e);
        }
        let commit: String = match facts.head {
            Some(h) => h,
            None => "unknown".to_owned(),
        };
        Ok(Upstream { root: path.to_owned(), commit, owned_temp: false })
    }

    /// Takes a fresh clone for a checkout.
    pub fn cloned(into: &str, commit: String) -> (r: Self)
        ensures
            r.root@ == into@,
            r.commit == commit,
            r.owned_temp,
    {
        Upstream { root: into.to_owned(), commit, owned_temp: true }
    }
}

/// What to do next to get a clone.
#[derive(Debug, Clone, Copy, PartialEq, Eq, Structural)]
pub enum CloneStep {
    /// Clone the branch or tag that was asked for.
    CloneRef,
    /// Clone the default branch.
    CloneDefault,
    /// The clone is there.
    Done,
    /// Both failed.
    Failed,
}

impl CloneStep {
    /// What to do after the step, by whether it succeeded: where the branch
    /// that was asked for cannot be cloned, the default one is tried.
    pub fn after(self, succeeded: bool) -> (r: CloneStep)
        ensures
            r == match self {
                CloneStep::CloneRef => if succeeded {
                    CloneStep::Done
                } else {
                    CloneStep::CloneDefault
                },
                CloneStep::CloneDefault => if succeeded {
                    CloneStep::Done
                } else {
                    CloneStep::Failed
                },
                CloneStep::Done => CloneStep::Done,
                CloneStep::Failed => CloneStep::Failed,
            },
    {
        match self {
            CloneStep::CloneRef => if succeeded {
                CloneStep::Done
            } else {
                CloneStep::CloneDefault
            },
            CloneStep::CloneDefault => if succeeded {
                CloneStep::Done
            } else {
                CloneStep::Failed
            },
            CloneStep::Done => CloneStep::Done,
            CloneStep::Failed => CloneStep::Failed,
        }
    }
}

/// The version that a `version` member gives: its text, where it is a string.
pub open spec fn version_of(member: Option<MemberView>) -> Seq<char> {
    match member {
        Some(m) => match m.0 {
            Some(v) => v,
            None => "unknown"@,
        },
        None => "unknown"@,
    }
}

/// The version that a field gives; one that is missing reads as unknown.
pub fn version_or_unknown(field: Option<String>) -> (r: String)
    ensures
        r@ == match field {
            Some(v) => v@,
            None => "unknown"@,
        },
{
    match field {
        Some(v) => v,
        None => "unknown".to_owned(),
    }
}

/// The version that the text of the upstream `package.json` gives; what the
/// parser says of a text that is no JSON.
pub fn upstream_package_version(text: &str) -> (r: Result<String, String>)
    ensures
        match r {
            Ok(v) => json::json_member(text@, "version"@) matches Ok(m) && v@ == version_of(m),
            Err(e) => json::json_member(text@, "version"@) == Err::<Option<MemberView>, Seq<char>>(
                e@,
            ),
        },
{
    match read_member(text, "version") {
        Ok(Some(m)) => Ok(version_or_unknown(m.0)),
        Ok(None) => Ok(version_or_unknown(None)),
        Err(e) => Err(e),
    }
}

} // verus!
