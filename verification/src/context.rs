//! The per-invocation environment checks: the vault root and the features
//! directory must be directories when a command starts.
use vstd::prelude::*;
use crate::text::push_str;

verus! {

/// A directory every command needs is missing.
#[derive(Debug)]
pub enum ContextError {
    VaultDoesNotExist(String),
    FeaturesDirMissing(String),
}

impl ContextError {
    /// The human-readable message for this error.
    pub fn message(&self) -> (r: String)
        ensures
            r@ == match *self {
                ContextError::VaultDoesNotExist(p) => "vault directory does not exist: "@ + p@,
                ContextError::FeaturesDirMissing(p) => "features directory does not exist: "@ + p@,
            },
    {
        let mut out = String::new();
        match self {
            ContextError::VaultDoesNotExist(p) => {
                push_str(&mut out, "vault directory does not exist: ");
                push_str(&mut out, p.as_str());
            },
            ContextError::FeaturesDirMissing(p) => {
                push_str(&mut out, "features directory does not exist: ");
                push_str(&mut out, p.as_str());
            },
        }
        out
    }
}

/// Checks the directories a command depends on, given whether each is a
/// directory right now: the vault root first, then the features
/// directory under it.
pub fn check_dirs(root: &str, root_is_dir: bool, features_path: &str, features_is_dir: bool) -> (r: Result<
    (),
    ContextError,
>)
    ensures
        !root_is_dir ==> (r matches Err(ContextError::VaultDoesNotExist(p)) && p@ == root@),
        root_is_dir && !features_is_dir ==> (r matches Err(ContextError::FeaturesDirMissing(p)) && p@
            == features_path@),
        root_is_dir && features_is_dir ==> r is Ok,
{
    if !root_is_dir {
        return Err(ContextError::VaultDoesNotExist(String::from_str(root)));
    }
    if !features_is_dir {
        return Err(ContextError::FeaturesDirMissing(String::from_str(features_path)));
    }
    Ok(())
}

} // verus!
