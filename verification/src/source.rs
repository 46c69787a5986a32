//! Resolution of a user-supplied source string into a clone URL and a
//! customizer candidate, and the library's error taxonomy.
//!
//! The decision order is fixed: a string in SSH or HTTPS remote syntax is
//! used verbatim; a string with the local-file prefix is used with the
//! prefix stripped; otherwise the string is looked up in the catalog; and
//! only when all three fail is the source unrecognized. A literal URL thus
//! always defeats a catalog entry of the same name.

use vstd::prelude::*;

use crate::catalog::{find_entry, Catalog, CatalogEntryV};
use crate::url::{is_remote_url, ParsedRemoteUrl};

verus! {

/// The customizer filename used when neither the command line nor the
/// catalog names one.
pub open spec fn default_customizer_name() -> Seq<char> {
    "customize.ts"@
}

/// The filename the default resolves to.
pub fn default_customizer() -> (r: String)
    ensures
        r@ == default_customizer_name(),
{
    String::from_str("customize.ts")
}

/// The prefix that marks a local-path source.
pub open spec fn file_prefix() -> Seq<char> {
    "file://"@
}

/// `s` starts with the local-file prefix.
pub open spec fn is_file_form(s: Seq<char>) -> bool {
    s.len() >= 7 && s.subrange(0, 7) == file_prefix()
}

/// Checks for the local-file prefix.
fn has_file_prefix(s: &str) -> (r: bool)
    ensures
        r == is_file_form(s@),
{
    proof {
        reveal_strlit("file://");
    }
    let n = s.unicode_len();
    if n < 7 {
        return false;
    }
    let r = s.get_char(0) == 'f' && s.get_char(1) == 'i' && s.get_char(2) == 'l' && s.get_char(3)
        == 'e' && s.get_char(4) == ':' && s.get_char(5) == '/' && s.get_char(6) == '/';
    proof {
        if r {
            assert(s@.subrange(0, 7) =~= file_prefix());
        } else {
            if s@.subrange(0, 7) == file_prefix() {
                assert(s@[0] == s@.subrange(0, 7)[0]);
                assert(s@[1] == s@.subrange(0, 7)[1]);
                assert(s@[2] == s@.subrange(0, 7)[2]);
                assert(s@[3] == s@.subrange(0, 7)[3]);
                assert(s@[4] == s@.subrange(0, 7)[4]);
                assert(s@[5] == s@.subrange(0, 7)[5]);
                assert(s@[6] == s@.subrange(0, 7)[6]);
                assert(false);
            }
        }
    }
    r
}

/// The failures the library distinguishes. Soft outcomes (no matching
/// remote, a missing catalog file, a missing customizer) are not errors and
/// are represented by `Option` results or reported as warnings instead.
#[derive(Debug)]
pub enum ProvisionError {
    /// The source is neither remote-URL syntax, nor a local path, nor a
    /// catalog name.
    UnrecognizedSource { source: String },
    /// The catalog file exists but cannot be parsed.
    ConfigMalformed { detail: String },
    /// The clone step failed; `url` is the attempted clone URL.
    CloneFailure { url: String, detail: String },
    /// The customizer was present but failed to run or exited nonzero;
    /// `path` is its resolved path.
    CustomizerFailure { path: String, detail: String },
}

impl ProvisionError {
    /// The user-facing message. The unrecognized-source message enumerates
    /// the accepted syntaxes.
    pub fn message(&self) -> (r: String)
        ensures
            match self {
                ProvisionError::UnrecognizedSource { source } => r@ == "Repository name '"@
                    + source@ + "' must start with https://, git@ or file://"@,
                ProvisionError::ConfigMalformed { detail } => r@ == detail@,
                ProvisionError::CloneFailure { url, detail } => r@
                    == "Unable to run `git clone` for '"@ + url@ + "': "@ + detail@,
                ProvisionError::CustomizerFailure { path, detail } => r@
                    == "There was a problem running customizer file '"@ + path@ + "': "@
                    + detail@,
            },
    {
        match self {
            ProvisionError::UnrecognizedSource { source } => String::from_str(
                "Repository name '",
            ).concat(source.as_str()).concat("' must start with https://, git@ or file://"),
            ProvisionError::ConfigMalformed { detail } => detail.clone(),
            ProvisionError::CloneFailure { url, detail } => String::from_str(
                "Unable to run `git clone` for '",
            ).concat(url.as_str()).concat("': ").concat(detail.as_str()),
            ProvisionError::CustomizerFailure { path, detail } => String::from_str(
                "There was a problem running customizer file '",
            ).concat(path.as_str()).concat("': ").concat(detail.as_str()),
        }
    }
}

/// A resolved source: what to clone, and the customizer filename candidate
/// after catalog-level defaulting but before the command-line override.
#[derive(Debug)]
pub struct ResolvedSource {
    pub clone_url: String,
    pub customizer_candidate: String,
}

/// The customizer candidate a catalog entry yields: its declared customizer,
/// or the default.
pub open spec fn entry_customizer(e: CatalogEntryV) -> Seq<char> {
    match e.customizer {
        Some(c) => c,
        None => default_customizer_name(),
    }
}

/// Resolves a source string against the catalog. Direct URL syntax wins over
/// the local-file prefix, which wins over a catalog name; a source matching
/// none of the three is rejected.
pub fn resolve_source(source: &str, catalog: &Catalog) -> (r: Result<
    ResolvedSource,
    ProvisionError,
>)
    ensures
        is_remote_url(source@) ==> (r matches Ok(s) && s.clone_url@ == source@
            && s.customizer_candidate@ == default_customizer_name()),
        !is_remote_url(source@) && is_file_form(source@) ==> (r matches Ok(s) && s.clone_url@
            == source@.skip(7) && s.customizer_candidate@ == default_customizer_name()),
        (!is_remote_url(source@) && !is_file_form(source@) && find_entry(catalog@, source@)
            is Some) ==> (r matches Ok(s) && s.clone_url@ == find_entry(
            catalog@,
            source@,
        ).unwrap().origin && s.customizer_candidate@ == entry_customizer(
            find_entry(catalog@, source@).unwrap(),
        )),
        !is_remote_url(source@) && !is_file_form(source@) && find_entry(catalog@, source@) is None
            ==> (r matches Err(ProvisionError::UnrecognizedSource { source: t }) && t@ == source@),
{
    if ParsedRemoteUrl::parse(source).is_some() {
        return Ok(
            ResolvedSource { clone_url: source.to_owned(), customizer_candidate: default_customizer() },
        );
    }
    if has_file_prefix(source) {
        let n = source.unicode_len();
        return Ok(
            ResolvedSource {
                clone_url: source.substring_char(7, n).to_owned(),
                customizer_candidate: default_customizer(),
            },
        );
    }
    match catalog.get(source) {
        Some(entry) => {
            let candidate = match &entry.customizer {
                Some(c) => c.clone(),
                None => default_customizer(),
            };
            Ok(ResolvedSource { clone_url: entry.origin.clone(), customizer_candidate: candidate })
        },
        None => Err(ProvisionError::UnrecognizedSource { source: source.to_owned() }),
    }
}

/// The resolved customizer filename: the explicit override when present,
/// else the declared one when present, else the default.
pub open spec fn customizer_choice(o: Option<Seq<char>>, d: Option<Seq<char>>) -> Seq<char> {
    match o {
        Some(s) => s,
        None => match d {
            Some(s) => s,
            None => default_customizer_name(),
        },
    }
}

/// The three-level precedence chain for the customizer filename, pairwise:
/// an explicit override defeats a catalog declaration even when both are
/// present; a catalog declaration defeats the default; with neither, the
/// default stands.
pub proof fn lemma_customizer_precedence(o: Option<Seq<char>>, d: Option<Seq<char>>)
    ensures
        o matches Some(name) ==> customizer_choice(o, d) == name,
        (o is None && d is Some) ==> customizer_choice(o, d) == d.unwrap(),
        o is None && d is None ==> customizer_choice(o, d) == default_customizer_name(),
{
}

/// Applies the command-line override to a candidate that already reflects
/// catalog-level defaulting: the override wins when present.
pub fn apply_customizer_override(override_name: &Option<String>, candidate: String) -> (r: String)
    ensures
        r@ == match override_name {
            Some(o) => o@,
            None => candidate@,
        },
{
    match override_name {
        Some(o) => o.clone(),
        None => candidate,
    }
}

} // verus!
