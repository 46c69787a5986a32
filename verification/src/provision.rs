//! The provisioning pipeline: planning a clone-and-customize run, and the
//! strictly linear state sequence that drives it.
//!
//! The pipeline is `ResolvingSource -> Cloning -> CheckingCustomizer ->
//! {Done | RunningCustomizer -> Done}`, with a failure transition from any
//! working state to `Failed`. Finding no customizer file is not a failure:
//! it leads straight to `Done` after a warning.

use vstd::prelude::*;

use crate::catalog::{find_entry, Catalog};
use crate::source::{
    apply_customizer_override, customizer_choice, is_file_form, resolve_source, ProvisionError,
};
use crate::url::is_remote_url;

verus! {

/// One request to provision a project, built once from user input.
#[derive(Debug)]
pub struct ProvisionRequest {
    pub source_text: String,
    pub target_directory: String,
    pub customizer_override: Option<String>,
}

/// Everything the pipeline needs to run: what to clone, where, and which
/// customizer file to look for afterwards.
#[derive(Debug)]
pub struct ProvisionPlan {
    pub clone_url: String,
    pub directory: String,
    pub customizer_file: String,
    pub customizer_path: String,
    pub directory_base: String,
}

/// Joining a filename onto a directory path with a single separator.
pub open spec fn path_join(dir: Seq<char>, file: Seq<char>) -> Seq<char> {
    if dir.len() == 0 {
        file
    } else if dir[dir.len() - 1] == '/' {
        dir + file
    } else {
        dir + seq!['/'] + file
    }
}

/// Joins a filename onto a directory path.
pub fn join_path(dir: &str, file: &str) -> (r: String)
    ensures
        r@ == path_join(dir@, file@),
{
    let n = dir.unicode_len();
    if n == 0 {
        return file.to_owned();
    }
    if dir.get_char(n - 1) == '/' {
        let r = String::from_str(dir).concat(file);
        proof {
            assert(r@ =~= path_join(dir@, file@));
        }
        r
    } else {
        let r = String::from_str(dir).concat("/").concat(file);
        proof {
            reveal_strlit("/");
            assert(r@ =~= path_join(dir@, file@));
        }
        r
    }
}

/// The path with its trailing separators removed.
pub open spec fn strip_trailing_slashes(s: Seq<char>) -> Seq<char>
    decreases s.len(),
{
    if s.len() > 0 && s[s.len() - 1] == '/' {
        strip_trailing_slashes(s.drop_last())
    } else {
        s
    }
}

/// The longest suffix of `s` holding no separator.
pub open spec fn suffix_after_slash(s: Seq<char>) -> Seq<char>
    decreases s.len(),
{
    if s.len() == 0 {
        s
    } else if s[s.len() - 1] == '/' {
        Seq::empty()
    } else {
        suffix_after_slash(s.drop_last()) + seq![s[s.len() - 1]]
    }
}

/// The base name of a directory path: its last component, ignoring trailing
/// separators.
pub open spec fn base_name(s: Seq<char>) -> Seq<char> {
    suffix_after_slash(strip_trailing_slashes(s))
}

proof fn lemma_strip_trailing_slashes(s: Seq<char>, m: int)
    requires
        0 <= m <= s.len(),
        forall|t: int| m <= t < s.len() ==> s[t] == '/',
        m > 0 ==> s[m - 1] != '/',
    ensures
        strip_trailing_slashes(s) == s.subrange(0, m),
    decreases s.len(),
{
    if m < s.len() {
        lemma_strip_trailing_slashes(s.drop_last(), m);
        assert(s.drop_last().subrange(0, m) =~= s.subrange(0, m));
    } else {
        assert(s.subrange(0, m) =~= s);
    }
}

proof fn lemma_suffix_after_slash(s: Seq<char>, m: int)
    requires
        0 <= m <= s.len(),
        forall|t: int| m <= t < s.len() ==> s[t] != '/',
        m > 0 ==> s[m - 1] == '/',
    ensures
        suffix_after_slash(s) == s.subrange(m, s.len() as int),
    decreases s.len(),
{
    if s.len() == 0 {
        assert(s.subrange(0, 0) =~= s);
    } else if s[s.len() - 1] == '/' {
        assert(m == s.len());
        assert(s.subrange(m, s.len() as int) =~= Seq::<char>::empty());
    } else {
        lemma_suffix_after_slash(s.drop_last(), m);
        assert(suffix_after_slash(s) =~= s.subrange(m, s.len() as int));
    }
}

/// The base name of a directory path, for handing to the customizer as its
/// argument.
pub fn base_name_of(dir: &str) -> (r: String)
    ensures
        r@ == base_name(dir@),
{
    let n = dir.unicode_len();
    let mut e = n;
    while e > 0 && dir.get_char(e - 1) == '/'
        invariant
            e <= n,
            n == dir@.len(),
            forall|t: int| e <= t < n ==> dir@[t] == '/',
        decreases e,
    {
        e = e - 1;
    }
    let mut b = e;
    while b > 0 && dir.get_char(b - 1) != '/'
        invariant
            b <= e <= n,
            n == dir@.len(),
            forall|t: int| b <= t < e ==> dir@[t] != '/',
        decreases b,
    {
        b = b - 1;
    }
    let r = dir.substring_char(b, e).to_owned();
    proof {
        lemma_strip_trailing_slashes(dir@, e as int);
        let stripped = dir@.subrange(0, e as int);
        assert forall|t: int| b <= t < e implies stripped[t] != '/' by {
            assert(stripped[t] == dir@[t]);
        }
        lemma_suffix_after_slash(stripped, b as int);
        assert(stripped.subrange(b as int, e as int) =~= dir@.subrange(b as int, e as int));
    }
    r
}

/// Builds the full provisioning plan for a request: resolves the source,
/// applies the customizer precedence chain, and fixes the paths the pipeline
/// will use. Fails exactly when the source is unrecognized.
pub fn plan_provision(request: &ProvisionRequest, catalog: &Catalog) -> (r: Result<
    ProvisionPlan,
    ProvisionError,
>)
    ensures
        ({
            let src = request.source_text@;
            let o = match request.customizer_override {
                Some(ref s) => Some(s@),
                None => None,
            };
            &&& is_remote_url(src) ==> (r matches Ok(p) && p.clone_url@ == src
                && p.customizer_file@ == customizer_choice(o, None))
            &&& !is_remote_url(src) && is_file_form(src) ==> (r matches Ok(p) && p.clone_url@
                == src.skip(7) && p.customizer_file@ == customizer_choice(o, None))
            &&& (!is_remote_url(src) && !is_file_form(src) && find_entry(catalog@, src) is Some)
                ==> (r matches Ok(p) && p.clone_url@ == find_entry(catalog@, src).unwrap().origin
                && p.customizer_file@ == customizer_choice(
                o,
                find_entry(catalog@, src).unwrap().customizer,
            ))
            &&& !is_remote_url(src) && !is_file_form(src) && find_entry(catalog@, src) is None
                ==> (r matches Err(ProvisionError::UnrecognizedSource { source: t }) && t@ == src)
            &&& r matches Ok(p) ==> {
                &&& p.directory@ == request.target_directory@
                &&& p.customizer_path@ == path_join(request.target_directory@, p.customizer_file@)
                &&& p.directory_base@ == base_name(request.target_directory@)
            }
        }),
{
    let resolved = match resolve_source(request.source_text.as_str(), catalog) {
        Ok(s) => s,
        Err(e) => {
            return Err(e);
        },
    };
    let file = apply_customizer_override(
        &request.customizer_override,
        resolved.customizer_candidate,
    );
    let path = join_path(request.target_directory.as_str(), file.as_str());
    let base = base_name_of(request.target_directory.as_str());
    Ok(
        ProvisionPlan {
            clone_url: resolved.clone_url,
            directory: request.target_directory.clone(),
            customizer_file: file,
            customizer_path: path,
            directory_base: base,
        },
    )
}

/// The states of the provisioning pipeline.
#[derive(Clone, Copy, PartialEq, Eq, Structural, Debug)]
pub enum ProvisionState {
    ResolvingSource,
    Cloning,
    CheckingCustomizer,
    RunningCustomizer,
    /// The pipeline finished; `customizer_ran` records whether a customizer
    /// was found and executed.
    Done { customizer_ran: bool },
    Failed,
}

/// The observations that drive the pipeline from one state to the next.
#[derive(Clone, Copy, PartialEq, Eq, Structural, Debug)]
pub enum ProvisionEvent {
    SourceResolved,
    SourceRejected,
    CloneSucceeded,
    CloneFailed,
    CustomizerPresent,
    CustomizerAbsent,
    CustomizerSucceeded,
    CustomizerFailed,
}

/// The transition relation of the pipeline; `None` marks an event that
/// cannot occur in the state.
pub open spec fn step_spec(state: ProvisionState, event: ProvisionEvent) -> Option<ProvisionState> {
    match (state, event) {
        (ProvisionState::ResolvingSource, ProvisionEvent::SourceResolved) => Some(
            ProvisionState::Cloning,
        ),
        (ProvisionState::ResolvingSource, ProvisionEvent::SourceRejected) => Some(
            ProvisionState::Failed,
        ),
        (ProvisionState::Cloning, ProvisionEvent::CloneSucceeded) => Some(
            ProvisionState::CheckingCustomizer,
        ),
        (ProvisionState::Cloning, ProvisionEvent::CloneFailed) => Some(ProvisionState::Failed),
        (ProvisionState::CheckingCustomizer, ProvisionEvent::CustomizerPresent) => Some(
            ProvisionState::RunningCustomizer,
        ),
        (ProvisionState::CheckingCustomizer, ProvisionEvent::CustomizerAbsent) => Some(
            ProvisionState::Done { customizer_ran: false },
        ),
        (ProvisionState::RunningCustomizer, ProvisionEvent::CustomizerSucceeded) => Some(
            ProvisionState::Done { customizer_ran: true },
        ),
        (ProvisionState::RunningCustomizer, ProvisionEvent::CustomizerFailed) => Some(
            ProvisionState::Failed,
        ),
        _ => None,
    }
}

/// Advances the pipeline by one observed event.
pub fn provision_step(state: ProvisionState, event: ProvisionEvent) -> (next: ProvisionState)
    requires
        step_spec(state, event) is Some,
    ensures
        Some(next) == step_spec(state, event),
{
    match (state, event) {
        (ProvisionState::ResolvingSource, ProvisionEvent::SourceResolved) => ProvisionState::Cloning,
        (ProvisionState::ResolvingSource, ProvisionEvent::SourceRejected) => ProvisionState::Failed,
        (ProvisionState::Cloning, ProvisionEvent::CloneSucceeded) => ProvisionState::CheckingCustomizer,
        (ProvisionState::Cloning, ProvisionEvent::CloneFailed) => ProvisionState::Failed,
        (ProvisionState::CheckingCustomizer, ProvisionEvent::CustomizerPresent) => ProvisionState::RunningCustomizer,
        (ProvisionState::CheckingCustomizer, ProvisionEvent::CustomizerAbsent) => ProvisionState::Done {
            customizer_ran: false,
        },
        (ProvisionState::RunningCustomizer, ProvisionEvent::CustomizerSucceeded) => ProvisionState::Done {
            customizer_ran: true,
        },
        (_, _) => ProvisionState::Failed,
    }
}

/// How far along the pipeline a state is; terminal states share the top
/// rank.
pub open spec fn state_rank(state: ProvisionState) -> int {
    match state {
        ProvisionState::ResolvingSource => 0,
        ProvisionState::Cloning => 1,
        ProvisionState::CheckingCustomizer => 2,
        ProvisionState::RunningCustomizer => 3,
        ProvisionState::Done { .. } => 4,
        ProvisionState::Failed => 4,
    }
}

/// The pipeline is strictly linear: every transition moves forward, no state
/// is revisited, and the run ends after at most one customizer execution.
pub proof fn lemma_pipeline_linear(state: ProvisionState, event: ProvisionEvent)
    requires
        step_spec(state, event) is Some,
    ensures
        state_rank(step_spec(state, event).unwrap()) > state_rank(state),
        state_rank(step_spec(state, event).unwrap()) <= 4,
{
}

/// Terminal states accept no further event.
pub proof fn lemma_terminal_states(state: ProvisionState, event: ProvisionEvent)
    requires
        state matches ProvisionState::Done { .. } || state == ProvisionState::Failed,
    ensures
        step_spec(state, event) is None,
{
}

/// The error recorded when the clone step fails, naming the attempted URL.
pub fn clone_failure(plan: &ProvisionPlan, detail: String) -> (r: ProvisionError)
    ensures
        r matches ProvisionError::CloneFailure { url, detail: d } && url@ == plan.clone_url@ && d@
            == detail@,
{
    ProvisionError::CloneFailure { url: plan.clone_url.clone(), detail }
}

/// The error recorded when the customizer fails, naming its resolved path.
pub fn customizer_failure(plan: &ProvisionPlan, detail: String) -> (r: ProvisionError)
    ensures
        r matches ProvisionError::CustomizerFailure { path, detail: d } && path@
            == plan.customizer_path@ && d@ == detail@,
{
    ProvisionError::CustomizerFailure { path: plan.customizer_path.clone(), detail }
}

} // verus!
