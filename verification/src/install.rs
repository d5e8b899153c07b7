//! The steps of installing the assistant with Docker.
use vstd::prelude::*;

use crate::text::{concat2, concat3, owned};

verus! {

broadcast use vstd::string::group_string_axioms;

/// The options of a Docker installation.
#[derive(Debug, Clone, PartialEq, Eq)]
pub struct DockerInstallOptions {
    pub home: Option<String>,
    pub label: Option<String>,
    pub dry_run: bool,
}

impl Default for DockerInstallOptions {
    /// No home, no label, a real run.
    fn default() -> (r: Self)
        ensures
            r.home is None,
            r.label is None,
            !r.dry_run,
    {
        DockerInstallOptions { home: None, label: None, dry_run: false }
    }
}

/// The outcome of one installation step.
#[derive(Debug, Clone, PartialEq, Eq)]
pub struct StepResult {
    pub step: String,
    pub ok: bool,
    pub detail: String,
}

/// Why an installation failed.
#[derive(Debug, Clone, PartialEq, Eq)]
pub enum InstallError {
    Step(String),
}

/// The result of an installation step.
pub type InstallResult<T> = Result<T, InstallError>;

/// What a step gives: in a dry run, success with the detail marked
/// `dry-run: `; otherwise success with the detail when it can run, and an
/// error naming the step and its detail when it cannot.
pub open spec fn step_outcome(step: Seq<char>, detail: Seq<char>, ok: bool, dry_run: bool) -> Result<
    (Seq<char>, bool, Seq<char>),
    Seq<char>,
> {
    if dry_run {
        Ok((step, true, "dry-run: "@ + detail))
    } else if !ok {
        Err(step + " failed: "@ + detail)
    } else {
        Ok((step, true, detail))
    }
}

/// The view of a step's result.
pub open spec fn step_view(r: InstallResult<StepResult>) -> Result<(Seq<char>, bool, Seq<char>), Seq<char>> {
    match r {
        Ok(s) => Ok((s.step@, s.ok, s.detail@)),
        Err(InstallError::Step(m)) => Err(m@),
    }
}

/// Runs a step (see `step_outcome`).
fn run_step(step: &str, detail: &str, ok: bool, dry_run: bool) -> (r: InstallResult<StepResult>)
    ensures
        step_view(r) == step_outcome(step@, detail@, ok, dry_run),
{
    if dry_run {
        return Ok(StepResult { step: owned(step), ok: true, detail: concat2("dry-run: ", detail) });
    }
    if !ok {
        return Err(InstallError::Step(concat3(step, " failed: ", detail)));
    }
    Ok(StepResult { step: owned(step), ok: true, detail: owned(detail) })
}

/// Pulls the Docker images. `docker_available` tells whether the `docker`
/// command exists; a dry run does not consult it.
pub fn pull(options: &DockerInstallOptions, docker_available: bool) -> (r: InstallResult<StepResult>)
    ensures
        step_view(r) == step_outcome(
            "docker_pull"@,
            "docker compose pull"@,
            options.dry_run || docker_available,
            options.dry_run,
        ),
{
    run_step("docker_pull", "docker compose pull", options.dry_run || docker_available, options.dry_run)
}

/// Writes the Docker environment and configuration.
pub fn configure(options: &DockerInstallOptions) -> (r: InstallResult<StepResult>)
    ensures
        step_view(r) == step_outcome(
            "docker_configure"@,
            "write docker env/config"@,
            true,
            options.dry_run,
        ),
{
    run_step("docker_configure", "write docker env/config", true, options.dry_run)
}

/// Starts the Docker services. `docker_available` tells whether the `docker`
/// command exists; a dry run does not consult it.
pub fn up(options: &DockerInstallOptions, docker_available: bool) -> (r: InstallResult<StepResult>)
    ensures
        step_view(r) == step_outcome(
            "docker_up"@,
            "docker compose up -d"@,
            options.dry_run || docker_available,
            options.dry_run,
        ),
{
    run_step("docker_up", "docker compose up -d", options.dry_run || docker_available, options.dry_run)
}

/// A dry run always succeeds, whatever the step and whether it could run.
pub proof fn law_dry_run_succeeds(step: Seq<char>, detail: Seq<char>, ok: bool)
    ensures
        step_outcome(step, detail, ok, true) matches Ok((s, passed, _)) && s == step && passed,
{
}

/// A step that is run fails exactly when it cannot run.
pub proof fn law_real_run_fails_iff_unavailable(step: Seq<char>, detail: Seq<char>, ok: bool)
    ensures
        step_outcome(step, detail, ok, false) is Err <==> !ok,
{
}

} // verus!
