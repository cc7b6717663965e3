//! The whole of the work on values already read: the crate to generate and
//! the manifests to rewrite.

use crate::assemble::{
    create_caller_utils_crate, file_models, generated_from, world_among, FileModel,
    GeneratedCrate, WitFile,
};
use crate::manifest::{
    add_caller_utils_dependency, project_update, reports, update_workspace_cargo_toml,
    workspace_update, ManifestError, Update,
};

use vstd::prelude::*;

verus! {

/// What is to be written once the interface text has been read: the
/// generated crate, the workspace manifest if it changes, and for each
/// project its manifest if that changes.
#[derive(Debug)]
pub struct CallerUtils {
    pub generated: GeneratedCrate,
    pub workspace_manifest: Option<String>,
    pub project_manifests: Vec<Option<String>>,
}

/// Why nothing is to be written.
#[derive(Debug)]
pub enum GenerationError {
    /// No world file declares a world.
    NoWorldName,
    /// The workspace manifest cannot be brought up to date.
    Workspace(ManifestError),
    /// The manifest of the project at `index` cannot be brought up to date.
    Project { index: usize, error: ManifestError },
}

/// `update` is a failure: the manifest cannot be read or cannot be
/// written.
pub open spec fn fails(update: Update) -> bool {
    update is Unreadable || update is Unwritable
}

/// What is owed for the manifests `manifests` of the projects: for each the
/// text to write, or `None` where it is to stay; or the first that cannot
/// be brought up to date, with the reason.
pub open spec fn projects_report(
    manifests: Seq<String>,
    r: Result<Vec<Option<String>>, GenerationError>,
) -> bool {
    match r {
        Ok(texts) => texts@.len() == manifests.len() && forall|i: int|
            0 <= i < manifests.len() ==> reports(
                Ok(#[trigger] texts@[i]),
                project_update(manifests[i]@),
            ),
        Err(GenerationError::Project { index, error }) => index < manifests.len() && fails(
            project_update(manifests[index as int]@),
        ) && reports(Err(error), project_update(manifests[index as int]@)) && forall|i: int|
            0 <= i < index ==> !fails(project_update(#[trigger] manifests[i]@)),
        Err(_) => false,
    }
}

/// Brings the manifests of the projects up to date, in order: for each the
/// text to write, or `None` where it is to stay. Stops at the first that
/// cannot be brought up to date, and says which.
pub fn add_caller_utils_to_projects(manifests: &Vec<String>) -> (r: Result<
    Vec<Option<String>>,
    GenerationError,
>)
    ensures
        projects_report(manifests@, r),
{
    let mut texts: Vec<Option<String>> = Vec::new();
    let mut i: usize = 0;
    while i < manifests.len()
        invariant
            i <= manifests.len(),
            texts@.len() == i,
            forall|k: int|
                0 <= k < i ==> reports(Ok(#[trigger] texts@[k]), project_update(manifests@[k]@)),
            forall|k: int| 0 <= k < i ==> !fails(project_update(#[trigger] manifests@[k]@)),
        decreases manifests.len() - i,
    {
        match add_caller_utils_dependency(manifests[i].as_str()) {
            Ok(text) => {
                texts.push(text);
            },
            Err(error) => {
                return Err(GenerationError::Project { index: i, error });
            },
        }
        i = i + 1;
    }
    Ok(texts)
}

/// What is owed for the interface text `files`, the workspace manifest
/// `workspace`, if there is one, and the manifests `projects` of the
/// projects.
///
/// The steps are taken in order and the first that fails decides the
/// error: no world file declares a world; the workspace manifest cannot be
/// brought up to date; the manifest of a project cannot.
pub open spec fn created(
    files: Seq<FileModel>,
    workspace: Option<&str>,
    projects: Seq<String>,
    r: Result<CallerUtils, GenerationError>,
) -> bool {
    if world_among(files) is None {
        r matches Err(GenerationError::NoWorldName)
    } else if workspace is Some && fails(workspace_update(workspace->0@)) {
        r matches Err(GenerationError::Workspace(error)) && reports(
            Err(error),
            workspace_update(workspace->0@),
        )
    } else {
        match r {
            Ok(made) => {
                &&& generated_from(files, Some(made.generated))
                &&& match workspace {
                    None => made.workspace_manifest is None,
                    Some(content) => reports(
                        Ok(made.workspace_manifest),
                        workspace_update(content@),
                    ),
                }
                &&& projects_report(projects, Ok(made.project_manifests))
            },
            Err(GenerationError::Project { index, error }) => projects_report(
                projects,
                Err(GenerationError::Project { index, error }),
            ),
            Err(_) => false,
        }
    }
}

/// Generates the crate of calling functions from the interface text of
/// `api_files` and enters it in the workspace manifest, where there is one,
/// and in the manifest of each project.
pub fn create_caller_utils(
    api_files: &Vec<WitFile>,
    workspace_manifest: Option<&str>,
    project_manifests: &Vec<String>,
) -> (r: Result<CallerUtils, GenerationError>)
    ensures
        created(file_models(api_files@), workspace_manifest, project_manifests@, r),
{
    let generated = match create_caller_utils_crate(api_files) {
        None => {
            return Err(GenerationError::NoWorldName);
        },
        Some(generated) => generated,
    };
    let workspace = match workspace_manifest {
        None => None,
        Some(content) => match update_workspace_cargo_toml(content) {
            Ok(text) => text,
            Err(error) => {
                return Err(GenerationError::Workspace(error));
            },
        },
    };
    match add_caller_utils_to_projects(project_manifests) {
        Ok(texts) => Ok(
            CallerUtils { generated, workspace_manifest: workspace, project_manifests: texts },
        ),
        Err(error) => Err(error),
    }
}

} // verus!
