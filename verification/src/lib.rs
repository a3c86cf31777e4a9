use vstd::prelude::*;

pub mod error;
pub mod text;
pub mod pypi_key;
pub mod pypi_version;
pub mod pypi_requirement;
pub mod requirements;
pub mod npm_workspace;
pub mod set_map;
pub mod npm_names;
pub mod npm_lock;
pub mod npm_config;
pub mod npm_github;
pub mod pypi_release;
pub mod entry_source;
pub mod script_metadata;
pub mod python_literals;
pub mod setup_cfg;
pub mod policy_guidance;
pub mod pypi_listing;
pub mod npm_semver;
pub mod npm_arguments;
pub mod json;
pub mod npm_packument;
pub mod npm_owners;
pub mod npm_roster;
pub mod npm_publish;
pub mod npm_requests;
pub mod npm_dependencies;
pub mod npm_choose;
pub mod npm_tokens;
pub mod pypi_files;
pub mod poetry_versions;
pub mod pypi_choose;
pub mod npm_engines;
pub mod pypi_candidates;
pub mod pypi_simple;
pub mod pnpm_lock;
pub mod shims;
pub mod artifact_cache;
pub mod project_lock;
pub mod resolve_plan;
pub mod link_step;
pub mod local_sources;
pub mod manifest_config;
pub mod pyproject_selection;
pub mod npm_direct;

verus! {
}
