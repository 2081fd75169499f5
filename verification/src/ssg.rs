//! The static site generator's command: its arguments, its errors, and
//! the configuration it uses when no configuration file is given.

use crate::config::{
    config_finding, config_result_is, spec_default_base_url, spec_default_language,
    spec_default_site_description, spec_default_site_title, Config, ConfigBuilder, ConfigError,
    Settings,
};
use uuid::Uuid;
use crate::text::cat;
use vstd::prelude::*;

verus! {

broadcast use vstd::string::group_string_axioms;

/// Errors specific to static site generation.
#[derive(Debug)]
pub enum SsgError {
    /// Configuration error.
    ConfigurationError(String),
    /// Build process error.
    BuildError(String),
    /// Server error.
    ServerError(String),
    /// File system error with path context.
    FileSystemError {
        /// The path where the error occurred
        path: String,
        /// Description of the error
        message: String,
    },
}

impl SsgError {
    /// The error's message, as displayed.
    pub fn to_string(&self) -> (r: String)
        ensures
            match *self {
                SsgError::ConfigurationError(m) => r@ == "Configuration error: "@ + m@,
                SsgError::BuildError(m) => r@ == "Build error: "@ + m@,
                SsgError::ServerError(m) => r@ == "Server error: "@ + m@,
                SsgError::FileSystemError { path, message } => r@
                    == "File system error for path '"@ + path@ + "': "@ + message@,
            },
    {
        match self {
            SsgError::ConfigurationError(m) => cat("Configuration error: ".to_string(), m.as_str()),
            SsgError::BuildError(m) => cat("Build error: ".to_string(), m.as_str()),
            SsgError::ServerError(m) => cat("Server error: ".to_string(), m.as_str()),
            SsgError::FileSystemError { path, message } => cat(
                cat(cat("File system error for path '".to_string(), path.as_str()), "': "),
                message.as_str(),
            ),
        }
    }
}

/// Command-line interface for the static site generator.
#[derive(Debug)]
pub struct SsgCommand {
    /// Directory containing source content files
    pub content_dir: String,
    /// Directory where the generated site will be placed
    pub output_dir: String,
    /// Directory containing site templates
    pub template_dir: String,
    /// Path to a custom configuration file
    pub config: Option<String>,
    /// The subcommand to run
    pub command: SsgSubCommand,
}

/// Available subcommands for the static site generator.
#[derive(Debug, Copy, Clone)]
pub enum SsgSubCommand {
    /// Build the static site.
    Build(BuildArgs),
    /// Serve the static site locally.
    Serve(ServeArgs),
}

/// Arguments for the build subcommand.
#[derive(Debug, Copy, Clone)]
pub struct BuildArgs {
    /// Clean the output directory before building
    pub clean: bool,
}

/// Arguments for the serve subcommand.
#[derive(Debug, Copy, Clone)]
pub struct ServeArgs {
    /// Port number for the development server
    pub port: u16,
}

impl SsgCommand {
    /// The settings used when no configuration file is given: the site
    /// name `Static Site`, the command's three directories, and the
    /// defaults for the rest.
    pub open spec fn default_settings(&self, id: Uuid) -> Settings {
        Settings {
            id,
            site_name: "Static Site"@,
            site_title: spec_default_site_title(),
            site_description: spec_default_site_description(),
            language: spec_default_language(),
            base_url: spec_default_base_url(),
            content_dir: self.content_dir@,
            output_dir: self.output_dir@,
            template_dir: self.template_dir@,
            serve_dir: None,
            server_enabled: false,
            server_port: 8000,
        }
    }

    /// Builds the configuration used when no configuration file is given:
    /// site name `Static Site` and the command's directories, validated as
    /// [`ConfigBuilder::build`] does.
    pub fn default_config(&self) -> (r: Result<Config, ConfigError>)
        ensures
            r matches Ok(c) ==> c@ == self.default_settings(c@.id),
            forall|id: Uuid|
                #![trigger self.default_settings(id)]
                exists|links: Seq<bool>|
                    links.len() == 4 && #[trigger] config_result_is(
                        r,
                        self.default_settings(id),
                        links,
                        config_finding(self.default_settings(id), links),
                    ),
    {
        proof {
            reveal_strlit("Static Site");
        }
        let builder = Config::builder().site_name("Static Site").content_dir(
            self.content_dir.as_str(),
        ).output_dir(self.output_dir.as_str()).template_dir(self.template_dir.as_str());
        let r = builder.build();
        proof {
            assert forall|id: Uuid| #![trigger self.default_settings(id)]
                exists|links: Seq<bool>|
                    links.len() == 4 && #[trigger] config_result_is(
                        r,
                        self.default_settings(id),
                        links,
                        config_finding(self.default_settings(id), links),
                    ) by {
                assert(builder.settings(id) == self.default_settings(id));
            }
            if r is Ok {
                let c = r->Ok_0;
                assert(builder.settings(c@.id) == self.default_settings(c@.id));
            }
        }
        r
    }
}

} // verus!
