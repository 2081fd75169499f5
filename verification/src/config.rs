//! Configuration of the static site generator: the settings, their
//! defaults, a builder, and the rules a configuration must follow.
//!
//! Directories are held as the text of their paths.

use crate::error::{io_error_text, toml_error_text};
use crate::text::{decimal, decimal_string, lemma_str_valid, trim, trim_chars};
use crate::utils::{check_path_on_disk, path_details, path_finding, PathFinding, UtilsError};
use std::io::Error as IoError;
use toml::de::Error as TomlError;
use uuid::Uuid;
use crate::text::cat;
use vstd::prelude::*;
use vstd::string::StringSliceAdditionalSpecFns;
use vstd::utf8::decode_utf8;

verus! {

broadcast use vstd::string::group_string_axioms, vstd::utf8::encode_utf8_decode_utf8;

/// A universally unique identifier.
#[verifier::external_type_specification]
#[verifier::external_body]
pub struct ExUuid(Uuid);

/// Calls `Uuid::new_v4`, which draws a random identifier; nothing is
/// stated of it.
#[verifier::external_body]
fn new_uuid() -> Uuid {
    Uuid::new_v4()
}

/// `s` parses as an absolute URL, as `url::Url::parse` decides it.
pub uninterp spec fn url_parses(s: Seq<char>) -> bool;

/// Calls `url::Url::parse` and tells whether it succeeded; the answer is
/// named [`url_parses`] of the text.
#[verifier::external_body]
fn parse_url_ok(s: &str) -> (r: bool)
    ensures
        r == url_parses(s@),
{
    url::Url::parse(s).is_ok()
}

/// Errors that can occur in configuration handling.
#[derive(Debug)]
pub enum ConfigError {
    /// Invalid site name provided.
    InvalidSiteName(String),
    /// Invalid directory path with detailed error.
    InvalidPath {
        /// The problematic path
        path: String,
        /// Detailed description of the error
        details: String,
    },
    /// A directory setting that the path rules refuse: the setting's
    /// name, its path, and the path error underneath.
    InvalidDirectory {
        /// The name of the setting, such as `content_dir`
        name: String,
        /// The path that was refused
        path: String,
        /// Why the path was refused
        source: UtilsError,
    },
    /// Invalid URL format.
    InvalidUrl(String),
    /// Invalid language code.
    InvalidLanguage(String),
    /// File system error.
    FileError(IoError),
    /// TOML parsing error.
    TomlError(TomlError),
    /// Server configuration error.
    ServerError(String),
}

impl ConfigError {
    /// The error's message, as displayed.
    pub fn to_string(&self) -> (r: String)
        ensures
            match *self {
                ConfigError::InvalidSiteName(m) => r@ == "Invalid site name: "@ + m@,
                ConfigError::InvalidPath { path, details } => r@ == "Invalid directory path '"@
                    + path@ + "': "@ + details@,
                ConfigError::InvalidDirectory { name, path, .. } => r@ == "Invalid "@ + name@
                    + " path: "@ + path@,
                ConfigError::InvalidUrl(u) => r@ == "Invalid URL format: "@ + u@,
                ConfigError::InvalidLanguage(l) => r@ == "Invalid language code '"@ + l@
                    + "': must be in format 'xx-XX'"@,
                ConfigError::FileError(_) => exists|t: Seq<char>|
                    r@ == "Configuration file error: "@ + t,
                ConfigError::TomlError(_) => exists|t: Seq<char>| r@ == "TOML parsing error: "@ + t,
                ConfigError::ServerError(m) => r@ == "Server configuration error: "@ + m@,
            },
    {
        match self {
            ConfigError::InvalidSiteName(m) => cat("Invalid site name: ".to_string(), m.as_str()),
            ConfigError::InvalidPath { path, details } => cat(
                cat(cat("Invalid directory path '".to_string(), path.as_str()), "': "),
                details.as_str(),
            ),
            ConfigError::InvalidDirectory { name, path, .. } => cat(
                cat(cat("Invalid ".to_string(), name.as_str()), " path: "),
                path.as_str(),
            ),
            ConfigError::InvalidUrl(u) => cat("Invalid URL format: ".to_string(), u.as_str()),
            ConfigError::InvalidLanguage(l) => cat(
                cat("Invalid language code '".to_string(), l.as_str()),
                "': must be in format 'xx-XX'",
            ),
            ConfigError::FileError(e) => {
                let t = io_error_text(e);
                cat("Configuration file error: ".to_string(), t.as_str())
            },
            ConfigError::TomlError(e) => {
                let t = toml_error_text(e);
                cat("TOML parsing error: ".to_string(), t.as_str())
            },
            ConfigError::ServerError(m) => cat("Server configuration error: ".to_string(), m.as_str()),
        }
    }
}

/// Core configuration structure.
#[derive(Debug)]
pub struct Config {
    /// Unique identifier for this configuration
    id: Uuid,
    /// Name of the site (required)
    pub site_name: String,
    /// Site title used in metadata
    pub site_title: String,
    /// Site description used in metadata
    pub site_description: String,
    /// Primary language code (format: xx-XX)
    pub language: String,
    /// Base URL for the site
    pub base_url: String,
    /// Directory containing content files
    pub content_dir: String,
    /// Directory for generated output
    pub output_dir: String,
    /// Directory containing templates
    pub template_dir: String,
    /// Optional directory for development server
    pub serve_dir: Option<String>,
    /// Whether the development server is enabled
    pub server_enabled: bool,
    /// Port for development server
    pub server_port: u16,
}

/// The settings of a configuration, as text and numbers.
pub struct Settings {
    /// Unique identifier
    pub id: Uuid,
    /// Name of the site
    pub site_name: Seq<char>,
    /// Site title
    pub site_title: Seq<char>,
    /// Site description
    pub site_description: Seq<char>,
    /// Primary language code
    pub language: Seq<char>,
    /// Base URL
    pub base_url: Seq<char>,
    /// Content directory
    pub content_dir: Seq<char>,
    /// Output directory
    pub output_dir: Seq<char>,
    /// Template directory
    pub template_dir: Seq<char>,
    /// Development server directory, if any
    pub serve_dir: Option<Seq<char>>,
    /// Whether the development server is enabled
    pub server_enabled: bool,
    /// Development server port
    pub server_port: u16,
}

/// The default site title.
pub open spec fn spec_default_site_title() -> Seq<char> {
    "My Shokunin Site"@
}

/// The default site description.
pub open spec fn spec_default_site_description() -> Seq<char> {
    "A site built with Shokunin"@
}

/// The default language.
pub open spec fn spec_default_language() -> Seq<char> {
    "en-GB"@
}

/// The default base URL.
pub open spec fn spec_default_base_url() -> Seq<char> {
    "http://localhost:8000"@
}

/// The default content directory.
pub open spec fn spec_default_content_dir() -> Seq<char> {
    "content"@
}

/// The default output directory.
pub open spec fn spec_default_output_dir() -> Seq<char> {
    "public"@
}

/// The default template directory.
pub open spec fn spec_default_template_dir() -> Seq<char> {
    "templates"@
}

/// The default site title: `My Shokunin Site`.
pub fn default_site_title() -> (r: String)
    ensures
        r@ == spec_default_site_title(),
{
    "My Shokunin Site".to_string()
}

/// The default site description: `A site built with Shokunin`.
pub fn default_site_description() -> (r: String)
    ensures
        r@ == spec_default_site_description(),
{
    "A site built with Shokunin".to_string()
}

/// The default language: `en-GB`.
pub fn default_language() -> (r: String)
    ensures
        r@ == spec_default_language(),
{
    "en-GB".to_string()
}

/// The default base URL: `http://localhost:8000`.
pub fn default_base_url() -> (r: String)
    ensures
        r@ == spec_default_base_url(),
{
    "http://localhost:8000".to_string()
}

/// The default content directory: `content`.
pub fn default_content_dir() -> (r: String)
    ensures
        r@ == spec_default_content_dir(),
{
    "content".to_string()
}

/// The default output directory: `public`.
pub fn default_output_dir() -> (r: String)
    ensures
        r@ == spec_default_output_dir(),
{
    "public".to_string()
}

/// The default template directory: `templates`.
pub fn default_template_dir() -> (r: String)
    ensures
        r@ == spec_default_template_dir(),
{
    "templates".to_string()
}

/// The default server port: 8000.
pub fn default_port() -> (r: u16)
    ensures
        r == 8000,
{
    8000
}

/// A language code of the form `xx-XX`: two lower-case ASCII letters, a
/// hyphen and two upper-case ASCII letters.
pub open spec fn is_language_code(s: Seq<char>) -> bool {
    &&& s.len() == 5
    &&& 'a' <= s[0] <= 'z'
    &&& 'a' <= s[1] <= 'z'
    &&& s[2] == '-'
    &&& 'A' <= s[3] <= 'Z'
    &&& 'A' <= s[4] <= 'Z'
}

/// The first rule that a configuration breaks, or that it is valid.
pub enum ConfigFinding {
    /// The site name is empty once trimmed.
    SiteName,
    /// A directory breaks a path rule: 0 content, 1 output, 2 template,
    /// 3 development server.
    Path(nat),
    /// The base URL does not parse.
    Url,
    /// The language code is not of the form `xx-XX`.
    Language,
    /// The server is enabled on a port below 1024.
    Port,
    /// The configuration is valid.
    Valid,
}

/// A path finding that is a broken rule.
pub open spec fn path_refused(f: PathFinding) -> bool {
    !(f is Safe)
}

/// The directories of a configuration, in the order they are checked.
pub open spec fn directories(s: Settings) -> Seq<Seq<char>> {
    match s.serve_dir {
        Some(d) => seq![s.content_dir, s.output_dir, s.template_dir, d],
        None => seq![s.content_dir, s.output_dir, s.template_dir],
    }
}

/// The first directory, from `i` on, that breaks a path rule, where
/// `links[k]` tells whether directory `k` names a symbolic link.
pub open spec fn first_refused_dir(dirs: Seq<Seq<char>>, links: Seq<bool>, i: nat) -> Option<nat>
    decreases dirs.len() - i,
{
    if i >= dirs.len() {
        None
    } else if path_refused(path_finding(dirs[i as int], links[i as int])) {
        Some(i)
    } else {
        first_refused_dir(dirs, links, i + 1)
    }
}

/// Which rule the settings break first: the site name, then each
/// directory, the base URL, the language code and the server port.
pub open spec fn config_finding(s: Settings, links: Seq<bool>) -> ConfigFinding {
    if trim_chars(s.site_name).len() == 0 {
        ConfigFinding::SiteName
    } else {
        match first_refused_dir(directories(s), links, 0) {
            Some(i) => ConfigFinding::Path(i),
            None => if !url_parses(s.base_url) {
                ConfigFinding::Url
            } else if !is_language_code(s.language) {
                ConfigFinding::Language
            } else if s.server_enabled && s.server_port < 1024 {
                ConfigFinding::Port
            } else {
                ConfigFinding::Valid
            },
        }
    }
}

/// The name of the setting that holds directory `i`, in the order of
/// [`directories`].
pub open spec fn dir_name(i: nat) -> Seq<char> {
    if i == 0 {
        "content_dir"@
    } else if i == 1 {
        "output_dir"@
    } else if i == 2 {
        "template_dir"@
    } else {
        "serve_dir"@
    }
}

/// `r` is the error for the directory setting `name` holding `dir`,
/// refused by the path rules, where `link` tells whether it names a
/// symbolic link.
pub open spec fn dir_refused<T>(r: Result<T, ConfigError>, name: Seq<char>, dir: Seq<char>, link: bool) -> bool {
    r matches Err(ConfigError::InvalidDirectory { name: n, path: p, source: UtilsError::InvalidPath { path: q, details: d } })
        && n@ == name && p@ == dir && q@ == dir && d@ == path_details(path_finding(dir, link))
}

/// `r` is what validating settings `s` gives where the finding is `f`.
pub open spec fn config_result_is<T>(r: Result<T, ConfigError>, s: Settings, links: Seq<bool>, f: ConfigFinding) -> bool {
    match f {
        ConfigFinding::SiteName => r matches Err(ConfigError::InvalidSiteName(m)) && m@
            == "Site name cannot be empty"@,
        ConfigFinding::Path(i) => dir_refused(r, dir_name(i), directories(s)[i as int], links[i as int]),
        ConfigFinding::Url => r matches Err(ConfigError::InvalidUrl(u)) && u@ == s.base_url,
        ConfigFinding::Language => r matches Err(ConfigError::InvalidLanguage(l)) && l@
            == s.language,
        ConfigFinding::Port => r matches Err(ConfigError::ServerError(m)) && m@
            == "Invalid port number: "@ + decimal(s.server_port as nat),
        ConfigFinding::Valid => r is Ok,
    }
}

impl View for Config {
    type V = Settings;

    /// The settings that the configuration holds, field by field.
    closed spec fn view(&self) -> Settings {
        Settings {
            id: self.id,
            site_name: self.site_name@,
            site_title: self.site_title@,
            site_description: self.site_description@,
            language: self.language@,
            base_url: self.base_url@,
            content_dir: self.content_dir@,
            output_dir: self.output_dir@,
            template_dir: self.template_dir@,
            serve_dir: match self.serve_dir {
                Some(d) => Some(d@),
                None => None,
            },
            server_enabled: self.server_enabled,
            server_port: self.server_port,
        }
    }
}

/// Checks one directory, the setting `name`; `Err` carries the
/// directory's path error.
fn check_dir(dir: &String, name: &str) -> (r: (Result<(), ConfigError>, Ghost<bool>))
    ensures
        path_refused(path_finding(dir@, r.1@)) ==> dir_refused(r.0, name@, dir@, r.1@),
        !path_refused(path_finding(dir@, r.1@)) ==> r.0 is Ok,
{
    let (res, link) = check_path_on_disk(dir.as_str());
    match res {
        Ok(()) => (Ok(()), link),
        Err(UtilsError::InvalidPath { path, details }) => (
            Err(
                ConfigError::InvalidDirectory {
                    name: name.to_string(),
                    path: dir.as_str().to_string(),
                    source: UtilsError::InvalidPath { path, details },
                },
            ),
            link,
        ),
        Err(e) => {
            proof {
                assert(false);
            }
            (Ok(()), link)
        },
    }
}

/// Two lower-case ASCII letters, a hyphen and two upper-case ones.
fn language_code_ok(code: &str) -> (r: bool)
    ensures
        r == is_language_code(code@),
{
    let b = code.as_bytes();
    proof {
        lemma_str_valid(code);
        if is_language_code(code@) {
            crate::text::lemma_encode_ascii(code@);
        }
    }
    if b.len() != 5 {
        return false;
    }
    let ok = 0x61 <= b[0] && b[0] <= 0x7A && 0x61 <= b[1] && b[1] <= 0x7A && b[2] == 0x2D && 0x41
        <= b[3] && b[3] <= 0x5A && 0x41 <= b[4] && b[4] <= 0x5A;
    proof {
        if ok {
            crate::text::lemma_ascii_decode(b@);
            assert(code@ == decode_utf8(b@));
        }
    }
    ok
}

impl Config {
    /// Creates a new builder.
    pub fn builder() -> (r: ConfigBuilder)
        ensures
            r.site_name is None,
            r.site_title is None,
            r.site_description is None,
            r.language is None,
            r.base_url is None,
            r.content_dir is None,
            r.output_dir is None,
            r.template_dir is None,
            r.serve_dir is None,
            !r.server_enabled,
            r.server_port is None,
    {
        ConfigBuilder::default()
    }

    /// Validates the configuration: the site name is not blank; each
    /// directory passes the path rules of
    /// [`crate::utils::check_path_safety`], asking the disk about symbolic
    /// links; the base URL parses; the language code is of the form
    /// `xx-XX`; an enabled server uses a port of 1024 or more.
    pub fn validate(&self) -> (r: Result<(), ConfigError>)
        ensures
            exists|links: Seq<bool>|
                links.len() == 4 && #[trigger] config_result_is(
                    r,
                    self@,
                    links,
                    config_finding(self@, links),
                ),
    {
        let name = trim(self.site_name.as_str());
        if name.unicode_len() == 0 {
            let r = Err(ConfigError::InvalidSiteName("Site name cannot be empty".to_string()));
            proof {
                let links = seq![false, false, false, false];
                assert(config_result_is(r, self@, links, config_finding(self@, links)));
            }
            return r;
        }
        let (dirs, links) = self.validate_dirs();
        if dirs.is_err() {
            proof {
                assert(config_result_is(dirs, self@, links@, config_finding(self@, links@)));
            }
            return dirs;
        }
        proof {
            assert(first_refused_dir(directories(self@), links@, 0) is None);
        }
        let r = if !parse_url_ok(self.base_url.as_str()) {
            Err(ConfigError::InvalidUrl(self.base_url.clone()))
        } else if !language_code_ok(self.language.as_str()) {
            Err(ConfigError::InvalidLanguage(self.language.clone()))
        } else if self.server_enabled && !self.is_valid_port(self.server_port) {
            let port = decimal_string(self.server_port as usize);
            Err(ConfigError::ServerError(cat("Invalid port number: ".to_string(), port.as_str())))
        } else {
            Ok(())
        };
        proof {
            assert(config_result_is(r, self@, links@, config_finding(self@, links@)));
        }
        r
    }

    /// Checks the directories in order, asking the disk about symbolic
    /// links; also gives what the disk was taken to say of each.
    fn validate_dirs(&self) -> (r: (Result<(), ConfigError>, Ghost<Seq<bool>>))
        ensures
            r.1@.len() == 4,
            match first_refused_dir(directories(self@), r.1@, 0) {
                Some(i) => dir_refused(r.0, dir_name(i), directories(self@)[i as int], r.1@[i as int]),
                None => r.0 is Ok,
            },
    {
        let ghost mut links: Seq<bool> = seq![false, false, false, false];
        let ghost dirs = directories(self@);
        let (r0, l0) = check_dir(&self.content_dir, "content_dir");
        proof {
            links = links.update(0, l0@);
            reveal_with_fuel(first_refused_dir, 5);
        }
        if r0.is_err() {
            return (r0, Ghost(links));
        }
        let (r1, l1) = check_dir(&self.output_dir, "output_dir");
        proof {
            links = links.update(1, l1@);
            reveal_with_fuel(first_refused_dir, 5);
        }
        if r1.is_err() {
            return (r1, Ghost(links));
        }
        let (r2, l2) = check_dir(&self.template_dir, "template_dir");
        proof {
            links = links.update(2, l2@);
            reveal_with_fuel(first_refused_dir, 5);
        }
        if r2.is_err() {
            return (r2, Ghost(links));
        }
        if let Some(serve) = &self.serve_dir {
            let (r3, l3) = check_dir(serve, "serve_dir");
            proof {
                links = links.update(3, l3@);
                reveal_with_fuel(first_refused_dir, 5);
            }
            if r3.is_err() {
                return (r3, Ghost(links));
            }
        }
        proof {
            reveal_with_fuel(first_refused_dir, 5);
        }
        (Ok(()), Ghost(links))
    }

    /// Checks a language code of the form `xx-XX`.
    pub fn is_valid_language_code(&self, code: &str) -> (r: bool)
        ensures
            r == is_language_code(code@),
    {
        language_code_ok(code)
    }

    /// Checks that a port is 1024 or more.
    pub fn is_valid_port(&self, port: u16) -> (r: bool)
        ensures
            r == (port >= 1024),
    {
        port >= 1024
    }

    /// The configuration's unique identifier.
    pub fn id(&self) -> (r: Uuid)
        ensures
            r == self@.id,
    {
        self.id
    }

    /// The site name.
    pub fn site_name(&self) -> (r: &str)
        ensures
            r@ == self@.site_name,
    {
        self.site_name.as_str()
    }

    /// Whether the development server is enabled.
    pub fn server_enabled(&self) -> (r: bool)
        ensures
            r == self@.server_enabled,
    {
        self.server_enabled
    }

    /// The server port, where the server is enabled.
    pub fn server_port(&self) -> (r: Option<u16>)
        ensures
            r == (if self@.server_enabled {
                Some(self@.server_port)
            } else {
                None
            }),
    {
        if self.server_enabled {
            Some(self.server_port)
        } else {
            None
        }
    }

    /// The configuration as displayed: site name and title, then the
    /// content, output and template directories, one per line.
    pub fn to_string(&self) -> (r: String)
        ensures
            r@ == "Site: "@ + self@.site_name + " ("@ + self@.site_title + ")\nContent: "@
                + self@.content_dir + "\nOutput: "@ + self@.output_dir + "\nTemplates: "@
                + self@.template_dir,
    {
        let s = cat(cat(cat("Site: ".to_string(), self.site_name.as_str()), " ("), self.site_title.as_str());
        let s = cat(cat(s, ")\nContent: "), self.content_dir.as_str());
        let s = cat(cat(s, "\nOutput: "), self.output_dir.as_str());
        cat(cat(s, "\nTemplates: "), self.template_dir.as_str())
    }
}

impl Clone for Config {
    /// A copy of the configuration, with the same identifier.
    fn clone(&self) -> (r: Self)
        ensures
            r@ == self@,
    {
        Config {
            id: self.id,
            site_name: self.site_name.clone(),
            site_title: self.site_title.clone(),
            site_description: self.site_description.clone(),
            language: self.language.clone(),
            base_url: self.base_url.clone(),
            content_dir: self.content_dir.clone(),
            output_dir: self.output_dir.clone(),
            template_dir: self.template_dir.clone(),
            serve_dir: match &self.serve_dir {
                Some(d) => Some(d.clone()),
                None => None,
            },
            server_enabled: self.server_enabled,
            server_port: self.server_port,
        }
    }
}

/// Builder for creating `Config` instances.
#[derive(Debug)]
pub struct ConfigBuilder {
    /// Name of the site
    pub site_name: Option<String>,
    /// Site title
    pub site_title: Option<String>,
    /// Site description
    pub site_description: Option<String>,
    /// Language code
    pub language: Option<String>,
    /// Base URL
    pub base_url: Option<String>,
    /// Content directory
    pub content_dir: Option<String>,
    /// Output directory
    pub output_dir: Option<String>,
    /// Template directory
    pub template_dir: Option<String>,
    /// Development server directory
    pub serve_dir: Option<String>,
    /// Whether the development server is enabled
    pub server_enabled: bool,
    /// Development server port
    pub server_port: Option<u16>,
}

impl Default for ConfigBuilder {
    /// A builder with nothing set.
    fn default() -> (r: Self)
        ensures
            r.site_name is None,
            r.site_title is None,
            r.site_description is None,
            r.language is None,
            r.base_url is None,
            r.content_dir is None,
            r.output_dir is None,
            r.template_dir is None,
            r.serve_dir is None,
            !r.server_enabled,
            r.server_port is None,
    {
        ConfigBuilder {
            site_name: None,
            site_title: None,
            site_description: None,
            language: None,
            base_url: None,
            content_dir: None,
            output_dir: None,
            template_dir: None,
            serve_dir: None,
            server_enabled: false,
            server_port: None,
        }
    }
}

/// The text held, or `d`.
pub open spec fn text_or(o: Option<String>, d: Seq<char>) -> Seq<char> {
    match o {
        Some(s) => s@,
        None => d,
    }
}

/// A configuration built from a builder holds every setting given to the
/// builder as it was given: each text set, the development server
/// directory, whether the server is enabled and its port; and the
/// identifier that it was built with.
pub proof fn law_built_settings_are_those_given(b: ConfigBuilder, id: Uuid)
    ensures
        b.site_name matches Some(x) ==> b.settings(id).site_name == x@,
        b.site_title matches Some(x) ==> b.settings(id).site_title == x@,
        b.site_description matches Some(x) ==> b.settings(id).site_description == x@,
        b.language matches Some(x) ==> b.settings(id).language == x@,
        b.base_url matches Some(x) ==> b.settings(id).base_url == x@,
        b.content_dir matches Some(x) ==> b.settings(id).content_dir == x@,
        b.output_dir matches Some(x) ==> b.settings(id).output_dir == x@,
        b.template_dir matches Some(x) ==> b.settings(id).template_dir == x@,
        b.serve_dir matches Some(x) ==> b.settings(id).serve_dir == Some(x@),
        b.serve_dir is None ==> b.settings(id).serve_dir is None,
        b.server_enabled == b.settings(id).server_enabled,
        b.server_port matches Some(p) ==> b.settings(id).server_port == p,
        b.settings(id).id == id,
{
}

impl ConfigBuilder {
    /// The settings that building gives: what was set, the defaults for
    /// the rest, and an empty site name where none was set.
    pub open spec fn settings(self, id: Uuid) -> Settings {
        Settings {
            id,
            site_name: text_or(self.site_name, Seq::empty()),
            site_title: text_or(self.site_title, spec_default_site_title()),
            site_description: text_or(self.site_description, spec_default_site_description()),
            language: text_or(self.language, spec_default_language()),
            base_url: text_or(self.base_url, spec_default_base_url()),
            content_dir: text_or(self.content_dir, spec_default_content_dir()),
            output_dir: text_or(self.output_dir, spec_default_output_dir()),
            template_dir: text_or(self.template_dir, spec_default_template_dir()),
            serve_dir: match self.serve_dir {
                Some(d) => Some(d@),
                None => None,
            },
            server_enabled: self.server_enabled,
            server_port: match self.server_port {
                Some(p) => p,
                None => 8000,
            },
        }
    }

    /// Sets the site name.
    pub fn site_name(self, name: &str) -> (r: Self)
        ensures
            r == (ConfigBuilder { site_name: r.site_name, ..self }),
            r.site_name matches Some(s) && s@ == name@,
    {
        ConfigBuilder { site_name: Some(name.to_string()), ..self }
    }

    /// Sets the site title.
    pub fn site_title(self, title: &str) -> (r: Self)
        ensures
            r == (ConfigBuilder { site_title: r.site_title, ..self }),
            r.site_title matches Some(s) && s@ == title@,
    {
        ConfigBuilder { site_title: Some(title.to_string()), ..self }
    }

    /// Sets the site description.
    pub fn site_description(self, desc: &str) -> (r: Self)
        ensures
            r == (ConfigBuilder { site_description: r.site_description, ..self }),
            r.site_description matches Some(s) && s@ == desc@,
    {
        ConfigBuilder { site_description: Some(desc.to_string()), ..self }
    }

    /// Sets the language code.
    pub fn language(self, lang: &str) -> (r: Self)
        ensures
            r == (ConfigBuilder { language: r.language, ..self }),
            r.language matches Some(s) && s@ == lang@,
    {
        ConfigBuilder { language: Some(lang.to_string()), ..self }
    }

    /// Sets the base URL.
    pub fn base_url(self, url: &str) -> (r: Self)
        ensures
            r == (ConfigBuilder { base_url: r.base_url, ..self }),
            r.base_url matches Some(s) && s@ == url@,
    {
        ConfigBuilder { base_url: Some(url.to_string()), ..self }
    }

    /// Sets the content directory.
    pub fn content_dir(self, path: &str) -> (r: Self)
        ensures
            r == (ConfigBuilder { content_dir: r.content_dir, ..self }),
            r.content_dir matches Some(s) && s@ == path@,
    {
        ConfigBuilder { content_dir: Some(path.to_string()), ..self }
    }

    /// Sets the output directory.
    pub fn output_dir(self, path: &str) -> (r: Self)
        ensures
            r == (ConfigBuilder { output_dir: r.output_dir, ..self }),
            r.output_dir matches Some(s) && s@ == path@,
    {
        ConfigBuilder { output_dir: Some(path.to_string()), ..self }
    }

    /// Sets the template directory.
    pub fn template_dir(self, path: &str) -> (r: Self)
        ensures
            r == (ConfigBuilder { template_dir: r.template_dir, ..self }),
            r.template_dir matches Some(s) && s@ == path@,
    {
        ConfigBuilder { template_dir: Some(path.to_string()), ..self }
    }

    /// Sets the development server directory.
    pub fn serve_dir(self, path: &str) -> (r: Self)
        ensures
            r == (ConfigBuilder { serve_dir: r.serve_dir, ..self }),
            r.serve_dir matches Some(s) && s@ == path@,
    {
        ConfigBuilder { serve_dir: Some(path.to_string()), ..self }
    }

    /// Enables or disables the development server.
    pub fn server_enabled(self, enabled: bool) -> (r: Self)
        ensures
            r == (ConfigBuilder { server_enabled: enabled, ..self }),
    {
        ConfigBuilder { server_enabled: enabled, ..self }
    }

    /// Sets the development server port.
    pub fn server_port(self, port: u16) -> (r: Self)
        ensures
            r == (ConfigBuilder { server_port: Some(port), ..self }),
    {
        ConfigBuilder { server_port: Some(port), ..self }
    }

    /// Builds the configuration, with the defaults for what was not set,
    /// a fresh random identifier, and [`Config::validate`] applied.
    pub fn build(self) -> (r: Result<Config, ConfigError>)
        ensures
            r matches Ok(c) ==> c@ == self.settings(c@.id),
            r matches Ok(c) ==> (self.site_name matches Some(x) ==> c@.site_name == x@),
            r matches Ok(c) ==> (self.site_title matches Some(x) ==> c@.site_title == x@),
            r matches Ok(c) ==> (self.site_description matches Some(x) ==> c@.site_description == x@),
            r matches Ok(c) ==> (self.language matches Some(x) ==> c@.language == x@),
            r matches Ok(c) ==> (self.base_url matches Some(x) ==> c@.base_url == x@),
            r matches Ok(c) ==> (self.content_dir matches Some(x) ==> c@.content_dir == x@),
            r matches Ok(c) ==> (self.output_dir matches Some(x) ==> c@.output_dir == x@),
            r matches Ok(c) ==> (self.template_dir matches Some(x) ==> c@.template_dir == x@),
            r matches Ok(c) ==> (self.server_port matches Some(p) ==> c@.server_port == p),
            r matches Ok(c) ==> c@.server_enabled == self.server_enabled,
            forall|id: Uuid|
                #![trigger self.settings(id)]
                exists|links: Seq<bool>|
                    links.len() == 4 && #[trigger] config_result_is(
                        r,
                        self.settings(id),
                        links,
                        config_finding(self.settings(id), links),
                    ),
    {
        let config = Config {
            id: new_uuid(),
            site_name: match self.site_name {
                Some(s) => s,
                None => String::new(),
            },
            site_title: match self.site_title {
                Some(s) => s,
                None => default_site_title(),
            },
            site_description: match self.site_description {
                Some(s) => s,
                None => default_site_description(),
            },
            language: match self.language {
                Some(s) => s,
                None => default_language(),
            },
            base_url: match self.base_url {
                Some(s) => s,
                None => default_base_url(),
            },
            content_dir: match self.content_dir {
                Some(s) => s,
                None => default_content_dir(),
            },
            output_dir: match self.output_dir {
                Some(s) => s,
                None => default_output_dir(),
            },
            template_dir: match self.template_dir {
                Some(s) => s,
                None => default_template_dir(),
            },
            serve_dir: self.serve_dir,
            server_enabled: self.server_enabled,
            server_port: match self.server_port {
                Some(p) => p,
                None => default_port(),
            },
        };
        let checked = config.validate();
        let ghost links = choose|links: Seq<bool>|
            links.len() == 4 && #[trigger] config_result_is(
                checked,
                config@,
                links,
                config_finding(config@, links),
            );
        let r = match checked {
            Ok(()) => Ok(config),
            Err(e) => Err(e),
        };
        proof {
            assert(config_result_is(r, config@, links, config_finding(config@, links)));
            assert forall|id: Uuid| #![trigger self.settings(id)]
                exists|links: Seq<bool>|
                    links.len() == 4 && #[trigger] config_result_is(
                        r,
                        self.settings(id),
                        links,
                        config_finding(self.settings(id), links),
                    ) by {
                let t = self.settings(id);
                assert(directories(t) == directories(config@));
                assert(config_finding(t, links) == config_finding(config@, links));
                assert(config_result_is(r, t, links, config_finding(t, links)));
            }
        }
        r
    }
}

} // verus!
