//! Where the previewed document lives.
use vstd::prelude::*;


use crate::text::push_char;

verus! {

/// The Markdown file the preview shows.
#[derive(Debug, Clone)]
pub struct Config {
    pub markdown_path: String,
    base_dir: String,
}

/// Why a `Config` could not be made.
#[derive(Debug, Clone, Copy, PartialEq, Eq, Structural)]
pub enum ConfigError {
    /// A relative path was given and the current directory could not be resolved.
    CurrentDirUnavailable,
}

/// What `Path::is_absolute` gives for a path.
pub uninterp spec fn is_absolute_path(path: Seq<char>) -> bool;

/// What `Path::join` gives for a base and a path, as UTF-8.
pub uninterp spec fn joined_path(base: Seq<char>, path: Seq<char>) -> Seq<char>;

/// Calls `Path::is_absolute`; the result is named `is_absolute_path`.
#[verifier::external_body]
pub(crate) fn path_is_absolute(path: &str) -> (r: bool)
    ensures
        r == is_absolute_path(path@),
{
    std::path::Path::new(path).is_absolute()
}

/// Calls `Path::join`; the result, UTF-8 as both parts are, is named `joined_path`. As the
/// documentation of `PathBuf::push` says, an absolute path replaces the base.
#[verifier::external_body]
pub fn join_path(base: String, path: &str) -> (r: String)
    ensures
        r@ == joined_path(base@, path@),
        is_absolute_path(path@) ==> r@ == path@,
{
    std::path::Path::new(&base).join(path).to_string_lossy().into_owned()
}

/// What `Path::file_name` gives for a path, as UTF-8.
pub uninterp spec fn path_file_name_of(path: Seq<char>) -> Option<Seq<char>>;

/// What `Path::parent` gives for a path, as UTF-8.
pub uninterp spec fn path_parent_of(path: Seq<char>) -> Option<Seq<char>>;

/// Calls `Path::file_name` and keeps the name when it is valid UTF-8; the result is named
/// `path_file_name_of`.
#[verifier::external_body]
pub(crate) fn path_file_name(path: &str) -> (r: Option<String>)
    ensures
        r matches Some(name) ==> path_file_name_of(path@) == Some(name@),
        r is None ==> path_file_name_of(path@) is None,
{
    std::path::Path::new(path).file_name().and_then(|name| name.to_str()).map(|name| name.to_owned())
}

/// Calls `Path::parent`; the result is named `path_parent_of`.
#[verifier::external_body]
pub(crate) fn path_parent(path: &str) -> (r: Option<String>)
    ensures
        r matches Some(parent) ==> path_parent_of(path@) == Some(parent@),
        r is None ==> path_parent_of(path@) is None,
{
    std::path::Path::new(path).parent().and_then(|parent| parent.to_str()).map(|parent| parent.to_owned())
}

/// The default name shown when a path has no file name.
pub open spec fn fallback_file_name() -> Seq<char> {
    seq!['M', 'a', 'r', 'k', 'd', 'o', 'w', 'n']
}

/// The placeholder path of a viewer that failed to start.
pub open spec fn startup_failed_path() -> Seq<char> {
    seq!['<', 's', 't', 'a', 'r', 't', 'u', 'p', ' ', 'f', 'a', 'i', 'l', 'e', 'd', '>']
}

impl Config {
    /// The path of the document.
    pub closed spec fn path_of(&self) -> Seq<char> {
        self.markdown_path@
    }

    /// The path of the document.
    pub fn path(&self) -> (p: &String)
        ensures
            p@ == self.path_of(),
    {
        &self.markdown_path
    }

    /// The directory the document is in.
    pub closed spec fn base_dir_of(&self) -> Seq<char> {
        self.base_dir@
    }

    /// Resolves `path` against `current_dir` when it is relative. `current_dir` is `None` when
    /// the current directory could not be determined.
    pub fn new(path: String, current_dir: Option<String>) -> (r: Result<Config, ConfigError>)
        ensures
            is_absolute_path(path@) ==> (r matches Ok(c) && c.path_of() == path@),
            !is_absolute_path(path@) ==> match current_dir {
                Some(dir) => r matches Ok(c) && c.path_of() == joined_path(dir@, path@),
                None => r == Err::<Config, ConfigError>(ConfigError::CurrentDirUnavailable),
            },
            r matches Ok(c) ==> c.base_dir_of() == match path_parent_of(c.path_of()) {
                Some(parent) => parent,
                None => seq!['.'],
            },
    {
        let absolute = path_is_absolute(path.as_str());
        let markdown_path = if absolute {
            path
        } else {
            match current_dir {
                Some(dir) => join_path(dir, path.as_str()),
                None => {
                    return Err(ConfigError::CurrentDirUnavailable);
                },
            }
        };
        let base_dir = match path_parent(markdown_path.as_str()) {
            Some(parent) => parent,
            None => {
                let mut dot = String::new();
                push_char(&mut dot, '.');
                dot
            },
        };
        Ok(Config { markdown_path, base_dir })
    }

    /// The file name of the document, or "Markdown" when the path has none.
    pub fn file_name(&self) -> (name: String)
        ensures
            name@ == match path_file_name_of(self.path_of()) {
                Some(n) => n,
                None => fallback_file_name(),
            },
    {
        match path_file_name(self.markdown_path.as_str()) {
            Some(name) => name,
            None => {
                proof {
                    reveal_strlit("Markdown");
                }
                "Markdown".to_owned()
            },
        }
    }

    /// Where an image the document refers to is read from: the path joined to the document's
    /// directory, so that an absolute path stays as it is.
    pub fn resolve_image_path(&self, destination: &str) -> (p: String)
        ensures
            p@ == joined_path(self.base_dir_of(), destination@),
            is_absolute_path(destination@) ==> p@ == destination@,
    {
        join_path(self.base_dir.clone(), destination)
    }

    /// The configuration of a viewer whose startup failed.
    pub fn fallback() -> (c: Config)
        ensures
            c.path_of() == startup_failed_path(),
            c.base_dir_of() == seq!['.'],
    {
        proof {
            reveal_strlit("<startup failed>");
            reveal_strlit(".");
        }
        Config { markdown_path: "<startup failed>".to_owned(), base_dir: ".".to_owned() }
    }
}

} // verus!
