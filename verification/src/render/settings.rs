//! The viewer settings that hold no measurements: key names and the colour preset.
use vstd::prelude::*;

use crate::config::{join_path, joined_path};

verus! {

/// The keys bound to commands, by name.
#[derive(Debug, Clone, PartialEq)]
pub struct KeyConfig {
    pub scroll_down: String,
    pub scroll_up: String,
    pub palette: String,
    pub quit: String,
    pub toc: String,
    pub search: String,
}

impl Default for KeyConfig {
    fn default() -> (c: KeyConfig)
        ensures
            c.scroll_down@ == seq!['j'],
            c.scroll_up@ == seq!['k'],
            c.palette@ == seq![':'],
            c.quit@ == seq!['q'],
            c.toc@ == seq!['t'],
            c.search@ == seq!['/'],
    {
        proof {
            reveal_strlit("j");
            reveal_strlit("k");
            reveal_strlit(":");
            reveal_strlit("q");
            reveal_strlit("t");
            reveal_strlit("/");
        }
        KeyConfig {
            scroll_down: "j".to_owned(),
            scroll_up: "k".to_owned(),
            palette: ":".to_owned(),
            quit: "q".to_owned(),
            toc: "t".to_owned(),
            search: "/".to_owned(),
        }
    }
}

/// The colour preset of the viewer.
#[derive(Debug, Clone, Copy, PartialEq, Eq, Structural)]
pub enum MarkdownPreset {
    Dark,
    Light,
    Unknown,
}

impl Default for MarkdownPreset {
    fn default() -> (p: MarkdownPreset)
        ensures
            p == MarkdownPreset::Dark,
    {
        MarkdownPreset::Dark
    }
}

impl MarkdownPreset {
    /// The preset the theme command switches to: light becomes dark, anything else light.
    pub fn toggled(self) -> (p: MarkdownPreset)
        ensures
            p == if self == MarkdownPreset::Light {
                MarkdownPreset::Dark
            } else {
                MarkdownPreset::Light
            },
    {
        if self == MarkdownPreset::Light {
            MarkdownPreset::Dark
        } else {
            MarkdownPreset::Light
        }
    }
}

/// Whether `dir` is a configuration directory `directories::ProjectDirs` can give for the
/// project of that qualifier, organization and application. Which one it gives depends on
/// the user's environment, so this relation states nothing more than that link.
pub uninterp spec fn is_project_config_dir(
    dir: Seq<char>,
    qualifier: Seq<char>,
    organization: Seq<char>,
    application: Seq<char>,
) -> bool;

/// The directory `directories::ProjectDirs` gives for a project's configuration, when there
/// is one and its path is UTF-8: a configuration directory of that project. Which directory
/// it is depends on the user's environment and is not stated.
#[verifier::external_body]
fn project_config_dir(qualifier: &str, organization: &str, application: &str) -> (r: Option<String>)
    ensures
        r matches Some(dir) ==> is_project_config_dir(dir@, qualifier@, organization@, application@),
{
    directories::ProjectDirs::from(qualifier, organization, application)
        .and_then(|dirs| dirs.config_dir().to_str().map(|dir| dir.to_owned()))
}

/// The viewer's settings file, `config.toml` in its configuration directory, if the user has
/// one.
pub fn config_path() -> (p: Option<String>)
    ensures
        p matches Some(path) ==> exists|dir: Seq<char>|
            is_project_config_dir(dir, seq![], seq![], seq!['n', 'v', 'm', 'd'])
                && path@ == joined_path(dir, "config.toml"@),
{
    proof {
        reveal_strlit("");
        reveal_strlit("nvmd");
        assert(""@ =~= Seq::<char>::empty());
        assert("nvmd"@ =~= seq!['n', 'v', 'm', 'd']);
    }
    match project_config_dir("", "", "nvmd") {
        Some(dir) => {
            let ghost d = dir@;
            let path = join_path(dir, "config.toml");
            assert(path@ == joined_path(d, "config.toml"@));
            Some(path)
        },
        None => None,
    }
}

/// Where earlier versions kept the settings: `viewer.toml` in the configuration directory.
pub fn legacy_viewer_path() -> (p: Option<String>)
    ensures
        p matches Some(path) ==> exists|dir: Seq<char>|
            is_project_config_dir(dir, seq![], seq![], seq!['n', 'v', 'm', 'd'])
                && path@ == joined_path(dir, "viewer.toml"@),
{
    proof {
        reveal_strlit("");
        reveal_strlit("nvmd");
        assert(""@ =~= Seq::<char>::empty());
        assert("nvmd"@ =~= seq!['n', 'v', 'm', 'd']);
    }
    match project_config_dir("", "", "nvmd") {
        Some(dir) => {
            let ghost d = dir@;
            let path = join_path(dir, "viewer.toml");
            assert(path@ == joined_path(d, "viewer.toml"@));
            Some(path)
        },
        None => None,
    }
}

} // verus!
