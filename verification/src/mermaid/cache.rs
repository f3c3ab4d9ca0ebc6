//! Where rendered Mermaid diagrams are kept between runs, by a digest of their source.
use sha2::{Digest, Sha256};
use vstd::prelude::*;
use vstd::string::StringSliceAdditionalSpecFns;

use crate::config::{join_path, joined_path};
use crate::text::push_char;

verus! {

/// The theme the diagrams are rendered with.
pub const THEME: &'static str = "default";

/// The renderer version; a new one makes new cache keys.
pub const RENDERER_VERSION: &'static str = "mermaid-rs-renderer-0.1.2-collision-spacing-v13";

/// What the SHA-256 digest of a byte string is.
pub uninterp spec fn sha256_of(data: Seq<u8>) -> Seq<u8>;

/// Calls sha2's `Sha256::digest`; the digest is named `sha256_of` and, as its type shows, is
/// 32 bytes long.
#[verifier::external_body]
fn sha256(data: &[u8]) -> (digest: Vec<u8>)
    ensures
        digest@ == sha256_of(data@),
        digest@.len() == 32,
{
    Sha256::digest(data).to_vec()
}

/// Whether `dir` is a cache directory `directories::ProjectDirs` can give for the project of
/// that qualifier, organization and application. Which one it gives depends on the user's
/// environment, so this relation states nothing more than that link.
pub uninterp spec fn is_project_cache_dir(
    dir: Seq<char>,
    qualifier: Seq<char>,
    organization: Seq<char>,
    application: Seq<char>,
) -> bool;

/// The directory `directories::ProjectDirs` gives for a project's cache, when there is one and
/// its path is UTF-8: a cache directory of that project. Which directory it is depends on the
/// user's environment and is not stated.
#[verifier::external_body]
fn project_cache_dir(qualifier: &str, organization: &str, application: &str) -> (r: Option<String>)
    ensures
        r matches Some(dir) ==> is_project_cache_dir(dir@, qualifier@, organization@, application@),
{
    directories::ProjectDirs::from(qualifier, organization, application)
        .and_then(|dirs| dirs.cache_dir().to_str().map(|dir| dir.to_owned()))
}

/// The lower-case hexadecimal digit of a value below 16.
pub open spec fn hex_digit_of(v: u8) -> char {
    if v < 10 {
        ((v + 48) as u8) as char
    } else {
        ((v + 87) as u8) as char
    }
}

/// Bytes written as lower-case hexadecimal, two digits each.
pub open spec fn lower_hex(bytes: Seq<u8>) -> Seq<char>
    decreases bytes.len(),
{
    if bytes.len() == 0 {
        seq![]
    } else {
        lower_hex(bytes.drop_last()) + seq![hex_digit_of(bytes.last() / 16), hex_digit_of(bytes.last() % 16)]
    }
}

/// The cache key of a diagram source: the digest of the source, the theme and the renderer
/// version, one after the other, in hexadecimal.
pub open spec fn mermaid_key_of(source: Seq<char>) -> Seq<char> {
    lower_hex(sha256_of(
        vstd::utf8::encode_utf8(source) + vstd::utf8::encode_utf8(theme_name())
            + vstd::utf8::encode_utf8(renderer_version()),
    ))
}

pub open spec fn theme_name() -> Seq<char> {
    THEME@
}

pub open spec fn renderer_version() -> Seq<char> {
    RENDERER_VERSION@
}

/// A lower-case hexadecimal digit.
pub open spec fn is_lower_hex_digit(c: char) -> bool {
    ('0' <= c && c <= '9') || ('a' <= c && c <= 'f')
}

/// Hexadecimal text has two lower-case digits per byte.
pub proof fn lemma_lower_hex_shape(bytes: Seq<u8>)
    ensures
        lower_hex(bytes).len() == 2 * bytes.len(),
        forall|i: int| 0 <= i < lower_hex(bytes).len() ==> is_lower_hex_digit(#[trigger] lower_hex(bytes)[i]),
    decreases bytes.len(),
{
    if bytes.len() > 0 {
        lemma_lower_hex_shape(bytes.drop_last());
        let prefix = lower_hex(bytes.drop_last());
        let b = bytes.last();
        let hi = hex_digit_of(b / 16);
        let lo = hex_digit_of(b % 16);
        assert(is_lower_hex_digit(hi) && is_lower_hex_digit(lo)) by {
            assert(b / 16 < 16);
            assert(b % 16 < 16);
        }
        assert forall|i: int| 0 <= i < lower_hex(bytes).len() implies is_lower_hex_digit(#[trigger] lower_hex(bytes)[i]) by {
            if i < prefix.len() {
                assert(lower_hex(bytes)[i] == prefix[i]);
            } else if i == prefix.len() {
                assert(lower_hex(bytes)[i] == hi);
            } else {
                assert(lower_hex(bytes)[i] == lo);
            }
        }
    }
}

fn hex_digit(v: u8) -> (c: char)
    requires
        v < 16,
    ensures
        c == hex_digit_of(v),
{
    if v < 10 {
        ((v + 48) as u8) as char
    } else {
        ((v + 87) as u8) as char
    }
}

/// Bytes in lower-case hexadecimal.
pub fn to_lower_hex(bytes: &[u8]) -> (s: String)
    ensures
        s@ == lower_hex(bytes@),
{
    let mut s = String::new();
    let mut i: usize = 0;
    while i < bytes.len()
        invariant
            i <= bytes.len(),
            s@ == lower_hex(bytes@.take(i as int)),
        decreases bytes.len() - i,
    {
        assert(bytes@.take(i + 1).drop_last() =~= bytes@.take(i as int));
        let b = bytes[i];
        push_char(&mut s, hex_digit(b / 16));
        push_char(&mut s, hex_digit(b % 16));
        i += 1;
    }
    assert(bytes@.take(i as int) =~= bytes@);
    s
}

/// The on-disk cache of rendered diagrams.
#[derive(Debug, Clone)]
pub struct MermaidCache {
    pub dir: Option<String>,
}

impl MermaidCache {
    /// The cache under the user's cache directory for the viewer, in its `mermaid` folder.
    pub fn new() -> (c: MermaidCache)
        ensures
            c.dir matches Some(d) ==> exists|base: Seq<char>|
                is_project_cache_dir(base, seq![], seq![], seq!['n', 'v', 'm', 'd'])
                    && d@ == joined_path(base, seq!['m', 'e', 'r', 'm', 'a', 'i', 'd']),
    {
        proof {
            reveal_strlit("mermaid");
            reveal_strlit("");
            reveal_strlit("nvmd");
            assert(""@ =~= Seq::<char>::empty());
            assert("nvmd"@ =~= seq!['n', 'v', 'm', 'd']);
        }
        let dir = match project_cache_dir("", "", "nvmd") {
            Some(base) => {
                let ghost b = base@;
                let d = join_path(base, "mermaid");
                assert("mermaid"@ =~= seq!['m', 'e', 'r', 'm', 'a', 'i', 'd']);
                assert(d@ == joined_path(b, seq!['m', 'e', 'r', 'm', 'a', 'i', 'd']));
                Some(d)
            },
            None => None,
        };
        MermaidCache { dir }
    }

    /// The cache key of a diagram source.
    pub fn key(source: &str) -> (k: String)
        ensures
            k@ == mermaid_key_of(source@),
            k@.len() == 64,
            forall|i: int| 0 <= i < k@.len() ==> is_lower_hex_digit(#[trigger] k@[i]),
    {
        let mut data: Vec<u8> = Vec::new();
        let mut tail = slice_to_vec(source.as_bytes());
        data.append(&mut tail);
        let mut theme = slice_to_vec(THEME.as_bytes());
        data.append(&mut theme);
        let mut version = slice_to_vec(RENDERER_VERSION.as_bytes());
        data.append(&mut version);
        let digest = sha256(data.as_slice());
        proof {
            lemma_lower_hex_shape(digest@);
        }
        to_lower_hex(digest.as_slice())
    }

    /// Where the rendered SVG of a diagram source is cached, if there is a cache directory.
    pub fn path_for(&self, source: &str) -> (p: Option<String>)
        ensures
            match self.dir {
                Some(dir) => p matches Some(path) && path@ == joined_path(
                    dir@,
                    mermaid_key_of(source@) + seq!['.', 's', 'v', 'g'],
                ),
                None => p is None,
            },
    {
        match &self.dir {
            Some(dir) => {
                let mut name = MermaidCache::key(source);
                proof {
                    reveal_strlit(".svg");
                    assert(".svg"@ =~= seq!['.', 's', 'v', 'g']);
                }
                name.append(".svg");
                Some(join_path(dir.clone(), name.as_str()))
            },
            None => None,
        }
    }
}

/// A vector holding the bytes of a slice.
fn slice_to_vec(bytes: &[u8]) -> (v: Vec<u8>)
    ensures
        v@ == bytes@,
{
    let mut v: Vec<u8> = Vec::new();
    let mut i: usize = 0;
    while i < bytes.len()
        invariant
            i <= bytes.len(),
            v@ == bytes@.take(i as int),
        decreases bytes.len() - i,
    {
        v.push(bytes[i]);
        i += 1;
    }
    assert(bytes@.take(i as int) =~= bytes@);
    v
}

} // verus!
