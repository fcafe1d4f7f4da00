//! Version checks for self-update: the running version, semantic-version
//! comparison (the `semver` crate), and the release asset to download.

use vstd::prelude::*;

use crate::chars::{chars_of, push_str, same_chars, string_of};

verus! {

/// Whether `semver::Version::parse` accepts `text`.
pub uninterp spec fn semver_valid(text: Seq<char>) -> bool;

/// Whether the version `latest` parses to is greater, in `semver`'s
/// ordering of versions, than the one `current` parses to.
pub uninterp spec fn semver_newer(latest: Seq<char>, current: Seq<char>) -> bool;

/// `semver::Version::parse` of both texts and, when both parse, `>` between
/// them. The contract claims that the comparison is made exactly when both
/// parse (`semver_valid`), that its answer is `semver_newer`, and that a
/// version is never newer than itself (the ordering is a total order); the
/// version grammar and precedence rules are not restated.
#[verifier::external_body]
fn compare_versions(current: &str, latest: &str) -> (r: Option<bool>)
    ensures
        (r is Some) == (semver_valid(current@) && semver_valid(latest@)),
        r == Some(true) ==> semver_newer(latest@, current@),
        r == Some(false) ==> !semver_newer(latest@, current@),
        r != Some(true) || current@ != latest@,
{
    match (semver::Version::parse(current), semver::Version::parse(latest)) {
        (Ok(c), Ok(l)) => Some(l > c),
        _ => None,
    }
}

/// Whether `a` and `b` are the same text.
pub fn text_is(a: &str, b: &str) -> (r: bool)
    ensures
        r == (a@ == b@),
{
    let va = chars_of(a);
    let vb = chars_of(b);
    same_chars(&va, vb.as_slice())
}

/// The version of this build: the source tree's version, `0.0.0`, which
/// release builds replace.
pub open spec fn version_text() -> Seq<char> {
    "0.0.0"@
}

/// Returns the version of this build; see `version_text`.
pub fn current_version() -> (r: &'static str)
    ensures
        r@ == version_text(),
{
    "0.0.0"
}

/// Whether this is a development build (version 0.0.0).
pub fn is_dev_build() -> (r: bool)
    ensures
        r == (version_text() == "0.0.0"@),
{
    text_is(current_version(), "0.0.0")
}

/// `latest` is newer than `current`: by semantic-version precedence when
/// both are versions, otherwise whenever the texts differ.
pub open spec fn newer(current: Seq<char>, latest: Seq<char>) -> bool {
    if semver_valid(current) && semver_valid(latest) {
        semver_newer(latest, current)
    } else {
        latest != current
    }
}

/// Whether `latest` is newer than `current`; see `newer`. A version is
/// never newer than itself, so a build at the latest release is not offered
/// an update.
pub fn is_newer(current: &str, latest: &str) -> (r: bool)
    ensures
        r == newer(current@, latest@),
        current@ == latest@ ==> !r,
{
    match compare_versions(current, latest) {
        Some(b) => b,
        None => !text_is(latest, current),
    }
}

} // verus!

verus! {

/// The version named by a release tag: the tag without a leading `v`.
pub open spec fn tag_version(tag: Seq<char>) -> Seq<char> {
    if tag.len() > 0 && tag[0] == 'v' {
        tag.drop_first()
    } else {
        tag
    }
}

/// The version a release tag names; see `tag_version`.
pub fn version_from_tag(tag: &str) -> (r: String)
    ensures
        r@ == tag_version(tag@),
{
    let v = chars_of(tag);
    let mut out: Vec<char> = Vec::new();
    let start: usize = if v.len() > 0 && v[0] == 'v' { 1 } else { 0 };
    let mut i = start;
    while i < v.len()
        invariant
            start <= i <= v@.len(),
            out@ == v@.subrange(start as int, i as int),
        decreases v@.len() - i,
    {
        out.push(v[i]);
        i = i + 1;
        assert(out@ =~= v@.subrange(start as int, i as int));
    }
    assert(out@ =~= tag_version(tag@));
    string_of(&out)
}

/// The download URL of the release asset for version `tag` on operating
/// system `os` and architecture `arch` (as Rust names them), or why there is
/// none: only Linux and macOS on x86_64 and aarch64 are built, and not macOS
/// on x86_64.
pub open spec fn asset_url(tag: Seq<char>, os: Seq<char>, arch: Seq<char>) -> Result<Seq<char>, Seq<char>> {
    if os != "linux"@ && os != "macos"@ {
        Err("unsupported OS: "@ + os)
    } else if arch != "x86_64"@ && arch != "aarch64"@ {
        Err("unsupported architecture: "@ + arch)
    } else if os == "macos"@ && arch == "x86_64"@ {
        Err("macOS x86_64 binaries are not provided — use `cargo install terminal-use`"@)
    } else {
        Ok("https://github.com/flipbit03/terminal-use/releases/download/v"@ + tag + "/tu_"@ + os + "_"@ + arch)
    }
}

/// Returns the download URL of the release asset; see `asset_url`.
pub fn release_asset_url(tag: &str, os: &str, arch: &str) -> (r: Result<String, String>)
    ensures
        match r {
            Ok(u) => asset_url(tag@, os@, arch@) == Ok::<Seq<char>, Seq<char>>(u@),
            Err(m) => asset_url(tag@, os@, arch@) == Err::<Seq<char>, Seq<char>>(m@),
        },
{
    let linux = text_is(os, "linux");
    let macos = text_is(os, "macos");
    if !linux && !macos {
        let mut m: Vec<char> = Vec::new();
        push_str(&mut m, "unsupported OS: ");
        push_str(&mut m, os);
        return Err(string_of(&m));
    }
    let x86 = text_is(arch, "x86_64");
    let arm = text_is(arch, "aarch64");
    if !x86 && !arm {
        let mut m: Vec<char> = Vec::new();
        push_str(&mut m, "unsupported architecture: ");
        push_str(&mut m, arch);
        return Err(string_of(&m));
    }
    if macos && x86 {
        return Err("macOS x86_64 binaries are not provided — use `cargo install terminal-use`".to_owned());
    }
    let mut u: Vec<char> = Vec::new();
    push_str(&mut u, "https://github.com/flipbit03/terminal-use/releases/download/v");
    push_str(&mut u, tag);
    push_str(&mut u, "/tu_");
    push_str(&mut u, os);
    push_str(&mut u, "_");
    push_str(&mut u, arch);
    Ok(string_of(&u))
}

} // verus!
