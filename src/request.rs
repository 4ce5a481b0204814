//! What a build request decides before and after its build: the client's
//! operating system and platform, the container of a release channel, the
//! content fingerprint, and the artifact that the response names.

use std::collections::hash_map::DefaultHasher;
use std::hash::Hasher;
use vstd::prelude::*;
use vstd::std_specs::hash::DefaultHasherAdditionalSpecFns;
use vstd::string::StringSliceAdditionalSpecFns;
use crate::display::{hex_digits, hex_string, lemma_hex_injective};
use crate::text::{contains_text, has_infix, text_eq};

verus! {

/// A build request: the canonical serialization of a layout configuration
/// and the release channel asked for.
pub struct BuildRequest {
    pub config: String,
    pub env: String,
}

/// The answer to a build request: where the artifact is served, and whether
/// the build succeeded.
pub struct BuildResult {
    pub filename: String,
    pub success: bool,
}

/// The route under which artifacts are served.
pub const BUILD_ROUTE: &'static str = "./tmp";

/// The container of the long-term-support channel.
pub const LTS_CONTAINER: &'static str = "controller-050";

/// The container of every other channel.
pub const LATEST_CONTAINER: &'static str = "controller-057";

/// What `str::to_lowercase` returns for a string.
pub uninterp spec fn lower_of(s: Seq<char>) -> Seq<char>;

/// Relies on `str::to_lowercase`: the lowercase form depends on the characters
/// alone, and the empty string stays empty.
#[verifier::external_body]
fn lowercase(s: &str) -> (r: String)
    ensures
        r@ == lower_of(s@),
        s@.len() == 0 ==> r@.len() == 0,
{
    s.to_lowercase()
}

/// The operating system named by a lowercased user agent.
pub open spec fn os_label(lower: Seq<char>) -> Seq<char> {
    if has_infix(lower, "windows"@) {
        "Windows"@
    } else if has_infix(lower, "mac"@) {
        "Mac"@
    } else if has_infix(lower, "linux"@) || has_infix(lower, "x11"@) {
        "Linux"@
    } else {
        "Unknown"@
    }
}

/// The operating system of a user agent that is already lowercase.
pub fn classify_os_lowered(lower: &str) -> (r: &'static str)
    ensures
        r@ == os_label(lower@),
{
    if contains_text(lower, "windows") {
        "Windows"
    } else if contains_text(lower, "mac") {
        "Mac"
    } else if contains_text(lower, "linux") || contains_text(lower, "x11") {
        "Linux"
    } else {
        "Unknown"
    }
}

/// The operating system of a user agent, matched without regard to case.
pub fn classify_os(user_agent: &str) -> (r: String)
    ensures
        r@ == os_label(lower_of(user_agent@)),
{
    let lower = lowercase(user_agent);
    String::from_str(classify_os_lowered(lower.as_str()))
}

/// Whether a lowercased user agent is a web client: the desktop
/// configurator announces itself with "electron".
pub fn is_web_lowered(lower: &str) -> (r: bool)
    ensures
        r == !has_infix(lower@, "electron"@),
{
    !contains_text(lower, "electron")
}

/// Whether a user agent is a web client, matched without regard to case.
pub fn is_web_client(user_agent: &str) -> (r: bool)
    ensures
        r == !has_infix(lower_of(user_agent@), "electron"@),
{
    let lower = lowercase(user_agent);
    is_web_lowered(lower.as_str())
}

/// The container that builds a release channel.
pub open spec fn container_of(env: Seq<char>) -> Seq<char> {
    if env == "lts"@ {
        LTS_CONTAINER@
    } else {
        LATEST_CONTAINER@
    }
}

/// The container for a channel: "lts" has its own, "nightly", "latest" and
/// anything unrecognised share the latest one.
pub fn container_for(env: &str) -> (r: String)
    ensures
        r@ == container_of(env@),
{
    if text_eq(env, "lts") {
        String::from_str(LTS_CONTAINER)
    } else {
        String::from_str(LATEST_CONTAINER)
    }
}

/// What the hasher is fed for a fingerprint: each string's bytes followed by
/// a 0xff terminator, container first.
pub open spec fn fingerprint_input(container: Seq<u8>, config: Seq<u8>) -> Seq<Seq<u8>> {
    seq![container, seq![0xffu8], config, seq![0xffu8]]
}

/// The fingerprint value of a container and a canonical configuration.
pub open spec fn fingerprint_value_of(container: Seq<u8>, config: Seq<u8>) -> u64 {
    DefaultHasher::spec_finish(fingerprint_input(container, config))
}

/// The 64-bit content fingerprint of a container and a canonical
/// configuration, under the standard library's default hasher.
pub fn fingerprint_value(container: &str, config: &str) -> (r: u64)
    ensures
        r == fingerprint_value_of(container.spec_bytes(), config.spec_bytes()),
{
    let mut hasher = DefaultHasher::new();
    let end: [u8; 1] = [0xffu8];
    let end_slice = end.as_slice();
    assert(end_slice@ =~= seq![0xffu8]);
    hasher.write(container.as_bytes());
    hasher.write(end_slice);
    hasher.write(config.as_bytes());
    hasher.write(end_slice);
    let r = hasher.finish();
    assert(hasher@ =~= fingerprint_input(container.spec_bytes(), config.spec_bytes()));
    r
}

/// The fingerprint as it names workspaces and artifacts: lowercase hex.
pub fn fingerprint(container: &str, config: &str) -> (r: String)
    ensures
        r@ == hex_digits(fingerprint_value_of(container.spec_bytes(), config.spec_bytes()) as nat),
{
    hex_string(fingerprint_value(container, config))
}

/// Fingerprint inputs are equal exactly when both the container and the
/// canonical configuration are equal; equal inputs give equal fingerprints.
pub proof fn lemma_fingerprint_input(c1: Seq<u8>, f1: Seq<u8>, c2: Seq<u8>, f2: Seq<u8>)
    ensures
        fingerprint_input(c1, f1) == fingerprint_input(c2, f2) <==> (c1 == c2 && f1 == f2),
        (c1 == c2 && f1 == f2) ==> fingerprint_value_of(c1, f1) == fingerprint_value_of(c2, f2),
{
    if fingerprint_input(c1, f1) == fingerprint_input(c2, f2) {
        assert(fingerprint_input(c1, f1)[0] == c1);
        assert(fingerprint_input(c2, f2)[0] == c2);
        assert(fingerprint_input(c1, f1)[2] == f1);
        assert(fingerprint_input(c2, f2)[2] == f2);
    }
}

/// Fingerprint texts are equal exactly when the fingerprint values are.
pub proof fn lemma_fingerprint_text(c1: Seq<u8>, f1: Seq<u8>, c2: Seq<u8>, f2: Seq<u8>)
    ensures
        hex_digits(fingerprint_value_of(c1, f1) as nat) == hex_digits(
            fingerprint_value_of(c2, f2) as nat,
        ) <==> fingerprint_value_of(c1, f1) == fingerprint_value_of(c2, f2),
{
    if hex_digits(fingerprint_value_of(c1, f1) as nat) == hex_digits(
        fingerprint_value_of(c2, f2) as nat,
    ) {
        lemma_hex_injective(fingerprint_value_of(c1, f1) as nat, fingerprint_value_of(c2, f2) as nat);
    }
}

/// The artifact file name of a build: board, layout and fingerprint, with
/// `_error` before the extension when the build failed.
pub open spec fn artifact_name_of(board: Seq<char>, layout: Seq<char>, hash: Seq<char>, success: bool) -> Seq<char> {
    board + "-"@ + layout + "-"@ + hash + (if success {
        ""@
    } else {
        "_error"@
    }) + ".zip"@
}

/// The artifact file name of a build.
pub fn artifact_name(board: &str, layout: &str, hash: &str, success: bool) -> (r: String)
    ensures
        r@ == artifact_name_of(board@, layout@, hash@, success),
{
    let mut s = String::from_str(board);
    s.append("-");
    s.append(layout);
    s.append("-");
    s.append(hash);
    if success {
        s.append("");
    } else {
        s.append("_error");
    }
    s.append(".zip");
    s
}

/// The response to a build request: the artifact's path under the artifact
/// route, and the outcome.
pub fn build_result(board: &str, layout: &str, hash: &str, success: bool) -> (r: BuildResult)
    ensures
        r.filename@ == BUILD_ROUTE@ + "/"@ + artifact_name_of(board@, layout@, hash@, success),
        r.success == success,
{
    let mut filename = String::from_str(BUILD_ROUTE);
    filename.append("/");
    let name = artifact_name(board, layout, hash, success);
    filename.append(name.as_str());
    BuildResult { filename, success }
}

} // verus!
