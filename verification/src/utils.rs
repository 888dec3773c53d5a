//! Versions and flake references: the trimming of command output that names
//! the htldoc and nixpkgs versions, and the references handed to `nix`.

use vstd::prelude::*;

verus! {

/// The Nix expression whose value is the `htldocVersion` of the project's
/// `htldoc.nix`, or the latest htldoc of the master branch when it sets none.
pub fn htldoc_version_expr() -> (res: String)
    ensures
        res@ == "\n            let \n                config = (import ./htldoc.nix { });\n            in if builtins.hasAttr \"htldocVersion\" config then config.htldocVersion else \"github:c2vi/htldoc/master\"\n        "@,
{
    "\n            let \n                config = (import ./htldoc.nix { });\n            in if builtins.hasAttr \"htldocVersion\" config then config.htldocVersion else \"github:c2vi/htldoc/master\"\n        ".to_owned()
}

/// The htldoc version in the output of `nix eval` on `htldoc_version_expr`:
/// the output is a quoted string and a line break, so the version is the
/// output without its first character and its last two.
pub open spec fn htldoc_version_of(eval_output: Seq<char>) -> Seq<char> {
    eval_output.subrange(1, eval_output.len() - 2)
}

/// The htldoc version that `nix eval` printed as `eval_output`; the output
/// must hold at least three characters (a quote, a quote and a line break).
pub fn htldoc_version(eval_output: &str) -> (res: String)
    requires
        eval_output@.len() >= 3,
    ensures
        res@ == htldoc_version_of(eval_output@),
        res@.len() == eval_output@.len() - 3,
        forall|i: int| 0 <= i < res@.len() ==> #[trigger] res@[i] == eval_output@[i + 1],
{
    let n = eval_output.unicode_len();
    eval_output.substring_char(1, n - 2).to_owned()
}

/// `nix eval` prints a string as the string in quotes and a line break; the
/// htldoc version read from that output is the string itself, whatever its length.
pub proof fn lemma_htldoc_version_unquotes(v: Seq<char>)
    ensures
        htldoc_version_of(seq!['"'] + v + seq!['"', '\n']) == v,
{
    assert((seq!['"'] + v + seq!['"', '\n']).subrange(1, v.len() + 1 as int) =~= v);
}

/// `s` without its last character, unchanged when it is empty.
pub open spec fn without_last_char(s: Seq<char>) -> Seq<char> {
    if s.len() == 0 {
        s
    } else {
        s.drop_last()
    }
}

/// `s` without its last character (the line break that ends command output);
/// an empty `s` stays empty.
pub fn drop_last_char(s: &str) -> (res: String)
    ensures
        res@ == without_last_char(s@),
        s@.len() == 0 ==> res@.len() == 0,
        s@.len() > 0 ==> res@.len() == s@.len() - 1,
        forall|i: int| 0 <= i < res@.len() ==> #[trigger] res@[i] == s@[i],
{
    let n = s.unicode_len();
    if n == 0 {
        s.to_owned()
    } else {
        let res = s.substring_char(0, n - 1).to_owned();
        assert(res@ =~= s@.drop_last());
        res
    }
}

/// How `nixos-version --hash` went.
pub enum NixosVersionProbe {
    /// The command could not be started (not on NixOS).
    NotAvailable,
    /// The command ran and failed.
    Failed,
    /// The command succeeded with this standard output.
    Succeeded(String),
}

/// What to do next to learn the nixpkgs revision.
pub enum NixpkgsVersionStep {
    /// The revision is known.
    Found(String),
    /// Ask the flake of the htldoc version for the revision of its nixpkgs input.
    AskHtldocFlake,
    /// `nixos-version` failed: stop with an error.
    Abort,
}

/// The first step towards the nixpkgs revision to build with: the revision of
/// the running NixOS (the output of `nixos-version --hash` without its line
/// break) where there is one; the htldoc flake's nixpkgs otherwise.
pub fn nixpkgs_version(probe: NixosVersionProbe) -> (res: NixpkgsVersionStep)
    ensures
        match probe {
            NixosVersionProbe::NotAvailable => res is AskHtldocFlake,
            NixosVersionProbe::Failed => res is Abort,
            NixosVersionProbe::Succeeded(out) => res matches NixpkgsVersionStep::Found(v) && v@
                == without_last_char(out@) && (out@.len() > 0 ==> v@ == out@.drop_last()) && (
            out@.len() == 0 ==> v@.len() == 0),
        },
{
    match probe {
        NixosVersionProbe::NotAvailable => NixpkgsVersionStep::AskHtldocFlake,
        NixosVersionProbe::Failed => NixpkgsVersionStep::Abort,
        NixosVersionProbe::Succeeded(out) => NixpkgsVersionStep::Found(drop_last_char(out.as_str())),
    }
}

/// The nixpkgs revision once the htldoc flake was asked: its answer, or
/// `master` when it gave none.
pub fn nixpkgs_version_from_flake(flake_rev: Option<String>) -> (res: String)
    ensures
        match flake_rev {
            Some(rev) => res@ == rev@,
            None => res@ == "master"@,
        },
{
    match flake_rev {
        Some(rev) => rev,
        None => "master".to_owned(),
    }
}

/// The reference to the output `attr` of the flake `flake`: `flake#attr`.
pub open spec fn flake_output(flake: Seq<char>, attr: Seq<char>) -> Seq<char> {
    flake + "#"@ + attr
}

/// The reference to the output `attr` of the flake `flake`.
pub fn flake_ref(flake: &str, attr: &str) -> (res: String)
    ensures
        res@ == flake_output(flake@, attr@),
{
    let mut res = flake.to_owned();
    res.append("#");
    res.append(attr);
    res
}

/// The reference to the package `package` of nixpkgs at revision `rev`.
pub fn nixpkgs_package(rev: &str, package: &str) -> (res: String)
    ensures
        res@ == flake_output("nixpkgs/"@ + rev@, package@),
{
    let mut flake = "nixpkgs/".to_owned();
    flake.append(rev);
    flake_ref(flake.as_str(), package)
}

} // verus!
