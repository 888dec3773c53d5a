//! `htldoc init`: the template to create and the files it starts with.

use vstd::prelude::*;

verus! {

/// The templates that `htldoc init` can create.
pub enum InitTemplate {
    /// The diploma thesis of the HTL Anichstraße.
    Diploma,
}

/// The template name given on the command line; an error when none was given.
pub fn requested_template(template: Option<String>) -> (res: Result<String, String>)
    ensures
        match template {
            Some(name) => res matches Ok(r) && r@ == name@,
            None => res matches Err(e) && e@ == "no tempalte name specified"@,
        },
{
    match template {
        Some(name) => Ok(name),
        None => Err("no tempalte name specified".to_owned()),
    }
}

/// Whether `name` names the diploma thesis template (`dipl`, or `diploma` as
/// the README writes the command).
pub open spec fn names_diploma(name: Seq<char>) -> bool {
    name == "dipl"@ || name == "diploma"@
}

/// The template that `name` names, or the error that it names none.
pub fn select_template(name: &str) -> (res: Result<InitTemplate, String>)
    ensures
        names_diploma(name@) ==> res is Ok,
        !names_diploma(name@) ==> (res matches Err(e) && e@ == "template named "@ + name@
            + " not implemented"@),
{
    let given = name.to_owned();
    if given == "dipl".to_owned() || given == "diploma".to_owned() {
        Ok(InitTemplate::Diploma)
    } else {
        let mut e = "template named ".to_owned();
        e.append(name);
        e.append(" not implemented");
        Err(e)
    }
}

/// The flake output that holds the revision of the latest htldoc.
pub fn latest_htldoc_rev_ref() -> (res: String)
    ensures
        res@ == "github:c2vi/htldoc#self.rev"@,
{
    "github:c2vi/htldoc#self.rev".to_owned()
}

/// The htldoc version pinned to the revision `rev` of its GitHub repository.
pub fn pinned_htldoc_version(rev: &str) -> (res: String)
    ensures
        res@ == "github:c2vi/htldoc/"@ + rev@,
{
    let mut res = "github:c2vi/htldoc/".to_owned();
    res.append(rev);
    res
}

/// The Nix expression whose value is the `htldoc.nix` of a new diploma thesis.
pub fn dipl_htldoc_nix_expr(template_dir: &str, htldoc_version: &str) -> (res: String)
    ensures
        res@ == "import "@ + template_dir@ + "/diplomarbeit/htldoc-nix.nix { htldocVersion = \""@
            + htldoc_version@ + "\"; }"@,
{
    let mut res = "import ".to_owned();
    res.append(template_dir);
    res.append("/diplomarbeit/htldoc-nix.nix { htldocVersion = \"");
    res.append(htldoc_version);
    res.append("\"; }");
    res
}

/// The `.gitignore` of a new document: the build directory is not tracked.
pub fn gitignore_text() -> (res: String)
    ensures
        res@ == "/build\n"@,
{
    "/build\n".to_owned()
}

} // verus!
