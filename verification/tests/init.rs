use htldoc::init::{
    dipl_htldoc_nix_expr, gitignore_text, latest_htldoc_rev_ref, pinned_htldoc_version, requested_template,
    select_template, InitTemplate,
};

#[test]
fn missing_template_is_an_error() {
    assert_eq!(requested_template(None), Err("no tempalte name specified".to_string()));
    assert_eq!(requested_template(Some("dipl".to_string())), Ok("dipl".to_string()));
}

#[test]
fn diploma_template_is_known() {
    assert!(matches!(select_template("dipl"), Ok(InitTemplate::Diploma)));
    assert!(matches!(select_template("diploma"), Ok(InitTemplate::Diploma)));
}

#[test]
fn other_templates_are_not_implemented() {
    match select_template("report") {
        Err(e) => assert_eq!(e, "template named report not implemented"),
        Ok(_) => panic!("unexpected template"),
    }
    assert!(select_template("").is_err());
    assert!(select_template("Dipl").is_err());
}

#[test]
fn pinned_version_names_the_revision() {
    assert_eq!(pinned_htldoc_version("0abc"), "github:c2vi/htldoc/0abc");
    assert_eq!(latest_htldoc_rev_ref(), "github:c2vi/htldoc#self.rev");
}

#[test]
fn htldoc_nix_expression() {
    assert_eq!(
        dipl_htldoc_nix_expr("/nix/store/x-source", "github:c2vi/htldoc/0abc"),
        "import /nix/store/x-source/diplomarbeit/htldoc-nix.nix { htldocVersion = \"github:c2vi/htldoc/0abc\"; }"
    );
}

#[test]
fn gitignore_ignores_build() {
    assert_eq!(gitignore_text(), "/build\n");
}
