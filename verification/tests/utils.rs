use htldoc::utils::{
    drop_last_char, flake_ref, htldoc_version, htldoc_version_expr, nixpkgs_package, nixpkgs_version,
    nixpkgs_version_from_flake, NixosVersionProbe, NixpkgsVersionStep,
};

#[test]
fn htldoc_version_strips_quotes_and_line_break() {
    assert_eq!(htldoc_version("\"github:c2vi/htldoc/master\"\n"), "github:c2vi/htldoc/master");
    assert_eq!(htldoc_version("\"\"\n"), "");
}

#[test]
fn htldoc_version_expr_defaults_to_master() {
    let expr = htldoc_version_expr();
    assert!(expr.contains("import ./htldoc.nix { }"));
    assert!(expr.contains("then config.htldocVersion else \"github:c2vi/htldoc/master\""));
}

#[test]
fn drop_last_char_removes_line_break() {
    assert_eq!(drop_last_char("abc\n"), "abc");
    assert_eq!(drop_last_char("x"), "");
    assert_eq!(drop_last_char(""), "");
    assert_eq!(drop_last_char("ä€"), "ä");
}

#[test]
fn nixos_revision_is_used_when_available() {
    match nixpkgs_version(NixosVersionProbe::Succeeded("abcdef\n".to_string())) {
        NixpkgsVersionStep::Found(v) => assert_eq!(v, "abcdef"),
        _ => panic!("expected a revision"),
    }
}

#[test]
fn missing_nixos_version_asks_the_flake() {
    assert!(matches!(nixpkgs_version(NixosVersionProbe::NotAvailable), NixpkgsVersionStep::AskHtldocFlake));
}

#[test]
fn failing_nixos_version_aborts() {
    assert!(matches!(nixpkgs_version(NixosVersionProbe::Failed), NixpkgsVersionStep::Abort));
}

#[test]
fn flake_revision_or_master() {
    assert_eq!(nixpkgs_version_from_flake(Some("1234".to_string())), "1234");
    assert_eq!(nixpkgs_version_from_flake(None), "master");
}

#[test]
fn flake_references() {
    assert_eq!(flake_ref("github:c2vi/htldoc/master", "self.outPath"), "github:c2vi/htldoc/master#self.outPath");
    assert_eq!(nixpkgs_package("abc", "pandoc"), "nixpkgs/abc#pandoc");
}
