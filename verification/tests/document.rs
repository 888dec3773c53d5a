use htldoc::document::{
    chapter_file_path, chapter_file_place, chapters_from_json, ChaptersError,
    chapter_heading_text, chapters_expr, chapters_text, document_template, file_base_name, file_extension,
    found_src_file, input_line_text, latex_file_name, pandoc_input_format, settings_tex_expr, src_file_from_path,
    src_file_type, template_expr, ChapterText, SrcFileType,
};

#[test]
fn base_name_is_up_to_first_dot() {
    assert_eq!(file_base_name("intro.v2.md"), "intro");
    assert_eq!(file_base_name("README"), "README");
    assert_eq!(file_base_name(".hidden.tex"), "");
    assert_eq!(file_base_name(""), "");
}

#[test]
fn extension_is_after_last_dot() {
    assert_eq!(file_extension("intro.v2.md"), "md");
    assert_eq!(file_extension("README"), "README");
    assert_eq!(file_extension("name."), "");
}

#[test]
fn kinds_of_sources() {
    assert!(matches!(src_file_type("md"), Some(SrcFileType::Markdown)));
    assert!(matches!(src_file_type("typ"), Some(SrcFileType::Typst)));
    assert!(matches!(src_file_type("tex"), Some(SrcFileType::Latex)));
    assert!(src_file_type("png").is_none());
    assert!(src_file_type("MD").is_none());
}

#[test]
fn chapter_file_from_path() {
    let f = src_file_from_path("methods.typ", "/p/src/methods.typ").unwrap();
    assert_eq!(f.name, "methods");
    assert_eq!(f.file_name, "methods.typ");
    assert_eq!(f.path, "/p/src/methods.typ");
    assert!(matches!(f.kind, SrcFileType::Typst));
    assert!(src_file_from_path("logo.png", "/p/src/logo.png").is_none());
    assert!(src_file_from_path("abstract.md", "/p/src/abstract.md").is_some());
}

#[test]
fn abstract_and_other_files_do_not_take_part() {
    assert!(found_src_file("abstract.md", "/p/src/abstract.md").is_none());
    assert!(found_src_file("figure.png", "/p/src/figure.png").is_none());
    let f = found_src_file("intro.md", "/p/src/intro.md").unwrap();
    assert_eq!(f.name, "intro");
    assert!(matches!(f.kind, SrcFileType::Markdown));
}

#[test]
fn only_dipl_documents_are_built() {
    assert!(document_template("dipl").is_some());
    assert!(document_template("diploma").is_none());
}

#[test]
fn expressions_read_htldoc_nix() {
    assert_eq!(template_expr("/p"), "let userConfig = import /p/htldoc.nix { }; in userConfig.template");
    assert_eq!(chapters_expr("/p"), "let config = import /p/htldoc.nix {}; in config.chapters");
}

#[test]
fn conversion_per_kind() {
    assert_eq!(pandoc_input_format(&SrcFileType::Markdown).as_deref(), Some("markdown"));
    assert_eq!(pandoc_input_format(&SrcFileType::Typst).as_deref(), Some("typst"));
    assert_eq!(pandoc_input_format(&SrcFileType::Latex), None);
    assert_eq!(latex_file_name("intro"), "intro.tex");
}

#[test]
fn chapter_text_pieces() {
    assert_eq!(
        chapter_heading_text("Intro", "ch:intro"),
        "\n            \\\\chapter{ Intro }\n            \\\\label{ ch:intro }\n        "
    );
    assert_eq!(input_line_text("src", "intro"), "\n                \\\\input{ src/intro }\n            ");
}

#[test]
fn chapters_text_concatenates_in_order() {
    let chapters = vec![
        ChapterText {
            name: "A".to_string(),
            reference: "a".to_string(),
            inputs: vec![("src".to_string(), "x".to_string()), ("src/sub".to_string(), "y".to_string())],
        },
        ChapterText { name: "B".to_string(), reference: "b".to_string(), inputs: vec![] },
    ];
    let expected = format!(
        "{}{}{}{}",
        chapter_heading_text("A", "a"),
        input_line_text("src", "x"),
        input_line_text("src/sub", "y"),
        chapter_heading_text("B", "b")
    );
    assert_eq!(chapters_text(&chapters), expected);
    assert_eq!(chapters_text(&Vec::new()), "");
}

#[test]
fn settings_expression() {
    let e = settings_tex_expr("github:c2vi/htldoc/master", "/t", "/s", "TEXT");
    assert!(e.contains("htldocFlake = builtins.getFlake \"github:c2vi/htldoc/master\";"));
    assert!(e.contains("defaultConfig = import /t/diplomarbeit/default-config.nix { };"));
    assert!(e.contains("userConfig = import /s/htldoc.nix { };"));
    assert!(e.contains("config = userConfig // defaultConfig // { chapters_text = \"TEXT\"; };"));
    assert!(e.contains("in import /t/diplomarbeit/latex_template_htlinn/template/settings-tex.nix { inherit config lib; }"));
}

#[test]
fn chapter_file_paths() {
    assert_eq!(chapter_file_path("/p", "sub/a.md"), "/p/src/sub/a.md");
}

fn specs(text: &str) -> Vec<(String, Vec<String>, String)> {
    match chapters_from_json(text) {
        Ok(v) => v.into_iter().map(|c| (c.name, c.file_names, c.reference)).collect(),
        Err(_) => panic!("chapters expected"),
    }
}

#[test]
fn chapters_are_read_from_json() {
    let text = r#"[["Einleitung","intro.md","ch:intro"],["Methoden",["a.typ","sub/b.tex"],"ch:methods",42]]"#;
    assert_eq!(
        specs(text),
        vec![
            ("Einleitung".to_string(), vec!["intro.md".to_string()], "ch:intro".to_string()),
            ("Methoden".to_string(), vec!["a.typ".to_string(), "sub/b.tex".to_string()], "ch:methods".to_string()),
        ]
    );
    assert!(specs("[]").is_empty());
    assert_eq!(specs(r#" [ ["A", [], "a"] ] "#), vec![("A".to_string(), vec![], "a".to_string())]);
}

#[test]
fn malformed_chapters_are_errors() {
    assert!(matches!(chapters_from_json("[[\"A\""), Err(ChaptersError::NotJson)));
    assert!(matches!(chapters_from_json("{\"a\": 1}"), Err(ChaptersError::NotAnArray)));
    assert!(matches!(chapters_from_json("[\"A\"]"), Err(ChaptersError::ChapterNotAnArray)));
    assert!(matches!(chapters_from_json("[[\"A\", \"a.md\"]]"), Err(ChaptersError::MissingEntry)));
    assert!(matches!(chapters_from_json("[[]]"), Err(ChaptersError::MissingEntry)));
    assert!(matches!(chapters_from_json("[[1, \"a.md\", \"r\"]]"), Err(ChaptersError::NotAString)));
    assert!(matches!(chapters_from_json("[[\"A\", [\"a.md\", 2], \"r\"]]"), Err(ChaptersError::NotAString)));
    assert!(matches!(chapters_from_json("[[\"A\", null, \"r\"]]"), Err(ChaptersError::FilesNotAList)));
    assert!(matches!(chapters_from_json("[[\"A\", \"a.md\", \"r\"], 3]"), Err(ChaptersError::ChapterNotAnArray)));
}

#[test]
fn chapter_files_are_placed_relative_to_the_project() {
    let place = chapter_file_place("/p/src/sub/b.tex", "/p").unwrap();
    assert_eq!(place.rel_path, "src/sub/b.tex");
    assert_eq!(place.dir, "src/sub");
    let top = chapter_file_place("/p/src/a.md", "/p").unwrap();
    assert_eq!(top.rel_path, "src/a.md");
    assert_eq!(top.dir, "src");
    assert!(chapter_file_place("src/a.md", "/p").is_none());
}
