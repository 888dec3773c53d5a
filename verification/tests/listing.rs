use htldoc::gen_listing::{
    build_verbose_flag, calculate_file_hash, commit_date, generate_html_index, index_item_text,
    listing_config_expr_text, pdf_file_name, sort_by_time, to_hex_lower, upload_steps, CommitAction,
    Config, ListingEntry, ListingState, PdfAction, UploadStep,
};

fn entry(commit: &str, time: i64, pdf: &str) -> ListingEntry {
    ListingEntry { commit: commit.to_string(), time, pdf: pdf.to_string() }
}

#[test]
fn hex_of_bytes_is_lower_case_two_digits_each() {
    assert_eq!(to_hex_lower(&[0x00, 0x0f, 0xbe, 0xef, 0xff]), "000fbeefff");
    assert_eq!(to_hex_lower(&[]), "");
}

#[test]
fn file_hash_is_sha256_in_hex() {
    assert_eq!(
        calculate_file_hash(b""),
        "e3b0c44298fc1c149afbf4c8996fb92427ae41e4649b934ca495991b7852b855"
    );
    assert_eq!(
        calculate_file_hash(b"abc"),
        "ba7816bf8f01cfea414140de5dae2223b00361a396177a9cb410ff61f20015ad"
    );
    assert_eq!(calculate_file_hash(b"%PDF-1.5").len(), 64);
}

#[test]
fn pdf_is_named_after_commit() {
    assert_eq!(pdf_file_name("0123abcd"), "0123abcd.pdf");
}

#[test]
fn commit_dates_are_utc() {
    assert_eq!(commit_date(0), "1970-01-01 00:00:00");
    assert_eq!(commit_date(1725029869), "2024-08-30 14:57:49");
    assert_eq!(commit_date(-1), "1969-12-31 23:59:59");
}

#[test]
fn out_of_range_commit_date_is_unknown() {
    assert_eq!(commit_date(i64::MAX), "Unknown date");
    assert_eq!(commit_date(i64::MIN), "Unknown date");
}

#[test]
fn sort_is_by_time_and_stable() {
    let list = vec![entry("c", 30, "c.pdf"), entry("a", 10, "a.pdf"), entry("b1", 20, "b1.pdf"), entry("b2", 20, "b2.pdf"), entry("z", 10, "z.pdf")];
    let sorted = sort_by_time(&list);
    let order: Vec<&str> = sorted.iter().map(|e| e.commit.as_str()).collect();
    assert_eq!(order, vec!["a", "z", "b1", "b2", "c"]);
    assert_eq!(sort_by_time(&Vec::new()).len(), 0);
}

#[test]
fn index_item_links_pdf_and_commit() {
    let item = index_item_text(&entry("abc", 0, "abc.pdf"), "https://github.com/me/thesis", "/out/listing");
    assert_eq!(
        item,
        "<li><a href='/out/listing/abc.pdf'>abc</a> - <a href='https://github.com/me/thesis/commit/abc'>1970-01-01 00:00:00</a></li>"
    );
}

#[test]
fn index_page_lists_commits_oldest_first() {
    let list = vec![entry("new", 86400, "new.pdf"), entry("old", 0, "old.pdf")];
    let page = generate_html_index(&list, "u", "d");
    assert_eq!(
        page,
        "<html><head><title>Commit PDFs</title></head><body><h1>Commit PDFs</h1><ul>\
<li><a href='d/old.pdf'>old</a> - <a href='u/commit/old'>1970-01-01 00:00:00</a></li>\
<li><a href='d/new.pdf'>new</a> - <a href='u/commit/new'>1970-01-02 00:00:00</a></li>\
</ul></body></html>"
    );
}

#[test]
fn empty_index_page() {
    assert_eq!(
        generate_html_index(&Vec::new(), "u", "d"),
        "<html><head><title>Commit PDFs</title></head><body><h1>Commit PDFs</h1><ul></ul></body></html>"
    );
}

/// Drives a listing run over a walk of (commit, time, pdf hash) and returns
/// the listed commits and the commits that were built.
fn run(start: &str, walk: &[(&str, i64, &str)]) -> (Vec<String>, Vec<String>) {
    let mut state = ListingState::new(start.to_string());
    let mut built = Vec::new();
    for (id, time, hash) in walk {
        match state.on_commit(id) {
            CommitAction::Skip => {}
            CommitAction::Build => {
                built.push(id.to_string());
                let _ = state.on_pdf_built(id, *time, hash.to_string());
            }
        }
    }
    (state.entries.iter().map(|e| e.commit.clone()).collect(), built)
}

#[test]
fn listing_keeps_only_changed_pdfs() {
    let walk = [("a", 1, "h1"), ("b", 2, "h1"), ("c", 3, "h2"), ("d", 4, "h2"), ("e", 5, "h1")];
    let (listed, built) = run("", &walk);
    assert_eq!(listed, vec!["a", "c", "e"]);
    assert_eq!(built, vec!["a", "b", "c", "d", "e"]);
}

#[test]
fn listing_starts_at_start_commit() {
    let walk = [("a", 1, "h1"), ("b", 2, "h1"), ("c", 3, "h2"), ("d", 4, "h3")];
    let (listed, built) = run("b", &walk);
    assert_eq!(listed, vec!["b", "c", "d"]);
    assert_eq!(built, vec!["b", "c", "d"]);
}

#[test]
fn listing_with_unknown_start_commit_is_empty() {
    let walk = [("a", 1, "h1"), ("b", 2, "h2")];
    let (listed, built) = run("zzz", &walk);
    assert!(listed.is_empty());
    assert!(built.is_empty());
}

#[test]
fn listing_entry_records_time_and_pdf() {
    let mut state = ListingState::new(String::new());
    assert!(matches!(state.on_commit("abc"), CommitAction::Build));
    assert!(matches!(state.on_pdf_built("abc", 42, "h".to_string()), PdfAction::Keep));
    assert!(matches!(state.on_pdf_built("abd", 43, "h".to_string()), PdfAction::Discard));
    assert_eq!(state.entries.len(), 1);
    assert_eq!(state.entries[0].commit, "abc");
    assert_eq!(state.entries[0].time, 42);
    assert_eq!(state.entries[0].pdf, "abc.pdf");
    assert_eq!(state.last_pdf_hash.as_deref(), Some("h"));
}

#[test]
fn listing_config_has_defaults_under_build_dir() {
    let expr = listing_config_expr_text("/p/build");
    assert!(expr.contains("branch = \"master\";"));
    assert!(expr.contains("pdf_output_dir = \"/p/build/listing\";"));
    assert!(expr.contains("html_index_file = \"/p/build/listing/index.html\";"));
    assert!(expr.contains("startingCommit = \"\";"));
    assert!(expr.contains("in default // (if builtins.hasAttr \"genListing\" config then config.genListing else { })"));
}

fn config(rsync: &str, command: &str) -> Config {
    Config {
        branch_name: "master".to_string(),
        start_commit: String::new(),
        pdf_output_dir: "/out".to_string(),
        html_index_file: "/out/index.html".to_string(),
        github_repo_url: String::new(),
        rsync_destination_arg: rsync.to_string(),
        upload_command: command.to_string(),
    }
}

#[test]
fn uploads_follow_the_options() {
    assert!(upload_steps(&config("", "")).is_empty());
    let both = upload_steps(&config("host:/www", "echo $LISTING_OUT_DIR"));
    assert_eq!(both.len(), 2);
    match &both[0] {
        UploadStep::Rsync { source, destination } => {
            assert_eq!(source, "/out/");
            assert_eq!(destination, "host:/www");
        }
        _ => panic!("rsync expected first"),
    }
    match &both[1] {
        UploadStep::Command(c) => assert_eq!(c, "echo $LISTING_OUT_DIR"),
        _ => panic!("command expected last"),
    }
    let only_command = upload_steps(&config("", "true"));
    assert_eq!(only_command.len(), 1);
    assert!(matches!(&only_command[0], UploadStep::Command(c) if c == "true"));
}

#[test]
fn verbose_flag() {
    assert_eq!(build_verbose_flag(true), "-v");
    assert_eq!(build_verbose_flag(false), "");
}
