//! `htldoc build`: which source files make up a document, how each one enters
//! the LaTeX build, the chapter text and the Nix expressions of a build.

use vstd::prelude::*;

verus! {

/// The kinds of source files that a document is written in.
pub enum SrcFileType {
    Latex,
    Typst,
    Markdown,
}

/// The characters of a file name before its first `.` (all of them when it has none).
pub open spec fn base_name(s: Seq<char>) -> Seq<char>
    decreases s.len(),
{
    if s.len() == 0 {
        s
    } else if s[0] == '.' {
        Seq::empty()
    } else {
        seq![s[0]] + base_name(s.drop_first())
    }
}

/// The characters of a file name after its last `.` (all of them when it has none).
pub open spec fn extension(s: Seq<char>) -> Seq<char>
    decreases s.len(),
{
    if s.len() == 0 {
        s
    } else if s.last() == '.' {
        Seq::empty()
    } else {
        extension(s.drop_last()).push(s.last())
    }
}

proof fn lemma_base_name_at(s: Seq<char>, i: int)
    requires
        0 <= i <= s.len(),
        forall|j: int| 0 <= j < i ==> s[j] != '.',
        i == s.len() || s[i] == '.',
    ensures
        base_name(s) == s.take(i),
    decreases i,
{
    if i == 0 {
        if s.len() > 0 {
            assert(s[0] == '.');
        }
        assert(s.take(0) =~= Seq::<char>::empty());
        assert(s.len() == 0 ==> s =~= Seq::<char>::empty());
    } else {
        let rest = s.drop_first();
        assert forall|j: int| 0 <= j < i - 1 implies rest[j] != '.' by {
            assert(rest[j] == s[j + 1]);
        }
        if i < s.len() {
            assert(rest[i - 1] == s[i]);
        }
        lemma_base_name_at(rest, i - 1);
        assert(s.take(i) =~= seq![s[0]] + rest.take(i - 1));
    }
}

proof fn lemma_extension_from(s: Seq<char>, i: int)
    requires
        0 <= i <= s.len(),
        forall|j: int| i <= j < s.len() ==> s[j] != '.',
        i == 0 || s[i - 1] == '.',
    ensures
        extension(s) == s.skip(i),
    decreases s.len() - i,
{
    if i == s.len() {
        if s.len() > 0 {
            assert(s.last() == '.');
        }
        assert(s.skip(i) =~= Seq::<char>::empty());
        assert(s.len() == 0 ==> s =~= Seq::<char>::empty());
    } else {
        let rest = s.drop_last();
        lemma_extension_from(rest, i);
        assert(s.skip(i) =~= rest.skip(i).push(s.last()));
    }
}

/// The name of a source file: its file name up to the first `.`.
pub fn file_base_name(file_name: &str) -> (res: String)
    ensures
        res@ == base_name(file_name@),
        res@ == file_name@.take(res@.len() as int),
        forall|j: int| 0 <= j < res@.len() ==> file_name@[j] != '.',
        res@.len() == file_name@.len() || file_name@[res@.len() as int] == '.',
{
    let n = file_name.unicode_len();
    let mut i: usize = 0;
    while i < n && file_name.get_char(i) != '.'
        invariant
            i <= n,
            n == file_name@.len(),
            forall|j: int| 0 <= j < i ==> file_name@[j] != '.',
        decreases n - i,
    {
        i = i + 1;
    }
    proof {
        lemma_base_name_at(file_name@, i as int);
    }
    let res = file_name.substring_char(0, i).to_owned();
    assert(res@ =~= file_name@.take(i as int));
    res
}

/// The extension of a source file: its file name after the last `.`.
pub fn file_extension(file_name: &str) -> (res: String)
    ensures
        res@ == extension(file_name@),
        res@ == file_name@.skip(file_name@.len() - res@.len()),
        res@.len() <= file_name@.len(),
        forall|j: int| file_name@.len() - res@.len() <= j < file_name@.len() ==> file_name@[j] != '.',
        res@.len() == file_name@.len() || file_name@[file_name@.len() - res@.len() - 1] == '.',
{
    let n = file_name.unicode_len();
    let mut i: usize = n;
    while i > 0 && file_name.get_char(i - 1) != '.'
        invariant
            i <= n,
            n == file_name@.len(),
            forall|j: int| i <= j < n ==> file_name@[j] != '.',
        decreases i,
    {
        i = i - 1;
    }
    proof {
        lemma_extension_from(file_name@, i as int);
    }
    let res = file_name.substring_char(i, n).to_owned();
    assert(res@ =~= file_name@.skip(i as int));
    res
}

/// The kind of source file an extension stands for, if any: `md` Markdown,
/// `typ` Typst, `tex` LaTeX.
pub open spec fn kind_of_extension(ext: Seq<char>) -> Option<SrcFileType> {
    if ext == "md"@ {
        Some(SrcFileType::Markdown)
    } else if ext == "typ"@ {
        Some(SrcFileType::Typst)
    } else if ext == "tex"@ {
        Some(SrcFileType::Latex)
    } else {
        None
    }
}

/// The kind of source file with extension `ext`.
pub fn src_file_type(ext: &str) -> (res: Option<SrcFileType>)
    ensures
        res == kind_of_extension(ext@),
{
    let e = ext.to_owned();
    if e == "md".to_owned() {
        Some(SrcFileType::Markdown)
    } else if e == "typ".to_owned() {
        Some(SrcFileType::Typst)
    } else if e == "tex".to_owned() {
        Some(SrcFileType::Latex)
    } else {
        None
    }
}

/// A source file of a document.
pub struct SrcFile {
    /// The file name up to its first `.`.
    pub name: String,
    /// The whole file name.
    pub file_name: String,
    /// Where the file is.
    pub path: String,
    /// The kind of source.
    pub kind: SrcFileType,
}

/// The source file of a chapter with file name `file_name` at `path`; `None`
/// when its extension is not that of a supported kind.
pub fn src_file_from_path(file_name: &str, path: &str) -> (res: Option<SrcFile>)
    ensures
        match kind_of_extension(extension(file_name@)) {
            Some(kind) => res matches Some(f) && f.name@ == base_name(file_name@) && f.file_name@
                == file_name@ && f.path@ == path@ && f.kind == kind,
            None => res is None,
        },
{
    let ext = file_extension(file_name);
    match src_file_type(ext.as_str()) {
        Some(kind) => Some(
            SrcFile {
                name: file_base_name(file_name),
                file_name: file_name.to_owned(),
                path: path.to_owned(),
                kind,
            },
        ),
        None => None,
    }
}

/// Whether a file found in the source directory takes part in the build: the
/// abstract is included on its own, and only supported kinds count.
pub open spec fn takes_part(file_name: Seq<char>) -> bool {
    base_name(file_name) != "abstract"@ && kind_of_extension(extension(file_name)) is Some
}

/// The source file found as `file_name` at `path` in the source directory, or
/// `None` when it does not take part in the build.
pub fn found_src_file(file_name: &str, path: &str) -> (res: Option<SrcFile>)
    ensures
        takes_part(file_name@) ==> (res matches Some(f) && f.name@ == base_name(file_name@)
            && f.file_name@ == file_name@ && f.path@ == path@ && Some(f.kind) == kind_of_extension(
            extension(file_name@),
        )),
        !takes_part(file_name@) ==> res is None,
{
    let name = file_base_name(file_name);
    if name == "abstract".to_owned() {
        return None;
    }
    src_file_from_path(file_name, path)
}

/// The templates that `htldoc build` can build.
pub enum DocumentTemplate {
    /// The diploma thesis of the HTL Anichstraße.
    Diploma,
}

/// The template that the `template` of `htldoc.nix` names: only `dipl` is known.
pub fn document_template(name: &str) -> (res: Option<DocumentTemplate>)
    ensures
        res is Some <==> name@ == "dipl"@,
{
    if name.to_owned() == "dipl".to_owned() {
        Some(DocumentTemplate::Diploma)
    } else {
        None
    }
}

/// The Nix expression whose value is the `template` of the project's `htldoc.nix`.
pub fn template_expr(src_dir: &str) -> (res: String)
    ensures
        res@ == "let userConfig = import "@ + src_dir@ + "/htldoc.nix { }; in userConfig.template"@,
{
    let mut res = "let userConfig = import ".to_owned();
    res.append(src_dir);
    res.append("/htldoc.nix { }; in userConfig.template");
    res
}

/// The Nix expression whose value is the `chapters` of the project's `htldoc.nix`.
pub fn chapters_expr(src_dir: &str) -> (res: String)
    ensures
        res@ == "let config = import "@ + src_dir@ + "/htldoc.nix {}; in config.chapters"@,
{
    let mut res = "let config = import ".to_owned();
    res.append(src_dir);
    res.append("/htldoc.nix {}; in config.chapters");
    res
}

/// The input format that pandoc converts a source of this kind from; LaTeX
/// sources are copied as they are.
pub open spec fn pandoc_format(kind: SrcFileType) -> Option<Seq<char>> {
    match kind {
        SrcFileType::Latex => None,
        SrcFileType::Markdown => Some("markdown"@),
        SrcFileType::Typst => Some("typst"@),
    }
}

/// The input format that pandoc converts a source of kind `kind` from.
pub fn pandoc_input_format(kind: &SrcFileType) -> (res: Option<String>)
    ensures
        match res {
            Some(f) => pandoc_format(*kind) == Some(f@),
            None => pandoc_format(*kind) is None,
        },
{
    match kind {
        SrcFileType::Latex => None,
        SrcFileType::Markdown => Some("markdown".to_owned()),
        SrcFileType::Typst => Some("typst".to_owned()),
    }
}

/// The name of the LaTeX file that a source named `name` becomes.
pub fn latex_file_name(name: &str) -> (res: String)
    ensures
        res@ == name@ + ".tex"@,
{
    let mut res = name.to_owned();
    res.append(".tex");
    res
}

/// A chapter as it enters the LaTeX text: its name, its label, and for each
/// of its files the directory (relative to the source directory) and name.
pub struct ChapterText {
    pub name: String,
    pub reference: String,
    pub inputs: Vec<(String, String)>,
}

/// The heading of a chapter, written for a Nix string (hence the doubled backslashes).
pub open spec fn chapter_heading(name: Seq<char>, reference: Seq<char>) -> Seq<char> {
    "\n            \\\\chapter{ "@ + name + " }\n            \\\\label{ "@ + reference
        + " }\n        "@
}

/// The line that includes the file `name` from the directory `dir`.
pub open spec fn input_line(dir: Seq<char>, name: Seq<char>) -> Seq<char> {
    "\n                \\\\input{ "@ + dir + "/"@ + name + " }\n            "@
}

/// The include lines of all files of a chapter, in order.
pub open spec fn input_lines(inputs: Seq<(String, String)>) -> Seq<char>
    decreases inputs.len(),
{
    if inputs.len() == 0 {
        Seq::empty()
    } else {
        input_lines(inputs.drop_last()) + input_line(inputs.last().0@, inputs.last().1@)
    }
}

/// The text of one chapter: its heading, then its include lines.
pub open spec fn chapter_block(c: ChapterText) -> Seq<char> {
    chapter_heading(c.name@, c.reference@) + input_lines(c.inputs@)
}

/// The text of all chapters, in order.
pub open spec fn chapters_block(chapters: Seq<ChapterText>) -> Seq<char>
    decreases chapters.len(),
{
    if chapters.len() == 0 {
        Seq::empty()
    } else {
        chapters_block(chapters.drop_last()) + chapter_block(chapters.last())
    }
}

/// Every file of a chapter is included once, in order: the include lines of a
/// list with one more file are the lines of the list followed by that file's line.
pub proof fn lemma_input_lines_push(inputs: Seq<(String, String)>, x: (String, String))
    ensures
        input_lines(inputs.push(x)) == input_lines(inputs) + "\n                \\\\input{ "@ + x.0@
            + "/"@ + x.1@ + " }\n            "@,
        input_lines(Seq::empty()) == Seq::<char>::empty(),
{
    assert(inputs.push(x).drop_last() =~= inputs);
}

/// Every chapter is written once, in order, with all its files: the text of a
/// chapter list with one more chapter is the text of the list, then that
/// chapter's heading, then the include lines of all of its files.
pub proof fn lemma_chapters_block_push(chapters: Seq<ChapterText>, c: ChapterText)
    ensures
        chapters_block(chapters.push(c)) == chapters_block(chapters) + "\n            \\\\chapter{ "@
            + c.name@ + " }\n            \\\\label{ "@ + c.reference@ + " }\n        "@ + input_lines(
            c.inputs@,
        ),
        chapters_block(Seq::empty()) == Seq::<char>::empty(),
{
    assert(chapters.push(c).drop_last() =~= chapters);
}

/// The heading of the chapter `name` with label `reference`.
pub fn chapter_heading_text(name: &str, reference: &str) -> (res: String)
    ensures
        res@ == chapter_heading(name@, reference@),
        res@ == "\n            \\\\chapter{ "@ + name@ + " }\n            \\\\label{ "@ + reference@
            + " }\n        "@,
{
    let mut res = "\n            \\\\chapter{ ".to_owned();
    res.append(name);
    res.append(" }\n            \\\\label{ ");
    res.append(reference);
    res.append(" }\n        ");
    res
}

/// The line that includes the file `name` from the directory `dir`.
pub fn input_line_text(dir: &str, name: &str) -> (res: String)
    ensures
        res@ == input_line(dir@, name@),
        res@ == "\n                \\\\input{ "@ + dir@ + "/"@ + name@ + " }\n            "@,
{
    let mut res = "\n                \\\\input{ ".to_owned();
    res.append(dir);
    res.append("/");
    res.append(name);
    res.append(" }\n            ");
    res
}

/// The chapter text of a document: for each chapter its heading and the
/// lines that include its files.
pub fn chapters_text(chapters: &Vec<ChapterText>) -> (res: String)
    ensures
        res@ == chapters_block(chapters@),
{
    let mut res = String::new();
    let mut i: usize = 0;
    while i < chapters.len()
        invariant
            i <= chapters@.len(),
            res@ == chapters_block(chapters@.take(i as int)),
        decreases chapters@.len() - i,
    {
        let c = &chapters[i];
        let heading = chapter_heading_text(c.name.as_str(), c.reference.as_str());
        res.append(heading.as_str());
        let mut k: usize = 0;
        while k < c.inputs.len()
            invariant
                k <= c.inputs@.len(),
                c == chapters@[i as int],
                i < chapters@.len(),
                res@ == chapters_block(chapters@.take(i as int)) + chapter_heading(c.name@, c.reference@)
                    + input_lines(c.inputs@.take(k as int)),
            decreases c.inputs@.len() - k,
        {
            let line = input_line_text(c.inputs[k].0.as_str(), c.inputs[k].1.as_str());
            res.append(line.as_str());
            assert(c.inputs@.take(k + 1).drop_last() =~= c.inputs@.take(k as int));
            k = k + 1;
        }
        assert(c.inputs@.take(c.inputs@.len() as int) =~= c.inputs@);
        assert(chapters@.take(i + 1).drop_last() =~= chapters@.take(i as int));
        i = i + 1;
    }
    assert(chapters@.take(chapters@.len() as int) =~= chapters@);
    res
}

/// The Nix expression that renders `template/settings.tex` of the diploma
/// thesis from the project's `htldoc.nix`, the template's defaults and the
/// chapter text.
pub open spec fn settings_expr(
    htldoc_version: Seq<char>,
    template_dir: Seq<char>,
    src_dir: Seq<char>,
    chapter_text: Seq<char>,
) -> Seq<char> {
    "\n            let \n                htldocFlake = builtins.getFlake \""@ + htldoc_version
        + "\";\n                pkgs = import htldocFlake.inputs.nixpkgs {};\n                lib = pkgs.lib;\n                defaultConfig = import "@
        + template_dir + "/diplomarbeit/default-config.nix { };\n                userConfig = import "@
        + src_dir + "/htldoc.nix { };\n                config = userConfig // defaultConfig // { chapters_text = \""@
        + chapter_text + "\"; };\n            in import "@ + template_dir
        + "/diplomarbeit/latex_template_htlinn/template/settings-tex.nix { inherit config lib; }\n        "@
}

/// The Nix expression that renders `template/settings.tex`.
pub fn settings_tex_expr(htldoc_version: &str, template_dir: &str, src_dir: &str, chapter_text: &str) -> (res:
    String)
    ensures
        res@ == settings_expr(htldoc_version@, template_dir@, src_dir@, chapter_text@),
        res@ == "\n            let \n                htldocFlake = builtins.getFlake \""@ + htldoc_version@
            + "\";\n                pkgs = import htldocFlake.inputs.nixpkgs {};\n                lib = pkgs.lib;\n                defaultConfig = import "@
            + template_dir@ + "/diplomarbeit/default-config.nix { };\n                userConfig = import "@
            + src_dir@ + "/htldoc.nix { };\n                config = userConfig // defaultConfig // { chapters_text = \""@
            + chapter_text@ + "\"; };\n            in import "@ + template_dir@
            + "/diplomarbeit/latex_template_htlinn/template/settings-tex.nix { inherit config lib; }\n        "@,
{
    let mut res = "\n            let \n                htldocFlake = builtins.getFlake \"".to_owned();
    res.append(htldoc_version);
    res.append(
        "\";\n                pkgs = import htldocFlake.inputs.nixpkgs {};\n                lib = pkgs.lib;\n                defaultConfig = import ",
    );
    res.append(template_dir);
    res.append("/diplomarbeit/default-config.nix { };\n                userConfig = import ");
    res.append(src_dir);
    res.append("/htldoc.nix { };\n                config = userConfig // defaultConfig // { chapters_text = \"");
    res.append(chapter_text);
    res.append("\"; };\n            in import ");
    res.append(template_dir);
    res.append("/diplomarbeit/latex_template_htlinn/template/settings-tex.nix { inherit config lib; }\n        ");
    res
}

/// Where a chapter's file `file` lies: in the `src` directory of the project.
pub fn chapter_file_path(src_dir: &str, file: &str) -> (res: String)
    ensures
        res@ == src_dir@ + "/src/"@ + file@,
{
    let mut res = src_dir.to_owned();
    res.append("/src/");
    res.append(file);
    res
}

/// The `JsonValue` of the `json` crate, carried through as an opaque value.
#[verifier::external_type_specification]
#[verifier::external_body]
pub struct ExJsonValue(json::JsonValue);

/// What the chapter list needs of a JSON value: a string, an array, or
/// anything else.
pub enum JsonShape {
    Str(String),
    Array(Vec<JsonShape>),
    Other,
}

/// The shape of the JSON text `text` as `json::parse` reads it; `None` where
/// it is no JSON.
pub uninterp spec fn json_shape_of(text: Seq<char>) -> Option<JsonShape>;

/// The shape of a value of the `json` crate: its strings (short or long)
/// with their text, its arrays with their items, and everything else as
/// `Other`. Nothing is stated of it here; `parse_json_shape` states what it
/// gives together with `json::parse`.
#[verifier::external_body]
fn json_value_shape(v: &json::JsonValue) -> JsonShape {
    match v {
        json::JsonValue::Short(s) => JsonShape::Str(s.as_str().to_owned()),
        json::JsonValue::String(s) => JsonShape::Str(s.clone()),
        json::JsonValue::Array(items) => JsonShape::Array(items.iter().map(json_value_shape).collect()),
        _ => JsonShape::Other,
    }
}

/// Calls `json::parse` of the `json` crate on `text`. The contract names the
/// outcome `json_shape_of(text)`: `None` where `json::parse` fails, else the
/// shape of the parsed value, which depends on the text alone.
#[verifier::external_body]
fn parse_json_shape(text: &str) -> (res: Option<JsonShape>)
    ensures
        res == json_shape_of(text@),
{
    match json::parse(text) {
        Ok(v) => Some(json_value_shape(&v)),
        Err(_) => None,
    }
}

/// Why the chapter list of `htldoc.nix` cannot be read.
pub enum ChaptersError {
    /// `nix eval` did not print JSON.
    NotJson,
    /// The chapters definition is not an array.
    NotAnArray,
    /// A chapter definition is not an array.
    ChapterNotAnArray,
    /// A chapter definition lacks its name, its files or its label.
    MissingEntry,
    /// A chapter's name, label or one of its file names is not a string.
    NotAString,
    /// A chapter's files are neither a string nor an array.
    FilesNotAList,
}

/// A chapter as `htldoc.nix` defines it: its name, the names of its files
/// (relative to the `src` directory) and its label.
pub struct ChapterSpec {
    pub name: String,
    pub file_names: Vec<String>,
    pub reference: String,
}

/// The text of a string value.
pub open spec fn string_of(v: JsonShape) -> Option<Seq<char>> {
    match v {
        JsonShape::Str(s) => Some(s@),
        _ => None,
    }
}

/// The texts of an array's items, which must all be strings.
pub open spec fn strings_of(items: Seq<JsonShape>) -> Result<Seq<Seq<char>>, ChaptersError>
    decreases items.len(),
{
    if items.len() == 0 {
        Ok(Seq::empty())
    } else {
        match strings_of(items.drop_last()) {
            Err(e) => Err(e),
            Ok(prefix) => match string_of(items.last()) {
                Some(t) => Ok(prefix.push(t)),
                None => Err(ChaptersError::NotAString),
            },
        }
    }
}

/// The file names of a chapter: one string, or an array of strings.
pub open spec fn file_names_of(v: JsonShape) -> Result<Seq<Seq<char>>, ChaptersError> {
    match v {
        JsonShape::Str(s) => Ok(seq![s@]),
        JsonShape::Array(items) => strings_of(items@),
        JsonShape::Other => Err(ChaptersError::FilesNotAList),
    }
}

/// One chapter: an array of its name, its file names and its label, read in
/// that order (further items are ignored).
pub open spec fn chapter_of(v: JsonShape) -> Result<(Seq<char>, Seq<Seq<char>>, Seq<char>), ChaptersError> {
    match v {
        JsonShape::Array(items) => if items@.len() < 1 {
            Err(ChaptersError::MissingEntry)
        } else {
            match string_of(items@[0]) {
                None => Err(ChaptersError::NotAString),
                Some(name) => if items@.len() < 2 {
                    Err(ChaptersError::MissingEntry)
                } else {
                    match file_names_of(items@[1]) {
                        Err(e) => Err(e),
                        Ok(files) => if items@.len() < 3 {
                            Err(ChaptersError::MissingEntry)
                        } else {
                            match string_of(items@[2]) {
                                None => Err(ChaptersError::NotAString),
                                Some(reference) => Ok((name, files, reference)),
                            }
                        },
                    }
                },
            }
        },
        _ => Err(ChaptersError::ChapterNotAnArray),
    }
}

/// The chapters of a list, in order; the error of the first chapter that cannot be read.
pub open spec fn chapters_list(items: Seq<JsonShape>) -> Result<
    Seq<(Seq<char>, Seq<Seq<char>>, Seq<char>)>,
    ChaptersError,
>
    decreases items.len(),
{
    if items.len() == 0 {
        Ok(Seq::empty())
    } else {
        match chapters_list(items.drop_last()) {
            Err(e) => Err(e),
            Ok(prefix) => match chapter_of(items.last()) {
                Ok(c) => Ok(prefix.push(c)),
                Err(e) => Err(e),
            },
        }
    }
}

/// The chapters that a JSON value defines: it must be an array of chapters.
pub open spec fn chapters_of(v: JsonShape) -> Result<Seq<(Seq<char>, Seq<Seq<char>>, Seq<char>)>, ChaptersError> {
    match v {
        JsonShape::Array(items) => chapters_list(items@),
        _ => Err(ChaptersError::NotAnArray),
    }
}

/// The texts of a vector of strings.
pub open spec fn texts(v: Seq<String>) -> Seq<Seq<char>> {
    v.map_values(|s: String| s@)
}

/// The chapters of a vector of chapter specs, by their views.
pub open spec fn chapter_specs_view(v: Seq<ChapterSpec>) -> Seq<(Seq<char>, Seq<Seq<char>>, Seq<char>)> {
    v.map_values(|c: ChapterSpec| (c.name@, texts(c.file_names@), c.reference@))
}

/// The result of reading the chapters, by views.
pub open spec fn chapters_result_view(r: Result<Vec<ChapterSpec>, ChaptersError>) -> Result<
    Seq<(Seq<char>, Seq<Seq<char>>, Seq<char>)>,
    ChaptersError,
> {
    match r {
        Ok(v) => Ok(chapter_specs_view(v@)),
        Err(e) => Err(e),
    }
}

/// An array of strings gives their texts, item by item.
pub proof fn lemma_strings_of_strings(items: Seq<JsonShape>)
    requires
        forall|i: int| 0 <= i < items.len() ==> #[trigger] items[i] is Str,
    ensures
        strings_of(items) matches Ok(t) && t.len() == items.len() && forall|i: int|
            0 <= i < items.len() ==> Some(#[trigger] t[i]) == string_of(items[i]),
    decreases items.len(),
{
    if items.len() > 0 {
        let prev = items.drop_last();
        assert forall|i: int| 0 <= i < prev.len() implies #[trigger] prev[i] is Str by {
            assert(prev[i] == items[i]);
        }
        lemma_strings_of_strings(prev);
        assert(items.last() is Str);
    }
}

/// An array with an item that is no string gives `NotAString`.
pub proof fn lemma_strings_of_non_string(items: Seq<JsonShape>, k: int)
    requires
        0 <= k < items.len(),
        !(items[k] is Str),
    ensures
        strings_of(items) == Err::<Seq<Seq<char>>, ChaptersError>(ChaptersError::NotAString),
    decreases items.len(),
{
    let prev = items.drop_last();
    if k < items.len() - 1 {
        assert(prev[k] == items[k]);
        lemma_strings_of_non_string(prev, k);
    } else {
        lemma_strings_of_error_kind(prev);
    }
}

proof fn lemma_strings_of_error_kind(items: Seq<JsonShape>)
    ensures
        strings_of(items) is Err ==> strings_of(items) == Err::<Seq<Seq<char>>, ChaptersError>(
            ChaptersError::NotAString,
        ),
    decreases items.len(),
{
    if items.len() > 0 {
        lemma_strings_of_error_kind(items.drop_last());
    }
}

/// A chapter `[name, file, label]` of strings gives that name, that one file and that label.
pub proof fn lemma_chapter_of_single_file(items: Vec<JsonShape>, name: String, file: String, label: String)
    requires
        items@.len() >= 3,
        items@[0] == JsonShape::Str(name),
        items@[1] == JsonShape::Str(file),
        items@[2] == JsonShape::Str(label),
    ensures
        chapter_of(JsonShape::Array(items)) == Ok::<(Seq<char>, Seq<Seq<char>>, Seq<char>), ChaptersError>(
            (name@, seq![file@], label@),
        ),
{
}

/// A chapter `[name, [files...], label]` of strings gives that name, the texts
/// of all its files in order, and that label.
pub proof fn lemma_chapter_of_file_list(items: Vec<JsonShape>, name: String, files: Vec<JsonShape>, label: String)
    requires
        items@.len() >= 3,
        items@[0] == JsonShape::Str(name),
        items@[1] == JsonShape::Array(files),
        items@[2] == JsonShape::Str(label),
        forall|i: int| 0 <= i < files@.len() ==> #[trigger] files@[i] is Str,
    ensures
        chapter_of(JsonShape::Array(items)) matches Ok(c) && c.0 == name@ && c.2 == label@ && c.1.len()
            == files@.len() && forall|i: int| 0 <= i < files@.len() ==> Some(#[trigger] c.1[i]) == string_of(
            files@[i],
        ),
{
    lemma_strings_of_strings(files@);
}

/// A list of readable chapters gives each chapter in order.
pub proof fn lemma_chapters_list_ok(items: Seq<JsonShape>)
    requires
        forall|i: int| 0 <= i < items.len() ==> #[trigger] chapter_of(items[i]) is Ok,
    ensures
        chapters_list(items) matches Ok(cs) && cs.len() == items.len() && forall|i: int|
            0 <= i < items.len() ==> Ok::<(Seq<char>, Seq<Seq<char>>, Seq<char>), ChaptersError>(#[trigger] cs[i])
                == chapter_of(items[i]),
    decreases items.len(),
{
    if items.len() > 0 {
        let prev = items.drop_last();
        assert forall|i: int| 0 <= i < prev.len() implies #[trigger] chapter_of(prev[i]) is Ok by {
            assert(prev[i] == items[i]);
        }
        lemma_chapters_list_ok(prev);
        assert(chapter_of(items[items.len() - 1]) is Ok);
        assert(items.last() == items[items.len() - 1]);
        let cs = chapters_list(prev)->Ok_0;
        assert forall|i: int| 0 <= i < items.len() implies Ok::<(Seq<char>, Seq<Seq<char>>, Seq<char>), ChaptersError>(
            #[trigger] chapters_list(items)->Ok_0[i],
        ) == chapter_of(items[i]) by {
            if i < prev.len() {
                assert(prev[i] == items[i]);
                assert(chapters_list(items)->Ok_0[i] == cs[i]);
            }
        }
    }
}

/// The first chapter that cannot be read decides the error of the list.
pub proof fn lemma_chapters_list_first_error(items: Seq<JsonShape>, k: int, e: ChaptersError)
    requires
        0 <= k < items.len(),
        chapter_of(items[k]) == Err::<(Seq<char>, Seq<Seq<char>>, Seq<char>), ChaptersError>(e),
        forall|j: int| 0 <= j < k ==> #[trigger] chapter_of(items[j]) is Ok,
    ensures
        chapters_list(items) == Err::<Seq<(Seq<char>, Seq<Seq<char>>, Seq<char>)>, ChaptersError>(e),
    decreases items.len(),
{
    let prev = items.drop_last();
    if k < items.len() - 1 {
        assert(prev[k] == items[k]);
        assert forall|j: int| 0 <= j < k implies #[trigger] chapter_of(prev[j]) is Ok by {
            assert(prev[j] == items[j]);
        }
        lemma_chapters_list_first_error(prev, k, e);
    } else {
        assert forall|j: int| 0 <= j < prev.len() implies #[trigger] chapter_of(prev[j]) is Ok by {
            assert(prev[j] == items[j]);
        }
        lemma_chapters_list_ok(prev);
        assert(items.last() == items[k]);
    }
}

proof fn lemma_strings_of_prefix_err(items: Seq<JsonShape>, k: int)
    requires
        0 <= k <= items.len(),
        strings_of(items.take(k)) is Err,
    ensures
        strings_of(items) == strings_of(items.take(k)),
    decreases items.len() - k,
{
    if k < items.len() {
        let next = items.take(k + 1);
        assert(next.drop_last() =~= items.take(k));
        lemma_strings_of_prefix_err(items, k + 1);
    } else {
        assert(items.take(k) =~= items);
    }
}

proof fn lemma_chapters_list_prefix_err(items: Seq<JsonShape>, k: int)
    requires
        0 <= k <= items.len(),
        chapters_list(items.take(k)) is Err,
    ensures
        chapters_list(items) == chapters_list(items.take(k)),
    decreases items.len() - k,
{
    if k < items.len() {
        let next = items.take(k + 1);
        assert(next.drop_last() =~= items.take(k));
        lemma_chapters_list_prefix_err(items, k + 1);
    } else {
        assert(items.take(k) =~= items);
    }
}

fn json_string(v: &JsonShape) -> (res: Option<String>)
    ensures
        match res {
            Some(t) => string_of(*v) == Some(t@),
            None => string_of(*v) is None,
        },
{
    match v {
        JsonShape::Str(s) => Some(s.clone()),
        _ => None,
    }
}

fn json_strings(items: &Vec<JsonShape>) -> (res: Result<Vec<String>, ChaptersError>)
    ensures
        match res {
            Ok(v) => strings_of(items@) == Ok::<Seq<Seq<char>>, ChaptersError>(texts(v@)),
            Err(e) => strings_of(items@) == Err::<Seq<Seq<char>>, ChaptersError>(e),
        },
{
    let mut res: Vec<String> = Vec::new();
    let mut i: usize = 0;
    assert(items@.take(0) =~= Seq::<JsonShape>::empty());
    assert(texts(res@) =~= Seq::<Seq<char>>::empty());
    while i < items.len()
        invariant
            i <= items@.len(),
            strings_of(items@.take(i as int)) == Ok::<Seq<Seq<char>>, ChaptersError>(texts(res@)),
        decreases items@.len() - i,
    {
        let ghost before = res@;
        assert(items@.take(i + 1).drop_last() =~= items@.take(i as int));
        assert(items@.take(i + 1).last() == items@[i as int]);
        match json_string(&items[i]) {
            Some(t) => {
                res.push(t);
                assert(texts(res@) =~= texts(before).push(t@));
            },
            None => {
                proof {
                    lemma_strings_of_prefix_err(items@, i + 1);
                }
                return Err(ChaptersError::NotAString);
            },
        }
        i = i + 1;
    }
    assert(items@.take(items@.len() as int) =~= items@);
    Ok(res)
}

fn json_file_names(v: &JsonShape) -> (res: Result<Vec<String>, ChaptersError>)
    ensures
        match res {
            Ok(names) => file_names_of(*v) == Ok::<Seq<Seq<char>>, ChaptersError>(texts(names@)),
            Err(e) => file_names_of(*v) == Err::<Seq<Seq<char>>, ChaptersError>(e),
        },
{
    match v {
        JsonShape::Str(s) => {
            let mut names = Vec::new();
            names.push(s.clone());
            assert(texts(names@) =~= seq![s@]);
            Ok(names)
        },
        JsonShape::Array(items) => json_strings(items),
        JsonShape::Other => Err(ChaptersError::FilesNotAList),
    }
}

fn json_chapter(v: &JsonShape) -> (res: Result<ChapterSpec, ChaptersError>)
    ensures
        match res {
            Ok(c) => chapter_of(*v) == Ok::<(Seq<char>, Seq<Seq<char>>, Seq<char>), ChaptersError>(
                (c.name@, texts(c.file_names@), c.reference@),
            ),
            Err(e) => chapter_of(*v) == Err::<(Seq<char>, Seq<Seq<char>>, Seq<char>), ChaptersError>(e),
        },
{
    match v {
        JsonShape::Array(items) => {
            if items.len() < 1 {
                return Err(ChaptersError::MissingEntry);
            }
            let name = match json_string(&items[0]) {
                Some(t) => t,
                None => {
                    return Err(ChaptersError::NotAString);
                },
            };
            if items.len() < 2 {
                return Err(ChaptersError::MissingEntry);
            }
            let file_names = match json_file_names(&items[1]) {
                Ok(names) => names,
                Err(e) => {
                    return Err(e);
                },
            };
            if items.len() < 3 {
                return Err(ChaptersError::MissingEntry);
            }
            let reference = match json_string(&items[2]) {
                Some(t) => t,
                None => {
                    return Err(ChaptersError::NotAString);
                },
            };
            Ok(ChapterSpec { name, file_names, reference })
        },
        _ => Err(ChaptersError::ChapterNotAnArray),
    }
}

/// The chapters that the JSON value `v` defines.
pub fn chapters_of_shape(v: &JsonShape) -> (res: Result<Vec<ChapterSpec>, ChaptersError>)
    ensures
        chapters_result_view(res) == chapters_of(*v),
{
    match v {
        JsonShape::Array(items) => {
            let mut res: Vec<ChapterSpec> = Vec::new();
            let mut i: usize = 0;
            assert(items@.take(0) =~= Seq::<JsonShape>::empty());
            assert(chapter_specs_view(res@) =~= Seq::<(Seq<char>, Seq<Seq<char>>, Seq<char>)>::empty());
            while i < items.len()
                invariant
                    i <= items@.len(),
                    chapters_of(*v) == chapters_list(items@),
                    chapters_list(items@.take(i as int)) == Ok::<
                        Seq<(Seq<char>, Seq<Seq<char>>, Seq<char>)>,
                        ChaptersError,
                    >(chapter_specs_view(res@)),
                decreases items@.len() - i,
            {
                let ghost before = res@;
                assert(items@.take(i + 1).drop_last() =~= items@.take(i as int));
                assert(items@.take(i + 1).last() == items@[i as int]);
                match json_chapter(&items[i]) {
                    Ok(c) => {
                        let ghost cv = (c.name@, texts(c.file_names@), c.reference@);
                        res.push(c);
                        assert(chapter_specs_view(res@) =~= chapter_specs_view(before).push(cv));
                    },
                    Err(e) => {
                        proof {
                            assert(chapter_of(items@[i as int]) == Err::<
                                (Seq<char>, Seq<Seq<char>>, Seq<char>),
                                ChaptersError,
                            >(e));
                            assert(chapters_list(items@.take(i + 1)) == Err::<
                                Seq<(Seq<char>, Seq<Seq<char>>, Seq<char>)>,
                                ChaptersError,
                            >(e));
                            lemma_chapters_list_prefix_err(items@, i + 1);
                        }
                        return Err(e);
                    },
                }
                i = i + 1;
            }
            assert(items@.take(items@.len() as int) =~= items@);
            Ok(res)
        },
        _ => Err(ChaptersError::NotAnArray),
    }
}

/// The chapters that the JSON text `text` (the output of `nix eval --json`
/// on `chapters_expr`) defines.
pub fn chapters_from_json(text: &str) -> (res: Result<Vec<ChapterSpec>, ChaptersError>)
    ensures
        match json_shape_of(text@) {
            None => res matches Err(ChaptersError::NotJson),
            Some(v) => chapters_result_view(res) == chapters_of(v),
        },
{
    match parse_json_shape(text) {
        None => Err(ChaptersError::NotJson),
        Some(v) => chapters_of_shape(&v),
    }
}

/// The path that leads from `base` to `path`, as `pathdiff::diff_paths`
/// computes it; `None` where it finds none.
pub uninterp spec fn pathdiff_relative(path: Seq<char>, base: Seq<char>) -> Option<Seq<char>>;

/// Calls `pathdiff::diff_paths(path, base)` and returns the path as text. The
/// contract names the outcome `pathdiff_relative(path, base)`; the walk over
/// path components that computes it is not stated here.
#[verifier::external_body]
fn relative_path(path: &str, base: &str) -> (res: Option<String>)
    ensures
        res matches Some(r) ==> pathdiff_relative(path@, base@) == Some(r@),
        res is None ==> pathdiff_relative(path@, base@) is None,
{
    match pathdiff::diff_paths(path, base) {
        Some(p) => Some(p.to_string_lossy().into_owned()),
        None => None,
    }
}

/// The parent of a path as std's `Path::parent` gives it; `None` for a path
/// that ends in a root or prefix, or is empty.
pub uninterp spec fn std_path_parent(path: Seq<char>) -> Option<Seq<char>>;

/// Calls std's `Path::parent` on `path` and returns the parent as text. The
/// contract names the outcome `std_path_parent(path)` and states, as std
/// documents, that the empty path has no parent.
#[verifier::external_body]
fn path_parent(path: &str) -> (res: Option<String>)
    ensures
        res matches Some(p) ==> std_path_parent(path@) == Some(p@),
        res is None ==> std_path_parent(path@) is None,
        path@.len() == 0 ==> res is None,
{
    match std::path::Path::new(path).parent() {
        Some(p) => Some(p.to_string_lossy().into_owned()),
        None => None,
    }
}

/// Where a chapter file lies relative to the project: its path relative to
/// the source directory, and the directory part of that path.
pub struct ChapterFilePlace {
    pub rel_path: String,
    pub dir: String,
}

/// The place of the chapter file `file_path` in the project at `src_dir`;
/// `None` where no relative path or no directory part exists.
pub fn chapter_file_place(file_path: &str, src_dir: &str) -> (res: Option<ChapterFilePlace>)
    ensures
        match pathdiff_relative(file_path@, src_dir@) {
            None => res is None,
            Some(rel) => match std_path_parent(rel) {
                None => res is None,
                Some(d) => res matches Some(p) && p.rel_path@ == rel && p.dir@ == d,
            },
        },
{
    match relative_path(file_path, src_dir) {
        None => None,
        Some(rel_path) => match path_parent(rel_path.as_str()) {
            None => None,
            Some(dir) => Some(ChapterFilePlace { rel_path, dir }),
        },
    }
}

} // verus!
