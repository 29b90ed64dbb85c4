//! The files that one package is generated to.
//!
//! A package goes to one file, or to a stitcher and up to six content files for
//! each of its `.proto` files.
use vstd::prelude::*;
use vstd::string::*;
use crate::codegen::config::CodeGenConfig;
use crate::codegen::content;
use crate::codegen::content::{
    generate_proto_content, is_output_of, CandidateText, ContentText, FileOutput, ProtoContent,
    ReexportCandidate, RegistryPaths, RegistryText,
};
use crate::codegen::descriptor;
use crate::codegen::descriptor::{str_or, FileDescriptorProto};
use crate::codegen::errors::{CodeGenError, ErrorText};
use crate::codegen::files;
use crate::codegen::files::{FileText, GeneratedFile, GeneratedFileKind};
use crate::codegen::packages;
use crate::codegen::packages::{package_to_filename, package_to_mod_filename};
use crate::codegen::root_names;
use crate::codegen::root_names::surviving_root_reexports;
use crate::codegen::stitch;
use crate::codegen::stitch::{
    generate_package_mod, PackagePieces, PackageSections, SectionsText,
};
use crate::codegen::syntax;
use crate::codegen::syntax::{format_tokens, string_literal};
use crate::codegen::validate;

verus! {

/// Code of one kind: the suffix of its file, the kind, and the code.
pub type Part = (Seq<char>, GeneratedFileKind, Seq<char>);

/// The content of a file by kind.
pub open spec fn parts_of(content: ContentText) -> Seq<Part> {
    seq![
        (""@, GeneratedFileKind::Owned, content.owned),
        (".__view"@, GeneratedFileKind::View, content.view),
        (".__lazy_view"@, GeneratedFileKind::LazyView, content.lazy_view),
        (".__oneof"@, GeneratedFileKind::Oneof, content.oneof),
        (".__view_oneof"@, GeneratedFileKind::ViewOneof, content.view_oneof),
        (".__ext"@, GeneratedFileKind::Ext, content.ext),
    ]
}

/// The name of a content file.
pub open spec fn content_filename(stem: Seq<char>, suffix: Seq<char>) -> Seq<char> {
    stem + suffix + ".rs"@
}

/// The content files of a `.proto` file: one for each kind of code that it has.
pub open spec fn content_files(
    package: Seq<char>,
    source: Seq<char>,
    stem: Seq<char>,
    parts: Seq<Part>,
) -> Result<Seq<FileText>, ErrorText>
    decreases parts.len(),
{
    if parts.len() == 0 {
        Ok(Seq::empty())
    } else {
        let (suffix, kind, code) = parts.last();
        match content_files(package, source, stem, parts.drop_last()) {
            Err(e) => Err(e),
            Ok(files) => if code.len() == 0 {
                Ok(files)
            } else {
                match syntax::file_text(syntax::laid_out(code), source) {
                    Err(e) => Err(e),
                    Ok(content) => Ok(
                        files.push(
                            FileText {
                                name: content_filename(stem, suffix),
                                package,
                                kind,
                                content,
                            },
                        ),
                    ),
                }
            },
        }
    }
}

/// The line that pulls a content file in, where there is such a file.
pub open spec fn include_line(stem: Seq<char>, suffix: Seq<char>, code: Seq<char>) -> Seq<char> {
    if code.len() == 0 {
        Seq::empty()
    } else {
        "include!("@ + syntax::literal(content_filename(stem, suffix)) + ");"@
    }
}

/// What stands for a file's content where it goes to files of its own.
pub open spec fn included(content: ContentText) -> ContentText {
    ContentText {
        stem: content.stem,
        owned: include_line(content.stem, ""@, content.owned),
        view: include_line(content.stem, ".__view"@, content.view),
        lazy_view: include_line(content.stem, ".__lazy_view"@, content.lazy_view),
        oneof: include_line(content.stem, ".__oneof"@, content.oneof),
        view_oneof: include_line(content.stem, ".__view_oneof"@, content.view_oneof),
        ext: include_line(content.stem, ".__ext"@, content.ext),
        root_reexports: content.root_reexports,
    }
}

/// What is known of a package once some of its files have been generated.
pub struct Progress {
    /// The code by kind.
    pub sections: SectionsText,
    /// What the package registers.
    pub reg: RegistryText,
    /// Names that could be re-exported.
    pub candidates: Seq<CandidateText>,
    /// The content files.
    pub files: Seq<FileText>,
}

/// Nothing generated yet.
pub open spec fn no_progress() -> Progress {
    Progress {
        sections: stitch::no_sections(),
        reg: RegistryText {
            json_any: Seq::empty(),
            json_ext: Seq::empty(),
            text_any: Seq::empty(),
            text_ext: Seq::empty(),
        },
        candidates: Seq::empty(),
        files: Seq::empty(),
    }
}

/// The progress once one more file has been generated.
pub open spec fn advanced(
    config: CodeGenConfig,
    package: Seq<char>,
    file: FileDescriptorProto,
    output: Result<FileOutput, CodeGenError>,
    before: Progress,
) -> Result<Progress, ErrorText> {
    match validate::file_fault(file) {
        Some(e) => Err(e),
        None => match output {
            Err(e) => Err(e@),
            Ok(output) => {
                let content = content::content_of(config, file, output);
                let reg = content::registry_of_file(file, output, before.reg);
                let candidates = before.candidates + content.root_reexports;
                if config.file_per_package {
                    Ok(
                        Progress {
                            sections: stitch::with_content(before.sections, content),
                            reg,
                            candidates,
                            files: before.files,
                        },
                    )
                } else {
                    match content_files(
                        package,
                        descriptor::text_or(file.name, ""@),
                        content.stem,
                        parts_of(content),
                    ) {
                        Err(e) => Err(e),
                        Ok(files) => Ok(
                            Progress {
                                sections: stitch::with_content(
                                    before.sections,
                                    included(content),
                                ),
                                reg,
                                candidates,
                                files: before.files + files,
                            },
                        ),
                    }
                }
            },
        },
    }
}

/// The progress once the first `k` files have been generated, or the first error.
pub open spec fn progress(
    config: CodeGenConfig,
    package: Seq<char>,
    files: Seq<&FileDescriptorProto>,
    outputs: Seq<Result<FileOutput, CodeGenError>>,
    k: nat,
) -> Result<Progress, ErrorText>
    decreases k,
{
    if k == 0 || k > files.len() {
        Ok(no_progress())
    } else {
        match progress(config, package, files, outputs, (k - 1) as nat) {
            Err(e) => Err(e),
            Ok(before) => advanced(config, package, *files[k - 1], outputs[k - 1], before),
        }
    }
}

/// The name of the file that stitches a package together.
pub open spec fn stitcher_name(config: CodeGenConfig, package: Seq<char>) -> Seq<char> {
    if config.file_per_package {
        packages::filename(package)
    } else {
        packages::mod_filename(package)
    }
}

/// The files that a package is generated to, or the first error.
pub open spec fn package_files(
    config: CodeGenConfig,
    package: Seq<char>,
    files: Seq<&FileDescriptorProto>,
    outputs: Seq<Result<FileOutput, CodeGenError>>,
    pieces: PackagePieces,
    custom_elem_impls: Seq<char>,
) -> Result<Seq<FileText>, ErrorText> {
    match progress(config, package, files, outputs, files.len()) {
        Err(e) => Err(e),
        Ok(done) => {
            let candidates = root_names::all_candidates(config, done.reg, done.candidates);
            let reexports = root_names::survivors(config, files, candidates, candidates.len());
            let code = stitch::package_code(
                config,
                done.sections,
                done.reg,
                reexports,
                pieces,
                custom_elem_impls,
            );
            match syntax::file_text(syntax::laid_out(code), ""@) {
                Err(e) => Err(e),
                Ok(content) => Ok(
                    done.files.push(
                        FileText {
                            name: stitcher_name(config, package),
                            package,
                            kind: GeneratedFileKind::PackageMod,
                            content,
                        },
                    ),
                ),
            }
        },
    }
}

/// There is the code of each file.
pub open spec fn outputs_fit(
    files: Seq<&FileDescriptorProto>,
    outputs: Seq<Result<FileOutput, CodeGenError>>,
) -> bool {
    &&& outputs.len() == files.len()
    &&& forall|i: int|
        0 <= i < files.len() && (#[trigger] outputs[i]) is Ok ==> content::output_fits(
            *files[i],
            outputs[i]->Ok_0,
        )
}

/// Whether there is the code of each file.
pub fn are_outputs_of(
    files: &Vec<&FileDescriptorProto>,
    outputs: &Vec<Result<FileOutput, CodeGenError>>,
) -> (r: bool)
    ensures
        r == outputs_fit(files@, outputs@),
{
    if outputs.len() != files.len() {
        return false;
    }
    let mut i: usize = 0;
    while i < outputs.len()
        invariant
            i <= outputs@.len(),
            outputs@.len() == files@.len(),
            forall|k: int|
                0 <= k < i && (#[trigger] outputs@[k]) is Ok ==> content::output_fits(
                    *files@[k],
                    outputs@[k]->Ok_0,
                ),
        decreases outputs@.len() - i,
    {
        match &outputs[i] {
            Ok(output) => if !is_output_of(files[i], output) {
                assert(outputs@[i as int] is Ok);
                return false;
            },
            Err(_) => {},
        }
        i = i + 1;
    }
    true
}

/// The name of a content file.
fn write_content_filename(stem: &str, suffix: &str) -> (r: String)
    ensures
        r@ == content_filename(stem@, suffix@),
{
    let mut r: String = stem.to_owned();
    r.append(suffix);
    r.append(".rs");
    r
}

/// The line that pulls a content file in, where there is such a file.
fn write_include_line(stem: &str, suffix: &str, code: &str) -> (r: String)
    ensures
        r@ == include_line(stem@, suffix@, code@),
{
    if code.is_empty() {
        return String::new();
    }
    let mut r: String = "include!(".to_owned();
    r.append(string_literal(write_content_filename(stem, suffix).as_str()).as_str());
    r.append(");");
    r
}

/// Write one content file, if there is code of its kind.
fn emit(
    package: &str,
    source: &str,
    stem: &str,
    suffix: &str,
    kind: GeneratedFileKind,
    code: &str,
    out: &mut Vec<GeneratedFile>,
) -> (result: Result<(), CodeGenError>)
    ensures
        if code@.len() == 0 {
            result is Ok && files::file_texts(final(out)@) == files::file_texts(old(out)@)
        } else {
            match syntax::file_text(syntax::laid_out(code@), source@) {
                Err(e) => result is Err && result->Err_0@ == e,
                Ok(content) => result is Ok && files::file_texts(final(out)@)
                    == files::file_texts(old(out)@).push(
                    (FileText {
                        name: content_filename(stem@, suffix@),
                        package: package@,
                        kind,
                        content,
                    }),
                ),
            }
        },
{
    if code.is_empty() {
        return Ok(());
    }
    let content: String = match format_tokens(code, source) {
        Ok(content) => content,
        Err(e) => return Err(e),
    };
    let file = GeneratedFile {
        name: write_content_filename(stem, suffix),
        package: package.to_owned(),
        kind,
        content,
    };
    let ghost added = file@;
    out.push(file);
    assert(files::file_texts(out@) =~= files::file_texts(old(out)@).push(added));
    Ok(())
}

/// Write the content files of a `.proto` file.
fn emit_content(
    package: &str,
    source: &str,
    content: &ProtoContent,
    out: &mut Vec<GeneratedFile>,
) -> (result: Result<(), CodeGenError>)
    ensures
        match content_files(package@, source@, content.stem@, parts_of(content@)) {
            Err(e) => result is Err && result->Err_0@ == e,
            Ok(files) => result is Ok && files::file_texts(final(out)@) == files::file_texts(
                old(out)@,
            ) + files,
        },
{
    let ghost start = files::file_texts(out@);
    let ghost parts = parts_of(content@);
    let mut list: Vec<(&str, GeneratedFileKind, &str)> = Vec::new();
    list.push(("", GeneratedFileKind::Owned, content.owned.as_str()));
    list.push((".__view", GeneratedFileKind::View, content.view.as_str()));
    list.push((".__lazy_view", GeneratedFileKind::LazyView, content.lazy_view.as_str()));
    list.push((".__oneof", GeneratedFileKind::Oneof, content.oneof.as_str()));
    list.push((".__view_oneof", GeneratedFileKind::ViewOneof, content.view_oneof.as_str()));
    list.push((".__ext", GeneratedFileKind::Ext, content.ext.as_str()));
    let mut i: usize = 0;
    assert(start + Seq::<FileText>::empty() =~= start);
    assert(parts.take(0) =~= Seq::<Part>::empty());
    while i < list.len()
        invariant
            i <= list@.len(),
            list@.len() == parts.len(),
            parts == parts_of(content@),
            forall|j: int|
                0 <= j < list@.len() ==> ((#[trigger] list@[j]).0@, list@[j].1, list@[j].2@)
                    == parts[j],
            content_files(package@, source@, content.stem@, parts.take(i as int)) is Ok,
            files::file_texts(out@) == start + content_files(
                package@,
                source@,
                content.stem@,
                parts.take(i as int),
            )->Ok_0,
            start == files::file_texts(old(out)@),
        decreases list@.len() - i,
    {
        let ghost so_far = parts.take(i as int);
        let ghost next = parts.take(i as int + 1);
        proof {
            assert(next.drop_last() =~= so_far);
            assert(next.last() == parts[i as int]);
            assert(list@[i as int].0@ == parts[i as int].0);
        }
        let part: (&str, GeneratedFileKind, &str) = list[i];
        let emitted = emit(package, source, content.stem.as_str(), part.0, part.1, part.2, out);
        if emitted.is_err() {
            proof {
                lemma_error_stays(package@, source@, content.stem@, parts, i as int + 1);
            }
            return emitted;
        }
        i = i + 1;
        assert(files::file_texts(out@) =~= start + content_files(
            package@,
            source@,
            content.stem@,
            parts.take(i as int),
        )->Ok_0);
    }
    assert(parts.take(parts.len() as int) =~= parts);
    Ok(())
}

/// The first error is the result.
proof fn lemma_error_stays(
    package: Seq<char>,
    source: Seq<char>,
    stem: Seq<char>,
    parts: Seq<Part>,
    k: int,
)
    requires
        0 <= k <= parts.len(),
        content_files(package, source, stem, parts.take(k)) is Err,
    ensures
        content_files(package, source, stem, parts) == content_files(
            package,
            source,
            stem,
            parts.take(k),
        ),
    decreases parts.len(),
{
    if k == parts.len() {
        assert(parts.take(k) =~= parts);
    } else {
        assert(parts.drop_last().take(k) =~= parts.take(k));
        lemma_error_stays(package, source, stem, parts.drop_last(), k);
    }
}

/// The first error is the result.
proof fn lemma_progress_stops(
    config: CodeGenConfig,
    package: Seq<char>,
    files: Seq<&FileDescriptorProto>,
    outputs: Seq<Result<FileOutput, CodeGenError>>,
    k: nat,
    m: nat,
)
    requires
        k <= m <= files.len(),
        progress(config, package, files, outputs, k) is Err,
    ensures
        progress(config, package, files, outputs, m) == progress(
            config,
            package,
            files,
            outputs,
            k,
        ),
    decreases m,
{
    if k < m {
        lemma_progress_stops(config, package, files, outputs, k, (m - 1) as nat);
    }
}

/// What stands for a file's content where it goes to files of its own.
fn include_content(content: ProtoContent) -> (r: ProtoContent)
    ensures
        r@ == included(content@),
{
    let stem: &str = content.stem.as_str();
    let owned: String = write_include_line(stem, "", content.owned.as_str());
    let view: String = write_include_line(stem, ".__view", content.view.as_str());
    let lazy_view: String = write_include_line(stem, ".__lazy_view", content.lazy_view.as_str());
    let oneof: String = write_include_line(stem, ".__oneof", content.oneof.as_str());
    let view_oneof: String = write_include_line(
        stem,
        ".__view_oneof",
        content.view_oneof.as_str(),
    );
    let ext: String = write_include_line(stem, ".__ext", content.ext.as_str());
    ProtoContent {
        stem: content.stem,
        owned,
        view,
        lazy_view,
        oneof,
        view_oneof,
        ext,
        root_reexports: content.root_reexports,
    }
}

/// Add candidates to a list.
fn append_candidates(list: &mut Vec<ReexportCandidate>, more: &mut Vec<ReexportCandidate>)
    ensures
        content::candidate_texts(final(list)@) == content::candidate_texts(old(list)@)
            + content::candidate_texts(old(more)@),
{
    list.append(more);
    assert(content::candidate_texts(list@) =~= content::candidate_texts(old(list)@)
        + content::candidate_texts(old(more)@));
}

/// Generate the files of one package, from the code of its files and from code
/// of other generators.
pub fn generate_package(
    config: &CodeGenConfig,
    package: &str,
    files: &Vec<&FileDescriptorProto>,
    outputs: Vec<Result<FileOutput, CodeGenError>>,
    pieces: &PackagePieces,
    custom_elem_impls: &str,
) -> (result: Result<Vec<GeneratedFile>, CodeGenError>)
    requires
        outputs_fit(files@, outputs@),
    ensures
        match package_files(
            *config,
            package@,
            files@,
            outputs@,
            *pieces,
            custom_elem_impls@,
        ) {
            Err(e) => result is Err && result->Err_0@ == e,
            Ok(out) => result is Ok && files::file_texts(result->Ok_0@) == out,
        },
{
    let ghost given = outputs@;
    let mut rest: Vec<Result<FileOutput, CodeGenError>> = outputs;
    let mut out: Vec<GeneratedFile> = Vec::new();
    let mut sections: PackageSections = PackageSections::new();
    let mut reg: RegistryPaths = RegistryPaths::new();
    let mut candidates: Vec<ReexportCandidate> = Vec::new();
    proof {
        assert(reg@.json_any =~= Seq::<Seq<char>>::empty());
        assert(reg@.json_ext =~= Seq::<Seq<char>>::empty());
        assert(reg@.text_any =~= Seq::<Seq<char>>::empty());
        assert(reg@.text_ext =~= Seq::<Seq<char>>::empty());
        assert(content::candidate_texts(candidates@) =~= Seq::<CandidateText>::empty());
        assert(files::file_texts(out@) =~= Seq::<FileText>::empty());
        assert(given.skip(0) =~= given);
    }
    let mut i: usize = 0;
    while i < files.len()
        invariant
            i <= files@.len(),
            outputs_fit(files@, given),
            given == outputs@,
            rest@ == given.skip(i as int),
            progress(*config, package@, files@, given, i as nat) == Ok::<Progress, ErrorText>(
                (Progress {
                    sections: sections@,
                    reg: reg@,
                    candidates: content::candidate_texts(candidates@),
                    files: files::file_texts(out@),
                }),
            ),
        decreases files@.len() - i,
    {
        let ghost before = Progress {
            sections: sections@,
            reg: reg@,
            candidates: content::candidate_texts(candidates@),
            files: files::file_texts(out@),
        };
        let ghost now = advanced(*config, package@, *files@[i as int], given[i as int], before);
        let output = rest.remove(0);
        assert(output == given[i as int]);
        assert(rest@ =~= given.skip(i as int + 1));
        let file: &FileDescriptorProto = files[i];
        let mut content: ProtoContent = match generate_proto_content(
            config,
            file,
            output,
            &mut reg,
        ) {
            Ok(content) => content,
            Err(e) => {
                proof {
                    lemma_progress_stops(
                        *config,
                        package@,
                        files@,
                        given,
                        i as nat + 1,
                        files@.len(),
                    );
                }
                return Err(e);
            },
        };
        if !config.file_per_package {
            match emit_content(package, str_or(&file.name, ""), &content, &mut out) {
                Ok(()) => {},
                Err(e) => {
                    proof {
                        lemma_progress_stops(
                            *config,
                            package@,
                            files@,
                            given,
                            i as nat + 1,
                            files@.len(),
                        );
                    }
                    return Err(e);
                },
            }
            content = include_content(content);
        }
        append_candidates(&mut candidates, &mut content.root_reexports);
        sections.push_inline(content);
        i = i + 1;
    }
    let reexports: String = surviving_root_reexports(config, files, &reg, candidates);
    let content: String = match generate_package_mod(
        config,
        &sections,
        &reg,
        reexports.as_str(),
        pieces,
        custom_elem_impls,
    ) {
        Ok(content) => content,
        Err(e) => return Err(e),
    };
    let name: String = if config.file_per_package {
        package_to_filename(package)
    } else {
        package_to_mod_filename(package)
    };
    let ghost content_only = out@;
    let stitcher = GeneratedFile {
        name,
        package: package.to_owned(),
        kind: GeneratedFileKind::PackageMod,
        content,
    };
    let ghost added = stitcher@;
    out.push(stitcher);
    assert(files::file_texts(out@) =~= files::file_texts(content_only).push(added));
    Ok(out)
}

} // verus!
