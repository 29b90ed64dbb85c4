//! What becomes of the files of a package.
//!
//! A package goes to one file, or to a stitcher and content files beside it. Every
//! content file that is written is pulled in, where its kind belongs, exactly once.
use vstd::prelude::*;
use vstd::string::*;
use crate::codegen::config::CodeGenConfig;
use crate::codegen::content;
use crate::codegen::content::{ContentText, FileOutput, RegistryText};
use crate::codegen::content_laws;
use crate::codegen::descriptor::FileDescriptorProto;
use crate::codegen::errors::{CodeGenError, ErrorText};
use crate::codegen::files::{FileText, GeneratedFileKind};
use crate::codegen::package;
use crate::codegen::package::Progress;
use crate::codegen::packages;
use crate::codegen::stitch;
use crate::codegen::stitch::{PackagePieces, SectionsText};
use crate::codegen::stitch_laws;
use crate::codegen::syntax;

verus! {

/// A kind of content file.
pub open spec fn is_content(kind: GeneratedFileKind) -> bool {
    kind != GeneratedFileKind::PackageMod && kind != GeneratedFileKind::Companion
}

/// The code of a kind in a file's content.
pub open spec fn part_of(c: ContentText, kind: GeneratedFileKind) -> Seq<char> {
    match kind {
        GeneratedFileKind::Owned => c.owned,
        GeneratedFileKind::View => c.view,
        GeneratedFileKind::LazyView => c.lazy_view,
        GeneratedFileKind::Oneof => c.oneof,
        GeneratedFileKind::ViewOneof => c.view_oneof,
        GeneratedFileKind::Ext => c.ext,
        _ => Seq::empty(),
    }
}

/// The section of a kind.
pub open spec fn section_of(s: SectionsText, kind: GeneratedFileKind) -> Seq<Seq<char>> {
    match kind {
        GeneratedFileKind::Owned => s.owned,
        GeneratedFileKind::View => s.view,
        GeneratedFileKind::LazyView => s.lazy_view,
        GeneratedFileKind::Oneof => s.oneof,
        GeneratedFileKind::ViewOneof => s.view_oneof,
        GeneratedFileKind::Ext => s.ext,
        _ => Seq::empty(),
    }
}

/// How the name of a content file goes on behind the stem.
pub open spec fn ending_of(kind: GeneratedFileKind) -> Seq<char> {
    match kind {
        GeneratedFileKind::Owned => ".rs"@,
        GeneratedFileKind::View => ".__view.rs"@,
        GeneratedFileKind::LazyView => ".__lazy_view.rs"@,
        GeneratedFileKind::Oneof => ".__oneof.rs"@,
        GeneratedFileKind::ViewOneof => ".__view_oneof.rs"@,
        GeneratedFileKind::Ext => ".__ext.rs"@,
        _ => Seq::empty(),
    }
}

/// The files of a kind, in order.
pub open spec fn of_kind(files: Seq<FileText>, kind: GeneratedFileKind) -> Seq<FileText> {
    files.filter(|f: FileText| f.kind == kind)
}

/// The line that pulls a file in.
pub open spec fn pull(name: Seq<char>) -> Seq<char> {
    "include!("@ + syntax::literal(name) + ");"@
}

/// The content of the file at `i`.
pub open spec fn content_at(
    config: CodeGenConfig,
    files: Seq<&FileDescriptorProto>,
    outputs: Seq<Result<FileOutput, CodeGenError>>,
    i: int,
) -> ContentText {
    content::content_of(config, *files[i], outputs[i]->Ok_0)
}

/// The name of a `.proto` file.
pub open spec fn source_of(file: FileDescriptorProto) -> Seq<char> {
    match file.name {
        Some(name) => name@,
        None => Seq::empty(),
    }
}

/// The content file of a kind that a `.proto` file goes to: one, with the code of
/// that kind laid out in it, where there is any such code.
pub open spec fn written(
    package: Seq<char>,
    file: FileDescriptorProto,
    c: ContentText,
    kind: GeneratedFileKind,
) -> Seq<FileText> {
    if part_of(c, kind).len() == 0 {
        Seq::empty()
    } else {
        seq![
            FileText {
                name: packages::stem(source_of(file)) + ending_of(kind),
                package,
                kind,
                content: syntax::header_text(source_of(file)) + syntax::laid_out(
                    part_of(c, kind),
                )->Ok_0,
            },
        ]
    }
}

/// The content files of a kind that each of the first `k` files goes to.
pub open spec fn written_by_each(
    config: CodeGenConfig,
    package: Seq<char>,
    files: Seq<&FileDescriptorProto>,
    outputs: Seq<Result<FileOutput, CodeGenError>>,
    kind: GeneratedFileKind,
    k: nat,
) -> Seq<Seq<FileText>> {
    Seq::new(
        k,
        |i: int| written(package, *files[i], content_at(config, files, outputs, i), kind),
    )
}

/// One list of files more.
proof fn lemma_of_kind_add(a: Seq<FileText>, b: Seq<FileText>, kind: GeneratedFileKind)
    ensures
        of_kind(a + b, kind) == of_kind(a, kind) + of_kind(b, kind),
{
    Seq::filter_distributes_over_add(a, b, |f: FileText| f.kind == kind);
}

/// One file.
proof fn lemma_of_kind_one(f: FileText, kind: GeneratedFileKind)
    ensures
        of_kind(seq![f], kind) == if f.kind == kind {
            seq![f]
        } else {
            Seq::empty()
        },
        of_kind(Seq::empty(), kind) == Seq::<FileText>::empty(),
{
    reveal_with_fuel(Seq::filter, 2);
    let is = |f: FileText| f.kind == kind;
    assert(seq![f].drop_last() =~= Seq::<FileText>::empty());
    assert(seq![f].last() == f);
    assert(seq![f].filter(is) =~= if f.kind == kind {
        seq![f]
    } else {
        Seq::empty()
    });
}

/// One part more among the content files of a file.
proof fn lemma_one_part(
    package: Seq<char>,
    source: Seq<char>,
    stem: Seq<char>,
    parts: Seq<package::Part>,
    kind: GeneratedFileKind,
)
    requires
        parts.len() > 0,
        package::content_files(package, source, stem, parts) is Ok,
    ensures
        ({
            let (suffix, k, code) = parts.last();
            let before = package::content_files(package, source, stem, parts.drop_last());
            let all = package::content_files(package, source, stem, parts)->Ok_0;
            &&& before is Ok
            &&& code.len() > 0 ==> syntax::laid_out(code) is Ok
            &&& of_kind(all, kind) == of_kind(before->Ok_0, kind) + if code.len() > 0 && k == kind {
                seq![
                    FileText {
                        name: stem + suffix + ".rs"@,
                        package,
                        kind,
                        content: syntax::header_text(source) + syntax::laid_out(code)->Ok_0,
                    },
                ]
            } else {
                Seq::empty()
            }
        }),
{
    let (suffix, k, code) = parts.last();
    let before = package::content_files(package, source, stem, parts.drop_last())->Ok_0;
    let all = package::content_files(package, source, stem, parts)->Ok_0;
    if code.len() > 0 {
        let f = FileText {
            name: stem + suffix + ".rs"@,
            package,
            kind: k,
            content: syntax::header_text(source) + syntax::laid_out(code)->Ok_0,
        };
        assert(all =~= before + seq![f]);
        lemma_of_kind_add(before, seq![f], kind);
        lemma_of_kind_one(f, kind);
        assert(of_kind(all, kind) =~= of_kind(before, kind) + if k == kind {
            seq![f]
        } else {
            Seq::empty()
        });
    } else {
        assert(of_kind(all, kind) =~= of_kind(before, kind) + Seq::<FileText>::empty());
    }
}

/// The content files of one file, by kind.
proof fn lemma_content_files(
    package: Seq<char>,
    file: FileDescriptorProto,
    c: ContentText,
    kind: GeneratedFileKind,
)
    requires
        is_content(kind),
        c.stem == packages::stem(source_of(file)),
        package::content_files(package, source_of(file), c.stem, package::parts_of(c)) is Ok,
    ensures
        of_kind(
            package::content_files(package, source_of(file), c.stem, package::parts_of(c))->Ok_0,
            kind,
        ) == written(package, file, c, kind),
{
    reveal_strlit("");
    reveal_strlit(".rs");
    reveal_strlit(".__view");
    reveal_strlit(".__view.rs");
    reveal_strlit(".__lazy_view");
    reveal_strlit(".__lazy_view.rs");
    reveal_strlit(".__oneof");
    reveal_strlit(".__oneof.rs");
    reveal_strlit(".__view_oneof");
    reveal_strlit(".__view_oneof.rs");
    reveal_strlit(".__ext");
    reveal_strlit(".__ext.rs");
    let source = source_of(file);
    let stem = c.stem;
    let p6 = package::parts_of(c);
    let p5 = p6.drop_last();
    let p4 = p5.drop_last();
    let p3 = p4.drop_last();
    let p2 = p3.drop_last();
    let p1 = p2.drop_last();
    lemma_one_part(package, source, stem, p6, kind);
    lemma_one_part(package, source, stem, p5, kind);
    lemma_one_part(package, source, stem, p4, kind);
    lemma_one_part(package, source, stem, p3, kind);
    lemma_one_part(package, source, stem, p2, kind);
    lemma_one_part(package, source, stem, p1, kind);
    assert(p1.drop_last() =~= Seq::<package::Part>::empty());
    assert(of_kind(Seq::empty(), kind) =~= Seq::<FileText>::empty()) by {
        reveal(Seq::filter);
    }
    assert(stem + ""@ + ".rs"@ =~= stem + ".rs"@);
    assert(stem + ".__view"@ + ".rs"@ =~= stem + ".__view.rs"@);
    assert(stem + ".__lazy_view"@ + ".rs"@ =~= stem + ".__lazy_view.rs"@);
    assert(stem + ".__oneof"@ + ".rs"@ =~= stem + ".__oneof.rs"@);
    assert(stem + ".__view_oneof"@ + ".rs"@ =~= stem + ".__view_oneof.rs"@);
    assert(stem + ".__ext"@ + ".rs"@ =~= stem + ".__ext.rs"@);
    let all = package::content_files(package, source, stem, p6)->Ok_0;
    assert(of_kind(all, kind) =~= written(package, file, c, kind));
}

/// What pulls the content of a file in, by kind.
proof fn lemma_included(package: Seq<char>, file: FileDescriptorProto, c: ContentText, kind: GeneratedFileKind)
    requires
        is_content(kind),
        c.stem == packages::stem(source_of(file)),
    ensures
        part_of(package::included(c), kind) == if part_of(c, kind).len() == 0 {
            Seq::empty()
        } else {
            pull(written(package, file, c, kind)[0].name)
        },
        part_of(package::included(c), kind).len() == 0 <==> part_of(c, kind).len() == 0,
{
    reveal_strlit("");
    reveal_strlit("include!(");
    reveal_strlit(".rs");
    reveal_strlit(".__view");
    reveal_strlit(".__view.rs");
    reveal_strlit(".__lazy_view");
    reveal_strlit(".__lazy_view.rs");
    reveal_strlit(".__oneof");
    reveal_strlit(".__oneof.rs");
    reveal_strlit(".__view_oneof");
    reveal_strlit(".__view_oneof.rs");
    reveal_strlit(".__ext");
    reveal_strlit(".__ext.rs");
    let stem = c.stem;
    assert(stem + ""@ + ".rs"@ =~= stem + ".rs"@);
    assert(stem + ".__view"@ + ".rs"@ =~= stem + ".__view.rs"@);
    assert(stem + ".__lazy_view"@ + ".rs"@ =~= stem + ".__lazy_view.rs"@);
    assert(stem + ".__oneof"@ + ".rs"@ =~= stem + ".__oneof.rs"@);
    assert(stem + ".__view_oneof"@ + ".rs"@ =~= stem + ".__view_oneof.rs"@);
    assert(stem + ".__ext"@ + ".rs"@ =~= stem + ".__ext.rs"@);
}

/// A section with one more file's content in it.
proof fn lemma_with_content(s: SectionsText, c: ContentText, kind: GeneratedFileKind)
    ensures
        section_of(stitch::with_content(s, c), kind) == if is_content(kind) && part_of(
            c,
            kind,
        ).len() > 0 {
            section_of(s, kind).push(part_of(c, kind))
        } else {
            section_of(s, kind)
        },
{
}

/// Where a package goes to content files and a stitcher, the files written are the
/// content files of its `.proto` files: for each file and each kind of code that it
/// has, one, with that code laid out in it. And every content file is pulled in by
/// the section of its kind, in order and once, and nothing else is.
pub proof fn law_every_content_file_is_pulled_in_once(
    config: CodeGenConfig,
    package: Seq<char>,
    files: Seq<&FileDescriptorProto>,
    outputs: Seq<Result<FileOutput, CodeGenError>>,
    k: nat,
    p: Progress,
    kind: GeneratedFileKind,
)
    requires
        !config.file_per_package,
        k <= files.len(),
        is_content(kind),
        package::progress(config, package, files, outputs, k) == Ok::<Progress, ErrorText>(p),
    ensures
        of_kind(p.files, kind) == written_by_each(
            config,
            package,
            files,
            outputs,
            kind,
            k,
        ).flatten_alt(),
        section_of(p.sections, kind) == of_kind(p.files, kind).map_values(
            |f: FileText| pull(f.name),
        ),
        forall|i: int| 0 <= i < p.files.len() ==> is_content((#[trigger] p.files[i]).kind),
    decreases k,
{
    reveal_strlit("");
    let pulls = |f: FileText| pull(f.name);
    if k == 0 {
        reveal(Seq::filter);
        assert(written_by_each(config, package, files, outputs, kind, 0) =~= Seq::<
            Seq<FileText>,
        >::empty());
        assert(of_kind(p.files, kind) =~= Seq::<FileText>::empty());
        assert(section_of(p.sections, kind) =~= of_kind(p.files, kind).map_values(pulls));
    } else {
        let before = package::progress(config, package, files, outputs, (k - 1) as nat)->Ok_0;
        law_every_content_file_is_pulled_in_once(
            config,
            package,
            files,
            outputs,
            (k - 1) as nat,
            before,
            kind,
        );
        let file = *files[k - 1];
        let c = content_at(config, files, outputs, k - 1);
        assert(crate::codegen::descriptor::text_or(file.name, ""@) =~= source_of(file));
        let more = package::content_files(
            package,
            source_of(file),
            c.stem,
            package::parts_of(c),
        )->Ok_0;
        assert(p.files == before.files + more);
        lemma_content_files(package, file, c, kind);
        lemma_included(package, file, c, kind);
        lemma_with_content(before.sections, package::included(c), kind);
        lemma_of_kind_add(before.files, more, kind);
        let now = written(package, file, c, kind);
        let lists = written_by_each(config, package, files, outputs, kind, k);
        assert(lists.drop_last() =~= written_by_each(
            config,
            package,
            files,
            outputs,
            kind,
            (k - 1) as nat,
        ));
        assert(lists.last() == now);
        assert(of_kind(p.files, kind) == of_kind(before.files, kind) + now);
        assert(section_of(p.sections, kind) =~= of_kind(p.files, kind).map_values(pulls));
        lemma_content_kinds(package, source_of(file), c.stem, package::parts_of(c));
    }
}

/// Content files are of the kinds of their parts.
proof fn lemma_content_kinds(
    package: Seq<char>,
    source: Seq<char>,
    stem: Seq<char>,
    parts: Seq<package::Part>,
)
    requires
        package::content_files(package, source, stem, parts) is Ok,
        forall|j: int| 0 <= j < parts.len() ==> is_content((#[trigger] parts[j]).1),
    ensures
        forall|i: int|
            0 <= i < package::content_files(package, source, stem, parts)->Ok_0.len()
                ==> is_content(
                (#[trigger] package::content_files(package, source, stem, parts)->Ok_0[i]).kind,
            ),
    decreases parts.len(),
{
    if parts.len() > 0 {
        let init = parts.drop_last();
        assert forall|j: int| 0 <= j < init.len() implies is_content((#[trigger] init[j]).1) by {
            assert(init[j] == parts[j]);
        }
        assert(parts[parts.len() - 1] == parts.last());
        lemma_content_kinds(package, source, stem, init);
    }
}

/// Where a package goes to one file, nothing is written beside it, and its sections
/// hold the code of its `.proto` files itself: each kind of code in the section of
/// its kind, in the order of the files.
pub proof fn law_one_file_holds_all_code(
    config: CodeGenConfig,
    package: Seq<char>,
    files: Seq<&FileDescriptorProto>,
    outputs: Seq<Result<FileOutput, CodeGenError>>,
    k: nat,
    p: Progress,
    kind: GeneratedFileKind,
)
    requires
        config.file_per_package,
        k <= files.len(),
        is_content(kind),
        package::progress(config, package, files, outputs, k) == Ok::<Progress, ErrorText>(p),
    ensures
        p.files.len() == 0,
        section_of(p.sections, kind) == stitch_laws::solid(
            Seq::new(k, |i: int| part_of(content_at(config, files, outputs, i), kind)),
        ),
    decreases k,
{
    reveal(Seq::filter);
    let all = Seq::new(k, |i: int| part_of(content_at(config, files, outputs, i), kind));
    if k == 0 {
        assert(all =~= Seq::<Seq<char>>::empty());
        assert(section_of(p.sections, kind) =~= stitch_laws::solid(all));
    } else {
        let before = package::progress(config, package, files, outputs, (k - 1) as nat)->Ok_0;
        law_one_file_holds_all_code(
            config,
            package,
            files,
            outputs,
            (k - 1) as nat,
            before,
            kind,
        );
        let c = content_at(config, files, outputs, k - 1);
        lemma_with_content(before.sections, c, kind);
        assert(all.drop_last() =~= Seq::new(
            (k - 1) as nat,
            |i: int| part_of(content_at(config, files, outputs, i), kind),
        ));
        assert(all.last() == part_of(c, kind));
    }
}

/// Nothing to register.
pub open spec fn no_paths() -> RegistryText {
    RegistryText {
        json_any: Seq::empty(),
        json_ext: Seq::empty(),
        text_any: Seq::empty(),
        text_ext: Seq::empty(),
    }
}

/// What the file at `i` registers.
pub open spec fn registered_by(
    files: Seq<&FileDescriptorProto>,
    outputs: Seq<Result<FileOutput, CodeGenError>>,
    i: int,
) -> RegistryText {
    content::registry_of_file(*files[i], outputs[i]->Ok_0, no_paths())
}

/// A package registers what each of its files registers, and re-exports what each
/// of them could, in the order of the files; and no file was refused, nor did its
/// generators fail.
pub proof fn law_package_registers_what_its_files_do(
    config: CodeGenConfig,
    package: Seq<char>,
    files: Seq<&FileDescriptorProto>,
    outputs: Seq<Result<FileOutput, CodeGenError>>,
    k: nat,
    p: Progress,
)
    requires
        k <= files.len(),
        package::outputs_fit(files, outputs),
        package::progress(config, package, files, outputs, k) == Ok::<Progress, ErrorText>(p),
    ensures
        p.reg.json_any == Seq::new(k, |i: int| registered_by(files, outputs, i).json_any)
            .flatten_alt(),
        p.reg.json_ext == Seq::new(k, |i: int| registered_by(files, outputs, i).json_ext)
            .flatten_alt(),
        p.reg.text_any == Seq::new(k, |i: int| registered_by(files, outputs, i).text_any)
            .flatten_alt(),
        p.reg.text_ext == Seq::new(k, |i: int| registered_by(files, outputs, i).text_ext)
            .flatten_alt(),
        p.candidates == Seq::new(
            k,
            |i: int| content_at(config, files, outputs, i).root_reexports,
        ).flatten_alt(),
        forall|i: int|
            0 <= i < k ==> (#[trigger] outputs[i]) is Ok && crate::codegen::validate::file_fault(
                *files[i],
            ) is None,
    decreases k,
{
    let a = Seq::new(k, |i: int| registered_by(files, outputs, i).json_any);
    let b = Seq::new(k, |i: int| registered_by(files, outputs, i).json_ext);
    let c = Seq::new(k, |i: int| registered_by(files, outputs, i).text_any);
    let d = Seq::new(k, |i: int| registered_by(files, outputs, i).text_ext);
    let e = Seq::new(k, |i: int| content_at(config, files, outputs, i).root_reexports);
    if k == 0 {
        assert(a =~= Seq::empty() && b =~= Seq::empty() && c =~= Seq::empty() && d =~= Seq::empty()
            && e =~= Seq::empty());
    } else {
        let m = (k - 1) as nat;
        let before = package::progress(config, package, files, outputs, m)->Ok_0;
        law_package_registers_what_its_files_do(config, package, files, outputs, m, before);
        assert(a.drop_last() =~= Seq::new(m, |i: int| registered_by(files, outputs, i).json_any));
        assert(b.drop_last() =~= Seq::new(m, |i: int| registered_by(files, outputs, i).json_ext));
        assert(c.drop_last() =~= Seq::new(m, |i: int| registered_by(files, outputs, i).text_any));
        assert(d.drop_last() =~= Seq::new(m, |i: int| registered_by(files, outputs, i).text_ext));
        assert(e.drop_last() =~= Seq::new(
            m,
            |i: int| content_at(config, files, outputs, i).root_reexports,
        ));
        assert(outputs[k - 1] is Ok);
        let output = outputs[k - 1]->Ok_0;
        content_laws::law_file_registers_everything(*files[k - 1], output, before.reg);
        content_laws::law_file_registers_everything(*files[k - 1], output, no_paths());
        let own = registered_by(files, outputs, k - 1);
        assert(p.reg == content::registry_of_file(*files[k - 1], output, before.reg));
        assert(p.reg.json_any =~= before.reg.json_any + own.json_any);
        assert(p.reg.json_ext =~= before.reg.json_ext + own.json_ext);
        assert(p.reg.text_any =~= before.reg.text_any + own.text_any);
        assert(p.reg.text_ext =~= before.reg.text_ext + own.text_ext);
    }
}

/// A package goes to its content files, and behind them to one stitcher: the file
/// with the package's name, or with the reserved name where it has none, that holds
/// the package's code laid out.
pub proof fn law_package_ends_in_its_stitcher(
    config: CodeGenConfig,
    package: Seq<char>,
    files: Seq<&FileDescriptorProto>,
    outputs: Seq<Result<FileOutput, CodeGenError>>,
    pieces: PackagePieces,
    custom_elem_impls: Seq<char>,
    out: Seq<FileText>,
)
    requires
        package::outputs_fit(files, outputs),
        package::package_files(config, package, files, outputs, pieces, custom_elem_impls) == Ok::<
            Seq<FileText>,
            ErrorText,
        >(out),
    ensures
        package::progress(config, package, files, outputs, files.len()) matches Ok(p) && {
            &&& out.len() == p.files.len() + 1
            &&& out.drop_last() == p.files
            &&& out.last().kind == GeneratedFileKind::PackageMod
            &&& out.last().package == package
            &&& out.last().name == (if package.len() == 0 {
                "__buffa"@
            } else {
                package
            }) + (if config.file_per_package {
                ".rs"@
            } else {
                ".mod.rs"@
            })
            &&& exists|reexports: Seq<char>| #[trigger]
                syntax::laid_out(
                    stitch::package_code(
                        config,
                        p.sections,
                        p.reg,
                        reexports,
                        pieces,
                        custom_elem_impls,
                    ),
                ) matches Ok(code) && out.last().content == "// @generated by buffa-codegen. DO NOT EDIT.\n\n"@
                    + code
        },
{
    reveal_strlit("");
    reveal_strlit("\n");
    reveal_strlit("// @generated by buffa-codegen. DO NOT EDIT.\n");
    reveal_strlit("// @generated by buffa-codegen. DO NOT EDIT.\n\n");
    let p = package::progress(config, package, files, outputs, files.len())->Ok_0;
    assert(out.drop_last() =~= p.files);
    let candidates = crate::codegen::root_names::all_candidates(config, p.reg, p.candidates);
    let reexports = crate::codegen::root_names::survivors(
        config,
        files,
        candidates,
        candidates.len(),
    );
    let code = stitch::package_code(
        config,
        p.sections,
        p.reg,
        reexports,
        pieces,
        custom_elem_impls,
    );
    assert(syntax::header_text(""@) =~= "// @generated by buffa-codegen. DO NOT EDIT.\n\n"@);
    assert(syntax::laid_out(code) is Ok);
}

} // verus!
