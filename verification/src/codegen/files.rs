//! The files that the generator puts out.
use vstd::prelude::*;
use vstd::string::*;

verus! {

/// What a generated file holds.
#[derive(Debug, Clone, Copy, PartialEq, Eq, Structural)]
#[non_exhaustive]
pub enum GeneratedFileKind {
    /// Owned message structs and enums.
    Owned,
    /// View structs.
    View,
    /// Lazy view structs.
    LazyView,
    /// Owned oneof enums.
    Oneof,
    /// View oneof enums.
    ViewOneof,
    /// File-level extension constants.
    Ext,
    /// The file that stitches a package together; the only one that a build has
    /// to wire up.
    PackageMod,
    /// Content of another generator that travels along; see
    /// [`apply_companions`].
    Companion,
}

/// One generated file.
#[derive(Debug)]
pub struct GeneratedFile {
    /// The file's name.
    pub name: String,
    /// The proto package that the file belongs to.
    pub package: String,
    /// What the file holds.
    pub kind: GeneratedFileKind,
    /// The generated source.
    pub content: String,
}

/// A generated file as text.
pub struct FileText {
    /// The file's name.
    pub name: Seq<char>,
    /// The proto package that the file belongs to.
    pub package: Seq<char>,
    /// What the file holds.
    pub kind: GeneratedFileKind,
    /// The generated source.
    pub content: Seq<char>,
}

impl View for GeneratedFile {
    type V = FileText;

    open spec fn view(&self) -> FileText {
        FileText {
            name: self.name@,
            package: self.package@,
            kind: self.kind,
            content: self.content@,
        }
    }
}

/// Generated files as text.
pub open spec fn file_texts(files: Seq<GeneratedFile>) -> Seq<FileText> {
    files.map_values(|f: GeneratedFile| f@)
}

/// Where a package's stitcher first stands among `files`, at or after `i`.
pub open spec fn stitcher_from(files: Seq<FileText>, package: Seq<char>, i: int) -> Option<int>
    decreases files.len() - i,
{
    if i < 0 || i >= files.len() {
        None
    } else if files[i].kind == GeneratedFileKind::PackageMod && files[i].package == package {
        Some(i)
    } else {
        stitcher_from(files, package, i + 1)
    }
}

/// The line that pulls a companion into its package's stitcher.
pub open spec fn companion_line(name: Seq<char>) -> Seq<char> {
    "include!(\""@ + name + "\");\n"@
}

/// The files once one companion has been pulled into its package's stitcher,
/// where there is one.
pub open spec fn with_companion(files: Seq<FileText>, companion: FileText) -> Seq<FileText> {
    match stitcher_from(files, companion.package, 0) {
        Some(i) => files.update(
            i,
            (FileText {
                name: files[i].name,
                package: files[i].package,
                kind: files[i].kind,
                content: files[i].content + companion_line(companion.name),
            }),
        ),
        None => files,
    }
}

/// The files once every companion has been pulled in.
pub open spec fn with_companions(files: Seq<FileText>, companions: Seq<FileText>) -> Seq<FileText>
    decreases companions.len(),
{
    if companions.len() == 0 {
        files
    } else {
        with_companion(with_companions(files, companions.drop_last()), companions.last())
    }
}

/// Where a package's stitcher first stands.
fn find_stitcher(files: &Vec<GeneratedFile>, package: &String) -> (r: Option<usize>)
    ensures
        match r {
            Some(i) => stitcher_from(file_texts(files@), package@, 0) == Some(i as int) && i
                < files@.len(),
            None => stitcher_from(file_texts(files@), package@, 0) == None::<int>,
        },
{
    let mut i: usize = 0;
    while i < files.len()
        invariant
            i <= files@.len(),
            stitcher_from(file_texts(files@), package@, 0) == stitcher_from(
                file_texts(files@),
                package@,
                i as int,
            ),
        decreases files@.len() - i,
    {
        assert(file_texts(files@)[i as int] == files@[i as int]@);
        if files[i].kind == GeneratedFileKind::PackageMod && files[i].package == *package {
            return Some(i);
        }
        i = i + 1;
    }
    None
}

/// Merge another generator's files into the output.
///
/// Each companion is pulled in at the end of its package's stitcher, and added
/// to the files. One whose package has no stitcher is added all the same; its
/// caller has to wire it up. Call this once: a second call pulls every companion
/// in a second time.
///
/// A companion's name is a bare file name, without quotes, slashes or line
/// breaks.
pub fn apply_companions(files: &mut Vec<GeneratedFile>, companions: Vec<GeneratedFile>)
    ensures
        file_texts(final(files)@) == with_companions(
            file_texts(old(files)@),
            file_texts(companions@),
        ) + file_texts(companions@),
{
    let ghost start = file_texts(files@);
    let ghost all = file_texts(companions@);
    let mut i: usize = 0;
    assert(all.take(0) =~= Seq::<FileText>::empty());
    while i < companions.len()
        invariant
            i <= companions@.len(),
            all == file_texts(companions@),
            file_texts(files@) == with_companions(start, all.take(i as int)),
        decreases companions@.len() - i,
    {
        let ghost before = files@;
        proof {
            assert(all.take(i as int + 1).drop_last() =~= all.take(i as int));
            assert(all.take(i as int + 1).last() == companions@[i as int]@);
        }
        match find_stitcher(files, &companions[i].package) {
            Some(at) => {
                let stitcher: &mut GeneratedFile = &mut files[at];
                stitcher.content.append("include!(\"");
                stitcher.content.append(companions[i].name.as_str());
                stitcher.content.append("\");\n");
                proof {
                    let name = companions@[i as int].name@;
                    assert(files@[at as int].content@ =~= before[at as int].content@
                        + companion_line(name));
                    assert(file_texts(files@) =~= with_companion(
                        file_texts(before),
                        companions@[i as int]@,
                    ));
                }
            },
            None => {},
        }
        i = i + 1;
    }
    let ghost pulled_in = files@;
    assert(all.take(all.len() as int) =~= all);
    let mut rest: Vec<GeneratedFile> = companions;
    files.append(&mut rest);
    assert(file_texts(files@) =~= file_texts(pulled_in) + all);
}

/// Companions touch nothing but the content of stitchers, and only add to it.
pub proof fn law_companions_only_add_to_stitchers(
    files: Seq<FileText>,
    companions: Seq<FileText>,
    i: int,
)
    requires
        0 <= i < files.len(),
    ensures
        with_companions(files, companions).len() == files.len(),
        ({
            let after = with_companions(files, companions)[i];
            &&& after.name == files[i].name
            &&& after.package == files[i].package
            &&& after.kind == files[i].kind
            &&& files[i].kind != GeneratedFileKind::PackageMod ==> after.content
                == files[i].content
            &&& files[i].content.len() <= after.content.len()
            &&& files[i].content == after.content.take(files[i].content.len() as int)
        }),
    decreases companions.len(),
{
    if companions.len() == 0 {
        assert(files[i].content.take(files[i].content.len() as int) =~= files[i].content);
    } else {
        let before = with_companions(files, companions.drop_last());
        law_companions_only_add_to_stitchers(files, companions.drop_last(), i);
        lemma_stitcher_from(before, companions.last().package, 0);
        let after = with_companions(files, companions);
        assert(files[i].content =~= after[i].content.take(files[i].content.len() as int)) by {
            assert(before[i].content =~= after[i].content.take(before[i].content.len() as int));
        }
    }
}

proof fn lemma_stitcher_from(files: Seq<FileText>, package: Seq<char>, i: int)
    requires
        0 <= i,
    ensures
        stitcher_from(files, package, i) matches Some(j) ==> i <= j < files.len()
            && files[j].kind == GeneratedFileKind::PackageMod && files[j].package == package,
    decreases files.len() - i,
{
    if i < files.len() {
        lemma_stitcher_from(files, package, i + 1);
    }
}

} // verus!
