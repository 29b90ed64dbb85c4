//! The names at the root of a package: which of them are taken, and which could
//! be re-exported there.
use vstd::prelude::*;
use vstd::string::*;
use crate::codegen::config::CodeGenConfig;
use crate::codegen::content;
use crate::codegen::content::{
    glue, CandidateText, ReexportCandidate, RegistryPaths, RegistryText,
};
use crate::codegen::descriptor;
use crate::codegen::descriptor::{str_or, DescriptorProto, EnumDescriptorProto, FileDescriptorProto};
use crate::codegen::gates;
use crate::codegen::gates::cfg_block_any;
use crate::codegen::names::NameSet;
use crate::codegen::packages::SENTINEL_MOD;

verus! {

/// One of the first `k` messages takes the name `n` at the root of its package,
/// by its type or by its module.
pub open spec fn messages_occupy(
    config: CodeGenConfig,
    messages: Seq<DescriptorProto>,
    k: nat,
    n: Seq<char>,
) -> bool
    decreases k,
{
    k > 0 && k <= messages.len() && {
        ||| messages_occupy(config, messages, (k - 1) as nat, n)
        ||| n == config.type_name_prefix@ + descriptor::text_or(messages[k - 1].name, ""@)
        ||| n == messages[k - 1].nested_module_name@
    }
}

/// One of the first `k` enums takes the name `n` at the root of its package.
pub open spec fn enums_occupy(
    config: CodeGenConfig,
    enums: Seq<EnumDescriptorProto>,
    k: nat,
    n: Seq<char>,
) -> bool
    decreases k,
{
    k > 0 && k <= enums.len() && {
        ||| enums_occupy(config, enums, (k - 1) as nat, n)
        ||| n == config.type_name_prefix@ + descriptor::text_or(enums[k - 1].name, ""@)
    }
}

/// Something in one of the first `k` files takes the name `n` at the root of the
/// package.
pub open spec fn files_occupy(
    config: CodeGenConfig,
    files: Seq<&FileDescriptorProto>,
    k: nat,
    n: Seq<char>,
) -> bool
    decreases k,
{
    k > 0 && k <= files.len() && {
        ||| files_occupy(config, files, (k - 1) as nat, n)
        ||| messages_occupy(
            config,
            files[k - 1].message_type@,
            files[k - 1].message_type@.len(),
            n,
        )
        ||| enums_occupy(config, files[k - 1].enum_type@, files[k - 1].enum_type@.len(), n)
    }
}

/// The name `n` is taken at the root of a package: by a type or a module of any
/// of its files, by the reserved module, or by what reflection re-exports.
pub open spec fn occupied(
    config: CodeGenConfig,
    files: Seq<&FileDescriptorProto>,
    n: Seq<char>,
) -> bool {
    ||| n == SENTINEL_MOD@
    ||| files_occupy(config, files, files.len(), n)
    ||| config.generate_reflection && (n == "descriptor_pool"@ || n
        == "FILE_DESCRIPTOR_SET_BYTES"@)
}

/// Find the names that a file takes at the root of its package.
fn add_occupied(config: &CodeGenConfig, file: &FileDescriptorProto, out: &mut NameSet)
    requires
        old(out).wf(),
    ensures
        final(out).wf(),
        forall|n: Seq<char>| #[trigger]
            final(out).has(n) <==> old(out).has(n) || messages_occupy(
                *config,
                file.message_type@,
                file.message_type@.len(),
                n,
            ) || enums_occupy(*config, file.enum_type@, file.enum_type@.len(), n),
{
    let mut i: usize = 0;
    while i < file.message_type.len()
        invariant
            i <= file.message_type@.len(),
            out.wf(),
            forall|n: Seq<char>| #[trigger]
                out.has(n) <==> old(out).has(n) || messages_occupy(
                    *config,
                    file.message_type@,
                    i as nat,
                    n,
                ),
        decreases file.message_type@.len() - i,
    {
        let ghost before = *out;
        let msg: &DescriptorProto = &file.message_type[i];
        out.insert(config.prefixed_type_name(str_or(&msg.name, "")));
        let ghost with_type = *out;
        out.insert(msg.nested_module_name.clone());
        i = i + 1;
        assert forall|n: Seq<char>| #[trigger] out.has(n) <==> old(out).has(n) || messages_occupy(
            *config,
            file.message_type@,
            i as nat,
            n,
        ) by {
            assert(with_type.has(n) || !with_type.has(n));
            assert(before.has(n) <==> old(out).has(n) || messages_occupy(
                *config,
                file.message_type@,
                (i - 1) as nat,
                n,
            ));
        }
    }
    let ghost with_messages = *out;
    let mut j: usize = 0;
    while j < file.enum_type.len()
        invariant
            j <= file.enum_type@.len(),
            out.wf(),
            forall|n: Seq<char>| #[trigger]
                out.has(n) <==> with_messages.has(n) || enums_occupy(
                    *config,
                    file.enum_type@,
                    j as nat,
                    n,
                ),
        decreases file.enum_type@.len() - j,
    {
        let ghost before = *out;
        out.insert(config.prefixed_type_name(str_or(&file.enum_type[j].name, "")));
        j = j + 1;
        assert forall|n: Seq<char>| #[trigger] out.has(n) <==> with_messages.has(n)
            || enums_occupy(*config, file.enum_type@, j as nat, n) by {
            assert(before.has(n) <==> with_messages.has(n) || enums_occupy(
                *config,
                file.enum_type@,
                (j - 1) as nat,
                n,
            ));
        }
    }
    assert forall|n: Seq<char>| #[trigger] out.has(n) <==> old(out).has(n) || messages_occupy(
        *config,
        file.message_type@,
        file.message_type@.len(),
        n,
    ) || enums_occupy(*config, file.enum_type@, file.enum_type@.len(), n) by {
        assert(with_messages.has(n) || !with_messages.has(n));
    }
}

/// Find the names that are taken at the root of a package.
///
/// The root is shared by all files of the package, so all of them count.
pub fn root_occupied_names(config: &CodeGenConfig, files: &Vec<&FileDescriptorProto>) -> (out:
    NameSet)
    ensures
        out.wf(),
        forall|n: Seq<char>| #[trigger] out.has(n) <==> occupied(*config, files@, n),
{
    let mut out: NameSet = NameSet::new();
    let ghost empty = out;
    assert(forall|n: Seq<char>| !#[trigger] empty.has(n));
    out.insert(SENTINEL_MOD.to_owned());
    let ghost with_sentinel = out;
    let mut i: usize = 0;
    while i < files.len()
        invariant
            i <= files@.len(),
            out.wf(),
            forall|n: Seq<char>| #[trigger] with_sentinel.has(n) <==> n == SENTINEL_MOD@,
            forall|n: Seq<char>| #[trigger]
                out.has(n) <==> with_sentinel.has(n) || files_occupy(
                    *config,
                    files@,
                    i as nat,
                    n,
                ),
        decreases files@.len() - i,
    {
        let ghost before = out;
        add_occupied(config, files[i], &mut out);
        i = i + 1;
        assert forall|n: Seq<char>| #[trigger] out.has(n) <==> with_sentinel.has(n)
            || files_occupy(*config, files@, i as nat, n) by {
            assert(before.has(n) <==> with_sentinel.has(n) || files_occupy(
                *config,
                files@,
                (i - 1) as nat,
                n,
            ));
        }
    }
    let ghost with_files = out;
    if config.generate_reflection {
        out.insert("descriptor_pool".to_owned());
        let ghost with_pool = out;
        out.insert("FILE_DESCRIPTOR_SET_BYTES".to_owned());
        assert forall|n: Seq<char>| #[trigger] out.has(n) <==> with_files.has(n) || n
            == "descriptor_pool"@ || n == "FILE_DESCRIPTOR_SET_BYTES"@ by {
            assert(with_pool.has(n) || !with_pool.has(n));
        }
    }
    assert forall|n: Seq<char>| #[trigger] out.has(n) <==> occupied(*config, files@, n) by {
        assert(with_files.has(n) <==> with_sentinel.has(n) || files_occupy(
            *config,
            files@,
            files@.len(),
            n,
        ));
        assert(with_sentinel.has(n) <==> n == SENTINEL_MOD@);
    }
    out
}

/// No other candidate has the name of the one at `i`.
pub open spec fn only_one(candidates: Seq<CandidateText>, i: int) -> bool {
    forall|j: int|
        0 <= j < candidates.len() && j != i ==> (#[trigger] candidates[j]).name
            != candidates[i].name
}

/// The re-exports among the first `k` candidates that survive: those whose name
/// is neither taken at the root nor shared with another candidate.
pub open spec fn survivors(
    config: CodeGenConfig,
    files: Seq<&FileDescriptorProto>,
    candidates: Seq<CandidateText>,
    k: nat,
) -> Seq<char>
    decreases k,
{
    if k == 0 || k > candidates.len() {
        Seq::empty()
    } else {
        let before = survivors(config, files, candidates, (k - 1) as nat);
        if survives(config, files, candidates, k - 1) {
            content::glued(before, candidates[k - 1].tokens)
        } else {
            before
        }
    }
}

/// A package has a function that registers its types.
pub open spec fn registers(config: CodeGenConfig, reg: RegistryText) -> bool {
    config.emit_register_fn && !reg.nothing()
}

/// The re-export of the function that registers a package's types.
pub open spec fn register_reexport(config: CodeGenConfig) -> CandidateText {
    CandidateText {
        name: "register_types"@,
        tokens: gates::gated_any(
            "#[doc(inline)] pub use self::"@ + SENTINEL_MOD@ + "::register_types;"@,
            config.json_gate(),
            config.text_gate(),
        ),
    }
}

/// All candidates for re-export.
pub open spec fn all_candidates(
    config: CodeGenConfig,
    reg: RegistryText,
    candidates: Seq<CandidateText>,
) -> Seq<CandidateText> {
    if registers(config, reg) {
        candidates.push(register_reexport(config))
    } else {
        candidates
    }
}

/// Whether no other candidate has the name of the one at `i`.
fn is_only_one(candidates: &Vec<ReexportCandidate>, i: usize) -> (r: bool)
    requires
        i < candidates@.len(),
    ensures
        r == only_one(content::candidate_texts(candidates@), i as int),
{
    let ghost all = content::candidate_texts(candidates@);
    let mut j: usize = 0;
    while j < candidates.len()
        invariant
            j <= candidates@.len(),
            i < candidates@.len(),
            all == content::candidate_texts(candidates@),
            forall|m: int| 0 <= m < j && m != i ==> (#[trigger] all[m]).name != all[i as int].name,
        decreases candidates@.len() - j,
    {
        assert(all[j as int].name == candidates@[j as int].name@);
        assert(all[i as int].name == candidates@[i as int].name@);
        if j != i && candidates[j].name == candidates[i].name {
            return false;
        }
        j = j + 1;
    }
    true
}

/// Render the re-exports that survive.
pub fn surviving_root_reexports(
    config: &CodeGenConfig,
    files: &Vec<&FileDescriptorProto>,
    reg: &RegistryPaths,
    candidates: Vec<ReexportCandidate>,
) -> (r: String)
    ensures
        ({
            let all = all_candidates(*config, reg@, content::candidate_texts(candidates@));
            r@ == survivors(*config, files@, all, all.len())
        }),
{
    let occupied_names: NameSet = root_occupied_names(config, files);
    let mut candidates: Vec<ReexportCandidate> = candidates;
    let ghost given = content::candidate_texts(candidates@);
    if config.emit_register_fn && !reg.is_empty() {
        let mut code: String = "#[doc(inline)] pub use self::".to_owned();
        code.append(SENTINEL_MOD);
        code.append("::register_types;");
        let gates = config.feature_gates();
        candidates.push(
            ReexportCandidate {
                name: "register_types".to_owned(),
                tokens: cfg_block_any(code.as_str(), gates.json, gates.text),
            },
        );
        assert(content::candidate_texts(candidates@) =~= given.push(register_reexport(*config)));
    }
    let ghost all = content::candidate_texts(candidates@);
    let mut r: String = String::new();
    let mut i: usize = 0;
    while i < candidates.len()
        invariant
            i <= candidates@.len(),
            all == content::candidate_texts(candidates@),
            forall|n: Seq<char>| #[trigger]
                occupied_names.has(n) <==> occupied(*config, files@, n),
            r@ == survivors(*config, files@, all, i as nat),
        decreases candidates@.len() - i,
    {
        assert(all[i as int] == candidates@[i as int]@);
        if !occupied_names.contains(candidates[i].name.as_str()) && is_only_one(&candidates, i) {
            glue(&mut r, candidates[i].tokens.as_str());
        }
        i = i + 1;
    }
    r
}

/// One of the first `k` candidates goes by the name `n`.
pub open spec fn offered(candidates: Seq<CandidateText>, k: nat, n: Seq<char>) -> bool {
    exists|i: int| 0 <= i < k && i < candidates.len() && (#[trigger] candidates[i]).name == n
}

/// Find the names that no import may claim at the root of a package: those that
/// are taken, those that are re-exported if they survive, and the function that
/// registers the package's types.
pub fn import_reserved_names(
    config: &CodeGenConfig,
    files: &Vec<&FileDescriptorProto>,
    candidates: &Vec<ReexportCandidate>,
) -> (out: NameSet)
    ensures
        out.wf(),
        forall|n: Seq<char>| #[trigger]
            out.has(n) <==> occupied(*config, files@, n) || offered(
                content::candidate_texts(candidates@),
                candidates@.len(),
                n,
            ) || n == "register_types"@,
{
    let mut out: NameSet = root_occupied_names(config, files);
    let ghost all = content::candidate_texts(candidates@);
    let mut i: usize = 0;
    while i < candidates.len()
        invariant
            i <= candidates@.len(),
            all == content::candidate_texts(candidates@),
            out.wf(),
            forall|n: Seq<char>| #[trigger]
                out.has(n) <==> occupied(*config, files@, n) || offered(all, i as nat, n),
        decreases candidates@.len() - i,
    {
        let ghost before = out;
        out.insert(candidates[i].name.clone());
        i = i + 1;
        assert forall|n: Seq<char>| #[trigger] out.has(n) <==> occupied(*config, files@, n)
            || offered(all, i as nat, n) by {
            assert(all[i - 1].name == candidates@[i - 1].name@);
            assert(before.has(n) <==> occupied(*config, files@, n) || offered(
                all,
                (i - 1) as nat,
                n,
            ));
        }
    }
    let ghost before = out;
    out.insert("register_types".to_owned());
    assert forall|n: Seq<char>| #[trigger] out.has(n) <==> occupied(*config, files@, n) || offered(
        all,
        candidates@.len(),
        n,
    ) || n == "register_types"@ by {
        assert(before.has(n) || !before.has(n));
    }
    out
}

/// A candidate survives.
pub open spec fn survives(
    config: CodeGenConfig,
    files: Seq<&FileDescriptorProto>,
    candidates: Seq<CandidateText>,
    i: int,
) -> bool {
    !occupied(config, files, candidates[i].name) && only_one(candidates, i)
}

/// What is re-exported collides with nothing: its name is neither that of
/// anything at the root of the package nor that of anything else re-exported.
pub proof fn law_survivors_never_collide(
    config: CodeGenConfig,
    files: Seq<&FileDescriptorProto>,
    candidates: Seq<CandidateText>,
    i: int,
    j: int,
)
    requires
        0 <= i < candidates.len(),
        0 <= j < candidates.len(),
        i != j,
        survives(config, files, candidates, i),
    ensures
        !occupied(config, files, candidates[i].name),
        candidates[i].name != candidates[j].name,
{
}

} // verus!
