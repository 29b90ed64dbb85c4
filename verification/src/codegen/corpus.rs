//! State of a whole corpus that is worked out once and used for many packages.
use vstd::prelude::*;
use vstd::string::*;
use std::sync::Arc;
use crate::codegen::config::CodeGenConfig;
use crate::codegen::corpus_sizes;
use crate::codegen::descriptor::FileDescriptorProto;
use crate::codegen::errors::{CodeGenError, ErrorText};
use crate::codegen::repr::PointerRepr;
use crate::codegen::text;
use crate::codegen::text::push_text;

verus! {

/// What was worked out for a corpus.
#[derive(Debug)]
pub struct CorpusState {
    /// The oneof variants that are stored without a pointer.
    pub unboxed_oneof_variants: Vec<String>,
    /// The message fields that are stored inline.
    pub inlined_message_fields: Vec<String>,
    /// The message fields that could be stored inline under the default rules.
    pub acyclic_message_fields: Vec<String>,
    /// The comments, by fully-qualified name.
    pub comment_map: Vec<(String, String)>,
}

/// State of a whole corpus, with what it was worked out from.
///
/// It is valid for those files and rules alone; see
/// [`check`](SharedCorpusContext::check). A clone shares the state.
#[derive(Clone)]
pub struct SharedCorpusContext {
    files: Arc<Vec<FileDescriptorProto>>,
    unboxed_oneof_fields: Arc<Vec<String>>,
    pointer_fields: Arc<Vec<(String, PointerRepr)>>,
    state: Arc<CorpusState>,
}

/// A pointer rule as text.
pub enum PointerText {
    /// `Box`.
    Box,
    /// No pointer.
    Inline,
    /// The pointer with this template.
    Custom(Seq<char>),
}

/// A pointer rule as text.
pub open spec fn pointer_text(pointer: PointerRepr) -> PointerText {
    match pointer {
        PointerRepr::Box => PointerText::Box,
        PointerRepr::Inline => PointerText::Inline,
        PointerRepr::Custom(template) => PointerText::Custom(template@),
    }
}

/// Pointer rules as text.
pub open spec fn rule_texts(rules: Seq<(String, PointerRepr)>) -> Seq<(Seq<char>, PointerText)> {
    rules.map_values(|rule: (String, PointerRepr)| (rule.0@, pointer_text(rule.1)))
}

/// The encodings of files.
pub open spec fn encodings(files: Seq<FileDescriptorProto>) -> Seq<Seq<u8>> {
    files.map_values(|file: FileDescriptorProto| file.encoded@)
}

/// A copy of a pointer rule.
fn copy_pointer(pointer: &PointerRepr) -> (r: PointerRepr)
    ensures
        pointer_text(r) == pointer_text(*pointer),
{
    match pointer {
        PointerRepr::Box => PointerRepr::Box,
        PointerRepr::Inline => PointerRepr::Inline,
        PointerRepr::Custom(template) => PointerRepr::Custom(template.clone()),
    }
}

/// Whether two pointer rules are the same.
fn same_pointer(a: &PointerRepr, b: &PointerRepr) -> (r: bool)
    ensures
        r == (pointer_text(*a) == pointer_text(*b)),
{
    match (a, b) {
        (PointerRepr::Box, PointerRepr::Box) => true,
        (PointerRepr::Inline, PointerRepr::Inline) => true,
        (PointerRepr::Custom(x), PointerRepr::Custom(y)) => *x == *y,
        _ => false,
    }
}

/// A copy of pointer rules.
fn copy_rules(rules: &Vec<(String, PointerRepr)>) -> (r: Vec<(String, PointerRepr)>)
    ensures
        rule_texts(r@) == rule_texts(rules@),
{
    let mut r: Vec<(String, PointerRepr)> = Vec::new();
    let mut i: usize = 0;
    while i < rules.len()
        invariant
            i <= rules@.len(),
            rule_texts(r@) == rule_texts(rules@).take(i as int),
        decreases rules@.len() - i,
    {
        let ghost before = r@;
        r.push((rules[i].0.clone(), copy_pointer(&rules[i].1)));
        i = i + 1;
        assert(rule_texts(r@) =~= rule_texts(before).push(rule_texts(rules@)[i - 1]));
        assert(rule_texts(r@) =~= rule_texts(rules@).take(i as int));
    }
    assert(rule_texts(r@) =~= rule_texts(rules@));
    r
}

/// A copy of strings.
fn copy_texts(list: &Vec<String>) -> (r: Vec<String>)
    ensures
        text::texts(r@) == text::texts(list@),
{
    let mut r: Vec<String> = Vec::new();
    let mut i: usize = 0;
    while i < list.len()
        invariant
            i <= list@.len(),
            text::texts(r@) == text::texts(list@).take(i as int),
        decreases list@.len() - i,
    {
        push_text(&mut r, list[i].clone());
        i = i + 1;
        assert(text::texts(r@) =~= text::texts(list@).take(i as int));
    }
    assert(text::texts(r@) =~= text::texts(list@));
    r
}

/// Whether two lists of strings are the same.
fn same_texts(a: &Vec<String>, b: &Vec<String>) -> (r: bool)
    ensures
        r == (text::texts(a@) == text::texts(b@)),
{
    let ghost left = text::texts(a@);
    let ghost right = text::texts(b@);
    if a.len() != b.len() {
        assert(left.len() != right.len());
        return false;
    }
    let mut i: usize = 0;
    while i < a.len()
        invariant
            i <= a@.len(),
            a@.len() == b@.len(),
            left == text::texts(a@),
            right == text::texts(b@),
            forall|j: int| 0 <= j < i ==> left[j] == right[j],
        decreases a@.len() - i,
    {
        if a[i] != b[i] {
            assert(left[i as int] != right[i as int]);
            return false;
        }
        i = i + 1;
    }
    assert(left =~= right);
    true
}

/// Whether two lists of pointer rules are the same.
fn same_rules(a: &Vec<(String, PointerRepr)>, b: &Vec<(String, PointerRepr)>) -> (r: bool)
    ensures
        r == (rule_texts(a@) == rule_texts(b@)),
{
    let ghost left = rule_texts(a@);
    let ghost right = rule_texts(b@);
    if a.len() != b.len() {
        assert(left.len() != right.len());
        return false;
    }
    let mut i: usize = 0;
    while i < a.len()
        invariant
            i <= a@.len(),
            a@.len() == b@.len(),
            left == rule_texts(a@),
            right == rule_texts(b@),
            forall|j: int| 0 <= j < i ==> left[j] == right[j],
        decreases a@.len() - i,
    {
        if a[i].0 != b[i].0 || !same_pointer(&a[i].1, &b[i].1) {
            assert(left[i as int] != right[i as int]);
            return false;
        }
        i = i + 1;
    }
    assert(left =~= right);
    true
}

/// Whether two byte strings are the same.
fn same_bytes(a: &Vec<u8>, b: &Vec<u8>) -> (r: bool)
    ensures
        r == (a@ == b@),
{
    if a.len() != b.len() {
        return false;
    }
    let mut i: usize = 0;
    while i < a.len()
        invariant
            i <= a@.len(),
            a@.len() == b@.len(),
            forall|j: int| 0 <= j < i ==> a@[j] == b@[j],
        decreases a@.len() - i,
    {
        if a[i] != b[i] {
            return false;
        }
        i = i + 1;
    }
    assert(a@ =~= b@);
    true
}

/// Whether two lists hold the same files.
fn same_files(a: &Vec<FileDescriptorProto>, b: &Vec<FileDescriptorProto>) -> (r: bool)
    ensures
        r == (encodings(a@) == encodings(b@)),
{
    let ghost left = encodings(a@);
    let ghost right = encodings(b@);
    if a.len() != b.len() {
        assert(left.len() != right.len());
        return false;
    }
    let mut i: usize = 0;
    while i < a.len()
        invariant
            i <= a@.len(),
            a@.len() == b@.len(),
            left == encodings(a@),
            right == encodings(b@),
            forall|j: int| 0 <= j < i ==> left[j] == right[j],
        decreases a@.len() - i,
    {
        if !same_bytes(&a[i].encoded, &b[i].encoded) {
            assert(left[i as int] != right[i as int]);
            return false;
        }
        i = i + 1;
    }
    assert(left =~= right);
    true
}

impl SharedCorpusContext {
    /// The encodings of the files that the state was worked out from.
    pub closed spec fn of_files(&self) -> Seq<Seq<u8>> {
        encodings(self.files@)
    }

    /// The oneof rules that the state was worked out under.
    pub closed spec fn of_oneofs(&self) -> Seq<Seq<char>> {
        text::texts(self.unboxed_oneof_fields@)
    }

    /// The pointer rules that the state was worked out under.
    pub closed spec fn of_pointers(&self) -> Seq<(Seq<char>, PointerText)> {
        rule_texts(self.pointer_fields@)
    }

    /// The state.
    pub closed spec fn holds_state(&self) -> CorpusState {
        *self.state
    }

    /// What is wrong with using the context for these files under this
    /// configuration, if anything.
    pub open spec fn mismatch(
        &self,
        files: Seq<FileDescriptorProto>,
        config: CodeGenConfig,
    ) -> Option<ErrorText> {
        if encodings(files) != self.of_files() {
            Some(ErrorText::SharedCorpusContextMismatch { what: "files"@ })
        } else if text::texts(config.unboxed_oneof_fields@) != self.of_oneofs() {
            Some(ErrorText::SharedCorpusContextMismatch { what: "unboxed_oneof_fields"@ })
        } else if rule_texts(config.pointer_fields@) != self.of_pointers() {
            Some(ErrorText::SharedCorpusContextMismatch { what: "pointer_fields"@ })
        } else {
            None
        }
    }

    /// Keep the state that was worked out for `files` under the oneof and pointer
    /// rules of `config`.
    pub fn new(
        files: Arc<Vec<FileDescriptorProto>>,
        config: &CodeGenConfig,
        state: CorpusState,
    ) -> (context: Self)
        ensures
            context.of_files() == encodings(files@),
            context.of_oneofs() == text::texts(config.unboxed_oneof_fields@),
            context.of_pointers() == rule_texts(config.pointer_fields@),
            context.holds_state() == state,
    {
        SharedCorpusContext {
            files,
            unboxed_oneof_fields: Arc::new(copy_texts(&config.unboxed_oneof_fields)),
            pointer_fields: Arc::new(copy_rules(&config.pointer_fields)),
            state: Arc::new(state),
        }
    }

    /// Refuse a context of another corpus or of other rules. Files are compared
    /// whole, not by their names.
    pub fn check(&self, files: &Vec<FileDescriptorProto>, config: &CodeGenConfig) -> (result: Result<
        (),
        CodeGenError,
    >)
        ensures
            match self.mismatch(files@, *config) {
                Some(e) => result is Err && result->Err_0@ == e,
                None => result is Ok,
            },
    {
        let what: &'static str = if !same_files(files, &self.files) {
            "files"
        } else if !same_texts(&config.unboxed_oneof_fields, &self.unboxed_oneof_fields) {
            "unboxed_oneof_fields"
        } else if !same_rules(&config.pointer_fields, &self.pointer_fields) {
            "pointer_fields"
        } else {
            return Ok(());
        };
        Err(CodeGenError::SharedCorpusContextMismatch { what })
    }

    /// The state.
    pub fn state(&self) -> (state: &CorpusState)
        ensures
            *state == self.holds_state(),
    {
        &self.state
    }

    /// How much the context holds.
    pub fn sizes(&self) -> (sizes: corpus_sizes::SharedCorpusContext)
        ensures
            sizes.files == self.of_files().len(),
            sizes.unboxed_oneof_variants == self.holds_state().unboxed_oneof_variants@.len(),
            sizes.inlined_message_fields == self.holds_state().inlined_message_fields@.len(),
            sizes.acyclic_message_fields == self.holds_state().acyclic_message_fields@.len(),
            sizes.comments == self.holds_state().comment_map@.len(),
    {
        corpus_sizes::SharedCorpusContext {
            files: self.files.len(),
            unboxed_oneof_variants: self.state.unboxed_oneof_variants.len(),
            inlined_message_fields: self.state.inlined_message_fields.len(),
            acyclic_message_fields: self.state.acyclic_message_fields.len(),
            comments: self.state.comment_map.len(),
        }
    }
}

impl core::fmt::Debug for SharedCorpusContext {
    /// Write out the [`sizes`](SharedCorpusContext::sizes) alone.
    fn fmt(&self, f: &mut core::fmt::Formatter<'_>) -> core::fmt::Result {
        corpus_sizes::show(&self.sizes(), f)
    }
}

/// A context fits the files and the rules that it was made from.
pub proof fn law_context_fits_its_corpus(
    context: SharedCorpusContext,
    files: Seq<FileDescriptorProto>,
    config: CodeGenConfig,
)
    requires
        context.of_files() == encodings(files),
        context.of_oneofs() == text::texts(config.unboxed_oneof_fields@),
        context.of_pointers() == rule_texts(config.pointer_fields@),
    ensures
        context.mismatch(files, config) is None,
{
}

} // verus!
