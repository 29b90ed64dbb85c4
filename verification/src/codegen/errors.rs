//! Why generation failed.
use vstd::prelude::*;
use vstd::string::*;

verus! {

/// Why generation failed.
#[derive(Debug, Clone)]
#[non_exhaustive]
pub enum CodeGenError {
    /// A required field was absent in a descriptor.
    MissingField(&'static str),
    /// A type path does not parse as a Rust type.
    InvalidTypePath(String),
    /// A pointer template has no `*` for the message type.
    MissingWildcard(String),
    /// A collection template has no `*` for the element type.
    MissingListPlaceholder(String),
    /// The generated code does not parse as Rust.
    InvalidSyntax(String),
    /// A requested file is not in the descriptor set.
    FileNotFound(String),
    /// An option or a descriptor that cannot be worked with.
    Other(String),
    /// A field name begins with the reserved prefix.
    ReservedFieldName {
        /// The message.
        message_name: String,
        /// The field.
        field_name: String,
    },
    /// Two sibling messages go to the same module.
    ModuleNameConflict {
        /// Where the messages are declared.
        scope: String,
        /// One message.
        name_a: String,
        /// The other message.
        name_b: String,
        /// The module that both go to.
        module_name: String,
    },
    /// A proto element would take a reserved name.
    ReservedModuleName {
        /// The reserved name.
        name: String,
        /// Where it would be taken.
        location: String,
    },
    /// A shared corpus context was made for other files or other rules.
    SharedCorpusContextMismatch {
        /// What differs.
        what: &'static str,
    },
    /// A message uses the legacy message-set wire format.
    MessageSetNotSupported {
        /// The message.
        message_name: String,
    },
    /// A custom attribute does not parse.
    InvalidCustomAttribute {
        /// The path that the attribute is for.
        path: String,
        /// The attribute.
        attribute: String,
        /// What is wrong with it.
        detail: String,
    },
    /// The prefix of type names is not PascalCase.
    InvalidTypeNamePrefix {
        /// The prefix.
        prefix: String,
    },
}

/// An error, with its strings as text.
pub enum ErrorText {
    /// A required field was absent in a descriptor.
    MissingField(Seq<char>),
    /// A type path does not parse as a Rust type.
    InvalidTypePath(Seq<char>),
    /// A pointer template has no `*` for the message type.
    MissingWildcard(Seq<char>),
    /// A collection template has no `*` for the element type.
    MissingListPlaceholder(Seq<char>),
    /// The generated code does not parse as Rust.
    InvalidSyntax(Seq<char>),
    /// A requested file is not in the descriptor set.
    FileNotFound(Seq<char>),
    /// An option or a descriptor that cannot be worked with.
    Other(Seq<char>),
    /// A field name begins with the reserved prefix.
    ReservedFieldName {
        /// The message.
        message_name: Seq<char>,
        /// The field.
        field_name: Seq<char>,
    },
    /// Two sibling messages go to the same module.
    ModuleNameConflict {
        /// Where the messages are declared.
        scope: Seq<char>,
        /// One message.
        name_a: Seq<char>,
        /// The other message.
        name_b: Seq<char>,
        /// The module that both go to.
        module_name: Seq<char>,
    },
    /// A proto element would take a reserved name.
    ReservedModuleName {
        /// The reserved name.
        name: Seq<char>,
        /// Where it would be taken.
        location: Seq<char>,
    },
    /// A shared corpus context was made for other files or other rules.
    SharedCorpusContextMismatch {
        /// What differs.
        what: Seq<char>,
    },
    /// A message uses the legacy message-set wire format.
    MessageSetNotSupported {
        /// The message.
        message_name: Seq<char>,
    },
    /// A custom attribute does not parse.
    InvalidCustomAttribute {
        /// The path that the attribute is for.
        path: Seq<char>,
        /// The attribute.
        attribute: Seq<char>,
        /// What is wrong with it.
        detail: Seq<char>,
    },
    /// The prefix of type names is not PascalCase.
    InvalidTypeNamePrefix {
        /// The prefix.
        prefix: Seq<char>,
    },
}

impl View for CodeGenError {
    type V = ErrorText;

    open spec fn view(&self) -> ErrorText {
        match self {
            CodeGenError::MissingField(s) => ErrorText::MissingField(s@),
            CodeGenError::InvalidTypePath(s) => ErrorText::InvalidTypePath(s@),
            CodeGenError::MissingWildcard(s) => ErrorText::MissingWildcard(s@),
            CodeGenError::MissingListPlaceholder(s) => ErrorText::MissingListPlaceholder(s@),
            CodeGenError::InvalidSyntax(s) => ErrorText::InvalidSyntax(s@),
            CodeGenError::FileNotFound(s) => ErrorText::FileNotFound(s@),
            CodeGenError::Other(s) => ErrorText::Other(s@),
            CodeGenError::ReservedFieldName { message_name, field_name } => ErrorText::ReservedFieldName {
                message_name: message_name@,
                field_name: field_name@,
            },
            CodeGenError::ModuleNameConflict { scope, name_a, name_b, module_name } => ErrorText::ModuleNameConflict {
                scope: scope@,
                name_a: name_a@,
                name_b: name_b@,
                module_name: module_name@,
            },
            CodeGenError::ReservedModuleName { name, location } => ErrorText::ReservedModuleName {
                name: name@,
                location: location@,
            },
            CodeGenError::SharedCorpusContextMismatch { what } => ErrorText::SharedCorpusContextMismatch {
                what: what@,
            },
            CodeGenError::MessageSetNotSupported { message_name } => ErrorText::MessageSetNotSupported {
                message_name: message_name@,
            },
            CodeGenError::InvalidCustomAttribute { path, attribute, detail } => ErrorText::InvalidCustomAttribute {
                path: path@,
                attribute: attribute@,
                detail: detail@,
            },
            CodeGenError::InvalidTypeNamePrefix { prefix } => ErrorText::InvalidTypeNamePrefix {
                prefix: prefix@,
            },
        }
    }
}

/// An error in words.
pub open spec fn error_text(error: ErrorText) -> Seq<char> {
    match error {
        ErrorText::MissingField(s) => "missing required descriptor field: "@ + s,
        ErrorText::InvalidTypePath(s) => "invalid Rust type path: '"@ + s + "'"@,
        ErrorText::MissingWildcard(s) => "box_type template must contain a `*` placeholder for the message type: '"@ + s + "'"@,
        ErrorText::MissingListPlaceholder(s) => "repeated_type template must contain a `*` element placeholder: '"@ + s + "'"@,
        ErrorText::InvalidSyntax(s) => "generated code failed to parse as Rust: "@ + s,
        ErrorText::FileNotFound(s) => "file_to_generate '"@ + s + "' not found in descriptor set"@,
        ErrorText::Other(s) => "codegen error: "@ + s,
        ErrorText::ReservedFieldName { message_name, field_name } => "reserved field name '"@ + field_name + "' in message '"@ + message_name + "': proto field names starting with '__buffa_' conflict with buffa's internal fields"@,
        ErrorText::ModuleNameConflict { scope, name_a, name_b, module_name } => "module name conflict in '"@ + scope + "': messages '"@ + name_a + "' and '"@ + name_b + "' both produce module '"@ + module_name + "'"@,
        ErrorText::ReservedModuleName { name, location } => "reserved name '"@ + name + "' at "@ + location + ": this name is reserved for buffa's generated ancillary types (views, oneof enums, extensions). Rename the proto element."@,
        ErrorText::SharedCorpusContextMismatch { what } => "shared_corpus_context was built from different "@ + what + " than this generate() call; build it from the same files and oneof/pointer-repr config as every call that uses it"@,
        ErrorText::MessageSetNotSupported { message_name } => "message '"@ + message_name + "' uses `option message_set_wire_format = true` but CodeGenConfig::allow_message_set is false; MessageSet is a legacy wire format — set allow_message_set(true) if this is intentional"@,
        ErrorText::InvalidCustomAttribute { path, attribute, detail } => "invalid custom attribute for path '"@ + path + "': '"@ + attribute + "' is not a valid Rust attribute ("@ + detail + ")"@,
        ErrorText::InvalidTypeNamePrefix { prefix } => "invalid type_name_prefix '"@ + prefix + "': must be empty or PascalCase (start with an ASCII uppercase letter, followed by ASCII letters and digits only)"@,
    }
}

impl CodeGenError {
    /// The error in words.
    pub fn message(&self) -> (r: String)
        ensures
            r@ == error_text(self@),
    {
        match self {
            CodeGenError::MissingField(s) => {
                let mut r: String = "missing required descriptor field: ".to_owned();
                r.append(s);
                r
            },
            CodeGenError::InvalidTypePath(s) => {
                let mut r: String = "invalid Rust type path: '".to_owned();
                r.append(s.as_str());
                r.append("'");
                r
            },
            CodeGenError::MissingWildcard(s) => {
                let mut r: String = "box_type template must contain a `*` placeholder for the message type: '".to_owned();
                r.append(s.as_str());
                r.append("'");
                r
            },
            CodeGenError::MissingListPlaceholder(s) => {
                let mut r: String = "repeated_type template must contain a `*` element placeholder: '".to_owned();
                r.append(s.as_str());
                r.append("'");
                r
            },
            CodeGenError::InvalidSyntax(s) => {
                let mut r: String = "generated code failed to parse as Rust: ".to_owned();
                r.append(s.as_str());
                r
            },
            CodeGenError::FileNotFound(s) => {
                let mut r: String = "file_to_generate '".to_owned();
                r.append(s.as_str());
                r.append("' not found in descriptor set");
                r
            },
            CodeGenError::Other(s) => {
                let mut r: String = "codegen error: ".to_owned();
                r.append(s.as_str());
                r
            },
            CodeGenError::ReservedFieldName { message_name, field_name } => {
                let mut r: String = "reserved field name '".to_owned();
                r.append(field_name.as_str());
                r.append("' in message '");
                r.append(message_name.as_str());
                r.append("': proto field names starting with '__buffa_' conflict with buffa's internal fields");
                r
            },
            CodeGenError::ModuleNameConflict { scope, name_a, name_b, module_name } => {
                let mut r: String = "module name conflict in '".to_owned();
                r.append(scope.as_str());
                r.append("': messages '");
                r.append(name_a.as_str());
                r.append("' and '");
                r.append(name_b.as_str());
                r.append("' both produce module '");
                r.append(module_name.as_str());
                r.append("'");
                r
            },
            CodeGenError::ReservedModuleName { name, location } => {
                let mut r: String = "reserved name '".to_owned();
                r.append(name.as_str());
                r.append("' at ");
                r.append(location.as_str());
                r.append(": this name is reserved for buffa's generated ancillary types (views, oneof enums, extensions). Rename the proto element.");
                r
            },
            CodeGenError::SharedCorpusContextMismatch { what } => {
                let mut r: String = "shared_corpus_context was built from different ".to_owned();
                r.append(what);
                r.append(" than this generate() call; build it from the same files and oneof/pointer-repr config as every call that uses it");
                r
            },
            CodeGenError::MessageSetNotSupported { message_name } => {
                let mut r: String = "message '".to_owned();
                r.append(message_name.as_str());
                r.append("' uses `option message_set_wire_format = true` but CodeGenConfig::allow_message_set is false; MessageSet is a legacy wire format — set allow_message_set(true) if this is intentional");
                r
            },
            CodeGenError::InvalidCustomAttribute { path, attribute, detail } => {
                let mut r: String = "invalid custom attribute for path '".to_owned();
                r.append(path.as_str());
                r.append("': '");
                r.append(attribute.as_str());
                r.append("' is not a valid Rust attribute (");
                r.append(detail.as_str());
                r.append(")");
                r
            },
            CodeGenError::InvalidTypeNamePrefix { prefix } => {
                let mut r: String = "invalid type_name_prefix '".to_owned();
                r.append(prefix.as_str());
                r.append("': must be empty or PascalCase (start with an ASCII uppercase letter, followed by ASCII letters and digits only)");
                r
            },
        }
    }
}

} // verus!
