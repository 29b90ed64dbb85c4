//! The parts of a file descriptor that the generator's decisions rest on.
use vstd::prelude::*;
use vstd::string::*;

verus! {

/// The kind of a field's value, with its features taken into account: a string
/// that is not validated as UTF-8 may count as bytes.
#[derive(Debug, Clone, Copy, PartialEq, Eq, Structural)]
pub enum FieldType {
    /// Text.
    Str,
    /// Bytes.
    Bytes,
    /// Anything else.
    Other,
}

/// What the entries of a map field hold.
#[derive(Debug, Clone, PartialEq, Eq)]
pub struct MapEntry {
    /// The kind of the keys, where the entry declares them.
    pub key: Option<FieldType>,
    /// The kind of the values, where the entry declares them.
    pub value: Option<FieldType>,
    /// The message or enum type of the values, with a leading dot.
    pub value_type: Option<String>,
    /// Whether the entry declares both keys and values.
    pub complete: bool,
}

/// A field, or an extension.
#[derive(Debug, Clone, PartialEq, Eq)]
pub struct FieldDescriptorProto {
    /// The field's name.
    pub name: Option<String>,
    /// The message or enum type, with a leading dot.
    pub type_ref: Option<String>,
    /// Whether the field is repeated.
    pub repeated: bool,
    /// The kind of the field's value.
    pub field_type: FieldType,
    /// The entries, where the field is a map.
    pub map_entry: Option<MapEntry>,
}

/// An enum.
#[derive(Debug, Clone, PartialEq, Eq)]
pub struct EnumDescriptorProto {
    /// The enum's name.
    pub name: Option<String>,
}

/// A message.
#[derive(Debug)]
pub struct DescriptorProto {
    /// The message's name.
    pub name: Option<String>,
    /// The snake_case form of the name: the module that nested types go to.
    pub module_name: String,
    /// The name of that module in the generated code, told apart from other
    /// modules in its scope.
    pub nested_module_name: String,
    /// The fields.
    pub field: Vec<FieldDescriptorProto>,
    /// The extensions declared in the message.
    pub extension: Vec<FieldDescriptorProto>,
    /// The messages declared in the message.
    pub nested_type: Vec<DescriptorProto>,
    /// The enums declared in the message.
    pub enum_type: Vec<EnumDescriptorProto>,
    /// Whether the message is the entry type of a map field.
    pub map_entry: bool,
}

/// A `.proto` file.
#[derive(Debug)]
pub struct FileDescriptorProto {
    /// The file's path.
    pub name: Option<String>,
    /// The package.
    pub package: Option<String>,
    /// The messages.
    pub message_type: Vec<DescriptorProto>,
    /// The enums.
    pub enum_type: Vec<EnumDescriptorProto>,
    /// The extensions.
    pub extension: Vec<FieldDescriptorProto>,
    /// The whole descriptor as it is encoded. Two descriptors are the same where
    /// their encodings are.
    pub encoded: Vec<u8>,
}

/// The text of an optional string, or `default` where there is none.
pub open spec fn text_or(s: Option<String>, default: Seq<char>) -> Seq<char> {
    match s {
        Some(s) => s@,
        None => default,
    }
}

/// The text of an optional string, or `default` where there is none.
pub fn str_or<'a>(s: &'a Option<String>, default: &'a str) -> (r: &'a str)
    ensures
        r@ == text_or(*s, default@),
{
    match s {
        Some(s) => s.as_str(),
        None => default,
    }
}

/// A name within a scope: behind the scope and a dot, where there is a scope.
pub open spec fn scoped(scope: Seq<char>, name: Seq<char>) -> Seq<char> {
    if scope.len() == 0 {
        name
    } else {
        scope + "."@ + name
    }
}

/// A name within a scope.
pub fn scoped_name(scope: &str, name: &str) -> (r: String)
    ensures
        r@ == scoped(scope@, name@),
{
    if scope.is_empty() {
        return name.to_owned();
    }
    let mut r: String = scope.to_owned();
    r.append(".");
    r.append(name);
    r
}

impl FileDescriptorProto {
    /// The package, or the empty string where there is none.
    pub open spec fn package_text(&self) -> Seq<char> {
        text_or(self.package, ""@)
    }

    /// The package, or the empty string where there is none.
    pub fn package_name(&self) -> (r: &str)
        ensures
            r@ == self.package_text(),
    {
        str_or(&self.package, "")
    }

    /// The file goes by this name.
    pub open spec fn is_named(&self, name: Seq<char>) -> bool {
        self.name is Some && self.name->Some_0@ == name
    }

    /// Whether the file goes by this name.
    pub fn has_name(&self, name: &String) -> (r: bool)
        ensures
            r == self.is_named(name@),
    {
        match &self.name {
            Some(n) => *n == *name,
            None => false,
        }
    }
}

/// Where a file first stands among descriptors, at or after `i`.
pub open spec fn file_from(files: Seq<FileDescriptorProto>, name: Seq<char>, i: int) -> Option<int>
    decreases files.len() - i,
{
    if i < 0 || i >= files.len() {
        None
    } else if files[i].is_named(name) {
        Some(i)
    } else {
        file_from(files, name, i + 1)
    }
}

/// Where a file stands among descriptors.
pub fn find_file(files: &Vec<FileDescriptorProto>, name: &String) -> (r: Option<usize>)
    ensures
        match r {
            Some(i) => file_from(files@, name@, 0) == Some(i as int) && i < files@.len()
                && files@[i as int].is_named(name@),
            None => file_from(files@, name@, 0) == None::<int>,
        },
{
    let mut i: usize = 0;
    while i < files.len()
        invariant
            i <= files@.len(),
            file_from(files@, name@, 0) == file_from(files@, name@, i as int),
        decreases files@.len() - i,
    {
        if files[i].has_name(name) {
            return Some(i);
        }
        i = i + 1;
    }
    None
}

} // verus!
