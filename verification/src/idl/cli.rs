//! What the command line compiler decides: target languages, and names and contents of the files
//! that it writes.
use vstd::prelude::*;
use crate::idl;
use crate::idl::codegen::Target;
use crate::idl::{generate_cpp, generate_python, generate_rust};
use crate::text::same_text;

verus! {

/// The language that a name stands for.
pub open spec fn target_named(name: Seq<char>) -> Option<Target> {
    if name == "rust"@ {
        Some(Target::Rust)
    } else if name == "python"@ {
        Some(Target::Python)
    } else if name == "cpp"@ {
        Some(Target::Cpp)
    } else {
        None
    }
}

/// The language that a name stands for.
pub fn parse_target(name: &str) -> (target: Option<Target>)
    ensures
        target == target_named(name@),
{
    if same_text(name, "rust") {
        Some(Target::Rust)
    } else if same_text(name, "python") {
        Some(Target::Python)
    } else if same_text(name, "cpp") {
        Some(Target::Cpp)
    } else {
        None
    }
}

/// The languages that names stand for, or a message about the first name that stands for none.
pub fn check_languages(names: &Vec<String>) -> (r: Result<Vec<Target>, String>)
    ensures
        match r {
            Ok(targets) => {
                &&& targets@.len() == names@.len()
                &&& forall|i: int|
                    0 <= i < names@.len() ==> target_named((#[trigger] names@[i])@) == Some(
                        targets@[i],
                    )
            },
            Err(message) => exists|i: int|
                #![trigger names@[i]]
                {
                    &&& 0 <= i < names@.len()
                    &&& target_named(names@[i]@) is None
                    &&& forall|j: int| 0 <= j < i ==> target_named((#[trigger] names@[j])@) is Some
                    &&& message@ == "unknown language '"@ + names@[i]@
                        + "' (expected: rust, python, cpp)"@
                },
        },
{
    let mut targets: Vec<Target> = Vec::new();
    let mut i: usize = 0;
    while i < names.len()
        invariant
            i <= names@.len(),
            targets@.len() == i,
            forall|j: int|
                0 <= j < i ==> target_named((#[trigger] names@[j])@) == Some(targets@[j]),
        decreases names@.len() - i,
    {
        match parse_target(names[i].as_str()) {
            Some(target) => targets.push(target),
            None => {
                let mut message: String = String::new();
                message.append("unknown language '");
                message.append(names[i].as_str());
                message.append("' (expected: rust, python, cpp)");
                assert(message@ =~= "unknown language '"@ + names@[i as int]@
                    + "' (expected: rust, python, cpp)"@);
                return Err(message);
            },
        }
        i = i + 1;
    }
    Ok(targets)
}

/// The ending of the files of a language.
pub open spec fn extension(target: Target) -> Seq<char> {
    match target {
        Target::Rust => ".rs"@,
        Target::Python => ".py"@,
        Target::Cpp => ".hpp"@,
    }
}

/// The name of the file for a schema in a language.
pub fn file_name(stem: &str, target: Target) -> (name: String)
    ensures
        name@ == stem@ + extension(target),
{
    let mut name: String = String::new();
    name.append(stem);
    match target {
        Target::Rust => name.append(".rs"),
        Target::Python => name.append(".py"),
        Target::Cpp => name.append(".hpp"),
    }
    assert(name@ =~= stem@ + extension(target));
    name
}

/// The code for a source in a language.
pub fn generate(target: Target, input: &str) -> (r: Result<String, String>)
    requires
        vstd::utf8::encode_utf8(input@).len() < usize::MAX,
        idl::source_fits(vstd::utf8::encode_utf8(input@)),
    ensures
        match idl::code_of(target, vstd::utf8::encode_utf8(input@)) {
            Ok(code) => r matches Ok(found) && found@ == code,
            Err(message) => r matches Err(found) && found@ == message,
        },
{
    match target {
        Target::Rust => generate_rust(input),
        Target::Python => generate_python(input),
        Target::Cpp => generate_cpp(input),
    }
}

/// A file to write.
#[derive(Debug, Clone)]
pub struct OutputFile {
    pub name: String,
    pub code: String,
}

/// The files to write for a source in a list of languages, in order; or the message that says
/// why there are none.
pub fn run_compile(source: &str, stem: &str, targets: &Vec<Target>) -> (r: Result<
    Vec<OutputFile>,
    String,
>)
    requires
        vstd::utf8::encode_utf8(source@).len() < usize::MAX,
        idl::source_fits(vstd::utf8::encode_utf8(source@)),
    ensures
        match r {
            Ok(files) => {
                &&& files@.len() == targets@.len()
                &&& forall|i: int|
                    0 <= i < targets@.len() ==> {
                        &&& (#[trigger] files@[i]).name@ == stem@ + extension(targets@[i])
                        &&& idl::code_of(targets@[i], vstd::utf8::encode_utf8(source@)) == Ok::<
                            Seq<char>,
                            Seq<char>,
                        >(files@[i].code@)
                    }
            },
            Err(message) => {
                &&& targets@.len() > 0
                &&& idl::code_of(targets@[0], vstd::utf8::encode_utf8(source@)) == Err::<
                    Seq<char>,
                    Seq<char>,
                >(message@)
            },
        },
{
    let mut files: Vec<OutputFile> = Vec::new();
    let mut i: usize = 0;
    let ghost b = vstd::utf8::encode_utf8(source@);
    while i < targets.len()
        invariant
            i <= targets@.len(),
            b == vstd::utf8::encode_utf8(source@),
            b.len() < usize::MAX,
            idl::source_fits(b),
            files@.len() == i,
            forall|j: int|
                0 <= j < i ==> {
                    &&& (#[trigger] files@[j]).name@ == stem@ + extension(targets@[j])
                    &&& idl::code_of(targets@[j], b) == Ok::<Seq<char>, Seq<char>>(
                        files@[j].code@,
                    )
                },
        decreases targets@.len() - i,
    {
        let code: String = match generate(targets[i], source) {
            Ok(code) => code,
            Err(message) => {
                return Err(message);
            },
        };
        files.push(OutputFile { name: file_name(stem, targets[i]), code });
        i = i + 1;
    }
    Ok(files)
}

/// Three languages have names and file endings, and no other name stands for one.
pub proof fn law_languages(name: Seq<char>)
    ensures
        target_named("rust"@) == Some(Target::Rust),
        target_named("python"@) == Some(Target::Python),
        target_named("cpp"@) == Some(Target::Cpp),
        name != "rust"@ && name != "python"@ && name != "cpp"@ ==> target_named(name) is None,
        extension(Target::Rust) == ".rs"@,
        extension(Target::Python) == ".py"@,
        extension(Target::Cpp) == ".hpp"@,
{
    reveal_strlit("rust");
    reveal_strlit("python");
    reveal_strlit("cpp");
    assert("rust"@.len() == 4 && "python"@.len() == 6 && "cpp"@.len() == 3);
}

} // verus!
