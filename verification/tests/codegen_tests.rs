use synapse::idl::cli::{check_languages, file_name, parse_target, run_compile};
use synapse::idl::codegen::Target;
use synapse::idl::{compile, generate_cpp, generate_python, generate_rust, input_fits, parse};

const GAME: &str = "namespace game;
struct Vec3f { x: f32, y: f32, z: f32, }
enum Command { MoveTo { target_id: u32 }, Idle, }
channel link { up: Vec3f }";

fn names(list: &[&str]) -> Vec<String> {
    list.iter().map(|s| s.to_string()).collect()
}

#[test]
fn test_compile_rust() {
    let targets = check_languages(&names(&["rust"])).unwrap();
    let files = run_compile(GAME, "game", &targets).unwrap();
    assert_eq!(files.len(), 1);
    assert_eq!(files[0].name, "game.rs");
    assert!(files[0].code.contains("#[repr(C)]"));
    assert!(files[0].code.contains("pub struct Vec3f"));
}

#[test]
fn test_compile_python() {
    let targets = check_languages(&names(&["python"])).unwrap();
    let files = run_compile(GAME, "game", &targets).unwrap();
    assert_eq!(files[0].name, "game.py");
    assert!(files[0].code.contains("import ctypes"));
    assert!(files[0].code.contains("class Vec3f"));
}

#[test]
fn test_compile_cpp() {
    let targets = check_languages(&names(&["cpp"])).unwrap();
    let files = run_compile(GAME, "game", &targets).unwrap();
    assert_eq!(files[0].name, "game.hpp");
    assert!(files[0].code.contains("#pragma once"));
    assert!(files[0].code.contains("struct Vec3f"));
}

#[test]
fn test_compile_multiple_langs() {
    let targets = check_languages(&names(&["rust", "python", "cpp"])).unwrap();
    let files = run_compile(GAME, "game", &targets).unwrap();
    let written: Vec<&str> = files.iter().map(|f| f.name.as_str()).collect();
    assert_eq!(written, vec!["game.rs", "game.py", "game.hpp"]);
}

#[test]
fn test_error_unknown_language() {
    let err = check_languages(&names(&["rust", "java", "perl"])).unwrap_err();
    assert!(err.contains("unknown language"), "stderr: {err}");
    assert_eq!(err, "unknown language 'java' (expected: rust, python, cpp)");
    assert_eq!(parse_target("cpp"), Some(Target::Cpp));
    assert_eq!(parse_target("Rust"), None);
    assert_eq!(file_name("a.b", Target::Cpp), "a.b.hpp");
}

#[test]
fn test_error_parse_error() {
    let err = run_compile("struct { invalid }", "bad", &vec![Target::Rust]).unwrap_err();
    assert!(!err.is_empty(), "expected error message");
    assert_eq!(err, parse("struct { invalid }").unwrap_err());
    assert!(run_compile("struct { invalid }", "bad", &vec![]).unwrap().is_empty());
}

#[test]
fn rust_code_word_for_word() {
    assert_eq!(
        generate_rust(GAME).unwrap(),
        "// Auto-generated by synapse-idl. Do not edit.
// Namespace: game

/// Size: 12 bytes, Align: 4 bytes
#[repr(C)]
#[derive(Debug, Clone, Copy)]
pub struct Vec3f {
    pub x: f32,
    pub y: f32,
    pub z: f32,
}

/// Size: 8 bytes, Align: 4 bytes
pub mod command_variants {
    pub const MOVE_TO: u32 = 0;
    pub const IDLE: u32 = 1;
}

#[repr(C)]
#[derive(Debug, Clone, Copy)]
pub struct CommandMoveToPayload {
    pub target_id: u32,
}

#[repr(C)]
#[derive(Clone, Copy)]
pub struct Command {
    pub tag: u32,
    pub payload: [u8; 4],
}

// Channel: link
//   up: Vec3f

"
    );
}

#[test]
fn python_code_word_for_word() {
    assert_eq!(
        generate_python(GAME).unwrap(),
        "# Auto-generated by synapse-idl. Do not edit.
# Namespace: game
import ctypes

class Vec3f(ctypes.Structure):
    # size=12, align=4
    _fields_ = [
        (\"x\", ctypes.c_float),
        (\"y\", ctypes.c_float),
        (\"z\", ctypes.c_float),
    ]

COMMAND_MOVE_TO = 0
COMMAND_IDLE = 1

class CommandMoveToPayload(ctypes.Structure):
    _fields_ = [
        (\"target_id\", ctypes.c_uint32),
    ]

class Command(ctypes.Structure):
    # size=8, align=4
    _fields_ = [
        (\"tag\", ctypes.c_uint32),
        (\"payload\", ctypes.c_uint8 * 4),
    ]

# Channel: link
#   up: Vec3f

"
    );
}

#[test]
fn cpp_code_word_for_word() {
    assert_eq!(
        generate_cpp(GAME).unwrap(),
        "// Auto-generated by synapse-idl. Do not edit.
#pragma once
#include <cstdint>
#include <cassert>

namespace game {

struct Vec3f {
    float x;
    float y;
    float z;
};
static_assert(sizeof(Vec3f) == 12, \"Vec3f size mismatch\");
static_assert(alignof(Vec3f) == 4, \"Vec3f align mismatch\");

enum class CommandTag : uint32_t {
    MoveTo = 0,
    Idle = 1,
};

struct CommandMoveToPayload {
    uint32_t target_id;
};

struct Command {
    uint32_t tag;
    uint8_t payload[4];
};
static_assert(sizeof(Command) == 8, \"Command size mismatch\");
static_assert(alignof(Command) == 4, \"Command align mismatch\");

// Channel: link
//   up: Vec3f

} // namespace game
"
    );
}

#[test]
fn arrays_and_wide_payloads() {
    let source = "struct M { d: [[f32; 4]; 3], n: bool } enum E { A { v: u64 }, B { w: [u32; 3] } } enum T { X }";
    let rust = generate_rust(source).unwrap();
    assert!(rust.contains("    pub d: [[f32; 4]; 3],\n"));
    assert!(rust.contains("    pub tag: u32,\n    pub _pad: [u8; 4],\n    pub payload: [u64; 2],\n}"));
    assert!(rust.contains("pub struct T {\n    pub tag: u32,\n}"));
    let python = generate_python(source).unwrap();
    assert!(python.contains("(\"d\", ((ctypes.c_float * 4) * 3)),"));
    assert!(python.contains("(\"_pad\", ctypes.c_uint8 * 4),\n        (\"payload\", ctypes.c_uint64 * 2),"));
    let cpp = generate_cpp(source).unwrap();
    assert!(cpp.contains("    float d[3][4];\n    bool n;\n"));
    assert!(cpp.contains("    uint8_t _pad[4];\n    uint64_t payload[2];\n"));
    assert!(cpp.contains("static_assert(sizeof(E) == 24"));
    assert!(cpp.contains("static_assert(alignof(E) == 8"));
}

#[test]
fn errors_of_the_pipeline() {
    assert_eq!(generate_rust("struct A { x: B }").unwrap_err(), "unknown type 'B'");
    assert_eq!(generate_python("struct A { x: B }").unwrap_err(), "unknown type 'B'");
    assert_eq!(generate_cpp("struct A { x B }").unwrap_err(), "1:14: expected Colon, found Ident(\"B\")");
    assert_eq!(compile("struct A { x: B }").unwrap_err(), "unknown type 'B'");
    assert!(input_fits("struct A { x: B }"));
    assert!(input_fits("struct"));
    assert!(!input_fits("struct A { x: [u64; 18446744073709551615] }"));
}
