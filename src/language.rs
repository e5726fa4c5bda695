//! Language tags for files and the comment syntax of each language.
use vstd::prelude::*;
use crate::text::{chars_of, same_text};
use crate::paths::{extension, extension_chars, file_name, file_name_chars};

verus! {

/// The language tag that an exact file name stands for.
pub open spec fn language_by_name(name: Seq<char>) -> Option<Seq<char>> {
    if name == "Makefile"@ {
        Some("make"@)
    } else if name == "CMakeLists.txt"@ {
        Some("cmake"@)
    } else if name == "Dockerfile"@ {
        Some("docker"@)
    } else if name == ".gitignore"@ {
        Some("git"@)
    } else if name == "build.gradle"@ {
        Some("gradle"@)
    } else if name == "Cargo.toml"@ {
        Some("rust"@)
    } else if name == "package.json"@ {
        Some("node"@)
    } else {
        None
    }
}

/// The language tag that a file extension stands for.
pub open spec fn language_by_extension(ext: Seq<char>) -> Option<Seq<char>> {
    if ext == "rs"@ {
        Some("rust"@)
    } else if ext == "zig"@ {
        Some("zig"@)
    } else if ext == "zon"@ {
        Some("zig"@)
    } else if ext == "go"@ {
        Some("go"@)
    } else if ext == "py"@ {
        Some("python"@)
    } else if ext == "cpp"@ {
        Some("cpp"@)
    } else if ext == "cc"@ {
        Some("cpp"@)
    } else if ext == "cxx"@ {
        Some("cpp"@)
    } else if ext == "hpp"@ {
        Some("cpp"@)
    } else if ext == "hh"@ {
        Some("cpp"@)
    } else if ext == "hxx"@ {
        Some("cpp"@)
    } else if ext == "c"@ {
        Some("c"@)
    } else if ext == "h"@ {
        Some("c"@)
    } else if ext == "cu"@ {
        Some("cuda"@)
    } else if ext == "cuh"@ {
        Some("cuda"@)
    } else if ext == "js"@ {
        Some("javascript"@)
    } else if ext == "ts"@ {
        Some("typescript"@)
    } else if ext == "toml"@ {
        Some("toml"@)
    } else if ext == "yaml"@ {
        Some("yaml"@)
    } else if ext == "yml"@ {
        Some("yaml"@)
    } else if ext == "json"@ {
        Some("json"@)
    } else if ext == "txt"@ {
        Some("txt"@)
    } else if ext == "sh"@ {
        Some("bash"@)
    } else if ext == "md"@ {
        Some("markdown"@)
    } else if ext == "proto"@ {
        Some("protobuf"@)
    } else if ext == "cmake"@ {
        Some("cmake"@)
    } else if ext == "html"@ {
        Some("html"@)
    } else if ext == "css"@ {
        Some("css"@)
    } else {
        None
    }
}

/// The language tag of a file: by its exact name first, then by its
/// extension; empty when neither is known.
pub open spec fn language_of(path: Seq<char>) -> Seq<char> {
    match file_name(path) {
        Some(n) if language_by_name(n) is Some => language_by_name(n)->0,
        _ => match extension(path) {
            Some(e) if language_by_extension(e) is Some => language_by_extension(e)->0,
            _ => Seq::empty(),
        },
    }
}

/// Looks up an exact file name.
fn lookup_name(name: &Vec<char>) -> (r: Option<&'static str>)
    ensures
        match r {
            Some(l) => language_by_name(name@) == Some(l@),
            None => language_by_name(name@) is None,
        },
{
    if same_text(name, "Makefile") {
        Some("make")
    } else if same_text(name, "CMakeLists.txt") {
        Some("cmake")
    } else if same_text(name, "Dockerfile") {
        Some("docker")
    } else if same_text(name, ".gitignore") {
        Some("git")
    } else if same_text(name, "build.gradle") {
        Some("gradle")
    } else if same_text(name, "Cargo.toml") {
        Some("rust")
    } else if same_text(name, "package.json") {
        Some("node")
    } else {
        None
    }
}

/// Looks up a file extension.
fn lookup_extension(ext: &Vec<char>) -> (r: Option<&'static str>)
    ensures
        match r {
            Some(l) => language_by_extension(ext@) == Some(l@),
            None => language_by_extension(ext@) is None,
        },
{
    if same_text(ext, "rs") {
        Some("rust")
    } else if same_text(ext, "zig") {
        Some("zig")
    } else if same_text(ext, "zon") {
        Some("zig")
    } else if same_text(ext, "go") {
        Some("go")
    } else if same_text(ext, "py") {
        Some("python")
    } else if same_text(ext, "cpp") {
        Some("cpp")
    } else if same_text(ext, "cc") {
        Some("cpp")
    } else if same_text(ext, "cxx") {
        Some("cpp")
    } else if same_text(ext, "hpp") {
        Some("cpp")
    } else if same_text(ext, "hh") {
        Some("cpp")
    } else if same_text(ext, "hxx") {
        Some("cpp")
    } else if same_text(ext, "c") {
        Some("c")
    } else if same_text(ext, "h") {
        Some("c")
    } else if same_text(ext, "cu") {
        Some("cuda")
    } else if same_text(ext, "cuh") {
        Some("cuda")
    } else if same_text(ext, "js") {
        Some("javascript")
    } else if same_text(ext, "ts") {
        Some("typescript")
    } else if same_text(ext, "toml") {
        Some("toml")
    } else if same_text(ext, "yaml") {
        Some("yaml")
    } else if same_text(ext, "yml") {
        Some("yaml")
    } else if same_text(ext, "json") {
        Some("json")
    } else if same_text(ext, "txt") {
        Some("txt")
    } else if same_text(ext, "sh") {
        Some("bash")
    } else if same_text(ext, "md") {
        Some("markdown")
    } else if same_text(ext, "proto") {
        Some("protobuf")
    } else if same_text(ext, "cmake") {
        Some("cmake")
    } else if same_text(ext, "html") {
        Some("html")
    } else if same_text(ext, "css") {
        Some("css")
    } else {
        None
    }
}

/// The language tag of the file at `file_path`.
pub fn determine_language(file_path: &str) -> (r: String)
    ensures
        r@ == language_of(file_path@),
{
    let p = chars_of(file_path);
    if let Some(n) = file_name_chars(&p) {
        if let Some(l) = lookup_name(&n) {
            return l.to_owned();
        }
    }
    if let Some(e) = extension_chars(&p) {
        if let Some(l) = lookup_extension(&e) {
            return l.to_owned();
        }
    }
    String::new()
}

/// How a line comment is written in a language: the text that opens it and,
/// for languages with block comments only, the text that closes it. Unknown
/// languages use `//`.
pub open spec fn comment_syntax_of(language: Seq<char>) -> (Seq<char>, Option<Seq<char>>) {
    if language == "rust"@ || language == "cpp"@ || language == "c"@ || language == "go"@
        || language == "javascript"@ || language == "typescript"@ || language == "java"@
        || language == "swift"@ || language == "kotlin"@ {
        ("//"@, None)
    } else if language == "python"@ || language == "bash"@ || language == "sh"@
        || language == "yaml"@ || language == "yml"@ || language == "toml"@
        || language == "make"@ {
        ("#"@, None)
    } else if language == "lua"@ {
        ("--"@, None)
    } else if language == "html"@ || language == "xml"@ {
        ("<!--"@, Some("-->"@))
    } else if language == "css"@ || language == "scss"@ {
        ("/*"@, Some("*/"@))
    } else if language == "json"@ || language == "protobuf"@ {
        ("//"@, None)
    } else if language == "markdown"@ {
        ("<!--"@, Some("-->"@))
    } else {
        ("//"@, None)
    }
}

/// The comment syntax of `language`: an opening text and an optional closing one.
pub fn comment_syntax(language: &str) -> (r: (&'static str, Option<&'static str>))
    ensures
        r.0@ == comment_syntax_of(language@).0,
        match r.1 {
            Some(e) => comment_syntax_of(language@).1 == Some(e@),
            None => comment_syntax_of(language@).1 is None,
        },
{
    let l = chars_of(language);
    if same_text(&l, "rust") || same_text(&l, "cpp") || same_text(&l, "c")
        || same_text(&l, "go") || same_text(&l, "javascript") || same_text(&l, "typescript")
        || same_text(&l, "java") || same_text(&l, "swift") || same_text(&l, "kotlin") {
        ("//", None)
    } else if same_text(&l, "python") || same_text(&l, "bash") || same_text(&l, "sh")
        || same_text(&l, "yaml") || same_text(&l, "yml") || same_text(&l, "toml")
        || same_text(&l, "make") {
        ("#", None)
    } else if same_text(&l, "lua") {
        ("--", None)
    } else if same_text(&l, "html") || same_text(&l, "xml") {
        ("<!--", Some("-->"))
    } else if same_text(&l, "css") || same_text(&l, "scss") {
        ("/*", Some("*/"))
    } else if same_text(&l, "json") || same_text(&l, "protobuf") {
        ("//", None)
    } else if same_text(&l, "markdown") {
        ("<!--", Some("-->"))
    } else {
        ("//", None)
    }
}

} // verus!
