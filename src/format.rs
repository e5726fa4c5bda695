//! One file's fenced, annotated block.
use vstd::prelude::*;
use crate::language::{comment_syntax, comment_syntax_of, determine_language, language_of};
use crate::strip::{
    balanced, is_blank, lemma_strip_removes_exactly_the_test_region, strip_rust_tests,
    stripped, test_marker, test_region,
};
use crate::text::{absent, chars_of, same_text};

verus! {

/// The header line naming the file, written as a comment of the language.
pub open spec fn header_line(lang: Seq<char>, path: Seq<char>) -> Seq<char> {
    let (open, close) = comment_syntax_of(lang);
    match close {
        Some(c) => open + " "@ + path + " "@ + c + "\n"@,
        None => open + " "@ + path + "\n"@,
    }
}

/// The content that is shown for a file: with its test modules removed when
/// tests are ignored and the file is Rust.
pub open spec fn shown_content(lang: Seq<char>, content: Seq<char>, ignore_tests: bool) -> Seq<
    char,
> {
    if ignore_tests && lang == "rust"@ {
        stripped(content)
    } else {
        content
    }
}

/// The block for a file at `path` holding `content`: an opening fence tagged
/// with the language, the header comment, the content verbatim, a closing
/// fence and a blank line.
pub open spec fn fenced_block(path: Seq<char>, content: Seq<char>, ignore_tests: bool) -> Seq<
    char,
> {
    let lang = language_of(path);
    "```"@ + lang + "\n"@ + header_line(lang, path) + shown_content(lang, content, ignore_tests)
        + "```\n\n"@
}

/// Formats the file at `file_path`, whose text is `content`, as a block keyed
/// by its path.
pub fn process_file(file_path: &str, content: &str, ignore_tests: bool) -> (r: (String, String))
    ensures
        r.0@ == file_path@,
        r.1@ == fenced_block(file_path@, content@, ignore_tests),
{
    let language = determine_language(file_path);
    let shown = if ignore_tests && same_text(&chars_of(language.as_str()), "rust") {
        strip_rust_tests(content)
    } else {
        content.to_owned()
    };
    let (start, end) = comment_syntax(language.as_str());
    let mut buf = String::new();
    buf.append("```");
    buf.append(language.as_str());
    buf.append("\n");
    buf.append(start);
    buf.append(" ");
    buf.append(file_path);
    match end {
        Some(e) => {
            buf.append(" ");
            buf.append(e);
        },
        None => {},
    }
    buf.append("\n");
    buf.append(shown.as_str());
    buf.append("```\n\n");
    assert(buf@ =~= fenced_block(file_path@, content@, ignore_tests));
    (file_path.to_owned(), buf)
}

/// Formatting a Rust file with tests ignored leaves out exactly its one test
/// region: the block is the one of the same file without that region, shown
/// as it is.
pub proof fn lemma_block_omits_test_region(
    path: Seq<char>,
    before: Seq<char>,
    gap: Seq<char>,
    head: Seq<char>,
    body: Seq<char>,
    after: Seq<char>,
)
    requires
        language_of(path) == "rust"@,
        absent(before, test_marker()),
        absent(after, test_marker()),
        forall|k: int| 0 <= k < gap.len() ==> is_blank(#[trigger] gap[k]),
        forall|k: int| 0 <= k < head.len() ==> #[trigger] head[k] != '{',
        balanced(body),
    ensures
        fenced_block(path, before + test_region(gap, head, body) + after, true) == fenced_block(
            path,
            before + after,
            false,
        ),
{
    lemma_strip_removes_exactly_the_test_region(before, gap, head, body, after);
}

} // verus!
