//! Which syntax a file is highlighted in.

use vstd::prelude::*;
use vstd::string::StringExecFns;
use crate::text::{collect_chars, equals_str};

verus! {

/// What to ask a set of syntaxes for: the syntax of an extension and,
/// failing that, the syntax of a name.
#[derive(Debug, Clone, PartialEq, Eq)]
pub struct SyntaxChoice {
    pub extension: String,
    pub name: Option<String>,
}

/// The mathematical value of a [`SyntaxChoice`].
pub struct SyntaxChoiceView {
    pub extension: Seq<char>,
    pub name: Option<Seq<char>>,
}

impl View for SyntaxChoice {
    type V = SyntaxChoiceView;

    open spec fn view(&self) -> SyntaxChoiceView {
        SyntaxChoiceView { extension: self.extension@, name: self.name.deep_view() }
    }
}

impl DeepView for SyntaxChoice {
    type V = SyntaxChoiceView;

    open spec fn deep_view(&self) -> SyntaxChoiceView {
        self@
    }
}

pub open spec fn by_extension(extension: Seq<char>) -> Option<SyntaxChoiceView> {
    Some(SyntaxChoiceView { extension, name: None })
}

/// The syntax of the file extensions that are listed. TypeScript is shown as
/// JavaScript; the dialects of C++ and its headers share a syntax each.
pub open spec fn listed_syntax(extension: Seq<char>) -> Option<SyntaxChoiceView> {
    if extension == "ts"@ || extension == "tsx"@ {
        Some(SyntaxChoiceView { extension: "js"@, name: Some("JavaScript"@) })
    } else if extension == "js"@ || extension == "jsx"@ {
        by_extension("js"@)
    } else if extension == "rs"@ {
        by_extension("rs"@)
    } else if extension == "py"@ {
        by_extension("py"@)
    } else if extension == "go"@ {
        by_extension("go"@)
    } else if extension == "java"@ {
        by_extension("java"@)
    } else if extension == "cpp"@ || extension == "cc"@ || extension == "cxx"@ {
        by_extension("cpp"@)
    } else if extension == "c"@ {
        by_extension("c"@)
    } else if extension == "h"@ || extension == "hpp"@ {
        by_extension("h"@)
    } else {
        None
    }
}

fn choice(extension: &str) -> (r: Option<SyntaxChoice>)
    ensures
        r.deep_view() == by_extension(extension@),
{
    Some(SyntaxChoice { extension: String::from_str(extension), name: None })
}

/// The syntax of a file extension, if it is listed.
pub fn syntax_for_extension(extension: &str) -> (r: Option<SyntaxChoice>)
    ensures
        r.deep_view() == listed_syntax(extension@),
{
    let chars = collect_chars(extension);
    let ext = chars.as_slice();
    if equals_str(ext, "ts") || equals_str(ext, "tsx") {
        Some(
            SyntaxChoice {
                extension: String::from_str("js"),
                name: Some(String::from_str("JavaScript")),
            },
        )
    } else if equals_str(ext, "js") || equals_str(ext, "jsx") {
        choice("js")
    } else if equals_str(ext, "rs") {
        choice("rs")
    } else if equals_str(ext, "py") {
        choice("py")
    } else if equals_str(ext, "go") {
        choice("go")
    } else if equals_str(ext, "java") {
        choice("java")
    } else if equals_str(ext, "cpp") || equals_str(ext, "cc") || equals_str(ext, "cxx") {
        choice("cpp")
    } else if equals_str(ext, "c") {
        choice("c")
    } else if equals_str(ext, "h") || equals_str(ext, "hpp") {
        choice("h")
    } else {
        None
    }
}

/// Does `part` stand in `text` right after a dot?
pub open spec fn follows_dot(text: Seq<char>, part: Seq<char>) -> bool {
    exists|i: int|
        0 < i && i + part.len() <= text.len() && text[i - 1] == '.' && #[trigger] text.subrange(
            i,
            i + part.len(),
        ) == part
}

/// What holds of the extension of a file name wherever paths are read: it
/// holds no dot, and it stands in the name right after a dot.
pub open spec fn is_extension_in(filename: Seq<char>, extension: Seq<char>) -> bool {
    !extension.contains('.') && follows_dot(filename, extension)
}

/// Index of the last occurrence of `c` in `s`, or -1 when there is none.
pub open spec fn last_index(s: Seq<char>, c: char) -> int
    decreases s.len(),
{
    if s.len() == 0 {
        -1
    } else if s.last() == c {
        s.len() - 1
    } else {
        last_index(s.drop_last(), c)
    }
}

/// A name that is a file name on every platform: it holds no separator of
/// path components and no colon, and it is not the name `..` of the parent
/// directory.
pub open spec fn is_plain_name(name: Seq<char>) -> bool {
    &&& !name.contains('/')
    &&& !name.contains('\\')
    &&& !name.contains(':')
    &&& name != seq!['.', '.']
}

/// The extension of a plain name: what follows its last dot, unless it has
/// no dot or its only dot comes first.
pub open spec fn plain_extension(name: Seq<char>) -> Option<Seq<char>> {
    let dot = last_index(name, '.');
    if dot > 0 {
        Some(name.skip(dot + 1))
    } else {
        None
    }
}

/// The syntax of the extension that a name has, if it has one.
pub open spec fn syntax_of(extension: Option<Seq<char>>) -> Option<SyntaxChoiceView> {
    match extension {
        Some(extension) => listed_syntax(extension),
        None => None,
    }
}

/// Calls `std::path::Path::extension` on the path that `filename` spells.
///
/// Trusted: a path without a dot has no extension; an extension is what
/// follows the last dot of the file name, so it holds no dot itself and
/// stands in the path right after a dot. Which part of a path is the file
/// name goes by the rules of the platform; but a path without `/`, `\` and
/// `:` has at most one component on every platform, and unless it is `.` or
/// `..` it is its own file name. The extension of such a name, `..` apart, is
/// what follows its last dot, and it has none if it holds no dot or its only
/// dot comes first.
#[verifier::external_body]
fn path_extension(filename: &str) -> (extension: Option<String>)
    ensures
        !filename@.contains('.') ==> extension is None,
        extension matches Some(found) ==> is_extension_in(filename@, found@),
        is_plain_name(filename@) ==> extension.deep_view() == plain_extension(filename@),
{
    std::path::Path::new(filename).extension().and_then(|e| e.to_str()).map(|e| e.to_string())
}

/// The syntax of a file, by the extension of its name. For a plain name it
/// is the syntax listed for what follows the last dot. For any other path it
/// is the syntax listed for the extension that the platform finds in it; a
/// path without a dot has none.
pub fn syntax_for_file(filename: &str) -> (r: Option<SyntaxChoice>)
    ensures
        is_plain_name(filename@) ==> r.deep_view() == syntax_of(plain_extension(filename@)),
        !filename@.contains('.') ==> r is None,
        r is Some ==> exists|extension: Seq<char>|
            is_extension_in(filename@, extension) && #[trigger] listed_syntax(extension)
                == r.deep_view(),
{
    match path_extension(filename) {
        Some(extension) => syntax_for_extension(extension.as_str()),
        None => None,
    }
}

} // verus!
