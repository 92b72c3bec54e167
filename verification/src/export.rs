//! The plain-value side of PDF export: which file the converter is to write,
//! how it is to be called, and what its exit means to the caller. Launching
//! the converter is left to the host.

use vstd::prelude::*;

verus! {

/// A character that ends one component of a path and starts the next.
pub open spec fn is_separator(c: char) -> bool {
    c == '/' || c == '\\'
}

/// Position `k` holds the dot that starts the extension: the last dot of the
/// last component.
pub open spec fn is_extension_dot(path: Seq<char>, k: int) -> bool {
    &&& 0 <= k < path.len()
    &&& path[k] == '.'
    &&& forall|j: int| k < j < path.len() ==> (#[trigger] path[j]) != '.' && !is_separator(path[j])
}

/// Where the extension starts, if the path has one.
pub open spec fn extension_dot(path: Seq<char>) -> Option<int> {
    if exists|k: int| is_extension_dot(path, k) {
        Some(choose|k: int| is_extension_dot(path, k))
    } else {
        None
    }
}

/// The path with its extension replaced by `pdf`. A path without an extension
/// has nothing to replace and stays as it is.
pub open spec fn pdf_path(path: Seq<char>) -> Seq<char> {
    match extension_dot(path) {
        Some(k) => path.take(k) + seq!['.', 'p', 'd', 'f'],
        None => path,
    }
}

/// A path has at most one extension dot.
pub proof fn lemma_extension_dot_is_unique(path: Seq<char>, k: int, l: int)
    requires
        is_extension_dot(path, k),
        is_extension_dot(path, l),
    ensures
        k == l,
{
    if k < l {
        assert(path[l] != '.');
    } else if l < k {
        assert(path[k] != '.');
    }
}

fn separates(c: char) -> (b: bool)
    ensures
        b == is_separator(c),
{
    c == '/' || c == '\\'
}

/// Finds the dot that starts the extension, scanning from the end.
pub fn find_extension_dot(path: &str) -> (r: Option<usize>)
    ensures
        match r {
            Some(k) => extension_dot(path@) == Some(k as int),
            None => extension_dot(path@) is None,
        },
{
    let len = path.unicode_len();
    let mut i: usize = len;
    while i > 0
        invariant
            i <= len,
            len == path@.len(),
            forall|j: int| i <= j < len ==> (#[trigger] path@[j]) != '.' && !is_separator(path@[j]),
        decreases i,
    {
        let c = path.get_char(i - 1);
        if separates(c) {
            assert forall|k: int| !is_extension_dot(path@, k) by {
                if is_extension_dot(path@, k) {
                    if k < i - 1 {
                        assert(!is_separator(path@[i - 1]));
                    } else if k > i - 1 {
                        assert(path@[k] != '.');
                    }
                }
            }
            return None;
        }
        if c == '.' {
            proof {
                let k = (i - 1) as int;
                assert(is_extension_dot(path@, k));
                lemma_extension_dot_is_unique(
                    path@,
                    k,
                    choose|l: int| is_extension_dot(path@, l),
                );
            }
            return Some(i - 1);
        }
        i -= 1;
    }
    assert forall|k: int| !is_extension_dot(path@, k) by {
        if is_extension_dot(path@, k) {
            assert(path@[k] != '.');
        }
    }
    None
}

/// The file the converter is to write for the document at `html_path`.
pub fn pdf_output_path(html_path: &str) -> (out: String)
    ensures
        out@ == pdf_path(html_path@),
{
    match find_extension_dot(html_path) {
        Some(k) => {
            let stem = html_path.substring_char(0, k);
            let mut out = String::from_str(stem);
            out.append(".pdf");
            proof {
                reveal_strlit(".pdf");
                assert(".pdf"@ =~= seq!['.', 'p', 'd', 'f']);
                assert(html_path@.subrange(0, k as int) =~= html_path@.take(k as int));
            }
            out
        },
        None => String::from_str(html_path),
    }
}

/// How the converter is to be launched: the program and its arguments.
pub struct ConverterCall {
    pub program: String,
    pub arguments: Vec<String>,
}

/// The call that converts the document at `html_path`: the converter script,
/// the document, and the file to write.
pub fn converter_call(html_path: &str) -> (call: ConverterCall)
    ensures
        call.program@ == "node"@,
        call.arguments@.len() == 3,
        call.arguments@[0]@ == "convertToPdf.js"@,
        call.arguments@[1]@ == html_path@,
        call.arguments@[2]@ == pdf_path(html_path@),
{
    let mut arguments: Vec<String> = Vec::new();
    arguments.push(String::from_str("convertToPdf.js"));
    arguments.push(String::from_str(html_path));
    arguments.push(pdf_output_path(html_path));
    ConverterCall { program: String::from_str("node"), arguments }
}

/// How a launch of the converter ended.
#[derive(Debug, Clone, Copy, PartialEq, Eq, Structural)]
pub enum ConverterExit {
    /// It ran and reported success.
    Succeeded,
    /// It ran and reported failure.
    Failed,
    /// It could not be started at all.
    NotStarted,
}

/// The message a caller sees for an exit, if the exit is a failure.
pub open spec fn failure_message(exit: ConverterExit) -> Option<Seq<char>> {
    match exit {
        ConverterExit::Succeeded => None,
        ConverterExit::Failed => Some("Error al convertir HTML a PDF"@),
        ConverterExit::NotStarted => Some("Failed to execute Puppeteer"@),
    }
}

/// Turns the converter's exit into the caller's result: success, or a plain
/// message. No exit aborts the caller, so a failed conversion can be retried.
pub fn conversion_result(exit: ConverterExit) -> (r: Result<(), String>)
    ensures
        match r {
            Ok(_) => failure_message(exit) is None,
            Err(message) => failure_message(exit) == Some(message@),
        },
{
    match exit {
        ConverterExit::Succeeded => Ok(()),
        ConverterExit::Failed => Err(String::from_str("Error al convertir HTML a PDF")),
        ConverterExit::NotStarted => Err(String::from_str("Failed to execute Puppeteer")),
    }
}

} // verus!
