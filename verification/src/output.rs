//! One run of the search: from what was read of the file to the lines that
//! are to be printed.

use crate::config::Config;
use crate::highlight::highlighted;
use crate::lines::{lines_of, split_lines};
use crate::search::{search, search_case_insensitive, selected};
use crate::style::{add_fg, with_fg};
use crate::text::texts;
use vstd::prelude::*;
use vstd::string::*;

verus! {

/// The text of the message for a file that could not be read, before it is
/// coloured.
pub open spec fn unreadable_text(filename: Seq<char>) -> Seq<char> {
    "Could not open the file "@ + filename
}

/// A line as it is printed: with the query highlighted where the style is
/// not 0, as it is where the style is 0.
pub open spec fn shown(config: Config, line: Seq<char>) -> Seq<char> {
    if config.style > 0 {
        highlighted(line, config.query@, config.style)
    } else {
        line
    }
}

/// What a run prints for the given lines: each line that holds the query,
/// in the order of the lines, as it is shown.
pub open spec fn output_of(config: Config, lines: Seq<Seq<char>>) -> Seq<Seq<char>> {
    let picked = selected(config.query@, lines, config.case_sensitive);
    Seq::new(picked.len(), |k: int| shown(config, lines[picked[k] as int]))
}

/// A file that could not be read: it is missing, may not be opened, or does
/// not hold text. Nothing is searched after it.
#[derive(Debug, PartialEq, Eq, Clone)]
pub struct FileUnreadable {
    /// The name of the file.
    pub filename: String,
    /// Why reading it failed, in the words of whoever tried.
    pub reason: String,
}

impl FileUnreadable {
    /// The message for this failure, in red. It names the file; the reason
    /// stays in its field.
    pub fn message(&self) -> (out: String)
        ensures
            out@ == with_fg(unreadable_text(self.filename@), 255, 0, 0),
    {
        let mut text = String::from_str("Could not open the file ");
        text.append(self.filename.as_str());
        add_fg(text, 255, 0, 0)
    }
}

/// The lines of the file `filename`, given what reading it brought: its
/// content, or the reason why it could not be read. A failed read gives no
/// lines, but the failure with the file's name and that reason.
pub fn read_file(filename: &str, read: Result<String, String>) -> (loaded: Result<
    Vec<String>,
    FileUnreadable,
>)
    ensures
        match read {
            Ok(content) => loaded is Ok && texts(loaded->Ok_0@) == lines_of(content@),
            Err(reason) => loaded is Err && loaded->Err_0.filename@ == filename@
                && loaded->Err_0.reason@ == reason@,
        },
{
    match read {
        Ok(content) => Ok(split_lines(content.as_str())),
        Err(reason) => Err(FileUnreadable { filename: String::from_str(filename), reason }),
    }
}

/// One run: the lines to print for `config`, given what reading its file
/// brought. Where the file could not be read, nothing is selected and the
/// result is the failure of `read_file`, with the configured file's name and
/// the reason.
pub fn run(config: &Config, read: Result<String, String>) -> (printed: Result<
    Vec<String>,
    FileUnreadable,
>)
    ensures
        match read {
            Ok(content) => printed is Ok && texts(printed->Ok_0@) == output_of(
                *config,
                lines_of(content@),
            ),
            Err(reason) => printed is Err && printed->Err_0.filename@ == config.filename@
                && printed->Err_0.reason@ == reason@,
        },
{
    let contents = match read_file(config.filename.as_str(), read) {
        Ok(lines) => lines,
        Err(failure) => {
            return Err(failure);
        },
    };
    let picked = if config.case_sensitive {
        search(&config.query, &contents)
    } else {
        search_case_insensitive(&config.query, &contents)
    };
    let ghost lines = texts(contents@);
    let mut printed: Vec<String> = Vec::new();
    let mut k: usize = 0;
    while k < picked.len()
        invariant
            k <= picked.len(),
            lines == texts(contents@),
            picked@ == selected(config.query@, lines, config.case_sensitive),
            forall|j: int| 0 <= j < picked.len() ==> (#[trigger] picked[j]) < contents.len(),
            printed.len() == k,
            forall|j: int|
                0 <= j < k ==> (#[trigger] printed[j])@ == shown(*config, lines[picked[j] as int]),
        decreases picked.len() - k,
    {
        let line = &contents[picked[k]];
        if config.style > 0 {
            printed.push(crate::highlight::format(line.as_str(), config.query.as_str(), config.style));
        } else {
            printed.push(line.clone());
        }
        k += 1;
    }
    proof {
        assert(texts(printed@) =~= output_of(*config, lines));
    }
    Ok(printed)
}

} // verus!
