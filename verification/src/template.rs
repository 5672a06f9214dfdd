//! A template: a text file in the template directory, found by its name.
//!
//! A template `log` is kept in `DATE-log.txt` or in `log.txt`. The first
//! makes it a dated template, whose output is always named after the day
//! on which it is made.

use crate::environment::{expand_home, utc_now_formatted};
use crate::error::TemplateError;
use crate::moustache::{filled, find_and_replace_moustaches, placeholders};
use crate::text::ends_with;
use vstd::prelude::*;
use vstd::string::*;

verus! {

/// A template that was found.
#[derive(Debug)]
pub struct Template {
    name: String,
    filepath: String,
    dated: bool,
    dateformat: String,
    verbose: bool,
}

/// What a template holds.
pub struct TemplateView {
    /// The name by which the template was asked for.
    pub name: Seq<char>,
    /// The path of the file that holds it.
    pub filepath: Seq<char>,
    /// Whether that file is the dated one.
    pub dated: bool,
    /// The `strftime` format of the date in the names of its outputs.
    pub dateformat: Seq<char>,
    /// Whether its text is shown before it is filled in.
    pub verbose: bool,
}

impl View for Template {
    type V = TemplateView;

    closed spec fn view(&self) -> TemplateView {
        TemplateView {
            name: self.name@,
            filepath: self.filepath@,
            dated: self.dated,
            dateformat: self.dateformat@,
            verbose: self.verbose,
        }
    }
}

/// The template directory, after the home directory.
pub open spec fn dir_tail() -> Seq<char> {
    "/.ptt_templates"@
}

/// The name of the file that holds the dated template `name`.
pub open spec fn dated_file_name(name: Seq<char>) -> Seq<char> {
    "DATE-"@ + name + ".txt"@
}

/// The name of the file that holds the plain template `name`.
pub open spec fn plain_file_name(name: Seq<char>) -> Seq<char> {
    name + ".txt"@
}

/// The path of a file of the template directory, after the home directory.
pub open spec fn path_tail(file_name: Seq<char>) -> Seq<char> {
    dir_tail() + seq!['/'] + file_name
}

/// What holds of every template: its file is the dated one of its name
/// where it is dated, and the plain one where it is not.
pub open spec fn is_resolved(t: TemplateView) -> bool {
    if t.dated {
        ends_with(t.filepath, path_tail(dated_file_name(t.name)))
    } else {
        ends_with(t.filepath, path_tail(plain_file_name(t.name)))
    }
}

/// The text of an optional string.
pub open spec fn text_of(s: Option<String>) -> Option<Seq<char>> {
    match s {
        Some(s) => Some(s@),
        None => None,
    }
}

/// The fragments joined into one name, with a hyphen between neighbours.
pub open spec fn joined(fragments: Seq<String>) -> Seq<char>
    decreases fragments.len(),
{
    if fragments.len() == 0 {
        Seq::empty()
    } else if fragments.len() == 1 {
        fragments[0]@
    } else {
        joined(fragments.drop_last()) + seq!['-'] + fragments.last()@
    }
}

/// The name of the output without its extension, where there is one: for
/// a dated template the date, a hyphen and the file name given, or the
/// template's own name where none is given; for any other template the
/// file name given, and none where none is given.
pub open spec fn output_base(
    template: TemplateView,
    filename: Option<Seq<char>>,
    date: Seq<char>,
) -> Option<Seq<char>> {
    if template.dated {
        Some(
            date + seq!['-'] + match filename {
                Some(f) => f,
                None => template.name,
            },
        )
    } else {
        filename
    }
}

/// The name of the output: its base and the extension `.txt`.
pub open spec fn output_name_of(
    template: TemplateView,
    filename: Option<Seq<char>>,
    date: Seq<char>,
) -> Option<Seq<char>> {
    match output_base(template, filename, date) {
        Some(base) => Some(base + ".txt"@),
        None => None,
    }
}

/// The template directory: `.ptt_templates` in the user's home directory.
pub fn template_dir() -> (dir: String)
    ensures
        ends_with(dir@, dir_tail()),
{
    proof {
        reveal_strlit("~/.ptt_templates");
        reveal_strlit("/.ptt_templates");
    }
    let dir = expand_home("~/.ptt_templates");
    assert("~/.ptt_templates"@.skip(1) =~= dir_tail());
    dir
}

/// The path of a file of the template directory.
fn path_in_template_dir(file_name: &str) -> (path: String)
    ensures
        ends_with(path@, path_tail(file_name@)),
{
    proof {
        reveal_strlit("~/.ptt_templates/");
        reveal_strlit("/.ptt_templates");
    }
    let literal = String::from_str("~/.ptt_templates/").concat(file_name);
    let path = expand_home(literal.as_str());
    assert(literal@.skip(1) =~= path_tail(file_name@));
    path
}

/// The path at which the dated template `template_name` is looked for.
pub fn dated_path(template_name: &str) -> (path: String)
    ensures
        ends_with(path@, path_tail(dated_file_name(template_name@))),
{
    let file_name = String::from_str("DATE-").concat(template_name).concat(".txt");
    path_in_template_dir(file_name.as_str())
}

/// The path at which the plain template `template_name` is looked for.
pub fn plain_path(template_name: &str) -> (path: String)
    ensures
        ends_with(path@, path_tail(plain_file_name(template_name@))),
{
    let file_name = String::from_str(template_name).concat(".txt");
    path_in_template_dir(file_name.as_str())
}

/// Joins the fragments of a file name with hyphens. No fragments, no name.
pub fn join_fragments(fragments: &Vec<String>) -> (filename: Option<String>)
    ensures
        fragments@.len() == 0 ==> filename is None,
        fragments@.len() > 0 ==> filename is Some && filename->0@ == joined(fragments@),
{
    if fragments.len() == 0 {
        return None;
    }
    let mut name = fragments[0].clone();
    let mut i: usize = 1;
    assert(fragments@.take(1).len() == 1);
    while i < fragments.len()
        invariant
            1 <= i <= fragments@.len(),
            name@ == joined(fragments@.take(i as int)),
        decreases fragments@.len() - i,
    {
        proof {
            let next = fragments@.take(i + 1);
            assert(next.drop_last() =~= fragments@.take(i as int));
            assert(next.last() == fragments@[i as int]);
            reveal_strlit("-");
            assert("-"@ =~= seq!['-']);
        }
        name = name.concat("-").concat(fragments[i].as_str());
        i += 1;
    }
    assert(fragments@.take(i as int) =~= fragments@);
    Some(name)
}

impl Template {
    #[verifier::type_invariant]
    spec fn well_formed(self) -> bool {
        is_resolved(self@)
    }

    /// Finds the template `template_name`, given which of its two files
    /// exist: the one at `dated_path` and the one at `plain_path`.
    ///
    /// The dated file wins where both exist. Where neither does, there is
    /// no such template.
    pub fn new(
        template_name: &str,
        format: String,
        verbose: bool,
        dated_exists: bool,
        plain_exists: bool,
    ) -> (outcome: Result<Template, TemplateError>)
        ensures
            dated_exists || plain_exists ==> outcome is Ok && ({
                let t = outcome->Ok_0@;
                &&& t.name == template_name@
                &&& t.dated == dated_exists
                &&& t.dateformat == format@
                &&& t.verbose == verbose
                &&& is_resolved(t)
            }),
            !dated_exists && !plain_exists ==> (outcome matches Err(
                TemplateError::TemplateNotFound { name },
            ) && name@ == template_name@),
    {
        if dated_exists {
            Ok(
                Template {
                    name: String::from_str(template_name),
                    filepath: dated_path(template_name),
                    dated: true,
                    dateformat: format,
                    verbose,
                },
            )
        } else if plain_exists {
            Ok(
                Template {
                    name: String::from_str(template_name),
                    filepath: plain_path(template_name),
                    dated: false,
                    dateformat: format,
                    verbose,
                },
            )
        } else {
            Err(TemplateError::TemplateNotFound { name: String::from_str(template_name) })
        }
    }

    /// The name by which the template was asked for.
    pub fn name(&self) -> (name: &str)
        ensures
            name@ == self@.name,
    {
        self.name.as_str()
    }

    /// The path of the file that holds the template.
    pub fn filepath(&self) -> (path: &str)
        ensures
            path@ == self@.filepath,
            is_resolved(self@),
    {
        proof {
            use_type_invariant(self);
        }
        self.filepath.as_str()
    }

    /// Whether the template is dated.
    pub fn dated(&self) -> (dated: bool)
        ensures
            dated == self@.dated,
    {
        self.dated
    }

    /// The format of the date in the names of the template's outputs.
    pub fn dateformat(&self) -> (format: &str)
        ensures
            format@ == self@.dateformat,
    {
        self.dateformat.as_str()
    }

    /// Whether the template's text is to be shown before it is filled in.
    pub fn verbose(&self) -> (verbose: bool)
        ensures
            verbose == self@.verbose,
    {
        self.verbose
    }

    /// The name of the file that an output of this template is written
    /// to, on the day that `date` renders.
    ///
    /// Fails for a template that is not dated where no file name is given.
    pub fn compute_output_name(&self, filename: &Option<String>, date: &str) -> (outcome: Result<
        String,
        TemplateError,
    >)
        ensures
            output_name_of(self@, text_of(*filename), date@) is None ==> outcome == Err::<
                String,
                TemplateError,
            >(TemplateError::MissingOutputName),
            output_name_of(self@, text_of(*filename), date@) is Some ==> outcome is Ok
                && outcome->Ok_0@ == output_name_of(self@, text_of(*filename), date@)->0,
    {
        proof {
            reveal_strlit("-");
            assert("-"@ =~= seq!['-']);
        }
        if self.dated {
            let stem = match filename {
                Some(f) => f.as_str(),
                None => self.name.as_str(),
            };
            Ok(String::from_str(date).concat("-").concat(stem).concat(".txt"))
        } else {
            match filename {
                Some(f) => Ok(f.clone().concat(".txt")),
                None => Err(TemplateError::MissingOutputName),
            }
        }
    }

    /// Fills in the template's text and names the output, on the day that
    /// `date` renders: the name of the file to write and the text to
    /// write to it.
    ///
    /// `contents` is the text of the template's file and `responses` are
    /// the lines that were read, one for each placeholder in the order of
    /// `find_moustaches`. Too few responses fail first; then a missing
    /// file name.
    pub fn invoke_on(
        &self,
        filename: &Option<String>,
        date: &str,
        contents: &str,
        responses: &Vec<String>,
    ) -> (outcome: Result<(String, String), TemplateError>)
        ensures
            responses@.len() < placeholders(contents@).len() ==> outcome == Err::<
                (String, String),
                TemplateError,
            >(TemplateError::InputStreamClosed),
            responses@.len() >= placeholders(contents@).len() ==> match output_name_of(
                self@,
                text_of(*filename),
                date@,
            ) {
                Some(name) => outcome is Ok && outcome->Ok_0.0@ == name && outcome->Ok_0.1@
                    == filled(contents@, responses@),
                None => outcome == Err::<(String, String), TemplateError>(
                    TemplateError::MissingOutputName,
                ),
            },
    {
        let new_contents = match find_and_replace_moustaches(contents, responses) {
            Ok(text) => text,
            Err(e) => { return Err(e); },
        };
        match self.compute_output_name(filename, date) {
            Ok(fname) => Ok((fname, new_contents)),
            Err(e) => Err(e),
        }
    }

    /// Fills in the template's text and names the output, today.
    ///
    /// As `invoke_on`, with the current date in UTC rendered by the
    /// template's date format. The clock is read for a dated template
    /// only, after the responses have been counted; a format that cannot
    /// be rendered fails then. Whatever the day, the output of a dated
    /// template is named as `invoke_on` names it for some date.
    pub fn invoke(&self, filename: &Option<String>, contents: &str, responses: &Vec<String>) -> (outcome:
        Result<(String, String), TemplateError>)
        ensures
            responses@.len() < placeholders(contents@).len() ==> outcome == Err::<
                (String, String),
                TemplateError,
            >(TemplateError::InputStreamClosed),
            responses@.len() >= placeholders(contents@).len() && !self@.dated ==> match *filename {
                Some(f) => outcome is Ok && outcome->Ok_0.0@ == f@ + ".txt"@ && outcome->Ok_0.1@
                    == filled(contents@, responses@),
                None => outcome == Err::<(String, String), TemplateError>(
                    TemplateError::MissingOutputName,
                ),
            },
            responses@.len() >= placeholders(contents@).len() && self@.dated ==> match outcome {
                Ok((name, text)) => text@ == filled(contents@, responses@) && exists|
                    date: Seq<char>,
                | #[trigger] output_name_of(self@, text_of(*filename), date) == Some(name@),
                Err(TemplateError::InvalidDateFormat { format }) => format@ == self@.dateformat,
                Err(_) => false,
            },
    {
        if !self.dated {
            return self.invoke_on(filename, "", contents, responses);
        }
        let new_contents = match find_and_replace_moustaches(contents, responses) {
            Ok(text) => text,
            Err(e) => { return Err(e); },
        };
        match utc_now_formatted(self.dateformat.as_str()) {
            Some(date) => match self.compute_output_name(filename, date.as_str()) {
                Ok(fname) => {
                    assert(output_name_of(self@, text_of(*filename), date@) == Some(fname@));
                    Ok((fname, new_contents))
                },
                Err(e) => Err(e),
            },
            None => Err(TemplateError::InvalidDateFormat { format: self.dateformat.clone() }),
        }
    }
}

} // verus!
