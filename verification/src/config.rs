//! EditorConfig files, parsed.
use vstd::prelude::*;

use crate::outside::{
    body_sections, clone_sections, held_sections, next_section, no_sections, open_parser,
    preamble_root, push_section, refuses_line, section_model, sections_left, sections_slice,
    SectionModel, SectionParser, Sections,
};
use ec4rs::{ParseError, Section};
use std::str::FromStr;

verus! {

/// The contents of an EditorConfig file.
pub struct Editorconfig {
    /// Whether the files of the directories above are to be left out of account.
    pub is_root: bool,
    pub sections: Sections,
}

/// What an [`Editorconfig`] says.
pub struct EditorconfigModel {
    pub is_root: bool,
    pub sections: Seq<SectionModel>,
}

impl View for Editorconfig {
    type V = EditorconfigModel;

    open spec fn view(&self) -> EditorconfigModel {
        EditorconfigModel { is_root: self.is_root, sections: held_sections(self.sections) }
    }
}

impl Editorconfig {
    /// The sections of the file, in their order.
    pub fn sections(&self) -> (sections: &[Section])
        ensures
            sections@.map_values(|s: Section| section_model(s)) == self@.sections,
    {
        sections_slice(&self.sections)
    }
}

/// Why a text is no EditorConfig file.
#[derive(Debug)]
pub enum EditorconfigError {
    /// A line before the first section was refused.
    CreatingParser(ParseError),
    /// A line after the first section header was refused.
    ParsingSections(ParseError),
}

/// What a text says as an EditorConfig file; `None` where it is none.
pub open spec fn parsed(contents: Seq<char>) -> Option<EditorconfigModel> {
    match preamble_root(contents) {
        None => None,
        Some(is_root) => {
            if body_sections(contents).1 {
                None
            } else {
                Some(EditorconfigModel { is_root, sections: body_sections(contents).0 })
            }
        },
    }
}

/// What is said of a text that is no EditorConfig file.
pub open spec fn parse_message(contents: Seq<char>) -> Seq<char> {
    if preamble_root(contents) is None {
        "creating editorconfig parser"@
    } else {
        "parsing editorconfig sections"@
    }
}

impl EditorconfigError {
    /// What the error says.
    pub open spec fn text(self) -> Seq<char> {
        match self {
            EditorconfigError::CreatingParser(_) => "creating editorconfig parser"@,
            EditorconfigError::ParsingSections(_) => "parsing editorconfig sections"@,
        }
    }

    pub fn message(&self) -> (message: String)
        ensures
            message@ == self.text(),
    {
        match self {
            EditorconfigError::CreatingParser(_) => "creating editorconfig parser".to_owned(),
            EditorconfigError::ParsingSections(_) => "parsing editorconfig sections".to_owned(),
        }
    }
}

/// Reads the sections that a parser has left, up to the first error.
pub fn read_sections(parser: SectionParser) -> (sections: Result<
    Sections,
    ParseError,
>)
    ensures
        match sections {
            Ok(s) => !refuses_line(parser) && held_sections(s) == sections_left(parser),
            Err(_) => refuses_line(parser),
        },
{
    let mut rest = parser;
    let mut sections = no_sections();
    assert(sections_left(parser) =~= held_sections(sections) + sections_left(rest));
    loop
        invariant
            sections_left(parser) == held_sections(sections) + sections_left(rest),
            refuses_line(parser) == refuses_line(rest),
        decreases sections_left(rest).len(),
    {
        let ghost left = sections_left(rest);
        let ghost held = held_sections(sections);
        match next_section(&mut rest) {
            Some(Ok(section)) => {
                push_section(&mut sections, section);
                assert(held + left =~= held.push(left[0]) + left.drop_first());
            },
            Some(Err(error)) => {
                return Err(error);
            },
            None => {
                assert(held + left =~= held);
                return Ok(sections);
            },
        }
    }
}

impl FromStr for Editorconfig {
    type Err = EditorconfigError;

    fn from_str(contents: &str) -> (config: Result<Editorconfig, EditorconfigError>)
        ensures
            match config {
                Ok(c) => {
                    &&& parsed(contents@) == Some(c@)
                    &&& preamble_root(contents@) == Some(c.is_root)
                    &&& !body_sections(contents@).1
                    &&& held_sections(c.sections) == body_sections(contents@).0
                },
                Err(e) => {
                    &&& parsed(contents@) is None
                    &&& preamble_root(contents@) is None || body_sections(contents@).1
                    &&& e is CreatingParser <==> preamble_root(contents@) is None
                    &&& e.text() == parse_message(contents@)
                },
            },
    {
        match open_parser(contents) {
            Err(error) => Err(EditorconfigError::CreatingParser(error)),
            Ok((is_root, parser)) => match read_sections(parser) {
                Err(error) => Err(EditorconfigError::ParsingSections(error)),
                Ok(sections) => Ok(Editorconfig { is_root, sections }),
            },
        }
    }
}

impl Clone for Editorconfig {
    fn clone(&self) -> (copy: Self)
        ensures
            copy@ == self@,
    {
        Editorconfig { is_root: self.is_root, sections: clone_sections(&self.sections) }
    }
}

} // verus!
