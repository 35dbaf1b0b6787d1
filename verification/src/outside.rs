//! What the library takes from `ec4rs` and `smallvec`, and what it relies on of them.
use vstd::prelude::*;

use ec4rs::{ConfigParser, Properties, PropertiesSource, Section};
use smallvec::SmallVec;
use std::io::BufReader;

verus! {

#[verifier::external_type_specification]
#[verifier::external_body]
pub struct ExSection(ec4rs::Section);

#[verifier::external_type_specification]
#[verifier::external_body]
pub struct ExProperties(ec4rs::Properties);

#[verifier::external_type_specification]
#[verifier::external_body]
pub struct ExParseError(ec4rs::ParseError);

#[verifier::external_type_specification]
#[verifier::external_body]
pub struct ExError(ec4rs::Error);

/// The sections of an EditorConfig file, kept in a `SmallVec`.
#[verifier::external_body]
pub struct Sections {
    inner: SmallVec<[Section; 5]>,
}

/// A `ConfigParser` on the bytes of a text, as the collection of the sections that it has yet
/// to hand out.
#[verifier::external_body]
pub struct SectionParser<'a> {
    inner: ConfigParser<BufReader<&'a [u8]>>,
}

/// Properties and their values, from the oldest to the newest.
pub type Pairs = Seq<(Seq<char>, Seq<char>)>;

/// A section of an EditorConfig file: its header, and the properties that it sets.
pub type SectionModel = (Seq<char>, Seq<(Seq<char>, Seq<char>)>);

/// A header that compiles to the pattern of a section, which is all that a section keeps of it.
pub uninterp spec fn section_header(section: Section) -> Seq<char>;

/// The properties that a section holds.
pub uninterp spec fn section_pairs(section: Section) -> Seq<(Seq<char>, Seq<char>)>;

/// The properties that a property map holds.
pub uninterp spec fn properties_pairs(properties: Properties) -> Seq<(Seq<char>, Seq<char>)>;

/// The sections that a vector holds.
pub uninterp spec fn held_sections(sections: Sections) -> Seq<
    (Seq<char>, Seq<(Seq<char>, Seq<char>)>),
>;

/// The sections that a parser has yet to hand out before its input ends or a line is refused.
pub uninterp spec fn sections_left(parser: SectionParser) -> Seq<
    (Seq<char>, Seq<(Seq<char>, Seq<char>)>),
>;

/// Whether a parser refuses a line after the sections that it has yet to hand out.
pub uninterp spec fn refuses_line(parser: SectionParser) -> bool;

/// What `ConfigParser::new_buffered` makes of a text: `None` where it refuses the
/// lines before the first section, else whether they say that the file is a root.
pub uninterp spec fn preamble_root(contents: Seq<char>) -> Option<bool>;

/// What a `ConfigParser` made from a text hands out: the sections before the first line that
/// it refuses, and whether there is such a line.
pub uninterp spec fn body_sections(contents: Seq<char>) -> (
    Seq<(Seq<char>, Seq<(Seq<char>, Seq<char>)>)>,
    bool,
);

/// What `Section::applies_to` says of a section with a header and of a path. The path is
/// split as the platform splits paths, so this is about the platform at hand.
pub uninterp spec fn glob_matches(header: Seq<char>, path: Seq<char>) -> bool;

/// The header of a section and the properties that it sets.
pub open spec fn section_model(section: Section) -> SectionModel {
    (section_header(section), section_pairs(section))
}

/// Where `key` stands among the pairs.
pub open spec fn key_at(pairs: Pairs, key: Seq<char>, i: int) -> bool {
    0 <= i < pairs.len() && pairs[i].0 == key
}

/// The value that the pairs give `key`.
pub open spec fn value_of(pairs: Pairs, key: Seq<char>) -> Option<Seq<char>> {
    if exists|i: int| key_at(pairs, key, i) {
        Some(pairs[choose|i: int| key_at(pairs, key, i)].1)
    } else {
        None
    }
}

/// No key stands at two places.
pub open spec fn distinct_keys(pairs: Pairs) -> bool {
    forall|i: int, j: int|
        0 <= i < j < pairs.len() ==> (#[trigger] pairs[i]).0 != (#[trigger] pairs[j]).0
}

/// The pairs after `key` got `value`: in its place where it was there before, else at the end.
pub open spec fn with_pair(pairs: Pairs, key: Seq<char>, value: Seq<char>) -> Pairs {
    if exists|i: int| key_at(pairs, key, i) {
        pairs.update(choose|i: int| key_at(pairs, key, i), (key, value))
    } else {
        pairs.push((key, value))
    }
}

/// The pairs after each of `added` was set in turn.
pub open spec fn overlaid(pairs: Pairs, added: Pairs) -> Pairs
    decreases added.len(),
{
    if added.len() == 0 {
        pairs
    } else {
        with_pair(overlaid(pairs, added.drop_last()), added.last().0, added.last().1)
    }
}

/// The text of the value that the pairs give `key`; it is empty where there is none.
pub open spec fn text_of(pairs: Pairs, key: Seq<char>) -> Seq<char> {
    match value_of(pairs, key) {
        Some(value) => value,
        None => Seq::empty(),
    }
}

/// A letter of the English alphabet in lower case; any other character as it is.
pub open spec fn lower_case(c: char) -> char {
    if 'A' <= c && c <= 'Z' {
        (c as int + 32) as char
    } else {
        c
    }
}

/// Whether a text is a word in lower case, however its letters are written.
pub open spec fn reads(text: Seq<char>, word: Seq<char>) -> bool {
    text.map_values(|c: char| lower_case(c)) == word
}

/// The pairs after `key` got `value` unless it had one before.
pub open spec fn with_default(pairs: Pairs, key: Seq<char>, value: Seq<char>) -> Pairs {
    if text_of(pairs, key).len() == 0 {
        with_pair(pairs, key, value)
    } else {
        pairs
    }
}

/// The pairs after `indent_size` and `tab_width` were derived from each other: an indent size of
/// `tab` stands for the tab width, and either is taken for the other where that has no value.
pub open spec fn with_derived_sizes(pairs: Pairs) -> Pairs {
    let size = text_of(pairs, "indent_size"@);
    let width = text_of(pairs, "tab_width"@);
    if reads(size, "tab"@) {
        with_pair(
            pairs,
            "indent_size"@,
            if width.len() > 0 {
                width
            } else {
                "tab"@
            },
        )
    } else if size.len() > 0 {
        with_default(pairs, "tab_width"@, size)
    } else if width.len() > 0 && !reads(width, "unset"@) {
        with_default(pairs, "indent_size"@, width)
    } else {
        pairs
    }
}

/// The pairs with what follows from them: sizes are derived from each other, and where lines are
/// indented with tabs and no size is known, the indent size is `tab`.
pub open spec fn with_fallbacks(pairs: Pairs) -> Pairs {
    let derived = with_derived_sizes(pairs);
    if reads(text_of(derived, "indent_style"@), "tab"@) {
        with_default(derived, "indent_size"@, "tab"@)
    } else {
        derived
    }
}

/// Calls `ConfigParser::new_buffered` on the bytes of a text, and reads `is_root` off the
/// parser. Both depend on the text alone; the parser then stands before the first section.
#[verifier::external_body]
pub(crate) fn open_parser<'a>(contents: &'a str) -> (opened: Result<
    (bool, SectionParser<'a>),
    ec4rs::ParseError,
>)
    ensures
        match opened {
            Ok((is_root, parser)) => {
                &&& preamble_root(contents@) == Some(is_root)
                &&& (sections_left(parser), refuses_line(parser)) == body_sections(contents@)
            },
            Err(_) => preamble_root(contents@) is None,
        },
{
    ConfigParser::new_buffered(contents.as_bytes()).map(
        |parser| (parser.is_root, SectionParser { inner: parser }),
    )
}

/// Calls `Iterator::next` on a `ConfigParser`: hands out the next section; after the last
/// one, an error where a line is refused, and nothing where the input has ended.
#[verifier::external_body]
pub(crate) fn next_section(parser: &mut SectionParser) -> (next: Option<
    Result<Section, ec4rs::ParseError>,
>)
    ensures
        sections_left(*old(parser)).len() > 0 ==> {
            &&& next matches Some(Ok(section))
            &&& (section_header(section), section_pairs(section)) == sections_left(*old(parser))[0]
            &&& sections_left(*final(parser)) == sections_left(*old(parser)).drop_first()
            &&& refuses_line(*final(parser)) == refuses_line(*old(parser))
        },
        sections_left(*old(parser)).len() == 0 ==> if refuses_line(*old(parser)) {
            next matches Some(Err(_))
        } else {
            next is None
        },
{
    parser.inner.next()
}

/// Calls `SmallVec::new`, which gives an empty vector.
#[verifier::external_body]
pub(crate) fn no_sections() -> (sections: Sections)
    ensures
        held_sections(sections) == Seq::<SectionModel>::empty(),
{
    Sections { inner: SmallVec::new() }
}

/// Calls `SmallVec::push`, which appends an item.
#[verifier::external_body]
pub(crate) fn push_section(sections: &mut Sections, section: Section)
    ensures
        held_sections(*final(sections)) == held_sections(*old(sections)).push(
            (section_header(section), section_pairs(section)),
        ),
{
    sections.inner.push(section)
}

/// Calls `SmallVec::as_slice`, which gives the items in order.
#[verifier::external_body]
pub(crate) fn sections_slice(sections: &Sections) -> (slice: &[Section])
    ensures
        slice@.map_values(|s: Section| section_model(s)) == held_sections(*sections),
{
    sections.inner.as_slice()
}

/// Calls `SmallVec::clone`, which clones each item; a cloned `Section` has the pattern and
/// the properties of the one it was cloned from.
#[verifier::external_body]
pub(crate) fn clone_sections(sections: &Sections) -> (copy: Sections)
    ensures
        held_sections(copy) == held_sections(*sections),
{
    Sections { inner: sections.inner.clone() }
}

/// Calls `PropertiesSource::apply_to` on a section. It does not fail; it sets the section's
/// properties one after the other if the section applies to the path, and nothing otherwise.
#[verifier::external_body]
pub(crate) fn apply_section(section: &Section, properties: &mut Properties, path: &str) -> (applied:
    Result<(), ec4rs::Error>)
    ensures
        applied is Ok,
        properties_pairs(*final(properties)) == (if glob_matches(section_header(*section), path@) {
            overlaid(properties_pairs(*old(properties)), section_pairs(*section))
        } else {
            properties_pairs(*old(properties))
        }),
{
    section.apply_to(properties, path)
}

/// `Properties::new` makes a map that holds nothing.
pub assume_specification[ ec4rs::Properties::new ]() -> (properties: ec4rs::Properties)
    ensures
        properties_pairs(properties) == Seq::<(Seq<char>, Seq<char>)>::empty(),
;

/// `Properties::use_fallbacks` derives `indent_size` and `tab_width` from each other and from
/// `indent_style`, and sets no other property.
pub assume_specification[ ec4rs::Properties::use_fallbacks ](properties: &mut ec4rs::Properties)
    ensures
        properties_pairs(*final(properties)) == with_fallbacks(properties_pairs(*old(properties))),
;

} // verus!
