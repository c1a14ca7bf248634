//! The sections of an audit log entry.
use vstd::prelude::*;

verus! {

/// The section of the audit log entry that a line belongs to.
#[derive(Clone, Copy, Debug, PartialEq, Eq, Structural)]
pub enum Section {
    /// Audit log header (mandatory).
    A,
    /// Request headers.
    B,
    /// Request body.
    C,
    /// Reserved for intermediary response headers; not in use yet.
    D,
    /// Intermediary response body.
    E,
    /// Final response headers.
    F,
    /// Reserved for the actual response body; not in use yet.
    G,
    /// Audit log trailer.
    H,
    /// Not written by ModSecurity v3.
    I,
    /// Files uploaded using multipart/form-data encoding.
    J,
    /// Not written by ModSecurity v3.
    K,
    /// Final boundary, signifies the end of the entry (mandatory).
    Z,
}

/// The section that a letter stands for.
pub open spec fn section_of(letter: char) -> Option<Section> {
    match letter {
        'A' => Some(Section::A),
        'B' => Some(Section::B),
        'C' => Some(Section::C),
        'D' => Some(Section::D),
        'E' => Some(Section::E),
        'F' => Some(Section::F),
        'G' => Some(Section::G),
        'H' => Some(Section::H),
        'I' => Some(Section::I),
        'J' => Some(Section::J),
        'K' => Some(Section::K),
        'Z' => Some(Section::Z),
        _ => None,
    }
}

impl Section {
    /// The section that a letter stands for, `None` for a letter that stands for no section.
    pub fn from_letter(letter: char) -> (section: Option<Section>)
        ensures
            section == section_of(letter),
    {
        match letter {
            'A' => Some(Section::A),
            'B' => Some(Section::B),
            'C' => Some(Section::C),
            'D' => Some(Section::D),
            'E' => Some(Section::E),
            'F' => Some(Section::F),
            'G' => Some(Section::G),
            'H' => Some(Section::H),
            'I' => Some(Section::I),
            'J' => Some(Section::J),
            'K' => Some(Section::K),
            'Z' => Some(Section::Z),
            _ => None,
        }
    }
}

/// A section is named by its own letter and by no other character. In particular the letter Z alone
/// names the section that ends an entry.
pub proof fn law_a_section_is_named_by_its_letter(letter: char)
    ensures
        section_of(letter) == Some(Section::A) <==> letter == 'A',
        section_of(letter) == Some(Section::B) <==> letter == 'B',
        section_of(letter) == Some(Section::C) <==> letter == 'C',
        section_of(letter) == Some(Section::D) <==> letter == 'D',
        section_of(letter) == Some(Section::E) <==> letter == 'E',
        section_of(letter) == Some(Section::F) <==> letter == 'F',
        section_of(letter) == Some(Section::G) <==> letter == 'G',
        section_of(letter) == Some(Section::H) <==> letter == 'H',
        section_of(letter) == Some(Section::I) <==> letter == 'I',
        section_of(letter) == Some(Section::J) <==> letter == 'J',
        section_of(letter) == Some(Section::K) <==> letter == 'K',
        section_of(letter) == Some(Section::Z) <==> letter == 'Z',
{
}

/// The letters from A to K and the letter Z name sections, and no other character does.
pub proof fn law_letters_that_name_a_section(letter: char)
    ensures
        section_of(letter) is Some <==> 'A' <= letter <= 'K' || letter == 'Z',
{
}

/// Different letters name different sections.
pub proof fn law_different_letters_name_different_sections(first: char, second: char)
    ensures
        section_of(first) is Some && section_of(first) == section_of(second) ==> first == second,
{
}

} // verus!
