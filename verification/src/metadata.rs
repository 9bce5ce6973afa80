//! Bibliographic data given by the user.

use vstd::prelude::*;

use crate::dates::{is_publication_date, is_valid_date};
use crate::text::{is_blank, is_blank_text};

verus! {

/// The bibliographic data that the user supplies for one book.
///
/// Values decided at build time, such as a generated identifier or the
/// modification time, are not part of it.
#[derive(Clone, Debug, PartialEq, Eq)]
pub struct PublicationMetadata {
    pub title: String,
    pub title_file_as: Option<String>,
    pub creators: Vec<CreatorMetadata>,
    pub description: Option<String>,
    pub publisher: Option<String>,
    pub date: Option<String>,
    pub types: Vec<String>,
    pub subjects: Vec<String>,
    pub language: String,
    pub identifier: Option<String>,
}

/// The data of one creator; roles and alternate scripts keep their order.
#[derive(Clone, Debug, PartialEq, Eq)]
pub struct CreatorMetadata {
    pub name: String,
    pub file_as: Option<String>,
    pub roles: Vec<String>,
    pub alternate_scripts: Vec<AlternateScript>,
}

/// A creator's name written in another script.
#[derive(Clone, Debug, PartialEq, Eq)]
pub struct AlternateScript {
    pub value: String,
    pub language: String,
}

/// Why bibliographic data was refused.
#[derive(Clone, Copy, Debug, PartialEq, Eq, Structural)]
pub enum MetadataError {
    EmptyTitle,
    EmptyTitleFileAs,
    EmptyCreatorName,
    EmptyCreatorFileAs,
    EmptyCreatorRole,
    EmptyCreatorAlternateScript,
    EmptyCreatorAlternateScriptLanguage,
    EmptyDescription,
    EmptyPublisher,
    EmptyDate,
    InvalidDate,
    EmptyType,
    EmptySubject,
    EmptyLanguage,
    EmptyIdentifier,
}

/// The field that an error about a blank value names.
pub open spec fn blank_field_name(error: MetadataError) -> Seq<char> {
    match error {
        MetadataError::EmptyTitle => "title"@,
        MetadataError::EmptyTitleFileAs => "title file-as"@,
        MetadataError::EmptyCreatorName => "creator name"@,
        MetadataError::EmptyCreatorFileAs => "creator file-as"@,
        MetadataError::EmptyCreatorRole => "creator role"@,
        MetadataError::EmptyCreatorAlternateScript => "creator alternate-script"@,
        MetadataError::EmptyCreatorAlternateScriptLanguage => "creator alternate-script language"@,
        MetadataError::EmptyDescription => "description"@,
        MetadataError::EmptyPublisher => "publisher"@,
        MetadataError::EmptyDate => "date"@,
        MetadataError::InvalidDate => "date"@,
        MetadataError::EmptyType => "type"@,
        MetadataError::EmptySubject => "subject"@,
        MetadataError::EmptyLanguage => "language"@,
        MetadataError::EmptyIdentifier => "identifier"@,
    }
}

/// The English description of an error, for callers that do not localize.
pub open spec fn metadata_error_text(error: MetadataError) -> Seq<char> {
    match error {
        MetadataError::InvalidDate => "date must use YYYY-MM-DD or an RFC 3339 date-time"@,
        _ => blank_field_name(error) + " must not be empty"@,
    }
}

impl MetadataError {
    /// Describes the error in English.
    pub fn message(&self) -> (text: String)
        ensures
            text@ == metadata_error_text(*self),
    {
        let field = match self {
            MetadataError::EmptyTitle => "title",
            MetadataError::EmptyTitleFileAs => "title file-as",
            MetadataError::EmptyCreatorName => "creator name",
            MetadataError::EmptyCreatorFileAs => "creator file-as",
            MetadataError::EmptyCreatorRole => "creator role",
            MetadataError::EmptyCreatorAlternateScript => "creator alternate-script",
            MetadataError::EmptyCreatorAlternateScriptLanguage => "creator alternate-script language",
            MetadataError::EmptyDescription => "description",
            MetadataError::EmptyPublisher => "publisher",
            MetadataError::EmptyDate => "date",
            MetadataError::InvalidDate => {
                return "date must use YYYY-MM-DD or an RFC 3339 date-time".to_owned();
            },
            MetadataError::EmptyType => "type",
            MetadataError::EmptySubject => "subject",
            MetadataError::EmptyLanguage => "language",
            MetadataError::EmptyIdentifier => "identifier",
        };
        let mut text = field.to_owned();
        text.append(" must not be empty");
        text
    }
}

/// An optional value that is given but blank.
pub open spec fn is_blank_option(value: Option<String>) -> bool {
    match value {
        Some(text) => is_blank(text@),
        None => false,
    }
}

/// Some value of the list is blank.
pub open spec fn has_blank(values: Seq<String>) -> bool {
    exists|i: int| 0 <= i < values.len() && is_blank(#[trigger] values[i]@)
}

/// The error of the first alternate script, in order, that has a blank part.
pub open spec fn alternate_scripts_error(scripts: Seq<AlternateScript>) -> Option<MetadataError>
    decreases scripts.len(),
{
    if scripts.len() == 0 {
        None
    } else if is_blank(scripts[0].value@) {
        Some(MetadataError::EmptyCreatorAlternateScript)
    } else if is_blank(scripts[0].language@) {
        Some(MetadataError::EmptyCreatorAlternateScriptLanguage)
    } else {
        alternate_scripts_error(scripts.drop_first())
    }
}

/// The error that one creator raises.
pub open spec fn creator_error(creator: CreatorMetadata) -> Option<MetadataError> {
    if is_blank(creator.name@) {
        Some(MetadataError::EmptyCreatorName)
    } else if is_blank_option(creator.file_as) {
        Some(MetadataError::EmptyCreatorFileAs)
    } else if has_blank(creator.roles@) {
        Some(MetadataError::EmptyCreatorRole)
    } else {
        alternate_scripts_error(creator.alternate_scripts@)
    }
}

/// The error of the first creator, in order, that raises one.
pub open spec fn creators_error(creators: Seq<CreatorMetadata>) -> Option<MetadataError>
    decreases creators.len(),
{
    if creators.len() == 0 {
        None
    } else {
        match creator_error(creators[0]) {
            Some(error) => Some(error),
            None => creators_error(creators.drop_first()),
        }
    }
}

/// The error that validation reports for the data, fields checked in this order.
pub open spec fn metadata_error(metadata: PublicationMetadata) -> Option<MetadataError> {
    if is_blank(metadata.title@) {
        Some(MetadataError::EmptyTitle)
    } else if is_blank_option(metadata.title_file_as) {
        Some(MetadataError::EmptyTitleFileAs)
    } else if is_blank_option(metadata.description) {
        Some(MetadataError::EmptyDescription)
    } else if is_blank_option(metadata.publisher) {
        Some(MetadataError::EmptyPublisher)
    } else if is_blank_option(metadata.date) {
        Some(MetadataError::EmptyDate)
    } else if metadata.date is Some && !is_publication_date(metadata.date.unwrap()@) {
        Some(MetadataError::InvalidDate)
    } else if has_blank(metadata.types@) {
        Some(MetadataError::EmptyType)
    } else if has_blank(metadata.subjects@) {
        Some(MetadataError::EmptySubject)
    } else if is_blank(metadata.language@) {
        Some(MetadataError::EmptyLanguage)
    } else if is_blank_option(metadata.identifier) {
        Some(MetadataError::EmptyIdentifier)
    } else {
        creators_error(metadata.creators@)
    }
}

impl PublicationMetadata {
    /// Creates the data of a book from its title alone, in Japanese.
    pub fn new(title: String) -> (metadata: Self)
        ensures
            metadata.title == title,
            metadata.title_file_as is None,
            metadata.creators@.len() == 0,
            metadata.description is None,
            metadata.publisher is None,
            metadata.date is None,
            metadata.types@.len() == 0,
            metadata.subjects@.len() == 0,
            metadata.language@ == "ja"@,
            metadata.identifier is None,
    {
        Self {
            title,
            title_file_as: None,
            creators: Vec::new(),
            description: None,
            publisher: None,
            date: None,
            types: Vec::new(),
            subjects: Vec::new(),
            language: "ja".to_owned(),
            identifier: None,
        }
    }

    /// Checks the data before it is written to an EPUB: no given value may be
    /// blank and a date must be valid. Values are checked, never trimmed.
    pub fn validate(&self) -> (result: Result<(), MetadataError>)
        ensures
            match result {
                Ok(()) => metadata_error(*self) is None,
                Err(error) => metadata_error(*self) == Some(error),
            },
    {
        require_value(self.title.as_str(), MetadataError::EmptyTitle)?;
        require_optional_value(&self.title_file_as, MetadataError::EmptyTitleFileAs)?;
        require_optional_value(&self.description, MetadataError::EmptyDescription)?;
        require_optional_value(&self.publisher, MetadataError::EmptyPublisher)?;
        require_optional_value(&self.date, MetadataError::EmptyDate)?;
        if let Some(date) = &self.date {
            if !is_valid_date(date.as_str()) {
                return Err(MetadataError::InvalidDate);
            }
        }
        require_values(&self.types, MetadataError::EmptyType)?;
        require_values(&self.subjects, MetadataError::EmptySubject)?;
        require_value(self.language.as_str(), MetadataError::EmptyLanguage)?;
        require_optional_value(&self.identifier, MetadataError::EmptyIdentifier)?;

        let mut index: usize = 0;
        assert(self.creators@.skip(0) =~= self.creators@);
        assert(metadata_error(*self) == creators_error(self.creators@));
        while index < self.creators.len()
            invariant
                index <= self.creators@.len(),
                metadata_error(*self) == creators_error(self.creators@.skip(index as int)),
            decreases self.creators@.len() - index,
        {
            proof {
                let rest = self.creators@.skip(index as int);
                assert(rest[0] == self.creators@[index as int]);
                assert(rest.drop_first() =~= self.creators@.skip(index + 1));
            }
            self.creators[index].validate()?;
            index = index + 1;
        }
        Ok(())
    }
}

impl CreatorMetadata {
    /// Checks that no given value of the creator is blank.
    fn validate(&self) -> (result: Result<(), MetadataError>)
        ensures
            match result {
                Ok(()) => creator_error(*self) is None,
                Err(error) => creator_error(*self) == Some(error),
            },
    {
        require_value(self.name.as_str(), MetadataError::EmptyCreatorName)?;
        require_optional_value(&self.file_as, MetadataError::EmptyCreatorFileAs)?;
        require_values(&self.roles, MetadataError::EmptyCreatorRole)?;

        let scripts = &self.alternate_scripts;
        let mut index: usize = 0;
        assert(scripts@.skip(0) =~= scripts@);
        assert(creator_error(*self) == alternate_scripts_error(scripts@));
        while index < scripts.len()
            invariant
                index <= scripts@.len(),
                scripts == &self.alternate_scripts,
                creator_error(*self) == alternate_scripts_error(scripts@.skip(index as int)),
            decreases scripts@.len() - index,
        {
            proof {
                let rest = scripts@.skip(index as int);
                assert(rest[0] == scripts@[index as int]);
                assert(rest.drop_first() =~= scripts@.skip(index + 1));
            }
            require_value(
                scripts[index].value.as_str(),
                MetadataError::EmptyCreatorAlternateScript,
            )?;
            require_value(
                scripts[index].language.as_str(),
                MetadataError::EmptyCreatorAlternateScriptLanguage,
            )?;
            index = index + 1;
        }
        Ok(())
    }
}

/// Refuses a blank value with `error`.
fn require_value(value: &str, error: MetadataError) -> (result: Result<(), MetadataError>)
    ensures
        result == if is_blank(value@) {
            Err::<(), MetadataError>(error)
        } else {
            Ok(())
        },
{
    if is_blank_text(value) {
        Err(error)
    } else {
        Ok(())
    }
}

/// Refuses a given but blank value with `error`; an absent value is accepted.
fn require_optional_value(value: &Option<String>, error: MetadataError) -> (result: Result<
    (),
    MetadataError,
>)
    ensures
        result == if is_blank_option(*value) {
            Err::<(), MetadataError>(error)
        } else {
            Ok(())
        },
{
    match value {
        Some(text) => require_value(text.as_str(), error),
        None => Ok(()),
    }
}

/// Refuses a list in which some value is blank.
fn require_values(values: &Vec<String>, error: MetadataError) -> (result: Result<(), MetadataError>)
    ensures
        result == if has_blank(values@) {
            Err::<(), MetadataError>(error)
        } else {
            Ok(())
        },
{
    let mut index: usize = 0;
    while index < values.len()
        invariant
            index <= values@.len(),
            forall|i: int| 0 <= i < index ==> !is_blank(#[trigger] values@[i]@),
        decreases values@.len() - index,
    {
        if is_blank_text(values[index].as_str()) {
            return Err(error);
        }
        index = index + 1;
    }
    Ok(())
}

} // verus!
