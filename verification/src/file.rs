//! File-backed sources: they carry a path and an optional explicit format,
//! select the format adapter, and parse text that the caller has read from
//! the file. Reading the file itself is the caller's business; these types
//! never touch the filesystem.

use vstd::prelude::*;

use crate::value::ConfigValue;

use crate::parser::{
    ErrNode,
    FileFormat,
    ParserError,
    ext_of,
    format_of_ext,
    get_file_extension,
    get_parser,
    parse_text_post,
};

verus! {

/// The format a file source selects: the explicit format when one was
/// given, else the one its path's extension names.
pub open spec fn parser_of(format: Option<FileFormat>, path: Seq<char>) -> Result<
    FileFormat,
    ErrNode,
> {
    match format {
        Some(f) => Ok(f),
        None => match ext_of(path) {
            None => Err(ErrNode::MissingFileExtension),
            Some(e) => match format_of_ext(e) {
                Some(f) => Ok(f),
                None => Err(ErrNode::InvalidFileFormat(e)),
            },
        },
    }
}

/// A file-backed source with an optional explicit format tag.
pub struct ConfigFileSource {
    /// The path of the configuration file.
    pub path: String,
    /// The format to parse it as; inferred from the extension when absent.
    pub format: Option<FileFormat>,
}

impl ConfigFileSource {
    /// A file source for `path`, parsed as `format` when one is given and
    /// else as the format its extension names.
    pub fn new(path: String, format: Option<FileFormat>) -> (r: Self)
        ensures
            r.path == path,
            r.format == format,
    {
        ConfigFileSource { path, format }
    }

    /// Select the format adapter: the explicit format when given, else by
    /// the path's extension.
    pub fn get_parser(&self) -> (r: Result<FileFormat, ParserError>)
        ensures
            match r {
                Ok(f) => parser_of(self.format, self.path@) == Ok::<FileFormat, ErrNode>(f),
                Err(e) => parser_of(self.format, self.path@) == Err::<FileFormat, ErrNode>(e@),
            },
    {
        match &self.format {
            Some(f) => Ok(*f),
            None => match get_file_extension(self.path.as_str()) {
                Ok(ext) => get_parser(ext.as_str()),
                Err(e) => Err(e),
            },
        }
    }

    /// Parse the text of this source's file with the selected format.
    pub fn load_str(&self, text: &str) -> (r: Result<ConfigValue, ParserError>)
        ensures
            match parser_of(self.format, self.path@) {
                Ok(f) => parse_text_post(f, text@, r),
                Err(e) => r matches Err(re) && re@ == e,
            },
    {
        match self.get_parser() {
            Ok(f) => f.parse_text(text),
            Err(e) => Err(e),
        }
    }
}

/// The format a bare file source selects: the one its path's extension
/// names; a missing extension reads as the empty extension, which names no
/// format.
pub open spec fn file_parser_of(path: Seq<char>) -> Result<FileFormat, ErrNode> {
    match ext_of(path) {
        None => Err(ErrNode::InvalidFileFormat(Seq::<char>::empty())),
        Some(e) => match format_of_ext(e) {
            Some(f) => Ok(f),
            None => Err(ErrNode::InvalidFileFormat(e)),
        },
    }
}

/// A file-backed source that always infers its format from the extension.
pub struct FileSource {
    /// The path of the configuration file.
    pub path: String,
}

impl FileSource {
    /// A file source for `path`.
    pub fn new(path: String) -> (r: Self)
        ensures
            r.path == path,
    {
        FileSource { path }
    }

    /// Select the format adapter by the path's extension.
    pub fn get_parser(&self) -> (r: Result<FileFormat, ParserError>)
        ensures
            match r {
                Ok(f) => file_parser_of(self.path@) == Ok::<FileFormat, ErrNode>(f),
                Err(e) => file_parser_of(self.path@) == Err::<FileFormat, ErrNode>(e@),
            },
    {
        match get_file_extension(self.path.as_str()) {
            Ok(ext) => get_parser(ext.as_str()),
            Err(_) => {
                proof {
                    reveal_strlit("");
                    assert(""@.len() == 0);
                    assert(""@ =~= Seq::<char>::empty());
                }
                Err(ParserError::InvalidFileFormat("".to_owned()))
            },
        }
    }

    /// Parse the text of this source's file with the inferred format.
    pub fn load_str(&self, text: &str) -> (r: Result<ConfigValue, ParserError>)
        ensures
            match file_parser_of(self.path@) {
                Ok(f) => parse_text_post(f, text@, r),
                Err(e) => r matches Err(re) && re@ == e,
            },
    {
        match self.get_parser() {
            Ok(f) => f.parse_text(text),
            Err(e) => Err(e),
        }
    }
}

} // verus!
