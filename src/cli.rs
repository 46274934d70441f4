use vstd::prelude::*;
use vstd::string::StringExecFns;

verus! {

/// The path that an optional target path stands for: the path given, or the
/// default.
pub open spec fn resolved_path(target_path: Option<String>, default: Seq<char>) -> Seq<char> {
    match target_path {
        Some(p) => p@,
        None => default,
    }
}

fn resolve_path(target_path: &Option<String>, default: &str) -> (r: String)
    ensures
        r@ == resolved_path(*target_path, default@),
{
    match target_path {
        Some(p) => p.clone(),
        None => String::from_str(default),
    }
}

/// Makes a grayscale copy of a picture.
#[derive(PartialEq, Debug)]
pub struct ToBlackAndWhiteConfig {
    /// the path to the source picture
    pub source_path: String,
    /// the (optional) path for the new picture
    pub target_path: Option<String>,
}

impl ToBlackAndWhiteConfig {
    /// Where the picture is written: the target path, by default
    /// `black_and_white_img.png`.
    pub fn resolved_target_path(&self) -> (r: String)
        ensures
            r@ == resolved_path(self.target_path, "black_and_white_img.png"@),
    {
        resolve_path(&self.target_path, "black_and_white_img.png")
    }
}

/// Finds the gamma whose grid has room for a whole text with the least spare
/// ink.
#[derive(PartialEq, Debug)]
pub struct FindDistributionConfig {
    /// the path to the source picture
    pub img_source_path: String,
    /// the path to the source text
    pub text_source_path: String,
    /// the size of the simulated grid
    pub grid_size: u32,
}

/// Pre-processes a text file.
#[derive(PartialEq, Debug)]
pub struct ProcessTextConfig {
    /// the task to perform
    pub text_command: TextCommandType,
}

/// The text tasks.
#[derive(PartialEq, Debug)]
pub enum TextCommandType {
    TextLength(TextLengthConfig),
    ReplaceEnters(ReplaceEntersConfig),
    StripWhitespaces(StripWhitespacesConfig),
    RemoveMatchingLines(RemoveMatchingLinesConfig),
}

/// Prints the number of characters of a text file.
#[derive(PartialEq, Debug)]
pub struct TextLengthConfig {
    /// the path to the source text
    pub source_path: String,
}

/// Replaces every line break of a text file with a space.
#[derive(PartialEq, Debug)]
pub struct ReplaceEntersConfig {
    /// the path to the source text
    pub source_path: String,
    /// the (optional) path for the new text file
    pub target_path: Option<String>,
}

impl ReplaceEntersConfig {
    /// Where the text is written: the target path, by default
    /// `text_without_whitespaces.txt`.
    pub fn resolved_target_path(&self) -> (r: String)
        ensures
            r@ == resolved_path(self.target_path, "text_without_whitespaces.txt"@),
    {
        resolve_path(&self.target_path, "text_without_whitespaces.txt")
    }
}

/// Removes all white space from a text file.
#[derive(PartialEq, Debug)]
pub struct StripWhitespacesConfig {
    /// the path to the source text
    pub source_path: String,
    /// the (optional) path for the new text file
    pub target_path: Option<String>,
}

impl StripWhitespacesConfig {
    /// Where the text is written: the target path, by default
    /// `text_without_whitespaces.txt`.
    pub fn resolved_target_path(&self) -> (r: String)
        ensures
            r@ == resolved_path(self.target_path, "text_without_whitespaces.txt"@),
    {
        resolve_path(&self.target_path, "text_without_whitespaces.txt")
    }
}

/// Removes the lines of a text file that match a regular expression.
#[derive(PartialEq, Debug)]
pub struct RemoveMatchingLinesConfig {
    /// the path to the source text
    pub source_path: String,
    /// the regular expression of the lines to remove
    pub regex: String,
    /// the (optional) path for the new text file
    pub target_path: Option<String>,
}

impl RemoveMatchingLinesConfig {
    /// Where the text is written: the target path, by default
    /// `text_with_lines_removed.txt`.
    pub fn resolved_target_path(&self) -> (r: String)
        ensures
            r@ == resolved_path(self.target_path, "text_with_lines_removed.txt"@),
    {
        resolve_path(&self.target_path, "text_with_lines_removed.txt")
    }
}

} // verus!
