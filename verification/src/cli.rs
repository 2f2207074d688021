//! Target-language selection and the plain argument record. Reading the
//! command line itself is left to the host program; the library only decides
//! what a selection string means.

use vstd::prelude::*;

use crate::text::str_eq;

verus! {

/// The code-generation target a selection string denotes.
pub enum TargetLanguage<'a> {
    C,
    JavaScript,
    Unknown(&'a str),
}

/// The command-line arguments the compiler takes: the source file's name
/// and the target language to compile to.
#[derive(Debug, PartialEq, Eq)]
pub struct Args {
    pub file_name: String,
    pub language_target: String,
}

/// Maps a selection string to its target language: `"C"` and
/// `"JavaScript"` name their targets; anything else is handed back unknown.
pub fn get_target_language(selected_language: &str) -> (r: TargetLanguage<'_>)
    ensures
        selected_language@ == "C"@ ==> r matches TargetLanguage::C,
        selected_language@ != "C"@ && selected_language@ == "JavaScript"@ ==> r
            matches TargetLanguage::JavaScript,
        selected_language@ != "C"@ && selected_language@ != "JavaScript"@ ==> (r
            matches TargetLanguage::Unknown(u) && u@ == selected_language@),
{
    if str_eq(selected_language, "C") {
        TargetLanguage::C
    } else if str_eq(selected_language, "JavaScript") {
        TargetLanguage::JavaScript
    } else {
        TargetLanguage::Unknown(selected_language)
    }
}

} // verus!
