//! The configuration-template side of the export: the failures a template can
//! report, and the generated-file header that precedes the rendered
//! configuration. Reading the template file and editing its document are I/O
//! concerns of the surrounding program; the text composed here is not.

use vstd::prelude::*;

verus! {

/// The failures of building a configuration file from a template.
#[derive(Debug, Clone, Copy, PartialEq, Eq, Structural)]
pub enum TemplateError {
    /// No bindings map was supplied before generation.
    MissingBindings,
    /// The template document was neither read nor supplied before its use.
    DocumentNotRead,
    /// The template's source path is not representable as text.
    InvalidSourcePath,
}

impl TemplateError {
    /// A short description of the failure.
    pub fn message(&self) -> (r: &'static str)
        ensures
            *self == TemplateError::MissingBindings ==> r@ == "Template is missing bindings"@,
            *self == TemplateError::DocumentNotRead ==> r@
                == "Template was not read before its use"@,
            *self == TemplateError::InvalidSourcePath ==> r@
                == "Template has an invalid source path"@,
    {
        match self {
            TemplateError::MissingBindings => "Template is missing bindings",
            TemplateError::DocumentNotRead => "Template was not read before its use",
            TemplateError::InvalidSourcePath => "Template has an invalid source path",
        }
    }
}

/// The text of the header written above a generated configuration file,
/// naming the template at `path` as the place to edit instead.
pub open spec fn config_header_of(path: Seq<char>) -> Seq<char> {
    "# This configuration file has been automatically generated\n# Do not modify it manually, your changes will be lost. Instead, make changes to its associated template : "@
        + path + "\n\n"@
}

/// Composes the header that explains a configuration file was generated from
/// the template at `path` and must not be edited in place.
pub fn config_header_text(path: &str) -> (r: String)
    ensures
        r@ == config_header_of(path@),
{
    let mut out =
        "# This configuration file has been automatically generated\n# Do not modify it manually, your changes will be lost. Instead, make changes to its associated template : ".to_owned();
    out.append(path);
    out.append("\n\n");
    out
}

} // verus!
