//! The kind of file that the linker produces.
use vstd::prelude::*;
use crate::text::str_eq;

verus! {

/// The type of the output file.
#[derive(Debug, Clone, Copy, PartialEq, Eq, Hash, Structural)]
pub enum OutputType {
    /// Cocas-compatible object file.
    Object,
    /// Logisim image file.
    Image,
}

/// The error returned for a name that is neither `object` nor `image`.
#[derive(Debug, Clone, Copy, PartialEq, Eq, Structural)]
pub struct InvalidOutputType;

/// The name under which an output type is written and read.
pub open spec fn output_type_name(t: OutputType) -> Seq<char> {
    match t {
        OutputType::Object => "object"@,
        OutputType::Image => "image"@,
    }
}

/// What reading the name `s` gives.
pub open spec fn parse_output_type(s: Seq<char>) -> Result<OutputType, InvalidOutputType> {
    if s == "object"@ {
        Ok(OutputType::Object)
    } else if s == "image"@ {
        Ok(OutputType::Image)
    } else {
        Err(InvalidOutputType)
    }
}

impl Default for OutputType {
    fn default() -> (t: OutputType)
        ensures
            t == OutputType::Object,
    {
        OutputType::Object
    }
}

impl OutputType {
    /// Reads an output type from its name; only `object` and `image` are accepted.
    pub fn from_str(s: &str) -> (r: Result<OutputType, InvalidOutputType>)
        ensures
            r == parse_output_type(s@),
    {
        if str_eq(s, "object") {
            Ok(OutputType::Object)
        } else if str_eq(s, "image") {
            Ok(OutputType::Image)
        } else {
            Err(InvalidOutputType)
        }
    }

    /// The name of the output type, as it is displayed.
    pub fn to_string(&self) -> (r: String)
        ensures
            r@ == output_type_name(*self),
    {
        match self {
            OutputType::Object => String::from_str("object"),
            OutputType::Image => String::from_str("image"),
        }
    }
}

impl InvalidOutputType {
    /// The message that describes the error.
    pub fn to_string(&self) -> (r: String)
        ensures
            r@ == "invalid output type"@,
    {
        String::from_str("invalid output type")
    }
}

/// Reading back the displayed name of an output type gives that output type.
pub proof fn lemma_output_type_name_roundtrip(t: OutputType)
    ensures
        parse_output_type(output_type_name(t)) == Ok::<OutputType, InvalidOutputType>(t),
{
    reveal_strlit("object");
    reveal_strlit("image");
    assert("object"@ != "image"@) by {
        assert("object"@.len() != "image"@.len());
    }
}

/// Only displayed names are read successfully, and each gives the output type it names.
pub proof fn lemma_parse_output_type_only_names(s: Seq<char>)
    ensures
        parse_output_type(s) matches Ok(t) ==> output_type_name(t) == s,
        (s != "object"@ && s != "image"@) ==> parse_output_type(s) == Err::<OutputType, InvalidOutputType>(InvalidOutputType),
{
}

} // verus!
