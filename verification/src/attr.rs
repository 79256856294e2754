//! Attributes: named, compile-time-constant metadata on operations.
//!
//! An attribute value is kept in its textual form; construction validates the
//! text so that an attribute dictionary can be printed and read back.

use crate::chars::{attr_text_ok, check_attr_text, check_ident, ident_ok, string_to_chars};
use crate::Error;
use vstd::prelude::*;

verus! {

/// An attribute value, held as validated text.
#[derive(Debug)]
pub struct Attribute {
    pub text: String,
}

impl View for Attribute {
    type V = Seq<char>;

    open spec fn view(&self) -> Seq<char> {
        self.text@
    }
}

impl Clone for Attribute {
    fn clone(&self) -> (r: Attribute)
        ensures
            r@ == self@,
    {
        Attribute { text: self.text.clone() }
    }
}

/// An attribute under its key, before the key is interned.
#[derive(Debug)]
pub struct NamedAttribute {
    pub name: String,
    pub attribute: Attribute,
}

/// The mathematical value of a named attribute.
#[verifier::ext_equal]
pub struct NamedAttributeV {
    pub name: Seq<char>,
    pub text: Seq<char>,
}

impl View for NamedAttribute {
    type V = NamedAttributeV;

    open spec fn view(&self) -> NamedAttributeV {
        NamedAttributeV { name: self.name@, text: self.attribute@ }
    }
}

impl Clone for NamedAttribute {
    fn clone(&self) -> (r: NamedAttribute)
        ensures
            r@ == self@,
    {
        NamedAttribute { name: self.name.clone(), attribute: self.attribute.clone() }
    }
}

impl NamedAttribute {
    /// Builds a named attribute from a key and a textual value.  Fails with
    /// `ParseFailed` exactly when the key is not an identifier or the value
    /// holds characters that a dictionary cannot carry.
    pub fn new_parsed(name: &str, value: &str) -> (r: Result<NamedAttribute, Error>)
        ensures
            (ident_ok(name@) && attr_text_ok(value@)) <==> r is Ok,
            r matches Ok(a) ==> a@ == (NamedAttributeV { name: name@, text: value@ }),
            r matches Err(e) ==> e == Error::ParseFailed,
    {
        let name_chars = string_to_chars(name);
        let value_chars = string_to_chars(value);
        if check_ident(&name_chars) && check_attr_text(&value_chars) {
            Ok(
                NamedAttribute {
                    name: name.to_owned(),
                    attribute: Attribute { text: value.to_owned() },
                },
            )
        } else {
            Err(Error::ParseFailed)
        }
    }
}

} // verus!
