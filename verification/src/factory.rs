//! Which class the library activates for a class name.
use vstd::prelude::*;
use crate::order::chars_eq;
use crate::text::str_chars;

verus! {

/// The classes that the library makes.
#[derive(Clone, Copy, Debug, PartialEq, Eq, Structural)]
pub enum ActivatableClass {
    KeyboardTranslator,
    KeyboardHook,
    NotifyIcon,
    SequenceDefinition,
    Sender,
}

/// The class of a runtime class name, if the library makes it.
pub open spec fn class_of_name(name: Seq<char>) -> Option<ActivatableClass> {
    if name == "LibSimbolMudah.KeyboardTranslator"@ {
        Some(ActivatableClass::KeyboardTranslator)
    } else if name == "LibSimbolMudah.KeyboardHook"@ {
        Some(ActivatableClass::KeyboardHook)
    } else if name == "LibSimbolMudah.NotifyIcon"@ {
        Some(ActivatableClass::NotifyIcon)
    } else if name == "LibSimbolMudah.SequenceDefinition"@ {
        Some(ActivatableClass::SequenceDefinition)
    } else if name == "LibSimbolMudah.Sender"@ {
        Some(ActivatableClass::Sender)
    } else {
        None
    }
}

/// The class that `DllGetActivationFactory` makes a factory for, given the
/// class name; `None` for a class that is not available.
pub fn activation_factory_for(name: &str) -> (r: Option<ActivatableClass>)
    ensures
        r == class_of_name(name@),
{
    let n = str_chars(name);
    if chars_eq(&n, &str_chars("LibSimbolMudah.KeyboardTranslator")) {
        Some(ActivatableClass::KeyboardTranslator)
    } else if chars_eq(&n, &str_chars("LibSimbolMudah.KeyboardHook")) {
        Some(ActivatableClass::KeyboardHook)
    } else if chars_eq(&n, &str_chars("LibSimbolMudah.NotifyIcon")) {
        Some(ActivatableClass::NotifyIcon)
    } else if chars_eq(&n, &str_chars("LibSimbolMudah.SequenceDefinition")) {
        Some(ActivatableClass::SequenceDefinition)
    } else if chars_eq(&n, &str_chars("LibSimbolMudah.Sender")) {
        Some(ActivatableClass::Sender)
    } else {
        None
    }
}

} // verus!
