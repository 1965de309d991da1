//! The ways in which a XenStore operation can fail.

use vstd::prelude::*;

verus! {

/// A failure found by the protocol code itself. Failures of the transport stay
/// with the code that drives it.
#[derive(Debug, PartialEq, Eq)]
pub enum XsError {
    /// A path, value or token holds a NUL byte.
    NulByte,
    /// An argument is out of range.
    InvalidInput,
    /// A message is not what the protocol calls for.
    InvalidData,
    /// The store refused the request.
    Transaction,
    /// A message body is not UTF-8; these are its bytes.
    Utf8(Vec<u8>),
}

/// What an [`XsError`] says, as a mathematical value.
pub enum ErrorView {
    NulByte,
    InvalidInput,
    InvalidData,
    Transaction,
    Utf8(Seq<u8>),
}

impl View for XsError {
    type V = ErrorView;

    open spec fn view(&self) -> ErrorView {
        match *self {
            XsError::NulByte => ErrorView::NulByte,
            XsError::InvalidInput => ErrorView::InvalidInput,
            XsError::InvalidData => ErrorView::InvalidData,
            XsError::Transaction => ErrorView::Transaction,
            XsError::Utf8(bytes) => ErrorView::Utf8(bytes@),
        }
    }
}

/// The kinds of failure that callers tell apart.
#[derive(Debug, Clone, Copy, PartialEq, Eq, Structural)]
pub enum ErrorClass {
    /// The caller passed something that cannot be used.
    InvalidInput,
    /// The store sent something that makes no sense.
    InvalidData,
    /// Anything else.
    Other,
}

/// The class that an error belongs to.
pub open spec fn class_of(error: ErrorView) -> ErrorClass {
    match error {
        ErrorView::NulByte | ErrorView::InvalidInput => ErrorClass::InvalidInput,
        ErrorView::InvalidData => ErrorClass::InvalidData,
        ErrorView::Transaction | ErrorView::Utf8(_) => ErrorClass::Other,
    }
}

/// The text that an error is reported with, where it is always the same.
pub open spec fn text_of(error: ErrorView) -> Option<Seq<char>> {
    match error {
        ErrorView::NulByte => Some("data provided contains a nul byte"@),
        ErrorView::Transaction => Some("Xen Store transaction error"@),
        _ => None,
    }
}

impl XsError {
    /// The class of the error.
    pub fn class(&self) -> (class: ErrorClass)
        ensures
            class == class_of(self@),
    {
        match self {
            XsError::NulByte => ErrorClass::InvalidInput,
            XsError::InvalidInput => ErrorClass::InvalidInput,
            XsError::InvalidData => ErrorClass::InvalidData,
            XsError::Transaction => ErrorClass::Other,
            XsError::Utf8(_) => ErrorClass::Other,
        }
    }

    /// The text to report the error with. There is none where the class says all,
    /// and none for a body that is not UTF-8, where it depends on the body.
    pub fn text(&self) -> (text: Option<&'static str>)
        ensures
            text is Some <==> text_of(self@) is Some,
            text matches Some(text) ==> text_of(self@) == Some(text@),
    {
        match self {
            XsError::NulByte => Some("data provided contains a nul byte"),
            XsError::Transaction => Some("Xen Store transaction error"),
            _ => None,
        }
    }
}

/// The class of an error tells who is to blame. It is the caller for text with a
/// NUL and for an argument out of range, and the store for a message that does not
/// fit the protocol. A refusal is neither, nor is a body that is not UTF-8, whatever
/// its bytes are.
pub proof fn law_error_classes(error: XsError, class: ErrorClass)
    requires
        call_ensures(XsError::class, (&error,), class),
    ensures
        class is InvalidInput <==> error is NulByte || error is InvalidInput,
        class is InvalidData <==> error is InvalidData,
        class is Other <==> error is Transaction || error is Utf8,
{
}

/// Only a refusal and text with a NUL have a text of their own, and it tells them
/// apart.
pub proof fn law_error_texts(error: XsError, text: Option<&'static str>)
    requires
        call_ensures(XsError::text, (&error,), text),
    ensures
        text is Some <==> error is NulByte || error is Transaction,
        error is NulByte ==> text->0@ == "data provided contains a nul byte"@,
        error is Transaction ==> text->0@ == "Xen Store transaction error"@,
{
}

/// Errors that say the same are the same failure, with the same bytes.
pub proof fn law_error_view_is_faithful(error: XsError, other: XsError)
    requires
        error@ == other@,
    ensures
        error is NulByte <==> other is NulByte,
        error is InvalidInput <==> other is InvalidInput,
        error is InvalidData <==> other is InvalidData,
        error is Transaction <==> other is Transaction,
        error is Utf8 <==> other is Utf8,
        error matches XsError::Utf8(bytes) ==> other->Utf8_0@ == bytes@,
{
}

} // verus!
