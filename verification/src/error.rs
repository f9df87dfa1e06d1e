//! Why a translation was given up.

use vstd::prelude::*;
use vstd::string::StringExecFns;

verus! {

/// What is wrong with the structure of a feed.
#[derive(Clone, Copy, Debug, PartialEq, Eq, Structural)]
pub enum Fault {
    /// An event that the current state does not allow: anything but the
    /// start of the document at the very beginning, a second start, or the
    /// end of the document inside an entry.
    UnexpectedEvent,
    /// The root element is not `feed`.
    UnexpectedRoot,
    /// A `link` without `rel` or `href`, or a `content` without `url`.
    MissingAttribute,
    /// A `title` or `published` element that no text follows.
    MissingText,
    /// A thumbnail whose width or height is no size in pixels.
    InvalidDimension,
    /// The output has a closing tag with no element open or a second
    /// declaration, or leaves an element open.
    UnbalancedOutput,
}

/// Why a translation was given up. No output comes with an error.
#[derive(Clone, Debug, PartialEq, Eq)]
pub enum TranslationError {
    /// The document declares an encoding other than UTF-8; the name it
    /// declares is kept.
    EncodingError(String),
    /// The feed lacks something that the translation needs.
    StructuralError(Fault),
    /// A timestamp that cannot be converted: the text of a `published`
    /// element, or the seconds of the build time.
    DateFormatError(String),
    /// The document is not well-formed XML; the parser's message is kept.
    SyntaxError(String),
}

/// The view of a [`TranslationError`].
pub enum TranslationErrorView {
    EncodingError(Seq<char>),
    StructuralError(Fault),
    DateFormatError(Seq<char>),
    SyntaxError(Seq<char>),
}

impl View for TranslationError {
    type V = TranslationErrorView;

    open spec fn view(&self) -> TranslationErrorView {
        match *self {
            TranslationError::EncodingError(name) => TranslationErrorView::EncodingError(name@),
            TranslationError::StructuralError(fault) => TranslationErrorView::StructuralError(fault),
            TranslationError::DateFormatError(text) => TranslationErrorView::DateFormatError(text@),
            TranslationError::SyntaxError(message) => TranslationErrorView::SyntaxError(message@),
        }
    }
}

/// The view of a text or of the reason why there is none.
pub open spec fn outcome_view(outcome: Result<String, TranslationError>) -> Result<
    Seq<char>,
    TranslationErrorView,
> {
    match outcome {
        Ok(text) => Ok(text@),
        Err(error) => Err(error@),
    }
}

/// What [`Fault::describe`] says of a fault.
pub open spec fn fault_text(fault: Fault) -> Seq<char> {
    match fault {
        Fault::UnexpectedEvent => "unexpected event"@,
        Fault::UnexpectedRoot => "the root element is not a feed"@,
        Fault::MissingAttribute => "a required attribute is missing"@,
        Fault::MissingText => "an element has no text"@,
        Fault::InvalidDimension => "a thumbnail size is not a number"@,
        Fault::UnbalancedOutput => "the feed leaves the output unbalanced"@,
    }
}

/// What [`TranslationError::message`] says of an error.
pub open spec fn error_text(error: TranslationErrorView) -> Seq<char> {
    match error {
        TranslationErrorView::EncodingError(name) => "unsupported encoding: "@ + name,
        TranslationErrorView::StructuralError(fault) => "malformed feed: "@ + fault_text(fault),
        TranslationErrorView::DateFormatError(text) => "invalid timestamp: "@ + text,
        TranslationErrorView::SyntaxError(message) => "malformed XML: "@ + message,
    }
}

impl Fault {
    /// A few words on the fault.
    pub fn describe(&self) -> (text: &'static str)
        ensures
            text@ == fault_text(*self),
    {
        match self {
            Fault::UnexpectedEvent => "unexpected event",
            Fault::UnexpectedRoot => "the root element is not a feed",
            Fault::MissingAttribute => "a required attribute is missing",
            Fault::MissingText => "an element has no text",
            Fault::InvalidDimension => "a thumbnail size is not a number",
            Fault::UnbalancedOutput => "the feed leaves the output unbalanced",
        }
    }
}

impl TranslationError {
    /// The error in words, for whoever asked for the translation.
    pub fn message(&self) -> (text: String)
        ensures
            text@ == error_text(self@),
    {
        match self {
            TranslationError::EncodingError(name) => {
                let mut text = "unsupported encoding: ".to_owned();
                text.append(name.as_str());
                text
            },
            TranslationError::StructuralError(fault) => {
                let mut text = "malformed feed: ".to_owned();
                text.append(fault.describe());
                text
            },
            TranslationError::DateFormatError(date) => {
                let mut text = "invalid timestamp: ".to_owned();
                text.append(date.as_str());
                text
            },
            TranslationError::SyntaxError(message) => {
                let mut text = "malformed XML: ".to_owned();
                text.append(message.as_str());
                text
            },
        }
    }
}

} // verus!
