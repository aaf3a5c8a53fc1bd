//! The errors of shape inference.
use vstd::prelude::*;
use vstd::string::StringExecFns;
use crate::shape::DataTypeError;
use crate::text::{decimal, signed_text};

verus! {

/// A node lacks an attribute that its operator needs.
#[derive(Debug, PartialEq, Eq)]
pub struct AttributeNotFoundError {
    pub attribute: String,
    pub node_name: String,
}

/// The view of an [`AttributeNotFoundError`].
#[verifier::ext_equal]
pub struct AttributeNotFoundView {
    pub attribute: Seq<char>,
    pub node_name: Seq<char>,
}

impl View for AttributeNotFoundError {
    type V = AttributeNotFoundView;

    open spec fn view(&self) -> AttributeNotFoundView {
        AttributeNotFoundView { attribute: self.attribute@, node_name: self.node_name@ }
    }
}

/// Why the shapes of a graph could not be inferred.
#[derive(Debug, PartialEq, Eq)]
pub enum ShapeInferenceError {
    /// An input has no shape.
    MissingInputShape(String),
    /// An input has no complete shape.
    IncompleteInputShape(String),
    /// What the graph asks for is not supported.
    Unsupported(String),
    /// The node with the given name is not valid, for the given reason.
    InvalidNode(String, String),
    /// A node lacks an attribute.
    MissingAttribute(AttributeNotFoundError),
    /// A tensor has an element type that is not supported.
    UnsupportedDataType(DataTypeError),
}

/// The view of a [`ShapeInferenceError`].
#[verifier::ext_equal]
pub enum ErrorView {
    MissingInputShape(Seq<char>),
    IncompleteInputShape(Seq<char>),
    Unsupported(Seq<char>),
    InvalidNode(Seq<char>, Seq<char>),
    MissingAttribute(AttributeNotFoundView),
    UnsupportedDataType(DataTypeError),
}

impl View for ShapeInferenceError {
    type V = ErrorView;

    open spec fn view(&self) -> ErrorView {
        match self {
            ShapeInferenceError::MissingInputShape(input) => ErrorView::MissingInputShape(input@),
            ShapeInferenceError::IncompleteInputShape(input) => ErrorView::IncompleteInputShape(
                input@,
            ),
            ShapeInferenceError::Unsupported(what) => ErrorView::Unsupported(what@),
            ShapeInferenceError::InvalidNode(node, why) => ErrorView::InvalidNode(node@, why@),
            ShapeInferenceError::MissingAttribute(missing) => ErrorView::MissingAttribute(missing@),
            ShapeInferenceError::UnsupportedDataType(error) => ErrorView::UnsupportedDataType(
                *error,
            ),
        }
    }
}

impl AttributeNotFoundView {
    /// The attribute and its node, in words.
    pub open spec fn text(self) -> Seq<char> {
        self.attribute + " of node "@ + self.node_name
    }
}

impl AttributeNotFoundError {
    /// The attribute and its node, in words.
    pub fn text(&self) -> (text: String)
        ensures
            text@ == self@.text(),
    {
        self.attribute.clone().concat(" of node ").concat(self.node_name.as_str())
    }
}

impl DataTypeError {
    /// The code and what is wrong with it, in words.
    pub open spec fn words(self) -> Seq<char> {
        match self {
            DataTypeError::NotSupported(code) => "data type "@ + decimal(code as int)
                + " is not supported"@,
            DataTypeError::NotRecognized(code) => "data type "@ + decimal(code as int)
                + " is not recognized"@,
        }
    }

    /// The code and what is wrong with it, in words.
    pub fn text(&self) -> (text: String)
        ensures
            text@ == self.words(),
    {
        match self {
            DataTypeError::NotSupported(code) => String::from_str("data type ").concat(
                signed_text(*code as i64).as_str(),
            ).concat(" is not supported"),
            DataTypeError::NotRecognized(code) => String::from_str("data type ").concat(
                signed_text(*code as i64).as_str(),
            ).concat(" is not recognized"),
        }
    }
}

impl ErrorView {
    /// The message of the error.
    pub open spec fn text(self) -> Seq<char> {
        match self {
            ErrorView::MissingInputShape(input) => "missing shape for input "@ + input,
            ErrorView::IncompleteInputShape(input) => "incomplete or missing shape for input "@
                + input + " - be sure to specify all dynamic dimension parameters"@,
            ErrorView::Unsupported(what) => "unsupported: "@ + what,
            ErrorView::InvalidNode(node, why) => "node "@ + node + " is invalid: "@ + why,
            ErrorView::MissingAttribute(missing) => "attribute "@ + missing.text()
                + " required for shape inference is missing"@,
            ErrorView::UnsupportedDataType(error) => "unsupported data type encountered: "@
                + error.words(),
        }
    }
}

impl ShapeInferenceError {
    /// The message of the error.
    pub fn text(&self) -> (text: String)
        ensures
            text@ == self@.text(),
    {
        match self {
            ShapeInferenceError::MissingInputShape(input) => String::from_str(
                "missing shape for input ",
            ).concat(input.as_str()),
            ShapeInferenceError::IncompleteInputShape(input) => String::from_str(
                "incomplete or missing shape for input ",
            ).concat(input.as_str()).concat(
                " - be sure to specify all dynamic dimension parameters",
            ),
            ShapeInferenceError::Unsupported(what) => String::from_str("unsupported: ").concat(
                what.as_str(),
            ),
            ShapeInferenceError::InvalidNode(node, why) => String::from_str("node ").concat(
                node.as_str(),
            ).concat(" is invalid: ").concat(why.as_str()),
            ShapeInferenceError::MissingAttribute(missing) => String::from_str("attribute ").concat(
                missing.text().as_str(),
            ).concat(" required for shape inference is missing"),
            ShapeInferenceError::UnsupportedDataType(error) => String::from_str(
                "unsupported data type encountered: ",
            ).concat(error.text().as_str()),
        }
    }
}

/// The view of an error shows its kind and everything that it holds.
pub proof fn law_error_view(error: ShapeInferenceError)
    ensures
        match error {
            ShapeInferenceError::MissingInputShape(input) => error@
                == ErrorView::MissingInputShape(input@),
            ShapeInferenceError::IncompleteInputShape(input) => error@
                == ErrorView::IncompleteInputShape(input@),
            ShapeInferenceError::Unsupported(what) => error@ == ErrorView::Unsupported(what@),
            ShapeInferenceError::InvalidNode(node, why) => error@ == ErrorView::InvalidNode(
                node@,
                why@,
            ),
            ShapeInferenceError::MissingAttribute(missing) => error@ matches
                ErrorView::MissingAttribute(view) && view.attribute == missing.attribute@
                && view.node_name == missing.node_name@,
            ShapeInferenceError::UnsupportedDataType(given) => error@
                == ErrorView::UnsupportedDataType(given),
        },
{
}

/// Each message names what it is about: the input, the node and the reason, the attribute and its
/// node, or the code of the element type.
pub proof fn law_messages(first: Seq<char>, second: Seq<char>, code: i32)
    ensures
        ErrorView::MissingInputShape(first).text() == "missing shape for input "@ + first,
        ErrorView::IncompleteInputShape(first).text() == "incomplete or missing shape for input "@
            + first + " - be sure to specify all dynamic dimension parameters"@,
        ErrorView::Unsupported(first).text() == "unsupported: "@ + first,
        ErrorView::InvalidNode(first, second).text() == "node "@ + first + " is invalid: "@
            + second,
        ErrorView::MissingAttribute(
            AttributeNotFoundView { attribute: first, node_name: second },
        ).text() == "attribute "@ + (first + " of node "@ + second)
            + " required for shape inference is missing"@,
        ErrorView::UnsupportedDataType(DataTypeError::NotSupported(code)).text()
            == "unsupported data type encountered: "@ + ("data type "@ + decimal(code as int)
            + " is not supported"@),
        ErrorView::UnsupportedDataType(DataTypeError::NotRecognized(code)).text()
            == "unsupported data type encountered: "@ + ("data type "@ + decimal(code as int)
            + " is not recognized"@),
{
}

} // verus!
