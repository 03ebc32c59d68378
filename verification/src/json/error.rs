//! Why reading a text failed.

use vstd::prelude::*;
use vstd::string::StringExecFns;
use crate::text::push_char;

verus! {

/// The two families of reading errors.
#[derive(Debug, Clone, Copy, PartialEq, Eq, Structural)]
pub enum ErrorKind {
    /// The text does not follow the grammar.
    Syntax,
    /// The text follows the grammar but a value has the wrong type for its place.
    Type,
}

/// The first fault met while reading a text.
#[derive(Debug, Clone, Copy, PartialEq, Eq, Structural)]
pub enum ParseError {
    /// The text ended where a value had to start.
    UnexpectedEnd,
    /// No value starts with this character.
    UnexpectedChar(char),
    /// The text ended inside a string.
    UnterminatedString,
    /// A backslash in a string was followed by this character, which names no escape.
    UnknownEscape(char),
    /// The characters of a number do not form a decimal literal.
    InvalidNumber,
    /// A key of an object is a value other than a string.
    KeyNotString,
    /// A key of an object is not followed by a colon.
    MissingColon,
    /// A member of an object is followed by neither `,` nor `}`.
    MissingBrace,
    /// An element of an array is followed by neither `,` nor `]`.
    MissingBracket,
    /// A word starting like `true` or `false` is neither.
    InvalidBoolean,
    /// A word starting like `null` is not `null`.
    InvalidNull,
    /// Something other than whitespace follows the value.
    TrailingData,
}

impl ParseError {
    /// The family an error belongs to.
    pub open spec fn spec_kind(self) -> ErrorKind {
        match self {
            ParseError::KeyNotString => ErrorKind::Type,
            _ => ErrorKind::Syntax,
        }
    }

    /// The message that describes an error.
    pub open spec fn spec_message(self) -> Seq<char> {
        match self {
            ParseError::UnexpectedEnd => "意外结束"@,
            ParseError::UnexpectedChar(c) => "意外字符："@.push(c),
            ParseError::UnterminatedString => "字符串未结束"@,
            ParseError::UnknownEscape(c) => "未知转义字符：\\"@.push(c),
            ParseError::InvalidNumber => "无效数字：invalid float literal"@,
            ParseError::KeyNotString => "对象的键必须是字符串"@,
            ParseError::MissingColon => "缺少冒号"@,
            ParseError::MissingBrace => "对象缺少 }"@,
            ParseError::MissingBracket => "数组缺少 ]"@,
            ParseError::InvalidBoolean => "无效布尔值"@,
            ParseError::InvalidNull => "无效 null"@,
            ParseError::TrailingData => "多余字符"@,
        }
    }

    #[verifier::when_used_as_spec(spec_kind)]
    pub fn kind(self) -> (kind: ErrorKind)
        ensures
            kind == self.spec_kind(),
    {
        match self {
            ParseError::KeyNotString => ErrorKind::Type,
            _ => ErrorKind::Syntax,
        }
    }

    pub fn message(self) -> (message: String)
        ensures
            message@ == self.spec_message(),
    {
        match self {
            ParseError::UnexpectedEnd => String::from_str("意外结束"),
            ParseError::UnexpectedChar(c) => {
                let mut text = String::from_str("意外字符：");
                push_char(&mut text, c);
                text
            },
            ParseError::UnterminatedString => String::from_str("字符串未结束"),
            ParseError::UnknownEscape(c) => {
                let mut text = String::from_str("未知转义字符：\\");
                push_char(&mut text, c);
                text
            },
            ParseError::InvalidNumber => String::from_str("无效数字：invalid float literal"),
            ParseError::KeyNotString => String::from_str("对象的键必须是字符串"),
            ParseError::MissingColon => String::from_str("缺少冒号"),
            ParseError::MissingBrace => String::from_str("对象缺少 }"),
            ParseError::MissingBracket => String::from_str("数组缺少 ]"),
            ParseError::InvalidBoolean => String::from_str("无效布尔值"),
            ParseError::InvalidNull => String::from_str("无效 null"),
            ParseError::TrailingData => String::from_str("多余字符"),
        }
    }
}

} // verus!
