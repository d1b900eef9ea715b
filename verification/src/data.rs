//! The configuration and the output tree.
//!
//! [`Options`] is the immutable configuration a scan reads: which
//! characters divide fields, how records end, whether quoting is enabled
//! and with what escape character, and whether whitespace is preserved.
//! [`Entry`] and [`Value`] form the tree a scan returns: a list of
//! records, each record wrapping a list of fields, each field wrapping a
//! list of classified values.

use vstd::prelude::*;
use vstd::slice::slice_to_vec;
use vstd::string::StringExecFns;
use crate::model::{OptionsModel, QuoteModel, ValueModel};

verus! {

/// Quoting options: the optional escape character and the characters
/// that open and close quoted runs.
#[derive(Debug)]
pub struct QuoteOpt {
    pub escape_char: Option<char>,
    pub quote_chars: Vec<char>,
}

impl View for QuoteOpt {
    type V = QuoteModel;

    open spec fn view(&self) -> QuoteModel {
        QuoteModel { escape_char: self.escape_char, quote_chars: self.quote_chars@ }
    }
}

/// How records end: at every line terminator, or only at a blank line.
#[derive(Debug, PartialEq, Eq, Structural, Clone, Copy)]
pub enum Div {
    EndLine,
    BlankLine,
}

/// Record options: the record boundary mode and the field dividers.
#[derive(Debug)]
pub struct RecordOpt {
    pub record_div: Div,
    pub field_div: Vec<char>,
}

/// The immutable configuration of one scan.
#[derive(Debug)]
pub struct Options {
    pub strings: Option<QuoteOpt>,
    pub record: RecordOpt,
    pub preserve_spacing: bool,
    pub endline: char,
}

impl View for Options {
    type V = OptionsModel;

    open spec fn view(&self) -> OptionsModel {
        OptionsModel {
            strings: match self.strings {
                Some(q) => Some(q@),
                None => None,
            },
            record_div: self.record.record_div,
            field_div: self.record.field_div@,
            preserve_spacing: self.preserve_spacing,
            endline: self.endline,
        }
    }
}

/// The model of the default configuration: quoting with escape `\` and
/// quotes `'` and `"`, field divider `,`, one record per line, spacing
/// discarded, line terminator `\n`.
pub open spec fn default_options() -> OptionsModel {
    OptionsModel {
        strings: Some(QuoteModel { escape_char: Some('\\'), quote_chars: seq!['\'', '"'] }),
        record_div: Div::EndLine,
        field_div: seq![','],
        preserve_spacing: false,
        endline: '\n',
    }
}

impl Default for Options {
    /// The default configuration described by [`default_options`].
    fn default() -> (r: Self)
        ensures
            r@ == default_options(),
    {
        let mut quote_chars: Vec<char> = Vec::new();
        quote_chars.push('\'');
        quote_chars.push('"');
        let mut field_div: Vec<char> = Vec::new();
        field_div.push(',');
        let r = Options {
            strings: Some(QuoteOpt { escape_char: Some('\\'), quote_chars }),
            preserve_spacing: false,
            endline: '\n',
            record: RecordOpt { field_div, record_div: Div::EndLine },
        };
        proof {
            assert(r@.strings.unwrap().quote_chars =~= seq!['\'', '"']);
            assert(r@.field_div =~= seq![',']);
            assert(r@ == default_options());
        }
        r
    }
}

impl Options {
    /// Replace the line terminator character.
    pub fn endline(self, endline: char) -> (r: Self)
        ensures
            r@ == (OptionsModel { endline: endline, ..self@ }),
    {
        let mut s = self;
        s.endline = endline;
        s
    }

    /// Choose whether whitespace characters become explicit values.
    pub fn preserve_spacing(self, preserve: bool) -> (r: Self)
        ensures
            r@ == (OptionsModel { preserve_spacing: preserve, ..self@ }),
    {
        let mut s = self;
        s.preserve_spacing = preserve;
        s
    }

    /// Replace the set of field-divider characters.
    pub fn field_dividers(self, dividers: &[char]) -> (r: Self)
        ensures
            r@ == (OptionsModel { field_div: dividers@, ..self@ }),
    {
        let mut s = self;
        s.record.field_div = slice_to_vec(dividers);
        s
    }

    /// One line terminator closes every record.
    pub fn single_line_records(self) -> (r: Self)
        ensures
            r@ == (OptionsModel { record_div: Div::EndLine, ..self@ }),
    {
        let mut s = self;
        s.record.record_div = Div::EndLine;
        s
    }

    /// Only a blank line closes a record.
    pub fn multi_line_records(self) -> (r: Self)
        ensures
            r@ == (OptionsModel { record_div: Div::BlankLine, ..self@ }),
    {
        let mut s = self;
        s.record.record_div = Div::BlankLine;
        s
    }

    /// Enable quoting with the given quote characters and no escapes.
    pub fn allow_strings(self, quotes: &[char]) -> (r: Self)
        ensures
            r@ == (OptionsModel {
                strings: Some(QuoteModel { escape_char: None, quote_chars: quotes@ }),
                ..self@
            }),
    {
        let mut s = self;
        s.strings = Some(QuoteOpt { escape_char: None, quote_chars: slice_to_vec(quotes) });
        s
    }

    /// Enable quoting with the given quote characters and escape character.
    pub fn allow_strings_with_escape(self, quotes: &[char], escape_char: char) -> (r: Self)
        ensures
            r@ == (OptionsModel {
                strings: Some(
                    QuoteModel { escape_char: Some(escape_char), quote_chars: quotes@ },
                ),
                ..self@
            }),
    {
        let mut s = self;
        s.strings = Some(
            QuoteOpt { escape_char: Some(escape_char), quote_chars: slice_to_vec(quotes) },
        );
        s
    }

    /// Disable quoting entirely; quote-like characters fall through to
    /// the punctuation rule.
    pub fn disallow_strings(self) -> (r: Self)
        ensures
            r@ == (OptionsModel { strings: None, ..self@ }),
    {
        let mut s = self;
        s.strings = None;
        s
    }
}

/// One classified value: a quoted run's resolved text, a symbol run, a
/// digit run, a preserved whitespace character, or one punctuation
/// character.
#[derive(Debug, PartialEq, Clone)]
pub enum Value {
    String(String),
    Symbol(String),
    Number(String),
    Space(char),
    Punct(char),
}

impl View for Value {
    type V = ValueModel;

    open spec fn view(&self) -> ValueModel {
        match self {
            Value::String(s) => ValueModel::VString(s@),
            Value::Symbol(s) => ValueModel::VSymbol(s@),
            Value::Number(s) => ValueModel::VNumber(s@),
            Value::Space(c) => ValueModel::VSpace(*c),
            Value::Punct(c) => ValueModel::VPunct(*c),
        }
    }
}

/// One node of the output tree.  A scan returns a `List` of records;
/// each `Record` and `Field` wraps a single `List` of its children, and
/// each leaf is a `Value`.
#[derive(Debug, PartialEq)]
pub enum Entry {
    Record(Vec<Entry>),
    List(Vec<Entry>),
    Field(Vec<Entry>),
    Value(Value),
}

impl Entry {
    /// The name of this entry's kind, as used in mismatch errors.
    pub open spec fn kind_label(&self) -> Seq<char> {
        match *self {
            Entry::Record(_) => "Entry::Record"@,
            Entry::List(_) => "Entry::List"@,
            Entry::Field(_) => "Entry::Field"@,
            Entry::Value(_) => "Entry::Value"@,
        }
    }

    /// The name of this entry's kind.
    fn kind_name(&self) -> (r: &'static str)
        ensures
            r@ == self.kind_label(),
    {
        match self {
            Entry::Record(_) => "Entry::Record",
            Entry::List(_) => "Entry::List",
            Entry::Field(_) => "Entry::Field",
            Entry::Value(_) => "Entry::Value",
        }
    }

    /// The children of a `List` entry, or an error naming the actual
    /// kind of this entry.
    pub fn from_list<'a>(&'a self) -> (r: Result<&'a [Entry], String>)
        ensures
            *self matches Entry::List(xs) ==> (r matches Ok(s) && s@ == xs@),
            !(*self is List) ==> (r matches Err(m) && m@ == "Expected Entry::List but found: "@
                + self.kind_label()),
    {
        match self {
            Entry::List(xs) => Ok(xs.as_slice()),
            _ => Err(
                String::from_str("Expected Entry::List but found: ").concat(self.kind_name()),
            ),
        }
    }

    /// The children of a `Record` entry, or an error naming the actual
    /// kind of this entry.
    pub fn from_record<'a>(&'a self) -> (r: Result<&'a [Entry], String>)
        ensures
            *self matches Entry::Record(xs) ==> (r matches Ok(s) && s@ == xs@),
            !(*self is Record) ==> (r matches Err(m) && m@
                == "Expected Entry::Record but found: "@ + self.kind_label()),
    {
        match self {
            Entry::Record(xs) => Ok(xs.as_slice()),
            _ => Err(
                String::from_str("Expected Entry::Record but found: ").concat(self.kind_name()),
            ),
        }
    }

    /// The children of a `Field` entry, or an error naming the actual
    /// kind of this entry.
    pub fn from_field<'a>(&'a self) -> (r: Result<&'a [Entry], String>)
        ensures
            *self matches Entry::Field(xs) ==> (r matches Ok(s) && s@ == xs@),
            !(*self is Field) ==> (r matches Err(m) && m@ == "Expected Entry::Field but found: "@
                + self.kind_label()),
    {
        match self {
            Entry::Field(xs) => Ok(xs.as_slice()),
            _ => Err(
                String::from_str("Expected Entry::Field but found: ").concat(self.kind_name()),
            ),
        }
    }

    /// The payload of a `Value` entry, or an error naming the actual
    /// kind of this entry.
    pub fn from_value<'a>(&'a self) -> (r: Result<&'a Value, String>)
        ensures
            *self matches Entry::Value(v) ==> (r matches Ok(x) && *x == v),
            !(*self is Value) ==> (r matches Err(m) && m@ == "Expected Entry::Value but found: "@
                + self.kind_label()),
    {
        match self {
            Entry::Value(x) => Ok(x),
            _ => Err(
                String::from_str("Expected Entry::Value but found: ").concat(self.kind_name()),
            ),
        }
    }
}

} // verus!
