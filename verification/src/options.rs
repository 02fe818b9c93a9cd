//! Configuration for the formatter.

use vstd::prelude::*;

verus! {

/// Options steering how a document is rendered.
///
/// * `tab` is the indentation token written before each element of a
///   multi-line array.
/// * `skip_empty_string` drops entries and array elements whose value is the
///   empty string.
/// * `skip_empty_object` drops nested objects that are empty; when it is
///   `false` such an object is kept and rendered as `key = {}`.
/// * `inline_array` forces every array onto a single line.
/// * `max_inline_array_length` is the character budget under which an array
///   is rendered on a single line even without `inline_array`.
#[derive(Clone, Copy)]
pub struct Options<'a> {
    pub tab: &'a str,
    pub skip_empty_string: bool,
    pub skip_empty_object: bool,
    pub inline_array: bool,
    pub max_inline_array_length: usize,
}

/// The model of a configuration: what the rendering contracts speak about.
pub struct Cfg {
    pub tab: Seq<char>,
    pub skip_empty_string: bool,
    pub skip_empty_object: bool,
    pub inline_array: bool,
    pub max_inline_array_length: nat,
}

impl<'a> View for Options<'a> {
    type V = Cfg;

    open spec fn view(&self) -> Cfg {
        Cfg {
            tab: self.tab@,
            skip_empty_string: self.skip_empty_string,
            skip_empty_object: self.skip_empty_object,
            inline_array: self.inline_array,
            max_inline_array_length: self.max_inline_array_length as nat,
        }
    }
}

/// The same configuration with inline arrays forced on: how an object inside
/// an array renders its own entries.
pub open spec fn inline_cfg(c: Cfg) -> Cfg {
    Cfg { inline_array: true, ..c }
}

impl<'a> Default for Options<'a> {
    /// The default configuration: a tab character for indentation, nothing
    /// skipped, arrays inlined only up to a 50-character budget.
    fn default() -> (r: Self)
        ensures
            r.tab@ == "\t"@,
            !r.skip_empty_string,
            !r.skip_empty_object,
            !r.inline_array,
            r.max_inline_array_length == 50,
    {
        Options {
            tab: "\t",
            skip_empty_string: false,
            skip_empty_object: false,
            inline_array: false,
            max_inline_array_length: 50,
        }
    }
}

impl<'a> Options<'a> {
    /// Specify the symbol to use for tab. Default is '\t'
    pub fn tab(self, tab: &'a str) -> (r: Self)
        ensures
            r == (Options { tab: tab, ..self }),
    {
        Options { tab: tab, ..self }
    }

    /// Specify whether to skip serializing string fields containing empty strings
    pub fn skip_empty_string(self, skip_empty_string: bool) -> (r: Self)
        ensures
            r == (Options { skip_empty_string: skip_empty_string, ..self }),
    {
        Options { skip_empty_string: skip_empty_string, ..self }
    }

    /// Specify whether to skip serializing object fields containing empty objects
    pub fn skip_empty_object(self, skip_empty_object: bool) -> (r: Self)
        ensures
            r == (Options { skip_empty_object: skip_empty_object, ..self }),
    {
        Options { skip_empty_object: skip_empty_object, ..self }
    }

    /// Specify whether to serialize arrays inline, rather than on multiple lines.
    pub fn inline_array(self, inline_array: bool) -> (r: Self)
        ensures
            r == (Options { inline_array: inline_array, ..self }),
    {
        Options { inline_array: inline_array, ..self }
    }

    /// Specify the character budget under which an array is auto-inlined.
    pub fn max_inline_array_length(self, max_inline_array_length: usize) -> (r: Self)
        ensures
            r == (Options { max_inline_array_length: max_inline_array_length, ..self }),
    {
        Options { max_inline_array_length: max_inline_array_length, ..self }
    }
}

} // verus!
