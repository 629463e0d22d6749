use vstd::prelude::*;

verus! {

/// Configuration options for the formatter
#[derive(Debug, Clone)]
pub struct FormatOptions {
    /// Maximum line width before wrapping
    pub max_width: usize,
    /// Number of spaces per indentation level
    pub indent_width: usize,
    /// Use spaces for indentation (vs tabs)
    pub use_spaces: bool,
    /// Add trailing commas in multi-line lists/maps
    pub trailing_comma: bool,
}

/// `n` spaces.
pub open spec fn spaces(n: nat) -> Seq<char> {
    Seq::new(n, |i: int| ' ')
}

impl FormatOptions {
    /// The options a formatter starts from: width 80, two spaces of
    /// indentation, trailing commas.
    pub open spec fn is_default(&self) -> bool {
        &&& self.max_width == 80
        &&& self.indent_width == 2
        &&& self.use_spaces
        &&& self.trailing_comma
    }

    /// The text of one level of indentation.
    pub open spec fn indent_text(&self) -> Seq<char> {
        if self.use_spaces {
            spaces(self.indent_width as nat)
        } else {
            seq!['\t']
        }
    }

    pub fn new() -> (r: Self)
        ensures
            r.is_default(),
    {
        FormatOptions { max_width: 80, indent_width: 2, use_spaces: true, trailing_comma: true }
    }

    pub fn with_max_width(self, width: usize) -> (r: Self)
        ensures
            r == (FormatOptions { max_width: width, ..self }),
    {
        let mut o = self;
        o.max_width = width;
        o
    }

    pub fn with_indent_width(self, width: usize) -> (r: Self)
        ensures
            r == (FormatOptions { indent_width: width, ..self }),
    {
        let mut o = self;
        o.indent_width = width;
        o
    }

    pub fn with_tabs(self) -> (r: Self)
        ensures
            r == (FormatOptions { use_spaces: false, ..self }),
    {
        let mut o = self;
        o.use_spaces = false;
        o
    }

    pub fn with_trailing_comma(self, enabled: bool) -> (r: Self)
        ensures
            r == (FormatOptions { trailing_comma: enabled, ..self }),
    {
        let mut o = self;
        o.trailing_comma = enabled;
        o
    }

    /// The text of one level of indentation: `indent_width` spaces, or a tab.
    pub fn indent_unit(&self) -> (r: String)
        ensures
            r@ == self.indent_text(),
    {
        let mut r = String::new();
        if self.use_spaces {
            let mut i: usize = 0;
            while i < self.indent_width
                invariant
                    i <= self.indent_width,
                    self.use_spaces,
                    r@ == spaces(i as nat),
                decreases self.indent_width - i,
            {
                proof {
                    reveal_strlit(" ");
                }
                r.append(" ");
                assert(r@ =~= spaces((i + 1) as nat));
                i = i + 1;
            }
        } else {
            proof {
                reveal_strlit("\t");
            }
            r.append("\t");
        }
        r
    }
}

impl Default for FormatOptions {
    fn default() -> (r: Self)
        ensures
            r.is_default(),
    {
        FormatOptions::new()
    }
}

} // verus!
