use vstd::prelude::*;

verus! {

/// The four parameters of an audit.
pub struct Settings {
    /// Literals that break a line of text inside a page.
    pub linefeed_tag: Vec<String>,
    /// Literals that end a displayed page.
    pub page_break_tag: Vec<String>,
    /// Largest number of wrapped rows a statement may take.
    pub line_count: usize,
    /// Number of characters that fit on one row.
    pub max_row_length: usize,
}

/// The characters of each tag literal.
pub open spec fn tag_seqs(tags: Seq<String>) -> Seq<Seq<char>> {
    tags.map_values(|t: String| t@)
}

impl Settings {
    /// A row holds at least one character.
    pub open spec fn wf(&self) -> bool {
        self.max_row_length > 0
    }

    pub open spec fn linefeed_tags(&self) -> Seq<Seq<char>> {
        tag_seqs(self.linefeed_tag@)
    }

    pub open spec fn page_break_tags(&self) -> Seq<Seq<char>> {
        tag_seqs(self.page_break_tag@)
    }

    /// The settings used when none are configured: `[r]` breaks a line,
    /// `[p]` ends a page, two rows of thirty characters.
    pub fn default_settings() -> (r: Settings)
        ensures
            r.wf(),
            r.linefeed_tag@.len() == 1,
            r.linefeed_tag@[0]@ == "[r]"@,
            r.page_break_tag@.len() == 1,
            r.page_break_tag@[0]@ == "[p]"@,
            r.line_count == 2,
            r.max_row_length == 30,
    {
        Settings {
            linefeed_tag: vec![String::from_str("[r]")],
            page_break_tag: vec![String::from_str("[p]")],
            line_count: 2,
            max_row_length: 30,
        }
    }
}

} // verus!
