//! The command line: where the HTML comes from, where the PDF goes, and the
//! font and page size to use.
use vstd::prelude::*;

use crate::text::chars_of;

verus! {

/// The command-line arguments.
#[derive(Debug, Clone)]
pub struct Args {
    /// An HTML file (a name ending in `.html`) or the HTML itself.
    pub from: String,
    /// The PDF file to write.
    pub create: String,
    /// The font family to set text in.
    pub font: String,
    /// The name of the page size.
    pub page: String,
}

impl Args {
    /// Whether `from` names a file to read (it ends in `.html`) rather than
    /// holding the HTML itself.
    pub fn source_is_file(&self) -> (r: bool)
        ensures
            r == (self.from@.len() >= 5 && self.from@.subrange(self.from@.len() - 5, self.from@.len() as int) == ".html"@),
    {
        let s = chars_of(self.from.as_str());
        let suffix = chars_of(".html");
        proof {
            reveal_strlit(".html");
        }
        if s.len() < 5 {
            return false;
        }
        let n = s.len();
        let mut i: usize = 0;
        while i < 5
            invariant
                i <= 5,
                n == s@.len(),
                n >= 5,
                suffix@ == ".html"@,
                suffix@.len() == 5,
                s@ == self.from@,
                forall|k: int| 0 <= k < i ==> s@[n - 5 + k] == suffix@[k],
            decreases 5 - i,
        {
            if s[n - 5 + i] != suffix[i] {
                assert(s@.subrange(n - 5, n as int)[i as int] != ".html"@[i as int]);
                return false;
            }
            i += 1;
        }
        assert(s@.subrange(n - 5, n as int) =~= ".html"@);
        true
    }
}

} // verus!
