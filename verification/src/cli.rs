//! The command-line help text.

use vstd::prelude::*;
use vstd::string::StringExecFns;

verus! {

/// The full help text for the given program name.
pub open spec fn usage_text(arg0: Seq<char>) -> Seq<char> {
    "Usage: "@ + arg0
        + " [OPTIONS] file.pdf [output_dir]\n\nExtracts pages of a PDF as SVG files, and generates a thumbnail for each.\n\nOptions:\n  --help        : Displays this message and exits\n  --pages PAGES : Only extract specific pages from the PDF document\n                  PAGES is a comma separated list of page numbers, where the\n                  number of the first page is 1."@
}

/// Builds the help text, with the program's own name at its head.
pub fn usage(arg0: &str) -> (r: String)
    ensures
        r@ == usage_text(arg0@),
{
    let mut s = String::from_str("Usage: ");
    s.append(arg0);
    s.append(
        " [OPTIONS] file.pdf [output_dir]\n\nExtracts pages of a PDF as SVG files, and generates a thumbnail for each.\n\nOptions:\n  --help        : Displays this message and exits\n  --pages PAGES : Only extract specific pages from the PDF document\n                  PAGES is a comma separated list of page numbers, where the\n                  number of the first page is 1.",
    );
    proof {
        assert(s@ =~= usage_text(arg0@));
    }
    s
}

} // verus!
