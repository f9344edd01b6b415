//! Page selection: parsing the comma-separated page list given on the
//! command line, and turning it into the list of page indexes to process.
//!
//! Page numbers are 1-based in the list; the selection is validated against
//! the document's page count before any page is processed, so an
//! out-of-range number means no output at all.

use vstd::prelude::*;
use vstd::slice::slice_subrange;

verus! {

/// The ASCII comma that separates page numbers in the list.
pub const LIST_SEPARATOR: u8 = 44;

/// An ASCII decimal digit.
pub open spec fn is_digit(b: u8) -> bool {
    48 <= b && b <= 57
}

/// The decimal value of a digit string (most significant digit first).
pub open spec fn digits_val(s: Seq<u8>) -> int
    decreases s.len(),
{
    if s.len() == 0 {
        0
    } else {
        digits_val(s.drop_last()) * 10 + s.last() - 48
    }
}

/// A parseable page number: non-empty, all digits, and within `u32`.
pub open spec fn valid_segment(s: Seq<u8>) -> bool {
    &&& s.len() > 0
    &&& forall|i: int| 0 <= i < s.len() ==> is_digit(#[trigger] s[i])
    &&& digits_val(s) <= u32::MAX
}

/// The position of the first separator, or the length if there is none.
pub open spec fn first_comma(s: Seq<u8>) -> nat
    decreases s.len(),
{
    if s.len() == 0 {
        0
    } else if s[0] == LIST_SEPARATOR {
        0
    } else {
        1 + first_comma(s.drop_first())
    }
}

/// A parseable page list: every comma-separated segment is a parseable page
/// number. The empty input has one empty segment, so it is not parseable.
pub open spec fn valid_pages_input(s: Seq<u8>) -> bool
    decreases s.len(),
{
    let c = first_comma(s) as int;
    if c < s.len() {
        valid_segment(s.take(c)) && valid_pages_input(s.skip(c + 1))
    } else {
        valid_segment(s)
    }
}

/// The page numbers of a parseable page list, in the order given.
pub open spec fn page_values(s: Seq<u8>) -> Seq<u32>
    decreases s.len(),
{
    let c = first_comma(s) as int;
    if c < s.len() {
        seq![digits_val(s.take(c)) as u32] + page_values(s.skip(c + 1))
    } else {
        seq![digits_val(s) as u32]
    }
}

/// The page list could not be parsed.
#[derive(Clone, Copy, Debug, PartialEq, Eq)]
pub struct PageListError;

/// A requested page number lies outside the document.
#[derive(Clone, Copy, Debug, PartialEq, Eq)]
pub struct InvalidPage {
    /// The offending 1-based page number, as requested.
    pub number: u32,
}

proof fn lemma_first_comma_at(s: Seq<u8>, i: int)
    requires
        0 <= i <= s.len(),
        forall|j: int| 0 <= j < i ==> s[j] != LIST_SEPARATOR,
        i == s.len() || s[i] == LIST_SEPARATOR,
    ensures
        first_comma(s) == i,
    decreases i,
{
    if s.len() == 0 {
    } else if s[0] == LIST_SEPARATOR {
        assert(i == 0);
    } else {
        let t = s.drop_first();
        assert forall|j: int| 0 <= j < i - 1 implies t[j] != LIST_SEPARATOR by {
            assert(t[j] == s[j + 1]);
        }
        lemma_first_comma_at(t, i - 1);
    }
}

proof fn lemma_digits_val_nonneg(s: Seq<u8>)
    requires
        forall|j: int| 0 <= j < s.len() ==> is_digit(#[trigger] s[j]),
    ensures
        digits_val(s) >= 0,
    decreases s.len(),
{
    if s.len() > 0 {
        lemma_digits_val_nonneg(s.drop_last());
    }
}

proof fn lemma_digits_val_prefix_le(s: Seq<u8>, k: int)
    requires
        0 <= k <= s.len(),
        forall|j: int| 0 <= j < s.len() ==> is_digit(#[trigger] s[j]),
    ensures
        digits_val(s.take(k)) <= digits_val(s),
    decreases s.len() - k,
{
    if k < s.len() {
        assert(s.take(k + 1).drop_last() =~= s.take(k));
        assert(s.take(k + 1).last() == s[k]);
        lemma_digits_val_nonneg(s.take(k));
        lemma_digits_val_prefix_le(s, k + 1);
    } else {
        assert(s.take(k) =~= s);
    }
}

/// Parses one page number: non-empty, decimal digits only, within `u32`.
fn parse_segment(s: &[u8]) -> (r: Option<u32>)
    ensures
        r is Some <==> valid_segment(s@),
        r is Some ==> r->0 == digits_val(s@),
{
    if s.len() == 0 {
        return None;
    }
    let n: usize = s.len();
    let mut acc: u64 = 0;
    let mut i: usize = 0;
    while i < n
        invariant
            n == s@.len(),
            0 <= i <= n,
            forall|j: int| 0 <= j < i ==> is_digit(#[trigger] s@[j]),
            acc == digits_val(s@.take(i as int)),
            acc <= u32::MAX,
        decreases n - i,
    {
        let b = s[i];
        if b < 48 || b > 57 {
            assert(!is_digit(s@[i as int]));
            return None;
        }
        let next: u64 = acc * 10 + ((b - 48) as u64);
        proof {
            assert(s@.take(i as int + 1).drop_last() =~= s@.take(i as int));
            assert(s@.take(i as int + 1).last() == s@[i as int]);
        }
        if next > u32::MAX as u64 {
            proof {
                if valid_segment(s@) {
                    lemma_digits_val_prefix_le(s@, i as int + 1);
                }
            }
            return None;
        }
        acc = next;
        i = i + 1;
    }
    proof {
        assert(s@.take(n as int) =~= s@);
    }
    Some(acc as u32)
}

/// Parses a comma-separated list of page numbers, as given to the
/// page-selection option. Succeeds exactly on parseable lists, and returns
/// the numbers in the order given.
pub fn parse_pages(s: &[u8]) -> (r: Result<Vec<u32>, PageListError>)
    ensures
        r is Ok <==> valid_pages_input(s@),
        r is Ok ==> r->Ok_0@ == page_values(s@),
    decreases s@.len(),
{
    let n: usize = s.len();
    let mut c: usize = 0;
    while c < n && s[c] != LIST_SEPARATOR
        invariant
            n == s@.len(),
            0 <= c <= n,
            forall|j: int| 0 <= j < c ==> s@[j] != LIST_SEPARATOR,
        decreases n - c,
    {
        c = c + 1;
    }
    proof {
        lemma_first_comma_at(s@, c as int);
    }
    let seg = slice_subrange(s, 0, c);
    let head = parse_segment(seg);
    proof {
        assert(seg@ =~= s@.take(c as int));
    }
    if c < n {
        let rest = slice_subrange(s, c + 1, n);
        let tail = parse_pages(rest);
        match (head, tail) {
            (Some(v), Ok(mut vs)) => {
                let mut out: Vec<u32> = Vec::new();
                out.push(v);
                out.append(&mut vs);
                proof {
                    assert(out@ =~= page_values(s@));
                }
                Ok(out)
            },
            _ => Err(PageListError),
        }
    } else {
        proof {
            assert(s@.take(n as int) =~= s@);
        }
        match head {
            Some(v) => {
                let mut out: Vec<u32> = Vec::new();
                out.push(v);
                proof {
                    assert(out@ =~= page_values(s@));
                }
                Ok(out)
            },
            None => Err(PageListError),
        }
    }
}

/// Turns the optional page selection into the list of 0-based page indexes
/// to process: without a selection, every page in order; with one, each
/// requested page, validated against the page count before any processing.
#[verifier::loop_isolation(false)]
pub fn select_pages(numbers: &Option<Vec<u32>>, page_count: u32) -> (r: Result<
    Vec<u32>,
    InvalidPage,
>)
    ensures
        numbers is None ==> {
            &&& r is Ok
            &&& r->Ok_0@.len() == page_count
            &&& forall|i: int| 0 <= i < page_count ==> r->Ok_0@[i] == i
        },
        numbers matches Some(ns) ==> {
            &&& (r is Ok <==> forall|i: int|
                0 <= i < ns@.len() ==> 1 <= #[trigger] ns@[i] <= page_count)
            &&& (r is Ok ==> r->Ok_0@.len() == ns@.len())
            &&& (r is Ok ==> forall|i: int|
                0 <= i < ns@.len() ==> r->Ok_0@[i] == #[trigger] ns@[i] - 1)
            &&& (r is Err ==> exists|i: int|
                {
                    &&& 0 <= i < ns@.len()
                    &&& !(1 <= #[trigger] ns@[i] <= page_count)
                    &&& r->Err_0.number == ns@[i]
                    &&& forall|j: int| 0 <= j < i ==> 1 <= #[trigger] ns@[j] <= page_count
                })
        },
{
    match numbers {
        None => {
            let mut out: Vec<u32> = Vec::new();
            let mut i: u32 = 0;
            while i < page_count
                invariant
                    0 <= i <= page_count,
                    out@.len() == i,
                    forall|j: int| 0 <= j < i ==> out@[j] == j,
                decreases page_count - i,
            {
                out.push(i);
                i = i + 1;
            }
            Ok(out)
        },
        Some(ns) => {
            let mut out: Vec<u32> = Vec::new();
            let mut i: usize = 0;
            let count: usize = ns.len();
            while i < count
                invariant
                    count == ns@.len(),
                    0 <= i <= count,
                    out@.len() == i,
                    forall|j: int| 0 <= j < i ==> 1 <= #[trigger] ns@[j] <= page_count,
                    forall|j: int| 0 <= j < i ==> out@[j] == #[trigger] ns@[j] - 1,
                decreases count - i,
            {
                let number = ns[i];
                if number < 1 || number > page_count {
                    proof {
                        let gi = i as int;
                        assert({
                            &&& 0 <= gi < ns@.len()
                            &&& !(1 <= ns@[gi] <= page_count)
                            &&& InvalidPage { number }.number == ns@[gi]
                            &&& forall|j: int| 0 <= j < gi ==> 1 <= #[trigger] ns@[j] <= page_count
                        });
                    }
                    return Err(InvalidPage { number });
                }
                out.push(number - 1);
                i = i + 1;
            }
            Ok(out)
        },
    }
}

} // verus!
