//! The error taxonomy shared by every layer.

use vstd::prelude::*;

verus! {

/// The structural piece of a document that a parse was looking for.
#[derive(Clone, Copy, Debug, PartialEq, Eq, Structural, Hash)]
pub enum Part {
    /// A restaurant's name.
    Name,
    /// A location: a restaurant's location name, or a location link.
    Location,
    /// A restaurant's location details.
    LocationDetails,
    /// A restaurant's phone number.
    LocationPhone,
    /// A schedule cell.
    Time,
    /// A food type tag.
    FoodType,
}

/// Everything that can go wrong while fetching, parsing or caching.
#[derive(Clone, Debug, PartialEq, Eq)]
pub enum Error {
    /// The upstream request failed or answered with a non-success status.
    Transport(String),
    /// A link could not be resolved to a URL.
    UrlParse,
    /// A time cell did not follow the time-of-day grammar.
    TimeParse,
    /// A required element was missing.
    ElementNotFound(Part),
    /// An element that must carry text had none.
    TextNotFound(Part),
    /// A required attribute was missing or unusable.
    AttributeNotFound(Part),
    /// A string named no known food type or coffee brand.
    EnumParse(String),
    /// The cache could not find an entry it had just stored.
    CacheConsistency,
}

/// The mathematical content of an [`Error`].
pub enum ErrorView {
    Transport(Seq<char>),
    UrlParse,
    TimeParse,
    ElementNotFound(Part),
    TextNotFound(Part),
    AttributeNotFound(Part),
    EnumParse(Seq<char>),
    CacheConsistency,
}

impl View for Error {
    type V = ErrorView;

    open spec fn view(&self) -> ErrorView {
        match self {
            Error::Transport(s) => ErrorView::Transport(s@),
            Error::UrlParse => ErrorView::UrlParse,
            Error::TimeParse => ErrorView::TimeParse,
            Error::ElementNotFound(p) => ErrorView::ElementNotFound(*p),
            Error::TextNotFound(p) => ErrorView::TextNotFound(*p),
            Error::AttributeNotFound(p) => ErrorView::AttributeNotFound(*p),
            Error::EnumParse(s) => ErrorView::EnumParse(s@),
            Error::CacheConsistency => ErrorView::CacheConsistency,
        }
    }
}

/// The values of a list of results, in order, or the first error among them.
pub open spec fn all_ok<T>(rs: Seq<Result<T, ErrorView>>) -> Result<Seq<T>, ErrorView>
    decreases rs.len(),
{
    if rs.len() == 0 {
        Ok(Seq::empty())
    } else {
        match all_ok(rs.drop_last()) {
            Err(e) => Err(e),
            Ok(v) => match rs.last() {
                Ok(x) => Ok(v.push(x)),
                Err(e) => Err(e),
            },
        }
    }
}

/// Once a prefix of the list holds an error, the whole list fails with it.
pub proof fn lemma_all_ok_prefix_error<T>(rs: Seq<Result<T, ErrorView>>, k: int)
    requires
        0 <= k <= rs.len(),
        all_ok(rs.subrange(0, k)) is Err,
    ensures
        all_ok(rs) == all_ok(rs.subrange(0, k)),
    decreases rs.len() - k,
{
    if k == rs.len() {
        assert(rs.subrange(0, k) =~= rs);
    } else {
        assert(rs.subrange(0, k + 1).drop_last() =~= rs.subrange(0, k));
        lemma_all_ok_prefix_error(rs, k + 1);
    }
}

/// Extending an all-successful prefix by one result.
pub proof fn lemma_all_ok_step<T>(rs: Seq<Result<T, ErrorView>>, k: int)
    requires
        0 <= k < rs.len(),
    ensures
        all_ok(rs.subrange(0, k + 1)) == (match all_ok(rs.subrange(0, k)) {
            Err(e) => Err(e),
            Ok(v) => match rs[k] {
                Ok(x) => Ok(v.push(x)),
                Err(e) => Err(e),
            },
        }),
{
    assert(rs.subrange(0, k + 1).drop_last() =~= rs.subrange(0, k));
}


proof fn lemma_all_ok_prefix_success<T>(rs: Seq<Result<T, ErrorView>>, k: int)
    requires
        0 <= k <= rs.len(),
        forall|q: int| 0 <= q < k ==> (#[trigger] rs[q]) is Ok,
    ensures
        all_ok(rs.subrange(0, k)) is Ok,
    decreases k,
{
    if k > 0 {
        lemma_all_ok_prefix_success(rs, k - 1);
        lemma_all_ok_step(rs, k - 1);
    }
}

/// A list with an error in it fails; if every result before the first
/// error is a success, it fails with that error.
pub proof fn lemma_all_ok_error_at<T>(rs: Seq<Result<T, ErrorView>>, k: int)
    requires
        0 <= k < rs.len(),
        rs[k] is Err,
    ensures
        all_ok(rs) is Err,
        (forall|q: int| 0 <= q < k ==> (#[trigger] rs[q]) is Ok) ==> all_ok(rs) == Err::<Seq<T>, ErrorView>(rs[k]->Err_0),
{
    lemma_all_ok_step(rs, k);
    lemma_all_ok_prefix_error(rs, k + 1);
    if forall|q: int| 0 <= q < k ==> (#[trigger] rs[q]) is Ok {
        lemma_all_ok_prefix_success(rs, k);
    }
}

} // verus!
