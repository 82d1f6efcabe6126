//! Locations: their slugs, their upstream pages, and the location listing.

use vstd::prelude::*;

use heck::ToKebabCase;

use crate::document::{DomNodeView, first_text, href_of, select_all, select_in, Document, Selector, SelectorView, indices_view, option_view};
use crate::error::{all_ok, lemma_all_ok_prefix_error, lemma_all_ok_step, Error, ErrorView, Part};
use crate::text::{chars_of, is_space, split_on, split_text, split_words, trim, trimmed, views_of, words, words_scan};

verus! {

/// The origin of the upstream site; links in its pages are relative to it.
pub const SITE_ORIGIN: &'static str = "https://maceats.mcmaster.ca";

/// The upstream page listing every location.
pub const LOCATIONS_URL: &'static str = "https://maceats.mcmaster.ca/locations";

/// The directory under which each location has its page, named by its slug.
pub const LOCATIONS_BASE: &'static str = "https://maceats.mcmaster.ca/locations/";

/// The kebab-case form heck gives `s`.
pub uninterp spec fn kebab_case_of(s: Seq<char>) -> Seq<char>;

/// Relies on `heck::ToKebabCase::to_kebab_case`: the result depends on the
/// text alone, and empty text stays empty.
#[verifier::external_body]
fn to_kebab_case(s: &str) -> (r: String)
    ensures
        r@ == kebab_case_of(s@),
        s@.len() == 0 ==> r@.len() == 0,
{
    s.to_kebab_case()
}

/// The serialization and the path of the URL that `reference` names
/// relative to `base`, if both parse.
pub uninterp spec fn url_join_of(base: Seq<char>, reference: Seq<char>) -> Option<(Seq<char>, Seq<char>)>;

#[verifier::external_type_specification]
#[verifier::external_body]
pub struct ExUrlParseError(url::ParseError);

/// Relies on `url::Url::parse` of the base and `url::Url::join`: the joined
/// URL depends on the two texts alone.
#[verifier::external_body]
fn join_url(base: &str, reference: &str) -> (r: Result<(String, String), url::ParseError>)
    ensures
        r is Ok <==> url_join_of(base@, reference@) is Some,
        r matches Ok(p) ==> url_join_of(base@, reference@) == Some((p.0@, p.1@)),
{
    let joined = url::Url::parse(base)?.join(reference)?;
    Ok((joined.to_string(), joined.path().to_string()))
}

/// A place on campus where restaurants are located. Its identity is its slug.
#[derive(Clone, Debug, PartialEq, Eq, Hash, PartialOrd, Ord)]
pub struct Location {
    /// The display name.
    pub name: String,
    /// The path segment that names the location's page upstream.
    pub slug: String,
}

/// The mathematical content of a [`Location`].
pub struct LocationView {
    pub name: Seq<char>,
    pub slug: Seq<char>,
}

impl View for Location {
    type V = LocationView;

    open spec fn view(&self) -> LocationView {
        LocationView { name: self.name@, slug: self.slug@ }
    }
}

/// `c` is the lower-case ASCII letter `l` or its upper-case form.
pub open spec fn char_caseless_eq(c: char, l: char) -> bool {
    c == l || ('A' <= c && c <= 'Z' && (c as u32) + 32 == l as u32)
}

/// `w` equals the lower-case word `stop` when ASCII case is ignored.
pub open spec fn ascii_caseless_eq(w: Seq<char>, stop: Seq<char>) -> bool {
    w.len() == stop.len() && forall|k: int| 0 <= k < w.len() ==> char_caseless_eq(#[trigger] w[k], stop[k])
}

/// The words that slugs leave out: "for" and "off", in any ASCII case.
pub open spec fn is_stopword(w: Seq<char>) -> bool {
    ascii_caseless_eq(w, "for"@) || ascii_caseless_eq(w, "off"@)
}

pub open spec fn kept_word() -> spec_fn(Seq<char>) -> bool {
    |w: Seq<char>| !is_stopword(w)
}

/// The words joined with one space between neighbours.
pub open spec fn join_spaced(ws: Seq<Seq<char>>) -> Seq<char>
    decreases ws.len(),
{
    if ws.len() == 0 {
        Seq::empty()
    } else if ws.len() == 1 {
        ws[0]
    } else {
        join_spaced(ws.drop_last()) + " "@ + ws.last()
    }
}

/// The text a slug is made from: the words of the name without stop words,
/// joined by single spaces.
pub open spec fn slug_source(name: Seq<char>) -> Seq<char> {
    join_spaced(words(name).filter(kept_word()))
}

/// The slug of a location with display name `name`.
pub open spec fn location_slug(name: Seq<char>) -> Seq<char> {
    kebab_case_of(slug_source(name))
}

/// The last non-empty piece of a list, if there is one.
pub open spec fn last_nonempty(ps: Seq<Seq<char>>) -> Option<Seq<char>>
    decreases ps.len(),
{
    if ps.len() == 0 {
        None
    } else if ps.last().len() > 0 {
        Some(ps.last())
    } else {
        last_nonempty(ps.drop_last())
    }
}

fn chars_caseless_eq(c: char, l: char) -> (r: bool)
    ensures
        r == char_caseless_eq(c, l),
{
    c == l || ('A' <= c && c <= 'Z' && (c as u32) + 32 == l as u32)
}

fn caseless_eq(w: &str, stop: &str) -> (r: bool)
    ensures
        r == ascii_caseless_eq(w@, stop@),
{
    let a = chars_of(w);
    let b = chars_of(stop);
    if a.len() != b.len() {
        return false;
    }
    let mut k: usize = 0;
    while k < a.len()
        invariant
            a@ == w@,
            b@ == stop@,
            a.len() == b.len(),
            k <= a.len(),
            forall|q: int| 0 <= q < k ==> char_caseless_eq(#[trigger] w@[q], stop@[q]),
        decreases a.len() - k,
    {
        if !chars_caseless_eq(a[k], b[k]) {
            return false;
        }
        k += 1;
    }
    true
}

fn stopword(w: &str) -> (r: bool)
    ensures
        r == is_stopword(w@),
{
    caseless_eq(w, "for") || caseless_eq(w, "off")
}

/// The words of `name` without stop words, joined by single spaces.
pub fn slug_source_text(name: &str) -> (r: String)
    ensures
        r@ == slug_source(name@),
{
    let ws = split_words(name);
    let ghost all = views_of(ws@);
    let mut out = String::new();
    let mut first = true;
    let mut k: usize = 0;
    proof {
        assert(all.subrange(0, 0) =~= Seq::<Seq<char>>::empty());
        reveal(Seq::filter);
    }
    while k < ws.len()
        invariant
            all == views_of(ws@),
            all == words(name@),
            k <= ws.len(),
            out@ == join_spaced(all.subrange(0, k as int).filter(kept_word())),
            first <==> all.subrange(0, k as int).filter(kept_word()).len() == 0,
        decreases ws.len() - k,
    {
        let ghost prefix = all.subrange(0, k as int);
        proof {
            assert(all.subrange(0, k + 1) =~= prefix.push(all[k as int]));
            prefix.lemma_filter_push(all[k as int], kept_word());
        }
        let w = ws[k].as_str();
        assert(w@ == all[k as int]);
        if !stopword(w) {
            let ghost f = prefix.filter(kept_word());
            if first {
                out.append(w);
                assert(f.push(w@).drop_last() =~= f);
                assert(out@ =~= w@);
            } else {
                out.append(" ");
                out.append(w);
                assert(f.push(w@).drop_last() =~= f);
            }
            first = false;
        }
        k += 1;
    }
    assert(all.subrange(0, k as int) =~= all);
    out
}

/// The location that a link container of the location listing describes.
pub open spec fn location_of(d: Seq<DomNodeView>, i: int) -> Result<LocationView, ErrorView> {
    let links = select_in(d, i, link_selector());
    if links.len() == 0 {
        Err(ErrorView::ElementNotFound(Part::Location))
    } else {
        let a = links[0];
        match first_text(d, a) {
            None => Err(ErrorView::TextNotFound(Part::Location)),
            Some(t) => match href_of(d, a) {
                None => Err(ErrorView::AttributeNotFound(Part::Location)),
                Some(h) => match url_join_of(SITE_ORIGIN@, h) {
                    None => Err(ErrorView::UrlParse),
                    Some(joined) => match last_nonempty(split_on(joined.1, "/"@)) {
                        None => Err(ErrorView::AttributeNotFound(Part::Location)),
                        Some(slug) => Ok(LocationView { name: trimmed(t), slug }),
                    },
                },
            },
        }
    }
}

pub open spec fn link_selector() -> SelectorView {
    SelectorView { tag: "a"@, classes: Seq::empty() }
}

pub open spec fn location_unit_selector() -> SelectorView {
    SelectorView { tag: "div"@, classes: seq!["unit"@, "unit-location"@] }
}


/// The locations that a location listing describes, or the first error.
pub open spec fn locations_of(d: Seq<DomNodeView>) -> Result<Seq<LocationView>, ErrorView> {
    all_ok(select_all(d, location_unit_selector()).map_values(|i: int| location_of(d, i)))
}

pub open spec fn locations_view(v: Seq<Location>) -> Seq<LocationView> {
    v.map_values(|l: Location| l@)
}

fn link() -> (r: Selector)
    ensures
        r@ == link_selector(),
{
    let r = Selector { tag: "a", classes: Vec::new() };
    assert(r@.classes =~= Seq::<Seq<char>>::empty());
    r
}

fn location_unit() -> (r: Selector)
    ensures
        r@ == location_unit_selector(),
{
    let r = Selector { tag: "div", classes: vec!["unit", "unit-location"] };
    assert(r@.classes =~= seq!["unit"@, "unit-location"@]);
    r
}

fn last_nonempty_text(ps: &Vec<String>) -> (r: Option<String>)
    ensures
        option_view(r) == last_nonempty(views_of(ps@)),
{
    let mut k: usize = ps.len();
    assert(views_of(ps@).subrange(0, k as int) =~= views_of(ps@));
    while k > 0
        invariant
            k <= ps.len(),
            last_nonempty(views_of(ps@)) == last_nonempty(views_of(ps@).subrange(0, k as int)),
        decreases k,
    {
        let ghost pre = views_of(ps@).subrange(0, k as int);
        assert(pre.last() == ps@[k - 1]@);
        if ps[k - 1].unicode_len() > 0 {
            return Some(ps[k - 1].clone());
        }
        assert(pre.drop_last() =~= views_of(ps@).subrange(0, k - 1));
        k -= 1;
    }
    None
}

impl Location {
    /// A location with display name `name`; its slug is derived from the name.
    pub fn new(name: &str) -> (r: Location)
        ensures
            r@ == (LocationView { name: name@, slug: location_slug(name@) }),
    {
        let source = slug_source_text(name);
        Location { name: name.to_owned(), slug: to_kebab_case(source.as_str()) }
    }

    /// The upstream page of this location: its slug under the locations
    /// directory.
    pub fn url(&self) -> (r: Result<String, Error>)
        ensures
            match url_join_of(LOCATIONS_BASE@, self.slug@) {
                Some(j) => r matches Ok(u) && u@ == j.0,
                None => r matches Err(e) && e@ == ErrorView::UrlParse,
            },
    {
        match join_url(LOCATIONS_BASE, self.slug.as_str()) {
            Ok(j) => Ok(j.0),
            Err(_) => Err(Error::UrlParse),
        }
    }

    /// Reads the location that container `i` of a location listing describes.
    pub fn from_container(doc: &Document, i: usize) -> (r: Result<Location, Error>)
        requires
            i < doc@.len(),
        ensures
            match r {
                Ok(l) => location_of(doc@, i as int) == Ok::<LocationView, ErrorView>(l@),
                Err(e) => location_of(doc@, i as int) == Err::<LocationView, ErrorView>(e@),
            },
    {
        let links = doc.select_in(i, &link());
        if links.len() == 0 {
            return Err(Error::ElementNotFound(Part::Location));
        }
        let a = links[0];
        assert(indices_view(links@)[0] == a as int);
        let text = match doc.first_text(a) {
            Some(t) => t,
            None => {
                return Err(Error::TextNotFound(Part::Location));
            },
        };
        let href = match doc.href(a) {
            Some(h) => h,
            None => {
                return Err(Error::AttributeNotFound(Part::Location));
            },
        };
        let joined = match join_url(SITE_ORIGIN, href.as_str()) {
            Ok(j) => j,
            Err(_) => {
                return Err(Error::UrlParse);
            },
        };
        proof {
            reveal_strlit("/");
        }
        let pieces = split_text(joined.1.as_str(), "/");
        match last_nonempty_text(&pieces) {
            Some(slug) => Ok(Location { name: trim(text.as_str()), slug }),
            None => Err(Error::AttributeNotFound(Part::Location)),
        }
    }

    /// Reads every location of a location listing; the first container that
    /// fails to parse fails the whole listing.
    pub fn from_location_list_html(doc: &Document) -> (r: Result<Vec<Location>, Error>)
        ensures
            match r {
                Ok(v) => locations_of(doc@) == Ok::<Seq<LocationView>, ErrorView>(locations_view(v@)),
                Err(e) => locations_of(doc@) == Err::<Seq<LocationView>, ErrorView>(e@),
            },
    {
        let units = doc.select_all(&location_unit());
        let ghost d = doc@;
        let ghost rs = select_all(d, location_unit_selector()).map_values(|i: int| location_of(d, i));
        let mut out: Vec<Location> = Vec::new();
        let mut k: usize = 0;
        assert(rs.subrange(0, 0) =~= Seq::<Result<LocationView, ErrorView>>::empty());
        assert(locations_view(out@) =~= Seq::<LocationView>::empty());
        while k < units.len()
            invariant
                d == doc@,
                rs == select_all(d, location_unit_selector()).map_values(|i: int| location_of(d, i)),
                indices_view(units@) == select_all(d, location_unit_selector()),
                forall|q: int| 0 <= q < units@.len() ==> units@[q] < d.len(),
                k <= units.len(),
                all_ok(rs.subrange(0, k as int)) == Ok::<Seq<LocationView>, ErrorView>(locations_view(out@)),
            decreases units.len() - k,
        {
            proof {
                lemma_all_ok_step(rs, k as int);
                assert(rs[k as int] == location_of(d, units@[k as int] as int));
            }
            match Location::from_container(doc, units[k]) {
                Ok(l) => {
                    let ghost before = out@;
                    out.push(l);
                    assert(locations_view(out@) =~= locations_view(before).push(l@));
                },
                Err(e) => {
                    proof {
                        lemma_all_ok_prefix_error(rs, k + 1);
                    }
                    return Err(e);
                },
            }
            k += 1;
        }
        assert(rs.subrange(0, k as int) =~= rs);
        Ok(out)
    }
}


/// A word in the sense of `words`: non-empty, without white space.
pub open spec fn is_word(w: Seq<char>) -> bool {
    w.len() > 0 && forall|i: int| 0 <= i < w.len() ==> !is_space(#[trigger] w[i])
}

proof fn lemma_scan_append_word(s: Seq<char>, w: Seq<char>)
    requires
        forall|i: int| 0 <= i < w.len() ==> !is_space(#[trigger] w[i]),
    ensures
        words_scan(s + w) == (words_scan(s).0, words_scan(s).1 + w),
    decreases w.len(),
{
    if w.len() == 0 {
        assert(s + w =~= s);
        assert(words_scan(s).1 + w =~= words_scan(s).1);
    } else {
        let w1 = w.drop_last();
        lemma_scan_append_word(s, w1);
        assert((s + w).drop_last() =~= s + w1);
        assert((s + w).last() == w.last());
        assert(words_scan(s).1 + w1 + seq![w.last()] =~= words_scan(s).1 + w);
        assert((words_scan(s).1 + w1).push(w.last()) =~= words_scan(s).1 + w);
    }
}

proof fn lemma_scan_space(s: Seq<char>)
    ensures
        words_scan(s.push(' ')) == (words(s), Seq::<char>::empty()),
{
    assert(s.push(' ').drop_last() =~= s);
    assert(is_space(' '));
    let (done, cur) = words_scan(s);
    if cur.len() == 0 {
        assert(cur =~= Seq::<char>::empty());
    }
}

proof fn lemma_words_of_join(ws: Seq<Seq<char>>)
    requires
        forall|i: int| 0 <= i < ws.len() ==> is_word(#[trigger] ws[i]),
    ensures
        words(join_spaced(ws)) == ws,
    decreases ws.len(),
{
    if ws.len() == 0 {
        assert(words(join_spaced(ws)) =~= ws);
    } else if ws.len() == 1 {
        let w = ws[0];
        assert(is_word(w));
        lemma_scan_append_word(Seq::empty(), w);
        assert(Seq::<char>::empty() + w =~= w);
        assert(words(w) =~= seq![w]);
        assert(ws =~= seq![w]);
    } else {
        let rest = ws.drop_last();
        let w = ws.last();
        assert(is_word(w));
        assert forall|i: int| 0 <= i < rest.len() implies is_word(#[trigger] rest[i]) by {
            assert(rest[i] == ws[i]);
        }
        lemma_words_of_join(rest);
        let j = join_spaced(rest);
        reveal_strlit(" ");
        assert(j + " "@ =~= j.push(' '));
        lemma_scan_space(j);
        lemma_scan_append_word(j.push(' '), w);
        assert(Seq::<char>::empty() + w =~= w);
        assert(join_spaced(ws) == j + " "@ + w);
        assert(words(join_spaced(ws)) =~= rest.push(w));
        assert(ws =~= rest.push(w));
    }
}

proof fn lemma_words_are_words(s: Seq<char>)
    ensures
        forall|i: int| 0 <= i < words(s).len() ==> is_word(#[trigger] words(s)[i]),
        forall|i: int| 0 <= i < words_scan(s).0.len() ==> is_word(#[trigger] words_scan(s).0[i]),
        forall|i: int| 0 <= i < words_scan(s).1.len() ==> !is_space(#[trigger] words_scan(s).1[i]),
    decreases s.len(),
{
    if s.len() > 0 {
        lemma_words_are_words(s.drop_last());
        let (done, cur) = words_scan(s.drop_last());
        if !is_space(s.last()) {
            assert forall|i: int| 0 <= i < cur.push(s.last()).len() implies !is_space(#[trigger] cur.push(s.last())[i]) by {
                if i < cur.len() {
                    assert(cur.push(s.last())[i] == cur[i]);
                }
            }
        }
    }
    let (done, cur) = words_scan(s);
    if cur.len() > 0 {
        assert forall|i: int| 0 <= i < done.push(cur).len() implies is_word(#[trigger] done.push(cur)[i]) by {
            if i < done.len() {
                assert(done.push(cur)[i] == done[i]);
            }
        }
    }
}

proof fn lemma_filter_all_kept(ws: Seq<Seq<char>>)
    requires
        forall|i: int| 0 <= i < ws.len() ==> (kept_word())(#[trigger] ws[i]),
    ensures
        ws.filter(kept_word()) == ws,
    decreases ws.len(),
{
    reveal(Seq::filter);
    if ws.len() > 0 {
        let rest = ws.drop_last();
        assert forall|i: int| 0 <= i < rest.len() implies (kept_word())(#[trigger] rest[i]) by {
            assert(rest[i] == ws[i]);
        }
        lemma_filter_all_kept(rest);
        assert(ws =~= rest.push(ws.last()));
    }
}

/// Stop-word removal is applied once: the slug source of a slug source is
/// itself, so deriving a slug from it gives the same slug.
pub proof fn lemma_slug_source_idempotent(name: Seq<char>)
    ensures
        slug_source(slug_source(name)) == slug_source(name),
        location_slug(slug_source(name)) == location_slug(name),
{
    let ws = words(name);
    let kept = ws.filter(kept_word());
    lemma_words_are_words(name);
    assert forall|i: int| 0 <= i < kept.len() implies (kept_word())(#[trigger] kept[i]) by {
        ws.lemma_filter_pred(kept_word(), i);
    }
    assert forall|i: int| 0 <= i < kept.len() implies is_word(#[trigger] kept[i]) by {
        assert(kept.contains(kept[i]));
        ws.lemma_filter_contains_rev(kept_word(), kept[i]);
        assert(ws.contains(kept[i]));
        let k = choose|k: int| 0 <= k < ws.len() && ws[k] == kept[i];
        assert(is_word(ws[k]));
    }
    lemma_words_of_join(kept);
    lemma_filter_all_kept(kept);
}


impl std::str::FromStr for Location {
    type Err = Error;

    /// The location with display name `s`, as [`Location::new`]; never fails.
    fn from_str(s: &str) -> (r: Result<Location, Error>)
        ensures
            r matches Ok(l) && l@ == (LocationView { name: s@, slug: location_slug(s@) }),
    {
        Ok(Location::new(s))
    }
}

} // verus!
