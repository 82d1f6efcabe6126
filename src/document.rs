//! A fetched HTML document as a flat list of nodes in document order, and
//! the structural queries the parser makes on it.

use vstd::prelude::*;

use crate::text::{same_text, split_words, views_of, words};

verus! {

/// What a node of a document is.
pub enum NodeKind {
    /// An element: its tag name, and its `class` and `href` attributes.
    Element { name: String, class: Option<String>, href: Option<String> },
    /// A run of character data.
    Text(String),
    /// The document itself, a comment, a doctype or another node without
    /// content of interest.
    Other,
}

/// One node, with its depth below the document node (which has depth 0).
pub struct DomNode {
    pub depth: usize,
    pub kind: NodeKind,
}

/// A document: every node, in document order (pre-order).
pub struct Document {
    pub nodes: Vec<DomNode>,
}

/// The mathematical content of a [`NodeKind`].
pub enum NodeKindView {
    Element { name: Seq<char>, class: Option<Seq<char>>, href: Option<Seq<char>> },
    Text(Seq<char>),
    Other,
}

/// The mathematical content of a [`DomNode`].
pub struct DomNodeView {
    pub depth: nat,
    pub kind: NodeKindView,
}

pub open spec fn option_view(o: Option<String>) -> Option<Seq<char>> {
    match o {
        Some(s) => Some(s@),
        None => None,
    }
}

impl View for DomNode {
    type V = DomNodeView;

    open spec fn view(&self) -> DomNodeView {
        DomNodeView {
            depth: self.depth as nat,
            kind: match self.kind {
                NodeKind::Element { name, class, href } => NodeKindView::Element {
                    name: name@,
                    class: option_view(class),
                    href: option_view(href),
                },
                NodeKind::Text(t) => NodeKindView::Text(t@),
                NodeKind::Other => NodeKindView::Other,
            },
        }
    }
}

impl View for Document {
    type V = Seq<DomNodeView>;

    open spec fn view(&self) -> Seq<DomNodeView> {
        self.nodes@.map_values(|n: DomNode| n@)
    }
}

/// The nodes that the HTML parser builds from `text`, in document order,
/// with the values of the attributes named `class_attr` and `link_attr`.
pub uninterp spec fn html_nodes_of(text: Seq<char>, class_attr: Seq<char>, link_attr: Seq<char>) -> Seq<DomNodeView>;

/// Relies on `scraper::Html::parse_document`, on walking its tree in
/// pre-order, and on `scraper::node::Element::attr`: the nodes depend on the
/// text and the two attribute names alone.
#[verifier::external_body]
fn parse_html(text: &str, class_attr: &str, link_attr: &str) -> (r: Document)
    ensures
        r@ == html_nodes_of(text@, class_attr@, link_attr@),
{
    let html = scraper::Html::parse_document(text);
    let nodes = html.tree.root().descendants().map(|n| DomNode {
        depth: n.ancestors().count(),
        kind: match n.value() {
            scraper::Node::Element(e) => NodeKind::Element {
                name: e.name().to_string(),
                class: e.attr(class_attr).map(String::from),
                href: e.attr(link_attr).map(String::from),
            },
            scraper::Node::Text(t) => NodeKind::Text(t.text.to_string()),
            _ => NodeKind::Other,
        },
    }).collect();
    Document { nodes }
}

/// A simple selector: a tag name and classes that must all be present.
pub struct Selector {
    pub tag: &'static str,
    pub classes: Vec<&'static str>,
}

/// The mathematical content of a [`Selector`].
pub struct SelectorView {
    pub tag: Seq<char>,
    pub classes: Seq<Seq<char>>,
}

impl View for Selector {
    type V = SelectorView;

    open spec fn view(&self) -> SelectorView {
        SelectorView { tag: self.tag@, classes: self.classes@.map_values(|c: &str| c@) }
    }
}

/// The class list an element's `class` attribute holds.
pub open spec fn class_list(class: Option<Seq<char>>) -> Seq<Seq<char>> {
    match class {
        Some(c) => words(c),
        None => Seq::empty(),
    }
}

/// Node `n` is an element that `sel` selects.
pub open spec fn selects(sel: SelectorView, n: DomNodeView) -> bool {
    match n.kind {
        NodeKindView::Element { name, class, .. } => name == sel.tag && forall|k: int|
            0 <= k < sel.classes.len() ==> class_list(class).contains(#[trigger] sel.classes[k]),
        _ => false,
    }
}

/// The index one past the last descendant of node `i`, scanning from `j`.
pub open spec fn subtree_end_from(d: Seq<DomNodeView>, i: int, j: int) -> int
    decreases d.len() - j,
{
    if 0 <= j < d.len() && d[j].depth > d[i].depth {
        subtree_end_from(d, i, j + 1)
    } else {
        j
    }
}

/// The index one past the last descendant of node `i`.
pub open spec fn subtree_end(d: Seq<DomNodeView>, i: int) -> int {
    subtree_end_from(d, i, i + 1)
}

/// The indices from `lo` (inclusive) to `hi` (exclusive).
pub open spec fn index_range(lo: int, hi: int) -> Seq<int> {
    Seq::new((if hi > lo { hi - lo } else { 0 }) as nat, |k: int| lo + k)
}

/// The indices of the nodes of `d` that `sel` selects.
pub open spec fn selected_by(d: Seq<DomNodeView>, sel: SelectorView) -> spec_fn(int) -> bool {
    |j: int| 0 <= j < d.len() && selects(sel, d[j])
}

/// The descendants of node `i` that `sel` selects, in document order.
pub open spec fn select_in(d: Seq<DomNodeView>, i: int, sel: SelectorView) -> Seq<int> {
    index_range(i + 1, subtree_end(d, i)).filter(selected_by(d, sel))
}

/// Every element of the document that `sel` selects, in document order.
pub open spec fn select_all(d: Seq<DomNodeView>, sel: SelectorView) -> Seq<int> {
    index_range(0, d.len() as int).filter(selected_by(d, sel))
}

/// The first text node met when walking the descendants of node `i` from
/// index `j` on.
pub open spec fn first_text_from(d: Seq<DomNodeView>, i: int, j: int) -> Option<Seq<char>>
    decreases d.len() - j,
{
    if 0 <= j < d.len() && d[j].depth > d[i].depth {
        match d[j].kind {
            NodeKindView::Text(t) => Some(t),
            _ => first_text_from(d, i, j + 1),
        }
    } else {
        None
    }
}

/// The first run of text inside node `i`, if there is one.
pub open spec fn first_text(d: Seq<DomNodeView>, i: int) -> Option<Seq<char>> {
    first_text_from(d, i, i + 1)
}

/// The value of the link attribute of node `i`, if it is an element that has one.
pub open spec fn href_of(d: Seq<DomNodeView>, i: int) -> Option<Seq<char>> {
    match d[i].kind {
        NodeKindView::Element { href, .. } => href,
        _ => None,
    }
}

/// The indices of a list, as integers.
pub open spec fn indices_view(v: Seq<usize>) -> Seq<int> {
    v.map_values(|j: usize| j as int)
}

proof fn lemma_range_push(lo: int, hi: int)
    requires
        lo <= hi,
    ensures
        index_range(lo, hi + 1) == index_range(lo, hi).push(hi),
{
    assert(index_range(lo, hi + 1) =~= index_range(lo, hi).push(hi));
}

fn contains_word(ws: &Vec<String>, w: &str) -> (r: bool)
    ensures
        r == views_of(ws@).contains(w@),
{
    let mut k: usize = 0;
    while k < ws.len()
        invariant
            k <= ws.len(),
            forall|q: int| 0 <= q < k ==> ws@[q]@ != w@,
        decreases ws.len() - k,
    {
        if same_text(ws[k].as_str(), w) {
            assert(views_of(ws@)[k as int] == w@);
            return true;
        }
        k += 1;
    }
    assert(!views_of(ws@).contains(w@)) by {
        if views_of(ws@).contains(w@) {
            let q = choose|q: int| 0 <= q < views_of(ws@).len() && views_of(ws@)[q] == w@;
            assert(ws@[q]@ == w@);
        }
    }
    false
}

impl Selector {
    /// Whether this selector selects node `n`.
    pub fn selects(&self, n: &DomNode) -> (r: bool)
        ensures
            r == selects(self@, n@),
    {
        match &n.kind {
            NodeKind::Element { name, class, href } => {
                if !same_text(name.as_str(), self.tag) {
                    return false;
                }
                let ws: Vec<String> = match class {
                    Some(c) => split_words(c.as_str()),
                    None => Vec::new(),
                };
                assert(views_of(ws@) =~= class_list(option_view(*class)));
                let mut k: usize = 0;
                while k < self.classes.len()
                    invariant
                        n@.kind == (NodeKindView::Element { name: name@, class: option_view(*class), href: option_view(*href) }),
                        name@ == self@.tag,
                        views_of(ws@) == class_list(option_view(*class)),
                        k <= self.classes.len(),
                        forall|q: int| 0 <= q < k ==> class_list(option_view(*class)).contains(#[trigger] self@.classes[q]),
                    decreases self.classes.len() - k,
                {
                    assert(self@.classes[k as int] == self.classes@[k as int]@);
                    if !contains_word(&ws, self.classes[k]) {
                        assert(!class_list(option_view(*class)).contains(self@.classes[k as int]));
                        assert(self@.classes.len() == self.classes@.len());
                        return false;
                    }
                    k += 1;
                }
                true
            },
            _ => false,
        }
    }
}

impl Document {
    /// Parses an HTML document.
    pub fn parse(text: &str) -> (r: Document)
        ensures
            r@ == html_nodes_of(text@, "class"@, "href"@),
    {
        parse_html(text, "class", "href")
    }

    /// The descendants of node `i` that `sel` selects, in document order.
    pub fn select_in(&self, i: usize, sel: &Selector) -> (r: Vec<usize>)
        requires
            i < self@.len(),
        ensures
            indices_view(r@) == select_in(self@, i as int, sel@),
            forall|k: int| 0 <= k < r@.len() ==> r@[k] < self@.len(),
    {
        let n = self.nodes.len();
        let base = self.nodes[i].depth;
        let mut out: Vec<usize> = Vec::new();
        let mut j: usize = i + 1;
        proof {
            reveal(Seq::filter);
            assert(index_range(i + 1, j as int) =~= Seq::<int>::empty());
        }
        while j < n && self.nodes[j].depth > base
            invariant
                n == self@.len(),
                i < j <= n,
                base == self@[i as int].depth,
                subtree_end(self@, i as int) == subtree_end_from(self@, i as int, j as int),
                indices_view(out@) == index_range(i + 1, j as int).filter(selected_by(self@, sel@)),
                forall|k: int| 0 <= k < out@.len() ==> out@[k] < n,
            decreases n - j,
        {
            proof {
                lemma_range_push(i + 1, j as int);
                index_range(i + 1, j as int).lemma_filter_push(j as int, selected_by(self@, sel@));
            }
            let ghost before = out@;
            if sel.selects(&self.nodes[j]) {
                out.push(j);
                assert(indices_view(out@) =~= indices_view(before).push(j as int));
            }
            j += 1;
        }
        out
    }

    /// The first run of text inside node `i`, if there is one.
    pub fn first_text(&self, i: usize) -> (r: Option<String>)
        requires
            i < self@.len(),
        ensures
            option_view(r) == first_text(self@, i as int),
    {
        let n = self.nodes.len();
        let base = self.nodes[i].depth;
        let mut j: usize = i + 1;
        while j < n && self.nodes[j].depth > base
            invariant
                n == self@.len(),
                i < j <= n,
                base == self@[i as int].depth,
                first_text(self@, i as int) == first_text_from(self@, i as int, j as int),
            decreases n - j,
        {
            if let NodeKind::Text(t) = &self.nodes[j].kind {
                return Some(t.clone());
            }
            j += 1;
        }
        None
    }

    /// The value of the link attribute of node `i`.
    pub fn href(&self, i: usize) -> (r: Option<String>)
        requires
            i < self@.len(),
        ensures
            option_view(r) == href_of(self@, i as int),
    {
        match &self.nodes[i].kind {
            NodeKind::Element { href, .. } => match href {
                Some(h) => Some(h.clone()),
                None => None,
            },
            _ => None,
        }
    }

    /// Every element that `sel` selects, in document order.
    pub fn select_all(&self, sel: &Selector) -> (r: Vec<usize>)
        ensures
            indices_view(r@) == select_all(self@, sel@),
            forall|k: int| 0 <= k < r@.len() ==> r@[k] < self@.len(),
    {
        let n = self.nodes.len();
        let mut out: Vec<usize> = Vec::new();
        let mut j: usize = 0;
        proof {
            reveal(Seq::filter);
            assert(index_range(0, 0) =~= Seq::<int>::empty());
        }
        while j < n
            invariant
                n == self@.len(),
                j <= n,
                indices_view(out@) == index_range(0, j as int).filter(selected_by(self@, sel@)),
                forall|k: int| 0 <= k < out@.len() ==> out@[k] < n,
            decreases n - j,
        {
            proof {
                lemma_range_push(0, j as int);
                index_range(0, j as int).lemma_filter_push(j as int, selected_by(self@, sel@));
            }
            let ghost before = out@;
            if sel.selects(&self.nodes[j]) {
                out.push(j);
                assert(indices_view(out@) =~= indices_view(before).push(j as int));
            }
            j += 1;
        }
        out
    }
}

} // verus!
