//! An element of an XML document, as the workspace reader sees it: a
//! name, attributes in document order, and child elements; and the reading
//! of a document's text into its root element.

use vstd::prelude::*;

use crate::json::pair_views;
use crate::text::str_eq;

verus! {

/// One XML element.
#[derive(Debug)]
pub struct Element {
    /// The tag name, e.g. `FileRef`.
    pub name: String,
    /// The attributes as `(name, value)` pairs, in document order.
    pub attributes: Vec<(String, String)>,
    /// The child elements, in document order.
    pub children: Vec<Element>,
}

/// The value of the first attribute called `name`.
pub open spec fn attr_value(attributes: Seq<(String, String)>, name: Seq<char>) -> Option<Seq<char>>
    decreases attributes.len(),
{
    if attributes.len() == 0 {
        None
    } else if attributes[0].0@ == name {
        Some(attributes[0].1@)
    } else {
        attr_value(attributes.drop_first(), name)
    }
}

/// The value of an attribute is that of the first attribute with its name:
/// it is found exactly when some attribute has the name, and no earlier
/// attribute has it.
pub proof fn lemma_attr_value_is_first(attributes: Seq<(String, String)>, name: Seq<char>)
    ensures
        attr_value(attributes, name) is None <==> forall|i: int|
            0 <= i < attributes.len() ==> #[trigger] attributes[i].0@ != name,
        attr_value(attributes, name) matches Some(v) ==> exists|i: int|
            0 <= i < attributes.len() && #[trigger] attributes[i].0@ == name && attributes[i].1@ == v
                && forall|j: int| 0 <= j < i ==> attributes[j].0@ != name,
    decreases attributes.len(),
{
    if attributes.len() > 0 {
        lemma_attr_value_is_first(attributes.drop_first(), name);
        let rest = attributes.drop_first();
        if attributes[0].0@ != name {
            assert forall|i: int| 0 < i < attributes.len() implies #[trigger] attributes[i] == rest[i - 1] by {}
            if attr_value(rest, name) is None {
                assert forall|i: int| 0 <= i < attributes.len() implies #[trigger] attributes[i].0@ != name by {
                    if i > 0 {
                        assert(attributes[i] == rest[i - 1]);
                    }
                }
            } else {
                let v = attr_value(rest, name)->0;
                let i = choose|i: int|
                    0 <= i < rest.len() && #[trigger] rest[i].0@ == name && rest[i].1@ == v
                        && forall|j: int| 0 <= j < i ==> rest[j].0@ != name;
                assert(attributes[i + 1] == rest[i]);
                assert forall|j: int| 0 <= j < i + 1 implies attributes[j].0@ != name by {
                    if j > 0 {
                        assert(attributes[j] == rest[j - 1]);
                    }
                }
                assert(attributes[i + 1].0@ == name);
            }
        }
    }
}

impl Element {
    /// The value of the attribute called `name`, if the element has one.
    pub fn attr(&self, name: &str) -> (r: Option<&str>)
        ensures
            r matches Some(v) ==> attr_value(self.attributes@, name@) == Some(v@),
            r is None ==> attr_value(self.attributes@, name@) is None,
    {
        let mut i: usize = 0;
        assert(self.attributes@.skip(0) =~= self.attributes@);
        while i < self.attributes.len()
            invariant
                i <= self.attributes.len(),
                attr_value(self.attributes@, name@) == attr_value(
                    self.attributes@.skip(i as int),
                    name@,
                ),
            decreases self.attributes.len() - i,
        {
            assert(self.attributes@.skip(i as int).drop_first() =~= self.attributes@.skip(i + 1));
            if str_eq(self.attributes[i].0.as_str(), name) {
                return Some(self.attributes[i].1.as_str());
            }
            i = i + 1;
        }
        None
    }
}

/// One element of a document as the parser lists it: its depth (the
/// number of its ancestors, itself and the document node included), its
/// tag name, and its attributes in document order.
pub type ListedElement = (usize, String, Vec<(String, String)>);

/// The text of a listed element.
pub open spec fn listed_view(item: ListedElement) -> (nat, Seq<char>, Seq<(Seq<char>, Seq<char>)>) {
    (item.0 as nat, item.1@, pair_views(item.2@))
}

/// The texts of listed elements.
pub open spec fn listed_views(items: Seq<ListedElement>) -> Seq<(nat, Seq<char>, Seq<(Seq<char>, Seq<char>)>)> {
    items.map_values(|item: ListedElement| listed_view(item))
}

/// What `roxmltree` makes of a text: `None` when it is not well-formed
/// XML, else the elements of the document in document order, each with
/// its depth, tag name and attributes.
pub uninterp spec fn xml_element_listing(text: Seq<char>) -> Option<Seq<(nat, Seq<char>, Seq<(Seq<char>, Seq<char>)>)>>;

/// `roxmltree::Document::parse`, then the elements below and including the
/// root element (`descendants()`, which walks in document order) with
/// each one's `ancestors().count()`, tag name and attributes; or the
/// parser's message when the text is not well-formed XML.
#[verifier::external_body]
fn xml_elements(text: &str) -> (r: Result<Vec<ListedElement>, String>)
    ensures
        r is Ok <==> xml_element_listing(text@) is Some,
        r matches Ok(v) ==> xml_element_listing(text@) == Some(listed_views(v@)),
{
    let doc = match roxmltree::Document::parse(text) {
        Ok(d) => d,
        Err(e) => return Err(e.to_string()),
    };
    let mut items = Vec::new();
    for n in doc.root_element().descendants() {
        if n.is_element() {
            let mut attrs = Vec::new();
            for a in n.attributes() {
                attrs.push((a.name().to_string(), a.value().to_string()));
            }
            items.push((n.ancestors().count(), n.tag_name().name().to_string(), attrs));
        }
    }
    Ok(items)
}

/// The elements of the tree rooted at `e`, in document order, `e` at
/// depth `depth`.
pub open spec fn element_listing(e: Element, depth: nat) -> Seq<(nat, Seq<char>, Seq<(Seq<char>, Seq<char>)>)>
    decreases e, 1int,
{
    seq![(depth, e.name@, pair_views(e.attributes@))] + children_listing(e.children@, depth + 1)
}

/// The elements of the trees rooted at `children`, in document order, each
/// child at depth `depth`.
pub open spec fn children_listing(children: Seq<Element>, depth: nat) -> Seq<(nat, Seq<char>, Seq<(Seq<char>, Seq<char>)>)>
    decreases children, 0int,
{
    if children.len() == 0 {
        Seq::empty()
    } else {
        children_listing(children.drop_last(), depth) + element_listing(children.last(), depth)
    }
}

/// A listing that is the document-order listing of one tree: it is not
/// empty, every element after the first is deeper than the first, and each
/// is at most one level deeper than the one before it.
pub open spec fn listing_well_formed(l: Seq<(nat, Seq<char>, Seq<(Seq<char>, Seq<char>)>)>) -> bool {
    &&& l.len() > 0
    &&& forall|k: int| 0 < k < l.len() ==> #[trigger] l[k].0 > l[0].0
    &&& forall|k: int| 0 < k < l.len() ==> #[trigger] l[k].0 <= l[k - 1].0 + 1
}

/// The listing of every tree is well-formed and starts at the root's
/// depth: only listings that no tree has are refused.
pub proof fn lemma_element_listing_well_formed(e: Element, depth: nat)
    ensures
        listing_well_formed(element_listing(e, depth)),
        element_listing(e, depth)[0].0 == depth,
    decreases e, 1int,
{
    let c = children_listing(e.children@, depth + 1);
    lemma_children_listing_shape(e.children@, depth + 1);
    let l = element_listing(e, depth);
    assert(l == seq![(depth, e.name@, pair_views(e.attributes@))] + c);
    assert forall|k: int| 0 < k < l.len() implies #[trigger] l[k].0 > l[0].0 by {
        assert(l[k] == c[k - 1]);
    }
    assert forall|k: int| 0 < k < l.len() implies #[trigger] l[k].0 <= l[k - 1].0 + 1 by {
        assert(l[k] == c[k - 1]);
        if k > 1 {
            assert(l[k - 1] == c[k - 2]);
        }
    }
}

/// The listing of a sequence of sibling trees at depth `depth`: every
/// element is at least that deep, the first is exactly that deep, and each
/// is at most one level deeper than the one before it.
pub proof fn lemma_children_listing_shape(children: Seq<Element>, depth: nat)
    ensures
        forall|k: int|
            0 <= k < children_listing(children, depth).len() ==> #[trigger] children_listing(
                children,
                depth,
            )[k].0 >= depth,
        children_listing(children, depth).len() > 0 ==> children_listing(children, depth)[0].0
            == depth,
        forall|k: int|
            0 < k < children_listing(children, depth).len() ==> #[trigger] children_listing(
                children,
                depth,
            )[k].0 <= children_listing(children, depth)[k - 1].0 + 1,
    decreases children, 0int,
{
    if children.len() > 0 {
        let a = children_listing(children.drop_last(), depth);
        let b = element_listing(children.last(), depth);
        lemma_children_listing_shape(children.drop_last(), depth);
        lemma_element_listing_well_formed(children.last(), depth);
        let l = children_listing(children, depth);
        assert(l == a + b);
        assert forall|k: int| 0 <= k < l.len() implies #[trigger] l[k].0 >= depth by {
            if k < a.len() {
                assert(l[k] == a[k]);
            } else {
                assert(l[k] == b[k - a.len()]);
                if k > a.len() {
                    assert(b[k - a.len()].0 > b[0].0);
                }
            }
        }
        if a.len() > 0 {
            assert(l[0] == a[0]);
        } else {
            assert(l[0] == b[0]);
        }
        assert forall|k: int| 0 < k < l.len() implies #[trigger] l[k].0 <= l[k - 1].0 + 1 by {
            if k < a.len() {
                assert(l[k] == a[k]);
                assert(l[k - 1] == a[k - 1]);
            } else if k == a.len() {
                assert(l[k] == b[0]);
                assert(l[k - 1] == a[k - 1]);
            } else {
                assert(l[k] == b[k - a.len()]);
                assert(l[k - 1] == b[k - 1 - a.len()]);
            }
        }
    }
}

/// A copy of a list of attributes.
fn copy_attributes(a: &Vec<(String, String)>) -> (r: Vec<(String, String)>)
    ensures
        r@ == a@,
{
    let mut r: Vec<(String, String)> = Vec::new();
    let mut i: usize = 0;
    while i < a.len()
        invariant
            i <= a.len(),
            r@ == a@.take(i as int),
        decreases a.len() - i,
    {
        r.push((a[i].0.clone(), a[i].1.clone()));
        assert(r@ =~= a@.take(i + 1));
        i = i + 1;
    }
    assert(a@.take(a.len() as int) =~= a@);
    r
}

/// Builds the element listed at `i` with the elements listed after it
/// that are deeper, as its descendants; returns it and the index where
/// its subtree ends.
fn build_element(items: &Vec<ListedElement>, i: usize) -> (r: (Element, usize))
    requires
        i < items.len(),
        forall|k: int| i < k < items.len() ==> #[trigger] items@[k].0 <= items@[k - 1].0 + 1,
    ensures
        i < r.1 <= items.len(),
        element_listing(r.0, items@[i as int].0 as nat) == listed_views(items@).subrange(
            i as int,
            r.1 as int,
        ),
        r.1 < items.len() ==> items@[r.1 as int].0 <= items@[i as int].0,
    decreases items.len() - i,
{
    let ghost views = listed_views(items@);
    let d: usize = items[i].0;
    let mut children: Vec<Element> = Vec::new();
    let mut j: usize = i + 1;
    assert(views.subrange(i + 1, j as int) =~= Seq::<(nat, Seq<char>, Seq<(Seq<char>, Seq<char>)>)>::empty());
    while j < items.len() && items[j].0 > d
        invariant
            i < j <= items.len(),
            d == items@[i as int].0,
            views == listed_views(items@),
            forall|k: int| i < k < items.len() ==> #[trigger] items@[k].0 <= items@[k - 1].0 + 1,
            j < items.len() ==> (j == i + 1 || items@[j as int].0 <= d + 1),
            children_listing(children@, d as nat + 1) == views.subrange(i + 1, j as int),
        decreases items.len() - j,
    {
        assert(items@[j as int].0 == d + 1);
        let ghost before = children@;
        let (c, next): (Element, usize) = build_element(items, j);
        children.push(c);
        assert(children@.drop_last() =~= before);
        assert(views.subrange(i + 1, next as int) =~= views.subrange(i + 1, j as int) + views.subrange(
            j as int,
            next as int,
        ));
        j = next;
    }
    let e = Element {
        name: items[i].1.clone(),
        attributes: copy_attributes(&items[i].2),
        children,
    };
    assert(views[i as int] == listed_view(items@[i as int]));
    assert(views.subrange(i as int, j as int) =~= seq![views[i as int]] + views.subrange(
        i + 1,
        j as int,
    ));
    (e, j)
}

/// The tree whose document-order listing `items` is, or `None` when no
/// tree has it.
pub fn element_tree(items: &Vec<ListedElement>) -> (r: Option<Element>)
    ensures
        r is Some <==> listing_well_formed(listed_views(items@)),
        r matches Some(e) ==> element_listing(e, items@[0].0 as nat) == listed_views(items@),
{
    let ghost views = listed_views(items@);
    if items.len() == 0 {
        return None;
    }
    let d0: usize = items[0].0;
    let mut k: usize = 1;
    while k < items.len()
        invariant
            1 <= k <= items.len(),
            d0 == items@[0].0,
            views == listed_views(items@),
            forall|m: int| 0 < m < k ==> #[trigger] items@[m].0 > d0 && items@[m].0 <= items@[m - 1].0 + 1,
        decreases items.len() - k,
    {
        if items[k].0 <= d0 || items[k].0 - 1 > items[k - 1].0 {
            proof {
                assert(views[k as int] == listed_view(items@[k as int]));
                assert(views[k - 1] == listed_view(items@[k - 1]));
                assert(views[0] == listed_view(items@[0]));
                assert(!(views[k as int].0 > views[0].0 && views[k as int].0 <= views[k - 1].0 + 1));
            }
            return None;
        }
        k = k + 1;
    }
    assert forall|m: int| 0 < m < views.len() implies #[trigger] views[m].0 > views[0].0 by {
        assert(views[m] == listed_view(items@[m]));
        assert(views[0] == listed_view(items@[0]));
    }
    assert forall|m: int| 0 < m < views.len() implies #[trigger] views[m].0 <= views[m - 1].0 + 1 by {
        assert(views[m] == listed_view(items@[m]));
        assert(views[m - 1] == listed_view(items@[m - 1]));
    }
    let (e, next): (Element, usize) = build_element(items, 0);
    if next < items.len() {
        assert(items@[next as int].0 > d0);
    }
    assert(views.subrange(0, items.len() as int) =~= views);
    Some(e)
}

/// Reads the text of an XML document into its root element: the parser's
/// message when the text is not well-formed XML, else the tree whose
/// document-order listing is what the parser lists.
pub fn parse_element_tree(text: &str) -> (r: Result<Element, String>)
    ensures
        xml_element_listing(text@) is None ==> r is Err,
        xml_element_listing(text@) matches Some(l) ==> (r is Ok <==> listing_well_formed(l)),
        r matches Ok(e) ==> (xml_element_listing(text@) matches Some(l) && element_listing(e, l[0].0)
            == l),
{
    let items = match xml_elements(text) {
        Ok(v) => v,
        Err(m) => return Err(m),
    };
    match element_tree(&items) {
        Some(e) => Ok(e),
        None => Err("the document has no root element".to_owned()),
    }
}

} // verus!
