//! The schema model: a tree of named nodes with attributes, an optional text
//! and ordered children, as it is read from a protocol description.

use crate::text::same_text;
use vstd::prelude::*;

verus! {

/// One node of a schema tree. Attributes are kept in the order in which
/// they were given; where a name occurs more than once, the last one counts.
pub struct XmlElement {
    pub name: String,
    pub attributes: Vec<(String, String)>,
    pub value: Option<String>,
    pub children: Vec<XmlElement>,
}

/// What an [`XmlElement`] holds, as mathematical values.
pub struct ElementModel {
    pub name: Seq<char>,
    pub attributes: Seq<(Seq<char>, Seq<char>)>,
    pub value: Option<Seq<char>>,
    pub children: Seq<ElementModel>,
}

/// The models of a list of attributes.
pub open spec fn attribute_models(attrs: Seq<(String, String)>) -> Seq<(Seq<char>, Seq<char>)> {
    Seq::new(attrs.len(), |i: int| (attrs[i].0@, attrs[i].1@))
}

/// The model of an optional text.
pub open spec fn text_model(text: Option<String>) -> Option<Seq<char>> {
    match text {
        Some(t) => Some(t@),
        None => None,
    }
}

/// The models of the first `n` nodes of a vector.
pub open spec fn elements_of(v: Vec<XmlElement>, n: int) -> Seq<ElementModel>
    decreases v, n,
{
    if n <= 0 || n > v@.len() {
        Seq::empty()
    } else {
        elements_of(v, n - 1).push(v@[n - 1]@)
    }
}

impl View for XmlElement {
    type V = ElementModel;

    open spec fn view(&self) -> ElementModel
        decreases self, 0int,
    {
        ElementModel {
            name: self.name@,
            attributes: attribute_models(self.attributes@),
            value: text_model(self.value),
            children: elements_of(self.children, self.children@.len() as int),
        }
    }
}

/// The models of a sequence of nodes.
pub open spec fn element_models(nodes: Seq<XmlElement>) -> Seq<ElementModel> {
    Seq::new(nodes.len(), |i: int| nodes[i]@)
}

/// The value of the last attribute named `name` among the first `n`.
pub open spec fn attribute_upto(attrs: Seq<(Seq<char>, Seq<char>)>, name: Seq<char>, n: int) -> Option<
    Seq<char>,
>
    decreases n,
{
    if n <= 0 || n > attrs.len() {
        None
    } else if attrs[n - 1].0 == name {
        Some(attrs[n - 1].1)
    } else {
        attribute_upto(attrs, name, n - 1)
    }
}

/// The value of the attribute named `name`: where the name occurs more than
/// once, that of the last.
pub open spec fn attribute_of(attrs: Seq<(Seq<char>, Seq<char>)>, name: Seq<char>) -> Option<
    Seq<char>,
> {
    attribute_upto(attrs, name, attrs.len() as int)
}

/// The index of the first of the nodes from `from` on that is named `name`.
pub open spec fn first_named(nodes: Seq<ElementModel>, name: Seq<char>, from: int) -> Option<int>
    decreases nodes.len() - from,
{
    if from < 0 || from >= nodes.len() {
        None
    } else if nodes[from].name == name {
        Some(from)
    } else {
        first_named(nodes, name, from + 1)
    }
}

/// The text of the first child named `name`, if there is such a child and it
/// has a text.
pub open spec fn child_text(node: ElementModel, name: Seq<char>) -> Option<Seq<char>> {
    match first_named(node.children, name, 0) {
        Some(i) => node.children[i].value,
        None => None,
    }
}

/// What a node declares under `name`: the text of its first child of that
/// name or, where it has no such text, its own attribute of that name.
pub open spec fn declared_text(node: ElementModel, name: Seq<char>) -> Option<Seq<char>> {
    match child_text(node, name) {
        Some(t) => Some(t),
        None => attribute_of(node.attributes, name),
    }
}

/// Those of the first `n` nodes that are named `name`.
pub open spec fn named_among(nodes: Seq<ElementModel>, name: Seq<char>, n: int) -> Seq<
    ElementModel,
>
    decreases n,
{
    if n <= 0 || n > nodes.len() {
        Seq::empty()
    } else if nodes[n - 1].name == name {
        named_among(nodes, name, n - 1).push(nodes[n - 1])
    } else {
        named_among(nodes, name, n - 1)
    }
}

/// The items named `name` among the first `n` children: a child of that
/// name counts itself; any other child contributes its own children of that
/// name. This looks at one level and, failing that, one level down.
pub open spec fn items_upto(node: ElementModel, name: Seq<char>, n: int) -> Seq<ElementModel>
    decreases n,
{
    if n <= 0 || n > node.children.len() {
        Seq::empty()
    } else {
        let child = node.children[n - 1];
        items_upto(node, name, n - 1) + (if child.name == name {
            seq![child]
        } else {
            named_among(child.children, name, child.children.len() as int)
        })
    }
}

/// The items named `name` under a node.
pub open spec fn items_of(node: ElementModel, name: Seq<char>) -> Seq<ElementModel> {
    items_upto(node, name, node.children.len() as int)
}

/// The node with the text of its first child named `name` set to `text`; a
/// node without such a child gets one at the end, without attributes and
/// children.
pub open spec fn with_child_text(node: ElementModel, name: Seq<char>, text: Seq<char>) -> ElementModel {
    match first_named(node.children, name, 0) {
        Some(i) => ElementModel {
            children: node.children.update(
                i,
                ElementModel { value: Some(text), ..node.children[i] },
            ),
            ..node
        },
        None => ElementModel {
            children: node.children.push(
                ElementModel {
                    name,
                    attributes: Seq::empty(),
                    value: Some(text),
                    children: Seq::empty(),
                },
            ),
            ..node
        },
    }
}

pub proof fn lemma_elements_of(v: Vec<XmlElement>, n: int)
    requires
        0 <= n <= v@.len(),
    ensures
        elements_of(v, n) == element_models(v@.take(n)),
    decreases n,
{
    let a = elements_of(v, n);
    let b = element_models(v@.take(n));
    if n > 0 {
        lemma_elements_of(v, n - 1);
        assert(a == elements_of(v, n - 1).push(v@[n - 1]@));
        assert forall|i: int| 0 <= i < n implies a[i] == b[i] by {
            if i < n - 1 {
                assert(element_models(v@.take(n - 1))[i] == v@.take(n - 1)[i]@);
                assert(a[i] == v@[i]@);
            } else {
                assert(a[i] == v@[n - 1]@);
            }
            assert(b[i] == v@.take(n)[i]@);
        }
    }
    assert(a =~= b);
}

/// The children of a node's model are the models of its children.
pub proof fn lemma_children(e: XmlElement)
    ensures
        e@.children == element_models(e.children@),
        e@.children.len() == e.children@.len(),
        forall|i: int| 0 <= i < e.children@.len() ==> #[trigger] e@.children[i] == e.children@[i]@,
{
    lemma_elements_of(e.children, e.children@.len() as int);
    assert(e.children@.take(e.children@.len() as int) =~= e.children@);
}

pub proof fn lemma_element_models_push(nodes: Seq<XmlElement>, x: XmlElement)
    ensures
        element_models(nodes.push(x)) == element_models(nodes).push(x@),
{
    assert(element_models(nodes.push(x)) =~= element_models(nodes).push(x@));
}

pub proof fn lemma_first_named_skip(nodes: Seq<ElementModel>, name: Seq<char>, from: int, to: int)
    requires
        0 <= from <= to <= nodes.len(),
        forall|j: int| from <= j < to ==> (#[trigger] nodes[j]).name != name,
    ensures
        first_named(nodes, name, from) == first_named(nodes, name, to),
    decreases to - from,
{
    if from < to {
        lemma_first_named_skip(nodes, name, from + 1, to);
    }
}

/// A copy of a list of attributes.
pub fn duplicate_attributes(attrs: &Vec<(String, String)>) -> (copy: Vec<(String, String)>)
    ensures
        attribute_models(copy@) == attribute_models(attrs@),
{
    let mut copy: Vec<(String, String)> = Vec::new();
    let mut i: usize = 0;
    while i < attrs.len()
        invariant
            i <= attrs.len(),
            copy@.len() == i,
            forall|j: int|
                0 <= j < i ==> copy@[j].0@ == attrs@[j].0@ && copy@[j].1@ == attrs@[j].1@,
        decreases attrs.len() - i,
    {
        let k = attrs[i].0.clone();
        let v = attrs[i].1.clone();
        copy.push((k, v));
        i += 1;
    }
    assert(attribute_models(copy@) =~= attribute_models(attrs@));
    copy
}

/// A copy of an optional text.
pub fn duplicate_text(text: &Option<String>) -> (copy: Option<String>)
    ensures
        text_model(copy) == text_model(*text),
{
    match text {
        Some(t) => Some(t.clone()),
        None => None,
    }
}

impl XmlElement {
    /// A node with the given parts.
    pub fn new(
        name: String,
        attributes: Vec<(String, String)>,
        value: Option<String>,
        children: Vec<XmlElement>,
    ) -> (e: XmlElement)
        ensures
            e@ == (ElementModel {
                name: name@,
                attributes: attribute_models(attributes@),
                value: text_model(value),
                children: element_models(children@),
            }),
    {
        let e = XmlElement { name, attributes, value, children };
        proof {
            lemma_children(e);
        }
        e
    }

    /// A copy of the node with all that is below it.
    pub fn duplicate(&self) -> (copy: XmlElement)
        ensures
            copy@ == self@,
        decreases self,
    {
        let mut children: Vec<XmlElement> = Vec::new();
        let mut i: usize = 0;
        while i < self.children.len()
            invariant
                i <= self.children.len(),
                children@.len() == i,
                forall|j: int| 0 <= j < i ==> children@[j]@ == self.children@[j]@,
            decreases self.children.len() - i,
        {
            let c = self.children[i].duplicate();
            children.push(c);
            i += 1;
        }
        let copy = XmlElement {
            name: self.name.clone(),
            attributes: duplicate_attributes(&self.attributes),
            value: duplicate_text(&self.value),
            children,
        };
        proof {
            lemma_children(copy);
            lemma_children(*self);
            assert(element_models(copy.children@) =~= element_models(self.children@));
        }
        copy
    }

    /// Copies of the children, in order.
    pub fn get_children(&self) -> (copies: Vec<XmlElement>)
        ensures
            element_models(copies@) == self@.children,
    {
        let mut copies: Vec<XmlElement> = Vec::new();
        let mut i: usize = 0;
        while i < self.children.len()
            invariant
                i <= self.children.len(),
                copies@.len() == i,
                forall|j: int| 0 <= j < i ==> copies@[j]@ == self.children@[j]@,
            decreases self.children.len() - i,
        {
            copies.push(self.children[i].duplicate());
            i += 1;
        }
        proof {
            lemma_children(*self);
            assert(element_models(copies@) =~= element_models(self.children@));
        }
        copies
    }

    /// The first child named `name`.
    pub fn get_child(&self, name: &str) -> (r: Option<&XmlElement>)
        ensures
            match r {
                Some(child) => first_named(self@.children, name@, 0) is Some && child@
                    == self@.children[first_named(self@.children, name@, 0)->0],
                None => first_named(self@.children, name@, 0) is None,
            },
    {
        proof {
            lemma_children(*self);
        }
        let mut i: usize = 0;
        while i < self.children.len()
            invariant
                i <= self.children.len(),
                self@.children.len() == self.children@.len(),
                forall|j: int|
                    0 <= j < self.children@.len() ==> #[trigger] self@.children[j]
                        == self.children@[j]@,
                forall|j: int| 0 <= j < i ==> (#[trigger] self@.children[j]).name != name@,
            decreases self.children.len() - i,
        {
            if same_text(self.children[i].name.as_str(), name) {
                proof {
                    lemma_first_named_skip(self@.children, name@, 0, i as int);
                }
                return Some(&self.children[i]);
            }
            i += 1;
        }
        proof {
            lemma_first_named_skip(self@.children, name@, 0, i as int);
        }
        None
    }

    /// The value of the attribute named `name`; see [`attribute_of`].
    pub fn get_attribute(&self, name: &str) -> (r: Option<&String>)
        ensures
            match r {
                Some(v) => attribute_of(self@.attributes, name@) == Some(v@),
                None => attribute_of(self@.attributes, name@) is None,
            },
    {
        find_attribute(&self.attributes, name)
    }

    /// The text of the first child named `name`; see [`child_text`].
    pub fn get_child_text(&self, name: &str) -> (r: Option<String>)
        ensures
            text_model(r) == child_text(self@, name@),
    {
        match self.get_child(name) {
            Some(child) => duplicate_text(&child.value),
            None => None,
        }
    }

    /// What the node declares under `name`; see [`declared_text`].
    pub fn get_declared(&self, name: &str) -> (r: Option<String>)
        ensures
            text_model(r) == declared_text(self@, name@),
    {
        match self.get_child_text(name) {
            Some(t) => Some(t),
            None => match self.get_attribute(name) {
                Some(a) => Some(a.clone()),
                None => None,
            },
        }
    }

    /// Copies of the items named `name` under the node; see [`items_of`].
    pub fn get_items(&self, name: &str) -> (items: Vec<XmlElement>)
        ensures
            element_models(items@) == items_of(self@, name@),
    {
        let mut items: Vec<XmlElement> = Vec::new();
        proof {
            lemma_children(*self);
            assert(element_models(items@) =~= Seq::<ElementModel>::empty());
        }
        let mut i: usize = 0;
        while i < self.children.len()
            invariant
                i <= self.children.len(),
                self@.children.len() == self.children@.len(),
                forall|j: int|
                    0 <= j < self.children@.len() ==> #[trigger] self@.children[j]
                        == self.children@[j]@,
                element_models(items@) == items_upto(self@, name@, i as int),
            decreases self.children.len() - i,
        {
            let child = &self.children[i];
            let ghost before = element_models(items@);
            if same_text(child.name.as_str(), name) {
                let copy = child.duplicate();
                proof {
                    lemma_element_models_push(items@, copy);
                    assert(before.push(copy@) =~= before + seq![child@]);
                }
                items.push(copy);
            } else {
                proof {
                    lemma_children(*child);
                    assert(before =~= before + named_among(child@.children, name@, 0));
                }
                let mut j: usize = 0;
                while j < child.children.len()
                    invariant
                        j <= child.children.len(),
                        child@.children.len() == child.children@.len(),
                        forall|k: int|
                            0 <= k < child.children@.len() ==> #[trigger] child@.children[k]
                                == child.children@[k]@,
                        element_models(items@) == before + named_among(
                            child@.children,
                            name@,
                            j as int,
                        ),
                    decreases child.children.len() - j,
                {
                    let grandchild = &child.children[j];
                    if same_text(grandchild.name.as_str(), name) {
                        let copy = grandchild.duplicate();
                        proof {
                            lemma_element_models_push(items@, copy);
                            assert(element_models(items@).push(copy@) =~= before + named_among(
                                child@.children,
                                name@,
                                j + 1,
                            ));
                        }
                        items.push(copy);
                    }
                    j += 1;
                }
            }
            i += 1;
        }
        items
    }

    /// The text of the node.
    pub fn get_value(&self) -> (r: Option<String>)
        ensures
            text_model(r) == self@.value,
    {
        duplicate_text(&self.value)
    }

    /// Sets the text of the first child named `name`; a node without such a
    /// child gets one at the end; see [`with_child_text`].
    pub fn update_value(&mut self, name: &str, new_value: String)
        ensures
            final(self)@ == with_child_text(old(self)@, name@, new_value@),
    {
        proof {
            lemma_children(*self);
        }
        let ghost before = *self;
        let mut i: usize = 0;
        while i < self.children.len()
            invariant
                i <= self.children.len(),
                *self == before,
                before == *old(self),
                before@.children.len() == before.children@.len(),
                forall|j: int|
                    0 <= j < before.children@.len() ==> #[trigger] before@.children[j]
                        == before.children@[j]@,
                forall|j: int| 0 <= j < i ==> (#[trigger] before@.children[j]).name != name@,
            decreases self.children.len() - i,
        {
            if same_text(self.children[i].name.as_str(), name) {
                proof {
                    lemma_first_named_skip(before@.children, name@, 0, i as int);
                }
                let old_child = self.children[i].duplicate();
                let new_child = XmlElement {
                    name: old_child.name,
                    attributes: old_child.attributes,
                    value: Some(new_value),
                    children: old_child.children,
                };
                proof {
                    lemma_children(old_child);
                    lemma_children(new_child);
                }
                self.children.set(i, new_child);
                proof {
                    lemma_children(*self);
                    let want = ElementModel {
                        value: Some(new_value@),
                        ..before@.children[i as int]
                    };
                    assert(self@.children =~= before@.children.update(i as int, want));
                }
                return ;
            }
            i += 1;
        }
        proof {
            lemma_first_named_skip(before@.children, name@, 0, i as int);
        }
        let new_child = XmlElement::new(String::from_str(name), Vec::new(), Some(new_value), Vec::new());
        self.children.push(new_child);
        proof {
            lemma_children(*self);
            assert(attribute_models(Seq::<(String, String)>::empty()) =~= Seq::<
                (Seq<char>, Seq<char>),
            >::empty());
            assert(element_models(Seq::<XmlElement>::empty()) =~= Seq::<ElementModel>::empty());
            assert(self@.children =~= before@.children.push(new_child@));
        }
    }
}

/// The value of the attribute named `name` in a list of attributes: where
/// the name occurs more than once, that of the last.
pub fn find_attribute<'a>(attrs: &'a Vec<(String, String)>, name: &str) -> (r: Option<&'a String>)
    ensures
        match r {
            Some(v) => attribute_of(attribute_models(attrs@), name@) == Some(v@),
            None => attribute_of(attribute_models(attrs@), name@) is None,
        },
{
    let ghost models = attribute_models(attrs@);
    let mut i: usize = attrs.len();
    while i > 0
        invariant
            i <= attrs.len(),
            models == attribute_models(attrs@),
            attribute_of(models, name@) == attribute_upto(models, name@, i as int),
        decreases i,
    {
        i -= 1;
        if same_text(attrs[i].0.as_str(), name) {
            return Some(&attrs[i].1);
        }
    }
    None
}

} // verus!
